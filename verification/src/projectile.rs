use vstd::prelude::*;
use crate::battle::{Damage, DamageType, Heal, HealType};
use crate::components::{EntityId, Team};
use crate::game_object::{
    find, models, resolve, sightings, survey, CombatEntity, EntityModel, Sighting, Target,
};
use crate::geometry::{
    boxes_overlap, collide, displaced, moved_toward, step_for, step_length, Position, Size,
};
use crate::skill::clock_add;
use crate::world::{World, WorldModel};

verus! {

/// Whether a projectile follows its target or flies straight.
#[derive(Clone, Copy, Debug, PartialEq, Eq, Structural)]
pub enum ProjectileType {
    Targeting,
    NonTargeting,
}

/// What a projectile carries: its speed, the points it deals, as damage
/// or as a heal or as both, and its lifetime in microseconds.
#[derive(Clone, Copy, Debug, PartialEq, Eq, Structural)]
pub struct Projectile {
    pub projectile_type: ProjectileType,
    pub owner: EntityId,
    pub speed: u32,
    pub damage: i64,
    pub damage_type: Option<DamageType>,
    pub heal_type: Option<HealType>,
    pub lifetime: u64,
}

impl Projectile {
    pub fn new(
        speed: u32,
        damage: i64,
        owner: EntityId,
        damage_type: Option<DamageType>,
        heal_type: Option<HealType>,
        lifetime: u64,
        projectile_type: ProjectileType,
    ) -> (p: Self)
        ensures
            p == (Projectile {
                projectile_type,
                owner,
                speed,
                damage,
                damage_type,
                heal_type,
                lifetime,
            }),
    {
        Self { projectile_type, speed, owner, damage, damage_type, heal_type, lifetime }
    }
}

/// A projectile in flight.
#[derive(Clone, Copy, Debug, PartialEq, Eq, Structural)]
pub struct ProjectileBundle {
    pub projectile: Projectile,
    /// The side that fired it.
    pub team: Team,
    pub position: Position,
    pub size: Option<Size>,
    pub target: Target,
    /// Where it was fired from.
    pub origin: Position,
    /// Where its target stood when it was fired, if it had one.
    pub aim: Option<Position>,
    /// Microseconds in flight.
    pub age: u64,
}

/// The bounding box of every projectile: ten units each way.
pub open spec fn projectile_size() -> Size {
    Size { width: 10_000, height: 10_000 }
}

/// Where the entity that `target` names stands, if it is in the arena.
pub open spec fn aim_at(seen: Seq<Sighting>, target: Target) -> Option<Position> {
    match target.0 {
        Some(t) => match resolve(seen, t) {
            Some(s) => Some(s.position),
            None => None,
        },
        None => None,
    }
}

/// The arena after `projectile` was fired from `position` at `target`. The
/// projectile takes the side of its owner, and is not fired when its owner
/// is not in the arena.
pub open spec fn spawn_projectile_model(
    w: WorldModel,
    projectile: Projectile,
    position: Position,
    target: Target,
) -> WorldModel {
    let seen = sightings(w.entities);
    match resolve(seen, projectile.owner) {
        None => w,
        Some(owner) => WorldModel {
            projectiles: w.projectiles.push(
                ProjectileBundle {
                    projectile,
                    team: owner.team,
                    position,
                    size: Some(projectile_size()),
                    target,
                    origin: position,
                    aim: aim_at(seen, target),
                    age: 0,
                },
            ),
            ..w
        },
    }
}

/// Fires `projectile` from `position` at `target`. Returns whether it was
/// fired: it is not when its owner is not in the arena.
pub fn spawn_projectile(
    world: &mut World,
    projectile: Projectile,
    position: Position,
    target: Target,
) -> (fired: bool)
    ensures
        old(world)@.wf() ==> final(world)@.wf(),
        final(world)@ == spawn_projectile_model(old(world)@, projectile, position, target),
        fired == old(world)@.contains(projectile.owner),
        final(world).entities == old(world).entities,
{
    let seen = survey(&world.entities);
    proof {
        crate::game_object::lemma_resolve(seen@, projectile.owner);
        assert forall|k: int| 0 <= k < seen@.len() implies seen@[k].id == world@.entities[k].id by {}
        assert(crate::game_object::exists_in(seen@, projectile.owner) == world@.contains(
            projectile.owner,
        )) by {
            if world@.contains(projectile.owner) {
                let k = choose|k: int|
                    0 <= k < world@.entities.len() && world@.entities[k].id == projectile.owner;
                assert(seen@[k].id == projectile.owner);
            }
        }
    }
    let owner = match find(&seen, projectile.owner) {
        Some(k) => seen[k],
        None => {
            return false;
        },
    };
    let aim = match target.0 {
        Some(t) => match find(&seen, t) {
            Some(k) => Some(seen[k].position),
            None => None,
        },
        None => None,
    };
    world.projectiles.push(
        ProjectileBundle {
            projectile,
            team: owner.team,
            position,
            size: Some(Size { width: 10_000, height: 10_000 }),
            target,
            origin: position,
            aim,
            age: 0,
        },
    );
    true
}

/// What one tick of `delta` microseconds makes of a projectile in flight.
/// A targeting projectile flies towards where its target stands now, and is
/// destroyed when its target is not in the arena. Any other projectile
/// keeps the direction from its origin to its aim, and stays in place when
/// it has no aim. Its age grows by `delta`.
pub open spec fn flown(p: ProjectileBundle, seen: Seq<Sighting>, delta: u64) -> Option<
    ProjectileBundle,
> {
    let step = step_length(p.projectile.speed, delta);
    let age = clock_add(p.age as nat, delta as nat) as u64;
    match p.projectile.projectile_type {
        ProjectileType::Targeting => match aim_at(seen, p.target) {
            Some(there) => Some(
                ProjectileBundle { position: moved_toward(p.position, there, step), age, ..p },
            ),
            None => None,
        },
        ProjectileType::NonTargeting => Some(
            ProjectileBundle {
                position: match p.aim {
                    Some(aim) => displaced(
                        p.position,
                        aim.x - p.origin.x,
                        aim.y - p.origin.y,
                        step,
                    ),
                    None => p.position,
                },
                age,
                ..p
            },
        ),
    }
}

/// The first `n` projectiles of `ps` after one tick, those that were
/// destroyed left out.
pub open spec fn flown_upto(ps: Seq<ProjectileBundle>, seen: Seq<Sighting>, delta: u64, n: int) -> Seq<
    ProjectileBundle,
>
    decreases n,
{
    if n <= 0 {
        Seq::empty()
    } else {
        let before = flown_upto(ps, seen, delta, n - 1);
        match flown(ps[n - 1], seen, delta) {
            Some(p) => before.push(p),
            None => before,
        }
    }
}

/// The arena after the projectiles have moved.
pub open spec fn move_projectile_model(w: WorldModel, delta: u64) -> WorldModel {
    WorldModel {
        projectiles: flown_upto(
            w.projectiles,
            sightings(w.entities),
            delta,
            w.projectiles.len() as int,
        ),
        ..w
    }
}

/// Moves one projectile for one tick.
fn fly(p: &ProjectileBundle, seen: &Vec<Sighting>, delta: u64) -> (r: Option<ProjectileBundle>)
    ensures
        r == flown(*p, seen@, delta),
{
    let step: u32 = step_for(p.projectile.speed, delta);
    let age: u64 = if p.age <= u64::MAX - delta {
        p.age + delta
    } else {
        u64::MAX
    };
    match p.projectile.projectile_type {
        ProjectileType::Targeting => {
            let t = match p.target.0 {
                Some(t) => t,
                None => {
                    return None;
                },
            };
            match find(seen, t) {
                Some(k) => {
                    let there = seen[k].position;
                    Some(
                        ProjectileBundle {
                            projectile: p.projectile,
                            team: p.team,
                            position: p.position.step_toward(&there, step),
                            size: p.size,
                            target: p.target,
                            origin: p.origin,
                            aim: p.aim,
                            age,
                        },
                    )
                },
                None => None,
            }
        },
        ProjectileType::NonTargeting => {
            let position = match p.aim {
                Some(aim) => {
                    let dx: i64 = aim.x as i64 - p.origin.x as i64;
                    let dy: i64 = aim.y as i64 - p.origin.y as i64;
                    p.position.displace(dx, dy, step)
                },
                None => p.position,
            };
            Some(
                ProjectileBundle {
                    projectile: p.projectile,
                    team: p.team,
                    position,
                    size: p.size,
                    target: p.target,
                    origin: p.origin,
                    aim: p.aim,
                    age,
                },
            )
        },
    }
}

/// The movement of the projectiles, for a tick of `delta` microseconds.
/// Every projectile ages by `delta`. A targeting projectile steps towards
/// its target, and is destroyed when the target is not in the arena; any
/// other projectile steps along the direction it was fired in.
pub fn move_projectile(world: &mut World, delta: u64)
    ensures
        old(world)@.wf() ==> final(world)@.wf(),
        final(world)@ == move_projectile_model(old(world)@, delta),
        final(world).entities == old(world).entities,
{
    let seen = survey(&world.entities);
    let mut kept: Vec<ProjectileBundle> = Vec::new();
    let n = world.projectiles.len();
    let mut i: usize = 0;
    while i < n
        invariant
            i <= n,
            n == world.projectiles.len(),
            *world == *old(world),
            seen@ == sightings(old(world)@.entities),
            kept@ == flown_upto(world.projectiles@, seen@, delta, i as int),
        decreases n - i,
    {
        match fly(&world.projectiles[i], &seen, delta) {
            Some(p) => {
                kept.push(p);
            },
            None => {},
        }
        i += 1;
    }
    world.projectiles = kept;
}

/// The projectile `p` may hit the entity `e`: a targeting projectile
/// only its target, any other projectile every entity of the other side.
pub open spec fn may_hit(p: ProjectileBundle, e: EntityModel) -> bool {
    match p.projectile.projectile_type {
        ProjectileType::Targeting => p.target.0 == Some(e.id),
        ProjectileType::NonTargeting => e.team.0 != p.team.0,
    }
}

/// The projectile `p` hits the entity `e`: it may hit it, both have a
/// bounding box, and the boxes overlap.
pub open spec fn hits(p: ProjectileBundle, e: EntityModel) -> bool {
    &&& may_hit(p, e)
    &&& p.size.is_some()
    &&& e.size.is_some()
    &&& boxes_overlap(p.position, p.size.unwrap(), e.position, e.size.unwrap())
}

/// The damage events of `p` against the first `n` entities, in order.
pub open spec fn damage_dealt(p: ProjectileBundle, all: Seq<EntityModel>, n: int) -> Seq<Damage>
    decreases n,
{
    if n <= 0 {
        Seq::empty()
    } else {
        let before = damage_dealt(p, all, n - 1);
        if hits(p, all[n - 1]) && p.projectile.damage_type.is_some() {
            before.push(
                Damage {
                    attacker: p.projectile.owner,
                    damage: p.projectile.damage,
                    damage_type: p.projectile.damage_type.unwrap(),
                    attacked: all[n - 1].id,
                },
            )
        } else {
            before
        }
    }
}

/// The heal events of `p` against the first `n` entities, in order.
pub open spec fn heal_dealt(p: ProjectileBundle, all: Seq<EntityModel>, n: int) -> Seq<Heal>
    decreases n,
{
    if n <= 0 {
        Seq::empty()
    } else {
        let before = heal_dealt(p, all, n - 1);
        if hits(p, all[n - 1]) && p.projectile.heal_type.is_some() {
            before.push(
                Heal {
                    healer: p.projectile.owner,
                    value: p.projectile.damage,
                    heal_type: p.projectile.heal_type.unwrap(),
                    healed: all[n - 1].id,
                },
            )
        } else {
            before
        }
    }
}

/// The projectile `p` hits one of the first `n` entities.
pub open spec fn hits_any(p: ProjectileBundle, all: Seq<EntityModel>, n: int) -> bool {
    exists|k: int| 0 <= k < n && k < all.len() && hits(p, all[k])
}

/// The arena after the first `n` projectiles were tested for collisions:
/// their events are queued, and those that hit are destroyed.
pub open spec fn collided_upto(w: WorldModel, n: int) -> WorldModel
    decreases n,
{
    if n <= 0 {
        WorldModel { projectiles: Seq::empty(), ..w }
    } else {
        let before = collided_upto(w, n - 1);
        let p = w.projectiles[n - 1];
        let all = w.entities;
        WorldModel {
            projectiles: if hits_any(p, all, all.len() as int) {
                before.projectiles
            } else {
                before.projectiles.push(p)
            },
            damage_events: before.damage_events + damage_dealt(p, all, all.len() as int),
            heal_events: before.heal_events + heal_dealt(p, all, all.len() as int),
            ..before
        }
    }
}

/// The arena after the collision stage.
pub open spec fn check_collisions_model(w: WorldModel) -> WorldModel {
    collided_upto(w, w.projectiles.len() as int)
}

/// Tests one projectile against every entity, queues its events and says
/// whether it hit.
fn collide_one(
    p: &ProjectileBundle,
    entities: &Vec<CombatEntity>,
    damage_events: &mut Vec<Damage>,
    heal_events: &mut Vec<Heal>,
) -> (hit: bool)
    ensures
        hit == hits_any(*p, models(entities@), entities.len() as int),
        final(damage_events)@ == old(damage_events)@ + damage_dealt(
            *p,
            models(entities@),
            entities.len() as int,
        ),
        final(heal_events)@ == old(heal_events)@ + heal_dealt(
            *p,
            models(entities@),
            entities.len() as int,
        ),
{
    let ghost all = models(entities@);
    let mut hit = false;
    let n = entities.len();
    let mut i: usize = 0;
    assert(damage_events@ =~= old(damage_events)@ + damage_dealt(*p, all, 0));
    assert(heal_events@ =~= old(heal_events)@ + heal_dealt(*p, all, 0));
    while i < n
        invariant
            i <= n,
            n == entities.len(),
            all == models(entities@),
            hit == hits_any(*p, all, i as int),
            damage_events@ == old(damage_events)@ + damage_dealt(*p, all, i as int),
            heal_events@ == old(heal_events)@ + heal_dealt(*p, all, i as int),
        decreases n - i,
    {
        let e = &entities[i];
        let may = match p.projectile.projectile_type {
            ProjectileType::Targeting => match p.target.0 {
                Some(t) => t == e.id,
                None => false,
            },
            ProjectileType::NonTargeting => e.team.0 != p.team.0,
        };
        let struck = may && match (p.size, e.size) {
            (Some(p_size), Some(e_size)) => collide(&p.position, &p_size, &e.position, &e_size),
            _ => false,
        };
        assert(struck == hits(*p, all[i as int]));
        if struck {
            match p.projectile.damage_type {
                Some(damage_type) => {
                    damage_events.push(
                        Damage {
                            attacker: p.projectile.owner,
                            damage: p.projectile.damage,
                            damage_type,
                            attacked: e.id,
                        },
                    );
                },
                None => {},
            }
            match p.projectile.heal_type {
                Some(heal_type) => {
                    heal_events.push(
                        Heal {
                            healer: p.projectile.owner,
                            value: p.projectile.damage,
                            heal_type,
                            healed: e.id,
                        },
                    );
                },
                None => {},
            }
            hit = true;
        }
        proof {
            assert(damage_events@ =~= old(damage_events)@ + damage_dealt(*p, all, i as int + 1));
            assert(heal_events@ =~= old(heal_events)@ + heal_dealt(*p, all, i as int + 1));
            if hits_any(*p, all, i as int + 1) && !struck {
                let k = choose|k: int| 0 <= k < i as int + 1 && k < all.len() && hits(*p, all[k]);
                assert(k < i as int);
            }
        }
        i += 1;
    }
    hit
}

/// The collision stage. Every projectile is tested, in order, against
/// every entity it may hit, in order: a targeting projectile against its
/// target alone, any other against the entities of the other side. A pair
/// in which either has no bounding box is passed over. For every entity
/// hit the projectile queues a damage event if it carries a damage type and
/// a heal event if it carries a heal type; a projectile that hit is
/// destroyed.
pub fn check_collisions(world: &mut World)
    ensures
        old(world)@.wf() ==> final(world)@.wf(),
        final(world)@ == check_collisions_model(old(world)@),
        final(world).entities == old(world).entities,
{
    let mut kept: Vec<ProjectileBundle> = Vec::new();
    let n = world.projectiles.len();
    let mut i: usize = 0;
    while i < n
        invariant
            i <= n,
            n == old(world).projectiles.len(),
            world.projectiles == old(world).projectiles,
            world.entities == old(world).entities,
            (WorldModel { projectiles: kept@, ..world@ }) == collided_upto(old(world)@, i as int),
        decreases n - i,
    {
        let p = world.projectiles[i];
        let hit = collide_one(&p, &world.entities, &mut world.damage_events, &mut world.heal_events);
        if !hit {
            kept.push(p);
        }
        i += 1;
    }
    world.projectiles = kept;
    proof {
        lemma_collisions_frame(old(world)@, n as int);
    }
}

/// The projectile has outlived its lifetime.
pub open spec fn expired(p: ProjectileBundle) -> bool {
    p.age >= p.projectile.lifetime
}

/// The projectile follows a target that is not in the arena.
pub open spec fn lost(p: ProjectileBundle, seen: Seq<Sighting>) -> bool {
    p.projectile.projectile_type == ProjectileType::Targeting && aim_at(seen, p.target).is_none()
}

/// The arena after the sweep of the projectiles.
pub open spec fn clear_projectile_model(w: WorldModel) -> WorldModel {
    WorldModel {
        projectiles: w.projectiles.filter(
            |p: ProjectileBundle| !expired(p) && !lost(p, sightings(w.entities)),
        ),
        ..w
    }
}

/// The sweep of the projectiles: a projectile that has outlived its
/// lifetime is destroyed, and so is a targeting projectile whose target is
/// not in the arena. The others stay, in order.
pub fn clear_projectile(world: &mut World)
    ensures
        old(world)@.wf() ==> final(world)@.wf(),
        final(world)@ == clear_projectile_model(old(world)@),
        final(world).entities == old(world).entities,
        forall|i: int|
            0 <= i < final(world).projectiles.len() ==> !expired(
                #[trigger] final(world).projectiles[i],
            ) && !lost(final(world).projectiles[i], sightings(final(world)@.entities)),
{
    let seen = survey(&world.entities);
    let ghost keep = |p: ProjectileBundle| !expired(p) && !lost(p, sightings(old(world)@.entities));
    let mut kept: Vec<ProjectileBundle> = Vec::new();
    let n = world.projectiles.len();
    let mut i: usize = 0;
    assert(world.projectiles@.take(0) =~= Seq::empty());
    while i < n
        invariant
            i <= n,
            n == world.projectiles.len(),
            *world == *old(world),
            seen@ == sightings(old(world)@.entities),
            keep == |p: ProjectileBundle| !expired(p) && !lost(p, sightings(old(world)@.entities)),
            kept@ == world.projectiles@.take(i as int).filter(keep),
        decreases n - i,
    {
        let p = world.projectiles[i];
        let is_lost = p.projectile.projectile_type == ProjectileType::Targeting && match p.target.0 {
            Some(t) => find(&seen, t).is_none(),
            None => true,
        };
        proof {
            assert(world.projectiles@.take(i as int + 1) =~= world.projectiles@.take(i as int).push(p));
            world.projectiles@.take(i as int).lemma_filter_push(p, keep);
        }
        if p.age < p.projectile.lifetime && !is_lost {
            kept.push(p);
        }
        i += 1;
    }
    assert(world.projectiles@.take(n as int) =~= world.projectiles@);
    proof {
        assert forall|i: int| 0 <= i < kept.len() implies keep(#[trigger] kept[i]) by {
            world.projectiles@.lemma_filter_pred(keep, i);
        }
    }
    world.projectiles = kept;
}

/// Every damage event of a projectile names an entity that it hit, and
/// the projectile's owner as the attacker.
pub proof fn lemma_damage_dealt(p: ProjectileBundle, all: Seq<EntityModel>, n: int)
    requires
        0 <= n <= all.len(),
    ensures
        forall|j: int|
            0 <= j < damage_dealt(p, all, n).len() ==> exists|k: int|
                0 <= k < n && hits(p, all[k]) && (#[trigger] damage_dealt(p, all, n)[j]).attacked
                    == all[k].id,
    decreases n,
{
    if n > 0 {
        lemma_damage_dealt(p, all, n - 1);
        let before = damage_dealt(p, all, n - 1);
        let now = damage_dealt(p, all, n);
        assert forall|j: int| 0 <= j < now.len() implies exists|k: int|
            0 <= k < n && hits(p, all[k]) && (#[trigger] now[j]).attacked == all[k].id by {
            if j < before.len() {
                let k = choose|k: int|
                    0 <= k < n - 1 && hits(p, all[k]) && before[j].attacked == all[k].id;
                assert(hits(p, all[k]) && now[j].attacked == all[k].id);
            } else {
                assert(hits(p, all[n - 1]) && now[j].attacked == all[n - 1].id);
            }
        }
    }
}

/// Every heal event of a projectile names an entity that it hit.
pub proof fn lemma_heal_dealt(p: ProjectileBundle, all: Seq<EntityModel>, n: int)
    requires
        0 <= n <= all.len(),
    ensures
        forall|j: int|
            0 <= j < heal_dealt(p, all, n).len() ==> exists|k: int|
                0 <= k < n && hits(p, all[k]) && (#[trigger] heal_dealt(p, all, n)[j]).healed
                    == all[k].id,
    decreases n,
{
    if n > 0 {
        lemma_heal_dealt(p, all, n - 1);
        let before = heal_dealt(p, all, n - 1);
        let now = heal_dealt(p, all, n);
        assert forall|j: int| 0 <= j < now.len() implies exists|k: int|
            0 <= k < n && hits(p, all[k]) && (#[trigger] now[j]).healed == all[k].id by {
            if j < before.len() {
                let k = choose|k: int|
                    0 <= k < n - 1 && hits(p, all[k]) && before[j].healed == all[k].id;
                assert(hits(p, all[k]) && now[j].healed == all[k].id);
            } else {
                assert(hits(p, all[n - 1]) && now[j].healed == all[n - 1].id);
            }
        }
    }
}

/// A targeting projectile aimed at the entity `x` hits no entity with
/// another identifier, whatever its bounding box overlaps, and every event
/// that it queues names `x`.
pub proof fn law_targeting_hits_its_target_only(
    p: ProjectileBundle,
    all: Seq<EntityModel>,
    x: EntityId,
)
    requires
        p.projectile.projectile_type == ProjectileType::Targeting,
        p.target.0 == Some(x),
    ensures
        forall|k: int| 0 <= k < all.len() && (#[trigger] all[k]).id != x ==> !hits(p, all[k]),
        forall|j: int|
            0 <= j < damage_dealt(p, all, all.len() as int).len() ==> (#[trigger] damage_dealt(
                p,
                all,
                all.len() as int,
            )[j]).attacked == x,
        forall|j: int|
            0 <= j < heal_dealt(p, all, all.len() as int).len() ==> (#[trigger] heal_dealt(
                p,
                all,
                all.len() as int,
            )[j]).healed == x,
{
    lemma_damage_dealt(p, all, all.len() as int);
    lemma_heal_dealt(p, all, all.len() as int);
}

/// A projectile that does not follow a target is never destroyed by the
/// movement, ages by the length of the tick, and outlives the sweep
/// exactly as long as its age is below its lifetime.
pub proof fn law_straight_projectile_lives_its_lifetime(
    p: ProjectileBundle,
    seen: Seq<Sighting>,
    delta: u64,
)
    requires
        p.projectile.projectile_type == ProjectileType::NonTargeting,
    ensures
        flown(p, seen, delta).is_some(),
        flown(p, seen, delta).unwrap().age == clock_add(p.age as nat, delta as nat),
        !lost(flown(p, seen, delta).unwrap(), seen),
        expired(flown(p, seen, delta).unwrap()) == (p.age + delta >= p.projectile.lifetime),
{
}

/// The collision stage changes the projectiles and the damage and heal
/// queues, and nothing else.
pub proof fn lemma_collisions_frame(w: WorldModel, n: int)
    requires
        0 <= n,
    ensures
        collided_upto(w, n).entities == w.entities,
        collided_upto(w, n).health_bars == w.health_bars,
        collided_upto(w, n).casting_bars == w.casting_bars,
        collided_upto(w, n).attacked_events == w.attacked_events,
        collided_upto(w, n).next_id == w.next_id,
    decreases n,
{
    if n > 0 {
        lemma_collisions_frame(w, n - 1);
    }
}

} // verus!

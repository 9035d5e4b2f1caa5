use vstd::prelude::*;
use crate::components::EntityId;
use crate::game_object::{
    find, lemma_resolve, resolve, sightings, survey, CombatEntity, EntityModel, Sighting, Target,
};
use crate::geometry::{dist_sq, within};
use crate::world::{lemma_same_ids, same_roster, World, WorldModel};

verus! {

/// `other` is an enemy of `me` inside the detect range of `me`.
pub open spec fn sees(me: EntityModel, other: Sighting) -> bool {
    other.team.0 != me.team.0 && within(me.position, other.position, me.stat.detect_range)
}

/// The place of the enemy that `me` picks among the first `n` sightings:
/// the closest one it sees, the earliest of those equally close.
pub open spec fn nearest_upto(me: EntityModel, seen: Seq<Sighting>, n: int) -> Option<int>
    decreases n,
{
    if n <= 0 {
        None
    } else {
        let before = nearest_upto(me, seen, n - 1);
        if n <= seen.len() && sees(me, seen[n - 1]) && (before.is_none() || dist_sq(
            me.position,
            seen[n - 1].position,
        ) < dist_sq(me.position, seen[before.unwrap()].position)) {
            Some(n - 1)
        } else {
            before
        }
    }
}

/// The enemy that `me` picks as its target.
pub open spec fn nearest_enemy(me: EntityModel, seen: Seq<Sighting>) -> Option<EntityId> {
    match nearest_upto(me, seen, seen.len() as int) {
        Some(k) => Some(seen[k].id),
        None => None,
    }
}

/// What the targeting stage makes of one entity: without a target it
/// picks the nearest enemy in range; a target that is gone is cleared; a
/// target that is still there stays.
pub open spec fn detected(me: EntityModel, seen: Seq<Sighting>) -> EntityModel {
    match me.target.0 {
        None => EntityModel { target: Target(nearest_enemy(me, seen)), ..me },
        Some(t) => if resolve(seen, t).is_some() {
            me
        } else {
            EntityModel { target: Target(None), ..me }
        },
    }
}

/// The arena after the targeting stage.
pub open spec fn detect_enemy_model(w: WorldModel) -> WorldModel {
    WorldModel {
        entities: Seq::new(
            w.entities.len(),
            |i: int| detected(w.entities[i], sightings(w.entities)),
        ),
        ..w
    }
}

/// Every target in the arena names an entity of the arena.
pub open spec fn no_stale_target(w: WorldModel) -> bool {
    forall|i: int|
        0 <= i < w.entities.len() ==> match #[trigger] w.entities[i].target.0 {
            Some(t) => w.contains(t),
            None => true,
        }
}

/// What `nearest_upto` picks: an enemy in range, no farther than any other
/// enemy in range, and the first of those at its distance. It picks nothing
/// only where no enemy is in range.
pub proof fn lemma_nearest(me: EntityModel, seen: Seq<Sighting>, n: int)
    requires
        0 <= n <= seen.len(),
    ensures
        match nearest_upto(me, seen, n) {
            Some(k) => {
                &&& 0 <= k < n
                &&& sees(me, seen[k])
                &&& forall|j: int|
                    0 <= j < n && sees(me, seen[j]) ==> dist_sq(me.position, seen[k].position)
                        <= dist_sq(me.position, seen[j].position)
                &&& forall|j: int|
                    0 <= j < k && sees(me, seen[j]) ==> dist_sq(me.position, seen[k].position)
                        < dist_sq(me.position, seen[j].position)
            },
            None => forall|j: int| 0 <= j < n ==> !sees(me, seen[j]),
        },
    decreases n,
{
    if n > 0 {
        lemma_nearest(me, seen, n - 1);
    }
}

/// The enemy that `me` picks among `seen`.
fn pick_nearest(me: &CombatEntity, seen: &Vec<Sighting>) -> (r: Option<EntityId>)
    ensures
        r == nearest_enemy(me@, seen@),
{
    let mut best: Option<usize> = None;
    let mut best_dist: u128 = 0;
    let mut i: usize = 0;
    while i < seen.len()
        invariant
            i <= seen.len(),
            match best {
                Some(k) => nearest_upto(me@, seen@, i as int) == Some(k as int) && k < i
                    && best_dist == dist_sq(me.position, seen[k as int].position),
                None => nearest_upto(me@, seen@, i as int).is_none(),
            },
        decreases seen.len() - i,
    {
        let other = &seen[i];
        if other.team.0 != me.team.0 && me.position.is_within(
            &other.position,
            me.stat.detect_range,
        ) {
            let d: u128 = me.position.distance_squared(&other.position);
            if best.is_none() || d < best_dist {
                best = Some(i);
                best_dist = d;
            }
        }
        i += 1;
    }
    match best {
        Some(k) => Some(seen[k].id),
        None => None,
    }
}

/// The targeting stage. Every entity without a target takes the nearest
/// enemy inside its detect range, the earliest in the arena among those
/// equally near; every target that names an entity no longer in the arena
/// is cleared. Nothing else changes.
pub fn detect_enemy(world: &mut World)
    ensures
        final(world)@ == detect_enemy_model(old(world)@),
        no_stale_target(final(world)@),
        same_roster(final(world)@, old(world)@),
        old(world)@.wf() ==> final(world)@.wf(),
{
    let seen = survey(&world.entities);
    let n = world.entities.len();
    let mut i: usize = 0;
    while i < n
        invariant
            i <= n,
            n == world.entities.len(),
            n == old(world).entities.len(),
            seen@ == sightings(old(world)@.entities),
            forall|j: int|
                0 <= j < i ==> world.entities[j]@ == detected(
                    old(world).entities[j]@,
                    seen@,
                ),
            forall|j: int| i <= j < n ==> world.entities[j] == old(world).entities[j],
            world.projectiles == old(world).projectiles,
            world.health_bars == old(world).health_bars,
            world.casting_bars == old(world).casting_bars,
            world.attacked_events == old(world).attacked_events,
            world.damage_events == old(world).damage_events,
            world.heal_events == old(world).heal_events,
            world.next_id == old(world).next_id,
        decreases n - i,
    {
        match world.entities[i].target.0 {
            None => {
                let picked = pick_nearest(&world.entities[i], &seen);
                world.entities[i].target = Target(picked);
            },
            Some(t) => {
                if find(&seen, t).is_none() {
                    world.entities[i].target = Target(None);
                }
            },
        }
        i += 1;
    }
    proof {
        assert(final(world)@.entities =~= detect_enemy_model(old(world)@).entities);
        lemma_detect_enemy(old(world)@);
        lemma_same_ids(final(world)@, old(world)@);
    }
}

/// After the targeting stage no target is stale: a target that named a
/// missing entity is cleared, and one that was picked names an entity of
/// the arena. The stage moves, adds and removes no entity.
pub proof fn lemma_detect_enemy(w: WorldModel)
    ensures
        no_stale_target(detect_enemy_model(w)),
        forall|i: int|
            0 <= i < w.entities.len() && (match w.entities[i].target.0 {
                Some(t) => !w.contains(t),
                None => false,
            }) ==> (#[trigger] detect_enemy_model(w).entities[i]).target.0.is_none(),
        sightings(detect_enemy_model(w).entities) == sightings(w.entities),
        w.wf() ==> detect_enemy_model(w).wf(),
{
    let after = detect_enemy_model(w);
    let seen = sightings(w.entities);
    assert(sightings(after.entities) =~= seen);
    assert forall|i: int| 0 <= i < after.entities.len() implies match #[trigger] after.entities[i].target.0 {
        Some(t) => after.contains(t),
        None => true,
    } by {
        let me = w.entities[i];
        match me.target.0 {
            None => {
                lemma_nearest(me, seen, seen.len() as int);
                match nearest_upto(me, seen, seen.len() as int) {
                    Some(k) => {
                        assert(after.entities[k].id == seen[k].id);
                    },
                    None => {},
                }
            },
            Some(t) => {
                lemma_resolve(seen, t);
                if resolve(seen, t).is_some() {
                    let k = choose|k: int| 0 <= k < seen.len() && seen[k].id == t;
                    assert(after.entities[k].id == t);
                }
            },
        }
    }
    assert forall|i: int|
        0 <= i < w.entities.len() && (match w.entities[i].target.0 {
            Some(t) => !w.contains(t),
            None => false,
        }) implies (#[trigger] after.entities[i]).target.0.is_none() by {
        let t = w.entities[i].target.0.unwrap();
        lemma_resolve(seen, t);
        if resolve(seen, t).is_some() {
            let k = choose|k: int| 0 <= k < seen.len() && seen[k].id == t;
            assert(w.entities[k].id == t);
        }
    }
}

/// The target that an entity without one picks is an enemy inside its
/// detect range, no enemy inside the range is nearer, and of the enemies as
/// near as it none stands earlier in the arena. Nothing is picked only
/// where no enemy is inside the range, and never an entity of its own side.
pub proof fn law_picked_target_is_the_nearest_enemy(me: EntityModel, seen: Seq<Sighting>)
    requires
        me.target.0.is_none(),
    ensures
        match nearest_upto(me, seen, seen.len() as int) {
            Some(k) => {
                &&& 0 <= k < seen.len()
                &&& detected(me, seen).target == Target(Some(seen[k].id))
                &&& seen[k].team.0 != me.team.0
                &&& within(me.position, seen[k].position, me.stat.detect_range)
                &&& forall|j: int|
                    0 <= j < seen.len() && sees(me, #[trigger] seen[j]) ==> dist_sq(
                        me.position,
                        seen[k].position,
                    ) <= dist_sq(me.position, seen[j].position)
                &&& forall|j: int|
                    0 <= j < k && sees(me, #[trigger] seen[j]) ==> dist_sq(
                        me.position,
                        seen[k].position,
                    ) < dist_sq(me.position, seen[j].position)
            },
            None => {
                &&& detected(me, seen).target == Target(None)
                &&& forall|j: int| 0 <= j < seen.len() ==> !sees(me, #[trigger] seen[j])
            },
        },
{
    lemma_nearest(me, seen, seen.len() as int);
}

} // verus!

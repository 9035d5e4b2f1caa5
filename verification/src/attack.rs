use vstd::prelude::*;
use crate::battle::{clamp_points, Attacked, DamageType, HealType};
use crate::components::TeamType;
use crate::game_object::{lemma_locate, locate, sightings, EntityModel, Target};
use crate::player::Class;
use crate::projectile::{spawn_projectile, spawn_projectile_model, Projectile, ProjectileType};
use crate::skill::SkillCode;
use crate::states::{ActionState, BattleState};
use crate::world::{lemma_same_ids, same_but_entities, same_roster, World, WorldModel};

verus! {

/// What an attack does to its target once its cast resolves.
#[derive(Clone, Copy, Debug, PartialEq, Eq, Structural)]
pub enum AttackEffect {
    /// Takes `per_level` points per level of the attacker off the target's
    /// health at once.
    Strike { per_level: u32 },
    /// Fires a projectile of this make and size at the target.
    Shot {
        speed: u32,
        damage: i64,
        damage_type: Option<DamageType>,
        heal_type: Option<HealType>,
        lifetime: u64,
        projectile_type: ProjectileType,
    },
}

/// One row of the skill table: the length of the cast in microseconds and
/// what it does.
#[derive(Clone, Copy, Debug, PartialEq, Eq, Structural)]
pub struct AttackProfile {
    pub cast_time: u64,
    pub effect: AttackEffect,
}

/// The melee base attack: a cast of a fifth of a second, five points a level.
pub open spec fn melee_profile() -> AttackProfile {
    AttackProfile { cast_time: 200_000, effect: AttackEffect::Strike { per_level: 5 } }
}

/// The ranged base attack: a cast of one second that fires a bolt which
/// follows its target at a thousand units a second, for two seconds at
/// most, and deals ten points of magic damage.
pub open spec fn ranged_profile() -> AttackProfile {
    AttackProfile {
        cast_time: 1_000_000,
        effect: AttackEffect::Shot {
            speed: 1_000_000,
            damage: 10,
            damage_type: Some(DamageType::Magic),
            heal_type: None,
            lifetime: 2_000_000,
            projectile_type: ProjectileType::Targeting,
        },
    }
}

/// The skill table. A player without a class, a class without an entry and
/// a skill without an entry have no attack.
pub open spec fn attack_profile_of(team: TeamType, class: Option<Class>, code: SkillCode) -> Option<
    AttackProfile,
> {
    match code {
        SkillCode::BaseAttack => match team {
            TeamType::PLAYER => match class {
                Some(Class::NONE) => Some(melee_profile()),
                Some(Class::MAGE) => Some(ranged_profile()),
                _ => None,
            },
            TeamType::MONSTER => Some(ranged_profile()),
        },
        SkillCode::FireBall => None,
    }
}

/// Looks an attack up in the skill table.
pub fn attack_profile(team: TeamType, class: Option<Class>, code: SkillCode) -> (r: Option<
    AttackProfile,
>)
    ensures
        r == attack_profile_of(team, class, code),
{
    let melee = AttackProfile { cast_time: 200_000, effect: AttackEffect::Strike { per_level: 5 } };
    let ranged = AttackProfile {
        cast_time: 1_000_000,
        effect: AttackEffect::Shot {
            speed: 1_000_000,
            damage: 10,
            damage_type: Some(DamageType::Magic),
            heal_type: None,
            lifetime: 2_000_000,
            projectile_type: ProjectileType::Targeting,
        },
    };
    match code {
        SkillCode::BaseAttack => match team {
            TeamType::PLAYER => match class {
                Some(Class::NONE) => Some(melee),
                Some(Class::MAGE) => Some(ranged),
                _ => None,
            },
            TeamType::MONSTER => Some(ranged),
        },
        SkillCode::FireBall => None,
    }
}

/// What skill selection makes of one entity: in battle, and neither
/// casting nor running away, it selects the base attack.
pub open spec fn skill_selected(me: EntityModel) -> EntityModel {
    if me.action_state == ActionState::BATTLE && me.battle_state != BattleState::CASTING
        && me.battle_state != BattleState::RUNAWAY {
        EntityModel {
            cast: crate::skill::CastModel { skill: Some(SkillCode::BaseAttack), ..me.cast },
            ..me
        }
    } else {
        me
    }
}

/// The arena after skill selection.
pub open spec fn use_skill_model(w: WorldModel) -> WorldModel {
    WorldModel { entities: Seq::new(w.entities.len(), |i: int| skill_selected(w.entities[i])), ..w }
}

/// Skill selection: every entity in battle that is neither casting nor
/// running away selects the base attack. Nothing else changes.
pub fn use_skill(world: &mut World)
    ensures
        same_roster(final(world)@, old(world)@),
        old(world)@.wf() ==> final(world)@.wf(),
        final(world)@ == use_skill_model(old(world)@),
{
    let n = world.entities.len();
    let mut i: usize = 0;
    while i < n
        invariant
            i <= n,
            n == world.entities.len(),
            n == old(world).entities.len(),
            forall|j: int|
                0 <= j < i ==> world.entities[j]@ == skill_selected(old(world).entities[j]@),
            forall|j: int| i <= j < n ==> world.entities[j] == old(world).entities[j],
            same_but_entities(*world, *old(world)),
        decreases n - i,
    {
        if world.entities[i].action_state == ActionState::BATTLE && world.entities[i].battle_state
            != BattleState::CASTING && world.entities[i].battle_state != BattleState::RUNAWAY {
            world.entities[i].skill_info.set_skill(SkillCode::BaseAttack);
        }
        i += 1;
    }
    assert(final(world)@.entities =~= use_skill_model(old(world)@).entities);
    proof {
        lemma_same_ids(final(world)@, old(world)@);
    }
}

/// The place of the entity that the one at `i` attacks: its target, if
/// the target is in the arena and is not the attacker itself.
pub open spec fn victim_of(w: WorldModel, i: int) -> Option<int> {
    match w.entities[i].target.0 {
        Some(t) => match locate(sightings(w.entities), t, w.entities.len() as int) {
            Some(k) => if k != i {
                Some(k)
            } else {
                None
            },
            None => None,
        },
        None => None,
    }
}

/// The points that a strike of `per_level` takes off, from an attacker of `level`.
pub open spec fn strike_points(level: u32, per_level: u32) -> i64 {
    clamp_points(level * per_level)
}

/// The attacker after one call of its cast. A shot shows in the battle
/// state whether the cast was under way when the call began; a strike leaves
/// the battle state alone.
pub open spec fn after_casting(a: EntityModel, p: AttackProfile, delta: u64) -> EntityModel {
    EntityModel {
        cast: a.cast.after_cast(p.cast_time as nat, delta as nat),
        battle_state: match p.effect {
            AttackEffect::Strike { .. } => a.battle_state,
            AttackEffect::Shot { .. } => if a.cast.casting() {
                BattleState::CASTING
            } else {
                BattleState::IDLE
            },
        },
        ..a
    }
}

/// The projectile that the attacker with identifier `owner` fires.
pub open spec fn shot_of(owner: crate::components::EntityId, effect: AttackEffect) -> Projectile
    recommends
        effect is Shot,
{
    Projectile {
        projectile_type: effect->projectile_type,
        owner,
        speed: effect->speed,
        damage: effect->damage,
        damage_type: effect->damage_type,
        heal_type: effect->heal_type,
        lifetime: effect->lifetime,
    }
}

/// The attack stage for the entity at `i` alone. An entity with a
/// selected skill, an attack for it in the skill table and a victim takes
/// one step of its cast. When the cast resolves, a strike takes its points
/// off the victim's health at once and queues an `Attacked` event; a shot
/// fires a projectile from the attacker's position at the victim.
pub open spec fn attack_step(w: WorldModel, i: int, delta: u64) -> WorldModel {
    let a = w.entities[i];
    match (a.cast.skill, victim_of(w, i)) {
        (Some(code), Some(k)) => match attack_profile_of(a.team.0, a.class, code) {
            None => w,
            Some(p) => {
                let b = w.entities[k];
                let cast = w.entities.update(i, after_casting(a, p, delta));
                if !a.cast.resolves(p.cast_time as nat, delta as nat) {
                    WorldModel { entities: cast, ..w }
                } else {
                    match p.effect {
                        AttackEffect::Strike { per_level } => WorldModel {
                            entities: cast.update(
                                k,
                                EntityModel {
                                    stat: crate::battle::Stat {
                                        hp: b.stat.hp.reduced(
                                            strike_points(a.stat.level, per_level),
                                        ),
                                        ..b.stat
                                    },
                                    ..b
                                },
                            ),
                            attacked_events: w.attacked_events.push(
                                Attacked { attacker: a.id, attacked: b.id },
                            ),
                            ..w
                        },
                        AttackEffect::Shot { .. } => spawn_projectile_model(
                            WorldModel { entities: cast, ..w },
                            shot_of(a.id, p.effect),
                            a.position,
                            Target(Some(b.id)),
                        ),
                    }
                }
            },
        },
        _ => w,
    }
}

/// The attack stage for the first `n` entities, one after the other.
pub open spec fn base_attack_upto(w: WorldModel, n: int, delta: u64) -> WorldModel
    decreases n,
{
    if n <= 0 {
        w
    } else {
        attack_step(base_attack_upto(w, n - 1, delta), n - 1, delta)
    }
}

/// The arena after the attack stage.
pub open spec fn base_attack_model(w: WorldModel, delta: u64) -> WorldModel {
    base_attack_upto(w, w.entities.len() as int, delta)
}

/// The attack stage never adds, removes, moves or renames an entity, and
/// leaves every target as it is. It touches neither the bars nor the damage
/// and heal queues, and hands out no identifier.
pub proof fn lemma_base_attack_keeps_entities(w: WorldModel, n: int, delta: u64)
    requires
        0 <= n <= w.entities.len(),
    ensures
        sightings(base_attack_upto(w, n, delta).entities) == sightings(w.entities),
        base_attack_upto(w, n, delta).entities.len() == w.entities.len(),
        forall|i: int|
            0 <= i < w.entities.len() ==> (#[trigger] base_attack_upto(
                w,
                n,
                delta,
            ).entities[i]).target == w.entities[i].target,
        base_attack_upto(w, n, delta).next_id == w.next_id,
        base_attack_upto(w, n, delta).health_bars == w.health_bars,
        base_attack_upto(w, n, delta).casting_bars == w.casting_bars,
        base_attack_upto(w, n, delta).damage_events == w.damage_events,
        base_attack_upto(w, n, delta).heal_events == w.heal_events,
    decreases n,
{
    if n > 0 {
        lemma_base_attack_keeps_entities(w, n - 1, delta);
        let before = base_attack_upto(w, n - 1, delta);
        let after = attack_step(before, n - 1, delta);
        match before.entities[n - 1].target.0 {
            Some(t) => {
                lemma_locate(sightings(before.entities), t, before.entities.len() as int);
            },
            None => {},
        }
        assert(sightings(after.entities) =~= sightings(before.entities));
        assert(after.entities.len() == before.entities.len());
        assert forall|i: int| 0 <= i < w.entities.len() implies (#[trigger] after.entities[i]).target
            == w.entities[i].target by {
            assert(before.entities[i].target == w.entities[i].target);
        }
    }
}

/// Every `Attacked` event that the attack stage queues names an attacker
/// that is in the arena.
pub proof fn lemma_base_attack_events(w: WorldModel, n: int, delta: u64)
    requires
        0 <= n <= w.entities.len(),
    ensures
        base_attack_upto(w, n, delta).attacked_events.len() >= w.attacked_events.len(),
        forall|j: int|
            0 <= j < w.attacked_events.len() ==> (#[trigger] base_attack_upto(
                w,
                n,
                delta,
            ).attacked_events[j]) == w.attacked_events[j],
        forall|j: int|
            w.attacked_events.len() <= j < base_attack_upto(w, n, delta).attacked_events.len()
                ==> w.contains(
                (#[trigger] base_attack_upto(w, n, delta).attacked_events[j]).attacker,
            ),
    decreases n,
{
    if n > 0 {
        lemma_base_attack_events(w, n - 1, delta);
        lemma_base_attack_keeps_entities(w, n - 1, delta);
        let before = base_attack_upto(w, n - 1, delta);
        let after = attack_step(before, n - 1, delta);
        assert(sightings(before.entities)[n - 1].id == w.entities[n - 1].id) by {
            assert(sightings(w.entities)[n - 1].id == w.entities[n - 1].id);
        }
        assert(before.entities[n - 1].id == w.entities[n - 1].id) by {
            assert(sightings(before.entities)[n - 1].id == before.entities[n - 1].id);
        }
    }
}

/// Runs the attack stage for the entity at `i`.
fn attack_at(world: &mut World, i: usize, delta: u64)
    requires
        i < old(world).entities.len(),
    ensures
        final(world)@ == attack_step(old(world)@, i as int, delta),
        final(world).entities.len() == old(world).entities.len(),
{
    let ghost w = world@;
    let code = match *world.entities[i].skill_info.current_skill() {
        Some(code) => code,
        None => {
            return ;
        },
    };
    let t = match world.entities[i].target.0 {
        Some(t) => t,
        None => {
            return ;
        },
    };
    let k = match world.index_of(t) {
        Some(k) => k,
        None => {
            return ;
        },
    };
    if k == i {
        return ;
    }
    let p = match attack_profile(world.entities[i].team.0, world.entities[i].class, code) {
        Some(p) => p,
        None => {
            return ;
        },
    };
    let was_casting = world.entities[i].skill_info.is_casting();
    match p.effect {
        AttackEffect::Strike { .. } => {},
        AttackEffect::Shot { .. } => {
            world.entities[i].battle_state = if was_casting {
                BattleState::CASTING
            } else {
                BattleState::IDLE
            };
        },
    }
    let resolved = world.entities[i].skill_info.cast(p.cast_time, delta);
    assert(world@.entities =~= w.entities.update(i as int, after_casting(w.entities[i as int], p, delta)));
    if resolved {
        match p.effect {
            AttackEffect::Strike { per_level } => {
                let level = world.entities[i].stat.level;
                assert(level * per_level <= 0xFFFF_FFFF * 0xFFFF_FFFF) by (nonlinear_arith)
                    requires
                        0 <= level <= 0xFFFF_FFFF,
                        0 <= per_level <= 0xFFFF_FFFF,
                ;
                let raw: u64 = (level as u64) * (per_level as u64);
                let points: i64 = if raw > i64::MAX as u64 {
                    i64::MAX
                } else {
                    raw as i64
                };
                let attacker = world.entities[i].id;
                let attacked = world.entities[k].id;
                world.entities[k].stat.hp.reduce(points);
                world.attacked_events.push(Attacked::new(attacker, attacked));
                assert(world@.entities =~= attack_step(w, i as int, delta).entities);
            },
            AttackEffect::Shot {
                speed,
                damage,
                damage_type,
                heal_type,
                lifetime,
                projectile_type,
            } => {
                let shot = Projectile::new(
                    speed,
                    damage,
                    world.entities[i].id,
                    damage_type,
                    heal_type,
                    lifetime,
                    projectile_type,
                );
                let from = world.entities[i].position;
                let at = Target(Some(world.entities[k].id));
                spawn_projectile(world, shot, from, at);
            },
        }
    }
}

/// The attack stage, for a tick of `delta` microseconds: the entities
/// take their turn in the order of the arena. Each entity with a selected
/// skill, an entry in the skill table and a target that is in the arena
/// takes one step of its cast, and the cast that resolves strikes or fires.
pub fn base_attack(world: &mut World, delta: u64)
    ensures
        same_roster(final(world)@, old(world)@),
        old(world)@.wf() ==> final(world)@.wf(),
        final(world)@ == base_attack_model(old(world)@, delta),
{
    let n = world.entities.len();
    let mut i: usize = 0;
    while i < n
        invariant
            i <= n,
            n == world.entities.len(),
            n == old(world).entities.len(),
            world@ == base_attack_upto(old(world)@, i as int, delta),
        decreases n - i,
    {
        attack_at(world, i, delta);
        i += 1;
    }
    proof {
        lemma_base_attack_keeps_entities(old(world)@, n as int, delta);
        assert forall|i: int| 0 <= i < n implies (#[trigger] final(world)@.entities[i]).id == old(
            world,
        )@.entities[i].id by {
            assert(sightings(final(world)@.entities)[i].id == sightings(old(world)@.entities)[i].id);
        }
        lemma_same_ids(final(world)@, old(world)@);
    }
}

} // verus!

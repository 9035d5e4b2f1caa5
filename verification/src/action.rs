use vstd::prelude::*;
use crate::components::{EntityId, TeamType};
use crate::game_object::{
    find, resolve, sightings, survey, CombatEntity, EntityModel, Sighting,
};
use crate::geometry::{clamp_coord, moved_toward, step_for, step_length, within, Position};
use crate::states::{ActionState, BattleState};
use crate::world::{lemma_same_ids, same_but_entities, same_roster, World, WorldModel};

verus! {

/// The enemy that the identifier `id` stands for in the eyes of `me`:
/// the entity with that identifier, if it is there and on the other side.
pub open spec fn resolve_enemy(me: EntityModel, seen: Seq<Sighting>, id: EntityId) -> Option<
    Sighting,
> {
    match resolve(seen, id) {
        Some(s) => if s.team.0 != me.team.0 {
            Some(s)
        } else {
            None
        },
        None => None,
    }
}

/// The transition rule of the action state machine. Without a target both
/// states fall to idle. With a target that no longer resolves the cast is
/// broken. With a target inside the detect range the entity is in battle;
/// with one farther than that and farther than the attack range it closes
/// the gap, unless it is casting.
pub open spec fn transitioned(me: EntityModel, seen: Seq<Sighting>) -> EntityModel {
    match me.target.0 {
        None => EntityModel {
            action_state: ActionState::IDLE,
            battle_state: BattleState::IDLE,
            ..me
        },
        Some(t) => match resolve_enemy(me, seen, t) {
            None => EntityModel { cast: me.cast.broken(), ..me },
            Some(s) => if within(me.position, s.position, me.stat.detect_range) {
                EntityModel { action_state: ActionState::BATTLE, ..me }
            } else if me.battle_state != BattleState::CASTING && !within(
                me.position,
                s.position,
                me.stat.attack_range,
            ) {
                EntityModel { battle_state: BattleState::MOVE, ..me }
            } else {
                me
            },
        },
    }
}

/// What the transition stage of the players makes of one entity: the rule
/// applies to a player that is not under a move order.
pub open spec fn player_transitioned(me: EntityModel, seen: Seq<Sighting>) -> EntityModel {
    if me.team.0 == TeamType::PLAYER && me.action_state != ActionState::MOVE {
        transitioned(me, seen)
    } else {
        me
    }
}

/// What the transition stage of the monsters makes of one entity: the rule
/// applies to every monster.
pub open spec fn monster_transitioned(me: EntityModel, seen: Seq<Sighting>) -> EntityModel {
    if me.team.0 == TeamType::MONSTER {
        transitioned(me, seen)
    } else {
        me
    }
}

/// The arena after the transition stage of the players.
pub open spec fn trig_player_action_model(w: WorldModel) -> WorldModel {
    WorldModel {
        entities: Seq::new(
            w.entities.len(),
            |i: int| player_transitioned(w.entities[i], sightings(w.entities)),
        ),
        ..w
    }
}

/// The arena after the transition stage of the monsters.
pub open spec fn trig_monster_action_model(w: WorldModel) -> WorldModel {
    WorldModel {
        entities: Seq::new(
            w.entities.len(),
            |i: int| monster_transitioned(w.entities[i], sightings(w.entities)),
        ),
        ..w
    }
}

/// Where an entity stands after one tick of `delta` microseconds, and
/// what becomes of its cast. Under a move order it breaks its cast and walks
/// towards the ordered point, or along the x axis when the order names no
/// point. In battle, while closing the gap to a target that resolves, it
/// breaks its cast and walks towards the target. Otherwise it stays. A walk
/// towards the point where the entity already stands goes nowhere.
pub open spec fn walked(me: EntityModel, seen: Seq<Sighting>, delta: u64) -> EntityModel {
    let step = step_length(me.stat.speed, delta);
    match me.action_state {
        ActionState::IDLE => me,
        ActionState::MOVE => EntityModel {
            cast: me.cast.broken(),
            position: match me.move_target.0 {
                Some(p) => moved_toward(me.position, p, step),
                None => Position {
                    x: clamp_coord(me.position.x + step) as i32,
                    y: me.position.y,
                },
            },
            ..me
        },
        ActionState::BATTLE => if me.battle_state == BattleState::MOVE {
            match me.target.0 {
                Some(t) => match resolve_enemy(me, seen, t) {
                    Some(s) => EntityModel {
                        cast: me.cast.broken(),
                        position: moved_toward(me.position, s.position, step),
                        ..me
                    },
                    None => me,
                },
                None => me,
            }
        } else {
            me
        },
    }
}

/// The arena after the movement stage.
pub open spec fn move_gameobject_model(w: WorldModel, delta: u64) -> WorldModel {
    WorldModel {
        entities: Seq::new(
            w.entities.len(),
            |i: int| walked(w.entities[i], sightings(w.entities), delta),
        ),
        ..w
    }
}

/// Looks up the enemy that `id` stands for in the eyes of `me`.
fn find_enemy(me: &CombatEntity, seen: &Vec<Sighting>, id: EntityId) -> (r: Option<Sighting>)
    ensures
        r == resolve_enemy(me@, seen@, id),
{
    match find(seen, id) {
        Some(k) => {
            let s = seen[k];
            if s.team.0 != me.team.0 {
                Some(s)
            } else {
                None
            }
        },
        None => None,
    }
}

/// Applies the transition rule to the entity at `i`.
fn transition_at(world: &mut World, i: usize, seen: &Vec<Sighting>)
    requires
        i < old(world).entities.len(),
    ensures
        final(world).entities.len() == old(world).entities.len(),
        final(world).entities[i as int]@ == transitioned(old(world).entities[i as int]@, seen@),
        forall|j: int|
            0 <= j < old(world).entities.len() && j != i ==> final(world).entities[j] == old(
                world,
            ).entities[j],
        same_but_entities(*final(world), *old(world)),
{
    match world.entities[i].target.0 {
        None => {
            world.entities[i].action_state = ActionState::IDLE;
            world.entities[i].battle_state = BattleState::IDLE;
        },
        Some(t) => {
            match find_enemy(&world.entities[i], seen, t) {
                None => {
                    world.entities[i].skill_info.break_casting();
                },
                Some(s) => {
                    let here = world.entities[i].position;
                    if here.is_within(&s.position, world.entities[i].stat.detect_range) {
                        world.entities[i].action_state = ActionState::BATTLE;
                    } else if world.entities[i].battle_state != BattleState::CASTING
                        && !here.is_within(&s.position, world.entities[i].stat.attack_range) {
                        world.entities[i].battle_state = BattleState::MOVE;
                    }
                },
            }
        },
    }
}

/// The transition stage of the players: the transition rule, applied to
/// every player that is not under a move order. Nothing else changes.
pub fn trig_player_action(world: &mut World)
    ensures
        same_roster(final(world)@, old(world)@),
        old(world)@.wf() ==> final(world)@.wf(),
        final(world)@ == trig_player_action_model(old(world)@),
{
    let seen = survey(&world.entities);
    let n = world.entities.len();
    let mut i: usize = 0;
    while i < n
        invariant
            i <= n,
            n == world.entities.len(),
            n == old(world).entities.len(),
            seen@ == sightings(old(world)@.entities),
            forall|j: int|
                0 <= j < i ==> world.entities[j]@ == player_transitioned(
                    old(world).entities[j]@,
                    seen@,
                ),
            forall|j: int| i <= j < n ==> world.entities[j] == old(world).entities[j],
            same_but_entities(*world, *old(world)),
        decreases n - i,
    {
        if world.entities[i].team.0 == TeamType::PLAYER && world.entities[i].action_state
            != ActionState::MOVE {
            transition_at(world, i, &seen);
        }
        i += 1;
    }
    assert(final(world)@.entities =~= trig_player_action_model(old(world)@).entities);
    proof {
        lemma_same_ids(final(world)@, old(world)@);
    }
}

/// The transition stage of the monsters: the transition rule, applied to
/// every monster. Nothing else changes.
pub fn trig_monster_action(world: &mut World)
    ensures
        same_roster(final(world)@, old(world)@),
        old(world)@.wf() ==> final(world)@.wf(),
        final(world)@ == trig_monster_action_model(old(world)@),
{
    let seen = survey(&world.entities);
    let n = world.entities.len();
    let mut i: usize = 0;
    while i < n
        invariant
            i <= n,
            n == world.entities.len(),
            n == old(world).entities.len(),
            seen@ == sightings(old(world)@.entities),
            forall|j: int|
                0 <= j < i ==> world.entities[j]@ == monster_transitioned(
                    old(world).entities[j]@,
                    seen@,
                ),
            forall|j: int| i <= j < n ==> world.entities[j] == old(world).entities[j],
            same_but_entities(*world, *old(world)),
        decreases n - i,
    {
        if world.entities[i].team.0 == TeamType::MONSTER {
            transition_at(world, i, &seen);
        }
        i += 1;
    }
    assert(final(world)@.entities =~= trig_monster_action_model(old(world)@).entities);
    proof {
        lemma_same_ids(final(world)@, old(world)@);
    }
}

/// Moves the entity at `i` for one tick.
fn walk_at(world: &mut World, i: usize, seen: &Vec<Sighting>, delta: u64)
    requires
        i < old(world).entities.len(),
    ensures
        final(world).entities.len() == old(world).entities.len(),
        final(world).entities[i as int]@ == walked(old(world).entities[i as int]@, seen@, delta),
        forall|j: int|
            0 <= j < old(world).entities.len() && j != i ==> final(world).entities[j] == old(
                world,
            ).entities[j],
        same_but_entities(*final(world), *old(world)),
{
    let step: u32 = step_for(world.entities[i].stat.speed, delta);
    let here = world.entities[i].position;
    match world.entities[i].action_state {
        ActionState::IDLE => {},
        ActionState::MOVE => {
            world.entities[i].skill_info.break_casting();
            match world.entities[i].move_target.0 {
                Some(p) => {
                    world.entities[i].position = here.step_toward(&p, step);
                },
                None => {
                    let x: i64 = here.x as i64 + step as i64;
                    world.entities[i].position = Position {
                        x: if x > i32::MAX as i64 {
                            i32::MAX
                        } else {
                            x as i32
                        },
                        y: here.y,
                    };
                },
            }
        },
        ActionState::BATTLE => {
            if world.entities[i].battle_state == BattleState::MOVE {
                if let Some(t) = world.entities[i].target.0 {
                    if let Some(s) = find_enemy(&world.entities[i], seen, t) {
                        world.entities[i].skill_info.break_casting();
                        world.entities[i].position = here.step_toward(&s.position, step);
                    }
                }
            }
        },
    }
}

/// The movement stage, for a tick of `delta` microseconds. Every entity
/// under a move order, and every entity in battle that is closing the gap
/// to its target, breaks its cast and walks at its speed; each walks
/// towards where the others stood before the stage. Nothing else changes.
pub fn move_gameobject(world: &mut World, delta: u64)
    ensures
        same_roster(final(world)@, old(world)@),
        old(world)@.wf() ==> final(world)@.wf(),
        final(world)@ == move_gameobject_model(old(world)@, delta),
{
    let seen = survey(&world.entities);
    let n = world.entities.len();
    let mut i: usize = 0;
    while i < n
        invariant
            i <= n,
            n == world.entities.len(),
            n == old(world).entities.len(),
            seen@ == sightings(old(world)@.entities),
            forall|j: int|
                0 <= j < i ==> world.entities[j]@ == walked(
                    old(world).entities[j]@,
                    seen@,
                    delta,
                ),
            forall|j: int| i <= j < n ==> world.entities[j] == old(world).entities[j],
            same_but_entities(*world, *old(world)),
        decreases n - i,
    {
        walk_at(world, i, &seen, delta);
        i += 1;
    }
    assert(final(world)@.entities =~= move_gameobject_model(old(world)@, delta).entities);
    proof {
        lemma_same_ids(final(world)@, old(world)@);
    }
}

} // verus!

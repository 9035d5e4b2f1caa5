use vstd::prelude::*;
use crate::action::{
    move_gameobject, move_gameobject_model, trig_monster_action, trig_monster_action_model,
    trig_player_action, trig_player_action_model,
};
use crate::attack::{
    base_attack, base_attack_model, lemma_base_attack_events, lemma_base_attack_keeps_entities,
    use_skill, use_skill_model,
};
use crate::components::EntityId;
use crate::game_object::{sightings, EntityModel};
use crate::projectile::{
    check_collisions, check_collisions_model, clear_projectile, clear_projectile_model,
    lemma_collisions_frame, move_projectile, move_projectile_model,
};
use crate::resolution::{
    alive, attacked, attacked_model, damage, damage_model, dead_in, die, die_model,
    first_attacker, heal, heal_model, lemma_die,
};
use crate::targeting::{detect_enemy, detect_enemy_model, lemma_detect_enemy, no_stale_target};
use crate::world::{lemma_same_roster, roster, same_roster, World, WorldModel};

verus! {

/// The arena after the targeting stage and the action state machine.
pub open spec fn after_transitions(w: WorldModel, delta: u64) -> WorldModel {
    move_gameobject_model(
        trig_monster_action_model(trig_player_action_model(detect_enemy_model(w))),
        delta,
    )
}

/// The arena after the skill engine has run and its `Attacked` events were
/// drained.
pub open spec fn after_attacks(w: WorldModel, delta: u64) -> WorldModel {
    attacked_model(base_attack_model(use_skill_model(after_transitions(w, delta)), delta))
}

/// The arena after the projectile engine has run.
pub open spec fn after_projectiles(w: WorldModel, delta: u64) -> WorldModel {
    clear_projectile_model(
        check_collisions_model(move_projectile_model(after_attacks(w, delta), delta)),
    )
}

/// The arena after the damage and heal events were applied, before the
/// death sweep.
pub open spec fn after_resolution(w: WorldModel, delta: u64) -> WorldModel {
    heal_model(damage_model(after_projectiles(w, delta)))
}

/// The arena after one tick of `delta` microseconds: targeting, state
/// transitions and movement, casting and attacks, projectiles, damage and
/// heals, and the death sweep, in this order.
pub open spec fn tick_model(w: WorldModel, delta: u64) -> WorldModel {
    die_model(after_resolution(w, delta))
}

/// Runs one tick of `delta` microseconds: every stage once, each on what
/// the stage before it left.
pub fn tick(world: &mut World, delta: u64)
    ensures
        final(world)@ == tick_model(old(world)@, delta),
        final(world)@.quiet(),
        old(world)@.wf() ==> final(world)@.wf(),
        forall|i: int|
            0 <= i < final(world)@.entities.len() ==> alive(#[trigger] final(world)@.entities[i]),
{
    detect_enemy(world);
    trig_player_action(world);
    trig_monster_action(world);
    move_gameobject(world, delta);
    use_skill(world);
    base_attack(world, delta);
    attacked(world);
    move_projectile(world, delta);
    check_collisions(world);
    clear_projectile(world);
    damage(world);
    heal(world);
    die(world);
    proof {
        lemma_tick(old(world)@, delta);
    }
}

/// Two arenas hold the same identifiers in the same places, each with the
/// same target.
pub open spec fn same_targets(a: WorldModel, b: WorldModel) -> bool {
    &&& a.entities.len() == b.entities.len()
    &&& forall|i: int|
        0 <= i < a.entities.len() ==> (#[trigger] a.entities[i]).id == b.entities[i].id
            && a.entities[i].target == b.entities[i].target
}

/// Arenas with the same identifiers and targets agree on stale targets.
pub proof fn lemma_same_targets(a: WorldModel, b: WorldModel)
    requires
        same_targets(a, b),
        no_stale_target(b),
    ensures
        no_stale_target(a),
{
    assert forall|i: int| 0 <= i < a.entities.len() implies match #[trigger] a.entities[i].target.0 {
        Some(t) => a.contains(t),
        None => true,
    } by {
        match b.entities[i].target.0 {
            Some(t) => {
                let k = choose|k: int| 0 <= k < b.entities.len() && b.entities[k].id == t;
                assert(a.entities[k].id == t);
            },
            None => {},
        }
    }
}

/// No stage before the death sweep adds, removes or renames an entity,
/// and none hands out an identifier.
pub proof fn lemma_roster_until_sweep(w: WorldModel, delta: u64)
    ensures
        same_roster(detect_enemy_model(w), w),
        same_roster(after_transitions(w, delta), w),
        same_roster(use_skill_model(after_transitions(w, delta)), w),
        same_roster(base_attack_model(use_skill_model(after_transitions(w, delta)), delta), w),
        same_roster(after_attacks(w, delta), w),
        same_roster(after_projectiles(w, delta), w),
        same_roster(after_resolution(w, delta), w),
{
    let w1 = detect_enemy_model(w);
    let w2 = trig_player_action_model(w1);
    let w3 = trig_monster_action_model(w2);
    let w4 = move_gameobject_model(w3, delta);
    let w5 = use_skill_model(w4);
    let w6 = base_attack_model(w5, delta);
    let w7 = attacked_model(w6);
    let w8 = move_projectile_model(w7, delta);
    let w9 = check_collisions_model(w8);
    let w10 = clear_projectile_model(w9);
    let w11 = damage_model(w10);
    let w12 = heal_model(w11);
    assert(roster(w1.entities) =~= roster(w.entities));
    assert(roster(w2.entities) =~= roster(w1.entities));
    assert(roster(w3.entities) =~= roster(w2.entities));
    assert(roster(w4.entities) =~= roster(w3.entities));
    assert(roster(w5.entities) =~= roster(w4.entities));
    lemma_base_attack_keeps_entities(w5, w5.entities.len() as int, delta);
    assert(roster(w6.entities) =~= roster(w5.entities)) by {
        assert forall|i: int| 0 <= i < w5.entities.len() implies w6.entities[i].id
            == w5.entities[i].id by {
            assert(sightings(w6.entities)[i].id == sightings(w5.entities)[i].id);
        }
    }
    assert(roster(w7.entities) =~= roster(w6.entities));
    lemma_collisions_frame(w8, w8.projectiles.len() as int);
    assert(roster(w11.entities) =~= roster(w10.entities));
    assert(roster(w12.entities) =~= roster(w11.entities));
}

/// What holds of every tick. No event is left in a queue. No entity
/// without health is left. A well-formed arena stays well-formed. An
/// identifier that was handed out and is not in the arena is never in it
/// again, and no identifier is handed out by a tick.
pub proof fn lemma_tick(w: WorldModel, delta: u64)
    ensures
        tick_model(w, delta).quiet(),
        forall|i: int|
            0 <= i < tick_model(w, delta).entities.len() ==> alive(
                #[trigger] tick_model(w, delta).entities[i],
            ),
        w.wf() ==> tick_model(w, delta).wf(),
        tick_model(w, delta).next_id == w.next_id,
        forall|id: EntityId| !w.contains(id) ==> !tick_model(w, delta).contains(id),
{
    let w7 = after_attacks(w, delta);
    let w8 = move_projectile_model(w7, delta);
    let w12 = after_resolution(w, delta);
    lemma_roster_until_sweep(w, delta);
    lemma_same_roster(w12, w);
    lemma_die(w12);
    lemma_collisions_frame(w8, w8.projectiles.len() as int);
}

/// An entity whose health is zero or less after the damage and heal
/// stage is not in the arena after the death sweep of the same tick; the
/// sweep is idempotent; and an identifier that is not in the arena at the
/// start of a tick is not in it at the end, so what was swept stays
/// absent.
pub proof fn law_dead_are_swept_for_good(w: WorldModel, delta: u64, id: EntityId)
    requires
        w.wf(),
    ensures
        dead_in(after_resolution(w, delta).entities, id) ==> !tick_model(w, delta).contains(id),
        die_model(tick_model(w, delta)) == tick_model(w, delta),
        forall|next: u64|
            !tick_model(w, delta).contains(id) ==> !tick_model(
                tick_model(w, delta),
                next,
            ).contains(id),
{
    let w12 = after_resolution(w, delta);
    lemma_roster_until_sweep(w, delta);
    lemma_same_roster(w12, w);
    lemma_die(w12);
    assert forall|next: u64| !tick_model(w, delta).contains(id) implies !tick_model(
        tick_model(w, delta),
        next,
    ).contains(id) by {
        lemma_tick(tick_model(w, delta), next);
    }
}

/// A target that names a missing entity is cleared by the targeting
/// stage, and every stage that reads targets before the next death sweep
/// finds none stale: the transitions, the movement, the skill selection
/// and the attacks.
pub proof fn law_no_stage_reads_a_stale_target(w: WorldModel, delta: u64)
    ensures
        forall|i: int|
            0 <= i < w.entities.len() && (match w.entities[i].target.0 {
                Some(t) => !w.contains(t),
                None => false,
            }) ==> (#[trigger] detect_enemy_model(w).entities[i]).target.0.is_none(),
        no_stale_target(detect_enemy_model(w)),
        no_stale_target(trig_player_action_model(detect_enemy_model(w))),
        no_stale_target(trig_monster_action_model(trig_player_action_model(detect_enemy_model(w)))),
        no_stale_target(after_transitions(w, delta)),
        no_stale_target(use_skill_model(after_transitions(w, delta))),
        no_stale_target(base_attack_model(use_skill_model(after_transitions(w, delta)), delta)),
{
    let w1 = detect_enemy_model(w);
    let w2 = trig_player_action_model(w1);
    let w3 = trig_monster_action_model(w2);
    let w4 = move_gameobject_model(w3, delta);
    let w5 = use_skill_model(w4);
    let w6 = base_attack_model(w5, delta);
    lemma_detect_enemy(w);
    assert(same_targets(w2, w1));
    lemma_same_targets(w2, w1);
    assert(same_targets(w3, w2));
    lemma_same_targets(w3, w2);
    assert(same_targets(w4, w3));
    lemma_same_targets(w4, w3);
    assert(same_targets(w5, w4));
    lemma_same_targets(w5, w4);
    lemma_base_attack_keeps_entities(w5, w5.entities.len() as int, delta);
    assert(same_targets(w6, w5)) by {
        assert forall|i: int| 0 <= i < w6.entities.len() implies (#[trigger] w6.entities[i]).id
            == w5.entities[i].id && w6.entities[i].target == w5.entities[i].target by {
            assert(sightings(w6.entities)[i].id == sightings(w5.entities)[i].id);
        }
    }
    lemma_same_targets(w6, w5);
}

/// The attacker that `first_attacker` finds is named by one of the events.
pub proof fn lemma_first_attacker(events: Seq<crate::battle::Attacked>, id: EntityId, from: int)
    requires
        0 <= from,
    ensures
        match first_attacker(events, id, from) {
            Some(a) => exists|j: int|
                from <= j < events.len() && events[j].attacked == id && events[j].attacker == a,
            None => true,
        },
    decreases events.len() - from,
{
    if from < events.len() && events[from].attacked != id {
        lemma_first_attacker(events, id, from + 1);
    }
}

/// In a tick that begins with an empty queue of `Attacked` events, an
/// entity that is struck turns on an attacker that is in the arena: the
/// targets are still free of stale ones after the events were drained.
pub proof fn law_struck_entities_turn_on_live_attackers(w: WorldModel, delta: u64)
    requires
        w.attacked_events.len() == 0,
    ensures
        no_stale_target(after_attacks(w, delta)),
{
    let w5 = use_skill_model(after_transitions(w, delta));
    let w6 = base_attack_model(w5, delta);
    let w7 = attacked_model(w6);
    law_no_stage_reads_a_stale_target(w, delta);
    lemma_base_attack_events(w5, w5.entities.len() as int, delta);
    assert(roster(w7.entities) =~= roster(w6.entities));
    lemma_same_roster(w7, w6);
    lemma_roster_until_sweep(w, delta);
    lemma_same_roster(w6, w5);
    assert forall|i: int| 0 <= i < w7.entities.len() implies match #[trigger] w7.entities[i].target.0 {
        Some(t) => w7.contains(t),
        None => true,
    } by {
        let me = w6.entities[i];
        match me.target.0 {
            Some(t) => {
                assert(w6.contains(t));
            },
            None => {
                lemma_first_attacker(w6.attacked_events, me.id, 0);
                match first_attacker(w6.attacked_events, me.id, 0) {
                    Some(a) => {
                        let j = choose|j: int|
                            0 <= j < w6.attacked_events.len() && w6.attacked_events[j].attacked
                                == me.id && w6.attacked_events[j].attacker == a;
                        assert(w5.contains(w6.attacked_events[j].attacker));
                    },
                    None => {},
                }
            },
        }
    }
}

} // verus!

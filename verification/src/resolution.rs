use vstd::prelude::*;
use crate::battle::{Attacked, Damage, Heal, Health, Stat};
use crate::components::{CastingBar, EntityId, HealthBar};
use crate::game_object::{models, CombatEntity, EntityModel, Target};
use crate::states::ActionState;
use crate::world::{lemma_same_ids, same_but_entities, same_roster, World, WorldModel};

verus! {

/// The attacker named by the first event, from the place `from` on, that
/// names `id` as attacked.
pub open spec fn first_attacker(events: Seq<Attacked>, id: EntityId, from: int) -> Option<EntityId>
    decreases events.len() - from,
{
    if from < 0 || from >= events.len() {
        None
    } else if events[from].attacked == id {
        Some(events[from].attacker)
    } else {
        first_attacker(events, id, from + 1)
    }
}

/// What the `Attacked` events make of one entity: an entity without a
/// target takes its first attacker as its target and goes into battle.
pub open spec fn engaged(me: EntityModel, events: Seq<Attacked>) -> EntityModel {
    match me.target.0 {
        Some(_) => me,
        None => match first_attacker(events, me.id, 0) {
            Some(attacker) => EntityModel {
                target: Target(Some(attacker)),
                action_state: ActionState::BATTLE,
                ..me
            },
            None => me,
        },
    }
}

/// The arena after the `Attacked` events were drained.
pub open spec fn attacked_model(w: WorldModel) -> WorldModel {
    WorldModel {
        entities: Seq::new(w.entities.len(), |i: int| engaged(w.entities[i], w.attacked_events)),
        attacked_events: Seq::empty(),
        ..w
    }
}

/// Finds the first attacker of `id` among `events`.
fn find_attacker(events: &Vec<Attacked>, id: EntityId) -> (r: Option<EntityId>)
    ensures
        r == first_attacker(events@, id, 0),
{
    let mut i: usize = 0;
    while i < events.len()
        invariant
            i <= events.len(),
            first_attacker(events@, id, 0) == first_attacker(events@, id, i as int),
        decreases events.len() - i,
    {
        if events[i].attacked() == id {
            return Some(events[i].attacker());
        }
        i += 1;
    }
    None
}

/// Drains the `Attacked` events: every entity without a target that an
/// event names as attacked takes the attacker of the first such event as
/// its target and goes into battle. The queue is empty afterwards.
pub fn attacked(world: &mut World)
    ensures
        same_roster(final(world)@, old(world)@),
        old(world)@.wf() ==> final(world)@.wf(),
        final(world)@ == attacked_model(old(world)@),
{
    let n = world.entities.len();
    let mut i: usize = 0;
    while i < n
        invariant
            i <= n,
            n == world.entities.len(),
            n == old(world).entities.len(),
            forall|j: int|
                0 <= j < i ==> world.entities[j]@ == engaged(
                    old(world).entities[j]@,
                    old(world).attacked_events@,
                ),
            forall|j: int| i <= j < n ==> world.entities[j] == old(world).entities[j],
            same_but_entities(*world, *old(world)),
        decreases n - i,
    {
        if world.entities[i].target.0.is_none() {
            match find_attacker(&world.attacked_events, world.entities[i].id) {
                Some(attacker) => {
                    world.entities[i].target = Target(Some(attacker));
                    world.entities[i].action_state = ActionState::BATTLE;
                },
                None => {},
            }
        }
        i += 1;
    }
    world.attacked_events.clear();
    assert(final(world)@.entities =~= attacked_model(old(world)@).entities);
    assert(final(world)@.attacked_events =~= Seq::<Attacked>::empty());
    proof {
        lemma_same_ids(final(world)@, old(world)@);
    }
}

/// The health of the entity `id` after the first `n` damage events.
pub open spec fn damage_taken(hp: Health, events: Seq<Damage>, id: EntityId, n: int) -> Health
    decreases n,
{
    if n <= 0 {
        hp
    } else {
        let before = damage_taken(hp, events, id, n - 1);
        if events[n - 1].attacked == id {
            before.reduced(events[n - 1].damage)
        } else {
            before
        }
    }
}

/// The health of the entity `id` after the first `n` heal events. A heal
/// takes its value off the health, as a damage event does.
pub open spec fn heal_taken(hp: Health, events: Seq<Heal>, id: EntityId, n: int) -> Health
    decreases n,
{
    if n <= 0 {
        hp
    } else {
        let before = heal_taken(hp, events, id, n - 1);
        if events[n - 1].healed == id {
            before.reduced(events[n - 1].value)
        } else {
            before
        }
    }
}

/// An entity with its health replaced.
pub open spec fn with_health(me: EntityModel, hp: Health) -> EntityModel {
    EntityModel { stat: Stat { hp, ..me.stat }, ..me }
}

/// The arena after the damage events were applied and drained.
pub open spec fn damage_model(w: WorldModel) -> WorldModel {
    WorldModel {
        entities: Seq::new(
            w.entities.len(),
            |i: int|
                with_health(
                    w.entities[i],
                    damage_taken(
                        w.entities[i].stat.hp,
                        w.damage_events,
                        w.entities[i].id,
                        w.damage_events.len() as int,
                    ),
                ),
        ),
        damage_events: Seq::empty(),
        ..w
    }
}

/// The arena after the heal events were applied and drained.
pub open spec fn heal_model(w: WorldModel) -> WorldModel {
    WorldModel {
        entities: Seq::new(
            w.entities.len(),
            |i: int|
                with_health(
                    w.entities[i],
                    heal_taken(
                        w.entities[i].stat.hp,
                        w.heal_events,
                        w.entities[i].id,
                        w.heal_events.len() as int,
                    ),
                ),
        ),
        heal_events: Seq::empty(),
        ..w
    }
}

/// Applies the damage events to every entity they name, in the order in
/// which they were queued: each takes its damage off the current health of
/// the attacked entity. The queue is empty afterwards.
pub fn damage(world: &mut World)
    ensures
        same_roster(final(world)@, old(world)@),
        old(world)@.wf() ==> final(world)@.wf(),
        final(world)@ == damage_model(old(world)@),
{
    let n = world.entities.len();
    let m = world.damage_events.len();
    let mut i: usize = 0;
    while i < n
        invariant
            i <= n,
            n == world.entities.len(),
            n == old(world).entities.len(),
            m == world.damage_events.len(),
            forall|j: int|
                0 <= j < i ==> world.entities[j]@ == with_health(
                    old(world).entities[j]@,
                    damage_taken(
                        old(world).entities[j].stat.hp,
                        old(world).damage_events@,
                        old(world).entities[j].id,
                        m as int,
                    ),
                ),
            forall|j: int| i <= j < n ==> world.entities[j] == old(world).entities[j],
            same_but_entities(*world, *old(world)),
        decreases n - i,
    {
        let id = world.entities[i].id;
        let mut hp = world.entities[i].stat.hp;
        let mut k: usize = 0;
        while k < m
            invariant
                k <= m,
                m == world.damage_events.len(),
                world.damage_events == old(world).damage_events,
                hp == damage_taken(
                    old(world).entities[i as int].stat.hp,
                    old(world).damage_events@,
                    id,
                    k as int,
                ),
            decreases m - k,
        {
            if world.damage_events[k].attacked == id {
                hp.reduce(world.damage_events[k].damage);
            }
            k += 1;
        }
        world.entities[i].stat.hp = hp;
        i += 1;
    }
    world.damage_events.clear();
    assert(final(world)@.entities =~= damage_model(old(world)@).entities);
    assert(final(world)@.damage_events =~= Seq::<Damage>::empty());
    proof {
        lemma_same_ids(final(world)@, old(world)@);
    }
}

/// Applies the heal events to every entity they name, in the order in
/// which they were queued: each takes its value off the current health of
/// the healed entity. The queue is empty afterwards.
pub fn heal(world: &mut World)
    ensures
        same_roster(final(world)@, old(world)@),
        old(world)@.wf() ==> final(world)@.wf(),
        final(world)@ == heal_model(old(world)@),
{
    let n = world.entities.len();
    let m = world.heal_events.len();
    let mut i: usize = 0;
    while i < n
        invariant
            i <= n,
            n == world.entities.len(),
            n == old(world).entities.len(),
            m == world.heal_events.len(),
            forall|j: int|
                0 <= j < i ==> world.entities[j]@ == with_health(
                    old(world).entities[j]@,
                    heal_taken(
                        old(world).entities[j].stat.hp,
                        old(world).heal_events@,
                        old(world).entities[j].id,
                        m as int,
                    ),
                ),
            forall|j: int| i <= j < n ==> world.entities[j] == old(world).entities[j],
            same_but_entities(*world, *old(world)),
        decreases n - i,
    {
        let id = world.entities[i].id;
        let mut hp = world.entities[i].stat.hp;
        let mut k: usize = 0;
        while k < m
            invariant
                k <= m,
                m == world.heal_events.len(),
                world.heal_events == old(world).heal_events,
                hp == heal_taken(
                    old(world).entities[i as int].stat.hp,
                    old(world).heal_events@,
                    id,
                    k as int,
                ),
            decreases m - k,
        {
            if world.heal_events[k].healed == id {
                hp.reduce(world.heal_events[k].value);
            }
            k += 1;
        }
        world.entities[i].stat.hp = hp;
        i += 1;
    }
    world.heal_events.clear();
    assert(final(world)@.entities =~= heal_model(old(world)@).entities);
    assert(final(world)@.heal_events =~= Seq::<Heal>::empty());
    proof {
        lemma_same_ids(final(world)@, old(world)@);
    }
}

/// The entity has health left.
pub open spec fn alive(e: EntityModel) -> bool {
    !e.stat.hp.spent()
}

/// Some entity with identifier `id` has no health left.
pub open spec fn dead_in(all: Seq<EntityModel>, id: EntityId) -> bool {
    exists|k: int| 0 <= k < all.len() && all[k].id == id && !alive(all[k])
}

/// A bar bound to `target` outlives the sweep: it is bound to nothing,
/// or to an identifier of no dead entity.
pub open spec fn bar_stays(all: Seq<EntityModel>, target: Option<EntityId>) -> bool {
    match target {
        Some(t) => !dead_in(all, t),
        None => true,
    }
}

/// The arena after the death sweep: the entities with health left, and
/// the bars that are bound to none of the others, each in order.
pub open spec fn die_model(w: WorldModel) -> WorldModel {
    WorldModel {
        entities: w.entities.filter(|e: EntityModel| alive(e)),
        health_bars: w.health_bars.filter(|b: HealthBar| bar_stays(w.entities, b.target)),
        casting_bars: w.casting_bars.filter(|b: CastingBar| bar_stays(w.entities, b.target)),
        ..w
    }
}

/// Whether some entity with identifier `id` has no health left.
fn is_dead(entities: &Vec<CombatEntity>, id: EntityId) -> (r: bool)
    ensures
        r == dead_in(models(entities@), id),
{
    let mut i: usize = 0;
    while i < entities.len()
        invariant
            i <= entities.len(),
            forall|k: int|
                0 <= k < i ==> !(models(entities@)[k].id == id && !alive(models(entities@)[k])),
        decreases entities.len() - i,
    {
        if entities[i].id == id && entities[i].stat.hp.is_spent() {
            assert(models(entities@)[i as int].id == id && !alive(models(entities@)[i as int]));
            return true;
        }
        i += 1;
    }
    false
}

/// Whether a bar bound to `target` outlives the sweep.
fn stays(entities: &Vec<CombatEntity>, target: Option<EntityId>) -> (r: bool)
    ensures
        r == bar_stays(models(entities@), target),
{
    match target {
        Some(t) => !is_dead(entities, t),
        None => true,
    }
}

/// Removes the entities without health from `entities`, keeping the order.
fn bury(entities: &mut Vec<CombatEntity>)
    ensures
        models(final(entities)@) == models(old(entities)@).filter(|e: EntityModel| alive(e)),
{
    let ghost before = models(entities@);
    let ghost keep = |e: EntityModel| alive(e);
    let mut i: usize = 0;
    let ghost mut done: int = 0;
    assert(before.take(0) =~= Seq::empty());
    assert(before.skip(0) =~= before);
    assert(Seq::<EntityModel>::empty() + before =~= before);
    while i < entities.len()
        invariant
            i <= entities.len(),
            0 <= done <= before.len(),
            keep == |e: EntityModel| alive(e),
            i == before.take(done).filter(keep).len(),
            models(entities@) == before.take(done).filter(keep) + before.skip(done),
        decreases before.len() - done,
    {
        proof {
            assert(models(entities@)[i as int] == before.skip(done)[0]);
            assert(done < before.len());
            assert(before.take(done + 1) =~= before.take(done).push(before[done]));
            before.take(done).lemma_filter_push(before[done], keep);
        }
        let ghost so_far = models(entities@);
        if entities[i].stat.hp.is_spent() {
            entities.remove(i);
            proof {
                assert(models(entities@) =~= so_far.remove(i as int));
                assert(so_far.remove(i as int) =~= before.take(done + 1).filter(keep) + before.skip(
                    done + 1,
                ));
            }
        } else {
            proof {
                assert(so_far =~= before.take(done + 1).filter(keep) + before.skip(done + 1));
            }
            i += 1;
        }
        proof {
            done = done + 1;
        }
    }
    proof {
        assert(done == before.len()) by {
            if done < before.len() {
                assert(models(entities@).len() == i + before.skip(done).len());
            }
        }
        assert(before.take(done) =~= before);
        assert(before.skip(done) =~= Seq::empty());
        assert(models(entities@) =~= before.filter(keep));
    }
}

/// The death sweep. Every entity whose current health is zero or less
/// is removed, together with every health bar and casting bar bound to its
/// identifier. Entities with health left are not touched.
pub fn die(world: &mut World)
    ensures
        final(world)@ == die_model(old(world)@),
        forall|i: int|
            0 <= i < final(world)@.entities.len() ==> alive(#[trigger] final(world)@.entities[i]),
        forall|id: EntityId| !old(world)@.contains(id) ==> !final(world)@.contains(id),
        old(world)@.wf() ==> final(world)@.wf(),
        old(world)@.wf() ==> forall|id: EntityId|
            dead_in(old(world)@.entities, id) ==> !final(world)@.contains(id),
{
    let ghost all = world@.entities;
    let ghost keep_health = |b: HealthBar| bar_stays(all, b.target);
    let ghost keep_casting = |b: CastingBar| bar_stays(all, b.target);

    let mut health_bars: Vec<HealthBar> = Vec::new();
    let mut i: usize = 0;
    assert(world.health_bars@.take(0) =~= Seq::empty());
    while i < world.health_bars.len()
        invariant
            i <= world.health_bars.len(),
            *world == *old(world),
            all == world@.entities,
            keep_health == |b: HealthBar| bar_stays(all, b.target),
            health_bars@ == world.health_bars@.take(i as int).filter(keep_health),
        decreases world.health_bars.len() - i,
    {
        let bar = world.health_bars[i];
        proof {
            assert(world.health_bars@.take(i as int + 1) =~= world.health_bars@.take(
                i as int,
            ).push(bar));
            world.health_bars@.take(i as int).lemma_filter_push(bar, keep_health);
        }
        if stays(&world.entities, bar.target) {
            health_bars.push(bar);
        }
        i += 1;
    }
    assert(world.health_bars@.take(i as int) =~= world.health_bars@);

    let mut casting_bars: Vec<CastingBar> = Vec::new();
    let mut k: usize = 0;
    assert(world.casting_bars@.take(0) =~= Seq::empty());
    while k < world.casting_bars.len()
        invariant
            k <= world.casting_bars.len(),
            *world == *old(world),
            all == world@.entities,
            keep_casting == |b: CastingBar| bar_stays(all, b.target),
            casting_bars@ == world.casting_bars@.take(k as int).filter(keep_casting),
        decreases world.casting_bars.len() - k,
    {
        let bar = world.casting_bars[k];
        proof {
            assert(world.casting_bars@.take(k as int + 1) =~= world.casting_bars@.take(
                k as int,
            ).push(bar));
            world.casting_bars@.take(k as int).lemma_filter_push(bar, keep_casting);
        }
        if stays(&world.entities, bar.target) {
            casting_bars.push(bar);
        }
        k += 1;
    }
    assert(world.casting_bars@.take(k as int) =~= world.casting_bars@);

    world.health_bars = health_bars;
    world.casting_bars = casting_bars;
    bury(&mut world.entities);
    proof {
        lemma_die(old(world)@);
    }
}

/// A filter keeps no identifier twice where the sequence had none twice.
pub proof fn lemma_filter_unique_ids(all: Seq<EntityModel>, test: spec_fn(EntityModel) -> bool)
    requires
        forall|i: int, j: int| 0 <= i < j < all.len() ==> all[i].id != all[j].id,
    ensures
        forall|i: int, j: int|
            0 <= i < j < all.filter(test).len() ==> all.filter(test)[i].id != all.filter(
                test,
            )[j].id,
    decreases all.len(),
{
    if all.len() == 0 {
        all.lemma_filter_len(test);
    } else {
        let rest = all.drop_last();
        let last = all.last();
        assert forall|i: int, j: int| 0 <= i < j < rest.len() implies rest[i].id
            != rest[j].id by {
            assert(all[i].id != all[j].id);
        }
        lemma_filter_unique_ids(rest, test);
        assert(all =~= rest.push(last));
        rest.lemma_filter_push(last, test);
        let kept = all.filter(test);
        let before = rest.filter(test);
        assert forall|i: int, j: int| 0 <= i < j < kept.len() implies kept[i].id
            != kept[j].id by {
            if j < before.len() {
                assert(before[i].id != before[j].id);
            } else {
                assert(before.contains(before[i]));
                rest.lemma_filter_contains_rev(test, before[i]);
                let k = choose|k: int| 0 <= k < rest.len() && rest[k] == before[i];
                assert(all[k].id != all[all.len() - 1].id);
            }
        }
    }
}

/// What a filter keeps of a sequence of entities: entities of the
/// sequence that pass the test, and every one of them.
pub proof fn lemma_kept_entities(all: Seq<EntityModel>, test: spec_fn(EntityModel) -> bool)
    ensures
        forall|i: int|
            0 <= i < all.filter(test).len() ==> test(#[trigger] all.filter(test)[i])
                && all.contains(all.filter(test)[i]),
        forall|k: int|
            0 <= k < all.len() && test(#[trigger] all[k]) ==> all.filter(test).contains(all[k]),
{
    let kept = all.filter(test);
    assert forall|i: int| 0 <= i < kept.len() implies test(#[trigger] kept[i]) && all.contains(
        kept[i],
    ) by {
        all.lemma_filter_pred(test, i);
        assert(kept.contains(kept[i]));
        all.lemma_filter_contains_rev(test, kept[i]);
    }
    assert forall|k: int| 0 <= k < all.len() && test(#[trigger] all[k]) implies kept.contains(
        all[k],
    ) by {
        all.lemma_filter_contains(test, k);
    }
}

/// The death sweep leaves no entity without health and keeps every
/// entity with health. In a well-formed arena the identifier of a dead
/// entity is in the arena no more, and no bar is bound to it. An
/// identifier that was not in the arena is not in it afterwards. A second
/// sweep changes nothing.
pub proof fn lemma_die(w: WorldModel)
    ensures
        forall|i: int|
            0 <= i < die_model(w).entities.len() ==> alive(#[trigger] die_model(w).entities[i]),
        forall|k: int|
            0 <= k < w.entities.len() && alive(#[trigger] w.entities[k]) ==> die_model(w).contains(
                w.entities[k].id,
            ),
        forall|id: EntityId| !w.contains(id) ==> !die_model(w).contains(id),
        w.wf() ==> die_model(w).wf(),
        w.wf() ==> forall|id: EntityId| dead_in(w.entities, id) ==> !die_model(w).contains(id),
        forall|i: int|
            0 <= i < die_model(w).health_bars.len() ==> bar_stays(
                w.entities,
                (#[trigger] die_model(w).health_bars[i]).target,
            ),
        forall|i: int|
            0 <= i < die_model(w).casting_bars.len() ==> bar_stays(
                w.entities,
                (#[trigger] die_model(w).casting_bars[i]).target,
            ),
        die_model(die_model(w)) == die_model(w),
        die_model(w).next_id == w.next_id,
{
    let keep = |e: EntityModel| alive(e);
    let after = die_model(w);
    lemma_kept_entities(w.entities, keep);
    assert forall|k: int|
        0 <= k < w.entities.len() && alive(#[trigger] w.entities[k]) implies after.contains(
        w.entities[k].id,
    ) by {
        assert(keep(w.entities[k]));
        assert(after.entities.contains(w.entities[k]));
        let i = choose|i: int| 0 <= i < after.entities.len() && after.entities[i] == w.entities[k];
        assert(after.entities[i].id == w.entities[k].id);
    }
    assert forall|id: EntityId| after.contains(id) implies w.contains(id) by {
        let i = choose|i: int| 0 <= i < after.entities.len() && after.entities[i].id == id;
        assert(w.entities.contains(after.entities[i]));
        let k = choose|k: int| 0 <= k < w.entities.len() && w.entities[k] == after.entities[i];
        assert(w.entities[k].id == id);
    }
    if w.wf() {
        lemma_filter_unique_ids(w.entities, keep);
        assert forall|i: int| 0 <= i < after.entities.len() implies after.entities[i].id
            < after.next_id by {
            assert(w.entities.contains(after.entities[i]));
            let k = choose|k: int| 0 <= k < w.entities.len() && w.entities[k] == after.entities[i];
        }
        assert forall|id: EntityId| dead_in(w.entities, id) implies !after.contains(id) by {
            if after.contains(id) {
                let i = choose|i: int| 0 <= i < after.entities.len() && after.entities[i].id == id;
                assert(keep(after.entities[i]));
                assert(w.entities.contains(after.entities[i]));
                let k = choose|k: int|
                    0 <= k < w.entities.len() && w.entities[k] == after.entities[i];
                let d = choose|d: int|
                    0 <= d < w.entities.len() && w.entities[d].id == id && !alive(w.entities[d]);
                assert(k != d);
                if k < d {
                    assert(w.entities[k].id != w.entities[d].id);
                } else {
                    assert(w.entities[d].id != w.entities[k].id);
                }
            }
        }
    }
    let keep_health = |b: HealthBar| bar_stays(w.entities, b.target);
    let keep_casting = |b: CastingBar| bar_stays(w.entities, b.target);
    assert forall|i: int| 0 <= i < after.health_bars.len() implies bar_stays(
        w.entities,
        (#[trigger] after.health_bars[i]).target,
    ) by {
        w.health_bars.lemma_filter_pred(keep_health, i);
    }
    assert forall|i: int| 0 <= i < after.casting_bars.len() implies bar_stays(
        w.entities,
        (#[trigger] after.casting_bars[i]).target,
    ) by {
        w.casting_bars.lemma_filter_pred(keep_casting, i);
    }
    // A second sweep finds nothing to remove.
    assert forall|k: int| 0 <= k < after.entities.len() implies keep(after.entities[k]) by {}
    lemma_filter_all(after.entities, keep);
    assert(after.entities.filter(keep) == after.entities);
    assert forall|id: EntityId| !dead_in(after.entities, id) by {
        if dead_in(after.entities, id) {
            let k = choose|k: int|
                0 <= k < after.entities.len() && after.entities[k].id == id && !alive(
                    after.entities[k],
                );
            assert(keep(after.entities[k]));
        }
    }
    let again_health = |b: HealthBar| bar_stays(after.entities, b.target);
    let again_casting = |b: CastingBar| bar_stays(after.entities, b.target);
    lemma_filter_all(after.health_bars, again_health);
    lemma_filter_all(after.casting_bars, again_casting);
    assert(die_model(after).health_bars == after.health_bars);
    assert(die_model(after).casting_bars == after.casting_bars);
}

/// A filter that every element passes keeps the whole sequence.
pub proof fn lemma_filter_all<A>(s: Seq<A>, test: spec_fn(A) -> bool)
    requires
        forall|i: int| 0 <= i < s.len() ==> test(s[i]),
    ensures
        s.filter(test) == s,
    decreases s.len(),
{
    if s.len() == 0 {
        s.lemma_filter_len(test);
        assert(s.filter(test) =~= s);
    } else {
        let rest = s.drop_last();
        assert forall|i: int| 0 <= i < rest.len() implies test(rest[i]) by {
            assert(test(s[i]));
        }
        lemma_filter_all(rest, test);
        assert(s =~= rest.push(s.last()));
        rest.lemma_filter_push(s.last(), test);
        assert(test(s[s.len() - 1]));
    }
}

} // verus!

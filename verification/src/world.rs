use vstd::prelude::*;
use crate::battle::{Attacked, Damage, Heal};
use crate::components::{CastingBar, EntityId, HealthBar};
use crate::game_object::{
    lemma_locate, lemma_locate_stays, locate, models, sightings, CombatEntity, EntityModel,
};
use crate::projectile::ProjectileBundle;

verus! {

/// The arena: every live entity and projectile, the bars bound to entities,
/// and the events of the running tick.
pub struct World {
    pub entities: Vec<CombatEntity>,
    pub projectiles: Vec<ProjectileBundle>,
    pub health_bars: Vec<HealthBar>,
    pub casting_bars: Vec<CastingBar>,
    pub attacked_events: Vec<Attacked>,
    pub damage_events: Vec<Damage>,
    pub heal_events: Vec<Heal>,
    /// The identifier that the next spawned entity gets.
    pub next_id: EntityId,
}

/// The arena as the rules see it.
pub struct WorldModel {
    pub entities: Seq<EntityModel>,
    pub projectiles: Seq<ProjectileBundle>,
    pub health_bars: Seq<HealthBar>,
    pub casting_bars: Seq<CastingBar>,
    pub attacked_events: Seq<Attacked>,
    pub damage_events: Seq<Damage>,
    pub heal_events: Seq<Heal>,
    pub next_id: EntityId,
}

impl View for World {
    type V = WorldModel;

    open spec fn view(&self) -> WorldModel {
        WorldModel {
            entities: models(self.entities@),
            projectiles: self.projectiles@,
            health_bars: self.health_bars@,
            casting_bars: self.casting_bars@,
            attacked_events: self.attacked_events@,
            damage_events: self.damage_events@,
            heal_events: self.heal_events@,
            next_id: self.next_id,
        }
    }
}

impl WorldModel {
    /// The arena with nothing in it, before any identifier was handed out.
    pub open spec fn empty() -> WorldModel {
        WorldModel {
            entities: Seq::empty(),
            projectiles: Seq::empty(),
            health_bars: Seq::empty(),
            casting_bars: Seq::empty(),
            attacked_events: Seq::empty(),
            damage_events: Seq::empty(),
            heal_events: Seq::empty(),
            next_id: 0,
        }
    }

    /// No two entities share an identifier, and every identifier in use was
    /// handed out before.
    pub open spec fn wf(self) -> bool {
        &&& forall|i: int, j: int|
            0 <= i < j < self.entities.len() ==> self.entities[i].id != self.entities[j].id
        &&& forall|i: int| 0 <= i < self.entities.len() ==> self.entities[i].id < self.next_id
    }

    /// An entity with identifier `id` is in the arena.
    pub open spec fn contains(self, id: EntityId) -> bool {
        exists|k: int| 0 <= k < self.entities.len() && self.entities[k].id == id
    }

    /// No event waits to be drained.
    pub open spec fn quiet(self) -> bool {
        &&& self.attacked_events.len() == 0
        &&& self.damage_events.len() == 0
        &&& self.heal_events.len() == 0
    }
}

/// Two arenas differ in their entities at most.
pub open spec fn same_but_entities(a: World, b: World) -> bool {
    &&& a.projectiles == b.projectiles
    &&& a.health_bars == b.health_bars
    &&& a.casting_bars == b.casting_bars
    &&& a.attacked_events == b.attacked_events
    &&& a.damage_events == b.damage_events
    &&& a.heal_events == b.heal_events
    &&& a.next_id == b.next_id
}

impl World {
    /// An empty arena.
    pub fn new() -> (w: Self)
        ensures
            w@ == WorldModel::empty(),
            w@.wf(),
            w@.quiet(),
    {
        let w = World {
            entities: Vec::new(),
            projectiles: Vec::new(),
            health_bars: Vec::new(),
            casting_bars: Vec::new(),
            attacked_events: Vec::new(),
            damage_events: Vec::new(),
            heal_events: Vec::new(),
            next_id: 0,
        };
        assert(w@.entities =~= Seq::empty());
        w
    }

    /// The place of the first entity with identifier `id`.
    pub fn index_of(&self, id: EntityId) -> (r: Option<usize>)
        ensures
            r.is_some() == self@.contains(id),
            match r {
                Some(k) => k < self.entities.len() && locate(
                    sightings(self@.entities),
                    id,
                    self.entities.len() as int,
                ) == Some(k as int),
                None => locate(sightings(self@.entities), id, self.entities.len() as int)
                    .is_none(),
            },
    {
        let ghost seen = sightings(self@.entities);
        let mut i: usize = 0;
        while i < self.entities.len()
            invariant
                i <= self.entities.len(),
                seen == sightings(self@.entities),
                locate(seen, id, i as int).is_none(),
            decreases self.entities.len() - i,
        {
            if self.entities[i].id == id {
                proof {
                    assert(seen[i as int].id == id);
                    lemma_locate_stays(seen, id, i as int + 1, self.entities.len() as int);
                    assert(self@.entities[i as int].id == id);
                }
                return Some(i);
            }
            i += 1;
        }
        proof {
            lemma_locate(seen, id, self.entities.len() as int);
            assert forall|k: int| 0 <= k < self@.entities.len() implies self@.entities[k].id
                != id by {
                assert(seen[k].id == self@.entities[k].id);
            }
        }
        None
    }

    /// Whether the entity `id` is in the arena.
    pub fn is_alive(&self, id: EntityId) -> (r: bool)
        ensures
            r == self@.contains(id),
    {
        self.index_of(id).is_some()
    }
}

/// The identifiers of `all`, in order.
pub open spec fn roster(all: Seq<EntityModel>) -> Seq<EntityId> {
    Seq::new(all.len(), |i: int| all[i].id)
}

/// Two arenas hold the same identifiers in the same places, and have
/// handed out the same identifiers.
pub open spec fn same_roster(a: WorldModel, b: WorldModel) -> bool {
    roster(a.entities) == roster(b.entities) && a.next_id == b.next_id
}

/// Well-formedness and membership depend on the roster alone.
pub proof fn lemma_same_roster(a: WorldModel, b: WorldModel)
    requires
        same_roster(a, b),
    ensures
        a.wf() == b.wf(),
        forall|id: EntityId| a.contains(id) == b.contains(id),
{
    assert(a.entities.len() == roster(a.entities).len());
    assert(b.entities.len() == roster(b.entities).len());
    assert forall|i: int| 0 <= i < a.entities.len() implies a.entities[i].id
        == b.entities[i].id by {
        assert(roster(a.entities)[i] == roster(b.entities)[i]);
    }
    assert forall|id: EntityId| a.contains(id) == b.contains(id) by {
        if a.contains(id) {
            let k = choose|k: int| 0 <= k < a.entities.len() && a.entities[k].id == id;
            assert(b.entities[k].id == id);
        }
        if b.contains(id) {
            let k = choose|k: int| 0 <= k < b.entities.len() && b.entities[k].id == id;
            assert(a.entities[k].id == id);
        }
    }
}

/// Arenas whose entities carry the same identifiers place by place, and
/// that have handed out the same identifiers, have the same roster, and one
/// is well-formed when the other is.
pub proof fn lemma_same_ids(a: WorldModel, b: WorldModel)
    requires
        a.entities.len() == b.entities.len(),
        forall|i: int| 0 <= i < a.entities.len() ==> (#[trigger] a.entities[i]).id == b.entities[i].id,
        a.next_id == b.next_id,
    ensures
        same_roster(a, b),
        a.wf() == b.wf(),
{
    assert(roster(a.entities) =~= roster(b.entities));
    lemma_same_roster(a, b);
}

/// Pushing one entity adds its identifier to those in use, and no other.
pub proof fn lemma_pushed(before: WorldModel, after: WorldModel)
    requires
        after.entities.len() == before.entities.len() + 1,
        forall|i: int| 0 <= i < before.entities.len() ==> after.entities[i] == before.entities[i],
    ensures
        after.contains(after.entities.last().id),
        forall|id: EntityId|
            id != after.entities.last().id ==> #[trigger] after.contains(id) == before.contains(id),
{
    assert(after.entities[after.entities.len() - 1].id == after.entities.last().id);
    assert forall|id: EntityId| id != after.entities.last().id implies #[trigger] after.contains(
        id,
    ) == before.contains(id) by {
        if after.contains(id) {
            let k = choose|k: int| 0 <= k < after.entities.len() && after.entities[k].id == id;
            assert(before.entities[k].id == id);
        }
        if before.contains(id) {
            let k = choose|k: int| 0 <= k < before.entities.len() && before.entities[k].id == id;
            assert(after.entities[k].id == id);
        }
    }
}

} // verus!

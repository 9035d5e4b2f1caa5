use vstd::prelude::*;
use crate::battle::Stat;
use crate::components::{EntityId, Team};
use crate::geometry::{Position, Size};
use crate::monster::Monster;
use crate::player::{Class, Player};
use crate::skill::{CastModel, SkillInfo};
use crate::states::{ActionState, BattleState};

verus! {

/// The entity that another one is engaged with, by identifier. The
/// identifier may have outlived its entity.
#[derive(Clone, Copy, Debug, PartialEq, Eq, Structural)]
pub struct Target(pub Option<EntityId>);

/// The point an entity was ordered to walk to.
#[derive(Clone, Copy, Debug, PartialEq, Eq, Structural)]
pub struct MoveTarget(pub Option<Position>);

/// Who an entity is.
pub enum Role {
    Player(Player),
    Monster(Monster),
}

/// A player or a monster in the arena.
pub struct CombatEntity {
    pub id: EntityId,
    pub role: Role,
    pub team: Team,
    pub class: Option<Class>,
    pub position: Position,
    /// Bounding box; an entity without one is never hit.
    pub size: Option<Size>,
    pub stat: Stat,
    pub target: Target,
    pub move_target: MoveTarget,
    pub action_state: ActionState,
    pub battle_state: BattleState,
    pub skill_info: SkillInfo,
}

/// A combat entity as the rules see it.
pub struct EntityModel {
    pub id: EntityId,
    pub role: Role,
    pub team: Team,
    pub class: Option<Class>,
    pub position: Position,
    pub size: Option<Size>,
    pub stat: Stat,
    pub target: Target,
    pub move_target: MoveTarget,
    pub action_state: ActionState,
    pub battle_state: BattleState,
    pub cast: CastModel,
}

impl View for CombatEntity {
    type V = EntityModel;

    open spec fn view(&self) -> EntityModel {
        EntityModel {
            id: self.id,
            role: self.role,
            team: self.team,
            class: self.class,
            position: self.position,
            size: self.size,
            stat: self.stat,
            target: self.target,
            move_target: self.move_target,
            action_state: self.action_state,
            battle_state: self.battle_state,
            cast: self.skill_info@,
        }
    }
}

/// The models of a sequence of entities, in order.
pub open spec fn models(entities: Seq<CombatEntity>) -> Seq<EntityModel> {
    Seq::new(entities.len(), |i: int| entities[i]@)
}

/// What one entity can see of another: who and where it is.
#[derive(Clone, Copy, Debug, PartialEq, Eq, Structural)]
pub struct Sighting {
    pub id: EntityId,
    pub team: Team,
    pub position: Position,
    pub size: Option<Size>,
}

impl EntityModel {
    pub open spec fn sighting(self) -> Sighting {
        Sighting { id: self.id, team: self.team, position: self.position, size: self.size }
    }
}

/// The sightings of a sequence of entities, in order.
pub open spec fn sightings(all: Seq<EntityModel>) -> Seq<Sighting> {
    Seq::new(all.len(), |i: int| all[i].sighting())
}

/// The least index below `n` of a sighting of `seen` with identifier `id`.
pub open spec fn locate(seen: Seq<Sighting>, id: EntityId, n: int) -> Option<int>
    decreases n,
{
    if n <= 0 {
        None
    } else {
        match locate(seen, id, n - 1) {
            Some(k) => Some(k),
            None => if n <= seen.len() && seen[n - 1].id == id {
                Some(n - 1)
            } else {
                None
            },
        }
    }
}

/// The entity that `id` stands for, if it is still there.
pub open spec fn resolve(seen: Seq<Sighting>, id: EntityId) -> Option<Sighting> {
    match locate(seen, id, seen.len() as int) {
        Some(k) => Some(seen[k]),
        None => None,
    }
}

/// Some entity has the identifier `id`.
pub open spec fn exists_in(seen: Seq<Sighting>, id: EntityId) -> bool {
    exists|k: int| 0 <= k < seen.len() && seen[k].id == id
}

/// What `locate` finds: nothing, when no sighting below `n` has the
/// identifier, else the first that has it.
pub proof fn lemma_locate(seen: Seq<Sighting>, id: EntityId, n: int)
    requires
        0 <= n <= seen.len(),
    ensures
        match locate(seen, id, n) {
            Some(k) => 0 <= k < n && seen[k].id == id && forall|j: int|
                0 <= j < k ==> seen[j].id != id,
            None => forall|j: int| 0 <= j < n ==> seen[j].id != id,
        },
    decreases n,
{
    if n > 0 {
        lemma_locate(seen, id, n - 1);
    }
}

/// An identifier resolves exactly when some entity has it, and to an entity
/// that has it.
pub proof fn lemma_resolve(seen: Seq<Sighting>, id: EntityId)
    ensures
        resolve(seen, id).is_some() == exists_in(seen, id),
        resolve(seen, id).is_some() ==> resolve(seen, id).unwrap().id == id,
{
    lemma_locate(seen, id, seen.len() as int);
}

/// The sightings of `entities`, in order.
pub fn survey(entities: &Vec<CombatEntity>) -> (seen: Vec<Sighting>)
    ensures
        seen@ == sightings(models(entities@)),
{
    let mut seen: Vec<Sighting> = Vec::new();
    let mut i: usize = 0;
    while i < entities.len()
        invariant
            i <= entities.len(),
            seen.len() == i,
            forall|j: int| 0 <= j < i ==> seen[j] == entities[j]@.sighting(),
        decreases entities.len() - i,
    {
        let e = &entities[i];
        seen.push(Sighting { id: e.id, team: e.team, position: e.position, size: e.size });
        i += 1;
    }
    assert(seen@ =~= sightings(models(entities@)));
    seen
}

/// Looks `id` up among `seen`.
pub fn find(seen: &Vec<Sighting>, id: EntityId) -> (r: Option<usize>)
    ensures
        match r {
            Some(k) => locate(seen@, id, seen.len() as int) == Some(k as int) && k < seen.len(),
            None => locate(seen@, id, seen.len() as int).is_none(),
        },
        r.is_some() == resolve(seen@, id).is_some(),
        r.is_some() ==> seen[r.unwrap() as int] == resolve(seen@, id).unwrap(),
{
    let mut i: usize = 0;
    while i < seen.len()
        invariant
            i <= seen.len(),
            locate(seen@, id, i as int).is_none(),
        decreases seen.len() - i,
    {
        if seen[i].id == id {
            proof {
                lemma_locate_stays(seen@, id, i as int + 1, seen.len() as int);
            }
            return Some(i);
        }
        i += 1;
    }
    None
}

/// Once `locate` has found a sighting, looking further finds the same one.
pub proof fn lemma_locate_stays(seen: Seq<Sighting>, id: EntityId, n: int, m: int)
    requires
        0 <= n <= m,
        locate(seen, id, n).is_some(),
    ensures
        locate(seen, id, m) == locate(seen, id, n),
    decreases m - n,
{
    if n < m {
        lemma_locate_stays(seen, id, n, m - 1);
    }
}

} // verus!

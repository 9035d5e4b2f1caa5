use vstd::prelude::*;
use crate::battle::Stat;
use crate::components::{EntityId, Team, TeamType};
use crate::game_object::{CombatEntity, EntityModel, MoveTarget, Role, Target};
use crate::geometry::{Position, Size};
use crate::player::fresh_cast;
use crate::skill::SkillInfo;
use crate::states::{ActionState, BattleState};
use crate::system::{health_bars_of, spawn_healthbar};
use crate::world::{lemma_pushed, World, WorldModel};

verus! {

/// What makes an entity a monster: its name and the experience it is worth,
/// in half points.
pub struct Monster {
    pub name: String,
    pub exp: u64,
}

impl Monster {
    pub fn new(name: String, exp: u64) -> (m: Self)
        ensures
            m.name == name,
            m.exp == exp,
    {
        Self { name, exp }
    }
}

/// The experience that a spawned monster is worth, in half points.
pub open spec fn monster_reward() -> u64 {
    20
}

/// The monster that `spawn_monster` puts into the arena under `id`, in a
/// box of fifty units by eighty.
pub open spec fn new_monster(id: EntityId, name: String, stat: Stat, position: Position) -> EntityModel {
    EntityModel {
        id,
        role: Role::Monster(Monster { name, exp: monster_reward() }),
        team: Team(TeamType::MONSTER),
        class: None,
        position,
        size: Some(Size { width: 50_000, height: 80_000 }),
        stat,
        target: Target(None),
        move_target: MoveTarget(None),
        action_state: ActionState::IDLE,
        battle_state: BattleState::IDLE,
        cast: fresh_cast(),
    }
}

/// The arena after a monster was spawned.
pub open spec fn spawn_monster_model(w: WorldModel, name: String, stat: Stat, position: Position) -> WorldModel {
    WorldModel {
        entities: w.entities.push(new_monster(w.next_id, name, stat, position)),
        health_bars: w.health_bars + health_bars_of(w.next_id),
        next_id: (w.next_id + 1) as EntityId,
        ..w
    }
}

/// Puts a monster into the arena: idle, without a target, with a health
/// bar bound to it. Returns its identifier, which no entity of a
/// well-formed arena has had before.
pub fn spawn_monster(world: &mut World, name: String, stat: Stat, position: Position) -> (id:
    EntityId)
    requires
        old(world).next_id < u64::MAX,
    ensures
        id == old(world).next_id,
        final(world)@ == spawn_monster_model(old(world)@, name, stat, position),
        old(world)@.wf() ==> final(world)@.wf() && !old(world)@.contains(id),
        final(world)@.contains(id),
        forall|other: EntityId|
            other != id ==> final(world)@.contains(other) == old(world)@.contains(other),
{
    let id = world.next_id;
    world.entities.push(
        CombatEntity {
            id,
            role: Role::Monster(Monster::new(name, 20)),
            team: Team(TeamType::MONSTER),
            class: None,
            position,
            size: Some(Size { width: 50_000, height: 80_000 }),
            stat,
            target: Target(None),
            move_target: MoveTarget(None),
            action_state: ActionState::IDLE,
            battle_state: BattleState::IDLE,
            skill_info: SkillInfo::new(),
        },
    );
    world.next_id = id + 1;
    spawn_healthbar(world, id);
    assert(final(world)@.entities =~= spawn_monster_model(old(world)@, name, stat, position).entities);
    proof {
        lemma_pushed(old(world)@, final(world)@);
    }
    id
}

} // verus!

use vstd::prelude::*;
use crate::battle::Stat;
use crate::components::{EntityId, Team, TeamType};
use crate::game_object::{CombatEntity, EntityModel, MoveTarget, Role, Target};
use crate::geometry::{Position, Size};
use crate::skill::{CastModel, SkillInfo};
use crate::states::{ActionState, BattleState};
use crate::system::{casting_bar_of, health_bars_of, spawn_castingbar, spawn_healthbar};
use crate::world::{lemma_pushed, World, WorldModel};

verus! {

/// The class of a player.
#[derive(Clone, Copy, Debug, PartialEq, Eq, Structural)]
pub enum Class {
    NONE,
    KNIGHT,
    MAGE,
    PRIEST,
    ROGUE,
    HUNTER,
}

/// What makes an entity a player.
pub struct Player {
    pub name: String,
}

/// The cast state of an entity that was just spawned.
pub open spec fn fresh_cast() -> CastModel {
    CastModel { skill: None, elapsed: 0, paused: false, duration: 0, cooldown: 0 }
}

/// The player that `spawn_player` puts into the arena under `id`, in a
/// box of fifty units by a hundred.
pub open spec fn new_player(
    id: EntityId,
    name: String,
    stat: Stat,
    class: Class,
    position: Position,
) -> EntityModel {
    EntityModel {
        id,
        role: Role::Player(Player { name }),
        team: Team(TeamType::PLAYER),
        class: Some(class),
        position,
        size: Some(Size { width: 50_000, height: 100_000 }),
        stat,
        target: Target(None),
        move_target: MoveTarget(None),
        action_state: ActionState::IDLE,
        battle_state: BattleState::IDLE,
        cast: fresh_cast(),
    }
}

/// The arena after a player was spawned.
pub open spec fn spawn_player_model(
    w: WorldModel,
    name: String,
    stat: Stat,
    class: Class,
    position: Position,
) -> WorldModel {
    WorldModel {
        entities: w.entities.push(new_player(w.next_id, name, stat, class, position)),
        health_bars: w.health_bars + health_bars_of(w.next_id),
        casting_bars: w.casting_bars.push(casting_bar_of(w.next_id)),
        next_id: (w.next_id + 1) as EntityId,
        ..w
    }
}

/// Puts a player into the arena: idle, without a target and without a
/// cast, with a health bar and a casting bar bound to it. Returns its
/// identifier, which no entity of a well-formed arena has had before.
pub fn spawn_player(
    world: &mut World,
    name: String,
    stat: Stat,
    class: Class,
    position: Position,
) -> (id: EntityId)
    requires
        old(world).next_id < u64::MAX,
    ensures
        id == old(world).next_id,
        final(world)@ == spawn_player_model(old(world)@, name, stat, class, position),
        old(world)@.wf() ==> final(world)@.wf() && !old(world)@.contains(id),
        final(world)@.contains(id),
        forall|other: EntityId|
            other != id ==> final(world)@.contains(other) == old(world)@.contains(other),
{
    let id = world.next_id;
    world.entities.push(
        CombatEntity {
            id,
            role: Role::Player(Player { name }),
            team: Team(TeamType::PLAYER),
            class: Some(class),
            position,
            size: Some(Size { width: 50_000, height: 100_000 }),
            stat,
            target: Target(None),
            move_target: MoveTarget(None),
            action_state: ActionState::IDLE,
            battle_state: BattleState::IDLE,
            skill_info: SkillInfo::new(),
        },
    );
    world.next_id = id + 1;
    spawn_healthbar(world, id);
    spawn_castingbar(world, id);
    assert(final(world)@.entities =~= spawn_player_model(
        old(world)@,
        name,
        stat,
        class,
        position,
    ).entities);
    proof {
        lemma_pushed(old(world)@, final(world)@);
    }
    id
}

} // verus!

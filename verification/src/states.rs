use vstd::prelude::*;

verus! {

/// What an entity does inside a fight.
#[derive(Clone, Copy, Debug, PartialEq, Eq, Structural)]
pub enum BattleState {
    IDLE,
    CASTING,
    MOVE,
    RUNAWAY,
}

/// What an entity does overall.
#[derive(Clone, Copy, Debug, PartialEq, Eq, Structural)]
pub enum ActionState {
    IDLE,
    MOVE,
    BATTLE,
}

} // verus!

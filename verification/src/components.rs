use vstd::prelude::*;

verus! {

/// Identifier of an entity in the arena. Identifiers are never reused.
pub type EntityId = u64;

/// Which side of the fight an entity is on.
#[derive(Clone, Copy, Debug, PartialEq, Eq, Structural)]
pub enum TeamType {
    PLAYER,
    MONSTER,
}

/// The team tag carried by every combat entity.
#[derive(Clone, Copy, Debug, PartialEq, Eq, Structural)]
pub struct Team(pub TeamType);

/// Layer of a health bar.
#[derive(Clone, Copy, Debug, PartialEq, Eq, Structural)]
pub enum HealthBarType {
    FRONT,
    ANIMATION,
    BACKGROUND,
}

/// Layer of a casting bar.
#[derive(Clone, Copy, Debug, PartialEq, Eq, Structural)]
pub enum CastingBarType {
    FRONT,
    BACKGROUND,
}

/// A health bar bound to the entity it displays.
#[derive(Clone, Copy, Debug, PartialEq, Eq, Structural)]
pub struct HealthBar {
    pub bar_type: HealthBarType,
    pub target: Option<EntityId>,
}

/// A casting bar bound to the entity it displays.
#[derive(Clone, Copy, Debug, PartialEq, Eq, Structural)]
pub struct CastingBar {
    pub bar_type: CastingBarType,
    pub target: Option<EntityId>,
}

/// A quotient kept as its two terms, so that nothing is rounded away.
/// A zero denominator is handed on as it is.
#[derive(Clone, Copy, Debug, PartialEq, Eq, Structural)]
pub struct Ratio {
    pub numerator: i128,
    pub denominator: i128,
}

/// Marker for static scenery.
pub struct Building {}

} // verus!

use vstd::prelude::*;
use crate::components::{EntityId, Ratio};

verus! {

/// Health points; `current` may fall below zero between the damage stage
/// and the death sweep.
#[derive(Clone, Copy, Debug, PartialEq, Eq, Structural)]
pub struct Health {
    pub current: i64,
    pub max: i64,
}

impl Health {
    /// Current over maximum health.
    pub fn ratio(&self) -> (r: Ratio)
        ensures
            r == (Ratio { numerator: self.current as i128, denominator: self.max as i128 }),
    {
        Ratio { numerator: self.current as i128, denominator: self.max as i128 }
    }

    /// The health left after losing `amount` points; the result stays inside
    /// the range of an `i64`.
    pub open spec fn reduced(self, amount: i64) -> Health {
        Health { current: clamp_points(self.current - amount), max: self.max }
    }

    /// Takes `amount` points off the current health.
    pub fn reduce(&mut self, amount: i64)
        ensures
            *final(self) == old(self).reduced(amount),
    {
        let left: i128 = self.current as i128 - amount as i128;
        self.current = if left < i64::MIN as i128 {
            i64::MIN
        } else if left > i64::MAX as i128 {
            i64::MAX
        } else {
            left as i64
        };
    }

    /// The owner of this health is dead.
    pub open spec fn spent(self) -> bool {
        self.current <= 0
    }

    pub fn is_spent(&self) -> (r: bool)
        ensures
            r == self.spent(),
    {
        self.current <= 0
    }
}

/// `v`, held inside the range of an `i64`.
pub open spec fn clamp_points(v: int) -> i64 {
    if v < i64::MIN {
        i64::MIN
    } else if v > i64::MAX {
        i64::MAX
    } else {
        v as i64
    }
}

/// The numbers that drive an entity: speed, health, level, and the two
/// ranges.
#[derive(Clone, Copy, Debug, PartialEq, Eq, Structural)]
pub struct Stat {
    pub speed: u32,
    pub hp: Health,
    pub level: u32,
    pub detect_range: u32,
    pub attack_range: u32,
}

impl Stat {
    /// A stat block at full health.
    pub fn new(speed: u32, hp: i64, level: u32, detect_range: u32, attack_range: u32) -> (s: Self)
        ensures
            s == (Stat {
                speed,
                hp: Health { current: hp, max: hp },
                level,
                detect_range,
                attack_range,
            }),
    {
        Self { speed, hp: Health { current: hp, max: hp }, level, detect_range, attack_range }
    }
}

/// Experience, counted in half points.
#[derive(Clone, Copy, Debug, PartialEq, Eq, Structural)]
pub struct Exp {
    pub current: u128,
    pub max: u128,
}

/// Half points of experience that `level` asks for:
/// `15.5 * level^2 - 10.5 * level + 4.5` points.
pub open spec fn exp_for_level(level: u32) -> int {
    31 * level * level - 21 * level + 9
}

impl Exp {
    /// Sets the experience needed to leave `level`.
    pub fn from_level(&mut self, level: u32)
        ensures
            final(self).max == exp_for_level(level),
            final(self).current == old(self).current,
    {
        let l: u128 = level as u128;
        assert(level * level <= 0xFFFF_FFFF * 0xFFFF_FFFF) by (nonlinear_arith)
            requires
                0 <= level <= 0xFFFF_FFFF,
        ;
        assert(31 * level * level - 21 * level + 9 == 31 * (level * level) - 21 * level + 9)
            by (nonlinear_arith);
        assert(31 * (level * level) >= 21 * level) by (nonlinear_arith)
            requires
                level >= 0,
        ;
        self.max = 31 * (l * l) - 21 * l + 9;
    }
}

/// How damage was dealt.
#[derive(Clone, Copy, Debug, PartialEq, Eq, Structural)]
pub enum DamageType {
    Melee,
    Magic,
}

/// How healing was dealt.
#[allow(non_camel_case_types)]
#[derive(Clone, Copy, Debug, PartialEq, Eq, Structural)]
pub enum HealType {
    direct,
    dot,
}

/// `attacker` has struck `attacked` directly.
#[derive(Clone, Copy, Debug, PartialEq, Eq, Structural)]
pub struct Attacked {
    pub attacker: EntityId,
    pub attacked: EntityId,
}

impl Attacked {
    pub fn new(attacker: EntityId, attacked: EntityId) -> (a: Self)
        ensures
            a == (Attacked { attacker, attacked }),
    {
        Self { attacker, attacked }
    }

    pub fn attacker(&self) -> (r: EntityId)
        ensures
            r == self.attacker,
    {
        self.attacker
    }

    pub fn attacked(&self) -> (r: EntityId)
        ensures
            r == self.attacked,
    {
        self.attacked
    }
}

/// `attacked` is to lose `damage` points.
#[derive(Clone, Copy, Debug, PartialEq, Eq, Structural)]
pub struct Damage {
    pub attacker: EntityId,
    pub damage: i64,
    pub damage_type: DamageType,
    pub attacked: EntityId,
}

/// A heal of `value` points on `healed`.
#[derive(Clone, Copy, Debug, PartialEq, Eq, Structural)]
pub struct Heal {
    pub healer: EntityId,
    pub value: i64,
    pub heal_type: HealType,
    pub healed: EntityId,
}

} // verus!

//! Tick-driven combat simulation on an integer grid: targeting, action
//! states, casting, projectiles, damage resolution and the death sweep.
//!
//! Lengths count thousandths of a world unit, times count microseconds,
//! health and damage count points: see `geometry::UNIT`.

pub mod states;
pub mod components;
pub mod clock;
pub mod geometry;
pub mod skill;
pub mod battle;
pub mod player;
pub mod monster;
pub mod game_object;
pub mod projectile;
pub mod world;
pub mod targeting;
pub mod action;
pub mod attack;
pub mod resolution;
pub mod system;
pub mod simulation;
pub mod command;
pub mod tree;
pub mod ui;

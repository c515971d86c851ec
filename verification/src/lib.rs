//! Companion-planting garden planner: a greedy engine that packs plant
//! varieties into a rectangular grid, with machine-checked contracts.

pub mod logic;
pub mod models;

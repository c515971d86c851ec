//! The planning engine: spacing, companion scoring, candidate ranking,
//! allocation and greedy placement.

pub mod allocation;
pub mod companion;
pub mod filter;
pub mod phases;
pub mod placer;
pub mod planner;
pub mod response;
pub mod spacing;
pub mod text;

//! Grouped line selection: items from an ordered list of sources, tagged with
//! the position of their source, separated by synthetic separator items, and
//! ranked by group first and by a delegated fuzzy score second.

pub mod item;
pub mod producer;
pub mod laws;
pub mod ranking;
pub mod session;

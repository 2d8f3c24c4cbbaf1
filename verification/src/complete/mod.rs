//! Completion of what was typed.

pub mod align;
pub mod boxed;
pub mod candidate;
pub mod cells;
pub mod clamped;
pub mod compspec;
pub mod escape;
pub mod fuzzy;
pub mod grid;
pub mod line_laws;
pub mod listwin;
pub mod menu_laws;
pub mod score;
pub mod simple;
pub mod source_laws;
pub mod sources;
pub mod strat;

//! The terminal: widths, layout, keys.

pub mod layout;
pub mod reader;
pub mod width;

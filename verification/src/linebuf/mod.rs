//! The edit buffer.

pub mod bang;
pub mod buffer;
pub mod concat;
pub mod depth;
pub mod edit;
pub mod edit_laws;
pub mod exec;
pub mod line;
pub mod lines;
pub mod motion;
pub mod motion_laws;
pub mod numbers;
pub mod ops;
pub mod pos;
pub mod render;
pub mod scan;
pub mod verb_laws;
pub mod verbs;
pub mod view_laws;
pub mod word_laws;
pub mod words;

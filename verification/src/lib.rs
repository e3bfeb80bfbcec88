//! An interactive line editor core: an editable buffer with a cursor,
//! live prefix suggestions drawn from a sorted index of directory entry
//! names, and the pure state-transition logic of a model-view-update loop.
//!
//! Terminal I/O, raw-mode handling and subprocess execution live outside
//! this crate; the functions here compute every decision those layers need.

pub mod command;
pub mod editor;
pub mod index;
pub mod laws;
pub mod mvu;
pub mod text;

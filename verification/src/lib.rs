//! A small library behind a terminal viewer for named todo-lists.
//!
//! The library holds everything that can be reasoned about: the data model
//! ([`todo::Todo`], [`todo::Todos`]), the selection state machine driven by
//! key events ([`selector`]), the text the panes show ([`render`]), and the
//! on-disk document format ([`json`], [`loader`]). Terminal drawing and file
//! reading live outside, in the binary around this crate.

pub mod json;
pub mod loader;
pub mod render;
pub mod selector;
pub mod todo;

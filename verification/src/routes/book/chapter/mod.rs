//! Chapters as the book pages show them, each spread event one game.

pub mod create;
pub mod page;

pub use crate::routes::book::mw::{chapter_found, require_admin};

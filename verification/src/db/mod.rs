//! The stored records of the site: books, chapters, events and picks.

pub mod book;
pub mod chapter;
pub mod event;
pub mod single_game;
pub mod spread;
pub mod user_input;

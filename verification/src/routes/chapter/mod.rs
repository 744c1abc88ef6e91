//! Chapters of a book: creating them, picking on them and answering them.

pub mod admin;
pub mod create;
pub mod page;

//! Books: creating one, its members, and the chapters inside it.

pub mod chapter;
pub mod create;
pub mod mw;
pub mod page;

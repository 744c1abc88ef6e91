//! Rules of a pick'em site: players rank their picks against the spread,
//! admins record the answers, and points follow from both.

pub mod text;
pub mod db;
pub mod error;
pub mod routes;
pub mod server;

//! The decisions behind the site's pages and forms.

pub mod book;
pub mod chapter;
pub mod finish_signup;
pub mod session;
pub mod signup;

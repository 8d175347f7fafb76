//! The two entities of the library and the services that own them.

pub mod book;
pub mod user;

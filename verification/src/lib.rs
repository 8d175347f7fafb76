//! A lending library: books owned by users and lent to users, the services
//! that keep both tables consistent, and the views built from them.

pub mod models;
pub mod routes;
pub mod state;
pub mod tabular;
pub mod text;

//! The state that every service works on.

use vstd::prelude::*;

pub mod api_config;
pub mod config;
pub mod database;
pub mod error;
pub mod listener;
pub mod table;

verus! {

/// The configuration and the store.
#[derive(Debug, Clone)]
pub struct AppState {
    pub config: config::AppConfig,
    pub db: database::Database,
}

} // verus!

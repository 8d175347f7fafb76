//! What the application is configured with.

use crate::state::api_config::ApiConfig;
use crate::state::listener::Listener;
use vstd::prelude::*;
use vstd::string::StringExecFns;

verus! {

/// The configuration: where the store is kept, the language, the path the
/// pages are served under, where to listen, and the search key.
#[derive(Debug, Clone, PartialEq, Eq)]
pub struct AppConfig {
    pub database_path: String,
    pub locale: String,
    pub base_path: String,
    pub listener: Listener,
    pub api_config: ApiConfig,
}

impl AppConfig {
    /// The language used when none is configured.
    pub fn default_locale() -> (r: String)
        ensures
            r@ == "en"@,
    {
        String::from_str("en")
    }

    /// The path the pages are served under when none is configured: the root.
    pub fn default_base_path() -> (r: String)
        ensures
            r@ == Seq::<char>::empty(),
    {
        String::new()
    }

    /// The configuration used when no file gives one, with the store kept at
    /// `database_path`.
    pub fn with_defaults(database_path: String) -> (r: Self)
        ensures
            r.database_path == database_path,
            r.locale@ == "en"@,
            r.base_path@ == Seq::<char>::empty(),
            r.listener.port == 8000,
            r.listener.bind_addr@ == "0.0.0.0"@,
            r.api_config.google_books_api_key@ == Seq::<char>::empty(),
    {
        AppConfig {
            database_path,
            locale: Self::default_locale(),
            base_path: Self::default_base_path(),
            listener: Listener::default(),
            api_config: ApiConfig::default(),
        }
    }
}

} // verus!

//! The key for the book search service.

use vstd::prelude::*;

verus! {

/// Access to the outside book search.
#[derive(Debug, Clone, PartialEq, Eq)]
pub struct ApiConfig {
    pub google_books_api_key: String,
}

impl Default for ApiConfig {
    /// No key.
    fn default() -> (r: Self)
        ensures
            r.google_books_api_key@ == Seq::<char>::empty(),
    {
        ApiConfig { google_books_api_key: String::new() }
    }
}

} // verus!

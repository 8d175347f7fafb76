//! What the pages take in and what they show, computed from the services.

use vstd::prelude::*;

pub mod book;
pub mod router;
pub mod template_ctx;
pub mod user;

verus! {

/// Where the browser is sent once a request has been carried out.
#[derive(Debug, Clone, PartialEq, Eq)]
pub struct Redirect {
    pub to: String,
}

} // verus!

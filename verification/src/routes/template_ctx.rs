//! What every page template knows of where it is served.

use crate::routes::router::{asset_path, asset_under};
use vstd::prelude::*;

verus! {

/// The path the application is served at.
#[derive(Debug, Clone, PartialEq, Eq)]
pub struct TemplateCtx {
    pub base_path: String,
}

impl TemplateCtx {
    /// The path of an asset.
    pub fn asset(&self, path: &str) -> (r: String)
        ensures
            r@ == asset_path(self.base_path@, path@),
    {
        asset_under(&self.base_path, path)
    }
}

} // verus!

//! Snap: snaps are installed by snapd, so there is no index to download.
use vstd::prelude::*;

use crate::error::{ErrorView, OilError};
use crate::registry::PackageIndex;
use crate::text::owned;

verus! {

/// The snap registry.
pub struct SnapRegistry;

impl SnapRegistry {
    /// Always refused: snaps are installed with `snap install`.
    pub fn load(&self, _client: &reqwest::Client) -> (r: Result<PackageIndex, OilError>)
        ensures
            r matches Err(e) && e@ == ErrorView::Platform(
                "snap packages are installed via 'snap install', not direct download. Use 'snap install <name>' from your shell."@,
            ),
    {
        Err(
            OilError::PlatformNotSupported(
                owned(
                    "snap packages are installed via 'snap install', not direct download. Use 'snap install <name>' from your shell.",
                ),
            ),
        )
    }
}

} // verus!

//! Flatpak: apps are installed by the flatpak daemon, so there is no index to
//! download.
use vstd::prelude::*;

use crate::error::{ErrorView, OilError};
use crate::registry::PackageIndex;
use crate::text::owned;

verus! {

/// The flatpak registry.
pub struct FlatpakRegistry;

impl FlatpakRegistry {
    /// Always refused: flatpak apps are installed with `flatpak install`.
    pub fn load(&self, _client: &reqwest::Client) -> (r: Result<PackageIndex, OilError>)
        ensures
            r matches Err(e) && e@ == ErrorView::Platform(
                "flatpak packages are installed via 'flatpak install', not direct download. Use 'flatpak install <remote> <name>' from your shell."@,
            ),
    {
        Err(
            OilError::PlatformNotSupported(
                owned(
                    "flatpak packages are installed via 'flatpak install', not direct download. Use 'flatpak install <remote> <name>' from your shell.",
                ),
            ),
        )
    }
}

} // verus!

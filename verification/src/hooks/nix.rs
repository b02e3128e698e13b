//! Nix has no pre-install hook.
use vstd::prelude::*;

use crate::error::{ErrorView, OilError};
use crate::text::owned;

verus! {

/// Installing the hook is refused: there is nothing to hook into.
pub fn install() -> (r: Result<(), OilError>)
    ensures
        r matches Err(e) && e@ == ErrorView::Platform("nix: no pre-install hook — use oil install host-skip"@),
{
    Err(OilError::PlatformNotSupported(owned("nix: no pre-install hook — use oil install host-skip")))
}

} // verus!

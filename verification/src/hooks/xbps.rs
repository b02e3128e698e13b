//! Void's xbps has no package-manager pre-install hook.
use vstd::prelude::*;

use crate::error::{ErrorView, OilError};
use crate::text::owned;

verus! {

/// Installing the hook is refused: there is nothing to hook into.
pub fn install() -> (r: Result<(), OilError>)
    ensures
        r matches Err(e) && e@ == ErrorView::Platform("xbps: no pre-install hook API — use `oil install` host-skip only"@),
{
    Err(OilError::PlatformNotSupported(owned("xbps: no pre-install hook API — use `oil install` host-skip only")))
}

} // verus!

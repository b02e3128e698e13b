//! Homebrew has no dpkg-style pre-install hook.
use vstd::prelude::*;

use crate::error::{ErrorView, OilError};
use crate::text::owned;

verus! {

/// Installing the hook is refused: there is nothing to hook into.
pub fn install() -> (r: Result<(), OilError>)
    ensures
        r matches Err(e) && e@ == ErrorView::Platform("brew: no supported pre-install hook — oil install already skips if brew has the formula"@),
{
    Err(OilError::PlatformNotSupported(owned("brew: no supported pre-install hook — oil install already skips if brew has the formula")))
}

} // verus!

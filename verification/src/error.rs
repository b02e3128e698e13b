//! The library's error type.
use vstd::prelude::*;

verus! {

/// What can go wrong in the library's operations; each variant carries a
/// human-readable explanation.
#[derive(Clone, Debug, PartialEq, Eq)]
pub enum OilError {
    /// An install, removal or extraction step cannot go ahead.
    InstallError(String),
    /// The operation does not exist on this host or for this backend.
    PlatformNotSupported(String),
    /// The caller named something the library does not know.
    InvalidInput(String),
}

/// An error as plain character sequences.
pub enum ErrorView {
    Install(Seq<char>),
    Platform(Seq<char>),
    Input(Seq<char>),
}

impl View for OilError {
    type V = ErrorView;

    open spec fn view(&self) -> ErrorView {
        match self {
            OilError::InstallError(m) => ErrorView::Install(m@),
            OilError::PlatformNotSupported(m) => ErrorView::Platform(m@),
            OilError::InvalidInput(m) => ErrorView::Input(m@),
        }
    }
}

impl OilError {
    /// The explanation the error carries.
    pub open spec fn text(&self) -> Seq<char> {
        match self {
            OilError::InstallError(m) => m@,
            OilError::PlatformNotSupported(m) => m@,
            OilError::InvalidInput(m) => m@,
        }
    }

    /// The explanation as an owned string (what `Display` would print).
    pub fn message(&self) -> (r: String)
        ensures
            r@ == self.text(),
    {
        match self {
            OilError::InstallError(m) => m.clone(),
            OilError::PlatformNotSupported(m) => m.clone(),
            OilError::InvalidInput(m) => m.clone(),
        }
    }
}

} // verus!

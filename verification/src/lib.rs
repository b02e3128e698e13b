use vstd::prelude::*;

pub mod cask;
pub mod error;
pub mod extractor;
pub mod hooks;
pub mod http;
pub mod order;
pub mod path;
pub mod registry;
pub mod resolver;
pub mod system_pm;
pub mod text;
pub mod windows_state;
pub mod xml;

verus! {
} // verus!

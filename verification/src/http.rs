//! HTTP clients: the user agent they send and the settings each kind of client
//! is built with.
use vstd::prelude::*;

use crate::text::{owned, push_str};

verus! {

/// The `reqwest` client type, carried through without looking inside.
#[verifier::external_type_specification]
#[verifier::external_body]
pub struct ExClient(reqwest::Client);

/// The version oil reports.
pub const OIL_VERSION: &'static str = "0.1.0";

/// The `User-Agent` every client sends.
pub fn user_agent() -> (r: String)
    ensures
        r@ == "oilpkg/"@ + OIL_VERSION@ + " (https://github.com/semitechnological/oil)"@,
{
    let mut r = owned("oilpkg/");
    push_str(&mut r, OIL_VERSION);
    push_str(&mut r, " (https://github.com/semitechnological/oil)");
    r
}

/// The shared clients.
#[derive(Clone, Copy, Debug, PartialEq, Eq, Structural)]
pub enum ClientKind {
    /// The Homebrew JSON API.
    Api,
    /// Bottle, cask and package downloads.
    Download,
    /// General purpose (GitHub, crates.io).
    General,
    /// Distribution registry indexes.
    Registry,
}

/// How a client is built.
#[derive(Clone, Copy, Debug, PartialEq, Eq, Structural)]
pub struct ClientSettings {
    /// Request timeout, in seconds.
    pub timeout_secs: u64,
    /// Whether responses may be gzip-compressed.
    pub gzip: bool,
    /// Whether plaintext `http://` is refused.
    pub https_only: bool,
}

pub open spec fn settings_spec(kind: ClientKind) -> ClientSettings {
    match kind {
        ClientKind::Api => ClientSettings { timeout_secs: 30, gzip: true, https_only: true },
        ClientKind::Download => ClientSettings { timeout_secs: 300, gzip: false, https_only: true },
        ClientKind::General => ClientSettings { timeout_secs: 60, gzip: true, https_only: true },
        ClientKind::Registry => ClientSettings { timeout_secs: 120, gzip: true, https_only: true },
    }
}

/// The settings a kind of client is built with; every client refuses
/// plaintext HTTP.
pub fn client_settings(kind: ClientKind) -> (r: ClientSettings)
    ensures
        r == settings_spec(kind),
{
    match kind {
        ClientKind::Api => ClientSettings { timeout_secs: 30, gzip: true, https_only: true },
        ClientKind::Download => ClientSettings { timeout_secs: 300, gzip: false, https_only: true },
        ClientKind::General => ClientSettings { timeout_secs: 60, gzip: true, https_only: true },
        ClientKind::Registry => ClientSettings { timeout_secs: 120, gzip: true, https_only: true },
    }
}

/// Every client refuses plaintext HTTP.
pub proof fn law_clients_https_only(kind: ClientKind)
    ensures
        settings_spec(kind).https_only,
{
}

} // verus!

use oil::http::{client_settings, user_agent, ClientKind, OIL_VERSION};

#[test]
fn user_agent_identifies_oilpkg() {
    let ua = user_agent();
    assert!(ua.starts_with("oilpkg/"));
    assert!(ua.contains("semitechnological/oil"));
}

#[test]
fn user_agent_carries_version() {
    assert_eq!(
        user_agent(),
        format!("oilpkg/{OIL_VERSION} (https://github.com/semitechnological/oil)")
    );
}

#[test]
fn clients_refuse_plaintext_and_keep_their_timeouts() {
    let api = client_settings(ClientKind::Api);
    assert_eq!((api.timeout_secs, api.gzip, api.https_only), (30, true, true));
    let dl = client_settings(ClientKind::Download);
    assert_eq!((dl.timeout_secs, dl.gzip, dl.https_only), (300, false, true));
    let general = client_settings(ClientKind::General);
    assert_eq!((general.timeout_secs, general.gzip), (60, true));
    let reg = client_settings(ClientKind::Registry);
    assert_eq!((reg.timeout_secs, reg.gzip, reg.https_only), (120, true, true));
}

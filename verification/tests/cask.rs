use oil::cask::{
    artifact_extension, artifact_install, check_artifact_checksum, hex_string, sha256_hex,
    ArtifactInstall, CaskAction, CaskStage,
};
use oil::system_pm::SystemPm;

#[test]
fn artifact_extension_ignores_query_and_case() {
    assert_eq!(artifact_extension("https://x.example/App-1.0.AppImage?dl=1"), "appimage");
    assert_eq!(artifact_extension("https://x.example/pkg.DEB"), "deb");
    assert_eq!(artifact_extension("https://x.example/tool"), "example/tool");
    assert_eq!(artifact_extension("no-dot-here"), "no-dot-here");
    assert_eq!(artifact_extension("file.tar.gz"), "gz");
    assert_eq!(artifact_extension("?x.rpm"), "");
}

#[test]
fn sha256_digest_in_lowercase_hex() {
    assert_eq!(
        sha256_hex(b"abc"),
        "ba7816bf8f01cfea414140de5dae2223b00361a396177a9cb410ff61f20015ad"
    );
    assert_eq!(hex_string(&[0x0a, 0x14, 0x1e, 0xff]), "0a141eff");
}

#[test]
fn checksums_are_enforced_when_given() {
    let good = "ba7816bf8f01cfea414140de5dae2223b00361a396177a9cb410ff61f20015ad";
    assert!(check_artifact_checksum("app", b"abc", None).is_ok());
    assert!(check_artifact_checksum("app", b"abc", Some(good)).is_ok());
    let e = check_artifact_checksum("app", b"abd", Some(good)).unwrap_err();
    assert!(e.message().starts_with("app checksum mismatch: expected ba7816bf"));
    assert!(e.message().contains(", got "));
}

#[test]
fn artifacts_install_by_type() {
    match artifact_install("deb", "app", "/tmp/x.deb", None).unwrap() {
        ArtifactInstall::Run(c) => {
            assert_eq!(c.program, "sudo");
            assert_eq!(c.args, vec!["dpkg", "-i", "/tmp/x.deb"]);
        }
        other => panic!("unexpected {other:?}"),
    }
    match artifact_install("rpm", "app", "/tmp/x.rpm", None).unwrap() {
        ArtifactInstall::Run(c) => assert_eq!(c.args, vec!["rpm", "-i", "--force", "/tmp/x.rpm"]),
        other => panic!("unexpected {other:?}"),
    }
    match artifact_install("appimage", "app", "/tmp/x.appimage", Some("/home/u")).unwrap() {
        ArtifactInstall::AppImage { dir, dest, chmod } => {
            assert_eq!(dir, "/home/u/.local/bin");
            assert_eq!(dest, "/home/u/.local/bin/app.AppImage");
            assert_eq!(chmod.program, "chmod");
            assert_eq!(chmod.args, vec!["+x", "/home/u/.local/bin/app.AppImage"]);
        }
        other => panic!("unexpected {other:?}"),
    }
    match artifact_install("appimage", "app", "/tmp/x", None).unwrap() {
        ArtifactInstall::AppImage { dest, .. } => assert_eq!(dest, "/tmp/.local/bin/app.AppImage"),
        other => panic!("unexpected {other:?}"),
    }
    assert_eq!(
        artifact_install("dmg", "app", "/tmp/x", None).unwrap_err().message(),
        "Unsupported artifact extension '.dmg' from Homebrew cask .rb"
    );
}

#[test]
fn cask_install_falls_back_in_order() {
    let pm = SystemPm::Apt;
    let (s, a) = pm.install_cask_step("firefox", CaskStage::Start, false);
    assert_eq!((s, a), (CaskStage::Artifact, CaskAction::TryArtifact));
    let (s, a) = pm.install_cask_step("firefox", s, false);
    assert_eq!((s, a), (CaskStage::SnapProbe, CaskAction::Probe("snap".to_string())));
    let (s, a) = pm.install_cask_step("firefox", s, true);
    assert_eq!(s, CaskStage::Snap);
    match a {
        CaskAction::Run(c) => assert_eq!((c.program.as_str(), c.args), ("snap", vec!["install".to_string(), "firefox".to_string()])),
        other => panic!("unexpected {other:?}"),
    }
    let (s, a) = pm.install_cask_step("firefox", s, false);
    assert_eq!(s, CaskStage::SnapClassic);
    match a {
        CaskAction::Run(c) => assert_eq!(c.args, vec!["install", "--classic", "firefox"]),
        other => panic!("unexpected {other:?}"),
    }
    let (s, a) = pm.install_cask_step("firefox", s, false);
    assert_eq!((s, a), (CaskStage::FlatpakProbe, CaskAction::Probe("flatpak".to_string())));
    let (s, a) = pm.install_cask_step("firefox", s, true);
    assert_eq!(s, CaskStage::FlatpakRemote);
    assert!(matches!(a, CaskAction::RunIgnoringFailure(_)));
    let (s, a) = pm.install_cask_step("firefox", s, false);
    assert_eq!(s, CaskStage::FlatpakInstall);
    match a {
        CaskAction::Run(c) => assert_eq!(c.args, vec!["install", "-y", "flathub", "firefox"]),
        other => panic!("unexpected {other:?}"),
    }
    let (s, a) = pm.install_cask_step("firefox", s, false);
    assert_eq!(s, CaskStage::Native);
    match a {
        CaskAction::Native(Some(c)) => {
            assert_eq!(c.program, "sudo");
            assert_eq!(c.args, vec!["apt-get", "install", "-y", "firefox"]);
        }
        other => panic!("unexpected {other:?}"),
    }
}

#[test]
fn cask_install_stops_on_first_success() {
    let pm = SystemPm::Dnf;
    let (s, _) = pm.install_cask_step("x", CaskStage::Start, false);
    assert_eq!(pm.install_cask_step("x", s, true), (CaskStage::Done, CaskAction::Finished));
    assert_eq!(pm.install_cask_step("x", CaskStage::FlatpakInstall, true), (CaskStage::Done, CaskAction::Finished));
    let (s, a) = pm.install_cask_step("x", CaskStage::SnapProbe, false);
    assert_eq!((s, a), (CaskStage::FlatpakProbe, CaskAction::Probe("flatpak".to_string())));
    let (s, _) = pm.install_cask_step("x", s, false);
    assert_eq!(s, CaskStage::Native);
}

#[test]
fn appimage_urls_install_as_appimages() {
    assert_eq!(artifact_extension("https://x/App.AppImage?v=2"), "appimage");
    assert_eq!(artifact_extension("https://x/Tool.Rpm"), "rpm");
}

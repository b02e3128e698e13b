use oil::extractor::{
    archive_rel_path, choose_rpm_tool, extract_package_tracked, extract_tracked,
    extract_with_rpm2archive, tool_outcome, tracks_changes, PackageFormat, RpmTool, RpmTools,
};

#[test]
fn archive_rel_path_accepts_normal_members() {
    assert_eq!(archive_rel_path("usr/bin/rg").as_deref(), Some("usr/bin/rg"));
    assert_eq!(archive_rel_path("./usr/bin/rg").as_deref(), Some("usr/bin/rg"));
    assert_eq!(archive_rel_path("foo..bar").as_deref(), Some("foo..bar"));
}

#[test]
fn archive_rel_path_rejects_parent_and_absolute() {
    assert_eq!(archive_rel_path(""), None);
    assert_eq!(archive_rel_path("."), None);
    assert_eq!(archive_rel_path("./"), None);
    assert_eq!(archive_rel_path("../etc/passwd"), None);
    assert_eq!(archive_rel_path("usr/../etc/passwd"), None);
    assert_eq!(archive_rel_path("/etc/passwd"), None);
}

#[test]
fn archive_rel_path_keeps_current_dir_pieces() {
    assert_eq!(archive_rel_path("./.").as_deref(), None);
    assert_eq!(archive_rel_path("usr/./bin").as_deref(), Some("usr/./bin"));
    assert_eq!(archive_rel_path("usr/..bin/x").as_deref(), Some("usr/..bin/x"));
    assert_eq!(archive_rel_path("usr/bin/..").as_deref(), None);
}

#[test]
fn package_formats_follow_file_names() {
    assert_eq!(extract_package_tracked("/tmp/rg_14.deb").unwrap(), PackageFormat::Deb);
    assert_eq!(extract_package_tracked("x.ipk").unwrap(), PackageFormat::Deb);
    assert_eq!(extract_package_tracked("rg-14-1-x86_64.pkg.tar.zst").unwrap(), PackageFormat::Pacman);
    assert_eq!(extract_package_tracked("rg-14.apk").unwrap(), PackageFormat::Apk);
    assert_eq!(extract_package_tracked("rg-14.x86_64.rpm").unwrap(), PackageFormat::Rpm);
    assert_eq!(extract_package_tracked("rg-14_1.x86_64.xbps").unwrap(), PackageFormat::Xbps);
    assert_eq!(extract_package_tracked("abc.nar.zst").unwrap(), PackageFormat::Nar);
    assert_eq!(
        extract_package_tracked("rg.zip").unwrap_err().message(),
        "unknown package format: rg.zip"
    );
}

#[test]
fn rpm_tool_chains_in_preference_order() {
    let all = RpmTools { rpm2cpio: true, cpio: true, bsdtar: true, rpm2archive: true, tar: true };
    assert_eq!(choose_rpm_tool(all, "a.rpm").unwrap(), RpmTool::Rpm2Cpio);
    let no_cpio = RpmTools { cpio: false, ..all };
    assert_eq!(choose_rpm_tool(no_cpio, "a.rpm").unwrap(), RpmTool::Bsdtar);
    let only_archive = RpmTools { rpm2cpio: false, cpio: false, bsdtar: false, rpm2archive: true, tar: true };
    assert_eq!(choose_rpm_tool(only_archive, "a.rpm").unwrap(), RpmTool::Rpm2Archive);
    let none = RpmTools { tar: false, ..only_archive };
    let msg = choose_rpm_tool(none, "/tmp/a.rpm").unwrap_err().message();
    assert!(msg.starts_with("RPM extraction requires one of the following tool chains:\n"));
    assert!(msg.ends_with("Package: /tmp/a.rpm"));
}

#[test]
fn rpm_tool_failures_report_trimmed_errors() {
    assert!(tool_outcome("cpio", true, "ignored").is_ok());
    assert_eq!(tool_outcome("cpio", false, "  bad header \n").unwrap_err().message(), "cpio failed: bad header");
    assert_eq!(
        extract_with_rpm2archive(false, "no rpm\n", false, "tar err").unwrap_err().message(),
        "rpm2archive failed: no rpm"
    );
    assert_eq!(
        extract_with_rpm2archive(true, "", false, " gzip: bad\n").unwrap_err().message(),
        "tar failed: gzip: bad"
    );
    assert!(extract_with_rpm2archive(true, "", true, "").is_ok());
}

#[test]
fn tracked_extraction_reports_new_paths_sorted() {
    assert!(!tracks_changes("/"));
    assert!(!tracks_changes("//"));
    assert!(tracks_changes("/opt/root"));
    let before = vec!["/r/usr".to_string(), "/r/usr/bin".to_string()];
    let after = vec![
        ("/r/usr".to_string(), true),
        ("/r/usr/bin".to_string(), true),
        ("/r/usr/bin/rg".to_string(), false),
        ("/r/usr/share".to_string(), true),
        ("/r/usr/bin/a-b".to_string(), false),
        ("/r/usr/bin/a".to_string(), false),
        ("/r/usr/share/doc".to_string(), true),
    ];
    let (files, dirs) = extract_tracked(&before, &after);
    assert_eq!(files, vec!["/r/usr/bin/a", "/r/usr/bin/a-b", "/r/usr/bin/rg"]);
    assert_eq!(dirs, vec!["/r/usr/share", "/r/usr/share/doc"]);
}

#[test]
fn tracked_extraction_orders_by_components() {
    let after = vec![
        ("/r/a-b".to_string(), false),
        ("/r/a/b".to_string(), false),
    ];
    let (files, _) = extract_tracked(&[], &after);
    assert_eq!(files, vec!["/r/a/b", "/r/a-b"]);
    let mut by_string = files.clone();
    by_string.sort();
    assert_ne!(files, by_string);
}

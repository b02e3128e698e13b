use oil::windows_state::{
    collect_files, find_manifest, forced_manifest, manifest_dir, manifest_path, path_is_under_root,
    remove_manifest, removal_act, sort_manifests, split_source_prefix, validate_bin_links_available, wax_bin_dir,
    wax_windows_root, Ecosystem, RemovalAct, RemovalStep, WindowsInstallKind, WindowsNativeUninstall,
    WindowsPackageManifest,
};

fn manifest(eco: Ecosystem, id: &str, home: &str, bins: Vec<String>, files: Vec<String>) -> WindowsPackageManifest {
    let staging = format!("{}/{}-apps/{}/1.0.0", wax_windows_root(home), eco.label(), id);
    WindowsPackageManifest::new(eco, id, "1.0.0", "https://example.invalid/pkg.zip", staging, bins, files, 1)
}

#[test]
fn windows_paths_live_under_home() {
    assert_eq!(wax_windows_root("/home/u"), "/home/u/.local/wax");
    assert_eq!(wax_bin_dir("/home/u/"), "/home/u/.local/wax/bin");
    assert_eq!(manifest_dir("/home/u"), "/home/u/.local/wax/windows/manifests");
    assert_eq!(
        manifest_path("/home/u", Ecosystem::Winget, "Zoo.Tool"),
        "/home/u/.local/wax/windows/manifests/winget-Zoo.Tool.json"
    );
    assert_eq!(
        manifest_path("/home/u", Ecosystem::Chocolatey, "a b/c"),
        "/home/u/.local/wax/windows/manifests/choco-a-b-c.json"
    );
    assert!(path_is_under_root("/home/u/.local/wax/bin/x.exe", "/home/u/.local/wax"));
    assert!(!path_is_under_root("/home/u/.local/waxy/x", "/home/u/.local/wax"));
}

#[test]
fn collect_files_recurses_and_sorts() {
    let found = vec!["/tmp/r/readme.txt".to_string(), "/tmp/r/bin/tool.exe".to_string()];
    let files = collect_files(found);
    let names: Vec<_> = files.iter().map(|p| p.strip_prefix("/tmp/r/").unwrap().to_string()).collect();
    assert_eq!(names, vec!["bin/tool.exe", "readme.txt"]);
}

#[test]
fn manifests_roundtrip_and_list_sorted() {
    let one = manifest(Ecosystem::Winget, "Zoo.Tool", "/h", Vec::new(), Vec::new());
    let two = manifest(Ecosystem::Scoop, "alpha", "/h", Vec::new(), Vec::new());
    assert_eq!(one.version, "1.0.0");
    assert_eq!(one.install_kind, WindowsInstallKind::Portable);
    let listed = sort_manifests(vec![one, two]);
    assert_eq!(listed[0].id, "alpha");
    assert_eq!(listed[1].id, "Zoo.Tool");
}

#[test]
fn listing_breaks_ties_by_source() {
    let a = manifest(Ecosystem::Chocolatey, "Tool", "/h", Vec::new(), Vec::new());
    let b = manifest(Ecosystem::Scoop, "tool", "/h", Vec::new(), Vec::new());
    let c = manifest(Ecosystem::Winget, "TOOL", "/h", Vec::new(), Vec::new());
    let listed = sort_manifests(vec![a, b, c]);
    let ecos: Vec<_> = listed.iter().map(|m| m.ecosystem).collect();
    assert_eq!(ecos, vec![Ecosystem::Scoop, Ecosystem::Winget, Ecosystem::Chocolatey]);
}

#[test]
fn native_installs_record_their_uninstaller() {
    let m = manifest(Ecosystem::Winget, "X", "/h", Vec::new(), Vec::new());
    let u = WindowsNativeUninstall { command: "msiexec".to_string(), args: vec!["/x".to_string()] };
    let m = m.with_native_uninstall(u.clone());
    assert_eq!(m.install_kind, WindowsInstallKind::Native);
    assert_eq!(m.native_uninstall, Some(u));
    assert_eq!(m.id, "X");
}

#[test]
fn remove_manifest_deletes_only_owned_wax_paths() {
    let home = "/h";
    let root = wax_windows_root(home);
    let bin = format!("{root}/bin/tool.exe");
    let staging_file = format!("{root}/scoop-apps/tool/1.0.0/tool.exe");
    let m = manifest(Ecosystem::Scoop, "tool", home, vec![bin.clone()], vec![staging_file.clone()]);
    let steps = remove_manifest(&m, home);
    assert_eq!(
        steps,
        vec![
            RemovalStep::RemoveFile(bin),
            RemovalStep::RemoveFile(staging_file),
            RemovalStep::RemoveDir(m.staging_dir.clone()),
            RemovalStep::RemoveFile(manifest_path(home, Ecosystem::Scoop, "tool")),
        ]
    );
}

#[test]
fn removal_refuses_paths_outside_root() {
    let home = "/h";
    let inside = format!("{}/bin/a.exe", wax_windows_root(home));
    let m = manifest(Ecosystem::Scoop, "a", home, vec![inside.clone(), "/etc/passwd".to_string()], Vec::new());
    let steps = remove_manifest(&m, home);
    assert_eq!(steps.len(), 2);
    assert_eq!(steps[0], RemovalStep::RemoveFile(inside));
    match &steps[1] {
        RemovalStep::Refuse(e) => assert_eq!(e.message(), "refusing to remove path outside wax root: /etc/passwd"),
        other => panic!("unexpected step {other:?}"),
    }
}

#[test]
fn bin_link_collision_reports_existing_owner() {
    let home = "/h";
    let bin = format!("{}/tool.exe", wax_bin_dir(home));
    let existing = manifest(Ecosystem::Scoop, "tool", home, vec![bin.clone()], Vec::new());
    let err = validate_bin_links_available(Ecosystem::Winget, "Other.Tool", &[bin.clone()], &[existing.clone()])
        .unwrap_err()
        .message();
    assert!(err.contains("already owned by scoop/tool"));
    assert!(validate_bin_links_available(Ecosystem::Scoop, "TOOL", &[bin.clone()], &[existing.clone()]).is_ok());
    let other = format!("{}/other.exe", wax_bin_dir(home));
    assert!(validate_bin_links_available(Ecosystem::Winget, "Other.Tool", &[other], &[existing]).is_ok());
}

#[test]
fn lookups_by_name_and_by_forced_source() {
    let ms = vec![
        manifest(Ecosystem::Scoop, "ripgrep", "/h", Vec::new(), Vec::new()),
        manifest(Ecosystem::Winget, "BurntSushi.ripgrep", "/h", Vec::new(), Vec::new()),
        manifest(Ecosystem::Chocolatey, "RipGrep", "/h", Vec::new(), Vec::new()),
    ];
    assert_eq!(find_manifest("burntsushi.RIPGREP", &ms).unwrap(), Some(1));
    assert_eq!(find_manifest("fd", &ms).unwrap(), None);
    assert_eq!(
        find_manifest("ripgrep", &ms).unwrap_err().message(),
        "multiple Windows packages match 'ripgrep'; use scoop/ripgrep, winget/ripgrep, or choco/ripgrep"
    );
    assert_eq!(forced_manifest("choco/git"), Some((Ecosystem::Chocolatey, "git".to_string())));
    assert_eq!(forced_manifest("chocolatey/git"), Some((Ecosystem::Chocolatey, "git".to_string())));
    assert_eq!(forced_manifest("brew/git"), None);
    assert_eq!(forced_manifest("git"), None);
    assert_eq!(split_source_prefix("homebrew/openssl"), (Some(Ecosystem::Brew), "openssl".to_string()));
    assert_eq!(split_source_prefix("winget/JesseDuffield.lazygit").0, Some(Ecosystem::Winget));
}

#[test]
fn oil_bin_dir_sits_under_the_prefix() {
    assert_eq!(oil::path::oil_bin_dir("/usr/local"), "/usr/local/bin");
    assert_eq!(oil::path::oil_bin_dir("/opt/oil/"), "/opt/oil/bin");
}

#[test]
fn sorting_paths_keeps_duplicates_and_orders_by_component() {
    let found = vec![
        "/w/b".to_string(),
        "/w/a.b".to_string(),
        "/w/a/z".to_string(),
        "/w/b".to_string(),
        "/w/a".to_string(),
    ];
    assert_eq!(collect_files(found), vec!["/w/a", "/w/a/z", "/w/a.b", "/w/b", "/w/b"]);
}

#[test]
fn removal_plans_stay_under_the_wax_root() {
    let home = "/home/u";
    let root = wax_windows_root(home);
    let m = manifest(
        Ecosystem::Winget,
        "Zoo.Tool",
        home,
        vec![format!("{root}/bin/zoo.exe")],
        vec![format!("{root}/winget-apps/Zoo.Tool/1.0.0/zoo.exe")],
    );
    for step in remove_manifest(&m, home) {
        match step {
            RemovalStep::RemoveFile(p) | RemovalStep::RemoveDir(p) => {
                assert!(path_is_under_root(&p, &root), "{p} is outside {root}")
            }
            RemovalStep::Refuse(e) => panic!("unexpected refusal {e:?}"),
        }
    }
}

#[test]
fn dry_run_counts_what_a_real_run_deletes() {
    let f = "/h/.local/wax/bin/a.exe".to_string();
    let d = "/h/.local/wax/scoop-apps/a".to_string();
    assert_eq!(removal_act(RemovalStep::RemoveFile(f.clone()), true, true), RemovalAct::Count(f.clone()));
    assert_eq!(removal_act(RemovalStep::RemoveFile(f.clone()), true, false), RemovalAct::DeleteFile(f.clone()));
    assert_eq!(removal_act(RemovalStep::RemoveFile(f.clone()), false, false), RemovalAct::Skip);
    assert_eq!(removal_act(RemovalStep::RemoveDir(d.clone()), true, true), RemovalAct::Count(d.clone()));
    assert_eq!(removal_act(RemovalStep::RemoveDir(d.clone()), true, false), RemovalAct::DeleteDir(d.clone()));
    assert_eq!(removal_act(RemovalStep::RemoveDir(d), false, true), RemovalAct::Skip);
    let e = oil::error::OilError::InstallError("refusing".to_string());
    assert_eq!(removal_act(RemovalStep::Refuse(e.clone()), true, true), RemovalAct::Stop(e));
}

use oil::error::OilError;
use oil::system_pm::{
    command_outcome, decimal_string, installed_from_run, needs_sudo, parse_installed, parse_search_results, SystemPm,
    SystemSearchResult, UpgradeNext,
};

#[test]
fn parses_apt_search_results() {
    let out = "ripgrep - recursively searches directories for a regex pattern\n";
    let results = parse_search_results(&SystemPm::Apt, out, 20);
    assert_eq!(
        results,
        vec![SystemSearchResult {
            name: "ripgrep".into(),
            version: None,
            summary: Some("recursively searches directories for a regex pattern".into()),
        }]
    );
}

#[test]
fn parses_pacman_search_results() {
    let out = "extra/ripgrep 14.1.1-1\n    A search tool that combines ag with grep\n";
    let results = parse_search_results(&SystemPm::Pacman, out, 20);
    assert_eq!(
        results,
        vec![SystemSearchResult {
            name: "ripgrep".into(),
            version: Some("14.1.1-1".into()),
            summary: Some("A search tool that combines ag with grep".into()),
        }]
    );
}

#[test]
fn parses_nix_search_results() {
    let out = "nixpkgs.ripgrep ripgrep-14.1.1\n";
    let results = parse_search_results(&SystemPm::Nix, out, 20);
    assert_eq!(
        results,
        vec![SystemSearchResult {
            name: "ripgrep".into(),
            version: Some("14.1.1".into()),
            summary: None,
        }]
    );
}

#[test]
fn search_results_stop_at_limit() {
    let out = "a - first\nb - second\nc - third\n";
    let results = parse_search_results(&SystemPm::Apt, out, 2);
    let names: Vec<_> = results.iter().map(|r| r.name.as_str()).collect();
    assert_eq!(names, vec!["a", "b"]);
    assert!(parse_search_results(&SystemPm::Apt, out, 0).is_empty());
}

#[test]
fn parses_dnf_emerge_and_zypper_lines() {
    let dnf = "Last metadata expiration check\nripgrep.x86_64 : Line-oriented search tool\n";
    let r = parse_search_results(&SystemPm::Dnf, dnf, 10);
    assert_eq!(r.len(), 1);
    assert_eq!(r[0].name, "ripgrep.x86_64");
    assert_eq!(r[0].summary.as_deref(), Some("Line-oriented search tool"));

    let emerge = "*  sys-apps/ripgrep\n      Description:   fast grep\n";
    let r = parse_search_results(&SystemPm::Emerge, emerge, 10);
    assert_eq!(r.len(), 1);
    assert_eq!(r[0].name, "sys-apps/ripgrep");
    assert_eq!(r[0].summary.as_deref(), Some("fast grep"));

    let zypper = "S | Name    | Summary        | Type\n--+---------+----------------+-----\n  | ripgrep | A search tool  | package\n";
    let r = parse_search_results(&SystemPm::Zypper, zypper, 10);
    assert_eq!(r.len(), 1);
    assert_eq!(r[0].name, "ripgrep");
    assert_eq!(r[0].summary.as_deref(), Some("A search tool"));
    assert_eq!(r[0].version.as_deref(), Some("package"));
}

#[test]
fn parses_apk_and_xbps_name_versions() {
    let r = parse_search_results(&SystemPm::Apk, "ripgrep-14.1.0-r0 fast search\nfd-9.0 find\n", 10);
    assert_eq!(r[0].name, "ripgrep-14.1.0-r0");
    assert_eq!(r[0].version, None);
    assert_eq!(r[0].summary.as_deref(), Some("fast search"));
    assert_eq!(r[1].name, "fd");
    assert_eq!(r[1].version.as_deref(), Some("9.0"));
    let r = parse_search_results(&SystemPm::Xbps, "[-] ripgrep-14.1.0_1 fast\n", 10);
    assert_eq!(r[0].name, "ripgrep");
    assert_eq!(r[0].version.as_deref(), Some("14.1.0_1"));
}

#[test]
fn installed_lists_are_sorted_and_deduplicated() {
    let out = "zlib\t1.3\ncurl\t8.0\ncurl\t8.1\n\n";
    let r = parse_installed(&SystemPm::Apt, out);
    assert_eq!(
        r,
        vec![
            ("curl".to_string(), Some("8.0".to_string())),
            ("zlib".to_string(), Some("1.3".to_string())),
        ]
    );
    let apk = parse_installed(&SystemPm::Apk, "musl-1.2.4-r2\nbusybox\nzlib-1.3\n");
    assert_eq!(
        apk,
        vec![
            ("busybox".to_string(), None),
            ("musl-1.2.4-r2".to_string(), None),
            ("zlib".to_string(), Some("1.3".to_string())),
        ]
    );
}

#[test]
fn detect_picks_first_present_candidate() {
    let present = [false, false, true, false, false, false, false, false, true];
    assert_eq!(SystemPm::detect(false, &present), Some(SystemPm::Pacman));
    assert_eq!(SystemPm::detect(true, &present), None);
    assert_eq!(SystemPm::detect(false, &[false; 9]), None);
    assert_eq!(SystemPm::Xbps.name(), "xbps-install");
}

#[test]
fn install_and_remove_commands_name_packages() {
    let pkgs = vec!["ripgrep".to_string(), "fd".to_string()];
    let c = SystemPm::Apt.install_command(&pkgs).unwrap();
    assert_eq!(c.program, "sudo");
    assert_eq!(c.args, vec!["apt-get", "install", "-y", "ripgrep", "fd"]);
    let c = SystemPm::Nix.remove_command(&pkgs).unwrap();
    assert_eq!(c.program, "nix-env");
    assert_eq!(c.args, vec!["-e", "ripgrep", "fd"]);
    assert!(SystemPm::Brew.install_command(&[]).is_none());
    let up = SystemPm::Apt.upgrade_commands();
    assert_eq!(up.len(), 2);
    assert_eq!(up[1].args, vec!["apt-get", "upgrade", "-y"]);
    let s = SystemPm::Pacman.search_command("rg");
    assert_eq!(s.program, "pacman");
    assert_eq!(s.args, vec!["-Ss", "rg"]);
}

#[test]
fn failed_commands_report_exit_status() {
    assert!(command_outcome("dnf", true, Some(0)).is_ok());
    let e = command_outcome("dnf", false, Some(3)).unwrap_err();
    assert_eq!(e.message(), "dnf exited with status 3");
    let e = command_outcome("sudo", false, None).unwrap_err();
    assert_eq!(e.message(), "sudo exited with status -1");
    assert_eq!(decimal_string(-2147483648), "-2147483648");
    assert_eq!(decimal_string(120), "120");
    assert!(needs_sudo("sudo"));
    assert!(!needs_sudo("brew"));
}

#[test]
fn smaller_search_limit_gives_leading_hits() {
    let out = "extra/ripgrep 14.1.1-1\nextra/fd 9.0.0-1\n    Simple fast find\nextra/bat 0.24.0-1\n    A cat clone\n";
    let all = parse_search_results(&SystemPm::Pacman, out, 10);
    assert_eq!(all.len(), 3);
    assert_eq!(all[1].summary, Some("Simple fast find".to_string()));
    for k in 0..=4usize {
        let some = parse_search_results(&SystemPm::Pacman, out, k);
        let expected: Vec<SystemSearchResult> = all.iter().take(k).cloned().collect();
        assert_eq!(some, expected, "limit {}", k);
    }
}

#[test]
fn failed_listing_yields_no_packages() {
    let out = "curl\t8.0.0\nbash\t5.2\n";
    assert!(installed_from_run(&SystemPm::Apt, false, out).is_empty());
    assert_eq!(
        installed_from_run(&SystemPm::Apt, true, out),
        vec![("bash".to_string(), Some("5.2".to_string())), ("curl".to_string(), Some("8.0.0".to_string()))]
    );
}

#[test]
fn upgrade_runs_commands_in_order_and_stops_at_failure() {
    let pm = SystemPm::Apt;
    let cmds = pm.upgrade_commands();
    assert_eq!(cmds.len(), 2);
    match pm.upgrade_step(0, Ok(())) {
        UpgradeNext::Run(c) => assert_eq!(c, cmds[0]),
        _ => panic!("expected the first command"),
    }
    match pm.upgrade_step(1, Ok(())) {
        UpgradeNext::Run(c) => assert_eq!(c.args, vec!["apt-get", "upgrade", "-y"]),
        _ => panic!("expected the second command"),
    }
    assert!(matches!(pm.upgrade_step(2, Ok(())), UpgradeNext::Done));
    let e = OilError::InstallError("sudo exited with status 1".to_string());
    match pm.upgrade_step(1, Err(e.clone())) {
        UpgradeNext::Failed(got) => assert_eq!(got, e),
        _ => panic!("expected the failure"),
    }
}

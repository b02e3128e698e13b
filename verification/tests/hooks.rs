use oil::error::OilError;
use oil::hooks::{
    apt_conf, apt_wrapper_script, blocked_packages, cellar_has_package, install_detected,
    pm_preinstall_check_packages, preinstall_shell_fragment, shell_escape, status_all, status_of, status_report, HookPm,
    HookStep,
};
use oil::system_pm::SystemPm;

#[test]
fn apt_conf_names_dpkg_hook() {
    let c = apt_conf("/home/u/.oil/oil-hook-apt");
    assert!(c.contains("DPkg::Pre-Install-Pkgs"));
}

#[test]
fn shell_escape_quotes_only_when_needed() {
    assert_eq!(shell_escape("/usr/local/bin/oil"), "/usr/local/bin/oil");
    assert_eq!(shell_escape("/home/my dir/oil"), "'/home/my dir/oil'");
    assert_eq!(shell_escape("it's"), "'it'\\''s'");
    assert_eq!(shell_escape(""), "");
    assert_eq!(
        preinstall_shell_fragment("/opt/oil bin/oil"),
        "'/opt/oil bin/oil' __pm-preinstall --pkg"
    );
}

#[test]
fn generated_files_embed_escaped_paths() {
    assert_eq!(
        apt_conf("/home/u/.oil/oil-hook-apt"),
        "// oil hooks apt\nDPkg::Pre-Install-Pkgs { \"/home/u/.oil/oil-hook-apt\"; };\n"
    );
    let w = apt_wrapper_script("/usr/bin/oil");
    assert!(w.starts_with("#!/bin/sh\n"));
    assert!(w.contains("OIL_BIN=/usr/bin/oil\n"));
}

#[test]
fn hook_targets_parse_case_insensitively() {
    assert_eq!(HookPm::from_cli("APT").unwrap(), HookPm::Apt);
    assert_eq!(HookPm::from_cli("yum").unwrap(), HookPm::Dnf);
    assert_eq!(HookPm::from_cli("Pacman").unwrap(), HookPm::Pacman);
    let e = HookPm::from_cli("zypper").unwrap_err();
    assert_eq!(
        e,
        OilError::InvalidInput(
            "unknown hooks target 'zypper' (try: apt, dnf, pacman, apk, xbps, brew, nix)".to_string()
        )
    );
    assert_eq!(HookPm::Xbps.label(), "xbps");
}

#[test]
fn hook_install_checks_the_host() {
    let e = HookPm::Apt.install(false, Some(SystemPm::Apt), "/usr/bin/oil", "/root/.oil").unwrap_err();
    assert_eq!(e.message(), "apt hooks: Linux only");
    let e = HookPm::Apt.install(true, Some(SystemPm::Dnf), "/usr/bin/oil", "/root/.oil").unwrap_err();
    assert_eq!(e.message(), "apt hooks: host is not Debian/Ubuntu (apt)");
    assert!(HookPm::Dnf.install(true, Some(SystemPm::Yum), "/usr/bin/oil", "/root/.oil").is_ok());
    let e = HookPm::Brew.install(true, Some(SystemPm::Brew), "/usr/bin/oil", "/root/.oil").unwrap_err();
    assert!(matches!(e, OilError::PlatformNotSupported(_)));
}

#[test]
fn apt_hook_install_writes_wrapper_then_conf() {
    let steps = HookPm::Apt
        .install(true, Some(SystemPm::Apt), "/usr/bin/oil", "/root/.oil")
        .unwrap();
    assert_eq!(steps.len(), 5);
    assert_eq!(steps[0], HookStep::CreateDir("/root/.oil".to_string()));
    match &steps[1] {
        HookStep::WriteExecutable(p, body) => {
            assert_eq!(p, "/root/.oil/oil-hook-apt");
            assert_eq!(body, &apt_wrapper_script("/usr/bin/oil"));
        }
        other => panic!("unexpected step {other:?}"),
    }
    match &steps[3] {
        HookStep::InstallRootFile(p, content, tmp) => {
            assert_eq!(p, "/etc/apt/apt.conf.d/99oil-dpkg-hooks");
            assert_eq!(content, &apt_conf("/root/.oil/oil-hook-apt"));
            assert_eq!(tmp, "/root/.oil");
        }
        other => panic!("unexpected step {other:?}"),
    }
    let removal = HookPm::Pacman.remove("/root/.oil");
    assert_eq!(
        removal,
        vec![
            HookStep::RemoveRootFile("/etc/pacman.d/hooks/oil-cellar.hook".to_string()),
            HookStep::RemoveFileIfExists("/root/.oil/oil-hook-pacman".to_string()),
            HookStep::Print("oil hooks pacman: removed".to_string()),
        ]
    );
}

#[test]
fn hook_status_lines() {
    assert_eq!(HookPm::Apt.status(false), "apt: not installed");
    assert_eq!(HookPm::Dnf.status(true), "dnf: installed (/etc/dnf/plugins/oil_cellar.py)");
    assert_eq!(HookPm::Nix.status(true), "nix: unsupported");
    assert_eq!(
        HookPm::Apt.status_paths("/root/.oil"),
        vec!["/etc/apt/apt.conf.d/99oil-dpkg-hooks".to_string(), "/root/.oil/oil-hook-apt".to_string()]
    );
    assert_eq!(
        status_all(),
        vec![
            HookPm::Apt,
            HookPm::Dnf,
            HookPm::Pacman,
            HookPm::Apk,
            HookPm::Xbps,
            HookPm::Brew,
            HookPm::Nix
        ]
    );
}

#[test]
fn detected_host_selects_backend() {
    assert_eq!(install_detected(Some(SystemPm::Yum)).unwrap(), HookPm::Dnf);
    assert_eq!(
        install_detected(None).unwrap_err().message(),
        "no host package manager detected"
    );
    assert_eq!(
        install_detected(Some(SystemPm::Zypper)).unwrap_err().message(),
        "oil hooks install: no hook backend for zypper"
    );
}

#[test]
fn preinstall_guard_blocks_cellar_packages() {
    let installed = vec!["ripgrep".to_string(), "FD".to_string()];
    assert!(cellar_has_package("fd", &installed));
    assert!(cellar_has_package("RipGrep", &installed));
    assert!(!cellar_has_package("bat", &installed));
    let names = vec!["bat".to_string(), "fd".to_string()];
    assert_eq!(blocked_packages(&names, &installed), vec!["fd".to_string()]);
    let e = pm_preinstall_check_packages(&names, &installed).unwrap_err();
    assert_eq!(e.message(), "host install blocked for oil-managed package(s)");
    assert!(pm_preinstall_check_packages(&["bat".to_string()], &installed).is_ok());
    assert!(pm_preinstall_check_packages(&[], &installed).is_ok());
}

#[test]
fn hook_removal_deletes_what_install_wrote_as_root() {
    let hosts = [
        (HookPm::Apt, SystemPm::Apt),
        (HookPm::Apk, SystemPm::Apk),
        (HookPm::Dnf, SystemPm::Dnf),
        (HookPm::Pacman, SystemPm::Pacman),
    ];
    for (pm, host) in hosts {
        let steps = pm.install(true, Some(host), "/usr/bin/oil", "/root/.oil").unwrap();
        let removal = pm.remove("/root/.oil");
        let mut written = Vec::new();
        for step in &steps {
            match step {
                HookStep::InstallRootFile(p, _, _) | HookStep::InstallRootExecutable(p, _, _, _) => {
                    assert!(removal.contains(&HookStep::RemoveRootFile(p.clone())), "{p} left behind");
                    written.push(p.clone());
                }
                HookStep::WriteExecutable(p, _) => written.push(p.clone()),
                _ => {}
            }
        }
        for p in pm.status_paths("/root/.oil") {
            assert!(written.contains(&p), "status looks for {p}, which install does not write");
        }
    }
}

#[test]
fn every_hook_label_names_its_backend() {
    let all = [
        HookPm::Apt,
        HookPm::Apk,
        HookPm::Dnf,
        HookPm::Pacman,
        HookPm::Xbps,
        HookPm::Brew,
        HookPm::Nix,
    ];
    for pm in all {
        assert_eq!(HookPm::from_cli(pm.label()).unwrap(), pm);
        assert_eq!(HookPm::from_cli(&pm.label().to_uppercase()).unwrap(), pm);
    }
    assert_eq!(HookPm::from_cli("YUM").unwrap(), HookPm::Dnf);
}

#[test]
fn quoted_paths_keep_backslashes_and_quotes() {
    assert_eq!(shell_escape("/a b/it's"), "'/a b/it'\\''s'");
    assert_eq!(shell_escape("C:\\x y"), "'C:\\x y'");
    assert_eq!(shell_escape("''"), "''\\'''\\'''");
}

#[test]
fn status_needs_every_hook_file() {
    assert_eq!(status_of(HookPm::Apt, &[true, true]), "apt: installed (/etc/apt/apt.conf.d/99oil-dpkg-hooks)");
    assert_eq!(status_of(HookPm::Apt, &[true, false]), "apt: not installed");
    assert_eq!(status_of(HookPm::Dnf, &[]), "dnf: not installed");
    let lines = status_report(&[vec![true, true], vec![false], vec![true]]);
    assert_eq!(lines.len(), 7);
    assert_eq!(lines[0], "apt: installed (/etc/apt/apt.conf.d/99oil-dpkg-hooks)");
    assert_eq!(lines[1], "dnf: not installed");
    assert_eq!(lines[2], "pacman: installed (/etc/pacman.d/hooks/oil-cellar.hook)");
    assert_eq!(lines[3], "apk: not installed");
    assert_eq!(lines[6], "nix: unsupported");
}

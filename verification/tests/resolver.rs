use oil::error::OilError;
use oil::registry::{parse_dep_name, PackageIndex, PackageMetadata};
use oil::resolver::Resolver;

fn make_pkg(name: &str, version: &str, depends: &[&str]) -> PackageMetadata {
    PackageMetadata {
        name: name.to_string(),
        version: version.to_string(),
        description: "".to_string(),
        download_url: "".to_string(),
        sha256: None,
        installed_size: 0,
        depends: depends.iter().map(|s| s.to_string()).collect(),
        provides: vec![],
    }
}

#[test]
fn test_resolve_no_deps() {
    let index = PackageIndex {
        packages: vec![make_pkg("curl", "8.0.0", &[])],
    };
    let resolver = Resolver::new(&index);
    let result = resolver.resolve(&["curl".to_string()]).unwrap();
    assert_eq!(result.len(), 1);
    assert_eq!(result[0].name, "curl");
}

#[test]
fn test_resolve_with_deps() {
    let index = PackageIndex {
        packages: vec![
            make_pkg("curl", "8.0.0", &["libc6", "libssl3"]),
            make_pkg("libc6", "2.35", &[]),
            make_pkg("libssl3", "3.0.0", &["libc6"]),
        ],
    };
    let resolver = Resolver::new(&index);
    let result = resolver.resolve(&["curl".to_string()]).unwrap();
    let names: Vec<_> = result.iter().map(|p| p.name.as_str()).collect();
    assert!(names.contains(&"curl"));
    assert!(names.contains(&"libc6"));
    assert!(names.contains(&"libssl3"));
    let libc_pos = names.iter().position(|&n| n == "libc6").unwrap();
    let curl_pos = names.iter().position(|&n| n == "curl").unwrap();
    assert!(libc_pos < curl_pos);
}

#[test]
fn test_resolve_missing_dep_skipped() {
    let index = PackageIndex {
        packages: vec![
            make_pkg("nginx", "1.24.0", &["libpcre3", "missing-virtual-pkg"]),
            make_pkg("libpcre3", "8.45", &[]),
        ],
    };
    let resolver = Resolver::new(&index);
    let result = resolver.resolve(&["nginx".to_string()]).unwrap();
    let names: Vec<_> = result.iter().map(|p| p.name.as_str()).collect();
    assert!(names.contains(&"nginx"));
    assert!(names.contains(&"libpcre3"));
}

#[test]
fn test_resolve_missing_requested_fails() {
    let index = PackageIndex {
        packages: vec![make_pkg("curl", "8.0.0", &[])],
    };
    let resolver = Resolver::new(&index);
    let err = resolver.resolve(&["ripgrep".to_string()]).unwrap_err();
    assert!(err.message().contains("ripgrep"));
}

#[test]
fn test_resolve_virtual_provide_deduplicates_concrete_package() {
    let mut glibc = make_pkg("glibc", "2.39", &[]);
    glibc.provides = vec!["libc.so.6()(64bit)".to_string()];
    let index = PackageIndex {
        packages: vec![make_pkg("ripgrep", "14.1.1", &["libc.so.6()(64bit)"]), glibc],
    };
    let resolver = Resolver::new(&index);
    let result = resolver
        .resolve(&["ripgrep".to_string(), "glibc".to_string()])
        .unwrap();
    let names: Vec<_> = result.iter().map(|p| p.name.as_str()).collect();
    assert_eq!(names.iter().filter(|&&name| name == "glibc").count(), 1);
    assert!(names.contains(&"ripgrep"));
}

#[test]
fn test_resolve_skips_host_satisfied_dependency() {
    let mut glibc = make_pkg("glibc", "2.39", &[]);
    glibc.provides = vec!["libc.so.6()(64bit)".to_string()];
    let index = PackageIndex {
        packages: vec![make_pkg("ripgrep", "14.1.1", &["libc.so.6()(64bit)"]), glibc],
    };
    let resolver = Resolver::new(&index);
    let result = resolver
        .resolve_with_satisfied(&["ripgrep".to_string()], |dep| dep == "libc.so.6()(64bit)")
        .unwrap();
    let names: Vec<_> = result.iter().map(|p| p.name.as_str()).collect();
    assert_eq!(names, vec!["ripgrep"]);
}

#[test]
fn test_resolve_deduplicates() {
    let index = PackageIndex {
        packages: vec![
            make_pkg("curl", "8.0.0", &["libc6"]),
            make_pkg("wget", "1.21.0", &["libc6"]),
            make_pkg("libc6", "2.35", &[]),
        ],
    };
    let resolver = Resolver::new(&index);
    let result = resolver
        .resolve(&["curl".to_string(), "wget".to_string()])
        .unwrap();
    let libc_count = result.iter().filter(|p| p.name == "libc6").count();
    assert_eq!(libc_count, 1);
}

#[test]
fn resolve_reports_every_missing_request_in_order() {
    let index = PackageIndex {
        packages: vec![make_pkg("curl", "8.0.0", &[])],
    };
    let resolver = Resolver::new(&index);
    let err = resolver
        .resolve(&["ripgrep".to_string(), "curl".to_string(), "fd".to_string()])
        .unwrap_err();
    assert_eq!(
        err,
        OilError::InstallError("packages not found in system registry: ripgrep, fd".to_string())
    );
    let single = resolver.resolve(&["ripgrep".to_string()]).unwrap_err();
    assert_eq!(single.message(), "package not found in system registry: ripgrep");
}

#[test]
fn resolve_emits_dependencies_depth_first() {
    let index = PackageIndex {
        packages: vec![
            make_pkg("app", "1", &["liba (>= 1.0)", "libb | libc"]),
            make_pkg("liba", "1", &["libz"]),
            make_pkg("libb", "1", &["libz"]),
            make_pkg("libz", "1", &[]),
        ],
    };
    let resolver = Resolver::new(&index);
    let result = resolver.resolve(&["app".to_string()]).unwrap();
    let names: Vec<_> = result.iter().map(|p| p.name.as_str()).collect();
    assert_eq!(names, vec!["libz", "liba", "libb", "app"]);
}

#[test]
fn resolve_emits_each_package_once_for_cycles() {
    let index = PackageIndex {
        packages: vec![make_pkg("a", "1", &["b"]), make_pkg("b", "1", &["a"])],
    };
    let resolver = Resolver::new(&index);
    let result = resolver.resolve(&["a".to_string(), "b".to_string()]).unwrap();
    let names: Vec<_> = result.iter().map(|p| p.name.as_str()).collect();
    assert_eq!(names, vec!["b", "a"]);
}

#[test]
fn find_prefers_name_over_provider() {
    let mut other = make_pkg("other", "1", &[]);
    other.provides = vec!["tool".to_string()];
    let index = PackageIndex {
        packages: vec![other, make_pkg("tool", "2", &[])],
    };
    assert_eq!(index.find("tool").unwrap().version, "2");
    assert_eq!(index.find_index("tool"), Some(1));
    assert!(index.find("nothing").is_none());
}

#[test]
fn dependency_entries_name_their_package() {
    assert_eq!(parse_dep_name("libc6 (>= 2.35)"), "libc6");
    assert_eq!(parse_dep_name(" foo | bar "), "foo");
    assert_eq!(parse_dep_name("python3>=3.8"), "python3");
    assert_eq!(parse_dep_name(""), "");
}

#[test]
fn cycles_outside_the_reached_packages_keep_dependency_order() {
    let index = PackageIndex {
        packages: vec![
            make_pkg("curl", "8.0.0", &["libssl3", "libc6"]),
            make_pkg("libssl3", "3.0.0", &["zlib1g"]),
            make_pkg("zlib1g", "1.3", &[]),
            // these two depend on each other; the host already has libc6
            make_pkg("libc6", "2.39", &["libgcc-s1"]),
            make_pkg("libgcc-s1", "14.2", &["libc6"]),
            // a cycle nothing requested reaches
            make_pkg("a", "1", &["b"]),
            make_pkg("b", "1", &["a"]),
        ],
    };
    let resolver = Resolver::new(&index);
    let result = resolver
        .resolve_with_satisfied(&["curl".to_string()], |dep| dep == "libc6")
        .unwrap();
    let names: Vec<_> = result.iter().map(|p| p.name.as_str()).collect();
    assert_eq!(names, vec!["zlib1g", "libssl3", "curl"]);
}

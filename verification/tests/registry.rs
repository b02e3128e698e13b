use std::io::Write;

use oil::registry::eopkg::{parse_eopkg_index, EopkgRegistry};
use oil::registry::flatpak::FlatpakRegistry;
use oil::registry::opkg::{openwrt_arch, OpkgRegistry};
use oil::registry::snap::SnapRegistry;
use oil::registry::cache_file_name;

const INDEX: &str = r#"<?xml version="1.0" encoding="utf-8"?>
<PISI>
  <Package>
    <Name>ripgrep</Name>
    <Summary xml:lang="en">fast grep</Summary>
    <Description summary="Line-oriented search">long text</Description>
    <History><Update release="3"><Version>14.1.0</Version></Update></History>
    <Version>14.1.0</Version>
    <Release>3</Release>
    <Architecture>x86_64</Architecture>
  </Package>
  <Package>
    <Name>fd</Name>
    <Version>9.0</Version>
    <PackageURI>f/fd/fd-9.0-1-1-x86_64.eopkg</PackageURI>
  </Package>
  <Package>
    <Name>bat</Name>
    <PackageURI>https://cdn.example/bat.eopkg</PackageURI>
  </Package>
  <Package>
    <Version>1.0</Version>
  </Package>
</PISI>
"#;

#[test]
fn eopkg_index_lists_packages_in_order() {
    let pkgs = parse_eopkg_index(INDEX, "https://mirror.example/repo");
    let names: Vec<_> = pkgs.iter().map(|p| p.name.as_str()).collect();
    assert_eq!(names, vec!["ripgrep", "fd", "bat"]);
    assert_eq!(pkgs[0].version, "14.1.0-3");
    assert_eq!(pkgs[0].description, "Line-oriented search");
    assert_eq!(
        pkgs[0].download_url,
        "https://mirror.example/repo/packages/ripgrep/ripgrep-14.1.0-3-x86_64.eopkg"
    );
    assert_eq!(pkgs[1].version, "9.0");
    assert_eq!(pkgs[1].download_url, "https://mirror.example/repo/f/fd/fd-9.0-1-1-x86_64.eopkg");
    assert_eq!(pkgs[2].download_url, "https://cdn.example/bat.eopkg");
    assert!(pkgs.iter().all(|p| p.sha256.is_none() && p.depends.is_empty() && p.installed_size == 0));
}

#[test]
fn eopkg_index_survives_broken_documents() {
    assert!(parse_eopkg_index("", "m").is_empty());
    let truncated = "<PISI><Package><Name>x</Name></Package><Package><Name>y</Name>";
    let pkgs = parse_eopkg_index(truncated, "m");
    assert_eq!(pkgs.len(), 1);
    assert_eq!(pkgs[0].download_url, "m/packages/x/x--.eopkg");
}

#[test]
fn eopkg_registry_urls_and_cache_names() {
    let r = EopkgRegistry::new("https://mirror.example/repo//", "main");
    assert_eq!(r.mirror(), "https://mirror.example/repo");
    assert_eq!(r.index_url(), "https://mirror.example/repo/eopkg-index.xml.xz");
    assert_eq!(r.cache_file_name(), "eopkg-https---mirror-example-repo-main.json");
    let d = EopkgRegistry::solus_default();
    assert_eq!(d.index_url(), "https://solus-project.com/repositories/eopkg-index.xml.xz");
    assert!(EopkgRegistry::is_cache_fresh(Some(86399)));
    assert!(!EopkgRegistry::is_cache_fresh(Some(86400)));
    assert!(!EopkgRegistry::is_cache_fresh(None));
}

#[test]
fn eopkg_downloads_are_decompressed_then_parsed() {
    let mut enc = xz2::write::XzEncoder::new(Vec::new(), 6);
    enc.write_all(INDEX.as_bytes()).unwrap();
    let bytes = enc.finish().unwrap();
    let r = EopkgRegistry::new("https://mirror.example/repo", "main");
    let pkgs = r.decode_index(&bytes).unwrap();
    assert_eq!(pkgs.len(), 3);
    let e = r.decode_index(b"not xz at all").unwrap_err();
    assert!(e.message().starts_with("Failed to decompress eopkg index: "));

    let mut enc = xz2::write::XzEncoder::new(Vec::new(), 6);
    enc.write_all(&[0xff, 0xfe, 0x00]).unwrap();
    let bad_text = enc.finish().unwrap();
    let e = r.decode_index(&bad_text).unwrap_err();
    assert!(e.message().starts_with("eopkg index not valid UTF-8: "));
}

#[test]
fn cache_names_keep_only_alphanumerics() {
    assert_eq!(cache_file_name("opkg", "https://a.b/c", "x86_64"), "opkg-https---a-b-c-x86-64.json");
    assert_eq!(cache_file_name("eopkg", "ü", "é"), "eopkg-ü-é.json");
}

#[test]
fn opkg_feed_for_host_architecture() {
    assert_eq!(openwrt_arch("aarch64"), "aarch64_cortex-a53");
    assert_eq!(openwrt_arch("arm"), "arm_arm1176jzf_s_vfp");
    assert_eq!(openwrt_arch("mips"), "mips_24kc");
    assert_eq!(openwrt_arch("x86_64"), "x86_64");
    assert_eq!(openwrt_arch("riscv64"), "riscv64");
    let r = OpkgRegistry::openwrt_default("aarch64");
    assert_eq!(
        r.repo_url(),
        "https://downloads.openwrt.org/releases/23.05.5/packages/aarch64_cortex-a53/Packages.gz"
    );
    let r = OpkgRegistry::new("https://feed.example/", "mips_24kc");
    assert_eq!(r.baseurl(), "https://feed.example");
    assert_eq!(r.cache_file_name(), "opkg-https---feed-example-mips-24kc.json");
    assert!(OpkgRegistry::is_cache_fresh(Some(0)));
}

#[test]
fn opkg_packages_are_gunzipped() {
    let mut enc = flate2::write::GzEncoder::new(Vec::new(), flate2::Compression::default());
    enc.write_all(b"Package: luci\nVersion: 1\n").unwrap();
    let bytes = enc.finish().unwrap();
    let r = OpkgRegistry::new("https://feed.example", "x86_64");
    assert_eq!(r.decode_packages(&bytes).unwrap(), "Package: luci\nVersion: 1\n");
    let e = r.decode_packages(b"plain").unwrap_err();
    assert!(e.message().starts_with("Failed to decompress Packages.gz: "));
}

#[test]
fn flatpak_and_snap_have_no_index() {
    let client = reqwest::Client::new();
    let e = FlatpakRegistry.load(&client).unwrap_err();
    assert!(e.message().contains("flatpak install"));
    let e = SnapRegistry.load(&client).unwrap_err();
    assert!(e.message().starts_with("snap packages are installed via 'snap install'"));
}

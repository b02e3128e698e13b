//! What wax records about the Windows packages it installed (Scoop, winget,
//! Chocolatey): where the records live, how they are listed and looked up,
//! which binary links each owns, and what removing one deletes.
use vstd::prelude::*;

use crate::error::{ErrorView, OilError};
use crate::order::{chars_eq, chars_lt, lemma_lt_irreflexive, lemma_lt_transitive, seq_lt};
use crate::path::{comps_from, components, join_spec, lemma_join_components, path_eq, path_equal, path_join, path_starts_with, path_starts_with_spec, sort_paths, sort_paths_spec};
use crate::text::{
    chars_of, eq_ignore_case, is_ascii_alnum, owned, push_char, push_str, seq_ascii_lower, starts_with,
    str_eq_ignore_ascii_case, string_range, to_ascii_lower,
};

verus! {

// ---------------------------------------------------------------------------
// Sources and records
// ---------------------------------------------------------------------------
/// Where a package comes from, fastest first.
#[derive(Clone, Copy, Debug, PartialEq, Eq, Structural)]
pub enum Ecosystem {
    Brew,
    Scoop,
    Winget,
    Chocolatey,
}

/// The order of the sources: brew, scoop, winget, chocolatey.
pub open spec fn eco_rank(e: Ecosystem) -> int {
    match e {
        Ecosystem::Brew => 0,
        Ecosystem::Scoop => 1,
        Ecosystem::Winget => 2,
        Ecosystem::Chocolatey => 3,
    }
}

pub open spec fn label_spec(e: Ecosystem) -> Seq<char> {
    match e {
        Ecosystem::Brew => "brew"@,
        Ecosystem::Scoop => "scoop"@,
        Ecosystem::Winget => "winget"@,
        Ecosystem::Chocolatey => "choco"@,
    }
}

impl Ecosystem {
    /// The short name used in records and in `source/id` names.
    pub fn label(self) -> (r: &'static str)
        ensures
            r@ == label_spec(self),
    {
        match self {
            Ecosystem::Brew => "brew",
            Ecosystem::Scoop => "scoop",
            Ecosystem::Winget => "winget",
            Ecosystem::Chocolatey => "choco",
        }
    }

    fn rank(self) -> (r: u8)
        ensures
            r as int == eco_rank(self),
    {
        match self {
            Ecosystem::Brew => 0,
            Ecosystem::Scoop => 1,
            Ecosystem::Winget => 2,
            Ecosystem::Chocolatey => 3,
        }
    }
}

/// The source a `prefix/name` package spec forces, and the rest: `scoop/`,
/// `choco/` or `chocolatey/`, `winget/`, `brew/` or `homebrew/`.
pub open spec fn source_prefix_spec(raw: Seq<char>) -> (Option<Ecosystem>, Seq<char>) {
    if starts_with(raw, "scoop/"@) {
        (Some(Ecosystem::Scoop), raw.skip(6))
    } else if starts_with(raw, "choco/"@) {
        (Some(Ecosystem::Chocolatey), raw.skip(6))
    } else if starts_with(raw, "chocolatey/"@) {
        (Some(Ecosystem::Chocolatey), raw.skip(11))
    } else if starts_with(raw, "winget/"@) {
        (Some(Ecosystem::Winget), raw.skip(7))
    } else if starts_with(raw, "brew/"@) {
        (Some(Ecosystem::Brew), raw.skip(5))
    } else if starts_with(raw, "homebrew/"@) {
        (Some(Ecosystem::Brew), raw.skip(9))
    } else {
        (None, raw)
    }
}

/// `q` is no prefix of `raw` when they differ at `i`.
proof fn lemma_not_prefix(raw: Seq<char>, q: Seq<char>, i: int)
    requires
        0 <= i < q.len(),
        i < raw.len(),
        raw[i] != q[i],
    ensures
        !starts_with(raw, q),
{
    if q.len() <= raw.len() {
        assert(raw.take(q.len() as int)[i] == raw[i]);
    }
}

/// `p + n` starts with `p`, and what follows it is `n`.
proof fn lemma_prefixed(p: Seq<char>, n: Seq<char>)
    ensures
        starts_with(p + n, p),
        (p + n).skip(p.len() as int) == n,
{
    assert((p + n).take(p.len() as int) =~= p);
    assert((p + n).skip(p.len() as int) =~= n);
}

/// A source's own label, then `/`, forces that source and leaves the rest as
/// the name, whatever the name is; so do the long forms `chocolatey/` and
/// `homebrew/`.
pub proof fn law_source_prefix_selects_source(e: Ecosystem, n: Seq<char>)
    ensures
        source_prefix_spec(label_spec(e) + "/"@ + n) == (Some(e), n),
        source_prefix_spec("chocolatey/"@ + n) == (Some(Ecosystem::Chocolatey), n),
        source_prefix_spec("homebrew/"@ + n) == (Some(Ecosystem::Brew), n),
{
    reveal_strlit("brew");
    reveal_strlit("scoop");
    reveal_strlit("winget");
    reveal_strlit("choco");
    reveal_strlit("/");
    reveal_strlit("scoop/");
    reveal_strlit("choco/");
    reveal_strlit("chocolatey/");
    reveal_strlit("winget/");
    reveal_strlit("brew/");
    reveal_strlit("homebrew/");
    let p = label_spec(e) + "/"@;
    let raw = p + n;
    assert(label_spec(e) + "/"@ + n == raw);
    lemma_prefixed(p, n);
    match e {
        Ecosystem::Scoop => {
            assert(p =~= "scoop/"@);
        },
        Ecosystem::Chocolatey => {
            assert(p =~= "choco/"@);
            lemma_not_prefix(raw, "scoop/"@, 0);
        },
        Ecosystem::Winget => {
            assert(p =~= "winget/"@);
            lemma_not_prefix(raw, "scoop/"@, 0);
            lemma_not_prefix(raw, "choco/"@, 0);
            lemma_not_prefix(raw, "chocolatey/"@, 0);
        },
        Ecosystem::Brew => {
            assert(p =~= "brew/"@);
            lemma_not_prefix(raw, "scoop/"@, 0);
            lemma_not_prefix(raw, "choco/"@, 0);
            lemma_not_prefix(raw, "chocolatey/"@, 0);
            lemma_not_prefix(raw, "winget/"@, 0);
        },
    }
    let c = "chocolatey/"@ + n;
    lemma_prefixed("chocolatey/"@, n);
    lemma_not_prefix(c, "scoop/"@, 0);
    lemma_not_prefix(c, "choco/"@, 5);
    let h = "homebrew/"@ + n;
    lemma_prefixed("homebrew/"@, n);
    lemma_not_prefix(h, "scoop/"@, 0);
    lemma_not_prefix(h, "choco/"@, 0);
    lemma_not_prefix(h, "chocolatey/"@, 0);
    lemma_not_prefix(h, "winget/"@, 0);
    lemma_not_prefix(h, "brew/"@, 0);
}

fn strip(raw: &str, prefix: &str) -> (r: Option<String>)
    ensures
        match r {
            Some(s) => starts_with(raw@, prefix@) && s@ == raw@.skip(prefix@.len() as int),
            None => !starts_with(raw@, prefix@),
        },
{
    let v = chars_of(raw);
    let p = chars_of(prefix);
    if crate::text::matches_at(v.as_slice(), 0, p.as_slice()) {
        assert(v@.subrange(0, p@.len() as int) == v@.take(p@.len() as int));
        let s = string_range(v.as_slice(), p.len(), v.len());
        assert(v@.subrange(p@.len() as int, v@.len() as int) == v@.skip(p@.len() as int));
        Some(s)
    } else {
        proof {
            if starts_with(raw@, prefix@) {
                assert(v@.subrange(0, p@.len() as int) == v@.take(p@.len() as int));
            }
        }
        None
    }
}

/// Split a package spec into the source its prefix forces and the name
/// (see `source_prefix_spec`).
pub fn split_source_prefix(raw: &str) -> (r: (Option<Ecosystem>, String))
    ensures
        (r.0, r.1@) == source_prefix_spec(raw@),
{
    proof {
        reveal_strlit("scoop/");
        reveal_strlit("choco/");
        reveal_strlit("chocolatey/");
        reveal_strlit("winget/");
        reveal_strlit("brew/");
        reveal_strlit("homebrew/");
        assert("scoop/"@.len() == 6);
        assert("choco/"@.len() == 6);
        assert("chocolatey/"@.len() == 11);
        assert("winget/"@.len() == 7);
        assert("brew/"@.len() == 5);
        assert("homebrew/"@.len() == 9);
    }
    if let Some(s) = strip(raw, "scoop/") {
        (Some(Ecosystem::Scoop), s)
    } else if let Some(s) = strip(raw, "choco/") {
        (Some(Ecosystem::Chocolatey), s)
    } else if let Some(s) = strip(raw, "chocolatey/") {
        (Some(Ecosystem::Chocolatey), s)
    } else if let Some(s) = strip(raw, "winget/") {
        (Some(Ecosystem::Winget), s)
    } else if let Some(s) = strip(raw, "brew/") {
        (Some(Ecosystem::Brew), s)
    } else if let Some(s) = strip(raw, "homebrew/") {
        (Some(Ecosystem::Brew), s)
    } else {
        (None, owned(raw))
    }
}

/// How a Windows package was installed.
#[derive(Clone, Copy, Debug, PartialEq, Eq, Structural)]
pub enum WindowsInstallKind {
    /// Unpacked into wax's own directories.
    Portable,
    /// Installed by the package's own installer.
    Native,
}

/// How a natively installed package is uninstalled.
#[derive(Clone, Debug, PartialEq, Eq)]
pub struct WindowsNativeUninstall {
    pub command: String,
    pub args: Vec<String>,
}

/// The record of one installed Windows package. Paths are held as strings.
#[derive(Clone, Debug, PartialEq, Eq)]
pub struct WindowsPackageManifest {
    pub ecosystem: Ecosystem,
    pub id: String,
    pub version: String,
    pub source: String,
    pub staging_dir: String,
    pub bin_links: Vec<String>,
    pub files: Vec<String>,
    pub install_kind: WindowsInstallKind,
    pub native_uninstall: Option<WindowsNativeUninstall>,
    /// Seconds since the Unix epoch.
    pub installed_at: i64,
}

impl WindowsPackageManifest {
    /// A record of a portable install made at `installed_at` (seconds since
    /// the Unix epoch).
    pub fn new(
        ecosystem: Ecosystem,
        id: &str,
        version: &str,
        source: &str,
        staging_dir: String,
        bin_links: Vec<String>,
        files: Vec<String>,
        installed_at: i64,
    ) -> (r: Self)
        ensures
            r.ecosystem == ecosystem,
            r.id@ == id@,
            r.version@ == version@,
            r.source@ == source@,
            r.staging_dir == staging_dir,
            r.bin_links == bin_links,
            r.files == files,
            r.install_kind == WindowsInstallKind::Portable,
            r.native_uninstall is None,
            r.installed_at == installed_at,
    {
        WindowsPackageManifest {
            ecosystem,
            id: owned(id),
            version: owned(version),
            source: owned(source),
            staging_dir,
            bin_links,
            files,
            install_kind: WindowsInstallKind::Portable,
            native_uninstall: None,
            installed_at,
        }
    }

    /// The same record, for a native install uninstalled by `uninstall`.
    pub fn with_native_uninstall(self, uninstall: WindowsNativeUninstall) -> (r: Self)
        ensures
            r == (WindowsPackageManifest {
                install_kind: WindowsInstallKind::Native,
                native_uninstall: Some(uninstall),
                ..self
            }),
    {
        let mut m = self;
        m.install_kind = WindowsInstallKind::Native;
        m.native_uninstall = Some(uninstall);
        m
    }
}

// ---------------------------------------------------------------------------
// Where records live
// ---------------------------------------------------------------------------
pub open spec fn root_spec(home: Seq<char>) -> Seq<char> {
    join_spec(join_spec(home, ".local"@), "wax"@)
}

/// wax's own directory under the home directory `home`: `~/.local/wax`.
pub fn wax_windows_root(home: &str) -> (r: String)
    ensures
        r@ == root_spec(home@),
{
    let l = path_join(home, ".local");
    path_join(l.as_str(), "wax")
}

/// Where binaries are linked: `~/.local/wax/bin`.
pub fn wax_bin_dir(home: &str) -> (r: String)
    ensures
        r@ == join_spec(root_spec(home@), "bin"@),
{
    let root = wax_windows_root(home);
    path_join(root.as_str(), "bin")
}

pub open spec fn manifest_dir_spec(home: Seq<char>) -> Seq<char> {
    join_spec(join_spec(root_spec(home), "windows"@), "manifests"@)
}

/// Where records are kept: `~/.local/wax/windows/manifests`.
pub fn manifest_dir(home: &str) -> (r: String)
    ensures
        r@ == manifest_dir_spec(home@),
{
    let root = wax_windows_root(home);
    let w = path_join(root.as_str(), "windows");
    path_join(w.as_str(), "manifests")
}

/// An id character kept in a record's file name: ASCII letters and digits,
/// `-`, `_` and `.` stay, others become `-`.
pub open spec fn safe_id_char(c: char) -> char {
    if is_ascii_alnum(c) || c == '-' || c == '_' || c == '.' {
        c
    } else {
        '-'
    }
}

pub open spec fn manifest_path_spec(home: Seq<char>, ecosystem: Ecosystem, id: Seq<char>) -> Seq<
    char,
> {
    join_spec(
        manifest_dir_spec(home),
        label_spec(ecosystem) + "-"@ + id.map_values(|c: char| safe_id_char(c)) + ".json"@,
    )
}

/// The file holding the record of `ecosystem`'s package `id`.
pub fn manifest_path(home: &str, ecosystem: Ecosystem, id: &str) -> (r: String)
    ensures
        r@ == manifest_path_spec(home@, ecosystem, id@),
{
    let mut name = owned(ecosystem.label());
    push_str(&mut name, "-");
    let v = chars_of(id);
    let ghost start = name@;
    let mut i: usize = 0;
    while i < v.len()
        invariant
            i <= v@.len(),
            v@ == id@,
            name@ == start + v@.take(i as int).map_values(|c: char| safe_id_char(c)),
        decreases v@.len() - i,
    {
        let c = v[i];
        if ('0' <= c && c <= '9') || ('a' <= c && c <= 'z') || ('A' <= c && c <= 'Z') || c == '-'
            || c == '_' || c == '.' {
            push_char(&mut name, c);
        } else {
            push_char(&mut name, '-');
        }
        assert(v@.take(i + 1).map_values(|c: char| safe_id_char(c)) =~= v@.take(i as int).map_values(
            |c: char| safe_id_char(c),
        ).push(safe_id_char(c)));
        i = i + 1;
    }
    assert(v@.take(v@.len() as int) == v@);
    push_str(&mut name, ".json");
    let dir = manifest_dir(home);
    path_join(dir.as_str(), name.as_str())
}

/// Does `path` lie under `root` (component-wise)?
pub fn path_is_under_root(path: &str, root: &str) -> (r: bool)
    ensures
        r == path_starts_with_spec(path@, root@),
{
    path_starts_with(path, root)
}

/// The files found under a directory, sorted in `Path` order (the walk
/// itself reads the file system and happens outside the library).
pub fn collect_files(found: Vec<String>) -> (r: Vec<String>)
    ensures
        r.deep_view() == sort_paths_spec(found.deep_view()),
{
    sort_paths(found)
}

// ---------------------------------------------------------------------------
// Listing and lookup
// ---------------------------------------------------------------------------
/// Records in listing order: by id ignoring ASCII case, then by source.
pub open spec fn manifest_lt(a: WindowsPackageManifest, b: WindowsPackageManifest) -> bool {
    let x = seq_ascii_lower(a.id@);
    let y = seq_ascii_lower(b.id@);
    seq_lt(x, y) || (x == y && eco_rank(a.ecosystem) < eco_rank(b.ecosystem))
}

/// `m` put after every record not greater than it.
pub open spec fn insert_manifest(s: Seq<WindowsPackageManifest>, m: WindowsPackageManifest) -> Seq<
    WindowsPackageManifest,
>
    decreases s.len(),
{
    if s.len() == 0 {
        seq![m]
    } else if manifest_lt(m, s[0]) {
        seq![m] + s
    } else {
        seq![s[0]] + insert_manifest(s.drop_first(), m)
    }
}

/// `s` sorted stably in listing order.
pub open spec fn sort_manifests_spec(s: Seq<WindowsPackageManifest>) -> Seq<WindowsPackageManifest>
    decreases s.len(),
{
    if s.len() == 0 {
        seq![]
    } else {
        insert_manifest(sort_manifests_spec(s.drop_last()), s.last())
    }
}

pub open spec fn manifest_pos(s: Seq<WindowsPackageManifest>, m: WindowsPackageManifest, k: int) -> int
    decreases s.len() - k,
{
    if k < 0 || k >= s.len() {
        s.len() as int
    } else if manifest_lt(m, s[k]) {
        k
    } else {
        manifest_pos(s, m, k + 1)
    }
}

proof fn lemma_insert_manifest(s: Seq<WindowsPackageManifest>, m: WindowsPackageManifest, k: int)
    requires
        0 <= k <= s.len(),
    ensures
        k <= manifest_pos(s, m, k) <= s.len(),
        insert_manifest(s.skip(k), m) == s.subrange(k, manifest_pos(s, m, k)) + seq![m] + s.skip(
            manifest_pos(s, m, k),
        ),
    decreases s.len() - k,
{
    let t = s.skip(k);
    if k == s.len() {
        assert(t =~= Seq::<WindowsPackageManifest>::empty());
        assert(s.subrange(k, k) + seq![m] + s.skip(k) =~= seq![m]);
    } else if manifest_lt(m, s[k]) {
        assert(t[0] == s[k]);
        assert(s.subrange(k, k) + seq![m] + s.skip(k) =~= seq![m] + t);
    } else {
        lemma_insert_manifest(s, m, k + 1);
        assert(t[0] == s[k]);
        assert(t.drop_first() =~= s.skip(k + 1));
        let p = manifest_pos(s, m, k + 1);
        assert(seq![s[k]] + (s.subrange(k + 1, p) + seq![m] + s.skip(p)) =~= s.subrange(k, p)
            + seq![m] + s.skip(p));
    }
}

proof fn lemma_manifest_lt_strict(a: WindowsPackageManifest, b: WindowsPackageManifest, c: WindowsPackageManifest)
    ensures
        !manifest_lt(a, a),
        manifest_lt(a, b) && manifest_lt(b, c) ==> manifest_lt(a, c),
{
    let x = seq_ascii_lower(a.id@);
    let y = seq_ascii_lower(b.id@);
    let z = seq_ascii_lower(c.id@);
    lemma_lt_irreflexive(x);
    if manifest_lt(a, b) && manifest_lt(b, c) {
        if seq_lt(x, y) && seq_lt(y, z) {
            lemma_lt_transitive(x, y, z);
        }
    }
}

/// No record of `s` comes before an earlier one in listing order.
pub open spec fn manifests_sorted(s: Seq<WindowsPackageManifest>) -> bool {
    forall|i: int, j: int| 0 <= i < j < s.len() ==> !manifest_lt(#[trigger] s[j], #[trigger] s[i])
}

proof fn lemma_manifest_pos_before(s: Seq<WindowsPackageManifest>, m: WindowsPackageManifest, k: int, i: int)
    requires
        0 <= k <= i < manifest_pos(s, m, k),
        manifest_pos(s, m, k) <= s.len(),
    ensures
        !manifest_lt(m, s[i]),
    decreases s.len() - k,
{
    if k < s.len() && !manifest_lt(m, s[k]) && k < i {
        lemma_manifest_pos_before(s, m, k + 1, i);
    }
}

proof fn lemma_manifest_pos_at(s: Seq<WindowsPackageManifest>, m: WindowsPackageManifest, k: int)
    requires
        0 <= k,
        manifest_pos(s, m, k) < s.len(),
    ensures
        manifest_lt(m, s[manifest_pos(s, m, k)]),
    decreases s.len() - k,
{
    if k < s.len() && !manifest_lt(m, s[k]) {
        lemma_manifest_pos_at(s, m, k + 1);
    }
}

proof fn lemma_insert_manifest_sorted(s: Seq<WindowsPackageManifest>, m: WindowsPackageManifest)
    requires
        manifests_sorted(s),
    ensures
        manifests_sorted(insert_manifest(s, m)),
        insert_manifest(s, m).to_multiset() == s.to_multiset().insert(m),
{
    lemma_insert_manifest(s, m, 0);
    assert(s.skip(0) == s);
    let p = manifest_pos(s, m, 0);
    let r = insert_manifest(s, m);
    assert(r =~= s.insert(p, m));
    vstd::seq_lib::to_multiset_insert(s, p, m);
    assert forall|i: int, j: int| 0 <= i < j < r.len() implies !manifest_lt(#[trigger] r[j], #[trigger] r[i]) by {
        if j < p {
            assert(r[i] == s[i] && r[j] == s[j]);
        } else if j == p {
            assert(r[i] == s[i] && r[j] == m);
            lemma_manifest_pos_before(s, m, 0, i);
        } else if i < p {
            assert(r[i] == s[i] && r[j] == s[j - 1]);
        } else if i == p {
            assert(r[i] == m && r[j] == s[j - 1]);
            lemma_manifest_pos_at(s, m, 0);
            if manifest_lt(s[j - 1], m) {
                lemma_manifest_lt_strict(s[j - 1], m, s[p]);
                lemma_manifest_lt_strict(s[p], s[p], s[p]);
            }
        } else {
            assert(r[i] == s[i - 1] && r[j] == s[j - 1]);
        }
    }
}

/// Listing orders the records by id ignoring ASCII case, then by source
/// (no record before an earlier one), and keeps exactly the records read.
pub proof fn law_manifest_listing_sorted(s: Seq<WindowsPackageManifest>)
    ensures
        manifests_sorted(sort_manifests_spec(s)),
        sort_manifests_spec(s).to_multiset() == s.to_multiset(),
    decreases s.len(),
{
    if s.len() == 0 {
        assert(sort_manifests_spec(s) =~= s);
    } else {
        law_manifest_listing_sorted(s.drop_last());
        lemma_insert_manifest_sorted(sort_manifests_spec(s.drop_last()), s.last());
        assert(s =~= s.drop_last().push(s.last()));
        vstd::seq_lib::to_multiset_build(s.drop_last(), s.last());
    }
}

fn lower_chars(s: &str) -> (r: Vec<char>)
    ensures
        r@ == seq_ascii_lower(s@),
{
    let v = chars_of(s);
    let mut r: Vec<char> = Vec::new();
    let mut i: usize = 0;
    while i < v.len()
        invariant
            i <= v@.len(),
            v@ == s@,
            r@ == seq_ascii_lower(v@.take(i as int)),
        decreases v@.len() - i,
    {
        r.push(to_ascii_lower(v[i]));
        assert(seq_ascii_lower(v@.take(i + 1)) =~= seq_ascii_lower(v@.take(i as int)).push(
            crate::text::ascii_lower(v@[i as int]),
        ));
        i = i + 1;
    }
    assert(v@.take(v@.len() as int) == v@);
    r
}

fn manifest_less(a: &WindowsPackageManifest, b: &WindowsPackageManifest) -> (r: bool)
    ensures
        r == manifest_lt(*a, *b),
{
    let x = lower_chars(a.id.as_str());
    let y = lower_chars(b.id.as_str());
    chars_lt(x.as_slice(), y.as_slice()) || (chars_eq(x.as_slice(), y.as_slice())
        && a.ecosystem.rank() < b.ecosystem.rank())
}

/// Records in listing order (see `sort_manifests_spec`): how the records read
/// from the record directory are listed.
pub fn sort_manifests(manifests: Vec<WindowsPackageManifest>) -> (r: Vec<WindowsPackageManifest>)
    ensures
        r@ == sort_manifests_spec(manifests@),
{
    let mut r: Vec<WindowsPackageManifest> = Vec::new();
    let mut rest = manifests;
    let ghost input = rest@;
    let ghost mut i: int = 0;
    while rest.len() > 0
        invariant
            0 <= i <= input.len(),
            rest@ == input.skip(i),
            r@ == sort_manifests_spec(input.take(i)),
        decreases rest@.len(),
    {
        let m = rest.remove(0);
        proof {
            assert(input.skip(i)[0] == m);
            assert(input.skip(i + 1) =~= input.skip(i).drop_first());
        }
        let ghost sv = r@;
        let mut k: usize = 0;
        while k < r.len() && !manifest_less(&m, &r[k])
            invariant
                k <= r@.len(),
                sv == r@,
                manifest_pos(sv, m, 0) == manifest_pos(sv, m, k as int),
            decreases r@.len() - k,
        {
            k = k + 1;
        }
        proof {
            assert(manifest_pos(sv, m, k as int) == k);
            lemma_insert_manifest(sv, m, 0);
            assert(sv.skip(0) == sv);
            assert(input.take(i + 1).drop_last() == input.take(i));
            assert(input.take(i + 1).last() == m);
        }
        r.insert(k, m);
        proof {
            assert(r@ =~= sv.subrange(0, k as int) + seq![m] + sv.skip(k as int));
            i = i + 1;
        }
    }
    proof {
        assert(i == input.len());
        assert(input.take(input.len() as int) == input);
    }
    r
}

/// Is `m` the record of a package called `raw` (ignoring ASCII case)?
pub open spec fn id_matches(m: WindowsPackageManifest, raw: Seq<char>) -> bool {
    eq_ignore_case(m.id@, raw)
}

/// The record to load directly, when the spec forces Scoop, winget or
/// Chocolatey: its source and id. Otherwise records are searched by name
/// (`find_manifest`).
pub fn forced_manifest(raw: &str) -> (r: Option<(Ecosystem, String)>)
    ensures
        match source_prefix_spec(raw@).0 {
            Some(e) => if e != Ecosystem::Brew {
                r matches Some((f, n)) && f == e && n@ == source_prefix_spec(raw@).1
            } else {
                r is None
            },
            None => r is None,
        },
{
    let (force, name) = split_source_prefix(raw);
    match force {
        Some(Ecosystem::Brew) | None => None,
        Some(e) => Some((e, name)),
    }
}

pub open spec fn multiple_match_message(raw: Seq<char>) -> Seq<char> {
    "multiple Windows packages match '"@ + raw + "'; use scoop/"@ + raw + ", winget/"@ + raw
        + ", or choco/"@ + raw
}

/// Find the record of the package called `raw` (ignoring ASCII case) among
/// the listed records: none, the only one, or an error when several sources
/// hold a package of that name.
pub fn find_manifest(raw: &str, manifests: &[WindowsPackageManifest]) -> (r: Result<Option<usize>, OilError>)
    ensures
        match r {
            Ok(None) => forall|k: int| 0 <= k < manifests@.len() ==> !id_matches(#[trigger] manifests@[k], raw@),
            Ok(Some(k)) => k < manifests@.len() && id_matches(manifests@[k as int], raw@) && forall|j: int|
                0 <= j < manifests@.len() && j != k ==> !id_matches(#[trigger] manifests@[j], raw@),
            Err(e) => (exists|i: int, j: int|
                0 <= i < j < manifests@.len() && id_matches(#[trigger] manifests@[i], raw@)
                    && id_matches(#[trigger] manifests@[j], raw@)) && e@ == ErrorView::Input(
                multiple_match_message(raw@),
            ),
        },
{
    let mut found: Option<usize> = None;
    let mut k: usize = 0;
    while k < manifests.len()
        invariant
            k <= manifests@.len(),
            match found {
                None => forall|j: int| 0 <= j < k ==> !id_matches(#[trigger] manifests@[j], raw@),
                Some(f) => f < k && id_matches(manifests@[f as int], raw@) && forall|j: int|
                    0 <= j < k && j != f ==> !id_matches(#[trigger] manifests@[j], raw@),
            },
        decreases manifests@.len() - k,
    {
        if str_eq_ignore_ascii_case(manifests[k].id.as_str(), raw) {
            if let Some(f) = found {
                assert(id_matches(manifests@[f as int], raw@) && id_matches(manifests@[k as int], raw@));
                let mut msg = owned("multiple Windows packages match '");
                push_str(&mut msg, raw);
                push_str(&mut msg, "'; use scoop/");
                push_str(&mut msg, raw);
                push_str(&mut msg, ", winget/");
                push_str(&mut msg, raw);
                push_str(&mut msg, ", or choco/");
                push_str(&mut msg, raw);
                return Err(OilError::InvalidInput(msg));
            }
            found = Some(k);
        }
        k = k + 1;
    }
    Ok(found)
}

/// Does the record `m` (of another package than `ecosystem`'s `id`) own the
/// binary link `link`?
pub open spec fn owns_link(m: WindowsPackageManifest, ecosystem: Ecosystem, id: Seq<char>, link: Seq<char>) -> bool {
    !(m.ecosystem == ecosystem && eq_ignore_case(m.id@, id)) && exists|e: int|
        0 <= e < m.bin_links@.len() && path_eq(#[trigger] m.bin_links@[e]@, link)
}

pub open spec fn link_owned_message(link: Seq<char>, m: WindowsPackageManifest) -> Seq<char> {
    "binary link "@ + link + " is already owned by "@ + label_spec(m.ecosystem) + "/"@ + m.id@
}

fn has_link(m: &WindowsPackageManifest, link: &str) -> (r: bool)
    ensures
        r == exists|e: int| 0 <= e < m.bin_links@.len() && path_eq(#[trigger] m.bin_links@[e]@, link@),
{
    let mut e: usize = 0;
    while e < m.bin_links.len()
        invariant
            e <= m.bin_links@.len(),
            forall|x: int| 0 <= x < e ==> !path_eq(#[trigger] m.bin_links@[x]@, link@),
        decreases m.bin_links@.len() - e,
    {
        if path_equal(m.bin_links[e].as_str(), link) {
            return true;
        }
        e = e + 1;
    }
    false
}

/// Check that none of the binary links `links` that `ecosystem`'s package
/// `id` is about to create is owned by another recorded package. The first
/// conflict found (records in order, then links in order) is reported.
pub fn validate_bin_links_available(
    ecosystem: Ecosystem,
    id: &str,
    links: &[String],
    manifests: &[WindowsPackageManifest],
) -> (r: Result<(), OilError>)
    ensures
        match r {
            Ok(()) => forall|i: int, j: int|
                0 <= i < manifests@.len() && 0 <= j < links@.len() ==> !owns_link(
                    #[trigger] manifests@[i],
                    ecosystem,
                    id@,
                    #[trigger] links@[j]@,
                ),
            Err(e) => exists|i: int, j: int|
                0 <= i < manifests@.len() && 0 <= j < links@.len() && owns_link(
                    #[trigger] manifests@[i],
                    ecosystem,
                    id@,
                    #[trigger] links@[j]@,
                ) && (forall|a: int, b: int|
                    0 <= a < i && 0 <= b < links@.len() ==> !owns_link(
                        #[trigger] manifests@[a],
                        ecosystem,
                        id@,
                        #[trigger] links@[b]@,
                    )) && (forall|b: int|
                    0 <= b < j ==> !owns_link(manifests@[i], ecosystem, id@, #[trigger] links@[b]@))
                    && e@ == ErrorView::Install(link_owned_message(links@[j]@, manifests@[i])),
        },
{
    let mut i: usize = 0;
    while i < manifests.len()
        invariant
            i <= manifests@.len(),
            forall|a: int, b: int|
                0 <= a < i && 0 <= b < links@.len() ==> !owns_link(
                    #[trigger] manifests@[a],
                    ecosystem,
                    id@,
                    #[trigger] links@[b]@,
                ),
        decreases manifests@.len() - i,
    {
        let m = &manifests[i];
        let same = m.ecosystem == ecosystem && str_eq_ignore_ascii_case(m.id.as_str(), id);
        if !same {
            let mut j: usize = 0;
            while j < links.len()
                invariant
                    i < manifests@.len(),
                    j <= links@.len(),
                    *m == manifests@[i as int],
                    !(m.ecosystem == ecosystem && eq_ignore_case(m.id@, id@)),
                    forall|a: int, b: int|
                        0 <= a < i && 0 <= b < links@.len() ==> !owns_link(
                            #[trigger] manifests@[a],
                            ecosystem,
                            id@,
                            #[trigger] links@[b]@,
                        ),
                    forall|b: int| 0 <= b < j ==> !owns_link(*m, ecosystem, id@, #[trigger] links@[b]@),
                decreases links@.len() - j,
            {
                if has_link(m, links[j].as_str()) {
                    let mut msg = owned("binary link ");
                    push_str(&mut msg, links[j].as_str());
                    push_str(&mut msg, " is already owned by ");
                    push_str(&mut msg, m.ecosystem.label());
                    push_str(&mut msg, "/");
                    push_str(&mut msg, m.id.as_str());
                    assert(owns_link(manifests@[i as int], ecosystem, id@, links@[j as int]@));
                    return Err(OilError::InstallError(msg));
                }
                j = j + 1;
            }
        }
        i = i + 1;
    }
    Ok(())
}

// ---------------------------------------------------------------------------
// Removal
// ---------------------------------------------------------------------------
/// One step of removing a recorded package.
#[derive(Clone, Debug, PartialEq, Eq)]
pub enum RemovalStep {
    /// If the file (or link) exists, count it as removed and, unless this is a
    /// dry run, delete it.
    RemoveFile(String),
    /// If the directory exists, count it as removed and, unless this is a dry
    /// run, delete it with everything in it.
    RemoveDir(String),
    /// Stop with this error.
    Refuse(OilError),
}

pub enum RemovalView {
    RemoveFile(Seq<char>),
    RemoveDir(Seq<char>),
    Refuse(ErrorView),
}

impl View for RemovalStep {
    type V = RemovalView;

    open spec fn view(&self) -> RemovalView {
        match self {
            RemovalStep::RemoveFile(p) => RemovalView::RemoveFile(p@),
            RemovalStep::RemoveDir(p) => RemovalView::RemoveDir(p@),
            RemovalStep::Refuse(e) => RemovalView::Refuse(e@),
        }
    }
}

pub open spec fn removal_views(v: Seq<RemovalStep>) -> Seq<RemovalView> {
    v.map_values(|s: RemovalStep| s@)
}

/// The links and files a record owns, links first.
pub open spec fn owned_paths(m: WindowsPackageManifest) -> Seq<Seq<char>> {
    m.bin_links.deep_view() + m.files.deep_view()
}

/// The first owned path at or after `k` outside `root`, or the number of paths.
pub open spec fn first_outside(ps: Seq<Seq<char>>, root: Seq<char>, k: int) -> int
    decreases ps.len() - k,
{
    if k < 0 || k >= ps.len() {
        ps.len() as int
    } else if !path_starts_with_spec(ps[k], root) {
        k
    } else {
        first_outside(ps, root, k + 1)
    }
}

pub open spec fn remove_files(ps: Seq<Seq<char>>) -> Seq<RemovalView> {
    ps.map_values(|p: Seq<char>| RemovalView::RemoveFile(p))
}

/// The steps that remove the record `m` of a package installed under the
/// home directory `home`: each owned path, refusing at the first one outside
/// wax's directory; then the staging directory when it lies inside; then
/// the record's own file.
pub open spec fn removal_plan(m: WindowsPackageManifest, home: Seq<char>) -> Seq<RemovalView> {
    let root = root_spec(home);
    let ps = owned_paths(m);
    let k = first_outside(ps, root, 0);
    if k < ps.len() {
        remove_files(ps.take(k)).push(
            RemovalView::Refuse(
                ErrorView::Install("refusing to remove path outside wax root: "@ + ps[k]),
            ),
        )
    } else {
        remove_files(ps) + (if path_starts_with_spec(m.staging_dir@, root) {
            seq![RemovalView::RemoveDir(m.staging_dir@)]
        } else {
            seq![]
        }) + seq![RemovalView::RemoveFile(manifest_path_spec(home, m.ecosystem, m.id@))]
    }
}

/// What removing the record `m` of a package installed under `home` does,
/// step by step (see `removal_plan`); the steps are carried out, or only
/// counted in a dry run, outside the library.
pub fn remove_manifest(m: &WindowsPackageManifest, home: &str) -> (r: Vec<RemovalStep>)
    ensures
        removal_views(r@) == removal_plan(*m, home@),
{
    let root = wax_windows_root(home);
    let ghost ps = owned_paths(*m);
    let ghost nl = m.bin_links@.len();
    let mut steps: Vec<RemovalStep> = Vec::new();
    let mut k: usize = 0;
    while k < m.bin_links.len()
        invariant
            k <= nl <= ps.len(),
            nl == m.bin_links@.len(),
            ps == owned_paths(*m),
            root@ == root_spec(home@),
            first_outside(ps, root@, 0) == first_outside(ps, root@, k as int),
            removal_views(steps@) == remove_files(ps.take(k as int)),
        decreases nl - k,
    {
        let p = &m.bin_links[k];
        assert(p@ == ps[k as int]);
        if !path_is_under_root(p.as_str(), root.as_str()) {
            let mut msg = owned("refusing to remove path outside wax root: ");
            push_str(&mut msg, p.as_str());
            let ghost before = removal_views(steps@);
            steps.push(RemovalStep::Refuse(OilError::InstallError(msg)));
            proof {
                assert(first_outside(ps, root@, k as int) == k);
                assert(removal_views(steps@) =~= before.push(steps@.last()@));
                assert(removal_views(steps@) =~= removal_plan(*m, home@));
            }
            return steps;
        }
        let ghost before = removal_views(steps@);
        steps.push(RemovalStep::RemoveFile(p.clone()));
        proof {
            assert(removal_views(steps@) =~= before.push(RemovalView::RemoveFile(ps[k as int])));
            assert(ps.take(k + 1) == ps.take(k as int).push(ps[k as int]));
            assert(remove_files(ps.take(k + 1)) =~= remove_files(ps.take(k as int)).push(
                RemovalView::RemoveFile(ps[k as int]),
            ));
        }
        k = k + 1;
    }
    let mut j: usize = 0;
    while j < m.files.len()
        invariant
            j <= m.files@.len(),
            nl == m.bin_links@.len(),
            ps.len() == nl + m.files@.len(),
            ps == owned_paths(*m),
            root@ == root_spec(home@),
            first_outside(ps, root@, 0) == first_outside(ps, root@, nl + j),
            removal_views(steps@) == remove_files(ps.take(nl + j)),
        decreases m.files@.len() - j,
    {
        let p = &m.files[j];
        assert(p@ == ps[nl + j]);
        if !path_is_under_root(p.as_str(), root.as_str()) {
            let mut msg = owned("refusing to remove path outside wax root: ");
            push_str(&mut msg, p.as_str());
            let ghost before = removal_views(steps@);
            steps.push(RemovalStep::Refuse(OilError::InstallError(msg)));
            proof {
                assert(first_outside(ps, root@, nl + j) == nl + j);
                assert(removal_views(steps@) =~= before.push(steps@.last()@));
                assert(removal_views(steps@) =~= removal_plan(*m, home@));
            }
            return steps;
        }
        let ghost before = removal_views(steps@);
        steps.push(RemovalStep::RemoveFile(p.clone()));
        proof {
            assert(removal_views(steps@) =~= before.push(RemovalView::RemoveFile(ps[nl + j])));
            assert(ps.take(nl + j + 1) == ps.take(nl + j).push(ps[nl + j]));
            assert(remove_files(ps.take(nl + j + 1)) =~= remove_files(ps.take(nl + j)).push(
                RemovalView::RemoveFile(ps[nl + j]),
            ));
        }
        j = j + 1;
    }
    proof {
        assert(ps.take(ps.len() as int) == ps);
        assert(first_outside(ps, root@, ps.len() as int) == ps.len());
    }
    let ghost head = removal_views(steps@);
    let under = path_is_under_root(m.staging_dir.as_str(), root.as_str());
    if under {
        steps.push(RemovalStep::RemoveDir(m.staging_dir.clone()));
    }
    let ghost mid = removal_views(steps@);
    proof {
        if under {
            assert(mid =~= head + seq![RemovalView::RemoveDir(m.staging_dir@)]);
        } else {
            assert(mid =~= head + Seq::<RemovalView>::empty());
        }
    }
    steps.push(RemovalStep::RemoveFile(manifest_path(home, m.ecosystem, m.id.as_str())));
    assert(removal_views(steps@) =~= mid.push(steps@.last()@));
    assert(removal_views(steps@) =~= removal_plan(*m, home@));
    steps
}

/// What carrying out one removal step does, once it is known whether its path
/// is there.
#[derive(Clone, Debug, PartialEq, Eq)]
pub enum RemovalAct {
    /// Nothing is there: nothing is counted or deleted.
    Skip,
    /// Count the path as removed and leave it be (a dry run).
    Count(String),
    /// Count the file (or link) as removed and delete it.
    DeleteFile(String),
    /// Count the directory as removed and delete it with everything in it.
    DeleteDir(String),
    /// Stop with this error.
    Stop(OilError),
}

pub enum ActView {
    Skip,
    Count(Seq<char>),
    DeleteFile(Seq<char>),
    DeleteDir(Seq<char>),
    Stop(ErrorView),
}

impl View for RemovalAct {
    type V = ActView;

    open spec fn view(&self) -> ActView {
        match self {
            RemovalAct::Skip => ActView::Skip,
            RemovalAct::Count(p) => ActView::Count(p@),
            RemovalAct::DeleteFile(p) => ActView::DeleteFile(p@),
            RemovalAct::DeleteDir(p) => ActView::DeleteDir(p@),
            RemovalAct::Stop(e) => ActView::Stop(e@),
        }
    }
}

/// The act for the step `s` when its path is (`present`) or is not there:
/// a path that is there is counted, and deleted unless this is a dry run.
pub open spec fn act_spec(s: RemovalView, present: bool, dry_run: bool) -> ActView {
    match s {
        RemovalView::Refuse(e) => ActView::Stop(e),
        RemovalView::RemoveFile(p) => if !present {
            ActView::Skip
        } else if dry_run {
            ActView::Count(p)
        } else {
            ActView::DeleteFile(p)
        },
        RemovalView::RemoveDir(p) => if !present {
            ActView::Skip
        } else if dry_run {
            ActView::Count(p)
        } else {
            ActView::DeleteDir(p)
        },
    }
}

/// Decide what to do for one removal step; `present` tells whether its path
/// is there (for a file, whether it exists or is a link).
pub fn removal_act(step: RemovalStep, present: bool, dry_run: bool) -> (r: RemovalAct)
    ensures
        r@ == act_spec(step@, present, dry_run),
{
    match step {
        RemovalStep::Refuse(e) => RemovalAct::Stop(e),
        RemovalStep::RemoveFile(p) => if !present {
            RemovalAct::Skip
        } else if dry_run {
            RemovalAct::Count(p)
        } else {
            RemovalAct::DeleteFile(p)
        },
        RemovalStep::RemoveDir(p) => if !present {
            RemovalAct::Skip
        } else if dry_run {
            RemovalAct::Count(p)
        } else {
            RemovalAct::DeleteDir(p)
        },
    }
}

/// The acts for the steps of `plan`, the `i`th step's path being there
/// exactly when `present[i]`.
pub open spec fn plan_acts(plan: Seq<RemovalView>, present: Seq<bool>, dry_run: bool) -> Seq<ActView> {
    Seq::new(plan.len(), |i: int| act_spec(plan[i], present[i], dry_run))
}

/// The act deletes something.
pub open spec fn deletes(a: ActView) -> bool {
    a is DeleteFile || a is DeleteDir
}

/// What a run of `acts` reports: the paths counted as removed, in order, or
/// the error it stops with.
pub open spec fn reported(acts: Seq<ActView>) -> Result<Seq<Seq<char>>, ErrorView>
    decreases acts.len(),
{
    if acts.len() == 0 {
        Ok(seq![])
    } else {
        let rest = reported(acts.drop_first());
        match acts[0] {
            ActView::Stop(e) => Err(e),
            ActView::Skip => rest,
            ActView::Count(p) | ActView::DeleteFile(p) | ActView::DeleteDir(p) => match rest {
                Ok(l) => Ok(seq![p] + l),
                Err(e) => Err(e),
            },
        }
    }
}

/// Two acts that count the same path, or skip, or stop with the same error.
spec fn same_report(a: ActView, b: ActView) -> bool {
    match (a, b) {
        (ActView::Skip, ActView::Skip) => true,
        (ActView::Stop(e1), ActView::Stop(e2)) => e1 == e2,
        (ActView::Count(p), ActView::DeleteFile(q)) => p == q,
        (ActView::Count(p), ActView::DeleteDir(q)) => p == q,
        _ => false,
    }
}

proof fn lemma_same_reported(a: Seq<ActView>, b: Seq<ActView>)
    requires
        a.len() == b.len(),
        forall|i: int| 0 <= i < a.len() ==> same_report(#[trigger] a[i], b[i]),
    ensures
        reported(a) == reported(b),
    decreases a.len(),
{
    if a.len() > 0 {
        assert forall|i: int| 0 <= i < a.drop_first().len() implies same_report(
            #[trigger] a.drop_first()[i],
            b.drop_first()[i],
        ) by {
            assert(same_report(a[i + 1], b[i + 1]));
        }
        lemma_same_reported(a.drop_first(), b.drop_first());
        assert(same_report(a[0], b[0]));
    }
}

/// A dry run changes nothing and reports what a real run removes: with the
/// same answers to whether each step's path is there, no act of a dry run
/// deletes anything, and both runs report the same paths, in the same order
/// (or stop with the same error).
pub proof fn law_dry_run_reports_removal(plan: Seq<RemovalView>, present: Seq<bool>)
    requires
        present.len() == plan.len(),
    ensures
        forall|i: int| 0 <= i < plan.len() ==> !deletes(#[trigger] plan_acts(plan, present, true)[i]),
        reported(plan_acts(plan, present, true)) == reported(plan_acts(plan, present, false)),
{
    let d = plan_acts(plan, present, true);
    let r = plan_acts(plan, present, false);
    assert forall|i: int| 0 <= i < d.len() implies same_report(#[trigger] d[i], r[i]) by {}
    lemma_same_reported(d, r);
}

proof fn lemma_first_outside(ps: Seq<Seq<char>>, root: Seq<char>, k: int, i: int)
    requires
        0 <= k <= i < first_outside(ps, root, k),
        first_outside(ps, root, k) <= ps.len(),
    ensures
        path_starts_with_spec(ps[i], root),
    decreases ps.len() - k,
{
    if k < ps.len() && path_starts_with_spec(ps[k], root) && k < i {
        lemma_first_outside(ps, root, k + 1, i);
    }
}

proof fn lemma_first_outside_bound(ps: Seq<Seq<char>>, root: Seq<char>, k: int)
    requires
        0 <= k <= ps.len(),
    ensures
        k <= first_outside(ps, root, k) <= ps.len(),
    decreases ps.len() - k,
{
    if k < ps.len() && path_starts_with_spec(ps[k], root) {
        lemma_first_outside_bound(ps, root, k + 1);
    }
}

/// The record file lies under wax's directory.
proof fn lemma_record_under_root(home: Seq<char>, ecosystem: Ecosystem, id: Seq<char>)
    ensures
        path_starts_with_spec(manifest_path_spec(home, ecosystem, id), root_spec(home)),
{
    reveal_strlit("windows");
    reveal_strlit("manifests");
    reveal_strlit("wax");
    reveal_strlit("brew");
    reveal_strlit("scoop");
    reveal_strlit("winget");
    reveal_strlit("choco");
    let root = root_spec(home);
    let w = join_spec(root, "windows"@);
    let md = join_spec(w, "manifests"@);
    let name = label_spec(ecosystem) + "-"@ + id.map_values(|c: char| safe_id_char(c)) + ".json"@;
    assert("windows"@[0] == 'w');
    assert("manifests"@[0] == 'm');
    assert(name[0] == label_spec(ecosystem)[0]);
    assert(label_spec(ecosystem)[0] != '/');
    assert(root.len() > 0) by {
        lemma_join_components(join_spec(home, ".local"@), "wax"@);
        assert("wax"@.len() == 3);
    }
    lemma_join_components(root, "windows"@);
    assert(w.len() > 0);
    lemma_join_components(w, "manifests"@);
    assert(md.len() > 0);
    lemma_join_components(md, name);
    let cr = components(root);
    let cf = components(join_spec(md, name));
    assert(cf =~= cr + (comps_from("windows"@, 0) + comps_from("manifests"@, 0) + comps_from(name, 0)));
    assert(cf.take(cr.len() as int) =~= cr);
}

/// Removing a record deletes only what lies under wax's directory: every
/// file and directory the removal plan deletes is under the root, since an
/// owned path outside it stops the removal.
pub proof fn law_removal_stays_in_root(m: WindowsPackageManifest, home: Seq<char>, i: int)
    requires
        0 <= i < removal_plan(m, home).len(),
    ensures
        removal_plan(m, home)[i] matches RemovalView::RemoveFile(p) ==> path_starts_with_spec(
            p,
            root_spec(home),
        ),
        removal_plan(m, home)[i] matches RemovalView::RemoveDir(p) ==> path_starts_with_spec(
            p,
            root_spec(home),
        ),
{
    let root = root_spec(home);
    let ps = owned_paths(m);
    let k = first_outside(ps, root, 0);
    lemma_first_outside_bound(ps, root, 0);
    let plan = removal_plan(m, home);
    if k < ps.len() {
        if i < k {
            assert(plan[i] == RemovalView::RemoveFile(ps.take(k)[i]));
            lemma_first_outside(ps, root, 0, i);
        }
    } else {
        let head = remove_files(ps);
        if i < ps.len() {
            assert(plan[i] == head[i]);
            lemma_first_outside(ps, root, 0, i);
        } else if i == plan.len() - 1 {
            lemma_record_under_root(home, m.ecosystem, m.id@);
        }
    }
}

} // verus!

//! Unpacking downloaded packages: which extractor a package file needs, which
//! archive members are safe to write, how an RPM is unpacked with the tools at
//! hand, and what an extraction added to the install root.
use vstd::prelude::*;

use crate::error::{ErrorView, OilError};
use crate::path::{comp_views, comps_exec, comps_from, path_eq, path_equal, sort_paths, sort_paths_spec};
use crate::text::{chars_of, copy_range, owned, push_str, starts_with, string_range, trim, trim_string};

verus! {

// ---------------------------------------------------------------------------
// Package formats
// ---------------------------------------------------------------------------
/// The archive formats oil can unpack.
#[derive(Clone, Copy, Debug, PartialEq, Eq, Structural)]
pub enum PackageFormat {
    /// `.deb` (Debian) and `.ipk` (opkg).
    Deb,
    /// `.pkg.tar.zst`, `.pkg.tar.xz`, `.pkg.tar.gz` (pacman).
    Pacman,
    /// `.apk` (Alpine).
    Apk,
    /// `.rpm`.
    Rpm,
    /// `.xbps` (Void).
    Xbps,
    /// `.nar`, `.nar.zst` (Nix).
    Nar,
}

/// `s` ends with `t`.
pub open spec fn ends_with(s: Seq<char>, t: Seq<char>) -> bool {
    t.len() <= s.len() && s.skip(s.len() - t.len()) == t
}

/// The format a package file name announces, checked in this order.
pub open spec fn format_spec(name: Seq<char>) -> Option<PackageFormat> {
    if ends_with(name, ".deb"@) || ends_with(name, ".ipk"@) {
        Some(PackageFormat::Deb)
    } else if ends_with(name, ".pkg.tar.zst"@) || ends_with(name, ".pkg.tar.xz"@) || ends_with(
        name,
        ".pkg.tar.gz"@,
    ) {
        Some(PackageFormat::Pacman)
    } else if ends_with(name, ".apk"@) {
        Some(PackageFormat::Apk)
    } else if ends_with(name, ".rpm"@) {
        Some(PackageFormat::Rpm)
    } else if ends_with(name, ".xbps"@) {
        Some(PackageFormat::Xbps)
    } else if ends_with(name, ".nar"@) || ends_with(name, ".nar.zst"@) {
        Some(PackageFormat::Nar)
    } else {
        None
    }
}

/// A name ending with `t` does not end with `u` when the two differ `k`
/// characters from their ends.
proof fn lemma_not_suffix(name: Seq<char>, t: Seq<char>, u: Seq<char>, k: int)
    requires
        ends_with(name, t),
        1 <= k <= t.len(),
        k <= u.len(),
        t[t.len() - k] != u[u.len() - k],
    ensures
        !ends_with(name, u),
{
    assert(name.skip(name.len() - t.len())[t.len() - k] == name[name.len() - k]);
    if ends_with(name, u) {
        assert(name.skip(name.len() - u.len())[u.len() - k] == name[name.len() - k]);
    }
}

/// A package file's name decides its format by its suffix: `.deb` and `.ipk`
/// are Debian packages, `.pkg.tar.zst`, `.pkg.tar.xz` and `.pkg.tar.gz`
/// pacman packages, `.apk` Alpine, `.rpm` RPM, `.xbps` Void, and `.nar` and
/// `.nar.zst` Nix archives; no two of these suffixes compete for one name.
pub proof fn law_format_by_suffix(name: Seq<char>)
    ensures
        ends_with(name, ".deb"@) || ends_with(name, ".ipk"@) ==> format_spec(name) == Some(
            PackageFormat::Deb,
        ),
        ends_with(name, ".pkg.tar.zst"@) || ends_with(name, ".pkg.tar.xz"@) || ends_with(
            name,
            ".pkg.tar.gz"@,
        ) ==> format_spec(name) == Some(PackageFormat::Pacman),
        ends_with(name, ".apk"@) ==> format_spec(name) == Some(PackageFormat::Apk),
        ends_with(name, ".rpm"@) ==> format_spec(name) == Some(PackageFormat::Rpm),
        ends_with(name, ".xbps"@) ==> format_spec(name) == Some(PackageFormat::Xbps),
        ends_with(name, ".nar"@) || ends_with(name, ".nar.zst"@) ==> format_spec(name) == Some(
            PackageFormat::Nar,
        ),
{
    reveal_strlit(".deb");
    reveal_strlit(".ipk");
    reveal_strlit(".pkg.tar.zst");
    reveal_strlit(".pkg.tar.xz");
    reveal_strlit(".pkg.tar.gz");
    reveal_strlit(".apk");
    reveal_strlit(".rpm");
    reveal_strlit(".xbps");
    reveal_strlit(".nar");
    reveal_strlit(".nar.zst");
    let deb = ".deb"@;
    let ipk = ".ipk"@;
    let zst = ".pkg.tar.zst"@;
    let xz = ".pkg.tar.xz"@;
    let gz = ".pkg.tar.gz"@;
    let apk = ".apk"@;
    let rpm = ".rpm"@;
    let xbps = ".xbps"@;
    let nar = ".nar"@;
    let narz = ".nar.zst"@;
    // each suffix is told apart from those checked before it by its last
    // letters
    if ends_with(name, zst) {
        lemma_not_suffix(name, zst, deb, 1);
        lemma_not_suffix(name, zst, ipk, 1);
    }
    if ends_with(name, xz) {
        lemma_not_suffix(name, xz, deb, 1);
        lemma_not_suffix(name, xz, ipk, 1);
    }
    if ends_with(name, gz) {
        lemma_not_suffix(name, gz, deb, 1);
        lemma_not_suffix(name, gz, ipk, 1);
    }
    if ends_with(name, apk) {
        lemma_not_suffix(name, apk, deb, 1);
        lemma_not_suffix(name, apk, ipk, 3);
        lemma_not_suffix(name, apk, zst, 1);
        lemma_not_suffix(name, apk, xz, 1);
        lemma_not_suffix(name, apk, gz, 1);
    }
    if ends_with(name, rpm) {
        lemma_not_suffix(name, rpm, deb, 1);
        lemma_not_suffix(name, rpm, ipk, 1);
        lemma_not_suffix(name, rpm, zst, 1);
        lemma_not_suffix(name, rpm, xz, 1);
        lemma_not_suffix(name, rpm, gz, 1);
        lemma_not_suffix(name, rpm, apk, 1);
    }
    if ends_with(name, xbps) {
        lemma_not_suffix(name, xbps, deb, 1);
        lemma_not_suffix(name, xbps, ipk, 1);
        lemma_not_suffix(name, xbps, zst, 1);
        lemma_not_suffix(name, xbps, xz, 1);
        lemma_not_suffix(name, xbps, gz, 1);
        lemma_not_suffix(name, xbps, apk, 1);
        lemma_not_suffix(name, xbps, rpm, 1);
    }
    if ends_with(name, nar) {
        lemma_not_suffix(name, nar, deb, 1);
        lemma_not_suffix(name, nar, ipk, 1);
        lemma_not_suffix(name, nar, zst, 1);
        lemma_not_suffix(name, nar, xz, 1);
        lemma_not_suffix(name, nar, gz, 1);
        lemma_not_suffix(name, nar, apk, 1);
        lemma_not_suffix(name, nar, rpm, 1);
        lemma_not_suffix(name, nar, xbps, 1);
    }
    if ends_with(name, narz) {
        lemma_not_suffix(name, narz, deb, 1);
        lemma_not_suffix(name, narz, ipk, 1);
        lemma_not_suffix(name, narz, zst, 7);
        lemma_not_suffix(name, narz, xz, 1);
        lemma_not_suffix(name, narz, gz, 1);
        lemma_not_suffix(name, narz, apk, 1);
        lemma_not_suffix(name, narz, rpm, 1);
        lemma_not_suffix(name, narz, xbps, 1);
    }
}

fn str_ends_with(s: &[char], t: &str) -> (r: bool)
    ensures
        r == ends_with(s@, t@),
{
    let tv = chars_of(t);
    if tv.len() > s.len() {
        return false;
    }
    let off = s.len() - tv.len();
    let m = crate::text::matches_at(s, off, tv.as_slice());
    assert(s@.subrange(off as int, off + tv@.len()) == s@.skip(off as int));
    m
}

/// Tracked extraction of the package file `path` starts by choosing its
/// extractor from the name: refused for a name no format announces.
pub fn extract_package_tracked(path: &str) -> (r: Result<PackageFormat, OilError>)
    ensures
        match format_spec(path@) {
            Some(f) => r == Ok::<PackageFormat, OilError>(f),
            None => r matches Err(e) && e@ == ErrorView::Install("unknown package format: "@ + path@),
        },
{
    let n = chars_of(path);
    let s = n.as_slice();
    if str_ends_with(s, ".deb") || str_ends_with(s, ".ipk") {
        Ok(PackageFormat::Deb)
    } else if str_ends_with(s, ".pkg.tar.zst") || str_ends_with(s, ".pkg.tar.xz") || str_ends_with(
        s,
        ".pkg.tar.gz",
    ) {
        Ok(PackageFormat::Pacman)
    } else if str_ends_with(s, ".apk") {
        Ok(PackageFormat::Apk)
    } else if str_ends_with(s, ".rpm") {
        Ok(PackageFormat::Rpm)
    } else if str_ends_with(s, ".xbps") {
        Ok(PackageFormat::Xbps)
    } else if str_ends_with(s, ".nar") || str_ends_with(s, ".nar.zst") {
        Ok(PackageFormat::Nar)
    } else {
        let mut msg = owned("unknown package format: ");
        push_str(&mut msg, path);
        Err(OilError::InstallError(msg))
    }
}

// ---------------------------------------------------------------------------
// Archive members
// ---------------------------------------------------------------------------
/// The member name with a leading `./` removed.
pub open spec fn strip_dot_slash(entry: Seq<char>) -> Seq<char> {
    if starts_with(entry, "./"@) {
        entry.skip(2)
    } else {
        entry
    }
}

/// The relative path an archive member may be written at under the
/// destination: refused when empty, `.`, absolute, or when any component is
/// `..`, so that it cannot escape the destination.
pub open spec fn archive_rel_spec(entry: Seq<char>) -> Option<Seq<char>> {
    let s = strip_dot_slash(entry);
    if s.len() == 0 || s == seq!['.'] || s[0] == '/' || comps_from(s, 0).contains(seq!['.', '.']) {
        None
    } else {
        Some(s)
    }
}

/// See `archive_rel_spec`.
pub fn archive_rel_path(entry: &str) -> (r: Option<String>)
    ensures
        r.deep_view() == archive_rel_spec(entry@),
{
    proof {
        reveal_strlit("./");
    }
    let v = chars_of(entry);
    let start: usize = if v.len() >= 2 && v[0] == '.' && v[1] == '/' {
        2
    } else {
        0
    };
    proof {
        if start == 2 {
            assert(v@.take(2) =~= "./"@);
        } else if v@.len() >= 2 {
            assert(v@.take(2) != "./"@) by {
                assert(v@.take(2)[0] == v@[0]);
                assert(v@.take(2)[1] == v@[1]);
            }
        }
    }
    let s = copy_range(v.as_slice(), start, v.len());
    assert(s@ == strip_dot_slash(entry@));
    if s.len() == 0 || (s.len() == 1 && s[0] == '.') || s[0] == '/' {
        proof {
            if s@.len() == 1 && s@[0] == '.' {
                assert(s@ =~= seq!['.']);
            }
        }
        return None;
    }
    assert(s@ != seq!['.']) by {
        if s@ == seq!['.'] {
            assert(s@.len() == 1);
        }
    }
    let comps = comps_exec(s.as_slice());
    let ghost cv = comp_views(comps@);
    proof {
        assert(s@.len() > 0 && s@[0] != '/');
        assert(!(s@[0] == '.' && (s@.len() == 1 || s@[1] == '/')) ==> cv == comps_from(s@, 0));
    }
    let mut k: usize = 0;
    while k < comps.len()
        invariant
            k <= comps@.len(),
            cv == comp_views(comps@),
            cv == crate::path::components(s@),
            s@.len() > 0,
            s@[0] != '/',
            s@ == strip_dot_slash(entry@),
            s@ != seq!['.'],
            forall|j: int| 0 <= j < k ==> cv[j] != seq!['.', '.'],
        decreases comps@.len() - k,
    {
        let c = &comps[k];
        if c.len() == 2 && c[0] == '.' && c[1] == '.' {
            assert(cv[k as int] =~= seq!['.', '.']);
            proof {
                lemma_dotdot_in(s@, cv, k as int);
            }
            return None;
        }
        assert(cv[k as int] != seq!['.', '.']) by {
            if cv[k as int] == seq!['.', '.'] {
                assert(c@.len() == 2);
            }
        }
        k = k + 1;
    }
    proof {
        lemma_no_dotdot(s@, cv);
    }
    Some(string_range(s.as_slice(), 0, s.len()))
}

/// The components of a relative path, as `Path::components` lists them,
/// hold `..` exactly when its normal pieces do.
proof fn lemma_dotdot_in(s: Seq<char>, cv: Seq<Seq<char>>, k: int)
    requires
        cv == crate::path::components(s),
        0 <= k < cv.len(),
        cv[k] == seq!['.', '.'],
        s.len() > 0,
        s[0] != '/',
    ensures
        comps_from(s, 0).contains(seq!['.', '.']),
{
    if s[0] == '.' && (s.len() == 1 || s[1] == '/') {
        assert(cv == seq![seq!['.']] + comps_from(s, 0));
        assert(k > 0) by {
            if k == 0 {
                assert(cv[0] == seq!['.']);
                assert(seq!['.'].len() == 1);
            }
        }
        assert(comps_from(s, 0)[k - 1] == cv[k]);
    } else {
        assert(cv == comps_from(s, 0));
        assert(comps_from(s, 0)[k] == cv[k]);
    }
}

proof fn lemma_no_dotdot(s: Seq<char>, cv: Seq<Seq<char>>)
    requires
        cv == crate::path::components(s),
        forall|j: int| 0 <= j < cv.len() ==> cv[j] != seq!['.', '.'],
        s.len() > 0,
        s[0] != '/',
    ensures
        !comps_from(s, 0).contains(seq!['.', '.']),
{
    if s[0] == '.' && (s.len() == 1 || s[1] == '/') {
        assert(cv == seq![seq!['.']] + comps_from(s, 0));
        assert forall|j: int| 0 <= j < comps_from(s, 0).len() implies comps_from(s, 0)[j] != seq![
            '.',
            '.',
        ] by {
            assert(cv[j + 1] == comps_from(s, 0)[j]);
        }
    } else {
        assert(cv == comps_from(s, 0));
    }
}

/// A member path that is accepted cannot leave the destination: it is not
/// empty, not `.`, not absolute, and none of its components is `..`.
pub proof fn law_archive_rel_path_stays_inside(entry: Seq<char>)
    ensures
        archive_rel_spec(entry) matches Some(s) ==> {
            &&& s.len() > 0
            &&& s != seq!['.']
            &&& s[0] != '/'
            &&& forall|i: int| 0 <= i < comps_from(s, 0).len() ==> #[trigger] comps_from(s, 0)[i] != seq!['.', '.']
        },
{
    if let Some(s) = archive_rel_spec(entry) {
        assert forall|i: int| 0 <= i < comps_from(s, 0).len() implies #[trigger] comps_from(s, 0)[i] != seq!['.', '.'] by {
            if comps_from(s, 0)[i] == seq!['.', '.'] {
                assert(comps_from(s, 0).contains(seq!['.', '.']));
            }
        }
    }
}

// ---------------------------------------------------------------------------
// RPM packages
// ---------------------------------------------------------------------------
/// The tool chains an RPM can be unpacked with, in order of preference.
#[derive(Clone, Copy, Debug, PartialEq, Eq, Structural)]
pub enum RpmTool {
    /// `rpm2cpio <pkg> | cpio -idm --no-absolute-filenames`.
    Rpm2Cpio,
    /// `bsdtar -xf <pkg>` (libarchive reads RPMs).
    Bsdtar,
    /// `rpm2archive <pkg> | tar -xzf -`.
    Rpm2Archive,
}

/// Which tools are on PATH.
#[derive(Clone, Copy, Debug, PartialEq, Eq, Structural)]
pub struct RpmTools {
    pub rpm2cpio: bool,
    pub cpio: bool,
    pub bsdtar: bool,
    pub rpm2archive: bool,
    pub tar: bool,
}

pub open spec fn no_rpm_tool_message(package: Seq<char>) -> Seq<char> {
    "RPM extraction requires one of the following tool chains:\n• rpm2cpio + cpio   (install on Fedora/RHEL: rpm-cpio / cpio)\n• bsdtar            (install on Debian/Ubuntu: libarchive-tools)\n• rpm2archive + tar (install on Fedora/RHEL: rpm)\nPackage: "@
        + package
}

/// Pick the tool chain for unpacking the RPM `package` (its path as shown to
/// the user) from the tools present.
pub fn choose_rpm_tool(tools: RpmTools, package: &str) -> (r: Result<RpmTool, OilError>)
    ensures
        tools.rpm2cpio && tools.cpio ==> r == Ok::<RpmTool, OilError>(RpmTool::Rpm2Cpio),
        !(tools.rpm2cpio && tools.cpio) && tools.bsdtar ==> r == Ok::<RpmTool, OilError>(
            RpmTool::Bsdtar,
        ),
        !(tools.rpm2cpio && tools.cpio) && !tools.bsdtar && tools.rpm2archive && tools.tar ==> r
            == Ok::<RpmTool, OilError>(RpmTool::Rpm2Archive),
        !(tools.rpm2cpio && tools.cpio) && !tools.bsdtar && !(tools.rpm2archive && tools.tar) ==> (r matches Err(
            e,
        ) && e@ == ErrorView::Install(no_rpm_tool_message(package@))),
{
    if tools.rpm2cpio && tools.cpio {
        Ok(RpmTool::Rpm2Cpio)
    } else if tools.bsdtar {
        Ok(RpmTool::Bsdtar)
    } else if tools.rpm2archive && tools.tar {
        Ok(RpmTool::Rpm2Archive)
    } else {
        let mut msg = owned(
            "RPM extraction requires one of the following tool chains:\n• rpm2cpio + cpio   (install on Fedora/RHEL: rpm-cpio / cpio)\n• bsdtar            (install on Debian/Ubuntu: libarchive-tools)\n• rpm2archive + tar (install on Fedora/RHEL: rpm)\nPackage: ",
        );
        push_str(&mut msg, package);
        Err(OilError::InstallError(msg))
    }
}

/// A step of a tool chain that ran: `Ok` when it exited successfully,
/// otherwise `<tool> failed: <its error output, trimmed>`.
pub fn tool_outcome(tool: &str, success: bool, stderr: &str) -> (r: Result<(), OilError>)
    ensures
        success ==> r is Ok,
        !success ==> (r matches Err(e) && e@ == ErrorView::Install(
            tool@ + " failed: "@ + trim(stderr@),
        )),
{
    if success {
        Ok(())
    } else {
        let mut msg = owned(tool);
        push_str(&mut msg, " failed: ");
        let t = trim_string(stderr);
        push_str(&mut msg, t.as_str());
        Err(OilError::InstallError(msg))
    }
}

/// The outcome of `rpm2archive | tar`: a failure of `rpm2archive` is
/// reported before one of `tar`.
pub fn extract_with_rpm2archive(
    archive_ok: bool,
    archive_stderr: &str,
    tar_ok: bool,
    tar_stderr: &str,
) -> (r: Result<(), OilError>)
    ensures
        !archive_ok ==> (r matches Err(e) && e@ == ErrorView::Install(
            "rpm2archive"@ + " failed: "@ + trim(archive_stderr@),
        )),
        archive_ok && !tar_ok ==> (r matches Err(e) && e@ == ErrorView::Install(
            "tar"@ + " failed: "@ + trim(tar_stderr@),
        )),
        archive_ok && tar_ok ==> r is Ok,
{
    match tool_outcome("rpm2archive", archive_ok, archive_stderr) {
        Err(e) => Err(e),
        Ok(()) => tool_outcome("tar", tar_ok, tar_stderr),
    }
}

// ---------------------------------------------------------------------------
// What an extraction added
// ---------------------------------------------------------------------------
/// Is what an extraction into `dest_dir` adds worth tracking? Not for the
/// file-system root.
pub fn tracks_changes(dest_dir: &str) -> (r: bool)
    ensures
        r == !path_eq(dest_dir@, "/"@),
{
    !path_equal(dest_dir, "/")
}

/// `p` is among the paths of `before`, as `Path`s compare.
pub open spec fn seen_before(before: Seq<Seq<char>>, p: Seq<char>) -> bool {
    exists|k: int| 0 <= k < before.len() && path_eq(#[trigger] before[k], p)
}

/// The paths of `after` (path, is a directory) not in `before`, of the kind
/// asked for, in `after`'s order.
pub open spec fn new_paths(before: Seq<Seq<char>>, after: Seq<(Seq<char>, bool)>, dirs: bool) -> Seq<
    Seq<char>,
>
    decreases after.len(),
{
    if after.len() == 0 {
        seq![]
    } else {
        let rest = new_paths(before, after.drop_last(), dirs);
        let (p, d) = after.last();
        if d == dirs && !seen_before(before, p) {
            rest.push(p)
        } else {
            rest
        }
    }
}

pub open spec fn entry_views(v: Seq<(String, bool)>) -> Seq<(Seq<char>, bool)> {
    v.map_values(|e: (String, bool)| (e.0@, e.1))
}

fn is_seen(before: &[String], p: &str) -> (r: bool)
    ensures
        r == seen_before(before.deep_view(), p@),
{
    let mut k: usize = 0;
    while k < before.len()
        invariant
            k <= before@.len(),
            forall|j: int| 0 <= j < k ==> !path_eq(#[trigger] before.deep_view()[j], p@),
        decreases before@.len() - k,
    {
        if path_equal(before[k].as_str(), p) {
            assert(before.deep_view()[k as int] == before@[k as int]@);
            return true;
        }
        k = k + 1;
    }
    false
}

/// What an extraction added, from the tree under the destination before
/// (`before`) and after (`after`, each path with whether it is a directory):
/// the new files (and links) and the new directories, each sorted in `Path`
/// order.
pub fn extract_tracked(before: &[String], after: &[(String, bool)]) -> (r: (Vec<String>, Vec<String>))
    ensures
        r.0.deep_view() == sort_paths_spec(new_paths(before.deep_view(), entry_views(after@), false)),
        r.1.deep_view() == sort_paths_spec(new_paths(before.deep_view(), entry_views(after@), true)),
{
    let ghost av = entry_views(after@);
    let mut files: Vec<String> = Vec::new();
    let mut dirs: Vec<String> = Vec::new();
    let mut i: usize = 0;
    while i < after.len()
        invariant
            i <= after@.len(),
            av == entry_views(after@),
            files.deep_view() == new_paths(before.deep_view(), av.take(i as int), false),
            dirs.deep_view() == new_paths(before.deep_view(), av.take(i as int), true),
        decreases after@.len() - i,
    {
        let (p, d) = &after[i];
        proof {
            assert(av.take(i + 1).drop_last() == av.take(i as int));
            assert(av.take(i + 1).last() == (p@, *d));
        }
        if !is_seen(before, p.as_str()) {
            if *d {
                dirs.push(p.clone());
                assert(dirs.deep_view() =~= new_paths(before.deep_view(), av.take(i + 1), true));
            } else {
                files.push(p.clone());
                assert(files.deep_view() =~= new_paths(before.deep_view(), av.take(i + 1), false));
            }
        }
        i = i + 1;
    }
    proof {
        assert(av.take(after@.len() as int) == av);
    }
    (sort_paths(files), sort_paths(dirs))
}

} // verus!

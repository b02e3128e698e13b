//! Package metadata shared by the system registries, and lookups over an index.
use vstd::prelude::*;

use crate::text::{chars_of, is_ascii_alnum, owned, push_char, push_str, scan_fwd, skip_fwd, string_range, trim_hi, trim_lo, trim_range, CharClass};

pub mod eopkg;
pub mod opkg;
pub mod flatpak;
pub mod snap;

verus! {

/// One package as a distribution registry describes it.
#[derive(Clone, Debug, PartialEq, Eq)]
pub struct PackageMetadata {
    pub name: String,
    pub version: String,
    pub description: String,
    pub download_url: String,
    pub sha256: Option<String>,
    pub installed_size: u64,
    /// Raw dependency entries, e.g. `libc6 (>= 2.35)` or `libc.so.6()(64bit)`.
    pub depends: Vec<String>,
    /// Raw virtual names this package provides.
    pub provides: Vec<String>,
}

/// All packages of a registry, in the registry's order.
#[derive(Clone, Debug, PartialEq, Eq)]
pub struct PackageIndex {
    pub packages: Vec<PackageMetadata>,
}

/// Whether `char::is_alphanumeric` holds of `c` (Unicode `Alphabetic` or `Numeric`).
pub uninterp spec fn unicode_alphanumeric(c: char) -> bool;

/// `char::is_alphanumeric` from std. For ASCII characters it holds exactly of
/// the letters and digits, as std documents; beyond ASCII the Unicode tables
/// decide, which is not stated here.
#[verifier::external_body]
pub(crate) fn is_alphanumeric(c: char) -> (r: bool)
    ensures
        r == unicode_alphanumeric(c),
        (c as u32) < 128 ==> (r == is_ascii_alnum(c)),
{
    c.is_alphanumeric()
}

/// `c` kept in a cache file name: alphanumeric characters stay, others become `-`.
pub open spec fn safe_char(c: char) -> char {
    if unicode_alphanumeric(c) {
        c
    } else {
        '-'
    }
}

/// The name of the file a registry caches its parsed index in:
/// `<kind>-<safe a>-<safe b>.json`, where `a` and `b` identify the repository.
pub open spec fn cache_file_spec(kind: Seq<char>, a: Seq<char>, b: Seq<char>) -> Seq<char> {
    kind + "-"@ + (a + "-"@ + b).map_values(|c: char| safe_char(c)) + ".json"@
}

fn push_safe(r: &mut String, s: &str)
    ensures
        final(r)@ == old(r)@ + s@.map_values(|c: char| safe_char(c)),
{
    let v = chars_of(s);
    let ghost start = r@;
    let mut i: usize = 0;
    while i < v.len()
        invariant
            i <= v@.len(),
            v@ == s@,
            r@ == start + v@.take(i as int).map_values(|c: char| safe_char(c)),
        decreases v@.len() - i,
    {
        let c = v[i];
        if is_alphanumeric(c) {
            push_char(r, c);
        } else {
            push_char(r, '-');
        }
        assert(v@.take(i + 1).map_values(|c: char| safe_char(c)) =~= v@.take(i as int).map_values(
            |c: char| safe_char(c),
        ).push(safe_char(c)));
        i = i + 1;
    }
    assert(v@.take(v@.len() as int) == v@);
}

/// `cache_file_spec` as a string.
pub fn cache_file_name(kind: &str, a: &str, b: &str) -> (r: String)
    ensures
        r@ == cache_file_spec(kind@, a@, b@),
{
    let mut r = owned(kind);
    push_str(&mut r, "-");
    push_safe(&mut r, a);
    push_char(&mut r, '-');
    push_safe(&mut r, b);
    push_str(&mut r, ".json");
    proof {
        reveal_strlit("-");
        assert((a@ + "-"@ + b@).map_values(|c: char| safe_char(c)) =~= a@.map_values(
            |c: char| safe_char(c),
        ).push('-') + b@.map_values(|c: char| safe_char(c)));
    }
    r
}

/// The package name a dependency entry names: its first `|` alternative, with
/// surrounding white space removed, cut before any white space or version
/// operator (`<`, `>`, `=`).
pub open spec fn dep_name(s: Seq<char>) -> Seq<char> {
    let bar = skip_fwd(s, 0, s.len() as int, CharClass::Is('|'), false);
    let a = trim_lo(s, 0, bar);
    let b = trim_hi(s, 0, bar);
    s.subrange(a, skip_fwd(s, a, b, CharClass::DepStop, false))
}

/// Extract the package name from a dependency entry (see `dep_name`).
pub fn parse_dep_name(dep: &str) -> (r: String)
    ensures
        r@ == dep_name(dep@),
{
    let s = chars_of(dep);
    let bar = scan_fwd(s.as_slice(), 0, s.len(), CharClass::Is('|'), false);
    let (a, b) = trim_range(s.as_slice(), 0, bar);
    let c = scan_fwd(s.as_slice(), a, b, CharClass::DepStop, false);
    string_range(s.as_slice(), a, c)
}

/// Does one of the `provides` entries name `n`?
pub open spec fn provides_name(ps: Seq<String>, n: Seq<char>) -> bool {
    exists|k: int| 0 <= k < ps.len() && #[trigger] dep_name(ps[k]@) == n
}

/// First position at or after `i` of a package called `n`; `pkgs.len()` if none.
pub open spec fn name_pos(pkgs: Seq<PackageMetadata>, n: Seq<char>, i: int) -> int
    decreases pkgs.len() - i,
{
    if i < 0 || i >= pkgs.len() {
        pkgs.len() as int
    } else if pkgs[i].name@ == n {
        i
    } else {
        name_pos(pkgs, n, i + 1)
    }
}

/// First position at or after `i` of a package that provides `n`; `pkgs.len()` if none.
pub open spec fn provider_pos(pkgs: Seq<PackageMetadata>, n: Seq<char>, i: int) -> int
    decreases pkgs.len() - i,
{
    if i < 0 || i >= pkgs.len() {
        pkgs.len() as int
    } else if provides_name(pkgs[i].provides@, n) {
        i
    } else {
        provider_pos(pkgs, n, i + 1)
    }
}

/// Where `n` is found: the first package of that name, else the first package
/// that provides it; `pkgs.len()` if neither exists.
pub open spec fn find_pos(pkgs: Seq<PackageMetadata>, n: Seq<char>) -> int {
    if name_pos(pkgs, n, 0) < pkgs.len() {
        name_pos(pkgs, n, 0)
    } else {
        provider_pos(pkgs, n, 0)
    }
}

/// The package `n` resolves to, if any.
pub open spec fn spec_find(pkgs: Seq<PackageMetadata>, n: Seq<char>) -> Option<PackageMetadata> {
    if 0 <= find_pos(pkgs, n) < pkgs.len() {
        Some(pkgs[find_pos(pkgs, n)])
    } else {
        None
    }
}

pub proof fn lemma_name_pos(pkgs: Seq<PackageMetadata>, n: Seq<char>, i: int)
    requires
        0 <= i <= pkgs.len(),
    ensures
        i <= name_pos(pkgs, n, i) <= pkgs.len(),
        name_pos(pkgs, n, i) < pkgs.len() ==> pkgs[name_pos(pkgs, n, i)].name@ == n,
    decreases pkgs.len() - i,
{
    if i < pkgs.len() && pkgs[i].name@ != n {
        lemma_name_pos(pkgs, n, i + 1);
    }
}

pub proof fn lemma_provider_pos(pkgs: Seq<PackageMetadata>, n: Seq<char>, i: int)
    requires
        0 <= i <= pkgs.len(),
    ensures
        i <= provider_pos(pkgs, n, i) <= pkgs.len(),
    decreases pkgs.len() - i,
{
    if i < pkgs.len() && !provides_name(pkgs[i].provides@, n) {
        lemma_provider_pos(pkgs, n, i + 1);
    }
}

pub proof fn lemma_find_pos(pkgs: Seq<PackageMetadata>, n: Seq<char>)
    ensures
        0 <= find_pos(pkgs, n) <= pkgs.len(),
        spec_find(pkgs, n) is Some <==> find_pos(pkgs, n) < pkgs.len(),
{
    lemma_name_pos(pkgs, n, 0);
    lemma_provider_pos(pkgs, n, 0);
}

/// Does some entry of `ps` name `target`?
fn provides_target(ps: &Vec<String>, target: &String) -> (b: bool)
    ensures
        b == provides_name(ps@, target@),
{
    let mut k: usize = 0;
    while k < ps.len()
        invariant
            k <= ps@.len(),
            forall|m: int| 0 <= m < k ==> #[trigger] dep_name(ps@[m]@) != target@,
        decreases ps@.len() - k,
    {
        let d = parse_dep_name(ps[k].as_str());
        if d == *target {
            return true;
        }
        k = k + 1;
    }
    false
}

impl PackageIndex {
    /// Position of the package `name` resolves to (see `find_pos`), if any.
    pub fn find_index(&self, name: &str) -> (r: Option<usize>)
        ensures
            match r {
                Some(i) => i == find_pos(self.packages@, name@) && i < self.packages@.len(),
                None => find_pos(self.packages@, name@) == self.packages@.len(),
            },
    {
        let target = owned(name);
        let n = self.packages.len();
        let mut i: usize = 0;
        while i < n
            invariant
                i <= n == self.packages@.len(),
                target@ == name@,
                name_pos(self.packages@, target@, 0) == name_pos(self.packages@, target@, i as int),
            decreases n - i,
        {
            if self.packages[i].name == target {
                assert(name_pos(self.packages@, target@, i as int) == i);
                return Some(i);
            }
            i = i + 1;
        }
        let mut j: usize = 0;
        while j < n
            invariant
                j <= n == self.packages@.len(),
                target@ == name@,
                name_pos(self.packages@, target@, 0) == n,
                provider_pos(self.packages@, target@, 0) == provider_pos(
                    self.packages@,
                    target@,
                    j as int,
                ),
            decreases n - j,
        {
            if provides_target(&self.packages[j].provides, &target) {
                assert(provider_pos(self.packages@, target@, j as int) == j);
                return Some(j);
            }
            j = j + 1;
        }
        None
    }

    /// The package `name` resolves to: the first package so named, else the
    /// first package providing it.
    pub fn find(&self, name: &str) -> (r: Option<&PackageMetadata>)
        ensures
            match r {
                Some(p) => spec_find(self.packages@, name@) == Some(*p),
                None => spec_find(self.packages@, name@) is None,
            },
    {
        proof {
            lemma_find_pos(self.packages@, name@);
        }
        match self.find_index(name) {
            Some(i) => Some(&self.packages[i]),
            None => None,
        }
    }
}

} // verus!

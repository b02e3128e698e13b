//! The host's native package manager: which one it is, the commands that drive
//! it, and how its search and listing output is read back.
use vstd::prelude::*;

use crate::order::{chars_eq, chars_lt, lemma_lt_irreflexive, lemma_lt_total, lemma_lt_transitive, seq_lt};
use crate::error::{ErrorView, OilError};
use crate::text::{
    owned, push_char, push_str, str_eq, chars_of, copy_range, find_pat, find_pattern, first_word, first_word_range, is_digit,
    in_class, is_ws, lemma_skip_bwd, lemma_skip_bwd_unique, lemma_skip_fwd, lemma_skip_fwd_unique, line_ranges, lines, matches_at, non_empty_range, non_empty_win,
    scan_bwd, scan_fwd, skip_bwd, skip_fwd, string_of, string_range, trim_hi, trim_lo, trim_range, CharClass,
};

verus! {

/// One hit of a package search.
#[derive(Debug, Clone, PartialEq, Eq)]
pub struct SystemSearchResult {
    pub name: String,
    pub version: Option<String>,
    pub summary: Option<String>,
}

/// A search hit as plain character sequences.
pub struct SearchHit {
    pub name: Seq<char>,
    pub version: Option<Seq<char>>,
    pub summary: Option<Seq<char>>,
}

impl View for SystemSearchResult {
    type V = SearchHit;

    open spec fn view(&self) -> SearchHit {
        SearchHit {
            name: self.name@,
            version: self.version.deep_view(),
            summary: self.summary.deep_view(),
        }
    }
}

/// A detected system package manager.
#[derive(Debug, Clone, Copy, PartialEq, Eq, Structural)]
pub enum SystemPm {
    Brew,
    Apt,
    Dnf,
    Pacman,
    Apk,
    Zypper,
    Emerge,
    Yum,
    Xbps,
    Nix,
}

pub open spec fn hit(name: Seq<char>, version: Option<Seq<char>>, summary: Option<Seq<char>>) -> SearchHit {
    SearchHit { name, version, summary }
}

pub open spec fn window(s: Seq<char>, w: (int, int)) -> Seq<char> {
    s.subrange(w.0, w.1)
}

// ---------------------------------------------------------------------------
// One line of search output
// ---------------------------------------------------------------------------
/// A plain listing: the first word is the name.
pub open spec fn plain_name_spec(l: Seq<char>) -> Option<SearchHit> {
    match first_word(l, 0, l.len() as int) {
        None => None,
        Some(w) => Some(hit(window(l, w), None, None)),
    }
}

/// `name - summary` (apt): the first word before ` - ` is the name, the rest the summary.
pub open spec fn dash_summary_spec(l: Seq<char>) -> Option<SearchHit> {
    sep_summary_spec(l, " - "@)
}

/// `name : summary` (dnf, yum), skipping the metadata banner and `===` rulers.
pub open spec fn colon_summary_spec(l: Seq<char>) -> Option<SearchHit> {
    if crate::text::starts_with(l, "Last metadata"@) || crate::text::starts_with(l, "==="@) {
        None
    } else {
        sep_summary_spec(l, " : "@)
    }
}

pub open spec fn sep_summary_spec(l: Seq<char>, sep: Seq<char>) -> Option<SearchHit> {
    let p = find_pat(l, 0, l.len() as int, sep);
    let left_hi = if p < l.len() {
        p
    } else {
        l.len() as int
    };
    let summary_lo = if p < l.len() {
        p + sep.len()
    } else {
        l.len() as int
    };
    match first_word(l, 0, left_hi) {
        None => None,
        Some(w) => Some(hit(window(l, w), None, non_empty_win(l, summary_lo, l.len() as int))),
    }
}

/// `repo/name version` (pacman); the summary comes on the next, indented line.
pub open spec fn pacman_line_spec(l: Seq<char>) -> Option<SearchHit> {
    let sp = skip_fwd(l, 0, l.len() as int, CharClass::Is(' '), false);
    let slash = skip_fwd(l, 0, sp, CharClass::Is('/'), false);
    if sp >= l.len() || slash >= sp {
        None
    } else {
        Some(
            hit(
                l.subrange(slash + 1, sp),
                match first_word(l, sp + 1, l.len() as int) {
                    None => None,
                    Some(w) => Some(window(l, w)),
                },
                None,
            ),
        )
    }
}

/// `name-version summary` (apk).
pub open spec fn apk_line_spec(l: Seq<char>) -> Option<SearchHit> {
    name_version_summary_spec(l, 0)
}

/// Like `apk_line_spec` on `l[lo..]`.
pub open spec fn name_version_summary_spec(l: Seq<char>, lo: int) -> Option<SearchHit> {
    let sp = skip_fwd(l, lo, l.len() as int, CharClass::Is(' '), false);
    let nv = split_name_version_spec(
        l,
        trim_lo(l, lo, sp),
        trim_hi(l, lo, sp),
    );
    Some(
        hit(
            nv.0,
            nv.1,
            if sp < l.len() {
                non_empty_win(l, sp + 1, l.len() as int)
            } else {
                None
            },
        ),
    )
}

/// Position of the `k`-th `|` (from 1) of a zypper table row, or the row's
/// length when it has fewer.
pub open spec fn bar_pos(l: Seq<char>, k: nat) -> int
    decreases k,
{
    if k <= 1 {
        skip_fwd(l, 0, l.len() as int, CharClass::Is('|'), false)
    } else {
        let prev = bar_pos(l, (k - 1) as nat);
        if prev < l.len() {
            skip_fwd(l, prev + 1, l.len() as int, CharClass::Is('|'), false)
        } else {
            prev
        }
    }
}

/// A zypper table row `S | name | summary | version ...` split at `|`; header and
/// ruler rows are skipped, and a row of fewer than three columns is read as a
/// plain listing.
pub open spec fn zypper_line_spec(l: Seq<char>) -> Option<SearchHit> {
    if l.len() > 0 && (l[0] == 'S' || l[0] == '-') {
        None
    } else if bar_pos(l, 2) >= l.len() {
        plain_name_spec(l)
    } else {
        Some(
            hit(
                l.subrange(trim_lo(l, bar_pos(l, 1) + 1, bar_pos(l, 2)), trim_hi(l, bar_pos(l, 1) + 1, bar_pos(l, 2))),
                if bar_pos(l, 3) < l.len() {
                    non_empty_win(l, bar_pos(l, 3) + 1, bar_pos(l, 4))
                } else {
                    None
                },
                non_empty_win(l, bar_pos(l, 2) + 1, bar_pos(l, 3)),
            ),
        )
    }
}

/// `*  category/name` (emerge); the description comes on a later line.
pub open spec fn emerge_line_spec(l: Seq<char>) -> Option<SearchHit> {
    if l.len() == 0 || l[0] != '*' || trim_lo(l, 1, l.len() as int) == trim_hi(l, 1, l.len() as int) {
        None
    } else {
        Some(hit(l.subrange(trim_lo(l, 1, l.len() as int), trim_hi(l, 1, l.len() as int)), None, None))
    }
}

/// `[*] name-version summary` (xbps); the `[*] ` / `[-] ` marker is optional.
pub open spec fn xbps_line_spec(l: Seq<char>) -> Option<SearchHit> {
    if crate::text::starts_with(l, "[*] "@) {
        name_version_summary_spec(l, "[*] "@.len() as int)
    } else if crate::text::starts_with(l, "[-] "@) {
        name_version_summary_spec(l, "[-] "@.len() as int)
    } else {
        name_version_summary_spec(l, 0)
    }
}

proof fn lemma_skip_fwd_shift(p: Seq<char>, r: Seq<char>, i: int, hi: int, cls: CharClass, inside: bool)
    requires
        0 <= i <= hi <= r.len(),
    ensures
        skip_fwd(p + r, p.len() + i, p.len() + hi, cls, inside) == p.len() + skip_fwd(r, i, hi, cls, inside),
    decreases hi - i,
{
    if i < hi {
        assert((p + r)[p.len() + i] == r[i]);
        lemma_skip_fwd_shift(p, r, i + 1, hi, cls, inside);
    }
}

proof fn lemma_skip_bwd_shift(p: Seq<char>, r: Seq<char>, lo: int, j: int, cls: CharClass, inside: bool)
    requires
        0 <= lo <= j <= r.len(),
    ensures
        skip_bwd(p + r, p.len() + lo, p.len() + j, cls, inside) == p.len() + skip_bwd(r, lo, j, cls, inside),
    decreases j - lo,
{
    if lo < j {
        assert((p + r)[p.len() + j - 1] == r[j - 1]);
        lemma_skip_bwd_shift(p, r, lo, j - 1, cls, inside);
    }
}

/// Trimming a window of `r` is the same after `p` is put in front.
proof fn lemma_trim_shift(p: Seq<char>, r: Seq<char>, lo: int, hi: int)
    requires
        0 <= lo <= hi <= r.len(),
    ensures
        trim_lo(p + r, p.len() + lo, p.len() + hi) == p.len() + trim_lo(r, lo, hi),
        trim_hi(p + r, p.len() + lo, p.len() + hi) == p.len() + trim_hi(r, lo, hi),
        lo <= trim_lo(r, lo, hi) <= trim_hi(r, lo, hi) <= hi,
{
    lemma_skip_fwd_shift(p, r, lo, hi, CharClass::Ws, true);
    lemma_skip_fwd(r, lo, hi, CharClass::Ws, true);
    let t = trim_lo(r, lo, hi);
    lemma_skip_bwd_shift(p, r, t, hi, CharClass::Ws, true);
    lemma_skip_bwd(r, t, hi, CharClass::Ws, true);
}

proof fn lemma_window_shift(p: Seq<char>, r: Seq<char>, x: int, y: int)
    requires
        0 <= x <= y <= r.len(),
    ensures
        (p + r).subrange(p.len() + x, p.len() + y) == r.subrange(x, y),
{
    assert((p + r).subrange(p.len() + x, p.len() + y) =~= r.subrange(x, y));
}

/// An xbps search line parses the same after any prefix has been skipped.
proof fn lemma_name_version_summary_shift(p: Seq<char>, r: Seq<char>)
    ensures
        name_version_summary_spec(p + r, p.len() as int) == name_version_summary_spec(r, 0),
{
    let l = p + r;
    let pl = p.len() as int;
    let n = r.len() as int;
    lemma_skip_fwd_shift(p, r, 0, n, CharClass::Is(' '), false);
    lemma_skip_fwd(r, 0, n, CharClass::Is(' '), false);
    let sp = skip_fwd(r, 0, n, CharClass::Is(' '), false);
    assert(skip_fwd(l, pl, l.len() as int, CharClass::Is(' '), false) == pl + sp);
    lemma_trim_shift(p, r, 0, sp);
    let a = trim_lo(r, 0, sp);
    let b = trim_hi(r, 0, sp);
    // splitting name from version
    lemma_skip_bwd_shift(p, r, a, b, CharClass::Is('-'), false);
    lemma_skip_bwd(r, a, b, CharClass::Is('-'), false);
    let j = skip_bwd(r, a, b, CharClass::Is('-'), false);
    if j < b {
        assert(l[pl + j] == r[j]);
    }
    if j > a {
        lemma_window_shift(p, r, a, j - 1);
        lemma_window_shift(p, r, j, b);
    }
    lemma_window_shift(p, r, a, b);
    assert(split_name_version_spec(l, pl + a, pl + b) == split_name_version_spec(r, a, b));
    // the summary
    if sp < n {
        lemma_trim_shift(p, r, sp + 1, n);
        lemma_window_shift(p, r, trim_lo(r, sp + 1, n), trim_hi(r, sp + 1, n));
        assert(non_empty_win(l, pl + sp + 1, l.len() as int) == non_empty_win(r, sp + 1, n));
    }
}

/// The marker `[*] ` (installed) or `[-] ` (not installed) at the start of an
/// xbps search line is no part of the hit: the line reads exactly as it
/// would without it.
pub proof fn law_xbps_marker_ignored(m: Seq<char>, rest: Seq<char>)
    requires
        m == "[*] "@ || m == "[-] "@,
        !crate::text::starts_with(rest, "[*] "@),
        !crate::text::starts_with(rest, "[-] "@),
    ensures
        xbps_line_spec(m + rest) == xbps_line_spec(rest),
{
    reveal_strlit("[*] ");
    reveal_strlit("[-] ");
    let l = m + rest;
    assert(l.take(4) =~= m);
    lemma_name_version_summary_shift(m, rest);
    if m == "[-] "@ {
        assert(l.take(4)[1] == '-');
        assert("[*] "@[1] == '*');
    }
}

proof fn lemma_not_starting(l: Seq<char>, q: Seq<char>, i: int)
    requires
        0 <= i < q.len(),
        i < l.len(),
        l[i] != q[i],
    ensures
        !crate::text::starts_with(l, q),
{
    if q.len() <= l.len() {
        assert(l.take(q.len() as int)[i] == l[i]);
    }
}

/// An xbps search line `name-version summary`, with or without the marker
/// `[*] ` or `[-] ` in front, gives that name, that version and that
/// summary. (The version starts with a digit and holds no `-`; the name may
/// hold `-`.)
pub proof fn law_xbps_line_reads_name_version_summary(
    m: Seq<char>,
    name: Seq<char>,
    version: Seq<char>,
    summary: Seq<char>,
)
    requires
        m == Seq::<char>::empty() || m == "[*] "@ || m == "[-] "@,
        is_word(name),
        is_word(version),
        is_digit(version[0]),
        forall|i: int| 0 <= i < version.len() ==> #[trigger] version[i] != '-',
        summary.len() > 0,
        !is_ws(summary[0]),
        !is_ws(summary[summary.len() - 1]),
    ensures
        xbps_line_spec(m + (name + "-"@ + version + " "@ + summary)) == Some(
            hit(name, Some(version), Some(summary)),
        ),
{
    reveal_strlit("-");
    reveal_strlit(" ");
    reveal_strlit("[*] ");
    reveal_strlit("[-] ");
    let l = name + "-"@ + version + " "@ + summary;
    let a = name.len() as int;
    let v = version.len() as int;
    let sp = a + 1 + v;
    let n = l.len() as int;
    assert forall|k: int| 0 <= k < a implies #[trigger] l[k] == name[k] by {}
    assert(l[a] == '-');
    assert forall|k: int| a + 1 <= k < sp implies #[trigger] l[k] == version[k - a - 1] by {}
    assert(l[sp] == ' ');
    assert forall|k: int| sp + 1 <= k < n implies #[trigger] l[k] == summary[k - sp - 1] by {}
    assert(!is_ws(name[0]));
    assert(!is_ws(version[v - 1]));
    // the name and version run up to the first blank
    assert forall|k: int| 0 <= k < sp implies in_class(#[trigger] l[k], CharClass::Is(' ')) == false by {
        if k < a {
            assert(!is_ws(name[k]));
        } else if k > a {
            assert(!is_ws(version[k - a - 1]));
        }
    }
    lemma_skip_fwd_unique(l, 0, n, CharClass::Is(' '), false, sp);
    lemma_skip_fwd_unique(l, 0, sp, CharClass::Ws, true, 0);
    lemma_skip_bwd_unique(l, 0, sp, CharClass::Ws, true, sp);
    // the version follows the last `-`
    assert forall|k: int| a + 1 <= k < sp implies in_class(#[trigger] l[k], CharClass::Is('-')) == false by {
        assert(version[k - a - 1] != '-');
    }
    lemma_skip_bwd_unique(l, 0, sp, CharClass::Is('-'), false, a + 1);
    assert(l.subrange(0, a) =~= name);
    assert(l.subrange(a + 1, sp) =~= version);
    // the summary is the rest, trimmed
    assert(!is_ws(summary[0]));
    lemma_skip_fwd_unique(l, sp + 1, n, CharClass::Ws, true, sp + 1);
    lemma_skip_bwd_unique(l, sp + 1, n, CharClass::Ws, true, n);
    assert(l.subrange(sp + 1, n) =~= summary);
    assert(name_version_summary_spec(l, 0) == Some(hit(name, Some(version), Some(summary))));
    // an unmarked line does not look marked
    if a >= 4 {
        assert(!is_ws(name[3]));
        lemma_not_starting(l, "[*] "@, 3);
        lemma_not_starting(l, "[-] "@, 3);
    } else if a == 1 {
        lemma_not_starting(l, "[*] "@, 1);
        assert(is_digit(l[2]));
        lemma_not_starting(l, "[-] "@, 2);
    } else {
        lemma_not_starting(l, "[*] "@, a);
        lemma_not_starting(l, "[-] "@, a);
    }
    if m.len() == 0 {
        assert(m + l =~= l);
    } else {
        law_xbps_marker_ignored(m, l);
    }
}

/// `attr name-version` (nix-env -qaP); with one word only, that word.
pub open spec fn nix_line_spec(l: Seq<char>) -> Option<SearchHit> {
    match first_word(l, 0, l.len() as int) {
        None => None,
        Some(w1) => {
            let w = match first_word(l, w1.1, l.len() as int) {
                None => w1,
                Some(w2) => w2,
            };
            let nv = split_name_version_spec(l, w.0, w.1);
            Some(hit(nv.0, nv.1, None))
        },
    }
}

/// Split `name-version` at its last `-` when what follows starts with a digit;
/// otherwise the whole text is the name.
pub open spec fn split_name_version_spec(l: Seq<char>, lo: int, hi: int) -> (
    Seq<char>,
    Option<Seq<char>>,
) {
    let j = skip_bwd(l, lo, hi, CharClass::Is('-'), false);
    if j > lo && j < hi && is_digit(l[j]) {
        (l.subrange(lo, j - 1), Some(l.subrange(j, hi)))
    } else {
        (l.subrange(lo, hi), None)
    }
}

/// The parser each package manager's search output is read with.
pub open spec fn line_spec(pm: SystemPm, l: Seq<char>) -> Option<SearchHit> {
    match pm {
        SystemPm::Apt => dash_summary_spec(l),
        SystemPm::Dnf | SystemPm::Yum => colon_summary_spec(l),
        SystemPm::Pacman => pacman_line_spec(l),
        SystemPm::Apk => apk_line_spec(l),
        SystemPm::Zypper => zypper_line_spec(l),
        SystemPm::Emerge => emerge_line_spec(l),
        SystemPm::Xbps => xbps_line_spec(l),
        SystemPm::Nix => nix_line_spec(l),
        SystemPm::Brew => plain_name_spec(l),
    }
}

fn opt_window(l: &[char], w: Option<(usize, usize)>) -> (r: Option<String>)
    requires
        w matches Some(x) ==> x.0 <= x.1 <= l@.len(),
    ensures
        r.deep_view() == match w {
            None => None,
            Some(x) => Some(l@.subrange(x.0 as int, x.1 as int)),
        },
{
    match w {
        None => None,
        Some(x) => Some(string_range(l, x.0, x.1)),
    }
}

fn parse_plain_name(l: &[char]) -> (r: Option<SystemSearchResult>)
    ensures
        r.deep_view_hit() == plain_name_spec(l@),
{
    match first_word_range(l, 0, l.len()) {
        None => None,
        Some(w) => Some(SystemSearchResult { name: string_range(l, w.0, w.1), version: None, summary: None }),
    }
}

fn parse_sep_summary(l: &[char], sep: &[char]) -> (r: Option<SystemSearchResult>)
    ensures
        r.deep_view_hit() == sep_summary_spec(l@, sep@),
{
    let n = l.len();
    let p = find_pattern(l, 0, n, sep);
    proof {
        crate::text::lemma_find_pat(l@, 0, n as int, sep@);
    }
    let (left_hi, summary_lo) = if p < n {
        (p, p + sep.len())
    } else {
        (n, n)
    };
    match first_word_range(l, 0, left_hi) {
        None => None,
        Some(w) => Some(
            SystemSearchResult {
                name: string_range(l, w.0, w.1),
                version: None,
                summary: non_empty_range(l, summary_lo, n),
            },
        ),
    }
}

fn parse_dash_summary(l: &[char]) -> (r: Option<SystemSearchResult>)
    ensures
        r.deep_view_hit() == dash_summary_spec(l@),
{
    let sep = chars_of(" - ");
    parse_sep_summary(l, sep.as_slice())
}

fn starts_with_str(l: &[char], p: &str) -> (b: bool)
    ensures
        b == crate::text::starts_with(l@, p@),
{
    let pv = chars_of(p);
    let m = matches_at(l, 0, pv.as_slice());
    proof {
        if m {
            assert(l@.take(p@.len() as int) == l@.subrange(0, p@.len() as int));
        }
        if crate::text::starts_with(l@, p@) {
            assert(l@.take(p@.len() as int) == l@.subrange(0, p@.len() as int));
        }
    }
    m
}

fn parse_colon_summary(l: &[char]) -> (r: Option<SystemSearchResult>)
    ensures
        r.deep_view_hit() == colon_summary_spec(l@),
{
    if starts_with_str(l, "Last metadata") || starts_with_str(l, "===") {
        return None;
    }
    let sep = chars_of(" : ");
    parse_sep_summary(l, sep.as_slice())
}

fn parse_pacman_search_line(l: &[char]) -> (r: Option<SystemSearchResult>)
    ensures
        r.deep_view_hit() == pacman_line_spec(l@),
{
    let n = l.len();
    let sp = scan_fwd(l, 0, n, CharClass::Is(' '), false);
    let slash = scan_fwd(l, 0, sp, CharClass::Is('/'), false);
    if sp >= n || slash >= sp {
        return None;
    }
    let version = opt_window(l, first_word_range(l, sp + 1, n));
    Some(SystemSearchResult { name: string_range(l, slash + 1, sp), version, summary: None })
}

fn split_name_version(l: &[char], lo: usize, hi: usize) -> (r: (String, Option<String>))
    requires
        lo <= hi <= l@.len(),
    ensures
        (r.0@, r.1.deep_view()) == split_name_version_spec(l@, lo as int, hi as int),
{
    let j = scan_bwd(l, lo, hi, CharClass::Is('-'), false);
    if j > lo && j < hi && '0' <= l[j] && l[j] <= '9' {
        (string_range(l, lo, j - 1), Some(string_range(l, j, hi)))
    } else {
        (string_range(l, lo, hi), None)
    }
}

fn parse_name_version_summary(l: &[char], lo: usize) -> (r: Option<SystemSearchResult>)
    requires
        lo <= l@.len(),
    ensures
        r.deep_view_hit() == name_version_summary_spec(l@, lo as int),
{
    let n = l.len();
    let sp = scan_fwd(l, lo, n, CharClass::Is(' '), false);
    let (a, b) = trim_range(l, lo, sp);
    let (name, version) = split_name_version(l, a, b);
    let summary = if sp < n {
        non_empty_range(l, sp + 1, n)
    } else {
        None
    };
    Some(SystemSearchResult { name, version, summary })
}

fn parse_apk_search_line(l: &[char]) -> (r: Option<SystemSearchResult>)
    ensures
        r.deep_view_hit() == apk_line_spec(l@),
{
    parse_name_version_summary(l, 0)
}

fn next_bar(l: &[char], prev: usize) -> (r: usize)
    requires
        prev <= l@.len(),
    ensures
        r == (if prev < l@.len() {
            skip_fwd(l@, prev + 1, l@.len() as int, CharClass::Is('|'), false)
        } else {
            prev as int
        }),
        r <= l@.len(),
        prev <= r,
        prev < l@.len() ==> prev < r,
{
    if prev < l.len() {
        scan_fwd(l, prev + 1, l.len(), CharClass::Is('|'), false)
    } else {
        prev
    }
}

fn parse_zypper_search_line(l: &[char]) -> (r: Option<SystemSearchResult>)
    ensures
        r.deep_view_hit() == zypper_line_spec(l@),
{
    let n = l.len();
    if n > 0 && (l[0] == 'S' || l[0] == '-') {
        return None;
    }
    let b1 = scan_fwd(l, 0, n, CharClass::Is('|'), false);
    let b2 = next_bar(l, b1);
    let b3 = next_bar(l, b2);
    let b4 = next_bar(l, b3);
    assert(b1 == bar_pos(l@, 1));
    assert(b2 == bar_pos(l@, 2));
    assert(b3 == bar_pos(l@, 3));
    assert(b4 == bar_pos(l@, 4));
    if b2 >= n {
        return parse_plain_name(l);
    }
    let (a1, e1) = trim_range(l, b1 + 1, b2);
    let version = if b3 < n {
        non_empty_range(l, b3 + 1, b4)
    } else {
        None
    };
    Some(SystemSearchResult { name: string_range(l, a1, e1), version, summary: non_empty_range(l, b2 + 1, b3) })
}

fn parse_emerge_search_line(l: &[char]) -> (r: Option<SystemSearchResult>)
    ensures
        r.deep_view_hit() == emerge_line_spec(l@),
{
    let n = l.len();
    if n == 0 || l[0] != '*' {
        return None;
    }
    let (a, b) = trim_range(l, 1, n);
    if a == b {
        return None;
    }
    Some(SystemSearchResult { name: string_range(l, a, b), version: None, summary: None })
}

fn parse_xbps_search_line(l: &[char]) -> (r: Option<SystemSearchResult>)
    ensures
        r.deep_view_hit() == xbps_line_spec(l@),
{
    if starts_with_str(l, "[*] ") {
        let m = chars_of("[*] ");
        parse_name_version_summary(l, m.len())
    } else if starts_with_str(l, "[-] ") {
        let m = chars_of("[-] ");
        parse_name_version_summary(l, m.len())
    } else {
        parse_name_version_summary(l, 0)
    }
}

fn parse_nix_search_line(l: &[char]) -> (r: Option<SystemSearchResult>)
    ensures
        r.deep_view_hit() == nix_line_spec(l@),
{
    let n = l.len();
    match first_word_range(l, 0, n) {
        None => None,
        Some(w1) => {
            let w = match first_word_range(l, w1.1, n) {
                None => w1,
                Some(w2) => w2,
            };
            let (name, version) = split_name_version(l, w.0, w.1);
            Some(SystemSearchResult { name, version, summary: None })
        },
    }
}

/// Read one trimmed line of `pm`'s search output.
fn parse_line(pm: SystemPm, l: &[char]) -> (r: Option<SystemSearchResult>)
    ensures
        r.deep_view_hit() == line_spec(pm, l@),
{
    match pm {
        SystemPm::Apt => parse_dash_summary(l),
        SystemPm::Dnf | SystemPm::Yum => parse_colon_summary(l),
        SystemPm::Pacman => parse_pacman_search_line(l),
        SystemPm::Apk => parse_apk_search_line(l),
        SystemPm::Zypper => parse_zypper_search_line(l),
        SystemPm::Emerge => parse_emerge_search_line(l),
        SystemPm::Xbps => parse_xbps_search_line(l),
        SystemPm::Nix => parse_nix_search_line(l),
        SystemPm::Brew => parse_plain_name(l),
    }
}

// ---------------------------------------------------------------------------
// Whole search output
// ---------------------------------------------------------------------------
/// Progress through search output: hits so far, the hit still waiting for an
/// indented pacman summary or an emerge `Description:` line, and whether the
/// limit stopped the scan.
pub struct SearchScan {
    pub hits: Seq<SearchHit>,
    pub pacman: Option<int>,
    pub emerge: Option<int>,
    pub done: bool,
}

pub open spec fn scan_start() -> SearchScan {
    SearchScan { hits: seq![], pacman: None, emerge: None, done: false }
}

pub open spec fn with_summary(h: Seq<SearchHit>, idx: int, s: Seq<char>) -> Seq<SearchHit> {
    h.update(idx, SearchHit { summary: Some(s), ..h[idx] })
}

/// One raw line of output. Blank lines are skipped. An indented line right after
/// a pacman hit is its summary; a `Description:` line after an emerge hit is its
/// summary; any other line is read with the package manager's line parser. The
/// scan stops once `limit` hits are held (for pacman and emerge, only after the
/// summary of the last one).
pub open spec fn search_step(pm: SystemPm, limit: int, st: SearchScan, raw: Seq<char>) -> SearchScan {
    let e = skip_bwd(raw, 0, raw.len() as int, CharClass::Ws, true);
    let line = raw.take(e);
    let t_lo = trim_lo(line, 0, e);
    let t_hi = trim_hi(line, 0, e);
    let desc = "Description:"@;
    if st.done || t_lo == t_hi {
        st
    } else if st.pacman is Some && (raw[0] == ' ' || raw[0] == '\t') {
        let hits = with_summary(st.hits, st.pacman->0, line.subrange(t_lo, t_hi));
        SearchScan { hits, pacman: None, done: hits.len() >= limit, ..st }
    } else if st.emerge is Some && t_lo + desc.len() <= t_hi && line.subrange(
        t_lo,
        t_lo + desc.len(),
    ) == desc {
        let d_lo = t_lo + desc.len();
        let hits = with_summary(
            st.hits,
            st.emerge->0,
            line.subrange(trim_lo(line, d_lo, t_hi), trim_hi(line, d_lo, t_hi)),
        );
        SearchScan { hits, pacman: None, emerge: None, done: hits.len() >= limit }
    } else {
        match line_spec(pm, line) {
            None => SearchScan { pacman: None, emerge: None, ..st },
            Some(h) => {
                let hits = st.hits.push(h);
                SearchScan {
                    hits,
                    pacman: if pm is Pacman {
                        Some(hits.len() - 1)
                    } else {
                        None
                    },
                    emerge: if pm is Emerge {
                        Some(hits.len() - 1)
                    } else {
                        None
                    },
                    done: hits.len() >= limit && !(pm is Pacman || pm is Emerge),
                }
            },
        }
    }
}

pub open spec fn search_scan(pm: SystemPm, limit: int, ls: Seq<Seq<char>>) -> SearchScan
    decreases ls.len(),
{
    if ls.len() == 0 {
        scan_start()
    } else {
        search_step(pm, limit, search_scan(pm, limit, ls.drop_last()), ls.last())
    }
}

/// The first `limit` hits of `h`, or all of them when there are fewer.
pub open spec fn at_most(h: Seq<SearchHit>, limit: int) -> Seq<SearchHit> {
    if h.len() > limit {
        h.take(limit)
    } else {
        h
    }
}

/// The hits `parse_search_results` reads from `out`: the scan over its lines,
/// cut to at most `limit` hits.
pub open spec fn search_results_spec(pm: SystemPm, out: Seq<char>, limit: int) -> Seq<SearchHit> {
    at_most(search_scan(pm, limit, lines(out)).hits, limit)
}

/// The hit waiting for a summary is one already held, and at most one waits.
spec fn scan_inv(st: SearchScan) -> bool {
    &&& (st.pacman matches Some(i) ==> 0 <= i < st.hits.len())
    &&& (st.emerge matches Some(i) ==> 0 <= i < st.hits.len())
    &&& !(st.pacman is Some && st.emerge is Some)
}

/// How a scan under the limit `k` stands to one over the same lines under a
/// larger limit: the same until the first stops; from then on the first holds
/// at least `k` hits, and the second only adds hits after them or fills in
/// the summaries of those.
spec fn scans_related(k: int, sk: SearchScan, sn: SearchScan) -> bool {
    &&& scan_inv(sn)
    &&& if !sk.done {
        sk == sn
    } else {
        let m = sk.hits.len() as int;
        &&& m >= k
        &&& sn.hits.len() >= m
        &&& sn.hits.take(m) == sk.hits
        &&& (sn.pacman matches Some(i) ==> m <= i)
        &&& (sn.emerge matches Some(i) ==> m <= i)
    }
}

proof fn lemma_step_related(pm: SystemPm, k: int, n: int, sk: SearchScan, sn: SearchScan, raw: Seq<char>)
    requires
        0 <= k <= n,
        scans_related(k, sk, sn),
    ensures
        scans_related(k, search_step(pm, k, sk, raw), search_step(pm, n, sn, raw)),
{
    let tk = search_step(pm, k, sk, raw);
    let tn = search_step(pm, n, sn, raw);
    if sk.done {
        // after the first scan stops, the second only fills in summaries past
        // its hits or adds hits after them
        let m = sk.hits.len() as int;
        assert(tn.hits.take(m) =~= sn.hits.take(m));
    }
    if !sk.done && tk.done {
        // the two scans stop being the same only here: both hold the same hits
        assert(tn.hits.take(tk.hits.len() as int) =~= tk.hits);
    }
}

proof fn lemma_scan_related(pm: SystemPm, k: int, n: int, ls: Seq<Seq<char>>)
    requires
        0 <= k <= n,
    ensures
        scans_related(k, search_scan(pm, k, ls), search_scan(pm, n, ls)),
    decreases ls.len(),
{
    if ls.len() > 0 {
        lemma_scan_related(pm, k, n, ls.drop_last());
        lemma_step_related(
            pm,
            k,
            n,
            search_scan(pm, k, ls.drop_last()),
            search_scan(pm, n, ls.drop_last()),
            ls.last(),
        );
    }
}

/// A smaller search limit gives the first hits of what a larger one gives:
/// for `k <= n`, the hits read under the limit `k` are the first `k` of those
/// read under `n` (all of them, when there are fewer).
pub proof fn law_search_limit_prefix(pm: SystemPm, out: Seq<char>, k: int, n: int)
    requires
        0 <= k <= n,
    ensures
        search_results_spec(pm, out, k) == at_most(search_results_spec(pm, out, n), k),
{
    let ls = lines(out);
    let sk = search_scan(pm, k, ls);
    let sn = search_scan(pm, n, ls);
    lemma_scan_related(pm, k, n, ls);
    let rk = search_results_spec(pm, out, k);
    let rn = search_results_spec(pm, out, n);
    if sk.done {
        let m = sk.hits.len() as int;
        assert forall|i: int| 0 <= i < k implies rk[i] == sn.hits[i] by {
            assert(sn.hits.take(m)[i] == sn.hits[i]);
        }
        assert(rk =~= at_most(rn, k));
    } else {
        assert(rk =~= at_most(rn, k));
    }
}

pub open spec fn hits_of(v: Seq<SystemSearchResult>) -> Seq<SearchHit> {
    v.map_values(|r: SystemSearchResult| r@)
}

/// Read the search hits of `pm`'s search output, at most `limit` of them.
pub fn parse_search_results(pm: &SystemPm, output: &str, limit: usize) -> (r: Vec<SystemSearchResult>)
    ensures
        hits_of(r@) == search_results_spec(*pm, output@, limit as int),
        r@.len() <= limit,
{
    let pm = *pm;
    let outv = chars_of(output);
    let out = outv.as_slice();
    let ranges = line_ranges(out);
    let ghost ls = lines(out@);
    let desc = chars_of("Description:");
    let mut results: Vec<SystemSearchResult> = Vec::new();
    let mut pending_pacman: Option<usize> = None;
    let mut pending_emerge: Option<usize> = None;
    let mut done = false;
    let mut k: usize = 0;
    proof {
        assert(ls.take(0) =~= Seq::<Seq<char>>::empty());
        assert(hits_of(results@) =~= Seq::<SearchHit>::empty());
    }
    while k < ranges.len()
        invariant
            k <= ranges@.len() == ls.len(),
            out@ == output@,
            ls == lines(out@),
            desc@ == "Description:"@,
            forall|j: int|
                0 <= j < ranges@.len() ==> (#[trigger] ranges@[j]).0 <= ranges@[j].1 <= out@.len()
                    && out@.subrange(ranges@[j].0 as int, ranges@[j].1 as int) == ls[j],
            search_scan(pm, limit as int, ls.take(k as int)) == (SearchScan {
                hits: hits_of(results@),
                pacman: match pending_pacman {
                    Some(i) => Some(i as int),
                    None => None,
                },
                emerge: match pending_emerge {
                    Some(i) => Some(i as int),
                    None => None,
                },
                done,
            }),
            pending_pacman matches Some(i) ==> i < results@.len(),
            pending_emerge matches Some(i) ==> i < results@.len(),
        decreases ranges@.len() - k,
    {
        proof {
            assert(ls.take(k + 1).drop_last() == ls.take(k as int));
            assert(ls.take(k + 1).last() == ls[k as int]);
        }
        let ghost before = hits_of(results@);
        let raw = copy_range(out, ranges[k].0, ranges[k].1);
        let rn = raw.len();
        let e = scan_bwd(raw.as_slice(), 0, rn, CharClass::Ws, true);
        let line = copy_range(raw.as_slice(), 0, e);
        proof {
            assert(line@ == raw@.take(e as int));
        }
        let (t_lo, t_hi) = trim_range(line.as_slice(), 0, e);
        if done || t_lo == t_hi {
        } else if pending_pacman.is_some() && (raw[0] == ' ' || raw[0] == '\t') {
            let idx = pending_pacman.unwrap();
            results[idx].summary = Some(string_range(line.as_slice(), t_lo, t_hi));
            proof {
                assert(hits_of(results@) =~= with_summary(before, idx as int, line@.subrange(t_lo as int, t_hi as int)));
            }
            pending_pacman = None;
            done = results.len() >= limit;
        } else if pending_emerge.is_some() && desc.len() <= t_hi - t_lo && matches_at(
            line.as_slice(),
            t_lo,
            desc.as_slice(),
        ) {
            let idx = pending_emerge.unwrap();
            let (d_lo, d_hi) = trim_range(line.as_slice(), t_lo + desc.len(), t_hi);
            results[idx].summary = Some(string_range(line.as_slice(), d_lo, d_hi));
            proof {
                assert(hits_of(results@) =~= with_summary(before, idx as int, line@.subrange(d_lo as int, d_hi as int)));
            }
            pending_pacman = None;
            pending_emerge = None;
            done = results.len() >= limit;
        } else {
            pending_pacman = None;
            pending_emerge = None;
            match parse_line(pm, line.as_slice()) {
                None => {},
                Some(h) => {
                    results.push(h);
                    proof {
                        assert(hits_of(results@) =~= before.push(results@.last()@));
                    }
                    let idx = results.len() - 1;
                    if pm == SystemPm::Pacman {
                        pending_pacman = Some(idx);
                    }
                    if pm == SystemPm::Emerge {
                        pending_emerge = Some(idx);
                    }
                    done = results.len() >= limit && !(pm == SystemPm::Pacman || pm == SystemPm::Emerge);
                },
            }
        }
        k = k + 1;
    }
    proof {
        assert(ls.take(ls.len() as int) == ls);
    }
    let ghost full = hits_of(results@);
    results.truncate(limit);
    proof {
        if full.len() > limit {
            assert(hits_of(results@) =~= full.take(limit as int));
        } else {
            assert(hits_of(results@) =~= full);
        }
    }
    results
}

// ---------------------------------------------------------------------------
// Installed-package listings
// ---------------------------------------------------------------------------
/// How a package manager's installed-package listing is laid out.
#[derive(Debug, Clone, Copy, PartialEq, Eq, Structural)]
pub enum InstalledFormat {
    /// `name<TAB>version`, or `name version` separated by white space.
    Columns,
    /// `name-version`, split at the last `-` when a digit follows (apk).
    Apk,
    /// `ii name-version` (xbps-query), split at the last `-`.
    Xbps,
    /// `name-version` (nix-env), split at the last `-`.
    Nix,
}

pub open spec fn installed_format_spec(pm: SystemPm) -> InstalledFormat {
    match pm {
        SystemPm::Apk => InstalledFormat::Apk,
        SystemPm::Xbps => InstalledFormat::Xbps,
        SystemPm::Nix => InstalledFormat::Nix,
        _ => InstalledFormat::Columns,
    }
}

impl SystemPm {
    /// The layout of this package manager's installed-package listing.
    pub fn installed_format(&self) -> (f: InstalledFormat)
        ensures
            f == installed_format_spec(*self),
    {
        match self {
            SystemPm::Apk => InstalledFormat::Apk,
            SystemPm::Xbps => InstalledFormat::Xbps,
            SystemPm::Nix => InstalledFormat::Nix,
            _ => InstalledFormat::Columns,
        }
    }
}

/// Split `l[lo..hi]` at its last `-`: the part before is the name, the part after the version.
pub open spec fn last_dash_split(l: Seq<char>, lo: int, hi: int) -> (Seq<char>, Option<Seq<char>>) {
    let j = skip_bwd(l, lo, hi, CharClass::Is('-'), false);
    if j > lo {
        (l.subrange(lo, j - 1), Some(l.subrange(j, hi)))
    } else {
        (l.subrange(lo, hi), None)
    }
}

/// One line of an installed-package listing, trimmed; blank lines and entries
/// with an empty name give nothing.
pub open spec fn installed_line_spec(fmt: InstalledFormat, l: Seq<char>) -> Option<(Seq<char>, Option<Seq<char>>)> {
    let a = trim_lo(l, 0, l.len() as int);
    let b = trim_hi(l, 0, l.len() as int);
    let ii = "ii "@;
    let e: Option<(Seq<char>, Option<Seq<char>>)> = match fmt {
        InstalledFormat::Apk => Some(split_name_version_spec(l, a, b)),
        InstalledFormat::Xbps => Some(
            if a + ii.len() <= b && l.subrange(a, a + ii.len()) == ii {
                last_dash_split(l, a + ii.len(), b)
            } else {
                last_dash_split(l, a, b)
            },
        ),
        InstalledFormat::Nix => Some(last_dash_split(l, a, b)),
        InstalledFormat::Columns => {
            let tab = skip_fwd(l, a, b, CharClass::Is('\t'), false);
            if tab < b {
                Some(
                    (
                        l.subrange(trim_lo(l, a, tab), trim_hi(l, a, tab)),
                        Some(l.subrange(trim_lo(l, tab + 1, b), trim_hi(l, tab + 1, b))),
                    ),
                )
            } else {
                match first_word(l, a, b) {
                    None => None,
                    Some(w1) => Some(
                        (
                            window(l, w1),
                            match first_word(l, w1.1, b) {
                                None => None,
                                Some(w2) => Some(window(l, w2)),
                            },
                        ),
                    ),
                }
            }
        },
    };
    if a == b {
        None
    } else {
        match e {
            None => None,
            Some(x) => if x.0.len() == 0 {
                None
            } else {
                Some(x)
            },
        }
    }
}

/// `w` is one word: not empty, and no white space in it.
pub open spec fn is_word(w: Seq<char>) -> bool {
    w.len() > 0 && forall|i: int| 0 <= i < w.len() ==> !is_ws(#[trigger] w[i])
}

/// `g` separates two columns with blanks only: not empty, all white space,
/// and no tab.
pub open spec fn is_blank_gap(g: Seq<char>) -> bool {
    g.len() > 0 && forall|i: int| 0 <= i < g.len() ==> is_ws(#[trigger] g[i]) && g[i] != '\t'
}

/// A `name version` line of a listing whose columns are separated by blanks
/// (`pacman -Q`, `brew list --versions`, `qlist -ICv`, `dpkg-query` without
/// a tab) gives that name with that version.
pub proof fn law_columns_name_version(name: Seq<char>, gap: Seq<char>, version: Seq<char>)
    requires
        is_word(name),
        is_blank_gap(gap),
        is_word(version),
    ensures
        installed_line_spec(InstalledFormat::Columns, name + gap + version) == Some((name, Some(version))),
{
    let l = name + gap + version;
    let a = name.len() as int;
    let g = gap.len() as int;
    let n = l.len() as int;
    assert forall|k: int| 0 <= k < a implies #[trigger] l[k] == name[k] by {}
    assert forall|k: int| a <= k < a + g implies #[trigger] l[k] == gap[k - a] by {}
    assert forall|k: int| a + g <= k < n implies #[trigger] l[k] == version[k - a - g] by {}
    assert forall|k: int| 0 <= k < n implies !in_class(#[trigger] l[k], CharClass::Is('\t')) by {
        if k < a {
            assert(!is_ws(name[k]));
        } else if k < a + g {
            assert(gap[k - a] != '\t');
        } else {
            assert(!is_ws(version[k - a - g]));
        }
    }
    assert(!is_ws(name[0]));
    assert(!is_ws(version[version.len() - 1]));
    assert(is_ws(gap[0]));
    // where the line's pieces start and end
    lemma_skip_fwd_unique(l, 0, n, CharClass::Ws, true, 0);
    assert(skip_bwd(l, 0, n, CharClass::Ws, true) == n);
    lemma_skip_fwd_unique(l, 0, n, CharClass::Is('\t'), false, n);
    assert forall|k: int| 0 <= k < a implies in_class(l[k], CharClass::Ws) == false by {
        assert(!is_ws(name[k]));
    }
    lemma_skip_fwd_unique(l, 0, n, CharClass::Ws, false, a);
    assert forall|k: int| a <= k < a + g implies in_class(l[k], CharClass::Ws) == true by {
        assert(is_ws(gap[k - a]));
    }
    assert(!is_ws(version[0]));
    lemma_skip_fwd_unique(l, a, n, CharClass::Ws, true, a + g);
    assert forall|k: int| a + g <= k < n implies in_class(l[k], CharClass::Ws) == false by {
        assert(!is_ws(version[k - a - g]));
    }
    lemma_skip_fwd_unique(l, a + g, n, CharClass::Ws, false, n);
    assert(window(l, (0, a)) =~= name);
    assert(window(l, (a + g, n)) =~= version);
}

/// The entries of a listing, line by line, before sorting.
pub open spec fn installed_entries(fmt: InstalledFormat, ls: Seq<Seq<char>>) -> Seq<
    (Seq<char>, Option<Seq<char>>),
>
    decreases ls.len(),
{
    if ls.len() == 0 {
        seq![]
    } else {
        let prev = installed_entries(fmt, ls.drop_last());
        match installed_line_spec(fmt, ls.last()) {
            None => prev,
            Some(e) => prev.push(e),
        }
    }
}

/// Some entry of `r` is named `n`.
pub open spec fn has_name(r: Seq<(Seq<char>, Option<Seq<char>>)>, n: Seq<char>) -> bool {
    exists|k: int| 0 <= k < r.len() && (#[trigger] r[k]).0 == n
}

/// `x` is an entry of `es` with no earlier entry of the same name.
pub open spec fn is_first(es: Seq<(Seq<char>, Option<Seq<char>>)>, x: (Seq<char>, Option<Seq<char>>)) -> bool {
    exists|i: int|
        0 <= i < es.len() && #[trigger] es[i] == x && !has_name(es.take(i), x.0)
}

/// `r` holds one entry per distinct name of `entries`, in increasing name order,
/// each being the first entry of `entries` with that name.
pub open spec fn sorted_first_by_name(
    entries: Seq<(Seq<char>, Option<Seq<char>>)>,
    r: Seq<(Seq<char>, Option<Seq<char>>)>,
) -> bool {
    &&& names_sorted(r)
    &&& forall|k: int| 0 <= k < r.len() ==> is_first(entries, #[trigger] r[k])
    &&& forall|i: int| 0 <= i < entries.len() ==> has_name(r, (#[trigger] entries[i]).0)
}

fn parse_installed_line(fmt: InstalledFormat, l: &[char]) -> (r: Option<(Vec<char>, Option<String>)>)
    ensures
        match r {
            None => installed_line_spec(fmt, l@) is None,
            Some(x) => installed_line_spec(fmt, l@) == Some((x.0@, x.1.deep_view())),
        },
{
    let n = l.len();
    let (a, b) = trim_range(l, 0, n);
    if a == b {
        return None;
    }
    let (name_lo, name_hi, version): (usize, usize, Option<String>) = match fmt {
        InstalledFormat::Apk => {
            let j = scan_bwd(l, a, b, CharClass::Is('-'), false);
            if j > a && j < b && '0' <= l[j] && l[j] <= '9' {
                (a, j - 1, Some(string_range(l, j, b)))
            } else {
                (a, b, None)
            }
        },
        InstalledFormat::Xbps | InstalledFormat::Nix => {
            let ii = chars_of("ii ");
            let off = if fmt == InstalledFormat::Xbps && ii.len() <= b - a && matches_at(
                l,
                a,
                ii.as_slice(),
            ) {
                a + ii.len()
            } else {
                a
            };
            let j = scan_bwd(l, off, b, CharClass::Is('-'), false);
            if j > off {
                (off, j - 1, Some(string_range(l, j, b)))
            } else {
                (off, b, None)
            }
        },
        InstalledFormat::Columns => {
            let tab = scan_fwd(l, a, b, CharClass::Is('\t'), false);
            if tab < b {
                let (na, nb) = trim_range(l, a, tab);
                let (va, vb) = trim_range(l, tab + 1, b);
                (na, nb, Some(string_range(l, va, vb)))
            } else {
                match first_word_range(l, a, b) {
                    None => {
                        return None;
                    },
                    Some(w1) => (w1.0, w1.1, opt_window(l, first_word_range(l, w1.1, b))),
                }
            }
        },
    };
    proof {
        lemma_skip_bwd(l@, a as int, b as int, CharClass::Is('-'), false);
    }
    if name_lo >= name_hi {
        return None;
    }
    Some((copy_range(l, name_lo, name_hi), version))
}

pub open spec fn view_entries(v: Seq<(String, Option<String>)>) -> Seq<(Seq<char>, Option<Seq<char>>)> {
    v.map_values(|x: (String, Option<String>)| (x.0@, x.1.deep_view()))
}

pub open spec fn names_sorted(r: Seq<(Seq<char>, Option<Seq<char>>)>) -> bool {
    forall|i: int, j: int| 0 <= i < j < r.len() ==> seq_lt(#[trigger] r[i].0, #[trigger] r[j].0)
}

/// Add `(name, version)` to a list kept in increasing name order, unless the
/// name is already there.
fn insert_first(
    keys: &mut Vec<Vec<char>>,
    out: &mut Vec<(String, Option<String>)>,
    name: Vec<char>,
    version: Option<String>,
)
    requires
        old(keys)@.len() == old(out)@.len(),
        forall|k: int| 0 <= k < old(keys)@.len() ==> (#[trigger] old(keys)@[k])@ == old(out)@[k].0@,
        names_sorted(view_entries(old(out)@)),
    ensures
        final(keys)@.len() == final(out)@.len(),
        forall|k: int| 0 <= k < final(keys)@.len() ==> (#[trigger] final(keys)@[k])@ == final(out)@[k].0@,
        names_sorted(view_entries(final(out)@)),
        has_name(view_entries(old(out)@), name@) ==> view_entries(final(out)@) == view_entries(old(out)@),
        !has_name(view_entries(old(out)@), name@) ==> exists|p: int|
            0 <= p <= old(out)@.len() && view_entries(final(out)@) == view_entries(old(out)@).insert(
                p,
                (name@, version.deep_view()),
            ),
{
    let ghost ve = view_entries(out@);
    let n = keys.len();
    let mut p: usize = 0;
    while p < n && chars_lt(keys[p].as_slice(), name.as_slice())
        invariant
            p <= n == keys@.len(),
            forall|q: int| 0 <= q < p ==> seq_lt(#[trigger] keys@[q]@, name@),
        decreases n - p,
    {
        p = p + 1;
    }
    if p < n && chars_eq(keys[p].as_slice(), name.as_slice()) {
        assert(ve[p as int].0 == name@);
        return;
    }
    proof {
        if p < n {
            lemma_lt_total(keys@[p as int]@, name@);
        }
        assert forall|q: int| p <= q < n implies seq_lt(name@, #[trigger] ve[q].0) by {
            lemma_lt_total(ve[p as int].0, name@);
            if q > p {
                assert(seq_lt(ve[p as int].0, ve[q].0));
                if seq_lt(ve[q].0, name@) {
                    lemma_lt_transitive(ve[p as int].0, ve[q].0, name@);
                }
                lemma_lt_total(ve[q].0, name@);
                if ve[q].0 == name@ {
                }
            }
        }
        assert forall|q: int| 0 <= q < p implies seq_lt(#[trigger] ve[q].0, name@) by {
            assert(seq_lt(keys@[q]@, name@));
        }
        assert forall|k: int| 0 <= k < n implies ve[k].0 != name@ by {
            lemma_lt_irreflexive(name@);
            if k < p {
                assert(seq_lt(keys@[k]@, name@));
            } else {
                assert(seq_lt(name@, ve[k].0));
            }
        }
    }
    let s = string_of(name.as_slice());
    let ghost entry = (name@, version.deep_view());
    keys.insert(p, name);
    out.insert(p, (s, version));
    proof {
        let vn = view_entries(out@);
        assert(vn =~= ve.insert(p as int, entry));
        assert forall|i: int, j: int| 0 <= i < j < vn.len() implies seq_lt(
            #[trigger] vn[i].0,
            #[trigger] vn[j].0,
        ) by {
            if j < p {
                assert(seq_lt(ve[i].0, ve[j].0));
            } else if j == p {
                assert(seq_lt(ve[i].0, entry.0));
            } else if i < p {
                assert(seq_lt(ve[i].0, entry.0));
                assert(seq_lt(entry.0, ve[j - 1].0));
                lemma_lt_transitive(ve[i].0, entry.0, ve[j - 1].0);
            } else if i == p {
                assert(seq_lt(entry.0, ve[j - 1].0));
            } else {
                assert(seq_lt(ve[i - 1].0, ve[j - 1].0));
            }
        }
        assert forall|k: int| 0 <= k < keys@.len() implies (#[trigger] keys@[k])@ == out@[k].0@ by {
            if k < p {
            } else if k > p {
            }
        }
    }
}



proof fn lemma_is_first_push(
    es: Seq<(Seq<char>, Option<Seq<char>>)>,
    x: (Seq<char>, Option<Seq<char>>),
    e: (Seq<char>, Option<Seq<char>>),
)
    requires
        is_first(es, x),
    ensures
        is_first(es.push(e), x),
{
    let i = choose|i: int| 0 <= i < es.len() && #[trigger] es[i] == x && !has_name(es.take(i), x.0);
    assert(es.push(e).take(i) == es.take(i));
    assert(es.push(e)[i] == x);
}

proof fn lemma_has_name_insert(
    r: Seq<(Seq<char>, Option<Seq<char>>)>,
    p: int,
    e: (Seq<char>, Option<Seq<char>>),
    n: Seq<char>,
)
    requires
        0 <= p <= r.len(),
        has_name(r, n) || n == e.0,
    ensures
        has_name(r.insert(p, e), n),
{
    let r2 = r.insert(p, e);
    if n == e.0 {
        assert(r2[p].0 == n);
    } else {
        let k = choose|k: int| 0 <= k < r.len() && (#[trigger] r[k]).0 == n;
        if k < p {
            assert(r2[k] == r[k]);
        } else {
            assert(r2[k + 1] == r[k]);
        }
    }
}

proof fn lemma_sorted_first_keep(
    es: Seq<(Seq<char>, Option<Seq<char>>)>,
    r: Seq<(Seq<char>, Option<Seq<char>>)>,
    e: (Seq<char>, Option<Seq<char>>),
)
    requires
        sorted_first_by_name(es, r),
        has_name(r, e.0),
    ensures
        sorted_first_by_name(es.push(e), r),
{
    let es2 = es.push(e);
    assert forall|k: int| 0 <= k < r.len() implies is_first(es2, #[trigger] r[k]) by {
        lemma_is_first_push(es, r[k], e);
    }
    assert forall|i: int| 0 <= i < es2.len() implies has_name(r, (#[trigger] es2[i]).0) by {
        if i < es.len() {
            assert(es2[i] == es[i]);
        }
    }
}

proof fn lemma_sorted_first_insert(
    es: Seq<(Seq<char>, Option<Seq<char>>)>,
    r: Seq<(Seq<char>, Option<Seq<char>>)>,
    e: (Seq<char>, Option<Seq<char>>),
    p: int,
)
    requires
        sorted_first_by_name(es, r),
        !has_name(r, e.0),
        0 <= p <= r.len(),
        names_sorted(r.insert(p, e)),
    ensures
        sorted_first_by_name(es.push(e), r.insert(p, e)),
{
    let es2 = es.push(e);
    let r2 = r.insert(p, e);
    assert(!has_name(es, e.0)) by {
        if has_name(es, e.0) {
            let i = choose|i: int| 0 <= i < es.len() && (#[trigger] es[i]).0 == e.0;
            assert(has_name(r, es[i].0));
        }
    }
    assert forall|k: int| 0 <= k < r2.len() implies is_first(es2, #[trigger] r2[k]) by {
        if k == p {
            assert(es2.take(es.len() as int) == es);
            assert(es2[es.len() as int] == e);
        } else if k < p {
            assert(r2[k] == r[k]);
            lemma_is_first_push(es, r[k], e);
        } else {
            assert(r2[k] == r[k - 1]);
            lemma_is_first_push(es, r[k - 1], e);
        }
    }
    assert forall|i: int| 0 <= i < es2.len() implies has_name(r2, (#[trigger] es2[i]).0) by {
        if i < es.len() {
            assert(es2[i] == es[i]);
        }
        lemma_has_name_insert(r, p, e, es2[i].0);
    }
}

/// What upgrading does next (see `SystemPm::upgrade_step`).
#[derive(Debug)]
pub enum UpgradeNext {
    /// Run this command, then report how it ended.
    Run(CommandLine),
    /// Every command ran; the upgrade succeeded.
    Done,
    /// A command failed; the upgrade stops with its error.
    Failed(OilError),
}

/// The installed packages that a run of `list_installed_command` gives:
/// none when the command could not be started or failed (`ran_ok` false),
/// otherwise its output read by `parse_installed`.
pub fn installed_from_run(pm: &SystemPm, ran_ok: bool, stdout: &str) -> (r: Vec<(String, Option<String>)>)
    ensures
        !ran_ok ==> r@.len() == 0,
        ran_ok ==> sorted_first_by_name(installed_entries(installed_format_spec(*pm), lines(stdout@)), view_entries(r@)),
{
    if !ran_ok {
        return Vec::new();
    }
    parse_installed(pm, stdout)
}

/// Read `pm`'s installed-package listing: one `(name, version)` per distinct
/// name, in increasing name order, each taken from the first line that names it.
pub fn parse_installed(pm: &SystemPm, output: &str) -> (r: Vec<(String, Option<String>)>)
    ensures
        sorted_first_by_name(installed_entries(installed_format_spec(*pm), lines(output@)), view_entries(r@)),
{
    let fmt = pm.installed_format();
    let outv = chars_of(output);
    let out = outv.as_slice();
    let ranges = line_ranges(out);
    let ghost ls = lines(out@);
    let mut keys: Vec<Vec<char>> = Vec::new();
    let mut result: Vec<(String, Option<String>)> = Vec::new();
    let mut k: usize = 0;
    proof {
        assert(ls.take(0) =~= Seq::<Seq<char>>::empty());
        assert(view_entries(result@) =~= Seq::<(Seq<char>, Option<Seq<char>>)>::empty());
    }
    while k < ranges.len()
        invariant
            k <= ranges@.len() == ls.len(),
            out@ == output@,
            ls == lines(out@),
            fmt == installed_format_spec(*pm),
            forall|j: int|
                0 <= j < ranges@.len() ==> (#[trigger] ranges@[j]).0 <= ranges@[j].1 <= out@.len()
                    && out@.subrange(ranges@[j].0 as int, ranges@[j].1 as int) == ls[j],
            keys@.len() == result@.len(),
            forall|q: int| 0 <= q < keys@.len() ==> (#[trigger] keys@[q])@ == result@[q].0@,
            names_sorted(view_entries(result@)),
            sorted_first_by_name(installed_entries(fmt, ls.take(k as int)), view_entries(result@)),
        decreases ranges@.len() - k,
    {
        proof {
            assert(ls.take(k + 1).drop_last() == ls.take(k as int));
            assert(ls.take(k + 1).last() == ls[k as int]);
        }
        let raw = copy_range(out, ranges[k].0, ranges[k].1);
        let ghost es = installed_entries(fmt, ls.take(k as int));
        let ghost before = view_entries(result@);
        match parse_installed_line(fmt, raw.as_slice()) {
            None => {},
            Some(entry) => {
                let ghost e = (entry.0@, entry.1.deep_view());
                insert_first(&mut keys, &mut result, entry.0, entry.1);
                proof {
                    if has_name(before, e.0) {
                        lemma_sorted_first_keep(es, before, e);
                    } else {
                        let p = choose|p: int|
                            0 <= p <= before.len() && view_entries(result@) == before.insert(p, e);
                        lemma_sorted_first_insert(es, before, e, p);
                    }
                }
            },
        }
        k = k + 1;
    }
    proof {
        assert(ls.take(ls.len() as int) == ls);
    }
    result
}

// ---------------------------------------------------------------------------
// Commands
// ---------------------------------------------------------------------------
/// A program to run and its arguments.
#[derive(Debug, Clone, PartialEq, Eq)]
pub struct CommandLine {
    pub program: String,
    pub args: Vec<String>,
}

impl View for CommandLine {
    type V = (Seq<char>, Seq<Seq<char>>);

    open spec fn view(&self) -> (Seq<char>, Seq<Seq<char>>) {
        (self.program@, self.args.deep_view())
    }
}

pub open spec fn strs(v: Seq<&str>) -> Seq<Seq<char>> {
    v.map_values(|s: &str| s@)
}

pub open spec fn strings(v: Seq<String>) -> Seq<Seq<char>> {
    v.map_values(|s: String| s@)
}

pub(crate) fn cmd(program: &str, fixed: &[&str], extra: &[String]) -> (c: CommandLine)
    ensures
        c@ == (program@, strs(fixed@) + strings(extra@)),
{
    let mut args: Vec<String> = Vec::new();
    let mut i: usize = 0;
    while i < fixed.len()
        invariant
            i <= fixed@.len(),
            args.deep_view() == strs(fixed@.take(i as int)),
        decreases fixed@.len() - i,
    {
        let ghost before = args.deep_view();
        args.push(fixed[i].to_owned());
        proof {
            assert(fixed@.take(i + 1) == fixed@.take(i as int).push(fixed@[i as int]));
            assert(args.deep_view() =~= before.push(fixed@[i as int]@));
            assert(strs(fixed@.take(i + 1)) =~= strs(fixed@.take(i as int)).push(fixed@[i as int]@));
        }
        i = i + 1;
    }
    let mut j: usize = 0;
    while j < extra.len()
        invariant
            i == fixed@.len(),
            j <= extra@.len(),
            args.deep_view() == strs(fixed@) + strings(extra@.take(j as int)),
        decreases extra@.len() - j,
    {
        let ghost before = args.deep_view();
        args.push(extra[j].clone());
        proof {
            assert(extra@.take(j + 1) == extra@.take(j as int).push(extra@[j as int]));
            assert(args.deep_view() =~= before.push(extra@[j as int]@));
            assert(strings(extra@.take(j + 1)) =~= strings(extra@.take(j as int)).push(extra@[j as int]@));
        }
        j = j + 1;
    }
    proof {
        assert(fixed@.take(fixed@.len() as int) == fixed@);
        assert(extra@.take(extra@.len() as int) == extra@);
    }
    CommandLine { program: program.to_owned(), args }
}

/// The command name each package manager is known by.
pub open spec fn name_spec(pm: SystemPm) -> Seq<char> {
    match pm {
        SystemPm::Brew => "brew"@,
        SystemPm::Apt => "apt"@,
        SystemPm::Dnf => "dnf"@,
        SystemPm::Pacman => "pacman"@,
        SystemPm::Apk => "apk"@,
        SystemPm::Zypper => "zypper"@,
        SystemPm::Emerge => "emerge"@,
        SystemPm::Yum => "yum"@,
        SystemPm::Xbps => "xbps-install"@,
        SystemPm::Nix => "nix-env"@,
    }
}

/// Program and fixed leading arguments for installing packages.
pub open spec fn install_head(pm: SystemPm) -> (Seq<char>, Seq<Seq<char>>) {
    match pm {
        SystemPm::Brew => ("brew"@, seq!["install"@]),
        SystemPm::Apt => ("sudo"@, seq!["apt-get"@, "install"@, "-y"@]),
        SystemPm::Dnf => ("sudo"@, seq!["dnf"@, "install"@, "-y"@]),
        SystemPm::Pacman => ("sudo"@, seq!["pacman"@, "-S"@, "--noconfirm"@]),
        SystemPm::Apk => ("sudo"@, seq!["apk"@, "add"@]),
        SystemPm::Zypper => ("sudo"@, seq!["zypper"@, "install"@, "-y"@]),
        SystemPm::Emerge => ("sudo"@, seq!["emerge"@]),
        SystemPm::Yum => ("sudo"@, seq!["yum"@, "install"@, "-y"@]),
        SystemPm::Xbps => ("sudo"@, seq!["xbps-install"@, "-S"@]),
        SystemPm::Nix => ("nix-env"@, seq!["-i"@]),
    }
}

/// Program and fixed leading arguments for removing packages.
pub open spec fn remove_head(pm: SystemPm) -> (Seq<char>, Seq<Seq<char>>) {
    match pm {
        SystemPm::Brew => ("brew"@, seq!["uninstall"@]),
        SystemPm::Apt => ("sudo"@, seq!["apt-get"@, "remove"@, "-y"@]),
        SystemPm::Dnf => ("sudo"@, seq!["dnf"@, "remove"@, "-y"@]),
        SystemPm::Pacman => ("sudo"@, seq!["pacman"@, "-R"@, "--noconfirm"@]),
        SystemPm::Apk => ("sudo"@, seq!["apk"@, "del"@]),
        SystemPm::Zypper => ("sudo"@, seq!["zypper"@, "remove"@, "-y"@]),
        SystemPm::Emerge => ("sudo"@, seq!["emerge"@, "--unmerge"@]),
        SystemPm::Yum => ("sudo"@, seq!["yum"@, "remove"@, "-y"@]),
        SystemPm::Xbps => ("sudo"@, seq!["xbps-remove"@, "-R"@]),
        SystemPm::Nix => ("nix-env"@, seq!["-e"@]),
    }
}

/// The commands that upgrade everything, run in order.
pub open spec fn upgrade_spec(pm: SystemPm) -> Seq<(Seq<char>, Seq<Seq<char>>)> {
    match pm {
        SystemPm::Brew => seq![("brew"@, seq!["update"@]), ("brew"@, seq!["upgrade"@])],
        SystemPm::Apt => seq![
            ("sudo"@, seq!["apt-get"@, "update"@, "-q"@]),
            ("sudo"@, seq!["apt-get"@, "upgrade"@, "-y"@]),
        ],
        SystemPm::Dnf => seq![("sudo"@, seq!["dnf"@, "upgrade"@, "--refresh"@, "-y"@])],
        SystemPm::Pacman => seq![("sudo"@, seq!["pacman"@, "-Syu"@, "--noconfirm"@])],
        SystemPm::Apk => seq![("sudo"@, seq!["apk"@, "upgrade"@])],
        SystemPm::Zypper => seq![
            ("sudo"@, seq!["zypper"@, "refresh"@]),
            ("sudo"@, seq!["zypper"@, "update"@, "-y"@]),
        ],
        SystemPm::Emerge => seq![
            ("sudo"@, seq!["emerge"@, "--sync"@]),
            ("sudo"@, seq!["emerge"@, "--update"@, "--deep"@, "--newuse"@, "@world"@]),
        ],
        SystemPm::Yum => seq![("sudo"@, seq!["yum"@, "update"@, "-y"@])],
        SystemPm::Xbps => seq![("sudo"@, seq!["xbps-install"@, "-Su"@])],
        SystemPm::Nix => seq![("nix-channel"@, seq!["--update"@]), ("nix-env"@, seq!["-u"@, "*"@])],
    }
}

/// The command that lists installed packages.
pub open spec fn list_installed_spec(pm: SystemPm) -> (Seq<char>, Seq<Seq<char>>) {
    match pm {
        SystemPm::Brew => ("brew"@, seq!["list"@, "--versions"@]),
        SystemPm::Apt => ("dpkg-query"@, seq!["-W"@, "-f=${Package}\\t${Version}\\n"@]),
        SystemPm::Dnf | SystemPm::Yum | SystemPm::Zypper => (
            "rpm"@,
            seq!["-qa"@, "--queryformat"@, "%{NAME}\t%{VERSION}-%{RELEASE}\n"@],
        ),
        SystemPm::Pacman => ("pacman"@, seq!["-Q"@]),
        SystemPm::Apk => ("apk"@, seq!["info"@, "-v"@]),
        SystemPm::Emerge => ("qlist"@, seq!["-ICv"@]),
        SystemPm::Xbps => ("xbps-query"@, seq!["-l"@]),
        SystemPm::Nix => ("nix-env"@, seq!["-q"@]),
    }
}

/// Program and leading arguments of a search; the query comes last.
pub open spec fn search_head(pm: SystemPm) -> (Seq<char>, Seq<Seq<char>>) {
    match pm {
        SystemPm::Brew => ("brew"@, seq!["search"@]),
        SystemPm::Apt => ("apt-cache"@, seq!["search"@]),
        SystemPm::Dnf => ("dnf"@, seq!["search"@]),
        SystemPm::Pacman => ("pacman"@, seq!["-Ss"@]),
        SystemPm::Apk => ("apk"@, seq!["search"@]),
        SystemPm::Zypper => ("zypper"@, seq!["--non-interactive"@, "search"@]),
        SystemPm::Emerge => ("emerge"@, seq!["--search"@]),
        SystemPm::Yum => ("yum"@, seq!["search"@]),
        SystemPm::Xbps => ("xbps-query"@, seq!["-Rs"@]),
        SystemPm::Nix => ("nix-env"@, seq!["-qaP"@]),
    }
}

/// The order in which the host is probed, with the binary that betrays each
/// package manager.
pub open spec fn detect_order_spec() -> Seq<(Seq<char>, SystemPm)> {
    seq![
        ("apt-get"@, SystemPm::Apt),
        ("dnf"@, SystemPm::Dnf),
        ("pacman"@, SystemPm::Pacman),
        ("apk"@, SystemPm::Apk),
        ("zypper"@, SystemPm::Zypper),
        ("emerge"@, SystemPm::Emerge),
        ("yum"@, SystemPm::Yum),
        ("xbps-install"@, SystemPm::Xbps),
        ("nix-env"@, SystemPm::Nix),
    ]
}

/// The first probed package manager whose binary is present; none on macOS.
pub open spec fn detect_spec(is_macos: bool, present: Seq<bool>) -> Option<SystemPm> {
    if is_macos {
        None
    } else {
        first_present(present, 0)
    }
}

pub open spec fn first_present(present: Seq<bool>, i: int) -> Option<SystemPm>
    decreases detect_order_spec().len() - i,
{
    if i < 0 || i >= detect_order_spec().len() || i >= present.len() {
        None
    } else if present[i] {
        Some(detect_order_spec()[i].1)
    } else {
        first_present(present, i + 1)
    }
}

pub open spec fn command_views(v: Seq<CommandLine>) -> Seq<(Seq<char>, Seq<Seq<char>>)> {
    v.map_values(|c: CommandLine| c@)
}

fn one(c: CommandLine) -> (r: Vec<CommandLine>)
    ensures
        command_views(r@) == seq![c@],
{
    let r = vec![c];
    assert(command_views(r@) =~= seq![c@]);
    r
}

fn two(c1: CommandLine, c2: CommandLine) -> (r: Vec<CommandLine>)
    ensures
        command_views(r@) == seq![c1@, c2@],
{
    let r = vec![c1, c2];
    assert(command_views(r@) =~= seq![c1@, c2@]);
    r
}

impl SystemPm {
    /// Human-readable name.
    pub fn name(&self) -> (r: &'static str)
        ensures
            r@ == name_spec(*self),
    {
        match self {
            Self::Brew => "brew",
            Self::Apt => "apt",
            Self::Dnf => "dnf",
            Self::Pacman => "pacman",
            Self::Apk => "apk",
            Self::Zypper => "zypper",
            Self::Emerge => "emerge",
            Self::Yum => "yum",
            Self::Xbps => "xbps-install",
            Self::Nix => "nix-env",
        }
    }

    /// The binaries whose presence reveals a package manager, in the order
    /// `detect` tries them.
    pub fn detect_candidates() -> (r: Vec<(&'static str, SystemPm)>)
        ensures
            r@.len() == detect_order_spec().len(),
            forall|i: int| 0 <= i < r@.len() ==> (#[trigger] r@[i]).0@ == detect_order_spec()[i].0 && r@[i].1 == detect_order_spec()[i].1,
    {
        let r = vec![
            ("apt-get", Self::Apt),
            ("dnf", Self::Dnf),
            ("pacman", Self::Pacman),
            ("apk", Self::Apk),
            ("zypper", Self::Zypper),
            ("emerge", Self::Emerge),
            ("yum", Self::Yum),
            ("xbps-install", Self::Xbps),
            ("nix-env", Self::Nix),
        ];
        r
    }

    /// Pick the host's package manager from which candidate binaries are
    /// present (`present[i]` for the `i`-th of `detect_candidates`). On macOS
    /// no system package manager is used.
    pub fn detect(is_macos: bool, present: &[bool]) -> (r: Option<SystemPm>)
        ensures
            r == detect_spec(is_macos, present@),
    {
        if is_macos {
            return None;
        }
        let order = Self::detect_candidates();
        let mut i: usize = 0;
        while i < order.len() && i < present.len()
            invariant
                i <= order@.len() == detect_order_spec().len(),
                forall|j: int| 0 <= j < order@.len() ==> (#[trigger] order@[j]).1 == detect_order_spec()[j].1,
                first_present(present@, 0) == first_present(present@, i as int),
                !is_macos,
            decreases order@.len() - i,
        {
            if present[i] {
                assert(first_present(present@, i as int) == Some(detect_order_spec()[i as int].1));
                let pm = order[i].1;
                assert(pm == detect_order_spec()[i as int].1);
                return Some(pm);
            }
            i = i + 1;
        }
        None
    }

    /// The command that installs `packages`; none when there is nothing to install.
    pub fn install_command(&self, packages: &[String]) -> (r: Option<CommandLine>)
        ensures
            match r {
                None => packages@.len() == 0,
                Some(c) => packages@.len() > 0 && c@ == (install_head(*self).0, install_head(*self).1 + strings(packages@)),
            },
    {
        if packages.len() == 0 {
            return None;
        }
        let c = match self {
            Self::Brew => cmd("brew", &["install"], packages),
            Self::Apt => cmd("sudo", &["apt-get", "install", "-y"], packages),
            Self::Dnf => cmd("sudo", &["dnf", "install", "-y"], packages),
            Self::Pacman => cmd("sudo", &["pacman", "-S", "--noconfirm"], packages),
            Self::Apk => cmd("sudo", &["apk", "add"], packages),
            Self::Zypper => cmd("sudo", &["zypper", "install", "-y"], packages),
            Self::Emerge => cmd("sudo", &["emerge"], packages),
            Self::Yum => cmd("sudo", &["yum", "install", "-y"], packages),
            Self::Xbps => cmd("sudo", &["xbps-install", "-S"], packages),
            Self::Nix => cmd("nix-env", &["-i"], packages),
        };
        Some(c)
    }

    /// The command that removes `packages`; none when there is nothing to remove.
    pub fn remove_command(&self, packages: &[String]) -> (r: Option<CommandLine>)
        ensures
            match r {
                None => packages@.len() == 0,
                Some(c) => packages@.len() > 0 && c@ == (remove_head(*self).0, remove_head(*self).1 + strings(packages@)),
            },
    {
        if packages.len() == 0 {
            return None;
        }
        let c = match self {
            Self::Brew => cmd("brew", &["uninstall"], packages),
            Self::Apt => cmd("sudo", &["apt-get", "remove", "-y"], packages),
            Self::Dnf => cmd("sudo", &["dnf", "remove", "-y"], packages),
            Self::Pacman => cmd("sudo", &["pacman", "-R", "--noconfirm"], packages),
            Self::Apk => cmd("sudo", &["apk", "del"], packages),
            Self::Zypper => cmd("sudo", &["zypper", "remove", "-y"], packages),
            Self::Emerge => cmd("sudo", &["emerge", "--unmerge"], packages),
            Self::Yum => cmd("sudo", &["yum", "remove", "-y"], packages),
            Self::Xbps => cmd("sudo", &["xbps-remove", "-R"], packages),
            Self::Nix => cmd("nix-env", &["-e"], packages),
        };
        Some(c)
    }

    /// The commands that upgrade every package this manager handles, in order.
    pub fn upgrade_commands(&self) -> (r: Vec<CommandLine>)
        ensures
            command_views(r@) == upgrade_spec(*self),
    {
        let none: Vec<String> = Vec::new();
        proof {
            assert(strings(none@) =~= Seq::<Seq<char>>::empty());
        }
        let r = match self {
            Self::Brew => two(cmd("brew", &["update"], &none), cmd("brew", &["upgrade"], &none)),
            Self::Apt => two(
                cmd("sudo", &["apt-get", "update", "-q"], &none),
                cmd("sudo", &["apt-get", "upgrade", "-y"], &none),
            ),
            Self::Dnf => one(cmd("sudo", &["dnf", "upgrade", "--refresh", "-y"], &none)),
            Self::Pacman => one(cmd("sudo", &["pacman", "-Syu", "--noconfirm"], &none)),
            Self::Apk => one(cmd("sudo", &["apk", "upgrade"], &none)),
            Self::Zypper => two(
                cmd("sudo", &["zypper", "refresh"], &none),
                cmd("sudo", &["zypper", "update", "-y"], &none),
            ),
            Self::Emerge => two(
                cmd("sudo", &["emerge", "--sync"], &none),
                cmd("sudo", &["emerge", "--update", "--deep", "--newuse", "@world"], &none),
            ),
            Self::Yum => one(cmd("sudo", &["yum", "update", "-y"], &none)),
            Self::Xbps => one(cmd("sudo", &["xbps-install", "-Su"], &none)),
            Self::Nix => two(cmd("nix-channel", &["--update"], &none), cmd("nix-env", &["-u", "*"], &none)),
        };
        assert(command_views(r@) =~~= upgrade_spec(*self));
        r
    }

    /// What upgrading does next, after the first `ran` of `upgrade_commands`
    /// have run and the last of them ended with `last` (`Ok` before any has
    /// run): stop at a failure, otherwise run the next command, or finish.
    pub fn upgrade_step(&self, ran: usize, last: Result<(), OilError>) -> (r: UpgradeNext)
        ensures
            match last {
                Err(e) => r == UpgradeNext::Failed(e),
                Ok(()) => if ran < upgrade_spec(*self).len() {
                    r matches UpgradeNext::Run(c) && c@ == upgrade_spec(*self)[ran as int]
                } else {
                    r is Done
                },
            },
    {
        if let Err(e) = last {
            return UpgradeNext::Failed(e);
        }
        let mut cmds = self.upgrade_commands();
        if ran < cmds.len() {
            let c = cmds.remove(ran);
            assert(c@ == command_views(cmds@.insert(ran as int, c))[ran as int]);
            UpgradeNext::Run(c)
        } else {
            UpgradeNext::Done
        }
    }

    /// The command that lists installed packages (read back with `parse_installed`).
    pub fn list_installed_command(&self) -> (c: CommandLine)
        ensures
            c@ == list_installed_spec(*self),
    {
        let none: Vec<String> = Vec::new();
        let c = match self {
            Self::Brew => cmd("brew", &["list", "--versions"], &none),
            Self::Apt => cmd("dpkg-query", &["-W", r#"-f=${Package}\t${Version}\n"#], &none),
            Self::Dnf | Self::Yum | Self::Zypper => cmd(
                "rpm",
                &["-qa", "--queryformat", "%{NAME}\t%{VERSION}-%{RELEASE}\n"],
                &none,
            ),
            Self::Pacman => cmd("pacman", &["-Q"], &none),
            Self::Apk => cmd("apk", &["info", "-v"], &none),
            Self::Emerge => cmd("qlist", &["-ICv"], &none),
            Self::Xbps => cmd("xbps-query", &["-l"], &none),
            Self::Nix => cmd("nix-env", &["-q"], &none),
        };
        proof {
            assert(strings(none@) =~= Seq::<Seq<char>>::empty());
        }
        c
    }

    /// The command that searches for `query` (read back with `parse_search_results`).
    pub fn search_command(&self, query: &str) -> (c: CommandLine)
        ensures
            c@ == (search_head(*self).0, search_head(*self).1.push(query@)),
    {
        let q = vec![query.to_owned()];
        let c = match self {
            Self::Brew => cmd("brew", &["search"], &q),
            Self::Apt => cmd("apt-cache", &["search"], &q),
            Self::Dnf => cmd("dnf", &["search"], &q),
            Self::Pacman => cmd("pacman", &["-Ss"], &q),
            Self::Apk => cmd("apk", &["search"], &q),
            Self::Zypper => cmd("zypper", &["--non-interactive", "search"], &q),
            Self::Emerge => cmd("emerge", &["--search"], &q),
            Self::Yum => cmd("yum", &["search"], &q),
            Self::Xbps => cmd("xbps-query", &["-Rs"], &q),
            Self::Nix => cmd("nix-env", &["-qaP"], &q),
        };
        proof {
            assert(strings(q@) =~= seq![query@]);
        }
        c
    }
}

// ---------------------------------------------------------------------------
// Running commands
// ---------------------------------------------------------------------------
/// The decimal digits of `n`.
pub open spec fn nat_digits(n: nat) -> Seq<char>
    decreases n,
{
    if n < 10 {
        seq![digit_char(n)]
    } else {
        nat_digits(n / 10).push(digit_char(n % 10))
    }
}

pub open spec fn digit_char(d: nat) -> char {
    if d == 0 { '0' } else if d == 1 { '1' } else if d == 2 { '2' } else if d == 3 { '3' } else if d
        == 4 { '4' } else if d == 5 { '5' } else if d == 6 { '6' } else if d == 7 { '7' } else if d
        == 8 { '8' } else { '9' }
}

/// `n` as `Display` writes an integer: decimal, `-` first when negative.
pub open spec fn decimal(n: int) -> Seq<char> {
    if n < 0 {
        seq!['-'] + nat_digits((-n) as nat)
    } else {
        nat_digits(n as nat)
    }
}

fn digit(d: u64) -> (c: char)
    requires
        d < 10,
    ensures
        c == digit_char(d as nat),
{
    if d == 0 { '0' } else if d == 1 { '1' } else if d == 2 { '2' } else if d == 3 { '3' } else if d
        == 4 { '4' } else if d == 5 { '5' } else if d == 6 { '6' } else if d == 7 { '7' } else if d
        == 8 { '8' } else { '9' }
}

fn push_digits(r: &mut String, n: u64)
    ensures
        final(r)@ == old(r)@ + nat_digits(n as nat),
    decreases n,
{
    if n >= 10 {
        push_digits(r, n / 10);
    }
    push_char(r, digit(n % 10));
}

/// `n` in decimal.
pub fn decimal_string(n: i32) -> (r: String)
    ensures
        r@ == decimal(n as int),
{
    let mut r = String::new();
    if n < 0 {
        push_char(&mut r, '-');
        let m: i64 = -(n as i64);
        push_digits(&mut r, m as u64);
    } else {
        push_digits(&mut r, n as u64);
    }
    r
}

/// Does running `program` first need sudo credentials?
pub fn needs_sudo(program: &str) -> (r: bool)
    ensures
        r == (program@ == "sudo"@),
{
    str_eq(program, "sudo")
}

/// The outcome of a command that ran: `Ok` when it exited successfully,
/// otherwise an install error naming the program and its exit code (`-1`
/// when it was ended by a signal).
pub fn command_outcome(program: &str, success: bool, code: Option<i32>) -> (r: Result<(), OilError>)
    ensures
        success ==> r is Ok,
        !success ==> (r matches Err(e) && e@ == ErrorView::Install(
            program@ + " exited with status "@ + decimal(
                match code {
                    Some(c) => c as int,
                    None => -1,
                },
            ),
        )),
{
    if success {
        return Ok(());
    }
    let c: i32 = match code {
        Some(c) => c,
        None => -1,
    };
    let mut msg = owned(program);
    push_str(&mut msg, " exited with status ");
    let d = decimal_string(c);
    push_str(&mut msg, d.as_str());
    Err(OilError::InstallError(msg))
}

pub trait HitView {
    spec fn deep_view_hit(&self) -> Option<SearchHit>;
}

impl HitView for Option<SystemSearchResult> {
    open spec fn deep_view_hit(&self) -> Option<SearchHit> {
        match self {
            None => None,
            Some(r) => Some(r@),
        }
    }
}

} // verus!

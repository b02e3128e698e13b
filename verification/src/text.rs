//! Character-level helpers over `String` and `&str`, each tied to its `Seq<char>` view.
//!
//! Scanning is expressed over a character sequence `s` and a half-open window
//! `[lo, hi)`, so that the parsers elsewhere can work on one decoded buffer
//! without copying sub-strings around.
use vstd::prelude::*;

verus! {

/// Unicode `White_Space`, the property that `char::is_whitespace`, `str::trim`
/// and `str::split_whitespace` use.
pub open spec fn is_ws(c: char) -> bool {
    let u = c as u32;
    ||| 0x9 <= u <= 0xd
    ||| u == 0x20
    ||| u == 0x85
    ||| u == 0xa0
    ||| u == 0x1680
    ||| 0x2000 <= u <= 0x200a
    ||| u == 0x2028
    ||| u == 0x2029
    ||| u == 0x202f
    ||| u == 0x205f
    ||| u == 0x3000
}

/// Same as `char::is_whitespace`.
pub fn is_whitespace(c: char) -> (b: bool)
    ensures
        b == is_ws(c),
{
    let u = c as u32;
    (0x9 <= u && u <= 0xd) || u == 0x20 || u == 0x85 || u == 0xa0 || u == 0x1680 || (0x2000 <= u
        && u <= 0x200a) || u == 0x2028 || u == 0x2029 || u == 0x202f || u == 0x205f || u == 0x3000
}

/// `c.is_ascii_digit()`.
pub open spec fn is_digit(c: char) -> bool {
    '0' <= c && c <= '9'
}

/// `c.is_ascii_alphanumeric()`.
pub open spec fn is_ascii_alnum(c: char) -> bool {
    ||| ('0' <= c && c <= '9')
    ||| ('a' <= c && c <= 'z')
    ||| ('A' <= c && c <= 'Z')
}

/// `c.to_ascii_lowercase()`.
pub open spec fn ascii_lower(c: char) -> char {
    if 'A' <= c && c <= 'Z' {
        ((c as u32) + 32) as char
    } else {
        c
    }
}

pub fn to_ascii_lower(c: char) -> (r: char)
    ensures
        r == ascii_lower(c),
{
    if 'A' <= c && c <= 'Z' {
        let u = (c as u32) + 32;
        assert(0x61 <= u <= 0x7a);
        let b = u as u8;
        b as char
    } else {
        c
    }
}

/// The character sequence with every ASCII capital letter lowered; other characters kept.
pub open spec fn seq_ascii_lower(s: Seq<char>) -> Seq<char> {
    s.map_values(|c: char| ascii_lower(c))
}

/// Every character is ASCII.
pub open spec fn all_ascii(s: Seq<char>) -> bool {
    forall|i: int| 0 <= i < s.len() ==> (#[trigger] s[i] as u32) < 128
}

/// Sets of characters that scanners stop at or skip over.
#[derive(Clone, Copy, Debug, PartialEq, Eq)]
pub enum CharClass {
    /// Unicode white space.
    Ws,
    /// Exactly this character.
    Is(char),
    /// White space or one of `<`, `>`, `=`: where a dependency name ends.
    DepStop,
}

pub open spec fn in_class(c: char, cls: CharClass) -> bool {
    match cls {
        CharClass::Ws => is_ws(c),
        CharClass::Is(x) => c == x,
        CharClass::DepStop => is_ws(c) || c == '<' || c == '>' || c == '=',
    }
}

pub fn char_in_class(c: char, cls: CharClass) -> (b: bool)
    ensures
        b == in_class(c, cls),
{
    match cls {
        CharClass::Ws => is_whitespace(c),
        CharClass::Is(x) => c == x,
        CharClass::DepStop => is_whitespace(c) || c == '<' || c == '>' || c == '=',
    }
}

/// Starting at `i`, move forward while `i < hi` and `in_class(s[i], cls) == inside`;
/// the first position where that stops.
pub open spec fn skip_fwd(s: Seq<char>, i: int, hi: int, cls: CharClass, inside: bool) -> int
    decreases hi - i,
{
    if i < hi && in_class(s[i], cls) == inside {
        skip_fwd(s, i + 1, hi, cls, inside)
    } else {
        i
    }
}

/// Starting at `j`, move back while `lo < j` and `in_class(s[j - 1], cls) == inside`.
pub open spec fn skip_bwd(s: Seq<char>, lo: int, j: int, cls: CharClass, inside: bool) -> int
    decreases j - lo,
{
    if lo < j && in_class(s[j - 1], cls) == inside {
        skip_bwd(s, lo, j - 1, cls, inside)
    } else {
        j
    }
}

pub proof fn lemma_skip_fwd(s: Seq<char>, i: int, hi: int, cls: CharClass, inside: bool)
    requires
        0 <= i <= hi <= s.len(),
    ensures
        i <= skip_fwd(s, i, hi, cls, inside) <= hi,
        forall|k: int|
            i <= k < skip_fwd(s, i, hi, cls, inside) ==> in_class(s[k], cls) == inside,
        skip_fwd(s, i, hi, cls, inside) < hi ==> in_class(
            s[skip_fwd(s, i, hi, cls, inside)],
            cls,
        ) != inside,
    decreases hi - i,
{
    if i < hi && in_class(s[i], cls) == inside {
        lemma_skip_fwd(s, i + 1, hi, cls, inside);
    }
}

pub proof fn lemma_skip_bwd(s: Seq<char>, lo: int, j: int, cls: CharClass, inside: bool)
    requires
        0 <= lo <= j <= s.len(),
    ensures
        lo <= skip_bwd(s, lo, j, cls, inside) <= j,
        forall|k: int|
            skip_bwd(s, lo, j, cls, inside) <= k < j ==> in_class(s[k], cls) == inside,
        lo < skip_bwd(s, lo, j, cls, inside) ==> in_class(
            s[skip_bwd(s, lo, j, cls, inside) - 1],
            cls,
        ) != inside,
    decreases j - lo,
{
    if lo < j && in_class(s[j - 1], cls) == inside {
        lemma_skip_bwd(s, lo, j - 1, cls, inside);
    }
}

/// Any position with the two properties of `skip_fwd` is `skip_fwd`.
pub proof fn lemma_skip_fwd_unique(
    s: Seq<char>,
    i: int,
    hi: int,
    cls: CharClass,
    inside: bool,
    r: int,
)
    requires
        0 <= i <= r <= hi <= s.len(),
        forall|k: int| i <= k < r ==> in_class(s[k], cls) == inside,
        r < hi ==> in_class(s[r], cls) != inside,
    ensures
        skip_fwd(s, i, hi, cls, inside) == r,
    decreases hi - i,
{
    if i < r {
        lemma_skip_fwd_unique(s, i + 1, hi, cls, inside, r);
    }
}

/// Any position with the two properties of `skip_bwd` is `skip_bwd`.
pub proof fn lemma_skip_bwd_unique(
    s: Seq<char>,
    lo: int,
    j: int,
    cls: CharClass,
    inside: bool,
    r: int,
)
    requires
        0 <= lo <= r <= j <= s.len(),
        forall|k: int| r <= k < j ==> in_class(s[k], cls) == inside,
        lo < r ==> in_class(s[r - 1], cls) != inside,
    ensures
        skip_bwd(s, lo, j, cls, inside) == r,
    decreases j - lo,
{
    if r < j {
        lemma_skip_bwd_unique(s, lo, j - 1, cls, inside, r);
    }
}

pub fn scan_fwd(s: &[char], i: usize, hi: usize, cls: CharClass, inside: bool) -> (r: usize)
    requires
        i <= hi <= s@.len(),
    ensures
        r == skip_fwd(s@, i as int, hi as int, cls, inside),
        i <= r <= hi,
{
    let mut k = i;
    while k < hi && char_in_class(s[k], cls) == inside
        invariant
            i <= k <= hi <= s@.len(),
            skip_fwd(s@, i as int, hi as int, cls, inside) == skip_fwd(
                s@,
                k as int,
                hi as int,
                cls,
                inside,
            ),
        decreases hi - k,
    {
        k = k + 1;
    }
    proof {
        lemma_skip_fwd(s@, i as int, hi as int, cls, inside);
    }
    k
}

pub fn scan_bwd(s: &[char], lo: usize, j: usize, cls: CharClass, inside: bool) -> (r: usize)
    requires
        lo <= j <= s@.len(),
    ensures
        r == skip_bwd(s@, lo as int, j as int, cls, inside),
        lo <= r <= j,
{
    let mut k = j;
    while lo < k && char_in_class(s[k - 1], cls) == inside
        invariant
            lo <= k <= j <= s@.len(),
            skip_bwd(s@, lo as int, j as int, cls, inside) == skip_bwd(
                s@,
                lo as int,
                k as int,
                cls,
                inside,
            ),
        decreases k - lo,
    {
        k = k - 1;
    }
    proof {
        lemma_skip_bwd(s@, lo as int, j as int, cls, inside);
    }
    k
}

/// Start of `s[lo..hi]` with leading white space removed.
pub open spec fn trim_lo(s: Seq<char>, lo: int, hi: int) -> int {
    skip_fwd(s, lo, hi, CharClass::Ws, true)
}

/// End of `s[lo..hi]` with both leading and trailing white space removed.
pub open spec fn trim_hi(s: Seq<char>, lo: int, hi: int) -> int {
    skip_bwd(s, trim_lo(s, lo, hi), hi, CharClass::Ws, true)
}

/// `str::trim`: the sequence without leading and trailing Unicode white space.
pub open spec fn trim(s: Seq<char>) -> Seq<char> {
    s.subrange(trim_lo(s, 0, s.len() as int), trim_hi(s, 0, s.len() as int))
}

/// `str::trim_end`.
pub open spec fn trim_end(s: Seq<char>) -> Seq<char> {
    s.take(skip_bwd(s, 0, s.len() as int, CharClass::Ws, true))
}

/// Bounds of `s[lo..hi]` trimmed on both sides.
pub fn trim_range(s: &[char], lo: usize, hi: usize) -> (r: (usize, usize))
    requires
        lo <= hi <= s@.len(),
    ensures
        r.0 == trim_lo(s@, lo as int, hi as int),
        r.1 == trim_hi(s@, lo as int, hi as int),
        lo <= r.0 <= r.1 <= hi,
{
    let a = scan_fwd(s, lo, hi, CharClass::Ws, true);
    let b = scan_bwd(s, a, hi, CharClass::Ws, true);
    (a, b)
}

/// The position of the first occurrence of `pat` in `s` at or after `i` that ends
/// by `hi`, or `hi` if there is none.
pub open spec fn find_pat(s: Seq<char>, i: int, hi: int, pat: Seq<char>) -> int
    decreases hi - i,
{
    if i >= hi || i + pat.len() > hi {
        hi
    } else if s.subrange(i, i + pat.len()) == pat {
        i
    } else {
        find_pat(s, i + 1, hi, pat)
    }
}

pub proof fn lemma_find_pat(s: Seq<char>, i: int, hi: int, pat: Seq<char>)
    requires
        0 <= i <= hi <= s.len(),
    ensures
        i <= find_pat(s, i, hi, pat) <= hi,
        find_pat(s, i, hi, pat) < hi ==> find_pat(s, i, hi, pat) + pat.len() <= hi && s.subrange(
            find_pat(s, i, hi, pat),
            find_pat(s, i, hi, pat) + pat.len(),
        ) == pat,
    decreases hi - i,
{
    if i >= hi || i + pat.len() > hi {
    } else if s.subrange(i, i + pat.len()) == pat {
    } else {
        lemma_find_pat(s, i + 1, hi, pat);
    }
}

/// Does `s[i..]` start with `pat`?
pub fn matches_at(s: &[char], i: usize, pat: &[char]) -> (b: bool)
    requires
        i <= s@.len(),
    ensures
        b == (i + pat@.len() <= s@.len() && s@.subrange(i as int, i + pat@.len()) == pat@),
{
    if pat.len() > s.len() - i {
        return false;
    }
    let mut k: usize = 0;
    while k < pat.len()
        invariant
            i + pat@.len() <= s@.len(),
            s@.len() == s.len(),
            k <= pat@.len(),
            forall|m: int| 0 <= m < k ==> s@[i + m] == pat@[m],
        decreases pat@.len() - k,
    {
        if s[i + k] != pat[k] {
            assert(s@.subrange(i as int, i + pat@.len())[k as int] != pat@[k as int]);
            return false;
        }
        k = k + 1;
    }
    assert(s@.subrange(i as int, i + pat@.len()) =~= pat@);
    true
}

pub fn find_pattern(s: &[char], i: usize, hi: usize, pat: &[char]) -> (r: usize)
    requires
        i <= hi <= s@.len(),
    ensures
        r == find_pat(s@, i as int, hi as int, pat@),
        i <= r <= hi,
{
    let mut k = i;
    while k < hi
        invariant
            i <= k <= hi <= s@.len(),
            find_pat(s@, i as int, hi as int, pat@) == find_pat(s@, k as int, hi as int, pat@),
        decreases hi - k,
    {
        if pat.len() > hi - k {
            return hi;
        }
        let m = matches_at(s, k, pat);
        if m {
            return k;
        }
        k = k + 1;
    }
    proof {
        lemma_find_pat(s@, i as int, hi as int, pat@);
    }
    if pat.len() == 0 {
        assert(s@.subrange(hi as int, hi as int) =~= pat@);
    }
    hi
}

/// `str::starts_with` with a string pattern.
pub open spec fn starts_with(s: Seq<char>, p: Seq<char>) -> bool {
    p.len() <= s.len() && s.take(p.len() as int) == p
}

/// `s[lo..hi]` as a `String`.
pub fn string_range(s: &[char], lo: usize, hi: usize) -> (r: String)
    requires
        lo <= hi <= s@.len(),
    ensures
        r@ == s@.subrange(lo as int, hi as int),
{
    let mut r = String::new();
    let mut i = lo;
    while i < hi
        invariant
            lo <= i <= hi <= s@.len(),
            r@ == s@.subrange(lo as int, i as int),
        decreases hi - i,
    {
        push_char(&mut r, s[i]);
        assert(s@.subrange(lo as int, i + 1) == s@.subrange(lo as int, i as int).push(s@[i as int]));
        i = i + 1;
    }
    r
}

/// `s[lo..hi]` as a new vector.
pub fn copy_range(s: &[char], lo: usize, hi: usize) -> (r: Vec<char>)
    requires
        lo <= hi <= s@.len(),
    ensures
        r@ == s@.subrange(lo as int, hi as int),
{
    let mut r: Vec<char> = Vec::new();
    let mut i = lo;
    while i < hi
        invariant
            lo <= i <= hi <= s@.len(),
            r@ == s@.subrange(lo as int, i as int),
        decreases hi - i,
    {
        r.push(s[i]);
        assert(s@.subrange(lo as int, i + 1) == s@.subrange(lo as int, i as int).push(s@[i as int]));
        i = i + 1;
    }
    r
}

/// `s[lo..hi]` with surrounding white space removed, or `None` when nothing is left.
pub open spec fn non_empty_win(s: Seq<char>, lo: int, hi: int) -> Option<Seq<char>> {
    if trim_lo(s, lo, hi) == trim_hi(s, lo, hi) {
        None
    } else {
        Some(s.subrange(trim_lo(s, lo, hi), trim_hi(s, lo, hi)))
    }
}

pub fn non_empty_range(s: &[char], lo: usize, hi: usize) -> (r: Option<String>)
    requires
        lo <= hi <= s@.len(),
    ensures
        r.deep_view() == non_empty_win(s@, lo as int, hi as int),
{
    let (a, b) = trim_range(s, lo, hi);
    if a == b {
        None
    } else {
        Some(string_range(s, a, b))
    }
}

/// The first white-space separated word of `s[lo..hi]`, as a window, if any.
pub open spec fn first_word(s: Seq<char>, lo: int, hi: int) -> Option<(int, int)> {
    let a = skip_fwd(s, lo, hi, CharClass::Ws, true);
    if a >= hi {
        None
    } else {
        Some((a, skip_fwd(s, a, hi, CharClass::Ws, false)))
    }
}

pub fn first_word_range(s: &[char], lo: usize, hi: usize) -> (r: Option<(usize, usize)>)
    requires
        lo <= hi <= s@.len(),
    ensures
        match r {
            Some(w) => first_word(s@, lo as int, hi as int) == Some((w.0 as int, w.1 as int)) && lo
                <= w.0 < w.1 <= hi,
            None => first_word(s@, lo as int, hi as int) is None,
        },
{
    let a = scan_fwd(s, lo, hi, CharClass::Ws, true);
    if a >= hi {
        None
    } else {
        let b = scan_fwd(s, a, hi, CharClass::Ws, false);
        proof {
            lemma_skip_fwd(s@, lo as int, hi as int, CharClass::Ws, true);
            lemma_skip_fwd(s@, a as int, hi as int, CharClass::Ws, false);
            assert(skip_fwd(s@, a as int, hi as int, CharClass::Ws, false) > a);
        }
        Some((a, b))
    }
}

/// `String::push` from std: appends one character.
#[verifier::external_body]
pub(crate) fn push_char(s: &mut String, c: char)
    ensures
        final(s)@ == old(s)@.push(c),
{
    s.push(c)
}

/// Appends the string slice `t` to `s`.
pub(crate) fn push_str(s: &mut String, t: &str)
    ensures
        final(s)@ == old(s)@ + t@,
{
    s.append(t)
}

/// The characters of `s`, in order.
pub fn chars_of(s: &str) -> (v: Vec<char>)
    ensures
        v@ == s@,
{
    let mut v: Vec<char> = Vec::new();
    for c in it: s.chars()
        invariant
            v@ == it.seq().take(it.index() as int),
            it.seq() == s@,
    {
        v.push(c);
    }
    v
}

/// A `String` holding exactly the characters of `cs`.
pub fn string_of(cs: &[char]) -> (s: String)
    ensures
        s@ == cs@,
{
    let r = string_range(cs, 0, cs.len());
    assert(cs@.subrange(0, cs@.len() as int) == cs@);
    r
}

/// `str::trim` as an owned string.
pub fn trim_string(s: &str) -> (r: String)
    ensures
        r@ == trim(s@),
{
    let v = chars_of(s);
    let (a, b) = trim_range(v.as_slice(), 0, v.len());
    string_range(v.as_slice(), a, b)
}

/// Names equal up to ASCII case (`str::eq_ignore_ascii_case`).
pub open spec fn eq_ignore_case(a: Seq<char>, b: Seq<char>) -> bool {
    seq_ascii_lower(a) == seq_ascii_lower(b)
}

pub fn eq_ignore_ascii_case(a: &[char], b: &[char]) -> (r: bool)
    ensures
        r == eq_ignore_case(a@, b@),
{
    if a.len() != b.len() {
        assert(seq_ascii_lower(a@).len() != seq_ascii_lower(b@).len());
        return false;
    }
    let mut i: usize = 0;
    while i < a.len()
        invariant
            i <= a@.len() == b@.len(),
            forall|j: int| 0 <= j < i ==> ascii_lower(a@[j]) == ascii_lower(b@[j]),
        decreases a@.len() - i,
    {
        if to_ascii_lower(a[i]) != to_ascii_lower(b[i]) {
            assert(seq_ascii_lower(a@)[i as int] != seq_ascii_lower(b@)[i as int]);
            return false;
        }
        i = i + 1;
    }
    assert(seq_ascii_lower(a@) =~= seq_ascii_lower(b@));
    true
}

/// `str::eq_ignore_ascii_case`.
pub fn str_eq_ignore_ascii_case(a: &str, b: &str) -> (r: bool)
    ensures
        r == eq_ignore_case(a@, b@),
{
    let x = chars_of(a);
    let y = chars_of(b);
    eq_ignore_ascii_case(x.as_slice(), y.as_slice())
}

/// Do two strings hold the same characters?
pub fn str_eq(a: &str, b: &str) -> (r: bool)
    ensures
        r == (a@ == b@),
{
    let x = chars_of(a);
    let y = chars_of(b);
    crate::order::chars_eq(x.as_slice(), y.as_slice())
}

/// `str::starts_with` with a string pattern.
pub fn str_starts_with(s: &str, p: &str) -> (r: bool)
    ensures
        r == starts_with(s@, p@),
{
    let x = chars_of(s);
    let y = chars_of(p);
    let m = matches_at(x.as_slice(), 0, y.as_slice());
    proof {
        assert(m ==> x@.take(y@.len() as int) == x@.subrange(0, y@.len() as int));
        assert(starts_with(s@, p@) ==> x@.subrange(0, y@.len() as int) == x@.take(y@.len() as int));
    }
    m
}

/// `String::from_utf8` from std: the text the bytes encode when they are valid
/// UTF-8, otherwise the error's text (its wording is not stated).
#[verifier::external_body]
pub(crate) fn decode_utf8_text(bytes: Vec<u8>) -> (r: Result<String, String>)
    ensures
        match r {
            Ok(s) => vstd::utf8::valid_utf8(bytes@) && s@ == vstd::utf8::decode_utf8(bytes@),
            Err(_) => !vstd::utf8::valid_utf8(bytes@),
        },
{
    String::from_utf8(bytes).map_err(|e| e.to_string())
}

/// What `str::to_lowercase` makes of `s`.
pub uninterp spec fn unicode_lowercase(s: Seq<char>) -> Seq<char>;

/// `str::to_lowercase` from std. Text that is all ASCII comes back with each
/// letter lowered as `to_ascii_lowercase` does; beyond ASCII the Unicode case
/// tables decide, which is not stated here.
#[verifier::external_body]
pub(crate) fn to_lowercase(s: &str) -> (r: String)
    ensures
        r@ == unicode_lowercase(s@),
        (forall|i: int| 0 <= i < s@.len() ==> (#[trigger] s@[i] as u32) < 128) ==> r@
            == seq_ascii_lower(s@),
{
    s.to_lowercase()
}

/// A copy of a string literal or slice as an owned `String`.
pub fn owned(s: &str) -> (r: String)
    ensures
        r@ == s@,
{
    s.to_owned()
}

/// `str::lines`: split at `\n`, dropping a `\r` right before it; no final empty line.
pub open spec fn lines(s: Seq<char>) -> Seq<Seq<char>>
    decreases s.len(),
{
    if s.len() == 0 {
        seq![]
    } else {
        let nl = skip_fwd(s, 0, s.len() as int, CharClass::Is('\n'), false);
        if nl < s.len() {
            proof {
                lemma_skip_fwd(s, 0, s.len() as int, CharClass::Is('\n'), false);
            }
            let line = s.take(nl);
            let line = if line.len() > 0 && line.last() == '\r' {
                line.drop_last()
            } else {
                line
            };
            seq![line] + lines(s.skip(nl + 1))
        } else {
            seq![s]
        }
    }
}

/// Half-open windows of `s` that `lines` yields, in order.
pub fn line_ranges(s: &[char]) -> (r: Vec<(usize, usize)>)
    ensures
        r@.len() == lines(s@).len(),
        forall|k: int|
            0 <= k < r@.len() ==> (#[trigger] r@[k]).0 <= r@[k].1 <= s@.len() && s@.subrange(
                r@[k].0 as int,
                r@[k].1 as int,
            ) == lines(s@)[k],
{
    let mut r: Vec<(usize, usize)> = Vec::new();
    let mut i: usize = 0;
    let n = s.len();
    assert(s@.skip(0) == s@);
    while i < n
        invariant
            i <= n == s@.len(),
            lines(s@) == r@.map_values(|p: (usize, usize)| s@.subrange(p.0 as int, p.1 as int))
                + lines(s@.skip(i as int)),
            forall|k: int| 0 <= k < r@.len() ==> #[trigger] r@[k].0 <= r@[k].1 <= s@.len(),
        decreases n - i,
    {
        let ghost t = s@.skip(i as int);
        let nl = scan_fwd(s, i, n, CharClass::Is('\n'), false);
        proof {
            lemma_skip_fwd(s@, i as int, n as int, CharClass::Is('\n'), false);
            lemma_skip_fwd(t, 0, t.len() as int, CharClass::Is('\n'), false);
            lemma_skip_fwd_unique(
                t,
                0,
                t.len() as int,
                CharClass::Is('\n'),
                false,
                nl - i,
            );
        }
        let ghost old_r = r@;
        if nl < n {
            let mut end = nl;
            if end > i && s[end - 1] == '\r' {
                end = end - 1;
            }
            r.push((i, end));
            proof {
                let line = t.take(nl - i);
                assert(t.take(nl - i) == s@.subrange(i as int, nl as int));
                assert(t.skip(nl - i + 1) == s@.skip(nl + 1));
                if nl > i && s@[nl - 1] == '\r' {
                    assert(line.drop_last() == s@.subrange(i as int, end as int));
                }
                assert(r@.map_values(|p: (usize, usize)| s@.subrange(p.0 as int, p.1 as int))
                    == old_r.map_values(|p: (usize, usize)| s@.subrange(p.0 as int, p.1 as int))
                    + seq![s@.subrange(i as int, end as int)]);
            }
            i = nl + 1;
        } else {
            r.push((i, n));
            proof {
                assert(t == s@.subrange(i as int, n as int));
                assert(s@.skip(n as int) =~= Seq::<char>::empty());
                assert(r@.map_values(|p: (usize, usize)| s@.subrange(p.0 as int, p.1 as int))
                    == old_r.map_values(|p: (usize, usize)| s@.subrange(p.0 as int, p.1 as int))
                    + seq![s@.subrange(i as int, n as int)]);
            }
            i = n;
        }
    }
    proof {
        assert(s@.skip(n as int) =~= Seq::<char>::empty());
        assert(lines(s@) =~= r@.map_values(
            |p: (usize, usize)| s@.subrange(p.0 as int, p.1 as int),
        ));
    }
    r
}

} // verus!

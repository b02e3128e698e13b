//! Unix paths held as strings: joining and prefix tests with `Path`'s meaning.
use vstd::prelude::*;

use crate::order::{chars_eq, chars_lt, lemma_lt_irreflexive, lemma_lt_transitive, seq_lt};
use crate::text::{chars_of, copy_range, in_class, lemma_skip_fwd, lemma_skip_fwd_unique, push_char, push_str, scan_fwd, skip_fwd, CharClass};

verus! {

/// `Path::join` on Unix: an absolute `rel` replaces `base`; otherwise `rel` is
/// appended after a `/`, which is left out when `base` is empty or already ends
/// with one.
pub open spec fn join_spec(base: Seq<char>, rel: Seq<char>) -> Seq<char> {
    if rel.len() > 0 && rel[0] == '/' {
        rel
    } else if base.len() == 0 || base.last() == '/' {
        base + rel
    } else {
        base + seq!['/'] + rel
    }
}

/// `base.join(rel)` as a string.
pub fn path_join(base: &str, rel: &str) -> (r: String)
    ensures
        r@ == join_spec(base@, rel@),
{
    let b = chars_of(base);
    let rv = chars_of(rel);
    if rv.len() > 0 && rv[0] == '/' {
        return rel.to_owned();
    }
    let mut r = base.to_owned();
    if !(b.len() == 0 || b[b.len() - 1] == '/') {
        push_char(&mut r, '/');
    }
    push_str(&mut r, rel);
    r
}

/// oil's bin directory (where installed binaries are linked) under the
/// install prefix.
pub fn oil_bin_dir(install_prefix: &str) -> (r: String)
    ensures
        r@ == join_spec(install_prefix@, "bin"@),
{
    path_join(install_prefix, "bin")
}

/// The normal components of `p` from position `i` on: the pieces between `/`
/// separators, without empty pieces and `.` pieces.
pub open spec fn comps_from(p: Seq<char>, i: int) -> Seq<Seq<char>>
    decreases p.len() - i,
{
    let a = skip_fwd(p, i, p.len() as int, CharClass::Is('/'), true);
    if i < 0 || a >= p.len() {
        seq![]
    } else {
        let b = skip_fwd(p, a, p.len() as int, CharClass::Is('/'), false);
        proof {
            lemma_skip_fwd(p, i, p.len() as int, CharClass::Is('/'), true);
            lemma_skip_fwd(p, a, p.len() as int, CharClass::Is('/'), false);
        }
        let c = p.subrange(a, b);
        if c == seq!['.'] {
            comps_from(p, b)
        } else {
            seq![c] + comps_from(p, b)
        }
    }
}

/// The components of a Unix path as `Path::components` gives them: a leading
/// `/` (the root) or a leading `.` piece, then the normal components.
pub open spec fn components(p: Seq<char>) -> Seq<Seq<char>> {
    if p.len() > 0 && p[0] == '/' {
        seq![seq!['/']] + comps_from(p, 0)
    } else if p.len() > 0 && p[0] == '.' && (p.len() == 1 || p[1] == '/') {
        seq![seq!['.']] + comps_from(p, 0)
    } else {
        comps_from(p, 0)
    }
}

/// `Path::starts_with`: the components of `base` are the first components of `p`.
pub open spec fn path_starts_with_spec(p: Seq<char>, base: Seq<char>) -> bool {
    components(base).len() <= components(p).len() && components(p).take(
        components(base).len() as int,
    ) == components(base)
}

pub(crate) fn comps_exec(p: &[char]) -> (r: Vec<Vec<char>>)
    ensures
        comp_views(r@) == components(p@),
{
    let n = p.len();
    let mut r: Vec<Vec<char>> = Vec::new();
    if n > 0 && p[0] == '/' {
        let mut c: Vec<char> = Vec::new();
        c.push('/');
        r.push(c);
        assert(r@.map_values(|c: Vec<char>| c@) =~= seq![seq!['/']]);
    } else if n > 0 && p[0] == '.' && (n == 1 || p[1] == '/') {
        let mut c: Vec<char> = Vec::new();
        c.push('.');
        r.push(c);
        assert(r@.map_values(|c: Vec<char>| c@) =~= seq![seq!['.']]);
    } else {
        assert(r@.map_values(|c: Vec<char>| c@) =~= Seq::<Seq<char>>::empty());
    }
    let ghost head = r@.map_values(|c: Vec<char>| c@);
    proof {
        assert(components(p@) == head + comps_from(p@, 0));
    }
    let mut i: usize = 0;
    while i < n
        invariant
            i <= n == p@.len(),
            components(p@) == r@.map_values(|c: Vec<char>| c@) + comps_from(p@, i as int),
        decreases n - i,
    {
        let a = scan_fwd(p, i, n, CharClass::Is('/'), true);
        if a >= n {
            proof {
                assert(comps_from(p@, a as int) =~= Seq::<Seq<char>>::empty());
                assert(comps_from(p@, n as int) =~= Seq::<Seq<char>>::empty());
            }
            i = n;
        } else {
            let b = scan_fwd(p, a, n, CharClass::Is('/'), false);
            proof {
                lemma_skip_fwd(p@, i as int, n as int, CharClass::Is('/'), true);
                lemma_skip_fwd(p@, a as int, n as int, CharClass::Is('/'), false);
            }
            let c = copy_range(p, a, b);
            let ghost before = r@.map_values(|c: Vec<char>| c@);
            if !(c.len() == 1 && c[0] == '.') {
                r.push(c);
                proof {
                    assert(r@.map_values(|c: Vec<char>| c@) =~= before.push(c@));
                    assert(before.push(c@) + comps_from(p@, b as int) =~= before + (seq![c@] + comps_from(p@, b as int)));
                }
            } else {
                proof {
                    assert(c@ =~= seq!['.']);
                }
            }
            i = b;
        }
    }
    proof {
        assert(comps_from(p@, n as int) =~= Seq::<Seq<char>>::empty());
        assert(components(p@) =~= r@.map_values(|c: Vec<char>| c@));
        assert(comp_views(r@) =~= r@.map_values(|c: Vec<char>| c@));
    }
    r
}

/// Does the path `p` lie under `base` (component-wise, as `Path::starts_with`)?
pub fn path_starts_with(p: &str, base: &str) -> (r: bool)
    ensures
        r == path_starts_with_spec(p@, base@),
{
    let pv = chars_of(p);
    let bv = chars_of(base);
    let pc = comps_exec(pv.as_slice());
    let bc = comps_exec(bv.as_slice());
    let ghost ps = comp_views(pc@);
    let ghost bs = comp_views(bc@);
    if bc.len() > pc.len() {
        return false;
    }
    let mut k: usize = 0;
    while k < bc.len()
        invariant
            k <= bc@.len() <= pc@.len(),
            ps == comp_views(pc@),
            bs == comp_views(bc@),
            forall|j: int| 0 <= j < k ==> ps[j] == bs[j],
            ps == components(p@),
            bs == components(base@),
        decreases bc@.len() - k,
    {
        if !chars_eq(pc[k].as_slice(), bc[k].as_slice()) {
            proof {
                assert(ps[k as int] == pc@[k as int]@);
                assert(bs[k as int] == bc@[k as int]@);
                assert(ps.take(bs.len() as int)[k as int] != bs[k as int]);
            }
            return false;
        }
        k = k + 1;
    }
    proof {
        assert(ps.take(bs.len() as int) =~= bs);
    }
    true
}


// ---------------------------------------------------------------------------
// Order
// ---------------------------------------------------------------------------
/// Where a component stands in `Component`'s order: the root, then `.`,
/// then `..`, then names.
pub open spec fn comp_rank(c: Seq<char>) -> int {
    if c == seq!['/'] {
        0
    } else if c == seq!['.'] {
        1
    } else if c == seq!['.', '.'] {
        2
    } else {
        3
    }
}

/// One component before another: by rank, names by their bytes.
pub open spec fn comp_lt(a: Seq<char>, b: Seq<char>) -> bool {
    comp_rank(a) < comp_rank(b) || (comp_rank(a) == comp_rank(b) && seq_lt(a, b))
}

/// Component lists in lexicographic order.
pub open spec fn comps_lt(x: Seq<Seq<char>>, y: Seq<Seq<char>>) -> bool
    decreases x.len(),
{
    if x.len() == 0 {
        y.len() > 0
    } else if y.len() == 0 {
        false
    } else if x[0] == y[0] {
        comps_lt(x.drop_first(), y.drop_first())
    } else {
        comp_lt(x[0], y[0])
    }
}

/// `a < b` as `Path`s compare: component by component.
pub open spec fn path_lt(a: Seq<char>, b: Seq<char>) -> bool {
    comps_lt(components(a), components(b))
}

/// `a == b` as `Path`s compare: the same components.
pub open spec fn path_eq(a: Seq<char>, b: Seq<char>) -> bool {
    components(a) == components(b)
}

fn rank_exec(c: &[char]) -> (r: u8)
    ensures
        r as int == comp_rank(c@),
{
    if c.len() == 1 && c[0] == '/' {
        assert(c@ =~= seq!['/']);
        0
    } else if c.len() == 1 && c[0] == '.' {
        assert(c@ =~= seq!['.']);
        1
    } else if c.len() == 2 && c[0] == '.' && c[1] == '.' {
        assert(c@ =~= seq!['.', '.']);
        2
    } else {
        assert(c@ != seq!['/'] && c@ != seq!['.'] && c@ != seq!['.', '.']) by {
            if c@ == seq!['/'] || c@ == seq!['.'] {
                assert(c@.len() == 1);
            }
            if c@ == seq!['.', '.'] {
                assert(c@.len() == 2);
            }
        }
        3
    }
}

pub open spec fn comp_views(v: Seq<Vec<char>>) -> Seq<Seq<char>> {
    v.map_values(|c: Vec<char>| c@)
}

fn comps_lt_exec(x: &Vec<Vec<char>>, y: &Vec<Vec<char>>) -> (r: bool)
    ensures
        r == comps_lt(comp_views(x@), comp_views(y@)),
{
    let ghost xs = comp_views(x@);
    let ghost ys = comp_views(y@);
    let mut i: usize = 0;
    assert(xs.skip(0) == xs);
    assert(ys.skip(0) == ys);
    while i < x.len() && i < y.len() && chars_eq(x[i].as_slice(), y[i].as_slice())
        invariant
            i <= x@.len(),
            i <= y@.len(),
            xs == comp_views(x@),
            ys == comp_views(y@),
            comps_lt(xs, ys) == comps_lt(xs.skip(i as int), ys.skip(i as int)),
        decreases x@.len() - i,
    {
        proof {
            assert(xs.skip(i as int).drop_first() == xs.skip(i + 1));
            assert(ys.skip(i as int).drop_first() == ys.skip(i + 1));
            assert(xs.skip(i as int)[0] == x@[i as int]@);
            assert(ys.skip(i as int)[0] == y@[i as int]@);
        }
        i = i + 1;
    }
    if i == x.len() {
        i < y.len()
    } else if i == y.len() {
        false
    } else {
        proof {
            assert(xs.skip(i as int)[0] == x@[i as int]@);
            assert(ys.skip(i as int)[0] == y@[i as int]@);
        }
        let ra = rank_exec(x[i].as_slice());
        let rb = rank_exec(y[i].as_slice());
        ra < rb || (ra == rb && chars_lt(x[i].as_slice(), y[i].as_slice()))
    }
}

fn comps_eq_exec(x: &Vec<Vec<char>>, y: &Vec<Vec<char>>) -> (r: bool)
    ensures
        r == (comp_views(x@) == comp_views(y@)),
{
    if x.len() != y.len() {
        return false;
    }
    let mut i: usize = 0;
    while i < x.len()
        invariant
            i <= x@.len() == y@.len(),
            forall|k: int| 0 <= k < i ==> x@[k]@ == y@[k]@,
        decreases x@.len() - i,
    {
        if !chars_eq(x[i].as_slice(), y[i].as_slice()) {
            assert(comp_views(x@)[i as int] != comp_views(y@)[i as int]);
            return false;
        }
        i = i + 1;
    }
    assert(comp_views(x@) =~= comp_views(y@));
    true
}

/// The components of a path, for comparisons.
pub fn path_components(p: &str) -> (r: Vec<Vec<char>>)
    ensures
        comp_views(r@) == components(p@),
{
    let v = chars_of(p);
    comps_exec(v.as_slice())
}

/// `a < b` as `Path`s compare.
pub fn path_less(a: &str, b: &str) -> (r: bool)
    ensures
        r == path_lt(a@, b@),
{
    let x = path_components(a);
    let y = path_components(b);
    comps_lt_exec(&x, &y)
}

/// `a == b` as `Path`s compare.
pub fn path_equal(a: &str, b: &str) -> (r: bool)
    ensures
        r == path_eq(a@, b@),
{
    let x = path_components(a);
    let y = path_components(b);
    comps_eq_exec(&x, &y)
}

/// `x` put into `s` after every path not greater than it (one step of a
/// stable insertion sort).
pub open spec fn insert_path(s: Seq<Seq<char>>, x: Seq<char>) -> Seq<Seq<char>>
    decreases s.len(),
{
    if s.len() == 0 {
        seq![x]
    } else if path_lt(x, s[0]) {
        seq![x] + s
    } else {
        seq![s[0]] + insert_path(s.drop_first(), x)
    }
}

/// `s` sorted stably in `Path` order (what `slice::sort` gives).
pub open spec fn sort_paths_spec(s: Seq<Seq<char>>) -> Seq<Seq<char>>
    decreases s.len(),
{
    if s.len() == 0 {
        seq![]
    } else {
        insert_path(sort_paths_spec(s.drop_last()), s.last())
    }
}

/// The first position at or after `k` whose path is greater than `x`.
pub open spec fn insert_pos(s: Seq<Seq<char>>, x: Seq<char>, k: int) -> int
    decreases s.len() - k,
{
    if k < 0 || k >= s.len() {
        s.len() as int
    } else if path_lt(x, s[k]) {
        k
    } else {
        insert_pos(s, x, k + 1)
    }
}

proof fn lemma_insert_path(s: Seq<Seq<char>>, x: Seq<char>, k: int)
    requires
        0 <= k <= s.len(),
    ensures
        k <= insert_pos(s, x, k) <= s.len(),
        insert_path(s.skip(k), x) == s.subrange(k, insert_pos(s, x, k)) + seq![x] + s.skip(
            insert_pos(s, x, k),
        ),
    decreases s.len() - k,
{
    let t = s.skip(k);
    if k == s.len() {
        assert(t =~= Seq::<Seq<char>>::empty());
        assert(s.subrange(k, k) + seq![x] + s.skip(k) =~= seq![x]);
    } else if path_lt(x, s[k]) {
        assert(t[0] == s[k]);
        assert(s.subrange(k, k) + seq![x] + s.skip(k) =~= seq![x] + t);
    } else {
        lemma_insert_path(s, x, k + 1);
        assert(t[0] == s[k]);
        assert(t.drop_first() =~= s.skip(k + 1));
        let p = insert_pos(s, x, k + 1);
        assert(seq![s[k]] + (s.subrange(k + 1, p) + seq![x] + s.skip(p)) =~= s.subrange(k, p)
            + seq![x] + s.skip(p));
    }
}

/// `paths` sorted in `Path` order, stably (see `sort_paths_spec`).
pub fn sort_paths(paths: Vec<String>) -> (r: Vec<String>)
    ensures
        r.deep_view() == sort_paths_spec(paths.deep_view()),
{
    let ghost input = paths.deep_view();
    let mut r: Vec<String> = Vec::new();
    let mut i: usize = 0;
    while i < paths.len()
        invariant
            i <= paths@.len(),
            input == paths.deep_view(),
            r.deep_view() == sort_paths_spec(input.take(i as int)),
        decreases paths@.len() - i,
    {
        let x = paths[i].clone();
        let ghost sv = r.deep_view();
        let mut k: usize = 0;
        while k < r.len() && !path_less(x.as_str(), r[k].as_str())
            invariant
                k <= r@.len(),
                sv == r.deep_view(),
                insert_pos(sv, x@, 0) == insert_pos(sv, x@, k as int),
            decreases r@.len() - k,
        {
            k = k + 1;
        }
        proof {
            assert(insert_pos(sv, x@, k as int) == k);
            lemma_insert_path(sv, x@, 0);
            assert(sv.skip(0) == sv);
            assert(input.take(i + 1).drop_last() == input.take(i as int));
            assert(input.take(i + 1).last() == x@);
        }
        r.insert(k, x);
        proof {
            assert(r.deep_view() =~= sv.subrange(0, k as int) + seq![x@] + sv.skip(k as int));
        }
        i = i + 1;
    }
    proof {
        assert(input.take(paths@.len() as int) == input);
    }
    r
}

// ---------------------------------------------------------------------------
// Laws of the order and of sorting
// ---------------------------------------------------------------------------
proof fn lemma_comp_lt_irreflexive(a: Seq<char>)
    ensures
        !comp_lt(a, a),
{
    lemma_lt_irreflexive(a);
}

proof fn lemma_comp_lt_transitive(a: Seq<char>, b: Seq<char>, c: Seq<char>)
    requires
        comp_lt(a, b),
        comp_lt(b, c),
    ensures
        comp_lt(a, c),
{
    if comp_rank(a) == comp_rank(b) && comp_rank(b) == comp_rank(c) {
        lemma_lt_transitive(a, b, c);
    }
}

proof fn lemma_comps_lt_irreflexive(x: Seq<Seq<char>>)
    ensures
        !comps_lt(x, x),
    decreases x.len(),
{
    if x.len() > 0 {
        lemma_comps_lt_irreflexive(x.drop_first());
    }
}

proof fn lemma_comps_lt_transitive(x: Seq<Seq<char>>, y: Seq<Seq<char>>, z: Seq<Seq<char>>)
    requires
        comps_lt(x, y),
        comps_lt(y, z),
    ensures
        comps_lt(x, z),
    decreases x.len(),
{
    if x.len() > 0 && y.len() > 0 && z.len() > 0 {
        if x[0] == y[0] && y[0] == z[0] {
            lemma_comps_lt_transitive(x.drop_first(), y.drop_first(), z.drop_first());
        } else if x[0] == y[0] {
        } else if y[0] == z[0] {
        } else {
            lemma_comp_lt_transitive(x[0], y[0], z[0]);
            if x[0] == z[0] {
                lemma_comp_lt_irreflexive(x[0]);
                lemma_comp_lt_transitive(x[0], y[0], x[0]);
            }
        }
    }
}

/// `Path` order is a strict order: irreflexive and transitive.
pub proof fn law_path_order_strict(a: Seq<char>, b: Seq<char>, c: Seq<char>)
    ensures
        !path_lt(a, a),
        path_lt(a, b) && path_lt(b, c) ==> path_lt(a, c),
        path_lt(a, b) ==> !path_lt(b, a),
{
    lemma_comps_lt_irreflexive(components(a));
    if path_lt(a, b) && path_lt(b, c) {
        lemma_comps_lt_transitive(components(a), components(b), components(c));
    }
    if path_lt(a, b) && path_lt(b, a) {
        lemma_comps_lt_transitive(components(a), components(b), components(a));
        lemma_comps_lt_irreflexive(components(a));
    }
}

/// No path of `s` comes before an earlier one.
pub open spec fn paths_sorted(s: Seq<Seq<char>>) -> bool {
    forall|i: int, j: int| 0 <= i < j < s.len() ==> !path_lt(#[trigger] s[j], #[trigger] s[i])
}

proof fn lemma_insert_pos_before(s: Seq<Seq<char>>, x: Seq<char>, k: int, i: int)
    requires
        0 <= k <= i < insert_pos(s, x, k),
        insert_pos(s, x, k) <= s.len(),
    ensures
        !path_lt(x, s[i]),
    decreases s.len() - k,
{
    if k < s.len() && !path_lt(x, s[k]) && k < i {
        lemma_insert_pos_before(s, x, k + 1, i);
    }
}

proof fn lemma_insert_pos_at(s: Seq<Seq<char>>, x: Seq<char>, k: int)
    requires
        0 <= k,
        insert_pos(s, x, k) < s.len(),
    ensures
        path_lt(x, s[insert_pos(s, x, k)]),
    decreases s.len() - k,
{
    if k < s.len() && !path_lt(x, s[k]) {
        lemma_insert_pos_at(s, x, k + 1);
    }
}

proof fn lemma_insert_sorted(s: Seq<Seq<char>>, x: Seq<char>)
    requires
        paths_sorted(s),
    ensures
        paths_sorted(insert_path(s, x)),
        insert_path(s, x).to_multiset() == s.to_multiset().insert(x),
{
    lemma_insert_path(s, x, 0);
    assert(s.skip(0) == s);
    let p = insert_pos(s, x, 0);
    let r = insert_path(s, x);
    assert(r =~= s.insert(p, x));
    vstd::seq_lib::to_multiset_insert(s, p, x);
    assert forall|i: int, j: int| 0 <= i < j < r.len() implies !path_lt(#[trigger] r[j], #[trigger] r[i]) by {
        if j < p {
            assert(r[i] == s[i] && r[j] == s[j]);
        } else if j == p {
            assert(r[i] == s[i] && r[j] == x);
            lemma_insert_pos_before(s, x, 0, i);
        } else if i < p {
            assert(r[i] == s[i] && r[j] == s[j - 1]);
        } else if i == p {
            assert(r[i] == x && r[j] == s[j - 1]);
            lemma_insert_pos_at(s, x, 0);
            if path_lt(s[j - 1], x) {
                law_path_order_strict(s[j - 1], x, s[p]);
                if j - 1 == p {
                    law_path_order_strict(s[p], s[p], s[p]);
                }
            }
        } else {
            assert(r[i] == s[i - 1] && r[j] == s[j - 1]);
        }
    }
}

/// Sorting paths orders them (no path before an earlier one in `Path`
/// order) and keeps exactly the paths given, duplicates included.
pub proof fn law_sort_paths_sorted(s: Seq<Seq<char>>)
    ensures
        paths_sorted(sort_paths_spec(s)),
        sort_paths_spec(s).to_multiset() == s.to_multiset(),
    decreases s.len(),
{
    if s.len() == 0 {
        assert(sort_paths_spec(s) =~= s);
    } else {
        law_sort_paths_sorted(s.drop_last());
        lemma_insert_sorted(sort_paths_spec(s.drop_last()), s.last());
        assert(s =~= s.drop_last().push(s.last()));
        vstd::seq_lib::to_multiset_build(s.drop_last(), s.last());
    }
}

// ---------------------------------------------------------------------------
// Components of joined paths
// ---------------------------------------------------------------------------
proof fn lemma_skip_shift(a: Seq<char>, b: Seq<char>, j: int, cls: CharClass, inside: bool)
    requires
        0 <= j <= b.len(),
    ensures
        skip_fwd(a + b, a.len() + j, (a.len() + b.len()) as int, cls, inside) == a.len() + skip_fwd(
            b,
            j,
            b.len() as int,
            cls,
            inside,
        ),
    decreases b.len() - j,
{
    let p = a + b;
    if j < b.len() {
        assert(p[a.len() + j] == b[j]);
        if in_class(b[j], cls) == inside {
            lemma_skip_shift(a, b, j + 1, cls, inside);
        }
    }
}

proof fn lemma_comps_shift(a: Seq<char>, b: Seq<char>, j: int)
    requires
        0 <= j <= b.len(),
    ensures
        comps_from(a + b, a.len() + j) == comps_from(b, j),
    decreases b.len() - j,
{
    let p = a + b;
    let n = a.len() as int;
    lemma_skip_shift(a, b, j, CharClass::Is('/'), true);
    let sb = skip_fwd(b, j, b.len() as int, CharClass::Is('/'), true);
    lemma_skip_fwd(b, j, b.len() as int, CharClass::Is('/'), true);
    assert(p.len() == n + b.len());
    if sb < b.len() {
        lemma_skip_shift(a, b, sb, CharClass::Is('/'), false);
        let eb = skip_fwd(b, sb, b.len() as int, CharClass::Is('/'), false);
        lemma_skip_fwd(b, sb, b.len() as int, CharClass::Is('/'), false);
        assert(eb > sb);
        assert(p.subrange(n + sb, n + eb) =~= b.subrange(sb, eb));
        lemma_comps_shift(a, b, eb);
    }
}

proof fn lemma_comps_all_slash(p: Seq<char>, i: int, n: int)
    requires
        0 <= i <= n <= p.len(),
        forall|k: int| i <= k < n ==> p[k] == '/',
    ensures
        comps_from(p, i) == comps_from(p, n),
{
    let r = skip_fwd(p, n, p.len() as int, CharClass::Is('/'), true);
    lemma_skip_fwd(p, n, p.len() as int, CharClass::Is('/'), true);
    lemma_skip_fwd_unique(p, i, p.len() as int, CharClass::Is('/'), true, r);
}

proof fn lemma_comps_concat(a: Seq<char>, b: Seq<char>, i: int)
    requires
        0 <= i <= a.len(),
        a.len() == 0 || a.last() == '/',
    ensures
        comps_from(a + b, i) == comps_from(a, i) + comps_from(b, 0),
    decreases a.len() - i,
{
    let p = a + b;
    let n = a.len() as int;
    if i == n {
        lemma_comps_shift(a, b, 0);
        assert(comps_from(a, n) =~= Seq::<Seq<char>>::empty());
        assert(comps_from(a, i) + comps_from(b, 0) =~= comps_from(b, 0));
        return;
    }
    let sa = skip_fwd(a, i, n, CharClass::Is('/'), true);
    lemma_skip_fwd(a, i, n, CharClass::Is('/'), true);
    if sa == n {
        assert forall|k: int| i <= k < n implies p[k] == '/' by {
            assert(in_class(a[k], CharClass::Is('/')) == true);
        }
        lemma_comps_all_slash(p, i, n);
        lemma_comps_shift(a, b, 0);
        assert(comps_from(a, i) =~= Seq::<Seq<char>>::empty());
        assert(comps_from(a, i) + comps_from(b, 0) =~= comps_from(b, 0));
    } else {
        lemma_skip_fwd_unique(p, i, p.len() as int, CharClass::Is('/'), true, sa);
        let ea = skip_fwd(a, sa, n, CharClass::Is('/'), false);
        lemma_skip_fwd(a, sa, n, CharClass::Is('/'), false);
        assert(ea < n) by {
            if ea == n {
                assert(in_class(a[n - 1], CharClass::Is('/')) == false);
            }
        }
        lemma_skip_fwd_unique(p, sa, p.len() as int, CharClass::Is('/'), false, ea);
        assert(p.subrange(sa, ea) =~= a.subrange(sa, ea));
        lemma_comps_concat(a, b, ea);
        let c = a.subrange(sa, ea);
        if c == seq!['.'] {
        } else {
            assert(seq![c] + comps_from(a, ea) + comps_from(b, 0) =~= seq![c] + (comps_from(a, ea)
                + comps_from(b, 0)));
        }
    }
}

proof fn lemma_comps_trailing_slash(a: Seq<char>, i: int)
    requires
        0 <= i <= a.len(),
    ensures
        comps_from(a.push('/'), i) == comps_from(a, i),
    decreases a.len() - i,
{
    let p = a.push('/');
    let n = a.len() as int;
    let sa = skip_fwd(a, i, n, CharClass::Is('/'), true);
    lemma_skip_fwd(a, i, n, CharClass::Is('/'), true);
    if sa == n {
        lemma_skip_fwd_unique(p, i, p.len() as int, CharClass::Is('/'), true, n + 1);
        assert(comps_from(a, i) =~= Seq::<Seq<char>>::empty());
    } else {
        lemma_skip_fwd_unique(p, i, p.len() as int, CharClass::Is('/'), true, sa);
        let ea = skip_fwd(a, sa, n, CharClass::Is('/'), false);
        lemma_skip_fwd(a, sa, n, CharClass::Is('/'), false);
        lemma_skip_fwd_unique(p, sa, p.len() as int, CharClass::Is('/'), false, ea);
        assert(p.subrange(sa, ea) =~= a.subrange(sa, ea));
        if ea < n {
            lemma_comps_trailing_slash(a, ea);
        } else {
            lemma_skip_fwd_unique(p, n, p.len() as int, CharClass::Is('/'), true, n + 1);
            assert(comps_from(a, n) =~= Seq::<Seq<char>>::empty());
        }
    }
}

/// Joining a relative path onto `base` keeps `base`'s components in front.
pub proof fn lemma_join_components(base: Seq<char>, rel: Seq<char>)
    requires
        rel.len() == 0 || rel[0] != '/',
    ensures
        base.len() > 0 ==> components(join_spec(base, rel)) == components(base) + comps_from(rel, 0),
        path_starts_with_spec(join_spec(base, rel), base),
{
    let j = join_spec(base, rel);
    if base.len() == 0 {
        assert(j =~= rel);
        assert(components(base) =~= Seq::<Seq<char>>::empty());
        assert(components(j).take(0) =~= components(base));
        return;
    }
    let a = if base.last() == '/' { base } else { base.push('/') };
    assert(j =~= a + rel);
    lemma_comps_concat(a, rel, 0);
    if base.last() != '/' {
        lemma_comps_trailing_slash(base, 0);
    }
    assert(comps_from(j, 0) == comps_from(base, 0) + comps_from(rel, 0));
    assert(j[0] == base[0]);
    if base.len() >= 2 {
        assert(j[1] == base[1]);
    } else {
        assert(base.last() != '/' ==> j[1] == '/');
    }
    let cb = components(base);
    let cj = components(j);
    if base[0] == '/' {
        assert(cj =~= cb + comps_from(rel, 0));
    } else if base[0] == '.' && (base.len() == 1 || base[1] == '/') {
        assert(cj =~= cb + comps_from(rel, 0));
    } else {
        assert(cj =~= cb + comps_from(rel, 0));
    }
    assert(cj.take(cb.len() as int) =~= cb);
}

} // verus!

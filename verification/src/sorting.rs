//! Ordering of package lists: by name (as `String`'s `Ord` compares) or by
//! popularity, always stable like `slice::sort_by`.
use crate::model::PackageSummary;
use vstd::prelude::*;

verus! {

/// How a list of packages is ordered.
#[derive(Clone, Copy, Debug, PartialEq, Eq, Structural)]
pub enum SortMode {
    NameAsc,
    NameDesc,
    Popularity,
}

/// Lexicographic order of texts, char by char (for UTF-8 strings this is the
/// byte order that `String`'s `Ord` uses).
pub open spec fn text_lt(a: Seq<char>, b: Seq<char>) -> bool
    decreases a.len(),
{
    if b.len() == 0 {
        false
    } else if a.len() == 0 {
        true
    } else if (a[0] as u32) < (b[0] as u32) {
        true
    } else if (a[0] as u32) > (b[0] as u32) {
        false
    } else {
        text_lt(a.drop_first(), b.drop_first())
    }
}

pub open spec fn popularity(p: PackageSummary) -> int {
    match p.popular {
        Some(n) => n as int,
        None => 0,
    }
}

/// `x` is placed strictly before `y` by the comparator of `mode`.
pub open spec fn before(mode: SortMode, x: PackageSummary, y: PackageSummary) -> bool {
    match mode {
        SortMode::NameAsc => text_lt(x.id.name@, y.id.name@),
        SortMode::NameDesc => text_lt(y.id.name@, x.id.name@),
        SortMode::Popularity => popularity(x) > popularity(y),
    }
}

/// Inserts `x` after every element that does not come after it.
pub open spec fn insert_stable(s: Seq<PackageSummary>, x: PackageSummary, mode: SortMode) -> Seq<
    PackageSummary,
>
    decreases s.len(),
{
    if s.len() == 0 {
        seq![x]
    } else if before(mode, x, s[0]) {
        seq![x] + s
    } else {
        seq![s[0]] + insert_stable(s.drop_first(), x, mode)
    }
}

/// The stable sort of `s`: equal elements keep their relative order.
pub open spec fn stable_sort(s: Seq<PackageSummary>, mode: SortMode) -> Seq<PackageSummary>
    decreases s.len(),
{
    if s.len() == 0 {
        seq![]
    } else {
        insert_stable(stable_sort(s.drop_last(), mode), s.last(), mode)
    }
}

pub open spec fn sorted(s: Seq<PackageSummary>, mode: SortMode) -> bool {
    forall|i: int, j: int| 0 <= i < j < s.len() ==> !before(mode, #[trigger] s[j], #[trigger] s[i])
}

// ---------------------------------------------------------------------------
// Properties of the orders
// ---------------------------------------------------------------------------

pub proof fn lemma_text_lt_asym(a: Seq<char>, b: Seq<char>)
    ensures
        text_lt(a, b) ==> !text_lt(b, a),
    decreases a.len(),
{
    if a.len() > 0 && b.len() > 0 && (a[0] as u32) == (b[0] as u32) {
        lemma_text_lt_asym(a.drop_first(), b.drop_first());
    }
}

pub proof fn lemma_text_lt_trans(a: Seq<char>, b: Seq<char>, c: Seq<char>)
    ensures
        text_lt(a, b) && text_lt(b, c) ==> text_lt(a, c),
    decreases a.len(),
{
    if a.len() > 0 && b.len() > 0 && c.len() > 0 {
        lemma_text_lt_trans(a.drop_first(), b.drop_first(), c.drop_first());
    }
}

pub proof fn lemma_before_order(mode: SortMode, x: PackageSummary, y: PackageSummary, z: PackageSummary)
    ensures
        before(mode, x, y) ==> !before(mode, y, x),
        before(mode, x, y) && before(mode, y, z) ==> before(mode, x, z),
{
    lemma_text_lt_asym(x.id.name@, y.id.name@);
    lemma_text_lt_asym(y.id.name@, x.id.name@);
    lemma_text_lt_trans(x.id.name@, y.id.name@, z.id.name@);
    lemma_text_lt_trans(z.id.name@, y.id.name@, x.id.name@);
}

/// Where `insert_stable` puts the new element.
pub open spec fn insert_pos(s: Seq<PackageSummary>, x: PackageSummary, mode: SortMode) -> int
    decreases s.len(),
{
    if s.len() == 0 {
        0
    } else if before(mode, x, s[0]) {
        0
    } else {
        1 + insert_pos(s.drop_first(), x, mode)
    }
}

pub proof fn lemma_insert_shape(s: Seq<PackageSummary>, x: PackageSummary, mode: SortMode)
    ensures
        0 <= insert_pos(s, x, mode) <= s.len(),
        insert_stable(s, x, mode) == s.take(insert_pos(s, x, mode)) + seq![x] + s.skip(
            insert_pos(s, x, mode),
        ),
        forall|i: int| 0 <= i < insert_pos(s, x, mode) ==> !before(mode, x, #[trigger] s[i]),
        insert_pos(s, x, mode) < s.len() ==> before(mode, x, s[insert_pos(s, x, mode)]),
    decreases s.len(),
{
    if s.len() > 0 && !before(mode, x, s[0]) {
        let t = s.drop_first();
        lemma_insert_shape(t, x, mode);
        let p = insert_pos(t, x, mode);
        assert(seq![s[0]] + (t.take(p) + seq![x] + t.skip(p)) =~= s.take(p + 1) + seq![x] + s.skip(
            p + 1,
        ));
        assert forall|i: int| 0 <= i < p + 1 implies !before(mode, x, #[trigger] s[i]) by {
            if i > 0 {
                assert(s[i] == t[i - 1]);
            }
        }
    } else if s.len() > 0 {
        assert(seq![x] + s =~= s.take(0) + seq![x] + s.skip(0));
    } else {
        assert(seq![x] =~= s.take(0) + seq![x] + s.skip(0));
    }
}

/// Inserting into a sorted sequence keeps it sorted.
pub proof fn lemma_insert_sorted(s: Seq<PackageSummary>, x: PackageSummary, mode: SortMode)
    requires
        sorted(s, mode),
    ensures
        sorted(insert_stable(s, x, mode), mode),
{
    lemma_insert_shape(s, x, mode);
    let p = insert_pos(s, x, mode);
    let r = insert_stable(s, x, mode);
    assert forall|i: int, j: int| 0 <= i < j < r.len() implies !before(
        mode,
        #[trigger] r[j],
        #[trigger] r[i],
    ) by {
        if j < p {
            assert(r[i] == s[i] && r[j] == s[j]);
        } else if j == p {
            assert(r[i] == s[i] && r[j] == x);
        } else if i < p {
            assert(r[i] == s[i] && r[j] == s[j - 1]);
        } else if i == p {
            // x is strictly before s[p], and s[p] is not after s[j - 1]
            assert(r[i] == x && r[j] == s[j - 1]);
            lemma_before_order(mode, s[j - 1], x, s[p]);
            if j - 1 > p {
                assert(!before(mode, s[j - 1], s[p]));
            }
        } else {
            assert(r[i] == s[i - 1] && r[j] == s[j - 1]);
        }
    }
}

pub proof fn lemma_insert_multiset(s: Seq<PackageSummary>, x: PackageSummary, mode: SortMode)
    ensures
        insert_stable(s, x, mode).to_multiset() == s.to_multiset().insert(x),
{
    broadcast use vstd::seq_lib::group_to_multiset_ensures;

    lemma_insert_shape(s, x, mode);
    let p = insert_pos(s, x, mode);
    vstd::seq_lib::lemma_multiset_commutative(s.take(p) + seq![x], s.skip(p));
    vstd::seq_lib::lemma_multiset_commutative(s.take(p), seq![x]);
    vstd::seq_lib::lemma_multiset_commutative(s.take(p), s.skip(p));
    assert(s.take(p) + s.skip(p) =~= s);
    assert(seq![x] =~= Seq::<PackageSummary>::empty().push(x));
    assert(s.take(p) + seq![x] + s.skip(p) == (s.take(p) + seq![x]) + s.skip(p));
}

/// Sorting gives a sorted sequence.
pub proof fn lemma_stable_sort_sorted(s: Seq<PackageSummary>, mode: SortMode)
    ensures
        sorted(stable_sort(s, mode), mode),
    decreases s.len(),
{
    if s.len() > 0 {
        lemma_stable_sort_sorted(s.drop_last(), mode);
        lemma_insert_sorted(stable_sort(s.drop_last(), mode), s.last(), mode);
    }
}

/// Sorting only reorders: the result holds the same elements, as often.
pub proof fn lemma_stable_sort_permutes(s: Seq<PackageSummary>, mode: SortMode)
    ensures
        stable_sort(s, mode).to_multiset() == s.to_multiset(),
    decreases s.len(),
{
    broadcast use vstd::seq_lib::group_to_multiset_ensures;

    if s.len() > 0 {
        lemma_stable_sort_permutes(s.drop_last(), mode);
        lemma_insert_multiset(stable_sort(s.drop_last(), mode), s.last(), mode);
        assert(s.drop_last().push(s.last()) =~= s);
    }
}

// ---------------------------------------------------------------------------
// Executable sorting
// ---------------------------------------------------------------------------

pub proof fn lemma_text_lt_skip(a: Seq<char>, b: Seq<char>, k: int)
    requires
        0 <= k <= a.len(),
        k <= b.len(),
        forall|j: int| 0 <= j < k ==> (a[j] as u32) == (b[j] as u32),
    ensures
        text_lt(a, b) == text_lt(a.skip(k), b.skip(k)),
    decreases k,
{
    if k > 0 {
        assert((a[0] as u32) == (b[0] as u32));
        lemma_text_lt_skip(a.drop_first(), b.drop_first(), k - 1);
        assert(a.drop_first().skip(k - 1) =~= a.skip(k));
        assert(b.drop_first().skip(k - 1) =~= b.skip(k));
    } else {
        assert(a.skip(0) =~= a);
        assert(b.skip(0) =~= b);
    }
}

pub fn text_lt_chars(a: &Vec<char>, b: &Vec<char>) -> (r: bool)
    ensures
        r == text_lt(a@, b@),
{
    let mut k: usize = 0;
    while k < a.len() && k < b.len() && (a[k] as u32) == (b[k] as u32)
        invariant
            k <= a.len(),
            k <= b.len(),
            forall|j: int| 0 <= j < k ==> (a@[j] as u32) == (b@[j] as u32),
        decreases a.len() - k,
    {
        k = k + 1;
    }
    proof {
        lemma_text_lt_skip(a@, b@, k as int);
    }
    let r = if k == b.len() {
        false
    } else if k == a.len() {
        true
    } else {
        (a[k] as u32) < (b[k] as u32)
    };
    proof {
        let sa = a@.skip(k as int);
        let sb = b@.skip(k as int);
        if k < a.len() && k < b.len() {
            assert(sa[0] == a@[k as int] && sb[0] == b@[k as int]);
        }
    }
    r
}

/// `a` sorts strictly before `b` by name.
pub fn name_lt(a: &String, b: &String) -> (r: bool)
    ensures
        r == text_lt(a@, b@),
{
    let ca = crate::text::chars_of(a.as_str());
    let cb = crate::text::chars_of(b.as_str());
    text_lt_chars(&ca, &cb)
}

pub fn before_exec(mode: SortMode, x: &PackageSummary, y: &PackageSummary) -> (r: bool)
    ensures
        r == before(mode, *x, *y),
{
    match mode {
        SortMode::NameAsc => name_lt(&x.id.name, &y.id.name),
        SortMode::NameDesc => name_lt(&y.id.name, &x.id.name),
        SortMode::Popularity => {
            let px: u32 = match x.popular {
                Some(n) => n,
                None => 0,
            };
            let py: u32 = match y.popular {
                Some(n) => n,
                None => 0,
            };
            px > py
        },
    }
}

/// Sorts a list of packages, keeping equal elements in their order.
pub fn sort_summaries(v: Vec<PackageSummary>, mode: SortMode) -> (r: Vec<PackageSummary>)
    ensures
        r@ == stable_sort(v@, mode),
{
    let mut out: Vec<PackageSummary> = Vec::new();
    let mut i: usize = 0;
    while i < v.len()
        invariant
            i <= v.len(),
            out@ == stable_sort(v@.take(i as int), mode),
        decreases v.len() - i,
    {
        let x = v[i].clone();
        let mut p: usize = 0;
        while p < out.len() && !before_exec(mode, &x, &out[p])
            invariant
                p <= out.len(),
                forall|j: int| 0 <= j < p ==> !before(mode, x, #[trigger] out@[j]),
            decreases out.len() - p,
        {
            p = p + 1;
        }
        proof {
            lemma_insert_shape(out@, x, mode);
            let q = insert_pos(out@, x, mode);
            if q < p {
                assert(!before(mode, x, out@[q]));
            } else if p < q {
                assert(!before(mode, x, out@[p as int]));
            }
            let t = v@.take(i + 1);
            assert(t.drop_last() =~= v@.take(i as int));
            assert(t.last() == x);
        }
        out.insert(p, x);
        proof {
            assert(out@ =~= stable_sort(v@.take(i + 1), mode));
        }
        i = i + 1;
    }
    assert(v@.take(v.len() as int) =~= v@);
    out
}

} // verus!

//! Reading build metadata of AUR packages: `.SRCINFO` dependency and conflict
//! lines, and the `source=` array of a PKGBUILD.
use crate::sorting::{lemma_text_lt_asym, lemma_text_lt_trans, text_lt, text_lt_chars};
use crate::text::{
    chars_of, contains, contains_chars, find_sub, lines, lines_of, occurs_at, starts_with,
    starts_with_chars, string_from_chars, sub_vec, trim, trim_chars, ends_with, ends_with_chars,
    split, split_chars, index_of, lemma_index_of,
};
use vstd::prelude::*;

verus! {

// ---------------------------------------------------------------------------
// Version constraints
// ---------------------------------------------------------------------------

pub open spec fn is_ver_op(c: char) -> bool {
    c == '<' || c == '>' || c == '='
}

/// Position of the first `<`, `>` or `=`, or the length.
pub open spec fn ver_op_index(s: Seq<char>) -> int
    decreases s.len(),
{
    if s.len() == 0 {
        0
    } else if is_ver_op(s[0]) {
        0
    } else {
        1 + ver_op_index(s.drop_first())
    }
}

/// A dependency without its version constraint: `foo>=1.2` gives `foo`.
pub open spec fn spec_strip_ver(s: Seq<char>) -> Seq<char> {
    trim(s.take(ver_op_index(s)))
}

pub proof fn lemma_ver_op_index(s: Seq<char>)
    ensures
        0 <= ver_op_index(s) <= s.len(),
        forall|j: int| 0 <= j < ver_op_index(s) ==> !is_ver_op(#[trigger] s[j]),
        ver_op_index(s) < s.len() ==> is_ver_op(s[ver_op_index(s)]),
    decreases s.len(),
{
    if s.len() > 0 && !is_ver_op(s[0]) {
        lemma_ver_op_index(s.drop_first());
        assert forall|j: int| 0 <= j < ver_op_index(s) implies !is_ver_op(#[trigger] s[j]) by {
            if j > 0 {
                assert(s[j] == s.drop_first()[j - 1]);
            }
        }
    }
}

pub fn strip_ver_chars(v: &Vec<char>) -> (r: Vec<char>)
    ensures
        r@ == spec_strip_ver(v@),
{
    let mut k: usize = 0;
    while k < v.len() && !(v[k] == '<' || v[k] == '>' || v[k] == '=')
        invariant
            k <= v.len(),
            forall|j: int| 0 <= j < k ==> !is_ver_op(#[trigger] v@[j]),
        decreases v.len() - k,
    {
        k = k + 1;
    }
    proof {
        lemma_ver_op_index(v@);
        let m = ver_op_index(v@);
        if m < k {
            assert(!is_ver_op(v@[m]));
        } else if k < m {
            assert(!is_ver_op(v@[k as int]));
        }
    }
    let head = sub_vec(v, 0, k);
    assert(head@ =~= v@.take(k as int));
    trim_chars(&head)
}

/// A dependency without its version constraint.
pub fn strip_ver(s: &str) -> (r: String)
    ensures
        r@ == spec_strip_ver(s@),
{
    let v = chars_of(s);
    string_from_chars(&strip_ver_chars(&v))
}

// ---------------------------------------------------------------------------
// .SRCINFO
// ---------------------------------------------------------------------------

/// The dependency named on one `.SRCINFO` line, if it is a `depends` or `makedepends` line.
pub open spec fn dep_of_line(line: Seq<char>) -> Option<Seq<char>> {
    let t = trim(line);
    if starts_with(t, "depends = "@) {
        Some(spec_strip_ver(t.skip("depends = "@.len() as int)))
    } else if starts_with(t, "makedepends = "@) {
        Some(spec_strip_ver(t.skip("makedepends = "@.len() as int)))
    } else {
        None
    }
}

/// The package named on one `.SRCINFO` line, if it is a `conflicts` line.
pub open spec fn conflict_of_line(line: Seq<char>) -> Option<Seq<char>> {
    let t = trim(line);
    if starts_with(t, "conflicts = "@) {
        Some(spec_strip_ver(t.skip("conflicts = "@.len() as int)))
    } else {
        None
    }
}

/// The dependencies named by a sequence of lines, in line order.
pub open spec fn collect_deps(ls: Seq<Seq<char>>) -> Seq<Seq<char>>
    decreases ls.len(),
{
    if ls.len() == 0 {
        seq![]
    } else {
        let rest = collect_deps(ls.drop_last());
        match dep_of_line(ls.last()) {
            Some(v) => rest.push(v),
            None => rest,
        }
    }
}

/// The conflicts named by a sequence of lines, in line order.
pub open spec fn collect_conflicts(ls: Seq<Seq<char>>) -> Seq<Seq<char>>
    decreases ls.len(),
{
    if ls.len() == 0 {
        seq![]
    } else {
        let rest = collect_conflicts(ls.drop_last());
        match conflict_of_line(ls.last()) {
            Some(v) => rest.push(v),
            None => rest,
        }
    }
}

/// `t` is one of the texts of `s`.
pub open spec fn has_text(s: Seq<String>, t: Seq<char>) -> bool {
    exists|i: int| 0 <= i < s.len() && #[trigger] s[i]@ == t
}

/// A list of texts in strictly increasing order (so without repetitions).
pub open spec fn strictly_sorted(s: Seq<String>) -> bool {
    forall|i: int, j: int| 0 <= i < j < s.len() ==> text_lt(#[trigger] s[i]@, #[trigger] s[j]@)
}

pub proof fn lemma_text_lt_total(a: Seq<char>, b: Seq<char>)
    ensures
        !text_lt(a, b) && !text_lt(b, a) ==> a == b,
    decreases a.len(),
{
    if a.len() > 0 && b.len() > 0 && (a[0] as u32) == (b[0] as u32) {
        lemma_text_lt_total(a.drop_first(), b.drop_first());
        if !text_lt(a, b) && !text_lt(b, a) {
            vstd::utf8::char_u32_cast(a[0], a[0] as u32);
            vstd::utf8::char_u32_cast(b[0], b[0] as u32);
            assert(a[0] == b[0]);
            assert(a =~= seq![a[0]] + a.drop_first());
            assert(b =~= seq![b[0]] + b.drop_first());
        }
    } else if a.len() == 0 && b.len() == 0 {
        assert(a =~= b);
    }
}

/// Adds `x` to a strictly sorted list, unless it is already there.
pub fn insert_sorted_unique(v: &mut Vec<String>, x: String)
    requires
        strictly_sorted(old(v)@),
    ensures
        strictly_sorted(final(v)@),
        forall|t: Seq<char>| #[trigger] has_text(final(v)@, t) <==> (t == x@ || has_text(old(v)@, t)),
{
    let xc = chars_of(x.as_str());
    let mut p: usize = 0;
    while p < v.len() && text_lt_chars(&chars_of(v[p].as_str()), &xc)
        invariant
            p <= v.len(),
            v@ == old(v)@,
            xc@ == x@,
            forall|j: int| 0 <= j < p ==> text_lt(#[trigger] v@[j]@, x@),
        decreases v.len() - p,
    {
        p = p + 1;
    }
    if p < v.len() && !text_lt_chars(&xc, &chars_of(v[p].as_str())) {
        // neither is before the other: `x` is already present
        proof {
            lemma_text_lt_total(v@[p as int]@, x@);
            assert forall|t: Seq<char>| #[trigger] has_text(v@, t) <==> (t == x@ || has_text(old(v)@, t)) by {
                if t == x@ {
                    assert(v@[p as int]@ == t);
                }
            }
        }
        return;
    }
    let ghost old_v = v@;
    v.insert(p, x);
    proof {
        assert forall|i: int, j: int| 0 <= i < j < v@.len() implies text_lt(
            #[trigger] v@[i]@,
            #[trigger] v@[j]@,
        ) by {
            if j < p {
                assert(v@[i] == old_v[i] && v@[j] == old_v[j]);
            } else if j == p {
                assert(v@[i] == old_v[i]);
            } else if i < p {
                assert(v@[i] == old_v[i] && v@[j] == old_v[j - 1]);
                lemma_text_lt_trans(old_v[i]@, x@, old_v[p as int]@);
                if j - 1 > p {
                    lemma_text_lt_trans(old_v[i]@, old_v[p as int]@, old_v[j - 1]@);
                }
            } else if i == p {
                assert(v@[j] == old_v[j - 1]);
                if j - 1 > p {
                    lemma_text_lt_trans(x@, old_v[p as int]@, old_v[j - 1]@);
                }
            } else {
                assert(v@[i] == old_v[i - 1] && v@[j] == old_v[j - 1]);
            }
        }
        assert forall|t: Seq<char>| #[trigger] has_text(v@, t) <==> (t == x@ || has_text(old_v, t)) by {
            if has_text(v@, t) {
                let i = choose|i: int| 0 <= i < v@.len() && #[trigger] v@[i]@ == t;
                if i < p {
                    assert(old_v[i]@ == t);
                } else if i > p {
                    assert(old_v[i - 1]@ == t);
                }
            }
            if t == x@ {
                assert(v@[p as int]@ == t);
            }
            if has_text(old_v, t) {
                let i = choose|i: int| 0 <= i < old_v.len() && #[trigger] old_v[i]@ == t;
                if i < p {
                    assert(v@[i]@ == t);
                } else {
                    assert(v@[i + 1]@ == t);
                }
            }
        }
    }
}

/// The names after `prefix` on a trimmed line, without version constraint.
fn prefixed_value(t: &Vec<char>, prefix: &str) -> (r: Option<Vec<char>>)
    ensures
        match r {
            Some(d) => starts_with(t@, prefix@) && d@ == spec_strip_ver(t@.skip(prefix@.len() as int)),
            None => !starts_with(t@, prefix@),
        },
{
    let pc = chars_of(prefix);
    if starts_with_chars(t, &pc) {
        let rest = sub_vec(t, pc.len(), t.len());
        assert(rest@ =~= t@.skip(prefix@.len() as int));
        Some(strip_ver_chars(&rest))
    } else {
        None
    }
}

pub fn dep_of_line_exec(line: &Vec<char>) -> (r: Option<Vec<char>>)
    ensures
        match r {
            Some(d) => dep_of_line(line@) == Some(d@),
            None => dep_of_line(line@) is None,
        },
{
    let t = trim_chars(line);
    match prefixed_value(&t, "depends = ") {
        Some(d) => Some(d),
        None => prefixed_value(&t, "makedepends = "),
    }
}

/// The dependencies (`depends` and `makedepends`) that a `.SRCINFO` names,
/// without version constraints, sorted and each once.
pub fn parse_srcinfo_deps(srcinfo: &str) -> (r: Vec<String>)
    ensures
        strictly_sorted(r@),
        forall|t: Seq<char>|
            #[trigger] has_text(r@, t) <==> collect_deps(lines(srcinfo@)).contains(t),
{
    let v = chars_of(srcinfo);
    let ls = lines_of(&v);
    let ghost all = lines(v@);
    let mut out: Vec<String> = Vec::new();
    let mut i: usize = 0;
    while i < ls.len()
        invariant
            i <= ls@.len() == all.len(),
            forall|k: int| 0 <= k < ls@.len() ==> #[trigger] ls@[k]@ == all[k],
            strictly_sorted(out@),
            forall|t: Seq<char>| #[trigger] has_text(out@, t) <==> collect_deps(all.take(i as int)).contains(t),
        decreases ls.len() - i,
    {
        proof {
            let ti = all.take(i + 1);
            assert(ti.drop_last() =~= all.take(i as int));
            assert(ti.last() == ls@[i as int]@);
        }
        let ghost prev = collect_deps(all.take(i as int));
        let ghost cur = collect_deps(all.take(i + 1));
        match dep_of_line_exec(&ls[i]) {
            Some(d) => {
                let ds = string_from_chars(&d);
                proof {
                    assert(cur == prev.push(d@));
                    assert forall|t: Seq<char>| prev.push(d@).contains(t) <==> (t == d@ || prev.contains(t)) by {
                        if t == d@ {
                            assert(prev.push(d@)[prev.len() as int] == t);
                        }
                        if prev.contains(t) {
                            let k = choose|k: int| 0 <= k < prev.len() && prev[k] == t;
                            assert(prev.push(d@)[k] == t);
                        }
                    }
                }
                let ghost before_out = out@;
                insert_sorted_unique(&mut out, ds);
                proof {
                    assert forall|t: Seq<char>| #[trigger] has_text(out@, t) <==> cur.contains(t) by {
                        assert(has_text(out@, t) <==> (t == d@ || has_text(before_out, t)));
                        assert(has_text(before_out, t) <==> prev.contains(t));
                        assert(prev.push(d@).contains(t) <==> (t == d@ || prev.contains(t)));
                    }
                }
            },
            None => {
                proof {
                    assert(cur == prev);
                }
            },
        }
        i = i + 1;
    }
    assert(all.take(ls.len() as int) =~= all);
    out
}

/// The packages that a `.SRCINFO` says conflict, without version constraints, in order.
pub fn parse_conflicts(srcinfo: &str) -> (r: Vec<String>)
    ensures
        r@.len() == collect_conflicts(lines(srcinfo@)).len(),
        forall|k: int|
            0 <= k < r@.len() ==> #[trigger] r@[k]@ == collect_conflicts(lines(srcinfo@))[k],
{
    let v = chars_of(srcinfo);
    let ls = lines_of(&v);
    let ghost all = lines(v@);
    let mut out: Vec<String> = Vec::new();
    let mut i: usize = 0;
    while i < ls.len()
        invariant
            i <= ls@.len() == all.len(),
            forall|k: int| 0 <= k < ls@.len() ==> #[trigger] ls@[k]@ == all[k],
            out@.len() == collect_conflicts(all.take(i as int)).len(),
            forall|k: int| 0 <= k < out@.len() ==> #[trigger] out@[k]@ == collect_conflicts(all.take(i as int))[k],
        decreases ls.len() - i,
    {
        proof {
            let ti = all.take(i + 1);
            assert(ti.drop_last() =~= all.take(i as int));
            assert(ti.last() == ls@[i as int]@);
        }
        let t = trim_chars(&ls[i]);
        let ghost prev = collect_conflicts(all.take(i as int));
        let ghost cur = collect_conflicts(all.take(i + 1));
        match prefixed_value(&t, "conflicts = ") {
            Some(d) => {
                proof {
                    assert(cur == prev.push(d@));
                }
                out.push(string_from_chars(&d));
            },
            None => {
                proof {
                    assert(cur == prev);
                }
            },
        }
        i = i + 1;
    }
    assert(all.take(ls.len() as int) =~= all);
    out
}

// ---------------------------------------------------------------------------
// PKGBUILD sources
// ---------------------------------------------------------------------------

/// Reading state: inside a multi-line `source=(` array, and the text collected so far.
pub struct SourceScan {
    pub in_source: bool,
    pub buf: Seq<char>,
}

/// One PKGBUILD line read into the `source=` collector.
pub open spec fn source_step(st: SourceScan, line: Seq<char>) -> SourceScan {
    let l = trim(line);
    if !st.in_source {
        if starts_with(l, "source="@) {
            let rest = trim(l.skip("source="@.len() as int));
            if rest.len() == 0 {
                st
            } else if rest[0] == '(' {
                let inner = rest.skip(1);
                if inner.len() > 0 && inner.last() == ')' {
                    SourceScan { in_source: false, buf: inner.drop_last() }
                } else {
                    SourceScan { in_source: true, buf: inner }
                }
            } else {
                st
            }
        } else {
            st
        }
    } else if l.len() > 0 && l.last() == ')' {
        SourceScan { in_source: false, buf: st.buf + l.drop_last() }
    } else {
        SourceScan { in_source: true, buf: st.buf + l }
    }
}

pub open spec fn source_scan(ls: Seq<Seq<char>>) -> SourceScan
    decreases ls.len(),
{
    if ls.len() == 0 {
        SourceScan { in_source: false, buf: seq![] }
    } else {
        source_step(source_scan(ls.drop_last()), ls.last())
    }
}

/// `s` looks like a remote: it has `://` or starts with `git@`.
pub open spec fn is_remote(s: Seq<char>) -> bool {
    contains(s, "://"@) || starts_with(s, "git@"@)
}

/// The git remote named by one quoted token of the source array, with its branch.
pub open spec fn source_of_token(piece: Seq<char>) -> Option<(Seq<char>, Seq<char>)> {
    let t = trim(piece);
    if t.len() == 0 || !is_remote(t) {
        None
    } else {
        let url0 = if contains(t, "::"@) {
            t.skip((choose|i: int| occurs_at(t, "::"@, i) && forall|j: int| 0 <= j < i ==> !occurs_at(t, "::"@, j)) + "::"@.len())
        } else {
            t
        };
        let k = index_of(url0, '#');
        let url = url0.take(k);
        let branch = if k < url0.len() {
            url0.skip(k + 1)
        } else {
            "HEAD"@
        };
        if is_remote(url) {
            Some((url, branch))
        } else {
            None
        }
    }
}

pub open spec fn sources_of(pieces: Seq<Seq<char>>) -> Seq<(Seq<char>, Seq<char>)>
    decreases pieces.len(),
{
    if pieces.len() == 0 {
        seq![]
    } else {
        let rest = sources_of(pieces.drop_last());
        match source_of_token(pieces.last()) {
            Some(p) => rest.push(p),
            None => rest,
        }
    }
}

/// The git remotes (url, branch) of a PKGBUILD's `source=` array, in order;
/// the branch is `HEAD` when the entry names none.
pub open spec fn spec_git_sources(pkgbuild: Seq<char>) -> Seq<(Seq<char>, Seq<char>)> {
    sources_of(split(source_scan(lines(pkgbuild)).buf, '"'))
}

fn source_step_exec(in_source: bool, buf: Vec<char>, line: &Vec<char>) -> (r: (bool, Vec<char>))
    ensures
        source_step(SourceScan { in_source, buf: buf@ }, line@) == (SourceScan {
            in_source: r.0,
            buf: r.1@,
        }),
{
    let l = trim_chars(line);
    if !in_source {
        let pre = chars_of("source=");
        if starts_with_chars(&l, &pre) {
            let rest0 = sub_vec(&l, pre.len(), l.len());
            let rest = trim_chars(&rest0);
            assert(rest0@ =~= l@.skip("source="@.len() as int));
            if rest.len() == 0 {
                (in_source, buf)
            } else if rest[0] == '(' {
                let inner = sub_vec(&rest, 1, rest.len());
                assert(inner@ =~= rest@.skip(1));
                if inner.len() > 0 && inner[inner.len() - 1] == ')' {
                    let b = sub_vec(&inner, 0, inner.len() - 1);
                    assert(b@ =~= inner@.drop_last());
                    (false, b)
                } else {
                    (true, inner)
                }
            } else {
                (in_source, buf)
            }
        } else {
            (in_source, buf)
        }
    } else if l.len() > 0 && l[l.len() - 1] == ')' {
        let head = sub_vec(&l, 0, l.len() - 1);
        assert(head@ =~= l@.drop_last());
        (false, crate::text::concat(&buf, &head))
    } else {
        (true, crate::text::concat(&buf, &l))
    }
}

fn source_of_token_exec(piece: &Vec<char>) -> (r: Option<(Vec<char>, Vec<char>)>)
    ensures
        match r {
            Some(p) => source_of_token(piece@) == Some((p.0@, p.1@)),
            None => source_of_token(piece@) is None,
        },
{
    let t = trim_chars(piece);
    let sep = chars_of("://");
    let git = chars_of("git@");
    if t.len() == 0 || !(contains_chars(&t, &sep) || starts_with_chars(&t, &git)) {
        return None;
    }
    let dc = chars_of("::");
    let url0 = match find_sub(&t, &dc) {
        Some(idx) => {
            proof {
                let c = choose|i: int| occurs_at(t@, "::"@, i) && forall|j: int| 0 <= j < i ==> !occurs_at(t@, "::"@, j);
                if c < idx {
                } else if idx < c {
                }
                assert(c == idx);
            }
            sub_vec(&t, idx + dc.len(), t.len())
        },
        None => t.clone(),
    };
    proof {
        if contains(t@, "::"@) {
            assert(url0@ =~= t@.skip(
                (choose|i: int| occurs_at(t@, "::"@, i) && forall|j: int| 0 <= j < i ==> !occurs_at(t@, "::"@, j)) + "::"@.len(),
            ));
        } else {
            assert(url0@ == t@);
        }
    }
    let k = crate::text::find_char_from(&url0, 0, '#');
    proof {
        assert(url0@.skip(0) =~= url0@);
    }
    let url = sub_vec(&url0, 0, k);
    let branch = if k < url0.len() {
        sub_vec(&url0, k + 1, url0.len())
    } else {
        chars_of("HEAD")
    };
    assert(url@ =~= url0@.take(k as int));
    if k < url0.len() {
        assert(branch@ =~= url0@.skip(k + 1));
    }
    if contains_chars(&url, &sep) || starts_with_chars(&url, &git) {
        Some((url, branch))
    } else {
        None
    }
}

/// The git remotes of a PKGBUILD's `source=` array: `(url, branch)`, the
/// branch `HEAD` where none is given.
pub fn parse_git_sources(pkgbuild: &str) -> (r: Vec<(String, String)>)
    ensures
        r@.len() == spec_git_sources(pkgbuild@).len(),
        forall|k: int|
            0 <= k < r@.len() ==> (#[trigger] r@[k]).0@ == spec_git_sources(pkgbuild@)[k].0 && r@[k].1@
                == spec_git_sources(pkgbuild@)[k].1,
{
    let v = chars_of(pkgbuild);
    let ls = lines_of(&v);
    let ghost all = lines(v@);
    let mut in_source = false;
    let mut buf: Vec<char> = Vec::new();
    let mut i: usize = 0;
    while i < ls.len()
        invariant
            i <= ls@.len() == all.len(),
            forall|k: int| 0 <= k < ls@.len() ==> #[trigger] ls@[k]@ == all[k],
            source_scan(all.take(i as int)) == (SourceScan { in_source, buf: buf@ }),
        decreases ls.len() - i,
    {
        proof {
            let ti = all.take(i + 1);
            assert(ti.drop_last() =~= all.take(i as int));
            assert(ti.last() == ls@[i as int]@);
        }
        let (a, b) = source_step_exec(in_source, buf, &ls[i]);
        in_source = a;
        buf = b;
        i = i + 1;
    }
    assert(all.take(ls.len() as int) =~= all);
    let pieces = split_chars(&buf, '"');
    let ghost ps = split(buf@, '"');
    let mut out: Vec<(String, String)> = Vec::new();
    let mut j: usize = 0;
    while j < pieces.len()
        invariant
            j <= pieces@.len() == ps.len(),
            forall|k: int| 0 <= k < pieces@.len() ==> #[trigger] pieces@[k]@ == ps[k],
            out@.len() == sources_of(ps.take(j as int)).len(),
            forall|k: int|
                0 <= k < out@.len() ==> (#[trigger] out@[k]).0@ == sources_of(ps.take(j as int))[k].0
                    && out@[k].1@ == sources_of(ps.take(j as int))[k].1,
        decreases pieces.len() - j,
    {
        proof {
            let tj = ps.take(j + 1);
            assert(tj.drop_last() =~= ps.take(j as int));
            assert(tj.last() == pieces@[j as int]@);
        }
        match source_of_token_exec(&pieces[j]) {
            Some((u, b)) => {
                out.push((string_from_chars(&u), string_from_chars(&b)));
            },
            None => {},
        }
        j = j + 1;
    }
    assert(ps.take(pieces.len() as int) =~= ps);
    out
}

} // verus!

//! The order in which a batch of AUR packages is built: every package after
//! the packages of the batch that it depends on.
use crate::model::{Error, PackageId};
use crate::text::str_eq;
use vstd::prelude::*;

verus! {

/// A package whose sources are fetched and whose metadata is read, ready to build.
pub struct PreparedPkg {
    pub id: PackageId,
    pub version: String,
    pub deps: Vec<String>,
    pub conflicts: Vec<String>,
}

/// The last package of `pkgs[..upto]` named `name`, or -1.
pub open spec fn last_named(pkgs: Seq<PreparedPkg>, name: Seq<char>, upto: int) -> int
    decreases upto,
{
    if upto <= 0 {
        -1
    } else if pkgs[upto - 1].id.name@ == name {
        upto - 1
    } else {
        last_named(pkgs, name, upto - 1)
    }
}

/// The package of the batch that the `k`-th dependency of package `i` names,
/// or -1 (when several share the name, the last one).
pub open spec fn dep_target(pkgs: Seq<PreparedPkg>, i: int, k: int) -> int {
    last_named(pkgs, pkgs[i].deps@[k]@, pkgs.len() as int)
}

/// `x` stands in `order` before position `b`.
pub open spec fn placed_before(order: Seq<usize>, x: int, b: int) -> bool {
    exists|a: int| 0 <= a < b && #[trigger] order[a] == x
}

/// `order` builds every package of the batch once, each after the packages it depends on.
pub open spec fn valid_order(pkgs: Seq<PreparedPkg>, order: Seq<usize>) -> bool {
    let n = pkgs.len();
    &&& order.len() == n
    &&& forall|a: int| 0 <= a < n ==> #[trigger] order[a] < n
    &&& forall|a: int, b: int| 0 <= a < b < n ==> #[trigger] order[a] != #[trigger] order[b]
    &&& forall|x: int| 0 <= x < n ==> #[trigger] placed_before(order, x, n as int)
    &&& forall|a: int, b: int, k: int|
        0 <= a < n && 0 <= b < n && 0 <= k < pkgs[order[b] as int].deps@.len() && dep_target(
            pkgs,
            order[b] as int,
            k,
        ) == order[a] ==> a < b
}

/// Dependencies among the first `k` of package `i` that name a package of the batch not yet built.
pub open spec fn live_in(pkgs: Seq<PreparedPkg>, i: int, k: int, done: Seq<bool>) -> nat
    decreases k,
{
    if k <= 0 {
        0
    } else {
        let t = dep_target(pkgs, i, k - 1);
        live_in(pkgs, i, k - 1, done) + if t >= 0 && !done[t] {
            1nat
        } else {
            0nat
        }
    }
}

/// Dependencies among the first `k` of package `i` that name package `j`.
pub open spec fn deps_on(pkgs: Seq<PreparedPkg>, i: int, k: int, j: int) -> nat
    decreases k,
{
    if k <= 0 {
        0
    } else {
        deps_on(pkgs, i, k - 1, j) + if dep_target(pkgs, i, k - 1) == j {
            1nat
        } else {
            0nat
        }
    }
}

/// Occurrences of `x` in `s`.
pub open spec fn occ(s: Seq<usize>, x: int) -> nat
    decreases s.len(),
{
    if s.len() == 0 {
        0
    } else {
        occ(s.drop_last(), x) + if s.last() == x {
            1nat
        } else {
            0nat
        }
    }
}

pub open spec fn count_false(s: Seq<bool>) -> nat
    decreases s.len(),
{
    if s.len() == 0 {
        0
    } else {
        count_false(s.drop_last()) + if !s.last() {
            1nat
        } else {
            0nat
        }
    }
}

// ---------------------------------------------------------------------------
// Kahn's order
// ---------------------------------------------------------------------------

/// The dependents recorded for package `j` from the first `k` dependencies of
/// package `i`: `i`, once for each of them that names `j`.
pub open spec fn row_part(pkgs: Seq<PreparedPkg>, j: int, i: int, k: int) -> Seq<usize>
    decreases k,
{
    if k <= 0 {
        seq![]
    } else {
        row_part(pkgs, j, i, k - 1) + if dep_target(pkgs, i, k - 1) == j {
            seq![i as usize]
        } else {
            seq![]
        }
    }
}

/// The dependents recorded for package `j` from the first `i` packages.
pub open spec fn row_upto(pkgs: Seq<PreparedPkg>, j: int, i: int) -> Seq<usize>
    decreases i,
{
    if i <= 0 {
        seq![]
    } else {
        row_upto(pkgs, j, i - 1) + row_part(pkgs, j, i - 1, pkgs[i - 1].deps@.len() as int)
    }
}

/// The packages that depend on package `j`, in batch order, once per
/// dependency that names `j`.
pub open spec fn dependents(pkgs: Seq<PreparedPkg>, j: int) -> Seq<usize> {
    row_upto(pkgs, j, pkgs.len() as int)
}

/// How many dependencies of each package name a package of the batch.
pub open spec fn initial_degrees(pkgs: Seq<PreparedPkg>) -> Seq<int> {
    Seq::new(
        pkgs.len(),
        |x: int| live_in(pkgs, x, pkgs[x].deps@.len() as int, Seq::new(pkgs.len(), |i: int| false)) as int,
    )
}

/// The packages among the first `x` that wait on nothing, in batch order.
pub open spec fn ready_upto(deg: Seq<int>, x: int) -> Seq<usize>
    decreases x,
{
    if x <= 0 {
        seq![]
    } else {
        ready_upto(deg, x - 1) + if deg[x - 1] == 0 {
            seq![(x - 1) as usize]
        } else {
            seq![]
        }
    }
}

/// Building `i` releases its dependents in order: each one waits on one
/// dependency fewer, and joins the ready packages once it waits on none.
pub open spec fn release(deg: Seq<int>, ready: Seq<usize>, nb: Seq<usize>, i: usize) -> (Seq<int>, Seq<usize>)
    decreases nb.len(),
{
    if nb.len() == 0 {
        (deg, ready)
    } else {
        let r = release(deg, ready, nb.drop_last(), i);
        let y = nb.last();
        if y == i {
            r
        } else {
            let d = r.0.update(y as int, r.0[y as int] - 1);
            if d[y as int] == 0 {
                (d, r.1.push(y))
            } else {
                (d, r.1)
            }
        }
    }
}

/// One step of Kahn's algorithm on (waiting counts, ready packages, order):
/// the most recently ready package is built next.
pub open spec fn kahn_step(pkgs: Seq<PreparedPkg>, s: (Seq<int>, Seq<usize>, Seq<usize>)) -> (
    Seq<int>,
    Seq<usize>,
    Seq<usize>,
) {
    if s.1.len() == 0 {
        s
    } else {
        let i = s.1.last();
        let r = release(s.0, s.1.drop_last(), dependents(pkgs, i as int), i);
        (r.0, r.1, s.2.push(i))
    }
}

/// The state of Kahn's algorithm after `t` steps, starting from the packages
/// that wait on nothing, in batch order.
pub open spec fn kahn_run(pkgs: Seq<PreparedPkg>, t: nat) -> (Seq<int>, Seq<usize>, Seq<usize>)
    decreases t,
{
    if t == 0 {
        let d = initial_degrees(pkgs);
        (d, ready_upto(d, pkgs.len() as int), seq![])
    } else {
        kahn_step(pkgs, kahn_run(pkgs, (t - 1) as nat))
    }
}

/// The order that Kahn's algorithm builds: complete exactly when the batch
/// has no dependency cycle.
pub open spec fn kahn_order(pkgs: Seq<PreparedPkg>) -> Seq<usize> {
    kahn_run(pkgs, pkgs.len()).2
}

proof fn lemma_kahn_stays(pkgs: Seq<PreparedPkg>, t: nat, m: nat)
    requires
        kahn_run(pkgs, t).1.len() == 0,
        t <= m,
    ensures
        kahn_run(pkgs, m) == kahn_run(pkgs, t),
    decreases m - t,
{
    if t < m {
        lemma_kahn_stays(pkgs, t, (m - 1) as nat);
    }
}

pub open spec fn degs(v: Seq<usize>) -> Seq<int> {
    v.map_values(|x: usize| x as int)
}

// ---------------------------------------------------------------------------
// Lemmas
// ---------------------------------------------------------------------------

pub proof fn lemma_last_named(pkgs: Seq<PreparedPkg>, name: Seq<char>, upto: int)
    requires
        0 <= upto <= pkgs.len(),
    ensures
        -1 <= last_named(pkgs, name, upto) < upto,
        last_named(pkgs, name, upto) >= 0 ==> pkgs[last_named(pkgs, name, upto)].id.name@ == name,
        forall|j: int|
            last_named(pkgs, name, upto) < j < upto ==> #[trigger] pkgs[j].id.name@ != name,
    decreases upto,
{
    if upto > 0 && pkgs[upto - 1].id.name@ != name {
        lemma_last_named(pkgs, name, upto - 1);
    }
}

pub proof fn lemma_live_le(pkgs: Seq<PreparedPkg>, i: int, k: int, done: Seq<bool>)
    ensures
        k >= 0 ==> live_in(pkgs, i, k, done) <= k,
    decreases k,
{
    if k > 0 {
        lemma_live_le(pkgs, i, k - 1, done);
    }
}

/// A positive count of dependencies on `j` means one of them names `j`.
pub proof fn lemma_deps_on_pos(pkgs: Seq<PreparedPkg>, i: int, k: int, j: int) -> (m: int)
    requires
        deps_on(pkgs, i, k, j) > 0,
    ensures
        0 <= m < k,
        dep_target(pkgs, i, m) == j,
    decreases k,
{
    if dep_target(pkgs, i, k - 1) == j {
        k - 1
    } else {
        lemma_deps_on_pos(pkgs, i, k - 1, j)
    }
}

pub proof fn lemma_live_done(pkgs: Seq<PreparedPkg>, i: int, k: int, done: Seq<bool>, j: int)
    requires
        0 <= j < done.len(),
        done.len() == pkgs.len(),
        0 <= i < pkgs.len(),
        k <= pkgs[i].deps@.len(),
        !done[j],
    ensures
        live_in(pkgs, i, k, done) == live_in(pkgs, i, k, done.update(j, true)) + deps_on(
            pkgs,
            i,
            k,
            j,
        ),
    decreases k,
{
    if k > 0 {
        lemma_live_done(pkgs, i, k - 1, done, j);
        lemma_last_named(pkgs, pkgs[i].deps@[k - 1]@, pkgs.len() as int);
        let t = dep_target(pkgs, i, k - 1);
        if t >= 0 && t < done.len() {
            assert(done.update(j, true)[t] == (if t == j {
                true
            } else {
                done[t]
            }));
        }
    }
}

/// When nothing is live, every dependency names a built package.
pub proof fn lemma_live_zero(pkgs: Seq<PreparedPkg>, i: int, k: int, done: Seq<bool>)
    requires
        live_in(pkgs, i, k, done) == 0,
    ensures
        forall|m: int|
            0 <= m < k && dep_target(pkgs, i, m) >= 0 ==> done[#[trigger] dep_target(pkgs, i, m)],
    decreases k,
{
    if k > 0 {
        lemma_live_zero(pkgs, i, k - 1, done);
    }
}

/// When something is live, some dependency names a package not built.
pub proof fn lemma_live_pos(pkgs: Seq<PreparedPkg>, i: int, k: int, done: Seq<bool>) -> (m: int)
    requires
        live_in(pkgs, i, k, done) > 0,
    ensures
        0 <= m < k,
        dep_target(pkgs, i, m) >= 0,
        !done[dep_target(pkgs, i, m)],
    decreases k,
{
    let t = dep_target(pkgs, i, k - 1);
    if t >= 0 && !done[t] {
        k - 1
    } else {
        lemma_live_pos(pkgs, i, k - 1, done)
    }
}

pub proof fn lemma_occ_push(s: Seq<usize>, v: usize, x: int)
    ensures
        occ(s.push(v), x) == occ(s, x) + if v == x {
            1nat
        } else {
            0nat
        },
{
    assert(s.push(v).drop_last() =~= s);
}

pub proof fn lemma_occ_skip(s: Seq<usize>, m: int, x: int)
    requires
        0 <= m < s.len(),
    ensures
        occ(s.skip(m), x) == occ(s.skip(m + 1), x) + if s[m] == x {
            1nat
        } else {
            0nat
        },
    decreases s.len() - m,
{
    if m == s.len() - 1 {
        assert(s.skip(m).drop_last() =~= s.skip(m + 1));
        assert(s.skip(m + 1).len() == 0);
        assert(s.skip(m).last() == s[m]);
    } else {
        lemma_occ_skip(s.drop_last(), m, x);
        assert(s.skip(m).drop_last() =~= s.drop_last().skip(m));
        assert(s.skip(m + 1).drop_last() =~= s.drop_last().skip(m + 1));
        assert(s.skip(m).last() == s.last());
        assert(s.skip(m + 1).last() == s.last());
    }
}

pub proof fn lemma_occ_all(s: Seq<usize>, x: int)
    ensures
        occ(s.skip(0), x) == occ(s, x),
        occ(s.skip(s.len() as int), x) == 0,
{
    assert(s.skip(0) =~= s);
    assert(s.skip(s.len() as int).len() == 0);
}

pub proof fn lemma_count_false_update(s: Seq<bool>, j: int)
    requires
        0 <= j < s.len(),
        !s[j],
    ensures
        count_false(s.update(j, true)) + 1 == count_false(s),
    decreases s.len(),
{
    if j < s.len() - 1 {
        lemma_count_false_update(s.drop_last(), j);
        assert(s.update(j, true).drop_last() =~= s.drop_last().update(j, true));
    } else {
        assert(s.update(j, true).drop_last() =~= s.drop_last());
    }
}

pub proof fn lemma_count_false_zero(s: Seq<bool>)
    ensures
        count_false(s) == 0 ==> forall|x: int| 0 <= x < s.len() ==> #[trigger] s[x],
        count_false(s) > 0 ==> exists|x: int| 0 <= x < s.len() && !#[trigger] s[x],
        count_false(s) <= s.len(),
    decreases s.len(),
{
    if s.len() > 0 {
        lemma_count_false_zero(s.drop_last());
        if count_false(s) == 0 {
            assert forall|x: int| 0 <= x < s.len() implies #[trigger] s[x] by {
                if x < s.len() - 1 {
                    assert(s[x] == s.drop_last()[x]);
                }
            }
        }
        if count_false(s) > 0 {
            if !s.last() {
                assert(!s[s.len() - 1]);
            } else {
                let x = choose|x: int| 0 <= x < s.drop_last().len() && !#[trigger] s.drop_last()[x];
                assert(!s[x]);
            }
        }
    }
}

pub proof fn lemma_count_false_all(n: nat)
    ensures
        count_false(Seq::new(n, |i: int| false)) == n,
    decreases n,
{
    if n > 0 {
        lemma_count_false_all((n - 1) as nat);
        assert(Seq::new(n, |i: int| false).drop_last() =~= Seq::new((n - 1) as nat, |i: int| false));
    }
}

/// A position holding a package not built, with none before it.
pub proof fn lemma_first_not_done(order: Seq<usize>, done: Seq<bool>, a: int) -> (m: int)
    requires
        0 <= a < order.len(),
        forall|b: int| 0 <= b < order.len() ==> #[trigger] order[b] < done.len(),
        !done[order[a] as int],
    ensures
        0 <= m <= a,
        !done[order[m] as int],
        forall|b: int| 0 <= b < m ==> done[#[trigger] order[b] as int],
    decreases a,
{
    if exists|b: int| 0 <= b < a && !done[#[trigger] order[b] as int] {
        let b = choose|b: int| 0 <= b < a && !done[#[trigger] order[b] as int];
        lemma_first_not_done(order, done, b)
    } else {
        a
    }
}

/// When the packages not built all have a live dependency, there is no valid order.
pub proof fn lemma_no_order(pkgs: Seq<PreparedPkg>, done: Seq<bool>, o: Seq<usize>)
    requires
        done.len() == pkgs.len(),
        exists|u: int| 0 <= u < done.len() && !#[trigger] done[u],
        forall|u: int|
            0 <= u < done.len() && !#[trigger] done[u] ==> live_in(
                pkgs,
                u,
                pkgs[u].deps@.len() as int,
                done,
            ) > 0,
        forall|i: int, k: int|
            0 <= i < pkgs.len() && 0 <= k < pkgs[i].deps@.len() ==> #[trigger] dep_target(pkgs, i, k)
                < pkgs.len(),
    ensures
        !valid_order(pkgs, o),
{
    if valid_order(pkgs, o) {
        let n = pkgs.len() as int;
        let u = choose|u: int| 0 <= u < done.len() && !#[trigger] done[u];
        assert(placed_before(o, u, n));
        let a0 = choose|a: int| 0 <= a < n && #[trigger] o[a] == u;
        let a = lemma_first_not_done(o, done, a0);
        let x = o[a] as int;
        let k = lemma_live_pos(pkgs, x, pkgs[x].deps@.len() as int, done);
        let t = dep_target(pkgs, x, k);
        assert(placed_before(o, t, n));
        let at = choose|b: int| 0 <= b < n && #[trigger] o[b] == t;
        assert(dep_target(pkgs, o[a] as int, k) == o[at]);
        assert(at < a);
        assert(done[o[at] as int]);
    }
}

// ---------------------------------------------------------------------------
// The algorithm
// ---------------------------------------------------------------------------

/// The last package of the batch named `name`.
pub fn last_named_exec(pkgs: &Vec<PreparedPkg>, name: &String) -> (r: Option<usize>)
    ensures
        match r {
            Some(j) => j as int == last_named(pkgs@, name@, pkgs@.len() as int),
            None => last_named(pkgs@, name@, pkgs@.len() as int) == -1,
        },
{
    let mut j = pkgs.len();
    while j > 0 && !str_eq(pkgs[j - 1].id.name.as_str(), name.as_str())
        invariant
            j <= pkgs.len(),
            last_named(pkgs@, name@, pkgs@.len() as int) == last_named(pkgs@, name@, j as int),
        decreases j,
    {
        j = j - 1;
    }
    if j == 0 {
        None
    } else {
        Some(j - 1)
    }
}

/// Orders a batch for building with Kahn's algorithm: each package comes
/// after every package of the batch that one of its dependencies names. The
/// packages that wait on nothing are taken in batch order, and the most
/// recently ready package is built next (`kahn_order`). A dependency cycle (a
/// package depending on itself included) is an error.
pub fn sort_build_order(pkgs: &Vec<PreparedPkg>) -> (r: Result<Vec<usize>, Error>)
    ensures
        match r {
            Ok(order) => order@ == kahn_order(pkgs@) && valid_order(pkgs@, order@),
            Err(e) => (e matches Error::Aur(m) && m@ == "circular dependency detected in AUR packages"@)
                && kahn_order(pkgs@).len() < pkgs@.len() && forall|o: Seq<usize>| !valid_order(pkgs@, o),
        },
{
    let n = pkgs.len();
    let ghost ps = pkgs@;
    let mut in_degree: Vec<usize> = Vec::new();
    let mut adj: Vec<Vec<usize>> = Vec::new();
    let mut done: Vec<bool> = Vec::new();
    let mut z: usize = 0;
    while z < n
        invariant
            z <= n == pkgs.len(),
            in_degree@.len() == z,
            adj@.len() == z,
            done@ == Seq::new(z as nat, |i: int| false),
            forall|x: int| 0 <= x < z ==> #[trigger] in_degree@[x] == 0,
            forall|x: int| 0 <= x < z ==> #[trigger] adj@[x]@.len() == 0,
        decreases n - z,
    {
        in_degree.push(0);
        adj.push(Vec::new());
        done.push(false);
        z = z + 1;
    }
    proof {
        assert forall|i: int, k: int|
            0 <= i < ps.len() && 0 <= k < ps[i].deps@.len() implies #[trigger] dep_target(ps, i, k)
            < ps.len() by {
            lemma_last_named(ps, ps[i].deps@[k]@, ps.len() as int);
        }
    }
    // the edges: one per dependency that names a package of the batch
    let mut i: usize = 0;
    while i < n
        invariant
            i <= n == pkgs.len(),
            ps == pkgs@,
            in_degree@.len() == n,
            adj@.len() == n,
            done@ == Seq::new(n as nat, |i: int| false),
            forall|x: int|
                0 <= x < n ==> #[trigger] in_degree@[x] == if x < i {
                    live_in(ps, x, ps[x].deps@.len() as int, done@)
                } else {
                    0
                },
            forall|j: int, x: int|
                0 <= j < n && 0 <= x < n ==> #[trigger] occ(adj@[j]@, x) == if x < i {
                    deps_on(ps, x, ps[x].deps@.len() as int, j)
                } else {
                    0
                },
            forall|j: int, m: int| 0 <= j < n && 0 <= m < adj@[j]@.len() ==> #[trigger] adj@[j]@[m] < n,
            forall|j: int| 0 <= j < n ==> #[trigger] adj@[j]@ == row_upto(ps, j, i as int),
        decreases n - i,
    {
        let nd = pkgs[i].deps.len();
        let mut k: usize = 0;
        proof {
            assert forall|j: int| 0 <= j < n implies #[trigger] adj@[j]@ == row_upto(ps, j, i as int) + row_part(
                ps,
                j,
                i as int,
                0,
            ) by {
                assert(row_upto(ps, j, i as int) + row_part(ps, j, i as int, 0) =~= row_upto(ps, j, i as int));
            }
        }
        while k < nd
            invariant
                i < n == pkgs.len(),
                ps == pkgs@,
                nd == ps[i as int].deps@.len(),
                k <= nd,
                in_degree@.len() == n,
                adj@.len() == n,
                done@ == Seq::new(n as nat, |i: int| false),
                forall|x: int|
                    0 <= x < n ==> #[trigger] in_degree@[x] == if x < i {
                        live_in(ps, x, ps[x].deps@.len() as int, done@)
                    } else if x == i {
                        live_in(ps, x, k as int, done@)
                    } else {
                        0
                    },
                forall|j: int, x: int|
                    0 <= j < n && 0 <= x < n ==> #[trigger] occ(adj@[j]@, x) == if x < i {
                        deps_on(ps, x, ps[x].deps@.len() as int, j)
                    } else if x == i {
                        deps_on(ps, x, k as int, j)
                    } else {
                        0
                    },
                forall|j: int, m: int|
                    0 <= j < n && 0 <= m < adj@[j]@.len() ==> #[trigger] adj@[j]@[m] < n,
                forall|j: int|
                    0 <= j < n ==> #[trigger] adj@[j]@ == row_upto(ps, j, i as int) + row_part(
                        ps,
                        j,
                        i as int,
                        k as int,
                    ),
            decreases nd - k,
        {
            proof {
                lemma_last_named(ps, ps[i as int].deps@[k as int]@, ps.len() as int);
            }
            match last_named_exec(pkgs, &pkgs[i].deps[k]) {
                Some(j) => {
                    let ghost old_adj = adj@;
                    let mut row: Vec<usize> = Vec::new();
                    adj.set_and_swap(j, &mut row);
                    row.push(i);
                    adj.set(j, row);
                    proof {
                        assert(in_degree@[i as int] == live_in(ps, i as int, k as int, done@));
                        lemma_live_le(ps, i as int, k as int, done@);
                    }
                    let d = in_degree[i] + 1;
                    in_degree.set(i, d);
                    proof {
                        assert forall|jj: int, x: int|
                            0 <= jj < n && 0 <= x < n implies #[trigger] occ(adj@[jj]@, x) == if x < i {
                            deps_on(ps, x, ps[x].deps@.len() as int, jj)
                        } else if x == i {
                            deps_on(ps, x, k + 1, jj)
                        } else {
                            0
                        } by {
                            if jj == j {
                                lemma_occ_push(old_adj[jj]@, i, x);
                            }
                        }
                        assert forall|jj: int, m: int|
                            0 <= jj < n && 0 <= m < adj@[jj]@.len() implies #[trigger] adj@[jj]@[m]
                            < n by {
                            if jj == j && m < old_adj[jj]@.len() {
                                assert(adj@[jj]@[m] == old_adj[jj]@[m]);
                            }
                        }
                        assert forall|jj: int| 0 <= jj < n implies #[trigger] adj@[jj]@ == row_upto(
                            ps,
                            jj,
                            i as int,
                        ) + row_part(ps, jj, i as int, k + 1) by {
                            if jj == j {
                                assert(adj@[jj]@ =~= old_adj[jj]@.push(i));
                                assert(row_upto(ps, jj, i as int) + row_part(ps, jj, i as int, k + 1) =~= (row_upto(
                                    ps,
                                    jj,
                                    i as int,
                                ) + row_part(ps, jj, i as int, k as int)).push(i));
                            } else {
                                assert(adj@[jj]@ == old_adj[jj]@);
                                assert(row_part(ps, jj, i as int, k + 1) =~= row_part(ps, jj, i as int, k as int));
                            }
                        }
                    }
                },
                None => {
                    proof {
                        assert forall|jj: int| 0 <= jj < n implies #[trigger] adj@[jj]@ == row_upto(
                            ps,
                            jj,
                            i as int,
                        ) + row_part(ps, jj, i as int, k + 1) by {
                            assert(row_part(ps, jj, i as int, k + 1) =~= row_part(ps, jj, i as int, k as int));
                        }
                    }
                },
            }
            k = k + 1;
        }
        proof {
            assert forall|jj: int| 0 <= jj < n implies #[trigger] adj@[jj]@ == row_upto(ps, jj, i + 1) by {
                assert(row_upto(ps, jj, i + 1) == row_upto(ps, jj, i as int) + row_part(ps, jj, i as int, nd as int));
            }
        }
        i = i + 1;
    }
    // Kahn's algorithm, taking the most recently ready package first
    proof {
        assert(degs(in_degree@) =~= initial_degrees(ps));
    }
    let mut queue: Vec<usize> = Vec::new();
    let mut x: usize = 0;
    while x < n
        invariant
            x <= n == pkgs.len(),
            in_degree@.len() == n,
            degs(in_degree@) == initial_degrees(ps),
            queue@ == ready_upto(degs(in_degree@), x as int),
            forall|q: int| 0 <= q < queue@.len() ==> #[trigger] queue@[q] < x,
            forall|q: int| 0 <= q < queue@.len() ==> in_degree@[#[trigger] queue@[q] as int] == 0,
            forall|a: int, b: int| 0 <= a < b < queue@.len() ==> #[trigger] queue@[a] < #[trigger] queue@[b],
            forall|y: int| 0 <= y < x && in_degree@[y] == 0 ==> queue@.contains(y as usize),
        decreases n - x,
    {
        proof {
            assert(degs(in_degree@)[x as int] == in_degree@[x as int] as int);
        }
        if in_degree[x] == 0 {
            let ghost old_q = queue@;
            queue.push(x);
            proof {
                assert(queue@ =~= ready_upto(degs(in_degree@), x + 1));
            }
            proof {
                assert forall|y: int| 0 <= y < x + 1 && in_degree@[y] == 0 implies queue@.contains(y as usize) by {
                    if y == x {
                        assert(queue@[queue@.len() - 1] == x);
                    } else {
                        assert(old_q.contains(y as usize));
                        let q = choose|q: int| 0 <= q < old_q.len() && old_q[q] == y;
                        assert(queue@[q] == y);
                    }
                }
            }
        } else {
            proof {
                assert(queue@ =~= ready_upto(degs(in_degree@), x + 1));
            }
        }
        x = x + 1;
    }
    let mut order: Vec<usize> = Vec::new();
    proof {
        lemma_count_false_all(n as nat);
    }
    while queue.len() > 0
        invariant
            n == pkgs.len(),
            ps == pkgs@,
            in_degree@.len() == n,
            adj@.len() == n,
            done@.len() == n,
            order@.len() + count_false(done@) == n,
            forall|j: int| 0 <= j < n ==> #[trigger] adj@[j]@ == dependents(ps, j),
            degs(in_degree@) == kahn_run(ps, order@.len() as nat).0,
            queue@ == kahn_run(ps, order@.len() as nat).1,
            order@ == kahn_run(ps, order@.len() as nat).2,
            forall|i: int, k: int|
                0 <= i < ps.len() && 0 <= k < ps[i].deps@.len() ==> #[trigger] dep_target(ps, i, k)
                    < ps.len(),
            forall|j: int, x: int|
                0 <= j < n && 0 <= x < n ==> #[trigger] occ(adj@[j]@, x) == deps_on(
                    ps,
                    x,
                    ps[x].deps@.len() as int,
                    j,
                ),
            forall|j: int, m: int| 0 <= j < n && 0 <= m < adj@[j]@.len() ==> #[trigger] adj@[j]@[m] < n,
            // packages not built
            forall|x: int|
                0 <= x < n && !done@[x] ==> #[trigger] in_degree@[x] == live_in(
                    ps,
                    x,
                    ps[x].deps@.len() as int,
                    done@,
                ),
            forall|x: int| 0 <= x < n && !done@[x] && in_degree@[x] == 0 ==> #[trigger] queue@.contains(x as usize),
            // ready packages
            forall|q: int| 0 <= q < queue@.len() ==> #[trigger] queue@[q] < n,
            forall|q: int| 0 <= q < queue@.len() ==> !done@[#[trigger] queue@[q] as int],
            forall|q: int| 0 <= q < queue@.len() ==> in_degree@[#[trigger] queue@[q] as int] == 0,
            forall|a: int, b: int| 0 <= a < b < queue@.len() ==> #[trigger] queue@[a] != #[trigger] queue@[b],
            // built packages, in order
            forall|a: int| 0 <= a < order@.len() ==> #[trigger] order@[a] < n,
            forall|a: int, b: int| 0 <= a < b < order@.len() ==> #[trigger] order@[a] != #[trigger] order@[b],
            forall|x: int| 0 <= x < n && done@[x] ==> #[trigger] placed_before(order@, x, order@.len() as int),
            forall|a: int| 0 <= a < order@.len() ==> done@[#[trigger] order@[a] as int],
            forall|b: int, k: int|
                0 <= b < order@.len() && 0 <= k < ps[order@[b] as int].deps@.len() && dep_target(
                    ps,
                    order@[b] as int,
                    k,
                ) >= 0 ==> placed_before(order@, dep_target(ps, order@[b] as int, k), b),
        decreases count_false(done@),
    {
        let ghost q_before = queue@;
        let i = queue.pop().unwrap();
        let ghost old_done = done@;
        let ghost old_order = order@;
        let ghost t = old_order.len() as nat;
        let ghost d0 = degs(in_degree@);
        let ghost q0 = queue@;
        proof {
            assert(q_before =~= queue@.push(i));
        }
        proof {
            assert(!done@[i as int]);
            assert(in_degree@[i as int] == 0);
            lemma_live_zero(ps, i as int, ps[i as int].deps@.len() as int, done@);
            lemma_count_false_update(done@, i as int);
        }
        order.push(i);
        done.set(i, true);
        proof {
            assert forall|b: int, k: int|
                0 <= b < order@.len() && 0 <= k < ps[order@[b] as int].deps@.len() && dep_target(
                    ps,
                    order@[b] as int,
                    k,
                ) >= 0 implies placed_before(order@, dep_target(ps, order@[b] as int, k), b) by {
                if b < old_order.len() {
                    assert(order@[b] == old_order[b]);
                    assert(placed_before(old_order, dep_target(ps, old_order[b] as int, k), b));
                    let a = choose|a: int|
                        0 <= a < b && #[trigger] old_order[a] == dep_target(ps, old_order[b] as int, k);
                    assert(order@[a] == old_order[a]);
                } else {
                    let t = dep_target(ps, i as int, k);
                    assert(old_done[t]);
                    assert(placed_before(old_order, t, old_order.len() as int));
                    let a = choose|a: int| 0 <= a < old_order.len() && #[trigger] old_order[a] == t;
                    assert(order@[a] == old_order[a]);
                }
            }
            assert forall|x: int| 0 <= x < n && done@[x] implies #[trigger] placed_before(order@, x, order@.len() as int) by {
                if x == i {
                    assert(order@[order@.len() - 1] == x);
                } else {
                    assert(placed_before(old_order, x, old_order.len() as int));
                    let a = choose|a: int| 0 <= a < old_order.len() && #[trigger] old_order[a] == x;
                    assert(order@[a] == x);
                }
            }
            assert forall|a: int, b: int| 0 <= a < b < order@.len() implies #[trigger] order@[a]
                != #[trigger] order@[b] by {
                if b == old_order.len() {
                    assert(old_done[old_order[a] as int]);
                }
            }
            assert forall|x: int| 0 <= x < n && !done@[x] implies #[trigger] in_degree@[x] == live_in(
                ps,
                x,
                ps[x].deps@.len() as int,
                done@,
            ) + deps_on(ps, x, ps[x].deps@.len() as int, i as int) by {
                assert(x != i);
                assert(!old_done[x]);
                lemma_live_done(ps, x, ps[x].deps@.len() as int, old_done, i as int);
            }
            assert forall|x: int| 0 <= x < n && !done@[x] && in_degree@[x] == 0 implies #[trigger] queue@.contains(
                x as usize,
            ) by {
                assert(x != i);
                assert(q_before.contains(x as usize));
                let q = choose|q: int| 0 <= q < q_before.len() && q_before[q] == x;
                assert(q < queue@.len());
                assert(queue@[q] == x);
            }
            assert forall|x: int| 0 <= x < n && occ(adj@[i as int]@, x) > 0 implies !#[trigger] done@[x] || x == i by {
                if done@[x] && x != i {
                    let k = lemma_deps_on_pos(ps, x, ps[x].deps@.len() as int, i as int);
                    assert(old_done[x]);
                    assert(placed_before(old_order, x, old_order.len() as int));
                    let b = choose|b: int| 0 <= b < old_order.len() && #[trigger] old_order[b] == x;
                    assert(dep_target(ps, old_order[b] as int, k) == i);
                    assert(placed_before(old_order, i as int, b));
                    let a = choose|a: int| 0 <= a < b && #[trigger] old_order[a] == i;
                    assert(old_done[old_order[a] as int]);
                }
            }
            assert forall|x: int| 0 <= x < n && !done@[x] implies #[trigger] in_degree@[x] == live_in(
                ps,
                x,
                ps[x].deps@.len() as int,
                done@,
            ) + occ(adj@[i as int]@.skip(0), x) by {
                lemma_occ_all(adj@[i as int]@, x);
                assert(occ(adj@[i as int]@, x) == deps_on(ps, x, ps[x].deps@.len() as int, i as int));
            }
        }
        let row_len = adj[i].len();
        let mut m: usize = 0;
        proof {
            assert forall|y: int| 0 <= y < n implies #[trigger] occ(adj@[i as int]@.skip(0), y) == occ(
                adj@[i as int]@,
                y,
            ) by {
                lemma_occ_all(adj@[i as int]@, y);
            }
        }
        proof {
            assert(adj@[i as int]@.take(0) =~= Seq::<usize>::empty());
            assert(q_before.drop_last() =~= q0);
        }
        while m < row_len
            invariant
                n == pkgs.len(),
                ps == pkgs@,
                i < n,
                forall|j: int| 0 <= j < n ==> #[trigger] adj@[j]@ == dependents(ps, j),
                kahn_run(ps, t).1.len() > 0,
                kahn_run(ps, t).1.last() == i,
                kahn_run(ps, t).1.drop_last() == q0,
                kahn_run(ps, t).0 == d0,
                order@ == kahn_run(ps, t).2.push(i),
                degs(in_degree@) == release(d0, q0, adj@[i as int]@.take(m as int), i).0,
                queue@ == release(d0, q0, adj@[i as int]@.take(m as int), i).1,
                row_len == adj@[i as int]@.len(),
                m <= row_len,
                in_degree@.len() == n,
                adj@.len() == n,
                done@.len() == n,
                done@[i as int],
                order@.len() + count_false(done@) == n,
                forall|j: int, x: int|
                    0 <= j < n && 0 <= x < n ==> #[trigger] occ(adj@[j]@, x) == deps_on(
                        ps,
                        x,
                        ps[x].deps@.len() as int,
                        j,
                    ),
                forall|j: int, mm: int|
                    0 <= j < n && 0 <= mm < adj@[j]@.len() ==> #[trigger] adj@[j]@[mm] < n,
                forall|x: int|
                    0 <= x < n && !done@[x] ==> #[trigger] in_degree@[x] == live_in(
                        ps,
                        x,
                        ps[x].deps@.len() as int,
                        done@,
                    ) + occ(adj@[i as int]@.skip(m as int), x),
                forall|x: int|
                    0 <= x < n && !done@[x] && in_degree@[x] == 0 ==> #[trigger] queue@.contains(
                        x as usize,
                    ),
                forall|q: int| 0 <= q < queue@.len() ==> #[trigger] queue@[q] < n,
                forall|q: int| 0 <= q < queue@.len() ==> !done@[#[trigger] queue@[q] as int],
                forall|q: int| 0 <= q < queue@.len() ==> in_degree@[#[trigger] queue@[q] as int] == 0,
                forall|a: int, b: int|
                    0 <= a < b < queue@.len() ==> #[trigger] queue@[a] != #[trigger] queue@[b],
                // a package that depends on `i` is not built yet
                forall|x: int|
                    0 <= x < n && occ(adj@[i as int]@, x) > 0 ==> !#[trigger] done@[x] || x == i,
            decreases row_len - m,
        {
            let y = adj[i][m];
            let ghost deg0 = in_degree@;
            let ghost qm = queue@;
            proof {
                let row = adj@[i as int]@;
                assert(row.take(m + 1).drop_last() =~= row.take(m as int));
                assert(row.take(m + 1).last() == y);
            }
            proof {
                lemma_occ_skip(adj@[i as int]@, m as int, y as int);
                assert forall|x: int| 0 <= x < n && x != y implies occ(adj@[i as int]@.skip(m as int), x)
                    == occ(adj@[i as int]@.skip(m + 1), x) by {
                    lemma_occ_skip(adj@[i as int]@, m as int, x);
                }
            }
            if y != i {
                proof {
                    lemma_occ_skip_le(adj@[i as int]@, m as int, y as int);
                    assert(!done@[y as int]);
                    assert forall|q: int| 0 <= q < qm.len() implies qm[q] != y by {
                        assert(deg0[qm[q] as int] == 0);
                    }
                }
                let d = in_degree[y] - 1;
                in_degree.set(y, d);
                proof {
                    assert(degs(in_degree@) =~= degs(deg0).update(y as int, degs(deg0)[y as int] - 1));
                }
                if d == 0 {
                    queue.push(y);
                    proof {
                        assert forall|xx: int| 0 <= xx < n && !done@[xx] && in_degree@[xx] == 0 implies #[trigger] queue@.contains(
                            xx as usize,
                        ) by {
                            if xx == y {
                                assert(queue@[queue@.len() - 1] == y);
                            } else {
                                assert(qm.contains(xx as usize));
                                let q = choose|q: int| 0 <= q < qm.len() && qm[q] == xx;
                                assert(queue@[q] == xx);
                            }
                        }
                    }
                } else {
                    proof {
                        assert forall|xx: int| 0 <= xx < n && !done@[xx] && in_degree@[xx] == 0 implies #[trigger] queue@.contains(
                            xx as usize,
                        ) by {
                            assert(xx != y);
                            assert(qm.contains(xx as usize));
                        }
                    }
                }
            } else {
                // `i` depends on itself: it is built already, nothing changes
            }
            m = m + 1;
        }
        proof {
            assert forall|x: int| 0 <= x < n && !done@[x] implies #[trigger] in_degree@[x] == live_in(
                ps,
                x,
                ps[x].deps@.len() as int,
                done@,
            ) by {
                lemma_occ_all(adj@[i as int]@, x);
            }
            assert(adj@[i as int]@.take(row_len as int) =~= dependents(ps, i as int));
            assert(kahn_run(ps, t + 1) == kahn_step(ps, kahn_run(ps, t)));
            assert(order@.len() == t + 1);
        }
    }
    proof {
        lemma_kahn_stays(ps, order@.len() as nat, n as nat);
    }
    proof {
        lemma_count_false_zero(done@);
    }
    if order.len() != n {
        proof {
            assert forall|u: int| 0 <= u < done@.len() && !#[trigger] done@[u] implies live_in(
                ps,
                u,
                ps[u].deps@.len() as int,
                done@,
            ) > 0 by {
                if in_degree@[u] == 0 {
                    assert(queue@.contains(u as usize));
                }
            }
            assert forall|o: Seq<usize>| !valid_order(ps, o) by {
                lemma_no_order(ps, done@, o);
            }
        }
        return Err(Error::Aur("circular dependency detected in AUR packages".to_owned()));
    }
    proof {
        assert forall|a: int, b: int, k: int|
            0 <= a < n && 0 <= b < n && 0 <= k < ps[order@[b] as int].deps@.len() && dep_target(
                ps,
                order@[b] as int,
                k,
            ) == order@[a] implies a < b by {
            assert(placed_before(order@, dep_target(ps, order@[b] as int, k), b));
            let a2 = choose|a2: int|
                0 <= a2 < b && #[trigger] order@[a2] == dep_target(ps, order@[b] as int, k);
            if a != a2 {
                if a < a2 {
                    assert(order@[a] != order@[a2]);
                } else {
                    assert(order@[a2] != order@[a]);
                }
            }
        }
        assert forall|xx: int| 0 <= xx < n implies #[trigger] placed_before(order@, xx, n as int) by {
            assert(done@[xx]);
        }
    }
    Ok(order)
}

pub proof fn lemma_occ_skip_le(s: Seq<usize>, m: int, x: int)
    requires
        0 <= m <= s.len(),
    ensures
        occ(s.skip(m), x) <= occ(s, x),
    decreases m,
{
    if m > 0 {
        lemma_occ_skip_le(s, m - 1, x);
        lemma_occ_skip(s, m - 1, x);
    } else {
        assert(s.skip(0) =~= s);
    }
}

} // verus!

//! The pacman package databases: the `desc` records of the local database and
//! of the sync database archives, keyed by package name, and what they give
//! for searches, details and upgrades.
use crate::appstream::{gunzip, gunzipped};
use crate::aur::views;
use crate::model::{clone_opt_string, clone_strings};
use crate::pacman::{RepoDetails, RepoPkg};
use crate::text::str_eq;
use std::str::FromStr;
use vstd::prelude::*;

verus! {

// ---------------------------------------------------------------------------
// Records keyed by name
// ---------------------------------------------------------------------------

/// The first position of `s` whose key is `k`, or -1.
pub open spec fn key_index<V>(s: Seq<(Seq<char>, V)>, k: Seq<char>) -> int
    decreases s.len(),
{
    if s.len() == 0 {
        -1
    } else {
        let i = key_index(s.drop_last(), k);
        if i >= 0 {
            i
        } else if s.last().0 == k {
            s.len() - 1
        } else {
            -1
        }
    }
}

/// The records keyed by name, as a map fills: a record whose name is already
/// there replaces the earlier one in its place, others are added at the end.
pub open spec fn keyed<V>(s: Seq<(Seq<char>, V)>) -> Seq<(Seq<char>, V)>
    decreases s.len(),
{
    if s.len() == 0 {
        seq![]
    } else {
        let r = keyed(s.drop_last());
        let x = s.last();
        let k = key_index(r, x.0);
        if k >= 0 {
            r.update(k, x)
        } else {
            r.push(x)
        }
    }
}

pub proof fn lemma_key_index<V>(s: Seq<(Seq<char>, V)>, k: Seq<char>)
    ensures
        -1 <= key_index(s, k) < s.len(),
        key_index(s, k) >= 0 ==> s[key_index(s, k)].0 == k,
        forall|m: int| 0 <= m < s.len() && (key_index(s, k) < 0 || m < key_index(s, k)) ==> (#[trigger] s[m]).0 != k,
    decreases s.len(),
{
    if s.len() > 0 {
        lemma_key_index(s.drop_last(), k);
        assert forall|m: int| 0 <= m < s.len() && (key_index(s, k) < 0 || m < key_index(s, k)) implies (
        #[trigger] s[m]).0 != k by {
            if m < s.len() - 1 {
                assert(s[m] == s.drop_last()[m]);
            }
        }
    }
}

/// A key that is first found at `j` has its key index at `j`; a key found nowhere has none.
proof fn lemma_key_index_at<V>(s: Seq<(Seq<char>, V)>, k: Seq<char>, j: int)
    requires
        -1 <= j <= s.len(),
        j >= 0 ==> j < s.len() && s[j].0 == k,
        forall|m: int| 0 <= m < s.len() && (j < 0 || m < j) ==> (#[trigger] s[m]).0 != k,
    ensures
        key_index(s, k) == j,
{
    lemma_key_index(s, k);
    let i = key_index(s, k);
    if i >= 0 && j >= 0 {
        if i < j {
            assert(s[i].0 != k);
        } else if j < i {
            assert(s[j].0 != k);
        }
    } else if i >= 0 {
        assert(s[i].0 != k);
    } else if j >= 0 {
        assert(s[j].0 != k);
    }
}

// ---------------------------------------------------------------------------
// The local database
// ---------------------------------------------------------------------------

/// The name, version and description that a local database `desc` text gives
/// when `alpm_db` reads it as a version 2 record.
pub uninterp spec fn local_desc_fields(text: Seq<char>) -> Option<(Seq<char>, Seq<char>, Seq<char>)>;

/// `DbDescFileV2::from_str` on the text; its name, version and description as text.
#[verifier::external_body]
fn parse_local_desc(text: &str) -> (r: Option<RepoPkg>)
    ensures
        match r {
            Some(p) => local_desc_fields(text@) == Some((p.name@, p.version@, p.description@)),
            None => local_desc_fields(text@) is None,
        },
{
    let d = alpm_db::desc::DbDescFileV2::from_str(text).ok()?;
    Some(RepoPkg { name: d.name.to_string(), version: d.version.to_string(), description: d.description.to_string() })
}

pub open spec fn pkg_view(p: RepoPkg) -> (Seq<char>, (Seq<char>, Seq<char>)) {
    (p.name@, (p.version@, p.description@))
}

pub open spec fn pkg_views(v: Seq<RepoPkg>) -> Seq<(Seq<char>, (Seq<char>, Seq<char>))> {
    v.map_values(|p: RepoPkg| pkg_view(p))
}

/// The records that the local `desc` texts give, in order, leaving out those that do not read.
pub open spec fn local_records(texts: Seq<String>) -> Seq<(Seq<char>, (Seq<char>, Seq<char>))>
    decreases texts.len(),
{
    if texts.len() == 0 {
        seq![]
    } else {
        let rest = local_records(texts.drop_last());
        match local_desc_fields(texts.last()@) {
            Some(f) => rest.push((f.0, (f.1, f.2))),
            None => rest,
        }
    }
}

fn find_pkg(v: &Vec<RepoPkg>, name: &str) -> (r: Option<usize>)
    ensures
        key_index(pkg_views(v@), name@) == match r {
            Some(j) => j as int,
            None => -1,
        },
{
    let ghost s = pkg_views(v@);
    let mut j: usize = 0;
    while j < v.len()
        invariant
            j <= v.len(),
            s == pkg_views(v@),
            forall|m: int| 0 <= m < j ==> (#[trigger] s[m]).0 != name@,
        decreases v.len() - j,
    {
        if str_eq(v[j].name.as_str(), name) {
            proof {
                lemma_key_index_at(s, name@, j as int);
            }
            return Some(j);
        }
        j = j + 1;
    }
    proof {
        lemma_key_index_at(s, name@, -1);
    }
    None
}

impl crate::model::PacmanCli {
    /// The installed packages, from the `desc` texts of the local database:
    /// the records that read, keyed by name.
    pub fn local_packages(texts: &Vec<String>) -> (r: Vec<RepoPkg>)
        ensures
            pkg_views(r@) == keyed(local_records(texts@)),
    {
        let mut out: Vec<RepoPkg> = Vec::new();
        let mut i: usize = 0;
        while i < texts.len()
            invariant
                i <= texts.len(),
                pkg_views(out@) == keyed(local_records(texts@.take(i as int))),
            decreases texts.len() - i,
        {
            proof {
                assert(texts@.take(i + 1).drop_last() =~= texts@.take(i as int));
                assert(texts@.take(i + 1).last() == texts@[i as int]);
            }
            match parse_local_desc(texts[i].as_str()) {
                Some(p) => {
                    let ghost pv = pkg_view(p);
                    let ghost o0 = pkg_views(out@);
                    proof {
                        let l = local_records(texts@.take(i + 1));
                        assert(l == local_records(texts@.take(i as int)).push(pv));
                        assert(l.drop_last() =~= local_records(texts@.take(i as int)));
                        assert(l.last() == pv);
                        assert(keyed(l) == if key_index(o0, pv.0) >= 0 {
                            o0.update(key_index(o0, pv.0), pv)
                        } else {
                            o0.push(pv)
                        });
                    }
                    match find_pkg(&out, p.name.as_str()) {
                        Some(j) => {
                            proof {
                                lemma_key_index(o0, pv.0);
                            }
                            out.set(j, p);
                            assert(pkg_views(out@) =~= o0.update(j as int, pv));
                        },
                        None => {
                            out.push(p);
                            assert(pkg_views(out@) =~= o0.push(pv));
                        },
                    }
                },
                None => {},
            }
            i = i + 1;
        }
        assert(texts@.take(texts.len() as int) =~= texts@);
        out
    }
}

// ---------------------------------------------------------------------------
// The sync databases
// ---------------------------------------------------------------------------

/// One record of a sync database: the package's name and its details.
pub struct SyncRecord {
    pub name: String,
    pub details: RepoDetails,
}

pub struct DetailsView {
    pub version: Seq<char>,
    pub description: Seq<char>,
    pub depends: Seq<Seq<char>>,
    pub opt_depends: Seq<Seq<char>>,
    pub url: Option<Seq<char>>,
    pub packager: Seq<char>,
    pub installed_size: u64,
    pub compressed_size: u64,
}

pub open spec fn details_view(d: RepoDetails) -> DetailsView {
    DetailsView {
        version: d.version@,
        description: d.description@,
        depends: views(d.depends@),
        opt_depends: views(d.opt_depends@),
        url: match d.url {
            Some(u) => Some(u@),
            None => None,
        },
        packager: d.packager@,
        installed_size: d.installed_size,
        compressed_size: d.compressed_size,
    }
}

pub open spec fn record_view(r: SyncRecord) -> (Seq<char>, DetailsView) {
    (r.name@, details_view(r.details))
}

pub open spec fn record_views(v: Seq<SyncRecord>) -> Seq<(Seq<char>, DetailsView)> {
    v.map_values(|r: SyncRecord| record_view(r))
}

/// The name and details that a sync database `desc` text gives when
/// `alpm_repo_db` reads it as a version 2 record.
pub uninterp spec fn sync_desc_fields(text: Seq<char>) -> Option<(Seq<char>, DetailsView)>;

/// `RepoDescFileV2::from_str` on the text; its name, version, description,
/// dependencies, optional dependencies, URL and packager as text, and its sizes.
#[verifier::external_body]
fn parse_sync_desc(text: &str) -> (r: Option<SyncRecord>)
    ensures
        match r {
            Some(x) => sync_desc_fields(text@) == Some(record_view(x)),
            None => sync_desc_fields(text@) is None,
        },
{
    let d = alpm_repo_db::desc::RepoDescFileV2::from_str(text).ok()?;
    let details = RepoDetails {
        version: d.version.to_string(),
        description: d.description.to_string(),
        depends: d.dependencies.iter().map(ToString::to_string).collect(),
        opt_depends: d.optional_dependencies.iter().map(ToString::to_string).collect(),
        url: d.url.map(|u| u.to_string()),
        packager: d.packager.to_string(),
        installed_size: d.installed_size,
        compressed_size: d.compressed_size,
    };
    Some(SyncRecord { name: d.name.to_string(), details })
}

/// The entries of a tar archive, in order: each one's path as text, and its
/// content when it reads as UTF-8 text.
pub uninterp spec fn tar_entries_of(archive: Seq<u8>) -> Seq<(Seq<char>, Option<Seq<char>>)>;

/// `tar::Archive::entries` over the bytes, leaving out entries that cannot be
/// read or whose path cannot; each entry's path (`to_string_lossy`) and its
/// content through `Read::read_to_string`.
#[verifier::external_body]
fn tar_entries(archive: &[u8]) -> (r: Vec<(String, Option<String>)>)
    ensures
        r@.map_values(|e: (String, Option<String>)| (e.0@, crate::model::opt_view(e.1))) == tar_entries_of(archive@),
{
    let mut out = Vec::new();
    let mut tar = tar::Archive::new(archive);
    let Ok(entries) = tar.entries() else {
        return out;
    };
    for mut e in entries.flatten() {
        let Ok(path) = e.path().map(|p| p.to_string_lossy().into_owned()) else {
            continue;
        };
        let mut text = String::new();
        out.push((path, std::io::Read::read_to_string(&mut e, &mut text).ok().map(|_| text)));
    }
    out
}

/// Whether the path `path` ends with the component `child` (`Path::ends_with`).
pub uninterp spec fn path_ends_with(path: Seq<char>, child: Seq<char>) -> bool;

/// `std::path::Path::ends_with`.
#[verifier::external_body]
fn path_ends_with_exec(path: &str, child: &str) -> (r: bool)
    ensures
        r == path_ends_with(path@, child@),
{
    std::path::Path::new(path).ends_with(child)
}

/// The records of the `desc` entries of a sync database, in order, leaving
/// out those that do not read.
pub open spec fn sync_records(entries: Seq<(Seq<char>, Option<Seq<char>>)>) -> Seq<(Seq<char>, DetailsView)>
    decreases entries.len(),
{
    if entries.len() == 0 {
        seq![]
    } else {
        let rest = sync_records(entries.drop_last());
        let e = entries.last();
        if path_ends_with(e.0, "desc"@) {
            match e.1 {
                Some(t) => match sync_desc_fields(t) {
                    Some(f) => rest.push(f),
                    None => rest,
                },
                None => rest,
            }
        } else {
            rest
        }
    }
}

fn find_record(v: &Vec<SyncRecord>, name: &str) -> (r: Option<usize>)
    ensures
        key_index(record_views(v@), name@) == match r {
            Some(j) => j as int,
            None => -1,
        },
{
    let ghost s = record_views(v@);
    let mut j: usize = 0;
    while j < v.len()
        invariant
            j <= v.len(),
            s == record_views(v@),
            forall|m: int| 0 <= m < j ==> (#[trigger] s[m]).0 != name@,
        decreases v.len() - j,
    {
        if str_eq(v[j].name.as_str(), name) {
            proof {
                lemma_key_index_at(s, name@, j as int);
            }
            return Some(j);
        }
        j = j + 1;
    }
    proof {
        lemma_key_index_at(s, name@, -1);
    }
    None
}

impl crate::model::PacmanCli {
    /// The packages of a sync database archive (a gzip-compressed tar): the
    /// records of its `desc` entries that read, keyed by name.
    pub fn sync_db_records(archive: &[u8]) -> (r: Vec<SyncRecord>)
        ensures
            record_views(r@) == keyed(sync_records(tar_entries_of(gunzipped(archive@)))),
    {
        let tar = gunzip(archive);
        let entries = tar_entries(tar.as_slice());
        let ghost ev = entries@.map_values(|e: (String, Option<String>)| (e.0@, crate::model::opt_view(e.1)));
        let mut out: Vec<SyncRecord> = Vec::new();
        let mut i: usize = 0;
        while i < entries.len()
            invariant
                i <= entries.len(),
                ev == entries@.map_values(|e: (String, Option<String>)| (e.0@, crate::model::opt_view(e.1))),
                record_views(out@) == keyed(sync_records(ev.take(i as int))),
            decreases entries.len() - i,
        {
            proof {
                assert(ev.take(i + 1).drop_last() =~= ev.take(i as int));
                assert(ev.take(i + 1).last() == ev[i as int]);
            }
            let e = &entries[i];
            if path_ends_with_exec(e.0.as_str(), "desc") {
                match &e.1 {
                    Some(t) => match parse_sync_desc(t.as_str()) {
                        Some(rec) => {
                            let ghost rv = record_view(rec);
                            let ghost o0 = record_views(out@);
                            proof {
                                let l = sync_records(ev.take(i + 1));
                                assert(l == sync_records(ev.take(i as int)).push(rv));
                                assert(l.drop_last() =~= sync_records(ev.take(i as int)));
                                assert(l.last() == rv);
                                assert(keyed(l) == if key_index(o0, rv.0) >= 0 {
                                    o0.update(key_index(o0, rv.0), rv)
                                } else {
                                    o0.push(rv)
                                });
                            }
                            match find_record(&out, rec.name.as_str()) {
                                Some(j) => {
                                    proof {
                                        lemma_key_index(o0, rv.0);
                                    }
                                    out.set(j, rec);
                                    assert(record_views(out@) =~= o0.update(j as int, rv));
                                },
                                None => {
                                    out.push(rec);
                                    assert(record_views(out@) =~= o0.push(rv));
                                },
                            }
                        },
                        None => {},
                    },
                    None => {},
                }
            }
            i = i + 1;
        }
        assert(ev.take(entries.len() as int) =~= ev);
        out
    }
}

// ---------------------------------------------------------------------------
// Searches, details and upgrades over the sync databases
// ---------------------------------------------------------------------------

pub open spec fn db_views(dbs: Seq<Vec<SyncRecord>>) -> Seq<Seq<(Seq<char>, DetailsView)>> {
    dbs.map_values(|d: Vec<SyncRecord>| record_views(d@))
}

/// The first of the first `n` databases that holds a record named `name`, or -1.
pub open spec fn holding_db(dbs: Seq<Seq<(Seq<char>, DetailsView)>>, name: Seq<char>, n: int) -> int
    decreases n,
{
    if n <= 0 {
        -1
    } else {
        let i = holding_db(dbs, name, n - 1);
        if i >= 0 {
            i
        } else if key_index(dbs[n - 1], name) >= 0 {
            n - 1
        } else {
            -1
        }
    }
}

/// The details of `name` in the first database that holds it.
pub open spec fn first_record(dbs: Seq<Seq<(Seq<char>, DetailsView)>>, name: Seq<char>) -> Option<DetailsView> {
    let i = holding_db(dbs, name, dbs.len() as int);
    if i >= 0 {
        Some(dbs[i][key_index(dbs[i], name)].1)
    } else {
        None
    }
}

proof fn lemma_holding_stays(dbs: Seq<Seq<(Seq<char>, DetailsView)>>, name: Seq<char>, m: int, n: int)
    requires
        0 <= m <= n,
        holding_db(dbs, name, m) >= 0,
    ensures
        holding_db(dbs, name, n) == holding_db(dbs, name, m),
    decreases n - m,
{
    if m < n {
        lemma_holding_stays(dbs, name, m, n - 1);
    }
}

/// The database and the record of `name` in the first database that holds it.
fn find_first(dbs: &Vec<Vec<SyncRecord>>, name: &str) -> (r: Option<(usize, usize)>)
    ensures
        ({
            let dv = db_views(dbs@);
            let i = holding_db(dv, name@, dv.len() as int);
            match r {
                Some((a, b)) => i == a && a < dbs@.len() && key_index(dv[i], name@) == b && b < dbs@[i]@.len(),
                None => i == -1,
            }
        }),
{
    let ghost dv = db_views(dbs@);
    let mut a: usize = 0;
    while a < dbs.len()
        invariant
            a <= dbs.len(),
            dv == db_views(dbs@),
            holding_db(dv, name@, a as int) == -1,
        decreases dbs.len() - a,
    {
        match find_record(&dbs[a], name) {
            Some(b) => {
                proof {
                    assert(dv[a as int] == record_views(dbs@[a as int]@));
                    lemma_holding_stays(dv, name@, a + 1, dv.len() as int);
                    lemma_key_index(dv[a as int], name@);
                }
                return Some((a, b));
            },
            None => {},
        }
        a = a + 1;
    }
    None
}

/// Whether version `a` is newer than version `b`, as `alpm_types` orders full
/// versions; `false` when either text is no version.
pub uninterp spec fn version_newer(a: Seq<char>, b: Seq<char>) -> bool;

/// `alpm_types::FullVersion::from_str` on both texts, then `>`; `false` when
/// either text does not read as a version.
#[verifier::external_body]
fn version_newer_exec(a: &str, b: &str) -> (r: bool)
    ensures
        r == version_newer(a@, b@),
{
    match (alpm_types::FullVersion::from_str(a), alpm_types::FullVersion::from_str(b)) {
        (Ok(x), Ok(y)) => x > y,
        _ => false,
    }
}

/// The upgrades of the installed packages `local`: for each, in order, the
/// record of the first database that holds its name, when that version is
/// newer than the installed one.
pub open spec fn upgrades_of(
    local: Seq<(Seq<char>, (Seq<char>, Seq<char>))>,
    dbs: Seq<Seq<(Seq<char>, DetailsView)>>,
) -> Seq<(Seq<char>, (Seq<char>, Seq<char>))>
    decreases local.len(),
{
    if local.len() == 0 {
        seq![]
    } else {
        let rest = upgrades_of(local.drop_last(), dbs);
        let l = local.last();
        match first_record(dbs, l.0) {
            Some(s) => if version_newer(s.version, l.1.0) {
                rest.push((l.0, (s.version, s.description)))
            } else {
                rest
            },
            None => rest,
        }
    }
}

/// All records of the databases, in order, as packages.
pub open spec fn all_packages(dbs: Seq<Seq<(Seq<char>, DetailsView)>>) -> Seq<(Seq<char>, (Seq<char>, Seq<char>))>
    decreases dbs.len(),
{
    if dbs.len() == 0 {
        seq![]
    } else {
        all_packages(dbs.drop_last()) + dbs.last().map_values(
            |r: (Seq<char>, DetailsView)| (r.0, (r.1.version, r.1.description)),
        )
    }
}

fn clone_details(d: &RepoDetails) -> (r: RepoDetails)
    ensures
        details_view(r) == details_view(*d),
{
    RepoDetails {
        version: d.version.clone(),
        description: d.description.clone(),
        depends: clone_strings(&d.depends),
        opt_depends: clone_strings(&d.opt_depends),
        url: clone_opt_string(&d.url),
        packager: d.packager.clone(),
        installed_size: d.installed_size,
        compressed_size: d.compressed_size,
    }
}

impl crate::model::PacmanCli {
    /// The details of `name` from the first sync database that holds it.
    pub fn sync_details(dbs: &Vec<Vec<SyncRecord>>, name: &str) -> (r: Option<RepoDetails>)
        ensures
            match r {
                Some(d) => first_record(db_views(dbs@), name@) == Some(details_view(d)),
                None => first_record(db_views(dbs@), name@) is None,
            },
    {
        match find_first(dbs, name) {
            Some((a, b)) => {
                proof {
                    assert(db_views(dbs@)[a as int] == record_views(dbs@[a as int]@));
                    assert(record_views(dbs@[a as int]@)[b as int] == record_view(dbs@[a as int]@[b as int]));
                }
                Some(clone_details(&dbs[a][b].details))
            },
            None => None,
        }
    }

    /// All packages of the sync databases, database by database.
    pub fn sync_packages(dbs: &Vec<Vec<SyncRecord>>) -> (r: Vec<RepoPkg>)
        ensures
            pkg_views(r@) == all_packages(db_views(dbs@)),
    {
        let ghost dv = db_views(dbs@);
        let mut out: Vec<RepoPkg> = Vec::new();
        let mut a: usize = 0;
        while a < dbs.len()
            invariant
                a <= dbs.len(),
                dv == db_views(dbs@),
                pkg_views(out@) == all_packages(dv.take(a as int)),
            decreases dbs.len() - a,
        {
            let db = &dbs[a];
            let ghost row = dv[a as int].map_values(|r: (Seq<char>, DetailsView)| (r.0, (r.1.version, r.1.description)));
            let ghost o0 = pkg_views(out@);
            proof {
                assert(dv[a as int] == record_views(db@));
                assert(dv.take(a + 1).drop_last() =~= dv.take(a as int));
                assert(dv.take(a + 1).last() == dv[a as int]);
            }
            let mut b: usize = 0;
            while b < db.len()
                invariant
                    b <= db.len(),
                    a < dv.len(),
                    dv[a as int] == record_views(db@),
                    row == dv[a as int].map_values(|r: (Seq<char>, DetailsView)| (r.0, (r.1.version, r.1.description))),
                    pkg_views(out@) == o0 + row.take(b as int),
                decreases db.len() - b,
            {
                let r = &db[b];
                let ghost ob = pkg_views(out@);
                out.push(RepoPkg { name: r.name.clone(), version: r.details.version.clone(), description: r.details.description.clone() });
                proof {
                    assert(dv[a as int][b as int] == record_view(db@[b as int]));
                    assert(row[b as int] == (r.name@, (r.details.version@, r.details.description@)));
                    assert(row.take(b + 1) =~= row.take(b as int).push(row[b as int]));
                    assert(pkg_views(out@) =~= ob.push(row[b as int]));
                    assert(pkg_views(out@) =~= o0 + row.take(b + 1));
                }
                b = b + 1;
            }
            proof {
                assert(row.take(db.len() as int) =~= row);
            }
            a = a + 1;
        }
        assert(dv.take(dbs.len() as int) =~= dv);
        out
    }

    /// The upgrades of the installed packages `local` from the sync databases
    /// `dbs`: for each installed package, in order, the first database that
    /// holds its name gives the upgrade when its version is newer.
    pub fn repo_upgrades(local: &Vec<RepoPkg>, dbs: &Vec<Vec<SyncRecord>>) -> (r: Vec<RepoPkg>)
        ensures
            pkg_views(r@) == upgrades_of(pkg_views(local@), db_views(dbs@)),
    {
        let ghost lv = pkg_views(local@);
        let ghost dv = db_views(dbs@);
        let mut out: Vec<RepoPkg> = Vec::new();
        let mut i: usize = 0;
        while i < local.len()
            invariant
                i <= local.len(),
                lv == pkg_views(local@),
                dv == db_views(dbs@),
                pkg_views(out@) == upgrades_of(lv.take(i as int), dv),
            decreases local.len() - i,
        {
            let l = &local[i];
            proof {
                assert(lv.take(i + 1).drop_last() =~= lv.take(i as int));
                assert(lv.take(i + 1).last() == pkg_view(*l));
            }
            match find_first(dbs, l.name.as_str()) {
                Some((a, b)) => {
                    let s = &dbs[a][b].details;
                    proof {
                        assert(dv[a as int] == record_views(dbs@[a as int]@));
                        assert(record_views(dbs@[a as int]@)[b as int] == record_view(dbs@[a as int]@[b as int]));
                    }
                    if version_newer_exec(s.version.as_str(), l.version.as_str()) {
                        let ghost o0 = pkg_views(out@);
                        out.push(RepoPkg { name: l.name.clone(), version: s.version.clone(), description: s.description.clone() });
                        assert(pkg_views(out@) =~= o0.push((l.name@, (s.version@, s.description@))));
                    }
                },
                None => {},
            }
            i = i + 1;
        }
        assert(lv.take(local.len() as int) =~= lv);
        out
    }
}

} // verus!

//! Flatpak applications: their refs, the summaries and details built from an
//! installed ref and the AppStream catalogue, the search over the catalogue,
//! and how updates are batched per installation.
use crate::appstream::{distinct_keys, entries_map, lemma_entries_map_at, meta_view, Catalogue, MetaView};
use crate::model::{AppstreamMeta, Error, PackageDetails, PackageId, PackageSummary, Source};
use crate::sorting::{sort_summaries, stable_sort, SortMode};
use crate::srcinfo::has_text;
use crate::text::{
    chars_of, contains, contains_chars, find_char_from, join2, join3, lowercase, str_eq, string_from_chars,
    sub_vec, to_lowercase, trim, trim_str, utf8_len, utf8_len_at_least_2, index_of,
};
use crate::aur::{has_name, views};
use vstd::prelude::*;

verus! {

/// The ref of an application: `app/<name>/<arch>/<branch>`, the branch
/// `stable` when none is given.
pub open spec fn app_ref(name: Seq<char>, branch: Seq<char>, arch: Seq<char>) -> Seq<char> {
    "app/"@ + name + "/"@ + arch + "/"@ + if branch.len() == 0 {
        "stable"@
    } else {
        branch
    }
}

/// Builds the ref of an application for the machine's architecture `arch`.
pub fn name_to_ref(name: &str, branch: &str, arch: &str) -> (r: String)
    ensures
        r@ == app_ref(name@, branch@, arch@),
{
    let br = if branch.is_empty() {
        "stable"
    } else {
        branch
    };
    let head = join3("app/", name, "/");
    join2(join3(head.as_str(), arch, "/").as_str(), br)
}

/// Where to install from: the package's `remote:branch` (or just `remote`),
/// or `flathub` with no branch.
pub open spec fn install_origin_of(repo: Option<Seq<char>>) -> (Seq<char>, Seq<char>) {
    match repo {
        Some(r) => {
            let k = index_of(r, ':');
            if k < r.len() {
                (r.take(k), r.skip(k + 1))
            } else {
                (r, seq![])
            }
        },
        None => ("flathub"@, seq![]),
    }
}

/// The remote and branch to install a package from.
pub fn install_origin(repo: &Option<String>) -> (r: (String, String))
    ensures
        (r.0@, r.1@) == install_origin_of(
            match repo {
                Some(s) => Some(s@),
                None => None,
            },
        ),
{
    match repo {
        Some(s) => {
            let c = chars_of(s.as_str());
            let k = find_char_from(&c, 0, ':');
            assert(c@.skip(0) =~= c@);
            if k < c.len() {
                let a = sub_vec(&c, 0, k);
                let b = sub_vec(&c, k + 1, c.len());
                assert(a@ =~= c@.take(k as int));
                assert(b@ =~= c@.skip(k + 1));
                (string_from_chars(&a), string_from_chars(&b))
            } else {
                (s.clone(), String::new())
            }
        },
        None => ("flathub".to_owned(), String::new()),
    }
}

/// The text of an optional string, empty when there is none.
pub open spec fn or_empty(o: Option<String>) -> Seq<char> {
    match o {
        Some(s) => s@,
        None => seq![],
    }
}

/// The catalogue's metadata of `name`, if it has some.
pub open spec fn meta_of(cat: Map<Seq<char>, MetaView>, name: Seq<char>) -> Option<MetaView> {
    if cat.contains_key(name) {
        Some(cat[name])
    } else {
        None
    }
}

/// `r` summarizes the installed ref named `name` from `origin`: the catalogue's
/// summary is its description, else the ref's application name.
pub open spec fn ref_summary(
    r: PackageSummary,
    name: Seq<char>,
    origin: Seq<char>,
    version: Seq<char>,
    appdata_name: Option<Seq<char>>,
    cat: Map<Seq<char>, MetaView>,
) -> bool {
    &&& r.id.name@ == name
    &&& r.id.source == Source::Flatpak
    &&& r.id.repo matches Some(o) && o@ == origin
    &&& r.version@ == version
    &&& r.description@ == match meta_of(cat, name) {
        Some(m) => m.summary,
        None => match appdata_name {
            Some(a) => a,
            None => seq![],
        },
    }
    &&& r.installed
    &&& r.popular is None
    &&& r.last_updated is None
}

impl Catalogue {
    /// The summary of an installed ref (its name, origin, version and
    /// application name as the ref reports them); `None` when the ref has no name.
    pub fn summary_from_ref(
        &self,
        name: Option<String>,
        origin: Option<String>,
        version: Option<String>,
        appdata_name: Option<String>,
    ) -> (r: Option<PackageSummary>)
        ensures
            match name {
                Some(n) => r matches Some(s) && ref_summary(
                    s,
                    n@,
                    or_empty(origin),
                    or_empty(version),
                    match appdata_name {
                        Some(a) => Some(a@),
                        None => None,
                    },
                    self.view(),
                ),
                None => r is None,
            },
    {
        let name = match name {
            Some(n) => n,
            None => return None,
        };
        let description = match self.get(name.as_str()) {
            Some(m) => m.summary.clone(),
            None => match appdata_name {
                Some(a) => a,
                None => String::new(),
            },
        };
        let origin = match origin {
            Some(o) => o,
            None => String::new(),
        };
        let version = match version {
            Some(v) => v,
            None => String::new(),
        };
        Some(PackageSummary {
            id: PackageId { name, source: Source::Flatpak, repo: Some(origin) },
            version,
            description,
            installed: true,
            popular: None,
            last_updated: None,
        })
    }
}

// ---------------------------------------------------------------------------
// Search
// ---------------------------------------------------------------------------

/// The search result for the catalogue entry `e`.
pub open spec fn search_hit(r: PackageSummary, e: (String, AppstreamMeta), installed: Seq<String>) -> bool {
    &&& r.id.name == e.0
    &&& r.id.source == Source::Flatpak
    &&& r.id.repo matches Some(x) && x@ == "flathub"@
    &&& r.version@ == or_empty(e.1.version)
    &&& r.description == e.1.summary
    &&& r.installed == has_text(installed, e.0@)
    &&& r.popular is None
    &&& r.last_updated is None
}

/// The entries whose lowercased id, name or summary contains `q`.
pub open spec fn catalogue_hits(e: Seq<(String, AppstreamMeta)>, q: Seq<char>) -> Seq<(String, AppstreamMeta)>
    decreases e.len(),
{
    if e.len() == 0 {
        seq![]
    } else {
        let rest = catalogue_hits(e.drop_last(), q);
        let x = e.last();
        if contains(lowercase(x.0@), q) || contains(lowercase(x.1.name@), q) || contains(lowercase(x.1.summary@), q) {
            rest.push(x)
        } else {
            rest
        }
    }
}

fn hit_summary(e: &(String, AppstreamMeta), installed: &Vec<String>) -> (r: PackageSummary)
    ensures
        search_hit(r, *e, installed@),
{
    PackageSummary {
        id: PackageId { name: e.0.clone(), source: Source::Flatpak, repo: Some("flathub".to_owned()) },
        version: match &e.1.version {
            Some(v) => v.clone(),
            None => String::new(),
        },
        description: e.1.summary.clone(),
        installed: has_name(installed, e.0.as_str()),
        popular: None,
        last_updated: None,
    }
}

/// An entry matches `q` when its lowercased id, name or summary contains it.
spec fn entry_match(x: (String, AppstreamMeta), q: Seq<char>) -> bool {
    contains(lowercase(x.0@), q) || contains(lowercase(x.1.name@), q) || contains(lowercase(x.1.summary@), q)
}

proof fn lemma_catalogue_hits_members(list: Seq<(String, AppstreamMeta)>, q: Seq<char>)
    ensures
        forall|j: int|
            0 <= j < list.len() && #[trigger] entry_match(list[j], q) ==> catalogue_hits(list, q).contains(list[j]),
        forall|x: (String, AppstreamMeta)|
            #[trigger] catalogue_hits(list, q).contains(x) ==> exists|j: int|
                0 <= j < list.len() && #[trigger] entry_match(list[j], q) && x == list[j],
    decreases list.len(),
{
    if list.len() > 0 {
        let init = list.drop_last();
        lemma_catalogue_hits_members(init, q);
        let rest = catalogue_hits(init, q);
        let h = catalogue_hits(list, q);
        let n = list.len() - 1;
        assert forall|j: int| 0 <= j < list.len() && #[trigger] entry_match(list[j], q) implies h.contains(
            list[j],
        ) by {
            if j < n {
                assert(init[j] == list[j]);
                assert(entry_match(init[j], q));
                assert(rest.contains(list[j]));
                let k = choose|k: int| 0 <= k < rest.len() && rest[k] == list[j];
                if entry_match(list.last(), q) {
                    assert(h[k] == list[j]);
                }
            } else {
                assert(h[h.len() - 1] == list[j]);
            }
        }
        assert forall|x: (String, AppstreamMeta)| #[trigger] h.contains(x) implies exists|j: int|
            0 <= j < list.len() && #[trigger] entry_match(list[j], q) && x == list[j] by {
            let k = choose|k: int| 0 <= k < h.len() && h[k] == x;
            if k < rest.len() {
                assert(rest[k] == x);
                assert(rest.contains(x));
                let j = choose|j: int| 0 <= j < init.len() && #[trigger] entry_match(init[j], q) && x == init[j];
                assert(init[j] == list[j]);
                assert(entry_match(list[j], q));
            } else {
                assert(entry_match(list[n], q));
            }
        }
    }
}

proof fn lemma_result_from_entry(
    list: Seq<(String, AppstreamMeta)>,
    q: Seq<char>,
    installed: Seq<String>,
    hits: Seq<PackageSummary>,
    k: int,
)
    requires
        hits.len() == catalogue_hits(list, q).len(),
        forall|i: int| 0 <= i < hits.len() ==> search_hit(#[trigger] hits[i], catalogue_hits(list, q)[i], installed),
        0 <= k < stable_sort(hits, SortMode::NameAsc).len(),
    ensures
        exists|j: int|
            0 <= j < list.len() && #[trigger] entry_match(list[j], q) && search_hit(
                stable_sort(hits, SortMode::NameAsc)[k],
                list[j],
                installed,
            ),
{
    broadcast use vstd::seq_lib::group_to_multiset_ensures;

    let ch = catalogue_hits(list, q);
    let r = stable_sort(hits, SortMode::NameAsc);
    lemma_catalogue_hits_members(list, q);
    crate::sorting::lemma_stable_sort_permutes(hits, SortMode::NameAsc);
    assert(r.contains(r[k]));
    assert(r.to_multiset().count(r[k]) > 0);
    assert(hits.contains(r[k]));
    let i = choose|i: int| 0 <= i < hits.len() && hits[i] == r[k];
    assert(search_hit(hits[i], ch[i], installed));
    assert(ch.contains(ch[i]));
    let j = choose|j: int| 0 <= j < list.len() && #[trigger] entry_match(list[j], q) && ch[i] == list[j];
    assert(search_hit(r[k], list[j], installed));
}

/// A catalogue search finds what it is asked for. Where `hits` are the
/// results for the entries `catalogue_hits` picks, one for each, the results
/// sorted by id hold a result for every entry whose lowercased id, name or
/// summary contains `q`, and each of them is the result for such an entry.
pub proof fn lemma_catalogue_search_finds(
    list: Seq<(String, AppstreamMeta)>,
    q: Seq<char>,
    installed: Seq<String>,
    hits: Seq<PackageSummary>,
)
    requires
        hits.len() == catalogue_hits(list, q).len(),
        forall|i: int| 0 <= i < hits.len() ==> search_hit(#[trigger] hits[i], catalogue_hits(list, q)[i], installed),
    ensures
        ({
            let r = stable_sort(hits, SortMode::NameAsc);
            &&& forall|j: int|
                #![trigger list[j]]
                0 <= j < list.len() && (contains(lowercase(list[j].0@), q) || contains(lowercase(list[j].1.name@), q)
                    || contains(lowercase(list[j].1.summary@), q)) ==> exists|k: int|
                    #![trigger r[k]]
                    0 <= k < r.len() && search_hit(r[k], list[j], installed)
            &&& forall|x: PackageSummary|
                #[trigger] r.contains(x) ==> exists|j: int|
                    #![trigger list[j]]
                    0 <= j < list.len() && (contains(lowercase(list[j].0@), q) || contains(
                        lowercase(list[j].1.name@),
                        q,
                    ) || contains(lowercase(list[j].1.summary@), q)) && search_hit(x, list[j], installed)
        }),
{
    broadcast use vstd::seq_lib::group_to_multiset_ensures;

    let ch = catalogue_hits(list, q);
    let r = stable_sort(hits, SortMode::NameAsc);
    lemma_catalogue_hits_members(list, q);
    crate::sorting::lemma_stable_sort_permutes(hits, SortMode::NameAsc);
    assert forall|j: int|
        #![trigger list[j]]
        0 <= j < list.len() && (contains(lowercase(list[j].0@), q) || contains(lowercase(list[j].1.name@), q)
            || contains(lowercase(list[j].1.summary@), q)) implies exists|k: int|
        #![trigger r[k]]
        0 <= k < r.len() && search_hit(r[k], list[j], installed) by {
        assert(entry_match(list[j], q));
        assert(ch.contains(list[j]));
        let i = choose|i: int| 0 <= i < ch.len() && ch[i] == list[j];
        assert(search_hit(hits[i], ch[i], installed));
        assert(hits.contains(hits[i]));
        assert(hits.to_multiset().count(hits[i]) > 0);
        assert(r.contains(hits[i]));
        let k = choose|k: int| 0 <= k < r.len() && r[k] == hits[i];
        assert(search_hit(r[k], list[j], installed));
    }
    assert forall|x: PackageSummary| #[trigger] r.contains(x) implies exists|j: int|
        #![trigger list[j]]
        0 <= j < list.len() && (contains(lowercase(list[j].0@), q) || contains(lowercase(list[j].1.name@), q)
            || contains(lowercase(list[j].1.summary@), q)) && search_hit(x, list[j], installed) by {
        let k = choose|k: int| 0 <= k < r.len() && r[k] == x;
        lemma_result_from_entry(list, q, installed, hits, k);
        let j = choose|j: int|
            0 <= j < list.len() && #[trigger] entry_match(list[j], q) && search_hit(r[k], list[j], installed);
        assert(entry_match(list[j], q));
    }
}

impl Catalogue {
    /// The applications whose id, name or summary contains the lowercased
    /// query, sorted by id; nothing for a query of fewer than two bytes.
    /// `installed` names the installed applications.
    pub fn search(&self, q: &str, installed: &Vec<String>) -> (r: Vec<PackageSummary>)
        ensures
            utf8_len(lowercase(q@)) < 2 ==> r@.len() == 0,
            utf8_len(lowercase(q@)) >= 2 ==> exists|hits: Seq<PackageSummary>|
                #![trigger stable_sort(hits, SortMode::NameAsc)]
                r@ == stable_sort(hits, SortMode::NameAsc) && hits.len() == catalogue_hits(
                    self.list(),
                    lowercase(q@),
                ).len() && forall|i: int|
                    0 <= i < hits.len() ==> search_hit(
                        #[trigger] hits[i],
                        catalogue_hits(self.list(), lowercase(q@))[i],
                        installed@,
                    ),
            utf8_len(lowercase(q@)) >= 2 ==> forall|j: int|
                #![trigger self.list()[j]]
                0 <= j < self.list().len() && (contains(lowercase(self.list()[j].0@), lowercase(q@)) || contains(
                    lowercase(self.list()[j].1.name@),
                    lowercase(q@),
                ) || contains(lowercase(self.list()[j].1.summary@), lowercase(q@))) ==> exists|k: int|
                    #![trigger r@[k]]
                    0 <= k < r@.len() && search_hit(r@[k], self.list()[j], installed@),
            utf8_len(lowercase(q@)) >= 2 ==> forall|x: PackageSummary|
                #[trigger] r@.contains(x) ==> exists|j: int|
                    #![trigger self.list()[j]]
                    0 <= j < self.list().len() && (contains(lowercase(self.list()[j].0@), lowercase(q@)) || contains(
                        lowercase(self.list()[j].1.name@),
                        lowercase(q@),
                    ) || contains(lowercase(self.list()[j].1.summary@), lowercase(q@))) && search_hit(
                        x,
                        self.list()[j],
                        installed@,
                    ),
    {
        let ql = to_lowercase(q);
        let qc = chars_of(ql.as_str());
        if !utf8_len_at_least_2(&qc) {
            return Vec::new();
        }
        let entries = self.entries();
        let mut hits: Vec<PackageSummary> = Vec::new();
        let ghost mut found: Seq<(String, AppstreamMeta)> = Seq::empty();
        let mut i: usize = 0;
        while i < entries.len()
            invariant
                i <= entries.len(),
                qc@ == lowercase(q@),
                entries@ == self.list(),
                found == catalogue_hits(entries@.take(i as int), qc@),
                hits@.len() == found.len(),
                forall|j: int| 0 <= j < hits@.len() ==> search_hit(#[trigger] hits@[j], found[j], installed@),
            decreases entries.len() - i,
        {
            proof {
                assert(entries@.take(i + 1).drop_last() =~= entries@.take(i as int));
                assert(entries@.take(i + 1).last() == entries@[i as int]);
            }
            let e = &entries[i];
            let hit = contains_chars(&chars_of(to_lowercase(e.0.as_str()).as_str()), &qc) || contains_chars(
                &chars_of(to_lowercase(e.1.name.as_str()).as_str()),
                &qc,
            ) || contains_chars(&chars_of(to_lowercase(e.1.summary.as_str()).as_str()), &qc);
            if hit {
                hits.push(hit_summary(e, installed));
                proof {
                    found = found.push(*e);
                }
            }
            i = i + 1;
        }
        assert(entries@.take(entries.len() as int) =~= entries@);
        let ghost h = hits@;
        let r = sort_summaries(hits, SortMode::NameAsc);
        assert(r@ == stable_sort(h, SortMode::NameAsc));
        proof {
            lemma_catalogue_search_finds(self.list(), qc@, installed@, h);
        }
        r
    }
}

// ---------------------------------------------------------------------------
// Details
// ---------------------------------------------------------------------------

/// What an installed ref of the application tells: its version and installed size.
pub struct InstalledRef {
    pub version: Option<String>,
    pub installed_size: u64,
}

impl Catalogue {
    /// The details of `id`, from its installed ref (when it is installed) and
    /// the catalogue: the ref's version, else the catalogue's; the installed
    /// size when it is known (not zero); the trimmed description when it is
    /// not blank.
    pub fn details(&self, id: &PackageId, installed_ref: Option<InstalledRef>) -> (d: PackageDetails)
        ensures
            ({
                let m = meta_of(self.view(), id.name@);
                let ref_version = match installed_ref {
                    Some(r) => or_empty(r.version),
                    None => seq![],
                };
                &&& d.summary.id == *id
                &&& d.summary.version@ == if ref_version.len() > 0 {
                    ref_version
                } else {
                    match m {
                        Some(x) => match x.version {
                            Some(v) => v,
                            None => seq![],
                        },
                        None => seq![],
                    }
                }
                &&& d.summary.description@ == match m {
                    Some(x) => x.summary,
                    None => seq![],
                }
                &&& d.summary.installed == installed_ref is Some
                &&& d.summary.popular is None
                &&& d.summary.last_updated is None
                &&& match m {
                    Some(x) => {
                        &&& (if trim(x.description).len() > 0 {
                            d.description matches Some(t) && t@ == trim(x.description)
                        } else {
                            d.description is None
                        })
                        &&& opt_views_eq(d.homepage, x.homepage)
                        &&& opt_views_eq(d.license, x.license)
                        &&& opt_views_eq(d.developer, x.developer)
                    },
                    None => d.description is None && d.homepage is None && d.license is None && d.developer is None,
                }
                &&& d.depends@.len() == 0
                &&& d.opt_depends@.len() == 0
                &&& d.maintainer is None
                &&& d.size_install == match installed_ref {
                    Some(r) => if r.installed_size > 0 {
                        Some(r.installed_size)
                    } else {
                        None
                    },
                    None => None,
                }
                &&& d.size_download is None
            }),
    {
        let meta = self.get(id.name.as_str());
        let installed = installed_ref.is_some();
        let (ref_version, size_install) = match installed_ref {
            Some(r) => (
                match r.version {
                    Some(v) => v,
                    None => String::new(),
                },
                if r.installed_size > 0 {
                    Some(r.installed_size)
                } else {
                    None
                },
            ),
            None => (String::new(), None),
        };
        let version = if !ref_version.as_str().is_empty() {
            ref_version
        } else {
            match meta {
                Some(m) => match &m.version {
                    Some(v) => v.clone(),
                    None => String::new(),
                },
                None => String::new(),
            }
        };
        let (description, summary_text, homepage, license, developer) = match meta {
            Some(m) => {
                let t = trim_str(m.description.as_str());
                (
                    if t.len() > 0 {
                        Some(string_from_chars(&t))
                    } else {
                        None
                    },
                    m.summary.clone(),
                    crate::model::clone_opt_string(&m.homepage),
                    crate::model::clone_opt_string(&m.license),
                    crate::model::clone_opt_string(&m.developer),
                )
            },
            None => (None, String::new(), None, None, None),
        };
        PackageDetails {
            summary: PackageSummary {
                id: id.clone(),
                version,
                description: summary_text,
                installed,
                popular: None,
                last_updated: None,
            },
            description,
            depends: Vec::new(),
            opt_depends: Vec::new(),
            homepage,
            license,
            maintainer: None,
            developer,
            size_install,
            size_download: None,
        }
    }
}

/// An optional string whose text is the optional text `v`.
pub open spec fn opt_views_eq(s: Option<String>, v: Option<Seq<char>>) -> bool {
    match s {
        Some(x) => v == Some(x@),
        None => v is None,
    }
}

/// The error for an application that is not installed.
pub fn not_installed(name: &str) -> (e: Error)
    ensures
        e matches Error::Flatpak(m) && m@ == name@ + " not installed"@,
{
    Error::Flatpak(join2(name, " not installed"))
}

/// The log line before a remote is updated.
pub fn remote_update_log(name: &str) -> (r: String)
    ensures
        r@ == "updating flatpak remote: "@ + name@,
{
    join2("updating flatpak remote: ", name)
}

/// The refs to update in the installation `user`, in order.
pub open spec fn refs_for(refs: Seq<(String, bool)>, user: bool) -> Seq<Seq<char>>
    decreases refs.len(),
{
    if refs.len() == 0 {
        seq![]
    } else {
        let rest = refs_for(refs.drop_last(), user);
        if refs.last().1 == user {
            rest.push(refs.last().0@)
        } else {
            rest
        }
    }
}

/// The installations, in the order of `modes`, that have refs to update.
pub open spec fn batch_modes(modes: Seq<bool>, refs: Seq<(String, bool)>) -> Seq<bool>
    decreases modes.len(),
{
    if modes.len() == 0 {
        seq![]
    } else {
        let rest = batch_modes(modes.drop_last(), refs);
        if refs_for(refs, modes.last()).len() > 0 {
            rest.push(modes.last())
        } else {
            rest
        }
    }
}

/// Groups the refs to update (`(ref, user installation?)`) into one batch per
/// installation, in the order of `user_modes`, leaving out empty batches.
pub fn update_batches(user_modes: &Vec<bool>, refs: &Vec<(String, bool)>) -> (r: Vec<(bool, Vec<String>)>)
    ensures
        r@.len() == batch_modes(user_modes@, refs@).len(),
        forall|i: int|
            0 <= i < r@.len() ==> (#[trigger] r@[i]).0 == batch_modes(user_modes@, refs@)[i] && views(r@[i].1@)
                == refs_for(refs@, r@[i].0),
{
    let mut out: Vec<(bool, Vec<String>)> = Vec::new();
    let mut u: usize = 0;
    while u < user_modes.len()
        invariant
            u <= user_modes.len(),
            out@.len() == batch_modes(user_modes@.take(u as int), refs@).len(),
            forall|i: int|
                0 <= i < out@.len() ==> (#[trigger] out@[i]).0 == batch_modes(user_modes@.take(u as int), refs@)[i]
                    && views(out@[i].1@) == refs_for(refs@, out@[i].0),
        decreases user_modes.len() - u,
    {
        proof {
            assert(user_modes@.take(u + 1).drop_last() =~= user_modes@.take(u as int));
            assert(user_modes@.take(u + 1).last() == user_modes@[u as int]);
        }
        let mode = user_modes[u];
        let mut batch: Vec<String> = Vec::new();
        let mut k: usize = 0;
        while k < refs.len()
            invariant
                k <= refs.len(),
                views(batch@) == refs_for(refs@.take(k as int), mode),
            decreases refs.len() - k,
        {
            proof {
                assert(refs@.take(k + 1).drop_last() =~= refs@.take(k as int));
                assert(refs@.take(k + 1).last() == refs@[k as int]);
            }
            if refs[k].1 == mode {
                let ghost b0 = batch@;
                batch.push(refs[k].0.clone());
                assert(views(batch@) =~= views(b0).push(refs@[k as int].0@));
            }
            k = k + 1;
        }
        assert(refs@.take(refs.len() as int) =~= refs@);
        if batch.len() > 0 {
            out.push((mode, batch));
        }
        u = u + 1;
    }
    assert(user_modes@.take(user_modes.len() as int) =~= user_modes@);
    out
}

} // verus!

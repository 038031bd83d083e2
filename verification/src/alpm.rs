//! Repository packages through libalpm and `pkexec pacman`: the pacman
//! command lines, how pacman's output lines are read, the repositories of
//! `pacman.conf`, and the search and detail listings.
use crate::helper::parsed_u32;
use crate::model::{Error, Operation, OperationKind, PackageDetails, PackageId, PackageSummary, Source, Stage};
use crate::pacman::RepoSearch;
use crate::srcinfo::has_text;
use crate::text::{
    chars_of, contains, contains_chars, decimal, eq_ignore_ascii_case, eq_ignore_ascii_case_chars, join2, join3,
    lines, lines_of, lowercase, starts_with, starts_with_chars, string_from_chars, sub_vec, to_lowercase, trim,
    trim_chars, trim_str, u64_text, utf8_len, utf8_len_at_least_2,
};
use crate::aur::{has_name, is_text, views};
use vstd::prelude::*;

verus! {

// ---------------------------------------------------------------------------
// pacman's progress lines
// ---------------------------------------------------------------------------

/// The three capture groups of the regular expression `pattern` in its first
/// match in `text`, when it matches and has them.
pub uninterp spec fn captures3(pattern: Seq<char>, text: Seq<char>) -> Option<(Seq<char>, Seq<char>, Seq<char>)>;

/// `regex::Regex::new` and `Regex::captures`: the texts of groups 1 to 3 of
/// the first match (`None` when the pattern is invalid, nothing matches, or a
/// group did not take part).
#[verifier::external_body]
fn regex_captures3(pattern: &str, text: &str) -> (r: Option<(String, String, String)>)
    ensures
        match r {
            Some((a, b, c)) => captures3(pattern@, text@) == Some((a@, b@, c@)),
            None => captures3(pattern@, text@) is None,
        },
{
    let c = regex::Regex::new(pattern).ok()?.captures(text)?;
    Some((c.get(1)?.as_str().to_owned(), c.get(2)?.as_str().to_owned(), c.get(3)?.as_str().to_owned()))
}

/// The pattern of pacman's counted progress lines, such as `(1/3) installing foo`.
pub open spec fn progress_pattern() -> Seq<char> {
    "^\\((\\d+)/(\\d+)\\)\\s+(.+)"@
}

/// The stage that the text of a progress line names (already lowercased).
pub open spec fn progress_stage(text: Seq<char>) -> Option<Stage> {
    if starts_with(text, "download"@) {
        Some(Stage::Downloading)
    } else if starts_with(text, "install"@) {
        Some(Stage::Installing)
    } else if starts_with(text, "remove"@) {
        Some(Stage::Removing)
    } else if starts_with(text, "check"@) || contains(text, "hook"@) {
        Some(Stage::Verifying)
    } else if starts_with(text, "load"@) {
        Some(Stage::Installing)
    } else {
        None
    }
}

/// The counts and stage of a progress line, from the captured count, total and text.
pub open spec fn progress_of(caps: Option<(Seq<char>, Seq<char>, Seq<char>)>) -> Option<(u32, u32, Stage)> {
    match caps {
        Some((a, b, t)) => match (parsed_u32(a), parsed_u32(b), progress_stage(lowercase(t))) {
            (Some(cur), Some(total), Some(st)) => Some((cur, total, st)),
            _ => None,
        },
        None => None,
    }
}

/// Reads the captures of a progress line: both counts must parse as `u32`
/// and the text must name a stage.
pub fn progress_from_captures(caps: Option<(String, String, String)>) -> (r: Option<(u32, u32, Stage)>)
    ensures
        r == progress_of(
            match caps {
                Some((a, b, c)) => Some((a@, b@, c@)),
                None => None,
            },
        ),
{
    match caps {
        Some((a, b, t)) => {
            let cur = crate::helper::parse_u32(a.as_str());
            let total = crate::helper::parse_u32(b.as_str());
            if cur.is_none() || total.is_none() {
                return None;
            }
            let text = chars_of(to_lowercase(t.as_str()).as_str());
            let stage = if starts_with_chars(&text, &chars_of("download")) {
                Some(Stage::Downloading)
            } else if starts_with_chars(&text, &chars_of("install")) {
                Some(Stage::Installing)
            } else if starts_with_chars(&text, &chars_of("remove")) {
                Some(Stage::Removing)
            } else if starts_with_chars(&text, &chars_of("check")) || contains_chars(&text, &chars_of("hook")) {
                Some(Stage::Verifying)
            } else if starts_with_chars(&text, &chars_of("load")) {
                Some(Stage::Installing)
            } else {
                None
            };
            match (cur, total, stage) {
                (Some(c), Some(n), Some(s)) => Some((c, n, s)),
                _ => None,
            }
        },
        None => None,
    }
}

/// Reads a counted progress line of pacman: `(current/total) text`.
pub fn parse_pacman_progress(line: &str) -> (r: Option<(u32, u32, Stage)>)
    ensures
        r == progress_of(captures3(progress_pattern(), line@)),
{
    let caps = regex_captures3("^\\((\\d+)/(\\d+)\\)\\s+(.+)", line);
    progress_from_captures(caps)
}

/// How one output line of a pacman run is reported: its stage, its counts
/// when it is a progress line, and whether it is a warning.
pub open spec fn stream_report(parsed: Option<(u32, u32, Stage)>, default_stage: Stage, from_stderr: bool) -> (
    Stage,
    Option<(u32, u32)>,
    bool,
) {
    match parsed {
        Some((c, n, st)) => (st, Some((c, n)), false),
        None => (default_stage, None, from_stderr),
    }
}

/// Reports an output line of a pacman run: progress lines in their own stage,
/// other lines in the default stage, as warnings when they came on standard error.
pub fn stream_line(line: &str, default_stage: Stage, from_stderr: bool) -> (r: (Stage, Option<(u32, u32)>, bool))
    ensures
        r == stream_report(progress_of(captures3(progress_pattern(), line@)), default_stage, from_stderr),
{
    match parse_pacman_progress(line) {
        Some((c, n, st)) => (st, Some((c, n)), false),
        None => (default_stage, None, from_stderr),
    }
}

// ---------------------------------------------------------------------------
// Command lines
// ---------------------------------------------------------------------------

/// The target pacman is given for a package: `repo/name`, or just the name.
pub open spec fn target_of(id: PackageId) -> Seq<char> {
    match id.repo {
        Some(r) => r@ + "/"@ + id.name@,
        None => id.name@,
    }
}

pub fn qualified_target(id: &PackageId) -> (r: String)
    ensures
        r@ == target_of(*id),
{
    match &id.repo {
        Some(r) => join3(r.as_str(), "/", id.name.as_str()),
        None => id.name.clone(),
    }
}

/// A list of texts.
fn text_list(items: &Vec<&str>) -> (r: Vec<String>)
    ensures
        r@.len() == items@.len(),
        forall|i: int| 0 <= i < r@.len() ==> #[trigger] r@[i]@ == items@[i]@,
{
    let mut out: Vec<String> = Vec::new();
    let mut i: usize = 0;
    while i < items.len()
        invariant
            i <= items.len(),
            out@.len() == i,
            forall|j: int| 0 <= j < i ==> #[trigger] out@[j]@ == items@[j]@,
        decreases items.len() - i,
    {
        out.push(items[i].to_owned());
        i = i + 1;
    }
    out
}

/// The given options followed by the given targets.
fn command_line(options: Vec<&str>, ids: &Vec<PackageId>, qualified: bool) -> (r: Vec<String>)
    ensures
        views(r@) == options@.map_values(|s: &str| s@) + if qualified {
            targets(ids@)
        } else {
            names(ids@)
        },
{
    let mut args = text_list(&options);
    let mut t = targets_of(ids, qualified);
    let ghost a0 = args@;
    let ghost t0 = t@;
    args.append(&mut t);
    proof {
        assert(views(a0) =~= options@.map_values(|s: &str| s@));
        assert(views(args@) =~= views(a0) + views(t0));
    }
    args
}

/// What an operation asks of pacman: a command line and the stage it runs in,
/// or a refresh.
pub enum AlpmPlan {
    Pacman { args: Vec<String>, stage: Stage },
    Refresh,
}

pub open spec fn targets(ids: Seq<PackageId>) -> Seq<Seq<char>> {
    ids.map_values(|id: PackageId| target_of(id))
}

pub open spec fn names(ids: Seq<PackageId>) -> Seq<Seq<char>> {
    ids.map_values(|id: PackageId| id.name@)
}

fn targets_of(ids: &Vec<PackageId>, qualified: bool) -> (r: Vec<String>)
    ensures
        views(r@) == if qualified {
            targets(ids@)
        } else {
            names(ids@)
        },
{
    let mut out: Vec<String> = Vec::new();
    let mut i: usize = 0;
    while i < ids.len()
        invariant
            i <= ids.len(),
            views(out@) == if qualified {
                targets(ids@.take(i as int))
            } else {
                names(ids@.take(i as int))
            },
        decreases ids.len() - i,
    {
        if qualified {
            out.push(qualified_target(&ids[i]));
        } else {
            out.push(ids[i].name.clone());
        }
        assert(targets(ids@.take(i + 1)) =~= targets(ids@.take(i as int)).push(target_of(ids@[i as int])));
        assert(names(ids@.take(i + 1)) =~= names(ids@.take(i as int)).push(ids@[i as int].name@));
        assert(views(out@) =~= if qualified {
            targets(ids@.take(i + 1))
        } else {
            names(ids@.take(i + 1))
        });
        i = i + 1;
    }
    assert(ids@.take(ids@.len() as int) =~= ids@);
    out
}

/// The pacman command line of an operation on several packages: install and
/// update name `repo/name` targets, removal the plain names; an operation
/// without packages is an error.
pub fn operation_plan(op: &Operation) -> (r: Result<AlpmPlan, Error>)
    ensures
        match op.kind {
            OperationKind::Refresh => r matches Ok(AlpmPlan::Refresh),
            _ => if op.package_ids@.len() == 0 {
                r matches Err(Error::Internal(m)) && m@ == "no packages"@
            } else {
                r matches Ok(AlpmPlan::Pacman { args, stage }) && match op.kind {
                    OperationKind::Install => views(args@) == seq!["-S"@, "--noconfirm"@, "--needed"@] + targets(
                        op.package_ids@,
                    ) && stage == Stage::Installing,
                    OperationKind::Remove { .. } => views(args@) == seq!["-Rns"@, "--noconfirm"@] + names(
                        op.package_ids@,
                    ) && stage == Stage::Removing,
                    _ => views(args@) == seq!["-S"@, "--noconfirm"@] + targets(op.package_ids@) && stage
                        == Stage::Installing,
                }
            },
        },
{
    match op.kind {
        OperationKind::Refresh => return Ok(AlpmPlan::Refresh),
        _ => {},
    }
    if op.package_ids.len() == 0 {
        return Err(Error::Internal("no packages".to_owned()));
    }
    match op.kind {
        OperationKind::Install => {
            let args = command_line(vec!["-S", "--noconfirm", "--needed"], &op.package_ids, true);
            Ok(AlpmPlan::Pacman { args, stage: Stage::Installing })
        },
        OperationKind::Remove { .. } => {
            let args = command_line(vec!["-Rns", "--noconfirm"], &op.package_ids, false);
            Ok(AlpmPlan::Pacman { args, stage: Stage::Removing })
        },
        _ => {
            let args = command_line(vec!["-S", "--noconfirm"], &op.package_ids, true);
            Ok(AlpmPlan::Pacman { args, stage: Stage::Installing })
        },
    }
}

/// The pacman command line that installs one package, as its `repo/name` target.
pub fn install_args(id: &PackageId) -> (r: Vec<String>)
    ensures
        views(r@) == seq!["-S"@, "--noconfirm"@, "--needed"@, target_of(*id)],
{
    let mut v = text_list(&vec!["-S", "--noconfirm", "--needed"]);
    v.push(qualified_target(id));
    assert(views(v@) =~= seq!["-S"@, "--noconfirm"@, "--needed"@, target_of(*id)]);
    v
}

/// The pacman command line that upgrades one package.
pub fn upgrade_args(id: &PackageId) -> (r: Vec<String>)
    ensures
        views(r@) == seq!["-S"@, "--noconfirm"@, target_of(*id)],
{
    let mut v = text_list(&vec!["-S", "--noconfirm"]);
    v.push(qualified_target(id));
    assert(views(v@) =~= seq!["-S"@, "--noconfirm"@, target_of(*id)]);
    v
}

/// The pacman command line that removes one package with its unneeded dependencies.
pub fn remove_args(id: &PackageId) -> (r: Vec<String>)
    ensures
        views(r@) == seq!["-Rns"@, "--noconfirm"@, id.name@],
{
    let mut v = text_list(&vec!["-Rns", "--noconfirm"]);
    v.push(id.name.clone());
    assert(views(v@) =~= seq!["-Rns"@, "--noconfirm"@, id.name@]);
    v
}

/// The pacman command line that installs a package file.
pub fn install_file_args(path: &str) -> (r: Vec<String>)
    ensures
        views(r@) == seq!["-U"@, "--noconfirm"@, path@],
{
    let mut v = text_list(&vec!["-U", "--noconfirm"]);
    v.push(path.to_owned());
    assert(views(v@) =~= seq!["-U"@, "--noconfirm"@, path@]);
    v
}

// ---------------------------------------------------------------------------
// pacman.conf
// ---------------------------------------------------------------------------

/// The section names of a `pacman.conf` text, `[options]` left out (in any case).
pub open spec fn section_names(ls: Seq<Seq<char>>) -> Seq<Seq<char>>
    decreases ls.len(),
{
    if ls.len() == 0 {
        seq![]
    } else {
        let rest = section_names(ls.drop_last());
        let t = trim(ls.last());
        if t.len() >= 2 && t[0] == '[' && t.last() == ']' && !eq_ignore_ascii_case(
            t.subrange(1, t.len() - 1),
            "options"@,
        ) {
            rest.push(t.subrange(1, t.len() - 1))
        } else {
            rest
        }
    }
}

/// The repositories to register: the sections of `pacman.conf` (its text,
/// `None` when it could not be read), or `core` and `extra` when there are none.
pub open spec fn conf_repo_names(content: Option<Seq<char>>) -> Seq<Seq<char>> {
    let found = match content {
        Some(c) => section_names(lines(c)),
        None => seq![],
    };
    if found.len() == 0 {
        seq!["core"@, "extra"@]
    } else {
        found
    }
}

pub fn pacman_conf_repos(content: Option<&str>) -> (r: Vec<String>)
    ensures
        views(r@) == conf_repo_names(
            match content {
                Some(c) => Some(c@),
                None => None,
            },
        ),
{
    let mut repos: Vec<String> = Vec::new();
    match content {
        Some(c) => {
            let ls = lines_of(&chars_of(c));
            let ghost gl = lines(c@);
            let opts = chars_of("options");
            let mut i: usize = 0;
            while i < ls.len()
                invariant
                    i <= ls.len(),
                    opts@ == "options"@,
                    ls@.len() == gl.len(),
                    forall|j: int| 0 <= j < ls@.len() ==> #[trigger] ls@[j]@ == gl[j],
                    views(repos@) == section_names(gl.take(i as int)),
                decreases ls.len() - i,
            {
                proof {
                    assert(gl.take(i + 1).drop_last() =~= gl.take(i as int));
                    assert(gl.take(i + 1).last() == gl[i as int]);
                }
                let t = trim_chars(&ls[i]);
                if t.len() >= 2 && t[0] == '[' && t[t.len() - 1] == ']' {
                    let inner = sub_vec(&t, 1, t.len() - 1);
                    if !eq_ignore_ascii_case_chars(&inner, &opts) {
                        let ghost r0 = repos@;
                        repos.push(string_from_chars(&inner));
                        assert(views(repos@) =~= views(r0).push(inner@));
                    }
                }
                i = i + 1;
            }
            proof {
                assert(gl.take(gl.len() as int) =~= gl);
            }
        },
        None => {},
    }
    if repos.len() == 0 {
        let v = text_list(&vec!["core", "extra"]);
        assert(views(v@) =~= seq!["core"@, "extra"@]);
        v
    } else {
        repos
    }
}

// ---------------------------------------------------------------------------
// Search and details
// ---------------------------------------------------------------------------

/// One package of a sync database, with the database's name.
#[derive(Clone, Debug)]
pub struct SyncPkg {
    pub repo: String,
    pub name: String,
    pub version: String,
    pub description: Option<String>,
}

/// What a search for `q` does: the trimmed, lowercased text is searched when
/// it has at least two bytes.
pub fn search_start(q: &str) -> (r: RepoSearch)
    ensures
        ({
            let t = lowercase(trim(q@));
            if utf8_len(t) < 2 {
                r matches RepoSearch::Skip { warning } && warning@ == "repo: query too short (<2), ignoring"@
            } else {
                r matches RepoSearch::Run { log, query } && log@ == "repo search: "@ + t && query@ == t
            }
        }),
{
    let t = to_lowercase(string_from_chars(&trim_str(q)).as_str());
    if !utf8_len_at_least_2(&chars_of(t.as_str())) {
        return RepoSearch::Skip { warning: "repo: query too short (<2), ignoring".to_owned() };
    }
    RepoSearch::Run { log: join2("repo search: ", t.as_str()), query: t }
}

pub open spec fn desc_text(d: Option<String>) -> Seq<char> {
    match d {
        Some(s) => s@,
        None => seq![],
    }
}

/// `r` is the summary of the sync package `p`.
pub open spec fn sync_summary(r: PackageSummary, p: SyncPkg, installed: bool) -> bool {
    &&& r.id.name@ == p.name@
    &&& r.id.source == Source::Repo
    &&& r.id.repo matches Some(x) && x@ == p.repo@
    &&& r.version@ == p.version@
    &&& r.description@ == desc_text(p.description)
    &&& r.installed == installed
    &&& r.popular is None
    &&& r.last_updated is None
}

/// The sync packages whose lowercased name or description contains `q`, in database order.
pub open spec fn sync_hits(pkgs: Seq<SyncPkg>, q: Seq<char>) -> Seq<SyncPkg>
    decreases pkgs.len(),
{
    if pkgs.len() == 0 {
        seq![]
    } else {
        let rest = sync_hits(pkgs.drop_last(), q);
        let p = pkgs.last();
        if contains(lowercase(p.name@), q) || contains(lowercase(desc_text(p.description)), q) {
            rest.push(p)
        } else {
            rest
        }
    }
}

fn summary_of_sync(p: &SyncPkg, installed: bool) -> (r: PackageSummary)
    ensures
        sync_summary(r, *p, installed),
{
    PackageSummary {
        id: PackageId { name: p.name.clone(), source: Source::Repo, repo: Some(p.repo.clone()) },
        version: p.version.clone(),
        description: match &p.description {
            Some(d) => d.clone(),
            None => String::new(),
        },
        installed,
        popular: None,
        last_updated: None,
    }
}

/// The matches of a search for the lowercased text `q` among the sync
/// packages, in database order, and the log line that counts them.
pub fn search_results(q: &str, pkgs: &Vec<SyncPkg>, installed: &Vec<String>) -> (r: (Vec<PackageSummary>, String))
    ensures
        r.0@.len() == sync_hits(pkgs@, q@).len(),
        forall|i: int|
            0 <= i < r.0@.len() ==> sync_summary(
                #[trigger] r.0@[i],
                sync_hits(pkgs@, q@)[i],
                has_text(installed@, sync_hits(pkgs@, q@)[i].name@),
            ),
        r.1@ == "repo: "@ + decimal(r.0@.len()) + " matches"@,
{
    let qc = chars_of(q);
    let mut out: Vec<PackageSummary> = Vec::new();
    let ghost mut hits: Seq<SyncPkg> = Seq::empty();
    let mut i: usize = 0;
    while i < pkgs.len()
        invariant
            i <= pkgs.len(),
            qc@ == q@,
            hits == sync_hits(pkgs@.take(i as int), q@),
            out@.len() == hits.len(),
            forall|j: int| 0 <= j < out@.len() ==> sync_summary(#[trigger] out@[j], hits[j], has_text(installed@, hits[j].name@)),
        decreases pkgs.len() - i,
    {
        proof {
            assert(pkgs@.take(i + 1).drop_last() =~= pkgs@.take(i as int));
            assert(pkgs@.take(i + 1).last() == pkgs@[i as int]);
        }
        let p = &pkgs[i];
        let d = match &p.description {
            Some(d) => d.clone(),
            None => String::new(),
        };
        if contains_chars(&chars_of(to_lowercase(p.name.as_str()).as_str()), &qc) || contains_chars(
            &chars_of(to_lowercase(d.as_str()).as_str()),
            &qc,
        ) {
            let inst = has_name(installed, p.name.as_str());
            out.push(summary_of_sync(p, inst));
            proof {
                hits = hits.push(*p);
            }
        }
        i = i + 1;
    }
    assert(pkgs@.take(pkgs.len() as int) =~= pkgs@);
    let log = join3("repo: ", u64_text(out.len() as u64).as_str(), " matches");
    (out, log)
}

/// The candidate kept after looking at the first `n` candidates of an
/// installed package (-1 before any): a later one replaces it when its
/// version is newer (`newer[a][b]`: `vercmp` orders the version of `a`
/// before the version of `b`).
pub open spec fn newest_of(newer: Seq<Seq<bool>>, n: int) -> int
    decreases n,
{
    if n <= 0 {
        -1
    } else {
        let b = newest_of(newer, n - 1);
        if b < 0 || newer[b][n - 1] {
            n - 1
        } else {
            b
        }
    }
}

proof fn lemma_newest_in_range(newer: Seq<Seq<bool>>, n: int)
    requires
        n >= 0,
    ensures
        -1 <= newest_of(newer, n) < n,
        n > 0 ==> newest_of(newer, n) >= 0,
    decreases n,
{
    if n > 0 {
        lemma_newest_in_range(newer, n - 1);
    }
}

/// The update of one installed package from the sync databases: among the
/// packages of that name (`candidates`, in database order) the newest, kept
/// when the installed version is older than it (`local_older[i]`: `vercmp`
/// orders the installed version before the version of `candidates[i]`).
pub fn repo_update(candidates: &Vec<SyncPkg>, newer: &Vec<Vec<bool>>, local_older: &Vec<bool>) -> (r: Option<
    PackageSummary,
>)
    requires
        newer@.len() == candidates@.len(),
        local_older@.len() == candidates@.len(),
        forall|i: int| 0 <= i < newer@.len() ==> #[trigger] newer@[i]@.len() == candidates@.len(),
    ensures
        ({
            let b = newest_of(newer@.map_values(|v: Vec<bool>| v@), candidates@.len() as int);
            if candidates@.len() > 0 && local_older@[b] {
                r matches Some(s) && sync_summary(s, candidates@[b], true)
            } else {
                r is None
            }
        }),
{
    let ghost nv = newer@.map_values(|v: Vec<bool>| v@);
    let mut best: Option<usize> = None;
    let mut j: usize = 0;
    while j < candidates.len()
        invariant
            j <= candidates.len(),
            newer@.len() == candidates@.len(),
            forall|i: int| 0 <= i < newer@.len() ==> #[trigger] newer@[i]@.len() == candidates@.len(),
            nv == newer@.map_values(|v: Vec<bool>| v@),
            match best {
                Some(b) => b == newest_of(nv, j as int) && b < j,
                None => newest_of(nv, j as int) == -1,
            },
        decreases candidates.len() - j,
    {
        proof {
            lemma_newest_in_range(nv, j as int);
        }
        let replace = match best {
            None => true,
            Some(b) => newer[b][j],
        };
        if replace {
            best = Some(j);
        }
        j = j + 1;
    }
    proof {
        lemma_newest_in_range(nv, candidates@.len() as int);
    }
    match best {
        Some(b) => if local_older[b] {
            Some(summary_of_sync(&candidates[b], true))
        } else {
            None
        },
        None => None,
    }
}

/// What libalpm knows of a package, as the details show it.
pub struct SyncDetails {
    pub package: SyncPkg,
    pub depends: Vec<String>,
    pub opt_depends: Vec<String>,
    pub url: Option<String>,
    pub licenses: Vec<String>,
    pub packager: Option<String>,
    pub installed_size: u64,
    pub download_size: u64,
}

/// The texts that are not empty, in order.
pub open spec fn non_empty(v: Seq<String>) -> Seq<Seq<char>>
    decreases v.len(),
{
    if v.len() == 0 {
        seq![]
    } else {
        let rest = non_empty(v.drop_last());
        if v.last()@.len() > 0 {
            rest.push(v.last()@)
        } else {
            rest
        }
    }
}

fn non_empty_of(v: &Vec<String>) -> (r: Vec<String>)
    ensures
        views(r@) == non_empty(v@),
{
    let mut out: Vec<String> = Vec::new();
    let mut i: usize = 0;
    while i < v.len()
        invariant
            i <= v.len(),
            views(out@) == non_empty(v@.take(i as int)),
        decreases v.len() - i,
    {
        proof {
            assert(v@.take(i + 1).drop_last() =~= v@.take(i as int));
        }
        if !v[i].as_str().is_empty() {
            let ghost o0 = out@;
            out.push(v[i].clone());
            assert(views(out@) =~= views(o0).push(v@[i as int]@));
        }
        i = i + 1;
    }
    assert(v@.take(v.len() as int) =~= v@);
    out
}

/// The details of the package found in the first sync database that has it,
/// or, when none has, the error and the warning to log.
pub fn details_result(name: &str, found: Option<SyncDetails>, installed: &Vec<String>) -> (r: (
    Result<PackageDetails, Error>,
    Option<String>,
))
    ensures
        match found {
            Some(f) => r.1 is None && (r.0 matches Ok(d) && {
                &&& sync_summary(d.summary, f.package, has_text(installed@, f.package.name@))
                &&& match f.package.description {
                    Some(t) => if t@.len() > 0 {
                        d.description matches Some(x) && x@ == t@
                    } else {
                        d.description is None
                    },
                    None => d.description is None,
                }
                &&& views(d.depends@) == non_empty(f.depends@)
                &&& views(d.opt_depends@) == non_empty(f.opt_depends@)
                &&& d.homepage == f.url
                &&& if f.licenses@.len() > 0 {
                    d.license == Some(f.licenses@[0])
                } else {
                    d.license is None
                }
                &&& d.maintainer == f.packager
                &&& d.developer is None
                &&& d.size_install == Some(f.installed_size)
                &&& d.size_download == Some(f.download_size)
            }),
            None => r.0 matches Err(Error::Alpm(m)) && m@ == "not found"@ && is_text(
                r.1,
                "repo: package not found: "@ + name@,
            ),
        },
{
    match found {
        Some(f) => {
            let inst = has_name(installed, f.package.name.as_str());
            let summary = summary_of_sync(&f.package, inst);
            let description = match &f.package.description {
                Some(t) => if t.as_str().is_empty() {
                    None
                } else {
                    Some(t.clone())
                },
                None => None,
            };
            let license = if f.licenses.len() > 0 {
                Some(f.licenses[0].clone())
            } else {
                None
            };
            (
                Ok(PackageDetails {
                    summary,
                    description,
                    depends: non_empty_of(&f.depends),
                    opt_depends: non_empty_of(&f.opt_depends),
                    homepage: f.url,
                    license,
                    maintainer: f.packager,
                    developer: None,
                    size_install: Some(f.installed_size),
                    size_download: Some(f.download_size),
                }),
                None,
            )
        },
        None => (Err(Error::Alpm("not found".to_owned())), Some(join2("repo: package not found: ", name))),
    }
}

} // verus!

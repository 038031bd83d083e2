//! Repository packages through the pacman command line and the privileged
//! helper: reading the helper's JSON lines, the fallbacks and their messages,
//! and the search, upgrade and cache listings built from the package databases.
use crate::model::{error_text, opt_view, Error, PackageDetails, PackageId, PackageSummary, Source, Stage};
use crate::sorting::{sort_summaries, stable_sort, SortMode};
use crate::srcinfo::has_text;
use crate::text::{
    chars_of, contains, contains_chars, decimal, ends_with, ends_with_chars, i64_text, join2, join3, lowercase,
    signed_decimal, starts_with, starts_with_chars, str_eq, string_from_chars, sub_vec, to_lowercase, trim,
    trim_str, u64_text, utf8_len, utf8_len_at_least_2,
};
use crate::aur::{has_name, is_text};
use vstd::prelude::*;

verus! {

// ---------------------------------------------------------------------------
// The helper's JSON lines
// ---------------------------------------------------------------------------

/// The string at `key` of the JSON object in `text` (`None` when the text is
/// not JSON, or the key is missing or not a string).
pub uninterp spec fn json_str_at(text: Seq<char>, key: Seq<char>) -> Option<Seq<char>>;

/// The boolean at `key` of the JSON object in `text`.
pub uninterp spec fn json_bool_at(text: Seq<char>, key: Seq<char>) -> Option<bool>;

/// The integer at `key` of the JSON object in `text`, when it fits an `i64`.
pub uninterp spec fn json_i64_at(text: Seq<char>, key: Seq<char>) -> Option<i64>;

/// The array at `key` of the JSON object in `text`, each element as a `u64` when it is one.
pub uninterp spec fn json_u64s_at(text: Seq<char>, key: Seq<char>) -> Option<Seq<Option<u64>>>;

/// `serde_json::from_str::<Value>`, then `Value::get` and `Value::as_str`.
#[verifier::external_body]
fn json_str(text: &str, key: &str) -> (r: Option<String>)
    ensures
        opt_view(r) == json_str_at(text@, key@),
{
    serde_json::from_str::<serde_json::Value>(text).ok()?.get(key)?.as_str().map(|s| s.to_owned())
}

/// `serde_json::from_str::<Value>`, then `Value::get` and `Value::as_bool`.
#[verifier::external_body]
fn json_bool(text: &str, key: &str) -> (r: Option<bool>)
    ensures
        r == json_bool_at(text@, key@),
{
    serde_json::from_str::<serde_json::Value>(text).ok()?.get(key)?.as_bool()
}

/// `serde_json::from_str::<Value>`, then `Value::get` and `Value::as_i64`.
#[verifier::external_body]
fn json_i64(text: &str, key: &str) -> (r: Option<i64>)
    ensures
        r == json_i64_at(text@, key@),
{
    serde_json::from_str::<serde_json::Value>(text).ok()?.get(key)?.as_i64()
}

/// `serde_json::from_str::<Value>`, then `Value::get`, `Value::as_array` and
/// `Value::as_u64` on each element.
#[verifier::external_body]
fn json_u64s(text: &str, key: &str) -> (r: Option<Vec<Option<u64>>>)
    ensures
        match r {
            Some(v) => json_u64s_at(text@, key@) == Some(v@),
            None => json_u64s_at(text@, key@) is None,
        },
{
    Some(serde_json::from_str::<serde_json::Value>(text).ok()?.get(key)?.as_array()?.iter().map(|x| x.as_u64()).collect())
}

/// The stage that a stage name of the helper stands for; anything else is installing.
pub open spec fn stage_named(s: Option<Seq<char>>) -> Stage {
    match s {
        Some(t) => if t == "refreshing"@ {
            Stage::Refreshing
        } else if t == "downloading"@ {
            Stage::Downloading
        } else if t == "installing"@ {
            Stage::Installing
        } else if t == "removing"@ {
            Stage::Removing
        } else if t == "resolving"@ {
            Stage::Resolving
        } else if t == "verifying"@ {
            Stage::Verifying
        } else if t == "cleaning"@ {
            Stage::Cleaning
        } else if t == "keyring"@ {
            Stage::Verifying
        } else {
            Stage::Installing
        },
        None => Stage::Installing,
    }
}

/// The stage of a stage name sent by the helper.
pub fn parse_json_stage(s: Option<&str>) -> (r: Stage)
    ensures
        r == stage_named(
            match s {
                Some(t) => Some(t@),
                None => None,
            },
        ),
{
    match s {
        Some(t) => {
            if str_eq(t, "refreshing") {
                Stage::Refreshing
            } else if str_eq(t, "downloading") {
                Stage::Downloading
            } else if str_eq(t, "installing") {
                Stage::Installing
            } else if str_eq(t, "removing") {
                Stage::Removing
            } else if str_eq(t, "resolving") {
                Stage::Resolving
            } else if str_eq(t, "verifying") {
                Stage::Verifying
            } else if str_eq(t, "cleaning") {
                Stage::Cleaning
            } else if str_eq(t, "keyring") {
                Stage::Verifying
            } else {
                Stage::Installing
            }
        },
        None => Stage::Installing,
    }
}

/// What one line on the helper's standard output means.
pub enum HelperLine {
    /// An empty line.
    Skip,
    /// A progress message (its fraction, a float, is read separately).
    Progress { stage: Stage, log: Option<String>, warning: bool, bytes: Option<(u64, u64)> },
    /// The helper's final result.
    Finished(Result<(), Error>),
    /// Any other line: logged as a warning in the current stage.
    Log(String),
}

/// The byte counts of a progress message: an array of exactly two elements,
/// each `0` when it is not a `u64`.
pub open spec fn byte_counts(a: Option<Seq<Option<u64>>>) -> Option<(u64, u64)> {
    match a {
        Some(v) => if v.len() == 2 {
            Some(
                (
                    match v[0] {
                        Some(x) => x,
                        None => 0,
                    },
                    match v[1] {
                        Some(x) => x,
                        None => 0,
                    },
                ),
            )
        } else {
            None
        },
        None => None,
    }
}

/// What a line of the helper means, while the operation is in `stage`.
pub open spec fn helper_line_meaning(line: Seq<char>, stage: Stage, r: HelperLine) -> bool {
    if line.len() == 0 {
        r is Skip
    } else if json_str_at(line, "type"@) == Some("progress"@) {
        &&& r matches HelperLine::Progress { stage: st, log, warning, bytes }
        &&& st == stage_named(json_str_at(line, "stage"@))
        &&& opt_view(log) == json_str_at(line, "log"@)
        &&& warning == match json_bool_at(line, "warning"@) {
            Some(b) => b,
            None => false,
        }
        &&& bytes == byte_counts(json_u64s_at(line, "bytes"@))
    } else if json_str_at(line, "type"@) == Some("result"@) {
        let code = match json_i64_at(line, "code"@) {
            Some(c) => c,
            None => 1,
        };
        &&& r matches HelperLine::Finished(res)
        &&& if code == 0 {
            res is Ok
        } else {
            res matches Err(Error::Priv(m)) && m@ == match json_str_at(line, "message"@) {
                Some(t) => t,
                None => "helper failed"@,
            }
        }
    } else {
        r matches HelperLine::Log(l) && l@ == line
    }
}

/// What the reader of the helper's output does with one line: an empty line
/// is passed over; a job cancelled meanwhile stops the helper; any other line
/// is read.
pub enum HelperRead {
    Skip,
    Cancelled,
    Line(HelperLine),
}

/// One step of reading the helper's output: the line, and whether the job
/// was cancelled when it arrived.
pub fn helper_read(line: &str, cancelled: bool, stage: Stage) -> (r: HelperRead)
    ensures
        if line@.len() == 0 {
            r is Skip
        } else if cancelled {
            r is Cancelled
        } else {
            r matches HelperRead::Line(h) && helper_line_meaning(line@, stage, h)
        },
{
    if line.is_empty() {
        HelperRead::Skip
    } else if cancelled {
        HelperRead::Cancelled
    } else {
        HelperRead::Line(helper_line(line, stage))
    }
}

/// Reads one line of the helper's standard output.
pub fn helper_line(line: &str, stage: Stage) -> (r: HelperLine)
    ensures
        helper_line_meaning(line@, stage, r),
{
    if line.is_empty() {
        return HelperLine::Skip;
    }
    let kind = json_str(line, "type");
    let is_progress = match &kind {
        Some(k) => str_eq(k.as_str(), "progress"),
        None => false,
    };
    let is_result = match &kind {
        Some(k) => str_eq(k.as_str(), "result"),
        None => false,
    };
    if is_progress {
        let st = json_str(line, "stage");
        let stage2 = match &st {
            Some(t) => parse_json_stage(Some(t.as_str())),
            None => parse_json_stage(None),
        };
        let log = json_str(line, "log");
        let warning = match json_bool(line, "warning") {
            Some(b) => b,
            None => false,
        };
        let bytes = match json_u64s(line, "bytes") {
            Some(v) => {
                if v.len() == 2 {
                    let a: u64 = match v[0] {
                        Some(x) => x,
                        None => 0,
                    };
                    let b: u64 = match v[1] {
                        Some(x) => x,
                        None => 0,
                    };
                    Some((a, b))
                } else {
                    None
                }
            },
            None => None,
        };
        HelperLine::Progress { stage: stage2, log, warning, bytes }
    } else if is_result {
        let code: i64 = match json_i64(line, "code") {
            Some(c) => c,
            None => 1,
        };
        if code == 0 {
            HelperLine::Finished(Ok(()))
        } else {
            let msg = match json_str(line, "message") {
                Some(m) => m,
                None => "helper failed".to_owned(),
            };
            HelperLine::Finished(Err(Error::Priv(msg)))
        }
    } else {
        HelperLine::Log(line.to_owned())
    }
}

/// The result when the helper's output ended without a result line: its exit
/// code (`-1` when it has none) decides.
pub fn helper_exit(code: Option<i32>) -> (r: Result<(), Error>)
    ensures
        ({
            let c = match code {
                Some(c) => c as int,
                None => -1,
            };
            if c == 0 {
                r is Ok
            } else {
                r matches Err(Error::Priv(m)) && m@ == "helper exit "@ + signed_decimal(c)
            }
        }),
{
    let c: i32 = match code {
        Some(c) => c,
        None => -1,
    };
    if c == 0 {
        Ok(())
    } else {
        Err(Error::Priv(join2("helper exit ", i64_text(c as i64).as_str())))
    }
}

// ---------------------------------------------------------------------------
// Fallbacks and their messages
// ---------------------------------------------------------------------------

/// The warning when the helper could not do the job and pacman is run instead.
pub fn helper_fallback_log(e: &Error) -> (r: String)
    ensures
        r@ == "helper unavailable ("@ + error_text(*e) + "); falling back to pacman CLI"@,
{
    join3("helper unavailable (", e.message().as_str(), "); falling back to pacman CLI")
}

/// `: ` and the last error line, or nothing.
pub open spec fn why_text(last: Option<String>) -> Seq<char> {
    match last {
        Some(l) => ": "@ + l@,
        None => seq![],
    }
}

fn why(last: &Option<String>) -> (r: String)
    ensures
        r@ == why_text(*last),
{
    match last {
        Some(l) => join2(": ", l.as_str()),
        None => String::new(),
    }
}

/// The error of a pacman run through `pkexec` that exited with `code`.
pub fn pacman_exit_error(code: i32, last_err: &Option<String>) -> (e: Error)
    ensures
        e matches Error::Priv(m) && m@ == "pacman exit "@ + signed_decimal(code as int) + why_text(*last_err),
{
    Error::Priv(join3("pacman exit ", i64_text(code as i64).as_str(), why(last_err).as_str()))
}

/// The error of a database refresh (`pacman -Sy`) that exited with `code`.
pub fn refresh_exit_error(code: i32, last_err: &Option<String>) -> (e: Error)
    ensures
        e matches Error::Alpm(m) && m@ == "pacman -Sy exit "@ + signed_decimal(code as int) + why_text(*last_err),
{
    Error::Alpm(join3("pacman -Sy exit ", i64_text(code as i64).as_str(), why(last_err).as_str()))
}

/// The run could not even start (`pkexec` missing): the refresh is then tried unprivileged.
pub fn spawn_failed(e: &Error) -> (r: bool)
    ensures
        r == (e matches Error::Internal(m) && contains(m@, "spawn:"@)),
{
    match e {
        Error::Internal(m) => contains_chars(&chars_of(m.as_str()), &chars_of("spawn:")),
        _ => false,
    }
}

/// The log line before installing a local package file.
pub fn install_local_log(path: &str) -> (r: String)
    ensures
        r@ == "installing from local file: "@ + path@,
{
    join2("installing from local file: ", path)
}

/// The log line before cleaning the package cache.
pub fn cache_clean_log(keep: u32) -> (r: String)
    ensures
        r@ == "cleaning cache, keeping "@ + decimal(keep as nat) + " versions"@,
{
    join3("cleaning cache, keeping ", u64_text(keep as u64).as_str(), " versions")
}

/// The warning and the error when the helper could not clean the cache.
pub fn cache_clean_failure(e: &Error) -> (r: (String, Error))
    ensures
        r.0@ == "helper unavailable ("@ + error_text(*e) + "); fallback not implemented"@,
        r.1 matches Error::Alpm(m) && m@ == "cache clean failed: "@ + error_text(*e),
{
    let t = e.message();
    (
        join3("helper unavailable (", t.as_str(), "); fallback not implemented"),
        Error::Alpm(join2("cache clean failed: ", t.as_str())),
    )
}

// ---------------------------------------------------------------------------
// Listings from the package databases
// ---------------------------------------------------------------------------

/// One package of a sync database, as far as the listings use it.
pub struct RepoPkg {
    pub name: String,
    pub version: String,
    pub description: String,
}

/// What a repository search does: nothing (with a warning), or search for the trimmed text.
pub enum RepoSearch {
    Skip { warning: String },
    Run { log: String, query: String },
}

/// The summary of a repository package.
pub open spec fn repo_summary(p: RepoPkg, installed: bool) -> PackageSummary {
    PackageSummary {
        id: PackageId { name: p.name, source: Source::Repo, repo: None },
        version: p.version,
        description: p.description,
        installed,
        popular: None,
        last_updated: None,
    }
}

fn repo_summary_of(p: &RepoPkg, installed: bool) -> (r: PackageSummary)
    ensures
        r == repo_summary(*p, installed),
{
    PackageSummary {
        id: PackageId { name: p.name.clone(), source: Source::Repo, repo: None },
        version: p.version.clone(),
        description: p.description.clone(),
        installed,
        popular: None,
        last_updated: None,
    }
}

/// The packages whose lowercased name or description contains the lowercased
/// query `q`, as summaries, in database order.
pub open spec fn repo_hits(pkgs: Seq<RepoPkg>, q: Seq<char>, installed: Seq<String>) -> Seq<PackageSummary>
    decreases pkgs.len(),
{
    if pkgs.len() == 0 {
        seq![]
    } else {
        let rest = repo_hits(pkgs.drop_last(), q, installed);
        let p = pkgs.last();
        if contains(lowercase(p.name@), q) || contains(lowercase(p.description@), q) {
            rest.push(repo_summary(p, has_text(installed, p.name@)))
        } else {
            rest
        }
    }
}

/// At most the first `n` elements.
pub open spec fn first_n(s: Seq<PackageSummary>, n: int) -> Seq<PackageSummary> {
    if s.len() <= n {
        s
    } else {
        s.take(n)
    }
}

/// A package matches `q` when its lowercased name or description contains it.
spec fn text_match(p: RepoPkg, q: Seq<char>) -> bool {
    contains(lowercase(p.name@), q) || contains(lowercase(p.description@), q)
}

proof fn lemma_repo_hits_members(pkgs: Seq<RepoPkg>, q: Seq<char>, installed: Seq<String>)
    ensures
        forall|i: int|
            0 <= i < pkgs.len() && #[trigger] text_match(pkgs[i], q) ==> repo_hits(pkgs, q, installed).contains(
                repo_summary(pkgs[i], has_text(installed, pkgs[i].name@)),
            ),
        forall|x: PackageSummary|
            #[trigger] repo_hits(pkgs, q, installed).contains(x) ==> exists|i: int|
                0 <= i < pkgs.len() && #[trigger] text_match(pkgs[i], q) && x == repo_summary(
                    pkgs[i],
                    has_text(installed, pkgs[i].name@),
                ),
    decreases pkgs.len(),
{
    if pkgs.len() > 0 {
        let init = pkgs.drop_last();
        lemma_repo_hits_members(init, q, installed);
        let rest = repo_hits(init, q, installed);
        let h = repo_hits(pkgs, q, installed);
        let n = pkgs.len() - 1;
        assert forall|i: int|
            0 <= i < pkgs.len() && #[trigger] text_match(pkgs[i], q) implies h.contains(
                repo_summary(pkgs[i], has_text(installed, pkgs[i].name@)),
            ) by {
            let y = repo_summary(pkgs[i], has_text(installed, pkgs[i].name@));
            if i < n {
                assert(init[i] == pkgs[i]);
                assert(text_match(init[i], q));
                assert(rest.contains(y));
                let j = choose|j: int| 0 <= j < rest.len() && rest[j] == y;
                if text_match(pkgs.last(), q) {
                    assert(h[j] == y);
                }
            } else {
                assert(h[h.len() - 1] == y);
            }
        }
        assert forall|x: PackageSummary| #[trigger] h.contains(x) implies exists|i: int|
            0 <= i < pkgs.len() && #[trigger] text_match(pkgs[i], q) && x == repo_summary(
                pkgs[i],
                has_text(installed, pkgs[i].name@),
            ) by {
            let j = choose|j: int| 0 <= j < h.len() && h[j] == x;
            if j < rest.len() {
                assert(rest[j] == x);
                assert(rest.contains(x));
                let i = choose|i: int|
                    0 <= i < init.len() && #[trigger] text_match(init[i], q) && x == repo_summary(
                        init[i],
                        has_text(installed, init[i].name@),
                    );
                assert(init[i] == pkgs[i]);
                assert(text_match(pkgs[i], q));
            } else {
                assert(text_match(pkgs[n], q));
            }
        }
    }
}

/// A search finds what it is asked for: every package whose lowercased name
/// or lowercased description contains the lowercased query is among the
/// results (unless the 500 shown are already full), and every result is the
/// summary of such a package, marked installed exactly when its name is
/// among the installed names.
pub proof fn lemma_search_finds_matches(pkgs: Seq<RepoPkg>, query: Seq<char>, installed: Seq<String>)
    ensures
        ({
            let q = lowercase(query);
            let r = first_n(stable_sort(repo_hits(pkgs, q, installed), SortMode::NameAsc), 500);
            &&& r.len() <= 500
            &&& forall|i: int|
                0 <= i < pkgs.len() && (contains(lowercase(pkgs[i].name@), q) || contains(
                    lowercase(pkgs[i].description@),
                    q,
                )) ==> r.len() == 500 || r.contains(repo_summary(pkgs[i], has_text(installed, pkgs[i].name@)))
            &&& forall|k: int|
                #![trigger r[k]]
                0 <= k < r.len() ==> exists|i: int|
                    #![trigger pkgs[i]]
                    0 <= i < pkgs.len() && (contains(lowercase(pkgs[i].name@), q) || contains(
                        lowercase(pkgs[i].description@),
                        q,
                    )) && r[k] == repo_summary(pkgs[i], has_text(installed, pkgs[i].name@))
        }),
{
    broadcast use vstd::seq_lib::group_to_multiset_ensures;

    let q = lowercase(query);
    let h = repo_hits(pkgs, q, installed);
    let s = stable_sort(h, SortMode::NameAsc);
    let r = first_n(s, 500);
    lemma_repo_hits_members(pkgs, q, installed);
    crate::sorting::lemma_stable_sort_permutes(h, SortMode::NameAsc);
    assert forall|i: int|
        0 <= i < pkgs.len() && (contains(lowercase(pkgs[i].name@), q) || contains(
            lowercase(pkgs[i].description@),
            q,
        )) implies r.len() == 500 || r.contains(repo_summary(pkgs[i], has_text(installed, pkgs[i].name@))) by {
        let y = repo_summary(pkgs[i], has_text(installed, pkgs[i].name@));
        assert(text_match(pkgs[i], q));
        assert(h.contains(y));
        assert(h.to_multiset().count(y) > 0);
        assert(s.contains(y));
    }
    assert forall|k: int| #![trigger r[k]] 0 <= k < r.len() implies exists|i: int|
        #![trigger pkgs[i]]
        0 <= i < pkgs.len() && (contains(lowercase(pkgs[i].name@), q) || contains(
            lowercase(pkgs[i].description@),
            q,
        )) && r[k] == repo_summary(pkgs[i], has_text(installed, pkgs[i].name@)) by {
        assert(r[k] == s[k]);
        assert(s.contains(s[k]));
        assert(s.to_multiset().count(s[k]) > 0);
        assert(h.contains(s[k]));
        let i = choose|i: int|
            0 <= i < pkgs.len() && #[trigger] text_match(pkgs[i], q) && s[k] == repo_summary(
                pkgs[i],
                has_text(installed, pkgs[i].name@),
            );
        assert(text_match(pkgs[i], q));
    }
}

/// All the packages, each marked installed or not, as summaries.
pub open spec fn repo_summaries(pkgs: Seq<RepoPkg>, installed: bool) -> Seq<PackageSummary> {
    pkgs.map_values(|p: RepoPkg| repo_summary(p, installed))
}

/// The log line after a repository search.
pub open spec fn search_count_log(n: nat) -> Seq<char> {
    if n == 0 {
        "repo: search returned 0 matches"@
    } else {
        "repo: search yielded "@ + decimal(n) + " matches"@
    }
}

impl crate::model::PacmanCli {
    /// What a search for `q` does: a text shorter than two bytes once trimmed is not searched.
    pub fn search_start(&self, q: &str) -> (r: RepoSearch)
        ensures
            ({
                let t = trim(q@);
                if utf8_len(t) < 2 {
                    r matches RepoSearch::Skip { warning } && warning@ == "repo: query too short (<2), ignoring"@
                } else {
                    r matches RepoSearch::Run { log, query } && log@ == "repo search: "@ + t && query@ == t
                }
            }),
    {
        let t = trim_str(q);
        if !utf8_len_at_least_2(&t) {
            return RepoSearch::Skip { warning: "repo: query too short (<2), ignoring".to_owned() };
        }
        let query = string_from_chars(&t);
        RepoSearch::Run { log: join2("repo search: ", query.as_str()), query }
    }

    /// The search results among the database packages: the matches, sorted by
    /// name, at most 500 of them, and the log line that counts them.
    pub fn search_results(&self, query: &str, pkgs: &Vec<RepoPkg>, installed: &Vec<String>) -> (r: (
        Vec<PackageSummary>,
        String,
    ))
        ensures
            r.0@ == first_n(stable_sort(repo_hits(pkgs@, lowercase(query@), installed@), SortMode::NameAsc), 500),
            r.1@ == search_count_log(r.0@.len()),
    {
        let q = chars_of(to_lowercase(query).as_str());
        let mut hits: Vec<PackageSummary> = Vec::new();
        let mut i: usize = 0;
        while i < pkgs.len()
            invariant
                i <= pkgs.len(),
                q@ == lowercase(query@),
                hits@ == repo_hits(pkgs@.take(i as int), q@, installed@),
            decreases pkgs.len() - i,
        {
            proof {
                assert(pkgs@.take(i + 1).drop_last() =~= pkgs@.take(i as int));
                assert(pkgs@.take(i + 1).last() == pkgs@[i as int]);
            }
            let p = &pkgs[i];
            let hit = contains_chars(&chars_of(to_lowercase(p.name.as_str()).as_str()), &q) || contains_chars(
                &chars_of(to_lowercase(p.description.as_str()).as_str()),
                &q,
            );
            if hit {
                let inst = has_name(installed, p.name.as_str());
                hits.push(repo_summary_of(p, inst));
            }
            i = i + 1;
        }
        assert(pkgs@.take(pkgs.len() as int) =~= pkgs@);
        let mut sorted = sort_summaries(hits, SortMode::NameAsc);
        sorted.truncate(500);
        let n = sorted.len();
        let log = if n == 0 {
            "repo: search returned 0 matches".to_owned()
        } else {
            join3("repo: search yielded ", u64_text(n as u64).as_str(), " matches")
        };
        proof {
            reveal_strlit("repo: search returned 0 matches");
        }
        (sorted, log)
    }

    /// The upgrades, from the database packages newer than the installed ones:
    /// summaries marked installed, sorted by name, and the log line when there are none.
    pub fn upgrade_results(&self, newer: &Vec<RepoPkg>) -> (r: (Vec<PackageSummary>, Option<String>))
        ensures
            r.0@ == stable_sort(repo_summaries(newer@, true), SortMode::NameAsc),
            r.0@.len() == 0 ==> is_text(r.1, "repo: no upgrades available"@),
            r.0@.len() > 0 ==> r.1 is None,
    {
        let mut v: Vec<PackageSummary> = Vec::new();
        let mut i: usize = 0;
        while i < newer.len()
            invariant
                i <= newer.len(),
                v@ == repo_summaries(newer@.take(i as int), true),
            decreases newer.len() - i,
        {
            v.push(repo_summary_of(&newer[i], true));
            assert(v@ =~= repo_summaries(newer@.take(i + 1), true));
            i = i + 1;
        }
        assert(newer@.take(newer.len() as int) =~= newer@);
        let sorted = sort_summaries(v, SortMode::NameAsc);
        proof {
            crate::sorting::lemma_stable_sort_permutes(repo_summaries(newer@, true), SortMode::NameAsc);
        }
        if sorted.len() == 0 {
            (sorted, Some("repo: no upgrades available".to_owned()))
        } else {
            (sorted, None)
        }
    }
}

/// What the sync database records of one package, as the details show it.
pub struct RepoDetails {
    pub version: String,
    pub description: String,
    pub depends: Vec<String>,
    pub opt_depends: Vec<String>,
    pub url: Option<String>,
    pub packager: String,
    pub installed_size: u64,
    pub compressed_size: u64,
}

impl crate::model::PacmanCli {
    /// The details of `id` from the record of the first sync database that has
    /// it, or the error when none has.
    pub fn details_result(&self, id: &PackageId, found: Option<RepoDetails>) -> (r: Result<PackageDetails, Error>)
        ensures
            match found {
                Some(d) => r matches Ok(x) && {
                    &&& x.summary == (PackageSummary {
                        id: *id,
                        version: d.version,
                        description: d.description,
                        installed: false,
                        popular: None,
                        last_updated: None,
                    })
                    &&& x.description is None
                    &&& x.depends@ == d.depends@
                    &&& x.opt_depends@ == d.opt_depends@
                    &&& x.homepage == d.url
                    &&& x.license is None
                    &&& x.maintainer == Some(d.packager)
                    &&& x.developer is None
                    &&& x.size_install == Some(d.installed_size)
                    &&& x.size_download == Some(d.compressed_size)
                },
                None => r matches Err(Error::Alpm(m)) && m@ == "package "@ + id.name@ + " not found in repos"@,
            },
    {
        match found {
            Some(d) => Ok(PackageDetails {
                summary: PackageSummary {
                    id: id.clone(),
                    version: d.version,
                    description: d.description,
                    installed: false,
                    popular: None,
                    last_updated: None,
                },
                description: None,
                depends: d.depends,
                opt_depends: d.opt_depends,
                homepage: d.url,
                license: None,
                maintainer: Some(d.packager),
                developer: None,
                size_install: Some(d.installed_size),
                size_download: Some(d.compressed_size),
            }),
            None => Err(Error::Alpm(join3("package ", id.name.as_str(), " not found in repos"))),
        }
    }

    /// The installed package names, from the names in the local database:
    /// each once, in increasing order.
    pub fn installed_names(names: &Vec<String>) -> (r: Vec<String>)
        ensures
            crate::srcinfo::strictly_sorted(r@),
            forall|t: Seq<char>| #[trigger] has_text(r@, t) <==> has_text(names@, t),
    {
        let mut out: Vec<String> = Vec::new();
        let mut i: usize = 0;
        while i < names.len()
            invariant
                i <= names.len(),
                crate::srcinfo::strictly_sorted(out@),
                forall|t: Seq<char>| #[trigger] has_text(out@, t) <==> has_text(names@.take(i as int), t),
            decreases names.len() - i,
        {
            let ghost before = out@;
            crate::srcinfo::insert_sorted_unique(&mut out, names[i].clone());
            proof {
                assert forall|t: Seq<char>| #[trigger] has_text(out@, t) <==> has_text(names@.take(i + 1), t) by {
                    let tk = names@.take(i + 1);
                    if has_text(names@.take(i as int), t) {
                        let j = choose|j: int| 0 <= j < names@.take(i as int).len() && #[trigger] names@.take(i as int)[j]@ == t;
                        assert(tk[j]@ == t);
                    }
                    if has_text(tk, t) {
                        let j = choose|j: int| 0 <= j < tk.len() && #[trigger] tk[j]@ == t;
                        if j < i {
                            assert(names@.take(i as int)[j]@ == t);
                        }
                    }
                    assert(tk[i as int]@ == names@[i as int]@);
                }
            }
            i = i + 1;
        }
        assert(names@.take(names.len() as int) =~= names@);
        out
    }
}

// ---------------------------------------------------------------------------
// The package cache
// ---------------------------------------------------------------------------

/// The version in the cached file name `f` of a package `name`:
/// `<name>-<version>-<arch>.pkg.tar.zst`, the version being what lies between
/// the name and the last hyphen; `None` when the file is not such a package
/// or the version is empty.
pub open spec fn cached_version(name: Seq<char>, f: Seq<char>) -> Option<Seq<char>> {
    let prefix = name + "-"@;
    if starts_with(f, prefix) && ends_with(f, ".pkg.tar.zst"@) {
        let rest = f.skip(prefix.len() as int);
        let k = crate::executor::last_index_of(rest, '-');
        let v = if k >= 0 {
            rest.take(k)
        } else {
            seq![]
        };
        if v.len() > 0 {
            Some(v)
        } else {
            None
        }
    } else {
        None
    }
}

/// The cached files of `name` with their versions, in directory order.
pub open spec fn cached_of(name: Seq<char>, files: Seq<String>) -> Seq<(Seq<char>, Seq<char>)>
    decreases files.len(),
{
    if files.len() == 0 {
        seq![]
    } else {
        let rest = cached_of(name, files.drop_last());
        match cached_version(name, files.last()@) {
            Some(v) => rest.push((files.last()@, v)),
            None => rest,
        }
    }
}

/// Inserts candidate `x` into the order `s` before the first candidate whose
/// version is older than that of `x` (`older[a][b]`: `vercmp` orders the
/// version of candidate `a` before that of candidate `b`).
pub open spec fn insert_by_version(s: Seq<int>, x: int, older: Seq<Seq<bool>>) -> Seq<int>
    decreases s.len(),
{
    if s.len() == 0 {
        seq![x]
    } else if older[s[0]][x] {
        seq![x] + s
    } else {
        seq![s[0]] + insert_by_version(s.drop_first(), x, older)
    }
}

/// The stable sort of the first `n` candidates by version, newest first:
/// candidates of equal version keep their order.
pub open spec fn newest_first(n: int, older: Seq<Seq<bool>>) -> Seq<int>
    decreases n,
{
    if n <= 0 {
        seq![]
    } else {
        insert_by_version(newest_first(n - 1, older), n - 1, older)
    }
}

/// The candidates `c` sorted by version, newest first.
pub open spec fn by_version(c: Seq<(Seq<char>, Seq<char>)>, older: Seq<Seq<bool>>) -> Seq<(Seq<char>, Seq<char>)> {
    newest_first(c.len() as int, older).map_values(|k: int| c[k])
}

pub open spec fn insert_at(s: Seq<int>, x: int, older: Seq<Seq<bool>>) -> int
    decreases s.len(),
{
    if s.len() == 0 {
        0
    } else if older[s[0]][x] {
        0
    } else {
        1 + insert_at(s.drop_first(), x, older)
    }
}

proof fn lemma_insert_by_version(s: Seq<int>, x: int, older: Seq<Seq<bool>>)
    ensures
        0 <= insert_at(s, x, older) <= s.len(),
        insert_by_version(s, x, older) == s.take(insert_at(s, x, older)) + seq![x] + s.skip(insert_at(s, x, older)),
        forall|i: int| 0 <= i < insert_at(s, x, older) ==> !older[#[trigger] s[i]][x],
        insert_at(s, x, older) < s.len() ==> older[s[insert_at(s, x, older)]][x],
    decreases s.len(),
{
    if s.len() > 0 && !older[s[0]][x] {
        let t = s.drop_first();
        lemma_insert_by_version(t, x, older);
        let p = insert_at(t, x, older);
        assert(seq![s[0]] + (t.take(p) + seq![x] + t.skip(p)) =~= s.take(p + 1) + seq![x] + s.skip(p + 1));
        assert forall|i: int| 0 <= i < p + 1 implies !older[#[trigger] s[i]][x] by {
            if i > 0 {
                assert(s[i] == t[i - 1]);
            }
        }
    } else if s.len() > 0 {
        assert(seq![x] + s =~= s.take(0) + seq![x] + s.skip(0));
    } else {
        assert(seq![x] =~= s.take(0) + seq![x] + s.skip(0));
    }
}

proof fn lemma_newest_first_range(n: int, older: Seq<Seq<bool>>)
    requires
        n >= 0,
    ensures
        newest_first(n, older).len() == n,
        forall|j: int| 0 <= j < n ==> 0 <= #[trigger] newest_first(n, older)[j] < n,
    decreases n,
{
    if n > 0 {
        let s = newest_first(n - 1, older);
        lemma_newest_first_range(n - 1, older);
        lemma_insert_by_version(s, n - 1, older);
        let p = insert_at(s, n - 1, older);
        let r = newest_first(n, older);
        assert forall|j: int| 0 <= j < n implies 0 <= #[trigger] r[j] < n by {
            if j < p {
                assert(r[j] == s[j]);
            } else if j > p {
                assert(r[j] == s[j - 1]);
            }
        }
    }
}

/// The answers of `vercmp` are consistent: a version is never both older and
/// newer than another.
pub open spec fn antisymmetric(older: Seq<Seq<bool>>, n: int) -> bool {
    forall|a: int, b: int| 0 <= a < n && 0 <= b < n && #[trigger] older[a][b] ==> !#[trigger] older[b][a]
}

/// No candidate of the order is older than the one after it.
pub open spec fn newest_first_adjacent(s: Seq<int>, older: Seq<Seq<bool>>) -> bool {
    forall|i: int| 0 <= i < s.len() - 1 ==> !older[#[trigger] s[i]][s[i + 1]]
}

proof fn lemma_insert_keeps_adjacent(s: Seq<int>, x: int, older: Seq<Seq<bool>>, n: int)
    requires
        antisymmetric(older, n),
        0 <= x < n,
        forall|j: int| 0 <= j < s.len() ==> 0 <= #[trigger] s[j] < n,
        newest_first_adjacent(s, older),
    ensures
        newest_first_adjacent(insert_by_version(s, x, older), older),
{
    lemma_insert_by_version(s, x, older);
    let p = insert_at(s, x, older);
    let r = insert_by_version(s, x, older);
    assert forall|i: int| 0 <= i < r.len() - 1 implies !older[#[trigger] r[i]][r[i + 1]] by {
        if i + 1 < p {
            assert(r[i] == s[i] && r[i + 1] == s[i + 1]);
        } else if i + 1 == p {
            assert(r[i] == s[i] && r[i + 1] == x);
        } else if i == p {
            assert(r[i] == x && r[i + 1] == s[p]);
            assert(older[s[p]][x]);
        } else {
            assert(r[i] == s[i - 1] && r[i + 1] == s[i]);
        }
    }
}

/// When the version answers are consistent, the cached versions are listed
/// newest first: no version is older than the one after it.
pub proof fn lemma_cached_newest_first(n: int, older: Seq<Seq<bool>>)
    requires
        n >= 0,
        antisymmetric(older, n),
    ensures
        newest_first_adjacent(newest_first(n, older), older),
    decreases n,
{
    if n > 0 {
        lemma_cached_newest_first(n - 1, older);
        lemma_newest_first_range(n - 1, older);
        lemma_insert_keeps_adjacent(newest_first(n - 1, older), n - 1, older, n);
    }
}

pub open spec fn pair_views(v: Seq<(String, String)>) -> Seq<(Seq<char>, Seq<char>)> {
    v.map_values(|p: (String, String)| (p.0@, p.1@))
}

pub open spec fn bool_rows(v: Seq<Vec<bool>>) -> Seq<Seq<bool>> {
    v.map_values(|r: Vec<bool>| r@)
}

impl crate::model::PacmanCli {
    /// The cached files of `name` among the file names of the package cache,
    /// with their versions: `(file name, version)`, in directory order.
    pub fn cached_files(name: &str, files: &Vec<String>) -> (r: Vec<(String, String)>)
        ensures
            pair_views(r@) == cached_of(name@, files@),
    {
        let prefix = chars_of(join2(name, "-").as_str());
        let suffix = chars_of(".pkg.tar.zst");
        let mut found: Vec<(String, String)> = Vec::new();
        let mut i: usize = 0;
        while i < files.len()
            invariant
                i <= files.len(),
                prefix@ == name@ + "-"@,
                suffix@ == ".pkg.tar.zst"@,
                pair_views(found@) == cached_of(name@, files@.take(i as int)),
            decreases files.len() - i,
        {
            proof {
                assert(files@.take(i + 1).drop_last() =~= files@.take(i as int));
                assert(files@.take(i + 1).last() == files@[i as int]);
            }
            let f = chars_of(files[i].as_str());
            if starts_with_chars(&f, &prefix) && ends_with_chars(&f, &suffix) {
                let rest = sub_vec(&f, prefix.len(), f.len());
                assert(rest@ =~= f@.skip(prefix@.len() as int));
                let v = match crate::executor::last_index_of_exec(&rest, '-') {
                    Some(k) => sub_vec(&rest, 0, k),
                    None => Vec::new(),
                };
                assert(v@ =~= match crate::executor::last_index_of(rest@, '-') {
                    k => if k >= 0 {
                        rest@.take(k)
                    } else {
                        seq![]
                    },
                });
                if v.len() > 0 {
                    let ghost f0 = found@;
                    found.push((files[i].clone(), string_from_chars(&v)));
                    assert(pair_views(found@) =~= pair_views(f0).push((files@[i as int]@, v@)));
                }
            }
            i = i + 1;
        }
        assert(files@.take(files.len() as int) =~= files@);
        found
    }

    /// The cached versions of `name` among the file names of the package
    /// cache: `(file name, version)`, newest version first by `vercmp`, whose
    /// answers for the cached files (in the order of `cached_files`) are
    /// `older[a][b]`: the version of file `a` comes before that of file `b`.
    pub fn cached_versions(name: &str, files: &Vec<String>, older: &Vec<Vec<bool>>) -> (r: Vec<(String, String)>)
        requires
            older@.len() == cached_of(name@, files@).len(),
            forall|i: int| 0 <= i < older@.len() ==> #[trigger] older@[i]@.len() == older@.len(),
        ensures
            pair_views(r@) == by_version(cached_of(name@, files@), bool_rows(older@)),
    {
        let found = Self::cached_files(name, files);
        let ghost ov = bool_rows(older@);
        let n = found.len();
        proof {
            assert(pair_views(found@).len() == found@.len());
        }
        let mut order: Vec<usize> = Vec::new();
        let mut k: usize = 0;
        while k < n
            invariant
                k <= n == found@.len() == older@.len(),
                ov == bool_rows(older@),
                forall|i: int| 0 <= i < older@.len() ==> #[trigger] older@[i]@.len() == older@.len(),
                order@.len() == k,
                order@.map_values(|x: usize| x as int) == newest_first(k as int, ov),
                forall|j: int| 0 <= j < k ==> #[trigger] order@[j] < k,
            decreases n - k,
        {
            let ghost s = order@.map_values(|x: usize| x as int);
            let mut p: usize = 0;
            while p < order.len() && !older[order[p]][k]
                invariant
                    p <= order@.len() == k < n == older@.len(),
                    ov == bool_rows(older@),
                    s == order@.map_values(|x: usize| x as int),
                    forall|i: int| 0 <= i < older@.len() ==> #[trigger] older@[i]@.len() == older@.len(),
                    forall|j: int| 0 <= j < k ==> #[trigger] order@[j] < k,
                    forall|j: int| 0 <= j < p ==> !ov[#[trigger] s[j]][k as int],
                decreases order@.len() - p,
            {
                assert(ov[s[p as int]][k as int] == older@[order@[p as int] as int]@[k as int]);
                p = p + 1;
            }
            proof {
                lemma_insert_by_version(s, k as int, ov);
                let q = insert_at(s, k as int, ov);
                if p < order@.len() {
                    assert(ov[s[p as int]][k as int] == older@[order@[p as int] as int]@[k as int]);
                }
                if q < p {
                    assert(!ov[s[q]][k as int]);
                } else if p < q {
                    assert(!ov[s[p as int]][k as int]);
                }
            }
            let ghost o0 = order@;
            order.insert(p, k);
            proof {
                assert(order@.map_values(|x: usize| x as int) =~= s.take(p as int) + seq![k as int] + s.skip(p as int));
                assert forall|j: int| 0 <= j < k + 1 implies #[trigger] order@[j] < k + 1 by {
                    if j < p {
                        assert(order@[j] == o0[j]);
                    } else if j > p {
                        assert(order@[j] == o0[j - 1]);
                    }
                }
            }
            k = k + 1;
        }
        proof {
            lemma_newest_first_range(n as int, ov);
        }
        let mut out: Vec<(String, String)> = Vec::new();
        let mut j: usize = 0;
        while j < n
            invariant
                j <= n == found@.len() == order@.len(),
                order@.map_values(|x: usize| x as int) == newest_first(n as int, ov),
                forall|i: int| 0 <= i < n ==> #[trigger] order@[i] < n,
                pair_views(out@) == newest_first(n as int, ov).take(j as int).map_values(|k: int| pair_views(found@)[k]),
            decreases n - j,
        {
            let f = &found[order[j]];
            let ghost o0 = out@;
            out.push((f.0.clone(), f.1.clone()));
            proof {
                let t = newest_first(n as int, ov);
                assert(t[j as int] == order@[j as int] as int);
                assert(pair_views(found@)[t[j as int]] == (f.0@, f.1@));
                assert(pair_views(out@) =~= pair_views(o0).push((f.0@, f.1@)));
                assert(t.take(j + 1) =~= t.take(j as int).push(t[j as int]));
                assert(pair_views(out@) =~= newest_first(n as int, ov).take(j + 1).map_values(
                    |k: int| pair_views(found@)[k],
                ));
            }
            j = j + 1;
        }
        assert(newest_first(n as int, ov).take(n as int) =~= newest_first(n as int, ov));
        out
    }
}

/// The cache file of `name` in `version` for `arch`.
pub open spec fn cache_path(name: Seq<char>, version: Seq<char>, arch: Seq<char>) -> Seq<char> {
    "/var/cache/pacman/pkg/"@ + name + "-"@ + version + "-"@ + arch + ".pkg.tar.zst"@
}

/// The two cache files that may hold `name` in `version`: the one built for
/// `arch`, and the architecture-independent one.
pub fn downgrade_paths(name: &str, version: &str, arch: &str) -> (r: (String, String))
    ensures
        r.0@ == cache_path(name@, version@, arch@),
        r.1@ == cache_path(name@, version@, "any"@),
{
    let head = join3(join2("/var/cache/pacman/pkg/", name).as_str(), "-", version);
    (join3(head.as_str(), "-", join2(arch, ".pkg.tar.zst").as_str()), join3(head.as_str(), "-", join2("any", ".pkg.tar.zst").as_str()))
}

/// The error when neither cache file exists.
pub fn downgrade_missing(path: &str) -> (e: Error)
    ensures
        e matches Error::Alpm(m) && m@ == "cached package not found: "@ + path@,
{
    Error::Alpm(join2("cached package not found: ", path))
}

/// What follows a helper run.
pub enum HelperNext {
    /// The helper did the job.
    Done,
    /// The job was cancelled while the helper ran.
    Cancelled,
    /// The helper failed; the CLI fallback is tried after this warning.
    Fallback { warning: String },
}

/// What an install, removal or system upgrade does after the helper ran
/// (`Err(None)` when it was cancelled): nothing more, stop, or run pacman
/// itself after a warning.
pub fn after_helper(r: &Result<(), Option<Error>>) -> (n: HelperNext)
    ensures
        match r {
            Ok(_) => n is Done,
            Err(None) => n is Cancelled,
            Err(Some(e)) => n matches HelperNext::Fallback { warning } && warning@ == "helper unavailable ("@
                + error_text(*e) + "); falling back to pacman CLI"@,
        },
{
    match r {
        Ok(_) => HelperNext::Done,
        Err(None) => HelperNext::Cancelled,
        Err(Some(e)) => HelperNext::Fallback { warning: helper_fallback_log(e) },
    }
}

} // verus!

//! The decisions of the job executor: which backend a job goes to, what a
//! search runs with, and what is reported when a job ends. The executor loop
//! itself (threads and channels) runs these decisions and performs the calls.
use crate::model::{Error, JobKind, JobPayload, PackageId, PackageSummary, Source, Stage, error_text};
use crate::sorting::{SortMode, sort_summaries, stable_sort};
use crate::text::{
    chars_of, ends_with, ends_with_chars, eq_chars, join2, join3, split, split_chars, str_eq,
    trim, trim_str, utf8_len, string_from_chars, lines, lines_of, trim_chars,
};
use crate::srcinfo::{has_text, insert_sorted_unique, strictly_sorted};
use vstd::prelude::*;

verus! {

pub open spec fn spec_backend_matches(name: Seq<char>, source: Source) -> bool {
    match source {
        Source::Repo => name == "alpm"@ || name == "packagekit"@,
        Source::Aur => name == "aur"@,
        Source::Flatpak => name == "flatpak"@,
        Source::AppImage => name == "appimage"@,
    }
}

/// Whether the backend called `name` serves packages of `source`.
pub fn backend_matches(name: &str, source: &Source) -> (r: bool)
    ensures
        r == spec_backend_matches(name@, *source),
{
    match source {
        Source::Repo => str_eq(name, "alpm") || str_eq(name, "packagekit"),
        Source::Aur => str_eq(name, "aur"),
        Source::Flatpak => str_eq(name, "flatpak"),
        Source::AppImage => str_eq(name, "appimage"),
    }
}

impl crate::model::AurBackend {
    /// The backend's name, under which it serves AUR packages.
    pub fn name(&self) -> (r: &'static str)
        ensures
            r@ == "aur"@,
            spec_backend_matches(r@, Source::Aur),
    {
        "aur"
    }
}

impl crate::model::AppImageBackend {
    /// The backend's name, under which it serves AppImages.
    pub fn name(&self) -> (r: &'static str)
        ensures
            r@ == "appimage"@,
            spec_backend_matches(r@, Source::AppImage),
    {
        "appimage"
    }
}

impl crate::model::PacmanCli {
    /// The backend's name, under which it serves repository packages.
    pub fn name(&self) -> (r: &'static str)
        ensures
            r@ == "packagekit"@,
            spec_backend_matches(r@, Source::Repo),
    {
        "packagekit"
    }
}

/// The name of the libalpm backend, under which it serves repository packages.
pub fn alpm_backend_name() -> (r: &'static str)
    ensures
        r@ == "alpm"@,
        spec_backend_matches(r@, Source::Repo),
{
    "alpm"
}

/// The name of the Flatpak backend, under which it serves Flatpak applications.
pub fn flatpak_backend_name() -> (r: &'static str)
    ensures
        r@ == "flatpak"@,
        spec_backend_matches(r@, Source::Flatpak),
{
    "flatpak"
}

/// `i` is the first backend in `names` that serves `source`.
pub open spec fn first_matching(names: Seq<String>, source: Source, i: int) -> bool {
    &&& 0 <= i < names.len()
    &&& spec_backend_matches(names[i]@, source)
    &&& forall|j: int| 0 <= j < i ==> !spec_backend_matches(#[trigger] names[j]@, source)
}

/// The first backend that serves packages of `source`.
pub fn find_backend(names: &Vec<String>, source: &Source) -> (r: Option<usize>)
    ensures
        match r {
            Some(i) => first_matching(names@, *source, i as int),
            None => forall|j: int|
                0 <= j < names@.len() ==> !spec_backend_matches(#[trigger] names@[j]@, *source),
        },
{
    let mut i: usize = 0;
    while i < names.len()
        invariant
            i <= names.len(),
            forall|j: int| 0 <= j < i ==> !spec_backend_matches(#[trigger] names@[j]@, *source),
        decreases names.len() - i,
    {
        if backend_matches(names[i].as_str(), source) {
            return Some(i);
        }
        i = i + 1;
    }
    None
}

/// The first backend whose name is exactly `name`.
pub fn find_backend_named(names: &Vec<String>, name: &str) -> (r: Option<usize>)
    ensures
        match r {
            Some(i) => i < names@.len() && names@[i as int]@ == name@ && forall|j: int|
                0 <= j < i ==> #[trigger] names@[j]@ != name@,
            None => forall|j: int| 0 <= j < names@.len() ==> #[trigger] names@[j]@ != name@,
        },
{
    let mut i: usize = 0;
    while i < names.len()
        invariant
            i <= names.len(),
            forall|j: int| 0 <= j < i ==> #[trigger] names@[j]@ != name@,
        decreases names.len() - i,
    {
        if str_eq(names[i].as_str(), name) {
            return Some(i);
        }
        i = i + 1;
    }
    None
}

// ---------------------------------------------------------------------------
// File names
// ---------------------------------------------------------------------------

/// The last normal component of a path split at `/` (what `Path::file_name`
/// gives): empty parts and `.` are skipped, and a final `..` has none.
pub open spec fn last_normal(parts: Seq<Seq<char>>) -> Option<Seq<char>>
    decreases parts.len(),
{
    if parts.len() == 0 {
        None
    } else if parts.last().len() == 0 || parts.last() == "."@ {
        last_normal(parts.drop_last())
    } else if parts.last() == ".."@ {
        None
    } else {
        Some(parts.last())
    }
}

pub open spec fn file_name(path: Seq<char>) -> Option<Seq<char>> {
    last_normal(split(path, '/'))
}

/// Position of the last `c` in `s`, or -1.
pub open spec fn last_index_of(s: Seq<char>, c: char) -> int
    decreases s.len(),
{
    if s.len() == 0 {
        -1
    } else if s.last() == c {
        s.len() - 1
    } else {
        last_index_of(s.drop_last(), c)
    }
}

/// `Path::extension` of a file name: the part after the last `.`, unless the
/// name has no `.` or its only leading `.` is the first char.
pub open spec fn name_extension(name: Seq<char>) -> Option<Seq<char>> {
    let k = last_index_of(name, '.');
    if k <= 0 {
        None
    } else {
        Some(name.skip(k + 1))
    }
}

pub open spec fn path_extension(path: Seq<char>) -> Option<Seq<char>> {
    match file_name(path) {
        Some(n) => name_extension(n),
        None => None,
    }
}

/// `Path::file_stem` of a file name.
pub open spec fn name_stem(name: Seq<char>) -> Seq<char> {
    let k = last_index_of(name, '.');
    if k <= 0 {
        name
    } else {
        name.take(k)
    }
}

pub proof fn lemma_last_index_of(s: Seq<char>, c: char)
    ensures
        -1 <= last_index_of(s, c) < s.len(),
        last_index_of(s, c) >= 0 ==> s[last_index_of(s, c)] == c,
        forall|j: int| last_index_of(s, c) < j < s.len() ==> s[j] != c,
    decreases s.len(),
{
    if s.len() > 0 && s.last() != c {
        let t = s.drop_last();
        lemma_last_index_of(t, c);
        assert forall|j: int| last_index_of(s, c) < j < s.len() implies s[j] != c by {
            if j < s.len() - 1 {
                assert(s[j] == t[j]);
            }
        }
    }
}

pub fn last_index_of_exec(v: &Vec<char>, c: char) -> (r: Option<usize>)
    ensures
        match r {
            Some(k) => k as int == last_index_of(v@, c) && k < v.len(),
            None => last_index_of(v@, c) == -1,
        },
{
    proof {
        lemma_last_index_of(v@, c);
    }
    let mut j: usize = v.len();
    assert(v@.take(v.len() as int) =~= v@);
    while j > 0 && v[j - 1] != c
        invariant
            j <= v.len(),
            last_index_of(v@, c) == last_index_of(v@.take(j as int), c),
        decreases j,
    {
        proof {
            let t = v@.take(j as int);
            assert(t.drop_last() =~= v@.take(j - 1));
        }
        j = j - 1;
    }
    if j == 0 {
        proof {
            assert(v@.take(0).len() == 0);
        }
        None
    } else {
        Some(j - 1)
    }
}

/// `Path::new(path).file_name()`.
pub fn file_name_of(path: &Vec<char>) -> (r: Option<Vec<char>>)
    ensures
        match r {
            Some(n) => file_name(path@) == Some(n@),
            None => file_name(path@) is None,
        },
{
    let parts = split_chars(path, '/');
    let dot = chars_of(".");
    let dotdot = chars_of("..");
    let ghost all = split(path@, '/');
    let mut j: usize = parts.len();
    assert(all.take(all.len() as int) =~= all);
    while j > 0 && (parts[j - 1].len() == 0 || eq_chars(&parts[j - 1], &dot))
        invariant
            j <= parts@.len() == all.len(),
            forall|i: int| 0 <= i < parts@.len() ==> #[trigger] parts@[i]@ == all[i],
            dot@ == "."@,
            last_normal(all) == last_normal(all.take(j as int)),
        decreases j,
    {
        proof {
            let t = all.take(j as int);
            assert(t.drop_last() =~= all.take(j - 1));
            assert(t.last() == parts@[j - 1]@);
        }
        j = j - 1;
    }
    proof {
        let t = all.take(j as int);
        if j > 0 {
            assert(t.last() == parts@[j - 1]@);
        }
    }
    if j == 0 {
        None
    } else if eq_chars(&parts[j - 1], &dotdot) {
        None
    } else {
        Some(parts[j - 1].clone())
    }
}

/// `Path::extension` of a file name.
pub fn name_extension_of(name: &Vec<char>) -> (r: Option<Vec<char>>)
    ensures
        match r {
            Some(e) => name_extension(name@) == Some(e@),
            None => name_extension(name@) is None,
        },
{
    match last_index_of_exec(name, '.') {
        Some(k) => {
            if k == 0 {
                None
            } else {
                Some(crate::text::sub_vec(name, k + 1, name.len()))
            }
        },
        None => None,
    }
}

/// `Path::file_stem` of a file name.
pub fn name_stem_of(name: &Vec<char>) -> (r: Vec<char>)
    ensures
        r@ == name_stem(name@),
{
    match last_index_of_exec(name, '.') {
        Some(k) => {
            if k == 0 {
                name.clone()
            } else {
                crate::text::sub_vec(name, 0, k)
            }
        },
        None => name.clone(),
    }
}

/// Which backend installs a local file, by its extension.
pub open spec fn spec_file_backend(path: Seq<char>) -> Option<Seq<char>> {
    if path_extension(path) == Some("AppImage"@) {
        Some("appimage"@)
    } else if path_extension(path) == Some("zst"@) && ends_with(path, ".pkg.tar.zst"@) {
        Some("alpm"@)
    } else {
        None
    }
}

pub fn file_backend(path: &str) -> (r: Option<String>)
    ensures
        match r {
            Some(n) => spec_file_backend(path@) == Some(n@),
            None => spec_file_backend(path@) is None,
        },
{
    let p = chars_of(path);
    let ext = match file_name_of(&p) {
        Some(n) => name_extension_of(&n),
        None => None,
    };
    match ext {
        Some(e) => {
            if eq_chars(&e, &chars_of("AppImage")) {
                Some("appimage".to_owned())
            } else if eq_chars(&e, &chars_of("zst")) && ends_with_chars(&p, &chars_of(".pkg.tar.zst")) {
                Some("alpm".to_owned())
            } else {
                None
            }
        },
        None => None,
    }
}

// ---------------------------------------------------------------------------
// Planning a job
// ---------------------------------------------------------------------------

/// What the executor does for a job.
#[derive(Debug)]
pub enum JobPlan {
    /// Call the job's operation on every backend in turn, stopping at the first error.
    EachBackend,
    /// Search every backend with `query`; with `run` false, publish empty results at once.
    Search { query: String, run: bool },
    /// Ask every backend for its updates.
    CollectUpdates,
    /// Call the job's operation on the backend at this position.
    OnBackend(usize),
    /// Nothing to do: the job succeeds.
    Nothing,
    /// No backend installs this file: the job fails with this message.
    NoBackendForFile(String),
}

/// The query a search job runs with: its text, trimmed.
pub open spec fn search_query(payload: JobPayload) -> Seq<char> {
    match payload {
        JobPayload::Query(q) => trim(q@),
        _ => Seq::empty(),
    }
}

/// The plan for a job that names a package.
pub open spec fn package_plan(payload: JobPayload, names: Seq<String>, p: JobPlan) -> bool {
    match payload {
        JobPayload::Package(id) => match p {
            JobPlan::OnBackend(i) => first_matching(names, id.source, i as int),
            JobPlan::Nothing => forall|j: int|
                0 <= j < names.len() ==> !spec_backend_matches(#[trigger] names[j]@, id.source),
            _ => false,
        },
        _ => p is Nothing,
    }
}

/// `p` is the plan for a job of `kind` with `payload`, given the backends' names in order.
pub open spec fn is_plan(kind: JobKind, payload: JobPayload, names: Seq<String>, p: JobPlan) -> bool {
    match kind {
        JobKind::Refresh | JobKind::UpgradeAll => p is EachBackend,
        JobKind::Upgrades => p is CollectUpdates,
        JobKind::Search => match p {
            JobPlan::Search { query, run } => query@ == search_query(payload) && run == (utf8_len(
                query@,
            ) >= 2),
            _ => false,
        },
        JobKind::Details | JobKind::Install | JobKind::Remove | JobKind::Upgrade => package_plan(
            payload,
            names,
            p,
        ),
        JobKind::InstallFile => match payload {
            JobPayload::InstallFile(path) => match spec_file_backend(path@) {
                Some(b) => match p {
                    JobPlan::OnBackend(i) => i < names.len() && names[i as int]@ == b && forall|
                        j: int,
                    |
                        0 <= j < i ==> #[trigger] names[j]@ != b,
                    JobPlan::NoBackendForFile(m) => m@ == "no backend for file: "@ + path@
                        && forall|j: int| 0 <= j < names.len() ==> #[trigger] names[j]@ != b,
                    _ => false,
                },
                None => match p {
                    JobPlan::NoBackendForFile(m) => m@ == "no backend for file: "@ + path@,
                    _ => false,
                },
            },
            _ => p is Nothing,
        },
    }
}

/// Decides what the executor does for a job.
pub fn plan_job(kind: JobKind, payload: &JobPayload, names: &Vec<String>) -> (p: JobPlan)
    ensures
        is_plan(kind, *payload, names@, p),
{
    match kind {
        JobKind::Refresh | JobKind::UpgradeAll => JobPlan::EachBackend,
        JobKind::Upgrades => JobPlan::CollectUpdates,
        JobKind::Search => {
            let qv = match payload {
                JobPayload::Query(q) => trim_str(q.as_str()),
                _ => Vec::new(),
            };
            let run = crate::text::utf8_len_at_least_2(&qv);
            let q = string_from_chars(&qv);
            let p = JobPlan::Search { query: q, run };
            assert(is_plan(kind, *payload, names@, p));
            p
        },
        JobKind::Details | JobKind::Install | JobKind::Remove | JobKind::Upgrade => {
            match payload {
                JobPayload::Package(id) => match find_backend(names, &id.source) {
                    Some(i) => {
                        let p = JobPlan::OnBackend(i);
                        assert(is_plan(kind, *payload, names@, p));
                        p
                    },
                    None => {
                        let p = JobPlan::Nothing;
                        assert(is_plan(kind, *payload, names@, p));
                        p
                    },
                },
                _ => JobPlan::Nothing,
            }
        },
        JobKind::InstallFile => {
            match payload {
                JobPayload::InstallFile(path) => {
                    let msg = join2("no backend for file: ", path.as_str());
                    match file_backend(path.as_str()) {
                        Some(b) => match find_backend_named(names, b.as_str()) {
                            Some(i) => JobPlan::OnBackend(i),
                            None => JobPlan::NoBackendForFile(msg),
                        },
                        None => JobPlan::NoBackendForFile(msg),
                    }
                },
                _ => JobPlan::Nothing,
            }
        },
    }
}

// ---------------------------------------------------------------------------
// Results and reports
// ---------------------------------------------------------------------------

/// Jobs after which the installed system has changed when they succeed.
pub open spec fn spec_changes_system(kind: JobKind) -> bool {
    match kind {
        JobKind::Install | JobKind::Remove | JobKind::Upgrade | JobKind::UpgradeAll
        | JobKind::InstallFile => true,
        _ => false,
    }
}

/// Whether a finished job announces that the system changed.
pub fn announces_change(kind: JobKind, succeeded: bool) -> (r: bool)
    ensures
        r == (succeeded && spec_changes_system(kind)),
{
    succeeded && match kind {
        JobKind::Install | JobKind::Remove | JobKind::Upgrade | JobKind::UpgradeAll
        | JobKind::InstallFile => true,
        _ => false,
    }
}

/// The stage reported when a job ends.
pub fn final_stage(succeeded: bool) -> (s: Stage)
    ensures
        s == (if succeeded {
            Stage::Finished
        } else {
            Stage::Failed
        }),
{
    if succeeded {
        Stage::Finished
    } else {
        Stage::Failed
    }
}

/// The log line reported when a job ends: the error's text when it failed.
pub fn final_log(result: &Result<(), Error>) -> (r: Option<String>)
    ensures
        match *result {
            Ok(()) => r is None,
            Err(e) => r is Some && r->0@ == error_text(e),
        },
{
    match result {
        Ok(()) => None,
        Err(e) => Some(e.message()),
    }
}

/// A message of a job's run, in the order the executor sends it: a progress
/// message (its fraction and byte counts aside), or the notice that the
/// system changed.
pub enum JobOutput {
    Progress { job_id: u64, stage: Stage, log: Option<String>, warning: bool },
    Changed,
}

/// `o` is the progress message of job `job_id` at `stage`, with no log line and no warning.
pub open spec fn is_plain(o: JobOutput, job_id: u64, stage: Stage) -> bool {
    o matches JobOutput::Progress { job_id: j, stage: s, log, warning } && j == job_id && s == stage && log is None
        && !warning
}

/// `o` is the last message of job `job_id`: finished, or failed with the error's text as a warning.
pub open spec fn is_final(o: JobOutput, job_id: u64, result: Result<(), Error>) -> bool {
    match result {
        Ok(()) => is_plain(o, job_id, Stage::Finished),
        Err(e) => o matches JobOutput::Progress { job_id: j, stage, log, warning } && j == job_id && stage
            == Stage::Failed && warning && (log matches Some(l) && l@ == error_text(e)),
    }
}

/// What a job's run ends with: the notice that the system changed when the
/// job changed it, then the job's last message.
pub open spec fn is_closing(c: Seq<JobOutput>, job_id: u64, kind: JobKind, result: Result<(), Error>) -> bool {
    if result is Ok && spec_changes_system(kind) {
        c.len() == 2 && c[0] is Changed && is_final(c[1], job_id, result)
    } else {
        c.len() == 1 && is_final(c[0], job_id, result)
    }
}

/// The first message of a job: it is queued.
pub fn job_opening(job_id: u64) -> (r: JobOutput)
    ensures
        is_plain(r, job_id, Stage::Queued),
{
    JobOutput::Progress { job_id, stage: Stage::Queued, log: None, warning: false }
}

/// The messages that end a job's run with `result`.
pub fn job_closing(job_id: u64, kind: JobKind, result: &Result<(), Error>) -> (r: Vec<JobOutput>)
    ensures
        is_closing(r@, job_id, kind, *result),
{
    let ok = result.is_ok();
    let last = JobOutput::Progress { job_id, stage: final_stage(ok), log: final_log(result), warning: !ok };
    if announces_change(kind, ok) {
        vec![JobOutput::Changed, last]
    } else {
        vec![last]
    }
}

/// A backend's progress message as the executor forwards it: with the id of
/// the job that runs it.
pub open spec fn relabelled(job_id: u64, o: JobOutput) -> JobOutput {
    match o {
        JobOutput::Progress { stage, log, warning, .. } => JobOutput::Progress { job_id, stage, log, warning },
        JobOutput::Changed => JobOutput::Changed,
    }
}

/// Forwards a backend's progress message under the id of the job that runs it.
pub fn relabel(job_id: u64, o: JobOutput) -> (r: JobOutput)
    ensures
        r == relabelled(job_id, o),
{
    match o {
        JobOutput::Progress { stage, log, warning, .. } => JobOutput::Progress { job_id, stage, log, warning },
        JobOutput::Changed => JobOutput::Changed,
    }
}

/// The messages of one job's run: it is queued, its backends' progress
/// messages follow (relabelled with the job's id), and it closes.
pub open spec fn job_stream(job_id: u64, open: JobOutput, backend: Seq<JobOutput>, close: Seq<JobOutput>) -> Seq<
    JobOutput,
> {
    seq![open] + backend.map_values(|o: JobOutput| relabelled(job_id, o)) + close
}

/// Every message of a job's run (its backends' progress messages forwarded
/// through `relabel`) belongs to the job: it starts queued, ends
/// finished (or failed with the error's text as a warning), and announces a
/// change of the system exactly when a changing job succeeded, once, just
/// before its last message, after all of its backends' messages.
pub proof fn lemma_job_stream(
    job_id: u64,
    kind: JobKind,
    result: Result<(), Error>,
    open: JobOutput,
    backend: Seq<JobOutput>,
    close: Seq<JobOutput>,
)
    requires
        is_plain(open, job_id, Stage::Queued),
        forall|i: int| 0 <= i < backend.len() ==> #[trigger] backend[i] is Progress,
        is_closing(close, job_id, kind, result),
    ensures
        ({
            let s = job_stream(job_id, open, backend, close);
            &&& is_plain(s[0], job_id, Stage::Queued)
            &&& is_final(s.last(), job_id, result)
            &&& forall|i: int| 0 <= i < s.len() && (#[trigger] s[i] is Progress) ==> s[i]->Progress_job_id == job_id
            &&& forall|i: int| 0 <= i < s.len() && (#[trigger] s[i] is Changed) ==> i == s.len() - 2 && result is Ok
                && spec_changes_system(kind)
            &&& (result is Ok && spec_changes_system(kind)) ==> s[s.len() - 2] is Changed
        }),
{
    let s = job_stream(job_id, open, backend, close);
    let forwarded = backend.map_values(|o: JobOutput| relabelled(job_id, o));
    let n = forwarded.len();
    assert forall|i: int| 0 <= i < s.len() && (#[trigger] s[i] is Progress) implies s[i]->Progress_job_id == job_id by {
        if i == 0 {
        } else if i <= n {
            assert(s[i] == forwarded[i - 1]);
        } else {
            assert(s[i] == close[i - 1 - n]);
        }
    }
    assert forall|i: int| 0 <= i < s.len() && (#[trigger] s[i] is Changed) implies i == s.len() - 2 && result is Ok
        && spec_changes_system(kind) by {
        if i == 0 {
        } else if i <= n {
            assert(s[i] == forwarded[i - 1]);
        } else {
            assert(s[i] == close[i - 1 - n]);
        }
    }
    assert(s.last() == close.last());
}

/// `"<backend> search failed: <error>"`.
pub fn search_failed_message(backend: &str, e: &Error) -> (r: String)
    ensures
        r@ == backend@ + " search failed: "@ + error_text(*e),
{
    let m = e.message();
    join3(backend, " search failed: ", m.as_str())
}

/// `"<backend> upgrades failed: <error>"`.
pub fn upgrades_failed_message(backend: &str, e: &Error) -> (r: String)
    ensures
        r@ == backend@ + " upgrades failed: "@ + error_text(*e),
{
    let m = e.message();
    join3(backend, " upgrades failed: ", m.as_str())
}

/// The results of all backends, in one list ordered by name.
pub fn sort_by_name(items: Vec<PackageSummary>) -> (r: Vec<PackageSummary>)
    ensures
        r@ == stable_sort(items@, SortMode::NameAsc),
{
    sort_summaries(items, SortMode::NameAsc)
}

/// The packages that the backends found, in backend order.
pub open spec fn found_items(rs: Seq<(String, Result<Vec<PackageSummary>, Error>)>) -> Seq<PackageSummary>
    decreases rs.len(),
{
    if rs.len() == 0 {
        seq![]
    } else {
        found_items(rs.drop_last()) + match rs.last().1 {
            Ok(v) => v@,
            Err(_) => seq![],
        }
    }
}

/// The error message of each backend whose search failed, in backend order.
pub open spec fn search_failures(rs: Seq<(String, Result<Vec<PackageSummary>, Error>)>) -> Seq<Seq<char>>
    decreases rs.len(),
{
    if rs.len() == 0 {
        seq![]
    } else {
        let rest = search_failures(rs.drop_last());
        match rs.last().1 {
            Ok(_) => rest,
            Err(e) => rest.push(rs.last().0@ + " search failed: "@ + error_text(e)),
        }
    }
}

/// Merges the search results of the backends (`(backend name, result)`, in
/// backend order): all packages found, ordered by name, and the error message
/// of each backend that failed.
pub fn merge_search(results: Vec<(String, Result<Vec<PackageSummary>, Error>)>) -> (r: (
    Vec<PackageSummary>,
    Vec<String>,
))
    ensures
        r.0@ == stable_sort(found_items(results@), SortMode::NameAsc),
        crate::aur::views(r.1@) == search_failures(results@),
{
    let ghost all = results@;
    let mut rest = results;
    let mut items: Vec<PackageSummary> = Vec::new();
    let mut errors: Vec<String> = Vec::new();
    while rest.len() > 0
        invariant
            all == all.take(all.len() - rest@.len()) + rest@,
            rest@.len() <= all.len(),
            items@ == found_items(all.take(all.len() - rest@.len())),
            crate::aur::views(errors@) == search_failures(all.take(all.len() - rest@.len())),
        decreases rest@.len(),
    {
        let ghost done = all.take(all.len() - rest@.len());
        let ghost r0 = rest@;
        let (name, result) = rest.remove(0);
        proof {
            let d2 = all.take(all.len() - rest@.len());
            assert(r0 == seq![r0[0]] + rest@);
            assert(d2 =~= done.push(r0[0]));
            assert(d2.drop_last() =~= done);
            assert(all =~= d2 + rest@);
        }
        match result {
            Ok(v) => {
                let mut v = v;
                let ghost i0 = items@;
                items.append(&mut v);
                assert(items@ =~= i0 + r0[0].1->Ok_0@);
            },
            Err(e) => {
                let ghost e0 = errors@;
                errors.push(search_failed_message(name.as_str(), &e));
                assert(crate::aur::views(errors@) =~= crate::aur::views(e0).push(r0[0].0@ + " search failed: "@ + error_text(e)));
            },
        }
    }
    assert(all.take(all.len() as int) =~= all);
    (sort_by_name(items), errors)
}

/// The executor's own state: the search whose results may be published.
pub struct ExecutorState {
    pub active_search_id: Option<u64>,
}

impl ExecutorState {
    pub fn new() -> (s: Self)
        ensures
            s.active_search_id is None,
    {
        ExecutorState { active_search_id: None }
    }

    /// A search job starts: it becomes the active one.
    pub fn begin_search(&mut self, job_id: u64)
        ensures
            final(self).active_search_id == Some(job_id),
    {
        self.active_search_id = Some(job_id);
    }

    /// Results of a search are published only while it is the active one.
    pub fn may_publish(&self, job_id: u64) -> (r: bool)
        ensures
            r == (self.active_search_id == Some(job_id)),
    {
        match self.active_search_id {
            Some(a) => a == job_id,
            None => false,
        }
    }
}

/// The names in the output of `pacman -Qq`: its trimmed lines that are not empty.
pub open spec fn listed_name(out: Seq<char>, t: Seq<char>) -> bool {
    t.len() > 0 && exists|i: int| 0 <= i < lines(out).len() && trim(#[trigger] lines(out)[i]) == t
}

/// The installed package names in the output of `pacman -Qq`, each once, in increasing order.
pub fn installed_package_names(out: &str) -> (r: Vec<String>)
    ensures
        strictly_sorted(r@),
        forall|t: Seq<char>| #[trigger] has_text(r@, t) <==> listed_name(out@, t),
{
    let ls = lines_of(&chars_of(out));
    let ghost gl = lines(out@);
    let mut names: Vec<String> = Vec::new();
    let mut i: usize = 0;
    while i < ls.len()
        invariant
            i <= ls.len(),
            ls@.len() == gl.len(),
            gl == lines(out@),
            forall|j: int| 0 <= j < ls@.len() ==> #[trigger] ls@[j]@ == gl[j],
            strictly_sorted(names@),
            forall|t: Seq<char>|
                #[trigger] has_text(names@, t) <==> (t.len() > 0 && exists|j: int| 0 <= j < i && trim(#[trigger] gl[j]) == t),
        decreases ls.len() - i,
    {
        let t = trim_chars(&ls[i]);
        if t.len() > 0 {
            insert_sorted_unique(&mut names, string_from_chars(&t));
        }
        proof {
            assert forall|u: Seq<char>|
                #[trigger] has_text(names@, u) <==> (u.len() > 0 && exists|j: int| 0 <= j < i + 1 && trim(#[trigger] gl[j]) == u) by {
                if u.len() > 0 && exists|j: int| 0 <= j < i + 1 && trim(#[trigger] gl[j]) == u {
                    let j = choose|j: int| 0 <= j < i + 1 && trim(#[trigger] gl[j]) == u;
                    if j < i {
                        assert(exists|k: int| 0 <= k < i && trim(#[trigger] gl[k]) == u);
                    }
                }
            }
        }
        i = i + 1;
    }
    names
}

/// One step of an operation on several packages, for the backends that handle
/// packages one at a time.
pub enum PackageStep {
    Install(PackageId),
    Remove(PackageId),
    Upgrade(PackageId),
    Refresh,
}

/// The step that an operation kind asks for a package.
pub open spec fn step_for(kind: crate::model::OperationKind, id: PackageId) -> PackageStep {
    match kind {
        crate::model::OperationKind::Install => PackageStep::Install(id),
        crate::model::OperationKind::Remove { .. } => PackageStep::Remove(id),
        crate::model::OperationKind::Update => PackageStep::Upgrade(id),
        crate::model::OperationKind::Refresh => PackageStep::Refresh,
    }
}

/// The steps of an operation, one per package in order.
pub fn per_package_steps(op: &crate::model::Operation) -> (r: Vec<PackageStep>)
    ensures
        r@.len() == op.package_ids@.len(),
        forall|i: int| 0 <= i < r@.len() ==> #[trigger] r@[i] == step_for(op.kind, op.package_ids@[i]),
{
    let mut out: Vec<PackageStep> = Vec::new();
    let mut i: usize = 0;
    while i < op.package_ids.len()
        invariant
            i <= op.package_ids.len(),
            out@.len() == i,
            forall|j: int| 0 <= j < i ==> #[trigger] out@[j] == step_for(op.kind, op.package_ids@[j]),
        decreases op.package_ids.len() - i,
    {
        let id = op.package_ids[i].clone();
        let step = match op.kind {
            crate::model::OperationKind::Install => PackageStep::Install(id),
            crate::model::OperationKind::Remove { .. } => PackageStep::Remove(id),
            crate::model::OperationKind::Update => PackageStep::Upgrade(id),
            crate::model::OperationKind::Refresh => PackageStep::Refresh,
        };
        out.push(step);
        i = i + 1;
    }
    out
}

} // verus!

//! State of the package browser window, and how each user action or message
//! from the job executor changes it and which jobs or notices it asks for.
use crate::model::{Event, JobKind, JobPayload, PackageDetails, PackageId, PackageSummary, Source, Stage};
use crate::sorting::{
    lemma_stable_sort_permutes, lemma_stable_sort_sorted, sort_summaries, sorted, stable_sort, SortMode,
};
use crate::text::{
    char_len_utf8, char_utf8_len, chars_of, contains, contains_chars, lemma_utf8_len,
    lemma_utf8_len_concat, lowercase, string_from_chars, sub_vec, to_lowercase, trim, trim_str, utf8_len,
};
use vstd::prelude::*;

verus! {

/// Most bytes the operation log keeps; older text is dropped from its front.
pub const MAX_LOG: usize = 256 * 1024;

/// Everything the window shows that is not drawing.
pub struct AppState {
    pub query: String,
    /// Results of the last search or upgrade listing, unfiltered.
    pub raw_results: Vec<PackageSummary>,
    /// The filtered and sorted list that is shown.
    pub results: Vec<PackageSummary>,
    pub selected: Option<PackageId>,
    /// Full details of the selected package, once they arrive.
    pub detail: Option<PackageDetails>,
    pub filter_repo: bool,
    pub filter_aur: bool,
    pub filter_installed: bool,
    pub sort: SortMode,
    pub progress_log: String,
    pub log_expanded: bool,
    pub in_upgrades_view: bool,
    /// Stage of the running operation; `None` when idle, finished or failed.
    pub active_stage: Option<Stage>,
    /// The main loop opens a file dialog for a local package when this is set.
    pub install_local_requested: bool,
}

// ---------------------------------------------------------------------------
// Filtering and the shown list
// ---------------------------------------------------------------------------

/// `x` passes the source and "installed only" filters.
pub open spec fn passes_filters(x: PackageSummary, repo: bool, aur: bool, installed_only: bool) -> bool {
    &&& (repo && x.id.source == Source::Repo) || (aur && x.id.source == Source::Aur)
    &&& !installed_only || x.installed
}

/// The elements of `raw` that pass the filters, in their order.
pub open spec fn filtered(raw: Seq<PackageSummary>, repo: bool, aur: bool, installed_only: bool) -> Seq<
    PackageSummary,
>
    decreases raw.len(),
{
    if raw.len() == 0 {
        seq![]
    } else {
        let rest = filtered(raw.drop_last(), repo, aur, installed_only);
        if passes_filters(raw.last(), repo, aur, installed_only) {
            rest.push(raw.last())
        } else {
            rest
        }
    }
}

/// The list that the window shows for a state: its raw results, filtered, then sorted.
pub open spec fn shown_results(st: AppState) -> Seq<PackageSummary> {
    stable_sort(filtered(st.raw_results@, st.filter_repo, st.filter_aur, st.filter_installed), st.sort)
}

/// Some element of `s` has the id `id`.
pub open spec fn lists(s: Seq<PackageSummary>, id: PackageId) -> bool {
    exists|i: int| 0 <= i < s.len() && (#[trigger] s[i]).id.same(id)
}

/// `new` is `old` with its shown list recomputed, and the selection dropped
/// when the new list no longer has it.
pub open spec fn refiltered(old: AppState, new: AppState) -> bool {
    let keep = match old.selected {
        Some(sel) => lists(new.results@, sel),
        None => true,
    };
    &&& new.results@ == shown_results(old)
    &&& new == (AppState {
        results: new.results,
        selected: if keep { old.selected } else { None },
        detail: if keep { old.detail } else { None },
        ..old
    })
}

/// `x` matches a lowercased search text.
pub open spec fn search_keeps(q: Seq<char>, x: PackageSummary) -> bool {
    ||| q.len() == 0
    ||| contains(lowercase(x.id.name@), q)
    ||| contains(lowercase(x.description@), q)
}

/// The elements of `items` that match the lowercased search text `q`, in their order.
pub open spec fn matching(items: Seq<PackageSummary>, q: Seq<char>) -> Seq<PackageSummary>
    decreases items.len(),
{
    if items.len() == 0 {
        seq![]
    } else {
        let rest = matching(items.drop_last(), q);
        if search_keeps(q, items.last()) {
            rest.push(items.last())
        } else {
            rest
        }
    }
}

fn filter_results(raw: &Vec<PackageSummary>, repo: bool, aur: bool, installed_only: bool) -> (r: Vec<
    PackageSummary,
>)
    ensures
        r@ == filtered(raw@, repo, aur, installed_only),
{
    let mut out: Vec<PackageSummary> = Vec::new();
    let mut i: usize = 0;
    while i < raw.len()
        invariant
            i <= raw.len(),
            out@ == filtered(raw@.take(i as int), repo, aur, installed_only),
        decreases raw.len() - i,
    {
        proof {
            let t = raw@.take(i + 1);
            assert(t.drop_last() =~= raw@.take(i as int));
            assert(t.last() == raw@[i as int]);
        }
        let x = &raw[i];
        let by_source = (repo && x.id.source == Source::Repo) || (aur && x.id.source == Source::Aur);
        if by_source && (!installed_only || x.installed) {
            out.push(x.clone());
        }
        i = i + 1;
    }
    assert(raw@.take(raw.len() as int) =~= raw@);
    out
}

fn matching_items(items: &Vec<PackageSummary>, query: &str) -> (r: Vec<PackageSummary>)
    ensures
        r@ == matching(items@, lowercase(query@)),
{
    let q = to_lowercase(query);
    let qc = chars_of(q.as_str());
    let mut out: Vec<PackageSummary> = Vec::new();
    let mut i: usize = 0;
    while i < items.len()
        invariant
            i <= items.len(),
            qc@ == lowercase(query@),
            out@ == matching(items@.take(i as int), lowercase(query@)),
        decreases items.len() - i,
    {
        proof {
            let t = items@.take(i + 1);
            assert(t.drop_last() =~= items@.take(i as int));
            assert(t.last() == items@[i as int]);
        }
        let x = &items[i];
        let keep = qc.len() == 0 || contains_chars(
            &chars_of(to_lowercase(x.id.name.as_str()).as_str()),
            &qc,
        ) || contains_chars(&chars_of(to_lowercase(x.description.as_str()).as_str()), &qc);
        if keep {
            out.push(x.clone());
        }
        i = i + 1;
    }
    assert(items@.take(items.len() as int) =~= items@);
    out
}

// ---------------------------------------------------------------------------
// The operation log
// ---------------------------------------------------------------------------

/// How many leading chars of `s` must go so that at least `n` bytes are gone
/// (the next char boundary at or after byte `n`).
pub open spec fn drain_count(s: Seq<char>, n: int) -> nat
    decreases s.len(),
{
    if n <= 0 || s.len() == 0 {
        0
    } else {
        1 + drain_count(s.drop_first(), n - char_utf8_len(s[0]))
    }
}

/// The log after `line` and a newline are added, with its oldest text dropped
/// down to a char boundary when it grows past `MAX_LOG` bytes.
pub open spec fn log_after(log: Seq<char>, line: Seq<char>) -> Seq<char> {
    let s = log + line + seq!['\n'];
    if utf8_len(s) > MAX_LOG {
        s.skip(drain_count(s, utf8_len(s) - MAX_LOG) as int)
    } else {
        s
    }
}

pub proof fn lemma_drain_count(s: Seq<char>, n: int)
    requires
        n <= utf8_len(s),
    ensures
        drain_count(s, n) <= s.len(),
        utf8_len(s.take(drain_count(s, n) as int)) >= n,
        utf8_len(s.skip(drain_count(s, n) as int)) + utf8_len(s.take(drain_count(s, n) as int))
            == utf8_len(s),
    decreases s.len(),
{
    if n > 0 && s.len() > 0 {
        let t = s.drop_first();
        let c = char_utf8_len(s[0]);
        lemma_drain_count(t, n - c);
        let k1 = drain_count(t, n - c) as int;
        assert(s.take(k1 + 1) =~= seq![s[0]] + t.take(k1));
        assert(s.skip(k1 + 1) =~= t.skip(k1));
        lemma_utf8_len_concat(seq![s[0]], t.take(k1));
        lemma_utf8_len_one(s[0]);
    } else {
        assert(s.take(0) =~= Seq::<char>::empty());
        assert(s.skip(0) =~= s);
        assert(utf8_len(Seq::<char>::empty()) == 0);
    }
}

proof fn lemma_utf8_len_one(c: char)
    ensures
        utf8_len(seq![c]) == char_utf8_len(c),
{
    assert(seq![c].drop_first() =~= Seq::<char>::empty());
    assert(utf8_len(Seq::<char>::empty()) == 0);
}

/// `drain_count` walks the text one char at a time.
proof fn lemma_drain_step(s: Seq<char>, k: int, n: int)
    requires
        0 <= k < s.len(),
        n > 0,
    ensures
        drain_count(s.skip(k), n) == 1 + drain_count(s.skip(k + 1), n - char_utf8_len(s[k])),
{
    assert(s.skip(k).drop_first() =~= s.skip(k + 1));
}

proof fn lemma_utf8_len_take_step(s: Seq<char>, k: int)
    requires
        0 <= k < s.len(),
    ensures
        utf8_len(s.take(k + 1)) == utf8_len(s.take(k)) + char_utf8_len(s[k]),
{
    assert(s.take(k + 1) =~= s.take(k) + seq![s[k]]);
    lemma_utf8_len_concat(s.take(k), seq![s[k]]);
    lemma_utf8_len_one(s[k]);
}

/// Byte length of a string, through `str::len`.
fn byte_len(s: &String) -> (n: usize)
    requires
        utf8_len(s@) <= usize::MAX,
    ensures
        n == utf8_len(s@),
{
    proof {
        lemma_utf8_len(s@);
    }
    s.as_str().len()
}

impl AppState {
    /// The state of a new window: both source filters on, sorted by popularity.
    pub fn new() -> (s: Self)
        ensures
            s.query@.len() == 0,
            s.raw_results@.len() == 0,
            s.results@.len() == 0,
            s.selected is None,
            s.detail is None,
            s.filter_repo,
            s.filter_aur,
            !s.filter_installed,
            s.sort == SortMode::Popularity,
            s.progress_log@.len() == 0,
            !s.log_expanded,
            !s.in_upgrades_view,
            s.active_stage is None,
            !s.install_local_requested,
    {
        AppState {
            query: String::new(),
            raw_results: Vec::new(),
            results: Vec::new(),
            selected: None,
            detail: None,
            filter_repo: true,
            filter_aur: true,
            filter_installed: false,
            sort: SortMode::Popularity,
            progress_log: String::new(),
            log_expanded: false,
            in_upgrades_view: false,
            active_stage: None,
            install_local_requested: false,
        }
    }

    /// Recomputes the shown list from the raw results and the current filters
    /// and sort order, and drops a selection that is no longer listed.
    pub fn refilter(&mut self)
        ensures
            refiltered(*old(self), *final(self)),
    {
        let v = filter_results(&self.raw_results, self.filter_repo, self.filter_aur, self.filter_installed);
        self.results = sort_summaries(v, self.sort);
        self.prune_selection();
    }

    fn prune_selection(&mut self)
        ensures
            ({
                let keep = match old(self).selected {
                    Some(sel) => lists(old(self).results@, sel),
                    None => true,
                };
                *final(self) == AppState {
                    selected: if keep { old(self).selected } else { None },
                    detail: if keep { old(self).detail } else { None },
                    ..*old(self)
                }
            }),
    {
        let found = match &self.selected {
            Some(sel) => {
                let mut i: usize = 0;
                let mut hit = false;
                while i < self.results.len() && !hit
                    invariant
                        i <= self.results.len(),
                        hit ==> lists(self.results@, *sel),
                        !hit ==> forall|j: int| 0 <= j < i ==> !(#[trigger] self.results@[j]).id.same(*sel),
                    decreases self.results.len() - i + if hit { 0int } else { 1int },
                {
                    if self.results[i].id.same_as(sel) {
                        hit = true;
                    } else {
                        i = i + 1;
                    }
                }
                hit
            },
            None => true,
        };
        if !found {
            self.selected = None;
            self.detail = None;
        }
    }

    /// Adds a line to the operation log, dropping its oldest text when it
    /// grows past `MAX_LOG` bytes.
    pub fn append_log(&mut self, line: &str)
        requires
            utf8_len(old(self).progress_log@) + utf8_len(line@) < usize::MAX,
        ensures
            final(self).progress_log@ == log_after(old(self).progress_log@, line@),
            utf8_len(final(self).progress_log@) <= MAX_LOG,
            *final(self) == (AppState { progress_log: final(self).progress_log, ..*old(self) }),
    {
        let ghost s0 = self.progress_log@;
        self.progress_log.append(line);
        self.progress_log.append("\n");
        let ghost s = self.progress_log@;
        proof {
            reveal_strlit("\n");
            assert("\n"@ =~= seq!['\n']);
            lemma_utf8_len_concat(s0, line@);
            lemma_utf8_len_concat(s0 + line@, seq!['\n']);
            lemma_utf8_len_one('\n');
            assert(s == s0 + line@ + seq!['\n']);
        }
        let len = byte_len(&self.progress_log);
        if len > MAX_LOG {
            let excess = len - MAX_LOG;
            let chars = chars_of(self.progress_log.as_str());
            let mut k: usize = 0;
            let mut dropped: usize = 0;
            proof {
                assert(s.skip(0) =~= s);
                assert(s.take(0) =~= Seq::<char>::empty());
            }
            while dropped < excess && k < chars.len()
                invariant
                    chars@ == s,
                    len == utf8_len(s),
                    excess <= len,
                    k <= chars.len(),
                    dropped == utf8_len(s.take(k as int)),
                    drain_count(s, excess as int) == k + drain_count(s.skip(k as int), excess - dropped),
                decreases chars.len() - k,
            {
                proof {
                    lemma_drain_step(s, k as int, excess - dropped);
                    lemma_utf8_len_take_step(s, k as int);
                    lemma_utf8_len_concat(s.take(k + 1), s.skip(k + 1));
                    assert(s.take(k + 1) + s.skip(k + 1) =~= s);
                }
                dropped = dropped + char_len_utf8(chars[k]);
                k = k + 1;
            }
            proof {
                if k == chars.len() {
                    assert(s.skip(k as int).len() == 0);
                }
                lemma_drain_count(s, excess as int);
            }
            self.progress_log = string_from_chars(&sub_vec(&chars, k, chars.len()));
            proof {
                assert(self.progress_log@ =~= s.skip(k as int));
            }
        }
    }
}

// ---------------------------------------------------------------------------
// Actions and what they ask for
// ---------------------------------------------------------------------------

/// What the user, or a message from the executor, does to the window.
pub enum Action {
    SetQuery(String),
    Search,
    Refresh,
    Upgrades,
    UpgradeAll,
    Upgrade(PackageId),
    Install(PackageId),
    Remove(PackageId),
    /// A progress message: its stage and its log line, if any.
    Progress { stage: Stage, log: Option<String> },
    Event(Event),
    Select(PackageId),
    ClearSelection,
    ToggleFilterRepo,
    ToggleFilterAur,
    ToggleFilterInstalled,
    SetSort(SortMode),
    ToggleLog,
    InstallLocal,
}

/// What the window asks of the world after an action.
pub enum Command {
    /// Queue a job for the executor under the given id.
    SendJob { id: u64, kind: JobKind, payload: JobPayload },
    /// Show an error notice.
    ShowSnackbar(String),
}

/// The window's state and the id the next job gets.
pub struct Store {
    pub state: AppState,
    pub next_id: u64,
}

/// The id after `n` (job ids count up and wrap around).
pub open spec fn next_job_id(n: u64) -> u64 {
    if n == u64::MAX {
        0
    } else {
        (n + 1) as u64
    }
}

pub open spec fn job(id: u64, kind: JobKind, payload: JobPayload) -> Command {
    Command::SendJob { id, kind, payload }
}

/// `c` queues the search job `n` for the text `q`.
pub open spec fn is_search_job(c: Command, n: u64, q: Seq<char>) -> bool {
    match c {
        Command::SendJob { id, kind, payload } => id == n && kind == JobKind::Search && match payload {
            JobPayload::Query(p) => p@ == q,
            _ => false,
        },
        _ => false,
    }
}

/// `c` shows a notice with the text `text`.
pub open spec fn is_notice(c: Command, text: Seq<char>) -> bool {
    match c {
        Command::ShowSnackbar(m) => m@ == text,
        _ => false,
    }
}

/// What showing the current view again asks for: the upgrade listing, or the
/// search for the query when it is not blank.
pub open spec fn refresh_view(st: AppState, n: u64) -> Seq<Command> {
    if st.in_upgrades_view {
        seq![job(n, JobKind::Upgrades, JobPayload::NoPayload)]
    } else if trim(st.query@).len() > 0 {
        seq![job(n, JobKind::Search, JobPayload::Query(st.query))]
    } else {
        seq![]
    }
}

/// The notice for a failed operation: its log line, trimmed, or a fixed text.
pub open spec fn failure_notice(log: Option<String>) -> Seq<char> {
    match log {
        Some(l) => if trim(l@).len() > 0 {
            trim(l@)
        } else {
            "operation failed"@
        },
        None => "operation failed"@,
    }
}

/// An action can be handled: the log with a new log line added stays
/// measurable in a `usize`.
pub open spec fn accepts(st: AppState, a: Action) -> bool {
    a matches Action::Progress { log: Some(l), .. } ==> utf8_len(st.progress_log@) + utf8_len(l@) < usize::MAX
}

/// The state and the requests after action `a` in state `s` with next job id `n`.
pub open spec fn dispatched(s: AppState, n: u64, a: Action, t: AppState, m: u64, cmds: Seq<Command>) -> bool {
    match a {
        Action::SetQuery(q) => t == (AppState { query: q, ..s }) && m == n && cmds.len() == 0,
        Action::Search => {
            let q = trim(s.query@);
            &&& cmds.len() == 1
            &&& is_search_job(cmds[0], n, q)
            &&& m == next_job_id(n)
            &&& if q.len() == 0 {
                &&& t.raw_results@.len() == 0
                &&& t.results@.len() == 0
                &&& t == (AppState {
                    in_upgrades_view: false,
                    detail: None,
                    raw_results: t.raw_results,
                    results: t.results,
                    selected: None,
                    ..s
                })
            } else {
                t == (AppState { in_upgrades_view: false, detail: None, ..s })
            }
        },
        Action::Refresh => {
            let more = refresh_view(s, next_job_id(n));
            &&& t == s
            &&& cmds == seq![job(n, JobKind::Refresh, JobPayload::NoPayload)] + more
            &&& m == if more.len() == 0 { next_job_id(n) } else { next_job_id(next_job_id(n)) }
        },
        Action::Upgrades => {
            &&& t == (AppState { in_upgrades_view: true, detail: None, ..s })
            &&& cmds == seq![job(n, JobKind::Upgrades, JobPayload::NoPayload)]
            &&& m == next_job_id(n)
        },
        Action::UpgradeAll => t == s && cmds == seq![job(n, JobKind::UpgradeAll, JobPayload::NoPayload)]
            && m == next_job_id(n),
        Action::Upgrade(id) => t == s && cmds == seq![job(n, JobKind::Upgrade, JobPayload::Package(id))]
            && m == next_job_id(n),
        Action::Install(id) => t == s && cmds == seq![job(n, JobKind::Install, JobPayload::Package(id))]
            && m == next_job_id(n),
        Action::Remove(id) => t == s && cmds == seq![job(n, JobKind::Remove, JobPayload::Package(id))]
            && m == next_job_id(n),
        Action::Progress { stage, log } => {
            let ended = stage == Stage::Finished || stage == Stage::Failed;
            &&& t.progress_log@ == match log {
                Some(l) => log_after(s.progress_log@, l@),
                None => s.progress_log@,
            }
            &&& t == (AppState {
                progress_log: t.progress_log,
                active_stage: if ended { None } else { Some(stage) },
                ..s
            })
            &&& m == n
            &&& if stage == Stage::Failed {
                cmds.len() == 1 && is_notice(cmds[0], failure_notice(log))
            } else {
                cmds.len() == 0
            }
        },
        Action::Event(e) => match e {
            Event::SearchResults { query, items } => {
                let mid = AppState { in_upgrades_view: false, raw_results: t.raw_results, ..s };
                &&& t.raw_results@ == matching(items@, lowercase(s.query@))
                &&& refiltered(mid, t)
                &&& m == n
                &&& cmds.len() == 0
            },
            Event::Upgrades { items } => {
                let mid = AppState { in_upgrades_view: true, raw_results: items, ..s };
                &&& t.results@ == shown_results(mid)
                &&& t == (AppState { results: t.results, selected: None, detail: None, ..mid })
                &&& m == n
                &&& cmds.len() == 0
            },
            Event::Details { item } => {
                let wanted = s.selected matches Some(sel) && sel.same(item.summary.id);
                &&& t == if wanted { AppState { detail: Some(item), ..s } } else { s }
                &&& m == n
                &&& cmds.len() == 0
            },
            Event::SystemChanged => {
                let more = refresh_view(s, n);
                &&& t == s
                &&& cmds == more
                &&& m == if more.len() == 0 { n } else { next_job_id(n) }
            },
            Event::Error(msg) => t == s && m == n && cmds == seq![Command::ShowSnackbar(msg)],
        },
        Action::Select(id) => {
            let same = s.selected matches Some(sel) && sel.same(id);
            &&& t == (AppState { selected: Some(id), detail: if same { s.detail } else { None }, ..s })
            &&& if same {
                cmds.len() == 0 && m == n
            } else {
                cmds == seq![job(n, JobKind::Details, JobPayload::Package(id))] && m == next_job_id(n)
            }
        },
        Action::ClearSelection => t == (AppState { selected: None, detail: None, ..s }) && m == n
            && cmds.len() == 0,
        Action::ToggleFilterRepo => refiltered(AppState { filter_repo: !s.filter_repo, ..s }, t) && m
            == n && cmds.len() == 0,
        Action::ToggleFilterAur => refiltered(AppState { filter_aur: !s.filter_aur, ..s }, t) && m == n
            && cmds.len() == 0,
        Action::ToggleFilterInstalled => refiltered(
            AppState { filter_installed: !s.filter_installed, ..s },
            t,
        ) && m == n && cmds.len() == 0,
        Action::SetSort(mode) => refiltered(AppState { sort: mode, ..s }, t) && m == n && cmds.len()
            == 0,
        Action::ToggleLog => t == (AppState { log_expanded: !s.log_expanded, ..s }) && m == n
            && cmds.len() == 0,
        Action::InstallLocal => t == (AppState { install_local_requested: true, ..s }) && m == n
            && cmds.len() == 0,
    }
}

impl Store {
    /// A new window, whose first job gets the id 1.
    pub fn new() -> (st: Self)
        ensures
            st.next_id == 1,
            st.state.query@.len() == 0,
            st.state.raw_results@.len() == 0,
            st.state.results@.len() == 0,
            st.state.selected is None,
            st.state.detail is None,
            st.state.filter_repo,
            st.state.filter_aur,
            !st.state.filter_installed,
            st.state.sort == SortMode::Popularity,
            st.state.progress_log@.len() == 0,
            !st.state.log_expanded,
            !st.state.in_upgrades_view,
            st.state.active_stage is None,
            !st.state.install_local_requested,
    {
        Store { state: AppState::new(), next_id: 1 }
    }

    fn jid(&mut self) -> (id: u64)
        ensures
            id == old(self).next_id,
            final(self).next_id == next_job_id(old(self).next_id),
            final(self).state == old(self).state,
    {
        let id = self.next_id;
        self.next_id = self.next_id.wrapping_add(1);
        id
    }

    /// Queues a job of `kind` with `payload` in `out`, under the store's next
    /// job id, and advances that id.
    pub fn send_job(&mut self, out: &mut Vec<Command>, kind: JobKind, payload: JobPayload)
        ensures
            final(out)@ == old(out)@.push(job(old(self).next_id, kind, payload)),
            final(self).next_id == next_job_id(old(self).next_id),
            final(self).state == old(self).state,
    {
        let id = self.jid();
        out.push(Command::SendJob { id, kind, payload });
    }

    fn refresh_current_view(&mut self, out: &mut Vec<Command>)
        ensures
            final(out)@ == old(out)@ + refresh_view(old(self).state, old(self).next_id),
            final(self).next_id == if refresh_view(old(self).state, old(self).next_id).len() == 0 {
                old(self).next_id
            } else {
                next_job_id(old(self).next_id)
            },
            final(self).state == old(self).state,
    {
        if self.state.in_upgrades_view {
            self.send_job(out, JobKind::Upgrades, JobPayload::NoPayload);
        } else if trim_str(self.state.query.as_str()).len() > 0 {
            let q = self.state.query.clone();
            self.send_job(out, JobKind::Search, JobPayload::Query(q));
        }
        proof {
            assert(out@ =~= old(out)@ + refresh_view(old(self).state, old(self).next_id));
        }
    }

    fn on_search(&mut self) -> (cmds: Vec<Command>)
        ensures
            dispatched(old(self).state, old(self).next_id, Action::Search, final(self).state, final(self).next_id, cmds@),
    {
        let mut out: Vec<Command> = Vec::new();
        self.state.in_upgrades_view = false;
        self.state.detail = None;
        let q = string_from_chars(&trim_str(self.state.query.as_str()));
        let blank = q.as_str().is_empty();
        self.send_job(&mut out, JobKind::Search, JobPayload::Query(q));
        if blank {
            self.state.raw_results = Vec::new();
            self.state.results = Vec::new();
            self.state.selected = None;
        }
        out
    }

    fn on_refresh(&mut self) -> (cmds: Vec<Command>)
        ensures
            dispatched(old(self).state, old(self).next_id, Action::Refresh, final(self).state, final(self).next_id, cmds@),
    {
        let mut out: Vec<Command> = Vec::new();
        self.send_job(&mut out, JobKind::Refresh, JobPayload::NoPayload);
        self.refresh_current_view(&mut out);
        proof {
            assert(out@ =~= seq![job(old(self).next_id, JobKind::Refresh, JobPayload::NoPayload)]
                + refresh_view(old(self).state, next_job_id(old(self).next_id)));
        }
        out
    }

    fn on_progress(&mut self, stage: Stage, log: Option<String>) -> (cmds: Vec<Command>)
        requires
            accepts(old(self).state, Action::Progress { stage, log }),
        ensures
            dispatched(
                old(self).state,
                old(self).next_id,
                Action::Progress { stage, log },
                final(self).state,
                final(self).next_id,
                cmds@,
            ),
            utf8_len(old(self).state.progress_log@) <= MAX_LOG ==> utf8_len(final(self).state.progress_log@) <= MAX_LOG,
    {
        let mut out: Vec<Command> = Vec::new();
        match &log {
            Some(l) => self.state.append_log(l.as_str()),
            None => {},
        }
        match stage {
            Stage::Finished | Stage::Failed => {
                self.state.active_stage = None;
            },
            _ => {
                self.state.active_stage = Some(stage);
            },
        }
        if stage == Stage::Failed {
            let msg = match &log {
                Some(l) => {
                    let t = trim_str(l.as_str());
                    if t.len() > 0 {
                        string_from_chars(&t)
                    } else {
                        "operation failed".to_owned()
                    }
                },
                None => "operation failed".to_owned(),
            };
            out.push(Command::ShowSnackbar(msg));
        }
        proof {
            reveal_strlit("operation failed");
        }
        out
    }

    fn on_event(&mut self, e: Event) -> (cmds: Vec<Command>)
        ensures
            dispatched(old(self).state, old(self).next_id, Action::Event(e), final(self).state, final(self).next_id, cmds@),
            final(self).state.progress_log == old(self).state.progress_log,
    {
        let mut out: Vec<Command> = Vec::new();
        match e {
            Event::SearchResults { query, items } => {
                self.state.in_upgrades_view = false;
                self.state.raw_results = matching_items(&items, self.state.query.as_str());
                self.state.refilter();
            },
            Event::Upgrades { items } => {
                self.state.in_upgrades_view = true;
                self.state.raw_results = items;
                self.state.refilter();
                self.state.selected = None;
                self.state.detail = None;
            },
            Event::Details { item } => {
                let wanted = match &self.state.selected {
                    Some(sel) => sel.same_as(&item.summary.id),
                    None => false,
                };
                if wanted {
                    self.state.detail = Some(item);
                }
            },
            Event::SystemChanged => {
                self.refresh_current_view(&mut out);
                proof {
                    assert(out@ =~= refresh_view(old(self).state, old(self).next_id));
                }
            },
            Event::Error(msg) => {
                out.push(Command::ShowSnackbar(msg));
            },
        }
        out
    }

    fn on_select(&mut self, id: PackageId) -> (cmds: Vec<Command>)
        ensures
            dispatched(old(self).state, old(self).next_id, Action::Select(id), final(self).state, final(self).next_id, cmds@),
    {
        let mut out: Vec<Command> = Vec::new();
        let same = match &self.state.selected {
            Some(sel) => sel.same_as(&id),
            None => false,
        };
        if !same {
            self.state.detail = None;
            let id2 = id.clone();
            self.send_job(&mut out, JobKind::Details, JobPayload::Package(id2));
        }
        self.state.selected = Some(id);
        out
    }

    fn on_job(&mut self, kind: JobKind, payload: JobPayload) -> (cmds: Vec<Command>)
        ensures
            cmds@ == seq![job(old(self).next_id, kind, payload)],
            final(self).next_id == next_job_id(old(self).next_id),
            final(self).state == old(self).state,
    {
        let mut out: Vec<Command> = Vec::new();
        self.send_job(&mut out, kind, payload);
        assert(out@ =~= seq![job(old(self).next_id, kind, payload)]);
        out
    }

    /// Applies an action to the window and returns the jobs and notices it asks for.
    pub fn dispatch(&mut self, a: Action) -> (cmds: Vec<Command>)
        requires
            accepts(old(self).state, a),
        ensures
            dispatched(old(self).state, old(self).next_id, a, final(self).state, final(self).next_id, cmds@),
            utf8_len(old(self).state.progress_log@) <= MAX_LOG ==> utf8_len(final(self).state.progress_log@) <= MAX_LOG,
    {
        match a {
            Action::SetQuery(q) => {
                self.state.query = q;
                Vec::new()
            },
            Action::Search => self.on_search(),
            Action::Refresh => self.on_refresh(),
            Action::Upgrades => {
                self.state.in_upgrades_view = true;
                self.state.detail = None;
                self.on_job(JobKind::Upgrades, JobPayload::NoPayload)
            },
            Action::UpgradeAll => self.on_job(JobKind::UpgradeAll, JobPayload::NoPayload),
            Action::Upgrade(id) => self.on_job(JobKind::Upgrade, JobPayload::Package(id)),
            Action::Install(id) => self.on_job(JobKind::Install, JobPayload::Package(id)),
            Action::Remove(id) => self.on_job(JobKind::Remove, JobPayload::Package(id)),
            Action::Progress { stage, log } => self.on_progress(stage, log),
            Action::Event(e) => self.on_event(e),
            Action::Select(id) => self.on_select(id),
            Action::ClearSelection => {
                self.state.selected = None;
                self.state.detail = None;
                Vec::new()
            },
            Action::ToggleFilterRepo => {
                self.state.filter_repo = !self.state.filter_repo;
                self.state.refilter();
                Vec::new()
            },
            Action::ToggleFilterAur => {
                self.state.filter_aur = !self.state.filter_aur;
                self.state.refilter();
                Vec::new()
            },
            Action::ToggleFilterInstalled => {
                self.state.filter_installed = !self.state.filter_installed;
                self.state.refilter();
                Vec::new()
            },
            Action::SetSort(mode) => {
                self.state.sort = mode;
                self.state.refilter();
                Vec::new()
            },
            Action::ToggleLog => {
                self.state.log_expanded = !self.state.log_expanded;
                Vec::new()
            },
            Action::InstallLocal => {
                self.state.install_local_requested = true;
                Vec::new()
            },
        }
    }
}

// ---------------------------------------------------------------------------
// Badges and the package database watcher
// ---------------------------------------------------------------------------

/// The fixed badge colours (foreground, background) of the well-known repositories.
pub open spec fn known_colors(repo: Seq<char>) -> Option<(Seq<char>, Seq<char>)> {
    if repo == "core"@ {
        Some(("#FCD34D"@, "#451A03"@))
    } else if repo == "extra"@ {
        Some(("#60A5FA"@, "#1E3A5F"@))
    } else if repo == "community"@ {
        Some(("#34D399"@, "#064E3B"@))
    } else if repo == "multilib"@ {
        Some(("#F472B6"@, "#4A0E4E"@))
    } else if repo == "testing"@ {
        Some(("#FBBF24"@, "#422006"@))
    } else {
        None
    }
}

/// The badge colours of a well-known repository; other repositories get
/// colours derived from their name's hash.
pub fn known_repo_colors(repo: &str) -> (r: Option<(String, String)>)
    ensures
        match known_colors(repo@) {
            Some((fg, bg)) => r matches Some((a, b)) && a@ == fg && b@ == bg,
            None => r is None,
        },
{
    if crate::text::str_eq(repo, "core") {
        Some(("#FCD34D".to_owned(), "#451A03".to_owned()))
    } else if crate::text::str_eq(repo, "extra") {
        Some(("#60A5FA".to_owned(), "#1E3A5F".to_owned()))
    } else if crate::text::str_eq(repo, "community") {
        Some(("#34D399".to_owned(), "#064E3B".to_owned()))
    } else if crate::text::str_eq(repo, "multilib") {
        Some(("#F472B6".to_owned(), "#4A0E4E".to_owned()))
    } else if crate::text::str_eq(repo, "testing") {
        Some(("#FBBF24".to_owned(), "#422006".to_owned()))
    } else {
        None
    }
}

/// The kind of a change that the file watcher reports under the local package database.
#[derive(Clone, Copy, Debug, PartialEq, Eq, Structural)]
pub enum DbChange {
    CreateFolder,
    RemoveFolder,
    Rename,
    CreateFile,
    RemoveFile,
    Other,
}

/// Where a changed path lies: below the local database folder, directly in
/// it, and whether its file name is `desc`.
#[derive(Clone, Copy, Debug)]
pub struct DbPath {
    pub under_db: bool,
    pub parent_is_db: bool,
    pub is_desc: bool,
}

/// A change of this kind to this path means that the installed packages changed:
/// a package folder created or removed, anything renamed, or a `desc` file
/// created or removed.
pub open spec fn path_relevant(kind: DbChange, p: DbPath) -> bool {
    p.under_db && match kind {
        DbChange::CreateFolder | DbChange::RemoveFolder => p.parent_is_db,
        DbChange::Rename => true,
        DbChange::CreateFile | DbChange::RemoveFile => p.is_desc,
        DbChange::Other => false,
    }
}

/// Whether a reported change should refresh the window: one of its paths is relevant.
/// The least time between two refreshes that changes of the package
/// database start, in milliseconds.
pub const REFRESH_COOLDOWN_MS: u64 = 1200;

/// Whether a relevant change of the package database starts a refresh, when
/// `elapsed_ms` milliseconds have passed since the last one started: only
/// once the cooldown has passed.
pub fn refresh_due(elapsed_ms: u64) -> (r: bool)
    ensures
        r == (elapsed_ms >= REFRESH_COOLDOWN_MS),
{
    elapsed_ms >= REFRESH_COOLDOWN_MS
}

pub fn db_change_relevant(kind: DbChange, paths: &Vec<DbPath>) -> (r: bool)
    ensures
        r == exists|i: int| 0 <= i < paths@.len() && path_relevant(kind, #[trigger] paths@[i]),
{
    if kind == DbChange::Other {
        return false;
    }
    let mut i: usize = 0;
    while i < paths.len()
        invariant
            i <= paths.len(),
            forall|j: int| 0 <= j < i ==> !path_relevant(kind, #[trigger] paths@[j]),
        decreases paths.len() - i,
    {
        let p = paths[i];
        let hit = p.under_db && match kind {
            DbChange::CreateFolder | DbChange::RemoveFolder => p.parent_is_db,
            DbChange::Rename => true,
            DbChange::CreateFile | DbChange::RemoveFile => p.is_desc,
            DbChange::Other => false,
        };
        if hit {
            return true;
        }
        i = i + 1;
    }
    false
}

// ---------------------------------------------------------------------------
// Laws
// ---------------------------------------------------------------------------

/// Every element of the filtered list passes the filters and comes from the raw list.
pub proof fn lemma_filtered(raw: Seq<PackageSummary>, repo: bool, aur: bool, installed_only: bool)
    ensures
        forall|i: int|
            0 <= i < filtered(raw, repo, aur, installed_only).len() ==> passes_filters(
                #[trigger] filtered(raw, repo, aur, installed_only)[i],
                repo,
                aur,
                installed_only,
            ) && raw.contains(filtered(raw, repo, aur, installed_only)[i]),
        filtered(raw, repo, aur, installed_only).len() <= raw.len(),
    decreases raw.len(),
{
    if raw.len() > 0 {
        let rest = raw.drop_last();
        lemma_filtered(rest, repo, aur, installed_only);
        let f = filtered(raw, repo, aur, installed_only);
        assert forall|i: int| 0 <= i < f.len() implies passes_filters(#[trigger] f[i], repo, aur, installed_only)
            && raw.contains(f[i]) by {
            let fr = filtered(rest, repo, aur, installed_only);
            if i < fr.len() {
                let w = choose|w: int| 0 <= w < rest.len() && rest[w] == fr[i];
                assert(raw[w] == f[i]);
            } else {
                assert(raw[raw.len() - 1] == f[i]);
            }
        }
    }
}

/// The shown list is sorted by the chosen order, holds exactly the raw results
/// that pass the filters (as often as they occur there), and nothing else.
pub proof fn lemma_shown_results(st: AppState)
    ensures
        sorted(shown_results(st), st.sort),
        shown_results(st).to_multiset() == filtered(
            st.raw_results@,
            st.filter_repo,
            st.filter_aur,
            st.filter_installed,
        ).to_multiset(),
        forall|x: PackageSummary|
            shown_results(st).contains(x) ==> passes_filters(x, st.filter_repo, st.filter_aur, st.filter_installed)
                && st.raw_results@.contains(x),
{
    let f = filtered(st.raw_results@, st.filter_repo, st.filter_aur, st.filter_installed);
    lemma_stable_sort_sorted(f, st.sort);
    lemma_stable_sort_permutes(f, st.sort);
    lemma_filtered(st.raw_results@, st.filter_repo, st.filter_aur, st.filter_installed);
    assert forall|x: PackageSummary| shown_results(st).contains(x) implies passes_filters(
        x,
        st.filter_repo,
        st.filter_aur,
        st.filter_installed,
    ) && st.raw_results@.contains(x) by {
        broadcast use vstd::seq_lib::group_to_multiset_ensures;

        assert(shown_results(st).to_multiset().count(x) > 0);
        assert(f.to_multiset().count(x) > 0);
        let i = choose|i: int| 0 <= i < f.len() && f[i] == x;
    }
}

proof fn lemma_filtered_keeps(raw: Seq<PackageSummary>, repo: bool, aur: bool, installed_only: bool, x: PackageSummary)
    requires
        raw.contains(x),
        passes_filters(x, repo, aur, installed_only),
    ensures
        filtered(raw, repo, aur, installed_only).contains(x),
    decreases raw.len(),
{
    let rest = raw.drop_last();
    let f = filtered(raw, repo, aur, installed_only);
    if raw.last() == x {
        assert(f.last() == x);
    } else {
        let w = choose|w: int| 0 <= w < raw.len() && raw[w] == x;
        assert(rest[w] == x);
        lemma_filtered_keeps(rest, repo, aur, installed_only, x);
        let fr = filtered(rest, repo, aur, installed_only);
        let k = choose|k: int| 0 <= k < fr.len() && fr[k] == x;
        assert(f[k] == x);
    }
}

/// The shown list holds exactly the raw results whose source is shown (the
/// repositories with the repository filter on, the AUR with the AUR filter
/// on) and that are installed when only installed packages are shown.
pub proof fn lemma_shown_by_fields(st: AppState)
    ensures
        forall|x: PackageSummary|
            #[trigger] shown_results(st).contains(x) ==> {
                &&& st.raw_results@.contains(x)
                &&& st.filter_installed ==> x.installed
                &&& (st.filter_repo && x.id.source == Source::Repo) || (st.filter_aur && x.id.source == Source::Aur)
            },
        forall|x: PackageSummary|
            #[trigger] st.raw_results@.contains(x) && (st.filter_installed ==> x.installed) && ((st.filter_repo
                && x.id.source == Source::Repo) || (st.filter_aur && x.id.source == Source::Aur))
                ==> shown_results(st).contains(x),
{
    lemma_shown_results(st);
    let f = filtered(st.raw_results@, st.filter_repo, st.filter_aur, st.filter_installed);
    assert forall|x: PackageSummary|
        #[trigger] st.raw_results@.contains(x) && (st.filter_installed ==> x.installed) && ((st.filter_repo
            && x.id.source == Source::Repo) || (st.filter_aur && x.id.source == Source::Aur))
            implies shown_results(st).contains(x) by {
        broadcast use vstd::seq_lib::group_to_multiset_ensures;

        lemma_filtered_keeps(st.raw_results@, st.filter_repo, st.filter_aur, st.filter_installed, x);
        assert(f.to_multiset().count(x) > 0);
        assert(shown_results(st).to_multiset().count(x) > 0);
    }
}

/// After the list is recomputed, no package that is not installed is shown
/// while only installed packages are shown.
pub proof fn lemma_refilter_installed_only(old: AppState, new: AppState)
    requires
        refiltered(old, new),
        old.filter_installed,
    ensures
        forall|i: int| 0 <= i < new.results@.len() ==> (#[trigger] new.results@[i]).installed,
{
    lemma_shown_by_fields(old);
    assert forall|i: int| 0 <= i < new.results@.len() implies (#[trigger] new.results@[i]).installed by {
        assert(shown_results(old).contains(new.results@[i]));
    }
}

/// After the list is recomputed, a remaining selection is one of the listed packages.
pub proof fn lemma_refilter_keeps_selection_listed(old: AppState, new: AppState)
    requires
        refiltered(old, new),
    ensures
        new.selected matches Some(sel) ==> lists(new.results@, sel),
        old.selected is Some && new.selected is None ==> new.detail is None,
{
}

/// Every action keeps the shown list equal to the raw results under the
/// current filters and order.
pub proof fn lemma_dispatch_keeps_shown_list(
    s: AppState,
    n: u64,
    a: Action,
    t: AppState,
    m: u64,
    cmds: Seq<Command>,
)
    requires
        s.results@ == shown_results(s),
        dispatched(s, n, a, t, m, cmds),
    ensures
        t.results@ == shown_results(t),
{
    if a is Search && trim(s.query@).len() == 0 {
        assert(t.raw_results@ =~= Seq::<PackageSummary>::empty());
        assert(t.results@ =~= Seq::<PackageSummary>::empty());
        assert(filtered(t.raw_results@, t.filter_repo, t.filter_aur, t.filter_installed) =~= seq![]);
    }
}

/// The ids of the jobs that a list of requests queues, in order.
pub open spec fn job_ids(cmds: Seq<Command>) -> Seq<u64>
    decreases cmds.len(),
{
    if cmds.len() == 0 {
        seq![]
    } else {
        job_ids(cmds.drop_last()) + match cmds.last() {
            Command::SendJob { id, .. } => seq![id],
            _ => seq![],
        }
    }
}

/// `k` job ids counting up from `n`.
pub open spec fn ids_from(n: u64, k: nat) -> Seq<u64>
    decreases k,
{
    if k == 0 {
        seq![]
    } else {
        seq![n] + ids_from(next_job_id(n), (k - 1) as nat)
    }
}

/// The next job id after `k` jobs were given ids from `n`.
pub open spec fn advance(n: u64, k: nat) -> u64
    decreases k,
{
    if k == 0 {
        n
    } else {
        advance(next_job_id(n), (k - 1) as nat)
    }
}

/// All requests of a run of actions, one after the other.
pub open spec fn all_requests(cmds: Seq<Seq<Command>>) -> Seq<Command>
    decreases cmds.len(),
{
    if cmds.len() == 0 {
        seq![]
    } else {
        all_requests(cmds.drop_last()) + cmds.last()
    }
}

proof fn lemma_job_ids_concat(a: Seq<Command>, b: Seq<Command>)
    ensures
        job_ids(a + b) == job_ids(a) + job_ids(b),
    decreases b.len(),
{
    if b.len() == 0 {
        assert(a + b =~= a);
        assert(job_ids(a) + job_ids(b) =~= job_ids(a));
    } else {
        lemma_job_ids_concat(a, b.drop_last());
        assert((a + b).drop_last() =~= a + b.drop_last());
        assert((a + b).last() == b.last());
        assert(job_ids(a + b) =~= job_ids(a) + job_ids(b));
    }
}

proof fn lemma_ids_from_split(n: u64, j: nat, k: nat)
    ensures
        ids_from(n, j + k) == ids_from(n, j) + ids_from(advance(n, j), k),
        advance(n, j + k) == advance(advance(n, j), k),
    decreases j,
{
    if j == 0 {
        assert(ids_from(n, 0) + ids_from(n, k) =~= ids_from(n, k));
    } else {
        lemma_ids_from_split(next_job_id(n), (j - 1) as nat, k);
        assert((j + k - 1) as nat == ((j - 1) as nat + k) as nat);
        assert(ids_from(n, j + k) =~= ids_from(n, j) + ids_from(advance(n, j), k));
    }
}

/// One action queues jobs with the ids counting up from the store's next id,
/// and leaves the next id after them.
proof fn lemma_dispatch_job_ids(s: AppState, n: u64, a: Action, t: AppState, m: u64, cmds: Seq<Command>)
    requires
        dispatched(s, n, a, t, m, cmds),
    ensures
        job_ids(cmds) == ids_from(n, job_ids(cmds).len()),
        m == advance(n, job_ids(cmds).len()),
{
    reveal_with_fuel(job_ids, 3);
    reveal_with_fuel(ids_from, 3);
    reveal_with_fuel(advance, 3);
    if cmds.len() == 1 {
        assert(cmds.drop_last() =~= Seq::<Command>::empty());
    } else if cmds.len() == 2 {
        assert(cmds.drop_last().drop_last() =~= Seq::<Command>::empty());
        assert(cmds.drop_last() =~= seq![cmds[0]]);
    }
    match a {
        Action::Refresh => {
            if cmds.len() == 2 {
                assert(cmds[1] == refresh_view(s, next_job_id(n))[0]);
            }
        },
        Action::Event(e) => {
            match e {
                Event::SystemChanged => {
                    if cmds.len() == 1 {
                        assert(cmds[0] == refresh_view(s, n)[0]);
                    }
                },
                _ => {},
            }
        },
        _ => {},
    }
}

/// Job ids count up over a run of actions: the jobs that any run of actions
/// queues (each action handled as `dispatched` says, from the store's next id
/// `ids[0]`) have the ids `ids[0]`, the id after it, and so on, in the order
/// in which they are queued; the store's next id is then the id after the last.
pub proof fn lemma_job_ids_count_up(
    states: Seq<AppState>,
    ids: Seq<u64>,
    actions: Seq<Action>,
    cmds: Seq<Seq<Command>>,
)
    requires
        states.len() == ids.len() == actions.len() + 1,
        cmds.len() == actions.len(),
        forall|i: int|
            0 <= i < actions.len() ==> dispatched(
                #[trigger] states[i],
                ids[i],
                actions[i],
                states[i + 1],
                ids[i + 1],
                cmds[i],
            ),
    ensures
        job_ids(all_requests(cmds)) == ids_from(ids[0], job_ids(all_requests(cmds)).len()),
        ids.last() == advance(ids[0], job_ids(all_requests(cmds)).len()),
    decreases actions.len(),
{
    let k = actions.len();
    if k == 0 {
        assert(job_ids(all_requests(cmds)) =~= Seq::<u64>::empty());
    } else {
        let j = (k - 1) as int;
        lemma_job_ids_count_up(states.drop_last(), ids.drop_last(), actions.drop_last(), cmds.drop_last());
        assert(dispatched(states[j], ids[j], actions[j], states[j + 1], ids[j + 1], cmds[j]));
        lemma_dispatch_job_ids(states[j], ids[j], actions[j], states[j + 1], ids[j + 1], cmds[j]);
        let before = all_requests(cmds.drop_last());
        assert(all_requests(cmds) == before + cmds[j]);
        lemma_job_ids_concat(before, cmds[j]);
        let p = job_ids(before).len();
        let q = job_ids(cmds[j]).len();
        assert(ids.drop_last().last() == ids[j]);
        lemma_ids_from_split(ids[0], p, q);
        assert(job_ids(all_requests(cmds)).len() == p + q);
    }
}

/// The jobs of `kinds` with `payloads`, under ids counting up from `n`.
pub open spec fn jobs_from(n: u64, kinds: Seq<JobKind>, payloads: Seq<JobPayload>) -> Seq<Command> {
    Seq::new(kinds.len(), |i: int| job(ids_from(n, kinds.len())[i], kinds[i], payloads[i]))
}

proof fn lemma_ids_from_len(n: u64, k: nat)
    ensures
        ids_from(n, k).len() == k,
    decreases k,
{
    if k > 0 {
        lemma_ids_from_len(next_job_id(n), (k - 1) as nat);
    }
}

/// Job ids count up over a run of sends: when each send queues its job under
/// the store's next id and advances that id, leaving the window's state as it
/// is (as `Store::send_job` does), the jobs are queued in call order with ids
/// counting up from the first, and the state is unchanged.
pub proof fn lemma_sends_count_up(
    states: Seq<AppState>,
    ids: Seq<u64>,
    queued: Seq<Seq<Command>>,
    kinds: Seq<JobKind>,
    payloads: Seq<JobPayload>,
)
    requires
        states.len() == ids.len() == queued.len() == kinds.len() + 1,
        payloads.len() == kinds.len(),
        forall|i: int|
            0 <= i < kinds.len() ==> #[trigger] queued[i + 1] == queued[i].push(job(ids[i], kinds[i], payloads[i]))
                && ids[i + 1] == next_job_id(ids[i]) && states[i + 1] == states[i],
    ensures
        queued.last() == queued[0] + jobs_from(ids[0], kinds, payloads),
        ids.last() == advance(ids[0], kinds.len()),
        states.last() == states[0],
    decreases kinds.len(),
{
    let k = kinds.len();
    if k == 0 {
        assert(queued[0] + jobs_from(ids[0], kinds, payloads) =~= queued[0]);
    } else {
        let j = (k - 1) as int;
        lemma_sends_count_up(states.drop_last(), ids.drop_last(), queued.drop_last(), kinds.drop_last(), payloads.drop_last());
        assert(queued[j + 1] == queued[j].push(job(ids[j], kinds[j], payloads[j])));
        lemma_ids_from_split(ids[0], (k - 1) as nat, 1);
        lemma_ids_from_len(ids[0], (k - 1) as nat);
        lemma_ids_from_len(ids[0], k);
        let a = ids_from(ids[0], (k - 1) as nat);
        let b = ids_from(ids[0], k);
        assert(ids_from(advance(ids[0], (k - 1) as nat), 1) =~= seq![advance(ids[0], (k - 1) as nat)]);
        assert(b =~= a.push(ids[j]));
        assert(jobs_from(ids[0], kinds, payloads) =~= jobs_from(ids[0], kinds.drop_last(), payloads.drop_last()).push(
            job(ids[j], kinds[j], payloads[j]),
        ));
        assert(queued.last() =~= queued[0] + jobs_from(ids[0], kinds, payloads));
        let c = advance(ids[0], (k - 1) as nat);
        assert(advance(c, 1) == advance(next_job_id(c), 0));
        assert(((k - 1) as nat + 1) as nat == k);
        assert(advance(ids[0], k) == next_job_id(c));
    }
}

/// A failed operation always raises a notice with some text.
pub proof fn lemma_failure_notice_not_blank(log: Option<String>)
    ensures
        failure_notice(log).len() > 0,
{
    reveal_strlit("operation failed");
}

/// The log never holds more than `MAX_LOG` bytes after a line is added.
pub proof fn lemma_log_after_bounded(log: Seq<char>, line: Seq<char>)
    ensures
        utf8_len(log_after(log, line)) <= MAX_LOG,
        utf8_len(log + line + seq!['\n']) <= MAX_LOG ==> log_after(log, line) == log + line + seq!['\n'],
{
    let s = log + line + seq!['\n'];
    if utf8_len(s) > MAX_LOG {
        lemma_drain_count(s, utf8_len(s) - MAX_LOG);
    }
}

} // verus!

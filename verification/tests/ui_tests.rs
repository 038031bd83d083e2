use soredowe::model::{Event, JobKind, JobPayload, PackageDetails, PackageId, PackageSummary, Source, Stage};
use soredowe::sorting::SortMode;
use soredowe::ui::{db_change_relevant, known_repo_colors, refresh_due, Action, AppState, Command, DbChange, DbPath, Store, MAX_LOG};

fn summary(name: &str, source: Source, installed: bool, popular: Option<u32>, desc: &str) -> PackageSummary {
    PackageSummary {
        id: PackageId { name: name.into(), source, repo: None },
        version: "1".into(),
        description: desc.into(),
        installed,
        popular,
        last_updated: None,
    }
}

fn names(v: &[PackageSummary]) -> Vec<&str> {
    v.iter().map(|p| p.id.name.as_str()).collect()
}

fn job(c: &Command) -> (u64, JobKind, String) {
    match c {
        Command::SendJob { id, kind, payload } => {
            let p = match payload {
                JobPayload::NoPayload => String::new(),
                JobPayload::Query(q) => format!("q:{q}"),
                JobPayload::Package(p) => format!("p:{}", p.name),
                JobPayload::InstallFile(f) => format!("f:{f}"),
            };
            (*id, *kind, p)
        }
        Command::ShowSnackbar(m) => panic!("unexpected notice {m}"),
    }
}

#[test]
fn new_window_state() {
    let s = Store::new();
    assert_eq!(s.next_id, 1);
    assert!(s.state.filter_repo && s.state.filter_aur && !s.state.filter_installed);
    assert_eq!(s.state.sort, SortMode::Popularity);
    assert!(s.state.query.is_empty() && s.state.results.is_empty());
}

#[test]
fn blank_search_clears_results() {
    let mut s = Store::new();
    s.state.raw_results = vec![summary("a", Source::Repo, false, None, "")];
    s.state.refilter();
    assert_eq!(s.state.results.len(), 1);
    s.dispatch(Action::SetQuery("   ".into()));
    let cmds = s.dispatch(Action::Search);
    assert_eq!(cmds.len(), 1);
    assert_eq!(job(&cmds[0]), (1, JobKind::Search, "q:".into()));
    assert!(s.state.raw_results.is_empty() && s.state.results.is_empty() && s.state.selected.is_none());
    assert_eq!(s.next_id, 2);
}

#[test]
fn search_sends_trimmed_query() {
    let mut s = Store::new();
    s.dispatch(Action::SetQuery("  vim ".into()));
    let cmds = s.dispatch(Action::Search);
    assert_eq!(job(&cmds[0]), (1, JobKind::Search, "q:vim".into()));
    assert!(!s.state.in_upgrades_view);
}

#[test]
fn search_results_are_filtered_and_sorted() {
    let mut s = Store::new();
    s.dispatch(Action::SetQuery("VIM".into()));
    let items = vec![
        summary("vim", Source::Repo, true, Some(1), "editor"),
        summary("neovim", Source::Aur, false, Some(50), "vim fork"),
        summary("emacs", Source::Repo, false, Some(90), "other editor"),
        summary("vim-flat", Source::Flatpak, false, Some(99), ""),
    ];
    s.dispatch(Action::Event(Event::SearchResults { query: "vim".into(), items }));
    assert_eq!(names(&s.state.raw_results), vec!["vim", "neovim", "vim-flat"]);
    assert_eq!(names(&s.state.results), vec!["neovim", "vim"]);
    s.dispatch(Action::SetSort(SortMode::NameAsc));
    assert_eq!(names(&s.state.results), vec!["neovim", "vim"]);
    s.dispatch(Action::SetSort(SortMode::NameDesc));
    assert_eq!(names(&s.state.results), vec!["vim", "neovim"]);
    s.dispatch(Action::ToggleFilterInstalled);
    assert_eq!(names(&s.state.results), vec!["vim"]);
    s.dispatch(Action::ToggleFilterInstalled);
    s.dispatch(Action::ToggleFilterAur);
    assert_eq!(names(&s.state.results), vec!["vim"]);
}

#[test]
fn popularity_sort_is_stable() {
    let mut st = AppState::new();
    st.raw_results = vec![
        summary("b", Source::Repo, false, None, ""),
        summary("a", Source::Repo, false, Some(0), ""),
        summary("c", Source::Aur, false, Some(3), ""),
    ];
    st.refilter();
    assert_eq!(names(&st.results), vec!["c", "b", "a"]);
}

#[test]
fn selection_and_details() {
    let mut s = Store::new();
    s.dispatch(Action::Event(Event::Upgrades { items: vec![summary("a", Source::Repo, true, None, "")] }));
    assert!(s.state.in_upgrades_view);
    let id = PackageId { name: "a".into(), source: Source::Repo, repo: None };
    let cmds = s.dispatch(Action::Select(id.clone()));
    assert_eq!(job(&cmds[0]), (1, JobKind::Details, "p:a".into()));
    assert!(s.dispatch(Action::Select(id.clone())).is_empty());
    let det = PackageDetails {
        summary: summary("a", Source::Repo, true, None, ""),
        description: None,
        depends: vec![],
        opt_depends: vec![],
        homepage: None,
        license: None,
        maintainer: None,
        developer: None,
        size_install: None,
        size_download: None,
    };
    s.dispatch(Action::Event(Event::Details { item: det.clone() }));
    assert!(s.state.detail.is_some());
    let mut other = det;
    other.summary.id.name = "zzz".into();
    s.state.detail = None;
    s.dispatch(Action::Event(Event::Details { item: other }));
    assert!(s.state.detail.is_none());
    s.dispatch(Action::ToggleFilterRepo);
    assert!(s.state.results.is_empty());
    assert!(s.state.selected.is_none());
}

#[test]
fn refresh_and_system_changes() {
    let mut s = Store::new();
    let cmds = s.dispatch(Action::Refresh);
    assert_eq!(cmds.len(), 1);
    assert_eq!(job(&cmds[0]).1, JobKind::Refresh);
    s.dispatch(Action::SetQuery(" zsh".into()));
    let cmds = s.dispatch(Action::Refresh);
    assert_eq!(job(&cmds[0]), (2, JobKind::Refresh, "".into()));
    assert_eq!(job(&cmds[1]), (3, JobKind::Search, "q: zsh".into()));
    s.dispatch(Action::Upgrades);
    let cmds = s.dispatch(Action::Event(Event::SystemChanged));
    assert_eq!(job(&cmds[0]), (5, JobKind::Upgrades, "".into()));
}

#[test]
fn package_jobs() {
    let mut s = Store::new();
    let id = PackageId { name: "x".into(), source: Source::Aur, repo: None };
    assert_eq!(job(&s.dispatch(Action::Install(id.clone()))[0]), (1, JobKind::Install, "p:x".into()));
    assert_eq!(job(&s.dispatch(Action::Remove(id.clone()))[0]), (2, JobKind::Remove, "p:x".into()));
    assert_eq!(job(&s.dispatch(Action::Upgrade(id))[0]), (3, JobKind::Upgrade, "p:x".into()));
    assert_eq!(job(&s.dispatch(Action::UpgradeAll)[0]), (4, JobKind::UpgradeAll, "".into()));
}

#[test]
fn job_ids_wrap() {
    let mut s = Store::new();
    s.next_id = u64::MAX;
    let cmds = s.dispatch(Action::UpgradeAll);
    assert_eq!(job(&cmds[0]).0, u64::MAX);
    assert_eq!(s.next_id, 0);
}

#[test]
fn progress_and_failure_notice() {
    let mut s = Store::new();
    let cmds = s.dispatch(Action::Progress { stage: Stage::Downloading, log: Some("get x".into()) });
    assert!(cmds.is_empty());
    assert_eq!(s.state.active_stage, Some(Stage::Downloading));
    assert_eq!(s.state.progress_log, "get x\n");
    let cmds = s.dispatch(Action::Progress { stage: Stage::Failed, log: Some("  boom \n".into()) });
    assert!(matches!(&cmds[0], Command::ShowSnackbar(m) if m == "boom"));
    assert_eq!(s.state.active_stage, None);
    let cmds = s.dispatch(Action::Progress { stage: Stage::Failed, log: None });
    assert!(matches!(&cmds[0], Command::ShowSnackbar(m) if m == "operation failed"));
    let cmds = s.dispatch(Action::Progress { stage: Stage::Finished, log: None });
    assert!(cmds.is_empty());
    let cmds = s.dispatch(Action::Event(Event::Error("aur search failed: x".into())));
    assert!(matches!(&cmds[0], Command::ShowSnackbar(m) if m == "aur search failed: x"));
}

#[test]
fn log_is_bounded() {
    let mut st = AppState::new();
    let long = "é".repeat(MAX_LOG / 2 + 10);
    st.append_log(&long);
    assert!(st.progress_log.len() <= MAX_LOG);
    assert!(st.progress_log.ends_with("é\n"));
    assert!(st.progress_log.len() >= MAX_LOG - 1);
    st.append_log("tail");
    assert!(st.progress_log.len() <= MAX_LOG);
    assert!(st.progress_log.ends_with("tail\n"));
}

#[test]
fn toggles() {
    let mut s = Store::new();
    s.dispatch(Action::ToggleLog);
    assert!(s.state.log_expanded);
    s.dispatch(Action::InstallLocal);
    assert!(s.state.install_local_requested);
    s.state.selected = Some(PackageId { name: "a".into(), source: Source::Repo, repo: None });
    s.dispatch(Action::ClearSelection);
    assert!(s.state.selected.is_none());
}

#[test]
fn repo_badge_colours() {
    assert_eq!(known_repo_colors("core"), Some(("#FCD34D".to_string(), "#451A03".to_string())));
    assert_eq!(known_repo_colors("chaotic"), None);
}

#[test]
fn database_watch_relevance() {
    let p = |under_db, parent_is_db, is_desc| DbPath { under_db, parent_is_db, is_desc };
    assert!(db_change_relevant(DbChange::CreateFolder, &vec![p(true, true, false)]));
    assert!(!db_change_relevant(DbChange::CreateFolder, &vec![p(true, false, false)]));
    assert!(db_change_relevant(DbChange::Rename, &vec![p(false, false, false), p(true, false, false)]));
    assert!(db_change_relevant(DbChange::RemoveFile, &vec![p(true, false, true)]));
    assert!(!db_change_relevant(DbChange::CreateFile, &vec![p(true, true, false)]));
    assert!(!db_change_relevant(DbChange::Other, &vec![p(true, true, true)]));
    assert!(!db_change_relevant(DbChange::Rename, &vec![]));
}

#[test]
fn refreshes_wait_for_the_cooldown() {
    assert!(!refresh_due(0));
    assert!(!refresh_due(1199));
    assert!(refresh_due(1200));
    assert!(refresh_due(u64::MAX));
}

#[test]
fn job_ids_count_up_over_a_run_of_actions() {
    let mut st = Store::new();
    let mut ids = Vec::new();
    st.dispatch(Action::SetQuery("vim".into()));
    for a in [Action::Search, Action::Refresh, Action::UpgradeAll] {
        for c in st.dispatch(a) {
            if let Command::SendJob { id, .. } = c {
                ids.push(id);
            }
        }
    }
    assert_eq!(ids, vec![1, 2, 3, 4]);
    assert_eq!(st.next_id, 5);
}

#[test]
fn sent_jobs_count_up_and_keep_the_state() {
    let mut st = Store::new();
    let mut out = Vec::new();
    st.send_job(&mut out, JobKind::Refresh, JobPayload::NoPayload);
    st.send_job(&mut out, JobKind::UpgradeAll, JobPayload::NoPayload);
    let ids: Vec<u64> = out.iter().filter_map(|c| if let Command::SendJob { id, .. } = c { Some(*id) } else { None }).collect();
    assert_eq!(ids, vec![1, 2]);
    assert!(matches!(out[1], Command::SendJob { kind: JobKind::UpgradeAll, .. }));
    assert_eq!(st.next_id, 3);
    assert!(st.state.results.is_empty());
}

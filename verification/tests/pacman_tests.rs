use soredowe::alpm::{
    details_result, install_args, operation_plan, pacman_conf_repos, parse_pacman_progress, progress_from_captures,
    qualified_target, remove_args, repo_update, search_results as alpm_search_results, search_start as alpm_search_start,
    stream_line, AlpmPlan, SyncDetails, SyncPkg,
};
use soredowe::model::{Error, Operation, OperationKind, PackageId, PacmanCli, Source, Stage};
use soredowe::pacman::{
    cache_clean_failure, cache_clean_log, downgrade_missing, downgrade_paths, helper_exit, helper_fallback_log,
    helper_line, helper_read, pacman_exit_error, parse_json_stage, refresh_exit_error, spawn_failed, HelperLine, HelperRead, RepoDetails,
    RepoPkg, RepoSearch,
};

fn strings(v: &[&str]) -> Vec<String> {
    v.iter().map(|s| s.to_string()).collect()
}

fn id(name: &str, repo: Option<&str>) -> PackageId {
    PackageId { name: name.to_string(), source: Source::Repo, repo: repo.map(|r| r.to_string()) }
}

#[test]
fn json_stage_names() {
    assert_eq!(parse_json_stage(Some("refreshing")), Stage::Refreshing);
    assert_eq!(parse_json_stage(Some("keyring")), Stage::Verifying);
    assert_eq!(parse_json_stage(Some("cleaning")), Stage::Cleaning);
    assert_eq!(parse_json_stage(Some("whatever")), Stage::Installing);
    assert_eq!(parse_json_stage(None), Stage::Installing);
}

#[test]
fn helper_progress_line() {
    let l = "{\"type\":\"progress\",\"stage\":\"downloading\",\"percent\":0.25,\"bytes\":[5,20],\"log\":\"core\",\"warning\":true}";
    match helper_line(l, Stage::Installing) {
        HelperLine::Progress { stage, log, warning, bytes } => {
            assert_eq!(stage, Stage::Downloading);
            assert_eq!(log.as_deref(), Some("core"));
            assert!(warning);
            assert_eq!(bytes, Some((5, 20)));
        }
        _ => panic!("expected progress"),
    }
    match helper_line("{\"type\":\"progress\",\"bytes\":[1]}", Stage::Removing) {
        HelperLine::Progress { stage, log, warning, bytes } => {
            assert_eq!(stage, Stage::Installing);
            assert_eq!(log, None);
            assert!(!warning);
            assert_eq!(bytes, None);
        }
        _ => panic!("expected progress"),
    }
}

#[test]
fn helper_result_and_other_lines() {
    assert!(matches!(helper_line("{\"type\":\"result\",\"code\":0}", Stage::Installing), HelperLine::Finished(Ok(()))));
    assert!(matches!(
        helper_line("{\"type\":\"result\",\"code\":1,\"message\":\"nope\"}", Stage::Installing),
        HelperLine::Finished(Err(Error::Priv(m))) if m == "nope"
    ));
    assert!(matches!(
        helper_line("{\"type\":\"result\"}", Stage::Installing),
        HelperLine::Finished(Err(Error::Priv(m))) if m == "helper failed"
    ));
    assert!(matches!(helper_line("not json", Stage::Cleaning), HelperLine::Log(l) if l == "not json"));
    assert!(matches!(helper_line("{\"type\":\"other\"}", Stage::Cleaning), HelperLine::Log(_)));
    assert!(matches!(helper_line("", Stage::Cleaning), HelperLine::Skip));
}

#[test]
fn helper_exit_codes() {
    assert!(helper_exit(Some(0)).is_ok());
    assert!(matches!(helper_exit(Some(2)), Err(Error::Priv(m)) if m == "helper exit 2"));
    assert!(matches!(helper_exit(None), Err(Error::Priv(m)) if m == "helper exit -1"));
}

#[test]
fn fallback_messages() {
    let e = Error::Internal("spawn helper: no such file".to_string());
    assert_eq!(
        helper_fallback_log(&e),
        "helper unavailable (internal: spawn helper: no such file); falling back to pacman CLI"
    );
    assert!(matches!(pacman_exit_error(1, &Some("error: target not found".to_string())), Error::Priv(m) if m == "pacman exit 1: error: target not found"));
    assert!(matches!(pacman_exit_error(-1, &None), Error::Priv(m) if m == "pacman exit -1"));
    assert!(matches!(refresh_exit_error(3, &None), Error::Alpm(m) if m == "pacman -Sy exit 3"));
    assert!(spawn_failed(&Error::Internal("spawn: not found".to_string())));
    assert!(!spawn_failed(&Error::Priv("spawn: not found".to_string())));
    assert_eq!(cache_clean_log(3), "cleaning cache, keeping 3 versions");
    let (w, err) = cache_clean_failure(&Error::Priv("denied".to_string()));
    assert_eq!(w, "helper unavailable (privilege: denied); fallback not implemented");
    assert!(matches!(err, Error::Alpm(m) if m == "cache clean failed: privilege: denied"));
}

#[test]
fn repo_search_sorted_and_counted() {
    let cli = PacmanCli::new();
    assert!(matches!(cli.search_start(" a "), RepoSearch::Skip { warning } if warning == "repo: query too short (<2), ignoring"));
    match cli.search_start("  Vim ") {
        RepoSearch::Run { log, query } => {
            assert_eq!(log, "repo search: Vim");
            assert_eq!(query, "Vim");
        }
        _ => panic!("expected a search"),
    }
    let pkgs = vec![
        RepoPkg { name: "vim".into(), version: "9.1".into(), description: "Vi Improved".into() },
        RepoPkg { name: "gvim".into(), version: "9.1".into(), description: "GUI".into() },
        RepoPkg { name: "nano".into(), version: "8".into(), description: "not it".into() },
    ];
    let (items, log) = cli.search_results("VIM", &pkgs, &strings(&["vim"]));
    assert_eq!(items.iter().map(|p| p.id.name.as_str()).collect::<Vec<_>>(), vec!["gvim", "vim"]);
    assert!(items[1].installed && !items[0].installed);
    assert_eq!(log, "repo: search yielded 2 matches");
    let (none, log) = cli.search_results("zzz", &pkgs, &vec![]);
    assert!(none.is_empty());
    assert_eq!(log, "repo: search returned 0 matches");
}

#[test]
fn repo_upgrades_and_details() {
    let cli = PacmanCli::new();
    let (items, log) = cli.upgrade_results(&vec![]);
    assert!(items.is_empty());
    assert_eq!(log.as_deref(), Some("repo: no upgrades available"));
    let (items, log) = cli.upgrade_results(&vec![
        RepoPkg { name: "b".into(), version: "2".into(), description: "".into() },
        RepoPkg { name: "a".into(), version: "1".into(), description: "".into() },
    ]);
    assert_eq!(items[0].id.name, "a");
    assert!(items[0].installed);
    assert!(log.is_none());
    let missing = cli.details_result(&id("zsh", None), None);
    assert!(matches!(missing, Err(Error::Alpm(m)) if m == "package zsh not found in repos"));
    let d = cli
        .details_result(
            &id("zsh", None),
            Some(RepoDetails {
                version: "5.9".into(),
                description: "shell".into(),
                depends: strings(&["glibc"]),
                opt_depends: vec![],
                url: Some("https://zsh.org".into()),
                packager: "someone".into(),
                installed_size: 10,
                compressed_size: 5,
            }),
        )
        .unwrap();
    assert_eq!(d.summary.version, "5.9");
    assert_eq!(d.maintainer.as_deref(), Some("someone"));
    assert_eq!(d.size_install, Some(10));
    assert_eq!(d.size_download, Some(5));
}

#[test]
fn cached_versions_newest_first() {
    let files = strings(&[
        "vim-1.9-1-x86_64.pkg.tar.zst",
        "vim-1.10-1-x86_64.pkg.tar.zst",
        "vim-runtime-9.1-2-x86_64.pkg.tar.zst",
        "gvim-9.1-2-x86_64.pkg.tar.zst",
        "vim-9.1-2-x86_64.pkg.tar.zst.sig",
    ]);
    let found = PacmanCli::cached_files("vim", &files);
    assert_eq!(
        found,
        vec![
            ("vim-1.9-1-x86_64.pkg.tar.zst".to_string(), "1.9-1".to_string()),
            ("vim-1.10-1-x86_64.pkg.tar.zst".to_string(), "1.10-1".to_string()),
            ("vim-runtime-9.1-2-x86_64.pkg.tar.zst".to_string(), "runtime-9.1-2".to_string()),
        ]
    );
    // vercmp's answers: 1.9-1 is older than 1.10-1; a leading word is older than a number
    let older = vec![vec![false, true, false], vec![false, false, false], vec![true, true, false]];
    let v = PacmanCli::cached_versions("vim", &files, &older);
    assert_eq!(
        v,
        vec![
            ("vim-1.10-1-x86_64.pkg.tar.zst".to_string(), "1.10-1".to_string()),
            ("vim-1.9-1-x86_64.pkg.tar.zst".to_string(), "1.9-1".to_string()),
            ("vim-runtime-9.1-2-x86_64.pkg.tar.zst".to_string(), "runtime-9.1-2".to_string()),
        ]
    );
    // equal versions keep their order
    let same = vec![vec![false; 3]; 3];
    assert_eq!(PacmanCli::cached_versions("vim", &files, &same), found);
}

#[test]
fn downgrade_file_paths() {
    let (a, b) = downgrade_paths("vim", "9.0-1", "x86_64");
    assert_eq!(a, "/var/cache/pacman/pkg/vim-9.0-1-x86_64.pkg.tar.zst");
    assert_eq!(b, "/var/cache/pacman/pkg/vim-9.0-1-any.pkg.tar.zst");
    assert!(matches!(downgrade_missing(&a), Error::Alpm(m) if m == format!("cached package not found: {a}")));
}

#[test]
fn installed_names_are_a_set() {
    let names = PacmanCli::installed_names(&strings(&["b", "a", "b"]));
    assert_eq!(names, strings(&["a", "b"]));
}

#[test]
fn pacman_progress_lines() {
    assert_eq!(parse_pacman_progress("(1/3) installing foo"), Some((1, 3, Stage::Installing)));
    assert_eq!(parse_pacman_progress("(2/5) Checking keys in keyring"), Some((2, 5, Stage::Verifying)));
    assert_eq!(parse_pacman_progress("(1/1) running post-transaction hooks"), Some((1, 1, Stage::Verifying)));
    assert_eq!(parse_pacman_progress("(3/4) Running hooks"), Some((3, 4, Stage::Verifying)));
    assert_eq!(parse_pacman_progress("(1/2) loading package files"), Some((1, 2, Stage::Installing)));
    assert_eq!(parse_pacman_progress("(1/2) downloading x"), Some((1, 2, Stage::Downloading)));
    assert_eq!(parse_pacman_progress("(1/2) remove x"), Some((1, 2, Stage::Removing)));
    assert_eq!(parse_pacman_progress("(1/2) removing x"), None);
    assert_eq!(parse_pacman_progress("(1/2) something else"), None);
    assert_eq!(parse_pacman_progress("installing foo"), None);
    assert_eq!(parse_pacman_progress("(99999999999/2) installing"), None);
    assert_eq!(
        progress_from_captures(Some(("4".into(), "9".into(), "Download x".into()))),
        Some((4, 9, Stage::Downloading))
    );
}

#[test]
fn stream_lines() {
    assert_eq!(stream_line("(1/3) installing foo", Stage::Refreshing, true), (Stage::Installing, Some((1, 3)), false));
    assert_eq!(stream_line("warning: x", Stage::Refreshing, true), (Stage::Refreshing, None, true));
    assert_eq!(stream_line("hello", Stage::Refreshing, false), (Stage::Refreshing, None, false));
}

#[test]
fn command_lines() {
    assert_eq!(qualified_target(&id("vim", Some("extra"))), "extra/vim");
    assert_eq!(qualified_target(&id("vim", None)), "vim");
    assert_eq!(install_args(&id("vim", Some("extra"))), strings(&["-S", "--noconfirm", "--needed", "extra/vim"]));
    assert_eq!(remove_args(&id("vim", Some("extra"))), strings(&["-Rns", "--noconfirm", "vim"]));
    let op = Operation {
        kind: OperationKind::Install,
        backend_name: "alpm".into(),
        package_ids: vec![id("a", Some("core")), id("b", None)],
    };
    match operation_plan(&op) {
        Ok(AlpmPlan::Pacman { args, stage }) => {
            assert_eq!(args, strings(&["-S", "--noconfirm", "--needed", "core/a", "b"]));
            assert_eq!(stage, Stage::Installing);
        }
        _ => panic!("expected a pacman run"),
    }
    let rm = Operation { kind: OperationKind::Remove { purge_data: true }, backend_name: "alpm".into(), package_ids: vec![id("a", Some("core"))] };
    assert!(matches!(operation_plan(&rm), Ok(AlpmPlan::Pacman { args, stage: Stage::Removing }) if args == strings(&["-Rns", "--noconfirm", "a"])));
    let empty = Operation { kind: OperationKind::Update, backend_name: "alpm".into(), package_ids: vec![] };
    assert!(matches!(operation_plan(&empty), Err(Error::Internal(m)) if m == "no packages"));
    let refresh = Operation { kind: OperationKind::Refresh, backend_name: "alpm".into(), package_ids: vec![] };
    assert!(matches!(operation_plan(&refresh), Ok(AlpmPlan::Refresh)));
}

#[test]
fn conf_repo_names() {
    assert_eq!(pacman_conf_repos(None), strings(&["core", "extra"]));
    assert_eq!(pacman_conf_repos(Some("[OPTIONS]\n[core]\n  [extra]  \n#[x]\n")), strings(&["core", "extra"]));
    assert_eq!(pacman_conf_repos(Some("[options]\n")), strings(&["core", "extra"]));
    assert_eq!(pacman_conf_repos(Some("[custom]\n")), strings(&["custom"]));
}

#[test]
fn alpm_search_and_details() {
    assert!(matches!(alpm_search_start("A"), RepoSearch::Skip { .. }));
    assert!(matches!(alpm_search_start(" VIM "), RepoSearch::Run { query, .. } if query == "vim"));
    let pkgs = vec![
        SyncPkg { repo: "extra".into(), name: "vim".into(), version: "9".into(), description: Some("Vi IMproved".into()) },
        SyncPkg { repo: "core".into(), name: "bash".into(), version: "5".into(), description: None },
    ];
    let (items, log) = alpm_search_results("improved", &pkgs, &strings(&["vim"]));
    assert_eq!(items.len(), 1);
    assert_eq!(items[0].id.repo.as_deref(), Some("extra"));
    assert!(items[0].installed);
    assert_eq!(log, "repo: 1 matches");
    let (r, w) = details_result("zsh", None, &vec![]);
    assert!(matches!(r, Err(Error::Alpm(m)) if m == "not found"));
    assert_eq!(w.as_deref(), Some("repo: package not found: zsh"));
    let (r, w) = details_result(
        "vim",
        Some(SyncDetails {
            package: pkgs[0].clone(),
            depends: strings(&["glibc", ""]),
            opt_depends: vec![],
            url: None,
            licenses: strings(&["custom:vim", "GPL"]),
            packager: None,
            installed_size: 7,
            download_size: 3,
        }),
        &vec![],
    );
    let d = r.unwrap();
    assert!(w.is_none());
    assert_eq!(d.description.as_deref(), Some("Vi IMproved"));
    assert_eq!(d.depends, strings(&["glibc"]));
    assert_eq!(d.license.as_deref(), Some("custom:vim"));
}

#[test]
fn alpm_repo_update_keeps_newest_candidate() {
    let cand = |repo: &str, v: &str| SyncPkg { repo: repo.into(), name: "vim".into(), version: v.into(), description: None };
    let candidates = vec![cand("core", "9.0"), cand("extra", "9.1"), cand("testing", "9.1")];
    // newer[a][b]: the version of a is older than the version of b
    let newer = vec![vec![false, true, true], vec![false, false, false], vec![false, false, false]];
    let s = repo_update(&candidates, &newer, &vec![true, true, true]).unwrap();
    assert_eq!(s.id.repo.as_deref(), Some("extra"));
    assert_eq!(s.version, "9.1");
    assert!(s.installed);
    assert!(repo_update(&candidates, &newer, &vec![true, false, false]).is_none());
    assert!(repo_update(&vec![], &vec![], &vec![]).is_none());
}

#[test]
fn helper_output_stops_when_cancelled() {
    assert!(matches!(helper_read("", true, Stage::Installing), HelperRead::Skip));
    assert!(matches!(helper_read("{\"type\":\"result\",\"code\":0}", true, Stage::Installing), HelperRead::Cancelled));
    assert!(matches!(
        helper_read("{\"type\":\"result\",\"code\":0}", false, Stage::Installing),
        HelperRead::Line(HelperLine::Finished(Ok(())))
    ));
}

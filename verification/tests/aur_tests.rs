use soredowe::aur::{
    aur_info, aur_info_forms, aur_installed, aur_updates, batch_conflict_log, clone_url, cloning_log,
    conflict_checks, dep_exit_log, install_batch_log, install_failure, installed_conflict_log, installed_version,
    is_built_package, is_vcs, ls_remote_refspec, makepkg_log, missing_deps_log, needs_build,
    parse_foreign_packages, parse_ls_remote, pkgbase_for, prepared_package, remove_failure, remove_log,
    vcs_candidates, vcs_check, vcs_store_path, vcs_update_summary, AurReply, AurRequest, VcsEntry,
};
use soredowe::build_order::{sort_build_order, PreparedPkg};
use soredowe::model::{AurBackend, AurPkg, Error, PackageId, Source};
use soredowe::srcinfo::{parse_conflicts, parse_git_sources, parse_srcinfo_deps, strip_ver};

fn strings(v: &[&str]) -> Vec<String> {
    v.iter().map(|s| s.to_string()).collect()
}

fn pkg(name: &str, version: &str) -> AurPkg {
    AurPkg {
        name: name.into(),
        version: version.into(),
        description: Some(format!("{name} desc")),
        votes: Some(7),
        maintainer: Some("me".into()),
        last_modified: Some(1700000000),
        url: Some("https://example.org".into()),
        license: Some(strings(&["MIT", "Apache"])),
        depends: Some(strings(&["glibc"])),
        makedepends: None,
        optdepends: Some(strings(&["python: scripts", "  : empty", "bash"])),
        conflicts: None,
        package_base: None,
    }
}

fn aur_id(name: &str) -> PackageId {
    PackageId { name: name.into(), source: Source::Aur, repo: None }
}

#[test]
fn search_request_encodes_query() {
    let b = AurBackend::new();
    assert!(matches!(b.search_request(" x ", false), Ok(AurRequest::Skip { warning }) if warning == "AUR: query too short (<2), ignoring"));
    assert!(matches!(b.search_request("vim", true), Err(Error::Cancelled)));
    match b.search_request("  a b/ä~ ", false) {
        Ok(AurRequest::Fetch { log, url }) => {
            assert_eq!(log, "AUR search: a b/ä~");
            assert_eq!(url, "https://aur.archlinux.org/rpc/?v=5&type=search&by=name-desc&arg=a%20b%2F%C3%A4~");
        }
        _ => panic!("expected a fetch"),
    }
    assert_eq!(b.details_url("c++"), "https://aur.archlinux.org/rpc/?v=5&type=info&arg[]=c%2B%2B");
}

#[test]
fn search_outcomes() {
    let b = AurBackend::new();
    let (items, w) = b.search_outcome(AurReply::Failed("timeout".into()), false, &vec![]);
    assert!(items.unwrap().is_empty());
    assert_eq!(w.as_deref(), Some("AUR search failed: timeout"));
    let (_, w) = b.search_outcome(AurReply::Unreadable("eof".into()), false, &vec![]);
    assert_eq!(w.as_deref(), Some("AUR search parse failed: eof"));
    let (_, w) = b.search_outcome(AurReply::Answer { results: vec![pkg("a", "1")], error: Some("Too many".into()) }, false, &vec![]);
    assert_eq!(w.as_deref(), Some("AUR error: Too many"));
    let (r, w) = b.search_outcome(AurReply::Answer { results: vec![pkg("a", "1")], error: None }, true, &vec![]);
    assert!(matches!(r, Err(Error::Cancelled)) && w.is_none());
    let (items, w) = b.search_outcome(AurReply::Answer { results: vec![pkg("a", "1"), pkg("b", "2")], error: None }, false, &strings(&["b"]));
    let items = items.unwrap();
    assert!(w.is_none());
    assert_eq!(items.len(), 2);
    assert_eq!(items[0].id, aur_id("a"));
    assert!(!items[0].installed && items[1].installed);
    assert_eq!(items[1].version, "2");
    assert_eq!(items[0].description, "a desc");
    assert_eq!(items[0].popular, Some(7));
    assert_eq!(items[0].last_updated, Some(1700000000));
}

#[test]
fn details_outcomes() {
    let b = AurBackend::new();
    let (r, w) = b.details_outcome(AurReply::Failed("dns".into()), &vec![]);
    assert!(matches!(r, Err(Error::Network(m)) if m == "dns"));
    assert_eq!(w.as_deref(), Some("AUR info failed: dns"));
    let (r, _) = b.details_outcome(AurReply::Answer { results: vec![], error: None }, &vec![]);
    assert!(matches!(r, Err(Error::Aur(m)) if m == "not found"));
    let (r, _) = b.details_outcome(AurReply::Answer { results: vec![], error: Some("bad".into()) }, &vec![]);
    assert!(matches!(r, Err(Error::Aur(m)) if m == "bad"));
    let (r, w) = b.details_outcome(AurReply::Answer { results: vec![pkg("x", "1")], error: None }, &strings(&["x"]));
    let d = r.unwrap();
    assert!(w.is_none());
    assert!(d.summary.installed);
    assert_eq!(d.opt_depends, strings(&["python", "bash"]));
    assert_eq!(d.license.as_deref(), Some("MIT, Apache"));
    assert_eq!(d.depends, strings(&["glibc"]));
    assert_eq!(d.homepage.as_deref(), Some("https://example.org"));
    assert_eq!(d.description, None);
}

#[test]
fn vcs_names() {
    assert!(is_vcs("foo-git"));
    assert!(is_vcs("bar-darcs"));
    assert!(!is_vcs("git"));
    assert!(!is_vcs("foo-gitx"));
}

#[test]
fn foreign_package_lines() {
    let f = parse_foreign_packages("yay 12.0-1\n  paru-bin 2.0-1  \nbroken\n\n");
    assert_eq!(f, vec![("yay".to_string(), "12.0-1".to_string()), ("paru-bin".to_string(), "2.0-1".to_string())]);
    assert_eq!(installed_version(&f, "paru-bin").as_deref(), Some("2.0-1"));
    assert_eq!(installed_version(&f, "nope"), None);
}

#[test]
fn info_forms_in_chunks_of_hundred() {
    let names: Vec<String> = (0..250).map(|i| format!("p{i}")).collect();
    let forms = aur_info_forms(&names);
    assert_eq!(forms.len(), 3);
    assert_eq!(forms[0].len(), 102);
    assert_eq!(forms[2].len(), 52);
    assert_eq!(forms[0][0], ("v".to_string(), "5".to_string()));
    assert_eq!(forms[0][1], ("type".to_string(), "info".to_string()));
    assert_eq!(forms[1][2], ("arg[]".to_string(), "p100".to_string()));
    assert!(aur_info_forms(&vec![]).is_empty());
}

#[test]
fn info_replies_stop_at_failure() {
    let got = aur_info(vec![Some(vec![pkg("a", "1")]), Some(vec![pkg("b", "1")]), None, Some(vec![pkg("c", "1")])]);
    assert_eq!(got.iter().map(|p| p.name.as_str()).collect::<Vec<_>>(), vec!["a", "b"]);
}

#[test]
fn package_base() {
    let mut p = pkg("foo", "1");
    assert_eq!(pkgbase_for("foo", &vec![]), "foo");
    assert_eq!(pkgbase_for("foo", &vec![p.clone()]), "foo");
    p.package_base = Some("".into());
    assert_eq!(pkgbase_for("foo", &vec![p.clone()]), "foo");
    p.package_base = Some("foo-base".into());
    assert_eq!(pkgbase_for("foo", &vec![p]), "foo-base");
}

#[test]
fn updates_and_installed() {
    let foreign = vec![("a".to_string(), "1".to_string()), ("b-git".to_string(), "r1".to_string()), ("c".to_string(), "3".to_string())];
    let info = vec![pkg("a", "2"), pkg("c", "3"), pkg("zzz", "1")];
    let ups = aur_updates(&foreign, &info, &vec![true, false, true]);
    assert_eq!(ups.len(), 1);
    assert_eq!(ups[0].id.name, "a");
    assert_eq!(ups[0].version, "2");
    assert!(ups[0].installed);
    assert_eq!(vcs_candidates(&foreign, &info), strings(&["b-git"]));
    let inst = aur_installed(&foreign, &info);
    assert_eq!(inst.len(), 3);
    assert_eq!(inst[0].version, "1");
    assert_eq!(inst[0].description, "a desc");
    assert_eq!(inst[1].description, "");
    assert_eq!(inst[1].popular, None);
}

#[test]
fn vcs_checks() {
    let stored = vec![VcsEntry { url: "https://g/x".into(), branch: "HEAD".into(), commit: "aaa".into() }];
    let heads = vec![
        ("https://g/x".to_string(), "HEAD".to_string(), Some("bbb".to_string())),
        ("https://g/y".to_string(), "main".to_string(), None),
    ];
    let (needs, entries) = vcs_check(&stored, &heads);
    assert!(needs);
    assert_eq!(entries.len(), 1);
    assert_eq!(entries[0].commit, "bbb");
    let same = vec![("https://g/x".to_string(), "HEAD".to_string(), Some("aaa".to_string()))];
    assert!(!vcs_check(&stored, &same).0);
    assert!(!vcs_check(&vec![], &heads).0);
    let s = vcs_update_summary("b-git");
    assert_eq!(s.version, "latest-commit");
    assert_eq!(ls_remote_refspec("HEAD"), "HEAD");
    assert_eq!(ls_remote_refspec("main"), "refs/heads/main");
    assert_eq!(parse_ls_remote("abc123\tHEAD\nzzz\trefs\n").as_deref(), Some("abc123"));
    assert_eq!(parse_ls_remote(""), None);
    assert_eq!(parse_ls_remote("\tHEAD\n"), None);
    assert_eq!(vcs_store_path(Some("/home/u")), "/home/u/.cache/soredowe/aur-vcs.json");
    assert_eq!(vcs_store_path(None), "/tmp/.cache/soredowe/aur-vcs.json");
}

#[test]
fn build_decisions() {
    assert!(needs_build("", &Some("foo 1.0".into())));
    assert!(needs_build("1.1", &None));
    assert!(needs_build("1.1", &Some("foo 1.0\n".into())));
    assert!(!needs_build("1.0", &Some("foo 1.0\n".into())));
    assert!(is_built_package("foo", "foo-1.0-1-x86_64.pkg.tar.zst"));
    assert!(!is_built_package("foo", "foo-1.0-1-x86_64.pkg.tar.xz"));
    assert!(!is_built_package("foo", "foobar-1.0-1-x86_64.pkg.tar.zst"));
}

#[test]
fn build_messages() {
    assert_eq!(clone_url("yay"), "https://aur.archlinux.org/yay.git");
    assert_eq!(cloning_log("yay"), "cloning yay.git");
    assert_eq!(missing_deps_log(&strings(&["go", "git"])), "installing deps: go, git");
    assert_eq!(dep_exit_log(Some(2)), "dep install exited with code 2");
    assert_eq!(dep_exit_log(None), "dep install exited with code -1");
    assert_eq!(makepkg_log("yay"), "running makepkg for yay");
    assert_eq!(install_batch_log(2, &strings(&["a.pkg.tar.zst", "b.pkg.tar.zst"])), "installing 2 package(s): a.pkg.tar.zst, b.pkg.tar.zst");
    assert!(matches!(install_failure("  \n"), Error::Priv(m) if m == "pacman -U failed: see log"));
    assert!(matches!(install_failure(" conflict \n"), Error::Priv(m) if m == "pacman -U failed: conflict"));
    assert_eq!(remove_log("yay"), "removing yay");
    assert!(matches!(remove_failure("error: x\n"), Error::Priv(m) if m == "remove failed: error: x"));
}

#[test]
fn batch_conflicts_and_order() {
    let si_a = "pkgbase = a\n\tdepends = b>=1\n\tconflicts = a\n\tconflicts = c\n";
    let si_b = "pkgbase = b\n\tmakedepends = gcc\n\tconflicts = a\n";
    let a = prepared_package(aur_id("a"), "1", si_a);
    let b = prepared_package(aur_id("b"), "1", si_b);
    assert_eq!(a.deps, strings(&["b"]));
    let batch = vec![a, b];
    let checks = conflict_checks(&batch);
    let v: Vec<(String, String, bool)> = checks.into_iter().map(|c| (c.package, c.conflict, c.in_batch)).collect();
    assert_eq!(v, vec![("a".into(), "c".into(), false), ("b".into(), "a".into(), true)]);
    assert_eq!(batch_conflict_log("b", "a"), "conflict: b and a in same batch");
    assert_eq!(installed_conflict_log("a", "c"), "conflict: a conflicts with installed c");
    let order = sort_build_order(&batch).unwrap();
    assert_eq!(order, vec![1, 0]);
}

#[test]
fn build_order_cycle_is_an_error() {
    let p = |n: &str, deps: &[&str]| PreparedPkg { id: aur_id(n), version: String::new(), deps: strings(deps), conflicts: vec![] };
    let batch = vec![p("a", &["b"]), p("b", &["a"]), p("c", &[])];
    assert!(matches!(sort_build_order(&batch), Err(Error::Aur(m)) if m == "circular dependency detected in AUR packages"));
    let chain = vec![p("a", &["b"]), p("b", &["c"]), p("c", &[])];
    assert_eq!(sort_build_order(&chain).unwrap(), vec![2, 1, 0]);
    // packages ready together: the most recently ready is built first
    let free = vec![p("a", &[]), p("b", &[]), p("c", &[])];
    assert_eq!(sort_build_order(&free).unwrap(), vec![2, 1, 0]);
    let diamond = vec![p("a", &[]), p("b", &["a"]), p("c", &["a"]), p("d", &["b", "c"])];
    assert_eq!(sort_build_order(&diamond).unwrap(), vec![0, 2, 1, 3]);
}

#[test]
fn srcinfo_parsing() {
    let si = "pkgbase = x\n\tdepends = zlib\n\tdepends = glibc>=2.3\n\tmakedepends = cmake\n\tdepends = zlib\n\tconflicts = x-bin<2\n";
    assert_eq!(parse_srcinfo_deps(si), strings(&["cmake", "glibc", "zlib"]));
    assert_eq!(parse_conflicts(si), strings(&["x-bin"]));
    assert_eq!(strip_ver(" foo >= 1.2 "), "foo");
    assert_eq!(strip_ver("bar"), "bar");
}

#[test]
fn git_sources_of_pkgbuild() {
    let pb = "pkgname=foo-git\nsource=(\"foo::git+https://github.com/x/foo.git#branch=dev\"\n        \"local.patch\"\n        'git@host:y.git')\n";
    let s = parse_git_sources(pb);
    assert_eq!(s, vec![("git+https://github.com/x/foo.git".to_string(), "branch=dev".to_string())]);
    let one = "source=(\"https://e.org/a.tar.gz\")\n";
    assert_eq!(parse_git_sources(one), vec![("https://e.org/a.tar.gz".to_string(), "HEAD".to_string())]);
}


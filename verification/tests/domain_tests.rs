use std::io::Write;

use soredowe::appstream::{parse_appstream_tokens, Catalogue, XmlAttr, XmlToken};
use soredowe::cancel::CancelToken;
use soredowe::executor::{
    announces_change, backend_matches, file_backend, final_log, final_stage, installed_package_names, plan_job,
    alpm_backend_name, flatpak_backend_name, job_closing, job_opening, merge_search, relabel, search_failed_message, sort_by_name, upgrades_failed_message, ExecutorState, JobOutput, JobPlan,
};
use soredowe::flatpak::{install_origin, name_to_ref, not_installed, remote_update_log, update_batches, InstalledRef};
use soredowe::model::{
    AppImageBackend, AurBackend, Error, JobKind, JobPayload, PackageId, PackageSummary, PacmanCli, Settings, Source,
    Stage,
};

fn strings(v: &[&str]) -> Vec<String> {
    v.iter().map(|s| s.to_string()).collect()
}

fn start(name: &str, attrs: &[(&str, &str)]) -> XmlToken {
    XmlToken::Start {
        name: name.into(),
        attrs: attrs.iter().map(|(k, v)| Some(XmlAttr { key: k.to_string(), value: Some(v.to_string()) })).collect(),
    }
}

fn end(name: &str) -> XmlToken {
    XmlToken::End { name: name.into() }
}

fn text(t: &str) -> XmlToken {
    XmlToken::Text(t.into())
}

fn sample_tokens() -> Vec<XmlToken> {
    vec![
        start("components", &[]),
        start("component", &[("type", "desktop")]),
        start("id", &[]),
        text("org.gimp.GIMP"),
        end("id"),
        start("name", &[]),
        text(" GIMP "),
        end("name"),
        start("name", &[("xml:lang", "de")]),
        text("GIMP de"),
        end("name"),
        start("summary", &[]),
        text("Image editor"),
        end("summary"),
        start("description", &[]),
        start("p", &[]),
        text("Create images"),
        end("p"),
        start("p", &[]),
        text("and edit photos"),
        end("p"),
        end("description"),
        start("url", &[("type", "homepage")]),
        text("https://gimp.org"),
        end("url"),
        start("project_license", &[]),
        text("GPL-3.0"),
        end("project_license"),
        start("releases", &[]),
        XmlToken::Empty { name: "release".into(), attrs: vec![Some(XmlAttr { key: "version".into(), value: Some("2.10".into()) })] },
        XmlToken::Empty { name: "release".into(), attrs: vec![Some(XmlAttr { key: "version".into(), value: Some("2.8".into()) })] },
        end("releases"),
        start("developer", &[]),
        start("name", &[]),
        text("The GIMP team"),
        end("name"),
        end("developer"),
        end("component"),
        start("component", &[]),
        start("name", &[]),
        text("no id"),
        end("name"),
        end("component"),
        end("components"),
    ]
}

#[test]
fn appstream_component() {
    let entries = parse_appstream_tokens(&sample_tokens());
    assert_eq!(entries.len(), 1);
    let (id, m) = &entries[0];
    assert_eq!(id, "org.gimp.GIMP");
    assert_eq!(m.name, "GIMP");
    assert_eq!(m.summary, "Image editor");
    assert_eq!(m.description, "Create images and edit photos");
    assert_eq!(m.version.as_deref(), Some("2.10"));
    assert_eq!(m.license.as_deref(), Some("GPL-3.0"));
    assert_eq!(m.homepage.as_deref(), Some("https://gimp.org"));
    assert_eq!(m.developer.as_deref(), Some("The GIMP team"));
}

#[test]
fn catalogue_lookup_search_and_merge() {
    let mut cat = Catalogue::from_tokens(&sample_tokens());
    assert!(cat.get("org.gimp.GIMP").is_some());
    assert!(cat.get("nope").is_none());
    let found = cat.search("gim", &strings(&["org.gimp.GIMP"]));
    assert_eq!(found.len(), 1);
    assert!(found[0].installed);
    assert_eq!(found[0].id.repo.as_deref(), Some("flathub"));
    assert_eq!(found[0].version, "2.10");
    assert!(cat.search("g", &vec![]).is_empty());
    let toks = vec![start("component", &[]), start("id", &[]), text("org.gimp.GIMP"), end("id"), start("summary", &[]), text("New"), end("summary"), end("component")];
    cat.merge(Catalogue::from_tokens(&toks));
    assert_eq!(cat.entries().len(), 1);
    assert_eq!(cat.get("org.gimp.GIMP").unwrap().summary, "New");
    let d = cat.details(&PackageId { name: "org.gimp.GIMP".into(), source: Source::Flatpak, repo: None }, Some(InstalledRef { version: None, installed_size: 0 }));
    assert!(d.summary.installed);
    assert_eq!(d.size_install, None);
    assert_eq!(d.summary.description, "New");
    let s = cat.summary_from_ref(Some("org.x.Y".into()), Some("flathub".into()), None, Some("Y app".into())).unwrap();
    assert_eq!(s.description, "Y app");
    assert!(cat.summary_from_ref(None, None, None, None).is_none());
}

#[test]
fn flatpak_refs_and_batches() {
    assert_eq!(name_to_ref("org.x.Y", "", "x86_64"), "app/org.x.Y/x86_64/stable");
    assert_eq!(name_to_ref("org.x.Y", "beta", "aarch64"), "app/org.x.Y/aarch64/beta");
    assert_eq!(install_origin(&Some("fh:beta".into())), ("fh".to_string(), "beta".to_string()));
    assert_eq!(install_origin(&Some("fh".into())), ("fh".to_string(), String::new()));
    assert_eq!(install_origin(&None), ("flathub".to_string(), String::new()));
    let refs = vec![("a".to_string(), false), ("b".to_string(), true), ("c".to_string(), false)];
    let b = update_batches(&vec![true, false], &refs);
    assert_eq!(b, vec![(true, strings(&["b"])), (false, strings(&["a", "c"]))]);
    assert!(update_batches(&vec![true], &vec![("a".to_string(), false)]).is_empty());
    assert!(matches!(not_installed("x"), Error::Flatpak(m) if m == "x not installed"));
    assert_eq!(remote_update_log("flathub"), "updating flatpak remote: flathub");
}

#[test]
fn appimage_files() {
    assert_eq!(
        AppImageBackend::appimage_candidates("/home/u", "Tool"),
        strings(&["/home/u/Applications/Tool.AppImage", "/home/u/.local/bin/Tool.AppImage", "/home/u/Applications/AppImage/Tool.AppImage"])
    );
    let c = strings(&["a", "b", "c"]);
    assert_eq!(AppImageBackend::find_appimage(&c, &vec![false, true, true]).as_deref(), Some("b"));
    assert_eq!(AppImageBackend::find_appimage(&c, &vec![false, false, false]), None);
    let s = AppImageBackend::entry_summary("Tool.AppImage", Some(5)).unwrap();
    assert_eq!(s.id.name, "Tool");
    assert_eq!(s.last_updated, Some(5));
    assert!(AppImageBackend::entry_summary(".AppImage", None).is_none());
    assert!(AppImageBackend::entry_summary("tool.txt", None).is_none());
    let found = AppImageBackend::search("TOO", vec![s.clone(), PackageSummary { id: PackageId { name: "other".into(), source: Source::AppImage, repo: Some("https://x".into()) }, ..s.clone() }]);
    assert_eq!(found.len(), 1);
    let (dir, dest, tmp) = AppImageBackend::install_paths("/h", "Tool");
    assert_eq!((dir.as_str(), dest.as_str(), tmp.as_str()), ("/h/Applications", "/h/Applications/Tool.AppImage", "/h/Applications/.Tool.AppImage.part"));
    assert!(matches!(AppImageBackend::download_url(&s.id), Err(Error::AppImage(m)) if m == "no download URL"));
    assert_eq!(AppImageBackend::download_progress(3, 0), None);
    assert_eq!(AppImageBackend::download_progress(3, 9), Some((3, 9)));
    assert!(matches!(AppImageBackend::not_found("Tool"), Error::AppImage(m) if m == "Tool not found"));
    let ups = AppImageBackend::upgradable(&vec![s.clone(), PackageSummary { id: PackageId { name: "u".into(), source: Source::AppImage, repo: Some("https://x".into()) }, ..s }]);
    assert_eq!(ups.len(), 1);
    assert_eq!(ups[0].name, "u");
}

#[test]
fn executor_decisions() {
    assert!(backend_matches("alpm", &Source::Repo));
    assert!(backend_matches("packagekit", &Source::Repo));
    assert!(!backend_matches("aur", &Source::Repo));
    assert!(backend_matches("appimage", &Source::AppImage));
    let names = strings(&["alpm", "aur", "flatpak", "appimage"]);
    let id = PackageId { name: "x".into(), source: Source::Flatpak, repo: None };
    assert!(matches!(plan_job(JobKind::Install, &JobPayload::Package(id), &names), JobPlan::OnBackend(2)));
    assert!(matches!(plan_job(JobKind::Search, &JobPayload::Query(" a ".into()), &names), JobPlan::Search { query, run: false } if query == "a"));
    assert!(matches!(plan_job(JobKind::Search, &JobPayload::Query("vim".into()), &names), JobPlan::Search { run: true, .. }));
    assert!(matches!(plan_job(JobKind::Refresh, &JobPayload::NoPayload, &names), JobPlan::EachBackend));
    assert!(matches!(plan_job(JobKind::Upgrades, &JobPayload::NoPayload, &names), JobPlan::CollectUpdates));
    assert!(matches!(plan_job(JobKind::InstallFile, &JobPayload::InstallFile("/x/y.pkg.tar.zst".into()), &names), JobPlan::OnBackend(0)));
    assert!(matches!(plan_job(JobKind::InstallFile, &JobPayload::InstallFile("/x/a.deb".into()), &names), JobPlan::NoBackendForFile(m) if m == "no backend for file: /x/a.deb"));
    assert_eq!(file_backend("/d/Tool.AppImage").as_deref(), Some("appimage"));
    assert_eq!(file_backend("/d/x.tar.zst"), None);
    assert!(announces_change(JobKind::Install, true));
    assert!(!announces_change(JobKind::Install, false));
    assert!(!announces_change(JobKind::Search, true));
    assert_eq!(final_stage(true), Stage::Finished);
    assert_eq!(final_stage(false), Stage::Failed);
    assert_eq!(final_log(&Ok(())), None);
    assert_eq!(final_log(&Err(Error::Cancelled)).as_deref(), Some("cancelled"));
    assert_eq!(search_failed_message("aur", &Error::Network("x".into())), "aur search failed: network: x");
    assert_eq!(upgrades_failed_message("alpm", &Error::Alpm("y".into())), "alpm upgrades failed: alpm: y");
    let mut st = ExecutorState::new();
    st.begin_search(4);
    assert!(st.may_publish(4));
    st.begin_search(5);
    assert!(!st.may_publish(4));
    let sorted = sort_by_name(vec![
        PackageSummary { id: PackageId { name: "b".into(), source: Source::Aur, repo: None }, version: String::new(), description: String::new(), installed: false, popular: None, last_updated: None },
        PackageSummary { id: PackageId { name: "a".into(), source: Source::Aur, repo: None }, version: String::new(), description: String::new(), installed: false, popular: None, last_updated: None },
    ]);
    assert_eq!(sorted[0].id.name, "a");
    assert_eq!(installed_package_names("zsh\n  bash \n\nzsh\n"), strings(&["bash", "zsh"]));
}

#[test]
fn model_basics() {
    let t = CancelToken::new();
    assert!(!t.is_cancelled());
    let t2 = t.clone();
    t.cancel();
    assert!(t2.is_cancelled());
    let s = Settings::default();
    assert!(s.enable_repo && s.enable_aur && s.upgrade_repo && !s.upgrade_aur);
    assert_eq!(Settings::path_for(Some("/home/u")), "/home/u/.config/soredowe/settings.json");
    assert_eq!(Settings::path_for(Some("/home/u/")), "/home/u/.config/soredowe/settings.json");
    assert_eq!(Settings::path_for(None), "/tmp/.config/soredowe/settings.json");
    assert_eq!(Error::Priv("no".into()).message(), "privilege: no");
    assert_eq!(Error::Cancelled.message(), "cancelled");
    let a = PackageId { name: "x".into(), source: Source::Repo, repo: Some("core".into()) };
    let b = PackageId { name: "x".into(), source: Source::Repo, repo: None };
    assert!(a.same_as(&a.clone()));
    assert!(!a.same_as(&b));
    let _ = (AurBackend::new(), PacmanCli::new(), AppImageBackend::new());
}

const APPSTREAM_DOC: &str = r#"<?xml version="1.0"?>
<components>
  <component type="desktop-application">
    <id>org.example.Editor</id>
    <name>Editor</name>
    <name xml:lang="de">Bearbeiter</name>
    <summary>Edits text</summary>
    <url type="homepage">https://example.org</url>
    <releases><release version="2.1"/><release version="2.0"/></releases>
  </component>
  <component><name>No id</name></component>
</components>"#;

#[test]
fn appstream_document_is_read_into_its_catalogue() {
    let c = Catalogue::parse_appstream_xml(APPSTREAM_DOC.as_bytes());
    assert_eq!(c.entries().len(), 1);
    let m = c.get("org.example.Editor").unwrap();
    assert_eq!(m.name, "Editor");
    assert_eq!(m.summary, "Edits text");
    assert_eq!(m.homepage.as_deref(), Some("https://example.org"));
    assert_eq!(m.version.as_deref(), Some("2.1"));
    // a document cut off in the middle gives what was read before
    let cut = Catalogue::parse_appstream_xml(&APPSTREAM_DOC.as_bytes()[..40]);
    assert!(cut.entries().is_empty());
}

#[test]
fn gzipped_appstream_document_is_decoded_first() {
    let mut enc = flate2::write::GzEncoder::new(Vec::new(), flate2::Compression::default());
    enc.write_all(APPSTREAM_DOC.as_bytes()).unwrap();
    let gz = enc.finish().unwrap();
    let c = Catalogue::parse_appstream_xml_gz(&gz);
    assert_eq!(c.get("org.example.Editor").map(|m| m.summary.clone()).as_deref(), Some("Edits text"));
    assert!(Catalogue::parse_appstream_xml_gz(b"not gzip").entries().is_empty());
}

fn found(name: &str) -> PackageSummary {
    PackageSummary {
        id: PackageId { name: name.into(), source: Source::Repo, repo: None },
        version: "1".into(),
        description: String::new(),
        installed: false,
        popular: None,
        last_updated: None,
    }
}

#[test]
fn search_results_of_backends_are_merged() {
    let results = vec![
        ("alpm".to_string(), Ok(vec![found("zsh"), found("bash")])),
        ("aur".to_string(), Err(Error::Network("timeout".into()))),
        ("appimage".to_string(), Ok(vec![found("fish")])),
    ];
    let (items, failures) = merge_search(results);
    let names: Vec<String> = items.iter().map(|p| p.id.name.clone()).collect();
    assert_eq!(names, strings(&["bash", "fish", "zsh"]));
    assert_eq!(failures, strings(&["aur search failed: network: timeout"]));
    let (items, failures) = merge_search(vec![]);
    assert!(items.is_empty() && failures.is_empty());
}

#[test]
fn defaults_are_the_new_values() {
    let _: PacmanCli = PacmanCli::default();
    assert!(!CancelToken::default().is_cancelled());
}

#[test]
fn job_runs_open_queued_and_close_with_their_result() {
    assert!(matches!(job_opening(7), JobOutput::Progress { job_id: 7, stage: Stage::Queued, log: None, warning: false }));
    let c = job_closing(7, JobKind::Install, &Ok(()));
    assert_eq!(c.len(), 2);
    assert!(matches!(c[0], JobOutput::Changed));
    assert!(matches!(&c[1], JobOutput::Progress { job_id: 7, stage: Stage::Finished, log: None, warning: false }));
    let c = job_closing(8, JobKind::Search, &Ok(()));
    assert_eq!(c.len(), 1);
    let c = job_closing(9, JobKind::Install, &Err(Error::Aur("boom".into())));
    assert_eq!(c.len(), 1);
    assert!(matches!(&c[0], JobOutput::Progress { job_id: 9, stage: Stage::Failed, log: Some(l), warning: true } if l == "aur: boom"));
}

#[test]
fn forwarded_progress_carries_the_job_id() {
    let from_backend = JobOutput::Progress { job_id: 0, stage: Stage::Downloading, log: Some("x".into()), warning: true };
    assert!(matches!(relabel(42, from_backend), JobOutput::Progress { job_id: 42, stage: Stage::Downloading, log: Some(l), warning: true } if l == "x"));
}

#[test]
fn backend_names_match_their_sources() {
    assert_eq!(AurBackend::new().name(), "aur");
    assert_eq!(AppImageBackend::new().name(), "appimage");
    assert_eq!(PacmanCli::new().name(), "packagekit");
    assert_eq!(alpm_backend_name(), "alpm");
    assert_eq!(flatpak_backend_name(), "flatpak");
    assert!(backend_matches(AurBackend::new().name(), &Source::Aur));
    assert!(backend_matches(flatpak_backend_name(), &Source::Flatpak));
}

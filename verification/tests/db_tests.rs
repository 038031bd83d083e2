use soredowe::helper::{progress_stage_name, AlpmProgress};
use soredowe::model::PacmanCli;
use soredowe::pacman::RepoPkg;
use std::io::Write;

fn local_desc(name: &str, version: &str) -> String {
    format!(
        "%NAME%\n{name}\n\n%VERSION%\n{version}\n\n%BASE%\n{name}\n\n%DESC%\nThe {name} package\n\n%URL%\nhttps://example.org/\n\n%ARCH%\nx86_64\n\n%BUILDDATE%\n1733737242\n\n%INSTALLDATE%\n1733737243\n\n%PACKAGER%\nFoobar McFooface <foobar@mcfooface.org>\n\n%SIZE%\n123\n\n%REASON%\n1\n\n%LICENSE%\nMIT\n\n%VALIDATION%\npgp\n\n%XDATA%\npkgtype=pkg\n\n"
    )
}

fn sync_desc(name: &str, version: &str) -> String {
    format!(
        "%FILENAME%\n{name}-{version}-any.pkg.tar.zst\n\n%NAME%\n{name}\n\n%BASE%\n{name}\n\n%VERSION%\n{version}\n\n%DESC%\nThe {name} package\n\n%CSIZE%\n4634\n\n%ISIZE%\n9000\n\n%SHA256SUM%\nb5bb9d8014a0f9b1d61e21e796d78dccdf1352f23cd32812f4850b878ae4944c\n\n%URL%\nhttps://example.org/\n\n%LICENSE%\nGPL-3.0-or-later\n\n%ARCH%\nany\n\n%BUILDDATE%\n1729181726\n\n%PACKAGER%\nFoobar McFooface <foobar@mcfooface.org>\n\n%DEPENDS%\nglibc\n\n"
    )
}

fn archive(entries: &[(&str, &str)]) -> Vec<u8> {
    let mut b = tar::Builder::new(Vec::new());
    for (path, text) in entries {
        let mut h = tar::Header::new_gnu();
        h.set_size(text.len() as u64);
        h.set_mode(0o644);
        h.set_cksum();
        b.append_data(&mut h, path, text.as_bytes()).unwrap();
    }
    let tar = b.into_inner().unwrap();
    let mut enc = flate2::write::GzEncoder::new(Vec::new(), flate2::Compression::default());
    enc.write_all(&tar).unwrap();
    enc.finish().unwrap()
}

fn names(v: &[RepoPkg]) -> Vec<(String, String)> {
    v.iter().map(|p| (p.name.clone(), p.version.clone())).collect()
}

#[test]
fn local_database_is_keyed_by_name() {
    let texts = vec![local_desc("foo", "1.0.0-1"), local_desc("bar", "2.0-1"), "not a desc".to_string(), local_desc("foo", "1.0.0-2")];
    let local = PacmanCli::local_packages(&texts);
    assert_eq!(names(&local), vec![("foo".into(), "1.0.0-2".into()), ("bar".into(), "2.0-1".into())]);
    assert_eq!(local[0].description, "The foo package");
}

#[test]
fn sync_database_archive_is_read() {
    let data = archive(&[("foo-1.1.0-1/desc", &sync_desc("foo", "1.1.0-1")), ("foo-1.1.0-1/other", "x"), ("baz-3-1/desc", "broken")]);
    let db = PacmanCli::sync_db_records(&data);
    assert_eq!(db.len(), 1);
    assert_eq!(db[0].name, "foo");
    assert_eq!(db[0].details.version, "1.1.0-1");
    assert_eq!(db[0].details.depends, vec!["glibc".to_string()]);
    assert_eq!(db[0].details.url.as_deref(), Some("https://example.org/"));
    assert_eq!(db[0].details.installed_size, 9000);
    assert_eq!(db[0].details.compressed_size, 4634);
    assert!(PacmanCli::sync_db_records(b"not gzip").is_empty());

    let dbs = vec![db];
    let d = PacmanCli::sync_details(&dbs, "foo").unwrap();
    assert_eq!(d.packager, "Foobar McFooface <foobar@mcfooface.org>");
    assert!(PacmanCli::sync_details(&dbs, "bar").is_none());
    assert_eq!(names(&PacmanCli::sync_packages(&dbs)), vec![("foo".into(), "1.1.0-1".into())]);
}

#[test]
fn upgrades_come_from_the_first_database_holding_the_name() {
    let local = PacmanCli::local_packages(&vec![local_desc("foo", "1.0.0-2"), local_desc("bar", "2.0-1"), local_desc("qux", "1.10-1")]);
    let core = PacmanCli::sync_db_records(&archive(&[("foo/desc", &sync_desc("foo", "1.1.0-1")), ("qux/desc", &sync_desc("qux", "1.9-1"))]));
    let extra = PacmanCli::sync_db_records(&archive(&[("foo/desc", &sync_desc("foo", "9.0-1")), ("bar/desc", &sync_desc("bar", "2.1-1"))]));
    let ups = PacmanCli::repo_upgrades(&local, &vec![core, extra]);
    // foo from core (the first database that holds it), bar from extra; qux is older
    assert_eq!(names(&ups), vec![("foo".into(), "1.1.0-1".into()), ("bar".into(), "2.1-1".into())]);
}

#[test]
fn alpm_progress_stage_names() {
    assert_eq!(progress_stage_name(AlpmProgress::UpgradeStart), "installing");
    assert_eq!(progress_stage_name(AlpmProgress::RemoveStart), "removing");
    assert_eq!(progress_stage_name(AlpmProgress::IntegrityStart), "verifying");
    assert_eq!(progress_stage_name(AlpmProgress::LoadStart), "downloading");
    assert_eq!(progress_stage_name(AlpmProgress::KeyringStart), "keyring");
}

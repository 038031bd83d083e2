use soredowe::helper::{
    cache_files_to_remove, conf_include_paths, escape_json, helper_command, parse_pacman_conf, parse_u32,
    progress_json, removed_files_log, result_json, HelperCommand,
};

fn strings(v: &[&str]) -> Vec<String> {
    v.iter().map(|s| s.to_string()).collect()
}

#[test]
fn escape_json_escapes_specials() {
    assert_eq!(escape_json("a\"b\\c\nd\re\tf"), "a\\\"b\\\\c\\nd\\re\\tf");
    assert_eq!(escape_json("plain"), "plain");
    assert_eq!(escape_json(""), "");
}

#[test]
fn escaped_text_reads_back_through_serde() {
    let original = "line one\n\"quoted\" \\ tab\there";
    let line = format!("{{\"s\":\"{}\"}}", escape_json(original));
    let v: serde_json::Value = serde_json::from_str(&line).unwrap();
    assert_eq!(v["s"].as_str(), Some(original));
}

#[test]
fn result_lines() {
    assert_eq!(result_json(&Ok(())), "{\"type\":\"result\",\"code\":0}");
    assert_eq!(
        result_json(&Err("bad \"thing\"".to_string())),
        "{\"type\":\"result\",\"code\":1,\"message\":\"bad \\\"thing\\\"\"}"
    );
}

#[test]
fn progress_lines() {
    assert_eq!(
        progress_json("installing", Some("0.5"), None, Some("foo"), false),
        "{\"type\":\"progress\",\"stage\":\"installing\",\"percent\":0.5,\"log\":\"foo\",\"warning\":false}"
    );
    assert_eq!(
        progress_json("log", None, Some((10, 200)), None, true),
        "{\"type\":\"progress\",\"stage\":\"log\",\"bytes\":[10,200],\"warning\":true}"
    );
}

#[test]
fn parse_u32_like_std() {
    assert_eq!(parse_u32("42"), Some(42));
    assert_eq!(parse_u32("+7"), Some(7));
    assert_eq!(parse_u32("0"), Some(0));
    assert_eq!(parse_u32("4294967295"), Some(u32::MAX));
    assert_eq!(parse_u32("4294967296"), None);
    assert_eq!(parse_u32(""), None);
    assert_eq!(parse_u32("+"), None);
    assert_eq!(parse_u32("-1"), None);
    assert_eq!(parse_u32("12a"), None);
    for s in ["5", "+3", "99999999999", "x", ""] {
        assert_eq!(parse_u32(s), s.parse::<u32>().ok());
    }
}

#[test]
fn helper_commands() {
    assert!(matches!(helper_command(&strings(&["h", "refresh"])), Ok(HelperCommand::Refresh)));
    assert!(matches!(helper_command(&strings(&["h", "install", "vim"])), Ok(HelperCommand::Install(n)) if n == "vim"));
    assert!(matches!(helper_command(&strings(&["h", "remove", "vim"])), Ok(HelperCommand::Remove(n)) if n == "vim"));
    assert!(matches!(helper_command(&strings(&["h", "install"])), Err(m) if m == "missing package name"));
    assert!(matches!(helper_command(&strings(&["h", "sysupgrade"])), Ok(HelperCommand::Sysupgrade)));
    assert!(matches!(helper_command(&strings(&["h", "cache-clean", "5"])), Ok(HelperCommand::CacheClean(5))));
    assert!(matches!(helper_command(&strings(&["h", "cache-clean", "x"])), Ok(HelperCommand::CacheClean(3))));
    assert!(matches!(helper_command(&strings(&["h", "cache-clean"])), Ok(HelperCommand::CacheClean(3))));
    assert!(matches!(helper_command(&strings(&["h", "dance"])), Err(m) if m == "unknown command: dance"));
}

#[test]
fn cache_clean_keeps_newest_names() {
    // files are grouped by package name: version, release and architecture stripped
    let files = strings(&[
        "foo-1.0-1-x86_64.pkg.tar.zst",
        "foo-1.0-3-x86_64.pkg.tar.zst",
        "foo-1.0-2-x86_64.pkg.tar.zst",
        "foo-1.1-1-x86_64.pkg.tar.zst",
        "bar-2.0-1-any.pkg.tar.zst",
        "foo-1.0-3-x86_64.pkg.tar.zst.sig",
        "notes.txt",
    ]);
    assert_eq!(
        cache_files_to_remove(&files, 2),
        strings(&["foo-1.0-1-x86_64.pkg.tar.zst", "foo-1.0-2-x86_64.pkg.tar.zst"])
    );
    assert_eq!(
        cache_files_to_remove(&files, 1),
        strings(&["foo-1.0-1-x86_64.pkg.tar.zst", "foo-1.0-3-x86_64.pkg.tar.zst", "foo-1.0-2-x86_64.pkg.tar.zst"])
    );
    assert_eq!(cache_files_to_remove(&files, 0).len(), 5);
    assert_eq!(cache_files_to_remove(&files, 3), strings(&["foo-1.0-1-x86_64.pkg.tar.zst"]));
    assert_eq!(cache_files_to_remove(&files, 4), Vec::<String>::new());
    assert_eq!(removed_files_log(4), "removed 4 cached files");
}

#[test]
fn pacman_conf_sections_and_servers() {
    let conf = "[options]\nArchitecture = auto\nServer = http://ignored/$repo\n\n# comment\n[Core]\nServer = https://mirror/$repo/os/$arch\nInclude = /etc/pacman.d/mirrorlist\n[extra]\nInclude = /missing\n[core]\nServer = http://second/$repo\n";
    assert_eq!(conf_include_paths(conf), strings(&["/etc/pacman.d/mirrorlist", "/missing"]));
    let includes = vec![(
        "/etc/pacman.d/mirrorlist".to_string(),
        "## list\nServer = https://a/$repo/$arch\n#Server = https://b\n".to_string(),
    )];
    let mut repos = parse_pacman_conf(conf, "x86_64", &includes);
    repos.sort_by(|a, b| a.0.cmp(&b.0));
    assert_eq!(repos.len(), 2);
    assert_eq!(repos[0].0, "core");
    assert_eq!(repos[0].1, strings(&["http://second/core"]));
    assert_eq!(repos[1].0, "extra");
    assert!(repos[1].1.is_empty());
}

#[test]
fn pacman_conf_include_servers() {
    let conf = "[core]\nServer = https://mirror/$repo/os/$arch\nInclude = /etc/pacman.d/mirrorlist\n";
    let includes = vec![(
        "/etc/pacman.d/mirrorlist".to_string(),
        "Server = https://a/$repo/$arch\n".to_string(),
    )];
    let repos = parse_pacman_conf(conf, "aarch64", &includes);
    assert_eq!(repos.len(), 1);
    assert_eq!(repos[0].1, strings(&["https://mirror/core/os/aarch64", "https://a/core/aarch64"]));
}

use mycelium::retry::{backoff_seconds, retry_delays};
use mycelium::urls::{
    artifact_file_name, build_info_url, build_query_url, i64_to_string, partial_file_name,
    u64_to_string, zip_slug,
};
use mycelium::version_scan::{
    find_version, scan_readme, scan_source, stable_tag_of_line, version_of_line,
};

fn lines(texts: &[&str]) -> Vec<String> {
    texts.iter().map(|t| t.to_string()).collect()
}

#[test]
fn stable_tag_line_is_parsed_and_trimmed() {
    assert_eq!(stable_tag_of_line("Stable tag: 3.2.1").as_deref(), Some("3.2.1"));
    assert_eq!(stable_tag_of_line("  stable  TAG:   4.0  ").as_deref(), Some("4.0"));
    assert_eq!(stable_tag_of_line("STABLE TAG: trunk").as_deref(), Some("trunk"));
    assert_eq!(stable_tag_of_line("Stable tag:"), None);
    assert_eq!(stable_tag_of_line("Stable tag:    "), None);
    assert_eq!(stable_tag_of_line("Stabletag: 1.0"), None);
    assert_eq!(stable_tag_of_line("unstable tag: 1.0"), None);
}

#[test]
fn version_line_is_parsed_and_trimmed() {
    assert_eq!(version_of_line("Version: 2.0-beta").as_deref(), Some("2.0-beta"));
    assert_eq!(version_of_line(" * Version:   7.5 ").as_deref(), Some("7.5"));
    assert_eq!(version_of_line("* version: x").as_deref(), Some("x"));
    assert_eq!(version_of_line("Version:"), None);
    assert_eq!(version_of_line("** Version: 1.0"), None);
    assert_eq!(version_of_line("subversion: 1.0"), None);
}

#[test]
fn readme_with_stable_tag_wins() {
    let readme = lines(&["=== Widget ===", "Stable tag: 3.2.1", "Requires: 6.0"]);
    assert_eq!(find_version(Some(readme), None, Vec::new()).as_deref(), Some("3.2.1"));
}

#[test]
fn trunk_stable_tag_is_no_signal() {
    let readme = lines(&["Stable tag: trunk"]);
    assert_eq!(scan_readme(&readme), None);
    assert_eq!(find_version(Some(readme), None, Vec::new()), None);
}

#[test]
fn source_header_is_used_when_readme_gives_nothing() {
    let readme = lines(&["Stable tag: trunk"]);
    let main_file = lines(&["<?php", "/*", " * Version: 2.0-beta", " */"]);
    assert_eq!(
        find_version(Some(readme), Some(main_file), Vec::new()).as_deref(),
        Some("2.0-beta")
    );
}

#[test]
fn other_source_files_are_scanned_in_order() {
    let no_header = lines(&["<?php", "echo 1;"]);
    let with_header = lines(&["<?php", " * Version: 5.5"]);
    let later = lines(&[" * Version: 6.6"]);
    assert_eq!(
        find_version(None, None, vec![no_header, with_header, later]).as_deref(),
        Some("5.5")
    );
}

#[test]
fn readme_scan_stops_after_fifty_lines() {
    let mut texts: Vec<String> = Vec::new();
    for _ in 0..50 {
        texts.push("filler".to_string());
    }
    texts.push("Stable tag: 9.9".to_string());
    assert_eq!(scan_readme(&texts), None);
    let mut early: Vec<String> = Vec::new();
    for _ in 0..49 {
        early.push("filler".to_string());
    }
    early.push("Stable tag: 9.9".to_string());
    assert_eq!(scan_readme(&early).as_deref(), Some("9.9"));
}

#[test]
fn source_scan_stops_after_hundred_lines() {
    let mut texts: Vec<String> = Vec::new();
    for _ in 0..100 {
        texts.push("filler".to_string());
    }
    texts.push("Version: 9.9".to_string());
    assert_eq!(scan_source(&texts), None);
}

#[test]
fn decimal_rendering_is_exact() {
    assert_eq!(u64_to_string(0), "0");
    assert_eq!(u64_to_string(7), "7");
    assert_eq!(u64_to_string(10), "10");
    assert_eq!(u64_to_string(100500), "100500");
    assert_eq!(i64_to_string(-42), "-42");
    assert_eq!(i64_to_string(0), "0");
    assert_eq!(i64_to_string(i64::MIN), "-9223372036854775808");
}

#[test]
fn query_url_is_built_exactly() {
    assert_eq!(
        build_query_url(3, 100),
        "https://api.wordpress.org/plugins/info/1.2/?action=query_plugins&request[browse]=popular&request[per_page]=100&request[page]=3"
    );
}

#[test]
fn info_url_is_built_exactly() {
    assert_eq!(
        build_info_url("widget"),
        "https://api.wordpress.org/plugins/info/1.2/?action=plugin_information&request[slug]=widget"
    );
}

#[test]
fn artifact_names_follow_the_slug() {
    assert_eq!(artifact_file_name("widget"), "widget.zip");
    assert_eq!(partial_file_name("widget"), "widget.zip.part");
}

#[test]
fn zip_slug_accepts_only_zip_files_with_a_stem() {
    assert_eq!(zip_slug("widget.zip").as_deref(), Some("widget"));
    assert_eq!(zip_slug("a.b.zip").as_deref(), Some("a.b"));
    assert_eq!(zip_slug("widget.txt"), None);
    assert_eq!(zip_slug(".zip"), None);
    assert_eq!(zip_slug("zip"), None);
}

#[test]
fn backoff_doubles_per_attempt() {
    assert_eq!(backoff_seconds(0), 1);
    assert_eq!(backoff_seconds(1), 2);
    assert_eq!(backoff_seconds(3), 8);
    assert_eq!(retry_delays(4), vec![1, 2, 4, 8]);
    assert_eq!(retry_delays(0), Vec::<u64>::new());
}

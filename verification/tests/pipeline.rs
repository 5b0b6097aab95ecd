use mycelium::aggregate::aggregate_popular;
use mycelium::download::{plan_download, finish_download, DownloadPlan};
use mycelium::models::{DownloadResult, PageFetch, Plugin, RawItem};
use mycelium::report::{download_tally, report_rows, report_rows_with_versions, summarize_extraction, ExtractAttempt};
use mycelium::resolve::{resolve_fields, ResolvedLink};
use mycelium::staging::StagedWrite;

fn raw(slug: &str, installs: i64) -> RawItem {
    RawItem {
        slug: Some(slug.to_string()),
        name: Some(format!("{} name", slug)),
        active_installs: Some(installs),
        last_updated: None,
    }
}

#[test]
fn aggregate_isolates_failed_pages_and_keeps_max_duplicate() {
    // Three pages of size two; page 2 fails entirely; one item repeats
    // between pages 1 and 3 with popularity 100 then 150; floor 50.
    let pages = vec![
        PageFetch::Fetched { page: 1, items: vec![raw("alpha", 100), raw("beta", 90)] },
        PageFetch::Failed { page: 2 },
        PageFetch::Fetched { page: 3, items: vec![raw("alpha", 150), raw("gamma", 60)] },
    ];
    let out = aggregate_popular(pages, 50);
    assert_eq!(out.len(), 3);
    let alpha = out.iter().find(|p| p.slug == "alpha").unwrap();
    assert_eq!(alpha.active_installs, 150);
    assert_eq!(alpha.page, 3);
    assert!(out.iter().any(|p| p.slug == "beta"));
    assert!(out.iter().any(|p| p.slug == "gamma"));
}

#[test]
fn aggregate_keeps_first_seen_on_popularity_tie() {
    let pages = vec![
        PageFetch::Fetched { page: 1, items: vec![raw("alpha", 100)] },
        PageFetch::Fetched { page: 2, items: vec![raw("alpha", 100)] },
    ];
    let out = aggregate_popular(pages, 0);
    assert_eq!(out.len(), 1);
    assert_eq!(out[0].page, 1);
    assert_eq!(out[0].active_installs, 100);
}

#[test]
fn aggregate_applies_floor_and_drops_empty_slugs() {
    let nameless = RawItem { slug: None, name: None, active_installs: Some(9000), last_updated: None };
    let empty_slug = RawItem {
        slug: Some(String::new()),
        name: Some("x".to_string()),
        active_installs: Some(9000),
        last_updated: None,
    };
    let pages = vec![PageFetch::Fetched {
        page: 1,
        items: vec![raw("low", 49), raw("high", 51), nameless, empty_slug],
    }];
    let out = aggregate_popular(pages, 50);
    assert_eq!(out.len(), 1);
    assert_eq!(out[0].slug, "high");
    assert!(out.iter().all(|p| p.active_installs >= 50));
}

#[test]
fn aggregate_sorts_by_popularity_descending() {
    let pages = vec![PageFetch::Fetched {
        page: 1,
        items: vec![raw("a", 5), raw("b", 500), raw("c", 50), raw("d", 5000)],
    }];
    let out = aggregate_popular(pages, 0);
    assert_eq!(out.len(), 4);
    for w in out.windows(2) {
        assert!(w[0].active_installs >= w[1].active_installs);
    }
    assert_eq!(out[0].slug, "d");
    assert_eq!(out[3].slug, "a");
}

#[test]
fn aggregate_treats_missing_installs_as_zero() {
    let unknown = RawItem {
        slug: Some("mystery".to_string()),
        name: None,
        active_installs: None,
        last_updated: None,
    };
    let pages = vec![PageFetch::Fetched { page: 1, items: vec![unknown] }];
    assert_eq!(aggregate_popular(pages, 1).len(), 0);
    let unknown2 = RawItem {
        slug: Some("mystery".to_string()),
        name: None,
        active_installs: None,
        last_updated: None,
    };
    let pages2 = vec![PageFetch::Fetched { page: 1, items: vec![unknown2] }];
    let out = aggregate_popular(pages2, 0);
    assert_eq!(out.len(), 1);
    assert_eq!(out[0].active_installs, 0);
    assert_eq!(out[0].name, "");
}

#[test]
fn resolver_rejects_url_without_http_scheme() {
    let r = resolve_fields(
        Some("ftp://mirror.example/x.zip".to_string()),
        Some("1.2.3".to_string()),
    );
    assert!(r.url.is_none());
    assert_eq!(r.version.as_deref(), Some("1.2.3"));
}

#[test]
fn resolver_rejects_lookalike_scheme_prefixes() {
    // Only the http(s) scheme counts: a link that merely starts with
    // the four letters `http` is not a usable URL.
    let r = resolve_fields(Some("httpx://e".to_string()), Some("1.0".to_string()));
    assert!(r.url.is_none());
    assert_eq!(r.version.as_deref(), Some("1.0"));
    let r2 = resolve_fields(Some("http:/half".to_string()), None);
    assert!(r2.url.is_none());
    let r3 = resolve_fields(Some("http".to_string()), None);
    assert!(r3.url.is_none());
    let r4 = resolve_fields(Some("https:example".to_string()), None);
    assert!(r4.url.is_none());
}

#[test]
fn resolver_accepts_http_and_https_urls() {
    let r = resolve_fields(Some("https://example.org/a.zip".to_string()), None);
    assert_eq!(r.url.as_deref(), Some("https://example.org/a.zip"));
    let r2 = resolve_fields(Some("http://example.org/a.zip".to_string()), None);
    assert!(r2.url.is_some());
    let r3 = resolve_fields(None, Some("2.0".to_string()));
    assert!(r3.url.is_none());
    assert_eq!(r3.version.as_deref(), Some("2.0"));
}

#[test]
fn missing_link_yields_no_download_link_outcome_with_version() {
    // An item whose detail record carries a link without the http(s)
    // scheme: the resolver drops the URL and the orchestrator records
    // the failure, keeping the version.
    let link = resolve_fields(Some("mirror.example/x.zip".to_string()), Some("4.4".to_string()));
    let plan = plan_download("widget", Ok(link), false);
    match plan {
        DownloadPlan::Skip(d) => {
            assert_eq!(d.slug, "widget");
            assert!(!d.success);
            assert_eq!(d.message, "no download_link");
            assert_eq!(d.version.as_deref(), Some("4.4"));
        }
        DownloadPlan::Fetch { .. } => panic!("expected a skip"),
    }
}

#[test]
fn existing_artifact_skips_network_idempotently() {
    let link = ResolvedLink {
        url: Some("https://example.org/w.zip".to_string()),
        version: Some("1.0".to_string()),
    };
    // First pass: nothing on disk, so the plan is a fetch.
    let first = plan_download("widget", Ok(link), false);
    assert!(matches!(first, DownloadPlan::Fetch { .. }));
    // Second pass: the artifact already exists non-empty; the plan is a
    // success outcome without any fetch, however often it is repeated.
    for _ in 0..2 {
        let link = ResolvedLink {
            url: Some("https://example.org/w.zip".to_string()),
            version: Some("1.0".to_string()),
        };
        let again = plan_download("widget", Ok(link), true);
        match again {
            DownloadPlan::Skip(d) => {
                assert!(d.success);
                assert_eq!(d.message, "already exists");
                assert_eq!(d.version.as_deref(), Some("1.0"));
            }
            DownloadPlan::Fetch { .. } => panic!("idempotent skip must not fetch"),
        }
    }
}

#[test]
fn failed_resolution_is_reported_with_cause() {
    let plan = plan_download("widget", Err("connect timeout".to_string()), false);
    match plan {
        DownloadPlan::Skip(d) => {
            assert!(!d.success);
            assert_eq!(d.message, "error: connect timeout");
            assert!(d.version.is_none());
        }
        DownloadPlan::Fetch { .. } => panic!("expected a skip"),
    }
}

#[test]
fn finished_download_outcomes() {
    let ok = finish_download("widget", Some("1.0".to_string()), None);
    assert!(ok.success);
    assert_eq!(ok.message, "downloaded");
    assert_eq!(ok.version.as_deref(), Some("1.0"));
    let bad = finish_download("widget", None, Some("504 gateway timeout".to_string()));
    assert!(!bad.success);
    assert_eq!(bad.message, "download failed: 504 gateway timeout");
}

#[test]
fn interrupted_transfer_leaves_destination_absent() {
    let mut t = StagedWrite::new();
    t.write_chunk(&[1, 2, 3]);
    // Simulated failure after a partial write: the transfer aborts, and
    // the final destination was never created.
    t.abort();
    assert!(t.committed_bytes().is_none());
}

#[test]
fn interrupted_retry_never_clobbers_published_content() {
    let mut t = StagedWrite::new();
    t.write_chunk(&[10, 20]);
    t.write_chunk(&[30]);
    t.commit();
    assert_eq!(t.committed_bytes().as_deref(), Some(&[10u8, 20, 30][..]));
    // A later transfer of the same item dies mid-way: the destination
    // still holds the complete earlier content, never a partial mix.
    t.write_chunk(&[99]);
    t.abort();
    assert_eq!(t.committed_bytes().as_deref(), Some(&[10u8, 20, 30][..]));
}

fn plugin(slug: &str, installs: i64) -> Plugin {
    Plugin {
        slug: slug.to_string(),
        name: format!("{} name", slug),
        active_installs: installs,
        last_updated: None,
        page: 1,
    }
}

fn outcome(slug: &str, success: bool) -> DownloadResult {
    DownloadResult {
        slug: slug.to_string(),
        success,
        message: String::new(),
        version: None,
    }
}

#[test]
fn report_rows_mark_downloaded_plugins() {
    let plugins = vec![plugin("a", 10), plugin("b", 5)];
    let results = vec![outcome("a", true), outcome("b", false)];
    let rows = report_rows(&plugins, &results);
    assert_eq!(rows.len(), 2);
    assert_eq!(rows[0].slug, "a");
    assert_eq!(rows[0].status, "downloaded");
    assert_eq!(rows[0].version, "");
    assert_eq!(rows[1].status, "not downloaded");
}

#[test]
fn enriched_rows_carry_versions_for_downloaded_plugins() {
    let plugins = vec![plugin("a", 10), plugin("b", 5), plugin("c", 1)];
    let results = vec![outcome("a", true), outcome("c", true)];
    let versions = vec![Some("3.1".to_string()), Some("9.9".to_string()), None];
    let rows = report_rows_with_versions(&plugins, &results, &versions);
    assert_eq!(rows[0].status, "extracted");
    assert_eq!(rows[0].version, "3.1");
    assert_eq!(rows[1].status, "not downloaded");
    assert_eq!(rows[1].version, "");
    assert_eq!(rows[2].status, "extracted");
    assert_eq!(rows[2].version, "");
}

#[test]
fn download_tally_counts_successes_and_failures() {
    let results = vec![outcome("a", true), outcome("b", false), outcome("c", true)];
    let (ok, fail) = download_tally(&results);
    assert_eq!(ok, 2);
    assert_eq!(fail, 1);
    let (ok0, fail0) = download_tally(&Vec::new());
    assert_eq!((ok0, fail0), (0, 0));
}

#[test]
fn extraction_summary_keeps_successful_slugs_in_order() {
    let attempts = vec![
        ExtractAttempt { slug: "a".to_string(), success: true },
        ExtractAttempt { slug: "bad".to_string(), success: false },
        ExtractAttempt { slug: "c".to_string(), success: true },
    ];
    let (slugs, ok, fail) = summarize_extraction(&attempts);
    assert_eq!(slugs, vec!["a".to_string(), "c".to_string()]);
    assert_eq!(ok, 2);
    assert_eq!(fail, 1);
}

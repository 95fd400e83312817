use seaward::page::Document;
use seaward::Crawl;

const LINK_SELECTORS: [&str; 2] = ["a[href]", "link[href]"];

fn page_of(site: &[(&str, &str)], url: &str) -> Option<String> {
    site.iter().find(|(u, _)| *u == url).map(|(_, body)| body.to_string())
}

/// Runs a crawl in link mode over a site held in memory: returns the URLs
/// fetched and the links reported, in order.
fn run(site: &[(&str, &str)], seed: &str, depth: Option<u32>, strict: bool) -> (Vec<String>, Vec<String>) {
    let mut crawl = Crawl::new(seed, depth, strict).expect("seed parses");
    let mut fetched = Vec::new();
    let mut reported = Vec::new();
    while let Some(url) = crawl.next_url() {
        fetched.push(url.clone());
        if let Some(body) = page_of(site, &url) {
            let doc = Document::parse(&body);
            reported.extend(crawl.visit_page(&url, &doc, &LINK_SELECTORS));
        }
    }
    (fetched, reported)
}

#[test]
fn depth_one_lists_direct_links_only() {
    let site = [
        ("https://ex.test/", "<a href=\"/a\">a</a><a href=\"/b\">b</a><a href=\"https://other.test/\">o</a>"),
        ("https://ex.test/a", "<a href=\"/c\">c</a>"),
        ("https://ex.test/b", "<a href=\"/d\">d</a>"),
    ];
    let (fetched, reported) = run(&site, "https://ex.test/", Some(1), false);
    assert_eq!(reported, vec!["https://ex.test/a".to_string(), "https://ex.test/b".to_string()]);
    assert_eq!(
        fetched,
        vec!["https://ex.test/".to_string(), "https://ex.test/a".to_string(), "https://ex.test/b".to_string()]
    );
}

#[test]
fn depth_one_does_not_follow_second_layer() {
    let site = [
        ("https://ex.test/", "<a href=\"/a\">a</a>"),
        ("https://ex.test/a", "<a href=\"/c\">c</a>"),
        ("https://ex.test/c", "<a href=\"/d\">d</a>"),
    ];
    let (fetched, _) = run(&site, "https://ex.test/", Some(1), false);
    assert_eq!(fetched, vec!["https://ex.test/".to_string(), "https://ex.test/a".to_string()]);
}

#[test]
fn depth_zero_fetches_only_the_seed() {
    let site = [(
        "https://ex.test/",
        "<a href=\"/a\">a</a><a href=\"/b\">b</a><a href=\"/c\">c</a>",
    )];
    let (fetched, reported) = run(&site, "https://ex.test/", Some(0), false);
    assert_eq!(fetched, vec!["https://ex.test/".to_string()]);
    assert!(reported.is_empty());
}

#[test]
fn depth_counts_layers_not_pages() {
    let site = [
        ("https://ex.test/", "<a href=\"/a\">a</a><a href=\"/b\">b</a>"),
        ("https://ex.test/a", "<a href=\"/c\">c</a>"),
        ("https://ex.test/b", "<a href=\"/d\">d</a>"),
        ("https://ex.test/c", "<a href=\"/e\">e</a>"),
        ("https://ex.test/d", ""),
    ];
    let (fetched, reported) = run(&site, "https://ex.test/", Some(2), false);
    assert_eq!(
        fetched,
        vec![
            "https://ex.test/".to_string(),
            "https://ex.test/a".to_string(),
            "https://ex.test/b".to_string(),
            "https://ex.test/c".to_string(),
            "https://ex.test/d".to_string(),
        ]
    );
    assert_eq!(
        reported,
        vec![
            "https://ex.test/a".to_string(),
            "https://ex.test/b".to_string(),
            "https://ex.test/c".to_string(),
            "https://ex.test/d".to_string(),
        ]
    );
}

#[test]
fn cycles_are_fetched_once() {
    let site = [
        ("https://ex.test/", "<a href=\"/a\">a</a><a href=\"/b\">b</a>"),
        ("https://ex.test/a", "<a href=\"/b\">b</a><a href=\"/\">home</a>"),
        ("https://ex.test/b", "<a href=\"/a\">a</a><a href=\"/#top\">home</a>"),
    ];
    let (fetched, reported) = run(&site, "https://ex.test/", None, false);
    assert_eq!(fetched.len(), 3);
    let mut sorted = fetched.clone();
    sorted.sort();
    sorted.dedup();
    assert_eq!(sorted.len(), fetched.len());
    assert_eq!(reported, vec!["https://ex.test/a".to_string(), "https://ex.test/b".to_string()]);
}

#[test]
fn failed_fetch_is_skipped() {
    let site = [
        ("https://ex.test/", "<a href=\"/missing\">m</a><a href=\"/b\">b</a>"),
        ("https://ex.test/b", "<p>b</p>"),
    ];
    let (fetched, _) = run(&site, "https://ex.test/", None, false);
    assert_eq!(
        fetched,
        vec!["https://ex.test/".to_string(), "https://ex.test/missing".to_string(), "https://ex.test/b".to_string()]
    );
}

#[test]
fn crawling_twice_gives_the_same_result() {
    let site = [
        ("https://ex.test/", "<a href=\"/x\">x</a><a href=\"/y\">y</a>"),
        ("https://ex.test/x", "<a href=\"/z\">z</a><a href=\"/y\">y</a>"),
        ("https://ex.test/y", "<a href=\"/x\">x</a>"),
        ("https://ex.test/z", ""),
    ];
    let first = run(&site, "https://ex.test/", None, false);
    let second = run(&site, "https://ex.test/", None, false);
    assert_eq!(first, second);
    assert_eq!(first.1.len(), 3);
}

#[test]
fn strict_crawl_stays_under_seed_path() {
    let site = [
        ("https://ex.test/sub/", "<a href=\"/sub/x\">x</a><a href=\"/sub2/\">y</a><a href=\"/\">up</a>"),
        ("https://ex.test/sub/x", ""),
    ];
    let (fetched, reported) = run(&site, "https://ex.test/sub/", None, true);
    assert_eq!(reported, vec!["https://ex.test/sub/x".to_string()]);
    assert_eq!(fetched.len(), 2);
}

#[test]
fn invalid_seed_starts_no_crawl() {
    assert!(Crawl::new("ex.test", None, false).is_none());
}

#[test]
fn scope_comes_from_the_seed() {
    let crawl = Crawl::new("https://ex.test/docs/#intro", Some(3), true).unwrap();
    assert_eq!(crawl.scope().seed, "https://ex.test/docs/");
    assert_eq!(crawl.scope().path, "/docs/");
}

#[test]
fn fragment_variants_are_one_page() {
    let site = [
        (
            "https://ex.test/",
            "<a href=\"#top\">t</a><a href=\"#s1\">s</a><a href=\"/x#a\">a</a><a href=\"/x#b\">b</a><a href=\"/x\">x</a>",
        ),
        ("https://ex.test/x", ""),
    ];
    let (fetched, reported) = run(&site, "https://ex.test/", Some(1), false);
    assert_eq!(fetched, vec!["https://ex.test/".to_string(), "https://ex.test/x".to_string()]);
    assert_eq!(reported, vec!["https://ex.test/x".to_string()]);
}

#[test]
fn strict_scope_is_judged_against_the_seed() {
    let site = [
        ("https://example.com/sub/", "<a href=\"/sub/x/\">x</a>"),
        ("https://example.com/sub/x/", "<a href=\"/sub/y\">y</a>"),
        ("https://example.com/sub/y", ""),
    ];
    let (fetched, _) = run(&site, "https://example.com/sub/", None, true);
    assert_eq!(
        fetched,
        vec![
            "https://example.com/sub/".to_string(),
            "https://example.com/sub/x/".to_string(),
            "https://example.com/sub/y".to_string(),
        ]
    );
}

#[test]
fn crawl_goes_on_after_a_failed_fetch() {
    let site = [
        ("https://ex.test/", "<a href=\"/bad\">bad</a><a href=\"/ok\">ok</a>"),
        ("https://ex.test/ok", "<a href=\"/ok2\">ok2</a><a href=\"/bad\">bad</a>"),
        ("https://ex.test/ok2", ""),
    ];
    let (fetched, _) = run(&site, "https://ex.test/", None, false);
    assert_eq!(
        fetched,
        vec![
            "https://ex.test/".to_string(),
            "https://ex.test/bad".to_string(),
            "https://ex.test/ok".to_string(),
            "https://ex.test/ok2".to_string(),
        ]
    );
}

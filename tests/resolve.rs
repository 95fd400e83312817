use seaward::page::Document;
use seaward::url::{resolve_link, Scope, UrlParts};
use seaward::find_links;

fn scope(seed: &str, strict: bool) -> Scope {
    Scope::new(seed, strict).expect("seed parses")
}

fn parts(text: &str, host: Option<&str>, path: &str) -> UrlParts {
    UrlParts {
        text: text.to_string(),
        host: host.map(|h| h.to_string()),
        path: path.to_string(),
    }
}

#[test]
fn parent_reference_resolves_against_page() {
    let s = scope("https://example.com/", false);
    // `b` is the last segment of the base, so `..` climbs out of `/a/`.
    assert_eq!(
        resolve_link("https://example.com/a/b", "../c", &s),
        Some("https://example.com/c".to_string())
    );
    assert_eq!(
        resolve_link("https://example.com/a/b/", "../c", &s),
        Some("https://example.com/a/c".to_string())
    );
}

#[test]
fn fragment_is_stripped() {
    let s = scope("https://example.com/", false);
    assert_eq!(
        resolve_link("https://example.com/a/b/", "../c#part", &s),
        Some("https://example.com/a/c".to_string())
    );
    assert_eq!(
        resolve_link("https://example.com/a/b#top", "#section", &s),
        Some("https://example.com/a/b".to_string())
    );
}

#[test]
fn fragment_only_links_count_once() {
    let s = scope("https://example.com/", false);
    let doc = Document::parse(
        "<html><body><a href=\"#one\">1</a><a href=\"#two\">2</a><a href=\"\">3</a></body></html>",
    );
    let links = find_links("https://example.com/a/b", &doc, &["a[href]"], &s);
    assert_eq!(links, vec!["https://example.com/a/b".to_string()]);
}

#[test]
fn absolute_and_root_relative_links() {
    let s = scope("https://example.com/", false);
    assert_eq!(
        resolve_link("https://example.com/a/b", "/x/y", &s),
        Some("https://example.com/x/y".to_string())
    );
    assert_eq!(
        resolve_link("https://example.com/a/b", "https://www.example.com/z", &s),
        Some("https://www.example.com/z".to_string())
    );
    assert_eq!(resolve_link("https://example.com/a/b", "d", &s), Some("https://example.com/a/d".to_string()));
}

#[test]
fn other_domains_are_rejected() {
    let s = scope("https://example.com/", false);
    assert_eq!(resolve_link("https://example.com/", "https://other.test/", &s), None);
    assert_eq!(resolve_link("https://example.com/", "https://notexample.com/", &s), None);
}

#[test]
fn unparsable_reference_gives_no_link() {
    let s = scope("https://example.com/", false);
    assert_eq!(resolve_link("https://example.com/", "http://[::1", &s), None);
    assert_eq!(resolve_link("not a url", "/a", &s), None);
}

#[test]
fn strict_scope_keeps_subpaths_only() {
    let s = scope("https://example.com/sub/", true);
    assert_eq!(
        resolve_link("https://example.com/sub/", "https://example.com/sub/x", &s),
        Some("https://example.com/sub/x".to_string())
    );
    assert_eq!(resolve_link("https://example.com/sub/", "https://example.com/sub2/", &s), None);
    assert_eq!(
        resolve_link("https://example.com/sub/", "https://example.com/sub/file/", &s),
        Some("https://example.com/sub/file/".to_string())
    );
}

#[test]
fn strict_scope_respects_segment_boundaries() {
    let s = scope("https://example.com/sub", true);
    assert!(!s.contains(&parts("https://example.com/subpath", Some("example.com"), "/subpath")));
    assert!(s.contains(&parts("https://example.com/sub/x", Some("example.com"), "/sub/x")));
    assert!(s.contains(&parts("https://example.com/sub", Some("example.com"), "/sub")));
}

#[test]
fn loose_scope_ignores_paths() {
    let s = scope("https://example.com/sub/", false);
    assert_eq!(
        resolve_link("https://example.com/sub/", "https://example.com/sub2/", &s),
        Some("https://example.com/sub2/".to_string())
    );
}

#[test]
fn subdomains_are_in_scope() {
    let s = scope("https://example.com/", false);
    assert!(s.contains(&parts("https://a.example.com/", Some("a.example.com"), "/")));
    assert!(s.contains(&parts("https://example.com/", Some("example.com"), "/")));
    assert!(!s.contains(&parts("https://badexample.com/", Some("badexample.com"), "/")));
    assert!(!s.contains(&parts("https://127.0.0.1/", Some("127.0.0.1"), "/")));
    assert!(!s.contains(&parts("data:text/plain,x", None, "text/plain,x")));
}

#[test]
fn seed_addressed_by_ip_admits_its_own_host() {
    let s = scope("http://127.0.0.1/", false);
    assert_eq!(s.host, Some("127.0.0.1".to_string()));
    assert_eq!(resolve_link("http://127.0.0.1/", "/a", &s), Some("http://127.0.0.1/a".to_string()));
    assert_eq!(resolve_link("http://127.0.0.1/", "http://127.0.0.2/a", &s), None);
    let v6 = scope("http://[::1]:8080/", false);
    assert_eq!(resolve_link("http://[::1]:8080/", "/b", &v6), Some("http://[::1]:8080/b".to_string()));
}

#[test]
fn seed_without_host_admits_nothing() {
    let s = scope("file:///tmp/site/index.html", false);
    assert_eq!(s.host, None);
    assert_eq!(resolve_link("file:///tmp/site/index.html", "other.html", &s), None);
    assert_eq!(resolve_link("https://example.com/", "/a", &s), None);
}

#[test]
fn seed_is_normalized() {
    let s = scope("HTTPS://Example.COM#top", true);
    assert_eq!(s.seed, "https://example.com/");
    assert_eq!(s.host, Some("example.com".to_string()));
    assert_eq!(s.path, "/");
    assert!(s.strict);
}

#[test]
fn invalid_seed_has_no_scope() {
    assert!(Scope::new("not a url", false).is_none());
    assert!(Scope::new("", false).is_none());
}

#[test]
fn links_are_found_in_order_without_repeats() {
    let s = scope("https://ex.test/", false);
    let doc = Document::parse(
        "<html><head><link rel=\"stylesheet\" href=\"/style.css\"></head><body>\
         <a href=\"/b\">b</a><a href=\"/a\">a</a><a href=\"/b#x\">b again</a>\
         <a>no href</a><a href=\"https://other.test/\">out</a></body></html>",
    );
    let links = find_links("https://ex.test/", &doc, &["a[href]", "link[href]"], &s);
    assert_eq!(
        links,
        vec![
            "https://ex.test/b".to_string(),
            "https://ex.test/a".to_string(),
            "https://ex.test/style.css".to_string(),
        ]
    );
    let anchors = find_links("https://ex.test/", &doc, &["a[href]"], &s);
    assert_eq!(anchors.len(), 2);
}

#[test]
fn invalid_selector_is_skipped() {
    let s = scope("https://ex.test/", false);
    let doc = Document::parse("<a href=\"/a\">a</a>");
    let links = find_links("https://ex.test/", &doc, &["a[[", "a[href]"], &s);
    assert_eq!(links, vec!["https://ex.test/a".to_string()]);
    assert_eq!(doc.attribute_values("a[[", "href"), None);
}

#[test]
fn elements_without_the_attribute_give_none() {
    let doc = Document::parse("<a href=\"/a\">a</a><a name=\"x\">b</a>");
    assert_eq!(doc.attribute_values("a", "href"), Some(vec![Some("/a".to_string()), None]));
    let s = scope("https://ex.test/", false);
    assert_eq!(find_links("https://ex.test/", &doc, &["a"], &s), vec!["https://ex.test/a".to_string()]);
}

use crawler::crawler::{is_html_content_type, robots_link, WebCrawler};
use crawler::links::{extract_root_domain, generate_internal_links, validate_and_process_link};
use crawler::normalize::{starts_with, strip_to_root_path, trim_trailing_slash};
use crawler::url_set::UrlSet;

const TESTING_LINKS: &str = r##"<!DOCTYPE html>
<html>
<head><title>Links</title></head>
<body>
  <a href="/goodLink">relative</a>
  <a href="https://example.com/goodInternalLink">internal</a>
  <a href="https://example.com/goodLinkTrimMe/">trailing slash</a>
  <a href="https://example.com/goodLink">duplicate</a>
  <a href="https://external.org/page">external</a>
  <a href="//example.com/protocolRelative">protocol relative</a>
  <a href="mailto:someone@example.com">mail</a>
  <a href="#section">fragment</a>
  <a>no target</a>
</body>
</html>
"##;

fn internal_links(root: &str) -> Vec<String> {
    generate_internal_links(&TESTING_LINKS.to_string(), &root.to_string(), &UrlSet::new())
}

#[test]
fn test_valid_html_links_total() {
    let internal_links = internal_links("https://example.com");
    assert_eq!(3, internal_links.len());
}

#[test]
fn test_valid_html_links_relative_link() {
    let internal_links = internal_links("https://example.com");
    assert_eq!(true, internal_links.contains(&"https://example.com/goodLink".to_string()));
}

#[test]
fn test_valid_html_links_trimmed_link() {
    let internal_links = internal_links("https://example.com");
    assert_eq!(true, internal_links.contains(&"https://example.com/goodLinkTrimMe".to_string()));
}

#[test]
fn test_valid_html_links_full_link_internal() {
    let internal_links = internal_links("https://example.com");
    assert_eq!(true, internal_links.contains(&"https://example.com/goodInternalLink".to_string()));
}

#[test]
fn test_valid_html_links_full_link_external() {
    let internal_links = internal_links("https://facade.com");
    assert_eq!(false, internal_links.contains(&"https://example.com/goodInternalLink".to_string()));
}

#[test]
fn relative_hrefs_resolve_against_the_root_domain() {
    let links = internal_links("https://facade.com");
    assert_eq!(links, vec!["https://facade.com/goodLink".to_string()]);
}

#[test]
fn trim_removes_exactly_one_slash() {
    assert_eq!(trim_trailing_slash("https://example.com/a/".to_string()), "https://example.com/a");
    assert_eq!(trim_trailing_slash("https://example.com/a".to_string()), "https://example.com/a");
    assert_eq!(trim_trailing_slash("https://example.com/a//".to_string()), "https://example.com/a/");
    assert_eq!(trim_trailing_slash(String::new()), "");
}

#[test]
fn canonical_links_are_stable() {
    for link in internal_links("https://example.com") {
        assert_eq!(trim_trailing_slash(link.clone()), link);
    }
}

#[test]
fn root_path_segment_of_paths() {
    assert_eq!(strip_to_root_path("/private/data"), Some("/private".to_string()));
    assert_eq!(strip_to_root_path("//a//b"), Some("/a".to_string()));
    assert_eq!(strip_to_root_path("docs"), Some("/docs".to_string()));
    assert_eq!(strip_to_root_path("/"), None);
    assert_eq!(strip_to_root_path(""), None);
}

#[test]
fn prefix_check() {
    assert!(starts_with("https://x", "http"));
    assert!(!starts_with("/x", "http"));
    assert!(!starts_with("ht", "http"));
}

#[test]
fn root_domain_of_urls() {
    assert_eq!(
        extract_root_domain(&"https://Example.COM/path/page?q=1".to_string()),
        Some("https://example.com".to_string())
    );
    assert_eq!(
        extract_root_domain(&"http://127.0.0.1/".to_string()),
        Some("http://127.0.0.1".to_string())
    );
    assert_eq!(extract_root_domain(&"mailto:someone@example.com".to_string()), None);
    assert_eq!(extract_root_domain(&"not a url".to_string()), None);
}

#[test]
fn cross_domain_href_is_dropped() {
    let root = "https://facade.com".to_string();
    let none = UrlSet::new();
    assert_eq!(validate_and_process_link("https://example.com/goodInternalLink", &root, &none), None);
    assert_eq!(
        validate_and_process_link("https://facade.com/page/", &root, &none),
        Some("https://facade.com/page".to_string())
    );
    assert_eq!(validate_and_process_link("mailto:a@facade.com", &root, &none), None);
}

#[test]
fn excluded_segment_is_dropped() {
    let root = "https://example.com".to_string();
    let mut excluded = UrlSet::new();
    excluded.insert("/private".to_string());
    assert_eq!(validate_and_process_link("/private/x", &root, &excluded), None);
    assert_eq!(validate_and_process_link("https://example.com/private", &root, &excluded), None);
    assert_eq!(
        validate_and_process_link("/public/x", &root, &excluded),
        Some("https://example.com/public/x".to_string())
    );
}

#[test]
fn robots_disallow_excludes_later_links() {
    let mut crawler = WebCrawler::new();
    crawler.process_robots(&"User-agent: *\r\nDisallow: /private/area\r\nAllow: /open\nDisallow: /\n".to_string());
    assert!(crawler.is_disallowed_link(&"/private".to_string()));
    assert!(!crawler.is_disallowed_link(&"/open".to_string()));
    let html = r#"<a href="/private/secret">s</a><a href="/ok">ok</a>"#.to_string();
    let claimed = crawler.scrape_page("https://example.com".to_string(), Some(html));
    assert_eq!(claimed, vec!["https://example.com/ok".to_string()]);
}

#[test]
fn robots_duplicates_collapse() {
    let mut crawler = WebCrawler::new();
    assert!(crawler.add_to_disallowed_links("/a".to_string()));
    crawler.process_robots(&"Disallow: /a/b\nDisallow: /a".to_string());
    assert!(crawler.is_disallowed_link(&"/a".to_string()));
    assert!(!crawler.add_to_disallowed_links("/a".to_string()));
}

#[test]
fn failed_fetch_records_nothing() {
    let mut crawler = WebCrawler::new();
    let claimed = crawler.scrape_page("https://example.com/a".to_string(), None);
    assert!(claimed.is_empty());
    assert!(crawler.all_links().is_empty());
    assert!(crawler.links_by_page().is_empty());
    let html = r#"<a href="/b">b</a>"#.to_string();
    let claimed = crawler.scrape_page("https://example.com/c".to_string(), Some(html));
    assert_eq!(claimed, vec!["https://example.com/b".to_string()]);
}

#[test]
fn scrape_claims_only_new_links() {
    let mut crawler = WebCrawler::new();
    assert!(crawler.add_to_visited_links("https://example.com".to_string()));
    crawler.add_to_visited_links("https://example.com/goodLink".to_string());
    let claimed = crawler.scrape_page("https://example.com".to_string(), Some(TESTING_LINKS.to_string()));
    assert_eq!(claimed.len(), 2);
    assert!(!claimed.contains(&"https://example.com/goodLink".to_string()));
    assert_eq!(crawler.all_links().len(), 4);
    let pages = crawler.links_by_page();
    assert_eq!(pages.len(), 1);
    assert_eq!(pages[0].0, "https://example.com");
    assert_eq!(pages[0].1.len(), 3);
}

#[test]
fn visited_claim_is_exactly_once() {
    let mut crawler = WebCrawler::new();
    let mut won = 0;
    for _ in 0..8 {
        if crawler.add_to_visited_links("https://example.com/x".to_string()) {
            won += 1;
        }
    }
    assert_eq!(won, 1);
}

#[test]
fn page_links_are_replaced() {
    let mut crawler = WebCrawler::new();
    crawler.add_to_links_by_page("p".to_string(), vec!["a".to_string()]);
    crawler.add_to_links_by_page("p".to_string(), vec!["b".to_string(), "c".to_string()]);
    let pages = crawler.links_by_page();
    assert_eq!(pages.len(), 1);
    assert_eq!(pages[0].1, vec!["b".to_string(), "c".to_string()]);
}

#[test]
fn robots_and_content_type() {
    assert_eq!(robots_link(&"https://example.com".to_string()), "https://example.com/robots.txt");
    assert!(is_html_content_type(Some("text/html")));
    assert!(!is_html_content_type(Some("text/html; charset=utf-8")));
    assert!(!is_html_content_type(Some("application/json")));
    assert!(!is_html_content_type(None));
}

#[test]
fn ip_address_host_is_a_root_domain() {
    let root = "http://127.0.0.1".to_string();
    let none = UrlSet::new();
    assert_eq!(
        validate_and_process_link("/a/", &root, &none),
        Some("http://127.0.0.1/a".to_string())
    );
    assert_eq!(validate_and_process_link("http://127.0.0.2/a", &root, &none), None);
}

#[test]
fn links_by_page_lists_every_page_once() {
    let mut crawler = WebCrawler::new();
    crawler.add_to_links_by_page("p".to_string(), vec!["a".to_string()]);
    crawler.add_to_links_by_page("q".to_string(), vec![]);
    crawler.add_to_links_by_page("p".to_string(), vec!["b".to_string()]);
    let pages = crawler.links_by_page();
    assert_eq!(pages.len(), 2);
    assert_eq!(pages[0], ("p".to_string(), vec!["b".to_string()]));
    assert_eq!(pages[1], ("q".to_string(), vec![]));
}

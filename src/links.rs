use vstd::prelude::*;
use vstd::string::*;

use crate::normalize::{
    canonical, ends_with_double_slash, has_prefix, lemma_canonical_idempotent, root_segment,
    starts_with, strip_to_root_path, trim_trailing_slash,
};
use crate::url_set::{distinct_strings, strings_set, UrlSet};

verus! {

/// Whether the URL parser accepts `s` as an absolute URL.
pub uninterp spec fn url_parses(s: Seq<char>) -> bool;

/// The scheme of the URL parsed from `s`.
pub uninterp spec fn url_scheme(s: Seq<char>) -> Seq<char>;

/// The host of the URL parsed from `s` (a domain or an IP address); none
/// for a URL without a host.
pub uninterp spec fn url_host(s: Seq<char>) -> Option<Seq<char>>;

/// The path of the URL parsed from `s`.
pub uninterp spec fn url_path(s: Seq<char>) -> Seq<char>;

/// The serialization of the URL parsed from `s`.
pub uninterp spec fn url_serialization(s: Seq<char>) -> Seq<char>;

/// The `href` attribute of each anchor element of an HTML document, in the
/// order that scraper's `select` yields them; none for an anchor without one.
pub uninterp spec fn anchor_hrefs_of(html: Seq<char>) -> Seq<Option<Seq<char>>>;

/// The parts of a parsed URL that the crawl reads.
struct ParsedUrl {
    scheme: String,
    host: Option<String>,
    path: String,
    serialization: String,
}

/// Relies on url::Url::parse, which accepts or refuses an absolute URL, and on
/// Url's scheme, host_str, path and as_str, read from the parsed value.
#[verifier::external_body]
fn parse_url(input: &str) -> (r: Option<ParsedUrl>)
    ensures
        r is Some <==> url_parses(input@),
        r matches Some(u) ==> {
            &&& u.scheme@ == url_scheme(input@)
            &&& u.host.deep_view() == url_host(input@)
            &&& u.path@ == url_path(input@)
            &&& u.serialization@ == url_serialization(input@)
        },
{
    match url::Url::parse(input) {
        Ok(u) => Some(ParsedUrl {
            scheme: u.scheme().to_string(),
            host: u.host_str().map(|h| h.to_string()),
            path: u.path().to_string(),
            serialization: u.as_str().to_string(),
        }),
        Err(_) => None,
    }
}

/// Relies on scraper: Html::parse_document, the selector `a` and each
/// selected element's `href` attribute, in the order `select` yields them.
#[verifier::external_body]
fn anchor_hrefs(html: &str) -> (r: Vec<Option<String>>)
    ensures
        r.deep_view() == anchor_hrefs_of(html@),
{
    let selector = scraper::Selector::parse("a").unwrap();
    let document = scraper::Html::parse_document(html);
    document.select(&selector).map(|e| e.value().attr("href").map(|h| h.to_string())).collect()
}

/// The root domain of a URL: its scheme, `://` and its host, canonical.
pub open spec fn root_domain_of(url: Seq<char>) -> Option<Seq<char>> {
    if url_parses(url) && url_host(url) is Some {
        Some(canonical(url_scheme(url) + "://"@ + url_host(url)->0))
    } else {
        None
    }
}

/// An href made absolute: kept when it starts with `http`, appended to the
/// root domain when it starts with a single `/`, refused otherwise (a
/// protocol-relative, fragment or `mailto:` href).
pub open spec fn resolve(href: Seq<char>, root: Seq<char>) -> Option<Seq<char>> {
    if has_prefix(href, "http"@) {
        Some(href)
    } else if has_prefix(href, "/"@) && !has_prefix(href, "//"@) {
        Some(root + href)
    } else {
        None
    }
}

/// Whether the root path segment of `path` is one of the excluded ones.
pub open spec fn is_excluded(path: Seq<char>, excluded: Set<Seq<char>>) -> bool {
    match root_segment(path) {
        Some(seg) => excluded.contains(seg),
        None => false,
    }
}

/// Whether an absolute URL is on the root's host and outside the excluded paths.
pub open spec fn accepted(url: Seq<char>, root: Seq<char>, excluded: Set<Seq<char>>) -> bool {
    &&& url_parses(url)
    &&& url_parses(root)
    &&& url_host(url) is Some
    &&& url_host(url) == url_host(root)
    &&& !is_excluded(url_path(url), excluded)
}

/// The serialized URL that an href stands for, if it passes validation.
pub open spec fn validated(href: Seq<char>, root: Seq<char>, excluded: Set<Seq<char>>) -> Option<
    Seq<char>,
> {
    match resolve(href, root) {
        Some(url) => if accepted(url, root, excluded) {
            Some(url_serialization(url))
        } else {
            None
        },
        None => None,
    }
}

/// The canonical link that an href stands for, if it passes validation.
pub open spec fn processed(href: Seq<char>, root: Seq<char>, excluded: Set<Seq<char>>) -> Option<
    Seq<char>,
> {
    match validated(href, root, excluded) {
        Some(url) => Some(canonical(url)),
        None => None,
    }
}

/// The links extracted from a page whose anchors carry `hrefs`.
pub open spec fn extracted_links(
    hrefs: Seq<Option<Seq<char>>>,
    root: Seq<char>,
    excluded: Set<Seq<char>>,
) -> Set<Seq<char>> {
    Set::new(
        |l: Seq<char>|
            exists|i: int|
                0 <= i < hrefs.len() && #[trigger] hrefs[i] is Some && processed(
                    hrefs[i]->0,
                    root,
                    excluded,
                ) == Some(l),
    )
}

/// The root domain (scheme and host) of a URL, if it parses and has a host.
pub fn extract_root_domain(url_string: &String) -> (r: Option<String>)
    ensures
        r.deep_view() == root_domain_of(url_string@),
{
    let parsed = match parse_url(url_string.as_str()) {
        Some(u) => u,
        None => return None,
    };
    let host = match parsed.host {
        Some(h) => h,
        None => return None,
    };
    let mut base = parsed.scheme;
    base.append("://");
    base.append(host.as_str());
    Some(trim_trailing_slash(base))
}

/// The serialized URL of a valid href: absolute or root-relative, on the
/// root's host, and outside the excluded paths.
pub fn validate_link(link: &str, root_domain: &String, excluded: &UrlSet) -> (r: Option<String>)
    ensures
        r.deep_view() == validated(link@, root_domain@, excluded@),
{
    let resolved = if starts_with(link, "http") {
        link.to_owned()
    } else if starts_with(link, "/") && !starts_with(link, "//") {
        let mut s = root_domain.clone();
        s.append(link);
        s
    } else {
        return None;
    };
    let full = match parse_url(resolved.as_str()) {
        Some(u) => u,
        None => return None,
    };
    let root = match parse_url(root_domain.as_str()) {
        Some(u) => u,
        None => return None,
    };
    let same_host = match (&full.host, &root.host) {
        (Some(a), Some(b)) => *a == *b,
        _ => false,
    };
    if !same_host {
        return None;
    }
    match strip_to_root_path(full.path.as_str()) {
        Some(seg) => {
            if excluded.contains(&seg) {
                return None;
            }
        },
        None => {},
    }
    Some(full.serialization)
}

/// The canonical form of a valid href.
pub fn validate_and_process_link(link: &str, root_domain: &String, excluded: &UrlSet) -> (r:
    Option<String>)
    ensures
        r.deep_view() == processed(link@, root_domain@, excluded@),
{
    match validate_link(link, root_domain, excluded) {
        Some(v) => Some(trim_trailing_slash(v)),
        None => None,
    }
}

/// The distinct valid links among the hrefs of a page's anchors.
pub fn links_from_hrefs(hrefs: &Vec<Option<String>>, root_domain: &String, excluded: &UrlSet) -> (r:
    Vec<String>)
    ensures
        strings_set(r@) == extracted_links(hrefs.deep_view(), root_domain@, excluded@),
        distinct_strings(r@),
{
    let ghost hv = hrefs.deep_view();
    let mut found = UrlSet::new();
    let mut i: usize = 0;
    while i < hrefs.len()
        invariant
            i <= hrefs@.len(),
            hv == hrefs.deep_view(),
            found.wf(),
            found@ == extracted_links(hv.subrange(0, i as int), root_domain@, excluded@),
        decreases hrefs@.len() - i,
    {
        let ghost before = found@;
        match &hrefs[i] {
            Some(href) => {
                match validate_and_process_link(href.as_str(), root_domain, excluded) {
                    Some(l) => {
                        found.insert(l);
                    },
                    None => {},
                }
            },
            None => {},
        }
        proof {
            let prev = hv.subrange(0, i as int);
            let next = hv.subrange(0, i + 1);
            assert(hv[i as int] == hrefs@[i as int].deep_view());
            assert forall|l: Seq<char>| #[trigger]
                found@.contains(l) == extracted_links(next, root_domain@, excluded@).contains(l) by {
                if extracted_links(next, root_domain@, excluded@).contains(l) {
                    let k = choose|k: int|
                        0 <= k < next.len() && #[trigger] next[k] is Some && processed(
                            next[k]->0,
                            root_domain@,
                            excluded@,
                        ) == Some(l);
                    if k < i {
                        assert(prev[k] == next[k]);
                        assert(extracted_links(prev, root_domain@, excluded@).contains(l));
                    }
                }
                if before.contains(l) {
                    let k = choose|k: int|
                        0 <= k < prev.len() && #[trigger] prev[k] is Some && processed(
                            prev[k]->0,
                            root_domain@,
                            excluded@,
                        ) == Some(l);
                    assert(next[k] == prev[k]);
                }
                if found@.contains(l) && !before.contains(l) {
                    assert(next[i as int] == hv[i as int]);
                }
            }
            assert(found@ =~= extracted_links(next, root_domain@, excluded@));
        }
        i = i + 1;
    }
    proof {
        assert(hv.subrange(0, hrefs@.len() as int) =~= hv);
    }
    found.to_vec()
}

/// The distinct valid links of an HTML page.
pub fn generate_internal_links(html: &String, root_domain: &String, excluded: &UrlSet) -> (r: Vec<
    String,
>)
    ensures
        strings_set(r@) == extracted_links(anchor_hrefs_of(html@), root_domain@, excluded@),
        distinct_strings(r@),
{
    let hrefs = anchor_hrefs(html.as_str());
    links_from_hrefs(&hrefs, root_domain, excluded)
}

/// A root-relative href that passes validation was resolved by appending it
/// to the root domain, and the resolved URL has the root's host.
pub proof fn lemma_relative_href_on_root_domain(
    href: Seq<char>,
    root: Seq<char>,
    excluded: Set<Seq<char>>,
)
    requires
        has_prefix(href, "/"@),
        !has_prefix(href, "http"@),
        processed(href, root, excluded) is Some,
    ensures
        resolve(href, root) == Some(root + href),
        url_host(root + href) is Some,
        url_host(root + href) == url_host(root),
        processed(href, root, excluded) == Some(canonical(url_serialization(root + href))),
{
}

/// Every extracted link is left unchanged by canonicalizing it again, as long
/// as no validated URL of the page ends in two slashes.
pub proof fn lemma_extracted_links_canonical(
    hrefs: Seq<Option<Seq<char>>>,
    root: Seq<char>,
    excluded: Set<Seq<char>>,
    link: Seq<char>,
)
    requires
        extracted_links(hrefs, root, excluded).contains(link),
        forall|i: int|
            0 <= i < hrefs.len() && #[trigger] hrefs[i] is Some && validated(
                hrefs[i]->0,
                root,
                excluded,
            ) is Some ==> !ends_with_double_slash(validated(hrefs[i]->0, root, excluded)->0),
    ensures
        canonical(link) == link,
{
    let i = choose|i: int|
        0 <= i < hrefs.len() && #[trigger] hrefs[i] is Some && processed(
            hrefs[i]->0,
            root,
            excluded,
        ) == Some(link);
    let v = validated(hrefs[i]->0, root, excluded)->0;
    lemma_canonical_idempotent(v);
}

/// An href whose resolved URL is on another host than the root's yields no link.
pub proof fn lemma_cross_domain_href_dropped(
    href: Seq<char>,
    root: Seq<char>,
    excluded: Set<Seq<char>>,
)
    requires
        resolve(href, root) is Some,
        url_host(resolve(href, root)->0) != url_host(root),
    ensures
        processed(href, root, excluded) is None,
{
}

/// An href whose resolved URL lies under an excluded root path segment yields
/// no link, whatever its host.
pub proof fn lemma_excluded_href_dropped(href: Seq<char>, root: Seq<char>, excluded: Set<Seq<char>>)
    requires
        resolve(href, root) is Some,
        root_segment(url_path(resolve(href, root)->0)) matches Some(seg) && excluded.contains(seg),
    ensures
        processed(href, root, excluded) is None,
{
}

} // verus!

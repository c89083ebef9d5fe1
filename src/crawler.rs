use vstd::prelude::*;
use vstd::string::*;

use crate::links::{anchor_hrefs_of, extract_root_domain, extracted_links, generate_internal_links, root_domain_of};
use crate::page_map::PageMap;
use crate::robots::{add_robots_rules, robots_rules};
use crate::url_set::{distinct_strings, lemma_same_strings, strings_set, UrlSet};

verus! {

/// The state of one crawl: the excluded root path segments, the URLs
/// claimed for traversal, and the links found on each fetched page.
pub struct WebCrawler {
    disallowed: UrlSet,
    visited: UrlSet,
    pages: PageMap,
}

impl WebCrawler {
    pub closed spec fn wf(&self) -> bool {
        &&& self.disallowed.wf()
        &&& self.visited.wf()
        &&& self.pages.wf()
    }

    /// The root path segments that traversal never follows.
    pub closed spec fn excluded(&self) -> Set<Seq<char>> {
        self.disallowed@
    }

    /// The URLs claimed for traversal.
    pub closed spec fn visited(&self) -> Set<Seq<char>> {
        self.visited@
    }

    /// The links found on each fetched page.
    pub closed spec fn links_by_page_map(&self) -> Map<Seq<char>, Set<Seq<char>>> {
        self.pages.links_map()
    }

    pub fn new() -> (r: Self)
        ensures
            r.wf(),
            r.excluded() == Set::<Seq<char>>::empty(),
            r.visited() == Set::<Seq<char>>::empty(),
            r.links_by_page_map() == Map::<Seq<char>, Set<Seq<char>>>::empty(),
    {
        WebCrawler { disallowed: UrlSet::new(), visited: UrlSet::new(), pages: PageMap::new() }
    }

    /// Excludes a root path segment; true if it was not excluded before.
    pub fn add_to_disallowed_links(&mut self, disallowed_path: String) -> (newly: bool)
        requires
            old(self).wf(),
        ensures
            final(self).wf(),
            newly == !old(self).excluded().contains(disallowed_path@),
            final(self).excluded() == old(self).excluded().insert(disallowed_path@),
            final(self).visited() == old(self).visited(),
            final(self).links_by_page_map() == old(self).links_by_page_map(),
    {
        self.disallowed.insert(disallowed_path)
    }

    pub fn is_disallowed_link(&self, prospective_link: &String) -> (r: bool)
        ensures
            r == self.excluded().contains(prospective_link@),
    {
        self.disallowed.contains(prospective_link)
    }

    /// Claims a URL for traversal, in one step: true for the one caller
    /// that found it unclaimed.
    pub fn add_to_visited_links(&mut self, address: String) -> (newly: bool)
        requires
            old(self).wf(),
        ensures
            final(self).wf(),
            newly == !old(self).visited().contains(address@),
            final(self).visited() == old(self).visited().insert(address@),
            final(self).excluded() == old(self).excluded(),
            final(self).links_by_page_map() == old(self).links_by_page_map(),
    {
        self.visited.insert(address)
    }

    /// Records the links found on a page.
    pub fn add_to_links_by_page(&mut self, page_link: String, links_in_page: Vec<String>)
        requires
            old(self).wf(),
        ensures
            final(self).wf(),
            final(self).links_by_page_map() == old(self).links_by_page_map().insert(
                page_link@,
                strings_set(links_in_page@),
            ),
            final(self).visited() == old(self).visited(),
            final(self).excluded() == old(self).excluded(),
    {
        self.pages.insert(page_link, links_in_page)
    }

    /// Takes in the exclusion rules of a robots file.
    pub fn process_robots(&mut self, robots_body: &String)
        requires
            old(self).wf(),
        ensures
            final(self).wf(),
            final(self).excluded() == old(self).excluded().union(robots_rules(robots_body@)),
            final(self).visited() == old(self).visited(),
            final(self).links_by_page_map() == old(self).links_by_page_map(),
    {
        add_robots_rules(robots_body.as_str(), &mut self.disallowed)
    }

    /// Handles one fetched page: with its HTML (none when the fetch failed)
    /// it records the page's links and claims the unclaimed ones, which it
    /// returns for traversal.
    pub fn scrape_page(&mut self, link: String, html: Option<String>) -> (claimed: Vec<String>)
        requires
            old(self).wf(),
        ensures
            final(self).wf(),
            final(self).excluded() == old(self).excluded(),
            distinct_strings(claimed@),
            old(self).links_by_page_map().dom().subset_of(old(self).visited())
                ==> final(self).links_by_page_map().dom().subset_of(final(self).visited()),
            (html is None || root_domain_of(link@) is None) ==> {
                &&& final(self).visited() == old(self).visited()
                &&& final(self).links_by_page_map() == old(self).links_by_page_map()
                &&& claimed@.len() == 0
            },
            html matches Some(h) ==> root_domain_of(link@) matches Some(root) ==> {
                let found = extracted_links(anchor_hrefs_of(h@), root, old(self).excluded());
                &&& final(self).links_by_page_map() == old(self).links_by_page_map().insert(
                    link@,
                    found,
                )
                &&& final(self).visited() == old(self).visited().insert(link@).union(found)
                &&& strings_set(claimed@) == found.difference(old(self).visited().insert(link@))
            },
    {
        let page = match html {
            Some(h) => h,
            None => return Vec::new(),
        };
        let root = match extract_root_domain(&link) {
            Some(r) => r,
            None => return Vec::new(),
        };
        let found = generate_internal_links(&page, &root, &self.disallowed);
        let ghost excluded0 = self.excluded();
        let ghost l = link@;
        self.visited.insert(link.clone());
        let copy = found.clone();
        proof {
            lemma_same_strings(copy@, found@);
        }
        self.pages.insert(link, copy);
        let ghost v0 = self.visited@;
        let mut claimed: Vec<String> = Vec::new();
        let mut i: usize = 0;
        while i < found.len()
            invariant
                self.wf(),
                i <= found@.len(),
                distinct_strings(found@),
                self.excluded() == excluded0,
                self.links_by_page_map() == old(self).links_by_page_map().insert(l, strings_set(found@)),
                self.visited@ == v0.union(strings_set(found@.subrange(0, i as int))),
                strings_set(claimed@) == strings_set(found@.subrange(0, i as int)).difference(v0),
                distinct_strings(claimed@),
            decreases found@.len() - i,
        {
            let ghost before = self.visited@;
            let ghost c0 = claimed@;
            let s = found[i].clone();
            let newly = self.visited.insert(s);
            if newly {
                claimed.push(found[i].clone());
            }
            proof {
                let x = found@[i as int]@;
                let p0 = found@.subrange(0, i as int);
                let p1 = found@.subrange(0, i + 1);
                assert forall|y: Seq<char>| #[trigger] strings_set(p1).contains(y) == (strings_set(
                    p0,
                ).contains(y) || y == x) by {
                    if strings_set(p1).contains(y) {
                        let k = choose|k: int| 0 <= k < p1.len() && p1[k]@ == y;
                        if k < i {
                            assert(p0[k] == p1[k]);
                        }
                    }
                    if strings_set(p0).contains(y) {
                        let k = choose|k: int| 0 <= k < p0.len() && p0[k]@ == y;
                        assert(p1[k] == p0[k]);
                    }
                    if y == x {
                        assert(p1[i as int]@ == x);
                    }
                }
                assert(!strings_set(p0).contains(x)) by {
                    if strings_set(p0).contains(x) {
                        let k = choose|k: int| 0 <= k < p0.len() && p0[k]@ == x;
                        assert(found@[k]@ != found@[i as int]@);
                    }
                }
                assert(self.visited@ =~= v0.union(strings_set(p1)));
                assert forall|y: Seq<char>| #[trigger] strings_set(claimed@).contains(y) == (
                    strings_set(c0).contains(y) || (newly && y == x)) by {
                    if strings_set(claimed@).contains(y) {
                        let k = choose|k: int| 0 <= k < claimed@.len() && claimed@[k]@ == y;
                        if k < c0.len() {
                            assert(c0[k] == claimed@[k]);
                        }
                    }
                    if strings_set(c0).contains(y) {
                        let k = choose|k: int| 0 <= k < c0.len() && c0[k]@ == y;
                        assert(claimed@[k] == c0[k]);
                    }
                    if newly && y == x {
                        assert(claimed@[c0.len() as int]@ == x);
                    }
                }
                assert(strings_set(claimed@) =~= strings_set(p1).difference(v0));
                if newly {
                    assert forall|a: int, b: int| 0 <= a < b < claimed@.len() implies #[trigger] claimed@[a]@
                        != #[trigger] claimed@[b]@ by {
                        if b == c0.len() {
                            assert(claimed@[a] == c0[a]);
                            assert(strings_set(c0).contains(claimed@[a]@));
                        }
                    }
                }
            }
            i = i + 1;
        }
        proof {
            assert(found@.subrange(0, found@.len() as int) =~= found@);
        }
        claimed
    }

    /// Every claimed URL, each once.
    pub fn all_links(&self) -> (r: Vec<String>)
        requires
            self.wf(),
        ensures
            strings_set(r@) == self.visited(),
            distinct_strings(r@),
    {
        self.visited.to_vec()
    }

    /// Each fetched page with the links found on it: every page of the map,
    /// each once.
    pub fn links_by_page(&self) -> (r: Vec<(String, Vec<String>)>)
        requires
            self.wf(),
        ensures
            forall|i: int|
                0 <= i < r@.len() ==> self.links_by_page_map().contains_key((#[trigger] r@[i]).0@)
                    && self.links_by_page_map()[r@[i].0@] == strings_set(r@[i].1@),
            forall|p: Seq<char>|
                #[trigger] self.links_by_page_map().contains_key(p) ==> exists|i: int|
                    0 <= i < r@.len() && (#[trigger] r@[i]).0@ == p,
            forall|i: int, j: int| 0 <= i < j < r@.len() ==> (#[trigger] r@[i]).0@ != (#[trigger] r@[j]).0@,
    {
        self.pages.to_vec()
    }
}

/// Where the robots file of a root domain is served.
pub fn robots_link(root_domain: &String) -> (r: String)
    ensures
        r@ == root_domain@ + "/robots.txt"@,
{
    let mut r = root_domain.clone();
    r.append("/robots.txt");
    r
}

/// Whether a response's content type marks a page worth parsing: exactly `text/html`.
pub fn is_html_content_type(content_type: Option<&str>) -> (r: bool)
    ensures
        r == (content_type matches Some(c) && c@ == "text/html"@),
{
    match content_type {
        Some(c) => c.to_owned() == "text/html".to_owned(),
        None => false,
    }
}

} // verus!

//! The crawl engine.
//!
//! The engine owns the state of one crawl: the frontier of discovered links,
//! the set of visited URLs, the directories and subdomains found on the way,
//! and the fetches that are under way. It never waits: `next_fetch` hands out
//! the next URL to fetch while a slot is free, and `complete` takes the end of
//! a fetch and puts the links of the page in the frontier. Whoever drives the
//! crawl does the fetching between the two.

use std::collections::VecDeque;
use vstd::prelude::*;
use vstd::string::StringExecFns;
use crate::directory::{directory_of_path, extract_directory, url_directory};
use crate::links::{extract_links, page_links};
use crate::response::FetchOutcome;
use crate::robots::{
    allowed,
    is_allowed,
    load_policy,
    path_is_allowed,
    policy,
    robots_location,
    robots_url,
};
use crate::scope::{
    extract_subdomain,
    host_matches,
    in_scope,
    is_same_domain,
    subdomain_of_host,
    url_subdomain,
};
use crate::state::{
    children,
    found_links,
    lemma_admission_wf,
    lemma_expand,
    lemma_initial_wf,
    lemma_slot_unique,
    CrawlState,
    Entry,
};
use crate::text::{chars_of, starts_with};
use crate::text_set::{lemma_sorted_no_duplicates, listing, strictly_sorted, texts, TextSet};
use crate::urls::{
    canonical,
    canonical_form,
    normalize_url,
    normalized,
    parse_url,
    parts_of,
    url_parsed,
    MalformedUrlError,
    ParsedUrl,
    UrlParts,
};

verus! {

/// A discovered link, as the engine hands it out.
#[derive(Debug)]
pub struct FrontierEntry {
    pub url: String,
    pub depth: usize,
}

impl View for FrontierEntry {
    type V = Entry;

    open spec fn view(&self) -> Entry {
        Entry { url: self.url@, depth: self.depth as nat }
    }
}

/// The views of a list of entries.
pub open spec fn entries(list: Seq<FrontierEntry>) -> Seq<Entry> {
    list.map_values(|entry: FrontierEntry| entry@)
}

/// The seed as it is parsed: with `http://` in front where it starts with
/// neither `http://` nor `https://`.
pub open spec fn with_scheme(seed: Seq<char>) -> Seq<char> {
    if "http://"@.is_prefix_of(seed) || "https://"@.is_prefix_of(seed) {
        seed
    } else {
        "http://"@ + seed
    }
}

/// Why a crawl cannot start from a seed.
#[derive(Clone, Copy, Debug, PartialEq, Eq, Structural)]
pub enum InvalidSeedError {
    /// The seed does not parse as a URL.
    Malformed,
    /// The seed parses, but names no host.
    MissingHost,
}

impl InvalidSeedError {
    /// The error in words.
    pub fn message(&self) -> (text: String)
        ensures
            text@ == match self {
                InvalidSeedError::Malformed => "invalid URL: the seed does not parse"@,
                InvalidSeedError::MissingHost => "invalid URL: missing domain"@,
            },
    {
        match self {
            InvalidSeedError::Malformed => "invalid URL: the seed does not parse".to_owned(),
            InvalidSeedError::MissingHost => "invalid URL: missing domain".to_owned(),
        }
    }
}

/// The state in which a crawl starts, given what the parser made of the
/// seed: `None` where the seed did not parse.
pub open spec fn seed_start(
    parsed: Option<UrlParts>,
    max_depth: nat,
    concurrency: nat,
    respect_robots: bool,
) -> Result<CrawlState, InvalidSeedError> {
    match parsed {
        None => Err(InvalidSeedError::Malformed),
        Some(parts) => match parts.host {
            None => Err(InvalidSeedError::MissingHost),
            Some(host) => Ok(
                CrawlState::initial(
                    host,
                    canonical(parts.href, parts.path),
                    max_depth,
                    concurrency,
                    respect_robots,
                ),
            ),
        },
    }
}

/// The three sets of a finished crawl, each in increasing order.
#[derive(Debug)]
pub struct Results {
    pub urls: Vec<String>,
    pub directories: Vec<String>,
    pub subdomains: Vec<String>,
}

/// The engine of one crawl.
pub struct SilentCrawler {
    base_url: String,
    base_domain: String,
    max_depth: usize,
    respect_robots: bool,
    concurrency: usize,
    disallowed_paths: TextSet,
    visited_urls: TextSet,
    directories: TextSet,
    subdomains: TextSet,
    frontier: VecDeque<FrontierEntry>,
    in_flight: Vec<FrontierEntry>,
}

impl View for SilentCrawler {
    type V = CrawlState;

    closed spec fn view(&self) -> CrawlState {
        CrawlState {
            base_domain: self.base_domain@,
            max_depth: self.max_depth as nat,
            concurrency: self.concurrency as nat,
            respect_robots: self.respect_robots,
            disallowed: self.disallowed_paths.set(),
            visited: self.visited_urls.set(),
            directories: self.directories.set(),
            subdomains: self.subdomains.set(),
            frontier: entries(self.frontier@),
            in_flight: entries(self.in_flight@),
        }
    }
}

/// The seed with `http://` in front, unless it starts with `http://` or
/// `https://` already.
pub fn with_default_scheme(seed: &str) -> (out: String)
    ensures
        out@ == with_scheme(seed@),
{
    let chars = chars_of(seed);
    if starts_with(chars.as_slice(), chars_of("http://").as_slice()) || starts_with(
        chars.as_slice(),
        chars_of("https://").as_slice(),
    ) {
        seed.to_owned()
    } else {
        let mut out = "http://".to_owned();
        out.append(seed);
        out
    }
}

impl SilentCrawler {
    /// The engine holds its sets in order and its state is well formed.
    pub closed spec fn wf(&self) -> bool {
        &&& self.disallowed_paths.wf()
        &&& self.visited_urls.wf()
        &&& self.directories.wf()
        &&& self.subdomains.wf()
        &&& self@.wf()
    }

    /// The seed as it was parsed.
    pub closed spec fn seed(&self) -> Seq<char> {
        self.base_url@
    }

    /// A well-formed engine is in a well-formed state.
    pub proof fn lemma_wf(&self)
        requires
            self.wf(),
        ensures
            self@.wf(),
    {
    }

    /// Sets up a crawl from what the parser made of the seed `seed`: `None`
    /// where it did not parse. The host of the seed is the base domain of the
    /// crawl, and the canonical form of the seed is the one entry of the
    /// frontier, at depth 0. A seed that did not parse, or that names no
    /// host, starts no crawl.
    pub fn from_parts(
        seed: String,
        parsed: Option<ParsedUrl>,
        max_depth: usize,
        respect_robots: bool,
        concurrency: usize,
    ) -> (r: Result<SilentCrawler, InvalidSeedError>)
        ensures
            match r {
                Ok(crawler) => {
                    &&& crawler.wf()
                    &&& crawler.seed() == seed@
                    &&& seed_start(
                        parts_of(parsed),
                        max_depth as nat,
                        concurrency as nat,
                        respect_robots,
                    ) == Ok::<CrawlState, InvalidSeedError>(crawler@)
                },
                Err(e) => seed_start(
                    parts_of(parsed),
                    max_depth as nat,
                    concurrency as nat,
                    respect_robots,
                ) == Err::<CrawlState, InvalidSeedError>(e),
            },
    {
        let parts = match parsed {
            Some(parts) => parts,
            None => {
                return Err(InvalidSeedError::Malformed);
            },
        };
        let ParsedUrl { href, host, path } = parts;
        let base_domain = match host {
            Some(host) => host,
            None => {
                return Err(InvalidSeedError::MissingHost);
            },
        };
        let start = canonical_form(href.as_str(), path.as_str());
        let mut frontier: VecDeque<FrontierEntry> = VecDeque::new();
        frontier.push_back(FrontierEntry { url: start, depth: 0 });
        let crawler = SilentCrawler {
            base_url: seed,
            base_domain,
            max_depth,
            respect_robots,
            concurrency,
            disallowed_paths: TextSet::new(),
            visited_urls: TextSet::new(),
            directories: TextSet::new(),
            subdomains: TextSet::new(),
            frontier,
            in_flight: Vec::new(),
        };
        proof {
            let expected = CrawlState::initial(
                base_domain@,
                canonical(href@, path@),
                max_depth as nat,
                concurrency as nat,
                respect_robots,
            );
            lemma_initial_wf(
                base_domain@,
                canonical(href@, path@),
                max_depth as nat,
                concurrency as nat,
                respect_robots,
            );
            assert(crawler@ =~= expected);
        }
        Ok(crawler)
    }

    /// Sets up a crawl from `base_url`. The seed gets `http://` in front
    /// where it has no such scheme, and must then parse as a URL with a
    /// host.
    pub fn new(base_url: &str, max_depth: usize, respect_robots: bool, concurrency: usize) -> (r:
        Result<SilentCrawler, InvalidSeedError>)
        ensures
            match r {
                Ok(crawler) => {
                    &&& crawler.wf()
                    &&& crawler.seed() == with_scheme(base_url@)
                    &&& seed_start(
                        url_parsed(with_scheme(base_url@)),
                        max_depth as nat,
                        concurrency as nat,
                        respect_robots,
                    ) == Ok::<CrawlState, InvalidSeedError>(crawler@)
                },
                Err(e) => seed_start(
                    url_parsed(with_scheme(base_url@)),
                    max_depth as nat,
                    concurrency as nat,
                    respect_robots,
                ) == Err::<CrawlState, InvalidSeedError>(e),
            },
    {
        let seed = with_default_scheme(base_url);
        let parsed = match parse_url(seed.as_str()) {
            Ok(parts) => Some(parts),
            Err(_) => None,
        };
        SilentCrawler::from_parts(seed, parsed, max_depth, respect_robots, concurrency)
    }

    /// The seed of the crawl, with its scheme.
    pub fn base_url(&self) -> (r: &str)
        ensures
            r@ == self.seed(),
    {
        self.base_url.as_str()
    }

    /// The host of the seed.
    pub fn base_domain(&self) -> (r: &str)
        ensures
            r@ == self@.base_domain,
    {
        self.base_domain.as_str()
    }

    /// The greatest depth at which a URL is admitted.
    pub fn max_depth(&self) -> (r: usize)
        ensures
            r == self@.max_depth,
    {
        self.max_depth
    }

    /// The greatest number of fetches under way at once.
    pub fn concurrency(&self) -> (r: usize)
        ensures
            r == self@.concurrency,
    {
        self.concurrency
    }

    /// Whether the robots policy is enforced.
    pub fn respect_robots(&self) -> (r: bool)
        ensures
            r == self@.respect_robots,
    {
        self.respect_robots
    }

    /// The number of fetches under way.
    pub fn in_flight(&self) -> (r: usize)
        ensures
            r == self@.in_flight.len(),
    {
        self.in_flight.len()
    }

    /// The number of discovered links that wait for dispatch.
    pub fn pending(&self) -> (r: usize)
        ensures
            r == self@.frontier.len(),
    {
        self.frontier.len()
    }

    /// Whether the crawl is over.
    pub fn is_finished(&self) -> (r: bool)
        ensures
            r == self@.finished(),
    {
        self.in_flight.len() == 0 && (self.frontier.len() == 0 || self.concurrency == 0)
    }

    /// Where the robots policy of the crawled site is found.
    pub fn robots_url(&self) -> (out: String)
        ensures
            out@ == robots_location(self.seed()),
    {
        robots_url(self.base_url.as_str())
    }

    /// Takes in what the request for the site's `robots.txt` gave: its
    /// text, or `None` where the request failed in any way. The paths that
    /// the text disallows are the policy from now on; without a text the
    /// policy disallows nothing, as it does until this is called.
    pub fn parse_robots_txt(&mut self, fetched: Option<&str>)
        requires
            old(self).wf(),
        ensures
            final(self).wf(),
            final(self).seed() == old(self).seed(),
            final(self)@ == (CrawlState {
                disallowed: policy(
                    match fetched {
                        Some(text) => Some(text@),
                        None => None,
                    },
                ),
                ..old(self)@
            }),
    {
        self.disallowed_paths = load_policy(fetched);
    }

    /// Whether the robots policy of this crawl allows `url`.
    pub fn is_allowed(&self, url: &str) -> (r: bool)
        ensures
            r == allowed(url@, self@.respect_robots, self@.disallowed),
    {
        is_allowed(url, self.respect_robots, &self.disallowed_paths)
    }

    /// Whether `url` is in the scope of this crawl.
    pub fn is_same_domain(&self, url: &str) -> (r: bool)
        ensures
            r == in_scope(url@, self@.base_domain),
    {
        is_same_domain(url, self.base_domain.as_str())
    }

    /// The canonical form of the link `url` found on the page `source_url`.
    pub fn normalize_url(&self, url: &str, source_url: &str) -> (r: Result<
        String,
        MalformedUrlError,
    >)
        ensures
            match r {
                Ok(target) => normalized(url@, source_url@) == Ok::<Seq<char>, MalformedUrlError>(
                    target@,
                ),
                Err(e) => normalized(url@, source_url@) == Err::<Seq<char>, MalformedUrlError>(e),
            },
    {
        normalize_url(url, source_url)
    }

    /// The crawl targets of the page at `source_url` whose text is
    /// `html_content`, in increasing order, each once.
    pub fn extract_links(&self, html_content: &str, source_url: &str) -> (out: Vec<String>)
        ensures
            texts(out@) == listing(page_links(html_content@, source_url@, self@.base_domain)),
            strictly_sorted(texts(out@)),
            texts(out@).to_set() == page_links(html_content@, source_url@, self@.base_domain),
    {
        extract_links(html_content, source_url, self.base_domain.as_str())
    }

    /// The subdomain that `url` names under the base domain, if any.
    pub fn extract_subdomain(&self, url: &str) -> (r: Option<String>)
        ensures
            match r {
                Some(label) => url_subdomain(url@, self@.base_domain) == Some(label@),
                None => url_subdomain(url@, self@.base_domain) is None,
            },
    {
        extract_subdomain(url, self.base_domain.as_str())
    }

    /// The directory that `url` lies in, if any.
    pub fn extract_directory(&self, url: &str) -> (r: Option<String>)
        ensures
            match r {
                Some(dir) => url_directory(url@) == Some(dir@),
                None => url_directory(url@) is None,
            },
    {
        extract_directory(url)
    }

    /// Admits `entry` if it is admissible: its URL joins the visited set in
    /// the same step in which it is found eligible, the subdomain and the
    /// directory that it names are recorded, and its fetch is under way.
    fn try_admission(&mut self, entry: &FrontierEntry) -> (admitted: bool)
        requires
            old(self).wf(),
            old(self)@.has_free_slot(),
        ensures
            final(self).wf(),
            final(self).seed() == old(self).seed(),
            admitted == old(self)@.admissible(entry@),
            final(self)@ == if admitted {
                old(self)@.admission(entry@)
            } else {
                old(self)@
            },
    {
        if entry.depth > self.max_depth {
            return false;
        }
        let key = chars_of(entry.url.as_str());
        if self.visited_urls.contains(key.as_slice()) {
            return false;
        }
        let parts = match parse_url(entry.url.as_str()) {
            Ok(parts) => parts,
            Err(_) => {
                return false;
            },
        };
        let ParsedUrl { href: _, host, path } = parts;
        let host = match host {
            Some(host) => host,
            None => {
                return false;
            },
        };
        if !host_matches(host.as_str(), self.base_domain.as_str()) {
            return false;
        }
        if self.respect_robots && !path_is_allowed(path.as_str(), &self.disallowed_paths) {
            return false;
        }
        let ghost before = self@;
        self.visited_urls.insert(key);
        match subdomain_of_host(host.as_str(), self.base_domain.as_str()) {
            Some(label) => {
                self.subdomains.insert(chars_of(label.as_str()));
            },
            None => {},
        }
        match directory_of_path(path.as_str()) {
            Some(dir) => {
                self.directories.insert(chars_of(dir.as_str()));
            },
            None => {},
        }
        self.in_flight.push(FrontierEntry { url: entry.url.clone(), depth: entry.depth });
        proof {
            assert(self@ == before.admission(entry@));
            lemma_admission_wf(before, entry@);
        }
        true
    }

    /// Gives the next URL to fetch, if a slot is free and the frontier holds
    /// an admissible entry. Entries leave the frontier oldest first; one that
    /// is not admissible is dropped. The entry that is handed out has been
    /// admitted: its fetch counts as under way until `complete` or `expand`
    /// is told of its end.
    pub fn next_fetch(&mut self) -> (r: Option<FrontierEntry>)
        requires
            old(self).wf(),
        ensures
            final(self).wf(),
            final(self).seed() == old(self).seed(),
            final(self)@ == old(self)@.dispatch().0,
            match r {
                Some(entry) => old(self)@.dispatch().1 == Some(entry@),
                None => old(self)@.dispatch().1 is None,
            },
    {
        loop
            invariant
                self.wf(),
                self.seed() == old(self).seed(),
                self@.dispatch() == old(self)@.dispatch(),
            decreases self@.frontier.len(),
        {
            if self.in_flight.len() >= self.concurrency {
                return None;
            }
            let ghost before = self@;
            match self.frontier.pop_front() {
                None => {
                    return None;
                },
                Some(entry) => {
                    proof {
                        assert(self@ == before.without_first());
                        assert forall|i: int| 0 <= i < self@.frontier.len() implies (
                        #[trigger] self@.frontier[i]).depth <= self@.max_depth by {
                            assert(self@.frontier[i] == before.frontier[i + 1]);
                        }
                    }
                    if self.try_admission(&entry) {
                        return Some(entry);
                    }
                },
            }
        }
    }

    /// The place of `url` among the fetches under way, if it is there.
    fn slot(&self, url: &str) -> (r: Option<usize>)
        requires
            self.wf(),
        ensures
            match r {
                Some(k) => self@.fetching(url@) && self@.slot_of(url@) == k,
                None => !self@.fetching(url@),
            },
    {
        let wanted = url.to_owned();
        let mut k: usize = 0;
        while k < self.in_flight.len()
            invariant
                self.wf(),
                k <= self.in_flight@.len(),
                wanted@ == url@,
                forall|i: int| 0 <= i < k ==> (#[trigger] self@.in_flight[i]).url != url@,
            decreases self.in_flight@.len() - k,
        {
            if self.in_flight[k].url == wanted {
                proof {
                    lemma_slot_unique(self@, url@, k as int);
                }
                return Some(k);
            }
            k += 1;
        }
        None
    }

    /// Takes the end of the fetch of `url` together with the links found on
    /// its page. The fetch is no longer under way; the links enter the
    /// frontier one level below the page, unless the page lies at the depth
    /// bound, where they are discarded. Says whether a fetch of `url` was
    /// under way; if none was, nothing changes.
    pub fn expand(&mut self, url: &str, links: &Vec<String>) -> (known: bool)
        requires
            old(self).wf(),
        ensures
            final(self).wf(),
            final(self).seed() == old(self).seed(),
            known == old(self)@.fetching(url@),
            final(self)@ == old(self)@.expand(url@, texts(links@)),
    {
        let k = match self.slot(url) {
            Some(k) => k,
            None => {
                return false;
            },
        };
        let ghost before = self@;
        proof {
            lemma_expand(before, url@, texts(links@));
        }
        let entry = self.in_flight.remove(k);
        assert(self@.in_flight =~= before.in_flight.remove(k as int));
        if entry.depth < self.max_depth {
            let mut i: usize = 0;
            while i < links.len()
                invariant
                    i <= links@.len(),
                    entry.depth < self.max_depth,
                    self.seed() == old(self).seed(),
                    self.disallowed_paths.wf(),
                    self.visited_urls.wf(),
                    self.directories.wf(),
                    self.subdomains.wf(),
                    self@ == (CrawlState {
                        in_flight: before.in_flight.remove(k as int),
                        frontier: before.frontier + children(
                            before.unvisited(texts(links@).take(i as int)),
                            entry.depth as nat,
                        ),
                        ..before
                    }),
                decreases links@.len() - i,
            {
                let ghost frontier = self@.frontier;
                let ghost seen = texts(links@).take(i as int);
                proof {
                    assert(texts(links@).take(i + 1).drop_last() =~= seen);
                }
                let key = chars_of(links[i].as_str());
                if !self.visited_urls.contains(key.as_slice()) {
                    self.frontier.push_back(
                        FrontierEntry { url: links[i].clone(), depth: entry.depth + 1 },
                    );
                    proof {
                        let child = Entry { url: links@[i as int]@, depth: entry.depth as nat + 1 };
                        assert(self@.frontier =~= frontier.push(child));
                    }
                }
                i += 1;
            }
            assert(texts(links@).take(i as int) =~= texts(links@));
        }
        true
    }

    /// Takes the end of the fetch of `url`. Where it gave a page and the page
    /// lies above the depth bound, the links of the page enter the frontier
    /// one level deeper, in increasing order; in every case the fetch is no
    /// longer under way. Says whether a fetch of `url` was under way; if none
    /// was, nothing changes.
    pub fn complete(&mut self, url: &str, outcome: &FetchOutcome) -> (known: bool)
        requires
            old(self).wf(),
        ensures
            final(self).wf(),
            final(self).seed() == old(self).seed(),
            known == old(self)@.fetching(url@),
            final(self)@ == old(self)@.expand(
                url@,
                found_links(outcome.page(), url@, old(self)@.base_domain),
            ),
    {
        let expandable = match self.slot(url) {
            Some(k) => self.in_flight[k].depth < self.max_depth,
            None => false,
        };
        let links = match outcome.body() {
            Some(html) => if expandable {
                extract_links(html, url, self.base_domain.as_str())
            } else {
                Vec::new()
            },
            None => Vec::new(),
        };
        proof {
            if outcome.page() is None {
                assert(texts(links@) =~= Seq::<Seq<char>>::empty());
            }
        }
        self.expand(url, &links)
    }

    /// The three sets of the crawl as they stand, each in increasing order
    /// and so without duplicates.
    pub fn results(&self) -> (r: Results)
        requires
            self.wf(),
        ensures
            texts(r.urls@) == listing(self@.visited),
            texts(r.directories@) == listing(self@.directories),
            texts(r.subdomains@) == listing(self@.subdomains),
            strictly_sorted(texts(r.urls@)) && texts(r.urls@).to_set() == self@.visited,
            strictly_sorted(texts(r.directories@)) && texts(r.directories@).to_set()
                == self@.directories,
            strictly_sorted(texts(r.subdomains@)) && texts(r.subdomains@).to_set()
                == self@.subdomains,
            texts(r.urls@).no_duplicates(),
    {
        proof {
            lemma_sorted_no_duplicates(self.visited_urls@);
        }
        Results {
            urls: self.visited_urls.to_strings(),
            directories: self.directories.to_strings(),
            subdomains: self.subdomains.to_strings(),
        }
    }
}

} // verus!

//! The state of a crawl and the steps that change it.
//!
//! A crawl is a sequence of two kinds of steps. A dispatch takes entries from
//! the frontier until it can admit one, whose fetch then begins. The end of a
//! fetch frees its slot and puts the links of the page in the frontier. This
//! module says what each step does to the state, and proves what holds of
//! every state that a crawl passes through.

use vstd::prelude::*;
use crate::directory::url_directory;
use crate::links::page_links;
use crate::robots::allowed;
use crate::scope::{in_scope, url_subdomain};
use crate::text_set::listing;

verus! {

/// A discovered link: a crawl target and the number of links that led from
/// the seed to it.
#[verifier::ext_equal]
pub struct Entry {
    pub url: Seq<char>,
    pub depth: nat,
}

/// The links of a page as entries, one level below the page.
pub open spec fn children(links: Seq<Seq<char>>, depth: nat) -> Seq<Entry> {
    links.map_values(|link: Seq<char>| Entry { url: link, depth: depth + 1 })
}

/// The subdomains that the URLs of `visited` name under `base`.
pub open spec fn subdomains_of(visited: Set<Seq<char>>, base: Seq<char>) -> Set<Seq<char>> {
    Set::new(
        |label: Seq<char>|
            exists|url: Seq<char>| #[trigger]
                visited.contains(url) && url_subdomain(url, base) == Some(label),
    )
}

/// The directories that the URLs of `visited` lie in.
pub open spec fn directories_of(visited: Set<Seq<char>>) -> Set<Seq<char>> {
    Set::new(
        |dir: Seq<char>|
            exists|url: Seq<char>| #[trigger] visited.contains(url) && url_directory(url) == Some(dir),
    )
}

/// The links that the end of a fetch brings: those of the page in
/// increasing order, or none where the fetch gave no page.
pub open spec fn found_links(page: Option<Seq<char>>, url: Seq<char>, base: Seq<char>) -> Seq<
    Seq<char>,
> {
    match page {
        Some(html) => listing(page_links(html, url, base)),
        None => Seq::empty(),
    }
}

/// The state of a crawl.
#[verifier::ext_equal]
pub struct CrawlState {
    /// The host of the seed.
    pub base_domain: Seq<char>,
    /// The greatest depth at which a URL is admitted.
    pub max_depth: nat,
    /// The greatest number of fetches under way at once.
    pub concurrency: nat,
    /// Whether the robots policy is enforced.
    pub respect_robots: bool,
    /// The path prefixes that the robots policy disallows.
    pub disallowed: Set<Seq<char>>,
    /// The URLs admitted so far.
    pub visited: Set<Seq<char>>,
    /// The directories of the admitted URLs.
    pub directories: Set<Seq<char>>,
    /// The subdomains of the admitted URLs.
    pub subdomains: Set<Seq<char>>,
    /// The discovered links that wait for dispatch, oldest first.
    pub frontier: Seq<Entry>,
    /// The admitted entries whose fetch is under way.
    pub in_flight: Seq<Entry>,
}

impl CrawlState {
    /// The state in which a crawl starts: nothing visited, nothing under
    /// way, and the seed alone in the frontier, at depth 0.
    pub open spec fn initial(
        base_domain: Seq<char>,
        start: Seq<char>,
        max_depth: nat,
        concurrency: nat,
        respect_robots: bool,
    ) -> CrawlState {
        CrawlState {
            base_domain,
            max_depth,
            concurrency,
            respect_robots,
            disallowed: Set::empty(),
            visited: Set::empty(),
            directories: Set::empty(),
            subdomains: Set::empty(),
            frontier: seq![Entry { url: start, depth: 0 }],
            in_flight: Seq::empty(),
        }
    }

    /// What holds of the state at every moment of a crawl: no more fetches
    /// are under way than the cap allows; no entry lies deeper than the
    /// bound; what is being fetched has been admitted, each URL once; every
    /// admitted URL is in scope; and the subdomains and directories are
    /// those of the admitted URLs.
    pub open spec fn wf(self) -> bool {
        &&& self.in_flight.len() <= self.concurrency
        &&& forall|i: int|
            0 <= i < self.frontier.len() ==> (#[trigger] self.frontier[i]).depth <= self.max_depth
        &&& forall|i: int|
            0 <= i < self.in_flight.len() ==> (#[trigger] self.in_flight[i]).depth
                <= self.max_depth && self.visited.contains(self.in_flight[i].url)
        &&& forall|i: int, j: int|
            0 <= i < j < self.in_flight.len() ==> (#[trigger] self.in_flight[i]).url
                != (#[trigger] self.in_flight[j]).url
        &&& forall|url: Seq<char>| #[trigger]
            self.visited.contains(url) ==> in_scope(url, self.base_domain)
        &&& self.subdomains == subdomains_of(self.visited, self.base_domain)
        &&& self.directories == directories_of(self.visited)
    }

    /// An entry is admitted when its URL is in scope, has not been admitted
    /// before, is allowed by the robots policy, and lies within the depth
    /// bound.
    pub open spec fn admissible(self, entry: Entry) -> bool {
        &&& entry.depth <= self.max_depth
        &&& !self.visited.contains(entry.url)
        &&& in_scope(entry.url, self.base_domain)
        &&& allowed(entry.url, self.respect_robots, self.disallowed)
    }

    /// The state after the admission of `entry`: its URL is visited, the
    /// subdomain and the directory that it names are recorded, and its fetch
    /// is under way.
    pub open spec fn admission(self, entry: Entry) -> CrawlState {
        CrawlState {
            visited: self.visited.insert(entry.url),
            subdomains: match url_subdomain(entry.url, self.base_domain) {
                Some(label) => self.subdomains.insert(label),
                None => self.subdomains,
            },
            directories: match url_directory(entry.url) {
                Some(dir) => self.directories.insert(dir),
                None => self.directories,
            },
            in_flight: self.in_flight.push(entry),
            ..self
        }
    }

    /// Fewer fetches are under way than the cap allows.
    pub open spec fn has_free_slot(self) -> bool {
        self.in_flight.len() < self.concurrency
    }

    /// The state without the oldest entry of the frontier.
    pub open spec fn without_first(self) -> CrawlState {
        CrawlState { frontier: self.frontier.drop_first(), ..self }
    }

    /// One dispatch: while a slot is free, entries leave the frontier, oldest
    /// first, until one is admitted. The result is the state afterwards and
    /// the admitted entry, if there is one.
    pub open spec fn dispatch(self) -> (CrawlState, Option<Entry>)
        decreases self.frontier.len(),
    {
        if !self.has_free_slot() || self.frontier.len() == 0 {
            (self, None)
        } else if self.admissible(self.frontier[0]) {
            (self.without_first().admission(self.frontier[0]), Some(self.frontier[0]))
        } else {
            self.without_first().dispatch()
        }
    }

    /// A fetch of `url` is under way.
    pub open spec fn fetching(self, url: Seq<char>) -> bool {
        exists|i: int| 0 <= i < self.in_flight.len() && (#[trigger] self.in_flight[i]).url == url
    }

    /// The place of `url` among the fetches under way.
    pub open spec fn slot_of(self, url: Seq<char>) -> int {
        choose|i: int| 0 <= i < self.in_flight.len() && (#[trigger] self.in_flight[i]).url == url
    }

    /// Those of `links` that have not been visited, in their order.
    pub open spec fn unvisited(self, links: Seq<Seq<char>>) -> Seq<Seq<char>>
        decreases links.len(),
    {
        if links.len() == 0 {
            links
        } else if self.visited.contains(links.last()) {
            self.unvisited(links.drop_last())
        } else {
            self.unvisited(links.drop_last()).push(links.last())
        }
    }

    /// The state after the fetch of `url` has ended and `links` were found on
    /// its page: the fetch is no longer under way, and the links that have
    /// not been visited enter the frontier one level deeper, unless the page
    /// lies at the depth bound. Where no fetch of `url` is under way nothing
    /// changes.
    pub open spec fn expand(self, url: Seq<char>, links: Seq<Seq<char>>) -> CrawlState {
        if !self.fetching(url) {
            self
        } else if self.in_flight[self.slot_of(url)].depth < self.max_depth {
            CrawlState {
                in_flight: self.in_flight.remove(self.slot_of(url)),
                frontier: self.frontier + children(
                    self.unvisited(links),
                    self.in_flight[self.slot_of(url)].depth,
                ),
                ..self
            }
        } else {
            CrawlState { in_flight: self.in_flight.remove(self.slot_of(url)), ..self }
        }
    }

    /// The crawl is over: no fetch is under way, and nothing waits in the
    /// frontier that could ever be dispatched.
    pub open spec fn finished(self) -> bool {
        self.in_flight.len() == 0 && (self.frontier.len() == 0 || self.concurrency == 0)
    }
}

/// A URL is admitted once: after its admission it is not admissible again,
/// at whatever depth it is discovered.
pub proof fn lemma_admitted_once(state: CrawlState, entry: Entry, again: Entry)
    requires
        again.url == entry.url,
    ensures
        !state.admission(entry).admissible(again),
        state.admission(entry).visited.contains(entry.url),
{
}

/// One more visited URL adds the subdomain and the directory that it
/// names, and nothing else.
pub proof fn lemma_derived_insert(visited: Set<Seq<char>>, base: Seq<char>, url: Seq<char>)
    ensures
        subdomains_of(visited.insert(url), base) == match url_subdomain(url, base) {
            Some(label) => subdomains_of(visited, base).insert(label),
            None => subdomains_of(visited, base),
        },
        directories_of(visited.insert(url)) == match url_directory(url) {
            Some(dir) => directories_of(visited).insert(dir),
            None => directories_of(visited),
        },
{
    let more = visited.insert(url);
    let labels = match url_subdomain(url, base) {
        Some(label) => subdomains_of(visited, base).insert(label),
        None => subdomains_of(visited, base),
    };
    assert forall|label: Seq<char>| subdomains_of(more, base).contains(label) <==> labels.contains(
        label,
    ) by {
        if subdomains_of(more, base).contains(label) {
            let u = choose|u: Seq<char>| #[trigger]
                more.contains(u) && url_subdomain(u, base) == Some(label);
            if u != url {
                assert(visited.contains(u));
            }
        }
        if subdomains_of(visited, base).contains(label) {
            let u = choose|u: Seq<char>| #[trigger]
                visited.contains(u) && url_subdomain(u, base) == Some(label);
            assert(more.contains(u));
        }
        if url_subdomain(url, base) == Some(label) {
            assert(more.contains(url));
        }
    }
    let dirs = match url_directory(url) {
        Some(dir) => directories_of(visited).insert(dir),
        None => directories_of(visited),
    };
    assert forall|dir: Seq<char>| directories_of(more).contains(dir) <==> dirs.contains(dir) by {
        if directories_of(more).contains(dir) {
            let u = choose|u: Seq<char>| #[trigger] more.contains(u) && url_directory(u) == Some(dir);
            if u != url {
                assert(visited.contains(u));
            }
        }
        if directories_of(visited).contains(dir) {
            let u = choose|u: Seq<char>| #[trigger]
                visited.contains(u) && url_directory(u) == Some(dir);
            assert(more.contains(u));
        }
        if url_directory(url) == Some(dir) {
            assert(more.contains(url));
        }
    }
}

/// A crawl starts in a well-formed state.
pub proof fn lemma_initial_wf(
    base_domain: Seq<char>,
    start: Seq<char>,
    max_depth: nat,
    concurrency: nat,
    respect_robots: bool,
)
    ensures
        CrawlState::initial(base_domain, start, max_depth, concurrency, respect_robots).wf(),
{
    let state = CrawlState::initial(base_domain, start, max_depth, concurrency, respect_robots);
    assert(state.subdomains =~= subdomains_of(state.visited, base_domain));
    assert(state.directories =~= directories_of(state.visited));
}

/// Admission keeps the state well formed.
pub proof fn lemma_admission_wf(state: CrawlState, entry: Entry)
    requires
        state.wf(),
        state.has_free_slot(),
        state.admissible(entry),
    ensures
        state.admission(entry).wf(),
{
    let after = state.admission(entry);
    lemma_derived_insert(state.visited, state.base_domain, entry.url);
    assert forall|i: int| 0 <= i < after.in_flight.len() implies (#[trigger] after.in_flight[i]).depth
        <= after.max_depth && after.visited.contains(after.in_flight[i].url) by {
        if i < state.in_flight.len() {
            assert(after.in_flight[i] == state.in_flight[i]);
        }
    }
    assert forall|i: int, j: int| 0 <= i < j < after.in_flight.len() implies (
    #[trigger] after.in_flight[i]).url != (#[trigger] after.in_flight[j]).url by {
        assert(after.in_flight[i] == state.in_flight[i]);
        if j < state.in_flight.len() {
            assert(after.in_flight[j] == state.in_flight[j]);
        }
    }
}

/// A dispatch keeps the state well formed. What it admits lies within the
/// depth bound, is in scope, and had not been admitted before; and where it
/// admits nothing, either no slot is free or the frontier is empty.
pub proof fn lemma_dispatch(state: CrawlState)
    requires
        state.wf(),
    ensures
        state.dispatch().0.wf(),
        match state.dispatch().1 {
            Some(entry) => {
                &&& entry.depth <= state.max_depth
                &&& in_scope(entry.url, state.base_domain)
                &&& allowed(entry.url, state.respect_robots, state.disallowed)
                &&& !state.visited.contains(entry.url)
                &&& state.dispatch().0.visited == state.visited.insert(entry.url)
                &&& state.dispatch().0.in_flight == state.in_flight.push(entry)
            },
            None => {
                &&& state.dispatch().0.visited == state.visited
                &&& state.dispatch().0.in_flight == state.in_flight
                &&& !state.has_free_slot() || state.dispatch().0.frontier.len() == 0
            },
        },
    decreases state.frontier.len(),
{
    if state.has_free_slot() && state.frontier.len() > 0 {
        let rest = state.without_first();
        assert forall|i: int| 0 <= i < rest.frontier.len() implies (#[trigger] rest.frontier[i]).depth
            <= rest.max_depth by {
            assert(rest.frontier[i] == state.frontier[i + 1]);
        }
        if state.admissible(state.frontier[0]) {
            lemma_admission_wf(rest, state.frontier[0]);
        } else {
            lemma_dispatch(rest);
        }
    }
}

/// A crawl cannot come to a halt early: where a dispatch hands out nothing
/// and the crawl is not over, a fetch is under way, whose end will free a
/// slot or is all that is left to wait for.
pub proof fn lemma_no_deadlock(state: CrawlState)
    requires
        state.wf(),
        state.dispatch().1 is None,
        !state.dispatch().0.finished(),
    ensures
        state.dispatch().0.in_flight.len() > 0,
{
    lemma_dispatch(state);
}

/// Among the fetches under way each URL has one place.
pub proof fn lemma_slot_unique(state: CrawlState, url: Seq<char>, k: int)
    requires
        state.wf(),
        0 <= k < state.in_flight.len(),
        state.in_flight[k].url == url,
    ensures
        state.fetching(url),
        state.slot_of(url) == k,
{
    let found = state.slot_of(url);
    if found < k {
        assert(state.in_flight[found].url != state.in_flight[k].url);
    } else if found > k {
        assert(state.in_flight[k].url != state.in_flight[found].url);
    }
}

/// The end of a fetch keeps the state well formed, admits nothing, and frees
/// the slot of the fetch. At the depth bound it adds nothing to the frontier:
/// no link of a page at the greatest depth is ever admitted.
pub proof fn lemma_expand(state: CrawlState, url: Seq<char>, links: Seq<Seq<char>>)
    requires
        state.wf(),
    ensures
        state.expand(url, links).wf(),
        state.expand(url, links).visited == state.visited,
        state.fetching(url) ==> state.expand(url, links).in_flight.len() + 1
            == state.in_flight.len(),
        state.fetching(url) && state.in_flight[state.slot_of(url)].depth == state.max_depth
            ==> state.expand(url, links).frontier == state.frontier,
{
    if state.fetching(url) {
        let k = state.slot_of(url);
        let after = state.expand(url, links);
        let depth = state.in_flight[k].depth;
        assert forall|i: int| 0 <= i < after.in_flight.len() implies (#[trigger] after.in_flight[i]).depth
            <= after.max_depth && after.visited.contains(after.in_flight[i].url) by {
            if i < k {
                assert(after.in_flight[i] == state.in_flight[i]);
            } else {
                assert(after.in_flight[i] == state.in_flight[i + 1]);
            }
        }
        assert forall|i: int, j: int| 0 <= i < j < after.in_flight.len() implies (
        #[trigger] after.in_flight[i]).url != (#[trigger] after.in_flight[j]).url by {
            let a = if i < k {
                i
            } else {
                i + 1
            };
            let b = if j < k {
                j
            } else {
                j + 1
            };
            assert(after.in_flight[i] == state.in_flight[a]);
            assert(after.in_flight[j] == state.in_flight[b]);
        }
        assert forall|i: int| 0 <= i < after.frontier.len() implies (#[trigger] after.frontier[i]).depth
            <= after.max_depth by {
            if i < state.frontier.len() {
                assert(after.frontier[i] == state.frontier[i]);
            } else {
                assert(after.frontier[i] == children(state.unvisited(links), depth)[i
                    - state.frontier.len()]);
            }
        }
    }
}

/// One step of a crawl: a dispatch, or the end of a fetch with the links that
/// it brought.
pub open spec fn step(before: CrawlState, after: CrawlState) -> bool {
    ||| after == before.dispatch().0
    ||| exists|url: Seq<char>, links: Seq<Seq<char>>| after == #[trigger] before.expand(url, links)
}

/// The states that a crawl passes through, from a well-formed first state on.
pub open spec fn is_run(states: Seq<CrawlState>) -> bool {
    &&& states.len() > 0
    &&& states[0].wf()
    &&& forall|i: int| 0 <= i < states.len() - 1 ==> step(#[trigger] states[i], states[i + 1])
}

/// Every state of a crawl is well formed, whatever the order of its steps,
/// and the bounds and the base domain stay as they were at the start. So at
/// every moment no more fetches are under way than the cap of the crawl
/// allows, and every visited URL is in the scope of the crawl.
pub proof fn lemma_run(states: Seq<CrawlState>, i: int)
    requires
        is_run(states),
        0 <= i < states.len(),
    ensures
        states[i].wf(),
        states[i].max_depth == states[0].max_depth,
        states[i].concurrency == states[0].concurrency,
        states[i].base_domain == states[0].base_domain,
        states[i].in_flight.len() <= states[0].concurrency,
        forall|url: Seq<char>| #[trigger]
            states[i].visited.contains(url) ==> in_scope(url, states[0].base_domain),
    decreases i,
{
    if i > 0 {
        lemma_run(states, i - 1);
        lemma_step(states[i - 1], states[i]);
    }
}

/// In a crawl nothing is admitted beyond the depth bound of the crawl: the
/// entry that a dispatch hands out lies at most as deep as the bound allows.
pub proof fn lemma_depth_bound(states: Seq<CrawlState>, i: int)
    requires
        is_run(states),
        0 <= i < states.len(),
        states[i].dispatch().1 is Some,
    ensures
        states[i].dispatch().1->0.depth <= states[0].max_depth,
{
    lemma_run(states, i);
    lemma_dispatch(states[i]);
}

/// In a crawl the visited set only grows.
pub proof fn lemma_run_grows(states: Seq<CrawlState>, i: int, j: int)
    requires
        is_run(states),
        0 <= i <= j < states.len(),
    ensures
        states[i].visited.subset_of(states[j].visited),
    decreases j - i,
{
    if i < j {
        lemma_run_grows(states, i, j - 1);
        lemma_run(states, j - 1);
        lemma_step(states[j - 1], states[j]);
    }
}

/// In a crawl no URL is admitted twice: two dispatches, however far apart and
/// whatever happens between them, never hand out the same URL.
pub proof fn lemma_no_second_admission(states: Seq<CrawlState>, i: int, j: int)
    requires
        is_run(states),
        0 <= i < j < states.len() - 1,
        states[i + 1] == states[i].dispatch().0,
        states[j + 1] == states[j].dispatch().0,
        states[i].dispatch().1 is Some,
        states[j].dispatch().1 is Some,
    ensures
        states[i].dispatch().1->0.url != states[j].dispatch().1->0.url,
{
    lemma_run(states, i);
    lemma_run(states, j);
    lemma_dispatch(states[i]);
    lemma_dispatch(states[j]);
    lemma_run_grows(states, i + 1, j);
    assert(states[i + 1].visited.contains(states[i].dispatch().1->0.url));
}

/// A step keeps the state well formed, the bounds and the base domain as
/// they were, and everything visited that was visited before.
pub proof fn lemma_step(before: CrawlState, after: CrawlState)
    requires
        before.wf(),
        step(before, after),
    ensures
        after.wf(),
        before.visited.subset_of(after.visited),
        after.max_depth == before.max_depth,
        after.concurrency == before.concurrency,
        after.base_domain == before.base_domain,
{
    lemma_dispatch(before);
    lemma_dispatch_keeps_bounds(before);
    if after != before.dispatch().0 {
        let (url, links) = choose|url: Seq<char>, links: Seq<Seq<char>>|
            after == #[trigger] before.expand(url, links);
        lemma_expand(before, url, links);
    }
}

/// A dispatch changes neither the bounds nor the base domain.
pub proof fn lemma_dispatch_keeps_bounds(state: CrawlState)
    ensures
        state.dispatch().0.max_depth == state.max_depth,
        state.dispatch().0.concurrency == state.concurrency,
        state.dispatch().0.base_domain == state.base_domain,
        state.dispatch().0.respect_robots == state.respect_robots,
        state.dispatch().0.disallowed == state.disallowed,
    decreases state.frontier.len(),
{
    if state.has_free_slot() && state.frontier.len() > 0 && !state.admissible(state.frontier[0]) {
        lemma_dispatch_keeps_bounds(state.without_first());
    }
}

} // verus!

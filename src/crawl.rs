use vstd::prelude::*;

use crate::html::{first_card_text, views};
use crate::links::{extract_enterprise_links, extract_pagination_links, links_for, MEMBER_ANCHORS, PAGER_ANCHORS};
use crate::record::{extract_enterprise_data, is_card_record, Enterprise, CARD, DESCRIPTION, NAME_HEADING};

verus! {

/// The state of a crawl: URLs waiting to be fetched, in order; URLs taken
/// (fetched or failed, the one in flight included), in the order taken; the
/// records found so far; and the record budget (0 for none).
pub struct Crawler {
    frontier: Vec<String>,
    visited: Vec<String>,
    records: Vec<Enterprise>,
    max_records: usize,
}

/// The abstract state of a crawl.
pub ghost struct CrawlState {
    pub frontier: Seq<Seq<char>>,
    pub visited: Seq<Seq<char>>,
    pub records: Seq<Enterprise>,
    pub max_records: nat,
}

impl CrawlState {
    /// No URL is both waiting and taken, and none occurs twice in either.
    pub open spec fn wf(self) -> bool {
        (self.visited + self.frontier).no_duplicates()
    }

    /// The record budget is set and has been reached.
    pub open spec fn budget_reached(self) -> bool {
        self.max_records > 0 && self.records.len() >= self.max_records
    }

    /// Nothing is left to fetch, or the budget has been reached.
    pub open spec fn done(self) -> bool {
        self.frontier.len() == 0 || self.budget_reached()
    }
}

impl View for Crawler {
    type V = CrawlState;

    closed spec fn view(&self) -> CrawlState {
        CrawlState {
            frontier: views(self.frontier@),
            visited: views(self.visited@),
            records: self.records@,
            max_records: self.max_records as nat,
        }
    }
}

/// The frontier after the links of a page are offered to it, one by one in
/// their order: a link joins the tail unless it was taken already or is
/// waiting already.
pub open spec fn enqueue_new(visited: Seq<Seq<char>>, frontier: Seq<Seq<char>>, links: Seq<Seq<char>>) -> Seq<Seq<char>>
    decreases links.len(),
{
    if links.len() == 0 {
        frontier
    } else {
        let q = enqueue_new(visited, frontier, links.drop_last());
        let l = links.last();
        if visited.contains(l) || q.contains(l) {
            q
        } else {
            q.push(l)
        }
    }
}

/// The state after a fetched page yielded `links` and maybe a record.
pub open spec fn absorbed(s: CrawlState, links: Seq<Seq<char>>, record: Option<Enterprise>) -> CrawlState {
    CrawlState {
        frontier: enqueue_new(s.visited, s.frontier, links),
        records: match record {
            Some(e) => s.records.push(e),
            None => s.records,
        },
        ..s
    }
}

/// The state after the head of the frontier is taken.
pub open spec fn taken(s: CrawlState) -> CrawlState {
    CrawlState { frontier: s.frontier.drop_first(), visited: s.visited.push(s.frontier[0]), ..s }
}

/// The links a page offers to the frontier: those of its navigation list,
/// then those to detail pages.
pub open spec fn page_links(body: Seq<char>) -> Seq<Seq<char>> {
    links_for(body, PAGER_ANCHORS@) + links_for(body, MEMBER_ANCHORS@)
}

/// Offering links to a frontier keeps the frontier as a prefix, adds only
/// offered links that were neither taken nor waiting, each at most once, so
/// that no URL is waiting or taken twice.
pub proof fn lemma_enqueue_once(visited: Seq<Seq<char>>, frontier: Seq<Seq<char>>, links: Seq<Seq<char>>)
    requires
        (visited + frontier).no_duplicates(),
    ensures
        (visited + enqueue_new(visited, frontier, links)).no_duplicates(),
        enqueue_new(visited, frontier, links).len() >= frontier.len(),
        enqueue_new(visited, frontier, links).take(frontier.len() as int) == frontier,
        forall|k: int|
            frontier.len() <= k < enqueue_new(visited, frontier, links).len() ==> {
                let u = #[trigger] enqueue_new(visited, frontier, links)[k];
                &&& links.contains(u)
                &&& !visited.contains(u)
                &&& !frontier.contains(u)
            },
        forall|u: Seq<char>|
            #[trigger] links.contains(u) ==> visited.contains(u) || enqueue_new(visited, frontier, links).contains(u),
    decreases links.len(),
{
    if links.len() > 0 {
        let ls = links.drop_last();
        lemma_enqueue_once(visited, frontier, ls);
        let q = enqueue_new(visited, frontier, ls);
        let l = links.last();
        assert forall|u: Seq<char>| ls.contains(u) implies links.contains(u) by {
            let j = choose|j: int| 0 <= j < ls.len() && ls[j] == u;
            assert(links[j] == u);
        }
        assert(links.contains(l)) by {
            assert(links[links.len() - 1] == l);
        }
        assert forall|u: Seq<char>| #[trigger] links.contains(u) implies visited.contains(u) || enqueue_new(visited, frontier, links).contains(u) by {
            let r = enqueue_new(visited, frontier, links);
            let j = choose|j: int| 0 <= j < links.len() && links[j] == u;
            if j < ls.len() {
                assert(ls[j] == u);
                assert(ls.contains(u));
                if q.contains(u) {
                    let m = choose|m: int| 0 <= m < q.len() && q[m] == u;
                    if !(visited.contains(l) || q.contains(l)) {
                        assert(r[m] == q.push(l)[m]);
                    }
                    assert(r[m] == u);
                }
            } else {
                assert(u == l);
                if !visited.contains(l) && !q.contains(l) {
                    assert(r[q.len() as int] == l);
                }
            }
        }
        if !(visited.contains(l) || q.contains(l)) {
            let q2 = q.push(l);
            assert(q2.take(frontier.len() as int) =~= q.take(frontier.len() as int));
            assert((visited + q2) =~= (visited + q).push(l));
            assert(!(visited + q).contains(l)) by {
                if (visited + q).contains(l) {
                    let j = choose|j: int| 0 <= j < (visited + q).len() && (visited + q)[j] == l;
                    if j < visited.len() {
                        assert(visited[j] == l);
                    } else {
                        assert(q[j - visited.len()] == l);
                    }
                }
            }
            assert forall|k: int| frontier.len() <= k < q2.len() implies {
                let u = #[trigger] q2[k];
                &&& links.contains(u)
                &&& !visited.contains(u)
                &&& !frontier.contains(u)
            } by {
                if k == q.len() {
                    assert(q2[k] == l);
                    assert(!frontier.contains(l)) by {
                        if frontier.contains(l) {
                            let j = choose|j: int| 0 <= j < frontier.len() && frontier[j] == l;
                            assert(q.take(frontier.len() as int)[j] == l);
                            assert(q[j] == l);
                        }
                    }
                } else {
                    assert(q2[k] == q[k]);
                }
            }
        }
    } else {
        assert(frontier.take(frontier.len() as int) =~= frontier);
    }
}

/// In a well-formed crawl no URL has been taken twice, and none that is
/// waiting has been taken.
pub proof fn lemma_visited_unique(s: CrawlState, u: Seq<char>)
    requires
        s.wf(),
    ensures
        s.visited.no_duplicates(),
        s.frontier.no_duplicates(),
        s.frontier.contains(u) ==> !s.visited.contains(u),
{
    let k = s.visited + s.frontier;
    assert forall|i: int, j: int| 0 <= i < j < s.visited.len() implies s.visited[i] != s.visited[j] by {
        assert(k[i] == s.visited[i] && k[j] == s.visited[j]);
    }
    assert forall|i: int, j: int| 0 <= i < j < s.frontier.len() implies s.frontier[i] != s.frontier[j] by {
        assert(k[s.visited.len() + i] == s.frontier[i] && k[s.visited.len() + j] == s.frontier[j]);
    }
    if s.frontier.contains(u) && s.visited.contains(u) {
        let i = choose|i: int| 0 <= i < s.visited.len() && s.visited[i] == u;
        let j = choose|j: int| 0 <= j < s.frontier.len() && s.frontier[j] == u;
        assert(k[i] == k[s.visited.len() + j]);
    }
}

/// Once the record budget is reached the crawl is over, and stays over
/// whatever a page in flight still yields: no further URL is taken.
pub proof fn lemma_budget_stops(s: CrawlState, links: Seq<Seq<char>>, record: Option<Enterprise>)
    requires
        s.budget_reached(),
    ensures
        s.done(),
        absorbed(s, links, record).budget_reached(),
        absorbed(s, links, record).done(),
{
}

/// Before the budget is reached, with URLs waiting, the crawl goes on.
pub proof fn lemma_budget_not_early(s: CrawlState)
    requires
        s.frontier.len() > 0,
        s.max_records == 0 || s.records.len() < s.max_records,
    ensures
        !s.done(),
{
}

fn holds(v: &Vec<String>, s: &String) -> (r: bool)
    ensures
        r == views(v@).contains(s@),
{
    let mut i: usize = 0;
    while i < v.len()
        invariant
            i <= v@.len(),
            forall|j: int| 0 <= j < i ==> v@[j]@ != s@,
        decreases v@.len() - i,
    {
        if v[i] == *s {
            assert(views(v@)[i as int] == s@);
            return true;
        }
        i = i + 1;
    }
    assert(!views(v@).contains(s@)) by {
        if views(v@).contains(s@) {
            let j = choose|j: int| 0 <= j < views(v@).len() && views(v@)[j] == s@;
            assert(v@[j]@ == s@);
        }
    }
    false
}

impl Crawler {
    /// A crawl that starts at `seed`, with a budget of `max_records` records
    /// (0 for none).
    pub fn new(seed: String, max_records: usize) -> (r: Crawler)
        ensures
            r@.frontier == seq![seed@],
            r@.visited.len() == 0,
            r@.records.len() == 0,
            r@.max_records == max_records,
            r@.wf(),
    {
        let mut frontier: Vec<String> = Vec::new();
        let ghost s = seed@;
        frontier.push(seed);
        let r = Crawler { frontier, visited: Vec::new(), records: Vec::new(), max_records };
        assert(r@.frontier =~= seq![s]);
        assert(r@.visited + r@.frontier =~= seq![s]);
        r
    }

    /// Whether the crawl is over: nothing is left to fetch, or the budget has
    /// been reached.
    pub fn is_done(&self) -> (r: bool)
        ensures
            r == self@.done(),
    {
        self.frontier.len() == 0 || (self.max_records > 0 && self.records.len() >= self.max_records)
    }

    /// Takes the next URL to fetch from the head of the frontier and counts it
    /// as visited; `None`, with nothing changed, once the crawl is over.
    pub fn next_url(&mut self) -> (r: Option<String>)
        requires
            old(self)@.wf(),
        ensures
            final(self)@.wf(),
            old(self)@.done() ==> r is None && final(self)@ == old(self)@,
            !old(self)@.done() ==> (r matches Some(u) && u@ == old(self)@.frontier[0]
                && final(self)@ == taken(old(self)@)),
    {
        if self.is_done() {
            return None;
        }
        let ghost s = self@;
        let u = self.frontier.remove(0);
        self.visited.push(u.clone());
        assert(self@.frontier =~= s.frontier.drop_first());
        assert(self@.visited =~= s.visited.push(s.frontier[0]));
        assert(self@.visited + self@.frontier =~= s.visited + s.frontier);
        Some(u)
    }

    /// Offers the links of a fetched page to the frontier, in their order, and
    /// keeps its record, if any.
    pub fn absorb(&mut self, links: Vec<String>, record: Option<Enterprise>)
        requires
            old(self)@.wf(),
        ensures
            final(self)@.wf(),
            final(self)@ == absorbed(old(self)@, views(links@), record),
    {
        let ghost s = self@;
        let ghost lv = views(links@);
        proof {
            lemma_enqueue_once(s.visited, s.frontier, lv);
        }
        let mut i: usize = 0;
        while i < links.len()
            invariant
                i <= links@.len(),
                lv == views(links@),
                self@.visited == s.visited,
                self@.records == s.records,
                self@.max_records == s.max_records,
                self@.frontier == enqueue_new(s.visited, s.frontier, lv.take(i as int)),
                (s.visited + s.frontier).no_duplicates(),
            decreases links@.len() - i,
        {
            proof {
                assert(lv.take(i + 1).drop_last() =~= lv.take(i as int));
                lemma_enqueue_once(s.visited, s.frontier, lv.take(i as int));
            }
            let l = &links[i];
            if !holds(&self.visited, l) && !holds(&self.frontier, l) {
                let ghost before = self@.frontier;
                self.frontier.push(l.clone());
                assert(self@.frontier =~= before.push(l@));
            }
            i = i + 1;
        }
        assert(lv.take(i as int) =~= lv);
        proof {
            lemma_enqueue_once(s.visited, s.frontier, lv);
        }
        match record {
            Some(e) => {
                self.records.push(e);
            },
            None => {},
        }
    }

    /// Handles a fetched page: offers its navigation links, then its links to
    /// detail pages, and keeps the record of its detail card, if it has one.
    pub fn page_fetched(&mut self, body: &str)
        requires
            old(self)@.wf(),
        ensures
            final(self)@.wf(),
            final(self)@.visited == old(self)@.visited,
            final(self)@.max_records == old(self)@.max_records,
            final(self)@.frontier == enqueue_new(old(self)@.visited, old(self)@.frontier, page_links(body@)),
            match first_card_text(body@, CARD@, NAME_HEADING@, DESCRIPTION@) {
                Some(Some((heading, blocks))) => {
                    &&& final(self)@.records.len() == old(self)@.records.len() + 1
                    &&& final(self)@.records.drop_last() == old(self)@.records
                    &&& is_card_record(final(self)@.records.last(), heading, blocks)
                },
                _ => final(self)@.records == old(self)@.records,
            },
    {
        let mut links = extract_pagination_links(body);
        let mut more = extract_enterprise_links(body);
        let ghost a = views(links@);
        let ghost b = views(more@);
        links.append(&mut more);
        assert(views(links@) =~= a + b);
        let record = extract_enterprise_data(body);
        self.absorb(links, record);
        proof {
            if self@.records.len() == old(self)@.records.len() + 1 {
                assert(self@.records.drop_last() =~= old(self)@.records);
            }
        }
    }

    /// How many URLs have been taken.
    pub fn visited_count(&self) -> (r: usize)
        ensures
            r == self@.visited.len(),
    {
        self.visited.len()
    }

    /// How many URLs are waiting.
    pub fn pending_count(&self) -> (r: usize)
        ensures
            r == self@.frontier.len(),
    {
        self.frontier.len()
    }

    /// The records found so far, in the order found.
    pub fn records(&self) -> (r: &Vec<Enterprise>)
        ensures
            r@ == self@.records,
    {
        &self.records
    }

    /// The URLs taken so far, in the order taken.
    pub fn visited(&self) -> (r: &Vec<String>)
        ensures
            views(r@) == self@.visited,
    {
        &self.visited
    }

    /// The URLs waiting, in the order they will be taken.
    pub fn frontier(&self) -> (r: &Vec<String>)
        ensures
            views(r@) == self@.frontier,
    {
        &self.frontier
    }

    /// Ends the crawl, handing over the records found, in the order found.
    pub fn into_records(self) -> (r: Vec<Enterprise>)
        ensures
            r@ == self@.records,
    {
        self.records
    }
}

} // verus!

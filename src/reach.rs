use vstd::prelude::*;

use crate::crawl::{absorbed, lemma_enqueue_once, taken, CrawlState};

verus! {

/// The links of `u`'s page in a link graph; a URL outside the graph has none.
pub open spec fn out_links(g: Map<Seq<char>, Seq<Seq<char>>>, u: Seq<char>) -> Seq<Seq<char>> {
    if g.contains_key(u) {
        g[u]
    } else {
        Seq::empty()
    }
}

/// `p` is a path of `g`: each URL after the first is a link of the one before.
pub open spec fn is_path(g: Map<Seq<char>, Seq<Seq<char>>>, p: Seq<Seq<char>>) -> bool {
    p.len() > 0 && forall|i: int| 0 <= i < p.len() - 1 ==> #[trigger] out_links(g, p[i]).contains(p[i + 1])
}

/// The URLs that can be reached from `seed` in `g`.
pub open spec fn reachable(g: Map<Seq<char>, Seq<Seq<char>>>, seed: Seq<char>) -> Set<Seq<char>> {
    Set::new(|u: Seq<char>| exists|p: Seq<Seq<char>>| is_path(g, p) && p[0] == seed && p.last() == u)
}

/// A crawl that starts at `seed` with no record budget.
pub open spec fn start(seed: Seq<char>) -> CrawlState {
    CrawlState { frontier: seq![seed], visited: Seq::empty(), records: Seq::empty(), max_records: 0 }
}

/// One turn of the crawl over a link graph whose pages all hold no detail
/// card: the head is taken and its page's links are offered.
pub open spec fn crawl_step(s: CrawlState, g: Map<Seq<char>, Seq<Seq<char>>>) -> CrawlState {
    absorbed(taken(s), out_links(g, s.frontier[0]), None)
}

/// At most `fuel` turns of the crawl, stopping once nothing is left to fetch.
pub open spec fn crawl_run(s: CrawlState, g: Map<Seq<char>, Seq<Seq<char>>>, fuel: nat) -> CrawlState
    decreases fuel,
{
    if fuel == 0 || s.frontier.len() == 0 {
        s
    } else {
        crawl_run(crawl_step(s, g), g, (fuel - 1) as nat)
    }
}

/// Every URL of the graph links only to URLs of the graph.
pub open spec fn closed_graph(g: Map<Seq<char>, Seq<Seq<char>>>) -> bool {
    forall|u: Seq<char>, l: Seq<char>| g.contains_key(u) && #[trigger] g[u].contains(l) ==> g.contains_key(l)
}

spec fn inv(s: CrawlState, g: Map<Seq<char>, Seq<Seq<char>>>, seed: Seq<char>) -> bool {
    let known = s.visited + s.frontier;
    &&& s.max_records == 0
    &&& s.wf()
    &&& known.contains(seed)
    &&& forall|u: Seq<char>| #[trigger] known.contains(u) ==> g.contains_key(u) && reachable(g, seed).contains(u)
    &&& forall|v: Seq<char>, l: Seq<char>|
        s.visited.contains(v) && #[trigger] out_links(g, v).contains(l) ==> known.contains(l)
}

proof fn lemma_known_split(s: CrawlState, u: Seq<char>)
    ensures
        (s.visited + s.frontier).contains(u) <==> s.visited.contains(u) || s.frontier.contains(u),
{
    let k = s.visited + s.frontier;
    if k.contains(u) {
        let j = choose|j: int| 0 <= j < k.len() && k[j] == u;
        if j < s.visited.len() {
            assert(s.visited[j] == u);
        } else {
            assert(s.frontier[j - s.visited.len()] == u);
        }
    }
    if s.visited.contains(u) {
        let j = choose|j: int| 0 <= j < s.visited.len() && s.visited[j] == u;
        assert(k[j] == u);
    }
    if s.frontier.contains(u) {
        let j = choose|j: int| 0 <= j < s.frontier.len() && s.frontier[j] == u;
        assert(k[s.visited.len() + j] == u);
    }
}

proof fn lemma_step_keeps_inv(s: CrawlState, g: Map<Seq<char>, Seq<Seq<char>>>, seed: Seq<char>)
    requires
        inv(s, g, seed),
        closed_graph(g),
        s.frontier.len() > 0,
    ensures
        inv(crawl_step(s, g), g, seed),
        crawl_step(s, g).visited.len() == s.visited.len() + 1,
{
    let t = taken(s);
    let h = s.frontier[0];
    let links = out_links(g, h);
    let n = crawl_step(s, g);
    assert(t.visited + t.frontier =~= s.visited + s.frontier);
    lemma_enqueue_once(t.visited, t.frontier, links);
    let q = n.frontier;
    assert(n.visited == t.visited);
    assert(s.frontier.contains(h));
    lemma_known_split(s, h);
    assert forall|u: Seq<char>| #[trigger] (n.visited + n.frontier).contains(u) implies (t.visited
        + t.frontier).contains(u) || links.contains(u) by {
        lemma_known_split(n, u);
        lemma_known_split(t, u);
        if q.contains(u) && !t.frontier.contains(u) {
            let k = choose|k: int| 0 <= k < q.len() && q[k] == u;
            if k < t.frontier.len() {
                assert(q.take(t.frontier.len() as int)[k] == u);
                assert(t.frontier[k] == u);
            } else {
                assert(links.contains(q[k]));
            }
        }
    }
    assert forall|u: Seq<char>| #[trigger] (t.visited + t.frontier).contains(u) implies (n.visited
        + n.frontier).contains(u) by {
        lemma_known_split(n, u);
        lemma_known_split(t, u);
        if t.frontier.contains(u) {
            let k = choose|k: int| 0 <= k < t.frontier.len() && t.frontier[k] == u;
            assert(q.take(t.frontier.len() as int)[k] == u);
            assert(q[k] == u);
        }
    }
    assert((s.visited + s.frontier).contains(h));
    assert(reachable(g, seed).contains(h));
    let hp = choose|p: Seq<Seq<char>>| is_path(g, p) && p[0] == seed && p.last() == h;
    assert forall|u: Seq<char>| #[trigger] (n.visited + n.frontier).contains(u) implies g.contains_key(u)
        && reachable(g, seed).contains(u) by {
        if links.contains(u) {
            assert(g.contains_key(h));
            assert(g[h].contains(u));
            let up = hp.push(u);
            assert forall|i: int| 0 <= i < up.len() - 1 implies #[trigger] out_links(g, up[i]).contains(up[i + 1]) by {
                if i < hp.len() - 1 {
                    assert(up[i] == hp[i] && up[i + 1] == hp[i + 1]);
                } else {
                    assert(up[i] == h && up[i + 1] == u);
                }
            }
            assert(is_path(g, up) && up[0] == seed && up.last() == u);
        }
    }
    assert forall|v: Seq<char>, l: Seq<char>| n.visited.contains(v) && #[trigger] out_links(g, v).contains(l) implies (
    n.visited + n.frontier).contains(l) by {
        if v == h {
            lemma_known_split(n, l);
        } else {
            let j = choose|j: int| 0 <= j < n.visited.len() && n.visited[j] == v;
            if j < s.visited.len() {
                assert(s.visited[j] == v);
            } else {
                assert(n.visited[j] == h);
            }
        }
    }
}

proof fn lemma_known_bounded(s: CrawlState, g: Map<Seq<char>, Seq<Seq<char>>>, seed: Seq<char>)
    requires
        inv(s, g, seed),
        g.dom().finite(),
    ensures
        s.visited.len() + s.frontier.len() <= g.dom().len(),
{
    let k = s.visited + s.frontier;
    k.unique_seq_to_set();
    assert(k.to_set().subset_of(g.dom()));
    vstd::set_lib::lemma_len_subset(k.to_set(), g.dom());
}

proof fn lemma_run_drains(s: CrawlState, g: Map<Seq<char>, Seq<Seq<char>>>, seed: Seq<char>, fuel: nat)
    requires
        inv(s, g, seed),
        closed_graph(g),
        g.dom().finite(),
        s.visited.len() + fuel >= g.dom().len(),
    ensures
        inv(crawl_run(s, g, fuel), g, seed),
        crawl_run(s, g, fuel).frontier.len() == 0,
    decreases fuel,
{
    lemma_known_bounded(s, g, seed);
    if fuel > 0 && s.frontier.len() > 0 {
        lemma_step_keeps_inv(s, g, seed);
        lemma_run_drains(crawl_step(s, g), g, seed, (fuel - 1) as nat);
    }
}

proof fn lemma_closed_holds_path(s: CrawlState, g: Map<Seq<char>, Seq<Seq<char>>>, seed: Seq<char>, p: Seq<Seq<char>>, i: int)
    requires
        inv(s, g, seed),
        s.frontier.len() == 0,
        is_path(g, p),
        p[0] == seed,
        0 <= i < p.len(),
    ensures
        s.visited.contains(p[i]),
    decreases i,
{
    assert(s.visited + s.frontier =~= s.visited);
    if i > 0 {
        lemma_closed_holds_path(s, g, seed, p, i - 1);
        assert(out_links(g, p[i - 1]).contains(p[(i - 1) + 1]));
    }
}

/// On a finite link graph whose pages link only within it, a crawl from a URL
/// of the graph with no budget ends within as many turns as the graph has
/// URLs, with nothing left to fetch and every URL reachable from the start
/// taken, each once, and no other.
pub proof fn lemma_crawl_terminates(g: Map<Seq<char>, Seq<Seq<char>>>, seed: Seq<char>)
    requires
        g.dom().finite(),
        closed_graph(g),
        g.contains_key(seed),
    ensures
        crawl_run(start(seed), g, g.dom().len()).frontier.len() == 0,
        crawl_run(start(seed), g, g.dom().len()).visited.no_duplicates(),
        crawl_run(start(seed), g, g.dom().len()).visited.to_set() == reachable(g, seed),
{
    let s = start(seed);
    assert(s.visited + s.frontier =~= seq![seed]);
    assert(is_path(g, seq![seed]));
    assert(inv(s, g, seed)) by {
        assert forall|u: Seq<char>| #[trigger] (s.visited + s.frontier).contains(u) implies g.contains_key(u)
            && reachable(g, seed).contains(u) by {
            let p = seq![seed];
            assert(p[0] == seed);
            assert(u == seed);
            assert(is_path(g, p) && p[0] == seed && p.last() == u);
        }
        assert((s.visited + s.frontier)[0] == seed);
    }
    lemma_run_drains(s, g, seed, g.dom().len());
    let e = crawl_run(s, g, g.dom().len());
    assert(e.visited + e.frontier =~= e.visited);
    assert forall|u: Seq<char>| e.visited.to_set().contains(u) <==> reachable(g, seed).contains(u) by {
        if reachable(g, seed).contains(u) {
            let p = choose|p: Seq<Seq<char>>| is_path(g, p) && p[0] == seed && p.last() == u;
            lemma_closed_holds_path(e, g, seed, p, p.len() - 1);
        }
    }
    assert(e.visited.to_set() =~= reachable(g, seed));
}

} // verus!

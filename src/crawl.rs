//! The breadth-first traversal: the frontier, the visited set, and the depth
//! budget that bounds how many layers of links are followed.
//!
//! The engine makes the decisions and leaves fetching to its caller: it
//! hands out the next URL to fetch, and is told the links of each page that
//! was fetched. Links are enqueued after a check against the visited set
//! alone; a URL that is enqueued twice is skipped when it is dequeued again,
//! so that no URL is handed out twice.
//!
//! A link is reported when it is found while budget remains and was not
//! reported before: with depth `d`, the links reported are those that lie
//! within `d` links of the seed. Links found on the pages of the last layer
//! are neither followed nor reported.

use vstd::prelude::*;
use crate::matcher::{page_matches, FragmentModel};
use crate::page::{find_links, page_links, strs, Document};
use crate::strings::{holds, texts};
use crate::url::{joined_url, seed_scope, Scope, ScopeModel};
use std::collections::VecDeque;

verus! {

/// The model of a crawl's state.
pub struct CrawlState {
    /// URLs waiting to be visited, first to be visited first.
    pub frontier: Seq<Seq<char>>,
    /// URLs handed out for fetching, in the order they were handed out.
    pub visited: Seq<Seq<char>>,
    /// The seed and every link reported so far, in order of discovery.
    pub seen: Seq<Seq<char>>,
    /// Layers of links still to follow; negative when unbounded.
    pub budget: int,
    /// How many entries at the front of the frontier belong to the layer
    /// being visited.
    pub layer_left: int,
}

/// The state in which a crawl from `seed` with depth `depth` starts.
pub open spec fn start(seed: Seq<char>, depth: int) -> CrawlState {
    CrawlState {
        frontier: seq![seed],
        visited: Seq::empty(),
        seen: seq![seed],
        budget: depth,
        layer_left: 1,
    }
}

/// The starting budget for a depth: unbounded (negative) when absent.
pub open spec fn budget_of(depth: Option<u32>) -> int {
    match depth {
        Some(d) => d as int,
        None => -1,
    }
}

/// The states a crawl can be in.
pub open spec fn valid(v: CrawlState) -> bool {
    &&& v.visited.no_duplicates()
    &&& v.seen.no_duplicates()
    &&& 0 <= v.layer_left <= v.frontier.len()
}

/// Takes the first entry off a non-empty frontier. When the layer being
/// visited is used up, the next layer is the whole frontier, and the budget
/// drops by one.
pub open spec fn pop(v: CrawlState) -> CrawlState {
    if v.layer_left == 0 {
        CrawlState {
            frontier: v.frontier.drop_first(),
            budget: if v.budget > 0 {
                v.budget - 1
            } else {
                v.budget
            },
            layer_left: v.frontier.len() - 1,
            ..v
        }
    } else {
        CrawlState { frontier: v.frontier.drop_first(), layer_left: v.layer_left - 1, ..v }
    }
}

/// The next URL to fetch, and the state after handing it out: entries of
/// the frontier already visited are dropped; `None` when the frontier runs
/// out.
pub open spec fn dequeue(v: CrawlState) -> (CrawlState, Option<Seq<char>>)
    decreases v.frontier.len(),
{
    if v.frontier.len() == 0 {
        (v, None)
    } else {
        let u = v.frontier[0];
        let w = pop(v);
        if v.visited.contains(u) {
            dequeue(w)
        } else {
            (CrawlState { visited: w.visited.push(u), ..w }, Some(u))
        }
    }
}

/// Takes in links while budget remains: each link not visited is enqueued,
/// and each not reported before is reported.
pub open spec fn take_in(v: CrawlState, links: Seq<Seq<char>>) -> (CrawlState, Seq<Seq<char>>)
    decreases links.len(),
{
    if links.len() == 0 {
        (v, Seq::empty())
    } else {
        let (w, fresh) = take_in(v, links.drop_last());
        let x = links.last();
        let w2 = CrawlState {
            frontier: if !w.visited.contains(x) {
                w.frontier.push(x)
            } else {
                w.frontier
            },
            seen: if w.seen.contains(x) {
                w.seen
            } else {
                w.seen.push(x)
            },
            ..w
        };
        (w2, if w.seen.contains(x) {
            fresh
        } else {
            fresh.push(x)
        })
    }
}

/// The state after the links of a fetched page are taken in, and the links
/// among them that are reported. Once the budget is spent nothing is taken
/// in.
pub open spec fn record(v: CrawlState, links: Seq<Seq<char>>) -> (CrawlState, Seq<Seq<char>>) {
    if v.budget == 0 {
        (v, Seq::empty())
    } else {
        take_in(v, links)
    }
}

/// What taking in links leaves as it was: the visited list, the budget and
/// the current layer; the frontier only grows at its end.
pub proof fn lemma_take_in_frame(v: CrawlState, links: Seq<Seq<char>>)
    ensures
        take_in(v, links).0.visited == v.visited,
        take_in(v, links).0.budget == v.budget,
        take_in(v, links).0.layer_left == v.layer_left,
        v.frontier.len() <= take_in(v, links).0.frontier.len(),
        take_in(v, links).0.frontier.subrange(0, v.frontier.len() as int) == v.frontier,
    decreases links.len(),
{
    if links.len() > 0 {
        lemma_take_in_frame(v, links.drop_last());
        let w = take_in(v, links.drop_last()).0;
        assert(w.frontier.push(links.last()).subrange(0, v.frontier.len() as int)
            =~= w.frontier.subrange(0, v.frontier.len() as int));
    } else {
        assert(v.frontier.subrange(0, v.frontier.len() as int) =~= v.frontier);
    }
}

/// What recording links leaves as it was: the visited list, the budget and
/// the current layer; the frontier only grows at its end, and once the
/// budget is spent nothing changes and nothing is reported.
pub proof fn lemma_record_frame(v: CrawlState, links: Seq<Seq<char>>)
    ensures
        record(v, links).0.visited == v.visited,
        record(v, links).0.budget == v.budget,
        record(v, links).0.layer_left == v.layer_left,
        v.frontier.len() <= record(v, links).0.frontier.len(),
        record(v, links).0.frontier.subrange(0, v.frontier.len() as int) == v.frontier,
        v.budget == 0 ==> record(v, links) == (v, Seq::<Seq<char>>::empty()),
{
    if v.budget != 0 {
        lemma_take_in_frame(v, links);
    } else {
        assert(v.frontier.subrange(0, v.frontier.len() as int) =~= v.frontier);
    }
}

/// The links that `take_in` reports were not reported before and do not
/// repeat, and the list of reported links grows by exactly them.
pub proof fn lemma_taken_in_once(v: CrawlState, links: Seq<Seq<char>>)
    requires
        v.seen.no_duplicates(),
    ensures
        take_in(v, links).0.seen == v.seen + take_in(v, links).1,
        take_in(v, links).0.seen.no_duplicates(),
        take_in(v, links).1.no_duplicates(),
        forall|x: Seq<char>| #[trigger] take_in(v, links).1.contains(x) ==> !v.seen.contains(x),
    decreases links.len(),
{
    if links.len() > 0 {
        lemma_taken_in_once(v, links.drop_last());
        let (w, fresh) = take_in(v, links.drop_last());
        let x = links.last();
        if !w.seen.contains(x) {
            assert(w.seen.push(x) =~= v.seen + fresh.push(x));
            assert forall|i: int, j: int|
                0 <= i < j < w.seen.push(x).len() implies w.seen.push(x)[i] != w.seen.push(x)[j] by {
                if j == w.seen.len() {
                    assert(w.seen.contains(w.seen[i]));
                }
            }
            assert forall|i: int, j: int|
                0 <= i < j < fresh.push(x).len() implies fresh.push(x)[i] != fresh.push(x)[j] by {
                if j == fresh.len() {
                    assert(w.seen[v.seen.len() + i] == fresh[i]);
                }
            }
            assert forall|y: Seq<char>| #[trigger] fresh.push(x).contains(y) implies !v.seen.contains(y) by {
                if y == x {
                    if v.seen.contains(y) {
                        let k = choose|k: int| 0 <= k < v.seen.len() && v.seen[k] == y;
                        assert(w.seen[k] == y);
                    }
                } else {
                    let k = choose|k: int| 0 <= k < fresh.push(x).len() && fresh.push(x)[k] == y;
                    assert(fresh[k] == y);
                    assert(fresh.contains(y));
                }
            }
        }
    }
}

/// Each link is reported at most once: the links that recording a page
/// reports were not reported before and do not repeat, and the list of
/// reported links grows by exactly them.
pub proof fn lemma_reported_once(v: CrawlState, links: Seq<Seq<char>>)
    requires
        v.seen.no_duplicates(),
    ensures
        record(v, links).0.seen == v.seen + record(v, links).1,
        record(v, links).0.seen.no_duplicates(),
        record(v, links).1.no_duplicates(),
        forall|x: Seq<char>| #[trigger] record(v, links).1.contains(x) ==> !v.seen.contains(x),
{
    if v.budget != 0 {
        lemma_taken_in_once(v, links);
    } else {
        assert(v.seen + Seq::<Seq<char>>::empty() =~= v.seen);
    }
}

/// Handing out a URL keeps a state valid, and the URL handed out was not
/// visited before and is visited after; when none is left, the visited list
/// stays as it was.
pub proof fn lemma_dequeue(v: CrawlState)
    requires
        valid(v),
    ensures
        valid(dequeue(v).0),
        match dequeue(v).1 {
            Some(u) => !v.visited.contains(u) && dequeue(v).0.visited == v.visited.push(u),
            None => dequeue(v).0.visited == v.visited && dequeue(v).0.frontier.len() == 0,
        },
    decreases v.frontier.len(),
{
    if v.frontier.len() > 0 {
        let u = v.frontier[0];
        let w = pop(v);
        if v.visited.contains(u) {
            lemma_dequeue(w);
        } else {
            assert forall|i: int, j: int|
                0 <= i < j < w.visited.push(u).len() implies w.visited.push(u)[i] != w.visited.push(
                    u,
                )[j] by {
                if j == w.visited.len() {
                    assert(w.visited[i] == v.visited[i]);
                }
            }
        }
    }
}

/// No URL is fetched twice. In every valid state, the URL handed out next
/// has not been visited and joins the visited list, which never holds a URL
/// twice; taking in a page's links leaves the visited list as it was.
pub proof fn lemma_fetch_at_most_once(v: CrawlState, links: Seq<Seq<char>>)
    requires
        valid(v),
    ensures
        valid(dequeue(v).0),
        valid(record(v, links).0),
        dequeue(v).0.visited.no_duplicates(),
        match dequeue(v).1 {
            Some(u) => !v.visited.contains(u) && dequeue(v).0.visited == v.visited.push(u),
            None => dequeue(v).0.visited == v.visited,
        },
        record(v, links).0.visited == v.visited,
{
    lemma_dequeue(v);
    lemma_record_frame(v, links);
    lemma_reported_once(v, links);
}

/// With depth 0 only the seed is fetched: it is handed out first, and once
/// its links are taken in, however many there are, none is enqueued or
/// reported and the crawl is over.
pub proof fn lemma_depth_zero(seed: Seq<char>, links: Seq<Seq<char>>)
    ensures
        dequeue(start(seed, 0)).1 == Some(seed),
        record(dequeue(start(seed, 0)).0, links).1.len() == 0,
        record(dequeue(start(seed, 0)).0, links).0.frontier.len() == 0,
        dequeue(record(dequeue(start(seed, 0)).0, links).0).1 is None,
        dequeue(record(dequeue(start(seed, 0)).0, links).0).0.visited == seq![seed],
{
    let v0 = start(seed, 0);
    let v1 = dequeue(v0).0;
    assert(!v0.visited.contains(seed));
    assert(v1.frontier.len() == 0);
    lemma_record_frame(v1, links);
    assert(v1.visited =~= seq![seed]);
}

/// What a crawl within `scope` yields over at most `steps` fetches, where
/// the page at each URL is the text that `site` gives and a URL it lacks
/// fails to fetch: for each URL handed out, in order, the links reported
/// from its page (by the `href` of the elements that `selectors` match) and
/// the fragments of it that match `pattern`.
pub open spec fn run(
    v: CrawlState,
    scope: ScopeModel,
    site: Map<Seq<char>, Seq<char>>,
    selectors: Seq<Seq<char>>,
    pattern: Seq<char>,
    steps: nat,
) -> Seq<(Seq<char>, Seq<Seq<char>>, Seq<FragmentModel>)>
    decreases steps,
{
    if steps == 0 {
        Seq::empty()
    } else {
        match dequeue(v) {
            (w, Some(u)) => if site.contains_key(u) {
                let (w2, fresh) = record(w, page_links(u, site[u], selectors, scope));
                seq![(u, fresh, page_matches(site[u], pattern))] + run(
                    w2,
                    scope,
                    site,
                    selectors,
                    pattern,
                    (steps - 1) as nat,
                )
            } else {
                seq![(u, Seq::empty(), Seq::empty())] + run(
                    w,
                    scope,
                    site,
                    selectors,
                    pattern,
                    (steps - 1) as nat,
                )
            },
            (_, None) => Seq::empty(),
        }
    }
}

/// Crawling an unchanged site twice with the same seed, depth and scope
/// setting fetches the same URLs, reports the same links and finds the same
/// fragments, in the same order: two crawls that `Crawl::new` starts from
/// the same arguments have the same state and the same scope, and each step
/// of a crawl depends on these and the page alone.
pub proof fn lemma_runs_agree(
    seed: Seq<char>,
    depth: Option<u32>,
    strict: bool,
    site: Map<Seq<char>, Seq<char>>,
    selectors: Seq<Seq<char>>,
    pattern: Seq<char>,
    steps: nat,
    a: Crawl,
    b: Crawl,
)
    requires
        joined_url(seed, Seq::empty()) matches Some(u) && {
            &&& a@ == start(u.0, budget_of(depth))
            &&& a.scope_spec()@ == seed_scope(u, strict)
            &&& b@ == start(u.0, budget_of(depth))
            &&& b.scope_spec()@ == seed_scope(u, strict)
        },
    ensures
        run(a@, a.scope_spec()@, site, selectors, pattern, steps) == run(
            b@,
            b.scope_spec()@,
            site,
            selectors,
            pattern,
            steps,
        ),
{
}

/// The frontier, the visited list and the depth budget of a crawl.
struct Walk {
    frontier: VecDeque<String>,
    visited: Vec<String>,
    seen: Vec<String>,
    budget: i64,
    layer_left: usize,
}

impl View for Walk {
    type V = CrawlState;

    closed spec fn view(&self) -> CrawlState {
        CrawlState {
            frontier: texts(self.frontier@),
            visited: texts(self.visited@),
            seen: texts(self.seen@),
            budget: self.budget as int,
            layer_left: self.layer_left as int,
        }
    }
}

impl Walk {
    closed spec fn wf(&self) -> bool {
        &&& valid(self@)
        &&& -1 <= self.budget <= u32::MAX
    }

    /// A walk with nothing left to visit.
    fn finished() -> (r: Walk)
        ensures
            r.wf(),
    {
        let r = Walk {
            frontier: VecDeque::new(),
            visited: Vec::new(),
            seen: Vec::new(),
            budget: 0,
            layer_left: 0,
        };
        assert(r@.visited =~= Seq::<Seq<char>>::empty());
        assert(r@.seen =~= Seq::<Seq<char>>::empty());
        r
    }

    fn next_url(&mut self) -> (r: Option<String>)
        requires
            old(self).wf(),
        ensures
            final(self).wf(),
            final(self)@ == dequeue(old(self)@).0,
            match r {
                Some(u) => dequeue(old(self)@).1 == Some(u@),
                None => dequeue(old(self)@).1 is None,
            },
    {
        let ghost goal = dequeue(self@);
        while self.frontier.len() > 0
            invariant
                self.wf(),
                dequeue(self@) == goal,
                goal == dequeue(old(self)@),
            decreases self.frontier.len(),
        {
            let ghost v = self@;
            if self.layer_left == 0 {
                if self.budget > 0 {
                    self.budget = self.budget - 1;
                }
                self.layer_left = self.frontier.len();
            }
            let u = match self.frontier.pop_front() {
                Some(u) => u,
                None => {
                    return None;
                },
            };
            self.layer_left = self.layer_left - 1;
            assert(self@.frontier =~= v.frontier.drop_first());
            assert(self@ == pop(v));
            assert(v.frontier[0] == u@);
            if !holds(&self.visited, &u) {
                let ghost w = self@;
                self.visited.push(u.clone());
                assert(self@.visited =~= w.visited.push(u@));
                assert(!v.visited.contains(u@));
                assert(self@ == CrawlState { visited: pop(v).visited.push(u@), ..pop(v) });
                assert(dequeue(v) == (self@, Some(u@)));
                return Some(u);
            }
        }
        None
    }

    fn record_links(&mut self, links: &Vec<String>) -> (r: Vec<String>)
        requires
            old(self).wf(),
        ensures
            final(self).wf(),
            (final(self)@, texts(r@)) == record(old(self)@, texts(links@)),
    {
        let ghost v0 = self@;
        let mut fresh: Vec<String> = Vec::new();
        if self.budget == 0 {
            assert(texts(fresh@) =~= Seq::<Seq<char>>::empty());
            return fresh;
        }
        let mut i: usize = 0;
        assert(texts(fresh@) =~= Seq::<Seq<char>>::empty());
        while i < links.len()
            invariant
                i <= links@.len(),
                self.wf(),
                v0.budget != 0,
                (self@, texts(fresh@)) == take_in(v0, texts(links@).subrange(0, i as int)),
            decreases links.len() - i,
        {
            let ghost v = self@;
            let ghost f = texts(fresh@);
            assert(texts(links@).subrange(0, i + 1).drop_last() =~= texts(links@).subrange(0, i as int));
            assert(texts(links@).subrange(0, i + 1).last() == links@[i as int]@);
            let x = &links[i];
            if !holds(&self.visited, x) {
                self.frontier.push_back(x.clone());
            }
            if !holds(&self.seen, x) {
                let ghost before = self@.seen;
                self.seen.push(x.clone());
                fresh.push(x.clone());
                assert(self@.seen =~= before.push(x@));
                assert forall|a: int, b: int|
                    0 <= a < b < before.push(x@).len() implies before.push(x@)[a] != before.push(
                        x@,
                    )[b] by {
                    if b == before.len() {
                        assert(before.contains(before[a]));
                    }
                }
            }
            assert(self@.frontier =~= (if !v.visited.contains(x@) {
                v.frontier.push(x@)
            } else {
                v.frontier
            }));
            assert(self@.seen =~= (if v.seen.contains(x@) {
                v.seen
            } else {
                v.seen.push(x@)
            }));
            assert(texts(fresh@) =~= (if v.seen.contains(x@) {
                f
            } else {
                f.push(x@)
            }));
            i = i + 1;
        }
        assert(texts(links@).subrange(0, links@.len() as int) =~= texts(links@));
        fresh
    }
}

/// One crawl run: its scope and the state of its walk.
pub struct Crawl {
    scope: Scope,
    walk: Walk,
}

impl View for Crawl {
    type V = CrawlState;

    closed spec fn view(&self) -> CrawlState {
        self.walk@
    }
}

impl Crawl {
    #[verifier::type_invariant]
    closed spec fn inv(self) -> bool {
        self.walk.wf()
    }

    /// The scope that links must lie in to be followed.
    pub closed spec fn scope_spec(&self) -> Scope {
        self.scope
    }

    /// Starts a crawl from `seed`, following `depth` layers of links
    /// (without bound when `depth` is `None`), with links kept to the seed's
    /// domain, and to its path too when `strict`. `None` when the seed is not
    /// an absolute URL.
    pub fn new(seed: &str, depth: Option<u32>, strict: bool) -> (r: Option<Crawl>)
        ensures
            match joined_url(seed@, Seq::empty()) {
                Some(u) => r matches Some(c) && {
                    &&& valid(c@)
                    &&& c@ == start(u.0, budget_of(depth))
                    &&& c.scope_spec()@ == seed_scope(u, strict)
                },
                None => r is None,
            },
    {
        match Scope::new(seed, strict) {
            Some(scope) => {
                let mut frontier: VecDeque<String> = VecDeque::new();
                frontier.push_back(scope.seed.clone());
                let mut seen: Vec<String> = Vec::new();
                seen.push(scope.seed.clone());
                let walk = Walk {
                    frontier,
                    visited: Vec::new(),
                    seen,
                    budget: match depth {
                        Some(d) => d as i64,
                        None => -1,
                    },
                    layer_left: 1,
                };
                assert(walk@.frontier =~= seq![scope.seed@]);
                assert(walk@.seen =~= seq![scope.seed@]);
                assert(walk@.visited =~= Seq::<Seq<char>>::empty());
                Some(Crawl { scope, walk })
            },
            None => None,
        }
    }

    /// The scope that links must lie in to be followed.
    pub fn scope(&self) -> (r: &Scope)
        ensures
            *r == self.scope_spec(),
    {
        &self.scope
    }

    /// Hands out the next URL to fetch and marks it visited; `None` once the
    /// crawl is over.
    pub fn next_url(&mut self) -> (r: Option<String>)
        ensures
            valid(final(self)@),
            final(self).scope_spec() == old(self).scope_spec(),
            final(self)@ == dequeue(old(self)@).0,
            match r {
                Some(u) => dequeue(old(self)@).1 == Some(u@),
                None => dequeue(old(self)@).1 is None,
            },
    {
        proof {
            use_type_invariant(&*self);
        }
        let mut walk = Walk::finished();
        std::mem::swap(&mut walk, &mut self.walk);
        let r = walk.next_url();
        self.walk = walk;
        proof {
            use_type_invariant(&*self);
        }
        r
    }

    /// Takes in the links found on a fetched page, in order, and returns
    /// those not reported before. The links are enqueued while budget
    /// remains, except those already visited.
    pub fn record_links(&mut self, links: &Vec<String>) -> (r: Vec<String>)
        ensures
            valid(final(self)@),
            final(self).scope_spec() == old(self).scope_spec(),
            (final(self)@, texts(r@)) == record(old(self)@, texts(links@)),
    {
        proof {
            use_type_invariant(&*self);
        }
        let mut walk = Walk::finished();
        std::mem::swap(&mut walk, &mut self.walk);
        let r = walk.record_links(links);
        self.walk = walk;
        proof {
            use_type_invariant(&*self);
        }
        r
    }

    /// Takes in the links of the fetched page at `url`, found by the
    /// `href` of the elements that `selectors` match and kept to this
    /// crawl's scope, and returns those not reported before.
    pub fn visit_page(&mut self, url: &str, document: &Document, selectors: &[&str]) -> (r: Vec<String>)
        ensures
            valid(final(self)@),
            final(self).scope_spec() == old(self).scope_spec(),
            (final(self)@, texts(r@)) == record(
                old(self)@,
                page_links(url@, document.source(), strs(selectors@), old(self).scope_spec()@),
            ),
    {
        let links = find_links(url, document, selectors, &self.scope);
        self.record_links(&links)
    }
}

} // verus!

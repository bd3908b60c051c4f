//! The route registry and the rank resolver.
//!
//! Routes are collected by a builder and then frozen: a registry offers no way to change
//! it, so it can be shared by reference among the tasks that serve requests.

use vstd::prelude::*;
use crate::matcher::{Capture, CaptureView};
use crate::route::{admits, rank_of, route_captures, Method, RouteDefinition, RouteView};
use crate::text::views;

verus! {

/// Collects the routes of a registry, in the order of their registration.
#[derive(Debug)]
pub struct RegistryBuilder {
    routes: Vec<RouteDefinition>,
}

/// The routes of a site, in the order of their registration, each with its method and its
/// mount. A registry cannot be changed.
#[derive(Debug)]
pub struct Registry {
    routes: Vec<RouteDefinition>,
}

impl View for RegistryBuilder {
    type V = Seq<RouteView>;

    closed spec fn view(&self) -> Seq<RouteView> {
        views(self.routes@)
    }
}

impl View for Registry {
    type V = Seq<RouteView>;

    closed spec fn view(&self) -> Seq<RouteView> {
        views(self.routes@)
    }
}

impl RegistryBuilder {
    pub fn new() -> (builder: RegistryBuilder)
        ensures
            builder@ == Seq::<RouteView>::empty(),
    {
        let builder = RegistryBuilder { routes: Vec::new() };
        assert(views(builder.routes@) == Seq::<RouteView>::empty());
        builder
    }

    /// Appends `route` to the routes registered so far.
    pub fn register(&mut self, route: RouteDefinition)
        ensures
            final(self)@ == old(self)@.push(route@),
    {
        let ghost before = views(self.routes@);
        self.routes.push(route);
        assert(views(self.routes@) == before.push(route@));
    }

    /// The registry of the routes registered.
    pub fn freeze(self) -> (registry: Registry)
        ensures
            registry@ == self@,
    {
        Registry { routes: self.routes }
    }
}

/// A route that matches a request structurally, with its rank and with what it captured.
#[derive(Debug)]
pub struct MatchCandidate<'a> {
    /// The place of the route in the order of registration.
    pub route: usize,
    pub rank: i128,
    pub captures: Vec<Capture<'a>>,
}

/// The model of a `MatchCandidate`.
pub struct CandidateView {
    pub route: usize,
    pub rank: i128,
    pub captures: Seq<CaptureView>,
}

impl<'a> View for MatchCandidate<'a> {
    type V = CandidateView;

    open spec fn view(&self) -> CandidateView {
        CandidateView { route: self.route, rank: self.rank, captures: views(self.captures@) }
    }
}

/// Whether the `i`-th route is tried before the `j`-th: it is if its rank is lower, and
/// among routes of one rank the one registered first goes first.
pub open spec fn precedes(routes: Seq<RouteView>, i: int, j: int) -> bool {
    rank_of(routes[i]) < rank_of(routes[j]) || (rank_of(routes[i]) == rank_of(routes[j]) && i < j)
}

/// The order of trial, read off two candidates.
pub open spec fn goes_before(x: CandidateView, y: CandidateView) -> bool {
    x.rank < y.rank || (x.rank == y.rank && x.route < y.route)
}

/// Whether every candidate of the list goes before all that follow it.
pub open spec fn ascending(list: Seq<CandidateView>) -> bool {
    forall|a: int, b: int| 0 <= a < b < list.len() ==> goes_before(#[trigger] list[a], #[trigger] list[b])
}

/// Whether the candidate names a registered route and carries that route's rank and what
/// that route captures from the request.
pub open spec fn genuine(
    routes: Seq<RouteView>,
    method: Method,
    tokens: Seq<Seq<char>>,
    candidate: CandidateView,
) -> bool {
    &&& candidate.route < routes.len()
    &&& candidate.rank == rank_of(routes[candidate.route as int])
    &&& route_captures(routes[candidate.route as int], method, tokens) == Some(candidate.captures)
}

/// Whether `list` is the ranking of the request: every route that admits the request, and
/// no other, each once, in the order of trial.
pub open spec fn is_ranking(
    routes: Seq<RouteView>,
    method: Method,
    tokens: Seq<Seq<char>>,
    list: Seq<CandidateView>,
) -> bool {
    &&& forall|k: int| 0 <= k < list.len() ==> genuine(routes, method, tokens, #[trigger] list[k])
    &&& ascending(list)
    &&& forall|j: int|
        0 <= j < routes.len() && admits(#[trigger] routes[j], method, tokens) ==> exists|k: int|
            0 <= k < list.len() && (#[trigger] list[k]).route == j
}

/// In a ranking, a candidate stands before another exactly if its route is tried first.
pub proof fn lemma_ranking_follows_precedence(
    routes: Seq<RouteView>,
    method: Method,
    tokens: Seq<Seq<char>>,
    list: Seq<CandidateView>,
    a: int,
    b: int,
)
    requires
        is_ranking(routes, method, tokens, list),
        0 <= a < list.len(),
        0 <= b < list.len(),
    ensures
        a < b <==> precedes(routes, list[a].route as int, list[b].route as int),
{
    assert(genuine(routes, method, tokens, list[a]));
    assert(genuine(routes, method, tokens, list[b]));
    if a < b {
        assert(goes_before(list[a], list[b]));
    } else if b < a {
        assert(goes_before(list[b], list[a]));
    }
}

/// Two rankings of one request agree in their first `k` places.
proof fn lemma_rankings_agree_upto(
    routes: Seq<RouteView>,
    method: Method,
    tokens: Seq<Seq<char>>,
    a: Seq<CandidateView>,
    b: Seq<CandidateView>,
    k: int,
)
    requires
        is_ranking(routes, method, tokens, a),
        is_ranking(routes, method, tokens, b),
        0 <= k <= a.len(),
        k <= b.len(),
    ensures
        forall|i: int| 0 <= i < k ==> a[i] == b[i],
    decreases k,
{
    if k > 0 {
        lemma_rankings_agree_upto(routes, method, tokens, a, b, k - 1);
        let x = a[k - 1];
        let y = b[k - 1];
        assert(genuine(routes, method, tokens, x));
        assert(genuine(routes, method, tokens, y));
        assert(admits(routes[x.route as int], method, tokens));
        assert(admits(routes[y.route as int], method, tokens));
        let in_b = choose|m: int| 0 <= m < b.len() && (#[trigger] b[m]).route == x.route;
        let in_a = choose|m: int| 0 <= m < a.len() && (#[trigger] a[m]).route == y.route;
        if in_b < k - 1 {
            assert(a[in_b] == b[in_b]);
            assert(goes_before(a[in_b], a[k - 1]));
        }
        if in_a < k - 1 {
            assert(a[in_a] == b[in_a]);
            assert(goes_before(b[in_a], b[k - 1]));
        }
        if in_b > k - 1 && in_a > k - 1 {
            assert(goes_before(b[k - 1], b[in_b]));
            assert(goes_before(a[k - 1], a[in_a]));
            assert(genuine(routes, method, tokens, b[in_b]));
            assert(genuine(routes, method, tokens, a[in_a]));
        }
        if in_b == k - 1 {
            assert(genuine(routes, method, tokens, b[in_b]));
        } else {
            assert(in_a == k - 1);
            assert(genuine(routes, method, tokens, a[in_a]));
        }
    }
}

/// A request has one ranking: two lists that both rank its candidates are the same list.
pub proof fn lemma_ranking_is_unique(
    routes: Seq<RouteView>,
    method: Method,
    tokens: Seq<Seq<char>>,
    a: Seq<CandidateView>,
    b: Seq<CandidateView>,
)
    requires
        is_ranking(routes, method, tokens, a),
        is_ranking(routes, method, tokens, b),
    ensures
        a == b,
{
    let n = if a.len() <= b.len() { a.len() as int } else { b.len() as int };
    lemma_rankings_agree_upto(routes, method, tokens, a, b, n);
    if a.len() < b.len() {
        let extra = b[n];
        assert(genuine(routes, method, tokens, extra));
        assert(admits(routes[extra.route as int], method, tokens));
        let m = choose|m: int| 0 <= m < a.len() && (#[trigger] a[m]).route == extra.route;
        assert(a[m] == b[m]);
        assert(goes_before(b[m], b[n]));
    }
    if b.len() < a.len() {
        let extra = a[n];
        assert(genuine(routes, method, tokens, extra));
        assert(admits(routes[extra.route as int], method, tokens));
        let m = choose|m: int| 0 <= m < b.len() && (#[trigger] b[m]).route == extra.route;
        assert(a[m] == b[m]);
        assert(goes_before(a[m], a[n]));
    }
    assert(a =~= b);
}

/// Puts `candidate` in its place in a list that is in the order of trial and holds only
/// routes registered before it.
fn place<'a>(list: &mut Vec<MatchCandidate<'a>>, candidate: MatchCandidate<'a>)
    requires
        ascending(views(old(list)@)),
        forall|k: int|
            0 <= k < old(list).len() ==> (#[trigger] views(old(list)@)[k]).route < candidate.route,
    ensures
        ascending(views(final(list)@)),
        exists|at: int|
            0 <= at <= old(list).len() && views(final(list)@) == views(old(list)@).insert(
                at,
                candidate@,
            ),
{
    let ghost start = views(list@);
    let ghost added = candidate@;
    let mut at: usize = list.len();
    while at > 0 && list[at - 1].rank > candidate.rank
        invariant
            at <= list.len(),
            views(list@) == start,
            added == candidate@,
            forall|k: int| at <= k < list.len() ==> (#[trigger] start[k]).rank > added.rank,
        decreases at,
    {
        at -= 1;
    }
    list.insert(at, candidate);
    proof {
        let end = views(list@);
        start.insert_ensures(at as int, added);
        list@.insert_ensures(at as int, candidate);
        assert(end =~= start.insert(at as int, added)) by {
            assert(end.len() == start.len() + 1);
            assert forall|k: int| 0 <= k < end.len() implies end[k] == start.insert(at as int, added)[k] by {
                if k < at {
                } else if k == at {
                } else {
                    assert(end[k] == start[k - 1]);
                    assert(start.insert(at as int, added)[(k - 1) + 1] == start[k - 1]);
                }
            }
        }
        assert forall|a: int, b: int| 0 <= a < b < end.len() implies goes_before(
            #[trigger] end[a],
            #[trigger] end[b],
        ) by {
            if b < at {
                assert(end[a] == start[a] && end[b] == start[b]);
            } else if b == at {
                assert(end[a] == start[a]);
                if at > 0 {
                    assert(start[at - 1].rank <= added.rank);
                    if a < at - 1 {
                        assert(goes_before(start[a], start[at - 1]));
                    }
                }
            } else if a < at {
                assert(end[a] == start[a]);
                assert(end[b] == start[b - 1]) by {
                    assert(start.insert(at as int, added)[(b - 1) + 1] == start[b - 1]);
                }
                if a < b - 1 {
                    assert(goes_before(start[a], start[b - 1]));
                }
            } else if a == at {
                assert(end[b] == start[b - 1]) by {
                    assert(start.insert(at as int, added)[(b - 1) + 1] == start[b - 1]);
                }
            } else {
                assert(end[a] == start[a - 1]) by {
                    assert(start.insert(at as int, added)[(a - 1) + 1] == start[a - 1]);
                }
                assert(end[b] == start[b - 1]) by {
                    assert(start.insert(at as int, added)[(b - 1) + 1] == start[b - 1]);
                }
                assert(goes_before(start[a - 1], start[b - 1]));
            }
        }
    }
}

impl Registry {
    /// The number of routes.
    pub fn len(&self) -> (n: usize)
        ensures
            n == self@.len(),
    {
        self.routes.len()
    }

    /// The routes, in the order of their registration.
    pub fn routes(&self) -> (routes: &Vec<RouteDefinition>)
        ensures
            views(routes@) == self@,
    {
        &self.routes
    }

    /// The rank resolver: every route, whatever its mount, that matches the request
    /// structurally, in ascending order of rank, and in the order of registration among
    /// routes of one rank.
    pub fn candidates<'a>(&'a self, method: Method, tokens: &Vec<String>) -> (list: Vec<
        MatchCandidate<'a>,
    >)
        ensures
            is_ranking(self@, method, views(tokens@), views(list@)),
    {
        let ghost routes = views(self.routes@);
        let ghost toks = views(tokens@);
        let mut list: Vec<MatchCandidate<'a>> = Vec::new();
        let mut j: usize = 0;
        while j < self.routes.len()
            invariant
                j <= self.routes.len(),
                routes == views(self.routes@),
                routes == self@,
                toks == views(tokens@),
                ascending(views(list@)),
                forall|k: int|
                    0 <= k < list.len() ==> genuine(routes, method, toks, #[trigger] views(list@)[k])
                        && views(list@)[k].route < j,
                forall|r: int|
                    0 <= r < j && admits(#[trigger] routes[r], method, toks) ==> exists|k: int|
                        0 <= k < list.len() && (#[trigger] views(list@)[k]).route == r,
            decreases self.routes.len() - j,
        {
            let ghost start = views(list@);
            assert(routes[j as int] == self.routes@[j as int]@);
            match self.routes[j].matches(method, tokens) {
                Some(captures) => {
                    let rank = self.routes[j].rank();
                    let candidate = MatchCandidate { route: j, rank, captures };
                    let ghost added = candidate@;
                    place(&mut list, candidate);
                    proof {
                        let end = views(list@);
                        let at = choose|at: int|
                            0 <= at <= start.len() && end == start.insert(at, added);
                        start.insert_ensures(at, added);
                        assert(genuine(routes, method, toks, added));
                        assert forall|k: int| 0 <= k < end.len() implies genuine(
                            routes,
                            method,
                            toks,
                            #[trigger] end[k],
                        ) && end[k].route < j + 1 by {
                            if k < at {
                                assert(end[k] == start[k]);
                            } else if k > at {
                                assert(end[(k - 1) + 1] == start[k - 1]);
                            }
                        }
                        assert forall|r: int|
                            0 <= r < j + 1 && admits(#[trigger] routes[r], method, toks) implies exists|
                            k: int,
                        | 0 <= k < end.len() && (#[trigger] end[k]).route == r by {
                            if r == j {
                                assert(end[at].route == r);
                            } else {
                                let k = choose|k: int|
                                    0 <= k < start.len() && (#[trigger] start[k]).route == r;
                                if k < at {
                                    assert(end[k] == start[k]);
                                } else {
                                    assert(end[k + 1] == start[k]);
                                }
                            }
                        }
                    }
                },
                None => {},
            }
            j += 1;
        }
        list
    }
}

} // verus!

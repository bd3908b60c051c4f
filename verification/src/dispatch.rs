//! The dispatcher: the candidates of a request are tried in the order of their ranking, and
//! the first whose parameters all decode answers the request.
//!
//! A request passes from matching, where its candidates are found and ranked, to binding,
//! where they are tried one by one, and ends either dispatched to a route or not found.

use vstd::prelude::*;
use crate::matcher::{decoded_tokens, request_tokens};
use crate::decode::{plain_field, plain_token};
use crate::pattern::path_tokens;
use crate::query::{parse_query, plain_pairs, query_pairs, QueryPair, QueryPairView};
use crate::registry::{genuine, is_ranking, precedes, Registry};
use crate::route::{admits, binding, rank_of, Handler, Method, RouteView};
use crate::text::views;
use crate::value::{Value, ValueView};

verus! {

/// How a request is resolved.
#[derive(Debug, PartialEq, Eq)]
pub enum Resolution {
    /// The route at this place of the registry answers, and its handler gets these
    /// arguments.
    Dispatched { route: usize, handler: Handler, args: Vec<Value> },
    /// No candidate bound.
    NotFound,
}

/// The model of a `Resolution`.
pub enum ResolutionView {
    Dispatched { route: int, handler: Handler, args: Seq<ValueView> },
    NotFound,
}

impl View for Resolution {
    type V = ResolutionView;

    open spec fn view(&self) -> ResolutionView {
        match self {
            Resolution::Dispatched { route, handler, args } => ResolutionView::Dispatched {
                route: *route as int,
                handler: *handler,
                args: views(args@),
            },
            Resolution::NotFound => ResolutionView::NotFound,
        }
    }
}

/// Whether the route would answer the request if it were tried: it is a candidate, and its
/// parameters all decode.
pub open spec fn accepts(
    route: RouteView,
    method: Method,
    tokens: Seq<Seq<char>>,
    pairs: Seq<QueryPairView>,
) -> bool {
    binding(route, method, tokens, pairs) is Some
}

/// Among the first `n` routes, the one that answers the request: of those that accept it,
/// the one of the lowest rank, and of several with that rank the one registered first.
pub open spec fn winner(
    routes: Seq<RouteView>,
    method: Method,
    tokens: Seq<Seq<char>>,
    pairs: Seq<QueryPairView>,
    n: int,
) -> Option<int>
    decreases n,
{
    if n <= 0 {
        None
    } else {
        let earlier = winner(routes, method, tokens, pairs, n - 1);
        if accepts(routes[n - 1], method, tokens, pairs) && (earlier is None || rank_of(routes[n - 1])
            < rank_of(routes[earlier->0])) {
            Some(n - 1)
        } else {
            earlier
        }
    }
}

/// How the registry resolves a request for the tokens of a path, with the pairs of a query
/// string, by `method`.
pub open spec fn resolution(
    routes: Seq<RouteView>,
    method: Method,
    tokens: Seq<Seq<char>>,
    pairs: Seq<QueryPairView>,
) -> ResolutionView {
    match winner(routes, method, tokens, pairs, routes.len() as int) {
        Some(i) => ResolutionView::Dispatched {
            route: i,
            handler: routes[i].handler,
            args: binding(routes[i], method, tokens, pairs)->0,
        },
        None => ResolutionView::NotFound,
    }
}

/// The handler that answers and the arguments it gets, whatever the place of its route.
pub open spec fn answer(r: ResolutionView) -> Option<(Handler, Seq<ValueView>)> {
    match r {
        ResolutionView::Dispatched { handler, args, .. } => Some((handler, args)),
        ResolutionView::NotFound => None,
    }
}

/// The route that answers accepts the request and is tried before every other route that
/// accepts it; no route answers only if none accepts.
pub proof fn lemma_winner_is_first(
    routes: Seq<RouteView>,
    method: Method,
    tokens: Seq<Seq<char>>,
    pairs: Seq<QueryPairView>,
    n: int,
)
    requires
        0 <= n <= routes.len(),
    ensures
        match winner(routes, method, tokens, pairs, n) {
            Some(i) => 0 <= i < n && accepts(routes[i], method, tokens, pairs) && forall|j: int|
                0 <= j < n && j != i && accepts(#[trigger] routes[j], method, tokens, pairs)
                    ==> precedes(routes, i, j),
            None => forall|j: int| 0 <= j < n ==> !accepts(#[trigger] routes[j], method, tokens, pairs),
        },
    decreases n,
{
    if n > 0 {
        lemma_winner_is_first(routes, method, tokens, pairs, n - 1);
    }
}

/// A route that accepts the request and is tried before every other route that accepts it
/// is the one that answers.
pub proof fn lemma_first_is_winner(
    routes: Seq<RouteView>,
    method: Method,
    tokens: Seq<Seq<char>>,
    pairs: Seq<QueryPairView>,
    i: int,
)
    requires
        0 <= i < routes.len(),
        accepts(routes[i], method, tokens, pairs),
        forall|j: int|
            0 <= j < routes.len() && j != i && accepts(#[trigger] routes[j], method, tokens, pairs)
                ==> precedes(routes, i, j),
    ensures
        winner(routes, method, tokens, pairs, routes.len() as int) == Some(i),
{
    lemma_winner_is_first(routes, method, tokens, pairs, routes.len() as int);
    let w = winner(routes, method, tokens, pairs, routes.len() as int);
    assert(w is Some);
    if w->0 != i {
        assert(precedes(routes, i, w->0));
        assert(precedes(routes, w->0, i));
    }
}

/// A request is answered by the route of the lowest rank whose binder succeeds: if every
/// route that is tried before `next` turns the request down and `next` binds, `next`
/// answers.
pub proof fn lemma_falls_through_to_next(
    routes: Seq<RouteView>,
    method: Method,
    tokens: Seq<Seq<char>>,
    pairs: Seq<QueryPairView>,
    next: int,
)
    requires
        0 <= next < routes.len(),
        accepts(routes[next], method, tokens, pairs),
        forall|j: int|
            0 <= j < routes.len() && precedes(routes, j, next) ==> !accepts(
                #[trigger] routes[j],
                method,
                tokens,
                pairs,
            ),
    ensures
        resolution(routes, method, tokens, pairs) == (ResolutionView::Dispatched {
            route: next,
            handler: routes[next].handler,
            args: binding(routes[next], method, tokens, pairs)->0,
        }),
{
    assert forall|j: int|
        0 <= j < routes.len() && j != next && accepts(
            #[trigger] routes[j],
            method,
            tokens,
            pairs,
        ) implies precedes(routes, next, j) by {
        assert(!precedes(routes, j, next));
    }
    lemma_first_is_winner(routes, method, tokens, pairs, next);
}

/// Whether every route of `a` is a route of `b`.
pub open spec fn within(a: Seq<RouteView>, b: Seq<RouteView>) -> bool {
    forall|i: int| 0 <= i < a.len() ==> b.contains(#[trigger] a[i])
}

/// Whether the rank alone decides the order among the routes that admit the request: any
/// two of them that share a rank are the same route.
pub open spec fn rank_decides(routes: Seq<RouteView>, method: Method, tokens: Seq<Seq<char>>) -> bool {
    forall|i: int, j: int|
        0 <= i < routes.len() && 0 <= j < routes.len() && admits(#[trigger] routes[i], method, tokens)
            && admits(#[trigger] routes[j], method, tokens) && rank_of(routes[i]) == rank_of(routes[j])
            ==> routes[i] == routes[j]
}

/// Two registries of the same routes, whatever the order of registration, give a request
/// the same answer, provided that the rank alone decides the order among the routes that
/// admit the request.
pub proof fn lemma_order_of_registration_is_immaterial(
    a: Seq<RouteView>,
    b: Seq<RouteView>,
    method: Method,
    tokens: Seq<Seq<char>>,
    pairs: Seq<QueryPairView>,
)
    requires
        within(a, b),
        within(b, a),
        rank_decides(a, method, tokens),
    ensures
        answer(resolution(a, method, tokens, pairs)) == answer(resolution(b, method, tokens, pairs)),
{
    lemma_winner_is_first(a, method, tokens, pairs, a.len() as int);
    lemma_winner_is_first(b, method, tokens, pairs, b.len() as int);
    let wa = winner(a, method, tokens, pairs, a.len() as int);
    let wb = winner(b, method, tokens, pairs, b.len() as int);
    if wa is Some {
        let i = wa->0;
        assert(b.contains(a[i]));
        let i_in_b = choose|k: int| 0 <= k < b.len() && b[k] == a[i];
        assert(accepts(b[i_in_b], method, tokens, pairs));
        assert(wb is Some);
        let j = wb->0;
        assert(a.contains(b[j]));
        let j_in_a = choose|k: int| 0 <= k < a.len() && a[k] == b[j];
        assert(accepts(a[j_in_a], method, tokens, pairs));
        assert(rank_of(a[i]) <= rank_of(a[j_in_a])) by {
            if j_in_a != i {
                assert(precedes(a, i, j_in_a));
            }
        }
        assert(rank_of(b[j]) <= rank_of(b[i_in_b])) by {
            if i_in_b != j {
                assert(precedes(b, j, i_in_b));
            }
        }
        assert(admits(a[i], method, tokens));
        assert(admits(a[j_in_a], method, tokens));
        assert(a[i] == a[j_in_a]);
    } else {
        if wb is Some {
            let j = wb->0;
            assert(a.contains(b[j]));
            let j_in_a = choose|k: int| 0 <= k < a.len() && a[k] == b[j];
            assert(accepts(a[j_in_a], method, tokens, pairs));
        }
    }
}

/// Resolving the same request twice against the same registry gives the same resolution.
pub proof fn lemma_resolution_is_repeatable(
    routes: Seq<RouteView>,
    method: Method,
    tokens: Seq<Seq<char>>,
    pairs: Seq<QueryPairView>,
    first: ResolutionView,
    second: ResolutionView,
)
    requires
        first == resolution(routes, method, tokens, pairs),
        second == resolution(routes, method, tokens, pairs),
    ensures
        first == second,
{
}

impl Registry {
    /// Resolves a request for the tokens of a path, with the pairs of a query string: ranks
    /// the candidates, then tries them in order until one binds. Candidates after the
    /// first that binds are not tried.
    pub fn resolve_decoded(&self, method: Method, tokens: &Vec<String>, pairs: &Vec<QueryPair>) -> (r:
        Resolution)
        ensures
            r@ == resolution(self@, method, views(tokens@), views(pairs@)),
    {
        let list = self.candidates(method, tokens);
        let routes = self.routes();
        let ghost all = self@;
        let ghost toks = views(tokens@);
        let ghost given = views(pairs@);
        let ghost ranking = views(list@);
        let mut k: usize = 0;
        while k < list.len()
            invariant
                k <= list.len(),
                all == self@,
                all == views(routes@),
                toks == views(tokens@),
                given == views(pairs@),
                ranking == views(list@),
                is_ranking(all, method, toks, ranking),
                forall|m: int|
                    0 <= m < k ==> !accepts(all[(#[trigger] ranking[m]).route as int], method, toks, given),
            decreases list.len() - k,
        {
            let at = list[k].route;
            proof {
                assert(ranking[k as int] == list@[k as int]@);
                assert(genuine(all, method, toks, ranking[k as int]));
                assert(all[at as int] == routes@[at as int]@);
            }
            match routes[at].bind(&list[k].captures, pairs) {
                Ok(args) => {
                    proof {
                        assert(binding(all[at as int], method, toks, given) == Some(views(args@)));
                        assert forall|j: int|
                            0 <= j < all.len() && j != at && accepts(
                                #[trigger] all[j],
                                method,
                                toks,
                                given,
                            ) implies precedes(all, at as int, j) by {
                            assert(admits(all[j], method, toks));
                            let m = choose|m: int| 0 <= m < ranking.len() && (#[trigger] ranking[m]).route == j;
                            assert(genuine(all, method, toks, ranking[m]));
                            assert(m > k);
                            crate::registry::lemma_ranking_follows_precedence(
                                all,
                                method,
                                toks,
                                ranking,
                                k as int,
                                m,
                            );
                        }
                        lemma_first_is_winner(all, method, toks, given, at as int);
                    }
                    return Resolution::Dispatched { route: at, handler: routes[at].handler(), args };
                },
                Err(_) => {},
            }
            k += 1;
        }
        proof {
            lemma_winner_is_first(all, method, toks, given, all.len() as int);
            let w = winner(all, method, toks, given, all.len() as int);
            if w is Some {
                let j = w->0;
                assert(admits(all[j], method, toks));
                let m = choose|m: int| 0 <= m < ranking.len() && (#[trigger] ranking[m]).route == j;
                assert(!accepts(all[ranking[m].route as int], method, toks, given));
            }
        }
        Resolution::NotFound
    }

    /// Resolves a request: cuts and decodes its path and its query string, then resolves
    /// what they hold. A request without escapes is resolved as it is written.
    pub fn resolve(&self, method: Method, path: &str, query: &str) -> (r: Resolution)
        ensures
            r@ == resolution(self@, method, request_tokens(path@), query_pairs(query@)),
            plain_token(path@) && plain_field(query@) ==> r@ == resolution(
                self@,
                method,
                path_tokens(path@),
                plain_pairs(query@),
            ),
    {
        let tokens = decoded_tokens(path);
        let pairs = parse_query(query);
        self.resolve_decoded(method, &tokens, &pairs)
    }
}

} // verus!

//! Route definitions: what a route answers to, how it ranks, and what it binds.

use vstd::prelude::*;
use vstd::string::*;
use crate::binder::{bind_captures, bound_all, value_views};
use crate::error::BindMismatch;
use crate::matcher::{capture_views, captured, match_tokens_from, Capture, CaptureView};
use crate::error::PatternError;
use crate::form::{compile_fields, compiled_fields, FieldDecl, FieldDeclView};
use crate::pattern::{
    compiled, path_tokens, segments_of, specificity, tokens, ParamDecl, ParamDeclView, Pattern,
    SegmentView,
};
use crate::query::{bind_fields, fields_bound, QueryFieldSpec, QueryFieldView, QueryPair, QueryPairView};
use crate::text::{same, views};
use crate::value::{Value, ValueView};

verus! {

/// The method of a request.
#[derive(Clone, Copy, Debug, PartialEq, Eq, Structural)]
pub enum Method {
    Get,
    Put,
    Post,
    Delete,
    Options,
    Head,
    Trace,
    Connect,
    Patch,
}

/// The handlers of the site, by name.
#[derive(Clone, Copy, Debug, PartialEq, Eq, Structural)]
pub enum Handler {
    Index,
    World,
    Hello,
    Delay,
    BlockingTask,
    IgnorePart,
    IgnoreEverything,
    UserUsize,
    UserInt,
    UserStr,
    CookieMessage,
    Cookies,
    Greet,
}

/// A route: the requests it answers to, its place in the order of trial, and its handler.
#[derive(Debug)]
pub struct RouteDefinition {
    method: Method,
    mount: Vec<String>,
    pattern: Pattern,
    query: Option<Vec<QueryFieldSpec>>,
    rank: Option<i64>,
    handler: Handler,
}

/// The model of a `RouteDefinition`.
pub struct RouteView {
    pub method: Method,
    /// The tokens of the prefix under which the route is mounted.
    pub mount: Seq<Seq<char>>,
    pub pattern: Seq<SegmentView>,
    pub query: Option<Seq<QueryFieldView>>,
    /// The rank given for the route, if one is given.
    pub rank: Option<i64>,
    pub handler: Handler,
}

impl View for RouteDefinition {
    type V = RouteView;

    closed spec fn view(&self) -> RouteView {
        RouteView {
            method: self.method,
            mount: views(self.mount@),
            pattern: self.pattern@,
            query: match self.query {
                Some(fields) => Some(views(fields@)),
                None => None,
            },
            rank: self.rank,
            handler: self.handler,
        }
    }
}

/// The rank of a route: the one given for it, or else the one derived from its pattern.
/// The lower the rank, the earlier the route is tried.
pub open spec fn rank_of(route: RouteView) -> int {
    match route.rank {
        Some(rank) => rank as int,
        None => specificity(route.pattern) as int,
    }
}

/// Whether `tokens` begins with `mount`.
pub open spec fn mounted_under(mount: Seq<Seq<char>>, tokens: Seq<Seq<char>>) -> bool {
    mount.len() <= tokens.len() && tokens.take(mount.len() as int) == mount
}

/// What the route captures from a request for `tokens` by `method`: `None` unless the
/// method is the route's, the tokens begin with its mount, and the tokens after the mount
/// have the shape of its pattern.
pub open spec fn route_captures(route: RouteView, method: Method, tokens: Seq<Seq<char>>) -> Option<
    Seq<CaptureView>,
> {
    if route.method == method && mounted_under(route.mount, tokens) {
        captured(route.pattern, tokens.skip(route.mount.len() as int))
    } else {
        None
    }
}

/// Whether the route is a candidate for the request: whether it matches structurally.
pub open spec fn admits(route: RouteView, method: Method, tokens: Seq<Seq<char>>) -> bool {
    route_captures(route, method, tokens) is Some
}

/// The values that the route binds from its captures and from the pairs of a query string:
/// those of the path first, then those of the declared fields. `None` stands for a
/// mismatch.
pub open spec fn bound_with(route: RouteView, captures: Seq<CaptureView>, pairs: Seq<QueryPairView>) -> Option<
    Seq<ValueView>,
> {
    match bound_all(captures) {
        Some(from_path) => match route.query {
            Some(fields) => match fields_bound(fields, pairs) {
                Some(from_query) => Some(from_path + from_query),
                None => None,
            },
            None => Some(from_path),
        },
        None => None,
    }
}

/// The arguments that the route binds from a request, if it is a candidate for the request
/// and every parameter decodes.
pub open spec fn binding(
    route: RouteView,
    method: Method,
    tokens: Seq<Seq<char>>,
    pairs: Seq<QueryPairView>,
) -> Option<Seq<ValueView>> {
    match route_captures(route, method, tokens) {
        Some(captures) => bound_with(route, captures, pairs),
        None => None,
    }
}

/// The route that a declaration stands for once its template and its fields are compiled.
pub open spec fn route_view(
    method: Method,
    mount: Seq<char>,
    template: Seq<char>,
    params: Seq<ParamDeclView>,
    query: Option<Seq<QueryFieldView>>,
    rank: Option<i64>,
    handler: Handler,
) -> RouteView {
    RouteView {
        method,
        mount: path_tokens(mount),
        pattern: segments_of(template, params),
        query,
        rank,
        handler,
    }
}

/// What the declared fields of a route compile to: nothing where none are declared.
pub open spec fn compiled_query(query: Option<Seq<FieldDeclView>>) -> Result<
    Option<Seq<QueryFieldView>>,
    PatternError,
> {
    match query {
        Some(decls) => match compiled_fields(decls) {
            Ok(fields) => Ok(Some(fields)),
            Err(e) => Err(e),
        },
        None => Ok(None),
    }
}

/// What the declaration of a route compiles to: the route, or what is wrong with its
/// template, or else what is wrong with its fields.
pub open spec fn compiled_route(
    method: Method,
    mount: Seq<char>,
    template: Seq<char>,
    params: Seq<ParamDeclView>,
    query: Option<Seq<FieldDeclView>>,
    rank: Option<i64>,
    handler: Handler,
) -> Result<RouteView, PatternError> {
    match compiled(template, params) {
        Ok(_) => match compiled_query(query) {
            Ok(fields) => Ok(route_view(method, mount, template, params, fields, rank, handler)),
            Err(e) => Err(e),
        },
        Err(e) => Err(e),
    }
}

/// The declared fields, seen as model values.
pub open spec fn declared(query: Option<&Vec<FieldDecl>>) -> Option<Seq<FieldDeclView>> {
    match query {
        Some(decls) => Some(views(decls@)),
        None => None,
    }
}

/// The outcome of compiling a route, seen as a model value.
pub open spec fn route_outcome(r: Result<RouteDefinition, PatternError>) -> Result<
    RouteView,
    PatternError,
> {
    match r {
        Ok(route) => Ok(route@),
        Err(e) => Err(e),
    }
}

impl RouteDefinition {
    /// Compiles the declaration of a route: its template, with the types declared for the
    /// named segments, and the fields declared for its query string.
    pub fn compile(
        method: Method,
        mount: &str,
        template: &str,
        params: &Vec<ParamDecl>,
        query: Option<&Vec<FieldDecl>>,
        rank: Option<i64>,
        handler: Handler,
    ) -> (r: Result<RouteDefinition, PatternError>)
        ensures
            route_outcome(r) == compiled_route(
                method,
                mount@,
                template@,
                views(params@),
                declared(query),
                rank,
                handler,
            ),
    {
        let pattern = match Pattern::compile(template, params) {
            Ok(pattern) => pattern,
            Err(e) => {
                return Err(e);
            },
        };
        let fields = match query {
            Some(decls) => match compile_fields(decls) {
                Ok(fields) => Some(fields),
                Err(e) => {
                    return Err(e);
                },
            },
            None => None,
        };
        Ok(RouteDefinition::new(method, mount, pattern, fields, rank, handler))
    }

    /// A route for `method` under the prefix `mount`.
    pub fn new(
        method: Method,
        mount: &str,
        pattern: Pattern,
        query: Option<Vec<QueryFieldSpec>>,
        rank: Option<i64>,
        handler: Handler,
    ) -> (route: RouteDefinition)
        ensures
            route@ == (RouteView {
                method,
                mount: path_tokens(mount@),
                pattern: pattern@,
                query: match query {
                    Some(fields) => Some(views(fields@)),
                    None => None,
                },
                rank,
                handler,
            }),
    {
        RouteDefinition { method, mount: tokens(mount), pattern, query, rank, handler }
    }

    pub fn handler(&self) -> (handler: Handler)
        ensures
            handler == self@.handler,
    {
        self.handler
    }

    pub fn method(&self) -> (method: Method)
        ensures
            method == self@.method,
    {
        self.method
    }

    /// The compiled pattern of the route.
    pub fn pattern(&self) -> (pattern: &Pattern)
        ensures
            pattern@ == self@.pattern,
    {
        &self.pattern
    }

    /// The rank at which the route is tried. The result is wide enough for every rank that
    /// can be given and for the derived rank of every pattern.
    pub fn rank(&self) -> (rank: i128)
        ensures
            rank == rank_of(self@),
    {
        match self.rank {
            Some(rank) => rank as i128,
            None => {
                let derived = self.pattern.derived_rank();
                derived as i128
            },
        }
    }

    /// Matches a request for `tokens` by `method` against the route.
    pub fn matches<'a>(&'a self, method: Method, tokens: &Vec<String>) -> (r: Option<
        Vec<Capture<'a>>,
    >)
        ensures
            capture_views(r) == route_captures(self@, method, views(tokens@)),
    {
        if self.method != method {
            return None;
        }
        if self.mount.len() > tokens.len() {
            return None;
        }
        let ghost mount = views(self.mount@);
        let ghost toks = views(tokens@);
        let mut i: usize = 0;
        while i < self.mount.len()
            invariant
                i <= self.mount.len() <= tokens.len(),
                mount == views(self.mount@),
                toks == views(tokens@),
                self@.mount == mount,
                self@.method == method,
                toks.take(i as int) == mount.take(i as int),
            decreases self.mount.len() - i,
        {
            if !same(self.mount[i].as_str(), tokens[i].as_str()) {
                proof {
                    assert(mount[i as int] == self.mount@[i as int]@);
                    assert(toks[i as int] == tokens@[i as int]@);
                    assert(toks.take(mount.len() as int)[i as int] != mount[i as int]);
                }
                return None;
            }
            proof {
                assert(toks.take(i + 1) == toks.take(i as int).push(toks[i as int]));
                assert(mount.take(i + 1) == mount.take(i as int).push(mount[i as int]));
            }
            i += 1;
        }
        proof {
            assert(mount.take(mount.len() as int) == mount);
        }
        match_tokens_from(&self.pattern, tokens, self.mount.len())
    }

    /// Binds the captures of a match, and the declared fields to the pairs of the query
    /// string.
    pub fn bind(&self, captures: &Vec<Capture<'_>>, pairs: &Vec<QueryPair>) -> (r: Result<
        Vec<Value>,
        BindMismatch,
    >)
        ensures
            value_views(r) == bound_with(self@, views(captures@), views(pairs@)),
    {
        let mut values = bind_captures(captures)?;
        match &self.query {
            Some(fields) => {
                let mut more = bind_fields(fields, pairs)?;
                let ghost from_path = views(values@);
                let ghost from_query = views(more@);
                values.append(&mut more);
                assert(views(values@) =~= from_path + from_query);
                Ok(values)
            },
            None => Ok(values),
        }
    }
}

} // verus!

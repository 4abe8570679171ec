//! Route patterns, route tables and the script router's configuration.

use std::sync::Arc;
use vstd::prelude::*;
use vstd::string::*;

use crate::assoc::{StringMap, text_view};
use crate::handler::{ScriptMiddleware, share};
use crate::paths::{PartView, PathPart, components, part_views, path_components, strip_parts, strip_prefix_parts};
use crate::text::{chars_eq, chars_of, segments, segments_of, slice_chars, starts_with_chars, string_of, trim_leading_slashes, trim_leading_slashes_of, views};

verus! {

/// The HTTP methods a route can be restricted to.
#[derive(Clone, Copy, Debug, PartialEq, Eq, Structural)]
pub enum HttpMethod {
    GET,
    POST,
    PUT,
    DELETE,
    PATCH,
    HEAD,
    OPTIONS,
    QUERY,
}

/// The token of a method, as it appears on the request line.
pub open spec fn method_token(m: HttpMethod) -> Seq<char> {
    match m {
        HttpMethod::GET => "GET"@,
        HttpMethod::POST => "POST"@,
        HttpMethod::PUT => "PUT"@,
        HttpMethod::DELETE => "DELETE"@,
        HttpMethod::PATCH => "PATCH"@,
        HttpMethod::HEAD => "HEAD"@,
        HttpMethod::OPTIONS => "OPTIONS"@,
        HttpMethod::QUERY => "QUERY"@,
    }
}

impl HttpMethod {
    /// The method's token.
    pub fn as_str(&self) -> (s: &'static str)
        ensures
            s@ == method_token(*self),
    {
        match self {
            HttpMethod::GET => "GET",
            HttpMethod::POST => "POST",
            HttpMethod::PUT => "PUT",
            HttpMethod::DELETE => "DELETE",
            HttpMethod::PATCH => "PATCH",
            HttpMethod::HEAD => "HEAD",
            HttpMethod::OPTIONS => "OPTIONS",
            HttpMethod::QUERY => "QUERY",
        }
    }
}

/// The request target with any query string removed: everything before the
/// first `?`.
pub open spec fn path_only(target: Seq<char>) -> Seq<char>
    decreases target.len(),
{
    if target.len() == 0 || target[0] == '?' {
        Seq::empty()
    } else {
        seq![target[0]] + path_only(target.drop_first())
    }
}

/// The routing path of a request target: everything before the first `?`.
pub fn path_only_of(target: &str) -> (p: String)
    ensures
        p@ == path_only(target@),
{
    let t = chars_of(target);
    let mut i: usize = 0;
    assert(t@.subrange(0, 0) + t@.subrange(0, t@.len() as int) =~= t@);
    while i < t.len() && t[i] != '?'
        invariant
            i <= t@.len(),
            forall|j: int| 0 <= j < i ==> t@[j] != '?',
            path_only(t@) == t@.subrange(0, i as int) + path_only(t@.subrange(i as int, t@.len() as int)),
        decreases t@.len() - i,
    {
        proof {
            let rest = t@.subrange(i as int, t@.len() as int);
            assert(rest.drop_first() =~= t@.subrange(i + 1, t@.len() as int));
            assert(t@.subrange(0, i + 1) =~= t@.subrange(0, i as int) + seq![rest[0]]);
        }
        i = i + 1;
    }
    proof {
        assert(t@.subrange(0, 0) + t@.subrange(0, t@.len() as int) =~= t@) by {
            assert(t@.subrange(0, t@.len() as int) =~= t@);
        };
        let rest = t@.subrange(i as int, t@.len() as int);
        assert(path_only(rest) =~= Seq::<char>::empty());
        assert(path_only(t@) =~= t@.subrange(0, i as int));
    }
    string_of(&slice_chars(&t, 0, i))
}

/// Whether a pattern is a catch-all: it ends in `/*`.
pub open spec fn is_catch_all(pattern: Seq<char>) -> bool {
    pattern.len() >= 2 && pattern[pattern.len() - 2] == '/' && pattern[pattern.len() - 1] == '*'
}

/// Whether a pattern segment captures a parameter: it starts with `:`.
pub open spec fn is_param(segment: Seq<char>) -> bool {
    segment.len() > 0 && segment[0] == ':'
}

/// Whether the segments of a pattern and of a path line up: as many of each,
/// and every literal pattern segment equal to the path segment beside it.
pub open spec fn segments_agree(pattern: Seq<Seq<char>>, path: Seq<Seq<char>>) -> bool {
    &&& pattern.len() == path.len()
    &&& forall|i: int| 0 <= i < pattern.len() && !is_param(#[trigger] pattern[i]) ==> pattern[i] == path[i]
}

/// The parameters that the segments of a pattern capture from the segments
/// of a path: each `:name` segment maps `name` to the path segment beside it,
/// a later capture of a name replacing an earlier one.
pub open spec fn captures(pattern: Seq<Seq<char>>, path: Seq<Seq<char>>) -> Map<Seq<char>, Seq<char>>
    decreases pattern.len(),
{
    if pattern.len() == 0 || path.len() == 0 {
        Map::empty()
    } else {
        let earlier = captures(pattern.drop_last(), path.drop_last());
        if is_param(pattern.last()) {
            earlier.insert(pattern.last().drop_first(), path.last())
        } else {
            earlier
        }
    }
}

/// The key under which a catch-all stores the rest of the path.
pub open spec fn catch_all_key() -> Seq<char> {
    seq!['*']
}

/// What matching `path` against `pattern` captures, or `None` when it does
/// not match.
///
/// A catch-all `prefix/*` matches `prefix` itself and every path below it on a
/// segment boundary, and captures under `*` what follows the prefix, without
/// its leading slashes. Any other pattern matches a path with as many
/// non-empty segments whose literal segments are equal, and captures the
/// `:name` segments.
pub open spec fn pattern_match(pattern: Seq<char>, path: Seq<char>) -> Option<Map<Seq<char>, Seq<char>>> {
    if is_catch_all(pattern) {
        let prefix = pattern.subrange(0, pattern.len() - 2);
        if path == prefix || (prefix.len() < path.len() && path.subrange(0, prefix.len() + 1 as int)
            == prefix.push('/')) {
            Some(
                Map::empty().insert(
                    catch_all_key(),
                    trim_leading_slashes(path.subrange(prefix.len() as int, path.len() as int)),
                ),
            )
        } else {
            None
        }
    } else if segments_agree(segments(pattern), segments(path)) {
        Some(captures(segments(pattern), segments(path)))
    } else {
        None
    }
}

/// Matches a path against a pattern, returning the captured parameters.
pub fn match_path(pattern: &str, path: &str) -> (r: Option<StringMap<String>>)
    ensures
        match r {
            Some(m) => pattern_match(pattern@, path@) == Some(text_view(m@)),
            None => pattern_match(pattern@, path@) is None,
        },
{
    let pat = chars_of(pattern);
    let pth = chars_of(path);
    let n = pat.len();
    if n >= 2 && pat[n - 2] == '/' && pat[n - 1] == '*' {
        let prefix = slice_chars(&pat, 0, n - 2);
        let mut with_slash = slice_chars(&pat, 0, n - 2);
        with_slash.push('/');
        if chars_eq(&pth, &prefix) || starts_with_chars(&pth, &with_slash) {
            let rest = slice_chars(&pth, prefix.len(), pth.len());
            let remainder = trim_leading_slashes_of(&rest);
            let mut params: StringMap<String> = StringMap::new();
            let key = vec!['*'];
            params.insert(string_of(&key), string_of(&remainder));
            proof {
                assert(key@ =~= catch_all_key());
                assert(text_view(params@) =~= Map::empty().insert(catch_all_key(), remainder@));
            }
            return Some(params);
        }
        return None;
    }
    let pp = segments_of(&pat);
    let ps = segments_of(&pth);
    if pp.len() != ps.len() {
        return None;
    }
    let mut params: StringMap<String> = StringMap::new();
    let mut i: usize = 0;
    proof {
        assert(text_view(params@) =~= Map::empty());
        assert(views(pp@).subrange(0, 0) =~= Seq::<Seq<char>>::empty());
    }
    while i < pp.len()
        invariant
            pp.len() == ps.len(),
            i <= pp.len(),
            views(pp@) == segments(pat@),
            views(ps@) == segments(pth@),
            pat@ == pattern@,
            pth@ == path@,
            !is_catch_all(pattern@),
            text_view(params@) == captures(
                views(pp@).subrange(0, i as int),
                views(ps@).subrange(0, i as int),
            ),
            forall|j: int| 0 <= j < i && !is_param(pp@[j]@) ==> pp@[j]@ == ps@[j]@,
        decreases pp.len() - i,
    {
        let seg = &pp[i];
        let other = &ps[i];
        proof {
            let a = views(pp@).subrange(0, i + 1);
            let b = views(ps@).subrange(0, i + 1);
            assert(a.drop_last() =~= views(pp@).subrange(0, i as int));
            assert(b.drop_last() =~= views(ps@).subrange(0, i as int));
            assert(a.last() == seg@);
            assert(b.last() == other@);
        }
        if seg.len() > 0 && seg[0] == ':' {
            let name = slice_chars(seg, 1, seg.len());
            let ghost before = params@;
            params.insert(string_of(&name), string_of(other));
            proof {
                assert(name@ =~= seg@.drop_first());
                assert(text_view(params@) =~= text_view(before).insert(name@, other@));
            }
        } else {
            if !chars_eq(seg, other) {
                proof {
                    assert(views(pp@)[i as int] == seg@);
                    assert(views(ps@)[i as int] == other@);
                    assert(!is_param(segments(pattern@)[i as int]));
                    assert(segments(pattern@)[i as int] != segments(path@)[i as int]);
                    assert(!segments_agree(segments(pattern@), segments(path@)));
                }
                return None;
            }
        }
        i = i + 1;
    }
    proof {
        assert(views(pp@).subrange(0, pp.len() as int) =~= views(pp@));
        assert(views(ps@).subrange(0, ps.len() as int) =~= views(ps@));
        assert forall|j: int| 0 <= j < segments(pattern@).len() && !is_param(
            #[trigger] segments(pattern@)[j],
        ) implies segments(pattern@)[j] == segments(path@)[j] by {
            assert(views(pp@)[j] == pp@[j]@);
            assert(views(ps@)[j] == ps@[j]@);
        }
    }
    Some(params)
}

/// A route as the router holds it.
pub struct RouteSpec {
    pub method: Option<HttpMethod>,
    pub pattern: Seq<char>,
    pub script_path: Seq<char>,
}

/// Route configuration: the method it answers (any, when `None`), the
/// pattern it matches and the script that handles it.
pub struct Route {
    pub method: Option<HttpMethod>,
    pub pattern: String,
    pub script_path: String,
}

impl View for Route {
    type V = RouteSpec;

    open spec fn view(&self) -> RouteSpec {
        RouteSpec { method: self.method, pattern: self.pattern@, script_path: self.script_path@ }
    }
}

/// Whether a route answers a request with the given method token and routing
/// path: its method, if it names one, is the request's, and its pattern
/// matches the path.
pub open spec fn route_accepts(r: RouteSpec, method: Seq<char>, path: Seq<char>) -> bool {
    &&& (match r.method {
        Some(m) => method_token(m) == method,
        None => true,
    })
    &&& pattern_match(r.pattern, path) is Some
}

/// The first route, from position `i` on, that answers the request.
pub open spec fn first_route_from(routes: Seq<RouteSpec>, method: Seq<char>, path: Seq<char>, i: int) -> Option<int>
    decreases routes.len() - i,
{
    if i < 0 || i >= routes.len() {
        None
    } else if route_accepts(routes[i], method, path) {
        Some(i)
    } else {
        first_route_from(routes, method, path, i + 1)
    }
}

/// The route found from position `k` on lies at or after `k`, within the
/// table, and answers the request.
pub proof fn lemma_first_route_from_bounds(routes: Seq<RouteSpec>, method: Seq<char>, path: Seq<char>, k: int)
    ensures
        first_route_from(routes, method, path, k) matches Some(i) ==> k <= i < routes.len()
            && route_accepts(routes[i], method, path),
    decreases routes.len() - k,
{
    if 0 <= k < routes.len() && !route_accepts(routes[k], method, path) {
        lemma_first_route_from_bounds(routes, method, path, k + 1);
    }
}

/// The first route that answers the request.
pub open spec fn first_route(routes: Seq<RouteSpec>, method: Seq<char>, path: Seq<char>) -> Option<int> {
    first_route_from(routes, method, path, 0)
}

/// The scripts of a middleware.
pub struct MiddlewareSpec {
    pub before: Option<Seq<char>>,
    pub after: Option<Seq<char>>,
}

/// What a router is configured with.
pub struct RouterView {
    pub routes: Seq<RouteSpec>,
    pub middleware: Seq<MiddlewareSpec>,
    pub not_found_script: Option<Seq<char>>,
    pub error_script: Option<Seq<char>>,
}

/// A script-based router: maps URL patterns to Rhai script handlers, with
/// middleware around them and scripts for unmatched requests and errors.
pub struct ScriptRouter<E> {
    engine: Arc<E>,
    routes: Vec<Route>,
    middleware: Vec<ScriptMiddleware<E>>,
    not_found_script: Option<String>,
    error_script: Option<String>,
}

/// The optional text of an optional string.
pub open spec fn opt_text(o: Option<String>) -> Option<Seq<char>> {
    match o {
        Some(s) => Some(s@),
        None => None,
    }
}

impl<E> View for ScriptRouter<E> {
    type V = RouterView;

    closed spec fn view(&self) -> RouterView {
        RouterView {
            routes: self.routes@.map_values(|r: Route| r@),
            middleware: self.middleware@.map_values(
                |m: ScriptMiddleware<E>| MiddlewareSpec { before: m.before_spec(), after: m.after_spec() },
            ),
            not_found_script: opt_text(self.not_found_script),
            error_script: opt_text(self.error_script),
        }
    }
}

impl<E> ScriptRouter<E> {
    /// The engine that runs the scripts.
    pub closed spec fn engine_spec(&self) -> Arc<E> {
        self.engine
    }

    /// Whether every middleware runs its scripts on the router's engine.
    pub closed spec fn shares_engine(&self) -> bool {
        forall|i: int| 0 <= i < self.middleware@.len() ==> #[trigger] self.middleware@[i].engine_spec() == self.engine
    }

    /// Create a new script router.
    pub fn new(engine: E) -> (r: Self)
        ensures
            *r.engine_spec() == engine,
            r.shares_engine(),
            r@ == (RouterView {
                routes: Seq::empty(),
                middleware: Seq::empty(),
                not_found_script: None,
                error_script: None,
            }),
    {
        Self::with_engine(Arc::new(engine))
    }

    /// Create a new script router with a shared engine.
    pub fn with_engine(engine: Arc<E>) -> (r: Self)
        ensures
            r.engine_spec() == engine,
            r.shares_engine(),
            r@ == (RouterView {
                routes: Seq::empty(),
                middleware: Seq::empty(),
                not_found_script: None,
                error_script: None,
            }),
    {
        let r = ScriptRouter {
            engine,
            routes: Vec::new(),
            middleware: Vec::new(),
            not_found_script: None,
            error_script: None,
        };
        assert(r@.routes =~= Seq::empty());
        assert(r@.middleware =~= Seq::empty());
        r
    }

    fn add_route(self, method: Option<HttpMethod>, pattern: &str, script: &str) -> (r: Self)
        ensures
            r@ == (RouterView {
                routes: self@.routes.push(RouteSpec { method, pattern: pattern@, script_path: script@ }),
                ..self@
            }),
            r.engine_spec() == self.engine_spec(),
            r.shares_engine() == self.shares_engine(),
    {
        let mut router = self;
        let ghost before = router.routes@;
        router.routes.push(Route { method, pattern: pattern.to_owned(), script_path: script.to_owned() });
        assert(router.routes@.map_values(|r: Route| r@) =~= before.map_values(|r: Route| r@).push(
            RouteSpec { method, pattern: pattern@, script_path: script@ },
        ));
        router
    }

    /// Add a route for any HTTP method.
    pub fn route(self, pattern: &str, script: &str) -> (r: Self)
        ensures
            r@ == (RouterView {
                routes: self@.routes.push(RouteSpec { method: None, pattern: pattern@, script_path: script@ }),
                ..self@
            }),
            r.engine_spec() == self.engine_spec(),
            r.shares_engine() == self.shares_engine(),
    {
        self.add_route(None, pattern, script)
    }

    /// Add a GET route.
    pub fn get(self, pattern: &str, script: &str) -> (r: Self)
        ensures
            r@ == (RouterView {
                routes: self@.routes.push(
                    RouteSpec { method: Some(HttpMethod::GET), pattern: pattern@, script_path: script@ },
                ),
                ..self@
            }),
            r.engine_spec() == self.engine_spec(),
            r.shares_engine() == self.shares_engine(),
    {
        self.add_route(Some(HttpMethod::GET), pattern, script)
    }

    /// Add a POST route.
    pub fn post(self, pattern: &str, script: &str) -> (r: Self)
        ensures
            r@ == (RouterView {
                routes: self@.routes.push(
                    RouteSpec { method: Some(HttpMethod::POST), pattern: pattern@, script_path: script@ },
                ),
                ..self@
            }),
            r.engine_spec() == self.engine_spec(),
            r.shares_engine() == self.shares_engine(),
    {
        self.add_route(Some(HttpMethod::POST), pattern, script)
    }

    /// Add a PUT route.
    pub fn put(self, pattern: &str, script: &str) -> (r: Self)
        ensures
            r@ == (RouterView {
                routes: self@.routes.push(
                    RouteSpec { method: Some(HttpMethod::PUT), pattern: pattern@, script_path: script@ },
                ),
                ..self@
            }),
            r.engine_spec() == self.engine_spec(),
            r.shares_engine() == self.shares_engine(),
    {
        self.add_route(Some(HttpMethod::PUT), pattern, script)
    }

    /// Add a DELETE route.
    pub fn delete(self, pattern: &str, script: &str) -> (r: Self)
        ensures
            r@ == (RouterView {
                routes: self@.routes.push(
                    RouteSpec { method: Some(HttpMethod::DELETE), pattern: pattern@, script_path: script@ },
                ),
                ..self@
            }),
            r.engine_spec() == self.engine_spec(),
            r.shares_engine() == self.shares_engine(),
    {
        self.add_route(Some(HttpMethod::DELETE), pattern, script)
    }

    /// Add a PATCH route.
    pub fn patch(self, pattern: &str, script: &str) -> (r: Self)
        ensures
            r@ == (RouterView {
                routes: self@.routes.push(
                    RouteSpec { method: Some(HttpMethod::PATCH), pattern: pattern@, script_path: script@ },
                ),
                ..self@
            }),
            r.engine_spec() == self.engine_spec(),
            r.shares_engine() == self.shares_engine(),
    {
        self.add_route(Some(HttpMethod::PATCH), pattern, script)
    }

    fn add_middleware(self, m: ScriptMiddleware<E>) -> (r: Self)
        requires
            m.engine_spec() == self.engine_spec(),
        ensures
            r@ == (RouterView {
                middleware: self@.middleware.push(MiddlewareSpec { before: m.before_spec(), after: m.after_spec() }),
                ..self@
            }),
            r.engine_spec() == self.engine_spec(),
            r.shares_engine() == self.shares_engine(),
    {
        let mut router = self;
        let ghost before = router.middleware@;
        let ghost shared_before = router.shares_engine();
        let ghost spec_m = MiddlewareSpec { before: m.before_spec(), after: m.after_spec() };
        router.middleware.push(m);
        assert(router.middleware@.map_values(
            |m: ScriptMiddleware<E>| MiddlewareSpec { before: m.before_spec(), after: m.after_spec() },
        ) =~= before.map_values(
            |m: ScriptMiddleware<E>| MiddlewareSpec { before: m.before_spec(), after: m.after_spec() },
        ).push(spec_m));
        proof {
            if shared_before {
                assert forall|i: int| 0 <= i < router.middleware@.len() implies #[trigger] router.middleware@[i].engine_spec()
                    == router.engine by {
                    if i < before.len() {
                        assert(router.middleware@[i] == before[i]);
                    }
                }
            }
            if router.shares_engine() {
                assert(before.len() + 1 == router.middleware@.len());
                assert forall|i: int| 0 <= i < before.len() implies #[trigger] before[i].engine_spec()
                    == router.engine by {
                    assert(router.middleware@[i] == before[i]);
                }
            }
        }
        router
    }

    /// Add middleware that runs before handlers.
    pub fn before(self, script: &str) -> (r: Self)
        ensures
            r@ == (RouterView {
                middleware: self@.middleware.push(MiddlewareSpec { before: Some(script@), after: None }),
                ..self@
            }),
            r.engine_spec() == self.engine_spec(),
            r.shares_engine() == self.shares_engine(),
    {
        let m = ScriptMiddleware::before(share(&self.engine), script);
        self.add_middleware(m)
    }

    /// Add middleware that runs after handlers.
    pub fn after(self, script: &str) -> (r: Self)
        ensures
            r@ == (RouterView {
                middleware: self@.middleware.push(MiddlewareSpec { before: None, after: Some(script@) }),
                ..self@
            }),
            r.engine_spec() == self.engine_spec(),
            r.shares_engine() == self.shares_engine(),
    {
        let m = ScriptMiddleware::after(share(&self.engine), script);
        self.add_middleware(m)
    }

    /// Set the 404 Not Found handler script.
    pub fn not_found(self, script: &str) -> (r: Self)
        ensures
            r@ == (RouterView { not_found_script: Some(script@), ..self@ }),
            r.engine_spec() == self.engine_spec(),
            r.shares_engine() == self.shares_engine(),
    {
        let mut router = self;
        router.not_found_script = Some(script.to_owned());
        router
    }

    /// Set the error handler script.
    pub fn error_handler(self, script: &str) -> (r: Self)
        ensures
            r@ == (RouterView { error_script: Some(script@), ..self@ }),
            r.engine_spec() == self.engine_spec(),
            r.shares_engine() == self.shares_engine(),
    {
        let mut router = self;
        router.error_script = Some(script.to_owned());
        router
    }

    /// Get the engine.
    pub fn engine(&self) -> (e: &Arc<E>)
        ensures
            *e == self.engine_spec(),
    {
        &self.engine
    }

    /// The route at position `i`.
    pub fn route_at(&self, i: usize) -> (r: &Route)
        requires
            i < self@.routes.len(),
        ensures
            r@ == self@.routes[i as int],
    {
        &self.routes[i]
    }

    /// The number of routes.
    pub fn route_count(&self) -> (n: usize)
        ensures
            n == self@.routes.len(),
    {
        self.routes.len()
    }

    /// The middleware at position `i`.
    pub fn middleware_at(&self, i: usize) -> (m: &ScriptMiddleware<E>)
        requires
            i < self@.middleware.len(),
        ensures
            m.before_spec() == self@.middleware[i as int].before,
            m.after_spec() == self@.middleware[i as int].after,
            self.shares_engine() ==> m.engine_spec() == self.engine_spec(),
    {
        &self.middleware[i]
    }

    /// The number of middleware.
    pub fn middleware_count(&self) -> (n: usize)
        ensures
            n == self@.middleware.len(),
    {
        self.middleware.len()
    }

    /// The not-found script.
    pub fn not_found_script(&self) -> (s: Option<&String>)
        ensures
            match s {
                Some(p) => self@.not_found_script == Some(p@),
                None => self@.not_found_script is None,
            },
    {
        match &self.not_found_script {
            Some(p) => Some(p),
            None => None,
        }
    }

    /// The error script.
    pub fn error_script(&self) -> (s: Option<&String>)
        ensures
            match s {
                Some(p) => self@.error_script == Some(p@),
                None => self@.error_script is None,
            },
    {
        match &self.error_script {
            Some(p) => Some(p),
            None => None,
        }
    }

    /// Check if a pattern matches a path, returning the captured `:param`
    /// values (and the catch-all remainder under the `"*"` key) on match.
    /// Captured values are the raw segment text, not percent-decoded.
    pub fn match_pattern(pattern: &str, path: &str) -> (r: Option<StringMap<String>>)
        ensures
            match r {
                Some(m) => pattern_match(pattern@, path@) == Some(text_view(m@)),
                None => pattern_match(pattern@, path@) is None,
            },
    {
        match_path(pattern, path)
    }

    /// Find the route for a request: the first route, in the order added,
    /// that answers its method and whose pattern matches its routing path
    /// (the target without its query string). Returns its position and the
    /// parameters its pattern captures.
    pub fn find_route(&self, method: &str, target: &str) -> (r: Option<(usize, StringMap<String>)>)
        ensures
            match r {
                Some((i, params)) => first_route(self@.routes, method@, path_only(target@)) == Some(i as int)
                    && pattern_match(self@.routes[i as int].pattern, path_only(target@)) == Some(
                    text_view(params@),
                ),
                None => first_route(self@.routes, method@, path_only(target@)) is None,
            },
    {
        let path = path_only_of(target);
        let method_chars = chars_of(method);
        let ghost rs = self@.routes;
        let mut i: usize = 0;
        while i < self.routes.len()
            invariant
                i <= self.routes@.len(),
                rs == self@.routes,
                rs.len() == self.routes@.len(),
                method_chars@ == method@,
                path@ == path_only(target@),
                first_route(rs, method@, path@) == first_route_from(rs, method@, path@, i as int),
            decreases self.routes@.len() - i,
        {
            let route = &self.routes[i];
            assert(rs[i as int] == route@);
            let method_ok = match route.method {
                Some(m) => {
                    let token = chars_of(m.as_str());
                    chars_eq(&token, &method_chars)
                },
                None => true,
            };
            if method_ok {
                match match_path(route.pattern.as_str(), path.as_str()) {
                    Some(params) => {
                        return Some((i, params));
                    },
                    None => {},
                }
            }
            i = i + 1;
        }
        None
    }
}

} // verus!

verus! {

/// The `.rhai` suffix of script files.
pub open spec fn rhai_suffix() -> Seq<char> {
    seq!['.', 'r', 'h', 'a', 'i']
}

/// The name of a script that stands for its directory.
pub open spec fn index_name() -> Seq<char> {
    seq!['i', 'n', 'd', 'e', 'x']
}

/// A file name without its trailing `.rhai` suffixes, as
/// `trim_end_matches(".rhai")` leaves it.
pub open spec fn trim_rhai(name: Seq<char>) -> Seq<char>
    decreases name.len(),
{
    if name.len() >= 5 && name.subrange(name.len() - 5, name.len() as int) == rhai_suffix() {
        trim_rhai(name.subrange(0, name.len() - 5))
    } else {
        name
    }
}

/// The route segment for a script name: `[param]` becomes `:param`.
pub open spec fn route_segment(name: Seq<char>) -> Seq<char> {
    if name.len() > 0 && name[0] == '[' && name.last() == ']' {
        seq![':'] + name.subrange(1, name.len() - 1)
    } else {
        name
    }
}

/// The route pattern for a script's path components below the routes
/// directory: each name, without `.rhai`, is a segment; `index` adds none;
/// other components are skipped.
pub open spec fn route_for(parts: Seq<PartView>) -> Seq<char>
    decreases parts.len(),
{
    if parts.len() == 0 {
        seq!['/']
    } else {
        let r = route_for(parts.drop_last());
        match parts.last() {
            PartView::Normal(n) => {
                let name = trim_rhai(n);
                if name == index_name() {
                    r
                } else if r.len() > 0 && r.last() == '/' {
                    r + route_segment(name)
                } else {
                    r.push('/') + route_segment(name)
                }
            },
            _ => r,
        }
    }
}

/// The components of a script path below the routes directory: the path
/// without the scripts directory, then without the routes directory. When
/// the second is not a prefix, the whole path is used.
pub open spec fn relative_parts(path: Seq<PartView>, scripts_dir: Seq<PartView>, routes_dir: Seq<PartView>) -> Seq<PartView> {
    let first = match strip_parts(path, scripts_dir) {
        Some(r) => r,
        None => path,
    };
    match strip_parts(first, routes_dir) {
        Some(r) => r,
        None => path,
    }
}

/// The route pattern a discovered script answers.
pub open spec fn discovered_route(path: Seq<char>, scripts_dir: Seq<char>, routes_dir: Seq<char>) -> Seq<char> {
    route_for(relative_parts(path_components(path), path_components(scripts_dir), path_components(routes_dir)))
}

fn trim_rhai_of(name: &Vec<char>) -> (r: Vec<char>)
    ensures
        r@ == trim_rhai(name@),
{
    let suffix = vec!['.', 'r', 'h', 'a', 'i'];
    let mut end: usize = name.len();
    assert(name@.subrange(0, end as int) =~= name@);
    loop
        invariant
            end <= name@.len(),
            suffix@ == rhai_suffix(),
            trim_rhai(name@) == trim_rhai(name@.subrange(0, end as int)),
        decreases end,
    {
        let cur = slice_chars(name, 0, end);
        if end >= 5 {
            let tail = slice_chars(&cur, end - 5, end);
            if chars_eq(&tail, &suffix) {
                assert(name@.subrange(0, end as int).subrange(0, end - 5) =~= name@.subrange(0, end - 5));
                end = end - 5;
                continue;
            }
        }
        return cur;
    }
}

impl<E> ScriptRouter<E> {
    /// Convert a script's path to the route pattern it answers, given the
    /// scripts directory and the routes directory:
    /// - `routes/index.rhai` -> `/`
    /// - `routes/users.rhai` -> `/users`
    /// - `routes/users/[id].rhai` -> `/users/:id`
    pub fn route_for_script(scripts_dir: &str, routes_dir: &str, path: &str) -> (r: String)
        ensures
            r@ == discovered_route(path@, scripts_dir@, routes_dir@),
    {
        let p = components(path);
        let sd = components(scripts_dir);
        let rd = components(routes_dir);
        let ghost pv = part_views(p@);
        let ghost first: Seq<PartView> = match strip_parts(pv, part_views(sd@)) {
            Some(r) => r,
            None => pv,
        };
        let start1: usize = match strip_prefix_parts(&p, &sd) {
            Some(k) => k,
            None => 0,
        };
        assert(first =~= pv.subrange(start1 as int, pv.len() as int));
        let mut rest: Vec<PathPart> = Vec::new();
        let mut k: usize = start1;
        while k < p.len()
            invariant
                start1 <= k <= p@.len(),
                part_views(rest@) == part_views(p@).subrange(start1 as int, k as int),
            decreases p@.len() - k,
        {
            let part = match &p[k] {
                PathPart::Root => PathPart::Root,
                PathPart::Current => PathPart::Current,
                PathPart::Parent => PathPart::Parent,
                PathPart::Normal(n) => PathPart::Normal(n.clone()),
            };
            let ghost before = rest@;
            rest.push(part);
            assert(part_views(rest@) =~= part_views(before).push(p@[k as int]@));
            assert(part_views(p@).subrange(start1 as int, k + 1) =~= part_views(p@).subrange(start1 as int, k as int).push(p@[k as int]@));
            k = k + 1;
        }
        let ghost rel = relative_parts(pv, part_views(sd@), part_views(rd@));
        let (source, from): (&Vec<PathPart>, usize) = match strip_prefix_parts(&rest, &rd) {
            Some(k2) => (&rest, k2),
            None => (&p, 0),
        };
        assert(rel =~= part_views(source@).subrange(from as int, source@.len() as int));
        let mut route: Vec<char> = vec!['/'];
        let index = vec!['i', 'n', 'd', 'e', 'x'];
        let mut i: usize = from;
        assert(part_views(source@).subrange(from as int, from as int) =~= Seq::<PartView>::empty());
        while i < source.len()
            invariant
                from <= i <= source@.len(),
                index@ == index_name(),
                route@ == route_for(part_views(source@).subrange(from as int, i as int)),
            decreases source@.len() - i,
        {
            proof {
                let s = part_views(source@).subrange(from as int, i + 1);
                assert(s.drop_last() =~= part_views(source@).subrange(from as int, i as int));
                assert(s.last() == source@[i as int]@);
            }
            match &source[i] {
                PathPart::Normal(n) => {
                    let raw = chars_of(n.as_str());
                    let name = trim_rhai_of(&raw);
                    if !chars_eq(&name, &index) {
                        let n2 = name.len();
                        let segment: Vec<char> = if n2 > 0 && name[0] == '[' && name[n2 - 1] == ']' {
                            let inner = slice_chars(&name, 1, n2 - 1);
                            let mut seg = vec![':'];
                            let mut j: usize = 0;
                            while j < inner.len()
                                invariant
                                    j <= inner@.len(),
                                    seg@ == seq![':'] + inner@.subrange(0, j as int),
                                decreases inner@.len() - j,
                            {
                                seg.push(inner[j]);
                                j = j + 1;
                            }
                            assert(inner@.subrange(0, inner@.len() as int) =~= inner@);
                            seg
                        } else {
                            name
                        };
                        let ghost seg_view = segment@;
                        assert(seg_view == route_segment(trim_rhai(n@)));
                        if !(route.len() > 0 && route[route.len() - 1] == '/') {
                            route.push('/');
                        }
                        let ghost base = route@;
                        let mut j: usize = 0;
                        while j < segment.len()
                            invariant
                                j <= segment@.len(),
                                route@ == base + segment@.subrange(0, j as int),
                            decreases segment@.len() - j,
                        {
                            route.push(segment[j]);
                            j = j + 1;
                        }
                        assert(segment@.subrange(0, segment@.len() as int) =~= segment@);
                    }
                },
                _ => {},
            }
            i = i + 1;
        }
        assert(part_views(source@).subrange(from as int, source@.len() as int) == rel);
        string_of(&route)
    }
}

/// Builder for a script router that discovers its routes from the scripts
/// below a routes directory.
pub struct ScriptRouterBuilder<E> {
    engine: Arc<E>,
    auto_routes: bool,
    routes_dir: String,
}

impl<E> ScriptRouterBuilder<E> {
    /// The engine the router will run scripts on.
    pub closed spec fn engine_spec(&self) -> Arc<E> {
        self.engine
    }

    /// Whether routes are discovered.
    pub closed spec fn auto_routes_spec(&self) -> bool {
        self.auto_routes
    }

    /// The routes directory.
    pub closed spec fn routes_dir_spec(&self) -> Seq<char> {
        self.routes_dir@
    }

    /// Create a new builder: no route discovery, routes directory `routes`.
    pub fn new(engine: E) -> (b: Self)
        ensures
            *b.engine_spec() == engine,
            !b.auto_routes_spec(),
            b.routes_dir_spec() == seq!['r', 'o', 'u', 't', 'e', 's'],
    {
        let dir = vec!['r', 'o', 'u', 't', 'e', 's'];
        ScriptRouterBuilder { engine: Arc::new(engine), auto_routes: false, routes_dir: string_of(&dir) }
    }

    /// Enable automatic route discovery from the scripts below `dir`:
    /// `index.rhai` answers its directory, `users.rhai` answers `/users`,
    /// `users/[id].rhai` answers `/users/:id`.
    pub fn auto_routes(self, dir: &str) -> (b: Self)
        ensures
            b.engine_spec() == self.engine_spec(),
            b.auto_routes_spec(),
            b.routes_dir_spec() == dir@,
    {
        ScriptRouterBuilder { engine: self.engine, auto_routes: true, routes_dir: dir.to_owned() }
    }

    /// The engine the router will run scripts on.
    pub fn engine(&self) -> (e: &Arc<E>)
        ensures
            *e == self.engine_spec(),
    {
        &self.engine
    }

    /// Whether routes are discovered.
    pub fn discovers_routes(&self) -> (r: bool)
        ensures
            r == self.auto_routes_spec(),
    {
        self.auto_routes
    }

    /// The routes directory.
    pub fn routes_dir(&self) -> (r: &str)
        ensures
            r@ == self.routes_dir_spec(),
    {
        self.routes_dir.as_str()
    }

    /// Convert a file path to a route pattern, given the scripts directory.
    pub fn path_to_route(&self, scripts_dir: &str, path: &str) -> (r: String)
        ensures
            r@ == discovered_route(path@, scripts_dir@, self.routes_dir_spec()),
    {
        ScriptRouter::<E>::route_for_script(scripts_dir, self.routes_dir.as_str(), path)
    }

    /// Build the router from the scripts found below the routes directory
    /// (each path as the script loader lists it), in the order given. Without
    /// route discovery the router has no routes.
    pub fn build_from_scripts(self, scripts_dir: &str, scripts: &Vec<String>) -> (r: ScriptRouter<E>)
        ensures
            r.engine_spec() == self.engine_spec(),
            r.shares_engine(),
            r@.middleware.len() == 0,
            r@.not_found_script is None,
            r@.error_script is None,
            r@.routes.len() == (if self.auto_routes_spec() { scripts@.len() } else { 0 }),
            forall|i: int| 0 <= i < r@.routes.len() ==> #[trigger] r@.routes[i] == (RouteSpec {
                method: None,
                pattern: discovered_route(scripts@[i]@, scripts_dir@, self.routes_dir_spec()),
                script_path: scripts@[i]@,
            }),
    {
        let mut router = ScriptRouter::with_engine(self.engine);
        if !self.auto_routes {
            return router;
        }
        let mut i: usize = 0;
        while i < scripts.len()
            invariant
                i <= scripts@.len(),
                router.engine_spec() == self.engine,
                router.shares_engine(),
                router@.middleware.len() == 0,
                router@.not_found_script is None,
                router@.error_script is None,
                router@.routes.len() == i,
                forall|j: int| 0 <= j < i ==> #[trigger] router@.routes[j] == (RouteSpec {
                    method: None,
                    pattern: discovered_route(scripts@[j]@, scripts_dir@, self.routes_dir@),
                    script_path: scripts@[j]@,
                }),
            decreases scripts@.len() - i,
        {
            let pattern = Self::route_pattern(scripts_dir, self.routes_dir.as_str(), scripts[i].as_str());
            let ghost before = router@.routes;
            router = router.route(pattern.as_str(), scripts[i].as_str());
            assert(router@.routes == before.push(RouteSpec { method: None, pattern: pattern@, script_path: scripts@[i as int]@ }));
            i = i + 1;
        }
        router
    }

    fn route_pattern(scripts_dir: &str, routes_dir: &str, path: &str) -> (r: String)
        ensures
            r@ == discovered_route(path@, scripts_dir@, routes_dir@),
    {
        ScriptRouter::<E>::route_for_script(scripts_dir, routes_dir, path)
    }
}

} // verus!

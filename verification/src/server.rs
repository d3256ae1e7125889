//! The server: route registration (legal only before the listener starts),
//! the middleware dispatch cursor, and the per-connection keep-alive and
//! upgrade decisions.

use vstd::prelude::*;

use crate::ascii;
use crate::ascii::{spec_lower_bytes, spec_lower_chars, spec_bytes_of_chars};
use crate::decode::{spec_trim, trim_value};
use crate::headers::{Headers, spec_find};
use crate::method::Method;
use crate::response::Response;
use crate::router::{Router, Selection, spec_parse_pattern, spec_pattern_wf, spec_route_ok, spec_split};
use crate::wire::{spec_find_byte, find_byte, bytes_eq};
use crate::ConnectionStatus;

verus! {

/// The wire token `upgrade`.
pub open spec fn spec_upgrade_token() -> Seq<u8> {
    seq![117u8, 112u8, 103u8, 114u8, 97u8, 100u8, 101u8]
}

/// Whether a comma-separated header value contains the token `upgrade`,
/// compared case-insensitively with surrounding whitespace stripped.
pub open spec fn spec_csv_contains_upgrade(v: Seq<u8>) -> bool
    decreases v.len(),
{
    let c = spec_find_byte(v, 44);
    let piece = if c < 0 {
        v
    } else {
        v.take(c)
    };
    if spec_lower_bytes(spec_trim(piece)) == spec_upgrade_token() {
        true
    } else if 0 <= c < v.len() {
        spec_csv_contains_upgrade(v.skip(c + 1))
    } else {
        false
    }
}

/// Check a comma-separated value for the token `upgrade`.
pub fn csv_contains_upgrade(v: &[u8]) -> (r: bool)
    ensures
        r == spec_csv_contains_upgrade(v@),
    decreases v@.len(),
{
    let n = v.len();
    let piece: Vec<u8>;
    let rest_at: Option<usize>;
    match find_byte(v, 44) {
        None => {
            piece = vstd::slice::slice_to_vec(v);
            rest_at = None;
            proof {
                assert(piece@ =~= v@);
            }
        },
        Some(c) => {
            piece = vstd::slice::slice_to_vec(&v[0..c]);
            rest_at = Some(c + 1);
            proof {
                assert(piece@ =~= v@.take(c as int));
            }
        },
    }
    let trimmed = trim_value(piece.as_slice());
    let folded = ascii::lower_bytes(trimmed.as_slice());
    let mut token: Vec<u8> = Vec::new();
    token.push(117);
    token.push(112);
    token.push(103);
    token.push(114);
    token.push(97);
    token.push(100);
    token.push(101);
    proof {
        assert(token@ =~= spec_upgrade_token());
    }
    if bytes_eq(folded.as_slice(), token.as_slice()) {
        true
    } else {
        match rest_at {
            Some(at) => {
                let rest = &v[at..n];
                proof {
                    assert(rest@ =~= v@.skip(at as int));
                }
                csv_contains_upgrade(rest)
            },
            None => false,
        }
    }
}

/// The last value of a header entry, folded to lowercase bytes; empty when
/// the header is absent or has no values.
pub open spec fn spec_last_value_bytes(h: Seq<(Seq<char>, Seq<Seq<char>>)>, name: Seq<char>) -> Seq<
    u8,
> {
    let f = spec_find(h, name);
    if f >= 0 && h[f].1.len() >= 1 {
        spec_bytes_of_chars(h[f].1.last())
    } else {
        Seq::<u8>::empty()
    }
}

/// The last value of the named header as bytes, or empty.
fn last_value_bytes(headers: &Headers, name: &str) -> (r: Vec<u8>)
    requires
        headers.wf(),
        name.is_ascii(),
        spec_lower_chars(name@) == name@,
    ensures
        r@ == spec_last_value_bytes(headers@, name@),
{
    match headers.header(name) {
        None => Vec::new(),
        Some(vs) => {
            if vs.len() == 0 {
                Vec::new()
            } else {
                let last = &vs[vs.len() - 1];
                proof {
                    assert(vs.deep_view()[vs@.len() - 1] == last@);
                    let f = spec_find(headers@, name@);
                    crate::headers::lemma_find_first(headers@, name@);
                    assert(crate::headers::wf_entry(headers@[f]));
                    assert(vstd::utf8::is_ascii_chars(last@));
                }
                ascii::string_to_bytes(last.as_str())
            }
        },
    }
}

/// Whether a header collection asks to close the connection: its
/// `Connection` value reads `close`, case-insensitively.
pub open spec fn spec_wants_close(h: Seq<(Seq<char>, Seq<Seq<char>>)>) -> bool {
    spec_lower_bytes(spec_last_value_bytes(h, "connection"@)) == seq![
        99u8,
        108u8,
        111u8,
        115u8,
        101u8,
    ]
}

/// Whether the headers ask to close the connection.
pub fn wants_close(headers: &Headers) -> (r: bool)
    requires
        headers.wf(),
    ensures
        r == spec_wants_close(headers@),
{
    proof {
        lemma_server_literals();
    }
    let v = last_value_bytes(headers, "connection");
    let folded = ascii::lower_bytes(v.as_slice());
    let mut close_token: Vec<u8> = Vec::new();
    close_token.push(99);
    close_token.push(108);
    close_token.push(111);
    close_token.push(115);
    close_token.push(101);
    proof {
        assert(close_token@ =~= seq![99u8, 108u8, 111u8, 115u8, 101u8]);
    }
    bytes_eq(folded.as_slice(), close_token.as_slice())
}

/// Whether a request asks for a protocol upgrade: an `Upgrade` header is
/// present and the `Connection` value lists the `upgrade` token.
pub open spec fn spec_upgrade_requested(h: Seq<(Seq<char>, Seq<Seq<char>>)>) -> bool {
    spec_find(h, "upgrade"@) >= 0 && spec_csv_contains_upgrade(
        spec_last_value_bytes(h, "connection"@),
    )
}

/// Whether the request head asks for a protocol upgrade.
pub fn upgrade_requested(headers: &Headers) -> (r: bool)
    requires
        headers.wf(),
    ensures
        r == spec_upgrade_requested(headers@),
{
    proof {
        lemma_server_literals();
    }
    if !headers.contains("upgrade") {
        return false;
    }
    let v = last_value_bytes(headers, "connection");
    csv_contains_upgrade(v.as_slice())
}

/// The names the connection logic looks up are ASCII and folded.
proof fn lemma_server_literals()
    ensures
        "connection".is_ascii(),
        spec_lower_chars("connection"@) == "connection"@,
        "upgrade".is_ascii(),
        spec_lower_chars("upgrade"@) == "upgrade"@,
{
    reveal_strlit("connection");
    reveal_strlit("upgrade");
    assert(spec_lower_chars("connection"@) =~= "connection"@);
    assert(spec_lower_chars("upgrade"@) =~= "upgrade"@);
}

/// What one request/response exchange decides for the connection.
pub struct ExchangeOutcome {
    /// The raw stream is handed to the upgrade consumer; HTTP ends here.
    pub upgraded: bool,
    /// Whether the connection may serve another request.
    pub status: ConnectionStatus,
}

/// Decide the connection's fate after one exchange, exactly as the
/// connection loop must: an upgrade happens when the request asked for one,
/// the response switches protocols and declares an upgrade payload; the
/// connection closes on an upgrade or when either side asked to close;
/// otherwise it is kept alive.
pub fn exchange_outcome(
    request_headers: &Headers,
    response: &Response,
    upgrade_payload: bool,
) -> (r: ExchangeOutcome)
    requires
        request_headers.wf(),
        response.wf(),
    ensures
        r.upgraded == (spec_upgrade_requested(request_headers@) && response.status == 101
            && upgrade_payload),
        r.status == (if r.upgraded || spec_wants_close(request_headers@) || spec_wants_close(
            response.headers@,
        ) {
            ConnectionStatus::Close
        } else {
            ConnectionStatus::KeepAlive
        }),
{
    let requested = upgrade_requested(request_headers);
    let provided = response.status() == 101 && upgrade_payload;
    let upgraded = requested && provided;
    let close = upgraded || wants_close(request_headers) || wants_close(&response.headers);
    ExchangeOutcome {
        upgraded,
        status: if close {
            ConnectionStatus::Close
        } else {
            ConnectionStatus::KeepAlive
        },
    }
}

/// The fixed response of the not-found pseudo-handler.
pub fn not_found_endpoint() -> (r: Response)
    ensures
        r.status == 404,
        r.headers@.len() == 0,
        r.body.bytes().len() == 0,
        r.wf(),
{
    Response::new(404)
}

/// The fixed response of the method-not-allowed pseudo-handler.
pub fn method_not_allowed() -> (r: Response)
    ensures
        r.status == 405,
        r.headers@.len() == 0,
        r.body.bytes().len() == 0,
        r.wf(),
{
    Response::new(405)
}

/// The response a routing pseudo-target answers with, or nothing when the
/// selection points at a real handler.
pub fn pseudo_response(target: &crate::router::RouteTarget) -> (r: Option<Response>)
    ensures
        (match target {
            crate::router::RouteTarget::Endpoint(_) => r is None,
            crate::router::RouteTarget::NotFound => r matches Some(resp) && resp.status == 404
                && resp.wf(),
            crate::router::RouteTarget::MethodNotAllowed => r matches Some(resp) && resp.status
                == 405 && resp.wf(),
        }),
{
    match target {
        crate::router::RouteTarget::Endpoint(_) => None,
        crate::router::RouteTarget::NotFound => Some(not_found_endpoint()),
        crate::router::RouteTarget::MethodNotAllowed => Some(method_not_allowed()),
    }
}

/// What the dispatch cursor hands out next.
#[derive(Debug, Copy, Clone, Eq, PartialEq, Structural)]
pub enum NextStep {
    /// Run the middleware with this index, then come back.
    Middleware(usize),
    /// The chain is exhausted: call the terminal endpoint.
    Endpoint,
}

/// The rest of the middleware chain: an explicit cursor over the registered
/// middleware, ending at the terminal endpoint. Each middleware is handed
/// out exactly once, in registration order, and then the endpoint.
pub struct Next {
    pub total: usize,
    pub pos: usize,
}

impl Next {
    /// The cursor stays within the chain.
    pub open spec fn wf(self) -> bool {
        self.pos <= self.total
    }

    /// A cursor at the head of a chain of `total` middleware.
    pub fn new(total: usize) -> (r: Next)
        ensures
            r.total == total,
            r.pos == 0,
            r.wf(),
    {
        Next { total, pos: 0 }
    }

    /// Pop the next middleware, or reach the endpoint; the cursor never
    /// moves backwards and never hands a middleware out twice.
    pub fn step(&mut self) -> (r: NextStep)
        requires
            old(self).wf(),
        ensures
            final(self).wf(),
            final(self).total == old(self).total,
            old(self).pos < old(self).total ==> r == NextStep::Middleware(old(self).pos) && final(self).pos == old(self).pos + 1,
            old(self).pos == old(self).total ==> r == NextStep::Endpoint && final(self).pos == old(self).pos,
    {
        if self.pos < self.total {
            let i = self.pos;
            self.pos = self.pos + 1;
            NextStep::Middleware(i)
        } else {
            NextStep::Endpoint
        }
    }
}

/// A middleware that acts on the request before the rest of the chain.
#[derive(Debug)]
pub struct Before<F>(pub F);

/// A middleware that acts on the response after the rest of the chain.
#[derive(Debug)]
pub struct After<F>(pub F);

/// How two path pieces join: a `/` is inserted unless one side already
/// provides it, and a bare `/` adds nothing.
pub open spec fn spec_join_paths(p: Seq<char>, q: Seq<char>) -> Seq<char> {
    let base = if !(p.len() > 0 && p.last() == '/') && !(q.len() > 0 && q[0] == '/') {
        p + seq!['/']
    } else {
        p
    };
    if q == seq!['/'] {
        base
    } else {
        base + q
    }
}

/// A handle to a path under which routes are registered.
pub struct Route {
    pub path: String,
}

impl Route {
    /// The handle's path.
    pub fn path(&self) -> (r: &str)
        ensures
            r@ == self.path@,
    {
        self.path.as_str()
    }

    /// A handle for a path beneath this one.
    pub fn at(&self, path: &str) -> (r: Route)
        requires
            self.path.is_ascii(),
            path.is_ascii(),
        ensures
            r.path@ == spec_join_paths(self.path@, path@),
            r.path.is_ascii(),
    {
        broadcast use vstd::utf8::is_ascii_chars_nat_bound;

        let mut p = self.path.clone();
        let pn = p.as_str().unicode_len();
        let qn = path.unicode_len();
        let p_slash = pn > 0 && {
            let b = p.as_str().get_ascii(pn - 1);
            proof {
                assert((p@.index(pn - 1) as nat) < 128);
                ascii::lemma_ascii_char_roundtrip(p@[pn - 1]);
            }
            b == 47
        };
        let q_slash = qn > 0 && {
            let b = path.get_ascii(0);
            proof {
                assert((path@.index(0) as nat) < 128);
                ascii::lemma_ascii_char_roundtrip(path@[0]);
            }
            b == 47
        };
        proof {
            if pn > 0 {
                assert((p@.last() == '/') == (p@[pn - 1] as u8 == 47)) by {
                    assert((p@.index(pn - 1) as nat) < 128);
                    ascii::lemma_ascii_char_roundtrip(p@[pn - 1]);
                    if p@[pn - 1] == '/' {
                        assert((p@[pn - 1] as u8) == 47);
                    }
                }
            }
            if qn > 0 {
                assert((path@[0] == '/') == (path@[0] as u8 == 47)) by {
                    assert((path@.index(0) as nat) < 128);
                    ascii::lemma_ascii_char_roundtrip(path@[0]);
                    if path@[0] == '/' {
                        assert((path@[0] as u8) == 47);
                    }
                }
            }
        }
        if !p_slash && !q_slash {
            p.append("/");
            proof {
                reveal_strlit("/");
                assert("/"@ =~= seq!['/']);
            }
        }
        let is_bare_slash = qn == 1 && q_slash;
        proof {
            reveal_strlit("/");
            if is_bare_slash {
                assert(path@ =~= seq!['/']);
            } else {
                if path@ == seq!['/'] {
                    assert(path@.len() == 1 && path@[0] == '/');
                }
            }
        }
        if !is_bare_slash {
            p.append(path);
        }
        proof {
            broadcast use vstd::utf8::is_ascii_chars_concat;

            assert(vstd::utf8::is_ascii_chars(p@)) by {
                assert(vstd::utf8::is_ascii_chars(seq!['/'])) by {
                    reveal_strlit("/");
                    assert(vstd::utf8::is_ascii_chars("/"@));
                }
                assert forall|i: int| 0 <= i < p@.len() implies '\0' <= #[trigger] p@[i]
                    <= '\u{7f}' by {
                    let base = if !(self.path@.len() > 0 && self.path@.last() == '/') && !(
                    path@.len() > 0 && path@[0] == '/') {
                        self.path@ + seq!['/']
                    } else {
                        self.path@
                    };
                    if i < base.len() {
                        if i < self.path@.len() {
                            assert((self.path@.index(i) as nat) < 128);
                        }
                    } else {
                        assert(p@[i] == path@[i - base.len()]);
                        assert((path@.index(i - base.len()) as nat) < 128);
                    }
                }
            }
        }
        Route { path: p }
    }
}

/// The server: a router and a middleware chain, both frozen once the
/// listener starts accepting.
pub struct Server<H> {
    pub router: Router<H>,
    pub middleware_count: usize,
    pub started: bool,
}

impl<H> Server<H> {
    /// A new server with no routes and no middleware.
    pub fn new() -> (r: Server<H>)
        ensures
            r.router.routes@.len() == 0,
            r.middleware_count == 0,
            !r.started,
    {
        Server { router: Router::new(), middleware_count: 0, started: false }
    }

    /// A handle for registering routes under `path`.
    pub fn at(&self, path: &str) -> (r: Route)
        ensures
            r.path@ == path@,
    {
        Route { path: path.to_owned() }
    }

    /// Register one more middleware; its index is its place in the chain.
    /// Registration is legal only before the server starts.
    pub fn with_middleware(&mut self) -> (r: usize)
        requires
            !old(self).started,
            old(self).middleware_count < usize::MAX,
        ensures
            r == old(self).middleware_count,
            final(self).middleware_count == old(self).middleware_count + 1,
            final(self).router == old(self).router,
            !final(self).started,
    {
        let i = self.middleware_count;
        self.middleware_count = self.middleware_count + 1;
        i
    }

    /// Register a handler for one method under a route. Legal only before
    /// the server starts.
    pub fn method(&mut self, route: &Route, method: Method, handler: H)
        requires
            !old(self).started,
            route.path.is_ascii(),
            spec_pattern_wf(spec_parse_pattern(route.path@)),
        ensures
            final(self).router.routes@.len() == old(self).router.routes@.len() + 1,
            forall|i: int|
                0 <= i < old(self).router.routes@.len() ==> #[trigger] final(self).router.routes@[i]
                    == old(self).router.routes@[i],
            final(self).router.routes@.last().method == Some(method),
            final(self).router.routes@.last().pattern@ == spec_parse_pattern(route.path@),
            final(self).router.routes@.last().handler == handler,
            final(self).middleware_count == old(self).middleware_count,
            !final(self).started,
    {
        self.router.add(route.path.as_str(), method, handler);
    }

    /// Register a method-agnostic fallback handler under a route. Legal
    /// only before the server starts.
    pub fn all(&mut self, route: &Route, handler: H)
        requires
            !old(self).started,
            route.path.is_ascii(),
            spec_pattern_wf(spec_parse_pattern(route.path@)),
        ensures
            final(self).router.routes@.len() == old(self).router.routes@.len() + 1,
            forall|i: int|
                0 <= i < old(self).router.routes@.len() ==> #[trigger] final(self).router.routes@[i]
                    == old(self).router.routes@[i],
            final(self).router.routes@.last().method is None,
            final(self).router.routes@.last().pattern@ == spec_parse_pattern(route.path@),
            final(self).router.routes@.last().handler == handler,
            final(self).middleware_count == old(self).middleware_count,
            !final(self).started,
    {
        self.router.add_all(route.path.as_str(), handler);
    }


    /// Register a handler for `GET` requests under a route.
    pub fn get(&mut self, route: &Route, handler: H)
        requires
            !old(self).started,
            route.path.is_ascii(),
            spec_pattern_wf(spec_parse_pattern(route.path@)),
        ensures
            final(self).router.routes@.len() == old(self).router.routes@.len() + 1,
            final(self).router.routes@.last().method == Some(Method::Get),
            final(self).router.routes@.last().pattern@ == spec_parse_pattern(route.path@),
            final(self).router.routes@.last().handler == handler,
            forall|i: int|
                0 <= i < old(self).router.routes@.len() ==> #[trigger] final(self).router.routes@[i]
                    == old(self).router.routes@[i],
            final(self).middleware_count == old(self).middleware_count,
            !final(self).started,
    {
        self.method(route, Method::Get, handler);
    }

    /// Register a handler for `HEAD` requests under a route.
    pub fn head(&mut self, route: &Route, handler: H)
        requires
            !old(self).started,
            route.path.is_ascii(),
            spec_pattern_wf(spec_parse_pattern(route.path@)),
        ensures
            final(self).router.routes@.len() == old(self).router.routes@.len() + 1,
            final(self).router.routes@.last().method == Some(Method::Head),
            final(self).router.routes@.last().pattern@ == spec_parse_pattern(route.path@),
            final(self).router.routes@.last().handler == handler,
            forall|i: int|
                0 <= i < old(self).router.routes@.len() ==> #[trigger] final(self).router.routes@[i]
                    == old(self).router.routes@[i],
            final(self).middleware_count == old(self).middleware_count,
            !final(self).started,
    {
        self.method(route, Method::Head, handler);
    }

    /// Register a handler for `POST` requests under a route.
    pub fn post(&mut self, route: &Route, handler: H)
        requires
            !old(self).started,
            route.path.is_ascii(),
            spec_pattern_wf(spec_parse_pattern(route.path@)),
        ensures
            final(self).router.routes@.len() == old(self).router.routes@.len() + 1,
            final(self).router.routes@.last().method == Some(Method::Post),
            final(self).router.routes@.last().pattern@ == spec_parse_pattern(route.path@),
            final(self).router.routes@.last().handler == handler,
            final(self).middleware_count == old(self).middleware_count,
            !final(self).started,
    {
        self.method(route, Method::Post, handler);
    }

    /// Register a handler for `PUT` requests under a route.
    pub fn put(&mut self, route: &Route, handler: H)
        requires
            !old(self).started,
            route.path.is_ascii(),
            spec_pattern_wf(spec_parse_pattern(route.path@)),
        ensures
            final(self).router.routes@.len() == old(self).router.routes@.len() + 1,
            final(self).router.routes@.last().method == Some(Method::Put),
            final(self).router.routes@.last().pattern@ == spec_parse_pattern(route.path@),
            final(self).router.routes@.last().handler == handler,
            final(self).middleware_count == old(self).middleware_count,
            !final(self).started,
    {
        self.method(route, Method::Put, handler);
    }

    /// Register a handler for `DELETE` requests under a route.
    pub fn delete(&mut self, route: &Route, handler: H)
        requires
            !old(self).started,
            route.path.is_ascii(),
            spec_pattern_wf(spec_parse_pattern(route.path@)),
        ensures
            final(self).router.routes@.len() == old(self).router.routes@.len() + 1,
            final(self).router.routes@.last().method == Some(Method::Delete),
            final(self).router.routes@.last().pattern@ == spec_parse_pattern(route.path@),
            final(self).router.routes@.last().handler == handler,
            final(self).middleware_count == old(self).middleware_count,
            !final(self).started,
    {
        self.method(route, Method::Delete, handler);
    }

    /// Register a handler for `OPTIONS` requests under a route.
    pub fn options(&mut self, route: &Route, handler: H)
        requires
            !old(self).started,
            route.path.is_ascii(),
            spec_pattern_wf(spec_parse_pattern(route.path@)),
        ensures
            final(self).router.routes@.len() == old(self).router.routes@.len() + 1,
            final(self).router.routes@.last().method == Some(Method::Options),
            final(self).router.routes@.last().pattern@ == spec_parse_pattern(route.path@),
            final(self).router.routes@.last().handler == handler,
            final(self).middleware_count == old(self).middleware_count,
            !final(self).started,
    {
        self.method(route, Method::Options, handler);
    }

    /// Register a handler for `CONNECT` requests under a route.
    pub fn connect(&mut self, route: &Route, handler: H)
        requires
            !old(self).started,
            route.path.is_ascii(),
            spec_pattern_wf(spec_parse_pattern(route.path@)),
        ensures
            final(self).router.routes@.len() == old(self).router.routes@.len() + 1,
            final(self).router.routes@.last().method == Some(Method::Connect),
            final(self).router.routes@.last().pattern@ == spec_parse_pattern(route.path@),
            final(self).router.routes@.last().handler == handler,
            final(self).middleware_count == old(self).middleware_count,
            !final(self).started,
    {
        self.method(route, Method::Connect, handler);
    }

    /// Register a handler for `PATCH` requests under a route.
    pub fn patch(&mut self, route: &Route, handler: H)
        requires
            !old(self).started,
            route.path.is_ascii(),
            spec_pattern_wf(spec_parse_pattern(route.path@)),
        ensures
            final(self).router.routes@.len() == old(self).router.routes@.len() + 1,
            final(self).router.routes@.last().method == Some(Method::Patch),
            final(self).router.routes@.last().pattern@ == spec_parse_pattern(route.path@),
            final(self).router.routes@.last().handler == handler,
            final(self).middleware_count == old(self).middleware_count,
            !final(self).started,
    {
        self.method(route, Method::Patch, handler);
    }

    /// Register a handler for `TRACE` requests under a route.
    pub fn trace(&mut self, route: &Route, handler: H)
        requires
            !old(self).started,
            route.path.is_ascii(),
            spec_pattern_wf(spec_parse_pattern(route.path@)),
        ensures
            final(self).router.routes@.len() == old(self).router.routes@.len() + 1,
            final(self).router.routes@.last().method == Some(Method::Trace),
            final(self).router.routes@.last().pattern@ == spec_parse_pattern(route.path@),
            final(self).router.routes@.last().handler == handler,
            final(self).middleware_count == old(self).middleware_count,
            !final(self).started,
    {
        self.method(route, Method::Trace, handler);
    }

    /// Mark the server as started: from here on, registration is refused.
    pub fn freeze(&mut self)
        ensures
            final(self).started,
            final(self).router == old(self).router,
            final(self).middleware_count == old(self).middleware_count,
    {
        self.started = true;
    }

    /// Resolve a request path and method against the registered routes.
    pub fn route(&self, path: &str, method: Method) -> (r: Selection)
        requires
            path.is_ascii(),
        ensures
            spec_route_ok(
                self.router.routes_view(),
                method,
                spec_split(path@),
                r.target,
                r.params@,
            ),
    {
        self.router.route(path, method)
    }

    /// The handler a selection's endpoint index points at.
    pub fn handler(&self, i: usize) -> (r: &H)
        requires
            i < self.router.routes@.len(),
        ensures
            r == &self.router.routes@[i as int].handler,
    {
        self.router.handler(i)
    }

    /// A dispatch cursor over the whole middleware chain.
    pub fn next(&self) -> (r: Next)
        ensures
            r.total == self.middleware_count,
            r.pos == 0,
            r.wf(),
    {
        Next::new(self.middleware_count)
    }
}

} // verus!

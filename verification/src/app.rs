//! The application builder, and what is done to a handler's response before
//! it is written: content negotiation and gzip encoding.

use vstd::prelude::*;
use std::io::Write;
use crate::fields::{value_of, with_entry};
use crate::request::{Request, RequestMethod};
use crate::response::{default_headers, Response};
use crate::route_matcher::{nodes_after, normalized, segments_of};
use crate::router::{RouteError, Router};
use crate::text::{
    chars_of, decimal_of, push_text, split, split_of, string_of, trim, trim_of, views,
};

verus! {

/// The gzip stream that the encoder of `flate2` writes for an input at its
/// default level.
pub uninterp spec fn gzip_of(input: Seq<u8>) -> Seq<u8>;

/// Runs a `flate2::write::GzEncoder` at the default level over the input:
/// `write_all`, `flush`, `finish`. Where the encoder reports no error, the
/// bytes returned are the stream named `gzip_of`; nothing is claimed of when
/// it reports one.
#[verifier::external_body]
fn compress(input: &[u8]) -> (r: Option<Vec<u8>>)
    ensures
        r matches Some(v) ==> v@ == gzip_of(input@),
{
    let mut encoder = flate2::write::GzEncoder::new(Vec::new(), flate2::Compression::default());
    encoder.write_all(input).ok()?;
    encoder.flush().ok()?;
    encoder.finish().ok()
}

/// Whether a token names gzip, in any ASCII case.
pub open spec fn is_gzip(t: Seq<char>) -> bool {
    &&& t.len() == 4
    &&& (t[0] == 'g' || t[0] == 'G')
    &&& (t[1] == 'z' || t[1] == 'Z')
    &&& (t[2] == 'i' || t[2] == 'I')
    &&& (t[3] == 'p' || t[3] == 'P')
}

/// The first of the tokens that, trimmed, names gzip.
pub open spec fn first_gzip(tokens: Seq<Seq<char>>) -> Option<Seq<char>>
    decreases tokens.len(),
{
    if tokens.len() == 0 {
        None
    } else if is_gzip(trim_of(tokens[0])) {
        Some(trim_of(tokens[0]))
    } else {
        first_gzip(tokens.drop_first())
    }
}

/// The encoding that an `Accept-Encoding` value admits: its first token
/// between commas that names gzip.
pub open spec fn accepted_of(value: Seq<char>) -> Option<Seq<char>> {
    first_gzip(split_of(value, ','))
}

/// The encoding that a request admits.
pub open spec fn negotiated_of(headers: Seq<(Seq<char>, Seq<char>)>) -> Option<Seq<char>> {
    match value_of(headers, "Accept-Encoding"@) {
        Some(v) => accepted_of(v),
        None => None,
    }
}

/// Whether a response is as `Response::new` makes it.
pub open spec fn is_fresh(r: Response) -> bool {
    &&& r.wf()
    &&& r.headers() == default_headers()
    &&& r.body() == Seq::<u8>::empty()
    &&& r.status() == 0
}

/// Whether `r` is `out` with the body `bytes`, marked as gzip.
pub open spec fn encoded_as(out: Response, bytes: Seq<u8>, r: Response) -> bool {
    &&& r.body() == bytes
    &&& r.status() == out.status()
    &&& r.headers() == with_entry(
        with_entry(out.headers(), "Content-Encoding"@, "gzip"@),
        "Content-Length"@,
        decimal_of(bytes.len()),
    )
}

/// The application under construction: the route table and the address to
/// listen on.
pub struct App<H> {
    router: Router<H>,
    port: u16,
    listen_ip: String,
}

fn token_is_gzip(t: &Vec<char>) -> (r: bool)
    ensures
        r == is_gzip(t@),
{
    t.len() == 4 && (t[0] == 'g' || t[0] == 'G') && (t[1] == 'z' || t[1] == 'Z') && (t[2] == 'i'
        || t[2] == 'I') && (t[3] == 'p' || t[3] == 'P')
}

/// Marks a response as gzip and gives it the compressed body; without
/// compressed bytes the response stays as it is.
pub fn apply_compression(response: Response, compressed: Option<Vec<u8>>) -> (r: Response)
    requires
        response.wf(),
    ensures
        r.wf(),
        compressed is None ==> r == response,
        compressed matches Some(bytes) ==> encoded_as(response, bytes@, r),
{
    match compressed {
        Some(bytes) => response.add_header("Content-Encoding", "gzip").set_body_bytes(
            bytes.as_slice(),
        ),
        None => response,
    }
}

/// What is served for a request that no route resolves: status 404 on a
/// fresh response.
pub open spec fn is_not_found(r: Response) -> bool {
    &&& r.wf()
    &&& r.status() == 404
    &&& r.headers() == default_headers()
    &&& r.body() == Seq::<u8>::empty()
}

/// Whether `r` answers the request `q` through the handler `h`: the
/// handler's outcome on a fresh response, as it is or gzip-encoded where the
/// request admits that.
pub open spec fn answers<F: Fn(&Request, Response) -> Response>(
    h: F,
    q: Request,
    r: Response,
) -> bool {
    exists|fresh: Response, out: Response|
        {
            &&& is_fresh(fresh)
            &&& #[trigger] h.ensures((&q, fresh), out)
            &&& (r == out || (negotiated_of(q.headers@) is Some && encoded_as(
                out,
                gzip_of(out.body()),
                r,
            )))
            &&& negotiated_of(q.headers@) is None ==> r == out
        }
}

/// Whether `r` is what the table serves for a request: the answer of the
/// handler that it resolves for the request's method and path, asked with
/// the path parameters filled in; a 404 where none resolves.
pub open spec fn is_served<H: Fn(&Request, Response) -> Response>(
    router: Router<H>,
    request: Request,
    r: Response,
) -> bool {
    match router.lookup(request.method, request.path@) {
        None => is_not_found(r),
        Some((h, params)) => exists|q: Request|
            {
                &&& q.path_params@ == params
                &&& q.method == request.method
                &&& q.path == request.path
                &&& q.headers == request.headers
                &&& q.body == request.body
                &&& #[trigger] answers(h, q, r)
            },
    }
}

/// Whether a handler can be called on every request with a fresh response,
/// and gives back a well-formed one.
pub open spec fn handler_ready<F: Fn(&Request, Response) -> Response>(h: F) -> bool {
    &&& forall|q: Request, fresh: Response|
        q.wf() && is_fresh(fresh) ==> #[trigger] h.requires((&q, fresh))
    &&& forall|q: Request, fresh: Response, out: Response| #[trigger]
        h.ensures((&q, fresh), out) ==> out.wf()
}

/// Answers one request: the response of the handler that the table resolves
/// for the request's method and path, called with the path parameters filled
/// in; a 404 where none resolves.
pub fn serve<H: Fn(&Request, Response) -> Response>(router: &Router<H>, request: Request) -> (r:
    Response)
    requires
        router.wf(),
        request.wf(),
        forall|i: int|
            0 <= i < router.routes().len() ==> handler_ready(
                (#[trigger] router.routes()[i]).handler,
            ),
        router.index_handler() matches Some(h) ==> handler_ready(h),
    ensures
        r.wf(),
        is_served(*router, request, r),
{
    match router.get_handler(&request.method, request.path.as_str()) {
        Some((handler, params)) => {
            let ghost found = params@;
            let mut q = request;
            q.path_params = params;
            let ghost asked = q;
            let r = App::<H>::get_response(q, handler);
            proof {
                let pair = router.lookup(request.method, request.path@).unwrap();
                assert(pair.0 == *handler && pair.1 == found);
                assert(answers(pair.0, asked, r));
            }
            r
        },
        None => Response::new().set_status(404),
    }
}

impl<H> App<H> {
    /// The invariant: that of the route table.
    pub closed spec fn wf(&self) -> bool {
        self.router.wf()
    }

    /// The route table.
    pub closed spec fn table(&self) -> Router<H> {
        self.router
    }

    /// The port to listen on.
    pub closed spec fn port_of(&self) -> u16 {
        self.port
    }

    /// The address to listen on.
    pub closed spec fn ip_of(&self) -> Seq<char> {
        self.listen_ip@
    }

    /// An application without routes, for port 0 on every address.
    pub fn new() -> (r: App<H>)
        ensures
            r.wf(),
            r.port_of() == 0,
            r.ip_of() == "0.0.0.0"@,
            r.table().routes().len() == 0,
            r.table().index_handler() is None,
    {
        App { router: Router::new(), port: 0, listen_ip: "0.0.0.0".to_owned() }
    }

    /// The encoding that an `Accept-Encoding` value admits, as the request
    /// wrote it.
    pub fn is_compression_supported(compression_str: &str) -> (r: Option<String>)
        ensures
            r is Some == accepted_of(compression_str@) is Some,
            r matches Some(t) ==> Some(t@) == accepted_of(compression_str@),
    {
        let tokens = split(&chars_of(compression_str), ',');
        let mut i: usize = 0;
        proof {
            assert(views(tokens@).subrange(0, tokens@.len() as int) =~= views(tokens@));
        }
        while i < tokens.len()
            invariant
                i <= tokens@.len(),
                accepted_of(compression_str@) == first_gzip(
                    views(tokens@).subrange(i as int, tokens@.len() as int),
                ),
            decreases tokens@.len() - i,
        {
            let ghost here = views(tokens@).subrange(i as int, tokens@.len() as int);
            proof {
                assert(here.drop_first() =~= views(tokens@).subrange(
                    i + 1,
                    tokens@.len() as int,
                ));
                assert(here[0] == tokens@[i as int]@);
            }
            let t = trim(&tokens[i]);
            if token_is_gzip(&t) {
                return Some(string_of(&t));
            }
            i += 1;
        }
        None
    }

    /// Runs the handler on the request and a fresh response, and gzips the
    /// outcome where the request admits it; where the encoder fails the
    /// outcome is returned as it is.
    pub fn get_response<F>(request: Request, handler: F) -> (r: Response) where
        F: Fn(&Request, Response) -> Response,

        requires
            request.wf(),
            forall|fresh: Response|
                is_fresh(fresh) ==> #[trigger] handler.requires((&request, fresh)),
            forall|fresh: Response, out: Response| #[trigger]
                handler.ensures((&request, fresh), out) ==> out.wf(),
        ensures
            r.wf(),
            answers(handler, request, r),
    {
        let compression = match request.headers.get("Accept-Encoding") {
            Some(v) => Self::is_compression_supported(v.as_str()),
            None => None,
        };
        let fresh = Response::new();
        let ghost given = fresh;
        proof {
            assert(is_fresh(fresh));
        }
        let response = handler(&request, fresh);
        let ghost out = response;
        let r = match compression {
            Some(_) => {
                let compressed = compress(response.get_body().as_slice());
                apply_compression(response, compressed)
            },
            None => response,
        };
        proof {
            assert(is_fresh(given) && handler.ensures((&request, given), out));
        }
        r
    }

    /// Sets the address to listen on.
    pub fn set_listen_ip(self, ip: &str) -> (r: App<H>)
        ensures
            r.ip_of() == ip@,
            r.port_of() == self.port_of(),
            r.table() == self.table(),
            r.wf() == self.wf(),
    {
        let mut r = self;
        r.listen_ip = ip.to_owned();
        r
    }

    /// Sets the port to listen on.
    pub fn set_port(self, port: u16) -> (r: App<H>)
        ensures
            r.port_of() == port,
            r.ip_of() == self.ip_of(),
            r.table() == self.table(),
            r.wf() == self.wf(),
    {
        let mut r = self;
        r.port = port;
        r
    }

    /// The address to listen on.
    pub fn listen_ip(&self) -> (r: &String)
        ensures
            r@ == self.ip_of(),
    {
        &self.listen_ip
    }

    /// The port to listen on.
    pub fn port(&self) -> (r: u16)
        ensures
            r == self.port_of(),
    {
        self.port
    }

    /// The route table, for serving.
    pub fn into_router(self) -> (r: Router<H>)
        ensures
            r == self.table(),
            r.wf() == self.wf(),
    {
        self.router
    }

    /// Binds a handler to the root path.
    pub fn index(self, handler: H) -> (r: App<H>)
        requires
            self.wf(),
        ensures
            r.wf(),
            r.table().index_handler() == Some(handler),
            r.table().routes() == self.table().routes(),
            forall|m: RequestMethod| #[trigger] r.table().trie(m) == self.table().trie(m),
            r.port_of() == self.port_of(),
            r.ip_of() == self.ip_of(),
    {
        let mut r = self;
        r.router.index(handler);
        r
    }

    fn register(self, method: RequestMethod, path: &str, handler: H) -> (r: Result<
        App<H>,
        RouteError,
    >)
        requires
            self.wf(),
        ensures
            Self::registered(self, method, path@, handler, r),
    {
        let mut r = self;
        match r.router.route(method, path, handler) {
            Ok(()) => Ok(r),
            Err(e) => Err(e),
        }
    }

    /// What registering a handler gives: the duplicate-route error where the
    /// method's trie already resolves the pattern, else the application with
    /// the route added at the end of its table.
    pub open spec fn registered(
        before: App<H>,
        method: RequestMethod,
        path: Seq<char>,
        handler: H,
        r: Result<App<H>, RouteError>,
    ) -> bool {
        if before.table().trie(method).match_of(normalized(path)) is Some {
            r == Err::<App<H>, RouteError>(RouteError::DuplicateRoute)
        } else {
            &&& r matches Ok(a)
            &&& a.wf()
            &&& a.port_of() == before.port_of()
            &&& a.ip_of() == before.ip_of()
            &&& a.table().index_handler() == before.table().index_handler()
            &&& a.table().routes().drop_last() == before.table().routes()
            &&& a.table().routes().len() == before.table().routes().len() + 1
            &&& a.table().routes().last().method == method
            &&& a.table().routes().last().pattern@ == normalized(path)
            &&& a.table().routes().last().handler == handler
            &&& nodes_after(
                before.table().trie(method).children@,
                a.table().trie(method).children@,
                segments_of(normalized(path)),
                normalized(path),
            )
            &&& forall|m: RequestMethod|
                m != method ==> #[trigger] a.table().trie(m) == before.table().trie(m)
        }
    }

    /// Registers a handler for `GET` requests.
    pub fn get(self, path: &str, handler: H) -> (r: Result<App<H>, RouteError>)
        requires
            self.wf(),
        ensures
            Self::registered(self, RequestMethod::Get, path@, handler, r),
    {
        self.register(RequestMethod::Get, path, handler)
    }

    /// Registers a handler for `POST` requests.
    pub fn post(self, path: &str, handler: H) -> (r: Result<App<H>, RouteError>)
        requires
            self.wf(),
        ensures
            Self::registered(self, RequestMethod::Post, path@, handler, r),
    {
        self.register(RequestMethod::Post, path, handler)
    }

    /// Registers a handler for `PUT` requests.
    pub fn put(self, path: &str, handler: H) -> (r: Result<App<H>, RouteError>)
        requires
            self.wf(),
        ensures
            Self::registered(self, RequestMethod::Put, path@, handler, r),
    {
        self.register(RequestMethod::Put, path, handler)
    }

    /// Registers a handler for `DELETE` requests.
    pub fn delete(self, path: &str, handler: H) -> (r: Result<App<H>, RouteError>)
        requires
            self.wf(),
        ensures
            Self::registered(self, RequestMethod::Delete, path@, handler, r),
    {
        self.register(RequestMethod::Delete, path, handler)
    }

    /// Registers a handler for `PATCH` requests.
    pub fn patch(self, path: &str, handler: H) -> (r: Result<App<H>, RouteError>)
        requires
            self.wf(),
        ensures
            Self::registered(self, RequestMethod::Patch, path@, handler, r),
    {
        self.register(RequestMethod::Patch, path, handler)
    }

    /// Registers a handler for `OPTIONS` requests.
    pub fn options(self, path: &str, handler: H) -> (r: Result<App<H>, RouteError>)
        requires
            self.wf(),
        ensures
            Self::registered(self, RequestMethod::Options, path@, handler, r),
    {
        self.register(RequestMethod::Options, path, handler)
    }

    /// Registers a handler for `GET` requests on everything under
    /// `pathname`: the wildcard pattern `pathname/*`.
    pub fn static_folder(self, pathname: &str, handler: H) -> (r: Result<App<H>, RouteError>)
        requires
            self.wf(),
        ensures
            Self::registered(self, RequestMethod::Get, pathname@ + "/*"@, handler, r),
    {
        let mut pattern = chars_of(pathname);
        push_text(&mut pattern, "/*");
        let pattern = string_of(&pattern);
        self.register(RequestMethod::Get, pattern.as_str(), handler)
    }
}

impl<H> Default for App<H> {
    /// An application without routes, for port 0 on every address.
    fn default() -> (r: App<H>)
        ensures
            r.wf(),
            r.port_of() == 0,
            r.ip_of() == "0.0.0.0"@,
            r.table().routes().len() == 0,
            r.table().index_handler() is None,
    {
        App::new()
    }
}

} // verus!

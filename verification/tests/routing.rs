use rthttp::app::{apply_compression, serve, App};
use rthttp::request::{Request, RequestMethod};
use rthttp::response::Response;
use rthttp::router::{RouteError, Router};
use std::io::Read;

type Handler = fn(&Request, Response) -> Response;

fn echo(request: &Request, response: Response) -> Response {
    response
        .set_status(200)
        .set_body(request.path_params.get("fruit").unwrap())
}

fn hello(_request: &Request, response: Response) -> Response {
    response.set_status(200).set_body("hello hello hello hello hello")
}

fn gunzip(bytes: &[u8]) -> Vec<u8> {
    let mut out = Vec::new();
    flate2::read::GzDecoder::new(bytes)
        .read_to_end(&mut out)
        .unwrap();
    out
}

#[test]
fn duplicate_route_is_refused_and_changes_nothing() {
    let mut router: Router<u32> = Router::new();
    assert_eq!(router.route(RequestMethod::Get, "/a/:b", 1), Ok(()));
    assert_eq!(
        router.route(RequestMethod::Get, "/a/:b", 2),
        Err(RouteError::DuplicateRoute)
    );
    assert_eq!(
        router.route(RequestMethod::Get, "  /A/:B ", 3),
        Err(RouteError::DuplicateRoute)
    );
    let (h, params) = router.get_handler(&RequestMethod::Get, "/a/x").unwrap();
    assert_eq!(*h, 1);
    assert_eq!(params.get("b"), Some(&"x".to_string()));
    assert_eq!(router.route(RequestMethod::Post, "/a/:b", 4), Ok(()));
    assert_eq!(*router.get_handler(&RequestMethod::Post, "/a/x").unwrap().0, 4);
    assert!(router.get_handler(&RequestMethod::Put, "/a/x").is_none());
}

#[test]
fn pattern_shadowed_by_a_parameter_counts_as_duplicate() {
    let mut router: Router<u32> = Router::new();
    assert_eq!(router.route(RequestMethod::Get, "/fruit/:name", 1), Ok(()));
    assert_eq!(
        router.route(RequestMethod::Get, "/fruit/apple", 2),
        Err(RouteError::DuplicateRoute)
    );
    let mut router: Router<u32> = Router::new();
    assert_eq!(router.route(RequestMethod::Get, "/fruit/apple", 2), Ok(()));
    assert_eq!(router.route(RequestMethod::Get, "/fruit/:name", 1), Ok(()));
    assert_eq!(*router.get_handler(&RequestMethod::Get, "/fruit/apple").unwrap().0, 2);
    assert_eq!(*router.get_handler(&RequestMethod::Get, "/fruit/kiwi").unwrap().0, 1);
}

#[test]
fn handler_is_found_under_the_normalized_pattern() {
    let mut router: Router<u32> = Router::new();
    assert_eq!(router.route(RequestMethod::Get, "  /Users/:ID ", 9), Ok(()));
    let (h, params) = router.get_handler(&RequestMethod::Get, "/users/42").unwrap();
    assert_eq!(*h, 9);
    assert_eq!(params.get("id"), Some(&"42".to_string()));
}

#[test]
fn root_path_matches_only_when_bound() {
    let mut router: Router<u32> = Router::new();
    assert_eq!(router.route(RequestMethod::Get, "/path", 1), Ok(()));
    assert!(router.get_handler(&RequestMethod::Get, "/").is_none());
    router.index(5);
    let (h, params) = router.get_handler(&RequestMethod::Get, "/").unwrap();
    assert_eq!(*h, 5);
    assert_eq!(params.len(), 0);
    assert_eq!(*router.get_handler(&RequestMethod::Post, "/").unwrap().0, 5);
    let mut router: Router<u32> = Router::new();
    assert_eq!(router.route(RequestMethod::Get, "/", 7), Ok(()));
    assert_eq!(*router.get_handler(&RequestMethod::Get, "/").unwrap().0, 7);
    assert!(router.get_handler(&RequestMethod::Post, "/").is_none());
}

#[test]
fn echo_route_answers_with_the_parameter() {
    let app: App<Handler> = App::new().get("/echo/:fruit", echo as Handler).unwrap();
    let router = app.into_router();
    let request = Request::parse("GET /echo/mango HTTP/1.1\r\nHost: x\r\n", b"").unwrap();
    let response = serve(&router, request);
    assert_eq!(response.get_status(), 200);
    assert_eq!(response.get_body(), &b"mango".to_vec());
    assert_eq!(response.get_header("Content-Encoding"), None);
    assert_eq!(
        response.build(),
        b"HTTP/1.1 200 OK\r\nContent-Type: text/plain\r\nContent-Length: 5\r\n\r\nmango".to_vec()
    );
}

#[test]
fn gzip_is_applied_when_accepted() {
    let app: App<Handler> = App::new().get("/hello", hello as Handler).unwrap();
    let router = app.into_router();
    let head = "GET /hello HTTP/1.1\r\nAccept-Encoding: gzip, deflate\r\n";
    let response = serve(&router, Request::parse(head, b"").unwrap());
    assert_eq!(response.get_status(), 200);
    assert_eq!(response.get_header("Content-Encoding"), Some(&"gzip".to_string()));
    let body = response.get_body().clone();
    assert_ne!(body, b"hello hello hello hello hello".to_vec());
    assert_eq!(&body[..2], &[0x1fu8, 0x8bu8]);
    assert_eq!(
        response.get_header("Content-Length"),
        Some(&body.len().to_string())
    );
    assert_eq!(gunzip(&body), b"hello hello hello hello hello".to_vec());
}

#[test]
fn gzip_is_not_applied_when_not_accepted() {
    let request = Request::parse("GET /hello HTTP/1.1\r\nAccept-Encoding: br, deflate\r\n", b"")
        .unwrap();
    let response = App::<Handler>::get_response(request, hello);
    assert_eq!(response.get_header("Content-Encoding"), None);
    assert_eq!(response.get_body(), &b"hello hello hello hello hello".to_vec());
}

#[test]
fn unregistered_path_gives_404() {
    let app: App<Handler> = App::new().get("/hello", hello as Handler).unwrap();
    let router = app.into_router();
    let response = serve(&router, Request::parse("GET /nope HTTP/1.1\r\n", b"").unwrap());
    assert_eq!(response.get_status(), 404);
    assert!(response.get_body().is_empty());
    assert_eq!(
        response.build(),
        b"HTTP/1.1 404 Not Found\r\nContent-Type: text/plain\r\n\r\n".to_vec()
    );
    let response = serve(&router, Request::parse("POST /hello HTTP/1.1\r\n", b"").unwrap());
    assert_eq!(response.get_status(), 404);
    let response = serve(&router, Request::parse("BREW /hello HTTP/1.1\r\n", b"").unwrap());
    assert_eq!(response.get_status(), 404);
}

#[test]
fn negotiation_finds_gzip_in_any_case() {
    assert_eq!(App::<Handler>::is_compression_supported("gzip"), Some("gzip".to_string()));
    assert_eq!(
        App::<Handler>::is_compression_supported("deflate ,  GZip ,br"),
        Some("GZip".to_string())
    );
    assert_eq!(App::<Handler>::is_compression_supported("deflate, br"), None);
    assert_eq!(App::<Handler>::is_compression_supported(""), None);
    assert_eq!(App::<Handler>::is_compression_supported("gzip;q=1.0"), None);
    assert_eq!(App::<Handler>::is_compression_supported("xgzip"), None);
}

#[test]
fn apply_compression_marks_the_response() {
    let r = apply_compression(Response::new().set_body("abc"), Some(vec![1u8, 2u8]));
    assert_eq!(r.get_header("Content-Encoding"), Some(&"gzip".to_string()));
    assert_eq!(r.get_header("Content-Length"), Some(&"2".to_string()));
    assert_eq!(r.get_body(), &vec![1u8, 2u8]);
    let r = apply_compression(Response::new().set_body("abc"), None);
    assert_eq!(r.get_header("Content-Encoding"), None);
    assert_eq!(r.get_body(), &b"abc".to_vec());
}

#[test]
fn builder_keeps_address_and_registers_by_method() {
    let app: App<u32> = App::new();
    assert_eq!(app.listen_ip(), "0.0.0.0");
    assert_eq!(app.port(), 0);
    let app = app
        .set_listen_ip("127.0.0.1")
        .set_port(4221)
        .index(0)
        .get("/r", 1)
        .unwrap()
        .post("/r", 2)
        .unwrap()
        .put("/r", 3)
        .unwrap()
        .delete("/r", 4)
        .unwrap()
        .patch("/r", 5)
        .unwrap()
        .options("/r", 6)
        .unwrap()
        .static_folder("/static", 7)
        .unwrap();
    assert_eq!(app.listen_ip(), "127.0.0.1");
    assert_eq!(app.port(), 4221);
    let app = match app.get("/r", 8) {
        Err(e) => {
            assert_eq!(e, RouteError::DuplicateRoute);
            return;
        }
        Ok(app) => app,
    };
    let _ = app;
    unreachable!();
}

#[test]
fn builder_routes_reach_their_handlers() {
    let app: App<u32> = App::new()
        .get("/r", 1)
        .unwrap()
        .post("/r", 2)
        .unwrap()
        .put("/r", 3)
        .unwrap()
        .delete("/r", 4)
        .unwrap()
        .patch("/r", 5)
        .unwrap()
        .options("/r", 6)
        .unwrap()
        .static_folder("/static", 7)
        .unwrap();
    let router = app.into_router();
    let methods = [
        (RequestMethod::Get, 1),
        (RequestMethod::Post, 2),
        (RequestMethod::Put, 3),
        (RequestMethod::Delete, 4),
        (RequestMethod::Patch, 5),
        (RequestMethod::Options, 6),
    ];
    for (m, h) in methods {
        assert_eq!(*router.get_handler(&m, "/r").unwrap().0, h);
    }
    assert_eq!(*router.get_handler(&RequestMethod::Get, "/static/a/b.png").unwrap().0, 7);
    assert_eq!(*router.get_handler(&RequestMethod::Get, "/static").unwrap().0, 7);
    assert!(router.get_handler(&RequestMethod::Post, "/static/a").is_none());
}

#[test]
fn default_values_are_the_empty_ones() {
    let router: Router<u32> = Router::default();
    assert!(router.get_handler(&RequestMethod::Get, "/").is_none());
    let app: App<u32> = App::default();
    assert_eq!(app.port(), 0);
    assert_eq!(app.listen_ip(), "0.0.0.0");
    let node = rthttp::route_matcher::Node::default();
    assert_eq!(node.children.len(), 0);
    assert_eq!(node.value, "");
}

#[test]
fn empty_pattern_registers_nothing_and_is_never_refused() {
    let mut router: Router<u32> = Router::new();
    assert_eq!(router.route(RequestMethod::Get, "", 1), Ok(()));
    assert_eq!(router.route(RequestMethod::Get, "   ", 2), Ok(()));
    assert!(router.get_handler(&RequestMethod::Get, "").is_none());
}

#[test]
fn wildcard_shadows_later_patterns_below_it() {
    let mut router: Router<u32> = Router::new();
    assert_eq!(router.route(RequestMethod::Get, "/static/*", 1), Ok(()));
    assert_eq!(
        router.route(RequestMethod::Get, "/static/x", 2),
        Err(RouteError::DuplicateRoute)
    );
    assert_eq!(router.route(RequestMethod::Get, "/static", 3), Err(RouteError::DuplicateRoute));
}

#[test]
fn handler_sees_the_request_it_was_asked_with() {
    fn agent(request: &Request, response: Response) -> Response {
        match request.headers.get("User-Agent") {
            Some(v) => response.set_status(200).set_body(v),
            None => response.set_status(200),
        }
    }
    let app: App<Handler> = App::new().get("user-agent", agent as Handler).unwrap();
    let router = app.into_router();
    let head = "GET /user-agent HTTP/1.1\r\nUser-Agent: curl/8\r\n";
    let response = serve(&router, Request::parse(head, b"").unwrap());
    assert_eq!(response.get_body(), &b"curl/8".to_vec());
}

use rthttp::request::{Request, RequestError, RequestMethod};
use rthttp::text::{
    char_is_space, chars_of, decimal, parse_length, split, split_lines, string_of, trim,
};

#[test]
fn parses_request_line_and_headers() {
    let head = "GET /echo/mango HTTP/1.1\r\nHost: x\r\nUser-Agent:  curl/8 \r\n";
    let r = Request::parse(head, b"").unwrap();
    assert_eq!(r.method, RequestMethod::Get);
    assert_eq!(r.path, "/echo/mango");
    assert_eq!(r.headers.len(), 2);
    assert_eq!(r.headers.get("Host"), Some(&"x".to_string()));
    assert_eq!(r.headers.get("User-Agent"), Some(&"curl/8".to_string()));
    assert!(r.body.is_empty());
    assert_eq!(r.path_params.len(), 0);
}

#[test]
fn header_value_keeps_later_colons() {
    let r = Request::parse_head("GET / HTTP/1.1\r\nHost: localhost:8080\r\n");
    assert_eq!(r.headers.get("Host"), Some(&"localhost:8080".to_string()));
}

#[test]
fn last_header_of_a_name_wins_and_names_are_case_sensitive() {
    let r = Request::parse_head("GET / HTTP/1.1\r\nA: 1\r\na: 2\r\nA: 3\r\nnocolon\r\n\r\n");
    assert_eq!(r.headers.len(), 2);
    assert_eq!(r.headers.get("A"), Some(&"3".to_string()));
    assert_eq!(r.headers.get("a"), Some(&"2".to_string()));
}

#[test]
fn reads_exactly_the_declared_body() {
    let head = "POST /files/a HTTP/1.1\r\nContent-Length: 5\r\n";
    let r = Request::parse(head, b"hello world").unwrap();
    assert_eq!(r.method, RequestMethod::Post);
    assert_eq!(r.body, b"hello".to_vec());
    assert_eq!(Request::parse_head(head).declared_length(), Ok(5));
}

#[test]
fn short_body_is_incomplete() {
    let head = "POST /files/a HTTP/1.1\r\nContent-Length: 5\r\n";
    assert_eq!(Request::parse(head, b"hell").err(), Some(RequestError::Incomplete));
}

#[test]
fn non_numeric_content_length_is_rejected() {
    for bad in ["abc", "", "-1", "1 2", "99999999999999999999999999", "+"] {
        let head = format!("POST / HTTP/1.1\r\nContent-Length: {}x\r\n", bad);
        assert_eq!(Request::parse(&head, b"").err(), Some(RequestError::BadLength));
    }
    let head = "POST / HTTP/1.1\r\nContent-Length: -1\r\n";
    assert_eq!(Request::parse(head, b"").err(), Some(RequestError::BadLength));
}

#[test]
fn methods_map_from_their_verbs() {
    let cases = [
        ("GET", RequestMethod::Get),
        ("POST", RequestMethod::Post),
        ("PUT", RequestMethod::Put),
        ("DELETE", RequestMethod::Delete),
        ("PATCH", RequestMethod::Patch),
        ("OPTIONS", RequestMethod::Options),
        ("UNKNOWN", RequestMethod::Unknown),
    ];
    for (verb, method) in cases {
        assert_eq!(RequestMethod::from_token(verb), method);
        assert_eq!(method.name(), verb);
    }
    assert_eq!(RequestMethod::from_token("get"), RequestMethod::Unknown);
    assert_eq!(RequestMethod::from_token("BREW"), RequestMethod::Unknown);
    assert_eq!(RequestMethod::from_token(""), RequestMethod::Unknown);
    assert_eq!(RequestMethod::Patch.slot(), 4);
}

#[test]
fn missing_request_line_gives_unknown_method() {
    let r = Request::parse_head("");
    assert_eq!(r.method, RequestMethod::Unknown);
    assert_eq!(r.path, "");
    let r = Request::parse_head("GET\r\nHost: x\r\n");
    assert_eq!(r.method, RequestMethod::Unknown);
    assert_eq!(r.path, "");
    assert_eq!(r.headers.get("Host"), Some(&"x".to_string()));
}

#[test]
fn lengths_parse_as_decimal() {
    assert_eq!(parse_length("0"), Some(0));
    assert_eq!(parse_length("+42"), Some(42));
    assert_eq!(parse_length("007"), Some(7));
    assert_eq!(parse_length("18446744073709551615"), Some(18446744073709551615));
    assert_eq!(parse_length("18446744073709551616"), None);
    assert_eq!(parse_length(" 1"), None);
    assert_eq!(parse_length("1a"), None);
    assert_eq!(parse_length(""), None);
    for s in ["0", "+42", "007", "x", "", "+", "12 ", "٣"] {
        assert_eq!(parse_length(s), s.parse::<usize>().ok());
    }
}

#[test]
fn numbers_are_written_in_decimal() {
    for n in [0usize, 7, 10, 99, 100, 65535, 18446744073709551615] {
        assert_eq!(string_of(&decimal(n)), n.to_string());
    }
}

#[test]
fn trim_agrees_with_the_standard_library() {
    for s in ["", " ", "  a b \t\r\n", "\u{a0}x\u{3000}", "x", " \u{85}é "] {
        assert_eq!(string_of(&trim(&chars_of(s))), s.trim());
    }
}

#[test]
fn split_agrees_with_the_standard_library() {
    for s in ["", "/", "a", "/a/b", "a//b/", "///"] {
        let ours: Vec<String> = split(&chars_of(s), '/').iter().map(string_of).collect();
        let theirs: Vec<String> = s.split('/').map(|p| p.to_string()).collect();
        assert_eq!(ours, theirs);
    }
}

#[test]
fn whitespace_agrees_with_the_standard_library() {
    for n in 0u32..=0x10ffff {
        if let Some(c) = char::from_u32(n) {
            assert_eq!(char_is_space(c), c.is_whitespace(), "U+{:04X}", n);
        }
    }
}

#[test]
fn lines_end_with_carriage_return_and_line_feed() {
    for s in ["", "a", "a\r\n", "a\r\nb", "\r\n\r\n", "a\nb\r\n", "a\r\r\nb", "a\rb\n\r\n", "\r"] {
        let ours: Vec<String> = split_lines(&chars_of(s)).iter().map(string_of).collect();
        let theirs: Vec<String> = s.split("\r\n").map(|p| p.to_string()).collect();
        assert_eq!(ours, theirs);
    }
}

#[test]
fn bare_line_feed_does_not_end_a_line() {
    let r = Request::parse_head("GET /a HTTP/1.1\nHost: x\r\nAccept: y\r\n");
    assert_eq!(r.method, RequestMethod::Get);
    assert_eq!(r.path, "/a");
    assert_eq!(r.headers.len(), 1);
    assert_eq!(r.headers.get("Accept"), Some(&"y".to_string()));
    assert_eq!(r.headers.get("Host"), None);
}

#[test]
fn content_length_name_is_case_sensitive() {
    let r = Request::parse("POST / HTTP/1.1\r\ncontent-length: 3\r\n", b"abc").unwrap();
    assert!(r.body.is_empty());
    assert_eq!(r.declared_length(), Ok(0));
}

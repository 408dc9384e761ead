use rthttp::response::Response;

#[test]
fn new_response_has_default_content_type() {
    let r = Response::new();
    assert_eq!(r.get_header("Content-Type"), Some(&"text/plain".to_string()));
    assert_eq!(r.get_header("Content-Length"), None);
    assert_eq!(r.get_status(), 0);
    assert!(r.get_body().is_empty());
}

#[test]
fn set_body_sets_content_length() {
    let r = Response::new().set_body("x");
    assert_eq!(r.get_header("Content-Length"), Some(&"1".to_string()));
    assert_eq!(r.get_body(), &b"x".to_vec());
    let built = r.set_status(200).build();
    assert_eq!(
        built,
        b"HTTP/1.1 200 OK\r\nContent-Type: text/plain\r\nContent-Length: 1\r\n\r\nx".to_vec()
    );
}

#[test]
fn set_body_twice_keeps_the_latest() {
    let r = Response::new().set_body("first body").set_body("xy");
    assert_eq!(r.get_header("Content-Length"), Some(&"2".to_string()));
    assert_eq!(r.get_body(), &b"xy".to_vec());
    let r = r.set_body_bytes(&[0u8; 123]);
    assert_eq!(r.get_header("Content-Length"), Some(&"123".to_string()));
    assert_eq!(r.get_body().len(), 123);
}

#[test]
fn content_length_counts_bytes_not_characters() {
    let r = Response::new().set_body("é");
    assert_eq!(r.get_header("Content-Length"), Some(&"2".to_string()));
    assert_eq!(r.get_body(), &vec![0xc3u8, 0xa9u8]);
}

#[test]
fn build_writes_known_reason_phrases() {
    let cases: [(u16, &str); 5] = [
        (200, "200 OK"),
        (201, "201 Created"),
        (401, "401 Access Denied"),
        (404, "404 Not Found"),
        (500, "500 Internal Server Error"),
    ];
    for (code, line) in cases {
        let built = Response::new().set_status(code).build();
        let expected = format!("HTTP/1.1 {}\r\nContent-Type: text/plain\r\n\r\n", line);
        assert_eq!(built, expected.into_bytes());
    }
}

#[test]
fn build_keeps_the_numeral_of_an_unknown_code() {
    let built = Response::new().set_status(409).build();
    assert_eq!(
        built,
        b"HTTP/1.1 409 Unknown\r\nContent-Type: text/plain\r\n\r\n".to_vec()
    );
    let built = Response::new().build();
    assert!(built.starts_with(b"HTTP/1.1 0 Unknown\r\n"));
    let built = Response::new().set_status(65535).build();
    assert!(built.starts_with(b"HTTP/1.1 65535 Unknown\r\n"));
}

#[test]
fn add_header_replaces_in_place() {
    let r = Response::new()
        .add_header("X-A", "1")
        .add_header("Content-Type", "text/html")
        .add_header("X-A", "2");
    assert_eq!(r.get_header("Content-Type"), Some(&"text/html".to_string()));
    assert_eq!(r.get_header("X-A"), Some(&"2".to_string()));
    assert_eq!(
        r.set_status(200).build(),
        b"HTTP/1.1 200 OK\r\nContent-Type: text/html\r\nX-A: 2\r\n\r\n".to_vec()
    );
}

#[test]
fn body_bytes_follow_the_blank_line() {
    let built = Response::new()
        .set_status(200)
        .set_body_bytes(&[0u8, 255u8, 13u8, 10u8])
        .build();
    assert!(built.ends_with(&[b'\r', b'\n', b'\r', b'\n', 0u8, 255u8, 13u8, 10u8]));
}

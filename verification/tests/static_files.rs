use rthttp::response::Response;
use rthttp::static_files::{content_type, reads_as_text, resource, static_response, FileProbe};

#[test]
fn resource_strips_root_and_slash() {
    assert_eq!(resource("/static", "/static/a/b.png"), "a/b.png");
    assert_eq!(resource("/static", "/static"), "index.html");
    assert_eq!(resource("/static", "/static/"), "index.html");
    assert_eq!(resource("/static", "/static//"), "index.html");
    assert_eq!(resource("/static", "/other/x.css"), "other/x.css");
    assert_eq!(resource("/static", "x.css"), "x.css");
    assert_eq!(resource("", ""), "index.html");
}

#[test]
fn content_types_follow_the_extension() {
    let cases = [
        ("css", "text/css"),
        ("js", "text/javascript"),
        ("htm", "text/html"),
        ("html", "text/html"),
        ("xml", "text/xml"),
        ("jpg", "image/jpeg"),
        ("png", "image/png"),
        ("gif", "image/gif"),
        ("webp", "image/webp"),
        ("avif", "image/avif"),
        ("svg", "image/svg+xml"),
        ("ico", "image/vnd.microsoft.icon"),
        ("bin", "application/octet-stream"),
        ("CSS", "application/octet-stream"),
    ];
    for (ext, kind) in cases {
        assert_eq!(content_type(Some(ext)), kind);
    }
    assert_eq!(content_type(None), "application/octed-stream");
    assert!(reads_as_text("text/css"));
    assert!(reads_as_text("text/html"));
    assert!(reads_as_text("text/xml"));
    assert!(reads_as_text("text/svg+xml"));
    assert!(!reads_as_text("text/javascript"));
    assert!(!reads_as_text("image/svg+xml"));
}

#[test]
fn probes_map_to_statuses() {
    let r = static_response(Response::new(), "", FileProbe::NoFolder);
    assert_eq!((r.get_status(), r.get_body().clone()), (404, b"Not Found".to_vec()));
    let r = static_response(Response::new(), "", FileProbe::FolderNotDirectory);
    assert_eq!(
        (r.get_status(), r.get_body().clone()),
        (409, b"Resource type conflict".to_vec())
    );
    let r = static_response(Response::new(), "", FileProbe::NoResource);
    assert_eq!((r.get_status(), r.get_body().clone()), (404, b"Not Found".to_vec()));
    assert_eq!(r.get_header("Content-Type"), Some(&"text/plain".to_string()));
    let r = static_response(Response::new(), "", FileProbe::ResourceNotFile);
    assert_eq!(
        (r.get_status(), r.get_body().clone()),
        (409, b"Invalid resource requested".to_vec())
    );
    let r = static_response(Response::new(), "text/css", FileProbe::Unreadable("denied".into()));
    assert_eq!((r.get_status(), r.get_body().clone()), (500, b"denied".to_vec()));
    let r = static_response(Response::new(), "text/css", FileProbe::Text("a{}".into()));
    assert_eq!((r.get_status(), r.get_body().clone()), (200, b"a{}".to_vec()));
    assert_eq!(r.get_header("Content-Type"), Some(&"text/css".to_string()));
    assert_eq!(r.get_header("Content-Length"), Some(&"3".to_string()));
    let r = static_response(Response::new(), "image/png", FileProbe::Bytes(vec![1u8, 2u8]));
    assert_eq!((r.get_status(), r.get_body().clone()), (200, vec![1u8, 2u8]));
    assert_eq!(r.get_header("Content-Type"), Some(&"image/png".to_string()));
}

//! What serving a folder decides without touching the disk: which file a
//! request path names, its content type, and the response for each outcome
//! of looking the file up.

use vstd::prelude::*;
use vstd::utf8::encode_utf8;
use crate::fields::with_entry;
use crate::response::Response;
use crate::text::{chars_of, decimal_of, slice_of, string_of, text_eq};

verus! {

/// Whether `s` starts with `prefix`.
pub open spec fn has_prefix(s: Seq<char>, prefix: Seq<char>) -> bool {
    prefix.len() <= s.len() && s.take(prefix.len() as int) == prefix
}

/// `s` without `prefix` in front, where it starts with it.
pub open spec fn without_prefix(s: Seq<char>, prefix: Seq<char>) -> Seq<char> {
    if has_prefix(s, prefix) {
        s.skip(prefix.len() as int)
    } else {
        s
    }
}

/// The file below the served folder that a request path names: the path
/// without the route's root and without one leading slash; the index page
/// where nothing or a lone slash is left.
pub open spec fn resource_of(root: Seq<char>, path: Seq<char>) -> Seq<char> {
    let rest = without_prefix(without_prefix(path, root), "/"@);
    if rest.len() == 0 || rest == "/"@ {
        "index.html"@
    } else {
        rest
    }
}

/// The content type of a file by its extension.
pub open spec fn content_type_of(extension: Option<Seq<char>>) -> Seq<char> {
    match extension {
        None => "application/octed-stream"@,
        Some(e) => if e == "css"@ {
            "text/css"@
        } else if e == "js"@ {
            "text/javascript"@
        } else if e == "htm"@ || e == "html"@ {
            "text/html"@
        } else if e == "xml"@ {
            "text/xml"@
        } else if e == "jpg"@ {
            "image/jpeg"@
        } else if e == "png"@ {
            "image/png"@
        } else if e == "gif"@ {
            "image/gif"@
        } else if e == "webp"@ {
            "image/webp"@
        } else if e == "avif"@ {
            "image/avif"@
        } else if e == "svg"@ {
            "image/svg+xml"@
        } else if e == "ico"@ {
            "image/vnd.microsoft.icon"@
        } else {
            "application/octet-stream"@
        },
    }
}

/// Whether files of a content type are read as text.
pub open spec fn is_text_type(content_type: Seq<char>) -> bool {
    content_type == "text/css"@ || content_type == "text/html"@ || content_type == "text/xml"@
        || content_type == "text/svg+xml"@
}

/// What looking a file up on disk gave.
pub enum FileProbe {
    /// The served folder does not exist.
    NoFolder,
    /// The served folder is no directory.
    FolderNotDirectory,
    /// The file does not exist.
    NoResource,
    /// The path names something that is no file.
    ResourceNotFile,
    /// Reading failed, with the error's message.
    Unreadable(String),
    /// The file's content, read as text.
    Text(String),
    /// The file's content.
    Bytes(Vec<u8>),
}

/// The status and the body that answer a probe.
pub open spec fn answer_of(probe: FileProbe) -> (u16, Seq<u8>) {
    match probe {
        FileProbe::NoFolder => (404u16, encode_utf8("Not Found"@)),
        FileProbe::FolderNotDirectory => (409u16, encode_utf8("Resource type conflict"@)),
        FileProbe::NoResource => (404u16, encode_utf8("Not Found"@)),
        FileProbe::ResourceNotFile => (409u16, encode_utf8("Invalid resource requested"@)),
        FileProbe::Unreadable(message) => (500u16, encode_utf8(message@)),
        FileProbe::Text(content) => (200u16, encode_utf8(content@)),
        FileProbe::Bytes(content) => (200u16, content@),
    }
}

/// Whether a probe reached the file, so that its content type is known.
pub open spec fn reached_file(probe: FileProbe) -> bool {
    probe is Unreadable || probe is Text || probe is Bytes
}

fn starts_with(s: &Vec<char>, prefix: &Vec<char>) -> (r: bool)
    ensures
        r == has_prefix(s@, prefix@),
{
    if prefix.len() > s.len() {
        return false;
    }
    let mut i: usize = 0;
    while i < prefix.len()
        invariant
            i <= prefix.len() <= s.len(),
            s@.take(i as int) == prefix@.take(i as int),
        decreases prefix.len() - i,
    {
        if s[i] != prefix[i] {
            proof {
                assert(s@.take(prefix@.len() as int)[i as int] != prefix@[i as int]);
            }
            return false;
        }
        i += 1;
        proof {
            assert(s@.take(i as int) =~= s@.take(i - 1).push(s@[i - 1]));
            assert(prefix@.take(i as int) =~= prefix@.take(i - 1).push(prefix@[i - 1]));
        }
    }
    proof {
        assert(prefix@.take(prefix@.len() as int) =~= prefix@);
    }
    true
}

fn strip_prefix(s: Vec<char>, prefix: &Vec<char>) -> (r: Vec<char>)
    ensures
        r@ == without_prefix(s@, prefix@),
{
    if starts_with(&s, prefix) {
        let r = slice_of(&s, prefix.len(), s.len());
        proof {
            assert(r@ =~= s@.skip(prefix@.len() as int));
        }
        r
    } else {
        s
    }
}

/// The file below the served folder that a request path names.
pub fn resource(root_path: &str, request_path: &str) -> (r: String)
    ensures
        r@ == resource_of(root_path@, request_path@),
{
    let rest = strip_prefix(chars_of(request_path), &chars_of(root_path));
    let rest = string_of(&strip_prefix(rest, &chars_of("/")));
    if text_eq(rest.as_str(), "") || text_eq(rest.as_str(), "/") {
        proof {
            reveal_strlit("");
        }
        "index.html".to_owned()
    } else {
        proof {
            reveal_strlit("");
            assert(rest@.len() != 0) by {
                if rest@.len() == 0 {
                    assert(rest@ =~= ""@);
                }
            }
        }
        rest
    }
}

/// The content type of a file by its extension; `None` where the file's
/// name has none.
pub fn content_type(extension: Option<&str>) -> (r: String)
    ensures
        r@ == content_type_of(
            match extension {
                Some(e) => Some(e@),
                None => None,
            },
        ),
{
    let t: &str = match extension {
        None => "application/octed-stream",
        Some(e) => if text_eq(e, "css") {
            "text/css"
        } else if text_eq(e, "js") {
            "text/javascript"
        } else if text_eq(e, "htm") || text_eq(e, "html") {
            "text/html"
        } else if text_eq(e, "xml") {
            "text/xml"
        } else if text_eq(e, "jpg") {
            "image/jpeg"
        } else if text_eq(e, "png") {
            "image/png"
        } else if text_eq(e, "gif") {
            "image/gif"
        } else if text_eq(e, "webp") {
            "image/webp"
        } else if text_eq(e, "avif") {
            "image/avif"
        } else if text_eq(e, "svg") {
            "image/svg+xml"
        } else if text_eq(e, "ico") {
            "image/vnd.microsoft.icon"
        } else {
            "application/octet-stream"
        },
    };
    t.to_owned()
}

/// Whether files of a content type are read as text.
pub fn reads_as_text(content_type: &str) -> (r: bool)
    ensures
        r == is_text_type(content_type@),
{
    text_eq(content_type, "text/css") || text_eq(content_type, "text/html") || text_eq(
        content_type,
        "text/xml",
    ) || text_eq(content_type, "text/svg+xml")
}

/// The response for a probe: its status and body, with the file's content
/// type where the probe reached the file.
pub fn static_response(response: Response, content_type: &str, probe: FileProbe) -> (r: Response)
    requires
        response.wf(),
    ensures
        r.wf(),
        r.status() == answer_of(probe).0,
        r.body() == answer_of(probe).1,
        r.headers() == with_entry(
            if reached_file(probe) {
                with_entry(response.headers(), "Content-Type"@, content_type@)
            } else {
                response.headers()
            },
            "Content-Length"@,
            decimal_of(answer_of(probe).1.len()),
        ),
{
    match probe {
        FileProbe::NoFolder => response.set_body("Not Found").set_status(404),
        FileProbe::FolderNotDirectory => response.set_body("Resource type conflict").set_status(
            409,
        ),
        FileProbe::NoResource => response.set_body("Not Found").set_status(404),
        FileProbe::ResourceNotFile => response.set_body("Invalid resource requested").set_status(
            409,
        ),
        FileProbe::Unreadable(message) => response.add_header("Content-Type", content_type).set_body(
            message.as_str(),
        ).set_status(500),
        FileProbe::Text(content) => response.add_header("Content-Type", content_type).set_body(
            content.as_str(),
        ).set_status(200),
        FileProbe::Bytes(content) => response.add_header(
            "Content-Type",
            content_type,
        ).set_body_bytes(content.as_slice()).set_status(200),
    }
}

} // verus!

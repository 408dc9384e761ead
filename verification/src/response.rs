//! The response builder: status, headers and body, and their wire form.

use vstd::prelude::*;
use vstd::utf8::encode_utf8;
use crate::fields::{has_name, value_of, with_entry, Fields};
use crate::text::{chars_of, decimal, decimal_of, push_all, push_text, string_of};

verus! {

/// The reason phrase of a status code; a code outside the known set gets a
/// generic phrase.
pub open spec fn reason_of(code: u16) -> Seq<char> {
    if code == 200 {
        "OK"@
    } else if code == 201 {
        "Created"@
    } else if code == 401 {
        "Access Denied"@
    } else if code == 404 {
        "Not Found"@
    } else if code == 500 {
        "Internal Server Error"@
    } else {
        "Unknown"@
    }
}

/// The header block: one `name: value` per entry, in the table's order, with
/// a line break between two entries.
pub open spec fn header_lines(h: Seq<(Seq<char>, Seq<char>)>) -> Seq<char>
    decreases h.len(),
{
    if h.len() == 0 {
        Seq::<char>::empty()
    } else if h.len() == 1 {
        h[0].0 + ": "@ + h[0].1
    } else {
        header_lines(h.drop_last()) + "\r\n"@ + h.last().0 + ": "@ + h.last().1
    }
}

/// Everything before the body: status line, header block and the blank line.
pub open spec fn head_of(code: u16, h: Seq<(Seq<char>, Seq<char>)>) -> Seq<char> {
    "HTTP/1.1 "@ + decimal_of(code as nat) + " "@ + reason_of(code) + "\r\n"@ + header_lines(h)
        + "\r\n\r\n"@
}

/// The bytes of a response on the wire.
pub open spec fn wire_of(code: u16, h: Seq<(Seq<char>, Seq<char>)>, body: Seq<u8>) -> Seq<u8> {
    encode_utf8(head_of(code, h)) + body
}

/// The headers of a fresh response.
pub open spec fn default_headers() -> Seq<(Seq<char>, Seq<char>)> {
    seq![("Content-Type"@, "text/plain"@)]
}

/// A response under construction.
pub struct Response {
    headers: Fields,
    body: Vec<u8>,
    status_code: u16,
}

impl Response {
    /// The invariant: the header table is well formed.
    pub closed spec fn wf(&self) -> bool {
        self.headers.wf()
    }

    /// The headers, in the order in which their names first came.
    pub closed spec fn headers(&self) -> Seq<(Seq<char>, Seq<char>)> {
        self.headers@
    }

    /// The body.
    pub closed spec fn body(&self) -> Seq<u8> {
        self.body@
    }

    /// The status code.
    pub closed spec fn status(&self) -> u16 {
        self.status_code
    }

    /// A response with the default content type, no body and status 0.
    pub fn new() -> (r: Response)
        ensures
            r.wf(),
            r.headers() == default_headers(),
            r.body() == Seq::<u8>::empty(),
            r.status() == 0,
    {
        let mut headers = Fields::new();
        headers.insert("Content-Type".to_owned(), "text/plain".to_owned());
        proof {
            assert(headers@ =~= default_headers());
        }
        Response { headers, body: Vec::new(), status_code: 0 }
    }

    /// Sets a header; an earlier value of that name is replaced.
    pub fn add_header(self, header_name: &str, header_value: &str) -> (r: Response)
        requires
            self.wf(),
        ensures
            r.wf(),
            r.headers() == with_entry(self.headers(), header_name@, header_value@),
            r.body() == self.body(),
            r.status() == self.status(),
    {
        let mut r = self;
        r.headers.insert(header_name.to_owned(), header_value.to_owned());
        r
    }

    /// Sets the body to the bytes of a text, and `Content-Length` to their
    /// number.
    pub fn set_body(self, body: &str) -> (r: Response)
        requires
            self.wf(),
        ensures
            r.wf(),
            r.body() == encode_utf8(body@),
            r.headers() == with_entry(
                self.headers(),
                "Content-Length"@,
                decimal_of(encode_utf8(body@).len()),
            ),
            r.status() == self.status(),
    {
        let bytes = body.as_bytes_vec();
        self.with_body(bytes)
    }

    /// Sets the body, and `Content-Length` to its length.
    pub fn set_body_bytes(self, body: &[u8]) -> (r: Response)
        requires
            self.wf(),
        ensures
            r.wf(),
            r.body() == body@,
            r.headers() == with_entry(self.headers(), "Content-Length"@, decimal_of(body@.len())),
            r.status() == self.status(),
    {
        let bytes = vstd::slice::slice_to_vec(body);
        self.with_body(bytes)
    }

    fn with_body(self, bytes: Vec<u8>) -> (r: Response)
        requires
            self.wf(),
        ensures
            r.wf(),
            r.body() == bytes@,
            r.headers() == with_entry(self.headers(), "Content-Length"@, decimal_of(bytes@.len())),
            r.status() == self.status(),
    {
        let mut r = self;
        let length = string_of(&decimal(bytes.len()));
        r.body = bytes;
        r.headers.insert("Content-Length".to_owned(), length);
        r
    }

    /// The body.
    pub fn get_body(&self) -> (r: &Vec<u8>)
        ensures
            r@ == self.body(),
    {
        &self.body
    }

    /// The status code.
    pub fn get_status(&self) -> (r: u16)
        ensures
            r == self.status(),
    {
        self.status_code
    }

    /// The value of a header, if it is set.
    pub fn get_header(&self, name: &str) -> (r: Option<&String>)
        requires
            self.wf(),
        ensures
            r is Some == has_name(self.headers(), name@),
            r matches Some(v) ==> Some(v@) == value_of(self.headers(), name@),
    {
        self.headers.get(name)
    }

    /// Sets the status code.
    pub fn set_status(self, status_code: u16) -> (r: Response)
        requires
            self.wf(),
        ensures
            r.wf(),
            r.status() == status_code,
            r.headers() == self.headers(),
            r.body() == self.body(),
    {
        let mut r = self;
        r.status_code = status_code;
        r
    }

    /// The wire form: status line, headers, a blank line, then the body.
    pub fn build(self) -> (r: Vec<u8>)
        requires
            self.wf(),
        ensures
            r@ == wire_of(self.status(), self.headers(), self.body()),
    {
        let code = self.status_code;
        let reason: &str = if code == 200 {
            "OK"
        } else if code == 201 {
            "Created"
        } else if code == 401 {
            "Access Denied"
        } else if code == 404 {
            "Not Found"
        } else if code == 500 {
            "Internal Server Error"
        } else {
            "Unknown"
        };
        let mut lines: Vec<char> = Vec::new();
        let n = self.headers.len();
        let mut i: usize = 0;
        proof {
            assert(self.headers@.take(0) =~= Seq::empty());
        }
        while i < n
            invariant
                self.headers.wf(),
                n == self.headers@.len(),
                i <= n,
                lines@ == header_lines(self.headers@.take(i as int)),
            decreases n - i,
        {
            let ghost before = lines@;
            proof {
                assert(self.headers@.take(i + 1).drop_last() =~= self.headers@.take(i as int));
                assert(self.headers@.take(i + 1).last() == self.headers@[i as int]);
            }
            if i > 0 {
                push_text(&mut lines, "\r\n");
            } else {
                proof {
                    assert(self.headers@.take(1)[0] == self.headers@[0]);
                    assert(before + self.headers@[0].0 =~= self.headers@[0].0);
                }
            }
            push_text(&mut lines, self.headers.name_at(i).as_str());
            push_text(&mut lines, ": ");
            push_text(&mut lines, self.headers.value_at(i).as_str());
            i += 1;
        }
        proof {
            assert(self.headers@.take(n as int) =~= self.headers@);
        }
        let mut head: Vec<char> = chars_of("HTTP/1.1 ");
        push_all(&mut head, &decimal(code as usize));
        push_text(&mut head, " ");
        push_text(&mut head, reason);
        push_text(&mut head, "\r\n");
        push_all(&mut head, &lines);
        push_text(&mut head, "\r\n\r\n");
        let text = string_of(&head);
        let mut out = text.as_str().as_bytes_vec();
        let mut body = self.body;
        out.append(&mut body);
        out
    }
}

} // verus!

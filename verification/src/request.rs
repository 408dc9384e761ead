//! The request: its method, path, headers and body, read from the text of
//! the request head and the bytes that follow it.

use vstd::prelude::*;
use crate::fields::{value_of, with_entry, Fields};
use crate::text::{
    chars_of, lines_of, number_of, parse_length, slice_of, split, split_lines, split_of,
    string_of, text_eq, trim, trim_of, views,
};

verus! {

/// The methods that the router tells apart; any other verb is `Unknown`.
#[derive(Clone, Copy, Debug, PartialEq, Eq, Hash, Structural)]
pub enum RequestMethod {
    Get,
    Post,
    Put,
    Delete,
    Patch,
    Options,
    Unknown,
}

/// Why a request could not be read.
#[derive(Clone, Copy, Debug, PartialEq, Eq, Structural)]
pub enum RequestError {
    /// `Content-Length` does not write a length.
    BadLength,
    /// Fewer body bytes came than `Content-Length` declares.
    Incomplete,
}

impl RequestMethod {
    /// The method's verb.
    pub open spec fn name_of(self) -> Seq<char> {
        match self {
            RequestMethod::Get => "GET"@,
            RequestMethod::Post => "POST"@,
            RequestMethod::Put => "PUT"@,
            RequestMethod::Delete => "DELETE"@,
            RequestMethod::Patch => "PATCH"@,
            RequestMethod::Options => "OPTIONS"@,
            RequestMethod::Unknown => "UNKNOWN"@,
        }
    }

    /// The method that a verb names.
    pub open spec fn of_token(t: Seq<char>) -> RequestMethod {
        if t == "GET"@ {
            RequestMethod::Get
        } else if t == "POST"@ {
            RequestMethod::Post
        } else if t == "PUT"@ {
            RequestMethod::Put
        } else if t == "DELETE"@ {
            RequestMethod::Delete
        } else if t == "PATCH"@ {
            RequestMethod::Patch
        } else if t == "OPTIONS"@ {
            RequestMethod::Options
        } else {
            RequestMethod::Unknown
        }
    }

    /// The place of the method among the seven, from 0.
    pub open spec fn slot_of(self) -> int {
        match self {
            RequestMethod::Get => 0,
            RequestMethod::Post => 1,
            RequestMethod::Put => 2,
            RequestMethod::Delete => 3,
            RequestMethod::Patch => 4,
            RequestMethod::Options => 5,
            RequestMethod::Unknown => 6,
        }
    }

    /// The method's verb, in upper case.
    pub fn name(&self) -> (r: String)
        ensures
            r@ == self.name_of(),
    {
        let s: &str = match self {
            RequestMethod::Get => "GET",
            RequestMethod::Post => "POST",
            RequestMethod::Put => "PUT",
            RequestMethod::Delete => "DELETE",
            RequestMethod::Patch => "PATCH",
            RequestMethod::Options => "OPTIONS",
            RequestMethod::Unknown => "UNKNOWN",
        };
        s.to_owned()
    }

    /// The method that a verb names; `Unknown` for any other text.
    pub fn from_token(token: &str) -> (r: RequestMethod)
        ensures
            r == RequestMethod::of_token(token@),
    {
        if text_eq(token, "GET") {
            RequestMethod::Get
        } else if text_eq(token, "POST") {
            RequestMethod::Post
        } else if text_eq(token, "PUT") {
            RequestMethod::Put
        } else if text_eq(token, "DELETE") {
            RequestMethod::Delete
        } else if text_eq(token, "PATCH") {
            RequestMethod::Patch
        } else if text_eq(token, "OPTIONS") {
            RequestMethod::Options
        } else {
            RequestMethod::Unknown
        }
    }

    /// The place of the method among the seven, from 0.
    pub fn slot(&self) -> (r: usize)
        ensures
            r == self.slot_of(),
            r < 7,
    {
        match self {
            RequestMethod::Get => 0,
            RequestMethod::Post => 1,
            RequestMethod::Put => 2,
            RequestMethod::Delete => 3,
            RequestMethod::Patch => 4,
            RequestMethod::Options => 5,
            RequestMethod::Unknown => 6,
        }
    }
}

/// Whether `i` is the place of the first `c` in `s`.
pub open spec fn is_first(s: Seq<char>, c: char, i: int) -> bool {
    &&& 0 <= i < s.len()
    &&& s[i] == c
    &&& forall|j: int| 0 <= j < i ==> #[trigger] s[j] != c
}

/// The header that a line declares: the text before its first colon and the
/// text after it, both trimmed. A blank line and a line without a colon
/// declare none.
pub open spec fn header_of(line: Seq<char>) -> Option<(Seq<char>, Seq<char>)> {
    if trim_of(line).len() == 0 {
        None
    } else if exists|i: int| is_first(line, ':', i) {
        let i = choose|i: int| is_first(line, ':', i);
        Some((trim_of(line.take(i)), trim_of(line.skip(i + 1))))
    } else {
        None
    }
}

/// The headers that a list of lines declares; of two lines with one name the
/// later gives the value.
pub open spec fn headers_of(lines: Seq<Seq<char>>) -> Seq<(Seq<char>, Seq<char>)>
    decreases lines.len(),
{
    if lines.len() == 0 {
        Seq::empty()
    } else {
        let before = headers_of(lines.drop_last());
        match header_of(lines.last()) {
            Some((name, value)) => with_entry(before, name, value),
            None => before,
        }
    }
}

/// The verb and the path of a request line: its first two pieces between
/// single spaces, trimmed; both empty where the line has fewer than two.
pub open spec fn request_line_of(line: Seq<char>) -> (Seq<char>, Seq<char>) {
    let tokens = split_of(line, ' ');
    if tokens.len() >= 2 {
        (trim_of(tokens[0]), trim_of(tokens[1]))
    } else {
        (Seq::empty(), Seq::empty())
    }
}

/// The body length that a header table declares: 0 without `Content-Length`,
/// `None` where its value writes no length that fits.
pub open spec fn declared_of(headers: Seq<(Seq<char>, Seq<char>)>) -> Option<usize> {
    match value_of(headers, "Content-Length"@) {
        None => Some(0usize),
        Some(v) => match number_of(v) {
            Some(n) => if n <= usize::MAX {
                Some(n as usize)
            } else {
                None
            },
            None => None,
        },
    }
}

/// A parsed request.
pub struct Request {
    /// The method that the request line names.
    pub method: RequestMethod,
    /// The path as the request line gives it, a query string included.
    pub path: String,
    /// The headers, under their names as received.
    pub headers: Fields,
    /// The body: as many bytes as `Content-Length` declares.
    pub body: Vec<u8>,
    /// The parameters that the matched pattern binds; empty before routing.
    pub path_params: Fields,
}

fn parse_header(line: &Vec<char>) -> (r: Option<(String, String)>)
    ensures
        r is Some == header_of(line@) is Some,
        r matches Some((name, value)) ==> header_of(line@) == Some((name@, value@)),
{
    if trim(line).len() == 0 {
        return None;
    }
    let mut i: usize = 0;
    while i < line.len()
        invariant
            i <= line.len(),
            trim_of(line@).len() != 0,
            forall|j: int| 0 <= j < i ==> #[trigger] line@[j] != ':',
        decreases line.len() - i,
    {
        if line[i] == ':' {
            proof {
                assert(is_first(line@, ':', i as int));
                let p = choose|p: int| is_first(line@, ':', p);
                assert(is_first(line@, ':', p));
                assert(p == i) by {
                    if p < i {
                        assert(line@[p] != ':');
                    }
                    if i < p {
                        assert(line@[i as int] != ':');
                    }
                }
                assert(line@.take(i as int) =~= line@.subrange(0, i as int));
                assert(line@.skip(i + 1) =~= line@.subrange(i + 1, line@.len() as int));
            }
            let name = string_of(&trim(&slice_of(line, 0, i)));
            let value = string_of(&trim(&slice_of(line, i + 1, line.len())));
            return Some((name, value));
        }
        i += 1;
    }
    proof {
        assert forall|p: int| !is_first(line@, ':', p) by {
            if 0 <= p < line@.len() {
                assert(line@[p] != ':');
            }
        }
    }
    None
}

impl Request {
    /// The invariant: both tables are well formed.
    pub open spec fn wf(&self) -> bool {
        self.headers.wf() && self.path_params.wf()
    }

    /// Reads the head of a request: the request line, then one header a
    /// line, each line ended by a carriage return and a line feed. The body
    /// and the path parameters are left empty.
    pub fn parse_head(head: &str) -> (r: Request)
        ensures
            r.wf(),
            r.method == RequestMethod::of_token(request_line_of(lines_of(head@)[0]).0),
            r.path@ == request_line_of(lines_of(head@)[0]).1,
            r.headers@ == headers_of(lines_of(head@).drop_first()),
            r.body@ == Seq::<u8>::empty(),
            r.path_params@ == Seq::<(Seq<char>, Seq<char>)>::empty(),
    {
        let lines = split_lines(&chars_of(head));
        let tokens = split(&lines[0], ' ');
        let mut method = String::new();
        let mut path = String::new();
        proof {
            assert(views(lines@)[0] == lines@[0]@);
        }
        if tokens.len() >= 2 {
            proof {
                assert(views(tokens@)[0] == tokens@[0]@);
                assert(views(tokens@)[1] == tokens@[1]@);
            }
            method = string_of(&trim(&tokens[0]));
            path = string_of(&trim(&tokens[1]));
        }
        let mut headers = Fields::new();
        let mut i: usize = 1;
        let ghost rest = views(lines@).drop_first();
        proof {
            assert(rest.take(0) =~= Seq::<Seq<char>>::empty());
        }
        while i < lines.len()
            invariant
                1 <= i <= lines@.len(),
                rest == views(lines@).drop_first(),
                headers.wf(),
                headers@ == headers_of(rest.take(i - 1)),
            decreases lines@.len() - i,
        {
            proof {
                assert(rest.take(i as int).drop_last() =~= rest.take(i - 1));
                assert(rest.take(i as int).last() == lines@[i as int]@);
            }
            match parse_header(&lines[i]) {
                Some((name, value)) => {
                    headers.insert(name, value);
                },
                None => {},
            }
            i += 1;
        }
        proof {
            assert(rest.take(lines@.len() - 1) =~= rest);
        }
        Request {
            method: RequestMethod::from_token(method.as_str()),
            path,
            headers,
            body: Vec::new(),
            path_params: Fields::new(),
        }
    }

    /// The number of body bytes that the headers declare.
    pub fn declared_length(&self) -> (r: Result<usize, RequestError>)
        requires
            self.wf(),
        ensures
            r == match declared_of(self.headers@) {
                Some(n) => Ok::<usize, RequestError>(n),
                None => Err::<usize, RequestError>(RequestError::BadLength),
            },
    {
        match self.headers.get("Content-Length") {
            None => Ok(0),
            Some(v) => match parse_length(v.as_str()) {
                Some(n) => Ok(n),
                None => Err(RequestError::BadLength),
            },
        }
    }

    /// Takes the body from the bytes that follow the head: exactly as many
    /// as the headers declare.
    pub fn with_body(self, rest: &[u8]) -> (r: Result<Request, RequestError>)
        requires
            self.wf(),
        ensures
            match declared_of(self.headers@) {
                None => r == Err::<Request, RequestError>(RequestError::BadLength),
                Some(n) => if rest@.len() < n {
                    r == Err::<Request, RequestError>(RequestError::Incomplete)
                } else {
                    &&& r matches Ok(q)
                    &&& q.wf()
                    &&& q.body@ == rest@.take(n as int)
                    &&& q.method == self.method
                    &&& q.path == self.path
                    &&& q.headers == self.headers
                    &&& q.path_params == self.path_params
                },
            },
    {
        let n = match self.declared_length() {
            Ok(n) => n,
            Err(e) => {
                return Err(e);
            },
        };
        if rest.len() < n {
            return Err(RequestError::Incomplete);
        }
        let mut body: Vec<u8> = Vec::new();
        let mut i: usize = 0;
        while i < n
            invariant
                i <= n <= rest@.len(),
                body@ == rest@.take(i as int),
            decreases n - i,
        {
            body.push(rest[i]);
            i += 1;
            proof {
                assert(rest@.take(i as int) =~= rest@.take(i - 1).push(rest@[i - 1]));
            }
        }
        let mut q = self;
        q.body = body;
        Ok(q)
    }

    /// Reads a request from the text of its head and the bytes after it.
    pub fn parse(head: &str, rest: &[u8]) -> (r: Result<Request, RequestError>)
        ensures
            match declared_of(headers_of(lines_of(head@).drop_first())) {
                None => r == Err::<Request, RequestError>(RequestError::BadLength),
                Some(n) => if rest@.len() < n {
                    r == Err::<Request, RequestError>(RequestError::Incomplete)
                } else {
                    &&& r matches Ok(q)
                    &&& q.wf()
                    &&& q.method == RequestMethod::of_token(
                        request_line_of(lines_of(head@)[0]).0,
                    )
                    &&& q.path@ == request_line_of(lines_of(head@)[0]).1
                    &&& q.headers@ == headers_of(lines_of(head@).drop_first())
                    &&& q.body@ == rest@.take(n as int)
                    &&& q.path_params@ == Seq::<(Seq<char>, Seq<char>)>::empty()
                },
            },
    {
        Request::parse_head(head).with_body(rest)
    }
}

} // verus!

//! A small HTTP/1.1 request builder whose parts have fixed byte budgets.
use vstd::prelude::*;
use vstd::string::*;
use vstd::utf8::*;

verus! {

/// The maximum size, in bytes, of the path in the request.
pub const PATH_SIZE: usize = 128;

/// The maximum size, in bytes, of the headers in the request.
pub const HEADER_SIZE: usize = 512;

/// The maximum size, in bytes, of the body of the request.
pub const BODY_SIZE: usize = 1024;

/// The total size, in bytes, of the request text: the parts plus 64 bytes
/// for the method, the HTTP version and line ends.
pub const REQUEST_SIZE: usize = 1728;

/// Failures of building a request.
#[derive(Debug, Clone, Copy, PartialEq, Eq, Structural)]
pub enum HttpBuilderError {
    /// Error when trying to convert a string to a fixed-size string.
    StringConversionError,
    /// Error when trying to push a string into a fixed-size string.
    StringPushError,
    /// Error when trying to create a new `RequestBuilder`.
    RequestBuilderCreationError,
}

/// Represents an HTTP method.
#[derive(Debug, Clone, Copy, PartialEq, Eq, Structural)]
pub enum Method {
    GET,
    POST,
    PUT,
    DELETE,
    PATCH,
    HEAD,
    OPTIONS,
}

/// The name of a method as it stands in a request line.
pub open spec fn method_name(m: Method) -> Seq<char> {
    match m {
        Method::GET => seq!['G', 'E', 'T'],
        Method::POST => seq!['P', 'O', 'S', 'T'],
        Method::PUT => seq!['P', 'U', 'T'],
        Method::DELETE => seq!['D', 'E', 'L', 'E', 'T', 'E'],
        Method::PATCH => seq!['P', 'A', 'T', 'C', 'H'],
        Method::HEAD => seq!['H', 'E', 'A', 'D'],
        Method::OPTIONS => seq!['O', 'P', 'T', 'I', 'O', 'N', 'S'],
    }
}

impl Method {
    /// The name of the method.
    pub fn as_str(&self) -> (r: &'static str)
        ensures
            r@ == method_name(*self),
    {
        proof {
            reveal_strlit("GET");
            reveal_strlit("POST");
            reveal_strlit("PUT");
            reveal_strlit("DELETE");
            reveal_strlit("PATCH");
            reveal_strlit("HEAD");
            reveal_strlit("OPTIONS");
        }
        let r = match self {
            Method::GET => "GET",
            Method::POST => "POST",
            Method::PUT => "PUT",
            Method::DELETE => "DELETE",
            Method::PATCH => "PATCH",
            Method::HEAD => "HEAD",
            Method::OPTIONS => "OPTIONS",
        };
        assert(r@ =~= method_name(*self));
        r
    }
}

/// How many bytes a text takes in UTF-8.
pub open spec fn utf8_len(t: Seq<char>) -> nat {
    encode_utf8(t).len()
}

proof fn lemma_encode_utf8_concat(a: Seq<char>, b: Seq<char>)
    ensures
        encode_utf8(a + b) == encode_utf8(a) + encode_utf8(b),
    decreases a.len(),
{
    if a.len() == 0 {
        assert(a + b =~= b);
        assert(encode_utf8(a) =~= Seq::<u8>::empty());
        assert(encode_utf8(a) + encode_utf8(b) =~= encode_utf8(b));
    } else {
        assert((a + b).drop_first() =~= a.drop_first() + b);
        assert((a + b)[0] == a[0]);
        lemma_encode_utf8_concat(a.drop_first(), b);
        assert(encode_utf8(a + b) =~= encode_utf8(a) + encode_utf8(b));
    }
}

/// Appending `t` to `s` with room for `cap` bytes: it is appended only when
/// all of it fits; the flag tells whether it was.
pub open spec fn capped_push(s: Seq<char>, t: Seq<char>, cap: nat) -> (bool, Seq<char>) {
    if utf8_len(s) + utf8_len(t) <= cap {
        (true, s + t)
    } else {
        (false, s)
    }
}

fn push_capped(s: &mut String, t: &str, cap: usize) -> (r: bool)
    requires
        utf8_len(old(s)@) <= cap,
    ensures
        (r, final(s)@) == capped_push(old(s)@, t@, cap as nat),
        utf8_len(final(s)@) <= cap,
{
    let n = s.as_str().as_bytes().len();
    let m = t.as_bytes().len();
    assert(n == utf8_len(s@));
    assert(m == utf8_len(t@));
    proof {
        lemma_encode_utf8_concat(s@, t@);
    }
    if m <= cap - n {
        s.append(t);
        assert(s@ == old(s)@ + t@);
        true
    } else {
        false
    }
}

/// The header name `Host`.
pub open spec fn host_name() -> Seq<char> {
    seq!['H', 'o', 's', 't']
}

proof fn lemma_ascii_len(t: Seq<char>)
    requires
        is_ascii_chars(t),
    ensures
        utf8_len(t) == t.len(),
{
    is_ascii_chars_encode_utf8(t);
}

/// The text `: `.
pub open spec fn colon_space() -> Seq<char> {
    seq![':', ' ']
}

/// The text `\r\n`.
pub open spec fn crlf() -> Seq<char> {
    seq!['\r', '\n']
}

/// Appending a header line `key: value\r\n` to the headers with room for
/// [`HEADER_SIZE`] bytes, a piece at a time: the first piece that does not
/// fit stops it, and the pieces before it stay.
pub open spec fn header_outcome(h: Seq<char>, key: Seq<char>, value: Seq<char>) -> (bool, Seq<char>) {
    let cap = HEADER_SIZE as nat;
    let (a, h1) = capped_push(h, key, cap);
    if !a {
        (false, h1)
    } else {
        let (b, h2) = capped_push(h1, colon_space(), cap);
        if !b {
            (false, h2)
        } else {
            let (c, h3) = capped_push(h2, value, cap);
            if !c {
                (false, h3)
            } else {
                capped_push(h3, crlf(), cap)
            }
        }
    }
}

/// The abstract content of a [`Request`].
pub struct RequestView {
    pub method: Method,
    pub path: Seq<char>,
    pub headers: Seq<char>,
    pub body: Option<Seq<char>>,
}

/// The request text: the request line, the headers, an empty line and the
/// body, if there is one.
pub open spec fn request_text(v: RequestView) -> Seq<char> {
    method_name(v.method) + seq![' '] + v.path + seq![' ', 'H', 'T', 'T', 'P', '/', '1', '.', '1', '\r', '\n']
        + v.headers + crlf() + match v.body {
        Some(b) => b,
        None => Seq::empty(),
    }
}

/// A lightweight HTTP request builder.
pub struct Request {
    method: Method,
    path: String,
    headers: String,
    body: Option<String>,
}

impl View for Request {
    type V = RequestView;

    closed spec fn view(&self) -> RequestView {
        RequestView {
            method: self.method,
            path: self.path@,
            headers: self.headers@,
            body: match self.body {
                Some(b) => Some(b@),
                None => None,
            },
        }
    }
}

impl Request {
    /// The parts keep to their byte budgets.
    pub open spec fn wf(&self) -> bool {
        &&& utf8_len(self@.path) <= PATH_SIZE
        &&& utf8_len(self@.headers) <= HEADER_SIZE
        &&& (self@.body matches Some(b) ==> utf8_len(b) <= BODY_SIZE)
    }

    /// Creates a request with a method and a path; an empty path stands for
    /// `/`. A path longer than [`PATH_SIZE`] bytes is refused.
    pub fn new(method: Method, path: &str) -> (r: Result<Self, HttpBuilderError>)
        ensures
            utf8_len(path@) > PATH_SIZE ==> r == Err::<Self, HttpBuilderError>(
                HttpBuilderError::StringConversionError,
            ),
            utf8_len(path@) <= PATH_SIZE ==> (r matches Ok(req) && req.wf() && req@.method == method
                && req@.path == (if path@.len() == 0 {
                seq!['/']
            } else {
                path@
            }) && req@.headers == Seq::<char>::empty() && req@.body is None),
    {
        proof {
            reveal_strlit("/");
        }
        let p = if !path.is_empty() {
            path
        } else {
            "/"
        };
        proof {
            if path@.len() == 0 {
                assert(encode_utf8(path@) =~= Seq::<u8>::empty());
                assert(p@ =~= seq!['/']);
                assert(encode_utf8(p@).len() == 1) by {
                    reveal_with_fuel(encode_utf8, 2);
                }
            }
        }
        if p.as_bytes().len() > PATH_SIZE {
            return Err(HttpBuilderError::StringConversionError);
        }
        Ok(Request { method, path: p.to_owned(), headers: String::new(), body: None })
    }

    /// Adds a header line `key: value\r\n`. When the headers run out of room
    /// ([`HEADER_SIZE`] bytes) the line is cut short and the result is an
    /// error; see [`header_outcome`].
    pub fn header(&mut self, key: &str, value: &str) -> (r: Result<&Self, HttpBuilderError>)
        requires
            old(self).wf(),
        ensures
            final(self).wf(),
            final(self)@.method == old(self)@.method,
            final(self)@.path == old(self)@.path,
            final(self)@.body == old(self)@.body,
            final(self)@.headers == header_outcome(old(self)@.headers, key@, value@).1,
            r is Ok == header_outcome(old(self)@.headers, key@, value@).0,
            r is Err ==> r == Err::<&Self, HttpBuilderError>(HttpBuilderError::StringPushError),
    {
        proof {
            reveal_strlit(": ");
            reveal_strlit("\r\n");
        }
        let cs = ": ";
        let nl = "\r\n";
        assert(cs@ =~= colon_space());
        assert(nl@ =~= crlf());
        let ghost h0 = self.headers@;
        let ghost cap = HEADER_SIZE as nat;
        if !push_capped(&mut self.headers, key, HEADER_SIZE) {
            return Err(HttpBuilderError::StringPushError);
        }
        let ghost h1 = self.headers@;
        assert(capped_push(h0, key@, cap) == (true, h1));
        if !push_capped(&mut self.headers, cs, HEADER_SIZE) {
            assert(capped_push(h1, colon_space(), cap) == (false, h1));
            return Err(HttpBuilderError::StringPushError);
        }
        let ghost h2 = self.headers@;
        assert(capped_push(h1, colon_space(), cap) == (true, h2));
        if !push_capped(&mut self.headers, value, HEADER_SIZE) {
            return Err(HttpBuilderError::StringPushError);
        }
        let ghost h3 = self.headers@;
        assert(capped_push(h2, value@, cap) == (true, h3));
        if !push_capped(&mut self.headers, nl, HEADER_SIZE) {
            assert(capped_push(h3, crlf(), cap) == (false, h3));
            return Err(HttpBuilderError::StringPushError);
        }
        Ok(self)
    }

    /// Adds the header line `Host: host\r\n`; see [`Request::header`].
    pub fn host(&mut self, host: &str) -> (r: Result<&Self, HttpBuilderError>)
        requires
            old(self).wf(),
        ensures
            final(self).wf(),
            final(self)@.method == old(self)@.method,
            final(self)@.path == old(self)@.path,
            final(self)@.body == old(self)@.body,
            final(self)@.headers == header_outcome(old(self)@.headers, host_name(), host@).1,
            r is Ok == header_outcome(old(self)@.headers, host_name(), host@).0,
            r is Err ==> r == Err::<&Self, HttpBuilderError>(HttpBuilderError::StringPushError),
    {
        let name = "Host";
        proof {
            reveal_strlit("Host");
        }
        assert(name@ =~= host_name());
        self.header(name, host)
    }

    /// Sets the body of the request; a body longer than [`BODY_SIZE`] bytes
    /// is refused and the request stays as it was.
    pub fn body(&mut self, body: &str) -> (r: Result<&Self, HttpBuilderError>)
        requires
            old(self).wf(),
        ensures
            final(self).wf(),
            final(self)@.method == old(self)@.method,
            final(self)@.path == old(self)@.path,
            final(self)@.headers == old(self)@.headers,
            utf8_len(body@) > BODY_SIZE ==> r == Err::<&Self, HttpBuilderError>(
                HttpBuilderError::StringConversionError,
            ) && final(self)@.body == old(self)@.body,
            utf8_len(body@) <= BODY_SIZE ==> r is Ok && final(self)@.body == Some(body@),
    {
        if body.as_bytes().len() > BODY_SIZE {
            return Err(HttpBuilderError::StringConversionError);
        }
        self.body = Some(body.to_owned());
        Ok(self)
    }

    /// The request text; see [`request_text`]. It always fits
    /// [`REQUEST_SIZE`] bytes, so nothing is cut off.
    pub fn to_string(&self) -> (r: String)
        requires
            self.wf(),
        ensures
            r@ == request_text(self@),
            utf8_len(r@) <= REQUEST_SIZE,
    {
        let space = " ";
        let version = " HTTP/1.1\r\n";
        let nl = "\r\n";
        proof {
            reveal_strlit(" ");
            reveal_strlit(" HTTP/1.1\r\n");
            reveal_strlit("\r\n");
        }
        let mut r = String::new();
        let m = self.method.as_str();
        r.append(m);
        r.append(space);
        r.append(self.path.as_str());
        r.append(version);
        r.append(self.headers.as_str());
        r.append(nl);
        let ghost head = r@;
        match &self.body {
            Some(b) => r.append(b.as_str()),
            None => {},
        }
        proof {
            let body = match self@.body {
                Some(b) => b,
                None => Seq::<char>::empty(),
            };
            assert(r@ == head + body);
            assert(r@ =~= request_text(self@));
            lemma_ascii_len(method_name(self.method));
            lemma_ascii_len(space@);
            lemma_ascii_len(version@);
            lemma_ascii_len(nl@);
            assert(encode_utf8(Seq::<char>::empty()) =~= Seq::<u8>::empty());
            let p1 = method_name(self.method) + space@;
            let p2 = p1 + self@.path;
            let p3 = p2 + version@;
            let p4 = p3 + self@.headers;
            let p5 = p4 + nl@;
            lemma_encode_utf8_concat(method_name(self.method), space@);
            lemma_encode_utf8_concat(p1, self@.path);
            lemma_encode_utf8_concat(p2, version@);
            lemma_encode_utf8_concat(p3, self@.headers);
            lemma_encode_utf8_concat(p4, nl@);
            lemma_encode_utf8_concat(p5, body);
            assert(head == p5);
        }
        r
    }
}

/// A header line that fits the room left in the headers is appended whole:
/// `key: value\r\n`.
pub proof fn lemma_header_appends_line(h: Seq<char>, key: Seq<char>, value: Seq<char>)
    requires
        utf8_len(h) + utf8_len(key) + 2 + utf8_len(value) + 2 <= HEADER_SIZE,
    ensures
        header_outcome(h, key, value) == (true, h + key + colon_space() + value + crlf()),
{
    lemma_ascii_len(colon_space());
    lemma_ascii_len(crlf());
    lemma_encode_utf8_concat(h, key);
    lemma_encode_utf8_concat(h + key, colon_space());
    lemma_encode_utf8_concat(h + key + colon_space(), value);
}

} // verus!

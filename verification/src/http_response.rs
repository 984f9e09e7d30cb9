//! The parts of an HTTP response head that the radio needs: the status
//! and a `Location` to follow.
use vstd::prelude::*;
use vstd::utf8::*;

use crate::text::str_from_utf8;

verus! {

/// The class of an HTTP status code.
#[derive(Debug, Clone, Copy, PartialEq, Eq, Structural)]
pub enum ResponseStatusCode {
    Informational(u16),
    Successful(u16),
    Redirection(u16),
    ClientError(u16),
    ServerError(u16),
    Invalid(u16),
    Unknown,
}

/// The class that a numeric status code falls in.
pub open spec fn status_class(value: u16) -> ResponseStatusCode {
    if 100 <= value < 200 {
        ResponseStatusCode::Informational(value)
    } else if 200 <= value < 300 {
        ResponseStatusCode::Successful(value)
    } else if 300 <= value < 400 {
        ResponseStatusCode::Redirection(value)
    } else if 400 <= value < 500 {
        ResponseStatusCode::ClientError(value)
    } else if 500 <= value < 600 {
        ResponseStatusCode::ServerError(value)
    } else {
        ResponseStatusCode::Invalid(value)
    }
}

impl ResponseStatusCode {
    /// Classifies a numeric status code.
    pub fn from_code(value: u16) -> (r: ResponseStatusCode)
        ensures
            r == status_class(value),
    {
        if 100 <= value && value < 200 {
            ResponseStatusCode::Informational(value)
        } else if 200 <= value && value < 300 {
            ResponseStatusCode::Successful(value)
        } else if 300 <= value && value < 400 {
            ResponseStatusCode::Redirection(value)
        } else if 400 <= value && value < 500 {
            ResponseStatusCode::ClientError(value)
        } else if 500 <= value && value < 600 {
            ResponseStatusCode::ServerError(value)
        } else {
            ResponseStatusCode::Invalid(value)
        }
    }
}

impl From<u16> for ResponseStatusCode {
    fn from(value: u16) -> (r: ResponseStatusCode) {
        ResponseStatusCode::from_code(value)
    }
}

impl vstd::std_specs::convert::FromSpecImpl<u16> for ResponseStatusCode {
    open spec fn obeys_from_spec() -> bool {
        true
    }

    open spec fn from_spec(v: u16) -> ResponseStatusCode {
        status_class(v)
    }
}

/// The status of a response whose code may be missing.
pub open spec fn optional_status_class(value: Option<u16>) -> ResponseStatusCode {
    match value {
        Some(code) => status_class(code),
        None => ResponseStatusCode::Unknown,
    }
}

impl From<Option<u16>> for ResponseStatusCode {
    fn from(value: Option<u16>) -> (r: ResponseStatusCode) {
        match value {
            Some(status_code) => ResponseStatusCode::from_code(status_code),
            None => ResponseStatusCode::Unknown,
        }
    }
}

impl vstd::std_specs::convert::FromSpecImpl<Option<u16>> for ResponseStatusCode {
    open spec fn obeys_from_spec() -> bool {
        true
    }

    open spec fn from_spec(v: Option<u16>) -> ResponseStatusCode {
        optional_status_class(v)
    }
}

impl Default for ResponseStatusCode {
    /// [`ResponseStatusCode::Unknown`].
    fn default() -> (r: ResponseStatusCode)
        ensures
            r == ResponseStatusCode::Unknown,
    {
        ResponseStatusCode::Unknown
    }
}

/// Room, in bytes, for a URL.
pub const MAX_URL_LEN: usize = 256;

/// How many header lines a response head may have.
pub const MAX_HEADERS: usize = 64;

#[verifier::external_type_specification]
#[verifier::external_body]
pub struct ExHttparseError(httparse::Error);

#[verifier::external_type_specification]
#[verifier::external_body]
pub struct ExNourlError(nourl::Error);

/// Failures of reading a response head.
#[derive(Debug)]
pub enum ResponseError {
    /// Unexpected EOF
    UnexpectedEof,
    /// Failed to parse headers
    HeaderParse(httparse::Error),
    /// Failed to parse a URL
    UrlParse,
    /// Failed to convert header to string
    StringConversion(core::str::Utf8Error),
    /// Headers incomplete
    IncompleteHeaders,
    /// Buffer overflow
    BufferOverflow,
}

impl From<httparse::Error> for ResponseError {
    fn from(e: httparse::Error) -> (r: ResponseError) {
        ResponseError::HeaderParse(e)
    }
}

impl vstd::std_specs::convert::FromSpecImpl<httparse::Error> for ResponseError {
    open spec fn obeys_from_spec() -> bool {
        true
    }

    open spec fn from_spec(v: httparse::Error) -> ResponseError {
        ResponseError::HeaderParse(v)
    }
}

impl From<nourl::Error> for ResponseError {
    fn from(_e: nourl::Error) -> (r: ResponseError) {
        ResponseError::UrlParse
    }
}

impl vstd::std_specs::convert::FromSpecImpl<nourl::Error> for ResponseError {
    open spec fn obeys_from_spec() -> bool {
        true
    }

    open spec fn from_spec(v: nourl::Error) -> ResponseError {
        ResponseError::UrlParse
    }
}

impl From<core::str::Utf8Error> for ResponseError {
    fn from(e: core::str::Utf8Error) -> (r: ResponseError) {
        ResponseError::StringConversion(e)
    }
}

impl vstd::std_specs::convert::FromSpecImpl<core::str::Utf8Error> for ResponseError {
    open spec fn obeys_from_spec() -> bool {
        true
    }

    open spec fn from_spec(v: core::str::Utf8Error) -> ResponseError {
        ResponseError::StringConversion(v)
    }
}

/// Failures of building a request.
#[derive(Debug, Clone, Copy, PartialEq, Eq, Structural)]
pub enum RequestError {
    /// Error when trying to convert a string to a fixed-size string.
    StringConversionError,
    /// Error when trying to push a string into a fixed-size string.
    StringPushError,
    /// Error when trying to create a new `RequestBuilder`.
    RequestBuilderCreationError,
}

/// One header line of a response head: its name and value bytes.
pub struct HeaderField {
    pub name: Vec<u8>,
    pub value: Vec<u8>,
}

impl View for HeaderField {
    type V = (Seq<u8>, Seq<u8>);

    open spec fn view(&self) -> (Seq<u8>, Seq<u8>) {
        (self.name@, self.value@)
    }
}

/// What parsing a response head yields.
pub enum HeadParse {
    /// The head is complete: it takes `size` bytes; the status code, if any,
    /// and the header lines in order.
    Complete { size: usize, code: Option<u16>, headers: Vec<HeaderField> },
    /// The head has not ended yet.
    Partial,
    /// The bytes are no valid head.
    Failed(httparse::Error),
}

/// The abstract content of a [`HeadParse`].
pub enum HeadView {
    Complete { size: usize, code: Option<u16>, headers: Seq<(Seq<u8>, Seq<u8>)> },
    Partial,
    Failed(httparse::Error),
}

impl View for HeadParse {
    type V = HeadView;

    open spec fn view(&self) -> HeadView {
        match self {
            HeadParse::Complete { size, code, headers } => HeadView::Complete {
                size: *size,
                code: *code,
                headers: headers@.map_values(|h: HeaderField| h@),
            },
            HeadParse::Partial => HeadView::Partial,
            HeadParse::Failed(e) => HeadView::Failed(*e),
        }
    }
}

/// What `httparse` makes of a response head, with room for
/// [`MAX_HEADERS`] header lines.
pub uninterp spec fn http_head(buf: Seq<u8>) -> HeadView;

/// `httparse::Response::parse` with room for [`MAX_HEADERS`] header lines.
/// Stated: the result is the one [`http_head`] names for these bytes, the
/// same for the same bytes. Not stated: which heads the HTTP grammar accepts.
#[verifier::external_body]
fn parse_head(buf: &[u8]) -> (r: HeadParse)
    ensures
        r@ == http_head(buf@),
{
    let mut headers = [httparse::EMPTY_HEADER; MAX_HEADERS];
    let mut response = httparse::Response::new(&mut headers);
    match response.parse(buf) {
        Err(e) => HeadParse::Failed(e),
        Ok(httparse::Status::Partial) => HeadParse::Partial,
        Ok(httparse::Status::Complete(size)) => HeadParse::Complete {
            size,
            code: response.code,
            headers: response.headers.iter().map(
                |h| HeaderField { name: h.name.as_bytes().to_vec(), value: h.value.to_vec() },
            ).collect(),
        },
    }
}

/// A byte in ASCII lower case.
pub open spec fn ascii_lower(b: u8) -> u8 {
    if 0x41 <= b <= 0x5a {
        (b + 0x20) as u8
    } else {
        b
    }
}

/// The bytes `location`.
pub open spec fn location_name() -> Seq<u8> {
    seq![0x6cu8, 0x6fu8, 0x63u8, 0x61u8, 0x74u8, 0x69u8, 0x6fu8, 0x6eu8]
}

/// Whether a header name is `location`, in any mix of cases.
pub open spec fn is_location_name(name: Seq<u8>) -> bool {
    &&& name.len() == location_name().len()
    &&& forall|i: int| 0 <= i < name.len() ==> ascii_lower(#[trigger] name[i]) == location_name()[i]
}

/// The value of the first `Location` header, if there is one.
pub open spec fn first_location(headers: Seq<(Seq<u8>, Seq<u8>)>) -> Option<Seq<u8>>
    decreases headers.len(),
{
    if headers.len() == 0 {
        None
    } else if is_location_name(headers[0].0) {
        Some(headers[0].1)
    } else {
        first_location(headers.drop_first())
    }
}

/// Executable form of [`is_location_name`].
fn name_is_location(name: &[u8]) -> (r: bool)
    ensures
        r == is_location_name(name@),
{
    if name.len() != 8 {
        return false;
    }
    let expected: [u8; 8] = [0x6cu8, 0x6fu8, 0x63u8, 0x61u8, 0x74u8, 0x69u8, 0x6fu8, 0x6eu8];
    assert(expected@ =~= location_name());
    let mut i: usize = 0;
    while i < 8
        invariant
            name@.len() == 8,
            expected@ == location_name(),
            i <= 8,
            forall|k: int| 0 <= k < i ==> ascii_lower(#[trigger] name@[k]) == location_name()[k],
        decreases 8 - i,
    {
        let b = name[i];
        let lower = if 0x41u8 <= b && b <= 0x5au8 { b + 0x20 } else { b };
        if lower != expected[i] {
            return false;
        }
        i = i + 1;
    }
    true
}

/// Where the first `Location` header stands, if there is one.
fn find_location(headers: &[HeaderField]) -> (r: Option<usize>)
    ensures
        match r {
            None => first_location(headers@.map_values(|h: HeaderField| h@)) is None,
            Some(k) => k < headers@.len() && first_location(headers@.map_values(|h: HeaderField| h@))
                == Some(headers@[k as int].value@),
        },
{
    let ghost hs = headers@.map_values(|h: HeaderField| h@);
    assert(hs.skip(0) =~= hs);
    let mut i: usize = 0;
    while i < headers.len()
        invariant
            hs == headers@.map_values(|h: HeaderField| h@),
            i <= headers@.len(),
            first_location(hs) == first_location(hs.skip(i as int)),
        decreases headers@.len() - i,
    {
        proof {
            assert(hs.skip(i as int).drop_first() =~= hs.skip(i + 1));
            assert(hs.skip(i as int)[0] == hs[i as int]);
        }
        if name_is_location(headers[i].name.as_slice()) {
            return Some(i);
        }
        i = i + 1;
    }
    assert(hs.skip(i as int).len() == 0);
    None
}

/// The response head as the radio reads it.
#[derive(Clone)]
pub struct Response {
    pub status_code: ResponseStatusCode,
    pub location: Option<String>,
    pub size: usize,
}

impl Default for Response {
    /// An unknown status, no location, size 0.
    fn default() -> (r: Response)
        ensures
            r.status_code == ResponseStatusCode::Unknown,
            r.location is None,
            r.size == 0,
    {
        Response { status_code: ResponseStatusCode::Unknown, location: None, size: 0 }
    }
}

impl Response {
    /// What reading a parsed head yields: its status and size, and the value
    /// of its first `Location` header as text; that value must fit
    /// [`MAX_URL_LEN`] bytes and be UTF-8.
    pub open spec fn head_matches(h: HeadView, r: Result<Response, ResponseError>) -> bool {
        match h {
            HeadView::Failed(e) => r matches Err(ResponseError::HeaderParse(e2)) && e2 == e,
            HeadView::Partial => r matches Err(ResponseError::IncompleteHeaders),
            HeadView::Complete { size, code, headers } => match first_location(headers) {
                None => r matches Ok(resp) && resp.status_code == optional_status_class(code)
                    && resp.location is None && resp.size == size,
                Some(v) => if v.len() > MAX_URL_LEN {
                    r matches Err(ResponseError::UrlParse)
                } else if !valid_utf8(v) {
                    r matches Err(ResponseError::StringConversion(_))
                } else {
                    r matches Ok(resp) && resp.status_code == optional_status_class(code) && resp.size
                        == size && (resp.location matches Some(loc) && loc@ == decode_utf8(v))
                },
            },
        }
    }

    /// Reads a parsed head; see [`Response::head_matches`].
    pub fn from_head(head: HeadParse) -> (r: Result<Response, ResponseError>)
        ensures
            Self::head_matches(head@, r),
    {
        match head {
            HeadParse::Failed(e) => Err(ResponseError::from(e)),
            HeadParse::Partial => Err(ResponseError::IncompleteHeaders),
            HeadParse::Complete { size, code, headers } => {
                let found = find_location(headers.as_slice());
                let location = match found {
                    None => None,
                    Some(k) => {
                        let v = headers[k].value.as_slice();
                        if v.len() > MAX_URL_LEN {
                            return Err(ResponseError::UrlParse);
                        }
                        match str_from_utf8(v) {
                            Ok(t) => Some(t.to_owned()),
                            Err(e) => return Err(ResponseError::from(e)),
                        }
                    },
                };
                Ok(Response { status_code: ResponseStatusCode::from(code), location, size })
            },
        }
    }

    /// Reads an HTTP response head from `header_buffer`.
    pub fn new(header_buffer: &[u8]) -> (r: Result<Response, ResponseError>)
        ensures
            Self::head_matches(http_head(header_buffer@), r),
    {
        Self::from_head(parse_head(header_buffer))
    }

    /// The status of the response.
    pub fn status_code(&self) -> (r: ResponseStatusCode)
        ensures
            r == self.status_code,
    {
        self.status_code.clone()
    }
}

} // verus!

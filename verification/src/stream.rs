//! The decisions of the audio streaming task: which URL to request and how,
//! where a response leads (audio, a playlist, a redirect), how playlists
//! give the next URL, and when buffered audio starts playing.
use vstd::prelude::*;
use vstd::utf8::*;

use crate::http_request::{
    header_outcome, host_name, request_text, utf8_len, HttpBuilderError, Method, Request,
    RequestView, PATH_SIZE,
};
use crate::http_response::{Response, ResponseError, ResponseStatusCode, MAX_URL_LEN};
use crate::m3u::{restart_state, restart_url, step, M3UError, State, Step, M3U};
use crate::text::{str_from_utf8, str_to_chars};

verus! {

/// Room, in bytes, for the HTTP head of a response.
pub const HEADER_SIZE: usize = 2048;

/// The number of bytes at the start of the content that tell its type.
pub const TOKEN_LEN: usize = 7;

#[verifier::external_type_specification]
#[verifier::external_body]
pub struct ExIoErrorKind(embedded_io_async::ErrorKind);

/// Whether the audio pipe is still being filled before playing starts.
#[derive(Debug, Clone, Copy, PartialEq, Eq, Structural)]
pub enum StreamingState {
    FillingPipe,
    Playing,
}

/// What a successful response carries.
#[derive(Debug)]
pub enum ContentType {
    Audio,
    SimpleM3U(String),
    ExtendedM3U(String),
}

/// Failures while streaming a station.
#[derive(Debug)]
pub enum StreamError {
    // Recoverable errors: problems with the station. The user can choose
    // another station if one does not work.
    Dns,
    IpAddressNotFound,
    ConnectionError,
    ConnectionPrematurelyClosed,
    Tcp(embedded_io_async::ErrorKind),
    StationUrlTooLong,
    MalformedUrl,
    HttpRequest(HttpBuilderError),
    HttpResponse(ResponseError),
    HeadersEndNotFound,
    UnableToReadContentType(embedded_io_async::ErrorKind),
    InvalidHttpCode(ResponseStatusCode),
    InvalidContent,
    TooManyBytesReadIn(usize),
    NoRedirectionLocationFound,
    RedirectionUrlTooLong,
    EmptyM3U,
    InvalidM3U(M3UError),
    M3uUrlTooLong,
    UrlNotFoundInM3U,
}

impl From<ResponseError> for StreamError {
    fn from(error: ResponseError) -> (r: StreamError) {
        StreamError::HttpResponse(error)
    }
}

impl vstd::std_specs::convert::FromSpecImpl<ResponseError> for StreamError {
    open spec fn obeys_from_spec() -> bool {
        true
    }

    open spec fn from_spec(v: ResponseError) -> StreamError {
        StreamError::HttpResponse(v)
    }
}

impl From<HttpBuilderError> for StreamError {
    fn from(error: HttpBuilderError) -> (r: StreamError) {
        StreamError::HttpRequest(error)
    }
}

impl vstd::std_specs::convert::FromSpecImpl<HttpBuilderError> for StreamError {
    open spec fn obeys_from_spec() -> bool {
        true
    }

    open spec fn from_spec(v: HttpBuilderError) -> StreamError {
        StreamError::HttpRequest(v)
    }
}

impl From<core::str::Utf8Error> for StreamError {
    fn from(_error: core::str::Utf8Error) -> (r: StreamError) {
        StreamError::MalformedUrl
    }
}

impl vstd::std_specs::convert::FromSpecImpl<core::str::Utf8Error> for StreamError {
    open spec fn obeys_from_spec() -> bool {
        true
    }

    open spec fn from_spec(v: core::str::Utf8Error) -> StreamError {
        StreamError::MalformedUrl
    }
}

impl From<M3UError> for StreamError {
    fn from(error: M3UError) -> (r: StreamError) {
        StreamError::InvalidM3U(error)
    }
}

impl vstd::std_specs::convert::FromSpecImpl<M3UError> for StreamError {
    open spec fn obeys_from_spec() -> bool {
        true
    }

    open spec fn from_spec(v: M3UError) -> StreamError {
        StreamError::InvalidM3U(v)
    }
}

impl From<nourl::Error> for StreamError {
    fn from(_error: nourl::Error) -> (r: StreamError) {
        StreamError::MalformedUrl
    }
}

impl vstd::std_specs::convert::FromSpecImpl<nourl::Error> for StreamError {
    open spec fn obeys_from_spec() -> bool {
        true
    }

    open spec fn from_spec(v: nourl::Error) -> StreamError {
        StreamError::MalformedUrl
    }
}

/// A URL for the station, in a buffer of [`MAX_URL_LEN`] bytes: a longer
/// URL is refused with `too_long`.
pub fn bounded_url(url: &str, too_long: StreamError) -> (r: Result<String, StreamError>)
    ensures
        utf8_len(url@) <= MAX_URL_LEN ==> (r matches Ok(s) && s@ == url@),
        utf8_len(url@) > MAX_URL_LEN ==> (r matches Err(e) && e == too_long),
{
    if url.as_bytes().len() > MAX_URL_LEN {
        Err(too_long)
    } else {
        Ok(url.to_owned())
    }
}

/// The URL schemes that `nourl` knows.
#[derive(Debug, Clone, Copy, PartialEq, Eq, Structural)]
pub enum UrlScheme {
    HTTP,
    HTTPS,
    MQTT,
    MQTTS,
}

/// The parts of a URL that a request needs.
pub struct UrlParts {
    pub scheme: UrlScheme,
    pub host: String,
    pub port: Option<u16>,
    pub path: String,
}

/// The abstract content of [`UrlParts`].
pub struct UrlPartsView {
    pub scheme: UrlScheme,
    pub host: Seq<char>,
    pub port: Option<u16>,
    pub path: Seq<char>,
}

impl View for UrlParts {
    type V = UrlPartsView;

    open spec fn view(&self) -> UrlPartsView {
        UrlPartsView { scheme: self.scheme, host: self.host@, port: self.port, path: self.path@ }
    }
}

/// The abstract content of a parse result.
pub open spec fn url_result_view(r: Result<UrlParts, nourl::Error>) -> Result<UrlPartsView, nourl::Error> {
    match r {
        Ok(p) => Ok(p@),
        Err(e) => Err(e),
    }
}

/// What `nourl` makes of a URL text: its scheme, host, port (if given) and
/// path (`/` if none), or why it is no URL.
pub uninterp spec fn nourl_parse(url: Seq<char>) -> Result<UrlPartsView, nourl::Error>;

/// `nourl::Url::parse`, with the scheme, host, port and path of the parsed
/// URL. Stated: the result is the one [`nourl_parse`] names for this text.
/// Not stated: which texts are URLs, and how they split.
#[verifier::external_body]
fn parse_url(url: &str) -> (r: Result<UrlParts, nourl::Error>)
    ensures
        url_result_view(r) == nourl_parse(url@),
{
    let u = match nourl::Url::parse(url) {
        Ok(u) => u,
        Err(e) => return Err(e),
    };
    let scheme = match u.scheme() {
        nourl::UrlScheme::HTTP => UrlScheme::HTTP,
        nourl::UrlScheme::HTTPS => UrlScheme::HTTPS,
        nourl::UrlScheme::MQTT => UrlScheme::MQTT,
        nourl::UrlScheme::MQTTS => UrlScheme::MQTTS,
    };
    Ok(UrlParts { scheme, host: u.host().to_owned(), port: u.port(), path: u.path().to_owned() })
}

/// The default port of a scheme.
pub open spec fn default_port(scheme: UrlScheme) -> u16 {
    match scheme {
        UrlScheme::HTTP => 80,
        UrlScheme::HTTPS => 443,
        UrlScheme::MQTT => 1883,
        UrlScheme::MQTTS => 8883,
    }
}

/// The port of a URL, or the default port of its scheme.
pub open spec fn port_or_default(p: UrlPartsView) -> u16 {
    match p.port {
        Some(port) => port,
        None => default_port(p.scheme),
    }
}

/// Where to connect and what to send to fetch a station.
pub struct StreamTarget {
    pub host: String,
    pub port: u16,
    pub request: String,
}

/// The header name `User-Agent`.
pub open spec fn user_agent_name() -> Seq<char> {
    seq!['U', 's', 'e', 'r', '-', 'A', 'g', 'e', 'n', 't']
}

/// The header name `Connection`.
pub open spec fn connection_name() -> Seq<char> {
    seq!['C', 'o', 'n', 'n', 'e', 'c', 't', 'i', 'o', 'n']
}

/// The header value `keep-alive`.
pub open spec fn keep_alive() -> Seq<char> {
    seq!['k', 'e', 'e', 'p', '-', 'a', 'l', 'i', 'v', 'e']
}

/// The request for a parsed station URL: `GET` of its path with the
/// headers `Host`, `User-Agent` and `Connection: keep-alive`, each of which
/// must fit the request's header room.
pub open spec fn stream_request_matches(p: UrlPartsView, user_agent: Seq<char>, r: Result<StreamTarget, StreamError>) -> bool {
    let path = if p.path.len() == 0 {
        seq!['/']
    } else {
        p.path
    };
    let (a, h1) = header_outcome(Seq::empty(), host_name(), p.host);
    let (b, h2) = header_outcome(h1, user_agent_name(), user_agent);
    let (c, h3) = header_outcome(h2, connection_name(), keep_alive());
    if utf8_len(p.path) > PATH_SIZE {
        r matches Err(StreamError::HttpRequest(HttpBuilderError::StringConversionError))
    } else if !a || !b || !c {
        r matches Err(StreamError::HttpRequest(HttpBuilderError::StringPushError))
    } else {
        r matches Ok(t) && t.host@ == p.host && t.port == port_or_default(p) && t.request@
            == request_text(RequestView { method: Method::GET, path: path, headers: h3, body: None })
    }
}

/// Where to connect and what to send to fetch the station at `url`.
pub fn stream_request(url: &str, user_agent: &str) -> (r: Result<StreamTarget, StreamError>)
    ensures
        match nourl_parse(url@) {
            Err(_) => r matches Err(StreamError::MalformedUrl),
            Ok(p) => stream_request_matches(p, user_agent@, r),
        },
{
    let parts = match parse_url(url) {
        Ok(p) => p,
        Err(e) => return Err(StreamError::from(e)),
    };
    let mut request = match Request::new(Method::GET, parts.path.as_str()) {
        Ok(req) => req,
        Err(e) => return Err(StreamError::from(e)),
    };
    let ua = "User-Agent";
    let conn = "Connection";
    let alive = "keep-alive";
    proof {
        reveal_strlit("User-Agent");
        reveal_strlit("Connection");
        reveal_strlit("keep-alive");
    }
    assert(ua@ =~= user_agent_name());
    assert(conn@ =~= connection_name());
    assert(alive@ =~= keep_alive());
    if let Err(e) = request.host(parts.host.as_str()) {
        return Err(StreamError::from(e));
    }
    if let Err(e) = request.header(ua, user_agent) {
        return Err(StreamError::from(e));
    }
    if let Err(e) = request.header(conn, alive) {
        return Err(StreamError::from(e));
    }
    let port = match parts.port {
        Some(p) => p,
        None => match parts.scheme {
            UrlScheme::HTTP => 80,
            UrlScheme::HTTPS => 443,
            UrlScheme::MQTT => 1883,
            UrlScheme::MQTTS => 8883,
        },
    };
    Ok(StreamTarget { host: parts.host, port, request: request.to_string() })
}

/// The bytes `\r\n\r\n` that end an HTTP head.
pub open spec fn blank_line() -> Seq<u8> {
    seq![0x0du8, 0x0au8, 0x0du8, 0x0au8]
}

/// Whether the first `pos` bytes read of a response end its head.
pub fn header_end_found(buffer: &[u8], pos: usize) -> (r: bool)
    requires
        pos <= buffer@.len(),
    ensures
        r == (pos >= 4 && buffer@.subrange(pos - 4, pos as int) == blank_line()),
{
    if pos < 4 {
        return false;
    }
    let r = buffer[pos - 4] == 0x0du8 && buffer[pos - 3] == 0x0au8 && buffer[pos - 2] == 0x0du8
        && buffer[pos - 1] == 0x0au8;
    proof {
        let t = buffer@.subrange(pos - 4, pos as int);
        if r {
            assert(t =~= blank_line());
        }
        if t == blank_line() {
            assert(t[0] == 0x0du8 && t[1] == 0x0au8 && t[2] == 0x0du8 && t[3] == 0x0au8);
        }
    }
    r
}

/// Where a response leads.
#[derive(Debug)]
pub enum ResponseAction {
    /// Read the content.
    ReadContent,
    /// Request this URL instead.
    Redirect(String),
}

/// Where a response leads: a success to its content, a redirection to its
/// `Location`, anything else is an error.
pub fn response_action(response: Response) -> (r: Result<ResponseAction, StreamError>)
    ensures
        match response.status_code {
            ResponseStatusCode::Successful(_) => r matches Ok(ResponseAction::ReadContent),
            ResponseStatusCode::Redirection(_) => match response.location {
                Some(loc) => r matches Ok(ResponseAction::Redirect(u)) && u@ == loc@,
                None => r matches Err(StreamError::NoRedirectionLocationFound),
            },
            other => r matches Err(StreamError::InvalidHttpCode(c)) && c == other,
        },
{
    match response.status_code {
        ResponseStatusCode::Successful(_) => Ok(ResponseAction::ReadContent),
        ResponseStatusCode::Redirection(_) => match response.location {
            Some(loc) => Ok(ResponseAction::Redirect(loc)),
            None => Err(StreamError::NoRedirectionLocationFound),
        },
        other => Err(StreamError::InvalidHttpCode(other)),
    }
}

/// What decides the URL of the streaming task's next request.
#[derive(Debug)]
pub enum StreamEvent {
    /// A station was chosen while none was being streamed; its URL.
    StationChosen(String),
    /// The response redirected to this `Location`.
    Redirected(String),
    /// The content was a playlist that leads to this URL.
    PlaylistFound(String),
    /// While its audio played, the tuner chose another station (its URL),
    /// or none.
    StationChanged(Option<String>),
}

/// Whether `r` is `url` kept in a buffer of [`MAX_URL_LEN`] bytes, or the
/// error `too_long` when it does not fit.
pub open spec fn bounded_matches(url: Seq<char>, too_long: StreamError, r: Result<String, StreamError>) -> bool {
    if utf8_len(url) <= MAX_URL_LEN {
        r matches Ok(s) && s@ == url
    } else {
        r matches Err(e) && e == too_long
    }
}

/// The URL of the next request: a chosen station's URL (refused when it
/// does not fit, [`StreamError::StationUrlTooLong`]); a redirection's
/// `Location`; a playlist's URL ([`StreamError::M3uUrlTooLong`] when it
/// does not fit); after audio, the newly chosen station's URL
/// ([`StreamError::RedirectionUrlTooLong`] when it does not fit), or the
/// empty URL when no station is chosen, which makes the task wait for one.
pub fn next_url(event: StreamEvent) -> (r: Result<String, StreamError>)
    ensures
        match event {
            StreamEvent::StationChosen(u) => bounded_matches(u@, StreamError::StationUrlTooLong, r),
            StreamEvent::Redirected(u) => r matches Ok(s) && s@ == u@,
            StreamEvent::PlaylistFound(u) => bounded_matches(u@, StreamError::M3uUrlTooLong, r),
            StreamEvent::StationChanged(Some(u)) => bounded_matches(
                u@,
                StreamError::RedirectionUrlTooLong,
                r,
            ),
            StreamEvent::StationChanged(None) => r matches Ok(s) && s@.len() == 0,
        },
{
    match event {
        StreamEvent::StationChosen(u) => bounded_url(u.as_str(), StreamError::StationUrlTooLong),
        StreamEvent::Redirected(u) => Ok(u),
        StreamEvent::PlaylistFound(u) => bounded_url(u.as_str(), StreamError::M3uUrlTooLong),
        StreamEvent::StationChanged(Some(u)) => bounded_url(
            u.as_str(),
            StreamError::RedirectionUrlTooLong,
        ),
        StreamEvent::StationChanged(None) => Ok(String::new()),
    }
}

/// The address to connect to from a name lookup's answer: the first one;
/// an empty answer is [`StreamError::IpAddressNotFound`].
pub fn first_address<A: Copy>(addresses: &[A]) -> (r: Result<A, StreamError>)
    ensures
        addresses@.len() == 0 ==> r matches Err(StreamError::IpAddressNotFound),
        addresses@.len() > 0 ==> (r matches Ok(a) && a == addresses@[0]),
{
    if addresses.len() == 0 {
        Err(StreamError::IpAddressNotFound)
    } else {
        Ok(addresses[0])
    }
}

/// The bytes `http://`: the content is a simple playlist.
pub open spec fn http_token() -> Seq<u8> {
    seq![0x68u8, 0x74u8, 0x74u8, 0x70u8, 0x3au8, 0x2fu8, 0x2fu8]
}

/// The bytes `#EXTM3U`: the content is an extended playlist.
pub open spec fn extm3u_token() -> Seq<u8> {
    seq![0x23u8, 0x45u8, 0x58u8, 0x54u8, 0x4du8, 0x33u8, 0x55u8]
}

/// The kind of content, told by its first bytes.
#[derive(Debug, Clone, Copy, PartialEq, Eq, Structural)]
pub enum TokenKind {
    Audio,
    SimpleM3U,
    ExtendedM3U,
}

/// The kind of content that starts with `token`: a simple playlist starts
/// with `http://`, an extended one with `#EXTM3U`; anything else is audio.
pub open spec fn token_kind(token: Seq<u8>) -> TokenKind {
    if token == http_token() {
        TokenKind::SimpleM3U
    } else if token == extm3u_token() {
        TokenKind::ExtendedM3U
    } else {
        TokenKind::Audio
    }
}

fn bytes_equal(a: &[u8], b: &[u8]) -> (r: bool)
    ensures
        r == (a@ == b@),
{
    if a.len() != b.len() {
        return false;
    }
    let mut i: usize = 0;
    while i < a.len()
        invariant
            a@.len() == b@.len(),
            i <= a@.len(),
            forall|k: int| 0 <= k < i ==> a@[k] == b@[k],
        decreases a@.len() - i,
    {
        if a[i] != b[i] {
            return false;
        }
        i = i + 1;
    }
    assert(a@ =~= b@);
    true
}

/// The kind of content that starts with `token`; see [`token_kind`].
pub fn classify_token(token: &[u8]) -> (r: TokenKind)
    ensures
        r == token_kind(token@),
{
    let http: [u8; 7] = [0x68u8, 0x74u8, 0x74u8, 0x70u8, 0x3au8, 0x2fu8, 0x2fu8];
    let extm3u: [u8; 7] = [0x23u8, 0x45u8, 0x58u8, 0x54u8, 0x4du8, 0x33u8, 0x55u8];
    assert(http@ =~= http_token());
    assert(extm3u@ =~= extm3u_token());
    if bytes_equal(token, http.as_slice()) {
        TokenKind::SimpleM3U
    } else if bytes_equal(token, extm3u.as_slice()) {
        TokenKind::ExtendedM3U
    } else {
        TokenKind::Audio
    }
}

/// Where the first line of a text ends: at its first `\n`, or at its end.
pub open spec fn first_newline(t: Seq<char>) -> nat
    decreases t.len(),
{
    if t.len() == 0 {
        0
    } else if t[0] == '\n' {
        0
    } else {
        1 + first_newline(t.drop_first())
    }
}

/// The first line of a text as `str::lines` yields it: up to the first
/// `\n`, without a `\r` just before it; a text without `\n` is one line;
/// an empty text has none.
pub open spec fn first_line(t: Seq<char>) -> Option<Seq<char>> {
    let k = first_newline(t);
    if t.len() == 0 {
        None
    } else if k == t.len() {
        Some(t)
    } else if k > 0 && t[k - 1] == '\r' {
        Some(t.take(k - 1))
    } else {
        Some(t.take(k as int))
    }
}

proof fn lemma_first_newline(t: Seq<char>, i: int)
    requires
        0 <= i <= t.len(),
        forall|j: int| 0 <= j < i ==> t[j] != '\n',
    ensures
        first_newline(t) == i + first_newline(t.skip(i)),
        first_newline(t) <= t.len(),
    decreases i,
{
    if i > 0 {
        assert(t.skip(1) =~= t.drop_first());
        assert(t.drop_first().skip(i - 1) =~= t.skip(i));
        lemma_first_newline(t.drop_first(), i - 1);
    } else {
        assert(t.skip(0) =~= t);
        lemma_first_newline_bound(t);
    }
}

proof fn lemma_first_newline_bound(t: Seq<char>)
    ensures
        first_newline(t) <= t.len(),
        first_newline(t) < t.len() ==> t[first_newline(t) as int] == '\n',
    decreases t.len(),
{
    if t.len() > 0 && t[0] != '\n' {
        lemma_first_newline_bound(t.drop_first());
    }
}

/// The text `http://`.
pub open spec fn http_prefix() -> Seq<char> {
    seq!['h', 't', 't', 'p', ':', '/', '/']
}

/// The stream URL in a simple playlist whose token `http://` has been read:
/// the token followed by the first line of the rest.
pub open spec fn simple_m3u_matches(data: Seq<u8>, r: Result<ContentType, StreamError>) -> bool {
    if data.len() == 0 {
        r matches Err(StreamError::EmptyM3U)
    } else if !valid_utf8(data) {
        r matches Err(StreamError::MalformedUrl)
    } else {
        match first_line(decode_utf8(data)) {
            None => r matches Err(StreamError::UrlNotFoundInM3U),
            Some(line) => if utf8_len(http_prefix() + line) > MAX_URL_LEN {
                r matches Err(StreamError::StationUrlTooLong)
            } else {
                r matches Ok(ContentType::SimpleM3U(u)) && u@ == http_prefix() + line
            },
        }
    }
}

/// The stream URL in the rest of a simple playlist, read after its token;
/// see [`simple_m3u_matches`].
pub fn simple_m3u_location(data: &[u8]) -> (r: Result<ContentType, StreamError>)
    ensures
        simple_m3u_matches(data@, r),
{
    if data.len() == 0 {
        return Err(StreamError::EmptyM3U);
    }
    let text = match str_from_utf8(data) {
        Ok(t) => t,
        Err(e) => return Err(StreamError::from(e)),
    };
    let chars = str_to_chars(text);
    let n = chars.len();
    let mut k: usize = 0;
    while k < n && chars[k] != '\n'
        invariant
            chars@ == text@,
            n == chars@.len(),
            k <= n,
            forall|j: int| 0 <= j < k ==> chars@[j] != '\n',
        decreases n - k,
    {
        k = k + 1;
    }
    proof {
        lemma_first_newline(text@, k as int);
        if k < n {
            assert(text@.skip(k as int)[0] == '\n');
        } else {
            assert(text@.skip(k as int).len() == 0);
        }
    }
    let end = if k < n && k > 0 && chars[k - 1] == '\r' {
        k - 1
    } else {
        k
    };
    let line = text.substring_char(0, end);
    let prefix = "http://";
    proof {
        reveal_strlit("http://");
    }
    assert(prefix@ =~= http_prefix());
    let mut url = prefix.to_owned();
    url.append(line);
    assert(line@ =~= first_line(text@).unwrap()) by {
        if k == n {
            assert(text@.subrange(0, n as int) =~= text@);
        }
    }
    if url.as_str().as_bytes().len() > MAX_URL_LEN {
        return Err(StreamError::StationUrlTooLong);
    }
    Ok(ContentType::SimpleM3U(url))
}

/// What one read of an extended playlist gives.
#[derive(Debug, Clone, Copy, PartialEq, Eq, Structural)]
pub enum ReadEvent {
    /// The end of the content.
    Eof,
    /// One byte.
    Byte(u8),
    /// More bytes than asked for.
    Bytes(usize),
    /// The read failed.
    Failed,
}

/// One read of an extended playlist, fed to the scanner `m3u`: `None` while
/// no URL is known; then the first stream URL, the URL pending at the end of
/// the content, or why there is none. A playlist whose reading fails is
/// invalid: it could not be read up to the end of a URL.
pub fn extended_m3u_step(m3u: &mut M3U<MAX_URL_LEN>, event: ReadEvent) -> (r: Option<
    Result<ContentType, StreamError>,
>)
    requires
        old(m3u).wf(),
        event matches ReadEvent::Byte(b) ==> old(m3u).has_room_for(b),
    ensures
        final(m3u).wf(),
        match event {
            ReadEvent::Bytes(n) => r matches Some(Err(StreamError::TooManyBytesReadIn(k))) && k == n
                && final(m3u).state() == old(m3u).state() && final(m3u).url() == old(m3u).url(),
            ReadEvent::Failed => r matches Some(Err(StreamError::InvalidM3U(M3UError::MalformedUrl)))
                && final(m3u).state() == old(m3u).state() && final(m3u).url() == old(m3u).url(),
            ReadEvent::Eof => {
                &&& final(m3u).state() == old(m3u).state()
                &&& final(m3u).url() == old(m3u).url()
                &&& old(m3u).state() != State::Rest ==> (r matches Some(
                    Err(StreamError::InvalidM3U(M3UError::MalformedUrl)),
                ))
                &&& old(m3u).state() == State::Rest ==> if valid_utf8(old(m3u).url()) {
                    r matches Some(Ok(ContentType::ExtendedM3U(u))) && u@ == decode_utf8(old(m3u).url())
                } else {
                    r matches Some(Err(StreamError::InvalidM3U(M3UError::Utf8ConversionError(_))))
                }
            },
            ReadEvent::Byte(b) => match step(old(m3u).state(), b) {
                Step::Advance(next, stored) => {
                    &&& r is None
                    &&& final(m3u).state() == next
                    &&& final(m3u).url() == if stored {
                        old(m3u).url().push(b)
                    } else {
                        old(m3u).url()
                    }
                },
                Step::Complete => if valid_utf8(old(m3u).url()) {
                    r matches Some(Ok(ContentType::ExtendedM3U(u))) && u@ == decode_utf8(old(m3u).url())
                } else {
                    r matches Some(Err(StreamError::InvalidM3U(M3UError::Utf8ConversionError(_))))
                },
                Step::Malformed => r matches Some(Err(StreamError::InvalidM3U(M3UError::MalformedUrl))),
                Step::Restart => {
                    &&& r is None
                    &&& final(m3u).state() == restart_state(b)
                    &&& final(m3u).url() == restart_url(b)
                },
            },
        },
{
    match event {
        ReadEvent::Bytes(n) => Some(Err(StreamError::TooManyBytesReadIn(n))),
        ReadEvent::Failed => Some(Err(StreamError::InvalidM3U(M3UError::MalformedUrl))),
        ReadEvent::Eof => match m3u.terminate() {
            Ok(url) => Some(Ok(ContentType::ExtendedM3U(url))),
            Err(e) => Some(Err(StreamError::from(e))),
        },
        ReadEvent::Byte(b) => match m3u.parse_m3u(b) {
            Ok(Some(url)) => Some(Ok(ContentType::ExtendedM3U(url))),
            Ok(None) => None,
            Err(e) => Some(Err(StreamError::from(e))),
        },
    }
}

/// One chunk of audio written to the pipe: while the pipe is being filled,
/// playing starts once it holds three quarters of its capacity. Returns the
/// new state and whether to start playing now.
pub fn fill_step(state: StreamingState, pipe_len: usize, capacity: usize) -> (r: (StreamingState, bool))
    requires
        capacity <= usize::MAX / 3,
    ensures
        r.1 == (state == StreamingState::FillingPipe && pipe_len >= 3 * capacity / 4),
        r.0 == if r.1 {
            StreamingState::Playing
        } else {
            state
        },
{
    let initial_fill_len = 3 * capacity / 4;
    if state == StreamingState::FillingPipe && pipe_len >= initial_fill_len {
        (StreamingState::Playing, true)
    } else {
        (state, false)
    }
}

} // verus!

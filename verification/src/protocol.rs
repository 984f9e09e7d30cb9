//! The line protocol between the controller and the radio over a UART:
//! commands `CMD:p1,p2,...;` go out, and replies `ACK:p1,p2,...;` or
//! `ERR:code;` come back.
use vstd::prelude::*;
use vstd::utf8::*;

use crate::text::{parse_usize, parse_usize_spec, str_to_chars, string_push};

verus! {

/// The most parameters a command or a reply carries.
pub const MAX_NUMBER_PARAMETERS: usize = 5;

/// Room, in UTF-8 bytes, for one reply parameter.
pub const MAX_PARAMETER_LEN: usize = 40;

/// Room, in UTF-8 bytes, for a station name in a reply.
pub const MAX_STATION_NAME_LEN: usize = 40;

/// Room, in UTF-8 bytes, for the code of an `ERR:` reply.
pub const MAX_ERROR_CODE_LEN: usize = 3;

/// Length of the reply header `ACK:` or `ERR:`.
pub const HEADER_LEN: usize = 4;

#[verifier::external_type_specification]
#[verifier::external_body]
pub struct ExSerialErrorKind(embedded_hal_nb::serial::ErrorKind);

/// The commands the controller sends.
#[derive(PartialEq, Eq, Debug, Clone, Copy, Structural)]
pub enum Command {
    Station,
    Preset,
    Config,
    Undefined,
}

/// Failures of one exchange over the UART.
#[derive(PartialEq, Eq, Debug, Clone, Copy)]
pub enum UartHandlerError {
    /// The radio answered `ERR:001;`.
    ClientCannotHandleCommand,
    /// The radio answered `ERR:` with another code.
    ClientSentUnknownErrorCode,
    /// The reply starts with neither `ACK:` nor `ERR:`.
    IllFormedReponse,
    /// Writing to the serial line failed.
    SerialWrite(embedded_hal_nb::serial::ErrorKind),
}

/// Failures of the radio commands.
#[derive(PartialEq, Eq, Debug, Clone, Copy)]
pub enum RadioControlProtocolError {
    Uart(UartHandlerError),
    StationNameNotReceived,
    ParseParameter,
    IncorrectNumberParametersReturned,
}

impl From<UartHandlerError> for RadioControlProtocolError {
    fn from(error: UartHandlerError) -> (r: RadioControlProtocolError) {
        RadioControlProtocolError::Uart(error)
    }
}

impl vstd::std_specs::convert::FromSpecImpl<UartHandlerError> for RadioControlProtocolError {
    open spec fn obeys_from_spec() -> bool {
        true
    }

    open spec fn from_spec(v: UartHandlerError) -> RadioControlProtocolError {
        RadioControlProtocolError::Uart(v)
    }
}

/// The text of each command: `STA`, `PRE`, `CFG`, `UND`.
pub open spec fn command_tag(c: Command) -> Seq<char> {
    match c {
        Command::Station => seq!['S', 'T', 'A'],
        Command::Preset => seq!['P', 'R', 'E'],
        Command::Config => seq!['C', 'F', 'G'],
        Command::Undefined => seq!['U', 'N', 'D'],
    }
}

/// The ASCII bytes of a text of ASCII characters.
pub open spec fn ascii_bytes(t: Seq<char>) -> Seq<u8> {
    t.map_values(|c: char| c as u8)
}

impl Command {
    /// The command's text.
    pub fn stringify(&self) -> (s: String)
        ensures
            s@ == command_tag(*self),
    {
        let t = match self {
            Command::Station => "STA",
            Command::Preset => "PRE",
            Command::Config => "CFG",
            Command::Undefined => "UND",
        };
        proof {
            reveal_strlit("STA");
            reveal_strlit("PRE");
            reveal_strlit("CFG");
            reveal_strlit("UND");
        }
        let s = t.to_owned();
        assert(s@ =~= command_tag(*self));
        s
    }
}

/// Parameters joined by commas.
pub open spec fn join_params(ps: Seq<Seq<u8>>) -> Seq<u8>
    decreases ps.len(),
{
    if ps.len() == 0 {
        Seq::empty()
    } else if ps.len() == 1 {
        ps[0]
    } else {
        join_params(ps.drop_last()) + seq![0x2cu8] + ps.last()
    }
}

/// The bytes of a command frame: `CMD:p1,p2,...;`.
pub open spec fn command_frame(c: Command, ps: Seq<Seq<u8>>) -> Seq<u8> {
    ascii_bytes(command_tag(c)) + seq![0x3au8] + join_params(ps) + seq![0x3bu8]
}

/// The UTF-8 bytes of each text.
pub open spec fn texts_bytes(ps: Seq<&str>) -> Seq<Seq<u8>> {
    ps.map_values(|p: &str| encode_utf8(p@))
}

/// The bytes sent for `command` with `parameters`: the command, a colon,
/// the parameters separated by commas and a closing semicolon.
pub fn command_frame_bytes(command: Command, parameters: &[&str]) -> (r: Vec<u8>)
    ensures
        r@ == command_frame(command, texts_bytes(parameters@)),
{
    let tag = command.stringify();
    let tag_bytes = tag.as_str().as_bytes();
    proof {
        vstd::utf8::is_ascii_chars_encode_utf8(command_tag(command));
    }
    let mut r: Vec<u8> = Vec::new();
    r.extend_from_slice(tag_bytes);
    assert(r@ =~= ascii_bytes(command_tag(command)));
    r.push(0x3au8);
    let ghost head = r@;
    let mut i: usize = 0;
    while i < parameters.len()
        invariant
            i <= parameters@.len(),
            r@ == head + join_params(texts_bytes(parameters@).take(i as int)),
        decreases parameters@.len() - i,
    {
        let ghost before = r@;
        if i > 0 {
            r.push(0x2cu8);
        }
        let b = parameters[i].as_bytes();
        r.extend_from_slice(b);
        proof {
            let ps = texts_bytes(parameters@);
            assert(ps.take(i + 1).drop_last() =~= ps.take(i as int));
            assert(ps.take(i + 1).last() == encode_utf8(parameters@[i as int]@));
            if i == 0 {
                assert(ps.take(0) =~= Seq::<Seq<u8>>::empty());
                assert(r@ =~= head + join_params(ps.take(i + 1)));
            } else {
                assert(r@ =~= head + join_params(ps.take(i + 1)));
            }
        }
        i = i + 1;
    }
    r.push(0x3bu8);
    assert(texts_bytes(parameters@).take(parameters@.len() as int) =~= texts_bytes(parameters@));
    assert(r@ =~= command_frame(command, texts_bytes(parameters@)));
    r
}

/// The decimal digits of a number, most significant first, without leading
/// zeros (`0` for zero).
pub open spec fn decimal(n: nat) -> Seq<char>
    decreases n,
{
    if n < 10 {
        seq![((n + 48) as u32) as char]
    } else {
        decimal(n / 10).push((((n % 10) + 48) as u32) as char)
    }
}

/// `itoa::Buffer::format` for a `u8`: the number written in decimal.
#[verifier::external_body]
fn format_u8(n: u8) -> (s: String)
    ensures
        s@ == decimal(n as nat),
{
    let mut buffer = itoa::Buffer::new();
    buffer.format(n).to_owned()
}


proof fn lemma_decimal_is_ascii_digits(n: nat)
    ensures
        decimal(n).len() >= 1,
        forall|i: int| 0 <= i < decimal(n).len() ==> '0' <= #[trigger] decimal(n)[i] <= '9',
    decreases n,
{
    if n >= 10 {
        lemma_decimal_is_ascii_digits(n / 10);
    }
}

/// The UTF-8 bytes of a decimal number are its ASCII digits.
proof fn lemma_decimal_bytes(n: nat)
    ensures
        encode_utf8(decimal(n)) == ascii_bytes(decimal(n)),
{
    lemma_decimal_is_ascii_digits(n);
    vstd::utf8::is_ascii_chars_encode_utf8(decimal(n));
    assert(encode_utf8(decimal(n)) =~= ascii_bytes(decimal(n)));
}

/// A command frame with one number as its parameter.
fn numbered_request(command: Command, n: u8) -> (r: Vec<u8>)
    ensures
        r@ == command_frame(command, seq![ascii_bytes(decimal(n as nat))]),
{
    let text = format_u8(n);
    let mut params: Vec<&str> = Vec::new();
    params.push(text.as_str());
    let r = command_frame_bytes(command, params.as_slice());
    proof {
        lemma_decimal_bytes(n as nat);
        assert(texts_bytes(params@) =~= seq![ascii_bytes(decimal(n as nat))]);
    }
    r
}

/// The frame that tunes the radio to station `station_id`: `STA:<id>;`.
pub fn station_request(station_id: u8) -> (r: Vec<u8>)
    ensures
        r@ == command_frame(Command::Station, seq![ascii_bytes(decimal(station_id as nat))]),
{
    numbered_request(Command::Station, station_id)
}

/// The frame that tunes the radio to preset `preset_id`: `PRE:<id>;`.
pub fn preset_request(preset_id: u8) -> (r: Vec<u8>)
    ensures
        r@ == command_frame(Command::Preset, seq![ascii_bytes(decimal(preset_id as nat))]),
{
    numbered_request(Command::Preset, preset_id)
}

/// The frame that asks the radio for its configuration: `CFG:;`.
pub fn config_request() -> (r: Vec<u8>)
    ensures
        r@ == command_frame(Command::Config, Seq::<Seq<u8>>::empty()),
{
    let params: Vec<&str> = Vec::new();
    let r = command_frame_bytes(Command::Config, params.as_slice());
    assert(texts_bytes(params@) =~= Seq::<Seq<u8>>::empty());
    r
}

/// The station name in a reply: its first parameter.
pub fn station_name_from_reply(reply: Result<Vec<String>, UartHandlerError>) -> (r: Result<
    String,
    RadioControlProtocolError,
>)
    ensures
        match reply {
            Err(e) => r == Err::<String, RadioControlProtocolError>(RadioControlProtocolError::Uart(e)),
            Ok(ps) => if ps@.len() > 0 {
                r matches Ok(name) && name@ == ps@[0]@
            } else {
                r == Err::<String, RadioControlProtocolError>(
                    RadioControlProtocolError::StationNameNotReceived,
                )
            },
        },
{
    match reply {
        Err(e) => Err(RadioControlProtocolError::from(e)),
        Ok(ps) => if ps.len() > 0 {
            Ok(ps[0].clone())
        } else {
            Err(RadioControlProtocolError::StationNameNotReceived)
        },
    }
}

/// The number of stations in a reply to `CFG`: its first parameter, read
/// as a decimal `usize`.
pub fn number_stations_from_reply(reply: Result<Vec<String>, UartHandlerError>) -> (r: Result<
    usize,
    RadioControlProtocolError,
>)
    ensures
        match reply {
            Err(e) => r == Err::<usize, RadioControlProtocolError>(RadioControlProtocolError::Uart(e)),
            Ok(ps) => if ps@.len() > 0 {
                match parse_usize_spec(ps@[0]@) {
                    Some(n) => r == Ok::<usize, RadioControlProtocolError>(n),
                    None => r == Err::<usize, RadioControlProtocolError>(
                        RadioControlProtocolError::ParseParameter,
                    ),
                }
            } else {
                r == Err::<usize, RadioControlProtocolError>(
                    RadioControlProtocolError::IncorrectNumberParametersReturned,
                )
            },
        },
{
    match reply {
        Err(e) => Err(RadioControlProtocolError::from(e)),
        Ok(ps) => if ps.len() > 0 {
            let chars = str_to_chars(ps[0].as_str());
            match parse_usize(chars.as_slice()) {
                Some(n) => Ok(n),
                None => Err(RadioControlProtocolError::ParseParameter),
            }
        } else {
            Err(RadioControlProtocolError::IncorrectNumberParametersReturned)
        },
    }
}

/// What the bytes of a reply, read up to the point where the reader
/// stops, amount to.
pub enum Reply {
    /// More bytes are needed.
    Pending,
    /// An `ACK:` reply with these parameters.
    Params(Seq<Seq<u8>>),
    /// The reply reports an error, or is no reply at all.
    Refused(UartHandlerError),
}

/// The bytes `ACK:`.
pub open spec fn ack_tag() -> Seq<u8> {
    seq![0x41u8, 0x43u8, 0x4bu8, 0x3au8]
}

/// The bytes `ERR:`.
pub open spec fn err_tag() -> Seq<u8> {
    seq![0x45u8, 0x52u8, 0x52u8, 0x3au8]
}

/// The error code `001`: the radio cannot handle the command.
pub open spec fn cannot_handle_code() -> Seq<u8> {
    seq![0x30u8, 0x30u8, 0x31u8]
}

/// How many UTF-8 bytes a received byte takes once it is stored as the
/// character with the same number.
pub open spec fn byte_width(b: u8) -> nat {
    if b < 0x80 {
        1
    } else {
        2
    }
}

/// How many UTF-8 bytes received bytes take as characters.
pub open spec fn latin1_len(s: Seq<u8>) -> nat
    decreases s.len(),
{
    if s.len() == 0 {
        0
    } else {
        latin1_len(s.drop_last()) + byte_width(s.last())
    }
}

/// Received bytes as characters: each byte is the character with its number.
pub open spec fn latin1(s: Seq<u8>) -> Seq<char> {
    s.map_values(|b: u8| b as char)
}

/// The pieces of `s` between commas; there is always at least one.
pub open spec fn split_fields(s: Seq<u8>) -> Seq<Seq<u8>>
    decreases s.len(),
{
    if s.len() == 0 {
        seq![Seq::<u8>::empty()]
    } else if s.last() == 0x2cu8 {
        split_fields(s.drop_last()).push(Seq::<u8>::empty())
    } else {
        let f = split_fields(s.drop_last());
        f.update(f.len() - 1, f.last().push(s.last()))
    }
}

/// The parameters of an `ACK:` reply: the pieces between commas, without a
/// last piece that is empty.
pub open spec fn ack_params(content: Seq<u8>) -> Seq<Seq<u8>> {
    let f = split_fields(content);
    if f.last().len() == 0 {
        f.drop_last()
    } else {
        f
    }
}

/// Whether a reply body has reached its closing `;`.
pub open spec fn terminated(body: Seq<u8>) -> bool {
    body.len() > 0 && body.last() == 0x3bu8
}

/// A reply body without its closing `;`.
pub open spec fn body_content(body: Seq<u8>) -> Seq<u8> {
    if terminated(body) {
        body.drop_last()
    } else {
        body
    }
}

/// The error an `ERR:` code stands for.
pub open spec fn error_for_code(code: Seq<u8>) -> UartHandlerError {
    if code == cannot_handle_code() {
        UartHandlerError::ClientCannotHandleCommand
    } else {
        UartHandlerError::ClientSentUnknownErrorCode
    }
}

/// The meaning of the bytes read of a reply: four header bytes, then for
/// `ACK:` the parameters up to `;`, for `ERR:` the error code up to `;`;
/// any other header is refused at once.
pub open spec fn reply_of(s: Seq<u8>) -> Reply {
    if s.len() < HEADER_LEN {
        Reply::Pending
    } else if s.take(4) == ack_tag() {
        if terminated(s.skip(4)) {
            Reply::Params(ack_params(body_content(s.skip(4))))
        } else {
            Reply::Pending
        }
    } else if s.take(4) == err_tag() {
        if terminated(s.skip(4)) {
            Reply::Refused(error_for_code(body_content(s.skip(4))))
        } else {
            Reply::Pending
        }
    } else {
        Reply::Refused(UartHandlerError::IllFormedReponse)
    }
}

/// Whether the parameters of an `ACK:` body fit: at most
/// [`MAX_NUMBER_PARAMETERS`] of them, each of at most [`MAX_PARAMETER_LEN`]
/// UTF-8 bytes.
pub open spec fn ack_fits(body: Seq<u8>) -> bool {
    let f = split_fields(body_content(body));
    &&& f.len() <= MAX_NUMBER_PARAMETERS + 1
    &&& forall|i: int| 0 <= i < f.len() ==> latin1_len(#[trigger] f[i]) <= MAX_PARAMETER_LEN
    &&& (terminated(body) && f.last().len() > 0 ==> f.len() <= MAX_NUMBER_PARAMETERS)
}

/// Whether the bytes read of a reply fit the reader's buffers: the header
/// takes at most four UTF-8 bytes, the parameters fit, an error code takes at
/// most [`MAX_ERROR_CODE_LEN`] UTF-8 bytes.
pub open spec fn reply_fits(s: Seq<u8>) -> bool {
    if s.len() < HEADER_LEN {
        latin1_len(s) <= HEADER_LEN
    } else {
        &&& latin1_len(s.take(4)) <= HEADER_LEN
        &&& (s.take(4) == ack_tag() ==> ack_fits(s.skip(4)))
        &&& (s.take(4) == err_tag() ==> latin1_len(body_content(s.skip(4))) <= MAX_ERROR_CODE_LEN)
    }
}

/// Whether texts hold, one for one, the given bytes as characters.
pub open spec fn strings_match(v: Seq<String>, ps: Seq<Seq<u8>>) -> bool {
    &&& v.len() == ps.len()
    &&& forall|i: int| 0 <= i < ps.len() ==> #[trigger] v[i]@ == latin1(ps[i])
}

/// Whether a byte sequence holds no `;`.
pub open spec fn no_semicolon(s: Seq<u8>) -> bool {
    forall|i: int| 0 <= i < s.len() ==> #[trigger] s[i] != 0x3bu8
}

proof fn lemma_split_fields_nonempty(s: Seq<u8>)
    ensures
        split_fields(s).len() >= 1,
    decreases s.len(),
{
    if s.len() > 0 {
        lemma_split_fields_nonempty(s.drop_last());
    }
}

proof fn lemma_push_unfolds(s: Seq<u8>, b: u8)
    ensures
        latin1_len(s.push(b)) == latin1_len(s) + byte_width(b),
        latin1(s.push(b)) == latin1(s).push(b as char),
        b == 0x2cu8 ==> split_fields(s.push(b)) == split_fields(s).push(Seq::<u8>::empty()),
        b != 0x2cu8 ==> split_fields(s.push(b)) == split_fields(s).update(
            split_fields(s).len() - 1,
            split_fields(s).last().push(b),
        ),
{
    assert(s.push(b).drop_last() =~= s);
    assert(latin1(s.push(b)) =~= latin1(s).push(b as char));
}

proof fn lemma_latin1_len_zero(s: Seq<u8>)
    ensures
        (latin1_len(s) == 0) == (s.len() == 0),
    decreases s.len(),
{
    if s.len() > 0 {
        lemma_latin1_len_zero(s.drop_last());
    }
}

proof fn lemma_skip_push(s: Seq<u8>, b: u8)
    requires
        s.len() >= 4,
    ensures
        s.push(b).take(4) == s.take(4),
        s.push(b).skip(4) == s.skip(4).push(b),
{
    assert(s.push(b).take(4) =~= s.take(4));
    assert(s.push(b).skip(4) =~= s.skip(4).push(b));
}

/// Where the reader is in a reply.
#[derive(PartialEq, Eq, Clone, Copy, Structural)]
enum Phase {
    Header,
    Acknowledged,
    ErrorCode,
    Done,
}

/// Reads one reply, a byte at a time.
pub struct ResponseReader {
    phase: Phase,
    header: Vec<u8>,
    header_len: usize,
    params: Vec<String>,
    param: String,
    param_len: usize,
    code: Vec<u8>,
    code_len: usize,
    received: Ghost<Seq<u8>>,
}

impl ResponseReader {
    /// The bytes read so far.
    pub closed spec fn received(&self) -> Seq<u8> {
        self.received@
    }

    /// Whether the reader waits for more bytes.
    pub open spec fn is_pending(&self) -> bool {
        reply_of(self.received()) is Pending
    }

    /// The reader's fields agree with the bytes read.
    pub closed spec fn wf(&self) -> bool {
        let s = self.received@;
        &&& reply_fits(s)
        &&& match self.phase {
            Phase::Header => {
                &&& s.len() < HEADER_LEN
                &&& self.header@ == s
                &&& self.header_len == latin1_len(s)
                &&& self.params@.len() == 0
                &&& self.param@ == Seq::<char>::empty()
                &&& self.param_len == 0
                &&& self.code@ == Seq::<u8>::empty()
                &&& self.code_len == 0
            },
            Phase::Acknowledged => {
                let f = split_fields(s.skip(4));
                &&& s.len() >= HEADER_LEN
                &&& s.take(4) == ack_tag()
                &&& no_semicolon(s.skip(4))
                &&& self.params@.len() + 1 == f.len()
                &&& forall|i: int| 0 <= i < self.params@.len() ==> #[trigger] self.params@[i]@ == latin1(f[i])
                &&& self.param@ == latin1(f.last())
                &&& self.param_len == latin1_len(f.last())
            },
            Phase::ErrorCode => {
                &&& s.len() >= HEADER_LEN
                &&& s.take(4) == err_tag()
                &&& no_semicolon(s.skip(4))
                &&& self.code@ == s.skip(4)
                &&& self.code_len == latin1_len(s.skip(4))
            },
            Phase::Done => !(reply_of(s) is Pending),
        }
    }

    /// A reader that has read nothing.
    pub fn new() -> (r: ResponseReader)
        ensures
            r.wf(),
            r.received() == Seq::<u8>::empty(),
    {
        ResponseReader {
            phase: Phase::Header,
            header: Vec::new(),
            header_len: 0,
            params: Vec::new(),
            param: String::new(),
            param_len: 0,
            code: Vec::new(),
            code_len: 0,
            received: Ghost(Seq::empty()),
        }
    }

    /// Whether the reader can store byte `b` as the next byte of the reply.
    pub fn accepts(&self, b: u8) -> (r: bool)
        requires
            self.wf(),
            self.is_pending(),
        ensures
            r == reply_fits(self.received().push(b)),
    {
        let ghost s = self.received@;
        let w: usize = if b < 0x80 { 1 } else { 2 };
        proof {
            lemma_push_unfolds(s, b);
        }
        match self.phase {
            Phase::Header => {
                proof {
                    if s.len() == 3 {
                        let s2 = s.push(b);
                        assert(s2.take(4) =~= s2);
                        assert(s2.skip(4) =~= Seq::<u8>::empty());
                        assert(split_fields(Seq::<u8>::empty()) == seq![Seq::<u8>::empty()]);
                    }
                }
                self.header_len + w <= HEADER_LEN
            },
            Phase::Acknowledged => {
                proof {
                    lemma_skip_push(s, b);
                    lemma_push_unfolds(s.skip(4), b);
                    lemma_split_fields_nonempty(s.skip(4));
                    lemma_latin1_len_zero(split_fields(s.skip(4)).last());
                    assert(s.skip(4).push(b).drop_last() =~= s.skip(4));
                }
                if b == 0x3bu8 {
                    self.param_len == 0 || self.params.len() + 1 <= MAX_NUMBER_PARAMETERS
                } else if b == 0x2cu8 {
                    self.params.len() < MAX_NUMBER_PARAMETERS
                } else {
                    let r = self.param_len + w <= MAX_PARAMETER_LEN;
                    proof {
                        let f = split_fields(s.skip(4));
                        let f2 = split_fields(s.skip(4).push(b));
                        lemma_push_unfolds(f.last(), b);
                        if r {
                            assert forall|i: int| 0 <= i < f2.len() implies latin1_len(#[trigger] f2[i])
                                <= MAX_PARAMETER_LEN by {
                                if i < f.len() - 1 {
                                    assert(f2[i] == f[i]);
                                }
                            }
                        } else {
                            assert(latin1_len(f2[f2.len() - 1]) > MAX_PARAMETER_LEN);
                        }
                    }
                    r
                }
            },
            Phase::ErrorCode => {
                proof {
                    lemma_skip_push(s, b);
                    assert(s.skip(4).push(b).drop_last() =~= s.skip(4));
                    lemma_push_unfolds(s.skip(4), b);
                }
                b == 0x3bu8 || self.code_len + w <= MAX_ERROR_CODE_LEN
            },
            Phase::Done => false,
        }
    }

    /// Reads byte `b` of the reply. Returns `None` while more bytes are
    /// needed, then the parameters of an `ACK:` reply or the error the reply
    /// stands for.
    pub fn feed(&mut self, b: u8) -> (r: Option<Result<Vec<String>, UartHandlerError>>)
        requires
            old(self).wf(),
            old(self).is_pending(),
            reply_fits(old(self).received().push(b)),
        ensures
            final(self).wf(),
            final(self).received() == old(self).received().push(b),
            match reply_of(final(self).received()) {
                Reply::Pending => r is None,
                Reply::Params(ps) => r matches Some(Ok(v)) && strings_match(v@, ps),
                Reply::Refused(e) => r == Some(Err::<Vec<String>, UartHandlerError>(e)),
            },
    {
        let ghost s = self.received@;
        let ghost s2 = s.push(b);
        proof {
            lemma_push_unfolds(s, b);
        }
        self.received = Ghost(s2);
        let w: usize = if b < 0x80 { 1 } else { 2 };
        match self.phase {
            Phase::Header => {
                self.header.push(b);
                self.header_len = self.header_len + w;
                if self.header.len() < HEADER_LEN {
                    return None;
                }
                proof {
                    assert(s2.take(4) =~= s2);
                    assert(s2.skip(4) =~= Seq::<u8>::empty());
                    assert(split_fields(Seq::<u8>::empty()) == seq![Seq::<u8>::empty()]);
                    assert(latin1(Seq::<u8>::empty()) =~= Seq::<char>::empty());
                }
                let h = self.header.as_slice();
                if h[0] == 0x41u8 && h[1] == 0x43u8 && h[2] == 0x4bu8 && h[3] == 0x3au8 {
                    assert(s2 =~= ack_tag());
                    self.phase = Phase::Acknowledged;
                    None
                } else if h[0] == 0x45u8 && h[1] == 0x52u8 && h[2] == 0x52u8 && h[3] == 0x3au8 {
                    assert(s2 =~= err_tag());
                    self.phase = Phase::ErrorCode;
                    None
                } else {
                    proof {
                        if s2 == ack_tag() {
                            assert(s2[0] == 0x41u8 && s2[1] == 0x43u8 && s2[2] == 0x4bu8 && s2[3] == 0x3au8);
                        }
                        if s2 == err_tag() {
                            assert(s2[0] == 0x45u8 && s2[1] == 0x52u8 && s2[2] == 0x52u8 && s2[3] == 0x3au8);
                        }
                    }
                    self.phase = Phase::Done;
                    Some(Err(UartHandlerError::IllFormedReponse))
                }
            },
            Phase::Acknowledged => {
                let ghost body = s.skip(4);
                let ghost f = split_fields(body);
                proof {
                    lemma_skip_push(s, b);
                    lemma_push_unfolds(body, b);
                    lemma_push_unfolds(f.last(), b);
                    lemma_split_fields_nonempty(body);
                    lemma_latin1_len_zero(f.last());
                    assert(body.push(b).drop_last() =~= body);
                }
                if b == 0x3bu8 {
                    if self.param_len > 0 {
                        let mut p = String::new();
                        core::mem::swap(&mut p, &mut self.param);
                        self.params.push(p);
                    }
                    self.phase = Phase::Done;
                    let mut out: Vec<String> = Vec::new();
                    core::mem::swap(&mut out, &mut self.params);
                    proof {
                        let ps = ack_params(body);
                        assert(out@.len() == ps.len());
                        assert forall|i: int| 0 <= i < ps.len() implies #[trigger] out@[i]@ == latin1(ps[i]) by {
                            if i < f.len() - 1 {
                                assert(ps[i] == f[i]);
                            }
                        }
                    }
                    Some(Ok(out))
                } else if b == 0x2cu8 {
                    let mut p = String::new();
                    core::mem::swap(&mut p, &mut self.param);
                    self.params.push(p);
                    self.param_len = 0;
                    proof {
                        let f2 = split_fields(body.push(b));
                        assert(latin1(Seq::<u8>::empty()) =~= Seq::<char>::empty());
                        assert forall|i: int| 0 <= i < self.params@.len() implies #[trigger] self.params@[i]@
                            == latin1(f2[i]) by {
                            if i < f.len() - 1 {
                                assert(f2[i] == f[i]);
                            }
                        }
                        assert forall|i: int| 0 <= i < body.push(b).len() implies #[trigger] body.push(b)[i]
                            != 0x3bu8 by {
                            if i < body.len() {
                                assert(body.push(b)[i] == body[i]);
                            }
                        }
                    }
                    None
                } else {
                    string_push(&mut self.param, b as char);
                    self.param_len = self.param_len + w;
                    proof {
                        let f2 = split_fields(body.push(b));
                        assert(f2[f2.len() - 1] == f.last().push(b));
                        assert forall|i: int| 0 <= i < self.params@.len() implies #[trigger] self.params@[i]@
                            == latin1(f2[i]) by {
                            assert(f2[i] == f[i]);
                        }
                        assert forall|i: int| 0 <= i < body.push(b).len() implies #[trigger] body.push(b)[i]
                            != 0x3bu8 by {
                            if i < body.len() {
                                assert(body.push(b)[i] == body[i]);
                            }
                        }
                    }
                    None
                }
            },
            Phase::ErrorCode => {
                let ghost body = s.skip(4);
                proof {
                    lemma_skip_push(s, b);
                    lemma_push_unfolds(body, b);
                    assert(body.push(b).drop_last() =~= body);
                }
                if b == 0x3bu8 {
                    self.phase = Phase::Done;
                    let c = self.code.as_slice();
                    let known = c.len() == 3 && c[0] == 0x30u8 && c[1] == 0x30u8 && c[2] == 0x31u8;
                    proof {
                        if known {
                            assert(body =~= cannot_handle_code());
                        }
                        if body == cannot_handle_code() {
                            assert(body[0] == 0x30u8 && body[1] == 0x30u8 && body[2] == 0x31u8);
                        }
                    }
                    if known {
                        Some(Err(UartHandlerError::ClientCannotHandleCommand))
                    } else {
                        Some(Err(UartHandlerError::ClientSentUnknownErrorCode))
                    }
                } else {
                    self.code.push(b);
                    self.code_len = self.code_len + w;
                    proof {
                        assert forall|i: int| 0 <= i < body.push(b).len() implies #[trigger] body.push(b)[i]
                            != 0x3bu8 by {
                            if i < body.len() {
                                assert(body.push(b)[i] == body[i]);
                            }
                        }
                    }
                    None
                }
            },
            Phase::Done => None,
        }
    }
}

/// Whether a byte sequence holds neither `,` nor `;`.
pub open spec fn plain_param(p: Seq<u8>) -> bool {
    forall|i: int| 0 <= i < p.len() ==> #[trigger] p[i] != 0x2cu8 && p[i] != 0x3bu8
}

proof fn lemma_split_fields_append(x: Seq<u8>, y: Seq<u8>)
    requires
        plain_param(y),
    ensures
        split_fields(x + y) == split_fields(x).update(
            split_fields(x).len() - 1,
            split_fields(x).last() + y,
        ),
    decreases y.len(),
{
    lemma_split_fields_nonempty(x);
    if y.len() == 0 {
        assert(x + y =~= x);
        assert(split_fields(x).last() + y =~= split_fields(x).last());
        assert(split_fields(x).update(split_fields(x).len() - 1, split_fields(x).last())
            =~= split_fields(x));
    } else {
        let y0 = y.drop_last();
        assert(plain_param(y0)) by {
            assert forall|i: int| 0 <= i < y0.len() implies #[trigger] y0[i] != 0x2cu8 && y0[i]
                != 0x3bu8 by {
                assert(y0[i] == y[i]);
            }
        }
        lemma_split_fields_append(x, y0);
        assert(x + y =~= (x + y0).push(y.last()));
        assert(y[y.len() - 1] != 0x2cu8);
        lemma_push_unfolds(x + y0, y.last());
        let g = split_fields(x);
        let f = split_fields(x + y0);
        assert(f.len() == g.len());
        assert(f.last() == g.last() + y0);
        assert((g.last() + y0).push(y.last()) =~= g.last() + y);
        assert(split_fields(x + y) =~= split_fields(x).update(
            split_fields(x).len() - 1,
            split_fields(x).last() + y,
        ));
    }
}

proof fn lemma_split_join(ps: Seq<Seq<u8>>)
    requires
        ps.len() >= 1,
        forall|i: int| 0 <= i < ps.len() ==> plain_param(#[trigger] ps[i]),
    ensures
        split_fields(join_params(ps)) == ps,
        no_semicolon(join_params(ps)),
    decreases ps.len(),
{
    let e = Seq::<u8>::empty();
    if ps.len() == 1 {
        lemma_split_fields_append(e, ps[0]);
        assert(e + ps[0] =~= ps[0]);
        assert(split_fields(e) == seq![e]);
        assert(seq![e].update(0, e + ps[0]) =~= ps);
        assert forall|i: int| 0 <= i < ps[0].len() implies #[trigger] ps[0][i] != 0x3bu8 by {
            assert(plain_param(ps[0]));
        }
    } else {
        let front = ps.drop_last();
        assert forall|i: int| 0 <= i < front.len() implies plain_param(#[trigger] front[i]) by {
            assert(front[i] == ps[i]);
        }
        lemma_split_join(front);
        let x = join_params(front) + seq![0x2cu8];
        assert(x =~= join_params(front).push(0x2cu8));
        lemma_push_unfolds(join_params(front), 0x2cu8);
        assert(plain_param(ps.last()));
        lemma_split_fields_append(x, ps.last());
        assert(e + ps.last() =~= ps.last());
        assert(front.push(e).update(front.len() as int, e + ps.last()) =~= ps);
        let j = join_params(ps);
        assert(j == x + ps.last());
        assert forall|i: int| 0 <= i < j.len() implies #[trigger] j[i] != 0x3bu8 by {
            if i < join_params(front).len() {
                assert(j[i] == join_params(front)[i]);
            } else if i > join_params(front).len() {
                assert(j[i] == ps.last()[i - join_params(front).len() - 1]);
            }
        }
    }
}

/// An `ACK:` reply carrying parameters joined by commas, as commands carry
/// them, is read back as exactly those parameters, provided none holds `,`
/// or `;` and the last is not empty; the reader needs every byte of it, up
/// to the closing `;`.
pub proof fn lemma_ack_reply_reads_params(ps: Seq<Seq<u8>>)
    requires
        forall|i: int| 0 <= i < ps.len() ==> plain_param(#[trigger] ps[i]),
        ps.len() == 0 || ps.last().len() > 0,
    ensures
        reply_of(ack_tag() + join_params(ps) + seq![0x3bu8]) == Reply::Params(ps),
        forall|k: int|
            0 <= k < (ack_tag() + join_params(ps) + seq![0x3bu8]).len() ==> #[trigger] reply_of(
                (ack_tag() + join_params(ps) + seq![0x3bu8]).take(k),
            ) is Pending,
{
    let full = ack_tag() + join_params(ps) + seq![0x3bu8];
    let j = join_params(ps);
    assert(full.take(4) =~= ack_tag());
    assert(full.skip(4) =~= j.push(0x3bu8));
    assert(j.push(0x3bu8).drop_last() =~= j);
    if ps.len() == 0 {
        assert(j =~= Seq::<u8>::empty());
        assert(split_fields(j) == seq![Seq::<u8>::empty()]);
        assert(ack_params(j) =~= ps);
    } else {
        lemma_split_join(ps);
    }
    assert(no_semicolon(j)) by {
        if ps.len() == 0 {
            assert(j.len() == 0);
        }
    }
    assert forall|k: int| 0 <= k < full.len() implies #[trigger] reply_of(full.take(k)) is Pending by {
        if k >= 4 {
            let t = full.take(k);
            assert(t.take(4) =~= ack_tag());
            assert(t.skip(4) =~= j.take(k - 4));
            if k > 4 {
                assert(t.skip(4).last() == j[k - 5]);
            }
        }
    }
}

/// An `ERR:` reply is read back as the error its code stands for (`001`:
/// the radio cannot handle the command; any other code: an unknown error);
/// the reader needs every byte of it, up to the closing `;`.
pub proof fn lemma_err_reply_reads_code(code: Seq<u8>)
    requires
        no_semicolon(code),
    ensures
        reply_of(err_tag() + code + seq![0x3bu8]) == Reply::Refused(error_for_code(code)),
        forall|k: int|
            0 <= k < (err_tag() + code + seq![0x3bu8]).len() ==> #[trigger] reply_of(
                (err_tag() + code + seq![0x3bu8]).take(k),
            ) is Pending,
{
    let full = err_tag() + code + seq![0x3bu8];
    assert(full.take(4) =~= err_tag());
    assert(full.skip(4) =~= code.push(0x3bu8));
    assert(code.push(0x3bu8).drop_last() =~= code);
    assert(err_tag() != ack_tag()) by {
        assert(err_tag()[0] != ack_tag()[0]);
    }
    assert forall|k: int| 0 <= k < full.len() implies #[trigger] reply_of(full.take(k)) is Pending by {
        if k >= 4 {
            let t = full.take(k);
            assert(t.take(4) =~= err_tag());
            assert(t.skip(4) =~= code.take(k - 4));
            if k > 4 {
                assert(t.skip(4).last() == code[k - 5]);
            }
        }
    }
}

} // verus!

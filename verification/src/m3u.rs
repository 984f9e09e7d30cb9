//! Extraction of the first stream URL from an (extended) M3U playlist that
//! arrives one byte at a time.
use vstd::prelude::*;
use vstd::utf8::*;

use crate::text::{byte_is_ascii_ws, is_ascii_ws, utf8_to_string};

verus! {

/// How far the scanner has got in recognising `http://` and the rest of a URL.
#[derive(Clone, Copy, Debug, PartialEq, Eq, Structural)]
pub enum State {
    Initial,
    H,
    T1,
    T2,
    P,
    Colon,
    Slash1,
    Slash2,
    Rest,
}

/// Errors of the playlist scanner.
#[derive(PartialEq, Eq, Debug, Clone)]
pub enum M3UError {
    /// The URL found is not UTF-8.
    Utf8ConversionError(core::str::Utf8Error),
    /// The URL does not fit its buffer.
    UrlTooLong,
    /// Whitespace broke a URL, or the playlist held none.
    MalformedUrl,
    /// The scanner got into a state it cannot leave; since a byte that
    /// breaks `http://` starts the scan over, no call reports it.
    InvalidInternalState,
}

/// What one input byte does to the scanner.
pub enum Step {
    /// Move to a state; the flag tells whether the byte joins the URL.
    Advance(State, bool),
    /// A line end after a complete URL: the URL is reported.
    Complete,
    /// Whitespace where the URL must continue.
    Malformed,
    /// A byte that breaks `http://` after its first letter: what was
    /// gathered is dropped, and the byte is looked at as if nothing had been
    /// seen (so a new `h` starts `http://` again).
    Restart,
}

/// The bytes `http://`.
pub open spec fn scheme_prefix() -> Seq<u8> {
    seq![0x68u8, 0x74u8, 0x74u8, 0x70u8, 0x3au8, 0x2fu8, 0x2fu8]
}

/// The transition table of the scanner.
pub open spec fn step(state: State, c: u8) -> Step {
    match state {
        State::Initial => if c == 0x68u8 { Step::Advance(State::H, true) } else { Step::Advance(State::Initial, false) },
        State::H => if c == 0x74u8 { Step::Advance(State::T1, true) } else { Step::Restart },
        State::T1 => if c == 0x74u8 { Step::Advance(State::T2, true) } else { Step::Restart },
        State::T2 => if c == 0x70u8 { Step::Advance(State::P, true) } else { Step::Restart },
        State::P => if c == 0x3au8 { Step::Advance(State::Colon, true) } else { Step::Restart },
        State::Colon => if c == 0x2fu8 { Step::Advance(State::Slash1, true) } else { Step::Restart },
        State::Slash1 => if c == 0x2fu8 { Step::Advance(State::Slash2, true) } else { Step::Restart },
        State::Slash2 => if is_ascii_ws(c) { Step::Malformed } else { Step::Advance(State::Rest, true) },
        State::Rest => if c == 0x0au8 || c == 0x0du8 {
            Step::Complete
        } else if is_ascii_ws(c) {
            Step::Malformed
        } else {
            Step::Advance(State::Rest, true)
        },
    }
}

/// The state after a restart on byte `c`.
pub open spec fn restart_state(c: u8) -> State {
    if c == 0x68u8 {
        State::H
    } else {
        State::Initial
    }
}

/// The URL buffer after a restart on byte `c`.
pub open spec fn restart_url(c: u8) -> Seq<u8> {
    if c == 0x68u8 {
        seq![0x68u8]
    } else {
        Seq::empty()
    }
}

/// Whether a step appends the byte to the URL buffer.
pub open spec fn stores_byte(state: State, c: u8) -> bool {
    step(state, c) matches Step::Advance(_, true)
}

/// How many bytes of `http://` a state has seen.
pub open spec fn depth(state: State) -> nat {
    match state {
        State::Initial => 0,
        State::H => 1,
        State::T1 => 2,
        State::T2 => 3,
        State::P => 4,
        State::Colon => 5,
        State::Slash1 => 6,
        State::Slash2 => 7,
        State::Rest => 7,
    }
}

/// A stream URL as the scanner reports it: `http://` followed by at least one
/// byte, with no ASCII whitespace.
pub open spec fn is_stream_url(url: Seq<u8>) -> bool {
    &&& url.len() > 7
    &&& url.take(7) == scheme_prefix()
    &&& forall|i: int| 7 <= i < url.len() ==> !is_ascii_ws(#[trigger] url[i])
}

/// The URL buffer that goes with a state: a prefix of `http://` before the
/// scheme is complete, and a stream URL after that.
pub open spec fn buffer_matches(state: State, url: Seq<u8>) -> bool {
    if state == State::Rest {
        is_stream_url(url)
    } else {
        url == scheme_prefix().take(depth(state) as int)
    }
}

/// A playlist scanner with room for a URL of at most `MAX_URL_LEN` bytes.
pub struct M3U<const MAX_URL_LEN: usize> {
    url_buffer: Vec<u8>,
    state: State,
    fed: Ghost<Seq<u8>>,
}

impl<const MAX_URL_LEN: usize> M3U<MAX_URL_LEN> {
    /// The scanner's state.
    pub closed spec fn state(&self) -> State {
        self.state
    }

    /// The URL bytes collected so far.
    pub closed spec fn url(&self) -> Seq<u8> {
        self.url_buffer@
    }

    /// The bytes taken so far: those of every call that asked for more.
    pub closed spec fn fed(&self) -> Seq<u8> {
        self.fed@
    }

    /// The collected bytes fit the buffer and agree with the state, and
    /// state and buffer are where scanning the bytes taken so far leads.
    pub open spec fn wf(&self) -> bool {
        &&& self.url().len() <= MAX_URL_LEN
        &&& buffer_matches(self.state(), self.url())
        &&& scan(State::Initial, Seq::empty(), self.fed()) == Scan::Pending(self.state(), self.url())
    }

    /// Whether the scanner can take the byte `c` without overflowing its
    /// URL buffer.
    pub open spec fn has_room_for(&self, c: u8) -> bool {
        stores_byte(self.state(), c) ==> self.url().len() < MAX_URL_LEN
    }

    /// A scanner that has seen nothing.
    pub fn new() -> (m: M3U<MAX_URL_LEN>)
        ensures
            m.state() == State::Initial,
            m.url() == Seq::<u8>::empty(),
            m.fed() == Seq::<u8>::empty(),
            m.wf(),
    {
        let m = M3U { url_buffer: Vec::new(), state: State::Initial, fed: Ghost(Seq::empty()) };
        assert(m.url() =~= scheme_prefix().take(0));
        m
    }

    /// Law: two scanners that have taken the same bytes are in the same
    /// state with the same buffer, so every later call answers them alike;
    /// a new scanner and a default one have both taken none.
    pub proof fn lemma_same_bytes_same_scanner(a: &Self, b: &Self)
        requires
            a.wf(),
            b.wf(),
            a.fed() == b.fed(),
        ensures
            a.state() == b.state(),
            a.url() == b.url(),
    {
    }

    /// Executable form of [`M3U::has_room_for`].
    pub fn can_take(&self, c: u8) -> (r: bool)
        ensures
            r == self.has_room_for(c),
    {
        let stores = match (self.state, c) {
            (State::Initial, 0x68u8) => true,
            (State::Initial, _) => false,
            (State::H, 0x74u8) | (State::T1, 0x74u8) | (State::T2, 0x70u8) | (State::P, 0x3au8)
            | (State::Colon, 0x2fu8) | (State::Slash1, 0x2fu8) => true,
            (State::Slash2, _) => !byte_is_ascii_ws(c),
            (State::Rest, _) => !(c == 0x0au8 || c == 0x0du8) && !byte_is_ascii_ws(c),
            (_, _) => false,
        };
        !stores || self.url_buffer.len() < MAX_URL_LEN
    }

    fn store(&mut self, c: u8, next: State)
        requires
            old(self).url().len() < MAX_URL_LEN,
        ensures
            final(self).url() == old(self).url().push(c),
            final(self).state() == next,
            final(self).fed() == old(self).fed().push(c),
    {
        self.url_buffer.push(c);
        self.state = next;
        self.fed = Ghost(self.fed@.push(c));
    }

    /// Feeds one byte of the playlist. Returns `Ok(Some(url))` when a line
    /// ends right after a complete URL, `Ok(None)` when more bytes are needed.
    /// A byte that breaks `http://` drops what was gathered, so the first
    /// URL in the playlist is the one found. Stated three ways: by the step
    /// this byte makes; by scanning all bytes taken so far and this one; and
    /// by the URL those bytes hold from their first `http://` on
    /// ([`url_of`]).
    pub fn parse_m3u(&mut self, char: u8) -> (r: Result<Option<String>, M3UError>)
        requires
            old(self).wf(),
            old(self).has_room_for(char),
        ensures
            final(self).wf(),
            r == Ok::<Option<String>, M3UError>(None) ==> final(self).fed() == old(self).fed().push(char),
            r != Ok::<Option<String>, M3UError>(None) ==> final(self).fed() == old(self).fed(),
            match step(old(self).state(), char) {
                Step::Advance(next, stored) => {
                    &&& r == Ok::<Option<String>, M3UError>(None)
                    &&& final(self).state() == next
                    &&& final(self).url() == if stored { old(self).url().push(char) } else { old(self).url() }
                },
                Step::Restart => {
                    &&& r == Ok::<Option<String>, M3UError>(None)
                    &&& final(self).state() == restart_state(char)
                    &&& final(self).url() == restart_url(char)
                },
                Step::Complete => {
                    &&& final(self).state() == old(self).state()
                    &&& final(self).url() == old(self).url()
                    &&& is_stream_url(old(self).url())
                    &&& (r matches Ok(Some(u)) <==> valid_utf8(old(self).url()))
                    &&& (r matches Ok(Some(u)) ==> u@ == decode_utf8(old(self).url()))
                    &&& (r is Err ==> r matches Err(M3UError::Utf8ConversionError(_)))
                    &&& r != Ok::<Option<String>, M3UError>(None)
                },
                Step::Malformed => {
                    &&& r == Err::<Option<String>, M3UError>(M3UError::MalformedUrl)
                    &&& final(self).state() == old(self).state()
                    &&& final(self).url() == old(self).url()
                },
            },
            match scan(State::Initial, Seq::empty(), old(self).fed().push(char)) {
                Scan::Pending(st, u) => r == Ok::<Option<String>, M3UError>(None)
                    && final(self).state() == st && final(self).url() == u,
                Scan::Found(u) => {
                    &&& is_stream_url(u)
                    &&& (r matches Ok(Some(x)) <==> valid_utf8(u))
                    &&& (r matches Ok(Some(x)) ==> x@ == decode_utf8(u))
                    &&& (r is Err ==> r matches Err(M3UError::Utf8ConversionError(_)))
                },
                Scan::Malformed => r == Err::<Option<String>, M3UError>(M3UError::MalformedUrl),
            },
            !has_scheme(old(self).fed()) ==> r == Ok::<Option<String>, M3UError>(None),
            has_scheme(old(self).fed()) ==> match url_of(old(self).fed()) {
                Some(u) => if char == 0x0au8 || char == 0x0du8 {
                    &&& (r matches Ok(Some(x)) <==> valid_utf8(u))
                    &&& (r matches Ok(Some(x)) ==> x@ == decode_utf8(u))
                    &&& (r is Err ==> r matches Err(M3UError::Utf8ConversionError(_)))
                } else if is_ascii_ws(char) {
                    r == Err::<Option<String>, M3UError>(M3UError::MalformedUrl)
                } else {
                    r == Ok::<Option<String>, M3UError>(None)
                },
                None => if is_ascii_ws(char) {
                    r == Err::<Option<String>, M3UError>(M3UError::MalformedUrl)
                } else {
                    r == Ok::<Option<String>, M3UError>(None)
                },
            },
    {
        proof {
            assert(scheme_prefix().take(1) == seq![0x68u8]);
            assert(scheme_prefix().take(0) == Seq::<u8>::empty());
            assert(scheme_prefix().take(7) =~= scheme_prefix());
            lemma_scan_push(State::Initial, Seq::empty(), self.fed(), char);
            lemma_scan_finds_first_scheme(self.fed());
        }
        let ghost old_url = self.url();
        match (self.state, char) {
            (State::Initial, 0x68u8) => {
                self.store(char, State::H);
                proof { assert(self.url() =~= scheme_prefix().take(1)); }
                Ok(None)
            },
            (State::Initial, _) => {
                self.fed = Ghost(self.fed@.push(char));
                Ok(None)
            },
            (State::H, 0x74u8) => {
                self.store(char, State::T1);
                proof { assert(self.url() =~= scheme_prefix().take(2)); }
                Ok(None)
            },
            (State::T1, 0x74u8) => {
                self.store(char, State::T2);
                proof { assert(self.url() =~= scheme_prefix().take(3)); }
                Ok(None)
            },
            (State::T2, 0x70u8) => {
                self.store(char, State::P);
                proof { assert(self.url() =~= scheme_prefix().take(4)); }
                Ok(None)
            },
            (State::P, 0x3au8) => {
                self.store(char, State::Colon);
                proof { assert(self.url() =~= scheme_prefix().take(5)); }
                Ok(None)
            },
            (State::Colon, 0x2fu8) => {
                self.store(char, State::Slash1);
                proof { assert(self.url() =~= scheme_prefix().take(6)); }
                Ok(None)
            },
            (State::Slash1, 0x2fu8) => {
                self.store(char, State::Slash2);
                proof { assert(self.url() =~= scheme_prefix().take(7)); }
                Ok(None)
            },
            (State::Slash2, 0x0au8) => Err(M3UError::MalformedUrl),
            (State::Slash2, _) => {
                if byte_is_ascii_ws(char) {
                    Err(M3UError::MalformedUrl)
                } else {
                    self.store(char, State::Rest);
                    proof {
                        assert(old_url =~= scheme_prefix().take(7));
                        assert(self.url().take(7) =~= old_url);
                    }
                    Ok(None)
                }
            },
            (State::Rest, 0x0au8) | (State::Rest, 0x0du8) => {
                match utf8_to_string(self.url_buffer.as_slice()) {
                    Ok(url) => Ok(Some(url)),
                    Err(e) => Err(M3UError::Utf8ConversionError(e)),
                }
            },
            (State::Rest, _) => {
                if byte_is_ascii_ws(char) {
                    Err(M3UError::MalformedUrl)
                } else {
                    self.store(char, State::Rest);
                    proof {
                        assert(self.url().take(7) =~= old_url.take(7));
                        assert forall|i: int| 7 <= i < self.url().len() implies !is_ascii_ws(#[trigger] self.url()[i]) by {
                            if i < old_url.len() {
                                assert(self.url()[i] == old_url[i]);
                            }
                        }
                    }
                    Ok(None)
                }
            },
            (_, _) => {
                // A byte that breaks `http://`: start over with this byte.
                self.url_buffer = Vec::new();
                if char == 0x68u8 {
                    self.url_buffer.push(char);
                    self.state = State::H;
                    proof { assert(self.url() =~= scheme_prefix().take(1)); }
                } else {
                    self.state = State::Initial;
                    proof { assert(self.url() =~= scheme_prefix().take(0)); }
                }
                self.fed = Ghost(self.fed@.push(char));
                Ok(None)
            },
        }
    }

    /// Ends the playlist. A URL that was still being read (one not followed
    /// by a line end) is returned; otherwise there is no URL to report.
    pub fn terminate(&mut self) -> (r: Result<String, M3UError>)
        requires
            old(self).wf(),
        ensures
            final(self).state() == old(self).state(),
            final(self).url() == old(self).url(),
            old(self).state() == State::Rest ==> {
                &&& is_stream_url(old(self).url())
                &&& (r is Ok <==> valid_utf8(old(self).url()))
                &&& (r matches Ok(u) ==> u@ == decode_utf8(old(self).url()))
                &&& (r is Err ==> r matches Err(M3UError::Utf8ConversionError(_)))
            },
            old(self).state() != State::Rest ==> r == Err::<String, M3UError>(M3UError::MalformedUrl),
            final(self).fed() == old(self).fed(),
            match url_of(old(self).fed()) {
                Some(u) => {
                    &&& (r is Ok <==> valid_utf8(u))
                    &&& (r matches Ok(x) ==> x@ == decode_utf8(u))
                    &&& (r is Err ==> r matches Err(M3UError::Utf8ConversionError(_)))
                },
                None => r == Err::<String, M3UError>(M3UError::MalformedUrl),
            },
    {
        proof {
            lemma_scan_finds_first_scheme(self.fed());
        }
        match self.state {
            State::Rest => match utf8_to_string(self.url_buffer.as_slice()) {
                Ok(url) => Ok(url),
                Err(e) => Err(M3UError::Utf8ConversionError(e)),
            },
            _ => Err(M3UError::MalformedUrl),
        }
    }
}

impl<const MAX_URL_LEN: usize> Default for M3U<MAX_URL_LEN> {
    /// Same as [`M3U::new`].
    fn default() -> (m: Self)
        ensures
            m.state() == State::Initial,
            m.url() == Seq::<u8>::empty(),
            m.fed() == Seq::<u8>::empty(),
            m.wf(),
    {
        Self::new()
    }
}

/// Where a whole byte sequence leaves the scanner.
pub enum Scan {
    /// All bytes were taken; the scanner waits in this state with this URL buffer.
    Pending(State, Seq<u8>),
    /// A complete URL was reported.
    Found(Seq<u8>),
    /// The URL was broken by whitespace.
    Malformed,
}

/// The outcome of feeding `bytes` one at a time to a scanner in `state` with
/// URL buffer `url`: what successive calls of [`M3U::parse_m3u`] produce.
pub open spec fn scan(state: State, url: Seq<u8>, bytes: Seq<u8>) -> Scan
    decreases bytes.len(),
{
    if bytes.len() == 0 {
        Scan::Pending(state, url)
    } else {
        match step(state, bytes[0]) {
            Step::Advance(next, stored) => scan(
                next,
                if stored { url.push(bytes[0]) } else { url },
                bytes.drop_first(),
            ),
            Step::Restart => scan(restart_state(bytes[0]), restart_url(bytes[0]), bytes.drop_first()),
            Step::Complete => Scan::Found(url),
            Step::Malformed => Scan::Malformed,
        }
    }
}

/// Whether `http://` starts at byte `k` of `s`.
pub open spec fn scheme_at(s: Seq<u8>, k: int) -> bool {
    0 <= k && k + 7 <= s.len() && s.subrange(k, k + 7) == scheme_prefix()
}

/// Whether `s` holds `http://` somewhere.
pub open spec fn has_scheme(s: Seq<u8>) -> bool {
    exists|k: int| scheme_at(s, k)
}

/// Whether the first `http://` of `s` starts at byte `k`.
pub open spec fn first_scheme_at(s: Seq<u8>, k: int) -> bool {
    &&& scheme_at(s, k)
    &&& forall|j: int| 0 <= j < k ==> !scheme_at(s, j)
}

/// Where the first `http://` of `s` starts (meaningful when `s` holds one).
pub open spec fn scheme_start(s: Seq<u8>) -> int {
    choose|k: int| first_scheme_at(s, k)
}

/// The URL that the bytes `s` hold so far: everything from their first
/// `http://` on, once at least one byte follows it.
pub open spec fn url_of(s: Seq<u8>) -> Option<Seq<u8>> {
    if has_scheme(s) && s.len() > scheme_start(s) + 7 {
        Some(s.skip(scheme_start(s)))
    } else {
        None
    }
}

/// Where bytes `s` that keep the scanner waiting leave it, said without the
/// transition table: once `s` holds `http://`, in `Slash2` or `Rest` with
/// everything from the first `http://` on; before that, with the longest
/// start of `http://` that ends `s`.
spec fn scan_reached(s: Seq<u8>, st: State, u: Seq<u8>) -> bool {
    if st == State::Slash2 || st == State::Rest {
        &&& 7 <= u.len() <= s.len()
        &&& (st == State::Slash2 <==> u.len() == 7)
        &&& s.subrange(s.len() - u.len(), s.len() as int) == u
        &&& first_scheme_at(s, s.len() - u.len())
    } else {
        &&& forall|j: int| !scheme_at(s, j)
        &&& depth(st) <= 6
        &&& depth(st) <= s.len()
        &&& u == scheme_prefix().take(depth(st) as int)
        &&& s.subrange(s.len() - depth(st), s.len() as int) == u
        &&& forall|e: int|
            depth(st) < e <= 6 && e <= s.len() ==> #[trigger] s.subrange(s.len() - e, s.len() as int)
                != scheme_prefix().take(e)
    }
}

/// Law: bytes that keep the scanner waiting leave it reading a URL exactly
/// when they hold `http://`; its buffer then holds everything from their
/// first `http://` on, and it is past the scheme exactly when at least one
/// byte follows it, which is when [`url_of`] gives that buffer.
pub proof fn lemma_scan_finds_first_scheme(s: Seq<u8>)
    requires
        scan(State::Initial, Seq::empty(), s) is Pending,
    ensures
        scan(State::Initial, Seq::empty(), s) matches Scan::Pending(st, u) && {
            &&& has_scheme(s) <==> (st == State::Slash2 || st == State::Rest)
            &&& has_scheme(s) ==> first_scheme_at(s, scheme_start(s)) && u == s.skip(scheme_start(s))
            &&& (st == State::Rest <==> url_of(s) == Some(u))
            &&& (st != State::Rest ==> url_of(s) is None)
        },
{
    lemma_scan_reached(s);
    let (st, u) = match scan(State::Initial, Seq::empty(), s) {
        Scan::Pending(a, b) => (a, b),
        _ => (State::Initial, Seq::empty()),
    };
    if st == State::Slash2 || st == State::Rest {
        let k = s.len() - u.len();
        assert(first_scheme_at(s, k));
        let k2 = scheme_start(s);
        assert(first_scheme_at(s, k2));
        if k2 < k {
            assert(!scheme_at(s, k2));
        }
        if k < k2 {
            assert(!scheme_at(s, k));
        }
        assert(k2 == k);
        assert(s.skip(k) =~= s.subrange(k, s.len() as int));
    } else {
        assert(!has_scheme(s));
    }
}

proof fn lemma_push_subrange(s: Seq<u8>, c: u8, a: int, b: int)
    requires
        0 <= a <= b <= s.len(),
    ensures
        s.push(c).subrange(a, b) == s.subrange(a, b),
        s.push(c).subrange(a, s.len() as int + 1) == s.subrange(a, s.len() as int).push(c),
{
    assert(s.push(c).subrange(a, b) =~= s.subrange(a, b));
    assert(s.push(c).subrange(a, s.len() as int + 1) =~= s.subrange(a, s.len() as int).push(c));
}

/// No byte of `http://` after the first is an `h`.
proof fn lemma_scheme_bytes()
    ensures
        scheme_prefix().len() == 7,
        scheme_prefix()[0] == 0x68u8,
        forall|i: int| 1 <= i < 7 ==> #[trigger] scheme_prefix()[i] != 0x68u8,
{
}

proof fn lemma_scan_reached(s: Seq<u8>)
    requires
        scan(State::Initial, Seq::empty(), s) is Pending,
    ensures
        scan(State::Initial, Seq::empty(), s) matches Scan::Pending(st, u) && scan_reached(s, st, u),
    decreases s.len(),
{
    lemma_scheme_bytes();
    if s.len() == 0 {
        assert(s.subrange(0, 0) =~= Seq::<u8>::empty());
        assert(scheme_prefix().take(0) =~= Seq::<u8>::empty());
    } else {
        let p = s.drop_last();
        let c = s.last();
        assert(p.push(c) =~= s);
        lemma_scan_append(State::Initial, Seq::empty(), p, seq![c]);
        assert(p + seq![c] =~= s);
        lemma_scan_push(State::Initial, Seq::empty(), p, c);
        if !(scan(State::Initial, Seq::empty(), p) is Pending) {
            assert(false);
        }
        lemma_scan_reached(p);
        let (st0, u0) = match scan(State::Initial, Seq::empty(), p) {
            Scan::Pending(a, b) => (a, b),
            _ => (State::Initial, Seq::empty()),
        };
        let n = p.len() as int;
        assert(s.len() == n + 1);
        if st0 == State::Slash2 || st0 == State::Rest {
            lemma_step_in_url(p, c, st0, u0);
        } else {
            lemma_step_before_url(p, c, st0, u0);
        }
    }
}

proof fn lemma_step_in_url(p: Seq<u8>, c: u8, st0: State, u0: Seq<u8>)
    requires
        st0 == State::Slash2 || st0 == State::Rest,
        scan_reached(p, st0, u0),
        step(st0, c) is Advance,
    ensures
        match step(st0, c) {
            Step::Advance(next, stored) => scan_reached(
                p.push(c),
                next,
                if stored { u0.push(c) } else { u0 },
            ),
            _ => true,
        },
{
    let s = p.push(c);
    let n = p.len() as int;
    let k = n - u0.len();
    lemma_push_subrange(p, c, k, k + 7);
    lemma_push_subrange(p, c, k, n);
    assert forall|j: int| 0 <= j < k implies !scheme_at(s, j) by {
        lemma_push_subrange(p, c, j, j + 7);
        assert(!scheme_at(p, j));
    }
    assert(s.len() - (u0.len() + 1) == k);
}

proof fn lemma_step_before_url(p: Seq<u8>, c: u8, st0: State, u0: Seq<u8>)
    requires
        !(st0 == State::Slash2 || st0 == State::Rest),
        scan_reached(p, st0, u0),
        step(st0, c) is Advance || step(st0, c) is Restart,
    ensures
        match step(st0, c) {
            Step::Advance(next, stored) => scan_reached(
                p.push(c),
                next,
                if stored { u0.push(c) } else { u0 },
            ),
            Step::Restart => scan_reached(p.push(c), restart_state(c), restart_url(c)),
            _ => true,
        },
{
    lemma_scheme_bytes();
    let s = p.push(c);
    let n = p.len() as int;
    let d0 = depth(st0) as int;
    let (st, u) = match step(st0, c) {
        Step::Advance(next, stored) => (next, if stored { u0.push(c) } else { u0 }),
        _ => (restart_state(c), restart_url(c)),
    };
    let d = depth(st) as int;
    // How a suffix of `s` relates to a suffix of `p`.
    assert forall|e: int| 1 <= e <= n + 1 implies #[trigger] s.subrange(n + 1 - e, n + 1)
        == p.subrange(n + 1 - e, n).push(c) by {
        lemma_push_subrange(p, c, n + 1 - e, n);
    }
    // A suffix of `s` that starts `http://` extends one of `p`, by a byte of `http://`.
    assert forall|e: int| 2 <= e <= 7 && e <= n + 1 && #[trigger] s.subrange(n + 1 - e, n + 1) == scheme_prefix().take(e)
        implies p.subrange(n + 1 - e, n) == scheme_prefix().take(e - 1) && c == scheme_prefix()[e - 1] by {
        let t = s.subrange(n + 1 - e, n + 1);
        assert(t == p.subrange(n + 1 - e, n).push(c));
        assert(p.subrange(n + 1 - e, n) =~= t.drop_last());
        assert(scheme_prefix().take(e).drop_last() =~= scheme_prefix().take(e - 1));
        assert(t[e - 1] == c);
    }
    // Two starts of `http://` ending `p`: the shorter one cannot be shorter
    // but not empty, as only the first byte of `http://` is an `h`.
    assert forall|e: int| 1 <= e < d0 implies #[trigger] p.subrange(n - e, n) != scheme_prefix().take(e) by {
        if p.subrange(n - e, n) == scheme_prefix().take(e) {
            assert(p.subrange(n - e, n)[0] == p[n - e]);
            assert(p.subrange(n - d0, n)[d0 - e] == p[n - e]);
            assert(scheme_prefix().take(d0)[d0 - e] == scheme_prefix()[d0 - e]);
            assert(scheme_prefix().take(e)[0] == scheme_prefix()[0]);
        }
    }
    // No `http://` within `s`.
    if d < 7 {
        assert forall|j: int| !scheme_at(s, j) by {
            if 0 <= j && j + 7 <= n {
                lemma_push_subrange(p, c, j, j + 7);
                assert(!scheme_at(p, j));
            } else if j + 7 == n + 1 && j >= 0 {
                if scheme_at(s, j) {
                    assert(p.subrange(n - 6, n) == scheme_prefix().take(6));
                    assert(c == scheme_prefix()[6]);
                    if d0 < 6 {
                        assert(p.subrange(n - 6, n) != scheme_prefix().take(6));
                    }
                }
            }
        }
        // The longest start of `http://` ending `s`.
        assert forall|e: int| d < e <= 6 && e <= s.len() implies #[trigger] s.subrange(
            s.len() - e,
            s.len() as int,
        ) != scheme_prefix().take(e) by {
            if s.subrange(n + 1 - e, n + 1) == scheme_prefix().take(e) {
                if e == 1 {
                    assert(s.subrange(n, n + 1)[0] == c);
                    assert(scheme_prefix().take(1)[0] == 0x68u8);
                } else {
                    let f = e - 1;
                    assert(p.subrange(n - f, n) == scheme_prefix().take(f));
                    assert(c == scheme_prefix()[f]);
                    if f > d0 {
                        assert(p.subrange(n - f, n) != scheme_prefix().take(f));
                    } else if f < d0 {
                        assert(p.subrange(n - f, n) != scheme_prefix().take(f));
                    } else {
                        assert(step(st0, c) is Advance);
                    }
                }
            }
        }
        if st == State::Initial {
            assert(s.subrange(n + 1, n + 1) =~= Seq::<u8>::empty());
            assert(scheme_prefix().take(0) =~= Seq::<u8>::empty());
        } else if d == 1 && c == 0x68u8 && u == seq![0x68u8] {
            assert(s.subrange(n, n + 1) =~= seq![c]);
            assert(scheme_prefix().take(1) =~= seq![0x68u8]);
        } else {
            assert(d == d0 + 1);
            assert(u0.push(c) =~= scheme_prefix().take(d));
        }
    } else {
        // `http://` completed: it starts at `n + 1 - 7`, and is the first.
        assert(d0 == 6);
        assert(u0.push(c) =~= scheme_prefix());
        assert(s.subrange(n - 6, n + 1) == u0.push(c));
        assert forall|j: int| 0 <= j < n - 6 implies !scheme_at(s, j) by {
            lemma_push_subrange(p, c, j, j + 7);
            assert(!scheme_at(p, j));
        }
    }
}

/// Law: scanning one more byte after bytes that left the scanner waiting
/// is one step of the transition table from where those bytes left it.
pub proof fn lemma_scan_push(state: State, url: Seq<u8>, bytes: Seq<u8>, c: u8)
    ensures
        scan(state, url, bytes) matches Scan::Pending(st, u) ==> scan(state, url, bytes.push(c))
            == match step(st, c) {
            Step::Advance(next, stored) => Scan::Pending(next, if stored { u.push(c) } else { u }),
            Step::Restart => Scan::Pending(restart_state(c), restart_url(c)),
            Step::Complete => Scan::Found(u),
            Step::Malformed => Scan::Malformed,
        },
    decreases bytes.len(),
{
    let all = bytes.push(c);
    if bytes.len() == 0 {
        assert(all[0] == c);
        assert(all.drop_first() =~= Seq::<u8>::empty());
        reveal_with_fuel(scan, 2);
    } else {
        assert(all[0] == bytes[0]);
        assert(all.drop_first() =~= bytes.drop_first().push(c));
        match step(state, bytes[0]) {
            Step::Advance(next, stored) => {
                lemma_scan_push(next, if stored { url.push(bytes[0]) } else { url }, bytes.drop_first(), c);
            },
            Step::Restart => {
                lemma_scan_push(restart_state(bytes[0]), restart_url(bytes[0]), bytes.drop_first(), c);
            },
            _ => {},
        }
    }
}

/// Law: feeding bytes in two parts is feeding them at once: when the first
/// part leaves the scanner waiting, the second part goes on from there;
/// otherwise the first part already decided the outcome.
pub proof fn lemma_scan_append(state: State, url: Seq<u8>, first: Seq<u8>, second: Seq<u8>)
    ensures
        scan(state, url, first + second) == match scan(state, url, first) {
            Scan::Pending(st, u) => scan(st, u, second),
            other => other,
        },
    decreases first.len(),
{
    if first.len() == 0 {
        assert(first + second =~= second);
    } else {
        let all = first + second;
        assert(all[0] == first[0]);
        assert(all.drop_first() =~= first.drop_first() + second);
        match step(state, first[0]) {
            Step::Advance(next, stored) => {
                lemma_scan_append(next, if stored { url.push(first[0]) } else { url }, first.drop_first(), second);
            },
            Step::Restart => {
                lemma_scan_append(restart_state(first[0]), restart_url(first[0]), first.drop_first(), second);
            },
            _ => {},
        }
    }
}

/// Law: bytes without an `h` leave a fresh scanner as it was.
pub proof fn lemma_lead_without_h_is_skipped(lead: Seq<u8>)
    requires
        forall|i: int| 0 <= i < lead.len() ==> lead[i] != 0x68u8,
    ensures
        scan(State::Initial, Seq::empty(), lead) == Scan::Pending(State::Initial, Seq::<u8>::empty()),
    decreases lead.len(),
{
    if lead.len() > 0 {
        lemma_lead_without_h_is_skipped(lead.drop_first());
    }
}

/// Law: after a stray `h` that does not start `http://`, the scanner has
/// dropped it: `h` followed by a byte other than `t` and `h` leaves a fresh
/// scanner as it was.
pub proof fn lemma_stray_h_is_dropped(c: u8)
    requires
        c != 0x74u8,
        c != 0x68u8,
    ensures
        scan(State::Initial, Seq::empty(), seq![0x68u8, c]) == Scan::Pending(State::Initial, Seq::<u8>::empty()),
{
    let s = seq![0x68u8, c];
    assert(s.drop_first() =~= seq![c]);
    assert(seq![c].drop_first() =~= Seq::<u8>::empty());
    reveal_with_fuel(scan, 3);
}

proof fn lemma_scan_skips_lead(lead: Seq<u8>, rest: Seq<u8>)
    requires
        scan(State::Initial, Seq::empty(), lead) == Scan::Pending(State::Initial, Seq::<u8>::empty()),
    ensures
        scan(State::Initial, Seq::empty(), lead + rest) == scan(State::Initial, Seq::empty(), rest),
{
    lemma_scan_append(State::Initial, Seq::empty(), lead, rest);
}

proof fn lemma_scan_collects_url(url: Seq<u8>, body: Seq<u8>, rest: Seq<u8>)
    requires
        forall|i: int| 0 <= i < body.len() ==> !is_ascii_ws(#[trigger] body[i]),
    ensures
        scan(State::Rest, url, body + rest) == scan(State::Rest, url + body, rest),
    decreases body.len(),
{
    if body.len() > 0 {
        assert((body + rest)[0] == body[0]);
        assert((body + rest).drop_first() =~= body.drop_first() + rest);
        lemma_scan_collects_url(url.push(body[0]), body.drop_first(), rest);
        assert(url.push(body[0]) + body.drop_first() =~= url + body);
    } else {
        assert(body + rest =~= rest);
        assert(url + body =~= url);
    }
}

proof fn lemma_scan_scheme(body: Seq<u8>, rest: Seq<u8>)
    requires
        body.len() > 0,
        forall|i: int| 0 <= i < body.len() ==> !is_ascii_ws(#[trigger] body[i]),
    ensures
        scan(State::Initial, Seq::empty(), scheme_prefix() + body + rest)
            == scan(State::Rest, scheme_prefix() + body.take(1), body.drop_first() + rest),
{
    let p = scheme_prefix();
    let all = p + body + rest;
    assert(all[0] == 0x68u8 && all[1] == 0x74u8 && all[2] == 0x74u8 && all[3] == 0x70u8);
    assert(all[4] == 0x3au8 && all[5] == 0x2fu8 && all[6] == 0x2fu8 && all[7] == body[0]);
    let e = Seq::<u8>::empty();
    assert(all.drop_first() =~= all.skip(1));
    assert(all.skip(1).drop_first() =~= all.skip(2));
    assert(all.skip(2).drop_first() =~= all.skip(3));
    assert(all.skip(3).drop_first() =~= all.skip(4));
    assert(all.skip(4).drop_first() =~= all.skip(5));
    assert(all.skip(5).drop_first() =~= all.skip(6));
    assert(all.skip(6).drop_first() =~= all.skip(7));
    assert(all.skip(7).drop_first() =~= body.drop_first() + rest);
    assert(all.skip(1)[0] == all[1]);
    assert(all.skip(2)[0] == all[2]);
    assert(all.skip(3)[0] == all[3]);
    assert(all.skip(4)[0] == all[4]);
    assert(all.skip(5)[0] == all[5]);
    assert(all.skip(6)[0] == all[6]);
    assert(all.skip(7)[0] == all[7]);
    let u1 = e.push(0x68u8);
    let u2 = u1.push(0x74u8);
    let u3 = u2.push(0x74u8);
    let u4 = u3.push(0x70u8);
    let u5 = u4.push(0x3au8);
    let u6 = u5.push(0x2fu8);
    let u7 = u6.push(0x2fu8);
    assert(u7 =~= p);
    assert(scan(State::Initial, e, all) == scan(State::H, u1, all.skip(1)));
    assert(scan(State::H, u1, all.skip(1)) == scan(State::T1, u2, all.skip(2)));
    assert(scan(State::T1, u2, all.skip(2)) == scan(State::T2, u3, all.skip(3)));
    assert(scan(State::T2, u3, all.skip(3)) == scan(State::P, u4, all.skip(4)));
    assert(scan(State::P, u4, all.skip(4)) == scan(State::Colon, u5, all.skip(5)));
    assert(scan(State::Colon, u5, all.skip(5)) == scan(State::Slash1, u6, all.skip(6)));
    assert(scan(State::Slash1, u6, all.skip(6)) == scan(State::Slash2, u7, all.skip(7)));
    assert(scan(State::Slash2, u7, all.skip(7))
        == scan(State::Rest, u7.push(body[0]), body.drop_first() + rest));
    assert(u7.push(body[0]) =~= p + body.take(1));
}

/// Law: after a lead that leaves the scanner with nothing gathered (one
/// without `h`, or whose `h`s do not start `http://`), `http://` followed by
/// at least one non-whitespace byte and a line end (LF or CR) yields exactly
/// that URL, whatever comes after the line end.
pub proof fn lemma_first_url_is_found(lead: Seq<u8>, body: Seq<u8>, line_end: u8, rest: Seq<u8>)
    requires
        scan(State::Initial, Seq::empty(), lead) == Scan::Pending(State::Initial, Seq::<u8>::empty()),
        body.len() > 0,
        forall|i: int| 0 <= i < body.len() ==> !is_ascii_ws(#[trigger] body[i]),
        line_end == 0x0au8 || line_end == 0x0du8,
    ensures
        scan(State::Initial, Seq::empty(), lead + scheme_prefix() + body + seq![line_end] + rest)
            == Scan::Found(scheme_prefix() + body),
{
    let tail = seq![line_end] + rest;
    assert(lead + scheme_prefix() + body + seq![line_end] + rest =~= lead + (scheme_prefix() + body + tail));
    lemma_scan_skips_lead(lead, scheme_prefix() + body + tail);
    lemma_scan_scheme(body, tail);
    lemma_scan_collects_url(scheme_prefix() + body.take(1), body.drop_first(), tail);
    assert(scheme_prefix() + body.take(1) + body.drop_first() =~= scheme_prefix() + body);
    assert(tail[0] == line_end);
}

/// Law: a playlist that ends inside a URL (no line end after it), after a
/// lead that leaves the scanner with nothing gathered, leaves the scanner
/// reading that URL, so [`M3U::terminate`] reports it.
pub proof fn lemma_unterminated_url_is_pending(lead: Seq<u8>, body: Seq<u8>)
    requires
        scan(State::Initial, Seq::empty(), lead) == Scan::Pending(State::Initial, Seq::<u8>::empty()),
        body.len() > 0,
        forall|i: int| 0 <= i < body.len() ==> !is_ascii_ws(#[trigger] body[i]),
    ensures
        scan(State::Initial, Seq::empty(), lead + scheme_prefix() + body)
            == Scan::Pending(State::Rest, scheme_prefix() + body),
{
    let e = Seq::<u8>::empty();
    assert(lead + scheme_prefix() + body =~= lead + (scheme_prefix() + body + e));
    lemma_scan_skips_lead(lead, scheme_prefix() + body + e);
    lemma_scan_scheme(body, e);
    lemma_scan_collects_url(scheme_prefix() + body.take(1), body.drop_first(), e);
    assert(body.drop_first() + e =~= body.drop_first());
    assert(scheme_prefix() + body.take(1) + body.drop_first() =~= scheme_prefix() + body);
}

} // verus!

//! A memory-sparing list of radio stations (name and URL), with preset
//! slots, loaded from CSV records `{name},{url},...` where a trailing field
//! `PRESET:n` assigns the station to preset slot `n`.
use vstd::prelude::*;
use vstd::utf8::*;

use crate::text::{
    after_last_colon, after_last_colon_slice, parse_usize, parse_usize_spec, str_from_utf8,
    str_to_chars, trim_char_slice, trim_chars, utf8_to_string,
};

verus! {

/// Room, in bytes, for all station names and URLs together.
pub const POOL_SIZE: usize = 4096;

/// The most stations the list can hold.
pub const MAX_NUM_STATIONS: usize = 64;

/// Room, in bytes, for one CSV field while loading.
pub const FIELD_BUFFER_LEN: usize = 1024;

/// What can go wrong when building or reading the station list.
#[derive(Debug, Clone, Copy, PartialEq, Eq, Structural)]
pub enum StationError {
    /// The station URL added is not in UTF8
    UrlNotUtf8,
    /// The station URL added is too long
    UrlTooLong,
    /// The station name added is not in UTF8
    NameNotUtf8,
    /// The station name added is too long
    NameTooLong,
    /// A field in CSV file is not UTF8,
    CsvFieldNotUtf8,
    /// A field in the stations csv file is too long for a name or url
    CsvFieldTooLong,
    /// Attempt to add too many stations. Pool size is exceeded
    TooManyStations,
    /// Requested station does not exist
    StationNonExistent,
    /// Attempt to set too many presets
    TooManyPresets,
    /// Attempt to access a preset that cannot exist or the preset is
    /// incorrectly specified.
    InvalidPreset,
}

impl From<core::str::Utf8Error> for StationError {
    fn from(_err: core::str::Utf8Error) -> (r: StationError) {
        StationError::CsvFieldNotUtf8
    }
}

impl vstd::std_specs::convert::FromSpecImpl<core::str::Utf8Error> for StationError {
    open spec fn obeys_from_spec() -> bool {
        true
    }

    open spec fn from_spec(v: core::str::Utf8Error) -> StationError {
        StationError::CsvFieldNotUtf8
    }
}

/// A station, as handed out by [`Stations`]: a name of at most `NAME_LEN`
/// bytes and a URL of at most `URL_LEN` bytes.
#[derive(Clone, Debug)]
pub struct Station<const NAME_LEN: usize, const URL_LEN: usize> {
    name: String,
    url: String,
}

impl<const NAME_LEN: usize, const URL_LEN: usize> Station<NAME_LEN, URL_LEN> {
    /// The station's name.
    pub closed spec fn name_view(&self) -> Seq<char> {
        self.name@
    }

    /// The station's URL.
    pub closed spec fn url_view(&self) -> Seq<char> {
        self.url@
    }

    /// The name of the station as `&str`
    pub fn name(&self) -> (r: &str)
        ensures
            r@ == self.name_view(),
    {
        self.name.as_str()
    }

    /// The URL of the station as `&str`
    pub fn url(&self) -> (r: &str)
        ensures
            r@ == self.url_view(),
    {
        self.url.as_str()
    }
}

/// Where a station's name and URL lie in the pool.
#[derive(Clone, Copy, PartialEq, Eq)]
struct StationPositions {
    name: (usize, usize),
    url: (usize, usize),
}

/// The abstract content of a station list.
pub struct StationsView {
    /// Name and URL bytes of each station, by station id.
    pub entries: Seq<(Seq<u8>, Seq<u8>)>,
    /// The station id assigned to each preset slot.
    pub presets: Seq<Option<usize>>,
    /// The current station.
    pub current: Option<usize>,
    /// Bytes of the pool in use.
    pub pool_len: nat,
}

/// The text `PRESET:` that starts a preset field.
pub open spec fn preset_tag() -> Seq<char> {
    seq!['P', 'R', 'E', 'S', 'E', 'T', ':']
}

/// Whether a (trimmed) field starts with `PRESET:`.
pub open spec fn is_preset_field(t: Seq<char>) -> bool {
    t.len() >= 7 && t.take(7) == preset_tag()
}

#[verifier::external_type_specification]
#[verifier::external_body]
pub struct ExCsvReader(csv_core::Reader);

/// What one call of the CSV reader reports.
#[derive(Debug, Clone, Copy, PartialEq, Eq, Structural)]
pub enum CsvRead {
    /// The input ran out inside a field.
    InputEmpty,
    /// The field does not fit the output buffer.
    OutputFull,
    /// A field ended; `true` when it also ended its record.
    Field(bool),
    /// All data has been read.
    End,
}

/// What one call of the CSV reader yields: what it found, how many input
/// bytes it took, and the field bytes it wrote to the front of the output.
pub struct CsvStep {
    pub kind: CsvRead,
    pub taken: nat,
    pub field: Seq<u8>,
}

/// What `csv_core` yields for a call with `input` and `out_len` bytes of
/// output room, made of a new reader after calls with the inputs and
/// output rooms of `history`.
pub uninterp spec fn csv_read(history: Seq<(Seq<u8>, nat)>, input: Seq<u8>, out_len: nat) -> CsvStep;

/// A CSV reader, with the calls made of it so far.
pub struct CsvReader {
    inner: csv_core::Reader,
    history: Ghost<Seq<(Seq<u8>, nat)>>,
}

impl View for CsvReader {
    type V = Seq<(Seq<u8>, nat)>;

    /// The input and output room of every call made so far, in order.
    closed spec fn view(&self) -> Seq<(Seq<u8>, nat)> {
        self.history@
    }
}

/// `csv_core::Reader::new`: a reader for comma-separated records.
#[verifier::external_body]
fn new_csv_core_reader() -> csv_core::Reader {
    csv_core::Reader::new()
}

impl CsvReader {
    /// A reader that has read nothing.
    pub fn new() -> (r: CsvReader)
        ensures
            r@ == Seq::<(Seq<u8>, nat)>::empty(),
    {
        CsvReader { inner: new_csv_core_reader(), history: Ghost(Seq::empty()) }
    }
}

/// `csv_core::Reader::read_field`: reads at most one field of `input` into
/// `output` from byte `start` on, and returns what it found, the number of
/// bytes taken from `input` and the number written to `output`. Stated: the
/// result is the one [`csv_read`] names for the calls made so far and this
/// one, with the room left after `start`; the bytes before `start` stay;
/// the counts stay within the buffers; with input and output room left it
/// takes at least one byte; when it runs out of input it has taken all of
/// it; on empty input it takes and writes nothing and reports either the end
/// of the data or the end of a last field of a record.
/// Not stated: which fields the CSV grammar finds.
#[verifier::external_body]
fn csv_read_field(reader: &mut CsvReader, input: &[u8], output: &mut Vec<u8>, start: usize) -> (r: (
    CsvRead,
    usize,
    usize,
))
    requires
        start <= old(output)@.len(),
    ensures
        final(reader)@ == old(reader)@.push((input@, (old(output)@.len() - start) as nat)),
        final(output)@.len() == old(output)@.len(),
        final(output)@.take(start as int) == old(output)@.take(start as int),
        r.0 == csv_read(old(reader)@, input@, (old(output)@.len() - start) as nat).kind,
        r.1 == csv_read(old(reader)@, input@, (old(output)@.len() - start) as nat).taken,
        r.2 == csv_read(old(reader)@, input@, (old(output)@.len() - start) as nat).field.len(),
        final(output)@.subrange(start as int, start + r.2) == csv_read(
            old(reader)@,
            input@,
            (old(output)@.len() - start) as nat,
        ).field,
        r.1 <= input@.len(),
        r.2 <= old(output)@.len() - start,
        input@.len() > 0 && old(output)@.len() > start ==> r.1 >= 1,
        r.0 is InputEmpty ==> r.1 == input@.len(),
        input@.len() == 0 ==> r.1 == 0 && r.2 == 0 && (r.0 is End || r.0 == CsvRead::Field(true)),
{
    let (res, nin, nout) = reader.inner.read_field(input, &mut output.as_mut_slice()[start..]);
    let kind = match res {
        csv_core::ReadFieldResult::InputEmpty => CsvRead::InputEmpty,
        csv_core::ReadFieldResult::OutputFull => CsvRead::OutputFull,
        csv_core::ReadFieldResult::Field { record_end } => CsvRead::Field(record_end),
        csv_core::ReadFieldResult::End => CsvRead::End,
    };
    (kind, nin, nout)
}

/// Whether a text, given as characters, starts with `PRESET:`.
pub fn starts_with_preset_tag(t: &[char]) -> (r: bool)
    ensures
        r == is_preset_field(t@),
{
    let r = t.len() >= 7 && t[0] == 'P' && t[1] == 'R' && t[2] == 'E' && t[3] == 'S' && t[4] == 'E'
        && t[5] == 'T' && t[6] == ':';
    proof {
        if t@.len() >= 7 {
            assert(r == (t@.take(7) =~= preset_tag()));
        }
    }
    r
}

/// The list of stations.
pub struct Stations<const NAME_LEN: usize, const URL_LEN: usize, const NUM_PRESETS: usize> {
    pool: Vec<u8>,
    positions: Vec<StationPositions>,
    preset_slots: Vec<Option<usize>>,
    current_station: Option<usize>,
}

/// The cursor of the CSV loader: which field of the record comes next, the
/// name read for the record, and the id of the last station added.
pub struct RecordCursor {
    pub field_index: usize,
    pub name: Vec<u8>,
    pub station_id: usize,
}

/// The abstract content of a [`RecordCursor`].
pub struct CursorView {
    pub field_index: usize,
    pub name: Seq<u8>,
    pub station_id: usize,
}

impl View for RecordCursor {
    type V = CursorView;

    open spec fn view(&self) -> CursorView {
        CursorView { field_index: self.field_index, name: self.name@, station_id: self.station_id }
    }
}

impl RecordCursor {
    /// The cursor before the first record.
    pub fn new() -> (c: RecordCursor)
        ensures
            c@.field_index == 0,
            c@.name == Seq::<u8>::empty(),
            c@.station_id == 0,
    {
        RecordCursor { field_index: 0, name: Vec::new(), station_id: 0 }
    }
}

impl<const NAME_LEN: usize, const URL_LEN: usize, const NUM_PRESETS: usize> View for Stations<
    NAME_LEN,
    URL_LEN,
    NUM_PRESETS,
> {
    type V = StationsView;

    closed spec fn view(&self) -> StationsView {
        StationsView {
            entries: Seq::new(
                self.positions@.len(),
                |i: int|
                    (
                        self.pool@.subrange(
                            self.positions@[i].name.0 as int,
                            self.positions@[i].name.1 as int,
                        ),
                        self.pool@.subrange(
                            self.positions@[i].url.0 as int,
                            self.positions@[i].url.1 as int,
                        ),
                    ),
            ),
            presets: self.preset_slots@,
            current: self.current_station,
            pool_len: self.pool@.len(),
        }
    }
}

impl<const NAME_LEN: usize, const URL_LEN: usize, const NUM_PRESETS: usize> Stations<
    NAME_LEN,
    URL_LEN,
    NUM_PRESETS,
> {
    /// The pool holds every station's name and URL, each well-formed UTF-8;
    /// the capacity limits hold; every preset names an existing station.
    pub closed spec fn wf(&self) -> bool {
        &&& self.pool@.len() <= POOL_SIZE
        &&& self.positions@.len() <= MAX_NUM_STATIONS
        &&& self.preset_slots@.len() == NUM_PRESETS
        &&& forall|i: int|
            #![trigger self.positions@[i]]
            0 <= i < self.positions@.len() ==> {
                &&& self.positions@[i].name.0 <= self.positions@[i].name.1 <= self.pool@.len()
                &&& self.positions@[i].url.0 <= self.positions@[i].url.1 <= self.pool@.len()
                &&& valid_utf8(
                    self.pool@.subrange(
                        self.positions@[i].name.0 as int,
                        self.positions@[i].name.1 as int,
                    ),
                )
                &&& valid_utf8(
                    self.pool@.subrange(
                        self.positions@[i].url.0 as int,
                        self.positions@[i].url.1 as int,
                    ),
                )
            }
        &&& forall|p: int|
            0 <= p < NUM_PRESETS ==> (#[trigger] self.preset_slots@[p] matches Some(id) ==> id
                < self.positions@.len())
    }

    /// The list after an attempt to add a station, and what the attempt returns.
    pub open spec fn add_outcome(v: StationsView, name: Seq<u8>, url: Seq<u8>) -> (
        Result<usize, StationError>,
        StationsView,
    ) {
        if !valid_utf8(name) {
            (Err(StationError::NameNotUtf8), v)
        } else if !valid_utf8(url) {
            (Err(StationError::UrlNotUtf8), v)
        } else if name.len() > NAME_LEN {
            (Err(StationError::NameTooLong), v)
        } else if url.len() > URL_LEN {
            (Err(StationError::UrlTooLong), v)
        } else if v.pool_len + name.len() > POOL_SIZE {
            (Err(StationError::TooManyStations), v)
        } else if v.pool_len + name.len() + url.len() > POOL_SIZE {
            (Err(StationError::TooManyStations), StationsView { pool_len: v.pool_len + name.len(), ..v })
        } else if v.entries.len() >= MAX_NUM_STATIONS {
            (
                Err(StationError::TooManyStations),
                StationsView { pool_len: v.pool_len + name.len() + url.len(), ..v },
            )
        } else {
            (
                Ok(v.entries.len() as usize),
                StationsView {
                    entries: v.entries.push((name, url)),
                    pool_len: v.pool_len + name.len() + url.len(),
                    ..v
                },
            )
        }
    }

    /// What looking up station `id` yields: `None` past the end, an error when
    /// the name or URL does not fit a [`Station`], the station otherwise.
    pub open spec fn lookup_matches(
        v: StationsView,
        id: usize,
        r: Result<Option<Station<NAME_LEN, URL_LEN>>, StationError>,
    ) -> bool {
        if id >= v.entries.len() {
            r == Ok::<Option<Station<NAME_LEN, URL_LEN>>, StationError>(None)
        } else if v.entries[id as int].0.len() > NAME_LEN {
            r == Err::<Option<Station<NAME_LEN, URL_LEN>>, StationError>(StationError::NameTooLong)
        } else if v.entries[id as int].1.len() > URL_LEN {
            r == Err::<Option<Station<NAME_LEN, URL_LEN>>, StationError>(StationError::UrlTooLong)
        } else {
            r matches Ok(Some(st)) && st.name_view() == decode_utf8(v.entries[id as int].0)
                && st.url_view() == decode_utf8(v.entries[id as int].1)
        }
    }

    /// Creates an empty list of stations.
    pub fn new() -> (s: Self)
        ensures
            s.wf(),
            s@.entries == Seq::<(Seq<u8>, Seq<u8>)>::empty(),
            s@.presets == Seq::new(NUM_PRESETS as nat, |i: int| None::<usize>),
            s@.current == None::<usize>,
            s@.pool_len == 0,
    {
        let mut preset_slots: Vec<Option<usize>> = Vec::new();
        let mut i: usize = 0;
        while i < NUM_PRESETS
            invariant
                i <= NUM_PRESETS,
                preset_slots@ == Seq::new(i as nat, |k: int| None::<usize>),
            decreases NUM_PRESETS - i,
        {
            preset_slots.push(None);
            i = i + 1;
            assert(preset_slots@ =~= Seq::new(i as nat, |k: int| None::<usize>));
        }
        let s = Stations { pool: Vec::new(), positions: Vec::new(), preset_slots, current_station: None };
        assert(s@.entries =~= Seq::<(Seq<u8>, Seq<u8>)>::empty());
        s
    }

    /// Returns the number of stations that have been added.
    pub fn number_stations(&self) -> (n: usize)
        ensures
            n == self@.entries.len(),
    {
        self.positions.len()
    }

    /// Adds a station; the name and URL must be UTF-8 and fit a [`Station`]
    /// (at most `NAME_LEN` and `URL_LEN` bytes). Returns the id of the new
    /// station, which is the number of stations before it.
    pub fn add_station(&mut self, station_name: &[u8], station_url: &[u8]) -> (r: Result<
        usize,
        StationError,
    >)
        requires
            old(self).wf(),
        ensures
            final(self).wf(),
            (r, final(self)@) == Self::add_outcome(old(self)@, station_name@, station_url@),
    {
        let ghost v0 = self@;
        let _name = match str_from_utf8(station_name) {
            Ok(s) => s,
            Err(_) => return Err(StationError::NameNotUtf8),
        };
        let _url = match str_from_utf8(station_url) {
            Ok(s) => s,
            Err(_) => return Err(StationError::UrlNotUtf8),
        };
        if station_name.len() > NAME_LEN {
            return Err(StationError::NameTooLong);
        }
        if station_url.len() > URL_LEN {
            return Err(StationError::UrlTooLong);
        }
        if station_name.len() > POOL_SIZE - self.pool.len() {
            return Err(StationError::TooManyStations);
        }
        let name_positions = (self.pool.len(), self.pool.len() + station_name.len());
        self.pool.extend_from_slice(station_name);
        assert(self.pool@ =~= old(self).pool@ + station_name@) by {
            assert forall|k: int| 0 <= k < self.pool@.len() implies #[trigger] self.pool@[k]
                == (old(self).pool@ + station_name@)[k] by {}
        }
        if station_url.len() > POOL_SIZE - self.pool.len() {
            proof {
                assert(self.pool@.subrange(0, old(self).pool@.len() as int) =~= old(self).pool@);
                self.lemma_pool_grew(&*old(self));
            }
            return Err(StationError::TooManyStations);
        }
        let url_positions = (self.pool.len(), self.pool.len() + station_url.len());
        self.pool.extend_from_slice(station_url);
        assert(self.pool@ =~= old(self).pool@ + station_name@ + station_url@) by {
            assert forall|k: int| 0 <= k < self.pool@.len() implies #[trigger] self.pool@[k]
                == (old(self).pool@ + station_name@ + station_url@)[k] by {}
        }
        if self.positions.len() >= MAX_NUM_STATIONS {
            proof {
                assert(self.pool@.subrange(0, old(self).pool@.len() as int) =~= old(self).pool@);
                self.lemma_pool_grew(&*old(self));
            }
            return Err(StationError::TooManyStations);
        }
        self.positions.push(StationPositions { name: name_positions, url: url_positions });
        proof {
            let n0 = old(self).pool@.len() as int;
            let n1 = n0 + station_name@.len();
            assert(self.pool@.subrange(n0, n1) =~= station_name@);
            assert(self.pool@.subrange(n1, n1 + station_url@.len()) =~= station_url@);
            assert forall|i: int| 0 <= i < old(self).positions@.len() implies
                self.pool@.subrange(self.positions@[i].name.0 as int, self.positions@[i].name.1 as int)
                    == old(self).pool@.subrange(self.positions@[i].name.0 as int, self.positions@[i].name.1 as int)
                && self.pool@.subrange(self.positions@[i].url.0 as int, self.positions@[i].url.1 as int)
                    == old(self).pool@.subrange(self.positions@[i].url.0 as int, self.positions@[i].url.1 as int) by {
                assert(self.positions@[i] == old(self).positions@[i]);
                assert(self.pool@.subrange(self.positions@[i].name.0 as int, self.positions@[i].name.1 as int)
                    =~= old(self).pool@.subrange(self.positions@[i].name.0 as int, self.positions@[i].name.1 as int));
                assert(self.pool@.subrange(self.positions@[i].url.0 as int, self.positions@[i].url.1 as int)
                    =~= old(self).pool@.subrange(self.positions@[i].url.0 as int, self.positions@[i].url.1 as int));
            }
            assert(self@.entries =~= old(self)@.entries.push((station_name@, station_url@)));
        }
        Ok(self.positions.len() - 1)
    }

    /// What setting a preset does to the list, and whether it succeeds.
    pub open spec fn preset_outcome(v: StationsView, station_id: usize, preset_id: usize) -> (
        Result<(), StationError>,
        StationsView,
    ) {
        if preset_id >= NUM_PRESETS {
            (Err(StationError::TooManyPresets), v)
        } else if station_id >= v.entries.len() {
            (Err(StationError::StationNonExistent), v)
        } else {
            let v2 = StationsView { presets: v.presets.update(preset_id as int, Some(station_id)), ..v };
            if v.entries[station_id as int].0.len() > NAME_LEN {
                (Err(StationError::NameTooLong), v2)
            } else if v.entries[station_id as int].1.len() > URL_LEN {
                (Err(StationError::UrlTooLong), v2)
            } else {
                (Ok(()), v2)
            }
        }
    }

    /// The preset slot named by a `PRESET:n` field: the number after the last
    /// `:`, trimmed, when it is a valid slot.
    pub open spec fn prefix_slot(t: Seq<char>) -> Option<usize> {
        match parse_usize_spec(trim_chars(after_last_colon(t))) {
            Some(n) => if n < NUM_PRESETS { Some(n) } else { None },
            None => None,
        }
    }

    /// Retrieves a station by its id: `Ok(None)` past the end, an error when
    /// its name or URL is longer than a [`Station`] can hold.
    pub fn get_station(&self, id: usize) -> (r: Result<Option<Station<NAME_LEN, URL_LEN>>, StationError>)
        requires
            self.wf(),
        ensures
            Self::lookup_matches(self@, id, r),
    {
        if id >= self.positions.len() {
            return Ok(None);
        }
        let p = self.positions[id];
        assert(self.positions@[id as int] == p);
        let pool = self.pool.as_slice();
        let name_bytes = &pool[p.name.0..p.name.1];
        let url_bytes = &pool[p.url.0..p.url.1];
        assert(name_bytes@ == self@.entries[id as int].0);
        assert(url_bytes@ == self@.entries[id as int].1);
        if name_bytes.len() > NAME_LEN {
            return Err(StationError::NameTooLong);
        }
        if url_bytes.len() > URL_LEN {
            return Err(StationError::UrlTooLong);
        }
        let name = match utf8_to_string(name_bytes) {
            Ok(s) => s,
            Err(_) => return Err(StationError::NameNotUtf8),
        };
        let url = match utf8_to_string(url_bytes) {
            Ok(s) => s,
            Err(_) => return Err(StationError::UrlNotUtf8),
        };
        Ok(Some(Station { name, url }))
    }

    /// Assigns station `station_id` to preset slot `preset_id` and returns
    /// that station.
    pub fn set_preset(&mut self, station_id: usize, preset_id: usize) -> (r: Result<
        Station<NAME_LEN, URL_LEN>,
        StationError,
    >)
        requires
            old(self).wf(),
        ensures
            final(self).wf(),
            final(self)@ == Self::preset_outcome(old(self)@, station_id, preset_id).1,
            match r {
                Ok(_) => Self::preset_outcome(old(self)@, station_id, preset_id).0 is Ok,
                Err(e) => Self::preset_outcome(old(self)@, station_id, preset_id).0 == Err::<(), StationError>(e),
            },
            r is Ok ==> Self::lookup_matches(
                old(self)@,
                station_id,
                match r {
                    Ok(st) => Ok(Some(st)),
                    Err(e) => Err(e),
                },
            ),
    {
        if preset_id >= NUM_PRESETS {
            return Err(StationError::TooManyPresets);
        }
        if station_id >= self.number_stations() {
            return Err(StationError::StationNonExistent);
        }
        self.preset_slots.set(preset_id, Some(station_id));
        assert(self@.entries =~= old(self)@.entries);
        assert(self@ == Self::preset_outcome(old(self)@, station_id, preset_id).1);
        let station = self.get_station(station_id)?;
        match station {
            Some(st) => Ok(st),
            None => Err(StationError::StationNonExistent),
        }
    }

    /// What looking up preset slot `preset_id` yields: an error for a slot
    /// that cannot exist, `None` for an empty slot, else the lookup of the
    /// station assigned to it.
    pub open spec fn preset_lookup_matches(
        v: StationsView,
        preset_id: usize,
        r: Result<Option<Station<NAME_LEN, URL_LEN>>, StationError>,
    ) -> bool {
        if preset_id >= NUM_PRESETS {
            r == Err::<Option<Station<NAME_LEN, URL_LEN>>, StationError>(StationError::InvalidPreset)
        } else {
            match v.presets[preset_id as int] {
                None => r == Ok::<Option<Station<NAME_LEN, URL_LEN>>, StationError>(None),
                Some(id) => Self::lookup_matches(v, id, r),
            }
        }
    }

    /// Retrieves the station assigned to preset slot `preset_id`, if any.
    pub fn preset(&self, preset_id: usize) -> (r: Result<Option<Station<NAME_LEN, URL_LEN>>, StationError>)
        requires
            self.wf(),
        ensures
            Self::preset_lookup_matches(self@, preset_id, r),
    {
        if preset_id >= NUM_PRESETS {
            return Err(StationError::InvalidPreset);
        }
        match self.preset_slots[preset_id] {
            Some(station_id) => self.get_station(station_id),
            None => Ok(None),
        }
    }

    /// Sets the current station, which must exist.
    pub fn set_current_station(&mut self, station_index: usize) -> (r: Result<(), StationError>)
        requires
            old(self).wf(),
        ensures
            final(self).wf(),
            final(self)@.entries == old(self)@.entries,
            final(self)@.presets == old(self)@.presets,
            final(self)@.pool_len == old(self)@.pool_len,
            station_index < old(self)@.entries.len() ==> r is Ok && final(self)@.current == Some(
                station_index,
            ),
            station_index >= old(self)@.entries.len() ==> r == Err::<(), StationError>(
                StationError::StationNonExistent,
            ) && final(self)@.current == old(self)@.current,
    {
        if station_index < self.positions.len() {
            self.current_station = Some(station_index);
            Ok(())
        } else {
            Err(StationError::StationNonExistent)
        }
    }

    /// Resets the current station to station 0.
    pub fn reset_current_station(&mut self)
        requires
            old(self).wf(),
        ensures
            final(self).wf(),
            final(self)@.entries == old(self)@.entries,
            final(self)@.presets == old(self)@.presets,
            final(self)@.pool_len == old(self)@.pool_len,
            final(self)@.current == Some(0usize),
    {
        self.current_station = Some(0);
    }

    /// The preset slot number in a field of the form `PRESET:n`.
    pub fn extract_prefix_slot(field_value: &str) -> (r: Result<usize, StationError>)
        ensures
            match Self::prefix_slot(field_value@) {
                Some(n) => r == Ok::<usize, StationError>(n),
                None => r == Err::<usize, StationError>(StationError::InvalidPreset),
            },
    {
        let chars = str_to_chars(field_value);
        match Self::slot_of_chars(chars.as_slice()) {
            Some(slot) => Ok(slot),
            None => Err(StationError::InvalidPreset),
        }
    }

    /// [`Self::prefix_slot`] on a text given as characters.
    fn slot_of_chars(chars: &[char]) -> (r: Option<usize>)
        ensures
            r == Self::prefix_slot(chars@),
    {
        let slot_chars = after_last_colon_slice(chars);
        let trimmed = trim_char_slice(slot_chars.as_slice());
        match parse_usize(trimmed.as_slice()) {
            Some(slot) => if slot < NUM_PRESETS {
                Some(slot)
            } else {
                None
            },
            None => None,
        }
    }

    /// What one CSV field does to the list and to the cursor, and what it
    /// returns. The first field of a record is the name, the second the URL
    /// (the station is added then); of the fields after these only the last
    /// one of the record is looked at: when it reads `PRESET:n`, after
    /// trimming, the station goes to preset slot `n`.
    pub open spec fn field_outcome(
        v: StationsView,
        c: CursorView,
        field: Seq<u8>,
        record_end: bool,
    ) -> (Result<(), StationError>, StationsView, CursorView) {
        if c.field_index == 0 {
            if field.len() > NAME_LEN {
                (Err(StationError::NameTooLong), v, c)
            } else {
                (Ok(()), v, CursorView { field_index: 1, name: field, station_id: c.station_id })
            }
        } else if c.field_index == 1 {
            if field.len() > URL_LEN {
                (Err(StationError::UrlTooLong), v, c)
            } else {
                let (res, v2) = Self::add_outcome(v, c.name, field);
                match res {
                    Ok(id) => (
                        Ok(()),
                        v2,
                        CursorView {
                            field_index: if record_end { 0 } else { 2 },
                            name: c.name,
                            station_id: id,
                        },
                    ),
                    Err(e) => (Err(e), v2, c),
                }
            }
        } else if !record_end {
            (
                Ok(()),
                v,
                CursorView {
                    field_index: (c.field_index + 1) as usize,
                    name: c.name,
                    station_id: c.station_id,
                },
            )
        } else if !valid_utf8(field) {
            (Err(StationError::CsvFieldNotUtf8), v, c)
        } else {
            let next = CursorView { field_index: 0, name: c.name, station_id: c.station_id };
            let t = trim_chars(decode_utf8(field));
            if !is_preset_field(t) {
                (Ok(()), v, next)
            } else {
                match Self::prefix_slot(t) {
                    None => (Err(StationError::InvalidPreset), v, c),
                    Some(slot) => {
                        let (res, v2) = Self::preset_outcome(v, c.station_id, slot);
                        match res {
                            Ok(_) => (Ok(()), v2, next),
                            Err(e) => (Err(e), v2, c),
                        }
                    },
                }
            }
        }
    }

    /// Every preset slot that is set names a station of the list.
    pub open spec fn presets_point_to_stations(v: StationsView) -> bool {
        &&& v.presets.len() == NUM_PRESETS
        &&& forall|p: int| 0 <= p < NUM_PRESETS ==> (#[trigger] v.presets[p] matches Some(id) ==> id
            < v.entries.len())
    }

    /// Every station's name and URL fit a [`Station`].
    pub open spec fn all_fit(v: StationsView) -> bool {
        forall|i: int|
            0 <= i < v.entries.len() ==> (#[trigger] v.entries[i]).0.len() <= NAME_LEN
                && v.entries[i].1.len() <= URL_LEN
    }

    /// A list with no stations and no presets.
    pub open spec fn empty_view() -> StationsView {
        StationsView {
            entries: Seq::empty(),
            presets: Seq::new(NUM_PRESETS as nat, |i: int| None::<usize>),
            current: None,
            pool_len: 0,
        }
    }

    /// The cursor before the first record.
    pub open spec fn start_cursor() -> CursorView {
        CursorView { field_index: 0, name: Seq::empty(), station_id: 0 }
    }

    /// The output room left for a field of which `partial` has been read.
    pub open spec fn room_after(partial: Seq<u8>) -> nat {
        if partial.len() <= FIELD_BUFFER_LEN {
            (FIELD_BUFFER_LEN - partial.len()) as nat
        } else {
            0
        }
    }

    /// The rest of a load once all data has been handed to the reader: the
    /// reader ends the last record, if one is open, and then reports the end;
    /// it is asked at most `calls_left` more times. `partial` is what has
    /// been read of a field that the data left open.
    pub open spec fn load_tail(
        history: Seq<(Seq<u8>, nat)>,
        calls_left: nat,
        v: StationsView,
        c: CursorView,
        partial: Seq<u8>,
    ) -> Result<StationsView, StationError>
        decreases calls_left,
    {
        if calls_left == 0 {
            Ok(v)
        } else {
            let room = Self::room_after(partial);
            let step = csv_read(history, Seq::empty(), room);
            let next = history.push((Seq::<u8>::empty(), room));
            match step.kind {
                CsvRead::Field(record_end) => {
                    let (res, v2, c2) = Self::field_outcome(v, c, partial + step.field, record_end);
                    match res {
                        Err(e) => Err(e),
                        Ok(_) => Self::load_tail(next, (calls_left - 1) as nat, v2, c2, Seq::empty()),
                    }
                },
                _ => Ok(v),
            }
        }
    }

    /// The rest of a load from byte `pos` of `data` on: the reader is handed
    /// the data from `pos` and the room left in a field buffer of
    /// [`FIELD_BUFFER_LEN`] bytes, of which `partial` holds what was read of
    /// the current field when the reader last ran out of input; each field
    /// it completes goes through [`Self::field_outcome`]; a field that does
    /// not fit the buffer is [`StationError::CsvFieldTooLong`]; the first
    /// error ends the load. (A reader takes at least one byte of non-empty
    /// input while it has output room and at most all of it; other counts
    /// end the load too.)
    pub open spec fn load_from(
        data: Seq<u8>,
        history: Seq<(Seq<u8>, nat)>,
        pos: nat,
        v: StationsView,
        c: CursorView,
        partial: Seq<u8>,
    ) -> Result<StationsView, StationError>
        decreases data.len() - pos,
    {
        if pos >= data.len() {
            Self::load_tail(history, 2, v, c, partial)
        } else {
            let input = data.skip(pos as int);
            let room = Self::room_after(partial);
            let step = csv_read(history, input, room);
            let next = history.push((input, room));
            if step.taken == 0 || step.taken > input.len() {
                Err(StationError::CsvFieldTooLong)
            } else {
                match step.kind {
                    CsvRead::InputEmpty => Self::load_from(
                        data,
                        next,
                        pos + step.taken,
                        v,
                        c,
                        partial + step.field,
                    ),
                    CsvRead::OutputFull => Err(StationError::CsvFieldTooLong),
                    CsvRead::Field(record_end) => {
                        let (res, v2, c2) = Self::field_outcome(
                            v,
                            c,
                            partial + step.field,
                            record_end,
                        );
                        match res {
                            Err(e) => Err(e),
                            Ok(_) => Self::load_from(
                                data,
                                next,
                                pos + step.taken,
                                v2,
                                c2,
                                Seq::empty(),
                            ),
                        }
                    },
                    CsvRead::End => Ok(v),
                }
            }
        }
    }

    /// What loading `data` yields: the list of stations, or the first error.
    pub open spec fn load_result(data: Seq<u8>) -> Result<StationsView, StationError> {
        Self::load_from(
            data,
            Seq::empty(),
            0,
            Self::empty_view(),
            Self::start_cursor(),
            Seq::empty(),
        )
    }

    /// Loads stations from CSV data, one record per station with at least
    /// two fields: `{name},{url},...`; when the last field of a record reads
    /// `PRESET:n` the station goes to preset slot `n`; see
    /// [`Self::load_result`]. The loaded list is well formed, its names and
    /// URLs fit a [`Station`], and empty data loads.
    pub fn load(data: &[u8]) -> (r: Result<Self, StationError>)
        requires
            data@.len() < usize::MAX - 2,
        ensures
            match Self::load_result(data@) {
                Ok(v) => r matches Ok(s) && s@ == v,
                Err(e) => r matches Err(e2) && e2 == e,
            },
            r matches Ok(s) ==> s.wf() && Self::all_fit(s@) && Self::presets_point_to_stations(s@)
                && s@.current == None::<usize>,
            data@.len() == 0 ==> r is Ok,
    {
        let mut reader = CsvReader::new();
        let mut stations = Self::new();
        let mut out: Vec<u8> = vec![0u8; FIELD_BUFFER_LEN];
        // `out[0..out_pos]` holds what has been read of a field that the
        // input left open.
        let mut out_pos: usize = 0;
        let mut cursor = RecordCursor::new();
        let mut pos: usize = 0;
        assert(stations@ == Self::empty_view());
        assert(cursor@ == Self::start_cursor());
        assert(out@.take(0) =~= Seq::<u8>::empty());
        while pos < data.len()
            invariant
                pos <= data@.len() < usize::MAX - 2,
                out@.len() == FIELD_BUFFER_LEN,
                out_pos <= FIELD_BUFFER_LEN,
                stations.wf(),
                Self::all_fit(stations@),
                stations@.current == None::<usize>,
                cursor.field_index <= pos,
                cursor.name@.len() <= NAME_LEN,
                Self::load_result(data@) == Self::load_from(
                    data@,
                    reader@,
                    pos as nat,
                    stations@,
                    cursor@,
                    out@.take(out_pos as int),
                ),
                pos == 0 ==> stations@ == Self::empty_view() && cursor@ == Self::start_cursor()
                    && out_pos == 0,
            decreases data@.len() - pos,
        {
            let input = &data[pos..data.len()];
            assert(input@ == data@.skip(pos as int));
            let ghost partial = out@.take(out_pos as int);
            assert(Self::room_after(partial) == FIELD_BUFFER_LEN - out_pos);
            let (res, nin, nout) = csv_read_field(&mut reader, input, &mut out, out_pos);
            if nin == 0 {
                return Err(StationError::CsvFieldTooLong);
            }
            assert(out@.take((out_pos + nout) as int) =~= partial + out@.subrange(
                out_pos as int,
                out_pos + nout,
            ));
            match res {
                CsvRead::InputEmpty => {
                    out_pos = out_pos + nout;
                },
                CsvRead::OutputFull => return Err(StationError::CsvFieldTooLong),
                CsvRead::Field(record_end) => {
                    let field = &out.as_slice()[0..out_pos + nout];
                    assert(field@ == out@.take((out_pos + nout) as int));
                    if let Err(e) = stations.apply_field(&mut cursor, field, record_end) {
                        return Err(e);
                    }
                    out_pos = 0;
                    assert(out@.take(0) =~= Seq::<u8>::empty());
                },
                CsvRead::End => {
                    proof {
                        stations.lemma_presets_point_to_stations();
                    }
                    return Ok(stations);
                },
            }
            pos = pos + nin;
        }
        // Past the data the reader ends the last record, if one is open, and
        // then reports the end: two calls at most.
        let ghost empty_data = data@.len() == 0;
        let mut calls: usize = 0;
        while calls < 2
            invariant
                pos == data@.len() < usize::MAX - 2,
                calls <= 2,
                out@.len() == FIELD_BUFFER_LEN,
                out_pos <= FIELD_BUFFER_LEN,
                stations.wf(),
                Self::all_fit(stations@),
                stations@.current == None::<usize>,
                cursor.field_index <= pos + calls,
                cursor.name@.len() <= NAME_LEN,
                Self::load_result(data@) == Self::load_tail(
                    reader@,
                    (2 - calls) as nat,
                    stations@,
                    cursor@,
                    out@.take(out_pos as int),
                ),
                empty_data == (data@.len() == 0),
                empty_data ==> out_pos == 0,
                empty_data && calls < 2 ==> stations@.entries.len() == 0 && stations@.pool_len == 0,
                empty_data && calls < 2 ==> cursor@.field_index == calls,
                empty_data && calls == 1 ==> cursor@.name.len() == 0,
            decreases 2 - calls,
        {
            let input = &data[pos..data.len()];
            assert(input@ =~= Seq::<u8>::empty());
            let ghost partial = out@.take(out_pos as int);
            assert(Self::room_after(partial) == FIELD_BUFFER_LEN - out_pos);
            let (res, _nin, nout) = csv_read_field(&mut reader, input, &mut out, out_pos);
            assert(out@.take((out_pos + nout) as int) =~= partial + out@.subrange(
                out_pos as int,
                out_pos + nout,
            ));
            match res {
                CsvRead::Field(record_end) => {
                    let field = &out.as_slice()[0..out_pos + nout];
                    assert(field@ == out@.take((out_pos + nout) as int));
                    if let Err(e) = stations.apply_field(&mut cursor, field, record_end) {
                        return Err(e);
                    }
                    out_pos = 0;
                    assert(out@.take(0) =~= Seq::<u8>::empty());
                },
                _ => {
                    proof {
                        stations.lemma_presets_point_to_stations();
                    }
                    return Ok(stations);
                },
            }
            calls = calls + 1;
        }
        proof {
            stations.lemma_presets_point_to_stations();
        }
        Ok(stations)
    }

    /// Applies one field read from the CSV data; see [`Self::field_outcome`].
    pub fn apply_field(&mut self, cursor: &mut RecordCursor, field: &[u8], record_end: bool) -> (r:
        Result<(), StationError>)
        requires
            old(self).wf(),
            old(cursor).field_index < usize::MAX,
        ensures
            final(self).wf(),
            (r, final(self)@, final(cursor)@) == Self::field_outcome(
                old(self)@,
                old(cursor)@,
                field@,
                record_end,
            ),
    {
        if cursor.field_index == 0 {
            if field.len() > NAME_LEN {
                return Err(StationError::NameTooLong);
            }
            cursor.name = vstd::slice::slice_to_vec(field);
            cursor.field_index = 1;
            Ok(())
        } else if cursor.field_index == 1 {
            if field.len() > URL_LEN {
                return Err(StationError::UrlTooLong);
            }
            match self.add_station(cursor.name.as_slice(), field) {
                Ok(id) => {
                    cursor.station_id = id;
                    cursor.field_index = if record_end {
                        0
                    } else {
                        2
                    };
                    Ok(())
                },
                Err(e) => Err(e),
            }
        } else if !record_end {
            cursor.field_index = cursor.field_index + 1;
            Ok(())
        } else {
            let text = match str_from_utf8(field) {
                Ok(t) => t,
                Err(e) => return Err(StationError::from(e)),
            };
            let chars = str_to_chars(text);
            let value = trim_char_slice(chars.as_slice());
            if starts_with_preset_tag(value.as_slice()) {
                let slot = match Self::slot_of_chars(value.as_slice()) {
                    Some(slot) => slot,
                    None => return Err(StationError::InvalidPreset),
                };
                match self.set_preset(cursor.station_id, slot) {
                    Ok(_) => {},
                    Err(e) => return Err(e),
                }
            }
            cursor.field_index = 0;
            Ok(())
        }
    }

    /// A station that was added is found again under the id that adding it
    /// returned, which is the number of stations before it, with the name
    /// and URL it was given; the stations before it are found as before.
    pub proof fn lemma_get_after_add(v: StationsView, name: Seq<u8>, url: Seq<u8>)
        requires
            Self::add_outcome(v, name, url).0 is Ok,
        ensures
            Self::add_outcome(v, name, url).0 == Ok::<usize, StationError>(v.entries.len() as usize),
            Self::add_outcome(v, name, url).1.entries.len() == v.entries.len() + 1,
            name.len() <= NAME_LEN,
            url.len() <= URL_LEN,
            forall|
                r: Result<Option<Station<NAME_LEN, URL_LEN>>, StationError>,
            |
                #![trigger Self::lookup_matches(Self::add_outcome(v, name, url).1, v.entries.len() as usize, r)]
                Self::lookup_matches(Self::add_outcome(v, name, url).1, v.entries.len() as usize, r)
                    <==> (r matches Ok(Some(st)) && st.name_view() == decode_utf8(name)
                    && st.url_view() == decode_utf8(url)),
            forall|id: usize, r: Result<Option<Station<NAME_LEN, URL_LEN>>, StationError>|
                #![trigger Self::lookup_matches(Self::add_outcome(v, name, url).1, id, r)]
                id < v.entries.len() ==> (Self::lookup_matches(Self::add_outcome(v, name, url).1, id, r)
                    <==> Self::lookup_matches(v, id, r)),
    {
        let v2 = Self::add_outcome(v, name, url).1;
        assert(v2.entries == v.entries.push((name, url)));
    }

    /// After a station is assigned to a preset slot, looking up that slot
    /// gives what looking up the station gives; the stations and the other
    /// slots are unchanged.
    pub proof fn lemma_preset_after_set_preset(v: StationsView, station_id: usize, preset_id: usize)
        requires
            v.presets.len() == NUM_PRESETS,
            Self::preset_outcome(v, station_id, preset_id).0 is Ok,
        ensures
            Self::preset_outcome(v, station_id, preset_id).1.entries == v.entries,
            forall|r: Result<Option<Station<NAME_LEN, URL_LEN>>, StationError>|
                #![trigger Self::preset_lookup_matches(Self::preset_outcome(v, station_id, preset_id).1, preset_id, r)]
                Self::preset_lookup_matches(Self::preset_outcome(v, station_id, preset_id).1, preset_id, r)
                    <==> Self::lookup_matches(v, station_id, r),
            forall|q: int|
                0 <= q < v.presets.len() && q != preset_id ==> #[trigger] Self::preset_outcome(
                    v,
                    station_id,
                    preset_id,
                ).1.presets[q] == v.presets[q],
    {
        let v2 = Self::preset_outcome(v, station_id, preset_id).1;
        assert(v2.presets[preset_id as int] == Some(station_id));
        assert forall|r: Result<Option<Station<NAME_LEN, URL_LEN>>, StationError>|
            Self::preset_lookup_matches(v2, preset_id, r) <==> Self::lookup_matches(v, station_id, r) by {
            assert(Self::lookup_matches(v2, station_id, r) == Self::lookup_matches(v, station_id, r));
        }
    }

    /// In a list whose names and URLs all fit a [`Station`], as [`Self::load`]
    /// makes, every station can be retrieved.
    pub proof fn lemma_fitting_station_is_retrieved(
        v: StationsView,
        id: usize,
        r: Result<Option<Station<NAME_LEN, URL_LEN>>, StationError>,
    )
        requires
            Self::all_fit(v),
            id < v.entries.len(),
            Self::lookup_matches(v, id, r),
        ensures
            r matches Ok(Some(st)) && st.name_view() == decode_utf8(v.entries[id as int].0)
                && st.url_view() == decode_utf8(v.entries[id as int].1),
    {
        assert(v.entries[id as int].0.len() <= NAME_LEN);
    }

    /// The last field of a record, past its name and URL, of the form
    /// `PRESET:n` (after trimming) assigns the record's station to slot `n`,
    /// when that slot exists and the station can be retrieved; the stations
    /// are unchanged and the next field starts a new record.
    pub proof fn lemma_preset_field_assigns_station(
        v: StationsView,
        c: CursorView,
        field: Seq<u8>,
        slot: usize,
    )
        requires
            v.presets.len() == NUM_PRESETS,
            Self::all_fit(v),
            c.field_index >= 2,
            c.station_id < v.entries.len(),
            valid_utf8(field),
            is_preset_field(trim_chars(decode_utf8(field))),
            Self::prefix_slot(trim_chars(decode_utf8(field))) == Some(slot),
        ensures
            Self::field_outcome(v, c, field, true).0 is Ok,
            Self::field_outcome(v, c, field, true).1.presets[slot as int] == Some(c.station_id),
            Self::field_outcome(v, c, field, true).1.entries == v.entries,
            Self::field_outcome(v, c, field, true).2.station_id == c.station_id,
            Self::field_outcome(v, c, field, true).2.field_index == 0,
    {
        assert(v.entries[c.station_id as int].0.len() <= NAME_LEN);
    }

    /// A field past a record's name and URL that is not the record's last
    /// is ignored, whatever it holds.
    pub proof fn lemma_extra_field_is_ignored(v: StationsView, c: CursorView, field: Seq<u8>)
        requires
            2 <= c.field_index < usize::MAX,
        ensures
            Self::field_outcome(v, c, field, false).0 is Ok,
            Self::field_outcome(v, c, field, false).1 == v,
            Self::field_outcome(v, c, field, false).2.station_id == c.station_id,
    {
    }

    /// The URL field of a record adds the station of the record's name and
    /// that URL, when it fits; a record of exactly two fields then ends, and
    /// the next field is the name of a new record.
    pub proof fn lemma_url_field_adds_station(
        v: StationsView,
        c: CursorView,
        field: Seq<u8>,
        record_end: bool,
    )
        requires
            c.field_index == 1,
            field.len() <= URL_LEN,
            Self::add_outcome(v, c.name, field).0 is Ok,
        ensures
            Self::field_outcome(v, c, field, record_end).0 is Ok,
            Self::field_outcome(v, c, field, record_end).1.entries == v.entries.push((c.name, field)),
            Self::field_outcome(v, c, field, record_end).2.station_id == v.entries.len(),
            record_end ==> Self::field_outcome(v, c, field, record_end).2.field_index == 0,
    {
    }

    /// A well-formed list has [`NUM_PRESETS`] preset slots, and every slot
    /// that is set names a station of the list.
    pub proof fn lemma_presets_point_to_stations(&self)
        requires
            self.wf(),
        ensures
            Self::presets_point_to_stations(self@),
    {
    }

    proof fn lemma_pool_grew(&self, before: &Self)
        requires
            before.wf(),
            self.positions@ == before.positions@,
            self.preset_slots@ == before.preset_slots@,
            self.current_station == before.current_station,
            self.pool@.len() <= POOL_SIZE,
            self.pool@.len() >= before.pool@.len(),
            self.pool@.subrange(0, before.pool@.len() as int) == before.pool@,
        ensures
            self.wf(),
            self@.entries == before@.entries,
    {
        assert forall|i: int| 0 <= i < self.positions@.len() implies
            self.pool@.subrange(self.positions@[i].name.0 as int, self.positions@[i].name.1 as int)
                == before.pool@.subrange(self.positions@[i].name.0 as int, self.positions@[i].name.1 as int)
            && self.pool@.subrange(self.positions@[i].url.0 as int, self.positions@[i].url.1 as int)
                == before.pool@.subrange(self.positions@[i].url.0 as int, self.positions@[i].url.1 as int) by {
            assert(before.positions@[i] == self.positions@[i]);
            assert(self.pool@.subrange(self.positions@[i].name.0 as int, self.positions@[i].name.1 as int)
                =~= before.pool@.subrange(self.positions@[i].name.0 as int, self.positions@[i].name.1 as int));
            assert(self.pool@.subrange(self.positions@[i].url.0 as int, self.positions@[i].url.1 as int)
                =~= before.pool@.subrange(self.positions@[i].url.0 as int, self.positions@[i].url.1 as int));
        }
        assert(self@.entries =~= before@.entries);
    }
}

impl<const NAME_LEN: usize, const URL_LEN: usize, const NUM_PRESETS: usize> Default for Stations<
    NAME_LEN,
    URL_LEN,
    NUM_PRESETS,
> {
    /// Same as [`Stations::new`].
    fn default() -> (s: Self)
        ensures
            s.wf(),
            s@.entries == Seq::<(Seq<u8>, Seq<u8>)>::empty(),
            s@.presets == Seq::new(NUM_PRESETS as nat, |i: int| None::<usize>),
            s@.current == None::<usize>,
            s@.pool_len == 0,
    {
        Self::new()
    }
}

/// Room, in bytes, for the name of a radio station.
pub const MAX_STATION_NAME_LEN: usize = 40;

/// Room, in bytes, for the URL of a radio station.
pub const MAX_STATION_URL_LEN: usize = 256;

/// The number of preset slots of the radio.
pub const NUMBER_PRESETS: usize = 4;

/// A station of the radio.
pub type RadioStation = Station<MAX_STATION_NAME_LEN, MAX_STATION_URL_LEN>;

/// The radio's list of stations.
pub type RadioStations = Stations<MAX_STATION_NAME_LEN, MAX_STATION_URL_LEN, NUMBER_PRESETS>;

/// Failures of getting the radio's station list.
#[derive(Debug, Clone, Copy, PartialEq, Eq, Structural)]
pub enum RadioStationError {
    StationConstruction(StationError),
    Connection,
}

/// The radio's station list from its CSV data; see [`Stations::load`].
pub fn load_radio_stations(data: &[u8]) -> (r: Result<RadioStations, RadioStationError>)
    requires
        data@.len() < usize::MAX - 2,
    ensures
        match RadioStations::load_result(data@) {
            Ok(v) => r matches Ok(s) && s@ == v,
            Err(e) => r == Err::<RadioStations, RadioStationError>(
                RadioStationError::StationConstruction(e),
            ),
        },
        r matches Ok(s) ==> s.wf() && RadioStations::all_fit(s@) && RadioStations::presets_point_to_stations(
            s@,
        ) && s@.current == None::<usize>,
        data@.len() == 0 ==> r is Ok,
{
    match RadioStations::load(data) {
        Ok(s) => Ok(s),
        Err(e) => Err(RadioStationError::StationConstruction(e)),
    }
}

} // verus!

//! The frame decoder: one protocol line to a validated `Frame`.

use vstd::arithmetic::div_mod::{
    lemma_add_mod_noop_right, lemma_mod_add_multiples_vanish, lemma_small_mod,
};
use vstd::prelude::*;
use vstd::slice::slice_subrange;
use vstd::string::*;

use crate::flags::{flags_of, DataPointFlags};
use crate::float_text::{float_text, is_float_text, lemma_float_text_chars};
use crate::numeric::{
    ascii_chars, ascii_string, atoi_u64, atoi_u64_value, digits_of, int_text, int_text_value,
    lemma_atoi_round_trip, lemma_digits_of,
    lemma_int_text_chars, lemma_int_text_round_trip, parse_int,
};
use crate::text::{free_of, join_seq, lemma_split_join, lemma_split_nonempty, split_seq};

verus! {

/// The field separator of the wire format.
pub const FIELD_SEPARATOR: u8 = 44;

/// The marker that opens a data line.
pub const DATA_MARKER: u8 = 36;

/// The texts that the spans `r` cut out of `b`.
pub open spec fn spans_text(b: Seq<u8>, r: Seq<(usize, usize)>) -> Seq<Seq<u8>> {
    Seq::new(r.len(), |k: int| b.subrange(r[k].0 as int, r[k].1 as int))
}

/// The spans of the comma-separated tokens of `b`.
pub fn split_fields(b: &[u8]) -> (r: Vec<(usize, usize)>)
    ensures
        spans_text(b@, r@) == split_seq(b@, FIELD_SEPARATOR),
        forall|k: int| 0 <= k < r@.len() ==> (#[trigger] r@[k]).0 <= r@[k].1 && r@[k].1 <= b@.len(),
{
    let mut spans: Vec<(usize, usize)> = Vec::new();
    let mut start: usize = 0;
    let mut i: usize = 0;
    assert(b@.subrange(0, 0) =~= Seq::<u8>::empty());
    assert(spans_text(b@, spans@).push(b@.subrange(0, 0)) =~= seq![Seq::<u8>::empty()]);
    while i < b.len()
        invariant
            start <= i <= b@.len(),
            split_seq(b@.subrange(0, i as int), FIELD_SEPARATOR) == spans_text(b@, spans@).push(
                b@.subrange(start as int, i as int),
            ),
            forall|k: int|
                0 <= k < spans@.len() ==> (#[trigger] spans@[k]).0 <= spans@[k].1 && spans@[k].1
                    <= start,
        decreases b@.len() - i,
    {
        let ghost pre = b@.subrange(0, i as int);
        let ghost next = b@.subrange(0, i + 1);
        assert(next.drop_last() =~= pre);
        assert(next.last() == b@[i as int]);
        if b[i] == FIELD_SEPARATOR {
            let ghost old_spans = spans@;
            let ghost old_start = start;
            spans.push((start, i));
            start = i + 1;
            assert(forall|k: int| 0 <= k < old_spans.len() ==> spans@[k] == old_spans[k]);
            assert(spans@[old_spans.len() as int] == (old_start, i));
            assert(b@.subrange(start as int, (i + 1) as int) =~= Seq::<u8>::empty());
            assert(spans_text(b@, spans@) =~= spans_text(b@, old_spans).push(
                b@.subrange(old_start as int, i as int),
            ));
        } else {
            let ghost tail = b@.subrange(start as int, i as int);
            assert(b@.subrange(start as int, (i + 1) as int) =~= tail.push(b@[i as int]));
        }
        i = i + 1;
    }
    assert(b@.subrange(0, b@.len() as int) =~= b@);
    let ghost before = spans@;
    spans.push((start, b.len()));
    assert(spans_text(b@, spans@) =~= spans_text(b@, before).push(
        b@.subrange(start as int, b@.len() as int),
    ));
    spans
}

/// The fields of a frame line, in the order in which they are read.
#[derive(Debug, Clone, Copy, PartialEq, Eq, Structural)]
pub enum Field {
    Flags,
    SampleRate,
    Latitude,
    Longitude,
    Elevation,
    Satellites,
    Speed,
    Angle,
    SampleCount,
    Sample,
    Checksum,
}

/// The field's name as it appears in error reports.
pub open spec fn field_name(f: Field) -> Seq<char> {
    match f {
        Field::Flags => "flags"@,
        Field::SampleRate => "sample_rate"@,
        Field::Latitude => "latitude"@,
        Field::Longitude => "longitude"@,
        Field::Elevation => "elevation"@,
        Field::Satellites => "satellites"@,
        Field::Speed => "speed"@,
        Field::Angle => "angle"@,
        Field::SampleCount => "sample_count"@,
        Field::Sample => "sample"@,
        Field::Checksum => "checksum"@,
    }
}

impl Field {
    /// The field's name as it appears in error reports.
    pub fn name(&self) -> (r: &'static str)
        ensures
            r@ == field_name(*self),
    {
        match self {
            Field::Flags => "flags",
            Field::SampleRate => "sample_rate",
            Field::Latitude => "latitude",
            Field::Longitude => "longitude",
            Field::Elevation => "elevation",
            Field::Satellites => "satellites",
            Field::Speed => "speed",
            Field::Angle => "angle",
            Field::SampleCount => "sample_count",
            Field::Sample => "sample",
            Field::Checksum => "checksum",
        }
    }
}

/// Why a line was not accepted as a frame.
#[derive(Debug, Clone, Copy, PartialEq, Eq, Structural)]
pub enum ProtocolError {
    /// The line ends before this field.
    MissingField(Field),
    /// The field is there but is not a number of its type.
    FieldParseError(Field),
    /// Fewer sample tokens than the declared count, before the checksum.
    SampleCountMismatch,
    /// The samples do not add up to the declared checksum.
    ChecksumMismatch,
}

/// The range of a raw sample and of the timestamp.
pub const I64_LO: i64 = -0x8000_0000_0000_0000;

pub const I64_HI: i64 = 0x7fff_ffff_ffff_ffff;

/// The largest satellite count and sample count.
pub const U16_HI: i64 = 0xffff;

/// The text of an error report.
pub open spec fn error_text(e: ProtocolError) -> Seq<char> {
    match e {
        ProtocolError::MissingField(f) => "missing field "@ + field_name(f),
        ProtocolError::FieldParseError(f) => "cannot read field "@ + field_name(f),
        ProtocolError::SampleCountMismatch => "fewer samples than declared"@,
        ProtocolError::ChecksumMismatch => "checksum mismatch"@,
    }
}

impl ProtocolError {
    /// A one-line report of the error.
    pub fn message(&self) -> (r: String)
        ensures
            r@ == error_text(*self),
    {
        match self {
            ProtocolError::MissingField(f) => String::from_str("missing field ").concat(f.name()),
            ProtocolError::FieldParseError(f) => String::from_str("cannot read field ").concat(f.name()),
            ProtocolError::SampleCountMismatch => String::from_str("fewer samples than declared"),
            ProtocolError::ChecksumMismatch => String::from_str("checksum mismatch"),
        }
    }
}

/// Whether token `t` is a valid value of field `f`.
pub open spec fn token_ok(f: Field, t: Seq<u8>) -> bool {
    match f {
        Field::Flags => true,
        Field::Satellites | Field::SampleCount => int_text_value(t, 0, U16_HI as int) is Some,
        Field::Sample => int_text_value(t, I64_LO as int, I64_HI as int) is Some,
        Field::Checksum => atoi_u64_value(t) is Some,
        _ => is_float_text(t),
    }
}

/// The fault of field `f`, the `k`-th token of `t`, if any.
pub open spec fn field_fault(t: Seq<Seq<u8>>, f: Field, k: int) -> Option<ProtocolError> {
    if t.len() <= k {
        Some(ProtocolError::MissingField(f))
    } else if !token_ok(f, t[k]) {
        Some(ProtocolError::FieldParseError(f))
    } else {
        None
    }
}

/// The first fault among the fixed fields that follow the timestamp.
pub open spec fn header_fault(t: Seq<Seq<u8>>) -> Option<ProtocolError> {
    if field_fault(t, Field::Flags, 1) is Some {
        field_fault(t, Field::Flags, 1)
    } else if field_fault(t, Field::SampleRate, 2) is Some {
        field_fault(t, Field::SampleRate, 2)
    } else if field_fault(t, Field::Latitude, 3) is Some {
        field_fault(t, Field::Latitude, 3)
    } else if field_fault(t, Field::Longitude, 4) is Some {
        field_fault(t, Field::Longitude, 4)
    } else if field_fault(t, Field::Elevation, 5) is Some {
        field_fault(t, Field::Elevation, 5)
    } else if field_fault(t, Field::Satellites, 6) is Some {
        field_fault(t, Field::Satellites, 6)
    } else if field_fault(t, Field::Speed, 7) is Some {
        field_fault(t, Field::Speed, 7)
    } else if field_fault(t, Field::Angle, 8) is Some {
        field_fault(t, Field::Angle, 8)
    } else {
        field_fault(t, Field::SampleCount, 9)
    }
}

/// The line without its leading data marker, if it has one.
pub open spec fn frame_body(line: Seq<u8>) -> Seq<u8> {
    if line.len() > 0 && line[0] == DATA_MARKER {
        line.drop_first()
    } else {
        line
    }
}

/// The raw reading at the middle of the converter's range, and the scale
/// of a normalized sample: a raw sample `r` stands for
/// `(r - SAMPLE_MIDPOINT) / SAMPLE_SCALE`.
pub const SAMPLE_MIDPOINT: i64 = 512;

pub const SAMPLE_SCALE: i64 = 512;

/// The numerator of the normalized value of raw sample `raw`, over
/// `SAMPLE_SCALE`.
pub fn sample_offset(raw: i64) -> (r: i128)
    ensures
        r == raw - SAMPLE_MIDPOINT,
{
    raw as i128 - SAMPLE_MIDPOINT as i128
}

/// The first token of the sample block.
pub const FIRST_SAMPLE: usize = 10;

/// The declared number of samples.
pub open spec fn sample_count_of(t: Seq<Seq<u8>>) -> int {
    int_text_value(t[9], 0, U16_HI as int)->0
}

/// The raw samples that the `n` tokens after the header denote.
pub open spec fn samples_of(t: Seq<Seq<u8>>, n: int) -> Seq<i64> {
    Seq::new(n as nat, |i: int| int_text_value(t[FIRST_SAMPLE + i], I64_LO as int, I64_HI as int)->0 as i64)
}

/// The arithmetic sum of the raw samples.
pub open spec fn sample_sum(s: Seq<i64>) -> int
    decreases s.len(),
{
    if s.len() == 0 {
        0
    } else {
        sample_sum(s.drop_last()) + s.last()
    }
}

/// The checksum that the samples `s` call for: their sum, kept in an
/// unsigned 64-bit accumulator.
pub open spec fn checksum_of(s: Seq<i64>) -> int {
    sample_sum(s) % 0x1_0000_0000_0000_0000
}

/// A decoded frame, as values.
pub struct FrameView {
    pub timestamp: Option<i64>,
    pub flags: DataPointFlags,
    pub sample_rate: Seq<char>,
    pub latitude: Seq<char>,
    pub longitude: Seq<char>,
    pub elevation: Seq<char>,
    pub satellites: u16,
    pub speed: Seq<char>,
    pub angle: Seq<char>,
    pub samples: Seq<i64>,
}

/// The frame that the tokens `t` denote, once they are known to be valid.
pub open spec fn frame_of_tokens(t: Seq<Seq<u8>>) -> FrameView {
    FrameView {
        timestamp: match int_text_value(t[0], I64_LO as int, I64_HI as int) {
            Some(v) => Some(v as i64),
            None => None,
        },
        flags: flags_of(t[1]),
        sample_rate: ascii_chars(t[2]),
        latitude: ascii_chars(t[3]),
        longitude: ascii_chars(t[4]),
        elevation: ascii_chars(t[5]),
        satellites: int_text_value(t[6], 0, U16_HI as int)->0 as u16,
        speed: ascii_chars(t[7]),
        angle: ascii_chars(t[8]),
        samples: samples_of(t, sample_count_of(t)),
    }
}

/// What a protocol line decodes to.
pub open spec fn decode_frame(line: Seq<u8>) -> Result<FrameView, ProtocolError> {
    let t = split_seq(frame_body(line), FIELD_SEPARATOR);
    let n = sample_count_of(t);
    if header_fault(t) is Some {
        Err(header_fault(t)->0)
    } else if t.len() <= FIRST_SAMPLE + n {
        Err(ProtocolError::SampleCountMismatch)
    } else if exists|i: int| 0 <= i < n && !token_ok(Field::Sample, #[trigger] t[FIRST_SAMPLE + i]) {
        Err(ProtocolError::FieldParseError(Field::Sample))
    } else if !token_ok(Field::Checksum, t[FIRST_SAMPLE + n]) {
        Err(ProtocolError::FieldParseError(Field::Checksum))
    } else if atoi_u64_value(t[FIRST_SAMPLE + n])->0 != checksum_of(samples_of(t, n)) {
        Err(ProtocolError::ChecksumMismatch)
    } else {
        Ok(frame_of_tokens(t))
    }
}

/// One decoded telemetry record. Its samples add up to the checksum that
/// came with them; the floating-point fields keep the text they were sent as.
#[derive(Debug, Clone)]
pub struct Frame {
    timestamp: Option<i64>,
    flags: DataPointFlags,
    sample_rate: String,
    latitude: String,
    longitude: String,
    elevation: String,
    satellites: u16,
    speed: String,
    angle: String,
    samples: Vec<i64>,
}

/// The record under the name the capture code gives it.
pub type DataPoint = Frame;

impl View for Frame {
    type V = FrameView;

    closed spec fn view(&self) -> FrameView {
        FrameView {
            timestamp: self.timestamp,
            flags: self.flags,
            sample_rate: self.sample_rate@,
            latitude: self.latitude@,
            longitude: self.longitude@,
            elevation: self.elevation@,
            satellites: self.satellites,
            speed: self.speed@,
            angle: self.angle@,
            samples: self.samples@,
        }
    }
}

/// Decoding result seen as values.
pub open spec fn result_view(r: Result<Frame, ProtocolError>) -> Result<FrameView, ProtocolError> {
    match r {
        Ok(f) => Ok(f@),
        Err(e) => Err(e),
    }
}

/// The text of a floating-point field in `b`, if it is one.
fn float_field(b: &[u8], span: (usize, usize)) -> (r: Option<String>)
    requires
        span.0 <= span.1 <= b@.len(),
    ensures
        r is Some <==> is_float_text(b@.subrange(span.0 as int, span.1 as int)),
        r matches Some(x) ==> x@ == ascii_chars(b@.subrange(span.0 as int, span.1 as int)),
{
    if !float_text(b, span.0, span.1) {
        return None;
    }
    let tok = slice_subrange(b, span.0, span.1);
    proof {
        lemma_float_text_chars(tok@);
    }
    Some(ascii_string(tok))
}

proof fn lemma_accumulate(x: u64, v: i64, s: int)
    requires
        x as int == s % 0x1_0000_0000_0000_0000,
    ensures
        x.wrapping_add_signed(v) as int == (s + v) % 0x1_0000_0000_0000_0000,
{
    let m: int = 0x1_0000_0000_0000_0000;
    lemma_add_mod_noop_right(v as int, s, m);
    let w = x + v;
    assert((v + s) % m == (w) % m);
    if w > u64::MAX {
        lemma_mod_add_multiples_vanish(w - m, m);
        lemma_small_mod((w - m) as nat, m as nat);
    } else if w < 0 {
        lemma_mod_add_multiples_vanish(w, m);
        lemma_small_mod((w + m) as nat, m as nat);
    } else {
        lemma_small_mod(w as nat, m as nat);
    }
}

impl Frame {
    pub fn timestamp(&self) -> (r: Option<i64>)
        ensures
            r == self@.timestamp,
    {
        self.timestamp
    }

    pub fn flags(&self) -> (r: DataPointFlags)
        ensures
            r == self@.flags,
    {
        self.flags
    }

    pub fn metadata(&self) -> (r: DataPointFlags)
        ensures
            r == self@.flags,
    {
        self.flags
    }

    pub fn has_gps_fix(&self) -> (r: bool)
        ensures
            r == self@.flags.has_gps_fix,
    {
        self.flags.has_gps_fix
    }

    pub fn is_clipping(&self) -> (r: bool)
        ensures
            r == self@.flags.is_clipping,
    {
        self.flags.is_clipping
    }

    /// The sample rate as it was sent.
    pub fn sample_rate(&self) -> (r: &str)
        ensures
            r@ == self@.sample_rate,
    {
        self.sample_rate.as_str()
    }

    pub fn latitude(&self) -> (r: &str)
        ensures
            r@ == self@.latitude,
    {
        self.latitude.as_str()
    }

    pub fn longitude(&self) -> (r: &str)
        ensures
            r@ == self@.longitude,
    {
        self.longitude.as_str()
    }

    pub fn elevation(&self) -> (r: &str)
        ensures
            r@ == self@.elevation,
    {
        self.elevation.as_str()
    }

    pub fn speed(&self) -> (r: &str)
        ensures
            r@ == self@.speed,
    {
        self.speed.as_str()
    }

    pub fn angle(&self) -> (r: &str)
        ensures
            r@ == self@.angle,
    {
        self.angle.as_str()
    }

    pub fn satellites(&self) -> (r: u16)
        ensures
            r == self@.satellites,
    {
        self.satellites
    }

    pub fn satellite_count(&self) -> (r: u16)
        ensures
            r == self@.satellites,
    {
        self.satellites
    }

    /// The raw samples, before normalization.
    pub fn samples(&self) -> (r: &[i64])
        ensures
            r@ == self@.samples,
    {
        self.samples.as_slice()
    }

    /// Decodes one protocol line. A leading data marker is skipped; the
    /// tokens are the timestamp, flags, sample rate, latitude, longitude,
    /// elevation, satellite count, speed, angle, sample count, that many
    /// samples, and the checksum. A timestamp that does not read as an
    /// integer is left out rather than refused.
    pub fn parse(line: &str) -> (r: Result<Frame, ProtocolError>)
        ensures
            result_view(r) == decode_frame(line.spec_bytes()),
    {
        let raw = line.as_bytes();
        let b = if raw.len() > 0 && raw[0] == DATA_MARKER {
            slice_subrange(raw, 1, raw.len())
        } else {
            raw
        };
        assert(b@ =~= frame_body(raw@));
        let spans = split_fields(b);
        let ghost t = split_seq(b@, FIELD_SEPARATOR);
        proof {
            lemma_split_nonempty(b@, FIELD_SEPARATOR);
        }
        assert(forall|k: int| 0 <= k < t.len() ==> t[k] == b@.subrange(#[trigger] spans@[k].0 as int, spans@[k].1 as int));
        let timestamp = parse_int(b, spans[0].0, spans[0].1, I64_LO, I64_HI);
        if spans.len() <= 1 {
            return Err(ProtocolError::MissingField(Field::Flags));
        }
        let flags = DataPointFlags::from_bytes(b, spans[1].0, spans[1].1);
        if spans.len() <= 2 {
            return Err(ProtocolError::MissingField(Field::SampleRate));
        }
        let sample_rate = match float_field(b, spans[2]) {
            Some(x) => x,
            None => return Err(ProtocolError::FieldParseError(Field::SampleRate)),
        };
        if spans.len() <= 3 {
            return Err(ProtocolError::MissingField(Field::Latitude));
        }
        let latitude = match float_field(b, spans[3]) {
            Some(x) => x,
            None => return Err(ProtocolError::FieldParseError(Field::Latitude)),
        };
        if spans.len() <= 4 {
            return Err(ProtocolError::MissingField(Field::Longitude));
        }
        let longitude = match float_field(b, spans[4]) {
            Some(x) => x,
            None => return Err(ProtocolError::FieldParseError(Field::Longitude)),
        };
        if spans.len() <= 5 {
            return Err(ProtocolError::MissingField(Field::Elevation));
        }
        let elevation = match float_field(b, spans[5]) {
            Some(x) => x,
            None => return Err(ProtocolError::FieldParseError(Field::Elevation)),
        };
        if spans.len() <= 6 {
            return Err(ProtocolError::MissingField(Field::Satellites));
        }
        let satellites = match parse_int(b, spans[6].0, spans[6].1, 0, U16_HI) {
            Some(x) => x as u16,
            None => return Err(ProtocolError::FieldParseError(Field::Satellites)),
        };
        if spans.len() <= 7 {
            return Err(ProtocolError::MissingField(Field::Speed));
        }
        let speed = match float_field(b, spans[7]) {
            Some(x) => x,
            None => return Err(ProtocolError::FieldParseError(Field::Speed)),
        };
        if spans.len() <= 8 {
            return Err(ProtocolError::MissingField(Field::Angle));
        }
        let angle = match float_field(b, spans[8]) {
            Some(x) => x,
            None => return Err(ProtocolError::FieldParseError(Field::Angle)),
        };
        if spans.len() <= 9 {
            return Err(ProtocolError::MissingField(Field::SampleCount));
        }
        let n: usize = match parse_int(b, spans[9].0, spans[9].1, 0, U16_HI) {
            Some(x) => x as usize,
            None => return Err(ProtocolError::FieldParseError(Field::SampleCount)),
        };
        assert(header_fault(t) is None);
        assert(n == sample_count_of(t));
        if spans.len() <= FIRST_SAMPLE + n {
            return Err(ProtocolError::SampleCountMismatch);
        }
        let mut samples: Vec<i64> = Vec::new();
        let mut sum: u64 = 0;
        let mut i: usize = 0;
        while i < n
            invariant
                i <= n,
                n == sample_count_of(t),
                FIRST_SAMPLE + n < spans@.len(),
                t == split_seq(b@, FIELD_SEPARATOR),
                b@ == frame_body(line.spec_bytes()),
                header_fault(t) is None,
                t.len() == spans@.len(),
                forall|k: int| 0 <= k < spans@.len() ==> (#[trigger] spans@[k]).0 <= spans@[k].1 && spans@[k].1 <= b@.len(),
                forall|k: int| 0 <= k < t.len() ==> t[k] == b@.subrange(#[trigger] spans@[k].0 as int, spans@[k].1 as int),
                samples@ =~= samples_of(t, i as int),
                forall|j: int| 0 <= j < i ==> token_ok(Field::Sample, #[trigger] t[FIRST_SAMPLE + j]),
                sum as int == checksum_of(samples@),
            decreases n - i,
        {
            assert(FIRST_SAMPLE + i < spans@.len());
            let span = spans[FIRST_SAMPLE + i];
            let v = match parse_int(b, span.0, span.1, I64_LO, I64_HI) {
                Some(x) => x,
                None => {
                    assert(!token_ok(Field::Sample, t[FIRST_SAMPLE + i]));
                    return Err(ProtocolError::FieldParseError(Field::Sample));
                },
            };
            proof {
                lemma_accumulate(sum, v, sample_sum(samples@));
                assert(samples@.push(v).drop_last() =~= samples@);
            }
            samples.push(v);
            sum = sum.wrapping_add_signed(v);
            i = i + 1;
        }
        assert(samples@ =~= samples_of(t, n as int));
        let span = spans[FIRST_SAMPLE + n];
        let checksum = match atoi_u64(slice_subrange(b, span.0, span.1)) {
            Some(x) => x,
            None => return Err(ProtocolError::FieldParseError(Field::Checksum)),
        };
        if checksum != sum {
            return Err(ProtocolError::ChecksumMismatch);
        }
        let frame = Frame {
            timestamp,
            flags,
            sample_rate,
            latitude,
            longitude,
            elevation,
            satellites,
            speed,
            angle,
            samples,
        };
        assert(frame@ == frame_of_tokens(t));
        Ok(frame)
    }
}

/// The tokens of a data line: the timestamp, the flags token, the sample
/// rate, latitude, longitude and elevation (`floats[0..4]`), the satellite
/// count, speed and angle (`floats[4..6]`), the sample count, the samples
/// and the checksum.
pub open spec fn frame_tokens(
    timestamp: i64,
    flags: Seq<u8>,
    floats: Seq<Seq<u8>>,
    satellites: u16,
    samples: Seq<i64>,
    checksum: u64,
) -> Seq<Seq<u8>> {
    seq![
        int_text(timestamp as int),
        flags,
        floats[0],
        floats[1],
        floats[2],
        floats[3],
        int_text(satellites as int),
        floats[4],
        floats[5],
        int_text(samples.len() as int),
    ] + Seq::new(samples.len(), |i: int| int_text(samples[i] as int)) + seq![digits_of(checksum as nat)]
}

/// The data line that carries these tokens.
pub open spec fn frame_line(tokens: Seq<Seq<u8>>) -> Seq<u8> {
    seq![DATA_MARKER] + join_seq(tokens, FIELD_SEPARATOR)
}

proof fn lemma_header_tokens_free(
    timestamp: i64,
    flags: Seq<u8>,
    floats: Seq<Seq<u8>>,
    satellites: u16,
    count: int,
)
    requires
        free_of(flags, FIELD_SEPARATOR),
        floats.len() == 6,
        forall|i: int| 0 <= i < 6 ==> is_float_text(#[trigger] floats[i]),
    ensures
        free_of(int_text(timestamp as int), FIELD_SEPARATOR),
        free_of(int_text(satellites as int), FIELD_SEPARATOR),
        free_of(int_text(count), FIELD_SEPARATOR),
        forall|i: int| 0 <= i < 6 ==> free_of(#[trigger] floats[i], FIELD_SEPARATOR),
{
    lemma_int_text_chars(timestamp as int);
    lemma_int_text_chars(satellites as int);
    lemma_int_text_chars(count);
    assert forall|i: int| 0 <= i < 6 implies free_of(#[trigger] floats[i], FIELD_SEPARATOR) by {
        lemma_float_text_chars(floats[i]);
    }
}

/// A well-formed data line decodes to exactly the values it was written
/// from when its checksum is the sum of its samples, and fails with a
/// checksum mismatch, producing no frame, when it is not.
pub proof fn lemma_frame_round_trip(
    timestamp: i64,
    flags: Seq<u8>,
    floats: Seq<Seq<u8>>,
    satellites: u16,
    samples: Seq<i64>,
    checksum: u64,
)
    requires
        free_of(flags, FIELD_SEPARATOR),
        floats.len() == 6,
        forall|i: int| 0 <= i < 6 ==> is_float_text(#[trigger] floats[i]),
        samples.len() <= U16_HI,
    ensures
        checksum == checksum_of(samples) ==> decode_frame(
            frame_line(frame_tokens(timestamp, flags, floats, satellites, samples, checksum)),
        ) == Ok::<FrameView, ProtocolError>(
            FrameView {
                timestamp: Some(timestamp),
                flags: flags_of(flags),
                sample_rate: ascii_chars(floats[0]),
                latitude: ascii_chars(floats[1]),
                longitude: ascii_chars(floats[2]),
                elevation: ascii_chars(floats[3]),
                satellites,
                speed: ascii_chars(floats[4]),
                angle: ascii_chars(floats[5]),
                samples,
            },
        ),
        checksum != checksum_of(samples) ==> decode_frame(
            frame_line(frame_tokens(timestamp, flags, floats, satellites, samples, checksum)),
        ) == Err::<FrameView, ProtocolError>(ProtocolError::ChecksumMismatch),
{
    let t = frame_tokens(timestamp, flags, floats, satellites, samples, checksum);
    let n = samples.len() as int;
    lemma_header_tokens_free(timestamp, flags, floats, satellites, n);
    lemma_digits_of(checksum as nat);
    assert forall|i: int| 0 <= i < t.len() implies free_of(#[trigger] t[i], FIELD_SEPARATOR) by {
        if FIRST_SAMPLE <= i < FIRST_SAMPLE + n {
            lemma_int_text_chars(samples[i - FIRST_SAMPLE] as int);
        } else if i == 2 || i == 3 || i == 4 || i == 5 {
            assert(t[i] == floats[i - 2]);
        } else if i == 7 || i == 8 {
            assert(t[i] == floats[i - 3]);
        }
    }
    lemma_split_join(t, FIELD_SEPARATOR);
    assert(frame_body(frame_line(t)) =~= join_seq(t, FIELD_SEPARATOR));
    lemma_int_text_round_trip(timestamp as int, I64_LO as int, I64_HI as int);
    lemma_int_text_round_trip(satellites as int, 0, U16_HI as int);
    lemma_int_text_round_trip(n, 0, U16_HI as int);
    lemma_atoi_round_trip(checksum);
    assert forall|i: int| 0 <= i < n implies token_ok(Field::Sample, #[trigger] t[FIRST_SAMPLE + i])
        && int_text_value(t[FIRST_SAMPLE + i], I64_LO as int, I64_HI as int) == Some(
        samples[i] as int,
    ) by {
        lemma_int_text_round_trip(samples[i] as int, I64_LO as int, I64_HI as int);
    }
    assert(t[2] == floats[0] && t[3] == floats[1] && t[4] == floats[2] && t[5] == floats[3]);
    assert(t[7] == floats[4] && t[8] == floats[5]);
    assert(sample_count_of(t) == n);
    assert(samples_of(t, n) =~= samples);
    assert(header_fault(t) is None);
}

/// A line whose fixed fields are valid but which has no more tokens after
/// the sample count than the count it declares (so that the samples do not
/// all come before a checksum) is refused for its sample count.
pub proof fn lemma_short_sample_block(header: Seq<Seq<u8>>, rest: Seq<Seq<u8>>)
    requires
        header.len() == FIRST_SAMPLE,
        header_fault(header) is None,
        rest.len() <= sample_count_of(header),
        forall|i: int| 0 <= i < header.len() ==> free_of(#[trigger] header[i], FIELD_SEPARATOR),
        forall|i: int| 0 <= i < rest.len() ==> free_of(#[trigger] rest[i], FIELD_SEPARATOR),
    ensures
        decode_frame(frame_line(header + rest)) == Err::<FrameView, ProtocolError>(
            ProtocolError::SampleCountMismatch,
        ),
{
    let t = header + rest;
    assert forall|i: int| 0 <= i < t.len() implies free_of(#[trigger] t[i], FIELD_SEPARATOR) by {
        if i < header.len() {
            assert(t[i] == header[i]);
        } else {
            assert(t[i] == rest[i - header.len()]);
        }
    }
    lemma_split_join(t, FIELD_SEPARATOR);
    assert(frame_body(frame_line(t)) =~= join_seq(t, FIELD_SEPARATOR));
    assert forall|k: int| 0 <= k < header.len() implies #[trigger] t[k] == header[k] by {}
    assert(header_fault(t) == header_fault(header));
    assert(sample_count_of(t) == sample_count_of(header));
}

} // verus!

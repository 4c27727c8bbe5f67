//! The capture file: its name, its header, and the lines written to it.
//! The bytes themselves are written by the caller, which takes them from
//! `take_pending` and flushes after each batch.

use vstd::prelude::*;
use vstd::string::*;

use crate::metadata::{lookup, preamble, uuid_string, uuid_text, with_entry, CaptureFileMetadata, MetadataView};

verus! {

/// The schema version written into every capture file.
pub const SCHEMA_VERSION: &'static str = "3";

pub const CREATED_KEY: &'static str = "CREATED";

pub const VERSION_KEY: &'static str = "VERSION";

pub const NODE_ID_KEY: &'static str = "NODE_ID";

/// The node id used where the metadata names none.
pub const UNKNOWN_NODE: &'static str = "UNKNOWN";

/// The marker that opens a comment line.
pub const COMMENT_PREFIX: &'static str = "# ";

/// The UTC time `secs` seconds after the epoch, as `%Y%m%d_%H%M%S`.
pub uninterp spec fn utc_compact(secs: int) -> Seq<char>;

/// The UTC time `secs` seconds and `nanos` nanoseconds after the epoch, in
/// RFC 3339 form.
pub uninterp spec fn utc_rfc3339(secs: int, nanos: int) -> Seq<char>;

/// The last second of the year 9999, well inside chrono's range.
pub const LAST_STAMPED_SECOND: i64 = 253_402_300_799;

/// Relies on chrono's `DateTime::from_timestamp` and `format`: the UTC time
/// as `%Y%m%d_%H%M%S`, or `None` where chrono cannot represent it, which
/// does not happen from the epoch to the end of the year 9999.
#[verifier::external_body]
fn compact_stamp(secs: i64) -> (r: Option<String>)
    ensures
        r matches Some(s) ==> s@ == utc_compact(secs as int),
        0 <= secs <= LAST_STAMPED_SECOND ==> r is Some,
{
    match chrono::DateTime::from_timestamp(secs, 0) {
        Some(t) => Some(t.format("%Y%m%d_%H%M%S").to_string()),
        None => None,
    }
}

/// Relies on chrono's `DateTime::from_timestamp` and `to_rfc3339`: the UTC
/// time in RFC 3339 form, or `None` where chrono cannot represent it, which
/// does not happen from the epoch to the end of the year 9999 with a
/// nanosecond part under one second.
#[verifier::external_body]
fn rfc3339_stamp(secs: i64, nanos: u32) -> (r: Option<String>)
    ensures
        r matches Some(s) ==> s@ == utc_rfc3339(secs as int, nanos as int),
        0 <= secs <= LAST_STAMPED_SECOND && nanos < 1_000_000_000 ==> r is Some,
{
    match chrono::DateTime::from_timestamp(secs, nanos) {
        Some(t) => Some(t.to_rfc3339()),
        None => None,
    }
}

/// Why a capture file could not be set up.
#[derive(Debug, Clone, Copy, PartialEq, Eq, Structural)]
pub enum CaptureError {
    /// The creation time is outside the calendar's range.
    TimeOutOfRange,
}

/// The node id that the extras name.
pub open spec fn node_of(extras: Seq<(Seq<char>, Seq<char>)>) -> Seq<char> {
    match lookup(extras, NODE_ID_KEY@) {
        Some(v) => v,
        None => UNKNOWN_NODE@,
    }
}

/// The metadata after stamping it with its creation time and version.
pub open spec fn stamped(m: MetadataView, created: Seq<char>) -> MetadataView {
    MetadataView {
        extras: with_entry(with_entry(m.extras, CREATED_KEY@, created), VERSION_KEY@, SCHEMA_VERSION@),
        ..m
    }
}

/// `{node}_{time}_{first 8 characters of the capture id}.csv`
pub open spec fn capture_filename(node: Seq<char>, stamp: Seq<char>, id: u128) -> Seq<char> {
    node + "_"@ + stamp + "_"@ + uuid_text(id).subrange(0, 8) + ".csv"@
}

/// `name` inside directory `dir`.
pub open spec fn joined_path(dir: Seq<char>, name: Seq<char>) -> Seq<char> {
    if dir.len() == 0 || dir.last() == '/' {
        dir + name
    } else {
        dir + "/"@ + name
    }
}

/// A capture file as values.
pub struct CaptureFileView {
    pub dir: Seq<char>,
    pub filename: Seq<char>,
    pub created: i64,
    pub metadata: MetadataView,
    pub lines_written: nat,
    /// Everything written to the file so far, in order.
    pub content: Seq<char>,
    /// What was written and not yet taken by the caller.
    pub pending: Seq<Seq<char>>,
}

/// One append-only capture file.
pub struct CaptureFile {
    dir: String,
    filename: String,
    created: i64,
    metadata: CaptureFileMetadata,
    lines_written: usize,
    pending: Vec<String>,
    content: Ghost<Seq<char>>,
}

impl View for CaptureFile {
    type V = CaptureFileView;

    closed spec fn view(&self) -> CaptureFileView {
        CaptureFileView {
            dir: self.dir@,
            filename: self.filename@,
            created: self.created,
            metadata: self.metadata@,
            lines_written: self.lines_written as nat,
            content: self.content@,
            pending: self.pending@.map_values(|s: String| s@),
        }
    }
}

impl CaptureFile {
    /// Sets up the capture file that starts at `created_secs` (and
    /// `created_nanos`) after the epoch in `dir`. The metadata is stamped in
    /// place with the creation time and the schema version, and the file
    /// keeps a copy of it. Succeeds for every time from the epoch to the end
    /// of the year 9999; outside that, it may fail where the time cannot be
    /// written as a calendar date.
    pub fn new(dir: &str, metadata: &mut CaptureFileMetadata, created_secs: i64, created_nanos: u32) -> (r:
        Result<CaptureFile, CaptureError>)
        requires
            old(metadata).wf(),
        ensures
            final(metadata).wf(),
            0 <= created_secs <= LAST_STAMPED_SECOND && created_nanos < 1_000_000_000 ==> r is Ok,
            r is Ok ==> final(metadata)@ == stamped(old(metadata)@, utc_rfc3339(created_secs as int, created_nanos as int)),
            r is Err ==> final(metadata)@ == old(metadata)@,
            r matches Ok(f) ==> f@ == (CaptureFileView {
                dir: dir@,
                filename: capture_filename(node_of(final(metadata)@.extras), utc_compact(created_secs as int), old(metadata)@.capture_id),
                created: created_secs,
                metadata: final(metadata)@,
                lines_written: 0,
                content: Seq::empty(),
                pending: Seq::empty(),
            }),
    {
        let created = match rfc3339_stamp(created_secs, created_nanos) {
            Some(s) => s,
            None => return Err(CaptureError::TimeOutOfRange),
        };
        let stamp = match compact_stamp(created_secs) {
            Some(s) => s,
            None => return Err(CaptureError::TimeOutOfRange),
        };
        metadata.set(CREATED_KEY, created.as_str());
        metadata.set(VERSION_KEY, SCHEMA_VERSION);
        let node = match metadata.get(NODE_ID_KEY) {
            Some(v) => String::from_str(v),
            None => String::from_str(UNKNOWN_NODE),
        };
        let id = uuid_string(metadata.capture_id());
        proof {
            reveal_strlit("_");
            reveal_strlit(".csv");
        }
        let prefix = id.as_str().substring_char(0, 8);
        let filename = node.concat("_").concat(stamp.as_str()).concat("_").concat(prefix).concat(".csv");
        let f = CaptureFile {
            dir: String::from_str(dir),
            filename,
            created: created_secs,
            metadata: metadata.snapshot(),
            lines_written: 0,
            pending: Vec::new(),
            content: Ghost(Seq::empty()),
        };
        assert(f@.pending =~= Seq::<Seq<char>>::empty());
        Ok(f)
    }

    /// Writes the metadata preamble.
    pub fn init(&mut self)
        ensures
            final(self)@ == (CaptureFileView {
                content: old(self)@.content + preamble(old(self)@.metadata),
                pending: old(self)@.pending.push(preamble(old(self)@.metadata)),
                ..old(self)@
            }),
    {
        let text = self.metadata.to_string();
        self.emit(text);
    }

    fn emit(&mut self, text: String)
        ensures
            final(self)@ == (CaptureFileView {
                content: old(self)@.content + text@,
                pending: old(self)@.pending.push(text@),
                ..old(self)@
            }),
    {
        self.content = Ghost(self.content@ + text@);
        self.pending.push(text);
        assert(self@.pending =~= old(self)@.pending.push(text@));
    }

    /// Appends `text` as it is (the caller ends it with a newline) and counts
    /// one more line.
    pub fn write_line(&mut self, text: &str)
        requires
            old(self)@.lines_written < usize::MAX,
        ensures
            final(self)@ == (CaptureFileView {
                content: old(self)@.content + text@,
                pending: old(self)@.pending.push(text@),
                lines_written: old(self)@.lines_written + 1,
                ..old(self)@
            }),
    {
        self.emit(String::from_str(text));
        self.lines_written = self.lines_written + 1;
    }

    /// Writes `text` as a comment line, which readers of the data skip.
    pub fn comment(&mut self, text: &str)
        requires
            old(self)@.lines_written < usize::MAX,
        ensures
            final(self)@ == (CaptureFileView {
                content: old(self)@.content + comment_line(text@),
                pending: old(self)@.pending.push(comment_line(text@)),
                lines_written: old(self)@.lines_written + 1,
                ..old(self)@
            }),
    {
        let line = String::from_str(COMMENT_PREFIX).concat(text).concat("\n");
        proof {
            reveal_strlit("\n");
        }
        self.emit(line);
        self.lines_written = self.lines_written + 1;
    }

    /// Hands over what was written since the last call, in order.
    pub fn take_pending(&mut self) -> (r: Vec<String>)
        ensures
            r@.map_values(|s: String| s@) == old(self)@.pending,
            final(self)@ == (CaptureFileView { pending: Seq::empty(), ..old(self)@ }),
    {
        let mut r: Vec<String> = Vec::new();
        r.append(&mut self.pending);
        assert(r@ =~= old(self).pending@);
        assert(self@.pending =~= Seq::<Seq<char>>::empty());
        r
    }

    pub fn lines_written(&self) -> (r: usize)
        ensures
            r == self@.lines_written,
    {
        self.lines_written
    }

    pub fn filename(&self) -> (r: String)
        ensures
            r@ == self@.filename,
    {
        self.filename.clone()
    }

    /// Seconds after the epoch at which the file was started.
    pub fn created(&self) -> (r: i64)
        ensures
            r == self@.created,
    {
        self.created
    }

    pub fn metadata(&self) -> (r: &CaptureFileMetadata)
        ensures
            r@ == self@.metadata,
    {
        &self.metadata
    }

    /// The path of the file: its name inside its directory.
    pub fn file_path(&self) -> (r: String)
        ensures
            r@ == joined_path(self@.dir, self@.filename),
    {
        let n = self.dir.as_str().unicode_len();
        proof {
            reveal_strlit("/");
        }
        if n == 0 || self.dir.as_str().get_char(n - 1) == '/' {
            self.dir.clone().concat(self.filename.as_str())
        } else {
            self.dir.clone().concat("/").concat(self.filename.as_str())
        }
    }
}

/// A comment line for `text`.
pub open spec fn comment_line(text: Seq<char>) -> Seq<char> {
    COMMENT_PREFIX@ + text + "\n"@
}

} // verus!

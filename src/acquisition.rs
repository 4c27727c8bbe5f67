//! The decisions of the acquisition loop: when to rotate the capture file,
//! what to do with each line read from the device, and which read errors
//! end the loop.

use vstd::prelude::*;
use vstd::string::*;

use crate::capture::{comment_line, joined_path, node_of, CaptureFile, CaptureFileView};
use crate::frame::{decode_frame, error_text, Frame, ProtocolError};
use crate::metadata::unique_keys;
use crate::status::LedColor;
use crate::storage::{OffloadQueue, UploadArgs};

verus! {

/// How to reach the device.
pub struct AcquisitionServiceSettings {
    pub port: String,
    pub baud_rate: u32,
}

/// The acquisition service's own state: the device it reads.
pub struct AcquisitionServiceInner {
    settings: AcquisitionServiceSettings,
}

impl AcquisitionServiceInner {
    pub fn new(settings: AcquisitionServiceSettings) -> (r: AcquisitionServiceInner)
        ensures
            r.settings() == settings,
    {
        AcquisitionServiceInner { settings }
    }

    pub closed spec fn settings(&self) -> AcquisitionServiceSettings {
        self.settings
    }

    pub fn port(&self) -> (r: &str)
        ensures
            r@ == self.settings().port@,
    {
        self.settings.port.as_str()
    }

    pub fn baud_rate(&self) -> (r: u32)
        ensures
            r == self.settings().baud_rate,
    {
        self.settings.baud_rate
    }

    /// Nothing of the service outlives the loop, so stopping cannot fail.
    pub fn shutdown(&self) -> (r: Result<(), ()>)
        ensures
            r is Ok,
    {
        Ok(())
    }
}

/// The start of the interval of length `interval` that holds `now`.
pub open spec fn interval_start(now: int, interval: int) -> int {
    now - now % interval
}

/// When to replace the capture file: once a given number of lines was
/// written, or once wall-clock time reaches the next boundary of a fixed
/// interval aligned to absolute time, provided a full interval has passed
/// since the previous rotation. The last rotation is remembered both as the
/// boundary it belongs to and as the time it happened, so a rotation never
/// happens twice in one interval however often the clock is polled, nor
/// twice within one interval after a late rotation. Opening the first file
/// is no rotation: the first boundary after it rotates.
pub struct RotationSchedule {
    interval_secs: u64,
    max_lines: usize,
    last_boundary: u64,
    last_rotation: Option<u64>,
}

impl RotationSchedule {
    pub closed spec fn interval(&self) -> nat {
        self.interval_secs as nat
    }

    pub closed spec fn max_lines(&self) -> nat {
        self.max_lines as nat
    }

    /// The interval boundary of the last rotation.
    pub closed spec fn last_boundary(&self) -> int {
        self.last_boundary as int
    }

    /// When the last rotation happened, if there was one.
    pub closed spec fn last_rotation(&self) -> Option<u64> {
        self.last_rotation
    }

    /// Whether the schedule calls for a rotation at `now` with
    /// `lines_written` lines in the current file. An interval of zero turns
    /// the clock rule off; a line limit of zero turns the count rule off.
    pub open spec fn due_at(&self, now: int, lines_written: int) -> bool {
        (self.max_lines() > 0 && lines_written >= self.max_lines()) || (self.interval() > 0 && now
            >= self.last_boundary() + self.interval() && match self.last_rotation() {
            Some(t) => now >= t + self.interval(),
            None => true,
        })
    }

    /// A schedule whose current file was started at `now`.
    pub fn new(interval_secs: u64, max_lines: usize, now: u64) -> (r: RotationSchedule)
        ensures
            r.interval() == interval_secs,
            r.max_lines() == max_lines,
            interval_secs > 0 ==> r.last_boundary() == interval_start(now as int, interval_secs as int),
            interval_secs == 0 ==> r.last_boundary() == now,
            r.last_rotation() is None,
    {
        let last_boundary = if interval_secs > 0 {
            let rem = now % interval_secs;
            assert(rem <= now) by (nonlinear_arith)
                requires
                    rem == now % interval_secs,
                    interval_secs > 0,
            ;
            now - rem
        } else {
            now
        };
        RotationSchedule { interval_secs, max_lines, last_boundary, last_rotation: None }
    }

    pub fn is_due(&self, now: u64, lines_written: usize) -> (r: bool)
        ensures
            r == self.due_at(now as int, lines_written as int),
    {
        let guard_passed = match self.last_rotation {
            Some(t) => now >= t && now - t >= self.interval_secs,
            None => true,
        };
        (self.max_lines > 0 && lines_written >= self.max_lines) || (self.interval_secs > 0 && now
            >= self.last_boundary && now - self.last_boundary >= self.interval_secs && guard_passed)
    }

    /// Closes the books on `finished`, replaced at `now`: queues exactly one
    /// upload of it, to `{node id}/{file name}` in `bucket`, and remembers
    /// the rotation.
    pub fn rotate(
        &mut self,
        now: u64,
        finished: &CaptureFile,
        bucket: &str,
        queue: &mut OffloadQueue,
    )
        requires
            unique_keys(finished@.metadata.extras),
        ensures
            final(self).interval() == old(self).interval(),
            final(self).max_lines() == old(self).max_lines(),
            old(self).interval() > 0 ==> final(self).last_boundary() == interval_start(
                now as int,
                old(self).interval() as int,
            ),
            old(self).interval() == 0 ==> final(self).last_boundary() == now,
            final(self).last_rotation() == Some(now),
            final(queue)@.len() == old(queue)@.len() + 1,
            final(queue)@.subrange(0, old(queue)@.len() as int) == old(queue)@,
            upload_of(final(queue)@.last(), finished@, bucket@),
    {
        let task = upload_task(finished, bucket);
        queue.queue_upload(task);
        assert(final(queue)@.subrange(0, old(queue)@.len() as int) =~= old(queue)@);
        if self.interval_secs > 0 {
            let rem = now % self.interval_secs;
            let interval = self.interval_secs;
            assert(rem <= now) by (nonlinear_arith)
                requires
                    rem == now % interval,
                    interval > 0,
            ;
            self.last_boundary = now - rem;
        } else {
            self.last_boundary = now;
        }
        self.last_rotation = Some(now);
    }
}

/// Whether `task` uploads capture file `f` to `bucket`, under the node's
/// directory.
pub open spec fn upload_of(task: UploadArgs, f: CaptureFileView, bucket: Seq<char>) -> bool {
    &&& task.bucket_name@ == bucket
    &&& task.file_path@ == joined_path(f.dir, f.filename)
    &&& task.object_path@ == node_of(f.metadata.extras) + "/"@ + f.filename
}

/// The upload of capture file `f` to `bucket`.
pub fn upload_task(f: &CaptureFile, bucket: &str) -> (r: UploadArgs)
    requires
        unique_keys(f@.metadata.extras),
    ensures
        upload_of(r, f@, bucket@),
{
    let node = match f.metadata().get(crate::capture::NODE_ID_KEY) {
        Some(v) => String::from_str(v),
        None => String::from_str(crate::capture::UNKNOWN_NODE),
    };
    proof {
        reveal_strlit("/");
    }
    let object = node.concat("/").concat(f.filename().as_str());
    UploadArgs::new(String::from_str(bucket), f.file_path(), object)
}

/// What a line read from the device is.
#[derive(Debug, Clone, Copy, PartialEq, Eq, Structural)]
pub enum LineKind {
    /// Starts with the comment marker.
    Comment,
    /// Starts with the data marker.
    Data,
    /// Anything else, which is dropped.
    Other,
}

pub open spec fn kind_of(line: Seq<char>) -> LineKind {
    if line.len() > 0 && line[0] == '#' {
        LineKind::Comment
    } else if line.len() > 0 && line[0] == '$' {
        LineKind::Data
    } else {
        LineKind::Other
    }
}

pub fn classify_line(line: &str) -> (r: LineKind)
    ensures
        r == kind_of(line@),
{
    if line.is_empty() {
        LineKind::Other
    } else {
        let c = line.get_char(0);
        if c == '#' {
            LineKind::Comment
        } else if c == '$' {
            LineKind::Data
        } else {
            LineKind::Other
        }
    }
}

/// The line without a final line break (`\n` or `\r\n`).
pub open spec fn without_line_end(s: Seq<char>) -> Seq<char> {
    let a = if s.len() > 0 && s.last() == '\n' {
        s.drop_last()
    } else {
        s
    };
    if a.len() > 0 && a.last() == '\r' {
        a.drop_last()
    } else {
        a
    }
}

fn trim_line_end(s: &str) -> (r: &str)
    ensures
        r@ == without_line_end(s@),
{
    let n = s.unicode_len();
    let a = if n > 0 && s.get_char(n - 1) == '\n' {
        s.substring_char(0, n - 1)
    } else {
        s
    };
    let m = a.unicode_len();
    if m > 0 && a.get_char(m - 1) == '\r' {
        a.substring_char(0, m - 1)
    } else {
        a
    }
}

/// The file after one more line `a`.
pub open spec fn with_line(v: CaptureFileView, a: Seq<char>) -> CaptureFileView {
    CaptureFileView {
        content: v.content + a,
        pending: v.pending.push(a),
        lines_written: v.lines_written + 1,
        ..v
    }
}

/// The comment that stands in for a missing device time.
pub open spec fn local_time_note(local_time: Seq<char>) -> Seq<char> {
    "local time "@ + local_time
}

/// What became of a line.
#[derive(Debug, Clone)]
pub enum LineReport {
    /// A comment from the device, kept as a comment.
    Comment,
    /// Neither comment nor data: dropped.
    Discarded,
    /// A data line that did not decode; it was kept verbatim, with the
    /// reason as a comment after it.
    Rejected(ProtocolError),
    /// A decoded frame; the line was kept without its marker.
    Accepted(Frame),
}

impl LineReport {
    /// The status colour for this outcome, if it changes the colour: blue
    /// for a comment, red for a rejected line, green for a frame with a GPS
    /// fix and magenta for one without.
    pub fn led_color(&self) -> (r: Option<LedColor>)
        ensures
            match self {
                LineReport::Comment => r == Some(LedColor::Blue),
                LineReport::Discarded => r is None,
                LineReport::Rejected(_) => r == Some(LedColor::Red),
                LineReport::Accepted(f) => r == Some(
                    if f@.flags.has_gps_fix {
                        LedColor::Green
                    } else {
                        LedColor::Magenta
                    },
                ),
            },
    {
        match self {
            LineReport::Comment => Some(LedColor::Blue),
            LineReport::Discarded => None,
            LineReport::Rejected(_) => Some(LedColor::Red),
            LineReport::Accepted(f) => if f.has_gps_fix() {
                Some(LedColor::Green)
            } else {
                Some(LedColor::Magenta)
            },
        }
    }
}

/// Handles one line read from the device, writing what it calls for to
/// `file`. A data line that fails to decode is kept verbatim with the
/// reason in a comment after it; one that decodes is kept without its
/// marker, followed by a comment with the local time `local_time` where
/// the frame carries no time of its own.
pub fn handle_line(file: &mut CaptureFile, line: &str, local_time: &str) -> (r: LineReport)
    requires
        old(file)@.lines_written + 2 <= usize::MAX,
    ensures
        kind_of(line@) == LineKind::Comment ==> r is Comment && final(file)@ == with_line(
            old(file)@,
            comment_line(without_line_end(line@).drop_first()),
        ),
        kind_of(line@) == LineKind::Other ==> r is Discarded && final(file)@ == old(file)@,
        kind_of(line@) == LineKind::Data ==> match decode_frame(line.spec_bytes()) {
            Err(e) => r == LineReport::Rejected(e) && final(file)@ == with_line(
                with_line(old(file)@, line@),
                comment_line(error_text(e)),
            ),
            Ok(v) => r matches LineReport::Accepted(f) && f@ == v && final(file)@ == if v.timestamp is None {
                with_line(
                    with_line(old(file)@, line@.drop_first()),
                    comment_line(local_time_note(local_time@)),
                )
            } else {
                with_line(old(file)@, line@.drop_first())
            },
        },
{
    match classify_line(line) {
        LineKind::Comment => {
            let text = trim_line_end(line);
            let body = text.substring_char(1, text.unicode_len());
            assert(body@ =~= without_line_end(line@).drop_first());
            file.comment(body);
            LineReport::Comment
        },
        LineKind::Other => LineReport::Discarded,
        LineKind::Data => {
            match Frame::parse(line) {
                Err(e) => {
                    file.write_line(line);
                    let msg = e.message();
                    file.comment(msg.as_str());
                    LineReport::Rejected(e)
                },
                Ok(frame) => {
                    let rest = line.substring_char(1, line.unicode_len());
                    assert(rest@ =~= line@.drop_first());
                    file.write_line(rest);
                    if frame.timestamp().is_none() {
                        let note = String::from_str("local time ").concat(local_time);
                        file.comment(note.as_str());
                    }
                    LineReport::Accepted(frame)
                },
            }
        },
    }
}

/// Why a read from the device produced no line.
#[derive(Debug, Clone, Copy, PartialEq, Eq, Structural)]
pub enum ReadError {
    /// Nothing came within the read timeout.
    Timeout,
    /// The read failed, for a reason that may pass.
    Io,
    /// The device is gone.
    BrokenPipe,
}

impl ReadError {
    /// Whether the loop must stop: only when the device is gone; other
    /// failures are retried on the next round.
    pub fn ends_loop(&self) -> (r: bool)
        ensures
            r == (*self == ReadError::BrokenPipe),
    {
        match self {
            ReadError::BrokenPipe => true,
            _ => false,
        }
    }
}

} // verus!

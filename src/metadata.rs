//! Capture metadata and the preamble that opens every capture file.

use vstd::arithmetic::power2::pow2;
use vstd::prelude::*;
use vstd::string::*;

use crate::numeric::{ascii_chars, decimal_string, digits_of};
use crate::text::{free_of, lemma_split_join, lemma_text_of_lines_push, split_seq, text_of_lines};
use crate::numeric::{is_digit, lemma_digits_of};

verus! {

/// The hexadecimal digit of value `d`, lower case.
pub open spec fn hex_digit(d: int) -> char {
    if d < 10 {
        ((48 + d) as u8) as char
    } else {
        ((87 + d) as u8) as char
    }
}

/// The `j`-th of the 32 hexadecimal digits of `id`, most significant first.
pub open spec fn nibble(id: u128, j: int) -> int {
    (id as int / pow2((4 * (31 - j)) as nat) as int) % 16
}

/// Which hexadecimal digit stands at character `i` of a hyphenated UUID.
pub open spec fn hex_index(i: int) -> int {
    let hyphens: int = if i > 23 {
        4
    } else if i > 18 {
        3
    } else if i > 13 {
        2
    } else if i > 8 {
        1
    } else {
        0
    };
    i - hyphens
}

/// The hyphenated text of a UUID: 32 lower-case hexadecimal digits in
/// groups of 8, 4, 4, 4 and 12.
pub open spec fn uuid_text(id: u128) -> Seq<char> {
    Seq::new(
        36,
        |i: int|
            if i == 8 || i == 13 || i == 18 || i == 23 {
                '-'
            } else {
                hex_digit(nibble(id, hex_index(i)))
            },
    )
}

/// Relies on `uuid::Uuid::from_u128` and the `Display` of `Uuid`: the
/// value's digits, most significant first, lower case and hyphenated.
#[verifier::external_body]
pub(crate) fn uuid_string(id: u128) -> (r: String)
    ensures
        r@ == uuid_text(id),
{
    uuid::Uuid::from_u128(id).to_string()
}

pub const BEGIN_MARKER: &'static str = "## BEGIN METADATA ##";

pub const END_MARKER: &'static str = "## END METADATA ##";

pub const CAPTURE_ID_KEY: &'static str = "CAPTURE_ID";

pub const SAMPLE_RATE_KEY: &'static str = "SAMPLE_RATE";

/// The line of the preamble for one entry.
pub open spec fn entry_line(key: Seq<char>, value: Seq<char>) -> Seq<char> {
    "# "@ + key + "\t\t"@ + value
}

pub open spec fn extra_lines(extras: Seq<(Seq<char>, Seq<char>)>) -> Seq<Seq<char>> {
    Seq::new(extras.len(), |i: int| entry_line(extras[i].0, extras[i].1))
}

/// Capture metadata as values.
pub struct MetadataView {
    pub capture_id: u128,
    pub sample_rate: u32,
    pub extras: Seq<(Seq<char>, Seq<char>)>,
}

/// The lines of the preamble: the begin marker, the two mandatory entries,
/// one entry per extra in the order they were first set, the end marker.
pub open spec fn preamble_lines(m: MetadataView) -> Seq<Seq<char>> {
    seq![
        BEGIN_MARKER@,
        entry_line(CAPTURE_ID_KEY@, uuid_text(m.capture_id)),
        entry_line(SAMPLE_RATE_KEY@, ascii_chars(digits_of(m.sample_rate as nat))),
    ] + extra_lines(m.extras) + seq![END_MARKER@]
}

/// The preamble text: its lines, each ended by a newline.
pub open spec fn preamble(m: MetadataView) -> Seq<char> {
    text_of_lines(preamble_lines(m), '\n')
}

pub open spec fn has_key(extras: Seq<(Seq<char>, Seq<char>)>, key: Seq<char>) -> bool {
    exists|i: int| 0 <= i < extras.len() && extras[i].0 == key
}

pub open spec fn key_position(extras: Seq<(Seq<char>, Seq<char>)>, key: Seq<char>) -> int {
    choose|i: int| 0 <= i < extras.len() && extras[i].0 == key
}

/// The value stored under `key`, if any.
pub open spec fn lookup(extras: Seq<(Seq<char>, Seq<char>)>, key: Seq<char>) -> Option<Seq<char>> {
    if has_key(extras, key) {
        Some(extras[key_position(extras, key)].1)
    } else {
        None
    }
}

/// The extras after setting `key` to `value`: an existing entry keeps its
/// place, a new one goes last.
pub open spec fn with_entry(
    extras: Seq<(Seq<char>, Seq<char>)>,
    key: Seq<char>,
    value: Seq<char>,
) -> Seq<(Seq<char>, Seq<char>)> {
    if has_key(extras, key) {
        extras.update(key_position(extras, key), (key, value))
    } else {
        extras.push((key, value))
    }
}

pub open spec fn unique_keys(extras: Seq<(Seq<char>, Seq<char>)>) -> bool {
    forall|i: int, j: int|
        0 <= i < extras.len() && 0 <= j < extras.len() && i != j ==> #[trigger] extras[i].0
            != #[trigger] extras[j].0
}

/// What a capture file says about itself: its capture id, the sample rate,
/// and extras set by the caller, one value per key.
#[derive(Debug, Clone)]
pub struct CaptureFileMetadata {
    capture_id: u128,
    sample_rate: u32,
    extras: Vec<(String, String)>,
}

impl View for CaptureFileMetadata {
    type V = MetadataView;

    closed spec fn view(&self) -> MetadataView {
        MetadataView {
            capture_id: self.capture_id,
            sample_rate: self.sample_rate,
            extras: self.extras@.map_values(|e: (String, String)| (e.0@, e.1@)),
        }
    }
}

impl CaptureFileMetadata {
    pub open spec fn wf(&self) -> bool {
        unique_keys(self@.extras)
    }

    pub fn new(capture_id: u128, sample_rate: u32) -> (r: CaptureFileMetadata)
        ensures
            r.wf(),
            r@.capture_id == capture_id,
            r@.sample_rate == sample_rate,
            r@.extras.len() == 0,
    {
        let r = CaptureFileMetadata { capture_id, sample_rate, extras: Vec::new() };
        assert(r@.extras =~= Seq::<(Seq<char>, Seq<char>)>::empty());
        r
    }

    /// Where `key` stands among the extras.
    fn find(&self, key: &String) -> (r: Option<usize>)
        ensures
            r is None ==> !has_key(self@.extras, key@),
            r matches Some(i) ==> i < self@.extras.len() && self@.extras[i as int].0 == key@,
    {
        let mut i: usize = 0;
        while i < self.extras.len()
            invariant
                i <= self.extras@.len(),
                forall|j: int| 0 <= j < i ==> self@.extras[j].0 != key@,
            decreases self.extras@.len() - i,
        {
            if self.extras[i].0 == *key {
                return Some(i);
            }
            i = i + 1;
        }
        None
    }

    /// Sets `key` to `value`, replacing an earlier value of the same key.
    pub fn set(&mut self, key: &str, value: &str)
        requires
            old(self).wf(),
        ensures
            final(self).wf(),
            final(self)@.capture_id == old(self)@.capture_id,
            final(self)@.sample_rate == old(self)@.sample_rate,
            final(self)@.extras == with_entry(old(self)@.extras, key@, value@),
    {
        let ghost before = self@.extras;
        let k = String::from_str(key);
        match self.find(&k) {
            Some(i) => {
                self.extras[i] = (k, String::from_str(value));
                proof {
                    let p = key_position(before, key@);
                    assert(before[p].0 == key@);
                    assert(p == i as int);
                    assert(self@.extras =~= with_entry(before, key@, value@));
                }
            },
            None => {
                self.extras.push((k, String::from_str(value)));
                assert(self@.extras =~= with_entry(before, key@, value@));
            },
        }
    }

    /// The value of `key`, if it was set.
    pub fn get(&self, key: &str) -> (r: Option<&str>)
        requires
            self.wf(),
        ensures
            match r {
                Some(v) => lookup(self@.extras, key@) == Some(v@),
                None => lookup(self@.extras, key@) is None,
            },
    {
        match self.find(&String::from_str(key)) {
            Some(i) => {
                assert(key_position(self@.extras, key@) == i as int);
                Some(self.extras[i].1.as_str())
            },
            None => None,
        }
    }

    /// A copy of this metadata.
    pub fn snapshot(&self) -> (r: CaptureFileMetadata)
        ensures
            r@ == self@,
    {
        let mut extras: Vec<(String, String)> = Vec::new();
        let mut i: usize = 0;
        while i < self.extras.len()
            invariant
                i <= self.extras@.len(),
                extras@.len() == i,
                forall|j: int| 0 <= j < i ==> #[trigger] extras@[j] == self.extras@[j],
            decreases self.extras@.len() - i,
        {
            extras.push((self.extras[i].0.clone(), self.extras[i].1.clone()));
            i = i + 1;
        }
        let r = CaptureFileMetadata { capture_id: self.capture_id, sample_rate: self.sample_rate, extras };
        assert(r@.extras =~= self@.extras);
        r
    }

    pub fn capture_id(&self) -> (r: u128)
        ensures
            r == self@.capture_id,
    {
        self.capture_id
    }

    pub fn sample_rate(&self) -> (r: u32)
        ensures
            r == self@.sample_rate,
    {
        self.sample_rate
    }

    /// The preamble text of a capture file with this metadata.
    pub fn to_string(&self) -> (r: String)
        ensures
            r@ == preamble(self@),
    {
        let ghost lines = preamble_lines(self@);
        let mut out = String::new();
        assert(text_of_lines(Seq::<Seq<char>>::empty(), '\n') =~= Seq::<char>::empty());
        push_line(&mut out, BEGIN_MARKER, Ghost(Seq::empty()));
        let id = uuid_string(self.capture_id);
        let cap = entry_string(CAPTURE_ID_KEY, id.as_str());
        assert(Seq::<Seq<char>>::empty().push(BEGIN_MARKER@) =~= lines.subrange(0, 1));
        push_line(&mut out, cap.as_str(), Ghost(lines.subrange(0, 1)));
        assert(lines.subrange(0, 1).push(cap@) =~= lines.subrange(0, 2));
        let rate = decimal_string(self.sample_rate as u64);
        let rl = entry_string(SAMPLE_RATE_KEY, rate.as_str());
        push_line(&mut out, rl.as_str(), Ghost(lines.subrange(0, 2)));
        assert(lines.subrange(0, 2).push(rl@) =~= lines.subrange(0, 3));
        let mut i: usize = 0;
        while i < self.extras.len()
            invariant
                i <= self.extras@.len(),
                lines == preamble_lines(self@),
                out@ == text_of_lines(lines.subrange(0, 3 + i), '\n'),
            decreases self.extras@.len() - i,
        {
            let line = entry_string(self.extras[i].0.as_str(), self.extras[i].1.as_str());
            push_line(&mut out, line.as_str(), Ghost(lines.subrange(0, 3 + i)));
            assert(lines.subrange(0, 3 + i).push(line@) =~= lines.subrange(0, 3 + i + 1));
            i = i + 1;
        }
        push_line(&mut out, END_MARKER, Ghost(lines.subrange(0, 3 + i)));
        assert(lines.subrange(0, 3 + i).push(END_MARKER@) =~= lines);
        out
    }
}

/// The entry line for `key` and `value`.
fn entry_string(key: &str, value: &str) -> (r: String)
    ensures
        r@ == entry_line(key@, value@),
{
    let r = String::from_str("# ").concat(key).concat("\t\t").concat(value);
    assert(r@ =~= entry_line(key@, value@));
    r
}

/// Read back line by line, the preamble of metadata whose extras hold no
/// line breaks starts with the begin marker, goes on with the capture id,
/// the sample rate and one line per extra, and ends with the end marker
/// (after which only the empty remainder follows the last line break).
pub proof fn lemma_preamble_read_back(m: MetadataView)
    requires
        forall|i: int|
            0 <= i < m.extras.len() ==> free_of(#[trigger] m.extras[i].0, '\n') && free_of(
                m.extras[i].1,
                '\n',
            ),
    ensures
        split_seq(preamble(m), '\n') == preamble_lines(m).push(Seq::empty()),
        preamble_lines(m).len() == m.extras.len() + 4,
        preamble_lines(m)[0] == BEGIN_MARKER@,
        preamble_lines(m)[1] == entry_line(CAPTURE_ID_KEY@, uuid_text(m.capture_id)),
        preamble_lines(m)[2] == entry_line(
            SAMPLE_RATE_KEY@,
            ascii_chars(digits_of(m.sample_rate as nat)),
        ),
        forall|i: int|
            0 <= i < m.extras.len() ==> #[trigger] preamble_lines(m)[3 + i] == entry_line(
                m.extras[i].0,
                m.extras[i].1,
            ),
        preamble_lines(m).last() == END_MARKER@,
{
    reveal_strlit("## BEGIN METADATA ##");
    reveal_strlit("## END METADATA ##");
    reveal_strlit("CAPTURE_ID");
    reveal_strlit("SAMPLE_RATE");
    reveal_strlit("# ");
    reveal_strlit("\t\t");
    let lines = preamble_lines(m);
    let all = lines.push(Seq::empty());
    assert forall|k: Seq<char>, v: Seq<char>| free_of(k, '\n') && free_of(v, '\n') implies free_of(
        #[trigger] entry_line(k, v),
        '\n',
    ) by {
        let e = entry_line(k, v);
        assert forall|i: int| 0 <= i < e.len() implies e[i] != '\n' by {
            if i >= 2 && i < 2 + k.len() {
                assert(e[i] == k[i - 2]);
            } else if i >= 4 + k.len() {
                assert(e[i] == v[i - 4 - k.len()]);
            }
        }
    }
    let id = uuid_text(m.capture_id);
    assert(free_of(id, '\n')) by {
        assert forall|i: int| 0 <= i < id.len() implies id[i] != '\n' by {
            if !(i == 8 || i == 13 || i == 18 || i == 23) {
                let d = nibble(m.capture_id, hex_index(i));
                assert(0 <= d < 16);
            }
        }
    }
    let digits = digits_of(m.sample_rate as nat);
    lemma_digits_of(m.sample_rate as nat);
    assert(free_of(ascii_chars(digits), '\n')) by {
        assert forall|i: int| 0 <= i < digits.len() implies ascii_chars(digits)[i] != '\n' by {
            assert(is_digit(digits[i]));
        }
    }
    assert(free_of(BEGIN_MARKER@, '\n'));
    assert(free_of(END_MARKER@, '\n'));
    assert forall|i: int| 0 <= i < all.len() implies free_of(#[trigger] all[i], '\n') by {
        if 3 <= i < 3 + m.extras.len() {
            assert(all[i] == entry_line(m.extras[i - 3].0, m.extras[i - 3].1));
        }
    }
    lemma_split_join(all, '\n');
}

/// Appends `line` and a newline to a text made of `lines`.
fn push_line(out: &mut String, line: &str, Ghost(lines): Ghost<Seq<Seq<char>>>)
    requires
        old(out)@ == text_of_lines(lines, '\n'),
    ensures
        final(out)@ == text_of_lines(lines.push(line@), '\n'),
{
    out.append(line);
    out.append("\n");
    proof {
        reveal_strlit("\n");
        lemma_text_of_lines_push(lines, line@, '\n');
        assert(final(out)@ =~= text_of_lines(lines.push(line@), '\n'));
    }
}

} // verus!

//! The presence flags carried by every frame.

use vstd::prelude::*;
use vstd::string::*;

verus! {

/// The flag letter for an acquired GPS fix.
pub const GPS_FIX_FLAG: u8 = 71;

/// The flag letter for input overload (clipping).
pub const CLIPPING_FLAG: u8 = 79;

/// Whether byte `c` occurs anywhere in `t`.
pub open spec fn has_byte(t: Seq<u8>, c: u8) -> bool {
    exists|i: int| 0 <= i < t.len() && t[i] == c
}

/// Flags of a frame, each set by the presence of its letter in the flags
/// token; other characters are ignored.
#[derive(Debug, Clone, Copy, PartialEq, Eq, Structural)]
pub struct DataPointFlags {
    pub has_gps_fix: bool,
    pub is_clipping: bool,
}

/// The same flags, under the name the frame decoder gives them.
pub type FrameMetadata = DataPointFlags;

/// The flags that the token `t` sets.
pub open spec fn flags_of(t: Seq<u8>) -> DataPointFlags {
    DataPointFlags { has_gps_fix: has_byte(t, GPS_FIX_FLAG), is_clipping: has_byte(t, CLIPPING_FLAG) }
}

/// The flags token that sets exactly the flags `f`.
pub open spec fn flags_text(f: DataPointFlags) -> Seq<char> {
    (if f.has_gps_fix {
        seq!['G']
    } else {
        Seq::empty()
    }) + (if f.is_clipping {
        seq!['O']
    } else {
        Seq::empty()
    })
}

impl DataPointFlags {
    /// The flags token for these flags: `G` for a fix, then `O` for
    /// clipping.
    pub fn to_string(&self) -> (r: String)
        ensures
            r@ == flags_text(*self),
    {
        proof {
            reveal_strlit("G");
            reveal_strlit("O");
            reveal_strlit("GO");
            reveal_strlit("");
        }
        let r = if self.has_gps_fix && self.is_clipping {
            String::from_str("GO")
        } else if self.has_gps_fix {
            String::from_str("G")
        } else if self.is_clipping {
            String::from_str("O")
        } else {
            String::from_str("")
        };
        assert(r@ =~= flags_text(*self));
        r
    }

    /// No flag set.
    pub fn new() -> (r: DataPointFlags)
        ensures
            !r.has_gps_fix,
            !r.is_clipping,
    {
        DataPointFlags { has_gps_fix: false, is_clipping: false }
    }

    /// Reads the flags of `b[start..end]`.
    pub fn from_bytes(b: &[u8], start: usize, end: usize) -> (r: DataPointFlags)
        requires
            start <= end <= b@.len(),
        ensures
            r == flags_of(b@.subrange(start as int, end as int)),
    {
        let ghost t = b@.subrange(start as int, end as int);
        let mut flags = DataPointFlags::new();
        let mut i: usize = start;
        while i < end
            invariant
                start <= i <= end <= b@.len(),
                t == b@.subrange(start as int, end as int),
                flags.has_gps_fix == has_byte(t.subrange(0, i - start), GPS_FIX_FLAG),
                flags.is_clipping == has_byte(t.subrange(0, i - start), CLIPPING_FLAG),
            decreases end - i,
        {
            let ghost pre = t.subrange(0, i - start);
            let ghost next = t.subrange(0, i + 1 - start);
            assert(next =~= pre.push(b[i as int]));
            assert(forall|c: u8| has_byte(next, c) <==> has_byte(pre, c) || b[i as int] == c) by {
                assert forall|c: u8| has_byte(next, c) implies has_byte(pre, c) || b[i as int] == c by {
                    let j = choose|j: int| 0 <= j < next.len() && next[j] == c;
                    if j < pre.len() {
                        assert(pre[j] == c);
                    }
                }
                assert forall|c: u8| has_byte(pre, c) implies has_byte(next, c) by {
                    let j = choose|j: int| 0 <= j < pre.len() && pre[j] == c;
                    assert(next[j] == c);
                }
                assert(next[pre.len() as int] == b[i as int]);
            }
            if b[i] == GPS_FIX_FLAG {
                flags.has_gps_fix = true;
            }
            if b[i] == CLIPPING_FLAG {
                flags.is_clipping = true;
            }
            i = i + 1;
        }
        assert(t.subrange(0, end - start) =~= t);
        flags
    }

    /// Reads the flags of a flags token.
    pub fn parse(line: &str) -> (r: DataPointFlags)
        ensures
            r == flags_of(line.spec_bytes()),
    {
        let b = line.as_bytes();
        assert(b@.subrange(0, b@.len() as int) =~= b@);
        DataPointFlags::from_bytes(b, 0, b.len())
    }

    pub fn has_gps_fix(&self) -> (r: bool)
        ensures
            r == self.has_gps_fix,
    {
        self.has_gps_fix
    }

    pub fn is_clipping(&self) -> (r: bool)
        ensures
            r == self.is_clipping,
    {
        self.is_clipping
    }
}

} // verus!

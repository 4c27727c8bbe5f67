//! Decimal integer grammars used by the frame protocol.

use vstd::prelude::*;
use vstd::string::StringSliceAdditionalSpecFns;
use vstd::utf8::{
    decode_utf8, encode_utf8, encode_utf8_decode_utf8, encode_utf8_valid_utf8, is_ascii_chars,
    is_ascii_chars_encode_utf8, valid_utf8,
};

verus! {

/// An ASCII decimal digit.
pub open spec fn is_digit(c: u8) -> bool {
    48 <= c <= 57
}

pub open spec fn all_digits(s: Seq<u8>) -> bool {
    forall|i: int| 0 <= i < s.len() ==> is_digit(#[trigger] s[i])
}

/// The value of a string of decimal digits, most significant first.
pub open spec fn digits_value(s: Seq<u8>) -> nat
    decreases s.len(),
{
    if s.len() == 0 {
        0
    } else {
        digits_value(s.drop_last()) * 10 + (s.last() - 48) as nat
    }
}

/// The integer that `str::parse` reads from `t` for an integer type whose
/// values are `lo..=hi`: an optional `+` (or `-` where the type is signed)
/// followed by one or more digits, with the value in range.
pub open spec fn int_text_value(t: Seq<u8>, lo: int, hi: int) -> Option<int> {
    let neg = t.len() > 0 && t[0] == 45 && lo < 0;
    let d = if t.len() > 0 && (t[0] == 43 || neg) {
        t.drop_first()
    } else {
        t
    };
    let v = if neg {
        -(digits_value(d) as int)
    } else {
        digits_value(d) as int
    };
    if d.len() > 0 && all_digits(d) && lo <= v <= hi {
        Some(v)
    } else {
        None
    }
}

/// Length of the run of digits that starts `s`.
pub open spec fn leading_digits(s: Seq<u8>) -> nat
    decreases s.len(),
{
    if s.len() > 0 && is_digit(s[0]) {
        1 + leading_digits(s.drop_first())
    } else {
        0
    }
}

/// What `atoi::atoi::<u64>` reads from `t`: an optional sign, then the
/// digits that follow it up to the first other byte. Without a sign at least
/// one digit is needed; after `-` only a value of zero fits the type.
pub open spec fn atoi_u64_value(t: Seq<u8>) -> Option<u64> {
    let signed = t.len() > 0 && (t[0] == 43 || t[0] == 45);
    let rest = if signed {
        t.drop_first()
    } else {
        t
    };
    let v = digits_value(rest.subrange(0, leading_digits(rest) as int));
    if !signed && leading_digits(rest) == 0 {
        None
    } else if signed && t[0] == 45 {
        if v == 0 {
            Some(0u64)
        } else {
            None
        }
    } else if v <= u64::MAX {
        Some(v as u64)
    } else {
        None
    }
}

/// Relies on `atoi::atoi::<u64>`: reads the optional sign and the leading
/// digits of `text`, and is `None` where no number starts it or it overflows.
#[verifier::external_body]
pub(crate) fn atoi_u64(text: &[u8]) -> (r: Option<u64>)
    ensures
        r == atoi_u64_value(text@),
{
    atoi::atoi::<u64>(text)
}

/// A digit string never loses value when digits are appended.
pub proof fn lemma_digits_value_prefix(s: Seq<u8>, k: int)
    requires
        0 <= k <= s.len(),
    ensures
        digits_value(s.subrange(0, k)) <= digits_value(s),
    decreases s.len(),
{
    if k < s.len() {
        assert(s.drop_last() =~= s.subrange(0, s.len() - 1));
        assert(s.drop_last().subrange(0, k) =~= s.subrange(0, k));
        lemma_digits_value_prefix(s.drop_last(), k);
    } else {
        assert(s.subrange(0, k) =~= s);
    }
}

/// Reads the integer that `str::parse` would read from `b[start..end]` for
/// an integer type whose values are `lo..=hi`.
pub fn parse_int(b: &[u8], start: usize, end: usize, lo: i64, hi: i64) -> (r: Option<i64>)
    requires
        start <= end <= b@.len(),
        lo <= 0 <= hi,
    ensures
        r matches Some(v) ==> int_text_value(b@.subrange(start as int, end as int), lo as int, hi as int) == Some(v as int),
        r is None ==> int_text_value(b@.subrange(start as int, end as int), lo as int, hi as int) is None,
{
    let ghost t = b@.subrange(start as int, end as int);
    let neg: bool = start < end && b[start] == 45u8 && lo < 0;
    let ds: usize = if start < end && (b[start] == 43u8 || neg) {
        start + 1
    } else {
        start
    };
    let ghost d = b@.subrange(ds as int, end as int);
    assert(d =~= if t.len() > 0 && (t[0] == 43 || neg) { t.drop_first() } else { t });
    let ghost dv = if neg { -(digits_value(d) as int) } else { digits_value(d) as int };
    assert(int_text_value(t, lo as int, hi as int) == if d.len() > 0 && all_digits(d) && lo <= dv
        <= hi { Some(dv) } else { None });
    if ds == end {
        return None;
    }
    let bound: u128 = if neg {
        (0i128 - lo as i128) as u128
    } else {
        hi as u128
    };
    let mut acc: u128 = 0;
    let mut i: usize = ds;
    while i < end
        invariant
            ds <= i <= end <= b@.len(),
            d == b@.subrange(ds as int, end as int),
            d.len() > 0,
            start <= ds,
            t == b@.subrange(start as int, end as int),
            dv == if neg { -(digits_value(d) as int) } else { digits_value(d) as int },
            int_text_value(t, lo as int, hi as int) == if all_digits(d) && lo <= dv <= hi {
                Some(dv)
            } else {
                None
            },
            bound == if neg { -(lo as int) } else { hi as int },
            acc == digits_value(b@.subrange(ds as int, i as int)),
            all_digits(b@.subrange(ds as int, i as int)),
            acc <= bound,
            bound <= 0x8000_0000_0000_0000,
        decreases end - i,
    {
        let c = b[i];
        let ghost pre = b@.subrange(ds as int, i as int);
        let ghost next = b@.subrange(ds as int, i + 1);
        assert(next.drop_last() =~= pre);
        if c < 48u8 || c > 57u8 {
            assert(!is_digit(d[i - ds]));
            assert(!all_digits(d));
            return None;
        }
        let v: u128 = acc * 10 + (c - 48u8) as u128;
        assert(v == digits_value(next));
        if v > bound {
            proof {
                if all_digits(d) {
                    assert(d.subrange(0, i + 1 - ds) =~= next);
                    lemma_digits_value_prefix(d, i + 1 - ds);
                    assert(!(lo <= dv <= hi));
                }
            }
            return None;
        }
        acc = v;
        i = i + 1;
    }
    assert(b@.subrange(ds as int, i as int) =~= d);
    if neg {
        Some((0i128 - acc as i128) as i64)
    } else {
        Some(acc as i64)
    }
}

/// The characters of an ASCII byte string.
pub open spec fn ascii_chars(t: Seq<u8>) -> Seq<char> {
    t.map_values(|c: u8| c as char)
}

pub open spec fn is_ascii_bytes(t: Seq<u8>) -> bool {
    forall|i: int| 0 <= i < t.len() ==> #[trigger] t[i] < 128
}

/// ASCII bytes are valid UTF-8, one character per byte.
pub proof fn lemma_ascii_text(t: Seq<u8>)
    requires
        is_ascii_bytes(t),
    ensures
        valid_utf8(t),
        decode_utf8(t) == ascii_chars(t),
{
    let c = ascii_chars(t);
    assert(is_ascii_chars(c)) by {
        assert forall|i: int| 0 <= i < c.len() implies '\0' <= #[trigger] c[i] <= '\u{7f}' by {
            assert(t[i] < 128);
        }
    }
    is_ascii_chars_encode_utf8(c);
    assert(encode_utf8(c) =~= t);
    encode_utf8_valid_utf8(c);
    encode_utf8_decode_utf8(c);
}

/// Length of an optional leading sign.
pub open spec fn sign_len(t: Seq<u8>) -> int {
    if t.len() > 0 && (t[0] == 43 || t[0] == 45) {
        1
    } else {
        0
    }
}

/// Relies on `core::str::from_utf8`: it succeeds exactly on valid UTF-8,
/// and the text it gives holds the same bytes.
#[verifier::external_body]
fn utf8_text(b: &[u8]) -> (r: Option<&str>)
    ensures
        r is Some <==> valid_utf8(b@),
        r matches Some(s) ==> s.spec_bytes() == b@,
{
    core::str::from_utf8(b).ok()
}

/// The text of ASCII bytes.
pub fn ascii_string(b: &[u8]) -> (r: String)
    requires
        is_ascii_bytes(b@),
    ensures
        r@ == ascii_chars(b@),
{
    proof {
        lemma_ascii_text(b@);
    }
    match utf8_text(b) {
        Some(text) => {
            proof {
                encode_utf8_decode_utf8(text@);
            }
            text.to_owned()
        },
        None => String::new(),
    }
}

/// The decimal digits of `n`, most significant first, without leading zeros.
pub open spec fn digits_of(n: nat) -> Seq<u8>
    decreases n,
{
    if n < 10 {
        seq![(48 + n) as u8]
    } else {
        digits_of(n / 10).push((48 + n % 10) as u8)
    }
}

pub proof fn lemma_digits_of(n: nat)
    ensures
        digits_of(n).len() >= 1,
        all_digits(digits_of(n)),
        digits_value(digits_of(n)) == n,
    decreases n,
{
    if n >= 10 {
        lemma_digits_of(n / 10);
        let d = digits_of(n);
        assert(d.drop_last() =~= digits_of(n / 10));
        assert(d.last() - 48 == n % 10);
        assert(n == (n / 10) * 10 + n % 10) by (nonlinear_arith);
        assert(digits_value(d) == digits_value(d.drop_last()) * 10 + (d.last() - 48) as nat);
        assert forall|i: int| 0 <= i < d.len() implies is_digit(#[trigger] d[i]) by {
            if i < d.len() - 1 {
                assert(d[i] == digits_of(n / 10)[i]);
            }
        }
    } else {
        assert(digits_of(n).drop_last() =~= Seq::<u8>::empty());
        assert(digits_of(n).last() - 48 == n);
        assert(digits_value(digits_of(n)) == digits_value(Seq::<u8>::empty()) * 10 + n);
    }
}

/// Appends the decimal digits of `n` to `out`.
pub fn push_digits(n: u64, out: &mut Vec<u8>)
    ensures
        final(out)@ == old(out)@ + digits_of(n as nat),
    decreases n,
{
    if n >= 10 {
        push_digits(n / 10, out);
    }
    let ghost before = out@;
    out.push(48u8 + (n % 10) as u8);
    proof {
        if n >= 10 {
            assert(final(out)@ =~= old(out)@ + digits_of(n as nat));
        } else {
            assert(final(out)@ =~= old(out)@ + digits_of(n as nat));
        }
    }
}

/// The decimal text of `n`.
pub fn decimal_string(n: u64) -> (r: String)
    ensures
        r@ == ascii_chars(digits_of(n as nat)),
{
    let mut b: Vec<u8> = Vec::new();
    push_digits(n, &mut b);
    proof {
        lemma_digits_of(n as nat);
        assert(b@ =~= digits_of(n as nat));
        assert forall|i: int| 0 <= i < b@.len() implies #[trigger] b@[i] < 128 by {
            assert(is_digit(digits_of(n as nat)[i]));
        }
    }
    ascii_string(b.as_slice())
}

/// The decimal text of `v`: a minus sign for a negative value, then the
/// digits of its magnitude.
pub open spec fn int_text(v: int) -> Seq<u8> {
    if v < 0 {
        seq![45u8] + digits_of((-v) as nat)
    } else {
        digits_of(v as nat)
    }
}

pub proof fn lemma_leading_digits_all(s: Seq<u8>)
    requires
        all_digits(s),
    ensures
        leading_digits(s) == s.len(),
    decreases s.len(),
{
    if s.len() > 0 {
        assert(all_digits(s.drop_first())) by {
            assert forall|i: int| 0 <= i < s.drop_first().len() implies is_digit(
                #[trigger] s.drop_first()[i],
            ) by {
                assert(s.drop_first()[i] == s[i + 1]);
            }
        }
        lemma_leading_digits_all(s.drop_first());
    }
}

pub proof fn lemma_leading_digits_are_digits(s: Seq<u8>)
    ensures
        leading_digits(s) <= s.len(),
        forall|k: int| 0 <= k < leading_digits(s) ==> is_digit(#[trigger] s[k]),
    decreases s.len(),
{
    if s.len() > 0 && is_digit(s[0]) {
        lemma_leading_digits_are_digits(s.drop_first());
        assert forall|k: int| 0 <= k < leading_digits(s) implies is_digit(#[trigger] s[k]) by {
            if k > 0 {
                assert(s[k] == s.drop_first()[k - 1]);
            }
        }
    }
}

/// Reading the decimal text of a value in range gives the value back.
pub proof fn lemma_int_text_round_trip(v: int, lo: int, hi: int)
    requires
        lo <= v <= hi,
    ensures
        int_text_value(int_text(v), lo, hi) == Some(v),
{
    if v < 0 {
        let d = digits_of((-v) as nat);
        lemma_digits_of((-v) as nat);
        assert(int_text(v).drop_first() =~= d);
    } else {
        lemma_digits_of(v as nat);
        assert(is_digit(digits_of(v as nat)[0]));
    }
}

/// `atoi` reads the digits of a value of `u64` back as that value.
pub proof fn lemma_atoi_round_trip(v: u64)
    ensures
        atoi_u64_value(digits_of(v as nat)) == Some(v),
{
    let d = digits_of(v as nat);
    lemma_digits_of(v as nat);
    assert(is_digit(d[0]));
    lemma_leading_digits_all(d);
    assert(d.subrange(0, d.len() as int) =~= d);
}

/// The text of an integer holds digits and at most a leading minus sign.
pub proof fn lemma_int_text_chars(v: int)
    ensures
        int_text(v).len() >= 1,
        forall|i: int| 0 <= i < int_text(v).len() ==> is_digit(#[trigger] int_text(v)[i]) || (i
            == 0 && int_text(v)[i] == 45),
{
    if v < 0 {
        lemma_digits_of((-v) as nat);
        assert forall|i: int| 0 <= i < int_text(v).len() implies is_digit(#[trigger] int_text(v)[i])
            || (i == 0 && int_text(v)[i] == 45) by {
            if i > 0 {
                assert(int_text(v)[i] == digits_of((-v) as nat)[i - 1]);
            }
        }
    } else {
        lemma_digits_of(v as nat);
    }
}


} // verus!

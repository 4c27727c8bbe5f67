//! The text of a floating-point field: what `f32`'s `FromStr` accepts.
//! The frame keeps such fields as text; this grammar decides which texts
//! are fields at all.

use vstd::prelude::*;

use crate::numeric::{all_digits, is_ascii_bytes, is_digit, leading_digits, sign_len};

verus! {

/// An exponent: `e` or `E`, an optional sign, and one or more digits.
pub open spec fn is_exponent(e: Seq<u8>) -> bool {
    e.len() > 0 && (e[0] == 101 || e[0] == 69) && is_signed_digits(e.drop_first())
}

/// An optional sign followed by one or more digits.
pub open spec fn is_signed_digits(x: Seq<u8>) -> bool {
    let y = x.subrange(sign_len(x), x.len() as int);
    y.len() > 0 && all_digits(y)
}

/// An unsigned number: digits with an optional point and more digits, or a
/// point followed by digits, then an optional exponent.
pub open spec fn is_number_text(s: Seq<u8>) -> bool {
    let ip = leading_digits(s) as int;
    let r = s.subrange(ip, s.len() as int);
    let dot = r.len() > 0 && r[0] == 46;
    let fd: int = if dot {
        leading_digits(r.drop_first()) as int
    } else {
        0
    };
    let rest = if dot {
        r.subrange(1 + fd, r.len() as int)
    } else {
        r
    };
    (ip > 0 || fd > 0) && (rest.len() == 0 || is_exponent(rest))
}

/// The byte with ASCII upper-case letters made lower case.
pub open spec fn lower_byte(c: u8) -> u8 {
    if 65 <= c <= 90 {
        (c + 32) as u8
    } else {
        c
    }
}

/// Whether `s` spells the lower-case word `w`, in any letter case.
pub open spec fn is_word(s: Seq<u8>, w: Seq<u8>) -> bool {
    s.len() == w.len() && forall|i: int| 0 <= i < s.len() ==> lower_byte(#[trigger] s[i]) == w[i]
}

pub open spec fn inf_word() -> Seq<u8> {
    seq![105u8, 110, 102]
}

pub open spec fn infinity_word() -> Seq<u8> {
    seq![105u8, 110, 102, 105, 110, 105, 116, 121]
}

pub open spec fn nan_word() -> Seq<u8> {
    seq![110u8, 97, 110]
}

/// A floating-point text: an optional sign, then a number, `inf`,
/// `infinity` or `nan` (the words in any letter case).
pub open spec fn is_float_text(t: Seq<u8>) -> bool {
    let s = t.subrange(sign_len(t), t.len() as int);
    is_number_text(s) || is_word(s, inf_word()) || is_word(s, infinity_word()) || is_word(
        s,
        nan_word(),
    )
}

/// A byte that a number text may hold.
pub open spec fn is_number_byte(c: u8) -> bool {
    is_digit(c) || c == 43 || c == 45 || c == 46 || c == 69 || c == 101
}

/// The end of the run of digits that starts at `from` in `b[..to]`.
pub fn digit_run(b: &[u8], from: usize, to: usize) -> (e: usize)
    requires
        from <= to <= b@.len(),
    ensures
        from <= e <= to,
        e - from == leading_digits(b@.subrange(from as int, to as int)),
        all_digits(b@.subrange(from as int, e as int)),
        e < to ==> !is_digit(b@[e as int]),
{
    let mut i: usize = from;
    while i < to && 48u8 <= b[i] && b[i] <= 57u8
        invariant
            from <= i <= to <= b@.len(),
            leading_digits(b@.subrange(from as int, to as int)) == (i - from) + leading_digits(
                b@.subrange(i as int, to as int),
            ),
            all_digits(b@.subrange(from as int, i as int)),
        decreases to - i,
    {
        assert(b@.subrange(i as int, to as int).drop_first() =~= b@.subrange(i + 1, to as int));
        assert(b@.subrange(from as int, i + 1) =~= b@.subrange(from as int, i as int).push(
            b@[i as int],
        ));
        i = i + 1;
    }
    i
}

fn signed_digits_at(b: &[u8], p: usize, end: usize) -> (r: bool)
    requires
        p <= end <= b@.len(),
    ensures
        r == is_signed_digits(b@.subrange(p as int, end as int)),
{
    let ghost x = b@.subrange(p as int, end as int);
    let ds: usize = if p < end && (b[p] == 43u8 || b[p] == 45u8) {
        p + 1
    } else {
        p
    };
    let ghost y = x.subrange(sign_len(x), x.len() as int);
    assert(y =~= b@.subrange(ds as int, end as int));
    if ds == end {
        return false;
    }
    let e = digit_run(b, ds, end);
    if e < end {
        assert(y[e - ds] == b@[e as int]);
    } else {
        assert(y =~= b@.subrange(ds as int, e as int));
    }
    e == end
}

fn exponent_at(b: &[u8], p: usize, end: usize) -> (r: bool)
    requires
        p <= end <= b@.len(),
    ensures
        r == is_exponent(b@.subrange(p as int, end as int)),
{
    if p == end || (b[p] != 101u8 && b[p] != 69u8) {
        return false;
    }
    assert(b@.subrange(p as int, end as int).drop_first() =~= b@.subrange(p + 1, end as int));
    signed_digits_at(b, p + 1, end)
}

fn number_at(b: &[u8], s: usize, end: usize) -> (r: bool)
    requires
        s <= end <= b@.len(),
    ensures
        r == is_number_text(b@.subrange(s as int, end as int)),
{
    let ghost t = b@.subrange(s as int, end as int);
    let ip = digit_run(b, s, end);
    let ghost r = t.subrange(ip - s, t.len() as int);
    assert(r =~= b@.subrange(ip as int, end as int));
    if ip < end && b[ip] == 46u8 {
        assert(r.drop_first() =~= b@.subrange(ip + 1, end as int));
        let fe = digit_run(b, ip + 1, end);
        assert(r.subrange(1 + (fe - ip - 1), r.len() as int) =~= b@.subrange(fe as int, end as int));
        (ip > s || fe > ip + 1) && (fe == end || exponent_at(b, fe, end))
    } else {
        ip > s && (ip == end || exponent_at(b, ip, end))
    }
}

fn lower(c: u8) -> (r: u8)
    ensures
        r == lower_byte(c),
{
    if 65u8 <= c && c <= 90u8 {
        c + 32
    } else {
        c
    }
}

fn word_at(b: &[u8], s: usize, end: usize, w: &[u8]) -> (r: bool)
    requires
        s <= end <= b@.len(),
    ensures
        r == is_word(b@.subrange(s as int, end as int), w@),
{
    let ghost t = b@.subrange(s as int, end as int);
    if end - s != w.len() {
        return false;
    }
    let mut i: usize = 0;
    while i < w.len()
        invariant
            s <= end <= b@.len(),
            end - s == w@.len(),
            t == b@.subrange(s as int, end as int),
            i <= w@.len(),
            forall|j: int| 0 <= j < i ==> lower_byte(#[trigger] t[j]) == w@[j],
        decreases w@.len() - i,
    {
        if lower(b[s + i]) != w[i] {
            assert(t[i as int] == b@[s + i]);
            return false;
        }
        assert(t[i as int] == b@[s + i]);
        i = i + 1;
    }
    true
}

/// Whether `b[start..end]` is a floating-point text.
pub fn float_text(b: &[u8], start: usize, end: usize) -> (r: bool)
    requires
        start <= end <= b@.len(),
    ensures
        r == is_float_text(b@.subrange(start as int, end as int)),
{
    let ghost t = b@.subrange(start as int, end as int);
    let ds: usize = if start < end && (b[start] == 43u8 || b[start] == 45u8) {
        start + 1
    } else {
        start
    };
    assert(t.subrange(sign_len(t), t.len() as int) =~= b@.subrange(ds as int, end as int));
    if number_at(b, ds, end) {
        return true;
    }
    let inf = vec![105u8, 110, 102];
    assert(inf@ =~= inf_word());
    let infinity = vec![105u8, 110, 102, 105, 110, 105, 116, 121];
    assert(infinity@ =~= infinity_word());
    let nan = vec![110u8, 97, 110];
    assert(nan@ =~= nan_word());
    word_at(b, ds, end, inf.as_slice()) || word_at(b, ds, end, infinity.as_slice()) || word_at(
        b,
        ds,
        end,
        nan.as_slice(),
    )
}

proof fn lemma_signed_digits_chars(x: Seq<u8>)
    requires
        is_signed_digits(x),
    ensures
        forall|j: int| 0 <= j < x.len() ==> is_number_byte(#[trigger] x[j]),
{
    let y = x.subrange(sign_len(x), x.len() as int);
    assert forall|j: int| 0 <= j < x.len() implies is_number_byte(#[trigger] x[j]) by {
        if j >= sign_len(x) {
            assert(x[j] == y[j - sign_len(x)]);
        }
    }
}

proof fn lemma_number_chars(s: Seq<u8>)
    requires
        is_number_text(s),
    ensures
        forall|k: int| 0 <= k < s.len() ==> is_number_byte(#[trigger] s[k]),
{
    let ip = leading_digits(s) as int;
    crate::numeric::lemma_leading_digits_are_digits(s);
    let r = s.subrange(ip, s.len() as int);
    let dot = r.len() > 0 && r[0] == 46;
    let fd: int = if dot {
        leading_digits(r.drop_first()) as int
    } else {
        0
    };
    if dot {
        crate::numeric::lemma_leading_digits_are_digits(r.drop_first());
    }
    let start = if dot {
        1 + fd
    } else {
        0
    };
    let rest = r.subrange(start, r.len() as int);
    if !dot {
        assert(rest =~= r);
    }
    assert(rest.len() > 0 ==> is_exponent(rest));
    if rest.len() > 0 {
        lemma_signed_digits_chars(rest.drop_first());
    }
    assert forall|k: int| 0 <= k < s.len() implies is_number_byte(#[trigger] s[k]) by {
        if k >= ip {
            assert(s[k] == r[k - ip]);
            if k - ip >= start {
                assert(r[k - ip] == rest[k - ip - start]);
                if k - ip - start > 0 {
                    assert(rest[k - ip - start] == rest.drop_first()[k - ip - start - 1]);
                }
            } else if k - ip > 0 {
                assert(r[k - ip] == r.drop_first()[k - ip - 1]);
            }
        }
    }
}

proof fn lemma_word_chars(s: Seq<u8>, w: Seq<u8>)
    requires
        is_word(s, w),
        forall|i: int| 0 <= i < w.len() ==> 97 <= #[trigger] w[i] <= 122,
    ensures
        forall|i: int| 0 <= i < s.len() ==> #[trigger] s[i] < 128 && s[i] != 44,
{
    assert forall|i: int| 0 <= i < s.len() implies #[trigger] s[i] < 128 && s[i] != 44 by {
        assert(lower_byte(s[i]) == w[i]);
    }
}

/// A floating-point text is ASCII and holds no comma.
pub proof fn lemma_float_text_chars(t: Seq<u8>)
    requires
        is_float_text(t),
    ensures
        is_ascii_bytes(t),
        forall|i: int| 0 <= i < t.len() ==> #[trigger] t[i] != 44,
{
    let sl = sign_len(t);
    let s = t.subrange(sl, t.len() as int);
    if is_number_text(s) {
        lemma_number_chars(s);
    } else if is_word(s, inf_word()) {
        lemma_word_chars(s, inf_word());
    } else if is_word(s, infinity_word()) {
        lemma_word_chars(s, infinity_word());
    } else {
        lemma_word_chars(s, nan_word());
    }
    assert forall|i: int| 0 <= i < t.len() implies #[trigger] t[i] < 128 && t[i] != 44 by {
        if i >= sl {
            assert(t[i] == s[i - sl]);
        }
    }
}

} // verus!

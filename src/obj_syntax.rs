use vstd::prelude::*;
use vstd::slice::slice_subrange;

use crate::unique_list::byte_strings;

verus! {

pub const SPACE: u8 = 32;

pub const SLASH: u8 = 47;

pub const PLUS: u8 = 43;

pub const MINUS: u8 = 45;

pub const DOT: u8 = 46;

pub const LOWER_E: u8 = 101;

/// One piece, or none where empty pieces are dropped and `cur` is empty.
pub open spec fn flush(cur: Seq<u8>, keep_empty: bool) -> Seq<Seq<u8>> {
    if keep_empty || cur.len() > 0 {
        seq![cur]
    } else {
        seq![]
    }
}

/// The pieces of `s` between separators, from position `i` on, where `cur` holds
/// the bytes of the current piece read so far.
pub open spec fn pieces_from(s: Seq<u8>, sep: u8, keep_empty: bool, i: int, cur: Seq<u8>) -> Seq<
    Seq<u8>,
>
    decreases s.len() - i,
{
    if i >= s.len() {
        flush(cur, keep_empty)
    } else if s[i] == sep {
        flush(cur, keep_empty) + pieces_from(s, sep, keep_empty, i + 1, seq![])
    } else {
        pieces_from(s, sep, keep_empty, i + 1, cur.push(s[i]))
    }
}

/// The fields of `s` between `sep` bytes, empty ones included (one more field
/// than there are separators).
pub open spec fn split_fields(s: Seq<u8>, sep: u8) -> Seq<Seq<u8>> {
    pieces_from(s, sep, true, 0, seq![])
}

/// The words of `s`: its non-empty runs of bytes other than a space.
pub open spec fn words(s: Seq<u8>) -> Seq<Seq<u8>> {
    pieces_from(s, SPACE, false, 0, seq![])
}

/// Splits `s` at each `sep` byte; with `keep_empty` false the empty pieces are dropped.
pub fn split_bytes(s: &[u8], sep: u8, keep_empty: bool) -> (r: Vec<Vec<u8>>)
    ensures
        byte_strings(r@) == pieces_from(s@, sep, keep_empty, 0, seq![]),
{
    let mut out: Vec<Vec<u8>> = Vec::new();
    let mut cur: Vec<u8> = Vec::new();
    let mut i: usize = 0;
    assert(byte_strings(out@) =~= seq![]);
    while i < s.len()
        invariant
            i <= s@.len(),
            byte_strings(out@) + pieces_from(s@, sep, keep_empty, i as int, cur@) == pieces_from(
                s@,
                sep,
                keep_empty,
                0,
                seq![],
            ),
        decreases s@.len() - i,
    {
        let ghost before = byte_strings(out@);
        let ghost old_cur = cur@;
        if s[i] == sep {
            if keep_empty || cur.len() > 0 {
                out.push(cur);
            }
            assert(byte_strings(out@) =~= before + flush(cur@, keep_empty));
            cur = Vec::new();
            assert(cur@ =~= seq![]);
            assert(before + (flush(old_cur, keep_empty) + pieces_from(
                s@,
                sep,
                keep_empty,
                i + 1,
                seq![],
            )) =~= byte_strings(out@) + pieces_from(s@, sep, keep_empty, i + 1, cur@));
        } else {
            cur.push(s[i]);
        }
        i = i + 1;
    }
    let ghost before = byte_strings(out@);
    if keep_empty || cur.len() > 0 {
        out.push(cur);
    }
    assert(byte_strings(out@) =~= before + flush(cur@, keep_empty));
    out
}

pub open spec fn is_digit(b: u8) -> bool {
    48 <= b <= 57
}

pub open spec fn all_digits(s: Seq<u8>) -> bool {
    forall|i: int| 0 <= i < s.len() ==> is_digit(#[trigger] s[i])
}

/// The number that a string of decimal digits writes.
pub open spec fn digits_value(s: Seq<u8>) -> nat
    decreases s.len(),
{
    if s.len() == 0 {
        0
    } else {
        digits_value(s.drop_last()) * 10 + (s.last() - 48) as nat
    }
}

/// `s` without one leading `+`.
pub open spec fn without_plus(s: Seq<u8>) -> Seq<u8> {
    if s.len() > 0 && s[0] == PLUS {
        s.drop_first()
    } else {
        s
    }
}

/// `s` without one leading `+` or `-`.
pub open spec fn without_sign(s: Seq<u8>) -> Seq<u8> {
    if s.len() > 0 && (s[0] == PLUS || s[0] == MINUS) {
        s.drop_first()
    } else {
        s
    }
}

/// A `usize` written in decimal, with an optional leading `+`, as
/// `str::parse::<usize>` reads it: no other sign, no blanks, and no value above
/// `usize::MAX`.
pub open spec fn index_value(s: Seq<u8>) -> Option<usize> {
    let d = without_plus(s);
    if d.len() > 0 && all_digits(d) && digits_value(d) <= usize::MAX {
        Some(digits_value(d) as usize)
    } else {
        None
    }
}

/// A longer run of digits writes at least as large a number.
proof fn lemma_digits_value_prefix(s: Seq<u8>, i: int)
    requires
        all_digits(s),
        0 <= i <= s.len(),
    ensures
        digits_value(s.take(i)) <= digits_value(s),
    decreases s.len(),
{
    if i < s.len() {
        lemma_digits_value_prefix(s.drop_last(), i);
        assert(s.drop_last().take(i) =~= s.take(i));
    } else {
        assert(s.take(i) =~= s);
    }
}

/// Reads a decimal `usize` with an optional leading `+`.
pub fn parse_index(s: &[u8]) -> (r: Option<usize>)
    ensures
        r == index_value(s@),
{
    let d: &[u8] = if s.len() > 0 && s[0] == PLUS {
        slice_subrange(s, 1, s.len())
    } else {
        s
    };
    assert(d@ =~= without_plus(s@));
    if d.len() == 0 {
        return None;
    }
    let mut i: usize = 0;
    while i < d.len()
        invariant
            i <= d@.len(),
            d@ == without_plus(s@),
            all_digits(d@.take(i as int)),
        decreases d@.len() - i,
    {
        if !(48 <= d[i] && d[i] <= 57) {
            assert(!all_digits(d@));
            return None;
        }
        assert(d@.take(i + 1) =~= d@.take(i as int).push(d@[i as int]));
        i = i + 1;
    }
    assert(d@.take(d@.len() as int) =~= d@);
    let mut value: usize = 0;
    let mut k: usize = 0;
    while k < d.len()
        invariant
            k <= d@.len(),
            d@ == without_plus(s@),
            all_digits(d@),
            value == digits_value(d@.take(k as int)),
        decreases d@.len() - k,
    {
        assert(d@.take(k + 1).drop_last() =~= d@.take(k as int));
        let digit = (d[k] - 48) as usize;
        match value.checked_mul(10) {
            None => {
                proof {
                    lemma_digits_value_prefix(d@, k + 1);
                }
                return None;
            },
            Some(tens) => match tens.checked_add(digit) {
                None => {
                    proof {
                        lemma_digits_value_prefix(d@, k + 1);
                    }
                    return None;
                },
                Some(next) => {
                    value = next;
                },
            },
        }
        k = k + 1;
    }
    assert(d@.take(d@.len() as int) =~= d@);
    Some(value)
}

/// The three numbers of a face element `v`, `v/t`, `v/t/n` or `v//n`: vertex,
/// texture coordinate and normal, each `None` where absent or unreadable.
pub open spec fn face_element_value(s: Seq<u8>) -> Seq<Option<usize>> {
    let fields = split_fields(s, SLASH);
    Seq::new(3, |i: int| if i < fields.len() { index_value(fields[i]) } else { None })
}

/// Reads a face element such as "3/4/5", "3", "3//4" or "3//".
pub fn parse_face_element_vertex_string(string: &[u8]) -> (r: [Option<usize>; 3])
    ensures
        r@ == face_element_value(string@),
{
    let substrings = split_bytes(string, SLASH, true);
    let mut numbers: [Option<usize>; 3] = [None, None, None];
    let mut i: usize = 0;
    while i < 3
        invariant
            i <= 3,
            byte_strings(substrings@) == split_fields(string@, SLASH),
            forall|k: int| 0 <= k < i ==> numbers@[k] == #[trigger] face_element_value(string@)[k],
            forall|k: int| i <= k < 3 ==> numbers@[k] is None,
        decreases 3 - i,
    {
        if i < substrings.len() {
            numbers[i] = parse_index(substrings[i].as_slice());
        }
        i = i + 1;
    }
    assert(numbers@ =~= face_element_value(string@));
    numbers
}

pub open spec fn ascii_lower(b: u8) -> u8 {
    if 65 <= b <= 90 {
        (b + 32) as u8
    } else {
        b
    }
}

/// Position of the first `b` in `s`, or `s.len()` where `s` holds none.
pub open spec fn first_index_of(s: Seq<u8>, b: u8) -> int
    decreases s.len(),
{
    if s.len() == 0 {
        0
    } else if s[0] == b {
        0
    } else {
        1 + first_index_of(s.drop_first(), b)
    }
}

proof fn lemma_first_index_of(s: Seq<u8>, b: u8, i: int)
    requires
        0 <= i <= s.len(),
        forall|k: int| 0 <= k < i ==> s[k] != b,
        i == s.len() || s[i] == b,
    ensures
        first_index_of(s, b) == i,
    decreases s.len(),
{
    if s.len() > 0 && i > 0 {
        assert forall|k: int| 0 <= k < i - 1 implies s.drop_first()[k] != b by {
            assert(s[k + 1] != b);
        }
        lemma_first_index_of(s.drop_first(), b, i - 1);
    }
}

/// Digits with at most one `.` among them, and at least one digit.
pub open spec fn is_mantissa(t: Seq<u8>) -> bool {
    let d = first_index_of(t, DOT);
    if d == t.len() {
        t.len() > 0 && all_digits(t)
    } else {
        t.len() > 1 && all_digits(t.take(d)) && all_digits(t.skip(d + 1))
    }
}

/// An optional sign and at least one digit.
pub open spec fn is_exponent(t: Seq<u8>) -> bool {
    without_sign(t).len() > 0 && all_digits(without_sign(t))
}

/// A mantissa, then optionally `e` and an exponent (all in lower case).
pub open spec fn is_decimal(l: Seq<u8>) -> bool {
    let e = first_index_of(l, LOWER_E);
    is_mantissa(l.take(e)) && (e == l.len() || is_exponent(l.skip(e + 1)))
}

pub open spec fn word_inf() -> Seq<u8> {
    seq![105u8, 110, 102]
}

pub open spec fn word_infinity() -> Seq<u8> {
    seq![105u8, 110, 102, 105, 110, 105, 116, 121]
}

pub open spec fn word_nan() -> Seq<u8> {
    seq![110u8, 97, 110]
}

/// The strings that `str::parse` reads as a floating-point number, as its
/// documentation gives them: an optional sign, then `inf`, `infinity`, `nan` or
/// a decimal number with an optional exponent, all without regard to case.
pub open spec fn is_float_literal(s: Seq<u8>) -> bool {
    let l = without_sign(s).map_values(|b: u8| ascii_lower(b));
    l == word_inf() || l == word_infinity() || l == word_nan() || is_decimal(l)
}

fn find_byte(s: &[u8], b: u8) -> (r: usize)
    ensures
        r == first_index_of(s@, b),
        r <= s@.len(),
{
    let mut i: usize = 0;
    while i < s.len() && s[i] != b
        invariant
            i <= s@.len(),
            forall|k: int| 0 <= k < i ==> s@[k] != b,
        decreases s@.len() - i,
    {
        i = i + 1;
    }
    proof {
        lemma_first_index_of(s@, b, i as int);
    }
    i
}

fn check_all_digits(s: &[u8]) -> (r: bool)
    ensures
        r == all_digits(s@),
{
    let mut i: usize = 0;
    while i < s.len()
        invariant
            i <= s@.len(),
            forall|k: int| 0 <= k < i ==> is_digit(#[trigger] s@[k]),
        decreases s@.len() - i,
    {
        if !(48 <= s[i] && s[i] <= 57) {
            return false;
        }
        i = i + 1;
    }
    true
}

fn strip_sign(s: &[u8]) -> (r: &[u8])
    ensures
        r@ == without_sign(s@),
{
    if s.len() > 0 && (s[0] == PLUS || s[0] == MINUS) {
        let r = slice_subrange(s, 1, s.len());
        assert(r@ =~= s@.drop_first());
        r
    } else {
        s
    }
}

fn check_mantissa(t: &[u8]) -> (r: bool)
    ensures
        r == is_mantissa(t@),
{
    let d = find_byte(t, DOT);
    if d == t.len() {
        t.len() > 0 && check_all_digits(t)
    } else {
        let before = slice_subrange(t, 0, d);
        let after = slice_subrange(t, d + 1, t.len());
        assert(before@ =~= t@.take(d as int));
        assert(after@ =~= t@.skip(d + 1));
        t.len() > 1 && check_all_digits(before) && check_all_digits(after)
    }
}

fn check_decimal(l: &[u8]) -> (r: bool)
    ensures
        r == is_decimal(l@),
{
    let e = find_byte(l, LOWER_E);
    let mantissa = slice_subrange(l, 0, e);
    assert(mantissa@ =~= l@.take(e as int));
    if !check_mantissa(mantissa) {
        return false;
    }
    if e == l.len() {
        return true;
    }
    let exponent = slice_subrange(l, e + 1, l.len());
    assert(exponent@ =~= l@.skip(e + 1));
    let digits = strip_sign(exponent);
    digits.len() > 0 && check_all_digits(digits)
}

pub(crate) fn equals_word(l: &Vec<u8>, word: &[u8]) -> (r: bool)
    ensures
        r == (l@ == word@),
{
    if l.len() != word.len() {
        return false;
    }
    let mut i: usize = 0;
    while i < l.len()
        invariant
            l@.len() == word@.len(),
            i <= l@.len(),
            forall|k: int| 0 <= k < i ==> l@[k] == word@[k],
        decreases l@.len() - i,
    {
        if l[i] != word[i] {
            return false;
        }
        i = i + 1;
    }
    assert(l@ =~= word@);
    true
}

/// Whether `s` is a number that `str::parse` reads as a floating-point value.
pub fn check_float_literal(s: &[u8]) -> (r: bool)
    ensures
        r == is_float_literal(s@),
{
    let t = strip_sign(s);
    let mut l: Vec<u8> = Vec::new();
    let mut i: usize = 0;
    while i < t.len()
        invariant
            i <= t@.len(),
            l@ == t@.take(i as int).map_values(|b: u8| ascii_lower(b)),
        decreases t@.len() - i,
    {
        let b = t[i];
        let lower = if 65 <= b && b <= 90 {
            b + 32
        } else {
            b
        };
        l.push(lower);
        i = i + 1;
        assert(l@ =~= t@.take(i as int).map_values(|b: u8| ascii_lower(b)));
    }
    assert(t@.take(t@.len() as int) =~= t@);
    let inf: [u8; 3] = [105, 110, 102];
    let infinity: [u8; 8] = [105, 110, 102, 105, 110, 105, 116, 121];
    let nan: [u8; 3] = [110, 97, 110];
    assert(inf@ =~= word_inf());
    assert(infinity@ =~= word_infinity());
    assert(nan@ =~= word_nan());
    equals_word(&l, inf.as_slice()) || equals_word(&l, infinity.as_slice()) || equals_word(
        &l,
        nan.as_slice(),
    ) || check_decimal(l.as_slice())
}

} // verus!

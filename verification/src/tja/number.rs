//! Numbers as a chart writes them: whole numbers, and decimal fractions read
//! as fixed-point values.

use crate::tja::text::{copy_range, find_char, first_where, is_char, lemma_first_where_bounds};
use vstd::prelude::*;

verus! {

/// The accumulator of the digit loops stops growing here; it is above every
/// value that a result may have.
pub const DIGIT_CAP: u128 = 100_000_000_000_000_000_000;

pub open spec fn is_digit(c: char) -> bool {
    '0' <= c <= '9'
}

pub open spec fn digit_of(c: char) -> int {
    (c as u32) - ('0' as u32)
}

pub open spec fn all_digits(s: Seq<char>) -> bool {
    forall|i: int| 0 <= i < s.len() ==> is_digit(#[trigger] s[i])
}

/// The number that a run of decimal digits writes.
pub open spec fn digits_value(s: Seq<char>) -> int
    decreases s.len(),
{
    if s.len() == 0 {
        0
    } else {
        digits_value(s.drop_last()) * 10 + digit_of(s.last())
    }
}

/// Whether `s` starts with a sign: `+`, or `-` where `minus` allows it.
pub open spec fn has_sign(s: Seq<char>, minus: bool) -> bool {
    s.len() > 0 && (s[0] == '+' || (minus && s[0] == '-'))
}

/// Whether `s` starts with a minus sign that counts.
pub open spec fn is_negative(s: Seq<char>, minus: bool) -> bool {
    minus && s.len() > 0 && s[0] == '-'
}

/// `s` without its sign.
pub open spec fn unsigned_part(s: Seq<char>, minus: bool) -> Seq<char> {
    if has_sign(s, minus) {
        s.drop_first()
    } else {
        s
    }
}

/// The whole number that `s` writes: an optional sign (`-` only where `minus`
/// allows it), then one decimal digit or more, and nothing else.
pub open spec fn parse_int(s: Seq<char>, minus: bool) -> Option<int> {
    let body = unsigned_part(s, minus);
    if body.len() > 0 && all_digits(body) {
        Some(
            if is_negative(s, minus) {
                -digits_value(body)
            } else {
                digits_value(body)
            },
        )
    } else {
        None
    }
}

/// The `i32` that `s` writes, where it writes one.
pub open spec fn parse_i32(s: Seq<char>) -> Option<i32> {
    match parse_int(s, true) {
        Some(v) => if i32::MIN <= v <= i32::MAX {
            Some(v as i32)
        } else {
            None
        },
        None => None,
    }
}

/// The `u16` that `s` writes, where it writes one. A minus sign is no part
/// of such a number.
pub open spec fn parse_u16(s: Seq<char>) -> Option<u16> {
    match parse_int(s, false) {
        Some(v) => if v <= u16::MAX {
            Some(v as u16)
        } else {
            None
        },
        None => None,
    }
}

/// The first `places` digits of a fraction, with zeros where it has fewer.
pub open spec fn scaled_fraction(frac: Seq<char>, places: nat) -> Seq<char> {
    Seq::new(
        places,
        |i: int|
            if i < frac.len() {
                frac[i]
            } else {
                '0'
            },
    )
}

/// The digits before the decimal point of an unsigned decimal.
pub open spec fn whole_part(body: Seq<char>) -> Seq<char> {
    body.subrange(0, first_where(body, is_char('.')))
}

/// The digits behind the decimal point of an unsigned decimal.
pub open spec fn fraction_part(body: Seq<char>) -> Seq<char> {
    let dot = first_where(body, is_char('.'));
    if dot < body.len() {
        body.subrange(dot + 1, body.len() as int)
    } else {
        Seq::empty()
    }
}

/// The decimal that `s` writes, in units of ten to the minus `places`,
/// cut off behind that place: an optional sign, digits, and optionally a
/// point and more digits, with one digit at least. None where `s` is not of
/// that form, and where the result is beyond `limit` on either side.
pub open spec fn parse_fixed(s: Seq<char>, places: nat, limit: int) -> Option<int> {
    let body = unsigned_part(s, true);
    let whole = whole_part(body);
    let frac = fraction_part(body);
    let mag = digits_value(whole + scaled_fraction(frac, places));
    if all_digits(whole) && all_digits(frac) && whole.len() + frac.len() > 0 && mag <= limit {
        Some(
            if is_negative(s, true) {
                -mag
            } else {
                mag
            },
        )
    } else {
        None
    }
}

/// [`parse_fixed`] as a machine integer.
pub open spec fn parse_decimal(s: Seq<char>, places: nat, limit: i64) -> Option<i64> {
    match parse_fixed(s, places, limit as int) {
        Some(v) => Some(v as i64),
        None => None,
    }
}

/// What [`parse_decimal`] gives lies within the limit.
pub proof fn lemma_parse_decimal_bounds(s: Seq<char>, places: nat, limit: i64)
    requires
        0 <= limit,
    ensures
        parse_decimal(s, places, limit) matches Some(v) ==> -limit <= v <= limit,
{
    let body = unsigned_part(s, true);
    let whole = whole_part(body);
    let frac = fraction_part(body);
    let tail = scaled_fraction(frac, places);
    if all_digits(whole) && all_digits(frac) {
        assert forall|i: int| 0 <= i < (whole + tail).len() implies is_digit(
            #[trigger] (whole + tail)[i],
        ) by {
            if i >= whole.len() {
                let k = i - whole.len();
                if k < frac.len() {
                    assert(is_digit(frac[k]));
                }
            } else {
                assert(is_digit(whole[i]));
            }
        }
        lemma_all_digits_value(whole + tail);
    }
}

/// A run of digits writes no negative number.
pub proof fn lemma_all_digits_value(s: Seq<char>)
    requires
        all_digits(s),
    ensures
        digits_value(s) >= 0,
    decreases s.len(),
{
    if s.len() > 0 {
        lemma_all_digits_value(s.drop_last());
    }
}

/// The smaller of `digits_value(s)` and the cap.
pub open spec fn capped_value(s: Seq<char>) -> int {
    if digits_value(s) < DIGIT_CAP {
        digits_value(s)
    } else {
        DIGIT_CAP as int
    }
}

/// A run of digits writes no negative number, and one digit more writes ten
/// times the number plus the digit.
pub proof fn lemma_digits_push(s: Seq<char>, c: char)
    requires
        all_digits(s),
        is_digit(c),
    ensures
        digits_value(s) >= 0,
        digits_value(s.push(c)) == digits_value(s) * 10 + digit_of(c),
        all_digits(s.push(c)),
    decreases s.len(),
{
    assert(s.push(c).drop_last() == s);
    if s.len() > 0 {
        assert(all_digits(s.drop_last()));
        lemma_digits_push(s.drop_last(), s.last());
        assert(s.drop_last().push(s.last()) == s);
    }
}

fn char_is_digit(c: char) -> (r: bool)
    ensures
        r == is_digit(c),
{
    '0' <= c && c <= '9'
}

/// One more digit on a capped accumulator.
fn push_digit(acc: u128, c: char, Ghost(s): Ghost<Seq<char>>) -> (r: u128)
    requires
        all_digits(s),
        is_digit(c),
        acc == capped_value(s),
    ensures
        r == capped_value(s.push(c)),
{
    proof {
        lemma_digits_push(s, c);
    }
    let d: u128 = ((c as u32) - ('0' as u32)) as u128;
    let next: u128 = acc * 10 + d;
    if next < DIGIT_CAP {
        next
    } else {
        DIGIT_CAP
    }
}

/// The capped value of the digits of `v` from `from` on, or `None` where
/// one of them is no digit.
fn read_digits(v: &Vec<char>, from: usize) -> (r: Option<u128>)
    requires
        from <= v.len(),
    ensures
        r is Some == all_digits(v@.subrange(from as int, v.len() as int)),
        r matches Some(x) ==> x == capped_value(v@.subrange(from as int, v.len() as int)),
{
    let ghost tail = v@.subrange(from as int, v.len() as int);
    let mut acc: u128 = 0;
    let mut i: usize = from;
    while i < v.len()
        invariant
            from <= i <= v.len(),
            tail == v@.subrange(from as int, v.len() as int),
            all_digits(v@.subrange(from as int, i as int)),
            acc == capped_value(v@.subrange(from as int, i as int)),
        decreases v.len() - i,
    {
        let c: char = v[i];
        if !char_is_digit(c) {
            proof {
                assert(tail[i - from] == c);
            }
            return None;
        }
        proof {
            assert(v@.subrange(from as int, i + 1) == v@.subrange(from as int, i as int).push(c));
        }
        acc = push_digit(acc, c, Ghost(v@.subrange(from as int, i as int)));
        proof {
            lemma_digits_push(v@.subrange(from as int, i as int), c);
        }
        i += 1;
    }
    Some(acc)
}

/// Whether `v` starts with a sign, and whether that sign is a minus.
fn read_sign(v: &Vec<char>, minus: bool) -> (r: (bool, bool))
    ensures
        r.0 == has_sign(v@, minus),
        r.1 == is_negative(v@, minus),
{
    if v.len() == 0 {
        (false, false)
    } else if v[0] == '+' {
        (true, false)
    } else if minus && v[0] == '-' {
        (true, true)
    } else {
        (false, false)
    }
}

/// The `i32` that the text writes, where it writes one.
pub fn read_i32(v: &Vec<char>) -> (r: Option<i32>)
    ensures
        r == parse_i32(v@),
{
    let (signed, negative) = read_sign(v, true);
    let from: usize = if signed {
        1
    } else {
        0
    };
    proof {
        assert(unsigned_part(v@, true) == v@.subrange(from as int, v.len() as int));
    }
    if from == v.len() {
        return None;
    }
    match read_digits(v, from) {
        None => None,
        Some(mag) => {
            if negative {
                if mag <= 2147483648 {
                    Some((-(mag as i64)) as i32)
                } else {
                    None
                }
            } else if mag <= 2147483647 {
                Some(mag as i32)
            } else {
                None
            }
        },
    }
}

/// The `u16` that the text writes, where it writes one.
pub fn read_u16(v: &Vec<char>) -> (r: Option<u16>)
    ensures
        r == parse_u16(v@),
{
    let (signed, _negative) = read_sign(v, false);
    let from: usize = if signed {
        1
    } else {
        0
    };
    proof {
        assert(unsigned_part(v@, false) == v@.subrange(from as int, v.len() as int));
    }
    if from == v.len() {
        return None;
    }
    match read_digits(v, from) {
        None => None,
        Some(mag) => {
            if mag <= 65535 {
                Some(mag as u16)
            } else {
                None
            }
        },
    }
}

/// The decimal that the text writes, in units of ten to the minus `places`;
/// see [`parse_decimal`].
pub fn read_decimal(v: &Vec<char>, places: u8, limit: i64) -> (r: Option<i64>)
    requires
        0 <= limit,
    ensures
        r == parse_decimal(v@, places as nat, limit),
        r matches Some(x) ==> -limit <= x <= limit,
{
    let (signed, negative) = read_sign(v, true);
    let from: usize = if signed {
        1
    } else {
        0
    };
    let body = copy_range(v, from, v.len());
    proof {
        assert(unsigned_part(v@, true) == body@);
        lemma_first_where_bounds(body@, is_char('.'));
    }
    let dot: usize = find_char(&body, '.');
    let whole = copy_range(&body, 0, dot);
    let frac = if dot < body.len() {
        copy_range(&body, dot + 1, body.len())
    } else {
        Vec::new()
    };
    assert(whole@ == whole_part(body@));
    assert(frac@ == fraction_part(body@));
    if whole.len() + frac.len() == 0 {
        return None;
    }
    let head = match read_digits(&whole, 0) {
        None => {
            proof {
                assert(whole@.subrange(0, whole.len() as int) == whole@);
            }
            return None;
        },
        Some(x) => x,
    };
    match read_digits(&frac, 0) {
        None => {
            proof {
                assert(frac@.subrange(0, frac.len() as int) == frac@);
            }
            return None;
        },
        Some(_) => {},
    }
    proof {
        assert(whole@.subrange(0, whole.len() as int) == whole@);
        assert(frac@.subrange(0, frac.len() as int) == frac@);
    }
    let ghost tail = scaled_fraction(frac@, places as nat);
    let mut acc: u128 = head;
    let mut i: u8 = 0;
    proof {
        assert(whole@ + tail.take(0) == whole@);
    }
    while i < places
        invariant
            i <= places,
            all_digits(whole@),
            all_digits(frac@),
            tail == scaled_fraction(frac@, places as nat),
            all_digits(whole@ + tail.take(i as int)),
            acc == capped_value(whole@ + tail.take(i as int)),
        decreases places - i,
    {
        let c: char = if (i as usize) < frac.len() {
            frac[i as usize]
        } else {
            '0'
        };
        proof {
            assert(tail[i as int] == c);
            assert(whole@ + tail.take(i + 1) == (whole@ + tail.take(i as int)).push(c));
            lemma_digits_push(whole@ + tail.take(i as int), c);
        }
        acc = push_digit(acc, c, Ghost(whole@ + tail.take(i as int)));
        i += 1;
    }
    proof {
        assert(tail.take(places as int) == tail);
    }
    if acc <= limit as u128 {
        if negative {
            Some(-(acc as i64))
        } else {
            Some(acc as i64)
        }
    } else {
        None
    }
}

} // verus!

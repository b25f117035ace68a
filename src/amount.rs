//! Exact decimal amounts.
//!
//! Quantities and unit prices are read from cell text as fixed-point numbers
//! counted in thousandths; a row total, their product, is counted in
//! millionths. Digits beyond the thousandths round to the nearest
//! thousandth, halves away from zero. Text that is not such a number, or
//! whose whole part reaches a million, reads as zero: a million times a
//! million is the largest row total that a 64-bit count of millionths holds
//! with room to spare, which keeps every sum of totals exact in 128 bits.
use vstd::prelude::*;

use crate::text::{chars_of, string_of};

verus! {

/// The whole part of a quantity or price stays below this many units.
pub const WHOLE_LIMIT: i64 = 1_000_000;

/// Digits kept after the decimal point of a quantity or price; further
/// digits round.
pub const FRACTION_DIGITS: usize = 3;

/// Decimal places of a quantity or a price (thousandths).
pub const UNIT_PLACES: u32 = 3;

/// Decimal places of a row total or a grand total (millionths).
pub const TOTAL_PLACES: u32 = 6;

pub open spec fn pow10(n: nat) -> nat
    decreases n,
{
    if n == 0 {
        1
    } else {
        10 * pow10((n - 1) as nat)
    }
}

pub open spec fn is_digit(c: char) -> bool {
    '0' <= c && c <= '9'
}

pub open spec fn digit_value(c: char) -> int {
    c as int - '0' as int
}

pub open spec fn all_digits(s: Seq<char>) -> bool {
    forall|i: int| 0 <= i < s.len() ==> is_digit(#[trigger] s[i])
}

/// The number that a string of decimal digits denotes.
pub open spec fn digits_value(s: Seq<char>) -> int
    decreases s.len(),
{
    if s.len() == 0 {
        0
    } else {
        digits_value(s.drop_last()) * 10 + digit_value(s.last())
    }
}

/// Index of the first `.` at or after `i`, or the length when there is none.
pub open spec fn dot_from(s: Seq<char>, i: int) -> int
    decreases s.len() - i,
{
    if i >= s.len() {
        s.len() as int
    } else if s[i] == '.' {
        i
    } else {
        dot_from(s, i + 1)
    }
}

/// The digits before the decimal point.
pub open spec fn int_part(s: Seq<char>) -> Seq<char> {
    s.take(dot_from(s, 0))
}

/// The digits after the decimal point (empty when there is no point).
pub open spec fn fraction_part(s: Seq<char>) -> Seq<char> {
    let d = dot_from(s, 0);
    if d < s.len() {
        s.skip(d + 1)
    } else {
        Seq::empty()
    }
}

/// The thousandths that the digits after the decimal point stand for:
/// exact up to three digits, otherwise rounded on the fourth digit.
pub open spec fn fraction_thousandths(fp: Seq<char>) -> int {
    if fp.len() <= FRACTION_DIGITS {
        digits_value(fp) * pow10((FRACTION_DIGITS - fp.len()) as nat)
    } else {
        digits_value(fp.take(FRACTION_DIGITS as int)) + if digit_value(fp[FRACTION_DIGITS as int])
            >= 5 {
            1int
        } else {
            0int
        }
    }
}

/// An unsigned decimal: digits, then optionally a point and more digits,
/// with at least one digit in all and a whole part below `WHOLE_LIMIT`.
pub open spec fn unsigned_amount(s: Seq<char>) -> Option<int> {
    let ip = int_part(s);
    let fp = fraction_part(s);
    if all_digits(ip) && all_digits(fp) && ip.len() + fp.len() >= 1 && digits_value(ip)
        < WHOLE_LIMIT {
        Some(digits_value(ip) * pow10(UNIT_PLACES as nat) + fraction_thousandths(fp))
    } else {
        None
    }
}

/// The value, in thousandths, of a text that is a decimal number with an
/// optional leading sign; `None` for any other text.
pub open spec fn amount_of(s: Seq<char>) -> Option<int> {
    if s.len() > 0 && s[0] == '-' {
        match unsigned_amount(s.skip(1)) {
            Some(v) => Some(-v),
            None => None,
        }
    } else if s.len() > 0 && s[0] == '+' {
        unsigned_amount(s.skip(1))
    } else {
        unsigned_amount(s)
    }
}

/// A cell's numeric value: its amount, or zero when it holds no number.
pub open spec fn amount_or_zero(s: Seq<char>) -> int {
    match amount_of(s) {
        Some(v) => v,
        None => 0,
    }
}

/// The largest magnitude, in thousandths, that a cell can hold.
pub open spec fn max_amount() -> int {
    1_000_000_000
}

proof fn lemma_pow10_mono(a: nat, b: nat)
    requires
        a <= b,
    ensures
        pow10(a) <= pow10(b),
    decreases b,
{
    if a < b {
        lemma_pow10_mono(a, (b - 1) as nat);
    }
}

proof fn lemma_pow10_positive(a: nat)
    ensures
        pow10(a) >= 1,
    decreases a,
{
    if a > 0 {
        lemma_pow10_positive((a - 1) as nat);
    }
}

proof fn lemma_digits_value_bound(s: Seq<char>)
    requires
        all_digits(s),
    ensures
        0 <= digits_value(s) < pow10(s.len()),
    decreases s.len(),
{
    if s.len() > 0 {
        let p = s.drop_last();
        assert(all_digits(p)) by {
            assert forall|i: int| 0 <= i < p.len() implies is_digit(#[trigger] p[i]) by {
                assert(p[i] == s[i]);
            }
        }
        lemma_digits_value_bound(p);
        assert(is_digit(s[s.len() - 1]));
    }
}

/// Value of the digits `cs[from..to]`; every one of them must be a digit.
fn digits_in(cs: &Vec<char>, from: usize, to: usize) -> (r: i64)
    requires
        from <= to <= cs@.len(),
        to - from <= FRACTION_DIGITS,
        all_digits(cs@.subrange(from as int, to as int)),
    ensures
        r == digits_value(cs@.subrange(from as int, to as int)),
{
    let mut acc: i64 = 0;
    let mut i: usize = from;
    proof {
        lemma_pow10_mono((to - from) as nat, FRACTION_DIGITS as nat);
        reveal_with_fuel(pow10, 4);
    }
    while i < to
        invariant
            from <= i <= to <= cs@.len(),
            to - from <= FRACTION_DIGITS,
            pow10((to - from) as nat) <= 1000,
            all_digits(cs@.subrange(from as int, to as int)),
            acc == digits_value(cs@.subrange(from as int, i as int)),
            0 <= acc < pow10((i - from) as nat),
        decreases to - i,
    {
        let c = cs[i];
        assert(cs@.subrange(from as int, to as int)[i - from] == c);
        let ghost prev = cs@.subrange(from as int, i as int);
        let ghost next = cs@.subrange(from as int, i as int + 1);
        assert(next.drop_last() == prev);
        assert(next.last() == c);
        proof {
            lemma_pow10_mono((i + 1 - from) as nat, (to - from) as nat);
        }
        acc = acc * 10 + (c as u32 - '0' as u32) as i64;
        i += 1;
    }
    acc
}

proof fn lemma_digits_prefix(s: Seq<char>, k: int)
    requires
        all_digits(s),
        0 <= k <= s.len(),
    ensures
        digits_value(s.take(k)) <= digits_value(s),
    decreases s.len(),
{
    if k < s.len() {
        let p = s.drop_last();
        assert(all_digits(p)) by {
            assert forall|i: int| 0 <= i < p.len() implies is_digit(#[trigger] p[i]) by {
                assert(p[i] == s[i]);
            }
        }
        assert(s.take(k) == p.take(k));
        lemma_digits_prefix(p, k);
        lemma_digits_value_bound(p);
        assert(is_digit(s[s.len() - 1]));
    } else {
        assert(s.take(k) == s);
    }
}

/// Value of the digits `cs[from..to]` when it is below `WHOLE_LIMIT`.
fn whole_value(cs: &Vec<char>, from: usize, to: usize) -> (r: Option<i64>)
    requires
        from <= to <= cs@.len(),
        all_digits(cs@.subrange(from as int, to as int)),
    ensures
        digits_value(cs@.subrange(from as int, to as int)) < WHOLE_LIMIT ==> r == Some(
            digits_value(cs@.subrange(from as int, to as int)) as i64,
        ),
        digits_value(cs@.subrange(from as int, to as int)) >= WHOLE_LIMIT ==> r is None,
{
    let ghost all = cs@.subrange(from as int, to as int);
    let mut acc: i64 = 0;
    let mut i: usize = from;
    while i < to
        invariant
            from <= i <= to <= cs@.len(),
            all == cs@.subrange(from as int, to as int),
            all_digits(all),
            acc == digits_value(cs@.subrange(from as int, i as int)),
            0 <= acc < WHOLE_LIMIT,
        decreases to - i,
    {
        let c = cs[i];
        assert(all[i - from] == c);
        let ghost prev = cs@.subrange(from as int, i as int);
        let ghost next = cs@.subrange(from as int, i as int + 1);
        assert(next.drop_last() == prev);
        assert(next.last() == c);
        acc = acc * 10 + (c as u32 - '0' as u32) as i64;
        if acc >= WHOLE_LIMIT {
            proof {
                assert(all.take(i - from + 1) == next);
                lemma_digits_prefix(all, i - from + 1);
            }
            return None;
        }
        i += 1;
    }
    Some(acc)
}

/// Checks that `cs[from..to]` holds digits only.
fn digits_only(cs: &Vec<char>, from: usize, to: usize) -> (r: bool)
    requires
        from <= to <= cs@.len(),
    ensures
        r == all_digits(cs@.subrange(from as int, to as int)),
{
    let mut i: usize = from;
    while i < to
        invariant
            from <= i <= to <= cs@.len(),
            all_digits(cs@.subrange(from as int, i as int)),
        decreases to - i,
    {
        let c = cs[i];
        if !('0' <= c && c <= '9') {
            assert(cs@.subrange(from as int, to as int)[i - from] == c);
            return false;
        }
        assert forall|k: int| 0 <= k < i + 1 - from implies is_digit(
            #[trigger] cs@.subrange(from as int, i as int + 1)[k],
        ) by {
            if k < i - from {
                assert(cs@.subrange(from as int, i as int + 1)[k] == cs@.subrange(
                    from as int,
                    i as int,
                )[k]);
            }
        }
        i += 1;
    }
    true
}

/// Reads an unsigned decimal from `cs[start..]`.
fn unsigned_in(cs: &Vec<char>, start: usize) -> (r: Option<i64>)
    requires
        start <= cs@.len(),
    ensures
        match unsigned_amount(cs@.skip(start as int)) {
            Some(v) => r == Some(v as i64) && 0 <= v <= max_amount(),
            None => r is None,
        },
{
    let ghost s = cs@.skip(start as int);
    let mut d: usize = start;
    while d < cs.len()
        invariant
            start <= d <= cs@.len(),
            s == cs@.skip(start as int),
            dot_from(s, 0) == dot_from(s, d - start),
        ensures
            start <= d <= cs@.len(),
            dot_from(s, 0) == dot_from(s, d - start),
            d < cs@.len() ==> cs@[d as int] == '.',
        decreases cs@.len() - d,
    {
        assert(s[d - start] == cs@[d as int]);
        if cs[d] == '.' {
            break;
        }
        d += 1;
    }
    if d < cs.len() {
        assert(s[d - start] == cs@[d as int]);
    }
    assert(dot_from(s, 0) == d - start);
    let frac_start: usize = if d < cs.len() {
        d + 1
    } else {
        cs.len()
    };
    assert(int_part(s) == cs@.subrange(start as int, d as int));
    assert(fraction_part(s) == cs@.subrange(frac_start as int, cs@.len() as int));
    let int_len = d - start;
    let frac_len = cs.len() - frac_start;
    if int_len + frac_len == 0 {
        return None;
    }
    if !digits_only(cs, start, d) || !digits_only(cs, frac_start, cs.len()) {
        return None;
    }
    let whole = match whole_value(cs, start, d) {
        Some(w) => w,
        None => {
            return None;
        },
    };
    let kept: usize = if frac_len > FRACTION_DIGITS {
        FRACTION_DIGITS
    } else {
        frac_len
    };
    let ghost fp = fraction_part(s);
    assert(cs@.subrange(frac_start as int, frac_start as int + kept) == fp.take(kept as int));
    assert(all_digits(fp.take(kept as int))) by {
        assert forall|i: int| 0 <= i < kept implies is_digit(#[trigger] fp.take(kept as int)[i]) by {
            assert(fp.take(kept as int)[i] == fp[i]);
        }
    }
    let frac = digits_in(cs, frac_start, frac_start + kept);
    let scale: i64 = if kept == 0 {
        1000
    } else if kept == 1 {
        100
    } else if kept == 2 {
        10
    } else {
        1
    };
    let round_up: i64 = if frac_len > FRACTION_DIGITS && cs[frac_start + FRACTION_DIGITS] >= '5' {
        1
    } else {
        0
    };
    proof {
        lemma_digits_value_bound(int_part(s));
        lemma_digits_value_bound(fp.take(kept as int));
        reveal_with_fuel(pow10, 4);
        assert(scale == pow10((3 - kept) as nat));
        assert(frac * scale < 1000);
        if frac_len <= FRACTION_DIGITS {
            assert(fp.take(kept as int) == fp);
        } else {
            assert(fp[FRACTION_DIGITS as int] == cs@[frac_start + FRACTION_DIGITS]);
            assert(is_digit(fp[FRACTION_DIGITS as int]));
        }
    }
    Some(whole * 1000 + frac * scale + round_up)
}

/// Reads a cell's text as a signed decimal number of thousandths.
pub fn parse_amount(text: &str) -> (r: Option<i64>)
    ensures
        match amount_of(text@) {
            Some(v) => r == Some(v as i64) && -max_amount() <= v <= max_amount(),
            None => r is None,
        },
{
    let cs = chars_of(text);
    if cs.len() > 0 && cs[0] == '-' {
        match unsigned_in(&cs, 1) {
            Some(v) => Some(-v),
            None => None,
        }
    } else if cs.len() > 0 && cs[0] == '+' {
        unsigned_in(&cs, 1)
    } else {
        assert(cs@.skip(0) == cs@);
        unsigned_in(&cs, 0)
    }
}

/// A cell's numeric value in thousandths; text that holds no number
/// reads as zero.
pub fn numeric_cell(text: &str) -> (r: i64)
    ensures
        r == amount_or_zero(text@),
        -max_amount() <= r <= max_amount(),
{
    match parse_amount(text) {
        Some(v) => v,
        None => 0,
    }
}

/// The character of a decimal digit.
pub open spec fn digit_char(d: nat) -> char {
    ((d + 48) as u8) as char
}

/// The decimal digits of a natural number, without leading zeros.
pub open spec fn digits_of(n: nat) -> Seq<char>
    decreases n,
{
    if n < 10 {
        seq![digit_char(n)]
    } else {
        digits_of(n / 10).push(digit_char(n % 10))
    }
}

/// The last `width` decimal digits of `n`, with leading zeros.
pub open spec fn padded_digits(n: nat, width: nat) -> Seq<char>
    decreases width,
{
    if width == 0 {
        Seq::empty()
    } else {
        padded_digits(n / 10, (width - 1) as nat).push(digit_char(n % 10))
    }
}

/// A digit string without its trailing zeros.
pub open spec fn trim_zeros(s: Seq<char>) -> Seq<char>
    decreases s.len(),
{
    if s.len() > 0 && s.last() == '0' {
        trim_zeros(s.drop_last())
    } else {
        s
    }
}

/// A fixed-point number with `places` decimals as text: a `-` when it is
/// negative, the whole part, and a point with the fraction digits only when
/// the fraction is not zero, trailing zeros left out (`13.5`, `10`, `-0.25`).
pub open spec fn fixed_text(v: int, places: nat) -> Seq<char> {
    let m = if v < 0 {
        -v
    } else {
        v
    };
    let whole = (m / (pow10(places) as int)) as nat;
    let frac = (m % (pow10(places) as int)) as nat;
    let sign = if v < 0 {
        seq!['-']
    } else {
        Seq::empty()
    };
    if frac == 0 {
        sign + digits_of(whole)
    } else {
        sign + digits_of(whole) + seq!['.'] + trim_zeros(padded_digits(frac, places))
    }
}

pub(crate) fn push_digits(n: u128, out: &mut Vec<char>)
    ensures
        final(out)@ == old(out)@ + digits_of(n as nat),
    decreases n,
{
    if n >= 10 {
        push_digits(n / 10, out);
    }
    out.push(((n % 10) as u8 + 48) as char);
}

fn push_padded(n: u128, width: u32, out: &mut Vec<char>)
    ensures
        final(out)@ == old(out)@ + padded_digits(n as nat, width as nat),
    decreases width,
{
    if width > 0 {
        push_padded(n / 10, width - 1, out);
        out.push(((n % 10) as u8 + 48) as char);
    }
}

/// The decimal text of a natural number.
pub fn decimal_text(n: u64) -> (r: String)
    ensures
        r@ == digits_of(n as nat),
{
    let mut out: Vec<char> = Vec::new();
    push_digits(n as u128, &mut out);
    assert(out@ == Seq::<char>::empty() + digits_of(n as nat));
    string_of(&out)
}

/// A fixed-point number with `places` decimals as text, in the way
/// `fixed_text` describes.
pub fn fixed_point_text(v: i128, places: u32) -> (r: String)
    requires
        places <= 30,
    ensures
        r@ == fixed_text(v as int, places as nat),
{
    let m: u128 = if v < 0 {
        ((-(v + 1)) as u128) + 1
    } else {
        v as u128
    };
    let mut p: u128 = 1;
    let mut k: u32 = 0;
    while k < places
        invariant
            k <= places <= 30,
            p == pow10(k as nat),
        decreases places - k,
    {
        proof {
            lemma_pow10_mono((k + 1) as nat, 30);
            assert(pow10(30) < 0x1_0000_0000_0000_0000_0000_0000_0000_0000) by {
                reveal_with_fuel(pow10, 31);
            }
        }
        p = p * 10;
        k += 1;
    }
    proof {
        lemma_pow10_positive(places as nat);
    }
    let whole = m / p;
    let frac = m % p;
    let mut out: Vec<char> = Vec::new();
    if v < 0 {
        out.push('-');
    }
    push_digits(whole, &mut out);
    if frac != 0 {
        out.push('.');
        let mut fd: Vec<char> = Vec::new();
        push_padded(frac, places, &mut fd);
        let ghost full = fd@;
        assert(fd@ == Seq::<char>::empty() + padded_digits(frac as nat, places as nat));
        while fd.len() > 0 && fd[fd.len() - 1] == '0'
            invariant
                trim_zeros(fd@) == trim_zeros(full),
            decreases fd@.len(),
        {
            fd.pop();
        }
        let mut i: usize = 0;
        let ghost before = out@;
        while i < fd.len()
            invariant
                i <= fd@.len(),
                out@ == before + fd@.take(i as int),
            decreases fd@.len() - i,
        {
            assert(fd@.take(i as int + 1) == fd@.take(i as int).push(fd@[i as int]));
            out.push(fd[i]);
            i += 1;
        }
        assert(fd@.take(fd@.len() as int) == fd@);
        assert(trim_zeros(fd@) == fd@);
    }
    let ghost sign = if v < 0 {
        seq!['-']
    } else {
        Seq::<char>::empty()
    };
    if frac == 0 {
        assert(out@ == sign + digits_of(whole as nat));
    }
    string_of(&out)
}

} // verus!

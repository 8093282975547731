//! Calendar timestamps and their fixed text form.
//!
//! A timestamp is held as plain calendar fields and travels to and from
//! the document store as the text `YYYY-MM-DD HH:MM:SS.fffffffff`.  The
//! parser accepts one to nine fraction digits and the fraction itself
//! may be absent; the formatter always writes nine digits, so the text
//! of a valid timestamp parses back to the same value.

use vstd::prelude::*;

use crate::bytes::{
    all_dec_digits, dec_value, fixed_dec, lemma_fixed_dec,
    lemma_lex_concat_lt, lemma_lex_le_refl, lemma_lex_le_same_prefix, lemma_pow10_adds,
    lemma_pow10_increases, lemma_pow10_values, lex_le, pow10, read_dec,
};

verus! {

/// A calendar date and time, in Coordinated Universal Time.
#[derive(Clone, Copy, Debug, PartialEq, Eq, Structural)]
pub struct Timestamp {
    pub year: u16,
    pub month: u8,
    pub day: u8,
    pub hour: u8,
    pub minute: u8,
    pub second: u8,
    pub nanosecond: u32,
}

/// The Gregorian leap-year rule.
pub open spec fn is_leap_year(y: int) -> bool {
    y % 4 == 0 && (y % 100 != 0 || y % 400 == 0)
}

/// Number of days in a month of the Gregorian calendar.
pub open spec fn days_in_month(y: int, m: int) -> int {
    if m == 2 {
        if is_leap_year(y) {
            29
        } else {
            28
        }
    } else if m == 4 || m == 6 || m == 9 || m == 11 {
        30
    } else {
        31
    }
}

/// Number of days in the given month.
pub fn month_length(year: u16, month: u8) -> (r: u8)
    ensures
        r == days_in_month(year as int, month as int),
{
    if month == 2 {
        if year % 4 == 0 && (year % 100 != 0 || year % 400 == 0) {
            29
        } else {
            28
        }
    } else if month == 4 || month == 6 || month == 9 || month == 11 {
        30
    } else {
        31
    }
}

impl Timestamp {
    /// The fields describe a real calendar instant with four-digit year.
    pub open spec fn valid(self) -> bool {
        &&& self.year <= 9999
        &&& 1 <= self.month <= 12
        &&& 1 <= self.day <= days_in_month(self.year as int, self.month as int)
        &&& self.hour < 24
        &&& self.minute < 60
        &&& self.second < 60
        &&& self.nanosecond < 1_000_000_000
    }

    /// Midnight at the start of the Unix epoch.
    pub fn epoch() -> (r: Timestamp)
        ensures
            r == (Timestamp { year: 1970, month: 1, day: 1, hour: 0, minute: 0, second: 0, nanosecond: 0 }),
            r.valid(),
    {
        Timestamp { year: 1970, month: 1, day: 1, hour: 0, minute: 0, second: 0, nanosecond: 0 }
    }
}

// ---------------------------------------------------------------------
// Text form
// ---------------------------------------------------------------------

/// The canonical text of a timestamp: `YYYY-MM-DD HH:MM:SS.` followed
/// by nine fraction digits.
pub open spec fn timestamp_text(t: Timestamp) -> Seq<u8> {
    fixed_dec(t.year as int, 4) + seq![45u8] + fixed_dec(t.month as int, 2) + seq![45u8]
        + fixed_dec(t.day as int, 2) + seq![32u8] + fixed_dec(t.hour as int, 2) + seq![58u8]
        + fixed_dec(t.minute as int, 2) + seq![58u8] + fixed_dec(t.second as int, 2) + seq![46u8]
        + fixed_dec(t.nanosecond as int, 9)
}

/// The byte string has the shape `YYYY-MM-DD HH:MM:SS` with an optional
/// dot and one to nine fraction digits.
pub open spec fn ts_shape(s: Seq<u8>) -> bool {
    &&& 19 <= s.len() <= 29
    &&& s.len() != 20
    &&& s[4] == 45 && s[7] == 45 && s[10] == 32 && s[13] == 58 && s[16] == 58
    &&& all_dec_digits(s.subrange(0, 4))
    &&& all_dec_digits(s.subrange(5, 7))
    &&& all_dec_digits(s.subrange(8, 10))
    &&& all_dec_digits(s.subrange(11, 13))
    &&& all_dec_digits(s.subrange(14, 16))
    &&& all_dec_digits(s.subrange(17, 19))
    &&& s.len() > 19 ==> s[19] == 46 && all_dec_digits(s.subrange(20, s.len() as int))
}

/// The timestamp a byte string of the right shape denotes.  Fraction
/// digits are most significant first, so a short fraction is scaled up
/// to nanoseconds.
pub open spec fn ts_of_bytes(s: Seq<u8>) -> Timestamp {
    Timestamp {
        year: dec_value(s.subrange(0, 4)) as u16,
        month: dec_value(s.subrange(5, 7)) as u8,
        day: dec_value(s.subrange(8, 10)) as u8,
        hour: dec_value(s.subrange(11, 13)) as u8,
        minute: dec_value(s.subrange(14, 16)) as u8,
        second: dec_value(s.subrange(17, 19)) as u8,
        nanosecond: if s.len() > 19 {
            (dec_value(s.subrange(20, s.len() as int)) * pow10((9 - (s.len() - 20)) as nat)) as u32
        } else {
            0u32
        },
    }
}

/// The byte string denotes a valid timestamp.
pub open spec fn valid_ts_bytes(s: Seq<u8>) -> bool {
    ts_shape(s) && ts_of_bytes(s).valid()
}

/// The low `width` decimal digits of `n`, zero-padded.
fn fixed_digits(n: u32, width: usize) -> (r: Vec<u8>)
    requires
        width <= 9,
    ensures
        r@ == fixed_dec(n as int, width as nat),
    decreases width,
{
    if width == 0 {
        let r: Vec<u8> = Vec::new();
        proof {
            assert(r@ =~= fixed_dec(n as int, 0));
        }
        r
    } else {
        let mut r = fixed_digits(n / 10, width - 1);
        r.push(48 + (n % 10) as u8);
        proof {
            assert(r@ =~= fixed_dec(n as int, width as nat));
        }
        r
    }
}

/// Formats a timestamp as its canonical text.
pub fn format_timestamp(t: &Timestamp) -> (r: Vec<u8>)
    ensures
        r@ == timestamp_text(*t),
{
    let mut r = fixed_digits(t.year as u32, 4);
    r.push(45);
    let mut part = fixed_digits(t.month as u32, 2);
    crate::bytes::push_all(&mut r, &part);
    r.push(45);
    part = fixed_digits(t.day as u32, 2);
    crate::bytes::push_all(&mut r, &part);
    r.push(32);
    part = fixed_digits(t.hour as u32, 2);
    crate::bytes::push_all(&mut r, &part);
    r.push(58);
    part = fixed_digits(t.minute as u32, 2);
    crate::bytes::push_all(&mut r, &part);
    r.push(58);
    part = fixed_digits(t.second as u32, 2);
    crate::bytes::push_all(&mut r, &part);
    r.push(46);
    part = fixed_digits(t.nanosecond, 9);
    crate::bytes::push_all(&mut r, &part);
    proof {
        assert(r@ =~= timestamp_text(*t));
    }
    r
}

/// Ten to the given power, below ten digits.
fn pow10_u32(k: usize) -> (r: u32)
    requires
        k <= 9,
    ensures
        r == pow10(k as nat),
{
    proof {
        lemma_pow10_values();
    }
    let mut r: u32 = 1;
    let mut i: usize = 0;
    while i < k
        invariant
            0 <= i <= k <= 9,
            r == pow10(i as nat),
        decreases k - i,
    {
        proof {
            lemma_pow10_values();
            lemma_pow10_increases(i as nat, 8);
        }
        r = r * 10;
        i = i + 1;
    }
    r
}

/// Parses the text form of a timestamp.
///
/// Returns `Some` exactly when the bytes have the shape
/// `YYYY-MM-DD HH:MM:SS` with an optional fraction of one to nine
/// digits and the fields form a real calendar instant; the returned
/// timestamp is the denoted one.
pub fn parse_timestamp(s: &Vec<u8>) -> (r: Option<Timestamp>)
    ensures
        match r {
            Some(t) => valid_ts_bytes(s@) && t == ts_of_bytes(s@) && t.valid(),
            None => !valid_ts_bytes(s@),
        },
{
    proof {
        lemma_pow10_values();
    }
    let n = s.len();
    if n < 19 || n > 29 || n == 20 {
        return None;
    }
    if s[4] != 45 || s[7] != 45 || s[10] != 32 || s[13] != 58 || s[16] != 58 {
        return None;
    }
    if !digits_in(s, 0, 4) || !digits_in(s, 5, 7) || !digits_in(s, 8, 10) || !digits_in(s, 11, 13)
        || !digits_in(s, 14, 16) || !digits_in(s, 17, 19) {
        return None;
    }
    if n > 19 {
        if s[19] != 46 {
            return None;
        }
        if !digits_in(s, 20, n) {
            return None;
        }
    }
    let year_v = read_dec(s, 0, 4);
    let month_v = read_dec(s, 5, 7);
    let day_v = read_dec(s, 8, 10);
    let hour_v = read_dec(s, 11, 13);
    let minute_v = read_dec(s, 14, 16);
    let second_v = read_dec(s, 17, 19);
    let nano_v: u32 = if n > 19 {
        let frac = read_dec(s, 20, n);
        let width = n - 20;
        let scale = pow10_u32(9 - width);
        proof {
            lemma_pow10_adds((width) as nat, (9 - width) as nat);
            assert(frac * scale < pow10(9)) by (nonlinear_arith)
                requires
                    frac < pow10(width as nat),
                    scale == pow10((9 - width) as nat),
                    scale > 0,
                    pow10(width as nat) * pow10((9 - width) as nat) == pow10(9),
            ;
            lemma_pow10_values();
        }
        frac * scale
    } else {
        0
    };
    // Field range checks: reject what is no calendar instant.
    if month_v < 1 || month_v > 12 {
        return None;
    }
    if day_v < 1 {
        return None;
    }
    if hour_v > 23 || minute_v > 59 || second_v > 59 {
        return None;
    }
    let year = year_v as u16;
    let month = month_v as u8;
    let day = day_v as u8;
    if day > month_length(year, month) {
        return None;
    }
    let t = Timestamp {
        year,
        month,
        day,
        hour: hour_v as u8,
        minute: minute_v as u8,
        second: second_v as u8,
        nanosecond: nano_v,
    };
    Some(t)
}

/// Checks that `s[from..to]` holds only decimal digits.
fn digits_in(s: &Vec<u8>, from: usize, to: usize) -> (r: bool)
    requires
        from <= to <= s@.len(),
    ensures
        r == all_dec_digits(s@.subrange(from as int, to as int)),
{
    let mut i = from;
    while i < to
        invariant
            from <= i <= to <= s@.len(),
            forall|j: int| from <= j < i ==> crate::bytes::is_dec_digit(#[trigger] s@[j]),
        decreases to - i,
    {
        if s[i] < 48 || s[i] > 57 {
            assert(!crate::bytes::is_dec_digit(s@.subrange(from as int, to as int)[i - from]));
            return false;
        }
        i = i + 1;
    }
    assert forall|j: int| 0 <= j < to - from implies crate::bytes::is_dec_digit(
        #[trigger] s@.subrange(from as int, to as int)[j],
    ) by {
        assert(s@.subrange(from as int, to as int)[j] == s@[from + j]);
    }
    true
}

/// Validates a pair of interval boundaries.
///
/// Both must parse; if either is rejected the whole pair is rejected,
/// and the caller must supply fresh input.
pub fn validate_interval(start: &Vec<u8>, end: &Vec<u8>) -> (r: Option<(Timestamp, Timestamp)>)
    ensures
        match r {
            Some(pair) => valid_ts_bytes(start@) && valid_ts_bytes(end@) && pair.0 == ts_of_bytes(
                start@,
            ) && pair.1 == ts_of_bytes(end@),
            None => !valid_ts_bytes(start@) || !valid_ts_bytes(end@),
        },
{
    match parse_timestamp(start) {
        Some(a) => match parse_timestamp(end) {
            Some(b) => Some((a, b)),
            None => None,
        },
        None => None,
    }
}

/// Strict chronological order of two timestamps, field by field.
pub open spec fn ts_lt(a: Timestamp, b: Timestamp) -> bool {
    if a.year != b.year {
        a.year < b.year
    } else if a.month != b.month {
        a.month < b.month
    } else if a.day != b.day {
        a.day < b.day
    } else if a.hour != b.hour {
        a.hour < b.hour
    } else if a.minute != b.minute {
        a.minute < b.minute
    } else if a.second != b.second {
        a.second < b.second
    } else {
        a.nanosecond < b.nanosecond
    }
}

/// Chronological order, the same instant included.
pub open spec fn ts_le(a: Timestamp, b: Timestamp) -> bool {
    a == b || ts_lt(a, b)
}

/// A strictly earlier timestamp formats to strictly smaller text.
#[verifier::rlimit(100)]
#[verifier::spinoff_prover]
proof fn lemma_timestamp_text_lt(a: Timestamp, b: Timestamp)
    requires
        a.valid(),
        b.valid(),
        ts_lt(a, b),
    ensures
        lex_le(timestamp_text(a), timestamp_text(b)),
        !lex_le(timestamp_text(b), timestamp_text(a)),
{
    lemma_pow10_values();
    lemma_fixed_dec(a.year as int, 4);
    lemma_fixed_dec(a.month as int, 2);
    lemma_fixed_dec(a.day as int, 2);
    lemma_fixed_dec(a.hour as int, 2);
    lemma_fixed_dec(a.minute as int, 2);
    lemma_fixed_dec(a.second as int, 2);
    lemma_fixed_dec(a.nanosecond as int, 9);
    lemma_fixed_dec(b.year as int, 4);
    lemma_fixed_dec(b.month as int, 2);
    lemma_fixed_dec(b.day as int, 2);
    lemma_fixed_dec(b.hour as int, 2);
    lemma_fixed_dec(b.minute as int, 2);
    lemma_fixed_dec(b.second as int, 2);
    lemma_fixed_dec(b.nanosecond as int, 9);
    let ta = timestamp_text(a);
    let tb = timestamp_text(b);
    let ya = fixed_dec(a.year as int, 4);
    let mo_a = fixed_dec(a.month as int, 2);
    let da = fixed_dec(a.day as int, 2);
    let ha = fixed_dec(a.hour as int, 2);
    let mi_a = fixed_dec(a.minute as int, 2);
    let sa = fixed_dec(a.second as int, 2);
    let na = fixed_dec(a.nanosecond as int, 9);
    let yb = fixed_dec(b.year as int, 4);
    let mo_b = fixed_dec(b.month as int, 2);
    let db = fixed_dec(b.day as int, 2);
    let hb = fixed_dec(b.hour as int, 2);
    let mi_b = fixed_dec(b.minute as int, 2);
    let sb = fixed_dec(b.second as int, 2);
    let nb = fixed_dec(b.nanosecond as int, 9);
    if a.year != b.year {
        let ua = seq![45u8] + mo_a + seq![45u8] + da + seq![32u8] + ha + seq![58u8] + mi_a
            + seq![58u8] + sa + seq![46u8] + na;
        let ub = seq![45u8] + mo_b + seq![45u8] + db + seq![32u8] + hb + seq![58u8] + mi_b
            + seq![58u8] + sb + seq![46u8] + nb;
        assert(ta =~= ya + ua);
        assert(tb =~= yb + ub);
        lemma_lex_concat_lt(ya, yb, ua, ub);
    } else if a.month != b.month {
        let x = ya + seq![45u8];
        let ua = seq![45u8] + da + seq![32u8] + ha + seq![58u8] + mi_a + seq![58u8] + sa
            + seq![46u8] + na;
        let ub = seq![45u8] + db + seq![32u8] + hb + seq![58u8] + mi_b + seq![58u8] + sb
            + seq![46u8] + nb;
        assert(ta =~= x + (mo_a + ua));
        assert(tb =~= x + (mo_b + ub));
        lemma_lex_le_same_prefix(x, mo_a + ua, mo_b + ub);
        lemma_lex_le_same_prefix(x, mo_b + ub, mo_a + ua);
        lemma_lex_concat_lt(mo_a, mo_b, ua, ub);
    } else if a.day != b.day {
        let x = ya + seq![45u8] + mo_a + seq![45u8];
        let ua = seq![32u8] + ha + seq![58u8] + mi_a + seq![58u8] + sa + seq![46u8] + na;
        let ub = seq![32u8] + hb + seq![58u8] + mi_b + seq![58u8] + sb + seq![46u8] + nb;
        assert(ta =~= x + (da + ua));
        assert(tb =~= x + (db + ub));
        lemma_lex_le_same_prefix(x, da + ua, db + ub);
        lemma_lex_le_same_prefix(x, db + ub, da + ua);
        lemma_lex_concat_lt(da, db, ua, ub);
    } else if a.hour != b.hour {
        let x = ya + seq![45u8] + mo_a + seq![45u8] + da + seq![32u8];
        let ua = seq![58u8] + mi_a + seq![58u8] + sa + seq![46u8] + na;
        let ub = seq![58u8] + mi_b + seq![58u8] + sb + seq![46u8] + nb;
        assert(ta =~= x + (ha + ua));
        assert(tb =~= x + (hb + ub));
        lemma_lex_le_same_prefix(x, ha + ua, hb + ub);
        lemma_lex_le_same_prefix(x, hb + ub, ha + ua);
        lemma_lex_concat_lt(ha, hb, ua, ub);
    } else if a.minute != b.minute {
        let x = ya + seq![45u8] + mo_a + seq![45u8] + da + seq![32u8] + ha + seq![58u8];
        let ua = seq![58u8] + sa + seq![46u8] + na;
        let ub = seq![58u8] + sb + seq![46u8] + nb;
        assert(ta =~= x + (mi_a + ua));
        assert(tb =~= x + (mi_b + ub));
        lemma_lex_le_same_prefix(x, mi_a + ua, mi_b + ub);
        lemma_lex_le_same_prefix(x, mi_b + ub, mi_a + ua);
        lemma_lex_concat_lt(mi_a, mi_b, ua, ub);
    } else if a.second != b.second {
        let x = ya + seq![45u8] + mo_a + seq![45u8] + da + seq![32u8] + ha + seq![58u8] + mi_a
            + seq![58u8];
        let ua = seq![46u8] + na;
        let ub = seq![46u8] + nb;
        assert(ta =~= x + (sa + ua));
        assert(tb =~= x + (sb + ub));
        lemma_lex_le_same_prefix(x, sa + ua, sb + ub);
        lemma_lex_le_same_prefix(x, sb + ub, sa + ua);
        lemma_lex_concat_lt(sa, sb, ua, ub);
    } else {
        let x = ya + seq![45u8] + mo_a + seq![45u8] + da + seq![32u8] + ha + seq![58u8] + mi_a
            + seq![58u8] + sa + seq![46u8];
        let e = Seq::<u8>::empty();
        assert(ta =~= x + (na + e));
        assert(tb =~= x + (nb + e));
        lemma_lex_le_same_prefix(x, na + e, nb + e);
        lemma_lex_le_same_prefix(x, nb + e, na + e);
        lemma_lex_concat_lt(na, nb, e, e);
    }
}

/// The text order of two valid timestamps is exactly their
/// chronological order: a store that ranges over the stored text
/// selects exactly the records inside the time interval.
pub proof fn lemma_text_order_is_time_order(a: Timestamp, b: Timestamp)
    requires
        a.valid(),
        b.valid(),
    ensures
        lex_le(timestamp_text(a), timestamp_text(b)) == ts_le(a, b),
{
    if a == b {
        lemma_lex_le_refl(timestamp_text(a));
    } else if ts_lt(a, b) {
        lemma_timestamp_text_lt(a, b);
    } else {
        lemma_timestamp_text_lt(b, a);
    }
}

/// The canonical text of a valid timestamp parses back to the same
/// timestamp: formatting loses nothing.
pub proof fn lemma_timestamp_round_trip(t: Timestamp)
    requires
        t.valid(),
    ensures
        valid_ts_bytes(timestamp_text(t)),
        ts_of_bytes(timestamp_text(t)) == t,
{
    let s = timestamp_text(t);
    lemma_fixed_dec(t.year as int, 4);
    lemma_fixed_dec(t.month as int, 2);
    lemma_fixed_dec(t.day as int, 2);
    lemma_fixed_dec(t.hour as int, 2);
    lemma_fixed_dec(t.minute as int, 2);
    lemma_fixed_dec(t.second as int, 2);
    lemma_fixed_dec(t.nanosecond as int, 9);
    lemma_pow10_values();
    assert(s.len() == 29);
    assert(s.subrange(0, 4) =~= fixed_dec(t.year as int, 4));
    assert(s.subrange(5, 7) =~= fixed_dec(t.month as int, 2));
    assert(s.subrange(8, 10) =~= fixed_dec(t.day as int, 2));
    assert(s.subrange(11, 13) =~= fixed_dec(t.hour as int, 2));
    assert(s.subrange(14, 16) =~= fixed_dec(t.minute as int, 2));
    assert(s.subrange(17, 19) =~= fixed_dec(t.second as int, 2));
    assert(s.subrange(20, 29) =~= fixed_dec(t.nanosecond as int, 9));
    assert(ts_of_bytes(s).year == t.year);
    assert(ts_of_bytes(s).month == t.month);
    assert(ts_of_bytes(s).day == t.day);
    assert(ts_of_bytes(s).hour == t.hour);
    assert(ts_of_bytes(s).minute == t.minute);
    assert(ts_of_bytes(s).second == t.second);
    assert(ts_of_bytes(s).nanosecond == t.nanosecond);
}

} // verus!

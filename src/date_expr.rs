//! The two grammars of a date expression: an absolute minute written
//! `YYYY-MM-DD-HH-MM`, and a span `<n><unit>` counted from now.

use vstd::prelude::*;
use vstd::string::StrSliceExecFns;
use crate::timestamp::{
    calendar_micros, day_number, is_calendar_date, is_time_of_day, local_now, wall_clock_micros, Timestamp,
    MICROS_PER_DAY, MICROS_PER_HOUR, MICROS_PER_MINUTE,
};

verus! {

pub open spec fn is_ascii_digit(c: char) -> bool {
    48 <= (c as u32) <= 57
}

pub open spec fn digit_value(c: char) -> int {
    (c as u32) as int - 48
}

pub open spec fn all_digits(s: Seq<char>) -> bool {
    forall|i: int| 0 <= i < s.len() ==> is_ascii_digit(#[trigger] s[i])
}

/// The number that a string of decimal digits writes.
pub open spec fn decimal_value(s: Seq<char>) -> int
    decreases s.len(),
{
    if s.len() == 0 {
        0
    } else {
        decimal_value(s.drop_last()) * 10 + digit_value(s.last())
    }
}

pub open spec fn is_separator_position(i: int) -> bool {
    i == 4 || i == 7 || i == 10 || i == 13
}

/// `YYYY-MM-DD-HH-MM`: sixteen characters, digits with a hyphen after the
/// year, the month, the day and the hour.
pub open spec fn is_absolute_form(s: Seq<char>) -> bool {
    s.len() == 16 && forall|i: int|
        0 <= i < 16 ==> if is_separator_position(i) {
            #[trigger] s[i] == '-'
        } else {
            is_ascii_digit(s[i])
        }
}

/// The minute that an absolute expression names, if the calendar has it.
pub open spec fn absolute_value(s: Seq<char>) -> Option<Timestamp> {
    let y = decimal_value(s.subrange(0, 4));
    let m = decimal_value(s.subrange(5, 7));
    let d = decimal_value(s.subrange(8, 10));
    let h = decimal_value(s.subrange(11, 13));
    let mi = decimal_value(s.subrange(14, 16));
    if is_calendar_date(y, m, d) && is_time_of_day(h, mi) {
        Some(Timestamp { micros: wall_clock_micros(y, m, d, h, mi) as i64 })
    } else {
        None
    }
}

pub open spec fn is_unit(c: char) -> bool {
    c == 'm' || c == 'h' || c == 'd' || c == 'y'
}

/// The length of one unit in microseconds; a year is exactly 365 days.
pub open spec fn unit_micros(c: char) -> int {
    if c == 'm' {
        MICROS_PER_MINUTE as int
    } else if c == 'h' {
        MICROS_PER_HOUR as int
    } else if c == 'd' {
        MICROS_PER_DAY as int
    } else {
        365 * MICROS_PER_DAY
    }
}

/// `<n><unit>`: one or more decimal digits, then a unit letter.
pub open spec fn is_relative_form(s: Seq<char>) -> bool {
    s.len() >= 2 && all_digits(s.drop_last()) && is_unit(s.last())
}

/// `now` moved forward by the span, if the result can be held.
pub open spec fn relative_value(s: Seq<char>, now: Timestamp) -> Option<Timestamp> {
    let t = now.micros + decimal_value(s.drop_last()) * unit_micros(s.last());
    if t <= i64::MAX {
        Some(Timestamp { micros: t as i64 })
    } else {
        None
    }
}

/// What a date expression means when read at `now`; `None` where it is
/// malformed, names no real minute, or lies beyond what a timestamp holds.
pub open spec fn date_expression_value(s: Seq<char>, now: Timestamp) -> Option<Timestamp> {
    if is_absolute_form(s) {
        absolute_value(s)
    } else if is_relative_form(s) {
        relative_value(s, now)
    } else {
        None
    }
}

pub open spec fn pow10(n: nat) -> int
    decreases n,
{
    if n == 0 {
        1
    } else {
        10 * pow10((n - 1) as nat)
    }
}

proof fn lemma_decimal_bounds(s: Seq<char>)
    requires
        all_digits(s),
    ensures
        0 <= decimal_value(s) < pow10(s.len()),
    decreases s.len(),
{
    if s.len() > 0 {
        assert(is_ascii_digit(s[s.len() - 1]));
        assert(all_digits(s.drop_last()));
        lemma_decimal_bounds(s.drop_last());
    }
}

proof fn lemma_decimal_prefix_le(s: Seq<char>, i: int, j: int)
    requires
        0 <= i <= j <= s.len(),
        all_digits(s),
    ensures
        decimal_value(s.subrange(0, i)) <= decimal_value(s.subrange(0, j)),
    decreases j - i,
{
    if i < j {
        lemma_decimal_prefix_le(s, i, j - 1);
        let p = s.subrange(0, j);
        assert(p.drop_last() =~= s.subrange(0, j - 1));
        assert(is_ascii_digit(s[j - 1]));
        assert(all_digits(s.subrange(0, j - 1)));
        lemma_decimal_bounds(s.subrange(0, j - 1));
    }
}

fn digit_at(s: &str, i: usize) -> (r: Option<u32>)
    requires
        i < s@.len(),
    ensures
        r is Some <==> is_ascii_digit(s@[i as int]),
        r is Some ==> r->0 as int == digit_value(s@[i as int]),
{
    let c = s.get_char(i);
    let v = c as u32;
    if 48 <= v && v <= 57 {
        Some(v - 48)
    } else {
        None
    }
}

/// The value of the digits `s[from..to]`, at most four of them.
fn field_value(s: &str, from: usize, to: usize) -> (r: u32)
    requires
        from <= to <= s@.len(),
        to - from <= 4,
        all_digits(s@.subrange(from as int, to as int)),
    ensures
        r as int == decimal_value(s@.subrange(from as int, to as int)),
        r < 10000,
{
    let mut v: u32 = 0;
    let mut i: usize = from;
    while i < to
        invariant
            from <= i <= to <= s@.len(),
            to - from <= 4,
            all_digits(s@.subrange(from as int, to as int)),
            v as int == decimal_value(s@.subrange(from as int, i as int)),
            v < 10000,
        decreases to - i,
    {
        assert(s@.subrange(from as int, to as int)[i - from] == s@[i as int]);
        let d = digit_at(s, i);
        let d = d.unwrap();
        let ghost pre = s@.subrange(from as int, i as int);
        assert(all_digits(pre)) by {
            assert forall|k: int| 0 <= k < pre.len() implies is_ascii_digit(#[trigger] pre[k]) by {
                assert(pre[k] == s@.subrange(from as int, to as int)[k]);
            }
        }
        proof {
            lemma_decimal_bounds(pre);
            assert(pre.len() <= 3);
            reveal_with_fuel(pow10, 4);
            assert(pow10(pre.len()) <= 1000);
        }
        assert(s@.subrange(from as int, i + 1).drop_last() =~= pre);
        v = v * 10 + d;
        i = i + 1;
    }
    v
}

/// The value of the digits `s[0..to]`, or `None` where it exceeds `i64::MAX`.
fn amount_value(s: &str, to: usize) -> (r: Option<u64>)
    requires
        to <= s@.len(),
        all_digits(s@.subrange(0, to as int)),
    ensures
        r is Some ==> r->0 as int == decimal_value(s@.subrange(0, to as int)) && r->0 <= i64::MAX,
        r is None ==> decimal_value(s@.subrange(0, to as int)) > i64::MAX,
{
    let ghost w = s@.subrange(0, to as int);
    let mut v: u64 = 0;
    let mut i: usize = 0;
    while i < to
        invariant
            i <= to <= s@.len(),
            w == s@.subrange(0, to as int),
            all_digits(w),
            v as int == decimal_value(s@.subrange(0, i as int)),
            v <= i64::MAX,
        decreases to - i,
    {
        assert(w[i as int] == s@[i as int]);
        let d = digit_at(s, i).unwrap();
        assert(s@.subrange(0, i + 1).drop_last() =~= s@.subrange(0, i as int));
        assert(w.subrange(0, i + 1) =~= s@.subrange(0, i + 1));
        let lim: u64 = (9223372036854775807u64 - d as u64) / 10;
        if v > lim {
            proof {
                assert(v as int * 10 + d as int > i64::MAX) by (nonlinear_arith)
                    requires
                        v > lim,
                        lim == (9223372036854775807 - d) / 10,
                        0 <= d <= 9,
                ;
                lemma_decimal_prefix_le(w, i + 1, to as int);
                assert(w.subrange(0, to as int) =~= w);
            }
            return None;
        }
        proof {
            assert(v as int * 10 + d as int <= i64::MAX) by (nonlinear_arith)
                requires
                    v <= lim,
                    lim == (9223372036854775807 - d) / 10,
                    0 <= d <= 9,
            ;
        }
        v = v * 10 + d as u64;
        i = i + 1;
    }
    Some(v)
}

fn unit_length(c: char) -> (r: Option<i64>)
    ensures
        r is Some <==> is_unit(c),
        r is Some ==> r->0 as int == unit_micros(c),
{
    if c == 'm' {
        Some(MICROS_PER_MINUTE)
    } else if c == 'h' {
        Some(MICROS_PER_HOUR)
    } else if c == 'd' {
        Some(MICROS_PER_DAY)
    } else if c == 'y' {
        Some(365 * MICROS_PER_DAY)
    } else {
        None
    }
}

fn is_absolute(s: &str, n: usize) -> (r: bool)
    requires
        n == s@.len(),
    ensures
        r == is_absolute_form(s@),
{
    if n != 16 {
        return false;
    }
    let mut i: usize = 0;
    while i < 16
        invariant
            n == s@.len() == 16,
            i <= 16,
            forall|k: int|
                0 <= k < i ==> if is_separator_position(k) {
                    #[trigger] s@[k] == '-'
                } else {
                    is_ascii_digit(s@[k])
                },
        decreases 16 - i,
    {
        let c = s.get_char(i);
        if i == 4 || i == 7 || i == 10 || i == 13 {
            if c != '-' {
                return false;
            }
        } else {
            let v = c as u32;
            if !(48 <= v && v <= 57) {
                return false;
            }
        }
        i = i + 1;
    }
    true
}

fn absolute_timestamp(s: &str) -> (r: Option<Timestamp>)
    requires
        is_absolute_form(s@),
    ensures
        r == absolute_value(s@),
{
    proof {
        let t = s@;
        assert forall|a: int, b: int, k: int|
            (a == 0 && b == 4 || a == 5 && b == 7 || a == 8 && b == 10 || a == 11 && b == 13 || a
                == 14 && b == 16) && 0 <= k < b - a implies is_ascii_digit(
            #[trigger] t.subrange(a, b)[k],
        ) by {
            assert(t.subrange(a, b)[k] == t[a + k]);
            assert(!is_separator_position(a + k));
        }
        assert(all_digits(t.subrange(0, 4)));
        assert(all_digits(t.subrange(5, 7)));
        assert(all_digits(t.subrange(8, 10)));
        assert(all_digits(t.subrange(11, 13)));
        assert(all_digits(t.subrange(14, 16)));
    }
    let year = field_value(s, 0, 4);
    let month = field_value(s, 5, 7);
    let day = field_value(s, 8, 10);
    let hour = field_value(s, 11, 13);
    let minute = field_value(s, 14, 16);
    match calendar_micros(year as i32, month, day, hour, minute) {
        Some(micros) => Some(Timestamp { micros }),
        None => None,
    }
}

fn relative_timestamp(s: &str, n: usize, now: Timestamp) -> (r: Option<Timestamp>)
    requires
        n == s@.len(),
        is_relative_form(s@),
    ensures
        r == relative_value(s@, now),
{
    let unit = unit_length(s.get_char(n - 1)).unwrap();
    assert(s@.subrange(0, n - 1) =~= s@.drop_last());
    match amount_value(s, n - 1) {
        None => {
            proof {
                let a = decimal_value(s@.drop_last());
                let u = unit_micros(s@.last());
                assert(now.micros + a * u > i64::MAX) by (nonlinear_arith)
                    requires
                        a > i64::MAX,
                        u >= 2,
                        now.micros >= i64::MIN,
                ;
            }
            None
        },
        Some(amount) => {
            proof {
                assert(amount as int * unit as int <= 9223372036854775807 * 31536000000000)
                    by (nonlinear_arith)
                    requires
                        0 <= amount <= 9223372036854775807,
                        0 <= unit <= 31536000000000,
                ;
            }
            let t: i128 = now.micros as i128 + amount as i128 * unit as i128;
            if t <= i64::MAX as i128 {
                Some(Timestamp { micros: t as i64 })
            } else {
                None
            }
        },
    }
}

/// Reads a date expression at the given `now`.
pub fn parse_date_str_at(date_str: &str, now: Timestamp) -> (r: Option<Timestamp>)
    ensures
        r == date_expression_value(date_str@, now),
{
    let n = date_str.unicode_len();
    if is_absolute(date_str, n) {
        absolute_timestamp(date_str)
    } else if n >= 2 && unit_length(date_str.get_char(n - 1)).is_some() {
        let ghost body = date_str@.drop_last();
        let mut i: usize = 0;
        while i < n - 1
            invariant
                n == date_str@.len() >= 2,
                i <= n - 1,
                body == date_str@.drop_last(),
                !is_absolute_form(date_str@),
                forall|k: int| 0 <= k < i ==> is_ascii_digit(#[trigger] body[k]),
            decreases n - 1 - i,
        {
            if digit_at(date_str, i).is_none() {
                assert(!is_ascii_digit(body[i as int]));
                return None;
            }
            i = i + 1;
        }
        relative_timestamp(date_str, n, now)
    } else {
        None
    }
}

/// Reads a date expression against the local clock. An absolute expression
/// does not depend on the clock; a relative one is read at some instant.
pub fn parse_date_str(date_str: &str) -> (r: Option<Timestamp>)
    ensures
        exists|now: Timestamp| r == date_expression_value(date_str@, now),
        is_absolute_form(date_str@) ==> r == absolute_value(date_str@),
        !is_absolute_form(date_str@) && !is_relative_form(date_str@) ==> r is None,
{
    let now = local_now();
    parse_date_str_at(date_str, now)
}

/// An absolute expression that names a real minute is read as exactly that
/// minute, with zero seconds, whatever the clock says.
pub proof fn lemma_absolute_exact(s: Seq<char>, now: Timestamp)
    requires
        is_absolute_form(s),
        is_calendar_date(
            decimal_value(s.subrange(0, 4)),
            decimal_value(s.subrange(5, 7)),
            decimal_value(s.subrange(8, 10)),
        ),
        is_time_of_day(decimal_value(s.subrange(11, 13)), decimal_value(s.subrange(14, 16))),
    ensures
        date_expression_value(s, now) == Some(
            Timestamp {
                micros: wall_clock_micros(
                    decimal_value(s.subrange(0, 4)),
                    decimal_value(s.subrange(5, 7)),
                    decimal_value(s.subrange(8, 10)),
                    decimal_value(s.subrange(11, 13)),
                    decimal_value(s.subrange(14, 16)),
                ) as i64,
            },
        ),
        wall_clock_micros(
            decimal_value(s.subrange(0, 4)),
            decimal_value(s.subrange(5, 7)),
            decimal_value(s.subrange(8, 10)),
            decimal_value(s.subrange(11, 13)),
            decimal_value(s.subrange(14, 16)),
        ) % MICROS_PER_MINUTE as int == 0,
{
    let y = decimal_value(s.subrange(0, 4));
    let m = decimal_value(s.subrange(5, 7));
    let d = decimal_value(s.subrange(8, 10));
    let h = decimal_value(s.subrange(11, 13));
    let mi = decimal_value(s.subrange(14, 16));
    let k = (day_number(y, m, d) * 24 + h) * 60 + mi;
    assert((k * 60000000) % 60000000 == 0) by (nonlinear_arith);
}

/// An absolute expression whose month, day, hour or minute does not exist
/// is refused: it is never clamped or carried into the next field.
pub proof fn lemma_invalid_calendar_fails(s: Seq<char>, now: Timestamp)
    requires
        is_absolute_form(s),
        !(is_calendar_date(
            decimal_value(s.subrange(0, 4)),
            decimal_value(s.subrange(5, 7)),
            decimal_value(s.subrange(8, 10)),
        ) && is_time_of_day(decimal_value(s.subrange(11, 13)), decimal_value(s.subrange(14, 16)))),
    ensures
        date_expression_value(s, now) is None,
{
}

/// A relative expression `<n><unit>` is read as `now` moved forward by `n`
/// units, a year being exactly 365 days.
pub proof fn lemma_relative_offset(s: Seq<char>, now: Timestamp)
    requires
        is_relative_form(s),
        now.micros + decimal_value(s.drop_last()) * unit_micros(s.last()) <= i64::MAX,
    ensures
        date_expression_value(s, now) == Some(
            Timestamp {
                micros: (now.micros + decimal_value(s.drop_last()) * unit_micros(s.last())) as i64,
            },
        ),
        s.last() == 'y' ==> unit_micros(s.last()) == 365 * unit_micros('d'),
{
    assert(!is_absolute_form(s)) by {
        if is_absolute_form(s) {
            assert(s.last() == s[15]);
            assert(is_ascii_digit(s[15]));
        }
    }
}

/// A text that follows neither grammar is refused.
pub proof fn lemma_malformed_fails(s: Seq<char>, now: Timestamp)
    requires
        !is_absolute_form(s),
        !is_relative_form(s),
    ensures
        date_expression_value(s, now) is None,
{
}

} // verus!

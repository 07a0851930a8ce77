//! Millisecond timestamps of the one shape `YYYY-MM-DDTHH:MM:SS.sssZ`.

use vstd::prelude::*;

use crate::text::{chars_of, digit, digit_text, Text};

verus! {

/// The value of a decimal digit.
pub open spec fn digit_value(c: char) -> Option<int> {
    if '0' as int <= c as int && c as int <= '9' as int {
        Some(c as int - '0' as int)
    } else {
        None
    }
}

/// The value of `n` digits of a text from place `i` on.
pub open spec fn number_at(t: Text, i: int, n: nat) -> Option<int>
    decreases n,
{
    if n == 0 {
        Some(0)
    } else {
        match (number_at(t, i, (n - 1) as nat), digit_value(t[i + n - 1])) {
            (Some(v), Some(d)) => Some(v * 10 + d),
            _ => None,
        }
    }
}

/// Whether a year has a twenty-ninth of February.
pub open spec fn leap(y: int) -> bool {
    y % 4 == 0 && (y % 100 != 0 || y % 400 == 0)
}

/// How many days a month has.
pub open spec fn month_days(y: int, m: int) -> int {
    if m == 2 {
        if leap(y) { 29 } else { 28 }
    } else if m == 4 || m == 6 || m == 9 || m == 11 {
        30
    } else {
        31
    }
}

/// How many days of the year lie before a month.
pub open spec fn days_before_month(y: int, m: int) -> int
    decreases m,
{
    if m <= 1 {
        0
    } else {
        days_before_month(y, m - 1) + month_days(y, m - 1)
    }
}

/// How many days lie between the first day of year 0 and that of year `y`.
pub open spec fn days_before_year(y: int) -> int {
    365 * y + (y + 3) / 4 - (y + 99) / 100 + (y + 399) / 400
}

/// How many days lie between the first day of year 0 and that of 1970.
pub open spec fn epoch_days() -> int {
    719528
}

/// The instant of a calendar date and time, in milliseconds since 1970.
pub open spec fn instant(y: int, mo: int, d: int, h: int, mi: int, s: int, ms: int) -> int {
    (((days_before_year(y) + days_before_month(y, mo) + d - 1 - epoch_days()) * 24 + h) * 60 + mi)
        * 60000 + s * 1000 + ms
}

/// Whether the marks between the numbers of a timestamp stand where they must.
pub open spec fn punctuated(t: Text) -> bool {
    &&& t.len() == 24
    &&& t[4] == '-'
    &&& t[7] == '-'
    &&& t[10] == 'T'
    &&& t[13] == ':'
    &&& t[16] == ':'
    &&& t[19] == '.'
    &&& t[23] == 'Z'
}

/// The instant a timestamp names, if it is one.
pub open spec fn iso_value(t: Text) -> Option<int> {
    if !punctuated(t) {
        None
    } else {
        match (
            number_at(t, 0, 4),
            number_at(t, 5, 2),
            number_at(t, 8, 2),
            number_at(t, 11, 2),
            number_at(t, 14, 2),
            number_at(t, 17, 2),
            number_at(t, 20, 3),
        ) {
            (Some(y), Some(mo), Some(d), Some(h), Some(mi), Some(s), Some(ms)) => {
                if 1 <= mo <= 12 && 1 <= d <= month_days(y, mo) && h < 24 && mi < 60 && s < 60 {
                    Some(instant(y, mo, d, h, mi, s, ms))
                } else {
                    None
                }
            },
            _ => None,
        }
    }
}

fn digit_of(c: char) -> (r: Option<u32>)
    ensures
        match r {
            Some(d) => digit_value(c) == Some(d as int) && d < 10,
            None => digit_value(c) is None,
        },
{
    let n: u32 = c as u32;
    if 48 <= n && n <= 57 {
        Some(n - 48)
    } else {
        None
    }
}

proof fn lemma_number_bound(t: Text, i: int, n: nat)
    ensures
        number_at(t, i, n) matches Some(v) ==> v >= 0,
    decreases n,
{
    if n > 0 {
        lemma_number_bound(t, i, (n - 1) as nat);
    }
}

/// The value of `n` digits from place `i` on.
fn number(t: &Vec<char>, i: usize, n: usize) -> (r: Option<u32>)
    requires
        i + n <= t.len(),
        n <= 4,
    ensures
        match r {
            Some(v) => number_at(t@, i as int, n as nat) == Some(v as int) && v < 10000,
            None => number_at(t@, i as int, n as nat) is None,
        },
{
    let mut v: u32 = 0;
    let mut k: usize = 0;
    while k < n
        invariant
            k <= n <= 4,
            i + n <= t.len(),
            number_at(t@, i as int, k as nat) == Some(v as int),
            k == 0 ==> v < 1,
            k == 1 ==> v < 10,
            k == 2 ==> v < 100,
            k == 3 ==> v < 1000,
            k == 4 ==> v < 10000,
        decreases n - k,
    {
        match digit_of(t[i + k]) {
            Some(d) => {
                v = v * 10 + d;
            },
            None => {
                proof {
                    lemma_number_none(t@, i as int, k as nat, n as nat);
                }
                return None;
            },
        }
        k = k + 1;
    }
    Some(v)
}

proof fn lemma_number_none(t: Text, i: int, k: nat, n: nat)
    requires
        k < n,
        digit_value(t[i + k]) is None,
    ensures
        number_at(t, i, n) is None,
    decreases n,
{
    if k < n - 1 {
        lemma_number_none(t, i, k, (n - 1) as nat);
    }
}

fn is_leap(y: u32) -> (r: bool)
    ensures
        r == leap(y as int),
{
    y % 4 == 0 && (y % 100 != 0 || y % 400 == 0)
}

fn days_in_month(y: u32, m: u32) -> (r: u32)
    ensures
        r as int == month_days(y as int, m as int),
        28 <= r <= 31,
{
    if m == 2 {
        if is_leap(y) {
            29
        } else {
            28
        }
    } else if m == 4 || m == 6 || m == 9 || m == 11 {
        30
    } else {
        31
    }
}

fn before_month(y: u32, m: u32) -> (r: u32)
    requires
        1 <= m <= 13,
    ensures
        r as int == days_before_month(y as int, m as int),
        r <= 31 * (m - 1),
{
    let mut k: u32 = 1;
    let mut n: u32 = 0;
    while k < m
        invariant
            1 <= k <= m <= 13,
            n as int == days_before_month(y as int, k as int),
            n <= 31 * (k - 1),
        decreases m - k,
    {
        n = n + days_in_month(y, k);
        k = k + 1;
    }
    n
}

fn before_year(y: u32) -> (r: i64)
    requires
        y <= 10000,
    ensures
        r as int == days_before_year(y as int),
        0 <= r <= 4000000,
{
    let n: i64 = y as i64;
    365 * n + (n + 3) / 4 - (n + 99) / 100 + (n + 399) / 400
}

/// The instant a timestamp names, in milliseconds since 1970, if it is one.
pub fn parse_iso_millis(value: &str) -> (r: Option<i64>)
    ensures
        match r {
            Some(ms) => iso_value(value@) == Some(ms as int),
            None => iso_value(value@) is None,
        },
{
    let t = chars_of(value);
    if t.len() != 24 {
        return None;
    }
    if t[4] != '-' || t[7] != '-' || t[10] != 'T' || t[13] != ':' || t[16] != ':' || t[19] != '.'
        || t[23] != 'Z' {
        return None;
    }
    let y = number(&t, 0, 4);
    let mo = number(&t, 5, 2);
    let d = number(&t, 8, 2);
    let h = number(&t, 11, 2);
    let mi = number(&t, 14, 2);
    let s = number(&t, 17, 2);
    let ms = number(&t, 20, 3);
    match (y, mo, d, h, mi, s, ms) {
        (Some(y), Some(mo), Some(d), Some(h), Some(mi), Some(s), Some(ms)) => {
            if 1 <= mo && mo <= 12 && 1 <= d && d <= days_in_month(y, mo) && h < 24 && mi < 60 && s
                < 60 {
                let day: i64 = before_year(y) + before_month(y, mo) as i64 + d as i64 - 1 - 719528;
                Some(((day * 24 + h as i64) * 60 + mi as i64) * 60000 + s as i64 * 1000 + ms as i64)
            } else {
                None
            }
        },
        _ => None,
    }
}

// ---------------------------------------------------------------------------
// Writing
// ---------------------------------------------------------------------------

/// The year a day falls in, days counted from the first of year 0.
pub open spec fn year_of(day: int) -> int {
    choose|y: int| 0 <= y && days_before_year(y) <= day < #[trigger] days_before_year(y + 1)
}

/// The month a day of a year falls in.
pub open spec fn month_of(y: int, day: int) -> int {
    choose|m: int|
        1 <= m <= 12 && days_before_month(y, m) <= day < #[trigger] days_before_month(y, m + 1)
}

/// Whether an instant falls in the years a timestamp can name.
pub open spec fn nameable(ms: int) -> bool {
    0 <= ms / 86400000 + epoch_days() < days_before_year(10000)
}

/// The timestamp of an instant.
pub open spec fn iso_text(ms: int) -> Text {
    let day = ms / 86400000 + epoch_days();
    let y = year_of(day);
    let rest = day - days_before_year(y);
    let mo = month_of(y, rest);
    let d = rest - days_before_month(y, mo) + 1;
    let clock = ms % 86400000;
    stamp(
        y,
        mo,
        d,
        clock / 3600000,
        clock / 60000 % 60,
        clock / 1000 % 60,
        clock % 1000,
    )
}

/// A calendar date and time written as a timestamp.
pub open spec fn stamp(y: int, mo: int, d: int, h: int, mi: int, s: int, ms: int) -> Text {
    seq![
        digit((y / 1000) as nat),
        digit((y / 100 % 10) as nat),
        digit((y / 10 % 10) as nat),
        digit((y % 10) as nat),
        '-',
        digit((mo / 10) as nat),
        digit((mo % 10) as nat),
        '-',
        digit((d / 10) as nat),
        digit((d % 10) as nat),
        'T',
        digit((h / 10) as nat),
        digit((h % 10) as nat),
        ':',
        digit((mi / 10) as nat),
        digit((mi % 10) as nat),
        ':',
        digit((s / 10) as nat),
        digit((s % 10) as nat),
        '.',
        digit((ms / 100) as nat),
        digit((ms / 10 % 10) as nat),
        digit((ms % 10) as nat),
        'Z',
    ]
}

proof fn lemma_years_ascend(a: int, b: int)
    requires
        0 <= a <= b,
    ensures
        days_before_year(a) <= days_before_year(b),
    decreases b - a,
{
    if a < b {
        lemma_years_ascend(a, b - 1);
    }
}

proof fn lemma_months_ascend(y: int, a: int, b: int)
    requires
        1 <= a <= b,
    ensures
        days_before_month(y, a) <= days_before_month(y, b),
    decreases b - a,
{
    if a < b {
        lemma_months_ascend(y, a, b - 1);
    }
}

proof fn lemma_year_length(y: int)
    requires
        0 <= y,
    ensures
        days_before_year(y + 1) - days_before_year(y) == days_before_month(y, 13),
{
    reveal_with_fuel(days_before_month, 14);
}

proof fn lemma_year_of(day: int, y: int)
    requires
        0 <= y,
        days_before_year(y) <= day < days_before_year(y + 1),
    ensures
        year_of(day) == y,
{
    let z = year_of(day);
    assert(0 <= z && days_before_year(z) <= day < days_before_year(z + 1));
    if z < y {
        lemma_years_ascend(z + 1, y);
    } else if y < z {
        lemma_years_ascend(y + 1, z);
    }
}

proof fn lemma_month_of(y: int, day: int, m: int)
    requires
        1 <= m <= 12,
        days_before_month(y, m) <= day < days_before_month(y, m + 1),
    ensures
        month_of(y, day) == m,
{
    let z = month_of(y, day);
    assert(1 <= z <= 12 && days_before_month(y, z) <= day < days_before_month(y, z + 1));
    if z < m {
        lemma_months_ascend(y, z + 1, m);
    } else if m < z {
        lemma_months_ascend(y, m + 1, z);
    }
}

proof fn lemma_digit(n: int)
    requires
        0 <= n < 10,
    ensures
        digit_value(digit(n as nat)) == Some(n),
{
}

proof fn lemma_stamp_value(y: int, mo: int, d: int, h: int, mi: int, s: int, ms: int)
    requires
        0 <= y < 10000,
        1 <= mo <= 12,
        1 <= d <= month_days(y, mo),
        0 <= h < 24,
        0 <= mi < 60,
        0 <= s < 60,
        0 <= ms < 1000,
    ensures
        iso_value(stamp(y, mo, d, h, mi, s, ms)) == Some(instant(y, mo, d, h, mi, s, ms)),
{
    let t = stamp(y, mo, d, h, mi, s, ms);
    lemma_four(t, 0, y);
    lemma_two(t, 5, mo);
    lemma_two(t, 8, d);
    lemma_two(t, 11, h);
    lemma_two(t, 14, mi);
    lemma_two(t, 17, s);
    lemma_three(t, 20, ms);
}

proof fn lemma_two(t: Text, i: int, n: int)
    requires
        0 <= n < 100,
        t[i] == digit((n / 10) as nat),
        t[i + 1] == digit((n % 10) as nat),
    ensures
        number_at(t, i, 2) == Some(n),
{
    lemma_digit(n / 10);
    lemma_digit(n % 10);
    reveal_with_fuel(number_at, 3);
}

proof fn lemma_three(t: Text, i: int, n: int)
    requires
        0 <= n < 1000,
        t[i] == digit((n / 100) as nat),
        t[i + 1] == digit((n / 10 % 10) as nat),
        t[i + 2] == digit((n % 10) as nat),
    ensures
        number_at(t, i, 3) == Some(n),
{
    lemma_digit(n / 100);
    lemma_digit(n / 10 % 10);
    lemma_digit(n % 10);
    reveal_with_fuel(number_at, 4);
}

proof fn lemma_four(t: Text, i: int, n: int)
    requires
        0 <= n < 10000,
        t[i] == digit((n / 1000) as nat),
        t[i + 1] == digit((n / 100 % 10) as nat),
        t[i + 2] == digit((n / 10 % 10) as nat),
        t[i + 3] == digit((n % 10) as nat),
    ensures
        number_at(t, i, 4) == Some(n),
{
    lemma_digit(n / 1000);
    lemma_digit(n / 100 % 10);
    lemma_digit(n / 10 % 10);
    lemma_digit(n % 10);
    reveal_with_fuel(number_at, 5);
}

/// The year and month of a day exist.
proof fn lemma_calendar(day: int) -> (r: (int, int))
    requires
        0 <= day < days_before_year(10000),
    ensures
        0 <= r.0 < 10000,
        days_before_year(r.0) <= day < days_before_year(r.0 + 1),
        1 <= r.1 <= 12,
        days_before_month(r.0, r.1) <= day - days_before_year(r.0) < days_before_month(
            r.0,
            r.1 + 1,
        ),
{
    let y = lemma_find_year(day, 0);
    lemma_year_length(y);
    let m = lemma_find_month(y, day - days_before_year(y), 1);
    (y, m)
}

proof fn lemma_find_year(day: int, y: int) -> (r: int)
    requires
        0 <= y < 10000,
        days_before_year(y) <= day < days_before_year(10000),
    ensures
        0 <= r < 10000,
        days_before_year(r) <= day < days_before_year(r + 1),
    decreases 10000 - y,
{
    if day < days_before_year(y + 1) {
        y
    } else {
        lemma_find_year(day, y + 1)
    }
}

proof fn lemma_find_month(y: int, day: int, m: int) -> (r: int)
    requires
        1 <= m <= 12,
        days_before_month(y, m) <= day < days_before_month(y, 13),
    ensures
        1 <= r <= 12,
        days_before_month(y, r) <= day < days_before_month(y, r + 1),
    decreases 13 - m,
{
    if day < days_before_month(y, m + 1) {
        m
    } else {
        lemma_find_month(y, day, m + 1)
    }
}

/// The parts of a day's clock make up the clock again.
proof fn lemma_clock(clock: int)
    requires
        0 <= clock < 86400000,
    ensures
        0 <= clock / 3600000 < 24,
        0 <= clock / 60000 % 60 < 60,
        0 <= clock / 1000 % 60 < 60,
        0 <= clock % 1000 < 1000,
        (clock / 3600000 * 60 + clock / 60000 % 60) * 60000 + clock / 1000 % 60 * 1000 + clock
            % 1000 == clock,
{
}

/// A timestamp written for an instant reads back as that instant.
pub proof fn law_timestamp_round_trip(ms: int)
    requires
        nameable(ms),
    ensures
        iso_value(iso_text(ms)) == Some(ms),
{
    let day = ms / 86400000 + epoch_days();
    let (y, m) = lemma_calendar(day);
    let rest = day - days_before_year(y);
    lemma_year_of(day, y);
    lemma_month_of(y, rest, m);
    let clock = ms % 86400000;
    let d = rest - days_before_month(y, m) + 1;
    lemma_clock(clock);
    assert(days_before_month(y, m + 1) == days_before_month(y, m) + month_days(y, m));
    let h = clock / 3600000;
    let mi = clock / 60000 % 60;
    let s = clock / 1000 % 60;
    let f = clock % 1000;
    assert(iso_text(ms) == stamp(y, m, d, h, mi, s, f));
    assert(instant(y, m, d, h, mi, s, f) == ms) by {
        assert(days_before_year(y) + days_before_month(y, m) + d - 1 - epoch_days() == ms
            / 86400000);
    }
    lemma_stamp_value(y, m, d, h, mi, s, f);
}

fn push_digit(s: &mut String, n: u32)
    requires
        n < 10,
    ensures
        final(s)@ == old(s)@.push(digit(n as nat)),
{
    s.append(digit_text(n as u64));
    proof {
        assert(s@ =~= old(s)@.push(digit(n as nat)));
    }
}

fn push_two(s: &mut String, n: u32)
    requires
        n < 100,
    ensures
        final(s)@ == old(s)@.push(digit((n as int / 10) as nat)).push(digit((n as int % 10) as nat)),
{
    push_digit(s, n / 10);
    push_digit(s, n % 10);
}

fn push_mark(s: &mut String, mark: &'static str, Ghost(c): Ghost<char>)
    requires
        mark@ == seq![c],
    ensures
        final(s)@ == old(s)@.push(c),
{
    s.append(mark);
    proof {
        assert(s@ =~= old(s)@.push(c));
    }
}

fn write_stamp(y: u32, m: u32, d: u32, h: u32, mi: u32, s: u32, f: u32) -> (r: String)
    requires
        y < 10000,
        m < 100,
        d < 100,
        h < 100,
        mi < 100,
        s < 100,
        f < 1000,
    ensures
        r@ == stamp(y as int, m as int, d as int, h as int, mi as int, s as int, f as int),
{
    proof {
        reveal_strlit("-");
        reveal_strlit("T");
        reveal_strlit(":");
        reveal_strlit(".");
        reveal_strlit("Z");
        assert("-"@ =~= seq!['-']);
        assert("T"@ =~= seq!['T']);
        assert(":"@ =~= seq![':']);
        assert("."@ =~= seq!['.']);
        assert("Z"@ =~= seq!['Z']);
    }
    let mut out = String::new();
    push_digit(&mut out, y / 1000);
    push_digit(&mut out, y / 100 % 10);
    push_digit(&mut out, y / 10 % 10);
    push_digit(&mut out, y % 10);
    push_mark(&mut out, "-", Ghost('-'));
    push_two(&mut out, m);
    push_mark(&mut out, "-", Ghost('-'));
    push_two(&mut out, d);
    push_mark(&mut out, "T", Ghost('T'));
    push_two(&mut out, h);
    push_mark(&mut out, ":", Ghost(':'));
    push_two(&mut out, mi);
    push_mark(&mut out, ":", Ghost(':'));
    push_two(&mut out, s);
    push_mark(&mut out, ".", Ghost('.'));
    push_digit(&mut out, f / 100);
    push_digit(&mut out, f / 10 % 10);
    push_digit(&mut out, f % 10);
    push_mark(&mut out, "Z", Ghost('Z'));
    out
}

/// The timestamp of an instant, milliseconds since 1970; nothing where no
/// timestamp names it.
pub fn iso_millis(ms: i64) -> (r: Option<String>)
    ensures
        match r {
            Some(t) => nameable(ms as int) && t@ == iso_text(ms as int),
            None => !nameable(ms as int),
        },
{
    if ms < -62167219200000 || ms >= 253402300800000 {
        return None;
    }
    let shifted: i64 = ms + 62167219200000;
    let day: i64 = shifted / 86400000;
    let clock: i64 = shifted % 86400000;
    proof {
        assert(day as int == ms as int / 86400000 + epoch_days());
        assert(clock as int == ms as int % 86400000);
        let _ = lemma_calendar(day as int);
    }
    let mut y: u32 = 0;
    while before_year(y + 1) <= day
        invariant
            y < 10000,
            days_before_year(y as int) <= day < days_before_year(10000),
        decreases 10000 - y,
    {
        y = y + 1;
        proof {
            if y == 10000 {
                assert(false);
            }
        }
    }
    let rest: i64 = day - before_year(y);
    proof {
        lemma_year_of(day as int, y as int);
        lemma_year_length(y as int);
    }
    let mut m: u32 = 1;
    while before_month(y, m + 1) as i64 <= rest
        invariant
            1 <= m <= 12,
            days_before_month(y as int, m as int) <= rest < days_before_month(y as int, 13),
        decreases 13 - m,
    {
        m = m + 1;
        proof {
            if m == 13 {
                assert(false);
            }
        }
    }
    proof {
        lemma_month_of(y as int, rest as int, m as int);
        assert(days_before_month(y as int, m + 1) == days_before_month(y as int, m as int)
            + month_days(y as int, m as int));
    }
    let d: u32 = (rest - before_month(y, m) as i64 + 1) as u32;
    let h: u32 = (clock / 3600000) as u32;
    let mi: u32 = (clock / 60000 % 60) as u32;
    let s: u32 = (clock / 1000 % 60) as u32;
    let f: u32 = (clock % 1000) as u32;
    Some(write_stamp(y, m, d, h, mi, s, f))
}

} // verus!

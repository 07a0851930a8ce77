//! What a text has to be to be an id, a timestamp or a prompt, and how texts are
//! cut and written.

use vstd::prelude::*;

use crate::isotime::{
    days_before_month, days_before_year, digit_value, instant, iso_value, law_timestamp_round_trip, leap,
    month_days, nameable, number_at,
};
use crate::org_ops::guards::ledger_line;
use crate::org_ops::seeds::{entity_id, is_id_char, names, prompt_template, segment};
use crate::organization_spec::{
    bounded_text, char_bytes, echo_text, text_bytes, MAX_REFUSAL_ECHO_BYTES,
};
use crate::rows::ledger::handoff_deadline;
use crate::text::{
    blank, decimal, digit, is_space, law_blank_trims_to_nothing, skip_back, skip_front, trimmed, Text,
};

verus! {

// ---------------------------------------------------------------------------
// Ids
// ---------------------------------------------------------------------------

/// An id is one to sixty-four characters, each a small letter, a digit or a
/// hyphen, and the first a letter.
pub proof fn law_what_an_id_is(t: Text)
    ensures
        entity_id(t) <==> 0 < t.len() < 65 && 97 <= t[0] as int <= 122 && forall|i: int|
            0 <= i < t.len() ==> 97 <= #[trigger] t[i] as int <= 122 || 48 <= t[i] as int <= 57
                || t[i] as int == 45,
{
    if entity_id(t) {
        assert forall|i: int| 0 <= i < t.len() implies 97 <= #[trigger] t[i] as int <= 122 || 48
            <= t[i] as int <= 57 || t[i] as int == 45 by {}
    }
    if 0 < t.len() < 65 && 97 <= t[0] as int <= 122 && forall|i: int|
        0 <= i < t.len() ==> 97 <= #[trigger] t[i] as int <= 122 || 48 <= t[i] as int <= 57
            || t[i] as int == 45 {
        assert forall|i: int| 0 <= i < t.len() implies is_id_char(
            #[trigger] t[i],
        ) by {
            assert(97 <= t[i] as int <= 122 || 48 <= t[i] as int <= 57 || t[i] as int == 45);
            if t[i] as int == 45 {
                assert(t[i] == '-');
            }
        }
    }
}

/// A longer id is an id where what is added is of its characters and there is room
/// for it: nothing but the length and the characters decides.
pub proof fn law_ids_grow(t: Text, u: Text)
    requires
        entity_id(t),
        entity_id(u),
        t.len() + u.len() <= 64,
    ensures
        entity_id(t + u),
{
    assert forall|i: int| 0 <= i < (t + u).len() implies is_id_char(
        #[trigger] (t + u)[i],
    ) by {
        if i < t.len() {
            assert((t + u)[i] == t[i]);
        } else {
            assert((t + u)[i] == u[i - t.len()]);
        }
    }
}

// ---------------------------------------------------------------------------
// White space
// ---------------------------------------------------------------------------

/// White space is the five controls from tab to carriage return, the space, and
/// the separators of other scripts.
pub proof fn law_what_white_space_is(c: char)
    ensures
        is_space(c) <==> set![
            9int, 10, 11, 12, 13, 32, 133, 160, 5760, 8192, 8193, 8194, 8195, 8196, 8197, 8198, 8199, 8200,
            8201, 8202, 8232, 8233, 8239, 8287, 12288,
        ].contains(c as int),
{
}

proof fn lemma_front(t: Text) -> (n: int)
    ensures
        0 <= n <= t.len(),
        skip_front(t) == t.skip(n),
        blank(t.take(n)),
        skip_front(t).len() > 0 ==> !is_space(skip_front(t)[0]),
    decreases t.len(),
{
    if t.len() > 0 && is_space(t[0]) {
        let u = t.drop_first();
        let n = lemma_front(u);
        assert(u.skip(n) =~= t.skip(n + 1));
        assert forall|i: int| 0 <= i < t.take(n + 1).len() implies is_space(
            #[trigger] t.take(n + 1)[i],
        ) by {
            if i > 0 {
                assert(u.take(n)[i - 1] == t[i]);
            }
        }
        n + 1
    } else {
        assert(t.skip(0) =~= t);
        0
    }
}

proof fn lemma_back(t: Text) -> (n: int)
    ensures
        0 <= n <= t.len(),
        skip_back(t) == t.take(n),
        blank(t.skip(n)),
        skip_back(t).len() > 0 ==> !is_space(skip_back(t).last()),
    decreases t.len(),
{
    if t.len() > 0 && is_space(t.last()) {
        let u = t.drop_last();
        let n = lemma_back(u);
        assert(u.take(n) =~= t.take(n));
        assert forall|i: int| 0 <= i < t.skip(n).len() implies is_space(#[trigger] t.skip(n)[i]) by {
            if i < u.skip(n).len() {
                assert(u.skip(n)[i] == t[n + i]);
            }
        }
        n
    } else {
        assert(t.take(t.len() as int) =~= t);
        t.len() as int
    }
}

/// Trimming takes the white space off either end and nothing else.
pub proof fn law_trimming_takes_the_ends(t: Text)
    ensures
        exists|a: Text, b: Text|
            t == #[trigger] (a + trimmed(t) + b) && blank(a) && blank(b),
        trimmed(t).len() > 0 ==> !is_space(trimmed(t)[0]) && !is_space(trimmed(t).last()),
{
    let n = lemma_front(t);
    let u = skip_front(t);
    let k = lemma_back(u);
    let a = t.take(n);
    let b = u.skip(k);
    assert(t =~= a + trimmed(t) + b);
    if trimmed(t).len() > 0 {
        assert(trimmed(t)[0] == u[0]);
    }
}

/// A line of the history names who acted, without the white space around them, and
/// nobody where there is nothing else.
pub proof fn law_a_line_names_who_acted(act: Text, actor: Text)
    ensures
        blank(actor) ==> ledger_line(act, actor) == act,
        !blank(actor) ==> ledger_line(act, actor) == act + " by "@ + trimmed(actor),
{
    law_blank_trims_to_nothing(actor);
}

// ---------------------------------------------------------------------------
// Numbers
// ---------------------------------------------------------------------------

proof fn lemma_number_front(t: Text, u: Text, n: nat)
    requires
        n <= t.len(),
        n <= u.len(),
        forall|i: int| 0 <= i < n ==> t[i] == u[i],
    ensures
        number_at(t, 0, n) == number_at(u, 0, n),
    decreases n,
{
    if n > 0 {
        lemma_number_front(t, u, (n - 1) as nat);
    }
}

/// A number written in decimal reads back as that number, and none but nought
/// begins with a nought.
pub proof fn law_decimals_are_read_back(n: nat)
    ensures
        decimal(n).len() > 0,
        number_at(decimal(n), 0, decimal(n).len()) == Some(n as int),
        n > 0 ==> decimal(n)[0] != '0',
    decreases n,
{
    reveal_with_fuel(number_at, 2);
    if n < 10 {
        assert(digit_value(digit(n)) == Some(n as int));
    } else {
        law_decimals_are_read_back(n / 10);
        let a = decimal(n / 10);
        let b = decimal(n);
        assert(digit_value(digit(n % 10)) == Some((n % 10) as int));
        lemma_number_front(a, b, a.len());
        assert(b[0] == a[0]);
        assert(b[b.len() - 1] == digit(n % 10));
    }
}

// ---------------------------------------------------------------------------
// Timestamps
// ---------------------------------------------------------------------------

/// A text is a timestamp exactly where it has the twenty-four characters of one:
/// numbers of a day that there is and of a time of day, with the marks between
/// them.
pub proof fn law_what_a_timestamp_is(t: Text)
    ensures
        iso_value(t) is Some <==> {
            &&& t.len() == 24
            &&& t[4] == '-' && t[7] == '-' && t[10] == 'T' && t[13] == ':' && t[16] == ':' && t[19]
                == '.' && t[23] == 'Z'
            &&& number_at(t, 0, 4) is Some
            &&& number_at(t, 5, 2) is Some && 0 < number_at(t, 5, 2)->0 < 13
            &&& number_at(t, 8, 2) is Some && 0 < number_at(t, 8, 2)->0 <= month_days(
                number_at(t, 0, 4)->0,
                number_at(t, 5, 2)->0,
            )
            &&& number_at(t, 11, 2) is Some && number_at(t, 11, 2)->0 <= 23
            &&& number_at(t, 14, 2) is Some && number_at(t, 14, 2)->0 <= 59
            &&& number_at(t, 17, 2) is Some && number_at(t, 17, 2)->0 <= 59
            &&& number_at(t, 20, 3) is Some
        },
        iso_value(t) is Some ==> iso_value(t)->0 == instant(
            number_at(t, 0, 4)->0,
            number_at(t, 5, 2)->0,
            number_at(t, 8, 2)->0,
            number_at(t, 11, 2)->0,
            number_at(t, 14, 2)->0,
            number_at(t, 17, 2)->0,
            number_at(t, 20, 3)->0,
        ),
{
}

/// A number of a text is what its digits say: one more digit is ten times as much
/// and the digit, and where one is no digit there is none.
pub proof fn law_digits_make_a_number(t: Text, i: int, n: nat)
    ensures
        number_at(t, i, 0) == Some(0int),
        number_at(t, i, n + 1) is Some <==> number_at(t, i, n) is Some && 48 <= t[i + n] as int
            <= 57,
        number_at(t, i, n + 1) is Some ==> number_at(t, i, n + 1)->0 == number_at(t, i, n)->0 * 10 + (
        t[i + n] as int - 48),
{
}

/// A month has the days it has: thirty in the fourth, sixth, ninth and eleventh;
/// twenty-eight in the second, and one more in a leap year; thirty-one in any
/// other. A leap year is every fourth, but of the hundredths only every fourth.
pub proof fn law_how_long_a_month_is(y: int, m: int)
    requires
        1 <= m <= 12,
        0 <= y,
    ensures
        m == 2 ==> month_days(y, m) == 28 + (if leap(y) {
            1int
        } else {
            0
        }),
        m == 4 || m == 6 || m == 9 || m == 11 ==> month_days(y, m) == 30,
        m == 1 || m == 3 || m == 5 || m == 7 || m == 8 || m == 10 || m == 12 ==> month_days(y, m)
            == 31,
        leap(y) <==> (y % 4 == 0 && y % 100 != 0) || y % 400 == 0,
        leap(y + 400) == leap(y),
{
}

/// Time begins with the year 1970, and goes on by the millisecond, the second, the
/// minute, the hour and the day.
pub proof fn law_how_time_goes_on(y: int, mo: int, d: int, h: int, mi: int, s: int, ms: int)
    ensures
        instant(1970, 1, 1, 0, 0, 0, 0) == 0,
        instant(y, mo, d, h, mi, s, ms + 1) == instant(y, mo, d, h, mi, s, ms) + 1,
        instant(y, mo, d, h, mi, s + 1, ms) == instant(y, mo, d, h, mi, s, ms) + 1000,
        instant(y, mo, d, h, mi + 1, s, ms) == instant(y, mo, d, h, mi, s, ms) + 60000,
        instant(y, mo, d, h + 1, mi, s, ms) == instant(y, mo, d, h, mi, s, ms) + 3600000,
        instant(y, mo, d + 1, h, mi, s, ms) == instant(y, mo, d, h, mi, s, ms) + 86400000,
{
    assert(days_before_month(1970, 1) == 0);
}

/// The first of a month follows the last of the one before.
pub proof fn law_months_follow(y: int, mo: int, h: int, mi: int, s: int, ms: int)
    requires
        1 <= mo,
    ensures
        instant(y, mo + 1, 1, h, mi, s, ms) == instant(
            y,
            mo,
            month_days(y, mo),
            h,
            mi,
            s,
            ms,
        ) + 86400000,
{
    assert(days_before_month(y, mo + 1) == days_before_month(y, mo) + month_days(y, mo));
}

proof fn lemma_a_year(y: int)
    requires
        0 <= y,
    ensures
        days_before_month(y, 12) == (if leap(y) {
            335int
        } else {
            334
        }),
        days_before_year(y + 1) == days_before_year(y) + (if leap(y) {
            366int
        } else {
            365
        }),
{
    reveal_with_fuel(days_before_month, 13);
}

/// The first of a year follows the last of the one before.
pub proof fn law_years_follow(y: int, h: int, mi: int, s: int, ms: int)
    requires
        0 <= y,
    ensures
        instant(y + 1, 1, 1, h, mi, s, ms) == instant(y, 12, 31, h, mi, s, ms) + 86400000,
{
    lemma_a_year(y);
    assert(days_before_month(y + 1, 1) == 0);
}

/// A handoff is waited for two minutes, where the clock can be read and the
/// end written; else not at all.
pub proof fn law_how_long_a_handoff_is_waited_for(at: Text)
    ensures
        iso_value(at) matches Some(ms) ==> (nameable(ms + 120000) ==> iso_value(
            handoff_deadline(at),
        ) == Some(ms + 120000)),
        iso_value(at) is None || !nameable(iso_value(at)->0 + 120000) ==> handoff_deadline(at)
            == at,
{
    if let Some(ms) = iso_value(at) {
        if nameable(ms + 120000) {
            law_timestamp_round_trip(ms + 120000);
        }
    }
}

// ---------------------------------------------------------------------------
// What a refusal repeats
// ---------------------------------------------------------------------------

proof fn lemma_bytes_ascend(t: Text, k: int)
    requires
        0 <= k <= t.len(),
    ensures
        text_bytes(t.take(k)) <= text_bytes(t),
    decreases t.len(),
{
    if k < t.len() {
        lemma_bytes_ascend(t.drop_last(), k);
        assert(t.drop_last().take(k) =~= t.take(k));
    } else {
        assert(t.take(k) =~= t);
    }
}

proof fn lemma_longest(t: Text, k: int)
    requires
        0 <= k <= t.len(),
        text_bytes(t.take(k)) <= MAX_REFUSAL_ECHO_BYTES,
    ensures
        k <= bounded_text(t).len(),
    decreases t.len(),
{
    if text_bytes(t) > MAX_REFUSAL_ECHO_BYTES {
        if k == t.len() {
            assert(t.take(k) =~= t);
        }
        assert(t.drop_last().take(k) =~= t.take(k));
        lemma_longest(t.drop_last(), k);
    }
}

/// A refusal repeats a value whole and between quotes where it is short enough,
/// and else its longest front that is; a character counts for the bytes it takes.
pub proof fn law_what_a_refusal_repeats(t: Text, k: int, c: char)
    requires
        0 <= k <= t.len(),
    ensures
        text_bytes(t) <= 120 ==> echo_text(t) == "'"@ + t + "'"@,
        text_bytes(t) > 120 ==> echo_text(t) == "'"@ + bounded_text(t) + "'…"@,
        text_bytes(t.take(k)) <= 120 ==> k <= bounded_text(t).len(),
        text_bytes(t.push(c)) == text_bytes(t) + char_bytes(c),
        char_bytes(c) == (if (c as int) < 128 {
            1nat
        } else if (c as int) < 2048 {
            2
        } else if (c as int) < 65536 {
            3
        } else {
            4
        }),
{
    if text_bytes(t.take(k)) <= 120 {
        lemma_longest(t, k);
    }
    assert(t.push(c).drop_last() =~= t);
}

// ---------------------------------------------------------------------------
// Prompts
// ---------------------------------------------------------------------------

/// Any one name without a slash or a backslash makes a prompt template between
/// `prompts/` and `.md`.
pub proof fn law_a_name_makes_a_template(name: Text)
    requires
        !name.contains('/'),
        !name.contains('\\'),
    ensures
        prompt_template("prompts/"@ + name + ".md"@),
{
    reveal_strlit("prompts/");
    reveal_strlit(".md");
    reveal_strlit(".");
    reveal_strlit("..");
    let t = "prompts/"@ + name + ".md"@;
    let n = t.len() as int;
    assert(t[0] == 'p');
    assert(t[n - 1] == 'd');
    assert(t[n - 2] == 'm');
    assert(t[7] == '/');
    assert(t.take(8) =~= "prompts/"@);
    assert(t.skip(n - 3) =~= ".md"@);
    assert(skip_front(t) == t);
    assert(skip_back(t) == t);
    assert(trimmed(t) == t);
    assert forall|i: int| 0 <= i < n && i != 7 implies #[trigger] t[i] != '/' && t[i] != '\\' by {
        if i < 8 {
            assert("prompts/"@[i] == t[i]);
        } else if i < 8 + name.len() {
            assert(name.contains(name[i - 8]));
            assert(t[i] == name[i - 8]);
        } else {
            assert(t[i] == ".md"@[i - 8 - name.len()]);
        }
    }
    assert(!t.contains('\\'));
    assert forall|i: int, j: int| #[trigger] segment(t, i, j) implies names(t.subrange(i, j)) by {
        if i > 0 {
            assert(t[i - 1] == '/');
            assert(i == 8);
            if j < n {
                assert(t[j] == '/');
            }
            assert(j == n);
            let s = t.subrange(i, j);
            assert(s.last() == 'd');
            assert(s.len() >= 3);
        } else {
            if j < n {
                assert(t[j] == '/');
                assert(j == 7);
            } else {
                assert(t[7] != '/');
            }
            let s = t.subrange(i, j);
            assert(s[0] == 'p');
            assert(s.len() == 7);
        }
    }
}

/// Whether a part of a text stands between slashes, or between one and an end.
pub open spec fn a_part(t: Text, i: int, j: int) -> bool {
    &&& 0 <= i <= j <= t.len()
    &&& i == 0 || t[i - 1] == '/'
    &&& j == t.len() || t[j] == '/'
}

/// A prompt template is what is under `prompts/`, ends in `.md`, has no backslash
/// and goes nowhere but down: no part between slashes is empty, `.` or `..`.
pub proof fn law_what_a_template_is(t: Text)
    ensures
        prompt_template(t) <==> {
            &&& t.len() >= 8 && t.take(8) == "prompts/"@
            &&& t.skip(t.len() - 3) == ".md"@
            &&& !t.contains('\\')
            &&& forall|i: int, j: int| #[trigger]
                a_part(t, i, j) ==> t.subrange(i, j).len() > 0 && t.subrange(i, j) != "."@
                    && t.subrange(i, j) != ".."@
        },
{
    reveal_strlit("prompts/");
    reveal_strlit(".md");
    reveal_strlit(".");
    reveal_strlit("..");
    assert("."@.len() == 1 && "."@[0] == '.');
    assert(".."@.len() == 2 && ".."@[0] == '.' && ".."@[1] == '.');
    if prompt_template(t) {
        assert forall|i: int, j: int| #[trigger] a_part(t, i, j) implies t.subrange(i, j).len() > 0
            && t.subrange(i, j) != "."@ && t.subrange(i, j) != ".."@ by {
            let s = t.subrange(i, j);
            if s.len() == 0 || s == "."@ || s == ".."@ {
                assert forall|k: int| i <= k < j implies t[k] != '/' by {
                    assert(s[k - i] == t[k]);
                    assert(s[k - i] == '.') by {
                        if s == "."@ {
                            assert(k - i == 0);
                        } else {
                            assert(k - i == 0 || k - i == 1);
                        }
                    }
                }
                assert(segment(t, i, j));
            }
        }
    }
    if t.len() >= 8 && t.take(8) == "prompts/"@ && t.skip(t.len() - 3) == ".md"@ {
        assert(t[0] == 'p') by {
            assert(t.take(8)[0] == t[0]);
        }
        assert(t.last() == 'd') by {
            assert(t.skip(t.len() - 3)[2] == t.last());
        }
        assert(skip_front(t) == t);
        assert(skip_back(t) == t);
        if forall|i: int, j: int| #[trigger]
            a_part(t, i, j) ==> t.subrange(i, j).len() > 0 && t.subrange(i, j) != "."@
                && t.subrange(i, j) != ".."@ {
            assert forall|i: int, j: int| #[trigger] segment(t, i, j) implies names(
                t.subrange(i, j),
            ) by {
                assert(a_part(t, i, j));
            }
        }
    }
}

} // verus!

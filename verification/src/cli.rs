//! Command-line helpers: shells for completions, exit codes, `--since`
//! durations and the history table's time and text columns.

use vstd::prelude::*;

use crate::metrics::{padded, push_padded};
use crate::scan::ScanStats;
use crate::watch::WatchStats;
use crate::text::{
    all_digits, decimal, digits_value, is_digit, is_whitespace, lemma_decimal_digits,
    lemma_trim_no_whitespace, parse_i64, parse_i64_spec, push_decimal, push_str, trim,
    trimmed_chars, chars_of, prefix_then, decimal_int, trim_start, trim_end,
};

verus! {

/// Shells that `turbolog completions` can generate a script for.
#[derive(Clone, Copy, Debug, PartialEq, Eq, Structural)]
pub enum ShellName {
    Bash,
    Elvish,
    Fish,
    PowerShell,
    Zsh,
}

/// Exit status: success, no anomalies detected.
pub const EXIT_OK: i32 = 0;
/// Exit status: anomalies detected (`watch` / `scan`).
pub const EXIT_ANOMALIES: i32 = 1;
/// Exit status: runtime or usage error.
pub const EXIT_ERROR: i32 = 2;

/// Exit status of `watch`: anomalies seen or not.
pub fn exit_for_anomalies(stats: WatchStats) -> (code: i32)
    ensures
        code == (if stats.anomaly_count > 0 { EXIT_ANOMALIES } else { EXIT_OK }),
{
    if stats.anomaly_count > 0 {
        EXIT_ANOMALIES
    } else {
        EXIT_OK
    }
}

/// Exit status of `scan`: anomalies seen or not.
pub fn exit_for_scan(stats: ScanStats) -> (code: i32)
    ensures
        code == (if stats.anomaly_count > 0 { EXIT_ANOMALIES } else { EXIT_OK }),
{
    if stats.anomaly_count > 0 {
        EXIT_ANOMALIES
    } else {
        EXIT_OK
    }
}

/// `v * m` when it fits in an `i64`.
pub open spec fn checked_mul_spec(v: i64, m: i64) -> Option<i64> {
    if v * m > i64::MAX || v * m < i64::MIN {
        None
    } else {
        Some((v * m) as i64)
    }
}

/// Seconds for a `--since` value: `<n>d`, `<n>h`, `<n>m` or plain seconds,
/// surrounding whitespace ignored; `None` when it does not parse or does
/// not fit in an `i64`.
pub open spec fn parse_duration_spec(s: Seq<char>) -> Option<i64> {
    let t = trim(s);
    let unit: i64 = if t.len() > 0 && t.last() == 'd' {
        86_400
    } else if t.len() > 0 && t.last() == 'h' {
        3_600
    } else if t.len() > 0 && t.last() == 'm' {
        60
    } else {
        1
    };
    if unit == 1 {
        parse_i64_spec(t)
    } else {
        match parse_i64_spec(t.drop_last()) {
            Some(v) => checked_mul_spec(v, unit),
            None => None,
        }
    }
}

/// Parses a `--since` duration such as `7d`, `24h`, `30m` or `90` into
/// seconds.
pub fn parse_duration(s: &str) -> (r: Option<i64>)
    ensures
        r == parse_duration_spec(s@),
{
    let t = trimmed_chars(s);
    let n = t.len();
    let unit: i64 = if n > 0 && t[n - 1] == 'd' {
        86_400
    } else if n > 0 && t[n - 1] == 'h' {
        3_600
    } else if n > 0 && t[n - 1] == 'm' {
        60
    } else {
        1
    };
    if unit == 1 {
        return parse_i64(t.as_slice());
    }
    let mut head: Vec<char> = Vec::new();
    let mut i: usize = 0;
    while i + 1 < n
        invariant
            n == t@.len(),
            n > 0,
            i <= n - 1,
            head@ == t@.take(i as int),
        decreases n - i,
    {
        head.push(t[i]);
        assert(t@.take(i as int + 1) =~= t@.take(i as int).push(t@[i as int]));
        i = i + 1;
    }
    assert(head@ =~= t@.drop_last());
    match parse_i64(head.as_slice()) {
        Some(v) => v.checked_mul(unit),
        None => None,
    }
}

/// Seconds per unit suffix of a `--since` value.
pub open spec fn unit_seconds(u: char) -> int {
    if u == 'd' { 86_400 } else if u == 'h' { 3_600 } else { 60 }
}

/// The text of an `i64` as `to_string` writes it reads back as a plain
/// count of seconds.
proof fn lemma_decimal_int_parses(n: i64)
    ensures
        parse_i64_spec(decimal_int(n as int)) == Some(n),
        decimal_int(n as int).len() >= 1,
        forall|i: int| 0 <= i < decimal_int(n as int).len() ==> !is_whitespace(#[trigger] decimal_int(n as int)[i]),
        is_digit(decimal_int(n as int).last()),
{
    let m: nat = if n < 0 { (-(n as int)) as nat } else { n as nat };
    lemma_decimal_digits(m);
    let d = decimal(m);
    let t = decimal_int(n as int);
    assert(is_digit(d[0]));
    assert(is_digit(d[d.len() - 1]));
    if n < 0 {
        assert(t.drop_first() =~= d);
        assert(t.last() == d.last());
        assert forall|i: int| 0 <= i < t.len() implies !is_whitespace(#[trigger] t[i]) by {
            if i > 0 {
                assert(t[i] == d[i - 1]);
                assert(is_digit(d[i - 1]));
            }
        }
    } else {
        assert forall|i: int| 0 <= i < t.len() implies !is_whitespace(#[trigger] t[i]) by {
            assert(is_digit(d[i]));
        }
    }
}

/// `--since` laws: an `i64` count followed by `d`, `h` or `m` reads as the
/// count times the unit's seconds, or as nothing when that overflows; a
/// count without a unit reads as that many seconds.
pub proof fn lemma_parse_duration_reads_back(n: i64, u: char)
    requires
        u == 'd' || u == 'h' || u == 'm',
    ensures
        parse_duration_spec(decimal_int(n as int).push(u)) == checked_mul_spec(n, unit_seconds(u) as i64),
        parse_duration_spec(decimal_int(n as int)) == Some(n),
{
    lemma_decimal_int_parses(n);
    let d = decimal_int(n as int);
    let s = d.push(u);
    assert forall|i: int| 0 <= i < s.len() implies !is_whitespace(#[trigger] s[i]) by {
        if i < d.len() {
            assert(s[i] == d[i]);
        }
    }
    lemma_trim_no_whitespace(s);
    lemma_trim_no_whitespace(d);
    assert(s.drop_last() =~= d);
    assert(!(d.last() == 'd' || d.last() == 'h' || d.last() == 'm'));
}

/// Surrounding spaces do not change how a `--since` value reads.
pub proof fn lemma_parse_duration_ignores_spaces(s: Seq<char>)
    ensures
        parse_duration_spec(seq![' '] + s + seq![' ']) == parse_duration_spec(s),
{
    lemma_trim_spaces(s);
}

/// `trim` of `s` with a space on each side is `trim` of `s`.
proof fn lemma_trim_spaces(s: Seq<char>)
    ensures
        trim(seq![' '] + s + seq![' ']) == trim(s),
{
    let padded = seq![' '] + s + seq![' '];
    assert(is_whitespace(' '));
    assert(padded.drop_first() =~= s + seq![' ']);
    assert(trim_start(padded) == trim_start(s + seq![' ']));
    if exists|i: int| 0 <= i < s.len() && !is_whitespace(#[trigger] s[i]) {
        lemma_trim_start_append(s, seq![' ']);
        let x = trim_start(s);
        assert((x + seq![' ']).drop_last() =~= x);
        assert(trim_end(x + seq![' ']) == trim_end(x));
    } else {
        lemma_trim_start_all_space(s, seq![' ']);
        lemma_trim_start_all_space(s, Seq::empty());
        assert(s + Seq::<char>::empty() =~= s);
        assert(seq![' '].drop_first() =~= Seq::<char>::empty());
        assert(trim_start(seq![' ']) == trim_start(Seq::<char>::empty()));
    }
}

/// Leading whitespace is dropped up to the first other character, so what
/// follows `s` is kept whole when `s` has one.
proof fn lemma_trim_start_append(s: Seq<char>, b: Seq<char>)
    requires
        exists|i: int| 0 <= i < s.len() && !is_whitespace(#[trigger] s[i]),
    ensures
        trim_start(s + b) == trim_start(s) + b,
    decreases s.len(),
{
    let w = choose|i: int| 0 <= i < s.len() && !is_whitespace(#[trigger] s[i]);
    assert((s + b)[0] == s[0]);
    if is_whitespace(s[0]) {
        assert(w > 0);
        assert(s.drop_first()[w - 1] == s[w]);
        assert((s + b).drop_first() =~= s.drop_first() + b);
        lemma_trim_start_append(s.drop_first(), b);
    }
}

/// When `s` is all whitespace, trimming the start of `s + b` trims `b`.
proof fn lemma_trim_start_all_space(s: Seq<char>, b: Seq<char>)
    requires
        forall|i: int| 0 <= i < s.len() ==> is_whitespace(#[trigger] s[i]),
    ensures
        trim_start(s + b) == trim_start(b),
    decreases s.len(),
{
    if s.len() > 0 {
        assert((s + b)[0] == s[0]);
        assert((s + b).drop_first() =~= s.drop_first() + b);
        assert forall|i: int| 0 <= i < s.drop_first().len() implies is_whitespace(#[trigger] s.drop_first()[i]) by {
            assert(s.drop_first()[i] == s[i + 1]);
        }
        lemma_trim_start_all_space(s.drop_first(), b);
    } else {
        assert(s + b =~= b);
    }
}


/// Gregorian leap years.
pub open spec fn is_leap(y: int) -> bool {
    y % 4 == 0 && (y % 100 != 0 || y % 400 == 0)
}

/// Days in month `m` (1 to 12) of year `y`.
pub open spec fn month_len(y: int, m: int) -> int {
    if m == 2 {
        if is_leap(y) { 29 } else { 28 }
    } else if m == 4 || m == 6 || m == 9 || m == 11 {
        30
    } else {
        31
    }
}

/// A calendar date: a month from 1 to 12 and a day within that month.
pub open spec fn is_valid_date(y: int, m: int, d: int) -> bool {
    1 <= m <= 12 && 1 <= d <= month_len(y, m)
}

/// Days from March 1st to the first of month `m`, counting the year from
/// March (so January and February close it).
pub open spec fn days_before_month(m: int) -> int {
    let mp = if m > 2 { m - 3 } else { m + 9 };
    (153 * mp + 2) / 5
}

/// Days from 1970-01-01 to the proleptic Gregorian date `y-m-d`: whole
/// March-to-February years since year 0 (365 days each, plus one per leap
/// day), the months before `m`, the days before `d`, minus the days from
/// 0000-03-01 to 1970-01-01.
pub open spec fn days_from_civil(y: int, m: int, d: int) -> int {
    let ya = if m <= 2 { y - 1 } else { y };
    365 * ya + ya / 4 - ya / 100 + ya / 400 + days_before_month(m) + d - 1 - 719_468
}

/// Days from 0000-03-01 to March 1st of year `ya`.
pub open spec fn march_days(ya: int) -> int {
    365 * ya + ya / 4 - ya / 100 + ya / 400
}

/// The year from March of `ya` to February of `ya + 1` has 366 days when
/// `ya + 1` is a leap year, else 365.
proof fn lemma_march_year_length(ya: int)
    ensures
        march_days(ya + 1) - march_days(ya) == if is_leap(ya + 1) { 366int } else { 365int },
{
    assert((ya + 1) / 4 - ya / 4 == if (ya + 1) % 4 == 0 { 1int } else { 0int });
    assert((ya + 1) / 100 - ya / 100 == if (ya + 1) % 100 == 0 { 1int } else { 0int });
    assert((ya + 1) / 400 - ya / 400 == if (ya + 1) % 400 == 0 { 1int } else { 0int });
    if (ya + 1) % 400 == 0 {
        assert((ya + 1) % 100 == 0 && (ya + 1) % 4 == 0);
    } else if (ya + 1) % 100 == 0 {
        assert((ya + 1) % 4 == 0);
    }
}

/// Later March-based years start after earlier ones end.
proof fn lemma_march_days_grow(a: int, b: int)
    requires
        a < b,
    ensures
        march_days(a) + (if is_leap(a + 1) { 366int } else { 365int }) <= march_days(b),
    decreases b - a,
{
    lemma_march_year_length(a);
    if a + 1 < b {
        lemma_march_days_grow(a + 1, b);
        lemma_march_year_length(a + 1);
    }
}

/// The day of the March-based year a valid date falls on is within that
/// year.
proof fn lemma_day_within_march_year(y: int, m: int, d: int)
    requires
        is_valid_date(y, m, d),
    ensures
        ({
            let ya = if m <= 2 { y - 1 } else { y };
            let doy = days_before_month(m) + d - 1;
            0 <= doy < (if is_leap(ya + 1) { 366int } else { 365int })
        }),
{
}

/// Month `m1` ends no later than month `m2` starts when it comes earlier in
/// the March-based year.
proof fn lemma_month_order(m1: int, m2: int, y: int)
    requires
        1 <= m1 <= 12,
        1 <= m2 <= 12,
        (if m1 > 2 { m1 - 3 } else { m1 + 9 }) < (if m2 > 2 { m2 - 3 } else { m2 + 9 }),
    ensures
        days_before_month(m1) + month_len(y, m1) <= days_before_month(m2),
{
}

/// Two calendar dates with the same day count are the same date, so a day
/// count names exactly one date.
pub proof fn lemma_days_from_civil_injective(y1: int, m1: int, d1: int, y2: int, m2: int, d2: int)
    requires
        is_valid_date(y1, m1, d1),
        is_valid_date(y2, m2, d2),
        days_from_civil(y1, m1, d1) == days_from_civil(y2, m2, d2),
    ensures
        y1 == y2,
        m1 == m2,
        d1 == d2,
{
    let ya1 = if m1 <= 2 { y1 - 1 } else { y1 };
    let ya2 = if m2 <= 2 { y2 - 1 } else { y2 };
    let doy1 = days_before_month(m1) + d1 - 1;
    let doy2 = days_before_month(m2) + d2 - 1;
    lemma_day_within_march_year(y1, m1, d1);
    lemma_day_within_march_year(y2, m2, d2);
    assert(march_days(ya1) + doy1 == march_days(ya2) + doy2);
    if ya1 < ya2 {
        lemma_march_days_grow(ya1, ya2);
    } else if ya2 < ya1 {
        lemma_march_days_grow(ya2, ya1);
    }
    assert(ya1 == ya2);
    assert(doy1 == doy2);
    let mp1 = if m1 > 2 { m1 - 3 } else { m1 + 9 };
    let mp2 = if m2 > 2 { m2 - 3 } else { m2 + 9 };
    if mp1 < mp2 {
        lemma_month_order(m1, m2, y1);
    } else if mp2 < mp1 {
        lemma_month_order(m2, m1, y2);
    }
    assert(mp1 == mp2);
}

/// Within one 400-year era, the year of day `doe` starts no later than
/// that day and less than a year before it.
#[verifier::rlimit(100)]
proof fn lemma_year_of_era(doe: u32, yoe: u32) by (bit_vector)
    requires
        doe < 146_097,
        yoe == ((doe - doe / 1460 + doe / 36524 - doe / 146_096) as u32) / 365,
    ensures
        yoe < 400,
        (365 * yoe + yoe / 4 - yoe / 100) as u32 <= doe,
        ((doe - ((365 * yoe + yoe / 4 - yoe / 100) as u32)) as u32) < (if ((yoe + 1) as u32) % 4 == 0 && (((yoe + 1) as u32) % 100 != 0 || yoe == 399) { 366u32 } else { 365u32 }),
{
}

/// Within a March-based year, the month of day `doy` starts no later than
/// that day and less than a month before it.
proof fn lemma_month_of_year(doy: u32, mp: u32) by (bit_vector)
    requires
        doy < 366,
        mp == (5 * doy + 2) as u32 / 153,
    ensures
        mp < 12,
        ((153 * mp + 2) as u32) / 5 <= doy,
        doy - ((153 * mp + 2) as u32) / 5 < 31,
        doy < ((153 * (mp + 1) + 2) as u32) / 5,
{
}

/// Era `era`, year `yoe` of the era (counted from March), day `doy` of that
/// year, month `mp` of that year and day `d` of that month, put back
/// together as a calendar date.
/// Shifting a year of the era by whole 400-year eras shifts its leap-day
/// counts by whole eras and keeps its leap-year remainders.
proof fn lemma_era_shift(era: int, yoe: int)
    by (nonlinear_arith)
    requires
        0 <= era,
        0 <= yoe < 400,
    ensures
        (yoe + era * 400) / 4 == era * 100 + yoe / 4,
        (yoe + era * 400) / 100 == era * 4 + yoe / 100,
        (yoe + era * 400) / 400 == era,
        (yoe + era * 400 + 1) % 4 == (yoe + 1) % 4,
        (yoe + era * 400 + 1) % 100 == (yoe + 1) % 100,
        (yoe + era * 400 + 1) % 400 == (yoe + 1) % 400,
{
}

/// The length of month `mp` of a March-based year (0 is March) is the gap
/// between the month starts, except February, the year's last month.
proof fn lemma_month_starts(mp: int)
    requires
        0 <= mp < 11,
    ensures
        (153 * (mp + 1) + 2) / 5 - (153 * mp + 2) / 5
            == month_len(0, if mp < 10 { mp + 3 } else { mp - 9 }),
{
}

/// Era `era`, year `yoe` of the era (counted from March), day `doy` of that
/// year, month `mp` of that year and day `d` of that month, put back
/// together as a calendar date.
proof fn lemma_civil_from_era(era: int, yoe: int, doe: int, doy: int, mp: int, d: int)
    requires
        0 <= era,
        0 <= yoe < 400,
        0 <= mp < 12,
        doe == 365 * yoe + yoe / 4 - yoe / 100 + doy,
        doy == (153 * mp + 2) / 5 + d - 1,
        1 <= d,
        doy < (153 * (mp + 1) + 2) / 5,
        mp == 11 ==> doy < (if (yoe + 1) % 4 == 0 && ((yoe + 1) % 100 != 0 || yoe == 399) { 366int } else { 365int }),
    ensures
        ({
            let mo = if mp < 10 { mp + 3 } else { mp - 9 };
            let y = if mo <= 2 { yoe + era * 400 + 1 } else { yoe + era * 400 };
            is_valid_date(y, mo, d) && days_from_civil(y, mo, d) == era * 146_097 + doe - 719_468
        }),
{
    let mo = if mp < 10 { mp + 3 } else { mp - 9 };
    let ya = yoe + era * 400;
    let y = if mo <= 2 { ya + 1 } else { ya };
    lemma_era_shift(era, yoe);
    assert(days_before_month(mo) == (153 * mp + 2) / 5);
    if mp < 11 {
        lemma_month_starts(mp);
        assert(month_len(y, mo) == month_len(0, mo));
    } else {
        assert(is_leap(y) == ((yoe + 1) % 4 == 0 && ((yoe + 1) % 100 != 0 || yoe == 399)));
    }
}

/// The proleptic Gregorian date of the day `days` days after 1970-01-01,
/// as (year, month, day).
pub fn days_to_ymd(days: u64) -> (r: (u64, u64, u64))
    requires
        days <= u64::MAX - 719_468,
    ensures
        is_valid_date(r.0 as int, r.1 as int, r.2 as int),
        days_from_civil(r.0 as int, r.1 as int, r.2 as int) == days,
{
    let z = days + 719_468;
    let era = z / 146_097;
    let doe = z - era * 146_097;
    let yoe = (doe - doe / 1460 + doe / 36524 - doe / 146_096) / 365;
    proof {
        lemma_year_of_era(doe as u32, yoe as u32);
    }
    let y = yoe + era * 400;
    let doy = doe - (365 * yoe + yoe / 4 - yoe / 100);
    let mp = (5 * doy + 2) / 153;
    proof {
        lemma_month_of_year(doy as u32, mp as u32);
    }
    let d = doy - (153 * mp + 2) / 5 + 1;
    let mo = if mp < 10 { mp + 3 } else { mp - 9 };
    let y = if mo <= 2 { y + 1 } else { y };
    proof {
        lemma_civil_from_era(era as int, yoe as int, doe as int, doy as int, mp as int, d as int);
    }
    (y, mo, d)
}

/// `{:04}` of a year: zero-padded to four digits, longer years in full.
pub open spec fn year_text(y: nat) -> Seq<char> {
    if y < 10000 { padded(y, 4) } else { decimal(y) }
}

/// The history table's time column: `YYYY-MM-DD hh:mm:ss` for date
/// `y-mo-d` and `sod` seconds into the day.
pub open spec fn timestamp_text(y: nat, mo: nat, d: nat, sod: nat) -> Seq<char> {
    year_text(y) + "-"@ + padded(mo, 2) + "-"@ + padded(d, 2) + " "@
        + padded(sod / 3600, 2) + ":"@ + padded((sod / 60) % 60, 2) + ":"@ + padded(sod % 60, 2)
}

/// Seconds since the epoch, negative times counted as the epoch itself.
pub open spec fn epoch_secs(ts: i64) -> nat {
    if ts < 0 { 0 } else { ts as nat }
}

/// The calendar date of day `days` after 1970-01-01: the one valid date
/// with that day count (see [`lemma_days_from_civil_injective`]).
pub open spec fn civil_from_days(days: int) -> (int, int, int) {
    choose|c: (int, int, int)| is_valid_date(c.0, c.1, c.2) && days_from_civil(c.0, c.1, c.2) == days
}

/// The history table's time column for `ts`: `YYYY-MM-DD hh:mm:ss` (UTC),
/// times before 1970 shown as the epoch.
pub open spec fn timestamp_spec(ts: i64) -> Seq<char> {
    let c = civil_from_days((epoch_secs(ts) / 86_400) as int);
    timestamp_text(c.0 as nat, c.1 as nat, c.2 as nat, epoch_secs(ts) % 86_400)
}

/// Renders a Unix timestamp (seconds, UTC) as `YYYY-MM-DD hh:mm:ss`;
/// times before 1970 show as the epoch.
#[verifier::spinoff_prover]
pub fn format_timestamp(ts: i64) -> (r: String)
    ensures
        r@ == timestamp_spec(ts),
        exists|y: nat, mo: nat, d: nat|
            is_valid_date(y as int, mo as int, d as int)
            && days_from_civil(y as int, mo as int, d as int) == epoch_secs(ts) / 86_400
            && r@ == #[trigger] timestamp_text(y, mo, d, epoch_secs(ts) % 86_400),
{
    let secs: u64 = if ts < 0 { 0 } else { ts as u64 };
    let s = secs % 60;
    let m = (secs / 60) % 60;
    let h = (secs / 3600) % 24;
    let days = secs / 86_400;
    let (year, month, day) = days_to_ymd(days);
    let mut r = String::new();
    if year < 10000 {
        push_padded(&mut r, year, 4);
    } else {
        push_decimal(&mut r, year as u128);
    }
    push_str(&mut r, "-");
    push_padded(&mut r, month, 2);
    push_str(&mut r, "-");
    push_padded(&mut r, day, 2);
    push_str(&mut r, " ");
    push_padded(&mut r, h, 2);
    push_str(&mut r, ":");
    push_padded(&mut r, m, 2);
    push_str(&mut r, ":");
    push_padded(&mut r, s, 2);
    proof {
        let sod = secs % 86_400;
        lemma_time_of_day(secs as int);
        assert(r@ =~= timestamp_text(year as nat, month as nat, day as nat, sod as nat));
        assert(days_from_civil(year as int, month as int, day as int) == secs / 86_400);
        assert(epoch_secs(ts) == secs);
        assert(is_valid_date(year as int, month as int, day as int)
            && days_from_civil(year as int, month as int, day as int) == epoch_secs(ts) / 86_400
            && r@ == timestamp_text(year as nat, month as nat, day as nat, epoch_secs(ts) % 86_400));
        let days: int = (epoch_secs(ts) / 86_400) as int;
        let w = (year as int, month as int, day as int);
        assert(is_valid_date(w.0, w.1, w.2) && days_from_civil(w.0, w.1, w.2) == days);
        let c = civil_from_days(days);
        lemma_days_from_civil_injective(c.0, c.1, c.2, year as int, month as int, day as int);
        assert(c == w);
    }
    r
}

/// Hours, minutes and seconds of the day read the same from the seconds
/// since the epoch as from the seconds since midnight.
proof fn lemma_time_of_day(secs: int)
    requires
        secs >= 0,
    ensures
        (secs % 86_400) / 3600 == (secs / 3600) % 24,
        ((secs % 86_400) / 60) % 60 == (secs / 60) % 60,
        (secs % 86_400) % 60 == secs % 60,
{
    let q = secs / 86_400;
    let r = secs % 86_400;
    assert(secs == q * 86_400 + r && 0 <= r < 86_400);
    assert(secs / 3600 == q * 24 + r / 3600) by (nonlinear_arith)
        requires secs == q * 86_400 + r, 0 <= r < 86_400, q >= 0;
    assert((q * 24 + r / 3600) % 24 == r / 3600) by (nonlinear_arith)
        requires 0 <= r / 3600 < 24, q >= 0;
    assert(secs / 60 == q * 1440 + r / 60) by (nonlinear_arith)
        requires secs == q * 86_400 + r, 0 <= r < 86_400, q >= 0;
    assert((q * 1440 + r / 60) % 60 == (r / 60) % 60) by (nonlinear_arith)
        requires r / 60 >= 0, q >= 0;
    assert(secs % 60 == r % 60) by (nonlinear_arith)
        requires secs == q * 86_400 + r, 0 <= r < 86_400, q >= 0;
}

/// `s` shortened to `max` characters followed by `…` when it is longer.
pub open spec fn truncate_display_spec(s: Seq<char>, max: nat) -> Seq<char> {
    if s.len() > max { s.take(max as int) + seq!['\u{2026}'] } else { s }
}

/// Shortens a history column: the first `max` characters and `…` when the
/// text is longer than `max`, else the text unchanged.
pub fn truncate_display(s: &str, max: usize) -> (r: String)
    ensures
        r@ == truncate_display_spec(s@, max as nat),
{
    let cs = chars_of(s);
    if cs.len() > max {
        let r = prefix_then(&cs, max, "\u{2026}");
        assert("\u{2026}"@ == seq!['\u{2026}']) by {
            reveal_strlit("\u{2026}");
        }
        r
    } else {
        String::from_str(s)
    }
}

/// `n` copies of `c`.
pub open spec fn repeat_char(c: char, n: nat) -> Seq<char> {
    Seq::new(n, |i: int| c)
}

/// `s` padded on the right with spaces to `w` characters (`{:<w}`); longer
/// text is left whole.
pub open spec fn pad_right(s: Seq<char>, w: nat) -> Seq<char> {
    if s.len() >= w { s } else { s + repeat_char(' ', (w - s.len()) as nat) }
}

fn push_repeat(out: &mut String, c: char, n: usize)
    ensures
        final(out)@ == old(out)@ + repeat_char(c, n as nat),
{
    let ghost start = out@;
    let mut i: usize = 0;
    while i < n
        invariant
            i <= n,
            out@ == start + repeat_char(c, i as nat),
        decreases n - i,
    {
        crate::text::push_char(out, c);
        assert(repeat_char(c, (i + 1) as nat) =~= repeat_char(c, i as nat).push(c));
        assert(out@ =~= start + repeat_char(c, (i + 1) as nat));
        i = i + 1;
    }
}

fn push_padded_right(out: &mut String, s: &str, w: usize)
    ensures
        final(out)@ == old(out)@ + pad_right(s@, w as nat),
{
    let ghost start = out@;
    let n = chars_of(s).len();
    push_str(out, s);
    if n < w {
        push_repeat(out, ' ', w - n);
        assert(out@ =~= start + pad_right(s@, w as nat));
    } else {
        assert(out@ =~= start + pad_right(s@, w as nat));
    }
}

/// One stored anomaly as the history table shows it; the score is already
/// written with two decimals.
pub struct HistoryRow {
    pub timestamp: i64,
    pub score_text: String,
    pub line: String,
    pub explanation: Option<String>,
}

/// One template of the recurring-history table; the highest score is
/// already written with two decimals.
pub struct RecurringRow {
    pub count: u64,
    pub last_seen: i64,
    pub max_score_text: String,
    pub template: String,
    pub sample_line: String,
}

/// A history row: time, score and line (cut to 59 characters), then the
/// explanation when there is one.
pub open spec fn history_row_spec(r: HistoryRow) -> Seq<char> {
    "  "@ + pad_right(timestamp_spec(r.timestamp), 20) + "  "@ + pad_right(r.score_text@, 6) + "  "@
        + truncate_display_spec(r.line@, 59) + "\n"@
        + match r.explanation {
            Some(e) => "    \u{2514}\u{2500} "@ + e@ + "\n"@,
            None => Seq::empty(),
        }
}

/// The first `k` history rows.
pub open spec fn history_rows_spec(rows: Seq<HistoryRow>, k: int) -> Seq<char>
    decreases k,
{
    if k <= 0 { Seq::empty() } else { history_rows_spec(rows, k - 1) + history_row_spec(rows[k - 1]) }
}

/// `turbolog history` in text: a note when the window holds no anomaly,
/// else a header, the rows, and the total.
pub open spec fn history_text_spec(since: Seq<char>, rows: Seq<HistoryRow>) -> Seq<char> {
    if rows.len() == 0 {
        "No anomalies found in the last "@ + since + ".\n"@
    } else {
        "\n--- TurboLog History (last "@ + since + ") ---\n"@
            + "  "@ + pad_right("time"@, 20) + "  "@ + pad_right("score"@, 6) + "  line\n"@
            + "  "@ + repeat_char('-', 72) + "\n"@
            + history_rows_spec(rows, rows.len() as int)
            + "\nTotal: "@ + decimal(rows.len()) + (if rows.len() == 1 { " anomaly"@ } else { " anomalies"@ })
            + "\n\n"@
    }
}

fn push_history_row(out: &mut String, r: &HistoryRow)
    ensures
        final(out)@ == old(out)@ + history_row_spec(*r),
{
    let ghost start = out@;
    push_str(out, "  ");
    let t = format_timestamp(r.timestamp);
    push_padded_right(out, t.as_str(), 20);
    push_str(out, "  ");
    push_padded_right(out, r.score_text.as_str(), 6);
    push_str(out, "  ");
    let shown = truncate_display(r.line.as_str(), 59);
    push_str(out, shown.as_str());
    push_str(out, "\n");
    match &r.explanation {
        Some(e) => {
            push_str(out, "    \u{2514}\u{2500} ");
            push_str(out, e.as_str());
            push_str(out, "\n");
        },
        None => {},
    }
    assert(out@ =~= start + history_row_spec(*r));
}

/// Writes `turbolog history` in text for the anomalies of the window
/// `since` (newest first, as the store returns them).
pub fn history_text(since: &str, rows: &Vec<HistoryRow>) -> (out: String)
    ensures
        out@ == history_text_spec(since@, rows@),
{
    let mut out = String::new();
    if rows.len() == 0 {
        push_str(&mut out, "No anomalies found in the last ");
        push_str(&mut out, since);
        push_str(&mut out, ".\n");
        assert(out@ =~= history_text_spec(since@, rows@));
        return out;
    }
    push_str(&mut out, "\n--- TurboLog History (last ");
    push_str(&mut out, since);
    push_str(&mut out, ") ---\n");
    push_str(&mut out, "  ");
    push_padded_right(&mut out, "time", 20);
    push_str(&mut out, "  ");
    push_padded_right(&mut out, "score", 6);
    push_str(&mut out, "  line\n");
    push_str(&mut out, "  ");
    push_repeat(&mut out, '-', 72);
    push_str(&mut out, "\n");
    let ghost head = out@;
    let mut i: usize = 0;
    while i < rows.len()
        invariant
            i <= rows@.len(),
            out@ == head + history_rows_spec(rows@, i as int),
        decreases rows@.len() - i,
    {
        push_history_row(&mut out, &rows[i]);
        assert(out@ =~= head + history_rows_spec(rows@, i as int + 1));
        i = i + 1;
    }
    push_str(&mut out, "\nTotal: ");
    push_decimal(&mut out, rows.len() as u128);
    if rows.len() == 1 {
        push_str(&mut out, " anomaly");
    } else {
        push_str(&mut out, " anomalies");
    }
    push_str(&mut out, "\n\n");
    assert(out@ =~= history_text_spec(since@, rows@));
    out
}

/// A recurring-history row: count, last time seen, highest score and
/// template (cut to 45 characters), then a sample line (cut to 68).
pub open spec fn recurring_row_spec(r: RecurringRow) -> Seq<char> {
    "  "@ + pad_right(decimal(r.count as nat), 6) + "  "@ + pad_right(timestamp_spec(r.last_seen), 20) + "  "@
        + pad_right(r.max_score_text@, 9) + "  "@ + truncate_display_spec(r.template@, 45) + "\n"@
        + "    \u{2514}\u{2500} sample: "@ + truncate_display_spec(r.sample_line@, 68) + "\n"@
}

/// The first `k` recurring rows.
pub open spec fn recurring_rows_spec(rows: Seq<RecurringRow>, k: int) -> Seq<char>
    decreases k,
{
    if k <= 0 { Seq::empty() } else { recurring_rows_spec(rows, k - 1) + recurring_row_spec(rows[k - 1]) }
}

/// `turbolog history --recurring` in text: a note when the window holds no
/// anomaly, else a header, the rows, and the number of templates.
pub open spec fn recurring_text_spec(since: Seq<char>, rows: Seq<RecurringRow>) -> Seq<char> {
    if rows.len() == 0 {
        "No recurring anomalies found in the last "@ + since + ".\n"@
    } else {
        "\n--- TurboLog Recurring History (last "@ + since + ") ---\n"@
            + "  "@ + pad_right("count"@, 6) + "  "@ + pad_right("last seen"@, 20) + "  "@
            + pad_right("max score"@, 9) + "  template\n"@
            + "  "@ + repeat_char('-', 80) + "\n"@
            + recurring_rows_spec(rows, rows.len() as int)
            + "\nTotal: "@ + decimal(rows.len()) + " recurring template"@
            + (if rows.len() == 1 { Seq::<char>::empty() } else { "s"@ }) + "\n\n"@
    }
}

fn push_recurring_row(out: &mut String, r: &RecurringRow)
    ensures
        final(out)@ == old(out)@ + recurring_row_spec(*r),
{
    let ghost start = out@;
    push_str(out, "  ");
    let mut count = String::new();
    push_decimal(&mut count, r.count as u128);
    push_padded_right(out, count.as_str(), 6);
    push_str(out, "  ");
    let t = format_timestamp(r.last_seen);
    push_padded_right(out, t.as_str(), 20);
    push_str(out, "  ");
    push_padded_right(out, r.max_score_text.as_str(), 9);
    push_str(out, "  ");
    let template = truncate_display(r.template.as_str(), 45);
    push_str(out, template.as_str());
    push_str(out, "\n");
    push_str(out, "    \u{2514}\u{2500} sample: ");
    let sample = truncate_display(r.sample_line.as_str(), 68);
    push_str(out, sample.as_str());
    push_str(out, "\n");
    assert(out@ =~= start + recurring_row_spec(*r));
}

/// Writes `turbolog history --recurring` in text for the templates of the
/// window `since` (most frequent first, as the store returns them).
pub fn recurring_text(since: &str, rows: &Vec<RecurringRow>) -> (out: String)
    ensures
        out@ == recurring_text_spec(since@, rows@),
{
    let mut out = String::new();
    if rows.len() == 0 {
        push_str(&mut out, "No recurring anomalies found in the last ");
        push_str(&mut out, since);
        push_str(&mut out, ".\n");
        assert(out@ =~= recurring_text_spec(since@, rows@));
        return out;
    }
    push_str(&mut out, "\n--- TurboLog Recurring History (last ");
    push_str(&mut out, since);
    push_str(&mut out, ") ---\n");
    push_str(&mut out, "  ");
    push_padded_right(&mut out, "count", 6);
    push_str(&mut out, "  ");
    push_padded_right(&mut out, "last seen", 20);
    push_str(&mut out, "  ");
    push_padded_right(&mut out, "max score", 9);
    push_str(&mut out, "  template\n");
    push_str(&mut out, "  ");
    push_repeat(&mut out, '-', 80);
    push_str(&mut out, "\n");
    let ghost head = out@;
    let mut i: usize = 0;
    while i < rows.len()
        invariant
            i <= rows@.len(),
            out@ == head + recurring_rows_spec(rows@, i as int),
        decreases rows@.len() - i,
    {
        push_recurring_row(&mut out, &rows[i]);
        assert(out@ =~= head + recurring_rows_spec(rows@, i as int + 1));
        i = i + 1;
    }
    push_str(&mut out, "\nTotal: ");
    push_decimal(&mut out, rows.len() as u128);
    push_str(&mut out, " recurring template");
    if rows.len() != 1 {
        push_str(&mut out, "s");
    }
    push_str(&mut out, "\n\n");
    assert(out@ =~= recurring_text_spec(since@, rows@));
    out
}

} // verus!

//! Anomaly history: the clock, and the recurrence hint printed next to an
//! anomaly whose template was seen before.

use vstd::prelude::*;

use crate::text::{
    all_digits, decimal, decimal_int, digits_value, lemma_decimal_digits, push_decimal,
    push_decimal_i128, push_str,
};

verus! {

/// How far back the recurrence hint looks: 7 days, in seconds.
pub const CONTEXT_WINDOW_SECS: i64 = 7 * 86_400;

/// `std::time::SystemTime`.
#[verifier::external_type_specification]
#[verifier::external_body]
pub struct ExSystemTime(std::time::SystemTime);

/// `SystemTime::now`: the current wall-clock time. Nothing is stated of it.
#[verifier::external_body]
fn system_time_now() -> std::time::SystemTime {
    std::time::SystemTime::now()
}

/// `SystemTime::duration_since(UNIX_EPOCH)`: the time elapsed since the
/// Unix epoch, `None` when the clock is set before it. Nothing is stated of
/// the value.
#[verifier::external_body]
fn since_unix_epoch(t: &std::time::SystemTime) -> Option<std::time::Duration> {
    t.duration_since(std::time::UNIX_EPOCH).ok()
}

/// `Duration::as_nanos`: the whole nanoseconds of a duration. Nothing is
/// stated of the value: the durations here come from the clock.
#[verifier::external_body]
fn duration_nanos(d: &std::time::Duration) -> u128 {
    d.as_nanos()
}

/// A clock reading in nanoseconds, or 0 when there is none.
pub open spec fn reading_or_zero(d: Option<u128>) -> u128 {
    match d {
        Some(n) => n,
        None => 0,
    }
}

/// Whole seconds of `n` nanoseconds, as an `as i64` cast leaves them.
pub open spec fn secs_of(n: u128) -> i64 {
    (n / 1_000_000_000) as i64
}

/// Whole milliseconds of `n` nanoseconds, as an `as i64` cast leaves them.
pub open spec fn millis_of(n: u128) -> i64 {
    (n / 1_000_000) as i64
}

/// A clock reading in nanoseconds, 0 when there is none (the clock reads
/// before the epoch).
pub fn nanos_or_zero(d: Option<u128>) -> (r: u128)
    ensures
        r == reading_or_zero(d),
{
    match d {
        Some(n) => n,
        None => 0,
    }
}

/// Whole seconds of `n` nanoseconds, as an `as i64` cast leaves them.
pub fn secs_of_nanos(n: u128) -> (r: i64)
    ensures
        r == (n / 1_000_000_000) as i64,
{
    let q = n / 1_000_000_000;
    #[verifier::truncate]
    (q as i64)
}

/// Whole milliseconds of `n` nanoseconds, as an `as i64` cast leaves them.
pub fn millis_of_nanos(n: u128) -> (r: i64)
    ensures
        r == (n / 1_000_000) as i64,
{
    let q = n / 1_000_000;
    #[verifier::truncate]
    (q as i64)
}

/// Nanoseconds since the Unix epoch, 0 when the clock reads before it.
/// What the clock reads is not stated.
pub fn now_nanos() -> (r: u128)
    ensures
        exists|d: Option<u128>| r == #[trigger] reading_or_zero(d),
{
    let reading: Option<u128> = match since_unix_epoch(&system_time_now()) {
        Some(d) => Some(duration_nanos(&d)),
        None => None,
    };
    let r = nanos_or_zero(reading);
    assert(r == reading_or_zero(reading));
    r
}

/// Seconds since the Unix epoch: the whole seconds of a clock reading in
/// nanoseconds (see [`now_nanos`]), as the `as i64` cast leaves them.
pub fn now_secs() -> (r: i64)
    ensures
        exists|n: u128| r == #[trigger] secs_of(n),
{
    let n = now_nanos();
    let r = secs_of_nanos(n);
    assert(r == secs_of(n));
    r
}

/// Milliseconds since the Unix epoch: the whole milliseconds of a clock
/// reading in nanoseconds (see [`now_nanos`]), as the `as i64` cast leaves
/// them.
pub fn now_millis() -> (r: i64)
    ensures
        exists|n: u128| r == #[trigger] millis_of(n),
{
    let n = now_nanos();
    let r = millis_of_nanos(n);
    assert(r == millis_of(n));
    r
}

/// An age in seconds (negative ages count as 0) in its largest whole unit:
/// `"42s ago"`, `"5m ago"`, `"3h ago"` or `"2d ago"`.
pub open spec fn format_age_spec(secs: int) -> Seq<char> {
    let s: nat = if secs < 0 { 0 } else { secs as nat };
    if s < 60 {
        decimal(s) + "s ago"@
    } else if s < 3_600 {
        decimal(s / 60) + "m ago"@
    } else if s < 86_400 {
        decimal(s / 3_600) + "h ago"@
    } else {
        decimal(s / 86_400) + "d ago"@
    }
}

/// An age reads back as a whole number of its unit: the text is a run of
/// digits followed by `s ago`, `m ago`, `h ago` or `d ago`, the largest
/// unit the age (negative ages as 0) reaches, and the number is the whole
/// count of that unit in the age: `count × unit <= age < (count + 1) × unit`.
pub proof fn lemma_format_age_reads_back(secs: int)
    ensures
        ({
            let age: int = if secs < 0 { 0 } else { secs };
            let t = format_age_spec(secs);
            let n = t.len() - 5;
            let count = digits_value(t.take(n));
            let unit = t.skip(n);
            &&& n >= 1
            &&& all_digits(t.take(n))
            &&& age < 60 ==> unit == "s ago"@ && count == age
            &&& 60 <= age < 3_600 ==> unit == "m ago"@ && count * 60 <= age < count * 60 + 60
            &&& 3_600 <= age < 86_400 ==> unit == "h ago"@ && count * 3_600 <= age < count * 3_600 + 3_600
            &&& 86_400 <= age ==> unit == "d ago"@ && count * 86_400 <= age < count * 86_400 + 86_400
        }),
{
    reveal_strlit("s ago");
    reveal_strlit("m ago");
    reveal_strlit("h ago");
    reveal_strlit("d ago");
    let age: int = if secs < 0 { 0 } else { secs };
    let c: nat = age as nat;
    let q: nat = if c < 60 { c } else if c < 3_600 { c / 60 } else if c < 86_400 { c / 3_600 } else { c / 86_400 };
    let u = if c < 60 { "s ago"@ } else if c < 3_600 { "m ago"@ } else if c < 86_400 { "h ago"@ } else { "d ago"@ };
    let t = format_age_spec(secs);
    assert(t == decimal(q) + u);
    lemma_decimal_digits(q);
    let n = t.len() - 5;
    assert(t.take(n) =~= decimal(q));
    assert(t.skip(n) =~= u);
}

/// Formats the age of the last occurrence of a pattern.
pub fn format_age(secs: i64) -> (r: String)
    ensures
        r@ == format_age_spec(secs as int),
{
    let s: i64 = if secs < 0 { 0 } else { secs };
    let mut r = String::new();
    if s < 60 {
        push_decimal(&mut r, s as u128);
        push_str(&mut r, "s ago");
    } else if s < 3_600 {
        push_decimal(&mut r, (s / 60) as u128);
        push_str(&mut r, "m ago");
    } else if s < 86_400 {
        push_decimal(&mut r, (s / 3_600) as u128);
        push_str(&mut r, "h ago");
    } else {
        push_decimal(&mut r, (s / 86_400) as u128);
        push_str(&mut r, "d ago");
    }
    r
}

/// The recurrence hint for a template seen `count` times in the last 7
/// days, the last time `age_secs` ago; `None` when it was not seen.
pub open spec fn context_message_spec(count: i64, age_secs: i64) -> Option<Seq<char>> {
    if count == 0 {
        None
    } else {
        Some(
            "This log pattern has occurred "@ + decimal_int(count as int) + "× in the last 7 days (last seen: "@
                + format_age_spec(age_secs as int) + ")"@,
        )
    }
}

/// Builds the one-line history context handed to the LLM, e.g. "This log
/// pattern has occurred 3× in the last 7 days (last seen: 2h ago)".
pub fn context_message(count: i64, age_secs: i64) -> (r: Option<String>)
    ensures
        match (r, context_message_spec(count, age_secs)) {
            (Some(m), Some(s)) => m@ == s,
            (None, None) => true,
            _ => false,
        },
{
    if count == 0 {
        return None;
    }
    let mut m = String::new();
    push_str(&mut m, "This log pattern has occurred ");
    push_decimal_i128(&mut m, count as i128);
    push_str(&mut m, "× in the last 7 days (last seen: ");
    let age = format_age(age_secs);
    push_str(&mut m, age.as_str());
    push_str(&mut m, ")");
    Some(m)
}

} // verus!

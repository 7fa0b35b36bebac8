//! Metrics registry of the experimental server — counters, an in-flight
//! gauge and two latency histograms — and its Prometheus text exposition.
//!
//! The registry is a plain value; the server keeps one behind a lock. A
//! latency sample arrives as its length in whole nanoseconds.

use vstd::prelude::*;

use vstd::arithmetic::div_mod::{lemma_mod_breakdown, lemma_small_mod};

use crate::text::{
    all_digits, decimal, decimal_int, digit_char, digit_value, digits_value, is_digit,
    lemma_decimal_digits, lemma_digit_char, push_char, push_decimal, push_decimal_i128, push_str,
};

verus! {

/// Number of finite histogram buckets.
pub const BUCKET_COUNT: usize = 16;

/// Upper bound of bucket `i` in seconds, as the exposition writes it.
pub open spec fn bucket_label_spec(i: int) -> Seq<char> {
    if i == 0 { "0.00005"@ }
    else if i == 1 { "0.0001"@ }
    else if i == 2 { "0.00025"@ }
    else if i == 3 { "0.0005"@ }
    else if i == 4 { "0.001"@ }
    else if i == 5 { "0.0025"@ }
    else if i == 6 { "0.005"@ }
    else if i == 7 { "0.01"@ }
    else if i == 8 { "0.025"@ }
    else if i == 9 { "0.05"@ }
    else if i == 10 { "0.1"@ }
    else if i == 11 { "0.25"@ }
    else if i == 12 { "0.5"@ }
    else if i == 13 { "1"@ }
    else if i == 14 { "2.5"@ }
    else { "5"@ }
}

/// Upper bound of bucket `i` in seconds, as the exposition writes it.
pub fn bucket_label(i: usize) -> (s: &'static str)
    requires
        i < BUCKET_COUNT,
    ensures
        s@ == bucket_label_spec(i as int),
{
    if i == 0 { "0.00005" }
    else if i == 1 { "0.0001" }
    else if i == 2 { "0.00025" }
    else if i == 3 { "0.0005" }
    else if i == 4 { "0.001" }
    else if i == 5 { "0.0025" }
    else if i == 6 { "0.005" }
    else if i == 7 { "0.01" }
    else if i == 8 { "0.025" }
    else if i == 9 { "0.05" }
    else if i == 10 { "0.1" }
    else if i == 11 { "0.25" }
    else if i == 12 { "0.5" }
    else if i == 13 { "1" }
    else if i == 14 { "2.5" }
    else { "5" }
}

/// Upper bound of bucket `i` in nanoseconds (50µs … 5s).
pub open spec fn bucket_bound_nanos(i: int) -> nat {
    if i == 0 { 50_000 }
    else if i == 1 { 100_000 }
    else if i == 2 { 250_000 }
    else if i == 3 { 500_000 }
    else if i == 4 { 1_000_000 }
    else if i == 5 { 2_500_000 }
    else if i == 6 { 5_000_000 }
    else if i == 7 { 10_000_000 }
    else if i == 8 { 25_000_000 }
    else if i == 9 { 50_000_000 }
    else if i == 10 { 100_000_000 }
    else if i == 11 { 250_000_000 }
    else if i == 12 { 500_000_000 }
    else if i == 13 { 1_000_000_000 }
    else if i == 14 { 2_500_000_000 }
    else { 5_000_000_000 }
}

/// The first bucket, from `i` on, whose bound `nanos` does not exceed.
pub open spec fn first_bucket_from(nanos: nat, i: int) -> Option<usize>
    decreases BUCKET_COUNT - i,
{
    if i < 0 || i >= BUCKET_COUNT {
        None
    } else if nanos <= bucket_bound_nanos(i) {
        Some(i as usize)
    } else {
        first_bucket_from(nanos, i + 1)
    }
}

/// The bucket a sample of `nanos` nanoseconds counts in: the first whose
/// bound it does not exceed, none past the last bound.
pub open spec fn bucket_for_spec(nanos: nat) -> Option<usize> {
    first_bucket_from(nanos, 0)
}

/// Chooses the bucket of a latency sample of `nanos` nanoseconds.
pub fn bucket_for(nanos: u64) -> (b: Option<usize>)
    ensures
        b == bucket_for_spec(nanos as nat),
        match b {
            Some(i) => i < BUCKET_COUNT && nanos <= bucket_bound_nanos(i as int)
                && (i == 0 || nanos > bucket_bound_nanos(i - 1)),
            None => nanos > bucket_bound_nanos(BUCKET_COUNT - 1),
        },
{
    let mut i: usize = 0;
    while i < BUCKET_COUNT
        invariant
            i <= BUCKET_COUNT,
            i > 0 ==> nanos > bucket_bound_nanos(i - 1),
            bucket_for_spec(nanos as nat) == first_bucket_from(nanos as nat, i as int),
        decreases BUCKET_COUNT - i,
    {
        let bound: u64 = if i == 0 { 50_000 }
            else if i == 1 { 100_000 }
            else if i == 2 { 250_000 }
            else if i == 3 { 500_000 }
            else if i == 4 { 1_000_000 }
            else if i == 5 { 2_500_000 }
            else if i == 6 { 5_000_000 }
            else if i == 7 { 10_000_000 }
            else if i == 8 { 25_000_000 }
            else if i == 9 { 50_000_000 }
            else if i == 10 { 100_000_000 }
            else if i == 11 { 250_000_000 }
            else if i == 12 { 500_000_000 }
            else if i == 13 { 1_000_000_000 }
            else if i == 14 { 2_500_000_000 }
            else { 5_000_000_000 };
        assert(bound == bucket_bound_nanos(i as int));
        if nanos <= bound {
            return Some(i);
        }
        i = i + 1;
    }
    None
}

/// `a + b` modulo 2^64, as an atomic `fetch_add` leaves it.
pub open spec fn wrap_add(a: u64, b: u64) -> u64 {
    ((a as nat + b as nat) % 0x1_0000_0000_0000_0000nat) as u64
}

/// `a + b` wrapped to `i64`, as an atomic `fetch_add` leaves it.
pub open spec fn wrap_add_i64(a: i64, b: i64) -> i64 {
    let s = a + b;
    if s > i64::MAX { (s - 0x1_0000_0000_0000_0000int) as i64 }
    else if s < i64::MIN { (s + 0x1_0000_0000_0000_0000int) as i64 }
    else { s as i64 }
}

/// Fixed-bucket latency histogram: each sample counts in exactly one bucket
/// (or none, past the last bound); the text gives cumulative counts.
pub struct Histogram {
    counts: Vec<u64>,
    sum_nanos: u64,
    count: u64,
}

/// Abstract histogram: per-bucket counts, total nanoseconds, samples.
pub struct HistogramView {
    pub counts: Seq<u64>,
    pub sum_nanos: u64,
    pub count: u64,
}

impl View for Histogram {
    type V = HistogramView;

    closed spec fn view(&self) -> HistogramView {
        HistogramView { counts: self.counts@, sum_nanos: self.sum_nanos, count: self.count }
    }
}

/// Sum of the first `k` bucket counts.
pub open spec fn prefix_sum(counts: Seq<u64>, k: int) -> nat
    decreases k,
{
    if k <= 0 {
        0
    } else {
        prefix_sum(counts, k - 1) + counts[k - 1] as nat
    }
}

/// `# HELP` and `# TYPE` lines of a metric.
pub open spec fn help_type_spec(name: Seq<char>, help: Seq<char>, kind: Seq<char>) -> Seq<char> {
    "# HELP "@ + name + " "@ + help + "\n"@ + "# TYPE "@ + name + " "@ + kind + "\n"@
}

/// A sample line: the metric name, a space, the value and a newline.
pub open spec fn sample_spec(name: Seq<char>, value: Seq<char>) -> Seq<char> {
    name + " "@ + value + "\n"@
}

/// Exposition of a counter.
pub open spec fn counter_spec(name: Seq<char>, help: Seq<char>, value: nat) -> Seq<char> {
    help_type_spec(name, help, "counter"@) + sample_spec(name, decimal(value))
}

/// Exposition of a gauge whose value is already rendered.
pub open spec fn gauge_spec(name: Seq<char>, help: Seq<char>, value: Seq<char>) -> Seq<char> {
    help_type_spec(name, help, "gauge"@) + sample_spec(name, value)
}

/// The cumulative lines of the first `k` finite buckets.
pub open spec fn bucket_lines_spec(name: Seq<char>, counts: Seq<u64>, k: int) -> Seq<char>
    decreases k,
{
    if k <= 0 {
        Seq::empty()
    } else {
        bucket_lines_spec(name, counts, k - 1) + sample_spec(
            name + "_bucket{le=\""@ + bucket_label_spec(k - 1) + "\"}"@,
            decimal(prefix_sum(counts, k)),
        )
    }
}

/// `n` nanoseconds written in seconds: the whole seconds, then — unless the
/// fraction is zero — a point and the nanosecond fraction without trailing
/// zeros (`2300000` → `0.0023`).
pub open spec fn seconds_text(n: nat) -> Seq<char> {
    let whole = decimal(n / 1_000_000_000);
    let frac = n % 1_000_000_000;
    if frac == 0 {
        whole
    } else {
        whole + "."@ + fraction_digits(frac, 9)
    }
}

/// The `width`-digit zero-padded decimal of `f`, without trailing zeros.
pub open spec fn fraction_digits(f: nat, width: nat) -> Seq<char>
    decreases width,
{
    if width == 0 {
        Seq::empty()
    } else if f % 10 == 0 {
        fraction_digits(f / 10, (width - 1) as nat)
    } else {
        padded(f, width)
    }
}

/// The decimal of `f` padded with leading zeros to `width` digits.
pub open spec fn padded(f: nat, width: nat) -> Seq<char>
    decreases width,
{
    if width == 0 {
        Seq::empty()
    } else {
        padded(f / 10, (width - 1) as nat).push(crate::text::digit_char(f % 10))
    }
}

/// Ten to the power `k`.
pub open spec fn pow10(k: nat) -> nat
    decreases k,
{
    if k == 0 { 1 } else { 10 * pow10((k - 1) as nat) }
}

/// A padded numeral is `width` digits that read back as `f` modulo
/// `10^width`, its last digit that of `f % 10`.
proof fn lemma_padded_reads_back(f: nat, width: nat)
    ensures
        padded(f, width).len() == width,
        all_digits(padded(f, width)),
        digits_value(padded(f, width)) == f % pow10(width),
        width > 0 ==> padded(f, width).last() == digit_char(f % 10),
    decreases width,
{
    let p = padded(f, width);
    if width == 0 {
        assert(f % 1 == 0);
    } else {
        let w1 = (width - 1) as nat;
        lemma_padded_reads_back(f / 10, w1);
        lemma_digit_char(f % 10);
        assert(p.drop_last() =~= padded(f / 10, w1));
        assert forall|i: int| 0 <= i < p.len() implies is_digit(#[trigger] p[i]) by {
            if i < p.len() - 1 {
                assert(p[i] == padded(f / 10, w1)[i]);
            }
        }
        lemma_pow10_positive(w1);
        lemma_mod_breakdown(f as int, 10, pow10(w1) as int);
        assert(digits_value(p) == (f / 10 % pow10(w1)) * 10 + f % 10);
    }
}

/// Every power of ten is positive.
proof fn lemma_pow10_positive(k: nat)
    ensures
        pow10(k) > 0,
    decreases k,
{
    if k > 0 {
        lemma_pow10_positive((k - 1) as nat);
    }
}

/// The fraction digits of a nonzero `f` below `10^width` are at most
/// `width` digits, none of them a trailing zero, that read back as `f` once
/// scaled by the dropped zeros.
proof fn lemma_fraction_reads_back(f: nat, width: nat)
    requires
        0 < f < pow10(width),
    ensures
        1 <= fraction_digits(f, width).len() <= width,
        all_digits(fraction_digits(f, width)),
        digits_value(fraction_digits(f, width))
            * pow10((width - fraction_digits(f, width).len()) as nat) == f,
        fraction_digits(f, width).last() != '0',
    decreases width,
{
    let r = fraction_digits(f, width);
    if width == 0 {
    } else if f % 10 == 0 {
        let w1 = (width - 1) as nat;
        assert(f == 10 * (f / 10));
        assert(f / 10 < pow10(w1));
        lemma_fraction_reads_back(f / 10, w1);
        assert(r == fraction_digits(f / 10, w1));
        assert(pow10((width - r.len()) as nat) == 10 * pow10((w1 - r.len()) as nat));
        let v = digits_value(r);
        assert(v * pow10((width - r.len()) as nat) == 10 * (v * pow10((w1 - r.len()) as nat)))
            by (nonlinear_arith)
            requires pow10((width - r.len()) as nat) == 10 * pow10((w1 - r.len()) as nat);
        assert(v * pow10((w1 - r.len()) as nat) == f / 10);
        assert(v * pow10((width - r.len()) as nat) == f);
    } else {
        lemma_padded_reads_back(f, width);
        lemma_small_mod(f, pow10(width));
        assert(r == padded(f, width));
        assert(pow10(0) == 1);
        assert(((width - r.len()) as nat) == 0);
        assert(digits_value(r) == f);
        assert(digits_value(r) * pow10((width - r.len()) as nat) == f);
        lemma_digit_char(f % 10);
        assert(digit_value('0') == 0);
    }
}

/// The seconds text reads back as `n / 10^9`: its digits up to the point (or
/// to the end) are the whole seconds, and the digits after the point, at
/// most nine with no trailing zero, read as a fraction of a second, are the
/// remaining nanoseconds; with no point, no nanoseconds remain.
pub proof fn lemma_seconds_text_reads_back(n: nat)
    ensures
        ({
            let t = seconds_text(n);
            exists|d: int|
                #![trigger t.take(d)]
                0 < d <= t.len() && all_digits(t.take(d))
                    && digits_value(t.take(d)) == n / 1_000_000_000
                    && (d == t.len() ==> n % 1_000_000_000 == 0)
                    && (d < t.len() ==> t[d] == '.' && all_digits(t.skip(d + 1))
                        && 1 <= t.len() - d - 1 <= 9
                        && digits_value(t.skip(d + 1)) * pow10((9 - (t.len() - d - 1)) as nat)
                            == n % 1_000_000_000
                        && t.last() != '0')
        }),
{
    let t = seconds_text(n);
    let whole = decimal(n / 1_000_000_000);
    let frac = n % 1_000_000_000;
    lemma_decimal_digits(n / 1_000_000_000);
    let d = whole.len() as int;
    if frac == 0 {
        assert(t.take(d) =~= whole);
    } else {
        reveal_with_fuel(pow10, 10);
        assert(pow10(9) == 1_000_000_000);
        lemma_fraction_reads_back(frac, 9);
        let r = fraction_digits(frac, 9);
        reveal_strlit(".");
        assert(t == whole + "."@ + r);
        assert(t.take(d) =~= whole);
        assert(t.skip(d + 1) =~= r);
        assert(t[d] == '.');
        assert(t.last() == r.last());
    }
}

/// Exposition of a histogram.
pub open spec fn histogram_spec(name: Seq<char>, help: Seq<char>, h: HistogramView) -> Seq<char> {
    help_type_spec(name, help, "histogram"@)
        + bucket_lines_spec(name, h.counts, BUCKET_COUNT as int)
        + sample_spec(name + "_bucket{le=\"+Inf\"}"@, decimal(h.count as nat))
        + sample_spec(name + "_sum"@, seconds_text(h.sum_nanos as nat))
        + sample_spec(name + "_count"@, decimal(h.count as nat))
}

/// The histogram after one sample.
pub open spec fn observed(h: HistogramView, bucket: Option<usize>, nanos: u64) -> HistogramView {
    HistogramView {
        counts: match bucket {
            Some(b) => h.counts.update(b as int, wrap_add(h.counts[b as int], 1)),
            None => h.counts,
        },
        sum_nanos: wrap_add(h.sum_nanos, nanos),
        count: wrap_add(h.count, 1),
    }
}

/// Buckets are cumulative: a sample in bucket `b` adds one to the
/// cumulative count of every bound from `b` on and to none below it, and
/// one to the total (short of the counters' 2^64 wrap).
pub proof fn lemma_observe_is_cumulative(h: HistogramView, b: usize, nanos: u64, k: int)
    requires
        h.counts.len() == BUCKET_COUNT,
        b < BUCKET_COUNT,
        h.counts[b as int] < u64::MAX,
        h.count < u64::MAX,
        0 <= k <= BUCKET_COUNT,
    ensures
        prefix_sum(observed(h, Some(b), nanos).counts, k)
            == prefix_sum(h.counts, k) + (if k > b { 1nat } else { 0nat }),
        observed(h, Some(b), nanos).count == h.count + 1,
    decreases k,
{
    if k > 0 {
        lemma_observe_is_cumulative(h, b, nanos, k - 1);
    }
}

impl Histogram {
    /// Every histogram has one count per finite bucket.
    pub closed spec fn wf(&self) -> bool {
        self.counts@.len() == BUCKET_COUNT
    }

    /// An empty histogram.
    pub fn new() -> (h: Histogram)
        ensures
            h.wf(),
            h@.counts == Seq::new(BUCKET_COUNT as nat, |i: int| 0u64),
            h@.sum_nanos == 0,
            h@.count == 0,
    {
        let mut counts: Vec<u64> = Vec::new();
        let mut i: usize = 0;
        while i < BUCKET_COUNT
            invariant
                i <= BUCKET_COUNT,
                counts@ == Seq::new(i as nat, |j: int| 0u64),
            decreases BUCKET_COUNT - i,
        {
            counts.push(0);
            assert(counts@ =~= Seq::new((i + 1) as nat, |j: int| 0u64));
            i = i + 1;
        }
        Histogram { counts, sum_nanos: 0, count: 0 }
    }

    /// Records one sample of `nanos` nanoseconds: one more in the first
    /// bucket whose bound it does not exceed (none past the last bound), its
    /// nanoseconds added to the sum.
    pub fn observe(&mut self, nanos: u64)
        requires
            old(self).wf(),
        ensures
            final(self).wf(),
            final(self)@ == observed(old(self)@, bucket_for_spec(nanos as nat), nanos),
    {
        let bucket = bucket_for(nanos);
        if let Some(b) = bucket {
            let c = self.counts[b].wrapping_add(1);
            self.counts.set(b, c);
        }
        self.sum_nanos = self.sum_nanos.wrapping_add(nanos);
        self.count = self.count.wrapping_add(1);
    }

    /// Samples recorded.
    pub fn count(&self) -> (n: u64)
        ensures
            n == self@.count,
    {
        self.count
    }

    /// Appends the histogram's exposition to `out`.
    pub fn render(&self, name: &str, help: &str, out: &mut String)
        requires
            self.wf(),
        ensures
            final(out)@ == old(out)@ + histogram_spec(name@, help@, self@),
    {
        let ghost start = out@;
        push_help_type(out, name, help, "histogram");
        let ghost after_head = out@;
        let mut cumulative: u128 = 0;
        let mut i: usize = 0;
        while i < BUCKET_COUNT
            invariant
                self.wf(),
                i <= BUCKET_COUNT,
                cumulative == prefix_sum(self.counts@, i as int),
                cumulative <= i * 0x1_0000_0000_0000_0000nat,
                out@ == after_head + bucket_lines_spec(name@, self.counts@, i as int),
            decreases BUCKET_COUNT - i,
        {
            cumulative = cumulative + self.counts[i] as u128;
            let ghost before = out@;
            push_str(out, name);
            push_str(out, "_bucket{le=\"");
            push_str(out, bucket_label(i));
            push_str(out, "\"}");
            push_str(out, " ");
            push_decimal(out, cumulative);
            push_str(out, "\n");
            assert(out@ =~= before + sample_spec(
                name@ + "_bucket{le=\""@ + bucket_label_spec(i as int) + "\"}"@,
                decimal(prefix_sum(self.counts@, i as int + 1)),
            ));
            i = i + 1;
        }
        let ghost after_buckets = out@;
        push_str(out, name);
        push_str(out, "_bucket{le=\"+Inf\"}");
        push_str(out, " ");
        push_decimal(out, self.count as u128);
        push_str(out, "\n");
        assert(out@ =~= after_buckets + sample_spec(name@ + "_bucket{le=\"+Inf\"}"@, decimal(self.count as nat)));
        let ghost after_inf = out@;
        push_str(out, name);
        push_str(out, "_sum");
        push_str(out, " ");
        push_seconds(out, self.sum_nanos);
        push_str(out, "\n");
        assert(out@ =~= after_inf + sample_spec(name@ + "_sum"@, seconds_text(self.sum_nanos as nat)));
        let ghost after_sum = out@;
        push_str(out, name);
        push_str(out, "_count");
        push_str(out, " ");
        push_decimal(out, self.count as u128);
        push_str(out, "\n");
        assert(out@ =~= after_sum + sample_spec(name@ + "_count"@, decimal(self.count as nat)));
        assert(out@ =~= start + histogram_spec(name@, help@, self@));
    }
}

/// Appends the `# HELP` and `# TYPE` lines.
fn push_help_type(out: &mut String, name: &str, help: &str, kind: &str)
    ensures
        final(out)@ == old(out)@ + help_type_spec(name@, help@, kind@),
{
    let ghost start = out@;
    push_str(out, "# HELP ");
    push_str(out, name);
    push_str(out, " ");
    push_str(out, help);
    push_str(out, "\n");
    push_str(out, "# TYPE ");
    push_str(out, name);
    push_str(out, " ");
    push_str(out, kind);
    push_str(out, "\n");
    assert(out@ =~= start + help_type_spec(name@, help@, kind@));
}

/// Appends `f` zero-padded to `width` digits.
pub(crate) fn push_padded(out: &mut String, f: u64, width: u64)
    ensures
        final(out)@ == old(out)@ + padded(f as nat, width as nat),
    decreases width,
{
    if width > 0 {
        push_padded(out, f / 10, width - 1);
        let d = ((f % 10) as u8 + 48) as char;
        push_char(out, d);
    }
}

/// Appends the fraction digits of `f` (at most `width` of them).
fn push_fraction(out: &mut String, f: u64, width: u64)
    ensures
        final(out)@ == old(out)@ + fraction_digits(f as nat, width as nat),
    decreases width,
{
    if width > 0 {
        if f % 10 == 0 {
            push_fraction(out, f / 10, width - 1);
        } else {
            push_padded(out, f, width);
        }
    }
}

/// Appends `nanos` nanoseconds written in seconds.
pub fn push_seconds(out: &mut String, nanos: u64)
    ensures
        final(out)@ == old(out)@ + seconds_text(nanos as nat),
{
    let ghost start = out@;
    push_decimal(out, (nanos / 1_000_000_000) as u128);
    let frac = nanos % 1_000_000_000;
    if frac != 0 {
        push_str(out, ".");
        push_fraction(out, frac, 9);
    }
    assert(out@ =~= start + seconds_text(nanos as nat));
}

/// Appends a counter's exposition.
pub fn counter(out: &mut String, name: &str, help: &str, value: u64)
    ensures
        final(out)@ == old(out)@ + counter_spec(name@, help@, value as nat),
{
    let ghost start = out@;
    push_help_type(out, name, help, "counter");
    push_str(out, name);
    push_str(out, " ");
    push_decimal(out, value as u128);
    push_str(out, "\n");
    assert(out@ =~= start + counter_spec(name@, help@, value as nat));
}

/// Appends a gauge's exposition; `value` is the gauge already rendered.
pub fn gauge(out: &mut String, name: &str, help: &str, value: &str)
    ensures
        final(out)@ == old(out)@ + gauge_spec(name@, help@, value@),
{
    let ghost start = out@;
    push_help_type(out, name, help, "gauge");
    push_str(out, name);
    push_str(out, " ");
    push_str(out, value);
    push_str(out, "\n");
    assert(out@ =~= start + gauge_spec(name@, help@, value@));
}

/// The process-wide metrics: counters, the in-flight gauge and the ingest
/// and search latency histograms.
pub struct MetricsRegistry {
    ingested: u64,
    anomalies: u64,
    http_2xx: u64,
    http_4xx: u64,
    http_5xx: u64,
    http_rejected: u64,
    inflight: i64,
    ingest_hist: Histogram,
    search_hist: Histogram,
}

/// A histogram with no samples: every bucket, the sum and the count at zero.
pub open spec fn empty_histogram() -> HistogramView {
    HistogramView { counts: Seq::new(BUCKET_COUNT as nat, |i: int| 0u64), sum_nanos: 0, count: 0 }
}

/// Abstract registry.
pub struct MetricsView {
    pub ingested: u64,
    pub anomalies: u64,
    pub http_2xx: u64,
    pub http_4xx: u64,
    pub http_5xx: u64,
    pub http_rejected: u64,
    pub inflight: i64,
    pub ingest_hist: HistogramView,
    pub search_hist: HistogramView,
}

impl View for MetricsRegistry {
    type V = MetricsView;

    closed spec fn view(&self) -> MetricsView {
        MetricsView {
            ingested: self.ingested,
            anomalies: self.anomalies,
            http_2xx: self.http_2xx,
            http_4xx: self.http_4xx,
            http_5xx: self.http_5xx,
            http_rejected: self.http_rejected,
            inflight: self.inflight,
            ingest_hist: self.ingest_hist@,
            search_hist: self.search_hist@,
        }
    }
}

impl MetricsRegistry {
    /// Both histograms have one count per bucket.
    pub closed spec fn wf(&self) -> bool {
        self.ingest_hist.wf() && self.search_hist.wf()
    }

    /// A registry with every metric at zero.
    pub fn new() -> (r: MetricsRegistry)
        ensures
            r.wf(),
            r@.ingested == 0,
            r@.anomalies == 0,
            r@.http_2xx == 0,
            r@.http_4xx == 0,
            r@.http_5xx == 0,
            r@.http_rejected == 0,
            r@.inflight == 0,
            r@.ingest_hist == empty_histogram(),
            r@.search_hist == empty_histogram(),
    {
        MetricsRegistry {
            ingested: 0,
            anomalies: 0,
            http_2xx: 0,
            http_4xx: 0,
            http_5xx: 0,
            http_rejected: 0,
            inflight: 0,
            ingest_hist: Histogram::new(),
            search_hist: Histogram::new(),
        }
    }
}

/// Logs accepted by the ingest path.
pub fn inc_ingested(reg: &mut MetricsRegistry, n: u64)
    ensures
        final(reg)@ == (MetricsView { ingested: wrap_add(old(reg)@.ingested, n), ..old(reg)@ }),
        final(reg).wf() == old(reg).wf(),
{
    reg.ingested = reg.ingested.wrapping_add(n);
}

/// An ingested log classified as an anomaly.
pub fn inc_anomaly(reg: &mut MetricsRegistry)
    ensures
        final(reg)@ == (MetricsView { anomalies: wrap_add(old(reg)@.anomalies, 1), ..old(reg)@ }),
        final(reg).wf() == old(reg).wf(),
{
    reg.anomalies = reg.anomalies.wrapping_add(1);
}

/// The registry after serving one response with status `status`: counted in
/// its class (2xx, 4xx or 5xx); other statuses are not counted.
pub open spec fn http_counted(m: MetricsView, status: u16) -> MetricsView {
    if 200 <= status <= 299 {
        MetricsView { http_2xx: wrap_add(m.http_2xx, 1), ..m }
    } else if 400 <= status <= 499 {
        MetricsView { http_4xx: wrap_add(m.http_4xx, 1), ..m }
    } else if 500 <= status <= 599 {
        MetricsView { http_5xx: wrap_add(m.http_5xx, 1), ..m }
    } else {
        m
    }
}

/// A served HTTP response, counted by status class.
pub fn inc_http(reg: &mut MetricsRegistry, status: u16)
    ensures
        final(reg)@ == http_counted(old(reg)@, status),
        final(reg).wf() == old(reg).wf(),
{
    if 200 <= status && status <= 299 {
        reg.http_2xx = reg.http_2xx.wrapping_add(1);
    } else if 400 <= status && status <= 499 {
        reg.http_4xx = reg.http_4xx.wrapping_add(1);
    } else if 500 <= status && status <= 599 {
        reg.http_5xx = reg.http_5xx.wrapping_add(1);
    }
}

/// A request shed by backpressure before handling (HTTP 503).
pub fn inc_http_rejected(reg: &mut MetricsRegistry)
    ensures
        final(reg)@ == (MetricsView { http_rejected: wrap_add(old(reg)@.http_rejected, 1), ..old(reg)@ }),
        final(reg).wf() == old(reg).wf(),
{
    reg.http_rejected = reg.http_rejected.wrapping_add(1);
}

/// One more request in flight.
pub fn inflight_inc(reg: &mut MetricsRegistry)
    ensures
        final(reg)@ == (MetricsView { inflight: wrap_add_i64(old(reg)@.inflight, 1), ..old(reg)@ }),
        final(reg).wf() == old(reg).wf(),
{
    reg.inflight = reg.inflight.wrapping_add(1);
}

/// One request fewer in flight.
pub fn inflight_dec(reg: &mut MetricsRegistry)
    ensures
        final(reg)@ == (MetricsView { inflight: wrap_add_i64(old(reg)@.inflight, -1i64), ..old(reg)@ }),
        final(reg).wf() == old(reg).wf(),
{
    reg.inflight = reg.inflight.wrapping_sub(1);
}

/// Records an ingest-path latency sample.
pub fn observe_ingest(reg: &mut MetricsRegistry, nanos: u64)
    requires
        old(reg).wf(),
    ensures
        final(reg).wf(),
        final(reg)@ == (MetricsView { ingest_hist: observed(old(reg)@.ingest_hist, bucket_for_spec(nanos as nat), nanos), ..old(reg)@ }),
{
    reg.ingest_hist.observe(nanos);
}

/// Records a search-path latency sample.
pub fn observe_search(reg: &mut MetricsRegistry, nanos: u64)
    requires
        old(reg).wf(),
    ensures
        final(reg).wf(),
        final(reg)@ == (MetricsView { search_hist: observed(old(reg)@.search_hist, bucket_for_spec(nanos as nat), nanos), ..old(reg)@ }),
{
    reg.search_hist.observe(nanos);
}

/// The extra gauges, each `(name, help, rendered value)`.
pub open spec fn extra_gauges_spec(extra: Seq<(&str, &str, &str)>, k: int) -> Seq<char>
    decreases k,
{
    if k <= 0 {
        Seq::empty()
    } else {
        extra_gauges_spec(extra, k - 1) + gauge_spec(extra[k - 1].0@, extra[k - 1].1@, extra[k - 1].2@)
    }
}

/// The fixed part of the exposition: counters, the in-flight gauge and the
/// two histograms.
pub open spec fn registry_text_spec(m: MetricsView) -> Seq<char> {
    counter_spec("turbolog_ingested_total"@, "Logs ingested"@, m.ingested as nat)
        + counter_spec("turbolog_anomalies_total"@, "Anomalies detected"@, m.anomalies as nat)
        + counter_spec("turbolog_http_requests_2xx_total"@, "HTTP 2xx responses"@, m.http_2xx as nat)
        + counter_spec("turbolog_http_requests_4xx_total"@, "HTTP 4xx responses"@, m.http_4xx as nat)
        + counter_spec("turbolog_http_requests_5xx_total"@, "HTTP 5xx responses"@, m.http_5xx as nat)
        + counter_spec("turbolog_http_rejected_total"@, "Requests shed by backpressure"@, m.http_rejected as nat)
        + gauge_spec("turbolog_inflight_requests"@, "In-flight HTTP requests"@, decimal_int(m.inflight as int))
        + histogram_spec("turbolog_ingest_latency_seconds"@, "Ingest path latency"@, m.ingest_hist)
        + histogram_spec("turbolog_search_latency_seconds"@, "Search path latency"@, m.search_hist)
}

/// Renders the whole registry in Prometheus text format, followed by the
/// point-in-time gauges `extra_gauges` sourced elsewhere.
#[verifier::rlimit(40)]
pub fn render(reg: &MetricsRegistry, extra_gauges: &[(&str, &str, &str)]) -> (out: String)
    requires
        reg.wf(),
    ensures
        out@ == registry_text_spec(reg@) + extra_gauges_spec(extra_gauges@, extra_gauges@.len() as int),
{
    let mut out = String::new();
    counter(&mut out, "turbolog_ingested_total", "Logs ingested", reg.ingested);
    counter(&mut out, "turbolog_anomalies_total", "Anomalies detected", reg.anomalies);
    counter(&mut out, "turbolog_http_requests_2xx_total", "HTTP 2xx responses", reg.http_2xx);
    counter(&mut out, "turbolog_http_requests_4xx_total", "HTTP 4xx responses", reg.http_4xx);
    counter(&mut out, "turbolog_http_requests_5xx_total", "HTTP 5xx responses", reg.http_5xx);
    counter(&mut out, "turbolog_http_rejected_total", "Requests shed by backpressure", reg.http_rejected);
    let ghost before_gauge = out@;
    let mut inflight_text = String::new();
    push_decimal_i128(&mut inflight_text, reg.inflight as i128);
    gauge(&mut out, "turbolog_inflight_requests", "In-flight HTTP requests", inflight_text.as_str());
    reg.ingest_hist.render("turbolog_ingest_latency_seconds", "Ingest path latency", &mut out);
    reg.search_hist.render("turbolog_search_latency_seconds", "Search path latency", &mut out);
    assert(out@ =~= registry_text_spec(reg@));
    let ghost fixed = out@;
    let mut i: usize = 0;
    while i < extra_gauges.len()
        invariant
            i <= extra_gauges@.len(),
            out@ == fixed + extra_gauges_spec(extra_gauges@, i as int),
        decreases extra_gauges@.len() - i,
    {
        let (name, help, value) = extra_gauges[i];
        gauge(&mut out, name, help, value);
        assert(out@ =~= fixed + extra_gauges_spec(extra_gauges@, i as int + 1));
        i = i + 1;
    }
    out
}

} // verus!

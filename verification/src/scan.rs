//! `turbolog scan`: the end-of-input summary — how calibration ended, the
//! anomaly rate, the distinct templates, which anomalies head the report,
//! and the text report itself.

use vstd::prelude::*;

use crate::diagnose::{truncate_line, truncate_line_spec};
use crate::metrics::{padded, push_padded};
use crate::text::{decimal, push_decimal, push_str};

verus! {

/// How many anomalies the report lists.
pub const TOP_ANOMALIES: usize = 10;
/// How many of the listed anomalies are sent to the LLM for an explanation.
pub const EXPLAINED_ANOMALIES: usize = 5;

/// The result of a `scan` run that decides its exit status.
pub struct ScanStats {
    pub anomaly_count: usize,
}

/// How the detector came to be calibrated, or why it was not.
#[derive(Clone, Copy, Debug, PartialEq, Eq, Structural)]
pub enum CalibrationStatus {
    /// A streaming trigger fired while reading.
    StreamingTrigger,
    /// Forced at end of input with enough distinct templates.
    EofFinalized,
    /// Too few distinct templates at end of input.
    NotEnoughData,
}

/// The status from whether the detector was fitted before end of input and
/// whether it is fitted after the end-of-input finalize.
pub open spec fn calibration_status_spec(was_calibrated: bool, calibrated: bool) -> CalibrationStatus {
    if was_calibrated {
        CalibrationStatus::StreamingTrigger
    } else if calibrated {
        CalibrationStatus::EofFinalized
    } else {
        CalibrationStatus::NotEnoughData
    }
}

/// Classifies how calibration ended.
pub fn calibration_status(was_calibrated: bool, calibrated: bool) -> (s: CalibrationStatus)
    ensures
        s == calibration_status_spec(was_calibrated, calibrated),
{
    if was_calibrated {
        CalibrationStatus::StreamingTrigger
    } else if calibrated {
        CalibrationStatus::EofFinalized
    } else {
        CalibrationStatus::NotEnoughData
    }
}

/// The name of a status in the JSON report.
pub open spec fn status_json_spec(s: CalibrationStatus) -> Seq<char> {
    match s {
        CalibrationStatus::StreamingTrigger => "streaming_trigger"@,
        CalibrationStatus::EofFinalized => "eof_finalized"@,
        CalibrationStatus::NotEnoughData => "not_enough_data"@,
    }
}

impl CalibrationStatus {
    /// The status as the JSON report writes it.
    pub fn as_json(self) -> (s: &'static str)
        ensures
            s@ == status_json_spec(self),
    {
        match self {
            CalibrationStatus::StreamingTrigger => "streaming_trigger",
            CalibrationStatus::EofFinalized => "eof_finalized",
            CalibrationStatus::NotEnoughData => "not_enough_data",
        }
    }
}

/// The anomaly rate in hundredths of a percent, rounded to the nearest,
/// an exact half to the even neighbour (as `{:.2}` rounds); zero for an
/// empty input.
pub open spec fn rate_hundredths(anomalies: nat, total: nat) -> nat {
    if total == 0 {
        0
    } else {
        let q = (anomalies * 10000) / total;
        let r = (anomalies * 10000) % total;
        if 2 * r > total || (2 * r == total && q % 2 == 1) { q + 1 } else { q }
    }
}

/// The anomaly rate as a percentage with two decimals (`0.14`).
pub open spec fn rate_text_spec(anomalies: nat, total: nat) -> Seq<char> {
    let h = rate_hundredths(anomalies, total);
    decimal(h / 100) + "."@ + padded(h % 100, 2)
}

/// Writes `anomalies / total` as a percentage with two decimals.
pub fn rate_text(anomalies: usize, total: usize) -> (s: String)
    ensures
        s@ == rate_text_spec(anomalies as nat, total as nat),
{
    let h: u128 = if total == 0 {
        0
    } else {
        let n = anomalies as u128 * 10000;
        let t = total as u128;
        let q = n / t;
        let r = n % t;
        if 2 * r > t || (2 * r == t && q % 2 == 1) { q + 1 } else { q }
    };
    let mut s = String::new();
    push_decimal(&mut s, h / 100);
    push_str(&mut s, ".");
    push_padded(&mut s, (h % 100) as u64, 2);
    assert(s@ =~= rate_text_spec(anomalies as nat, total as nat));
    s
}

/// The number of distinct values in `s`: each counted at its first
/// occurrence.
pub open spec fn distinct_count<A>(s: Seq<A>) -> nat
    decreases s.len(),
{
    if s.len() == 0 {
        0
    } else {
        distinct_count(s.drop_last()) + (if s.drop_last().contains(s.last()) { 0nat } else { 1nat })
    }
}

/// The distinct count is the size of the set of values: "templates found"
/// counts each template once however often it occurs.
pub proof fn lemma_distinct_count_is_set_size<A>(s: Seq<A>)
    ensures
        distinct_count(s) == s.to_set().len(),
    decreases s.len(),
{
    broadcast use vstd::seq_lib::group_seq_properties;
    broadcast use vstd::set::group_set_axioms;
    if s.len() == 0 {
        assert(s.to_set() =~= Set::<A>::empty());
    } else {
        let p = s.drop_last();
        lemma_distinct_count_is_set_size(p);
        assert(p.push(s.last()) =~= s);
        p.lemma_push_to_set_commute(s.last());
        vstd::seq_lib::seq_to_set_is_finite(p);
        assert(p.to_set().contains(s.last()) == p.contains(s.last()));
    }
}

/// The template texts of a sequence of strings.
pub open spec fn texts_view(v: Seq<String>) -> Seq<Seq<char>> {
    v.map_values(|t: String| t@)
}

fn contains_before(v: &Vec<String>, k: usize) -> (b: bool)
    requires
        k < v@.len(),
    ensures
        b == texts_view(v@).take(k as int).contains(v@[k as int]@),
{
    let ghost w = texts_view(v@).take(k as int);
    let mut i: usize = 0;
    while i < k
        invariant
            k < v@.len(),
            i <= k,
            w == texts_view(v@).take(k as int),
            forall|j: int| 0 <= j < i ==> w[j] != v@[k as int]@,
        decreases k - i,
    {
        if v[i] == v[k] {
            assert(w[i as int] == v@[k as int]@);
            return true;
        }
        i = i + 1;
    }
    proof {
        if w.contains(v@[k as int]@) {
            let j = choose|j: int| 0 <= j < w.len() && w[j] == v@[k as int]@;
            assert(w[j] != v@[k as int]@);
        }
    }
    false
}

/// Counts the distinct template texts seen in a run.
pub fn count_distinct(templates: &Vec<String>) -> (n: usize)
    ensures
        n == distinct_count(texts_view(templates@)),
{
    let mut n: usize = 0;
    let mut k: usize = 0;
    while k < templates.len()
        invariant
            k <= templates@.len(),
            n <= k,
            n == distinct_count(texts_view(templates@).take(k as int)),
        decreases templates@.len() - k,
    {
        let seen = contains_before(templates, k);
        proof {
            let t = texts_view(templates@);
            assert(t.take(k as int + 1).drop_last() =~= t.take(k as int));
            assert(t.take(k as int + 1).last() == templates@[k as int]@);
        }
        if !seen {
            n = n + 1;
        }
        k = k + 1;
    }
    assert(texts_view(templates@).take(k as int) =~= texts_view(templates@));
    n
}

/// Report order of two anomalies, by position: the higher key first, and
/// among equal keys the one read first.
pub open spec fn ranks_before(keys: Seq<u32>, i: int, j: int) -> bool {
    keys[i] > keys[j] || (keys[i] == keys[j] && i < j)
}

/// `r` lists, in report order, the `min(limit, keys.len())` positions that
/// come first in report order.
pub open spec fn is_top(keys: Seq<u32>, limit: nat, r: Seq<usize>) -> bool {
    &&& r.len() == (if limit < keys.len() { limit } else { keys.len() })
    &&& forall|i: int| 0 <= i < r.len() ==> r[i] < keys.len()
    &&& forall|i: int, j: int| 0 <= i < j < r.len() ==> ranks_before(keys, #[trigger] r[i] as int, #[trigger] r[j] as int)
    &&& forall|i: int, x: int|
        0 <= i < r.len() && 0 <= x < keys.len() && !r.contains(x as usize)
            ==> #[trigger] ranks_before(keys, r[i] as int, x)
}

/// Picks the anomalies the report lists: the positions of the `limit`
/// highest keys, highest first, ties in input order (a stable sort by
/// descending key, cut to `limit`). A key stands for a score: larger key,
/// larger score.
pub fn top_indices(keys: &Vec<u32>, limit: usize) -> (r: Vec<usize>)
    ensures
        is_top(keys@, limit as nat, r@),
{
    let n = keys.len();
    let mut r: Vec<usize> = Vec::new();
    let mut j: usize = 0;
    while j < n
        invariant
            n == keys@.len(),
            j <= n,
            r@.len() == (if limit < j { limit as int } else { j as int }),
            forall|i: int| 0 <= i < r@.len() ==> r@[i] < j,
            r@.len() < limit ==> forall|x: usize| x < j ==> #[trigger] r@.contains(x),
            forall|a: int, b: int| 0 <= a < b < r@.len() ==> ranks_before(keys@, #[trigger] r@[a] as int, #[trigger] r@[b] as int),
            forall|i: int, x: int|
                0 <= i < r@.len() && 0 <= x < j && !r@.contains(x as usize)
                    ==> #[trigger] ranks_before(keys@, r@[i] as int, x),
        decreases n - j,
    {
        let kj = keys[j];
        let mut p: usize = 0;
        while p < r.len() && keys[r[p]] >= kj
            invariant
                n == keys@.len(),
                j < n,
                kj == keys@[j as int],
                p <= r@.len(),
                forall|i: int| 0 <= i < r@.len() ==> r@[i] < j,
                forall|i: int| 0 <= i < p ==> keys@[#[trigger] r@[i] as int] >= kj,
            decreases r@.len() - p,
        {
            p = p + 1;
        }
        let ghost old_r = r@;
        proof {
            // Everything before `p` ranks before `j`; `j` ranks before the rest.
            assert forall|i: int| 0 <= i < p implies ranks_before(keys@, #[trigger] old_r[i] as int, j as int) by {}
            if p < old_r.len() {
                assert(keys@[old_r[p as int] as int] < kj);
                assert forall|i: int| p <= i < old_r.len() implies ranks_before(keys@, j as int, #[trigger] old_r[i] as int) by {
                    if i > p {
                        assert(ranks_before(keys@, old_r[p as int] as int, old_r[i] as int));
                    }
                }
            }
        }
        if p < limit {
            r.insert(p, j);
            proof {
                let nr = r@;
                assert(nr == old_r.insert(p as int, j));
                assert forall|a: int, b: int| 0 <= a < b < nr.len() implies ranks_before(keys@, #[trigger] nr[a] as int, #[trigger] nr[b] as int) by {
                    if b < p {
                        assert(nr[a] == old_r[a] && nr[b] == old_r[b]);
                    } else if b == p {
                        assert(nr[a] == old_r[a]);
                    } else if a < p {
                        assert(nr[a] == old_r[a] && nr[b] == old_r[b - 1]);
                        assert(ranks_before(keys@, old_r[a] as int, j as int));
                        assert(ranks_before(keys@, j as int, old_r[b - 1] as int));
                    } else if a == p {
                        assert(nr[b] == old_r[b - 1]);
                    } else {
                        assert(nr[a] == old_r[a - 1] && nr[b] == old_r[b - 1]);
                    }
                }
            }
            if r.len() > limit {
                let ghost before_cut = r@;
                r.truncate(limit);
                proof {
                    assert(r@ =~= before_cut.take(limit as int));
                }
            }
        }
        proof {
            let nr = r@;
            if nr.len() < limit {
                assert(p < limit);
                assert(nr == old_r.insert(p as int, j));
                assert forall|x: usize| x < j + 1 implies #[trigger] nr.contains(x) by {
                    if x == j {
                        assert(nr[p as int] == j);
                    } else {
                        assert(old_r.contains(x));
                        let q = choose|q: int| 0 <= q < old_r.len() && old_r[q] == x;
                        if q < p {
                            assert(nr[q] == x);
                        } else {
                            assert(nr[q + 1] == x);
                        }
                    }
                }
            }
            assert forall|i: int| 0 <= i < nr.len() implies nr[i] < j + 1 by {
                if p < limit {
                    if i < p {
                    } else if i == p {
                    } else {
                    }
                }
            }
            assert forall|i: int, x: int|
                0 <= i < nr.len() && 0 <= x < j + 1 && !nr.contains(x as usize)
                    implies #[trigger] ranks_before(keys@, nr[i] as int, x) by {
                // `nr[i]` is `j` or came from `old_r`.
                if p < limit {
                    if i == p {
                        // `j` itself: `x` was left out before, or `x` was cut.
                        if x < j {
                            if old_r.contains(x as usize) {
                                let q = choose|q: int| 0 <= q < old_r.len() && old_r[q] == x as usize;
                                if q < p {
                                    assert(nr[q] == x as usize);
                                } else {
                                    assert(ranks_before(keys@, j as int, old_r[q] as int));
                                }
                            } else {
                                assert(old_r.len() == limit) by {
                                    if old_r.len() < limit {
                                        assert(old_r.contains(x as usize));
                                    }
                                }
                                assert(p < old_r.len());
                                assert(ranks_before(keys@, old_r[p as int] as int, x));
                                assert(ranks_before(keys@, j as int, old_r[p as int] as int));
                            }
                        }
                    } else {
                        let oi = if i < p { i } else { i - 1 };
                        assert(nr[i] == old_r[oi]);
                        if x == j {
                            assert(x as usize == nr[p as int]);
                        } else if old_r.contains(x as usize) {
                            let q = choose|q: int| 0 <= q < old_r.len() && old_r[q] == x as usize;
                            let nq = if q < p { q } else { q + 1 };
                            if nq < nr.len() {
                                assert(nr[nq] == x as usize);
                            }
                            assert(oi < q);
                        } else {
                        }
                    }
                } else {
                    assert(nr =~= old_r);
                    if x == j {
                        assert(keys@[old_r[i] as int] >= kj);
                    }
                }
            }
        }
        j = j + 1;
    }
    r
}

/// One listed anomaly: its line, its score with two decimals, and the
/// LLM's explanation when one was asked for and came back.
pub struct TopAnomaly {
    pub line: String,
    pub score_text: String,
    pub explanation: Option<String>,
}

/// What the text report summarises.
pub struct ScanSummary {
    pub total: usize,
    pub templates: usize,
    pub anomalies: usize,
    pub status: CalibrationStatus,
    /// The effective threshold with three decimals, when the detector has one.
    pub threshold_text: Option<String>,
    pub top: Vec<TopAnomaly>,
}

/// The report's calibration line.
pub open spec fn calibration_line_spec(status: CalibrationStatus, threshold: Option<Seq<char>>) -> Seq<char> {
    match status {
        CalibrationStatus::StreamingTrigger => match threshold {
            Some(t) => "Calibration     : complete (streaming trigger, threshold="@ + t + ")"@,
            None => "Calibration     : complete (streaming trigger)"@,
        },
        CalibrationStatus::EofFinalized => match threshold {
            Some(t) => "Calibration     : complete (EOF finalize, threshold="@ + t + ")"@,
            None => "Calibration     : complete (EOF finalize)"@,
        },
        CalibrationStatus::NotEnoughData =>
            "Calibration     : incomplete (need at least 8 unique log templates at EOF; scores unavailable)"@,
    }
}

/// The calibration line names the status it reports: a streaming trigger
/// reads `complete (streaming trigger`, an end-of-input fit `complete (EOF
/// finalize`, too little data `incomplete`; with a threshold the line ends
/// in `threshold=<it>)`.
pub proof fn lemma_calibration_line_names_status(status: CalibrationStatus, threshold: Option<Seq<char>>)
    ensures
        status == CalibrationStatus::StreamingTrigger ==>
            "Calibration     : complete (streaming trigger"@.is_prefix_of(calibration_line_spec(status, threshold)),
        status == CalibrationStatus::EofFinalized ==>
            "Calibration     : complete (EOF finalize"@.is_prefix_of(calibration_line_spec(status, threshold)),
        status == CalibrationStatus::NotEnoughData ==>
            "Calibration     : incomplete"@.is_prefix_of(calibration_line_spec(status, threshold)),
        status != CalibrationStatus::NotEnoughData && threshold is Some ==>
            ("threshold="@ + threshold->0 + ")"@).is_suffix_of(calibration_line_spec(status, threshold)),
{
    reveal_strlit("Calibration     : complete (streaming trigger");
    reveal_strlit("Calibration     : complete (EOF finalize");
    reveal_strlit("Calibration     : incomplete");
    reveal_strlit("Calibration     : complete (streaming trigger, threshold=");
    reveal_strlit("Calibration     : complete (streaming trigger)");
    reveal_strlit("Calibration     : complete (EOF finalize, threshold=");
    reveal_strlit("Calibration     : complete (EOF finalize)");
    reveal_strlit("Calibration     : incomplete (need at least 8 unique log templates at EOF; scores unavailable)");
    reveal_strlit("threshold=");
    reveal_strlit(")");
    let line = calibration_line_spec(status, threshold);
    match status {
        CalibrationStatus::StreamingTrigger => {
            let p = "Calibration     : complete (streaming trigger"@;
            assert(line.take(p.len() as int) =~= p);
            if let Some(t) = threshold {
                let sfx = "threshold="@ + t + ")"@;
                let pre = "Calibration     : complete (streaming trigger, "@;
                reveal_strlit("Calibration     : complete (streaming trigger, ");
                assert(line =~= pre + sfx);
                assert(line.skip(line.len() - sfx.len()) =~= sfx);
            }
        },
        CalibrationStatus::EofFinalized => {
            let p = "Calibration     : complete (EOF finalize"@;
            assert(line.take(p.len() as int) =~= p);
            if let Some(t) = threshold {
                let sfx = "threshold="@ + t + ")"@;
                let pre = "Calibration     : complete (EOF finalize, "@;
                reveal_strlit("Calibration     : complete (EOF finalize, ");
                assert(line =~= pre + sfx);
                assert(line.skip(line.len() - sfx.len()) =~= sfx);
            }
        },
        CalibrationStatus::NotEnoughData => {
            let p = "Calibration     : incomplete"@;
            assert(line.take(p.len() as int) =~= p);
        },
    }
}

/// The optional text of an `Option<String>`.
pub open spec fn opt_view(o: Option<String>) -> Option<Seq<char>> {
    match o {
        Some(s) => Some(s@),
        None => None,
    }
}

/// The lines of one listed anomaly: score and line (cut to 120
/// characters), then its explanation when there is one.
pub open spec fn top_entry_spec(e: TopAnomaly) -> Seq<char> {
    "  [score="@ + e.score_text@ + "] "@ + truncate_line_spec(e.line@, 120) + "\n"@ + match e.explanation {
        Some(x) => "    \u{2514}\u{2500} "@ + x@ + "\n"@,
        None => Seq::empty(),
    }
}

/// The lines of the first `k` listed anomalies.
pub open spec fn top_entries_spec(top: Seq<TopAnomaly>, k: int) -> Seq<char>
    decreases k,
{
    if k <= 0 {
        Seq::empty()
    } else {
        top_entries_spec(top, k - 1) + top_entry_spec(top[k - 1])
    }
}

/// The whole text report, newline-terminated lines.
pub open spec fn text_report_spec(s: ScanSummary) -> Seq<char> {
    "\n--- TurboLog Scan Report ---\n"@
        + "Lines processed : "@ + decimal(s.total as nat) + "\n"@
        + "Templates found : "@ + decimal(s.templates as nat) + "\n"@
        + "Anomalies       : "@ + decimal(s.anomalies as nat) + " ("@
        + rate_text_spec(s.anomalies as nat, s.total as nat) + "%)\n"@
        + calibration_line_spec(s.status, opt_view(s.threshold_text)) + "\n"@
        + (if s.top@.len() == 0 {
            "\nNo anomalies detected.\n"@
        } else {
            "\nTop anomalies:\n"@ + top_entries_spec(s.top@, s.top@.len() as int)
        })
        + "\n"@
}

fn push_calibration_line(out: &mut String, status: CalibrationStatus, threshold: &Option<String>)
    ensures
        final(out)@ == old(out)@ + calibration_line_spec(status, opt_view(*threshold)),
{
    let ghost start = out@;
    match status {
        CalibrationStatus::StreamingTrigger => match threshold {
            Some(t) => {
                push_str(out, "Calibration     : complete (streaming trigger, threshold=");
                push_str(out, t.as_str());
                push_str(out, ")");
            },
            None => push_str(out, "Calibration     : complete (streaming trigger)"),
        },
        CalibrationStatus::EofFinalized => match threshold {
            Some(t) => {
                push_str(out, "Calibration     : complete (EOF finalize, threshold=");
                push_str(out, t.as_str());
                push_str(out, ")");
            },
            None => push_str(out, "Calibration     : complete (EOF finalize)"),
        },
        CalibrationStatus::NotEnoughData => push_str(
            out,
            "Calibration     : incomplete (need at least 8 unique log templates at EOF; scores unavailable)",
        ),
    }
    assert(out@ =~= start + calibration_line_spec(status, opt_view(*threshold)));
}

fn push_top_entry(out: &mut String, e: &TopAnomaly)
    ensures
        final(out)@ == old(out)@ + top_entry_spec(*e),
{
    let ghost start = out@;
    push_str(out, "  [score=");
    push_str(out, e.score_text.as_str());
    push_str(out, "] ");
    let shown = truncate_line(e.line.as_str(), 120);
    push_str(out, shown.as_str());
    push_str(out, "\n");
    match &e.explanation {
        Some(x) => {
            push_str(out, "    \u{2514}\u{2500} ");
            push_str(out, x.as_str());
            push_str(out, "\n");
        },
        None => {},
    }
    assert(out@ =~= start + top_entry_spec(*e));
}

/// Writes the text report of a scan.
pub fn text_report(s: &ScanSummary) -> (out: String)
    ensures
        out@ == text_report_spec(*s),
{
    let mut out = String::new();
    push_str(&mut out, "\n--- TurboLog Scan Report ---\n");
    push_str(&mut out, "Lines processed : ");
    push_decimal(&mut out, s.total as u128);
    push_str(&mut out, "\n");
    push_str(&mut out, "Templates found : ");
    push_decimal(&mut out, s.templates as u128);
    push_str(&mut out, "\n");
    push_str(&mut out, "Anomalies       : ");
    push_decimal(&mut out, s.anomalies as u128);
    push_str(&mut out, " (");
    let rate = rate_text(s.anomalies, s.total);
    push_str(&mut out, rate.as_str());
    push_str(&mut out, "%)\n");
    push_calibration_line(&mut out, s.status, &s.threshold_text);
    push_str(&mut out, "\n");
    let ghost head = out@;
    if s.top.len() == 0 {
        push_str(&mut out, "\nNo anomalies detected.\n");
    } else {
        push_str(&mut out, "\nTop anomalies:\n");
        let ghost list_start = out@;
        let mut i: usize = 0;
        while i < s.top.len()
            invariant
                i <= s.top@.len(),
                out@ == list_start + top_entries_spec(s.top@, i as int),
            decreases s.top@.len() - i,
        {
            push_top_entry(&mut out, &s.top[i]);
            assert(out@ =~= list_start + top_entries_spec(s.top@, i as int + 1));
            i = i + 1;
        }
    }
    push_str(&mut out, "\n");
    assert(out@ =~= text_report_spec(*s));
    out
}

/// One processed line of a scan, after the end-of-input rescoring: its
/// template, whether it is an anomaly, and the order key of its score
/// (larger key, larger score).
pub struct ScanLine {
    pub template: String,
    pub is_anomaly: bool,
    pub score_key: u32,
}

/// The counts and picks of a scan.
pub struct ScanTally {
    /// Lines processed.
    pub total: usize,
    /// Distinct templates among them.
    pub templates: usize,
    /// Positions of the anomalous lines, in input order.
    pub anomalies: Vec<usize>,
    /// Positions of the lines the report lists, in report order.
    pub top: Vec<usize>,
}

/// Which lines are anomalies.
pub open spec fn flags_of(lines: Seq<ScanLine>) -> Seq<bool> {
    lines.map_values(|l: ScanLine| l.is_anomaly)
}

/// The templates of the lines.
pub open spec fn templates_of(lines: Seq<ScanLine>) -> Seq<Seq<char>> {
    lines.map_values(|l: ScanLine| l.template@)
}

/// The positions holding `true`, in increasing order.
pub open spec fn true_positions(flags: Seq<bool>) -> Seq<usize>
    decreases flags.len(),
{
    if flags.len() == 0 {
        Seq::empty()
    } else if flags.last() {
        true_positions(flags.drop_last()).push((flags.len() - 1) as usize)
    } else {
        true_positions(flags.drop_last())
    }
}

/// The score keys of the lines at positions `pos`.
pub open spec fn keys_at(lines: Seq<ScanLine>, pos: Seq<usize>) -> Seq<u32> {
    pos.map_values(|p: usize| lines[p as int].score_key)
}

/// The entries of `a` at the indices `r`.
pub open spec fn entries_at(a: Seq<usize>, r: Seq<usize>) -> Seq<usize> {
    r.map_values(|i: usize| a[i as int])
}

/// Tallies a scan: how many lines, how many distinct templates, which
/// lines are anomalies (their number is the scan's anomaly count), and
/// which anomalies the report lists — the [`TOP_ANOMALIES`] highest
/// scores, highest first, ties in input order.
pub fn tally(lines: &Vec<ScanLine>) -> (t: ScanTally)
    ensures
        t.total == lines@.len(),
        t.templates == distinct_count(templates_of(lines@)),
        t.anomalies@ == true_positions(flags_of(lines@)),
        exists|r: Seq<usize>|
            is_top(keys_at(lines@, t.anomalies@), TOP_ANOMALIES as nat, r)
            && t.top@ == #[trigger] entries_at(t.anomalies@, r),
{
    let n = lines.len();
    let mut names: Vec<String> = Vec::new();
    let mut anomalies: Vec<usize> = Vec::new();
    let mut i: usize = 0;
    while i < n
        invariant
            n == lines@.len(),
            i <= n,
            texts_view(names@) == templates_of(lines@).take(i as int),
            anomalies@ == true_positions(flags_of(lines@).take(i as int)),
            forall|j: int| 0 <= j < anomalies@.len() ==> anomalies@[j] < i,
        decreases n - i,
    {
        let line = &lines[i];
        let ghost before = names@;
        let name = line.template.clone();
        names.push(name);
        assert(names@ == before.push(name));
        assert(texts_view(names@) =~= texts_view(before).push(lines@[i as int].template@));
        assert(templates_of(lines@).take(i as int + 1) =~= templates_of(lines@).take(i as int).push(lines@[i as int].template@));
        let ghost f = flags_of(lines@);
        assert(f.take(i as int + 1).drop_last() =~= f.take(i as int));
        if line.is_anomaly {
            anomalies.push(i);
        }
        i = i + 1;
    }
    assert(texts_view(names@) =~= templates_of(lines@));
    assert(flags_of(lines@).take(n as int) =~= flags_of(lines@));
    let templates = count_distinct(&names);
    let mut keys: Vec<u32> = Vec::new();
    let mut j: usize = 0;
    while j < anomalies.len()
        invariant
            j <= anomalies@.len(),
            n == lines@.len(),
            forall|q: int| 0 <= q < anomalies@.len() ==> anomalies@[q] < n,
            keys@ == keys_at(lines@, anomalies@).take(j as int),
        decreases anomalies@.len() - j,
    {
        let p = anomalies[j];
        keys.push(lines[p].score_key);
        assert(keys_at(lines@, anomalies@).take(j as int + 1) =~= keys_at(lines@, anomalies@).take(j as int).push(lines@[p as int].score_key));
        j = j + 1;
    }
    assert(keys@ =~= keys_at(lines@, anomalies@));
    let ranks = top_indices(&keys, TOP_ANOMALIES);
    let mut top: Vec<usize> = Vec::new();
    let mut q: usize = 0;
    while q < ranks.len()
        invariant
            q <= ranks@.len(),
            is_top(keys_at(lines@, anomalies@), TOP_ANOMALIES as nat, ranks@),
            keys_at(lines@, anomalies@).len() == anomalies@.len(),
            top@ == entries_at(anomalies@, ranks@.take(q as int)),
        decreases ranks@.len() - q,
    {
        let r = ranks[q];
        top.push(anomalies[r]);
        assert(entries_at(anomalies@, ranks@.take(q as int + 1)) =~= entries_at(anomalies@, ranks@.take(q as int)).push(anomalies@[r as int]));
        q = q + 1;
    }
    assert(ranks@.take(q as int) =~= ranks@);
    let t = ScanTally { total: n, templates, anomalies, top };
    assert(is_top(keys_at(lines@, t.anomalies@), TOP_ANOMALIES as nat, ranks@)
        && t.top@ == entries_at(t.anomalies@, ranks@));
    t
}

/// The scan's result for its exit status: the number of anomalies tallied.
pub fn scan_stats(t: &ScanTally) -> (s: ScanStats)
    ensures
        s.anomaly_count == t.anomalies@.len(),
{
    ScanStats { anomaly_count: t.anomalies.len() }
}

} // verus!

//! `turbolog diagnose`: the prompt that asks the LLM to summarise the
//! recurring anomaly patterns of a time window.

use vstd::prelude::*;

use crate::text::{chars_of, decimal, prefix_then, push_decimal, push_str};

verus! {

/// A recurring anomaly pattern as the diagnose prompt shows it. The average
/// score is carried as its two-decimal text (`{:.2}`), formatted by the
/// caller.
pub struct TemplateSummary {
    pub count: u64,
    pub avg_score_text: String,
    pub template: String,
    pub last_seen: i64,
    pub sample_line: String,
}

/// `s` cut to at most `max_chars` characters, the last one replaced by `…`
/// when it was cut.
pub open spec fn truncate_line_spec(s: Seq<char>, max_chars: nat) -> Seq<char> {
    if s.len() <= max_chars {
        s
    } else {
        s.take(if max_chars == 0 { 0 } else { max_chars - 1 }) + seq!['\u{2026}']
    }
}

/// Shortens a line for display: unchanged when it has at most `max_chars`
/// characters, else its first `max_chars - 1` characters and `…`.
pub fn truncate_line(s: &str, max_chars: usize) -> (r: String)
    ensures
        r@ == truncate_line_spec(s@, max_chars as nat),
{
    let cs = chars_of(s);
    if cs.len() <= max_chars {
        return String::from_str(s);
    }
    let keep = if max_chars == 0 { 0 } else { max_chars - 1 };
    let r = prefix_then(&cs, keep, "\u{2026}");
    assert("\u{2026}"@ == seq!['\u{2026}']) by {
        reveal_strlit("\u{2026}");
    }
    r
}

/// One numbered line of the prompt for the pattern at position `i`.
pub open spec fn pattern_line_spec(i: nat, p: TemplateSummary) -> Seq<char> {
    decimal(i + 1) + ". "@ + decimal(p.count as nat) + "× avg_score="@ + p.avg_score_text@
        + " template=\""@ + p.template@ + "\" example=\""@
        + truncate_line_spec(p.sample_line@, 120) + "\""@
}

/// The header line of the prompt.
pub open spec fn prompt_header_spec(since: Seq<char>) -> Seq<char> {
    "Anomaly patterns from the last "@ + since + " (grouped by log template):"@
}

/// The closing instruction of the prompt.
pub open spec fn prompt_question() -> Seq<char> {
    "In 2-3 sentences: what is the most likely root cause and what should the developer check first? No markdown, no preamble."@
}

/// The pattern lines for the first `n` patterns, each followed by a newline.
pub open spec fn pattern_lines_spec(ps: Seq<TemplateSummary>, n: nat) -> Seq<char>
    decreases n,
{
    if n == 0 {
        Seq::empty()
    } else {
        pattern_lines_spec(ps, (n - 1) as nat) + pattern_line_spec((n - 1) as nat, ps[n - 1]) + "\n"@
    }
}

/// The whole prompt: the header, the first five patterns, the question,
/// one per line.
pub open spec fn diagnose_prompt_spec(since: Seq<char>, ps: Seq<TemplateSummary>) -> Seq<char> {
    let n: nat = if ps.len() < 5 { ps.len() } else { 5 };
    prompt_header_spec(since) + "\n"@ + pattern_lines_spec(ps, n) + prompt_question()
}

/// One numbered pattern line.
fn pattern_line(i: usize, p: &TemplateSummary) -> (r: String)
    requires
        i < usize::MAX,
    ensures
        r@ == pattern_line_spec(i as nat, *p),
{
    let mut r = String::new();
    push_decimal(&mut r, (i + 1) as u128);
    push_str(&mut r, ". ");
    push_decimal(&mut r, p.count as u128);
    push_str(&mut r, "× avg_score=");
    push_str(&mut r, p.avg_score_text.as_str());
    push_str(&mut r, " template=\"");
    push_str(&mut r, p.template.as_str());
    push_str(&mut r, "\" example=\"");
    let sample = truncate_line(p.sample_line.as_str(), 120);
    push_str(&mut r, sample.as_str());
    push_str(&mut r, "\"");
    r
}

/// Builds the LLM prompt summarising the top patterns of a diagnose window.
pub fn build_diagnose_prompt(since: &str, patterns: &Vec<TemplateSummary>) -> (r: String)
    ensures
        r@ == diagnose_prompt_spec(since@, patterns@),
{
    let mut r = String::new();
    push_str(&mut r, "Anomaly patterns from the last ");
    push_str(&mut r, since);
    push_str(&mut r, " (grouped by log template):");
    push_str(&mut r, "\n");
    let n: usize = if patterns.len() < 5 { patterns.len() } else { 5 };
    let ghost start = r@;
    let mut i: usize = 0;
    while i < n
        invariant
            i <= n <= patterns@.len(),
            r@ == start + pattern_lines_spec(patterns@, i as nat),
        decreases n - i,
    {
        let line = pattern_line(i, &patterns[i]);
        let ghost before = r@;
        push_str(&mut r, line.as_str());
        push_str(&mut r, "\n");
        assert(pattern_lines_spec(patterns@, (i + 1) as nat)
            == pattern_lines_spec(patterns@, i as nat) + pattern_line_spec(i as nat, patterns@[i as int]) + "\n"@);
        assert(r@ =~= start + pattern_lines_spec(patterns@, (i + 1) as nat));
        i = i + 1;
    }
    push_str(&mut r, "In 2-3 sentences: what is the most likely root cause and what should the developer check first? No markdown, no preamble.");
    r
}

/// The number of anomalies the patterns account for.
pub open spec fn patterns_total(ps: Seq<TemplateSummary>) -> nat
    decreases ps.len(),
{
    if ps.len() == 0 { 0 } else { patterns_total(ps.drop_last()) + ps.last().count as nat }
}

/// One pattern of the diagnose report: its count, average score and
/// template, then its sample line cut to 80 characters.
pub open spec fn diagnose_pattern_spec(p: TemplateSummary) -> Seq<char> {
    "  "@ + decimal(p.count as nat) + "×  [avg "@ + p.avg_score_text@ + "]  "@ + p.template@ + "\n"@
        + "       e.g. "@ + truncate_line_spec(p.sample_line@, 80) + "\n"@
}

/// The first `k` patterns of the report.
pub open spec fn diagnose_patterns_spec(ps: Seq<TemplateSummary>, k: int) -> Seq<char>
    decreases k,
{
    if k <= 0 { Seq::empty() } else { diagnose_patterns_spec(ps, k - 1) + diagnose_pattern_spec(ps[k - 1]) }
}

/// `turbolog diagnose` in text: a note when the window recorded nothing;
/// else the total, the patterns by frequency, the most frequent one as the
/// likely focus, and the LLM's summary when there is one.
pub open spec fn diagnose_text_spec(since: Seq<char>, ps: Seq<TemplateSummary>, summary: Option<Seq<char>>) -> Seq<char> {
    let head = "\n--- TurboLog Diagnose (last "@ + since + ") ---\n"@;
    if ps.len() == 0 {
        head + "No anomalies recorded in this window.\n\n"@
    } else {
        head + "Total anomalies : "@ + decimal(patterns_total(ps)) + "\n\nPatterns (by frequency):\n"@
            + diagnose_patterns_spec(ps, ps.len() as int)
            + "\nLikely focus:\n  \u{2192} \""@ + ps[0].template@ + "\" ("@ + decimal(ps[0].count as nat)
            + (if ps[0].count == 1 { " occurrence)\n"@ } else { " occurrences)\n"@ })
            + match summary {
                Some(x) => "\nSummary:\n  "@ + x + "\n"@,
                None => Seq::empty(),
            }
            + "\n"@
    }
}

fn push_diagnose_pattern(out: &mut String, p: &TemplateSummary)
    ensures
        final(out)@ == old(out)@ + diagnose_pattern_spec(*p),
{
    let ghost start = out@;
    push_str(out, "  ");
    push_decimal(out, p.count as u128);
    push_str(out, "×  [avg ");
    push_str(out, p.avg_score_text.as_str());
    push_str(out, "]  ");
    push_str(out, p.template.as_str());
    push_str(out, "\n");
    push_str(out, "       e.g. ");
    let sample = truncate_line(p.sample_line.as_str(), 80);
    push_str(out, sample.as_str());
    push_str(out, "\n");
    assert(out@ =~= start + diagnose_pattern_spec(*p));
}

/// Writes the diagnose report for the patterns of the window `since`
/// (most frequent first), with the LLM's summary when one came back. The
/// total must fit in a `u64`, as the original's sum requires.
pub fn diagnose_text(since: &str, patterns: &Vec<TemplateSummary>, summary: Option<&str>) -> (out: String)
    requires
        patterns_total(patterns@) <= u64::MAX,
    ensures
        out@ == diagnose_text_spec(since@, patterns@, match summary { Some(x) => Some(x@), None => None }),
{
    let mut out = String::new();
    push_str(&mut out, "\n--- TurboLog Diagnose (last ");
    push_str(&mut out, since);
    push_str(&mut out, ") ---\n");
    if patterns.len() == 0 {
        push_str(&mut out, "No anomalies recorded in this window.\n\n");
        assert(out@ =~= diagnose_text_spec(since@, patterns@, match summary { Some(x) => Some(x@), None => None }));
        return out;
    }
    let ghost head = out@;
    let mut total: u64 = 0;
    let mut i: usize = 0;
    while i < patterns.len()
        invariant
            i <= patterns@.len(),
            patterns_total(patterns@) <= u64::MAX,
            total == patterns_total(patterns@.take(i as int)),
        decreases patterns@.len() - i,
    {
        proof {
            assert(patterns@.take(i as int + 1).drop_last() =~= patterns@.take(i as int));
            lemma_total_prefix(patterns@, i as int + 1);
        }
        total = total + patterns[i].count;
        i = i + 1;
    }
    assert(patterns@.take(i as int) =~= patterns@);
    push_str(&mut out, "Total anomalies : ");
    push_decimal(&mut out, total as u128);
    push_str(&mut out, "\n\nPatterns (by frequency):\n");
    let ghost list_start = out@;
    let mut j: usize = 0;
    while j < patterns.len()
        invariant
            j <= patterns@.len(),
            out@ == list_start + diagnose_patterns_spec(patterns@, j as int),
        decreases patterns@.len() - j,
    {
        push_diagnose_pattern(&mut out, &patterns[j]);
        assert(out@ =~= list_start + diagnose_patterns_spec(patterns@, j as int + 1));
        j = j + 1;
    }
    let first = &patterns[0];
    push_str(&mut out, "\nLikely focus:\n  \u{2192} \"");
    push_str(&mut out, first.template.as_str());
    push_str(&mut out, "\" (");
    push_decimal(&mut out, first.count as u128);
    if first.count == 1 {
        push_str(&mut out, " occurrence)\n");
    } else {
        push_str(&mut out, " occurrences)\n");
    }
    match summary {
        Some(x) => {
            push_str(&mut out, "\nSummary:\n  ");
            push_str(&mut out, x);
            push_str(&mut out, "\n");
        },
        None => {},
    }
    push_str(&mut out, "\n");
    assert(out@ =~= diagnose_text_spec(since@, patterns@, match summary { Some(x) => Some(x@), None => None }));
    out
}

/// A prefix of the patterns accounts for no more anomalies than all of them.
proof fn lemma_total_prefix(ps: Seq<TemplateSummary>, k: int)
    requires
        0 <= k <= ps.len(),
    ensures
        patterns_total(ps.take(k)) <= patterns_total(ps),
    decreases ps.len() - k,
{
    if k < ps.len() {
        lemma_total_prefix(ps, k + 1);
        assert(ps.take(k + 1).drop_last() =~= ps.take(k));
    } else {
        assert(ps.take(k) =~= ps);
    }
}

} // verus!

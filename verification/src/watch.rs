//! `turbolog watch`: what each input line turns into on the terminal, the
//! run's counters, and the status lines on stderr.

use vstd::prelude::*;

use crate::pipeline::CALIBRATION_TEMPLATES;
use crate::text::{decimal, push_decimal, push_str};

verus! {

/// ANSI red (anomalies).
pub const RED: &'static str = "\x1b[31m";
/// ANSI dim (calibrating lines, missing explanations).
pub const DIM: &'static str = "\x1b[2m";
/// ANSI reset.
pub const RESET: &'static str = "\x1b[0m";
/// ANSI yellow (status lines).
pub const YELLOW: &'static str = "\x1b[33m";
/// ANSI cyan (explanations).
pub const CYAN: &'static str = "\x1b[36m";
/// ANSI magenta (recurring marker).
pub const MAGENTA: &'static str = "\x1b[35m";

/// Output switches of `watch`.
pub struct WatchOptions {
    pub only_anomalies: bool,
    pub quiet: bool,
}

/// Counters of one `watch` run.
pub struct WatchStats {
    pub anomaly_count: u64,
    pub lines_processed: u64,
}

impl WatchStats {
    /// Anomalies are counted among the processed lines.
    pub open spec fn wf(&self) -> bool {
        self.anomaly_count <= self.lines_processed
    }

    /// Counters of a run that has not read a line yet.
    pub fn new() -> (s: WatchStats)
        ensures
            s.anomaly_count == 0,
            s.lines_processed == 0,
            s.wf(),
    {
        WatchStats { anomaly_count: 0, lines_processed: 0 }
    }

    /// Counts one non-empty input line, and one anomaly when it scored as one.
    pub fn record(&mut self, is_anomaly: bool)
        requires
            old(self).wf(),
            old(self).lines_processed < u64::MAX,
        ensures
            final(self).wf(),
            final(self).lines_processed == old(self).lines_processed + 1,
            final(self).anomaly_count == old(self).anomaly_count + (if is_anomaly { 1int } else { 0int }),
    {
        self.lines_processed = self.lines_processed + 1;
        if is_anomaly {
            self.anomaly_count = self.anomaly_count + 1;
        }
    }
}

/// Colour is used only when `NO_COLOR` is unset, stderr is a terminal and
/// the run is not quiet.
pub fn use_color(no_color_set: bool, stderr_is_terminal: bool, quiet: bool) -> (b: bool)
    ensures
        b == (!no_color_set && stderr_is_terminal && !quiet),
{
    !no_color_set && stderr_is_terminal && !quiet
}

/// What `watch` prints on stdout for one input line.
#[derive(Clone, Copy, Debug, PartialEq, Eq, Structural)]
pub enum WatchLine {
    /// An empty input line echoed as an empty line.
    Blank,
    /// Nothing is printed.
    Hidden,
    /// The `[ANOMALY …]` line, with its follow-up lines.
    Anomaly,
    /// The line under a `[calibrating n/64]` prefix.
    Calibrating,
    /// The line as it was read.
    Plain,
}

/// The decision for one line. `scored` says whether the detector gave the
/// line a score; `is_anomaly` whether that score crossed the threshold.
pub open spec fn watch_line_spec(empty: bool, scored: bool, is_anomaly: bool, opts: WatchOptions) -> WatchLine {
    if empty {
        if opts.only_anomalies { WatchLine::Hidden } else { WatchLine::Blank }
    } else if is_anomaly {
        WatchLine::Anomaly
    } else if opts.only_anomalies {
        WatchLine::Hidden
    } else if !scored && !opts.quiet {
        WatchLine::Calibrating
    } else {
        WatchLine::Plain
    }
}

/// Chooses how one input line is shown: anomalies always; with
/// `only_anomalies` nothing else; a line read before the detector was
/// fitted carries the calibration prefix unless the run is quiet.
pub fn watch_line(empty: bool, scored: bool, is_anomaly: bool, opts: &WatchOptions) -> (w: WatchLine)
    ensures
        w == watch_line_spec(empty, scored, is_anomaly, *opts),
{
    if empty {
        if opts.only_anomalies { WatchLine::Hidden } else { WatchLine::Blank }
    } else if is_anomaly {
        WatchLine::Anomaly
    } else if opts.only_anomalies {
        WatchLine::Hidden
    } else if !scored && !opts.quiet {
        WatchLine::Calibrating
    } else {
        WatchLine::Plain
    }
}

/// `text` between `open` and `RESET` when `color`, else `text` alone.
pub open spec fn painted(color: bool, open: Seq<char>, text: Seq<char>) -> Seq<char> {
    if color { open + text + RESET@ } else { text }
}

fn push_painted_start(out: &mut String, color: bool, open: &str)
    ensures
        final(out)@ == old(out)@ + (if color { open@ } else { Seq::<char>::empty() }),
{
    if color {
        push_str(out, open);
    } else {
        assert(old(out)@ + Seq::<char>::empty() =~= old(out)@);
    }
}

fn push_painted_end(out: &mut String, color: bool)
    ensures
        final(out)@ == old(out)@ + (if color { RESET@ } else { Seq::<char>::empty() }),
{
    if color {
        push_str(out, RESET);
    } else {
        assert(old(out)@ + Seq::<char>::empty() =~= old(out)@);
    }
}

/// The anomaly line: `[ANOMALY <score>] <line>`, the tag in red.
pub open spec fn anomaly_line_spec(line: Seq<char>, score_text: Seq<char>, color: bool) -> Seq<char> {
    painted(color, RED@, "[ANOMALY "@ + score_text + "]"@) + " "@ + line
}

/// Builds the anomaly line; `score_text` is the score with two decimals.
pub fn anomaly_line(line: &str, score_text: &str, color: bool) -> (s: String)
    ensures
        s@ == anomaly_line_spec(line@, score_text@, color),
{
    let mut s = String::new();
    push_painted_start(&mut s, color, RED);
    push_str(&mut s, "[ANOMALY ");
    push_str(&mut s, score_text);
    push_str(&mut s, "]");
    push_painted_end(&mut s, color);
    push_str(&mut s, " ");
    push_str(&mut s, line);
    assert(s@ =~= anomaly_line_spec(line@, score_text@, color));
    s
}

/// The marker printed under an anomaly whose template was seen before.
pub open spec fn recurring_line_spec(color: bool) -> Seq<char> {
    "  "@ + painted(color, MAGENTA@, "\u{21bb} recurring pattern"@)
}

/// Builds the recurring-pattern marker.
pub fn recurring_line(color: bool) -> (s: String)
    ensures
        s@ == recurring_line_spec(color),
{
    let mut s = String::new();
    push_str(&mut s, "  ");
    push_painted_start(&mut s, color, MAGENTA);
    push_str(&mut s, "\u{21bb} recurring pattern");
    push_painted_end(&mut s, color);
    assert(s@ =~= recurring_line_spec(color));
    s
}

/// The explanation under an anomaly, or the note that none came back.
pub open spec fn explanation_line_spec(explanation: Option<Seq<char>>, color: bool) -> Seq<char> {
    match explanation {
        Some(e) => "  "@ + painted(color, CYAN@, "\u{2514}\u{2500} "@ + e),
        None => "  "@ + painted(color, DIM@, "\u{2514}\u{2500} (LLM explanation unavailable)"@),
    }
}

/// Builds the line under an anomaly that shows the LLM's explanation.
pub fn explanation_line(explanation: Option<&str>, color: bool) -> (s: String)
    ensures
        s@ == explanation_line_spec(
            match explanation { Some(e) => Some(e@), None => None },
            color,
        ),
{
    let mut s = String::new();
    push_str(&mut s, "  ");
    match explanation {
        Some(e) => {
            push_painted_start(&mut s, color, CYAN);
            push_str(&mut s, "\u{2514}\u{2500} ");
            push_str(&mut s, e);
        },
        None => {
            push_painted_start(&mut s, color, DIM);
            push_str(&mut s, "\u{2514}\u{2500} (LLM explanation unavailable)");
        },
    }
    push_painted_end(&mut s, color);
    assert(s@ =~= explanation_line_spec(
        match explanation { Some(e) => Some(e@), None => None },
        color,
    ));
    s
}

/// The prefix of a line read while calibrating: `[calibrating n/64]`.
pub open spec fn calibrating_prefix_spec(progress: nat) -> Seq<char> {
    "[calibrating "@ + decimal(progress) + "/"@ + decimal(CALIBRATION_TEMPLATES as nat) + "]"@
}

/// The calibrating line: the prefix (dimmed) and the line.
pub open spec fn calibrating_line_spec(line: Seq<char>, progress: nat, color: bool) -> Seq<char> {
    painted(color, DIM@, calibrating_prefix_spec(progress)) + " "@ + line
}

/// Builds a line read before the detector was fitted; `progress` is the
/// number of distinct templates sampled so far.
pub fn calibrating_line(line: &str, progress: usize, color: bool) -> (s: String)
    ensures
        s@ == calibrating_line_spec(line@, progress as nat, color),
{
    let mut s = String::new();
    push_painted_start(&mut s, color, DIM);
    push_str(&mut s, "[calibrating ");
    push_decimal(&mut s, progress as u128);
    push_str(&mut s, "/");
    push_decimal(&mut s, CALIBRATION_TEMPLATES as u128);
    push_str(&mut s, "]");
    push_painted_end(&mut s, color);
    push_str(&mut s, " ");
    push_str(&mut s, line);
    assert(s@ =~= calibrating_line_spec(line@, progress as nat, color));
    s
}

/// The status line when calibration completes; the threshold, when known,
/// with three decimals.
pub open spec fn calibration_complete_spec(threshold_text: Option<Seq<char>>, color: bool) -> Seq<char> {
    let text = match threshold_text {
        Some(t) => "[turbolog] calibration complete \u{2014} anomaly detection active (threshold="@ + t + ")"@,
        None => "[turbolog] calibration complete \u{2014} anomaly detection active"@,
    };
    painted(color, YELLOW@, text)
}

/// Builds the one-time stderr line printed when calibration completes.
pub fn calibration_complete_message(threshold_text: Option<&str>, color: bool) -> (s: String)
    ensures
        s@ == calibration_complete_spec(
            match threshold_text { Some(t) => Some(t@), None => None },
            color,
        ),
{
    let mut s = String::new();
    push_painted_start(&mut s, color, YELLOW);
    push_str(&mut s, "[turbolog] calibration complete \u{2014} anomaly detection active");
    match threshold_text {
        Some(t) => {
            push_str(&mut s, " (threshold=");
            push_str(&mut s, t);
            push_str(&mut s, ")");
        },
        None => {},
    }
    push_painted_end(&mut s, color);
    proof {
        reveal_strlit("[turbolog] calibration complete \u{2014} anomaly detection active");
        reveal_strlit(" (threshold=");
        reveal_strlit("[turbolog] calibration complete \u{2014} anomaly detection active (threshold=");
    }
    assert(s@ =~= calibration_complete_spec(
        match threshold_text { Some(t) => Some(t@), None => None },
        color,
    ));
    s
}

/// Whether the completion line is due after a line: not quiet, and the
/// detector became fitted while handling it.
pub fn calibration_just_completed(quiet: bool, was_calibrated: bool, now_calibrated: bool) -> (b: bool)
    ensures
        b == (!quiet && !was_calibrated && now_calibrated),
{
    !quiet && !was_calibrated && now_calibrated
}

} // verus!

//! Calibration decisions of the single-threaded `watch` / `scan` pipeline.
//!
//! Before the detector exists, every processed line is shown to a
//! [`Calibration`]: it remembers which templates were seen, says which
//! template vectors go into the calibration sample, and says when — and with
//! how many centroids — to fit the detector. The detector is fitted at most
//! once and then stays frozen.

use vstd::prelude::*;
use vstd::string::*;

verus! {

/// Distinct templates to collect before freezing the centroids.
pub const CALIBRATION_TEMPLATES: usize = 64;
/// The fewest distinct templates `scan`'s end-of-input finalize calibrates on.
pub const MIN_CALIBRATION_TEMPLATES: usize = 8;
/// The fewest distinct templates the line-budget trigger calibrates on.
pub const MIN_CALIBRATION_TEMPLATES_BUDGET: usize = 3;
/// After this many lines, calibrate on the templates collected so far.
pub const CALIBRATION_LINE_BUDGET: usize = 500;
/// Most centroids fitted.
pub const CENTROID_K: usize = 8;
/// Embedding dimension of all-MiniLM-L6-v2.
pub const DIM: usize = 384;

/// What to do with the line just observed.
#[derive(Debug, PartialEq, Eq, Clone, Copy)]
pub struct CalibrationStep {
    /// Add this line's template vector to the calibration sample.
    pub collect: bool,
    /// Fit the detector now on the sample, with this many centroids.
    pub fit_k: Option<usize>,
}

/// Abstract state of a [`Calibration`].
pub struct CalibrationView {
    pub calibrated: bool,
    /// Template vectors in the calibration sample.
    pub count: nat,
    /// Lines observed while uncalibrated.
    pub lines: nat,
    /// Distinct templates observed while uncalibrated.
    pub seen: Set<Seq<char>>,
}

/// The calibration bookkeeping of one pipeline.
pub struct Calibration {
    calibrated: bool,
    calibration_count: usize,
    seen_templates: Vec<String>,
    lines_seen: usize,
}

/// Centroid count for a sample of `count` templates.
pub open spec fn centroid_k(count: nat) -> nat {
    if count < CENTROID_K { count } else { CENTROID_K as nat }
}

/// Whether the streaming triggers fire: the full sample is collected, or the
/// line budget is spent with at least the budget minimum of templates.
pub open spec fn streaming_trigger(count: nat, lines: nat) -> bool {
    count >= CALIBRATION_TEMPLATES
        || (lines >= CALIBRATION_LINE_BUDGET && count >= MIN_CALIBRATION_TEMPLATES_BUDGET)
}

/// The state after observing a line whose template is `t`, and the step.
pub open spec fn observe_spec(s: CalibrationView, t: Seq<char>) -> (CalibrationView, CalibrationStep) {
    if s.calibrated {
        (s, CalibrationStep { collect: false, fit_k: None })
    } else {
        let lines = s.lines + 1;
        let is_new = !s.seen.contains(t);
        let collect = is_new && s.count < CALIBRATION_TEMPLATES;
        let count = if collect { s.count + 1 } else { s.count };
        let fire = streaming_trigger(count, lines);
        (
            CalibrationView { calibrated: fire, count, lines, seen: s.seen.insert(t) },
            CalibrationStep {
                collect,
                fit_k: if fire { Some(centroid_k(count) as usize) } else { None },
            },
        )
    }
}

/// The state after end-of-input finalize, and the centroid count to fit with
/// when it calibrates now.
pub open spec fn finalize_spec(s: CalibrationView) -> (CalibrationView, Option<usize>) {
    if !s.calibrated && s.count >= MIN_CALIBRATION_TEMPLATES {
        (CalibrationView { calibrated: true, ..s }, Some(centroid_k(s.count) as usize))
    } else {
        (s, None)
    }
}

/// The state after observing the templates `ts` in order, and how many of
/// those observations fitted the detector.
pub open spec fn run_spec(s: CalibrationView, ts: Seq<Seq<char>>) -> (CalibrationView, nat)
    decreases ts.len(),
{
    if ts.len() == 0 {
        (s, 0)
    } else {
        let (s1, step) = observe_spec(s, ts[0]);
        let (s2, n) = run_spec(s1, ts.drop_first());
        (s2, n + if step.fit_k is Some { 1nat } else { 0nat })
    }
}

/// Centroids are frozen: over any run of lines followed by the end-of-input
/// finalize, the detector is fitted at most once, and never again once it is
/// calibrated.
pub proof fn lemma_detector_fitted_at_most_once(s: CalibrationView, ts: Seq<Seq<char>>)
    ensures
        ({
            let (end, fits) = run_spec(s, ts);
            let last = if finalize_spec(end).1 is Some { 1nat } else { 0nat };
            &&& s.calibrated ==> fits + last == 0
            &&& fits + last <= 1
            &&& s.calibrated ==> end.calibrated
        }),
    decreases ts.len(),
{
    if ts.len() > 0 {
        let (s1, step) = observe_spec(s, ts[0]);
        lemma_detector_fitted_at_most_once(s1, ts.drop_first());
        if step.fit_k is Some {
            assert(s1.calibrated);
        }
    }
}

/// Every fit uses between 3 and 8 centroids, and no more centroids than
/// collected template vectors.
pub proof fn lemma_fit_centroid_count(s: CalibrationView, t: Seq<char>)
    ensures
        ({
            let (s1, step) = observe_spec(s, t);
            step.fit_k matches Some(k) ==> 3 <= k <= CENTROID_K && k <= s1.count
        }),
        finalize_spec(s).1 matches Some(k) ==> 3 <= k <= CENTROID_K && k <= s.count,
{
}

/// One processed line moves calibration forward by at most one template and
/// never past the full sample; once calibrated nothing changes (the
/// centroids stay frozen); while uncalibrated, the detector is fitted
/// exactly when the full sample is reached, or when the line budget is
/// spent with at least the budget minimum of templates.
pub proof fn lemma_observe_progress(s: CalibrationView, t: Seq<char>)
    requires
        s.count <= CALIBRATION_TEMPLATES,
    ensures
        ({
            let (s1, step) = observe_spec(s, t);
            &&& s.count <= s1.count <= s.count + 1
            &&& s1.count <= CALIBRATION_TEMPLATES
            &&& s.calibrated ==> s1 == s && step.fit_k is None
            &&& !s.calibrated ==> (s1.calibrated <==> (s1.count >= CALIBRATION_TEMPLATES
                || (s.lines + 1 >= CALIBRATION_LINE_BUDGET && s1.count >= MIN_CALIBRATION_TEMPLATES_BUDGET)))
            &&& !s.calibrated ==> (step.fit_k is Some <==> s1.calibrated)
        }),
{
}

/// A fit uses as many centroids as templates were collected, up to eight:
/// `min(8, count)` for the sample the step or the end-of-input finalize
/// fits on.
pub proof fn lemma_fit_uses_min_of_eight_and_sample(s: CalibrationView, t: Seq<char>)
    ensures
        ({
            let (s1, step) = observe_spec(s, t);
            step.fit_k matches Some(k) ==> k == (if s1.count < 8 { s1.count } else { 8 })
        }),
        finalize_spec(s).1 matches Some(k) ==> k == (if s.count < 8 { s.count } else { 8 }),
{
}

impl View for Calibration {
    type V = CalibrationView;

    closed spec fn view(&self) -> CalibrationView {
        CalibrationView {
            calibrated: self.calibrated,
            count: self.calibration_count as nat,
            lines: self.lines_seen as nat,
            seen: self.seen_templates@.map_values(|s: String| s@).to_set(),
        }
    }
}

impl Calibration {
    /// Internal consistency: the sample holds one vector per distinct
    /// template seen, never more than the full sample, and an uncalibrated
    /// pipeline has not reached the full sample.
    pub closed spec fn wf(&self) -> bool {
        &&& self.calibration_count == self.seen_templates@.len()
        &&& self.calibration_count <= CALIBRATION_TEMPLATES
        &&& !self.calibrated ==> self.calibration_count < CALIBRATION_TEMPLATES
        &&& forall|i: int, j: int|
            0 <= i < j < self.seen_templates@.len() ==> #[trigger] self.seen_templates@[i]@
                != #[trigger] self.seen_templates@[j]@
    }

    /// The sample holds exactly one vector per distinct template observed,
    /// and never more than `CALIBRATION_TEMPLATES`.
    pub proof fn lemma_sample_is_distinct_templates(&self)
        requires
            self.wf(),
        ensures
            self@.count == self@.seen.len(),
            self@.seen.finite(),
            self@.count <= CALIBRATION_TEMPLATES,
            !self@.calibrated ==> self@.count < CALIBRATION_TEMPLATES,
    {
        let m = self.seen_templates@.map_values(|s: String| s@);
        assert forall|i: int, j: int| 0 <= i < m.len() && 0 <= j < m.len() && i != j implies m[i] != m[j] by {
            if i < j {
                assert(self.seen_templates@[i]@ != self.seen_templates@[j]@);
            } else {
                assert(self.seen_templates@[j]@ != self.seen_templates@[i]@);
            }
        }
        assert(m.no_duplicates());
        m.unique_seq_to_set();
        vstd::seq_lib::seq_to_set_is_finite(m);
    }

    /// A fresh, uncalibrated state.
    pub fn new() -> (c: Calibration)
        ensures
            c.wf(),
            c@.calibrated == false,
            c@.count == 0,
            c@.lines == 0,
            c@.seen == Set::<Seq<char>>::empty(),
    {
        let c = Calibration {
            calibrated: false,
            calibration_count: 0,
            seen_templates: Vec::new(),
            lines_seen: 0,
        };
        assert(c@.seen =~= Set::<Seq<char>>::empty());
        c
    }

    /// Whether the detector has been fitted.
    pub fn calibrated(&self) -> (b: bool)
        ensures
            b == self@.calibrated,
    {
        self.calibrated
    }

    /// Template vectors collected so far.
    pub fn calibration_progress(&self) -> (n: usize)
        ensures
            n == self@.count,
    {
        self.calibration_count
    }

    /// Lines observed while uncalibrated.
    pub fn lines_seen(&self) -> (n: usize)
        ensures
            n == self@.lines,
    {
        self.lines_seen
    }

    fn has_seen(&self, t: &String) -> (r: bool)
        ensures
            r == self@.seen.contains(t@),
    {
        let mut i: usize = 0;
        while i < self.seen_templates.len()
            invariant
                i <= self.seen_templates@.len(),
                forall|j: int| 0 <= j < i ==> self.seen_templates@[j]@ != t@,
            decreases self.seen_templates@.len() - i,
        {
            if self.seen_templates[i] == *t {
                assert(self.seen_templates@.map_values(|s: String| s@)[i as int] == t@);
                return true;
            }
            i = i + 1;
        }
        assert forall|x: Seq<char>| self@.seen.contains(x) implies x != t@ by {
            let m = self.seen_templates@.map_values(|s: String| s@);
            let j = choose|j: int| 0 <= j < m.len() && m[j] == x;
            assert(m[j] == self.seen_templates@[j]@);
        }
        false
    }

    /// Observes one line, whose Drain template is `template`, while the
    /// detector does not exist yet.
    pub fn observe(&mut self, template: &str) -> (step: CalibrationStep)
        requires
            old(self).wf(),
            old(self)@.lines < usize::MAX,
        ensures
            final(self).wf(),
            (final(self)@, step) == observe_spec(old(self)@, template@),
    {
        if self.calibrated {
            return CalibrationStep { collect: false, fit_k: None };
        }
        let t = String::from_str(template);
        let lines = self.lines_seen + 1;
        let is_new = !self.has_seen(&t);
        let ghost old_seen = self.seen_templates@;
        if is_new {
            self.seen_templates.push(t);
        }
        let collect = is_new && self.calibration_count < CALIBRATION_TEMPLATES;
        let count = if collect { self.calibration_count + 1 } else { self.calibration_count };
        let fire = count >= CALIBRATION_TEMPLATES
            || (lines >= CALIBRATION_LINE_BUDGET && count >= MIN_CALIBRATION_TEMPLATES_BUDGET);
        self.lines_seen = lines;
        self.calibration_count = count;
        self.calibrated = fire;
        proof {
            let m0 = old_seen.map_values(|s: String| s@);
            let m1 = self.seen_templates@.map_values(|s: String| s@);
            if is_new {
                assert(m1 =~= m0.push(template@));
                m0.lemma_push_to_set_commute(template@);
                assert forall|i: int| 0 <= i < old_seen.len() implies #[trigger] old_seen[i]@ != template@ by {
                    assert(m0[i] == old_seen[i]@);
                    assert(m0.contains(old_seen[i]@));
                }
                assert forall|i: int, j: int|
                    0 <= i < j < self.seen_templates@.len() implies #[trigger] self.seen_templates@[i]@
                        != #[trigger] self.seen_templates@[j]@ by {
                    if j == old_seen.len() {
                        assert(self.seen_templates@[i] == old_seen[i]);
                    } else {
                        assert(self.seen_templates@[i] == old_seen[i]);
                        assert(self.seen_templates@[j] == old_seen[j]);
                    }
                }
            } else {
                assert(m1 =~= m0);
                assert(m0.to_set().insert(template@) =~= m0.to_set());
            }
            assert(self@.seen =~= old(self)@.seen.insert(template@));
        }
        let fit_k = if fire {
            Some(if count < CENTROID_K { count } else { CENTROID_K })
        } else {
            None
        };
        CalibrationStep { collect, fit_k }
    }

    /// End of input: calibrates on the collected sample if the streaming
    /// triggers never fired and at least `MIN_CALIBRATION_TEMPLATES`
    /// templates were collected. Returns the centroid count to fit with when
    /// it calibrates now.
    pub fn finalize(&mut self) -> (k: Option<usize>)
        requires
            old(self).wf(),
        ensures
            final(self).wf(),
            (final(self)@, k) == finalize_spec(old(self)@),
    {
        if !self.calibrated && self.calibration_count >= MIN_CALIBRATION_TEMPLATES {
            self.calibrated = true;
            let count = self.calibration_count;
            Some(if count < CENTROID_K { count } else { CENTROID_K })
        } else {
            None
        }
    }
}

} // verus!

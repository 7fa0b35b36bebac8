//! The live dashboard's state: its mode, the quit keys, the bounded
//! windows of recent log lines and anomaly-rate samples, and the small
//! texts it draws.

use vstd::prelude::*;

use crate::metrics::{padded, push_padded};
use crate::text::{decimal, push_decimal, push_str};

verus! {

/// Log lines kept on screen.
pub const MAX_LOG_LINES: usize = 20;
/// Anomaly-rate samples kept for the sparkline.
pub const SPARKLINE_LEN: usize = 60;

/// Where the dashboard's numbers come from.
#[derive(Clone, Copy, Debug, PartialEq, Eq, Structural)]
pub enum DashMode {
    /// Polling a running server's `/stats`.
    HttpClient,
    /// Running a local pipeline over stdin.
    Standalone,
}

/// What the keyboard thread tells the render loop.
#[derive(Clone, Copy, Debug, PartialEq, Eq, Structural)]
pub enum KeyEvent {
    Quit,
}

/// A key press, as far as the dashboard cares.
#[derive(Clone, Copy, Debug, PartialEq, Eq, Structural)]
pub enum KeyInput {
    Char(char),
    Esc,
    Other,
}

/// `q`, Escape and Ctrl-C quit the dashboard.
pub open spec fn is_quit_spec(key: KeyInput, ctrl: bool) -> bool {
    key == KeyInput::Char('q') || key == KeyInput::Esc || (key == KeyInput::Char('c') && ctrl)
}

/// Whether a key press quits the dashboard.
pub fn key_event(key: KeyInput, ctrl: bool) -> (e: Option<KeyEvent>)
    ensures
        e == (if is_quit_spec(key, ctrl) { Some(KeyEvent::Quit) } else { None }),
{
    let quit = match key {
        KeyInput::Char(c) => c == 'q' || (c == 'c' && ctrl),
        KeyInput::Esc => true,
        KeyInput::Other => false,
    };
    if quit { Some(KeyEvent::Quit) } else { None }
}

/// The last `n` items of `s` (all of them when there are fewer).
pub open spec fn last_n<T>(s: Seq<T>, n: nat) -> Seq<T> {
    if s.len() <= n { s } else { s.skip(s.len() - n) }
}

/// A bounded window that keeps the most recent items, oldest first.
pub struct Window<T> {
    items: Vec<T>,
    cap: usize,
}

impl<T> Window<T> {
    /// The items, oldest first.
    pub closed spec fn view_items(&self) -> Seq<T> {
        self.items@
    }

    /// How many items the window keeps.
    pub closed spec fn capacity(&self) -> nat {
        self.cap as nat
    }

    /// A window never holds more than its capacity, which is positive.
    pub closed spec fn wf(&self) -> bool {
        self.cap > 0 && self.items@.len() <= self.cap
    }

    /// An empty window keeping up to `cap` items.
    pub fn new(cap: usize) -> (w: Window<T>)
        requires
            cap > 0,
        ensures
            w.wf(),
            w.capacity() == cap,
            w.view_items() == Seq::<T>::empty(),
    {
        Window { items: Vec::new(), cap }
    }

    /// Appends `x`, dropping the oldest item when the window is full.
    pub fn push(&mut self, x: T)
        requires
            old(self).wf(),
        ensures
            final(self).wf(),
            final(self).capacity() == old(self).capacity(),
            final(self).view_items() == last_n(old(self).view_items().push(x), old(self).capacity()),
    {
        let ghost before = self.items@;
        if self.items.len() >= self.cap {
            self.items.remove(0);
        }
        self.items.push(x);
        proof {
            let s = before.push(x);
            if before.len() >= self.cap {
                assert(self.items@ =~= s.skip(s.len() - self.cap));
            } else {
                assert(self.items@ =~= s);
            }
        }
    }

    /// The items, oldest first.
    pub fn items(&self) -> (v: &Vec<T>)
        ensures
            v@ == self.view_items(),
    {
        &self.items
    }

    /// How many items the window holds now.
    pub fn len(&self) -> (n: usize)
        ensures
            n == self.view_items().len(),
    {
        self.items.len()
    }
}

impl Window<u64> {
    /// A window of `cap` zeros (the sparkline starts flat).
    pub fn zeros(cap: usize) -> (w: Window<u64>)
        requires
            cap > 0,
        ensures
            w.wf(),
            w.capacity() == cap,
            w.view_items() == Seq::new(cap as nat, |i: int| 0u64),
    {
        let mut items: Vec<u64> = Vec::new();
        let mut i: usize = 0;
        while i < cap
            invariant
                i <= cap,
                items@ == Seq::new(i as nat, |j: int| 0u64),
            decreases cap - i,
        {
            items.push(0);
            assert(items@ =~= Seq::new((i + 1) as nat, |j: int| 0u64));
            i = i + 1;
        }
        Window { items, cap }
    }
}

/// A window always holds the most recent pushes: after pushing `xs` in
/// order, it holds the last `capacity` items of everything it held and
/// everything pushed.
pub proof fn lemma_window_keeps_latest<T>(before: Seq<T>, xs: Seq<T>, cap: nat)
    requires
        cap > 0,
        before.len() <= cap,
    ensures
        ({
            let after = xs.fold_left(before, |w: Seq<T>, x: T| last_n(w.push(x), cap));
            after == last_n(before + xs, cap)
        }),
    decreases xs.len(),
{
    if xs.len() == 0 {
        assert(before + xs =~= before);
    } else {
        let init = xs.drop_last();
        let x = xs.last();
        lemma_window_keeps_latest(before, init, cap);
        let mid = init.fold_left(before, |w: Seq<T>, x: T| last_n(w.push(x), cap));
        assert(xs.fold_left(before, |w: Seq<T>, x: T| last_n(w.push(x), cap))
            == last_n(mid.push(x), cap)) by {
            assert(xs.drop_last() == init);
        }
        let all = before + init;
        assert(before + xs =~= all.push(x));
        if all.len() <= cap {
            assert(mid == all);
        } else {
            assert(mid == all.skip(all.len() - cap));
            let full = all.push(x);
            if mid.push(x).len() <= cap {
            } else {
                assert(mid.push(x).skip(mid.push(x).len() - cap) =~= full.skip(full.len() - cap));
            }
        }
    }
}

/// The dashboard's uptime: `<h>h<mm>m<ss>s`.
pub open spec fn uptime_spec(secs: nat) -> Seq<char> {
    decimal(secs / 3600) + "h"@ + padded((secs % 3600) / 60, 2) + "m"@ + padded(secs % 60, 2) + "s"@
}

/// Writes the uptime shown in the stats bar.
pub fn uptime_text(secs: u64) -> (s: String)
    ensures
        s@ == uptime_spec(secs as nat),
{
    let mut s = String::new();
    push_decimal(&mut s, (secs / 3600) as u128);
    push_str(&mut s, "h");
    push_padded(&mut s, (secs % 3600) / 60, 2);
    push_str(&mut s, "m");
    push_padded(&mut s, secs % 60, 2);
    push_str(&mut s, "s");
    assert(s@ =~= uptime_spec(secs as nat));
    s
}

/// The prefix of a log line in the stream panel: the anomaly tag with the
/// score, nothing for a normal scored line, the calibration tag for a line
/// read before the detector was fitted.
pub open spec fn log_prefix_spec(is_anomaly: bool, score_text: Option<Seq<char>>) -> Seq<char> {
    match score_text {
        Some(t) => if is_anomaly { "[ANOMALY "@ + t + "] "@ } else { Seq::empty() },
        None => "[calibrating] "@,
    }
}

/// Builds the prefix of a log line in the stream panel; `score_text` is the
/// score with two decimals, absent before calibration.
pub fn log_prefix(is_anomaly: bool, score_text: Option<&str>) -> (s: String)
    ensures
        s@ == log_prefix_spec(is_anomaly, match score_text { Some(t) => Some(t@), None => None }),
{
    let mut s = String::new();
    match score_text {
        Some(t) => {
            if is_anomaly {
                push_str(&mut s, "[ANOMALY ");
                push_str(&mut s, t);
                push_str(&mut s, "] ");
            }
        },
        None => push_str(&mut s, "[calibrating] "),
    }
    assert(s@ =~= log_prefix_spec(is_anomaly, match score_text { Some(t) => Some(t@), None => None }));
    s
}

} // verus!

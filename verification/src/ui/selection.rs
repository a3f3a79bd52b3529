//! Which terminal mouse gestures may publish a tmux selection.
//!
//! tmux only stores a paste buffer for a drag or a double/triple click.
//! Every other button release leaves tmux's buffer as it was, so treating
//! one as a selection republishes old text over the current selection. A
//! click sequence is recognised the way GTK recognises one: same spot,
//! within the double-click interval. The pointer-position comparisons are
//! made by the caller, which holds the coordinates; this type keeps the
//! timing and the press/release bookkeeping.
use vstd::prelude::*;

verus! {

/// Press/release bookkeeping of a selection gesture.
pub struct ClickTracker {
    /// Time (ms, wrapping `u32`) of the last button press.
    pub last_press: Option<u32>,
    /// That press hasn't been released yet.
    pub armed: bool,
    /// ...and it continued a click sequence (double/triple click).
    pub multi: bool,
    pub double_click_ms: u32,
}

/// Milliseconds from `earlier` to `later` on a wrapping `u32` clock.
pub open spec fn elapsed(earlier: u32, later: u32) -> int {
    if later >= earlier {
        later - earlier
    } else {
        later + 0x1_0000_0000 - earlier
    }
}

impl ClickTracker {
    pub fn new(double_click_ms: u32) -> (r: Self)
        ensures
            r.last_press is None,
            !r.armed,
            !r.multi,
            r.double_click_ms == double_click_ms,
    {
        ClickTracker { last_press: None, armed: false, multi: false, double_click_ms }
    }

    /// A button press at `time`. `near_previous` says whether it landed
    /// within the double-click distance of the previous press. It continues
    /// a click sequence when there was a previous press, no longer ago than
    /// the double-click interval (on the wrapping clock), nearby.
    pub fn press(&mut self, time: u32, near_previous: bool)
        ensures
            final(self).last_press == Some(time),
            final(self).armed,
            final(self).multi == (match old(self).last_press {
                Some(t) => elapsed(t, time) <= old(self).double_click_ms && near_previous,
                None => false,
            }),
            final(self).double_click_ms == old(self).double_click_ms,
    {
        let previous = self.last_press;
        self.last_press = Some(time);
        self.multi = match previous {
            Some(pt) => time.wrapping_sub(pt) <= self.double_click_ms && near_previous,
            None => false,
        };
        self.armed = true;
    }

    /// Whether the gesture ending here could have left a new tmux
    /// selection: a press not yet released that continued a click sequence
    /// or was dragged (`moved`: the pointer travelled past the drag
    /// threshold since the press). Consumes the press, so one press
    /// publishes at most once.
    pub fn release(&mut self, moved: bool) -> (r: bool)
        ensures
            r == (old(self).last_press is Some && old(self).armed && (old(self).multi || moved)),
            final(self).last_press == old(self).last_press,
            final(self).multi == old(self).multi,
            final(self).double_click_ms == old(self).double_click_ms,
            old(self).last_press is Some ==> !final(self).armed,
            old(self).last_press is None ==> final(self).armed == old(self).armed,
    {
        if self.last_press.is_none() {
            return false;
        }
        let was_armed = self.armed;
        self.armed = false;
        was_armed && (self.multi || moved)
    }
}

/// A release with no press before it decides nothing.
pub proof fn law_release_needs_a_press(t: ClickTracker, moved: bool)
    requires
        t.last_press is None,
    ensures
        !(t.last_press is Some && t.armed && (t.multi || moved)),
{
}

/// One press publishes at most once: after a release, another release
/// without a press in between publishes nothing.
pub proof fn law_press_publishes_once(t1: ClickTracker, t2: ClickTracker, moved: bool)
    requires
        t1.last_press is Some,
        t2.last_press == t1.last_press,
        !t2.armed,
    ensures
        !(t2.last_press is Some && t2.armed && (t2.multi || moved)),
{
}

/// The click clock wraps: a press `d` milliseconds after another counts
/// `d` elapsed, however close to `u32::MAX` the earlier one was.
pub proof fn law_elapsed_wraps(earlier: u32, d: u32)
    ensures
        elapsed(earlier, ((earlier as int + d as int) % 0x1_0000_0000) as u32) == d,
{
}

} // verus!

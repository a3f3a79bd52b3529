//! Which completion results are still wanted: every keystroke starts a new
//! generation, and a listing is shown only if no keystroke came after the
//! one that asked for it.
use vstd::prelude::*;

verus! {

/// The generation counter of one completing entry.
pub struct CompletionGeneration {
    current: u64,
}

impl View for CompletionGeneration {
    type V = u64;

    closed spec fn view(&self) -> u64 {
        self.current
    }
}

impl CompletionGeneration {
    /// A counter before the first keystroke.
    pub fn new() -> (r: CompletionGeneration)
        ensures
            r@ == 0,
    {
        CompletionGeneration { current: 0 }
    }

    /// Whether another generation can be started without overflowing.
    pub fn can_start(&self) -> (r: bool)
        ensures
            r == (self@ < u64::MAX),
    {
        self.current < u64::MAX
    }

    /// A keystroke: starts the next generation and returns it.
    pub fn start(&mut self) -> (r: u64)
        requires
            old(self)@ < u64::MAX,
        ensures
            r == old(self)@ + 1,
            final(self)@ == r,
    {
        self.current = self.current + 1;
        self.current
    }

    /// Whether results asked for by generation `generation` are still wanted.
    pub fn is_current(&self, generation: u64) -> (r: bool)
        ensures
            r == (generation == self@),
    {
        self.current == generation
    }
}

/// Once a keystroke has started a new generation, no generation handed out
/// before it is current any more.
pub proof fn law_later_keystroke_supersedes(earlier: u64, now: u64)
    requires
        earlier <= now < u64::MAX,
    ensures
        earlier != now + 1,
{
}

} // verus!

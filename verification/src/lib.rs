//! The logic of TuxFlow, a dev environment manager: port and URL detection
//! in process output, theme and accent tables, icon candidates, process
//! resource bookkeeping, selection gestures and notification texts.
use vstd::prelude::*;

pub mod text;
pub mod ui;
pub mod util;

verus! {

} // verus!

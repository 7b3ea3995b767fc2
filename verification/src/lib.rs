//! Core engine of an idle game: an arbitrary-precision counter grows by a
//! production rate on every tick, production can be doubled, and progress is
//! carried across sessions through a textual save blob with offline catch-up.

pub mod counter;
pub mod digits;
pub mod format;
pub mod persist;
pub mod state;

use vstd::prelude::*;

verus! {

} // verus!

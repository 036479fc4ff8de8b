//! A chat-bot game library: quote selection, a timed "guess the quote" round,
//! score and streak bookkeeping, a passive roll trigger, command dispatch and
//! race-calendar announcements. Everything here is verified; transport, store
//! and configuration plumbing live outside the library.

pub mod dates;
pub mod dispatch;
pub mod game;
pub mod race;
pub mod roll;
pub mod round;
pub mod scores;
pub mod scoring;
pub mod select;
pub mod text;

use vstd::prelude::*;

verus! {

} // verus!

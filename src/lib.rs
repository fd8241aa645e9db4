//! A ring of workers passing one token.
//!
//! - `ring`: wiring `n` workers into one cycle, worker `i` feeding worker `(i + 1) % n`.
//! - `worker`: what one worker decides on each wake and at shutdown.
//! - `state`: the whole ring (links and workers) stepped one event at a time,
//!   with its model and the proof that it never holds two tokens.
//! - `protocol`: circulation, the one-worker self-loop, shutdown and idle wakes.
use vstd::prelude::*;

pub mod protocol;
pub mod ring;
pub mod state;
pub mod worker;

verus! {

} // verus!

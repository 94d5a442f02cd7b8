//! Co-simulation session lifecycle state.

use vstd::prelude::*;

verus! {

/// State of a co-simulation session.
#[derive(Debug, Clone, Copy, PartialEq, Eq, Hash, Structural)]
pub enum CoSimStatus {
    Idle,
    Running,
    Paused,
    Finished,
    Error,
}

} // verus!

//! The kinds of trading signal.

use vstd::prelude::*;

verus! {

/// What a signal advises.
#[derive(Debug, Clone, PartialEq, Eq, Structural)]
pub enum SignalType {
    Buy,
    Sell,
    Hold,
}

} // verus!

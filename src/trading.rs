//! The sides of an order.

use vstd::prelude::*;

verus! {

/// Whether an order buys or sells.
#[derive(Debug, Clone)]
pub enum OrderSide {
    Buy,
    Sell,
}

} // verus!

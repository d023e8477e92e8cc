//! The rules of the bot's main loop.

use vstd::prelude::*;

verus! {

/// Seconds after which the reference prices are fetched again.
pub const REFRESH_SECS: u64 = 60;

/// Whether the reference prices, taken `elapsed_secs` whole seconds ago, are
/// to be fetched again.
pub fn refresh_due(elapsed_secs: u64) -> (due: bool)
    ensures
        due == (elapsed_secs >= REFRESH_SECS),
{
    elapsed_secs >= REFRESH_SECS
}

/// The number of decimal places of an order's quantity: the precision of
/// the instrument's quantity step, the second of the precisions that
/// `g_round_qty` reports.
pub fn order_precision(round_qty: &Vec<usize>) -> (places: usize)
    requires
        round_qty@.len() >= 2,
    ensures
        places == round_qty@[1],
{
    round_qty[1]
}

} // verus!

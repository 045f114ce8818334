use vstd::prelude::*;

verus! {

/// How many blocks the chain tip stands above the block holding a
/// transaction: none while it is unconfirmed or its block is unknown, and
/// none when a reorganisation left the tip below that block.
pub open spec fn confirmations_spec(confirmed: bool, block_height: Option<u32>, tip_height: u32) -> u32 {
    if !confirmed {
        0
    } else {
        match block_height {
            Some(h) => if tip_height >= h {
                (tip_height - h) as u32
            } else {
                0
            },
            None => 0,
        }
    }
}

/// The confirmation count of a transaction from its status and the tip height.
pub fn transaction_confirmations(confirmed: bool, block_height: Option<u32>, tip_height: u32) -> (r: u32)
    ensures
        r == confirmations_spec(confirmed, block_height, tip_height),
{
    if !confirmed {
        return 0;
    }
    match block_height {
        Some(h) => if tip_height >= h {
            tip_height - h
        } else {
            0
        },
        None => 0,
    }
}

} // verus!

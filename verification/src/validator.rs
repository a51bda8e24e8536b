//! A staking participant.

use vstd::prelude::*;

verus! {

/// A validator: its address, the stake it has locked and the rewards it has
/// earned so far (rewards are added to the stake as they are paid).
#[derive(Debug, Clone)]
pub struct Validator {
    pub address: String,
    pub stake: u64,
    pub rewards: u64,
}

impl Validator {
    /// A validator with the given address and stake and no rewards yet.
    pub fn new(address: &str, stake: u64) -> (v: Validator)
        ensures
            v.address@ == address@,
            v.stake == stake,
            v.rewards == 0,
    {
        Validator { address: address.to_owned(), stake, rewards: 0 }
    }
}

} // verus!

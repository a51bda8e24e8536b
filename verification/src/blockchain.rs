//! The ledger: a hash-linked chain of blocks, the pool of transactions waiting
//! for a block, the proof-of-stake registry that elects block proposers and the
//! reward paid to each proposer.

use vstd::prelude::*;
use crate::block::Block;
use crate::pos::{elected_index, election_roll, is_first_match, lemma_elected_in_range, lemma_first_match_exists, lemma_stake_le_sum, ProofOfStake};
use crate::transaction::{transaction_hash, Transaction};

verus! {

/// The ledger.
pub struct Blockchain {
    pub chain: Vec<Block>,
    pub pending_transactions: Vec<Transaction>,
    pub pos: ProofOfStake,
    pub block_reward: u64,
}

/// What an attempt to propose a block came to.
#[derive(Debug, Clone, Copy, PartialEq, Eq, Structural)]
pub enum ProposeOutcome {
    /// No transaction was waiting, so no block was built.
    NoPendingTransactions,
    /// No validator could be elected, so no block was built.
    NoValidators,
    /// A block was appended to the chain and its proposer rewarded.
    Accepted,
    /// The block built did not link to the chain; the pending transactions
    /// were dropped.
    Rejected,
}

/// Every block after the first links to the hash of the block before it.
pub open spec fn chain_linked(chain: Seq<Block>) -> bool {
    forall|i: int| 1 <= i < chain.len() ==> #[trigger] chain[i].links_to(chain[i - 1].hash@)
}

/// A chain is linked exactly when every block after the first names the hash
/// of the block before it and stores the hash its own fields determine.
pub proof fn lemma_chain_linked_means(chain: Seq<Block>)
    ensures
        chain_linked(chain) <==> forall|i: int|
            1 <= i < chain.len() ==> {
                &&& (#[trigger] chain[i]).previous_hash@ == chain[i - 1].hash@
                &&& chain[i].hash@ == chain[i].computed_hash()
            },
{
    if chain_linked(chain) {
        assert forall|i: int| 1 <= i < chain.len() implies {
            &&& (#[trigger] chain[i]).previous_hash@ == chain[i - 1].hash@
            &&& chain[i].hash@ == chain[i].computed_hash()
        } by {
            assert(chain[i].links_to(chain[i - 1].hash@));
        }
    }
}

/// Paying `reward` to the first validator with `address` in `pre` cannot
/// overflow a stake, a reward or the total stake.
pub open spec fn reward_fits(pre: ProofOfStake, address: Seq<char>, reward: u64) -> bool {
    forall|i: int|
        is_first_match(pre.validators@, address, i) ==> {
            &&& pre.validators@[i].stake + reward <= u64::MAX
            &&& pre.validators@[i].rewards + reward <= u64::MAX
            &&& pre.total_stake + reward <= u64::MAX
        }
}

/// `post` is `pre` after paying `reward` to the first validator with `address`
/// (or `pre` itself when no validator has that address).
pub open spec fn reward_paid(pre: ProofOfStake, post: ProofOfStake, address: Seq<char>, reward: u64) -> bool {
    &&& forall|i: int|
        is_first_match(pre.validators@, address, i) ==> {
            &&& post.validators@.len() == pre.validators@.len()
            &&& forall|j: int|
                0 <= j < pre.validators@.len() && j != i ==> post.validators@[j] == pre.validators@[j]
            &&& post.validators@[i].address == pre.validators@[i].address
            &&& post.validators@[i].stake == pre.validators@[i].stake + reward
            &&& post.validators@[i].rewards == pre.validators@[i].rewards + reward
            &&& post.total_stake == pre.total_stake + reward
        }
    &&& (forall|i: int| 0 <= i < pre.validators@.len() ==> pre.validators@[i].address@ != address)
        ==> post.validators@ == pre.validators@ && post.total_stake == pre.total_stake
}

/// In a consistent registry, paying a reward that keeps the total stake in
/// range overflows nothing.
pub proof fn lemma_reward_fits(pos: ProofOfStake, address: Seq<char>, reward: u64)
    requires
        pos.wf(),
        pos.total_stake + reward <= u64::MAX,
    ensures
        reward_fits(pos, address, reward),
{
    assert forall|i: int| is_first_match(pos.validators@, address, i) implies {
        &&& pos.validators@[i].stake + reward <= u64::MAX
        &&& pos.validators@[i].rewards + reward <= u64::MAX
        &&& pos.total_stake + reward <= u64::MAX
    } by {
        lemma_stake_le_sum(pos.validators@, i);
    }
}

impl Blockchain {
    /// The ledger is consistent: the chain is not empty, block `i` has index
    /// `i`, every block links to its predecessor, and the stake registry is
    /// consistent.
    pub open spec fn wf(self) -> bool {
        &&& self.chain@.len() > 0
        &&& forall|i: int| 0 <= i < self.chain@.len() ==> #[trigger] self.chain@[i].index == i
        &&& chain_linked(self.chain@)
        &&& self.pos.wf()
    }

    /// A block can be built from `seed`: transactions are waiting and some stake
    /// is at play.
    pub open spec fn can_propose(self) -> bool {
        &&& self.pending_transactions@.len() > 0
        &&& self.pos.validators@.len() > 0
        &&& self.pos.total_stake > 0
    }

    /// The index of the validator that `seed` elects.
    pub open spec fn elected(self, seed: u64) -> int {
        elected_index(self.pos.validators@, election_roll(seed, self.pos.total_stake) as int)
    }

    /// A consistent ledger whose total stake leaves room for one more block
    /// reward meets everything `propose_block` asks, whatever the seed.
    pub proof fn lemma_propose_ready(self, seed: u64)
        requires
            self.wf(),
            self.pos.total_stake + self.block_reward <= u64::MAX,
        ensures
            self.can_propose() ==> {
                &&& self.chain@.len() > 0
                &&& self.chain@.last().index < u64::MAX
                &&& reward_fits(self.pos, self.pos.validators@[self.elected(seed)].address@, self.block_reward)
            },
    {
        lemma_reward_fits(self.pos, self.pos.validators@[self.elected(seed)].address@, self.block_reward);
        assert(self.chain.len() == self.chain@.len());
        assert(self.chain@.last().index == self.chain@.len() - 1);
    }

    /// A ledger holding the genesis block stamped with `genesis_timestamp`
    /// (milliseconds since the Unix epoch, read from the clock by the caller),
    /// with validators "alice" (stake 100), "bob" (50) and "carol" (30) and a
    /// block reward of 10.
    pub fn new(genesis_timestamp: u128) -> (bc: Blockchain)
        ensures
            bc.chain@.len() == 1,
            bc.chain@[0].index == 0,
            bc.chain@[0].timestamp == genesis_timestamp,
            bc.chain@[0].previous_hash@ == "0"@,
            bc.chain@[0].proposer@ == "genesis"@,
            bc.chain@[0].transactions@.len() == 1,
            bc.chain@[0].transactions@[0].sender@ == "genesis"@,
            bc.chain@[0].transactions@[0].receiver@ == "genesis"@,
            bc.chain@[0].transactions@[0].amount == 0,
            bc.chain@[0].transactions@[0].hash@ == transaction_hash("genesis"@, "genesis"@, 0),
            bc.chain@[0].hash@ == bc.chain@[0].computed_hash(),
            bc.chain@[0].is_signed(),
            bc.pending_transactions@.len() == 0,
            bc.pos.validators@.len() == 3,
            bc.pos.validators@[0].address@ == "alice"@,
            bc.pos.validators@[0].stake == 100,
            bc.pos.validators@[1].address@ == "bob"@,
            bc.pos.validators@[1].stake == 50,
            bc.pos.validators@[2].address@ == "carol"@,
            bc.pos.validators@[2].stake == 30,
            forall|i: int| 0 <= i < 3 ==> #[trigger] bc.pos.validators@[i].rewards == 0,
            bc.pos.total_stake == 180,
            bc.block_reward == 10,
            bc.wf(),
    {
        let mut pos = ProofOfStake::new();
        pos.register_validator("alice", 100);
        pos.register_validator("bob", 50);
        pos.register_validator("carol", 30);
        let genesis = Block::genesis(genesis_timestamp);
        let mut chain: Vec<Block> = Vec::new();
        chain.push(genesis);
        Blockchain { chain, pending_transactions: Vec::new(), pos, block_reward: 10 }
    }

    /// Adds a transfer to the pool of transactions waiting for a block.
    pub fn create_transaction(&mut self, sender: &str, receiver: &str, amount: u64)
        ensures
            final(self).pending_transactions@.len() == old(self).pending_transactions@.len() + 1,
            final(self).pending_transactions@.drop_last() == old(self).pending_transactions@,
            final(self).pending_transactions@.last().sender@ == sender@,
            final(self).pending_transactions@.last().receiver@ == receiver@,
            final(self).pending_transactions@.last().amount == amount,
            final(self).pending_transactions@.last().hash@ == transaction_hash(sender@, receiver@, amount),
            final(self).chain@ == old(self).chain@,
            final(self).pos == old(self).pos,
            final(self).block_reward == old(self).block_reward,
            old(self).wf() ==> final(self).wf(),
    {
        let tx = Transaction::new(sender, receiver, amount);
        self.pending_transactions.push(tx);
        assert(self.pending_transactions@.drop_last() =~= old(self).pending_transactions@);
    }

    /// Builds a block of all pending transactions, stamped with `timestamp`
    /// (milliseconds since the Unix epoch, read from the clock by the caller)
    /// and proposed by the validator that `seed` elects, appends it to the
    /// chain and rewards the proposer.
    pub fn propose_block(&mut self, seed: u64, timestamp: u128) -> (outcome: ProposeOutcome)
        requires
            old(self).can_propose() ==> {
                &&& old(self).chain@.len() > 0
                &&& old(self).chain@.last().index < u64::MAX
                &&& reward_fits(
                    old(self).pos,
                    old(self).pos.validators@[old(self).elected(seed)].address@,
                    old(self).block_reward,
                )
            },
        ensures
            old(self).pending_transactions@.len() == 0 ==> outcome == ProposeOutcome::NoPendingTransactions,
            old(self).pending_transactions@.len() > 0 && (old(self).pos.validators@.len() == 0
                || old(self).pos.total_stake == 0) ==> outcome == ProposeOutcome::NoValidators,
            !old(self).can_propose() ==> {
                &&& final(self).chain@ == old(self).chain@
                &&& final(self).pending_transactions@ == old(self).pending_transactions@
                &&& final(self).pos == old(self).pos
            },
            old(self).can_propose() ==> {
                let proposer = old(self).pos.validators@[old(self).elected(seed)].address@;
                let last = old(self).chain@.last();
                let block = final(self).chain@.last();
                &&& outcome == ProposeOutcome::Accepted
                &&& final(self).chain@.len() == old(self).chain@.len() + 1
                &&& final(self).chain@.drop_last() == old(self).chain@
                &&& block.index == last.index + 1
                &&& block.timestamp == timestamp
                &&& block.transactions@ == old(self).pending_transactions@
                &&& block.previous_hash@ == last.hash@
                &&& block.proposer@ == proposer
                &&& block.hash@ == block.computed_hash()
                &&& block.is_signed()
                &&& final(self).pending_transactions@.len() == 0
                &&& reward_paid(old(self).pos, final(self).pos, proposer, old(self).block_reward)
                &&& final(self).pos.total_stake == old(self).pos.total_stake + old(self).block_reward
                &&& final(self).pos.validators@.len() == old(self).pos.validators@.len()
            },
            final(self).block_reward == old(self).block_reward,
            chain_linked(old(self).chain@) ==> chain_linked(final(self).chain@),
            old(self).wf() ==> final(self).wf(),
    {
        if self.pending_transactions.len() == 0 {
            return ProposeOutcome::NoPendingTransactions;
        }
        let ghost k = self.elected(seed);
        let proposer = match self.pos.select_proposer(seed) {
            Some(v) => v.address.clone(),
            None => {
                return ProposeOutcome::NoValidators;
            },
        };
        let n = self.chain.len();
        let new_index = self.chain[n - 1].index + 1;
        let last_hash = self.chain[n - 1].hash.clone();
        let mut txs: Vec<Transaction> = Vec::new();
        std::mem::swap(&mut txs, &mut self.pending_transactions);
        let block = Block::new(new_index, txs, last_hash.as_str(), proposer.as_str(), timestamp);
        if block.is_valid(last_hash.as_str()) {
            let ghost pre_chain = self.chain@;
            self.chain.push(block);
            proof {
                assert(self.chain@.drop_last() =~= pre_chain);
                if chain_linked(pre_chain) {
                    assert forall|i: int| 1 <= i < self.chain@.len() implies #[trigger] self.chain@[i].links_to(
                        self.chain@[i - 1].hash@,
                    ) by {
                        if i < self.chain@.len() - 1 {
                            assert(self.chain@[i] == pre_chain[i]);
                            assert(self.chain@[i - 1] == pre_chain[i - 1]);
                        }
                    }
                }
            }
            proof {
                lemma_elected_in_range(self.pos.validators@, election_roll(seed, self.pos.total_stake) as int);
                lemma_first_match_exists(self.pos.validators@, proposer@, k);
            }
            self.pos.reward_validator(proposer.as_str(), self.block_reward);
            ProposeOutcome::Accepted
        } else {
            self.pending_transactions.clear();
            ProposeOutcome::Rejected
        }
    }

    /// The position of the first block that does not link to its predecessor,
    /// if any.
    pub fn first_invalid_block(&self) -> (bad: Option<usize>)
        ensures
            bad is None <==> chain_linked(self.chain@),
            bad matches Some(i) ==> {
                &&& 1 <= i < self.chain@.len()
                &&& !self.chain@[i as int].links_to(self.chain@[i - 1].hash@)
                &&& forall|j: int| 1 <= j < i ==> #[trigger] self.chain@[j].links_to(self.chain@[j - 1].hash@)
            },
    {
        let mut i: usize = 1;
        while i < self.chain.len()
            invariant
                1 <= i,
                i <= self.chain@.len() || self.chain@.len() == 0,
                forall|j: int| 1 <= j < i && j < self.chain@.len() ==> #[trigger] self.chain@[j].links_to(
                    self.chain@[j - 1].hash@,
                ),
            decreases self.chain@.len() - i,
        {
            if !self.chain[i].is_valid(self.chain[i - 1].hash.as_str()) {
                return Some(i);
            }
            i = i + 1;
        }
        None
    }

    /// Every block after the first links to the hash of the block before it.
    pub fn is_chain_valid(&self) -> (valid: bool)
        ensures
            valid == chain_linked(self.chain@),
    {
        self.first_invalid_block().is_none()
    }
}

} // verus!

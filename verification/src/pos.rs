//! Proof of stake: the validator registry, the stake-weighted election of a
//! block proposer and the payment of block rewards.

use vstd::prelude::*;
use crate::encoding::str_eq;
use crate::rng::{draw, lemma_reduce_into_remainder, reduce_into, SimpleRng};
use crate::validator::Validator;

verus! {

/// The registry of validators and the sum of their stakes.
pub struct ProofOfStake {
    pub validators: Vec<Validator>,
    pub total_stake: u64,
}

/// The sum of the stakes of `vs`.
pub open spec fn stake_sum(vs: Seq<Validator>) -> int
    decreases vs.len(),
{
    if vs.len() == 0 {
        0
    } else {
        stake_sum(vs.drop_last()) + vs.last().stake
    }
}

/// The sum of the stakes of the first `k` validators of `vs`.
pub open spec fn stake_prefix(vs: Seq<Validator>, k: int) -> int {
    stake_sum(vs.subrange(0, k))
}

/// Validator `i` owns the rolls from the stake of the validators before it up
/// to, not including, that sum plus its own stake.
pub open spec fn owns_roll(vs: Seq<Validator>, i: int, roll: int) -> bool {
    stake_prefix(vs, i) <= roll < stake_prefix(vs, i + 1)
}

/// The index of the validator that a roll elects: the one that owns it, or the
/// last validator when the roll lies beyond every stake.
pub open spec fn elected_index(vs: Seq<Validator>, roll: int) -> int {
    if 0 <= roll < stake_sum(vs) {
        choose|i: int| 0 <= i < vs.len() && owns_roll(vs, i, roll)
    } else {
        vs.len() - 1
    }
}

/// The roll that the election draws from `seed` when `total` stake is at play.
pub open spec fn election_roll(seed: u64, total: u64) -> u64 {
    reduce_into(draw(seed), 0, total)
}

/// `i` is the first position in `vs` whose validator has this address.
pub open spec fn is_first_match(vs: Seq<Validator>, address: Seq<char>, i: int) -> bool {
    &&& 0 <= i < vs.len()
    &&& vs[i].address@ == address
    &&& forall|j: int| 0 <= j < i ==> vs[j].address@ != address
}

/// If some validator has `address`, there is a first one that has it.
pub proof fn lemma_first_match_exists(vs: Seq<Validator>, address: Seq<char>, k: int)
    requires
        0 <= k < vs.len(),
        vs[k].address@ == address,
    ensures
        exists|i: int| is_first_match(vs, address, i),
    decreases k,
{
    if exists|j: int| 0 <= j < k && vs[j].address@ == address {
        let j = choose|j: int| 0 <= j < k && vs[j].address@ == address;
        lemma_first_match_exists(vs, address, j);
    } else {
        assert(is_first_match(vs, address, k));
    }
}

/// Adding one validator adds its stake to the sum.
pub proof fn lemma_stake_sum_push(vs: Seq<Validator>, v: Validator)
    ensures
        stake_sum(vs.push(v)) == stake_sum(vs) + v.stake,
{
    assert(vs.push(v).drop_last() =~= vs);
}

/// Changing one validator changes the sum by the change of its stake.
pub proof fn lemma_stake_sum_update(vs: Seq<Validator>, i: int, v: Validator)
    requires
        0 <= i < vs.len(),
    ensures
        stake_sum(vs.update(i, v)) == stake_sum(vs) - vs[i].stake + v.stake,
    decreases vs.len(),
{
    if i == vs.len() - 1 {
        assert(vs.update(i, v).drop_last() =~= vs.drop_last());
    } else {
        assert(vs.update(i, v).drop_last() =~= vs.drop_last().update(i, v));
        lemma_stake_sum_update(vs.drop_last(), i, v);
    }
}

/// The prefix sums grow by one stake per validator.
pub proof fn lemma_prefix_step(vs: Seq<Validator>, k: int)
    requires
        0 <= k < vs.len(),
    ensures
        stake_prefix(vs, k + 1) == stake_prefix(vs, k) + vs[k].stake,
{
    assert(vs.subrange(0, k + 1).drop_last() =~= vs.subrange(0, k));
}

/// The prefix sums start at zero, end at the total and never decrease.
pub proof fn lemma_prefix_monotone(vs: Seq<Validator>, a: int, b: int)
    requires
        0 <= a <= b <= vs.len(),
    ensures
        stake_prefix(vs, 0) == 0,
        stake_prefix(vs, vs.len() as int) == stake_sum(vs),
        0 <= stake_prefix(vs, a) <= stake_prefix(vs, b),
    decreases b,
{
    assert(vs.subrange(0, 0) =~= Seq::<Validator>::empty());
    assert(vs.subrange(0, vs.len() as int) =~= vs);
    if a < b {
        lemma_prefix_step(vs, b - 1);
        lemma_prefix_monotone(vs, a, b - 1);
    } else if a > 0 {
        lemma_prefix_step(vs, a - 1);
        lemma_prefix_monotone(vs, a - 1, a - 1);
    }
}

/// Every roll below the total stake is owned by some validator.
pub proof fn lemma_roll_owned(vs: Seq<Validator>, roll: int)
    requires
        0 <= roll < stake_sum(vs),
    ensures
        exists|i: int| 0 <= i < vs.len() && owns_roll(vs, i, roll),
    decreases vs.len(),
{
    let n = vs.len() as int;
    let front = vs.drop_last();
    lemma_prefix_monotone(vs, n - 1, n);
    assert(vs.subrange(0, n - 1) =~= front);
    if roll < stake_sum(front) {
        lemma_roll_owned(front, roll);
        let i = choose|i: int| 0 <= i < front.len() && owns_roll(front, i, roll);
        assert(vs.subrange(0, i) =~= front.subrange(0, i));
        assert(vs.subrange(0, i + 1) =~= front.subrange(0, i + 1));
        assert(owns_roll(vs, i, roll));
    } else {
        assert(owns_roll(vs, n - 1, roll));
    }
}

/// Stake-weighted election: of the rolls below the total stake, validator `i`
/// is elected by exactly those it owns, an interval of rolls as wide as its
/// stake.
pub proof fn lemma_election_window(vs: Seq<Validator>, roll: int, i: int)
    requires
        0 <= i < vs.len(),
        0 <= roll < stake_sum(vs),
    ensures
        elected_index(vs, roll) == i <==> owns_roll(vs, i, roll),
        stake_prefix(vs, i + 1) - stake_prefix(vs, i) == vs[i].stake,
{
    lemma_prefix_step(vs, i);
    lemma_roll_owned(vs, roll);
    let e = elected_index(vs, roll);
    assert(0 <= e < vs.len() && owns_roll(vs, e, roll));
    if owns_roll(vs, i, roll) && e != i {
        if e < i {
            lemma_prefix_monotone(vs, e + 1, i);
        } else {
            lemma_prefix_monotone(vs, i + 1, e);
        }
    }
}

/// A non-empty registry always elects one of its validators.
pub proof fn lemma_elected_in_range(vs: Seq<Validator>, roll: int)
    requires
        vs.len() > 0,
    ensures
        0 <= elected_index(vs, roll) < vs.len(),
{
    if 0 <= roll < stake_sum(vs) {
        lemma_roll_owned(vs, roll);
    }
}

/// The election roll is the seed's draw modulo the total stake, not any
/// narrower reduction of it.
pub proof fn lemma_election_roll_is_remainder(seed: u64, total: u64)
    requires
        total > 0,
    ensures
        election_roll(seed, total) as int == (draw(seed) as int) % (total as int),
        election_roll(seed, total) < total,
{
    lemma_reduce_into_remainder(draw(seed), 0, total);
}

/// When the total is the sum of the stakes, every validator with a positive
/// stake is elected by some draw: the draw equal to the stake of the
/// validators before it.
pub proof fn lemma_every_staker_electable(vs: Seq<Validator>, total: u64, i: int)
    requires
        0 <= i < vs.len(),
        vs[i].stake > 0,
        total == stake_sum(vs),
    ensures
        exists|x: u64| #[trigger] elected_index(vs, reduce_into(x, 0, total) as int) == i,
{
    lemma_prefix_step(vs, i);
    lemma_prefix_monotone(vs, 0, i);
    lemma_prefix_monotone(vs, i + 1, vs.len() as int);
    let x = stake_prefix(vs, i) as u64;
    lemma_reduce_into_remainder(x, 0, total);
    lemma_election_window(vs, x as int, i);
    assert(elected_index(vs, reduce_into(x, 0, total) as int) == i);
}

/// A single stake never exceeds the sum of all stakes.
pub proof fn lemma_stake_le_sum(vs: Seq<Validator>, i: int)
    requires
        0 <= i < vs.len(),
    ensures
        vs[i].stake <= stake_sum(vs),
{
    lemma_prefix_step(vs, i);
    lemma_prefix_monotone(vs, 0, i);
    lemma_prefix_monotone(vs, i + 1, vs.len() as int);
}

impl ProofOfStake {
    /// The registry is consistent: `total_stake` is the sum of the stakes,
    /// every stake is positive and no validator has earned more than it stakes.
    pub open spec fn wf(self) -> bool {
        &&& self.total_stake == stake_sum(self.validators@)
        &&& forall|i: int|
            0 <= i < self.validators@.len() ==> {
                &&& #[trigger] self.validators@[i].stake > 0
                &&& self.validators@[i].rewards <= self.validators@[i].stake
            }
    }

    /// An empty registry.
    pub fn new() -> (pos: ProofOfStake)
        ensures
            pos.validators@.len() == 0,
            pos.total_stake == 0,
            pos.wf(),
    {
        ProofOfStake { validators: Vec::new(), total_stake: 0 }
    }

    /// Registers a validator with the given stake; a zero stake registers nothing.
    pub fn register_validator(&mut self, address: &str, stake: u64)
        requires
            stake > 0 ==> old(self).total_stake + stake <= u64::MAX,
        ensures
            stake == 0 ==> final(self).validators@ == old(self).validators@ && final(self).total_stake
                == old(self).total_stake,
            stake > 0 ==> {
                &&& final(self).validators@.len() == old(self).validators@.len() + 1
                &&& final(self).validators@.drop_last() == old(self).validators@
                &&& final(self).validators@.last().address@ == address@
                &&& final(self).validators@.last().stake == stake
                &&& final(self).validators@.last().rewards == 0
                &&& final(self).total_stake == old(self).total_stake + stake
            },
            old(self).wf() ==> final(self).wf(),
    {
        if stake == 0 {
            return;
        }
        let v = Validator::new(address, stake);
        proof {
            lemma_stake_sum_push(self.validators@, v);
        }
        self.validators.push(v);
        self.total_stake = self.total_stake + stake;
        assert(self.validators@.drop_last() =~= old(self).validators@);
    }

    /// The index of the validator elected by `roll`: the first one whose
    /// stake interval holds the roll, else the last one.
    pub fn proposer_index_for_roll(&self, roll: u64) -> (idx: usize)
        requires
            self.validators@.len() > 0,
        ensures
            idx < self.validators@.len(),
            idx == elected_index(self.validators@, roll as int),
            roll < stake_sum(self.validators@) ==> owns_roll(self.validators@, idx as int, roll as int),
    {
        let ghost vs = self.validators@;
        let mut rest: u64 = roll;
        let mut i: usize = 0;
        proof {
            lemma_prefix_monotone(vs, 0, 0);
        }
        while i < self.validators.len()
            invariant
                vs == self.validators@,
                i <= vs.len(),
                rest == roll - stake_prefix(vs, i as int),
            decreases vs.len() - i,
        {
            proof {
                lemma_prefix_step(vs, i as int);
            }
            if rest < self.validators[i].stake {
                proof {
                    lemma_prefix_monotone(vs, i as int + 1, vs.len() as int);
                    lemma_election_window(vs, roll as int, i as int);
                }
                return i;
            }
            rest = rest - self.validators[i].stake;
            i = i + 1;
        }
        proof {
            lemma_prefix_monotone(vs, 0, vs.len() as int);
        }
        self.validators.len() - 1
    }

    /// Elects the proposer of the next block from `seed`: a roll below the
    /// total stake is drawn and the validator owning it is returned. There is
    /// no proposer when no validator is registered or no stake is at play.
    pub fn select_proposer(&self, seed: u64) -> (proposer: Option<&Validator>)
        ensures
            proposer is None <==> (self.validators@.len() == 0 || self.total_stake == 0),
            proposer matches Some(v) ==> *v == self.validators@[elected_index(
                self.validators@,
                election_roll(seed, self.total_stake) as int,
            )],
    {
        if self.validators.len() == 0 || self.total_stake == 0 {
            return None;
        }
        let mut rng = SimpleRng::seed_from_u64(seed);
        let roll = rng.gen_range(0..self.total_stake);
        let idx = self.proposer_index_for_roll(roll);
        Some(&self.validators[idx])
    }

    /// Pays `reward` to the first validator with this address: its stake, its
    /// rewards and the total stake all grow by `reward`. Unknown addresses are
    /// ignored.
    pub fn reward_validator(&mut self, address: &str, reward: u64)
        requires
            forall|i: int|
                is_first_match(old(self).validators@, address@, i) ==> {
                    &&& old(self).validators@[i].stake + reward <= u64::MAX
                    &&& old(self).validators@[i].rewards + reward <= u64::MAX
                    &&& old(self).total_stake + reward <= u64::MAX
                },
        ensures
            forall|i: int|
                is_first_match(old(self).validators@, address@, i) ==> {
                    &&& final(self).validators@.len() == old(self).validators@.len()
                    &&& forall|j: int|
                        0 <= j < old(self).validators@.len() && j != i ==> final(self).validators@[j]
                            == old(self).validators@[j]
                    &&& final(self).validators@[i].address == old(self).validators@[i].address
                    &&& final(self).validators@[i].stake == old(self).validators@[i].stake + reward
                    &&& final(self).validators@[i].rewards == old(self).validators@[i].rewards + reward
                    &&& final(self).total_stake == old(self).total_stake + reward
                },
            (forall|i: int|
                0 <= i < old(self).validators@.len() ==> old(self).validators@[i].address@
                    != address@) ==> final(self).validators@ == old(self).validators@
                && final(self).total_stake == old(self).total_stake,
            old(self).wf() ==> final(self).wf(),
    {
        let ghost vs = self.validators@;
        let mut i: usize = 0;
        while i < self.validators.len()
            invariant
                vs == self.validators@,
                vs == old(self).validators@,
                self.total_stake == old(self).total_stake,
                i <= vs.len(),
                forall|j: int| 0 <= j < i ==> vs[j].address@ != address@,
                forall|k: int|
                    is_first_match(vs, address@, k) ==> {
                        &&& vs[k].stake + reward <= u64::MAX
                        &&& vs[k].rewards + reward <= u64::MAX
                        &&& old(self).total_stake + reward <= u64::MAX
                    },
            decreases vs.len() - i,
        {
            if str_eq(self.validators[i].address.as_str(), address) {
                assert(is_first_match(vs, address@, i as int));
                let ghost before = self.validators@[i as int];
                self.validators[i].rewards = self.validators[i].rewards + reward;
                self.validators[i].stake = self.validators[i].stake + reward;
                self.total_stake = self.total_stake + reward;
                proof {
                    let after = self.validators@[i as int];
                    assert(self.validators@ =~= vs.update(i as int, after));
                    lemma_stake_sum_update(vs, i as int, after);
                    assert forall|k: int| is_first_match(vs, address@, k) implies k == i by {
                        if k < i {
                        } else if k > i {
                            assert(vs[i as int].address@ == address@);
                        }
                    }
                }
                return;
            }
            i = i + 1;
        }
        assert(forall|k: int| !is_first_match(vs, address@, k));
    }
}

} // verus!

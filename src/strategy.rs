use vstd::prelude::*;

use crate::ordmap::OrdMap;
use crate::types::{Balance, BlockNumber, LockBounds, LockParameters};

verus! {

/// A vesting curve: how a reward is locked, and how large the block reward
/// is. Implementations must depend on their arguments alone, so that every
/// node computes the same schedule.
pub trait GenerateRewardLocks {
    /// The lock entries (unlock height to amount) for `total_reward` paid at
    /// `current_block`.
    spec fn reward_locks_of(
        current_block: BlockNumber,
        total_reward: Balance,
        lock_parameters: Option<LockParameters>,
    ) -> Map<BlockNumber, Balance>;

    /// The block reward at height `when`.
    spec fn rewards_of(when: BlockNumber) -> Balance;

    /// Generates the lock entries for a reward.
    fn generate_reward_locks(
        current_block: BlockNumber,
        total_reward: Balance,
        lock_parameters: Option<LockParameters>,
    ) -> (r: OrdMap<Balance>)
        ensures
            r.wf(),
            r@ == Self::reward_locks_of(current_block, total_reward, lock_parameters),
    ;

    /// The largest number of lock entries one reward can generate within
    /// the given bounds.
    fn max_locks(lock_bounds: LockBounds) -> u32;

    /// Computes the block reward at height `when`.
    fn calc_rewards(when: BlockNumber) -> (r: Balance)
        ensures
            r == Self::rewards_of(when),
    ;
}

/// The curve that locks nothing and pays no block reward of its own.
pub struct NoLocks;

impl GenerateRewardLocks for NoLocks {
    open spec fn reward_locks_of(
        current_block: BlockNumber,
        total_reward: Balance,
        lock_parameters: Option<LockParameters>,
    ) -> Map<BlockNumber, Balance> {
        Map::empty()
    }

    open spec fn rewards_of(when: BlockNumber) -> Balance {
        0
    }

    fn generate_reward_locks(
        current_block: BlockNumber,
        total_reward: Balance,
        lock_parameters: Option<LockParameters>,
    ) -> (r: OrdMap<Balance>) {
        OrdMap::new()
    }

    fn max_locks(lock_bounds: LockBounds) -> u32 {
        0
    }

    fn calc_rewards(when: BlockNumber) -> (r: Balance) {
        0
    }
}

/// Cliff vesting: each reward stays locked in full until `period` blocks
/// after it is paid (the last height where that overflows). Nothing is locked
/// while no lock parameters are set, nor for a zero reward. Pays no block
/// reward of its own.
pub struct CliffLocks;

impl GenerateRewardLocks for CliffLocks {
    open spec fn reward_locks_of(
        current_block: BlockNumber,
        total_reward: Balance,
        lock_parameters: Option<LockParameters>,
    ) -> Map<BlockNumber, Balance> {
        match lock_parameters {
            Some(p) => if total_reward > 0 {
                map![
                    if current_block + p.period > u64::MAX { u64::MAX } else { (current_block + p.period) as u64 } => total_reward
                ]
            } else {
                Map::empty()
            },
            None => Map::empty(),
        }
    }

    open spec fn rewards_of(when: BlockNumber) -> Balance {
        0
    }

    fn generate_reward_locks(
        current_block: BlockNumber,
        total_reward: Balance,
        lock_parameters: Option<LockParameters>,
    ) -> (r: OrdMap<Balance>) {
        let mut m = OrdMap::new();
        match lock_parameters {
            Some(p) => {
                if total_reward > 0 {
                    m.insert(current_block.saturating_add(p.period as u64), total_reward);
                    assert(m@ =~= Self::reward_locks_of(current_block, total_reward, lock_parameters));
                }
            },
            None => {},
        }
        m
    }

    fn max_locks(lock_bounds: LockBounds) -> u32 {
        1
    }

    fn calc_rewards(when: BlockNumber) -> (r: Balance) {
        0
    }
}

} // verus!

use vstd::prelude::*;

use crate::ordmap::OrdMap;

verus! {

/// A block height.
pub type BlockNumber = u64;

/// An account identity.
pub type AccountId = u64;

/// A ledger balance.
pub type Balance = u128;

/// `a + b`, capped at the largest balance.
pub open spec fn sat_add(a: int, b: int) -> int {
    if a + b > u128::MAX {
        u128::MAX as int
    } else {
        a + b
    }
}

/// Saturating balance addition.
pub fn add_balance(a: Balance, b: Balance) -> (r: Balance)
    ensures
        r == sat_add(a as int, b as int),
{
    a.saturating_add(b)
}

/// `x`, capped at the largest balance.
pub open spec fn capped(x: int) -> int {
    if x > u128::MAX {
        u128::MAX as int
    } else {
        x
    }
}

/// Shape of the vesting schedule that a lock strategy generates.
#[derive(Clone, Copy, PartialEq, Eq, Debug, Structural)]
pub struct LockParameters {
    pub period: u16,
    pub divide: u16,
}

/// Inclusive bounds on the lock parameters that may be configured.
#[derive(Clone, Copy, PartialEq, Eq, Debug, Structural)]
pub struct LockBounds {
    pub period_max: u16,
    pub period_min: u16,
    pub divide_max: u16,
    pub divide_min: u16,
}

/// Why a configuration call was refused.
#[derive(Clone, Copy, PartialEq, Eq, Debug, Structural)]
pub enum Error {
    /// A reward, or a scheduled reward, is below the minimum balance.
    RewardTooLow,
    /// A mint, or a scheduled mint, is below the minimum balance.
    MintTooLow,
    /// Lock parameters fall outside the configured bounds.
    LockParamsOutOfBounds,
    /// The lock period is not a multiple of the divide.
    LockPeriodNotDivisible,
}

/// Notifications emitted by the engine.
#[derive(Clone, PartialEq, Eq, Debug)]
pub enum Event {
    /// A new schedule has been set.
    ScheduleSet,
    /// The current reward has changed.
    RewardChanged(Balance),
    /// The current mint table has changed.
    MintsChanged(OrdMap<Balance>),
    /// The lock parameters have changed.
    LockParamsChanged(LockParameters),
    /// An account locked part of its balance.
    Locked(AccountId, Balance),
}

/// An instruction for the ledger.
#[derive(Clone, Copy, PartialEq, Eq, Debug, Structural)]
pub enum LedgerOp {
    /// Credit `amount` to `who`, creating the account if needed.
    Deposit { who: AccountId, amount: Balance },
    /// Set the freeze on `who` under the reward lock identifier to exactly
    /// `amount`, replacing any earlier one; transaction fees may still be paid
    /// from frozen funds.
    SetLock { who: AccountId, amount: Balance },
}

} // verus!

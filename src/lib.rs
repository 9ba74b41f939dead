//! Block reward scheduling, distribution and vesting locks.
//!
//! A [`Pallet`] holds the current block reward and mint table, the changes
//! scheduled for future heights, and per account the balance locked until
//! given heights. Its block hooks apply due changes, split each block reward
//! between the author and the validators, and keep every account's freeze
//! equal to the total of its unexpired lock entries. Ledger effects are
//! handed out as [`LedgerOp`]s for the host to apply.

pub mod types;
pub mod ordmap;
pub mod locks;
pub mod strategy;
pub mod distribution;
pub mod digest;
pub mod pallet;
pub mod laws;
pub mod hex;

pub use digest::PreRuntime;
pub use ordmap::OrdMap;
pub use pallet::{Config, Pallet};
pub use strategy::{CliffLocks, GenerateRewardLocks, NoLocks};
pub use types::{AccountId, Balance, BlockNumber, Error, Event, LedgerOp, LockBounds, LockParameters};

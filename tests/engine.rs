use rewards::digest::decode_account;
use rewards::distribution::{block_payouts, calc_miner_share, split_reward};
use rewards::{
    Balance, CliffLocks, Config, Error, Event, LedgerOp, LockBounds, LockParameters, NoLocks,
    Pallet, PreRuntime,
};

const ENGINE: [u8; 4] = *b"pscn";

fn config() -> Config {
    Config {
        miner_rewards_percent: 20,
        lock_parameters_bounds: LockBounds {
            period_max: 100,
            period_min: 1,
            divide_max: 10,
            divide_min: 1,
        },
        minimum_balance: 10,
        engine_id: ENGINE,
    }
}

fn author_log(who: u64) -> PreRuntime {
    PreRuntime { engine: ENGINE, data: who.to_le_bytes().to_vec() }
}

#[test]
fn split_of_thousand_among_three() {
    assert_eq!(split_reward(1000, 20, 3), (200, 266));
    let (miner, per) = split_reward(1000, 20, 3);
    assert!(miner + 3 * per <= 1000);
    assert!(3 * per <= 798);
}

#[test]
fn split_without_validators() {
    assert_eq!(split_reward(1000, 20, 0), (200, 0));
}

#[test]
fn miner_share_rounds_to_nearest_halves_down() {
    assert_eq!(calc_miner_share(7, 30), 2);
    assert_eq!(calc_miner_share(9, 30), 3);
    assert_eq!(calc_miner_share(5, 10), 0);
    assert_eq!(calc_miner_share(15, 10), 1);
    assert_eq!(calc_miner_share(1000, 150), 1000);
    assert_eq!(calc_miner_share(u128::MAX, 100), u128::MAX);
    assert_eq!(calc_miner_share(u128::MAX, 0), 0);
}

#[test]
fn payouts_author_first() {
    let p = block_payouts(1, 1000, 20, &vec![7, 8, 9]);
    assert_eq!(p, vec![(1, 200), (7, 266), (8, 266), (9, 266)]);
}

#[test]
fn block_pays_author_and_validators() {
    let mut p = Pallet::new(config());
    p.set_schedule(1000, vec![], vec![], vec![]).unwrap();
    p.take_events();
    p.on_initialize::<NoLocks>(5, &vec![author_log(1)]);
    assert_eq!(p.author(), Some(1));
    // the curve's reward replaces the scheduled one each block
    assert_eq!(p.reward(), 0);
    p.reward = 1000;
    p.on_finalize::<NoLocks>(5, &vec![7, 8, 9]);
    assert_eq!(p.author(), None);
    let ops = p.take_ledger_ops();
    assert_eq!(
        ops,
        vec![
            LedgerOp::Deposit { who: 1, amount: 200 },
            LedgerOp::Deposit { who: 7, amount: 266 },
            LedgerOp::Deposit { who: 8, amount: 266 },
            LedgerOp::Deposit { who: 9, amount: 266 },
        ]
    );
    let to_validators: u128 = ops[1..]
        .iter()
        .map(|o| match o {
            LedgerOp::Deposit { amount, .. } => *amount,
            LedgerOp::SetLock { .. } => 0,
        })
        .sum();
    assert_eq!(to_validators, 798);
}

#[test]
fn block_without_author_only_mints() {
    let mut p = Pallet::new(config());
    p.set_schedule(1000, vec![(5, 10), (2, 20)], vec![], vec![]).unwrap();
    p.on_initialize::<NoLocks>(1, &vec![]);
    p.on_finalize::<NoLocks>(1, &vec![7]);
    assert_eq!(
        p.take_ledger_ops(),
        vec![
            LedgerOp::Deposit { who: 2, amount: 20 },
            LedgerOp::Deposit { who: 5, amount: 10 },
        ]
    );
}

#[test]
fn reward_before_mints() {
    let mut p = Pallet::new(config());
    p.set_lock_params(LockParameters { period: 10, divide: 1 }).unwrap();
    p.set_schedule(10, vec![(3, 10)], vec![(4, 1000)], vec![]).unwrap();
    p.on_initialize::<CliffLocks>(4, &vec![author_log(1)]);
    assert_eq!(p.reward(), 1000);
    p.on_finalize::<CliffLocks>(4, &vec![]);
    assert_eq!(
        p.take_ledger_ops(),
        vec![
            LedgerOp::Deposit { who: 1, amount: 200 },
            LedgerOp::SetLock { who: 1, amount: 200 },
            LedgerOp::Deposit { who: 3, amount: 10 },
        ]
    );
    assert_eq!(p.reward_locks(1).as_vec(), &vec![(14, 200)]);
    assert_eq!(p.locks(1), 200);
}

#[test]
fn no_lock_params_no_locks() {
    let mut p = Pallet::new(config());
    p.set_schedule(10, vec![], vec![(4, 1000)], vec![]).unwrap();
    p.on_initialize::<CliffLocks>(4, &vec![author_log(1)]);
    p.on_finalize::<CliffLocks>(4, &vec![2]);
    assert_eq!(
        p.take_ledger_ops(),
        vec![
            LedgerOp::Deposit { who: 1, amount: 200 },
            LedgerOp::Deposit { who: 2, amount: 800 },
        ]
    );
    assert_eq!(p.reward_locks(1).len(), 0);
}

#[test]
fn reward_locks_accumulate_across_blocks() {
    let mut p = Pallet::new(config());
    p.set_lock_params(LockParameters { period: 10, divide: 2 }).unwrap();
    p.set_schedule(10, vec![], vec![(1, 1000), (2, 1000)], vec![]).unwrap();
    for h in [1u64, 2] {
        p.on_initialize::<CliffLocks>(h, &vec![author_log(1)]);
        p.on_finalize::<CliffLocks>(h, &vec![1]);
    }
    // each block: author 200 and validator 800, both to the same account
    assert_eq!(p.reward_locks(1).as_vec(), &vec![(11, 1000), (12, 1000)]);
    assert_eq!(p.locks(1), 2000);
    assert_eq!(p.frozen.get(1), Some(&2000));
    p.unlock(1, 11);
    assert_eq!(p.reward_locks(1).as_vec(), &vec![(12, 1000)]);
    assert_eq!(p.frozen.get(1), Some(&1000));
}

#[test]
fn reward_lock_expires_on_payment() {
    let mut p = Pallet::new(config());
    p.lock(1, 10, 5, 0, 1000);
    p.set_lock_params(LockParameters { period: 10, divide: 1 }).unwrap();
    p.set_schedule(10, vec![], vec![(7, 100)], vec![]).unwrap();
    p.take_ledger_ops();
    p.on_initialize::<CliffLocks>(7, &vec![author_log(1)]);
    p.on_finalize::<CliffLocks>(7, &vec![]);
    // the manual lock until 5 is gone once the reward is recorded at 7
    assert_eq!(p.reward_locks(1).as_vec(), &vec![(17, 20)]);
    assert_eq!(
        p.take_ledger_ops(),
        vec![LedgerOp::Deposit { who: 1, amount: 20 }, LedgerOp::SetLock { who: 1, amount: 20 }]
    );
}

#[test]
fn cliff_height_saturates() {
    let m = <CliffLocks as rewards::GenerateRewardLocks>::generate_reward_locks(
        u64::MAX - 3,
        5,
        Some(LockParameters { period: 10, divide: 1 }),
    );
    assert_eq!(m.as_vec(), &vec![(u64::MAX, 5)]);
    let none = <CliffLocks as rewards::GenerateRewardLocks>::generate_reward_locks(1, 0, Some(LockParameters { period: 10, divide: 1 }));
    assert_eq!(none.len(), 0);
}

#[test]
fn lock_merge_same_height() {
    let mut p = Pallet::new(config());
    p.lock(1, 50, 100, 10, 1000);
    p.lock(1, 30, 100, 10, 1000);
    assert_eq!(p.reward_locks(1).as_vec(), &vec![(100, 80)]);
    assert_eq!(p.locks(1), 80);
    assert_eq!(
        p.take_ledger_ops(),
        vec![
            LedgerOp::SetLock { who: 1, amount: 50 },
            LedgerOp::SetLock { who: 1, amount: 80 },
        ]
    );
    assert_eq!(p.take_events(), vec![Event::Locked(1, 50), Event::Locked(1, 30)]);
}

#[test]
fn expiry_drops_past_entries() {
    let mut p = Pallet::new(config());
    p.lock(1, 10, 50, 0, 1000);
    p.lock(1, 20, 150, 0, 1000);
    p.take_ledger_ops();
    p.unlock(1, 100);
    assert_eq!(p.reward_locks(1).as_vec(), &vec![(150, 20)]);
    assert_eq!(p.take_ledger_ops(), vec![LedgerOp::SetLock { who: 1, amount: 20 }]);
    assert_eq!(p.frozen.get(1), Some(&20));
    assert_eq!(p.locks(1), 20);
}

#[test]
fn unlock_at_expiry_height_releases() {
    let mut p = Pallet::new(config());
    p.lock(1, 10, 50, 0, 1000);
    p.unlock(1, 50);
    assert_eq!(p.reward_locks(1).len(), 0);
    assert_eq!(p.locks(1), 0);
    assert_eq!(p.frozen.get(1), Some(&0));
}

#[test]
fn unlock_without_locks_sets_zero() {
    let mut p = Pallet::new(config());
    p.unlock(4, 9);
    assert_eq!(p.take_ledger_ops(), vec![LedgerOp::SetLock { who: 4, amount: 0 }]);
}

#[test]
fn frozen_matches_locked_total() {
    let mut p = Pallet::new(config());
    p.lock(1, 10, 50, 0, 1000);
    p.lock(1, 20, 150, 0, 1000);
    p.lock(2, 5, 70, 0, 1000);
    for (who, now) in [(1u64, 60u64), (2, 60), (1, 200)] {
        p.unlock(who, now);
        assert_eq!(p.frozen.get(who), Some(&p.locks(who)));
    }
    assert_eq!(p.locks(1), 0);
    assert_eq!(p.locks(2), 5);
}

#[test]
fn lock_total_saturates() {
    let mut p = Pallet::new(config());
    p.lock(1, u128::MAX - 1, 50, 0, u128::MAX);
    p.lock(1, u128::MAX - 1, 60, 0, u128::MAX);
    assert_eq!(p.locks(1), u128::MAX);
    p.lock(1, 5, 60, 0, u128::MAX);
    assert_eq!(p.reward_locks(1).as_vec(), &vec![(50, u128::MAX - 1), (60, u128::MAX)]);
}

#[test]
fn lock_noops() {
    let mut p = Pallet::new(config());
    p.lock(1, 0, 100, 10, 1000);
    p.lock(1, 5, 10, 10, 1000);
    p.lock(1, 5, 9, 10, 1000);
    p.lock(1, 5, 100, 10, 5);
    p.lock(1, 5, 100, 10, 4);
    assert_eq!(p.reward_locks(1).len(), 0);
    assert!(p.take_ledger_ops().is_empty());
    assert!(p.take_events().is_empty());
    assert_eq!(p.frozen.len(), 0);
}

#[test]
fn lock_params_divisibility() {
    let mut p = Pallet::new(config());
    assert_eq!(
        p.set_lock_params(LockParameters { period: 10, divide: 3 }),
        Err(Error::LockPeriodNotDivisible)
    );
    assert_eq!(p.lock_params(), None);
    assert_eq!(p.set_lock_params(LockParameters { period: 12, divide: 3 }), Ok(()));
    assert_eq!(p.lock_params(), Some(LockParameters { period: 12, divide: 3 }));
    assert_eq!(
        p.take_events(),
        vec![Event::LockParamsChanged(LockParameters { period: 12, divide: 3 })]
    );
}

#[test]
fn lock_params_bounds() {
    let mut p = Pallet::new(config());
    assert_eq!(
        p.set_lock_params(LockParameters { period: 101, divide: 1 }),
        Err(Error::LockParamsOutOfBounds)
    );
    assert_eq!(
        p.set_lock_params(LockParameters { period: 20, divide: 11 }),
        Err(Error::LockParamsOutOfBounds)
    );
    assert_eq!(
        p.set_lock_params(LockParameters { period: 0, divide: 1 }),
        Err(Error::LockParamsOutOfBounds)
    );
    assert_eq!(p.set_lock_params(LockParameters { period: 100, divide: 10 }), Ok(()));
}

#[test]
fn lock_params_zero_divide() {
    let mut c = config();
    c.lock_parameters_bounds.divide_min = 0;
    let mut p = Pallet::new(c);
    assert_eq!(
        p.set_lock_params(LockParameters { period: 10, divide: 0 }),
        Err(Error::LockPeriodNotDivisible)
    );
}

#[test]
fn schedule_errors_change_nothing() {
    let mut p = Pallet::new(config());
    p.set_schedule(50, vec![(1, 20)], vec![(9, 30)], vec![(9, vec![(2, 40)])]).unwrap();
    p.take_events();
    let cases: Vec<(Balance, Vec<(u64, Balance)>, Vec<(u64, Balance)>, Vec<(u64, Vec<(u64, Balance)>)>, Error)> = vec![
        (9, vec![], vec![], vec![], Error::RewardTooLow),
        (9, vec![(1, 5)], vec![], vec![], Error::RewardTooLow),
        (10, vec![(1, 9)], vec![], vec![], Error::MintTooLow),
        (10, vec![(1, 9)], vec![(3, 1)], vec![], Error::MintTooLow),
        (10, vec![], vec![(3, 9)], vec![], Error::RewardTooLow),
        (10, vec![], vec![(3, 9)], vec![(4, vec![(1, 1)])], Error::RewardTooLow),
        (10, vec![], vec![], vec![(4, vec![(1, 10), (2, 9)])], Error::MintTooLow),
    ];
    for (reward, mints, rc, mc, e) in cases {
        assert_eq!(p.set_schedule(reward, mints, rc, mc), Err(e));
        assert_eq!(p.reward(), 50);
        assert_eq!(p.mints().as_vec(), &vec![(1, 20)]);
        assert_eq!(p.reward_changes.as_vec(), &vec![(9, 30)]);
        assert_eq!(p.mint_changes.len(), 1);
        assert_eq!(p.mint_changes.get(9).unwrap().as_vec(), &vec![(2, 40)]);
        assert!(p.events.is_empty());
    }
}

#[test]
fn schedule_later_pair_wins() {
    let mut p = Pallet::new(config());
    assert_eq!(
        p.set_schedule(
            10,
            vec![(4, 0), (1, 30), (4, 100)],
            vec![(8, 5), (3, 11), (8, 12)],
            vec![(6, vec![(1, 1)]), (6, vec![(2, 10), (2, 11)])]
        ),
        Ok(())
    );
    assert_eq!(p.mints().as_vec(), &vec![(1, 30), (4, 100)]);
    assert_eq!(p.reward_changes.as_vec(), &vec![(3, 11), (8, 12)]);
    assert_eq!(p.mint_changes.get(6).unwrap().as_vec(), &vec![(2, 11)]);
    let ev = p.take_events();
    assert_eq!(ev.len(), 3);
    assert_eq!(ev[0], Event::RewardChanged(10));
    match &ev[1] {
        Event::MintsChanged(m) => assert_eq!(m.as_vec(), &vec![(1, 30), (4, 100)]),
        other => panic!("unexpected event {:?}", other),
    }
    assert_eq!(ev[2], Event::ScheduleSet);
}

#[test]
fn scheduled_changes_apply_once() {
    let mut p = Pallet::new(config());
    p.set_schedule(
        10,
        vec![],
        vec![(3, 70), (5, 77), (9, 90)],
        vec![(4, vec![(9, 40)]), (20, vec![(9, 50)])],
    )
    .unwrap();
    p.take_events();
    p.on_initialize::<NoLocks>(5, &vec![]);
    assert_eq!(p.reward(), 77);
    assert_eq!(p.reward_changes.as_vec(), &vec![(9, 90)]);
    assert_eq!(p.mints().as_vec(), &vec![(9, 40)]);
    assert_eq!(p.mint_changes.len(), 1);
    let ev = p.take_events();
    assert_eq!(ev.len(), 3);
    assert_eq!(ev[0], Event::RewardChanged(70));
    assert_eq!(ev[1], Event::RewardChanged(77));
    match &ev[2] {
        Event::MintsChanged(m) => assert_eq!(m.as_vec(), &vec![(9, 40)]),
        other => panic!("unexpected event {:?}", other),
    }
    p.on_initialize::<NoLocks>(5, &vec![]);
    assert_eq!(p.reward(), 0);
    assert_eq!(p.reward_changes.as_vec(), &vec![(9, 90)]);
    assert_eq!(p.mints().as_vec(), &vec![(9, 40)]);
    assert!(p.take_events().is_empty());
}

#[test]
fn author_from_digest() {
    let mut p = Pallet::new(config());
    let logs = vec![
        PreRuntime { engine: *b"aura", data: 5u64.to_le_bytes().to_vec() },
        PreRuntime { engine: ENGINE, data: vec![1, 2, 3] },
        author_log(0x0102_0304_0506_0708),
        author_log(6),
    ];
    p.on_initialize::<NoLocks>(1, &logs);
    assert_eq!(p.author(), Some(0x0102_0304_0506_0708));
    p.on_finalize::<NoLocks>(1, &vec![]);
    assert_eq!(p.author(), None);
}

#[test]
fn no_author_entry() {
    let mut p = Pallet::new(config());
    let logs = vec![PreRuntime { engine: *b"aura", data: 5u64.to_le_bytes().to_vec() }];
    p.on_initialize::<NoLocks>(1, &logs);
    assert_eq!(p.author(), None);
    p.on_finalize::<NoLocks>(1, &vec![3]);
    assert!(p.take_ledger_ops().is_empty());
}

#[test]
fn decode_account_little_endian() {
    assert_eq!(decode_account(&vec![1, 0, 0, 0, 0, 0, 0, 0, 9]), Some(1));
    assert_eq!(decode_account(&vec![0, 1, 0, 0, 0, 0, 0, 0]), Some(256));
    assert_eq!(decode_account(&vec![0xff; 8]), Some(u64::MAX));
    assert_eq!(decode_account(&vec![1, 2]), None);
}

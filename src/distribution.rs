use vstd::prelude::*;

use crate::types::{AccountId, Balance};

verus! {

/// The miner's part of `total` for a percentage `percent` (capped at 100):
/// `total * percent / 100`, rounded to the nearest unit, halves down.
pub open spec fn miner_share(total: int, percent: int) -> int {
    let p = if percent > 100 {
        100
    } else {
        percent
    };
    let q = total * p / 100;
    if total * p % 100 > 50 {
        q + 1
    } else {
        q
    }
}

/// Each validator's part: what is left after the miner's part, divided by
/// the number of validators and truncated. Nothing when there are none.
pub open spec fn validator_share(total: int, percent: int, n: int) -> int {
    if n == 0 {
        0
    } else {
        (total - miner_share(total, percent)) / n
    }
}

/// Who is paid what for a block: the author first, then each validator in
/// order.
pub open spec fn payouts(
    author: AccountId,
    total: Balance,
    percent: u32,
    validators: Seq<AccountId>,
) -> Seq<(AccountId, Balance)> {
    let per = validator_share(total as int, percent as int, validators.len() as int) as u128;
    seq![(author, miner_share(total as int, percent as int) as u128)] + validators.map_values(
        |v: AccountId| (v, per),
    )
}

/// The miner's part of a block reward.
pub fn calc_miner_share(total: Balance, percent: u32) -> (r: Balance)
    ensures
        r == miner_share(total as int, percent as int),
        r <= total,
{
    let p: u128 = if percent > 100 {
        100
    } else {
        percent as u128
    };
    let a = total / 100;
    let b = total % 100;
    proof {
        assert(a * p <= a * 100) by (nonlinear_arith)
            requires
                p <= 100,
        ;
        assert(b * p < 10000) by (nonlinear_arith)
            requires
                b < 100,
                p <= 100,
        ;
        assert(total * p / 100 == a * p + (b * p) / 100 && total * p % 100 == (b * p) % 100)
            by (nonlinear_arith)
            requires
                total == 100 * a + b,
                0 <= b < 100,
                p >= 0,
        ;
    }
    let bp = b * p;
    proof {
        assert(a * p + bp / 100 <= total) by (nonlinear_arith)
            requires
                total == 100 * a + b,
                0 <= b < 100,
                0 <= p <= 100,
                a >= 0,
                bp == b * p,
        ;
    }
    let q = a * p + bp / 100;
    let r = if bp % 100 > 50 {
        proof {
            assert(q < total) by (nonlinear_arith)
                requires
                    q == a * p + bp / 100,
                    p <= 100,
                    bp == b * p,
                    bp % 100 > 50,
                    total == 100 * a + b,
                    0 <= b < 100,
            ;
        }
        q + 1
    } else {
        proof {
            assert(q <= total) by (nonlinear_arith)
                requires
                    q == a * p + bp / 100,
                    p <= 100,
                    bp == b * p,
                    total == 100 * a + b,
                    0 <= b < 100,
            ;
        }
        q
    };
    r
}

/// Splits a block reward: what the author receives, and what each of `n`
/// validators receives. The remainder of the division among validators is
/// not paid out.
pub fn split_reward(total: Balance, percent: u32, n: usize) -> (r: (Balance, Balance))
    ensures
        r.0 == miner_share(total as int, percent as int),
        r.1 == validator_share(total as int, percent as int, n as int),
        r.0 + n * r.1 <= total,
{
    let miner = calc_miner_share(total, percent);
    let rest = total - miner;
    if n == 0 {
        (miner, 0)
    } else {
        let per = rest / (n as u128);
        proof {
            assert(n * per <= rest) by (nonlinear_arith)
                requires
                    per as int == rest as int / (n as int),
                    n > 0,
                    rest >= 0,
            ;
        }
        (miner, per)
    }
}

/// The payouts of a block: the author's part, then each validator's.
pub fn block_payouts(author: AccountId, total: Balance, percent: u32, validators: &Vec<AccountId>) -> (r:
    Vec<(AccountId, Balance)>)
    ensures
        r@ == payouts(author, total, percent, validators@),
{
    let (miner, per) = split_reward(total, percent, validators.len());
    let mut r: Vec<(AccountId, Balance)> = Vec::new();
    r.push((author, miner));
    let mut i: usize = 0;
    while i < validators.len()
        invariant
            i <= validators@.len(),
            per == validator_share(total as int, percent as int, validators@.len() as int),
            r@ == seq![(author, miner)] + validators@.take(i as int).map_values(
                |v: AccountId| (v, per),
            ),
        decreases validators@.len() - i,
    {
        r.push((validators[i], per));
        i = i + 1;
        proof {
            assert(r@ =~= seq![(author, miner)] + validators@.take(i as int).map_values(
                |v: AccountId| (v, per),
            ));
        }
    }
    proof {
        assert(validators@.take(validators@.len() as int) =~= validators@);
    }
    r
}

} // verus!

use vstd::prelude::*;

use crate::ordmap;
use crate::ordmap::OrdMap;
use crate::types;
use crate::types::{Balance, BlockNumber};

verus! {

/// Sum of the amounts of `s`.
pub open spec fn sum_amounts(s: Seq<(u64, u128)>) -> int
    decreases s.len(),
{
    if s.len() == 0 {
        0
    } else {
        sum_amounts(s.drop_last()) + s.last().1
    }
}

/// Sum of the amounts of a lock map, read off its listing in increasing
/// height order.
pub open spec fn total_of(m: Map<u64, u128>) -> int {
    sum_amounts(choose|s: Seq<(u64, u128)>| ordmap::keys_increasing(s) && ordmap::map_of(s) == m)
}

/// The amount locked until `k`, zero where there is none.
pub open spec fn amount_at(m: Map<u64, u128>, k: u64) -> int {
    if m.contains_key(k) {
        m[k] as int
    } else {
        0
    }
}

/// The entries of both maps; amounts under a shared height are added,
/// saturating.
pub open spec fn merged(a: Map<u64, u128>, b: Map<u64, u128>) -> Map<u64, u128> {
    Map::new(
        |k: u64| a.contains_key(k) || b.contains_key(k),
        |k: u64| types::sat_add(amount_at(a, k), amount_at(b, k)) as u128,
    )
}

/// The entries still locked at height `now`: those unlocking above it.
pub open spec fn active(m: Map<u64, u128>, now: u64) -> Map<u64, u128> {
    m.restrict(Set::new(|k: u64| k > now))
}

/// The total of a map is the sum over its sorted listing.
pub proof fn lemma_total_of(s: Seq<(u64, u128)>)
    requires
        ordmap::keys_increasing(s),
    ensures
        total_of(ordmap::map_of(s)) == sum_amounts(s),
{
    let t = choose|t: Seq<(u64, u128)>|
        ordmap::keys_increasing(t) && ordmap::map_of(t) == ordmap::map_of(s);
    ordmap::lemma_sorted_unique(t, s);
}

proof fn lemma_merged_step(o: Map<u64, u128>, m: Map<u64, u128>, k: u64, x: u128)
    requires
        !m.contains_key(k),
    ensures
        merged(merged(o, m), map![k => x]) == merged(o, m.insert(k, x)),
{
    assert(merged(merged(o, m), map![k => x]) =~= merged(o, m.insert(k, x)));
}

/// Locks `amount` until `when`, on top of what is already locked until then.
pub fn add_lock(locks: &mut OrdMap<Balance>, when: BlockNumber, amount: Balance)
    requires
        old(locks).wf(),
    ensures
        final(locks).wf(),
        final(locks)@ == merged(old(locks)@, map![when => amount]),
{
    let prior: Balance = match locks.get(when) {
        Some(b) => *b,
        None => 0,
    };
    let sum = types::add_balance(prior, amount);
    locks.insert(when, sum);
    assert(locks@ =~= merged(old(locks)@, map![when => amount]));
}

/// Adds every entry of `new` to `locks`.
pub fn merge_locks(locks: &mut OrdMap<Balance>, new: &OrdMap<Balance>)
    requires
        old(locks).wf(),
        new.wf(),
    ensures
        final(locks).wf(),
        final(locks)@ == merged(old(locks)@, new@),
{
    let v = new.as_vec();
    let ghost s = v@;
    proof {
        assert(s.take(0) =~= Seq::<(u64, u128)>::empty());
        assert(locks@ =~= merged(old(locks)@, Map::empty()));
    }
    let mut i: usize = 0;
    while i < v.len()
        invariant
            locks.wf(),
            v@ == s,
            ordmap::keys_increasing(s),
            i <= s.len(),
            locks@ == merged(old(locks)@, ordmap::map_of(s.take(i as int))),
        decreases s.len() - i,
    {
        let (k, x) = v[i];
        let ghost before = ordmap::map_of(s.take(i as int));
        proof {
            assert(s.take(i + 1).drop_last() =~= s.take(i as int));
            ordmap::lemma_map_of_sorted(s.take(i as int));
            if before.contains_key(k) {
                let j = choose|j: int| 0 <= j < i && s.take(i as int)[j].0 == k;
                assert(s[j].0 == k);
            }
            lemma_merged_step(old(locks)@, before, k, x);
        }
        add_lock(locks, k, x);
        i = i + 1;
    }
    proof {
        assert(s.take(s.len() as int) =~= s);
    }
}

/// Saturating sum of the amounts in `locks`.
pub fn sum_locks(locks: &OrdMap<Balance>) -> (total: Balance)
    requires
        locks.wf(),
    ensures
        total == types::capped(total_of(locks@)),
{
    let v = locks.as_vec();
    let ghost s = v@;
    let mut total: Balance = 0;
    let mut i: usize = 0;
    while i < v.len()
        invariant
            v@ == s,
            i <= s.len(),
            sum_amounts(s.take(i as int)) >= 0,
            total == types::capped(sum_amounts(s.take(i as int))),
        decreases s.len() - i,
    {
        proof {
            assert(s.take(i + 1).drop_last() =~= s.take(i as int));
        }
        total = types::add_balance(total, v[i].1);
        i = i + 1;
    }
    proof {
        assert(s.take(s.len() as int) =~= s);
        lemma_total_of(s);
    }
    total
}

/// Drops the entries that unlock at or before `now` and returns the
/// saturating sum of those that remain.
pub fn expire_locks(locks: &mut OrdMap<Balance>, now: BlockNumber) -> (total: Balance)
    requires
        old(locks).wf(),
    ensures
        final(locks).wf(),
        final(locks)@ == active(old(locks)@, now),
        total == types::capped(total_of(final(locks)@)),
{
    let _expired = locks.take_due(now);
    sum_locks(locks)
}

} // verus!

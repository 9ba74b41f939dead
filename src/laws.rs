use vstd::prelude::*;

use crate::locks;
use crate::ordmap;
use crate::pallet;
use crate::pallet::Pallet;
use crate::strategy::GenerateRewardLocks;
use crate::digest::PreRuntime;
use crate::types;
use crate::types::{AccountId, BlockNumber};

verus! {

/// The freeze the engine last set on `who`, zero where it set none.
pub open spec fn frozen_amount(p: Pallet, who: AccountId) -> int {
    if p.frozen@.contains_key(who) {
        p.frozen@[who] as int
    } else {
        0
    }
}

/// In every well-formed state, which every operation preserves, the freeze
/// on an account is the total of its lock entries (capped at the largest
/// balance); an account without entries has no freeze.
pub proof fn lemma_frozen_is_lock_total(p: Pallet, who: AccountId)
    requires
        p.wf(),
    ensures
        frozen_amount(p, who) == types::capped(
            locks::total_of(pallet::held(p.locks_view(), who)),
        ),
{
    if !p.frozen@.contains_key(who) {
        let e = Seq::<(u64, u128)>::empty();
        locks::lemma_total_of(e);
        assert(ordmap::map_of(e) =~= Map::<u64, u128>::empty());
    }
}

/// Starting the same block a second time applies no scheduled change again:
/// the first start removed every change due, so the second leaves both
/// schedules and the mint table as they were and emits nothing; the reward
/// is then the curve's own.
pub proof fn lemma_begin_twice<S: GenerateRewardLocks>(
    start: Pallet,
    once: Pallet,
    twice: Pallet,
    now: BlockNumber,
    first_logs: Seq<PreRuntime>,
    second_logs: Seq<PreRuntime>,
)
    requires
        start.wf(),
        once.wf(),
        pallet::began::<S>(start, once, now, first_logs),
        pallet::began::<S>(once, twice, now, second_logs),
    ensures
        ordmap::due(once.reward_changes.pairs(), now).len() == 0,
        ordmap::due(once.mint_changes.pairs(), now).len() == 0,
        twice.reward_changes@ == once.reward_changes@,
        twice.mint_changes@ == once.mint_changes@,
        twice.mints@ == once.mints@,
        twice.events@ == once.events@,
        twice.reward == S::rewards_of(now),
{
    let rs = once.reward_changes.pairs();
    let ms = once.mint_changes.pairs();
    ordmap::lemma_map_of_sorted(rs);
    ordmap::lemma_map_of_sorted(ms);
    assert forall|i: int| 0 <= i < rs.len() implies rs[i].0 > now by {
        assert(once.reward_changes@.contains_key(rs[i].0));
    }
    assert forall|i: int| 0 <= i < ms.len() implies ms[i].0 > now by {
        assert(once.mint_changes@.contains_key(ms[i].0));
    }
    ordmap::lemma_due_prefix(Seq::<(u64, u128)>::empty(), rs, now);
    ordmap::lemma_due_prefix(Seq::empty(), ms, now);
    assert(Seq::<(u64, u128)>::empty() + rs =~= rs);
    assert(Seq::empty() + ms =~= ms);
    assert(twice.reward_changes@ =~= once.reward_changes@);
    assert(twice.mint_changes@ =~= once.mint_changes@);
    assert(twice.events@ =~= once.events@);
}

/// Locking twice until the same height leaves one entry there, holding the
/// (saturating) sum of both amounts.
pub proof fn lemma_lock_merge(m: Map<u64, u128>, when: u64, a: u128, b: u128)
    ensures
        locks::merged(locks::merged(m, map![when => a]), map![when => b]) == locks::merged(
            m,
            map![when => types::sat_add(a as int, b as int) as u128],
        ),
{
    assert(locks::merged(locks::merged(m, map![when => a]), map![when => b]) =~= locks::merged(
        m,
        map![when => types::sat_add(a as int, b as int) as u128],
    ));
}

} // verus!

use vstd::prelude::*;

use crate::digest;
use crate::digest::PreRuntime;
use crate::distribution;
use crate::locks;
use crate::ordmap;
use crate::ordmap::OrdMap;
use crate::strategy::GenerateRewardLocks;
use crate::types;
use crate::types::{AccountId, Balance, BlockNumber, Error, Event, LedgerOp, LockBounds, LockParameters};

verus! {

/// Constants of the runtime the engine runs in.
#[derive(Clone, Copy, PartialEq, Eq, Debug)]
pub struct Config {
    /// Percentage of each block reward that goes to the block author.
    pub miner_rewards_percent: u32,
    /// Bounds on the lock parameters that may be configured.
    pub lock_parameters_bounds: LockBounds,
    /// The ledger's minimum balance.
    pub minimum_balance: Balance,
    /// Identifier of the consensus engine whose digest entries name the
    /// block author.
    pub engine_id: [u8; 4],
}

/// Per account, its lock entries (unlock height to amount).
pub type LocksView = Map<AccountId, Map<BlockNumber, Balance>>;

/// What the engine has told the ledger: the lock entries it keeps, the
/// freeze it last set on each account, and the instructions not yet
/// collected.
pub type LedgerState = (LocksView, Map<AccountId, Balance>, Seq<LedgerOp>);

/// The lock entries of `who`, empty where there are none.
pub open spec fn held(v: LocksView, who: AccountId) -> Map<BlockNumber, Balance> {
    if v.contains_key(who) {
        v[who]
    } else {
        Map::empty()
    }
}

/// The ledger state after `who`'s locks are recomputed from `locks` at
/// height `now`: expired entries are dropped, and the freeze is set to the
/// (saturating) total of those left.
pub open spec fn relocked(st: LedgerState, who: AccountId, locks: Map<BlockNumber, Balance>, now: BlockNumber) -> LedgerState {
    let kept = locks::active(locks, now);
    let total = types::capped(locks::total_of(kept)) as u128;
    (st.0.insert(who, kept), st.1.insert(who, total), st.2.push(LedgerOp::SetLock { who, amount: total }))
}

/// The ledger state after `amount` is paid to `who` at `now` under the
/// curve `S`: the amount is credited, and the locks it generates, if any,
/// are added to `who`'s, which are then recomputed.
pub open spec fn paid<S: GenerateRewardLocks>(
    st: LedgerState,
    who: AccountId,
    amount: Balance,
    now: BlockNumber,
    params: Option<LockParameters>,
) -> LedgerState {
    let generated = S::reward_locks_of(now, amount, params);
    let credited = (st.0, st.1, st.2.push(LedgerOp::Deposit { who, amount }));
    if generated.dom() == Set::<BlockNumber>::empty() {
        credited
    } else {
        relocked(credited, who, locks::merged(held(st.0, who), generated), now)
    }
}

/// The ledger state after each payout of `payouts`, in order.
pub open spec fn paid_all<S: GenerateRewardLocks>(
    st: LedgerState,
    payouts: Seq<(AccountId, Balance)>,
    now: BlockNumber,
    params: Option<LockParameters>,
) -> LedgerState
    decreases payouts.len(),
{
    if payouts.len() == 0 {
        st
    } else {
        let p = payouts.last();
        paid::<S>(paid_all::<S>(st, payouts.drop_last(), now, params), p.0, p.1, now, params)
    }
}

/// A credit of each mint, in increasing account order.
pub open spec fn mint_deposits(mints: Seq<(AccountId, Balance)>) -> Seq<LedgerOp> {
    mints.map_values(|e: (AccountId, Balance)| LedgerOp::Deposit { who: e.0, amount: e.1 })
}

/// Whether every amount of `m` is at least `min`.
pub open spec fn all_at_least(m: Map<u64, Balance>, min: Balance) -> bool {
    forall|k: u64| #[trigger] m.contains_key(k) ==> m[k] >= min
}

/// Whether every amount of every table of `m` is at least `min`.
pub open spec fn tables_at_least(m: Map<BlockNumber, Map<AccountId, Balance>>, min: Balance) -> bool {
    forall|h: BlockNumber| #[trigger] m.contains_key(h) ==> all_at_least(m[h], min)
}

/// The scheduled mint tables given as pairs: a later pair wins over an
/// earlier one with the same key, in both levels.
pub open spec fn schedule_of(v: Seq<(BlockNumber, Vec<(AccountId, Balance)>)>) -> Map<
    BlockNumber,
    Map<AccountId, Balance>,
> {
    ordmap::map_of(v).map_values(|t: Vec<(AccountId, Balance)>| ordmap::map_of(t@))
}

/// Why a schedule is refused, checked in this order: the reward, the mints,
/// the scheduled rewards, the scheduled mints.
pub open spec fn schedule_error(
    reward: Balance,
    mints: Map<AccountId, Balance>,
    reward_changes: Map<BlockNumber, Balance>,
    mint_changes: Map<BlockNumber, Map<AccountId, Balance>>,
    min: Balance,
) -> Option<Error> {
    if reward < min {
        Some(Error::RewardTooLow)
    } else if !all_at_least(mints, min) {
        Some(Error::MintTooLow)
    } else if !all_at_least(reward_changes, min) {
        Some(Error::RewardTooLow)
    } else if !tables_at_least(mint_changes, min) {
        Some(Error::MintTooLow)
    } else {
        None
    }
}

/// Why lock parameters are refused, if they are.
pub open spec fn lock_params_error(p: LockParameters, b: LockBounds) -> Option<Error> {
    if !(b.period_min <= p.period <= b.period_max && b.divide_min <= p.divide <= b.divide_max) {
        Some(Error::LockParamsOutOfBounds)
    } else if p.divide == 0 || p.period % p.divide != 0 {
        Some(Error::LockPeriodNotDivisible)
    } else {
        None
    }
}

/// `post` is `pre` after the start of block `now`, whose digest holds the
/// pre-runtime entries `logs`: the author is read from the digest; the reward
/// is the curve's for `now`, unless scheduled changes are due, in which case
/// the last of them applies; the last due mint table replaces the mints; due
/// changes are removed, with a notification each.
pub open spec fn began<S: GenerateRewardLocks>(
    pre: Pallet,
    post: Pallet,
    now: BlockNumber,
    logs: Seq<PreRuntime>,
) -> bool {
    let rd = ordmap::due(pre.reward_changes.pairs(), now);
    let md = ordmap::due(pre.mint_changes.pairs(), now);
    &&& post.config == pre.config
    &&& post.author == match digest::author_of(logs, pre.config.engine_id@) {
        Some(a) => Some(a),
        None => pre.author,
    }
    &&& post.reward == if rd.len() > 0 {
        rd.last().1
    } else {
        S::rewards_of(now)
    }
    &&& post.reward_changes@ == pre.reward_changes@.restrict(Set::new(|k: u64| k > now))
    &&& post.mints@ == if md.len() > 0 {
        md.last().1@
    } else {
        pre.mints@
    }
    &&& post.mint_changes@ == pre.mint_changes@.restrict(Set::new(|k: u64| k > now))
    &&& post.events@ == pre.events@ + rd.map_values(|e: (BlockNumber, Balance)| Event::RewardChanged(e.1))
        + md.map_values(|e: (BlockNumber, OrdMap<Balance>)| Event::MintsChanged(e.1))
    &&& post.lock_params == pre.lock_params
    &&& post.reward_locks == pre.reward_locks
    &&& post.frozen == pre.frozen
    &&& post.ledger == pre.ledger
}

proof fn lemma_schedule_of(
    conv: Seq<(BlockNumber, OrdMap<Balance>)>,
    orig: Seq<(BlockNumber, Vec<(AccountId, Balance)>)>,
)
    requires
        conv.len() == orig.len(),
        forall|i: int|
            0 <= i < conv.len() ==> (#[trigger] conv[i]).0 == orig[i].0 && conv[i].1@
                == ordmap::map_of(orig[i].1@),
    ensures
        ordmap::map_of(conv).map_values(|m: OrdMap<Balance>| m@) == schedule_of(orig),
    decreases conv.len(),
{
    if conv.len() > 0 {
        let dc = conv.drop_last();
        let d_o = orig.drop_last();
        assert forall|i: int| 0 <= i < dc.len() implies (#[trigger] dc[i]).0 == d_o[i].0 && dc[i].1@
            == ordmap::map_of(d_o[i].1@) by {
            assert(dc[i] == conv[i]);
            assert(d_o[i] == orig[i]);
        }
        lemma_schedule_of(dc, d_o);
        assert(conv.last() == conv[conv.len() - 1]);
        assert(orig.last() == orig[orig.len() - 1]);
        assert(ordmap::map_of(conv) == ordmap::map_of(dc).insert(conv.last().0, conv.last().1));
        assert(ordmap::map_of(orig) == ordmap::map_of(d_o).insert(orig.last().0, orig.last().1));
        let a = ordmap::map_of(conv).map_values(|m: OrdMap<Balance>| m@);
        let b = schedule_of(orig);
        let a0 = ordmap::map_of(dc).map_values(|m: OrdMap<Balance>| m@);
        let b0 = schedule_of(d_o);
        assert(a0 == b0);
        let k = conv.last().0;
        assert(conv.last().1@ == ordmap::map_of(orig.last().1@));
        assert forall|h: BlockNumber| #[trigger] a.contains_key(h) == b.contains_key(h) by {
            if h != k {
                assert(a.contains_key(h) == a0.contains_key(h));
                assert(b.contains_key(h) == b0.contains_key(h));
            }
        }
        assert forall|h: BlockNumber| #[trigger] a.contains_key(h) implies a[h] == b[h] by {
            if h != k {
                assert(a[h] == a0[h]);
                assert(b[h] == b0[h]);
            }
        }
        assert(a =~= b);
    } else {
        assert(ordmap::map_of(conv).map_values(|m: OrdMap<Balance>| m@) =~= schedule_of(orig));
    }
}

/// Whether some amount of `m` is below `min`.
fn any_below(m: &OrdMap<Balance>, min: Balance) -> (r: bool)
    requires
        m.wf(),
    ensures
        r == !all_at_least(m@, min),
{
    let v = m.as_vec();
    proof {
        ordmap::lemma_map_of_sorted(m.pairs());
    }
    let mut i: usize = 0;
    while i < v.len()
        invariant
            v@ == m.pairs(),
            m.wf(),
            i <= v@.len(),
            forall|j: int| 0 <= j < i ==> v@[j].1 >= min,
        decreases v@.len() - i,
    {
        if v[i].1 < min {
            proof {
                ordmap::lemma_map_of_sorted(m.pairs());
                assert(m@.contains_key(v@[i as int].0));
            }
            return true;
        }
        i = i + 1;
    }
    proof {
        ordmap::lemma_map_of_sorted(m.pairs());
    }
    assert forall|k: u64| #[trigger] m@.contains_key(k) implies m@[k] >= min by {
        let j = choose|j: int| 0 <= j < v@.len() && v@[j].0 == k;
    }
    false
}

/// Whether some amount of some table of `m` is below `min`.
fn any_table_below(m: &OrdMap<OrdMap<Balance>>, min: Balance) -> (r: bool)
    requires
        m.wf(),
        forall|h: BlockNumber| #[trigger] m@.contains_key(h) ==> m@[h].wf(),
    ensures
        r == !tables_at_least(m@.map_values(|t: OrdMap<Balance>| t@), min),
{
    let v = m.as_vec();
    proof {
        ordmap::lemma_map_of_sorted(m.pairs());
    }
    let ghost mv = m@.map_values(|t: OrdMap<Balance>| t@);
    let mut i: usize = 0;
    while i < v.len()
        invariant
            v@ == m.pairs(),
            m.wf(),
            mv == m@.map_values(|t: OrdMap<Balance>| t@),
            forall|h: BlockNumber| #[trigger] m@.contains_key(h) ==> m@[h].wf(),
            forall|j: int| 0 <= j < v@.len() ==> m@.contains_key(#[trigger] v@[j].0) && m@[v@[j].0] == v@[j].1,
            i <= v@.len(),
            forall|j: int| 0 <= j < i ==> all_at_least(#[trigger] v@[j].1@, min),
        decreases v@.len() - i,
    {
        assert(m@.contains_key(v@[i as int].0));
        if any_below(&v[i].1, min) {
            assert(mv.contains_key(v@[i as int].0));
            return true;
        }
        i = i + 1;
    }
    assert forall|h: BlockNumber| #[trigger] mv.contains_key(h) implies all_at_least(mv[h], min) by {
        let j = choose|j: int| 0 <= j < v@.len() && v@[j].0 == h;
        assert(all_at_least(v@[j].1@, min));
    }
    false
}

/// The reward engine: the schedule store, the vesting locks, and the block
/// hooks that apply them.
pub struct Pallet {
    pub config: Config,
    /// Author of the block being executed.
    pub author: Option<AccountId>,
    /// Current block reward.
    pub reward: Balance,
    /// Per account, its lock entries.
    pub reward_locks: OrdMap<OrdMap<Balance>>,
    /// Rewards that take effect at future heights.
    pub reward_changes: OrdMap<Balance>,
    /// Current mints, credited every block.
    pub mints: OrdMap<Balance>,
    /// Mint tables that take effect at future heights.
    pub mint_changes: OrdMap<OrdMap<Balance>>,
    /// Lock parameters handed to the curve, once set.
    pub lock_params: Option<LockParameters>,
    /// Per account, the freeze last set on it.
    pub frozen: OrdMap<Balance>,
    /// Events not yet collected.
    pub events: Vec<Event>,
    /// Ledger instructions not yet collected.
    pub ledger: Vec<LedgerOp>,
}

impl Pallet {
    /// Lock entries per account.
    pub open spec fn locks_view(self) -> LocksView {
        self.reward_locks@.map_values(|m: OrdMap<Balance>| m@)
    }

    /// The locks, the freezes and the pending ledger instructions.
    pub open spec fn ledger_state(self) -> LedgerState {
        (self.locks_view(), self.frozen@, self.ledger@)
    }

    /// Scheduled mint tables, by height.
    pub open spec fn mint_changes_view(self) -> Map<BlockNumber, Map<AccountId, Balance>> {
        self.mint_changes@.map_values(|m: OrdMap<Balance>| m@)
    }

    /// The maps are well formed, and the freeze of every account is the
    /// total of its lock entries.
    pub open spec fn wf(self) -> bool {
        &&& self.reward_locks.wf()
        &&& self.reward_changes.wf()
        &&& self.mints.wf()
        &&& self.mint_changes.wf()
        &&& self.frozen.wf()
        &&& forall|a: AccountId| #[trigger]
            self.reward_locks@.contains_key(a) ==> self.reward_locks@[a].wf()
        &&& forall|h: BlockNumber| #[trigger]
            self.mint_changes@.contains_key(h) ==> self.mint_changes@[h].wf()
        &&& forall|a: AccountId| #[trigger]
            self.frozen@.contains_key(a) == self.reward_locks@.contains_key(a)
        &&& forall|a: AccountId| #[trigger]
            self.frozen@.contains_key(a) ==> self.frozen@[a] == types::capped(
                locks::total_of(self.reward_locks@[a]@),
            )
    }

    /// Everything but the locks, the freezes and the ledger instructions is
    /// as in `other`.
    pub open spec fn same_schedule(self, other: Pallet) -> bool {
        &&& self.config == other.config
        &&& self.author == other.author
        &&& self.reward == other.reward
        &&& self.reward_changes == other.reward_changes
        &&& self.mints == other.mints
        &&& self.mint_changes == other.mint_changes
        &&& self.lock_params == other.lock_params
        &&& self.events == other.events
    }

    /// An engine with no reward, no mints, nothing scheduled and no locks.
    pub fn new(config: Config) -> (r: Pallet)
        ensures
            r.wf(),
            r.config == config,
            r.author is None,
            r.reward == 0,
            r.reward_locks@ == Map::<AccountId, OrdMap<Balance>>::empty(),
            r.reward_changes@ == Map::<BlockNumber, Balance>::empty(),
            r.mints@ == Map::<AccountId, Balance>::empty(),
            r.mint_changes@ == Map::<BlockNumber, OrdMap<Balance>>::empty(),
            r.lock_params is None,
            r.frozen@ == Map::<AccountId, Balance>::empty(),
            r.events@ == Seq::<Event>::empty(),
            r.ledger@ == Seq::<LedgerOp>::empty(),
    {
        Pallet {
            config,
            author: None,
            reward: 0,
            reward_locks: OrdMap::new(),
            reward_changes: OrdMap::new(),
            mints: OrdMap::new(),
            mint_changes: OrdMap::new(),
            lock_params: None,
            frozen: OrdMap::new(),
            events: Vec::new(),
            ledger: Vec::new(),
        }
    }

    /// A copy of the lock entries of `who`.
    pub fn reward_locks(&self, who: AccountId) -> (r: OrdMap<Balance>)
        requires
            self.wf(),
        ensures
            r.wf(),
            r@ == held(self.locks_view(), who),
    {
        match self.reward_locks.get(who) {
            Some(m) => m.copied(),
            None => OrdMap::new(),
        }
    }

    /// Replaces the lock entries of `who` by those of `locks` that are still
    /// locked at `now`, and sets `who`'s freeze to their saturating total.
    pub fn do_update_reward_locks(&mut self, who: AccountId, locks: OrdMap<Balance>, now: BlockNumber)
        requires
            old(self).wf(),
            locks.wf(),
        ensures
            final(self).wf(),
            final(self).same_schedule(*old(self)),
            final(self).ledger_state() == relocked(old(self).ledger_state(), who, locks@, now),
            final(self).frozen@[who] == types::capped(locks::total_of(final(self).locks_view()[who])),
    {
        let mut locks = locks;
        let total = locks::expire_locks(&mut locks, now);
        self.ledger.push(LedgerOp::SetLock { who, amount: total });
        self.frozen.insert(who, total);
        self.reward_locks.insert(who, locks);
        proof {
            assert(self.locks_view() =~= old(self).locks_view().insert(who, locks@));
        }
    }

    /// Pays `amount` to `who` at `now`: credits it, and adds the locks that
    /// the curve `S` generates for it to `who`'s.
    pub fn do_reward_per_account<S: GenerateRewardLocks>(&mut self, who: AccountId, amount: Balance, now: BlockNumber)
        requires
            old(self).wf(),
        ensures
            final(self).wf(),
            final(self).same_schedule(*old(self)),
            final(self).ledger_state() == paid::<S>(
                old(self).ledger_state(),
                who,
                amount,
                now,
                old(self).lock_params,
            ),
    {
        let generated = S::generate_reward_locks(now, amount, self.lock_params);
        self.ledger.push(LedgerOp::Deposit { who, amount });
        proof {
            ordmap::lemma_map_of_sorted(generated.pairs());
            if generated.pairs().len() > 0 {
                assert(generated@.contains_key(generated.pairs()[0].0));
            } else {
                assert(generated@ =~= Map::empty());
            }
        }
        if generated.len() > 0 {
            let mut locks = self.reward_locks(who);
            locks::merge_locks(&mut locks, &generated);
            self.do_update_reward_locks(who, locks, now);
        } else {
            assert(generated@.dom() =~= Set::<BlockNumber>::empty());
        }
    }

    /// Pays a block reward: the author's part to `author`, and an equal part
    /// of the rest to each of `validators`.
    pub fn do_reward<S: GenerateRewardLocks>(
        &mut self,
        author: AccountId,
        reward: Balance,
        now: BlockNumber,
        validators: &Vec<AccountId>,
    )
        requires
            old(self).wf(),
        ensures
            final(self).wf(),
            final(self).same_schedule(*old(self)),
            final(self).ledger_state() == paid_all::<S>(
                old(self).ledger_state(),
                distribution::payouts(
                    author,
                    reward,
                    old(self).config.miner_rewards_percent,
                    validators@,
                ),
                now,
                old(self).lock_params,
            ),
    {
        let payouts = distribution::block_payouts(
            author,
            reward,
            self.config.miner_rewards_percent,
            validators,
        );
        let ghost ps = payouts@;
        let mut i: usize = 0;
        proof {
            assert(ps.take(0) =~= Seq::<(AccountId, Balance)>::empty());
        }
        while i < payouts.len()
            invariant
                self.wf(),
                self.same_schedule(*old(self)),
                payouts@ == ps,
                i <= ps.len(),
                self.ledger_state() == paid_all::<S>(
                    old(self).ledger_state(),
                    ps.take(i as int),
                    now,
                    old(self).lock_params,
                ),
            decreases ps.len() - i,
        {
            let (who, amount) = payouts[i];
            proof {
                assert(ps.take(i + 1).drop_last() =~= ps.take(i as int));
            }
            self.do_reward_per_account::<S>(who, amount, now);
            i = i + 1;
        }
        proof {
            assert(ps.take(ps.len() as int) =~= ps);
        }
    }

    /// Credits every mint of the current table.
    pub fn do_mints(&mut self)
        requires
            old(self).wf(),
        ensures
            final(self).wf(),
            final(self).same_schedule(*old(self)),
            final(self).locks_view() == old(self).locks_view(),
            final(self).frozen == old(self).frozen,
            final(self).reward_locks == old(self).reward_locks,
            final(self).ledger@ == old(self).ledger@ + mint_deposits(old(self).mints.pairs()),
    {
        let v = self.mints.as_vec();
        let mut i: usize = 0;
        while i < v.len()
            invariant
                v@ == old(self).mints.pairs(),
                self.mints == old(self).mints,
                self.same_schedule(*old(self)),
                self.frozen == old(self).frozen,
                self.reward_locks == old(self).reward_locks,
                i <= v@.len(),
                self.ledger@ == old(self).ledger@ + mint_deposits(v@.take(i as int)),
            decreases v@.len() - i,
        {
            let (who, amount) = v[i];
            self.ledger.push(LedgerOp::Deposit { who, amount });
            i = i + 1;
            proof {
                assert(mint_deposits(v@.take(i as int)) =~= mint_deposits(v@.take(i - 1)).push(
                    LedgerOp::Deposit { who, amount },
                ));
            }
        }
        proof {
            assert(v@.take(v@.len() as int) =~= v@);
        }
    }
    /// Start of block `now`, whose digest holds the pre-runtime entries
    /// `logs`. Must run exactly once per block, before `on_finalize`.
    pub fn on_initialize<S: GenerateRewardLocks>(&mut self, now: BlockNumber, logs: &Vec<PreRuntime>)
        requires
            old(self).wf(),
        ensures
            final(self).wf(),
            began::<S>(*old(self), *final(self), now, logs@),
    {
        let engine = self.config.engine_id;
        match digest::find_author(logs, &engine) {
            Some(a) => {
                self.author = Some(a);
            },
            None => {},
        }
        self.reward = S::calc_rewards(now);
        let due_rewards = self.reward_changes.take_due(now);
        proof {
            ordmap::lemma_due_prefix(due_rewards@, self.reward_changes.pairs(), now);
        }
        let ghost events0 = self.events@;
        let mut i: usize = 0;
        while i < due_rewards.len()
            invariant
                self.wf(),
                self.config == old(self).config,
                self.author == if digest::author_of(logs@, old(self).config.engine_id@) is Some {
                    digest::author_of(logs@, old(self).config.engine_id@)
                } else {
                    old(self).author
                },
                self.reward_changes@ == old(self).reward_changes@.restrict(Set::new(|k: u64| k > now)),
                self.mints == old(self).mints,
                self.mint_changes == old(self).mint_changes,
                self.lock_params == old(self).lock_params,
                self.reward_locks == old(self).reward_locks,
                self.frozen == old(self).frozen,
                self.ledger == old(self).ledger,
                i <= due_rewards@.len(),
                self.reward == if i > 0 {
                    due_rewards@[i - 1].1
                } else {
                    S::rewards_of(now)
                },
                self.events@ == events0 + due_rewards@.take(i as int).map_values(
                    |e: (BlockNumber, Balance)| Event::RewardChanged(e.1),
                ),
            decreases due_rewards@.len() - i,
        {
            let r = due_rewards[i].1;
            self.reward = r;
            self.events.push(Event::RewardChanged(r));
            i = i + 1;
            proof {
                assert(due_rewards@.take(i as int).map_values(
                    |e: (BlockNumber, Balance)| Event::RewardChanged(e.1),
                ) =~= due_rewards@.take(i - 1).map_values(
                    |e: (BlockNumber, Balance)| Event::RewardChanged(e.1),
                ).push(Event::RewardChanged(r)));
            }
        }
        proof {
            assert(due_rewards@.take(due_rewards@.len() as int) =~= due_rewards@);
        }
        let ghost events1 = self.events@;
        let ghost mc = self.mint_changes;
        let mut due_mints = self.mint_changes.take_due(now);
        let ghost dm = due_mints@;
        proof {
            ordmap::lemma_due_prefix(dm, self.mint_changes.pairs(), now);
            ordmap::lemma_map_of_sorted(mc.pairs());
            assert forall|j: int| 0 <= j < dm.len() implies (#[trigger] dm[j]).1.wf() by {
                assert(dm[j] == mc.pairs()[j]);
                assert(mc@.contains_key(mc.pairs()[j].0));
            }
            assert forall|h: BlockNumber| #[trigger] self.mint_changes@.contains_key(h) implies self.mint_changes@[h].wf() by {
                assert(mc@.contains_key(h));
            }
        }
        let n = due_mints.len();
        if n > 0 {
            self.mints = due_mints[n - 1].1.copied();
        }
        while due_mints.len() > 0
            invariant
                self.wf(),
                self.config == old(self).config,
                self.author == if digest::author_of(logs@, old(self).config.engine_id@) is Some {
                    digest::author_of(logs@, old(self).config.engine_id@)
                } else {
                    old(self).author
                },
                self.reward == if ordmap::due(old(self).reward_changes.pairs(), now).len() > 0 {
                    ordmap::due(old(self).reward_changes.pairs(), now).last().1
                } else {
                    S::rewards_of(now)
                },
                self.reward_changes@ == old(self).reward_changes@.restrict(Set::new(|k: u64| k > now)),
                self.mints@ == if dm.len() > 0 {
                    dm.last().1@
                } else {
                    old(self).mints@
                },
                self.mint_changes@ == old(self).mint_changes@.restrict(Set::new(|k: u64| k > now)),
                dm == ordmap::due(old(self).mint_changes.pairs(), now),
                self.lock_params == old(self).lock_params,
                self.reward_locks == old(self).reward_locks,
                self.frozen == old(self).frozen,
                self.ledger == old(self).ledger,
                events1 == old(self).events@ + ordmap::due(old(self).reward_changes.pairs(), now).map_values(
                    |e: (BlockNumber, Balance)| Event::RewardChanged(e.1),
                ),
                due_mints@.len() <= dm.len(),
                due_mints@ == dm.skip(dm.len() - due_mints@.len()),
                self.events@ == events1 + dm.take(dm.len() - due_mints@.len()).map_values(
                    |e: (BlockNumber, OrdMap<Balance>)| Event::MintsChanged(e.1),
                ),
            decreases due_mints@.len(),
        {
            let ghost c = dm.len() - due_mints@.len();
            let (_, m) = due_mints.remove(0);
            proof {
                assert(dm[c].1 == m);
                assert(due_mints@ =~= dm.skip(c + 1));
            }
            self.events.push(Event::MintsChanged(m));
            proof {
                assert(dm.take(c + 1).map_values(
                    |e: (BlockNumber, OrdMap<Balance>)| Event::MintsChanged(e.1),
                ) =~= dm.take(c).map_values(
                    |e: (BlockNumber, OrdMap<Balance>)| Event::MintsChanged(e.1),
                ).push(Event::MintsChanged(m)));
            }
        }
        proof {
            assert(dm.take(dm.len() as int) =~= dm);
        }
    }

    /// End of block `now`, whose validator set is `validators`: pays the
    /// block reward if the block has an author, then credits the mints, then
    /// forgets the author.
    pub fn on_finalize<S: GenerateRewardLocks>(&mut self, now: BlockNumber, validators: &Vec<AccountId>)
        requires
            old(self).wf(),
        ensures
            final(self).wf(),
            final(self).author is None,
            ({
                let st = match old(self).author {
                    Some(a) => paid_all::<S>(
                        old(self).ledger_state(),
                        distribution::payouts(
                            a,
                            old(self).reward,
                            old(self).config.miner_rewards_percent,
                            validators@,
                        ),
                        now,
                        old(self).lock_params,
                    ),
                    None => old(self).ledger_state(),
                };
                &&& final(self).locks_view() == st.0
                &&& final(self).frozen@ == st.1
                &&& final(self).ledger@ == st.2 + mint_deposits(old(self).mints.pairs())
            }),
            final(self).config == old(self).config,
            final(self).reward == old(self).reward,
            final(self).reward_changes == old(self).reward_changes,
            final(self).mints == old(self).mints,
            final(self).mint_changes == old(self).mint_changes,
            final(self).lock_params == old(self).lock_params,
            final(self).events == old(self).events,
    {
        match self.author {
            Some(author) => {
                let reward = self.reward;
                self.do_reward::<S>(author, reward, now, validators);
            },
            None => {},
        }
        self.do_mints();
        self.author = None;
    }

    /// Replaces the reward, the mints and both schedules of changes. Amounts
    /// given twice under one key keep the later one. Refused, with nothing
    /// changed, where any amount is below the minimum balance. For the root
    /// authority only: the caller checks the origin.
    pub fn set_schedule(
        &mut self,
        reward: Balance,
        mints: Vec<(AccountId, Balance)>,
        reward_changes: Vec<(BlockNumber, Balance)>,
        mint_changes: Vec<(BlockNumber, Vec<(AccountId, Balance)>)>,
    ) -> (r: Result<(), Error>)
        requires
            old(self).wf(),
        ensures
            final(self).wf(),
            match schedule_error(
                reward,
                ordmap::map_of(mints@),
                ordmap::map_of(reward_changes@),
                schedule_of(mint_changes@),
                old(self).config.minimum_balance,
            ) {
                Some(e) => r == Err::<(), Error>(e) && *final(self) == *old(self),
                None => {
                    &&& r is Ok
                    &&& final(self).reward == reward
                    &&& final(self).mints@ == ordmap::map_of(mints@)
                    &&& final(self).reward_changes@ == ordmap::map_of(reward_changes@)
                    &&& final(self).mint_changes_view() == schedule_of(mint_changes@)
                    &&& final(self).events@.len() == old(self).events@.len() + 3
                    &&& final(self).events@.take(old(self).events@.len() as int) == old(self).events@
                    &&& final(self).events@[old(self).events@.len() as int] == Event::RewardChanged(reward)
                    &&& final(self).events@[old(self).events@.len() as int + 1] is MintsChanged
                    &&& final(self).events@[old(self).events@.len() as int + 1]->MintsChanged_0@ == ordmap::map_of(mints@)
                    &&& final(self).events@[old(self).events@.len() as int + 2] == Event::ScheduleSet
                    &&& final(self).config == old(self).config
                    &&& final(self).author == old(self).author
                    &&& final(self).lock_params == old(self).lock_params
                    &&& final(self).reward_locks == old(self).reward_locks
                    &&& final(self).frozen == old(self).frozen
                    &&& final(self).ledger == old(self).ledger
                },
            },
    {
        let min = self.config.minimum_balance;
        let mints = OrdMap::from_pairs(mints);
        let reward_changes = OrdMap::from_pairs(reward_changes);
        let ghost orig = mint_changes@;
        let mut rest = mint_changes;
        let mut tables: Vec<(BlockNumber, OrdMap<Balance>)> = Vec::new();
        while rest.len() > 0
            invariant
                rest@.len() <= orig.len(),
                rest@ == orig.skip(orig.len() - rest@.len()),
                tables@.len() == orig.len() - rest@.len(),
                forall|i: int|
                    0 <= i < tables@.len() ==> (#[trigger] tables@[i]).0 == orig[i].0
                        && tables@[i].1@ == ordmap::map_of(orig[i].1@) && tables@[i].1.wf(),
            decreases rest@.len(),
        {
            let ghost c = orig.len() - rest@.len();
            let (h, t) = rest.remove(0);
            proof {
                assert(orig[c] == (h, t));
                assert(rest@ =~= orig.skip(c + 1));
            }
            tables.push((h, OrdMap::from_pairs(t)));
        }
        let ghost conv = tables@;
        proof {
            lemma_schedule_of(conv, orig);
        }
        let mint_changes = OrdMap::from_pairs(tables);
        proof {
            assert forall|h: BlockNumber| #[trigger] mint_changes@.contains_key(h) implies mint_changes@[h].wf() by {
                ordmap::lemma_map_of_value(conv, h);
            }
        }
        if reward < min {
            return Err(Error::RewardTooLow);
        }
        if any_below(&mints, min) {
            return Err(Error::MintTooLow);
        }
        if any_below(&reward_changes, min) {
            return Err(Error::RewardTooLow);
        }
        if any_table_below(&mint_changes, min) {
            return Err(Error::MintTooLow);
        }
        self.reward = reward;
        self.events.push(Event::RewardChanged(reward));
        let copy = mints.copied();
        self.mints = mints;
        self.events.push(Event::MintsChanged(copy));
        self.reward_changes = reward_changes;
        self.mint_changes = mint_changes;
        self.events.push(Event::ScheduleSet);
        proof {
            assert(self.events@.take(old(self).events@.len() as int) =~= old(self).events@);
        }
        Ok(())
    }

    /// Replaces the lock parameters. Refused, with nothing changed, where
    /// they fall outside the configured bounds or the period is not a
    /// multiple of the divide. For the root authority only: the caller checks
    /// the origin.
    pub fn set_lock_params(&mut self, lock_params: LockParameters) -> (r: Result<(), Error>)
        requires
            old(self).wf(),
        ensures
            final(self).wf(),
            match lock_params_error(lock_params, old(self).config.lock_parameters_bounds) {
                Some(e) => r == Err::<(), Error>(e) && *final(self) == *old(self),
                None => {
                    &&& r is Ok
                    &&& final(self).lock_params == Some(lock_params)
                    &&& final(self).events@ == old(self).events@.push(Event::LockParamsChanged(lock_params))
                    &&& final(self).config == old(self).config
                    &&& final(self).author == old(self).author
                    &&& final(self).reward == old(self).reward
                    &&& final(self).reward_changes == old(self).reward_changes
                    &&& final(self).mints == old(self).mints
                    &&& final(self).mint_changes == old(self).mint_changes
                    &&& final(self).reward_locks == old(self).reward_locks
                    &&& final(self).frozen == old(self).frozen
                    &&& final(self).ledger == old(self).ledger
                },
            },
    {
        let b = self.config.lock_parameters_bounds;
        if !(b.period_min <= lock_params.period && lock_params.period <= b.period_max
            && b.divide_min <= lock_params.divide && lock_params.divide <= b.divide_max) {
            return Err(Error::LockParamsOutOfBounds);
        }
        if lock_params.divide == 0 || lock_params.period % lock_params.divide != 0 {
            return Err(Error::LockPeriodNotDivisible);
        }
        self.lock_params = Some(lock_params);
        self.events.push(Event::LockParamsChanged(lock_params));
        Ok(())
    }

    /// Releases what has vested for `who` at `now`: drops the expired lock
    /// entries and sets the freeze to the total of the rest.
    pub fn unlock(&mut self, who: AccountId, now: BlockNumber)
        requires
            old(self).wf(),
        ensures
            final(self).wf(),
            final(self).same_schedule(*old(self)),
            final(self).ledger_state() == relocked(
                old(self).ledger_state(),
                who,
                held(old(self).locks_view(), who),
                now,
            ),
    {
        let locks = self.reward_locks(who);
        self.do_update_reward_locks(who, locks, now);
    }

    /// `who` locks `amount` of its balance until `when`. Nothing happens
    /// unless the amount is positive, `when` is above `now`, and the free
    /// balance `free` exceeds the amount.
    pub fn lock(&mut self, who: AccountId, amount: Balance, when: BlockNumber, now: BlockNumber, free: Balance)
        requires
            old(self).wf(),
        ensures
            final(self).wf(),
            if amount > 0 && when > now && free > amount {
                &&& final(self).ledger_state() == relocked(
                    old(self).ledger_state(),
                    who,
                    locks::merged(held(old(self).locks_view(), who), map![when => amount]),
                    now,
                )
                &&& final(self).events@ == old(self).events@.push(Event::Locked(who, amount))
                &&& final(self).config == old(self).config
                &&& final(self).author == old(self).author
                &&& final(self).reward == old(self).reward
                &&& final(self).reward_changes == old(self).reward_changes
                &&& final(self).mints == old(self).mints
                &&& final(self).mint_changes == old(self).mint_changes
                &&& final(self).lock_params == old(self).lock_params
            } else {
                *final(self) == *old(self)
            },
    {
        if amount > 0 && when > now && free > amount {
            let mut locks = self.reward_locks(who);
            locks::add_lock(&mut locks, when, amount);
            self.do_update_reward_locks(who, locks, now);
            self.events.push(Event::Locked(who, amount));
        }
    }

    /// Total locked for `who` (saturating), over its entries as last
    /// recomputed.
    pub fn locks(&self, who: AccountId) -> (r: Balance)
        requires
            self.wf(),
        ensures
            r == types::capped(locks::total_of(held(self.locks_view(), who))),
    {
        let m = self.reward_locks(who);
        locks::sum_locks(&m)
    }

    /// Current block reward.
    pub fn reward(&self) -> (r: Balance)
        ensures
            r == self.reward,
    {
        self.reward
    }

    /// Current lock parameters.
    pub fn lock_params(&self) -> (r: Option<LockParameters>)
        ensures
            r == self.lock_params,
    {
        self.lock_params
    }

    /// A copy of the current mint table.
    pub fn mints(&self) -> (r: OrdMap<Balance>)
        ensures
            r@ == self.mints@,
            r.pairs() == self.mints.pairs(),
    {
        self.mints.copied()
    }

    /// Author of the block being executed.
    pub fn author(&self) -> (r: Option<AccountId>)
        ensures
            r == self.author,
    {
        self.author
    }

    /// Hands over the ledger instructions issued so far, in order.
    pub fn take_ledger_ops(&mut self) -> (r: Vec<LedgerOp>)
        requires
            old(self).wf(),
        ensures
            final(self).wf(),
            r@ == old(self).ledger@,
            final(self).ledger@ == Seq::<LedgerOp>::empty(),
            final(self).same_schedule(*old(self)),
            final(self).reward_locks == old(self).reward_locks,
            final(self).frozen == old(self).frozen,
    {
        let mut r: Vec<LedgerOp> = Vec::new();
        core::mem::swap(&mut r, &mut self.ledger);
        r
    }

    /// Hands over the events emitted so far, in order.
    pub fn take_events(&mut self) -> (r: Vec<Event>)
        requires
            old(self).wf(),
        ensures
            final(self).wf(),
            r@ == old(self).events@,
            final(self).events@ == Seq::<Event>::empty(),
            final(self).ledger_state() == old(self).ledger_state(),
            final(self).config == old(self).config,
            final(self).author == old(self).author,
            final(self).reward == old(self).reward,
            final(self).reward_changes == old(self).reward_changes,
            final(self).mints == old(self).mints,
            final(self).mint_changes == old(self).mint_changes,
            final(self).lock_params == old(self).lock_params,
    {
        let mut r: Vec<Event> = Vec::new();
        core::mem::swap(&mut r, &mut self.events);
        r
    }
}

} // verus!

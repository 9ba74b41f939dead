use vstd::prelude::*;

verus! {

/// Whether the keys of `s` strictly increase.
pub open spec fn keys_increasing<V>(s: Seq<(u64, V)>) -> bool {
    forall|i: int, j: int| 0 <= i < j < s.len() ==> s[i].0 < s[j].0
}

/// The map obtained by inserting the pairs of `s` in order: where a key
/// repeats, the later pair wins.
pub open spec fn map_of<V>(s: Seq<(u64, V)>) -> Map<u64, V>
    decreases s.len(),
{
    if s.len() == 0 {
        Map::empty()
    } else {
        map_of(s.drop_last()).insert(s.last().0, s.last().1)
    }
}

/// Over strictly increasing keys, the map holds each pair of the sequence
/// and nothing else.
pub proof fn lemma_map_of_sorted<V>(s: Seq<(u64, V)>)
    requires
        keys_increasing(s),
    ensures
        forall|i: int|
            0 <= i < s.len() ==> map_of(s).contains_key(#[trigger] s[i].0) && map_of(s)[s[i].0]
                == s[i].1,
        forall|k: u64| #[trigger]
            map_of(s).contains_key(k) ==> exists|i: int| 0 <= i < s.len() && s[i].0 == k,
    decreases s.len(),
{
    if s.len() > 0 {
        let t = s.drop_last();
        lemma_map_of_sorted(t);
        assert(map_of(s) == map_of(t).insert(s.last().0, s.last().1));
        assert forall|i: int| 0 <= i < s.len() implies map_of(s).contains_key(#[trigger] s[i].0)
            && map_of(s)[s[i].0] == s[i].1 by {
            if i < s.len() - 1 {
                assert(t[i] == s[i]);
            }
        }
        assert forall|k: u64| #[trigger]
            map_of(s).contains_key(k) implies exists|i: int| 0 <= i < s.len() && s[i].0 == k by {
            if k != s.last().0 {
                let i = choose|i: int| 0 <= i < t.len() && t[i].0 == k;
                assert(s[i].0 == k);
            } else {
                assert(s[s.len() - 1].0 == k);
            }
        }
    }
}

/// Replacing the pair at a key's own index replaces its value in the map.
proof fn lemma_update_at<V>(s: Seq<(u64, V)>, p: int, k: u64, v: V)
    requires
        keys_increasing(s),
        0 <= p < s.len(),
        s[p].0 == k,
    ensures
        keys_increasing(s.update(p, (k, v))),
        map_of(s.update(p, (k, v))) == map_of(s).insert(k, v),
{
    let t = s.update(p, (k, v));
    lemma_map_of_sorted(s);
    lemma_map_of_sorted(t);
    assert forall|k2: u64| #[trigger] map_of(t).contains_key(k2) implies map_of(s).insert(
        k,
        v,
    ).contains_key(k2) && map_of(t)[k2] == map_of(s).insert(k, v)[k2] by {
        let j = choose|j: int| 0 <= j < t.len() && t[j].0 == k2;
        if j != p {
            assert(t[j] == s[j]);
        }
    }
    assert forall|k2: u64| #[trigger] map_of(s).insert(k, v).contains_key(k2) implies map_of(
        t,
    ).contains_key(k2) by {
        if k2 != k {
            let i = choose|i: int| 0 <= i < s.len() && s[i].0 == k2;
            assert(t[i] == s[i]);
        } else {
            assert(t[p].0 == k);
        }
    }
    assert(map_of(t) =~= map_of(s).insert(k, v));
}

/// Inserting a pair at the index where its new key belongs adds it to the map.
proof fn lemma_insert_at<V>(s: Seq<(u64, V)>, p: int, k: u64, v: V)
    requires
        keys_increasing(s),
        0 <= p <= s.len(),
        forall|i: int| 0 <= i < p ==> s[i].0 < k,
        forall|i: int| p <= i < s.len() ==> s[i].0 > k,
    ensures
        keys_increasing(s.insert(p, (k, v))),
        map_of(s.insert(p, (k, v))) == map_of(s).insert(k, v),
{
    let t = s.insert(p, (k, v));
    assert forall|i: int, j: int| 0 <= i < j < t.len() implies t[i].0 < t[j].0 by {
        if j < p {
            assert(t[i] == s[i] && t[j] == s[j]);
        } else if j == p {
            assert(t[i] == s[i]);
        } else if i < p {
            assert(t[i] == s[i] && t[j] == s[j - 1]);
        } else if i == p {
            assert(t[j] == s[j - 1]);
        } else {
            assert(t[i] == s[i - 1] && t[j] == s[j - 1]);
        }
    }
    lemma_map_of_sorted(s);
    lemma_map_of_sorted(t);
    assert forall|k2: u64| #[trigger] map_of(t).contains_key(k2) implies map_of(s).insert(
        k,
        v,
    ).contains_key(k2) && map_of(t)[k2] == map_of(s).insert(k, v)[k2] by {
        let j = choose|j: int| 0 <= j < t.len() && t[j].0 == k2;
        if j < p {
            assert(t[j] == s[j]);
        } else if j > p {
            assert(t[j] == s[j - 1]);
        }
    }
    assert forall|k2: u64| #[trigger] map_of(s).insert(k, v).contains_key(k2) implies map_of(
        t,
    ).contains_key(k2) by {
        if k2 != k {
            let i = choose|i: int| 0 <= i < s.len() && s[i].0 == k2;
            if i < p {
                assert(t[i] == s[i]);
            } else {
                assert(t[i + 1] == s[i]);
            }
        } else {
            assert(t[p].0 == k);
        }
    }
    assert(map_of(t) =~= map_of(s).insert(k, v));
}

/// Two listings in strictly increasing key order of the same map are equal.
pub proof fn lemma_sorted_unique<V>(s: Seq<(u64, V)>, t: Seq<(u64, V)>)
    requires
        keys_increasing(s),
        keys_increasing(t),
        map_of(s) == map_of(t),
    ensures
        s == t,
    decreases s.len(),
{
    lemma_map_of_sorted(s);
    lemma_map_of_sorted(t);
    if s.len() == 0 {
        if t.len() > 0 {
            assert(map_of(t).contains_key(t[0].0));
        }
        assert(s =~= t);
    } else {
        let a = s.last();
        assert(map_of(s).contains_key(s[s.len() - 1].0));
        let b = t.last();
        assert(map_of(t).contains_key(t[t.len() - 1].0));
        let j = choose|j: int| 0 <= j < t.len() && t[j].0 == a.0;
        let i = choose|i: int| 0 <= i < s.len() && s[i].0 == b.0;
        assert(a.0 == b.0);
        let ds = s.drop_last();
        let dt = t.drop_last();
        lemma_map_of_sorted(ds);
        lemma_map_of_sorted(dt);
        assert(map_of(s) == map_of(ds).insert(a.0, a.1));
        assert(map_of(t) == map_of(dt).insert(b.0, b.1));
        assert(!map_of(ds).contains_key(a.0)) by {
            if map_of(ds).contains_key(a.0) {
                let m = choose|m: int| 0 <= m < ds.len() && ds[m].0 == a.0;
                assert(s[m].0 == a.0);
            }
        }
        assert(!map_of(dt).contains_key(a.0)) by {
            if map_of(dt).contains_key(a.0) {
                let m = choose|m: int| 0 <= m < dt.len() && dt[m].0 == a.0;
                assert(t[m].0 == a.0);
            }
        }
        assert(map_of(ds) =~= map_of(s).remove(a.0));
        assert(map_of(dt) =~= map_of(t).remove(a.0));
        lemma_sorted_unique(ds, dt);
        assert(s =~= ds.push(a));
        assert(t =~= dt.push(b));
    }
}

/// The pairs of `s` whose key is at most `h`, in order.
pub open spec fn due<V>(s: Seq<(u64, V)>, h: u64) -> Seq<(u64, V)>
    decreases s.len(),
{
    if s.len() == 0 {
        s
    } else if s.last().0 <= h {
        due(s.drop_last(), h).push(s.last())
    } else {
        due(s.drop_last(), h)
    }
}

/// Where `r` holds keys at most `h` and `t` keys above it, the due part of
/// `r + t` is `r`.
pub proof fn lemma_due_prefix<V>(r: Seq<(u64, V)>, t: Seq<(u64, V)>, h: u64)
    requires
        forall|i: int| 0 <= i < r.len() ==> r[i].0 <= h,
        forall|i: int| 0 <= i < t.len() ==> t[i].0 > h,
    ensures
        due(r + t, h) == r,
    decreases r.len() + t.len(),
{
    if t.len() > 0 {
        lemma_due_prefix(r, t.drop_last(), h);
        assert((r + t).drop_last() =~= r + t.drop_last());
        assert((r + t).last() == t.last());
    } else if r.len() > 0 {
        lemma_due_prefix(r.drop_last(), t, h);
        assert((r + t).drop_last() =~= r.drop_last() + t);
        assert((r + t).last() == r.last());
        assert(r.drop_last().push(r.last()) =~= r);
    } else {
        assert(r + t =~= r);
    }
}

/// Each value of the map is the value of some pair with its key.
pub proof fn lemma_map_of_value<V>(s: Seq<(u64, V)>, k: u64)
    requires
        map_of(s).contains_key(k),
    ensures
        exists|j: int| 0 <= j < s.len() && s[j].0 == k && s[j].1 == map_of(s)[k],
    decreases s.len(),
{
    if s.last().0 == k {
        assert(s[s.len() - 1].0 == k);
    } else {
        lemma_map_of_value(s.drop_last(), k);
        let j = choose|j: int|
            0 <= j < s.drop_last().len() && s.drop_last()[j].0 == k && s.drop_last()[j].1 == map_of(
                s.drop_last(),
            )[k];
        assert(s[j] == s.drop_last()[j]);
    }
}

/// A finite map from `u64` keys, held as pairs in increasing key order.
#[derive(Debug, Clone, PartialEq, Eq)]
pub struct OrdMap<V> {
    entries: Vec<(u64, V)>,
}

impl<V> View for OrdMap<V> {
    type V = Map<u64, V>;

    open spec fn view(&self) -> Map<u64, V> {
        map_of(self.pairs())
    }
}

impl<V> OrdMap<V> {
    /// The pairs in the order they are held.
    pub closed spec fn pairs(self) -> Seq<(u64, V)> {
        self.entries@
    }

    /// Keys are held in strictly increasing order.
    pub open spec fn wf(self) -> bool {
        keys_increasing(self.pairs())
    }

    /// The empty map.
    pub fn new() -> (r: Self)
        ensures
            r.wf(),
            r.pairs() == Seq::<(u64, V)>::empty(),
            r@ == Map::<u64, V>::empty(),
    {
        OrdMap { entries: Vec::new() }
    }

    /// Number of keys.
    pub fn len(&self) -> (r: usize)
        ensures
            r == self.pairs().len(),
    {
        self.entries.len()
    }

    /// The pairs, in increasing key order.
    pub fn as_vec(&self) -> (r: &Vec<(u64, V)>)
        ensures
            r@ == self.pairs(),
    {
        &self.entries
    }

    /// The pairs, in increasing key order.
    pub fn into_vec(self) -> (r: Vec<(u64, V)>)
        ensures
            r@ == self.pairs(),
    {
        self.entries
    }

    /// First index whose key is at least `k`.
    fn position(&self, k: u64) -> (p: usize)
        requires
            self.wf(),
        ensures
            p <= self.pairs().len(),
            forall|i: int| 0 <= i < p ==> self.pairs()[i].0 < k,
            forall|i: int| p <= i < self.pairs().len() ==> self.pairs()[i].0 >= k,
    {
        let mut p: usize = 0;
        while p < self.entries.len() && self.entries[p].0 < k
            invariant
                self.wf(),
                p <= self.entries@.len(),
                forall|i: int| 0 <= i < p ==> self.entries@[i].0 < k,
            decreases self.entries@.len() - p,
        {
            p = p + 1;
        }
        p
    }

    /// The value under `k`, if any.
    pub fn get(&self, k: u64) -> (r: Option<&V>)
        requires
            self.wf(),
        ensures
            match r {
                Some(v) => self@.contains_key(k) && *v == self@[k],
                None => !self@.contains_key(k),
            },
    {
        let p = self.position(k);
        proof {
            lemma_map_of_sorted(self.pairs());
        }
        if p < self.entries.len() && self.entries[p].0 == k {
            Some(&self.entries[p].1)
        } else {
            None
        }
    }

    /// Puts `v` under `k`, replacing any value held there.
    pub fn insert(&mut self, k: u64, v: V)
        requires
            old(self).wf(),
        ensures
            final(self).wf(),
            final(self)@ == old(self)@.insert(k, v),
    {
        let ghost s = self.pairs();
        let p = self.position(k);
        if p < self.entries.len() && self.entries[p].0 == k {
            self.entries.set(p, (k, v));
            proof {
                lemma_update_at(s, p as int, k, v);
            }
        } else {
            self.entries.insert(p, (k, v));
            proof {
                lemma_insert_at(s, p as int, k, v);
            }
        }
    }

    /// Takes the value under `k` out of the map.
    pub fn remove(&mut self, k: u64) -> (r: Option<V>)
        requires
            old(self).wf(),
        ensures
            final(self).wf(),
            final(self)@ == old(self)@.remove(k),
            match r {
                Some(v) => old(self)@.contains_key(k) && v == old(self)@[k],
                None => !old(self)@.contains_key(k),
            },
    {
        let ghost s = self.pairs();
        let p = self.position(k);
        proof {
            lemma_map_of_sorted(s);
        }
        if p < self.entries.len() && self.entries[p].0 == k {
            let e = self.entries.remove(p);
            let ghost t = self.pairs();
            proof {
                lemma_map_of_sorted(t);
                assert forall|k2: u64| #[trigger] self@.contains_key(k2) implies old(self)@.remove(
                    k,
                ).contains_key(k2) && self@[k2] == old(self)@[k2] by {
                    let j = choose|j: int| 0 <= j < t.len() && t[j].0 == k2;
                    if j < p {
                        assert(t[j] == s[j]);
                    } else {
                        assert(t[j] == s[j + 1]);
                    }
                }
                assert forall|k2: u64| #[trigger] old(self)@.remove(k).contains_key(k2) implies self@.contains_key(k2) by {
                    let i = choose|i: int| 0 <= i < s.len() && s[i].0 == k2;
                    if i < p {
                        assert(t[i] == s[i]);
                    } else {
                        assert(t[i - 1] == s[i]);
                    }
                }
                assert(self@ =~= old(self)@.remove(k));
            }
            Some(e.1)
        } else {
            proof {
                assert(self@ =~= old(self)@.remove(k));
            }
            None
        }
    }

    /// Takes out, in increasing key order, the pairs whose key is at most
    /// `h`; the pairs with a larger key stay.
    pub fn take_due(&mut self, h: u64) -> (r: Vec<(u64, V)>)
        requires
            old(self).wf(),
        ensures
            final(self).wf(),
            keys_increasing(r@),
            r@ + final(self).pairs() == old(self).pairs(),
            forall|i: int| 0 <= i < r@.len() ==> r@[i].0 <= h,
            forall|i: int| 0 <= i < final(self).pairs().len() ==> final(self).pairs()[i].0 > h,
            final(self)@ == old(self)@.restrict(Set::new(|k: u64| k > h)),
    {
        let ghost s = self.pairs();
        let mut q: usize = 0;
        while q < self.entries.len() && self.entries[q].0 <= h
            invariant
                self.wf(),
                self.entries@ == s,
                q <= s.len(),
                forall|i: int| 0 <= i < q ==> s[i].0 <= h,
            decreases s.len() - q,
        {
            q = q + 1;
        }
        let mut rest = self.entries.split_off(q);
        core::mem::swap(&mut self.entries, &mut rest);
        let ghost t = self.pairs();
        proof {
            assert(rest@ + t =~= s);
            lemma_map_of_sorted(s);
            lemma_map_of_sorted(t);
            let m = old(self)@.restrict(Set::new(|k: u64| k > h));
            assert forall|k2: u64| #[trigger] self@.contains_key(k2) implies m.contains_key(k2)
                && self@[k2] == m[k2] by {
                let j = choose|j: int| 0 <= j < t.len() && t[j].0 == k2;
                assert(s[j + q] == t[j]);
            }
            assert forall|k2: u64| #[trigger] m.contains_key(k2) implies self@.contains_key(k2) by {
                let i = choose|i: int| 0 <= i < s.len() && s[i].0 == k2;
                assert(i >= q);
                assert(t[i - q] == s[i]);
            }
            assert(self@ =~= m);
        }
        rest
    }

    /// The map holding the given pairs; where a key repeats, the later pair
    /// wins.
    pub fn from_pairs(v: Vec<(u64, V)>) -> (r: Self)
        ensures
            r.wf(),
            r@ == map_of(v@),
    {
        let ghost s = v@;
        let mut v = v;
        let mut r = OrdMap::new();
        while v.len() > 0
            invariant
                r.wf(),
                v.len() <= s.len(),
                v@ == s.skip(s.len() - v.len()),
                r@ == map_of(s.take(s.len() - v.len())),
            decreases v.len(),
        {
            let ghost n = s.len() - v.len();
            let e = v.remove(0);
            proof {
                assert(e == s[n]);
                assert(s.take(n + 1).drop_last() =~= s.take(n));
                assert(v@ =~= s.skip(n + 1));
            }
            r.insert(e.0, e.1);
        }
        proof {
            assert(s.take(s.len() as int) =~= s);
        }
        r
    }
}

impl<V: Copy> OrdMap<V> {
    /// A copy of the map.
    pub fn copied(&self) -> (r: Self)
        ensures
            r.pairs() == self.pairs(),
            r@ == self@,
    {
        let mut e: Vec<(u64, V)> = Vec::new();
        let mut i: usize = 0;
        while i < self.entries.len()
            invariant
                i <= self.entries@.len(),
                e@ == self.entries@.take(i as int),
            decreases self.entries@.len() - i,
        {
            e.push(self.entries[i]);
            i = i + 1;
            proof {
                assert(e@ =~= self.entries@.take(i as int));
            }
        }
        proof {
            assert(e@ =~= self.entries@);
        }
        OrdMap { entries: e }
    }
}

} // verus!

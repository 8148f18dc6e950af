use vstd::prelude::*;
use crate::records::{Signature, UniformAccountInfo, UniformTransactionInfo};
use lru::LruCache;
use std::collections::hash_map::RandomState;

verus! {

/// The outside type lru::LruCache: what it holds is named by `lru_entries`
/// and `lru_capacity`, and changed only through the wrappers below.
#[verifier::external_type_specification]
#[verifier::external_body]
#[verifier::reject_recursive_types(K)]
#[verifier::reject_recursive_types(V)]
#[verifier::reject_recursive_types(S)]
pub struct ExLruCache<K, V, S>(lru::LruCache<K, V, S>);

/// What the cache holds: signature and transaction, least recently used first.
pub uninterp spec fn lru_entries(c: LruCache<Signature, UniformTransactionInfo, RandomState>) -> Seq<
    (Signature, UniformTransactionInfo),
>;

/// How many entries the cache may hold.
pub uninterp spec fn lru_capacity(c: LruCache<Signature, UniformTransactionInfo, RandomState>) -> nat;

pub open spec fn entry_index(s: Seq<(Signature, UniformTransactionInfo)>, key: Seq<u8>, i: int) -> bool {
    0 <= i < s.len() && s[i].0@ == key
}

pub open spec fn has_entry(s: Seq<(Signature, UniformTransactionInfo)>, key: Seq<u8>) -> bool {
    exists|i: int| entry_index(s, key, i)
}

/// Relies on lru::LruCache::with_hasher: an empty cache that holds at most `cap` entries.
#[verifier::external_body]
fn lru_new(cap: usize) -> (r: LruCache<Signature, UniformTransactionInfo, RandomState>)
    requires
        cap > 0,
    ensures
        lru_entries(r) == Seq::<(Signature, UniformTransactionInfo)>::empty(),
        lru_capacity(r) == cap,
{
    LruCache::with_hasher(std::num::NonZeroUsize::new(cap).unwrap(), RandomState::new())
}

/// Relies on lru::LruCache::put: an entry under a held key takes the new value
/// and becomes the most recent; a new key is added as the most recent, after
/// the least recent entry is removed where the cache is full.
#[verifier::external_body]
fn lru_put(
    c: &mut LruCache<Signature, UniformTransactionInfo, RandomState>,
    k: Signature,
    v: UniformTransactionInfo,
)
    ensures
        lru_capacity(*final(c)) == lru_capacity(*old(c)),
        has_entry(lru_entries(*old(c)), k@) ==> exists|i: int|
            entry_index(lru_entries(*old(c)), k@, i) && lru_entries(*final(c)) == lru_entries(
                *old(c),
            ).remove(i).push((lru_entries(*old(c))[i].0, v)),
        !has_entry(lru_entries(*old(c)), k@) && lru_entries(*old(c)).len() >= lru_capacity(
            *old(c),
        ) ==> lru_entries(*final(c)) == lru_entries(*old(c)).drop_first().push((k, v)),
        !has_entry(lru_entries(*old(c)), k@) && lru_entries(*old(c)).len() < lru_capacity(
            *old(c),
        ) ==> lru_entries(*final(c)) == lru_entries(*old(c)).push((k, v)),
{
    c.put(k, v);
}

/// Relies on lru::LruCache::pop: removes the entry under `k` and returns its
/// value; the others keep their order.
#[verifier::external_body]
fn lru_pop(c: &mut LruCache<Signature, UniformTransactionInfo, RandomState>, k: &Signature) -> (r: Option<
    UniformTransactionInfo,
>)
    ensures
        lru_capacity(*final(c)) == lru_capacity(*old(c)),
        has_entry(lru_entries(*old(c)), k@) ==> exists|i: int|
            entry_index(lru_entries(*old(c)), k@, i) && r == Some(lru_entries(*old(c))[i].1)
                && lru_entries(*final(c)) == lru_entries(*old(c)).remove(i),
        !has_entry(lru_entries(*old(c)), k@) ==> r is None && lru_entries(*final(c))
            == lru_entries(*old(c)),
{
    c.pop(k)
}

pub open spec fn signatures_distinct(s: Seq<(Signature, UniformTransactionInfo)>) -> bool {
    forall|i: int, j: int| 0 <= i < s.len() && 0 <= j < s.len() && i != j ==> s[i].0@ != s[j].0@
}

/// `s` with the transaction under `sig` taken out.
pub open spec fn without(s: Seq<(Signature, UniformTransactionInfo)>, sig: Seq<u8>) -> Seq<
    (Signature, UniformTransactionInfo),
> {
    s.filter(|e: (Signature, UniformTransactionInfo)| e.0@ != sig)
}

/// The transaction held under `sig`, if any.
pub open spec fn lookup(s: Seq<(Signature, UniformTransactionInfo)>, sig: Seq<u8>) -> Option<
    UniformTransactionInfo,
> {
    if has_entry(s, sig) {
        Some(s[choose|i: int| entry_index(s, sig, i)].1)
    } else {
        None
    }
}

/// Recent transactions by signature, so that an account write can be joined
/// to the transaction that caused it. The least recently used entry leaves
/// when a new one comes to a full cache.
pub struct TransactionCache {
    lru: LruCache<Signature, UniformTransactionInfo, RandomState>,
}

impl TransactionCache {
    /// The transactions held, least recently inserted first.
    pub closed spec fn entries(&self) -> Seq<(Signature, UniformTransactionInfo)> {
        lru_entries(self.lru)
    }

    pub closed spec fn capacity(&self) -> nat {
        lru_capacity(self.lru)
    }

    pub open spec fn well_formed(&self) -> bool {
        &&& signatures_distinct(self.entries())
        &&& self.entries().len() <= self.capacity()
        &&& self.capacity() > 0
    }

    /// An empty cache that holds at most `capacity` transactions.
    pub fn new(capacity: usize) -> (r: Self)
        requires
            capacity > 0,
        ensures
            r.well_formed(),
            r.entries() == Seq::<(Signature, UniformTransactionInfo)>::empty(),
            r.capacity() == capacity,
    {
        TransactionCache { lru: lru_new(capacity) }
    }

    /// Removes and returns the transaction held under `signature`.
    pub fn take(&mut self, signature: &Signature) -> (r: Option<UniformTransactionInfo>)
        requires
            old(self).well_formed(),
        ensures
            final(self).well_formed(),
            final(self).capacity() == old(self).capacity(),
            r == lookup(old(self).entries(), signature@),
            final(self).entries() == without(old(self).entries(), signature@),
    {
        let ghost s = self.entries();
        let r = lru_pop(&mut self.lru, signature);
        proof {
            if has_entry(s, signature@) {
                let i = choose|i: int| entry_index(s, signature@, i) && r == Some(s[i].1)
                    && self.entries() == s.remove(i);
                let k = choose|k: int| entry_index(s, signature@, k);
                assert(k == i);
                lemma_filter_removes_one(s, signature@, i);
                lemma_remove_at_keeps_distinct(s, i);
            } else {
                lemma_filter_keeps_all(s, signature@);
            }
        }
        r
    }

    /// Holds `info` under its signature as the most recent entry. Where the
    /// signature is held already, its entry is replaced; where the cache is
    /// full, the least recently used entry leaves.
    pub fn insert(&mut self, info: UniformTransactionInfo)
        requires
            old(self).well_formed(),
        ensures
            final(self).well_formed(),
            final(self).capacity() == old(self).capacity(),
            lookup(final(self).entries(), info.signature@) == Some(info),
            final(self).entries().last() == (info.signature, info),
            has_entry(old(self).entries(), info.signature@) ==> final(self).entries()
                == without(old(self).entries(), info.signature@).push((info.signature, info)),
            !has_entry(old(self).entries(), info.signature@) && old(self).entries().len()
                == old(self).capacity() ==> final(self).entries() == old(self).entries().drop_first().push(
                (info.signature, info),
            ),
            !has_entry(old(self).entries(), info.signature@) && old(self).entries().len()
                < old(self).capacity() ==> final(self).entries() == old(self).entries().push(
                (info.signature, info),
            ),
    {
        let ghost s = self.entries();
        let sig = info.signature;
        lru_put(&mut self.lru, sig, info);
        proof {
            let t = self.entries();
            if has_entry(s, sig@) {
                let i = choose|i: int| entry_index(s, sig@, i) && t == s.remove(i).push((s[i].0, info));
                assert(s[i].0@ == sig@);
                lemma_same_bytes(s[i].0, sig);
                lemma_filter_removes_one(s, sig@, i);
                lemma_remove_at_keeps_distinct(s, i);
                lemma_push_fresh_distinct(s.remove(i), sig, info);
            } else {
                if s.len() >= lru_capacity(self.lru) {
                    lemma_drop_first_keeps_distinct(s, sig@);
                    lemma_push_fresh_distinct(s.drop_first(), sig, info);
                } else {
                    lemma_push_fresh_distinct(s, sig, info);
                }
            }
            lemma_lookup_last(t, info);
        }
    }
}

/// Joins an account write to the transaction it names: takes that transaction
/// out of the cache, where it is held.
pub fn correlate(cache: &mut TransactionCache, account: &UniformAccountInfo) -> (r: Option<
    UniformTransactionInfo,
>)
    requires
        old(cache).well_formed(),
    ensures
        final(cache).well_formed(),
        final(cache).capacity() == old(cache).capacity(),
        match account.transaction_ref {
            Some(sig) => r == lookup(old(cache).entries(), sig@) && final(cache).entries()
                == without(old(cache).entries(), sig@),
            None => r is None && final(cache).entries() == old(cache).entries(),
        },
{
    match &account.transaction_ref {
        Some(sig) => cache.take(sig),
        None => None,
    }
}

proof fn lemma_filter_keeps_all(s: Seq<(Signature, UniformTransactionInfo)>, sig: Seq<u8>)
    requires
        !has_entry(s, sig),
    ensures
        without(s, sig) == s,
    decreases s.len(),
{
    reveal(Seq::filter);
    if s.len() > 0 {
        assert(!entry_index(s, sig, s.len() - 1));
        let p = s.drop_last();
        assert forall|i: int| !entry_index(p, sig, i) by {
            if 0 <= i < p.len() {
                assert(!entry_index(s, sig, i));
            }
        }
        lemma_filter_keeps_all(p, sig);
        assert(s =~= p.push(s.last()));
    }
}

proof fn lemma_filter_removes_one(s: Seq<(Signature, UniformTransactionInfo)>, sig: Seq<u8>, i: int)
    requires
        signatures_distinct(s),
        entry_index(s, sig, i),
    ensures
        without(s, sig) == s.remove(i),
    decreases s.len(),
{
    reveal(Seq::filter);
    let p = s.drop_last();
    if i == s.len() - 1 {
        assert forall|k: int| !entry_index(p, sig, k) by {
            if 0 <= k < p.len() {
                assert(s[k].0@ != s[i].0@);
            }
        }
        lemma_filter_keeps_all(p, sig);
        assert(s.remove(i) =~= p);
    } else {
        assert(s.last().0@ != sig);
        assert(signatures_distinct(p));
        lemma_filter_removes_one(p, sig, i);
        assert(s.remove(i) =~= p.remove(i).push(s.last()));
    }
}

proof fn lemma_remove_at_keeps_distinct(s: Seq<(Signature, UniformTransactionInfo)>, i: int)
    requires
        signatures_distinct(s),
        0 <= i < s.len(),
    ensures
        signatures_distinct(s.remove(i)),
        !has_entry(s.remove(i), s[i].0@),
{
    let t = s.remove(i);
    assert forall|a: int, b: int| 0 <= a < t.len() && 0 <= b < t.len() && a != b implies t[a].0@
        != t[b].0@ by {
        let sa = if a < i { a } else { a + 1 };
        let sb = if b < i { b } else { b + 1 };
        assert(t[a] == s[sa]);
        assert(t[b] == s[sb]);
    }
    assert forall|k: int| !entry_index(t, s[i].0@, k) by {
        if 0 <= k < t.len() {
            let sk = if k < i { k } else { k + 1 };
            assert(t[k] == s[sk]);
        }
    }
}

proof fn lemma_drop_first_keeps_distinct(s: Seq<(Signature, UniformTransactionInfo)>, sig: Seq<u8>)
    requires
        signatures_distinct(s),
        s.len() > 0,
        !has_entry(s, sig),
    ensures
        signatures_distinct(s.drop_first()),
        !has_entry(s.drop_first(), sig),
{
    let t = s.drop_first();
    assert forall|a: int, b: int| 0 <= a < t.len() && 0 <= b < t.len() && a != b implies t[a].0@
        != t[b].0@ by {
        assert(t[a] == s[a + 1]);
        assert(t[b] == s[b + 1]);
    }
    assert forall|k: int| !entry_index(t, sig, k) by {
        if 0 <= k < t.len() {
            assert(t[k] == s[k + 1]);
            assert(!entry_index(s, sig, k + 1));
        }
    }
}

proof fn lemma_same_bytes(a: Signature, b: Signature)
    requires
        a@ == b@,
    ensures
        a == b,
{
    assert forall|i: int| 0 <= i < 64 implies a[i] == b[i] by {
        assert(a@[i] == b@[i]);
    }
    assert(a =~= b);
}

proof fn lemma_push_fresh_distinct(
    s: Seq<(Signature, UniformTransactionInfo)>,
    sig: Signature,
    info: UniformTransactionInfo,
)
    requires
        signatures_distinct(s),
        !has_entry(s, sig@),
    ensures
        signatures_distinct(s.push((sig, info))),
{
    let t = s.push((sig, info));
    assert forall|a: int, b: int| 0 <= a < t.len() && 0 <= b < t.len() && a != b implies t[a].0@
        != t[b].0@ by {
        if a == s.len() {
            assert(!entry_index(s, sig@, b));
        } else if b == s.len() {
            assert(!entry_index(s, sig@, a));
        }
    }
}

proof fn lemma_lookup_last(t: Seq<(Signature, UniformTransactionInfo)>, info: UniformTransactionInfo)
    requires
        signatures_distinct(t),
        t.len() > 0,
        t.last() == (info.signature, info),
    ensures
        lookup(t, info.signature@) == Some(info),
{
    let n = t.len() - 1;
    assert(entry_index(t, info.signature@, n));
    let k = choose|k: int| entry_index(t, info.signature@, k);
    assert(k == n);
}

} // verus!

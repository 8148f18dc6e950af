use vstd::prelude::*;
use crate::records::{UniformAccountInfo, same_key};

verus! {

/// The outside type std::time::Instant: the coalescer's clock origin, never looked into.
#[verifier::external_type_specification]
#[verifier::external_body]
pub struct ExInstant(std::time::Instant);

/// Relies on std::time::Instant::now: a reading of the monotonic clock.
#[verifier::external_body]
fn clock_now() -> (r: std::time::Instant) {
    std::time::Instant::now()
}

/// Relies on std::time::Instant::elapsed: the time since `origin`, read from the clock now.
#[verifier::external_body]
fn time_since(origin: &std::time::Instant) -> (r: core::time::Duration) {
    origin.elapsed()
}

/// Relies on core::time::Duration::as_micros: the whole microseconds of `d`,
/// cut to 64 bits.
#[verifier::external_body]
fn whole_micros(d: core::time::Duration) -> (r: u64) {
    d.as_micros() as u64
}

/// No two records of `s` are for the same account.
pub open spec fn keys_distinct(s: Seq<UniformAccountInfo>) -> bool {
    forall|i: int, j: int|
        0 <= i < s.len() && 0 <= j < s.len() && i != j ==> s[i].pubkey@ != s[j].pubkey@
}

pub open spec fn holds_key(s: Seq<UniformAccountInfo>, key: Seq<u8>) -> bool {
    exists|i: int| 0 <= i < s.len() && s[i].pubkey@ == key
}

/// `s` with `r` in place of the record for its account, or with `r` added at
/// the end where there is none.
pub open spec fn upsert(s: Seq<UniformAccountInfo>, r: UniformAccountInfo) -> Seq<
    UniformAccountInfo,
> {
    if holds_key(s, r.pubkey@) {
        s.update(choose|i: int| 0 <= i < s.len() && s[i].pubkey@ == r.pubkey@, r)
    } else {
        s.push(r)
    }
}

/// `s` after each of `writes`, in order.
pub open spec fn upsert_all(s: Seq<UniformAccountInfo>, writes: Seq<UniformAccountInfo>) -> Seq<
    UniformAccountInfo,
>
    decreases writes.len(),
{
    if writes.len() == 0 {
        s
    } else {
        upsert(upsert_all(s, writes.drop_last()), writes.last())
    }
}

proof fn lemma_upsert_keeps_distinct(s: Seq<UniformAccountInfo>, r: UniformAccountInfo)
    requires
        keys_distinct(s),
    ensures
        keys_distinct(upsert(s, r)),
        holds_key(upsert(s, r), r.pubkey@),
        upsert(s, r).len() == if holds_key(s, r.pubkey@) { s.len() } else { s.len() + 1 },
{
    let t = upsert(s, r);
    if holds_key(s, r.pubkey@) {
        let i = choose|i: int| 0 <= i < s.len() && s[i].pubkey@ == r.pubkey@;
        assert(t[i] == r);
    } else {
        assert(t[s.len() as int] == r);
    }
}

/// A write leaves exactly one record for its account, and that record is the write.
pub proof fn lemma_upsert_holds_once(s: Seq<UniformAccountInfo>, r: UniformAccountInfo)
    requires
        keys_distinct(s),
    ensures
        exists|i: int|
            0 <= i < upsert(s, r).len() && upsert(s, r)[i] == r && forall|j: int|
                0 <= j < upsert(s, r).len() && j != i ==> upsert(s, r)[j].pubkey@ != r.pubkey@,
{
    let t = upsert(s, r);
    lemma_upsert_keeps_distinct(s, r);
    if holds_key(s, r.pubkey@) {
        let i = choose|i: int| 0 <= i < s.len() && s[i].pubkey@ == r.pubkey@;
        assert(t[i] == r);
    } else {
        assert(t[s.len() as int] == r);
    }
}

proof fn lemma_upsert_twice(s: Seq<UniformAccountInfo>, a: UniformAccountInfo, b: UniformAccountInfo)
    requires
        keys_distinct(s),
        a.pubkey@ == b.pubkey@,
    ensures
        upsert(upsert(s, a), b) == upsert(s, b),
{
    let t = upsert(s, a);
    lemma_upsert_keeps_distinct(s, a);
    if holds_key(s, a.pubkey@) {
        let i = choose|i: int| 0 <= i < s.len() && s[i].pubkey@ == a.pubkey@;
        assert(t[i].pubkey@ == b.pubkey@);
        let k = choose|k: int| 0 <= k < t.len() && t[k].pubkey@ == b.pubkey@;
        assert(k == i);
        assert(t.update(k, b) =~= s.update(i, b));
    } else {
        let n = s.len() as int;
        assert(t[n].pubkey@ == b.pubkey@);
        let k = choose|k: int| 0 <= k < t.len() && t[k].pubkey@ == b.pubkey@;
        if k != n {
            assert(s[k] == t[k]);
            assert(false);
        }
        assert(t.update(k, b) =~= s.push(b));
    }
}

/// Within one window, any run of writes to one account leaves the buffer as
/// the last of them alone would: one record for that account, equal to the
/// last write, and the other accounts as they were.
pub proof fn lemma_last_write_wins(s: Seq<UniformAccountInfo>, writes: Seq<UniformAccountInfo>)
    requires
        keys_distinct(s),
        writes.len() > 0,
        forall|i: int| 0 <= i < writes.len() ==> (#[trigger] writes[i]).pubkey@ == writes[0].pubkey@,
    ensures
        upsert_all(s, writes) == upsert(s, writes.last()),
        keys_distinct(upsert_all(s, writes)),
    decreases writes.len(),
{
    let w = writes.drop_last();
    if w.len() == 0 {
        assert(upsert_all(s, w) == s);
    } else {
        assert forall|i: int| 0 <= i < w.len() implies (#[trigger] w[i]).pubkey@ == w[0].pubkey@ by {
            assert(w[i] == writes[i]);
            assert(w[0] == writes[0]);
        }
        lemma_last_write_wins(s, w);
        assert(w.last() == writes[w.len() - 1]);
        lemma_upsert_twice(s, w.last(), writes.last());
    }
    lemma_upsert_keeps_distinct(s, writes.last());
}

/// The microseconds from `last` to `now`; none where the clock reads earlier.
pub open spec fn elapsed(last: u64, now: u64) -> nat {
    if now >= last {
        (now - last) as nat
    } else {
        0
    }
}

/// Keeps the latest write to each account and hands them on as a batch once
/// the window since the last batch has passed.
pub struct AccountCoalescer {
    buffer: Vec<UniformAccountInfo>,
    last_flush_us: u64,
    coalesce_duration_us: u64,
    coalesced_count: u64,
    origin: std::time::Instant,
}

impl AccountCoalescer {
    /// The records held back, one per account, in the order their accounts
    /// first arrived in this window.
    pub closed spec fn buffered(&self) -> Seq<UniformAccountInfo> {
        self.buffer@
    }

    /// When the last batch left, in microseconds of this coalescer's clock.
    pub closed spec fn last_flush(&self) -> u64 {
        self.last_flush_us
    }

    /// The window, in microseconds.
    pub closed spec fn window(&self) -> u64 {
        self.coalesce_duration_us
    }

    /// How many writes replaced an earlier one of the same window.
    pub closed spec fn coalesced(&self) -> u64 {
        self.coalesced_count
    }

    pub open spec fn well_formed(&self) -> bool {
        keys_distinct(self.buffered())
    }

    pub fn new(coalesce_duration_us: u64) -> (r: Self)
        ensures
            r.well_formed(),
            r.buffered() == Seq::<UniformAccountInfo>::empty(),
            r.last_flush() == 0,
            r.window() == coalesce_duration_us,
            r.coalesced() == 0,
    {
        AccountCoalescer {
            buffer: Vec::new(),
            last_flush_us: 0,
            coalesce_duration_us,
            coalesced_count: 0,
            origin: clock_now(),
        }
    }

    /// Takes one write at clock reading `now_us`. It replaces the held record
    /// of its account, or joins the buffer. Where the window has passed since
    /// the last batch, the whole buffer leaves as the next batch.
    pub fn coalesce_at(&mut self, replica: UniformAccountInfo, now_us: u64) -> (r: Option<
        Vec<UniformAccountInfo>,
    >)
        requires
            old(self).well_formed(),
        ensures
            final(self).well_formed(),
            final(self).window() == old(self).window(),
            final(self).coalesced() == if holds_key(old(self).buffered(), replica.pubkey@)
                && old(self).coalesced() < u64::MAX {
                (old(self).coalesced() + 1) as u64
            } else {
                old(self).coalesced()
            },
            elapsed(old(self).last_flush(), now_us) >= old(self).window() ==> {
                &&& r matches Some(batch) && batch@ == upsert(old(self).buffered(), replica)
                &&& final(self).buffered() == Seq::<UniformAccountInfo>::empty()
                &&& final(self).last_flush() == now_us
            },
            elapsed(old(self).last_flush(), now_us) < old(self).window() ==> {
                &&& r is None
                &&& final(self).buffered() == upsert(old(self).buffered(), replica)
                &&& final(self).last_flush() == old(self).last_flush()
            },
    {
        let ghost before = self.buffer@;
        let mut i: usize = 0;
        let mut found = false;
        while i < self.buffer.len()
            invariant_except_break
                !found,
            invariant
                self.buffer@ == before,
                0 <= i <= before.len(),
                forall|j: int| 0 <= j < i ==> before[j].pubkey@ != replica.pubkey@,
            ensures
                self.buffer@ == before,
                0 <= i <= before.len(),
                forall|j: int| 0 <= j < i ==> before[j].pubkey@ != replica.pubkey@,
                found ==> i < before.len() && before[i as int].pubkey@ == replica.pubkey@,
                !found ==> i == before.len(),
            decreases before.len() - i,
        {
            if same_key(&self.buffer[i].pubkey, &replica.pubkey) {
                found = true;
                break;
            }
            i = i + 1;
        }
        proof {
            if found {
                assert(before[i as int].pubkey@ == replica.pubkey@);
                assert(holds_key(before, replica.pubkey@));
                let k = choose|k: int| 0 <= k < before.len() && before[k].pubkey@ == replica.pubkey@;
                assert(k == i);
            } else {
                assert(!holds_key(before, replica.pubkey@));
            }
        }
        if found {
            self.buffer.set(i, replica);
            if self.coalesced_count < u64::MAX {
                self.coalesced_count = self.coalesced_count + 1;
            }
        } else {
            self.buffer.push(replica);
        }
        assert(self.buffer@ =~= upsert(before, replica));
        let since: u64 = if now_us >= self.last_flush_us {
            now_us - self.last_flush_us
        } else {
            0
        };
        if since >= self.coalesce_duration_us {
            let mut batch: Vec<UniformAccountInfo> = Vec::new();
            core::mem::swap(&mut batch, &mut self.buffer);
            self.last_flush_us = now_us;
            Some(batch)
        } else {
            None
        }
    }

    /// Takes one write now, by this coalescer's clock; see `coalesce_at`.
    pub fn coalesce(&mut self, replica: UniformAccountInfo) -> (r: Option<Vec<UniformAccountInfo>>)
        requires
            old(self).well_formed(),
        ensures
            final(self).well_formed(),
            final(self).window() == old(self).window(),
            r matches Some(batch) ==> batch@ == upsert(old(self).buffered(), replica)
                && final(self).buffered() == Seq::<UniformAccountInfo>::empty(),
            r is None ==> final(self).buffered() == upsert(old(self).buffered(), replica)
                && final(self).last_flush() == old(self).last_flush(),
            old(self).window() == 0 ==> r is Some,
    {
        let now = whole_micros(time_since(&self.origin));
        self.coalesce_at(replica, now)
    }
}

} // verus!

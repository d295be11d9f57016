//! The table of commands sent to Symphony that still wait for a reply.
//!
//! Every command carries a one-byte transaction id (`tid`).  Ids are handed
//! out round-robin over `1..=255`, skipping the ids that are still in flight;
//! `0` is never used.  The reply to a command names the same id, which is how
//! it finds its waiting caller again.

use std::collections::HashMap;
use vstd::prelude::*;

use crate::client::ClientError;

verus! {

broadcast use vstd::std_specs::hash::group_hash_axioms;

/// Transaction ids are one byte wide.
pub type Tid = u8;

/// The id that follows `t` in the round-robin order `1, 2, ..., 255, 1, ...`.
pub open spec fn cyclic_next(t: int) -> int {
    if t < 255 { t + 1 } else { 1 }
}

/// The `k`-th id tried after `last` (counting from `0`): the ids after
/// `last` in round-robin order.  For `k` in `0..255` these are exactly the
/// ids `1..=255`, each once.
pub open spec fn candidate(last: u8, k: int) -> int {
    ((last + k) % 255) + 1
}

/// The smallest offset `k' >= k` (below 255) whose candidate id is free.
pub open spec fn first_free_offset(last: u8, used: Set<u8>, k: int) -> Option<int>
    decreases 255 - k,
{
    if k < 0 || k >= 255 {
        None
    } else if !used.contains(candidate(last, k) as u8) {
        Some(k)
    } else {
        first_free_offset(last, used, k + 1)
    }
}

/// The id that the next allocation hands out, after `last` was the most
/// recent one and while the ids in `used` are in flight; `None` when all of
/// `1..=255` are in flight.
pub open spec fn next_tid(last: u8, used: Set<u8>) -> Option<u8> {
    match first_free_offset(last, used, 0) {
        Some(k) => Some(candidate(last, k) as u8),
        None => None,
    }
}

/// Every id of `1..=255` is in flight.
pub open spec fn all_in_flight(used: Set<u8>) -> bool {
    forall|t: u8| 1 <= t ==> #[trigger] used.contains(t)
}

/// The pending transactions, keyed by their id, together with the id that
/// was handed out last.
pub struct TransactionList<T> {
    last: Tid,
    list: HashMap<Tid, T>,
}

impl<T> TransactionList<T> {
    /// The id that was handed out most recently (255 in a fresh table, so
    /// that the first id handed out is 1).
    pub closed spec fn last(&self) -> u8 {
        self.last
    }

    /// The transactions in flight, by id.
    pub closed spec fn pending(&self) -> Map<u8, T> {
        self.list@
    }

    /// An empty table whose first allocation yields id 1.
    pub fn new() -> (r: Self)
        ensures
            r.last() == 255,
            r.pending() == Map::<u8, T>::empty(),
    {
        TransactionList { last: 255, list: HashMap::new() }
    }

    /// Hands out the next free id after the last one, in round-robin order
    /// over `1..=255`, and remembers it as the last one.  Fails with
    /// `TooManyTransactions` exactly when all 255 ids are in flight, and then
    /// changes nothing.
    pub fn next_transaction_id(&mut self) -> (r: Result<Tid, ClientError>)
        ensures
            final(self).pending() == old(self).pending(),
            match r {
                Ok(t) => {
                    &&& next_tid(old(self).last(), old(self).pending().dom()) == Some(t)
                    &&& 1 <= t
                    &&& !old(self).pending().contains_key(t)
                    &&& final(self).last() == t
                },
                Err(e) => {
                    &&& e is TooManyTransactions
                    &&& next_tid(old(self).last(), old(self).pending().dom()) is None
                    &&& all_in_flight(old(self).pending().dom())
                    &&& final(self).last() == old(self).last()
                },
            },
            r is Err <==> all_in_flight(old(self).pending().dom()),
    {
        let ghost used = self.list@.dom();
        let ghost last0 = self.last;
        let first: u8 = if self.last < 255 { self.last + 1 } else { 1 };
        let mut cand: u8 = first;
        let ghost mut k: int = 0;
        assert(cand as int == candidate(last0, 0));
        loop
            invariant
                0 <= k < 255,
                cand as int == candidate(last0, k),
                first as int == candidate(last0, 0),
                used == self.list@.dom(),
                self.list@ == old(self).list@,
                last0 == old(self).last,
                self.last == last0,
                first_free_offset(last0, used, 0) == first_free_offset(last0, used, k),
            decreases 255 - k,
        {
            if !self.list.contains_key(&cand) {
                self.last = cand;
                proof {
                    lemma_candidate_range(last0, k);
                    assert(first_free_offset(last0, used, k) == Some(k));
                }
                return Ok(cand);
            }
            let next: u8 = if cand < 255 { cand + 1 } else { 1 };
            proof {
                assert(first_free_offset(last0, used, k) == first_free_offset(last0, used, k + 1));
                lemma_candidate_step(last0, k);
                if k + 1 < 255 {
                    lemma_candidates_distinct(last0, 0, k + 1);
                }
            }
            cand = next;
            if cand == first {
                proof {
                    assert(k + 1 == 255);
                    lemma_offset_past_end(last0, used);
                    lemma_none_means_all_in_flight(last0, used);
                }
                return Err(ClientError::TooManyTransactions);
            }
            proof {
                k = k + 1;
            }
        }
    }

    /// Records a transaction under `tid` (replacing any earlier one there).
    pub fn insert(&mut self, tid: Tid, transaction: T)
        ensures
            final(self).pending() == old(self).pending().insert(tid, transaction),
            final(self).last() == old(self).last(),
    {
        self.list.insert(tid, transaction);
    }

    /// Removes the transaction under `tid` and hands it back, if there is one.
    pub fn take(&mut self, tid: Tid) -> (r: Option<T>)
        ensures
            final(self).pending() == old(self).pending().remove(tid),
            final(self).last() == old(self).last(),
            match r {
                Some(t) => old(self).pending().contains_key(tid) && t == old(self).pending()[tid],
                None => !old(self).pending().contains_key(tid),
            },
    {
        self.list.remove(&tid)
    }

    /// Whether a transaction is in flight under `tid`.
    pub fn contains(&self, tid: Tid) -> (r: bool)
        ensures
            r == self.pending().contains_key(tid),
    {
        self.list.contains_key(&tid)
    }

    /// The number of transactions in flight.
    pub fn len(&self) -> (r: usize)
        ensures
            r == self.pending().len(),
    {
        self.list.len()
    }

    /// Forgets every pending transaction and starts the ids over, so that
    /// the next id handed out is 1.
    pub fn reset(&mut self)
        ensures
            final(self).pending() == Map::<u8, T>::empty(),
            final(self).last() == 255,
    {
        self.list.clear();
        self.last = 255;
    }
}

/// A fresh (or reset) table hands out id 1 first.
pub proof fn law_fresh_table_starts_at_one(used: Set<u8>)
    requires
        used == Set::<u8>::empty(),
    ensures
        next_tid(255, used) == Some(1u8),
{
    assert(candidate(255, 0) == 1);
}

/// While no id above the last one is in flight and the last one is below
/// 255, ids are handed out in increasing order: the next one is the last
/// one plus one.
pub proof fn law_ids_increase(last: u8, used: Set<u8>)
    requires
        last < 255,
        forall|t: u8| #[trigger] used.contains(t) ==> t <= last,
    ensures
        next_tid(last, used) == Some((last + 1) as u8),
{
    assert(candidate(last, 0) == last + 1);
    assert(!used.contains((last + 1) as u8));
}

/// The id handed out is in `1..=255` and not in flight.
pub proof fn law_allocated_id_is_free(last: u8, used: Set<u8>, t: u8)
    requires
        next_tid(last, used) == Some(t),
    ensures
        1 <= t,
        !used.contains(t),
{
    let k = lemma_found_offset(last, used, 0);
    lemma_candidate_range(last, k);
}

/// An id that was handed out and recorded is not handed out again while
/// it is in flight.
pub proof fn law_no_reuse_while_pending(last: u8, used: Set<u8>, t: u8)
    requires
        next_tid(last, used) == Some(t),
    ensures
        next_tid(t, used.insert(t)) != Some(t),
{
    law_allocated_id_is_free(last, used, t);
    match next_tid(t, used.insert(t)) {
        Some(u) => {
            law_allocated_id_is_free(t, used.insert(t), u);
        },
        None => {},
    }
}

/// No id can be handed out exactly when all 255 ids are in flight.
pub proof fn law_exhausted_iff_all_in_flight(last: u8, used: Set<u8>)
    ensures
        next_tid(last, used) is None <==> all_in_flight(used),
{
    if next_tid(last, used) is None {
        lemma_none_means_all_in_flight(last, used);
    }
    if all_in_flight(used) {
        lemma_all_used_none(last, used, 0);
    }
}

/// Taking a transaction right after recording it gives it back, and leaves
/// the table as taking it from the earlier table would.
pub proof fn law_take_after_insert<T>(pending: Map<u8, T>, tid: u8, x: T)
    ensures
        pending.insert(tid, x).contains_key(tid),
        pending.insert(tid, x)[tid] == x,
        pending.insert(tid, x).remove(tid) == pending.remove(tid),
{
    assert(pending.insert(tid, x).remove(tid) =~= pending.remove(tid));
}

/// A found offset is a free candidate.
proof fn lemma_found_offset(last: u8, used: Set<u8>, i: int) -> (k: int)
    requires
        first_free_offset(last, used, i) is Some,
    ensures
        first_free_offset(last, used, i) == Some(k),
        0 <= k < 255,
        !used.contains(candidate(last, k) as u8),
    decreases 255 - i,
{
    if !used.contains(candidate(last, i) as u8) {
        i
    } else {
        lemma_found_offset(last, used, i + 1)
    }
}

/// When every id is in flight, no candidate from `i` on is free.
proof fn lemma_all_used_none(last: u8, used: Set<u8>, i: int)
    requires
        all_in_flight(used),
        0 <= i,
    ensures
        first_free_offset(last, used, i) is None,
    decreases 255 - i,
{
    if i < 255 {
        lemma_candidate_range(last, i);
        assert(used.contains(candidate(last, i) as u8));
        lemma_all_used_none(last, used, i + 1);
    }
}

/// Candidates are ids in `1..=255`.
pub proof fn lemma_candidate_range(last: u8, k: int)
    ensures
        1 <= candidate(last, k) <= 255,
{
}

/// One step further in the candidate order is one step further in the
/// round-robin order.
pub proof fn lemma_candidate_step(last: u8, k: int)
    requires
        0 <= k,
    ensures
        candidate(last, k + 1) == cyclic_next(candidate(last, k)),
{
    let a = last + k;
    assert(a >= 0);
    let q = a / 255;
    let r = a % 255;
    assert(a == 255 * q + r && 0 <= r < 255);
    if r < 254 {
        assert((a + 1) % 255 == r + 1) by {
            assert(a + 1 == 255 * q + (r + 1));
        }
    } else {
        assert((a + 1) % 255 == 0) by {
            assert(a + 1 == 255 * (q + 1));
        }
    }
}

/// The 255 candidates are pairwise distinct.
pub proof fn lemma_candidates_distinct(last: u8, i: int, j: int)
    requires
        0 <= i < j < 255,
    ensures
        candidate(last, i) != candidate(last, j),
{
    let a = last + i;
    let b = last + j;
    let qa = a / 255;
    let qb = b / 255;
    assert(a == 255 * qa + a % 255);
    assert(b == 255 * qb + b % 255);
    assert(0 <= a % 255 < 255);
    assert(0 <= b % 255 < 255);
    if a % 255 == b % 255 {
        assert(b - a == 255 * (qb - qa));
        assert(0 < b - a < 255);
        if qb - qa >= 1 {
            assert(255 * (qb - qa) >= 255);
        } else {
            assert(255 * (qb - qa) <= 0);
        }
    }
}

/// Every id in `1..=255` is one of the candidates.
pub proof fn lemma_candidate_covers(last: u8, t: u8) -> (k: int)
    requires
        1 <= t,
    ensures
        0 <= k < 255,
        candidate(last, k) == t,
{
    let l = last % 255;
    assert(last == l || last == l + 255);
    let k: int = if t - 1 >= l { t - 1 - l } else { t - 1 - l + 255 };
    if last == l {
        if t - 1 >= l {
            assert(last + k == t - 1);
        } else {
            assert(last + k == t - 1 + 255);
            assert((t - 1 + 255) % 255 == t - 1) by {
                assert(t - 1 + 255 == 255 * 1 + (t - 1));
            }
        }
    } else {
        assert(l == 0);
        assert(last + k == t - 1 + 255);
        assert((t - 1 + 255) % 255 == t - 1) by {
            assert(t - 1 + 255 == 255 * 1 + (t - 1));
        }
    }
    k
}

/// Once all candidates before `k` are used, the first free one is the
/// first free one from `k` on.
proof fn lemma_offset_past_end(last: u8, used: Set<u8>)
    ensures
        first_free_offset(last, used, 255) is None,
{
}

/// No free candidate means every id is in flight.
pub proof fn lemma_none_means_all_in_flight(last: u8, used: Set<u8>)
    requires
        first_free_offset(last, used, 0) is None,
    ensures
        all_in_flight(used),
{
    assert forall|t: u8| 1 <= t implies #[trigger] used.contains(t) by {
        let k = lemma_candidate_covers(last, t);
        lemma_none_from(last, used, 0, k);
    }
}

/// If no candidate from `i` on is free, the candidate `k >= i` is in use.
proof fn lemma_none_from(last: u8, used: Set<u8>, i: int, k: int)
    requires
        0 <= i <= k < 255,
        first_free_offset(last, used, i) is None,
    ensures
        used.contains(candidate(last, k) as u8),
    decreases k - i,
{
    if i < k {
        lemma_none_from(last, used, i + 1, k);
    }
}

} // verus!

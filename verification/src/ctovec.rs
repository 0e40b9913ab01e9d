//! A growable vector whose storage is drawn from a pool: ordinary vector
//! behaviour over already-allocated persistent storage, plus the
//! pool-handle binding that reattachment rebinds on every open.
//!
//! The reserved capacity is modelled explicitly: it only ever grows on
//! demand, shrinks on request, and never drops below the length, exactly
//! as a reallocating buffer behaves.

use vstd::prelude::*;
use crate::block::CtoPool;
use vstd::std_specs::cmp::PartialEqSpec;
use crate::reattach::{CtoPoolArc, CtoSafe};

verus! {

/// A pool-backed vector: the elements, the reserved capacity in
/// elements, and the pool-handle reference.
pub struct CtoVec<T: CtoSafe> {
    /// The elements held, in order.
    pub elements: Vec<T>,
    /// How many elements the vector can hold without reallocating.
    pub reserved: usize,
    /// The pool this vector's storage belongs to.
    pub cto_pool_arc: CtoPoolArc,
}

impl<T: CtoSafe> CtoVec<T> {
    /// The elements as a sequence.
    pub open spec fn view(self) -> Seq<T> {
        self.elements@
    }

    /// Capacity never drops below the length.
    pub open spec fn wf(self) -> bool {
        self.view().len() <= self.reserved
    }

    /// Constructs a new, empty vector backed by the pool.
    pub fn new(cto_pool: &CtoPool) -> (r: Self)
        ensures
            r.wf(),
            r.view() == Seq::<T>::empty(),
            r.reserved == 0,
            r.cto_pool_arc.epoch == cto_pool.epoch,
    {
        CtoVec {
            elements: Vec::new(),
            reserved: 0,
            cto_pool_arc: CtoPoolArc::new(cto_pool.epoch),
        }
    }

    /// Constructs a new, empty vector with the given capacity already
    /// reserved from the pool.
    pub fn with_capacity(capacity: usize, cto_pool: &CtoPool) -> (r: Self)
        ensures
            r.wf(),
            r.view() == Seq::<T>::empty(),
            r.reserved == capacity,
            r.cto_pool_arc.epoch == cto_pool.epoch,
    {
        CtoVec {
            elements: Vec::new(),
            reserved: capacity,
            cto_pool_arc: CtoPoolArc::new(cto_pool.epoch),
        }
    }

    /// How many elements the vector can hold without reallocating.
    pub fn capacity(&self) -> (r: usize)
        ensures
            r == self.reserved,
    {
        self.reserved
    }

    /// Reserves room for at least `additional` more elements. Existing
    /// reservations are never given back.
    pub fn reserve(&mut self, additional: usize)
        requires
            old(self).wf(),
            old(self).view().len() + additional <= usize::MAX,
        ensures
            final(self).wf(),
            final(self).view() == old(self).view(),
            final(self).cto_pool_arc == old(self).cto_pool_arc,
            final(self).reserved >= old(self).reserved,
            final(self).reserved >= old(self).view().len() + additional,
    {
        let needed = self.elements.len() + additional;
        if self.reserved < needed {
            self.reserved = needed;
        }
    }

    /// Reserves room for exactly `additional` more elements beyond the
    /// length, without growth headroom.
    pub fn reserve_exact(&mut self, additional: usize)
        requires
            old(self).wf(),
            old(self).view().len() + additional <= usize::MAX,
        ensures
            final(self).wf(),
            final(self).view() == old(self).view(),
            final(self).cto_pool_arc == old(self).cto_pool_arc,
            final(self).reserved == (if old(self).reserved >= old(self).view().len()
                + additional {
                old(self).reserved as int
            } else {
                old(self).view().len() + additional
            }),
    {
        let needed = self.elements.len() + additional;
        if self.reserved < needed {
            self.reserved = needed;
        }
    }

    /// Gives back every reservation beyond the elements held.
    pub fn shrink_to_fit(&mut self)
        ensures
            final(self).wf(),
            final(self).view() == old(self).view(),
            final(self).cto_pool_arc == old(self).cto_pool_arc,
            final(self).reserved == old(self).view().len(),
    {
        self.reserved = self.elements.len();
    }

    /// Shortens the vector to at most `len` elements, dropping the rest.
    pub fn truncate(&mut self, len: usize)
        requires
            old(self).wf(),
        ensures
            final(self).wf(),
            final(self).cto_pool_arc == old(self).cto_pool_arc,
            final(self).reserved == old(self).reserved,
            len < old(self).view().len() ==> final(self).view() == old(self).view().take(
                len as int,
            ),
            len >= old(self).view().len() ==> final(self).view() == old(self).view(),
    {
        proof {
            if (len as int) < self.view().len() {
                assert(self.elements@.take(len as int) =~= self.elements@.subrange(
                    0,
                    len as int,
                ));
            }
        }
        self.elements.truncate(len);
    }

    /// The elements as one contiguous slice.
    pub fn as_slice(&self) -> (r: &[T])
        ensures
            r@ == self.view(),
    {
        self.elements.as_slice()
    }

    /// The elements as one contiguous mutable slice.
    pub fn as_mut_slice(&mut self) -> (r: &mut [T])
        ensures
            r@ == old(self).view(),
            final(self).elements@ == final(r)@,
            final(self).reserved == old(self).reserved,
            final(self).cto_pool_arc == old(self).cto_pool_arc,
    {
        self.elements.as_mut_slice()
    }

    /// Removes and returns the element at `index`, replacing it with the
    /// last element: order is not preserved, but no element shifts.
    pub fn swap_remove(&mut self, index: usize) -> (r: T)
        requires
            old(self).wf(),
            index < old(self).view().len(),
        ensures
            final(self).wf(),
            final(self).cto_pool_arc == old(self).cto_pool_arc,
            final(self).reserved == old(self).reserved,
            r == old(self).view()[index as int],
            final(self).view() == old(self).view().update(
                index as int,
                old(self).view().last(),
            ).drop_last(),
    {
        self.elements.swap_remove(index)
    }

    /// Appends an element to the back.
    pub fn push(&mut self, value: T)
        requires
            old(self).wf(),
            old(self).view().len() < usize::MAX,
        ensures
            final(self).wf(),
            final(self).cto_pool_arc == old(self).cto_pool_arc,
            final(self).view() == old(self).view().push(value),
            final(self).reserved >= old(self).reserved,
    {
        if self.reserved == self.elements.len() {
            // double the reservation, as a reallocating buffer would
            let len = self.elements.len();
            if len == 0 {
                self.reserved = 1;
            } else if len <= usize::MAX / 2 {
                self.reserved = len * 2;
            } else {
                self.reserved = usize::MAX;
            }
        }
        self.elements.push(value);
    }

    /// Removes and returns the last element, or nothing when empty.
    pub fn pop(&mut self) -> (r: Option<T>)
        requires
            old(self).wf(),
        ensures
            final(self).wf(),
            final(self).cto_pool_arc == old(self).cto_pool_arc,
            final(self).reserved == old(self).reserved,
            old(self).view().len() == 0 ==> r is None && final(self).view() == old(self).view(),
            old(self).view().len() > 0 ==> r == Some(old(self).view().last()) && final(self).view() == old(self).view().drop_last(),
    {
        self.elements.pop()
    }

    /// Clears the vector; the reserved capacity is untouched.
    pub fn clear(&mut self)
        ensures
            final(self).wf(),
            final(self).cto_pool_arc == old(self).cto_pool_arc,
            final(self).reserved == old(self).reserved,
            final(self).view() == Seq::<T>::empty(),
    {
        self.elements.clear();
    }

    /// How many elements the vector holds.
    pub fn len(&self) -> (r: usize)
        ensures
            r == self.view().len(),
    {
        self.elements.len()
    }

    /// Whether the vector holds no elements.
    pub fn is_empty(&self) -> (r: bool)
        ensures
            r == (self.view().len() == 0),
    {
        self.elements.len() == 0
    }
}

impl<T: CtoSafe> CtoSafe for CtoVec<T> {
    open spec fn reattached_to(&self, pool: CtoPoolArc) -> bool {
        &&& self.cto_pool_arc == pool
        &&& forall|i: int|
            0 <= i < self.view().len() ==> (#[trigger] self.view()[i]).reattached_to(pool)
    }

    /// Rebinds the vector and reattaches every element, front to back.
    fn cto_pool_opened(&mut self, cto_pool_arc: &CtoPoolArc) {
        cto_pool_arc.write(&mut self.cto_pool_arc);
        let n = self.elements.len();
        let mut i: usize = 0;
        while i < n
            invariant
                i <= n,
                n == self.elements@.len(),
                self.cto_pool_arc == *cto_pool_arc,
                forall|k: int|
                    0 <= k < i ==> (#[trigger] self.elements@[k]).reattached_to(*cto_pool_arc),
            decreases n - i,
        {
            let element = &mut self.elements[i];
            element.cto_pool_opened(cto_pool_arc);
            i = i + 1;
        }
    }
}


/// The subsequence of `s` picked out by per-element keep decisions.
pub open spec fn filter_by_decisions<T>(s: Seq<T>, keep: Seq<bool>) -> Seq<T>
    decreases s.len(),
{
    if s.len() == 0 {
        Seq::empty()
    } else {
        filter_by_decisions(s.drop_last(), keep.drop_last()) + (if keep.len() == s.len()
            && keep.last() {
            seq![s.last()]
        } else {
            Seq::<T>::empty()
        })
    }
}


/// `out` is `s` with exactly its first element equal to `item` removed,
/// and `removed` is that element.
pub open spec fn spec_first_match_removed<T: PartialEq>(
    s: Seq<T>,
    item: T,
    out: Seq<T>,
    removed: T,
) -> bool {
    exists|i: int|
        {
            &&& 0 <= i < s.len()
            &&& s[i].eq_spec(&item)
            &&& (forall|k: int| 0 <= k < i ==> !s[k].eq_spec(&item))
            &&& removed == s[i]
            &&& out == s.subrange(0, i) + s.skip(i + 1)
        }
}

/// One step of removing consecutive repeats: walk `s` from position `i`
/// with the elements already retained in `acc`, dropping each element
/// equal to the most recently retained one.
pub open spec fn spec_dedup_from<T: PartialEq>(s: Seq<T>, i: int, acc: Seq<T>) -> Seq<T>
    decreases s.len() - i,
{
    if i < 0 || i >= s.len() {
        acc
    } else if acc.len() > 0 && s[i].eq_spec(&acc.last()) {
        spec_dedup_from(s, i + 1, acc)
    } else {
        spec_dedup_from(s, i + 1, acc.push(s[i]))
    }
}

/// `s` with all but the first of consecutive equal elements removed.
pub open spec fn spec_dedup<T: PartialEq>(s: Seq<T>) -> Seq<T> {
    spec_dedup_from(s, 0, Seq::empty())
}

impl<T: CtoSafe> CtoVec<T> {
    /// Keeps exactly the elements the predicate approves, in order. Each
    /// element is shown to the predicate once; the decisions taken are
    /// the witness sequence of the contract.
    pub fn retain<F: Fn(&T) -> bool>(&mut self, f: F)
        requires
            old(self).wf(),
            forall|i: int|
                0 <= i < old(self).view().len() ==> call_requires(f, (&old(self).view()[i],)),
        ensures
            final(self).wf(),
            final(self).cto_pool_arc == old(self).cto_pool_arc,
            final(self).reserved == old(self).reserved,
            exists|keep: Seq<bool>|
                {
                    &&& keep.len() == old(self).view().len()
                    &&& final(self).view() == filter_by_decisions(old(self).view(), keep)
                    &&& forall|i: int|
                        0 <= i < keep.len() ==> call_ensures(
                            f,
                            (&old(self).view()[i],),
                            keep[i],
                        )
                },
    {
        let ghost orig = self.elements@;
        let ghost mut keep: Seq<bool> = Seq::empty();
        let ghost mut j: int = 0;
        let mut i: usize = 0;
        while i < self.elements.len()
            invariant
                self.wf(),
                self.reserved == old(self).reserved,
                self.cto_pool_arc == old(self).cto_pool_arc,
                orig == old(self).view(),
                forall|k: int| 0 <= k < orig.len() ==> call_requires(f, (&orig[k],)),
                0 <= j <= orig.len(),
                keep.len() == j,
                i <= self.elements@.len(),
                self.elements@ == filter_by_decisions(orig.take(j), keep) + orig.skip(j),
                i == filter_by_decisions(orig.take(j), keep).len(),
                forall|k: int| 0 <= k < j ==> call_ensures(f, (&orig[k],), keep[k]),
            decreases orig.len() - j,
        {
            proof {
                assert(self.elements@[i as int] == orig[j]);
            }
            let element = &self.elements[i];
            let decision = f(element);
            let ghost keep_pre = keep;
            proof {
                keep = keep_pre.push(decision);
                assert(orig.take(j + 1).drop_last() =~= orig.take(j));
                assert(keep.drop_last() =~= keep_pre);
                assert(orig.take(j + 1).last() == orig[j]);
                assert(orig.skip(j) =~= seq![orig[j]] + orig.skip(j + 1));
            }
            if decision {
                i = i + 1;
                proof {
                    assert(filter_by_decisions(orig.take(j + 1), keep)
                        =~= filter_by_decisions(orig.take(j), keep_pre) + seq![orig[j]]);
                    assert(self.elements@ =~= filter_by_decisions(orig.take(j + 1), keep)
                        + orig.skip(j + 1));
                }
            } else {
                self.elements.remove(i);
                proof {
                    assert(filter_by_decisions(orig.take(j + 1), keep)
                        =~= filter_by_decisions(orig.take(j), keep_pre));
                    assert(self.elements@ =~= filter_by_decisions(orig.take(j + 1), keep)
                        + orig.skip(j + 1));
                }
            }
            proof {
                j = j + 1;
            }
        }
        proof {
            assert(j == orig.len());
            assert(orig.take(j) =~= orig);
            assert(self.elements@ =~= filter_by_decisions(orig, keep));
        }
    }
}

impl<T: CtoSafe + PartialEq> CtoVec<T> {
    /// Removes all but the first of consecutive equal elements. When this
    /// element type's equality obeys its specification, the result is
    /// exactly the deduplicated sequence.
    pub fn dedup(&mut self)
        requires
            old(self).wf(),
        ensures
            final(self).wf(),
            final(self).cto_pool_arc == old(self).cto_pool_arc,
            final(self).reserved == old(self).reserved,
            final(self).view().len() <= old(self).view().len(),
            T::obeys_eq_spec() ==> final(self).view() == spec_dedup(old(self).view()),
    {
        let ghost orig = self.elements@;
        let ghost mut j: int = 0;
        let mut i: usize = 0;
        proof {
            assert(self.elements@.take(0) =~= Seq::<T>::empty());
            assert(self.elements@ =~= self.elements@.take(0) + orig.skip(0));
        }
        while i < self.elements.len()
            invariant
                self.wf(),
                self.reserved == old(self).reserved,
                self.cto_pool_arc == old(self).cto_pool_arc,
                orig == old(self).view(),
                0 <= j <= orig.len(),
                i <= self.elements@.len(),
                i <= j,
                self.elements@ == self.elements@.take(i as int) + orig.skip(j),
                T::obeys_eq_spec() ==> spec_dedup_from(orig, j, self.elements@.take(i as int))
                    == spec_dedup(orig),
            decreases orig.len() - j,
        {
            proof {
                assert(self.elements@[i as int] == orig[j]);
            }
            let mut duplicate = false;
            if i > 0 {
                duplicate = self.elements[i] == self.elements[i - 1];
            }
            if duplicate {
                let ghost pre = self.elements@;
                self.elements.remove(i);
                proof {
                    assert(pre.take(i as int).last() == pre[i - 1]);
                    assert(self.elements@ =~= self.elements@.take(i as int) + orig.skip(
                        j + 1,
                    ));
                    assert(self.elements@.take(i as int) =~= pre.take(i as int));
                }
            } else {
                i = i + 1;
                proof {
                    assert(self.elements@.take(i as int) =~= self.elements@.take(
                        i - 1,
                    ).push(orig[j]));
                    assert(self.elements@ =~= self.elements@.take(i as int) + orig.skip(
                        j + 1,
                    ));
                }
            }
            proof {
                j = j + 1;
            }
        }
        proof {
            assert(j == orig.len());
            assert(self.elements@.take(i as int) =~= self.elements@);
        }
    }

    /// Removes the first element equal to `item`, if one exists. When
    /// equality obeys its specification, exactly the first match leaves
    /// and the result says which.
    pub fn remove_item(&mut self, item: &T) -> (r: Option<T>)
        requires
            old(self).wf(),
        ensures
            final(self).wf(),
            final(self).cto_pool_arc == old(self).cto_pool_arc,
            final(self).reserved == old(self).reserved,
            T::obeys_eq_spec() ==> ((exists|i: int|
                0 <= i < old(self).view().len() && old(self).view()[i].eq_spec(item)) <==> r
                is Some),
            T::obeys_eq_spec() && r is None ==> final(self).view() == old(self).view(),
            T::obeys_eq_spec() ==> (r matches Some(x) ==> spec_first_match_removed(
                old(self).view(),
                *item,
                final(self).view(),
                x,
            )),
    {
        let n = self.elements.len();
        let mut i: usize = 0;
        while i < n
            invariant
                self.wf(),
                n == self.elements@.len(),
                i <= n,
                self == old(self),
                T::obeys_eq_spec() ==> forall|k: int|
                    0 <= k < i ==> !self.elements@[k].eq_spec(item),
            decreases n - i,
        {
            if self.elements[i] == *item {
                let removed = self.elements.remove(i);
                return Some(removed);
            }
            i = i + 1;
        }
        None
    }
}


/// The decisions of a key-deduplication pass over `s`, justified call by
/// call. For every position `t` past the first, `prev[t - 1]` is the
/// most recently kept position before `t`, the key function produced
/// `cur_keys[t - 1]` for the element at `t` and `prev_keys[t - 1]` for
/// the kept element, and — when the key type's equality obeys its
/// specification — the element at `t` was dropped exactly when those two
/// keys compared equal.
pub open spec fn dedup_decisions_keyed<T, F: Fn(&T) -> K, K: PartialEq>(
    s: Seq<T>,
    keep: Seq<bool>,
    prev: Seq<int>,
    cur_keys: Seq<K>,
    prev_keys: Seq<K>,
    key: F,
) -> bool {
    &&& prev.len() + 1 == keep.len()
    &&& cur_keys.len() + 1 == keep.len()
    &&& prev_keys.len() + 1 == keep.len()
    &&& forall|t: int|
        1 <= t < keep.len() ==> {
            &&& 0 <= #[trigger] prev[t - 1] < t
            &&& keep[prev[t - 1]]
            &&& (forall|j2: int| prev[t - 1] < j2 < t ==> !keep[j2])
            &&& call_ensures(key, (&s[t],), cur_keys[t - 1])
            &&& call_ensures(key, (&s[prev[t - 1]],), prev_keys[t - 1])
            &&& (K::obeys_eq_spec() ==> keep[t] == !cur_keys[t - 1].eq_spec(
                &prev_keys[t - 1],
            ))
        }
}

impl<T: CtoSafe> CtoVec<T> {
    /// Removes all but the first of consecutive elements that resolve to
    /// the same key. The first element always stays, and what remains is
    /// a subsequence of the vector picked by per-element decisions.
    pub fn dedup_by_key<F: Fn(&T) -> K, K: PartialEq>(&mut self, key: F)
        requires
            old(self).wf(),
            forall|i: int|
                0 <= i < old(self).view().len() ==> call_requires(key, (&old(self).view()[i],)),
        ensures
            final(self).wf(),
            final(self).cto_pool_arc == old(self).cto_pool_arc,
            final(self).reserved == old(self).reserved,
            exists|keep: Seq<bool>, prev: Seq<int>, cur_keys: Seq<K>, prev_keys: Seq<K>|
                {
                    &&& keep.len() == old(self).view().len()
                    &&& final(self).view() == filter_by_decisions(old(self).view(), keep)
                    &&& (old(self).view().len() > 0 ==> keep[0])
                    &&& (old(self).view().len() > 0 ==> #[trigger] dedup_decisions_keyed(
                        old(self).view(),
                        keep,
                        prev,
                        cur_keys,
                        prev_keys,
                        key,
                    ))
                },
    {
        let ghost orig = self.elements@;
        if self.elements.len() == 0 {
            proof {
                let empty_keep = Seq::<bool>::empty();
                let empty_prev = Seq::<int>::empty();
                let empty_cur = Seq::<K>::empty();
                let empty_prev_keys = Seq::<K>::empty();
                assert(self.elements@ =~= filter_by_decisions(orig, empty_keep));
                // apply the witness form once, so the existential in the
                // contract can be instantiated with the empty sequences
                let witness_applied = dedup_decisions_keyed(
                    orig,
                    empty_keep,
                    empty_prev,
                    empty_cur,
                    empty_prev_keys,
                    key,
                );
                assert(empty_keep.len() == orig.len());
            }
            return ;
        }
        let ghost mut keep: Seq<bool> = seq![true];
        let ghost mut prev: Seq<int> = Seq::empty();
        let ghost mut cur_keys: Seq<K> = Seq::empty();
        let ghost mut prev_keys: Seq<K> = Seq::empty();
        let ghost mut j: int = 1;
        let ghost mut m: int = 0;
        let mut i: usize = 1;
        proof {
            assert(orig.take(1).drop_last() =~= orig.take(0));
            assert(filter_by_decisions(orig.take(0), keep.drop_last()) =~= Seq::<T>::empty());
            assert(filter_by_decisions(orig.take(1), keep) =~= seq![orig[0]]);
            assert(self.elements@ =~= filter_by_decisions(orig.take(1), keep) + orig.skip(1));
        }
        while i < self.elements.len()
            invariant
                self.wf(),
                self.reserved == old(self).reserved,
                self.cto_pool_arc == old(self).cto_pool_arc,
                orig == old(self).view(),
                orig.len() > 0,
                forall|k: int| 0 <= k < orig.len() ==> call_requires(key, (&orig[k],)),
                1 <= j <= orig.len(),
                keep.len() == j,
                keep[0],
                1 <= i <= self.elements@.len(),
                self.elements@ == filter_by_decisions(orig.take(j), keep) + orig.skip(j),
                i == filter_by_decisions(orig.take(j), keep).len(),
                // the most recently kept element and its origin
                0 <= m < j,
                keep[m],
                forall|j2: int| m < j2 < j ==> !keep[j2],
                self.elements@[i - 1] == orig[m],
                // every decision so far is justified by the key function
                dedup_decisions_keyed(orig, keep, prev, cur_keys, prev_keys, key),
            decreases orig.len() - j,
        {
            proof {
                assert(self.elements@[i as int] == orig[j]);
                assert(call_requires(key, (&orig[m],)));
            }
            let current_key = key(&self.elements[i]);
            let previous_key = key(&self.elements[i - 1]);
            let duplicate = current_key == previous_key;
            let ghost keep_pre = keep;
            proof {
                keep = keep_pre.push(!duplicate);
                assert(orig.take(j + 1).drop_last() =~= orig.take(j));
                assert(keep.drop_last() =~= keep_pre);
                assert(orig.take(j + 1).last() == orig[j]);
                assert(orig.skip(j) =~= seq![orig[j]] + orig.skip(j + 1));
                // this round's decision is justified by the two key calls
                let prev_pre = prev;
                let cur_keys_pre = cur_keys;
                let prev_keys_pre = prev_keys;
                prev = prev_pre.push(m);
                cur_keys = cur_keys_pre.push(current_key);
                prev_keys = prev_keys_pre.push(previous_key);
                assert(call_ensures(key, (&orig[j],), current_key));
                assert(call_ensures(key, (&orig[m],), previous_key));
                assert forall|t: int|
                    1 <= t < keep.len() implies {
                    &&& 0 <= #[trigger] prev[t - 1] < t
                    &&& keep[prev[t - 1]]
                    &&& (forall|j2: int| prev[t - 1] < j2 < t ==> !keep[j2])
                    &&& call_ensures(key, (&orig[t],), cur_keys[t - 1])
                    &&& call_ensures(key, (&orig[prev[t - 1]],), prev_keys[t - 1])
                    &&& (K::obeys_eq_spec() ==> keep[t] == !cur_keys[t - 1].eq_spec(
                        &prev_keys[t - 1],
                    ))
                } by {
                    if t < j {
                        assert(0 <= prev_pre[t - 1] < t);
                        assert(prev[t - 1] == prev_pre[t - 1]);
                        assert(cur_keys[t - 1] == cur_keys_pre[t - 1]);
                        assert(prev_keys[t - 1] == prev_keys_pre[t - 1]);
                        assert(keep_pre[prev_pre[t - 1]] == keep[prev_pre[t - 1]]);
                        assert(keep_pre[t] == keep[t]);
                    } else {
                        assert(prev[t - 1] == m);
                        assert(cur_keys[t - 1] == current_key);
                        assert(prev_keys[t - 1] == previous_key);
                        assert(keep[t] == !duplicate);
                    }
                }
                assert(dedup_decisions_keyed(orig, keep, prev, cur_keys, prev_keys, key));
            }
            if duplicate {
                self.elements.remove(i);
                proof {
                    assert(filter_by_decisions(orig.take(j + 1), keep)
                        =~= filter_by_decisions(orig.take(j), keep_pre));
                    assert(self.elements@ =~= filter_by_decisions(orig.take(j + 1), keep)
                        + orig.skip(j + 1));
                }
            } else {
                i = i + 1;
                proof {
                    m = j;
                    assert(filter_by_decisions(orig.take(j + 1), keep)
                        =~= filter_by_decisions(orig.take(j), keep_pre) + seq![orig[j]]);
                    assert(self.elements@ =~= filter_by_decisions(orig.take(j + 1), keep)
                        + orig.skip(j + 1));
                }
            }
            proof {
                j = j + 1;
            }
        }
        proof {
            assert(j == orig.len());
            assert(orig.take(j) =~= orig);
            assert(self.elements@ =~= filter_by_decisions(orig, keep));
        }
    }
}


impl<T: CtoSafe> CtoVec<T> {
    /// Inserts an element at `index`, shifting everything after it right.
    pub fn insert(&mut self, index: usize, element: T)
        requires
            old(self).wf(),
            index <= old(self).view().len(),
            old(self).view().len() < usize::MAX,
        ensures
            final(self).wf(),
            final(self).cto_pool_arc == old(self).cto_pool_arc,
            final(self).view() == old(self).view().insert(index as int, element),
            final(self).reserved >= old(self).reserved,
    {
        if self.reserved == self.elements.len() {
            let len = self.elements.len();
            if len == 0 {
                self.reserved = 1;
            } else if len <= usize::MAX / 2 {
                self.reserved = len * 2;
            } else {
                self.reserved = usize::MAX;
            }
        }
        self.elements.insert(index, element);
    }

    /// Removes and returns the element at `index`, shifting everything
    /// after it left.
    pub fn remove(&mut self, index: usize) -> (r: T)
        requires
            old(self).wf(),
            index < old(self).view().len(),
        ensures
            final(self).wf(),
            final(self).cto_pool_arc == old(self).cto_pool_arc,
            final(self).reserved == old(self).reserved,
            r == old(self).view()[index as int],
            final(self).view() == old(self).view().subrange(0, index as int) + old(
                self,
            ).view().skip(index + 1),
    {
        let removed = self.elements.remove(index);
        proof {
            assert(self.elements@ =~= old(self).view().subrange(0, index as int) + old(
                self,
            ).view().skip(index + 1));
        }
        removed
    }

    /// Moves every element of `other` onto the end of `self`, leaving
    /// `other` empty but with its reservation intact.
    pub fn append(&mut self, other: &mut CtoVec<T>)
        requires
            old(self).wf(),
            old(other).wf(),
            old(self).view().len() + old(other).view().len() <= usize::MAX,
        ensures
            final(self).wf(),
            final(other).wf(),
            final(self).cto_pool_arc == old(self).cto_pool_arc,
            final(other).cto_pool_arc == old(other).cto_pool_arc,
            final(self).view() == old(self).view() + old(other).view(),
            final(other).view() == Seq::<T>::empty(),
            final(other).reserved == old(other).reserved,
            final(self).reserved >= final(self).view().len(),
    {
        let needed = self.elements.len() + other.elements.len();
        if self.reserved < needed {
            self.reserved = needed;
        }
        self.elements.append(&mut other.elements);
    }

    /// Splits the vector at `at`: `self` keeps the elements before it,
    /// the returned vector takes the rest. The reservation of `self`
    /// does not change.
    pub fn split_off(&mut self, at: usize) -> (r: CtoVec<T>)
        requires
            old(self).wf(),
            at <= old(self).view().len(),
        ensures
            final(self).wf(),
            r.wf(),
            final(self).cto_pool_arc == old(self).cto_pool_arc,
            r.cto_pool_arc == old(self).cto_pool_arc,
            final(self).view() == old(self).view().subrange(0, at as int),
            r.view() == old(self).view().skip(at as int),
            final(self).reserved == old(self).reserved,
            r.reserved == r.view().len(),
    {
        let tail = self.elements.split_off(at);
        let tail_reserved = tail.len();
        CtoVec { elements: tail, reserved: tail_reserved, cto_pool_arc: self.cto_pool_arc }
    }
}

} // verus!

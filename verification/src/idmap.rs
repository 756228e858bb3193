//! A map keyed by fixed-size identifiers, stored as a vector of entries with
//! strictly increasing keys.
//!
//! The keeper iterates its vault and auction maps in deterministic sorted-id
//! order every cycle, so the container keeps its entries sorted by key and
//! exposes that order directly.  Its abstract value is a `Map<u128, T>`.
use vstd::prelude::*;

verus! {

/// True when the entry keys are strictly increasing (hence unique).
pub open spec fn entries_sorted<T>(s: Seq<(u128, T)>) -> bool {
    forall|i: int, j: int| 0 <= i < j < s.len() ==> s[i].0 < s[j].0
}

/// The index of the entry holding key `k`, unique when the keys are sorted.
pub open spec fn spec_key_index<T>(s: Seq<(u128, T)>, k: u128) -> int {
    choose|i: int| 0 <= i < s.len() && s[i].0 == k
}

/// True when some entry holds key `k`.
pub open spec fn spec_has_key<T>(s: Seq<(u128, T)>, k: u128) -> bool {
    exists|i: int| 0 <= i < s.len() && s[i].0 == k
}

/// True when the keys of `m` are exactly `base` plus the first `upto` ids of
/// `ids`.
pub open spec fn spec_keys_cover<T>(m: IdMap<T>, base: Seq<u128>, ids: Seq<u128>, upto: int) -> bool {
    forall|k: u128|
        m.spec_keys().contains(k) <==> (base.contains(k) || ids.subrange(0, upto).contains(k))
}

/// Unfold `spec_keys_cover` at one key.
pub proof fn lemma_keys_cover_elim<T>(m: IdMap<T>, base: Seq<u128>, ids: Seq<u128>, upto: int, k: u128)
    requires
        spec_keys_cover(m, base, ids, upto),
    ensures
        m.spec_keys().contains(k) <==> (base.contains(k) || ids.subrange(0, upto).contains(k)),
{
}

/// True when `m` is `m0` with the first `upto` ids of `rem` removed and
/// every remaining value unchanged.
pub open spec fn spec_submap_minus<T>(m: IdMap<T>, m0: IdMap<T>, rem: Seq<u128>, upto: int) -> bool {
    &&& forall|k: u128|
        #![trigger m@.contains_key(k)]
        #![trigger m0@.contains_key(k)]
        m@.contains_key(k) <==> (m0@.contains_key(k) && !rem.subrange(0, upto).contains(k))
    &&& forall|k: u128| #[trigger] m@.contains_key(k) ==> m@[k] == m0@[k]
}

/// Unfold `spec_submap_minus` at one key.
pub proof fn lemma_submap_minus_elim<T>(m: IdMap<T>, m0: IdMap<T>, rem: Seq<u128>, upto: int, k: u128)
    requires
        spec_submap_minus(m, m0, rem, upto),
    ensures
        m@.contains_key(k) <==> (m0@.contains_key(k) && !rem.subrange(0, upto).contains(k)),
        m@.contains_key(k) ==> m@[k] == m0@[k],
{
    if m@.contains_key(k) {
        assert(m@[k] == m0@[k]);
    }
}

/// An id-keyed map held as a sorted entry vector.
pub struct IdMap<T> {
    /// The entries, with strictly increasing keys.
    pub entries: Vec<(u128, T)>,
}

impl<T> View for IdMap<T> {
    type V = Map<u128, T>;

    open spec fn view(&self) -> Map<u128, T> {
        Map::new(
            |k: u128| spec_has_key(self.entries@, k),
            |k: u128| self.entries@[spec_key_index(self.entries@, k)].1,
        )
    }
}

impl<T> IdMap<T> {
    /// Well-formed: keys strictly increasing.
    pub open spec fn wf(self) -> bool {
        entries_sorted(self.entries@)
    }

    /// The keys, in increasing order.
    pub open spec fn spec_keys(self) -> Seq<u128> {
        Seq::new(self.entries@.len(), |i: int| self.entries@[i].0)
    }

    /// The number of entries.
    pub open spec fn spec_len(self) -> nat {
        self.entries@.len()
    }

    /// In a well-formed map the entry index of a present key is unique.
    pub proof fn lemma_key_index(self, i: int, k: u128)
        requires
            self.wf(),
            0 <= i < self.entries@.len(),
            self.entries@[i].0 == k,
        ensures
            spec_key_index(self.entries@, k) == i,
            self@.contains_key(k),
            self@[k] == self.entries@[i].1,
    {
        let j = spec_key_index(self.entries@, k);
        assert(0 <= j < self.entries@.len() && self.entries@[j].0 == k);
        if i < j {
            assert(self.entries@[i].0 < self.entries@[j].0);
        } else if j < i {
            assert(self.entries@[j].0 < self.entries@[i].0);
        }
    }

    /// The sorted key sequence holds `x` exactly when some entry does.
    pub proof fn lemma_keys_contains(self, x: u128)
        ensures
            self.spec_keys().contains(x) == spec_has_key(self.entries@, x),
    {
        if spec_has_key(self.entries@, x) {
            let ix = choose|i: int| 0 <= i < self.entries@.len() && self.entries@[i].0 == x;
            assert(self.spec_keys()[ix] == x);
            assert(self.spec_keys().contains(x));
        }
        if self.spec_keys().contains(x) {
            let ix = choose|i: int|
                0 <= i < self.spec_keys().len() && self.spec_keys()[i] == x;
            assert(self.entries@[ix].0 == x);
            assert(spec_has_key(self.entries@, x));
        }
    }

    /// An empty map.
    pub fn new() -> (r: Self)
        ensures
            r.wf(),
            r@ == Map::<u128, T>::empty(),
            r.spec_len() == 0,
    {
        let r = IdMap { entries: Vec::new() };
        proof {
            assert(r@ =~= Map::<u128, T>::empty());
        }
        r
    }

    /// The number of entries.
    pub fn len(&self) -> (r: usize)
        ensures
            r == self.spec_len(),
    {
        self.entries.len()
    }

    /// Whether key `k` is present.
    pub fn contains_key(&self, k: u128) -> (r: bool)
        requires
            self.wf(),
        ensures
            r == self@.contains_key(k),
    {
        let mut i: usize = 0;
        while i < self.entries.len()
            invariant
                self.wf(),
                i <= self.entries@.len(),
                forall|j: int| 0 <= j < i ==> self.entries@[j].0 != k,
            decreases self.entries@.len() - i,
        {
            if self.entries[i].0 == k {
                proof {
                    self.lemma_key_index(i as int, k);
                }
                return true;
            }
            i = i + 1;
        }
        false
    }

    /// The value under key `k`, if present.
    pub fn get(&self, k: u128) -> (r: Option<&T>)
        requires
            self.wf(),
        ensures
            match r {
                Some(v) => self@.contains_key(k) && *v == self@[k],
                None => !self@.contains_key(k),
            },
    {
        let mut i: usize = 0;
        while i < self.entries.len()
            invariant
                self.wf(),
                i <= self.entries@.len(),
                forall|j: int| 0 <= j < i ==> self.entries@[j].0 != k,
            decreases self.entries@.len() - i,
        {
            if self.entries[i].0 == k {
                proof {
                    self.lemma_key_index(i as int, k);
                }
                return Some(&self.entries[i].1);
            }
            i = i + 1;
        }
        None
    }

    /// The key of the entry at position `i` in sorted order.
    pub fn key_at(&self, i: usize) -> (r: u128)
        requires
            self.wf(),
            i < self.spec_len(),
        ensures
            r == self.spec_keys()[i as int],
            self@.contains_key(r),
            self@[r] == self.entries@[i as int].1,
    {
        proof {
            self.lemma_key_index(i as int, self.entries@[i as int].0);
        }
        self.entries[i].0
    }

    /// The value of the entry at position `i` in sorted order.
    pub fn value_at(&self, i: usize) -> (r: &T)
        requires
            self.wf(),
            i < self.spec_len(),
        ensures
            *r == self@[self.spec_keys()[i as int]],
    {
        proof {
            self.lemma_key_index(i as int, self.entries@[i as int].0);
        }
        &self.entries[i].1
    }

    /// Store `v` under `k`, replacing any previous value.
    pub fn insert(&mut self, k: u128, v: T)
        requires
            old(self).wf(),
        ensures
            final(self).wf(),
            final(self)@ == old(self)@.insert(k, v),
            forall|x: u128|
                final(self).spec_keys().contains(x) <==> (old(self).spec_keys().contains(x) || x
                    == k),
            final(self).spec_len() == if old(self)@.contains_key(k) {
                old(self).spec_len()
            } else {
                old(self).spec_len() + 1
            },
    {
        let ghost s0 = self.entries@;
        let mut i: usize = 0;
        while i < self.entries.len() && self.entries[i].0 < k
            invariant
                entries_sorted(s0),
                self.entries@ == s0,
                i <= s0.len(),
                forall|j: int| 0 <= j < i ==> s0[j].0 < k,
            decreases s0.len() - i,
        {
            i = i + 1;
        }
        // Here: entries before i have keys < k; entry at i (if any) has key >= k.
        if i < self.entries.len() && self.entries[i].0 == k {
            proof {
                self.lemma_key_index(i as int, k);
            }
            self.entries[i] = (k, v);
            proof {
                let s1 = self.entries@;
                assert forall|x: u128| spec_has_key(s1, x) implies spec_has_key(s0, x) by {
                    let ix = choose|ix: int| 0 <= ix < s1.len() && s1[ix].0 == x;
                    assert(s0[ix].0 == x || ix == i);
                    assert(spec_has_key(s0, x));
                }
                assert forall|x: u128| spec_has_key(s0, x) implies spec_has_key(s1, x) by {
                    let ix = choose|ix: int| 0 <= ix < s0.len() && s0[ix].0 == x;
                    assert(s1[ix].0 == x || ix == i);
                }
                assert(self.wf());
                assert forall|x: u128| self@.contains_key(x) implies self@[x] == old(self)@.insert(
                    k,
                    v,
                )[x] by {
                    let ix = spec_key_index(s1, x);
                    assert(0 <= ix < s1.len() && s1[ix].0 == x);
                    if x == k {
                        self.lemma_key_index(i as int, k);
                    } else {
                        assert(ix != i);
                        assert(s0[ix].0 == x);
                        old(self).lemma_key_index(ix, x);
                        self.lemma_key_index(ix, x);
                    }
                }
                assert(final(self)@ =~= old(self)@.insert(k, v));
                assert forall|x: u128|
                    (final(self).spec_keys().contains(x) <==> (old(self).spec_keys().contains(x)
                        || x == k)) by {
                    old(self).lemma_keys_contains(x);
                    self.lemma_keys_contains(x);
                    if x == k {
                        assert(spec_has_key(s1, k));
                    }
                }
                old(self).lemma_key_index(i as int, k);
            }
        } else {
            proof {
                assert(!spec_has_key(s0, k)) by {
                    if spec_has_key(s0, k) {
                        let ix = spec_key_index(s0, k);
                        assert(0 <= ix < s0.len() && s0[ix].0 == k);
                        if ix < i as int {
                            assert(s0[ix].0 < k);
                        } else if i < s0.len() {
                            assert(s0[i as int].0 < s0[ix].0 || ix == i);
                        }
                    }
                };
                assert(!old(self)@.contains_key(k));
                s0.insert_ensures(i as int, (k, v));
            }
            self.entries.insert(i, (k, v));
            proof {
                let s1 = self.entries@;
                assert(s1 == s0.insert(i as int, (k, v)));
                assert(s1[i as int] == (k, v));
                assert(self.wf()) by {
                    assert forall|a: int, b: int| 0 <= a < b < s1.len() implies s1[a].0 < s1[b].0 by {
                        if a < i as int {
                            assert(s1[a] == s0[a]);
                        }
                        if b < i as int {
                            assert(s1[b] == s0[b]);
                        }
                        if a > i as int {
                            assert(s1[a] == s0[a - 1]);
                        }
                        if b > i as int {
                            assert(s1[b] == s0[b - 1]);
                        }
                        if a == i as int && b > i as int {
                            // s1[b] == s0[b-1], and s0[b-1].0 >= k since b-1 >= i
                            assert(s0[b - 1].0 >= k) by {
                                if b - 1 > i as int {
                                    assert(s0[i as int].0 < s0[b - 1].0);
                                }
                            }
                        }
                        if b == i as int {
                            assert(s0[a].0 < k);
                        }
                    }
                };
                assert forall|x: u128| spec_has_key(s1, x) implies (spec_has_key(s0, x) || x
                    == k) by {
                    let ix = choose|ix: int| 0 <= ix < s1.len() && s1[ix].0 == x;
                    if ix < i as int {
                        assert(s0[ix].0 == x);
                    } else if ix > i as int {
                        assert(s0[ix - 1].0 == x);
                    }
                }
                assert forall|x: u128| spec_has_key(s0, x) implies spec_has_key(s1, x) by {
                    let ix = choose|ix: int| 0 <= ix < s0.len() && s0[ix].0 == x;
                    if ix < i as int {
                        assert(s1[ix].0 == x);
                    } else {
                        assert(s1[ix + 1].0 == x);
                    }
                }
                assert(spec_has_key(s1, k));
                assert forall|x: u128| self@.contains_key(x) implies self@[x] == old(self)@.insert(
                    k,
                    v,
                )[x] by {
                    let ix = spec_key_index(s1, x);
                    assert(0 <= ix < s1.len() && s1[ix].0 == x);
                    if x == k {
                        self.lemma_key_index(i as int, k);
                    } else {
                        assert(ix != i as int);
                        if ix < i as int {
                            assert(s0[ix].0 == x);
                            old(self).lemma_key_index(ix, x);
                            self.lemma_key_index(ix, x);
                        } else {
                            assert(s0[ix - 1].0 == x);
                            old(self).lemma_key_index(ix - 1, x);
                            self.lemma_key_index(ix, x);
                        }
                    }
                }
                assert(final(self)@ =~= old(self)@.insert(k, v));
                assert forall|x: u128|
                    (final(self).spec_keys().contains(x) <==> (old(self).spec_keys().contains(x)
                        || x == k)) by {
                    old(self).lemma_keys_contains(x);
                    self.lemma_keys_contains(x);
                }
            }
        }
    }

    /// Remove the entry under `k`, if any.
    pub fn remove(&mut self, k: u128)
        requires
            old(self).wf(),
        ensures
            final(self).wf(),
            final(self)@ == old(self)@.remove(k),
            forall|x: u128|
                final(self).spec_keys().contains(x) <==> (old(self).spec_keys().contains(x) && x
                    != k),
            final(self).spec_len() == if old(self)@.contains_key(k) {
                (old(self).spec_len() - 1) as nat
            } else {
                old(self).spec_len()
            },
    {
        let ghost s0 = self.entries@;
        let mut i: usize = 0;
        while i < self.entries.len()
            invariant
                entries_sorted(s0),
                self.entries@ == s0,
                old(self).entries@ == s0,
                i <= s0.len(),
                forall|j: int| 0 <= j < i ==> s0[j].0 != k,
            decreases s0.len() - i,
        {
            if self.entries[i].0 == k {
                proof {
                    self.lemma_key_index(i as int, k);
                    s0.remove_ensures(i as int);
                }
                self.entries.remove(i);
                proof {
                    let s1 = self.entries@;
                    assert(s1 == s0.remove(i as int));
                    assert(self.wf()) by {
                        assert forall|a: int, b: int| 0 <= a < b < s1.len() implies s1[a].0
                            < s1[b].0 by {
                            if a < i as int {
                                assert(s1[a] == s0[a]);
                            } else {
                                assert(s1[a] == s0[a + 1]);
                            }
                            if b < i as int {
                                assert(s1[b] == s0[b]);
                            } else {
                                assert(s1[b] == s0[b + 1]);
                            }
                        }
                    };
                    assert forall|x: u128| spec_has_key(s1, x) implies (spec_has_key(s0, x) && x
                        != k) by {
                        let ix = choose|ix: int| 0 <= ix < s1.len() && s1[ix].0 == x;
                        if ix < i as int {
                            assert(s0[ix].0 == x);
                            if x == k {
                                old(self).lemma_key_index(ix, k);
                            }
                        } else {
                            assert(s0[ix + 1].0 == x);
                            if x == k {
                                old(self).lemma_key_index(ix + 1, k);
                            }
                        }
                    }
                    assert forall|x: u128| spec_has_key(s0, x) && x != k implies spec_has_key(
                        s1,
                        x,
                    ) by {
                        let ix = choose|ix: int| 0 <= ix < s0.len() && s0[ix].0 == x;
                        assert(ix != i);
                        if ix < i as int {
                            assert(s1[ix].0 == x);
                        } else {
                            assert(s1[ix - 1].0 == x);
                        }
                    }
                    assert forall|x: u128| self@.contains_key(x) implies self@[x] == old(
                        self,
                    )@.remove(k)[x] by {
                        let ix = spec_key_index(s1, x);
                        assert(0 <= ix < s1.len() && s1[ix].0 == x);
                        if ix < i as int {
                            old(self).lemma_key_index(ix, x);
                            self.lemma_key_index(ix, x);
                        } else {
                            old(self).lemma_key_index(ix + 1, x);
                            self.lemma_key_index(ix, x);
                        }
                    }
                    assert(final(self)@ =~= old(self)@.remove(k));
                    assert forall|x: u128|
                        (final(self).spec_keys().contains(x) <==> (old(
                            self,
                        ).spec_keys().contains(x) && x != k)) by {
                        old(self).lemma_keys_contains(x);
                        self.lemma_keys_contains(x);
                    }
                }
                return ;
            }
            i = i + 1;
        }
        proof {
            assert(!spec_has_key(s0, k));
            assert(final(self)@ =~= old(self)@.remove(k));
            assert forall|x: u128|
                (final(self).spec_keys().contains(x) <==> (old(self).spec_keys().contains(x) && x
                    != k)) by {
                old(self).lemma_keys_contains(x);
                self.lemma_keys_contains(x);
                if x == k {
                    assert(!spec_has_key(s0, k));
                }
            }
        }
    }

    /// The keys in increasing order, as a vector.
    pub fn keys(&self) -> (r: Vec<u128>)
        requires
            self.wf(),
        ensures
            r@ == self.spec_keys(),
    {
        let mut r: Vec<u128> = Vec::new();
        let mut i: usize = 0;
        while i < self.entries.len()
            invariant
                i <= self.entries@.len(),
                r@.len() == i,
                forall|j: int| 0 <= j < i ==> r@[j] == self.entries@[j].0,
            decreases self.entries@.len() - i,
        {
            r.push(self.entries[i].0);
            i = i + 1;
        }
        proof {
            assert(r@ =~= self.spec_keys());
        }
        r
    }
}

} // verus!

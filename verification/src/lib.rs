//! An on-chain liquidation keeper for a collateralized-debt lending protocol.
//!
//! The crate holds the keeper's decision logic as verified code over plain
//! values: vault tracking, the immutable data cache, the liquidation and
//! auction engine, the gas-escalation policy, batched-call planning, and the
//! persisted-state codec.  All ledger I/O (remote reads, transaction
//! submission, event queries), the swap-routing subprocess and the file system
//! stay outside the library; callers perform them and hand the results back as
//! plain values.
use vstd::prelude::*;

pub mod escalator;
pub mod idmap;
pub mod types;
pub mod cache;
pub mod errors;
pub mod borrowers;
pub mod liquidations;
pub mod keeper;
pub mod persist;
pub mod swap_router;

verus! {

/// True when the ids are strictly increasing (hence sorted and duplicate-free).
pub open spec fn ids_sorted(s: Seq<u128>) -> bool {
    forall|i: int, j: int| 0 <= i < j < s.len() ==> s[i] < s[j]
}

/// Two strictly sorted id sequences with the same members are the same
/// sequence.
pub proof fn lemma_ids_sorted_unique(s1: Seq<u128>, s2: Seq<u128>)
    requires
        ids_sorted(s1),
        ids_sorted(s2),
        forall|x: u128| s1.contains(x) <==> s2.contains(x),
    ensures
        s1 == s2,
    decreases s1.len(),
{
    if s1.len() == 0 {
        if s2.len() > 0 {
            assert(s2.contains(s2[0]));
        }
        assert(s1 =~= s2);
    } else {
        assert(s1.contains(s1[0]));
        assert(s2.contains(s1[0]));
        let a = s1[0];
        let b = s2[0];
        let ia = choose|i: int| 0 <= i < s2.len() && s2[i] == a;
        assert(b <= a) by {
            if ia > 0 {
                assert(s2[0] < s2[ia]);
            }
        }
        assert(s1.contains(b)) by {
            assert(s2.contains(b));
        }
        let ib = choose|i: int| 0 <= i < s1.len() && s1[i] == b;
        assert(a <= b) by {
            if ib > 0 {
                assert(s1[0] < s1[ib]);
            }
        }
        assert(a == b);
        let t1 = s1.subrange(1, s1.len() as int);
        let t2 = s2.subrange(1, s2.len() as int);
        assert(ids_sorted(t1)) by {
            assert(forall|i: int, j: int|
                0 <= i < j < t1.len() ==> t1[i] == s1[i + 1] && t1[j] == s1[j + 1]);
        }
        assert(ids_sorted(t2)) by {
            assert(forall|i: int, j: int|
                0 <= i < j < t2.len() ==> t2[i] == s2[i + 1] && t2[j] == s2[j + 1]);
        }
        assert forall|x: u128| (t1.contains(x) <==> t2.contains(x)) by {
            if t1.contains(x) {
                let i = choose|i: int| 0 <= i < t1.len() && t1[i] == x;
                assert(s1[i + 1] == x);
                assert(s1.contains(x));
                assert(s2.contains(x));
                let j = choose|j: int| 0 <= j < s2.len() && s2[j] == x;
                assert(x > a) by {
                    assert(s1[0] < s1[i + 1]);
                }
                assert(j > 0) by {
                    if j == 0 {
                        assert(s2[0] == x);
                    }
                }
                assert(t2[j - 1] == x);
                assert(t2.contains(x));
            }
            if t2.contains(x) {
                let i = choose|i: int| 0 <= i < t2.len() && t2[i] == x;
                assert(s2[i + 1] == x);
                assert(s2.contains(x));
                assert(s1.contains(x));
                let j = choose|j: int| 0 <= j < s1.len() && s1[j] == x;
                assert(x > a) by {
                    assert(s2[0] < s2[i + 1]);
                }
                assert(j > 0) by {
                    if j == 0 {
                        assert(s1[0] == x);
                    }
                }
                assert(t1[j - 1] == x);
                assert(t1.contains(x));
            }
        }
        lemma_ids_sorted_unique(t1, t2);
        assert(s1 =~= s2) by {
            assert(s1.len() == t1.len() + 1);
            assert(s2.len() == t2.len() + 1);
            assert(forall|i: int| 1 <= i < s1.len() ==> s1[i] == t1[i - 1] && s2[i] == t2[i - 1]);
        }
    }
}

/// Insert `x` into a sorted, duplicate-free id vector, keeping it so.
fn insert_sorted(r: &mut Vec<u128>, x: u128)
    requires
        ids_sorted(old(r)@),
    ensures
        ids_sorted(final(r)@),
        forall|y: u128| final(r)@.contains(y) <==> (old(r)@.contains(y) || y == x),
{
    let ghost s0 = r@;
    let mut i: usize = 0;
    while i < r.len() && r[i] < x
        invariant
            ids_sorted(s0),
            r@ == s0,
            i <= s0.len(),
            forall|j: int| 0 <= j < i ==> s0[j] < x,
        decreases s0.len() - i,
    {
        i = i + 1;
    }
    if i < r.len() && r[i] == x {
        // already present
        proof {
            assert(s0[i as int] == x);
            assert(forall|y: u128| final(r)@.contains(y) <==> (old(r)@.contains(y) || y == x));
        }
    } else {
        proof {
            s0.insert_ensures(i as int, x);
        }
        r.insert(i, x);
        proof {
            let s1 = r@;
            assert(ids_sorted(s1)) by {
                assert forall|a: int, b: int| 0 <= a < b < s1.len() implies s1[a] < s1[b] by {
                    if a == i as int && b > i as int {
                        assert(s1[b] == s0[b - 1]);
                        assert(s0[b - 1] >= x) by {
                            if b - 1 > i as int {
                                assert(s0[i as int] < s0[b - 1]);
                            }
                        }
                        assert(s0[b - 1] != x);
                    }
                }
            };
            assert forall|y: u128| (s1.contains(y) <==> (s0.contains(y) || y == x)) by {
                if s1.contains(y) {
                    let ix = choose|ix: int| 0 <= ix < s1.len() && s1[ix] == y;
                    if ix < i as int {
                        assert(s0[ix] == y);
                    } else if ix > i as int {
                        assert(s0[ix - 1] == y);
                    }
                }
                if s0.contains(y) {
                    let ix = choose|ix: int| 0 <= ix < s0.len() && s0[ix] == y;
                    if ix < i as int {
                        assert(s1[ix] == y);
                    } else {
                        assert(s1[ix + 1] == y);
                    }
                }
                assert(s1[i as int] == x);
            }
        }
    }
}

/// The sorted, duplicate-free union of the ids in `a` and the keys of `b`.
///
/// Discovery merges freshly observed ids with the ids already tracked, so the
/// working set is idempotent under overlapping scan ranges and restarts.
pub fn merge<T>(a: Vec<u128>, b: &idmap::IdMap<T>) -> (r: Vec<u128>)
    requires
        b.wf(),
    ensures
        ids_sorted(r@),
        forall|y: u128| r@.contains(y) <==> (a@.contains(y) || b.spec_keys().contains(y)),
{
    let mut r: Vec<u128> = b.keys();
    proof {
        assert(forall|i: int, j: int|
            0 <= i < j < r@.len() ==> b.entries@[i].0 < b.entries@[j].0);
        assert(ids_sorted(r@));
    }
    let mut i: usize = 0;
    while i < a.len()
        invariant
            ids_sorted(r@),
            i <= a@.len(),
            forall|y: u128|
                r@.contains(y) <==> (a@.subrange(0, i as int).contains(y)
                    || b.spec_keys().contains(y)),
        decreases a@.len() - i,
    {
        let x = a[i];
        insert_sorted(&mut r, x);
        proof {
            assert forall|y: u128|
                (a@.subrange(0, i + 1 as int).contains(y) <==> (a@.subrange(
                    0,
                    i as int,
                ).contains(y) || y == x)) by {
                let s = a@.subrange(0, i as int);
                let t = a@.subrange(0, i + 1 as int);
                if t.contains(y) {
                    let ix = choose|ix: int| 0 <= ix < t.len() && t[ix] == y;
                    if ix < i as int {
                        assert(s[ix] == y);
                    } else {
                        assert(y == a@[i as int]);
                    }
                }
                if s.contains(y) {
                    let ix = choose|ix: int| 0 <= ix < s.len() && s[ix] == y;
                    assert(t[ix] == y);
                }
                if y == x {
                    assert(t[i as int] == y);
                }
            }
            assert forall|y: u128|
                (r@.contains(y) <==> (a@.subrange(0, i + 1 as int).contains(y)
                    || b.spec_keys().contains(y))) by {
                assert(a@.subrange(0, i + 1 as int).contains(y) <==> (a@.subrange(
                    0,
                    i as int,
                ).contains(y) || y == x));
            }
        }
        i = i + 1;
    }
    proof {
        assert(a@.subrange(0, a@.len() as int) =~= a@);
    }
    r
}

} // verus!

//! Sequences of entries keyed by a 32-byte hash: the shape of every
//! content-addressed store in this crate, with the replacing-append that
//! updates one.

use vstd::prelude::*;

verus! {

/// True when the sequence of keyed entries holds `h`.
pub open spec fn contains_key<T>(s: Seq<([u8; 32], T)>, h: Seq<u8>) -> bool {
    exists|i: int| 0 <= i < s.len() && (#[trigger] s[i]).0@ == h
}

/// The index at which the sequence holds `h`; meaningful under distinct keys.
pub open spec fn index_of_key<T>(s: Seq<([u8; 32], T)>, h: Seq<u8>) -> int {
    choose|i: int| 0 <= i < s.len() && (#[trigger] s[i]).0@ == h
}

/// True when no two entries carry the same key.
pub open spec fn distinct_keys<T>(s: Seq<([u8; 32], T)>) -> bool {
    forall|i: int, j: int|
        0 <= i < j < s.len() ==> (#[trigger] s[i]).0@ != (#[trigger] s[j]).0@
}

/// Under distinct keys, the entry at `i` is found at its own key.
pub proof fn lemma_index_of_key<T>(s: Seq<([u8; 32], T)>, i: int)
    requires
        distinct_keys(s),
        0 <= i < s.len(),
    ensures
        contains_key(s, s[i].0@),
        index_of_key(s, s[i].0@) == i,
{
    assert(contains_key(s, s[i].0@));
    let j = index_of_key(s, s[i].0@);
    if j != i {
        if j < i {
            assert(s[j].0@ != s[i].0@);
        } else {
            assert(s[i].0@ != s[j].0@);
        }
        assert(false);
    }
}

/// Replacing-or-appending an entry: the new sequence keeps every other entry
/// where it can be found, stays distinct, and finds `v` under `k`.
pub proof fn lemma_upsert<T>(s0: Seq<([u8; 32], T)>, s1: Seq<([u8; 32], T)>, k: [u8; 32], v: T)
    requires
        distinct_keys(s0),
        contains_key(s0, k@) ==> s1 == s0.remove(index_of_key(s0, k@)).push((k, v)),
        !contains_key(s0, k@) ==> s1 == s0.push((k, v)),
    ensures
        distinct_keys(s1),
        contains_key(s1, k@),
        s1[index_of_key(s1, k@)] == (k, v),
        forall|x: Seq<u8>| x != k@ ==> (contains_key(s1, x) <==> contains_key(s0, x)),
        forall|x: Seq<u8>|
            x != k@ && contains_key(s0, x) ==> s1[index_of_key(s1, x)] == s0[index_of_key(s0, x)],
{
    if contains_key(s0, k@) {
        let i = index_of_key(s0, k@);
        assert(0 <= i < s0.len() && s0[i].0@ == k@);
        let rem = s0.remove(i);
        assert(s1.len() == s0.len());
        assert forall|j: int| 0 <= j < s0.len() - 1 implies #[trigger] rem[j] == (if j < i {
            s0[j]
        } else {
            s0[j + 1]
        }) by {}
        assert forall|a: int, b: int| 0 <= a < b < s1.len() implies (#[trigger] s1[a]).0@ != (
        #[trigger] s1[b]).0@ by {
            if b == s1.len() - 1 {
                let a0 = if a < i {
                    a
                } else {
                    a + 1
                };
                assert(s1[a] == s0[a0]);
                assert(a0 != i);
                assert(s0[a0].0@ != s0[i].0@);
            } else {
                let a0 = if a < i {
                    a
                } else {
                    a + 1
                };
                let b0 = if b < i {
                    b
                } else {
                    b + 1
                };
                assert(s1[a] == s0[a0]);
                assert(s1[b] == s0[b0]);
                assert(s0[a0].0@ != s0[b0].0@);
            }
        }
        assert(s1[s1.len() - 1] == (k, v));
        lemma_index_of_key(s1, s1.len() - 1);
        assert forall|x: Seq<u8>| x != k@ implies (contains_key(s1, x) <==> contains_key(
            s0,
            x,
        )) by {
            if contains_key(s1, x) {
                let j = choose|j: int| 0 <= j < s1.len() && (#[trigger] s1[j]).0@ == x;
                assert(j < s1.len() - 1);
                let j0 = if j < i {
                    j
                } else {
                    j + 1
                };
                assert(s0[j0].0@ == x);
            }
            if contains_key(s0, x) {
                let j0 = choose|j: int| 0 <= j < s0.len() && (#[trigger] s0[j]).0@ == x;
                assert(j0 != i);
                let j = if j0 < i {
                    j0
                } else {
                    j0 - 1
                };
                assert(s1[j].0@ == x);
            }
        }
        assert forall|x: Seq<u8>| x != k@ && contains_key(s0, x) implies s1[index_of_key(s1, x)]
            == s0[index_of_key(s0, x)] by {
            let j0 = index_of_key(s0, x);
            assert(0 <= j0 < s0.len() && s0[j0].0@ == x);
            assert(j0 != i);
            let j = if j0 < i {
                j0
            } else {
                j0 - 1
            };
            assert(s1[j] == s0[j0]);
            lemma_index_of_key(s1, j);
        }
    } else {
        assert forall|j: int| 0 <= j < s0.len() implies (#[trigger] s0[j]).0@ != k@ by {
            if s0[j].0@ == k@ {
                assert(contains_key(s0, k@));
            }
        }
        assert forall|a: int, b: int| 0 <= a < b < s1.len() implies (#[trigger] s1[a]).0@ != (
        #[trigger] s1[b]).0@ by {
            if b == s1.len() - 1 {
                assert(s1[a] == s0[a]);
            } else {
                assert(s1[a] == s0[a]);
                assert(s1[b] == s0[b]);
            }
        }
        assert(s1[s1.len() - 1] == (k, v));
        lemma_index_of_key(s1, s1.len() - 1);
        assert forall|x: Seq<u8>| x != k@ implies (contains_key(s1, x) <==> contains_key(
            s0,
            x,
        )) by {
            if contains_key(s1, x) {
                let j = choose|j: int| 0 <= j < s1.len() && (#[trigger] s1[j]).0@ == x;
                assert(j < s1.len() - 1);
                assert(s0[j].0@ == x);
            }
            if contains_key(s0, x) {
                let j = choose|j: int| 0 <= j < s0.len() && (#[trigger] s0[j]).0@ == x;
                assert(s1[j].0@ == x);
            }
        }
        assert forall|x: Seq<u8>| x != k@ && contains_key(s0, x) implies s1[index_of_key(s1, x)]
            == s0[index_of_key(s0, x)] by {
            let j0 = index_of_key(s0, x);
            assert(0 <= j0 < s0.len() && s0[j0].0@ == x);
            assert(s1[j0] == s0[j0]);
            lemma_index_of_key(s1, j0);
        }
    }
}


} // verus!

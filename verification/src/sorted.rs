//! Strictly increasing vectors used as sets.
use vstd::prelude::*;

verus! {

/// The sequence is strictly increasing.
pub open spec fn strictly_increasing(s: Seq<usize>) -> bool {
    forall|i: int, j: int| 0 <= i < j < s.len() ==> s[i] < s[j]
}

/// Lexicographic order of pairs.
pub open spec fn pair_lt(a: (usize, usize), b: (usize, usize)) -> bool {
    a.0 < b.0 || (a.0 == b.0 && a.1 < b.1)
}

/// The sequence of pairs is strictly increasing in lexicographic order.
pub open spec fn pairs_strictly_increasing(s: Seq<(usize, usize)>) -> bool {
    forall|i: int, j: int| 0 <= i < j < s.len() ==> pair_lt(s[i], s[j])
}

/// Inserts `x` into a strictly increasing vector unless it is already there.
pub fn insert_sorted(v: &mut Vec<usize>, x: usize)
    requires
        strictly_increasing(old(v)@),
    ensures
        strictly_increasing(final(v)@),
        forall|y: usize| final(v)@.contains(y) <==> (old(v)@.contains(y) || y == x),
{
    let mut i: usize = 0;
    while i < v.len() && v[i] < x
        invariant
            i <= v@.len(),
            v@ == old(v)@,
            strictly_increasing(v@),
            forall|j: int| 0 <= j < i ==> v@[j] < x,
        decreases v@.len() - i,
    {
        i = i + 1;
    }
    if i < v.len() && v[i] == x {
        return;
    }
    v.insert(i, x);
    proof {
        assert forall|y: usize| v@.contains(y) <==> (old(v)@.contains(y) || y == x) by {
            if v@.contains(y) {
                let k = choose|k: int| 0 <= k < v@.len() && v@[k] == y;
                if k < i {
                    assert(old(v)@[k] == y);
                } else if k > i {
                    assert(old(v)@[k - 1] == y);
                }
            }
            if old(v)@.contains(y) {
                let k = choose|k: int| 0 <= k < old(v)@.len() && old(v)@[k] == y;
                if k < i {
                    assert(v@[k] == y);
                } else {
                    assert(v@[k + 1] == y);
                }
            }
            if y == x {
                assert(v@[i as int] == y);
            }
        }
    }
}

/// Inserts `x` into a strictly increasing vector of pairs unless it is already there.
pub fn insert_sorted_pair(v: &mut Vec<(usize, usize)>, x: (usize, usize))
    requires
        pairs_strictly_increasing(old(v)@),
    ensures
        pairs_strictly_increasing(final(v)@),
        forall|y: (usize, usize)| final(v)@.contains(y) <==> (old(v)@.contains(y) || y == x),
{
    let mut i: usize = 0;
    while i < v.len() && (v[i].0 < x.0 || (v[i].0 == x.0 && v[i].1 < x.1))
        invariant
            i <= v@.len(),
            v@ == old(v)@,
            pairs_strictly_increasing(v@),
            forall|j: int| 0 <= j < i ==> pair_lt(v@[j], x),
        decreases v@.len() - i,
    {
        i = i + 1;
    }
    if i < v.len() && v[i].0 == x.0 && v[i].1 == x.1 {
        assert(v@[i as int] == x);
        return;
    }
    proof {
        if i < v@.len() {
            assert(pair_lt(x, v@[i as int]));
            assert forall|j: int| i <= j < v@.len() implies pair_lt(x, #[trigger] v@[j]) by {
                if j > i {
                    assert(pair_lt(v@[i as int], v@[j]));
                }
            }
        }
    }
    v.insert(i, x);
    proof {
        assert forall|a: int, b: int| 0 <= a < b < v@.len() implies pair_lt(v@[a], v@[b]) by {
            if a < i && b == i {
            } else if a < i && b > i {
                assert(v@[b] == old(v)@[b - 1]);
                assert(pair_lt(old(v)@[a], x));
            } else if a == i {
                assert(v@[b] == old(v)@[b - 1]);
            } else if a > i {
                assert(v@[a] == old(v)@[a - 1]);
                assert(v@[b] == old(v)@[b - 1]);
            }
        }
        assert forall|y: (usize, usize)| v@.contains(y) <==> (old(v)@.contains(y) || y == x) by {
            if v@.contains(y) {
                let k = choose|k: int| 0 <= k < v@.len() && v@[k] == y;
                if k < i {
                    assert(old(v)@[k] == y);
                } else if k > i {
                    assert(old(v)@[k - 1] == y);
                }
            }
            if old(v)@.contains(y) {
                let k = choose|k: int| 0 <= k < old(v)@.len() && old(v)@[k] == y;
                if k < i {
                    assert(v@[k] == y);
                } else {
                    assert(v@[k + 1] == y);
                }
            }
            if y == x {
                assert(v@[i as int] == y);
            }
        }
    }
}

} // verus!

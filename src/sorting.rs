//! Participant indices in canonical order.
use vstd::prelude::*;

verus! {

/// The sequence is strictly ascending.
pub open spec fn strictly_ascending(s: Seq<u32>) -> bool {
    forall|i: int, j: int| 0 <= i < j < s.len() ==> s[i] < s[j]
}

/// No value occurs twice in the sequence.
pub open spec fn all_distinct(s: Seq<u32>) -> bool {
    forall|i: int, j: int| 0 <= i < j < s.len() ==> s[i] != s[j]
}

/// Whether no value occurs twice in `v`.
pub fn has_no_duplicates(v: &[u32]) -> (r: bool)
    ensures
        r == all_distinct(v@),
{
    let mut i: usize = 0;
    while i < v.len()
        invariant
            0 <= i <= v@.len(),
            forall|a: int, b: int| 0 <= a < b < v@.len() && a < i ==> v@[a] != v@[b],
        decreases v@.len() - i,
    {
        let mut j: usize = i + 1;
        while j < v.len()
            invariant
                i < j <= v@.len(),
                i < v@.len(),
                forall|a: int, b: int| 0 <= a < b < v@.len() && a < i ==> v@[a] != v@[b],
                forall|b: int| i < b < j ==> v@[i as int] != v@[b],
            decreases v@.len() - j,
        {
            if v[i] == v[j] {
                return false;
            }
            j = j + 1;
        }
        i = i + 1;
    }
    true
}

/// The distinct values of `v` in ascending order.
pub fn sorted_unique(v: &Vec<u32>) -> (r: Vec<u32>)
    ensures
        strictly_ascending(r@),
        forall|x: u32| v@.contains(x) <==> r@.contains(x),
{
    let mut r: Vec<u32> = Vec::new();
    let mut i: usize = 0;
    while i < v.len()
        invariant
            0 <= i <= v@.len(),
            strictly_ascending(r@),
            forall|x: u32| (exists|k: int| 0 <= k < i && v@[k] == x) <==> r@.contains(x),
        decreases v@.len() - i,
    {
        let x = v[i];
        let mut p: usize = 0;
        while p < r.len() && r[p] < x
            invariant
                0 <= p <= r@.len(),
                strictly_ascending(r@),
                forall|k: int| 0 <= k < p ==> r@[k] < x,
            decreases r@.len() - p,
        {
            p = p + 1;
        }
        let ghost old_r = r@;
        if p < r.len() && r[p] == x {
        } else {
            r.insert(p, x);
            assert forall|a: int, b: int| 0 <= a < b < r@.len() implies r@[a] < r@[b] by {
                if b < p {
                } else if a < p && b == p {
                } else if a < p {
                    assert(r@[b] == old_r[b - 1]);
                } else if a == p {
                    assert(r@[b] == old_r[b - 1]);
                    if b - 1 > p {
                        assert(old_r[p as int] < old_r[b - 1]);
                    }
                } else {
                    assert(r@[a] == old_r[a - 1]);
                    assert(r@[b] == old_r[b - 1]);
                }
            }
        }
        assert forall|y: u32| (exists|k: int| 0 <= k < i + 1 && v@[k] == y) <==> r@.contains(y) by {
            if exists|k: int| 0 <= k < i + 1 && v@[k] == y {
                let k = choose|k: int| 0 <= k < i + 1 && v@[k] == y;
                if k < i {
                    assert(0 <= k < i && v@[k] == y);
                    assert(old_r.contains(y));
                    let m = choose|m: int| 0 <= m < old_r.len() && old_r[m] == y;
                    if r@ != old_r {
                        if m < p {
                            assert(r@[m] == y);
                        } else {
                            assert(r@[m + 1] == y);
                        }
                    }
                } else {
                    if r@ != old_r {
                        assert(r@[p as int] == y);
                    } else {
                        assert(r@[p as int] == y);
                    }
                }
            }
            if r@.contains(y) {
                let m = choose|m: int| 0 <= m < r@.len() && r@[m] == y;
                if r@ != old_r && m == p {
                    assert(v@[i as int] == y);
                } else {
                    if r@ != old_r {
                        if m < p {
                            assert(old_r[m] == y);
                        } else {
                            assert(old_r[m - 1] == y);
                        }
                    } else {
                        assert(old_r[m] == y);
                    }
                    assert(old_r.contains(y));
                    let k = choose|k: int| 0 <= k < i && v@[k] == y;
                    assert(0 <= k < i + 1 && v@[k] == y);
                }
            }
        }
        i = i + 1;
    }
    assert forall|x: u32| v@.contains(x) <==> r@.contains(x) by {
        if v@.contains(x) {
            let k = choose|k: int| 0 <= k < v@.len() && v@[k] == x;
            assert(0 <= k < i && v@[k] == x);
        }
    }
    r
}

} // verus!

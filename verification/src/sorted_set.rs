//! Sorted lists of distinct integers: the values of a sequence in increasing
//! order, each once.
use vstd::prelude::*;

verus! {

/// Strictly increasing.
pub open spec fn increasing(v: Seq<int>) -> bool {
    forall|i: int, j: int| 0 <= i < j < v.len() ==> v[i] < v[j]
}

/// Two sequences hold the same values.
pub open spec fn same_members(a: Seq<int>, b: Seq<int>) -> bool {
    forall|x: int| a.contains(x) <==> b.contains(x)
}

/// The values of `s` in increasing order, each once.
pub open spec fn sorted_distinct(s: Seq<int>) -> Seq<int> {
    choose|v: Seq<int>| increasing(v) && same_members(v, s)
}

/// The integer values of a sequence of `i32`.
pub open spec fn ints(v: Seq<i32>) -> Seq<int> {
    v.map_values(|x: i32| x as int)
}

/// Two increasing sequences with the same values are equal.
pub proof fn lemma_increasing_unique(a: Seq<int>, b: Seq<int>)
    requires
        increasing(a),
        increasing(b),
        same_members(a, b),
    ensures
        a == b,
    decreases a.len(),
{
    if a.len() == 0 {
        if b.len() > 0 {
            assert(b.contains(b[0]));
            assert(a.contains(b[0]));
        }
        assert(a =~= b);
    } else {
        assert(a.contains(a[0]));
        assert(b.contains(a[0]));
        let j = choose|j: int| 0 <= j < b.len() && b[j] == a[0];
        assert(b.contains(b[0]));
        assert(a.contains(b[0]));
        let i = choose|i: int| 0 <= i < a.len() && a[i] == b[0];
        assert(a[0] <= a[i]);
        assert(b[0] <= b[j]);
        assert(a[0] == b[0]);
        let a2 = a.drop_first();
        let b2 = b.drop_first();
        assert forall|x: int| a2.contains(x) implies b2.contains(x) by {
            let k = choose|k: int| 0 <= k < a2.len() && a2[k] == x;
            assert(a[k + 1] == x);
            assert(a.contains(x));
            assert(b.contains(x));
            let l = choose|l: int| 0 <= l < b.len() && b[l] == x;
            assert(a[0] < a[k + 1]);
            assert(l != 0);
            assert(b2[l - 1] == x);
        }
        assert forall|x: int| b2.contains(x) implies a2.contains(x) by {
            let k = choose|k: int| 0 <= k < b2.len() && b2[k] == x;
            assert(b[k + 1] == x);
            assert(b.contains(x));
            assert(a.contains(x));
            let l = choose|l: int| 0 <= l < a.len() && a[l] == x;
            assert(b[0] < b[k + 1]);
            assert(l != 0);
            assert(a2[l - 1] == x);
        }
        assert(increasing(a2));
        assert(increasing(b2));
        lemma_increasing_unique(a2, b2);
        assert(a =~= seq![a[0]] + a2);
        assert(b =~= seq![b[0]] + b2);
    }
}

/// An increasing sequence with the values of `s` is its sorted distinct list.
pub proof fn lemma_sorted_distinct(v: Seq<int>, s: Seq<int>)
    requires
        increasing(v),
        same_members(v, s),
    ensures
        sorted_distinct(s) == v,
        increasing(sorted_distinct(s)),
        same_members(sorted_distinct(s), s),
{
    let w = sorted_distinct(s);
    assert(increasing(w) && same_members(w, s));
    assert(same_members(w, v));
    lemma_increasing_unique(w, v);
}

/// The number of leading values of `v` below `x`.
pub open spec fn count_below(v: Seq<int>, x: int) -> nat
    decreases v.len(),
{
    if v.len() == 0 {
        0
    } else if v[0] < x {
        1 + count_below(v.drop_first(), x)
    } else {
        0
    }
}

proof fn lemma_count_below(v: Seq<int>, x: int)
    requires
        increasing(v),
    ensures
        count_below(v, x) <= v.len(),
        forall|i: int| 0 <= i < count_below(v, x) ==> v[i] < x,
        forall|i: int| count_below(v, x) <= i < v.len() ==> v[i] >= x,
    decreases v.len(),
{
    if v.len() > 0 && v[0] < x {
        let t = v.drop_first();
        assert(increasing(t));
        lemma_count_below(t, x);
        assert forall|i: int| 0 <= i < count_below(v, x) implies v[i] < x by {
            if i > 0 {
                assert(v[i] == t[i - 1]);
            }
        }
        assert forall|i: int| count_below(v, x) <= i < v.len() implies v[i] >= x by {
            assert(v[i] == t[i - 1]);
        }
    } else if v.len() > 0 {
        assert forall|i: int| 0 <= i < v.len() implies v[i] >= x by {
            if i > 0 {
                assert(v[0] < v[i]);
            }
        }
    }
}

/// Every sequence of integers has a sorted distinct list: it increases and
/// holds exactly the values of the sequence.
pub proof fn lemma_sorted_distinct_exists(s: Seq<int>)
    ensures
        increasing(sorted_distinct(s)),
        same_members(sorted_distinct(s), s),
    decreases s.len(),
{
    if s.len() == 0 {
        let v = Seq::<int>::empty();
        assert(same_members(v, s));
        lemma_sorted_distinct(v, s);
    } else {
        let r = s.drop_last();
        let x = s.last();
        lemma_sorted_distinct_exists(r);
        let w = sorted_distinct(r);
        assert(s == r.push(x));
        lemma_members_push(r, x);
        if w.contains(x) {
            assert(same_members(w, s));
            lemma_sorted_distinct(w, s);
        } else {
            lemma_count_below(w, x);
            let p = count_below(w, x) as int;
            let v = w.insert(p, x);
            assert forall|i: int, j: int| 0 <= i < j < v.len() implies v[i] < v[j] by {
                if j < p {
                    assert(v[i] == w[i] && v[j] == w[j]);
                } else if j == p {
                    assert(v[i] == w[i]);
                } else if i < p {
                    assert(v[i] == w[i] && v[j] == w[j - 1]);
                } else if i == p {
                    assert(v[j] == w[j - 1]);
                    assert(w[j - 1] >= x);
                    assert(w[j - 1] != x) by {
                        assert(w.contains(w[j - 1]));
                    }
                } else {
                    assert(v[i] == w[i - 1] && v[j] == w[j - 1]);
                }
            }
            assert forall|y: int| v.contains(y) <==> s.contains(y) by {
                if v.contains(y) {
                    let k = choose|k: int| 0 <= k < v.len() && v[k] == y;
                    if k < p {
                        assert(w[k] == y);
                        assert(w.contains(y));
                    } else if k > p {
                        assert(w[k - 1] == y);
                        assert(w.contains(y));
                    }
                }
                if w.contains(y) {
                    let k = choose|k: int| 0 <= k < w.len() && w[k] == y;
                    if k < p {
                        assert(v[k] == y);
                    } else {
                        assert(v[k + 1] == y);
                    }
                }
                if y == x {
                    assert(v[p] == y);
                }
            }
            lemma_sorted_distinct(v, s);
        }
    }
}

/// Inserts `x` into the increasing list `v` unless it is already there.
pub fn insert_sorted(v: &mut Vec<i32>, x: i32)
    requires
        increasing(ints(old(v)@)),
    ensures
        increasing(ints(final(v)@)),
        forall|y: int| ints(final(v)@).contains(y) <==> (ints(old(v)@).contains(y) || y == x),
{
    let ghost old_v = ints(v@);
    let mut p: usize = 0;
    while p < v.len() && v[p] < x
        invariant
            p <= v@.len(),
            old_v == ints(v@),
            increasing(old_v),
            forall|k: int| 0 <= k < p ==> v@[k] < x,
        decreases v@.len() - p,
    {
        p = p + 1;
    }
    if p < v.len() && v[p] == x {
        assert(old_v[p as int] == x);
        return;
    }
    v.insert(p, x);
    proof {
        let nv = ints(v@);
        assert(nv =~= old_v.insert(p as int, x as int));
        assert forall|i: int, j: int| 0 <= i < j < nv.len() implies nv[i] < nv[j] by {
            if j < p {
            } else if j == p {
                assert(v@[i] < x);
            } else if i < p {
                assert(v@[i] < x);
                assert(old_v[j - 1] >= x) by {
                    assert(old_v[p as int] >= x);
                    if j - 1 > p {
                        assert(old_v[p as int] < old_v[j - 1]);
                    }
                }
            } else if i == p {
                assert(old_v[p as int] >= x);
                if j - 1 > p {
                    assert(old_v[p as int] < old_v[j - 1]);
                }
                assert(old_v[p as int] != x);
            } else {
            }
        }
        assert forall|y: int| nv.contains(y) <==> (old_v.contains(y) || y == x) by {
            if nv.contains(y) {
                let k = choose|k: int| 0 <= k < nv.len() && nv[k] == y;
                if k < p {
                    assert(old_v[k] == y);
                } else if k > p {
                    assert(old_v[k - 1] == y);
                }
            }
            if old_v.contains(y) {
                let k = choose|k: int| 0 <= k < old_v.len() && old_v[k] == y;
                if k < p {
                    assert(nv[k] == y);
                } else {
                    assert(nv[k + 1] == y);
                }
            }
            if y == x {
                assert(nv[p as int] == y);
            }
        }
    }
}

/// Pushing `x` adds exactly `x` to the values.
pub proof fn lemma_members_push(a: Seq<int>, x: int)
    ensures
        forall|y: int| a.push(x).contains(y) <==> (a.contains(y) || y == x),
{
    assert forall|y: int| a.push(x).contains(y) <==> (a.contains(y) || y == x) by {
        if a.push(x).contains(y) {
            let k = choose|k: int| 0 <= k < a.push(x).len() && a.push(x)[k] == y;
            if k < a.len() {
                assert(a[k] == y);
            }
        }
        if a.contains(y) {
            let k = choose|k: int| 0 <= k < a.len() && a[k] == y;
            assert(a.push(x)[k] == y);
        }
        if y == x {
            assert(a.push(x)[a.len() as int] == y);
        }
    }
}

/// The list of distinct values of `s`, built by inserting each value in turn.
pub fn sorted_distinct_of(s: &Vec<i32>) -> (r: Vec<i32>)
    ensures
        ints(r@) == sorted_distinct(ints(s@)),
        increasing(ints(r@)),
        same_members(ints(r@), ints(s@)),
{
    let mut out: Vec<i32> = Vec::new();
    let mut i: usize = 0;
    assert(ints(out@) =~= Seq::<int>::empty());
    while i < s.len()
        invariant
            i <= s@.len(),
            increasing(ints(out@)),
            same_members(ints(out@), ints(s@).take(i as int)),
        decreases s@.len() - i,
    {
        proof {
            lemma_members_push(ints(s@).take(i as int), s@[i as int] as int);
            assert(ints(s@).take(i as int).push(s@[i as int] as int) =~= ints(s@).take(i + 1));
        }
        insert_sorted(&mut out, s[i]);
        i = i + 1;
    }
    assert(ints(s@).take(i as int) =~= ints(s@));
    proof {
        lemma_sorted_distinct(ints(out@), ints(s@));
    }
    out
}

} // verus!

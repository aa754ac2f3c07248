//! A cache of shared values, kept in the order of a probe.
//!
//! A probe tells, for a cached value, whether it lies before (`Less`), at
//! (`Equal`) or after (`Greater`) the value sought.  Lookups search by
//! halving; a miss builds the value and inserts it where the probe puts it.
use vstd::prelude::*;
use std::cmp::Ordering;
use std::rc::Rc;

verus! {

/// Shared values, ordered by the probes that look them up.
#[verifier::reject_recursive_types(T)]
pub struct Cache<T> {
    inner: Vec<Rc<T>>,
}

/// `p` can be asked about `x`, and answers `o` whenever it returns.
pub open spec fn answers<T, P: Fn(&T) -> Ordering>(p: P, x: T, o: Ordering) -> bool {
    &&& call_requires(p, (&x,))
    &&& forall|r: Ordering| #[trigger] call_ensures(p, (&x,), r) ==> r == o
}

/// The position of `x` relative to what `p` seeks: 0 before, 1 at, 2 after.
pub open spec fn rank<T, P: Fn(&T) -> Ordering>(p: P, x: T) -> int {
    if answers(p, x, Ordering::Less) {
        0
    } else if answers(p, x, Ordering::Equal) {
        1
    } else {
        2
    }
}

/// `p` answers for every value of `s` and never puts a later value
/// before an earlier one.
pub open spec fn ordered_for<T, P: Fn(&T) -> Ordering>(p: P, s: Seq<T>) -> bool {
    &&& forall|i: int|
        0 <= i < s.len() ==> answers(p, #[trigger] s[i], Ordering::Less) || answers(p, s[i], Ordering::Equal)
            || answers(p, s[i], Ordering::Greater)
    &&& forall|i: int, j: int| 0 <= i <= j < s.len() ==> rank(p, #[trigger] s[i]) <= rank(p, #[trigger] s[j])
}

/// Some value of `s` is the one `p` seeks.
pub open spec fn holds_match<T, P: Fn(&T) -> Ordering>(p: P, s: Seq<T>) -> bool {
    exists|i: int| 0 <= i < s.len() && rank(p, #[trigger] s[i]) == 1
}

/// `k` is where `p` puts the value it seeks: everything before `k` lies
/// before it and everything from `k` on lies after it.
pub open spec fn insertion_point<T, P: Fn(&T) -> Ordering>(p: P, s: Seq<T>, k: int) -> bool {
    &&& 0 <= k <= s.len()
    &&& forall|i: int| 0 <= i < k ==> rank(p, #[trigger] s[i]) == 0
    &&& forall|i: int| k <= i < s.len() ==> rank(p, #[trigger] s[i]) == 2
}

/// Inserting, where the probe puts it, a value the probe seeks keeps the
/// cache ordered for that probe.
pub proof fn lemma_insert_keeps_order<T, P: Fn(&T) -> Ordering>(p: P, s: Seq<T>, k: int, v: T)
    requires
        ordered_for(p, s),
        insertion_point(p, s, k),
        rank(p, v) == 1,
    ensures
        ordered_for(p, s.insert(k, v)),
{
    let t = s.insert(k, v);
    assert forall|i: int, j: int| 0 <= i <= j < t.len() implies rank(p, #[trigger] t[i]) <= rank(p, #[trigger] t[j]) by {
        if i < k {
            assert(t[i] == s[i]);
        } else if i > k {
            assert(t[i] == s[i - 1]);
        }
        if j < k {
            assert(t[j] == s[j]);
        } else if j > k {
            assert(t[j] == s[j - 1]);
        }
    }
}

/// `i` as a position in a sequence.
pub open spec fn position(i: usize) -> int {
    i as int
}

/// A second handle to the value behind `r` (`Rc::clone`): it shares the
/// allocation, so it points to the same value.
#[verifier::external_body]
fn share<T>(r: &Rc<T>) -> (c: Rc<T>)
    ensures
        *c == **r,
{
    Rc::clone(r)
}

impl<T> View for Cache<T> {
    type V = Seq<T>;

    closed spec fn view(&self) -> Seq<T> {
        self.inner@.map_values(|r: Rc<T>| *r)
    }
}

impl<T> Cache<T> {
    /// An empty cache.
    pub fn new() -> (c: Cache<T>)
        ensures
            c@ == Seq::<T>::empty(),
    {
        let c = Cache { inner: Vec::new() };
        assert(c@ =~= Seq::<T>::empty());
        c
    }

    /// The number of cached values.
    pub fn len(&self) -> (n: usize)
        ensures
            n == self@.len(),
    {
        self.inner.len()
    }

    /// The value `p` seeks: the cached one if `p` answers `Equal` for some
    /// cached value, else a new one built by `f` and cached where `p` puts it.
    pub fn get_or_insert<P, I>(&mut self, p: P, f: I) -> (r: Rc<T>)
        where
            P: Fn(&T) -> Ordering,
            I: FnOnce() -> T,
        requires
            ordered_for(p, old(self)@),
            call_requires(f, ()),
        ensures
            holds_match(p, old(self)@) ==> {
                &&& final(self)@ == old(self)@
                &&& exists|i: int|
                    0 <= i < old(self)@.len() && rank(p, #[trigger] old(self)@[i]) == 1 && *r == old(self)@[i]
            },
            !holds_match(p, old(self)@) ==> {
                &&& call_ensures(f, (), *r)
                &&& exists|k: int|
                    insertion_point(p, old(self)@, k) && final(self)@ == #[trigger] old(self)@.insert(k, *r)
            },
    {
        let ghost s = self@;
        let mut lo: usize = 0;
        let mut hi: usize = self.inner.len();
        while lo < hi
            invariant
                s == self@,
                ordered_for(p, s),
                lo <= hi <= s.len(),
                forall|i: int| 0 <= i < lo ==> rank(p, #[trigger] s[i]) == 0,
                forall|i: int| hi <= i < s.len() ==> rank(p, #[trigger] s[i]) == 2,
            decreases hi - lo,
        {
            let mid = lo + (hi - lo) / 2;
            assert(s[position(mid)] == *self.inner@[position(mid)]);
            assert(answers(p, s[position(mid)], Ordering::Less) || answers(p, s[position(mid)], Ordering::Equal)
                || answers(p, s[position(mid)], Ordering::Greater));
            let o = p(&*self.inner[mid]);
            match o {
                Ordering::Less => {
                    assert forall|i: int| 0 <= i <= mid implies rank(p, #[trigger] s[i]) == 0 by {
                        assert(rank(p, s[i]) <= rank(p, s[position(mid)]));
                    }
                    lo = mid + 1;
                },
                Ordering::Greater => {
                    assert forall|i: int| mid <= i < s.len() implies rank(p, #[trigger] s[i]) == 2 by {
                        assert(rank(p, s[position(mid)]) <= rank(p, s[i]));
                    }
                    hi = mid;
                },
                Ordering::Equal => {
                    assert(rank(p, s[position(mid)]) == 1);
                    return share(&self.inner[mid]);
                },
            }
        }
        proof {
            if holds_match(p, s) {
                let i = choose|i: int| 0 <= i < s.len() && rank(p, #[trigger] s[i]) == 1;
                assert(i < lo || i >= hi);
            }
        }
        let v = f();
        let rc = Rc::new(v);
        self.inner.insert(lo, share(&rc));
        assert(self@ =~= s.insert(position(lo), *rc));
        assert(insertion_point(p, s, position(lo)));
        rc
    }
}

} // verus!

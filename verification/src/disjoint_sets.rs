//! Disjoint sets with a payload for each set.
//!
//! The elements are the numbers below the size. Each element knows the
//! representative of its set, and each representative carries the payload
//! of the set. Merging two sets is linear in the size; finding a
//! representative is one lookup.

use vstd::prelude::*;

verus! {

/// Disjoint sets as contracts see them.
pub struct SetsModel<T> {
    /// The representative of each element.
    pub repr: Seq<usize>,
    /// The payload of each element's set, kept at the representative.
    pub payload: Seq<T>,
}

/// Every element has a representative, which represents itself.
pub open spec fn repr_wf(repr: Seq<usize>) -> bool {
    forall|i: int|
        0 <= i < repr.len() ==> (#[trigger] repr[i]) < repr.len() && repr[repr[i] as int] == repr[i]
}

/// The representatives after the sets of `a` and `b` were merged: the
/// elements of both have the lesser of the two representatives.
pub open spec fn union_repr(repr: Seq<usize>, a: int, b: int) -> Seq<usize> {
    let m = if repr[a] <= repr[b] {
        repr[a]
    } else {
        repr[b]
    };
    Seq::new(
        repr.len(),
        |i: int|
            if repr[i] == repr[a] || repr[i] == repr[b] {
                m
            } else {
                repr[i]
            },
    )
}

impl<T> SetsModel<T> {
    pub open spec fn wf(self) -> bool {
        &&& self.repr.len() == self.payload.len()
        &&& repr_wf(self.repr)
    }

    pub open spec fn len(self) -> nat {
        self.repr.len()
    }

    /// Whether two elements are in one set.
    pub open spec fn same_set(self, i: int, j: int) -> bool {
        self.repr[i] == self.repr[j]
    }

    /// The payload of the set of an element.
    pub open spec fn payload_of(self, i: int) -> T {
        self.payload[self.repr[i] as int]
    }

    /// The sets with one more element, alone in its set.
    pub open spec fn push(self, p: T) -> SetsModel<T> {
        SetsModel { repr: self.repr.push(self.repr.len() as usize), payload: self.payload.push(p) }
    }

    /// The sets with the payload of one set replaced.
    pub open spec fn set_payload(self, i: int, p: T) -> SetsModel<T> {
        SetsModel { payload: self.payload.update(self.repr[i] as int, p), ..self }
    }

    /// The representative of the set that merging the sets of `a` and `b`
    /// gives: the lesser of their representatives.
    pub open spec fn merged_repr(self, a: int, b: int) -> usize {
        if self.repr[a] <= self.repr[b] {
            self.repr[a]
        } else {
            self.repr[b]
        }
    }

    /// The sets with those of `a` and `b` merged into one, with payload
    /// `p`.
    pub open spec fn union(self, a: int, b: int, p: T) -> SetsModel<T> {
        SetsModel {
            repr: union_repr(self.repr, a, b),
            payload: self.payload.update(self.merged_repr(a, b) as int, p),
        }
    }
}

pub struct DisjointSetsMap<T> {
    repr: Vec<usize>,
    payload: Vec<T>,
}

impl<T> View for DisjointSetsMap<T> {
    type V = SetsModel<T>;

    closed spec fn view(&self) -> SetsModel<T> {
        SetsModel { repr: self.repr@, payload: self.payload@ }
    }
}

impl<T: Copy> DisjointSetsMap<T> {
    pub open spec fn wf(&self) -> bool {
        self@.wf()
    }

    pub fn new() -> (s: DisjointSetsMap<T>)
        ensures
            s@.repr == Seq::<usize>::empty(),
            s@.payload == Seq::<T>::empty(),
            s.wf(),
    {
        DisjointSetsMap { repr: Vec::new(), payload: Vec::new() }
    }

    /// The number of elements.
    pub fn len(&self) -> (n: usize)
        requires
            self.wf(),
        ensures
            n == self@.len(),
    {
        self.repr.len()
    }

    /// Adds an element, alone in its set, and returns it.
    pub fn push(&mut self, p: T) -> (i: usize)
        requires
            old(self).wf(),
        ensures
            final(self)@ == old(self)@.push(p),
            i == old(self)@.len(),
            final(self).wf(),
    {
        let i = self.repr.len();
        self.repr.push(i);
        self.payload.push(p);
        assert forall|k: int| 0 <= k < self@.repr.len() implies (#[trigger] self@.repr[k])
            < self@.repr.len() && self@.repr[self@.repr[k] as int] == self@.repr[k] by {
            if k < i {
                assert(self@.repr[k] == old(self)@.repr[k]);
            }
        }
        i
    }

    /// The representative of the set of an element.
    pub fn find(&self, i: usize) -> (r: usize)
        requires
            self.wf(),
            i < self@.len(),
        ensures
            r == self@.repr[i as int],
            r < self@.len(),
    {
        self.repr[i]
    }

    /// The payload of the set of an element.
    pub fn get(&self, i: usize) -> (p: T)
        requires
            self.wf(),
            i < self@.len(),
        ensures
            p == self@.payload_of(i as int),
    {
        self.payload[self.repr[i]]
    }

    /// Replaces the payload of the set of an element.
    pub fn set(&mut self, i: usize, p: T)
        requires
            old(self).wf(),
            i < old(self)@.len(),
        ensures
            final(self)@ == old(self)@.set_payload(i as int, p),
            final(self).wf(),
    {
        let r = self.repr[i];
        self.payload.set(r, p);
        assert(self@.repr == old(self)@.repr);
    }

    /// Merges the sets of `a` and `b` and gives the merged set the payload
    /// `p`.
    pub fn union(&mut self, a: usize, b: usize, p: T)
        requires
            old(self).wf(),
            a < old(self)@.len(),
            b < old(self)@.len(),
        ensures
            final(self)@ == old(self)@.union(a as int, b as int, p),
            final(self).wf(),
    {
        let ra = self.repr[a];
        let rb = self.repr[b];
        let m = if ra <= rb {
            ra
        } else {
            rb
        };
        let n = self.repr.len();
        let mut i: usize = 0;
        while i < n
            invariant
                i <= n,
                n == old(self)@.len(),
                self.repr@.len() == n,
                self.payload@ == old(self)@.payload,
                old(self).wf(),
                ra == old(self)@.repr[a as int],
                rb == old(self)@.repr[b as int],
                m == old(self)@.merged_repr(a as int, b as int),
                forall|k: int|
                    0 <= k < i ==> #[trigger] self.repr@[k] == if old(self)@.repr[k] == ra || old(
                        self,
                    )@.repr[k] == rb {
                        m
                    } else {
                        old(self)@.repr[k]
                    },
                forall|k: int| i <= k < n ==> #[trigger] self.repr@[k] == old(self)@.repr[k],
            decreases n - i,
        {
            if self.repr[i] == ra || self.repr[i] == rb {
                self.repr.set(i, m);
            }
            i = i + 1;
        }
        self.payload.set(m, p);
        assert(self@.repr =~= old(self)@.union(a as int, b as int, p).repr);
        proof {
            lemma_union_wf(old(self)@, a as int, b as int, p);
        }
    }
}

/// Merging keeps the sets well formed.
pub proof fn lemma_union_wf<T>(s: SetsModel<T>, a: int, b: int, p: T)
    requires
        s.wf(),
        0 <= a < s.len(),
        0 <= b < s.len(),
    ensures
        s.union(a, b, p).wf(),
{
    let u = s.union(a, b, p);
    assert forall|i: int| 0 <= i < u.repr.len() implies (#[trigger] u.repr[i]) < u.repr.len()
        && u.repr[u.repr[i] as int] == u.repr[i] by {
        let ra = s.repr[a];
        let rb = s.repr[b];
        assert(s.repr[ra as int] == ra);
        assert(s.repr[rb as int] == rb);
        assert(s.repr[s.repr[i] as int] == s.repr[i]);
    }
}

/// After a merge, two elements are in one set exactly if they were before,
/// or one was with `a` and the other with `b`.
pub proof fn law_union_joins_two_sets<T>(s: SetsModel<T>, a: int, b: int, p: T, i: int, j: int)
    requires
        s.wf(),
        0 <= a < s.len(),
        0 <= b < s.len(),
        0 <= i < s.len(),
        0 <= j < s.len(),
    ensures
        s.union(a, b, p).same_set(i, j) <==> (s.same_set(i, j) || (s.same_set(i, a) && s.same_set(
            j,
            b,
        )) || (s.same_set(i, b) && s.same_set(j, a))),
{
}

/// Unification of regions does not depend on the order of the merges:
/// whichever of two merges comes first, every element has the same
/// representative afterwards.
pub proof fn law_union_commutes<T>(s: SetsModel<T>, a: int, b: int, p: T, c: int, d: int, q: T)
    requires
        s.wf(),
        0 <= a < s.len(),
        0 <= b < s.len(),
        0 <= c < s.len(),
        0 <= d < s.len(),
    ensures
        s.union(a, b, p).union(c, d, q).repr == s.union(c, d, q).union(a, b, p).repr,
{
    let l = s.union(a, b, p).union(c, d, q);
    let r = s.union(c, d, q).union(a, b, p);
    assert(s.repr[s.repr[a] as int] == s.repr[a]);
    assert(s.repr[s.repr[b] as int] == s.repr[b]);
    assert(s.repr[s.repr[c] as int] == s.repr[c]);
    assert(s.repr[s.repr[d] as int] == s.repr[d]);
    assert(l.repr =~= r.repr);
}

/// Unification of regions is idempotent: a merge made a second time
/// changes nothing.
pub proof fn law_union_idempotent<T>(s: SetsModel<T>, a: int, b: int, p: T)
    requires
        s.wf(),
        0 <= a < s.len(),
        0 <= b < s.len(),
    ensures
        s.union(a, b, p).union(a, b, p) == s.union(a, b, p),
{
    let u = s.union(a, b, p);
    let uu = u.union(a, b, p);
    assert(s.repr[s.repr[a] as int] == s.repr[a]);
    assert(s.repr[s.repr[b] as int] == s.repr[b]);
    assert(uu.repr =~= u.repr);
    assert(uu.payload =~= u.payload);
}

} // verus!

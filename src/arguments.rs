use vstd::prelude::*;

use crate::elements::{intersect_spec, union_spec, ElementQuantifier, ElementSet, ElementSetModel};

verus! {

/// An ordered tuple of argument positions.
#[derive(Debug, Clone, PartialEq, Eq)]
pub struct Arguments<T> {
    pub values: Vec<T>,
}

impl<T> View for Arguments<T> {
    type V = Seq<T>;

    open spec fn view(&self) -> Seq<T> {
        self.values@
    }
}

/// The mathematical value of an evidence tuple.
pub open spec fn sets_view(a: Arguments<ElementSet>) -> Seq<ElementSetModel> {
    a@.map_values(|s: ElementSet| s@)
}

/// The mathematical values of a list of evidence tuples.
pub open spec fn evidence_view(v: Seq<Arguments<ElementSet>>) -> Seq<Seq<ElementSetModel>> {
    v.map_values(|a: Arguments<ElementSet>| sets_view(a))
}

/// A tuple of `n` copies of `s`.
pub open spec fn every(s: ElementSetModel, n: nat) -> Seq<ElementSetModel> {
    Seq::new(n, |i: int| s)
}

/// An evidence tuple exists when none of its positions is empty.
pub open spec fn tuple_exists(t: Seq<ElementSetModel>) -> bool {
    forall|i: int| 0 <= i < t.len() ==> !(t[i] is Empty)
}

/// An evidence tuple is maximal when every position admits every element.
pub open spec fn tuple_maximal(t: Seq<ElementSetModel>) -> bool {
    forall|i: int| 0 <= i < t.len() ==> t[i] is All
}

/// Position-wise intersection of two evidence tuples.
pub open spec fn meet_tuples(a: Seq<ElementSetModel>, b: Seq<ElementSetModel>) -> Seq<ElementSetModel> {
    Seq::new(a.len(), |i: int| intersect_spec(a[i], b[i]))
}

/// Position-wise union of two evidence tuples.
pub open spec fn join_tuples(a: Seq<ElementSetModel>, b: Seq<ElementSetModel>) -> Seq<ElementSetModel> {
    Seq::new(a.len(), |i: int| union_spec(a[i], b[i]))
}

/// An evidence tuple that covers exactly the query tuple `q`.
pub open spec fn promote(q: Seq<ElementQuantifier>) -> Seq<ElementSetModel> {
    Seq::new(
        q.len(),
        |i: int|
            match q[i] {
                ElementQuantifier::One(x) => ElementSetModel::Among(seq![x]),
                ElementQuantifier::Any => ElementSetModel::All,
            },
    )
}

impl<T> Arguments<T> {
    /// A tuple holding `values` in order.
    pub fn new(values: Vec<T>) -> (r: Arguments<T>)
        ensures
            r@ == values@,
    {
        Arguments { values }
    }

    /// The number of positions.
    pub fn len(&self) -> (r: usize)
        ensures
            r == self@.len(),
    {
        self.values.len()
    }

    /// The value at position `i`.
    pub fn get(&self, i: usize) -> (r: &T)
        requires
            i < self@.len(),
        ensures
            *r == self@[i as int],
    {
        &self.values[i]
    }
}

impl Arguments<ElementQuantifier> {
    /// Whether two query tuples are equal.
    pub fn same_as(&self, other: &Arguments<ElementQuantifier>) -> (r: bool)
        ensures
            r == (self@ == other@),
    {
        if self.values.len() != other.values.len() {
            return false;
        }
        let mut i: usize = 0;
        while i < self.values.len()
            invariant
                i <= self@.len(),
                self@.len() == other@.len(),
                forall|k: int| 0 <= k < i ==> self@[k] == other@[k],
            decreases self@.len() - i,
        {
            if self.values[i] != other.values[i] {
                return false;
            }
            i = i + 1;
        }
        assert(self@ =~= other@);
        true
    }

    /// A copy of this tuple.
    pub fn copy_query(&self) -> (r: Arguments<ElementQuantifier>)
        ensures
            r@ == self@,
    {
        let mut v: Vec<ElementQuantifier> = Vec::new();
        let mut i: usize = 0;
        while i < self.values.len()
            invariant
                i <= self@.len(),
                v@ == self@.subrange(0, i as int),
            decreases self@.len() - i,
        {
            v.push(self.values[i]);
            assert(self@.subrange(0, i as int + 1) =~= self@.subrange(0, i as int).push(self@[i as int]));
            i = i + 1;
        }
        assert(self@.subrange(0, self@.len() as int) =~= self@);
        Arguments { values: v }
    }

    /// The evidence tuple that covers exactly this query tuple.
    pub fn promote(&self) -> (r: Arguments<ElementSet>)
        ensures
            sets_view(r) == promote(self@),
    {
        let mut v: Vec<ElementSet> = Vec::new();
        let mut i: usize = 0;
        while i < self.values.len()
            invariant
                i <= self@.len(),
                v@.len() == i,
                forall|k: int| 0 <= k < i ==> v@[k]@ == #[trigger] promote(self@)[k],
            decreases self@.len() - i,
        {
            let s = match self.values[i] {
                ElementQuantifier::One(x) => {
                    let mut w: Vec<u64> = Vec::new();
                    w.push(x);
                    assert(w@ =~= seq![x]);
                    ElementSet::Among(w)
                },
                ElementQuantifier::Any => ElementSet::All,
            };
            assert(s@ == promote(self@)[i as int]);
            v.push(s);
            i = i + 1;
        }
        let r = Arguments { values: v };
        assert(sets_view(r) =~= promote(self@));
        r
    }
}

impl Arguments<ElementSet> {
    /// A tuple of `n` copies of `s`.
    pub fn every(s: &ElementSet, n: usize) -> (r: Arguments<ElementSet>)
        ensures
            sets_view(r) == every(s@, n as nat),
    {
        let mut v: Vec<ElementSet> = Vec::new();
        let mut i: usize = 0;
        while i < n
            invariant
                i <= n,
                v@.len() == i,
                forall|k: int| 0 <= k < i ==> v@[k]@ == s@,
            decreases n - i,
        {
            v.push(s.duplicate());
            i = i + 1;
        }
        let r = Arguments { values: v };
        assert(sets_view(r) =~= every(s@, n as nat));
        r
    }

    /// A copy of this tuple.
    pub fn duplicate(&self) -> (r: Arguments<ElementSet>)
        ensures
            sets_view(r) == sets_view(*self),
    {
        let mut v: Vec<ElementSet> = Vec::new();
        let mut i: usize = 0;
        while i < self.values.len()
            invariant
                i <= self@.len(),
                v@.len() == i,
                forall|k: int| 0 <= k < i ==> v@[k]@ == self@[k]@,
            decreases self@.len() - i,
        {
            v.push(self.values[i].duplicate());
            i = i + 1;
        }
        let r = Arguments { values: v };
        assert(sets_view(r) =~= sets_view(*self));
        r
    }

    /// Whether no position is empty.
    pub fn inhabited(&self) -> (r: bool)
        ensures
            r == tuple_exists(sets_view(*self)),
    {
        let mut i: usize = 0;
        while i < self.values.len()
            invariant
                i <= self@.len(),
                forall|k: int| 0 <= k < i ==> !(self@[k]@ is Empty),
            decreases self@.len() - i,
        {
            if let ElementSet::Empty = self.values[i] {
                assert(sets_view(*self)[i as int] is Empty);
                return false;
            }
            i = i + 1;
        }
        true
    }

    /// Whether every position admits every element.
    pub fn maximal(&self) -> (r: bool)
        ensures
            r == tuple_maximal(sets_view(*self)),
    {
        let mut i: usize = 0;
        while i < self.values.len()
            invariant
                i <= self@.len(),
                forall|k: int| 0 <= k < i ==> self@[k]@ is All,
            decreases self@.len() - i,
        {
            match self.values[i] {
                ElementSet::All => {},
                _ => {
                    assert(!(sets_view(*self)[i as int] is All));
                    return false;
                },
            }
            i = i + 1;
        }
        true
    }

    /// Position-wise intersection (`with_union` false) or union (`with_union` true).
    pub fn combine(&self, other: &Arguments<ElementSet>, with_union: bool) -> (r: Arguments<ElementSet>)
        requires
            self@.len() == other@.len(),
        ensures
            !with_union ==> sets_view(r) == meet_tuples(sets_view(*self), sets_view(*other)),
            with_union ==> sets_view(r) == join_tuples(sets_view(*self), sets_view(*other)),
    {
        let mut v: Vec<ElementSet> = Vec::new();
        let mut i: usize = 0;
        while i < self.values.len()
            invariant
                i <= self@.len(),
                self@.len() == other@.len(),
                v@.len() == i,
                forall|k: int|
                    0 <= k < i ==> v@[k]@ == (if with_union {
                        union_spec(self@[k]@, other@[k]@)
                    } else {
                        intersect_spec(self@[k]@, other@[k]@)
                    }),
            decreases self@.len() - i,
        {
            let s = if with_union {
                self.values[i].union(&other.values[i])
            } else {
                self.values[i].intersect(&other.values[i])
            };
            v.push(s);
            i = i + 1;
        }
        let r = Arguments { values: v };
        if with_union {
            assert(sets_view(r) =~= join_tuples(sets_view(*self), sets_view(*other)));
        } else {
            assert(sets_view(r) =~= meet_tuples(sets_view(*self), sets_view(*other)));
        }
        r
    }
}

/// A total map from the positions of a target tuple to the positions of a
/// source tuple: position `j` of the target reads position `indices[j]` of
/// the source.
#[derive(Debug, Clone, PartialEq, Eq)]
pub struct ArgumentMap {
    pub from: usize,
    pub indices: Vec<usize>,
}

/// The value of position `i` after lifting the first `k` target positions
/// back into a source of width `from`, starting from `filler` and merging
/// with `merge`.
pub open spec fn lift<T>(
    indices: Seq<usize>,
    tgt: Seq<T>,
    filler: T,
    from: nat,
    k: nat,
    merge: spec_fn(T, T) -> T,
) -> Seq<T>
    decreases k,
{
    if k == 0 {
        Seq::new(from, |i: int| filler)
    } else {
        let prev = lift(indices, tgt, filler, from, (k - 1) as nat, merge);
        let i = indices[k - 1] as int;
        prev.update(i, merge(prev[i], tgt[k - 1]))
    }
}

/// Merging two query positions keeps the first specific element.
pub open spec fn merge_quantifiers(acc: ElementQuantifier, q: ElementQuantifier) -> ElementQuantifier {
    if acc is Any {
        q
    } else {
        acc
    }
}

/// The merge used when lifting query tuples.
pub open spec fn quantifier_merge() -> spec_fn(ElementQuantifier, ElementQuantifier) -> ElementQuantifier {
    |a: ElementQuantifier, b: ElementQuantifier| merge_quantifiers(a, b)
}

/// The merge used when lifting evidence tuples: intersection.
pub open spec fn set_merge() -> spec_fn(ElementSetModel, ElementSetModel) -> ElementSetModel {
    |a: ElementSetModel, b: ElementSetModel| intersect_spec(a, b)
}

proof fn lemma_lift_len<T>(
    indices: Seq<usize>,
    tgt: Seq<T>,
    filler: T,
    from: nat,
    k: nat,
    merge: spec_fn(T, T) -> T,
)
    requires
        k <= indices.len(),
        forall|j: int| 0 <= j < k ==> indices[j] < from,
    ensures
        lift(indices, tgt, filler, from, k, merge).len() == from,
    decreases k,
{
    if k > 0 {
        lemma_lift_len(indices, tgt, filler, from, (k - 1) as nat, merge);
    }
}

impl ArgumentMap {
    /// The width of the source tuples.
    pub open spec fn source_len(&self) -> nat {
        self.from as nat
    }

    /// The width of the target tuples.
    pub open spec fn target_len(&self) -> nat {
        self.indices@.len()
    }

    /// The source position that target position `j` reads.
    pub open spec fn index(&self, j: int) -> int {
        self.indices@[j] as int
    }

    /// Every target position reads a source position in range.
    pub open spec fn wf(&self) -> bool {
        forall|j: int| 0 <= j < self.indices@.len() ==> self.indices@[j] < self.from
    }

    /// Projection of a source tuple into the target's shape.
    pub open spec fn forward_spec<T>(&self, src: Seq<T>) -> Seq<T> {
        Seq::new(self.indices@.len(), |j: int| src[self.indices@[j] as int])
    }

    /// A query tuple lifted back into the source's shape.
    pub open spec fn backward_spec(&self, tgt: Seq<ElementQuantifier>, filler: ElementQuantifier) -> Seq<
        ElementQuantifier,
    > {
        lift(
            self.indices@,
            tgt,
            filler,
            self.from as nat,
            self.indices@.len(),
            quantifier_merge(),
        )
    }

    /// An evidence tuple lifted back into the source's shape; a source
    /// position read by several target positions gets their intersection.
    pub open spec fn backward_sets_spec(&self, tgt: Seq<ElementSetModel>, filler: ElementSetModel) -> Seq<
        ElementSetModel,
    > {
        lift(
            self.indices@,
            tgt,
            filler,
            self.from as nat,
            self.indices@.len(),
            set_merge(),
        )
    }

    /// Whether two maps read the same source positions from sources of the same width.
    pub open spec fn same_map(&self, other: ArgumentMap) -> bool {
        self.from == other.from && self.indices@ == other.indices@
    }

    /// A copy of this map.
    pub fn duplicate(&self) -> (r: ArgumentMap)
        ensures
            r.same_map(*self),
    {
        let mut indices: Vec<usize> = Vec::new();
        let mut i: usize = 0;
        while i < self.indices.len()
            invariant
                i <= self.indices@.len(),
                indices@ == self.indices@.subrange(0, i as int),
            decreases self.indices@.len() - i,
        {
            indices.push(self.indices[i]);
            assert(self.indices@.subrange(0, i as int + 1) =~= self.indices@.subrange(0, i as int).push(self.indices@[i as int]));
            i = i + 1;
        }
        assert(self.indices@.subrange(0, self.indices@.len() as int) =~= self.indices@);
        ArgumentMap { from: self.from, indices }
    }

    /// The map from `from` source positions given by `indices`.
    pub fn new(from: usize, indices: Vec<usize>) -> (r: ArgumentMap)
        requires
            forall|j: int| 0 <= j < indices@.len() ==> indices@[j] < from,
        ensures
            r.wf(),
            r.source_len() == from,
            r.indices@ == indices@,
    {
        ArgumentMap { from, indices }
    }

    /// The identity map of width `n`.
    pub fn identity(n: usize) -> (r: ArgumentMap)
        ensures
            r.wf(),
            r.source_len() == n,
            r.target_len() == n,
            forall|j: int| 0 <= j < n ==> r.index(j) == j,
    {
        let mut indices: Vec<usize> = Vec::new();
        let mut i: usize = 0;
        while i < n
            invariant
                i <= n,
                indices@.len() == i,
                forall|j: int| 0 <= j < i ==> indices@[j] == j,
            decreases n - i,
        {
            indices.push(i);
            i = i + 1;
        }
        ArgumentMap { from: n, indices }
    }

    /// Projects a query tuple of the source into the target's shape.
    pub fn forward(&self, src: &Arguments<ElementQuantifier>) -> (r: Arguments<ElementQuantifier>)
        requires
            self.wf(),
            src@.len() == self.source_len(),
        ensures
            r@ == self.forward_spec(src@),
    {
        let mut v: Vec<ElementQuantifier> = Vec::new();
        let mut j: usize = 0;
        while j < self.indices.len()
            invariant
                self.wf(),
                src@.len() == self.from,
                j <= self.indices@.len(),
                v@.len() == j,
                forall|k: int| 0 <= k < j ==> v@[k] == src@[self.indices@[k] as int],
            decreases self.indices@.len() - j,
        {
            v.push(src.values[self.indices[j]]);
            j = j + 1;
        }
        let r = Arguments { values: v };
        assert(r@ =~= self.forward_spec(src@));
        r
    }

    /// Projects an evidence tuple of the source into the target's shape.
    pub fn forward_evidence(&self, src: &Arguments<ElementSet>) -> (r: Arguments<ElementSet>)
        requires
            self.wf(),
            src@.len() == self.source_len(),
        ensures
            sets_view(r) == self.forward_spec(sets_view(*src)),
    {
        let mut v: Vec<ElementSet> = Vec::new();
        let mut j: usize = 0;
        while j < self.indices.len()
            invariant
                self.wf(),
                src@.len() == self.from,
                j <= self.indices@.len(),
                v@.len() == j,
                forall|k: int| 0 <= k < j ==> v@[k]@ == src@[self.indices@[k] as int]@,
            decreases self.indices@.len() - j,
        {
            v.push(src.values[self.indices[j]].duplicate());
            j = j + 1;
        }
        let r = Arguments { values: v };
        assert(sets_view(r) =~= self.forward_spec(sets_view(*src)));
        r
    }

    /// Lifts a query tuple of the target back into the source's shape.
    /// Source positions that no target position reads receive `filler`.
    pub fn backward(&self, tgt: &Arguments<ElementQuantifier>, filler: ElementQuantifier) -> (r:
        Arguments<ElementQuantifier>)
        requires
            self.wf(),
            tgt@.len() == self.target_len(),
        ensures
            r@ == self.backward_spec(tgt@, filler),
            r@.len() == self.source_len(),
    {
        let ghost merge = quantifier_merge();
        let mut v: Vec<ElementQuantifier> = Vec::new();
        let mut i: usize = 0;
        while i < self.from
            invariant
                i <= self.from,
                v@.len() == i,
                forall|k: int| 0 <= k < i ==> v@[k] == filler,
            decreases self.from - i,
        {
            v.push(filler);
            i = i + 1;
        }
        assert(v@ =~= lift(self.indices@, tgt@, filler, self.from as nat, 0, merge));
        let mut j: usize = 0;
        while j < self.indices.len()
            invariant
                self.wf(),
                tgt@.len() == self.indices@.len(),
                j <= self.indices@.len(),
                merge == quantifier_merge(),
                v@ == lift(self.indices@, tgt@, filler, self.from as nat, j as nat, merge),
            decreases self.indices@.len() - j,
        {
            proof {
                lemma_lift_len(self.indices@, tgt@, filler, self.from as nat, j as nat, merge);
            }
            let i = self.indices[j];
            let q = match v[i] {
                ElementQuantifier::Any => tgt.values[j],
                other => other,
            };
            v.set(i, q);
            assert(v@ =~= lift(self.indices@, tgt@, filler, self.from as nat, (j + 1) as nat, merge));
            j = j + 1;
        }
        proof {
            lemma_lift_len(self.indices@, tgt@, filler, self.from as nat, self.indices@.len(), merge);
        }
        Arguments { values: v }
    }

    /// Lifts an evidence tuple of the target back into the source's shape.
    /// Source positions that no target position reads receive `filler`.
    pub fn backward_evidence(&self, tgt: &Arguments<ElementSet>, filler: &ElementSet) -> (r: Arguments<
        ElementSet,
    >)
        requires
            self.wf(),
            tgt@.len() == self.target_len(),
        ensures
            sets_view(r) == self.backward_sets_spec(sets_view(*tgt), filler@),
            r@.len() == self.source_len(),
    {
        let ghost merge = set_merge();
        let ghost t = sets_view(*tgt);
        let mut v: Vec<ElementSet> = Vec::new();
        let mut i: usize = 0;
        while i < self.from
            invariant
                i <= self.from,
                v@.len() == i,
                forall|k: int| 0 <= k < i ==> v@[k]@ == filler@,
            decreases self.from - i,
        {
            v.push(filler.duplicate());
            i = i + 1;
        }
        assert(v@.map_values(|s: ElementSet| s@) =~= lift(self.indices@, t, filler@, self.from as nat, 0, merge));
        let mut j: usize = 0;
        while j < self.indices.len()
            invariant
                self.wf(),
                t == sets_view(*tgt),
                merge == set_merge(),
                tgt@.len() == self.indices@.len(),
                j <= self.indices@.len(),
                v@.map_values(|s: ElementSet| s@) == lift(self.indices@, t, filler@, self.from as nat, j as nat, merge),
            decreases self.indices@.len() - j,
        {
            proof {
                lemma_lift_len(self.indices@, t, filler@, self.from as nat, j as nat, merge);
            }
            let i = self.indices[j];
            let s = v[i].intersect(&tgt.values[j]);
            let ghost before = v@;
            assert(before.map_values(|s: ElementSet| s@)[i as int] == before[i as int]@);
            v.set(i, s);
            assert(v@.map_values(|s: ElementSet| s@) =~= lift(self.indices@, t, filler@, self.from as nat, (j + 1) as nat, merge));
            j = j + 1;
        }
        proof {
            lemma_lift_len(self.indices@, t, filler@, self.from as nat, self.indices@.len(), merge);
        }
        Arguments { values: v }
    }
}

} // verus!

use vstd::prelude::*;

use crate::arena::{extends, lemma_fits_grow};
use crate::arguments::ArgumentMap;
use crate::graph::{
    Conjunction, Disjunction, IsConjunctionPart, IsDisjunctionPart, IsNegated, Negation, Predicate,
    PredicateGraph, PredicateNode, Undetermined,
};

verus! {

/// Node `n` of `later` holds what it held in `earlier`, for every node of
/// `earlier` but `a` and `b`.
pub open spec fn others_unchanged(earlier: PredicateGraph, later: PredicateGraph, a: PredicateNode, b: PredicateNode) -> bool {
    forall|k: int|
        0 <= k < earlier.nodes@.len() && k != a.id && k != b.id ==> later.nodes@[k] == earlier.nodes@[k]
}

/// `b` is an operand link of kind `disjunction` (else conjunction) to
/// `composite`, wrapping `inner`.
pub open spec fn is_part(
    b: Predicate,
    disjunction: bool,
    composite: PredicateNode,
    inner: Predicate,
    map_this: ArgumentMap,
    map_other: ArgumentMap,
    sig: u64,
    with: PredicateNode,
) -> bool {
    if disjunction {
        b matches Predicate::IsDisjunctionPart(p) && p.for_disjunction == composite && *p.inner == inner
            && p.map_this.same_map(map_this) && p.map_other.same_map(map_other) && p.sig == sig && p.with
            == with
    } else {
        b matches Predicate::IsConjunctionPart(p) && p.for_conjunction == composite && *p.inner == inner
            && p.map_this.same_map(map_this) && p.map_other.same_map(map_other) && p.sig == sig && p.with
            == with
    }
}

/// What building the connective `composite` from `left` and `right` does to
/// the operands: each is wrapped in a link to the connective (the left one
/// first, when both are the same node).
pub open spec fn operands_linked(
    earlier: PredicateGraph,
    later: PredicateGraph,
    disjunction: bool,
    composite: PredicateNode,
    left: PredicateNode,
    map_left: ArgumentMap,
    right: PredicateNode,
    map_right: ArgumentMap,
    sig: u64,
) -> bool {
    if left != right {
        &&& is_part(later.behavior(left), disjunction, composite, earlier.behavior(left), map_left, map_right, sig, right)
        &&& is_part(later.behavior(right), disjunction, composite, earlier.behavior(right), map_right, map_left, sig, left)
    } else {
        exists|mid: Predicate|
            #![auto]
            is_part(mid, disjunction, composite, earlier.behavior(left), map_left, map_right, sig, right)
                && is_part(later.behavior(left), disjunction, composite, mid, map_right, map_left, sig, left)
    }
}

/// `after` is `before` with node `neg`, holding the negation of `of` under
/// token `s`, and with `of` wrapped in a link back to it.
pub open spec fn negation_built(before: PredicateGraph, after: PredicateGraph, of: PredicateNode, neg: PredicateNode, s: u64) -> bool {
    &&& after.known() == before.known().insert(s)
    &&& after.behavior(neg) == Predicate::Negation(Negation { of, sig: s })
    &&& after.behavior(of) matches Predicate::IsNegated(x) && x.negation == neg && *x.inner == before.behavior(of)
        && x.sig == s
}

/// The requirements on the operands of a binary connective.
pub open spec fn connective_requires(
    g: PredicateGraph,
    left: PredicateNode,
    map_left: ArgumentMap,
    right: PredicateNode,
    map_right: ArgumentMap,
) -> bool {
    &&& g.wf()
    &&& g.valid(left)
    &&& g.valid(right)
    &&& map_left.wf()
    &&& map_right.wf()
    &&& map_left.source_len() == map_right.source_len()
    &&& map_left.target_len() == g.arity(left)
    &&& map_right.target_len() == g.arity(right)
}

impl PredicateGraph {
    /// Wraps the behavior of `operand` in a link to the connective `composite`.
    fn link_operand(
        &mut self,
        disjunction: bool,
        operand: PredicateNode,
        composite: PredicateNode,
        map_this: &ArgumentMap,
        map_other: &ArgumentMap,
        sig: u64,
        with: PredicateNode,
    )
        requires
            old(self).wf(),
            old(self).valid(operand),
            old(self).part_fits(composite, with, *map_this, *map_other, sig, old(self).arity(operand)),
        ensures
            final(self).wf(),
            extends(*old(self), *final(self)),
            final(self).nodes@.len() == old(self).nodes@.len(),
            final(self).sigs@ == old(self).sigs@,
            forall|k: int| 0 <= k < old(self).nodes@.len() && k != operand.id ==> final(self).nodes@[k] == old(self).nodes@[k],
            is_part(final(self).behavior(operand), disjunction, composite, old(self).behavior(operand), *map_this, *map_other, sig, with),
    {
        let ghost g0 = *self;
        let previous = self.swap_behavior(operand, Predicate::Undetermined(Undetermined));
        let ghost g1 = *self;
        proof {
            lemma_fits_grow(g0, g1, previous, g0.arity(operand));
        }
        let wrapped = if disjunction {
            Predicate::IsDisjunctionPart(
                IsDisjunctionPart {
                    for_disjunction: composite,
                    inner: Box::new(previous),
                    map_this: map_this.duplicate(),
                    map_other: map_other.duplicate(),
                    sig,
                    with,
                },
            )
        } else {
            Predicate::IsConjunctionPart(
                IsConjunctionPart {
                    for_conjunction: composite,
                    inner: Box::new(previous),
                    map_this: map_this.duplicate(),
                    map_other: map_other.duplicate(),
                    sig,
                    with,
                },
            )
        };
        self.swap_behavior(operand, wrapped);
    }

    /// Builds the connective node for `left` and `right` and links both operands to it.
    fn build_connective(
        &mut self,
        disjunction: bool,
        left: PredicateNode,
        map_left: ArgumentMap,
        right: PredicateNode,
        map_right: ArgumentMap,
    ) -> (r: PredicateNode)
        requires
            connective_requires(*old(self), left, map_left, right, map_right),
        ensures
            final(self).wf(),
            extends(*old(self), *final(self)),
            r.id == old(self).nodes@.len(),
            final(self).valid(r),
            final(self).arity(r) == map_left.source_len(),
            final(self).nodes@.len() == old(self).nodes@.len() + 1,
            others_unchanged(*old(self), *final(self), left, right),
            exists|s: u64|
                {
                    &&& final(self).known() == old(self).known().insert(s)
                    &&& if disjunction {
                        final(self).behavior(r) matches Predicate::Disjunction(d) && d.left == left && d.right
                            == right && d.map_left.same_map(map_left) && d.map_right.same_map(map_right)
                            && d.sig == s
                    } else {
                        final(self).behavior(r) matches Predicate::Conjunction(c) && c.left == left && c.right
                            == right && c.map_left.same_map(map_left) && c.map_right.same_map(map_right)
                            && c.sig == s
                    }
                    &&& operands_linked(*old(self), *final(self), disjunction, r, left, map_left, right, map_right, s)
                },
    {
        let ghost g0 = *self;
        let sig = self.issue_token();
        let ghost g1 = *self;
        let arity = map_left.from;
        let composite = if disjunction {
            Predicate::Disjunction(
                Disjunction {
                    left,
                    right,
                    map_left: map_left.duplicate(),
                    map_right: map_right.duplicate(),
                    sig,
                },
            )
        } else {
            Predicate::Conjunction(
                Conjunction {
                    left,
                    right,
                    map_left: map_left.duplicate(),
                    map_right: map_right.duplicate(),
                    sig,
                },
            )
        };
        let r = self.add_node_with(arity, composite);
        let ghost g2 = *self;
        self.link_operand(disjunction, left, r, &map_left, &map_right, sig, right);
        let ghost g3 = *self;
        self.link_operand(disjunction, right, r, &map_right, &map_left, sig, left);
        proof {
            assert(g2.behavior(left) == g0.behavior(left));
            assert(g2.behavior(right) == g0.behavior(right));
            assert(self.behavior(r) == g2.behavior(r));
            if left != right {
                assert(self.behavior(left) == g3.behavior(left));
                assert(g3.behavior(right) == g0.behavior(right));
            } else {
                let mid = g3.behavior(left);
                assert(is_part(mid, disjunction, r, g0.behavior(left), map_left, map_right, sig, right));
            }
        }
        r
    }
}

impl Negation {
    /// Creates a node for the negation of `of`, and makes `of` aware of it.
    /// The negation has the arity of `of`.
    pub fn create(graph: &mut PredicateGraph, of: PredicateNode) -> (r: PredicateNode)
        requires
            old(graph).wf(),
            old(graph).valid(of),
        ensures
            final(graph).wf(),
            extends(*old(graph), *final(graph)),
            r.id == old(graph).nodes@.len(),
            final(graph).valid(r),
            final(graph).arity(r) == old(graph).arity(of),
            final(graph).nodes@.len() == old(graph).nodes@.len() + 1,
            others_unchanged(*old(graph), *final(graph), of, of),
            exists|s: u64| negation_built(*old(graph), *final(graph), of, r, s),
    {
        let ghost g0 = *graph;
        let sig = graph.issue_token();
        let arity = graph.arities[of.id];
        let r = graph.add_node_with(arity, Predicate::Negation(Negation { of, sig }));
        let ghost g1 = *graph;
        let previous = graph.swap_behavior(of, Predicate::Undetermined(Undetermined));
        let ghost g2 = *graph;
        proof {
            lemma_fits_grow(g1, g2, previous, g1.arity(of));
        }
        let wrapped = Predicate::IsNegated(IsNegated { negation: r, inner: Box::new(previous), sig });
        graph.swap_behavior(of, wrapped);
        proof {
            assert(negation_built(g0, *graph, of, r, sig));
        }
        r
    }
}

impl Disjunction {
    /// Creates a node for the disjunction of `left` and `right`, whose
    /// arguments reach the operands through `map_left` and `map_right`, and
    /// links both operands to it.
    pub fn create(
        graph: &mut PredicateGraph,
        left: PredicateNode,
        map_left: ArgumentMap,
        right: PredicateNode,
        map_right: ArgumentMap,
    ) -> (r: PredicateNode)
        requires
            connective_requires(*old(graph), left, map_left, right, map_right),
        ensures
            final(graph).wf(),
            extends(*old(graph), *final(graph)),
            r.id == old(graph).nodes@.len(),
            final(graph).valid(r),
            final(graph).arity(r) == map_left.source_len(),
            final(graph).nodes@.len() == old(graph).nodes@.len() + 1,
            others_unchanged(*old(graph), *final(graph), left, right),
            exists|s: u64|
                {
                    &&& final(graph).known() == old(graph).known().insert(s)
                    &&& final(graph).behavior(r) matches Predicate::Disjunction(d) && d.left == left && d.right
                        == right && d.map_left.same_map(map_left) && d.map_right.same_map(map_right) && d.sig
                        == s
                    &&& operands_linked(*old(graph), *final(graph), true, r, left, map_left, right, map_right, s)
                },
    {
        graph.build_connective(true, left, map_left, right, map_right)
    }
}

impl Conjunction {
    /// Creates a node for the conjunction of `left` and `right`, whose
    /// arguments reach the operands through `map_left` and `map_right`, and
    /// links both operands to it.
    pub fn create(
        graph: &mut PredicateGraph,
        left: PredicateNode,
        map_left: ArgumentMap,
        right: PredicateNode,
        map_right: ArgumentMap,
    ) -> (r: PredicateNode)
        requires
            connective_requires(*old(graph), left, map_left, right, map_right),
        ensures
            final(graph).wf(),
            extends(*old(graph), *final(graph)),
            r.id == old(graph).nodes@.len(),
            final(graph).valid(r),
            final(graph).arity(r) == map_left.source_len(),
            final(graph).nodes@.len() == old(graph).nodes@.len() + 1,
            others_unchanged(*old(graph), *final(graph), left, right),
            exists|s: u64|
                {
                    &&& final(graph).known() == old(graph).known().insert(s)
                    &&& final(graph).behavior(r) matches Predicate::Conjunction(c) && c.left == left && c.right
                        == right && c.map_left.same_map(map_left) && c.map_right.same_map(map_right) && c.sig
                        == s
                    &&& operands_linked(*old(graph), *final(graph), false, r, left, map_left, right, map_right, s)
                },
    {
        graph.build_connective(false, left, map_left, right, map_right)
    }
}

} // verus!

use vstd::prelude::*;

use crate::graph::{Predicate, PredicateGraph, PredicateNode, Undetermined};

verus! {

broadcast use vstd::seq_lib::group_seq_properties;

/// Relies on `rand::random::<u64>`, which draws a value from the thread-local
/// generator; nothing is promised of the value. (The generator panics only if
/// the operating system cannot seed it.)
#[verifier::external_body]
pub(crate) fn random_token() -> (r: u64) {
    rand::random::<u64>()
}

/// `later` keeps every node, arity and token of `earlier`.
pub open spec fn extends(earlier: PredicateGraph, later: PredicateGraph) -> bool {
    &&& earlier.arities@.len() <= later.arities@.len()
    &&& forall|i: int| 0 <= i < earlier.arities@.len() ==> later.arities@[i] == earlier.arities@[i]
    &&& earlier.known().subset_of(later.known())
}

/// A behavior that fits a graph still fits once the graph has grown.
pub proof fn lemma_fits_grow(earlier: PredicateGraph, later: PredicateGraph, b: Predicate, arity: nat)
    requires
        extends(earlier, later),
        earlier.fits(b, arity),
    ensures
        later.fits(b, arity),
    decreases b,
{
    match b {
        Predicate::TrueForArguments(t) => lemma_fits_grow(earlier, later, *t.inner, arity),
        Predicate::IsNegated(x) => lemma_fits_grow(earlier, later, *x.inner, arity),
        Predicate::IsDisjunctionPart(p) => lemma_fits_grow(earlier, later, *p.inner, arity),
        Predicate::IsConjunctionPart(p) => lemma_fits_grow(earlier, later, *p.inner, arity),
        Predicate::Linked(l) => lemma_fits_grow(earlier, later, *l.linked, arity),
        _ => {},
    }
}

impl PredicateGraph {
    /// An empty graph.
    pub fn new() -> (r: PredicateGraph)
        ensures
            r.wf(),
            r.nodes@.len() == 0,
            r.sigs@.len() == 0,
    {
        PredicateGraph { nodes: Vec::new(), arities: Vec::new(), sigs: Vec::new() }
    }

    /// Adds a node of arity `arity` with behavior `behavior`.
    pub fn add_node_with(&mut self, arity: usize, behavior: Predicate) -> (r: PredicateNode)
        requires
            old(self).wf(),
            old(self).fits(behavior, arity as nat),
        ensures
            final(self).wf(),
            r.id == old(self).nodes@.len(),
            final(self).valid(r),
            final(self).arity(r) == arity,
            final(self).nodes@ == old(self).nodes@.push(behavior),
            final(self).arities@ == old(self).arities@.push(arity),
            final(self).sigs@ == old(self).sigs@,
            extends(*old(self), *final(self)),
    {
        let ghost g0 = *self;
        let id = self.nodes.len();
        self.nodes.push(behavior);
        self.arities.push(arity);
        proof {
            assert(extends(g0, *self));
            assert forall|i: int| 0 <= i < self.nodes@.len() implies self.fits(
                #[trigger] self.nodes@[i],
                self.arities@[i] as nat,
            ) by {
                if i < g0.nodes@.len() {
                    lemma_fits_grow(g0, *self, g0.nodes@[i], g0.arities@[i] as nat);
                } else {
                    lemma_fits_grow(g0, *self, behavior, arity as nat);
                }
            }
        }
        PredicateNode { id }
    }

    /// Adds a node of arity `arity` that knows nothing yet.
    pub fn add_node(&mut self, arity: usize) -> (r: PredicateNode)
        requires
            old(self).wf(),
        ensures
            final(self).wf(),
            r.id == old(self).nodes@.len(),
            final(self).valid(r),
            final(self).arity(r) == arity,
            final(self).nodes@ == old(self).nodes@.push(Predicate::Undetermined(Undetermined)),
            final(self).arities@ == old(self).arities@.push(arity),
            final(self).sigs@ == old(self).sigs@,
            extends(*old(self), *final(self)),
    {
        self.add_node_with(arity, Predicate::Undetermined(Undetermined))
    }

    /// Draws a token for a new connective and records it in the graph.
    pub(crate) fn issue_token(&mut self) -> (s: u64)
        requires
            old(self).wf(),
        ensures
            final(self).wf(),
            final(self).nodes@ == old(self).nodes@,
            final(self).arities@ == old(self).arities@,
            final(self).known() == old(self).known().insert(s),
            extends(*old(self), *final(self)),
    {
        let ghost g0 = *self;
        let s = random_token();
        self.sigs.push(s);
        proof {
            g0.sigs@.lemma_push_to_set_commute(s);
            assert(extends(g0, *self));
            assert forall|i: int| 0 <= i < self.nodes@.len() implies self.fits(
                #[trigger] self.nodes@[i],
                self.arities@[i] as nat,
            ) by {
                lemma_fits_grow(g0, *self, g0.nodes@[i], g0.arities@[i] as nat);
            }
        }
        s
    }

    /// Replaces the behavior of node `n` with `behavior`, handing back the previous one.
    pub(crate) fn swap_behavior(&mut self, n: PredicateNode, behavior: Predicate) -> (previous: Predicate)
        requires
            old(self).wf(),
            old(self).valid(n),
            old(self).fits(behavior, old(self).arity(n)),
        ensures
            final(self).wf(),
            previous == old(self).behavior(n),
            final(self).nodes@ == old(self).nodes@.update(n.id as int, behavior),
            final(self).arities@ == old(self).arities@,
            final(self).sigs@ == old(self).sigs@,
            extends(*old(self), *final(self)),
    {
        let ghost g0 = *self;
        let previous = self.nodes.remove(n.id);
        self.nodes.insert(n.id, behavior);
        proof {
            assert(self.nodes@ =~= g0.nodes@.update(n.id as int, behavior));
            assert(extends(g0, *self));
            assert forall|i: int| 0 <= i < self.nodes@.len() implies self.fits(
                #[trigger] self.nodes@[i],
                self.arities@[i] as nat,
            ) by {
                if i == n.id {
                    lemma_fits_grow(g0, *self, behavior, g0.arities@[i] as nat);
                } else {
                    lemma_fits_grow(g0, *self, g0.nodes@[i], g0.arities@[i] as nat);
                }
            }
        }
        previous
    }
}

} // verus!

use vstd::prelude::*;

use crate::arena::extends;
use crate::arguments::{evidence_view, tuple_exists, tuple_maximal, ArgumentMap, Arguments};
use crate::connectives::operands_linked;
use crate::elements::ElementQuantifier;
use crate::graph::{
    Disjunction, Negation, Predicate, PredicateGraph, PredicateNode, TrueForArguments, UniversallyObeyed,
};
use crate::truth::{AssertionResponse, TruthValue};

verus! {

/// Some tuple of the evidence that node `n` is false exists: asserting that
/// `n` always holds would contradict what is known.
pub open spec fn has_counterexample(g: PredicateGraph, n: PredicateNode) -> bool {
    let f = g.node_evidence(n, false, Set::empty()).0;
    exists|i: int| 0 <= i < f.len() && tuple_exists(#[trigger] f[i])
}

/// Some tuple of the evidence that node `n` is true is maximal: `n` is
/// already known to hold everywhere.
pub open spec fn known_everywhere(g: PredicateGraph, n: PredicateNode) -> bool {
    let t = g.node_evidence(n, true, Set::empty()).0;
    exists|i: int| 0 <= i < t.len() && tuple_maximal(#[trigger] t[i])
}

/// The outcome of asserting that node `n` holds for all arguments, taking
/// graph `before` to graph `after` with response `r`.
pub open spec fn universal_outcome(before: PredicateGraph, n: PredicateNode, r: AssertionResponse, after: PredicateGraph) -> bool {
    &&& (r == AssertionResponse::AssertionInvalid) == has_counterexample(before, n)
    &&& (r == AssertionResponse::AssertionRedundant) == (!has_counterexample(before, n) && known_everywhere(before, n))
    &&& r != AssertionResponse::AssertionMade ==> after == before
    &&& r == AssertionResponse::AssertionMade ==> {
        &&& after.nodes@ == before.nodes@.update(n.id as int, Predicate::UniversallyObeyed(UniversallyObeyed))
        &&& after.arities@ == before.arities@
        &&& after.sigs@ == before.sigs@
    }
}

/// The query tuples of `args` on which node `n` answers `Undetermined`, in order.
pub open spec fn undetermined_among(g: PredicateGraph, n: PredicateNode, args: Seq<Arguments<ElementQuantifier>>) -> Seq<
    Seq<ElementQuantifier>,
>
    decreases args.len(),
{
    if args.len() == 0 {
        Seq::empty()
    } else {
        let prev = undetermined_among(g, n, args.drop_last());
        if g.query(n, args.last()@, Set::empty()).0 is Undetermined {
            prev.push(args.last()@)
        } else {
            prev
        }
    }
}

/// The outcome of asserting that node `n` holds for each tuple of `args`.
pub open spec fn true_for_outcome(
    before: PredicateGraph,
    n: PredicateNode,
    args: Seq<Arguments<ElementQuantifier>>,
    r: AssertionResponse,
    after: PredicateGraph,
) -> bool {
    let refuted = exists|i: int|
        0 <= i < args.len() && before.query(n, (#[trigger] args[i])@, Set::empty()).0 == TruthValue::Determined(false);
    let pending = undetermined_among(before, n, args);
    &&& (r == AssertionResponse::AssertionInvalid) == refuted
    &&& (r == AssertionResponse::AssertionRedundant) == (!refuted && pending.len() == 0)
    &&& r != AssertionResponse::AssertionMade ==> after == before
    &&& r == AssertionResponse::AssertionMade ==> {
        &&& after.behavior(n) matches Predicate::TrueForArguments(t) && *t.inner == before.behavior(n)
            && t.arguments@.map_values(|a: Arguments<ElementQuantifier>| a@) == pending
        &&& after.nodes@ == before.nodes@.update(n.id as int, after.behavior(n))
        &&& after.arities@ == before.arities@
        &&& after.sigs@ == before.sigs@
    }
}

impl UniversallyObeyed {
    /// Asserts that node `node` holds for all combinations of arguments.
    /// Rejected when some false evidence exists; redundant when some true
    /// evidence is maximal; otherwise the node's behavior becomes
    /// `UniversallyObeyed`.
    pub fn assert_on(graph: &mut PredicateGraph, node: PredicateNode) -> (r: AssertionResponse)
        requires
            old(graph).wf(),
            old(graph).valid(node),
        ensures
            final(graph).wf(),
            universal_outcome(*old(graph), node, r, *final(graph)),
    {
        let mut sig: Vec<u64> = Vec::new();
        assert(sig@.to_set() =~= Set::empty());
        let falses = graph.get_elements_for_false(node, &mut sig);
        let ghost f = evidence_view(falses@);
        let mut i: usize = 0;
        while i < falses.len()
            invariant
                *graph == *old(graph),
                graph.wf(),
                graph.valid(node),
                i <= falses@.len(),
                f == evidence_view(falses@),
                f == graph.node_evidence(node, false, Set::empty()).0,
                forall|k: int| 0 <= k < i ==> !tuple_exists(#[trigger] f[k]),
            decreases falses@.len() - i,
        {
            if falses[i].inhabited() {
                assert(tuple_exists(f[i as int]));
                return AssertionResponse::AssertionInvalid;
            }
            i = i + 1;
        }
        let mut sig: Vec<u64> = Vec::new();
        assert(sig@.to_set() =~= Set::empty());
        let trues = graph.get_elements_for_true(node, &mut sig);
        let ghost t = evidence_view(trues@);
        let mut j: usize = 0;
        while j < trues.len()
            invariant
                *graph == *old(graph),
                graph.wf(),
                graph.valid(node),
                j <= trues@.len(),
                t == evidence_view(trues@),
                t == graph.node_evidence(node, true, Set::empty()).0,
                !has_counterexample(*graph, node),
                forall|k: int| 0 <= k < j ==> !tuple_maximal(#[trigger] t[k]),
            decreases trues@.len() - j,
        {
            if trues[j].maximal() {
                assert(tuple_maximal(t[j as int]));
                return AssertionResponse::AssertionRedundant;
            }
            j = j + 1;
        }
        graph.swap_behavior(node, Predicate::UniversallyObeyed(UniversallyObeyed));
        AssertionResponse::AssertionMade
    }
}

impl TrueForArguments {
    /// Asserts that node `node` holds for each query tuple of `args`.
    /// Rejected when the node answers false on one of them; redundant when
    /// it answers true on all; otherwise the node's behavior is wrapped in a
    /// `TrueForArguments` holding the tuples on which it was undetermined.
    pub fn assert_on(graph: &mut PredicateGraph, node: PredicateNode, args: Vec<Arguments<ElementQuantifier>>) -> (r:
        AssertionResponse)
        requires
            old(graph).wf(),
            old(graph).valid(node),
            forall|i: int| 0 <= i < args@.len() ==> (#[trigger] args@[i])@.len() == old(graph).arity(node),
        ensures
            final(graph).wf(),
            true_for_outcome(*old(graph), node, args@, r, *final(graph)),
    {
        let ghost g0 = *graph;
        let mut pending: Vec<Arguments<ElementQuantifier>> = Vec::new();
        let mut i: usize = 0;
        while i < args.len()
            invariant
                *graph == g0,
                g0.wf(),
                g0.valid(node),
                forall|k: int| 0 <= k < args@.len() ==> (#[trigger] args@[k])@.len() == g0.arity(node),
                i <= args@.len(),
                forall|k: int|
                    0 <= k < i ==> g0.query(node, (#[trigger] args@[k])@, Set::empty()).0 != TruthValue::Determined(false),
                pending@.map_values(|a: Arguments<ElementQuantifier>| a@) == undetermined_among(g0, node, args@.subrange(0, i as int)),
                forall|k: int| 0 <= k < pending@.len() ==> (#[trigger] pending@[k])@.len() == g0.arity(node),
            decreases args@.len() - i,
        {
            let mut sig: Vec<u64> = Vec::new();
            assert(sig@.to_set() =~= Set::empty());
            let answer = graph.call_for_elements(node, &args[i], &mut sig);
            let ghost prefix = args@.subrange(0, i as int + 1);
            assert(prefix.drop_last() =~= args@.subrange(0, i as int));
            assert(prefix.last() == args@[i as int]);
            match answer {
                TruthValue::Determined(false) => {
                    return AssertionResponse::AssertionInvalid;
                },
                TruthValue::Determined(true) => {},
                TruthValue::Undetermined => {
                    let ghost before = pending@;
                    pending.push(args[i].copy_query());
                    assert(pending@.map_values(|a: Arguments<ElementQuantifier>| a@) =~= before.map_values(
                        |a: Arguments<ElementQuantifier>| a@,
                    ).push(args@[i as int]@));
                },
            }
            i = i + 1;
        }
        assert(args@.subrange(0, args@.len() as int) =~= args@);
        if pending.len() == 0 {
            return AssertionResponse::AssertionRedundant;
        }
        let previous = graph.swap_behavior(node, Predicate::Undetermined(crate::graph::Undetermined));
        let ghost g1 = *graph;
        proof {
            crate::arena::lemma_fits_grow(g0, g1, previous, g0.arity(node));
        }
        let wrapped = Predicate::TrueForArguments(TrueForArguments { arguments: pending, inner: Box::new(previous) });
        graph.swap_behavior(node, wrapped);
        proof {
            assert(graph.nodes@ =~= g0.nodes@.update(node.id as int, graph.behavior(node)));
        }
        AssertionResponse::AssertionMade
    }
}

/// Asserts that `left` implies `right`, as the tautology `¬left ∨ right`:
/// builds the negation of `left`, the disjunction of that negation with
/// `right` (identity maps), and asserts that the disjunction always holds.
pub fn implies(graph: &mut PredicateGraph, left: PredicateNode, right: PredicateNode) -> (r: AssertionResponse)
    requires
        old(graph).wf(),
        old(graph).valid(left),
        old(graph).valid(right),
        old(graph).arity(left) == old(graph).arity(right),
    ensures
        final(graph).wf(),
        extends(*old(graph), *final(graph)),
        exists|built: PredicateGraph, neg: PredicateNode, disjunction: PredicateNode|
            {
                &&& built.wf()
                &&& built.valid(disjunction)
                &&& implication_built(*old(graph), built, left, right, neg, disjunction)
                &&& universal_outcome(built, disjunction, r, *final(graph))
            },
{
    let ghost g0 = *graph;
    let arity = graph.arities[left.id];
    let neg = Negation::create(graph, left);
    let ghost g1 = *graph;
    let d = Disjunction::create(graph, neg, ArgumentMap::identity(arity), right, ArgumentMap::identity(arity));
    let ghost g2 = *graph;
    let r = UniversallyObeyed::assert_on(graph, d);
    proof {
        assert(implication_built(g0, g2, left, right, neg, d));
    }
    r
}

/// `built` is `before` with the negation `neg` of `left` and the disjunction
/// `disjunction` of `neg` and `right` added, under identity maps.
pub open spec fn implication_built(
    before: PredicateGraph,
    built: PredicateGraph,
    left: PredicateNode,
    right: PredicateNode,
    neg: PredicateNode,
    disjunction: PredicateNode,
) -> bool {
    &&& extends(before, built)
    &&& neg.id == before.nodes@.len()
    &&& disjunction.id == before.nodes@.len() + 1
    &&& built.nodes@.len() == before.nodes@.len() + 2
    &&& built.behavior(neg) matches Predicate::IsDisjunctionPart(p) && p.for_disjunction == disjunction
        && (*p.inner matches Predicate::Negation(x) && x.of == left)
    &&& built.behavior(disjunction) matches Predicate::Disjunction(d) && d.left == neg && d.right == right
}

} // verus!

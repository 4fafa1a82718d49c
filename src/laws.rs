use vstd::prelude::*;

use crate::arguments::{ArgumentMap, Arguments};
use crate::assertions::{true_for_outcome, undetermined_among};
use crate::connectives::negation_built;
use crate::elements::ElementQuantifier;
use crate::graph::{Predicate, PredicateGraph, PredicateNode};
use crate::truth::{and_spec, not_spec, or_spec, AssertionResponse, TruthValue};

verus! {

/// Right after `Negation::create(of)`, the negation and `of` answer every
/// query (with an empty signature) with values that negate each other.
pub proof fn law_negation_answers_opposite(
    before: PredicateGraph,
    after: PredicateGraph,
    of: PredicateNode,
    neg: PredicateNode,
    s: u64,
    args: Seq<ElementQuantifier>,
)
    requires
        negation_built(before, after, of, neg, s),
    ensures
        after.query(neg, args, Set::empty()).0 == not_spec(after.query(of, args, Set::empty()).0),
{
    let e = Set::<u64>::empty();
    let one = e.insert(s);
    assert(after.known().contains(s));
    let x = after.behavior(of)->IsNegated_0;
    let inner = after.answer(*x.inner, args, one);
    assert(after.answer(after.behavior(of), args, one) == inner);
    assert(after.query(neg, args, e) == (not_spec(inner.0), inner.1));
    assert(after.answer(after.behavior(neg), args, one) == (TruthValue::Undetermined, one));
    assert(one.union(one) =~= one);
    assert(after.query(of, args, e).0 == inner.0);
}

/// Whether `m` is the identity map of width `n`.
pub open spec fn is_identity(m: ArgumentMap, n: nat) -> bool {
    &&& m.wf()
    &&& m.source_len() == n
    &&& m.target_len() == n
    &&& forall|j: int| 0 <= j < n ==> m.index(j) == j
}

proof fn lemma_identity_forward(m: ArgumentMap, args: Seq<ElementQuantifier>)
    requires
        is_identity(m, args.len()),
    ensures
        m.forward_spec(args) == args,
{
    assert forall|j: int| 0 <= j < args.len() implies m.forward_spec(args)[j] == args[j] by {
        assert(m.index(j) == j);
    }
    assert(m.forward_spec(args) =~= args);
}

/// A disjunction node `d` with identity maps answers a query (empty
/// signature) with the three-valued disjunction of its operands' answers,
/// each asked with the disjunction's token already crossed, the right one
/// also after the tokens that the left one crossed.
pub proof fn law_disjunction_answers_or(g: PredicateGraph, d: PredicateNode, args: Seq<ElementQuantifier>)
    requires
        g.behavior(d) matches Predicate::Disjunction(x) && is_identity(x.map_left, args.len())
            && is_identity(x.map_right, args.len()) && g.known().contains(x.sig),
    ensures
        ({
            let x = g.behavior(d)->Disjunction_0;
            let left = g.query(x.left, args, set![x.sig]);
            let right = g.query(x.right, args, set![x.sig].union(left.1));
            g.query(d, args, Set::empty()).0 == or_spec(left.0, right.0)
        }),
{
    let x = g.behavior(d)->Disjunction_0;
    lemma_identity_forward(x.map_left, args);
    lemma_identity_forward(x.map_right, args);
    assert(Set::<u64>::empty().insert(x.sig) =~= set![x.sig]);
}

/// A conjunction node `c` with identity maps answers a query (empty
/// signature) with the three-valued conjunction of its operands' answers,
/// each asked with the conjunction's token already crossed, the right one
/// also after the tokens that the left one crossed.
pub proof fn law_conjunction_answers_and(g: PredicateGraph, c: PredicateNode, args: Seq<ElementQuantifier>)
    requires
        g.behavior(c) matches Predicate::Conjunction(x) && is_identity(x.map_left, args.len())
            && is_identity(x.map_right, args.len()) && g.known().contains(x.sig),
    ensures
        ({
            let x = g.behavior(c)->Conjunction_0;
            let left = g.query(x.left, args, set![x.sig]);
            let right = g.query(x.right, args, set![x.sig].union(left.1));
            g.query(c, args, Set::empty()).0 == and_spec(left.0, right.0)
        }),
{
    let x = g.behavior(c)->Conjunction_0;
    lemma_identity_forward(x.map_left, args);
    lemma_identity_forward(x.map_right, args);
    assert(Set::<u64>::empty().insert(x.sig) =~= set![x.sig]);
}

proof fn lemma_pending_undetermined(g: PredicateGraph, n: PredicateNode, args: Seq<Arguments<ElementQuantifier>>)
    ensures
        forall|k: int|
            0 <= k < undetermined_among(g, n, args).len() ==> g.query(n, #[trigger] undetermined_among(g, n, args)[k], Set::empty()).0
                is Undetermined,
    decreases args.len(),
{
    if args.len() > 0 {
        lemma_pending_undetermined(g, n, args.drop_last());
    }
}

proof fn lemma_pending_all(g: PredicateGraph, n: PredicateNode, args: Seq<Arguments<ElementQuantifier>>)
    requires
        forall|i: int| 0 <= i < args.len() ==> g.query(n, (#[trigger] args[i])@, Set::empty()).0 is Undetermined,
    ensures
        undetermined_among(g, n, args) == args.map_values(|a: Arguments<ElementQuantifier>| a@),
    decreases args.len(),
{
    if args.len() > 0 {
        let init = args.drop_last();
        assert forall|i: int| 0 <= i < init.len() implies g.query(n, (#[trigger] init[i])@, Set::empty()).0
            is Undetermined by {
            assert(init[i] == args[i]);
        }
        lemma_pending_all(g, n, init);
        assert(args.map_values(|a: Arguments<ElementQuantifier>| a@) =~= init.map_values(
            |a: Arguments<ElementQuantifier>| a@,
        ).push(args.last()@));
    }
}

/// `TrueForArguments::assert_on` records only tuples on which the node was
/// undetermined: none that it already answered true is recorded again.
pub proof fn law_assertion_adds_only_new_tuples(
    before: PredicateGraph,
    after: PredicateGraph,
    n: PredicateNode,
    args: Seq<Arguments<ElementQuantifier>>,
    r: AssertionResponse,
)
    requires
        true_for_outcome(before, n, args, r, after),
        r == AssertionResponse::AssertionMade,
    ensures
        after.behavior(n) matches Predicate::TrueForArguments(t) && forall|k: int|
            0 <= k < t.arguments@.len() ==> before.query(n, (#[trigger] t.arguments@[k])@, Set::empty()).0
                is Undetermined,
{
    lemma_pending_undetermined(before, n, args);
    let t = after.behavior(n)->TrueForArguments_0;
    assert forall|k: int| 0 <= k < t.arguments@.len() implies before.query(
        n,
        (#[trigger] t.arguments@[k])@,
        Set::empty(),
    ).0 is Undetermined by {
        assert(t.arguments@.map_values(|a: Arguments<ElementQuantifier>| a@)[k] == t.arguments@[k]@);
    }
}

/// Repeating `TrueForArguments::assert_on` with the same tuples: when the
/// first call changed nothing, the second gives the same response; when
/// the first was made and the node was undetermined on every tuple, the
/// second is redundant.
pub proof fn law_repeated_assertion(
    g0: PredicateGraph,
    g1: PredicateGraph,
    g2: PredicateGraph,
    n: PredicateNode,
    args: Seq<Arguments<ElementQuantifier>>,
    r1: AssertionResponse,
    r2: AssertionResponse,
)
    requires
        true_for_outcome(g0, n, args, r1, g1),
        true_for_outcome(g1, n, args, r2, g2),
    ensures
        r1 != AssertionResponse::AssertionMade ==> r2 == r1,
        r1 == AssertionResponse::AssertionMade && (forall|i: int|
            0 <= i < args.len() ==> g0.query(n, (#[trigger] args[i])@, Set::empty()).0 is Undetermined)
            ==> r2 == AssertionResponse::AssertionRedundant,
{
    if r1 == AssertionResponse::AssertionMade && (forall|i: int|
        0 <= i < args.len() ==> g0.query(n, (#[trigger] args[i])@, Set::empty()).0 is Undetermined) {
        lemma_pending_all(g0, n, args);
        let t = g1.behavior(n)->TrueForArguments_0;
        let views = t.arguments@.map_values(|a: Arguments<ElementQuantifier>| a@);
        assert forall|i: int| 0 <= i < args.len() implies g1.query(n, (#[trigger] args[i])@, Set::empty()).0
            == TruthValue::Determined(true) by {
            assert(views[i] == args[i]@);
            assert(t.arguments@[i]@ == args[i]@);
            assert(crate::graph::listed(t.arguments@, args[i]@));
        }
        assert forall|i: int| 0 <= i < args.len() implies !(g1.query(n, (#[trigger] args[i])@, Set::empty()).0
            is Undetermined) by {}
        lemma_pending_none(g1, n, args);
    }
}

proof fn lemma_pending_none(g: PredicateGraph, n: PredicateNode, args: Seq<Arguments<ElementQuantifier>>)
    requires
        forall|i: int| 0 <= i < args.len() ==> !(g.query(n, (#[trigger] args[i])@, Set::empty()).0 is Undetermined),
    ensures
        undetermined_among(g, n, args).len() == 0,
    decreases args.len(),
{
    if args.len() > 0 {
        let init = args.drop_last();
        assert forall|i: int| 0 <= i < init.len() implies !(g.query(n, (#[trigger] init[i])@, Set::empty()).0
            is Undetermined) by {
            assert(init[i] == args[i]);
        }
        lemma_pending_none(g, n, init);
    }
}

} // verus!

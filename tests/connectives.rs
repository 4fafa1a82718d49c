use first_order_logic::{
    ArgumentMap, Arguments, Conjunction, Disjunction, ElementQuantifier, ElementSet, Negation,
    PredicateGraph, TrueForArguments, TruthValue,
};

fn one(v: u64) -> Arguments<ElementQuantifier> {
    Arguments::new(vec![ElementQuantifier::One(v)])
}

#[test]
fn test_conjunction_forward_assertions() {
    let mut graph = PredicateGraph::new();
    let predicate_a = graph.add_node(1);
    let predicate_b = graph.add_node(1);
    TrueForArguments::assert_on(&mut graph, predicate_a, vec![one(4)]);
    TrueForArguments::assert_on(&mut graph, predicate_b, vec![one(4)]);
    let conjunction = Conjunction::create(
        &mut graph,
        predicate_a,
        ArgumentMap::identity(1),
        predicate_b,
        ArgumentMap::identity(1),
    );
    assert_eq!(
        graph.call_for_elements(conjunction, &one(4), &mut Vec::new()),
        TruthValue::Determined(true)
    );
}

#[test]
fn test_conjunction_reverse_assertions() {
    let mut graph = PredicateGraph::new();
    let predicate_a = graph.add_node(1);
    let predicate_b = graph.add_node(1);
    TrueForArguments::assert_on(&mut graph, predicate_b, vec![one(4)]);
    let conjunction = Conjunction::create(
        &mut graph,
        predicate_a,
        ArgumentMap::identity(1),
        predicate_b,
        ArgumentMap::identity(1),
    );
    let negated = Negation::create(&mut graph, conjunction);
    TrueForArguments::assert_on(&mut graph, negated, vec![one(4)]);
    assert_eq!(
        graph.call_for_elements(predicate_a, &one(4), &mut Vec::new()),
        TruthValue::Determined(false)
    );
}

#[test]
fn test_disjunction_forward_assertions() {
    let mut graph = PredicateGraph::new();
    let predicate_a = graph.add_node(1);
    TrueForArguments::assert_on(&mut graph, predicate_a, vec![one(4)]);
    let predicate_b = graph.add_node(1);
    let disjunction = Disjunction::create(
        &mut graph,
        predicate_a,
        ArgumentMap::identity(1),
        predicate_b,
        ArgumentMap::identity(1),
    );
    assert_eq!(
        graph.call_for_elements(disjunction, &one(4), &mut Vec::new()),
        TruthValue::Determined(true)
    );
}

#[test]
fn test_disjunction_reverse_assertions() {
    let mut graph = PredicateGraph::new();
    let predicate_a = graph.add_node(1);
    let predicate_b = graph.add_node(1);
    let disjunction = Disjunction::create(
        &mut graph,
        predicate_a,
        ArgumentMap::identity(1),
        predicate_b,
        ArgumentMap::identity(1),
    );
    let negated = Negation::create(&mut graph, disjunction);
    TrueForArguments::assert_on(&mut graph, negated, vec![one(4)]);
    assert_eq!(
        graph.call_for_elements(predicate_a, &one(4), &mut Vec::new()),
        TruthValue::Determined(false)
    );
}

#[test]
fn test_forward_negation_assertion() {
    let mut graph = PredicateGraph::new();
    let predicate_a = graph.add_node(1);
    TrueForArguments::assert_on(&mut graph, predicate_a, vec![one(3)]);
    let negated = Negation::create(&mut graph, predicate_a);
    assert_eq!(
        graph.call_for_elements(negated, &one(3), &mut Vec::new()),
        TruthValue::Determined(false)
    );
}

#[test]
fn test_reverse_negation_assertion() {
    let mut graph = PredicateGraph::new();
    let predicate_a = graph.add_node(1);
    let negated = Negation::create(&mut graph, predicate_a);
    TrueForArguments::assert_on(&mut graph, negated, vec![one(3)]);
    assert_eq!(
        graph.call_for_elements(predicate_a, &one(3), &mut Vec::new()),
        TruthValue::Determined(false)
    );
}

#[test]
fn negation_and_node_answer_opposite_values() {
    for known in [None, Some(3u64)] {
        let mut graph = PredicateGraph::new();
        let a = graph.add_node(1);
        if let Some(v) = known {
            TrueForArguments::assert_on(&mut graph, a, vec![one(v)]);
        }
        let not_a = Negation::create(&mut graph, a);
        for v in [3u64, 4] {
            let direct = graph.call_for_elements(a, &one(v), &mut Vec::new());
            let negated = graph.call_for_elements(not_a, &one(v), &mut Vec::new());
            assert_eq!(negated, direct.not());
        }
    }
    let mut graph = PredicateGraph::new();
    let a = graph.add_node(1);
    TrueForArguments::assert_on(&mut graph, a, vec![one(3)]);
    let not_a = Negation::create(&mut graph, a);
    assert_eq!(graph.call_for_elements(a, &one(3), &mut Vec::new()), TruthValue::Determined(true));
    assert_eq!(graph.call_for_elements(not_a, &one(3), &mut Vec::new()), TruthValue::Determined(false));
}

#[test]
fn disjunction_answers_or_of_operands_within_traversal() {
    let mut graph = PredicateGraph::new();
    let a = graph.add_node(1);
    TrueForArguments::assert_on(&mut graph, a, vec![one(4)]);
    let b = graph.add_node(1);
    let d = Disjunction::create(&mut graph, a, ArgumentMap::identity(1), b, ArgumentMap::identity(1));
    assert_eq!(graph.call_for_elements(d, &one(4), &mut Vec::new()), TruthValue::Determined(true));
    assert_eq!(graph.call_for_elements(d, &one(5), &mut Vec::new()), TruthValue::Undetermined);
    // Asked directly, with an empty signature, an operand only learns from
    // the disjunction, which knows nothing false here.
    assert_eq!(graph.call_for_elements(a, &one(4), &mut Vec::new()), TruthValue::Undetermined);
}

#[test]
fn disjunction_and_conjunction_evidence() {
    let mut graph = PredicateGraph::new();
    let a = graph.add_node(1);
    let b = graph.add_node(1);
    TrueForArguments::assert_on(&mut graph, a, vec![one(4)]);
    TrueForArguments::assert_on(&mut graph, b, vec![one(5)]);
    let d = Disjunction::create(&mut graph, a, ArgumentMap::identity(1), b, ArgumentMap::identity(1));
    assert_eq!(
        graph.get_elements_for_true(d, &mut Vec::new()),
        vec![Arguments::new(vec![ElementSet::Among(vec![4, 5])])],
    );
    let c = Conjunction::create(&mut graph, a, ArgumentMap::identity(1), b, ArgumentMap::identity(1));
    assert_eq!(
        graph.get_elements_for_true(c, &mut Vec::new()),
        vec![Arguments::new(vec![ElementSet::Empty])],
    );
}

#[test]
fn disjunction_with_differing_arities() {
    let mut graph = PredicateGraph::new();
    let a = graph.add_node(1);
    let b = graph.add_node(1);
    TrueForArguments::assert_on(&mut graph, b, vec![one(7)]);
    // d(x, y) = a(x) ∨ b(y)
    let d = Disjunction::create(
        &mut graph,
        a,
        ArgumentMap::new(2, vec![0]),
        b,
        ArgumentMap::new(2, vec![1]),
    );
    let query = Arguments::new(vec![ElementQuantifier::One(1), ElementQuantifier::One(7)]);
    assert_eq!(graph.call_for_elements(d, &query, &mut Vec::new()), TruthValue::Determined(true));
    // True evidence pairs the operands' evidence; `a` has none.
    assert_eq!(graph.get_elements_for_true(d, &mut Vec::new()), vec![]);
}

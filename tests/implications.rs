use first_order_logic::{
    assertions, ArgumentMap, Arguments, AssertionResponse, Disjunction, ElementQuantifier, Negation,
    PredicateGraph, TrueForArguments, TruthValue, UniversallyObeyed,
};

fn single(v: u64) -> Arguments<ElementQuantifier> {
    Arguments::new(vec![ElementQuantifier::One(v)])
}

#[test]
fn test_simple_implication() {
    let mut graph = PredicateGraph::new();
    let predicate_a = graph.add_node(1);
    let predicate_b = graph.add_node(1);
    let not_a = Negation::create(&mut graph, predicate_a);
    let implication = Disjunction::create(
        &mut graph,
        not_a,
        ArgumentMap::identity(1),
        predicate_b,
        ArgumentMap::identity(1),
    );
    assert!(matches!(
        UniversallyObeyed::assert_on(&mut graph, implication),
        AssertionResponse::AssertionMade,
    ));
    assert!(matches!(
        TrueForArguments::assert_on(&mut graph, predicate_a, vec![single(3)]),
        AssertionResponse::AssertionMade,
    ));
    assert_eq!(
        graph.call_for_elements(predicate_b, &single(3), &mut Vec::new()),
        TruthValue::Determined(true),
    );
}

#[test]
fn test_reverse_implication_undetermined() {
    let mut graph = PredicateGraph::new();
    let predicate_a = graph.add_node(1);
    let predicate_b = graph.add_node(1);
    let not_a = Negation::create(&mut graph, predicate_a);
    let implication = Disjunction::create(
        &mut graph,
        not_a,
        ArgumentMap::identity(1),
        predicate_b,
        ArgumentMap::identity(1),
    );
    assert!(matches!(
        UniversallyObeyed::assert_on(&mut graph, implication),
        AssertionResponse::AssertionMade,
    ));
    assert!(matches!(
        TrueForArguments::assert_on(&mut graph, predicate_b, vec![single(3)]),
        AssertionResponse::AssertionMade,
    ));
    assert_eq!(
        graph.call_for_elements(predicate_a, &single(3), &mut Vec::new()),
        TruthValue::Undetermined,
    );
}

#[test]
fn modus_ponens_through_implies() {
    let mut graph = PredicateGraph::new();
    let a = graph.add_node(1);
    let b = graph.add_node(1);
    assert_eq!(assertions::implies(&mut graph, a, b), AssertionResponse::AssertionMade);
    assert_eq!(
        TrueForArguments::assert_on(&mut graph, a, vec![single(3)]),
        AssertionResponse::AssertionMade,
    );
    assert_eq!(graph.call_for_elements(b, &single(3), &mut Vec::new()), TruthValue::Determined(true));
    assert_eq!(graph.call_for_elements(b, &single(4), &mut Vec::new()), TruthValue::Undetermined);
}

#[test]
fn implies_gives_nothing_backwards() {
    let mut graph = PredicateGraph::new();
    let a = graph.add_node(1);
    let b = graph.add_node(1);
    assert_eq!(assertions::implies(&mut graph, a, b), AssertionResponse::AssertionMade);
    TrueForArguments::assert_on(&mut graph, b, vec![single(3)]);
    assert_eq!(graph.call_for_elements(a, &single(3), &mut Vec::new()), TruthValue::Undetermined);
}

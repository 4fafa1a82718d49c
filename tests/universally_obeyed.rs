use first_order_logic::{
    AssertionResponse, Arguments, ElementQuantifier, ElementSet, Negation, PredicateGraph,
    PredicateNode, TrueForArguments, TruthValue, UniversallyObeyed,
};

fn setup_obeyed() -> (PredicateGraph, PredicateNode) {
    let mut graph = PredicateGraph::new();
    let predicate = graph.add_node(1);
    assert_eq!(
        UniversallyObeyed::assert_on(&mut graph, predicate),
        AssertionResponse::AssertionMade,
    );
    (graph, predicate)
}

#[test]
fn universally_obeyed_test_call_for_args() {
    let (graph, predicate) = setup_obeyed();
    assert_eq!(
        graph.call_for_elements(predicate, &Arguments::new(vec![ElementQuantifier::One(1)]), &mut Vec::new()),
        TruthValue::Determined(true),
    );
    assert_eq!(
        graph.call_for_elements(predicate, &Arguments::new(vec![ElementQuantifier::Any]), &mut Vec::new()),
        TruthValue::Determined(true),
    );
}

#[test]
fn universally_obeyed_test_get_elements_for_true() {
    let (graph, predicate) = setup_obeyed();
    assert_eq!(
        graph.get_elements_for_true(predicate, &mut Vec::new()),
        vec![Arguments::new(vec![ElementSet::All])],
    );
}

#[test]
fn universally_obeyed_test_get_elements_for_false() {
    let (graph, predicate) = setup_obeyed();
    assert_eq!(
        graph.get_elements_for_false(predicate, &mut Vec::new()),
        vec![Arguments::new(vec![ElementSet::Empty])],
    );
}

#[test]
fn universal_assertion_then_query_then_redundant() {
    let mut graph = PredicateGraph::new();
    let n = graph.add_node(1);
    assert_eq!(UniversallyObeyed::assert_on(&mut graph, n), AssertionResponse::AssertionMade);
    assert_eq!(
        graph.call_for_elements(n, &Arguments::new(vec![ElementQuantifier::One(4)]), &mut Vec::new()),
        TruthValue::Determined(true),
    );
    assert_eq!(UniversallyObeyed::assert_on(&mut graph, n), AssertionResponse::AssertionRedundant);
}

#[test]
fn universal_assertion_against_counterexample_is_invalid() {
    let mut graph = PredicateGraph::new();
    let a = graph.add_node(1);
    TrueForArguments::assert_on(&mut graph, a, vec![Arguments::new(vec![ElementQuantifier::One(3)])]);
    let not_a = Negation::create(&mut graph, a);
    // The negation is known false at 3: a counterexample exists.
    assert_eq!(
        graph.get_elements_for_false(not_a, &mut Vec::new()),
        vec![Arguments::new(vec![ElementSet::Among(vec![3])])],
    );
    assert_eq!(
        UniversallyObeyed::assert_on(&mut graph, not_a),
        AssertionResponse::AssertionInvalid,
    );
    // Nothing changed.
    assert_eq!(
        graph.call_for_elements(not_a, &Arguments::new(vec![ElementQuantifier::One(5)]), &mut Vec::new()),
        TruthValue::Undetermined,
    );
}

#[test]
fn universal_assertion_on_empty_arity() {
    let mut graph = PredicateGraph::new();
    let n = graph.add_node(0);
    assert_eq!(UniversallyObeyed::assert_on(&mut graph, n), AssertionResponse::AssertionMade);
    assert_eq!(
        graph.call_for_elements(n, &Arguments::new(vec![]), &mut Vec::new()),
        TruthValue::Determined(true),
    );
}

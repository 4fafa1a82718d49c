use first_order_logic::{
    Arguments, ElementQuantifier, Predicate, PredicateGraph, PredicateNode, TruthValue, Undetermined,
};

fn setup_undetermined() -> (PredicateGraph, PredicateNode) {
    let mut graph = PredicateGraph::new();
    let node = graph.add_node_with(1, Predicate::Undetermined(Undetermined));
    (graph, node)
}

#[test]
fn undetermined_test_call_for_args() {
    let (graph, predicate) = setup_undetermined();
    assert_eq!(
        graph.call_for_elements(predicate, &Arguments::new(vec![ElementQuantifier::One(1)]), &mut Vec::new()),
        TruthValue::Undetermined,
    );
}

#[test]
fn undetermined_test_get_elements_for_true() {
    let (graph, predicate) = setup_undetermined();
    assert_eq!(graph.get_elements_for_true(predicate, &mut Vec::new()), vec![]);
}

#[test]
fn undetermined_test_get_elements_for_false() {
    let (graph, predicate) = setup_undetermined();
    assert_eq!(graph.get_elements_for_false(predicate, &mut Vec::new()), vec![]);
}

#[test]
fn default_node_knows_nothing() {
    let mut graph = PredicateGraph::new();
    let n = graph.add_node(1);
    assert_eq!(
        graph.call_for_elements(n, &Arguments::new(vec![ElementQuantifier::One(4)]), &mut Vec::new()),
        TruthValue::Undetermined,
    );
    assert_eq!(graph.get_elements_for_true(n, &mut Vec::new()), vec![]);
    assert_eq!(graph.get_elements_for_false(n, &mut Vec::new()), vec![]);
}

use first_order_logic::{
    AssertionResponse, Arguments, ElementQuantifier, ElementSet, PredicateGraph, TrueForArguments,
    TruthValue,
};

fn query(values: &[u64]) -> Arguments<ElementQuantifier> {
    Arguments::new(values.iter().map(|v| ElementQuantifier::One(*v)).collect())
}

fn among(values: &[u64]) -> Arguments<ElementSet> {
    Arguments::new(values.iter().map(|v| ElementSet::Among(vec![*v])).collect())
}

#[test]
fn true_for_arguments_test_call_for_args() {
    let mut graph = PredicateGraph::new();
    let predicate = graph.add_node(2);
    assert_eq!(
        TrueForArguments::assert_on(&mut graph, predicate, vec![query(&[2, 4]), query(&[2, 3])]),
        AssertionResponse::AssertionMade,
    );
    assert_eq!(
        graph.call_for_elements(predicate, &query(&[2, 4]), &mut Vec::new()),
        TruthValue::Determined(true),
    );
    assert_eq!(
        graph.call_for_elements(predicate, &query(&[2, 3]), &mut Vec::new()),
        TruthValue::Determined(true),
    );
    assert_eq!(
        graph.call_for_elements(predicate, &query(&[3, 4]), &mut Vec::new()),
        TruthValue::Undetermined,
    );
}

#[test]
fn true_for_arguments_test_get_elements_for_true() {
    let mut graph = PredicateGraph::new();
    let predicate = graph.add_node(1);
    assert_eq!(
        TrueForArguments::assert_on(&mut graph, predicate, vec![query(&[2]), query(&[3])]),
        AssertionResponse::AssertionMade,
    );
    assert_eq!(
        graph.get_elements_for_true(predicate, &mut Vec::new()),
        vec![among(&[2]), among(&[3])],
    );
}

#[test]
fn true_for_arguments_test_get_elements_for_false() {
    let mut graph = PredicateGraph::new();
    let predicate = graph.add_node(1);
    assert_eq!(
        TrueForArguments::assert_on(&mut graph, predicate, vec![query(&[2]), query(&[3])]),
        AssertionResponse::AssertionMade,
    );
    assert_eq!(graph.get_elements_for_false(predicate, &mut Vec::new()), vec![]);
}

#[test]
fn test_repeated_assertion_without_redundancy() {
    let mut graph = PredicateGraph::new();
    let predicate = graph.add_node(1);
    assert_eq!(
        TrueForArguments::assert_on(&mut graph, predicate, vec![query(&[2]), query(&[3])]),
        AssertionResponse::AssertionMade,
    );
    assert_eq!(
        TrueForArguments::assert_on(&mut graph, predicate, vec![query(&[2]), query(&[4])]),
        AssertionResponse::AssertionMade,
    );
    // The tuple already known true is not recorded twice.
    assert_eq!(
        graph.get_elements_for_true(predicate, &mut Vec::new()),
        vec![among(&[4]), among(&[2]), among(&[3])],
    );
}

#[test]
fn test_repeated_assertion_with_redundancy() {
    let mut graph = PredicateGraph::new();
    let predicate = graph.add_node(1);
    assert_eq!(
        TrueForArguments::assert_on(&mut graph, predicate, vec![query(&[2]), query(&[3])]),
        AssertionResponse::AssertionMade,
    );
    assert_eq!(
        TrueForArguments::assert_on(&mut graph, predicate, vec![query(&[2]), query(&[3])]),
        AssertionResponse::AssertionRedundant,
    );
}

#[test]
fn assertion_of_no_tuples_is_redundant() {
    let mut graph = PredicateGraph::new();
    let predicate = graph.add_node(1);
    assert_eq!(
        TrueForArguments::assert_on(&mut graph, predicate, vec![]),
        AssertionResponse::AssertionRedundant,
    );
    assert_eq!(graph.get_elements_for_true(predicate, &mut Vec::new()), vec![]);
}

#[test]
fn tuples_of_two_positions_become_two_sets() {
    let mut graph = PredicateGraph::new();
    let predicate = graph.add_node(2);
    TrueForArguments::assert_on(&mut graph, predicate, vec![query(&[2, 4])]);
    assert_eq!(
        graph.get_elements_for_true(predicate, &mut Vec::new()),
        vec![among(&[2, 4])],
    );
}

#[test]
fn assertion_keeps_only_undetermined_tuples() {
    let mut graph = PredicateGraph::new();
    let predicate = graph.add_node(1);
    TrueForArguments::assert_on(&mut graph, predicate, vec![query(&[1])]);
    assert_eq!(
        TrueForArguments::assert_on(&mut graph, predicate, vec![query(&[1]), query(&[1]), query(&[5])]),
        AssertionResponse::AssertionMade,
    );
    assert_eq!(
        graph.get_elements_for_true(predicate, &mut Vec::new()),
        vec![among(&[5]), among(&[1])],
    );
}

use first_order_logic::{
    Arguments, ElementQuantifier, ElementSet, LinkedPredicate, Predicate, PredicateGraph,
    TruthValue, UniversallyObeyed,
};

#[test]
fn linked_predicate_answers_as_its_target() {
    let mut graph = PredicateGraph::new();
    let linked = LinkedPredicate::new(Predicate::UniversallyObeyed(UniversallyObeyed));
    let n = graph.add_node_with(1, Predicate::Linked(linked));
    assert_eq!(
        graph.call_for_elements(n, &Arguments::new(vec![ElementQuantifier::One(9)]), &mut Vec::new()),
        TruthValue::Determined(true),
    );
    assert_eq!(
        graph.get_elements_for_true(n, &mut Vec::new()),
        vec![Arguments::new(vec![ElementSet::All])],
    );
    assert_eq!(
        graph.get_elements_for_false(n, &mut Vec::new()),
        vec![Arguments::new(vec![ElementSet::Empty])],
    );
}

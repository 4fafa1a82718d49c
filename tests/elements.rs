use first_order_logic::{ArgumentMap, Arguments, ElementQuantifier, ElementSet, TruthValue};

#[test]
fn intersection_of_sets() {
    let a = ElementSet::Among(vec![1, 2, 3]);
    assert_eq!(a.intersect(&ElementSet::Not(vec![2])), ElementSet::Among(vec![1, 3]));
    assert_eq!(a.intersect(&ElementSet::Among(vec![3, 1])), ElementSet::Among(vec![1, 3]));
    assert_eq!(a.intersect(&ElementSet::Among(vec![4])), ElementSet::Empty);
    assert_eq!(a.intersect(&ElementSet::All), a);
    assert_eq!(a.intersect(&ElementSet::Empty), ElementSet::Empty);
    assert_eq!(
        ElementSet::Not(vec![1]).intersect(&ElementSet::Not(vec![2, 1])),
        ElementSet::Not(vec![1, 2])
    );
}

#[test]
fn union_of_sets() {
    let a = ElementSet::Among(vec![1]);
    assert_eq!(a.union(&ElementSet::Not(vec![1, 2])), ElementSet::Not(vec![2]));
    assert_eq!(a.union(&ElementSet::Not(vec![1])), ElementSet::All);
    assert_eq!(a.union(&ElementSet::Among(vec![2, 1])), ElementSet::Among(vec![1, 2]));
    assert_eq!(a.union(&ElementSet::Empty), a);
    assert_eq!(a.union(&ElementSet::All), ElementSet::All);
    assert_eq!(
        ElementSet::Not(vec![1, 2]).union(&ElementSet::Not(vec![2, 3])),
        ElementSet::Not(vec![2])
    );
}

#[test]
fn three_valued_operations() {
    let t = TruthValue::Determined(true);
    let f = TruthValue::Determined(false);
    let u = TruthValue::Undetermined;
    assert_eq!(t.not(), f);
    assert_eq!(u.not(), u);
    assert_eq!(t.and(u), u);
    assert_eq!(f.and(u), f);
    assert_eq!(u.and(f), f);
    assert_eq!(t.and(t), t);
    assert_eq!(t.or(u), t);
    assert_eq!(u.or(t), t);
    assert_eq!(f.or(u), u);
    assert_eq!(f.or(f), f);
    assert_eq!(u.or(u), u);
}

#[test]
fn map_projects_and_lifts() {
    let map = ArgumentMap::new(3, vec![2, 0]);
    let src = Arguments::new(vec![
        ElementQuantifier::One(10),
        ElementQuantifier::One(11),
        ElementQuantifier::One(12),
    ]);
    assert_eq!(
        map.forward(&src),
        Arguments::new(vec![ElementQuantifier::One(12), ElementQuantifier::One(10)])
    );
    let tgt = Arguments::new(vec![ElementQuantifier::One(1), ElementQuantifier::One(2)]);
    assert_eq!(
        map.backward(&tgt, ElementQuantifier::Any),
        Arguments::new(vec![
            ElementQuantifier::One(2),
            ElementQuantifier::Any,
            ElementQuantifier::One(1),
        ])
    );
}

#[test]
fn lifting_evidence_intersects_shared_positions() {
    let map = ArgumentMap::new(1, vec![0, 0]);
    let tgt = Arguments::new(vec![ElementSet::Among(vec![1, 2]), ElementSet::Among(vec![2, 3])]);
    assert_eq!(
        map.backward_evidence(&tgt, &ElementSet::All),
        Arguments::new(vec![ElementSet::Among(vec![2])])
    );
    let wide = ArgumentMap::new(2, vec![1]);
    assert_eq!(
        wide.backward_evidence(&Arguments::new(vec![ElementSet::Among(vec![5])]), &ElementSet::All),
        Arguments::new(vec![ElementSet::All, ElementSet::Among(vec![5])])
    );
}

#[test]
fn tuple_tests() {
    assert!(Arguments::new(vec![ElementSet::All, ElementSet::All]).maximal());
    assert!(!Arguments::new(vec![ElementSet::All, ElementSet::Among(vec![1])]).maximal());
    assert!(Arguments::new(vec![ElementSet::Among(vec![1])]).inhabited());
    assert!(!Arguments::new(vec![ElementSet::All, ElementSet::Empty]).inhabited());
    assert_eq!(
        Arguments::new(vec![ElementQuantifier::One(2), ElementQuantifier::Any]).promote(),
        Arguments::new(vec![ElementSet::Among(vec![2]), ElementSet::All])
    );
}

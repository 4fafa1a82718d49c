use first_order_logic::syntax::{
    Clause, ConjunctiveNormalFormula, FunctionCall, GenericAtomicFormula, Literal, Negation, Variable,
};

fn atom(p: u64, terms: Vec<Variable>) -> GenericAtomicFormula {
    GenericAtomicFormula::Predicate(FunctionCall { function: p, terms })
}

#[test]
fn variables_and_renaming() {
    let x = Variable::new(b'x'.into());
    let y = Variable::new(b'y'.into());
    assert_eq!(x.label, 120);
    let mut v = x;
    v.replace(y, x);
    assert_eq!(v, x);
    v.replace(x, y);
    assert_eq!(v, y);
    let mut call = FunctionCall { function: 1, terms: vec![x, y, x] };
    call.replace(x, y);
    assert_eq!(call.terms, vec![y, y, y]);
    assert_eq!(call.arity(), 3);
}

#[test]
fn literal_negation_round_trip() {
    let x = Variable::new(1);
    let p = Literal::Atom(atom(b'P'.into(), vec![x]));
    let not_p = p.negate();
    assert_eq!(not_p, Literal::Negated(Negation { right: atom(b'P'.into(), vec![x]) }));
    assert_eq!(not_p.negate(), p);
}

#[test]
fn clauses_and_conjunctions_concatenate() {
    let p = Literal::Atom(GenericAtomicFormula::True);
    let q = Literal::Atom(GenericAtomicFormula::False);
    let c = Clause { literals: vec![p.clone()] }.or(Clause { literals: vec![q.clone()] });
    assert_eq!(c.literals, vec![p.clone(), q.clone()]);
    let f = ConjunctiveNormalFormula { clauses: vec![c] }
        .and(ConjunctiveNormalFormula { clauses: vec![Clause { literals: vec![q.clone()] }] });
    assert_eq!(f.into_clause_normal_form(), vec![vec![p, q.clone()], vec![q]]);
}

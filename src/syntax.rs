//! Syntax trees for first-order formulas, and clause-normal-form building blocks.

use vstd::prelude::*;

use crate::arena::random_token;

verus! {

/// A variable of a formula, named by a label.
#[derive(Debug, Clone, Copy, PartialEq, Eq, Hash, Structural)]
pub struct Variable {
    /// The label of the variable.
    pub label: u64,
}

impl Variable {
    /// The variable labelled `label`.
    pub fn new(label: u64) -> (r: Variable)
        ensures
            r.label == label,
    {
        Variable { label }
    }

    /// A variable with a random label, to keep variables apart when formulas are combined.
    pub fn rand() -> (r: Variable) {
        Variable::new(random_token())
    }

    /// Renames this variable to `right` if it is `old_var`.
    pub fn replace(&mut self, old_var: Variable, right: Variable)
        ensures
            *final(self) == (if *old(self) == old_var {
                right
            } else {
                *old(self)
            }),
    {
        if *self == old_var {
            self.label = right.label;
        }
    }
}

/// The disjunction of two formulas.
#[derive(Debug, Clone, PartialEq, Eq)]
pub struct Disjunction<Left, Right> {
    /// The left formula.
    pub left: Left,
    /// The right formula.
    pub right: Right,
}

/// The implication of `right` by `left`.
#[derive(Debug, Clone, PartialEq, Eq)]
pub struct Implication<Left, Right> {
    /// The premise.
    pub left: Left,
    /// The conclusion.
    pub right: Right,
}

/// The negation of a formula.
#[derive(Debug, Clone, PartialEq, Eq)]
pub struct Negation<F> {
    /// The negated formula.
    pub right: F,
}

/// An existential quantifier over a formula.
#[derive(Debug, Clone, PartialEq, Eq)]
pub struct Existential<Right> {
    /// The quantified variable.
    pub left: Variable,
    /// The formula the quantifier applies to.
    pub right: Right,
}

/// A universal quantifier over a formula.
#[derive(Debug, Clone, PartialEq, Eq)]
pub struct Universal<Right> {
    /// The quantified variable.
    pub left: Variable,
    /// The formula the quantifier applies to.
    pub right: Right,
}

/// A function applied to terms, such as `f(x, y)`.
#[derive(Debug, Clone, PartialEq, Eq)]
pub struct FunctionCall<T> {
    /// The label of the function.
    pub function: u64,
    /// The terms it is applied to.
    pub terms: Vec<T>,
}

impl<T> FunctionCall<T> {
    /// The number of terms.
    pub fn arity(&self) -> (r: usize)
        ensures
            r == self.terms@.len(),
    {
        self.terms.len()
    }
}

impl FunctionCall<Variable> {
    /// Renames every occurrence of `old_var` among the terms to `right`.
    pub fn replace(&mut self, old_var: Variable, right: Variable)
        ensures
            final(self).function == old(self).function,
            final(self).terms@.len() == old(self).terms@.len(),
            forall|i: int|
                0 <= i < old(self).terms@.len() ==> final(self).terms@[i] == (if old(self).terms@[i] == old_var {
                    right
                } else {
                    old(self).terms@[i]
                }),
    {
        let mut i: usize = 0;
        while i < self.terms.len()
            invariant
                i <= self.terms@.len(),
                self.function == old(self).function,
                self.terms@.len() == old(self).terms@.len(),
                forall|k: int|
                    0 <= k < i ==> self.terms@[k] == (if old(self).terms@[k] == old_var {
                        right
                    } else {
                        old(self).terms@[k]
                    }),
                forall|k: int| i <= k < self.terms@.len() ==> self.terms@[k] == old(self).terms@[k],
            decreases self.terms@.len() - i,
        {
            if self.terms[i] == old_var {
                self.terms.set(i, right);
            }
            i = i + 1;
        }
    }
}

/// An atomic formula: a constant, or a predicate applied to variables.
#[derive(Debug, Clone, PartialEq, Eq)]
pub enum GenericAtomicFormula {
    /// Always true.
    True,
    /// Always false.
    False,
    /// A predicate applied to variables.
    Predicate(FunctionCall<Variable>),
}

impl GenericAtomicFormula {
    /// A copy of this formula.
    pub fn duplicate(&self) -> (r: GenericAtomicFormula)
        ensures
            r.same(*self),
    {
        match self {
            GenericAtomicFormula::True => GenericAtomicFormula::True,
            GenericAtomicFormula::False => GenericAtomicFormula::False,
            GenericAtomicFormula::Predicate(call) => {
                let mut terms: Vec<Variable> = Vec::new();
                let mut i: usize = 0;
                while i < call.terms.len()
                    invariant
                        i <= call.terms@.len(),
                        terms@ == call.terms@.subrange(0, i as int),
                    decreases call.terms@.len() - i,
                {
                    terms.push(call.terms[i]);
                    assert(call.terms@.subrange(0, i as int + 1) =~= call.terms@.subrange(0, i as int).push(
                        call.terms@[i as int],
                    ));
                    i = i + 1;
                }
                assert(call.terms@.subrange(0, call.terms@.len() as int) =~= call.terms@);
                GenericAtomicFormula::Predicate(FunctionCall { function: call.function, terms })
            },
        }
    }

    /// Whether two atomic formulas are the same formula.
    pub open spec fn same(&self, other: GenericAtomicFormula) -> bool {
        match (self, other) {
            (GenericAtomicFormula::True, GenericAtomicFormula::True) => true,
            (GenericAtomicFormula::False, GenericAtomicFormula::False) => true,
            (GenericAtomicFormula::Predicate(a), GenericAtomicFormula::Predicate(b)) => a.function
                == b.function && a.terms@ == b.terms@,
            _ => false,
        }
    }
}

/// A literal: an atomic formula or its negation.
#[derive(Debug, Clone, PartialEq, Eq)]
pub enum Literal {
    /// An atom.
    Atom(GenericAtomicFormula),
    /// A negated atom.
    Negated(Negation<GenericAtomicFormula>),
}

impl Literal {
    /// Whether the literal is a negated atom.
    pub open spec fn is_negative(&self) -> bool {
        self is Negated
    }

    /// The atom of the literal.
    pub open spec fn atom(&self) -> GenericAtomicFormula {
        match self {
            Literal::Atom(x) => *x,
            Literal::Negated(n) => n.right,
        }
    }

    /// The literal with the opposite sign on the same atom.
    pub fn negate(&self) -> (r: Literal)
        ensures
            r.is_negative() == !self.is_negative(),
            r.atom().same(self.atom()),
    {
        match self {
            Literal::Atom(x) => Literal::Negated(Negation { right: x.duplicate() }),
            Literal::Negated(n) => Literal::Atom(n.right.duplicate()),
        }
    }
}

/// A flat disjunction of literals, `A ∨ B ∨ ...`.
#[derive(Debug, Clone)]
pub struct Clause {
    /// The literals of the clause.
    pub literals: Vec<Literal>,
}

impl Clause {
    /// The clause holding the literals of `self` followed by those of `rhs`.
    pub fn or(self, rhs: Clause) -> (r: Clause)
        ensures
            r.literals@ == self.literals@ + rhs.literals@,
    {
        let mut literals = self.literals;
        let mut more = rhs.literals;
        literals.append(&mut more);
        Clause { literals }
    }
}

/// A formula in conjunctive normal form, `(P ∨ Q ∨ ...) ∧ (R ∨ ...) ∧ ...`.
#[derive(Debug, Clone)]
pub struct ConjunctiveNormalFormula {
    /// The clauses of the formula.
    pub clauses: Vec<Clause>,
}

/// A conjunctive normal form written as a set of sets of literals.
pub type ClauseNormalForm = Vec<Vec<Literal>>;

impl ConjunctiveNormalFormula {
    /// The formula holding the clauses of `self` followed by those of `rhs`.
    pub fn and(self, rhs: ConjunctiveNormalFormula) -> (r: ConjunctiveNormalFormula)
        ensures
            r.clauses@ == self.clauses@ + rhs.clauses@,
    {
        let mut clauses = self.clauses;
        let mut more = rhs.clauses;
        clauses.append(&mut more);
        ConjunctiveNormalFormula { clauses }
    }

    /// The literals of each clause, in order.
    pub fn into_clause_normal_form(self) -> (r: ClauseNormalForm)
        ensures
            r@.len() == self.clauses@.len(),
            forall|i: int| 0 <= i < r@.len() ==> r@[i] == #[trigger] self.clauses@[i].literals,
    {
        let mut r: ClauseNormalForm = Vec::new();
        let mut clauses = self.clauses;
        let ghost original = clauses@;
        let mut taken: Vec<Clause> = Vec::new();
        while clauses.len() > 0
            invariant
                r@.len() + clauses@.len() == original.len(),
                forall|i: int| 0 <= i < r@.len() ==> r@[i] == #[trigger] original[i].literals,
                clauses@ == original.subrange(r@.len() as int, original.len() as int),
            decreases clauses@.len(),
        {
            let c = clauses.remove(0);
            assert(c == original[r@.len() as int]);
            r.push(c.literals);
            assert(clauses@ =~= original.subrange(r@.len() as int, original.len() as int));
        }
        r
    }
}

} // verus!

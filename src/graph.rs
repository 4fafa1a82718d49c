use vstd::prelude::*;
use vstd::set_lib::lemma_len_subset;

use crate::arguments::{ArgumentMap, Arguments};
use crate::elements::ElementQuantifier;
use crate::truth::{and_spec, not_spec, or_spec, TruthValue};

verus! {

broadcast use vstd::seq_lib::group_seq_properties;

/// A handle to a node of a [`PredicateGraph`].
#[derive(Debug, Clone, Copy, PartialEq, Eq, Structural)]
pub struct PredicateNode {
    /// The node's position in its graph.
    pub id: usize,
}

/// A behavior that knows nothing: every query is undetermined.
#[derive(Debug)]
pub struct Undetermined;

/// A behavior that holds for all combinations of arguments.
#[derive(Debug)]
pub struct UniversallyObeyed;

/// A behavior that holds for the listed argument tuples, and otherwise
/// defers to the behavior it wraps.
#[derive(Debug)]
pub struct TrueForArguments {
    /// The query tuples known to be true.
    pub arguments: Vec<Arguments<ElementQuantifier>>,
    /// The wrapped behavior.
    pub inner: Box<Predicate>,
}

/// The behavior of a node that is the negation of another node.
#[derive(Debug)]
pub struct Negation {
    /// The negated node.
    pub of: PredicateNode,
    /// The token that marks this connective in a traversal.
    pub sig: u64,
}

/// Installed in a negated node so that it knows of its negation.
#[derive(Debug)]
pub struct IsNegated {
    /// The node holding the negation.
    pub negation: PredicateNode,
    /// The wrapped behavior.
    pub inner: Box<Predicate>,
    /// The negation's token.
    pub sig: u64,
}

/// The behavior of a node that is the disjunction of two nodes.
#[derive(Debug)]
pub struct Disjunction {
    /// The left operand.
    pub left: PredicateNode,
    /// The right operand.
    pub right: PredicateNode,
    /// From the disjunction's arguments to the left operand's.
    pub map_left: ArgumentMap,
    /// From the disjunction's arguments to the right operand's.
    pub map_right: ArgumentMap,
    /// The token that marks this connective in a traversal.
    pub sig: u64,
}

/// Installed in an operand of a disjunction so that it learns from it.
#[derive(Debug)]
pub struct IsDisjunctionPart {
    /// The node holding the disjunction.
    pub for_disjunction: PredicateNode,
    /// The wrapped behavior.
    pub inner: Box<Predicate>,
    /// From the disjunction's arguments to this operand's.
    pub map_this: ArgumentMap,
    /// From the disjunction's arguments to the other operand's.
    pub map_other: ArgumentMap,
    /// The disjunction's token.
    pub sig: u64,
    /// The other operand.
    pub with: PredicateNode,
}

/// The behavior of a node that is the conjunction of two nodes.
#[derive(Debug)]
pub struct Conjunction {
    /// The left operand.
    pub left: PredicateNode,
    /// The right operand.
    pub right: PredicateNode,
    /// From the conjunction's arguments to the left operand's.
    pub map_left: ArgumentMap,
    /// From the conjunction's arguments to the right operand's.
    pub map_right: ArgumentMap,
    /// The token that marks this connective in a traversal.
    pub sig: u64,
}

/// Installed in an operand of a conjunction so that it learns from it.
#[derive(Debug)]
pub struct IsConjunctionPart {
    /// The node holding the conjunction.
    pub for_conjunction: PredicateNode,
    /// The wrapped behavior.
    pub inner: Box<Predicate>,
    /// From the conjunction's arguments to this operand's.
    pub map_this: ArgumentMap,
    /// From the conjunction's arguments to the other operand's.
    pub map_other: ArgumentMap,
    /// The conjunction's token.
    pub sig: u64,
    /// The other operand.
    pub with: PredicateNode,
}

/// A behavior that forwards every question to the behavior it holds.
#[derive(Debug)]
pub struct LinkedPredicate {
    /// The behavior that answers.
    pub linked: Box<Predicate>,
}

impl LinkedPredicate {
    /// A behavior that answers as `linked` does.
    pub fn new(linked: Predicate) -> (r: LinkedPredicate)
        ensures
            *r.linked == linked,
    {
        LinkedPredicate { linked: Box::new(linked) }
    }
}

/// The behavior held by a node.
#[derive(Debug)]
pub enum Predicate {
    Undetermined(Undetermined),
    UniversallyObeyed(UniversallyObeyed),
    TrueForArguments(TrueForArguments),
    Negation(Negation),
    IsNegated(IsNegated),
    Disjunction(Disjunction),
    IsDisjunctionPart(IsDisjunctionPart),
    Conjunction(Conjunction),
    IsConjunctionPart(IsConjunctionPart),
    Linked(LinkedPredicate),
}

/// The tokens of the connectives a query has crossed.
pub type GraphTraversalSignature = Vec<u64>;

/// What an operand learns from its composite (`composite`) and its sibling
/// (`sibling`): for a disjunction, false when the disjunction is false, and
/// true when the disjunction is true and the sibling false; for a
/// conjunction, the dual.
pub open spec fn part_answer(composite: TruthValue, sibling: TruthValue, disjunction: bool) -> TruthValue {
    if composite == TruthValue::Determined(!disjunction) {
        TruthValue::Determined(!disjunction)
    } else if composite == TruthValue::Determined(disjunction) && sibling == TruthValue::Determined(
        !disjunction,
    ) {
        TruthValue::Determined(disjunction)
    } else {
        TruthValue::Undetermined
    }
}

/// Whether `args` is one of the query tuples in `list`.
pub open spec fn listed(list: Seq<Arguments<ElementQuantifier>>, args: Seq<ElementQuantifier>) -> bool {
    exists|i: int| 0 <= i < list.len() && list[i]@ == args
}

/// The measure that a traversal decreases: taking an unvisited token of a
/// finite set leaves fewer unvisited, whatever else is visited afterwards.
pub proof fn lemma_visit_decreases(known: Set<u64>, sig: Set<u64>, s: u64, more: Set<u64>)
    requires
        known.finite(),
        known.contains(s),
        !sig.contains(s),
    ensures
        known.difference(sig.insert(s).union(more)).len() < known.difference(sig).len(),
{
    let d = known.difference(sig);
    let d2 = known.difference(sig.insert(s).union(more));
    assert(d2.subset_of(d.remove(s)));
    lemma_len_subset(d2, d.remove(s));
    assert(d.contains(s));
}

/// An arena of predicate nodes. Nodes refer to each other by position, so
/// the cycles between composites and their operands need no shared cells.
pub struct PredicateGraph {
    /// The behavior of each node.
    pub nodes: Vec<Predicate>,
    /// The arity of each node.
    pub arities: Vec<usize>,
    /// Every connective token issued in this graph.
    pub sigs: Vec<u64>,
}

impl PredicateGraph {
    /// The connective tokens of this graph.
    pub open spec fn known(&self) -> Set<u64> {
        self.sigs@.to_set()
    }

    /// How many tokens of this graph a traversal with signature `sig` may still cross.
    pub open spec fn unvisited(&self, sig: Set<u64>) -> nat {
        self.known().difference(sig).len()
    }

    /// Whether `n` names a node of this graph.
    pub open spec fn valid(&self, n: PredicateNode) -> bool {
        n.id < self.arities@.len()
    }

    /// The arity of node `n`.
    pub open spec fn arity(&self, n: PredicateNode) -> nat {
        self.arities@[n.id as int] as nat
    }

    /// The behavior of node `n`.
    pub open spec fn behavior(&self, n: PredicateNode) -> Predicate {
        if n.id < self.nodes@.len() {
            self.nodes@[n.id as int]
        } else {
            Predicate::Undetermined(Undetermined)
        }
    }

    /// Whether behavior `b` fits a node of arity `arity` in this graph: the
    /// nodes it names exist, its maps join arities that agree, and its
    /// tokens were issued here.
    pub open spec fn fits(&self, b: Predicate, arity: nat) -> bool
        decreases b,
    {
        match b {
            Predicate::Undetermined(_) => true,
            Predicate::UniversallyObeyed(_) => true,
            Predicate::TrueForArguments(t) => {
                &&& forall|i: int| 0 <= i < t.arguments@.len() ==> (#[trigger] t.arguments@[i])@.len() == arity
                &&& self.fits(*t.inner, arity)
            },
            Predicate::Negation(x) => {
                &&& self.valid(x.of)
                &&& self.arity(x.of) == arity
                &&& self.known().contains(x.sig)
            },
            Predicate::IsNegated(x) => {
                &&& self.valid(x.negation)
                &&& self.arity(x.negation) == arity
                &&& self.known().contains(x.sig)
                &&& self.fits(*x.inner, arity)
            },
            Predicate::Disjunction(d) => self.composite_fits(
                d.left,
                d.right,
                d.map_left,
                d.map_right,
                d.sig,
                arity,
            ),
            Predicate::IsDisjunctionPart(p) => {
                &&& self.part_fits(p.for_disjunction, p.with, p.map_this, p.map_other, p.sig, arity)
                &&& self.fits(*p.inner, arity)
            },
            Predicate::Conjunction(c) => self.composite_fits(
                c.left,
                c.right,
                c.map_left,
                c.map_right,
                c.sig,
                arity,
            ),
            Predicate::IsConjunctionPart(p) => {
                &&& self.part_fits(p.for_conjunction, p.with, p.map_this, p.map_other, p.sig, arity)
                &&& self.fits(*p.inner, arity)
            },
            Predicate::Linked(l) => self.fits(*l.linked, arity),
        }
    }

    /// The shape of a binary connective of arity `arity`.
    pub open spec fn composite_fits(
        &self,
        left: PredicateNode,
        right: PredicateNode,
        map_left: ArgumentMap,
        map_right: ArgumentMap,
        sig: u64,
        arity: nat,
    ) -> bool {
        &&& self.valid(left)
        &&& self.valid(right)
        &&& map_left.wf()
        &&& map_left.source_len() == arity
        &&& map_left.target_len() == self.arity(left)
        &&& map_right.wf()
        &&& map_right.source_len() == arity
        &&& map_right.target_len() == self.arity(right)
        &&& self.known().contains(sig)
    }

    /// The shape of an operand's link to its connective.
    pub open spec fn part_fits(
        &self,
        composite: PredicateNode,
        with: PredicateNode,
        map_this: ArgumentMap,
        map_other: ArgumentMap,
        sig: u64,
        arity: nat,
    ) -> bool {
        &&& self.valid(composite)
        &&& self.valid(with)
        &&& map_this.wf()
        &&& map_this.source_len() == self.arity(composite)
        &&& map_this.target_len() == arity
        &&& map_other.wf()
        &&& map_other.source_len() == self.arity(composite)
        &&& map_other.target_len() == self.arity(with)
        &&& self.known().contains(sig)
    }

    /// The graph is well formed: one arity per node, and every behavior fits its node.
    pub open spec fn wf(&self) -> bool {
        &&& self.nodes@.len() == self.arities@.len()
        &&& forall|i: int|
            0 <= i < self.nodes@.len() ==> self.fits(#[trigger] self.nodes@[i], self.arities@[i] as nat)
    }

    /// The answer of behavior `b` to the query `args` when the traversal has
    /// already crossed the tokens in `sig`, with the tokens crossed afterwards.
    pub open spec fn answer(&self, b: Predicate, args: Seq<ElementQuantifier>, sig: Set<u64>) -> (
        TruthValue,
        Set<u64>,
    )
        decreases self.unvisited(sig), b,
    {
        match b {
            Predicate::Undetermined(_) => (TruthValue::Undetermined, sig),
            Predicate::UniversallyObeyed(_) => (TruthValue::Determined(true), sig),
            Predicate::TrueForArguments(t) => {
                let r = self.answer(*t.inner, args, sig);
                (or_spec(TruthValue::Determined(listed(t.arguments@, args)), r.0), r.1)
            },
            Predicate::Negation(x) => {
                if sig.contains(x.sig) || !self.known().contains(x.sig) {
                    (TruthValue::Undetermined, sig)
                } else {
                    let s1 = sig.insert(x.sig);
                    proof {
                        lemma_visit_decreases(self.known(), sig, x.sig, Set::empty());
                        assert(s1.union(Set::empty()) =~= s1);
                    }
                    let r = self.answer(self.behavior(x.of), args, s1);
                    (not_spec(r.0), r.1)
                }
            },
            Predicate::IsNegated(x) => {
                if sig.contains(x.sig) {
                    self.answer(*x.inner, args, sig)
                } else if !self.known().contains(x.sig) {
                    (TruthValue::Undetermined, sig)
                } else {
                    let s1 = sig.insert(x.sig);
                    proof {
                        lemma_visit_decreases(self.known(), sig, x.sig, Set::empty());
                        assert(s1.union(Set::empty()) =~= s1);
                    }
                    let r1 = self.answer(self.behavior(x.negation), args, s1);
                    match not_spec(r1.0) {
                        TruthValue::Determined(v) => (TruthValue::Determined(v), r1.1),
                        TruthValue::Undetermined => {
                            proof {
                                lemma_visit_decreases(self.known(), sig, x.sig, r1.1);
                            }
                            self.answer(*x.inner, args, s1.union(r1.1))
                        },
                    }
                }
            },
            Predicate::Disjunction(d) => {
                if sig.contains(d.sig) || !self.known().contains(d.sig) {
                    (TruthValue::Undetermined, sig)
                } else {
                    let s1 = sig.insert(d.sig);
                    proof {
                        lemma_visit_decreases(self.known(), sig, d.sig, Set::empty());
                        assert(s1.union(Set::empty()) =~= s1);
                    }
                    let r1 = self.answer(self.behavior(d.left), d.map_left.forward_spec(args), s1);
                    proof {
                        lemma_visit_decreases(self.known(), sig, d.sig, r1.1);
                    }
                    let r2 = self.answer(
                        self.behavior(d.right),
                        d.map_right.forward_spec(args),
                        s1.union(r1.1),
                    );
                    (or_spec(r1.0, r2.0), r2.1)
                }
            },
            Predicate::Conjunction(c) => {
                if sig.contains(c.sig) || !self.known().contains(c.sig) {
                    (TruthValue::Undetermined, sig)
                } else {
                    let s1 = sig.insert(c.sig);
                    proof {
                        lemma_visit_decreases(self.known(), sig, c.sig, Set::empty());
                        assert(s1.union(Set::empty()) =~= s1);
                    }
                    let r1 = self.answer(self.behavior(c.left), c.map_left.forward_spec(args), s1);
                    proof {
                        lemma_visit_decreases(self.known(), sig, c.sig, r1.1);
                    }
                    let r2 = self.answer(
                        self.behavior(c.right),
                        c.map_right.forward_spec(args),
                        s1.union(r1.1),
                    );
                    (and_spec(r1.0, r2.0), r2.1)
                }
            },
            Predicate::IsDisjunctionPart(p) => {
                if sig.contains(p.sig) {
                    self.answer(*p.inner, args, sig)
                } else if !self.known().contains(p.sig) {
                    (TruthValue::Undetermined, sig)
                } else {
                    let s1 = sig.insert(p.sig);
                    let ac = p.map_this.backward_spec(args, ElementQuantifier::Any);
                    proof {
                        lemma_visit_decreases(self.known(), sig, p.sig, Set::empty());
                        assert(s1.union(Set::empty()) =~= s1);
                    }
                    let r1 = self.answer(self.behavior(p.for_disjunction), ac, s1);
                    proof {
                        lemma_visit_decreases(self.known(), sig, p.sig, r1.1);
                    }
                    let r2 = self.answer(self.behavior(p.with), p.map_other.forward_spec(ac), s1.union(r1.1));
                    (part_answer(r1.0, r2.0, true), r2.1)
                }
            },
            Predicate::IsConjunctionPart(p) => {
                if sig.contains(p.sig) {
                    self.answer(*p.inner, args, sig)
                } else if !self.known().contains(p.sig) {
                    (TruthValue::Undetermined, sig)
                } else {
                    let s1 = sig.insert(p.sig);
                    let ac = p.map_this.backward_spec(args, ElementQuantifier::Any);
                    proof {
                        lemma_visit_decreases(self.known(), sig, p.sig, Set::empty());
                        assert(s1.union(Set::empty()) =~= s1);
                    }
                    let r1 = self.answer(self.behavior(p.for_conjunction), ac, s1);
                    proof {
                        lemma_visit_decreases(self.known(), sig, p.sig, r1.1);
                    }
                    let r2 = self.answer(self.behavior(p.with), p.map_other.forward_spec(ac), s1.union(r1.1));
                    (part_answer(r1.0, r2.0, false), r2.1)
                }
            },
            Predicate::Linked(l) => self.answer(*l.linked, args, sig),
        }
    }

    /// The answer of node `n` to the query `args` under signature `sig`.
    pub open spec fn query(&self, n: PredicateNode, args: Seq<ElementQuantifier>, sig: Set<u64>) -> (
        TruthValue,
        Set<u64>,
    ) {
        self.answer(self.behavior(n), args, sig)
    }
}

/// Whether the traversal signature holds `s`.
pub(crate) fn visited(sig: &Vec<u64>, s: u64) -> (r: bool)
    ensures
        r == sig@.to_set().contains(s),
{
    let mut i: usize = 0;
    while i < sig.len()
        invariant
            i <= sig@.len(),
            forall|k: int| 0 <= k < i ==> sig@[k] != s,
        decreases sig@.len() - i,
    {
        if sig[i] == s {
            assert(sig@.contains(s));
            return true;
        }
        i = i + 1;
    }
    false
}

/// Records `s` in the traversal signature.
pub(crate) fn visit(sig: &mut Vec<u64>, s: u64)
    ensures
        final(sig)@.to_set() == old(sig)@.to_set().insert(s),
{
    sig.push(s);
    proof {
        old(sig)@.lemma_push_to_set_commute(s);
    }
}

/// Whether `args` is one of the tuples in `list`.
fn is_listed(list: &Vec<Arguments<ElementQuantifier>>, args: &Arguments<ElementQuantifier>) -> (r: bool)
    ensures
        r == listed(list@, args@),
{
    let mut i: usize = 0;
    while i < list.len()
        invariant
            i <= list@.len(),
            forall|k: int| 0 <= k < i ==> list@[k]@ != args@,
        decreases list@.len() - i,
    {
        if list[i].same_as(args) {
            return true;
        }
        i = i + 1;
    }
    false
}

impl PredicateGraph {
    /// The answer of behavior `b`, held by a node of this graph, to `args`.
    fn respond(&self, b: &Predicate, args: &Arguments<ElementQuantifier>, sig: &mut Vec<u64>) -> (r:
        TruthValue)
        requires
            self.wf(),
            self.fits(*b, args@.len() as nat),
        ensures
            (r, final(sig)@.to_set()) == self.answer(*b, args@, old(sig)@.to_set()),
            old(sig)@.to_set().subset_of(final(sig)@.to_set()),
            final(sig)@.to_set().subset_of(old(sig)@.to_set().union(self.known())),
        decreases self.unvisited(old(sig)@.to_set()), *b, 1nat,
    {
        match b {
            Predicate::Undetermined(_) => TruthValue::Undetermined,
            Predicate::UniversallyObeyed(_) => TruthValue::Determined(true),
            Predicate::TrueForArguments(t) => {
                let m = is_listed(&t.arguments, args);
                let r = self.respond(&t.inner, args, sig);
                TruthValue::Determined(m).or(r)
            },
            Predicate::Linked(l) => self.respond(&l.linked, args, sig),
            Predicate::Negation(_) => self.respond_negation(b, args, sig),
            Predicate::IsNegated(_) => self.respond_negation(b, args, sig),
            Predicate::Disjunction(_) => self.respond_connective(b, args, sig),
            Predicate::Conjunction(_) => self.respond_connective(b, args, sig),
            Predicate::IsDisjunctionPart(_) => self.respond_part(b, args, sig),
            Predicate::IsConjunctionPart(_) => self.respond_part(b, args, sig),
        }
    }

    /// The answer of a negation, or of a node that knows of its negation.
    fn respond_negation(&self, b: &Predicate, args: &Arguments<ElementQuantifier>, sig: &mut Vec<u64>) -> (r:
        TruthValue)
        requires
            self.wf(),
            self.fits(*b, args@.len() as nat),
            b is Negation || b is IsNegated,
        ensures
            (r, final(sig)@.to_set()) == self.answer(*b, args@, old(sig)@.to_set()),
            old(sig)@.to_set().subset_of(final(sig)@.to_set()),
            final(sig)@.to_set().subset_of(old(sig)@.to_set().union(self.known())),
        decreases self.unvisited(old(sig)@.to_set()), *b, 0nat,
    {
        let ghost s0 = sig@.to_set();
        match b {
            Predicate::Negation(x) => {
                if visited(sig, x.sig) {
                    return TruthValue::Undetermined;
                }
                visit(sig, x.sig);
                proof {
                    lemma_visit_decreases(self.known(), s0, x.sig, Set::empty());
                    assert(s0.insert(x.sig).union(Set::empty()) =~= s0.insert(x.sig));
                }
                let r = self.respond(&self.nodes[x.of.id], args, sig);
                r.not()
            },
            Predicate::IsNegated(x) => {
                if visited(sig, x.sig) {
                    return self.respond(&x.inner, args, sig);
                }
                visit(sig, x.sig);
                let ghost s1 = sig@.to_set();
                proof {
                    lemma_visit_decreases(self.known(), s0, x.sig, Set::empty());
                    assert(s1.union(Set::empty()) =~= s1);
                }
                let r1 = self.respond(&self.nodes[x.negation.id], args, sig);
                match r1.not() {
                    TruthValue::Determined(v) => TruthValue::Determined(v),
                    TruthValue::Undetermined => {
                        proof {
                            lemma_visit_decreases(self.known(), s0, x.sig, sig@.to_set());
                            assert(s1.union(sig@.to_set()) =~= sig@.to_set());
                        }
                        self.respond(&x.inner, args, sig)
                    },
                }
            },
            _ => TruthValue::Undetermined,
        }
    }

    /// The answer of a disjunction or a conjunction.
    fn respond_connective(&self, b: &Predicate, args: &Arguments<ElementQuantifier>, sig: &mut Vec<u64>) -> (r:
        TruthValue)
        requires
            self.wf(),
            self.fits(*b, args@.len() as nat),
            b is Disjunction || b is Conjunction,
        ensures
            (r, final(sig)@.to_set()) == self.answer(*b, args@, old(sig)@.to_set()),
            old(sig)@.to_set().subset_of(final(sig)@.to_set()),
            final(sig)@.to_set().subset_of(old(sig)@.to_set().union(self.known())),
        decreases self.unvisited(old(sig)@.to_set()), *b, 0nat,
    {
        let ghost s0 = sig@.to_set();
        let (left, right, map_left, map_right, token, disjunction) = match b {
            Predicate::Disjunction(d) => (d.left, d.right, &d.map_left, &d.map_right, d.sig, true),
            Predicate::Conjunction(c) => (c.left, c.right, &c.map_left, &c.map_right, c.sig, false),
            _ => {
                return TruthValue::Undetermined;
            },
        };
        if visited(sig, token) {
            return TruthValue::Undetermined;
        }
        visit(sig, token);
        let ghost s1 = sig@.to_set();
        proof {
            lemma_visit_decreases(self.known(), s0, token, Set::empty());
            assert(s1.union(Set::empty()) =~= s1);
        }
        let args_left = map_left.forward(args);
        let args_right = map_right.forward(args);
        let r1 = self.respond(&self.nodes[left.id], &args_left, sig);
        proof {
            lemma_visit_decreases(self.known(), s0, token, sig@.to_set());
            assert(s1.union(sig@.to_set()) =~= sig@.to_set());
        }
        let r2 = self.respond(&self.nodes[right.id], &args_right, sig);
        if disjunction {
            r1.or(r2)
        } else {
            r1.and(r2)
        }
    }

    /// The answer of an operand, from what its connective and the other operand answer.
    fn respond_part(&self, b: &Predicate, args: &Arguments<ElementQuantifier>, sig: &mut Vec<u64>) -> (r:
        TruthValue)
        requires
            self.wf(),
            self.fits(*b, args@.len() as nat),
            b is IsDisjunctionPart || b is IsConjunctionPart,
        ensures
            (r, final(sig)@.to_set()) == self.answer(*b, args@, old(sig)@.to_set()),
            old(sig)@.to_set().subset_of(final(sig)@.to_set()),
            final(sig)@.to_set().subset_of(old(sig)@.to_set().union(self.known())),
        decreases self.unvisited(old(sig)@.to_set()), *b, 0nat,
    {
        let ghost s0 = sig@.to_set();
        let (composite, with, inner, map_this, map_other, token, disjunction) = match b {
            Predicate::IsDisjunctionPart(p) => (
                p.for_disjunction,
                p.with,
                &p.inner,
                &p.map_this,
                &p.map_other,
                p.sig,
                true,
            ),
            Predicate::IsConjunctionPart(p) => (
                p.for_conjunction,
                p.with,
                &p.inner,
                &p.map_this,
                &p.map_other,
                p.sig,
                false,
            ),
            _ => {
                return TruthValue::Undetermined;
            },
        };
        if visited(sig, token) {
            return self.respond(inner, args, sig);
        }
        visit(sig, token);
        let ghost s1 = sig@.to_set();
        proof {
            lemma_visit_decreases(self.known(), s0, token, Set::empty());
            assert(s1.union(Set::empty()) =~= s1);
        }
        let args_composite = map_this.backward(args, ElementQuantifier::Any);
        let args_other = map_other.forward(&args_composite);
        let r1 = self.respond(&self.nodes[composite.id], &args_composite, sig);
        proof {
            lemma_visit_decreases(self.known(), s0, token, sig@.to_set());
            assert(s1.union(sig@.to_set()) =~= sig@.to_set());
        }
        let r2 = self.respond(&self.nodes[with.id], &args_other, sig);
        if r1 == TruthValue::Determined(!disjunction) {
            TruthValue::Determined(!disjunction)
        } else if r1 == TruthValue::Determined(disjunction) && r2 == TruthValue::Determined(!disjunction) {
            TruthValue::Determined(disjunction)
        } else {
            TruthValue::Undetermined
        }
    }

    /// Asks node `node` whether it holds for `args`, given the connectives
    /// already crossed in `sig`; clients pass an empty signature.
    pub fn call_for_elements(
        &self,
        node: PredicateNode,
        args: &Arguments<ElementQuantifier>,
        sig: &mut GraphTraversalSignature,
    ) -> (r: TruthValue)
        requires
            self.wf(),
            self.valid(node),
            args@.len() == self.arity(node),
        ensures
            (r, final(sig)@.to_set()) == self.query(node, args@, old(sig)@.to_set()),
            old(sig)@.to_set().subset_of(final(sig)@.to_set()),
            final(sig)@.to_set().subset_of(old(sig)@.to_set().union(self.known())),
    {
        self.respond(&self.nodes[node.id], args, sig)
    }
}

} // verus!

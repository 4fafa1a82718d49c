use vstd::prelude::*;

use crate::arguments::{
    evidence_view, every, join_tuples, meet_tuples, promote, sets_view, ArgumentMap, Arguments,
};
use crate::elements::{ElementQuantifier, ElementSet, ElementSetModel};
use crate::graph::{
    lemma_visit_decreases, visit, visited, GraphTraversalSignature, Predicate, PredicateGraph, PredicateNode,
};

verus! {

broadcast use vstd::seq_lib::group_seq_properties;

/// Position-wise union (`with_union`) or intersection of two evidence tuples.
pub open spec fn combine(a: Seq<ElementSetModel>, b: Seq<ElementSetModel>, with_union: bool) -> Seq<
    ElementSetModel,
> {
    if with_union {
        join_tuples(a, b)
    } else {
        meet_tuples(a, b)
    }
}

/// Every tuple of `ls` combined with every tuple of `rs`, row by row.
pub open spec fn cross(ls: Seq<Seq<ElementSetModel>>, rs: Seq<Seq<ElementSetModel>>, with_union: bool) -> Seq<
    Seq<ElementSetModel>,
>
    decreases ls.len(),
{
    if ls.len() == 0 {
        Seq::empty()
    } else {
        cross(ls.drop_last(), rs, with_union) + rs.map_values(
            |r: Seq<ElementSetModel>| combine(ls.last(), r, with_union),
        )
    }
}

/// Each tuple of `v` lifted back through `map`, free positions admitting everything.
pub open spec fn lift_all(v: Seq<Seq<ElementSetModel>>, map: ArgumentMap) -> Seq<Seq<ElementSetModel>> {
    v.map_values(|t: Seq<ElementSetModel>| map.backward_sets_spec(t, ElementSetModel::All))
}

/// Each tuple of `v` projected through `map`.
pub open spec fn project_all(v: Seq<Seq<ElementSetModel>>, map: ArgumentMap) -> Seq<Seq<ElementSetModel>> {
    v.map_values(|t: Seq<ElementSetModel>| map.forward_spec(t))
}

/// Every tuple of `v` has `n` positions.
pub open spec fn all_width(v: Seq<Arguments<ElementSet>>, n: nat) -> bool {
    forall|i: int| 0 <= i < v.len() ==> (#[trigger] v[i])@.len() == n
}

impl PredicateGraph {
    /// The evidence of behavior `b`, held by a node of arity `arity`: the
    /// tuples of element sets on which it is known true (`truth`) or known
    /// false, with the tokens crossed while gathering it.
    pub open spec fn evidence(&self, b: Predicate, arity: nat, truth: bool, sig: Set<u64>) -> (
        Seq<Seq<ElementSetModel>>,
        Set<u64>,
    )
        decreases self.unvisited(sig), b,
    {
        match b {
            Predicate::Undetermined(_) => (Seq::empty(), sig),
            Predicate::UniversallyObeyed(_) => (
                seq![every(if truth { ElementSetModel::All } else { ElementSetModel::Empty }, arity)],
                sig,
            ),
            Predicate::TrueForArguments(t) => {
                let r = self.evidence(*t.inner, arity, truth, sig);
                if truth {
                    (t.arguments@.map_values(|a: Arguments<ElementQuantifier>| promote(a@)) + r.0, r.1)
                } else {
                    r
                }
            },
            Predicate::Negation(x) => {
                if sig.contains(x.sig) || !self.known().contains(x.sig) {
                    (Seq::empty(), sig)
                } else {
                    let s1 = sig.insert(x.sig);
                    proof {
                        lemma_visit_decreases(self.known(), sig, x.sig, Set::empty());
                        assert(s1.union(Set::empty()) =~= s1);
                    }
                    self.evidence(self.behavior(x.of), self.arity(x.of), !truth, s1)
                }
            },
            Predicate::IsNegated(x) => {
                if sig.contains(x.sig) {
                    self.evidence(*x.inner, arity, truth, sig)
                } else if !self.known().contains(x.sig) {
                    (Seq::empty(), sig)
                } else {
                    let s1 = sig.insert(x.sig);
                    proof {
                        lemma_visit_decreases(self.known(), sig, x.sig, Set::empty());
                        assert(s1.union(Set::empty()) =~= s1);
                    }
                    let r1 = self.evidence(self.behavior(x.negation), self.arity(x.negation), !truth, s1);
                    proof {
                        lemma_visit_decreases(self.known(), sig, x.sig, r1.1);
                    }
                    let r2 = self.evidence(*x.inner, arity, truth, s1.union(r1.1));
                    (r1.0 + r2.0, r2.1)
                }
            },
            Predicate::Disjunction(d) => {
                if sig.contains(d.sig) || !self.known().contains(d.sig) {
                    (Seq::empty(), sig)
                } else {
                    let s1 = sig.insert(d.sig);
                    proof {
                        lemma_visit_decreases(self.known(), sig, d.sig, Set::empty());
                        assert(s1.union(Set::empty()) =~= s1);
                    }
                    let r1 = self.evidence(self.behavior(d.left), self.arity(d.left), truth, s1);
                    proof {
                        lemma_visit_decreases(self.known(), sig, d.sig, r1.1);
                    }
                    let r2 = self.evidence(self.behavior(d.right), self.arity(d.right), truth, s1.union(r1.1));
                    (cross(lift_all(r1.0, d.map_left), lift_all(r2.0, d.map_right), truth), r2.1)
                }
            },
            Predicate::Conjunction(c) => {
                if sig.contains(c.sig) || !self.known().contains(c.sig) {
                    (Seq::empty(), sig)
                } else {
                    let s1 = sig.insert(c.sig);
                    proof {
                        lemma_visit_decreases(self.known(), sig, c.sig, Set::empty());
                        assert(s1.union(Set::empty()) =~= s1);
                    }
                    let r1 = self.evidence(self.behavior(c.left), self.arity(c.left), truth, s1);
                    proof {
                        lemma_visit_decreases(self.known(), sig, c.sig, r1.1);
                    }
                    let r2 = self.evidence(self.behavior(c.right), self.arity(c.right), truth, s1.union(r1.1));
                    (cross(lift_all(r1.0, c.map_left), lift_all(r2.0, c.map_right), !truth), r2.1)
                }
            },
            Predicate::IsDisjunctionPart(p) => {
                if sig.contains(p.sig) {
                    self.evidence(*p.inner, arity, truth, sig)
                } else if !self.known().contains(p.sig) {
                    (Seq::empty(), sig)
                } else {
                    let s1 = sig.insert(p.sig);
                    proof {
                        lemma_visit_decreases(self.known(), sig, p.sig, Set::empty());
                        assert(s1.union(Set::empty()) =~= s1);
                    }
                    let r1 = self.evidence(self.behavior(p.for_disjunction), self.arity(p.for_disjunction), truth, s1);
                    proof {
                        lemma_visit_decreases(self.known(), sig, p.sig, r1.1);
                    }
                    if truth {
                        let r2 = self.evidence(self.behavior(p.with), self.arity(p.with), false, s1.union(r1.1));
                        proof {
                            lemma_visit_decreases(self.known(), sig, p.sig, r1.1.union(r2.1));
                            assert(s1.union(r1.1).union(r2.1) =~= s1.union(r1.1.union(r2.1)));
                        }
                        let r3 = self.evidence(*p.inner, arity, true, s1.union(r1.1).union(r2.1));
                        (
                            cross(
                                project_all(r1.0, p.map_this),
                                project_all(lift_all(r2.0, p.map_other), p.map_this),
                                false,
                            ) + r3.0,
                            r3.1,
                        )
                    } else {
                        let r2 = self.evidence(*p.inner, arity, false, s1.union(r1.1));
                        (project_all(r1.0, p.map_this) + r2.0, r2.1)
                    }
                }
            },
            Predicate::IsConjunctionPart(p) => {
                if sig.contains(p.sig) {
                    self.evidence(*p.inner, arity, truth, sig)
                } else if !self.known().contains(p.sig) {
                    (Seq::empty(), sig)
                } else {
                    let s1 = sig.insert(p.sig);
                    proof {
                        lemma_visit_decreases(self.known(), sig, p.sig, Set::empty());
                        assert(s1.union(Set::empty()) =~= s1);
                    }
                    let r1 = self.evidence(self.behavior(p.for_conjunction), self.arity(p.for_conjunction), truth, s1);
                    proof {
                        lemma_visit_decreases(self.known(), sig, p.sig, r1.1);
                    }
                    if !truth {
                        let r2 = self.evidence(self.behavior(p.with), self.arity(p.with), true, s1.union(r1.1));
                        proof {
                            lemma_visit_decreases(self.known(), sig, p.sig, r1.1.union(r2.1));
                            assert(s1.union(r1.1).union(r2.1) =~= s1.union(r1.1.union(r2.1)));
                        }
                        let r3 = self.evidence(*p.inner, arity, false, s1.union(r1.1).union(r2.1));
                        (
                            cross(
                                project_all(r1.0, p.map_this),
                                project_all(lift_all(r2.0, p.map_other), p.map_this),
                                false,
                            ) + r3.0,
                            r3.1,
                        )
                    } else {
                        let r2 = self.evidence(*p.inner, arity, true, s1.union(r1.1));
                        (project_all(r1.0, p.map_this) + r2.0, r2.1)
                    }
                }
            },
            Predicate::Linked(l) => self.evidence(*l.linked, arity, truth, sig),
        }
    }

    /// The evidence of node `n` under signature `sig`.
    pub open spec fn node_evidence(&self, n: PredicateNode, truth: bool, sig: Set<u64>) -> (
        Seq<Seq<ElementSetModel>>,
        Set<u64>,
    ) {
        self.evidence(self.behavior(n), self.arity(n), truth, sig)
    }
}

proof fn lemma_view_append(a: Seq<Arguments<ElementSet>>, b: Seq<Arguments<ElementSet>>)
    ensures
        evidence_view(a + b) == evidence_view(a) + evidence_view(b),
{
    assert(evidence_view(a + b) =~= evidence_view(a) + evidence_view(b));
}

/// `a` followed by `b`.
fn chain(a: Vec<Arguments<ElementSet>>, b: Vec<Arguments<ElementSet>>) -> (r: Vec<Arguments<ElementSet>>)
    ensures
        evidence_view(r@) == evidence_view(a@) + evidence_view(b@),
        forall|n: nat| all_width(a@, n) && all_width(b@, n) ==> all_width(r@, n),
{
    let mut r = a;
    let mut b = b;
    let ghost a0 = r@;
    let ghost b0 = b@;
    r.append(&mut b);
    proof {
        lemma_view_append(a0, b0);
    }
    r
}

/// The evidence tuples that cover exactly the query tuples of `list`.
fn promote_all(list: &Vec<Arguments<ElementQuantifier>>) -> (r: Vec<Arguments<ElementSet>>)
    ensures
        evidence_view(r@) == list@.map_values(|a: Arguments<ElementQuantifier>| promote(a@)),
        forall|n: nat| (forall|i: int| 0 <= i < list@.len() ==> (#[trigger] list@[i])@.len() == n) ==> all_width(r@, n),
{
    let mut r: Vec<Arguments<ElementSet>> = Vec::new();
    let mut i: usize = 0;
    while i < list.len()
        invariant
            i <= list@.len(),
            r@.len() == i,
            forall|k: int| 0 <= k < i ==> sets_view(#[trigger] r@[k]) == promote(list@[k]@),
            forall|k: int| 0 <= k < i ==> (#[trigger] r@[k])@.len() == list@[k]@.len(),
        decreases list@.len() - i,
    {
        let t = list[i].promote();
        assert(sets_view(t).len() == t@.len());
        r.push(t);
        i = i + 1;
    }
    assert(evidence_view(r@) =~= list@.map_values(|a: Arguments<ElementQuantifier>| promote(a@)));
    r
}

/// Each tuple lifted back through `map`, free positions admitting everything.
fn lift_each(v: &Vec<Arguments<ElementSet>>, map: &ArgumentMap) -> (r: Vec<Arguments<ElementSet>>)
    requires
        map.wf(),
        all_width(v@, map.target_len()),
    ensures
        evidence_view(r@) == lift_all(evidence_view(v@), *map),
        all_width(r@, map.source_len()),
{
    let all = ElementSet::All;
    let mut r: Vec<Arguments<ElementSet>> = Vec::new();
    let mut i: usize = 0;
    while i < v.len()
        invariant
            map.wf(),
            all_width(v@, map.target_len()),
            all@ == ElementSetModel::All,
            i <= v@.len(),
            r@.len() == i,
            forall|k: int|
                0 <= k < i ==> sets_view(#[trigger] r@[k]) == map.backward_sets_spec(sets_view(v@[k]), ElementSetModel::All),
            all_width(r@, map.source_len()),
        decreases v@.len() - i,
    {
        let t = map.backward_evidence(&v[i], &all);
        r.push(t);
        i = i + 1;
    }
    assert(evidence_view(r@) =~= lift_all(evidence_view(v@), *map));
    r
}

/// Each tuple projected through `map`.
fn project_each(v: &Vec<Arguments<ElementSet>>, map: &ArgumentMap) -> (r: Vec<Arguments<ElementSet>>)
    requires
        map.wf(),
        all_width(v@, map.source_len()),
    ensures
        evidence_view(r@) == project_all(evidence_view(v@), *map),
        all_width(r@, map.target_len()),
{
    let mut r: Vec<Arguments<ElementSet>> = Vec::new();
    let mut i: usize = 0;
    while i < v.len()
        invariant
            map.wf(),
            all_width(v@, map.source_len()),
            i <= v@.len(),
            r@.len() == i,
            forall|k: int| 0 <= k < i ==> sets_view(#[trigger] r@[k]) == map.forward_spec(sets_view(v@[k])),
            all_width(r@, map.target_len()),
        decreases v@.len() - i,
    {
        let t = map.forward_evidence(&v[i]);
        assert(t@.len() == map.target_len()) by {
            assert(sets_view(t).len() == t@.len());
        }
        r.push(t);
        i = i + 1;
    }
    assert(evidence_view(r@) =~= project_all(evidence_view(v@), *map));
    r
}

/// Every tuple of `ls` combined with every tuple of `rs`.
fn cross_each(ls: &Vec<Arguments<ElementSet>>, rs: &Vec<Arguments<ElementSet>>, with_union: bool, n: Ghost<nat>) -> (r: Vec<
    Arguments<ElementSet>,
>)
    requires
        all_width(ls@, n@),
        all_width(rs@, n@),
    ensures
        evidence_view(r@) == cross(evidence_view(ls@), evidence_view(rs@), with_union),
        all_width(r@, n@),
{
    let ghost lv = evidence_view(ls@);
    let ghost rv = evidence_view(rs@);
    let mut r: Vec<Arguments<ElementSet>> = Vec::new();
    let mut i: usize = 0;
    assert(lv.subrange(0, 0) =~= Seq::<Seq<ElementSetModel>>::empty());
    while i < ls.len()
        invariant
            all_width(ls@, n@),
            all_width(rs@, n@),
            lv == evidence_view(ls@),
            rv == evidence_view(rs@),
            i <= ls@.len(),
            evidence_view(r@) == cross(lv.subrange(0, i as int), rv, with_union),
            all_width(r@, n@),
        decreases ls@.len() - i,
    {
        let ghost base = r@;
        let mut j: usize = 0;
        while j < rs.len()
            invariant
                all_width(ls@, n@),
                all_width(rs@, n@),
                lv == evidence_view(ls@),
                rv == evidence_view(rs@),
                i < ls@.len(),
                j <= rs@.len(),
                r@.len() == base.len() + j,
                r@.subrange(0, base.len() as int) == base,
                forall|k: int|
                    0 <= k < j ==> sets_view(#[trigger] r@[base.len() + k]) == combine(lv[i as int], rv[k], with_union),
                all_width(r@, n@),
            decreases rs@.len() - j,
        {
            let t = ls[i].combine(&rs[j], with_union);
            proof {
                assert(sets_view(t).len() == t@.len());
            }
            r.push(t);
            assert(r@.subrange(0, base.len() as int) =~= base);
            j = j + 1;
        }
        proof {
            let row = rv.map_values(|x: Seq<ElementSetModel>| combine(lv[i as int], x, with_union));
            let p = lv.subrange(0, i as int + 1);
            assert(p.drop_last() =~= lv.subrange(0, i as int));
            assert(p.last() == lv[i as int]);
            assert(forall|k: int| 0 <= k < base.len() ==> r@[k] == r@.subrange(0, base.len() as int)[k]);
            assert(evidence_view(r@).len() == evidence_view(base).len() + row.len());
            assert forall|k: int| 0 <= k < evidence_view(r@).len() implies evidence_view(r@)[k] == (
            evidence_view(base) + row)[k] by {
                if k >= base.len() {
                    assert(sets_view(r@[base.len() + (k - base.len())]) == combine(lv[i as int], rv[k - base.len()], with_union));
                }
            }
            assert(evidence_view(r@) =~= evidence_view(base) + row);
        }
        i = i + 1;
    }
    assert(lv.subrange(0, ls@.len() as int) =~= lv);
    r
}

impl PredicateGraph {
    /// The evidence of behavior `b`, held by a node of arity `arity`.
    #[verifier::rlimit(100)]
    #[verifier::spinoff_prover]
    fn gather(&self, b: &Predicate, arity: usize, truth: bool, sig: &mut Vec<u64>) -> (r: Vec<
        Arguments<ElementSet>,
    >)
        requires
            self.wf(),
            self.fits(*b, arity as nat),
        ensures
            (evidence_view(r@), final(sig)@.to_set()) == self.evidence(*b, arity as nat, truth, old(sig)@.to_set()),
            old(sig)@.to_set().subset_of(final(sig)@.to_set()),
            final(sig)@.to_set().subset_of(old(sig)@.to_set().union(self.known())),
            all_width(r@, arity as nat),
        decreases self.unvisited(old(sig)@.to_set()), *b,
    {
        let ghost s0 = sig@.to_set();
        match b {
            Predicate::Undetermined(_) => {
                let r: Vec<Arguments<ElementSet>> = Vec::new();
                assert(evidence_view(r@) =~= Seq::empty());
                r
            },
            Predicate::UniversallyObeyed(_) => {
                let s = if truth { ElementSet::All } else { ElementSet::Empty };
                let t = Arguments::every(&s, arity);
                assert(sets_view(t).len() == t@.len());
                let mut r: Vec<Arguments<ElementSet>> = Vec::new();
                r.push(t);
                assert(evidence_view(r@) =~= seq![every(
                    if truth { ElementSetModel::All } else { ElementSetModel::Empty },
                    arity as nat,
                )]);
                r
            },
            Predicate::TrueForArguments(t) => {
                let rest = self.gather(&t.inner, arity, truth, sig);
                if truth {
                    let own = promote_all(&t.arguments);
                    chain(own, rest)
                } else {
                    rest
                }
            },
            Predicate::Negation(x) => {
                if visited(sig, x.sig) {
                    let r: Vec<Arguments<ElementSet>> = Vec::new();
                    assert(evidence_view(r@) =~= Seq::empty());
                    return r;
                }
                visit(sig, x.sig);
                proof {
                    lemma_visit_decreases(self.known(), s0, x.sig, Set::empty());
                    assert(s0.insert(x.sig).union(Set::empty()) =~= s0.insert(x.sig));
                }
                self.gather(&self.nodes[x.of.id], self.arities[x.of.id], !truth, sig)
            },
            Predicate::IsNegated(x) => {
                if visited(sig, x.sig) {
                    return self.gather(&x.inner, arity, truth, sig);
                }
                visit(sig, x.sig);
                let ghost s1 = sig@.to_set();
                proof {
                    lemma_visit_decreases(self.known(), s0, x.sig, Set::empty());
                    assert(s1.union(Set::empty()) =~= s1);
                }
                let r1 = self.gather(&self.nodes[x.negation.id], self.arities[x.negation.id], !truth, sig);
                proof {
                    lemma_visit_decreases(self.known(), s0, x.sig, sig@.to_set());
                    assert(s1.union(sig@.to_set()) =~= sig@.to_set());
                }
                let r2 = self.gather(&x.inner, arity, truth, sig);
                chain(r1, r2)
            },
            Predicate::Disjunction(d) => {
                if visited(sig, d.sig) {
                    let r: Vec<Arguments<ElementSet>> = Vec::new();
                    assert(evidence_view(r@) =~= Seq::empty());
                    return r;
                }
                visit(sig, d.sig);
                let ghost s1 = sig@.to_set();
                proof {
                    lemma_visit_decreases(self.known(), s0, d.sig, Set::empty());
                    assert(s1.union(Set::empty()) =~= s1);
                }
                let r1 = self.gather(&self.nodes[d.left.id], self.arities[d.left.id], truth, sig);
                proof {
                    lemma_visit_decreases(self.known(), s0, d.sig, sig@.to_set());
                    assert(s1.union(sig@.to_set()) =~= sig@.to_set());
                }
                let r2 = self.gather(&self.nodes[d.right.id], self.arities[d.right.id], truth, sig);
                let ls = lift_each(&r1, &d.map_left);
                let rs = lift_each(&r2, &d.map_right);
                cross_each(&ls, &rs, truth, Ghost(arity as nat))
            },
            Predicate::Conjunction(c) => {
                if visited(sig, c.sig) {
                    let r: Vec<Arguments<ElementSet>> = Vec::new();
                    assert(evidence_view(r@) =~= Seq::empty());
                    return r;
                }
                visit(sig, c.sig);
                let ghost s1 = sig@.to_set();
                proof {
                    lemma_visit_decreases(self.known(), s0, c.sig, Set::empty());
                    assert(s1.union(Set::empty()) =~= s1);
                }
                let r1 = self.gather(&self.nodes[c.left.id], self.arities[c.left.id], truth, sig);
                proof {
                    lemma_visit_decreases(self.known(), s0, c.sig, sig@.to_set());
                    assert(s1.union(sig@.to_set()) =~= sig@.to_set());
                }
                let r2 = self.gather(&self.nodes[c.right.id], self.arities[c.right.id], truth, sig);
                let ls = lift_each(&r1, &c.map_left);
                let rs = lift_each(&r2, &c.map_right);
                cross_each(&ls, &rs, !truth, Ghost(arity as nat))
            },
            Predicate::IsDisjunctionPart(p) => {
                if visited(sig, p.sig) {
                    return self.gather(&p.inner, arity, truth, sig);
                }
                visit(sig, p.sig);
                let ghost s1 = sig@.to_set();
                proof {
                    lemma_visit_decreases(self.known(), s0, p.sig, Set::empty());
                    assert(s1.union(Set::empty()) =~= s1);
                }
                let r1 = self.gather(&self.nodes[p.for_disjunction.id], self.arities[p.for_disjunction.id], truth, sig);
                let ghost s2 = sig@.to_set();
                proof {
                    lemma_visit_decreases(self.known(), s0, p.sig, s2);
                    assert(s1.union(s2) =~= s2);
                }
                let own = project_each(&r1, &p.map_this);
                if truth {
                    let r2 = self.gather(&self.nodes[p.with.id], self.arities[p.with.id], false, sig);
                    proof {
                        lemma_visit_decreases(self.known(), s0, p.sig, s2.union(sig@.to_set()));
                        assert(s1.union(s2).union(sig@.to_set()) =~= sig@.to_set());
                        assert(s1.union(s2.union(sig@.to_set())) =~= sig@.to_set());
                    }
                    let lifted = lift_each(&r2, &p.map_other);
                    let other = project_each(&lifted, &p.map_this);
                    let r3 = self.gather(&p.inner, arity, true, sig);
                    chain(cross_each(&own, &other, false, Ghost(arity as nat)), r3)
                } else {
                    let r2 = self.gather(&p.inner, arity, false, sig);
                    chain(own, r2)
                }
            },
            Predicate::IsConjunctionPart(p) => {
                if visited(sig, p.sig) {
                    return self.gather(&p.inner, arity, truth, sig);
                }
                visit(sig, p.sig);
                let ghost s1 = sig@.to_set();
                proof {
                    lemma_visit_decreases(self.known(), s0, p.sig, Set::empty());
                    assert(s1.union(Set::empty()) =~= s1);
                }
                let r1 = self.gather(&self.nodes[p.for_conjunction.id], self.arities[p.for_conjunction.id], truth, sig);
                let ghost s2 = sig@.to_set();
                proof {
                    lemma_visit_decreases(self.known(), s0, p.sig, s2);
                    assert(s1.union(s2) =~= s2);
                }
                let own = project_each(&r1, &p.map_this);
                if !truth {
                    let r2 = self.gather(&self.nodes[p.with.id], self.arities[p.with.id], true, sig);
                    proof {
                        lemma_visit_decreases(self.known(), s0, p.sig, s2.union(sig@.to_set()));
                        assert(s1.union(s2).union(sig@.to_set()) =~= sig@.to_set());
                        assert(s1.union(s2.union(sig@.to_set())) =~= sig@.to_set());
                    }
                    let lifted = lift_each(&r2, &p.map_other);
                    let other = project_each(&lifted, &p.map_this);
                    let r3 = self.gather(&p.inner, arity, false, sig);
                    chain(cross_each(&own, &other, false, Ghost(arity as nat)), r3)
                } else {
                    let r2 = self.gather(&p.inner, arity, true, sig);
                    chain(own, r2)
                }
            },
            Predicate::Linked(l) => self.gather(&l.linked, arity, truth, sig),
        }
    }

    /// Every tuple of element sets on which node `node` is known true, given
    /// the connectives already crossed in `sig`.
    pub fn get_elements_for_true(&self, node: PredicateNode, sig: &mut GraphTraversalSignature) -> (r: Vec<
        Arguments<ElementSet>,
    >)
        requires
            self.wf(),
            self.valid(node),
        ensures
            (evidence_view(r@), final(sig)@.to_set()) == self.node_evidence(node, true, old(sig)@.to_set()),
            old(sig)@.to_set().subset_of(final(sig)@.to_set()),
            final(sig)@.to_set().subset_of(old(sig)@.to_set().union(self.known())),
            all_width(r@, self.arity(node)),
    {
        self.gather(&self.nodes[node.id], self.arities[node.id], true, sig)
    }

    /// Every tuple of element sets on which node `node` is known false, given
    /// the connectives already crossed in `sig`.
    pub fn get_elements_for_false(&self, node: PredicateNode, sig: &mut GraphTraversalSignature) -> (r: Vec<
        Arguments<ElementSet>,
    >)
        requires
            self.wf(),
            self.valid(node),
        ensures
            (evidence_view(r@), final(sig)@.to_set()) == self.node_evidence(node, false, old(sig)@.to_set()),
            old(sig)@.to_set().subset_of(final(sig)@.to_set()),
            final(sig)@.to_set().subset_of(old(sig)@.to_set().union(self.known())),
            all_width(r@, self.arity(node)),
    {
        self.gather(&self.nodes[node.id], self.arities[node.id], false, sig)
    }
}

} // verus!

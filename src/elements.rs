use vstd::prelude::*;

verus! {

/// One position of a query: a specific element, or any element.
#[derive(Debug, Clone, Copy, PartialEq, Eq, Structural)]
pub enum ElementQuantifier {
    /// This element exactly.
    One(u64),
    /// Any element of the domain.
    Any,
}

/// One position of a piece of evidence: which elements the position admits.
#[derive(Debug, Clone, PartialEq, Eq)]
pub enum ElementSet {
    /// Every element.
    All,
    /// No element.
    Empty,
    /// Exactly the listed elements.
    Among(Vec<u64>),
    /// Every element except the listed ones.
    Not(Vec<u64>),
}

/// The mathematical value of an [`ElementSet`].
pub enum ElementSetModel {
    /// Every element.
    All,
    /// No element.
    Empty,
    /// The listed elements.
    Among(Seq<u64>),
    /// Every element but the listed ones.
    Not(Seq<u64>),
}

impl View for ElementSet {
    type V = ElementSetModel;

    open spec fn view(&self) -> ElementSetModel {
        match self {
            ElementSet::All => ElementSetModel::All,
            ElementSet::Empty => ElementSetModel::Empty,
            ElementSet::Among(v) => ElementSetModel::Among(v@),
            ElementSet::Not(v) => ElementSetModel::Not(v@),
        }
    }
}

/// Whether element `e` belongs to the set `s`.
pub open spec fn member(s: ElementSetModel, e: u64) -> bool {
    match s {
        ElementSetModel::All => true,
        ElementSetModel::Empty => false,
        ElementSetModel::Among(v) => v.contains(e),
        ElementSetModel::Not(v) => !v.contains(e),
    }
}

/// The elements of `a` that occur in `b`, in the order of `a`.
pub open spec fn common(a: Seq<u64>, b: Seq<u64>) -> Seq<u64>
    decreases a.len(),
{
    if a.len() == 0 {
        Seq::empty()
    } else if b.contains(a.last()) {
        common(a.drop_last(), b).push(a.last())
    } else {
        common(a.drop_last(), b)
    }
}

/// The elements of `a` that do not occur in `b`, in the order of `a`.
pub open spec fn without(a: Seq<u64>, b: Seq<u64>) -> Seq<u64>
    decreases a.len(),
{
    if a.len() == 0 {
        Seq::empty()
    } else if b.contains(a.last()) {
        without(a.drop_last(), b)
    } else {
        without(a.drop_last(), b).push(a.last())
    }
}

/// `Among(v)`, or `Empty` when `v` lists nothing.
pub open spec fn among_or_empty(v: Seq<u64>) -> ElementSetModel {
    if v.len() == 0 {
        ElementSetModel::Empty
    } else {
        ElementSetModel::Among(v)
    }
}

/// `Not(v)`, or `All` when `v` lists nothing.
pub open spec fn not_or_all(v: Seq<u64>) -> ElementSetModel {
    if v.len() == 0 {
        ElementSetModel::All
    } else {
        ElementSetModel::Not(v)
    }
}

/// Set intersection (`∧`), with `All` as its identity and `Empty` absorbing.
pub open spec fn intersect_spec(x: ElementSetModel, y: ElementSetModel) -> ElementSetModel {
    match (x, y) {
        (ElementSetModel::Empty, _) => ElementSetModel::Empty,
        (_, ElementSetModel::Empty) => ElementSetModel::Empty,
        (ElementSetModel::All, _) => y,
        (_, ElementSetModel::All) => x,
        (ElementSetModel::Among(a), ElementSetModel::Among(b)) => among_or_empty(common(a, b)),
        (ElementSetModel::Among(a), ElementSetModel::Not(b)) => among_or_empty(without(a, b)),
        (ElementSetModel::Not(a), ElementSetModel::Among(b)) => among_or_empty(without(b, a)),
        (ElementSetModel::Not(a), ElementSetModel::Not(b)) => ElementSetModel::Not(a + without(b, a)),
    }
}

/// Set union (`∨`), with `Empty` as its identity and `All` absorbing.
pub open spec fn union_spec(x: ElementSetModel, y: ElementSetModel) -> ElementSetModel {
    match (x, y) {
        (ElementSetModel::All, _) => ElementSetModel::All,
        (_, ElementSetModel::All) => ElementSetModel::All,
        (ElementSetModel::Empty, _) => y,
        (_, ElementSetModel::Empty) => x,
        (ElementSetModel::Among(a), ElementSetModel::Among(b)) => ElementSetModel::Among(a + without(b, a)),
        (ElementSetModel::Among(a), ElementSetModel::Not(b)) => not_or_all(without(b, a)),
        (ElementSetModel::Not(a), ElementSetModel::Among(b)) => not_or_all(without(a, b)),
        (ElementSetModel::Not(a), ElementSetModel::Not(b)) => not_or_all(common(a, b)),
    }
}

proof fn lemma_push_contains(s: Seq<u64>, x: u64, e: u64)
    ensures
        s.push(x).contains(e) <==> (s.contains(e) || x == e),
{
    if s.contains(e) {
        let k = choose|k: int| 0 <= k < s.len() && s[k] == e;
        assert(s.push(x)[k] == e);
    }
    if x == e {
        assert(s.push(x)[s.len() as int] == e);
    }
    if s.push(x).contains(e) {
        let k = choose|k: int| 0 <= k < s.len() + 1 && s.push(x)[k] == e;
        if k < s.len() {
            assert(s[k] == e);
        }
    }
}

proof fn lemma_concat_contains(a: Seq<u64>, b: Seq<u64>, e: u64)
    ensures
        (a + b).contains(e) <==> (a.contains(e) || b.contains(e)),
{
    if a.contains(e) {
        let k = choose|k: int| 0 <= k < a.len() && a[k] == e;
        assert((a + b)[k] == e);
    }
    if b.contains(e) {
        let k = choose|k: int| 0 <= k < b.len() && b[k] == e;
        assert((a + b)[a.len() + k] == e);
    }
    if (a + b).contains(e) {
        let k = choose|k: int| 0 <= k < a.len() + b.len() && (a + b)[k] == e;
        if k < a.len() {
            assert(a[k] == e);
        } else {
            assert(b[k - a.len()] == e);
        }
    }
}

proof fn lemma_common_member(a: Seq<u64>, b: Seq<u64>, e: u64)
    ensures
        common(a, b).contains(e) <==> (a.contains(e) && b.contains(e)),
    decreases a.len(),
{
    if a.len() > 0 {
        let init = a.drop_last();
        lemma_common_member(init, b, e);
        lemma_push_contains(init, a.last(), e);
        lemma_push_contains(common(init, b), a.last(), e);
        assert(a =~= init.push(a.last()));
    }
}

proof fn lemma_without_member(a: Seq<u64>, b: Seq<u64>, e: u64)
    ensures
        without(a, b).contains(e) <==> (a.contains(e) && !b.contains(e)),
    decreases a.len(),
{
    if a.len() > 0 {
        let init = a.drop_last();
        lemma_without_member(init, b, e);
        lemma_push_contains(init, a.last(), e);
        lemma_push_contains(without(init, b), a.last(), e);
        assert(a =~= init.push(a.last()));
    }
}

/// Intersection and union of element sets are the set-theoretic ones.
pub proof fn lemma_set_algebra(x: ElementSetModel, y: ElementSetModel, e: u64)
    ensures
        member(intersect_spec(x, y), e) == (member(x, e) && member(y, e)),
        member(union_spec(x, y), e) == (member(x, e) || member(y, e)),
{
    match (x, y) {
        (ElementSetModel::Among(a), ElementSetModel::Among(b)) => {
            lemma_common_member(a, b, e);
            lemma_without_member(b, a, e);
            lemma_concat_contains(a, without(b, a), e);
        },
        (ElementSetModel::Among(a), ElementSetModel::Not(b)) => {
            lemma_without_member(a, b, e);
            lemma_without_member(b, a, e);
        },
        (ElementSetModel::Not(a), ElementSetModel::Among(b)) => {
            lemma_without_member(b, a, e);
            lemma_without_member(a, b, e);
        },
        (ElementSetModel::Not(a), ElementSetModel::Not(b)) => {
            lemma_without_member(b, a, e);
            lemma_common_member(a, b, e);
            lemma_concat_contains(a, without(b, a), e);
        },
        _ => {},
    }
}

fn contains_value(v: &Vec<u64>, e: u64) -> (r: bool)
    ensures
        r == v@.contains(e),
{
    let mut i: usize = 0;
    while i < v.len()
        invariant
            i <= v.len(),
            forall|k: int| 0 <= k < i ==> v@[k] != e,
        decreases v.len() - i,
    {
        if v[i] == e {
            assert(v@[i as int] == e);
            return true;
        }
        i = i + 1;
    }
    false
}

/// The elements of `a` kept (or dropped, when `keep` is false) by membership in `b`.
fn select(a: &Vec<u64>, b: &Vec<u64>, keep: bool) -> (r: Vec<u64>)
    ensures
        keep ==> r@ == common(a@, b@),
        !keep ==> r@ == without(a@, b@),
{
    let mut r: Vec<u64> = Vec::new();
    let mut i: usize = 0;
    while i < a.len()
        invariant
            i <= a.len(),
            keep ==> r@ == common(a@.subrange(0, i as int), b@),
            !keep ==> r@ == without(a@.subrange(0, i as int), b@),
        decreases a.len() - i,
    {
        let x = a[i];
        let found = contains_value(b, x);
        if found == keep {
            r.push(x);
        }
        proof {
            let p = a@.subrange(0, i as int + 1);
            assert(p.drop_last() =~= a@.subrange(0, i as int));
            assert(p.last() == x);
        }
        i = i + 1;
    }
    assert(a@.subrange(0, a.len() as int) =~= a@);
    r
}

fn concat(a: &Vec<u64>, b: Vec<u64>) -> (r: Vec<u64>)
    ensures
        r@ == a@ + b@,
{
    let mut r: Vec<u64> = Vec::new();
    let mut i: usize = 0;
    while i < a.len()
        invariant
            i <= a.len(),
            r@ == a@.subrange(0, i as int),
        decreases a.len() - i,
    {
        r.push(a[i]);
        assert(a@.subrange(0, i as int + 1) =~= a@.subrange(0, i as int).push(a@[i as int]));
        i = i + 1;
    }
    let mut j: usize = 0;
    while j < b.len()
        invariant
            i == a.len(),
            j <= b.len(),
            r@ == a@ + b@.subrange(0, j as int),
        decreases b.len() - j,
    {
        r.push(b[j]);
        assert(b@.subrange(0, j as int + 1) =~= b@.subrange(0, j as int).push(b@[j as int]));
        assert(a@ + b@.subrange(0, j as int + 1) =~= (a@ + b@.subrange(0, j as int)).push(b@[j as int]));
        j = j + 1;
    }
    assert(b@.subrange(0, b.len() as int) =~= b@);
    r
}

fn copy_values(a: &Vec<u64>) -> (r: Vec<u64>)
    ensures
        r@ == a@,
{
    let r = concat(a, Vec::new());
    assert(a@ + Seq::<u64>::empty() =~= a@);
    r
}

fn make_among(v: Vec<u64>) -> (r: ElementSet)
    ensures
        r@ == among_or_empty(v@),
{
    if v.len() == 0 {
        ElementSet::Empty
    } else {
        ElementSet::Among(v)
    }
}

fn make_not(v: Vec<u64>) -> (r: ElementSet)
    ensures
        r@ == not_or_all(v@),
{
    if v.len() == 0 {
        ElementSet::All
    } else {
        ElementSet::Not(v)
    }
}

impl ElementSet {
    /// A copy of this set.
    pub fn duplicate(&self) -> (r: ElementSet)
        ensures
            r@ == self@,
    {
        match self {
            ElementSet::All => ElementSet::All,
            ElementSet::Empty => ElementSet::Empty,
            ElementSet::Among(v) => ElementSet::Among(copy_values(v)),
            ElementSet::Not(v) => ElementSet::Not(copy_values(v)),
        }
    }

    /// Set intersection.
    pub fn intersect(&self, other: &ElementSet) -> (r: ElementSet)
        ensures
            r@ == intersect_spec(self@, other@),
    {
        match (self, other) {
            (ElementSet::Empty, _) => ElementSet::Empty,
            (_, ElementSet::Empty) => ElementSet::Empty,
            (ElementSet::All, _) => other.duplicate(),
            (_, ElementSet::All) => self.duplicate(),
            (ElementSet::Among(a), ElementSet::Among(b)) => make_among(select(a, b, true)),
            (ElementSet::Among(a), ElementSet::Not(b)) => make_among(select(a, b, false)),
            (ElementSet::Not(a), ElementSet::Among(b)) => make_among(select(b, a, false)),
            (ElementSet::Not(a), ElementSet::Not(b)) => ElementSet::Not(concat(a, select(b, a, false))),
        }
    }

    /// Set union.
    pub fn union(&self, other: &ElementSet) -> (r: ElementSet)
        ensures
            r@ == union_spec(self@, other@),
    {
        match (self, other) {
            (ElementSet::All, _) => ElementSet::All,
            (_, ElementSet::All) => ElementSet::All,
            (ElementSet::Empty, _) => other.duplicate(),
            (_, ElementSet::Empty) => self.duplicate(),
            (ElementSet::Among(a), ElementSet::Among(b)) => ElementSet::Among(concat(a, select(b, a, false))),
            (ElementSet::Among(a), ElementSet::Not(b)) => make_not(select(b, a, false)),
            (ElementSet::Not(a), ElementSet::Among(b)) => make_not(select(a, b, false)),
            (ElementSet::Not(a), ElementSet::Not(b)) => make_not(select(a, b, true)),
        }
    }
}

} // verus!

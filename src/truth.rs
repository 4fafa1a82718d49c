use vstd::prelude::*;

verus! {

/// A three-valued truth value (Kleene's strong logic).
#[derive(Debug, Clone, Copy, PartialEq, Eq, Structural)]
pub enum TruthValue {
    /// The value is known.
    Determined(bool),
    /// Nothing is known.
    Undetermined,
}

/// The outcome of an assertion.
#[derive(Debug, Clone, Copy, PartialEq, Eq, Structural)]
pub enum AssertionResponse {
    /// The assertion added information to the graph.
    AssertionMade,
    /// The assertion was already implied; nothing changed.
    AssertionRedundant,
    /// The assertion contradicts what is known; nothing changed.
    AssertionInvalid,
}

/// Kleene negation.
pub open spec fn not_spec(a: TruthValue) -> TruthValue {
    match a {
        TruthValue::Determined(x) => TruthValue::Determined(!x),
        TruthValue::Undetermined => TruthValue::Undetermined,
    }
}

/// Kleene conjunction: false absorbs, true is the identity.
pub open spec fn and_spec(a: TruthValue, b: TruthValue) -> TruthValue {
    match (a, b) {
        (TruthValue::Determined(false), _) => TruthValue::Determined(false),
        (_, TruthValue::Determined(false)) => TruthValue::Determined(false),
        (TruthValue::Determined(true), TruthValue::Determined(true)) => TruthValue::Determined(true),
        _ => TruthValue::Undetermined,
    }
}

/// Kleene disjunction: true absorbs, false is the identity.
pub open spec fn or_spec(a: TruthValue, b: TruthValue) -> TruthValue {
    match (a, b) {
        (TruthValue::Determined(true), _) => TruthValue::Determined(true),
        (_, TruthValue::Determined(true)) => TruthValue::Determined(true),
        (TruthValue::Determined(false), TruthValue::Determined(false)) => TruthValue::Determined(false),
        _ => TruthValue::Undetermined,
    }
}

impl TruthValue {
    /// Kleene negation.
    pub fn not(self) -> (r: TruthValue)
        ensures
            r == not_spec(self),
    {
        match self {
            TruthValue::Determined(x) => TruthValue::Determined(!x),
            TruthValue::Undetermined => TruthValue::Undetermined,
        }
    }

    /// Kleene conjunction.
    pub fn and(self, other: TruthValue) -> (r: TruthValue)
        ensures
            r == and_spec(self, other),
    {
        match (self, other) {
            (TruthValue::Determined(false), _) => TruthValue::Determined(false),
            (_, TruthValue::Determined(false)) => TruthValue::Determined(false),
            (TruthValue::Determined(true), TruthValue::Determined(true)) => TruthValue::Determined(true),
            _ => TruthValue::Undetermined,
        }
    }

    /// Kleene disjunction.
    pub fn or(self, other: TruthValue) -> (r: TruthValue)
        ensures
            r == or_spec(self, other),
    {
        match (self, other) {
            (TruthValue::Determined(true), _) => TruthValue::Determined(true),
            (_, TruthValue::Determined(true)) => TruthValue::Determined(true),
            (TruthValue::Determined(false), TruthValue::Determined(false)) => TruthValue::Determined(false),
            _ => TruthValue::Undetermined,
        }
    }
}

} // verus!

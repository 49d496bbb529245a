//! The three-valued logic domain used for boolean-like configuration
//! symbols: `No < Module < Yes`.
//!
//! Conjunction is the minimum, disjunction the maximum, and negation swaps
//! `Yes` and `No` while mapping `Module` to itself (the kernel convention:
//! a module negates to a module).

use vstd::prelude::*;

verus! {

/// One of the three truth values a boolean-like symbol can take.
#[derive(Debug, Clone, Copy, PartialEq, Eq, Structural)]
pub enum Tristate {
    No,
    Module,
    Yes,
}

impl Tristate {
    /// The strength of a value: `No` is 0, `Module` is 1, `Yes` is 2.
    pub open spec fn rank(self) -> int {
        match self {
            Tristate::No => 0,
            Tristate::Module => 1,
            Tristate::Yes => 2,
        }
    }

    /// Conjunction: the weaker of the two values.
    pub open spec fn spec_and(self, other: Tristate) -> Tristate {
        if self.rank() <= other.rank() {
            self
        } else {
            other
        }
    }

    /// Disjunction: the stronger of the two values.
    pub open spec fn spec_or(self, other: Tristate) -> Tristate {
        if self.rank() >= other.rank() {
            self
        } else {
            other
        }
    }

    /// Negation: swaps `Yes` and `No`; `Module` stays `Module`.
    pub open spec fn spec_not(self) -> Tristate {
        match self {
            Tristate::No => Tristate::Yes,
            Tristate::Module => Tristate::Module,
            Tristate::Yes => Tristate::No,
        }
    }

    /// Conjunction of two tristate values (their minimum).
    pub fn and(self, other: Tristate) -> (r: Tristate)
        ensures
            r == self.spec_and(other),
    {
        match (self, other) {
            (Tristate::No, _) | (_, Tristate::No) => Tristate::No,
            (Tristate::Module, _) | (_, Tristate::Module) => Tristate::Module,
            _ => Tristate::Yes,
        }
    }

    /// Disjunction of two tristate values (their maximum).
    pub fn or(self, other: Tristate) -> (r: Tristate)
        ensures
            r == self.spec_or(other),
    {
        match (self, other) {
            (Tristate::Yes, _) | (_, Tristate::Yes) => Tristate::Yes,
            (Tristate::Module, _) | (_, Tristate::Module) => Tristate::Module,
            _ => Tristate::No,
        }
    }

    /// Negation of a tristate value.
    pub fn not(self) -> (r: Tristate)
        ensures
            r == self.spec_not(),
    {
        match self {
            Tristate::No => Tristate::Yes,
            Tristate::Module => Tristate::Module,
            Tristate::Yes => Tristate::No,
        }
    }
}

/// The tristate algebra: conjunction is the minimum of the two ranks,
/// disjunction the maximum, negation swaps `Yes` with `No` and fixes
/// `Module`. Stated for every pair of values.
pub proof fn lemma_tristate_algebra(a: Tristate, b: Tristate)
    ensures
        a.spec_and(b).rank() == if a.rank() <= b.rank() { a.rank() } else { b.rank() },
        a.spec_or(b).rank() == if a.rank() >= b.rank() { a.rank() } else { b.rank() },
        Tristate::No.spec_not() == Tristate::Yes,
        Tristate::Yes.spec_not() == Tristate::No,
        Tristate::Module.spec_not() == Tristate::Module,
        a.spec_and(b) == b.spec_and(a) || a.rank() == b.rank(),
        a.spec_or(b) == b.spec_or(a) || a.rank() == b.rank(),
{
}

} // verus!

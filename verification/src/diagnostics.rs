//! Violations and the reporter that collects them.

use vstd::prelude::*;
use crate::binding::{DeclSite, Location, Name};

verus! {

/// The rule that a violation breaks.
#[derive(Clone, Copy, Debug, PartialEq, Eq, Structural)]
pub enum ViolationKind {
    /// A binding was used after its value had been moved away or released.
    UseAfterMove,
    /// A name was declared while it was still live in the same scope.
    DoubleBindingName,
    /// A move-only value was used where a copy is taken, without a clone.
    CopyOfMoveOnlyWithoutClone,
    /// A type with a release action was annotated as copyable. The checker
    /// classifies such a type as move-only and never reports this kind; it
    /// exists for front ends that validate type definitions.
    MoveOnlyWithDropAnnotatedAsCopy,
    /// An identifier is not bound in any open scope.
    UnknownIdentifier,
}

/// One detected breach of the ownership rules.
#[derive(Clone, Copy, Debug, PartialEq, Eq, Structural)]
pub struct Violation {
    pub kind: ViolationKind,
    /// The identifier that the offending instruction named.
    pub binding: Name,
    /// The location of the offending instruction.
    pub location: Location,
    /// Which operand of the instruction offended, counted from 0.
    pub operand: usize,
    /// Where the binding that the identifier denotes was declared; `None`
    /// if the identifier denotes no binding.
    pub declared_at: Option<DeclSite>,
    /// For a use after move, the location of the instruction that moved the
    /// value away.
    pub caused_by: Option<Location>,
}

impl ViolationKind {
    /// A one-line explanation of the rule.
    pub fn explanation(&self) -> (text: &'static str)
        ensures
            text@ == match *self {
                ViolationKind::UseAfterMove => "value used after it was moved"@,
                ViolationKind::DoubleBindingName => "name is already bound in this scope"@,
                ViolationKind::CopyOfMoveOnlyWithoutClone => "move-only value copied without a clone"@,
                ViolationKind::MoveOnlyWithDropAnnotatedAsCopy => "type with a release action annotated as copyable"@,
                ViolationKind::UnknownIdentifier => "identifier is not bound in any open scope"@,
            },
    {
        match self {
            ViolationKind::UseAfterMove => "value used after it was moved",
            ViolationKind::DoubleBindingName => "name is already bound in this scope",
            ViolationKind::CopyOfMoveOnlyWithoutClone => "move-only value copied without a clone",
            ViolationKind::MoveOnlyWithDropAnnotatedAsCopy => "type with a release action annotated as copyable",
            ViolationKind::UnknownIdentifier => "identifier is not bound in any open scope",
        }
    }
}

/// Collects violations in the order in which they were detected.
pub struct Reporter {
    violations: Vec<Violation>,
}

impl View for Reporter {
    type V = Seq<Violation>;

    closed spec fn view(&self) -> Seq<Violation> {
        self.violations@
    }
}

impl Reporter {
    /// A reporter that has seen no violation.
    pub fn new() -> (reporter: Reporter)
        ensures
            reporter@ == Seq::<Violation>::empty(),
    {
        Reporter { violations: Vec::new() }
    }

    /// Appends `violation`. Nothing is merged or dropped: two violations on
    /// the same binding are both kept.
    pub fn report(&mut self, violation: Violation)
        ensures
            final(self)@ == old(self)@.push(violation),
    {
        self.violations.push(violation);
    }

    /// All violations reported so far, in the order of their detection.
    pub fn all(&self) -> (violations: &Vec<Violation>)
        ensures
            violations@ == self@,
    {
        &self.violations
    }

    /// Whether any violation was reported.
    pub fn has_errors(&self) -> (any: bool)
        ensures
            any == (self@.len() > 0),
    {
        self.violations.len() > 0
    }

    /// Hands the collected violations over.
    pub fn into_violations(self) -> (violations: Vec<Violation>)
        ensures
            violations@ == self@,
    {
        self.violations
    }
}

} // verus!

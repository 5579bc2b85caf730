//! Bindings: one variable in one scope, with its ownership state.

use vstd::prelude::*;
use crate::value::ValueKind;

verus! {

/// An identifier of the analysed program, interned by whoever produced the
/// instructions.
pub type Name = u64;

/// A source position, carried by every instruction.
#[derive(Clone, Copy, Debug, PartialEq, Eq, Structural)]
pub struct Location {
    pub line: u32,
    pub column: u32,
}

/// Whether a binding still owns its value.
#[derive(Clone, Copy, Debug, PartialEq, Eq, Structural)]
pub enum BindingState {
    /// The binding owns its value and may be used.
    Live,
    /// The value was moved away by the instruction at `at`.
    Moved { at: Location },
    /// The value was released when the binding's scope ended.
    Dropped,
}

/// Where a binding was declared.
#[derive(Clone, Copy, Debug, PartialEq, Eq, Structural)]
pub struct DeclSite {
    /// The nesting depth of the scope; the outermost scope has depth 0.
    pub depth: usize,
    /// How many bindings the table had handed out before this one. No two
    /// bindings of one table share a position, and a later declaration has
    /// the greater position.
    pub position: usize,
}

/// One variable in one scope.
#[derive(Clone, Copy, Debug, PartialEq, Eq, Structural)]
pub struct Binding {
    pub name: Name,
    /// Set for a binding that was declared under a name already live in its
    /// scope. Such a binding owns its value like any other, but no identifier
    /// resolves to it.
    pub synthetic: bool,
    pub kind: ValueKind,
    pub state: BindingState,
    pub declared_at: DeclSite,
}

impl Binding {
    /// Whether the identifier `name` can denote this binding.
    pub open spec fn answers_to(self, name: Name) -> bool {
        self.name == name && !self.synthetic
    }

    /// Whether the binding's scope has to release a value when it ends.
    pub open spec fn owes_release(self) -> bool {
        self.state is Live && self.kind is MoveOnly
    }
}

} // verus!

//! The value model: which types are copied on use and which are moved.

use vstd::prelude::*;

verus! {

/// How a value behaves when it is assigned or passed by value.
#[derive(Clone, Copy, Debug, PartialEq, Eq, Structural)]
pub enum ValueKind {
    /// The value is duplicated; the source stays usable.
    Copyable,
    /// Ownership is transferred; the source becomes unusable.
    MoveOnly,
}

/// The shape of a type, as far as ownership is concerned.
#[derive(Debug, PartialEq, Eq)]
pub enum TypeDescriptor {
    /// Any integer type.
    Integer,
    /// The boolean type.
    Boolean,
    /// Any floating-point type.
    Float,
    /// A single character.
    Character,
    /// Heap-backed, growable text.
    Text,
    /// A tuple of the given component types.
    Tuple(Vec<TypeDescriptor>),
    /// A user-defined type with the given field types; `releases` tells
    /// whether the type declares an explicit release action.
    Struct { releases: bool, fields: Vec<TypeDescriptor> },
}

/// Whether every type in `types` is classified as `Copyable`.
pub open spec fn all_copyable(types: Seq<TypeDescriptor>) -> bool
    decreases types, 0nat,
{
    forall|i: int| 0 <= i < types.len() ==> kind_of(#[trigger] types[i]) == ValueKind::Copyable
}

/// The kind of a type: scalars are `Copyable`, text and every type with a
/// release action are `MoveOnly`, and a composite is `Copyable` exactly when
/// all of its components are.
pub open spec fn kind_of(ty: TypeDescriptor) -> ValueKind
    decreases ty, 1nat,
{
    match ty {
        TypeDescriptor::Integer => ValueKind::Copyable,
        TypeDescriptor::Boolean => ValueKind::Copyable,
        TypeDescriptor::Float => ValueKind::Copyable,
        TypeDescriptor::Character => ValueKind::Copyable,
        TypeDescriptor::Text => ValueKind::MoveOnly,
        TypeDescriptor::Tuple(components) => if all_copyable(components@) {
            ValueKind::Copyable
        } else {
            ValueKind::MoveOnly
        },
        TypeDescriptor::Struct { releases, fields } => if !releases && all_copyable(fields@) {
            ValueKind::Copyable
        } else {
            ValueKind::MoveOnly
        },
    }
}

/// Classifies every type in `types` and tells whether all are `Copyable`.
fn classify_all(types: &Vec<TypeDescriptor>) -> (all: bool)
    ensures
        all == all_copyable(types@),
    decreases types@, 0nat,
{
    let mut i: usize = 0;
    while i < types.len()
        invariant
            i <= types@.len(),
            forall|j: int| 0 <= j < i ==> kind_of(#[trigger] types@[j]) == ValueKind::Copyable,
        decreases types@.len() - i,
    {
        match classify(&types[i]) {
            ValueKind::Copyable => {},
            ValueKind::MoveOnly => {
                return false;
            },
        }
        i += 1;
    }
    true
}

/// Classifies a type as `Copyable` or `MoveOnly`.
///
/// The result depends on the type alone and is computed once per declared
/// variable.
pub fn classify(ty: &TypeDescriptor) -> (kind: ValueKind)
    ensures
        kind == kind_of(*ty),
    decreases *ty, 1nat,
{
    match ty {
        TypeDescriptor::Integer => ValueKind::Copyable,
        TypeDescriptor::Boolean => ValueKind::Copyable,
        TypeDescriptor::Float => ValueKind::Copyable,
        TypeDescriptor::Character => ValueKind::Copyable,
        TypeDescriptor::Text => ValueKind::MoveOnly,
        TypeDescriptor::Tuple(components) => {
            if classify_all(components) {
                ValueKind::Copyable
            } else {
                ValueKind::MoveOnly
            }
        },
        TypeDescriptor::Struct { releases, fields } => {
            if !*releases && classify_all(fields) {
                ValueKind::Copyable
            } else {
                ValueKind::MoveOnly
            }
        },
    }
}

} // verus!

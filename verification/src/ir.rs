//! The instructions that the checker analyses.

use vstd::prelude::*;
use crate::binding::{Location, Name};
use crate::value::{TypeDescriptor, ValueKind};

verus! {

/// The expression that initialises a declared variable.
#[derive(Clone, Copy, Debug, PartialEq, Eq, Structural)]
pub enum Init {
    /// A freshly made value: a literal, a constructor, the result of a call,
    /// or the argument that a parameter holds on entry to its function.
    Value,
    /// The bare identifier of another variable. Its value is moved if it is
    /// move-only and copied if it is copyable.
    Ident(Name),
    /// An explicit duplicate of another variable's value. The source keeps
    /// its value whatever its kind.
    CloneOf(Name),
}

/// A variable that is passed by value, to a parameter or as a return value.
#[derive(Clone, Copy, Debug, PartialEq, Eq, Structural)]
pub struct Operand {
    pub name: Name,
    /// The kind of the parameter or result that receives the value.
    pub expects: ValueKind,
}

/// One instruction of the analysed program.
#[derive(Debug, PartialEq, Eq)]
pub enum Instr {
    /// `let name: ty = init`.
    Declare { name: Name, ty: TypeDescriptor, init: Init, at: Location },
    /// A use of `name` that leaves its value where it is, such as printing it.
    Read { name: Name, at: Location },
    /// A call of `callee` with `args` passed by value, in this order.
    Call { callee: Name, args: Vec<Operand>, at: Location },
    /// The return of a variable's value to the caller. The caller's side of
    /// it is a declaration with a fresh value.
    Return { value: Operand, at: Location },
    /// The start of a block.
    BlockEnter { at: Location },
    /// The end of the innermost block.
    BlockExit { at: Location },
}

impl Instr {
    /// The source position of the instruction.
    pub open spec fn location(self) -> Location {
        match self {
            Instr::Declare { at, .. } => at,
            Instr::Read { at, .. } => at,
            Instr::Call { at, .. } => at,
            Instr::Return { at, .. } => at,
            Instr::BlockEnter { at } => at,
            Instr::BlockExit { at } => at,
        }
    }
}

/// Why a sequence of instructions is not a program: its blocks do not nest.
#[derive(Clone, Copy, Debug, PartialEq, Eq, Structural)]
pub enum MalformedInput {
    /// The instruction at `at` ends a block where none is open.
    UnmatchedBlockExit { at: Location },
    /// The sequence ends while `depth` blocks are still open.
    UnclosedBlock { depth: usize },
}

} // verus!

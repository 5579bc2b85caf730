//! A static ownership-and-move checker for a small block-structured
//! intermediate representation.
//!
//! The checker walks a sequence of instructions once, tracks for every
//! binding whether it still owns its value, reports each use of a value that
//! was moved away, and plans, for every scope that ends, which values have to
//! be released and in which order.

pub mod binding;
pub mod checker;
pub mod diagnostics;
pub mod idioms;
pub mod ir;
pub mod planner;
pub mod release_laws;
pub mod table;
pub mod use_laws;
pub mod value;
pub mod walk_laws;

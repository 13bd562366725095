//! Lowering of a type-checked function body into a block-structured,
//! variable-explicit intermediate representation.
//!
//! The lowering engine translates a typed expression tree into basic blocks
//! of explicit statements over arena-indexed variables.  Its centrepiece is
//! match-arm variable unification: each arm is lowered into a fresh scope and
//! its externally required variables are reconciled against the enclosing
//! scope, so that every arm presents one uniform input/output contract.

pub mod objects;
pub mod semantic;
pub mod varmap;
pub mod diagnostic;
pub mod lower;
pub mod ids;
pub mod lib_func;
pub mod builtin_cost;
pub mod nullable;
pub mod graph;
pub mod invocations;
pub mod laws;

use vstd::prelude::*;

verus! {

/// A lowered variable identifier: an index into a function's variable arena.
pub type VariableId = usize;

/// A lowered block identifier: an index into a function's block arena.
pub type BlockId = usize;

} // verus!

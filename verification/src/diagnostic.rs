//! Diagnostics collected while lowering. They are soft: recording one never
//! aborts the lowering of sibling statements; the function's lowered form is
//! still produced, flagged with the batch.

use vstd::prelude::*;
use crate::semantic::{ExprId, SemVarId};

verus! {

/// One diagnostic, attributable to the source construct that raised it.
#[derive(Clone, Copy, Debug, PartialEq, Eq, Structural)]
pub enum LoweringDiagnostic {
    /// A scope referenced a variable that no enclosing scope can supply.
    MissingVariable { var: SemVarId },
    /// Two requirements of one match arm resolved to the same enclosing
    /// variable; an arm's mapping can carry only one of them.
    AliasedRequirement { var: SemVarId },
    /// An expression that failed type analysis upstream was reached.
    MissingExpression { expr: ExprId },
}

} // verus!

//! Building target instructions for the nullable operations: the reference
//! expressions an invocation consumes and produces, and the builders of the
//! null and into-nullable operations.

use vstd::prelude::*;
use crate::nullable::NullableConcreteLibFunc;

verus! {

/// A reference to one memory cell.
#[derive(Clone, Copy, Debug, PartialEq, Eq, Structural)]
pub struct CellRef {
    pub offset: i64,
}

/// An expression whose value one cell holds.
#[derive(Clone, Copy, Debug, PartialEq, Eq, Structural)]
pub enum CellExpression {
    /// The value stored at a referenced cell.
    Deref(CellRef),
    /// An immediate value.
    Immediate(i128),
}

/// The expression a reference takes: one cell expression per cell of the
/// referenced value.
#[derive(Clone, Debug, PartialEq, Eq)]
pub struct ReferenceExpression {
    pub cells: Vec<CellExpression>,
}

/// A live reference an invocation consumes.
#[derive(Clone, Debug, PartialEq, Eq)]
pub struct ReferenceValue {
    pub expression: ReferenceExpression,
}

/// Building an invocation failed.
#[derive(Clone, Copy, Debug, PartialEq, Eq, Structural)]
pub enum InvocationError {
    /// The operation was handed the wrong number of arguments.
    WrongNumberOfArguments { expected: usize, actual: usize },
    /// An argument's reference expression has the wrong shape.
    InvalidReferenceExpressionForArgument,
}

/// The state an invocation is built from: the references handed to it.
#[derive(Clone, Debug, PartialEq, Eq)]
pub struct CompiledInvocationBuilder {
    pub refs: Vec<ReferenceValue>,
}

/// A built invocation: the reference expressions its single branch hands
/// onward.
#[derive(Clone, Debug, PartialEq, Eq)]
pub struct CompiledInvocation {
    pub results: Vec<ReferenceExpression>,
}

impl CompiledInvocationBuilder {
    /// Packages the branch's output expressions.
    pub fn build(self, results: Vec<ReferenceExpression>) -> (r: CompiledInvocation)
        ensures
            r.results == results,
    {
        CompiledInvocation { results }
    }
}

/// Unpacks a reference expression that must be a plain single-cell
/// dereference.
pub fn try_unpack_deref(expr: &ReferenceExpression) -> (res: Result<CellRef, InvocationError>)
    ensures
        match res {
            Ok(c) => expr.cells@ =~= seq![CellExpression::Deref(c)],
            Err(e) => {
                &&& e == InvocationError::InvalidReferenceExpressionForArgument
                &&& !(expr.cells@.len() == 1 && expr.cells@[0] is Deref)
            },
        },
{
    if expr.cells.len() == 1 {
        match expr.cells[0] {
            CellExpression::Deref(c) => {
                return Ok(c);
            },
            _ => {},
        }
    }
    Err(InvocationError::InvalidReferenceExpressionForArgument)
}

/// What building the null operation must return: with no arguments, one
/// result holding the immediate zero; otherwise the arity error.
pub open spec fn null_build_ok(
    builder: CompiledInvocationBuilder,
    res: Result<CompiledInvocation, InvocationError>,
) -> bool {
    match res {
        Ok(inv) => {
            &&& builder.refs@.len() == 0
            &&& inv.results@.len() == 1
            &&& inv.results@[0].cells@ =~= seq![CellExpression::Immediate(0)]
        },
        Err(e) => builder.refs@.len() != 0 && e == (InvocationError::WrongNumberOfArguments {
            expected: 0usize,
            actual: builder.refs@.len() as usize,
        }),
    }
}

/// What building the into-nullable operation must return: its single
/// argument, a plain dereference, handed on unchanged; otherwise the
/// matching error.
pub open spec fn into_nullable_build_ok(
    builder: CompiledInvocationBuilder,
    res: Result<CompiledInvocation, InvocationError>,
) -> bool {
    match res {
        Ok(inv) => {
            &&& builder.refs@.len() == 1
            &&& builder.refs@[0].expression.cells@.len() == 1
            &&& builder.refs@[0].expression.cells@[0] is Deref
            &&& inv.results@.len() == 1
            &&& inv.results@[0].cells@ =~= seq![builder.refs@[0].expression.cells@[0]]
        },
        Err(e) => {
            ||| builder.refs@.len() != 1 && e == (InvocationError::WrongNumberOfArguments {
                expected: 1usize,
                actual: builder.refs@.len() as usize,
            })
            ||| builder.refs@.len() == 1 && !(builder.refs@[0].expression.cells@.len() == 1
                && builder.refs@[0].expression.cells@[0] is Deref)
                && e == InvocationError::InvalidReferenceExpressionForArgument
        },
    }
}

/// Builds instructions for the nullable operations.
pub fn build(libfunc: &NullableConcreteLibFunc, builder: CompiledInvocationBuilder) -> (res:
    Result<CompiledInvocation, InvocationError>)
    ensures
        match *libfunc {
            NullableConcreteLibFunc::Null(_) => null_build_ok(builder, res),
            NullableConcreteLibFunc::IntoNullable(_) => into_nullable_build_ok(builder, res),
        },
{
    match libfunc {
        NullableConcreteLibFunc::Null(_) => build_nullable_null(builder),
        NullableConcreteLibFunc::IntoNullable(_) => build_nullable_into_nullable(builder),
    }
}

/// Builds the null operation: no arguments, and one immediate-zero result.
fn build_nullable_null(builder: CompiledInvocationBuilder) -> (res: Result<
    CompiledInvocation,
    InvocationError,
>)
    ensures
        null_build_ok(builder, res),
{
    if builder.refs.len() != 0 {
        return Err(
            InvocationError::WrongNumberOfArguments { expected: 0, actual: builder.refs.len() },
        );
    }
    let mut cells: Vec<CellExpression> = Vec::new();
    cells.push(CellExpression::Immediate(0));
    let mut results: Vec<ReferenceExpression> = Vec::new();
    results.push(ReferenceExpression { cells });
    Ok(builder.build(results))
}

/// Builds the into-nullable operation: the single dereference argument is
/// handed on unchanged.
fn build_nullable_into_nullable(builder: CompiledInvocationBuilder) -> (res: Result<
    CompiledInvocation,
    InvocationError,
>)
    ensures
        into_nullable_build_ok(builder, res),
{
    if builder.refs.len() != 1 {
        return Err(
            InvocationError::WrongNumberOfArguments { expected: 1, actual: builder.refs.len() },
        );
    }
    let value = match try_unpack_deref(&builder.refs[0].expression) {
        Ok(c) => c,
        Err(e) => {
            return Err(e);
        },
    };
    let mut cells: Vec<CellExpression> = Vec::new();
    cells.push(CellExpression::Deref(value));
    let mut results: Vec<ReferenceExpression> = Vec::new();
    results.push(ReferenceExpression { cells });
    Ok(builder.build(results))
}

} // verus!

//! The nullable extension: a type holding a possibly-null pointer to an
//! object, and the library function creating the null value.

use vstd::prelude::*;
use crate::ids::{ConcreteTypeId, GenericLibFuncId, GenericTypeId};
use crate::lib_func::{
    as_single_type, DeferredOutputKind, GenericArg, LibFuncSignature, OutputVarInfo,
    OutputVarReferenceInfo, SierraApChange, SignatureSpecializationContext, SpecializationError,
    type_info_like, TypeInfo, TypeSpecializationContext,
};

verus! {

/// A type that holds a possibly-null pointer to an object.
#[derive(Debug, PartialEq, Eq)]
pub struct NullableType {}

impl NullableType {
    /// The generic type's id.
    pub fn id() -> (r: GenericTypeId)
        ensures
            r.0@ == "Nullable"@,
    {
        GenericTypeId::new_inline("Nullable")
    }

    /// Specializes the nullable type at its single type argument, carrying
    /// over that argument's registered type information.
    pub fn specialize(&self, context: &TypeSpecializationContext, args: &Vec<GenericArg>) -> (res:
        Result<NullableConcreteType, SpecializationError>)
        ensures
            match res {
                Ok(c) => {
                    &&& args@.len() == 1
                    &&& (args@[0] matches GenericArg::Type(t) && c.ty.0@ == t.0@
                        && (context.spec_get_type_info(t.0@) matches Some(stored)
                        && type_info_like(c.info, stored)))
                },
                Err(e) => {
                    ||| args@.len() != 1 && e == SpecializationError::WrongNumberOfGenericArgs
                    ||| args@.len() == 1 && !(args@[0] is Type)
                        && e == SpecializationError::UnsupportedGenericArg
                    ||| args@.len() == 1 && (args@[0] matches GenericArg::Type(t)
                        && context.spec_get_type_info(t.0@) is None)
                        && e == SpecializationError::UnsupportedId
                },
            },
    {
        let ty = match as_single_type(args) {
            Ok(ty) => ty,
            Err(e) => {
                return Err(e);
            },
        };
        let info = match context.get_type_info(&ty) {
            Some(info) => info,
            None => {
                return Err(SpecializationError::UnsupportedId);
            },
        };
        Ok(NullableConcreteType { info, ty })
    }
}

/// The concrete nullable type: its own information and the wrapped type.
#[derive(Debug, PartialEq, Eq)]
pub struct NullableConcreteType {
    pub info: TypeInfo,
    pub ty: ConcreteTypeId,
}

impl NullableConcreteType {
    /// The type's information.
    pub fn info(&self) -> (r: &TypeInfo)
        ensures
            r == &self.info,
    {
        &self.info
    }
}

/// The concrete nullable library functions, by operation.
#[derive(Debug, PartialEq, Eq)]
pub enum NullableConcreteLibFunc {
    /// Creates the null object.
    Null(LibFuncSignature),
    /// Wraps a value into a nullable object.
    IntoNullable(LibFuncSignature),
}

/// Library function for creating a null object of a nullable type.
#[derive(Debug, PartialEq, Eq)]
pub struct NullLibFunc {}

impl NullLibFunc {
    /// The library function's id.
    pub fn id() -> (r: GenericLibFuncId)
        ensures
            r.0@ == "null"@,
    {
        GenericLibFuncId::new_inline("null")
    }

    /// Resolves the function's signature: no inputs, and one deferred
    /// output of the nullable type wrapping the single type argument.
    pub fn specialize_signature(
        &self,
        context: &SignatureSpecializationContext,
        args: &Vec<GenericArg>,
    ) -> (res: Result<LibFuncSignature, SpecializationError>)
        ensures
            match res {
                Ok(sig) => {
                    &&& args@.len() == 1
                    &&& (args@[0] matches GenericArg::Type(t)
                        && (context.spec_get_wrapped_concrete_type("Nullable"@, t.0@)
                        matches Some(wrapped) && {
                        &&& sig.param_signatures@.len() == 0
                        &&& sig.branch_signatures@.len() == 1
                        &&& sig.branch_signatures@[0].vars@.len() == 1
                        &&& sig.branch_signatures@[0].vars@[0].ty.0@ == wrapped
                        &&& sig.branch_signatures@[0].vars@[0].ref_info
                            == OutputVarReferenceInfo::Deferred(DeferredOutputKind::Generic)
                        &&& sig.branch_signatures@[0].ap_change
                            == SierraApChange::KnownNewVarsOnly
                        &&& sig.fallthrough == Some(0usize)
                    }))
                },
                Err(e) => {
                    ||| args@.len() != 1 && e == SpecializationError::WrongNumberOfGenericArgs
                    ||| args@.len() == 1 && !(args@[0] is Type)
                        && e == SpecializationError::UnsupportedGenericArg
                    ||| args@.len() == 1 && (args@[0] matches GenericArg::Type(t)
                        && context.spec_get_wrapped_concrete_type("Nullable"@, t.0@) is None)
                        && e == SpecializationError::UnsupportedId
                },
            },
    {
        let ty = match as_single_type(args) {
            Ok(ty) => ty,
            Err(e) => {
                return Err(e);
            },
        };
        let wrapped = match context.get_wrapped_concrete_type(&NullableType::id(), &ty) {
            Some(w) => w,
            None => {
                return Err(SpecializationError::UnsupportedId);
            },
        };
        let mut out: Vec<OutputVarInfo> = Vec::new();
        out.push(OutputVarInfo {
            ty: wrapped,
            ref_info: OutputVarReferenceInfo::Deferred(DeferredOutputKind::Generic),
        });
        Ok(LibFuncSignature::new_non_branch(Vec::new(), out, SierraApChange::KnownNewVarsOnly))
    }
}

} // verus!

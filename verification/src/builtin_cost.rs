//! The builtin-costs extension: the token types a program pays its builtin
//! usage in, the type holding the cost table, and the library function that
//! withdraws gas for a builtin.

use vstd::prelude::*;
use crate::ids::{ConcreteTypeId, GenericLibFuncId, GenericTypeId};
use crate::lib_func::{
    BranchSignature, ConcreteTypeLongId, DeferredOutputKind, GenericArg, InfoOnlyConcreteType,
    LibFuncSignature, OutputVarInfo, OutputVarReferenceInfo, ParamSignature,
    SierraApChange, SignatureSpecializationContext, SpecializationError, TypeInfo,
};

verus! {

/// Represents different types of costs.
#[derive(Copy, Clone, Debug, Hash, PartialEq, Eq, Structural)]
pub enum CostTokenType {
    /// A single step, or some cost which is equivalent to it.
    Step,
    /// One invocation of the pedersen hash function.
    Pedersen,
}

impl CostTokenType {
    /// All the token types, in their declared order.
    pub fn iter() -> (r: Vec<CostTokenType>)
        ensures
            r@ =~= seq![CostTokenType::Step, CostTokenType::Pedersen],
    {
        let mut r: Vec<CostTokenType> = Vec::new();
        r.push(CostTokenType::Step);
        r.push(CostTokenType::Pedersen);
        r
    }

    /// Returns the name of the token type, in snake case.
    pub fn name(&self) -> (r: String)
        ensures
            r@ == token_name(*self),
    {
        match self {
            CostTokenType::Step => String::from_str("step"),
            CostTokenType::Pedersen => String::from_str("pedersen"),
        }
    }
}

/// The name of a token type, in snake case.
pub open spec fn token_name(t: CostTokenType) -> Seq<char> {
    match t {
        CostTokenType::Step => "step"@,
        CostTokenType::Pedersen => "pedersen"@,
    }
}

/// The name the gas-withdrawal library function of a token type carries.
pub open spec fn get_gas_name(name: Seq<char>) -> Seq<char> {
    name + "_get_gas"@
}

/// Type representing the builtin-costs builtin: a constant pointer to an
/// array of costs for each of the builtins.
#[derive(Debug, PartialEq, Eq)]
pub struct BuiltinCostsType {}

impl BuiltinCostsType {
    /// The generic type's id.
    pub fn id() -> (r: GenericTypeId)
        ensures
            r.0@ == "BuiltinCosts"@,
    {
        GenericTypeId::new_inline("BuiltinCosts")
    }

    /// The concrete builtin-costs type: storable, of size one, and neither
    /// droppable nor duplicatable.
    pub fn specialize(&self) -> (r: InfoOnlyConcreteType)
        ensures
            r.info.long_id.generic_id.0@ == "BuiltinCosts"@,
            r.info.long_id.generic_args@.len() == 0,
            r.info.storable,
            !r.info.droppable,
            !r.info.duplicatable,
            r.info.size == 1u64,
    {
        InfoOnlyConcreteType {
            info: TypeInfo {
                long_id: ConcreteTypeLongId {
                    generic_id: BuiltinCostsType::id(),
                    generic_args: Vec::new(),
                },
                storable: true,
                droppable: false,
                duplicatable: false,
                size: 1,
            },
        }
    }
}

/// Library function for getting gas to be used by a builtin.
#[derive(Debug, PartialEq, Eq)]
pub struct BuiltinCostGetGasLibFunc {
    pub token_type: CostTokenType,
}

/// The signature a gas-withdrawal function has once the context resolved
/// the range-check and gas-builtin types: both types in, and for each of
/// the two branches — success first — both types out again.
pub open spec fn get_gas_signature_ok(
    sig: LibFuncSignature,
    rc: Seq<char>,
    gb: Seq<char>,
) -> bool {
    &&& sig.param_signatures@.len() == 2
    &&& sig.param_signatures@[0].ty.0@ == rc
    &&& sig.param_signatures@[1].ty.0@ == gb
    &&& sig.branch_signatures@.len() == 2
    &&& sig.branch_signatures@[0].vars@.len() == 2
    &&& sig.branch_signatures@[0].vars@[0].ty.0@ == rc
    &&& sig.branch_signatures@[0].vars@[0].ref_info == OutputVarReferenceInfo::Deferred(
        DeferredOutputKind::AddConst { param_idx: 0usize },
    )
    &&& sig.branch_signatures@[0].vars@[1].ty.0@ == gb
    &&& sig.branch_signatures@[0].vars@[1].ref_info == OutputVarReferenceInfo::Deferred(
        DeferredOutputKind::Generic,
    )
    &&& sig.branch_signatures@[0].ap_change == SierraApChange::Known(2usize)
    &&& sig.branch_signatures@[1].vars@.len() == 2
    &&& sig.branch_signatures@[1].vars@[0].ty.0@ == rc
    &&& sig.branch_signatures@[1].vars@[0].ref_info == OutputVarReferenceInfo::Deferred(
        DeferredOutputKind::AddConst { param_idx: 0usize },
    )
    &&& sig.branch_signatures@[1].vars@[1].ty.0@ == gb
    &&& sig.branch_signatures@[1].vars@[1].ref_info == (OutputVarReferenceInfo::SameAsParam {
        param_idx: 1usize,
    })
    &&& sig.branch_signatures@[1].ap_change == SierraApChange::Known(3usize)
    &&& sig.fallthrough == Some(0usize)
}

impl BuiltinCostGetGasLibFunc {
    /// Recognizes the gas-withdrawal function of one of the token types by
    /// its id: the token's name followed by the withdrawal suffix.
    pub fn by_id(id: &GenericLibFuncId) -> (res: Option<BuiltinCostGetGasLibFunc>)
        ensures
            match res {
                Some(l) => id.0@ == get_gas_name(token_name(l.token_type)),
                None => id.0@ != get_gas_name("step"@) && id.0@ != get_gas_name("pedersen"@),
            },
    {
        let tokens = CostTokenType::iter();
        let mut i: usize = 0;
        while i < tokens.len()
            invariant
                i <= tokens@.len(),
                tokens@ =~= seq![CostTokenType::Step, CostTokenType::Pedersen],
                forall|j: int|
                    0 <= j < i ==> id.0@ != get_gas_name(token_name(#[trigger] tokens@[j])),
            decreases tokens@.len() - i,
        {
            let token_type = tokens[i];
            let candidate = token_type.name().concat("_get_gas");
            if id.0 == candidate {
                return Some(BuiltinCostGetGasLibFunc { token_type });
            }
            i = i + 1;
        }
        proof {
            assert(id.0@ != get_gas_name(token_name(tokens@[0])));
            assert(id.0@ != get_gas_name(token_name(tokens@[1])));
        }
        None
    }

    /// Specializes the function for a concrete context: checks the generic
    /// arguments and resolves the signature.
    pub fn specialize(&self, context: &SignatureSpecializationContext, args: &Vec<GenericArg>)
        -> (res: Result<BuiltinGetGasConcreteLibFunc, SpecializationError>)
        ensures
            match res {
                Ok(c) => {
                    &&& c.token_type == self.token_type
                    &&& args@.len() == 0
                    &&& context.spec_get_concrete_type("RangeCheck"@) matches Some(rc)
                        && context.spec_get_concrete_type("GasBuiltin"@) matches Some(gb)
                        && get_gas_signature_ok(c.signature, rc, gb)
                },
                Err(e) => {
                    ||| args@.len() != 0 && e == SpecializationError::WrongNumberOfGenericArgs
                    ||| args@.len() == 0 && e == SpecializationError::UnsupportedId && (
                    context.spec_get_concrete_type("RangeCheck"@) is None
                        || context.spec_get_concrete_type("GasBuiltin"@) is None)
                },
            },
    {
        match self.specialize_signature(context, args) {
            Ok(signature) => Ok(
                BuiltinGetGasConcreteLibFunc { signature, token_type: self.token_type },
            ),
            Err(e) => Err(e),
        }
    }

    /// Resolves the function's signature against the context.
    pub fn specialize_signature(
        &self,
        context: &SignatureSpecializationContext,
        args: &Vec<GenericArg>,
    ) -> (res: Result<LibFuncSignature, SpecializationError>)
        ensures
            match res {
                Ok(sig) => {
                    &&& args@.len() == 0
                    &&& context.spec_get_concrete_type("RangeCheck"@) matches Some(rc)
                        && context.spec_get_concrete_type("GasBuiltin"@) matches Some(gb)
                        && get_gas_signature_ok(sig, rc, gb)
                },
                Err(e) => {
                    ||| args@.len() != 0 && e == SpecializationError::WrongNumberOfGenericArgs
                    ||| args@.len() == 0 && e == SpecializationError::UnsupportedId && (
                    context.spec_get_concrete_type("RangeCheck"@) is None
                        || context.spec_get_concrete_type("GasBuiltin"@) is None)
                },
            },
    {
        if args.len() != 0 {
            return Err(SpecializationError::WrongNumberOfGenericArgs);
        }
        let gas_builtin_type = match context.get_concrete_type(&GenericTypeId::new_inline(
            "GasBuiltin",
        )) {
            Some(t) => t,
            None => {
                return Err(SpecializationError::UnsupportedId);
            },
        };
        let range_check_type = match context.get_concrete_type(&GenericTypeId::new_inline(
            "RangeCheck",
        )) {
            Some(t) => t,
            None => {
                return Err(SpecializationError::UnsupportedId);
            },
        };
        let mut params: Vec<ParamSignature> = Vec::new();
        params.push(ParamSignature::new(range_check_type.duplicate()));
        params.push(ParamSignature::new(gas_builtin_type.duplicate()));
        let mut success_vars: Vec<OutputVarInfo> = Vec::new();
        success_vars.push(OutputVarInfo {
            ty: range_check_type.duplicate(),
            ref_info: OutputVarReferenceInfo::Deferred(
                DeferredOutputKind::AddConst { param_idx: 0 },
            ),
        });
        success_vars.push(OutputVarInfo {
            ty: gas_builtin_type.duplicate(),
            ref_info: OutputVarReferenceInfo::Deferred(DeferredOutputKind::Generic),
        });
        let mut failure_vars: Vec<OutputVarInfo> = Vec::new();
        failure_vars.push(OutputVarInfo {
            ty: range_check_type,
            ref_info: OutputVarReferenceInfo::Deferred(
                DeferredOutputKind::AddConst { param_idx: 0 },
            ),
        });
        failure_vars.push(OutputVarInfo {
            ty: gas_builtin_type,
            ref_info: OutputVarReferenceInfo::SameAsParam { param_idx: 1 },
        });
        let mut branches: Vec<BranchSignature> = Vec::new();
        branches.push(BranchSignature { vars: success_vars, ap_change: SierraApChange::Known(2) });
        branches.push(BranchSignature { vars: failure_vars, ap_change: SierraApChange::Known(3) });
        Ok(LibFuncSignature {
            param_signatures: params,
            branch_signatures: branches,
            fallthrough: Some(0),
        })
    }
}

/// The concrete gas-withdrawal function: its resolved signature and the
/// token type it withdraws.
#[derive(Debug, PartialEq, Eq)]
pub struct BuiltinGetGasConcreteLibFunc {
    pub signature: LibFuncSignature,
    pub token_type: CostTokenType,
}

impl BuiltinGetGasConcreteLibFunc {
    /// The function's signature.
    pub fn signature(&self) -> (r: &LibFuncSignature)
        ensures
            r == &self.signature,
    {
        &self.signature
    }
}

} // verus!

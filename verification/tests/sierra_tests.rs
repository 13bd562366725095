use lowering::builtin_cost::{
    BuiltinCostGetGasLibFunc, BuiltinCostsType, CostTokenType,
};
use lowering::graph::{val_to_text, BlockId, BranchInfo, Extension, Invocation, JumpInfo, TemplateArg, Type};
use lowering::ids::{ConcreteTypeId, GenericLibFuncId, GenericTypeId};
use lowering::lib_func::{
    as_single_type, GenericArg, OutputVarReferenceInfo, SierraApChange,
    SignatureSpecializationContext, SpecializationError, TypeSpecializationContext,
};
use lowering::invocations::{
    build, CellExpression, CellRef, CompiledInvocationBuilder, InvocationError,
    ReferenceExpression, ReferenceValue,
};
use lowering::nullable::{NullLibFunc, NullableConcreteLibFunc, NullableType};

fn gas_context() -> SignatureSpecializationContext {
    SignatureSpecializationContext {
        plain_types: vec![
            (
                GenericTypeId(String::from("RangeCheck")),
                ConcreteTypeId(String::from("RangeCheck0")),
            ),
            (
                GenericTypeId(String::from("GasBuiltin")),
                ConcreteTypeId(String::from("GasBuiltin0")),
            ),
        ],
        wrapped_types: vec![],
    }
}

#[test]
fn cost_token_types_in_order() {
    assert_eq!(
        CostTokenType::iter(),
        vec![CostTokenType::Step, CostTokenType::Pedersen]
    );
}

#[test]
fn cost_token_names() {
    assert_eq!(CostTokenType::Step.name(), String::from("step"));
    assert_eq!(CostTokenType::Pedersen.name(), String::from("pedersen"));
}

#[test]
fn builtin_costs_type_info() {
    let concrete = BuiltinCostsType {}.specialize();
    assert_eq!(concrete.info.long_id.generic_id.0, String::from("BuiltinCosts"));
    assert!(concrete.info.long_id.generic_args.is_empty());
    assert!(concrete.info.storable);
    assert!(!concrete.info.droppable);
    assert!(!concrete.info.duplicatable);
    assert_eq!(concrete.info.size, 1);
}

#[test]
fn get_gas_recognized_by_id() {
    let step = BuiltinCostGetGasLibFunc::by_id(&GenericLibFuncId(String::from("step_get_gas")))
        .unwrap();
    assert_eq!(step.token_type, CostTokenType::Step);
    let pedersen = BuiltinCostGetGasLibFunc::by_id(&GenericLibFuncId(String::from(
        "pedersen_get_gas",
    )))
    .unwrap();
    assert_eq!(pedersen.token_type, CostTokenType::Pedersen);
    assert!(BuiltinCostGetGasLibFunc::by_id(&GenericLibFuncId(String::from("step"))).is_none());
    assert!(BuiltinCostGetGasLibFunc::by_id(&GenericLibFuncId(String::from("null"))).is_none());
}

#[test]
fn get_gas_signature_shape() {
    let libfunc = BuiltinCostGetGasLibFunc { token_type: CostTokenType::Step };
    let sig = libfunc.specialize_signature(&gas_context(), &vec![]).unwrap();
    assert_eq!(sig.param_signatures.len(), 2);
    assert_eq!(sig.param_signatures[0].ty.0, String::from("RangeCheck0"));
    assert_eq!(sig.param_signatures[1].ty.0, String::from("GasBuiltin0"));
    assert_eq!(sig.branch_signatures.len(), 2);
    assert_eq!(sig.branch_signatures[0].ap_change, SierraApChange::Known(2));
    assert_eq!(sig.branch_signatures[1].ap_change, SierraApChange::Known(3));
    assert_eq!(
        sig.branch_signatures[1].vars[1].ref_info,
        OutputVarReferenceInfo::SameAsParam { param_idx: 1 }
    );
    assert_eq!(sig.fallthrough, Some(0));

    let concrete = libfunc.specialize(&gas_context(), &vec![]).unwrap();
    assert_eq!(concrete.token_type, CostTokenType::Step);
    assert_eq!(concrete.signature().param_signatures.len(), 2);
}

#[test]
fn get_gas_signature_errors() {
    let libfunc = BuiltinCostGetGasLibFunc { token_type: CostTokenType::Step };
    let bad_args = libfunc.specialize_signature(&gas_context(), &vec![GenericArg::Value(1)]);
    assert_eq!(bad_args, Err(SpecializationError::WrongNumberOfGenericArgs));
    let empty = SignatureSpecializationContext { plain_types: vec![], wrapped_types: vec![] };
    assert_eq!(
        libfunc.specialize_signature(&empty, &vec![]),
        Err(SpecializationError::UnsupportedId)
    );
}

#[test]
fn as_single_type_cases() {
    let ok = as_single_type(&vec![GenericArg::Type(ConcreteTypeId(String::from("felt")))]);
    assert_eq!(ok.unwrap().0, String::from("felt"));
    assert_eq!(
        as_single_type(&vec![]),
        Err(SpecializationError::WrongNumberOfGenericArgs)
    );
    assert_eq!(
        as_single_type(&vec![GenericArg::Value(3)]),
        Err(SpecializationError::UnsupportedGenericArg)
    );
}

#[test]
fn nullable_type_specialization() {
    let context = TypeSpecializationContext {
        type_infos: vec![(
            ConcreteTypeId(String::from("felt")),
            BuiltinCostsType {}.specialize().info,
        )],
    };
    let concrete = NullableType {}
        .specialize(&context, &vec![GenericArg::Type(ConcreteTypeId(String::from("felt")))])
        .unwrap();
    assert_eq!(concrete.ty.0, String::from("felt"));
    assert_eq!(concrete.info().size, 1);
    let missing = NullableType {}.specialize(
        &context,
        &vec![GenericArg::Type(ConcreteTypeId(String::from("other")))],
    );
    assert_eq!(missing, Err(SpecializationError::UnsupportedId));
}

#[test]
fn null_libfunc_signature() {
    let context = SignatureSpecializationContext {
        plain_types: vec![],
        wrapped_types: vec![(
            GenericTypeId(String::from("Nullable")),
            ConcreteTypeId(String::from("felt")),
            ConcreteTypeId(String::from("NullableFelt")),
        )],
    };
    let sig = NullLibFunc {}
        .specialize_signature(
            &context,
            &vec![GenericArg::Type(ConcreteTypeId(String::from("felt")))],
        )
        .unwrap();
    assert!(sig.param_signatures.is_empty());
    assert_eq!(sig.branch_signatures.len(), 1);
    assert_eq!(sig.branch_signatures[0].vars.len(), 1);
    assert_eq!(
        sig.branch_signatures[0].vars[0].ty.0,
        String::from("NullableFelt")
    );
    assert_eq!(
        sig.branch_signatures[0].ap_change,
        SierraApChange::KnownNewVarsOnly
    );
}

#[test]
fn decimal_rendering() {
    assert_eq!(val_to_text(0), String::from("0"));
    assert_eq!(val_to_text(42), String::from("42"));
    assert_eq!(val_to_text(-42), String::from("-42"));
    assert_eq!(val_to_text(1000), String::from("1000"));
    assert_eq!(val_to_text(i64::MIN), String::from("-9223372036854775808"));
}

#[test]
fn type_rendering() {
    let plain = Type { name: String::from("felt"), args: vec![] };
    assert_eq!(plain.to_text(), String::from("felt"));
    let nested = Type {
        name: String::from("Nullable"),
        args: vec![
            TemplateArg::Type(Type { name: String::from("felt"), args: vec![] }),
            TemplateArg::Value(-3),
        ],
    };
    assert_eq!(nested.to_text(), String::from("Nullable<felt, -3>"));
}

#[test]
fn invocation_rendering() {
    let invocation = Invocation {
        ext: Extension { name: String::from("store"), tmpl_args: vec![TemplateArg::Value(2)] },
        args: vec![String::from("a"), String::from("b")],
        results: vec![String::from("c")],
    };
    assert_eq!(invocation.to_text(), String::from("store<2>(a, b) -> (c)"));
}

#[test]
fn jump_rendering() {
    let jump = JumpInfo {
        ext: Extension { name: String::from("jump_nz"), tmpl_args: vec![] },
        args: vec![String::from("x")],
        branches: vec![
            BranchInfo { block: BlockId(1), exports: vec![String::from("x")] },
            BranchInfo { block: BlockId(2), exports: vec![] },
        ],
    };
    assert_eq!(jump.to_text(), String::from("jump_nz(x) {\n1(x)\n,\n2()\n,\n}"));
}

#[test]
fn nullable_null_invocation() {
    let sig = NullLibFunc {}
        .specialize_signature(
            &SignatureSpecializationContext {
                plain_types: vec![],
                wrapped_types: vec![(
                    GenericTypeId(String::from("Nullable")),
                    ConcreteTypeId(String::from("felt")),
                    ConcreteTypeId(String::from("NullableFelt")),
                )],
            },
            &vec![GenericArg::Type(ConcreteTypeId(String::from("felt")))],
        )
        .unwrap();
    let built = build(
        &NullableConcreteLibFunc::Null(sig),
        CompiledInvocationBuilder { refs: vec![] },
    )
    .unwrap();
    assert_eq!(built.results.len(), 1);
    assert_eq!(built.results[0].cells, vec![CellExpression::Immediate(0)]);

    let sig2 = NullLibFunc {}
        .specialize_signature(
            &SignatureSpecializationContext {
                plain_types: vec![],
                wrapped_types: vec![(
                    GenericTypeId(String::from("Nullable")),
                    ConcreteTypeId(String::from("felt")),
                    ConcreteTypeId(String::from("NullableFelt")),
                )],
            },
            &vec![GenericArg::Type(ConcreteTypeId(String::from("felt")))],
        )
        .unwrap();
    let wrong = build(
        &NullableConcreteLibFunc::Null(sig2),
        CompiledInvocationBuilder {
            refs: vec![ReferenceValue { expression: ReferenceExpression { cells: vec![] } }],
        },
    );
    assert_eq!(
        wrong,
        Err(InvocationError::WrongNumberOfArguments { expected: 0, actual: 1 })
    );
}

#[test]
fn nullable_into_nullable_invocation() {
    let sig = || {
        NullLibFunc {}
            .specialize_signature(
                &SignatureSpecializationContext {
                    plain_types: vec![],
                    wrapped_types: vec![(
                        GenericTypeId(String::from("Nullable")),
                        ConcreteTypeId(String::from("felt")),
                        ConcreteTypeId(String::from("NullableFelt")),
                    )],
                },
                &vec![GenericArg::Type(ConcreteTypeId(String::from("felt")))],
            )
            .unwrap()
    };
    let built = build(
        &NullableConcreteLibFunc::IntoNullable(sig()),
        CompiledInvocationBuilder {
            refs: vec![ReferenceValue {
                expression: ReferenceExpression {
                    cells: vec![CellExpression::Deref(CellRef { offset: 3 })],
                },
            }],
        },
    )
    .unwrap();
    assert_eq!(
        built.results[0].cells,
        vec![CellExpression::Deref(CellRef { offset: 3 })]
    );
    let bad = build(
        &NullableConcreteLibFunc::IntoNullable(sig()),
        CompiledInvocationBuilder {
            refs: vec![ReferenceValue {
                expression: ReferenceExpression { cells: vec![CellExpression::Immediate(5)] },
            }],
        },
    );
    assert_eq!(bad, Err(InvocationError::InvalidReferenceExpressionForArgument));
}

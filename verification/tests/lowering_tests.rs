use lowering::diagnostic::LoweringDiagnostic;
use lowering::lower::lower_free_function;
use lowering::objects::{LoweredStatement, StatementLiteral};
use lowering::semantic::{
    ConcreteVariant, EnumDef, Expr, ExprBlock, ExprIf, ExprLiteral, ExprMatch, ExprMissing,
    ExprTuple, ExprVar, FunctionDef, MatchArmExpr, Mutability, Param, SemanticDb, Signature,
    Statement, StatementLet, TypeInfo,
};

const FN_ID: u64 = 1;
const VALUE_TY: u64 = 7;
const ENUM_TY: u64 = 100;
const ENUM_ID: u64 = 50;

/// A database holding one function with the given body, a duplicable value
/// type and a concrete enum with the given number of variants.
fn db_with(def: FunctionDef, n_variants: usize) -> SemanticDb {
    let mut variants = Vec::new();
    for index in 0..n_variants {
        variants.push(ConcreteVariant { concrete_enum: ENUM_ID, index });
    }
    SemanticDb {
        definitions: vec![(FN_ID, def)],
        signatures: vec![(FN_ID, Signature { params: vec![] })],
        generic_params: vec![(FN_ID, vec![])],
        implicits: vec![(FN_ID, vec![])],
        type_infos: vec![(VALUE_TY, TypeInfo { droppable: true, duplicatable: true })],
        enums: vec![(ENUM_TY, EnumDef { concrete_enum: ENUM_ID, variants })],
    }
}

fn literal(value: i128) -> Expr {
    Expr::Literal(ExprLiteral { value, ty: VALUE_TY })
}

fn var(v: u64, ty: u64) -> Expr {
    Expr::Var(ExprVar { var: v, ty })
}

fn block(tail: Option<usize>, statements: Vec<usize>) -> Expr {
    Expr::Block(ExprBlock { statements, tail, ty: VALUE_TY })
}

fn match_expr(matched: usize, arm_exprs: Vec<usize>) -> Expr {
    let arms = arm_exprs.into_iter().map(|expression| MatchArmExpr { expression }).collect();
    Expr::Match(ExprMatch { matched_expr: matched, arms, ty: VALUE_TY })
}

#[test]
fn literal_round_trip() {
    // Lowering a single literal of value 42 gives exactly one
    // literal-binding statement with that value, and the output variable's
    // type is the literal's static type.
    let def = FunctionDef {
        exprs: vec![literal(42), block(Some(0), vec![])],
        statements: vec![],
        body: 1,
    };
    let lowered = lower_free_function(&db_with(def, 0), FN_ID).unwrap();
    assert!(lowered.diagnostics.is_empty());
    assert_eq!(lowered.variables.len(), 1);
    assert_eq!(lowered.variables[0].ty, VALUE_TY);
    assert!(lowered.variables[0].droppable);
    assert!(lowered.variables[0].duplicatable);
    assert_eq!(lowered.blocks.len(), 1);
    assert_eq!(lowered.root, 0);
    assert_eq!(
        lowered.blocks[0].statements,
        vec![LoweredStatement::Literal(StatementLiteral { value: 42, output: 0 })]
    );
}

#[test]
fn unknown_type_defaults_to_conservative_metadata() {
    let def = FunctionDef {
        exprs: vec![
            Expr::Literal(ExprLiteral { value: 3, ty: 999 }),
            Expr::Block(ExprBlock { statements: vec![], tail: Some(0), ty: 999 }),
        ],
        statements: vec![],
        body: 1,
    };
    let lowered = lower_free_function(&db_with(def, 0), FN_ID).unwrap();
    assert!(!lowered.variables[0].droppable);
    assert!(!lowered.variables[0].duplicatable);
}

#[test]
fn exhaustive_match_two_variants() {
    // A match over a two-variant enum with literal arms produces one
    // enum-match statement with exactly two arms in variant declaration
    // order, each arm's block holding exactly one literal statement.
    let def = FunctionDef {
        exprs: vec![
            var(10, ENUM_TY),
            literal(1),
            literal(2),
            match_expr(0, vec![1, 2]),
            block(Some(3), vec![]),
        ],
        statements: vec![],
        body: 4,
    };
    let lowered = lower_free_function(&db_with(def, 2), FN_ID).unwrap();
    assert!(lowered.diagnostics.is_empty());
    let root = &lowered.blocks[lowered.root].statements;
    assert_eq!(root.len(), 1);
    match &root[0] {
        LoweredStatement::MatchEnum(m) => {
            assert_eq!(m.concrete_enum, ENUM_ID);
            assert_eq!(m.arms.len(), 2);
            assert_eq!(m.arms[0].variant, ConcreteVariant { concrete_enum: ENUM_ID, index: 0 });
            assert_eq!(m.arms[1].variant, ConcreteVariant { concrete_enum: ENUM_ID, index: 1 });
            assert!(m.inputs.is_empty());
            assert!(m.outputs.is_empty());
            let arm0 = &lowered.blocks[m.arms[0].block_id].statements;
            let arm1 = &lowered.blocks[m.arms[1].block_id].statements;
            assert_eq!(
                arm0,
                &vec![LoweredStatement::Literal(StatementLiteral { value: 1, output: 0 })]
            );
            assert_eq!(
                arm1,
                &vec![LoweredStatement::Literal(StatementLiteral { value: 2, output: 1 })]
            );
        }
        other => panic!("expected an enum match, found {:?}", other),
    }
}

#[test]
fn match_unification_threads_outer_binding() {
    // A let-bound variable used inside a match arm is threaded into the
    // arm through the unification mapping: the statement's inputs are the
    // union of the arms' mapping keys, and each arm's mapping values are
    // the variables the arm required.
    let def = FunctionDef {
        exprs: vec![
            literal(9),
            var(5, VALUE_TY),
            var(6, ENUM_TY),
            match_expr(2, vec![1]),
            block(Some(3), vec![0]),
        ],
        statements: vec![Statement::Let(StatementLet { var: 5, expr: 0 })],
        body: 4,
    };
    let lowered = lower_free_function(&db_with(def, 1), FN_ID).unwrap();
    assert!(lowered.diagnostics.is_empty());
    let root = &lowered.blocks[lowered.root].statements;
    assert_eq!(root.len(), 2);
    assert_eq!(
        root[0],
        LoweredStatement::Literal(StatementLiteral { value: 9, output: 0 })
    );
    match &root[1] {
        LoweredStatement::MatchEnum(m) => {
            assert_eq!(m.inputs, vec![0]);
            assert_eq!(m.arms.len(), 1);
            let mapping = &m.arms[0].var_mapping;
            assert_eq!(mapping.len(), 1);
            assert_eq!(mapping.key_at(0), 0);
            let placeholder = mapping.val_at(0);
            assert_eq!(m.outputs, vec![placeholder]);
            assert_ne!(m.output, placeholder);
        }
        other => panic!("expected an enum match, found {:?}", other),
    }
}

#[test]
fn arm_isolation_distinct_placeholders() {
    // Two arms requiring the same outer variable each get their own
    // placeholder: the mappings' supplied ids are disjoint across arms,
    // while the shared source id appears once in the unified inputs.
    let def = FunctionDef {
        exprs: vec![
            literal(9),
            var(5, VALUE_TY),
            var(5, VALUE_TY),
            var(6, ENUM_TY),
            match_expr(3, vec![1, 2]),
            block(Some(4), vec![0]),
        ],
        statements: vec![Statement::Let(StatementLet { var: 5, expr: 0 })],
        body: 5,
    };
    let lowered = lower_free_function(&db_with(def, 2), FN_ID).unwrap();
    assert!(lowered.diagnostics.is_empty());
    let root = &lowered.blocks[lowered.root].statements;
    match &root[1] {
        LoweredStatement::MatchEnum(m) => {
            assert_eq!(m.inputs, vec![0]);
            assert_eq!(m.arms[0].var_mapping.len(), 1);
            assert_eq!(m.arms[1].var_mapping.len(), 1);
            assert_eq!(m.arms[0].var_mapping.key_at(0), 0);
            assert_eq!(m.arms[1].var_mapping.key_at(0), 0);
            let p0 = m.arms[0].var_mapping.val_at(0);
            let p1 = m.arms[1].var_mapping.val_at(0);
            assert_ne!(p0, p1);
            assert_eq!(m.outputs, vec![p0, p1]);
        }
        other => panic!("expected an enum match, found {:?}", other),
    }
}

#[test]
fn missing_outer_variable_yields_diagnostic() {
    // An arm referencing a variable never bound before the match yields a
    // missing-variable diagnostic, and the variable does not appear in the
    // statement's unified inputs.
    let def = FunctionDef {
        exprs: vec![
            var(77, VALUE_TY),
            var(6, ENUM_TY),
            match_expr(1, vec![0]),
            block(Some(2), vec![]),
        ],
        statements: vec![],
        body: 3,
    };
    let lowered = lower_free_function(&db_with(def, 1), FN_ID).unwrap();
    assert_eq!(lowered.diagnostics, vec![LoweringDiagnostic::MissingVariable { var: 77 }]);
    let root = &lowered.blocks[lowered.root].statements;
    match &root[0] {
        LoweredStatement::MatchEnum(m) => {
            assert!(m.inputs.is_empty());
            assert!(m.outputs.is_empty());
            assert_eq!(m.arms.len(), 1);
            assert_eq!(m.arms[0].var_mapping.len(), 0);
        }
        other => panic!("expected an enum match, found {:?}", other),
    }
}

#[test]
fn lowering_is_deterministic() {
    // Lowering the same typed input twice yields structurally identical
    // results, arm order, mapping order and input/output order included.
    let build = || FunctionDef {
        exprs: vec![
            literal(9),
            var(5, VALUE_TY),
            var(5, VALUE_TY),
            var(6, ENUM_TY),
            match_expr(3, vec![1, 2]),
            block(Some(4), vec![0]),
        ],
        statements: vec![Statement::Let(StatementLet { var: 5, expr: 0 })],
        body: 5,
    };
    let first = lower_free_function(&db_with(build(), 2), FN_ID).unwrap();
    let second = lower_free_function(&db_with(build(), 2), FN_ID).unwrap();
    assert_eq!(first, second);
}

#[test]
fn arm_count_mismatch_is_hard_failure() {
    // One arm against a two-variant enum: no lowered form is produced.
    let def = FunctionDef {
        exprs: vec![
            var(10, ENUM_TY),
            literal(1),
            match_expr(0, vec![1]),
            block(Some(2), vec![]),
        ],
        statements: vec![],
        body: 3,
    };
    assert!(lower_free_function(&db_with(def, 2), FN_ID).is_none());
}

#[test]
fn match_on_non_enum_type_is_hard_failure() {
    let def = FunctionDef {
        exprs: vec![
            var(10, VALUE_TY),
            literal(1),
            match_expr(0, vec![1]),
            block(Some(2), vec![]),
        ],
        statements: vec![],
        body: 3,
    };
    assert!(lower_free_function(&db_with(def, 1), FN_ID).is_none());
}

#[test]
fn unknown_function_is_hard_failure() {
    let def = FunctionDef { exprs: vec![literal(1), block(Some(0), vec![])], statements: vec![], body: 1 };
    assert!(lower_free_function(&db_with(def, 0), 999).is_none());
}

#[test]
fn non_block_body_is_hard_failure() {
    let def = FunctionDef { exprs: vec![literal(1)], statements: vec![], body: 0 };
    assert!(lower_free_function(&db_with(def, 0), FN_ID).is_none());
}

#[test]
fn missing_expression_is_soft_diagnostic() {
    // An expression that failed upstream analysis is recorded and lowering
    // still produces the function's whole form.
    let def = FunctionDef {
        exprs: vec![
            Expr::Missing(ExprMissing { ty: VALUE_TY }),
            block(Some(0), vec![]),
        ],
        statements: vec![],
        body: 1,
    };
    let lowered = lower_free_function(&db_with(def, 0), FN_ID).unwrap();
    assert_eq!(lowered.diagnostics, vec![LoweringDiagnostic::MissingExpression { expr: 0 }]);
    assert_eq!(lowered.blocks.len(), 1);
}

#[test]
fn conditional_lowers_through_unification() {
    // A conditional lowers its condition in the enclosing scope and its
    // two branches as arms of the resolved branch enum.
    let def = FunctionDef {
        exprs: vec![
            literal(1),
            literal(10),
            literal(20),
            Expr::If(ExprIf {
                condition: 0,
                concrete_enum: ENUM_ID,
                variants: vec![
                    ConcreteVariant { concrete_enum: ENUM_ID, index: 0 },
                    ConcreteVariant { concrete_enum: ENUM_ID, index: 1 },
                ],
                if_expr: 1,
                else_expr: 2,
                ty: VALUE_TY,
            }),
            block(Some(3), vec![]),
        ],
        statements: vec![],
        body: 4,
    };
    let lowered = lower_free_function(&db_with(def, 2), FN_ID).unwrap();
    assert!(lowered.diagnostics.is_empty());
    let root = &lowered.blocks[lowered.root].statements;
    assert_eq!(root.len(), 2);
    assert_eq!(
        root[0],
        LoweredStatement::Literal(StatementLiteral { value: 1, output: 0 })
    );
    match &root[1] {
        LoweredStatement::MatchEnum(m) => {
            assert_eq!(m.arms.len(), 2);
            let then_block = &lowered.blocks[m.arms[0].block_id].statements;
            let else_block = &lowered.blocks[m.arms[1].block_id].statements;
            assert_eq!(then_block.len(), 1);
            assert_eq!(else_block.len(), 1);
        }
        other => panic!("expected an enum match, found {:?}", other),
    }
}

#[test]
fn parameters_are_bound_before_the_body() {
    // A parameter used in the body resolves to one of the first variable
    // ids, without becoming a requirement.
    let def = FunctionDef {
        exprs: vec![
            var(5, VALUE_TY),
            Expr::Tuple(ExprTuple { exprs: vec![0], ty: VALUE_TY }),
            block(Some(1), vec![]),
        ],
        statements: vec![],
        body: 2,
    };
    let mut db = db_with(def, 0);
    db.signatures = vec![(
        FN_ID,
        Signature {
            params: vec![Param { id: 5, ty: VALUE_TY, mutability: Mutability::Immutable }],
        },
    )];
    let lowered = lower_free_function(&db, FN_ID).unwrap();
    assert!(lowered.diagnostics.is_empty());
    let root = &lowered.blocks[lowered.root].statements;
    assert_eq!(root.len(), 1);
    match &root[0] {
        LoweredStatement::StructConstruct(s) => {
            assert_eq!(s.inputs, vec![0]);
            assert_eq!(s.output, 1);
        }
        other => panic!("expected a struct construction, found {:?}", other),
    }
}

#[test]
fn unresolved_root_reference_is_reported() {
    // A variable the function itself cannot supply is reported as missing.
    let def = FunctionDef {
        exprs: vec![var(40, VALUE_TY), block(Some(0), vec![])],
        statements: vec![],
        body: 1,
    };
    let lowered = lower_free_function(&db_with(def, 0), FN_ID).unwrap();
    assert_eq!(lowered.diagnostics, vec![LoweringDiagnostic::MissingVariable { var: 40 }]);
}

#[test]
fn nested_matches_allocate_inner_blocks_first() {
    // A match inside an arm: the inner arm's block, the outer arm's block
    // and the root are allocated innermost first, so every reference
    // points strictly backwards.
    let def = FunctionDef {
        exprs: vec![
            var(6, ENUM_TY),
            var(7, ENUM_TY),
            literal(5),
            match_expr(1, vec![2]),
            match_expr(0, vec![3]),
            block(Some(4), vec![]),
        ],
        statements: vec![],
        body: 5,
    };
    let lowered = lower_free_function(&db_with(def, 1), FN_ID).unwrap();
    assert!(lowered.diagnostics.is_empty());
    assert_eq!(lowered.blocks.len(), 3);
    assert_eq!(lowered.root, 2);
    let root = &lowered.blocks[2].statements;
    match &root[0] {
        LoweredStatement::MatchEnum(outer) => {
            let outer_arm = outer.arms[0].block_id;
            assert!(outer_arm < 2);
            match &lowered.blocks[outer_arm].statements[0] {
                LoweredStatement::MatchEnum(inner) => {
                    let inner_arm = inner.arms[0].block_id;
                    assert!(inner_arm < outer_arm);
                    assert_eq!(
                        lowered.blocks[inner_arm].statements,
                        vec![LoweredStatement::Literal(StatementLiteral { value: 5, output: 0 })]
                    );
                }
                other => panic!("expected the inner enum match, found {:?}", other),
            }
        }
        other => panic!("expected the outer enum match, found {:?}", other),
    }
}

#[test]
fn aliased_requirements_are_reported() {
    // Two source variables bound to one lowered variable: an arm requiring
    // both cannot carry both in its mapping, so the second requirement is
    // reported and the mapping keeps the first.
    let def = FunctionDef {
        exprs: vec![
            literal(1),
            var(5, VALUE_TY),
            var(5, VALUE_TY),
            var(8, VALUE_TY),
            Expr::Tuple(ExprTuple { exprs: vec![2, 3], ty: VALUE_TY }),
            var(6, ENUM_TY),
            match_expr(5, vec![4]),
            block(Some(6), vec![0, 1]),
        ],
        statements: vec![
            Statement::Let(StatementLet { var: 5, expr: 0 }),
            Statement::Let(StatementLet { var: 8, expr: 1 }),
        ],
        body: 7,
    };
    let lowered = lower_free_function(&db_with(def, 1), FN_ID).unwrap();
    assert_eq!(
        lowered.diagnostics,
        vec![LoweringDiagnostic::AliasedRequirement { var: 8 }]
    );
    let root = &lowered.blocks[lowered.root].statements;
    match root.last().unwrap() {
        LoweredStatement::MatchEnum(m) => {
            assert_eq!(m.inputs, vec![0]);
            assert_eq!(m.arms[0].var_mapping.len(), 1);
            assert_eq!(m.arms[0].var_mapping.key_at(0), 0);
        }
        other => panic!("expected an enum match, found {:?}", other),
    }
}

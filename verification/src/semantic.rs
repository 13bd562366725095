//! The typed input consumed by lowering: a name-resolved, type-checked
//! function body, together with the read-only semantic database that answers
//! type-property and enum-shape queries.
//!
//! Expressions and statements are arena-indexed: a child is always stored at
//! a strictly smaller index than its parent, which is what makes recursion
//! over the tree terminate.

use vstd::prelude::*;

verus! {

/// Opaque handle to a semantic type.
pub type TypeId = u64;

/// A source-level (semantic) variable identifier.
pub type SemVarId = u64;

/// Handle to a semantic function.
pub type FunctionId = u64;

/// Handle to a free function to be lowered.
pub type FreeFunctionId = u64;

/// Handle to a generic parameter.
pub type GenericParamId = u64;

/// Handle to a concrete (fully instantiated) enum type.
pub type ConcreteEnumId = u64;

/// Index of an expression in a function body's expression arena.
pub type ExprId = usize;

/// Index of a statement in a function body's statement arena.
pub type StatementId = usize;

/// One concrete variant of a concrete enum, identified by its position in
/// the enum's declared variant order.
#[derive(Clone, Copy, Debug, PartialEq, Eq, Structural)]
pub struct ConcreteVariant {
    pub concrete_enum: ConcreteEnumId,
    pub index: usize,
}

/// Type properties queried from the semantic database.
#[derive(Clone, Copy, Debug, PartialEq, Eq, Structural)]
pub struct TypeInfo {
    /// Can a value of the type be discarded without explicit cleanup code.
    pub droppable: bool,
    /// Can a value of the type be copied without explicit duplication code.
    pub duplicatable: bool,
}

/// Parameter mutability, including by-reference parameters.
#[derive(Clone, Copy, Debug, PartialEq, Eq, Structural)]
pub enum Mutability {
    Immutable,
    Mutable,
    Reference,
}

/// A declared parameter of a function signature.
#[derive(Clone, Copy, Debug, PartialEq, Eq, Structural)]
pub struct Param {
    pub id: SemVarId,
    pub ty: TypeId,
    pub mutability: Mutability,
}

/// A function's declared signature.
#[derive(Clone, Debug, PartialEq, Eq)]
pub struct Signature {
    pub params: Vec<Param>,
}

/// A tuple expression.
#[derive(Clone, Debug, PartialEq, Eq)]
pub struct ExprTuple {
    pub exprs: Vec<ExprId>,
    pub ty: TypeId,
}

/// An assignment to an already-declared variable; its own value is unit.
#[derive(Clone, Debug, PartialEq, Eq)]
pub struct ExprAssignment {
    pub var: SemVarId,
    pub rhs: ExprId,
    pub ty: TypeId,
}

/// A nested statement block with an optional tail expression for its value.
#[derive(Clone, Debug, PartialEq, Eq)]
pub struct ExprBlock {
    pub statements: Vec<StatementId>,
    pub tail: Option<ExprId>,
    pub ty: TypeId,
}

/// A call of a user function.
#[derive(Clone, Debug, PartialEq, Eq)]
pub struct ExprFunctionCall {
    pub function: FunctionId,
    pub args: Vec<ExprId>,
    pub ty: TypeId,
}

/// One syntactic arm of a match expression, already in the matched enum's
/// declared variant order.
#[derive(Clone, Debug, PartialEq, Eq)]
pub struct MatchArmExpr {
    pub expression: ExprId,
}

/// A match over a value of a concrete enum type.
#[derive(Clone, Debug, PartialEq, Eq)]
pub struct ExprMatch {
    pub matched_expr: ExprId,
    pub arms: Vec<MatchArmExpr>,
    pub ty: TypeId,
}

/// A conditional. The semantic layer has already resolved the two-variant
/// enum that carries the branch decision; the branches stand in the enum's
/// variant order: the "true" branch first, the "false" branch second.
#[derive(Clone, Debug, PartialEq, Eq)]
pub struct ExprIf {
    pub condition: ExprId,
    pub concrete_enum: ConcreteEnumId,
    pub variants: Vec<ConcreteVariant>,
    pub if_expr: ExprId,
    pub else_expr: ExprId,
    pub ty: TypeId,
}

/// A reference to a source-level variable.
#[derive(Clone, Copy, Debug, PartialEq, Eq, Structural)]
pub struct ExprVar {
    pub var: SemVarId,
    pub ty: TypeId,
}

/// A literal with its exact value.
#[derive(Clone, Copy, Debug, PartialEq, Eq, Structural)]
pub struct ExprLiteral {
    pub value: i128,
    pub ty: TypeId,
}

/// Access to one member of a struct value; the semantic layer supplies the
/// types of all members so that the destructure can name each of them.
#[derive(Clone, Debug, PartialEq, Eq)]
pub struct ExprMemberAccess {
    pub expr: ExprId,
    pub member_idx: usize,
    pub member_tys: Vec<TypeId>,
    pub ty: TypeId,
}

/// Construction of a struct from its member values.
#[derive(Clone, Debug, PartialEq, Eq)]
pub struct ExprStructCtor {
    pub members: Vec<ExprId>,
    pub ty: TypeId,
}

/// Construction of an enum variant from its single argument.
#[derive(Clone, Debug, PartialEq, Eq)]
pub struct ExprEnumVariantCtor {
    pub variant: ConcreteVariant,
    pub value_expr: ExprId,
    pub ty: TypeId,
}

/// Propagation of a fallible operation's error case; the semantic layer
/// resolved the function that performs the test.
#[derive(Clone, Debug, PartialEq, Eq)]
pub struct ExprPropagateError {
    pub inner: ExprId,
    pub function: FunctionId,
    pub ty: TypeId,
}

/// Placeholder for an expression that failed type analysis upstream.
#[derive(Clone, Copy, Debug, PartialEq, Eq, Structural)]
pub struct ExprMissing {
    pub ty: TypeId,
}

/// A typed expression. The variant set is closed: lowering dispatches
/// totally over exactly these kinds.
#[derive(Clone, Debug, PartialEq, Eq)]
pub enum Expr {
    Tuple(ExprTuple),
    Assignment(ExprAssignment),
    Block(ExprBlock),
    FunctionCall(ExprFunctionCall),
    Match(ExprMatch),
    If(ExprIf),
    Var(ExprVar),
    Literal(ExprLiteral),
    MemberAccess(ExprMemberAccess),
    StructCtor(ExprStructCtor),
    EnumVariantCtor(ExprEnumVariantCtor),
    PropagateError(ExprPropagateError),
    Missing(ExprMissing),
}

impl Expr {
    /// The resolved type of the expression's value.
    pub open spec fn ty(self) -> TypeId {
        match self {
            Expr::Tuple(e) => e.ty,
            Expr::Assignment(e) => e.ty,
            Expr::Block(e) => e.ty,
            Expr::FunctionCall(e) => e.ty,
            Expr::Match(e) => e.ty,
            Expr::If(e) => e.ty,
            Expr::Var(e) => e.ty,
            Expr::Literal(e) => e.ty,
            Expr::MemberAccess(e) => e.ty,
            Expr::StructCtor(e) => e.ty,
            Expr::EnumVariantCtor(e) => e.ty,
            Expr::PropagateError(e) => e.ty,
            Expr::Missing(e) => e.ty,
        }
    }
}

/// An expression statement.
#[derive(Clone, Copy, Debug, PartialEq, Eq, Structural)]
pub struct StatementExpr {
    pub expr: ExprId,
}

/// A let binding of one source-level variable.
#[derive(Clone, Copy, Debug, PartialEq, Eq, Structural)]
pub struct StatementLet {
    pub var: SemVarId,
    pub expr: ExprId,
}

/// A return statement; handled by the enclosing driver, not elaborated here.
#[derive(Clone, Copy, Debug, PartialEq, Eq, Structural)]
pub struct StatementReturn {
    pub expr: Option<ExprId>,
}

/// A typed statement of a block.
#[derive(Clone, Copy, Debug, PartialEq, Eq, Structural)]
pub enum Statement {
    Expr(StatementExpr),
    Let(StatementLet),
    Return(StatementReturn),
}

/// A function's typed body: expression and statement arenas plus the root
/// body expression, which must be a block.
#[derive(Clone, Debug, PartialEq, Eq)]
pub struct FunctionDef {
    pub exprs: Vec<Expr>,
    pub statements: Vec<Statement>,
    pub body: ExprId,
}

/// The shape of one concrete enum: its identity and its ordered variants.
#[derive(Clone, Debug, PartialEq, Eq)]
pub struct EnumDef {
    pub concrete_enum: ConcreteEnumId,
    pub variants: Vec<ConcreteVariant>,
}

/// The read-only semantic database: an idempotent, side-effect-free lookup
/// service for definitions, signatures and type properties. Each table is an
/// association list; the first entry with a matching key answers the query.
#[derive(Clone, Debug, PartialEq, Eq)]
pub struct SemanticDb {
    pub definitions: Vec<(FreeFunctionId, FunctionDef)>,
    pub signatures: Vec<(FreeFunctionId, Signature)>,
    pub generic_params: Vec<(FreeFunctionId, Vec<GenericParamId>)>,
    pub implicits: Vec<(FreeFunctionId, Vec<TypeId>)>,
    pub type_infos: Vec<(TypeId, TypeInfo)>,
    pub enums: Vec<(TypeId, EnumDef)>,
}

impl FunctionDef {
    /// A statement refers only to expressions below `e`.
    pub open spec fn stmt_children_below(self, s: Statement, e: int) -> bool {
        match s {
            Statement::Expr(se) => (se.expr as int) < e,
            Statement::Let(sl) => (sl.expr as int) < e,
            Statement::Return(sr) => match sr.expr {
                Some(x) => (x as int) < e,
                None => true,
            },
        }
    }

    /// The expression at index `e` refers only to children stored at
    /// strictly smaller indices, and to valid statement ids.
    pub open spec fn expr_children_ok(self, e: int) -> bool {
        match self.exprs@[e] {
            Expr::Tuple(t) => forall|i: int|
                0 <= i < t.exprs@.len() ==> (#[trigger] t.exprs@[i] as int) < e,
            Expr::Assignment(a) => (a.rhs as int) < e,
            Expr::Block(b) => {
                &&& forall|i: int|
                    0 <= i < b.statements@.len() ==> (#[trigger] b.statements@[i] as int)
                        < self.statements@.len() && self.stmt_children_below(
                        self.statements@[b.statements@[i] as int],
                        e,
                    )
                &&& match b.tail {
                    Some(t) => (t as int) < e,
                    None => true,
                }
            },
            Expr::FunctionCall(c) => forall|i: int|
                0 <= i < c.args@.len() ==> (#[trigger] c.args@[i] as int) < e,
            Expr::Match(m) => {
                &&& (m.matched_expr as int) < e
                &&& forall|i: int|
                    0 <= i < m.arms@.len() ==> (#[trigger] m.arms@[i].expression as int) < e
            },
            Expr::If(c) => (c.condition as int) < e && (c.if_expr as int) < e && (c.else_expr
                as int) < e,
            Expr::Var(_) => true,
            Expr::Literal(_) => true,
            Expr::MemberAccess(ma) => (ma.expr as int) < e,
            Expr::StructCtor(sc) => forall|i: int|
                0 <= i < sc.members@.len() ==> (#[trigger] sc.members@[i] as int) < e,
            Expr::EnumVariantCtor(ec) => (ec.value_expr as int) < e,
            Expr::PropagateError(p) => (p.inner as int) < e,
            Expr::Missing(_) => true,
        }
    }

    /// The body is a well-formed tree: every expression's children stand at
    /// strictly smaller arena indices, and the root is in range. This is how
    /// the semantic layer builds bodies (children are interned before their
    /// parents), and it is what makes lowering recursion terminate.
    pub open spec fn wf(self) -> bool {
        &&& (self.body as int) < self.exprs@.len()
        &&& forall|e: int| 0 <= e < self.exprs@.len() ==> self.expr_children_ok(e)
    }
}

/// Every expression of the sequence is in range below `e` and lowerable.
pub open spec fn exprs_lowerable(db: SemanticDb, def: FunctionDef, es: Seq<int>, e: int) -> bool
    decreases e, 0int, es.len(),
    when e >= 0
{
    if es.len() == 0 {
        true
    } else {
        &&& 0 <= es[0] < e && expr_lowerable(db, def, es[0])
        &&& exprs_lowerable(db, def, es.drop_first(), e)
    }
}

/// Every statement of the sequence is valid and its expression lowerable.
pub open spec fn block_stmts_lowerable(
    db: SemanticDb,
    def: FunctionDef,
    ss: Seq<StatementId>,
    e: int,
) -> bool
    decreases e, 0int, ss.len(),
    when e >= 0
{
    if ss.len() == 0 {
        true
    } else {
        &&& (ss[0] as int) < def.statements@.len()
        &&& match def.statements@[ss[0] as int] {
            Statement::Expr(se) => 0 <= (se.expr as int) < e && expr_lowerable(
                db,
                def,
                se.expr as int,
            ),
            Statement::Let(sl) => 0 <= (sl.expr as int) < e && expr_lowerable(
                db,
                def,
                sl.expr as int,
            ),
            Statement::Return(_) => true,
        }
        &&& block_stmts_lowerable(db, def, ss.drop_first(), e)
    }
}

/// Hard-failure-freedom of lowering one expression: lowering `e` produces a
/// value exactly when this predicate holds. It fails only where a semantic
/// query fails or an enum's shape disagrees with its match — soft
/// diagnostics do not make it false.
pub open spec fn expr_lowerable(db: SemanticDb, def: FunctionDef, e: int) -> bool
    decreases e, 1int, 0int,
    when e >= 0
{
    if 0 <= e < def.exprs@.len() {
        match def.exprs@[e] {
            Expr::Tuple(t) => exprs_lowerable(
                db,
                def,
                t.exprs@.map_values(|x: ExprId| x as int),
                e,
            ),
            Expr::Assignment(a) => 0 <= (a.rhs as int) < e && expr_lowerable(db, def, a.rhs as int),
            Expr::Block(b) => {
                &&& block_stmts_lowerable(db, def, b.statements@, e)
                &&& match b.tail {
                    Some(t) => 0 <= (t as int) < e && expr_lowerable(db, def, t as int),
                    None => true,
                }
            },
            Expr::FunctionCall(c) => exprs_lowerable(
                db,
                def,
                c.args@.map_values(|x: ExprId| x as int),
                e,
            ),
            Expr::Match(m) => {
                &&& (m.matched_expr as int) < def.exprs@.len()
                &&& match db.spec_enum_of(def.exprs@[m.matched_expr as int].ty()) {
                    Some(ed) => ed.variants@.len() == m.arms@.len(),
                    None => false,
                }
                &&& exprs_lowerable(
                    db,
                    def,
                    m.arms@.map_values(|a: MatchArmExpr| a.expression as int),
                    e,
                )
            },
            Expr::If(c) => {
                &&& c.variants@.len() == 2
                &&& 0 <= (c.condition as int) < e && expr_lowerable(db, def, c.condition as int)
                &&& 0 <= (c.if_expr as int) < e && expr_lowerable(db, def, c.if_expr as int)
                &&& 0 <= (c.else_expr as int) < e && expr_lowerable(db, def, c.else_expr as int)
            },
            Expr::Var(_) => true,
            Expr::Literal(_) => true,
            Expr::MemberAccess(ma) => {
                &&& 0 <= (ma.expr as int) < e && expr_lowerable(db, def, ma.expr as int)
                &&& (ma.member_idx as int) < ma.member_tys@.len()
            },
            Expr::StructCtor(sc) => exprs_lowerable(
                db,
                def,
                sc.members@.map_values(|x: ExprId| x as int),
                e,
            ),
            Expr::EnumVariantCtor(ec) => 0 <= (ec.value_expr as int) < e && expr_lowerable(
                db,
                def,
                ec.value_expr as int,
            ),
            Expr::PropagateError(p) => 0 <= (p.inner as int) < e && expr_lowerable(
                db,
                def,
                p.inner as int,
            ),
            Expr::Missing(_) => true,
        }
    } else {
        false
    }
}

/// First value associated with `k`, if any.
pub open spec fn assoc_find<T>(s: Seq<(u64, T)>, k: u64) -> Option<T>
    decreases s.len(),
{
    if s.len() == 0 {
        None
    } else if s[0].0 == k {
        Some(s[0].1)
    } else {
        assoc_find(s.drop_first(), k)
    }
}

/// Looks `k` up in an association list, returning a reference to the first
/// value stored under it.
pub fn assoc_get<T>(v: &Vec<(u64, T)>, k: u64) -> (res: Option<&T>)
    ensures
        match res {
            Some(t) => assoc_find(v@, k) == Some(*t),
            None => assoc_find(v@, k) is None,
        },
{
    let mut i: usize = 0;
    assert(v@.skip(0) =~= v@);
    while i < v.len()
        invariant
            i <= v@.len(),
            assoc_find(v@, k) == assoc_find(v@.skip(i as int), k),
            forall|j: int| 0 <= j < i ==> v@[j].0 != k,
        decreases v@.len() - i,
    {
        if v[i].0 == k {
            assert(v@.skip(i as int)[0] == v@[i as int]);
            return Some(&v[i].1);
        }
        assert(v@.skip(i as int).drop_first() =~= v@.skip(i + 1));
        i = i + 1;
    }
    assert(v@.skip(i as int).len() == 0);
    None
}

impl SemanticDb {
    /// Every function body the database holds is a well-formed tree.
    pub open spec fn wf(self) -> bool {
        forall|i: int|
            0 <= i < self.definitions@.len() ==> (#[trigger] self.definitions@[i]).1.wf()
    }

    /// The typed body of a free function, if the database knows it.
    pub open spec fn spec_definition(self, id: FreeFunctionId) -> Option<FunctionDef> {
        assoc_find(self.definitions@, id)
    }

    /// The declared signature of a free function.
    pub open spec fn spec_signature(self, id: FreeFunctionId) -> Option<Signature> {
        assoc_find(self.signatures@, id)
    }

    /// The generic parameters of a free function's declaration.
    pub open spec fn spec_generic_params(self, id: FreeFunctionId) -> Option<Vec<GenericParamId>> {
        assoc_find(self.generic_params@, id)
    }

    /// The implicit parameters threaded through a free function's calls.
    pub open spec fn spec_implicits(self, id: FreeFunctionId) -> Option<Vec<TypeId>> {
        assoc_find(self.implicits@, id)
    }

    /// Type properties of `ty`, defaulting to the conservative "neither
    /// droppable nor duplicatable" when the query has no answer.
    pub open spec fn spec_type_info(self, ty: TypeId) -> TypeInfo {
        match assoc_find(self.type_infos@, ty) {
            Some(info) => info,
            None => TypeInfo { droppable: false, duplicatable: false },
        }
    }

    /// The concrete enum a type resolves to, if it is a concrete enum type.
    pub open spec fn spec_enum_of(self, ty: TypeId) -> Option<EnumDef> {
        assoc_find(self.enums@, ty)
    }

    /// Queries the type properties of `ty`, with the conservative default.
    pub fn type_info(&self, ty: TypeId) -> (info: TypeInfo)
        ensures
            info == self.spec_type_info(ty),
    {
        match assoc_get(&self.type_infos, ty) {
            Some(info) => *info,
            None => TypeInfo { droppable: false, duplicatable: false },
        }
    }
}

} // verus!

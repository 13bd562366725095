//! The lowering engine: turns a type-checked function body into the
//! block-structured, variable-explicit representation of `objects`.
//!
//! The central algorithm is match lowering with arm unification: every arm
//! is lowered into a fresh scope, and each variable an arm required but did
//! not bind locally is resolved against the enclosing scope, producing one
//! statement whose input/output contract is uniform over all arms.

use vstd::prelude::*;
use crate::diagnostic::LoweringDiagnostic;
use crate::objects::{
    arms_keys, arms_vals, lemma_arms_keys_contains, lemma_arms_keys_push, lemma_arms_vals_contains,
    lemma_arms_vals_push, lemma_outputs_of_prefix, lemma_outputs_of_push, lemma_seq_dedup_push,
    lemma_stmts_sound_push, lemma_stmts_sound_widen, outputs_of, seq_dedup,
    stmt_block_refs, stmt_blocks_below, stmt_inputs, stmt_outputs, stmt_vars_below, stmts_sound,
    Block, LoweredStatement, MatchArm, StatementCall, StatementEnumConstruct, StatementLiteral,
    StatementMatchEnum, StatementStructConstruct, StatementStructDestructure, Variable,
};
use crate::semantic::{
    assoc_get, block_stmts_lowerable, expr_lowerable, exprs_lowerable, ConcreteEnumId,
    ConcreteVariant, Expr, ExprAssignment, ExprBlock, ExprEnumVariantCtor, ExprFunctionCall,
    ExprId, ExprIf, ExprLiteral, ExprMatch, ExprMemberAccess, ExprPropagateError, ExprStructCtor,
    ExprTuple, ExprVar, FreeFunctionId, FunctionDef, SemanticDb, Statement, TypeId,
};
use crate::varmap::{lemma_semvarmap_prefix_vals, SemVarMap, VarMapping};
use crate::{BlockId, VariableId};

verus! {

/// The early, function-level abort signal of lowering: distinct from soft
/// diagnostics, it means no usable lowered form exists for the function.
#[derive(Clone, Copy, Debug, PartialEq, Eq, Structural)]
pub enum LoweringFlowError {
    Failed,
}

/// Per-function state of one lowering pass: the two append-only arenas and
/// the diagnostics sink. Exclusively owned by the pass; never shared.
pub struct LoweringContext {
    /// Arena of allocated lowered variables.
    pub variables: Vec<Variable>,
    /// Arena of allocated lowered blocks.
    pub blocks: Vec<Block>,
    /// Diagnostics produced so far.
    pub diagnostics: Vec<LoweringDiagnostic>,
}

impl LoweringContext {
    /// No diagnostics recorded yet.
    pub open spec fn clean(self) -> bool {
        self.diagnostics@.len() == 0
    }

    /// Number of variables allocated.
    pub open spec fn nv(self) -> nat {
        self.variables@.len()
    }

    /// Number of blocks allocated.
    pub open spec fn nb(self) -> nat {
        self.blocks@.len()
    }
}

/// The arenas and the diagnostics only ever grow.
pub open spec fn ctx_extends(post: LoweringContext, pre: LoweringContext) -> bool {
    &&& pre.variables@.is_prefix_of(post.variables@)
    &&& pre.blocks@.is_prefix_of(post.blocks@)
    &&& pre.diagnostics@.is_prefix_of(post.diagnostics@)
}

/// One lowered arm is consistent with the block arena: its block exists,
/// its mapping's keys are unique, and — while no diagnostic was recorded —
/// its block is scope-sound relative to exactly the variables the mapping
/// supplies.
pub open spec fn arm_ok(a: MatchArm, blocks: Seq<Block>, clean: bool) -> bool {
    &&& (a.block_id as int) < blocks.len()
    &&& a.var_mapping.wf()
    &&& clean ==> stmts_sound(
        blocks[a.block_id as int].statements@,
        a.var_mapping.vals().to_set(),
    )
}

/// The unified shape of an enum-match statement: its inputs and outputs
/// are exactly the arms' mapping keys and values, first-resolution order,
/// deduplicated; distinct arms never share supplied variables, and no
/// arm's requirement is satisfied by another arm's local variable. The
/// match's own value stands apart in the statement's `output` field.
pub open spec fn match_shape_ok(m: StatementMatchEnum) -> bool {
    &&& m.inputs@ == seq_dedup(arms_keys(m.arms@))
    &&& m.outputs@ == seq_dedup(arms_vals(m.arms@))
    &&& forall|i: int| 0 <= i < m.arms@.len() ==> (#[trigger] m.arms@[i]).var_mapping.wf()
    &&& forall|i: int, j: int|
        0 <= i < j < m.arms@.len() ==> m.arms@[i].var_mapping.vals().to_set().disjoint(
            m.arms@[j].var_mapping.vals().to_set(),
        )
    &&& forall|i: int, j: int|
        0 <= i < m.arms@.len() && 0 <= j < m.arms@.len()
            ==> m.arms@[i].var_mapping.keys().to_set().disjoint(
            m.arms@[j].var_mapping.vals().to_set(),
        )
}

/// Statement-level consistency with the block arena.
pub open spec fn match_ok(s: LoweredStatement, blocks: Seq<Block>, clean: bool) -> bool {
    match s {
        LoweredStatement::MatchEnum(m) => {
            &&& match_shape_ok(m)
            &&& forall|i: int| 0 <= i < m.arms@.len() ==> arm_ok(#[trigger] m.arms@[i], blocks, clean)
        },
        _ => true,
    }
}

/// The block stored at index `j` is closed under the arenas, refers only to
/// earlier blocks, and its match statements are consistent.
pub open spec fn block_ok(blocks: Seq<Block>, j: int, nv: nat, clean: bool) -> bool {
    forall|k: int|
        0 <= k < blocks[j].statements@.len() ==> {
            let s = #[trigger] blocks[j].statements@[k];
            stmt_vars_below(s, nv) && stmt_blocks_below(s, j as nat) && match_ok(s, blocks, clean)
        }
}

/// Every allocated block is consistent.
pub open spec fn blocks_ok(blocks: Seq<Block>, nv: nat, clean: bool) -> bool {
    forall|j: int| 0 <= j < blocks.len() ==> block_ok(blocks, j, nv, clean)
}

/// The lowering context's standing invariant.
pub open spec fn ctx_inv(ctx: LoweringContext) -> bool {
    blocks_ok(ctx.blocks@, ctx.nv(), ctx.clean())
}

/// The scope of one lowered block while it is being lowered.
pub struct LoweringBlockScope {
    /// Mapping from semantic variables to their lowered variable id.
    pub vars: SemVarMap,
    /// Variables referenced but not locally bound at first use, mapped to
    /// the placeholder id allocated to stand for them.
    pub required_vars: SemVarMap,
    /// The growing statement list that becomes the finished block.
    pub statements: Vec<LoweredStatement>,
    /// The lowered ids already bound when the scope was created (the
    /// function's parameters for the root scope, nothing for an arm).
    pub initial_vars: Ghost<Set<VariableId>>,
}

impl LoweringBlockScope {
    /// The variables this scope receives from outside: what was bound at
    /// its creation plus every placeholder it requires from an enclosing
    /// scope.
    pub open spec fn entry(self) -> Set<VariableId> {
        self.initial_vars@.union(self.required_vars.vals().to_set())
    }

    /// The variables available after the statements so far.
    pub open spec fn avail(self) -> Set<VariableId> {
        self.entry().union(outputs_of(self.statements@))
    }

    /// A fresh, empty scope.
    pub fn new() -> (s: LoweringBlockScope)
        ensures
            s.vars@ =~= Seq::<(crate::semantic::SemVarId, VariableId)>::empty(),
            s.required_vars@ =~= Seq::<(crate::semantic::SemVarId, VariableId)>::empty(),
            s.statements@ =~= Seq::<LoweredStatement>::empty(),
            s.initial_vars@ =~= Set::<VariableId>::empty(),
    {
        LoweringBlockScope {
            vars: SemVarMap::new(),
            required_vars: SemVarMap::new(),
            statements: Vec::new(),
            initial_vars: Ghost(Set::empty()),
        }
    }
}

/// The scope's standing invariant relative to the context: maps are well
/// formed, every id is allocated, required placeholders are distinct and
/// stay bound, statements are consistent, and — while no diagnostic was
/// recorded — the statement list is scope-sound and every visible binding
/// is available.
pub open spec fn scope_inv(scope: LoweringBlockScope, ctx: LoweringContext) -> bool {
    &&& scope.vars.wf()
    &&& scope.required_vars.wf()
    &&& forall|k: crate::semantic::SemVarId| #[trigger]
        scope.required_vars.spec_contains(k) ==> scope.vars.spec_contains(k)
    &&& forall|i: int, j: int|
        0 <= i < j < scope.required_vars@.len() ==> scope.required_vars@[i].1
            != scope.required_vars@[j].1
    &&& forall|i: int| 0 <= i < scope.vars@.len() ==> ((#[trigger] scope.vars@[i]).1 as nat)
        < ctx.nv()
    &&& forall|i: int|
        0 <= i < scope.required_vars@.len() ==> ((#[trigger] scope.required_vars@[i]).1 as nat)
            < ctx.nv()
    &&& forall|v: VariableId| scope.initial_vars@.contains(v) ==> (v as nat) < ctx.nv()
    &&& forall|k: int|
        0 <= k < scope.statements@.len() ==> {
            let s = #[trigger] scope.statements@[k];
            stmt_vars_below(s, ctx.nv()) && stmt_blocks_below(s, ctx.nb()) && match_ok(
                s,
                ctx.blocks@,
                ctx.clean(),
            )
        }
    &&& ctx.clean() ==> stmts_sound(scope.statements@, scope.entry())
    &&& ctx.clean() ==> scope.vars.vals().to_set() <= scope.avail()
}

/// A lowered function: the diagnostics batch, the root block and the two
/// arenas, forming a closed graph.
#[derive(Debug, PartialEq, Eq)]
pub struct LoweredFreeFunction {
    /// Diagnostics produced while lowering.
    pub diagnostics: Vec<LoweringDiagnostic>,
    /// Block id for the start of the lowered function.
    pub root: BlockId,
    /// Arena of allocated lowered variables.
    pub variables: Vec<Variable>,
    /// Arena of allocated lowered blocks.
    pub blocks: Vec<Block>,
}

/// The guarantee a lowered function carries: the root block exists, every
/// block is closed under the arenas with block references pointing strictly
/// backwards, match statements have the unified shape, and — when the
/// diagnostics batch is empty — every block is scope-sound: an arm block
/// relative to what its mapping supplies, the root relative to the
/// function's parameters (the first `nparams` variable ids).
pub open spec fn lowered_ok(f: LoweredFreeFunction, nparams: nat) -> bool {
    &&& (f.root as int) < f.blocks@.len()
    &&& nparams <= f.variables@.len()
    &&& blocks_ok(f.blocks@, f.variables@.len(), f.diagnostics@.len() == 0)
    &&& f.diagnostics@.len() == 0 ==> stmts_sound(
        f.blocks@[f.root as int].statements@,
        Set::new(|v: VariableId| (v as nat) < nparams),
    )
}

/// Lowering a free function succeeds exactly when the semantic queries all
/// answer, the body is a block, and no expression of the body hard-fails.
pub open spec fn free_function_lowerable(db: SemanticDb, id: FreeFunctionId) -> bool {
    &&& db.spec_definition(id) is Some
    &&& db.spec_generic_params(id) is Some
    &&& db.spec_signature(id) is Some
    &&& db.spec_implicits(id) is Some
    &&& match db.spec_definition(id) {
        Some(def) => def.exprs@[def.body as int] is Block && expr_lowerable(
            db,
            def,
            def.body as int,
        ),
        None => false,
    }
}

/// An arm's consistency carries over to a longer block arena and a weaker
/// cleanliness.
pub proof fn lemma_arm_ok_extend(a: MatchArm, b1: Seq<Block>, b2: Seq<Block>, c1: bool, c2: bool)
    requires
        arm_ok(a, b1, c1),
        b1.is_prefix_of(b2),
        c2 ==> c1,
    ensures
        arm_ok(a, b2, c2),
{
    assert(b2[a.block_id as int] == b1[a.block_id as int]);
}

/// A statement's consistency carries over likewise.
pub proof fn lemma_match_ok_extend(
    s: LoweredStatement,
    b1: Seq<Block>,
    b2: Seq<Block>,
    c1: bool,
    c2: bool,
)
    requires
        match_ok(s, b1, c1),
        b1.is_prefix_of(b2),
        c2 ==> c1,
    ensures
        match_ok(s, b2, c2),
{
    match s {
        LoweredStatement::MatchEnum(m) => {
            assert forall|i: int| 0 <= i < m.arms@.len() implies arm_ok(
                #[trigger] m.arms@[i],
                b2,
                c2,
            ) by {
                lemma_arm_ok_extend(m.arms@[i], b1, b2, c1, c2);
            }
        },
        _ => {},
    }
}

/// Block consistency is monotone in the variable bound and antitone in
/// cleanliness.
pub proof fn lemma_blocks_ok_mono(blocks: Seq<Block>, nv1: nat, nv2: nat, c1: bool, c2: bool)
    requires
        blocks_ok(blocks, nv1, c1),
        nv1 <= nv2,
        c2 ==> c1,
    ensures
        blocks_ok(blocks, nv2, c2),
{
    assert forall|j: int| 0 <= j < blocks.len() implies block_ok(blocks, j, nv2, c2) by {
        assert(block_ok(blocks, j, nv1, c1));
        assert forall|k: int| 0 <= k < blocks[j].statements@.len() implies {
            let s = #[trigger] blocks[j].statements@[k];
            stmt_vars_below(s, nv2) && stmt_blocks_below(s, j as nat) && match_ok(s, blocks, c2)
        } by {
            let s = blocks[j].statements@[k];
            assert(stmt_vars_below(s, nv1) && stmt_blocks_below(s, j as nat) && match_ok(
                s,
                blocks,
                c1,
            ));
            assert(blocks.is_prefix_of(blocks)) by {
                assert(blocks =~= blocks.subrange(0, blocks.len() as int));
            }
            lemma_match_ok_extend(s, blocks, blocks, c1, c2);
        }
    }
}

/// Appending a consistent block keeps the arena consistent.
pub proof fn lemma_blocks_ok_push(blocks: Seq<Block>, b: Block, nv: nat, c: bool)
    requires
        blocks_ok(blocks, nv, c),
        forall|k: int|
            0 <= k < b.statements@.len() ==> {
                let s = #[trigger] b.statements@[k];
                stmt_vars_below(s, nv) && stmt_blocks_below(s, blocks.len()) && match_ok(
                    s,
                    blocks,
                    c,
                )
            },
    ensures
        blocks_ok(blocks.push(b), nv, c),
{
    let post = blocks.push(b);
    assert(blocks.is_prefix_of(post)) by {
        assert(blocks =~= post.subrange(0, blocks.len() as int));
    }
    assert forall|j: int| 0 <= j < post.len() implies block_ok(post, j, nv, c) by {
        if j < blocks.len() {
            assert(post[j] == blocks[j]);
            assert(block_ok(blocks, j, nv, c));
            assert forall|k: int| 0 <= k < post[j].statements@.len() implies {
                let s = #[trigger] post[j].statements@[k];
                stmt_vars_below(s, nv) && stmt_blocks_below(s, j as nat) && match_ok(s, post, c)
            } by {
                let s = post[j].statements@[k];
                assert(stmt_vars_below(s, nv) && stmt_blocks_below(s, j as nat) && match_ok(
                    s,
                    blocks,
                    c,
                ));
                lemma_match_ok_extend(s, blocks, post, c, c);
            }
        } else {
            assert(post[j] == b);
            assert forall|k: int| 0 <= k < post[j].statements@.len() implies {
                let s = #[trigger] post[j].statements@[k];
                stmt_vars_below(s, nv) && stmt_blocks_below(s, j as nat) && match_ok(s, post, c)
            } by {
                let s = b.statements@[k];
                assert(stmt_vars_below(s, nv) && stmt_blocks_below(s, blocks.len()) && match_ok(
                    s,
                    blocks,
                    c,
                ));
                lemma_match_ok_extend(s, blocks, post, c, c);
            }
        }
    }
}

/// A scope's invariant survives any extension of the context it does not
/// take part in.
pub proof fn lemma_scope_inv_extend(
    scope: LoweringBlockScope,
    c1: LoweringContext,
    c2: LoweringContext,
)
    requires
        scope_inv(scope, c1),
        ctx_extends(c2, c1),
    ensures
        scope_inv(scope, c2),
{
    assert(c2.clean() ==> c1.clean());
    assert forall|k: int| 0 <= k < scope.statements@.len() implies {
        let s = #[trigger] scope.statements@[k];
        stmt_vars_below(s, c2.nv()) && stmt_blocks_below(s, c2.nb()) && match_ok(
            s,
            c2.blocks@,
            c2.clean(),
        )
    } by {
        let s = scope.statements@[k];
        assert(stmt_vars_below(s, c1.nv()) && stmt_blocks_below(s, c1.nb()) && match_ok(
            s,
            c1.blocks@,
            c1.clean(),
        ));
        lemma_match_ok_extend(s, c1.blocks@, c2.blocks@, c1.clean(), c2.clean());
    }
}

/// Availability grows with the scope.
pub proof fn lemma_avail_mono(s1: LoweringBlockScope, s2: LoweringBlockScope)
    requires
        s1.required_vars@.is_prefix_of(s2.required_vars@),
        s1.statements@.is_prefix_of(s2.statements@),
        s1.initial_vars@ == s2.initial_vars@,
    ensures
        s1.avail() <= s2.avail(),
        s1.entry() <= s2.entry(),
{
    lemma_semvarmap_prefix_vals(s1.required_vars, s2.required_vars);
    lemma_outputs_of_prefix(s1.statements@, s2.statements@);
}

/// Sequence-prefix chaining.
pub proof fn lemma_prefix_trans<T>(s1: Seq<T>, s2: Seq<T>, s3: Seq<T>)
    requires
        s1.is_prefix_of(s2),
        s2.is_prefix_of(s3),
    ensures
        s1.is_prefix_of(s3),
{
    assert(s1 =~= s3.subrange(0, s1.len() as int));
}

/// Context-extension chaining.
pub proof fn lemma_ctx_extends_trans(c3: LoweringContext, c2: LoweringContext, c1: LoweringContext)
    requires
        ctx_extends(c2, c1),
        ctx_extends(c3, c2),
    ensures
        ctx_extends(c3, c1),
{
    lemma_prefix_trans(c1.variables@, c2.variables@, c3.variables@);
    lemma_prefix_trans(c1.blocks@, c2.blocks@, c3.blocks@);
    lemma_prefix_trans(c1.diagnostics@, c2.diagnostics@, c3.diagnostics@);
}

/// Introduces a new variable of type `ty` into the arena: the only way a
/// variable is ever created. Its metadata is the database's answer for the
/// type, or the conservative default when the query has no answer.
pub fn introduce_new_var(ctx: &mut LoweringContext, db: &SemanticDb, ty: TypeId) -> (id:
    VariableId)
    requires
        ctx_inv(*old(ctx)),
    ensures
        ctx_inv(*final(ctx)),
        ctx_extends(*final(ctx), *old(ctx)),
        id == old(ctx).variables@.len(),
        final(ctx).variables@ == old(ctx).variables@.push(
            Variable {
                droppable: db.spec_type_info(ty).droppable,
                duplicatable: db.spec_type_info(ty).duplicatable,
                ty,
            },
        ),
        final(ctx).blocks == old(ctx).blocks,
        final(ctx).diagnostics == old(ctx).diagnostics,
{
    let info = db.type_info(ty);
    let id = ctx.variables.len();
    ctx.variables.push(
        Variable { droppable: info.droppable, duplicatable: info.duplicatable, ty },
    );
    proof {
        assert(old(ctx).variables@.is_prefix_of(ctx.variables@)) by {
            assert(old(ctx).variables@ =~= ctx.variables@.subrange(
                0,
                old(ctx).variables@.len() as int,
            ));
        }
        assert(ctx.blocks@.is_prefix_of(ctx.blocks@)) by {
            assert(ctx.blocks@ =~= ctx.blocks@.subrange(0, ctx.blocks@.len() as int));
        }
        assert(ctx.diagnostics@.is_prefix_of(ctx.diagnostics@)) by {
            assert(ctx.diagnostics@ =~= ctx.diagnostics@.subrange(
                0,
                ctx.diagnostics@.len() as int,
            ));
        }
        lemma_blocks_ok_mono(ctx.blocks@, old(ctx).nv(), ctx.nv(), ctx.clean(), ctx.clean());
    }
    id
}

/// Records a soft diagnostic; lowering continues.
fn record_diagnostic(ctx: &mut LoweringContext, d: LoweringDiagnostic)
    requires
        ctx_inv(*old(ctx)),
    ensures
        ctx_inv(*final(ctx)),
        ctx_extends(*final(ctx), *old(ctx)),
        final(ctx).variables == old(ctx).variables,
        final(ctx).blocks == old(ctx).blocks,
        final(ctx).diagnostics@ == old(ctx).diagnostics@.push(d),
{
    ctx.diagnostics.push(d);
    proof {
        assert(old(ctx).diagnostics@.is_prefix_of(ctx.diagnostics@)) by {
            assert(old(ctx).diagnostics@ =~= ctx.diagnostics@.subrange(
                0,
                old(ctx).diagnostics@.len() as int,
            ));
        }
        assert(ctx.variables@.is_prefix_of(ctx.variables@) && ctx.blocks@.is_prefix_of(
            ctx.blocks@,
        )) by {
            assert(ctx.variables@ =~= ctx.variables@.subrange(0, ctx.variables@.len() as int));
            assert(ctx.blocks@ =~= ctx.blocks@.subrange(0, ctx.blocks@.len() as int));
        }
        lemma_blocks_ok_mono(ctx.blocks@, ctx.nv(), ctx.nv(), old(ctx).clean(), ctx.clean());
    }
}

/// Appends a statement to the scope, maintaining the scope invariant. The
/// statement must be closed under the arenas, consistent, and — while no
/// diagnostic was recorded — consume only available variables.
fn emit_statement(ctx: &LoweringContext, scope: &mut LoweringBlockScope, s: LoweredStatement)
    requires
        scope_inv(*old(scope), *ctx),
        stmt_vars_below(s, ctx.nv()),
        stmt_blocks_below(s, ctx.nb()),
        match_ok(s, ctx.blocks@, ctx.clean()),
        ctx.clean() ==> stmt_inputs(s).to_set() <= old(scope).avail(),
    ensures
        scope_inv(*final(scope), *ctx),
        final(scope).statements@ == old(scope).statements@.push(s),
        final(scope).vars == old(scope).vars,
        final(scope).required_vars == old(scope).required_vars,
        final(scope).initial_vars == old(scope).initial_vars,
{
    let ghost pre = scope.statements@;
    scope.statements.push(s);
    proof {
        assert(scope.statements@ =~= pre.push(s));
        lemma_outputs_of_push(pre, s);
        if ctx.clean() {
            lemma_stmts_sound_push(pre, s, scope.entry());
        }
    }
}

/// Whether an id occurs in a vector.
fn vec_contains(v: &Vec<VariableId>, x: VariableId) -> (res: bool)
    ensures
        res == v@.contains(x),
{
    let mut i: usize = 0;
    while i < v.len()
        invariant
            i <= v@.len(),
            forall|j: int| 0 <= j < i ==> v@[j] != x,
        decreases v@.len() - i,
    {
        if v[i] == x {
            return true;
        }
        i = i + 1;
    }
    false
}

/// `exprs_lowerable` is the pointwise lowerability of the sequence.
pub proof fn lemma_exprs_lowerable_index(db: SemanticDb, def: FunctionDef, es: Seq<int>, e: int)
    requires
        e >= 0,
    ensures
        exprs_lowerable(db, def, es, e) <==> (forall|i: int|
            0 <= i < es.len() ==> 0 <= #[trigger] es[i] < e && expr_lowerable(db, def, es[i])),
    decreases es.len(),
{
    if es.len() > 0 {
        lemma_exprs_lowerable_index(db, def, es.drop_first(), e);
        assert forall|i: int| 0 <= i < es.drop_first().len() implies es.drop_first()[i] == es[
            i + 1
        ] by {}
        if exprs_lowerable(db, def, es, e) {
            assert forall|i: int|
                0 <= i < es.len() implies 0 <= #[trigger] es[i] < e && expr_lowerable(
                db,
                def,
                es[i],
            ) by {
                if i > 0 {
                    assert(es.drop_first()[i - 1] == es[i]);
                }
            }
        }
        if forall|i: int|
            0 <= i < es.len() ==> 0 <= #[trigger] es[i] < e && expr_lowerable(db, def, es[i]) {
            assert(es[0] == es[0]);
            assert forall|i: int|
                0 <= i < es.drop_first().len() implies 0 <= #[trigger] es.drop_first()[i] < e
                && expr_lowerable(db, def, es.drop_first()[i]) by {
                assert(es.drop_first()[i] == es[i + 1]);
            }
        }
    }
}

/// `block_stmts_lowerable` is the pointwise condition on the statement ids.
pub proof fn lemma_block_stmts_lowerable_index(
    db: SemanticDb,
    def: FunctionDef,
    ss: Seq<crate::semantic::StatementId>,
    e: int,
)
    requires
        e >= 0,
    ensures
        block_stmts_lowerable(db, def, ss, e) <==> (forall|i: int|
            0 <= i < ss.len() ==> (#[trigger] ss[i] as int) < def.statements@.len() && match def
                .statements@[ss[i] as int] {
                Statement::Expr(se) => 0 <= (se.expr as int) < e && expr_lowerable(
                    db,
                    def,
                    se.expr as int,
                ),
                Statement::Let(sl) => 0 <= (sl.expr as int) < e && expr_lowerable(
                    db,
                    def,
                    sl.expr as int,
                ),
                Statement::Return(_) => true,
            }),
    decreases ss.len(),
{
    if ss.len() > 0 {
        lemma_block_stmts_lowerable_index(db, def, ss.drop_first(), e);
        if block_stmts_lowerable(db, def, ss, e) {
            assert forall|i: int|
                0 <= i < ss.len() implies (#[trigger] ss[i] as int) < def.statements@.len()
                && match def.statements@[ss[i] as int] {
                Statement::Expr(se) => 0 <= (se.expr as int) < e && expr_lowerable(
                    db,
                    def,
                    se.expr as int,
                ),
                Statement::Let(sl) => 0 <= (sl.expr as int) < e && expr_lowerable(
                    db,
                    def,
                    sl.expr as int,
                ),
                Statement::Return(_) => true,
            } by {
                if i > 0 {
                    assert(ss.drop_first()[i - 1] == ss[i]);
                }
            }
        }
        if forall|i: int|
            0 <= i < ss.len() ==> (#[trigger] ss[i] as int) < def.statements@.len() && match def
                .statements@[ss[i] as int] {
                Statement::Expr(se) => 0 <= (se.expr as int) < e && expr_lowerable(
                    db,
                    def,
                    se.expr as int,
                ),
                Statement::Let(sl) => 0 <= (sl.expr as int) < e && expr_lowerable(
                    db,
                    def,
                    sl.expr as int,
                ),
                Statement::Return(_) => true,
            } {
            assert(ss[0] == ss[0]);
            assert forall|i: int| 0 <= i < ss.drop_first().len() implies (#[trigger] ss.drop_first()[i]
                as int) < def.statements@.len() && match def.statements@[ss.drop_first()[i] as int] {
                Statement::Expr(se) => 0 <= (se.expr as int) < e && expr_lowerable(
                    db,
                    def,
                    se.expr as int,
                ),
                Statement::Let(sl) => 0 <= (sl.expr as int) < e && expr_lowerable(
                    db,
                    def,
                    sl.expr as int,
                ),
                Statement::Return(_) => true,
            } by {
                assert(ss.drop_first()[i] == ss[i + 1]);
            }
        }
    }
}

/// A sequence is a prefix of itself.
pub proof fn lemma_prefix_refl<T>(s: Seq<T>)
    ensures
        s.is_prefix_of(s),
{
    assert(s =~= s.subrange(0, s.len() as int));
}

/// The resolved type of an expression.
fn expr_ty(e: &Expr) -> (t: TypeId)
    ensures
        t == e.ty(),
{
    match e {
        Expr::Tuple(x) => x.ty,
        Expr::Assignment(x) => x.ty,
        Expr::Block(x) => x.ty,
        Expr::FunctionCall(x) => x.ty,
        Expr::Match(x) => x.ty,
        Expr::If(x) => x.ty,
        Expr::Var(x) => x.ty,
        Expr::Literal(x) => x.ty,
        Expr::MemberAccess(x) => x.ty,
        Expr::StructCtor(x) => x.ty,
        Expr::EnumVariantCtor(x) => x.ty,
        Expr::PropagateError(x) => x.ty,
        Expr::Missing(x) => x.ty,
    }
}

/// Lowers a literal: allocates a fresh output variable of the literal's
/// type and emits one literal-binding statement carrying the exact value.
fn lower_expr_literal(
    ctx: &mut LoweringContext,
    db: &SemanticDb,
    scope: &mut LoweringBlockScope,
    expr: &ExprLiteral,
) -> (id: VariableId)
    requires
        ctx_inv(*old(ctx)),
        scope_inv(*old(scope), *old(ctx)),
    ensures
        ctx_inv(*final(ctx)),
        ctx_extends(*final(ctx), *old(ctx)),
        scope_inv(*final(scope), *final(ctx)),
        final(ctx).variables@ == old(ctx).variables@.push(
            Variable {
                droppable: db.spec_type_info(expr.ty).droppable,
                duplicatable: db.spec_type_info(expr.ty).duplicatable,
                ty: expr.ty,
            },
        ),
        final(ctx).blocks == old(ctx).blocks,
        final(ctx).diagnostics == old(ctx).diagnostics,
        final(scope).statements@ == old(scope).statements@.push(
            LoweredStatement::Literal(
                StatementLiteral { value: expr.value, output: old(ctx).variables@.len() as usize },
            ),
        ),
        final(scope).vars == old(scope).vars,
        final(scope).required_vars == old(scope).required_vars,
        final(scope).initial_vars == old(scope).initial_vars,
        id == old(ctx).variables@.len(),
        final(ctx).clean() ==> final(scope).avail().contains(id),
{
    let id = introduce_new_var(ctx, db, expr.ty);
    proof {
        lemma_scope_inv_extend(*scope, *old(ctx), *ctx);
    }
    let s = LoweredStatement::Literal(StatementLiteral { value: expr.value, output: id });
    proof {
        assert(stmt_inputs(s).to_set() =~= Set::<VariableId>::empty());
        assert(stmt_vars_below(s, ctx.nv()));
        assert(stmt_blocks_below(s, ctx.nb()));
        assert(match_ok(s, ctx.blocks@, ctx.clean()));
    }
    emit_statement(ctx, scope, s);
    proof {
        lemma_outputs_of_push(old(scope).statements@, s);
        assert(stmt_outputs(s)[0] == id);
        assert(stmt_outputs(s).to_set().contains(id));
    }
    id
}

/// Lowers a list of subexpressions in order, collecting the variable each
/// yields. Fails exactly when some element hard-fails.
fn lower_expr_list(
    ctx: &mut LoweringContext,
    db: &SemanticDb,
    def: &FunctionDef,
    scope: &mut LoweringBlockScope,
    exprs: &Vec<ExprId>,
    parent: ExprId,
) -> (res: Option<Vec<VariableId>>)
    requires
        def.wf(),
        (parent as int) < def.exprs@.len(),
        forall|i: int| 0 <= i < exprs@.len() ==> (#[trigger] exprs@[i] as int) < parent as int,
        ctx_inv(*old(ctx)),
        scope_inv(*old(scope), *old(ctx)),
    ensures
        ctx_inv(*final(ctx)),
        ctx_extends(*final(ctx), *old(ctx)),
        scope_inv(*final(scope), *final(ctx)),
        old(scope).statements@.is_prefix_of(final(scope).statements@),
        old(scope).required_vars@.is_prefix_of(final(scope).required_vars@),
        final(scope).initial_vars == old(scope).initial_vars,
        forall|j: int|
            old(scope).required_vars@.len() <= j < final(scope).required_vars@.len() ==> (
            final(scope).required_vars@[j].1 as int) >= old(ctx).variables@.len(),
        (res is Some) == exprs_lowerable(
            *db,
            *def,
            exprs@.map_values(|x: ExprId| x as int),
            parent as int,
        ),
        res matches Some(ids) ==> {
            &&& ids@.len() == exprs@.len()
            &&& forall|i: int|
                0 <= i < ids@.len() ==> (#[trigger] ids@[i] as int) < final(ctx).variables@.len()
            &&& final(ctx).clean() ==> forall|i: int|
                0 <= i < ids@.len() ==> final(scope).avail().contains(#[trigger] ids@[i])
        },
    decreases parent, 1int,
{
    let ghost es = exprs@.map_values(|x: ExprId| x as int);
    let mut ids: Vec<VariableId> = Vec::new();
    let mut i: usize = 0;
    proof {
        lemma_prefix_refl(scope.statements@);
        lemma_prefix_refl(scope.required_vars@);
    }
    while i < exprs.len()
        invariant
            def.wf(),
            (parent as int) < def.exprs@.len(),
            forall|k: int| 0 <= k < exprs@.len() ==> (#[trigger] exprs@[k] as int) < parent as int,
            i <= exprs@.len(),
            ctx_inv(*ctx),
            ctx_extends(*ctx, *old(ctx)),
            scope_inv(*scope, *ctx),
            old(scope).statements@.is_prefix_of(scope.statements@),
            old(scope).required_vars@.is_prefix_of(scope.required_vars@),
            scope.initial_vars == old(scope).initial_vars,
            forall|j: int|
                old(scope).required_vars@.len() <= j < scope.required_vars@.len() ==> (
                scope.required_vars@[j].1 as int) >= old(ctx).variables@.len(),
            es == exprs@.map_values(|x: ExprId| x as int),
            ids@.len() == i,
            forall|k: int|
                0 <= k < ids@.len() ==> (#[trigger] ids@[k] as int) < ctx.variables@.len(),
            ctx.clean() ==> forall|k: int|
                0 <= k < ids@.len() ==> scope.avail().contains(#[trigger] ids@[k]),
            forall|k: int| 0 <= k < i ==> expr_lowerable(*db, *def, #[trigger] exprs@[k] as int),
        decreases exprs@.len() - i,
    {
        let ghost ctx_pre = *ctx;
        let ghost scope_pre = *scope;
        let r = lower_expr(ctx, db, def, scope, exprs[i]);
        proof {
            lemma_ctx_extends_trans(*ctx, ctx_pre, *old(ctx));
            lemma_prefix_trans(
                old(scope).statements@,
                scope_pre.statements@,
                scope.statements@,
            );
            lemma_prefix_trans(
                old(scope).required_vars@,
                scope_pre.required_vars@,
                scope.required_vars@,
            );
            lemma_avail_mono(scope_pre, *scope);
            assert forall|q: int|
                old(scope).required_vars@.len() <= q < scope.required_vars@.len() implies (
                scope.required_vars@[q].1 as int) >= old(ctx).variables@.len() by {
                if q < scope_pre.required_vars@.len() {
                    assert(scope.required_vars@[q] == scope_pre.required_vars@[q]);
                }
            }
        }
        match r {
            Some(v) => {
                ids.push(v);
            },
            None => {
                proof {
                    lemma_exprs_lowerable_index(*db, *def, es, parent as int);
                    assert(es[i as int] == exprs@[i as int] as int);
                    assert(!exprs_lowerable(*db, *def, es, parent as int)) by {
                        if exprs_lowerable(*db, *def, es, parent as int) {
                            assert(expr_lowerable(*db, *def, es[i as int]));
                        }
                    }
                }
                return None;
            },
        }
        i = i + 1;
    }
    proof {
        lemma_exprs_lowerable_index(*db, *def, es, parent as int);
        assert forall|k: int| 0 <= k < es.len() implies 0 <= #[trigger] es[k] < parent as int
            && expr_lowerable(*db, *def, es[k]) by {
            assert(es[k] == exprs@[k] as int);
            assert(expr_lowerable(*db, *def, exprs@[k] as int));
        }
    }
    Some(ids)
}

/// Lowers a tuple: lowers each element, then emits one struct-construct
/// statement consuming the element values and producing a fresh output.
fn lower_expr_tuple(
    ctx: &mut LoweringContext,
    db: &SemanticDb,
    def: &FunctionDef,
    scope: &mut LoweringBlockScope,
    expr: &ExprTuple,
    expr_id: ExprId,
) -> (res: Option<VariableId>)
    requires
        def.wf(),
        (expr_id as int) < def.exprs@.len(),
        def.exprs@[expr_id as int] == Expr::Tuple(*expr),
        ctx_inv(*old(ctx)),
        scope_inv(*old(scope), *old(ctx)),
    ensures
        ctx_inv(*final(ctx)),
        ctx_extends(*final(ctx), *old(ctx)),
        scope_inv(*final(scope), *final(ctx)),
        old(scope).statements@.is_prefix_of(final(scope).statements@),
        old(scope).required_vars@.is_prefix_of(final(scope).required_vars@),
        final(scope).initial_vars == old(scope).initial_vars,
        forall|j: int|
            old(scope).required_vars@.len() <= j < final(scope).required_vars@.len() ==> (
            final(scope).required_vars@[j].1 as int) >= old(ctx).variables@.len(),
        (res is Some) == expr_lowerable(*db, *def, expr_id as int),
        res matches Some(v) ==> (v as int) < final(ctx).variables@.len() && (final(ctx).clean()
            ==> final(scope).avail().contains(v)),
    decreases expr_id, 2int,
{
    proof {
        assert(def.expr_children_ok(expr_id as int));
        assert forall|i: int| 0 <= i < expr.exprs@.len() implies (#[trigger] expr.exprs@[i]
            as int) < expr_id as int by {
            assert((def.exprs@[expr_id as int]->Tuple_0.exprs@[i] as int) < expr_id as int);
        }
    }
    let ids = match lower_expr_list(ctx, db, def, scope, &expr.exprs, expr_id) {
        Some(ids) => ids,
        None => {
            return None;
        },
    };
    let ghost ctx_mid = *ctx;
    let ghost scope_mid = *scope;
    let out = introduce_new_var(ctx, db, expr.ty);
    proof {
        lemma_scope_inv_extend(*scope, ctx_mid, *ctx);
        lemma_ctx_extends_trans(*ctx, ctx_mid, *old(ctx));
    }
    let s = LoweredStatement::StructConstruct(
        StatementStructConstruct { inputs: ids, output: out },
    );
    proof {
        assert(stmt_vars_below(s, ctx.nv()));
        assert(stmt_blocks_below(s, ctx.nb()));
        assert(match_ok(s, ctx.blocks@, ctx.clean()));
        if ctx.clean() {
            assert forall|x: VariableId|
                stmt_inputs(s).to_set().contains(x) implies scope.avail().contains(x) by {
                let k = choose|k: int| 0 <= k < stmt_inputs(s).len() && stmt_inputs(s)[k] == x;
            }
        }
    }
    emit_statement(ctx, scope, s);
    proof {
        lemma_prefix_trans(
            old(scope).statements@,
            scope_mid.statements@,
            scope.statements@,
        );
        lemma_outputs_of_push(scope_mid.statements@, s);
        assert(stmt_outputs(s)[0] == out);
        assert(stmt_outputs(s).to_set().contains(out));
    }
    Some(out)
}

/// Lowers a struct construction, exactly as a tuple is lowered.
fn lower_expr_struct_ctor(
    ctx: &mut LoweringContext,
    db: &SemanticDb,
    def: &FunctionDef,
    scope: &mut LoweringBlockScope,
    expr: &ExprStructCtor,
    expr_id: ExprId,
) -> (res: Option<VariableId>)
    requires
        def.wf(),
        (expr_id as int) < def.exprs@.len(),
        def.exprs@[expr_id as int] == Expr::StructCtor(*expr),
        ctx_inv(*old(ctx)),
        scope_inv(*old(scope), *old(ctx)),
    ensures
        ctx_inv(*final(ctx)),
        ctx_extends(*final(ctx), *old(ctx)),
        scope_inv(*final(scope), *final(ctx)),
        old(scope).statements@.is_prefix_of(final(scope).statements@),
        old(scope).required_vars@.is_prefix_of(final(scope).required_vars@),
        final(scope).initial_vars == old(scope).initial_vars,
        forall|j: int|
            old(scope).required_vars@.len() <= j < final(scope).required_vars@.len() ==> (
            final(scope).required_vars@[j].1 as int) >= old(ctx).variables@.len(),
        (res is Some) == expr_lowerable(*db, *def, expr_id as int),
        res matches Some(v) ==> (v as int) < final(ctx).variables@.len() && (final(ctx).clean()
            ==> final(scope).avail().contains(v)),
    decreases expr_id, 2int,
{
    proof {
        assert(def.expr_children_ok(expr_id as int));
        assert forall|i: int| 0 <= i < expr.members@.len() implies (#[trigger] expr.members@[i]
            as int) < expr_id as int by {
            assert((def.exprs@[expr_id as int]->StructCtor_0.members@[i] as int) < expr_id
                as int);
        }
    }
    let ids = match lower_expr_list(ctx, db, def, scope, &expr.members, expr_id) {
        Some(ids) => ids,
        None => {
            return None;
        },
    };
    let ghost ctx_mid = *ctx;
    let ghost scope_mid = *scope;
    let out = introduce_new_var(ctx, db, expr.ty);
    proof {
        lemma_scope_inv_extend(*scope, ctx_mid, *ctx);
        lemma_ctx_extends_trans(*ctx, ctx_mid, *old(ctx));
    }
    let s = LoweredStatement::StructConstruct(
        StatementStructConstruct { inputs: ids, output: out },
    );
    proof {
        assert(stmt_vars_below(s, ctx.nv()));
        assert(stmt_blocks_below(s, ctx.nb()));
        assert(match_ok(s, ctx.blocks@, ctx.clean()));
        if ctx.clean() {
            assert forall|x: VariableId|
                stmt_inputs(s).to_set().contains(x) implies scope.avail().contains(x) by {
                let k = choose|k: int| 0 <= k < stmt_inputs(s).len() && stmt_inputs(s)[k] == x;
            }
        }
    }
    emit_statement(ctx, scope, s);
    proof {
        lemma_prefix_trans(
            old(scope).statements@,
            scope_mid.statements@,
            scope.statements@,
        );
        lemma_outputs_of_push(scope_mid.statements@, s);
        assert(stmt_outputs(s)[0] == out);
        assert(stmt_outputs(s).to_set().contains(out));
    }
    Some(out)
}

/// Lowers a user-function call: lowers the arguments, then emits one call
/// statement with a fresh output for the call's value.
fn lower_expr_function_call(
    ctx: &mut LoweringContext,
    db: &SemanticDb,
    def: &FunctionDef,
    scope: &mut LoweringBlockScope,
    expr: &ExprFunctionCall,
    expr_id: ExprId,
) -> (res: Option<VariableId>)
    requires
        def.wf(),
        (expr_id as int) < def.exprs@.len(),
        def.exprs@[expr_id as int] == Expr::FunctionCall(*expr),
        ctx_inv(*old(ctx)),
        scope_inv(*old(scope), *old(ctx)),
    ensures
        ctx_inv(*final(ctx)),
        ctx_extends(*final(ctx), *old(ctx)),
        scope_inv(*final(scope), *final(ctx)),
        old(scope).statements@.is_prefix_of(final(scope).statements@),
        old(scope).required_vars@.is_prefix_of(final(scope).required_vars@),
        final(scope).initial_vars == old(scope).initial_vars,
        forall|j: int|
            old(scope).required_vars@.len() <= j < final(scope).required_vars@.len() ==> (
            final(scope).required_vars@[j].1 as int) >= old(ctx).variables@.len(),
        (res is Some) == expr_lowerable(*db, *def, expr_id as int),
        res matches Some(v) ==> (v as int) < final(ctx).variables@.len() && (final(ctx).clean()
            ==> final(scope).avail().contains(v)),
    decreases expr_id, 2int,
{
    proof {
        assert(def.expr_children_ok(expr_id as int));
        assert forall|i: int| 0 <= i < expr.args@.len() implies (#[trigger] expr.args@[i]
            as int) < expr_id as int by {
            assert((def.exprs@[expr_id as int]->FunctionCall_0.args@[i] as int) < expr_id
                as int);
        }
    }
    let ids = match lower_expr_list(ctx, db, def, scope, &expr.args, expr_id) {
        Some(ids) => ids,
        None => {
            return None;
        },
    };
    let ghost ctx_mid = *ctx;
    let ghost scope_mid = *scope;
    let out = introduce_new_var(ctx, db, expr.ty);
    proof {
        lemma_scope_inv_extend(*scope, ctx_mid, *ctx);
        lemma_ctx_extends_trans(*ctx, ctx_mid, *old(ctx));
    }
    let mut outs: Vec<VariableId> = Vec::new();
    outs.push(out);
    let s = LoweredStatement::Call(
        StatementCall { function: expr.function, inputs: ids, outputs: outs },
    );
    proof {
        assert(stmt_outputs(s)[0] == out);
        assert(stmt_vars_below(s, ctx.nv()));
        assert(stmt_blocks_below(s, ctx.nb()));
        assert(match_ok(s, ctx.blocks@, ctx.clean()));
        if ctx.clean() {
            assert forall|x: VariableId|
                stmt_inputs(s).to_set().contains(x) implies scope.avail().contains(x) by {
                let k = choose|k: int| 0 <= k < stmt_inputs(s).len() && stmt_inputs(s)[k] == x;
            }
        }
    }
    emit_statement(ctx, scope, s);
    proof {
        lemma_prefix_trans(
            old(scope).statements@,
            scope_mid.statements@,
            scope.statements@,
        );
        lemma_outputs_of_push(scope_mid.statements@, s);
        assert(stmt_outputs(s).to_set().contains(out));
    }
    Some(out)
}

/// Lowers an assignment: lowers the right-hand side, rebinds the variable
/// to the value, and yields a fresh unit value (an empty construct).
fn lower_expr_assignment(
    ctx: &mut LoweringContext,
    db: &SemanticDb,
    def: &FunctionDef,
    scope: &mut LoweringBlockScope,
    expr: &ExprAssignment,
    expr_id: ExprId,
) -> (res: Option<VariableId>)
    requires
        def.wf(),
        (expr_id as int) < def.exprs@.len(),
        def.exprs@[expr_id as int] == Expr::Assignment(*expr),
        ctx_inv(*old(ctx)),
        scope_inv(*old(scope), *old(ctx)),
    ensures
        ctx_inv(*final(ctx)),
        ctx_extends(*final(ctx), *old(ctx)),
        scope_inv(*final(scope), *final(ctx)),
        old(scope).statements@.is_prefix_of(final(scope).statements@),
        old(scope).required_vars@.is_prefix_of(final(scope).required_vars@),
        final(scope).initial_vars == old(scope).initial_vars,
        forall|j: int|
            old(scope).required_vars@.len() <= j < final(scope).required_vars@.len() ==> (
            final(scope).required_vars@[j].1 as int) >= old(ctx).variables@.len(),
        (res is Some) == expr_lowerable(*db, *def, expr_id as int),
        res matches Some(v) ==> (v as int) < final(ctx).variables@.len() && (final(ctx).clean()
            ==> final(scope).avail().contains(v)),
    decreases expr_id, 2int,
{
    proof {
        assert(def.expr_children_ok(expr_id as int));
    }
    let v = match lower_expr(ctx, db, def, scope, expr.rhs) {
        Some(v) => v,
        None => {
            return None;
        },
    };
    let ghost ctx_mid = *ctx;
    let ghost scope_mid = *scope;
    scope.vars.insert(expr.var, v);
    proof {
        assert(scope.vars.wf());
        assert forall|k: crate::semantic::SemVarId| #[trigger]
            scope.required_vars.spec_contains(k) implies scope.vars.spec_contains(k) by {
            if k != expr.var {
                assert(scope.vars.spec_get(k) == scope_mid.vars.spec_get(k));
            }
        }
        assert forall|i: int| 0 <= i < scope.vars@.len() implies ((#[trigger] scope.vars@[i]).1
            as nat) < ctx.nv() by {
            if scope_mid.vars.spec_contains(expr.var) {
                let idx = choose|idx: int|
                    0 <= idx < scope_mid.vars@.len() && scope_mid.vars@[idx].0 == expr.var
                        && scope.vars@ =~= scope_mid.vars@.update(idx, (expr.var, v));
                if i != idx {
                    assert(scope.vars@[i] == scope_mid.vars@[i]);
                }
            } else {
                if i < scope_mid.vars@.len() {
                    assert(scope.vars@[i] == scope_mid.vars@[i]);
                }
            }
        }
        if ctx.clean() {
            assert(scope.vars.vals().to_set() <= scope_mid.vars.vals().to_set().insert(v));
            assert(scope.vars.vals().to_set() <= scope.avail());
        }
    }
    let ghost ctx_mid2 = *ctx;
    let ghost scope_mid2 = *scope;
    let out = introduce_new_var(ctx, db, expr.ty);
    proof {
        lemma_scope_inv_extend(*scope, ctx_mid2, *ctx);
        lemma_ctx_extends_trans(*ctx, ctx_mid, *old(ctx));
    }
    let s = LoweredStatement::StructConstruct(
        StatementStructConstruct { inputs: Vec::new(), output: out },
    );
    proof {
        assert(stmt_inputs(s).to_set() =~= Set::<VariableId>::empty());
        assert(stmt_vars_below(s, ctx.nv()));
        assert(stmt_blocks_below(s, ctx.nb()));
        assert(match_ok(s, ctx.blocks@, ctx.clean()));
    }
    emit_statement(ctx, scope, s);
    proof {
        lemma_prefix_trans(
            old(scope).statements@,
            scope_mid.statements@,
            scope.statements@,
        );
        lemma_outputs_of_push(scope_mid2.statements@, s);
        assert(stmt_outputs(s)[0] == out);
        assert(stmt_outputs(s).to_set().contains(out));
    }
    Some(out)
}

/// Lowers a member access: lowers the struct value, destructures it into a
/// fresh variable per member, and yields the accessed member's variable.
fn lower_expr_member_access(
    ctx: &mut LoweringContext,
    db: &SemanticDb,
    def: &FunctionDef,
    scope: &mut LoweringBlockScope,
    expr: &ExprMemberAccess,
    expr_id: ExprId,
) -> (res: Option<VariableId>)
    requires
        def.wf(),
        (expr_id as int) < def.exprs@.len(),
        def.exprs@[expr_id as int] == Expr::MemberAccess(*expr),
        ctx_inv(*old(ctx)),
        scope_inv(*old(scope), *old(ctx)),
    ensures
        ctx_inv(*final(ctx)),
        ctx_extends(*final(ctx), *old(ctx)),
        scope_inv(*final(scope), *final(ctx)),
        old(scope).statements@.is_prefix_of(final(scope).statements@),
        old(scope).required_vars@.is_prefix_of(final(scope).required_vars@),
        final(scope).initial_vars == old(scope).initial_vars,
        forall|j: int|
            old(scope).required_vars@.len() <= j < final(scope).required_vars@.len() ==> (
            final(scope).required_vars@[j].1 as int) >= old(ctx).variables@.len(),
        (res is Some) == expr_lowerable(*db, *def, expr_id as int),
        res matches Some(v) ==> (v as int) < final(ctx).variables@.len() && (final(ctx).clean()
            ==> final(scope).avail().contains(v)),
    decreases expr_id, 2int,
{
    proof {
        assert(def.expr_children_ok(expr_id as int));
    }
    if expr.member_idx >= expr.member_tys.len() {
        return None;
    }
    let input = match lower_expr(ctx, db, def, scope, expr.expr) {
        Some(v) => v,
        None => {
            return None;
        },
    };
    let ghost ctx_mid = *ctx;
    let ghost scope_mid = *scope;
    let mut outs: Vec<VariableId> = Vec::new();
    let mut i: usize = 0;
    while i < expr.member_tys.len()
        invariant
            i <= expr.member_tys@.len(),
            ctx_inv(*ctx),
            ctx_extends(*ctx, ctx_mid),
            outs@.len() == i,
            forall|k: int|
                0 <= k < outs@.len() ==> (#[trigger] outs@[k] as int) < ctx.variables@.len(),
        decreases expr.member_tys@.len() - i,
    {
        let ghost ctx_it = *ctx;
        let o = introduce_new_var(ctx, db, expr.member_tys[i]);
        outs.push(o);
        proof {
            lemma_ctx_extends_trans(*ctx, ctx_it, ctx_mid);
        }
        i = i + 1;
    }
    proof {
        lemma_scope_inv_extend(*scope, ctx_mid, *ctx);
        lemma_ctx_extends_trans(*ctx, ctx_mid, *old(ctx));
    }
    let result = outs[expr.member_idx];
    let s = LoweredStatement::StructDestructure(
        StatementStructDestructure { input, outputs: outs },
    );
    proof {
        assert(stmt_inputs(s)[0] == input);
        assert(stmt_vars_below(s, ctx.nv()));
        assert(stmt_blocks_below(s, ctx.nb()));
        assert(match_ok(s, ctx.blocks@, ctx.clean()));
        if ctx.clean() {
            assert forall|x: VariableId|
                stmt_inputs(s).to_set().contains(x) implies scope.avail().contains(x) by {
                let k = choose|k: int| 0 <= k < stmt_inputs(s).len() && stmt_inputs(s)[k] == x;
                assert(stmt_inputs(s)[k] == input);
            }
        }
    }
    emit_statement(ctx, scope, s);
    proof {
        lemma_prefix_trans(
            old(scope).statements@,
            scope_mid.statements@,
            scope.statements@,
        );
        lemma_outputs_of_push(scope_mid.statements@, s);
        assert(stmt_outputs(s)[expr.member_idx as int] == result);
        assert(stmt_outputs(s).to_set().contains(result));
    }
    Some(result)
}

/// Lowers an enum-variant construction: lowers the single argument and
/// emits one enum-construct statement with a fresh output.
fn lower_expr_enum_ctor(
    ctx: &mut LoweringContext,
    db: &SemanticDb,
    def: &FunctionDef,
    scope: &mut LoweringBlockScope,
    expr: &ExprEnumVariantCtor,
    expr_id: ExprId,
) -> (res: Option<VariableId>)
    requires
        def.wf(),
        (expr_id as int) < def.exprs@.len(),
        def.exprs@[expr_id as int] == Expr::EnumVariantCtor(*expr),
        ctx_inv(*old(ctx)),
        scope_inv(*old(scope), *old(ctx)),
    ensures
        ctx_inv(*final(ctx)),
        ctx_extends(*final(ctx), *old(ctx)),
        scope_inv(*final(scope), *final(ctx)),
        old(scope).statements@.is_prefix_of(final(scope).statements@),
        old(scope).required_vars@.is_prefix_of(final(scope).required_vars@),
        final(scope).initial_vars == old(scope).initial_vars,
        forall|j: int|
            old(scope).required_vars@.len() <= j < final(scope).required_vars@.len() ==> (
            final(scope).required_vars@[j].1 as int) >= old(ctx).variables@.len(),
        (res is Some) == expr_lowerable(*db, *def, expr_id as int),
        res matches Some(v) ==> (v as int) < final(ctx).variables@.len() && (final(ctx).clean()
            ==> final(scope).avail().contains(v)),
    decreases expr_id, 2int,
{
    proof {
        assert(def.expr_children_ok(expr_id as int));
    }
    let input = match lower_expr(ctx, db, def, scope, expr.value_expr) {
        Some(v) => v,
        None => {
            return None;
        },
    };
    let ghost ctx_mid = *ctx;
    let ghost scope_mid = *scope;
    let out = introduce_new_var(ctx, db, expr.ty);
    proof {
        lemma_scope_inv_extend(*scope, ctx_mid, *ctx);
        lemma_ctx_extends_trans(*ctx, ctx_mid, *old(ctx));
    }
    let s = LoweredStatement::EnumConstruct(
        StatementEnumConstruct { variant: expr.variant, input, output: out },
    );
    proof {
        assert(stmt_inputs(s)[0] == input);
        assert(stmt_outputs(s)[0] == out);
        assert(stmt_vars_below(s, ctx.nv()));
        assert(stmt_blocks_below(s, ctx.nb()));
        assert(match_ok(s, ctx.blocks@, ctx.clean()));
        if ctx.clean() {
            assert forall|x: VariableId|
                stmt_inputs(s).to_set().contains(x) implies scope.avail().contains(x) by {
                let k = choose|k: int| 0 <= k < stmt_inputs(s).len() && stmt_inputs(s)[k] == x;
                assert(stmt_inputs(s)[k] == input);
            }
        }
    }
    emit_statement(ctx, scope, s);
    proof {
        lemma_prefix_trans(
            old(scope).statements@,
            scope_mid.statements@,
            scope.statements@,
        );
        lemma_outputs_of_push(scope_mid.statements@, s);
        assert(stmt_outputs(s).to_set().contains(out));
    }
    Some(out)
}

/// Lowers error propagation of a fallible operation: lowers the inner
/// value, then emits a call of the semantic layer's propagation test with
/// a fresh output for the success value.
fn lower_expr_error_propagate(
    ctx: &mut LoweringContext,
    db: &SemanticDb,
    def: &FunctionDef,
    scope: &mut LoweringBlockScope,
    expr: &ExprPropagateError,
    expr_id: ExprId,
) -> (res: Option<VariableId>)
    requires
        def.wf(),
        (expr_id as int) < def.exprs@.len(),
        def.exprs@[expr_id as int] == Expr::PropagateError(*expr),
        ctx_inv(*old(ctx)),
        scope_inv(*old(scope), *old(ctx)),
    ensures
        ctx_inv(*final(ctx)),
        ctx_extends(*final(ctx), *old(ctx)),
        scope_inv(*final(scope), *final(ctx)),
        old(scope).statements@.is_prefix_of(final(scope).statements@),
        old(scope).required_vars@.is_prefix_of(final(scope).required_vars@),
        final(scope).initial_vars == old(scope).initial_vars,
        forall|j: int|
            old(scope).required_vars@.len() <= j < final(scope).required_vars@.len() ==> (
            final(scope).required_vars@[j].1 as int) >= old(ctx).variables@.len(),
        (res is Some) == expr_lowerable(*db, *def, expr_id as int),
        res matches Some(v) ==> (v as int) < final(ctx).variables@.len() && (final(ctx).clean()
            ==> final(scope).avail().contains(v)),
    decreases expr_id, 2int,
{
    proof {
        assert(def.expr_children_ok(expr_id as int));
    }
    let input = match lower_expr(ctx, db, def, scope, expr.inner) {
        Some(v) => v,
        None => {
            return None;
        },
    };
    let ghost ctx_mid = *ctx;
    let ghost scope_mid = *scope;
    let out = introduce_new_var(ctx, db, expr.ty);
    proof {
        lemma_scope_inv_extend(*scope, ctx_mid, *ctx);
        lemma_ctx_extends_trans(*ctx, ctx_mid, *old(ctx));
    }
    let mut ins: Vec<VariableId> = Vec::new();
    ins.push(input);
    let mut outs: Vec<VariableId> = Vec::new();
    outs.push(out);
    let s = LoweredStatement::Call(
        StatementCall { function: expr.function, inputs: ins, outputs: outs },
    );
    proof {
        assert(stmt_inputs(s)[0] == input);
        assert(stmt_outputs(s)[0] == out);
        assert(stmt_vars_below(s, ctx.nv()));
        assert(stmt_blocks_below(s, ctx.nb()));
        assert(match_ok(s, ctx.blocks@, ctx.clean()));
        if ctx.clean() {
            assert forall|x: VariableId|
                stmt_inputs(s).to_set().contains(x) implies scope.avail().contains(x) by {
                let k = choose|k: int| 0 <= k < stmt_inputs(s).len() && stmt_inputs(s)[k] == x;
                assert(stmt_inputs(s)[k] == input);
            }
        }
    }
    emit_statement(ctx, scope, s);
    proof {
        lemma_prefix_trans(
            old(scope).statements@,
            scope_mid.statements@,
            scope.statements@,
        );
        lemma_outputs_of_push(scope_mid.statements@, s);
        assert(stmt_outputs(s).to_set().contains(out));
    }
    Some(out)
}

/// Total dispatch over every expression kind. Emits statements into the
/// current scope and yields the variable holding the expression's value.
/// A variable not yet bound in the scope is an externally required one: a
/// fresh placeholder is allocated and registered in both `required_vars`
/// and `vars`, to be resolved later by the enclosing scope's unification.
pub fn lower_expr(
    ctx: &mut LoweringContext,
    db: &SemanticDb,
    def: &FunctionDef,
    scope: &mut LoweringBlockScope,
    expr_id: ExprId,
) -> (res: Option<VariableId>)
    requires
        def.wf(),
        (expr_id as int) < def.exprs@.len(),
        ctx_inv(*old(ctx)),
        scope_inv(*old(scope), *old(ctx)),
    ensures
        ctx_inv(*final(ctx)),
        ctx_extends(*final(ctx), *old(ctx)),
        scope_inv(*final(scope), *final(ctx)),
        old(scope).statements@.is_prefix_of(final(scope).statements@),
        old(scope).required_vars@.is_prefix_of(final(scope).required_vars@),
        final(scope).initial_vars == old(scope).initial_vars,
        forall|j: int|
            old(scope).required_vars@.len() <= j < final(scope).required_vars@.len() ==> (
            final(scope).required_vars@[j].1 as int) >= old(ctx).variables@.len(),
        (res is Some) == expr_lowerable(*db, *def, expr_id as int),
        res matches Some(v) ==> (v as int) < final(ctx).variables@.len() && (final(ctx).clean()
            ==> final(scope).avail().contains(v)),
        // a literal appends exactly one literal-binding statement carrying
        // the exact value, bound to a fresh output of the literal's type
        res matches Some(v) ==> (def.exprs@[expr_id as int] matches Expr::Literal(l) ==> {
            &&& v == old(ctx).variables@.len()
            &&& final(ctx).variables@ == old(ctx).variables@.push(
                Variable {
                    droppable: db.spec_type_info(l.ty).droppable,
                    duplicatable: db.spec_type_info(l.ty).duplicatable,
                    ty: l.ty,
                },
            )
            &&& final(ctx).blocks == old(ctx).blocks
            &&& final(ctx).diagnostics == old(ctx).diagnostics
            &&& final(scope).statements@ == old(scope).statements@.push(
                LoweredStatement::Literal(StatementLiteral { value: l.value, output: v }),
            )
            &&& final(scope).vars == old(scope).vars
            &&& final(scope).required_vars == old(scope).required_vars
        }),
        // a variable reference appends no statement: it yields the bound
        // id, or registers one fresh placeholder in both scope maps at once
        def.exprs@[expr_id as int] matches Expr::Var(vr) ==> {
            &&& final(scope).statements == old(scope).statements
            &&& final(ctx).blocks == old(ctx).blocks
            &&& final(ctx).diagnostics == old(ctx).diagnostics
            &&& match old(scope).vars.spec_get(vr.var) {
                Some(b) => res == Some(b) && *final(scope) == *old(scope) && *final(ctx) == *old(
                    ctx,
                ),
                None => res matches Some(p) && {
                    &&& p == old(ctx).variables@.len()
                    &&& final(ctx).variables@ == old(ctx).variables@.push(
                        Variable {
                            droppable: db.spec_type_info(vr.ty).droppable,
                            duplicatable: db.spec_type_info(vr.ty).duplicatable,
                            ty: vr.ty,
                        },
                    )
                    &&& final(scope).required_vars@ == old(scope).required_vars@.push(
                        (vr.var, p),
                    )
                    &&& final(scope).vars.spec_get(vr.var) == Some(p)
                    &&& forall|k: crate::semantic::SemVarId|
                        k != vr.var ==> final(scope).vars.spec_get(k) == old(
                            scope,
                        ).vars.spec_get(k)
                },
            }
        },
        // a match appends exactly one unified enum-match statement
        res matches Some(v) ==> (def.exprs@[expr_id as int] matches Expr::Match(me) ==> (
        db.spec_enum_of(def.exprs@[me.matched_expr as int].ty()) matches Some(ed) && {
            &&& final(scope).vars == old(scope).vars
            &&& final(scope).required_vars == old(scope).required_vars
            &&& final(scope).statements@.len() == old(scope).statements@.len() + 1
            &&& final(scope).statements@.last() matches LoweredStatement::MatchEnum(m) && {
                &&& m.concrete_enum == ed.concrete_enum
                &&& m.arms@.len() == ed.variants@.len()
                &&& ed.variants@.len() == me.arms@.len()
                &&& forall|i: int|
                    0 <= i < m.arms@.len() ==> (#[trigger] m.arms@[i]).variant == ed.variants@[i]
                &&& match_shape_ok(m)
                &&& m.output == v
                &&& forall|i: int, j: int|
                    0 <= i < m.arms@.len() && 0 <= j < m.arms@[i].var_mapping@.len() ==> old(
                        scope,
                    ).vars.vals().to_set().contains(#[trigger] m.arms@[i].var_mapping@[j].0)
                &&& forall|i: int|
                    0 <= i < m.arms@.len() ==> old(ctx).blocks@.len() <= ((
                    #[trigger] m.arms@[i]).block_id as int) < final(ctx).blocks@.len()
                &&& forall|i: int|
                    0 <= i < m.arms@.len() && final(ctx).clean() ==> stmts_sound(
                        final(ctx).blocks@[(#[trigger] m.arms@[i]).block_id as int].statements@,
                        m.arms@[i].var_mapping.vals().to_set(),
                    )
                &&& forall|i: int|
                    0 <= i < m.arms@.len() && def.exprs@[me.arms@[i].expression as int]
                        is Literal ==> {
                        let bs = final(ctx).blocks@[(#[trigger] m.arms@[i]).block_id
                            as int].statements@;
                        &&& bs.len() == 1
                        &&& bs[0] matches LoweredStatement::Literal(sl) && sl.value
                            == def.exprs@[me.arms@[i].expression as int]->Literal_0.value
                    }
                &&& forall|i: int|
                    0 <= i < m.arms@.len() ==> (def.exprs@[(#[trigger] me.arms@[i]).expression
                        as int] matches Expr::Var(vr) ==> match old(scope).vars.spec_get(
                        vr.var,
                    ) {
                        Some(enc) => m.arms@[i].var_mapping@.len() == 1
                            && m.arms@[i].var_mapping@[0].0 == enc,
                        None => m.arms@[i].var_mapping@.len() == 0 && exists|q: int|
                            old(ctx).diagnostics@.len() <= q < final(ctx).diagnostics@.len()
                                && final(ctx).diagnostics@[q]
                                == (LoweringDiagnostic::MissingVariable { var: vr.var }),
                    })
            }
        })),
    decreases expr_id, 3int,
{
    let eref = &def.exprs[expr_id];
    match eref {
        Expr::Tuple(t) => lower_expr_tuple(ctx, db, def, scope, t, expr_id),
        Expr::Assignment(a) => lower_expr_assignment(ctx, db, def, scope, a, expr_id),
        Expr::Block(b) => lower_block(ctx, db, def, scope, b, expr_id),
        Expr::FunctionCall(c) => lower_expr_function_call(ctx, db, def, scope, c, expr_id),
        Expr::Match(m) => lower_expr_match(ctx, db, def, scope, m, expr_id),
        Expr::If(c) => lower_expr_if(ctx, db, def, scope, c, expr_id),
        Expr::Var(v) => {
            let var = v.var;
            let vty = v.ty;
            proof {
                lemma_prefix_refl(scope.statements@);
                lemma_prefix_refl(scope.required_vars@);
            }
            match scope.vars.get(var) {
                Some(id) => {
                    proof {
                        crate::varmap::lemma_semvarmap_get_val(scope.vars, var, id);
                        crate::varmap::lemma_assoc_find_entry(scope.vars@, var, id);
                        let i = choose|i: int|
                            0 <= i < scope.vars@.len() && scope.vars@[i].0 == var
                                && scope.vars@[i].1 == id;
                        assert(((scope.vars@[i]).1 as nat) < ctx.nv());
                    }
                    Some(id)
                },
                None => {
                    let ghost ctx0 = *ctx;
                    let ghost scope0 = *scope;
                    let id = introduce_new_var(ctx, db, vty);
                    proof {
                        lemma_scope_inv_extend(*scope, ctx0, *ctx);
                        // the variable is not a requirement yet either
                        if scope.required_vars.spec_contains(var) {
                            assert(scope.vars.spec_contains(var));
                            assert(false);
                        }
                    }
                    let ghost req0 = scope.required_vars;
                    let ghost vars0 = scope.vars;
                    scope.required_vars.insert(var, id);
                    scope.vars.insert(var, id);
                    proof {
                        assert(scope.required_vars@ =~= req0@.push((var, id)));
                        assert(scope.required_vars.vals() =~= req0.vals().push(id));
                        assert(scope.required_vars.vals().to_set() =~= req0.vals().to_set().insert(
                            id,
                        )) by {
                            crate::objects::lemma_push_to_set(req0.vals(), id);
                        }
                        assert(scope.entry() =~= scope0.entry().insert(id));
                        assert(scope.avail() =~= scope0.avail().insert(id));
                        // distinct placeholders: the new id is fresh
                        assert forall|i: int, j: int|
                            0 <= i < j < scope.required_vars@.len() implies scope.required_vars@[i].1
                            != scope.required_vars@[j].1 by {
                            if j == scope.required_vars@.len() - 1 {
                                assert(scope.required_vars@[i] == req0@[i]);
                                assert(((req0@[i]).1 as nat) < ctx0.nv());
                            } else {
                                assert(scope.required_vars@[i] == req0@[i]);
                                assert(scope.required_vars@[j] == req0@[j]);
                            }
                        }
                        // required keys stay bound
                        assert forall|k: crate::semantic::SemVarId| #[trigger]
                            scope.required_vars.spec_contains(k) implies scope.vars.spec_contains(
                            k,
                        ) by {
                            if k == var {
                            } else {
                                assert(scope.required_vars.spec_get(k) == req0.spec_get(k));
                                assert(req0.spec_contains(k));
                                assert(vars0.spec_contains(k));
                                assert(vars0.spec_get(k) == scope.vars.spec_get(k));
                            }
                        }
                        // binding ranges
                        assert forall|i: int| 0 <= i < scope.vars@.len() implies ((
                        #[trigger] scope.vars@[i]).1 as nat) < ctx.nv() by {
                            if i < vars0@.len() {
                                assert(scope.vars@[i] == vars0@[i]);
                            } else {
                                assert(scope.vars@[i] == (var, id));
                            }
                        }
                        if ctx.clean() {
                            lemma_stmts_sound_widen(
                                scope.statements@,
                                scope0.entry(),
                                scope.entry(),
                            );
                            assert forall|x: VariableId|
                                scope.vars.vals().to_set().contains(x) implies scope.avail()
                                .contains(x) by {
                                let j = choose|j: int|
                                    0 <= j < scope.vars.vals().len() && scope.vars.vals()[j] == x;
                                if j < vars0.vals().len() {
                                    assert(vars0.vals()[j] == x);
                                    assert(vars0.vals().to_set().contains(x));
                                } else {
                                    assert(scope.vars@[j] == (var, id));
                                }
                            }
                        }
                        lemma_prefix_refl(scope.statements@);
                        assert(req0@.is_prefix_of(scope.required_vars@)) by {
                            assert(req0@ =~= scope.required_vars@.subrange(
                                0,
                                req0@.len() as int,
                            ));
                        }
                    }
                    Some(id)
                },
            }
        },
        Expr::Literal(l) => {
            let id = lower_expr_literal(ctx, db, scope, l);
            proof {
                lemma_prefix_refl(old(scope).required_vars@);
                assert(old(scope).statements@.is_prefix_of(scope.statements@)) by {
                    assert(old(scope).statements@ =~= scope.statements@.subrange(
                        0,
                        old(scope).statements@.len() as int,
                    ));
                }
            }
            Some(id)
        },
        Expr::MemberAccess(ma) => lower_expr_member_access(ctx, db, def, scope, ma, expr_id),
        Expr::StructCtor(sc) => lower_expr_struct_ctor(ctx, db, def, scope, sc, expr_id),
        Expr::EnumVariantCtor(ec) => lower_expr_enum_ctor(ctx, db, def, scope, ec, expr_id),
        Expr::PropagateError(p) => lower_expr_error_propagate(ctx, db, def, scope, p, expr_id),
        Expr::Missing(me) => {
            let mty = me.ty;
            record_diagnostic(ctx, LoweringDiagnostic::MissingExpression { expr: expr_id });
            let ghost ctx1 = *ctx;
            let id = introduce_new_var(ctx, db, mty);
            proof {
                lemma_ctx_extends_trans(*ctx, ctx1, *old(ctx));
                lemma_scope_inv_extend(*scope, *old(ctx), *ctx);
                lemma_prefix_refl(scope.statements@);
                lemma_prefix_refl(scope.required_vars@);
                assert(!ctx.clean());
            }
            Some(id)
        },
    }
}

/// Lowers one source statement of a block: an expression statement for
/// its effect; a let, lowering its right-hand side and then binding the
/// produced variable to the declared name — the name-binding step; a
/// return, left to the enclosing driver, not elaborated here.
pub fn lower_statement(
    ctx: &mut LoweringContext,
    db: &SemanticDb,
    def: &FunctionDef,
    scope: &mut LoweringBlockScope,
    sid: crate::semantic::StatementId,
    expr_id: ExprId,
) -> (res: bool)
    requires
        def.wf(),
        (expr_id as int) < def.exprs@.len(),
        (sid as int) < def.statements@.len(),
        def.stmt_children_below(def.statements@[sid as int], expr_id as int),
        ctx_inv(*old(ctx)),
        scope_inv(*old(scope), *old(ctx)),
    ensures
        ctx_inv(*final(ctx)),
        ctx_extends(*final(ctx), *old(ctx)),
        scope_inv(*final(scope), *final(ctx)),
        old(scope).statements@.is_prefix_of(final(scope).statements@),
        old(scope).required_vars@.is_prefix_of(final(scope).required_vars@),
        final(scope).initial_vars == old(scope).initial_vars,
        forall|j: int|
            old(scope).required_vars@.len() <= j < final(scope).required_vars@.len() ==> (
            final(scope).required_vars@[j].1 as int) >= old(ctx).variables@.len(),
        res == (match def.statements@[sid as int] {
            Statement::Expr(se) => expr_lowerable(*db, *def, se.expr as int),
            Statement::Let(sl) => expr_lowerable(*db, *def, sl.expr as int),
            Statement::Return(_) => true,
        }),
        // the name-binding step: a let binds the declared name to the
        // variable its right-hand side produced
        res ==> (def.statements@[sid as int] matches Statement::Let(sl)
            ==> (final(scope).vars.spec_get(sl.var) matches Some(b) && {
            &&& (b as int) < final(ctx).variables@.len()
            &&& (final(ctx).clean() ==> final(scope).avail().contains(b))
            &&& (def.exprs@[sl.expr as int] matches Expr::Literal(l) ==> final(scope).statements@
                == old(scope).statements@.push(
                LoweredStatement::Literal(StatementLiteral { value: l.value, output: b }),
            ))
            &&& (def.exprs@[sl.expr as int] matches Expr::Var(vr)
                ==> (old(scope).vars.spec_get(vr.var) matches Some(b0) ==> b == b0))
        })),
        res ==> (def.statements@[sid as int] is Return ==> *final(scope) == *old(scope)
            && *final(ctx) == *old(ctx)),
    decreases expr_id, 1int,
{
    let st = &def.statements[sid];
    match st {
        Statement::Expr(se) => {
            let e = se.expr;
            lower_expr(ctx, db, def, scope, e).is_some()
        },
        Statement::Let(sl) => {
            let e = sl.expr;
            let lvar = sl.var;
            match lower_expr(ctx, db, def, scope, e) {
                Some(v) => {
                    let ghost vars0 = scope.vars;
                    scope.vars.insert(lvar, v);
                    proof {
                        assert forall|k: crate::semantic::SemVarId| #[trigger]
                            scope.required_vars.spec_contains(k) implies scope.vars.spec_contains(
                            k,
                        ) by {
                            if k != lvar {
                                assert(scope.vars.spec_get(k) == vars0.spec_get(k));
                            }
                        }
                        assert forall|idx: int| 0 <= idx < scope.vars@.len() implies ((
                        #[trigger] scope.vars@[idx]).1 as nat) < ctx.nv() by {
                            if vars0.spec_contains(lvar) {
                                let w = choose|w: int|
                                    0 <= w < vars0@.len() && vars0@[w].0 == lvar && scope.vars@
                                        =~= vars0@.update(w, (lvar, v));
                                if idx != w {
                                    assert(scope.vars@[idx] == vars0@[idx]);
                                }
                            } else {
                                if idx < vars0@.len() {
                                    assert(scope.vars@[idx] == vars0@[idx]);
                                }
                            }
                        }
                        if ctx.clean() {
                            assert(scope.vars.vals().to_set() <= vars0.vals().to_set().insert(v));
                            assert(scope.vars.vals().to_set() <= scope.avail());
                        }
                    }
                    true
                },
                None => false,
            }
        },
        Statement::Return(_) => true,
    }
}

/// Lowers a block expression: its statements in source order — an
/// expression statement for effect, a let binding the produced variable to
/// the declared name, a return left to the driver — then its tail
/// expression for the block's value, or a fresh unit value without one.
pub fn lower_block(
    ctx: &mut LoweringContext,
    db: &SemanticDb,
    def: &FunctionDef,
    scope: &mut LoweringBlockScope,
    expr_block: &ExprBlock,
    expr_id: ExprId,
) -> (res: Option<VariableId>)
    requires
        def.wf(),
        (expr_id as int) < def.exprs@.len(),
        def.exprs@[expr_id as int] == Expr::Block(*expr_block),
        ctx_inv(*old(ctx)),
        scope_inv(*old(scope), *old(ctx)),
    ensures
        ctx_inv(*final(ctx)),
        ctx_extends(*final(ctx), *old(ctx)),
        scope_inv(*final(scope), *final(ctx)),
        old(scope).statements@.is_prefix_of(final(scope).statements@),
        old(scope).required_vars@.is_prefix_of(final(scope).required_vars@),
        final(scope).initial_vars == old(scope).initial_vars,
        forall|j: int|
            old(scope).required_vars@.len() <= j < final(scope).required_vars@.len() ==> (
            final(scope).required_vars@[j].1 as int) >= old(ctx).variables@.len(),
        (res is Some) == expr_lowerable(*db, *def, expr_id as int),
        res matches Some(v) ==> (v as int) < final(ctx).variables@.len() && (final(ctx).clean()
            ==> final(scope).avail().contains(v)),
        // the block's value comes from its tail expression; for a literal
        // or match tail the last appended statement is pinned
        res matches Some(v) ==> (expr_block.tail matches Some(t) ==> {
            &&& (def.exprs@[t as int] matches Expr::Literal(l) ==> final(scope).statements@.len()
                > old(scope).statements@.len() && final(scope).statements@.last()
                == LoweredStatement::Literal(StatementLiteral { value: l.value, output: v }))
            &&& (def.exprs@[t as int] matches Expr::Match(me) ==> (db.spec_enum_of(
                def.exprs@[me.matched_expr as int].ty(),
            ) matches Some(ed) && {
                &&& final(scope).statements@.len() > old(scope).statements@.len()
                &&& final(scope).statements@.last() matches LoweredStatement::MatchEnum(m) && {
                    &&& m.concrete_enum == ed.concrete_enum
                    &&& m.arms@.len() == ed.variants@.len()
                    &&& ed.variants@.len() == me.arms@.len()
                    &&& forall|i: int|
                        0 <= i < m.arms@.len() ==> (#[trigger] m.arms@[i]).variant
                            == ed.variants@[i]
                    &&& match_shape_ok(m)
                    &&& m.output == v
                &&& forall|i: int|
                    0 <= i < m.arms@.len() && def.exprs@[me.arms@[i].expression as int]
                        is Literal ==> {
                        let bs = final(ctx).blocks@[(#[trigger] m.arms@[i]).block_id
                            as int].statements@;
                        &&& bs.len() == 1
                        &&& bs[0] matches LoweredStatement::Literal(sl) && sl.value
                            == def.exprs@[me.arms@[i].expression as int]->Literal_0.value
                    }
                }
            }))
        }),
    decreases expr_id, 2int,
{
    proof {
        assert(def.expr_children_ok(expr_id as int));
        lemma_prefix_refl(scope.statements@);
        lemma_prefix_refl(scope.required_vars@);
    }
    let ghost ss = expr_block.statements@;
    let mut i: usize = 0;
    while i < expr_block.statements.len()
        invariant
            def.wf(),
            (expr_id as int) < def.exprs@.len(),
            def.exprs@[expr_id as int] == Expr::Block(*expr_block),
            ss == expr_block.statements@,
            i <= ss.len(),
            ctx_inv(*ctx),
            ctx_extends(*ctx, *old(ctx)),
            scope_inv(*scope, *ctx),
            old(scope).statements@.is_prefix_of(scope.statements@),
            old(scope).required_vars@.is_prefix_of(scope.required_vars@),
            scope.initial_vars == old(scope).initial_vars,
            forall|j: int|
                old(scope).required_vars@.len() <= j < scope.required_vars@.len() ==> (
                scope.required_vars@[j].1 as int) >= old(ctx).variables@.len(),
            forall|k: int|
                0 <= k < i ==> (#[trigger] ss[k] as int) < def.statements@.len() && match def
                    .statements@[ss[k] as int] {
                    Statement::Expr(se) => 0 <= (se.expr as int) < expr_id as int
                        && expr_lowerable(*db, *def, se.expr as int),
                    Statement::Let(sl) => 0 <= (sl.expr as int) < expr_id as int
                        && expr_lowerable(*db, *def, sl.expr as int),
                    Statement::Return(_) => true,
                },
        decreases ss.len() - i,
    {
        let sid = expr_block.statements[i];
        proof {
            assert(ss[i as int] == sid);
            assert(def.expr_children_ok(expr_id as int));
            assert((sid as int) < def.statements@.len());
            assert(def.stmt_children_below(def.statements@[sid as int], expr_id as int));
        }
        let ghost ctx_pre = *ctx;
        let ghost scope_pre = *scope;
        let ok = lower_statement(ctx, db, def, scope, sid, expr_id);
        proof {
            lemma_ctx_extends_trans(*ctx, ctx_pre, *old(ctx));
            lemma_prefix_trans(
                old(scope).statements@,
                scope_pre.statements@,
                scope.statements@,
            );
            lemma_prefix_trans(
                old(scope).required_vars@,
                scope_pre.required_vars@,
                scope.required_vars@,
            );
            assert forall|q: int|
                old(scope).required_vars@.len() <= q < scope.required_vars@.len() implies (
                scope.required_vars@[q].1 as int) >= old(ctx).variables@.len() by {
                if q < scope_pre.required_vars@.len() {
                    assert(scope.required_vars@[q] == scope_pre.required_vars@[q]);
                }
            }
        }
        if !ok {
            proof {
                lemma_block_stmts_lowerable_index(*db, *def, ss, expr_id as int);
                assert(!block_stmts_lowerable(*db, *def, ss, expr_id as int)) by {
                    if block_stmts_lowerable(*db, *def, ss, expr_id as int) {
                        assert((ss[i as int] as int) < def.statements@.len() && match def
                            .statements@[ss[i as int] as int] {
                            Statement::Expr(se2) => 0 <= (se2.expr as int) < expr_id as int
                                && expr_lowerable(*db, *def, se2.expr as int),
                            Statement::Let(sl2) => 0 <= (sl2.expr as int) < expr_id as int
                                && expr_lowerable(*db, *def, sl2.expr as int),
                            Statement::Return(_) => true,
                        });
                    }
                }
            }
            return None;
        }
        i = i + 1;
    }
    proof {
        lemma_block_stmts_lowerable_index(*db, *def, ss, expr_id as int);
    }
    match expr_block.tail {
        Some(t) => {
            let ghost ctx_pre = *ctx;
            let ghost scope_pre = *scope;
            let r = lower_expr(ctx, db, def, scope, t);
            proof {
                lemma_ctx_extends_trans(*ctx, ctx_pre, *old(ctx));
                lemma_prefix_trans(
                    old(scope).statements@,
                    scope_pre.statements@,
                    scope.statements@,
                );
                lemma_prefix_trans(
                    old(scope).required_vars@,
                    scope_pre.required_vars@,
                    scope.required_vars@,
                );
                assert forall|q: int|
                    old(scope).required_vars@.len() <= q < scope.required_vars@.len() implies (
                    scope.required_vars@[q].1 as int) >= old(ctx).variables@.len() by {
                    if q < scope_pre.required_vars@.len() {
                        assert(scope.required_vars@[q] == scope_pre.required_vars@[q]);
                    }
                }
            }
            r
        },
        None => {
            let ghost ctx_pre = *ctx;
            let ghost scope_pre = *scope;
            let out = introduce_new_var(ctx, db, expr_block.ty);
            proof {
                lemma_scope_inv_extend(*scope, ctx_pre, *ctx);
                lemma_ctx_extends_trans(*ctx, ctx_pre, *old(ctx));
            }
            let s = LoweredStatement::StructConstruct(
                StatementStructConstruct { inputs: Vec::new(), output: out },
            );
            proof {
                assert(stmt_inputs(s).to_set() =~= Set::<VariableId>::empty());
                assert(stmt_vars_below(s, ctx.nv()));
                assert(stmt_blocks_below(s, ctx.nb()));
                assert(match_ok(s, ctx.blocks@, ctx.clean()));
            }
            emit_statement(ctx, scope, s);
            proof {
                lemma_prefix_trans(
                    old(scope).statements@,
                    scope_pre.statements@,
                    scope.statements@,
                );
                lemma_outputs_of_push(scope_pre.statements@, s);
                assert(stmt_outputs(s)[0] == out);
                assert(stmt_outputs(s).to_set().contains(out));
            }
            Some(out)
        },
    }
}

/// Extracts the concrete enum and its ordered variants from the matched
/// expression's type. The type must resolve to a concrete enum; anything
/// else is a hard failure.
fn extract_concrete_enum<'a>(
    db: &'a SemanticDb,
    def: &FunctionDef,
    expr: &ExprMatch,
    expr_id: ExprId,
) -> (res: Result<(ConcreteEnumId, &'a Vec<ConcreteVariant>), LoweringFlowError>)
    requires
        def.wf(),
        (expr_id as int) < def.exprs@.len(),
        def.exprs@[expr_id as int] == Expr::Match(*expr),
    ensures
        match res {
            Ok(p) => db.spec_enum_of(def.exprs@[expr.matched_expr as int].ty()) matches Some(ed)
                && ed.concrete_enum == p.0 && ed.variants@ == p.1@,
            Err(_) => db.spec_enum_of(def.exprs@[expr.matched_expr as int].ty()) is None,
        },
{
    proof {
        assert(def.expr_children_ok(expr_id as int));
    }
    let ty = expr_ty(&def.exprs[expr.matched_expr]);
    match assoc_get(&db.enums, ty) {
        Some(ed) => Ok((ed.concrete_enum, &ed.variants)),
        None => Err(LoweringFlowError::Failed),
    }
}

/// The core unification: lowers each arm's body into a fresh, empty scope,
/// resolves each variable the arm required against the enclosing scope's
/// bindings, and emits one enum-match statement whose inputs and outputs
/// are the deduplicated unions over all arms, in first-resolution order. A
/// requirement the enclosing scope cannot supply is a soft diagnostic: the
/// statement is still emitted from the arms that did resolve.
fn lower_match_arms(
    ctx: &mut LoweringContext,
    db: &SemanticDb,
    def: &FunctionDef,
    scope: &mut LoweringBlockScope,
    concrete_enum: ConcreteEnumId,
    variants: &Vec<ConcreteVariant>,
    arm_exprs: &Vec<ExprId>,
    result_ty: TypeId,
    expr_id: ExprId,
) -> (res: Option<VariableId>)
    requires
        def.wf(),
        (expr_id as int) < def.exprs@.len(),
        variants@.len() == arm_exprs@.len(),
        forall|i: int|
            0 <= i < arm_exprs@.len() ==> (#[trigger] arm_exprs@[i] as int) < expr_id as int,
        ctx_inv(*old(ctx)),
        scope_inv(*old(scope), *old(ctx)),
    ensures
        ctx_inv(*final(ctx)),
        ctx_extends(*final(ctx), *old(ctx)),
        scope_inv(*final(scope), *final(ctx)),
        old(scope).statements@.is_prefix_of(final(scope).statements@),
        old(scope).required_vars@.is_prefix_of(final(scope).required_vars@),
        final(scope).initial_vars == old(scope).initial_vars,
        forall|j: int|
            old(scope).required_vars@.len() <= j < final(scope).required_vars@.len() ==> (
            final(scope).required_vars@[j].1 as int) >= old(ctx).variables@.len(),
        (res is Some) == exprs_lowerable(
            *db,
            *def,
            arm_exprs@.map_values(|x: ExprId| x as int),
            expr_id as int,
        ),
        res matches Some(v) ==> (v as int) < final(ctx).variables@.len() && (final(ctx).clean()
            ==> final(scope).avail().contains(v)),
        res matches Some(v) ==> {
            &&& final(scope).vars == old(scope).vars
            &&& final(scope).required_vars == old(scope).required_vars
            &&& final(scope).statements@.len() == old(scope).statements@.len() + 1
            &&& final(scope).statements@.last() matches LoweredStatement::MatchEnum(m) && {
                &&& m.concrete_enum == concrete_enum
                &&& m.arms@.len() == variants@.len()
                &&& forall|i: int|
                    0 <= i < m.arms@.len() ==> (#[trigger] m.arms@[i]).variant == variants@[i]
                &&& match_shape_ok(m)
                &&& m.output == v
                &&& forall|i: int, j: int|
                    0 <= i < m.arms@.len() && 0 <= j < m.arms@[i].var_mapping@.len() ==> old(
                        scope,
                    ).vars.vals().to_set().contains(#[trigger] m.arms@[i].var_mapping@[j].0)
                &&& forall|i: int|
                    0 <= i < m.arms@.len() ==> old(ctx).blocks@.len() <= ((
                    #[trigger] m.arms@[i]).block_id as int) < final(ctx).blocks@.len()
                &&& forall|i: int, j: int|
                    #![trigger m.arms@[i], m.arms@[j]]
                    0 <= i < j < m.arms@.len() ==> (m.arms@[i].block_id as int) < (
                    m.arms@[j].block_id as int)
                &&& forall|i: int|
                    0 <= i < m.arms@.len() && final(ctx).clean() ==> stmts_sound(
                        final(ctx).blocks@[(#[trigger] m.arms@[i]).block_id as int].statements@,
                        m.arms@[i].var_mapping.vals().to_set(),
                    )
                &&& forall|i: int|
                    0 <= i < m.arms@.len() && def.exprs@[arm_exprs@[i] as int] is Literal ==> {
                        let bs = final(ctx).blocks@[(#[trigger] m.arms@[i]).block_id
                            as int].statements@;
                        &&& bs.len() == 1
                        &&& bs[0] matches LoweredStatement::Literal(sl) && sl.value
                            == def.exprs@[arm_exprs@[i] as int]->Literal_0.value
                    }
                &&& forall|i: int|
                    0 <= i < m.arms@.len() ==> (def.exprs@[#[trigger] arm_exprs@[i] as int]
                        matches Expr::Var(vr) ==> match old(scope).vars.spec_get(vr.var) {
                        Some(enc) => m.arms@[i].var_mapping@.len() == 1
                            && m.arms@[i].var_mapping@[0].0 == enc,
                        None => m.arms@[i].var_mapping@.len() == 0 && exists|q: int|
                            old(ctx).diagnostics@.len() <= q < final(ctx).diagnostics@.len()
                                && final(ctx).diagnostics@[q]
                                == (LoweringDiagnostic::MissingVariable { var: vr.var }),
                    })
            }
        },
    decreases expr_id, 1int,
{
    let ghost ctx0 = *ctx;
    let ghost scope0 = *scope;
    let ghost nv0 = ctx.variables@.len();
    let mut match_arms: Vec<MatchArm> = Vec::new();
    let mut inputs: Vec<VariableId> = Vec::new();
    let mut outputs: Vec<VariableId> = Vec::new();
    let mut idx: usize = 0;
    proof {
        assert(arms_keys(match_arms@) =~= Seq::<VariableId>::empty());
        assert(arms_vals(match_arms@) =~= Seq::<VariableId>::empty());
        assert(inputs@ =~= seq_dedup(arms_keys(match_arms@)));
        assert(outputs@ =~= seq_dedup(arms_vals(match_arms@)));
    }
    while idx < arm_exprs.len()
        invariant
            def.wf(),
            (expr_id as int) < def.exprs@.len(),
            variants@.len() == arm_exprs@.len(),
            forall|i: int|
                0 <= i < arm_exprs@.len() ==> (#[trigger] arm_exprs@[i] as int) < expr_id as int,
            idx <= arm_exprs@.len(),
            ctx_inv(*ctx),
            ctx_extends(*ctx, ctx0),
            ctx0 == *old(ctx),
            scope0 == *old(scope),
            nv0 == ctx0.variables@.len(),
            nv0 <= ctx.variables@.len(),
            *scope == scope0,
            scope_inv(*scope, *ctx),
            forall|i: int|
                0 <= i < idx ==> expr_lowerable(*db, *def, #[trigger] arm_exprs@[i] as int),
            match_arms@.len() == idx,
            forall|i: int|
                0 <= i < idx ==> (#[trigger] match_arms@[i]).variant == variants@[i],
            forall|i: int|
                0 <= i < idx ==> arm_ok(#[trigger] match_arms@[i], ctx.blocks@, ctx.clean()),
            forall|i: int|
                0 <= i < idx ==> ctx0.blocks@.len() <= ((#[trigger] match_arms@[i]).block_id
                    as int),
            forall|i: int, j: int|
                #![trigger match_arms@[i], match_arms@[j]]
                0 <= i < j < idx ==> (match_arms@[i].block_id as int) < (
                match_arms@[j].block_id as int),
            forall|i: int|
                0 <= i < idx && def.exprs@[arm_exprs@[i] as int] is Literal ==> {
                    let bs = ctx.blocks@[(#[trigger] match_arms@[i]).block_id as int].statements@;
                    &&& bs.len() == 1
                    &&& bs[0] matches LoweredStatement::Literal(sl) && sl.value
                        == def.exprs@[arm_exprs@[i] as int]->Literal_0.value
                },
            forall|i: int|
                0 <= i < idx ==> (def.exprs@[#[trigger] arm_exprs@[i] as int]
                    matches Expr::Var(vr) ==> match scope0.vars.spec_get(vr.var) {
                    Some(enc) => match_arms@[i].var_mapping@.len() == 1
                        && match_arms@[i].var_mapping@[0].0 == enc,
                    None => match_arms@[i].var_mapping@.len() == 0 && exists|q: int|
                        ctx0.diagnostics@.len() <= q < ctx.diagnostics@.len()
                            && ctx.diagnostics@[q] == (LoweringDiagnostic::MissingVariable {
                            var: vr.var,
                        }),
                }),
            forall|i: int, j: int|
                0 <= i < idx && 0 <= j < match_arms@[i].var_mapping@.len() ==> scope0.vars.vals()
                    .to_set()
                    .contains(#[trigger] match_arms@[i].var_mapping@[j].0),
            forall|i: int, j: int|
                0 <= i < idx && 0 <= j < match_arms@[i].var_mapping@.len() ==> nv0 <= (
                #[trigger] match_arms@[i].var_mapping@[j].1 as int) < ctx.variables@.len(),
            forall|i1: int, j1: int, i2: int, j2: int|
                #![trigger match_arms@[i1].var_mapping@[j1], match_arms@[i2].var_mapping@[j2]]
                0 <= i1 < i2 < idx && 0 <= j1 < match_arms@[i1].var_mapping@.len() && 0 <= j2
                    < match_arms@[i2].var_mapping@.len() ==> (match_arms@[i1].var_mapping@[j1].1
                    as int) < (match_arms@[i2].var_mapping@[j2].1 as int),
            inputs@ == seq_dedup(arms_keys(match_arms@)),
            outputs@ == seq_dedup(arms_vals(match_arms@)),
        decreases arm_exprs@.len() - idx,
    {
        let ghost ctx_arm0 = *ctx;
        let mut arm_scope = LoweringBlockScope::new();
        proof {
            assert(scope_inv(arm_scope, *ctx));
        }
        let arm_r = lower_expr(ctx, db, def, &mut arm_scope, arm_exprs[idx]);
        proof {
            lemma_ctx_extends_trans(*ctx, ctx_arm0, ctx0);
            lemma_scope_inv_extend(*scope, ctx_arm0, *ctx);
        }
        if arm_r.is_none() {
            proof {
                let es = arm_exprs@.map_values(|x: ExprId| x as int);
                lemma_exprs_lowerable_index(*db, *def, es, expr_id as int);
                assert(es[idx as int] == arm_exprs@[idx as int] as int);
            }
            return None;
        }
        let ghost ctx_arm1 = *ctx;
        let ghost req = arm_scope.required_vars;
        let ghost arms_snapshot = match_arms@;
        let mut arm_mapping = VarMapping::new();
        let mut r: usize = 0;
        proof {
            assert(arm_mapping.keys() =~= Seq::<VariableId>::empty());
            assert(arm_mapping.vals() =~= Seq::<VariableId>::empty());
            assert(arms_keys(match_arms@) + arm_mapping.keys() =~= arms_keys(match_arms@));
            assert(arms_vals(match_arms@) + arm_mapping.vals() =~= arms_vals(match_arms@));
            assert(req.vals().take(0).to_set() =~= Set::<VariableId>::empty());
            assert(arm_mapping.vals().to_set() =~= Set::<VariableId>::empty());
        }
        while r < arm_scope.required_vars.len()
            invariant
                r <= req@.len(),
                arm_scope.required_vars == req,
                match_arms@ == arms_snapshot,
                match_arms@.len() == idx,
                idx < arm_exprs@.len(),
                variants@.len() == arm_exprs@.len(),
                ctx_inv(*ctx),
                ctx_extends(*ctx, ctx_arm1),
                ctx_extends(ctx_arm1, ctx0),
                ctx0 == *old(ctx),
                scope0 == *old(scope),
                nv0 == ctx0.variables@.len(),
                nv0 <= ctx_arm0.variables@.len(),
                ctx_extends(ctx_arm0, ctx0),
                ctx_arm0.variables@.len() <= ctx_arm1.variables@.len(),
                ctx_arm1.variables@.len() <= ctx.variables@.len(),
                *scope == scope0,
                scope_inv(*scope, *ctx),
                scope_inv(arm_scope, ctx_arm1),
                // placeholders of this arm are fresh and allocated
                forall|j: int|
                    0 <= j < req@.len() ==> ctx_arm0.variables@.len() <= (#[trigger] req@[j].1
                        as int) < ctx_arm1.variables@.len(),
                forall|i: int, j: int|
                    0 <= i < j < req@.len() ==> req@[i].1 != req@[j].1,
                arm_mapping.wf(),
                arm_mapping@.len() <= r,
                forall|j: int|
                    0 <= j < arm_mapping@.len() ==> scope0.vars.vals().to_set().contains(
                        #[trigger] arm_mapping@[j].0,
                    ),
                forall|j: int|
                    0 <= j < arm_mapping@.len() ==> ctx_arm0.variables@.len() <= (
                    #[trigger] arm_mapping@[j].1 as int) < ctx.variables@.len(),
                ctx.clean() ==> arm_mapping.vals().to_set() == req.vals().take(r as int).to_set(),
                inputs@ == seq_dedup(arms_keys(match_arms@) + arm_mapping.keys()),
                outputs@ == seq_dedup(arms_vals(match_arms@) + arm_mapping.vals()),
                // earlier arms, unchanged but under the growing context
                forall|i: int|
                    0 <= i < idx ==> expr_lowerable(*db, *def, #[trigger] arm_exprs@[i] as int),
                expr_lowerable(*db, *def, arm_exprs@[idx as int] as int),
                forall|i: int|
                    0 <= i < idx ==> (#[trigger] match_arms@[i]).variant == variants@[i],
                forall|i: int|
                    0 <= i < idx ==> arm_ok(#[trigger] match_arms@[i], ctx.blocks@, ctx.clean()),
                forall|i: int|
                    0 <= i < idx ==> ctx0.blocks@.len() <= ((#[trigger] match_arms@[i]).block_id
                        as int),
                forall|i: int, j: int|
                    #![trigger match_arms@[i], match_arms@[j]]
                    0 <= i < j < idx ==> (match_arms@[i].block_id as int) < (
                    match_arms@[j].block_id as int),
                forall|i: int|
                    0 <= i < idx && def.exprs@[arm_exprs@[i] as int] is Literal ==> {
                        let bs = ctx.blocks@[(#[trigger] match_arms@[i]).block_id
                            as int].statements@;
                        &&& bs.len() == 1
                        &&& bs[0] matches LoweredStatement::Literal(sl) && sl.value
                            == def.exprs@[arm_exprs@[i] as int]->Literal_0.value
                    },
                forall|i: int|
                    0 <= i < idx ==> (def.exprs@[#[trigger] arm_exprs@[i] as int]
                        matches Expr::Var(vr) ==> match scope0.vars.spec_get(vr.var) {
                        Some(enc) => match_arms@[i].var_mapping@.len() == 1
                            && match_arms@[i].var_mapping@[0].0 == enc,
                        None => match_arms@[i].var_mapping@.len() == 0 && exists|q: int|
                            ctx0.diagnostics@.len() <= q < ctx.diagnostics@.len()
                                && ctx.diagnostics@[q] == (LoweringDiagnostic::MissingVariable {
                                var: vr.var,
                            }),
                    }),
                def.exprs@[arm_exprs@[idx as int] as int] matches Expr::Var(vr) ==> {
                    &&& req@.len() == 1
                    &&& req@[0].0 == vr.var
                    &&& (r > 0 ==> (match scope0.vars.spec_get(vr.var) {
                        Some(enc) => arm_mapping@.len() == 1 && arm_mapping@[0].0 == enc,
                        None => arm_mapping@.len() == 0 && exists|q: int|
                            ctx0.diagnostics@.len() <= q < ctx.diagnostics@.len()
                                && ctx.diagnostics@[q] == (LoweringDiagnostic::MissingVariable {
                                var: vr.var,
                            }),
                    }))
                },
                forall|i: int, j: int|
                    0 <= i < idx && 0 <= j < match_arms@[i].var_mapping@.len() ==> scope0.vars
                        .vals()
                        .to_set()
                        .contains(#[trigger] match_arms@[i].var_mapping@[j].0),
                forall|i: int, j: int|
                    0 <= i < idx && 0 <= j < match_arms@[i].var_mapping@.len() ==> nv0 <= (
                    #[trigger] match_arms@[i].var_mapping@[j].1 as int)
                        < ctx_arm0.variables@.len(),
                forall|i1: int, j1: int, i2: int, j2: int|
                    #![trigger match_arms@[i1].var_mapping@[j1], match_arms@[i2].var_mapping@[j2]]
                    0 <= i1 < i2 < idx && 0 <= j1 < match_arms@[i1].var_mapping@.len() && 0 <= j2
                        < match_arms@[i2].var_mapping@.len() ==> (
                    match_arms@[i1].var_mapping@[j1].1 as int) < (
                    match_arms@[i2].var_mapping@[j2].1 as int),
            decreases req@.len() - r,
        {
            let sv = arm_scope.required_vars.key_at(r);
            let pid = arm_scope.required_vars.val_at(r);
            proof {
                assert(req@[r as int].0 == sv);
                assert(req@[r as int].1 == pid);
                assert(req.keys()[r as int] == sv);
                assert(req.vals()[r as int] == pid);
            }
            let ghost ctx_it = *ctx;
            match scope.vars.get(sv) {
                Some(enc) => {
                    proof {
                        crate::varmap::lemma_semvarmap_get_val(scope.vars, sv, enc);
                    }
                    if arm_mapping.contains_key(enc) {
                        record_diagnostic(
                            ctx,
                            LoweringDiagnostic::AliasedRequirement { var: sv },
                        );
                        proof {
                            if def.exprs@[arm_exprs@[idx as int] as int] is Var {
                                assert(req@.len() == 1);
                                assert(r == 0);
                                assert(arm_mapping@.len() == 0);
                                assert(arm_mapping.spec_get(enc) is None);
                                assert(false);
                            }
                            lemma_ctx_extends_trans(*ctx, ctx_it, ctx_arm1);
                            lemma_scope_inv_extend(*scope, ctx_it, *ctx);
                            lemma_scope_inv_extend(arm_scope, ctx_arm1, ctx_arm1);
                            assert(!ctx.clean());
                            assert forall|i: int|
                                0 <= i < idx implies arm_ok(
                                #[trigger] match_arms@[i],
                                ctx.blocks@,
                                ctx.clean(),
                            ) by {
                                lemma_arm_ok_extend(
                                    match_arms@[i],
                                    ctx_it.blocks@,
                                    ctx.blocks@,
                                    ctx_it.clean(),
                                    ctx.clean(),
                                );
                            }
                        }
                    } else {
                        let ghost mapping0 = arm_mapping;
                        arm_mapping.insert(enc, pid);
                        let had_input = vec_contains(&inputs, enc);
                        if !had_input {
                            inputs.push(enc);
                        }
                        let had_output = vec_contains(&outputs, pid);
                        if !had_output {
                            outputs.push(pid);
                        }
                        proof {
                            assert(arm_mapping@ =~= mapping0@.push((enc, pid)));
                            assert(arm_mapping.keys() =~= mapping0.keys().push(enc));
                            assert(arm_mapping.vals() =~= mapping0.vals().push(pid));
                            if def.exprs@[arm_exprs@[idx as int] as int] is Var {
                                let vr = def.exprs@[arm_exprs@[idx as int] as int]->Var_0;
                                assert(req@.len() == 1);
                                assert(r == 0);
                                assert(sv == vr.var);
                                assert(mapping0@.len() == 0);
                                assert(arm_mapping@.len() == 1);
                                assert(arm_mapping@[0] == (enc, pid));
                                assert(scope0.vars.spec_get(vr.var) == Some(enc));
                            }
                            let kpre = arms_keys(match_arms@) + mapping0.keys();
                            let vpre = arms_vals(match_arms@) + mapping0.vals();
                            assert(arms_keys(match_arms@) + arm_mapping.keys() =~= kpre.push(
                                enc,
                            ));
                            assert(arms_vals(match_arms@) + arm_mapping.vals() =~= vpre.push(
                                pid,
                            ));
                            lemma_seq_dedup_push(kpre, enc);
                            lemma_seq_dedup_push(vpre, pid);
                            if ctx.clean() {
                                assert(arm_mapping.vals().to_set() =~= mapping0.vals()
                                    .to_set()
                                    .insert(pid)) by {
                                    crate::objects::lemma_push_to_set(mapping0.vals(), pid);
                                }
                                assert(req.vals().take(r + 1) =~= req.vals().take(
                                    r as int,
                                ).push(pid));
                                assert(req.vals().take(r + 1).to_set() =~= req.vals().take(
                                    r as int,
                                ).to_set().insert(pid)) by {
                                    crate::objects::lemma_push_to_set(
                                        req.vals().take(r as int),
                                        pid,
                                    );
                                }
                            }
                        }
                    }
                },
                None => {
                    record_diagnostic(ctx, LoweringDiagnostic::MissingVariable { var: sv });
                    proof {
                        if def.exprs@[arm_exprs@[idx as int] as int] is Var {
                            let vr = def.exprs@[arm_exprs@[idx as int] as int]->Var_0;
                            assert(req@.len() == 1);
                            assert(r == 0);
                            assert(sv == vr.var);
                            assert(ctx.diagnostics@[ctx_it.diagnostics@.len() as int]
                                == (LoweringDiagnostic::MissingVariable { var: vr.var }));
                            assert(ctx0.diagnostics@.len() <= ctx_it.diagnostics@.len()
                                < ctx.diagnostics@.len());
                            assert(scope0.vars.spec_get(vr.var) is None);
                        }
                        lemma_ctx_extends_trans(*ctx, ctx_it, ctx_arm1);
                        lemma_scope_inv_extend(*scope, ctx_it, *ctx);
                        assert(!ctx.clean());
                        assert forall|i: int|
                            0 <= i < idx implies arm_ok(
                            #[trigger] match_arms@[i],
                            ctx.blocks@,
                            ctx.clean(),
                        ) by {
                            lemma_arm_ok_extend(
                                match_arms@[i],
                                ctx_it.blocks@,
                                ctx.blocks@,
                                ctx_it.clean(),
                                ctx.clean(),
                            );
                        }
                    }
                },
            }
            r = r + 1;
        }
        // the arm's body becomes its own block
        let block_id = ctx.blocks.len();
        let ghost ctx_preblock = *ctx;
        let ghost arm_scope_g = arm_scope;
        let arm_stmts = arm_scope.statements;
        ctx.blocks.push(Block { statements: arm_stmts });
        proof {
            let newb = ctx.blocks@.last();
            assert(newb.statements@ == arm_scope_g.statements@);
            assert(ctx.blocks@ =~= ctx_preblock.blocks@.push(newb));
            assert(ctx_preblock.blocks@.is_prefix_of(ctx.blocks@)) by {
                assert(ctx_preblock.blocks@ =~= ctx.blocks@.subrange(
                    0,
                    ctx_preblock.blocks@.len() as int,
                ));
            }
            lemma_prefix_refl(ctx.variables@);
            lemma_prefix_refl(ctx.diagnostics@);
            assert(ctx_extends(*ctx, ctx_preblock));
            lemma_ctx_extends_trans(*ctx, ctx_preblock, ctx_arm1);
            // the new block is consistent: its statements came from the arm scope
            lemma_scope_inv_extend(arm_scope_g, ctx_arm1, ctx_preblock);
            assert forall|k: int|
                0 <= k < newb.statements@.len() implies {
                let s = #[trigger] newb.statements@[k];
                stmt_vars_below(s, ctx_preblock.nv()) && stmt_blocks_below(
                    s,
                    ctx_preblock.blocks@.len(),
                ) && match_ok(s, ctx_preblock.blocks@, ctx_preblock.clean())
            } by {
                assert(scope_inv(arm_scope_g, ctx_preblock));
                assert(newb.statements@[k] == arm_scope_g.statements@[k]);
            }
            lemma_blocks_ok_push(
                ctx_preblock.blocks@,
                newb,
                ctx_preblock.nv(),
                ctx_preblock.clean(),
            );
            assert(ctx_inv(*ctx));
            lemma_scope_inv_extend(*scope, ctx_preblock, *ctx);
        }
        let arm = MatchArm {
            variant: variants[idx],
            block_id,
            var_mapping: arm_mapping,
        };
        proof {
            // the fresh arm is consistent
            assert((arm.block_id as int) < ctx.blocks@.len());
            if ctx.clean() {
                assert(req.vals().take(req@.len() as int) =~= req.vals());
                assert(arm.var_mapping.vals().to_set() == req.vals().to_set());
                assert(scope_inv(arm_scope_g, ctx_preblock));
                assert(stmts_sound(arm_scope_g.statements@, arm_scope_g.entry()));
                assert(arm_scope_g.initial_vars@ =~= Set::<VariableId>::empty());
                assert(arm_scope_g.entry() =~= req.vals().to_set()) by {
                    assert forall|x: VariableId|
                        arm_scope_g.entry().contains(x) <==> req.vals().to_set().contains(x) by {}
                }
                assert(ctx.blocks@[arm.block_id as int].statements@ == arm_scope_g.statements@);
                assert(stmts_sound(
                    ctx.blocks@[arm.block_id as int].statements@,
                    arm.var_mapping.vals().to_set(),
                ));
            }
            assert(arm_ok(arm, ctx.blocks@, ctx.clean()));
        }
        match_arms.push(arm);
        proof {
            assert(match_arms@ =~= arms_snapshot.push(arm));
            lemma_arms_keys_push(arms_snapshot, arm);
            lemma_arms_vals_push(arms_snapshot, arm);
            assert(inputs@ == seq_dedup(arms_keys(match_arms@)));
            assert(outputs@ == seq_dedup(arms_vals(match_arms@)));
            assert forall|i: int|
                0 <= i < idx + 1 implies arm_ok(
                #[trigger] match_arms@[i],
                ctx.blocks@,
                ctx.clean(),
            ) by {
                if i < idx {
                    assert(match_arms@[i] == arms_snapshot[i]);
                    lemma_arm_ok_extend(
                        arms_snapshot[i],
                        ctx_arm1.blocks@,
                        ctx.blocks@,
                        ctx_arm1.clean(),
                        ctx.clean(),
                    );
                } else {
                    assert(match_arms@[i] == arm);
                }
            }
        }
        idx = idx + 1;
    }
    // the match's own result variable
    let ghost ctx_endloop = *ctx;
    let result = introduce_new_var(ctx, db, result_ty);
    proof {
        lemma_ctx_extends_trans(*ctx, ctx_endloop, ctx0);
        lemma_scope_inv_extend(*scope, ctx_endloop, *ctx);
        assert forall|i: int|
            0 <= i < match_arms@.len() implies arm_ok(
            #[trigger] match_arms@[i],
            ctx.blocks@,
            ctx.clean(),
        ) by {
            lemma_arm_ok_extend(
                match_arms@[i],
                ctx_endloop.blocks@,
                ctx.blocks@,
                ctx_endloop.clean(),
                ctx.clean(),
            );
        }
    }
    let ghost outputs_nores = outputs@;
    let s = LoweredStatement::MatchEnum(
        StatementMatchEnum { concrete_enum, inputs, arms: match_arms, outputs, output: result },
    );
    proof {
        let arms = s->MatchEnum_0.arms@;
        // shape
        assert(s->MatchEnum_0.outputs@ =~= outputs_nores);
        assert(stmt_outputs(s) =~= outputs_nores.push(result));
        assert(match_shape_ok(s->MatchEnum_0)) by {
            assert forall|i1: int, j1: int|
                0 <= i1 < j1 < arms.len() implies arms[i1].var_mapping.vals().to_set().disjoint(
                arms[j1].var_mapping.vals().to_set(),
            ) by {
                assert forall|x: VariableId|
                    !(arms[i1].var_mapping.vals().to_set().contains(x)
                        && arms[j1].var_mapping.vals().to_set().contains(x)) by {
                    if arms[i1].var_mapping.vals().to_set().contains(x) && arms[j1].var_mapping
                        .vals()
                        .to_set()
                        .contains(x) {
                        let a = choose|a: int|
                            0 <= a < arms[i1].var_mapping.vals().len() && arms[i1].var_mapping
                                .vals()[a] == x;
                        let b = choose|b: int|
                            0 <= b < arms[j1].var_mapping.vals().len() && arms[j1].var_mapping
                                .vals()[b] == x;
                        assert((arms[i1].var_mapping@[a].1 as int) < (arms[j1].var_mapping@[b].1
                            as int));
                    }
                }
            }
            assert forall|i1: int, j1: int|
                0 <= i1 < arms.len() && 0 <= j1 < arms.len() implies arms[i1].var_mapping.keys()
                .to_set()
                .disjoint(arms[j1].var_mapping.vals().to_set()) by {
                assert forall|x: VariableId|
                    !(arms[i1].var_mapping.keys().to_set().contains(x)
                        && arms[j1].var_mapping.vals().to_set().contains(x)) by {
                    if arms[i1].var_mapping.keys().to_set().contains(x) && arms[j1].var_mapping
                        .vals()
                        .to_set()
                        .contains(x) {
                        let a = choose|a: int|
                            0 <= a < arms[i1].var_mapping.keys().len() && arms[i1].var_mapping
                                .keys()[a] == x;
                        let b = choose|b: int|
                            0 <= b < arms[j1].var_mapping.vals().len() && arms[j1].var_mapping
                                .vals()[b] == x;
                        // keys are pre-existing bindings, values fresh placeholders
                        assert(scope0.vars.vals().to_set().contains(x));
                        let w = choose|w: int|
                            0 <= w < scope0.vars.vals().len() && scope0.vars.vals()[w] == x;
                        assert(((scope0.vars@[w]).1 as nat) < ctx0.nv());
                        assert(nv0 <= (arms[j1].var_mapping@[b].1 as int));
                    }
                }
            }
        }
        // closure of the statement
        assert(stmt_vars_below(s, ctx.nv())) by {
            assert forall|i: int|
                0 <= i < stmt_inputs(s).len() implies (stmt_inputs(s)[i] as nat) < ctx.nv() by {
                let x = stmt_inputs(s)[i];
                assert(seq_dedup(arms_keys(arms)).contains(x));
                crate::objects::lemma_seq_dedup_contains(arms_keys(arms), x);
                lemma_arms_keys_contains(arms, x);
                let w = choose|w: int|
                    0 <= w < arms.len() && (#[trigger] arms[w]).var_mapping.keys().contains(x);
                let a = choose|a: int|
                    0 <= a < arms[w].var_mapping.keys().len() && arms[w].var_mapping.keys()[a]
                        == x;
                assert(scope0.vars.vals().to_set().contains(x));
                let q = choose|q: int|
                    0 <= q < scope0.vars.vals().len() && scope0.vars.vals()[q] == x;
                assert(((scope0.vars@[q]).1 as nat) < ctx0.nv());
            }
            assert forall|i: int|
                0 <= i < stmt_outputs(s).len() implies (stmt_outputs(s)[i] as nat) < ctx.nv() by {
                let x = stmt_outputs(s)[i];
                if i < outputs_nores.len() {
                    assert(seq_dedup(arms_vals(arms)).contains(x));
                    crate::objects::lemma_seq_dedup_contains(arms_vals(arms), x);
                    lemma_arms_vals_contains(arms, x);
                    let w = choose|w: int|
                        0 <= w < arms.len() && (#[trigger] arms[w]).var_mapping.vals().contains(
                            x,
                        );
                    let a = choose|a: int|
                        0 <= a < arms[w].var_mapping.vals().len() && arms[w].var_mapping.vals()[a]
                            == x;
                } else {
                    assert(stmt_outputs(s)[i] == result);
                }
            }
        }
        assert(stmt_blocks_below(s, ctx.nb())) by {
            assert forall|i: int|
                0 <= i < stmt_block_refs(s).len() implies (stmt_block_refs(s)[i] as nat)
                < ctx.nb() by {
                assert(stmt_block_refs(s)[i] == arms[i].block_id);
                assert(arm_ok(arms[i], ctx.blocks@, ctx.clean()));
            }
        }
        assert(match_ok(s, ctx.blocks@, ctx.clean()));
        // under cleanliness, the inputs are available in the enclosing scope
        if ctx.clean() {
            assert forall|x: VariableId|
                stmt_inputs(s).to_set().contains(x) implies scope.avail().contains(x) by {
                let i = choose|i: int| 0 <= i < stmt_inputs(s).len() && stmt_inputs(s)[i] == x;
                crate::objects::lemma_seq_dedup_contains(arms_keys(arms), x);
                lemma_arms_keys_contains(arms, x);
                let w = choose|w: int|
                    0 <= w < arms.len() && (#[trigger] arms[w]).var_mapping.keys().contains(x);
                let a = choose|a: int|
                    0 <= a < arms[w].var_mapping.keys().len() && arms[w].var_mapping.keys()[a]
                        == x;
                assert(scope0.vars.vals().to_set().contains(x));
                assert(scope.vars.vals().to_set() <= scope.avail());
            }
        }
    }
    emit_statement(ctx, scope, s);
    proof {
        lemma_prefix_refl(old(scope).required_vars@);
        assert(old(scope).statements@.is_prefix_of(scope.statements@)) by {
            assert(old(scope).statements@ =~= scope.statements@.subrange(
                0,
                old(scope).statements@.len() as int,
            ));
        }
        lemma_outputs_of_push(scope0.statements@, s);
        assert(stmt_outputs(s)[stmt_outputs(s).len() - 1] == result);
        assert(stmt_outputs(s).to_set().contains(result));
        let es = arm_exprs@.map_values(|x: ExprId| x as int);
        lemma_exprs_lowerable_index(*db, *def, es, expr_id as int);
        assert forall|i: int| 0 <= i < es.len() implies 0 <= #[trigger] es[i] < expr_id as int
            && expr_lowerable(*db, *def, es[i]) by {
            assert(es[i] == arm_exprs@[i] as int);
            assert(expr_lowerable(*db, *def, arm_exprs@[i] as int));
        }
    }
    Some(result)
}

/// Lowers a match over a value of a concrete enum type. The matched type
/// must resolve to a concrete enum whose variant count equals the arm
/// count: a disagreement is a hard failure, since exhaustiveness was
/// already checked upstream and a mismatch signals an inconsistency.
fn lower_expr_match(
    ctx: &mut LoweringContext,
    db: &SemanticDb,
    def: &FunctionDef,
    scope: &mut LoweringBlockScope,
    expr: &ExprMatch,
    expr_id: ExprId,
) -> (res: Option<VariableId>)
    requires
        def.wf(),
        (expr_id as int) < def.exprs@.len(),
        def.exprs@[expr_id as int] == Expr::Match(*expr),
        ctx_inv(*old(ctx)),
        scope_inv(*old(scope), *old(ctx)),
    ensures
        ctx_inv(*final(ctx)),
        ctx_extends(*final(ctx), *old(ctx)),
        scope_inv(*final(scope), *final(ctx)),
        old(scope).statements@.is_prefix_of(final(scope).statements@),
        old(scope).required_vars@.is_prefix_of(final(scope).required_vars@),
        final(scope).initial_vars == old(scope).initial_vars,
        forall|j: int|
            old(scope).required_vars@.len() <= j < final(scope).required_vars@.len() ==> (
            final(scope).required_vars@[j].1 as int) >= old(ctx).variables@.len(),
        (res is Some) == expr_lowerable(*db, *def, expr_id as int),
        res matches Some(v) ==> (v as int) < final(ctx).variables@.len() && (final(ctx).clean()
            ==> final(scope).avail().contains(v)),
        res matches Some(v) ==> (def.exprs@[expr_id as int] matches Expr::Match(me)
            && db.spec_enum_of(def.exprs@[me.matched_expr as int].ty()) matches Some(ed) && {
            &&& final(scope).vars == old(scope).vars
            &&& final(scope).required_vars == old(scope).required_vars
            &&& final(scope).statements@.len() == old(scope).statements@.len() + 1
            &&& final(scope).statements@.last() matches LoweredStatement::MatchEnum(m) && {
                &&& m.concrete_enum == ed.concrete_enum
                &&& m.arms@.len() == ed.variants@.len()
                &&& ed.variants@.len() == me.arms@.len()
                &&& forall|i: int|
                    0 <= i < m.arms@.len() ==> (#[trigger] m.arms@[i]).variant == ed.variants@[i]
                &&& match_shape_ok(m)
                &&& m.output == v
                &&& forall|i: int, j: int|
                    0 <= i < m.arms@.len() && 0 <= j < m.arms@[i].var_mapping@.len() ==> old(
                        scope,
                    ).vars.vals().to_set().contains(#[trigger] m.arms@[i].var_mapping@[j].0)
                &&& forall|i: int|
                    0 <= i < m.arms@.len() ==> old(ctx).blocks@.len() <= ((
                    #[trigger] m.arms@[i]).block_id as int) < final(ctx).blocks@.len()
                &&& forall|i: int, j: int|
                    #![trigger m.arms@[i], m.arms@[j]]
                    0 <= i < j < m.arms@.len() ==> (m.arms@[i].block_id as int) < (
                    m.arms@[j].block_id as int)
                &&& forall|i: int|
                    0 <= i < m.arms@.len() && final(ctx).clean() ==> stmts_sound(
                        final(ctx).blocks@[(#[trigger] m.arms@[i]).block_id as int].statements@,
                        m.arms@[i].var_mapping.vals().to_set(),
                    )
                &&& forall|i: int|
                    0 <= i < m.arms@.len() && def.exprs@[me.arms@[i].expression as int]
                        is Literal ==> {
                        let bs = final(ctx).blocks@[(#[trigger] m.arms@[i]).block_id
                            as int].statements@;
                        &&& bs.len() == 1
                        &&& bs[0] matches LoweredStatement::Literal(sl) && sl.value
                            == def.exprs@[me.arms@[i].expression as int]->Literal_0.value
                    }
                &&& forall|i: int|
                    0 <= i < m.arms@.len() ==> (def.exprs@[(#[trigger] me.arms@[i]).expression
                        as int] matches Expr::Var(vr) ==> match old(scope).vars.spec_get(
                        vr.var,
                    ) {
                        Some(enc) => m.arms@[i].var_mapping@.len() == 1
                            && m.arms@[i].var_mapping@[0].0 == enc,
                        None => m.arms@[i].var_mapping@.len() == 0 && exists|q: int|
                            old(ctx).diagnostics@.len() <= q < final(ctx).diagnostics@.len()
                                && final(ctx).diagnostics@[q]
                                == (LoweringDiagnostic::MissingVariable { var: vr.var }),
                    })
            }
        }),
        (def.exprs@[expr_id as int] matches Expr::Match(me) && db.spec_enum_of(
            def.exprs@[me.matched_expr as int].ty(),
        ) matches Some(ed) && ed.variants@.len() != me.arms@.len()) ==> res is None,
    decreases expr_id, 2int,
{
    proof {
        assert(def.expr_children_ok(expr_id as int));
        assert forall|k: int| 0 <= k < expr.arms@.len() implies ((
        #[trigger] expr.arms@[k]).expression as int) < expr_id as int by {
            assert((def.exprs@[expr_id as int]->Match_0.arms@[k].expression as int) < expr_id
                as int);
        }
        lemma_prefix_refl(scope.statements@);
        lemma_prefix_refl(scope.required_vars@);
    }
    let p = match extract_concrete_enum(db, def, expr, expr_id) {
        Ok(p) => p,
        Err(_) => {
            return None;
        },
    };
    let concrete_enum_id = p.0;
    let variants = p.1;
    if variants.len() != expr.arms.len() {
        return None;
    }
    let mut arm_exprs: Vec<ExprId> = Vec::new();
    let mut i: usize = 0;
    while i < expr.arms.len()
        invariant
            i <= expr.arms@.len(),
            arm_exprs@.len() == i,
            forall|k: int| 0 <= k < i ==> arm_exprs@[k] == (#[trigger] expr.arms@[k]).expression,
        decreases expr.arms@.len() - i,
    {
        arm_exprs.push(expr.arms[i].expression);
        i = i + 1;
    }
    proof {
        assert(arm_exprs@.map_values(|x: ExprId| x as int) =~= expr.arms@.map_values(
            |a: crate::semantic::MatchArmExpr| a.expression as int,
        ));
        assert forall|k: int|
            0 <= k < arm_exprs@.len() implies (#[trigger] arm_exprs@[k] as int) < expr_id
            as int by {
            assert(arm_exprs@[k] == expr.arms@[k].expression);
            assert((def.exprs@[expr_id as int]->Match_0.arms@[k].expression as int) < expr_id
                as int);
        }
    }
    let r = lower_match_arms(
        ctx,
        db,
        def,
        scope,
        concrete_enum_id,
        variants,
        &arm_exprs,
        expr.ty,
        expr_id,
    );
    proof {
        assert(arm_exprs@.len() == expr.arms@.len());
    }
    r
}

/// Lowers a conditional through the same unification as a match: the
/// condition is lowered in the enclosing scope, and the two branches are
/// lowered as the arms of the branch enum the semantic layer resolved.
fn lower_expr_if(
    ctx: &mut LoweringContext,
    db: &SemanticDb,
    def: &FunctionDef,
    scope: &mut LoweringBlockScope,
    expr: &ExprIf,
    expr_id: ExprId,
) -> (res: Option<VariableId>)
    requires
        def.wf(),
        (expr_id as int) < def.exprs@.len(),
        def.exprs@[expr_id as int] == Expr::If(*expr),
        ctx_inv(*old(ctx)),
        scope_inv(*old(scope), *old(ctx)),
    ensures
        ctx_inv(*final(ctx)),
        ctx_extends(*final(ctx), *old(ctx)),
        scope_inv(*final(scope), *final(ctx)),
        old(scope).statements@.is_prefix_of(final(scope).statements@),
        old(scope).required_vars@.is_prefix_of(final(scope).required_vars@),
        final(scope).initial_vars == old(scope).initial_vars,
        forall|j: int|
            old(scope).required_vars@.len() <= j < final(scope).required_vars@.len() ==> (
            final(scope).required_vars@[j].1 as int) >= old(ctx).variables@.len(),
        (res is Some) == expr_lowerable(*db, *def, expr_id as int),
        res matches Some(v) ==> (v as int) < final(ctx).variables@.len() && (final(ctx).clean()
            ==> final(scope).avail().contains(v)),
    decreases expr_id, 2int,
{
    proof {
        assert(def.expr_children_ok(expr_id as int));
        assert(def.exprs@[expr_id as int]->If_0 == *expr);
        assert((expr.condition as int) < expr_id as int);
        assert((expr.if_expr as int) < expr_id as int);
        assert((expr.else_expr as int) < expr_id as int);
        lemma_prefix_refl(scope.statements@);
        lemma_prefix_refl(scope.required_vars@);
    }
    if expr.variants.len() != 2 {
        return None;
    }
    let ghost ctx_pre = *ctx;
    let ghost scope_pre = *scope;
    if lower_expr(ctx, db, def, scope, expr.condition).is_none() {
        return None;
    }
    let mut arm_exprs: Vec<ExprId> = Vec::new();
    arm_exprs.push(expr.if_expr);
    arm_exprs.push(expr.else_expr);
    proof {
        assert(arm_exprs@[0] == expr.if_expr);
        assert(arm_exprs@[1] == expr.else_expr);
        assert forall|i: int|
            0 <= i < arm_exprs@.len() implies (#[trigger] arm_exprs@[i] as int) < expr_id
            as int by {
            if i == 0 {
                assert(arm_exprs@[i] == expr.if_expr);
            } else {
                assert(arm_exprs@[i] == expr.else_expr);
            }
        }
    }
    let ghost ctx_mid = *ctx;
    let ghost scope_mid = *scope;
    let r = lower_match_arms(
        ctx,
        db,
        def,
        scope,
        expr.concrete_enum,
        &expr.variants,
        &arm_exprs,
        expr.ty,
        expr_id,
    );
    proof {
        lemma_ctx_extends_trans(*ctx, ctx_mid, *old(ctx));
        lemma_prefix_trans(old(scope).statements@, scope_mid.statements@, scope.statements@);
        lemma_prefix_trans(
            old(scope).required_vars@,
            scope_mid.required_vars@,
            scope.required_vars@,
        );
        assert forall|q: int|
            old(scope).required_vars@.len() <= q < scope.required_vars@.len() implies (
            scope.required_vars@[q].1 as int) >= old(ctx).variables@.len() by {
            if q < scope_mid.required_vars@.len() {
                assert(scope.required_vars@[q] == scope_mid.required_vars@[q]);
            }
        }
        let es = arm_exprs@.map_values(|x: ExprId| x as int);
        lemma_exprs_lowerable_index(*db, *def, es, expr_id as int);
        assert(es[0] == expr.if_expr as int);
        assert(es[1] == expr.else_expr as int);
    }
    r
}

/// Lowers one free function: queries its definition, generic parameters,
/// signature and implicit parameters, binds the parameters into the root
/// scope, lowers the body block, reports any requirement the function
/// itself cannot satisfy, and packages the result. Returns nothing — not a
/// partial result — when any upstream query fails, the body is not a
/// block, or an enum's shape disagrees with its match; a function whose
/// lowering only recorded soft diagnostics still produces its whole form.
pub fn lower_free_function(db: &SemanticDb, free_function_id: FreeFunctionId) -> (res: Option<
    LoweredFreeFunction,
>)
    requires
        db.wf(),
    ensures
        (res is Some) == free_function_lowerable(*db, free_function_id),
        res matches Some(f) ==> {
            &&& db.spec_signature(free_function_id) matches Some(sig) && lowered_ok(
                f,
                sig.params@.len(),
            )
        },
        // the parameters become the first variables, in declaration order,
        // with the database's metadata for their types
        res matches Some(f) ==> (db.spec_signature(free_function_id) matches Some(sig)
            && forall|i: int|
            0 <= i < sig.params@.len() ==> f.variables@[i] == (Variable {
                droppable: db.spec_type_info((#[trigger] sig.params@[i]).ty).droppable,
                duplicatable: db.spec_type_info(sig.params@[i].ty).duplicatable,
                ty: sig.params@[i].ty,
            })),
        // the root block ends with the lowering of the body's tail: a
        // literal tail pins the last statement's exact value, a match tail
        // pins the unified enum-match shape
        res matches Some(f) ==> (db.spec_definition(free_function_id) matches Some(d)
            && d.exprs@[d.body as int] matches Expr::Block(b) && (b.tail matches Some(t) ==> {
            &&& (d.exprs@[t as int] matches Expr::Literal(l) ==> {
                &&& f.blocks@[f.root as int].statements@.len() > 0
                &&& f.blocks@[f.root as int].statements@.last() matches LoweredStatement::Literal(
                    sl,
                ) && sl.value == l.value
            })
            &&& (d.exprs@[t as int] matches Expr::Match(me) ==> (db.spec_enum_of(
                d.exprs@[me.matched_expr as int].ty(),
            ) matches Some(ed) && {
                &&& f.blocks@[f.root as int].statements@.len() > 0
                &&& f.blocks@[f.root as int].statements@.last()
                    matches LoweredStatement::MatchEnum(m) && {
                    &&& m.concrete_enum == ed.concrete_enum
                    &&& m.arms@.len() == ed.variants@.len()
                    &&& ed.variants@.len() == me.arms@.len()
                    &&& forall|i: int|
                        0 <= i < m.arms@.len() ==> (#[trigger] m.arms@[i]).variant
                            == ed.variants@[i]
                    &&& match_shape_ok(m)
                    &&& forall|i: int|
                        0 <= i < m.arms@.len() && d.exprs@[me.arms@[i].expression as int]
                            is Literal ==> {
                            let bs = f.blocks@[(#[trigger] m.arms@[i]).block_id
                                as int].statements@;
                            &&& bs.len() == 1
                            &&& bs[0] matches LoweredStatement::Literal(sl) && sl.value
                                == d.exprs@[me.arms@[i].expression as int]->Literal_0.value
                        }
                }
            }))
        })),
{
    let function_def = match assoc_get(&db.definitions, free_function_id) {
        Some(d) => d,
        None => {
            return None;
        },
    };
    proof {
        crate::varmap::lemma_assoc_find_entry(db.definitions@, free_function_id, *function_def);
        let w = choose|w: int|
            0 <= w < db.definitions@.len() && db.definitions@[w].0 == free_function_id
                && db.definitions@[w].1 == *function_def;
        assert((db.definitions@[w]).1.wf());
        assert(function_def.wf());
    }
    if assoc_get(&db.generic_params, free_function_id).is_none() {
        return None;
    }
    let signature = match assoc_get(&db.signatures, free_function_id) {
        Some(s) => s,
        None => {
            return None;
        },
    };
    if assoc_get(&db.implicits, free_function_id).is_none() {
        return None;
    }
    // the body must be a block expression
    let body_id = function_def.body;
    let expr_block = match &function_def.exprs[body_id] {
        Expr::Block(b) => b,
        _ => {
            return None;
        },
    };
    let mut ctx = LoweringContext {
        variables: Vec::new(),
        blocks: Vec::new(),
        diagnostics: Vec::new(),
    };
    let mut scope = LoweringBlockScope::new();
    proof {
        assert(ctx_inv(ctx));
    }
    // parameters become the first variables, bound in the root scope
    let mut i: usize = 0;
    while i < signature.params.len()
        invariant
            i <= signature.params@.len(),
            ctx_inv(ctx),
            ctx.variables@.len() == i,
            forall|j: int|
                0 <= j < i ==> ctx.variables@[j] == (Variable {
                    droppable: db.spec_type_info((#[trigger] signature.params@[j]).ty).droppable,
                    duplicatable: db.spec_type_info(signature.params@[j].ty).duplicatable,
                    ty: signature.params@[j].ty,
                }),
            ctx.blocks@.len() == 0,
            ctx.diagnostics@.len() == 0,
            scope.vars.wf(),
            forall|j: int| 0 <= j < scope.vars@.len() ==> ((#[trigger] scope.vars@[j]).1 as int)
                < i,
            scope.required_vars@.len() == 0,
            scope.statements@.len() == 0,
            scope.initial_vars@ =~= Set::<VariableId>::empty(),
        decreases signature.params@.len() - i,
    {
        let p = signature.params[i];
        let ghost vars0 = scope.vars;
        let vid = introduce_new_var(&mut ctx, db, p.ty);
        scope.vars.insert(p.id, vid);
        proof {
            assert forall|j: int| 0 <= j < scope.vars@.len() implies ((
            #[trigger] scope.vars@[j]).1 as int) < i + 1 by {
                if vars0.spec_contains(p.id) {
                    let w = choose|w: int|
                        0 <= w < vars0@.len() && vars0@[w].0 == p.id && scope.vars@ =~= vars0@
                            .update(w, (p.id, vid));
                    if j != w {
                        assert(scope.vars@[j] == vars0@[j]);
                    }
                } else {
                    if j < vars0@.len() {
                        assert(scope.vars@[j] == vars0@[j]);
                    }
                }
            }
        }
        i = i + 1;
    }
    let ghost nparams = signature.params@.len();
    proof {
        assert(ctx.variables@.len() == nparams);
    }
    scope.initial_vars = Ghost(Set::new(|v: VariableId| (v as int) < nparams));
    proof {
        // the fresh root scope satisfies its invariant
        assert(scope.required_vars.vals().to_set() =~= Set::<VariableId>::empty());
        assert(outputs_of(scope.statements@) =~= Set::<VariableId>::empty());
        assert(stmts_sound(scope.statements@, scope.entry()));
        assert forall|x: VariableId|
            scope.vars.vals().to_set().contains(x) implies scope.avail().contains(x) by {
            let j = choose|j: int| 0 <= j < scope.vars.vals().len() && scope.vars.vals()[j] == x;
            assert(((scope.vars@[j]).1 as int) < nparams);
            assert(scope.initial_vars@.contains(x));
        }
        assert(scope_inv(scope, ctx));
    }
    let ghost ctx_prelower = ctx;
    let ghost scope_prelower = scope;
    let r = lower_block(&mut ctx, db, function_def, &mut scope, expr_block, body_id);
    if r.is_none() {
        return None;
    }
    // a requirement the function itself cannot satisfy is a missing
    // variable: the root scope has no enclosing scope to resolve it
    let n_required = scope.required_vars.len();
    let ghost scope_fixed = scope;
    let ghost ctx_postlower = ctx;
    let mut j: usize = 0;
    while j < n_required
        invariant
            j <= n_required,
            n_required == scope_fixed.required_vars@.len(),
            scope == scope_fixed,
            ctx_inv(ctx),
            ctx_extends(ctx, ctx_postlower),
            ctx_extends(ctx_postlower, ctx_prelower),
            ctx.variables@ == ctx_postlower.variables@,
            ctx.blocks@ == ctx_postlower.blocks@,
            scope_inv(scope, ctx),
            j > 0 ==> ctx.diagnostics@.len() > 0,
        decreases n_required - j,
    {
        let sv = scope.required_vars.key_at(j);
        let ghost ctx_it = ctx;
        record_diagnostic(&mut ctx, LoweringDiagnostic::MissingVariable { var: sv });
        proof {
            lemma_ctx_extends_trans(ctx, ctx_it, ctx_postlower);
            lemma_scope_inv_extend(scope, ctx_it, ctx);
        }
        j = j + 1;
    }
    // the root block
    let root = ctx.blocks.len();
    let ghost ctx_preroot = ctx;
    let ghost scope_g = scope;
    let root_stmts = scope.statements;
    ctx.blocks.push(Block { statements: root_stmts });
    proof {
        let newb = ctx.blocks@.last();
        assert(newb.statements@ == scope_g.statements@);
        assert(ctx.blocks@ =~= ctx_preroot.blocks@.push(newb));
        assert forall|k: int|
            0 <= k < newb.statements@.len() implies {
            let s = #[trigger] newb.statements@[k];
            stmt_vars_below(s, ctx_preroot.nv()) && stmt_blocks_below(
                s,
                ctx_preroot.blocks@.len(),
            ) && match_ok(s, ctx_preroot.blocks@, ctx_preroot.clean())
        } by {
            assert(scope_inv(scope_g, ctx_preroot));
            assert(newb.statements@[k] == scope_g.statements@[k]);
        }
        lemma_blocks_ok_push(
            ctx_preroot.blocks@,
            newb,
            ctx_preroot.nv(),
            ctx_preroot.clean(),
        );
    }
    let result = LoweredFreeFunction {
        diagnostics: ctx.diagnostics,
        root,
        variables: ctx.variables,
        blocks: ctx.blocks,
    };
    proof {
        if result.diagnostics@.len() == 0 {
            // no residual requirements, so the root's entry is the
            // parameter set
            assert(scope_g.required_vars@.len() == 0);
            assert(scope_g.required_vars.vals().to_set() =~= Set::<VariableId>::empty());
            assert(scope_g.entry() =~= Set::new(|v: VariableId| (v as int) < nparams));
            assert(stmts_sound(
                result.blocks@[result.root as int].statements@,
                Set::new(|v: VariableId| (v as nat) < nparams),
            )) by {
                assert(result.blocks@[result.root as int].statements@ == scope_g.statements@);
                assert(Set::new(|v: VariableId| (v as nat) < nparams) =~= Set::new(
                    |v: VariableId| (v as int) < nparams,
                ));
            }
        }
        assert(lowered_ok(result, nparams as nat));
    }
    Some(result)
}

} // verus!

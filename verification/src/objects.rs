//! The lowered intermediate representation: variables, blocks and the closed
//! set of statement kinds, together with the spec-level notions used by the
//! lowering contracts: which variables a statement consumes and produces,
//! when a block is closed under its arenas, and when a statement sequence is
//! scope-sound.

use vstd::prelude::*;
use crate::semantic::{ConcreteEnumId, ConcreteVariant, FunctionId, TypeId};
use crate::varmap::VarMapping;
use crate::{BlockId, VariableId};

verus! {

/// A lowered variable: one SSA-like binding, immutable after creation.
#[derive(Clone, Copy, Debug, PartialEq, Eq, Structural)]
pub struct Variable {
    /// Can the type be (trivially) dropped.
    pub droppable: bool,
    /// Can the type be (trivially) duplicated.
    pub duplicatable: bool,
    /// Semantic type of the variable.
    pub ty: TypeId,
}

/// A block of statements, running one after the other in a linear flow.
/// A match statement inside a block has control flow logic inside, but once
/// it completes, the flow returns to the following statement of the block.
#[derive(Clone, Debug, PartialEq, Eq)]
pub struct Block {
    /// Statement sequence, in execution order.
    pub statements: Vec<LoweredStatement>,
}

/// Describes what happens to the program flow at the end of a block.
#[derive(Clone, Debug, PartialEq, Eq)]
pub enum BlockEnd {
    /// This block returns to the call site, outputting variables to it.
    Callsite(Vec<VariableId>),
    /// This block ends with a `return`, exiting the function.
    Return(Vec<VariableId>),
    /// The last statement ended the flow, and the end is unreachable.
    Unreachable,
}

/// A statement that binds a literal value to a variable.
#[derive(Clone, Debug, PartialEq, Eq)]
pub struct StatementLiteral {
    /// The exact value of the literal.
    pub value: i128,
    /// The variable to bind the value to.
    pub output: VariableId,
}

/// A statement that calls a user function.
#[derive(Clone, Debug, PartialEq, Eq)]
pub struct StatementCall {
    /// The function to call.
    pub function: FunctionId,
    /// Living variables in the current scope to move to the function.
    pub inputs: Vec<VariableId>,
    /// New variables introduced into the current scope from the outputs.
    pub outputs: Vec<VariableId>,
}

/// A statement that jumps to another block; if that block ends with a
/// call-site end, the flow returns to the statement following this one.
#[derive(Clone, Debug, PartialEq, Eq)]
pub struct StatementCallBlock {
    /// The block to call.
    pub block: BlockId,
    /// New variables moved from the callee block's outputs.
    pub outputs: Vec<VariableId>,
}

/// A statement that calls an external function with branches, calling a
/// possibly different block for each branch.
#[derive(Clone, Debug, PartialEq, Eq)]
pub struct StatementMatchExtern {
    /// The concrete external function to call.
    pub function: FunctionId,
    /// Living variables in the current scope to move to the function.
    pub inputs: Vec<VariableId>,
    /// One block per branch.
    pub arms: Vec<BlockId>,
    /// New variables introduced into the current scope from the arms.
    pub outputs: Vec<VariableId>,
}

/// A statement that constructs an enum variant from its single argument.
#[derive(Clone, Debug, PartialEq, Eq)]
pub struct StatementEnumConstruct {
    pub variant: ConcreteVariant,
    /// A living variable in the current scope to wrap with the variant.
    pub input: VariableId,
    /// The variable to bind the value to.
    pub output: VariableId,
}

/// One lowered arm of an enum match: the concrete variant, the block that
/// lowers the arm's body, and the mapping that carries each enclosing-scope
/// variable id to the arm-local id the block expects as input.
#[derive(Clone, Debug, PartialEq, Eq)]
pub struct MatchArm {
    pub variant: ConcreteVariant,
    pub block_id: BlockId,
    pub var_mapping: VarMapping,
}

/// A statement that matches an enum and calls one block per variant.
#[derive(Clone, Debug, PartialEq, Eq)]
pub struct StatementMatchEnum {
    pub concrete_enum: ConcreteEnumId,
    /// Enclosing-scope variables the arms require, deduplicated, in the
    /// order the requirements were first resolved.
    pub inputs: Vec<VariableId>,
    /// Match arms, in the enum's variant declaration order.
    pub arms: Vec<MatchArm>,
    /// The arm-local placeholders the arms are supplied with, deduplicated
    /// and in resolution order.
    pub outputs: Vec<VariableId>,
    /// The variable holding the match expression's own value.
    pub output: VariableId,
}

/// A statement that constructs a struct (tuples included).
#[derive(Clone, Debug, PartialEq, Eq)]
pub struct StatementStructConstruct {
    pub inputs: Vec<VariableId>,
    /// The variable to bind the value to.
    pub output: VariableId,
}

/// A statement that destructures a struct, introducing its members as new
/// variables.
#[derive(Clone, Debug, PartialEq, Eq)]
pub struct StatementStructDestructure {
    /// A living variable in the current scope to destructure.
    pub input: VariableId,
    /// The variables to bind the member values to.
    pub outputs: Vec<VariableId>,
}

/// A lowered statement. The variant set is closed: exactly these kinds.
#[derive(Clone, Debug, PartialEq, Eq)]
pub enum LoweredStatement {
    Literal(StatementLiteral),
    Call(StatementCall),
    CallBlock(StatementCallBlock),
    MatchExtern(StatementMatchExtern),
    StructConstruct(StatementStructConstruct),
    StructDestructure(StatementStructDestructure),
    EnumConstruct(StatementEnumConstruct),
    MatchEnum(StatementMatchEnum),
}

/// The variables a statement consumes: each must already be bound in scope.
pub open spec fn stmt_inputs(s: LoweredStatement) -> Seq<VariableId> {
    match s {
        LoweredStatement::Literal(st) => Seq::empty(),
        LoweredStatement::Call(st) => st.inputs@,
        LoweredStatement::CallBlock(st) => Seq::empty(),
        LoweredStatement::MatchExtern(st) => st.inputs@,
        LoweredStatement::StructConstruct(st) => st.inputs@,
        LoweredStatement::StructDestructure(st) => seq![st.input],
        LoweredStatement::EnumConstruct(st) => seq![st.input],
        LoweredStatement::MatchEnum(st) => st.inputs@,
    }
}

/// The variables a statement produces: each is fresh, produced exactly once.
pub open spec fn stmt_outputs(s: LoweredStatement) -> Seq<VariableId> {
    match s {
        LoweredStatement::Literal(st) => seq![st.output],
        LoweredStatement::Call(st) => st.outputs@,
        LoweredStatement::CallBlock(st) => st.outputs@,
        LoweredStatement::MatchExtern(st) => st.outputs@,
        LoweredStatement::StructConstruct(st) => seq![st.output],
        LoweredStatement::StructDestructure(st) => st.outputs@,
        LoweredStatement::EnumConstruct(st) => seq![st.output],
        LoweredStatement::MatchEnum(st) => st.outputs@.push(st.output),
    }
}

/// The blocks a statement refers to.
pub open spec fn stmt_block_refs(s: LoweredStatement) -> Seq<BlockId> {
    match s {
        LoweredStatement::CallBlock(st) => seq![st.block],
        LoweredStatement::MatchExtern(st) => st.arms@,
        LoweredStatement::MatchEnum(st) => st.arms@.map_values(|a: MatchArm| a.block_id),
        _ => Seq::empty(),
    }
}

/// All variable ids a statement mentions lie below `nv`: inputs, outputs,
/// and, for an enum match, both sides of every arm's mapping.
pub open spec fn stmt_vars_below(s: LoweredStatement, nv: nat) -> bool {
    &&& forall|i: int| 0 <= i < stmt_inputs(s).len() ==> (stmt_inputs(s)[i] as nat) < nv
    &&& forall|i: int| 0 <= i < stmt_outputs(s).len() ==> (stmt_outputs(s)[i] as nat) < nv
    &&& match s {
        LoweredStatement::MatchEnum(st) => forall|i: int, j: int|
            0 <= i < st.arms@.len() && 0 <= j < st.arms@[i].var_mapping@.len() ==> (
            st.arms@[i].var_mapping@[j].0 as nat) < nv && (st.arms@[i].var_mapping@[j].1 as nat)
                < nv,
        _ => true,
    }
}

/// All block ids a statement refers to lie below `nb`.
pub open spec fn stmt_blocks_below(s: LoweredStatement, nb: nat) -> bool {
    forall|i: int| 0 <= i < stmt_block_refs(s).len() ==> (stmt_block_refs(s)[i] as nat) < nb
}

/// The set of variables produced by a statement sequence.
pub open spec fn outputs_of(stmts: Seq<LoweredStatement>) -> Set<VariableId>
    decreases stmts.len(),
{
    if stmts.len() == 0 {
        Set::empty()
    } else {
        outputs_of(stmts.drop_last()).union(stmt_outputs(stmts.last()).to_set())
    }
}

/// Scope soundness of a statement sequence: every input of the `i`-th
/// statement is in the entry set or was produced by a strictly earlier
/// statement of the sequence.
pub open spec fn stmts_sound(stmts: Seq<LoweredStatement>, entry: Set<VariableId>) -> bool {
    forall|i: int|
        0 <= i < stmts.len() ==> stmt_inputs(#[trigger] stmts[i]).to_set() <= entry.union(
            outputs_of(stmts.take(i)),
        )
}

/// First-occurrence deduplication of an id sequence.
pub open spec fn seq_dedup(s: Seq<VariableId>) -> Seq<VariableId>
    decreases s.len(),
{
    if s.len() == 0 {
        Seq::empty()
    } else {
        let d = seq_dedup(s.drop_last());
        if d.contains(s.last()) {
            d
        } else {
            d.push(s.last())
        }
    }
}

/// Deduplication keeps membership.
pub proof fn lemma_seq_dedup_contains(s: Seq<VariableId>, x: VariableId)
    ensures
        seq_dedup(s).contains(x) <==> s.contains(x),
    decreases s.len(),
{
    if s.len() > 0 {
        lemma_seq_dedup_contains(s.drop_last(), x);
        let d = seq_dedup(s.drop_last());
        // Forward: membership in the source gives membership in the result.
        if s.contains(x) {
            let i = choose|i: int| 0 <= i < s.len() && s[i] == x;
            if i < s.len() - 1 {
                assert(s.drop_last()[i] == x);
                assert(s.drop_last().contains(x));
                if !d.contains(s.last()) {
                    assert(d.push(s.last()).contains(x)) by {
                        let j = choose|j: int| 0 <= j < d.len() && d[j] == x;
                        assert(d.push(s.last())[j] == x);
                    }
                }
            } else {
                assert(x == s.last());
                if !d.contains(s.last()) {
                    assert(d.push(s.last())[d.len() as int] == x);
                }
            }
        }
        // Backward: everything in the result comes from the source.
        if seq_dedup(s).contains(x) {
            if d.contains(s.last()) {
                assert(s.drop_last().contains(x));
                let j = choose|j: int| 0 <= j < s.drop_last().len() && s.drop_last()[j] == x;
                assert(s[j] == x);
            } else {
                let j = choose|j: int|
                    0 <= j < d.push(s.last()).len() && d.push(s.last())[j] == x;
                if j < d.len() {
                    assert(d[j] == x);
                    assert(s.drop_last().contains(x));
                    let l = choose|l: int| 0 <= l < s.drop_last().len() && s.drop_last()[l] == x;
                    assert(s[l] == x);
                } else {
                    assert(x == s.last());
                    assert(s[s.len() - 1] == x);
                }
            }
        }
    }
}

/// Deduplication and append: one new element at the end.
pub proof fn lemma_seq_dedup_push(s: Seq<VariableId>, x: VariableId)
    ensures
        seq_dedup(s.push(x)) == if seq_dedup(s).contains(x) {
            seq_dedup(s)
        } else {
            seq_dedup(s).push(x)
        },
{
    assert(s.push(x).drop_last() =~= s);
    assert(s.push(x).last() == x);
}

/// Appending a statement does not change what earlier prefixes produced.
pub proof fn lemma_outputs_of_take_push(stmts: Seq<LoweredStatement>, s: LoweredStatement, i: int)
    requires
        0 <= i <= stmts.len(),
    ensures
        outputs_of(stmts.push(s).take(i)) == outputs_of(stmts.take(i)),
{
    assert(stmts.push(s).take(i) =~= stmts.take(i));
}

/// What a whole sequence produces, unfolded over an append.
pub proof fn lemma_outputs_of_push(stmts: Seq<LoweredStatement>, s: LoweredStatement)
    ensures
        outputs_of(stmts.push(s)) == outputs_of(stmts).union(stmt_outputs(s).to_set()),
{
    assert(stmts.push(s).drop_last() =~= stmts);
    assert(stmts.push(s).last() == s);
}

/// Soundness is preserved by appending a statement whose inputs are
/// available after the whole sequence.
pub proof fn lemma_stmts_sound_push(
    stmts: Seq<LoweredStatement>,
    s: LoweredStatement,
    entry: Set<VariableId>,
)
    requires
        stmts_sound(stmts, entry),
        stmt_inputs(s).to_set() <= entry.union(outputs_of(stmts)),
    ensures
        stmts_sound(stmts.push(s), entry),
{
    let post = stmts.push(s);
    assert forall|i: int|
        0 <= i < post.len() implies stmt_inputs(#[trigger] post[i]).to_set() <= entry.union(
        outputs_of(post.take(i)),
    ) by {
        if i < stmts.len() {
            lemma_outputs_of_take_push(stmts, s, i);
            assert(post[i] == stmts[i]);
        } else {
            assert(post[i] == s);
            lemma_outputs_of_take_push(stmts, s, stmts.len() as int);
            assert(post.take(i) =~= stmts);
        }
    }
}

/// The enclosing-scope ids required across a sequence of arms, in arm
/// order, each arm's in its mapping's resolution order.
pub open spec fn arms_keys(arms: Seq<MatchArm>) -> Seq<VariableId>
    decreases arms.len(),
{
    if arms.len() == 0 {
        Seq::empty()
    } else {
        arms_keys(arms.drop_last()) + arms.last().var_mapping.keys()
    }
}

/// The arm-local placeholder ids supplied across a sequence of arms.
pub open spec fn arms_vals(arms: Seq<MatchArm>) -> Seq<VariableId>
    decreases arms.len(),
{
    if arms.len() == 0 {
        Seq::empty()
    } else {
        arms_vals(arms.drop_last()) + arms.last().var_mapping.vals()
    }
}

/// Unfolds the concatenated keys over an appended arm.
pub proof fn lemma_arms_keys_push(arms: Seq<MatchArm>, a: MatchArm)
    ensures
        arms_keys(arms.push(a)) == arms_keys(arms) + a.var_mapping.keys(),
{
    assert(arms.push(a).drop_last() =~= arms);
    assert(arms.push(a).last() == a);
}

/// Unfolds the concatenated values over an appended arm.
pub proof fn lemma_arms_vals_push(arms: Seq<MatchArm>, a: MatchArm)
    ensures
        arms_vals(arms.push(a)) == arms_vals(arms) + a.var_mapping.vals(),
{
    assert(arms.push(a).drop_last() =~= arms);
    assert(arms.push(a).last() == a);
}

/// Membership in the concatenated keys is membership in some arm's keys.
pub proof fn lemma_arms_keys_contains(arms: Seq<MatchArm>, x: VariableId)
    ensures
        arms_keys(arms).contains(x) <==> exists|i: int|
            0 <= i < arms.len() && (#[trigger] arms[i]).var_mapping.keys().contains(x),
    decreases arms.len(),
{
    if arms.len() > 0 {
        lemma_arms_keys_contains(arms.drop_last(), x);
        if arms_keys(arms).contains(x) {
            if arms_keys(arms.drop_last()).contains(x) {
                let i = choose|i: int|
                    0 <= i < arms.drop_last().len() && (#[trigger] arms.drop_last()[i]).var_mapping.keys().contains(x);
                assert(arms[i].var_mapping.keys().contains(x));
            } else {
                assert(arms[arms.len() - 1].var_mapping.keys().contains(x));
            }
        }
        if exists|i: int| 0 <= i < arms.len() && (#[trigger] arms[i]).var_mapping.keys().contains(x) {
            let i = choose|i: int|
                0 <= i < arms.len() && (#[trigger] arms[i]).var_mapping.keys().contains(x);
            let pre = arms_keys(arms.drop_last());
            let lastk = arms.last().var_mapping.keys();
            if i < arms.len() - 1 {
                assert(arms.drop_last()[i] == arms[i]);
                assert(arms_keys(arms.drop_last()).contains(x));
                let j = choose|j: int| 0 <= j < pre.len() && pre[j] == x;
                assert((pre + lastk)[j] == x);
            } else {
                assert(arms.last() == arms[i]);
                let j = choose|j: int| 0 <= j < lastk.len() && lastk[j] == x;
                assert((pre + lastk)[pre.len() + j] == x);
            }
            assert(arms_keys(arms).contains(x));
        }
    }
}

/// Membership in the concatenated values is membership in some arm's values.
pub proof fn lemma_arms_vals_contains(arms: Seq<MatchArm>, x: VariableId)
    ensures
        arms_vals(arms).contains(x) <==> exists|i: int|
            0 <= i < arms.len() && (#[trigger] arms[i]).var_mapping.vals().contains(x),
    decreases arms.len(),
{
    if arms.len() > 0 {
        lemma_arms_vals_contains(arms.drop_last(), x);
        if arms_vals(arms).contains(x) {
            if arms_vals(arms.drop_last()).contains(x) {
                let i = choose|i: int|
                    0 <= i < arms.drop_last().len() && (#[trigger] arms.drop_last()[i]).var_mapping.vals().contains(x);
                assert(arms[i].var_mapping.vals().contains(x));
            } else {
                assert(arms[arms.len() - 1].var_mapping.vals().contains(x));
            }
        }
        if exists|i: int| 0 <= i < arms.len() && (#[trigger] arms[i]).var_mapping.vals().contains(x) {
            let i = choose|i: int|
                0 <= i < arms.len() && (#[trigger] arms[i]).var_mapping.vals().contains(x);
            let pre = arms_vals(arms.drop_last());
            let lastv = arms.last().var_mapping.vals();
            if i < arms.len() - 1 {
                assert(arms.drop_last()[i] == arms[i]);
                assert(arms_vals(arms.drop_last()).contains(x));
                let j = choose|j: int| 0 <= j < pre.len() && pre[j] == x;
                assert((pre + lastv)[j] == x);
            } else {
                assert(arms.last() == arms[i]);
                let j = choose|j: int| 0 <= j < lastv.len() && lastv[j] == x;
                assert((pre + lastv)[pre.len() + j] == x);
            }
            assert(arms_vals(arms).contains(x));
        }
    }
}

/// The set view of an appended sequence.
pub proof fn lemma_push_to_set(s: Seq<VariableId>, x: VariableId)
    ensures
        s.push(x).to_set() =~= s.to_set().insert(x),
{
    assert forall|y: VariableId|
        s.push(x).to_set().contains(y) implies s.to_set().insert(x).contains(y) by {
        let j = choose|j: int| 0 <= j < s.push(x).len() && s.push(x)[j] == y;
        if j < s.len() {
            assert(s[j] == y);
        }
    }
    assert forall|y: VariableId|
        s.to_set().insert(x).contains(y) implies s.push(x).to_set().contains(y) by {
        if y == x {
            assert(s.push(x)[s.len() as int] == y);
        } else {
            let j = choose|j: int| 0 <= j < s.len() && s[j] == y;
            assert(s.push(x)[j] == y);
        }
    }
}

/// A prefix of a sequence produces a subset of what the sequence produces.
pub proof fn lemma_outputs_of_prefix(s1: Seq<LoweredStatement>, s2: Seq<LoweredStatement>)
    requires
        s1.is_prefix_of(s2),
    ensures
        outputs_of(s1) <= outputs_of(s2),
    decreases s2.len(),
{
    if s1.len() < s2.len() {
        assert(s1.is_prefix_of(s2.drop_last()));
        lemma_outputs_of_prefix(s1, s2.drop_last());
    } else {
        assert(s1 =~= s2);
    }
}

/// Soundness is preserved by widening the entry set.
pub proof fn lemma_stmts_sound_widen(
    stmts: Seq<LoweredStatement>,
    entry: Set<VariableId>,
    wider: Set<VariableId>,
)
    requires
        stmts_sound(stmts, entry),
        entry <= wider,
    ensures
        stmts_sound(stmts, wider),
{
    assert forall|i: int|
        0 <= i < stmts.len() implies stmt_inputs(#[trigger] stmts[i]).to_set() <= wider.union(
        outputs_of(stmts.take(i)),
    ) by {
        assert(stmt_inputs(stmts[i]).to_set() <= entry.union(outputs_of(stmts.take(i))));
    }
}

} // verus!

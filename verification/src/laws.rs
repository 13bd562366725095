//! The guarantees a lowered function carries, stated on their own: arena
//! closure, scope soundness, match-arm unification completeness and arm
//! isolation. Each follows from the predicate `lowered_ok` that
//! `lower_free_function` establishes.

use vstd::prelude::*;
use crate::lower::{
    arm_ok, block_ok, lowered_ok, match_ok, match_shape_ok, LoweredFreeFunction,
};
use crate::objects::{
    arms_keys, arms_vals, lemma_arms_keys_contains, lemma_arms_vals_contains,
    lemma_seq_dedup_contains, seq_dedup, stmt_blocks_below, stmt_vars_below, stmts_sound,
    StatementMatchEnum,
};
use crate::VariableId;

verus! {

/// Arena closure: in a lowered function, every variable id any statement
/// mentions is allocated in the variable arena, and every block id any
/// statement refers to is allocated in the block arena — and refers
/// strictly backwards, so the block graph is acyclic.
pub proof fn lemma_arena_closure(f: LoweredFreeFunction, nparams: nat)
    requires
        lowered_ok(f, nparams),
    ensures
        (f.root as int) < f.blocks@.len(),
        forall|j: int, k: int|
            0 <= j < f.blocks@.len() && 0 <= k < f.blocks@[j].statements@.len() ==> {
                let s = #[trigger] f.blocks@[j].statements@[k];
                stmt_vars_below(s, f.variables@.len()) && stmt_blocks_below(s, j as nat)
            },
{
    assert forall|j: int, k: int|
        0 <= j < f.blocks@.len() && 0 <= k < f.blocks@[j].statements@.len() implies {
        let s = #[trigger] f.blocks@[j].statements@[k];
        stmt_vars_below(s, f.variables@.len()) && stmt_blocks_below(s, j as nat)
    } by {
        assert(block_ok(f.blocks@, j, f.variables@.len(), f.diagnostics@.len() == 0));
    }
}

/// Scope soundness: when lowering finished without diagnostics, every
/// input of every statement was produced by a strictly earlier statement
/// of the same block or supplied from outside — the function's parameters
/// for the root block, the arm's unification mapping for an arm block.
/// Never by a later or sibling-branch statement.
pub proof fn lemma_scope_soundness(f: LoweredFreeFunction, nparams: nat)
    requires
        lowered_ok(f, nparams),
        f.diagnostics@.len() == 0,
    ensures
        stmts_sound(
            f.blocks@[f.root as int].statements@,
            Set::new(|v: VariableId| (v as nat) < nparams),
        ),
        forall|j: int, k: int, i: int|
            #![trigger f.blocks@[j].statements@[k]->MatchEnum_0.arms@[i]]
            0 <= j < f.blocks@.len() && 0 <= k < f.blocks@[j].statements@.len()
                && f.blocks@[j].statements@[k] is MatchEnum && 0 <= i
                < f.blocks@[j].statements@[k]->MatchEnum_0.arms@.len() ==> {
                let a = f.blocks@[j].statements@[k]->MatchEnum_0.arms@[i];
                stmts_sound(
                    f.blocks@[a.block_id as int].statements@,
                    a.var_mapping.vals().to_set(),
                )
            },
{
    assert forall|j: int, k: int, i: int|
        0 <= j < f.blocks@.len() && 0 <= k < f.blocks@[j].statements@.len() && f.blocks@[j]
            .statements@[k] is MatchEnum && 0 <= i
            < f.blocks@[j].statements@[k]->MatchEnum_0.arms@.len() implies {
        let a = #[trigger] f.blocks@[j].statements@[k]->MatchEnum_0.arms@[i];
        stmts_sound(f.blocks@[a.block_id as int].statements@, a.var_mapping.vals().to_set())
    } by {
        assert(block_ok(f.blocks@, j, f.variables@.len(), true));
        let s = f.blocks@[j].statements@[k];
        assert(stmt_vars_below(s, f.variables@.len()) && stmt_blocks_below(s, j as nat)
            && match_ok(s, f.blocks@, true));
        assert(arm_ok(s->MatchEnum_0.arms@[i], f.blocks@, true));
    }
}

/// Match unification completeness: in every enum-match statement of a
/// lowered function, the unified inputs are exactly the union of the arms'
/// mapping keys, and the unified outputs exactly the union of the arms'
/// mapping values — dropping any arm's resolved requirement would lose an
/// id some arm is mapped from, and nothing enters the vectors from
/// anywhere but an arm's mapping.
pub proof fn lemma_match_unification_completeness(m: StatementMatchEnum)
    requires
        match_shape_ok(m),
    ensures
        forall|i: int, x: VariableId|
            #![trigger m.arms@[i].var_mapping.keys().to_set().contains(x)]
            0 <= i < m.arms@.len() && m.arms@[i].var_mapping.keys().to_set().contains(x)
                ==> m.inputs@.to_set().contains(x),
        forall|x: VariableId| #[trigger]
            m.inputs@.to_set().contains(x) ==> exists|i: int|
                0 <= i < m.arms@.len() && (#[trigger] m.arms@[i]).var_mapping.keys().to_set()
                    .contains(x),
        forall|i: int, x: VariableId|
            #![trigger m.arms@[i].var_mapping.vals().to_set().contains(x)]
            0 <= i < m.arms@.len() && m.arms@[i].var_mapping.vals().to_set().contains(x)
                ==> m.outputs@.to_set().contains(x),
        forall|x: VariableId| #[trigger]
            m.outputs@.to_set().contains(x) ==> exists|i: int|
                0 <= i < m.arms@.len() && (#[trigger] m.arms@[i]).var_mapping.vals().to_set()
                    .contains(x),
{
    assert forall|i: int, x: VariableId|
        0 <= i < m.arms@.len() && m.arms@[i].var_mapping.keys().to_set().contains(
            x,
        ) implies m.inputs@.to_set().contains(x) by {
        lemma_seq_dedup_contains(arms_keys(m.arms@), x);
        lemma_arms_keys_contains(m.arms@, x);
        assert(m.inputs@ == seq_dedup(arms_keys(m.arms@)));
        assert(seq_dedup(arms_keys(m.arms@)).contains(x));
        assert(m.inputs@.to_set().contains(x)) by {
            let w = choose|w: int| 0 <= w < m.inputs@.len() && m.inputs@[w] == x;
            assert(m.inputs@[w] == x);
        }
    }
    assert forall|x: VariableId| #[trigger]
        m.inputs@.to_set().contains(x) implies exists|i: int|
        0 <= i < m.arms@.len() && (#[trigger] m.arms@[i]).var_mapping.keys().to_set().contains(
            x,
        ) by {
        let w = choose|w: int| 0 <= w < m.inputs@.len() && m.inputs@[w] == x;
        assert(seq_dedup(arms_keys(m.arms@)).contains(x));
        lemma_seq_dedup_contains(arms_keys(m.arms@), x);
        lemma_arms_keys_contains(m.arms@, x);
        let i = choose|i: int|
            0 <= i < m.arms@.len() && (#[trigger] m.arms@[i]).var_mapping.keys().contains(x);
        let a = choose|a: int|
            0 <= a < m.arms@[i].var_mapping.keys().len() && m.arms@[i].var_mapping.keys()[a] == x;
        assert(m.arms@[i].var_mapping.keys().to_set().contains(x));
    }
    assert forall|i: int, x: VariableId|
        0 <= i < m.arms@.len() && m.arms@[i].var_mapping.vals().to_set().contains(
            x,
        ) implies m.outputs@.to_set().contains(x) by {
        lemma_seq_dedup_contains(arms_vals(m.arms@), x);
        lemma_arms_vals_contains(m.arms@, x);
        assert(m.outputs@ == seq_dedup(arms_vals(m.arms@)));
        assert(seq_dedup(arms_vals(m.arms@)).contains(x));
        assert(m.outputs@.to_set().contains(x)) by {
            let w = choose|w: int| 0 <= w < m.outputs@.len() && m.outputs@[w] == x;
            assert(m.outputs@[w] == x);
        }
    }
    assert forall|x: VariableId| #[trigger]
        m.outputs@.to_set().contains(x) implies exists|i: int|
        0 <= i < m.arms@.len() && (#[trigger] m.arms@[i]).var_mapping.vals().to_set().contains(
            x,
        ) by {
        let w = choose|w: int| 0 <= w < m.outputs@.len() && m.outputs@[w] == x;
        assert(seq_dedup(arms_vals(m.arms@)).contains(x));
        lemma_seq_dedup_contains(arms_vals(m.arms@), x);
        lemma_arms_vals_contains(m.arms@, x);
        let i = choose|i: int|
            0 <= i < m.arms@.len() && (#[trigger] m.arms@[i]).var_mapping.vals().contains(x);
        let a = choose|a: int|
            0 <= a < m.arms@[i].var_mapping.vals().len() && m.arms@[i].var_mapping.vals()[a] == x;
        assert(m.arms@[i].var_mapping.vals().to_set().contains(x));
    }
}

/// Every enum-match statement of a lowered function has the unified shape,
/// so the completeness and isolation laws apply to each of them.
pub proof fn lemma_lowered_matches_shaped(f: LoweredFreeFunction, nparams: nat)
    requires
        lowered_ok(f, nparams),
    ensures
        forall|j: int, k: int|
            0 <= j < f.blocks@.len() && 0 <= k < f.blocks@[j].statements@.len() && (
            #[trigger] f.blocks@[j].statements@[k]) is MatchEnum ==> match_shape_ok(
                f.blocks@[j].statements@[k]->MatchEnum_0,
            ),
{
    assert forall|j: int, k: int|
        0 <= j < f.blocks@.len() && 0 <= k < f.blocks@[j].statements@.len() && (
        #[trigger] f.blocks@[j].statements@[k]) is MatchEnum implies match_shape_ok(
        f.blocks@[j].statements@[k]->MatchEnum_0,
    ) by {
        assert(block_ok(f.blocks@, j, f.variables@.len(), f.diagnostics@.len() == 0));
        let s = f.blocks@[j].statements@[k];
        assert(stmt_vars_below(s, f.variables@.len()) && stmt_blocks_below(s, j as nat)
            && match_ok(s, f.blocks@, f.diagnostics@.len() == 0));
    }
}

/// Arm isolation: in every enum-match statement with the unified shape, a
/// variable supplied to one arm is never supplied to another, and no arm's
/// requirement is satisfied by a variable another arm introduced — the
/// mapped-from ids and the supplied ids of all arms are pairwise disjoint
/// across arms.
pub proof fn lemma_arm_isolation(m: StatementMatchEnum)
    requires
        match_shape_ok(m),
    ensures
        forall|i: int, j: int|
            0 <= i < m.arms@.len() && 0 <= j < m.arms@.len() && i != j
                ==> m.arms@[i].var_mapping.vals().to_set().disjoint(
                m.arms@[j].var_mapping.vals().to_set(),
            ),
        forall|i: int, j: int|
            0 <= i < m.arms@.len() && 0 <= j < m.arms@.len()
                ==> m.arms@[i].var_mapping.keys().to_set().disjoint(
                m.arms@[j].var_mapping.vals().to_set(),
            ),
{
    assert forall|i: int, j: int|
        0 <= i < m.arms@.len() && 0 <= j < m.arms@.len() && i != j implies m.arms@[i].var_mapping
        .vals()
        .to_set()
        .disjoint(m.arms@[j].var_mapping.vals().to_set()) by {
        if i < j {
        } else {
            let a = m.arms@[j].var_mapping.vals().to_set();
            let b = m.arms@[i].var_mapping.vals().to_set();
            assert(a.disjoint(b));
            assert forall|x: VariableId| !(b.contains(x) && a.contains(x)) by {}
            assert(b.disjoint(a));
        }
    }
}

} // verus!

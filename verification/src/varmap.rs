//! Small ordered maps used by lowering scopes and match arms.
//!
//! Both maps keep their entries in first-insertion order, which is what
//! gives lowering a deterministic order for the unified input and output
//! vectors of a match statement.

use vstd::prelude::*;
use crate::semantic::{assoc_find, SemVarId};
use crate::VariableId;

verus! {

/// First value associated with `k` in a sequence of id pairs.
pub open spec fn assoc_find_id(s: Seq<(VariableId, VariableId)>, k: VariableId) -> Option<
    VariableId,
>
    decreases s.len(),
{
    if s.len() == 0 {
        None
    } else if s[0].0 == k {
        Some(s[0].1)
    } else {
        assoc_find_id(s.drop_first(), k)
    }
}

/// `assoc_find` returns the value at the first index holding `k`.
pub proof fn lemma_assoc_find_at<T>(s: Seq<(u64, T)>, k: u64, i: int)
    requires
        0 <= i < s.len(),
        s[i].0 == k,
        forall|j: int| 0 <= j < i ==> s[j].0 != k,
    ensures
        assoc_find(s, k) == Some(s[i].1),
    decreases i,
{
    if i > 0 {
        lemma_assoc_find_at(s.drop_first(), k, i - 1);
    }
}

/// A sequence without `k` answers no lookup for it.
pub proof fn lemma_assoc_find_absent<T>(s: Seq<(u64, T)>, k: u64)
    requires
        forall|j: int| 0 <= j < s.len() ==> s[j].0 != k,
    ensures
        assoc_find(s, k) is None,
    decreases s.len(),
{
    if s.len() > 0 {
        lemma_assoc_find_absent(s.drop_first(), k);
    }
}

/// Appending an entry changes only the lookup of a key not yet present.
pub proof fn lemma_assoc_find_push<T>(s: Seq<(u64, T)>, p: (u64, T), k: u64)
    ensures
        assoc_find(s.push(p), k) == if assoc_find(s, k) is Some {
            assoc_find(s, k)
        } else if p.0 == k {
            Some(p.1)
        } else {
            None::<T>
        },
    decreases s.len(),
{
    assert(s.push(p).len() == s.len() + 1);
    if s.len() == 0 {
        assert(s.push(p)[0] == p);
        assert(assoc_find(s, k) is None);
        let e = s.push(p).drop_first();
        assert(e =~= Seq::<(u64, T)>::empty());
        assert(assoc_find(e, k) == None::<T>);
        if p.0 == k {
            assert(assoc_find(s.push(p), k) == Some(p.1));
        } else {
            assert(assoc_find(s.push(p), k) == assoc_find(e, k));
        }
    } else {
        assert(s.push(p)[0] == s[0]);
        assert(s.push(p).drop_first() =~= s.drop_first().push(p));
        lemma_assoc_find_push(s.drop_first(), p, k);
        if s[0].0 == k {
            assert(assoc_find(s, k) == Some(s[0].1));
            assert(assoc_find(s.push(p), k) == Some(s[0].1));
        } else {
            assert(assoc_find(s, k) == assoc_find(s.drop_first(), k));
            assert(assoc_find(s.push(p), k) == assoc_find(s.drop_first().push(p), k));
        }
    }
}

/// Updating the value at index `i` rewrites the lookup of that entry's key
/// when no earlier entry shadows it, and no other key's lookup.
pub proof fn lemma_assoc_find_update<T>(s: Seq<(u64, T)>, i: int, v: T, k: u64)
    requires
        0 <= i < s.len(),
        forall|j: int| 0 <= j < i ==> s[j].0 != s[i].0,
    ensures
        assoc_find(s.update(i, (s[i].0, v)), k) == if k == s[i].0 {
            Some(v)
        } else {
            assoc_find(s, k)
        },
    decreases i,
{
    if i == 0 {
        assert(s.update(0, (s[0].0, v))[0] == (s[0].0, v));
        if k != s[0].0 {
            assert(s.update(0, (s[0].0, v)).drop_first() =~= s.drop_first());
        }
    } else {
        assert(s.update(i, (s[i].0, v)).drop_first() =~= s.drop_first().update(
            i - 1,
            (s.drop_first()[i - 1].0, v),
        ));
        lemma_assoc_find_update(s.drop_first(), i - 1, v, k);
    }
}

/// The id-pair analogues of the lemmas above.
pub proof fn lemma_assoc_find_id_at(s: Seq<(VariableId, VariableId)>, k: VariableId, i: int)
    requires
        0 <= i < s.len(),
        s[i].0 == k,
        forall|j: int| 0 <= j < i ==> s[j].0 != k,
    ensures
        assoc_find_id(s, k) == Some(s[i].1),
    decreases i,
{
    if i > 0 {
        lemma_assoc_find_id_at(s.drop_first(), k, i - 1);
    }
}

pub proof fn lemma_assoc_find_id_absent(s: Seq<(VariableId, VariableId)>, k: VariableId)
    requires
        forall|j: int| 0 <= j < s.len() ==> s[j].0 != k,
    ensures
        assoc_find_id(s, k) is None,
    decreases s.len(),
{
    if s.len() > 0 {
        lemma_assoc_find_id_absent(s.drop_first(), k);
    }
}

pub proof fn lemma_assoc_find_id_push(
    s: Seq<(VariableId, VariableId)>,
    p: (VariableId, VariableId),
    k: VariableId,
)
    ensures
        assoc_find_id(s.push(p), k) == if assoc_find_id(s, k) is Some {
            assoc_find_id(s, k)
        } else if p.0 == k {
            Some(p.1)
        } else {
            None::<VariableId>
        },
    decreases s.len(),
{
    assert(s.push(p).len() == s.len() + 1);
    if s.len() == 0 {
        assert(s.push(p)[0] == p);
        assert(assoc_find_id(s, k) is None);
        let e = s.push(p).drop_first();
        assert(e =~= Seq::<(VariableId, VariableId)>::empty());
        assert(assoc_find_id(e, k) == None::<VariableId>);
        if p.0 == k {
            assert(assoc_find_id(s.push(p), k) == Some(p.1));
        } else {
            assert(assoc_find_id(s.push(p), k) == assoc_find_id(e, k));
        }
    } else {
        assert(s.push(p)[0] == s[0]);
        assert(s.push(p).drop_first() =~= s.drop_first().push(p));
        lemma_assoc_find_id_push(s.drop_first(), p, k);
        if s[0].0 == k {
            assert(assoc_find_id(s, k) == Some(s[0].1));
            assert(assoc_find_id(s.push(p), k) == Some(s[0].1));
        } else {
            assert(assoc_find_id(s, k) == assoc_find_id(s.drop_first(), k));
            assert(assoc_find_id(s.push(p), k) == assoc_find_id(s.drop_first().push(p), k));
        }
    }
}

/// Maps source-level variables to lowered variable ids, in first-insertion
/// order. Keys are unique; inserting an existing key rewrites its value in
/// place.
#[derive(Clone, Debug, PartialEq, Eq)]
pub struct SemVarMap {
    entries: Vec<(SemVarId, VariableId)>,
}

impl SemVarMap {
    /// The entries, in order.
    pub closed spec fn view(self) -> Seq<(SemVarId, VariableId)> {
        self.entries@
    }

    /// The keys, in first-insertion order.
    pub open spec fn keys(self) -> Seq<SemVarId> {
        self@.map_values(|p: (SemVarId, VariableId)| p.0)
    }

    /// The values, in key order.
    pub open spec fn vals(self) -> Seq<VariableId> {
        self@.map_values(|p: (SemVarId, VariableId)| p.1)
    }

    /// The value stored under `k`, if any.
    pub open spec fn spec_get(self, k: SemVarId) -> Option<VariableId> {
        assoc_find(self@, k)
    }

    /// Whether some value is stored under `k`.
    pub open spec fn spec_contains(self, k: SemVarId) -> bool {
        self.spec_get(k) is Some
    }

    /// Keys are pairwise distinct.
    pub open spec fn wf(self) -> bool {
        forall|i: int, j: int|
            0 <= i < j < self@.len() ==> self@[i].0 != self@[j].0
    }

    /// In a well-formed map every entry answers its own key's lookup.
    pub proof fn lemma_entry_found(self, i: int)
        requires
            self.wf(),
            0 <= i < self@.len(),
        ensures
            self.spec_get(self@[i].0) == Some(self@[i].1),
    {
        lemma_assoc_find_at(self@, self@[i].0, i);
    }

    /// An empty map.
    pub fn new() -> (m: SemVarMap)
        ensures
            m@ =~= Seq::<(SemVarId, VariableId)>::empty(),
            m.wf(),
    {
        SemVarMap { entries: Vec::new() }
    }

    /// Number of entries.
    pub fn len(&self) -> (n: usize)
        ensures
            n == self@.len(),
    {
        self.entries.len()
    }

    /// The key of the `i`-th entry.
    pub fn key_at(&self, i: usize) -> (k: SemVarId)
        requires
            i < self@.len(),
        ensures
            k == self.keys()[i as int],
    {
        self.entries[i].0
    }

    /// The value of the `i`-th entry.
    pub fn val_at(&self, i: usize) -> (v: VariableId)
        requires
            i < self@.len(),
        ensures
            v == self.vals()[i as int],
    {
        self.entries[i].1
    }

    /// Looks a key up.
    pub fn get(&self, k: SemVarId) -> (res: Option<VariableId>)
        ensures
            res == self.spec_get(k),
    {
        match crate::semantic::assoc_get(&self.entries, k) {
            Some(v) => Some(*v),
            None => None,
        }
    }

    /// Whether the map holds `k`.
    pub fn contains_key(&self, k: SemVarId) -> (res: bool)
        ensures
            res == self.spec_contains(k),
    {
        self.get(k).is_some()
    }

    /// Binds `k` to `v`: appends a new entry for a new key, rewrites the
    /// value in place for an existing one.
    pub fn insert(&mut self, k: SemVarId, v: VariableId)
        requires
            old(self).wf(),
        ensures
            final(self).wf(),
            final(self).spec_get(k) == Some(v),
            forall|k2: SemVarId| k2 != k ==> final(self).spec_get(k2) == old(self).spec_get(k2),
            old(self).spec_contains(k) ==> {
                &&& final(self).keys() =~= old(self).keys()
                &&& exists|i: int|
                    0 <= i < old(self)@.len() && old(self)@[i].0 == k && final(self)@ =~= old(
                        self,
                    )@.update(i, (k, v))
            },
            !old(self).spec_contains(k) ==> final(self)@ =~= old(self)@.push((k, v)),
            final(self).vals().to_set() <= old(self).vals().to_set().insert(v),
    {
        let ghost pre = self@;
        let mut i: usize = 0;
        while i < self.entries.len()
            invariant
                pre == old(self)@,
                old(self).wf(),
                self@ == pre,
                i <= pre.len(),
                forall|j: int| 0 <= j < i ==> pre[j].0 != k,
            decreases pre.len() - i,
        {
            if self.entries[i].0 == k {
                proof {
                    lemma_assoc_find_at(pre, k, i as int);
                }
                self.entries[i] = (k, v);
                proof {
                    assert(self@ =~= pre.update(i as int, (pre[i as int].0, v)));
                    lemma_assoc_find_update(pre, i as int, v, k);
                    assert forall|k2: SemVarId| k2 != k implies self.spec_get(k2) == assoc_find(
                        pre,
                        k2,
                    ) by {
                        lemma_assoc_find_update(pre, i as int, v, k2);
                    }
                    assert(self.keys() =~= pre.map_values(|p: (SemVarId, VariableId)| p.0));
                    assert forall|x: VariableId|
                        self.vals().to_set().contains(x) implies pre.map_values(
                        |p: (SemVarId, VariableId)| p.1,
                    ).to_set().insert(v).contains(x) by {
                        let idx = choose|idx: int|
                            0 <= idx < self.vals().len() && self.vals()[idx] == x;
                        if idx != i as int {
                            assert(pre.map_values(|p: (SemVarId, VariableId)| p.1)[idx] == x);
                        }
                    };
                }
                return ;
            }
            i = i + 1;
        }
        proof {
            lemma_assoc_find_absent(pre, k);
        }
        self.entries.push((k, v));
        proof {
            assert(self@ =~= pre.push((k, v)));
            assert forall|k2: SemVarId| true implies self.spec_get(k2) == assoc_find(
                pre.push((k, v)),
                k2,
            ) by {}
            lemma_assoc_find_push(pre, (k, v), k);
            assert forall|k2: SemVarId| k2 != k implies self.spec_get(k2) == assoc_find(
                pre,
                k2,
            ) by {
                lemma_assoc_find_push(pre, (k, v), k2);
            }
            assert forall|x: VariableId|
                self.vals().to_set().contains(x) implies pre.map_values(
                |p: (SemVarId, VariableId)| p.1,
            ).to_set().insert(v).contains(x) by {
                let idx = choose|idx: int| 0 <= idx < self.vals().len() && self.vals()[idx] == x;
                if idx != pre.len() {
                    assert(pre.map_values(|p: (SemVarId, VariableId)| p.1)[idx] == x);
                }
            };
        }
    }
}

/// Translates enclosing-scope variable ids to the arm-local ids an arm's
/// block expects as inputs, in the order the requirements were resolved.
/// Keys are unique; entries are only ever appended.
#[derive(Clone, Debug, PartialEq, Eq)]
pub struct VarMapping {
    entries: Vec<(VariableId, VariableId)>,
}

impl VarMapping {
    /// The entries, in order.
    pub closed spec fn view(self) -> Seq<(VariableId, VariableId)> {
        self.entries@
    }

    /// The enclosing-scope ids, in resolution order.
    pub open spec fn keys(self) -> Seq<VariableId> {
        self@.map_values(|p: (VariableId, VariableId)| p.0)
    }

    /// The arm-local ids, in the same order.
    pub open spec fn vals(self) -> Seq<VariableId> {
        self@.map_values(|p: (VariableId, VariableId)| p.1)
    }

    /// The arm-local id an enclosing id translates to, if any.
    pub open spec fn spec_get(self, k: VariableId) -> Option<VariableId> {
        assoc_find_id(self@, k)
    }

    /// Whether the mapping holds `k`.
    pub open spec fn spec_contains(self, k: VariableId) -> bool {
        self.spec_get(k) is Some
    }

    /// Keys are pairwise distinct.
    pub open spec fn wf(self) -> bool {
        forall|i: int, j: int|
            0 <= i < j < self@.len() ==> self@[i].0 != self@[j].0
    }

    /// In a well-formed mapping every entry answers its own key's lookup.
    pub proof fn lemma_entry_found(self, i: int)
        requires
            self.wf(),
            0 <= i < self@.len(),
        ensures
            self.spec_get(self@[i].0) == Some(self@[i].1),
    {
        lemma_assoc_find_id_at(self@, self@[i].0, i);
    }

    /// An empty mapping.
    pub fn new() -> (m: VarMapping)
        ensures
            m@ =~= Seq::<(VariableId, VariableId)>::empty(),
            m.wf(),
    {
        VarMapping { entries: Vec::new() }
    }

    /// Number of entries.
    pub fn len(&self) -> (n: usize)
        ensures
            n == self@.len(),
    {
        self.entries.len()
    }

    /// The enclosing-scope id of the `i`-th entry.
    pub fn key_at(&self, i: usize) -> (k: VariableId)
        requires
            i < self@.len(),
        ensures
            k == self.keys()[i as int],
    {
        self.entries[i].0
    }

    /// The arm-local id of the `i`-th entry.
    pub fn val_at(&self, i: usize) -> (v: VariableId)
        requires
            i < self@.len(),
        ensures
            v == self.vals()[i as int],
    {
        self.entries[i].1
    }

    /// Looks an enclosing id up.
    pub fn get(&self, k: VariableId) -> (res: Option<VariableId>)
        ensures
            res == self.spec_get(k),
    {
        let mut i: usize = 0;
        assert(self@.skip(0) =~= self@);
        while i < self.entries.len()
            invariant
                i <= self@.len(),
                assoc_find_id(self@, k) == assoc_find_id(self@.skip(i as int), k),
                forall|j: int| 0 <= j < i ==> self@[j].0 != k,
            decreases self@.len() - i,
        {
            if self.entries[i].0 == k {
                assert(self@.skip(i as int)[0] == self@[i as int]);
                return Some(self.entries[i].1);
            }
            assert(self@.skip(i as int).drop_first() =~= self@.skip(i + 1));
            i = i + 1;
        }
        assert(self@.skip(i as int).len() == 0);
        None
    }

    /// Whether the mapping holds `k`.
    pub fn contains_key(&self, k: VariableId) -> (res: bool)
        ensures
            res == self.spec_contains(k),
    {
        self.get(k).is_some()
    }

    /// Records that enclosing id `k` feeds arm-local id `v`. The key must
    /// be new: a mapping never rewrites an entry.
    pub fn insert(&mut self, k: VariableId, v: VariableId)
        requires
            old(self).wf(),
            !old(self).spec_contains(k),
        ensures
            final(self).wf(),
            final(self)@ =~= old(self)@.push((k, v)),
            final(self).spec_get(k) == Some(v),
            forall|k2: VariableId| k2 != k ==> final(self).spec_get(k2) == old(self).spec_get(k2),
    {
        let ghost pre = self@;
        proof {
            if exists|j: int| 0 <= j < pre.len() && pre[j].0 == k {
                let j = choose|j: int| 0 <= j < pre.len() && pre[j].0 == k;
                let jf = choose|jf: int|
                    0 <= jf <= j && pre[jf].0 == k && forall|l: int| 0 <= l < jf ==> pre[l].0 != k;
                assert(false) by {
                    lemma_assoc_find_id_first_witness(pre, k, j);
                }
            }
        }
        self.entries.push((k, v));
        proof {
            assert(self@ =~= pre.push((k, v)));
            lemma_assoc_find_id_push(pre, (k, v), k);
            assert forall|k2: VariableId| k2 != k implies self.spec_get(k2) == assoc_find_id(
                pre,
                k2,
            ) by {
                lemma_assoc_find_id_push(pre, (k, v), k2);
            }
        }
    }
}

/// A successful lookup names an actual entry.
pub proof fn lemma_assoc_find_entry<T>(s: Seq<(u64, T)>, k: u64, v: T)
    requires
        assoc_find(s, k) == Some(v),
    ensures
        exists|i: int| 0 <= i < s.len() && s[i].0 == k && s[i].1 == v,
    decreases s.len(),
{
    if s[0].0 == k {
        assert(s[0].0 == k && s[0].1 == v);
    } else {
        lemma_assoc_find_entry(s.drop_first(), k, v);
        let i = choose|i: int|
            0 <= i < s.drop_first().len() && s.drop_first()[i].0 == k && s.drop_first()[i].1 == v;
        assert(s[i + 1].0 == k && s[i + 1].1 == v);
    }
}

/// A bound value is among the map's values.
pub proof fn lemma_semvarmap_get_val(m: SemVarMap, k: SemVarId, v: VariableId)
    requires
        m.spec_get(k) == Some(v),
    ensures
        m.vals().to_set().contains(v),
{
    lemma_assoc_find_entry(m@, k, v);
    let i = choose|i: int| 0 <= i < m@.len() && m@[i].0 == k && m@[i].1 == v;
    assert(m.vals()[i] == v);
}

/// The values of an entry-prefix form a subset of the values.
pub proof fn lemma_semvarmap_prefix_vals(m1: SemVarMap, m2: SemVarMap)
    requires
        m1@.is_prefix_of(m2@),
    ensures
        m1.vals().to_set() <= m2.vals().to_set(),
        m1.vals() == m2.vals().take(m1@.len() as int),
    decreases m2@.len(),
{
    assert(m1.vals() =~= m2.vals().take(m1@.len() as int));
    assert forall|x: VariableId| m1.vals().to_set().contains(x) implies m2.vals().to_set().contains(
        x,
    ) by {
        let i = choose|i: int| 0 <= i < m1.vals().len() && m1.vals()[i] == x;
        assert(m2.vals()[i] == x);
    }
}

/// If some entry holds `k`, the lookup answers.
pub proof fn lemma_assoc_find_id_first_witness(
    s: Seq<(VariableId, VariableId)>,
    k: VariableId,
    j: int,
)
    requires
        0 <= j < s.len(),
        s[j].0 == k,
    ensures
        assoc_find_id(s, k) is Some,
    decreases j,
{
    if s[0].0 != k {
        lemma_assoc_find_id_first_witness(s.drop_first(), k, j - 1);
    }
}

} // verus!

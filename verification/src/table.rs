//! VM tables: association lists with unique keys, a read-only flag and an
//! optional metatable reference.
//!
//! The entry model follows the VM's raw table semantics: reading an absent
//! key yields nil, and writing nil under a key removes the entry, so no
//! stored value is ever nil and keys are pairwise distinct.

use vstd::prelude::*;
use crate::value::{Value, ValueModel};

verus! {

/// A table object owned by the VM.
pub struct TableObj {
    /// Key/value entries, in insertion order.
    pub entries: Vec<(Value, Value)>,
    /// When set, the VM rejects all structural or value mutation.
    pub readonly: bool,
    /// Reference into the VM's table heap, if a metatable is attached.
    pub metatable: Option<usize>,
}

/// The mathematical view of a table's entries.
pub open spec fn eview(s: Seq<(Value, Value)>) -> Seq<(ValueModel, ValueModel)> {
    s.map_values(|p: (Value, Value)| (p.0@, p.1@))
}

/// Keys are pairwise distinct.
pub open spec fn keys_unique(es: Seq<(ValueModel, ValueModel)>) -> bool {
    forall|i: int, j: int| 0 <= i < j < es.len() ==> es[i].0 != es[j].0
}

/// No stored value is nil.
pub open spec fn vals_non_nil(es: Seq<(ValueModel, ValueModel)>) -> bool {
    forall|i: int| 0 <= i < es.len() ==> es[i].1 != ValueModel::Nil
}

/// Well-formed entry list.
pub open spec fn wf_entries(es: Seq<(ValueModel, ValueModel)>) -> bool {
    keys_unique(es) && vals_non_nil(es)
}

/// Some entry carries key `k`.
pub open spec fn has_key(es: Seq<(ValueModel, ValueModel)>, k: ValueModel) -> bool {
    exists|i: int| 0 <= i < es.len() && es[i].0 == k
}

/// The index of the entry carrying key `k` (meaningful when `has_key`).
pub open spec fn idx_of(es: Seq<(ValueModel, ValueModel)>, k: ValueModel) -> int {
    choose|i: int| 0 <= i < es.len() && es[i].0 == k
}

/// Raw read: the value under key `k`, or nil when absent.
pub open spec fn lookup(es: Seq<(ValueModel, ValueModel)>, k: ValueModel) -> ValueModel {
    if has_key(es, k) {
        es[idx_of(es, k)].1
    } else {
        ValueModel::Nil
    }
}

/// Raw write: the entry list after storing `v` under `k`. Writing nil
/// removes the entry; writing over a present key replaces its value in
/// place; a fresh non-nil binding is appended.
pub open spec fn tbl_set(
    es: Seq<(ValueModel, ValueModel)>,
    k: ValueModel,
    v: ValueModel,
) -> Seq<(ValueModel, ValueModel)> {
    if has_key(es, k) {
        if v == ValueModel::Nil {
            es.remove(idx_of(es, k))
        } else {
            es.update(idx_of(es, k), (k, v))
        }
    } else {
        if v == ValueModel::Nil {
            es
        } else {
            es.push((k, v))
        }
    }
}

/// In a list with unique keys, two indices carrying the same key coincide.
pub proof fn lemma_key_index_unique(es: Seq<(ValueModel, ValueModel)>, k: ValueModel, i: int, j: int)
    requires
        keys_unique(es),
        0 <= i < es.len(),
        0 <= j < es.len(),
        es[i].0 == k,
        es[j].0 == k,
    ensures
        i == j,
{
}

/// A raw write preserves well-formedness.
pub proof fn lemma_tbl_set_wf(es: Seq<(ValueModel, ValueModel)>, k: ValueModel, v: ValueModel)
    requires
        wf_entries(es),
    ensures
        wf_entries(tbl_set(es, k, v)),
{
    let es2 = tbl_set(es, k, v);
    if has_key(es, k) && v == ValueModel::Nil {
        let i = idx_of(es, k);
        assert forall|a: int, b: int| 0 <= a < b < es2.len() implies es2[a].0 != es2[b].0 by {
            let a0: int = if a < i { a } else { a + 1 };
            let b0: int = if b < i { b } else { b + 1 };
            assert(es2[a] == es[a0] && es2[b] == es[b0]);
        }
        assert forall|a: int| 0 <= a < es2.len() implies es2[a].1 != ValueModel::Nil by {
            let a0: int = if a < i { a } else { a + 1 };
            assert(es2[a] == es[a0]);
        }
    }
}

/// Keys other than the written one read the same before and after a write.
pub proof fn lemma_tbl_set_frame(
    es: Seq<(ValueModel, ValueModel)>,
    k: ValueModel,
    v: ValueModel,
    k2: ValueModel,
)
    requires
        wf_entries(es),
        k2 != k,
    ensures
        lookup(tbl_set(es, k, v), k2) == lookup(es, k2),
{
    let es2 = tbl_set(es, k, v);
    lemma_tbl_set_wf(es, k, v);
    if has_key(es, k) {
        let i = idx_of(es, k);
        if v == ValueModel::Nil {
            // Removal at i: every other entry survives with a shifted index.
            if has_key(es, k2) {
                let j = idx_of(es, k2);
                lemma_key_index_unique(es, k2, j, j);
                assert(j != i);
                let j2: int = if j < i { j } else { j - 1 };
                assert(es2[j2] == es[j]);
                assert(has_key(es2, k2));
                lemma_key_index_unique(es2, k2, idx_of(es2, k2), j2);
            } else {
                if has_key(es2, k2) {
                    let j2 = idx_of(es2, k2);
                    let j0: int = if j2 < i { j2 } else { j2 + 1 };
                    assert(es2[j2] == es[j0]);
                    assert(es[j0].0 == k2);
                    assert(false);
                }
            }
        } else {
            // In-place update at i: other indices are untouched and index i
            // keeps key k, which is not k2.
            if has_key(es, k2) {
                let j = idx_of(es, k2);
                assert(j != i);
                assert(es2[j] == es[j]);
                assert(has_key(es2, k2));
                lemma_key_index_unique(es2, k2, idx_of(es2, k2), j);
            } else {
                if has_key(es2, k2) {
                    let j2 = idx_of(es2, k2);
                    assert(j2 != i);
                    assert(es2[j2] == es[j2]);
                    assert(false);
                }
            }
        }
    } else {
        if v != ValueModel::Nil {
            // Append: old indices are untouched and the new entry's key is k.
            if has_key(es, k2) {
                let j = idx_of(es, k2);
                assert(es2[j] == es[j]);
                assert(has_key(es2, k2));
                lemma_key_index_unique(es2, k2, idx_of(es2, k2), j);
            } else {
                if has_key(es2, k2) {
                    let j2 = idx_of(es2, k2);
                    assert(j2 != es.len());
                    assert(es2[j2] == es[j2]);
                    assert(false);
                }
            }
        }
    }
}

/// After a raw write, reading the written key back gives exactly the
/// written value.
pub proof fn lemma_tbl_set_lookup(es: Seq<(ValueModel, ValueModel)>, k: ValueModel, v: ValueModel)
    requires
        wf_entries(es),
    ensures
        lookup(tbl_set(es, k, v), k) == v,
{
    let es2 = tbl_set(es, k, v);
    lemma_tbl_set_wf(es, k, v);
    if has_key(es, k) {
        let i = idx_of(es, k);
        if v == ValueModel::Nil {
            if has_key(es2, k) {
                let j2 = idx_of(es2, k);
                let j0: int = if j2 < i { j2 } else { j2 + 1 };
                assert(es2[j2] == es[j0]);
                lemma_key_index_unique(es, k, j0, i);
                assert(false);
            }
        } else {
            assert(es2[i].0 == k && es2[i].1 == v);
            assert(has_key(es2, k));
            lemma_key_index_unique(es2, k, idx_of(es2, k), i);
        }
    } else {
        if v == ValueModel::Nil {
            assert(!has_key(es2, k));
        } else {
            let i = es.len() as int;
            assert(es2[i].0 == k && es2[i].1 == v);
            assert(has_key(es2, k));
            lemma_key_index_unique(es2, k, idx_of(es2, k), i);
        }
    }
}

impl TableObj {
    /// A fresh, writable table with no entries and no metatable.
    pub fn empty() -> (r: TableObj)
        ensures
            eview(r.entries@) == Seq::<(ValueModel, ValueModel)>::empty(),
            wf_entries(eview(r.entries@)),
            !r.readonly,
            r.metatable == Option::<usize>::None,
    {
        let r = TableObj { entries: Vec::new(), readonly: false, metatable: None };
        proof {
            assert(eview(r.entries@) =~= Seq::<(ValueModel, ValueModel)>::empty());
        }
        r
    }

    /// Raw read of key `k`; nil when the key is absent.
    pub fn obj_get(&self, k: &Value) -> (r: Value)
        requires
            wf_entries(eview(self.entries@)),
        ensures
            r@ == lookup(eview(self.entries@), k@),
    {
        let ghost es = eview(self.entries@);
        let mut i: usize = 0;
        while i < self.entries.len()
            invariant
                i <= self.entries.len(),
                es == eview(self.entries@),
                wf_entries(es),
                forall|j: int| 0 <= j < i ==> es[j].0 != k@,
            decreases self.entries.len() - i,
        {
            if crate::value::value_eq(&self.entries[i].0, k) {
                proof {
                    assert(es[i as int].0 == k@);
                    assert(has_key(es, k@));
                    lemma_key_index_unique(es, k@, idx_of(es, k@), i as int);
                }
                return crate::value::clone_value(&self.entries[i].1);
            }
            i += 1;
        }
        proof {
            assert(!has_key(es, k@));
        }
        Value::Nil
    }

    /// Raw write of `v` under key `k`, with the semantics of [`tbl_set`].
    /// The read-only flag is not consulted here; the VM-level write checks
    /// it before reaching this point.
    pub fn obj_set(&mut self, k: Value, v: Value)
        requires
            wf_entries(eview(old(self).entries@)),
        ensures
            eview(final(self).entries@) == tbl_set(eview(old(self).entries@), k@, v@),
            wf_entries(eview(final(self).entries@)),
            final(self).readonly == old(self).readonly,
            final(self).metatable == old(self).metatable,
    {
        let ghost es = eview(self.entries@);
        let ghost kv = k@;
        let ghost vv = v@;
        proof {
            lemma_tbl_set_wf(es, kv, vv);
        }
        let is_nil = matches!(v, Value::Nil);
        proof {
            assert(is_nil == (vv == ValueModel::Nil));
        }
        let mut i: usize = 0;
        while i < self.entries.len()
            invariant
                i <= self.entries.len(),
                es == eview(self.entries@),
                kv == k@,
                vv == v@,
                is_nil == (vv == ValueModel::Nil),
                wf_entries(es),
                self.entries@ == old(self).entries@,
                self.readonly == old(self).readonly,
                self.metatable == old(self).metatable,
                forall|j: int| 0 <= j < i ==> es[j].0 != kv,
            decreases self.entries.len() - i,
        {
            if crate::value::value_eq(&self.entries[i].0, &k) {
                proof {
                    assert(es[i as int].0 == kv);
                    assert(has_key(es, kv));
                    lemma_key_index_unique(es, kv, idx_of(es, kv), i as int);
                }
                if is_nil {
                    self.entries.remove(i);
                    proof {
                        assert(eview(self.entries@) =~= es.remove(i as int));
                    }
                } else {
                    let slot = &mut self.entries[i];
                    *slot = (k, v);
                    proof {
                        assert(eview(self.entries@) =~= es.update(i as int, (kv, vv)));
                    }
                }
                return;
            }
            i += 1;
        }
        proof {
            assert(!has_key(es, kv));
        }
        if !is_nil {
            self.entries.push((k, v));
            proof {
                assert(eview(self.entries@) =~= es.push((kv, vv)));
            }
        } else {
            proof {
                assert(eview(self.entries@) =~= es);
            }
        }
    }

}

} // verus!

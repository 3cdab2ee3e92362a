//! The hook registry and the named surface operations composed from the
//! extension traits: function hooking, metamethod hooking, upvalue
//! collection, installation of members into a possibly read-only table,
//! and closure classification.
//!
//! The hook registry maps an original function's identity to its
//! replacement. It lives for the VM's lifetime, grows monotonically, and
//! re-hooking a target overwrites its entry rather than adding a second
//! one. Recording the mapping does not itself redirect call sites; that
//! is the surrounding runtime's concern.

use vstd::prelude::*;
use crate::value::{Value, ValueModel, clone_bytes, clone_value, clone_named_vals, named_vals_view};
use crate::vm::{Lua, VmError, state_eq, hooks_unique, table_wf_in};
use crate::table::{
    eview, tbl_set, lookup, wf_entries, lemma_tbl_set_wf, lemma_tbl_set_lookup,
    lemma_tbl_set_frame,
};
use crate::debug_api::{valid_fn, fn_model, LuaDebugExt};

verus! {

/// Some hook entry carries key `k`.
pub open spec fn hook_has(hs: Seq<(usize, usize)>, k: usize) -> bool {
    exists|i: int| 0 <= i < hs.len() && hs[i].0 == k
}

/// The index of the hook entry carrying key `k` (meaningful when
/// `hook_has`).
pub open spec fn hook_idx(hs: Seq<(usize, usize)>, k: usize) -> int {
    choose|i: int| 0 <= i < hs.len() && hs[i].0 == k
}

/// The replacement recorded for original `k`, if any.
pub open spec fn hook_lookup(hs: Seq<(usize, usize)>, k: usize) -> Option<usize> {
    if hook_has(hs, k) {
        Some(hs[hook_idx(hs, k)].1)
    } else {
        None
    }
}

/// With unique keys, two indices carrying the same key coincide.
proof fn lemma_hook_idx_unique(hs: Seq<(usize, usize)>, k: usize, i: int, j: int)
    requires
        hooks_unique(hs),
        0 <= i < hs.len(),
        0 <= j < hs.len(),
        hs[i].0 == k,
        hs[j].0 == k,
    ensures
        i == j,
{
}

/// Overwriting the entry at `i` with a new replacement keeps keys unique,
/// records the new replacement under that key, and answers every other
/// key as before.
proof fn lemma_hook_update(hs: Seq<(usize, usize)>, i: int, repl: usize)
    requires
        hooks_unique(hs),
        0 <= i < hs.len(),
    ensures
        hooks_unique(hs.update(i, (hs[i].0, repl))),
        hook_lookup(hs.update(i, (hs[i].0, repl)), hs[i].0) == Some(repl),
        forall|k: usize|
            k != hs[i].0 ==> #[trigger] hook_lookup(hs.update(i, (hs[i].0, repl)), k)
                == hook_lookup(hs, k),
{
    let hs2 = hs.update(i, (hs[i].0, repl));
    assert forall|a: int, b: int| 0 <= a < b < hs2.len() implies hs2[a].0 != hs2[b].0 by {
        assert(hs2[a].0 == hs[a].0);
        assert(hs2[b].0 == hs[b].0);
    }
    assert(hs2[i].0 == hs[i].0);
    assert(hook_has(hs2, hs[i].0));
    lemma_hook_idx_unique(hs2, hs[i].0, hook_idx(hs2, hs[i].0), i);
    assert forall|k: usize|
        k != hs[i].0 implies #[trigger] hook_lookup(hs2, k) == hook_lookup(hs, k) by {
        if hook_has(hs, k) {
            let j = hook_idx(hs, k);
            assert(j != i);
            assert(hs2[j] == hs[j]);
            assert(hook_has(hs2, k));
            lemma_hook_idx_unique(hs2, k, hook_idx(hs2, k), j);
        } else {
            if hook_has(hs2, k) {
                let j = hook_idx(hs2, k);
                assert(j != i);
                assert(hs2[j] == hs[j]);
                assert(false);
            }
        }
    }
}

/// Appending a fresh key keeps keys unique, records the replacement under
/// it, and answers every other key as before.
proof fn lemma_hook_push(hs: Seq<(usize, usize)>, target: usize, repl: usize)
    requires
        hooks_unique(hs),
        !hook_has(hs, target),
    ensures
        hooks_unique(hs.push((target, repl))),
        hook_lookup(hs.push((target, repl)), target) == Some(repl),
        forall|k: usize|
            k != target ==> #[trigger] hook_lookup(hs.push((target, repl)), k) == hook_lookup(
                hs,
                k,
            ),
{
    let hs2 = hs.push((target, repl));
    assert forall|a: int, b: int| 0 <= a < b < hs2.len() implies hs2[a].0 != hs2[b].0 by {
        if b < hs.len() {
            assert(hs2[a] == hs[a] && hs2[b] == hs[b]);
        } else {
            assert(hs2[a] == hs[a] && hs2[b].0 == target);
            if hs[a].0 == target {
                assert(hook_has(hs, target));
            }
        }
    }
    assert(hs2[hs.len() as int].0 == target);
    assert(hook_has(hs2, target));
    lemma_hook_idx_unique(hs2, target, hook_idx(hs2, target), hs.len() as int);
    assert forall|k: usize| k != target implies #[trigger] hook_lookup(hs2, k) == hook_lookup(
        hs,
        k,
    ) by {
        if hook_has(hs, k) {
            let j = hook_idx(hs, k);
            assert(hs2[j] == hs[j]);
            assert(hook_has(hs2, k));
            lemma_hook_idx_unique(hs2, k, hook_idx(hs2, k), j);
        } else {
            if hook_has(hs2, k) {
                let j = hook_idx(hs2, k);
                assert(j != hs.len() as int);
                assert(hs2[j] == hs[j]);
                assert(false);
            }
        }
    }
}

/// The entries a table holds after storing each named value in order
/// (later bindings overwrite earlier ones of the same name; nil values
/// remove).
pub open spec fn fold_set_str(
    es: Seq<(ValueModel, ValueModel)>,
    items: Seq<(Seq<u8>, ValueModel)>,
) -> Seq<(ValueModel, ValueModel)>
    decreases items.len(),
{
    if items.len() == 0 {
        es
    } else {
        fold_set_str(tbl_set(es, ValueModel::Str(items[0].0), items[0].1), items.drop_first())
    }
}

/// A fold of writes whose names all differ from `k` answers `k` as the
/// table did before, and keeps the entries well formed.
pub proof fn lemma_fold_set_str_frame(
    es: Seq<(ValueModel, ValueModel)>,
    items: Seq<(Seq<u8>, ValueModel)>,
    k: ValueModel,
)
    requires
        wf_entries(es),
        forall|i: int| 0 <= i < items.len() ==> ValueModel::Str((#[trigger] items[i]).0) != k,
    ensures
        wf_entries(fold_set_str(es, items)),
        lookup(fold_set_str(es, items), k) == lookup(es, k),
    decreases items.len(),
{
    if items.len() > 0 {
        let es1 = tbl_set(es, ValueModel::Str(items[0].0), items[0].1);
        lemma_tbl_set_wf(es, ValueModel::Str(items[0].0), items[0].1);
        lemma_tbl_set_frame(es, ValueModel::Str(items[0].0), items[0].1, k);
        let rest = items.drop_first();
        assert forall|i: int|
            0 <= i < rest.len() implies ValueModel::Str((#[trigger] rest[i]).0) != k by {
            assert(rest[i] == items[i + 1]);
        }
        lemma_fold_set_str_frame(es1, rest, k);
    }
}

/// With pairwise distinct names, the table a fold builds reads each
/// non-nil binding back under its name.
pub proof fn lemma_fold_set_str_lookup(
    es: Seq<(ValueModel, ValueModel)>,
    items: Seq<(Seq<u8>, ValueModel)>,
    j: int,
)
    requires
        wf_entries(es),
        forall|a: int, b: int|
            0 <= a < b < items.len() ==> (#[trigger] items[a]).0 != (#[trigger] items[b]).0,
        0 <= j < items.len(),
        items[j].1 != ValueModel::Nil,
    ensures
        lookup(fold_set_str(es, items), ValueModel::Str(items[j].0)) == items[j].1,
    decreases items.len(),
{
    let es1 = tbl_set(es, ValueModel::Str(items[0].0), items[0].1);
    lemma_tbl_set_wf(es, ValueModel::Str(items[0].0), items[0].1);
    let rest = items.drop_first();
    if j == 0 {
        lemma_tbl_set_lookup(es, ValueModel::Str(items[0].0), items[0].1);
        assert forall|i: int|
            0 <= i < rest.len() implies ValueModel::Str((#[trigger] rest[i]).0)
            != ValueModel::Str(items[0].0) by {
            assert(rest[i] == items[i + 1]);
            assert(items[i + 1].0 != items[0].0);
        }
        lemma_fold_set_str_frame(es1, rest, ValueModel::Str(items[0].0));
    } else {
        assert forall|a: int, b: int|
            0 <= a < b < rest.len() implies (#[trigger] rest[a]).0 != (#[trigger] rest[b]).0 by {
            assert(rest[a] == items[a + 1] && rest[b] == items[b + 1]);
        }
        assert(rest[j - 1] == items[j]);
        lemma_fold_set_str_lookup(es1, rest, j - 1);
    }
}

/// What installing a hook leaves behind: the target was cloned (the clone
/// is returned as the pre-hook original), and the hook registry now maps
/// the target's identity to the replacement — exactly one entry per
/// target, re-hooking overwriting in place. Nothing redirects calls here.
pub open spec fn hook_function_post(
    pre: Lua,
    post: Lua,
    target: usize,
    replacement: usize,
    r: Result<usize, VmError>,
) -> bool {
    if valid_fn(pre, target) && valid_fn(pre, replacement) {
        &&& post.stack@ == pre.stack@
        &&& post.tables == pre.tables
        &&& post.frames == pre.frames
        &&& post.registry == pre.registry
        &&& post.functions@.len() == pre.functions@.len() + 1
        &&& forall|i: int| 0 <= i < pre.functions@.len() ==> post.functions@[i] == pre.functions@[i]
        &&& post.functions@[pre.functions@.len() as int]@ == fn_model(pre, target)
        &&& hooks_unique(post.hooks@)
        &&& hook_lookup(post.hooks@, target) == Some(replacement)
        &&& forall|k: usize|
            k != target ==> #[trigger] hook_lookup(post.hooks@, k) == hook_lookup(pre.hooks@, k)
        &&& post.hooks@.len() == pre.hooks@.len() + (if hook_has(pre.hooks@, target) {
            0int
        } else {
            1int
        })
        &&& r == Ok::<usize, VmError>(pre.functions@.len() as usize)
    } else {
        state_eq(pre, post) && r == Err::<usize, VmError>(VmError::NotAFunction)
    }
}

/// What hooking a metamethod leaves behind: the object must carry a
/// metatable (its absence is a hard error here, unlike `getrawmetatable`);
/// the previous handler under the method name comes back (nil when none),
/// and the replacement is stored under that name in the metatable.
pub open spec fn hook_metamethod_post(
    pre: Lua,
    post: Lua,
    obj: ValueModel,
    method: Seq<u8>,
    replacement: usize,
    r: Result<Value, VmError>,
) -> bool {
    if !valid_fn(pre, replacement) {
        state_eq(pre, post) && r == Err::<Value, VmError>(VmError::NotAFunction)
    } else {
        match obj {
            ValueModel::Table(t) => {
                if 0 <= t < pre.tables@.len() {
                    match pre.tables@[t].metatable {
                        Some(m) => {
                            if pre.tables@[m as int].readonly {
                                state_eq(pre, post) && r == Err::<Value, VmError>(VmError::ReadOnly)
                            } else {
                                let es = eview(pre.tables@[m as int].entries@);
                                &&& post.stack@ == pre.stack@
                                &&& post.functions == pre.functions
                                &&& post.frames == pre.frames
                                &&& post.registry == pre.registry
                                &&& post.hooks == pre.hooks
                                &&& post.tables@.len() == pre.tables@.len()
                                &&& forall|i: int|
                                    0 <= i < pre.tables@.len() && i != m ==> post.tables@[i]
                                        == pre.tables@[i]
                                &&& eview(post.tables@[m as int].entries@) == tbl_set(
                                    es,
                                    ValueModel::Str(method),
                                    ValueModel::Function(replacement as int),
                                )
                                &&& post.tables@[m as int].readonly == pre.tables@[m
                                    as int].readonly
                                &&& post.tables@[m as int].metatable == pre.tables@[m
                                    as int].metatable
                                &&& match r {
                                    Ok(prev) => prev@ == lookup(es, ValueModel::Str(method)),
                                    Err(_) => false,
                                }
                            }
                        },
                        None => state_eq(pre, post) && r == Err::<Value, VmError>(
                            VmError::NoMetatable,
                        ),
                    }
                } else {
                    state_eq(pre, post) && r == Err::<Value, VmError>(VmError::TypeMismatch)
                }
            },
            _ => state_eq(pre, post) && r == Err::<Value, VmError>(VmError::NoMetatable),
        }
    }
}

/// What collecting the upvalues into a fresh table leaves behind: each
/// upvalue's value stored under its name, in order.
pub open spec fn get_upvalues_post(pre: Lua, post: Lua, func: usize, r: Result<
    usize,
    VmError,
>) -> bool {
    if valid_fn(pre, func) {
        let t = pre.tables@.len() as int;
        &&& crate::function_api::state_eq_except_tables_grown(pre, post, 1)
        &&& eview(post.tables@[t].entries@) == fold_set_str(
            Seq::empty(),
            fn_model(pre, func).upvalues,
        )
        &&& !post.tables@[t].readonly
        &&& post.tables@[t].metatable == Option::<usize>::None
        &&& r == Ok::<usize, VmError>(t as usize)
    } else {
        state_eq(pre, post) && r == Err::<usize, VmError>(VmError::NotAFunction)
    }
}

/// What installing members into a table leaves behind: every member
/// stored in order, and the read-only flag exactly as it was before the
/// call — the flag is forced open for the installation and restored on
/// every exit path.
pub open spec fn install_members_post(
    pre: Lua,
    post: Lua,
    t: usize,
    items: Seq<(Seq<u8>, ValueModel)>,
    r: Result<(), VmError>,
) -> bool {
    if (t as int) < pre.tables@.len() {
        &&& post.stack@ == pre.stack@
        &&& post.functions == pre.functions
        &&& post.frames == pre.frames
        &&& post.registry == pre.registry
        &&& post.hooks == pre.hooks
        &&& post.tables@.len() == pre.tables@.len()
        &&& forall|i: int|
            0 <= i < pre.tables@.len() && i != t ==> post.tables@[i] == pre.tables@[i]
        &&& eview(post.tables@[t as int].entries@) == fold_set_str(
            eview(pre.tables@[t as int].entries@),
            items,
        )
        &&& post.tables@[t as int].readonly == pre.tables@[t as int].readonly
        &&& post.tables@[t as int].metatable == pre.tables@[t as int].metatable
        &&& r == Ok::<(), VmError>(())
    } else {
        state_eq(pre, post) && r == Err::<(), VmError>(VmError::TypeMismatch)
    }
}

impl Lua {
    /// Records `target -> replacement`, overwriting in place when the
    /// target already has an entry.
    fn hooks_upsert(&mut self, target: usize, replacement: usize)
        requires
            hooks_unique(old(self).hooks@),
        ensures
            final(self).stack == old(self).stack,
            final(self).tables == old(self).tables,
            final(self).functions == old(self).functions,
            final(self).frames == old(self).frames,
            final(self).registry == old(self).registry,
            hooks_unique(final(self).hooks@),
            hook_lookup(final(self).hooks@, target) == Some(replacement),
            forall|k: usize|
                k != target ==> #[trigger] hook_lookup(final(self).hooks@, k) == hook_lookup(
                    old(self).hooks@,
                    k,
                ),
            final(self).hooks@.len() == old(self).hooks@.len() + (if hook_has(
                old(self).hooks@,
                target,
            ) {
                0int
            } else {
                1int
            }),
    {
        let ghost hs = self.hooks@;
        let mut i: usize = 0;
        while i < self.hooks.len()
            invariant
                i <= self.hooks.len(),
                *self == *old(self),
                hs == self.hooks@,
                hooks_unique(hs),
                forall|j: int| 0 <= j < i ==> hs[j].0 != target,
            decreases self.hooks.len() - i,
        {
            if self.hooks[i].0 == target {
                proof {
                    assert(hook_has(hs, target));
                    lemma_hook_update(hs, i as int, replacement);
                }
                let e = &mut self.hooks[i];
                *e = (target, replacement);
                return ;
            }
            i += 1;
        }
        proof {
            assert(!hook_has(hs, target));
            lemma_hook_push(hs, target, replacement);
        }
        self.hooks.push((target, replacement));
    }

    /// Installs a hook: clones the target to serve as the pre-hook
    /// original, records the target's identity against the replacement in
    /// the hook registry, and returns the clone.
    pub fn hook_function(&mut self, target: usize, replacement: usize) -> (r: Result<
        usize,
        VmError,
    >)
        requires
            old(self).wf(),
        ensures
            final(self).wf(),
            hook_function_post(*old(self), *final(self), target, replacement, r),
    {
        let g = self.stack_guard();
        self.stack_push(Value::Function(target));
        self.stack_push(Value::Function(replacement));
        if target >= self.functions.len() || replacement >= self.functions.len() {
            self.stack_restore(g);
            proof {
                assert(self.stack@ =~= old(self).stack@);
            }
            return Err(VmError::NotAFunction);
        }
        self.stack_restore(g);
        proof {
            assert(self.stack@ =~= old(self).stack@);
        }
        let cloned = self.clone_function(target);
        let original = match cloned {
            Ok(f) => f,
            Err(_) => {
                proof {
                    assert(false);
                }
                return Err(VmError::NotAFunction);
            },
        };
        self.hooks_upsert(target, replacement);
        Ok(original)
    }

    /// Hooks a metamethod: reads the object's metatable (absence is a
    /// fatal error for this call), returns the previous handler under the
    /// method name, and installs the replacement in its place.
    pub fn hook_metamethod(&mut self, obj: &Value, method: &Vec<u8>, replacement: usize) -> (r:
        Result<Value, VmError>)
        requires
            old(self).wf(),
        ensures
            final(self).wf(),
            hook_metamethod_post(*old(self), *final(self), obj@, method@, replacement, r),
    {
        let g = self.stack_guard();
        self.stack_push(clone_value(obj));
        if replacement >= self.functions.len() {
            self.stack_restore(g);
            proof {
                assert(self.stack@ =~= old(self).stack@);
            }
            return Err(VmError::NotAFunction);
        }
        let out = match obj {
            Value::Table(t) => {
                if *t < self.tables.len() {
                    match self.tables[*t].metatable {
                        Some(m) => {
                            proof {
                                assert(table_wf_in(self.tables@, *t as int));
                                assert(table_wf_in(self.tables@, m as int));
                            }
                            if self.tables[m].readonly {
                                Err(VmError::ReadOnly)
                            } else {
                                let key = Value::Str(clone_bytes(method));
                                let prev = self.tables[m].obj_get(&key);
                                let res = self.table_raw_set(
                                    m,
                                    key,
                                    Value::Function(replacement),
                                );
                                proof {
                                    assert(res == Ok::<(), VmError>(()));
                                }
                                Ok(prev)
                            }
                        },
                        None => Err(VmError::NoMetatable),
                    }
                } else {
                    Err(VmError::TypeMismatch)
                }
            },
            _ => Err(VmError::NoMetatable),
        };
        self.stack_restore(g);
        proof {
            assert(self.stack@ =~= old(self).stack@);
        }
        out
    }

    /// Collects all upvalues of a function into a fresh table, each value
    /// under its upvalue's name.
    pub fn debug_get_upvalues(&mut self, func: usize) -> (r: Result<usize, VmError>)
        requires
            old(self).wf(),
        ensures
            final(self).wf(),
            get_upvalues_post(*old(self), *final(self), func, r),
    {
        let g = self.stack_guard();
        self.stack_push(Value::Function(func));
        if func >= self.functions.len() {
            self.stack_restore(g);
            proof {
                assert(self.stack@ =~= old(self).stack@);
            }
            return Err(VmError::NotAFunction);
        }
        let ghost fm = fn_model(*old(self), func);
        let ups = clone_named_vals(&self.functions[func].upvalues);
        let ghost upsm = named_vals_view(ups@);
        let t = self.create_table();
        proof {
            assert(eview(self.tables@[t as int].entries@) =~= Seq::<
                (ValueModel, ValueModel),
            >::empty());
            assert(upsm.skip(0) =~= upsm);
        }
        let mut i: usize = 0;
        while i < ups.len()
            invariant
                old(self).wf(),
                self.wf(),
                i <= ups.len(),
                upsm == named_vals_view(ups@),
                upsm.len() == ups@.len(),
                t == old(self).tables@.len(),
                self.stack@ == old(self).stack@.push(Value::Function(func)),
                self.functions == old(self).functions,
                self.frames == old(self).frames,
                self.registry == old(self).registry,
                self.hooks == old(self).hooks,
                self.tables@.len() == old(self).tables@.len() + 1,
                forall|j: int|
                    0 <= j < old(self).tables@.len() ==> self.tables@[j] == old(self).tables@[j],
                fold_set_str(eview(self.tables@[t as int].entries@), upsm.skip(i as int))
                    == fold_set_str(Seq::empty(), upsm),
                !self.tables@[t as int].readonly,
                self.tables@[t as int].metatable == Option::<usize>::None,
            decreases ups.len() - i,
        {
            let ghost es = eview(self.tables@[t as int].entries@);
            let key = Value::Str(clone_bytes(&ups[i].0));
            let val = clone_value(&ups[i].1);
            let ghost keym = key@;
            let ghost valm = val@;
            let res = self.table_raw_set(t, key, val);
            proof {
                assert(res == Ok::<(), VmError>(()));
                assert(upsm.skip(i as int)[0] == upsm[i as int]);
                assert(keym == ValueModel::Str(upsm[i as int].0));
                assert(valm == upsm[i as int].1);
                assert(upsm.skip(i as int).drop_first() =~= upsm.skip(i + 1));
            }
            i += 1;
        }
        self.stack_restore(g);
        proof {
            assert(self.stack@ =~= old(self).stack@);
        }
        Ok(t)
    }

    /// Installs named members into a table: the read-only flag is saved,
    /// forced open for the writes, and restored to its prior value on
    /// every exit path.
    pub fn install_table_members(&mut self, t: usize, members: &Vec<(Vec<u8>, Value)>) -> (r:
        Result<(), VmError>)
        requires
            old(self).wf(),
        ensures
            final(self).wf(),
            install_members_post(*old(self), *final(self), t, named_vals_view(members@), r),
    {
        let g = self.stack_guard();
        self.stack_push(Value::Table(t));
        if t >= self.tables.len() {
            self.stack_restore(g);
            proof {
                assert(self.stack@ =~= old(self).stack@);
            }
            return Err(VmError::TypeMismatch);
        }
        let was_readonly = self.tables[t].readonly;
        let res0 = self.set_table_readonly(t, false);
        proof {
            assert(res0 == Ok::<(), VmError>(()));
        }
        let ghost items = named_vals_view(members@);
        proof {
            assert(items.skip(0) =~= items);
        }
        let mut i: usize = 0;
        while i < members.len()
            invariant
                old(self).wf(),
                self.wf(),
                i <= members.len(),
                items == named_vals_view(members@),
                items.len() == members@.len(),
                (t as int) < old(self).tables@.len(),
                self.stack@ == old(self).stack@.push(Value::Table(t)),
                self.functions == old(self).functions,
                self.frames == old(self).frames,
                self.registry == old(self).registry,
                self.hooks == old(self).hooks,
                self.tables@.len() == old(self).tables@.len(),
                forall|j: int|
                    0 <= j < old(self).tables@.len() && j != t ==> self.tables@[j] == old(
                        self,
                    ).tables@[j],
                fold_set_str(eview(self.tables@[t as int].entries@), items.skip(i as int))
                    == fold_set_str(eview(old(self).tables@[t as int].entries@), items),
                !self.tables@[t as int].readonly,
                self.tables@[t as int].metatable == old(self).tables@[t as int].metatable,
            decreases members.len() - i,
        {
            let key = Value::Str(clone_bytes(&members[i].0));
            let val = clone_value(&members[i].1);
            let ghost keym = key@;
            let ghost valm = val@;
            let res = self.table_raw_set(t, key, val);
            proof {
                assert(res == Ok::<(), VmError>(()));
                assert(items.skip(i as int)[0] == items[i as int]);
                assert(keym == ValueModel::Str(items[i as int].0));
                assert(valm == items[i as int].1);
                assert(items.skip(i as int).drop_first() =~= items.skip(i + 1));
            }
            i += 1;
        }
        let res1 = self.set_table_readonly(t, was_readonly);
        proof {
            assert(res1 == Ok::<(), VmError>(()));
        }
        self.stack_restore(g);
        proof {
            assert(self.stack@ =~= old(self).stack@);
        }
        Ok(())
    }

    /// Whether the function is an interpreted closure.
    pub fn is_l_closure(&mut self, func: usize) -> (r: Result<bool, VmError>)
        requires
            old(self).wf(),
        ensures
            final(self).wf(),
            state_eq(*old(self), *final(self)),
            if valid_fn(*old(self), func) {
                r == Ok::<bool, VmError>(!fn_model(*old(self), func).is_native)
            } else {
                r == Err::<bool, VmError>(VmError::NotAFunction)
            },
    {
        let g = self.stack_guard();
        self.stack_push(Value::Function(func));
        let out = if func < self.functions.len() {
            Ok(!self.functions[func].is_native)
        } else {
            Err(VmError::NotAFunction)
        };
        self.stack_restore(g);
        proof {
            assert(self.stack@ =~= old(self).stack@);
        }
        out
    }

    /// Whether the function is a native closure.
    pub fn is_c_closure(&mut self, func: usize) -> (r: Result<bool, VmError>)
        requires
            old(self).wf(),
        ensures
            final(self).wf(),
            state_eq(*old(self), *final(self)),
            if valid_fn(*old(self), func) {
                r == Ok::<bool, VmError>(fn_model(*old(self), func).is_native)
            } else {
                r == Err::<bool, VmError>(VmError::NotAFunction)
            },
    {
        let g = self.stack_guard();
        self.stack_push(Value::Function(func));
        let out = if func < self.functions.len() {
            Ok(self.functions[func].is_native)
        } else {
            Err(VmError::NotAFunction)
        };
        self.stack_restore(g);
        proof {
            assert(self.stack@ =~= old(self).stack@);
        }
        out
    }

    /// Whether the caller runs with the extension layer's privileges.
    /// This host is the extension layer itself, so the answer is yes.
    pub fn check_caller(&self) -> (r: bool)
        ensures
            r == true,
    {
        true
    }
}

} // verus!

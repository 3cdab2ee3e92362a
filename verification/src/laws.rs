//! Laws relating the extension operations to one another.
//!
//! Stack balance is stated directly on every operation: each
//! postcondition predicate pins the operand stack after the call to its
//! contents before it, on success and on every failure alike. The laws
//! here relate operations across calls.

use vstd::prelude::*;
use crate::value::{Value, ValueModel};
use crate::vm::{Lua, VmError, hooks_unique, table_wf_in};
use crate::table::{eview, lookup, wf_entries, lemma_tbl_set_lookup, lemma_tbl_set_frame};
use crate::debug_api::{
    valid_fn, fn_model, upvalue_in_range, set_upvalue_post, get_upvalue_post, set_readonly_post,
};
use crate::globals::{hook_function_post, hook_metamethod_post, hook_lookup, install_members_post};

verus! {

/// Round trip: writing upvalue `index` of `func` to `value` and then
/// reading it back yields exactly `value`, with the upvalue's name
/// preserved, for every in-range index and every representable value.
pub proof fn lemma_upvalue_round_trip(
    pre: Lua,
    mid: Lua,
    post: Lua,
    func: usize,
    index: i32,
    value: ValueModel,
    r1: Result<Option<Vec<u8>>, VmError>,
    r2: Result<(Option<Vec<u8>>, crate::value::Value), VmError>,
)
    requires
        valid_fn(pre, func),
        upvalue_in_range(fn_model(pre, func), index),
        set_upvalue_post(pre, mid, func, index, value, r1),
        get_upvalue_post(mid, post, func, index, r2),
    ensures
        (r2 matches Ok(p) && p.1@ == value),
        (r2 matches Ok(p) && (p.0 matches Some(n) && n@ == fn_model(pre, func).upvalues[index
            - 1].0)),
{
    assert(valid_fn(mid, func));
    assert(fn_model(mid, func).upvalues == fn_model(pre, func).upvalues.update(
        index - 1,
        (fn_model(pre, func).upvalues[index - 1].0, value),
    ));
    assert(upvalue_in_range(fn_model(mid, func), index));
}

/// Read-only restore: setting a table read-only and then installing
/// members through the extension layer leaves the table read-only — the
/// installation forces the flag open only for its own writes and restores
/// it on every exit path.
pub proof fn lemma_readonly_restored(
    pre: Lua,
    mid: Lua,
    post: Lua,
    t: usize,
    items: Seq<(Seq<u8>, ValueModel)>,
    r1: Result<(), VmError>,
    r2: Result<(), VmError>,
)
    requires
        (t as int) < pre.tables@.len(),
        set_readonly_post(pre, mid, t, true, r1),
        install_members_post(mid, post, t, items, r2),
    ensures
        post.tables@[t as int].readonly,
        r2 == Ok::<(), VmError>(()),
{
}

/// Metamethod hook: for an object whose metatable is present and
/// writable, hooking a method name succeeds, returns the previous handler
/// under that name (nil when none), installs the replacement under
/// exactly that name, and answers every other metatable key as before.
pub proof fn lemma_metamethod_hook(
    pre: Lua,
    post: Lua,
    t: usize,
    m: usize,
    method: Seq<u8>,
    replacement: usize,
    r: Result<Value, VmError>,
)
    requires
        pre.wf(),
        valid_fn(pre, replacement),
        (t as int) < pre.tables@.len(),
        pre.tables@[t as int].metatable == Some(m),
        !pre.tables@[m as int].readonly,
        hook_metamethod_post(pre, post, ValueModel::Table(t as int), method, replacement, r),
    ensures
        (r matches Ok(prev) && prev@ == lookup(
            eview(pre.tables@[m as int].entries@),
            ValueModel::Str(method),
        )),
        lookup(eview(post.tables@[m as int].entries@), ValueModel::Str(method))
            == ValueModel::Function(replacement as int),
        forall|k: ValueModel|
            k != ValueModel::Str(method) ==> #[trigger] lookup(
                eview(post.tables@[m as int].entries@),
                k,
            ) == lookup(eview(pre.tables@[m as int].entries@), k),
        post.tables@[t as int].metatable == Some(m),
{
    assert(table_wf_in(pre.tables@, t as int));
    assert(table_wf_in(pre.tables@, m as int));
    let es = eview(pre.tables@[m as int].entries@);
    assert(wf_entries(es));
    lemma_tbl_set_lookup(es, ValueModel::Str(method), ValueModel::Function(replacement as int));
    assert forall|k: ValueModel|
        k != ValueModel::Str(method) implies #[trigger] lookup(
        eview(post.tables@[m as int].entries@),
        k,
    ) == lookup(es, k) by {
        lemma_tbl_set_frame(es, ValueModel::Str(method), ValueModel::Function(replacement as int), k);
    }
    if m != t {
        assert(post.tables@[t as int] == pre.tables@[t as int]);
    }
}

/// Hook idempotence of identity: hooking the same target twice leaves
/// exactly one entry for the target's identity in the hook registry,
/// valued with the second replacement.
pub proof fn lemma_hook_overwrites(
    pre: Lua,
    mid: Lua,
    post: Lua,
    target: usize,
    repl1: usize,
    repl2: usize,
    r1: Result<usize, VmError>,
    r2: Result<usize, VmError>,
)
    requires
        valid_fn(pre, target),
        valid_fn(pre, repl1),
        valid_fn(pre, repl2),
        hook_function_post(pre, mid, target, repl1, r1),
        hook_function_post(mid, post, target, repl2, r2),
    ensures
        hook_lookup(post.hooks@, target) == Some(repl2),
        exists|i: int|
            0 <= i < post.hooks@.len() && (#[trigger] post.hooks@[i]).0 == target
                && post.hooks@[i].1 == repl2,
        forall|i: int, j: int|
            0 <= i < post.hooks@.len() && 0 <= j < post.hooks@.len() && (
            #[trigger] post.hooks@[i]).0 == target && (#[trigger] post.hooks@[j]).0 == target
                ==> i == j,
{
    assert(valid_fn(mid, target));
    assert(valid_fn(mid, repl2));
    assert(hooks_unique(post.hooks@));
    let i = crate::globals::hook_idx(post.hooks@, target);
    assert(crate::globals::hook_has(post.hooks@, target));
    assert(post.hooks@[i].0 == target && post.hooks@[i].1 == repl2);
    assert forall|a: int, b: int|
        0 <= a < post.hooks@.len() && 0 <= b < post.hooks@.len() && (#[trigger] post.hooks@[a]).0
            == target && (#[trigger] post.hooks@[b]).0 == target implies a == b by {
        if a < b {
            assert(post.hooks@[a].0 != post.hooks@[b].0);
        } else if b < a {
            assert(post.hooks@[b].0 != post.hooks@[a].0);
        }
    }
}

} // verus!

//! Extension trait for function introspection: the constant pool, nested
//! prototypes, and local slots of active call frames.
//!
//! Reads of constants and frame slots are lenient — an out-of-range index
//! yields nil rather than an error, consistent with the VM's scripting
//! idioms — while writes are bounds-checked no-ops out of range. Indices
//! into the constant and prototype pools are 0-based, as the VM's count
//! primitives report them; those primitives report a 32-bit count, which
//! bounds the pools the operations can walk.

use vstd::prelude::*;
use crate::value::{
    Value, ValueModel, clone_bytes, clone_value, clone_values, clone_names, bytes_eq, vals_view,
    names_view, named_vals_view,
};
use crate::vm::{
    Lua, VmError, FunctionModel, FuncTemplateModel, state_eq, state_eq_except_functions,
    templs_view,
};
use crate::table::{eview, has_key, tbl_set, wf_entries};
use crate::debug_api::{valid_fn, fn_model};

verus! {

/// The largest pool size the VM's 32-bit count primitives can report.
pub open spec fn count_limit() -> int {
    0x7fff_ffff
}

/// The value of the upvalue named `name`, first match from the front; nil
/// when no upvalue carries the name.
pub open spec fn upval_lookup(uvs: Seq<(Seq<u8>, ValueModel)>, name: Seq<u8>) -> ValueModel
    decreases uvs.len(),
{
    if uvs.len() == 0 {
        ValueModel::Nil
    } else if uvs[0].0 == name {
        uvs[0].1
    } else {
        upval_lookup(uvs.drop_first(), name)
    }
}

/// The upvalues an activated closure starts with: each template name bound
/// to the enclosing function's current binding of that name (nil when the
/// enclosing function has none).
pub open spec fn activated_upvals(names: Seq<Seq<u8>>, uvs: Seq<(Seq<u8>, ValueModel)>) -> Seq<
    (Seq<u8>, ValueModel),
> {
    names.map_values(|n: Seq<u8>| (n, upval_lookup(uvs, n)))
}

/// The entries of the table `get_function_constants` builds: constant `i`
/// stored under numeric key `i + 1`, nil constants leaving a gap.
pub open spec fn const_array(cs: Seq<ValueModel>) -> Seq<(ValueModel, ValueModel)>
    decreases cs.len(),
{
    if cs.len() == 0 {
        Seq::empty()
    } else {
        let prefix = const_array(cs.drop_last());
        if cs.last() == ValueModel::Nil {
            prefix
        } else {
            prefix.push((ValueModel::Num(cs.len() as i64), cs.last()))
        }
    }
}

/// Every key in `const_array(cs)` is a numeric key between 1 and the pool
/// size.
pub proof fn lemma_const_array_keys(cs: Seq<ValueModel>)
    requires
        cs.len() <= count_limit(),
    ensures
        forall|idx: int|
            0 <= idx < const_array(cs).len() ==> ((#[trigger] const_array(cs)[idx]).0 matches
            ValueModel::Num(x) && 1 <= x <= cs.len()),
    decreases cs.len(),
{
    if cs.len() > 0 {
        lemma_const_array_keys(cs.drop_last());
        let prefix = const_array(cs.drop_last());
        assert forall|idx: int|
            0 <= idx < const_array(cs).len() implies ((#[trigger] const_array(cs)[idx]).0 matches
        ValueModel::Num(x) && 1 <= x <= cs.len()) by {
            if idx < prefix.len() {
                assert(const_array(cs)[idx] == prefix[idx]);
            }
        }
    }
}

/// The constants table is well formed: its keys are pairwise distinct
/// numeric keys and it stores no nil.
pub proof fn lemma_const_array_wf(cs: Seq<ValueModel>)
    requires
        cs.len() <= count_limit(),
    ensures
        wf_entries(const_array(cs)),
    decreases cs.len(),
{
    if cs.len() > 0 {
        lemma_const_array_wf(cs.drop_last());
        lemma_const_array_keys(cs.drop_last());
        let prefix = const_array(cs.drop_last());
        if cs.last() != ValueModel::Nil {
            let es = const_array(cs);
            assert forall|a: int, b: int| 0 <= a < b < es.len() implies es[a].0 != es[b].0 by {
                if b < prefix.len() {
                    assert(es[a] == prefix[a] && es[b] == prefix[b]);
                } else {
                    assert(es[a] == prefix[a]);
                    assert(es[b].0 == ValueModel::Num(cs.len() as i64));
                }
            }
            assert forall|a: int| 0 <= a < es.len() implies es[a].1 != ValueModel::Nil by {
                if a < prefix.len() {
                    assert(es[a] == prefix[a]);
                }
            }
        }
    }
}

/// Reading the constants table under key `i + 1` gives constant `i`, or
/// nil where the pool holds nil there.
pub proof fn lemma_const_array_lookup(cs: Seq<ValueModel>, i: int)
    requires
        cs.len() <= count_limit(),
        0 <= i < cs.len(),
    ensures
        crate::table::lookup(const_array(cs), ValueModel::Num((i + 1) as i64)) == (if cs[i]
            == ValueModel::Nil {
            ValueModel::Nil
        } else {
            cs[i]
        }),
    decreases cs.len(),
{
    let key = ValueModel::Num((i + 1) as i64);
    let prefix = const_array(cs.drop_last());
    lemma_const_array_wf(cs.drop_last());
    lemma_const_array_keys(cs.drop_last());
    if i == cs.len() - 1 {
        if cs[i] == ValueModel::Nil {
            assert(const_array(cs) == prefix);
            if has_key(prefix, key) {
                let idx = crate::table::idx_of(prefix, key);
                assert(prefix[idx].0 matches ValueModel::Num(x) && 1 <= x <= cs.len() - 1);
                assert(false);
            }
        } else {
            assert(!has_key(prefix, key)) by {
                if has_key(prefix, key) {
                    let idx = crate::table::idx_of(prefix, key);
                    assert(prefix[idx].0 matches ValueModel::Num(x) && 1 <= x <= cs.len() - 1);
                }
            }
            assert(const_array(cs) == tbl_set(prefix, key, cs[i]));
            crate::table::lemma_tbl_set_lookup(prefix, key, cs[i]);
        }
    } else {
        lemma_const_array_lookup(cs.drop_last(), i);
        assert(cs.drop_last()[i] == cs[i]);
        if cs.last() == ValueModel::Nil {
            assert(const_array(cs) == prefix);
        } else {
            let lastkey = ValueModel::Num(cs.len() as i64);
            assert(!has_key(prefix, lastkey)) by {
                if has_key(prefix, lastkey) {
                    let idx = crate::table::idx_of(prefix, lastkey);
                    assert(prefix[idx].0 matches ValueModel::Num(x) && 1 <= x <= cs.len() - 1);
                }
            }
            assert(const_array(cs) == tbl_set(prefix, lastkey, cs.last()));
            assert(key != lastkey);
            crate::table::lemma_tbl_set_frame(prefix, lastkey, cs.last(), key);
        }
    }
}

/// The entries of the table `get_function_protos` builds: the inert
/// instance of prototype `i`, freshly allocated at function heap slot
/// `base + i`, stored under numeric key `i + 1`.
pub open spec fn proto_array(base: int, n: int) -> Seq<(ValueModel, ValueModel)> {
    Seq::new(n as nat, |i: int| (ValueModel::Num((i + 1) as i64), ValueModel::Function(base + i)))
}

/// A freshly instantiated inert prototype: the template's constant pool,
/// no nested prototypes, and no resolved upvalues.
pub open spec fn inert_instance(fm2: FunctionModel, tm: FuncTemplateModel) -> bool {
    !fm2.is_native && fm2.constants == tm.constants && fm2.protos.len() == 0 && fm2.upvalues.len()
        == 0
}

/// A freshly activated closure: the template's constant pool, no nested
/// prototypes, and each template upvalue name resolved against the
/// enclosing function's current bindings.
pub open spec fn activated_instance(
    fm2: FunctionModel,
    tm: FuncTemplateModel,
    enclosing: FunctionModel,
) -> bool {
    !fm2.is_native && fm2.constants == tm.constants && fm2.protos.len() == 0 && fm2.upvalues
        == activated_upvals(tm.upvalue_names, enclosing.upvalues)
}

/// What collecting the constant pool into a fresh table leaves behind.
pub open spec fn get_constants_post(pre: Lua, post: Lua, func: usize, r: Result<
    usize,
    VmError,
>) -> bool {
    if valid_fn(pre, func) {
        let t = pre.tables@.len() as int;
        &&& state_eq_except_tables_grown(pre, post, 1)
        &&& eview(post.tables@[t].entries@) == const_array(fn_model(pre, func).constants)
        &&& !post.tables@[t].readonly
        &&& post.tables@[t].metatable == Option::<usize>::None
        &&& r == Ok::<usize, VmError>(t as usize)
    } else {
        state_eq(pre, post) && r == Err::<usize, VmError>(VmError::NotAFunction)
    }
}

/// Everything but the table heap agrees up to stack contents, and the
/// table heap grew by `n` fresh tables, the old ones untouched.
pub open spec fn state_eq_except_tables_grown(pre: Lua, post: Lua, n: int) -> bool {
    &&& post.stack@ == pre.stack@
    &&& post.functions == pre.functions
    &&& post.frames == pre.frames
    &&& post.registry == pre.registry
    &&& post.hooks == pre.hooks
    &&& post.tables@.len() == pre.tables@.len() + n
    &&& forall|i: int| 0 <= i < pre.tables@.len() ==> post.tables@[i] == pre.tables@[i]
}

/// What reading one constant leaves behind: the constant at the 0-based
/// index, or nil when the index is at or past the pool's end; the state is
/// untouched.
pub open spec fn get_constant_post(pre: Lua, post: Lua, func: usize, index: usize, r: Result<
    Value,
    VmError,
>) -> bool {
    state_eq(pre, post) && if valid_fn(pre, func) {
        let fm = fn_model(pre, func);
        match r {
            Ok(v) => v@ == if (index as int) < fm.constants.len() {
                fm.constants[index as int]
            } else {
                ValueModel::Nil
            },
            Err(_) => false,
        }
    } else {
        r == Err::<Value, VmError>(VmError::NotAFunction)
    }
}

/// What writing one constant leaves behind: in range the pool slot is
/// replaced and nothing else changes; out of range the write is a no-op
/// that still reports success.
pub open spec fn set_constant_post(
    pre: Lua,
    post: Lua,
    func: usize,
    index: usize,
    value: ValueModel,
    r: Result<(), VmError>,
) -> bool {
    if valid_fn(pre, func) && (index as int) < fn_model(pre, func).constants.len() {
        let fm = fn_model(pre, func);
        let fm2 = fn_model(post, func);
        &&& state_eq_except_functions(pre, post)
        &&& post.functions@.len() == pre.functions@.len()
        &&& forall|i: int|
            0 <= i < pre.functions@.len() && i != func ==> post.functions@[i]
                == pre.functions@[i]
        &&& fm2.is_native == fm.is_native
        &&& fm2.constants == fm.constants.update(index as int, value)
        &&& fm2.protos == fm.protos
        &&& fm2.upvalues == fm.upvalues
        &&& r == Ok::<(), VmError>(())
    } else {
        &&& state_eq(pre, post)
        &&& if valid_fn(pre, func) {
            r == Ok::<(), VmError>(())
        } else {
            r == Err::<(), VmError>(VmError::NotAFunction)
        }
    }
}

/// What collecting the prototypes into a fresh table leaves behind: one
/// inert instance per prototype, allocated in order at the end of the
/// function heap, and a fresh table mapping key `i + 1` to instance `i`.
pub open spec fn get_protos_post(pre: Lua, post: Lua, func: usize, r: Result<
    usize,
    VmError,
>) -> bool {
    if valid_fn(pre, func) {
        let fm = fn_model(pre, func);
        let t = pre.tables@.len() as int;
        let base = pre.functions@.len() as int;
        let n = fm.protos.len() as int;
        &&& post.stack@ == pre.stack@
        &&& post.frames == pre.frames
        &&& post.registry == pre.registry
        &&& post.hooks == pre.hooks
        &&& post.tables@.len() == pre.tables@.len() + 1
        &&& forall|i: int| 0 <= i < pre.tables@.len() ==> post.tables@[i] == pre.tables@[i]
        &&& eview(post.tables@[t].entries@) == proto_array(base, n)
        &&& !post.tables@[t].readonly
        &&& post.tables@[t].metatable == Option::<usize>::None
        &&& post.functions@.len() == pre.functions@.len() + n
        &&& forall|i: int| 0 <= i < base ==> post.functions@[i] == pre.functions@[i]
        &&& forall|j: int|
            0 <= j < n ==> inert_instance(#[trigger] post.functions@[base + j]@, fm.protos[j])
        &&& r == Ok::<usize, VmError>(t as usize)
    } else {
        state_eq(pre, post) && r == Err::<usize, VmError>(VmError::NotAFunction)
    }
}

/// What fetching one prototype leaves behind: past the pool's end, `None`;
/// in range, a fresh function — inert when `activated` is false (its
/// upvalues are unresolved placeholders), a live closure over the
/// enclosing function's current bindings when true.
pub open spec fn get_proto_post(
    pre: Lua,
    post: Lua,
    func: usize,
    index: usize,
    activated: bool,
    r: Result<Option<usize>, VmError>,
) -> bool {
    if valid_fn(pre, func) {
        let fm = fn_model(pre, func);
        if (index as int) < fm.protos.len() {
            let fresh = pre.functions@.len();
            &&& state_eq_except_functions(pre, post)
            &&& post.functions@.len() == pre.functions@.len() + 1
            &&& forall|i: int| 0 <= i < fresh ==> post.functions@[i] == pre.functions@[i]
            &&& if activated {
                activated_instance(post.functions@[fresh as int]@, fm.protos[index as int], fm)
            } else {
                inert_instance(post.functions@[fresh as int]@, fm.protos[index as int])
            }
            &&& r == Ok::<Option<usize>, VmError>(Some(fresh as usize))
        } else {
            state_eq(pre, post) && r == Ok::<Option<usize>, VmError>(None)
        }
    } else {
        state_eq(pre, post) && r == Err::<Option<usize>, VmError>(VmError::NotAFunction)
    }
}

/// What reading a frame slot leaves behind: the value the VM reports for
/// that level and 1-based index, nil when the frame or slot does not
/// exist; the state is untouched.
pub open spec fn get_stack_post(pre: Lua, post: Lua, level: usize, index: usize, r: Result<
    Value,
    VmError,
>) -> bool {
    state_eq(pre, post) && match r {
        Ok(v) => v@ == pre.frame_slot(level as int, index as int),
        Err(_) => false,
    }
}

/// What writing a frame slot leaves behind: an existing slot is replaced;
/// a missing frame or slot makes the write a silent no-op, since frame
/// shapes vary dynamically.
pub open spec fn set_stack_post(
    pre: Lua,
    post: Lua,
    level: usize,
    index: usize,
    value: Value,
    r: Result<(), VmError>,
) -> bool {
    let nframes = pre.frames@.len() as int;
    let fr = nframes - 1 - level;
    if 0 <= (level as int) < nframes && 1 <= index <= pre.frames@[fr].locals@.len() {
        &&& post.stack@ == pre.stack@
        &&& post.tables == pre.tables
        &&& post.functions == pre.functions
        &&& post.registry == pre.registry
        &&& post.hooks == pre.hooks
        &&& post.frames@.len() == pre.frames@.len()
        &&& forall|i: int| 0 <= i < nframes && i != fr ==> post.frames@[i] == pre.frames@[i]
        &&& post.frames@[fr].locals@ == pre.frames@[fr].locals@.update(index - 1, value)
        &&& r == Ok::<(), VmError>(())
    } else {
        state_eq(pre, post) && r == Ok::<(), VmError>(())
    }
}

/// Extension trait for function introspection.
pub trait LuaFunctionExt {
    /// The VM state the implementation operates on.
    spec fn st(&self) -> Lua;

    /// Collects all constants of a function into a fresh table, constant
    /// `i` under key `i + 1`.
    fn get_function_constants(&mut self, func: usize) -> (r: Result<usize, VmError>)
        requires
            old(self).st().wf(),
            valid_fn(old(self).st(), func) ==> fn_model(old(self).st(), func).constants.len()
                <= count_limit(),
        ensures
            final(self).st().wf(),
            get_constants_post(old(self).st(), final(self).st(), func, r),
    ;

    /// Gets the constant at a 0-based index; nil when out of range.
    fn get_function_constant(&mut self, func: usize, index: usize) -> (r: Result<Value, VmError>)
        requires
            old(self).st().wf(),
        ensures
            final(self).st().wf(),
            get_constant_post(old(self).st(), final(self).st(), func, index, r),
    ;

    /// Sets the constant at a 0-based index; a no-op when out of range.
    fn set_function_constant(&mut self, func: usize, index: usize, value: Value) -> (r: Result<
        (),
        VmError,
    >)
        requires
            old(self).st().wf(),
        ensures
            final(self).st().wf(),
            set_constant_post(old(self).st(), final(self).st(), func, index, value@, r),
    ;

    /// Collects all prototypes of a function into a fresh table of inert
    /// instances, prototype `i` under key `i + 1`.
    fn get_function_protos(&mut self, func: usize) -> (r: Result<usize, VmError>)
        requires
            old(self).st().wf(),
            valid_fn(old(self).st(), func) ==> fn_model(old(self).st(), func).protos.len()
                <= count_limit(),
        ensures
            final(self).st().wf(),
            get_protos_post(old(self).st(), final(self).st(), func, r),
    ;

    /// Gets the prototype at a 0-based index, as an inert template or as a
    /// closure activated against the enclosing function's bindings.
    fn get_function_proto(&mut self, func: usize, index: usize, activated: bool) -> (r: Result<
        Option<usize>,
        VmError,
    >)
        requires
            old(self).st().wf(),
        ensures
            final(self).st().wf(),
            get_proto_post(old(self).st(), final(self).st(), func, index, activated, r),
    ;

    /// Reads a local slot of the active frame `level` frames up, at a
    /// 1-based index; nil when the frame or slot does not exist.
    fn get_stack_value(&mut self, level: usize, index: usize) -> (r: Result<Value, VmError>)
        requires
            old(self).st().wf(),
        ensures
            final(self).st().wf(),
            get_stack_post(old(self).st(), final(self).st(), level, index, r),
    ;

    /// Writes a local slot of the active frame `level` frames up, at a
    /// 1-based index; a silent no-op when the frame or slot does not
    /// exist.
    fn set_stack_value(&mut self, level: usize, index: usize, value: Value) -> (r: Result<
        (),
        VmError,
    >)
        requires
            old(self).st().wf(),
        ensures
            final(self).st().wf(),
            set_stack_post(old(self).st(), final(self).st(), level, index, value, r),
    ;
}

/// The first upvalue named `name`, scanning from the front; nil when none
/// carries the name.
fn lookup_upvalue_by_name(uvs: &Vec<(Vec<u8>, Value)>, name: &Vec<u8>) -> (r: Value)
    ensures
        r@ == upval_lookup(named_vals_view(uvs@), name@),
{
    let ghost whole = named_vals_view(uvs@);
    proof {
        assert(whole.skip(0) =~= whole);
    }
    let mut i: usize = 0;
    while i < uvs.len()
        invariant
            i <= uvs.len(),
            whole == named_vals_view(uvs@),
            whole.len() == uvs@.len(),
            upval_lookup(whole, name@) == upval_lookup(whole.skip(i as int), name@),
        decreases uvs.len() - i,
    {
        if bytes_eq(&uvs[i].0, name) {
            proof {
                assert(whole.skip(i as int)[0] == whole[i as int]);
                assert(whole[i as int].0 == name@);
            }
            return clone_value(&uvs[i].1);
        }
        proof {
            assert(whole.skip(i as int)[0].0 != name@);
            assert(whole.skip(i as int).drop_first() =~= whole.skip(i + 1));
        }
        i += 1;
    }
    proof {
        assert(whole.skip(uvs@.len() as int) =~= Seq::<(Seq<u8>, ValueModel)>::empty());
    }
    Value::Nil
}

impl LuaFunctionExt for Lua {
    open spec fn st(&self) -> Lua {
        *self
    }

    fn get_function_constants(&mut self, func: usize) -> (r: Result<usize, VmError>) {
        let g = self.stack_guard();
        self.stack_push(Value::Function(func));
        if func >= self.functions.len() {
            self.stack_restore(g);
            proof {
                assert(self.stack@ =~= old(self).stack@);
            }
            return Err(VmError::NotAFunction);
        }
        let ghost fm = fn_model(*old(self), func);
        let cs = clone_values(&self.functions[func].constants);
        let t = self.create_table();
        let mut i: usize = 0;
        while i < cs.len()
            invariant
                old(self).wf(),
                self.wf(),
                i <= cs.len(),
                vals_view(cs@) == fm.constants,
                cs@.len() == fm.constants.len(),
                cs@.len() <= count_limit(),
                t == old(self).tables@.len(),
                self.stack@ == old(self).stack@.push(Value::Function(func)),
                self.functions == old(self).functions,
                self.frames == old(self).frames,
                self.registry == old(self).registry,
                self.hooks == old(self).hooks,
                self.tables@.len() == old(self).tables@.len() + 1,
                forall|j: int|
                    0 <= j < old(self).tables@.len() ==> self.tables@[j] == old(self).tables@[j],
                eview(self.tables@[t as int].entries@) == const_array(fm.constants.take(i as int)),
                !self.tables@[t as int].readonly,
                self.tables@[t as int].metatable == Option::<usize>::None,
            decreases cs.len() - i,
        {
            let ghost es = eview(self.tables@[t as int].entries@);
            let key = Value::Num((i as i64) + 1);
            let val = clone_value(&cs[i]);
            let ghost keym = key@;
            let ghost valm = val@;
            proof {
                lemma_const_array_keys(fm.constants.take(i as int));
                assert(fm.constants.take(i as int).len() == i as int);
                assert(!has_key(es, keym)) by {
                    if has_key(es, keym) {
                        let idx = crate::table::idx_of(es, keym);
                        assert(es[idx].0 matches ValueModel::Num(x) && 1 <= x <= i as int);
                    }
                }
            }
            let res = self.table_raw_set(t, key, val);
            proof {
                assert(res == Ok::<(), VmError>(()));
                let taken = fm.constants.take(i + 1);
                assert(taken.drop_last() =~= fm.constants.take(i as int));
                assert(taken.last() == fm.constants[i as int]);
                assert(valm == fm.constants[i as int]);
                if valm == ValueModel::Nil {
                    assert(eview(self.tables@[t as int].entries@) == es);
                    assert(const_array(taken) == const_array(fm.constants.take(i as int)));
                } else {
                    assert(eview(self.tables@[t as int].entries@) == es.push((keym, valm)));
                    assert(const_array(taken) == const_array(fm.constants.take(i as int)).push(
                        (ValueModel::Num((i + 1) as i64), fm.constants[i as int]),
                    ));
                    assert(keym == ValueModel::Num((i + 1) as i64));
                }
            }
            i += 1;
        }
        proof {
            assert(fm.constants.take(cs@.len() as int) =~= fm.constants);
        }
        self.stack_restore(g);
        proof {
            assert(self.stack@ =~= old(self).stack@);
        }
        Ok(t)
    }

    fn get_function_constant(&mut self, func: usize, index: usize) -> (r: Result<Value, VmError>) {
        let g = self.stack_guard();
        self.stack_push(Value::Function(func));
        if func >= self.functions.len() {
            self.stack_restore(g);
            proof {
                assert(self.stack@ =~= old(self).stack@);
            }
            return Err(VmError::NotAFunction);
        }
        let out = if index < self.functions[func].constants.len() {
            clone_value(&self.functions[func].constants[index])
        } else {
            Value::Nil
        };
        self.stack_restore(g);
        proof {
            assert(self.stack@ =~= old(self).stack@);
        }
        Ok(out)
    }

    fn set_function_constant(&mut self, func: usize, index: usize, value: Value) -> (r: Result<
        (),
        VmError,
    >) {
        let g = self.stack_guard();
        self.stack_push(Value::Function(func));
        if func >= self.functions.len() {
            self.stack_restore(g);
            proof {
                assert(self.stack@ =~= old(self).stack@);
            }
            return Err(VmError::NotAFunction);
        }
        if index >= self.functions[func].constants.len() {
            self.stack_restore(g);
            proof {
                assert(self.stack@ =~= old(self).stack@);
            }
            return Ok(());
        }
        let ghost fm = fn_model(*old(self), func);
        let fo = &mut self.functions[func];
        let slot = &mut fo.constants[index];
        *slot = value;
        proof {
            assert(vals_view(fo.constants@) =~= fm.constants.update(index as int, value@));
        }
        self.stack_restore(g);
        proof {
            assert(self.stack@ =~= old(self).stack@);
        }
        Ok(())
    }

    fn get_function_protos(&mut self, func: usize) -> (r: Result<usize, VmError>) {
        let g = self.stack_guard();
        self.stack_push(Value::Function(func));
        if func >= self.functions.len() {
            self.stack_restore(g);
            proof {
                assert(self.stack@ =~= old(self).stack@);
            }
            return Err(VmError::NotAFunction);
        }
        let ghost fm = fn_model(*old(self), func);
        let ghost base = old(self).functions@.len() as int;
        let count = self.functions[func].protos.len();
        let t = self.create_table();
        let mut i: usize = 0;
        while i < count
            invariant
                old(self).wf(),
                self.wf(),
                i <= count,
                func < old(self).functions@.len(),
                fm == fn_model(*old(self), func),
                count == fm.protos.len(),
                count <= count_limit(),
                base == old(self).functions@.len() as int,
                t == old(self).tables@.len(),
                self.stack@ == old(self).stack@.push(Value::Function(func)),
                self.frames == old(self).frames,
                self.registry == old(self).registry,
                self.hooks == old(self).hooks,
                self.tables@.len() == old(self).tables@.len() + 1,
                forall|j: int|
                    0 <= j < old(self).tables@.len() ==> self.tables@[j] == old(self).tables@[j],
                eview(self.tables@[t as int].entries@) == proto_array(base, i as int),
                !self.tables@[t as int].readonly,
                self.tables@[t as int].metatable == Option::<usize>::None,
                self.functions@.len() == base + i,
                forall|j: int| 0 <= j < base ==> self.functions@[j] == old(self).functions@[j],
                forall|j: int|
                    0 <= j < i ==> inert_instance(
                        #[trigger] self.functions@[base + j]@,
                        fm.protos[j],
                    ),
            decreases count - i,
        {
            let tmc = clone_values(&self.functions[func].protos[i].constants);
            proof {
                assert(templs_view(self.functions@[func as int].protos@)[i as int]
                    == self.functions@[func as int].protos@[i as int]@);
                assert(vals_view(tmc@) == fm.protos[i as int].constants);
            }
            let fresh = self.create_lua_function(tmc, Vec::new(), Vec::new());
            proof {
                assert(templs_view(Seq::<crate::vm::FuncTemplate>::empty()) =~= Seq::<
                    FuncTemplateModel,
                >::empty());
                assert(named_vals_view(Seq::<(Vec<u8>, Value)>::empty()) =~= Seq::<
                    (Seq<u8>, ValueModel),
                >::empty());
                assert(inert_instance(self.functions@[base + i]@, fm.protos[i as int]));
            }
            let ghost es = eview(self.tables@[t as int].entries@);
            let key = Value::Num((i as i64) + 1);
            let ghost keym = key@;
            proof {
                assert(!has_key(es, keym)) by {
                    if has_key(es, keym) {
                        let idx = crate::table::idx_of(es, keym);
                        assert(es[idx] == proto_array(base, i as int)[idx]);
                    }
                }
            }
            let res = self.table_raw_set(t, key, Value::Function(fresh));
            proof {
                assert(res == Ok::<(), VmError>(()));
                assert(eview(self.tables@[t as int].entries@) =~= proto_array(base, i + 1));
            }
            i += 1;
        }
        self.stack_restore(g);
        proof {
            assert(self.stack@ =~= old(self).stack@);
        }
        Ok(t)
    }

    fn get_function_proto(&mut self, func: usize, index: usize, activated: bool) -> (r: Result<
        Option<usize>,
        VmError,
    >) {
        let g = self.stack_guard();
        self.stack_push(Value::Function(func));
        if func >= self.functions.len() {
            self.stack_restore(g);
            proof {
                assert(self.stack@ =~= old(self).stack@);
            }
            return Err(VmError::NotAFunction);
        }
        if index >= self.functions[func].protos.len() {
            self.stack_restore(g);
            proof {
                assert(self.stack@ =~= old(self).stack@);
            }
            return Ok(None);
        }
        let ghost fm = fn_model(*old(self), func);
        let tmc = clone_values(&self.functions[func].protos[index].constants);
        let names = clone_names(&self.functions[func].protos[index].upvalue_names);
        proof {
            assert(templs_view(self.functions@[func as int].protos@)[index as int]
                == self.functions@[func as int].protos@[index as int]@);
            assert(vals_view(tmc@) == fm.protos[index as int].constants);
            assert(names_view(names@) == fm.protos[index as int].upvalue_names);
        }
        let ups: Vec<(Vec<u8>, Value)> = if activated {
            let mut acc: Vec<(Vec<u8>, Value)> = Vec::new();
            let mut i: usize = 0;
            let ghost mid = *self;
            while i < names.len()
                invariant
                    i <= names.len(),
                    *self == mid,
                    func < self.functions@.len(),
                    acc@.len() == i,
                    forall|j: int|
                        0 <= j < i ==> (#[trigger] acc@[j]).0@ == names@[j]@ && acc@[j].1@
                            == upval_lookup(fn_model(*self, func).upvalues, names@[j]@),
                decreases names.len() - i,
            {
                let n2 = clone_bytes(&names[i]);
                let v = lookup_upvalue_by_name(&self.functions[func].upvalues, &names[i]);
                acc.push((n2, v));
                i += 1;
            }
            proof {
                assert forall|j: int|
                    0 <= j < names@.len() implies named_vals_view(acc@)[j] == activated_upvals(
                    names_view(names@),
                    fm.upvalues,
                )[j] by {
                    assert(acc@[j].0@ == names@[j]@);
                }
                assert(named_vals_view(acc@) =~= activated_upvals(names_view(names@), fm.upvalues));
            }
            acc
        } else {
            Vec::new()
        };
        let ghost upsm = named_vals_view(ups@);
        let fresh = self.create_lua_function(tmc, Vec::new(), ups);
        proof {
            assert(templs_view(Seq::<crate::vm::FuncTemplate>::empty()) =~= Seq::<
                FuncTemplateModel,
            >::empty());
            if !activated {
                assert(named_vals_view(Seq::<(Vec<u8>, Value)>::empty()) =~= Seq::<
                    (Seq<u8>, ValueModel),
                >::empty());
            }
        }
        self.stack_restore(g);
        proof {
            assert(self.stack@ =~= old(self).stack@);
        }
        Ok(Some(fresh))
    }

    fn get_stack_value(&mut self, level: usize, index: usize) -> (r: Result<Value, VmError>) {
        let g = self.stack_guard();
        let out = if level < self.frames.len() {
            let fr = self.frames.len() - 1 - level;
            if 1 <= index && index <= self.frames[fr].locals.len() {
                clone_value(&self.frames[fr].locals[index - 1])
            } else {
                Value::Nil
            }
        } else {
            Value::Nil
        };
        self.stack_push(clone_value(&out));
        self.stack_restore(g);
        proof {
            assert(self.stack@ =~= old(self).stack@);
        }
        Ok(out)
    }

    fn set_stack_value(&mut self, level: usize, index: usize, value: Value) -> (r: Result<
        (),
        VmError,
    >) {
        let g = self.stack_guard();
        self.stack_push(clone_value(&value));
        if level < self.frames.len() {
            let fr = self.frames.len() - 1 - level;
            if 1 <= index && index <= self.frames[fr].locals.len() {
                let frame = &mut self.frames[fr];
                let slot = &mut frame.locals[index - 1];
                *slot = value;
            }
        }
        self.stack_restore(g);
        proof {
            assert(self.stack@ =~= old(self).stack@);
        }
        Ok(())
    }
}

} // verus!

//! Extension trait with debug capabilities: the registry, upvalues,
//! metatables (bypassing the VM's protected-metatable rule), function
//! cloning and table read-only flags.
//!
//! Every operation is a single guarded transaction against the VM: it
//! takes a stack guard, works, and releases the guard on every exit path,
//! so the operand stack depth after the call equals the depth before it.
//! Each method's postcondition states that balance outright.

use vstd::prelude::*;
use crate::value::{Value, ValueModel, clone_bytes, clone_value};
use crate::vm::{
    Lua, VmError, FunctionModel, state_eq, state_eq_except_functions, state_eq_except_tables,
    table_wf_in, clone_function_obj,
};

verus! {

/// The function reference is into the VM's function heap.
pub open spec fn valid_fn(vm: Lua, f: usize) -> bool {
    (f as int) < vm.functions@.len()
}

/// The table reference is into the VM's table heap.
pub open spec fn valid_tbl(vm: Lua, t: usize) -> bool {
    (t as int) < vm.tables@.len()
}

/// The model of function `f` in the VM.
pub open spec fn fn_model(vm: Lua, f: usize) -> FunctionModel {
    vm.functions@[f as int]@
}

/// The 1-based upvalue index is within the function's reported count.
pub open spec fn upvalue_in_range(fm: FunctionModel, index: i32) -> bool {
    1 <= index && index as int <= fm.upvalues.len()
}

/// What fetching the registry leaves behind: an untouched state and the
/// registry table's reference.
pub open spec fn get_registry_post(pre: Lua, post: Lua, r: Result<usize, VmError>) -> bool {
    state_eq(pre, post) && r == Ok::<usize, VmError>(pre.registry)
}

/// What reading an upvalue leaves behind. In range, the upvalue's name and
/// value come back; out of range (a native function reports no upvalues)
/// the error is `InvalidIndex`; a reference that is no function fails with
/// `NotAFunction`. The state is untouched.
pub open spec fn get_upvalue_post(
    pre: Lua,
    post: Lua,
    func: usize,
    index: i32,
    r: Result<(Option<Vec<u8>>, Value), VmError>,
) -> bool {
    state_eq(pre, post) && if valid_fn(pre, func) {
        let fm = fn_model(pre, func);
        if upvalue_in_range(fm, index) {
            match r {
                Ok((name, v)) => {
                    &&& match name {
                        Some(n) => n@ == fm.upvalues[index - 1].0,
                        None => false,
                    }
                    &&& v@ == fm.upvalues[index - 1].1
                },
                Err(_) => false,
            }
        } else {
            r == Err::<(Option<Vec<u8>>, Value), VmError>(VmError::InvalidIndex)
        }
    } else {
        r == Err::<(Option<Vec<u8>>, Value), VmError>(VmError::NotAFunction)
    }
}

/// What writing an upvalue leaves behind. In range, the upvalue's value is
/// replaced, its name is kept and returned, and nothing else changes; the
/// error cases mirror [`get_upvalue_post`] and leave the state untouched.
pub open spec fn set_upvalue_post(
    pre: Lua,
    post: Lua,
    func: usize,
    index: i32,
    value: ValueModel,
    r: Result<Option<Vec<u8>>, VmError>,
) -> bool {
    if valid_fn(pre, func) && upvalue_in_range(fn_model(pre, func), index) {
        let fm = fn_model(pre, func);
        let fm2 = fn_model(post, func);
        &&& state_eq_except_functions(pre, post)
        &&& post.functions@.len() == pre.functions@.len()
        &&& forall|i: int|
            0 <= i < pre.functions@.len() && i != func ==> post.functions@[i]
                == pre.functions@[i]
        &&& fm2.is_native == fm.is_native
        &&& fm2.constants == fm.constants
        &&& fm2.protos == fm.protos
        &&& fm2.upvalues == fm.upvalues.update(index - 1, (fm.upvalues[index - 1].0, value))
        &&& match r {
            Ok(name) => match name {
                Some(n) => n@ == fm.upvalues[index - 1].0,
                None => false,
            },
            Err(_) => false,
        }
    } else {
        &&& state_eq(pre, post)
        &&& if valid_fn(pre, func) {
            r == Err::<Option<Vec<u8>>, VmError>(VmError::InvalidIndex)
        } else {
            r == Err::<Option<Vec<u8>>, VmError>(VmError::NotAFunction)
        }
    }
}

/// What reading a metatable leaves behind: for a table value its raw
/// metatable reference (ignoring any protection guard), `None` for a value
/// kind without one, `TypeMismatch` for a dangling table reference; the
/// state is untouched.
pub open spec fn get_metatable_post(
    pre: Lua,
    post: Lua,
    value: ValueModel,
    r: Result<Option<usize>, VmError>,
) -> bool {
    state_eq(pre, post) && match value {
        ValueModel::Table(t) => {
            if 0 <= t < pre.tables@.len() {
                r == Ok::<Option<usize>, VmError>(pre.tables@[t].metatable)
            } else {
                r == Err::<Option<usize>, VmError>(VmError::TypeMismatch)
            }
        },
        _ => r == Ok::<Option<usize>, VmError>(None),
    }
}

/// What writing a metatable leaves behind: for a valid table value the
/// metatable reference is replaced (bypassing any protection guard) and
/// nothing else of the table changes; for a value kind without a raw
/// metatable the call reports success and changes nothing; dangling
/// references fail with `TypeMismatch` and change nothing.
pub open spec fn set_metatable_post(
    pre: Lua,
    post: Lua,
    value: ValueModel,
    metatable: Option<usize>,
    r: Result<bool, VmError>,
) -> bool {
    let mt_ok = match metatable {
        Some(m) => (m as int) < pre.tables@.len(),
        None => true,
    };
    match value {
        ValueModel::Table(t) => {
            if 0 <= t < pre.tables@.len() && mt_ok {
                &&& state_eq_except_tables(pre, post)
                &&& post.tables@.len() == pre.tables@.len()
                &&& forall|i: int|
                    0 <= i < pre.tables@.len() && i != t ==> post.tables@[i] == pre.tables@[i]
                &&& post.tables@[t].metatable == metatable
                &&& post.tables@[t].entries@ == pre.tables@[t].entries@
                &&& post.tables@[t].readonly == pre.tables@[t].readonly
                &&& r == Ok::<bool, VmError>(true)
            } else {
                state_eq(pre, post) && r == Err::<bool, VmError>(VmError::TypeMismatch)
            }
        },
        _ => state_eq(pre, post) && r == Ok::<bool, VmError>(true),
    }
}

/// What cloning a function leaves behind: a fresh function object whose
/// model equals the original's, appended to the function heap; the
/// original and everything else are untouched. A reference that is no
/// function fails with `NotAFunction`.
pub open spec fn clone_function_post(
    pre: Lua,
    post: Lua,
    func: usize,
    r: Result<usize, VmError>,
) -> bool {
    if valid_fn(pre, func) {
        &&& state_eq_except_functions(pre, post)
        &&& post.functions@.len() == pre.functions@.len() + 1
        &&& forall|i: int|
            0 <= i < pre.functions@.len() ==> post.functions@[i] == pre.functions@[i]
        &&& fn_model(post, pre.functions@.len() as usize) == fn_model(pre, func)
        &&& r == Ok::<usize, VmError>(pre.functions@.len() as usize)
    } else {
        state_eq(pre, post) && r == Err::<usize, VmError>(VmError::NotAFunction)
    }
}

/// What querying the read-only flag leaves behind: the flag as the VM
/// stores it, an untouched state.
pub open spec fn is_readonly_post(pre: Lua, post: Lua, table: usize, r: Result<
    bool,
    VmError,
>) -> bool {
    state_eq(pre, post) && if valid_tbl(pre, table) {
        r == Ok::<bool, VmError>(pre.tables@[table as int].readonly)
    } else {
        r == Err::<bool, VmError>(VmError::TypeMismatch)
    }
}

/// What writing the read-only flag leaves behind: exactly that flag
/// changes, to the given value.
pub open spec fn set_readonly_post(
    pre: Lua,
    post: Lua,
    table: usize,
    readonly: bool,
    r: Result<(), VmError>,
) -> bool {
    if valid_tbl(pre, table) {
        &&& state_eq_except_tables(pre, post)
        &&& post.tables@.len() == pre.tables@.len()
        &&& forall|i: int|
            0 <= i < pre.tables@.len() && i != table ==> post.tables@[i] == pre.tables@[i]
        &&& post.tables@[table as int].readonly == readonly
        &&& post.tables@[table as int].entries@ == pre.tables@[table as int].entries@
        &&& post.tables@[table as int].metatable == pre.tables@[table as int].metatable
        &&& r == Ok::<(), VmError>(())
    } else {
        state_eq(pre, post) && r == Err::<(), VmError>(VmError::TypeMismatch)
    }
}

/// Extension trait with debug capabilities for the VM.
pub trait LuaDebugExt {
    /// The VM state the implementation operates on.
    spec fn st(&self) -> Lua;

    /// Gets the registry table: the VM's persistent root for values that
    /// must survive across calls.
    fn debug_get_registry_value(&mut self) -> (r: Result<usize, VmError>)
        requires
            old(self).st().wf(),
        ensures
            final(self).st().wf(),
            get_registry_post(old(self).st(), final(self).st(), r),
    ;

    /// Gets an upvalue by 1-based index: its name and current value.
    fn debug_get_upvalue(&mut self, func: usize, index: i32) -> (r: Result<
        (Option<Vec<u8>>, Value),
        VmError,
    >)
        requires
            old(self).st().wf(),
        ensures
            final(self).st().wf(),
            get_upvalue_post(old(self).st(), final(self).st(), func, index, r),
    ;

    /// Sets an upvalue by 1-based index, returning its name.
    fn debug_set_upvalue(&mut self, func: usize, index: i32, value: Value) -> (r: Result<
        Option<Vec<u8>>,
        VmError,
    >)
        requires
            old(self).st().wf(),
        ensures
            final(self).st().wf(),
            set_upvalue_post(old(self).st(), final(self).st(), func, index, value@, r),
    ;

    /// Gets the metatable of a value, bypassing any protection guard.
    fn debug_get_metatable(&mut self, value: &Value) -> (r: Result<Option<usize>, VmError>)
        requires
            old(self).st().wf(),
        ensures
            final(self).st().wf(),
            get_metatable_post(old(self).st(), final(self).st(), value@, r),
    ;

    /// Sets the metatable of a value, bypassing any protection guard.
    fn debug_set_metatable(&mut self, value: &Value, metatable: Option<usize>) -> (r: Result<
        bool,
        VmError,
    >)
        requires
            old(self).st().wf(),
        ensures
            final(self).st().wf(),
            set_metatable_post(old(self).st(), final(self).st(), value@, metatable, r),
    ;

    /// Clones a function: a second closure indistinguishable from the
    /// original from script code's perspective, without aliasing it.
    fn clone_function(&mut self, func: usize) -> (r: Result<usize, VmError>)
        requires
            old(self).st().wf(),
        ensures
            final(self).st().wf(),
            clone_function_post(old(self).st(), final(self).st(), func, r),
    ;

    /// Checks whether a table is read-only.
    fn is_table_readonly(&mut self, table: usize) -> (r: Result<bool, VmError>)
        requires
            old(self).st().wf(),
        ensures
            final(self).st().wf(),
            is_readonly_post(old(self).st(), final(self).st(), table, r),
    ;

    /// Sets whether a table is read-only.
    fn set_table_readonly(&mut self, table: usize, readonly: bool) -> (r: Result<(), VmError>)
        requires
            old(self).st().wf(),
        ensures
            final(self).st().wf(),
            set_readonly_post(old(self).st(), final(self).st(), table, readonly, r),
    ;
}

impl LuaDebugExt for Lua {
    open spec fn st(&self) -> Lua {
        *self
    }

    fn debug_get_registry_value(&mut self) -> (r: Result<usize, VmError>) {
        let g = self.stack_guard();
        self.stack_push(Value::Table(self.registry));
        let top = self.stack_pop();
        let out = match top {
            Value::Table(t) => Ok(t),
            _ => Err(VmError::TypeMismatch),
        };
        self.stack_restore(g);
        proof {
            assert(self.stack@ =~= old(self).stack@);
        }
        out
    }

    fn debug_get_upvalue(&mut self, func: usize, index: i32) -> (r: Result<
        (Option<Vec<u8>>, Value),
        VmError,
    >) {
        let g = self.stack_guard();
        self.stack_push(Value::Function(func));
        if func >= self.functions.len() {
            self.stack_restore(g);
            proof {
                assert(self.stack@ =~= old(self).stack@);
            }
            return Err(VmError::NotAFunction);
        }
        let count = self.functions[func].upvalues.len();
        if index < 1 || index as usize > count {
            self.stack_restore(g);
            proof {
                assert(self.stack@ =~= old(self).stack@);
            }
            return Err(VmError::InvalidIndex);
        }
        let idx = (index as usize) - 1;
        let name = clone_bytes(&self.functions[func].upvalues[idx].0);
        let val = clone_value(&self.functions[func].upvalues[idx].1);
        self.stack_restore(g);
        proof {
            assert(self.stack@ =~= old(self).stack@);
        }
        Ok((Some(name), val))
    }

    fn debug_set_upvalue(&mut self, func: usize, index: i32, value: Value) -> (r: Result<
        Option<Vec<u8>>,
        VmError,
    >) {
        let g = self.stack_guard();
        self.stack_push(Value::Function(func));
        if func >= self.functions.len() {
            self.stack_restore(g);
            proof {
                assert(self.stack@ =~= old(self).stack@);
            }
            return Err(VmError::NotAFunction);
        }
        let count = self.functions[func].upvalues.len();
        if index < 1 || index as usize > count {
            self.stack_restore(g);
            proof {
                assert(self.stack@ =~= old(self).stack@);
            }
            return Err(VmError::InvalidIndex);
        }
        let idx = (index as usize) - 1;
        let kept_name = clone_bytes(&self.functions[func].upvalues[idx].0);
        let returned_name = clone_bytes(&kept_name);
        let ghost fm = fn_model(*old(self), func);
        let fo = &mut self.functions[func];
        let slot = &mut fo.upvalues[idx];
        *slot = (kept_name, value);
        proof {
            assert(crate::value::named_vals_view(fo.upvalues@) =~= fm.upvalues.update(
                index - 1,
                (fm.upvalues[index - 1].0, value@),
            ));
        }
        self.stack_restore(g);
        proof {
            assert(self.stack@ =~= old(self).stack@);
        }
        Ok(Some(returned_name))
    }

    fn debug_get_metatable(&mut self, value: &Value) -> (r: Result<Option<usize>, VmError>) {
        let g = self.stack_guard();
        self.stack_push(clone_value(value));
        let out = match value {
            Value::Table(t) => {
                if *t < self.tables.len() {
                    Ok(self.tables[*t].metatable)
                } else {
                    Err(VmError::TypeMismatch)
                }
            },
            _ => Ok(None),
        };
        self.stack_restore(g);
        proof {
            assert(self.stack@ =~= old(self).stack@);
        }
        out
    }

    fn debug_set_metatable(&mut self, value: &Value, metatable: Option<usize>) -> (r: Result<
        bool,
        VmError,
    >) {
        let g = self.stack_guard();
        self.stack_push(clone_value(value));
        let mt_ok = match metatable {
            Some(m) => m < self.tables.len(),
            None => true,
        };
        let out = match value {
            Value::Table(t) => {
                if *t < self.tables.len() && mt_ok {
                    let tbl = &mut self.tables[*t];
                    tbl.metatable = metatable;
                    proof {
                        assert forall|i: int|
                            0 <= i < self.tables@.len() implies table_wf_in(self.tables@, i) by {
                            assert(table_wf_in(old(self).tables@, i));
                            if i != *t as int {
                                assert(self.tables@[i] == old(self).tables@[i]);
                            }
                        }
                    }
                    Ok(true)
                } else {
                    Err(VmError::TypeMismatch)
                }
            },
            _ => Ok(true),
        };
        self.stack_restore(g);
        proof {
            assert(self.stack@ =~= old(self).stack@);
        }
        out
    }

    fn clone_function(&mut self, func: usize) -> (r: Result<usize, VmError>) {
        let g = self.stack_guard();
        self.stack_push(Value::Function(func));
        if func >= self.functions.len() {
            self.stack_restore(g);
            proof {
                assert(self.stack@ =~= old(self).stack@);
            }
            return Err(VmError::NotAFunction);
        }
        let cloned = clone_function_obj(&self.functions[func]);
        let fresh = self.functions.len();
        self.functions.push(cloned);
        self.stack_restore(g);
        proof {
            assert(self.stack@ =~= old(self).stack@);
        }
        Ok(fresh)
    }

    fn is_table_readonly(&mut self, table: usize) -> (r: Result<bool, VmError>) {
        let g = self.stack_guard();
        self.stack_push(Value::Table(table));
        let out = if table < self.tables.len() {
            Ok(self.tables[table].readonly)
        } else {
            Err(VmError::TypeMismatch)
        };
        self.stack_restore(g);
        proof {
            assert(self.stack@ =~= old(self).stack@);
        }
        out
    }

    fn set_table_readonly(&mut self, table: usize, readonly: bool) -> (r: Result<(), VmError>) {
        let g = self.stack_guard();
        self.stack_push(Value::Table(table));
        let out = if table < self.tables.len() {
            let tbl = &mut self.tables[table];
            tbl.readonly = readonly;
            proof {
                assert forall|i: int|
                    0 <= i < self.tables@.len() implies table_wf_in(self.tables@, i) by {
                    assert(table_wf_in(old(self).tables@, i));
                    if i != table as int {
                        assert(self.tables@[i] == old(self).tables@[i]);
                    }
                }
            }
            Ok(())
        } else {
            Err(VmError::TypeMismatch)
        };
        self.stack_restore(g);
        proof {
            assert(self.stack@ =~= old(self).stack@);
        }
        out
    }
}

} // verus!

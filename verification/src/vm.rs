//! The VM state and the stack-discipline substrate.
//!
//! A [`Lua`] value models one embedded interpreter instance: its operand
//! stack, its table and function heaps, its call frames, the registry
//! table and the hook registry. Extension operations are verified against
//! this state; every one of them leaves the operand stack at the depth it
//! found it (the stack-balance invariant), which the scoped [`StackGuard`]
//! enforces structurally.

use vstd::prelude::*;
use crate::table::{TableObj, eview, wf_entries, tbl_set, lookup};
use crate::value::{
    Value, ValueModel, vals_view, names_view, named_vals_view, clone_values, clone_names,
    clone_named_vals,
};

verus! {

/// The failures an extension operation can report.
#[derive(Clone, Copy, PartialEq, Eq, Structural, Debug)]
pub enum VmError {
    /// An argument or stack slot is not of the expected kind.
    TypeMismatch,
    /// A constant, prototype, upvalue or stack index is out of the
    /// VM-reported range.
    InvalidIndex,
    /// The operation required a metatable that is absent.
    NoMetatable,
    /// A function-only operation was given some other value kind.
    NotAFunction,
    /// The VM rejected a write to a read-only table.
    ReadOnly,
}

/// The compiled template of a nested function definition, before it
/// captures an enclosing environment.
pub struct FuncTemplate {
    /// The template's literal pool.
    pub constants: Vec<Value>,
    /// Names of the free variables the template captures on activation.
    pub upvalue_names: Vec<Vec<u8>>,
}

/// Mathematical view of a [`FuncTemplate`].
pub struct FuncTemplateModel {
    pub constants: Seq<ValueModel>,
    pub upvalue_names: Seq<Seq<u8>>,
}

impl View for FuncTemplate {
    type V = FuncTemplateModel;

    open spec fn view(&self) -> FuncTemplateModel {
        FuncTemplateModel {
            constants: vals_view(self.constants@),
            upvalue_names: names_view(self.upvalue_names@),
        }
    }
}

/// The view of a sequence of templates.
pub open spec fn templs_view(s: Seq<FuncTemplate>) -> Seq<FuncTemplateModel> {
    s.map_values(|t: FuncTemplate| t@)
}

/// A function object owned by the VM: either an interpreted closure with
/// introspectable internals, or a native function that is opaque.
pub struct FunctionObj {
    /// True for a native (host-implemented) function.
    pub is_native: bool,
    /// The literal pool embedded in the compiled body.
    pub constants: Vec<Value>,
    /// The lexically nested function definitions.
    pub protos: Vec<FuncTemplate>,
    /// The captured free variables, each with its name. A native function
    /// has none.
    pub upvalues: Vec<(Vec<u8>, Value)>,
}

/// Mathematical view of a [`FunctionObj`].
pub struct FunctionModel {
    pub is_native: bool,
    pub constants: Seq<ValueModel>,
    pub protos: Seq<FuncTemplateModel>,
    pub upvalues: Seq<(Seq<u8>, ValueModel)>,
}

impl View for FunctionObj {
    type V = FunctionModel;

    open spec fn view(&self) -> FunctionModel {
        FunctionModel {
            is_native: self.is_native,
            constants: vals_view(self.constants@),
            protos: templs_view(self.protos@),
            upvalues: named_vals_view(self.upvalues@),
        }
    }
}

/// An active call frame: its local variable slots, 1-based from the
/// scripts' point of view.
pub struct Frame {
    pub locals: Vec<Value>,
}

/// One embedded interpreter instance.
pub struct Lua {
    /// The operand stack used by the calling convention.
    pub stack: Vec<Value>,
    /// The table heap; a `Value::Table(t)` references `tables[t]`.
    pub tables: Vec<TableObj>,
    /// The function heap; a `Value::Function(f)` references `functions[f]`.
    pub functions: Vec<FunctionObj>,
    /// The call stack, innermost frame last.
    pub frames: Vec<Frame>,
    /// The registry table's index in `tables`: the persistent root the VM
    /// keeps for values that must survive across calls.
    pub registry: usize,
    /// The hook registry: maps an original function's identity (its heap
    /// index) to its replacement's. Keys are unique; re-hooking a target
    /// overwrites its entry.
    pub hooks: Vec<(usize, usize)>,
}

/// Hook registry keys are pairwise distinct.
pub open spec fn hooks_unique(hs: Seq<(usize, usize)>) -> bool {
    forall|i: int, j: int| 0 <= i < j < hs.len() ==> hs[i].0 != hs[j].0
}

/// All fields except the table heap agree.
pub open spec fn eq_except_tables(pre: Lua, post: Lua) -> bool {
    post.stack == pre.stack && post.functions == pre.functions && post.frames == pre.frames
        && post.registry == pre.registry && post.hooks == pre.hooks
}

/// All fields except the function heap agree.
pub open spec fn eq_except_functions(pre: Lua, post: Lua) -> bool {
    post.stack == pre.stack && post.tables == pre.tables && post.frames == pre.frames
        && post.registry == pre.registry && post.hooks == pre.hooks
}

/// All fields except the operand stack agree.
pub open spec fn eq_except_stack(pre: Lua, post: Lua) -> bool {
    post.tables == pre.tables && post.functions == pre.functions && post.frames == pre.frames
        && post.registry == pre.registry && post.hooks == pre.hooks
}

/// The whole VM state agrees up to the operand stack's contents: the
/// stacks hold equal values and nothing else changed. This is what a pure
/// query leaves behind.
pub open spec fn state_eq(pre: Lua, post: Lua) -> bool {
    post.stack@ == pre.stack@ && eq_except_stack(pre, post)
}

/// Everything but the function heap and the operand stack's identity
/// agrees, with the stacks holding equal values.
pub open spec fn state_eq_except_functions(pre: Lua, post: Lua) -> bool {
    post.stack@ == pre.stack@ && post.tables == pre.tables && post.frames == pre.frames
        && post.registry == pre.registry && post.hooks == pre.hooks
}

/// Everything but the table heap and the operand stack's identity agrees,
/// with the stacks holding equal values.
pub open spec fn state_eq_except_tables(pre: Lua, post: Lua) -> bool {
    post.stack@ == pre.stack@ && post.functions == pre.functions && post.frames == pre.frames
        && post.registry == pre.registry && post.hooks == pre.hooks
}


/// Table `i` of the heap is well formed: entries are a valid association
/// list and its metatable reference, if any, is in range.
pub open spec fn table_wf_in(tables: Seq<TableObj>, i: int) -> bool {
    wf_entries(eview(tables[i].entries@)) && match tables[i].metatable {
        Some(m) => (m as int) < tables.len(),
        None => true,
    }
}

/// Every table of the heap is well formed.
pub open spec fn tables_wf(tables: Seq<TableObj>) -> bool {
    forall|i: int| 0 <= i < tables.len() ==> table_wf_in(tables, i)
}

impl Lua {
    /// Table `i` is well formed in this VM's heap.
    pub open spec fn table_wf(self, i: int) -> bool {
        table_wf_in(self.tables@, i)
    }

    /// The VM state invariant: the registry is a table of the heap, every
    /// table is well formed, and hook registry keys are unique.
    pub open spec fn wf(self) -> bool {
        (self.registry as int) < self.tables@.len() && tables_wf(self.tables@) && hooks_unique(
            self.hooks@,
        )
    }

    /// The local slot the VM reports for a frame `level` frames up from
    /// the innermost one, at 1-based `index`; nil when the frame or slot
    /// does not exist.
    pub open spec fn frame_slot(self, level: int, index: int) -> ValueModel {
        if 0 <= level < self.frames@.len() {
            let locals = self.frames@[self.frames@.len() - 1 - level].locals@;
            if 1 <= index <= locals.len() {
                locals[index - 1]@
            } else {
                ValueModel::Nil
            }
        } else {
            ValueModel::Nil
        }
    }

    /// A fresh VM: empty operand stack, an empty writable registry table,
    /// no functions, no frames, no hooks.
    pub fn new() -> (r: Lua)
        ensures
            r.wf(),
            r.stack@.len() == 0,
            r.tables@.len() == 1,
            r.registry == 0,
            eview(r.tables@[0].entries@).len() == 0,
            !r.tables@[0].readonly,
            r.tables@[0].metatable == Option::<usize>::None,
            r.functions@.len() == 0,
            r.frames@.len() == 0,
            r.hooks@.len() == 0,
    {
        let mut tables: Vec<TableObj> = Vec::new();
        tables.push(TableObj::empty());
        let r = Lua {
            stack: Vec::new(),
            tables,
            functions: Vec::new(),
            frames: Vec::new(),
            registry: 0,
            hooks: Vec::new(),
        };
        r
    }

    /// The operand stack's current depth.
    pub fn stack_size(&self) -> (r: usize)
        ensures
            r == self.stack@.len(),
    {
        self.stack.len()
    }

    /// Takes a snapshot of the operand stack depth. Restoring the guard
    /// brings the stack back to exactly this depth on every exit path.
    pub fn stack_guard(&self) -> (g: StackGuard)
        ensures
            g.depth == self.stack@.len(),
    {
        StackGuard { depth: self.stack.len() }
    }

    /// Pushes a value on the operand stack.
    pub fn stack_push(&mut self, v: Value)
        ensures
            final(self).stack@ == old(self).stack@.push(v),
            eq_except_stack(*old(self), *final(self)),
    {
        self.stack.push(v);
    }

    /// Pops the top of the operand stack.
    pub fn stack_pop(&mut self) -> (r: Value)
        requires
            old(self).stack@.len() > 0,
        ensures
            r == old(self).stack@.last(),
            final(self).stack@ == old(self).stack@.drop_last(),
            eq_except_stack(*old(self), *final(self)),
    {
        let r = self.stack.pop();
        match r {
            Some(v) => v,
            None => {
                proof {
                    assert(false);
                }
                Value::Nil
            },
        }
    }

    /// Releases a stack guard: truncates the operand stack back to the
    /// snapshot depth.
    pub fn stack_restore(&mut self, g: StackGuard)
        requires
            g.depth <= old(self).stack@.len(),
        ensures
            final(self).stack@ == old(self).stack@.subrange(0, g.depth as int),
            eq_except_stack(*old(self), *final(self)),
    {
        self.stack.truncate(g.depth);
    }

    /// Allocates a fresh, writable, empty table and returns its reference.
    pub fn create_table(&mut self) -> (t: usize)
        requires
            old(self).wf(),
        ensures
            final(self).wf(),
            t == old(self).tables@.len(),
            final(self).tables@.len() == old(self).tables@.len() + 1,
            forall|i: int|
                0 <= i < old(self).tables@.len() ==> final(self).tables@[i] == old(
                    self,
                ).tables@[i],
            eview(final(self).tables@[t as int].entries@).len() == 0,
            !final(self).tables@[t as int].readonly,
            final(self).tables@[t as int].metatable == Option::<usize>::None,
            eq_except_tables(*old(self), *final(self)),
    {
        let t = self.tables.len();
        self.tables.push(TableObj::empty());
        proof {
            assert forall|i: int| 0 <= i < self.tables@.len() implies table_wf_in(
                self.tables@,
                i,
            ) by {
                if i < t as int {
                    assert(table_wf_in(old(self).tables@, i));
                    assert(self.tables@[i] == old(self).tables@[i]);
                }
            }
        }
        t
    }

    /// Allocates an interpreted function object and returns its reference,
    /// which is its stable identity.
    pub fn create_lua_function(
        &mut self,
        constants: Vec<Value>,
        protos: Vec<FuncTemplate>,
        upvalues: Vec<(Vec<u8>, Value)>,
    ) -> (f: usize)
        requires
            old(self).wf(),
        ensures
            final(self).wf(),
            f == old(self).functions@.len(),
            final(self).functions@.len() == old(self).functions@.len() + 1,
            forall|i: int|
                0 <= i < old(self).functions@.len() ==> final(self).functions@[i] == old(
                    self,
                ).functions@[i],
            !final(self).functions@[f as int]@.is_native,
            final(self).functions@[f as int]@.constants == vals_view(constants@),
            final(self).functions@[f as int]@.protos == templs_view(protos@),
            final(self).functions@[f as int]@.upvalues == named_vals_view(upvalues@),
            eq_except_functions(*old(self), *final(self)),
    {
        let f = self.functions.len();
        self.functions.push(FunctionObj { is_native: false, constants, protos, upvalues });
        f
    }

    /// Allocates a native function object: opaque, with no introspectable
    /// internals.
    pub fn create_native_function(&mut self) -> (f: usize)
        requires
            old(self).wf(),
        ensures
            final(self).wf(),
            f == old(self).functions@.len(),
            final(self).functions@.len() == old(self).functions@.len() + 1,
            forall|i: int|
                0 <= i < old(self).functions@.len() ==> final(self).functions@[i] == old(
                    self,
                ).functions@[i],
            final(self).functions@[f as int]@.is_native,
            final(self).functions@[f as int]@.constants.len() == 0,
            final(self).functions@[f as int]@.protos.len() == 0,
            final(self).functions@[f as int]@.upvalues.len() == 0,
            eq_except_functions(*old(self), *final(self)),
    {
        let f = self.functions.len();
        self.functions.push(
            FunctionObj {
                is_native: true,
                constants: Vec::new(),
                protos: Vec::new(),
                upvalues: Vec::new(),
            },
        );
        proof {
            assert(vals_view(Seq::<Value>::empty()) =~= Seq::<ValueModel>::empty());
            assert(templs_view(Seq::<FuncTemplate>::empty()) =~= Seq::<FuncTemplateModel>::empty());
            assert(named_vals_view(Seq::<(Vec<u8>, Value)>::empty()) =~= Seq::<
                (Seq<u8>, ValueModel),
            >::empty());
        }
        f
    }

    /// Pushes an active call frame with the given local slots.
    pub fn push_frame(&mut self, locals: Vec<Value>)
        requires
            old(self).wf(),
        ensures
            final(self).wf(),
            final(self).frames@.len() == old(self).frames@.len() + 1,
            final(self).frames@.last().locals@ == locals@,
            forall|i: int|
                0 <= i < old(self).frames@.len() ==> final(self).frames@[i] == old(
                    self,
                ).frames@[i],
            final(self).stack == old(self).stack,
            final(self).tables == old(self).tables,
            final(self).functions == old(self).functions,
            final(self).registry == old(self).registry,
            final(self).hooks == old(self).hooks,
    {
        self.frames.push(Frame { locals });
    }

    /// Raw table read through the VM: the value under key `k` in table
    /// `t`, nil when the key is absent. A reference outside the heap is a
    /// type mismatch.
    pub fn table_raw_get(&self, t: usize, k: &Value) -> (r: Result<Value, VmError>)
        requires
            self.wf(),
        ensures
            match r {
                Ok(v) => (t as int) < self.tables@.len() && v@ == lookup(
                    eview(self.tables@[t as int].entries@),
                    k@,
                ),
                Err(e) => (t as int) >= self.tables@.len() && e == VmError::TypeMismatch,
            },
    {
        if t >= self.tables.len() {
            return Err(VmError::TypeMismatch);
        }
        proof {
            assert(self.table_wf(t as int));
        }
        Ok(self.tables[t].obj_get(k))
    }

    /// Raw table write through the VM. The VM rejects a write when the
    /// table is read-only; otherwise the entry list changes as
    /// [`tbl_set`] says.
    pub fn table_raw_set(&mut self, t: usize, k: Value, v: Value) -> (r: Result<(), VmError>)
        requires
            old(self).wf(),
        ensures
            final(self).wf(),
            eq_except_tables(*old(self), *final(self)),
            final(self).tables@.len() == old(self).tables@.len(),
            (t as int) >= old(self).tables@.len() ==> r == Err::<(), VmError>(VmError::TypeMismatch)
                && final(self).tables == old(self).tables,
            (t as int) < old(self).tables@.len() && old(self).tables@[t as int].readonly ==> r
                == Err::<(), VmError>(VmError::ReadOnly) && final(self).tables == old(self).tables,
            (t as int) < old(self).tables@.len() && !old(self).tables@[t as int].readonly ==> r
                == Ok::<(), VmError>(()) && eview(final(self).tables@[t as int].entries@) == tbl_set(
                eview(old(self).tables@[t as int].entries@),
                k@,
                v@,
            ) && final(self).tables@[t as int].readonly == old(self).tables@[t as int].readonly
                && final(self).tables@[t as int].metatable == old(self).tables@[t as int].metatable
                && (forall|i: int|
                0 <= i < old(self).tables@.len() && i != t ==> final(self).tables@[i] == old(
                    self,
                ).tables@[i]),
    {
        if t >= self.tables.len() {
            return Err(VmError::TypeMismatch);
        }
        if self.tables[t].readonly {
            return Err(VmError::ReadOnly);
        }
        proof {
            assert(self.table_wf(t as int));
        }
        let tbl = &mut self.tables[t];
        tbl.obj_set(k, v);
        proof {
            assert forall|i: int| 0 <= i < self.tables@.len() implies table_wf_in(
                self.tables@,
                i,
            ) by {
                if i == t as int {
                    assert(wf_entries(eview(self.tables@[i].entries@)));
                    assert(self.tables@[i].metatable == old(self).tables@[i].metatable);
                    assert(table_wf_in(old(self).tables@, i));
                } else {
                    assert(self.tables@[i] == old(self).tables@[i]);
                    assert(table_wf_in(old(self).tables@, i));
                }
            }
        }
        Ok(())
    }
}

/// A scoped snapshot of the operand stack depth (see
/// [`Lua::stack_guard`]).
pub struct StackGuard {
    /// The depth to restore.
    pub depth: usize,
}

/// Copies a function template, preserving its view.
pub fn clone_template(t: &FuncTemplate) -> (r: FuncTemplate)
    ensures
        r@ == t@,
{
    FuncTemplate {
        constants: clone_values(&t.constants),
        upvalue_names: clone_names(&t.upvalue_names),
    }
}

/// Copies a sequence of function templates, preserving every view.
pub fn clone_templates(s: &Vec<FuncTemplate>) -> (r: Vec<FuncTemplate>)
    ensures
        templs_view(r@) == templs_view(s@),
{
    let mut r: Vec<FuncTemplate> = Vec::new();
    let mut i: usize = 0;
    while i < s.len()
        invariant
            i <= s.len(),
            r@.len() == i,
            forall|j: int| 0 <= j < i ==> r@[j]@ == s@[j]@,
        decreases s.len() - i,
    {
        r.push(clone_template(&s[i]));
        i += 1;
    }
    proof {
        assert forall|j: int| 0 <= j < s@.len() implies templs_view(r@)[j] == templs_view(s@)[j] by {
            assert(r@[j]@ == s@[j]@);
        }
        assert(templs_view(r@) =~= templs_view(s@));
    }
    r
}

/// Copies a function object, preserving its view: the copy is a second
/// closure whose behavior is indistinguishable from the original's,
/// without aliasing it.
pub fn clone_function_obj(f: &FunctionObj) -> (r: FunctionObj)
    ensures
        r@ == f@,
{
    FunctionObj {
        is_native: f.is_native,
        constants: clone_values(&f.constants),
        protos: clone_templates(&f.protos),
        upvalues: clone_named_vals(&f.upvalues),
    }
}

} // verus!

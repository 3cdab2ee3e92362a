//! Extension trait for GC introspection.
//!
//! The VM's live objects are approximated by walking the registry table —
//! the only root the host can traverse without private VM internals — and
//! classifying each stored value by its runtime type tag. Objects
//! reachable only through chains other than the registry are invisible to
//! this walk; the contracts here are therefore stated over what the
//! registry holds, not over "all live objects".

use vstd::prelude::*;
use crate::value::{Value, ValueModel, TypeTag, tag_of, value_tag, clone_value, bytes_eq, vals_view};
use crate::vm::{Lua, VmError};
use crate::table::{eview, has_key};
use crate::function_api::{count_limit, state_eq_except_tables_grown};

verus! {

/// Which registry values an enumeration keeps.
pub enum GcFilter {
    /// Everything collectable: functions, userdata and threads always,
    /// tables only when the flag is set.
    All(bool),
    /// Only values of one runtime type.
    ByTag(TypeTag),
    /// Nothing: the filter named no known type.
    NoneMatch,
}

/// Whether an enumeration under filter `f` keeps value `v`.
pub open spec fn gc_keep(f: GcFilter, v: ValueModel) -> bool {
    match f {
        GcFilter::All(include_tables) => match tag_of(v) {
            TypeTag::Table => include_tables,
            TypeTag::Function => true,
            TypeTag::Userdata => true,
            TypeTag::Thread => true,
            _ => false,
        },
        GcFilter::ByTag(t) => tag_of(v) == t,
        GcFilter::NoneMatch => false,
    }
}

/// The values an enumeration keeps, in registry order.
pub open spec fn gc_selected(es: Seq<(ValueModel, ValueModel)>, f: GcFilter) -> Seq<ValueModel>
    decreases es.len(),
{
    if es.len() == 0 {
        Seq::empty()
    } else {
        let prefix = gc_selected(es.drop_last(), f);
        if gc_keep(f, es.last().1) {
            prefix.push(es.last().1)
        } else {
            prefix
        }
    }
}

/// Every kept value satisfies the filter, and no more values are kept
/// than the registry holds.
pub proof fn lemma_gc_selected_kept(es: Seq<(ValueModel, ValueModel)>, f: GcFilter)
    ensures
        forall|j: int|
            0 <= j < gc_selected(es, f).len() ==> gc_keep(f, #[trigger] gc_selected(es, f)[j]),
        gc_selected(es, f).len() <= es.len(),
    decreases es.len(),
{
    if es.len() > 0 {
        lemma_gc_selected_kept(es.drop_last(), f);
        let prefix = gc_selected(es.drop_last(), f);
        assert forall|j: int|
            0 <= j < gc_selected(es, f).len() implies gc_keep(
            f,
            #[trigger] gc_selected(es, f)[j],
        ) by {
            if j < prefix.len() {
                assert(gc_selected(es, f)[j] == prefix[j]);
            }
        }
    }
}

/// The entries of the result table: kept value `i` under numeric key
/// `i + 1`.
pub open spec fn gc_array(vs: Seq<ValueModel>) -> Seq<(ValueModel, ValueModel)> {
    Seq::new(vs.len(), |i: int| (ValueModel::Num((i + 1) as i64), vs[i]))
}

/// The byte string `function`.
pub open spec fn kw_function() -> Seq<u8> {
    seq![102u8, 117u8, 110u8, 99u8, 116u8, 105u8, 111u8, 110u8]
}

/// The byte string `table`.
pub open spec fn kw_table() -> Seq<u8> {
    seq![116u8, 97u8, 98u8, 108u8, 101u8]
}

/// The byte string `userdata`.
pub open spec fn kw_userdata() -> Seq<u8> {
    seq![117u8, 115u8, 101u8, 114u8, 100u8, 97u8, 116u8, 97u8]
}

/// The byte string `thread`.
pub open spec fn kw_thread() -> Seq<u8> {
    seq![116u8, 104u8, 114u8, 101u8, 97u8, 100u8]
}

/// The byte string `string`.
pub open spec fn kw_string() -> Seq<u8> {
    seq![115u8, 116u8, 114u8, 105u8, 110u8, 103u8]
}

/// ASCII lowercasing of a byte string.
pub open spec fn to_lower(s: Seq<u8>) -> Seq<u8> {
    s.map_values(|b: u8| if 65 <= b <= 90 { (b + 32) as u8 } else { b })
}

/// The filter a case-insensitive type name selects; an unknown name
/// selects nothing rather than failing.
pub open spec fn filter_for_name(name: Seq<u8>) -> GcFilter {
    let lower = to_lower(name);
    if lower == kw_function() {
        GcFilter::ByTag(TypeTag::Function)
    } else if lower == kw_table() {
        GcFilter::ByTag(TypeTag::Table)
    } else if lower == kw_userdata() {
        GcFilter::ByTag(TypeTag::Userdata)
    } else if lower == kw_thread() {
        GcFilter::ByTag(TypeTag::Thread)
    } else if lower == kw_string() {
        GcFilter::ByTag(TypeTag::Str)
    } else {
        GcFilter::NoneMatch
    }
}

/// What an enumeration leaves behind: one fresh table holding the kept
/// registry values in registry order under keys `1..`, and nothing else
/// changed.
pub open spec fn collect_gc_post(pre: Lua, post: Lua, f: GcFilter, r: Result<
    usize,
    VmError,
>) -> bool {
    let t = pre.tables@.len() as int;
    &&& state_eq_except_tables_grown(pre, post, 1)
    &&& eview(post.tables@[t].entries@) == gc_array(
        gc_selected(eview(pre.tables@[pre.registry as int].entries@), f),
    )
    &&& !post.tables@[t].readonly
    &&& post.tables@[t].metatable == Option::<usize>::None
    &&& r == Ok::<usize, VmError>(t as usize)
}

/// Extension trait for GC introspection. The registry walk is bounded by
/// the VM's 32-bit table size limit.
pub trait LuaGCExt {
    /// The VM state the implementation operates on.
    spec fn st(&self) -> Lua;

    /// Scans the registry-reachable objects and returns them in a fresh
    /// array-like table: functions, userdata and threads always, tables
    /// only when `include_tables` is set.
    fn get_gc_objects(&mut self, include_tables: bool) -> (r: Result<usize, VmError>)
        requires
            old(self).st().wf(),
            eview(old(self).st().tables@[old(self).st().registry as int].entries@).len()
                <= count_limit(),
        ensures
            final(self).st().wf(),
            collect_gc_post(old(self).st(), final(self).st(), GcFilter::All(include_tables), r),
    ;

    /// Scans the registry-reachable objects of one runtime type, named
    /// case-insensitively (`function`, `table`, `userdata`, `thread`,
    /// `string`); an unknown name yields an empty table rather than an
    /// error.
    fn filter_gc_objects(&mut self, type_filter: &Vec<u8>) -> (r: Result<usize, VmError>)
        requires
            old(self).st().wf(),
            eview(old(self).st().tables@[old(self).st().registry as int].entries@).len()
                <= count_limit(),
        ensures
            final(self).st().wf(),
            collect_gc_post(old(self).st(), final(self).st(), filter_for_name(type_filter@), r),
    ;
}

/// Whether the filter keeps this value.
fn gc_keep_exec(f: &GcFilter, v: &Value) -> (r: bool)
    ensures
        r == gc_keep(*f, v@),
{
    match f {
        GcFilter::All(include_tables) => {
            let tg = value_tag(v);
            match tg {
                TypeTag::Table => *include_tables,
                TypeTag::Function => true,
                TypeTag::Userdata => true,
                TypeTag::Thread => true,
                _ => false,
            }
        },
        GcFilter::ByTag(t) => value_tag(v) == *t,
        GcFilter::NoneMatch => false,
    }
}

/// ASCII lowercasing.
fn ascii_lowercase(s: &Vec<u8>) -> (r: Vec<u8>)
    ensures
        r@ == to_lower(s@),
{
    let mut r: Vec<u8> = Vec::new();
    let mut i: usize = 0;
    while i < s.len()
        invariant
            i <= s.len(),
            r@.len() == i,
            forall|j: int| 0 <= j < i ==> r@[j] == to_lower(s@)[j],
        decreases s.len() - i,
    {
        let b = s[i];
        if 65 <= b && b <= 90 {
            r.push(b + 32);
        } else {
            r.push(b);
        }
        i += 1;
    }
    proof {
        assert(r@ =~= to_lower(s@));
    }
    r
}

/// Builds the byte string `function`.
fn make_kw_function() -> (r: Vec<u8>)
    ensures
        r@ == kw_function(),
{
    let mut v: Vec<u8> = Vec::new();
    v.push(102);
    v.push(117);
    v.push(110);
    v.push(99);
    v.push(116);
    v.push(105);
    v.push(111);
    v.push(110);
    proof {
        assert(v@ =~= kw_function());
    }
    v
}

/// Builds the byte string `table`.
fn make_kw_table() -> (r: Vec<u8>)
    ensures
        r@ == kw_table(),
{
    let mut v: Vec<u8> = Vec::new();
    v.push(116);
    v.push(97);
    v.push(98);
    v.push(108);
    v.push(101);
    proof {
        assert(v@ =~= kw_table());
    }
    v
}

/// Builds the byte string `userdata`.
fn make_kw_userdata() -> (r: Vec<u8>)
    ensures
        r@ == kw_userdata(),
{
    let mut v: Vec<u8> = Vec::new();
    v.push(117);
    v.push(115);
    v.push(101);
    v.push(114);
    v.push(100);
    v.push(97);
    v.push(116);
    v.push(97);
    proof {
        assert(v@ =~= kw_userdata());
    }
    v
}

/// Builds the byte string `thread`.
fn make_kw_thread() -> (r: Vec<u8>)
    ensures
        r@ == kw_thread(),
{
    let mut v: Vec<u8> = Vec::new();
    v.push(116);
    v.push(104);
    v.push(114);
    v.push(101);
    v.push(97);
    v.push(100);
    proof {
        assert(v@ =~= kw_thread());
    }
    v
}

/// Builds the byte string `string`.
fn make_kw_string() -> (r: Vec<u8>)
    ensures
        r@ == kw_string(),
{
    let mut v: Vec<u8> = Vec::new();
    v.push(115);
    v.push(116);
    v.push(114);
    v.push(105);
    v.push(110);
    v.push(103);
    proof {
        assert(v@ =~= kw_string());
    }
    v
}

impl Lua {
    /// Walks the registry and collects the values the filter keeps into a
    /// fresh array-like table.
    fn collect_gc(&mut self, f: GcFilter) -> (r: Result<usize, VmError>)
        requires
            old(self).wf(),
            eview(old(self).tables@[old(self).registry as int].entries@).len() <= count_limit(),
            !gc_keep(f, ValueModel::Nil),
        ensures
            final(self).wf(),
            collect_gc_post(*old(self), *final(self), f, r),
    {
        let g = self.stack_guard();
        let reg = self.registry;
        self.stack_push(Value::Table(reg));
        proof {
            assert(crate::vm::table_wf_in(self.tables@, reg as int));
        }
        let ghost reges = eview(old(self).tables@[reg as int].entries@);
        let mut vals: Vec<Value> = Vec::new();
        let mut i: usize = 0;
        let ghost mid = *self;
        let nentries = self.tables[reg].entries.len();
        while i < nentries
            invariant
                *self == mid,
                reg == self.registry,
                (reg as int) < self.tables@.len(),
                reges == eview(self.tables@[reg as int].entries@),
                nentries == reges.len(),
                i <= nentries,
                vals_view(vals@) == gc_selected(reges.take(i as int), f),
            decreases nentries - i,
        {
            let keep = gc_keep_exec(&f, &self.tables[reg].entries[i].1);
            proof {
                let taken = reges.take(i + 1);
                assert(taken.drop_last() =~= reges.take(i as int));
                assert(taken.last() == reges[i as int]);
            }
            if keep {
                vals.push(clone_value(&self.tables[reg].entries[i].1));
                proof {
                    assert(vals_view(vals@) =~= gc_selected(reges.take(i as int), f).push(
                        reges[i as int].1,
                    ));
                }
            }
            i += 1;
        }
        proof {
            assert(reges.take(reges.len() as int) =~= reges);
            lemma_gc_selected_kept(reges, f);
        }
        let ghost sel = gc_selected(reges, f);
        let t = self.create_table();
        let mut j: usize = 0;
        while j < vals.len()
            invariant
                old(self).wf(),
                self.wf(),
                j <= vals.len(),
                vals_view(vals@) == sel,
                vals@.len() == sel.len(),
                vals@.len() <= count_limit(),
                forall|m: int| 0 <= m < sel.len() ==> gc_keep(f, #[trigger] sel[m]),
                !gc_keep(f, ValueModel::Nil),
                t == old(self).tables@.len(),
                self.stack@ == old(self).stack@.push(Value::Table(reg)),
                self.functions == old(self).functions,
                self.frames == old(self).frames,
                self.registry == old(self).registry,
                self.hooks == old(self).hooks,
                self.tables@.len() == old(self).tables@.len() + 1,
                forall|m: int|
                    0 <= m < old(self).tables@.len() ==> self.tables@[m] == old(self).tables@[m],
                eview(self.tables@[t as int].entries@) == gc_array(sel.take(j as int)),
                !self.tables@[t as int].readonly,
                self.tables@[t as int].metatable == Option::<usize>::None,
            decreases vals.len() - j,
        {
            let ghost es = eview(self.tables@[t as int].entries@);
            let key = Value::Num((j as i64) + 1);
            let val = clone_value(&vals[j]);
            let ghost keym = key@;
            let ghost valm = val@;
            proof {
                assert(!has_key(es, keym)) by {
                    if has_key(es, keym) {
                        let idx = crate::table::idx_of(es, keym);
                        assert(es[idx] == gc_array(sel.take(j as int))[idx]);
                    }
                }
                assert(valm == sel[j as int]);
                assert(gc_keep(f, valm));
                assert(valm != ValueModel::Nil);
            }
            let res = self.table_raw_set(t, key, val);
            proof {
                assert(res == Ok::<(), VmError>(()));
                assert(eview(self.tables@[t as int].entries@) =~= gc_array(sel.take(j + 1)));
            }
            j += 1;
        }
        proof {
            assert(sel.take(sel.len() as int) =~= sel);
        }
        self.stack_restore(g);
        proof {
            assert(self.stack@ =~= old(self).stack@);
        }
        Ok(t)
    }
}

impl LuaGCExt for Lua {
    open spec fn st(&self) -> Lua {
        *self
    }

    fn get_gc_objects(&mut self, include_tables: bool) -> (r: Result<usize, VmError>) {
        self.collect_gc(GcFilter::All(include_tables))
    }

    fn filter_gc_objects(&mut self, type_filter: &Vec<u8>) -> (r: Result<usize, VmError>) {
        let lower = ascii_lowercase(type_filter);
        let f = if bytes_eq(&lower, &make_kw_function()) {
            GcFilter::ByTag(TypeTag::Function)
        } else if bytes_eq(&lower, &make_kw_table()) {
            GcFilter::ByTag(TypeTag::Table)
        } else if bytes_eq(&lower, &make_kw_userdata()) {
            GcFilter::ByTag(TypeTag::Userdata)
        } else if bytes_eq(&lower, &make_kw_thread()) {
            GcFilter::ByTag(TypeTag::Thread)
        } else if bytes_eq(&lower, &make_kw_string()) {
            GcFilter::ByTag(TypeTag::Str)
        } else {
            GcFilter::NoneMatch
        };
        proof {
            assert(f == filter_for_name(type_filter@));
        }
        self.collect_gc(f)
    }
}

} // verus!

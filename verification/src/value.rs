//! The host-side tagged value representation and its mathematical view.
//!
//! A value either carries its payload directly (nil, booleans, numbers,
//! byte strings) or references an object owned by the VM (tables and
//! functions, by index into the VM's object vectors; userdata and threads
//! are opaque handles).

use vstd::prelude::*;

verus! {

/// Mathematical view of a [`Value`]: byte strings abstract to `Seq<u8>`,
/// heap references to unbounded integers.
pub enum ValueModel {
    Nil,
    Bool(bool),
    Num(i64),
    Str(Seq<u8>),
    Table(int),
    Function(int),
    Userdata(u64),
    Thread(u64),
}

/// A tagged VM value as the host sees it.
///
/// `Table` and `Function` hold an index into the owning VM's table and
/// function heaps; that index is the object's stable identity. Numbers are
/// modeled as machine integers.
#[derive(Debug)]
pub enum Value {
    Nil,
    Bool(bool),
    Num(i64),
    Str(Vec<u8>),
    Table(usize),
    Function(usize),
    Userdata(u64),
    Thread(u64),
}

impl View for Value {
    type V = ValueModel;

    open spec fn view(&self) -> ValueModel {
        match self {
            Value::Nil => ValueModel::Nil,
            Value::Bool(b) => ValueModel::Bool(*b),
            Value::Num(n) => ValueModel::Num(*n),
            Value::Str(s) => ValueModel::Str(s@),
            Value::Table(t) => ValueModel::Table(*t as int),
            Value::Function(f) => ValueModel::Function(*f as int),
            Value::Userdata(u) => ValueModel::Userdata(*u),
            Value::Thread(t) => ValueModel::Thread(*t),
        }
    }
}

/// The runtime type of a value, as the VM's type tag reports it.
#[derive(Clone, Copy, PartialEq, Eq, Structural, Debug)]
pub enum TypeTag {
    Nil,
    Bool,
    Num,
    Str,
    Table,
    Function,
    Userdata,
    Thread,
}

/// The type tag of a value, on the mathematical view.
pub open spec fn tag_of(v: ValueModel) -> TypeTag {
    match v {
        ValueModel::Nil => TypeTag::Nil,
        ValueModel::Bool(_) => TypeTag::Bool,
        ValueModel::Num(_) => TypeTag::Num,
        ValueModel::Str(_) => TypeTag::Str,
        ValueModel::Table(_) => TypeTag::Table,
        ValueModel::Function(_) => TypeTag::Function,
        ValueModel::Userdata(_) => TypeTag::Userdata,
        ValueModel::Thread(_) => TypeTag::Thread,
    }
}

/// Reports a value's runtime type.
pub fn value_tag(v: &Value) -> (r: TypeTag)
    ensures
        r == tag_of(v@),
{
    match v {
        Value::Nil => TypeTag::Nil,
        Value::Bool(_) => TypeTag::Bool,
        Value::Num(_) => TypeTag::Num,
        Value::Str(_) => TypeTag::Str,
        Value::Table(_) => TypeTag::Table,
        Value::Function(_) => TypeTag::Function,
        Value::Userdata(_) => TypeTag::Userdata,
        Value::Thread(_) => TypeTag::Thread,
    }
}

/// Byte-string equality.
pub fn bytes_eq(a: &Vec<u8>, b: &Vec<u8>) -> (r: bool)
    ensures
        r == (a@ == b@),
{
    if a.len() != b.len() {
        assert(a@ != b@) by {
            assert(a@.len() != b@.len());
        }
        return false;
    }
    let mut i: usize = 0;
    while i < a.len()
        invariant
            i <= a.len(),
            a.len() == b.len(),
            forall|j: int| 0 <= j < i ==> a@[j] == b@[j],
        decreases a.len() - i,
    {
        if a[i] != b[i] {
            return false;
        }
        i += 1;
    }
    proof {
        assert(a@ =~= b@);
    }
    true
}

/// Deep value equality: the equality the VM's raw comparison reports for
/// these value kinds (strings by content, heap objects by identity).
pub fn value_eq(a: &Value, b: &Value) -> (r: bool)
    ensures
        r == (a@ == b@),
{
    match (a, b) {
        (Value::Nil, Value::Nil) => true,
        (Value::Bool(x), Value::Bool(y)) => x == y,
        (Value::Num(x), Value::Num(y)) => x == y,
        (Value::Str(x), Value::Str(y)) => bytes_eq(x, y),
        (Value::Table(x), Value::Table(y)) => x == y,
        (Value::Function(x), Value::Function(y)) => x == y,
        (Value::Userdata(x), Value::Userdata(y)) => x == y,
        (Value::Thread(x), Value::Thread(y)) => x == y,
        _ => false,
    }
}

/// Copies a byte string.
pub fn clone_bytes(v: &Vec<u8>) -> (r: Vec<u8>)
    ensures
        r@ == v@,
{
    let r = v.clone();
    proof {
        assert(r@ =~= v@);
    }
    r
}

/// The view of a sequence of values.
pub open spec fn vals_view(s: Seq<Value>) -> Seq<ValueModel> {
    s.map_values(|v: Value| v@)
}

/// The view of a sequence of byte strings.
pub open spec fn names_view(s: Seq<Vec<u8>>) -> Seq<Seq<u8>> {
    s.map_values(|b: Vec<u8>| b@)
}

/// The view of a sequence of named values.
pub open spec fn named_vals_view(s: Seq<(Vec<u8>, Value)>) -> Seq<(Seq<u8>, ValueModel)> {
    s.map_values(|p: (Vec<u8>, Value)| (p.0@, p.1@))
}

/// Copies a value; the copy has the same view (same content, and for heap
/// values the same referenced object).
pub fn clone_value(v: &Value) -> (r: Value)
    ensures
        r@ == v@,
{
    match v {
        Value::Nil => Value::Nil,
        Value::Bool(b) => Value::Bool(*b),
        Value::Num(n) => Value::Num(*n),
        Value::Str(s) => Value::Str(clone_bytes(s)),
        Value::Table(t) => Value::Table(*t),
        Value::Function(f) => Value::Function(*f),
        Value::Userdata(u) => Value::Userdata(*u),
        Value::Thread(t) => Value::Thread(*t),
    }
}

/// Copies a sequence of values, preserving every view.
pub fn clone_values(s: &Vec<Value>) -> (r: Vec<Value>)
    ensures
        vals_view(r@) == vals_view(s@),
{
    let mut r: Vec<Value> = Vec::new();
    let mut i: usize = 0;
    while i < s.len()
        invariant
            i <= s.len(),
            r@.len() == i,
            forall|j: int| 0 <= j < i ==> r@[j]@ == s@[j]@,
        decreases s.len() - i,
    {
        r.push(clone_value(&s[i]));
        i += 1;
    }
    proof {
        assert forall|j: int| 0 <= j < s@.len() implies vals_view(r@)[j] == vals_view(s@)[j] by {
            assert(r@[j]@ == s@[j]@);
        }
        assert(vals_view(r@) =~= vals_view(s@));
    }
    r
}

/// Copies a sequence of byte strings, preserving every view.
pub fn clone_names(s: &Vec<Vec<u8>>) -> (r: Vec<Vec<u8>>)
    ensures
        names_view(r@) == names_view(s@),
{
    let mut r: Vec<Vec<u8>> = Vec::new();
    let mut i: usize = 0;
    while i < s.len()
        invariant
            i <= s.len(),
            r@.len() == i,
            forall|j: int| 0 <= j < i ==> r@[j]@ == s@[j]@,
        decreases s.len() - i,
    {
        r.push(clone_bytes(&s[i]));
        i += 1;
    }
    proof {
        assert forall|j: int| 0 <= j < s@.len() implies names_view(r@)[j] == names_view(s@)[j] by {
            assert(r@[j]@ == s@[j]@);
        }
        assert(names_view(r@) =~= names_view(s@));
    }
    r
}

/// Copies a sequence of named values, preserving every view.
pub fn clone_named_vals(s: &Vec<(Vec<u8>, Value)>) -> (r: Vec<(Vec<u8>, Value)>)
    ensures
        named_vals_view(r@) == named_vals_view(s@),
{
    let mut r: Vec<(Vec<u8>, Value)> = Vec::new();
    let mut i: usize = 0;
    while i < s.len()
        invariant
            i <= s.len(),
            r@.len() == i,
            forall|j: int| 0 <= j < i ==> r@[j].0@ == s@[j].0@ && r@[j].1@ == s@[j].1@,
        decreases s.len() - i,
    {
        let name = clone_bytes(&s[i].0);
        let val = clone_value(&s[i].1);
        r.push((name, val));
        i += 1;
    }
    proof {
        assert forall|j: int|
            0 <= j < s@.len() implies named_vals_view(r@)[j] == named_vals_view(s@)[j] by {
            assert(r@[j].0@ == s@[j].0@ && r@[j].1@ == s@[j].1@);
        }
        assert(named_vals_view(r@) =~= named_vals_view(s@));
    }
    r
}

} // verus!

use luau_introspect::value::{clone_value, value_eq, Value};
use luau_introspect::vm::{Lua, VmError};

#[test]
fn value_equality_is_by_content_for_strings() {
    assert!(value_eq(&Value::Str(b"abc".to_vec()), &Value::Str(b"abc".to_vec())));
    assert!(!value_eq(&Value::Str(b"abc".to_vec()), &Value::Str(b"abd".to_vec())));
    assert!(!value_eq(&Value::Str(b"abc".to_vec()), &Value::Str(b"ab".to_vec())));
}

#[test]
fn value_equality_is_by_identity_for_objects() {
    assert!(value_eq(&Value::Table(1), &Value::Table(1)));
    assert!(!value_eq(&Value::Table(1), &Value::Table(2)));
    assert!(!value_eq(&Value::Table(1), &Value::Function(1)));
    assert!(value_eq(&Value::Nil, &Value::Nil));
    assert!(!value_eq(&Value::Nil, &Value::Bool(false)));
}

#[test]
fn cloned_values_compare_equal() {
    let v = Value::Str(b"payload".to_vec());
    let c = clone_value(&v);
    assert!(value_eq(&v, &c));
    let n = clone_value(&Value::Num(-3));
    assert!(value_eq(&n, &Value::Num(-3)));
}

#[test]
fn table_write_read_and_overwrite() {
    let mut vm = Lua::new();
    let t = vm.create_table();
    vm.table_raw_set(t, Value::Str(b"k".to_vec()), Value::Num(1)).unwrap();
    let v = vm.table_raw_get(t, &Value::Str(b"k".to_vec())).unwrap();
    assert!(value_eq(&v, &Value::Num(1)));
    vm.table_raw_set(t, Value::Str(b"k".to_vec()), Value::Num(2)).unwrap();
    let v2 = vm.table_raw_get(t, &Value::Str(b"k".to_vec())).unwrap();
    assert!(value_eq(&v2, &Value::Num(2)));
    assert_eq!(vm.tables[t].entries.len(), 1);
}

#[test]
fn table_nil_write_removes_the_entry() {
    let mut vm = Lua::new();
    let t = vm.create_table();
    vm.table_raw_set(t, Value::Num(1), Value::Bool(true)).unwrap();
    assert_eq!(vm.tables[t].entries.len(), 1);
    vm.table_raw_set(t, Value::Num(1), Value::Nil).unwrap();
    assert_eq!(vm.tables[t].entries.len(), 0);
    let v = vm.table_raw_get(t, &Value::Num(1)).unwrap();
    assert!(value_eq(&v, &Value::Nil));
}

#[test]
fn table_absent_key_reads_nil() {
    let mut vm = Lua::new();
    let t = vm.create_table();
    let v = vm.table_raw_get(t, &Value::Str(b"missing".to_vec())).unwrap();
    assert!(value_eq(&v, &Value::Nil));
}

#[test]
fn table_ops_on_dangling_reference_are_type_mismatch() {
    let mut vm = Lua::new();
    assert_eq!(vm.table_raw_get(9, &Value::Nil).unwrap_err(), VmError::TypeMismatch);
    assert_eq!(vm.table_raw_set(9, Value::Num(1), Value::Num(1)).unwrap_err(), VmError::TypeMismatch);
}

#[test]
fn fresh_vm_shape() {
    let vm = Lua::new();
    assert_eq!(vm.tables.len(), 1);
    assert_eq!(vm.registry, 0);
    assert_eq!(vm.stack.len(), 0);
    assert!(vm.functions.is_empty());
    assert!(vm.frames.is_empty());
    assert!(vm.hooks.is_empty());
}

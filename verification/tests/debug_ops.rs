use luau_introspect::debug_api::LuaDebugExt;
use luau_introspect::function_api::LuaFunctionExt;
use luau_introspect::value::{value_eq, Value};
use luau_introspect::vm::{Lua, VmError};

fn upvals(pairs: Vec<(&str, Value)>) -> Vec<(Vec<u8>, Value)> {
    pairs.into_iter().map(|(n, v)| (n.as_bytes().to_vec(), v)).collect()
}

#[test]
fn registry_fetch() {
    let mut vm = Lua::new();
    let reg = vm.debug_get_registry_value().unwrap();
    assert_eq!(reg, vm.registry);
    assert_eq!(vm.stack_size(), 0);
}

#[test]
fn upvalue_round_trip() {
    let mut vm = Lua::new();
    let f = vm.create_lua_function(vec![], vec![], upvals(vec![("x", Value::Num(5))]));
    let name = vm.debug_set_upvalue(f, 1, Value::Num(42)).unwrap();
    assert_eq!(name, Some(b"x".to_vec()));
    let (name2, v) = vm.debug_get_upvalue(f, 1).unwrap();
    assert_eq!(name2, Some(b"x".to_vec()));
    assert!(value_eq(&v, &Value::Num(42)));
}

#[test]
fn upvalue_out_of_range_is_invalid_index() {
    let mut vm = Lua::new();
    let f = vm.create_lua_function(vec![], vec![], upvals(vec![("x", Value::Nil)]));
    assert_eq!(vm.debug_set_upvalue(f, 2, Value::Bool(true)).unwrap_err(), VmError::InvalidIndex);
    assert_eq!(vm.debug_get_upvalue(f, 2).unwrap_err(), VmError::InvalidIndex);
    assert_eq!(vm.debug_get_upvalue(f, 0).unwrap_err(), VmError::InvalidIndex);
}

#[test]
fn native_function_has_no_upvalues() {
    let mut vm = Lua::new();
    let f = vm.create_native_function();
    assert_eq!(vm.debug_get_upvalue(f, 1).unwrap_err(), VmError::InvalidIndex);
}

#[test]
fn upvalue_on_bad_reference_is_not_a_function() {
    let mut vm = Lua::new();
    assert_eq!(vm.debug_get_upvalue(99, 1).unwrap_err(), VmError::NotAFunction);
}

#[test]
fn metatable_set_and_get() {
    let mut vm = Lua::new();
    let t = vm.create_table();
    let mt = vm.create_table();
    assert_eq!(vm.debug_get_metatable(&Value::Table(t)).unwrap(), None);
    assert!(vm.debug_set_metatable(&Value::Table(t), Some(mt)).unwrap());
    assert_eq!(vm.debug_get_metatable(&Value::Table(t)).unwrap(), Some(mt));
    assert!(vm.debug_set_metatable(&Value::Table(t), None).unwrap());
    assert_eq!(vm.debug_get_metatable(&Value::Table(t)).unwrap(), None);
}

#[test]
fn metatable_of_non_table_is_absent() {
    let mut vm = Lua::new();
    assert_eq!(vm.debug_get_metatable(&Value::Num(3)).unwrap(), None);
    assert_eq!(vm.debug_get_metatable(&Value::Nil).unwrap(), None);
    // Setting on a non-table value reports success without effect.
    assert!(vm.debug_set_metatable(&Value::Num(3), None).unwrap());
}

#[test]
fn metatable_of_dangling_reference_is_type_mismatch() {
    let mut vm = Lua::new();
    assert_eq!(vm.debug_get_metatable(&Value::Table(77)).unwrap_err(), VmError::TypeMismatch);
}

#[test]
fn readonly_flag_round_trip() {
    let mut vm = Lua::new();
    let t = vm.create_table();
    assert!(!vm.is_table_readonly(t).unwrap());
    vm.set_table_readonly(t, true).unwrap();
    assert!(vm.is_table_readonly(t).unwrap());
    vm.set_table_readonly(t, false).unwrap();
    assert!(!vm.is_table_readonly(t).unwrap());
}

#[test]
fn readonly_table_rejects_writes() {
    let mut vm = Lua::new();
    let t = vm.create_table();
    vm.set_table_readonly(t, true).unwrap();
    let res = vm.table_raw_set(t, Value::Num(1), Value::Bool(true));
    assert_eq!(res.unwrap_err(), VmError::ReadOnly);
}

#[test]
fn clone_function_does_not_alias() {
    let mut vm = Lua::new();
    let f = vm.create_lua_function(vec![Value::Num(7)], vec![], vec![]);
    let c = vm.clone_function(f).unwrap();
    assert_ne!(c, f);
    let v = vm.get_function_constant(c, 0).unwrap();
    assert!(value_eq(&v, &Value::Num(7)));
    // Patching the clone's constant leaves the original untouched.
    vm.set_function_constant(c, 0, Value::Num(8)).unwrap();
    let orig = vm.get_function_constant(f, 0).unwrap();
    assert!(value_eq(&orig, &Value::Num(7)));
}

#[test]
fn clone_of_bad_reference_is_not_a_function() {
    let mut vm = Lua::new();
    assert_eq!(vm.clone_function(5).unwrap_err(), VmError::NotAFunction);
}

#[test]
fn stack_is_balanced_across_operations() {
    let mut vm = Lua::new();
    let f = vm.create_lua_function(vec![Value::Num(1)], vec![], upvals(vec![("u", Value::Nil)]));
    let t = vm.create_table();
    assert_eq!(vm.stack_size(), 0);
    let _ = vm.debug_get_registry_value();
    assert_eq!(vm.stack_size(), 0);
    let _ = vm.debug_get_upvalue(f, 1);
    assert_eq!(vm.stack_size(), 0);
    // Failing calls restore the stack too.
    let _ = vm.debug_get_upvalue(f, 9);
    assert_eq!(vm.stack_size(), 0);
    let _ = vm.debug_get_upvalue(1234, 1);
    assert_eq!(vm.stack_size(), 0);
    let _ = vm.debug_set_metatable(&Value::Table(t), Some(999));
    assert_eq!(vm.stack_size(), 0);
    let _ = vm.clone_function(f);
    assert_eq!(vm.stack_size(), 0);
    let _ = vm.set_table_readonly(t, true);
    assert_eq!(vm.stack_size(), 0);
}

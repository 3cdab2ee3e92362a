use luau_introspect::debug_api::LuaDebugExt;
use luau_introspect::function_api::LuaFunctionExt;
use luau_introspect::value::{value_eq, Value};
use luau_introspect::vm::{FuncTemplate, Lua, VmError};

#[test]
fn constant_read_is_lenient_at_bounds() {
    let mut vm = Lua::new();
    let f = vm.create_lua_function(vec![Value::Num(10), Value::Num(20)], vec![], vec![]);
    let v0 = vm.get_function_constant(f, 0).unwrap();
    assert!(value_eq(&v0, &Value::Num(10)));
    let v1 = vm.get_function_constant(f, 1).unwrap();
    assert!(value_eq(&v1, &Value::Num(20)));
    // One past the last valid index reads as nil, not as an error.
    let v2 = vm.get_function_constant(f, 2).unwrap();
    assert!(value_eq(&v2, &Value::Nil));
}

#[test]
fn constant_write_in_and_out_of_range() {
    let mut vm = Lua::new();
    let f = vm.create_lua_function(vec![Value::Num(10)], vec![], vec![]);
    vm.set_function_constant(f, 0, Value::Num(11)).unwrap();
    let v = vm.get_function_constant(f, 0).unwrap();
    assert!(value_eq(&v, &Value::Num(11)));
    // Out of range: a bounds-checked no-op that still succeeds.
    vm.set_function_constant(f, 5, Value::Num(99)).unwrap();
    let still = vm.get_function_constant(f, 0).unwrap();
    assert!(value_eq(&still, &Value::Num(11)));
}

#[test]
fn constant_ops_on_bad_reference_fail() {
    let mut vm = Lua::new();
    assert_eq!(vm.get_function_constant(3, 0).unwrap_err(), VmError::NotAFunction);
    assert_eq!(vm.set_function_constant(3, 0, Value::Nil).unwrap_err(), VmError::NotAFunction);
    assert_eq!(vm.get_function_constants(3).unwrap_err(), VmError::NotAFunction);
}

#[test]
fn constants_table_keeps_order_and_gaps() {
    let mut vm = Lua::new();
    let f = vm.create_lua_function(
        vec![Value::Num(5), Value::Nil, Value::Str(b"k".to_vec())],
        vec![],
        vec![],
    );
    let t = vm.get_function_constants(f).unwrap();
    let v1 = vm.table_raw_get(t, &Value::Num(1)).unwrap();
    assert!(value_eq(&v1, &Value::Num(5)));
    // The nil constant leaves a gap under key 2.
    let v2 = vm.table_raw_get(t, &Value::Num(2)).unwrap();
    assert!(value_eq(&v2, &Value::Nil));
    let v3 = vm.table_raw_get(t, &Value::Num(3)).unwrap();
    assert!(value_eq(&v3, &Value::Str(b"k".to_vec())));
}

#[test]
fn proto_inert_and_activated_forms() {
    let mut vm = Lua::new();
    let template = FuncTemplate {
        constants: vec![Value::Num(7)],
        upvalue_names: vec![b"x".to_vec()],
    };
    let f = vm.create_lua_function(
        vec![],
        vec![template],
        vec![(b"x".to_vec(), Value::Num(99))],
    );
    // Both forms succeed for the one nested prototype.
    let inert = vm.get_function_proto(f, 0, false).unwrap().unwrap();
    let live = vm.get_function_proto(f, 0, true).unwrap().unwrap();
    // The inert form has zero resolved upvalues.
    assert_eq!(vm.debug_get_upvalue(inert, 1).unwrap_err(), VmError::InvalidIndex);
    // The activated form's upvalue resolves to the enclosing binding.
    let (name, v) = vm.debug_get_upvalue(live, 1).unwrap();
    assert_eq!(name, Some(b"x".to_vec()));
    assert!(value_eq(&v, &Value::Num(99)));
    // Both carry the template's constant pool.
    let c = vm.get_function_constant(inert, 0).unwrap();
    assert!(value_eq(&c, &Value::Num(7)));
}

#[test]
fn proto_out_of_range_is_none() {
    let mut vm = Lua::new();
    let f = vm.create_lua_function(vec![], vec![], vec![]);
    assert_eq!(vm.get_function_proto(f, 0, false).unwrap(), None);
    assert_eq!(vm.get_function_proto(f, 3, true).unwrap(), None);
}

#[test]
fn protos_table_holds_inert_instances() {
    let mut vm = Lua::new();
    let t1 = FuncTemplate { constants: vec![Value::Num(1)], upvalue_names: vec![] };
    let t2 = FuncTemplate { constants: vec![Value::Num(2)], upvalue_names: vec![] };
    let f = vm.create_lua_function(vec![], vec![t1, t2], vec![]);
    let t = vm.get_function_protos(f).unwrap();
    let p1 = match vm.table_raw_get(t, &Value::Num(1)).unwrap() {
        Value::Function(p) => p,
        other => panic!("expected a function, got {:?}", std::mem::discriminant(&other)),
    };
    let p2 = match vm.table_raw_get(t, &Value::Num(2)).unwrap() {
        Value::Function(p) => p,
        _ => panic!("expected a function"),
    };
    let c1 = vm.get_function_constant(p1, 0).unwrap();
    assert!(value_eq(&c1, &Value::Num(1)));
    let c2 = vm.get_function_constant(p2, 0).unwrap();
    assert!(value_eq(&c2, &Value::Num(2)));
}

#[test]
fn stack_values_read_and_write() {
    let mut vm = Lua::new();
    vm.push_frame(vec![Value::Num(10), Value::Str(b"a".to_vec())]);
    let v = vm.get_stack_value(0, 1).unwrap();
    assert!(value_eq(&v, &Value::Num(10)));
    let v2 = vm.get_stack_value(0, 2).unwrap();
    assert!(value_eq(&v2, &Value::Str(b"a".to_vec())));
    vm.set_stack_value(0, 1, Value::Num(55)).unwrap();
    let v3 = vm.get_stack_value(0, 1).unwrap();
    assert!(value_eq(&v3, &Value::Num(55)));
}

#[test]
fn stack_values_missing_frames_read_nil() {
    let mut vm = Lua::new();
    // No frames at all: reads are nil, writes are silent no-ops.
    let v = vm.get_stack_value(0, 1).unwrap();
    assert!(value_eq(&v, &Value::Nil));
    vm.set_stack_value(0, 1, Value::Num(1)).unwrap();
    // A frame exists but the slot does not.
    vm.push_frame(vec![Value::Num(1)]);
    let v2 = vm.get_stack_value(0, 9).unwrap();
    assert!(value_eq(&v2, &Value::Nil));
    let v3 = vm.get_stack_value(7, 1).unwrap();
    assert!(value_eq(&v3, &Value::Nil));
}

#[test]
fn stack_levels_count_upward_from_innermost() {
    let mut vm = Lua::new();
    vm.push_frame(vec![Value::Num(1)]);
    vm.push_frame(vec![Value::Num(2)]);
    let top = vm.get_stack_value(0, 1).unwrap();
    assert!(value_eq(&top, &Value::Num(2)));
    let outer = vm.get_stack_value(1, 1).unwrap();
    assert!(value_eq(&outer, &Value::Num(1)));
}

#[test]
fn function_ops_keep_stack_balance() {
    let mut vm = Lua::new();
    let f = vm.create_lua_function(vec![Value::Num(1)], vec![], vec![]);
    let _ = vm.get_function_constants(f);
    let _ = vm.get_function_constant(f, 0);
    let _ = vm.set_function_constant(f, 0, Value::Num(2));
    let _ = vm.get_function_protos(f);
    let _ = vm.get_function_proto(f, 0, true);
    let _ = vm.get_stack_value(0, 1);
    let _ = vm.set_stack_value(0, 1, Value::Nil);
    let _ = vm.get_function_constants(9999);
    assert_eq!(vm.stack_size(), 0);
}

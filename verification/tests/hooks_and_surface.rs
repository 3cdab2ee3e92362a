use luau_introspect::debug_api::LuaDebugExt;
use luau_introspect::function_api::LuaFunctionExt;
use luau_introspect::value::{value_eq, Value};
use luau_introspect::vm::{Lua, VmError};

#[test]
fn hookfunction_returns_a_working_original() {
    let mut vm = Lua::new();
    let target = vm.create_lua_function(vec![Value::Num(1)], vec![], vec![]);
    let repl = vm.create_lua_function(vec![], vec![], vec![]);
    let original = vm.hook_function(target, repl).unwrap();
    assert_ne!(original, target);
    // The returned original carries the target's behavior (here: pool).
    let c = vm.get_function_constant(original, 0).unwrap();
    assert!(value_eq(&c, &Value::Num(1)));
    assert_eq!(vm.hooks, vec![(target, repl)]);
}

#[test]
fn rehooking_overwrites_the_single_entry() {
    let mut vm = Lua::new();
    let target = vm.create_lua_function(vec![], vec![], vec![]);
    let r1 = vm.create_lua_function(vec![], vec![], vec![]);
    let r2 = vm.create_lua_function(vec![], vec![], vec![]);
    vm.hook_function(target, r1).unwrap();
    vm.hook_function(target, r2).unwrap();
    let entries: Vec<&(usize, usize)> =
        vm.hooks.iter().filter(|e| e.0 == target).collect();
    assert_eq!(entries.len(), 1);
    assert_eq!(*entries[0], (target, r2));
}

#[test]
fn hooks_for_different_targets_coexist() {
    let mut vm = Lua::new();
    let t1 = vm.create_lua_function(vec![], vec![], vec![]);
    let t2 = vm.create_lua_function(vec![], vec![], vec![]);
    let r = vm.create_native_function();
    vm.hook_function(t1, r).unwrap();
    vm.hook_function(t2, r).unwrap();
    assert_eq!(vm.hooks.len(), 2);
}

#[test]
fn hookfunction_rejects_non_functions() {
    let mut vm = Lua::new();
    let f = vm.create_lua_function(vec![], vec![], vec![]);
    assert_eq!(vm.hook_function(42, f).unwrap_err(), VmError::NotAFunction);
    assert_eq!(vm.hook_function(f, 42).unwrap_err(), VmError::NotAFunction);
    assert!(vm.hooks.is_empty());
}

#[test]
fn hookmetamethod_swaps_the_handler() {
    let mut vm = Lua::new();
    let t = vm.create_table();
    let mt = vm.create_table();
    let orig = vm.create_lua_function(vec![], vec![], vec![]);
    let repl = vm.create_lua_function(vec![], vec![], vec![]);
    vm.table_raw_set(mt, Value::Str(b"__index".to_vec()), Value::Function(orig)).unwrap();
    vm.debug_set_metatable(&Value::Table(t), Some(mt)).unwrap();
    let prev = vm.hook_metamethod(&Value::Table(t), &b"__index".to_vec(), repl).unwrap();
    assert!(value_eq(&prev, &Value::Function(orig)));
    // The raw metatable now routes the metamethod to the replacement.
    let mt_now = vm.debug_get_metatable(&Value::Table(t)).unwrap().unwrap();
    assert_eq!(mt_now, mt);
    let handler = vm.table_raw_get(mt, &Value::Str(b"__index".to_vec())).unwrap();
    assert!(value_eq(&handler, &Value::Function(repl)));
}

#[test]
fn hookmetamethod_without_metatable_is_fatal() {
    let mut vm = Lua::new();
    let t = vm.create_table();
    let repl = vm.create_native_function();
    assert_eq!(
        vm.hook_metamethod(&Value::Table(t), &b"__index".to_vec(), repl).unwrap_err(),
        VmError::NoMetatable
    );
    assert_eq!(
        vm.hook_metamethod(&Value::Num(1), &b"__index".to_vec(), repl).unwrap_err(),
        VmError::NoMetatable
    );
}

#[test]
fn hookmetamethod_absent_handler_reads_nil() {
    let mut vm = Lua::new();
    let t = vm.create_table();
    let mt = vm.create_table();
    let repl = vm.create_native_function();
    vm.debug_set_metatable(&Value::Table(t), Some(mt)).unwrap();
    let prev = vm.hook_metamethod(&Value::Table(t), &b"__newindex".to_vec(), repl).unwrap();
    assert!(value_eq(&prev, &Value::Nil));
}

#[test]
fn hookmetamethod_readonly_metatable_is_rejected() {
    let mut vm = Lua::new();
    let t = vm.create_table();
    let mt = vm.create_table();
    let repl = vm.create_native_function();
    vm.debug_set_metatable(&Value::Table(t), Some(mt)).unwrap();
    vm.set_table_readonly(mt, true).unwrap();
    assert_eq!(
        vm.hook_metamethod(&Value::Table(t), &b"__index".to_vec(), repl).unwrap_err(),
        VmError::ReadOnly
    );
}

#[test]
fn getupvalues_collects_by_name() {
    let mut vm = Lua::new();
    let f = vm.create_lua_function(
        vec![],
        vec![],
        vec![(b"a".to_vec(), Value::Num(1)), (b"b".to_vec(), Value::Num(2))],
    );
    let t = vm.debug_get_upvalues(f).unwrap();
    let va = vm.table_raw_get(t, &Value::Str(b"a".to_vec())).unwrap();
    assert!(value_eq(&va, &Value::Num(1)));
    let vb = vm.table_raw_get(t, &Value::Str(b"b".to_vec())).unwrap();
    assert!(value_eq(&vb, &Value::Num(2)));
}

#[test]
fn install_members_restores_readonly_flag() {
    let mut vm = Lua::new();
    let t = vm.create_table();
    let f = vm.create_native_function();
    vm.set_table_readonly(t, true).unwrap();
    vm.install_table_members(t, &vec![(b"getconstant".to_vec(), Value::Function(f))]).unwrap();
    // The flag is back exactly as it was before the installation.
    assert!(vm.is_table_readonly(t).unwrap());
    let member = vm.table_raw_get(t, &Value::Str(b"getconstant".to_vec())).unwrap();
    assert!(value_eq(&member, &Value::Function(f)));
}

#[test]
fn install_members_on_writable_table_stays_writable() {
    let mut vm = Lua::new();
    let t = vm.create_table();
    vm.install_table_members(t, &vec![(b"k".to_vec(), Value::Num(3))]).unwrap();
    assert!(!vm.is_table_readonly(t).unwrap());
    let v = vm.table_raw_get(t, &Value::Num(0)).unwrap();
    assert!(value_eq(&v, &Value::Nil));
}

#[test]
fn returned_original_is_independent_of_the_target() {
    let mut vm = Lua::new();
    let target = vm.create_lua_function(vec![Value::Num(1)], vec![], vec![]);
    let repl = vm.create_native_function();
    let original = vm.hook_function(target, repl).unwrap();
    vm.set_function_constant(original, 0, Value::Num(2)).unwrap();
    let target_c = vm.get_function_constant(target, 0).unwrap();
    assert!(value_eq(&target_c, &Value::Num(1)));
}

#[test]
fn install_members_overwrites_existing_entries() {
    let mut vm = Lua::new();
    let t = vm.create_table();
    vm.table_raw_set(t, Value::Str(b"k".to_vec()), Value::Num(1)).unwrap();
    vm.set_table_readonly(t, true).unwrap();
    vm.install_table_members(t, &vec![(b"k".to_vec(), Value::Num(2))]).unwrap();
    let v = vm.table_raw_get(t, &Value::Str(b"k".to_vec())).unwrap();
    assert!(value_eq(&v, &Value::Num(2)));
    assert_eq!(vm.tables[t].entries.len(), 1);
    assert!(vm.is_table_readonly(t).unwrap());
}

#[test]
fn closure_classification() {
    let mut vm = Lua::new();
    let lf = vm.create_lua_function(vec![], vec![], vec![]);
    let nf = vm.create_native_function();
    assert!(vm.is_l_closure(lf).unwrap());
    assert!(!vm.is_l_closure(nf).unwrap());
    assert!(vm.is_c_closure(nf).unwrap());
    assert!(!vm.is_c_closure(lf).unwrap());
    assert_eq!(vm.is_l_closure(999).unwrap_err(), VmError::NotAFunction);
}

#[test]
fn check_caller_is_always_true() {
    let vm = Lua::new();
    assert!(vm.check_caller());
}

#[test]
fn surface_ops_keep_stack_balance() {
    let mut vm = Lua::new();
    let t = vm.create_table();
    let f = vm.create_lua_function(vec![], vec![], vec![]);
    let r = vm.create_native_function();
    let _ = vm.hook_function(f, r);
    let _ = vm.hook_metamethod(&Value::Table(t), &b"__index".to_vec(), r);
    let _ = vm.debug_get_upvalues(f);
    let _ = vm.install_table_members(t, &vec![(b"m".to_vec(), Value::Num(1))]);
    let _ = vm.is_l_closure(f);
    let _ = vm.is_c_closure(12345);
    assert_eq!(vm.stack_size(), 0);
}

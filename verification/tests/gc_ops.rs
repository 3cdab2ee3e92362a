use luau_introspect::gc_api::LuaGCExt;
use luau_introspect::value::{value_eq, Value};
use luau_introspect::vm::Lua;

/// A registry holding 3 functions, 2 tables and 1 thread, returning the
/// function references.
fn seeded_vm() -> (Lua, Vec<usize>) {
    let mut vm = Lua::new();
    let f1 = vm.create_lua_function(vec![], vec![], vec![]);
    let f2 = vm.create_lua_function(vec![], vec![], vec![]);
    let f3 = vm.create_native_function();
    let t1 = vm.create_table();
    let t2 = vm.create_table();
    let reg = vm.registry;
    vm.table_raw_set(reg, Value::Num(1), Value::Function(f1)).unwrap();
    vm.table_raw_set(reg, Value::Num(2), Value::Table(t1)).unwrap();
    vm.table_raw_set(reg, Value::Num(3), Value::Function(f2)).unwrap();
    vm.table_raw_set(reg, Value::Num(4), Value::Thread(7)).unwrap();
    vm.table_raw_set(reg, Value::Num(5), Value::Table(t2)).unwrap();
    vm.table_raw_set(reg, Value::Num(6), Value::Function(f3)).unwrap();
    (vm, vec![f1, f2, f3])
}

fn array_values(vm: &Lua, t: usize) -> Vec<Value> {
    let mut out = Vec::new();
    for i in 0..vm.tables[t].entries.len() {
        let key = Value::Num((i as i64) + 1);
        out.push(vm.table_raw_get(t, &key).unwrap());
    }
    out
}

#[test]
fn filter_functions_finds_exactly_the_functions() {
    let (mut vm, fs) = seeded_vm();
    let t = vm.filter_gc_objects(&b"function".to_vec()).unwrap();
    let vals = array_values(&vm, t);
    assert_eq!(vals.len(), 3);
    for (v, f) in vals.iter().zip(fs.iter()) {
        assert!(value_eq(v, &Value::Function(*f)));
    }
}

#[test]
fn filter_is_case_insensitive() {
    let (mut vm, _) = seeded_vm();
    let t = vm.filter_gc_objects(&b"FuNcTiOn".to_vec()).unwrap();
    assert_eq!(vm.tables[t].entries.len(), 3);
    let t2 = vm.filter_gc_objects(&b"THREAD".to_vec()).unwrap();
    assert_eq!(vm.tables[t2].entries.len(), 1);
}

#[test]
fn filter_unknown_type_is_empty() {
    let (mut vm, _) = seeded_vm();
    let t = vm.filter_gc_objects(&b"widget".to_vec()).unwrap();
    assert_eq!(vm.tables[t].entries.len(), 0);
}

#[test]
fn filter_tables_and_threads() {
    let (mut vm, _) = seeded_vm();
    let t = vm.filter_gc_objects(&b"table".to_vec()).unwrap();
    assert_eq!(vm.tables[t].entries.len(), 2);
    let t2 = vm.filter_gc_objects(&b"thread".to_vec()).unwrap();
    let vals = array_values(&vm, t2);
    assert_eq!(vals.len(), 1);
    assert!(value_eq(&vals[0], &Value::Thread(7)));
}

#[test]
fn unfiltered_scan_omits_tables_by_default() {
    let (mut vm, _) = seeded_vm();
    let t = vm.get_gc_objects(false).unwrap();
    // 3 functions and 1 thread; the 2 tables are omitted.
    assert_eq!(vm.tables[t].entries.len(), 4);
    let t2 = vm.get_gc_objects(true).unwrap();
    assert_eq!(vm.tables[t2].entries.len(), 6);
}

#[test]
fn scan_skips_non_collectable_values() {
    let mut vm = Lua::new();
    let reg = vm.registry;
    vm.table_raw_set(reg, Value::Num(1), Value::Num(42)).unwrap();
    vm.table_raw_set(reg, Value::Num(2), Value::Bool(true)).unwrap();
    vm.table_raw_set(reg, Value::Num(3), Value::Str(b"s".to_vec())).unwrap();
    let t = vm.get_gc_objects(true).unwrap();
    assert_eq!(vm.tables[t].entries.len(), 0);
    // Strings are reachable through the explicit string filter only.
    let t2 = vm.filter_gc_objects(&b"string".to_vec()).unwrap();
    let vals = array_values(&vm, t2);
    assert_eq!(vals.len(), 1);
    assert!(value_eq(&vals[0], &Value::Str(b"s".to_vec())));
}

#[test]
fn gc_scans_keep_stack_balance() {
    let (mut vm, _) = seeded_vm();
    let _ = vm.get_gc_objects(true);
    let _ = vm.filter_gc_objects(&b"userdata".to_vec());
    let _ = vm.filter_gc_objects(&b"nonsense".to_vec());
    assert_eq!(vm.stack_size(), 0);
}

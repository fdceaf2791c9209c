use pulse_vm::collections::{list_reverse_native, list_sort_native, map_keys_native, map_values_native};
use pulse_vm::heap::Heap;
use pulse_vm::namemap::NameMap;
use pulse_vm::object::Object;
use pulse_vm::value::{PulseError, Value};
use pulse_vm::list_utils::sort_list_native;
use pulse_vm::list_utils::{index_of_native, list_contains_native};
use pulse_vm::list_utils::{list_insert_native, list_remove_native};
use pulse_vm::list_utils::list_slice_native;
use pulse_vm::list_utils::{list_concat_native, list_flatten_native};
use pulse_vm::list_utils::range_native;
use pulse_vm::priority_queue::{create_heap_native, heap_peek_native, heap_pop_native, heap_push_native, heap_size_native};
use pulse_vm::map_utils::{map_delete_native, map_has_key_native, map_merge_native};
use pulse_vm::map_utils::{count_list_native, enumerate_list_native, unique_list_native, zip_lists_native};
use pulse_vm::scalar_utils::{char_code_native, from_char_code_native, is_list_native, max_val_native, min_native, parse_int_native};
use pulse_vm::scalar_utils::println_text;
use pulse_vm::crypto::sha256_native;

fn list(heap: &mut Heap, items: Vec<Value>) -> Value {
    Value::Obj(heap.alloc_object(Object::List(items)))
}

fn string(heap: &mut Heap, s: &str) -> Value {
    Value::Obj(heap.alloc_object(Object::String(s.to_string())))
}

fn map(heap: &mut Heap, entries: &[(&str, Value)]) -> Value {
    let mut m = NameMap::new();
    for (k, v) in entries {
        m.insert(k.to_string(), *v);
    }
    Value::Obj(heap.alloc_object(Object::Dict(m)))
}

fn items(heap: &Heap, v: Value) -> Vec<Value> {
    match v {
        Value::Obj(h) => match heap.get_object(h) {
            Some(Object::List(l)) => l.clone(),
            _ => panic!("Expected list"),
        },
        _ => panic!("Expected object"),
    }
}

fn text(heap: &Heap, v: Value) -> String {
    match v {
        Value::Obj(h) => match heap.get_object(h) {
            Some(Object::String(s)) => s.clone(),
            _ => panic!("Expected string"),
        },
        _ => panic!("Expected object"),
    }
}

fn ints(v: &[i64]) -> Vec<Value> {
    v.iter().map(|i| Value::Int(*i)).collect()
}

#[test]
fn test_list_sort() {
    let mut heap = Heap::new();
    let list = vec![Value::Int(3), Value::Int(1), Value::Int(2)];
    let handle = heap.alloc_object(Object::List(list));

    let result = list_sort_native(&mut heap, &[Value::Obj(handle)]).unwrap();

    if let Value::Obj(result_handle) = result {
        if let Some(Object::List(sorted)) = heap.get_object(result_handle) {
            assert_eq!(sorted.len(), 3);
            assert_eq!(sorted[0], Value::Int(1));
            assert_eq!(sorted[1], Value::Int(2));
            assert_eq!(sorted[2], Value::Int(3));
        } else {
            panic!("Expected list");
        }
    } else {
        panic!("Expected object");
    }
}

#[test]
fn test_list_reverse() {
    let mut heap = Heap::new();
    let list = vec![Value::Int(1), Value::Int(2), Value::Int(3)];
    let handle = heap.alloc_object(Object::List(list));

    let result = list_reverse_native(&mut heap, &[Value::Obj(handle)]).unwrap();

    if let Value::Obj(result_handle) = result {
        if let Some(Object::List(reversed)) = heap.get_object(result_handle) {
            assert_eq!(reversed[0], Value::Int(3));
            assert_eq!(reversed[2], Value::Int(1));
        } else {
            panic!("Expected list");
        }
    }
}

#[test]
fn test_map_keys_values() {
    let mut heap = Heap::new();
    let handle = map(&mut heap, &[("a", Value::Int(1)), ("b", Value::Int(2))]);

    let keys_result = map_keys_native(&mut heap, &[handle]).unwrap();
    if let Value::Obj(keys_handle) = keys_result {
        if let Some(Object::List(keys)) = heap.get_object(keys_handle) {
            assert_eq!(keys.len(), 2);
        }
    }

    let values_result = map_values_native(&mut heap, &[handle]).unwrap();
    if let Value::Obj(values_handle) = values_result {
        if let Some(Object::List(values)) = heap.get_object(values_handle) {
            assert_eq!(values.len(), 2);
        }
    }
}

#[test]
fn list_sort_keeps_equal_items_and_asks_the_host_for_floats() {
    let mut heap = Heap::new();
    let l = list(&mut heap, ints(&[5, -2, 5, 0]));
    let r = list_sort_native(&mut heap, &[l]).unwrap();
    assert_eq!(items(&heap, r), ints(&[-2, 0, 5, 5]));
    let f = list(&mut heap, vec![Value::Int(1), Value::Float(0)]);
    assert!(matches!(list_sort_native(&mut heap, &[f]), Err(PulseError::NeedsFloatHost)));
    assert!(matches!(list_sort_native(&mut heap, &[]), Err(PulseError::RuntimeError(_))));
}

#[test]
fn reversing_twice_gives_the_list_back() {
    let mut heap = Heap::new();
    let l = list(&mut heap, ints(&[1, 2, 3, 4]));
    let once = list_reverse_native(&mut heap, &[l]).unwrap();
    let twice = list_reverse_native(&mut heap, &[once]).unwrap();
    assert_eq!(items(&heap, twice), ints(&[1, 2, 3, 4]));
}

#[test]
fn map_entries_pair_keys_with_values_in_order() {
    let mut heap = Heap::new();
    let m = map(&mut heap, &[("x", Value::Int(1)), ("y", Value::Bool(true))]);
    let r = pulse_vm::collections::map_entries_native(&mut heap, &[m]).unwrap();
    let es = items(&heap, r);
    assert_eq!(es.len(), 2);
    let first = items(&heap, es[0]);
    assert_eq!(text(&heap, first[0]), "x");
    assert_eq!(first[1], Value::Int(1));
    let second = items(&heap, es[1]);
    assert_eq!(text(&heap, second[0]), "y");
    assert_eq!(second[1], Value::Bool(true));
    let keys = map_keys_native(&mut heap, &[m]).unwrap();
    let ks: Vec<String> = items(&heap, keys).into_iter().map(|k| text(&heap, k)).collect();
    assert_eq!(ks, vec!["x".to_string(), "y".to_string()]);
}

#[test]
fn sort_list_orders_integers_and_booleans() {
    let mut heap = Heap::new();
    let l = list(&mut heap, ints(&[9, 3, 7]));
    let r = sort_list_native(&mut heap, &[l]).unwrap();
    assert_eq!(items(&heap, r), ints(&[3, 7, 9]));
    let b = list(&mut heap, vec![Value::Bool(true), Value::Bool(false)]);
    let r = sort_list_native(&mut heap, &[b]).unwrap();
    assert_eq!(items(&heap, r), vec![Value::Bool(false), Value::Bool(true)]);
    assert!(matches!(sort_list_native(&mut heap, &[Value::Int(1)]), Err(PulseError::TypeMismatch { .. })));
}

#[test]
fn index_of_and_contains_compare_loosely() {
    let mut heap = Heap::new();
    let s = string(&mut heap, "a");
    let l = list(&mut heap, vec![Value::Int(4), s, Value::Unit, Value::Int(4)]);
    assert_eq!(index_of_native(&mut heap, &[l, Value::Int(4)]).unwrap(), Value::Int(0));
    assert_eq!(index_of_native(&mut heap, &[l, Value::Unit]).unwrap(), Value::Int(2));
    assert_eq!(index_of_native(&mut heap, &[l, s]).unwrap(), Value::Int(-1));
    assert_eq!(list_contains_native(&mut heap, &[l, Value::Int(9)]).unwrap(), Value::Bool(false));
    assert_eq!(list_contains_native(&mut heap, &[l, Value::Unit]).unwrap(), Value::Bool(true));
    // +0.0 equals -0.0; NaN equals nothing.
    let zeros = list(&mut heap, vec![Value::Float(0x8000000000000000)]);
    assert_eq!(list_contains_native(&mut heap, &[zeros, Value::Float(0)]).unwrap(), Value::Bool(true));
    let nan = list(&mut heap, vec![Value::Float(0x7ff8000000000000)]);
    assert_eq!(list_contains_native(&mut heap, &[nan, Value::Float(0x7ff8000000000000)]).unwrap(), Value::Bool(false));
}

#[test]
fn list_insert_and_remove_edit_in_place() {
    let mut heap = Heap::new();
    let l = list(&mut heap, ints(&[1, 3]));
    assert_eq!(list_insert_native(&mut heap, &[l, Value::Int(1), Value::Int(2)]).unwrap(), Value::Unit);
    assert_eq!(items(&heap, l), ints(&[1, 2, 3]));
    assert!(matches!(list_insert_native(&mut heap, &[l, Value::Int(4), Value::Int(0)]), Err(PulseError::RuntimeError(_))));
    assert_eq!(list_remove_native(&mut heap, &[l, Value::Int(0)]).unwrap(), Value::Int(1));
    assert_eq!(items(&heap, l), ints(&[2, 3]));
    assert!(matches!(list_remove_native(&mut heap, &[l, Value::Int(2)]), Err(PulseError::RuntimeError(_))));
    assert!(matches!(list_remove_native(&mut heap, &[l, Value::Bool(true)]), Err(PulseError::TypeMismatch { .. })));
}

#[test]
fn list_slice_clamps_its_bounds() {
    let mut heap = Heap::new();
    let l = list(&mut heap, ints(&[10, 20, 30, 40]));
    let r = list_slice_native(&mut heap, &[l, Value::Int(1), Value::Int(3)]).unwrap();
    assert_eq!(items(&heap, r), ints(&[20, 30]));
    let r = list_slice_native(&mut heap, &[l, Value::Int(-5), Value::Int(99)]).unwrap();
    assert_eq!(items(&heap, r), ints(&[10, 20, 30, 40]));
    let r = list_slice_native(&mut heap, &[l, Value::Int(3), Value::Int(1)]).unwrap();
    assert_eq!(items(&heap, r), ints(&[]));
    let r = list_slice_native(&mut heap, &[l, Value::Int(0), Value::Int(-1)]).unwrap();
    assert_eq!(items(&heap, r), ints(&[]));
}

#[test]
fn list_concat_and_flatten() {
    let mut heap = Heap::new();
    let a = list(&mut heap, ints(&[1, 2]));
    let b = list(&mut heap, ints(&[3]));
    let c = list_concat_native(&mut heap, &[a, b]).unwrap();
    assert_eq!(items(&heap, c), ints(&[1, 2, 3]));
    let nested = list(&mut heap, vec![a, Value::Int(9), b]);
    let f = list_flatten_native(&mut heap, &[nested]).unwrap();
    assert_eq!(items(&heap, f), ints(&[1, 2, 9, 3]));
}

#[test]
fn range_counts_up_and_down() {
    let mut heap = Heap::new();
    let r = range_native(&mut heap, &[Value::Int(4)]).unwrap();
    assert_eq!(items(&heap, r), ints(&[0, 1, 2, 3]));
    let r = range_native(&mut heap, &[Value::Int(2), Value::Int(5)]).unwrap();
    assert_eq!(items(&heap, r), ints(&[2, 3, 4]));
    let r = range_native(&mut heap, &[Value::Int(10), Value::Int(0), Value::Int(-3)]).unwrap();
    assert_eq!(items(&heap, r), ints(&[10, 7, 4, 1]));
    assert!(matches!(range_native(&mut heap, &[Value::Int(0), Value::Int(5), Value::Int(0)]), Err(PulseError::RuntimeError(_))));
    assert!(matches!(range_native(&mut heap, &[]), Err(PulseError::RuntimeError(_))));
    assert!(matches!(range_native(&mut heap, &[Value::Bool(true)]), Err(PulseError::TypeMismatch { .. })));
}

#[test]
fn priority_queue_pops_in_ascending_order() {
    let mut heap = Heap::new();
    let h = create_heap_native(&mut heap, &[]).unwrap();
    for v in [5, 1, 4, 1, 9, 2] {
        assert_eq!(heap_push_native(&mut heap, &[h, Value::Int(v)]).unwrap(), Value::Unit);
    }
    assert_eq!(heap_size_native(&mut heap, &[h]).unwrap(), Value::Int(6));
    assert_eq!(items(&heap, h), ints(&[1, 1, 2, 4, 5, 9]));
    assert_eq!(heap_peek_native(&mut heap, &[h]).unwrap(), Value::Int(1));
    let mut out = Vec::new();
    for _ in 0..6 {
        out.push(heap_pop_native(&mut heap, &[h]).unwrap());
    }
    assert_eq!(out, ints(&[1, 1, 2, 4, 5, 9]));
    assert!(matches!(heap_pop_native(&mut heap, &[h]), Err(PulseError::RuntimeError(_))));
    assert!(matches!(heap_push_native(&mut heap, &[h, Value::Float(0)]), Err(PulseError::NeedsFloatHost)));
}

#[test]
fn heap_push_inserts_in_sorted_order() {
    let mut heap = Heap::new();
    let h = list(&mut heap, ints(&[1, 3]));
    heap_push_native(&mut heap, &[h, Value::Int(2)]).unwrap();
    assert_eq!(items(&heap, h), ints(&[1, 2, 3]));
    heap_push_native(&mut heap, &[h, Value::Int(0)]).unwrap();
    heap_push_native(&mut heap, &[h, Value::Int(7)]).unwrap();
    assert_eq!(items(&heap, h), ints(&[0, 1, 2, 3, 7]));
    assert_eq!(heap_pop_native(&mut heap, &[h]).unwrap(), Value::Int(0));
    assert_eq!(items(&heap, h), ints(&[1, 3, 2, 7]));
}

#[test]
fn heap_pop_moves_the_last_item_down() {
    let mut heap = Heap::new();
    let h = list(&mut heap, ints(&[1, 3, 2]));
    assert_eq!(heap_pop_native(&mut heap, &[h]).unwrap(), Value::Int(1));
    assert_eq!(items(&heap, h), ints(&[2, 3]));
    assert_eq!(heap_pop_native(&mut heap, &[h]).unwrap(), Value::Int(2));
    assert_eq!(heap_pop_native(&mut heap, &[h]).unwrap(), Value::Int(3));
    assert!(matches!(heap_pop_native(&mut heap, &[h]), Err(PulseError::RuntimeError(_))));
}

#[test]
fn maps_merge_delete_and_look_up_keys() {
    let mut heap = Heap::new();
    let a = map(&mut heap, &[("k", Value::Int(1)), ("a", Value::Int(2))]);
    let b = map(&mut heap, &[("k", Value::Int(3))]);
    let m = map_merge_native(&mut heap, &[a, b]).unwrap();
    let key = string(&mut heap, "k");
    assert_eq!(map_has_key_native(&mut heap, &[m, key]).unwrap(), Value::Bool(true));
    let vals = pulse_vm::map_utils::map_values_native(&mut heap, &[m]).unwrap();
    assert_eq!(items(&heap, vals), ints(&[3, 2]));
    assert_eq!(map_delete_native(&mut heap, &[m, key]).unwrap(), Value::Unit);
    assert_eq!(map_has_key_native(&mut heap, &[m, key]).unwrap(), Value::Bool(false));
    // An integer key is looked up by its text.
    let n = map(&mut heap, &[("7", Value::Unit)]);
    assert_eq!(map_has_key_native(&mut heap, &[n, Value::Int(7)]).unwrap(), Value::Bool(true));
}

#[test]
fn enumerate_zip_unique_and_count() {
    let mut heap = Heap::new();
    let l = list(&mut heap, ints(&[7, 8]));
    let e = enumerate_list_native(&mut heap, &[l]).unwrap();
    let pairs = items(&heap, e);
    assert_eq!(items(&heap, pairs[1]), ints(&[1, 8]));
    let m = list(&mut heap, ints(&[1, 2, 3]));
    let z = zip_lists_native(&mut heap, &[l, m]).unwrap();
    let zs = items(&heap, z);
    assert_eq!(zs.len(), 2);
    assert_eq!(items(&heap, zs[0]), ints(&[7, 1]));
    let s = string(&mut heap, "1");
    let d = list(&mut heap, vec![Value::Int(1), s, Value::Int(2), Value::Int(1)]);
    let u = unique_list_native(&mut heap, &[d]).unwrap();
    assert_eq!(items(&heap, u), ints(&[1, 2]));
    assert_eq!(count_list_native(&mut heap, &[d, Value::Int(1)]).unwrap(), Value::Int(3));
}

#[test]
fn scalar_natives() {
    let mut heap = Heap::new();
    let s = string(&mut heap, "  -42 ");
    assert_eq!(parse_int_native(&mut heap, &[s]).unwrap(), Value::Int(-42));
    let bad = string(&mut heap, "4x");
    assert!(matches!(parse_int_native(&mut heap, &[bad]), Err(PulseError::RuntimeError(_))));
    assert_eq!(min_native(&mut heap, &[Value::Int(3), Value::Int(-1)]).unwrap(), Value::Int(-1));
    assert_eq!(max_val_native(&mut heap, &[Value::Int(3), Value::Int(-1)]).unwrap(), Value::Int(3));
    assert!(matches!(max_val_native(&mut heap, &[Value::Int(3), Value::Float(0)]), Err(PulseError::NeedsFloatHost)));
    assert!(matches!(min_native(&mut heap, &[Value::Int(3), Value::Bool(true)]), Err(PulseError::TypeMismatch { .. })));
    let a = string(&mut heap, "é!");
    assert_eq!(char_code_native(&mut heap, &[a]).unwrap(), Value::Int(233));
    let c = from_char_code_native(&mut heap, &[Value::Int(0x263A)]).unwrap();
    assert_eq!(text(&heap, c), "\u{263A}");
    assert!(matches!(from_char_code_native(&mut heap, &[Value::Int(0xD800)]), Err(PulseError::RuntimeError(_))));
    let l = list(&mut heap, vec![]);
    assert_eq!(is_list_native(&mut heap, &[l]).unwrap(), Value::Bool(true));
    assert_eq!(is_list_native(&mut heap, &[s]).unwrap(), Value::Bool(false));
}

#[test]
fn println_line_of_values() {
    let mut heap = Heap::new();
    let s = string(&mut heap, "hi");
    let l = list(&mut heap, ints(&[1, 2]));
    let line = println_text(&heap, &[Value::Int(3), s, l, Value::Bool(false), Value::Unit]).unwrap();
    assert_eq!(line, "3 hi <list len=2> false unit ");
    assert!(matches!(println_text(&heap, &[Value::Float(0)]), Err(PulseError::NeedsFloatHost)));
}

#[test]
fn sha256_of_abc() {
    let mut heap = Heap::new();
    let s = string(&mut heap, "abc");
    let r = sha256_native(&mut heap, &[s]).unwrap();
    assert_eq!(text(&heap, r), "ba7816bf8f01cfea414140de5dae2223b00361a396177a9cb410ff61f20015ad");
    let e = string(&mut heap, "");
    let r = sha256_native(&mut heap, &[e]).unwrap();
    assert_eq!(text(&heap, r), "e3b0c44298fc1c149afbf4c8996fb92427ae41e4649b934ca495991b7852b855");
    assert!(matches!(sha256_native(&mut heap, &[]), Err(PulseError::RuntimeError(_))));
    assert!(matches!(sha256_native(&mut heap, &[Value::Int(1)]), Err(PulseError::RuntimeError(_))));
}

#[test]
fn hex_string_of_bytes() {
    assert_eq!(pulse_vm::crypto::hex_string(&[0, 15, 16, 255]), "000f10ff");
}

use pulse_vm::object::{Object, SharedMemory};
use pulse_vm::shared_heap::create_shared_heap;
use pulse_vm::value::Value;

#[test]
fn test_shared_heap_alloc() {
    let mut heap = create_shared_heap();
    let mem = SharedMemory { value: Value::Int(42), locked: false };
    let handle = heap.allocate(Object::SharedMemory(mem));

    let result = heap.get(handle);
    assert!(result.is_some());
    assert_eq!(result.expect("Expected a value").value, Value::Int(42));
}

#[test]
fn test_shared_heap_mutable() {
    let mut heap = create_shared_heap();
    let mem = SharedMemory { value: Value::Int(42), locked: false };
    let handle = heap.allocate(Object::SharedMemory(mem));

    let success = heap.set(handle, Value::Int(100));
    assert!(success);

    let result = heap.get(handle);
    assert!(result.is_some());
    assert_eq!(result.expect("Expected a value").value, Value::Int(100));
}

#[test]
fn test_shared_heap_lock() {
    let mut heap = create_shared_heap();
    let mem = SharedMemory { value: Value::Int(42), locked: false };
    let handle = heap.allocate(Object::SharedMemory(mem));

    let result = heap.try_lock(handle);
    assert!(result);
    let result2 = heap.try_lock(handle);
    assert!(!result2);
    let result3 = heap.unlock(handle);
    assert!(result3);
    let result4 = heap.try_lock(handle);
    assert!(result4);
}

#[test]
fn shared_heap_refuses_a_stale_handle() {
    let mut heap = create_shared_heap();
    let mem = SharedMemory { value: Value::Int(1), locked: false };
    let handle = heap.allocate(Object::SharedMemory(mem));
    let other = pulse_vm::shared_heap::SharedHandle(handle.0 + 5);
    assert!(heap.get(other).is_none());
    assert!(!heap.set(other, Value::Int(2)));
    assert!(!heap.try_lock(other));
    assert!(!heap.unlock(other));
}

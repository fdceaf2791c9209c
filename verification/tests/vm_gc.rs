use pulse_vm::bytecode::{Chunk, Constant, Op};
use pulse_vm::object::Object;
use pulse_vm::value::{ActorId, Value};
use pulse_vm::vm::VM;

fn text_of(vm: &VM, v: Value) -> String {
    match v {
        Value::Obj(h) => match vm.heap.get(h) {
            Some(Object::String(s)) => s.clone(),
            _ => panic!("expected a string object"),
        },
        _ => panic!("expected an object"),
    }
}

#[test]
fn test_gc_basic() {
    let chunk = Chunk::new();
    let mut vm = VM::new(chunk, ActorId::new(0, 1));

    let handle_a = vm.alloc_object(Object::String("A".to_string()));
    vm.push(Value::Obj(handle_a));

    let handle_b = vm.alloc_object(Object::String("B".to_string()));
    vm.push(Value::Obj(handle_b));
    vm.pop().unwrap();

    let handle_c = vm.alloc_object(Object::String("C".to_string()));
    vm.globals.insert("c_var".to_string(), Value::Obj(handle_c));

    assert!(vm.heap.get(handle_a).is_some());
    assert!(vm.heap.get(handle_b).is_some());
    assert!(vm.heap.get(handle_c).is_some());

    vm.collect_garbage();

    assert!(vm.heap.get(handle_a).is_some(), "Object A should be reachable (Stack)");
    assert!(vm.heap.get(handle_c).is_some(), "Object C should be reachable (Global)");
    assert!(vm.heap.get(handle_b).is_none(), "Object B should be collected (Garbage)");
}

#[test]
fn test_gc_string_concatenation() {
    let chunk = Chunk::new();
    let mut vm = VM::new(chunk, ActorId::new(0, 2));

    let h1 = vm.alloc_object(Object::String("Hello ".to_string()));
    vm.push(Value::Obj(h1));
    let h2 = vm.alloc_object(Object::String("World".to_string()));
    vm.push(Value::Obj(h2));

    let v2 = vm.pop().unwrap();
    let v1 = vm.pop().unwrap();
    let s1 = text_of(&vm, v1);
    let s2 = text_of(&vm, v2);
    let h3 = vm.alloc_object(Object::String(s1 + &s2));
    vm.push(Value::Obj(h3));

    vm.collect_garbage();

    assert!(vm.heap.get(h3).is_some(), "Result string should be reachable");
    assert!(vm.heap.get(h1).is_none(), "Intermediate string 1 should be collected");
    assert!(vm.heap.get(h2).is_none(), "Intermediate string 2 should be collected");
    assert_eq!(text_of(&vm, Value::Obj(h3)), "Hello World");
}

#[test]
fn test_gc_native_function() {
    // The script calls the global `gc` with no arguments, then halts.
    let mut chunk = Chunk::new();
    let gc_name_idx = chunk.add_constant(Constant::String("gc".to_string()));
    chunk.write(Op::GetGlobal.to_byte(), 1);
    chunk.write((gc_name_idx % 256) as u8, 1);
    chunk.write((gc_name_idx / 256) as u8, 1);
    chunk.write(Op::Call.to_byte(), 1);
    chunk.write(0, 1);
    chunk.write(Op::Halt.to_byte(), 1);

    let mut vm = VM::new(chunk, ActorId::new(0, 10));
    let h1 = vm.alloc_object(Object::String("Reachable".to_string()));
    vm.globals.insert("root".to_string(), Value::Obj(h1));
    let h2 = vm.alloc_object(Object::String("Garbage".to_string()));
    assert!(vm.heap.get_object(h2).is_some());

    vm.run(100);

    assert!(vm.heap.get_object(h1).is_some(), "Root object should persist");
    assert!(vm.heap.get_object(h2).is_none(), "Garbage object should be collected");
}

#[test]
fn push_then_pop_gives_the_value_back() {
    let mut vm = VM::new(Chunk::new(), ActorId::new(1, 1));
    let depth = vm.stack.len();
    vm.push(Value::Int(7));
    assert_eq!(vm.pop().unwrap(), Value::Int(7));
    assert_eq!(vm.stack.len(), depth);
}

#[test]
fn pop_from_empty_stack_underflows() {
    let mut vm = VM::new(Chunk::new(), ActorId::new(1, 2));
    while !vm.stack.is_empty() {
        vm.pop().unwrap();
    }
    assert!(matches!(vm.pop(), Err(pulse_vm::value::PulseError::StackUnderflow)));
}

#[test]
fn gc_native_keeps_globals_and_gives_unit() {
    let mut vm = VM::new(Chunk::new(), ActorId::new(2, 1));
    let kept = vm.alloc_object(Object::String("kept".to_string()));
    vm.globals.insert("k".to_string(), Value::Obj(kept));
    let lost = vm.alloc_object(Object::String("lost".to_string()));
    let r = pulse_vm::vm_api::gc_native(&mut vm, &[]).unwrap();
    assert_eq!(r, Value::Unit);
    assert!(vm.heap.get(kept).is_some());
    assert!(vm.heap.get(lost).is_none());
}

#[test]
fn second_collection_frees_nothing() {
    let mut vm = VM::new(Chunk::new(), ActorId::new(0, 7));
    let a = vm.alloc_object(Object::String("kept".to_string()));
    vm.push(Value::Obj(a));
    let list = vm.alloc_object(Object::List(vec![Value::Obj(a)]));
    vm.globals.insert("l".to_string(), Value::Obj(list));
    let _dropped = vm.alloc_object(Object::String("dropped".to_string()));
    vm.collect_garbage();
    let slots = vm.heap.slot_count();
    let live_after_first: Vec<bool> = (0..slots).map(|i| vm.heap.get(pulse_vm::value::ObjHandle(i)).is_some()).collect();
    vm.collect_garbage();
    let live_after_second: Vec<bool> = (0..slots).map(|i| vm.heap.get(pulse_vm::value::ObjHandle(i)).is_some()).collect();
    assert_eq!(live_after_first, live_after_second);
    assert!(vm.heap.get(a).is_some());
    assert!(vm.heap.get(list).is_some());
}

#[test]
fn a_new_vm_defines_the_natives() {
    let vm = VM::new(Chunk::new(), ActorId::new(0, 8));
    for (name, is_async) in [("clock", false), ("sleep", true), ("http_get", true), ("deep_copy", false)] {
        match vm.builtins.get(name) {
            Some(Value::Obj(h)) => match vm.heap.get(*h) {
                Some(Object::NativeFn(n)) => {
                    assert_eq!(n.name, name);
                    assert_eq!(n.is_async, is_async);
                }
                _ => panic!("expected a native function"),
            },
            _ => panic!("expected an object"),
        }
    }
}

#[test]
fn arithmetic_and_index_errors_name_their_cause() {
    let mut vm = VM::new(Chunk::new(), ActorId::new(0, 1));
    let depth = vm.stack.len();
    vm.push(Value::Int(7));
    vm.push(Value::Int(0));
    match vm.execute_op(Op::Div) {
        Err(pulse_vm::value::PulseError::RuntimeError(m)) => assert_eq!(m, "Division by zero"),
        _ => panic!("expected a runtime error"),
    }
    assert_eq!(vm.stack.len(), depth);
    vm.push(Value::Int(7));
    vm.push(Value::Int(0));
    match vm.execute_op(Op::Mod) {
        Err(pulse_vm::value::PulseError::RuntimeError(m)) => assert_eq!(m, "Modulo by zero"),
        _ => panic!("expected a runtime error"),
    }
    vm.push(Value::Int(10));
    vm.push(Value::Int(32));
    assert!(vm.execute_op(Op::Sub).is_ok());
    assert_eq!(vm.pop().unwrap(), Value::Int(-22));
    let l = vm.alloc_object(Object::List(vec![Value::Int(1)]));
    vm.push(Value::Obj(l));
    vm.push(Value::Int(5));
    match vm.execute_op(Op::GetIndex) {
        Err(pulse_vm::value::PulseError::RuntimeError(m)) => assert_eq!(m, "Index out of bounds: 5"),
        _ => panic!("expected a runtime error"),
    }
    assert_eq!(vm.stack.len(), depth);
}

#[test]
fn assigning_a_builtin_names_it() {
    let mut chunk = Chunk::new();
    let idx = chunk.add_constant(Constant::String("clock".to_string()));
    chunk.write((idx % 256) as u8, 1);
    chunk.write((idx / 256) as u8, 1);
    let mut vm = VM::new(chunk, ActorId::new(0, 1));
    vm.push(Value::Int(1));
    match vm.execute_op(Op::SetGlobal) {
        Err(pulse_vm::value::PulseError::RuntimeError(m)) => assert_eq!(m, "Cannot modify immutable builtin: clock"),
        _ => panic!("expected a runtime error"),
    }
}

#[test]
fn sweep_right_after_marking_keeps_only_the_marked() {
    let mut heap = pulse_vm::heap::Heap::new();
    let a = heap.alloc_object(Object::String("a".to_string()));
    let b = heap.alloc_object(Object::List(vec![Value::Obj(a)]));
    let c = heap.alloc_object(Object::String("c".to_string()));
    heap.mark_object(b);
    assert_eq!(heap.sweep(), 2);
    assert!(heap.get(b).is_some());
    assert!(heap.get(a).is_none());
    assert!(heap.get(c).is_none());
    heap.mark_object(b);
    heap.trace();
    assert_eq!(heap.sweep(), 0);
    assert_eq!(heap.sweep(), 1);
    assert!(heap.get(b).is_none());
}

use pulse_vm::heap::Heap;
use pulse_vm::namemap::NameMap;
use pulse_vm::object::Object;
use pulse_vm::process::{env_value, env_var_name, exit_code_native, get_args_native, get_pid_native};
use pulse_vm::process::{kill_target, process_running_native, set_env_request, shell_command, shell_output};
use pulse_vm::process::{spawn_request, spawned_process, system_info_native, wait_target, waited_process};
use pulse_vm::value::{PulseError, Value};

fn list(heap: &mut Heap, items: Vec<Value>) -> Value {
    Value::Obj(heap.alloc_object(Object::List(items)))
}

fn string(heap: &mut Heap, s: &str) -> Value {
    Value::Obj(heap.alloc_object(Object::String(s.to_string())))
}

fn map(heap: &mut Heap, entries: &[(&str, Value)]) -> Value {
    let mut m = NameMap::new();
    for (k, v) in entries {
        m.insert(k.to_string(), *v);
    }
    Value::Obj(heap.alloc_object(Object::Dict(m)))
}

fn entry(heap: &Heap, v: Value, key: &str) -> Value {
    match v {
        Value::Obj(h) => match heap.get_object(h) {
            Some(Object::Dict(m)) => *m.get(key).expect("missing key"),
            _ => panic!("Expected map"),
        },
        _ => panic!("Expected object"),
    }
}

fn text(heap: &Heap, v: Value) -> String {
    match v {
        Value::Obj(h) => match heap.get_object(h) {
            Some(Object::String(s)) => s.clone(),
            _ => panic!("Expected string"),
        },
        _ => panic!("Expected object"),
    }
}

#[test]
fn wait_reports_the_exit_status() {
    let mut heap = Heap::new();
    assert_eq!(wait_target(&[Value::Int(42)]).unwrap(), 42);
    assert!(matches!(wait_target(&[Value::Bool(true)]), Err(PulseError::TypeMismatch { .. })));
    assert!(matches!(wait_target(&[]), Err(PulseError::RuntimeError(_))));
    let r = waited_process(&mut heap, Some(0)).unwrap();
    assert_eq!(entry(&heap, r, "exit_code"), Value::Int(0));
    assert_eq!(entry(&heap, r, "success"), Value::Bool(true));
    let r = waited_process(&mut heap, Some(3)).unwrap();
    assert_eq!(entry(&heap, r, "exit_code"), Value::Int(3));
    assert_eq!(entry(&heap, r, "success"), Value::Bool(false));
    let r = waited_process(&mut heap, None).unwrap();
    assert_eq!(entry(&heap, r, "exit_code"), Value::Unit);
    assert_eq!(entry(&heap, r, "success"), Value::Bool(false));
}

#[test]
fn exit_code_and_running_read_process_maps() {
    let mut heap = Heap::new();
    let p = map(&mut heap, &[("exit_code", Value::Int(3)), ("running", Value::Bool(true))]);
    assert_eq!(exit_code_native(&mut heap, &[p]).unwrap(), Value::Int(3));
    assert_eq!(process_running_native(&mut heap, &[p]).unwrap(), Value::Bool(true));
    let empty = map(&mut heap, &[]);
    assert!(matches!(exit_code_native(&mut heap, &[empty]), Err(PulseError::RuntimeError(_))));
    assert_eq!(process_running_native(&mut heap, &[empty]).unwrap(), Value::Bool(false));
    let wrong = map(&mut heap, &[("exit_code", Value::Bool(false)), ("running", Value::Int(1))]);
    assert!(matches!(exit_code_native(&mut heap, &[wrong]), Err(PulseError::RuntimeError(_))));
    assert!(matches!(process_running_native(&mut heap, &[wrong]), Err(PulseError::RuntimeError(_))));
    assert!(matches!(exit_code_native(&mut heap, &[Value::Int(1)]), Err(PulseError::TypeMismatch { .. })));
    let n = Value::Obj(heap.alloc_object(Object::String("PULSE_MODE".to_string())));
    let v = Value::Obj(heap.alloc_object(Object::String("fast".to_string())));
    assert_eq!(set_env_request(&heap, &[n, v]).unwrap(), ("PULSE_MODE".to_string(), "fast".to_string()));
    assert!(matches!(set_env_request(&heap, &[n, Value::Unit]), Err(PulseError::TypeMismatch { .. })));
    assert!(matches!(set_env_request(&heap, &[n]), Err(PulseError::RuntimeError(_))));
}

#[test]
fn spawn_request_collects_arguments_environment_and_directory() {
    let mut heap = Heap::new();
    let cmd = string(&mut heap, "ls");
    let flag = string(&mut heap, "-l");
    let argl = list(&mut heap, vec![flag, Value::Int(-7), Value::Bool(false)]);
    let home = string(&mut heap, "/home");
    let env = map(&mut heap, &[("HOME", home), ("N", Value::Int(5)), ("SKIP", Value::Unit)]);
    let dir = string(&mut heap, "/tmp");
    let q = spawn_request(&heap, &[cmd, argl, env, dir]).unwrap();
    assert_eq!(q.command, "ls");
    assert_eq!(q.args, vec!["-l".to_string(), "-7".to_string(), "false".to_string()]);
    assert_eq!(q.env, vec![("HOME".to_string(), "/home".to_string()), ("N".to_string(), "5".to_string())]);
    assert_eq!(q.dir, Some("/tmp".to_string()));
    let floaty = list(&mut heap, vec![Value::Float(0)]);
    assert!(matches!(spawn_request(&heap, &[cmd, floaty]), Err(PulseError::NeedsFloatHost)));
    let odd = list(&mut heap, vec![Value::Unit]);
    assert!(matches!(spawn_request(&heap, &[cmd, odd]), Err(PulseError::TypeMismatch { .. })));
    assert!(matches!(spawn_request(&heap, &[Value::Int(1)]), Err(PulseError::TypeMismatch { .. })));
    assert!(matches!(spawn_request(&heap, &[]), Err(PulseError::RuntimeError(_))));
    let p = spawned_process(&mut heap, 77).unwrap();
    assert_eq!(entry(&heap, p, "pid"), Value::Int(77));
    assert_eq!(entry(&heap, p, "running"), Value::Bool(true));
}

#[test]
fn shell_environment_and_host_facts() {
    let mut heap = Heap::new();
    let c = string(&mut heap, "echo hi");
    assert_eq!(shell_command(&heap, &[c]).unwrap(), "echo hi");
    let out = shell_output(&mut heap, b"hi\n", &[0xff], None, false).unwrap();
    assert_eq!(text(&heap, entry(&heap, out, "stdout")), "hi\n");
    assert_eq!(text(&heap, entry(&heap, out, "stderr")), "\u{fffd}");
    assert_eq!(entry(&heap, out, "exit_code"), Value::Int(-1));
    assert_eq!(entry(&heap, out, "success"), Value::Bool(false));
    let name = string(&mut heap, "PATH");
    assert_eq!(env_var_name(&heap, &[name]).unwrap(), "PATH");
    let v = env_value(&mut heap, Some("x".to_string()));
    assert_eq!(text(&heap, v), "x");
    assert_eq!(env_value(&mut heap, None), Value::Unit);
    let argv = get_args_native(&mut heap, &[], vec!["prog".to_string(), "a".to_string()]).unwrap();
    match argv {
        Value::Obj(h) => match heap.get_object(h) {
            Some(Object::List(l)) => {
                let got: Vec<String> = l.iter().map(|v| text(&heap, *v)).collect();
                assert_eq!(got, vec!["prog", "a"]);
            },
            _ => panic!("Expected list"),
        },
        _ => panic!("Expected object"),
    }
    assert_eq!(get_pid_native(&[], 12).unwrap(), Value::Int(12));
    assert!(matches!(get_pid_native(&[Value::Unit], 12), Err(PulseError::RuntimeError(_))));
    assert_eq!(kill_target(&[Value::Int(9)]).unwrap(), 9);
    let info = system_info_native(&mut heap, &[], "linux", "x86_64", "unix").unwrap();
    assert_eq!(text(&heap, entry(&heap, info, "os")), "linux");
    assert_eq!(text(&heap, entry(&heap, info, "architecture")), "x86_64");
    assert_eq!(text(&heap, entry(&heap, info, "family")), "unix");
}

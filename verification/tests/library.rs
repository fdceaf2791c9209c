use pulse_vm::heap::Heap;
use pulse_vm::object::Object;
use pulse_vm::stdlib_info::version;
use pulse_vm::value::{PulseError, Value};
use pulse_vm::string_utils::{ends_with_native, starts_with_native, string_lowercase_native, string_uppercase_native, trim_string_native};
use pulse_vm::string_utils::{join_strings_native, split_string_native, substring_native};
use pulse_vm::utils::{add_to_set_native, contains_in_set_native, create_set_native, remove_from_set_native};
use pulse_vm::utils::{create_queue_native, dequeue_native, enqueue_native, peek_queue_native};
use pulse_vm::utils::{filter_list_native, map_list_native, reduce_list_native};
use pulse_vm::collections::{fold_finish, fold_next, fold_resume, list_map_native, FoldJob, FoldStep};
use pulse_vm::json::{json_parse_native, json_stringify_native};
use pulse_vm::json::find_colon_outside_quotes;
use pulse_vm::testing::{assert_eq_native, assert_native, assert_ne_native};
use pulse_vm::random::{choice_native, random_bytes_native, random_hex_native, random_int_native, random_string_native, rand_int_range_native, sample_native, seed_rng_native, shuffle_native};
use rand::SeedableRng;
use pulse_vm::logging::{debug_native, disable_logging_native, error_native, set_log_level_native, LogSettings};
use pulse_vm::bytecode::Chunk;
use pulse_vm::value::ActorId;
use pulse_vm::vm::VM;
use pulse_vm::bytecode::Function;
use pulse_vm::object::Closure;
use pulse_vm::uuid::{uuid_from_bytes_native, uuid_generate_native, uuid_is_valid_native, uuid_namespace_ns_dns_native, uuid_nil_native, uuid_parse_native, uuid_to_string_native};
use pulse_vm::http::{http_format_response_native, http_parse_native, http_request_plan, http_result_map, HeaderValue};
use pulse_vm::namemap::NameMap;
use pulse_vm::regex::{regex_compile_native, regex_find_all_native, regex_match_native, regex_replace_native};
use pulse_vm::serial::{bincode_deserialize_native, bincode_serialize_native, byte_values, serial_tree, Serial};

fn string(heap: &mut Heap, s: &str) -> Value {
    Value::Obj(heap.alloc_object(Object::String(s.to_string())))
}

fn text(heap: &Heap, v: Value) -> String {
    match v {
        Value::Obj(h) => match heap.get_object(h) {
            Some(Object::String(s)) => s.clone(),
            _ => panic!("Expected string"),
        },
        _ => panic!("Expected object"),
    }
}

fn items(heap: &Heap, v: Value) -> Vec<Value> {
    match v {
        Value::Obj(h) => match heap.get_object(h) {
            Some(Object::List(l)) => l.clone(),
            _ => panic!("Expected list"),
        },
        _ => panic!("Expected object"),
    }
}

#[test]
fn test_version() {
    assert_eq!(version(), "2.0.0-core");
}

#[test]
fn string_case_trim_and_affixes() {
    let mut heap = Heap::new();
    let s = string(&mut heap, "Straße");
    let up = string_uppercase_native(&mut heap, &[s]).unwrap();
    assert_eq!(text(&heap, up), "STRASSE");
    let low = string_lowercase_native(&mut heap, &[up]).unwrap();
    assert_eq!(text(&heap, low), "strasse");
    let padded = string(&mut heap, " \t hi\n\u{3000}");
    let t = trim_string_native(&mut heap, &[padded]).unwrap();
    assert_eq!(text(&heap, t), "hi");
    let p = string(&mut heap, "Str");
    assert_eq!(starts_with_native(&mut heap, &[s, p]).unwrap(), Value::Bool(true));
    assert_eq!(ends_with_native(&mut heap, &[s, p]).unwrap(), Value::Bool(false));
}

#[test]
fn substring_cuts_on_character_boundaries() {
    let mut heap = Heap::new();
    let s = string(&mut heap, "héllo");
    let r = substring_native(&mut heap, &[s, Value::Int(0), Value::Int(3)]).unwrap();
    assert_eq!(text(&heap, r), "hé");
    assert!(substring_native(&mut heap, &[s, Value::Int(0), Value::Int(2)]).is_err());
}

#[test]
fn sets_hold_values_by_their_text() {
    let mut heap = Heap::new();
    let set = create_set_native(&mut heap, &[]).unwrap();
    assert_eq!(add_to_set_native(&mut heap, &[set, Value::Int(5)]).unwrap(), Value::Unit);
    let five = string(&mut heap, "5");
    assert_eq!(contains_in_set_native(&mut heap, &[set, five]).unwrap(), Value::Bool(true));
    assert_eq!(remove_from_set_native(&mut heap, &[set, Value::Int(5)]).unwrap(), Value::Bool(true));
    assert_eq!(contains_in_set_native(&mut heap, &[set, Value::Int(5)]).unwrap(), Value::Bool(false));
    assert_eq!(remove_from_set_native(&mut heap, &[set, Value::Int(5)]).unwrap(), Value::Bool(false));
}

#[test]
fn queues_are_first_in_first_out() {
    let mut heap = Heap::new();
    let q = create_queue_native(&mut heap, &[]).unwrap();
    enqueue_native(&mut heap, &[q, Value::Int(1)]).unwrap();
    enqueue_native(&mut heap, &[q, Value::Int(2)]).unwrap();
    assert_eq!(peek_queue_native(&mut heap, &[q]).unwrap(), Value::Int(1));
    assert_eq!(dequeue_native(&mut heap, &[q]).unwrap(), Value::Int(1));
    assert_eq!(dequeue_native(&mut heap, &[q]).unwrap(), Value::Int(2));
    assert!(matches!(dequeue_native(&mut heap, &[q]), Err(PulseError::RuntimeError(_))));
}

fn drive(heap: &mut Heap, mut job: FoldJob, reply: impl Fn(&[Value]) -> Value) -> (Vec<Vec<Value>>, Value) {
    let mut calls = Vec::new();
    loop {
        match fold_next(&job) {
            FoldStep::Call { func, args } => {
                assert_eq!(func, Value::Unit);
                let v = reply(&args);
                calls.push(args);
                fold_resume(&mut job, v);
            }
            FoldStep::Done => return (calls, fold_finish(heap, job)),
        }
    }
}

#[test]
fn map_filter_and_reduce_call_the_function_per_item() {
    let mut heap = Heap::new();
    let l = Value::Obj(heap.alloc_object(Object::List(vec![Value::Int(1), Value::Int(2), Value::Int(3)])));
    let double = |a: &[Value]| match a { [Value::Int(x)] => Value::Int(2 * x), _ => Value::Unit };
    let job = map_list_native(&heap, &[l, Value::Unit]).unwrap();
    let (calls, m) = drive(&mut heap, job, double);
    assert_eq!(calls, vec![vec![Value::Int(1)], vec![Value::Int(2)], vec![Value::Int(3)]]);
    assert_eq!(items(&heap, m), vec![Value::Int(2), Value::Int(4), Value::Int(6)]);
    let job = list_map_native(&heap, &[l, Value::Unit]).unwrap();
    let (_, m2) = drive(&mut heap, job, double);
    assert_eq!(items(&heap, m2), vec![Value::Int(2), Value::Int(4), Value::Int(6)]);
    let odd = |a: &[Value]| match a { [Value::Int(x)] => Value::Bool(x % 2 == 1), _ => Value::Unit };
    let job = filter_list_native(&heap, &[l, Value::Unit]).unwrap();
    let (_, f) = drive(&mut heap, job, odd);
    assert_eq!(items(&heap, f), vec![Value::Int(1), Value::Int(3)]);
    let add = |a: &[Value]| match a { [Value::Int(x), Value::Int(y)] => Value::Int(x + y), _ => Value::Unit };
    let job = reduce_list_native(&heap, &[l, Value::Unit, Value::Int(10)]).unwrap();
    let (calls, total) = drive(&mut heap, job, add);
    assert_eq!(calls[0], vec![Value::Int(10), Value::Int(1)]);
    assert_eq!(calls[2], vec![Value::Int(13), Value::Int(3)]);
    assert_eq!(total, Value::Int(16));
    assert!(matches!(map_list_native(&heap, &[Value::Int(1), Value::Unit]), Err(PulseError::TypeMismatch { .. })));
    assert!(matches!(map_list_native(&heap, &[l]), Err(PulseError::RuntimeError(_))));
    assert!(matches!(list_map_native(&heap, &[Value::Int(1), Value::Unit]), Err(PulseError::RuntimeError(_))));
}

#[test]
fn json_round_trip_of_a_map() {
    let mut heap = Heap::new();
    let src = string(&mut heap, r#" {"a": [1, true, null], "b": "x"} "#);
    let v = json_parse_native(&mut heap, &[src]).unwrap();
    let s = json_stringify_native(&mut heap, &[v]).unwrap();
    assert_eq!(text(&heap, s), r#"{"a":[1,true,null],"b":"x"}"#);
    let bad = string(&mut heap, "[1,");
    assert!(json_parse_native(&mut heap, &[bad]).is_err());
}

#[test]
fn json_scalars_that_are_no_number_are_invalid() {
    let mut heap = Heap::new();
    for t in ["abc", "1.2.3", "[1, oops]", "{\"k\": 1x}", "e5", "."] {
        let src = string(&mut heap, t);
        assert!(matches!(json_parse_native(&mut heap, &[src]), Err(PulseError::RuntimeError(_))), "{}", t);
    }
    for t in ["1.5", "-2e10", ".5", "7.", "1E-3", "inf", "NaN", "[1, 2.5]"] {
        let src = string(&mut heap, t);
        assert!(matches!(json_parse_native(&mut heap, &[src]), Err(PulseError::NeedsFloatHost)), "{}", t);
    }
    let src = string(&mut heap, "99999999999999999999");
    assert!(matches!(json_parse_native(&mut heap, &[src]), Err(PulseError::NeedsFloatHost)));
}

#[test]
fn find_colon_skips_quoted_colons() {
    assert_eq!(find_colon_outside_quotes(r#""a:b": 1"#), Some(5));
    assert_eq!(find_colon_outside_quotes(r#""a:b""#), None);
}

#[test]
fn assertions_pass_and_fail() {
    let mut heap = Heap::new();
    assert_eq!(assert_native(&mut heap, &[Value::Bool(true)]).unwrap(), Value::Unit);
    assert!(matches!(assert_native(&mut heap, &[Value::Bool(false)]), Err(PulseError::RuntimeError(_))));
    let a = string(&mut heap, "x");
    let b = string(&mut heap, "x");
    assert_eq!(assert_eq_native(&mut heap, &[a, b]).unwrap(), Value::Unit);
    assert!(matches!(assert_ne_native(&mut heap, &[a, b]), Err(PulseError::RuntimeError(_))));
    assert_eq!(assert_ne_native(&mut heap, &[Value::Int(1), Value::Int(2)]).unwrap(), Value::Unit);
}

#[test]
fn random_natives_stay_in_range() {
    let mut rng = rand::rngs::StdRng::seed_from_u64(7);
    let mut heap = Heap::new();
    for _ in 0..50 {
        match rand_int_range_native(&mut rng, &[Value::Int(-3), Value::Int(3)]).unwrap() {
            Value::Int(k) => assert!((-3..=3).contains(&k)),
            _ => panic!("expected an integer"),
        }
        match random_int_native(&[Value::Int(10), Value::Int(12)]).unwrap() {
            Value::Int(k) => assert!((10..=12).contains(&k)),
            _ => panic!("expected an integer"),
        }
    }
    assert!(matches!(rand_int_range_native(&mut rng, &[Value::Int(3), Value::Int(-3)]), Err(PulseError::RuntimeError(_))));
    assert!(matches!(rand_int_range_native(&mut rng, &[Value::Float(0), Value::Int(3)]), Err(PulseError::NeedsFloatHost)));
    assert_eq!(seed_rng_native(&mut rng, &[Value::Int(1)]).unwrap(), Value::Unit);
    let l = Value::Obj(heap.alloc_object(Object::List(vec![Value::Int(1), Value::Int(2), Value::Int(3)])));
    let c = choice_native(&mut rng, &heap, &[l]).unwrap();
    assert!(matches!(c, Value::Int(1..=3)));
    let s = shuffle_native(&mut rng, &mut heap, &[l]).unwrap();
    let mut got = items(&heap, s);
    got.sort_by_key(|v| match v { Value::Int(i) => *i, _ => 0 });
    assert_eq!(got, vec![Value::Int(1), Value::Int(2), Value::Int(3)]);
    let p = sample_native(&mut rng, &mut heap, &[l, Value::Int(5)]).unwrap();
    let mut picked = items(&heap, p);
    assert_eq!(picked.len(), 3);
    picked.sort_by_key(|v| match v { Value::Int(i) => *i, _ => 0 });
    assert_eq!(picked, vec![Value::Int(1), Value::Int(2), Value::Int(3)]);
    let bytes = random_bytes_native(&mut rng, &mut heap, &[Value::Int(16)]).unwrap();
    assert_eq!(items(&heap, bytes).len(), 16);
    assert!(items(&heap, bytes).iter().all(|b| matches!(b, Value::Int(0..=255))));
    let hex = random_hex_native(&mut rng, &mut heap, &[Value::Int(12)]).unwrap();
    assert!(text(&heap, hex).chars().all(|c| c.is_ascii_hexdigit() && !c.is_ascii_uppercase()));
    assert_eq!(text(&heap, hex).len(), 12);
    let word = random_string_native(&mut rng, &mut heap, &[Value::Int(20)]).unwrap();
    assert!(text(&heap, word).chars().all(|c| c.is_ascii_alphanumeric()));
    assert_eq!(text(&heap, word).len(), 20);
}

#[test]
fn logging_filters_by_level_and_formats_lines() {
    let mut heap = Heap::new();
    let mut settings = LogSettings::new();
    let msg = string(&mut heap, "disk");
    let none = debug_native(&settings, &heap, &[msg], "T");
    assert!(none.line.is_none());
    let l = Value::Obj(heap.alloc_object(Object::List(vec![Value::Int(1), Value::Bool(true)])));
    let out = error_native(&settings, &heap, &[msg, l], "T");
    let line = out.line.unwrap();
    assert_eq!(line.text, "[T] [ERROR] disk [1, true]");
    assert!(line.to_stderr);
    let name = string(&mut heap, "DEBUG");
    set_log_level_native(&mut settings, &heap, &[name]).unwrap();
    assert_eq!(settings.level, 0);
    let shown = debug_native(&settings, &heap, &[msg], "T");
    assert!(!shown.line.unwrap().to_stderr);
    disable_logging_native(&mut settings, &[]).unwrap();
    assert!(error_native(&settings, &heap, &[msg], "T").line.is_none());
}

#[test]
fn path_resolution_joins_relative_imports() {
    let mut vm = VM::new(Chunk::new(), ActorId::new(0, 1));
    assert_eq!(vm.resolve_path("./util.pulse"), "./util.pulse");
    let script = vm.frames[0].closure;
    let function = Function {
        arity: 0,
        chunk: std::sync::Arc::new(Chunk::new()),
        name: "script".to_string(),
        upvalue_count: 0,
        source_path: Some("/home/app/main.pulse".to_string()),
    };
    assert!(vm.heap.replace(script, Object::Closure(Closure { function, upvalues: vec![] })).is_ok());
    assert_eq!(vm.resolve_path("./util.pulse"), "/home/app/./util.pulse");
    assert_eq!(vm.resolve_path("/abs/mod.pulse"), "/abs/mod.pulse");
    assert_eq!(vm.resolve_path("lib.pulse"), "lib.pulse");
}

#[test]
fn uuid_texts_from_bytes_and_parsing() {
    let mut heap = Heap::new();
    let nil = uuid_nil_native(&mut heap, &[]).unwrap();
    assert_eq!(text(&heap, nil), "00000000-0000-0000-0000-000000000000");
    let dns = uuid_namespace_ns_dns_native(&mut heap, &[]).unwrap();
    assert_eq!(text(&heap, dns), "6ba7b810-9dad-11d1-80b4-00c04fd430c8");
    let bytes: Vec<Value> = (0..16).map(|i| Value::Int(i * 17 + 256)).collect();
    let l = Value::Obj(heap.alloc_object(Object::List(bytes)));
    let u = uuid_from_bytes_native(&mut heap, &[l]).unwrap();
    assert_eq!(text(&heap, u), "00112233-4455-6677-8899-aabbccddeeff");
    let g = uuid_generate_native(&mut heap, &[]).unwrap();
    let gs = text(&heap, g);
    assert_eq!(gs.len(), 36);
    assert_eq!(&gs[14..15], "4");
    assert_eq!(uuid_is_valid_native(&mut heap, &[g]).unwrap(), Value::Bool(true));
    let bad = string(&mut heap, "not-a-uuid");
    assert_eq!(uuid_is_valid_native(&mut heap, &[bad]).unwrap(), Value::Bool(false));
    assert!(matches!(uuid_to_string_native(&mut heap, &[bad]), Err(PulseError::RuntimeError(_))));
    let upper = string(&mut heap, "67E55044-10B1-426F-9247-BB680E5FE0C8");
    let canon = uuid_to_string_native(&mut heap, &[upper]).unwrap();
    assert_eq!(text(&heap, canon), "67e55044-10b1-426f-9247-bb680e5fe0c8");
    let simple = string(&mut heap, "67e5504410b1426f9247bb680e5fe0c8");
    let canon = uuid_to_string_native(&mut heap, &[simple]).unwrap();
    assert_eq!(text(&heap, canon), "67e55044-10b1-426f-9247-bb680e5fe0c8");
    let p = uuid_parse_native(&mut heap, &[dns]).unwrap();
    let m = match p {
        Value::Obj(h) => match heap.get_object(h) {
            Some(Object::Dict(m)) => m.copy(),
            _ => panic!("expected a map"),
        },
        _ => panic!("expected an object"),
    };
    assert_eq!(*m.get("version").unwrap(), Value::Int(0));
    assert_eq!(text(&heap, *m.get("variant").unwrap()), "RFC4122");
    assert_eq!(text(&heap, *m.get("simple").unwrap()), "6ba7b8109dad11d180b400c04fd430c8");
    assert_eq!(text(&heap, *m.get("urn").unwrap()), "urn:uuid:6ba7b810-9dad-11d1-80b4-00c04fd430c8");
    assert!(text(&heap, *m.get("bytes").unwrap()).starts_with("6b:a7:b8:10:"));
}

#[test]
fn regex_natives_match_find_and_replace() {
    let mut heap = Heap::new();
    let p = string(&mut heap, r"\d+");
    let t = string(&mut heap, "a1 b22 c333");
    assert_eq!(regex_match_native(&mut heap, &[p, t]).unwrap(), Value::Bool(true));
    let found = regex_find_all_native(&mut heap, &[p, t]).unwrap();
    let texts: Vec<String> = items(&heap, found).into_iter().map(|v| text(&heap, v)).collect();
    assert_eq!(texts, vec!["1".to_string(), "22".to_string(), "333".to_string()]);
    let rep = string(&mut heap, "#");
    let r = regex_replace_native(&mut heap, &[p, rep, t]).unwrap();
    assert_eq!(text(&heap, r), "a# b# c#");
    let bad = string(&mut heap, "(");
    assert!(matches!(regex_compile_native(&mut heap, &[bad]), Err(PulseError::RuntimeError(_))));
    let ok = regex_compile_native(&mut heap, &[p]).unwrap();
    assert_eq!(text(&heap, ok), r"\d+");
}

#[test]
fn http_request_parsing_and_response_text() {
    let mut heap = Heap::new();
    let body = string(&mut heap, "hi");
    let r = http_format_response_native(&mut heap, &[Value::Int(200), body]).unwrap();
    assert_eq!(text(&heap, r), "HTTP/1.1 200 OK\r\nContent-Length: 2\r\nContent-Type: text/plain\r\nConnection: close\r\n\r\nhi");
    let r = http_format_response_native(&mut heap, &[Value::Int(418), body]).unwrap();
    assert!(text(&heap, r).starts_with("HTTP/1.1 418 Unknown\r\n"));
    let raw = string(&mut heap, "GET /index.html HTTP/1.1\r\nHost: example.com\r\nX-A:  b \r\nnot a header\r\n\r\nIgnored: yes");
    let p = http_parse_native(&mut heap, &[raw]).unwrap();
    let m = match p {
        Value::Obj(h) => match heap.get_object(h) {
            Some(Object::Dict(m)) => m.copy(),
            _ => panic!("expected a map"),
        },
        _ => panic!("expected an object"),
    };
    assert_eq!(text(&heap, *m.get("method").unwrap()), "GET");
    assert_eq!(text(&heap, *m.get("path").unwrap()), "/index.html");
    let headers = match *m.get("headers").unwrap() {
        Value::Obj(h) => match heap.get_object(h) {
            Some(Object::Dict(hm)) => hm.copy(),
            _ => panic!("expected a map"),
        },
        _ => panic!("expected an object"),
    };
    assert_eq!(headers.entries.len(), 2);
    assert_eq!(text(&heap, *headers.get("Host").unwrap()), "example.com");
    assert_eq!(text(&heap, *headers.get("X-A").unwrap()), "b");
    let empty = string(&mut heap, "");
    assert!(matches!(http_parse_native(&mut heap, &[empty]), Err(PulseError::RuntimeError(_))));
    let short = string(&mut heap, "GET\r\n");
    assert!(matches!(http_parse_native(&mut heap, &[short]), Err(PulseError::RuntimeError(_))));
}

#[test]
fn serialisation_trees_and_byte_lists() {
    let mut heap = Heap::new();
    let s = string(&mut heap, "ab");
    let l = Value::Obj(heap.alloc_object(Object::List(vec![Value::Int(7), s, Value::Unit])));
    match serial_tree(&heap, &[l]).unwrap() {
        Serial::Arr(items) => {
            assert_eq!(items.len(), 3);
            assert!(matches!(items[0], Serial::Int(7)));
            assert!(matches!(&items[1], Serial::Str(t) if t == "ab"));
            assert!(matches!(items[2], Serial::Null));
        }
        _ => panic!("expected an array"),
    }
    assert!(matches!(serial_tree(&heap, &[Value::Float(0)]), Err(PulseError::NeedsFloatHost)));
    assert!(matches!(serial_tree(&heap, &[Value::Pid(ActorId::new(1, 1))]), Err(PulseError::RuntimeError(_))));
    assert!(matches!(serial_tree(&heap, &[]), Err(PulseError::RuntimeError(_))));
    let b = byte_values(&mut heap, &vec![1u8, 255]);
    assert_eq!(items(&heap, b), vec![Value::Int(1), Value::Int(255)]);
    assert!(matches!(bincode_deserialize_native(&mut heap, &[b]), Err(PulseError::RuntimeError(_))));
    let encoded = bincode_serialize_native(&mut heap, &[l]).unwrap();
    let expected = bincode::serialize(&serde_json::Value::Array(vec![
        serde_json::Value::Number(7.into()),
        serde_json::Value::String("ab".to_string()),
        serde_json::Value::Null,
    ])).unwrap();
    let want: Vec<Value> = expected.iter().map(|x| Value::Int(*x as i64)).collect();
    assert_eq!(items(&heap, encoded), want);
    assert!(matches!(bincode_serialize_native(&mut heap, &[Value::Float(0)]), Err(PulseError::NeedsFloatHost)));
}

#[test]
fn joining_split_pieces_gives_the_text_back() {
    let mut heap = Heap::new();
    for (t, d) in [("a,b,,c", ","), ("", ","), ("xx--yy--", "--"), ("no delimiter", ";")] {
        let s = string(&mut heap, t);
        let sep = string(&mut heap, d);
        let parts = split_string_native(&mut heap, &[s, sep]).unwrap();
        let back = join_strings_native(&mut heap, &[parts, sep]).unwrap();
        assert_eq!(text(&heap, back), t);
    }
}

#[test]
fn http_request_checks_its_arguments_and_method() {
    let mut heap = Heap::new();
    let get = string(&mut heap, "get");
    match http_request_plan(&heap, &[get]) {
        Err(PulseError::RuntimeError(m)) => assert_eq!(m, "http_request expects at least 2 arguments"),
        _ => panic!("expected a runtime error"),
    }
    let url = string(&mut heap, "http://example.com/");
    assert!(matches!(http_request_plan(&heap, &[Value::Int(1), url]), Err(PulseError::TypeMismatch { .. })));
    let bad = string(&mut heap, "fetch");
    match http_request_plan(&heap, &[bad, url]) {
        Err(PulseError::RuntimeError(m)) => assert_eq!(m, "Unsupported HTTP method: FETCH"),
        _ => panic!("expected a runtime error"),
    }
    let body = string(&mut heap, "payload");
    let p = http_request_plan(&heap, &[get, url, body]).unwrap();
    assert_eq!(p.method, "GET");
    assert_eq!(p.url, "http://example.com/");
    assert!(p.body.is_none());
    assert!(p.headers.is_empty());
    let post = string(&mut heap, "Post");
    let p = http_request_plan(&heap, &[post, url]).unwrap();
    assert_eq!(p.method, "POST");
    assert_eq!(p.body, Some(String::new()));
    let p = http_request_plan(&heap, &[post, url, body]).unwrap();
    assert_eq!(p.body, Some("payload".to_string()));
    assert!(matches!(http_request_plan(&heap, &[post, url, body, Value::Int(3)]), Err(PulseError::TypeMismatch { .. })));
}

#[test]
fn http_request_sends_header_values_by_kind() {
    let mut heap = Heap::new();
    let put = string(&mut heap, "put");
    let url = string(&mut heap, "http://example.com/x");
    let body = string(&mut heap, "b");
    let accept = string(&mut heap, "text/plain");
    let list = Value::Obj(heap.alloc_object(Object::List(vec![])));
    let mut hm: NameMap<Value> = NameMap::new();
    hm.insert("Accept".to_string(), accept);
    hm.insert("X-Count".to_string(), Value::Int(7));
    hm.insert("X-None".to_string(), Value::Unit);
    hm.insert("X-List".to_string(), list);
    let headers = Value::Obj(heap.alloc_object(Object::Dict(hm)));
    let p = http_request_plan(&heap, &[put, url, body, headers]).unwrap();
    assert_eq!(p.body, Some("b".to_string()));
    assert_eq!(p.headers.len(), 4);
    assert_eq!(p.headers[0].0, "Accept");
    assert!(matches!(&p.headers[0].1, HeaderValue::Text(t) if t == "text/plain"));
    assert!(matches!(p.headers[1].1, HeaderValue::Shown(Value::Int(7))));
    assert!(matches!(p.headers[2].1, HeaderValue::Skipped));
    assert!(matches!(p.headers[3].1, HeaderValue::Skipped));
}

#[test]
fn http_result_map_holds_the_reply() {
    let mut heap = Heap::new();
    let headers = vec![
        ("content-type".to_string(), "text/html".to_string()),
        ("set-cookie".to_string(), "a=1".to_string()),
        ("set-cookie".to_string(), "b=2".to_string()),
    ];
    let r = http_result_map(&mut heap, "DELETE".to_string(), 204, headers, "id-1".to_string());
    let m = match r {
        Value::Obj(h) => match heap.get_object(h) {
            Some(Object::Dict(m)) => m.copy(),
            _ => panic!("expected a map"),
        },
        _ => panic!("expected an object"),
    };
    assert_eq!(m.entries.len(), 5);
    assert!(matches!(m.get("status"), Some(Value::Int(204))));
    assert_eq!(text(&heap, *m.get("method").unwrap()), "DELETE");
    assert_eq!(text(&heap, *m.get("body_id").unwrap()), "id-1");
    assert_eq!(text(&heap, *m.get("body").unwrap()), "");
    let hm = match *m.get("headers").unwrap() {
        Value::Obj(h) => match heap.get_object(h) {
            Some(Object::Dict(hm)) => hm.copy(),
            _ => panic!("expected a map"),
        },
        _ => panic!("expected an object"),
    };
    assert_eq!(hm.entries.len(), 2);
    assert_eq!(text(&heap, *hm.get("content-type").unwrap()), "text/html");
    assert_eq!(text(&heap, *hm.get("set-cookie").unwrap()), "b=2");
}

#[test]
fn trim_removes_unicode_white_space_only() {
    let mut heap = Heap::new();
    let padded = string(&mut heap, "\u{3000}\u{85}\u{2009} hi\u{200B} \t\u{a0}");
    let t = trim_string_native(&mut heap, &[padded]).unwrap();
    assert_eq!(text(&heap, t), "hi\u{200B}");
}

#[test]
fn stringify_then_parse_gives_the_same_structure() {
    let mut heap = Heap::new();
    let word = string(&mut heap, "hello, [world]: {x}");
    let inner = Value::Obj(heap.alloc_object(Object::List(vec![Value::Int(-12), Value::Bool(false), Value::Unit])));
    let mut m = NameMap::new();
    m.insert("name".to_string(), word);
    m.insert("items".to_string(), inner);
    m.insert("n:1".to_string(), Value::Int(7));
    let map = Value::Obj(heap.alloc_object(Object::Dict(m)));
    let top = Value::Obj(heap.alloc_object(Object::List(vec![map, Value::Int(3)])));
    let s = json_stringify_native(&mut heap, &[top]).unwrap();
    let back = json_parse_native(&mut heap, &[s]).unwrap();
    let outer = items(&heap, back);
    assert_eq!(outer.len(), 2);
    assert!(matches!(outer[1], Value::Int(3)));
    let pm = match outer[0] {
        Value::Obj(h) => match heap.get_object(h) {
            Some(Object::Dict(pm)) => pm.copy(),
            _ => panic!("expected a map"),
        },
        _ => panic!("expected an object"),
    };
    assert_eq!(pm.entries.len(), 3);
    assert_eq!(text(&heap, *pm.get("name").unwrap()), "hello, [world]: {x}");
    assert!(matches!(pm.get("n:1"), Some(Value::Int(7))));
    let l = items(&heap, *pm.get("items").unwrap());
    assert!(matches!(l[..], [Value::Int(-12), Value::Bool(false), Value::Unit]));
}

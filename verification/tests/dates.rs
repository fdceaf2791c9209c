use pulse_vm::heap::Heap;
use pulse_vm::namemap::NameMap;
use pulse_vm::object::Object;
use pulse_vm::time::{adjust_civil, datetime_to_unix_seconds, format_fields, format_time_native, now_map, now_native};
use pulse_vm::time::{parse_time_seconds, unix_to_datetime_at, Civil, DateFields};
use pulse_vm::value::{PulseError, Value};

fn string(heap: &mut Heap, s: &str) -> Value {
    Value::Obj(heap.alloc_object(Object::String(s.to_string())))
}

fn map(heap: &mut Heap, entries: &[(&str, Value)]) -> Value {
    let mut m = NameMap::new();
    for (k, v) in entries {
        m.insert(k.to_string(), *v);
    }
    Value::Obj(heap.alloc_object(Object::Dict(m)))
}

fn entry(heap: &Heap, v: Value, key: &str) -> Value {
    match v {
        Value::Obj(h) => match heap.get_object(h) {
            Some(Object::Dict(m)) => *m.get(key).expect("missing key"),
            _ => panic!("Expected map"),
        },
        _ => panic!("Expected object"),
    }
}

fn text(heap: &Heap, v: Value) -> String {
    match v {
        Value::Obj(h) => match heap.get_object(h) {
            Some(Object::String(s)) => s.clone(),
            _ => panic!("Expected string"),
        },
        _ => panic!("Expected object"),
    }
}

fn sample() -> DateFields {
    DateFields { year: 2024, month: 3, day: 5, hour: 7, minute: 8, second: 9, millis: 42, weekday: 1 }
}

#[test]
fn patterns_write_each_directive() {
    let f = sample();
    assert_eq!(format_fields(&f, "%Y-%m-%d %H:%M:%S.%f %w"), "2024-03-05 07:08:09.042 Tuesday");
    assert_eq!(format_fields(&f, "100%% %q at %"), "100% %q at %");
    let old = DateFields { year: -5, ..sample() };
    assert_eq!(format_fields(&old, "%Y"), "-005");
    let far = DateFields { year: 12345, weekday: 6, ..sample() };
    assert_eq!(format_fields(&far, "%Y %w"), "12345 Sunday");
}

#[test]
fn date_maps_hold_every_field() {
    let mut heap = Heap::new();
    let m = now_map(&mut heap, sample()).unwrap();
    assert_eq!(entry(&heap, m, "year"), Value::Int(2024));
    assert_eq!(entry(&heap, m, "month"), Value::Int(3));
    assert_eq!(entry(&heap, m, "millisecond"), Value::Int(42));
    assert_eq!(text(&heap, entry(&heap, m, "weekday")), "Tuesday");
    let n = now_native(&mut heap, &[]).unwrap();
    match entry(&heap, n, "month") {
        Value::Int(mo) => assert!((1..=12).contains(&mo)),
        _ => panic!("month is no integer"),
    }
    assert!(matches!(now_native(&mut heap, &[Value::Unit]), Err(PulseError::RuntimeError(_))));
    let u = unix_to_datetime_at(&mut heap, 86400 * 200, Value::Int(7)).unwrap();
    assert_eq!(entry(&heap, u, "timestamp"), Value::Int(7));
    assert_eq!(entry(&heap, u, "year"), Value::Int(1970));
}

#[test]
fn format_time_checks_its_arguments() {
    let mut heap = Heap::new();
    let p = string(&mut heap, "%% %Q");
    let r = format_time_native(&mut heap, &[Value::Int(0), p]).unwrap();
    assert_eq!(text(&heap, r), "% %Q");
    assert!(matches!(format_time_native(&mut heap, &[Value::Float(0), p]), Err(PulseError::NeedsFloatHost)));
    assert!(matches!(format_time_native(&mut heap, &[Value::Bool(true), p]), Err(PulseError::TypeMismatch { .. })));
    assert!(matches!(format_time_native(&mut heap, &[Value::Int(i64::MAX), p]), Err(PulseError::RuntimeError(_))));
    assert!(matches!(format_time_native(&mut heap, &[Value::Int(0)]), Err(PulseError::RuntimeError(_))));
}

#[test]
fn datetime_fields_give_unix_seconds() {
    let mut heap = Heap::new();
    let m = map(&mut heap, &[("year", Value::Int(2024)), ("month", Value::Int(1)), ("day", Value::Int(15)),
        ("hour", Value::Int(10)), ("minute", Value::Int(30)), ("second", Value::Int(45))]);
    assert_eq!(datetime_to_unix_seconds(&heap, &[m]).unwrap(), 1705314645);
    let leap = map(&mut heap, &[("year", Value::Int(2023)), ("month", Value::Int(2)), ("day", Value::Int(29)),
        ("hour", Value::Int(0)), ("minute", Value::Int(0)), ("second", Value::Int(0))]);
    assert!(matches!(datetime_to_unix_seconds(&heap, &[leap]), Err(PulseError::RuntimeError(_))));
    let missing = map(&mut heap, &[("year", Value::Int(2024))]);
    assert!(matches!(datetime_to_unix_seconds(&heap, &[missing]), Err(PulseError::RuntimeError(_))));
    let floaty = map(&mut heap, &[("year", Value::Float(0))]);
    assert!(matches!(datetime_to_unix_seconds(&heap, &[floaty]), Err(PulseError::NeedsFloatHost)));
    assert!(matches!(datetime_to_unix_seconds(&heap, &[Value::Int(1)]), Err(PulseError::TypeMismatch { .. })));
    let base = Civil { year: 1970, month: 1, day: 31, hour: 0, minute: 0, second: 5 };
    assert_eq!(adjust_civil(base, 2000, 3, 31, 23, 59).unwrap(), Civil { year: 2000, month: 3, day: 31, hour: 23, minute: 59, second: 5 });
    assert!(matches!(adjust_civil(base, 2000, 4, 1, 0, 0), Err(PulseError::RuntimeError(_))));
    assert!(matches!(adjust_civil(base, 2000, 1, 1, 24, 0), Err(PulseError::RuntimeError(_))));
}

#[test]
fn parse_time_reads_three_patterns() {
    let mut heap = Heap::new();
    let t = string(&mut heap, "2024-01-15 10:30:45");
    let p = string(&mut heap, "%Y-%m-%d %H:%M:%S");
    assert_eq!(parse_time_seconds(&heap, &[t, p]).unwrap(), 1705314645);
    let d = string(&mut heap, "2024-01-15");
    let pd = string(&mut heap, "%Y-%m-%d");
    assert_eq!(parse_time_seconds(&heap, &[d, pd]).unwrap(), 1705276800);
    let c = string(&mut heap, "10:30:45");
    let pc = string(&mut heap, "%H:%M:%S");
    let secs = parse_time_seconds(&heap, &[c, pc]).unwrap();
    assert_eq!(secs.rem_euclid(86400), 37845);
    let other = string(&mut heap, "%d/%m/%Y");
    assert!(matches!(parse_time_seconds(&heap, &[d, other]), Err(PulseError::RuntimeError(_))));
    assert!(matches!(parse_time_seconds(&heap, &[d, p]), Err(PulseError::RuntimeError(_))));
    assert!(matches!(parse_time_seconds(&heap, &[Value::Int(1), p]), Err(PulseError::TypeMismatch { .. })));
}

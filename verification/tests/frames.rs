use pulse_vm::dataframe::{df_add_column_native, df_columns_native, df_concat_native, df_create_native};
use pulse_vm::dataframe::{df_drop_column_native, df_filter_native, df_from_list_native, df_head_native};
use pulse_vm::dataframe::{df_join_native, df_rename_native, df_select_native, df_shape_native};
use pulse_vm::dataframe::{csv_path, df_from_csv_text, df_sort_native, df_tail_native};
use pulse_vm::dataframe::{df_from_json_native, frame_from_json, JsonValue};
use pulse_vm::dataframe::{df_group_by_native, df_group_cells, df_group_fits};
use pulse_vm::heap::Heap;
use pulse_vm::namemap::NameMap;
use pulse_vm::object::Object;
use pulse_vm::value::{PulseError, Value};

fn list(heap: &mut Heap, items: Vec<Value>) -> Value {
    Value::Obj(heap.alloc_object(Object::List(items)))
}

fn string(heap: &mut Heap, s: &str) -> Value {
    Value::Obj(heap.alloc_object(Object::String(s.to_string())))
}

fn map(heap: &mut Heap, entries: &[(&str, Value)]) -> Value {
    let mut m = NameMap::new();
    for (k, v) in entries {
        m.insert(k.to_string(), *v);
    }
    Value::Obj(heap.alloc_object(Object::Dict(m)))
}

fn items(heap: &Heap, v: Value) -> Vec<Value> {
    match v {
        Value::Obj(h) => match heap.get_object(h) {
            Some(Object::List(l)) => l.clone(),
            _ => panic!("Expected list"),
        },
        _ => panic!("Expected object"),
    }
}

fn text(heap: &Heap, v: Value) -> String {
    match v {
        Value::Obj(h) => match heap.get_object(h) {
            Some(Object::String(s)) => s.clone(),
            _ => panic!("Expected string"),
        },
        _ => panic!("Expected object"),
    }
}

fn entry(heap: &Heap, v: Value, key: &str) -> Value {
    match v {
        Value::Obj(h) => match heap.get_object(h) {
            Some(Object::Dict(m)) => *m.get(key).expect("missing key"),
            _ => panic!("Expected map"),
        },
        _ => panic!("Expected object"),
    }
}

fn names(heap: &mut Heap, cols: &[&str]) -> Value {
    let vals: Vec<Value> = cols.iter().map(|c| string(heap, c)).collect();
    list(heap, vals)
}

fn table(heap: &mut Heap, rows: &[Vec<Value>]) -> Value {
    let vals: Vec<Value> = rows.iter().map(|r| list(heap, r.clone())).collect();
    list(heap, vals)
}

fn frame(heap: &mut Heap, cols: &[&str], rows: &[Vec<Value>]) -> Value {
    let c = names(heap, cols);
    let d = table(heap, rows);
    df_create_native(heap, &[c, d]).unwrap()
}

fn columns_of(heap: &Heap, df: Value) -> Vec<String> {
    let cols = entry(heap, df, "columns");
    items(heap, cols).into_iter().map(|v| text(heap, v)).collect()
}

fn rows_of(heap: &Heap, df: Value) -> Vec<Vec<Value>> {
    let data = entry(heap, df, "data");
    items(heap, data).into_iter().map(|v| items(heap, v)).collect()
}

fn ints(v: &[i64]) -> Vec<Value> {
    v.iter().map(|i| Value::Int(*i)).collect()
}

#[test]
fn create_gives_columns_rows_shape_and_index() {
    let mut heap = Heap::new();
    let df = frame(&mut heap, &["a", "b"], &[ints(&[1, 2]), ints(&[3, 4]), ints(&[5, 6])]);
    assert_eq!(columns_of(&heap, df), vec!["a", "b"]);
    assert_eq!(rows_of(&heap, df), vec![ints(&[1, 2]), ints(&[3, 4]), ints(&[5, 6])]);
    let shape = entry(&heap, df, "shape");
    assert_eq!(items(&heap, shape), ints(&[3, 2]));
    let index = entry(&heap, df, "index");
    assert_eq!(items(&heap, index), ints(&[0, 1, 2]));
    let s = df_shape_native(&mut heap, &[df]).unwrap();
    assert_eq!(items(&heap, s), ints(&[3, 2]));
    let c = df_columns_native(&mut heap, &[df]).unwrap();
    let got: Vec<String> = items(&heap, c).into_iter().map(|v| text(&heap, v)).collect();
    assert_eq!(got, vec!["a", "b"]);
}

#[test]
fn create_rejects_ragged_rows_and_bad_arguments() {
    let mut heap = Heap::new();
    let c = names(&mut heap, &["a", "b"]);
    let d = table(&mut heap, &[ints(&[1])]);
    assert!(matches!(df_create_native(&mut heap, &[c, d]), Err(PulseError::RuntimeError(_))));
    assert!(matches!(df_create_native(&mut heap, &[c]), Err(PulseError::RuntimeError(_))));
    assert!(matches!(df_columns_native(&mut heap, &[Value::Int(1)]), Err(PulseError::RuntimeError(_))));
}

#[test]
fn head_and_tail_take_rows_from_either_end() {
    let mut heap = Heap::new();
    let df = frame(&mut heap, &["x"], &[ints(&[1]), ints(&[2]), ints(&[3]), ints(&[4])]);
    let h = df_head_native(&mut heap, &[df, Value::Int(2)]).unwrap();
    assert_eq!(rows_of(&heap, h), vec![ints(&[1]), ints(&[2])]);
    let t = df_tail_native(&mut heap, &[df, Value::Int(3)]).unwrap();
    assert_eq!(rows_of(&heap, t), vec![ints(&[2]), ints(&[3]), ints(&[4])]);
    let n = string(&mut heap, "10");
    let all = df_head_native(&mut heap, &[df, n]).unwrap();
    assert_eq!(rows_of(&heap, all).len(), 4);
    let neg = df_tail_native(&mut heap, &[df, Value::Int(-1)]).unwrap();
    assert_eq!(rows_of(&heap, neg).len(), 4);
    assert!(matches!(df_head_native(&mut heap, &[df, Value::Float(0)]), Err(PulseError::NeedsFloatHost)));
    let bad = string(&mut heap, "two");
    assert!(matches!(df_head_native(&mut heap, &[df, bad]), Err(PulseError::RuntimeError(_))));
}

#[test]
fn select_add_drop_and_rename_columns() {
    let mut heap = Heap::new();
    let df = frame(&mut heap, &["a", "b", "c"], &[ints(&[1, 2, 3]), ints(&[4, 5, 6])]);
    let sel = names(&mut heap, &["c", "a"]);
    let s = df_select_native(&mut heap, &[df, sel]).unwrap();
    assert_eq!(columns_of(&heap, s), vec!["c", "a"]);
    assert_eq!(rows_of(&heap, s), vec![ints(&[3, 1]), ints(&[6, 4])]);
    let missing = names(&mut heap, &["z"]);
    assert!(matches!(df_select_native(&mut heap, &[df, missing]), Err(PulseError::RuntimeError(_))));

    let name = string(&mut heap, "d");
    let vals = list(&mut heap, ints(&[7, 8]));
    let a = df_add_column_native(&mut heap, &[df, name, vals]).unwrap();
    assert_eq!(columns_of(&heap, a), vec!["a", "b", "c", "d"]);
    assert_eq!(rows_of(&heap, a), vec![ints(&[1, 2, 3, 7]), ints(&[4, 5, 6, 8])]);
    let short = list(&mut heap, ints(&[7]));
    assert!(matches!(df_add_column_native(&mut heap, &[df, name, short]), Err(PulseError::RuntimeError(_))));

    let b = string(&mut heap, "b");
    let d = df_drop_column_native(&mut heap, &[df, b]).unwrap();
    assert_eq!(columns_of(&heap, d), vec!["a", "c"]);
    assert_eq!(rows_of(&heap, d), vec![ints(&[1, 3]), ints(&[4, 6])]);

    let new = string(&mut heap, "bee");
    let r = df_rename_native(&mut heap, &[df, b, new]).unwrap();
    assert_eq!(columns_of(&heap, r), vec!["a", "bee", "c"]);
    assert_eq!(rows_of(&heap, r), rows_of(&heap, df));
}

#[test]
fn filter_tests_cells_against_the_condition() {
    let mut heap = Heap::new();
    let df = frame(&mut heap, &["n", "k"], &[ints(&[5, 1]), ints(&[10, 2]), ints(&[15, 3])]);
    let col = string(&mut heap, "n");
    let gt = string(&mut heap, ">");
    let cond = map(&mut heap, &[("column", col), ("operator", gt), ("value", Value::Int(7))]);
    let f = df_filter_native(&mut heap, &[df, cond]).unwrap();
    assert_eq!(rows_of(&heap, f), vec![ints(&[10, 2]), ints(&[15, 3])]);
    let eq = string(&mut heap, "==");
    let cond = map(&mut heap, &[("column", col), ("operator", eq), ("value", Value::Int(5))]);
    let f = df_filter_native(&mut heap, &[df, cond]).unwrap();
    assert_eq!(rows_of(&heap, f), vec![ints(&[5, 1])]);
    let odd = string(&mut heap, "~");
    let cond = map(&mut heap, &[("column", col), ("operator", odd), ("value", Value::Int(5))]);
    let f = df_filter_native(&mut heap, &[df, cond]).unwrap();
    assert!(rows_of(&heap, f).is_empty());
    let cond = map(&mut heap, &[("column", col), ("operator", gt), ("value", Value::Float(0))]);
    assert!(matches!(df_filter_native(&mut heap, &[df, cond]), Err(PulseError::NeedsFloatHost)));
    let cond = map(&mut heap, &[("column", col), ("operator", gt)]);
    assert!(matches!(df_filter_native(&mut heap, &[df, cond]), Err(PulseError::RuntimeError(_))));
}

#[test]
fn sort_is_stable_in_both_directions() {
    let mut heap = Heap::new();
    let df = frame(&mut heap, &["k", "tag"], &[ints(&[2, 0]), ints(&[1, 1]), ints(&[2, 2]), ints(&[0, 3])]);
    let k = string(&mut heap, "k");
    let up = df_sort_native(&mut heap, &[df, k, Value::Bool(true)]).unwrap();
    assert_eq!(rows_of(&heap, up), vec![ints(&[0, 3]), ints(&[1, 1]), ints(&[2, 0]), ints(&[2, 2])]);
    let no = string(&mut heap, "no");
    let down = df_sort_native(&mut heap, &[df, k, no]).unwrap();
    assert_eq!(rows_of(&heap, down), vec![ints(&[2, 0]), ints(&[2, 2]), ints(&[1, 1]), ints(&[0, 3])]);
    let maybe = string(&mut heap, "maybe");
    assert!(matches!(df_sort_native(&mut heap, &[df, k, maybe]), Err(PulseError::RuntimeError(_))));
}

#[test]
fn join_pairs_rows_with_matching_keys() {
    let mut heap = Heap::new();
    let left = frame(&mut heap, &["id", "name"], &[ints(&[1, 10]), ints(&[2, 20]), ints(&[3, 30])]);
    let right = frame(&mut heap, &["id", "score"], &[ints(&[2, 200]), ints(&[1, 100]), ints(&[2, 201])]);
    let id = string(&mut heap, "id");
    let j = df_join_native(&mut heap, &[left, right, id]).unwrap();
    assert_eq!(columns_of(&heap, j), vec!["id", "name", "score"]);
    assert_eq!(rows_of(&heap, j), vec![ints(&[1, 10, 100]), ints(&[2, 20, 200]), ints(&[2, 20, 201])]);
}

#[test]
fn concat_appends_the_rows_of_later_frames() {
    let mut heap = Heap::new();
    let a = frame(&mut heap, &["x"], &[ints(&[1])]);
    let b = frame(&mut heap, &["y"], &[ints(&[2]), ints(&[3])]);
    let all = list(&mut heap, vec![a, b, Value::Int(9)]);
    let c = df_concat_native(&mut heap, &[all]).unwrap();
    assert_eq!(columns_of(&heap, c), vec!["x"]);
    assert_eq!(rows_of(&heap, c), vec![ints(&[1]), ints(&[2]), ints(&[3])]);
    let none = list(&mut heap, vec![]);
    let e = df_concat_native(&mut heap, &[none]).unwrap();
    assert!(columns_of(&heap, e).is_empty());
}

#[test]
fn from_list_sorts_the_first_maps_keys() {
    let mut heap = Heap::new();
    let m1 = map(&mut heap, &[("b", Value::Int(2)), ("a", Value::Int(1))]);
    let m2 = map(&mut heap, &[("a", Value::Int(3))]);
    let ms = list(&mut heap, vec![m1, m2]);
    let df = df_from_list_native(&mut heap, &[ms]).unwrap();
    assert_eq!(columns_of(&heap, df), vec!["a", "b"]);
    assert_eq!(rows_of(&heap, df), vec![ints(&[1, 2]), vec![Value::Int(3), Value::Unit]]);
    let bad = list(&mut heap, vec![Value::Int(1)]);
    assert!(matches!(df_from_list_native(&mut heap, &[bad]), Err(PulseError::RuntimeError(_))));
}

#[test]
fn df_from_csv_text_reads_header_and_records() {
    let mut heap = Heap::new();
    let df = df_from_csv_text(&mut heap, "a,b,c\n1,x,\n2,\"y z\",7\n3\n").unwrap();
    let cols: Vec<String> = items(&heap, entry(&heap, df, "columns")).into_iter().map(|v| text(&heap, v)).collect();
    assert_eq!(cols, vec!["a", "b", "c"]);
    let rows = items(&heap, entry(&heap, df, "data"));
    assert_eq!(rows.len(), 3);
    let r0 = items(&heap, rows[0]);
    assert_eq!(r0[0], Value::Int(1));
    assert_eq!(text(&heap, r0[1]), "x");
    assert_eq!(r0[2], Value::Unit);
    let r1 = items(&heap, rows[1]);
    assert_eq!(text(&heap, r1[1]), "y z");
    assert_eq!(r1[2], Value::Int(7));
    assert_eq!(items(&heap, rows[2]), vec![Value::Int(3)]);
    assert_eq!(items(&heap, entry(&heap, df, "shape")), vec![Value::Int(3), Value::Int(3)]);
    assert!(matches!(df_from_csv_text(&mut heap, "a\n1.5\n"), Err(PulseError::NeedsFloatHost)));
    let p = string(&mut heap, "data.csv");
    assert_eq!(csv_path(&heap, &[p]).unwrap(), "data.csv");
    assert!(matches!(csv_path(&heap, &[]), Err(PulseError::RuntimeError(_))));
}

#[test]
fn df_from_json_unions_sorted_keys_and_fills_unit() {
    let mut heap = Heap::new();
    let src = string(&mut heap, r#"[{"b": 1, "a": "x"}, 5, {"c": [1, "s", true], "a": "42", "d": null}]"#);
    let df = df_from_json_native(&mut heap, &[src]).unwrap();
    let cols: Vec<String> = items(&heap, entry(&heap, df, "columns")).into_iter().map(|v| text(&heap, v)).collect();
    assert_eq!(cols, vec!["a", "b", "c", "d"]);
    let rows = items(&heap, entry(&heap, df, "data"));
    assert_eq!(rows.len(), 2);
    let r0 = items(&heap, rows[0]);
    assert_eq!(text(&heap, r0[0]), "x");
    assert_eq!(r0[1], Value::Int(1));
    assert_eq!(r0[2], Value::Unit);
    assert_eq!(r0[3], Value::Unit);
    let r1 = items(&heap, rows[1]);
    assert_eq!(r1[0], Value::Int(42));
    assert_eq!(r1[1], Value::Unit);
    let l = items(&heap, r1[2]);
    assert_eq!(l[0], Value::Int(1));
    assert_eq!(text(&heap, l[1]), "s");
    assert_eq!(l[2], Value::Unit);
    assert_eq!(r1[3], Value::Unit);
    let float = string(&mut heap, r#"[{"a": 1.5}]"#);
    assert!(matches!(df_from_json_native(&mut heap, &[float]), Err(PulseError::NeedsFloatHost)));
    let bad = string(&mut heap, "[1,");
    assert!(matches!(df_from_json_native(&mut heap, &[bad]), Err(PulseError::RuntimeError(_))));
    let obj = string(&mut heap, r#"{"a": 1}"#);
    assert!(matches!(df_from_json_native(&mut heap, &[obj]), Err(PulseError::RuntimeError(_))));
    assert!(matches!(df_from_json_native(&mut heap, &[Value::Int(1)]), Err(PulseError::TypeMismatch { .. })));
    assert!(matches!(df_from_json_native(&mut heap, &[]), Err(PulseError::RuntimeError(_))));
    let e = string(&mut heap, "[]");
    let empty = df_from_json_native(&mut heap, &[e]).unwrap();
    assert_eq!(items(&heap, entry(&heap, empty, "shape")), vec![Value::Int(0), Value::Int(0)]);
}

#[test]
fn frame_from_json_reads_a_parsed_document() {
    let mut heap = Heap::new();
    let doc = Some(JsonValue::Arr(vec![JsonValue::Obj(vec![("k".to_string(), JsonValue::Bool(true))])]));
    let df = frame_from_json(&mut heap, &doc).unwrap();
    let rows = items(&heap, entry(&heap, df, "data"));
    assert_eq!(items(&heap, rows[0]), vec![Value::Bool(true)]);
    assert!(matches!(frame_from_json(&mut heap, &None), Err(PulseError::RuntimeError(_))));
    let f = Some(JsonValue::Arr(vec![JsonValue::Obj(vec![("k".to_string(), JsonValue::Float)])]));
    assert!(matches!(frame_from_json(&mut heap, &f), Err(PulseError::NeedsFloatHost)));
}

#[test]
fn group_by_splits_rows_by_key_in_order() {
    let mut heap = Heap::new();
    let a = string(&mut heap, "a");
    let b = string(&mut heap, "b");
    let rows = vec![vec![a, Value::Int(1)], vec![b, Value::Int(2)], vec![a, Value::Int(3)]];
    let df = frame(&mut heap, &["team", "score"], &rows);
    let col = string(&mut heap, "team");
    assert!(df_group_fits(&heap, &[df, col]));
    let cells = df_group_cells(&heap, &[df, col]).unwrap();
    assert_eq!(cells, vec![a, b, a]);
    let keys = vec!["ka".to_string(), "kb".to_string(), "ka".to_string()];
    let g = df_group_by_native(&mut heap, &[df, col], &keys).unwrap();
    let ga = entry(&heap, g, "ka");
    let gb = entry(&heap, g, "kb");
    assert_eq!(columns_of(&heap, ga), vec!["team".to_string(), "score".to_string()]);
    assert_eq!(rows_of(&heap, ga), vec![vec![a, Value::Int(1)], vec![a, Value::Int(3)]]);
    assert_eq!(rows_of(&heap, gb), vec![vec![b, Value::Int(2)]]);
    let count = match g {
        Value::Obj(h) => match heap.get_object(h) {
            Some(Object::Dict(m)) => m.entries.len(),
            _ => panic!("Expected map"),
        },
        _ => panic!("Expected object"),
    };
    assert_eq!(count, 2);
}

#[test]
fn group_by_reports_bad_arguments() {
    let mut heap = Heap::new();
    let df = frame(&mut heap, &["x"], &[ints(&[1])]);
    let missing = string(&mut heap, "y");
    match df_group_cells(&heap, &[df, missing]) {
        Err(PulseError::RuntimeError(m)) => assert_eq!(m, "Column y not found"),
        _ => panic!("expected a runtime error"),
    }
    match df_group_cells(&heap, &[df]) {
        Err(PulseError::RuntimeError(m)) => assert_eq!(m, "df_group_by expects 2 arguments"),
        _ => panic!("expected a runtime error"),
    }
    assert!(matches!(df_group_cells(&heap, &[df, Value::Int(1)]), Err(PulseError::RuntimeError(_))));
    assert!(matches!(df_group_by_native(&mut heap, &[Value::Unit, missing], &vec![]), Err(PulseError::RuntimeError(_))));
}

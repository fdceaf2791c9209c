//! Data frames: a map holding the column names ("columns", a list of
//! strings), the rows ("data", a list of lists), the shape ("shape",
//! `[rows, columns]`) and the row numbers ("index"). The natives here read
//! frames and build new ones; those that compute on floats are the host's.

use vstd::prelude::*;
use serde_json::Value as JsonTree;
use crate::value::{Value, PulseError, PulseResult, text};
use crate::object::Object;
use crate::heap::Heap;
use crate::namemap::{NameMap, seq_keys_distinct, lemma_entry_in_map};
use crate::utils::{ready, grows, list_of};
use crate::collections::{map_of, same_item, same};
use crate::vm::heap_string;
use crate::string_utils::{str_arg, texts_of};
use crate::uuid::{fresh_string, new_text};
use crate::string_utils::{alloc_strings, new_string_list};
use crate::utils::{new_list, parsed_int, parse_i64};
use crate::text::{chars_of, chars_lt, str_less, lemma_chars_lt_transitive, lemma_chars_lt_total, lemma_chars_lt_asymmetric};

verus! {

broadcast use vstd::std_specs::vec::group_vec_axioms;

/// The rows of a list of lists, when every item is a list.
pub open spec fn rows_in(h: Heap, items: Seq<Value>) -> Option<Seq<Seq<Value>>> {
    if forall|i: int| 0 <= i < items.len() ==> #[trigger] list_of(h, items[i]) is Some {
        Some(Seq::new(items.len(), |i: int| list_of(h, items[i])->Some_0))
    } else {
        None
    }
}

/// The texts of the list of strings `v` refers to.
pub open spec fn names_in(h: Heap, v: Value) -> Option<Seq<Seq<char>>> {
    match list_of(h, v) {
        Some(l) => texts_of(h, l),
        None => None,
    }
}

/// The rows of the list of lists `v` refers to.
pub open spec fn table_in(h: Heap, v: Value) -> Option<Seq<Seq<Value>>> {
    match list_of(h, v) {
        Some(l) => rows_in(h, l),
        None => None,
    }
}

/// The column names and the rows of the frame `v` refers to.
pub open spec fn frame_of(h: Heap, v: Value) -> Option<(Seq<Seq<char>>, Seq<Seq<Value>>)> {
    match map_of(h, v) {
        Some(m) => {
            let c = if m@.dom().contains("columns"@) { names_in(h, m@["columns"@]) } else { None };
            let d = if m@.dom().contains("data"@) { table_in(h, m@["data"@]) } else { None };
            if c is Some && d is Some { Some((c->Some_0, d->Some_0)) } else { None }
        },
        None => None,
    }
}

/// `v` is a list made in the step from `h0` to `h1`.
pub open spec fn fresh_list(h0: Heap, h1: Heap, v: Value) -> bool {
    &&& v matches Value::Obj(x)
    &&& !h0.live().dom().contains(x.0 as int)
    &&& list_of(h1, v) is Some
}

/// The result is a new frame with columns `cols` and rows `rows`: its map,
/// lists and strings are all new, its shape is `[rows, columns]` and its
/// index counts the rows from 0.
pub open spec fn new_frame(h0: Heap, h1: Heap, r: PulseResult<Value>, cols: Seq<Seq<char>>, rows: Seq<Seq<Value>>) -> bool {
    &&& grows(h0, h1)
    &&& r matches Ok(Value::Obj(x))
    &&& !h0.live().dom().contains(x.0 as int)
    &&& frame_of(h1, Value::Obj(x)) == Some((cols, rows))
    &&& map_of(h1, Value::Obj(x)) matches Some(m) && {
        &&& m@.dom() == set!["columns"@, "data"@, "shape"@, "index"@]
        &&& fresh_list(h0, h1, m@["columns"@])
        &&& fresh_list(h0, h1, m@["data"@])
        &&& forall|i: int| 0 <= i < cols.len() ==> fresh_string(h0, h1, #[trigger] list_of(h1, m@["columns"@])->Some_0[i], cols[i])
        &&& forall|i: int| 0 <= i < rows.len() ==> fresh_list(h0, h1, #[trigger] list_of(h1, m@["data"@])->Some_0[i])
        &&& fresh_list(h0, h1, m@["shape"@])
        &&& list_of(h1, m@["shape"@]) == Some(seq![Value::Int(rows.len() as i64), Value::Int(cols.len() as i64)])
        &&& fresh_list(h0, h1, m@["index"@])
        &&& list_of(h1, m@["index"@]) == Some(Seq::new(rows.len(), |i: int| Value::Int(i as i64)))
    }
}

proof fn lemma_grows_trans(a: Heap, b: Heap, c: Heap)
    requires
        grows(a, b),
        b.live().submap_of(c.live()),
    ensures
        grows(a, c),
{
    vstd::map_lib::lemma_submap_of_trans(a.live(), b.live(), c.live());
}

/// What an object of `a` is, it still is in `b` when `b` only grew.
proof fn lemma_kept(a: Heap, b: Heap, v: Value)
    requires
        a.live().submap_of(b.live()),
        v is Obj,
        a.live().dom().contains(v->Obj_0.0 as int),
    ensures
        list_of(b, v) == list_of(a, v),
        str_arg(b, v) == str_arg(a, v),
        heap_string(b, v->Obj_0) == heap_string(a, v->Obj_0),
        map_of(b, v) == map_of(a, v),
{
    assert(b.live()[v->Obj_0.0 as int] == a.live()[v->Obj_0.0 as int]);
}

/// A new list holding `items`; the heap only grows.
fn new_list_of(heap: &mut Heap, items: Vec<Value>) -> (v: Value)
    requires
        ready(*old(heap)),
    ensures
        ready(*final(heap)),
        grows(*old(heap), *final(heap)),
        fresh_list(*old(heap), *final(heap), v),
        list_of(*final(heap), v) == Some(items@),
{
    let x = heap.allocate(Object::List(items));
    Value::Obj(x)
}

/// Builds a frame: new strings for the column names, a new list for each
/// row, the shape and the index.
fn create_frame(heap: &mut Heap, cols: Vec<String>, rows: Vec<Vec<Value>>) -> (r: PulseResult<Value>)
    requires
        ready(*old(heap)),
    ensures
        ready(*final(heap)),
        new_frame(*old(heap), *final(heap), r, cols@.map_values(|s: String| s@), rows@.map_values(|v: Vec<Value>| v@)),
{
    let ghost h0 = *heap;
    let ghost cv = cols@.map_values(|s: String| s@);
    let ghost rv = rows@.map_values(|v: Vec<Value>| v@);
    let mut names: Vec<Value> = Vec::new();
    let mut i: usize = 0;
    while i < cols.len()
        invariant
            ready(*heap),
            grows(h0, *heap),
            cv == cols@.map_values(|s: String| s@),
            i <= cols@.len(),
            names@.len() == i,
            forall|k: int| 0 <= k < i ==> fresh_string(h0, *heap, #[trigger] names@[k], cv[k]),
        decreases cols@.len() - i,
    {
        let ghost hp = *heap;
        let v = new_text(heap, text(cols[i].as_str()));
        proof {
            lemma_grows_trans(h0, hp, *heap);
            assert forall|k: int| 0 <= k < i implies fresh_string(h0, *heap, #[trigger] names@[k], cv[k]) by {
                assert(fresh_string(h0, hp, names@[k], cv[k]));
                lemma_kept(hp, *heap, names@[k]);
            }
            if h0.live().dom().contains(v->Obj_0.0 as int) {
                assert(hp.live().dom().contains(v->Obj_0.0 as int));
            }
        }
        names.push(v);
        i = i + 1;
    }
    let ghost h1 = *heap;
    let col_list = new_list_of(heap, names);
    proof {
        lemma_grows_trans(h0, h1, *heap);
        assert forall|k: int| 0 <= k < cv.len() implies fresh_string(h0, *heap, #[trigger] names@[k], cv[k]) by {
            assert(fresh_string(h0, h1, names@[k], cv[k]));
            lemma_kept(h1, *heap, names@[k]);
        }
        if h0.live().dom().contains(col_list->Obj_0.0 as int) {
            assert(h1.live().dom().contains(col_list->Obj_0.0 as int));
        }
    }
    let ghost h2 = *heap;
    let mut row_vals: Vec<Value> = Vec::new();
    let mut j: usize = 0;
    while j < rows.len()
        invariant
            ready(*heap),
            grows(h2, *heap),
            rv == rows@.map_values(|v: Vec<Value>| v@),
            j <= rows@.len(),
            row_vals@.len() == j,
            forall|k: int| 0 <= k < j ==> fresh_list(h2, *heap, #[trigger] row_vals@[k]),
            forall|k: int| 0 <= k < j ==> list_of(*heap, #[trigger] row_vals@[k]) == Some(rv[k]),
        decreases rows@.len() - j,
    {
        let ghost hp = *heap;
        let v = new_list_of(heap, crate::object::vec_copy(&rows[j]));
        proof {
            lemma_grows_trans(h2, hp, *heap);
            assert forall|k: int| 0 <= k < j implies fresh_list(h2, *heap, #[trigger] row_vals@[k])
                && list_of(*heap, row_vals@[k]) == Some(rv[k]) by {
                assert(fresh_list(h2, hp, row_vals@[k]));
                assert(hp.live().dom().contains(row_vals@[k]->Obj_0.0 as int));
            }
            if h2.live().dom().contains(v->Obj_0.0 as int) {
                assert(hp.live().dom().contains(v->Obj_0.0 as int));
            }
        }
        row_vals.push(v);
        j = j + 1;
    }
    let ghost h3 = *heap;
    let data_list = new_list_of(heap, row_vals);
    #[verifier::truncate]
    let nr = rows.len() as i64;
    #[verifier::truncate]
    let nc = cols.len() as i64;
    let ghost h4 = *heap;
    let shape = new_list_of(heap, vec![Value::Int(nr), Value::Int(nc)]);
    let mut idx: Vec<Value> = Vec::new();
    let mut k: usize = 0;
    while k < rows.len()
        invariant
            k <= rows@.len(),
            idx@ == Seq::new(k as nat, |n: int| Value::Int(n as i64)),
        decreases rows@.len() - k,
    {
        #[verifier::truncate]
        let n = k as i64;
        idx.push(Value::Int(n));
        k = k + 1;
        assert(idx@ =~= Seq::new(k as nat, |n: int| Value::Int(n as i64)));
    }
    let ghost h5 = *heap;
    let index = new_list_of(heap, idx);
    let ghost h6 = *heap;
    proof {
        reveal_strlit("columns");
        reveal_strlit("data");
        reveal_strlit("shape");
        reveal_strlit("index");
    }
    let es = vec![(text("columns"), col_list), (text("data"), data_list), (text("shape"), shape), (text("index"), index)];
    proof {
        assert(es@[0].0@.len() == 7 && es@[1].0@.len() == 4 && es@[2].0@.len() == 5 && es@[3].0@.len() == 5);
        assert(es@[2].0@[0] != es@[3].0@[0]);
        assert forall|a: int, b: int| 0 <= a < es@.len() && 0 <= b < es@.len() && a != b
            implies (#[trigger] es@[a]).0@ != (#[trigger] es@[b]).0@ by {
            if (a == 2 && b == 3) || (a == 3 && b == 2) {
                assert(es@[a].0@[0] != es@[b].0@[0]);
            }
        }
    }
    let m = NameMap { entries: es };
    let x = heap.allocate(Object::Dict(m));
    let ghost h7 = *heap;
    proof {
        assert(h6.live().submap_of(h7.live()));
        lemma_grows_trans(h5, h6, h7);
        lemma_grows_trans(h4, h5, h7);
        lemma_grows_trans(h3, h4, h7);
        lemma_grows_trans(h2, h3, h7);
        lemma_grows_trans(h1, h2, h7);
        lemma_grows_trans(h0, h1, h7);
        lemma_grows_trans(h4, h5, h6);
        lemma_grows_trans(h3, h4, h6);
        lemma_grows_trans(h2, h3, h6);
        lemma_grows_trans(h1, h2, h6);
        lemma_grows_trans(h0, h1, h6);
        lemma_grows_trans(h3, h4, h4);
        lemma_grows_trans(h2, h3, h4);
        lemma_grows_trans(h1, h2, h4);
        lemma_grows_trans(h0, h1, h4);
        lemma_grows_trans(h1, h2, h3);
        lemma_grows_trans(h0, h1, h3);
        if h0.live().dom().contains(data_list->Obj_0.0 as int) {
            assert(h3.live().dom().contains(data_list->Obj_0.0 as int));
        }
        if h0.live().dom().contains(shape->Obj_0.0 as int) {
            assert(h4.live().dom().contains(shape->Obj_0.0 as int));
        }
        lemma_grows_trans(h4, h5, h5);
        lemma_grows_trans(h0, h4, h5);
        if h0.live().dom().contains(index->Obj_0.0 as int) {
            assert(h5.live().dom().contains(index->Obj_0.0 as int));
        }
        if h0.live().dom().contains(x.0 as int) {
            assert(h6.live().dom().contains(x.0 as int));
        }
        lemma_entry_in_map(es@, 0);
        lemma_entry_in_map(es@, 1);
        lemma_entry_in_map(es@, 2);
        lemma_entry_in_map(es@, 3);
        assert(m@.dom() =~= set!["columns"@, "data"@, "shape"@, "index"@]);
        assert(map_of(h7, Value::Obj(x)) == Some(m));
        lemma_kept(h2, h7, col_list);
        lemma_kept(h4, h7, data_list);
        lemma_kept(h5, h7, shape);
        lemma_kept(h6, h7, index);
        assert forall|k: int| 0 <= k < cv.len() implies fresh_string(h0, h7, #[trigger] names@[k], cv[k])
            && str_arg(h7, names@[k]) == Some(cv[k]) by {
            lemma_kept(h2, h7, names@[k]);
        }
        assert(texts_of(h7, names@) == Some(cv)) by {
            assert(Seq::new(names@.len(), |n: int| str_arg(h7, names@[n])->Some_0) =~= cv);
        }
        assert forall|k: int| 0 <= k < rv.len() implies fresh_list(h0, h7, #[trigger] row_vals@[k])
            && list_of(h7, row_vals@[k]) == Some(rv[k]) by {
            assert(fresh_list(h2, h3, row_vals@[k]));
            lemma_kept(h3, h7, row_vals@[k]);
        }
        assert(rows_in(h7, row_vals@) == Some(rv)) by {
            assert(Seq::new(row_vals@.len(), |n: int| list_of(h7, row_vals@[n])->Some_0) =~= rv);
        }
        assert(grows(h0, h7));
        assert(frame_of(h7, Value::Obj(x)) == Some((cv, rv)));
        assert(fresh_list(h0, h7, m@["columns"@]));
        assert(fresh_list(h0, h7, m@["data"@]));
        assert(fresh_list(h0, h7, m@["shape"@]));
        assert(fresh_list(h0, h7, m@["index"@]));
        assert(list_of(h7, m@["shape"@]) == Some(seq![Value::Int(rv.len() as i64), Value::Int(cv.len() as i64)]));
        assert(list_of(h7, m@["index"@]) == Some(Seq::new(rv.len(), |i: int| Value::Int(i as i64))));
    }
    Ok(Value::Obj(x))
}

/// The texts of the list of strings `v` refers to; a runtime error when it
/// is no list or holds something else.
fn names_param(heap: &Heap, v: Value, msg: &str) -> (r: PulseResult<Vec<String>>)
    requires
        heap.wf(),
    ensures
        match names_in(*heap, v) {
            Some(c) => r matches Ok(cs) && cs@.map_values(|s: String| s@) == c,
            None => crate::value::is_runtime_error(r),
        },
{
    let items = match v {
        Value::Obj(x) => match heap.get(x) {
            Some(Object::List(l)) => crate::object::vec_copy(l),
            _ => {
                return Err(PulseError::RuntimeError(text(msg)));
            },
        },
        _ => {
            return Err(PulseError::RuntimeError(text(msg)));
        },
    };
    let mut out: Vec<String> = Vec::new();
    let mut i: usize = 0;
    while i < items.len()
        invariant
            heap.wf(),
            list_of(*heap, v) == Some(items@),
            i <= items@.len(),
            out@.len() == i,
            forall|k: int| 0 <= k < i ==> #[trigger] str_arg(*heap, items@[k]) is Some,
            forall|k: int| 0 <= k < i ==> (#[trigger] out@[k])@ == str_arg(*heap, items@[k])->Some_0,
        decreases items@.len() - i,
    {
        match items[i] {
            Value::Obj(y) => match heap.get(y) {
                Some(Object::String(t)) => out.push(t.clone()),
                _ => {
                    assert(!(str_arg(*heap, items@[i as int]) is Some));
                    return Err(PulseError::RuntimeError(text("Expected string")));
                },
            },
            _ => {
                assert(!(str_arg(*heap, items@[i as int]) is Some));
                return Err(PulseError::RuntimeError(text("Expected string")));
            },
        }
        i = i + 1;
    }
    assert(out@.map_values(|s: String| s@) =~= Seq::new(items@.len(), |k: int| str_arg(*heap, items@[k])->Some_0));
    Ok(out)
}

/// The rows of the list of lists `v` refers to; a runtime error when it is
/// no list or holds something else.
fn rows_param(heap: &Heap, v: Value) -> (r: PulseResult<Vec<Vec<Value>>>)
    requires
        heap.wf(),
    ensures
        match table_in(*heap, v) {
            Some(d) => r matches Ok(ds) && ds@.map_values(|row: Vec<Value>| row@) == d,
            None => crate::value::is_runtime_error(r),
        },
{
    let items = match v {
        Value::Obj(x) => match heap.get(x) {
            Some(Object::List(l)) => crate::object::vec_copy(l),
            _ => {
                return Err(PulseError::RuntimeError(text("Expected list of rows")));
            },
        },
        _ => {
            return Err(PulseError::RuntimeError(text("Expected list of rows")));
        },
    };
    let mut out: Vec<Vec<Value>> = Vec::new();
    let mut i: usize = 0;
    while i < items.len()
        invariant
            heap.wf(),
            list_of(*heap, v) == Some(items@),
            i <= items@.len(),
            out@.len() == i,
            forall|k: int| 0 <= k < i ==> #[trigger] list_of(*heap, items@[k]) is Some,
            forall|k: int| 0 <= k < i ==> (#[trigger] out@[k])@ == list_of(*heap, items@[k])->Some_0,
        decreases items@.len() - i,
    {
        match items[i] {
            Value::Obj(y) => match heap.get(y) {
                Some(Object::List(l)) => out.push(crate::object::vec_copy(l)),
                _ => {
                    assert(!(list_of(*heap, items@[i as int]) is Some));
                    return Err(PulseError::RuntimeError(text("Expected list of row values")));
                },
            },
            _ => {
                assert(!(list_of(*heap, items@[i as int]) is Some));
                return Err(PulseError::RuntimeError(text("Expected list of row values")));
            },
        }
        i = i + 1;
    }
    assert(out@.map_values(|row: Vec<Value>| row@) =~= Seq::new(items@.len(), |k: int| list_of(*heap, items@[k])->Some_0));
    Ok(out)
}

/// A frame's columns and rows.
pub struct Frame {
    pub columns: Vec<String>,
    pub rows: Vec<Vec<Value>>,
}

impl Frame {
    pub open spec fn names(&self) -> Seq<Seq<char>> {
        self.columns@.map_values(|s: String| s@)
    }

    pub open spec fn cells(&self) -> Seq<Seq<Value>> {
        self.rows@.map_values(|row: Vec<Value>| row@)
    }
}

/// The frame `v` refers to; a runtime error when it is none.
fn frame_param(heap: &Heap, v: Value) -> (r: PulseResult<Frame>)
    requires
        heap.wf(),
    ensures
        match frame_of(*heap, v) {
            Some(f) => r matches Ok(q) && q.names() == f.0 && q.cells() == f.1,
            None => crate::value::is_runtime_error(r),
        },
{
    proof { heap.lemma_wf(); }
    let m = match v {
        Value::Obj(x) => match heap.get(x) {
            Some(Object::Dict(m)) => m,
            _ => {
                return Err(PulseError::RuntimeError(text("Expected DataFrame")));
            },
        },
        _ => {
            return Err(PulseError::RuntimeError(text("Expected DataFrame")));
        },
    };
    let columns = match m.get("columns") {
        Some(c) => names_param(heap, *c, "Columns should be a list")?,
        None => {
            return Err(PulseError::RuntimeError(text("DataFrame missing columns")));
        },
    };
    let rows = match m.get("data") {
        Some(d) => rows_param(heap, *d)?,
        None => {
            return Err(PulseError::RuntimeError(text("DataFrame missing data")));
        },
    };
    Ok(Frame { columns, rows })
}

/// The outcome of a native whose first argument must be a frame: a runtime
/// error, the heap unchanged, for a wrong count of arguments or when the
/// first is no frame; otherwise `ok`.
pub open spec fn on_frame(h0: Heap, h1: Heap, args: Seq<Value>, n: nat, r: PulseResult<Value>, ok: bool) -> bool {
    if args.len() != n || frame_of(h0, args[0]) is None {
        crate::value::is_runtime_error(r) && h1 == h0
    } else {
        ok
    }
}

/// `df_create(columns, rows)`: a new frame with the given column names and
/// rows; every row must have one cell per column.
pub fn df_create_native(heap: &mut Heap, args: &[Value]) -> (r: PulseResult<Value>)
    requires
        ready(*old(heap)),
    ensures
        ready(*final(heap)),
        args@.len() != 2 ==> crate::value::is_runtime_error(r) && *final(heap) == *old(heap),
        args@.len() == 2 ==> match (names_in(*old(heap), args@[0]), table_in(*old(heap), args@[1])) {
            (Some(c), Some(d)) => if forall|i: int| 0 <= i < d.len() ==> (#[trigger] d[i]).len() == c.len() {
                new_frame(*old(heap), *final(heap), r, c, d)
            } else {
                crate::value::is_runtime_error(r) && *final(heap) == *old(heap)
            },
            _ => crate::value::is_runtime_error(r) && *final(heap) == *old(heap),
        },
{
    if args.len() != 2 {
        return Err(PulseError::RuntimeError(text("df_create expects 2 arguments: columns and data")));
    }
    let columns = names_param(heap, args[0], "Expected list of column names")?;
    let rows = rows_param(heap, args[1])?;
    let mut i: usize = 0;
    while i < rows.len()
        invariant
            *heap == *old(heap),
            ready(*heap),
            args@.len() == 2,
            names_in(*heap, args@[0]) == Some(columns@.map_values(|s: String| s@)),
            table_in(*heap, args@[1]) == Some(rows@.map_values(|v: Vec<Value>| v@)),
            i <= rows@.len(),
            forall|k: int| 0 <= k < i ==> (#[trigger] rows@[k])@.len() == columns@.len(),
        decreases rows@.len() - i,
    {
        if rows[i].len() != columns.len() {
            assert(rows@.map_values(|v: Vec<Value>| v@)[i as int].len() != columns@.map_values(|s: String| s@).len());
            return Err(PulseError::RuntimeError(text("Row has the wrong number of columns")));
        }
        i = i + 1;
    }
    create_frame(heap, columns, rows)
}

/// `df_columns(df)`: a new list of new strings naming the columns.
pub fn df_columns_native(heap: &mut Heap, args: &[Value]) -> (r: PulseResult<Value>)
    requires
        ready(*old(heap)),
    ensures
        ready(*final(heap)),
        on_frame(*old(heap), *final(heap), args@, 1, r,
            grows(*old(heap), *final(heap)) && new_string_list(*old(heap), *final(heap), r, frame_of(*old(heap), args@[0])->Some_0.0)),
{
    if args.len() != 1 {
        return Err(PulseError::RuntimeError(text("df_columns expects 1 argument: dataframe")));
    }
    let f = frame_param(heap, args[0])?;
    let mut parts: Vec<Vec<char>> = Vec::new();
    let mut i: usize = 0;
    while i < f.columns.len()
        invariant
            i <= f.columns@.len(),
            parts@.len() == i,
            forall|k: int| 0 <= k < i ==> (#[trigger] parts@[k])@ == f.columns@[k]@,
        decreases f.columns@.len() - i,
    {
        parts.push(chars_of(f.columns[i].as_str()));
        i = i + 1;
    }
    assert(parts@.map_values(|v: Vec<char>| v@) =~= f.names());
    alloc_strings(heap, parts)
}

/// `df_shape(df)`: a new list `[rows, columns]`.
pub fn df_shape_native(heap: &mut Heap, args: &[Value]) -> (r: PulseResult<Value>)
    requires
        ready(*old(heap)),
    ensures
        ready(*final(heap)),
        on_frame(*old(heap), *final(heap), args@, 1, r, {
            let f = frame_of(*old(heap), args@[0])->Some_0;
            new_list(*old(heap), *final(heap), r, seq![Value::Int(f.1.len() as i64), Value::Int(f.0.len() as i64)])
        }),
{
    if args.len() != 1 {
        return Err(PulseError::RuntimeError(text("df_shape expects 1 argument: dataframe")));
    }
    let f = frame_param(heap, args[0])?;
    #[verifier::truncate]
    let nr = f.rows.len() as i64;
    #[verifier::truncate]
    let nc = f.columns.len() as i64;
    let x = heap.allocate(Object::List(vec![Value::Int(nr), Value::Int(nc)]));
    Ok(Value::Obj(x))
}

/// The integer a count argument gives: an integer, or a string that
/// parses as one; a float needs the host.
pub open spec fn count_param(h: Heap, v: Value) -> Option<i64> {
    match v {
        Value::Int(i) => Some(i),
        Value::Obj(x) => match heap_string(h, x) {
            Some(t) => parsed_int(t),
            None => None,
        },
        _ => None,
    }
}

fn count_arg(heap: &Heap, v: Value) -> (r: PulseResult<i64>)
    requires
        heap.wf(),
    ensures
        match count_param(*heap, v) {
            Some(n) => r == Ok::<i64, PulseError>(n),
            None => if v is Float { crate::value::is_float_host(r) } else { crate::value::is_runtime_error(r) },
        },
{
    match v {
        Value::Int(i) => Ok(i),
        Value::Float(_) => Err(PulseError::NeedsFloatHost),
        Value::Obj(x) => match heap.get(x) {
            Some(Object::String(s)) => match parse_i64(s.as_str()) {
                Some(n) => Ok(n),
                None => Err(PulseError::RuntimeError(text("Cannot parse string as integer"))),
            },
            _ => Err(PulseError::RuntimeError(text("Expected integer value"))),
        },
        _ => Err(PulseError::RuntimeError(text("Expected integer value"))),
    }
}

/// How many rows a count `n` keeps of `len`: the count taken as a `usize`
/// (a negative one wraps to a huge count), at most `len`.
pub open spec fn kept(n: i64, len: nat) -> int {
    let c = (n as usize) as int;
    if c < len { c } else { len as int }
}

/// The outcome of `df_head` and `df_tail`: the frame with the rows `rows`
/// picks from the old ones.
pub open spec fn on_count(h0: Heap, h1: Heap, args: Seq<Value>, r: PulseResult<Value>, tail: bool) -> bool {
    on_frame(h0, h1, args, 2, r, {
        let f = frame_of(h0, args[0])->Some_0;
        match count_param(h0, args[1]) {
            Some(n) => new_frame(h0, h1, r, f.0, if tail {
                f.1.skip(f.1.len() - kept(n, f.1.len()))
            } else {
                f.1.take(kept(n, f.1.len()))
            }),
            None => h1 == h0 && if args[1] is Float { crate::value::is_float_host(r) } else { crate::value::is_runtime_error(r) },
        }
    })
}

fn head_or_tail(heap: &mut Heap, args: &[Value], tail: bool) -> (r: PulseResult<Value>)
    requires
        ready(*old(heap)),
    ensures
        ready(*final(heap)),
        on_count(*old(heap), *final(heap), args@, r, tail),
{
    if args.len() != 2 {
        return Err(PulseError::RuntimeError(text(if tail { "df_tail expects 2 arguments: dataframe and n" } else { "df_head expects 2 arguments: dataframe and n" })));
    }
    let f = frame_param(heap, args[0])?;
    let n = count_arg(heap, args[1])?;
    #[verifier::truncate]
    let c = n as usize;
    let len = f.rows.len();
    let k = if c < len { c } else { len };
    let start = if tail { len - k } else { 0 };
    let end = if tail { len } else { k };
    let mut picked: Vec<Vec<Value>> = Vec::new();
    let mut i: usize = start;
    while i < end
        invariant
            start <= i <= end <= f.rows@.len(),
            picked@.len() == i - start,
            forall|j: int| 0 <= j < i - start ==> (#[trigger] picked@[j])@ == f.rows@[start + j]@,
        decreases end - i,
    {
        picked.push(crate::object::vec_copy(&f.rows[i]));
        i = i + 1;
    }
    let ghost want = if tail { f.cells().skip(len - k) } else { f.cells().take(k as int) };
    assert(picked@.map_values(|row: Vec<Value>| row@) =~= want);
    create_frame(heap, f.columns, picked)
}

/// `df_head(df, n)`: a new frame with the first `n` rows.
pub fn df_head_native(heap: &mut Heap, args: &[Value]) -> (r: PulseResult<Value>)
    requires
        ready(*old(heap)),
    ensures
        ready(*final(heap)),
        on_count(*old(heap), *final(heap), args@, r, false),
{
    head_or_tail(heap, args, false)
}

/// `df_tail(df, n)`: a new frame with the last `n` rows.
pub fn df_tail_native(heap: &mut Heap, args: &[Value]) -> (r: PulseResult<Value>)
    requires
        ready(*old(heap)),
    ensures
        ready(*final(heap)),
        on_count(*old(heap), *final(heap), args@, r, true),
{
    head_or_tail(heap, args, true)
}

/// `c` first occurs among `names` at `i`.
pub open spec fn first_at(names: Seq<Seq<char>>, c: Seq<char>, i: int) -> bool {
    &&& 0 <= i < names.len()
    &&& names[i] == c
    &&& forall|k: int| 0 <= k < i ==> names[k] != c
}

/// Where `c` first occurs among `names`.
pub open spec fn position_of(names: Seq<Seq<char>>, c: Seq<char>) -> Option<int> {
    if exists|i: int| first_at(names, c, i) { Some(choose|i: int| first_at(names, c, i)) } else { None }
}

proof fn lemma_position(names: Seq<Seq<char>>, c: Seq<char>, i: int)
    requires
        first_at(names, c, i),
    ensures
        position_of(names, c) == Some(i),
{
    let j = choose|j: int| first_at(names, c, j);
    assert(first_at(names, c, j));
    if j < i {
        assert(names[j] != c);
    }
    if j > i {
        assert(names[i] != c);
    }
}

/// The first column named `c`.
fn find_column(cols: &Vec<String>, c: &str) -> (r: Option<usize>)
    ensures
        match r {
            Some(i) => position_of(cols@.map_values(|s: String| s@), c@) == Some(i as int),
            None => position_of(cols@.map_values(|s: String| s@), c@) is None,
        },
{
    let ghost names = cols@.map_values(|s: String| s@);
    let mut i: usize = 0;
    while i < cols.len()
        invariant
            names == cols@.map_values(|s: String| s@),
            i <= cols@.len(),
            forall|k: int| 0 <= k < i ==> names[k] != c@,
        decreases cols@.len() - i,
    {
        if crate::namemap::str_equal(cols[i].as_str(), c) {
            proof {
                lemma_position(names, c@, i as int);
            }
            return Some(i);
        }
        i = i + 1;
    }
    proof {
        if exists|j: int| first_at(names, c@, j) {
            let j = choose|j: int| first_at(names, c@, j);
            assert(names[j] != c@);
        }
    }
    None
}

/// The text of a string argument; a runtime error for anything else.
fn text_param(heap: &Heap, v: Value) -> (r: PulseResult<String>)
    requires
        heap.wf(),
    ensures
        match str_arg(*heap, v) {
            Some(t) => r matches Ok(s) && s@ == t,
            None => crate::value::is_runtime_error(r),
        },
{
    match v {
        Value::Obj(x) => match heap.get(x) {
            Some(Object::String(s)) => Ok(s.clone()),
            _ => Err(PulseError::RuntimeError(text("Expected string"))),
        },
        _ => Err(PulseError::RuntimeError(text("Expected string"))),
    }
}

/// The cells at positions `idx` of each row.
pub open spec fn pick_cells(rows: Seq<Seq<Value>>, idx: Seq<int>) -> Seq<Seq<Value>> {
    rows.map_values(|row: Seq<Value>| idx.map_values(|i: int| row[i]))
}

/// The positions of the selected columns, when each is found.
pub open spec fn positions(names: Seq<Seq<char>>, sel: Seq<Seq<char>>) -> Option<Seq<int>> {
    if forall|j: int| 0 <= j < sel.len() ==> #[trigger] position_of(names, sel[j]) is Some {
        Some(sel.map_values(|c: Seq<char>| position_of(names, c)->Some_0))
    } else {
        None
    }
}

/// Each of the positions `idx` is a cell of every row.
pub open spec fn cells_fit(rows: Seq<Seq<Value>>, idx: Seq<int>) -> bool {
    forall|i: int, j: int| 0 <= i < rows.len() && 0 <= j < idx.len() ==> #[trigger] idx[j] < (#[trigger] rows[i]).len()
}

/// `df_select` reads, in every row, each cell it selects.
pub open spec fn select_fits(h: Heap, args: Seq<Value>) -> bool {
    args.len() == 2 && frame_of(h, args[0]) is Some && names_in(h, args[1]) is Some
        && positions(frame_of(h, args[0])->Some_0.0, names_in(h, args[1])->Some_0) is Some
        ==> cells_fit(frame_of(h, args[0])->Some_0.1, positions(frame_of(h, args[0])->Some_0.0, names_in(h, args[1])->Some_0)->Some_0)
}

/// `df_select(df, columns)`: a new frame with the named columns, in the
/// order given; a runtime error when one is missing.
pub fn df_select_native(heap: &mut Heap, args: &[Value]) -> (r: PulseResult<Value>)
    requires
        ready(*old(heap)),
        select_fits(*old(heap), args@),
    ensures
        ready(*final(heap)),
        on_frame(*old(heap), *final(heap), args@, 2, r, {
            let f = frame_of(*old(heap), args@[0])->Some_0;
            match names_in(*old(heap), args@[1]) {
                Some(sel) => match positions(f.0, sel) {
                    Some(idx) => new_frame(*old(heap), *final(heap), r, sel, pick_cells(f.1, idx)),
                    None => crate::value::is_runtime_error(r) && *final(heap) == *old(heap),
                },
                None => crate::value::is_runtime_error(r) && *final(heap) == *old(heap),
            }
        }),
{
    if args.len() != 2 {
        return Err(PulseError::RuntimeError(text("df_select expects 2 arguments: dataframe and columns")));
    }
    let f = frame_param(heap, args[0])?;
    let sel = names_param(heap, args[1], "Expected list of column names")?;
    let ghost names = f.names();
    let ghost seln = sel@.map_values(|s: String| s@);
    let mut idx: Vec<usize> = Vec::new();
    let mut j: usize = 0;
    while j < sel.len()
        invariant
            *heap == *old(heap),
            ready(*heap),
            args@.len() == 2,
            frame_of(*old(heap), args@[0]) == Some((names, f.cells())),
            names_in(*old(heap), args@[1]) == Some(seln),
            names == f.names(),
            seln == sel@.map_values(|s: String| s@),
            j <= sel@.len(),
            idx@.len() == j,
            forall|k: int| 0 <= k < j ==> position_of(names, #[trigger] seln[k]) == Some(idx@[k] as int),
        decreases sel@.len() - j,
    {
        match find_column(&f.columns, sel[j].as_str()) {
            Some(p) => idx.push(p),
            None => {
                assert(!(position_of(names, seln[j as int]) is Some));
                return Err(PulseError::RuntimeError(text("Column not found")));
            },
        }
        j = j + 1;
    }
    let ghost ix = seln.map_values(|c: Seq<char>| position_of(names, c)->Some_0);
    assert(positions(names, seln) == Some(ix));
    assert(cells_fit(f.cells(), ix));
    let mut out: Vec<Vec<Value>> = Vec::new();
    let mut i: usize = 0;
    while i < f.rows.len()
        invariant
            select_fits(*old(heap), args@),
            frame_of(*old(heap), args@[0]) == Some((names, f.cells())),
            names_in(*old(heap), args@[1]) == Some(seln),
            positions(names, seln) == Some(ix),
            cells_fit(f.cells(), ix),
            args@.len() == 2,
            ix.len() == idx@.len(),
            forall|k: int| 0 <= k < idx@.len() ==> ix[k] == idx@[k] as int,
            i <= f.rows@.len(),
            out@.len() == i,
            forall|k: int| 0 <= k < i ==> (#[trigger] out@[k])@ == ix.map_values(|c: int| f.rows@[k]@[c]),
        decreases f.rows@.len() - i,
    {
        let mut row: Vec<Value> = Vec::new();
        let mut k: usize = 0;
        while k < idx.len()
            invariant
                select_fits(*old(heap), args@),
                frame_of(*old(heap), args@[0]) == Some((names, f.cells())),
                names_in(*old(heap), args@[1]) == Some(seln),
                positions(names, seln) == Some(ix),
                cells_fit(f.cells(), ix),
                args@.len() == 2,
                ix.len() == idx@.len(),
                forall|q: int| 0 <= q < idx@.len() ==> ix[q] == idx@[q] as int,
                i < f.rows@.len(),
                k <= idx@.len(),
                row@.len() == k,
                forall|q: int| 0 <= q < k ==> row@[q] == f.rows@[i as int]@[ix[q]],
            decreases idx@.len() - k,
        {
            assert(f.cells()[i as int] == f.rows@[i as int]@);
            assert(ix[k as int] < f.cells()[i as int].len());
            row.push(f.rows[i][idx[k]]);
            k = k + 1;
        }
        assert(row@ =~= ix.map_values(|c: int| f.rows@[i as int]@[c]));
        out.push(row);
        i = i + 1;
    }
    assert(out@.map_values(|row: Vec<Value>| row@) =~= pick_cells(f.cells(), ix));
    create_frame(heap, sel, out)
}

/// `df_add_column(df, name, values)`: a new frame with one more column at
/// the end, one value per row.
pub fn df_add_column_native(heap: &mut Heap, args: &[Value]) -> (r: PulseResult<Value>)
    requires
        ready(*old(heap)),
    ensures
        ready(*final(heap)),
        on_frame(*old(heap), *final(heap), args@, 3, r, {
            let f = frame_of(*old(heap), args@[0])->Some_0;
            match (str_arg(*old(heap), args@[1]), list_of(*old(heap), args@[2])) {
                (Some(c), Some(vals)) => if vals.len() == f.1.len() {
                    new_frame(*old(heap), *final(heap), r, f.0.push(c), Seq::new(f.1.len(), |i: int| f.1[i].push(vals[i])))
                } else {
                    crate::value::is_runtime_error(r) && *final(heap) == *old(heap)
                },
                _ => crate::value::is_runtime_error(r) && *final(heap) == *old(heap),
            }
        }),
{
    if args.len() != 3 {
        return Err(PulseError::RuntimeError(text("df_add_column expects 3 arguments")));
    }
    let f = frame_param(heap, args[0])?;
    let name = text_param(heap, args[1])?;
    let vals = match args[2] {
        Value::Obj(x) => match heap.get(x) {
            Some(Object::List(l)) => crate::object::vec_copy(l),
            _ => {
                return Err(PulseError::RuntimeError(text("Values must be a list")));
            },
        },
        _ => {
            return Err(PulseError::RuntimeError(text("Values must be a list")));
        },
    };
    if vals.len() != f.rows.len() {
        return Err(PulseError::RuntimeError(text("Values length mismatch")));
    }
    let ghost cells = f.cells();
    let mut out: Vec<Vec<Value>> = Vec::new();
    let mut i: usize = 0;
    while i < f.rows.len()
        invariant
            cells == f.cells(),
            vals@.len() == f.rows@.len(),
            i <= f.rows@.len(),
            out@.len() == i,
            forall|k: int| 0 <= k < i ==> (#[trigger] out@[k])@ == cells[k].push(vals@[k]),
        decreases f.rows@.len() - i,
    {
        let mut row = crate::object::vec_copy(&f.rows[i]);
        row.push(vals[i]);
        out.push(row);
        i = i + 1;
    }
    let mut cols = f.columns;
    let ghost names = cols@.map_values(|s: String| s@);
    cols.push(name);
    assert(cols@.map_values(|s: String| s@) =~= names.push(name@));
    assert(out@.map_values(|row: Vec<Value>| row@) =~= Seq::new(cells.len(), |k: int| cells[k].push(vals@[k])));
    create_frame(heap, cols, out)
}

/// A row without its cell at `p`, when it has one.
pub open spec fn without_cell(row: Seq<Value>, p: int) -> Seq<Value> {
    if p < row.len() { row.remove(p) } else { row }
}

/// `df_drop_column(df, name)`: a new frame without the first column so
/// named; a runtime error when there is none.
pub fn df_drop_column_native(heap: &mut Heap, args: &[Value]) -> (r: PulseResult<Value>)
    requires
        ready(*old(heap)),
    ensures
        ready(*final(heap)),
        on_frame(*old(heap), *final(heap), args@, 2, r, {
            let f = frame_of(*old(heap), args@[0])->Some_0;
            match str_arg(*old(heap), args@[1]) {
                Some(c) => match position_of(f.0, c) {
                    Some(p) => new_frame(*old(heap), *final(heap), r, f.0.remove(p),
                        f.1.map_values(|row: Seq<Value>| without_cell(row, p))),
                    None => crate::value::is_runtime_error(r) && *final(heap) == *old(heap),
                },
                None => crate::value::is_runtime_error(r) && *final(heap) == *old(heap),
            }
        }),
{
    if args.len() != 2 {
        return Err(PulseError::RuntimeError(text("df_drop_column expects 2 arguments")));
    }
    let f = frame_param(heap, args[0])?;
    let name = text_param(heap, args[1])?;
    let p = match find_column(&f.columns, name.as_str()) {
        Some(p) => p,
        None => {
            return Err(PulseError::RuntimeError(text("Column not found")));
        },
    };
    let ghost cells = f.cells();
    let mut out: Vec<Vec<Value>> = Vec::new();
    let mut i: usize = 0;
    while i < f.rows.len()
        invariant
            cells == f.cells(),
            i <= f.rows@.len(),
            out@.len() == i,
            forall|k: int| 0 <= k < i ==> (#[trigger] out@[k])@ == without_cell(cells[k], p as int),
        decreases f.rows@.len() - i,
    {
        let mut row = crate::object::vec_copy(&f.rows[i]);
        if p < row.len() {
            row.remove(p);
        }
        out.push(row);
        i = i + 1;
    }
    let mut cols = f.columns;
    let ghost names = cols@.map_values(|s: String| s@);
    cols.remove(p);
    assert(cols@.map_values(|s: String| s@) =~= names.remove(p as int));
    assert(out@.map_values(|row: Vec<Value>| row@) =~= cells.map_values(|row: Seq<Value>| without_cell(row, p as int)));
    create_frame(heap, cols, out)
}

/// `df_rename(df, old, new)`: a new frame with the first column named
/// `old` named `new`; a runtime error when there is none.
pub fn df_rename_native(heap: &mut Heap, args: &[Value]) -> (r: PulseResult<Value>)
    requires
        ready(*old(heap)),
    ensures
        ready(*final(heap)),
        on_frame(*old(heap), *final(heap), args@, 3, r, {
            let f = frame_of(*old(heap), args@[0])->Some_0;
            match (str_arg(*old(heap), args@[1]), str_arg(*old(heap), args@[2])) {
                (Some(a), Some(b)) => match position_of(f.0, a) {
                    Some(p) => new_frame(*old(heap), *final(heap), r, f.0.update(p, b), f.1),
                    None => crate::value::is_runtime_error(r) && *final(heap) == *old(heap),
                },
                _ => crate::value::is_runtime_error(r) && *final(heap) == *old(heap),
            }
        }),
{
    if args.len() != 3 {
        return Err(PulseError::RuntimeError(text("df_rename expects 3 arguments")));
    }
    let f = frame_param(heap, args[0])?;
    let from = text_param(heap, args[1])?;
    let to = text_param(heap, args[2])?;
    let p = match find_column(&f.columns, from.as_str()) {
        Some(p) => p,
        None => {
            return Err(PulseError::RuntimeError(text("Column not found")));
        },
    };
    let mut cols = f.columns;
    let ghost names = cols@.map_values(|s: String| s@);
    cols.set(p, to);
    assert(cols@.map_values(|s: String| s@) =~= names.update(p as int, to@));
    create_frame(heap, cols, f.rows)
}

/// The rows of the map `v` refers to, read as a frame's data.
pub open spec fn data_of(h: Heap, v: Value) -> Option<Seq<Seq<Value>>> {
    match map_of(h, v) {
        Some(m) => if m@.dom().contains("data"@) { table_in(h, m@["data"@]) } else { None },
        None => None,
    }
}

/// The rows `df_concat` appends for the items `s`: the data of each map
/// among them (none at all when a map's data cannot be read); other items
/// add nothing.
pub open spec fn more_rows(h: Heap, s: Seq<Value>) -> Option<Seq<Seq<Value>>>
    decreases s.len(),
{
    if s.len() == 0 {
        Some(Seq::empty())
    } else {
        match more_rows(h, s.drop_last()) {
            Some(acc) => if map_of(h, s.last()) is Some {
                match data_of(h, s.last()) {
                    Some(d) => Some(acc + d),
                    None => None,
                }
            } else {
                Some(acc)
            },
            None => None,
        }
    }
}

proof fn lemma_more_rows_none(h: Heap, s: Seq<Value>, k: int)
    requires
        0 <= k <= s.len(),
        more_rows(h, s.take(k)) is None,
    ensures
        more_rows(h, s) is None,
    decreases s.len() - k,
{
    if k < s.len() {
        assert(s.take(k + 1).drop_last() =~= s.take(k));
        lemma_more_rows_none(h, s, k + 1);
    } else {
        assert(s.take(k) =~= s);
    }
}

/// `df_concat(frames)`: a new frame with the first frame's columns and the
/// rows of all the frames in the list, in order; an empty list gives an
/// empty frame. Items after the first that are not maps are skipped.
pub fn df_concat_native(heap: &mut Heap, args: &[Value]) -> (r: PulseResult<Value>)
    requires
        ready(*old(heap)),
    ensures
        ready(*final(heap)),
        args@.len() != 1 ==> crate::value::is_runtime_error(r) && *final(heap) == *old(heap),
        args@.len() == 1 ==> match list_of(*old(heap), args@[0]) {
            Some(items) => if items.len() == 0 {
                new_frame(*old(heap), *final(heap), r, Seq::empty(), Seq::empty())
            } else {
                match (frame_of(*old(heap), items[0]), more_rows(*old(heap), items.drop_first())) {
                    (Some(f), Some(m)) => new_frame(*old(heap), *final(heap), r, f.0, f.1 + m),
                    _ => crate::value::is_runtime_error(r) && *final(heap) == *old(heap),
                }
            },
            None => crate::value::is_runtime_error(r) && *final(heap) == *old(heap),
        },
{
    if args.len() != 1 {
        return Err(PulseError::RuntimeError(text("df_concat expects 1 argument")));
    }
    let items = match args[0] {
        Value::Obj(x) => match heap.get(x) {
            Some(Object::List(l)) => crate::object::vec_copy(l),
            _ => {
                return Err(PulseError::RuntimeError(text("Expected list of DataFrames")));
            },
        },
        _ => {
            return Err(PulseError::RuntimeError(text("Expected list")));
        },
    };
    if items.len() == 0 {
        let no_cols: Vec<String> = Vec::new();
        let no_rows: Vec<Vec<Value>> = Vec::new();
        assert(no_cols@.map_values(|s: String| s@) =~= Seq::<Seq<char>>::empty());
        assert(no_rows@.map_values(|v: Vec<Value>| v@) =~= Seq::<Seq<Value>>::empty());
        return create_frame(heap, no_cols, no_rows);
    }
    let f = frame_param(heap, items[0])?;
    let ghost rest = items@.drop_first();
    let ghost first = f.cells();
    let mut all = f.rows;
    let mut i: usize = 1;
    proof {
        heap.lemma_wf();
        assert(rest.take(0) =~= Seq::<Value>::empty());
        assert(all@.map_values(|v: Vec<Value>| v@) =~= first + Seq::<Seq<Value>>::empty());
    }
    while i < items.len()
        invariant
            *heap == *old(heap),
            ready(*heap),
            args@.len() == 1,
            list_of(*heap, args@[0]) == Some(items@),
            items@.len() > 0,
            frame_of(*heap, items@[0]) == Some((f.names(), first)),
            rest == items@.drop_first(),
            1 <= i <= items@.len(),
            more_rows(*heap, rest.take(i - 1)) matches Some(m) && all@.map_values(|v: Vec<Value>| v@) == first + m,
        decreases items@.len() - i,
    {
        proof { heap.lemma_wf(); }
        let ghost prev = more_rows(*heap, rest.take(i - 1))->Some_0;
        assert(rest.take(i as int).drop_last() =~= rest.take(i - 1));
        assert(rest.take(i as int).last() == items@[i as int]);
        if let Value::Obj(x) = items[i] {
            if let Some(Object::Dict(m)) = heap.get(x) {
                let d = match m.get("data") {
                    Some(d) => match rows_param(heap, *d) {
                        Ok(d) => d,
                        Err(e) => {
                            proof {
                                assert(data_of(*heap, items@[i as int]) is None);
                                lemma_more_rows_none(*heap, rest, i as int);
                            }
                            return Err(e);
                        },
                    },
                    None => {
                        proof {
                            assert(data_of(*heap, items@[i as int]) is None);
                            lemma_more_rows_none(*heap, rest, i as int);
                        }
                        return Err(PulseError::RuntimeError(text("DataFrame missing data")));
                    },
                };
                let ghost before = all@.map_values(|v: Vec<Value>| v@);
                let ghost n0 = all@.len();
                let mut k: usize = 0;
                while k < d.len()
                    invariant
                        k <= d@.len(),
                        before.len() == n0,
                        all@.len() == n0 + k,
                        forall|j: int| 0 <= j < n0 ==> (#[trigger] all@[j])@ == before[j],
                        forall|j: int| 0 <= j < k ==> (#[trigger] all@[n0 + j])@ == d@[j]@,
                    decreases d@.len() - k,
                {
                    all.push(crate::object::vec_copy(&d[k]));
                    k = k + 1;
                }
                assert(all@.map_values(|v: Vec<Value>| v@) =~= before + d@.map_values(|v: Vec<Value>| v@)) by {
                    let now = all@.map_values(|v: Vec<Value>| v@);
                    let want = before + d@.map_values(|v: Vec<Value>| v@);
                    assert forall|j: int| 0 <= j < now.len() implies #[trigger] now[j] == want[j] by {
                        if j >= n0 {
                            assert(all@[n0 + (j - n0)]@ == d@[j - n0]@);
                        }
                    }
                }
                assert(all@.map_values(|v: Vec<Value>| v@) =~= first + (prev + d@.map_values(|v: Vec<Value>| v@)));
            }
        }
        i = i + 1;
    }
    assert(rest.take(i - 1) =~= rest);
    create_frame(heap, f.columns, all)
}

/// The names among `cols` other than `c`, in order.
pub open spec fn other_names(cols: Seq<Seq<char>>, c: Seq<char>) -> Seq<Seq<char>>
    decreases cols.len(),
{
    if cols.len() == 0 {
        Seq::empty()
    } else {
        let rest = other_names(cols.drop_last(), c);
        if cols.last() == c { rest } else { rest.push(cols.last()) }
    }
}

/// The first `n` cells of `row` but the one at `p`.
pub open spec fn cells_but(row: Seq<Value>, n: int, p: int) -> Seq<Value> {
    row.take(n).remove(p)
}

/// The rows `df_join` makes of `row1`, whose key is `key`: one for each
/// row of `rows2` whose key cell (at `p2`) prints like `key`, in order,
/// `row1` followed by that row's first `n2` cells but the key.
pub open spec fn joined_with(row1: Seq<Value>, key: Value, rows2: Seq<Seq<Value>>, p2: int, n2: int) -> Seq<Seq<Value>>
    decreases rows2.len(),
{
    if rows2.len() == 0 {
        Seq::empty()
    } else {
        let rest = joined_with(row1, key, rows2.drop_last(), p2, n2);
        let r2 = rows2.last();
        if same_item(r2[p2], key) { rest.push(row1 + cells_but(r2, n2, p2)) } else { rest }
    }
}

/// The rows of `df_join`: for each row of `rows1` in order, keyed by its
/// cell at `p1`, the rows it joins with.
pub open spec fn join_rows(rows1: Seq<Seq<Value>>, p1: int, rows2: Seq<Seq<Value>>, p2: int, n2: int) -> Seq<Seq<Value>>
    decreases rows1.len(),
{
    if rows1.len() == 0 {
        Seq::empty()
    } else {
        join_rows(rows1.drop_last(), p1, rows2, p2, n2) + joined_with(rows1.last(), rows1.last()[p1], rows2, p2, n2)
    }
}

/// Every row of `rows1` has its key cell at `p1`, every row of `rows2` at
/// `p2`, and every row of `rows2` that matches a row of `rows1` has `n2`
/// cells.
pub open spec fn join_cells_fit(rows1: Seq<Seq<Value>>, p1: int, rows2: Seq<Seq<Value>>, p2: int, n2: int) -> bool {
    &&& forall|i: int| 0 <= i < rows1.len() ==> p1 < (#[trigger] rows1[i]).len()
    &&& forall|j: int| 0 <= j < rows2.len() ==> p2 < (#[trigger] rows2[j]).len()
    &&& forall|i: int, j: int| 0 <= i < rows1.len() && 0 <= j < rows2.len()
        && same_item((#[trigger] rows2[j])[p2], (#[trigger] rows1[i])[p1]) ==> n2 <= rows2[j].len()
}

/// `df_join` reads every key cell, and all the cells of each row it joins.
pub open spec fn join_fits(h: Heap, args: Seq<Value>) -> bool {
    args.len() == 3 && frame_of(h, args[0]) is Some && frame_of(h, args[1]) is Some && str_arg(h, args[2]) is Some
        && position_of(frame_of(h, args[0])->Some_0.0, str_arg(h, args[2])->Some_0) is Some
        && position_of(frame_of(h, args[1])->Some_0.0, str_arg(h, args[2])->Some_0) is Some
        ==> join_cells_fit(frame_of(h, args[0])->Some_0.1,
            position_of(frame_of(h, args[0])->Some_0.0, str_arg(h, args[2])->Some_0)->Some_0,
            frame_of(h, args[1])->Some_0.1,
            position_of(frame_of(h, args[1])->Some_0.0, str_arg(h, args[2])->Some_0)->Some_0,
            frame_of(h, args[1])->Some_0.0.len() as int)
}

/// `df_join(left, right, column)`: a new frame joining the rows of `left`
/// and `right` whose cells in `column` print alike: `left`'s columns, then
/// `right`'s but `column`; for each row of `left`, in order, one row for
/// each matching row of `right`, in order.
pub fn df_join_native(heap: &mut Heap, args: &[Value]) -> (r: PulseResult<Value>)
    requires
        ready(*old(heap)),
        join_fits(*old(heap), args@),
    ensures
        ready(*final(heap)),
        args@.len() != 3 ==> crate::value::is_runtime_error(r) && *final(heap) == *old(heap),
        args@.len() == 3 ==> match (frame_of(*old(heap), args@[0]), frame_of(*old(heap), args@[1]), str_arg(*old(heap), args@[2])) {
            (Some(f1), Some(f2), Some(c)) => match (position_of(f1.0, c), position_of(f2.0, c)) {
                (Some(p1), Some(p2)) => new_frame(*old(heap), *final(heap), r, f1.0 + other_names(f2.0, c),
                    join_rows(f1.1, p1, f2.1, p2, f2.0.len() as int)),
                _ => crate::value::is_runtime_error(r) && *final(heap) == *old(heap),
            },
            _ => crate::value::is_runtime_error(r) && *final(heap) == *old(heap),
        },
{
    if args.len() != 3 {
        return Err(PulseError::RuntimeError(text("df_join expects 3 arguments")));
    }
    let f1 = frame_param(heap, args[0])?;
    let f2 = frame_param(heap, args[1])?;
    let c = text_param(heap, args[2])?;
    let p1 = match find_column(&f1.columns, c.as_str()) {
        Some(p) => p,
        None => {
            return Err(PulseError::RuntimeError(text("Column not found in df1")));
        },
    };
    let p2 = match find_column(&f2.columns, c.as_str()) {
        Some(p) => p,
        None => {
            return Err(PulseError::RuntimeError(text("Column not found in df2")));
        },
    };
    let ghost rows1 = f1.cells();
    let ghost rows2 = f2.cells();
    let n2 = f2.columns.len();
    assert(p2 < n2);
    assert(join_cells_fit(rows1, p1 as int, rows2, p2 as int, n2 as int));
    let mut out: Vec<Vec<Value>> = Vec::new();
    let mut i: usize = 0;
    while i < f1.rows.len()
        invariant
            join_fits(*old(heap), args@),
            args@.len() == 3,
            frame_of(*old(heap), args@[0]) == Some((f1.names(), rows1)),
            frame_of(*old(heap), args@[1]) == Some((f2.names(), rows2)),
            str_arg(*old(heap), args@[2]) == Some(c@),
            position_of(f1.names(), c@) == Some(p1 as int),
            position_of(f2.names(), c@) == Some(p2 as int),
            rows1 == f1.cells(),
            rows2 == f2.cells(),
            n2 == f2.columns@.len(),
            p2 < n2,
            join_cells_fit(rows1, p1 as int, rows2, p2 as int, n2 as int),
            i <= rows1.len(),
            out@.map_values(|v: Vec<Value>| v@) == join_rows(rows1.take(i as int), p1 as int, rows2, p2 as int, n2 as int),
        decreases rows1.len() - i,
    {
        assert(p1 < rows1[i as int].len());
        let key = f1.rows[i][p1];
        let ghost row1 = rows1[i as int];
        let ghost start = out@.map_values(|v: Vec<Value>| v@);
        let mut j: usize = 0;
        while j < f2.rows.len()
            invariant
                join_fits(*old(heap), args@),
                args@.len() == 3,
                frame_of(*old(heap), args@[0]) == Some((f1.names(), rows1)),
                frame_of(*old(heap), args@[1]) == Some((f2.names(), rows2)),
                str_arg(*old(heap), args@[2]) == Some(c@),
                position_of(f1.names(), c@) == Some(p1 as int),
                position_of(f2.names(), c@) == Some(p2 as int),
                rows1 == f1.cells(),
                rows2 == f2.cells(),
                n2 == f2.columns@.len(),
                p2 < n2,
                join_cells_fit(rows1, p1 as int, rows2, p2 as int, n2 as int),
                i < rows1.len(),
                row1 == rows1[i as int],
                row1 == f1.rows@[i as int]@,
                key == row1[p1 as int],
                j <= rows2.len(),
                out@.map_values(|v: Vec<Value>| v@) == start + joined_with(row1, key, rows2.take(j as int), p2 as int, n2 as int),
            decreases rows2.len() - j,
        {
            assert(rows2.take(j + 1).drop_last() =~= rows2.take(j as int));
            assert(rows2.take(j + 1).last() == rows2[j as int]);
            assert(p2 < rows2[j as int].len());
            let ghost before = out@.map_values(|v: Vec<Value>| v@);
            if same(f2.rows[j][p2], key) {
                assert(n2 <= rows2[j as int].len());
                let ghost r2 = rows2[j as int];
                let mut row = crate::object::vec_copy(&f1.rows[i]);
                let mut k: usize = 0;
                while k < n2
                    invariant
                        n2 <= r2.len(),
                        p2 < n2,
                        r2 == f2.rows@[j as int]@,
                        j < f2.rows@.len(),
                        k <= n2,
                        row@ == row1 + (if k <= p2 { r2.take(k as int) } else { r2.take(k as int).remove(p2 as int) }),
                    decreases n2 - k,
                {
                    let ghost prev = row@;
                    if k != p2 {
                        row.push(f2.rows[j][k]);
                    }
                    k = k + 1;
                    proof {
                        if k <= p2 {
                            assert(row@ =~= row1 + r2.take(k as int));
                        } else if k == p2 + 1 {
                            assert(r2.take(k as int).remove(p2 as int) =~= r2.take(p2 as int));
                            assert(row@ =~= row1 + r2.take(k as int).remove(p2 as int));
                        } else {
                            assert(r2.take(k as int).remove(p2 as int) =~= r2.take(k - 1).remove(p2 as int).push(r2[k - 1]));
                            assert(row@ =~= row1 + r2.take(k as int).remove(p2 as int));
                        }
                    }
                }
                out.push(row);
                assert(out@.map_values(|v: Vec<Value>| v@) =~= before.push(row1 + cells_but(r2, n2 as int, p2 as int)));
            }
            j = j + 1;
        }
        assert(rows2.take(j as int) =~= rows2);
        assert(rows1.take(i + 1).drop_last() =~= rows1.take(i as int));
        assert(rows1.take(i + 1).last() == row1);
        i = i + 1;
    }
    assert(rows1.take(i as int) =~= rows1);
    let mut cols: Vec<String> = Vec::new();
    let mut a: usize = 0;
    while a < f1.columns.len()
        invariant
            a <= f1.columns@.len(),
            cols@.len() == a,
            forall|k: int| 0 <= k < a ==> (#[trigger] cols@[k])@ == f1.columns@[k]@,
        decreases f1.columns@.len() - a,
    {
        cols.push(text(f1.columns[a].as_str()));
        a = a + 1;
    }
    assert(cols@.map_values(|s: String| s@) =~= f1.names());
    let mut b: usize = 0;
    while b < f2.columns.len()
        invariant
            b <= f2.columns@.len(),
            cols@.map_values(|s: String| s@) == f1.names() + other_names(f2.names().take(b as int), c@),
        decreases f2.columns@.len() - b,
    {
        assert(f2.names().take(b + 1).drop_last() =~= f2.names().take(b as int));
        assert(f2.names().take(b + 1).last() == f2.columns@[b as int]@);
        let ghost prev = cols@.map_values(|s: String| s@);
        if !crate::namemap::str_equal(f2.columns[b].as_str(), c.as_str()) {
            let t = text(f2.columns[b].as_str());
            cols.push(t);
            assert(cols@.map_values(|s: String| s@) =~= prev.push(t@));
        }
        b = b + 1;
    }
    assert(f2.names().take(b as int) =~= f2.names());
    create_frame(heap, cols, out)
}

/// Equality of cells, as the `==` test of `df_filter` applies it: floats as
/// IEEE numbers, everything else by value (objects by identity).
pub open spec fn cell_equal(a: Value, b: Value) -> bool {
    match (a, b) {
        (Value::Float(x), Value::Float(y)) => crate::list_utils::float_equal(x, y),
        _ => a == b,
    }
}

fn cell_eq(a: Value, b: Value) -> (r: bool)
    ensures
        r == cell_equal(a, b),
{
    match (a, b) {
        (Value::Float(x), Value::Float(y)) => {
            let nan_x = (x / 0x10000000000000) % 2048 == 2047 && x % 0x10000000000000 != 0;
            let nan_y = (y / 0x10000000000000) % 2048 == 2047 && y % 0x10000000000000 != 0;
            !nan_x && !nan_y && (x == y || (x % 0x8000000000000000 == 0 && y % 0x8000000000000000 == 0))
        },
        _ => a == b,
    }
}

/// How a cell reads as a number for the order tests: `Some(Some(i))` for
/// an integer within 2^53 of zero (one a float holds exactly), `Some(None)`
/// for what is no number, `None` where only the host can tell (a float, a
/// larger integer, a string it would parse).
pub open spec fn number_in(h: Heap, v: Value) -> Option<Option<i64>> {
    match v {
        Value::Int(i) => if -0x20000000000000 <= i <= 0x20000000000000 { Some(Some(i)) } else { None },
        Value::Float(_) => None,
        Value::Obj(x) => if heap_string(h, x) is Some { None } else { Some(None) },
        _ => Some(None),
    }
}

fn number(heap: &Heap, v: Value) -> (r: Option<Option<i64>>)
    requires
        heap.wf(),
    ensures
        r == number_in(*heap, v),
{
    match v {
        Value::Int(i) => if -0x20000000000000 <= i && i <= 0x20000000000000 { Some(Some(i)) } else { None },
        Value::Float(_) => None,
        Value::Obj(x) => match heap.get(x) {
            Some(Object::String(_)) => None,
            _ => Some(None),
        },
        _ => Some(None),
    }
}

/// The order tests `df_filter` knows.
pub open spec fn order_test(op: Seq<char>) -> bool {
    op == ">"@ || op == "<"@ || op == ">="@ || op == "<="@
}

pub open spec fn order_holds(op: Seq<char>, a: i64, b: i64) -> bool {
    if op == ">"@ { a > b } else if op == "<"@ { a < b } else if op == ">="@ { a >= b } else { a <= b }
}

/// Whether `df_filter` keeps a row whose tested cell is `cell`: `None`
/// where only the host can tell. An unknown operator keeps nothing.
pub open spec fn keeps_row(h: Heap, op: Seq<char>, cell: Value, value: Value) -> Option<bool> {
    if op == "=="@ {
        Some(cell_equal(cell, value))
    } else if op == "!="@ {
        Some(!cell_equal(cell, value))
    } else if order_test(op) {
        match number_in(h, cell) {
            Some(Some(a)) => match number_in(h, value) {
                Some(Some(b)) => Some(order_holds(op, a, b)),
                Some(None) => Some(false),
                None => None,
            },
            Some(None) => Some(false),
            None => None,
        }
    } else {
        Some(false)
    }
}

/// The rows `df_filter` keeps, testing the cell at `p`; `None` when the
/// host must decide for one of them.
pub open spec fn kept_rows(h: Heap, rows: Seq<Seq<Value>>, p: int, op: Seq<char>, value: Value) -> Option<Seq<Seq<Value>>>
    decreases rows.len(),
{
    if rows.len() == 0 {
        Some(Seq::empty())
    } else {
        match (kept_rows(h, rows.drop_last(), p, op, value), keeps_row(h, op, rows.last()[p], value)) {
            (Some(acc), Some(k)) => Some(if k { acc.push(rows.last()) } else { acc }),
            _ => None,
        }
    }
}

proof fn lemma_kept_rows_none(h: Heap, rows: Seq<Seq<Value>>, p: int, op: Seq<char>, value: Value, k: int)
    requires
        0 <= k <= rows.len(),
        kept_rows(h, rows.take(k), p, op, value) is None,
    ensures
        kept_rows(h, rows, p, op, value) is None,
    decreases rows.len() - k,
{
    if k < rows.len() {
        assert(rows.take(k + 1).drop_last() =~= rows.take(k));
        lemma_kept_rows_none(h, rows, p, op, value, k + 1);
    } else {
        assert(rows.take(k) =~= rows);
    }
}

/// The text under `key` in the map `m`, when it is a string.
pub open spec fn text_entry(h: Heap, m: NameMap<Value>, key: Seq<char>) -> Option<Seq<char>> {
    if m@.dom().contains(key) { str_arg(h, m@[key]) } else { None }
}

/// The condition map of `df_filter`: its column, operator and value.
pub open spec fn condition_of(h: Heap, v: Value) -> Option<(Seq<char>, Seq<char>, Value)> {
    match map_of(h, v) {
        Some(m) => match (text_entry(h, m, "column"@), text_entry(h, m, "operator"@)) {
            (Some(c), Some(op)) => if m@.dom().contains("value"@) { Some((c, op, m@["value"@])) } else { None },
            _ => None,
        },
        None => None,
    }
}

/// `df_filter` reads, in every row, the cell it tests.
pub open spec fn filter_fits(h: Heap, args: Seq<Value>) -> bool {
    args.len() == 2 && frame_of(h, args[0]) is Some && condition_of(h, args[1]) is Some
        && position_of(frame_of(h, args[0])->Some_0.0, condition_of(h, args[1])->Some_0.0) is Some
        ==> cells_fit(frame_of(h, args[0])->Some_0.1,
            seq![position_of(frame_of(h, args[0])->Some_0.0, condition_of(h, args[1])->Some_0.0)->Some_0])
}

/// A string entry of the condition map; a runtime error when it is missing
/// or no string.
fn condition_text(heap: &Heap, m: &NameMap<Value>, key: &str) -> (r: PulseResult<String>)
    requires
        heap.wf(),
        m.wf(),
    ensures
        match text_entry(*heap, *m, key@) {
            Some(t) => r matches Ok(s) && s@ == t,
            None => crate::value::is_runtime_error(r),
        },
{
    match m.get(key) {
        Some(v) => text_param(heap, *v),
        None => Err(PulseError::RuntimeError(text("Condition is missing a field"))),
    }
}

/// `df_filter(df, condition)`: a new frame with the rows whose cell in the
/// condition's column passes its test against its value: `==`, `!=`, or
/// an order test `>`, `<`, `>=`, `<=` between numbers (a row with no number
/// there fails it). Where a test needs float arithmetic the host decides.
pub fn df_filter_native(heap: &mut Heap, args: &[Value]) -> (r: PulseResult<Value>)
    requires
        ready(*old(heap)),
        filter_fits(*old(heap), args@),
    ensures
        ready(*final(heap)),
        args@.len() != 2 ==> crate::value::is_runtime_error(r) && *final(heap) == *old(heap),
        args@.len() == 2 ==> match (frame_of(*old(heap), args@[0]), condition_of(*old(heap), args@[1])) {
            (Some(f), Some(cond)) => match position_of(f.0, cond.0) {
                Some(p) => match kept_rows(*old(heap), f.1, p, cond.1, cond.2) {
                    Some(rows) => new_frame(*old(heap), *final(heap), r, f.0, rows),
                    None => crate::value::is_float_host(r) && *final(heap) == *old(heap),
                },
                None => crate::value::is_runtime_error(r) && *final(heap) == *old(heap),
            },
            _ => crate::value::is_runtime_error(r) && *final(heap) == *old(heap),
        },
{
    if args.len() != 2 {
        return Err(PulseError::RuntimeError(text("df_filter expects 2 arguments: dataframe and condition")));
    }
    proof { heap.lemma_wf(); }
    let cm = match args[1] {
        Value::Obj(x) => match heap.get(x) {
            Some(Object::Dict(m)) => m,
            _ => {
                return Err(PulseError::RuntimeError(text("Expected DataFrame and condition")));
            },
        },
        _ => {
            return Err(PulseError::RuntimeError(text("Expected DataFrame and condition")));
        },
    };
    let f = frame_param(heap, args[0])?;
    let col = condition_text(heap, cm, "column")?;
    let op = condition_text(heap, cm, "operator")?;
    let value = match cm.get("value") {
        Some(v) => *v,
        None => {
            return Err(PulseError::RuntimeError(text("Condition missing value")));
        },
    };
    let p = match find_column(&f.columns, col.as_str()) {
        Some(p) => p,
        None => {
            return Err(PulseError::RuntimeError(text("Column not found")));
        },
    };
    proof {
        reveal_strlit("==");
        reveal_strlit("!=");
        reveal_strlit(">");
        reveal_strlit("<");
        reveal_strlit(">=");
        reveal_strlit("<=");
    }
    let is_eq = crate::namemap::str_equal(op.as_str(), "==");
    let is_ne = crate::namemap::str_equal(op.as_str(), "!=");
    let is_gt = crate::namemap::str_equal(op.as_str(), ">");
    let is_lt = crate::namemap::str_equal(op.as_str(), "<");
    let is_ge = crate::namemap::str_equal(op.as_str(), ">=");
    let is_le = crate::namemap::str_equal(op.as_str(), "<=");
    let vnum = number(heap, value);
    let ghost rows = f.cells();
    assert(condition_of(*heap, args@[1]) == Some((col@, op@, value)));
    assert(cells_fit(rows, seq![p as int]));
    let mut out: Vec<Vec<Value>> = Vec::new();
    let mut i: usize = 0;
    while i < f.rows.len()
        invariant
            ready(*heap),
            *heap == *old(heap),
            args@.len() == 2,
            frame_of(*heap, args@[0]) == Some((f.names(), rows)),
            condition_of(*heap, args@[1]) == Some((col@, op@, value)),
            position_of(f.names(), col@) == Some(p as int),
            rows == f.cells(),
            cells_fit(rows, seq![p as int]),
            is_eq == (op@ == "=="@),
            is_ne == (op@ == "!="@),
            is_gt == (op@ == ">"@),
            is_lt == (op@ == "<"@),
            is_ge == (op@ == ">="@),
            is_le == (op@ == "<="@),
            vnum == number_in(*heap, value),
            i <= rows.len(),
            kept_rows(*heap, rows.take(i as int), p as int, op@, value) matches Some(acc)
                && out@.map_values(|v: Vec<Value>| v@) == acc,
        decreases rows.len() - i,
    {
        assert(rows.take(i + 1).drop_last() =~= rows.take(i as int));
        assert(rows.take(i + 1).last() == rows[i as int]);
        assert(seq![p as int][0] < rows[i as int].len());
        let cell = f.rows[i][p];
        let keep: Option<bool> = if is_eq {
            Some(cell_eq(cell, value))
        } else if is_ne {
            Some(!cell_eq(cell, value))
        } else if is_gt || is_lt || is_ge || is_le {
            match number(heap, cell) {
                Some(Some(a)) => match vnum {
                    Some(Some(b)) => Some(if is_gt { a > b } else if is_lt { a < b } else if is_ge { a >= b } else { a <= b }),
                    Some(None) => Some(false),
                    None => None,
                },
                Some(None) => Some(false),
                None => None,
            }
        } else {
            Some(false)
        };
        assert(keep == keeps_row(*heap, op@, rows[i as int][p as int], value));
        let ghost before = out@.map_values(|v: Vec<Value>| v@);
        match keep {
            Some(true) => {
                out.push(crate::object::vec_copy(&f.rows[i]));
                assert(out@.map_values(|v: Vec<Value>| v@) =~= before.push(rows[i as int]));
            },
            Some(false) => {},
            None => {
                proof {
                    assert(kept_rows(*heap, rows.take(i + 1), p as int, op@, value) is None);
                    lemma_kept_rows_none(*heap, rows, p as int, op@, value, i + 1);
                }
                return Err(PulseError::NeedsFloatHost);
            },
        }
        i = i + 1;
    }
    assert(rows.take(i as int) =~= rows);
    create_frame(heap, f.columns, out)
}

/// The flag a boolean argument gives: a boolean, or one of the strings
/// "true", "1", "yes", "false", "0", "no".
pub open spec fn flag_in(h: Heap, v: Value) -> Option<bool> {
    match v {
        Value::Bool(b) => Some(b),
        Value::Obj(x) => match heap_string(h, x) {
            Some(t) => if t == "true"@ || t == "1"@ || t == "yes"@ {
                Some(true)
            } else if t == "false"@ || t == "0"@ || t == "no"@ {
                Some(false)
            } else {
                None
            },
            None => None,
        },
        _ => None,
    }
}

fn flag_arg(heap: &Heap, v: Value) -> (r: PulseResult<bool>)
    requires
        heap.wf(),
    ensures
        match flag_in(*heap, v) {
            Some(b) => r == Ok::<bool, PulseError>(b),
            None => crate::value::is_runtime_error(r),
        },
{
    match v {
        Value::Bool(b) => Ok(b),
        Value::Obj(x) => match heap.get(x) {
            Some(Object::String(t)) => {
                proof {
                    reveal_strlit("true");
                    reveal_strlit("1");
                    reveal_strlit("yes");
                    reveal_strlit("false");
                    reveal_strlit("0");
                    reveal_strlit("no");
                }
                let s = t.as_str();
                if crate::namemap::str_equal(s, "true") || crate::namemap::str_equal(s, "1") || crate::namemap::str_equal(s, "yes") {
                    Ok(true)
                } else if crate::namemap::str_equal(s, "false") || crate::namemap::str_equal(s, "0") || crate::namemap::str_equal(s, "no") {
                    Ok(false)
                } else {
                    Err(PulseError::RuntimeError(text("Cannot parse string as boolean")))
                }
            },
            _ => Err(PulseError::RuntimeError(text("Expected boolean value"))),
        },
        _ => Err(PulseError::RuntimeError(text("Expected boolean value"))),
    }
}

/// Every key cell, at `p`, is an integer a float holds exactly.
pub open spec fn exact_keys(rows: Seq<Seq<Value>>, p: int) -> bool {
    forall|i: int| 0 <= i < rows.len() ==> (#[trigger] rows[i])[p] is Int
        && -0x20000000000000 <= rows[i][p]->Int_0 <= 0x20000000000000
}

/// Row `a` comes before row `b` in a stable sort by the integer keys `ks`,
/// ascending or descending: by key, and rows of equal keys in their order.
pub open spec fn sorts_before(ks: Seq<int>, asc: bool, a: int, b: int) -> bool {
    if ks[a] == ks[b] { a < b } else if asc { ks[a] < ks[b] } else { ks[a] > ks[b] }
}

/// `order` lists the row numbers in the order a stable sort by the keys
/// `ks` puts them.
pub open spec fn sorted_order(ks: Seq<int>, asc: bool, order: Seq<int>) -> bool {
    &&& order.len() == ks.len()
    &&& forall|i: int| 0 <= i < order.len() ==> 0 <= #[trigger] order[i] < ks.len()
    &&& forall|i: int, j: int| 0 <= i < j < order.len() ==> sorts_before(ks, asc, #[trigger] order[i], #[trigger] order[j])
}

/// The rows `order` lists, in that order.
pub open spec fn rows_in_order(rows: Seq<Seq<Value>>, order: Seq<int>) -> Seq<Seq<Value>> {
    order.map_values(|i: int| rows[i])
}

/// The keys of the rows, the integers at `p`.
pub open spec fn keys_at(rows: Seq<Seq<Value>>, p: int) -> Seq<int> {
    rows.map_values(|row: Seq<Value>| row[p]->Int_0 as int)
}

/// `df_sort` compares the key cells of the rows when there are two or more.
pub open spec fn sort_fits(h: Heap, args: Seq<Value>) -> bool {
    args.len() == 3 && frame_of(h, args[0]) is Some && str_arg(h, args[1]) is Some
        && position_of(frame_of(h, args[0])->Some_0.0, str_arg(h, args[1])->Some_0) is Some
        && frame_of(h, args[0])->Some_0.1.len() >= 2
        ==> cells_fit(frame_of(h, args[0])->Some_0.1,
            seq![position_of(frame_of(h, args[0])->Some_0.0, str_arg(h, args[1])->Some_0)->Some_0])
}

/// Key `a` comes strictly before key `b`.
fn key_first(ks: &Vec<i64>, asc: bool, a: usize, b: usize) -> (r: bool)
    requires
        a < ks@.len(),
        b < ks@.len(),
    ensures
        r == (if asc { ks@[a as int] < ks@[b as int] } else { ks@[a as int] > ks@[b as int] }),
{
    if asc { ks[a] < ks[b] } else { ks[a] > ks[b] }
}

/// Sorts the row numbers `0..ks.len()` stably by key.
fn stable_order(ks: &Vec<i64>, asc: bool) -> (order: Vec<usize>)
    ensures
        sorted_order(ks@.map_values(|k: i64| k as int), asc, order@.map_values(|i: usize| i as int)),
{
    let ghost kv = ks@.map_values(|k: i64| k as int);
    let mut order: Vec<usize> = Vec::new();
    let mut j: usize = 0;
    while j < ks.len()
        invariant
            kv == ks@.map_values(|k: i64| k as int),
            j <= ks@.len(),
            order@.len() == j,
            forall|a: int| 0 <= a < order@.len() ==> #[trigger] order@[a] < j,
            forall|a: int, b: int| 0 <= a < b < order@.len() ==> sorts_before(kv, asc, #[trigger] order@[a] as int, #[trigger] order@[b] as int),
        decreases ks@.len() - j,
    {
        let mut q: usize = 0;
        while q < order.len() && !key_first(ks, asc, j, order[q])
            invariant
                kv == ks@.map_values(|k: i64| k as int),
                j < ks@.len(),
                order@.len() == j,
                q <= order@.len(),
                forall|a: int| 0 <= a < order@.len() ==> #[trigger] order@[a] < j,
                forall|a: int| 0 <= a < q ==> sorts_before(kv, asc, #[trigger] order@[a] as int, j as int),
            decreases order@.len() - q,
        {
            q = q + 1;
        }
        let ghost old_order = order@;
        proof {
            if q < order@.len() {
                assert(sorts_before(kv, asc, j as int, old_order[q as int] as int));
            }
        }
        order.insert(q, j);
        proof {
            assert forall|a: int, b: int| 0 <= a < b < order@.len() implies sorts_before(kv, asc, #[trigger] order@[a] as int, #[trigger] order@[b] as int) by {
                if b < q {
                } else if b == q {
                    assert(order@[a] == old_order[a]);
                } else if a < q {
                    assert(order@[b] == old_order[b - 1]);
                } else if a == q {
                    assert(order@[b] == old_order[b - 1]);
                    if b - 1 > q {
                        assert(sorts_before(kv, asc, old_order[q as int] as int, old_order[b - 1] as int));
                    }
                } else {
                    assert(order@[a] == old_order[a - 1]);
                    assert(order@[b] == old_order[b - 1]);
                }
            }
            assert forall|a: int| 0 <= a < order@.len() implies #[trigger] order@[a] < j + 1 by {
                if a < q {
                    assert(order@[a] == old_order[a]);
                } else if a > q {
                    assert(order@[a] == old_order[a - 1]);
                }
            }
        }
        j = j + 1;
    }
    proof {
        let ov = order@.map_values(|i: usize| i as int);
        assert forall|a: int, b: int| 0 <= a < b < ov.len() implies sorts_before(kv, asc, #[trigger] ov[a], #[trigger] ov[b]) by {
            assert(sorts_before(kv, asc, order@[a] as int, order@[b] as int));
        }
        assert forall|a: int| 0 <= a < ov.len() implies 0 <= #[trigger] ov[a] < kv.len() by {
            assert(order@[a] < j);
        }
    }
    order
}

/// `df_sort(df, column, ascending)`: a new frame with the rows sorted by
/// their cells in `column`, stably, ascending or descending. Keys that are
/// not integers a float holds exactly are compared by the host.
pub fn df_sort_native(heap: &mut Heap, args: &[Value]) -> (r: PulseResult<Value>)
    requires
        ready(*old(heap)),
        sort_fits(*old(heap), args@),
    ensures
        ready(*final(heap)),
        args@.len() != 3 ==> crate::value::is_runtime_error(r) && *final(heap) == *old(heap),
        args@.len() == 3 ==> match (frame_of(*old(heap), args@[0]), str_arg(*old(heap), args@[1]), flag_in(*old(heap), args@[2])) {
            (Some(f), Some(c), Some(asc)) => match position_of(f.0, c) {
                Some(p) => if f.1.len() <= 1 {
                    new_frame(*old(heap), *final(heap), r, f.0, f.1)
                } else if exact_keys(f.1, p) {
                    exists|order: Seq<int>| #[trigger] sorted_order(keys_at(f.1, p), asc, order)
                        && new_frame(*old(heap), *final(heap), r, f.0, rows_in_order(f.1, order))
                } else {
                    crate::value::is_float_host(r) && *final(heap) == *old(heap)
                },
                None => crate::value::is_runtime_error(r) && *final(heap) == *old(heap),
            },
            _ => crate::value::is_runtime_error(r) && *final(heap) == *old(heap),
        },
{
    if args.len() != 3 {
        return Err(PulseError::RuntimeError(text("df_sort expects 3 arguments: dataframe, column, ascending")));
    }
    let f = frame_param(heap, args[0])?;
    let c = text_param(heap, args[1])?;
    let asc = flag_arg(heap, args[2])?;
    let p = match find_column(&f.columns, c.as_str()) {
        Some(p) => p,
        None => {
            return Err(PulseError::RuntimeError(text("Column not found")));
        },
    };
    if f.rows.len() <= 1 {
        return create_frame(heap, f.columns, f.rows);
    }
    let ghost rows = f.cells();
    assert(cells_fit(rows, seq![p as int]));
    let mut ks: Vec<i64> = Vec::new();
    let mut i: usize = 0;
    while i < f.rows.len()
        invariant
            ready(*heap),
            *heap == *old(heap),
            args@.len() == 3,
            frame_of(*heap, args@[0]) == Some((f.names(), rows)),
            str_arg(*heap, args@[1]) == Some(c@),
            flag_in(*heap, args@[2]) == Some(asc),
            position_of(f.names(), c@) == Some(p as int),
            rows.len() >= 2,
            rows == f.cells(),
            cells_fit(rows, seq![p as int]),
            i <= rows.len(),
            ks@.len() == i,
            forall|k: int| 0 <= k < i ==> (#[trigger] rows[k])[p as int] is Int
                && -0x20000000000000 <= rows[k][p as int]->Int_0 <= 0x20000000000000,
            forall|k: int| 0 <= k < i ==> #[trigger] ks@[k] == rows[k][p as int]->Int_0,
        decreases rows.len() - i,
    {
        assert(seq![p as int][0] < rows[i as int].len());
        match f.rows[i][p] {
            Value::Int(k) => {
                if k < -0x20000000000000 || k > 0x20000000000000 {
                    assert(!exact_keys(rows, p as int));
                    return Err(PulseError::NeedsFloatHost);
                }
                ks.push(k);
            },
            _ => {
                assert(!exact_keys(rows, p as int));
                return Err(PulseError::NeedsFloatHost);
            },
        }
        i = i + 1;
    }
    assert(ks@.map_values(|k: i64| k as int) =~= keys_at(rows, p as int));
    let order = stable_order(&ks, asc);
    let ghost ov = order@.map_values(|i: usize| i as int);
    let mut out: Vec<Vec<Value>> = Vec::new();
    let mut k: usize = 0;
    while k < order.len()
        invariant
            rows == f.cells(),
            sorted_order(keys_at(rows, p as int), asc, ov),
            ov == order@.map_values(|i: usize| i as int),
            k <= order@.len(),
            out@.len() == k,
            forall|a: int| 0 <= a < k ==> (#[trigger] out@[a])@ == rows[ov[a]],
        decreases order@.len() - k,
    {
        assert(0 <= ov[k as int] < rows.len());
        out.push(crate::object::vec_copy(&f.rows[order[k]]));
        k = k + 1;
    }
    assert(out@.map_values(|v: Vec<Value>| v@) =~= rows_in_order(rows, ov));
    let r = create_frame(heap, f.columns, out);
    assert(sorted_order(keys_at(rows, p as int), asc, ov));
    r
}

/// The maps of the list `v` refers to, when every item is a map.
pub open spec fn maps_in(h: Heap, v: Value) -> Option<Seq<NameMap<Value>>> {
    match list_of(h, v) {
        Some(l) => if forall|i: int| 0 <= i < l.len() ==> #[trigger] map_of(h, l[i]) is Some {
            Some(Seq::new(l.len(), |i: int| map_of(h, l[i])->Some_0))
        } else {
            None
        },
        None => None,
    }
}

/// `cols` holds the keys of `m`, each once, in sorted order.
pub open spec fn sorted_keys_of(m: NameMap<Value>, cols: Seq<Seq<char>>) -> bool {
    &&& forall|i: int, j: int| 0 <= i < j < cols.len() ==> chars_lt(#[trigger] cols[i], #[trigger] cols[j])
    &&& forall|i: int| 0 <= i < cols.len() ==> m@.dom().contains(#[trigger] cols[i])
    &&& forall|k: Seq<char>| #[trigger] m@.dom().contains(k) ==> cols.contains(k)
}

/// The cells of the row `df_from_list` makes of `m`: the value under each
/// column's name, unit where there is none.
pub open spec fn lookup_row(m: NameMap<Value>, cols: Seq<Seq<char>>) -> Seq<Value> {
    cols.map_values(|c: Seq<char>| if m@.dom().contains(c) { m@[c] } else { Value::Unit })
}

/// Strictly ascending texts.
#[verifier::opaque]
pub open spec fn ascending(s: Seq<Seq<char>>) -> bool {
    forall|a: int, b: int| 0 <= a < b < s.len() ==> chars_lt(#[trigger] s[a], #[trigger] s[b])
}

/// `s` holds exactly the first `j` of `keys`.
#[verifier::opaque]
pub open spec fn holds_first(s: Seq<Seq<char>>, keys: Seq<Seq<char>>, j: int) -> bool {
    &&& forall|a: int| 0 <= a < s.len() ==> exists|k: int| 0 <= k < j && keys[k] == #[trigger] s[a]
    &&& forall|k: int| #![trigger keys[k]] 0 <= k < j ==> exists|a: int| 0 <= a < s.len() && #[trigger] s[a] == keys[k]
}

/// Inserting `x` where it sorts keeps texts ascending.
proof fn lemma_insert_ascending(s: Seq<Seq<char>>, x: Seq<char>, q: int)
    requires
        0 <= q <= s.len(),
        ascending(s),
        forall|a: int| 0 <= a < q ==> chars_lt(#[trigger] s[a], x),
        q < s.len() ==> chars_lt(x, s[q]),
    ensures
        ascending(s.insert(q, x)),
{
    reveal(ascending);
    let t = s.insert(q, x);
    assert forall|a: int, b: int| 0 <= a < b < t.len() implies chars_lt(#[trigger] t[a], #[trigger] t[b]) by {
        if b < q {
            assert(t[a] == s[a] && t[b] == s[b]);
        } else if b == q {
            assert(t[a] == s[a]);
        } else if a < q {
            assert(t[a] == s[a] && t[b] == s[b - 1]);
            if b - 1 > q {
                lemma_chars_lt_transitive(x, s[q], s[b - 1]);
            }
            lemma_chars_lt_transitive(s[a], x, s[b - 1]);
        } else if a == q {
            assert(t[a] == x && t[b] == s[b - 1]);
            if b - 1 > q {
                lemma_chars_lt_transitive(x, s[q], s[b - 1]);
            }
        } else {
            assert(t[a] == s[a - 1] && t[b] == s[b - 1]);
        }
    }
}

/// Inserting the next key keeps the texts holding the keys seen.
proof fn lemma_insert_holds(s: Seq<Seq<char>>, keys: Seq<Seq<char>>, j: int, q: int)
    requires
        0 <= j < keys.len(),
        0 <= q <= s.len(),
        holds_first(s, keys, j),
    ensures
        holds_first(s.insert(q, keys[j]), keys, j + 1),
{
    reveal(holds_first);
    let t = s.insert(q, keys[j]);
    assert forall|a: int| 0 <= a < t.len() implies exists|k: int| 0 <= k < j + 1 && keys[k] == #[trigger] t[a] by {
        if a < q {
            assert(t[a] == s[a]);
        } else if a == q {
            assert(keys[j] == t[a]);
        } else {
            assert(t[a] == s[a - 1]);
        }
    }
    assert forall|k: int| #![trigger keys[k]] 0 <= k < j + 1 implies exists|a: int| 0 <= a < t.len() && #[trigger] t[a] == keys[k] by {
        if k < j {
            let a = choose|a: int| 0 <= a < s.len() && #[trigger] s[a] == keys[k];
            if a < q {
                assert(t[a] == s[a]);
            } else {
                assert(t[a + 1] == s[a]);
            }
        } else {
            assert(t[q] == keys[k]);
        }
    }
}

/// A key not yet seen that does not sort before an earlier one sorts after it.
proof fn lemma_after_seen(s: Seq<Seq<char>>, keys: Seq<Seq<char>>, j: int, q: int)
    requires
        0 <= j < keys.len(),
        0 <= q <= s.len(),
        holds_first(s, keys, j),
        forall|a: int, b: int| 0 <= a < b < keys.len() ==> #[trigger] keys[a] != #[trigger] keys[b],
        forall|a: int| 0 <= a < q ==> !chars_lt(keys[j], #[trigger] s[a]),
    ensures
        forall|a: int| 0 <= a < q ==> chars_lt(#[trigger] s[a], keys[j]),
{
    reveal(holds_first);
    assert forall|a: int| 0 <= a < q implies chars_lt(#[trigger] s[a], keys[j]) by {
        let k = choose|k: int| 0 <= k < j && keys[k] == #[trigger] s[a];
        assert(keys[k] != keys[j]);
        lemma_chars_lt_total(keys[j], s[a]);
    }
}

/// The keys of `m`, sorted.
fn sorted_keys(m: &NameMap<Value>) -> (out: Vec<String>)
    requires
        m.wf(),
    ensures
        sorted_keys_of(*m, out@.map_values(|s: String| s@)),
{
    let ghost es = m.entries@;
    let ghost keys = es.map_values(|e: (String, Value)| e.0@);
    proof {
        assert forall|a: int, b: int| 0 <= a < b < keys.len() implies #[trigger] keys[a] != #[trigger] keys[b] by {
            assert(es[a].0@ != es[b].0@);
        }
    }
    let mut out: Vec<String> = Vec::new();
    proof {
        reveal(ascending);
        reveal(holds_first);
    }
    let mut j: usize = 0;
    while j < m.entries.len()
        invariant
            m.wf(),
            es == m.entries@,
            keys == es.map_values(|e: (String, Value)| e.0@),
            forall|a: int, b: int| 0 <= a < b < keys.len() ==> #[trigger] keys[a] != #[trigger] keys[b],
            j <= es.len(),
            out@.len() == j,
            ascending(out@.map_values(|s: String| s@)),
            holds_first(out@.map_values(|s: String| s@), keys, j as int),
        decreases es.len() - j,
    {
        let x = m.entries[j].0.clone();
        assert(x@ == keys[j as int]);
        let ghost ov = out@.map_values(|s: String| s@);
        let mut q: usize = 0;
        while q < out.len() && !str_less(x.as_str(), out[q].as_str())
            invariant
                out@.len() == j,
                ov == out@.map_values(|s: String| s@),
                q <= out@.len(),
                forall|a: int| 0 <= a < q ==> !chars_lt(x@, #[trigger] ov[a]),
            decreases out@.len() - q,
        {
            q = q + 1;
        }
        proof {
            lemma_after_seen(ov, keys, j as int, q as int);
            lemma_insert_ascending(ov, keys[j as int], q as int);
            lemma_insert_holds(ov, keys, j as int, q as int);
        }
        out.insert(q, x);
        assert(out@.map_values(|s: String| s@) =~= ov.insert(q as int, keys[j as int]));
        j = j + 1;
    }
    proof {
        reveal(ascending);
        reveal(holds_first);
        let ov = out@.map_values(|s: String| s@);
        assert forall|a: int| 0 <= a < ov.len() implies m@.dom().contains(#[trigger] ov[a]) by {
            let k = choose|k: int| 0 <= k < j && keys[k] == #[trigger] ov[a];
            crate::namemap::lemma_entry_in_map(es, k);
        }
        assert forall|k: Seq<char>| #[trigger] m@.dom().contains(k) implies ov.contains(k) by {
            assert(crate::namemap::seq_has_key(es, k));
            let i = choose|i: int| 0 <= i < es.len() && es[i].0@ == k;
            assert(keys[i] == k);
            let a = choose|a: int| 0 <= a < ov.len() && #[trigger] ov[a] == keys[i];
        }
    }
    out
}

/// `df_from_list(maps)`: a new frame from a list of maps: the first map's
/// keys, sorted, name the columns; each map gives a row of its values
/// under those names, unit where it has none. An empty list gives an empty
/// frame.
pub fn df_from_list_native(heap: &mut Heap, args: &[Value]) -> (r: PulseResult<Value>)
    requires
        ready(*old(heap)),
    ensures
        ready(*final(heap)),
        args@.len() != 1 ==> crate::value::is_runtime_error(r) && *final(heap) == *old(heap),
        args@.len() == 1 ==> match maps_in(*old(heap), args@[0]) {
            Some(ms) => if ms.len() == 0 {
                new_frame(*old(heap), *final(heap), r, Seq::empty(), Seq::empty())
            } else {
                exists|cols: Seq<Seq<char>>| #[trigger] sorted_keys_of(ms[0], cols)
                    && new_frame(*old(heap), *final(heap), r, cols, ms.map_values(|m: NameMap<Value>| lookup_row(m, cols)))
            },
            None => crate::value::is_runtime_error(r) && *final(heap) == *old(heap),
        },
{
    if args.len() != 1 {
        return Err(PulseError::RuntimeError(text("df_from_list expects 1 argument: list of maps")));
    }
    proof { heap.lemma_wf(); }
    let items = match args[0] {
        Value::Obj(x) => match heap.get(x) {
            Some(Object::List(l)) => crate::object::vec_copy(l),
            _ => {
                return Err(PulseError::RuntimeError(text("Expected list")));
            },
        },
        _ => {
            return Err(PulseError::RuntimeError(text("Expected list")));
        },
    };
    let mut maps: Vec<NameMap<Value>> = Vec::new();
    let mut i: usize = 0;
    while i < items.len()
        invariant
            ready(*heap),
            *heap == *old(heap),
            args@.len() == 1,
            forall|x: int| #[trigger] heap.live().dom().contains(x) ==> crate::object::obj_wf(heap.live()[x]),
            list_of(*heap, args@[0]) == Some(items@),
            i <= items@.len(),
            maps@.len() == i,
            forall|k: int| 0 <= k < i ==> #[trigger] map_of(*heap, items@[k]) is Some,
            forall|k: int| 0 <= k < i ==> map_of(*heap, items@[k])->Some_0@ == (#[trigger] maps@[k])@,
            forall|k: int| 0 <= k < i ==> (#[trigger] maps@[k]).wf(),
        decreases items@.len() - i,
    {
        match items[i] {
            Value::Obj(y) => match heap.get(y) {
                Some(Object::Dict(m)) => {
                    let c = m.copy();
                    maps.push(c);
                },
                _ => {
                    assert(!(map_of(*heap, items@[i as int]) is Some));
                    return Err(PulseError::RuntimeError(text("Expected map in list")));
                },
            },
            _ => {
                assert(!(map_of(*heap, items@[i as int]) is Some));
                return Err(PulseError::RuntimeError(text("Expected map in list")));
            },
        }
        i = i + 1;
    }
    let ghost ms = Seq::new(items@.len(), |k: int| map_of(*heap, items@[k])->Some_0);
    assert(maps_in(*heap, args@[0]) == Some(ms));
    if maps.len() == 0 {
        let no_cols: Vec<String> = Vec::new();
        let no_rows: Vec<Vec<Value>> = Vec::new();
        assert(no_cols@.map_values(|s: String| s@) =~= Seq::<Seq<char>>::empty());
        assert(no_rows@.map_values(|v: Vec<Value>| v@) =~= Seq::<Seq<Value>>::empty());
        return create_frame(heap, no_cols, no_rows);
    }
    let cols = sorted_keys(&maps[0]);
    let ghost cv = cols@.map_values(|s: String| s@);
    let mut rows: Vec<Vec<Value>> = Vec::new();
    let mut k: usize = 0;
    while k < maps.len()
        invariant
            cv == cols@.map_values(|s: String| s@),
            forall|a: int| 0 <= a < maps@.len() ==> (#[trigger] maps@[a]).wf(),
            k <= maps@.len(),
            rows@.len() == k,
            forall|a: int| 0 <= a < k ==> (#[trigger] rows@[a])@ == lookup_row(maps@[a], cv),
        decreases maps@.len() - k,
    {
        let mut row: Vec<Value> = Vec::new();
        let mut c: usize = 0;
        while c < cols.len()
            invariant
                cv == cols@.map_values(|s: String| s@),
                k < maps@.len(),
                maps@[k as int].wf(),
                c <= cols@.len(),
                row@ == lookup_row(maps@[k as int], cv).take(c as int),
            decreases cols@.len() - c,
        {
            let v = match maps[k].get(cols[c].as_str()) {
                Some(v) => *v,
                None => Value::Unit,
            };
            row.push(v);
            c = c + 1;
            assert(row@ =~= lookup_row(maps@[k as int], cv).take(c as int));
        }
        assert(lookup_row(maps@[k as int], cv).take(c as int) =~= lookup_row(maps@[k as int], cv));
        rows.push(row);
        k = k + 1;
    }
    assert forall|a: int| 0 <= a < ms.len() implies lookup_row(#[trigger] ms[a], cv) == lookup_row(maps@[a], cv) by {
        assert(ms[a]@ == maps@[a]@);
    }
    assert(rows@.map_values(|v: Vec<Value>| v@) =~= ms.map_values(|m: NameMap<Value>| lookup_row(m, cv)));
    assert(ms[0]@ == maps@[0]@);
    assert(sorted_keys_of(ms[0], cv));
    create_frame(heap, cols, rows)
}

/// The header and the records the `csv` crate reads from a text, the first
/// record being the header and records of any length allowed
/// (`ReaderBuilder::has_headers(true)`, `flexible(true)`), each field as its
/// text; `None` where reading fails.
pub uninterp spec fn csv_rows(text: Seq<char>) -> Option<(Seq<Seq<char>>, Seq<Seq<Seq<char>>>)>;

/// The texts of strings.
pub open spec fn texts(v: Seq<String>) -> Seq<Seq<char>> {
    v.map_values(|s: String| s@)
}

/// `csv::ReaderBuilder`, with headers and flexible records, reading
/// `text`: `StringRecordsIter` gives each record, and each field becomes a
/// string. Claimed: the result is `csv_rows(text)`.
#[verifier::external_body]
fn csv_records(text: &str) -> (r: Option<(Vec<String>, Vec<Vec<String>>)>)
    ensures
        match r {
            Some(p) => csv_rows(text@) == Some((texts(p.0@), p.1@.map_values(|row: Vec<String>| texts(row@)))),
            None => csv_rows(text@) is None,
        },
{
    let mut rdr = ::csv::ReaderBuilder::new().has_headers(true).flexible(true).from_reader(text.as_bytes());
    let headers: Vec<String> = rdr.headers().ok()?.iter().map(|f| f.to_string()).collect();
    let rows: Result<Vec<Vec<String>>, ::csv::Error> =
        rdr.records().map(|rec| rec.map(|fields| fields.iter().map(|f| f.to_string()).collect())).collect();
    Some((headers, rows.ok()?))
}

/// A field only the host can read: `str::parse::<f64>` reads it and
/// `str::parse::<i64>` does not.
pub open spec fn float_field(t: Seq<char>) -> bool {
    parsed_int(t) is None && crate::utils::float_syntax(t)
}

/// Some field of the records is one only the host can read.
pub open spec fn has_float_field(recs: Seq<Seq<Seq<char>>>) -> bool {
    exists|i: int, j: int| 0 <= i < recs.len() && 0 <= j < recs[i].len() && #[trigger] float_field(recs[i][j])
}

/// The cell `v` holds the field `t`: its integer, unit for an empty field,
/// otherwise a string made after `h0`.
pub open spec fn csv_cell(h0: Heap, h1: Heap, v: Value, t: Seq<char>) -> bool {
    match parsed_int(t) {
        Some(i) => v == Value::Int(i),
        None => if t.len() == 0 { v == Value::Unit } else { fresh_string(h0, h1, v, t) },
    }
}

/// Each row of cells holds the record of fields in its place.
pub open spec fn cells_hold(h0: Heap, h1: Heap, rows: Seq<Seq<Value>>, recs: Seq<Seq<Seq<char>>>) -> bool {
    &&& rows.len() == recs.len()
    &&& forall|i: int| 0 <= i < rows.len() ==> (#[trigger] rows[i]).len() == recs[i].len()
    &&& forall|i: int, j: int| 0 <= i < rows.len() && 0 <= j < rows[i].len() ==> csv_cell(h0, h1, #[trigger] rows[i][j], recs[i][j])
}

/// The frame a header and records make: one only the host can read needs
/// the host; otherwise a new frame with the header as its columns and a
/// row of cells for each record.
pub open spec fn csv_frame(h0: Heap, h1: Heap, r: PulseResult<Value>, hs: Seq<Seq<char>>, recs: Seq<Seq<Seq<char>>>) -> bool {
    if has_float_field(recs) {
        crate::value::is_float_host(r) && h1 == h0
    } else {
        exists|rows: Seq<Seq<Value>>| #[trigger] cells_hold(h0, h1, rows, recs) && new_frame(h0, h1, r, hs, rows)
    }
}

proof fn lemma_cell_grows(h0: Heap, h1: Heap, h2: Heap, v: Value, t: Seq<char>)
    requires
        csv_cell(h0, h1, v, t),
        grows(h1, h2),
    ensures
        csv_cell(h0, h2, v, t),
{
    if parsed_int(t) is None && t.len() != 0 {
        let x = v->Obj_0;
        assert(h1.live().dom().contains(x.0 as int));
        assert(h2.live().dom().contains(x.0 as int));
        assert(h2.live()[x.0 as int] == h1.live()[x.0 as int]);
        assert(heap_string(h2, x) == heap_string(h1, x));
    }
}

proof fn lemma_new_frame_earlier(h0: Heap, hm: Heap, h1: Heap, r: PulseResult<Value>, cols: Seq<Seq<char>>, rows: Seq<Seq<Value>>)
    requires
        grows(h0, hm),
        new_frame(hm, h1, r, cols, rows),
    ensures
        new_frame(h0, h1, r, cols, rows),
{
    lemma_grows_trans(h0, hm, h1);
    let m = map_of(h1, r->Ok_0)->Some_0;
    assert forall|i: int| 0 <= i < cols.len() implies fresh_string(h0, h1, #[trigger] list_of(h1, m@["columns"@])->Some_0[i], cols[i]) by {
        assert(fresh_string(hm, h1, list_of(h1, m@["columns"@])->Some_0[i], cols[i]));
    }
    assert forall|i: int| 0 <= i < rows.len() implies fresh_list(h0, h1, #[trigger] list_of(h1, m@["data"@])->Some_0[i]) by {
        assert(fresh_list(hm, h1, list_of(h1, m@["data"@])->Some_0[i]));
    }
}

/// The cell for the field `t`, which the host is not needed for.
fn csv_cell_value(heap: &mut Heap, t: &String) -> (v: Value)
    requires
        ready(*old(heap)),
        !float_field(t@),
    ensures
        ready(*final(heap)),
        grows(*old(heap), *final(heap)),
        csv_cell(*old(heap), *final(heap), v, t@),
{
    match parse_i64(t.as_str()) {
        Some(i) => Value::Int(i),
        None => if chars_of(t.as_str()).len() == 0 {
            Value::Unit
        } else {
            new_text(heap, t.clone())
        },
    }
}

/// Whether some field of `recs` is one only the host can read.
fn any_float_field(recs: &Vec<Vec<String>>) -> (b: bool)
    ensures
        b == has_float_field(recs@.map_values(|row: Vec<String>| texts(row@))),
{
    let ghost rv = recs@.map_values(|row: Vec<String>| texts(row@));
    let mut i: usize = 0;
    while i < recs.len()
        invariant
            i <= recs@.len(),
            rv == recs@.map_values(|row: Vec<String>| texts(row@)),
            forall|a: int, b: int| 0 <= a < i && 0 <= b < rv[a].len() ==> !float_field(#[trigger] rv[a][b]),
        decreases recs@.len() - i,
    {
        let row = &recs[i];
        let mut j: usize = 0;
        while j < row.len()
            invariant
                i < recs@.len(),
                j <= row@.len(),
                row == recs@[i as int],
                rv == recs@.map_values(|row: Vec<String>| texts(row@)),
                forall|a: int, b: int| 0 <= a < i && 0 <= b < rv[a].len() ==> !float_field(#[trigger] rv[a][b]),
                forall|b: int| 0 <= b < j ==> !float_field(#[trigger] rv[i as int][b]),
            decreases row@.len() - j,
        {
            let t = &row[j];
            assert(rv[i as int][j as int] == t@);
            if parse_i64(t.as_str()).is_none() {
                let cs = chars_of(t.as_str());
                if crate::utils::is_float_text(cs.as_slice()) {
                    assert(float_field(rv[i as int][j as int]));
                    return true;
                }
            }
            j = j + 1;
        }
        i = i + 1;
    }
    false
}

/// The frame a CSV text makes (see `csv_frame`): the `csv` crate reads the
/// header and the records; text it cannot read is a runtime error.
pub fn df_from_csv_text(heap: &mut Heap, text: &str) -> (r: PulseResult<Value>)
    requires
        ready(*old(heap)),
    ensures
        ready(*final(heap)),
        match csv_rows(text@) {
            Some(p) => csv_frame(*old(heap), *final(heap), r, p.0, p.1),
            None => crate::value::is_runtime_error(r) && *final(heap) == *old(heap),
        },
{
    let (headers, records) = match csv_records(text) {
        Some(p) => p,
        None => {
            return Err(PulseError::RuntimeError(crate::value::text("Cannot read CSV")));
        },
    };
    let ghost recs = records@.map_values(|row: Vec<String>| texts(row@));
    if any_float_field(&records) {
        return Err(PulseError::NeedsFloatHost);
    }
    let ghost h0 = *heap;
    let mut rows: Vec<Vec<Value>> = Vec::new();
    let mut i: usize = 0;
    while i < records.len()
        invariant
            ready(*heap),
            grows(h0, *heap),
            i <= records@.len(),
            recs == records@.map_values(|row: Vec<String>| texts(row@)),
            !has_float_field(recs),
            cells_hold(h0, *heap, rows@.map_values(|v: Vec<Value>| v@), recs.take(i as int)),
        decreases records@.len() - i,
    {
        let rec = &records[i];
        let mut row: Vec<Value> = Vec::new();
        let ghost hr = *heap;
        let mut j: usize = 0;
        while j < rec.len()
            invariant
                ready(*heap),
                grows(h0, hr),
                grows(hr, *heap),
                i < records@.len(),
                j <= rec@.len(),
                rec == records@[i as int],
                recs == records@.map_values(|row: Vec<String>| texts(row@)),
                !has_float_field(recs),
                row@.len() == j,
                forall|b: int| 0 <= b < j ==> csv_cell(h0, *heap, #[trigger] row@[b], recs[i as int][b]),
            decreases rec@.len() - j,
        {
            let t = &rec[j];
            assert(recs[i as int][j as int] == t@);
            assert(!float_field(recs[i as int][j as int]));
            let ghost hb = *heap;
            let v = csv_cell_value(heap, t);
            proof {
                lemma_grows_trans(hr, hb, *heap);
                lemma_grows_trans(h0, hr, hb);
                lemma_grows_trans(h0, hb, *heap);
                assert forall|b: int| 0 <= b < j implies csv_cell(h0, *heap, #[trigger] row@[b], recs[i as int][b]) by {
                    lemma_cell_grows(h0, hb, *heap, row@[b], recs[i as int][b]);
                }
                if parsed_int(t@) is None && t@.len() != 0 {
                    assert(!hb.live().dom().contains(v->Obj_0.0 as int));
                    assert(!h0.live().dom().contains(v->Obj_0.0 as int));
                }
            }
            row.push(v);
            j = j + 1;
        }
        let ghost before_push = rows@.map_values(|v: Vec<Value>| v@);
        proof {
            lemma_grows_trans(h0, hr, *heap);
            assert forall|a: int, b: int| 0 <= a < before_push.len() && 0 <= b < before_push[a].len()
                implies csv_cell(h0, *heap, #[trigger] before_push[a][b], recs[a][b]) by {
                assert(recs.take(i as int)[a] == recs[a]);
                assert(csv_cell(h0, hr, before_push[a][b], recs.take(i as int)[a][b]));
                lemma_cell_grows(h0, hr, *heap, before_push[a][b], recs[a][b]);
            }
        }
        rows.push(row);
        proof {
            let rv = rows@.map_values(|v: Vec<Value>| v@);
            assert(rv =~= before_push.push(row@));
            assert(recs.take(i + 1) =~= recs.take(i as int).push(recs[i as int]));
            assert forall|a: int, b: int| 0 <= a < rv.len() && 0 <= b < rv[a].len()
                implies csv_cell(h0, *heap, #[trigger] rv[a][b], recs.take(i + 1)[a][b]) by {
                if a < i {
                    assert(rv[a] == before_push[a]);
                } else {
                    assert(rv[a] == row@);
                }
            }
        }
        i = i + 1;
    }
    proof {
        assert(recs.take(i as int) =~= recs);
    }
    let ghost hm = *heap;
    let ghost rv = rows@.map_values(|v: Vec<Value>| v@);
    let r = create_frame(heap, headers, rows);
    proof {
        lemma_new_frame_earlier(h0, hm, *heap, r, texts(headers@), rv);
        assert forall|a: int, b: int| 0 <= a < rv.len() && 0 <= b < rv[a].len()
            implies csv_cell(h0, *heap, #[trigger] rv[a][b], recs[a][b]) by {
            lemma_cell_grows(h0, hm, *heap, rv[a][b], recs[a][b]);
        }
        assert(cells_hold(h0, *heap, rv, recs));
    }
    r
}

/// `df_from_csv(path)`, what comes before the file is read: the path.
pub fn csv_path(heap: &Heap, args: &[Value]) -> (r: PulseResult<String>)
    requires
        heap.wf(),
    ensures
        args@.len() != 1 ==> crate::value::is_runtime_error(r),
        args@.len() == 1 ==> match str_arg(*heap, args@[0]) {
            Some(t) => r matches Ok(s) && s@ == t,
            None => crate::value::is_runtime_error(r),
        },
{
    if args.len() != 1 {
        return Err(PulseError::RuntimeError(text("df_from_csv expects 1 argument: path")));
    }
    text_param(heap, args[0])
}

/// A JSON document as `serde_json` reads it: a number that fits `i64` is an
/// integer, any other number a float only the host can hold; an object's
/// members in the order its map gives them.
pub enum JsonValue {
    Null,
    Bool(bool),
    Int(i64),
    Float,
    Str(String),
    Arr(Vec<JsonValue>),
    Obj(Vec<(String, JsonValue)>),
}

#[verifier::external_type_specification]
#[verifier::external_body]
pub struct ExJsonTree(JsonTree);

/// The document `serde_json::from_str::<serde_json::Value>` reads from a
/// text, as a `JsonValue`; `None` where it reads none.
pub uninterp spec fn serde_json_value(text: Seq<char>) -> Option<JsonValue>;

/// `serde_json::from_str::<serde_json::Value>`, the document converted
/// node for node (`json_tree`). Claimed: the result is
/// `serde_json_value(text)`.
#[verifier::external_body]
fn parse_json_value(text: &str) -> (r: Option<JsonValue>)
    ensures
        r == serde_json_value(text@),
{
    serde_json::from_str::<JsonTree>(text).ok().map(|v| json_tree(&v))
}

/// A `serde_json::Value` as a `JsonValue`, variant by variant; a number is
/// an integer where `Number::as_i64` gives one. Nothing is claimed of it:
/// `parse_json_value` states what the conversion gives.
#[verifier::external_body]
fn json_tree(v: &JsonTree) -> JsonValue {
    match v {
        JsonTree::Null => JsonValue::Null,
        JsonTree::Bool(b) => JsonValue::Bool(*b),
        JsonTree::Number(n) => match n.as_i64() {
            Some(i) => JsonValue::Int(i),
            None => JsonValue::Float,
        },
        JsonTree::String(t) => JsonValue::Str(t.clone()),
        JsonTree::Array(a) => JsonValue::Arr(a.iter().map(json_tree).collect()),
        JsonTree::Object(m) => JsonValue::Obj(m.iter().map(|(k, x)| (k.clone(), json_tree(x))).collect()),
    }
}

/// The members of the objects among `items`, in order.
pub open spec fn objects_in(items: Seq<JsonValue>) -> Seq<Seq<(String, JsonValue)>>
    decreases items.len(),
{
    if items.len() == 0 {
        Seq::empty()
    } else {
        objects_in(items.drop_last()) + match items.last() {
            JsonValue::Obj(ps) => seq![ps@],
            _ => Seq::empty(),
        }
    }
}

/// Some object among `items` has a member named `k`.
pub open spec fn key_in(items: Seq<JsonValue>, k: Seq<char>) -> bool {
    exists|a: int, p: int| #![trigger items[a]->Obj_0@[p]] 0 <= a < items.len() && items[a] is Obj
        && 0 <= p < items[a]->Obj_0@.len() && items[a]->Obj_0@[p].0@ == k
}

/// `cols` names every member of the objects among `items`, each once, in
/// ascending order.
pub open spec fn json_columns(items: Seq<JsonValue>, cols: Seq<Seq<char>>) -> bool {
    &&& ascending(cols)
    &&& forall|k: Seq<char>| #[trigger] cols.contains(k) <==> key_in(items, k)
}

/// The value of the first member from `i` on named `k`.
pub open spec fn member_from(ps: Seq<(String, JsonValue)>, k: Seq<char>, i: int) -> Option<JsonValue>
    decreases ps.len() - i,
{
    if i < 0 || i >= ps.len() {
        None
    } else if ps[i].0@ == k {
        Some(ps[i].1)
    } else {
        member_from(ps, k, i + 1)
    }
}

/// A value only the host can hold in a cell: a float, a string that reads
/// only as a float, or a list with a float in it.
pub open spec fn float_value(j: JsonValue) -> bool {
    match j {
        JsonValue::Float => true,
        JsonValue::Str(t) => float_field(t@),
        JsonValue::Arr(es) => exists|e: int| 0 <= e < es@.len() && (#[trigger] es@[e]) is Float,
        _ => false,
    }
}

/// Some member of the objects among `items` is one only the host can hold.
pub open spec fn float_member(items: Seq<JsonValue>) -> bool {
    exists|a: int, p: int| #![trigger items[a]->Obj_0@[p]] 0 <= a < items.len() && items[a] is Obj
        && 0 <= p < items[a]->Obj_0@.len() && float_value(items[a]->Obj_0@[p].1)
}

/// An item of a list cell: its integer, a new string for a string, unit
/// for anything else.
pub open spec fn element_cell(h0: Heap, h1: Heap, v: Value, j: JsonValue) -> bool {
    match j {
        JsonValue::Int(i) => v == Value::Int(i),
        JsonValue::Str(t) => fresh_string(h0, h1, v, t@),
        JsonValue::Float => false,
        _ => v == Value::Unit,
    }
}

/// The cell for a member's value (none where the object has no such
/// member): null, an object or no member give unit; a string that reads as
/// an integer gives it, any other string a new string; a list gives a new
/// list of its items (see `element_cell`).
pub open spec fn json_cell(h0: Heap, h1: Heap, v: Value, j: Option<JsonValue>) -> bool {
    match j {
        Some(JsonValue::Bool(b)) => v == Value::Bool(b),
        Some(JsonValue::Int(i)) => v == Value::Int(i),
        Some(JsonValue::Float) => false,
        Some(JsonValue::Str(t)) => match parsed_int(t@) {
            Some(i) => v == Value::Int(i),
            None => fresh_string(h0, h1, v, t@),
        },
        Some(JsonValue::Arr(es)) => fresh_list(h0, h1, v) && list_of(h1, v)->Some_0.len() == es@.len()
            && forall|e: int| 0 <= e < es@.len() ==> element_cell(h0, h1, #[trigger] list_of(h1, v)->Some_0[e], es@[e]),
        _ => v == Value::Unit,
    }
}

/// Each row holds the cells of an object, column by column.
pub open spec fn json_rows_hold(h0: Heap, h1: Heap, rows: Seq<Seq<Value>>, objs: Seq<Seq<(String, JsonValue)>>, cols: Seq<Seq<char>>) -> bool {
    &&& rows.len() == objs.len()
    &&& forall|i: int| 0 <= i < rows.len() ==> (#[trigger] rows[i]).len() == cols.len()
    &&& forall|i: int, c: int| 0 <= i < rows.len() && 0 <= c < cols.len()
        ==> json_cell(h0, h1, #[trigger] rows[i][c], member_from(objs[i], cols[c], 0))
}

/// The frame `df_from_json` makes of what `serde_json` read: text it reads
/// nothing from and a document that is no list are runtime errors; a list
/// with a member only the host can hold needs the host; otherwise a new
/// frame whose columns are the member names of the list's objects, sorted,
/// with a row for each object (items that are no object are skipped).
pub open spec fn json_frame(h0: Heap, h1: Heap, r: PulseResult<Value>, doc: Option<JsonValue>) -> bool {
    match doc {
        Some(JsonValue::Arr(items)) => if float_member(items@) {
            crate::value::is_float_host(r) && h1 == h0
        } else {
            exists|cols: Seq<Seq<char>>, rows: Seq<Seq<Value>>| json_columns(items@, cols)
                && #[trigger] json_rows_hold(h0, h1, rows, objects_in(items@), cols) && new_frame(h0, h1, r, cols, rows)
        },
        _ => crate::value::is_runtime_error(r) && h1 == h0,
    }
}

fn is_float_value(j: &JsonValue) -> (b: bool)
    ensures
        b == float_value(*j),
{
    match j {
        JsonValue::Float => true,
        JsonValue::Str(t) => {
            if parse_i64(t.as_str()).is_some() {
                false
            } else {
                let cs = chars_of(t.as_str());
                crate::utils::is_float_text(cs.as_slice())
            }
        },
        JsonValue::Arr(es) => {
            assert(j->Arr_0 == *es);
            let mut e: usize = 0;
            while e < es.len()
                invariant
                    *j is Arr,
                    j->Arr_0 == *es,
                    e <= es@.len(),
                    forall|x: int| 0 <= x < e ==> !((#[trigger] es@[x]) is Float),
                decreases es@.len() - e,
            {
                if matches!(es[e], JsonValue::Float) {
                    assert((es@[e as int]) is Float);
                    return true;
                }
                e = e + 1;
            }
            false
        },
        _ => false,
    }
}

/// Whether some member of the objects among `items` is one only the host
/// can hold.
fn any_float_member(items: &Vec<JsonValue>) -> (b: bool)
    ensures
        b == float_member(items@),
{
    let mut a: usize = 0;
    while a < items.len()
        invariant
            a <= items@.len(),
            forall|x: int, p: int| #![trigger items@[x]->Obj_0@[p]] 0 <= x < a && items@[x] is Obj
                && 0 <= p < items@[x]->Obj_0@.len() ==> !float_value(items@[x]->Obj_0@[p].1),
        decreases items@.len() - a,
    {
        match &items[a] {
            JsonValue::Obj(ps) => {
                let mut p: usize = 0;
                while p < ps.len()
                    invariant
                        a < items@.len(),
                        items@[a as int] == JsonValue::Obj(*ps),
                        p <= ps@.len(),
                        forall|x: int, q: int| #![trigger items@[x]->Obj_0@[q]] 0 <= x < a && items@[x] is Obj
                            && 0 <= q < items@[x]->Obj_0@.len() ==> !float_value(items@[x]->Obj_0@[q].1),
                        forall|q: int| 0 <= q < p ==> !float_value((#[trigger] ps@[q]).1),
                    decreases ps@.len() - p,
                {
                    if is_float_value(&ps[p].1) {
                        assert(float_value(items@[a as int]->Obj_0@[p as int].1));
                        return true;
                    }
                    p = p + 1;
                }
            },
            _ => {},
        }
        a = a + 1;
    }
    false
}

/// Puts `x` among the ascending names `cols`, unless it is there.
fn insert_name(cols: &mut Vec<String>, x: String)
    requires
        ascending(texts(old(cols)@)),
    ensures
        ascending(texts(final(cols)@)),
        forall|k: Seq<char>| #[trigger] texts(final(cols)@).contains(k) <==> texts(old(cols)@).contains(k) || k == x@,
{
    let ghost ov = texts(cols@);
    let mut q: usize = 0;
    while q < cols.len() && !str_less(x.as_str(), cols[q].as_str())
        invariant
            ov == texts(cols@),
            q <= cols@.len(),
            forall|a: int| 0 <= a < q ==> !chars_lt(x@, #[trigger] ov[a]),
        decreases cols@.len() - q,
    {
        q = q + 1;
    }
    if q > 0 && crate::namemap::str_equal(cols[q - 1].as_str(), x.as_str()) {
        assert(ov[q - 1] == x@);
        assert forall|k: Seq<char>| #[trigger] texts(cols@).contains(k) <==> ov.contains(k) || k == x@ by {
            if k == x@ {
                assert(ov[q - 1] == k);
            }
        }
        return;
    }
    proof {
        reveal(ascending);
        assert(q > 0 ==> ov[q - 1] != x@);
        assert forall|a: int| 0 <= a < q implies chars_lt(#[trigger] ov[a], x@) by {
            assert(!chars_lt(x@, ov[q - 1]));
            lemma_chars_lt_total(ov[q - 1], x@);
            if a < q - 1 {
                assert(chars_lt(ov[a], ov[q - 1]));
                lemma_chars_lt_transitive(ov[a], ov[q - 1], x@);
            }
        }
        lemma_insert_ascending(ov, x@, q as int);
    }
    let ghost xv = x@;
    cols.insert(q, x);
    proof {
        assert(texts(cols@) =~= ov.insert(q as int, xv));
        assert forall|k: Seq<char>| #[trigger] texts(cols@).contains(k) <==> ov.contains(k) || k == xv by {
            let n = ov.insert(q as int, xv);
            if n.contains(k) {
                let a = choose|a: int| 0 <= a < n.len() && n[a] == k;
                if a < q { assert(ov[a] == k); } else if a > q { assert(ov[a - 1] == k); }
            }
            if ov.contains(k) {
                let a = choose|a: int| 0 <= a < ov.len() && ov[a] == k;
                if a < q { assert(n[a] == k); } else { assert(n[a + 1] == k); }
            }
            if k == xv {
                assert(n[q as int] == k);
            }
        }
    }
}

/// The member names of the objects among `items`, each once, ascending.
fn column_names(items: &Vec<JsonValue>) -> (cols: Vec<String>)
    ensures
        json_columns(items@, texts(cols@)),
{
    let mut cols: Vec<String> = Vec::new();
    proof {
        reveal(ascending);
        assert forall|k: Seq<char>| #[trigger] texts(cols@).contains(k) <==> key_in(items@.take(0), k) by {
            if texts(cols@).contains(k) {
                let a = choose|a: int| 0 <= a < texts(cols@).len() && texts(cols@)[a] == k;
            }
        }
    }
    let mut a: usize = 0;
    while a < items.len()
        invariant
            a <= items@.len(),
            ascending(texts(cols@)),
            forall|k: Seq<char>| #[trigger] texts(cols@).contains(k) <==> key_in(items@.take(a as int), k),
        decreases items@.len() - a,
    {
        let ghost before = texts(cols@);
        match &items[a] {
            JsonValue::Obj(ps) => {
                let mut p: usize = 0;
                while p < ps.len()
                    invariant
                        a < items@.len(),
                        items@[a as int] == JsonValue::Obj(*ps),
                        p <= ps@.len(),
                        ascending(texts(cols@)),
                        forall|k: Seq<char>| #[trigger] texts(cols@).contains(k) <==> before.contains(k)
                            || exists|q: int| 0 <= q < p && (#[trigger] ps@[q]).0@ == k,
                    decreases ps@.len() - p,
                {
                    let ghost c0 = texts(cols@);
                    insert_name(&mut cols, ps[p].0.clone());
                    proof {
                        assert forall|k: Seq<char>| #[trigger] texts(cols@).contains(k) <==> before.contains(k)
                            || exists|q: int| 0 <= q < p + 1 && (#[trigger] ps@[q]).0@ == k by {
                            if exists|q: int| 0 <= q < p + 1 && (#[trigger] ps@[q]).0@ == k {
                                let q = choose|q: int| 0 <= q < p + 1 && (#[trigger] ps@[q]).0@ == k;
                                if q < p {
                                    assert(c0.contains(k));
                                }
                            }
                            if c0.contains(k) && !before.contains(k) {
                                let q = choose|q: int| 0 <= q < p && (#[trigger] ps@[q]).0@ == k;
                                assert(0 <= q < p + 1 && ps@[q].0@ == k);
                            }
                        }
                    }
                    p = p + 1;
                }
                proof {
                    assert forall|k: Seq<char>| #[trigger] texts(cols@).contains(k) <==> key_in(items@.take(a + 1), k) by {
                        let t0 = items@.take(a as int);
                        let t1 = items@.take(a + 1);
                        if key_in(t1, k) {
                            let (x, q) = choose|x: int, q: int| #![trigger t1[x]->Obj_0@[q]] 0 <= x < t1.len() && t1[x] is Obj
                                && 0 <= q < t1[x]->Obj_0@.len() && t1[x]->Obj_0@[q].0@ == k;
                            if x < a {
                                assert(t0[x] == t1[x]);
                                assert(key_in(t0, k));
                            } else {
                                assert(ps@[q].0@ == k);
                            }
                        }
                        if before.contains(k) {
                            let (x, q) = choose|x: int, q: int| #![trigger t0[x]->Obj_0@[q]] 0 <= x < t0.len() && t0[x] is Obj
                                && 0 <= q < t0[x]->Obj_0@.len() && t0[x]->Obj_0@[q].0@ == k;
                            assert(t1[x] == t0[x]);
                            assert(t1[x]->Obj_0@[q].0@ == k);
                        }
                        if exists|q: int| 0 <= q < ps@.len() && (#[trigger] ps@[q]).0@ == k {
                            let q = choose|q: int| 0 <= q < ps@.len() && (#[trigger] ps@[q]).0@ == k;
                            assert(t1[a as int] == items@[a as int]);
                            assert(t1[a as int]->Obj_0@[q].0@ == k);
                        }
                    }
                }
            },
            _ => {
                proof {
                    assert forall|k: Seq<char>| #[trigger] texts(cols@).contains(k) <==> key_in(items@.take(a + 1), k) by {
                        let t0 = items@.take(a as int);
                        let t1 = items@.take(a + 1);
                        if key_in(t1, k) {
                            let (x, q) = choose|x: int, q: int| #![trigger t1[x]->Obj_0@[q]] 0 <= x < t1.len() && t1[x] is Obj
                                && 0 <= q < t1[x]->Obj_0@.len() && t1[x]->Obj_0@[q].0@ == k;
                            assert(x != a);
                            assert(t0[x] == t1[x]);
                            assert(key_in(t0, k));
                        }
                        if key_in(t0, k) {
                            let (x, q) = choose|x: int, q: int| #![trigger t0[x]->Obj_0@[q]] 0 <= x < t0.len() && t0[x] is Obj
                                && 0 <= q < t0[x]->Obj_0@.len() && t0[x]->Obj_0@[q].0@ == k;
                            assert(t1[x] == t0[x]);
                            assert(t1[x]->Obj_0@[q].0@ == k);
                        }
                    }
                }
            },
        }
        a = a + 1;
    }
    proof {
        assert(items@.take(a as int) =~= items@);
    }
    cols
}

/// Where the first member named `k` is.
fn find_member(ps: &Vec<(String, JsonValue)>, k: &String) -> (r: Option<usize>)
    ensures
        match r {
            Some(i) => i < ps@.len() && member_from(ps@, k@, 0) == Some(ps@[i as int].1),
            None => member_from(ps@, k@, 0) is None,
        },
{
    let mut i: usize = 0;
    while i < ps.len()
        invariant
            i <= ps@.len(),
            member_from(ps@, k@, i as int) == member_from(ps@, k@, 0),
        decreases ps@.len() - i,
    {
        if crate::namemap::str_equal(ps[i].0.as_str(), k.as_str()) {
            return Some(i);
        }
        i = i + 1;
    }
    None
}

proof fn lemma_element_grows(h0: Heap, h1: Heap, h2: Heap, v: Value, j: JsonValue)
    requires
        element_cell(h0, h1, v, j),
        grows(h1, h2),
    ensures
        element_cell(h0, h2, v, j),
{
    if j is Str {
        let x = v->Obj_0;
        assert(h1.live().dom().contains(x.0 as int));
        assert(h2.live()[x.0 as int] == h1.live()[x.0 as int]);
        assert(heap_string(h2, x) == heap_string(h1, x));
    }
}

proof fn lemma_json_cell_grows(h0: Heap, h1: Heap, h2: Heap, v: Value, j: Option<JsonValue>)
    requires
        json_cell(h0, h1, v, j),
        grows(h1, h2),
    ensures
        json_cell(h0, h2, v, j),
{
    match j {
        Some(JsonValue::Str(t)) => {
            if parsed_int(t@) is None {
                let x = v->Obj_0;
                assert(h1.live().dom().contains(x.0 as int));
                assert(h2.live()[x.0 as int] == h1.live()[x.0 as int]);
                assert(heap_string(h2, x) == heap_string(h1, x));
            }
        },
        Some(JsonValue::Arr(es)) => {
            let x = v->Obj_0;
            assert(h1.live().dom().contains(x.0 as int));
            assert(h2.live()[x.0 as int] == h1.live()[x.0 as int]);
            let l = list_of(h1, v)->Some_0;
            assert(list_of(h2, v) == list_of(h1, v));
            assert forall|e: int| 0 <= e < es@.len() implies element_cell(h0, h2, #[trigger] l[e], es@[e]) by {
                lemma_element_grows(h0, h1, h2, l[e], es@[e]);
            }
        },
        _ => {},
    }
}

/// The item of a list cell for `e`, which is no float.
fn element_value(heap: &mut Heap, e: &JsonValue) -> (v: Value)
    requires
        ready(*old(heap)),
        !(*e is Float),
    ensures
        ready(*final(heap)),
        grows(*old(heap), *final(heap)),
        element_cell(*old(heap), *final(heap), v, *e),
{
    match e {
        JsonValue::Int(i) => Value::Int(*i),
        JsonValue::Str(t) => new_text(heap, t.clone()),
        _ => Value::Unit,
    }
}

/// The cell for a member's value `j`, which the host is not needed for.
fn cell_value(heap: &mut Heap, j: &JsonValue) -> (v: Value)
    requires
        ready(*old(heap)),
        !float_value(*j),
    ensures
        ready(*final(heap)),
        grows(*old(heap), *final(heap)),
        json_cell(*old(heap), *final(heap), v, Some(*j)),
{
    match j {
        JsonValue::Bool(b) => Value::Bool(*b),
        JsonValue::Int(i) => Value::Int(*i),
        JsonValue::Str(t) => match parse_i64(t.as_str()) {
            Some(i) => Value::Int(i),
            None => new_text(heap, t.clone()),
        },
        JsonValue::Arr(es) => {
            let ghost h0 = *heap;
            let mut out: Vec<Value> = Vec::new();
            let mut e: usize = 0;
            while e < es.len()
                invariant
                    *j is Arr,
                    j->Arr_0 == *es,
                    !float_value(*j),
                    ready(*heap),
                    grows(h0, *heap),
                    e <= es@.len(),
                    out@.len() == e,
                    forall|x: int| 0 <= x < e ==> element_cell(h0, *heap, #[trigger] out@[x], es@[x]),
                decreases es@.len() - e,
            {
                let ghost hb = *heap;
                assert(!(es@[e as int] is Float));
                let v = element_value(heap, &es[e]);
                proof {
                    lemma_grows_trans(h0, hb, *heap);
                    assert forall|x: int| 0 <= x < e implies element_cell(h0, *heap, #[trigger] out@[x], es@[x]) by {
                        lemma_element_grows(h0, hb, *heap, out@[x], es@[x]);
                    }
                    if es@[e as int] is Str {
                        assert(!h0.live().dom().contains(v->Obj_0.0 as int));
                    }
                }
                out.push(v);
                e = e + 1;
            }
            let ghost hl = *heap;
            let ghost ov = out@;
            let x = heap.allocate(Object::List(out));
            proof {
                lemma_grows_trans(h0, hl, *heap);
                assert(list_of(*heap, Value::Obj(x)) == Some(ov));
                assert forall|y: int| 0 <= y < es@.len() implies element_cell(h0, *heap, #[trigger] ov[y], es@[y]) by {
                    lemma_element_grows(h0, hl, *heap, ov[y], es@[y]);
                }
            }
            Value::Obj(x)
        },
        _ => Value::Unit,
    }
}

proof fn lemma_objects_step(items: Seq<JsonValue>, i: int)
    requires
        0 <= i < items.len(),
    ensures
        objects_in(items.take(i + 1)) == objects_in(items.take(i)) + match items[i] {
            JsonValue::Obj(ps) => seq![ps@],
            _ => Seq::empty(),
        },
{
    assert(items.take(i + 1).drop_last() =~= items.take(i));
    assert(items.take(i + 1).last() == items[i]);
}

/// The row of cells for the object with members `ps`, column by column.
fn object_row(heap: &mut Heap, ps: &Vec<(String, JsonValue)>, cols: &Vec<String>, Ghost(items): Ghost<Seq<JsonValue>>) -> (row: Vec<Value>)
    requires
        ready(*old(heap)),
        !float_member(items),
        exists|a: int| 0 <= a < items.len() && items[a] == JsonValue::Obj(*ps),
    ensures
        ready(*final(heap)),
        grows(*old(heap), *final(heap)),
        row@.len() == cols@.len(),
        forall|c: int| 0 <= c < cols@.len() ==> json_cell(*old(heap), *final(heap), #[trigger] row@[c], member_from(ps@, cols@[c]@, 0)),
{
    let ghost h0 = *heap;
    let ghost a = choose|a: int| 0 <= a < items.len() && items[a] == JsonValue::Obj(*ps);
    let mut row: Vec<Value> = Vec::new();
    let mut c: usize = 0;
    while c < cols.len()
        invariant
            0 <= a < items.len(),
            items[a] == JsonValue::Obj(*ps),
            !float_member(items),
            ready(*heap),
            grows(h0, *heap),
            c <= cols@.len(),
            row@.len() == c,
            forall|x: int| 0 <= x < c ==> json_cell(h0, *heap, #[trigger] row@[x], member_from(ps@, cols@[x]@, 0)),
        decreases cols@.len() - c,
    {
        let ghost hb = *heap;
        let v = match find_member(ps, &cols[c]) {
            Some(i) => {
                proof {
                    assert(items[a]->Obj_0@[i as int] == ps@[i as int]);
                    assert(!float_value(items[a]->Obj_0@[i as int].1));
                }
                cell_value(heap, &ps[i].1)
            },
            None => Value::Unit,
        };
        proof {
            lemma_grows_trans(h0, hb, *heap);
            assert forall|x: int| 0 <= x < c implies json_cell(h0, *heap, #[trigger] row@[x], member_from(ps@, cols@[x]@, 0)) by {
                lemma_json_cell_grows(h0, hb, *heap, row@[x], member_from(ps@, cols@[x]@, 0));
            }
            let m = member_from(ps@, cols@[c as int]@, 0);
            match m {
                Some(JsonValue::Str(t)) => {
                    if parsed_int(t@) is None {
                        assert(!h0.live().dom().contains(v->Obj_0.0 as int));
                    }
                },
                Some(JsonValue::Arr(_)) => {
                    assert(!h0.live().dom().contains(v->Obj_0.0 as int));
                },
                _ => {},
            }
        }
        row.push(v);
        c = c + 1;
    }
    row
}

/// The frame of a document `serde_json` read (see `json_frame`).
pub fn frame_from_json(heap: &mut Heap, doc: &Option<JsonValue>) -> (r: PulseResult<Value>)
    requires
        ready(*old(heap)),
    ensures
        ready(*final(heap)),
        json_frame(*old(heap), *final(heap), r, *doc),
{
    let items = match doc {
        Some(JsonValue::Arr(items)) => items,
        Some(_) => {
            return Err(PulseError::RuntimeError(text("JSON must be an array of objects")));
        },
        None => {
            return Err(PulseError::RuntimeError(text("Invalid JSON")));
        },
    };
    if any_float_member(items) {
        return Err(PulseError::NeedsFloatHost);
    }
    let cols = column_names(items);
    let ghost h0 = *heap;
    let ghost is = items@;
    let ghost cv = texts(cols@);
    let mut rows: Vec<Vec<Value>> = Vec::new();
    let mut a: usize = 0;
    while a < items.len()
        invariant
            is == items@,
            cv == texts(cols@),
            !float_member(is),
            ready(*heap),
            grows(h0, *heap),
            a <= is.len(),
            json_rows_hold(h0, *heap, rows@.map_values(|v: Vec<Value>| v@), objects_in(is.take(a as int)), cv),
        decreases is.len() - a,
    {
        proof { lemma_objects_step(is, a as int); }
        match &items[a] {
            JsonValue::Obj(ps) => {
                let ghost hb = *heap;
                let ghost before = rows@.map_values(|v: Vec<Value>| v@);
                let ghost objs0 = objects_in(is.take(a as int));
                let row = object_row(heap, ps, &cols, Ghost(is));
                proof {
                    lemma_grows_trans(h0, hb, *heap);
                    assert forall|i: int, c: int| 0 <= i < before.len() && 0 <= c < cv.len()
                        implies json_cell(h0, *heap, #[trigger] before[i][c], member_from(objs0[i], cv[c], 0)) by {
                        lemma_json_cell_grows(h0, hb, *heap, before[i][c], member_from(objs0[i], cv[c], 0));
                    }
                    assert forall|c: int| 0 <= c < cv.len() implies json_cell(h0, *heap, #[trigger] row@[c], member_from(ps@, cv[c], 0)) by {
                        assert(cv[c] == cols@[c]@);
                        let m = member_from(ps@, cv[c], 0);
                        match m {
                            Some(JsonValue::Str(t)) => {
                                if parsed_int(t@) is None {
                                    assert(!hb.live().dom().contains(row@[c]->Obj_0.0 as int));
                                }
                            },
                            Some(JsonValue::Arr(es)) => {
                                assert(!hb.live().dom().contains(row@[c]->Obj_0.0 as int));
                                let l = list_of(*heap, row@[c])->Some_0;
                                assert forall|e: int| 0 <= e < es@.len() implies element_cell(h0, *heap, #[trigger] l[e], es@[e]) by {
                                    if es@[e] is Str {
                                        assert(!hb.live().dom().contains(l[e]->Obj_0.0 as int));
                                    }
                                }
                            },
                            _ => {},
                        }
                    }
                }
                rows.push(row);
                proof {
                    let rv = rows@.map_values(|v: Vec<Value>| v@);
                    assert(rv =~= before.push(row@));
                    let objs1 = objects_in(is.take(a + 1));
                    assert(objs1 =~= objs0.push(ps@));
                    assert forall|i: int, c: int| 0 <= i < rv.len() && 0 <= c < cv.len()
                        implies json_cell(h0, *heap, #[trigger] rv[i][c], member_from(objs1[i], cv[c], 0)) by {
                        if i < before.len() {
                            assert(rv[i] == before[i]);
                            assert(objs1[i] == objs0[i]);
                        } else {
                            assert(rv[i] == row@);
                            assert(objs1[i] == ps@);
                        }
                    }
                    assert forall|i: int| 0 <= i < rv.len() implies (#[trigger] rv[i]).len() == cv.len() by {
                        if i < before.len() {
                            assert(rv[i] == before[i]);
                        }
                    }
                }
            },
            _ => {
                proof {
                    assert(objects_in(is.take(a + 1)) =~= objects_in(is.take(a as int)));
                }
            },
        }
        a = a + 1;
    }
    proof {
        assert(is.take(a as int) =~= is);
    }
    let ghost hm = *heap;
    let ghost rv = rows@.map_values(|v: Vec<Value>| v@);
    let r = create_frame(heap, cols, rows);
    proof {
        lemma_new_frame_earlier(h0, hm, *heap, r, cv, rv);
        assert forall|i: int, c: int| 0 <= i < rv.len() && 0 <= c < cv.len()
            implies json_cell(h0, *heap, #[trigger] rv[i][c], member_from(objects_in(is)[i], cv[c], 0)) by {
            lemma_json_cell_grows(h0, hm, *heap, rv[i][c], member_from(objects_in(is)[i], cv[c], 0));
        }
        assert(json_rows_hold(h0, *heap, rv, objects_in(is), cv));
    }
    r
}

/// `df_from_json(text)`: the frame of the JSON text (see `json_frame`),
/// which `serde_json` reads.
pub fn df_from_json_native(heap: &mut Heap, args: &[Value]) -> (r: PulseResult<Value>)
    requires
        ready(*old(heap)),
    ensures
        ready(*final(heap)),
        args@.len() != 1 ==> crate::value::is_runtime_error(r) && *final(heap) == *old(heap),
        args@.len() == 1 ==> match str_arg(*old(heap), args@[0]) {
            Some(t) => json_frame(*old(heap), *final(heap), r, serde_json_value(t)),
            None => crate::value::is_type_mismatch(r) && *final(heap) == *old(heap),
        },
{
    if args.len() != 1 {
        return Err(PulseError::RuntimeError(text("df_from_json expects 1 argument: json string")));
    }
    proof { heap.lemma_wf(); }
    let t = match args[0] {
        Value::Obj(x) => match heap.get(x) {
            Some(Object::String(s)) => s.clone(),
            _ => {
                return Err(PulseError::TypeMismatch { expected: text("string"), got: text("object") });
            },
        },
        _ => {
            return Err(PulseError::TypeMismatch { expected: text("string"), got: args[0].kind_name() });
        },
    };
    let doc = parse_json_value(t.as_str());
    frame_from_json(heap, &doc)
}


/// What `df_group_by` groups: the frame's columns and rows and the
/// position of the named column, when the arguments are a frame and the
/// name of one of its columns.
pub open spec fn group_column(h: Heap, args: Seq<Value>) -> Option<(Seq<Seq<char>>, Seq<Seq<Value>>, int)> {
    if args.len() != 2 {
        None
    } else {
        match (frame_of(h, args[0]), str_arg(h, args[1])) {
            (Some(f), Some(c)) => match position_of(f.0, c) {
                Some(p) => Some((f.0, f.1, p)),
                None => None,
            },
            _ => None,
        }
    }
}

/// `df_group_by` reads the grouped cell of every row.
pub open spec fn group_fits(h: Heap, args: Seq<Value>) -> bool {
    group_column(h, args) matches Some((_, rows, p)) ==> forall|i: int| 0 <= i < rows.len() ==> p < (#[trigger] rows[i]).len()
}

/// The rows whose key is `k`, in order; `keys[i]` is the key of row `i`.
pub open spec fn group_of(rows: Seq<Seq<Value>>, keys: Seq<Seq<char>>, k: Seq<char>) -> Seq<Seq<Value>>
    decreases rows.len(),
{
    if rows.len() == 0 {
        Seq::empty()
    } else {
        let g = group_of(rows.drop_last(), keys, k);
        if keys[rows.len() - 1] == k { g.push(rows.last()) } else { g }
    }
}

/// A frame stays what it is while the heap only grows.
proof fn lemma_frame_later(h1: Heap, h2: Heap, v: Value)
    requires
        frame_of(h1, v) is Some,
        grows(h1, h2),
    ensures
        frame_of(h2, v) == frame_of(h1, v),
{
    lemma_kept(h1, h2, v);
    let m = map_of(h1, v)->Some_0;
    let c = m@["columns"@];
    let d = m@["data"@];
    lemma_kept(h1, h2, c);
    lemma_kept(h1, h2, d);
    let cl = list_of(h1, c)->Some_0;
    let dl = list_of(h1, d)->Some_0;
    assert forall|i: int| 0 <= i < cl.len() implies #[trigger] str_arg(h2, cl[i]) == str_arg(h1, cl[i]) by {
        assert(str_arg(h1, cl[i]) is Some);
        lemma_kept(h1, h2, cl[i]);
    }
    assert forall|i: int| 0 <= i < dl.len() implies #[trigger] list_of(h2, dl[i]) == list_of(h1, dl[i]) by {
        assert(list_of(h1, dl[i]) is Some);
        lemma_kept(h1, h2, dl[i]);
    }
    assert(texts_of(h2, cl) =~= texts_of(h1, cl)) by {
        assert(texts_of(h1, cl) is Some);
        assert(Seq::new(cl.len(), |i: int| str_arg(h2, cl[i])->Some_0) =~= Seq::new(cl.len(), |i: int| str_arg(h1, cl[i])->Some_0));
    }
    assert(rows_in(h2, dl) =~= rows_in(h1, dl)) by {
        assert(rows_in(h1, dl) is Some);
        assert(Seq::new(dl.len(), |i: int| list_of(h2, dl[i])->Some_0) =~= Seq::new(dl.len(), |i: int| list_of(h1, dl[i])->Some_0));
    }
}

/// The frame and the grouped column's position; a runtime error, as
/// `df_group_by` gives it, when there are none.
fn group_param(heap: &Heap, args: &[Value]) -> (r: PulseResult<(Frame, usize)>)
    requires
        heap.wf(),
    ensures
        match group_column(*heap, args@) {
            Some((cols, rows, p)) => r matches Ok((f, q)) && f.names() == cols && f.cells() == rows && q == p,
            None => crate::value::is_runtime_error(r),
        },
{
    if args.len() != 2 {
        return Err(PulseError::RuntimeError(text("df_group_by expects 2 arguments")));
    }
    let f = frame_param(heap, args[0])?;
    let c = text_param(heap, args[1])?;
    match find_column(&f.columns, c.as_str()) {
        Some(p) => Ok((f, p)),
        None => {
            let mut msg = text("Column ");
            crate::text::push_str(&mut msg, c.as_str());
            crate::text::push_str(&mut msg, " not found");
            Err(PulseError::RuntimeError(msg))
        },
    }
}

/// Whether every row has the grouped cell, which `df_group_cells` reads.
pub fn df_group_fits(heap: &Heap, args: &[Value]) -> (r: bool)
    requires
        heap.wf(),
    ensures
        r == group_fits(*heap, args@),
{
    let (f, p) = match group_param(heap, args) {
        Ok(fp) => fp,
        Err(_) => {
            return true;
        },
    };
    let ghost rows = f.cells();
    assert(group_column(*heap, args@) == Some((f.names(), rows, p as int)));
    let mut i: usize = 0;
    while i < f.rows.len()
        invariant
            rows == f.cells(),
            group_column(*heap, args@) == Some((f.names(), rows, p as int)),
            i <= f.rows@.len(),
            forall|k: int| 0 <= k < i ==> p < (#[trigger] rows[k]).len(),
        decreases f.rows@.len() - i,
    {
        assert(rows[i as int] == f.rows@[i as int]@);
        if f.rows[i].len() <= p {
            assert(rows.len() == f.rows@.len());
            assert(rows[i as int].len() <= p);
            assert(!(forall|k: int| 0 <= k < rows.len() ==> p < (#[trigger] rows[k]).len()));
            assert(group_column(*heap, args@) matches Some((_, rs, q)) && rs == rows && q == p);
            assert(!group_fits(*heap, args@));
            return false;
        }
        i = i + 1;
    }
    true
}

/// The first step of `df_group_by(df, column)`: the cell of the grouped
/// column in each row, in order, which the host names by its debug text.
/// A wrong count of arguments, no frame, no string or no such column is a
/// runtime error.
pub fn df_group_cells(heap: &Heap, args: &[Value]) -> (r: PulseResult<Vec<Value>>)
    requires
        heap.wf(),
        group_fits(*heap, args@),
    ensures
        match group_column(*heap, args@) {
            Some((_, rows, p)) => r matches Ok(cells) && cells@ == rows.map_values(|row: Seq<Value>| row[p]),
            None => crate::value::is_runtime_error(r),
        },
{
    let (f, p) = group_param(heap, args)?;
    let ghost rows = f.cells();
    let mut cells: Vec<Value> = Vec::new();
    let mut i: usize = 0;
    while i < f.rows.len()
        invariant
            rows == f.cells(),
            forall|k: int| 0 <= k < rows.len() ==> p < (#[trigger] rows[k]).len(),
            i <= f.rows@.len(),
            cells@ == rows.subrange(0, i as int).map_values(|row: Seq<Value>| row[p as int]),
        decreases f.rows@.len() - i,
    {
        assert(rows[i as int] == f.rows@[i as int]@);
        cells.push(f.rows[i][p]);
        i = i + 1;
        assert(rows.subrange(0, i as int).map_values(|row: Seq<Value>| row[p as int]) =~= rows.subrange(0, i - 1).map_values(|row: Seq<Value>| row[p as int]).push(rows[i - 1][p as int]));
    }
    assert(rows.subrange(0, i as int) =~= rows);
    Ok(cells)
}

/// The rows of `rows` whose key is `k`, in order.
fn rows_with_key(rows: &Vec<Vec<Value>>, keys: &Vec<String>, k: &str) -> (g: Vec<Vec<Value>>)
    requires
        keys@.len() == rows@.len(),
    ensures
        g@.map_values(|row: Vec<Value>| row@) == group_of(rows@.map_values(|row: Vec<Value>| row@), keys@.map_values(|s: String| s@), k@),
{
    let ghost rv = rows@.map_values(|row: Vec<Value>| row@);
    let ghost kv = keys@.map_values(|s: String| s@);
    let mut g: Vec<Vec<Value>> = Vec::new();
    let mut i: usize = 0;
    while i < rows.len()
        invariant
            rv == rows@.map_values(|row: Vec<Value>| row@),
            kv == keys@.map_values(|s: String| s@),
            keys@.len() == rows@.len(),
            i <= rows@.len(),
            g@.map_values(|row: Vec<Value>| row@) == group_of(rv.subrange(0, i as int), kv, k@),
        decreases rows@.len() - i,
    {
        let ghost before = g@.map_values(|row: Vec<Value>| row@);
        let same = crate::namemap::str_equal(keys[i].as_str(), k);
        if same {
            g.push(rows[i].clone());
            assert(g@.map_values(|row: Vec<Value>| row@) =~= before.push(rv[i as int]));
        }
        i = i + 1;
        assert(rv.subrange(0, i as int).drop_last() =~= rv.subrange(0, i - 1));
        assert(kv[i - 1] == keys@[i - 1]@);
    }
    assert(rv.subrange(0, i as int) =~= rv);
    g
}

/// `df_group_by(df, column)`, once the host has named each row's grouped
/// cell (`keys`, one per row, by `df_group_cells`): a new map from each
/// key to a new frame with the frame's columns and the rows of that key,
/// in their order. Errors as `df_group_cells`, the heap unchanged.
pub fn df_group_by_native(heap: &mut Heap, args: &[Value], keys: &Vec<String>) -> (r: PulseResult<Value>)
    requires
        ready(*old(heap)),
        group_column(*old(heap), args@) matches Some((_, rows, _)) ==> keys@.len() == rows.len(),
    ensures
        ready(*final(heap)),
        match group_column(*old(heap), args@) {
            Some((cols, rows, _)) => {
                let kv = keys@.map_values(|s: String| s@);
                &&& grows(*old(heap), *final(heap))
                &&& r matches Ok(Value::Obj(x))
                &&& !old(heap).live().dom().contains(x.0 as int)
                &&& map_of(*final(heap), Value::Obj(x)) matches Some(m) && {
                    &&& m@.dom() == kv.to_set()
                    &&& forall|k: Seq<char>| #[trigger] m@.dom().contains(k) ==> {
                        &&& m@[k] matches Value::Obj(y) && !old(heap).live().dom().contains(y.0 as int)
                        &&& frame_of(*final(heap), m@[k]) == Some((cols, group_of(rows, kv, k)))
                    }
                }
            },
            None => crate::value::is_runtime_error(r) && *final(heap) == *old(heap),
        },
{
    proof { heap.lemma_wf(); }
    let (f, _p) = group_param(heap, args)?;
    let ghost h0 = *heap;
    let ghost cols = f.names();
    let ghost rows = f.cells();
    let ghost kv = keys@.map_values(|s: String| s@);
    let mut out: NameMap<Value> = NameMap::new();
    let mut i: usize = 0;
    while i < keys.len()
        invariant
            ready(*heap),
            grows(h0, *heap),
            h0 == *old(heap),
            cols == f.names(),
            rows == f.cells(),
            kv == keys@.map_values(|s: String| s@),
            keys@.len() == rows.len(),
            i <= keys@.len(),
            out.wf(),
            forall|k: Seq<char>| #[trigger] out@.dom().contains(k) <==> exists|j: int| 0 <= j < i && kv[j] == k,
            forall|k: Seq<char>| #[trigger] out@.dom().contains(k) ==> {
                &&& out@[k] matches Value::Obj(y) && !h0.live().dom().contains(y.0 as int)
                &&& frame_of(*heap, out@[k]) == Some((cols, group_of(rows, kv, k)))
            },
        decreases keys@.len() - i,
    {
        assert(kv[i as int] == keys@[i as int]@);
        if !out.contains_key(keys[i].as_str()) {
            let g = rows_with_key(&f.rows, keys, keys[i].as_str());
            let ghost hp = *heap;
            let v = create_frame(heap, f.columns.clone(), g);
            let v = match v {
                Ok(v) => v,
                Err(e) => {
                    return Err(e);
                },
            };
            proof {
                lemma_grows_trans(h0, hp, *heap);
                assert forall|k: Seq<char>| #[trigger] out@.dom().contains(k) implies frame_of(*heap, out@[k]) == Some((cols, group_of(rows, kv, k))) by {
                    lemma_frame_later(hp, *heap, out@[k]);
                }
                if h0.live().dom().contains(v->Obj_0.0 as int) {
                    assert(hp.live().dom().contains(v->Obj_0.0 as int));
                }
            }
            out.insert(text(keys[i].as_str()), v);
        }
        i = i + 1;
        proof {
            assert forall|k: Seq<char>| #[trigger] out@.dom().contains(k) <==> exists|j: int| 0 <= j < i && kv[j] == k by {
                if out@.dom().contains(k) && k != kv[i - 1] {
                    assert(exists|j: int| 0 <= j < i - 1 && kv[j] == k);
                }
                if exists|j: int| 0 <= j < i && kv[j] == k {
                    let j = choose|j: int| 0 <= j < i && kv[j] == k;
                    if j < i - 1 {
                        assert(exists|j2: int| 0 <= j2 < i - 1 && kv[j2] == k);
                    }
                }
            }
        }
    }
    let ghost hq = *heap;
    let ghost ov = out@;
    let x = heap.allocate(Object::Dict(out));
    proof {
        lemma_grows_trans(h0, hq, *heap);
        assert(ov.dom() =~= kv.to_set()) by {
            assert forall|k: Seq<char>| ov.dom().contains(k) <==> kv.to_set().contains(k) by {
                if kv.contains(k) {
                    let j = choose|j: int| 0 <= j < kv.len() && kv[j] == k;
                    assert(exists|j2: int| 0 <= j2 < i && kv[j2] == k);
                }
            }
        }
        assert forall|k: Seq<char>| #[trigger] ov.dom().contains(k) implies frame_of(*heap, ov[k]) == Some((cols, group_of(rows, kv, k))) by {
            lemma_frame_later(hq, *heap, ov[k]);
        }
        if h0.live().dom().contains(x.0 as int) {
            assert(hq.live().dom().contains(x.0 as int));
        }
    }
    Ok(Value::Obj(x))
}


/// The rows kept are those the test keeps, in their order.
proof fn lemma_kept_is_filter(h: Heap, rows: Seq<Seq<Value>>, p: int, op: Seq<char>, value: Value, keep: spec_fn(Seq<Value>) -> bool)
    requires
        forall|i: int| 0 <= i < rows.len() ==> keeps_row(h, op, (#[trigger] rows[i])[p], value) == Some(keep(rows[i])),
    ensures
        kept_rows(h, rows, p, op, value) == Some(rows.filter(keep)),
    decreases rows.len(),
{
    reveal(Seq::filter);
    if rows.len() > 0 {
        let a = rows.drop_last();
        assert forall|i: int| 0 <= i < a.len() implies keeps_row(h, op, (#[trigger] a[i])[p], value) == Some(keep(a[i])) by {
            assert(a[i] == rows[i]);
        }
        lemma_kept_is_filter(h, a, p, op, value, keep);
        assert(keeps_row(h, op, rows[rows.len() - 1][p], value) == Some(keep(rows[rows.len() - 1])));
        assert(rows.last() == rows[rows.len() - 1]);
    }
}

/// How `df_filter` compares an integer cell `a` with an integer value `b`
/// (both within 2^53 of zero, where the comparison is exact): `==` keeps
/// the row when `a == b`, `!=` when `a != b`, `>` when `a > b`, `<` when
/// `a < b`, `>=` when `a >= b` and `<=` when `a <= b`; and a frame whose
/// tested cells are all such integers keeps exactly those rows, in order.
pub proof fn law_filter_compares_integers(h: Heap, rows: Seq<Seq<Value>>, p: int, a: i64, b: i64)
    requires
        -0x20000000000000 <= a <= 0x20000000000000,
        -0x20000000000000 <= b <= 0x20000000000000,
        forall|i: int| 0 <= i < rows.len() ==> ((#[trigger] rows[i])[p] matches Value::Int(c)
            && -0x20000000000000 <= c <= 0x20000000000000),
    ensures
        keeps_row(h, "=="@, Value::Int(a), Value::Int(b)) == Some(a == b),
        keeps_row(h, "!="@, Value::Int(a), Value::Int(b)) == Some(a != b),
        keeps_row(h, ">"@, Value::Int(a), Value::Int(b)) == Some(a > b),
        keeps_row(h, "<"@, Value::Int(a), Value::Int(b)) == Some(a < b),
        keeps_row(h, ">="@, Value::Int(a), Value::Int(b)) == Some(a >= b),
        keeps_row(h, "<="@, Value::Int(a), Value::Int(b)) == Some(a <= b),
        kept_rows(h, rows, p, ">="@, Value::Int(b)) == Some(rows.filter(|row: Seq<Value>| row[p]->Int_0 >= b)),
        kept_rows(h, rows, p, "<="@, Value::Int(b)) == Some(rows.filter(|row: Seq<Value>| row[p]->Int_0 <= b)),
        kept_rows(h, rows, p, ">"@, Value::Int(b)) == Some(rows.filter(|row: Seq<Value>| row[p]->Int_0 > b)),
        kept_rows(h, rows, p, "<"@, Value::Int(b)) == Some(rows.filter(|row: Seq<Value>| row[p]->Int_0 < b)),
        kept_rows(h, rows, p, "=="@, Value::Int(b)) == Some(rows.filter(|row: Seq<Value>| row[p]->Int_0 == b)),
        kept_rows(h, rows, p, "!="@, Value::Int(b)) == Some(rows.filter(|row: Seq<Value>| row[p]->Int_0 != b)),
{
    reveal_strlit("==");
    reveal_strlit("!=");
    reveal_strlit(">");
    reveal_strlit("<");
    reveal_strlit(">=");
    reveal_strlit("<=");
    assert("=="@[0] == '=' && "!="@[0] == '!' && ">"@[0] == '>' && "<"@[0] == '<' && ">="@[0] == '>' && "<="@[0] == '<');
    assert("=="@.len() == 2 && "!="@.len() == 2 && ">"@.len() == 1 && "<"@.len() == 1 && ">="@.len() == 2 && "<="@.len() == 2);
    assert("=="@ != "!="@ && "=="@ != ">"@ && "=="@ != "<"@ && "=="@ != ">="@ && "=="@ != "<="@);
    assert("!="@ != ">"@ && "!="@ != "<"@ && "!="@ != ">="@ && "!="@ != "<="@);
    assert(">"@ != "<"@ && ">"@ != ">="@ && ">"@ != "<="@ && "<"@ != ">="@ && "<"@ != "<="@ && ">="@ != "<="@);
    assert forall|i: int| 0 <= i < rows.len() implies {
        &&& keeps_row(h, ">="@, (#[trigger] rows[i])[p], Value::Int(b)) == Some(rows[i][p]->Int_0 >= b)
        &&& keeps_row(h, "<="@, rows[i][p], Value::Int(b)) == Some(rows[i][p]->Int_0 <= b)
        &&& keeps_row(h, ">"@, rows[i][p], Value::Int(b)) == Some(rows[i][p]->Int_0 > b)
        &&& keeps_row(h, "<"@, rows[i][p], Value::Int(b)) == Some(rows[i][p]->Int_0 < b)
        &&& keeps_row(h, "=="@, rows[i][p], Value::Int(b)) == Some(rows[i][p]->Int_0 == b)
        &&& keeps_row(h, "!="@, rows[i][p], Value::Int(b)) == Some(rows[i][p]->Int_0 != b)
    } by {
        assert(rows[i][p] is Int);
    }
    lemma_kept_is_filter(h, rows, p, ">="@, Value::Int(b), |row: Seq<Value>| row[p]->Int_0 >= b);
    lemma_kept_is_filter(h, rows, p, "<="@, Value::Int(b), |row: Seq<Value>| row[p]->Int_0 <= b);
    lemma_kept_is_filter(h, rows, p, ">"@, Value::Int(b), |row: Seq<Value>| row[p]->Int_0 > b);
    lemma_kept_is_filter(h, rows, p, "<"@, Value::Int(b), |row: Seq<Value>| row[p]->Int_0 < b);
    lemma_kept_is_filter(h, rows, p, "=="@, Value::Int(b), |row: Seq<Value>| row[p]->Int_0 == b);
    lemma_kept_is_filter(h, rows, p, "!="@, Value::Int(b), |row: Seq<Value>| row[p]->Int_0 != b);
}

/// The order `df_sort` puts rows in: keys ascending (or, descending,
/// falling) along the order, each row once, and rows with equal keys in
/// their original order.
pub proof fn law_sort_order(ks: Seq<int>, asc: bool, order: Seq<int>)
    requires
        sorted_order(ks, asc, order),
    ensures
        order.len() == ks.len(),
        forall|i: int, j: int| 0 <= i < j < order.len() ==> (if asc { ks[order[i]] <= ks[order[j]] } else { ks[order[i]] >= ks[order[j]] }),
        forall|i: int, j: int| 0 <= i < j < order.len() ==> order[i] != order[j],
        forall|i: int, j: int| 0 <= i < j < order.len() && ks[order[i]] == ks[order[j]] ==> order[i] < order[j],
{
    assert forall|i: int, j: int| 0 <= i < j < order.len() implies (if asc { ks[order[i]] <= ks[order[j]] } else { ks[order[i]] >= ks[order[j]] })
        && order[i] != order[j] && (ks[order[i]] == ks[order[j]] ==> order[i] < order[j]) by {
        assert(sorts_before(ks, asc, order[i], order[j]));
    }
}
} // verus!

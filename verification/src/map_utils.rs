//! Map and pairing natives of the utility library: keys, values and
//! entries, lookups, deletion and merging, enumerating and zipping lists,
//! and removing or counting items by their text.

use vstd::prelude::*;
use crate::value::{Value, PulseError, PulseResult, text};
use crate::object::Object;
use crate::heap::Heap;
use crate::namemap::NameMap;
use crate::utils::{ready, added, new_list, list_of, text_of, value_to_string, grows, put_back};
use crate::collections::{map_of, listing, listed, fresh_list_result, result_items};

verus! {

broadcast use vstd::std_specs::vec::group_vec_axioms;

/// The map a value refers to; anything else is a type mismatch.
fn map_param(heap: &Heap, v: Value) -> (r: PulseResult<Vec<(String, Value)>>)
    requires
        heap.wf(),
    ensures
        match map_of(*heap, v) {
            Some(m) => r matches Ok(es) && es@ == m.entries@,
            None => crate::value::is_type_mismatch(r),
        },
{
    match v {
        Value::Obj(x) => match heap.get(x) {
            Some(Object::Dict(m)) => Ok(m.copy().entries),
            _ => Err(PulseError::TypeMismatch { expected: text("map"), got: text("other") }),
        },
        _ => Err(PulseError::TypeMismatch { expected: text("map"), got: v.kind_name() }),
    }
}

/// The outcome of a native on one map argument: a runtime error for a
/// wrong argument count, a type mismatch when it is not a map, otherwise
/// `ok`.
pub open spec fn on_map(h0: Heap, h1: Heap, args: Seq<Value>, n: nat, r: PulseResult<Value>, ok: bool) -> bool {
    if args.len() != n {
        crate::value::is_runtime_error(r) && h1 == h0
    } else if map_of(h0, args[0]) is None {
        crate::value::is_type_mismatch(r) && h1 == h0
    } else {
        ok
    }
}

/// `map_keys(map)`: a new list of new strings holding the keys, in the
/// map's order.
pub fn map_keys_native(heap: &mut Heap, args: &[Value]) -> (r: PulseResult<Value>)
    requires
        ready(*old(heap)),
    ensures
        ready(*final(heap)),
        grows(*old(heap), *final(heap)),
        on_map(*old(heap), *final(heap), args@, 1, r,
            listed(*old(heap), *final(heap), r, map_of(*old(heap), args@[0])->Some_0.entries@, false)),
{
    if args.len() != 1 {
        return Err(PulseError::RuntimeError(text("map_keys expects 1 argument")));
    }
    let es = map_param(heap, args[0])?;
    listing(heap, es, false)
}

/// `map_entries(map)`: a new list of new `[key, value]` lists, the key a
/// new string, in the map's order.
pub fn map_entries_native(heap: &mut Heap, args: &[Value]) -> (r: PulseResult<Value>)
    requires
        ready(*old(heap)),
    ensures
        ready(*final(heap)),
        grows(*old(heap), *final(heap)),
        on_map(*old(heap), *final(heap), args@, 1, r,
            listed(*old(heap), *final(heap), r, map_of(*old(heap), args@[0])->Some_0.entries@, true)),
{
    if args.len() != 1 {
        return Err(PulseError::RuntimeError(text("map_entries expects 1 argument")));
    }
    let es = map_param(heap, args[0])?;
    listing(heap, es, true)
}

/// `map_values(map)`: a new list of the values, in the map's order.
pub fn map_values_native(heap: &mut Heap, args: &[Value]) -> (r: PulseResult<Value>)
    requires
        ready(*old(heap)),
    ensures
        ready(*final(heap)),
        on_map(*old(heap), *final(heap), args@, 1, r,
            new_list(*old(heap), *final(heap), r, crate::object::entry_values(map_of(*old(heap), args@[0])->Some_0))),
{
    if args.len() != 1 {
        return Err(PulseError::RuntimeError(text("map_values expects 1 argument")));
    }
    let es = map_param(heap, args[0])?;
    let m = NameMap { entries: es };
    let vals = crate::object::entry_values_of(&m);
    let x = heap.allocate(Object::List(vals));
    Ok(Value::Obj(x))
}

/// `map_has_key(map, key)`: whether the map has the text of `key` (its
/// `to_string` text) as a key. A float key needs the host.
pub fn map_has_key_native(heap: &mut Heap, args: &[Value]) -> (r: PulseResult<Value>)
    requires
        ready(*old(heap)),
    ensures
        *final(heap) == *old(heap),
        args@.len() != 2 ==> crate::value::is_runtime_error(r),
        args@.len() == 2 ==> match (text_of(*old(heap), args@[1]), map_of(*old(heap), args@[0])) {
            (None, _) => crate::value::is_float_host(r),
            (Some(k), Some(m)) => r == Ok::<Value, PulseError>(Value::Bool(m@.dom().contains(k))),
            (Some(_), None) => crate::value::is_type_mismatch(r),
        },
{
    if args.len() != 2 {
        return Err(PulseError::RuntimeError(text("map_has_key expects 2 arguments")));
    }
    let key = value_to_string(heap, args[1])?;
    proof { heap.lemma_wf(); }
    match args[0] {
        Value::Obj(x) => match heap.get(x) {
            Some(Object::Dict(m)) => Ok(Value::Bool(m.contains_key(key.as_str()))),
            _ => Err(PulseError::TypeMismatch { expected: text("map"), got: text("other") }),
        },
        _ => Err(PulseError::TypeMismatch { expected: text("map"), got: args[0].kind_name() }),
    }
}

/// `map_delete(map, key)`: removes the text of `key` from the map's keys;
/// gives unit. A float key needs the host.
pub fn map_delete_native(heap: &mut Heap, args: &[Value]) -> (r: PulseResult<Value>)
    requires
        ready(*old(heap)),
    ensures
        ready(*final(heap)),
        args@.len() != 2 ==> crate::value::is_runtime_error(r) && *final(heap) == *old(heap),
        args@.len() == 2 ==> match (text_of(*old(heap), args@[1]), map_of(*old(heap), args@[0])) {
            (None, _) => crate::value::is_float_host(r) && *final(heap) == *old(heap),
            (Some(k), Some(m)) => {
                &&& r == Ok::<Value, PulseError>(Value::Unit)
                &&& final(heap).live() == old(heap).live().insert(args@[0]->Obj_0.0 as int, final(heap).live()[args@[0]->Obj_0.0 as int])
                &&& map_of(*final(heap), args@[0]) matches Some(m2) && m2@ == m@.remove(k)
            },
            (Some(_), None) => crate::value::is_type_mismatch(r) && *final(heap) == *old(heap),
        },
{
    if args.len() != 2 {
        return Err(PulseError::RuntimeError(text("map_delete expects 2 arguments")));
    }
    let key = value_to_string(heap, args[1])?;
    let x = match args[0] {
        Value::Obj(x) => x,
        _ => {
            return Err(PulseError::TypeMismatch { expected: text("map"), got: args[0].kind_name() });
        },
    };
    proof { heap.lemma_wf(); }
    match heap.get(x) {
        Some(Object::Dict(_)) => {},
        _ => {
            return Err(PulseError::TypeMismatch { expected: text("map"), got: text("other") });
        },
    }
    let taken = heap.replace(x, Object::List(Vec::new()));
    let mut m = match taken {
        Ok(Object::Dict(m)) => m,
        _ => NameMap::new(),
    };
    let _ = m.remove(key.as_str());
    put_back(heap, x, Object::Dict(m));
    Ok(Value::Unit)
}

/// `map_merge(a, b)`: a new map with `a`'s entries, then `b`'s, a key of
/// both taking `b`'s value.
pub fn map_merge_native(heap: &mut Heap, args: &[Value]) -> (r: PulseResult<Value>)
    requires
        ready(*old(heap)),
    ensures
        ready(*final(heap)),
        args@.len() != 2 ==> crate::value::is_runtime_error(r) && *final(heap) == *old(heap),
        args@.len() == 2 ==> match (map_of(*old(heap), args@[0]), map_of(*old(heap), args@[1])) {
            (Some(a), Some(b)) => {
                &&& r matches Ok(Value::Obj(x))
                &&& final(heap).live().dom().contains(x.0 as int)
                &&& added(*old(heap), *final(heap), x, final(heap).live()[x.0 as int])
                &&& final(heap).live()[x.0 as int] matches Object::Dict(m) && m@ == a@.union_prefer_right(b@)
            },
            _ => crate::value::is_type_mismatch(r) && *final(heap) == *old(heap),
        },
{
    if args.len() != 2 {
        return Err(PulseError::RuntimeError(text("map_merge expects 2 arguments")));
    }
    let a = map_param(heap, args[0])?;
    let b = map_param(heap, args[1])?;
    let ghost ma = map_of(*old(heap), args@[0])->Some_0;
    let ghost mb = map_of(*old(heap), args@[1])->Some_0;
    proof { heap.lemma_wf(); }
    let mut m = NameMap { entries: a };
    assert(m@ == ma@);
    assert(m.wf());
    let mut i: usize = 0;
    while i < b.len()
        invariant
            i <= b@.len(),
            m.wf(),
            b@ == mb.entries@,
            mb.wf(),
            m@ == ma@.union_prefer_right(crate::namemap::seq_to_map(b@.take(i as int))),
        decreases b@.len() - i,
    {
        let k = b[i].0.clone();
        m.insert(k, b[i].1);
        proof {
            let t0 = b@.take(i as int);
            let t1 = b@.take(i + 1);
            assert(t1 =~= t0.push(b@[i as int]));
            assert(crate::namemap::seq_to_map(t1) =~= crate::namemap::seq_to_map(t0).insert(b@[i as int].0@, b@[i as int].1)) by {
                assert forall|key: Seq<char>| #[trigger] crate::namemap::seq_to_map(t1).dom().contains(key) <==> crate::namemap::seq_to_map(t0).insert(b@[i as int].0@, b@[i as int].1).dom().contains(key) by {
                    if crate::namemap::seq_has_key(t0, key) {
                        let j = crate::namemap::seq_key_index(t0, key);
                        assert(t1[j].0@ == key);
                    }
                    if key == b@[i as int].0@ {
                        assert(t1[i as int].0@ == key);
                    }
                    if crate::namemap::seq_has_key(t1, key) {
                        let j = crate::namemap::seq_key_index(t1, key);
                        if j < i {
                            assert(t0[j].0@ == key);
                        }
                    }
                }
                assert forall|key: Seq<char>| #[trigger] crate::namemap::seq_to_map(t1).dom().contains(key) implies crate::namemap::seq_to_map(t1)[key] == crate::namemap::seq_to_map(t0).insert(b@[i as int].0@, b@[i as int].1)[key] by {
                    let j = crate::namemap::seq_key_index(t1, key);
                    assert(crate::namemap::seq_keys_distinct(t1));
                    crate::namemap::lemma_entry_in_map(t1, j);
                    if j < i {
                        assert(crate::namemap::seq_keys_distinct(t0));
                        crate::namemap::lemma_entry_in_map(t0, j);
                    }
                }
            }
        }
        i = i + 1;
    }
    proof {
        assert(b@.take(i as int) =~= b@);
    }
    let x = heap.allocate(Object::Dict(m));
    Ok(Value::Obj(x))
}

/// `v` is a new two-item list holding `a` then `b`.
pub open spec fn fresh_two(h0: Heap, h1: Heap, v: Value, a: Value, b: Value) -> bool {
    &&& v matches Value::Obj(x)
    &&& !h0.live().dom().contains(x.0 as int)
    &&& h1.live().dom().contains(x.0 as int)
    &&& h1.live()[x.0 as int] matches Object::List(p)
    &&& p@ == seq![a, b]
}

/// `r` is a new list, in a heap that only grew, of new two-item lists, the
/// `i`-th holding `firsts[i]` and `seconds[i]`.
pub open spec fn paired(h0: Heap, h1: Heap, r: PulseResult<Value>, firsts: Seq<Value>, seconds: Seq<Value>) -> bool {
    &&& fresh_list_result(h0, h1, r)
    &&& result_items(h1, r).len() == firsts.len()
    &&& forall|i: int| 0 <= i < firsts.len() ==> fresh_two(h0, h1, #[trigger] result_items(h1, r)[i], firsts[i], seconds[i])
}

/// Allocates the pairs `[firsts[i], seconds[i]]` and the list of them.
fn pairs_of(heap: &mut Heap, firsts: &Vec<Value>, seconds: &Vec<Value>) -> (r: PulseResult<Value>)
    requires
        ready(*old(heap)),
        firsts@.len() == seconds@.len(),
    ensures
        ready(*final(heap)),
        grows(*old(heap), *final(heap)),
        paired(*old(heap), *final(heap), r, firsts@, seconds@),
{
    let ghost h0 = *heap;
    let mut out: Vec<Value> = Vec::new();
    let mut i: usize = 0;
    while i < firsts.len()
        invariant
            ready(*heap),
            grows(h0, *heap),
            i <= firsts@.len() == seconds@.len(),
            out@.len() == i,
            forall|k: int| 0 <= k < i ==> fresh_two(h0, *heap, #[trigger] out@[k], firsts@[k], seconds@[k]),
        decreases firsts@.len() - i,
    {
        let ghost hp = *heap;
        let ph = heap.allocate(Object::List(vec![firsts[i], seconds[i]]));
        proof {
            vstd::map_lib::lemma_submap_of_trans(h0.live(), hp.live(), heap.live());
            assert forall|k: int| 0 <= k < i implies fresh_two(h0, *heap, #[trigger] out@[k], firsts@[k], seconds@[k]) by {
                assert(fresh_two(h0, hp, out@[k], firsts@[k], seconds@[k]));
            }
            if h0.live().dom().contains(ph.0 as int) {
                assert(hp.live().dom().contains(ph.0 as int));
            }
        }
        out.push(Value::Obj(ph));
        i = i + 1;
    }
    let ghost hp = *heap;
    let x = heap.allocate(Object::List(out));
    proof {
        vstd::map_lib::lemma_submap_of_trans(h0.live(), hp.live(), heap.live());
        if h0.live().dom().contains(x.0 as int) {
            assert(hp.live().dom().contains(x.0 as int));
        }
        assert forall|k: int| 0 <= k < firsts@.len() implies fresh_two(h0, *heap, #[trigger] out@[k], firsts@[k], seconds@[k]) by {
            assert(fresh_two(h0, hp, out@[k], firsts@[k], seconds@[k]));
        }
    }
    Ok(Value::Obj(x))
}

/// The list of a value; anything else is a type mismatch.
fn list_param(heap: &Heap, v: Value) -> (r: PulseResult<Vec<Value>>)
    requires
        heap.wf(),
    ensures
        match list_of(*heap, v) {
            Some(l) => r matches Ok(items) && items@ == l,
            None => crate::value::is_type_mismatch(r),
        },
{
    match v {
        Value::Obj(x) => match heap.get(x) {
            Some(Object::List(l)) => Ok(crate::object::vec_copy(l)),
            _ => Err(PulseError::TypeMismatch { expected: text("list"), got: text("other") }),
        },
        _ => Err(PulseError::TypeMismatch { expected: text("list"), got: v.kind_name() }),
    }
}

/// The positions `0..n` as integers.
pub open spec fn positions_as_ints(n: nat) -> Seq<Value> {
    Seq::new(n, |i: int| Value::Int(i as i64))
}

/// `enumerate_list(list)`: a new list of new `[i, item]` lists.
pub fn enumerate_list_native(heap: &mut Heap, args: &[Value]) -> (r: PulseResult<Value>)
    requires
        ready(*old(heap)),
    ensures
        ready(*final(heap)),
        grows(*old(heap), *final(heap)),
        args@.len() != 1 ==> crate::value::is_runtime_error(r) && *final(heap) == *old(heap),
        args@.len() == 1 ==> match list_of(*old(heap), args@[0]) {
            Some(l) => paired(*old(heap), *final(heap), r, positions_as_ints(l.len()), l),
            None => crate::value::is_type_mismatch(r) && *final(heap) == *old(heap),
        },
{
    if args.len() != 1 {
        return Err(PulseError::RuntimeError(text("enumerate_list expects 1 argument")));
    }
    let items = list_param(heap, args[0])?;
    let mut idx: Vec<Value> = Vec::new();
    let mut i: usize = 0;
    while i < items.len()
        invariant
            i <= items@.len(),
            idx@ == positions_as_ints(i as nat),
        decreases items@.len() - i,
    {
        idx.push(Value::Int(i as i64));
        i = i + 1;
        assert(idx@ =~= positions_as_ints(i as nat));
    }
    pairs_of(heap, &idx, &items)
}

/// `zip_lists(a, b)`: a new list of new `[a[i], b[i]]` lists, as many as
/// the shorter list has items.
pub fn zip_lists_native(heap: &mut Heap, args: &[Value]) -> (r: PulseResult<Value>)
    requires
        ready(*old(heap)),
    ensures
        ready(*final(heap)),
        grows(*old(heap), *final(heap)),
        args@.len() != 2 ==> crate::value::is_runtime_error(r) && *final(heap) == *old(heap),
        args@.len() == 2 ==> match (list_of(*old(heap), args@[0]), list_of(*old(heap), args@[1])) {
            (Some(a), Some(b)) => {
                let n = if a.len() < b.len() { a.len() } else { b.len() };
                paired(*old(heap), *final(heap), r, a.take(n as int), b.take(n as int))
            },
            _ => crate::value::is_type_mismatch(r) && *final(heap) == *old(heap),
        },
{
    if args.len() != 2 {
        return Err(PulseError::RuntimeError(text("zip_lists expects 2 arguments")));
    }
    let a = list_param(heap, args[0])?;
    let b = list_param(heap, args[1])?;
    let n = if a.len() < b.len() { a.len() } else { b.len() };
    let mut xs: Vec<Value> = Vec::new();
    let mut ys: Vec<Value> = Vec::new();
    let mut i: usize = 0;
    while i < n
        invariant
            n <= a@.len(),
            n <= b@.len(),
            i <= n,
            xs@ == a@.take(i as int),
            ys@ == b@.take(i as int),
        decreases n - i,
    {
        xs.push(a[i]);
        ys.push(b[i]);
        i = i + 1;
        assert(xs@ =~= a@.take(i as int));
        assert(ys@ =~= b@.take(i as int));
    }
    pairs_of(heap, &xs, &ys)
}

/// Every item has a text (no item is a float).
pub open spec fn all_texted(h: Heap, s: Seq<Value>) -> bool {
    forall|i: int| 0 <= i < s.len() ==> (#[trigger] text_of(h, s[i])) is Some
}

/// The item at `i` has the text of an earlier item.
pub open spec fn text_seen(h: Heap, s: Seq<Value>, i: int) -> bool {
    exists|j: int| 0 <= j < i && #[trigger] text_of(h, s[j]) == text_of(h, s[i])
}

/// The items whose text no earlier item has, in order.
pub open spec fn first_texts(h: Heap, s: Seq<Value>) -> Seq<Value>
    decreases s.len(),
{
    if s.len() == 0 {
        s
    } else {
        let d = first_texts(h, s.drop_last());
        if text_seen(h, s, s.len() - 1) { d } else { d.push(s.last()) }
    }
}

/// The texts of the items, by `value_to_string`; none when some item is a
/// float.
fn texts(heap: &Heap, items: &Vec<Value>) -> (r: PulseResult<Vec<String>>)
    requires
        heap.wf(),
    ensures
        match r {
            Ok(ts) => all_texted(*heap, items@) && ts@.len() == items@.len()
                && forall|i: int| 0 <= i < items@.len() ==> Some(#[trigger] ts@[i]@) == text_of(*heap, items@[i]),
            Err(_) => crate::value::is_float_host(r) && !all_texted(*heap, items@),
        },
{
    let mut ts: Vec<String> = Vec::new();
    let mut i: usize = 0;
    while i < items.len()
        invariant
            heap.wf(),
            i <= items@.len(),
            ts@.len() == i,
            forall|k: int| 0 <= k < i ==> Some(#[trigger] ts@[k]@) == text_of(*heap, items@[k]),
        decreases items@.len() - i,
    {
        let t = match value_to_string(heap, items[i]) {
            Ok(t) => t,
            Err(_) => {
                assert(text_of(*heap, items@[i as int]) is None);
                return Err(PulseError::NeedsFloatHost);
            },
        };
        ts.push(t);
        i = i + 1;
    }
    assert forall|k: int| 0 <= k < items@.len() implies (#[trigger] text_of(*heap, items@[k])) is Some by {
        assert(Some(ts@[k]@) == text_of(*heap, items@[k]));
    }
    Ok(ts)
}

/// Whether one of the first `n` texts equals `t`.
fn seen_text(ts: &Vec<String>, n: usize, t: &String) -> (r: bool)
    requires
        n <= ts@.len(),
    ensures
        r == exists|j: int| 0 <= j < n && (#[trigger] ts@[j])@ == t@,
{
    let mut j: usize = 0;
    while j < n
        invariant
            j <= n <= ts@.len(),
            forall|k: int| 0 <= k < j ==> (#[trigger] ts@[k])@ != t@,
        decreases n - j,
    {
        if crate::namemap::str_equal(ts[j].as_str(), t.as_str()) {
            return true;
        }
        j = j + 1;
    }
    false
}

/// `unique_list(list)`: a new list of the items whose text (see
/// `to_string`) no earlier item has, in order. A float needs the host.
pub fn unique_list_native(heap: &mut Heap, args: &[Value]) -> (r: PulseResult<Value>)
    requires
        ready(*old(heap)),
    ensures
        ready(*final(heap)),
        args@.len() != 1 ==> crate::value::is_runtime_error(r) && *final(heap) == *old(heap),
        args@.len() == 1 ==> match list_of(*old(heap), args@[0]) {
            Some(l) => if all_texted(*old(heap), l) {
                new_list(*old(heap), *final(heap), r, first_texts(*old(heap), l))
            } else {
                crate::value::is_float_host(r) && *final(heap) == *old(heap)
            },
            None => crate::value::is_type_mismatch(r) && *final(heap) == *old(heap),
        },
{
    if args.len() != 1 {
        return Err(PulseError::RuntimeError(text("unique_list expects 1 argument")));
    }
    let items = list_param(heap, args[0])?;
    let ts = texts(heap, &items)?;
    let mut out: Vec<Value> = Vec::new();
    let mut i: usize = 0;
    while i < items.len()
        invariant
            heap.wf(),
            i <= items@.len() == ts@.len(),
            forall|k: int| 0 <= k < items@.len() ==> Some(#[trigger] ts@[k]@) == text_of(*heap, items@[k]),
            out@ == first_texts(*heap, items@.take(i as int)),
        decreases items@.len() - i,
    {
        let seen = seen_text(&ts, i, &ts[i]);
        proof {
            let p = items@.take(i + 1);
            assert(p.drop_last() =~= items@.take(i as int));
            if seen {
                let j = choose|j: int| 0 <= j < i && (#[trigger] ts@[j])@ == ts@[i as int]@;
                assert(text_of(*heap, p[j]) == text_of(*heap, p[i as int]));
            } else {
                assert forall|j: int| 0 <= j < i implies #[trigger] text_of(*heap, p[j]) != text_of(*heap, p[i as int]) by {
                    assert(Some(ts@[j]@) == text_of(*heap, items@[j]));
                    assert(ts@[j]@ != ts@[i as int]@);
                }
            }
        }
        if !seen {
            out.push(items[i]);
        }
        i = i + 1;
    }
    assert(items@.take(i as int) =~= items@);
    let x = heap.allocate(Object::List(out));
    Ok(Value::Obj(x))
}

/// How many items have the text `t`.
pub open spec fn count_text(h: Heap, s: Seq<Value>, t: Seq<char>) -> nat
    decreases s.len(),
{
    if s.len() == 0 {
        0
    } else {
        count_text(h, s.drop_last(), t) + if text_of(h, s.last()) == Some(t) { 1nat } else { 0nat }
    }
}

/// `count_list(list, v)`: how many items have the text of `v` (see
/// `to_string`). A float needs the host.
pub fn count_list_native(heap: &mut Heap, args: &[Value]) -> (r: PulseResult<Value>)
    requires
        ready(*old(heap)),
    ensures
        *final(heap) == *old(heap),
        args@.len() != 2 ==> crate::value::is_runtime_error(r),
        args@.len() == 2 ==> match list_of(*old(heap), args@[0]) {
            Some(l) => match text_of(*old(heap), args@[1]) {
                Some(t) => if all_texted(*old(heap), l) {
                    r == Ok::<Value, PulseError>(Value::Int(count_text(*old(heap), l, t) as i64))
                } else {
                    crate::value::is_float_host(r)
                },
                None => crate::value::is_float_host(r),
            },
            None => crate::value::is_type_mismatch(r),
        },
{
    if args.len() != 2 {
        return Err(PulseError::RuntimeError(text("count_list expects 2 arguments")));
    }
    let items = list_param(heap, args[0])?;
    let target = value_to_string(heap, args[1])?;
    let ts = texts(heap, &items)?;
    let mut n: usize = 0;
    let mut i: usize = 0;
    while i < items.len()
        invariant
            heap.wf(),
            i <= items@.len() == ts@.len(),
            forall|k: int| 0 <= k < items@.len() ==> Some(#[trigger] ts@[k]@) == text_of(*heap, items@[k]),
            n == count_text(*heap, items@.take(i as int), target@),
            n <= i,
        decreases items@.len() - i,
    {
        let same = crate::namemap::str_equal(ts[i].as_str(), target.as_str());
        proof {
            let p = items@.take(i + 1);
            assert(p.drop_last() =~= items@.take(i as int));
            assert(Some(ts@[i as int]@) == text_of(*heap, items@[i as int]));
        }
        if same {
            n = n + 1;
        }
        i = i + 1;
    }
    assert(items@.take(i as int) =~= items@);
    Ok(Value::Int(n as i64))
}

} // verus!

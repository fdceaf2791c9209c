//! List natives of the utility library: sorting, searching, slicing,
//! inserting and removing, ranges and flattening.

use vstd::prelude::*;
use crate::value::{Value, PulseError, PulseResult, text};
use crate::object::Object;
use crate::heap::Heap;
use crate::vm::object_of;
use crate::utils::{ready, added, new_list, list_of, wrong_target, list_updated, put_back};
use crate::collections::{all_ints, has_float, is_nan};

verus! {

broadcast use {vstd::std_specs::vec::group_vec_axioms, vstd::seq_lib::group_to_multiset_ensures};

/// Every item is a boolean.
pub open spec fn all_bools(s: Seq<Value>) -> bool {
    forall|i: int| 0 <= i < s.len() ==> (#[trigger] s[i]) is Bool
}

/// The number an item is sorted by: an integer's value, 0 for `false` and
/// 1 for `true`.
pub open spec fn sort_key(v: Value) -> int {
    match v {
        Value::Int(i) => i as int,
        Value::Bool(b) => if b { 1 } else { 0 },
        _ => 0,
    }
}

/// Items in ascending order of `sort_key`.
pub open spec fn keys_sorted(s: Seq<Value>) -> bool {
    forall|i: int, j: int| 0 <= i < j < s.len() ==> sort_key(#[trigger] s[i]) <= sort_key(#[trigger] s[j])
}

/// The item is an integer (`ints`) or a boolean (`!ints`).
pub open spec fn of_kind(v: Value, ints: bool) -> bool {
    if ints { v is Int } else { v is Bool }
}

/// Every item is of the one kind.
pub open spec fn all_kind(s: Seq<Value>, ints: bool) -> bool {
    forall|i: int| 0 <= i < s.len() ==> of_kind(#[trigger] s[i], ints)
}

/// `a` orders after `b`: two integers, or with `bools` two booleans, by
/// key; items of different kinds are equal.
pub open spec fn orders_after(a: Value, b: Value, bools: bool) -> bool {
    ((a is Int && b is Int) || (bools && a is Bool && b is Bool)) && sort_key(a) > sort_key(b)
}

fn after(a: &Value, b: &Value, bools: bool) -> (r: bool)
    ensures
        r == orders_after(*a, *b, bools),
{
    match (a, b) {
        (Value::Int(x), Value::Int(y)) => *x > *y,
        (Value::Bool(x), Value::Bool(y)) => bools && *x && !*y,
        _ => false,
    }
}

proof fn lemma_insert_sorted(before: Seq<Value>, p: int, x: Value, ints: bool, bools: bool)
    requires
        0 <= p <= before.len(),
        ints || bools,
        all_kind(before, ints),
        of_kind(x, ints),
        keys_sorted(before),
        forall|q: int| 0 <= q < p ==> !orders_after(#[trigger] before[q], x, bools),
        p < before.len() ==> orders_after(before[p], x, bools),
    ensures
        all_kind(before.insert(p, x), ints),
        keys_sorted(before.insert(p, x)),
{
    let after = before.insert(p, x);
    assert forall|q: int| 0 <= q < after.len() implies of_kind(#[trigger] after[q], ints) by {
        if q < p { assert(after[q] == before[q]); }
        else if q > p { assert(after[q] == before[q - 1]); }
    }
    assert forall|q: int| 0 <= q < p implies sort_key(#[trigger] before[q]) <= sort_key(x) by {
        assert(of_kind(before[q], ints));
    }
    assert forall|a: int, b: int| 0 <= a < b < after.len() implies sort_key(#[trigger] after[a]) <= sort_key(#[trigger] after[b]) by {
        if a < p && b < p {
            assert(after[a] == before[a] && after[b] == before[b]);
        } else if a < p && b == p {
            assert(after[a] == before[a]);
        } else if a < p && b > p {
            assert(after[a] == before[a] && after[b] == before[b - 1]);
            assert(sort_key(before[p]) <= sort_key(before[b - 1]));
        } else if a == p {
            assert(after[b] == before[b - 1]);
            assert(sort_key(before[p]) <= sort_key(before[b - 1]));
        } else {
            assert(after[a] == before[a - 1] && after[b] == before[b - 1]);
        }
    }
}

/// Whether sorting keeps the one kind of the items in order.
pub open spec fn sort_claim(items: Seq<Value>, sorted: Seq<Value>, ints: bool, bools: bool) -> bool {
    (ints || bools) && all_kind(items, ints) ==> all_kind(sorted, ints) && keys_sorted(sorted)
}

/// The items sorted by a stable insertion: each goes after every item
/// that does not order after it. The result holds the same items; a list
/// of integers (or with `bools` of booleans) comes out in ascending order.
pub(crate) fn insertion_sort(items: &Vec<Value>, bools: bool) -> (sorted: Vec<Value>)
    ensures
        sorted@.to_multiset() == items@.to_multiset(),
        sort_claim(items@, sorted@, true, bools),
        sort_claim(items@, sorted@, false, bools),
{
    let mut sorted: Vec<Value> = Vec::new();
    let mut k: usize = 0;
    while k < items.len()
        invariant
            k <= items@.len(),
            sorted@.to_multiset() == items@.take(k as int).to_multiset(),
            sort_claim(items@, sorted@, true, bools),
            sort_claim(items@, sorted@, false, bools),
        decreases items@.len() - k,
    {
        let x = items[k];
        let mut p: usize = 0;
        while p < sorted.len()
            invariant
                p <= sorted@.len(),
                forall|q: int| 0 <= q < p ==> !orders_after(#[trigger] sorted@[q], x, bools),
            ensures
                p <= sorted@.len(),
                forall|q: int| 0 <= q < p ==> !orders_after(#[trigger] sorted@[q], x, bools),
                p < sorted@.len() ==> orders_after(sorted@[p as int], x, bools),
            decreases sorted@.len() - p,
        {
            if after(&sorted[p], &x, bools) {
                break;
            }
            p = p + 1;
        }
        let ghost before = sorted@;
        sorted.insert(p, x);
        proof {
            vstd::seq_lib::to_multiset_insert(before, p as int, x);
            assert(items@.take(k + 1) =~= items@.take(k as int).push(x));
            if (true || bools) && all_kind(items@, true) {
                assert(of_kind(items@[k as int], true));
                lemma_insert_sorted(before, p as int, x, true, bools);
            }
            if bools && all_kind(items@, false) {
                assert(of_kind(items@[k as int], false));
                lemma_insert_sorted(before, p as int, x, false, bools);
            }
        }
        k = k + 1;
    }
    assert(items@.take(k as int) =~= items@);
    sorted
}

/// The list a value refers to; anything else is a type mismatch.
fn list_param(heap: &Heap, v: Value) -> (r: PulseResult<Vec<Value>>)
    requires
        heap.wf(),
    ensures
        match list_of(*heap, v) {
            Some(l) => r matches Ok(items) && items@ == l,
            None => crate::value::is_type_mismatch(r),
        },
{
    match v {
        Value::Obj(x) => match heap.get(x) {
            Some(Object::List(l)) => Ok(crate::object::vec_copy(l)),
            _ => Err(PulseError::TypeMismatch { expected: text("list"), got: text("other") }),
        },
        _ => Err(PulseError::TypeMismatch { expected: text("list"), got: v.kind_name() }),
    }
}

/// The outcome of a native that reads one list argument and allocates one
/// new list: a runtime error for a wrong argument count, a type mismatch
/// for a first argument that is not a list, otherwise `ok`.
pub open spec fn on_list(h0: Heap, h1: Heap, args: Seq<Value>, n: nat, r: PulseResult<Value>, ok: bool) -> bool {
    if args.len() != n {
        crate::value::is_runtime_error(r) && h1 == h0
    } else if list_of(h0, args[0]) is None {
        crate::value::is_type_mismatch(r) && h1 == h0
    } else {
        ok
    }
}

/// Whether some item is a float.
pub(crate) fn has_float_item(items: &Vec<Value>) -> (r: bool)
    ensures
        r == has_float(items@),
{
    let mut i: usize = 0;
    while i < items.len()
        invariant
            i <= items@.len(),
            forall|k: int| 0 <= k < i ==> !(#[trigger] items@[k] is Float),
        decreases items@.len() - i,
    {
        if let Value::Float(_) = items[i] {
            assert(items@[i as int] is Float);
            return true;
        }
        i = i + 1;
    }
    false
}

/// `sort_list(list)`: a new list of the same items; integers, and
/// booleans (`false` first), come out in ascending order, equal ones in
/// their original order. A float needs the host.
pub fn sort_list_native(heap: &mut Heap, args: &[Value]) -> (r: PulseResult<Value>)
    requires
        ready(*old(heap)),
    ensures
        ready(*final(heap)),
        on_list(*old(heap), *final(heap), args@, 1, r, {
            let l = list_of(*old(heap), args@[0])->Some_0;
            if has_float(l) {
                crate::value::is_float_host(r) && *final(heap) == *old(heap)
            } else {
                &&& r matches Ok(Value::Obj(x))
                &&& final(heap).live().dom().contains(x.0 as int)
                &&& final(heap).live()[x.0 as int] matches Object::List(out)
                &&& added(*old(heap), *final(heap), x, final(heap).live()[x.0 as int])
                &&& out@.to_multiset() == l.to_multiset()
                &&& all_ints(l) ==> keys_sorted(out@)
                &&& all_bools(l) ==> keys_sorted(out@)
            }
        }),
{
    if args.len() != 1 {
        return Err(PulseError::RuntimeError(text("sort_list expects 1 argument")));
    }
    let items = list_param(heap, args[0])?;
    if has_float_item(&items) {
        return Err(PulseError::NeedsFloatHost);
    }
    let sorted = insertion_sort(&items, true);
    proof {
        if all_ints(items@) {
            assert(all_kind(items@, true));
        }
        if all_bools(items@) {
            assert(all_kind(items@, false));
        }
    }
    let x = heap.allocate(Object::List(sorted));
    Ok(Value::Obj(x))
}

/// `reverse_list(list)`: a new list of the items in reverse order.
pub fn reverse_list_native(heap: &mut Heap, args: &[Value]) -> (r: PulseResult<Value>)
    requires
        ready(*old(heap)),
    ensures
        ready(*final(heap)),
        on_list(*old(heap), *final(heap), args@, 1, r,
            new_list(*old(heap), *final(heap), r, list_of(*old(heap), args@[0])->Some_0.reverse())),
{
    if args.len() != 1 {
        return Err(PulseError::RuntimeError(text("reverse_list expects 1 argument")));
    }
    let items = list_param(heap, args[0])?;
    let mut out: Vec<Value> = Vec::new();
    let mut i = items.len();
    while i > 0
        invariant
            i <= items@.len(),
            out@ == items@.subrange(i as int, items@.len() as int).reverse(),
        decreases i,
    {
        i = i - 1;
        out.push(items[i]);
        assert(out@ =~= items@.subrange(i as int, items@.len() as int).reverse());
    }
    assert(items@.subrange(0, items@.len() as int) =~= items@);
    let x = heap.allocate(Object::List(out));
    Ok(Value::Obj(x))
}

/// Floats compare as IEEE numbers: a NaN equals nothing, and the two zeros
/// are equal.
pub open spec fn float_equal(x: u64, y: u64) -> bool {
    !is_nan(x) && !is_nan(y) && (x == y || (x % 0x8000000000000000 == 0 && y % 0x8000000000000000 == 0))
}

/// The equality `index_of` and `list_contains` test items with: integers,
/// floats and booleans by value, unit with unit; objects and actor ids
/// never match.
pub open spec fn loose_equal(a: Value, b: Value) -> bool {
    match (a, b) {
        (Value::Int(x), Value::Int(y)) => x == y,
        (Value::Float(x), Value::Float(y)) => float_equal(x, y),
        (Value::Bool(x), Value::Bool(y)) => x == y,
        (Value::Unit, Value::Unit) => true,
        _ => false,
    }
}

fn loose_eq(a: Value, b: Value) -> (r: bool)
    ensures
        r == loose_equal(a, b),
{
    match (a, b) {
        (Value::Int(x), Value::Int(y)) => x == y,
        (Value::Float(x), Value::Float(y)) => {
            let nan_x = (x / 0x10000000000000) % 2048 == 2047 && x % 0x10000000000000 != 0;
            let nan_y = (y / 0x10000000000000) % 2048 == 2047 && y % 0x10000000000000 != 0;
            !nan_x && !nan_y && (x == y || (x % 0x8000000000000000 == 0 && y % 0x8000000000000000 == 0))
        },
        (Value::Bool(x), Value::Bool(y)) => x == y,
        (Value::Unit, Value::Unit) => true,
        _ => false,
    }
}

/// The first position at which `s` holds an item loosely equal to `v`.
pub open spec fn first_loose(s: Seq<Value>, v: Value) -> Option<int> {
    if exists|i: int| 0 <= i < s.len() && loose_equal(#[trigger] s[i], v) {
        Some(choose|i: int| 0 <= i < s.len() && loose_equal(#[trigger] s[i], v)
            && forall|j: int| 0 <= j < i ==> !loose_equal(#[trigger] s[j], v))
    } else {
        None
    }
}

/// The first matching position, or none.
fn find_loose(items: &Vec<Value>, v: Value) -> (r: Option<usize>)
    ensures
        match r {
            Some(i) => i < items@.len() && loose_equal(items@[i as int], v)
                && forall|j: int| 0 <= j < i ==> !loose_equal(#[trigger] items@[j], v),
            None => forall|j: int| 0 <= j < items@.len() ==> !loose_equal(#[trigger] items@[j], v),
        },
{
    let mut i: usize = 0;
    while i < items.len()
        invariant
            i <= items@.len(),
            forall|j: int| 0 <= j < i ==> !loose_equal(#[trigger] items@[j], v),
        decreases items@.len() - i,
    {
        if loose_eq(items[i], v) {
            return Some(i);
        }
        i = i + 1;
    }
    None
}

/// `index_of(list, v)`: the position of the first item equal to `v` (see
/// `loose_equal`), or -1.
pub fn index_of_native(heap: &mut Heap, args: &[Value]) -> (r: PulseResult<Value>)
    requires
        ready(*old(heap)),
    ensures
        *final(heap) == *old(heap),
        on_list(*old(heap), *final(heap), args@, 2, r, {
            let l = list_of(*old(heap), args@[0])->Some_0;
            &&& (forall|j: int| 0 <= j < l.len() ==> !loose_equal(#[trigger] l[j], args@[1]))
                ==> r == Ok::<Value, PulseError>(Value::Int(-1i64))
            &&& (exists|j: int| 0 <= j < l.len() && loose_equal(#[trigger] l[j], args@[1]))
                ==> exists|p: int| 0 <= p < l.len() && loose_equal(l[p], args@[1])
                    && (forall|j: int| 0 <= j < p ==> !loose_equal(#[trigger] l[j], args@[1]))
                    && r == Ok::<Value, PulseError>(Value::Int(p as i64))
        }),
{
    if args.len() != 2 {
        return Err(PulseError::RuntimeError(text("index_of expects 2 arguments")));
    }
    let items = list_param(heap, args[0])?;
    match find_loose(&items, args[1]) {
        Some(i) => {
            assert(loose_equal(items@[i as int], args@[1]));
            Ok(Value::Int(i as i64))
        },
        None => Ok(Value::Int(-1)),
    }
}

/// `list_contains(list, v)`: whether some item equals `v` (see
/// `loose_equal`).
pub fn list_contains_native(heap: &mut Heap, args: &[Value]) -> (r: PulseResult<Value>)
    requires
        ready(*old(heap)),
    ensures
        *final(heap) == *old(heap),
        on_list(*old(heap), *final(heap), args@, 2, r, {
            let l = list_of(*old(heap), args@[0])->Some_0;
            r == Ok::<Value, PulseError>(Value::Bool(exists|j: int| 0 <= j < l.len() && loose_equal(#[trigger] l[j], args@[1])))
        }),
{
    if args.len() != 2 {
        return Err(PulseError::RuntimeError(text("list_contains expects 2 arguments")));
    }
    let items = list_param(heap, args[0])?;
    match find_loose(&items, args[1]) {
        Some(i) => {
            assert(loose_equal(items@[i as int], args@[1]));
            Ok(Value::Bool(true))
        },
        None => Ok(Value::Bool(false)),
    }
}

/// Takes the list out of live slot `x`, leaving an empty list there.
fn take_list(heap: &mut Heap, x: crate::value::ObjHandle) -> (items: Vec<Value>)
    requires
        ready(*old(heap)),
        old(heap).live().dom().contains(x.0 as int),
        old(heap).live()[x.0 as int] is List,
    ensures
        ready(*final(heap)),
        items@ == old(heap).live()[x.0 as int]->List_0@,
        final(heap).live().dom() == old(heap).live().dom(),
        final(heap).live() == old(heap).live().insert(x.0 as int, final(heap).live()[x.0 as int]),
{
    let taken = heap.replace(x, Object::List(Vec::new()));
    assert(heap.live().dom() =~= old(heap).live().dom());
    match taken {
        Ok(Object::List(v)) => v,
        _ => Vec::new(),
    }
}

/// `list_insert(list, i, v)`: puts `v` at position `i` of the list, from
/// 0 to its length; gives unit.
pub fn list_insert_native(heap: &mut Heap, args: &[Value]) -> (r: PulseResult<Value>)
    requires
        ready(*old(heap)),
    ensures
        ready(*final(heap)),
        args@.len() != 3 ==> crate::value::is_runtime_error(r) && *final(heap) == *old(heap),
        args@.len() == 3 ==> match (args@[1], list_of(*old(heap), args@[0])) {
            (Value::Int(i), Some(l)) => if i < 0 || i > l.len() {
                crate::value::is_runtime_error(r) && final(heap).live() == old(heap).live()
            } else {
                r == Ok::<Value, PulseError>(Value::Unit)
                    && list_updated(*old(heap), *final(heap), args@[0], l.insert(i as int, args@[2]))
            },
            (Value::Int(_), None) => wrong_target(*old(heap), args@[0], r) && *final(heap) == *old(heap),
            _ => crate::value::is_type_mismatch(r) && *final(heap) == *old(heap),
        },
{
    if args.len() != 3 {
        return Err(PulseError::RuntimeError(text("list_insert expects 3 arguments (list, index, value)")));
    }
    let idx = args[1].as_int()?;
    let x = match args[0] {
        Value::Obj(x) => x,
        _ => {
            return Err(PulseError::TypeMismatch { expected: text("list"), got: args[0].kind_name() });
        },
    };
    proof { heap.lemma_wf(); }
    let len = match heap.get(x) {
        Some(Object::List(l)) => l.len(),
        Some(_) => {
            return Err(PulseError::TypeMismatch { expected: text("list"), got: text("other") });
        },
        None => {
            return Err(PulseError::RuntimeError(text("Invalid handle")));
        },
    };
    if idx < 0 || idx as u64 > len as u64 {
        return Err(PulseError::RuntimeError(text("Index out of bounds for list")));
    }
    let mut items = take_list(heap, x);
    items.insert(idx as usize, args[2]);
    let ghost h1 = heap.live();
    put_back(heap, x, Object::List(items));
    assert(heap.live() =~= old(heap).live().insert(x.0 as int, heap.live()[x.0 as int]));
    Ok(Value::Unit)
}

/// `list_remove(list, i)`: takes the item at position `i` out of the list
/// and gives it.
pub fn list_remove_native(heap: &mut Heap, args: &[Value]) -> (r: PulseResult<Value>)
    requires
        ready(*old(heap)),
    ensures
        ready(*final(heap)),
        args@.len() != 2 ==> crate::value::is_runtime_error(r) && *final(heap) == *old(heap),
        args@.len() == 2 ==> match (args@[1], list_of(*old(heap), args@[0])) {
            (Value::Int(i), Some(l)) => if i < 0 || i >= l.len() {
                crate::value::is_runtime_error(r) && final(heap).live() == old(heap).live()
            } else {
                r == Ok::<Value, PulseError>(l[i as int])
                    && list_updated(*old(heap), *final(heap), args@[0], l.remove(i as int))
            },
            (Value::Int(_), None) => wrong_target(*old(heap), args@[0], r) && *final(heap) == *old(heap),
            _ => crate::value::is_type_mismatch(r) && *final(heap) == *old(heap),
        },
{
    if args.len() != 2 {
        return Err(PulseError::RuntimeError(text("list_remove expects 2 arguments (list, index)")));
    }
    let idx = args[1].as_int()?;
    let x = match args[0] {
        Value::Obj(x) => x,
        _ => {
            return Err(PulseError::TypeMismatch { expected: text("list"), got: args[0].kind_name() });
        },
    };
    proof { heap.lemma_wf(); }
    let len = match heap.get(x) {
        Some(Object::List(l)) => l.len(),
        Some(_) => {
            return Err(PulseError::TypeMismatch { expected: text("list"), got: text("other") });
        },
        None => {
            return Err(PulseError::RuntimeError(text("Invalid handle")));
        },
    };
    if idx < 0 || idx as u64 >= len as u64 {
        return Err(PulseError::RuntimeError(text("Index out of bounds for list")));
    }
    let mut items = take_list(heap, x);
    let v = items.remove(idx as usize);
    put_back(heap, x, Object::List(items));
    assert(heap.live() =~= old(heap).live().insert(x.0 as int, heap.live()[x.0 as int]));
    Ok(v)
}

/// `list_slice(list, start, end)`: a new list of the items from `start`
/// (at least 0) up to `end` (between 0 and the length), empty when they
/// cross.
pub fn list_slice_native(heap: &mut Heap, args: &[Value]) -> (r: PulseResult<Value>)
    requires
        ready(*old(heap)),
    ensures
        ready(*final(heap)),
        args@.len() != 3 ==> crate::value::is_runtime_error(r) && *final(heap) == *old(heap),
        args@.len() == 3 ==> match (args@[1], args@[2], list_of(*old(heap), args@[0])) {
            (Value::Int(a), Value::Int(b), Some(l)) => {
                let s = if a < 0 { 0 } else { a as int };
                let e = if b < 0 { 0 } else if b < l.len() { b as int } else { l.len() as int };
                new_list(*old(heap), *final(heap), r, if s <= e { l.subrange(s, e) } else { Seq::empty() })
            },
            (Value::Int(_), Value::Int(_), None) => crate::value::is_type_mismatch(r) && *final(heap) == *old(heap),
            _ => crate::value::is_type_mismatch(r) && *final(heap) == *old(heap),
        },
{
    if args.len() != 3 {
        return Err(PulseError::RuntimeError(text("list_slice expects 3 arguments (list, start, end)")));
    }
    let start = args[1].as_int()?;
    let end = args[2].as_int()?;
    let items = list_param(heap, args[0])?;
    let len = items.len();
    let e: usize = if end < 0 { 0 } else if end as u64 > len as u64 { len } else { end as usize };
    let crossed = start >= 0 && start as u64 > e as u64;
    let s: usize = if start < 0 || crossed { 0 } else { start as usize };
    let mut out: Vec<Value> = Vec::new();
    if !crossed {
        let mut i = s;
        while i < e
            invariant
                s <= i <= e <= items@.len(),
                out@ == items@.subrange(s as int, i as int),
            decreases e - i,
        {
            out.push(items[i]);
            i = i + 1;
            assert(out@ =~= items@.subrange(s as int, i as int));
        }
    }
    let x = heap.allocate(Object::List(out));
    Ok(Value::Obj(x))
}

/// `list_concat(a, b)`: a new list of `a`'s items followed by `b`'s.
pub fn list_concat_native(heap: &mut Heap, args: &[Value]) -> (r: PulseResult<Value>)
    requires
        ready(*old(heap)),
    ensures
        ready(*final(heap)),
        args@.len() != 2 ==> crate::value::is_runtime_error(r) && *final(heap) == *old(heap),
        args@.len() == 2 ==> match (list_of(*old(heap), args@[0]), list_of(*old(heap), args@[1])) {
            (Some(a), Some(b)) => new_list(*old(heap), *final(heap), r, a + b),
            _ => crate::value::is_type_mismatch(r) && *final(heap) == *old(heap),
        },
{
    if args.len() != 2 {
        return Err(PulseError::RuntimeError(text("list_concat expects 2 arguments")));
    }
    let mut a = list_param(heap, args[0])?;
    let b = list_param(heap, args[1])?;
    let ghost a0 = a@;
    let mut i: usize = 0;
    while i < b.len()
        invariant
            i <= b@.len(),
            a@ == a0 + b@.take(i as int),
        decreases b@.len() - i,
    {
        a.push(b[i]);
        i = i + 1;
        assert(a@ =~= a0 + b@.take(i as int));
    }
    assert(b@.take(i as int) =~= b@);
    let x = heap.allocate(Object::List(a));
    Ok(Value::Obj(x))
}

/// The integers from `start` towards `end` by `step` (not zero): up to but
/// not including `end` for a positive step, down to but not including it
/// for a negative one.
pub open spec fn range_seq(start: int, end: int, step: int) -> Seq<int>
    decreases (if step > 0 && start < end { end - start } else if step < 0 && start > end { start - end } else { 0 }),
{
    if step == 0 {
        Seq::empty()
    } else if (step > 0 && start < end) || (step < 0 && start > end) {
        seq![start] + range_seq(start + step, end, step)
    } else {
        Seq::empty()
    }
}

/// Each step of the range stays in `i64`: after each produced value, the
/// next one is computed without overflow.
pub open spec fn range_fits(start: int, end: int, step: int) -> bool
    decreases (if step > 0 && start < end { end - start } else if step < 0 && start > end { start - end } else { 0 }),
{
    if step == 0 {
        true
    } else if (step > 0 && start < end) || (step < 0 && start > end) {
        i64::MIN <= start + step <= i64::MAX && range_fits(start + step, end, step)
    } else {
        true
    }
}

/// The arguments of `range`: `(end)`, `(start, end)` or
/// `(start, end, step)`, with start 0 and step 1 when left out.
pub open spec fn range_args(args: Seq<Value>) -> Option<(int, int, int)> {
    if args.len() == 1 && args[0] is Int {
        Some((0, args[0]->Int_0 as int, 1))
    } else if args.len() == 2 && args[0] is Int && args[1] is Int {
        Some((args[0]->Int_0 as int, args[1]->Int_0 as int, 1))
    } else if args.len() == 3 && args[0] is Int && args[1] is Int && args[2] is Int {
        Some((args[0]->Int_0 as int, args[1]->Int_0 as int, args[2]->Int_0 as int))
    } else {
        None
    }
}

/// `range(end)`, `range(start, end)`, `range(start, end, step)`: a new list
/// of the integers of `range_seq`. A zero step, a wrong argument count and
/// a non-integer argument are errors. A range whose next value overflows
/// `i64` makes the original overflow, which `requires` leaves out.
pub fn range_native(heap: &mut Heap, args: &[Value]) -> (r: PulseResult<Value>)
    requires
        ready(*old(heap)),
        range_args(args@) matches Some((a, b, c)) ==> range_fits(a, b, c),
    ensures
        ready(*final(heap)),
        r is Err ==> *final(heap) == *old(heap),
        args@.len() == 0 || args@.len() > 3 ==> crate::value::is_runtime_error(r),
        1 <= args@.len() <= 3 ==> if args@.len() == 3 && args@[2] == Value::Int(0) {
            crate::value::is_runtime_error(r)
        } else {
            match range_args(args@) {
                Some((a, b, c)) => new_list(*old(heap), *final(heap), r,
                    range_seq(a, b, c).map_values(|i: int| Value::Int(i as i64))),
                None => crate::value::is_type_mismatch(r),
            }
        },
{
    if args.len() == 0 || args.len() > 3 {
        return Err(PulseError::RuntimeError(text("range expects 1-3 arguments: range(end) or range(start, end) or range(start, end, step)")));
    }
    let (start, end, step) = if args.len() == 1 {
        (0i64, args[0].as_int()?, 1i64)
    } else if args.len() == 2 {
        (args[0].as_int()?, args[1].as_int()?, 1i64)
    } else {
        let s = args[2].as_int()?;
        if s == 0 {
            return Err(PulseError::RuntimeError(text("range step cannot be zero")));
        }
        (args[0].as_int()?, args[1].as_int()?, s)
    };
    let ghost want = range_seq(start as int, end as int, step as int).map_values(|i: int| Value::Int(i as i64));
    let mut out: Vec<Value> = Vec::new();
    let mut i = start;
    while (step > 0 && i < end) || (step < 0 && i > end)
        invariant
            step != 0,
            range_fits(i as int, end as int, step as int),
            out@ + range_seq(i as int, end as int, step as int).map_values(|k: int| Value::Int(k as i64)) == want,
        decreases (if step > 0 && i < end { end - i } else if step < 0 && i > end { i - end } else { 0 }),
    {
        let ghost rest = range_seq(i as int, end as int, step as int);
        assert(rest == seq![i as int] + range_seq(i + step, end as int, step as int));
        out.push(Value::Int(i));
        proof {
            let m = |k: int| Value::Int(k as i64);
            assert(rest.map_values(m) =~= seq![Value::Int(i)] + range_seq(i + step, end as int, step as int).map_values(m));
            assert(out@ + range_seq(i + step, end as int, step as int).map_values(m) =~= want);
        }
        i = i + step;
    }
    proof {
        assert(range_seq(i as int, end as int, step as int) =~= Seq::<int>::empty());
        assert(out@ =~= want);
    }
    let x = heap.allocate(Object::List(out));
    Ok(Value::Obj(x))
}

/// The items with each item that is a list replaced by that list's items.
pub open spec fn flattened(h: Heap, s: Seq<Value>) -> Seq<Value>
    decreases s.len(),
{
    if s.len() == 0 {
        Seq::empty()
    } else {
        flattened(h, s.drop_last()) + match list_of(h, s.last()) {
            Some(inner) => inner,
            None => seq![s.last()],
        }
    }
}

/// `list_flatten(list)`: a new list with each item that is a list replaced
/// by its items, one level deep.
pub fn list_flatten_native(heap: &mut Heap, args: &[Value]) -> (r: PulseResult<Value>)
    requires
        ready(*old(heap)),
    ensures
        ready(*final(heap)),
        on_list(*old(heap), *final(heap), args@, 1, r,
            new_list(*old(heap), *final(heap), r, flattened(*old(heap), list_of(*old(heap), args@[0])->Some_0))),
{
    if args.len() != 1 {
        return Err(PulseError::RuntimeError(text("list_flatten expects 1 argument")));
    }
    let items = list_param(heap, args[0])?;
    let mut out: Vec<Value> = Vec::new();
    let mut i: usize = 0;
    while i < items.len()
        invariant
            i <= items@.len(),
            heap.wf(),
            out@ == flattened(*heap, items@.take(i as int)),
        decreases items@.len() - i,
    {
        let item = items[i];
        let ghost prefix = items@.take(i + 1);
        assert(prefix.drop_last() =~= items@.take(i as int));
        assert(prefix.last() == item);
        let inner = match item {
            Value::Obj(h) => match heap.get(h) {
                Some(Object::List(l)) => Some(crate::object::vec_copy(l)),
                _ => None,
            },
            _ => None,
        };
        match inner {
            Some(l) => {
                let ghost o0 = out@;
                let mut k: usize = 0;
                while k < l.len()
                    invariant
                        k <= l@.len(),
                        out@ == o0 + l@.take(k as int),
                    decreases l@.len() - k,
                {
                    out.push(l[k]);
                    k = k + 1;
                    assert(out@ =~= o0 + l@.take(k as int));
                }
                assert(l@.take(k as int) =~= l@);
            },
            None => {
                out.push(item);
            },
        }
        i = i + 1;
        assert(out@ =~= flattened(*heap, items@.take(i as int)));
    }
    assert(items@.take(i as int) =~= items@);
    let x = heap.allocate(Object::List(out));
    Ok(Value::Obj(x))
}


/// `range(start, end, step)` counts from `start` by `step`: item `i` is
/// `start + i * step`, every item lies on the near side of `end`, and the
/// next step would reach or pass `end`.
pub proof fn law_range_counts(start: int, end: int, step: int)
    requires
        step != 0,
    ensures
        forall|i: int| 0 <= i < range_seq(start, end, step).len() ==> #[trigger] range_seq(start, end, step)[i] == start + i * step,
        forall|i: int| 0 <= i < range_seq(start, end, step).len() ==>
            (if step > 0 { #[trigger] range_seq(start, end, step)[i] < end } else { range_seq(start, end, step)[i] > end }),
        ({
            let past = start + range_seq(start, end, step).len() * step;
            if step > 0 { past >= end } else { past <= end }
        }),
    decreases (if step > 0 && start < end { end - start } else if step < 0 && start > end { start - end } else { 0 }),
{
    let s = range_seq(start, end, step);
    if (step > 0 && start < end) || (step < 0 && start > end) {
        law_range_counts(start + step, end, step);
        let t = range_seq(start + step, end, step);
        assert(s == seq![start] + t);
        assert forall|i: int| 0 <= i < s.len() implies #[trigger] s[i] == start + i * step by {
            if i > 0 {
                assert(s[i] == t[i - 1]);
                assert(t[i - 1] == start + step + (i - 1) * step);
                assert(start + step + (i - 1) * step == start + i * step) by (nonlinear_arith);
            } else {
                assert(i * step == 0) by (nonlinear_arith)
                    requires i == 0;
            }
        }
        assert(start + step + t.len() * step == start + s.len() * step) by (nonlinear_arith)
            requires s.len() == t.len() + 1;
    } else {
        assert(s.len() == 0);
    }
}

/// Sorting orders integers by value and puts `false` before `true`.
pub proof fn law_sort_keys(i: i64)
    ensures
        sort_key(Value::Int(i)) == i,
        sort_key(Value::Bool(false)) < sort_key(Value::Bool(true)),
{
}

/// A sorted list of integers is in ascending order of the integers (and
/// of booleans, `false` first), as `sort_list` promises.
pub proof fn law_sorted_ascending(items: Seq<Value>, sorted: Seq<Value>, bools: bool)
    requires
        sort_claim(items, sorted, true, bools),
        sort_claim(items, sorted, false, bools),
    ensures
        (forall|i: int| 0 <= i < items.len() ==> #[trigger] items[i] is Int) ==>
            forall|i: int, j: int| 0 <= i < j < sorted.len() ==> (#[trigger] sorted[i]) is Int && (#[trigger] sorted[j]) is Int
                && sorted[i]->Int_0 <= sorted[j]->Int_0,
        (bools && forall|i: int| 0 <= i < items.len() ==> #[trigger] items[i] is Bool) ==>
            forall|i: int, j: int| 0 <= i < j < sorted.len() ==> !((#[trigger] sorted[i]) == Value::Bool(true) && (#[trigger] sorted[j]) == Value::Bool(false)),
{
    if forall|i: int| 0 <= i < items.len() ==> #[trigger] items[i] is Int {
        assert(all_kind(items, true));
        assert forall|i: int, j: int| 0 <= i < j < sorted.len() implies (#[trigger] sorted[i]) is Int && (#[trigger] sorted[j]) is Int
            && sorted[i]->Int_0 <= sorted[j]->Int_0 by {
            assert(of_kind(sorted[i], true) && of_kind(sorted[j], true));
            assert(sort_key(sorted[i]) <= sort_key(sorted[j]));
        }
    }
    if bools && forall|i: int| 0 <= i < items.len() ==> #[trigger] items[i] is Bool {
        assert(all_kind(items, false));
        assert forall|i: int, j: int| 0 <= i < j < sorted.len() implies !((#[trigger] sorted[i]) == Value::Bool(true) && (#[trigger] sorted[j]) == Value::Bool(false)) by {
            assert(sort_key(sorted[i]) <= sort_key(sorted[j]));
        }
    }
}
} // verus!

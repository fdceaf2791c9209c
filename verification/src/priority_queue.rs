//! A min-heap of values kept in a list object: `create_heap`,
//! `heap_push`, `heap_pop`, `heap_peek` and `heap_size`. The list is a binary
//! heap laid out level by level, the parent of position `i` at `(i - 1) / 2`;
//! `heap_pop` takes the root and moves the last item down. `heap_push` puts an
//! item in its place in the order, after the items equal to it, and the
//! smallest item is the first; integers are ordered by value, and items of
//! other kinds never order before anything.

use vstd::prelude::*;
use crate::value::{Value, PulseError, PulseResult, text};
use crate::object::Object;
use crate::heap::Heap;
use crate::utils::{ready, added, list_of, list_updated, put_back};
use crate::collections::{all_ints, has_float};
use crate::list_utils::has_float_item;

verus! {

broadcast use {vstd::std_specs::vec::group_vec_axioms, vstd::seq_lib::group_to_multiset_ensures,
    vstd::multiset::group_multiset_axioms};

/// `a` orders before `b`: two integers, `a` the smaller.
pub open spec fn less(a: Value, b: Value) -> bool {
    a is Int && b is Int && a->Int_0 < b->Int_0
}

/// Ascending: no item orders before an item ahead of it.
pub open spec fn sorted(s: Seq<Value>) -> bool {
    forall|i: int, j: int| 0 <= i < j < s.len() ==> !less(#[trigger] s[j], #[trigger] s[i])
}

/// The first position from `i` on whose item `v` orders before, or the
/// length when there is none.
pub open spec fn place_from(s: Seq<Value>, v: Value, i: int) -> int
    decreases s.len() - i,
{
    if i < 0 || i >= s.len() || less(v, s[i]) {
        i
    } else {
        place_from(s, v, i + 1)
    }
}

/// Where `heap_push` puts `v`: before the first item it orders before.
pub open spec fn place(s: Seq<Value>, v: Value) -> int {
    place_from(s, v, 0)
}

/// The list after `heap_push` of `v`.
pub open spec fn pushed(s: Seq<Value>, v: Value) -> Seq<Value> {
    s.insert(place(s, v), v)
}

/// The position of the parent of position `i > 0`.
pub open spec fn parent(i: int) -> int {
    (i - 1) / 2
}

/// No item orders before its parent.
pub open spec fn heap_ordered(s: Seq<Value>) -> bool {
    forall|k: int| 0 < k < s.len() ==> !less(#[trigger] s[k], s[parent(k)])
}

/// `s` with the items at `i` and `j` exchanged.
pub open spec fn swapped(s: Seq<Value>, i: int, j: int) -> Seq<Value> {
    s.update(i, s[j]).update(j, s[i])
}

/// The child of `i` that moves up in its place: the smaller of its
/// children when that one orders before it, otherwise `i` itself.
pub open spec fn smallest_below(s: Seq<Value>, i: int) -> int {
    let l = 2 * i + 1;
    let r = 2 * i + 2;
    let m = if l < s.len() && less(s[l], s[i]) { l } else { i };
    if r < s.len() && less(s[r], s[m]) { r } else { m }
}

/// The item at `i` moved down, past every child that orders before it.
pub open spec fn sift_down(s: Seq<Value>, i: int) -> Seq<Value>
    decreases s.len() - i,
{
    if i < 0 || i >= s.len() {
        s
    } else if smallest_below(s, i) != i {
        sift_down(swapped(s, i, smallest_below(s, i)), smallest_below(s, i))
    } else {
        s
    }
}

/// The list after `heap_pop` of a nonempty `s`: the last item in the
/// root's place, moved down.
pub open spec fn popped(s: Seq<Value>) -> Seq<Value> {
    sift_down(swapped(s, 0, s.len() - 1).drop_last(), 0)
}

proof fn lemma_place_from(s: Seq<Value>, v: Value, i: int)
    requires
        0 <= i <= s.len(),
    ensures
        i <= place_from(s, v, i) <= s.len(),
        forall|k: int| i <= k < place_from(s, v, i) ==> !less(v, #[trigger] s[k]),
        place_from(s, v, i) < s.len() ==> less(v, s[place_from(s, v, i)]),
    decreases s.len() - i,
{
    if i < s.len() && !less(v, s[i]) {
        lemma_place_from(s, v, i + 1);
    }
}

fn lt(a: Value, b: Value) -> (r: bool)
    ensures
        r == less(a, b),
{
    match (a, b) {
        (Value::Int(x), Value::Int(y)) => x < y,
        _ => false,
    }
}

fn swap_items(v: &mut Vec<Value>, i: usize, j: usize)
    requires
        i < old(v)@.len(),
        j < old(v)@.len(),
    ensures
        final(v)@ == swapped(old(v)@, i as int, j as int),
{
    let a = v[i];
    let b = v[j];
    v.set(i, b);
    v.set(j, a);
}

/// Moves the item at the root down to its place.
fn sift_down_exec(v: &mut Vec<Value>)
    ensures
        final(v)@ == sift_down(old(v)@, 0),
{
    let ghost want = sift_down(v@, 0);
    let n = v.len();
    let mut i: usize = 0;
    let mut done = false;
    while i < n && !done
        invariant
            n == v@.len(),
            sift_down(v@, i as int) == want,
            done ==> sift_down(v@, i as int) == v@,
        decreases n - i + if done { 0int } else { 1int },
    {
        let mut m = i;
        assert((2 * i + 1 < n) == (i < n / 2));
        assert((2 * i + 2 < n) == (i < (n - 1) / 2));
        if i < n / 2 && lt(v[2 * i + 1], v[i]) {
            m = 2 * i + 1;
        }
        if i < (n - 1) / 2 && lt(v[2 * i + 2], v[m]) {
            m = 2 * i + 2;
        }
        assert(m == smallest_below(v@, i as int));
        if m != i {
            swap_items(v, i, m);
            i = m;
        } else {
            done = true;
        }
    }
}

/// Puts `v` in its place in `items`.
fn insert_in_place(items: &mut Vec<Value>, v: Value)
    ensures
        final(items)@ == pushed(old(items)@, v),
{
    let mut i: usize = 0;
    while i < items.len() && !lt(v, items[i])
        invariant
            i <= items@.len(),
            place_from(items@, v, i as int) == place(items@, v),
        decreases items@.len() - i,
    {
        i = i + 1;
    }
    items.insert(i, v);
}

/// `create_heap()`: a new empty list to use as a heap.
pub fn create_heap_native(heap: &mut Heap, args: &[Value]) -> (r: PulseResult<Value>)
    requires
        ready(*old(heap)),
    ensures
        ready(*final(heap)),
        args@.len() != 0 ==> crate::value::is_runtime_error(r) && *final(heap) == *old(heap),
        args@.len() == 0 ==> crate::utils::new_list(*old(heap), *final(heap), r, Seq::empty()),
{
    if args.len() != 0 {
        return Err(PulseError::RuntimeError(text("create_heap expects 0 arguments")));
    }
    let x = heap.allocate(Object::List(Vec::new()));
    Ok(Value::Obj(x))
}

/// The list a heap argument refers to; anything else is a type mismatch.
fn heap_list(heap: &Heap, v: Value) -> (r: PulseResult<crate::value::ObjHandle>)
    requires
        heap.wf(),
    ensures
        match list_of(*heap, v) {
            Some(_) => r == Ok::<crate::value::ObjHandle, PulseError>(v->Obj_0),
            None => crate::value::is_type_mismatch(r),
        },
{
    match v {
        Value::Obj(x) => match heap.get(x) {
            Some(Object::List(_)) => Ok(x),
            _ => Err(PulseError::TypeMismatch { expected: text("list (heap)"), got: text("other") }),
        },
        _ => Err(PulseError::TypeMismatch { expected: text("list (heap)"), got: v.kind_name() }),
    }
}

/// Takes the list out of live slot `x`, leaving an empty list there.
fn take_items(heap: &mut Heap, x: crate::value::ObjHandle) -> (items: Vec<Value>)
    requires
        ready(*old(heap)),
        old(heap).live().dom().contains(x.0 as int),
        old(heap).live()[x.0 as int] is List,
    ensures
        ready(*final(heap)),
        items@ == old(heap).live()[x.0 as int]->List_0@,
        final(heap).live() == old(heap).live().insert(x.0 as int, final(heap).live()[x.0 as int]),
{
    let taken = heap.replace(x, Object::List(Vec::new()));
    match taken {
        Ok(Object::List(v)) => v,
        _ => Vec::new(),
    }
}

/// `heap_push(h, v)`: puts `v` into the heap list in its place in the
/// order, after the items equal to it; gives unit. A float in the list or
/// in `v` needs the host.
pub fn heap_push_native(heap: &mut Heap, args: &[Value]) -> (r: PulseResult<Value>)
    requires
        ready(*old(heap)),
    ensures
        ready(*final(heap)),
        args@.len() != 2 ==> crate::value::is_runtime_error(r) && *final(heap) == *old(heap),
        args@.len() == 2 ==> match list_of(*old(heap), args@[0]) {
            Some(l) => if has_float(l) || args@[1] is Float {
                crate::value::is_float_host(r) && *final(heap) == *old(heap)
            } else {
                r == Ok::<Value, PulseError>(Value::Unit)
                    && list_updated(*old(heap), *final(heap), args@[0], pushed(l, args@[1]))
            },
            None => crate::value::is_type_mismatch(r) && *final(heap) == *old(heap),
        },
{
    if args.len() != 2 {
        return Err(PulseError::RuntimeError(text("heap_push expects 2 arguments")));
    }
    let x = heap_list(heap, args[0])?;
    proof { heap.lemma_wf(); }
    let float_inside = match heap.get(x) {
        Some(Object::List(l)) => has_float_item(l),
        _ => false,
    };
    if float_inside || matches!(args[1], Value::Float(_)) {
        return Err(PulseError::NeedsFloatHost);
    }
    let mut items = take_items(heap, x);
    insert_in_place(&mut items, args[1]);
    put_back(heap, x, Object::List(items));
    assert(heap.live() =~= old(heap).live().insert(x.0 as int, heap.live()[x.0 as int]));
    Ok(Value::Unit)
}

/// `heap_pop(h)`: takes the root (the smallest item of an ordered heap)
/// out, puts the last item in its place and moves it down; gives the old
/// root. An empty heap is a runtime error; a float in it
/// needs the host.
pub fn heap_pop_native(heap: &mut Heap, args: &[Value]) -> (r: PulseResult<Value>)
    requires
        ready(*old(heap)),
    ensures
        ready(*final(heap)),
        args@.len() != 1 ==> crate::value::is_runtime_error(r) && *final(heap) == *old(heap),
        args@.len() == 1 ==> match list_of(*old(heap), args@[0]) {
            Some(l) => if l.len() == 0 {
                crate::value::is_runtime_error(r) && *final(heap) == *old(heap)
            } else if has_float(l) {
                crate::value::is_float_host(r) && *final(heap) == *old(heap)
            } else {
                &&& r == Ok::<Value, PulseError>(l[0])
                &&& list_updated(*old(heap), *final(heap), args@[0], popped(l))
                &&& popped(l).to_multiset() == l.to_multiset().remove(l[0])
                &&& all_ints(l) && heap_ordered(l) ==> heap_ordered(popped(l))
                    && forall|k: int| 0 <= k < l.len() ==> l[0]->Int_0 <= (#[trigger] l[k])->Int_0
            },
            None => crate::value::is_type_mismatch(r) && *final(heap) == *old(heap),
        },
{
    if args.len() != 1 {
        return Err(PulseError::RuntimeError(text("heap_pop expects 1 argument")));
    }
    let x = heap_list(heap, args[0])?;
    proof { heap.lemma_wf(); }
    let (empty, float_inside) = match heap.get(x) {
        Some(Object::List(l)) => (l.len() == 0, has_float_item(l)),
        _ => (true, false),
    };
    if empty {
        return Err(PulseError::RuntimeError(text("heap_pop: empty heap")));
    }
    if float_inside {
        return Err(PulseError::NeedsFloatHost);
    }
    let mut items = take_items(heap, x);
    let n = items.len();
    swap_items(&mut items, 0, n - 1);
    let least = match items.pop() {
        Some(v) => v,
        None => Value::Unit,
    };
    sift_down_exec(&mut items);
    proof {
        let l = list_of(*old(heap), args@[0])->Some_0;
        law_pop_keeps_items(l);
        if all_ints(l) && heap_ordered(l) {
            law_pop_keeps_order(l);
            assert forall|k: int| 0 <= k < l.len() implies l[0]->Int_0 <= (#[trigger] l[k])->Int_0 by {
                law_root_is_least(l, k);
            }
        }
    }
    put_back(heap, x, Object::List(items));
    assert(heap.live() =~= old(heap).live().insert(x.0 as int, heap.live()[x.0 as int]));
    Ok(least)
}

/// `heap_peek(h)`: the first item of the heap list, left in place; an
/// empty heap is a runtime error.
pub fn heap_peek_native(heap: &mut Heap, args: &[Value]) -> (r: PulseResult<Value>)
    requires
        ready(*old(heap)),
    ensures
        *final(heap) == *old(heap),
        args@.len() != 1 ==> crate::value::is_runtime_error(r),
        args@.len() == 1 ==> match list_of(*old(heap), args@[0]) {
            Some(l) => if l.len() == 0 {
                crate::value::is_runtime_error(r)
            } else {
                r == Ok::<Value, PulseError>(l[0])
            },
            None => crate::value::is_type_mismatch(r),
        },
{
    if args.len() != 1 {
        return Err(PulseError::RuntimeError(text("heap_peek expects 1 argument")));
    }
    let x = heap_list(heap, args[0])?;
    match heap.get(x) {
        Some(Object::List(l)) => if l.len() > 0 {
            Ok(l[0])
        } else {
            Err(PulseError::RuntimeError(text("heap_peek: empty heap")))
        },
        _ => Err(PulseError::RuntimeError(text("heap_peek: empty heap"))),
    }
}

/// `heap_size(h)`: the number of items in the heap list.
pub fn heap_size_native(heap: &mut Heap, args: &[Value]) -> (r: PulseResult<Value>)
    requires
        ready(*old(heap)),
    ensures
        *final(heap) == *old(heap),
        args@.len() != 1 ==> crate::value::is_runtime_error(r),
        args@.len() == 1 ==> match list_of(*old(heap), args@[0]) {
            Some(l) => r == Ok::<Value, PulseError>(Value::Int(l.len() as i64)),
            None => crate::value::is_type_mismatch(r),
        },
{
    if args.len() != 1 {
        return Err(PulseError::RuntimeError(text("heap_size expects 1 argument")));
    }
    let x = heap_list(heap, args[0])?;
    match heap.get(x) {
        Some(Object::List(l)) => Ok(Value::Int(l.len() as i64)),
        _ => Ok(Value::Int(0)),
    }
}

/// `heap_push` keeps the items: the list after holds the old items and
/// `v`.
pub proof fn law_push_keeps_items(s: Seq<Value>, v: Value)
    ensures
        pushed(s, v).to_multiset() == s.to_multiset().insert(v),
{
    lemma_place_from(s, v, 0);
    vstd::seq_lib::to_multiset_insert(s, place(s, v), v);
}

/// `heap_push` keeps a list of integers sorted, and puts `v` after the
/// items equal to it.
pub proof fn law_push_keeps_order(s: Seq<Value>, v: Value)
    requires
        all_ints(s),
        v is Int,
        sorted(s),
    ensures
        sorted(pushed(s, v)),
        all_ints(pushed(s, v)),
        forall|k: int| 0 <= k < place(s, v) ==> s[k]->Int_0 <= v->Int_0,
        forall|k: int| place(s, v) <= k < s.len() ==> v->Int_0 < s[k]->Int_0,
{
    let p = place(s, v);
    lemma_place_from(s, v, 0);
    let t = pushed(s, v);
    assert forall|k: int| p <= k < s.len() implies v->Int_0 < #[trigger] s[k]->Int_0 by {
        assert(s[k] is Int && s[p] is Int);
        assert(less(v, s[p]));
        if k > p {
            assert(!less(s[k], s[p]));
        }
    }
    assert forall|k: int| 0 <= k < p implies #[trigger] s[k]->Int_0 <= v->Int_0 by {
        assert(s[k] is Int);
        assert(!less(v, s[k]));
    }
    assert forall|k: int| 0 <= k < t.len() implies (#[trigger] t[k]) is Int by {
        if k < p { assert(t[k] == s[k]); assert(s[k] is Int); }
        else if k > p { assert(t[k] == s[k - 1]); assert(s[k - 1] is Int); }
    }
    assert forall|i: int, j: int| 0 <= i < j < t.len() implies !less(#[trigger] t[j], #[trigger] t[i]) by {
        if j < p {
            assert(t[i] == s[i] && t[j] == s[j]);
        } else if j == p {
            assert(t[i] == s[i]);
            assert(s[i]->Int_0 <= v->Int_0);
        } else if i < p {
            assert(t[i] == s[i] && t[j] == s[j - 1]);
            assert(!less(s[j - 1], s[i]));
        } else if i == p {
            assert(t[j] == s[j - 1]);
            assert(v->Int_0 < s[j - 1]->Int_0);
        } else {
            assert(t[i] == s[i - 1] && t[j] == s[j - 1]);
            assert(!less(s[j - 1], s[i - 1]));
        }
    }
}

/// Exchanging two items keeps the same items.
pub proof fn lemma_swapped_items(s: Seq<Value>, i: int, j: int)
    requires
        0 <= i < s.len(),
        0 <= j < s.len(),
    ensures
        swapped(s, i, j).to_multiset() == s.to_multiset(),
{
    let t = s.update(i, s[j]);
    vstd::seq_lib::to_multiset_update(s, i, s[j]);
    vstd::seq_lib::to_multiset_update(t, j, s[i]);
    assert(t[j] == (if i == j { s[j] } else { s[j] }));
    assert(t.update(j, s[i]).to_multiset() =~= s.to_multiset());
}

/// Moving an item down keeps the same items.
pub proof fn lemma_sift_down_items(s: Seq<Value>, i: int)
    ensures
        sift_down(s, i).to_multiset() == s.to_multiset(),
    decreases s.len() - i,
{
    if i < 0 || i >= s.len() {
    } else if smallest_below(s, i) != i {
        lemma_swapped_items(s, i, smallest_below(s, i));
        lemma_sift_down_items(swapped(s, i, smallest_below(s, i)), smallest_below(s, i));
    }
}

/// `s`, all integers, is ordered except that the item at `i` may order
/// after its children; the parent of `i` orders before `i`'s children.
pub open spec fn ordered_but_down(s: Seq<Value>, i: int) -> bool {
    &&& all_ints(s)
    &&& forall|k: int| 0 < k < s.len() && parent(k) != i ==> !less(#[trigger] s[k], s[parent(k)])
    &&& i > 0 ==> forall|c: int| 0 < c < s.len() && parent(c) == i ==> !less(#[trigger] s[c], s[parent(i)])
}

proof fn lemma_sift_down_ordered(s: Seq<Value>, i: int)
    requires
        0 <= i,
        ordered_but_down(s, i),
    ensures
        heap_ordered(sift_down(s, i)),
    decreases s.len() - i,
{
    if i >= s.len() {
        assert forall|k: int| 0 < k < s.len() implies !less(#[trigger] s[k], s[parent(k)]) by {}
    } else if smallest_below(s, i) != i {
        let m = smallest_below(s, i);
        let t = swapped(s, i, m);
        assert(parent(m) == i);
        assert(less(s[m], s[i]));
        assert(all_ints(t)) by {
            assert forall|k: int| 0 <= k < t.len() implies (#[trigger] t[k]) is Int by {
                assert(s[k] is Int);
            }
        }
        assert forall|k: int| 0 < k < t.len() && parent(k) != m implies !less(#[trigger] t[k], t[parent(k)]) by {
            assert(s[k] is Int && s[parent(k)] is Int);
            if k == m {
            } else if parent(k) == i {
                assert(!less(s[k], s[m]));
            } else if k == i {
                assert(!less(s[m], s[parent(i)]));
            }
        }
        assert forall|c: int| 0 < c < t.len() && parent(c) == m implies !less(#[trigger] t[c], t[parent(m)]) by {
            assert(s[c] is Int && s[m] is Int);
            assert(!less(s[c], s[m]));
        }
        lemma_sift_down_ordered(t, m);
    } else {
        assert forall|k: int| 0 < k < s.len() implies !less(#[trigger] s[k], s[parent(k)]) by {
            if parent(k) == i {
                assert(k == 2 * i + 1 || k == 2 * i + 2);
            }
        }
    }
}

/// `heap_pop` keeps the other items: the list after holds the old items
/// less the root.
pub proof fn law_pop_keeps_items(s: Seq<Value>)
    requires
        s.len() > 0,
    ensures
        popped(s).to_multiset() == s.to_multiset().remove(s[0]),
{
    let t = swapped(s, 0, s.len() - 1);
    lemma_swapped_items(s, 0, s.len() - 1);
    assert(t =~= t.drop_last().push(t.last()));
    assert(t.last() == s[0]);
    lemma_sift_down_items(t.drop_last(), 0);
}

/// `heap_pop` keeps a heap of integers ordered.
pub proof fn law_pop_keeps_order(s: Seq<Value>)
    requires
        s.len() > 0,
        all_ints(s),
        heap_ordered(s),
    ensures
        heap_ordered(popped(s)),
{
    let n = s.len();
    let u = swapped(s, 0, n - 1).drop_last();
    assert(ordered_but_down(u, 0)) by {
        assert forall|k: int| 0 <= k < u.len() implies (#[trigger] u[k]) is Int by {
            assert(s[k] is Int);
            assert(s[n - 1] is Int);
        }
        assert forall|k: int| 0 < k < u.len() && parent(k) != 0 implies !less(#[trigger] u[k], u[parent(k)]) by {
            assert(!less(s[k], s[parent(k)]));
        }
    }
    lemma_sift_down_ordered(u, 0);
}

/// In an ordered heap of integers no item is smaller than the root, so
/// `heap_pop` and `heap_peek` give the smallest item.
pub proof fn law_root_is_least(s: Seq<Value>, k: int)
    requires
        all_ints(s),
        heap_ordered(s),
        0 <= k < s.len(),
    ensures
        s[0]->Int_0 <= s[k]->Int_0,
    decreases k,
{
    if k > 0 {
        assert(!less(s[k], s[parent(k)]));
        assert(s[k] is Int && s[parent(k)] is Int);
        law_root_is_least(s, parent(k));
    }
}

/// A sorted list is an ordered heap, so `heap_pop` on a list `heap_push`
/// built gives its smallest item.
pub proof fn law_sorted_is_heap(s: Seq<Value>)
    requires
        sorted(s),
    ensures
        heap_ordered(s),
{
    assert forall|k: int| 0 < k < s.len() implies !less(#[trigger] s[k], s[parent(k)]) by {
        assert(0 <= parent(k) < k);
    }
}

} // verus!

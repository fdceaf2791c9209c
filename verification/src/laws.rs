//! Properties that relate several operations of the library, stated over
//! the models that the operations' contracts use.

use vstd::prelude::*;
use crate::value::Value;
use crate::vm::VM;
use crate::crypto::{hex_text, hex_digit};
use crate::random::is_hex_digit;
use crate::object::Object;
use crate::heap::{is_path, reachable, reachable_set};

verus! {

/// A value pushed on the stack is the one popped next, and popping it
/// leaves the stack as it was (`VM::push`, then `VM::pop`).
pub proof fn law_push_then_pop(before: VM, after_push: VM, v: Value)
    requires
        after_push.stack@ == before.stack@.push(v),
    ensures
        after_push.stack@.len() > 0,
        after_push.stack@.last() == v,
        after_push.stack@.drop_last() == before.stack@,
{
    assert(after_push.stack@.drop_last() =~= before.stack@);
}

/// Queues are first in, first out: after `enqueue(q, v)`, `dequeue` gives
/// the front of `q`, or `v` when `q` was empty, and leaves the rest in
/// order.
pub proof fn law_queue_fifo(q: Seq<Value>, v: Value)
    ensures
        q.push(v).len() > 0,
        q.push(v)[0] == (if q.len() == 0 { v } else { q[0] }),
        q.push(v).drop_first() == (if q.len() == 0 { q } else { q.drop_first().push(v) }),
{
    if q.len() == 0 {
        assert(q.push(v).drop_first() =~= q);
    } else {
        assert(q.push(v).drop_first() =~= q.drop_first().push(v));
    }
}

/// After `add_to_set` of a value, `contains_in_set` of it is true; after
/// `remove_from_set`, false. Both look the value up by the same text.
pub proof fn law_set_add_remove(keys: Set<Seq<char>>, k: Seq<char>)
    ensures
        keys.insert(k).contains(k),
        !keys.remove(k).contains(k),
{
}

/// `map_merge(a, b)` holds every key of either map, with `b`'s value where
/// both have the key.
pub proof fn law_merge_prefers_right(a: Map<Seq<char>, Value>, b: Map<Seq<char>, Value>, k: Seq<char>)
    ensures
        a.union_prefer_right(b).dom().contains(k) <==> (a.dom().contains(k) || b.dom().contains(k)),
        b.dom().contains(k) ==> a.union_prefer_right(b)[k] == b[k],
        a.dom().contains(k) && !b.dom().contains(k) ==> a.union_prefer_right(b)[k] == a[k],
{
}

/// Reversing a list twice gives it back (`reverse_list` and
/// `list_reverse`).
pub proof fn law_reverse_twice(l: Seq<Value>)
    ensures
        l.reverse().reverse() == l,
{
    assert(l.reverse().reverse() =~= l);
}

/// The hexadecimal text of `n` bytes has `2 * n` characters, each a
/// lower-case hexadecimal digit (so a SHA-256 digest reads as 64).
pub proof fn law_hex_text(bytes: Seq<u8>)
    ensures
        hex_text(bytes).len() == 2 * bytes.len(),
        forall|i: int| 0 <= i < hex_text(bytes).len() ==> is_hex_digit(#[trigger] hex_text(bytes)[i]),
    decreases bytes.len(),
{
    if bytes.len() > 0 {
        let b = bytes.last() as int;
        law_hex_text(bytes.drop_last());
        let front = hex_text(bytes.drop_last());
        let t = hex_text(bytes);
        assert(t == front + seq![hex_digit(b / 16), hex_digit(b % 16)]);
        assert forall|i: int| 0 <= i < t.len() implies is_hex_digit(#[trigger] t[i]) by {
            if i < front.len() {
                assert(t[i] == front[i]);
            } else if i == front.len() {
                assert(t[i] == hex_digit(b / 16));
                assert(0 <= b / 16 < 16);
            } else {
                assert(t[i] == hex_digit(b % 16));
                assert(0 <= b % 16 < 16);
            }
        }
    }
}

/// What a collection keeps of `live` from `roots` is all reachable from
/// the same roots, so a second collection frees nothing.
pub proof fn law_collection_keeps_reachable(live: Map<int, Object>, roots: Set<int>)
    ensures
        ({
            let once = live.restrict(reachable_set(live, roots));
            once.restrict(reachable_set(once, roots)) == once
        }),
{
    let once = live.restrict(reachable_set(live, roots));
    assert forall|x: int| once.dom().contains(x) implies #[trigger] reachable(once, roots, x) by {
        let p = choose|p: Seq<int>| is_path(live, p) && roots.contains(p[0]) && #[trigger] p.last() == x;
        assert forall|i: int| 0 <= i < p.len() implies once.dom().contains(#[trigger] p[i]) by {
            let q = p.take(i + 1);
            assert(q.last() == p[i]);
            assert(is_path(live, q));
            assert(reachable(live, roots, p[i]));
            assert(reachable_set(live, roots).contains(p[i]));
        }
        assert forall|i: int| 0 <= i < p.len() - 1 implies crate::object::refers_to(once[#[trigger] p[i]], p[i + 1] as usize) by {
            assert(once[p[i]] == live[p[i]]);
        }
        assert(is_path(once, p));
    }
    assert(once.restrict(reachable_set(once, roots)) =~= once);
}

/// Collecting garbage twice in a row (`VM::collect_garbage`) frees nothing
/// the second time: the heap after the second collection is the heap
/// after the first.
pub proof fn law_second_collection_frees_nothing(v0: VM, v1: VM, v2: VM)
    requires
        v1.heap.live() == v0.heap.live().restrict(reachable_set(v0.heap.live(), v0.roots())),
        v1.stack == v0.stack,
        v1.frames == v0.frames,
        v1.globals == v0.globals,
        v1.builtins == v0.builtins,
        v1.open_upvalues == v0.open_upvalues,
        v2.heap.live() == v1.heap.live().restrict(reachable_set(v1.heap.live(), v1.roots())),
    ensures
        v2.heap.live() == v1.heap.live(),
{
    assert(v1.roots() == v0.roots());
    law_collection_keeps_reachable(v0.heap.live(), v0.roots());
}

} // verus!

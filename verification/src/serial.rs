//! Binary serialisation: a value is turned into a JSON-like tree, which
//! `bincode` encodes through `serde_json`; the bytes come back as a list of
//! integers. Decoding bytes into a JSON value is asked of `bincode` too.

use vstd::prelude::*;
use serde_json::Value as JsonTree;
use crate::value::{Value, PulseError, PulseResult, text};
use crate::object::Object;
use crate::heap::Heap;
use crate::namemap::NameMap;
use crate::vm::{object_of, heap_string};
use crate::utils::{ready, grows, list_of};

verus! {

broadcast use {vstd::std_specs::vec::group_vec_axioms};

/// A tree of the values that serialise: JSON's, with integer numbers.
pub enum Serial {
    Null,
    Bool(bool),
    Int(i64),
    Str(String),
    Arr(Vec<Serial>),
    Obj(Vec<(String, Serial)>),
}

/// `bincode::deserialize::<serde_json::Value>` of the bytes: whether it
/// failed. Reading a `serde_json::Value` asks for any value
/// (`deserialize_any`, in serde_json's `value/de.rs`), which bincode's
/// deserializer always refuses (`DeserializeAnyNotSupported`, in its
/// `de/mod.rs`). Claimed: the call fails, whatever the bytes.
#[verifier::external_body]
fn decode_fails(bytes: &[u8]) -> (failed: bool)
    ensures
        failed,
{
    bincode::deserialize::<serde_json::Value>(bytes).is_err()
}

/// `v` serialises as the tree `s`, with `depth` levels of lists and maps
/// left: unit as null, booleans, integers and floats as themselves,
/// strings, lists as arrays and maps as objects (entries in the map's
/// order).
pub open spec fn serialises(h: Heap, v: Value, s: Serial, depth: nat) -> bool
    decreases depth,
{
    match v {
        Value::Unit => s == Serial::Null,
        Value::Bool(b) => s == Serial::Bool(b),
        Value::Int(i) => s == Serial::Int(i),
        Value::Obj(_) => match (object_of(h, v), s) {
            (Some(Object::String(t)), Serial::Str(u)) => u@ == t@,
            (Some(Object::List(l)), Serial::Arr(items)) => depth > 0 && items@.len() == l@.len()
                && forall|i: int| 0 <= i < l@.len() ==> serialises(h, #[trigger] l@[i], items@[i], (depth - 1) as nat),
            (Some(Object::Dict(m)), Serial::Obj(es)) => depth > 0 && es@.len() == m.entries@.len()
                && forall|i: int| 0 <= i < es@.len() ==> (#[trigger] es@[i]).0@ == m.entries@[i].0@
                    && serialises(h, m.entries@[i].1, es@[i].1, (depth - 1) as nat),
            _ => false,
        },
        _ => false,
    }
}

/// What stops `v` from serialising within `depth` levels, met first in
/// order: `Some(true)` for a float (the host serialises it), `Some(false)`
/// for anything else that is not unit, a boolean, an integer, a string, or
/// a list or map of such; `None` when nothing does.
pub open spec fn serial_fault(h: Heap, v: Value, depth: nat) -> Option<bool>
    decreases depth, 0nat,
{
    match v {
        Value::Unit | Value::Bool(_) | Value::Int(_) => None,
        Value::Float(_) => Some(true),
        Value::Obj(_) => match object_of(h, v) {
            Some(Object::String(_)) => None,
            Some(Object::List(l)) => if depth == 0 { Some(false) } else { first_fault(h, l@, (depth - 1) as nat) },
            Some(Object::Dict(m)) => if depth == 0 {
                Some(false)
            } else {
                first_fault(h, m.entries@.map_values(|e: (String, Value)| e.1), (depth - 1) as nat)
            },
            _ => Some(false),
        },
        _ => Some(false),
    }
}

/// The first fault among the values, in order.
pub open spec fn first_fault(h: Heap, s: Seq<Value>, depth: nat) -> Option<bool>
    decreases depth, s.len() + 1,
{
    if s.len() == 0 {
        None
    } else {
        match first_fault(h, s.drop_last(), depth) {
            Some(f) => Some(f),
            None => serial_fault(h, s.last(), depth),
        }
    }
}

proof fn lemma_first_fault_none(h: Heap, s: Seq<Value>, depth: nat, n: int)
    requires
        0 <= n <= s.len(),
        first_fault(h, s.take(n), depth) is None,
        forall|k: int| n <= k < s.len() ==> serial_fault(h, #[trigger] s[k], depth) is None,
    ensures
        first_fault(h, s, depth) is None,
    decreases s.len() - n,
{
    if n < s.len() {
        let p = s.take(n + 1);
        assert(p.drop_last() =~= s.take(n));
        lemma_first_fault_none(h, s, depth, n + 1);
    } else {
        assert(s.take(n) =~= s);
    }
}

proof fn lemma_first_fault_some(h: Heap, s: Seq<Value>, depth: nat, n: int)
    requires
        0 < n <= s.len(),
        first_fault(h, s.take(n), depth) is Some,
    ensures
        first_fault(h, s, depth) == first_fault(h, s.take(n), depth),
    decreases s.len() - n,
{
    if n < s.len() {
        let p = s.take(n + 1);
        assert(p.drop_last() =~= s.take(n));
        lemma_first_fault_some(h, s, depth, n + 1);
    } else {
        assert(s.take(n) =~= s);
    }
}

/// The tree of a value, with `depth` levels of lists and maps, or the
/// first fault (see `serial_fault`).
fn to_serial(heap: &Heap, v: Value, depth: usize) -> (r: Result<Serial, bool>)
    requires
        heap.wf(),
    ensures
        match serial_fault(*heap, v, depth as nat) {
            None => r matches Ok(s) && serialises(*heap, v, s, depth as nat),
            Some(f) => r == Err::<Serial, bool>(f),
        },
    decreases depth,
{
    match v {
        Value::Unit => Ok(Serial::Null),
        Value::Bool(b) => Ok(Serial::Bool(b)),
        Value::Int(i) => Ok(Serial::Int(i)),
        Value::Float(_) => Err(true),
        Value::Obj(x) => match heap.get(x) {
            Some(Object::String(t)) => Ok(Serial::Str(t.clone())),
            Some(Object::List(l)) => {
                if depth == 0 {
                    return Err(false);
                }
                let mut items: Vec<Serial> = Vec::new();
                let mut i: usize = 0;
                while i < l.len()
                    invariant
                        heap.wf(),
                        depth > 0,
                        v == Value::Obj(x),
                        object_of(*heap, v) == Some(Object::List(*l)),
                        i <= l@.len(),
                        items@.len() == i,
                        first_fault(*heap, l@.take(i as int), (depth - 1) as nat) is None,
                        forall|k: int| 0 <= k < i ==> serialises(*heap, #[trigger] l@[k], items@[k], (depth - 1) as nat),
                    decreases l@.len() - i,
                {
                    let ghost p = l@.take(i + 1);
                    assert(p.drop_last() =~= l@.take(i as int));
                    match to_serial(heap, l[i], depth - 1) {
                        Ok(s) => items.push(s),
                        Err(f) => {
                            proof {
                                assert(p.last() == l@[i as int]);
                                assert(first_fault(*heap, p, (depth - 1) as nat) == Some(f));
                                lemma_first_fault_some(*heap, l@, (depth - 1) as nat, i + 1);
                                assert(serial_fault(*heap, v, depth as nat) == first_fault(*heap, l@, (depth - 1) as nat));
                            }
                            return Err(f);
                        },
                    }
                    i = i + 1;
                }
                assert(l@.take(i as int) =~= l@);
                Ok(Serial::Arr(items))
            },
            Some(Object::Dict(m)) => {
                if depth == 0 {
                    return Err(false);
                }
                let ghost vals = m.entries@.map_values(|e: (String, Value)| e.1);
                let mut es: Vec<(String, Serial)> = Vec::new();
                let mut i: usize = 0;
                while i < m.entries.len()
                    invariant
                        heap.wf(),
                        depth > 0,
                        v == Value::Obj(x),
                        object_of(*heap, v) == Some(Object::Dict(*m)),
                        i <= m.entries@.len(),
                        vals == m.entries@.map_values(|e: (String, Value)| e.1),
                        es@.len() == i,
                        first_fault(*heap, vals.take(i as int), (depth - 1) as nat) is None,
                        forall|k: int| 0 <= k < i ==> (#[trigger] es@[k]).0@ == m.entries@[k].0@
                            && serialises(*heap, m.entries@[k].1, es@[k].1, (depth - 1) as nat),
                    decreases m.entries@.len() - i,
                {
                    let ghost p = vals.take(i + 1);
                    assert(p.drop_last() =~= vals.take(i as int));
                    assert(p.last() == m.entries@[i as int].1);
                    match to_serial(heap, m.entries[i].1, depth - 1) {
                        Ok(s) => es.push((m.entries[i].0.clone(), s)),
                        Err(f) => {
                            proof {
                                assert(first_fault(*heap, p, (depth - 1) as nat) == Some(f));
                                lemma_first_fault_some(*heap, vals, (depth - 1) as nat, i + 1);
                            }
                            return Err(f);
                        },
                    }
                    i = i + 1;
                }
                assert(vals.take(i as int) =~= vals);
                Ok(Serial::Obj(es))
            },
            _ => Err(false),
        },
        _ => Err(false),
    }
}

/// The tree `bincode_serialize(v)` encodes: `v` as a JSON value, lists
/// and maps as deep as the heap has slots. A float needs the host; values
/// of other kinds, and no argument, are runtime errors.
pub fn serial_tree(heap: &Heap, args: &[Value]) -> (r: PulseResult<Serial>)
    requires
        heap.wf(),
    ensures
        args@.len() == 0 ==> crate::value::is_runtime_error(r),
        args@.len() > 0 ==> match serial_fault(*heap, args@[0], heap.slots()) {
            Some(f) => if f { crate::value::is_float_host(r) } else { crate::value::is_runtime_error(r) },
            None => r matches Ok(s) && serialises(*heap, args@[0], s, heap.slots()),
        },
{
    if args.len() == 0 {
        return Err(PulseError::RuntimeError(text("Expected value to serialize")));
    }
    match to_serial(heap, args[0], heap.slot_count()) {
        Ok(s) => Ok(s),
        Err(true) => Err(PulseError::NeedsFloatHost),
        Err(false) => Err(PulseError::RuntimeError(text("Cannot serialize value"))),
    }
}

/// A new list of the bytes as integers, the result of `bincode_serialize`.
pub fn byte_values(heap: &mut Heap, bytes: &Vec<u8>) -> (r: Value)
    requires
        ready(*old(heap)),
    ensures
        ready(*final(heap)),
        crate::utils::new_list(*old(heap), *final(heap), Ok::<Value, PulseError>(r), bytes@.map_values(|x: u8| Value::Int(x as i64))),
{
    let mut out: Vec<Value> = Vec::new();
    let mut i: usize = 0;
    while i < bytes.len()
        invariant
            i <= bytes@.len(),
            out@ == bytes@.take(i as int).map_values(|x: u8| Value::Int(x as i64)),
        decreases bytes@.len() - i,
    {
        out.push(Value::Int(bytes[i] as i64));
        i = i + 1;
        assert(out@ =~= bytes@.take(i as int).map_values(|x: u8| Value::Int(x as i64)));
    }
    assert(bytes@.take(i as int) =~= bytes@);
    let x = heap.allocate(Object::List(out));
    Value::Obj(x)
}

/// The bytes of a list of integers, each cut to its low 8 bits; none when
/// an item is not an integer.
pub open spec fn byte_list(l: Seq<Value>) -> Option<Seq<u8>> {
    if forall|i: int| 0 <= i < l.len() ==> (#[trigger] l[i]) is Int {
        Some(Seq::new(l.len(), |i: int| l[i]->Int_0 as u8))
    } else {
        None
    }
}

/// The bytes `bincode::serialize` writes for the `serde_json::Value` the
/// tree stands for, node for node; `None` where it fails.
pub uninterp spec fn bincode_of(tree: Serial) -> Option<Seq<u8>>;

/// `bincode::serialize` of the tree as a `serde_json::Value` (`serial_json`).
/// Claimed: the result is `bincode_of(tree)`.
#[verifier::external_body]
fn bincode_bytes(tree: &Serial) -> (r: Option<Vec<u8>>)
    ensures
        match r {
            Some(b) => bincode_of(*tree) == Some(b@),
            None => bincode_of(*tree) is None,
        },
{
    bincode::serialize(&serial_json(tree)).ok()
}

/// The tree as a `serde_json::Value`, node for node. Nothing is claimed of
/// it: `bincode_bytes` states what it gives.
#[verifier::external_body]
fn serial_json(t: &Serial) -> JsonTree {
    match t {
        Serial::Null => JsonTree::Null,
        Serial::Bool(b) => JsonTree::Bool(*b),
        Serial::Int(i) => JsonTree::Number((*i).into()),
        Serial::Str(s) => JsonTree::String(s.clone()),
        Serial::Arr(items) => JsonTree::Array(items.iter().map(serial_json).collect()),
        Serial::Obj(es) => JsonTree::Object(es.iter().map(|(k, v)| (k.clone(), serial_json(v))).collect()),
    }
}

/// `bincode_serialize(v)`: the bytes `bincode` writes for the tree `v`
/// stands for (see `serial_tree`), as a new list of integers; a float
/// needs the host, and a value that makes no tree or that `bincode` cannot
/// write is a runtime error.
pub fn bincode_serialize_native(heap: &mut Heap, args: &[Value]) -> (r: PulseResult<Value>)
    requires
        ready(*old(heap)),
    ensures
        ready(*final(heap)),
        args@.len() == 0 ==> crate::value::is_runtime_error(r) && *final(heap) == *old(heap),
        args@.len() > 0 ==> match serial_fault(*old(heap), args@[0], old(heap).slots()) {
            Some(f) => (if f { crate::value::is_float_host(r) } else { crate::value::is_runtime_error(r) }) && *final(heap) == *old(heap),
            None => exists|t: Serial| #[trigger] serialises(*old(heap), args@[0], t, old(heap).slots()) && match bincode_of(t) {
                Some(b) => crate::utils::new_list(*old(heap), *final(heap), r, b.map_values(|x: u8| Value::Int(x as i64))),
                None => crate::value::is_runtime_error(r) && *final(heap) == *old(heap),
            },
        },
{
    proof { old(heap).lemma_wf(); }
    let tree = serial_tree(heap, args)?;
    match bincode_bytes(&tree) {
        Some(b) => Ok(byte_values(heap, &b)),
        None => Err(PulseError::RuntimeError(text("Serialize failed"))),
    }
}

/// `bincode_deserialize(bytes)`: `bincode` is asked for a JSON value in
/// the list of integers (each cut to a byte), which it never gives (see
/// `decode_fails`); a runtime error in every case.
pub fn bincode_deserialize_native(heap: &mut Heap, args: &[Value]) -> (r: PulseResult<Value>)
    requires
        ready(*old(heap)),
    ensures
        *final(heap) == *old(heap),
        crate::value::is_runtime_error(r),
{
    if args.len() == 0 {
        return Err(PulseError::RuntimeError(text("Expected list of bytes")));
    }
    let items = match args[0] {
        Value::Obj(x) => match heap.get(x) {
            Some(Object::List(l)) => crate::object::vec_copy(l),
            _ => {
                return Err(PulseError::RuntimeError(text("Expected list of bytes")));
            },
        },
        _ => {
            return Err(PulseError::RuntimeError(text("Expected list of bytes")));
        },
    };
    let mut bytes: Vec<u8> = Vec::new();
    let mut i: usize = 0;
    while i < items.len()
        invariant
            i <= items@.len(),
            bytes@.len() == i,
            forall|k: int| 0 <= k < i ==> (#[trigger] items@[k]) is Int && bytes@[k] == #[verifier::truncate] (items@[k]->Int_0 as u8),
        decreases items@.len() - i,
    {
        match items[i] {
            Value::Int(n) => bytes.push(#[verifier::truncate] (n as u8)),
            _ => {
                assert(!(items@[i as int] is Int));
                return Err(PulseError::RuntimeError(text("Byte list must contain integers")));
            },
        }
        i = i + 1;
    }
    assert(bytes@ =~= byte_list(items@)->Some_0);
    let failed = decode_fails(bytes.as_slice());
    assert(failed);
    Err(PulseError::RuntimeError(text("Deserialize failed")))
}

} // verus!

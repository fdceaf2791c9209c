//! Natives for tests written in Pulse: assertions that fail the program.

use vstd::prelude::*;
use crate::value::{Value, PulseError, PulseResult, text};
use crate::object::Object;
use crate::heap::Heap;
use crate::text::{push_str, i64_to_string, int_text};
use crate::vm::{object_of, heap_string};
use crate::utils::ready;

verus! {

broadcast use {vstd::std_specs::vec::group_vec_axioms, vstd::string::group_string_axioms};

/// Whether two values are equal for the assertions, looking `depth`
/// levels into lists: equal primitives, the same object, two strings with
/// the same text, or two lists of equal items. `None` when a float is
/// compared (the host compares floats) or the lists nest deeper.
pub open spec fn same_value(h: Heap, a: Value, b: Value, depth: nat) -> Option<bool>
    decreases depth, 0nat,
{
    match (a, b) {
        (Value::Float(_), Value::Float(_)) => None,
        (Value::Int(_), Value::Float(_)) => None,
        (Value::Float(_), Value::Int(_)) => None,
        (Value::Obj(x), Value::Obj(y)) => if x == y {
            Some(true)
        } else {
            match (object_of(h, a), object_of(h, b)) {
                (Some(Object::String(s1)), Some(Object::String(s2))) => Some(s1@ == s2@),
                (Some(Object::List(l1)), Some(Object::List(l2))) => if l1@.len() != l2@.len() {
                    Some(false)
                } else if depth == 0 {
                    None
                } else {
                    same_items(h, l1@, l2@, 0, (depth - 1) as nat)
                },
                _ => Some(false),
            }
        },
        (Value::Int(x), Value::Int(y)) => Some(x == y),
        (Value::Bool(x), Value::Bool(y)) => Some(x == y),
        (Value::Unit, Value::Unit) => Some(true),
        (Value::Pid(x), Value::Pid(y)) => Some(x == y),
        _ => Some(false),
    }
}

/// The items of two lists of one length are pairwise equal from `i` on;
/// the first unequal pair decides.
pub open spec fn same_items(h: Heap, l1: Seq<Value>, l2: Seq<Value>, i: int, depth: nat) -> Option<bool>
    decreases depth, l1.len() - i + 1,
{
    if i >= l1.len() || i < 0 || l2.len() != l1.len() {
        Some(true)
    } else {
        match same_value(h, l1[i], l2[i], depth) {
            Some(true) => same_items(h, l1, l2, i + 1, depth),
            other => other,
        }
    }
}

fn equal_values(heap: &Heap, a: Value, b: Value, depth: usize) -> (r: Option<bool>)
    requires
        heap.wf(),
    ensures
        r == same_value(*heap, a, b, depth as nat),
    decreases depth, 0nat,
{
    match (a, b) {
        (Value::Float(_), Value::Float(_)) => None,
        (Value::Int(_), Value::Float(_)) => None,
        (Value::Float(_), Value::Int(_)) => None,
        (Value::Obj(x), Value::Obj(y)) => {
            if x == y {
                return Some(true);
            }
            match (heap.get(x), heap.get(y)) {
                (Some(Object::String(s1)), Some(Object::String(s2))) => Some(crate::namemap::str_equal(s1.as_str(), s2.as_str())),
                (Some(Object::List(l1)), Some(Object::List(l2))) => {
                    if l1.len() != l2.len() {
                        Some(false)
                    } else if depth == 0 {
                        None
                    } else {
                        equal_items(heap, l1, l2, 0, depth - 1)
                    }
                },
                _ => Some(false),
            }
        },
        (Value::Int(x), Value::Int(y)) => Some(x == y),
        (Value::Bool(x), Value::Bool(y)) => Some(x == y),
        (Value::Unit, Value::Unit) => Some(true),
        (Value::Pid(x), Value::Pid(y)) => Some(x == y),
        _ => Some(false),
    }
}

fn equal_items(heap: &Heap, l1: &Vec<Value>, l2: &Vec<Value>, i: usize, depth: usize) -> (r: Option<bool>)
    requires
        heap.wf(),
        l1@.len() == l2@.len(),
        i <= l1@.len(),
    ensures
        r == same_items(*heap, l1@, l2@, i as int, depth as nat),
    decreases depth, l1@.len() - i + 1,
{
    if i >= l1.len() {
        return Some(true);
    }
    match equal_values(heap, l1[i], l2[i], depth) {
        Some(true) => equal_items(heap, l1, l2, i + 1, depth),
        other => other,
    }
}

/// `assert(c)`: unit when `c` is true; false fails the assertion.
pub fn assert_native(heap: &mut Heap, args: &[Value]) -> (r: PulseResult<Value>)
    ensures
        *final(heap) == *old(heap),
        args@.len() != 1 ==> crate::value::is_runtime_error(r),
        args@.len() == 1 ==> match args@[0] {
            Value::Bool(true) => r == Ok::<Value, PulseError>(Value::Unit),
            Value::Bool(false) => crate::value::is_runtime_error(r),
            _ => crate::value::is_type_mismatch(r),
        },
{
    if args.len() != 1 {
        return Err(PulseError::RuntimeError(text("assert expects 1 argument")));
    }
    match args[0] {
        Value::Bool(true) => Ok(Value::Unit),
        Value::Bool(false) => Err(PulseError::RuntimeError(text("Assertion failed"))),
        _ => Err(PulseError::TypeMismatch { expected: text("Bool"), got: args[0].kind_name() }),
    }
}

/// `assert_eq(a, b)` (`expect_equal`) and `assert_ne(a, b)`: unit when the
/// values are equal (or unequal); otherwise the assertion fails. Comparing
/// floats needs the host. Lists are compared as deep as there are heap
/// slots.
fn equality_check(heap: &mut Heap, args: &[Value], expect_equal: bool) -> (r: PulseResult<Value>)
    requires
        ready(*old(heap)),
    ensures
        *final(heap) == *old(heap),
        args@.len() != 2 ==> crate::value::is_runtime_error(r),
        args@.len() == 2 ==> match same_value(*old(heap), args@[0], args@[1], old(heap).slots()) {
            Some(eq) => if eq == expect_equal {
                r == Ok::<Value, PulseError>(Value::Unit)
            } else {
                crate::value::is_runtime_error(r)
            },
            None => crate::value::is_float_host(r),
        },
{
    if args.len() != 2 {
        return Err(PulseError::RuntimeError(text("assert_eq expects 2 arguments")));
    }
    match equal_values(heap, args[0], args[1], heap.slot_count()) {
        Some(eq) => {
            if eq == expect_equal {
                Ok(Value::Unit)
            } else if expect_equal {
                Err(PulseError::RuntimeError(text("Assertion failed: values are not equal")))
            } else {
                Err(PulseError::RuntimeError(text("Assertion failed: values are equal")))
            }
        },
        None => Err(PulseError::NeedsFloatHost),
    }
}

/// `assert_eq(a, b)`: unit when the values are equal, otherwise a failed assertion.
pub fn assert_eq_native(heap: &mut Heap, args: &[Value]) -> (r: PulseResult<Value>)
    requires
        ready(*old(heap)),
    ensures
        *final(heap) == *old(heap),
        args@.len() != 2 ==> crate::value::is_runtime_error(r),
        args@.len() == 2 ==> match same_value(*old(heap), args@[0], args@[1], old(heap).slots()) {
            Some(eq) => if eq {
                r == Ok::<Value, PulseError>(Value::Unit)
            } else {
                crate::value::is_runtime_error(r)
            },
            None => crate::value::is_float_host(r),
        },
{
    equality_check(heap, args, true)
}

/// `assert_ne(a, b)`: unit when the values differ, otherwise a failed assertion.
pub fn assert_ne_native(heap: &mut Heap, args: &[Value]) -> (r: PulseResult<Value>)
    requires
        ready(*old(heap)),
    ensures
        *final(heap) == *old(heap),
        args@.len() != 2 ==> crate::value::is_runtime_error(r),
        args@.len() == 2 ==> match same_value(*old(heap), args@[0], args@[1], old(heap).slots()) {
            Some(eq) => if !eq {
                r == Ok::<Value, PulseError>(Value::Unit)
            } else {
                crate::value::is_runtime_error(r)
            },
            None => crate::value::is_float_host(r),
        },
{
    equality_check(heap, args, false)
}

/// The error `fail` gives: "Test failed" without a message, a string
/// message in quotes, an integer in decimal.
pub open spec fn fail_message(h: Heap, args: Seq<Value>, r: PulseResult<Value>) -> bool {
    &&& r matches Err(PulseError::RuntimeError(m))
    &&& args.len() == 0 ==> m@ == "Test failed"@
    &&& (args.len() > 0 && args[0] is Obj && heap_string(h, args[0]->Obj_0) is Some) ==>
            m@ == seq!['"'] + heap_string(h, args[0]->Obj_0)->Some_0 + seq!['"']
    &&& (args.len() > 0 && args[0] is Int) ==> m@ == int_text(args[0]->Int_0 as int)
}

/// `fail(msg)`: always fails; a string message is quoted into the error.
/// A float, a pid or a list as the message is written by the host.
pub fn fail_native(heap: &mut Heap, args: &[Value]) -> (r: PulseResult<Value>)
    requires
        ready(*old(heap)),
    ensures
        *final(heap) == *old(heap),
        args@.len() > 0 && (args@[0] is Float || args@[0] is Pid || object_of(*old(heap), args@[0]) matches Some(Object::List(_)))
            ==> crate::value::is_float_host(r),
        !(args@.len() > 0 && (args@[0] is Float || args@[0] is Pid || object_of(*old(heap), args@[0]) matches Some(Object::List(_))))
            ==> fail_message(*old(heap), args@, r),
{
    if args.len() == 0 {
        return Err(PulseError::RuntimeError(text("Test failed")));
    }
    let msg = match args[0] {
        Value::Int(i) => i64_to_string(i),
        Value::Bool(b) => if b { text("true") } else { text("false") },
        Value::Unit => text("nil"),
        Value::Obj(x) => match heap.get(x) {
            Some(Object::String(s)) => {
                let mut m = text("\"");
                push_str(&mut m, s.as_str());
                push_str(&mut m, "\"");
                proof {
                    reveal_strlit("\"");
                    assert(m@ =~= seq!['"'] + s@ + seq!['"']);
                }
                m
            },
            Some(Object::Dict(_)) => text("<map>"),
            Some(Object::Closure(_)) => text("<fn>"),
            Some(Object::Instance(i)) => {
                let mut m = text("<instance ");
                push_str(&mut m, i.class.name.as_str());
                push_str(&mut m, ">");
                m
            },
            Some(Object::BoundMethod(_)) => text("<bound method>"),
            Some(Object::List(_)) => {
                return Err(PulseError::NeedsFloatHost);
            },
            _ => text("<object>"),
        },
        _ => {
            return Err(PulseError::NeedsFloatHost);
        },
    };
    Err(PulseError::RuntimeError(msg))
}

} // verus!

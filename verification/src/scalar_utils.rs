//! Natives on single values: kind tests, integer parsing, the smaller and
//! larger of two numbers, and character codes.

use vstd::prelude::*;
use crate::value::{Value, PulseError, PulseResult, text};
use crate::object::Object;
use crate::heap::Heap;
use crate::vm::{object_of, heap_string};
use crate::text::{chars_of, string_from_chars};
use crate::utils::{ready, new_string, parse_i64, parsed_int};
use crate::string_utils::{trim_chars, trimmed};

verus! {

broadcast use {vstd::std_specs::vec::group_vec_axioms, vstd::string::group_string_axioms};

/// What `is_int`, `is_float`, `is_string`, `is_bool`, `is_list`, `is_map`
/// and `is_nil` test.
pub enum KindTest {
    Int,
    Float,
    Text,
    Bool,
    List,
    Dict,
    Nil,
}

/// Whether `v` passes the kind test.
pub open spec fn passes(h: Heap, v: Value, k: KindTest) -> bool {
    match k {
        KindTest::Int => v is Int,
        KindTest::Float => v is Float,
        KindTest::Text => object_of(h, v) matches Some(Object::String(_)),
        KindTest::Bool => v is Bool,
        KindTest::List => object_of(h, v) matches Some(Object::List(_)),
        KindTest::Dict => object_of(h, v) matches Some(Object::Dict(_)),
        KindTest::Nil => v is Unit,
    }
}

fn kind_test(heap: &Heap, args: &[Value], k: KindTest) -> (r: PulseResult<Value>)
    requires
        heap.wf(),
    ensures
        args@.len() != 1 ==> crate::value::is_runtime_error(r),
        args@.len() == 1 ==> r == Ok::<Value, PulseError>(Value::Bool(passes(*heap, args@[0], k))),
{
    if args.len() != 1 {
        return Err(PulseError::RuntimeError(text("kind tests expect 1 argument")));
    }
    let v = args[0];
    let b = match k {
        KindTest::Int => matches!(v, Value::Int(_)),
        KindTest::Float => matches!(v, Value::Float(_)),
        KindTest::Bool => matches!(v, Value::Bool(_)),
        KindTest::Nil => matches!(v, Value::Unit),
        _ => match v {
            Value::Obj(x) => match (heap.get(x), k) {
                (Some(Object::String(_)), KindTest::Text) => true,
                (Some(Object::List(_)), KindTest::List) => true,
                (Some(Object::Dict(_)), KindTest::Dict) => true,
                _ => false,
            },
            _ => false,
        },
    };
    Ok(Value::Bool(b))
}

/// `is_int(v)`: whether `v` is an integer.
pub fn is_int_native(heap: &mut Heap, args: &[Value]) -> (r: PulseResult<Value>)
    requires
        ready(*old(heap)),
    ensures
        *final(heap) == *old(heap),
        args@.len() != 1 ==> crate::value::is_runtime_error(r),
        args@.len() == 1 ==> r == Ok::<Value, PulseError>(Value::Bool(args@[0] is Int)),
{
    kind_test(heap, args, KindTest::Int)
}

/// `is_float(v)`: whether `v` is a float.
pub fn is_float_native(heap: &mut Heap, args: &[Value]) -> (r: PulseResult<Value>)
    requires
        ready(*old(heap)),
    ensures
        *final(heap) == *old(heap),
        args@.len() != 1 ==> crate::value::is_runtime_error(r),
        args@.len() == 1 ==> r == Ok::<Value, PulseError>(Value::Bool(args@[0] is Float)),
{
    kind_test(heap, args, KindTest::Float)
}

/// `is_string(v)`: whether `v` refers to a string.
pub fn is_string_native(heap: &mut Heap, args: &[Value]) -> (r: PulseResult<Value>)
    requires
        ready(*old(heap)),
    ensures
        *final(heap) == *old(heap),
        args@.len() != 1 ==> crate::value::is_runtime_error(r),
        args@.len() == 1 ==> r == Ok::<Value, PulseError>(Value::Bool(object_of(*old(heap), args@[0]) matches Some(Object::String(_)))),
{
    kind_test(heap, args, KindTest::Text)
}

/// `is_bool(v)`: whether `v` is a boolean.
pub fn is_bool_native(heap: &mut Heap, args: &[Value]) -> (r: PulseResult<Value>)
    requires
        ready(*old(heap)),
    ensures
        *final(heap) == *old(heap),
        args@.len() != 1 ==> crate::value::is_runtime_error(r),
        args@.len() == 1 ==> r == Ok::<Value, PulseError>(Value::Bool(args@[0] is Bool)),
{
    kind_test(heap, args, KindTest::Bool)
}

/// `is_list(v)`: whether `v` refers to a list.
pub fn is_list_native(heap: &mut Heap, args: &[Value]) -> (r: PulseResult<Value>)
    requires
        ready(*old(heap)),
    ensures
        *final(heap) == *old(heap),
        args@.len() != 1 ==> crate::value::is_runtime_error(r),
        args@.len() == 1 ==> r == Ok::<Value, PulseError>(Value::Bool(object_of(*old(heap), args@[0]) matches Some(Object::List(_)))),
{
    kind_test(heap, args, KindTest::List)
}

/// `is_map(v)`: whether `v` refers to a map.
pub fn is_map_native(heap: &mut Heap, args: &[Value]) -> (r: PulseResult<Value>)
    requires
        ready(*old(heap)),
    ensures
        *final(heap) == *old(heap),
        args@.len() != 1 ==> crate::value::is_runtime_error(r),
        args@.len() == 1 ==> r == Ok::<Value, PulseError>(Value::Bool(object_of(*old(heap), args@[0]) matches Some(Object::Dict(_)))),
{
    kind_test(heap, args, KindTest::Dict)
}

/// `is_nil(v)`: whether `v` is unit.
pub fn is_nil_native(heap: &mut Heap, args: &[Value]) -> (r: PulseResult<Value>)
    requires
        ready(*old(heap)),
    ensures
        *final(heap) == *old(heap),
        args@.len() != 1 ==> crate::value::is_runtime_error(r),
        args@.len() == 1 ==> r == Ok::<Value, PulseError>(Value::Bool(args@[0] is Unit)),
{
    kind_test(heap, args, KindTest::Nil)
}

/// `parse_int(s)`: the integer the string holds once white space is
/// trimmed from both ends, read as `str::parse::<i64>` reads it.
pub fn parse_int_native(heap: &mut Heap, args: &[Value]) -> (r: PulseResult<Value>)
    requires
        ready(*old(heap)),
    ensures
        *final(heap) == *old(heap),
        args@.len() != 1 ==> crate::value::is_runtime_error(r),
        args@.len() == 1 ==> match args@[0] {
            Value::Obj(x) => match heap_string(*old(heap), x) {
                Some(t) => match parsed_int(trimmed(t)) {
                    Some(i) => r == Ok::<Value, PulseError>(Value::Int(i)),
                    None => crate::value::is_runtime_error(r),
                },
                None => crate::value::is_type_mismatch(r),
            },
            _ => crate::value::is_type_mismatch(r),
        },
{
    if args.len() != 1 {
        return Err(PulseError::RuntimeError(text("parse_int expects 1 argument")));
    }
    let s = match args[0] {
        Value::Obj(x) => match heap.get(x) {
            Some(Object::String(s)) => trim_chars(&chars_of(s.as_str())),
            _ => {
                return Err(PulseError::TypeMismatch { expected: text("string"), got: text("other") });
            },
        },
        _ => {
            return Err(PulseError::TypeMismatch { expected: text("string"), got: args[0].kind_name() });
        },
    };
    let t = string_from_chars(s.as_slice());
    match parse_i64(t.as_str()) {
        Some(i) => Ok(Value::Int(i)),
        None => Err(PulseError::RuntimeError(text("Cannot parse as integer"))),
    }
}

/// The smaller (or with `larger` the larger) of two numbers: two integers
/// give an integer; a float among them needs the host; anything else is a
/// type mismatch.
pub open spec fn pick(a: Value, b: Value, larger: bool, r: PulseResult<Value>) -> bool {
    match (a, b) {
        (Value::Int(x), Value::Int(y)) => r == Ok::<Value, PulseError>(Value::Int(
            if larger { if x >= y { x } else { y } } else { if x <= y { x } else { y } })),
        (Value::Int(_), Value::Float(_)) | (Value::Float(_), Value::Int(_)) | (Value::Float(_), Value::Float(_)) =>
            crate::value::is_float_host(r),
        _ => crate::value::is_type_mismatch(r),
    }
}

fn pick_of(args: &[Value], larger: bool) -> (r: PulseResult<Value>)
    ensures
        args@.len() != 2 ==> crate::value::is_runtime_error(r),
        args@.len() == 2 ==> pick(args@[0], args@[1], larger, r),
{
    if args.len() != 2 {
        return Err(PulseError::RuntimeError(text("min and max expect 2 arguments")));
    }
    match (args[0], args[1]) {
        (Value::Int(x), Value::Int(y)) => Ok(Value::Int(if larger { if x >= y { x } else { y } } else { if x <= y { x } else { y } })),
        (Value::Int(_), Value::Float(_)) | (Value::Float(_), Value::Int(_)) | (Value::Float(_), Value::Float(_)) =>
            Err(PulseError::NeedsFloatHost),
        _ => Err(PulseError::TypeMismatch { expected: text("numeric"), got: args[0].kind_name() }),
    }
}

/// `min_val(a, b)`: the smaller number.
pub fn min_val_native(heap: &mut Heap, args: &[Value]) -> (r: PulseResult<Value>)
    ensures
        *final(heap) == *old(heap),
        args@.len() != 2 ==> crate::value::is_runtime_error(r),
        args@.len() == 2 ==> pick(args@[0], args@[1], false, r),
{
    pick_of(args, false)
}

/// `max_val(a, b)`: the larger number.
pub fn max_val_native(heap: &mut Heap, args: &[Value]) -> (r: PulseResult<Value>)
    ensures
        *final(heap) == *old(heap),
        args@.len() != 2 ==> crate::value::is_runtime_error(r),
        args@.len() == 2 ==> pick(args@[0], args@[1], true, r),
{
    pick_of(args, true)
}

/// `min(a, b)`: the smaller number, as `min_val`.
pub fn min_native(heap: &mut Heap, args: &[Value]) -> (r: PulseResult<Value>)
    ensures
        *final(heap) == *old(heap),
        args@.len() != 2 ==> crate::value::is_runtime_error(r),
        args@.len() == 2 ==> pick(args@[0], args@[1], false, r),
{
    pick_of(args, false)
}

/// `max(a, b)`: the larger number, as `max_val`.
pub fn max_native(heap: &mut Heap, args: &[Value]) -> (r: PulseResult<Value>)
    ensures
        *final(heap) == *old(heap),
        args@.len() != 2 ==> crate::value::is_runtime_error(r),
        args@.len() == 2 ==> pick(args@[0], args@[1], true, r),
{
    pick_of(args, true)
}

/// `char_code(s)`: the code point of the string's first character; a
/// runtime error for the empty string.
pub fn char_code_native(heap: &mut Heap, args: &[Value]) -> (r: PulseResult<Value>)
    requires
        ready(*old(heap)),
    ensures
        *final(heap) == *old(heap),
        args@.len() != 1 ==> crate::value::is_runtime_error(r),
        args@.len() == 1 ==> match args@[0] {
            Value::Obj(x) => match heap_string(*old(heap), x) {
                Some(t) => if t.len() == 0 {
                    crate::value::is_runtime_error(r)
                } else {
                    r == Ok::<Value, PulseError>(Value::Int(t[0] as u32 as i64))
                },
                None => crate::value::is_type_mismatch(r),
            },
            _ => crate::value::is_type_mismatch(r),
        },
{
    if args.len() != 1 {
        return Err(PulseError::RuntimeError(text("char_code expects 1 argument")));
    }
    let cs = match args[0] {
        Value::Obj(x) => match heap.get(x) {
            Some(Object::String(s)) => chars_of(s.as_str()),
            _ => {
                return Err(PulseError::TypeMismatch { expected: text("string"), got: text("other") });
            },
        },
        _ => {
            return Err(PulseError::TypeMismatch { expected: text("string"), got: args[0].kind_name() });
        },
    };
    if cs.len() == 0 {
        return Err(PulseError::RuntimeError(text("char_code: empty string")));
    }
    let c = cs[0];
    Ok(Value::Int(c as u32 as i64))
}

/// A Unicode scalar value: not a surrogate, at most 0x10FFFF.
pub open spec fn scalar_value(n: u32) -> bool {
    n <= 0xD7FF || (0xE000 <= n && n <= 0x10FFFF)
}

/// `char::from_u32`: the character with code point `n`, when `n` is a
/// Unicode scalar value; none otherwise.
#[verifier::external_body]
fn char_from(n: u32) -> (r: Option<char>)
    ensures
        match r {
            Some(c) => scalar_value(n) && c as u32 == n,
            None => !scalar_value(n),
        },
{
    char::from_u32(n)
}

/// `from_char_code(n)`: a new one-character string for the code point `n`
/// (taken as `u32`); a runtime error when that is no Unicode scalar value.
pub fn from_char_code_native(heap: &mut Heap, args: &[Value]) -> (r: PulseResult<Value>)
    requires
        ready(*old(heap)),
    ensures
        ready(*final(heap)),
        r is Err ==> *final(heap) == *old(heap),
        args@.len() != 1 ==> crate::value::is_runtime_error(r),
        args@.len() == 1 ==> match args@[0] {
            Value::Int(n) => if scalar_value(n as u32) {
                exists|c: char| c as u32 == n as u32 && new_string(*old(heap), *final(heap), r, seq![c])
            } else {
                crate::value::is_runtime_error(r)
            },
            _ => crate::value::is_type_mismatch(r),
        },
{
    if args.len() != 1 {
        return Err(PulseError::RuntimeError(text("from_char_code expects 1 argument")));
    }
    let code = args[0].as_int()?;
    let c = match char_from(code as u32) {
        Some(c) => c,
        None => {
            return Err(PulseError::RuntimeError(text("Invalid Unicode code point")));
        },
    };
    let mut s = String::new();
    crate::text::push_char(&mut s, c);
    let x = heap.allocate(Object::String(s));
    assert(s@ =~= seq![c]);
    Ok(Value::Obj(x))
}

/// The text `println` writes for one value: the `to_string` text, except
/// that an actor id reads `<actor ...>` and a function `<fn name>`; a
/// float has none here (the host formats it).
pub open spec fn printed(h: Heap, v: Value) -> Option<Seq<char>> {
    match v {
        Value::Pid(_) => Some("<actor "@ + crate::utils::text_of(h, v)->Some_0 + ">"@),
        Value::Obj(_) => match object_of(h, v) {
            Some(Object::Function(f)) => Some("<fn "@ + f.name@ + ">"@),
            _ => crate::utils::text_of(h, v),
        },
        _ => crate::utils::text_of(h, v),
    }
}

/// The line `println` writes, without its newline: each value's text
/// followed by a space.
pub open spec fn printed_line(h: Heap, vs: Seq<Value>) -> Option<Seq<char>>
    decreases vs.len(),
{
    if vs.len() == 0 {
        Some(Seq::empty())
    } else {
        match (printed_line(h, vs.drop_last()), printed(h, vs.last())) {
            (Some(a), Some(b)) => Some(a + b + " "@),
            _ => None,
        }
    }
}

/// The line `println(args...)` writes, without its newline; a float among
/// the values needs the host.
pub fn println_text(heap: &Heap, args: &[Value]) -> (r: PulseResult<String>)
    requires
        heap.wf(),
    ensures
        match printed_line(*heap, args@) {
            Some(t) => r matches Ok(s) && s@ == t,
            None => crate::value::is_float_host(r),
        },
{
    let mut line = String::new();
    let mut i: usize = 0;
    while i < args.len()
        invariant
            heap.wf(),
            i <= args@.len(),
            printed_line(*heap, args@.take(i as int)) == Some(line@),
        decreases args@.len() - i,
    {
        let v = args[i];
        let piece = match v {
            Value::Pid(_) => {
                let t = crate::utils::value_to_string(heap, v)?;
                let mut p = text("<actor ");
                crate::text::push_str(&mut p, t.as_str());
                crate::text::push_str(&mut p, ">");
                p
            },
            Value::Obj(x) => match heap.get(x) {
                Some(Object::Function(f)) => {
                    let mut p = text("<fn ");
                    crate::text::push_str(&mut p, f.name.as_str());
                    crate::text::push_str(&mut p, ">");
                    p
                },
                _ => crate::utils::value_to_string(heap, v)?,
            },
            _ => match crate::utils::value_to_string(heap, v) {
                Ok(t) => t,
                Err(e) => {
                    proof {
                        let p = args@.take(i + 1);
                        assert(p.drop_last() =~= args@.take(i as int));
                        assert(printed(*heap, p.last()) is None);
                        lemma_no_line(*heap, args@, i + 1);
                    }
                    return Err(e);
                },
            },
        };
        proof {
            let p = args@.take(i + 1);
            assert(p.drop_last() =~= args@.take(i as int));
            assert(p.last() == v);
            reveal_strlit("<actor ");
            reveal_strlit(">");
            reveal_strlit("<fn ");
            reveal_strlit(" ");
        }
        crate::text::push_str(&mut line, piece.as_str());
        crate::text::push_str(&mut line, " ");
        i = i + 1;
    }
    assert(args@.take(i as int) =~= args@);
    Ok(line)
}

/// Once a prefix of the values has no line, no longer prefix has one.
proof fn lemma_no_line(h: Heap, vs: Seq<Value>, n: int)
    requires
        0 < n <= vs.len(),
        printed_line(h, vs.take(n)) is None,
    ensures
        printed_line(h, vs) is None,
    decreases vs.len() - n,
{
    if n < vs.len() {
        let p = vs.take(n + 1);
        assert(p.drop_last() =~= vs.take(n));
        lemma_no_line(h, vs, n + 1);
    } else {
        assert(vs.take(n) =~= vs);
    }
}


/// `min` and `max` of two integers give one of them, no larger (for `min`)
/// or no smaller (for `max`) than either.
pub proof fn law_min_max(x: i64, y: i64, larger: bool, r: PulseResult<Value>)
    requires
        pick(Value::Int(x), Value::Int(y), larger, r),
    ensures
        r matches Ok(Value::Int(m)) && (m == x || m == y) && (if larger { m >= x && m >= y } else { m <= x && m <= y }),
{
}
} // verus!

//! Regular-expression natives. Compiling and matching are the `regex`
//! crate's; its answers are named here and the natives around them are
//! verified.

use vstd::prelude::*;
use crate::value::{Value, PulseError, PulseResult, text};
use crate::object::Object;
use crate::heap::Heap;
use crate::vm::heap_string;
use crate::utils::{ready, new_string, grows};
use crate::collections::{fresh_list_result, fresh_text, result_items};

verus! {

broadcast use {vstd::std_specs::vec::group_vec_axioms, vstd::string::group_string_axioms};

/// Whether `regex::Regex::new` accepts the pattern.
pub uninterp spec fn regex_compiles(pattern: Seq<char>) -> bool;

/// Whether the compiled pattern matches somewhere in the text
/// (`Regex::is_match`).
pub uninterp spec fn regex_is_match(pattern: Seq<char>, t: Seq<char>) -> bool;

/// The texts of the successive non-overlapping matches in the text
/// (`Regex::find_iter`, each `Match::as_str`).
pub uninterp spec fn regex_found(pattern: Seq<char>, t: Seq<char>) -> Seq<Seq<char>>;

/// The text with every match replaced by the replacement, `$` references
/// expanded (`Regex::replace_all`).
pub uninterp spec fn regex_replaced(pattern: Seq<char>, replacement: Seq<char>, t: Seq<char>) -> Seq<char>;

/// `regex::Regex::new(pattern).is_ok()`.
#[verifier::external_body]
fn compiles(pattern: &str) -> (r: bool)
    ensures
        r == regex_compiles(pattern@),
{
    ::regex::Regex::new(pattern).is_ok()
}

/// `Regex::new(pattern)`, then `is_match(t)`: none when the pattern does
/// not compile.
#[verifier::external_body]
fn is_match(pattern: &str, t: &str) -> (r: Option<bool>)
    ensures
        match r {
            Some(b) => regex_compiles(pattern@) && b == regex_is_match(pattern@, t@),
            None => !regex_compiles(pattern@),
        },
{
    match ::regex::Regex::new(pattern) {
        Ok(re) => Some(re.is_match(t)),
        Err(_) => None,
    }
}

/// `Regex::new(pattern)`, then `find_iter(t)`, each match by its text:
/// none when the pattern does not compile.
#[verifier::external_body]
fn find_all(pattern: &str, t: &str) -> (r: Option<Vec<String>>)
    ensures
        match r {
            Some(v) => regex_compiles(pattern@) && v@.map_values(|s: String| s@) == regex_found(pattern@, t@),
            None => !regex_compiles(pattern@),
        },
{
    match ::regex::Regex::new(pattern) {
        Ok(re) => {
            let mut found = Vec::new();
            for m in re.find_iter(t) {
                found.push(m.as_str().to_string());
            }
            Some(found)
        },
        Err(_) => None,
    }
}

/// `Regex::new(pattern)`, then `replace_all(t, replacement)`: none when the
/// pattern does not compile.
#[verifier::external_body]
fn replace_all(pattern: &str, replacement: &str, t: &str) -> (r: Option<String>)
    ensures
        match r {
            Some(s) => regex_compiles(pattern@) && s@ == regex_replaced(pattern@, replacement@, t@),
            None => !regex_compiles(pattern@),
        },
{
    match ::regex::Regex::new(pattern) {
        Ok(re) => Some(re.replace_all(t, replacement).to_string()),
        Err(_) => None,
    }
}

/// The string an argument holds.
pub open spec fn string_in(h: Heap, v: Value) -> Option<Seq<char>> {
    if v is Obj { heap_string(h, v->Obj_0) } else { None }
}

fn string_param(heap: &Heap, v: Value) -> (r: PulseResult<String>)
    requires
        heap.wf(),
    ensures
        match string_in(*heap, v) {
            Some(t) => r matches Ok(s) && s@ == t,
            None => crate::value::is_type_mismatch(r),
        },
{
    match v {
        Value::Obj(x) => match heap.get(x) {
            Some(Object::String(s)) => Ok(s.clone()),
            _ => Err(PulseError::TypeMismatch { expected: text("string"), got: text("object") }),
        },
        _ => Err(PulseError::TypeMismatch { expected: text("string"), got: v.kind_name() }),
    }
}

/// `regex_compile(pattern)`: a new string holding the pattern, once it
/// compiles; a runtime error otherwise.
pub fn regex_compile_native(heap: &mut Heap, args: &[Value]) -> (r: PulseResult<Value>)
    requires
        ready(*old(heap)),
    ensures
        ready(*final(heap)),
        args@.len() != 1 ==> crate::value::is_runtime_error(r) && *final(heap) == *old(heap),
        args@.len() == 1 ==> match string_in(*old(heap), args@[0]) {
            Some(p) => if regex_compiles(p) {
                new_string(*old(heap), *final(heap), r, p)
            } else {
                crate::value::is_runtime_error(r) && *final(heap) == *old(heap)
            },
            None => crate::value::is_type_mismatch(r) && *final(heap) == *old(heap),
        },
{
    if args.len() != 1 {
        return Err(PulseError::RuntimeError(text("regex_compile expects 1 argument")));
    }
    let p = string_param(heap, args[0])?;
    if !compiles(p.as_str()) {
        return Err(PulseError::RuntimeError(text("Invalid regex pattern")));
    }
    let x = heap.allocate(Object::String(p));
    Ok(Value::Obj(x))
}

/// `regex_match(pattern, text)`: whether the pattern matches in the text;
/// a runtime error when it does not compile.
pub fn regex_match_native(heap: &mut Heap, args: &[Value]) -> (r: PulseResult<Value>)
    requires
        ready(*old(heap)),
    ensures
        *final(heap) == *old(heap),
        args@.len() != 2 ==> crate::value::is_runtime_error(r),
        args@.len() == 2 ==> match (string_in(*old(heap), args@[0]), string_in(*old(heap), args@[1])) {
            (Some(p), Some(t)) => if regex_compiles(p) {
                r == Ok::<Value, PulseError>(Value::Bool(regex_is_match(p, t)))
            } else {
                crate::value::is_runtime_error(r)
            },
            _ => crate::value::is_type_mismatch(r),
        },
{
    if args.len() != 2 {
        return Err(PulseError::RuntimeError(text("regex_match expects 2 arguments")));
    }
    let p = string_param(heap, args[0])?;
    let t = string_param(heap, args[1])?;
    match is_match(p.as_str(), t.as_str()) {
        Some(b) => Ok(Value::Bool(b)),
        None => Err(PulseError::RuntimeError(text("Invalid regex pattern"))),
    }
}

/// `r` is a new list, in a heap that only grew, of new strings holding
/// `texts` in order.
pub open spec fn text_list(h0: Heap, h1: Heap, r: PulseResult<Value>, texts: Seq<Seq<char>>) -> bool {
    &&& fresh_list_result(h0, h1, r)
    &&& result_items(h1, r).len() == texts.len()
    &&& forall|i: int| 0 <= i < texts.len() ==> fresh_text(h0, h1, #[trigger] result_items(h1, r)[i], texts[i])
}

/// A new list of new strings holding `texts`, in order.
pub fn list_of_texts(heap: &mut Heap, texts: Vec<String>) -> (r: PulseResult<Value>)
    requires
        ready(*old(heap)),
    ensures
        ready(*final(heap)),
        grows(*old(heap), *final(heap)),
        text_list(*old(heap), *final(heap), r, texts@.map_values(|s: String| s@)),
{
    let ghost h0 = *heap;
    let ghost want = texts@.map_values(|s: String| s@);
    let mut out: Vec<Value> = Vec::new();
    let mut i: usize = 0;
    while i < texts.len()
        invariant
            ready(*heap),
            grows(h0, *heap),
            i <= texts@.len(),
            want == texts@.map_values(|s: String| s@),
            out@.len() == i,
            forall|k: int| 0 <= k < i ==> fresh_text(h0, *heap, #[trigger] out@[k], want[k]),
        decreases texts@.len() - i,
    {
        let ghost hp = *heap;
        let x = heap.allocate(Object::String(texts[i].clone()));
        proof {
            vstd::map_lib::lemma_submap_of_trans(h0.live(), hp.live(), heap.live());
            assert forall|k: int| 0 <= k < i implies fresh_text(h0, *heap, #[trigger] out@[k], want[k]) by {
                assert(fresh_text(h0, hp, out@[k], want[k]));
            }
            if h0.live().dom().contains(x.0 as int) {
                assert(hp.live().dom().contains(x.0 as int));
            }
        }
        out.push(Value::Obj(x));
        i = i + 1;
    }
    let ghost hp = *heap;
    let x = heap.allocate(Object::List(out));
    proof {
        vstd::map_lib::lemma_submap_of_trans(h0.live(), hp.live(), heap.live());
        if h0.live().dom().contains(x.0 as int) {
            assert(hp.live().dom().contains(x.0 as int));
        }
        assert forall|k: int| 0 <= k < want.len() implies fresh_text(h0, *heap, #[trigger] out@[k], want[k]) by {
            assert(fresh_text(h0, hp, out@[k], want[k]));
        }
    }
    Ok(Value::Obj(x))
}

/// `regex_find_all(pattern, text)`: a new list of new strings holding the
/// matches in order; a runtime error when the pattern does not compile.
pub fn regex_find_all_native(heap: &mut Heap, args: &[Value]) -> (r: PulseResult<Value>)
    requires
        ready(*old(heap)),
    ensures
        ready(*final(heap)),
        grows(*old(heap), *final(heap)),
        args@.len() != 2 ==> crate::value::is_runtime_error(r) && *final(heap) == *old(heap),
        args@.len() == 2 ==> match (string_in(*old(heap), args@[0]), string_in(*old(heap), args@[1])) {
            (Some(p), Some(t)) => if regex_compiles(p) {
                text_list(*old(heap), *final(heap), r, regex_found(p, t))
            } else {
                crate::value::is_runtime_error(r) && *final(heap) == *old(heap)
            },
            _ => crate::value::is_type_mismatch(r) && *final(heap) == *old(heap),
        },
{
    if args.len() != 2 {
        return Err(PulseError::RuntimeError(text("regex_find_all expects 2 arguments")));
    }
    let p = string_param(heap, args[0])?;
    let t = string_param(heap, args[1])?;
    match find_all(p.as_str(), t.as_str()) {
        Some(found) => list_of_texts(heap, found),
        None => Err(PulseError::RuntimeError(text("Invalid regex pattern"))),
    }
}

/// `regex_replace(pattern, replacement, text)`: a new string, the text
/// with every match replaced; a runtime error when the pattern does not
/// compile.
pub fn regex_replace_native(heap: &mut Heap, args: &[Value]) -> (r: PulseResult<Value>)
    requires
        ready(*old(heap)),
    ensures
        ready(*final(heap)),
        args@.len() != 3 ==> crate::value::is_runtime_error(r) && *final(heap) == *old(heap),
        args@.len() == 3 ==> match (string_in(*old(heap), args@[0]), string_in(*old(heap), args@[1]), string_in(*old(heap), args@[2])) {
            (Some(p), Some(rep), Some(t)) => if regex_compiles(p) {
                new_string(*old(heap), *final(heap), r, regex_replaced(p, rep, t))
            } else {
                crate::value::is_runtime_error(r) && *final(heap) == *old(heap)
            },
            _ => crate::value::is_type_mismatch(r) && *final(heap) == *old(heap),
        },
{
    if args.len() != 3 {
        return Err(PulseError::RuntimeError(text("regex_replace expects 3 arguments")));
    }
    let p = string_param(heap, args[0])?;
    let rep = string_param(heap, args[1])?;
    let t = string_param(heap, args[2])?;
    match replace_all(p.as_str(), rep.as_str(), t.as_str()) {
        Some(s) => {
            let x = heap.allocate(Object::String(s));
            Ok(Value::Obj(x))
        },
        None => Err(PulseError::RuntimeError(text("Invalid regex pattern"))),
    }
}

} // verus!

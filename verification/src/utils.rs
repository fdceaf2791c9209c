//! Native functions on values: types, conversions, lists, sets and queues.

use vstd::prelude::*;
use std::collections::VecDeque;
use crate::value::{ActorId, ObjHandle, Value, PulseError, PulseResult, text};
use crate::object::{Object, obj_wf};
use crate::namemap::NameMap;
use crate::heap::Heap;
use crate::text::{push_str, i64_to_string, usize_to_string, u64_digits, string_from_chars, chars_of, int_text, nat_digits};
use crate::vm::{object_of, heap_string};
use crate::collections::{FoldJob, FoldKind};

verus! {

broadcast use vstd::std_specs::vec::group_vec_axioms;

/// The heap is ready for a native: well formed, with no collection under way.
pub open spec fn ready(h: Heap) -> bool {
    h.wf() && h.idle()
}

/// `b`'s heap is `a`'s with one new object `o`, in slot `x`.
pub open spec fn added(a: Heap, b: Heap, x: ObjHandle, o: Object) -> bool {
    &&& !a.live().dom().contains(x.0 as int)
    &&& b.live() == a.live().insert(x.0 as int, o)
}

/// The result is a new string object holding `t`, the only change to the heap.
pub open spec fn new_string(h0: Heap, h1: Heap, r: PulseResult<Value>, t: Seq<char>) -> bool {
    &&& r matches Ok(Value::Obj(x))
    &&& h1.live().dom().contains(x.0 as int)
    &&& h1.live()[x.0 as int] matches Object::String(s)
    &&& s@ == t
    &&& added(h0, h1, x, h1.live()[x.0 as int])
}

/// The result is a new list object holding `items`, the only change to the
/// heap.
pub open spec fn new_list(h0: Heap, h1: Heap, r: PulseResult<Value>, items: Seq<Value>) -> bool {
    &&& r matches Ok(Value::Obj(x))
    &&& h1.live().dom().contains(x.0 as int)
    &&& h1.live()[x.0 as int] matches Object::List(l)
    &&& l@ == items
    &&& added(h0, h1, x, h1.live()[x.0 as int])
}

/// `b`'s heap is `a`'s with new objects only.
pub open spec fn grows(a: Heap, b: Heap) -> bool {
    a.live().submap_of(b.live())
}

/// The kind name `type_of` gives a value.
pub open spec fn kind_of(h: Heap, v: Value) -> Seq<char> {
    match v {
        Value::Int(_) => "Int"@,
        Value::Float(_) => "Float"@,
        Value::Bool(_) => "Bool"@,
        Value::Unit => "Unit"@,
        Value::Pid(_) => "Pid"@,
        Value::Obj(_) => match object_of(h, v) {
            Some(Object::String(_)) => "String"@,
            Some(Object::List(_)) => "List"@,
            Some(Object::Dict(_)) => "Map"@,
            Some(Object::Closure(_)) => "Function"@,
            Some(Object::Function(_)) => "Function"@,
            Some(Object::NativeFn(_)) => "NativeFunction"@,
            Some(Object::Upvalue(_)) => "Upvalue"@,
            Some(Object::Module(_)) => "Module"@,
            Some(Object::Class(_)) => "Class"@,
            Some(Object::Instance(i)) => i.class.name@,
            Some(Object::BoundMethod(_)) => "BoundMethod"@,
            Some(Object::StringSet(_)) => "Set"@,
            Some(Object::Queue(_)) => "Queue"@,
            Some(Object::SharedMemory(_)) => "SharedMemory"@,
            None => "Unknown"@,
        },
    }
}

pub open spec fn bool_text(b: bool) -> Seq<char> {
    if b { "true"@ } else { "false"@ }
}

/// The text `to_string` and the sets give a value; a float has none here
/// (the host formats it).
pub open spec fn text_of(h: Heap, v: Value) -> Option<Seq<char>> {
    match v {
        Value::Int(i) => Some(int_text(i as int)),
        Value::Float(_) => None,
        Value::Bool(b) => Some(bool_text(b)),
        Value::Unit => Some("unit"@),
        Value::Pid(p) => Some("ActorId { node_id: "@ + nat_digits(p.node_id as nat) + ", sequence: "@ + nat_digits(p.sequence as nat) + " }"@),
        Value::Obj(_) => Some(match object_of(h, v) {
            Some(Object::String(s)) => s@,
            Some(Object::List(l)) => "<list len="@ + nat_digits(l@.len()) + ">"@,
            Some(Object::Dict(m)) => "<map len="@ + nat_digits(m.entries@.len()) + ">"@,
            Some(Object::Closure(_)) => "<closure>"@,
            Some(Object::Function(_)) => "<function>"@,
            Some(Object::NativeFn(n)) => "<native "@ + n.name@ + ">"@,
            Some(Object::Upvalue(_)) => "<upvalue>"@,
            Some(Object::Module(m)) => "<module len="@ + nat_digits(m.entries@.len()) + ">"@,
            Some(Object::Class(c)) => "<class "@ + c.name@ + ">"@,
            Some(Object::Instance(i)) => "<instance "@ + i.class.name@ + ">"@,
            Some(Object::BoundMethod(_)) => "<bound method>"@,
            Some(Object::StringSet(s)) => "<set len="@ + nat_digits(s.entries@.len()) + ">"@,
            Some(Object::Queue(q)) => "<queue len="@ + nat_digits(q@.len()) + ">"@,
            Some(Object::SharedMemory(m)) => "<shared memory locked="@ + bool_text(m.locked) + ">"@,
            None => "<invalid>"@,
        }),
    }
}

/// The decimal value of a run of ASCII digits.
pub open spec fn digits_value(s: Seq<char>) -> int
    decreases s.len(),
{
    if s.len() == 0 { 0 } else { 10 * digits_value(s.drop_last()) + (s.last() as int - '0' as int) }
}

pub open spec fn all_digits(s: Seq<char>) -> bool {
    forall|i: int| 0 <= i < s.len() ==> '0' <= #[trigger] s[i] <= '9'
}

/// The text starts with a sign.
pub open spec fn has_sign(s: Seq<char>) -> bool {
    s.len() > 0 && (s[0] == '-' || s[0] == '+')
}

/// The text after the sign, if any.
pub open spec fn unsigned_part(s: Seq<char>) -> Seq<char> {
    if has_sign(s) { s.drop_first() } else { s }
}

/// The integer `str::parse::<i64>` reads from the text: an optional sign
/// and at least one digit, nothing else, within `i64`.
pub open spec fn parsed_int(s: Seq<char>) -> Option<i64> {
    let body = unsigned_part(s);
    let v = if has_sign(s) && s[0] == '-' { -digits_value(body) } else { digits_value(body) };
    if body.len() > 0 && all_digits(body) && i64::MIN <= v <= i64::MAX { Some(v as i64) } else { None }
}

/// The first position from `i` on that holds no ASCII digit, or the
/// length.
pub open spec fn digits_end(s: Seq<char>, i: int) -> int
    decreases s.len() - i,
{
    if i < 0 || i >= s.len() || !('0' <= s[i] <= '9') { i } else { digits_end(s, i + 1) }
}

/// `s` is the word `lo` with any of its letters in upper case, as `up`
/// writes them.
pub open spec fn same_word(s: Seq<char>, lo: Seq<char>, up: Seq<char>) -> bool {
    s.len() == lo.len() && forall|i: int| 0 <= i < s.len() ==> (#[trigger] s[i] == lo[i] || s[i] == up[i])
}

/// An exponent after its `e`: an optional sign and at least one digit.
pub open spec fn exponent_ok(x: Seq<char>) -> bool {
    let k = if has_sign(x) { 1int } else { 0int };
    x.len() > k && digits_end(x, k) == x.len()
}

/// The texts `str::parse::<f64>` reads, by the grammar its documentation
/// gives: an optional sign, then `inf`, `infinity` or `nan` in any case,
/// or digits with at most one point among them and at least one digit,
/// with an optional exponent after them (`e` or `E`, an optional sign,
/// digits).
pub open spec fn float_syntax(s: Seq<char>) -> bool {
    let u = unsigned_part(s);
    let d = digits_end(u, 0);
    let dot = d < u.len() && u[d] == '.';
    let m = if dot { digits_end(u, d + 1) } else { d };
    let digits = if dot { m - 1 } else { m };
    ||| same_word(u, seq!['i', 'n', 'f'], seq!['I', 'N', 'F'])
    ||| same_word(u, seq!['i', 'n', 'f', 'i', 'n', 'i', 't', 'y'], seq!['I', 'N', 'F', 'I', 'N', 'I', 'T', 'Y'])
    ||| same_word(u, seq!['n', 'a', 'n'], seq!['N', 'A', 'N'])
    ||| digits >= 1 && (m == u.len() || ((u[m] == 'e' || u[m] == 'E') && exponent_ok(u.subrange(m + 1, u.len() as int))))
}

proof fn lemma_digits_end(s: Seq<char>, i: int)
    requires
        0 <= i <= s.len(),
    ensures
        i <= digits_end(s, i) <= s.len(),
    decreases s.len() - i,
{
    if i < s.len() && '0' <= s[i] <= '9' {
        lemma_digits_end(s, i + 1);
    }
}

/// A value that is an exact copy of a value or of an object.
pub open spec fn list_of(h: Heap, v: Value) -> Option<Seq<Value>> {
    match object_of(h, v) {
        Some(Object::List(l)) => Some(l@),
        _ => None,
    }
}

/// The number of arguments is `n`; otherwise a runtime error.
fn expect_args(args: &[Value], n: usize, msg: &str) -> (r: PulseResult<()>)
    ensures
        r is Ok <==> args@.len() == n,
        r is Err ==> crate::value::is_runtime_error(r),
{
    if args.len() != n {
        return Err(PulseError::RuntimeError(text(msg)));
    }
    Ok(())
}

fn concat3(a: &str, b: &str, c: &str) -> (r: String)
    ensures
        r@ == a@ + b@ + c@,
{
    let mut r = text(a);
    push_str(&mut r, b);
    push_str(&mut r, c);
    r
}

fn count_text(prefix: &str, n: usize) -> (r: String)
    ensures
        r@ == prefix@ + nat_digits(n as nat) + ">"@,
{
    let d = usize_to_string(n);
    concat3(prefix, d.as_str(), ">")
}

/// The text of a value (see `text_of`); a float needs the host.
pub fn value_to_string(heap: &Heap, v: Value) -> (r: PulseResult<String>)
    requires
        heap.wf(),
    ensures
        match text_of(*heap, v) {
            Some(t) => r matches Ok(s) && s@ == t,
            None => crate::value::is_float_host(r),
        },
{
    match v {
        Value::Int(i) => Ok(i64_to_string(i)),
        Value::Float(_) => Err(PulseError::NeedsFloatHost),
        Value::Bool(b) => Ok(if b { text("true") } else { text("false") }),
        Value::Unit => Ok(text("unit")),
        Value::Pid(p) => {
            let a = string_from_chars(u64_digits(p.node_id).as_slice());
            let b = string_from_chars(u64_digits(p.sequence).as_slice());
            let mut s = concat3("ActorId { node_id: ", a.as_str(), ", sequence: ");
            push_str(&mut s, b.as_str());
            push_str(&mut s, " }");
            Ok(s)
        },
        Value::Obj(h) => Ok(match heap.get(h) {
            Some(Object::String(s)) => s.clone(),
            Some(Object::List(l)) => count_text("<list len=", l.len()),
            Some(Object::Dict(m)) => count_text("<map len=", m.entries.len()),
            Some(Object::Closure(_)) => text("<closure>"),
            Some(Object::Function(_)) => text("<function>"),
            Some(Object::NativeFn(n)) => concat3("<native ", n.name.as_str(), ">"),
            Some(Object::Upvalue(_)) => text("<upvalue>"),
            Some(Object::Module(m)) => count_text("<module len=", m.entries.len()),
            Some(Object::Class(c)) => concat3("<class ", c.name.as_str(), ">"),
            Some(Object::Instance(i)) => concat3("<instance ", i.class.name.as_str(), ">"),
            Some(Object::BoundMethod(_)) => text("<bound method>"),
            Some(Object::StringSet(s)) => count_text("<set len=", s.entries.len()),
            Some(Object::Queue(q)) => count_text("<queue len=", q.len()),
            Some(Object::SharedMemory(m)) => concat3("<shared memory locked=", if m.locked { "true" } else { "false" }, ">"),
            None => text("<invalid>"),
        }),
    }
}

/// `type_of(v)`: a new string naming the kind of `v`; an instance is named
/// by its class.
pub fn type_of_native(heap: &mut Heap, args: &[Value]) -> (r: PulseResult<Value>)
    requires
        ready(*old(heap)),
    ensures
        ready(*final(heap)),
        args@.len() != 1 ==> crate::value::is_runtime_error(r) && *final(heap) == *old(heap),
        args@.len() == 1 ==> new_string(*old(heap), *final(heap), r, kind_of(*old(heap), args@[0])),
{
    expect_args(args, 1, "type_of expects 1 argument")?;
    let name = match args[0] {
        Value::Int(_) => text("Int"),
        Value::Float(_) => text("Float"),
        Value::Bool(_) => text("Bool"),
        Value::Unit => text("Unit"),
        Value::Pid(_) => text("Pid"),
        Value::Obj(h) => match heap.get(h) {
            Some(Object::String(_)) => text("String"),
            Some(Object::List(_)) => text("List"),
            Some(Object::Dict(_)) => text("Map"),
            Some(Object::Closure(_)) => text("Function"),
            Some(Object::Function(_)) => text("Function"),
            Some(Object::NativeFn(_)) => text("NativeFunction"),
            Some(Object::Upvalue(_)) => text("Upvalue"),
            Some(Object::Module(_)) => text("Module"),
            Some(Object::Class(_)) => text("Class"),
            Some(Object::Instance(i)) => i.class.name.clone(),
            Some(Object::BoundMethod(_)) => text("BoundMethod"),
            Some(Object::StringSet(_)) => text("Set"),
            Some(Object::Queue(_)) => text("Queue"),
            Some(Object::SharedMemory(_)) => text("SharedMemory"),
            None => text("Unknown"),
        },
    };
    let x = heap.allocate(Object::String(name));
    Ok(Value::Obj(x))
}

/// `to_string(v)`: a new string holding the text of `v` (a float needs the
/// host).
pub fn to_string_native(heap: &mut Heap, args: &[Value]) -> (r: PulseResult<Value>)
    requires
        ready(*old(heap)),
    ensures
        ready(*final(heap)),
        args@.len() != 1 ==> crate::value::is_runtime_error(r) && *final(heap) == *old(heap),
        args@.len() == 1 ==> match text_of(*old(heap), args@[0]) {
            Some(t) => new_string(*old(heap), *final(heap), r, t),
            None => crate::value::is_float_host(r) && *final(heap) == *old(heap),
        },
{
    expect_args(args, 1, "to_string expects 1 argument")?;
    let s = value_to_string(heap, args[0])?;
    let x = heap.allocate(Object::String(s));
    Ok(Value::Obj(x))
}

fn digits_end_at(s: &[char], i: usize) -> (r: usize)
    requires
        i <= s@.len(),
    ensures
        r == digits_end(s@, i as int),
        i <= r <= s@.len(),
{
    let mut j = i;
    while j < s.len() && '0' <= s[j] && s[j] <= '9'
        invariant
            i <= j <= s@.len(),
            digits_end(s@, j as int) == digits_end(s@, i as int),
        decreases s@.len() - j,
    {
        j = j + 1;
    }
    j
}

fn same_word_at(s: &[char], lo: &[char], up: &[char]) -> (r: bool)
    requires
        lo@.len() == up@.len(),
    ensures
        r == same_word(s@, lo@, up@),
{
    if s.len() != lo.len() {
        return false;
    }
    let mut i: usize = 0;
    while i < s.len()
        invariant
            s@.len() == lo@.len(),
            lo@.len() == up@.len(),
            i <= s@.len(),
            forall|k: int| 0 <= k < i ==> (#[trigger] s@[k] == lo@[k] || s@[k] == up@[k]),
        decreases s@.len() - i,
    {
        if !(s[i] == lo[i] || s[i] == up[i]) {
            return false;
        }
        i = i + 1;
    }
    true
}

/// Whether `str::parse::<f64>` reads the text (see `float_syntax`).
pub fn is_float_text(t: &[char]) -> (r: bool)
    ensures
        r == float_syntax(t@),
{
    let signed = t.len() > 0 && (t[0] == '-' || t[0] == '+');
    let u: &[char] = if signed { &t[1..t.len()] } else { t };
    assert(u@ == unsigned_part(t@));
    let inf = vec!['i', 'n', 'f'];
    let inf_up = vec!['I', 'N', 'F'];
    let infinity = vec!['i', 'n', 'f', 'i', 'n', 'i', 't', 'y'];
    let infinity_up = vec!['I', 'N', 'F', 'I', 'N', 'I', 'T', 'Y'];
    let nan = vec!['n', 'a', 'n'];
    let nan_up = vec!['N', 'A', 'N'];
    assert(inf@ =~= seq!['i', 'n', 'f'] && inf_up@ =~= seq!['I', 'N', 'F']);
    assert(infinity@ =~= seq!['i', 'n', 'f', 'i', 'n', 'i', 't', 'y'] && infinity_up@ =~= seq!['I', 'N', 'F', 'I', 'N', 'I', 'T', 'Y']);
    assert(nan@ =~= seq!['n', 'a', 'n'] && nan_up@ =~= seq!['N', 'A', 'N']);
    if same_word_at(u, inf.as_slice(), inf_up.as_slice()) || same_word_at(u, infinity.as_slice(), infinity_up.as_slice())
        || same_word_at(u, nan.as_slice(), nan_up.as_slice()) {
        return true;
    }
    let d = digits_end_at(u, 0);
    let dot = d < u.len() && u[d] == '.';
    let m = if dot { digits_end_at(u, d + 1) } else { d };
    let digits = if dot { m - 1 } else { m };
    if digits < 1 {
        return false;
    }
    if m == u.len() {
        return true;
    }
    if !(u[m] == 'e' || u[m] == 'E') {
        return false;
    }
    let x: &[char] = &u[m + 1..u.len()];
    assert(x@ == u@.subrange(m + 1, u@.len() as int));
    let k: usize = if x.len() > 0 && (x[0] == '-' || x[0] == '+') { 1 } else { 0 };
    x.len() > k && digits_end_at(x, k) == x.len()
}

/// Reads an integer as `str::parse::<i64>` does.
pub fn parse_i64(s: &str) -> (r: Option<i64>)
    ensures
        r == parsed_int(s@),
{
    let cs = chars_of(s);
    let mut start: usize = 0;
    let mut neg = false;
    if cs.len() > 0 && (cs[0] == '-' || cs[0] == '+') {
        neg = cs[0] == '-';
        start = 1;
    }
    let ghost body = unsigned_part(s@);
    proof {
        if start == 1 {
            assert(body =~= cs@.subrange(1, cs@.len() as int));
        } else {
            assert(body =~= cs@.subrange(0, cs@.len() as int));
        }
    }
    if start >= cs.len() {
        proof { assert(body.len() == 0); }
        return None;
    }
    let mut acc: i128 = 0;
    let mut i = start;
    while i < cs.len()
        invariant
            start <= i <= cs@.len(),
            start == 0 || start == 1,
            cs@ == s@,
            body == cs@.subrange(start as int, cs@.len() as int),
            body == unsigned_part(s@),
            neg == (has_sign(s@) && s@[0] == '-'),
            all_digits(body.take(i - start)),
            acc == digits_value(body.take(i - start)),
            0 <= acc <= 9223372036854775808,
        decreases cs@.len() - i,
    {
        let c = cs[i];
        proof {
            assert(body.take(i - start + 1).drop_last() =~= body.take(i - start));
            assert(body[i - start] == c);
        }
        if c < '0' || c > '9' {
            proof {
                assert(!all_digits(body)) by {
                    assert(!('0' <= body[i - start] <= '9'));
                }
            }
            return None;
        }
        let d = (c as u32 - '0' as u32) as i128;
        let next = acc * 10 + d;
        if next > 9223372036854775808 {
            proof {
                assert(digits_value(body.take(i - start + 1)) == next);
                if all_digits(body) {
                    lemma_digits_grow(body, (i - start + 1) as int);
                }
            }
            return None;
        }
        assert(digits_value(body.take(i - start + 1)) == next);
        acc = next;
        i = i + 1;
        proof {
            assert(all_digits(body.take(i - start))) by {
                assert forall|j: int| 0 <= j < body.take(i - start).len() implies '0' <= #[trigger] body.take(i - start)[j] <= '9' by {
                    if j < i - start - 1 {
                        assert(body.take(i - start)[j] == body.take(i - start - 1)[j]);
                    }
                }
            }
        }
    }
    proof {
        assert(body.take(i - start) =~= body);
    }
    if neg {
        Some((0 - acc) as i64)
    } else if acc > 9223372036854775807 {
        None
    } else {
        Some(acc as i64)
    }
}

/// Digits only add to the value of a longer prefix.
proof fn lemma_digits_grow(s: Seq<char>, k: int)
    requires
        0 <= k <= s.len(),
        all_digits(s),
    ensures
        digits_value(s.take(k)) <= digits_value(s),
        digits_value(s.take(k)) >= 0,
    decreases s.len() - k,
{
    lemma_digits_nonneg(s.take(k));
    if k < s.len() {
        lemma_digits_grow(s, k + 1);
        assert(s.take(k + 1).drop_last() =~= s.take(k));
        assert(all_digits(s.take(k + 1)));
        lemma_digits_nonneg(s.take(k + 1));
    } else {
        assert(s.take(k) =~= s);
    }
}

proof fn lemma_digits_nonneg(s: Seq<char>)
    requires
        all_digits(s),
    ensures
        digits_value(s) >= 0,
    decreases s.len(),
{
    if s.len() > 0 {
        assert(all_digits(s.drop_last()));
        lemma_digits_nonneg(s.drop_last());
        assert('0' <= s.last() <= '9');
    }
}

/// `to_int(v)`: an integer as it is, a boolean as 1 or 0, a string read as
/// a decimal integer. A float needs the host.
pub fn to_int_native(heap: &mut Heap, args: &[Value]) -> (r: PulseResult<Value>)
    requires
        ready(*old(heap)),
    ensures
        *final(heap) == *old(heap),
        args@.len() != 1 ==> crate::value::is_runtime_error(r),
        args@.len() == 1 ==> match args@[0] {
            Value::Int(i) => r == Ok::<Value, PulseError>(Value::Int(i)),
            Value::Bool(b) => r == Ok::<Value, PulseError>(Value::Int(if b { 1 } else { 0 })),
            Value::Float(_) => crate::value::is_float_host(r),
            Value::Obj(x) => match heap_string(*old(heap), x) {
                Some(t) => match parsed_int(t) {
                    Some(i) => r == Ok::<Value, PulseError>(Value::Int(i)),
                    None => crate::value::is_runtime_error(r),
                },
                None => crate::value::is_type_mismatch(r),
            },
            _ => crate::value::is_type_mismatch(r),
        },
{
    expect_args(args, 1, "to_int expects 1 argument")?;
    match args[0] {
        Value::Int(i) => Ok(Value::Int(i)),
        Value::Bool(b) => Ok(Value::Int(if b { 1 } else { 0 })),
        Value::Float(_) => Err(PulseError::NeedsFloatHost),
        Value::Obj(h) => match heap.get(h) {
            Some(Object::String(s)) => match parse_i64(s.as_str()) {
                Some(i) => Ok(Value::Int(i)),
                None => Err(PulseError::RuntimeError(text("Cannot convert to int"))),
            },
            _ => Err(PulseError::TypeMismatch { expected: text("string"), got: text("object") }),
        },
        _ => Err(PulseError::TypeMismatch { expected: text("int, float, bool, or string"), got: args[0].kind_name() }),
    }
}

/// `abs(v)`: the absolute value of an integer (the smallest `i64` has none),
/// or of a float, whose sign bit it clears.
pub fn abs_native(heap: &mut Heap, args: &[Value]) -> (r: PulseResult<Value>)
    requires
        ready(*old(heap)),
    ensures
        *final(heap) == *old(heap),
        args@.len() != 1 ==> crate::value::is_runtime_error(r),
        args@.len() == 1 ==> match args@[0] {
            Value::Int(i) => if i == i64::MIN {
                crate::value::is_runtime_error(r)
            } else {
                r == Ok::<Value, PulseError>(Value::Int((if i < 0 { -i } else { i as int }) as i64))
            },
            Value::Float(f) => r == Ok::<Value, PulseError>(Value::Float(f & 0x7fff_ffff_ffff_ffffu64)),
            _ => crate::value::is_type_mismatch(r),
        },
{
    expect_args(args, 1, "abs expects 1 argument")?;
    match args[0] {
        Value::Int(i) => {
            if i == i64::MIN {
                return Err(PulseError::RuntimeError(text("Integer overflow")));
            }
            Ok(Value::Int(if i < 0 { -i } else { i }))
        },
        Value::Float(f) => Ok(Value::Float(f & 0x7fff_ffff_ffff_ffffu64)),
        _ => Err(PulseError::TypeMismatch { expected: text("int or float"), got: args[0].kind_name() }),
    }
}

/// `len(c)`: the length of a string (in bytes), list, map, module, set or
/// queue.
pub fn len_native(heap: &mut Heap, args: &[Value]) -> (r: PulseResult<Value>)
    requires
        ready(*old(heap)),
    ensures
        *final(heap) == *old(heap),
        args@.len() != 1 ==> crate::value::is_runtime_error(r),
        args@.len() == 1 ==> match args@[0] {
            Value::Obj(_) => match object_of(*old(heap), args@[0]) {
                Some(o) => match o {
                    Object::String(s) => r == Ok::<Value, PulseError>(Value::Int((vstd::utf8::encode_utf8(s@).len() as usize) as i64)),
                    Object::List(l) => r == Ok::<Value, PulseError>(Value::Int(l@.len() as i64)),
                    Object::Dict(m) => r == Ok::<Value, PulseError>(Value::Int(m.entries@.len() as i64)),
                    Object::Module(m) => r == Ok::<Value, PulseError>(Value::Int(m.entries@.len() as i64)),
                    Object::StringSet(m) => r == Ok::<Value, PulseError>(Value::Int(m.entries@.len() as i64)),
                    Object::Queue(q) => r == Ok::<Value, PulseError>(Value::Int(q@.len() as i64)),
                    _ => crate::value::is_type_mismatch(r),
                },
                None => crate::value::is_runtime_error(r),
            },
            _ => crate::value::is_type_mismatch(r),
        },
{
    expect_args(args, 1, "len() expects 1 argument")?;
    match args[0] {
        Value::Obj(h) => match heap.get(h) {
            Some(Object::String(s)) => Ok(Value::Int(s.as_str().len() as i64)),
            Some(Object::List(l)) => Ok(Value::Int(l.len() as i64)),
            Some(Object::Dict(m)) => Ok(Value::Int(m.entries.len() as i64)),
            Some(Object::Module(m)) => Ok(Value::Int(m.entries.len() as i64)),
            Some(Object::StringSet(m)) => Ok(Value::Int(m.entries.len() as i64)),
            Some(Object::Queue(q)) => Ok(Value::Int(q.len() as i64)),
            Some(_) => Err(PulseError::TypeMismatch { expected: text("collection"), got: text("other") }),
            None => Err(PulseError::RuntimeError(text("Invalid handle"))),
        },
        _ => Err(PulseError::TypeMismatch { expected: text("collection"), got: args[0].kind_name() }),
    }
}

/// The text a set stores a value under: its `to_string` text.
pub open spec fn set_key(h: Heap, v: Value) -> Option<Seq<char>> {
    text_of(h, v)
}

/// The set object a value refers to.
pub open spec fn set_of(h: Heap, v: Value) -> Option<NameMap<()>> {
    match object_of(h, v) {
        Some(Object::StringSet(m)) => Some(m),
        _ => None,
    }
}

/// The queue object a value refers to.
pub open spec fn queue_of(h: Heap, v: Value) -> Option<Seq<Value>> {
    match object_of(h, v) {
        Some(Object::Queue(q)) => Some(q@),
        _ => None,
    }
}

/// The error a native gives for a first argument that is not the object it
/// expects: an invalid handle is a runtime error, anything else a type
/// mismatch.
pub open spec fn wrong_target(h: Heap, v: Value, r: PulseResult<Value>) -> bool {
    if v is Obj && object_of(h, v) is None { crate::value::is_runtime_error(r) } else { crate::value::is_type_mismatch(r) }
}

/// The list that `v` refers to now holds `items`; nothing else changed.
pub open spec fn list_updated(h0: Heap, h1: Heap, v: Value, items: Seq<Value>) -> bool {
    &&& h1.live() == h0.live().insert(v->Obj_0.0 as int, h1.live()[v->Obj_0.0 as int])
    &&& h1.live()[v->Obj_0.0 as int] matches Object::List(l2)
    &&& l2@ == items
}

/// `v` is a new string of the one character `c`.
pub open spec fn fresh_char(h0: Heap, h1: Heap, v: Value, c: char) -> bool {
    &&& v matches Value::Obj(ch)
    &&& !h0.live().dom().contains(ch.0 as int)
    &&& h1.live().dom().contains(ch.0 as int)
    &&& h1.live()[ch.0 as int] matches Object::String(cs)
    &&& cs@ == seq![c]
}

/// Replaces the object in the live slot `x`.
pub(crate) fn put_back(heap: &mut Heap, x: ObjHandle, o: Object)
    requires
        ready(*old(heap)),
        old(heap).live().dom().contains(x.0 as int),
        obj_wf(o),
    ensures
        ready(*final(heap)),
        final(heap).live() == old(heap).live().insert(x.0 as int, o),
{
    let _ = heap.replace(x, o);
}

/// `push(list, v)`: appends `v` to the list; gives unit.
pub fn push_native(heap: &mut Heap, args: &[Value]) -> (r: PulseResult<Value>)
    requires
        ready(*old(heap)),
    ensures
        ready(*final(heap)),
        args@.len() != 2 ==> crate::value::is_runtime_error(r) && *final(heap) == *old(heap),
        args@.len() == 2 ==> match list_of(*old(heap), args@[0]) {
            Some(l) => r == Ok::<Value, PulseError>(Value::Unit) && list_updated(*old(heap), *final(heap), args@[0], l.push(args@[1])),
            None => wrong_target(*old(heap), args@[0], r) && *final(heap) == *old(heap),
        },
{
    expect_args(args, 2, "push() expects 2 arguments")?;
    let x = match args[0] {
        Value::Obj(x) => x,
        _ => {
            return Err(PulseError::TypeMismatch { expected: text("list"), got: args[0].kind_name() });
        },
    };
    proof { heap.lemma_wf(); }
    match heap.get(x) {
        Some(Object::List(_)) => {},
        Some(_) => {
            return Err(PulseError::TypeMismatch { expected: text("list"), got: text("other") });
        },
        None => {
            return Err(PulseError::RuntimeError(text("Invalid handle")));
        },
    }
    let ghost h0 = heap.live();
    let taken = heap.replace(x, Object::List(Vec::new()));
    let mut items = match taken {
        Ok(Object::List(v)) => v,
        _ => Vec::new(),
    };
    items.push(args[1]);
    put_back(heap, x, Object::List(items));
    assert(heap.live() =~= h0.insert(x.0 as int, heap.live()[x.0 as int]));
    Ok(Value::Unit)
}

/// `pop(list)`: removes and gives the last item; an empty list is an error.
pub fn pop_native(heap: &mut Heap, args: &[Value]) -> (r: PulseResult<Value>)
    requires
        ready(*old(heap)),
    ensures
        ready(*final(heap)),
        args@.len() != 1 ==> crate::value::is_runtime_error(r) && *final(heap) == *old(heap),
        args@.len() == 1 ==> match list_of(*old(heap), args@[0]) {
            Some(l) => if l.len() == 0 {
                crate::value::is_runtime_error(r) && final(heap).live() == old(heap).live()
            } else {
                r == Ok::<Value, PulseError>(l.last()) && list_updated(*old(heap), *final(heap), args@[0], l.drop_last())
            },
            None => wrong_target(*old(heap), args@[0], r) && *final(heap) == *old(heap),
        },
{
    expect_args(args, 1, "pop() expects 1 argument")?;
    let x = match args[0] {
        Value::Obj(x) => x,
        _ => {
            return Err(PulseError::TypeMismatch { expected: text("list"), got: args[0].kind_name() });
        },
    };
    proof { heap.lemma_wf(); }
    match heap.get(x) {
        Some(Object::List(l)) => {
            if l.len() == 0 {
                return Err(PulseError::RuntimeError(text("Pop from empty list")));
            }
        },
        Some(_) => {
            return Err(PulseError::TypeMismatch { expected: text("list"), got: text("other") });
        },
        None => {
            return Err(PulseError::RuntimeError(text("Invalid handle")));
        },
    }
    let ghost h0 = heap.live();
    let taken = heap.replace(x, Object::List(Vec::new()));
    let mut items = match taken {
        Ok(Object::List(v)) => v,
        _ => Vec::new(),
    };
    let popped = items.pop();
    put_back(heap, x, Object::List(items));
    assert(heap.live() =~= h0.insert(x.0 as int, heap.live()[x.0 as int]));
    match popped {
        Some(v) => Ok(v),
        None => Err(PulseError::RuntimeError(text("Pop from empty list"))),
    }
}

/// `string_to_list(s)`: a new list of new one-character strings, one per
/// character of `s`.
pub fn string_to_list_native(heap: &mut Heap, args: &[Value]) -> (r: PulseResult<Value>)
    requires
        ready(*old(heap)),
    ensures
        ready(*final(heap)),
        grows(*old(heap), *final(heap)),
        args@.len() != 1 ==> crate::value::is_runtime_error(r) && *final(heap) == *old(heap),
        args@.len() == 1 ==> match args@[0] {
            Value::Obj(x) => match heap_string(*old(heap), x) {
                Some(t) => ({
                    &&& r matches Ok(Value::Obj(lh))
                    &&& !old(heap).live().dom().contains(lh.0 as int)
                    &&& final(heap).live()[lh.0 as int] matches Object::List(items)
                    &&& items@.len() == t.len()
                    &&& forall|i: int| 0 <= i < t.len() ==> fresh_char(*old(heap), *final(heap), #[trigger] items@[i], t[i])
                }),
                None => crate::value::is_type_mismatch(r) && *final(heap) == *old(heap),
            },
            _ => crate::value::is_type_mismatch(r) && *final(heap) == *old(heap),
        },
{
    expect_args(args, 1, "string_to_list expects 1 argument")?;
    let cs = match args[0] {
        Value::Obj(x) => match heap.get(x) {
            Some(Object::String(s)) => chars_of(s.as_str()),
            _ => {
                return Err(PulseError::TypeMismatch { expected: text("string"), got: text("object") });
            },
        },
        _ => {
            return Err(PulseError::TypeMismatch { expected: text("string"), got: args[0].kind_name() });
        },
    };
    let ghost h0 = *heap;
    let mut items: Vec<Value> = Vec::new();
    let mut i: usize = 0;
    while i < cs.len()
        invariant
            ready(*heap),
            grows(h0, *heap),
            i <= cs@.len(),
            items@.len() == i,
            forall|k: int| 0 <= k < i ==> fresh_char(h0, *heap, #[trigger] items@[k], cs@[k]),
        decreases cs@.len() - i,
    {
        let one = crate::text::string_from_chars(&cs.as_slice()[i..i + 1]);
        let ghost hp = *heap;
        let ch = heap.allocate(Object::String(one));
        proof {
            assert(cs@.subrange(i as int, i + 1) =~= seq![cs@[i as int]]);
            assert forall|k: int| 0 <= k < i implies fresh_char(h0, *heap, #[trigger] items@[k], cs@[k]) by {
                assert(fresh_char(h0, hp, items@[k], cs@[k]));
            }
            assert(h0.live().submap_of(heap.live())) by {
                assert forall|k: int| #[trigger] h0.live().dom().contains(k) implies heap.live().dom().contains(k) && h0.live()[k] == heap.live()[k] by {
                    assert(hp.live().dom().contains(k));
                }
            }
            if h0.live().dom().contains(ch.0 as int) {
                assert(hp.live().dom().contains(ch.0 as int));
            }
        }
        items.push(Value::Obj(ch));
        i = i + 1;
    }
    let ghost hp = *heap;
    let lh = heap.allocate(Object::List(items));
    proof {
        assert(h0.live().submap_of(heap.live())) by {
            assert forall|k: int| #[trigger] h0.live().dom().contains(k) implies heap.live().dom().contains(k) && h0.live()[k] == heap.live()[k] by {
                assert(hp.live().dom().contains(k));
            }
        }
        if h0.live().dom().contains(lh.0 as int) {
            assert(hp.live().dom().contains(lh.0 as int));
        }
        assert forall|k: int| 0 <= k < cs@.len() implies fresh_char(h0, *heap, #[trigger] items@[k], cs@[k]) by {
            assert(fresh_char(h0, hp, items@[k], cs@[k]));
        }
    }
    Ok(Value::Obj(lh))
}

/// `create_set()`: a new empty set.
pub fn create_set_native(heap: &mut Heap, args: &[Value]) -> (r: PulseResult<Value>)
    requires
        ready(*old(heap)),
    ensures
        ready(*final(heap)),
        args@.len() != 0 ==> crate::value::is_runtime_error(r) && *final(heap) == *old(heap),
        args@.len() == 0 ==> ({
            &&& r matches Ok(Value::Obj(x))
            &&& final(heap).live().dom().contains(x.0 as int)
            &&& final(heap).live()[x.0 as int] matches Object::StringSet(m)
            &&& m@.dom() == Set::<Seq<char>>::empty()
            &&& added(*old(heap), *final(heap), x, final(heap).live()[x.0 as int])
        }),
{
    expect_args(args, 0, "create_set expects 0 arguments")?;
    let x = heap.allocate(Object::StringSet(NameMap::new()));
    Ok(Value::Obj(x))
}

/// `add_to_set(set, v)`, `remove_from_set(set, v)`, `contains_in_set(set,
/// v)`: the set holds values by their text. Adding gives unit; removing and
/// looking up give whether the text was there.
fn set_op(heap: &mut Heap, args: &[Value], op: u8) -> (r: PulseResult<Value>)
    requires
        ready(*old(heap)),
        op < 3,
    ensures
        ready(*final(heap)),
        args@.len() != 2 ==> crate::value::is_runtime_error(r) && *final(heap) == *old(heap),
        args@.len() == 2 ==> match set_key(*old(heap), args@[1]) {
            None => crate::value::is_float_host(r) && *final(heap) == *old(heap),
            Some(k) => match set_of(*old(heap), args@[0]) {
                None => wrong_target(*old(heap), args@[0], r) && *final(heap) == *old(heap),
                Some(m) => if op == 2 {
                    r == Ok::<Value, PulseError>(Value::Bool(m@.dom().contains(k))) && *final(heap) == *old(heap)
                } else {
                    &&& r == Ok::<Value, PulseError>(if op == 0 { Value::Unit } else { Value::Bool(m@.dom().contains(k)) })
                    &&& final(heap).live() == old(heap).live().insert(args@[0]->Obj_0.0 as int, final(heap).live()[args@[0]->Obj_0.0 as int])
                    &&& final(heap).live()[args@[0]->Obj_0.0 as int] matches Object::StringSet(m2)
                    &&& m2@.dom() == if op == 0 { m@.dom().insert(k) } else { m@.dom().remove(k) }
                },
            },
        },
{
    if args.len() != 2 {
        return Err(PulseError::RuntimeError(text("set operations expect 2 arguments")));
    }
    let key = value_to_string(heap, args[1])?;
    let x = match args[0] {
        Value::Obj(x) => x,
        _ => {
            return Err(PulseError::TypeMismatch { expected: text("set"), got: args[0].kind_name() });
        },
    };
    proof { heap.lemma_wf(); }
    let found = match heap.get(x) {
        Some(Object::StringSet(m)) => m.contains_key(key.as_str()),
        Some(_) => {
            return Err(PulseError::TypeMismatch { expected: text("set"), got: text("other") });
        },
        None => {
            return Err(PulseError::RuntimeError(text("Invalid handle")));
        },
    };
    if op == 2 {
        return Ok(Value::Bool(found));
    }
    let taken = heap.replace(x, Object::List(Vec::new()));
    let mut m = match taken {
        Ok(Object::StringSet(m)) => m,
        _ => NameMap::new(),
    };
    let ghost m0 = m@;
    if op == 0 {
        m.insert(key, ());
        proof {
            assert(m@.dom() =~= m0.dom().insert(key@));
        }
    } else {
        let _ = m.remove(key.as_str());
    }
    put_back(heap, x, Object::StringSet(m));
    if op == 0 {
        Ok(Value::Unit)
    } else {
        Ok(Value::Bool(found))
    }
}

/// `add_to_set(set, v)`: adds the text of `v`; gives unit.
pub fn add_to_set_native(heap: &mut Heap, args: &[Value]) -> (r: PulseResult<Value>)
    requires
        ready(*old(heap)),
    ensures
        ready(*final(heap)),
        args@.len() != 2 ==> crate::value::is_runtime_error(r) && *final(heap) == *old(heap),
        args@.len() == 2 ==> match set_key(*old(heap), args@[1]) {
            None => crate::value::is_float_host(r) && *final(heap) == *old(heap),
            Some(k) => match set_of(*old(heap), args@[0]) {
                None => wrong_target(*old(heap), args@[0], r) && *final(heap) == *old(heap),
                Some(m) => {
                    &&& r == Ok::<Value, PulseError>(Value::Unit)
                    &&& final(heap).live() == old(heap).live().insert(args@[0]->Obj_0.0 as int, final(heap).live()[args@[0]->Obj_0.0 as int])
                    &&& set_of(*final(heap), args@[0]) matches Some(m2) && m2@.dom() == m@.dom().insert(k)
                },
            },
        },
{
    set_op(heap, args, 0)
}

/// `remove_from_set(set, v)`: removes the text of `v`; gives whether it was
/// there.
pub fn remove_from_set_native(heap: &mut Heap, args: &[Value]) -> (r: PulseResult<Value>)
    requires
        ready(*old(heap)),
    ensures
        ready(*final(heap)),
        args@.len() != 2 ==> crate::value::is_runtime_error(r) && *final(heap) == *old(heap),
        args@.len() == 2 ==> match set_key(*old(heap), args@[1]) {
            None => crate::value::is_float_host(r) && *final(heap) == *old(heap),
            Some(k) => match set_of(*old(heap), args@[0]) {
                None => wrong_target(*old(heap), args@[0], r) && *final(heap) == *old(heap),
                Some(m) => {
                    &&& r == Ok::<Value, PulseError>(Value::Bool(m@.dom().contains(k)))
                    &&& final(heap).live() == old(heap).live().insert(args@[0]->Obj_0.0 as int, final(heap).live()[args@[0]->Obj_0.0 as int])
                    &&& set_of(*final(heap), args@[0]) matches Some(m2) && m2@.dom() == m@.dom().remove(k)
                },
            },
        },
{
    set_op(heap, args, 1)
}

/// `contains_in_set(set, v)`: whether the text of `v` is in the set.
pub fn contains_in_set_native(heap: &mut Heap, args: &[Value]) -> (r: PulseResult<Value>)
    requires
        ready(*old(heap)),
    ensures
        *final(heap) == *old(heap),
        args@.len() != 2 ==> crate::value::is_runtime_error(r),
        args@.len() == 2 ==> match set_key(*old(heap), args@[1]) {
            None => crate::value::is_float_host(r),
            Some(k) => match set_of(*old(heap), args@[0]) {
                None => wrong_target(*old(heap), args@[0], r),
                Some(m) => r == Ok::<Value, PulseError>(Value::Bool(m@.dom().contains(k))),
            },
        },
{
    set_op(heap, args, 2)
}

/// `create_queue()`: a new empty queue.
pub fn create_queue_native(heap: &mut Heap, args: &[Value]) -> (r: PulseResult<Value>)
    requires
        ready(*old(heap)),
    ensures
        ready(*final(heap)),
        args@.len() != 0 ==> crate::value::is_runtime_error(r) && *final(heap) == *old(heap),
        args@.len() == 0 ==> ({
            &&& r matches Ok(Value::Obj(x))
            &&& final(heap).live().dom().contains(x.0 as int)
            &&& final(heap).live()[x.0 as int] matches Object::Queue(q)
            &&& q@.len() == 0
            &&& added(*old(heap), *final(heap), x, final(heap).live()[x.0 as int])
        }),
{
    expect_args(args, 0, "create_queue expects 0 arguments")?;
    let x = heap.allocate(Object::Queue(VecDeque::new()));
    Ok(Value::Obj(x))
}

/// `enqueue(q, v)`: adds `v` at the back; gives unit.
pub fn enqueue_native(heap: &mut Heap, args: &[Value]) -> (r: PulseResult<Value>)
    requires
        ready(*old(heap)),
    ensures
        ready(*final(heap)),
        args@.len() != 2 ==> crate::value::is_runtime_error(r) && *final(heap) == *old(heap),
        args@.len() == 2 ==> match queue_of(*old(heap), args@[0]) {
            Some(q) => r == Ok::<Value, PulseError>(Value::Unit)
                && final(heap).live() == old(heap).live().insert(args@[0]->Obj_0.0 as int, final(heap).live()[args@[0]->Obj_0.0 as int])
                && queue_of(*final(heap), args@[0]) == Some(q.push(args@[1])),
            None => wrong_target(*old(heap), args@[0], r) && *final(heap) == *old(heap),
        },
{
    expect_args(args, 2, "enqueue expects 2 arguments")?;
    let x = match args[0] {
        Value::Obj(x) => x,
        _ => {
            return Err(PulseError::TypeMismatch { expected: text("queue"), got: args[0].kind_name() });
        },
    };
    proof { heap.lemma_wf(); }
    match heap.get(x) {
        Some(Object::Queue(_)) => {},
        Some(_) => {
            return Err(PulseError::TypeMismatch { expected: text("queue"), got: text("other") });
        },
        None => {
            return Err(PulseError::RuntimeError(text("Invalid handle")));
        },
    }
    let taken = heap.replace(x, Object::List(Vec::new()));
    let mut q = match taken {
        Ok(Object::Queue(q)) => q,
        _ => VecDeque::new(),
    };
    q.push_back(args[1]);
    put_back(heap, x, Object::Queue(q));
    Ok(Value::Unit)
}

/// `dequeue(q)` takes the front item off the queue and gives it;
/// `peek_queue(q)` gives it and leaves it. An empty queue is an error.
fn queue_front(heap: &mut Heap, args: &[Value], remove: bool) -> (r: PulseResult<Value>)
    requires
        ready(*old(heap)),
    ensures
        ready(*final(heap)),
        args@.len() != 1 ==> crate::value::is_runtime_error(r) && *final(heap) == *old(heap),
        args@.len() == 1 ==> match queue_of(*old(heap), args@[0]) {
            Some(q) => if q.len() == 0 {
                crate::value::is_runtime_error(r) && final(heap).live() == old(heap).live()
            } else if remove {
                r == Ok::<Value, PulseError>(q[0])
                && final(heap).live() == old(heap).live().insert(args@[0]->Obj_0.0 as int, final(heap).live()[args@[0]->Obj_0.0 as int])
                && queue_of(*final(heap), args@[0]) == Some(q.drop_first())
            } else {
                r == Ok::<Value, PulseError>(q[0]) && *final(heap) == *old(heap)
            },
            None => wrong_target(*old(heap), args@[0], r) && *final(heap) == *old(heap),
        },
{
    expect_args(args, 1, "dequeue expects 1 argument")?;
    let x = match args[0] {
        Value::Obj(x) => x,
        _ => {
            return Err(PulseError::TypeMismatch { expected: text("queue"), got: args[0].kind_name() });
        },
    };
    proof { heap.lemma_wf(); }
    let front = match heap.get(x) {
        Some(Object::Queue(q)) => if q.len() > 0 { Some(q[0]) } else { None },
        Some(_) => {
            return Err(PulseError::TypeMismatch { expected: text("queue"), got: text("other") });
        },
        None => {
            return Err(PulseError::RuntimeError(text("Invalid handle")));
        },
    };
    let v = match front {
        Some(v) => v,
        None => {
            return Err(PulseError::RuntimeError(text("Dequeue from empty queue")));
        },
    };
    if !remove {
        return Ok(v);
    }
    let taken = heap.replace(x, Object::List(Vec::new()));
    let mut q = match taken {
        Ok(Object::Queue(q)) => q,
        _ => VecDeque::new(),
    };
    let _ = q.pop_front();
    put_back(heap, x, Object::Queue(q));
    Ok(v)
}

/// `dequeue(q)`: takes the front item off the queue and gives it.
pub fn dequeue_native(heap: &mut Heap, args: &[Value]) -> (r: PulseResult<Value>)
    requires
        ready(*old(heap)),
    ensures
        ready(*final(heap)),
        args@.len() != 1 ==> crate::value::is_runtime_error(r) && *final(heap) == *old(heap),
        args@.len() == 1 ==> match queue_of(*old(heap), args@[0]) {
            Some(q) => if q.len() == 0 {
                crate::value::is_runtime_error(r) && final(heap).live() == old(heap).live()
            } else {
                r == Ok::<Value, PulseError>(q[0])
                && final(heap).live() == old(heap).live().insert(args@[0]->Obj_0.0 as int, final(heap).live()[args@[0]->Obj_0.0 as int])
                && queue_of(*final(heap), args@[0]) == Some(q.drop_first())
            },
            None => wrong_target(*old(heap), args@[0], r) && *final(heap) == *old(heap),
        },
{
    queue_front(heap, args, true)
}

/// `peek_queue(q)`: gives the front item and leaves it.
pub fn peek_queue_native(heap: &mut Heap, args: &[Value]) -> (r: PulseResult<Value>)
    requires
        ready(*old(heap)),
    ensures
        ready(*final(heap)),
        args@.len() != 1 ==> crate::value::is_runtime_error(r) && *final(heap) == *old(heap),
        args@.len() == 1 ==> match queue_of(*old(heap), args@[0]) {
            Some(q) => if q.len() == 0 {
                crate::value::is_runtime_error(r) && final(heap).live() == old(heap).live()
            } else {
                r == Ok::<Value, PulseError>(q[0]) && *final(heap) == *old(heap)
            },
            None => wrong_target(*old(heap), args@[0], r) && *final(heap) == *old(heap),
        },
{
    queue_front(heap, args, false)
}

/// The list a job runs over: its items; no list is a type mismatch (a
/// dead handle a runtime error), and a wrong argument count a runtime
/// error.
fn job_items(heap: &Heap, args: &[Value], n: usize, msg: &str) -> (r: PulseResult<Vec<Value>>)
    requires
        heap.wf(),
        n > 0,
    ensures
        args@.len() != n ==> crate::value::is_runtime_error(r),
        args@.len() == n ==> match list_of(*heap, args@[0]) {
            Some(l) => r matches Ok(items) && items@ == l,
            None => wrong_list(*heap, args@[0], r),
        },
{
    expect_args(args, n, msg)?;
    match args[0] {
        Value::Obj(x) => match heap.get(x) {
            Some(Object::List(v)) => Ok(crate::object::vec_copy(v)),
            Some(_) => Err(PulseError::TypeMismatch { expected: text("list"), got: text("other") }),
            None => Err(PulseError::RuntimeError(text("Invalid handle"))),
        },
        _ => Err(PulseError::TypeMismatch { expected: text("list"), got: args[0].kind_name() }),
    }
}

/// The error for a first argument that is no list: a dead handle is a
/// runtime error, anything else a type mismatch.
pub open spec fn wrong_list<T>(h: Heap, v: Value, r: PulseResult<T>) -> bool {
    if v is Obj && object_of(h, v) is None { crate::value::is_runtime_error(r) } else { crate::value::is_type_mismatch(r) }
}

/// `map_list(list, f)`: a job calling `f` on each item in order; the list
/// of the replies is the result (see `fold_finish`).
pub fn map_list_native(heap: &Heap, args: &[Value]) -> (r: PulseResult<FoldJob>)
    requires
        heap.wf(),
    ensures
        args@.len() != 2 ==> crate::value::is_runtime_error(r),
        args@.len() == 2 ==> match list_of(*heap, args@[0]) {
            Some(l) => r matches Ok(j) && j.fresh(FoldKind::Each, l, args@[1], Value::Unit),
            None => wrong_list(*heap, args@[0], r),
        },
{
    let items = match job_items(heap, args, 2, "map_list expects 2 arguments") {
        Ok(v) => v,
        Err(e) => {
            return Err(e);
        },
    };
    Ok(crate::collections::new_job(FoldKind::Each, items, args[1], Value::Unit))
}

/// `filter_list(list, f)`: a job calling `f` on each item in order; the
/// list of the items it answers true for is the result.
pub fn filter_list_native(heap: &Heap, args: &[Value]) -> (r: PulseResult<FoldJob>)
    requires
        heap.wf(),
    ensures
        args@.len() != 2 ==> crate::value::is_runtime_error(r),
        args@.len() == 2 ==> match list_of(*heap, args@[0]) {
            Some(l) => r matches Ok(j) && j.fresh(FoldKind::Filter, l, args@[1], Value::Unit),
            None => wrong_list(*heap, args@[0], r),
        },
{
    let items = match job_items(heap, args, 2, "filter_list expects 2 arguments") {
        Ok(v) => v,
        Err(e) => {
            return Err(e);
        },
    };
    Ok(crate::collections::new_job(FoldKind::Filter, items, args[1], Value::Unit))
}

/// `reduce_list(list, f, initial)`: a job calling `f` with the value so
/// far and each item in order, starting from `initial`; the last reply is
/// the result.
pub fn reduce_list_native(heap: &Heap, args: &[Value]) -> (r: PulseResult<FoldJob>)
    requires
        heap.wf(),
    ensures
        args@.len() != 3 ==> crate::value::is_runtime_error(r),
        args@.len() == 3 ==> match list_of(*heap, args@[0]) {
            Some(l) => r matches Ok(j) && j.fresh(FoldKind::Reduce, l, args@[1], args@[2]),
            None => wrong_list(*heap, args@[0], r),
        },
{
    let items = match job_items(heap, args, 3, "reduce_list expects 3 arguments") {
        Ok(v) => v,
        Err(e) => {
            return Err(e);
        },
    };
    Ok(crate::collections::new_job(FoldKind::Reduce, items, args[1], args[2]))
}

/// A copy of an object: the same contents in a fresh value.
pub fn copy_object(o: &Object) -> (r: Object)
    ensures
        obj_wf(*o) ==> obj_wf(r),
        crate::object::child_values(r) == crate::object::child_values(*o),
        match *o {
            Object::String(s) => r matches Object::String(s2) && s2@ == s@,
            Object::List(l) => r matches Object::List(l2) && l2@ == l@,
            Object::Dict(m) => r matches Object::Dict(m2) && m2@ == m@ && m2.entries@ == m.entries@,
            Object::Queue(q) => r matches Object::Queue(q2) && q2@ == q@,
            Object::SharedMemory(s) => r == Object::SharedMemory(s),
            _ => true,
        },
{
    match o {
        Object::String(s) => Object::String(s.clone()),
        Object::List(l) => Object::List(crate::object::vec_copy(l)),
        Object::Dict(m) => Object::Dict(m.copy()),
        Object::Function(f) => Object::Function(f.copy()),
        Object::Closure(c) => {
            let mut ups: Vec<ObjHandle> = Vec::new();
            let mut i: usize = 0;
            while i < c.upvalues.len()
                invariant
                    i <= c.upvalues@.len(),
                    ups@ == c.upvalues@.take(i as int),
                decreases c.upvalues@.len() - i,
            {
                ups.push(c.upvalues[i]);
                i = i + 1;
                assert(ups@ =~= c.upvalues@.take(i as int));
            }
            assert(c.upvalues@.take(i as int) =~= c.upvalues@);
            Object::Closure(crate::object::Closure { function: c.function.copy(), upvalues: ups })
        },
        Object::Upvalue(u) => Object::Upvalue(*u),
        Object::NativeFn(n) => Object::NativeFn(crate::object::NativeFn { name: n.name.clone(), is_async: n.is_async }),
        Object::Module(m) => Object::Module(m.copy()),
        Object::Class(c) => Object::Class(c.copy()),
        Object::Instance(i) => Object::Instance(crate::object::Instance { class: i.class.copy(), fields: i.fields.copy() }),
        Object::BoundMethod(b) => Object::BoundMethod(crate::object::BoundMethod { receiver: b.receiver, method: b.method.copy() }),
        Object::StringSet(m) => Object::StringSet(m.copy()),
        Object::Queue(q) => {
            let mut q2: VecDeque<Value> = VecDeque::new();
            let mut i: usize = 0;
            while i < q.len()
                invariant
                    i <= q@.len(),
                    q2@ == q@.take(i as int),
                decreases q@.len() - i,
            {
                q2.push_back(q[i]);
                i = i + 1;
                assert(q2@ =~= q@.take(i as int));
            }
            assert(q@.take(i as int) =~= q@);
            Object::Queue(q2)
        },
        Object::SharedMemory(s) => Object::SharedMemory(*s),
    }
}

/// `deep_copy(v)`: a primitive as it is; an object is copied, one level
/// deep, into a new slot.
pub fn deep_copy_native(heap: &mut Heap, args: &[Value]) -> (r: PulseResult<Value>)
    requires
        ready(*old(heap)),
    ensures
        ready(*final(heap)),
        args@.len() != 1 ==> crate::value::is_runtime_error(r) && *final(heap) == *old(heap),
        args@.len() == 1 ==> match args@[0] {
            Value::Obj(x) => match object_of(*old(heap), args@[0]) {
                Some(o) => ({
                    &&& r matches Ok(Value::Obj(y))
                    &&& final(heap).live().dom().contains(y.0 as int)
                    &&& added(*old(heap), *final(heap), y, final(heap).live()[y.0 as int])
                    &&& crate::object::child_values(final(heap).live()[y.0 as int]) == crate::object::child_values(o)
                }),
                None => crate::value::is_runtime_error(r) && *final(heap) == *old(heap),
            },
            v => r == Ok::<Value, PulseError>(v) && *final(heap) == *old(heap),
        },
{
    expect_args(args, 1, "deep_copy expects 1 argument")?;
    match args[0] {
        Value::Obj(x) => {
            proof { heap.lemma_wf(); }
            let copy = match heap.get(x) {
                Some(o) => copy_object(o),
                None => {
                    return Err(PulseError::RuntimeError(text("Invalid handle for deep copy")));
                },
            };
            let y = heap.allocate(copy);
            Ok(Value::Obj(y))
        },
        v => Ok(v),
    }
}


/// The kind names `type_of` gives: "Int", "Float", "Bool", "Unit" and "Pid"
/// for the scalars, "String", "List" and "Map" for those objects, an
/// instance its class's name; the scalar kinds are told apart.
pub proof fn law_kind_names(h: Heap, v: Value)
    ensures
        v is Int ==> kind_of(h, v) == "Int"@,
        v is Float ==> kind_of(h, v) == "Float"@,
        v is Bool ==> kind_of(h, v) == "Bool"@,
        v is Unit ==> kind_of(h, v) == "Unit"@,
        v is Pid ==> kind_of(h, v) == "Pid"@,
        object_of(h, v) matches Some(Object::String(_)) ==> kind_of(h, v) == "String"@,
        object_of(h, v) matches Some(Object::List(_)) ==> kind_of(h, v) == "List"@,
        object_of(h, v) matches Some(Object::Dict(_)) ==> kind_of(h, v) == "Map"@,
        object_of(h, v) matches Some(Object::Instance(i)) ==> kind_of(h, v) == i.class.name@,
        ({
            let ks = seq!["Int"@, "Float"@, "Bool"@, "Unit"@, "Pid"@, "String"@, "List"@, "Map"@];
            forall|i: int, j: int| 0 <= i < j < 8 ==> ks[i] != ks[j]
        }),
        bool_text(true) == "true"@ && bool_text(false) == "false"@,
{
    reveal_strlit("Int");
    reveal_strlit("Float");
    reveal_strlit("Bool");
    reveal_strlit("Unit");
    reveal_strlit("Pid");
    reveal_strlit("String");
    reveal_strlit("List");
    reveal_strlit("Map");
    let ks = seq!["Int"@, "Float"@, "Bool"@, "Unit"@, "Pid"@, "String"@, "List"@, "Map"@];
    assert forall|i: int, j: int| 0 <= i < j < 8 implies ks[i] != ks[j] by {
        if ks[i] == ks[j] {
            assert(ks[i].len() == ks[j].len());
            assert(ks[i][0] == ks[j][0]);
        }
    }
}
} // verus!

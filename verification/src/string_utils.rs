//! Natives on strings.

use vstd::prelude::*;
use crate::value::{Value, PulseError, PulseResult, text};
use crate::object::Object;
use crate::heap::Heap;
use crate::text::{push_char, push_str, string_from_chars, chars_of};
use crate::vm::{object_of, heap_string};
use crate::utils::{ready, new_string, new_list, list_of, added};

verus! {

broadcast use {vstd::std_specs::vec::group_vec_axioms, vstd::string::group_string_axioms};

/// Whether the character has Unicode's White_Space property, which
/// `char::is_whitespace` tests: tab through carriage return, space, next
/// line, no-break space, ogham space mark, en quad through hair space, the
/// line and paragraph separators, narrow no-break space, medium
/// mathematical space and ideographic space.
pub open spec fn white_space(c: char) -> bool {
    let u = c as u32;
    ||| 0x9 <= u <= 0xD
    ||| u == 0x20 || u == 0x85 || u == 0xA0 || u == 0x1680
    ||| 0x2000 <= u <= 0x200A
    ||| u == 0x2028 || u == 0x2029 || u == 0x202F || u == 0x205F || u == 0x3000
}

/// The text in upper case, as `str::to_uppercase` gives it.
pub uninterp spec fn upper_case(s: Seq<char>) -> Seq<char>;

/// The text in lower case, as `str::to_lowercase` gives it.
pub uninterp spec fn lower_case(s: Seq<char>) -> Seq<char>;

/// `char::is_whitespace`: whether the character has the White_Space
/// property, as its documentation defines it.
#[verifier::external_body]
pub(crate) fn is_white(c: char) -> (r: bool)
    ensures
        r == white_space(c),
{
    c.is_whitespace()
}

/// `str::to_uppercase`.
#[verifier::external_body]
pub(crate) fn to_upper(s: &str) -> (r: String)
    ensures
        r@ == upper_case(s@),
{
    s.to_uppercase()
}

/// `str::to_lowercase`.
#[verifier::external_body]
pub(crate) fn to_lower(s: &str) -> (r: String)
    ensures
        r@ == lower_case(s@),
{
    s.to_lowercase()
}

/// `std::str::from_utf8`: the text the bytes encode, when they are valid
/// UTF-8.
#[verifier::external_body]
fn from_utf8(bytes: &[u8]) -> (r: Option<String>)
    ensures
        match r {
            Some(s) => vstd::utf8::valid_utf8(bytes@) && s@ == vstd::utf8::decode_utf8(bytes@),
            None => !vstd::utf8::valid_utf8(bytes@),
        },
{
    match std::str::from_utf8(bytes) {
        Ok(s) => Some(s.to_string()),
        Err(_) => None,
    }
}

/// The UTF-8 bytes of a text.
pub open spec fn utf8(s: Seq<char>) -> Seq<u8> {
    vstd::utf8::encode_utf8(s)
}

/// `p` occurs in `s` at `i`.
pub open spec fn match_at(s: Seq<char>, i: int, p: Seq<char>) -> bool {
    0 <= i && i + p.len() <= s.len() && s.subrange(i, i + p.len()) == p
}

/// `s` with every occurrence of the nonempty `p` from `i` on replaced by
/// `to`, scanning from the left.
pub open spec fn replaced_from(s: Seq<char>, p: Seq<char>, to: Seq<char>, i: int) -> Seq<char>
    decreases s.len() - i,
{
    if i >= s.len() || p.len() == 0 {
        Seq::empty()
    } else if match_at(s, i, p) {
        to + replaced_from(s, p, to, i + p.len())
    } else {
        seq![s[i]] + replaced_from(s, p, to, i + 1)
    }
}

/// `str::replace`: an empty pattern puts `to` before every character and
/// at the end.
pub open spec fn replaced(s: Seq<char>, p: Seq<char>, to: Seq<char>) -> Seq<char>
    decreases s.len(),
{
    if p.len() == 0 {
        if s.len() == 0 { to } else { replaced(s.drop_last(), p, to) + seq![s.last()] + to }
    } else {
        replaced_from(s, p, to, 0)
    }
}

/// The pieces of `s` between occurrences of the nonempty `p`, scanning from
/// `i` in the piece that started at `start`.
pub open spec fn split_from(s: Seq<char>, p: Seq<char>, i: int, start: int) -> Seq<Seq<char>>
    decreases s.len() - i,
{
    if p.len() == 0 || i + p.len() > s.len() {
        seq![s.subrange(start, s.len() as int)]
    } else if match_at(s, i, p) {
        seq![s.subrange(start, i)] + split_from(s, p, i + p.len(), i + p.len())
    } else {
        split_from(s, p, i + 1, start)
    }
}

/// `str::split`: an empty delimiter gives an empty piece, each character,
/// and an empty piece.
pub open spec fn split_pieces(s: Seq<char>, p: Seq<char>) -> Seq<Seq<char>> {
    if p.len() == 0 {
        seq![Seq::<char>::empty()] + Seq::new(s.len(), |i: int| seq![s[i]]) + seq![Seq::<char>::empty()]
    } else {
        split_from(s, p, 0, 0)
    }
}

/// The pieces joined with `sep` between them.
pub open spec fn joined(parts: Seq<Seq<char>>, sep: Seq<char>) -> Seq<char>
    decreases parts.len(),
{
    if parts.len() == 0 {
        Seq::empty()
    } else if parts.len() == 1 {
        parts[0]
    } else {
        joined(parts.drop_last(), sep) + sep + parts.last()
    }
}

/// `p` occurs somewhere in `s`.
pub open spec fn contains_text(s: Seq<char>, p: Seq<char>) -> bool {
    exists|i: int| match_at(s, i, p)
}

/// The first position of `p` in `s`.
pub open spec fn first_match(s: Seq<char>, p: Seq<char>) -> Option<int> {
    if exists|i: int| match_at(s, i, p) {
        Some(choose|i: int| match_at(s, i, p) && forall|j: int| 0 <= j < i ==> !match_at(s, j, p))
    } else {
        None
    }
}

/// Where the white space at the start ends.
pub open spec fn trim_start_at(s: Seq<char>) -> int {
    if exists|i: int| 0 <= i < s.len() && !white_space(s[i]) {
        choose|i: int| 0 <= i < s.len() && !white_space(s[i]) && forall|j: int| 0 <= j < i ==> white_space(#[trigger] s[j])
    } else {
        s.len() as int
    }
}

/// Where the white space at the end starts.
pub open spec fn trim_end_at(s: Seq<char>) -> int {
    if exists|i: int| 0 <= i < s.len() && !white_space(s[i]) {
        1 + choose|i: int| 0 <= i < s.len() && !white_space(s[i]) && forall|j: int| i < j < s.len() ==> white_space(#[trigger] s[j])
    } else {
        s.len() as int
    }
}

/// `str::trim`: without white space at either end.
#[verifier::opaque]
pub open spec fn trimmed(s: Seq<char>) -> Seq<char> {
    if trim_start_at(s) >= trim_end_at(s) { Seq::empty() } else { s.subrange(trim_start_at(s), trim_end_at(s)) }
}

/// `n` copies of `s`.
pub open spec fn repeated(s: Seq<char>, n: nat) -> Seq<char>
    decreases n,
{
    if n == 0 { Seq::empty() } else { repeated(s, (n - 1) as nat) + s }
}

/// The text of a string argument; anything else is a type mismatch.
fn string_arg(heap: &Heap, v: Value) -> (r: PulseResult<String>)
    requires
        heap.wf(),
    ensures
        match r {
            Ok(s) => v is Obj && heap_string(*heap, v->Obj_0) == Some(s@),
            Err(e) => e is TypeMismatch && !(v is Obj && heap_string(*heap, v->Obj_0) is Some),
        },
{
    match v {
        Value::Obj(h) => match heap.get(h) {
            Some(Object::String(s)) => Ok(s.clone()),
            _ => Err(PulseError::TypeMismatch { expected: text("string"), got: text("object") }),
        },
        _ => Err(PulseError::TypeMismatch { expected: text("string"), got: v.kind_name() }),
    }
}

/// The text of argument `v`, when it is a string.
pub open spec fn str_arg(h: Heap, v: Value) -> Option<Seq<char>> {
    if v is Obj { heap_string(h, v->Obj_0) } else { None }
}

fn matches_at(s: &Vec<char>, i: usize, p: &Vec<char>) -> (r: bool)
    ensures
        r == match_at(s@, i as int, p@),
{
    if i > s.len() || p.len() > s.len() - i {
        return false;
    }
    let mut k: usize = 0;
    while k < p.len()
        invariant
            k <= p@.len(),
            i + p@.len() <= s@.len(),
            s@.len() == s.len(),
            forall|q: int| 0 <= q < k ==> s@[i + q] == p@[q],
        decreases p@.len() - k,
    {
        if s[i + k] != p[k] {
            assert(s@.subrange(i as int, i + p@.len())[k as int] != p@[k as int]);
            return false;
        }
        k = k + 1;
    }
    assert(s@.subrange(i as int, i + p@.len()) =~= p@);
    true
}

/// `starts_with(s, p)` and `ends_with(s, p)`.
fn affix_test(heap: &mut Heap, args: &[Value], at_end: bool) -> (r: PulseResult<Value>)
    requires
        ready(*old(heap)),
    ensures
        *final(heap) == *old(heap),
        args@.len() != 2 ==> crate::value::is_runtime_error(r),
        args@.len() == 2 ==> match (str_arg(*old(heap), args@[0]), str_arg(*old(heap), args@[1])) {
            (Some(s), Some(p)) => r == Ok::<Value, PulseError>(Value::Bool(s.len() >= p.len() && if at_end {
                s.subrange(s.len() - p.len(), s.len() as int) == p
            } else {
                s.take(p.len() as int) == p
            })),
            _ => crate::value::is_type_mismatch(r),
        },
{
    if args.len() != 2 {
        return Err(PulseError::RuntimeError(text("starts_with expects 2 arguments")));
    }
    let s = chars_of(string_arg(heap, args[0])?.as_str());
    let p = chars_of(string_arg(heap, args[1])?.as_str());
    if s.len() < p.len() {
        return Ok(Value::Bool(false));
    }
    let at = if at_end { s.len() - p.len() } else { 0 };
    let b = matches_at(&s, at, &p);
    proof {
        if !at_end {
            assert(s@.subrange(0, p@.len() as int) =~= s@.take(p@.len() as int));
        }
    }
    Ok(Value::Bool(b))
}

/// `starts_with(s, p)`: whether `s` begins with `p`.
pub fn starts_with_native(heap: &mut Heap, args: &[Value]) -> (r: PulseResult<Value>)
    requires
        ready(*old(heap)),
    ensures
        *final(heap) == *old(heap),
        args@.len() != 2 ==> crate::value::is_runtime_error(r),
        args@.len() == 2 ==> match (str_arg(*old(heap), args@[0]), str_arg(*old(heap), args@[1])) {
            (Some(s), Some(p)) => r == Ok::<Value, PulseError>(Value::Bool(s.len() >= p.len() && s.take(p.len() as int) == p)),
            _ => crate::value::is_type_mismatch(r),
        },
{
    affix_test(heap, args, false)
}

/// `ends_with(s, p)`: whether `s` ends with `p`.
pub fn ends_with_native(heap: &mut Heap, args: &[Value]) -> (r: PulseResult<Value>)
    requires
        ready(*old(heap)),
    ensures
        *final(heap) == *old(heap),
        args@.len() != 2 ==> crate::value::is_runtime_error(r),
        args@.len() == 2 ==> match (str_arg(*old(heap), args@[0]), str_arg(*old(heap), args@[1])) {
            (Some(s), Some(p)) => r == Ok::<Value, PulseError>(Value::Bool(s.len() >= p.len() && s.subrange(s.len() - p.len(), s.len() as int) == p)),
            _ => crate::value::is_type_mismatch(r),
        },
{
    affix_test(heap, args, true)
}

/// `string_contains(s, p)`: whether `p` occurs in `s`.
pub fn string_contains_native(heap: &mut Heap, args: &[Value]) -> (r: PulseResult<Value>)
    requires
        ready(*old(heap)),
    ensures
        *final(heap) == *old(heap),
        args@.len() != 2 ==> crate::value::is_runtime_error(r),
        args@.len() == 2 ==> match (str_arg(*old(heap), args@[0]), str_arg(*old(heap), args@[1])) {
            (Some(s), Some(p)) => r == Ok::<Value, PulseError>(Value::Bool(contains_text(s, p))),
            _ => crate::value::is_type_mismatch(r),
        },
{
    if args.len() != 2 {
        return Err(PulseError::RuntimeError(text("string_contains expects 2 arguments")));
    }
    let s = chars_of(string_arg(heap, args[0])?.as_str());
    let p = chars_of(string_arg(heap, args[1])?.as_str());
    match find(&s, &p) {
        Some(i) => {
            assert(match_at(s@, i as int, p@));
            assert(contains_text(s@, p@));
            Ok(Value::Bool(true))
        },
        None => {
            assert(!contains_text(s@, p@));
            Ok(Value::Bool(false))
        },
    }
}

/// The first position of `p` in `s`.
fn find(s: &Vec<char>, p: &Vec<char>) -> (r: Option<usize>)
    ensures
        match r {
            Some(i) => first_match(s@, p@) == Some(i as int) && match_at(s@, i as int, p@)
                && forall|j: int| 0 <= j < i ==> !match_at(s@, j, p@),
            None => first_match(s@, p@) is None && forall|j: int| !match_at(s@, j, p@),
        },
{
    let mut i: usize = 0;
    while i < s.len()
        invariant
            i <= s@.len(),
            forall|j: int| 0 <= j < i ==> !match_at(s@, j, p@),
        decreases s@.len() - i,
    {
        if matches_at(s, i, p) {
            proof { lemma_first(s@, p@, i as int); }
            return Some(i);
        }
        i = i + 1;
    }
    if matches_at(s, i, p) {
        proof { lemma_first(s@, p@, i as int); }
        return Some(i);
    }
    proof {
        assert forall|j: int| !match_at(s@, j, p@) by {
            if 0 <= j && j + p@.len() <= s@.len() {
                assert(j <= i);
            }
        }
    }
    None
}

/// The first match is the one with no match before it.
proof fn lemma_first(s: Seq<char>, p: Seq<char>, i: int)
    requires
        match_at(s, i, p),
        forall|j: int| 0 <= j < i ==> !match_at(s, j, p),
    ensures
        first_match(s, p) == Some(i),
{
    assert(match_at(s, i, p) && forall|j: int| 0 <= j < i ==> !match_at(s, j, p));
    let c = choose|c: int| match_at(s, c, p) && forall|j: int| 0 <= j < c ==> !match_at(s, j, p);
    assert(c == i) by {
        if c < i {
            assert(!match_at(s, c, p));
        }
        if c > i {
            assert(!match_at(s, i, p));
        }
    }
}

/// The number of UTF-8 bytes of the characters.
fn byte_len(cs: &[char]) -> (r: usize)
    ensures
        r == utf8(cs@).len() as usize,
{
    let s = string_from_chars(cs);
    s.as_str().len()
}

/// `index_of_string(s, p)`: the byte offset of the first `p` in `s`, or -1.
pub fn index_of_string_native(heap: &mut Heap, args: &[Value]) -> (r: PulseResult<Value>)
    requires
        ready(*old(heap)),
    ensures
        *final(heap) == *old(heap),
        args@.len() != 2 ==> crate::value::is_runtime_error(r),
        args@.len() == 2 ==> match (str_arg(*old(heap), args@[0]), str_arg(*old(heap), args@[1])) {
            (Some(s), Some(p)) => match first_match(s, p) {
                Some(i) => r == Ok::<Value, PulseError>(Value::Int((utf8(s.take(i)).len() as usize) as i64)),
                None => r == Ok::<Value, PulseError>(Value::Int(-1i64)),
            },
            _ => crate::value::is_type_mismatch(r),
        },
{
    if args.len() != 2 {
        return Err(PulseError::RuntimeError(text("index_of_string expects 2 arguments")));
    }
    let s = chars_of(string_arg(heap, args[0])?.as_str());
    let p = chars_of(string_arg(heap, args[1])?.as_str());
    match find(&s, &p) {
        Some(i) => {
            let n = byte_len(&s.as_slice()[0..i]);
            proof {
                assert(s@.subrange(0, i as int) =~= s@.take(i as int));
            }
            Ok(Value::Int(n as i64))
        },
        None => Ok(Value::Int(-1)),
    }
}

/// `string_length(s)`: the length of `s` in UTF-8 bytes.
pub fn string_length_native(heap: &mut Heap, args: &[Value]) -> (r: PulseResult<Value>)
    requires
        ready(*old(heap)),
    ensures
        *final(heap) == *old(heap),
        args@.len() != 1 ==> crate::value::is_runtime_error(r),
        args@.len() == 1 ==> match str_arg(*old(heap), args@[0]) {
            Some(s) => r == Ok::<Value, PulseError>(Value::Int((utf8(s).len() as usize) as i64)),
            None => crate::value::is_type_mismatch(r),
        },
{
    if args.len() != 1 {
        return Err(PulseError::RuntimeError(text("string_length expects 1 argument")));
    }
    let s = string_arg(heap, args[0])?;
    Ok(Value::Int(s.as_str().len() as i64))
}

/// `string_uppercase(s)` / `string_lowercase(s)`: a new string in upper
/// or lower case.
fn case_change(heap: &mut Heap, args: &[Value], upper: bool) -> (r: PulseResult<Value>)
    requires
        ready(*old(heap)),
    ensures
        ready(*final(heap)),
        args@.len() != 1 ==> crate::value::is_runtime_error(r) && *final(heap) == *old(heap),
        args@.len() == 1 ==> match str_arg(*old(heap), args@[0]) {
            Some(s) => new_string(*old(heap), *final(heap), r, if upper { upper_case(s) } else { lower_case(s) }),
            None => crate::value::is_type_mismatch(r) && *final(heap) == *old(heap),
        },
{
    if args.len() != 1 {
        return Err(PulseError::RuntimeError(text("string_uppercase expects 1 argument")));
    }
    let s = string_arg(heap, args[0])?;
    let t = if upper { to_upper(s.as_str()) } else { to_lower(s.as_str()) };
    let x = heap.allocate(Object::String(t));
    Ok(Value::Obj(x))
}

/// `string_uppercase(s)`: a new string in upper case.
pub fn string_uppercase_native(heap: &mut Heap, args: &[Value]) -> (r: PulseResult<Value>)
    requires
        ready(*old(heap)),
    ensures
        ready(*final(heap)),
        args@.len() != 1 ==> crate::value::is_runtime_error(r) && *final(heap) == *old(heap),
        args@.len() == 1 ==> match str_arg(*old(heap), args@[0]) {
            Some(s) => new_string(*old(heap), *final(heap), r, upper_case(s)),
            None => crate::value::is_type_mismatch(r) && *final(heap) == *old(heap),
        },
{
    case_change(heap, args, true)
}

/// `string_lowercase(s)`: a new string in lower case.
pub fn string_lowercase_native(heap: &mut Heap, args: &[Value]) -> (r: PulseResult<Value>)
    requires
        ready(*old(heap)),
    ensures
        ready(*final(heap)),
        args@.len() != 1 ==> crate::value::is_runtime_error(r) && *final(heap) == *old(heap),
        args@.len() == 1 ==> match str_arg(*old(heap), args@[0]) {
            Some(s) => new_string(*old(heap), *final(heap), r, lower_case(s)),
            None => crate::value::is_type_mismatch(r) && *final(heap) == *old(heap),
        },
{
    case_change(heap, args, false)
}

/// The characters without white space at either end.
pub fn trim_chars(cs: &Vec<char>) -> (t: Vec<char>)
    ensures
        t@ == trimmed(cs@),
{
    proof { reveal(trimmed); }
    let mut a: usize = 0;
    while a < cs.len() && is_white(cs[a])
        invariant
            a <= cs@.len(),
            forall|j: int| 0 <= j < a ==> white_space(#[trigger] cs@[j]),
        decreases cs@.len() - a,
    {
        a = a + 1;
    }
    let mut b: usize = cs.len();
    while b > a && is_white(cs[b - 1])
        invariant
            a <= b <= cs@.len(),
            forall|j: int| b <= j < cs@.len() ==> white_space(#[trigger] cs@[j]),
        decreases b,
    {
        b = b - 1;
    }
    proof {
        let s = cs@;
        if a < s.len() {
            assert(!white_space(s[a as int]));
            assert(exists|i: int| 0 <= i < s.len() && !white_space(s[i]));
            let c = choose|i: int| 0 <= i < s.len() && !white_space(s[i]) && forall|j: int| 0 <= j < i ==> white_space(#[trigger] s[j]);
            assert(c == a as int) by {
                if c < a { assert(white_space(s[c])); }
                if c > a { assert(white_space(s[a as int])); }
            }
            assert(b > a);
            assert(!white_space(s[b - 1]));
            let e = choose|i: int| 0 <= i < s.len() && !white_space(s[i]) && forall|j: int| i < j < s.len() ==> white_space(#[trigger] s[j]);
            assert(e == b - 1) by {
                if e < b - 1 { assert(white_space(s[b - 1])); }
                if e > b - 1 { assert(white_space(s[e])); }
            }
        } else {
            assert(!exists|i: int| 0 <= i < s.len() && !white_space(s[i]));
        }
    }
    let t = sub_chars(&cs, a, b);
    proof {
        if a >= b {
            assert(cs@.subrange(a as int, b as int) =~= Seq::<char>::empty());
        }
    }
    t
}

/// `trim_string(s)`: a new string without white space at either end.
pub fn trim_string_native(heap: &mut Heap, args: &[Value]) -> (r: PulseResult<Value>)
    requires
        ready(*old(heap)),
    ensures
        ready(*final(heap)),
        args@.len() != 1 ==> crate::value::is_runtime_error(r) && *final(heap) == *old(heap),
        args@.len() == 1 ==> match str_arg(*old(heap), args@[0]) {
            Some(s) => new_string(*old(heap), *final(heap), r, trimmed(s)),
            None => crate::value::is_type_mismatch(r) && *final(heap) == *old(heap),
        },
{
    if args.len() != 1 {
        return Err(PulseError::RuntimeError(text("trim_string expects 1 argument")));
    }
    let cs = chars_of(string_arg(heap, args[0])?.as_str());
    let t = string_from_chars(trim_chars(&cs).as_slice());
    let x = heap.allocate(Object::String(t));
    Ok(Value::Obj(x))
}

/// `s` with every `p` replaced by `t`, as `str::replace` does it.
pub fn replace_all(s: &Vec<char>, p: &Vec<char>, t: &str) -> (out: String)
    ensures
        out@ == replaced(s@, p@, t@),
{
    let mut out = String::new();
    if p.len() == 0 {
        let mut i: usize = 0;
        push_str(&mut out, t);
        proof {
            assert(out@ =~= replaced(s@.take(0), p@, t@));
        }
        while i < s.len()
            invariant
                i <= s@.len(),
                p@.len() == 0,
                out@ == replaced(s@.take(i as int), p@, t@),
            decreases s@.len() - i,
        {
            let ghost before = out@;
            push_char(&mut out, s[i]);
            push_str(&mut out, t);
            i = i + 1;
            proof {
                let w = s@.take(i as int);
                assert(w.drop_last() =~= s@.take(i - 1));
                assert(out@ =~= replaced(w, p@, t@));
            }
        }
        proof {
            assert(s@.take(i as int) =~= s@);
        }
    } else {
        let mut i: usize = 0;
        while i < s.len()
            invariant
                i <= s@.len(),
                p@.len() > 0,
                out@ + replaced_from(s@, p@, t@, i as int) == replaced_from(s@, p@, t@, 0),
            decreases s@.len() - i,
        {
            if matches_at(&s, i, &p) {
                let ghost before = out@;
                push_str(&mut out, t);
                proof {
                    assert(out@ + replaced_from(s@, p@, t@, i + p@.len()) =~= before + replaced_from(s@, p@, t@, i as int));
                }
                i = i + p.len();
            } else {
                let ghost before = out@;
                push_char(&mut out, s[i]);
                proof {
                    assert(out@ + replaced_from(s@, p@, t@, i + 1) =~= before + replaced_from(s@, p@, t@, i as int));
                }
                i = i + 1;
            }
        }
        proof {
            assert(out@ =~= out@ + replaced_from(s@, p@, t@, i as int));
        }
    }
    out
}

/// `string_replace(s, from, to)`: a new string with every `from` replaced
/// by `to`.
pub fn string_replace_native(heap: &mut Heap, args: &[Value]) -> (r: PulseResult<Value>)
    requires
        ready(*old(heap)),
    ensures
        ready(*final(heap)),
        args@.len() != 3 ==> crate::value::is_runtime_error(r) && *final(heap) == *old(heap),
        args@.len() == 3 ==> match (str_arg(*old(heap), args@[0]), str_arg(*old(heap), args@[1]), str_arg(*old(heap), args@[2])) {
            (Some(s), Some(p), Some(t)) => new_string(*old(heap), *final(heap), r, replaced(s, p, t)),
            _ => crate::value::is_type_mismatch(r) && *final(heap) == *old(heap),
        },
{
    if args.len() != 3 {
        return Err(PulseError::RuntimeError(text("string_replace expects 3 arguments")));
    }
    let s = chars_of(string_arg(heap, args[0])?.as_str());
    let p = chars_of(string_arg(heap, args[1])?.as_str());
    let t = string_arg(heap, args[2])?;
    let out = replace_all(&s, &p, t.as_str());
    let x = heap.allocate(Object::String(out));
    Ok(Value::Obj(x))
}

/// The characters from `a` up to `b`.
fn sub_chars(v: &Vec<char>, a: usize, b: usize) -> (r: Vec<char>)
    requires
        a <= b <= v@.len(),
    ensures
        r@ == v@.subrange(a as int, b as int),
{
    let mut r: Vec<char> = Vec::new();
    let mut i = a;
    while i < b
        invariant
            a <= i <= b <= v@.len(),
            r@ == v@.subrange(a as int, i as int),
        decreases b - i,
    {
        r.push(v[i]);
        i = i + 1;
        assert(r@ =~= v@.subrange(a as int, i as int));
    }
    r
}

/// `v` is a new string holding `t`.
pub open spec fn fresh_text(h0: Heap, h1: Heap, v: Value, t: Seq<char>) -> bool {
    &&& v matches Value::Obj(x)
    &&& !h0.live().dom().contains(x.0 as int)
    &&& h1.live().dom().contains(x.0 as int)
    &&& h1.live()[x.0 as int] matches Object::String(s)
    &&& s@ == t
}

/// The result is a new list of new strings holding `texts`, in order.
pub open spec fn new_string_list(h0: Heap, h1: Heap, r: PulseResult<Value>, texts: Seq<Seq<char>>) -> bool {
    &&& r matches Ok(Value::Obj(x))
    &&& !h0.live().dom().contains(x.0 as int)
    &&& h1.live().dom().contains(x.0 as int)
    &&& h1.live()[x.0 as int] matches Object::List(items)
    &&& items@.len() == texts.len()
    &&& forall|i: int| 0 <= i < texts.len() ==> fresh_text(h0, h1, #[trigger] items@[i], texts[i])
}

/// Allocates a string for each text and a list of them.
pub(crate) fn alloc_strings(heap: &mut Heap, parts: Vec<Vec<char>>) -> (r: PulseResult<Value>)
    requires
        ready(*old(heap)),
    ensures
        ready(*final(heap)),
        old(heap).live().submap_of(final(heap).live()),
        new_string_list(*old(heap), *final(heap), r, parts@.map_values(|v: Vec<char>| v@)),
{
    let ghost h0 = *heap;
    let ghost texts = parts@.map_values(|v: Vec<char>| v@);
    let mut items: Vec<Value> = Vec::new();
    let mut i: usize = 0;
    while i < parts.len()
        invariant
            ready(*heap),
            h0.live().submap_of(heap.live()),
            texts == parts@.map_values(|v: Vec<char>| v@),
            i <= parts@.len(),
            items@.len() == i,
            forall|k: int| 0 <= k < i ==> fresh_text(h0, *heap, #[trigger] items@[k], texts[k]),
        decreases parts@.len() - i,
    {
        let t = string_from_chars(parts[i].as_slice());
        let ghost hp = *heap;
        let x = heap.allocate(Object::String(t));
        proof {
            vstd::map_lib::lemma_submap_of_trans(h0.live(), hp.live(), heap.live());
            assert forall|k: int| 0 <= k < i implies fresh_text(h0, *heap, #[trigger] items@[k], texts[k]) by {
                assert(fresh_text(h0, hp, items@[k], texts[k]));
            }
            if h0.live().dom().contains(x.0 as int) {
                assert(hp.live().dom().contains(x.0 as int));
            }
        }
        items.push(Value::Obj(x));
        i = i + 1;
    }
    let ghost hp = *heap;
    let x = heap.allocate(Object::List(items));
    proof {
        vstd::map_lib::lemma_submap_of_trans(h0.live(), hp.live(), heap.live());
        assert forall|k: int| 0 <= k < texts.len() implies fresh_text(h0, *heap, #[trigger] items@[k], texts[k]) by {
            assert(fresh_text(h0, hp, items@[k], texts[k]));
        }
        if h0.live().dom().contains(x.0 as int) {
            assert(hp.live().dom().contains(x.0 as int));
        }
    }
    Ok(Value::Obj(x))
}

/// `split_string(s, d)`: a new list of new strings, the pieces of `s`
/// between occurrences of `d`.
pub fn split_string_native(heap: &mut Heap, args: &[Value]) -> (r: PulseResult<Value>)
    requires
        ready(*old(heap)),
    ensures
        ready(*final(heap)),
        args@.len() != 2 ==> crate::value::is_runtime_error(r) && *final(heap) == *old(heap),
        args@.len() == 2 ==> match (str_arg(*old(heap), args@[0]), str_arg(*old(heap), args@[1])) {
            (Some(s), Some(d)) => new_string_list(*old(heap), *final(heap), r, split_pieces(s, d)),
            _ => crate::value::is_type_mismatch(r) && *final(heap) == *old(heap),
        },
{
    if args.len() != 2 {
        return Err(PulseError::RuntimeError(text("split_string expects 2 arguments")));
    }
    let s = chars_of(string_arg(heap, args[0])?.as_str());
    let d = chars_of(string_arg(heap, args[1])?.as_str());
    let mut parts: Vec<Vec<char>> = Vec::new();
    if d.len() == 0 {
        parts.push(Vec::new());
        let mut i: usize = 0;
        while i < s.len()
            invariant
                i <= s@.len(),
                parts@.map_values(|v: Vec<char>| v@) == seq![Seq::<char>::empty()] + Seq::new(i as nat, |k: int| seq![s@[k]]),
            decreases s@.len() - i,
        {
            let ghost before = parts@.map_values(|v: Vec<char>| v@);
            let mut one: Vec<char> = Vec::new();
            one.push(s[i]);
            assert(one@ =~= seq![s@[i as int]]);
            parts.push(one);
            i = i + 1;
            proof {
                assert(parts@.map_values(|v: Vec<char>| v@) =~= before.push(seq![s@[i - 1]]));
                assert(parts@.map_values(|v: Vec<char>| v@) =~= seq![Seq::<char>::empty()] + Seq::new(i as nat, |k: int| seq![s@[k]]));
            }
        }
        parts.push(Vec::new());
        proof {
            assert(parts@.map_values(|v: Vec<char>| v@) =~= split_pieces(s@, d@));
        }
    } else {
        let mut i: usize = 0;
        let mut start: usize = 0;
        while i < s.len() && d.len() <= s.len() - i
            invariant
                start <= i <= s@.len(),
                d@.len() > 0,
                parts@.map_values(|v: Vec<char>| v@) + split_from(s@, d@, i as int, start as int) == split_from(s@, d@, 0, 0),
            decreases s@.len() - i,
        {
            let ghost i0 = i as int;
            let ghost st0 = start as int;
            let ghost before = parts@.map_values(|v: Vec<char>| v@);
            if matches_at(&s, i, &d) {
                parts.push(sub_chars(&s, start, i));
                i = i + d.len();
                start = i;
                proof {
                    assert(parts@.map_values(|v: Vec<char>| v@) =~= before.push(s@.subrange(st0, i0)));
                    assert(split_from(s@, d@, i0, st0) == seq![s@.subrange(st0, i0)] + split_from(s@, d@, i as int, start as int));
                    assert(parts@.map_values(|v: Vec<char>| v@) + split_from(s@, d@, i as int, start as int)
                        =~= before + split_from(s@, d@, i0, st0));
                }
            } else {
                i = i + 1;
                proof {
                    assert(split_from(s@, d@, i0, st0) == split_from(s@, d@, i as int, st0));
                }
            }
        }
        let ghost before = parts@.map_values(|v: Vec<char>| v@);
        parts.push(sub_chars(&s, start, s.len()));
        proof {
            assert(split_from(s@, d@, i as int, start as int) == seq![s@.subrange(start as int, s@.len() as int)]);
            assert(parts@.map_values(|v: Vec<char>| v@) =~= before.push(s@.subrange(start as int, s@.len() as int)));
            assert(parts@.map_values(|v: Vec<char>| v@) =~= split_pieces(s@, d@));
        }
    }
    alloc_strings(heap, parts)
}

/// The texts of a list of strings, when every item is one.
pub open spec fn texts_of(h: Heap, items: Seq<Value>) -> Option<Seq<Seq<char>>> {
    if forall|i: int| 0 <= i < items.len() ==> #[trigger] str_arg(h, items[i]) is Some {
        Some(Seq::new(items.len(), |i: int| str_arg(h, items[i])->Some_0))
    } else {
        None
    }
}

/// `join_strings(list, sep)`: a new string of the list's strings with `sep`
/// between them.
pub fn join_strings_native(heap: &mut Heap, args: &[Value]) -> (r: PulseResult<Value>)
    requires
        ready(*old(heap)),
    ensures
        ready(*final(heap)),
        args@.len() != 2 ==> crate::value::is_runtime_error(r) && *final(heap) == *old(heap),
        args@.len() == 2 ==> match (args@[0], str_arg(*old(heap), args@[1])) {
            (Value::Obj(_), Some(sep)) => match list_of(*old(heap), args@[0]) {
                Some(items) => match texts_of(*old(heap), items) {
                    Some(parts) => new_string(*old(heap), *final(heap), r, joined(parts, sep)),
                    None => crate::value::is_type_mismatch(r) && *final(heap) == *old(heap),
                },
                None => r is Err && *final(heap) == *old(heap),
            },
            _ => crate::value::is_type_mismatch(r) && *final(heap) == *old(heap),
        },
{
    if args.len() != 2 {
        return Err(PulseError::RuntimeError(text("join_strings expects 2 arguments")));
    }
    let x = match args[0] {
        Value::Obj(x) => x,
        _ => {
            return Err(PulseError::TypeMismatch { expected: text("list"), got: args[0].kind_name() });
        },
    };
    let sep = string_arg(heap, args[1])?;
    let items = match heap.get(x) {
        Some(Object::List(v)) => crate::object::vec_copy(v),
        Some(_) => {
            return Err(PulseError::TypeMismatch { expected: text("list"), got: text("other") });
        },
        None => {
            return Err(PulseError::RuntimeError(text("Invalid handle")));
        },
    };
    let mut out = String::new();
    let mut i: usize = 0;
    let ghost parts = Seq::new(items@.len(), |k: int| str_arg(*heap, items@[k])->Some_0);
    while i < items.len()
        invariant
            ready(*heap),
            *heap == *old(heap),
            args@.len() == 2,
            args@[0] == Value::Obj(x),
            str_arg(*heap, args@[1]) == Some(sep@),
            list_of(*heap, args@[0]) == Some(items@),
            i <= items@.len(),
            parts == Seq::new(items@.len(), |k: int| str_arg(*heap, items@[k])->Some_0),
            forall|k: int| 0 <= k < i ==> #[trigger] str_arg(*heap, items@[k]) is Some,
            out@ == joined(parts.take(i as int), sep@),
        decreases items@.len() - i,
    {
        let piece = match string_arg(heap, items[i]) {
            Ok(p) => p,
            Err(e) => {
                proof {
                    assert(!(str_arg(*heap, items@[i as int]) is Some));
                }
                return Err(e);
            },
        };
        let ghost before = out@;
        if i > 0 {
            push_str(&mut out, sep.as_str());
        }
        push_str(&mut out, piece.as_str());
        i = i + 1;
        proof {
            let t = parts.take(i as int);
            assert(t.drop_last() =~= parts.take(i - 1));
            assert(t.last() == piece@);
            if i == 1 {
                assert(out@ =~= joined(t, sep@));
            }
        }
    }
    proof {
        assert(parts.take(i as int) =~= parts);
    }
    let y = heap.allocate(Object::String(out));
    Ok(Value::Obj(y))
}

/// `substring(s, start, end)`: a new string of the bytes of `s` from
/// `start` to `end`; the bounds must be in order, within the string and on
/// character boundaries.
pub fn substring_native(heap: &mut Heap, args: &[Value]) -> (r: PulseResult<Value>)
    requires
        ready(*old(heap)),
    ensures
        ready(*final(heap)),
        args@.len() != 3 ==> crate::value::is_runtime_error(r) && *final(heap) == *old(heap),
        args@.len() == 3 ==> match (str_arg(*old(heap), args@[0]), args@[1], args@[2]) {
            (Some(s), Value::Int(a), Value::Int(b)) => {
                let bytes = utf8(s);
                if a < 0 || b < 0 || a > b || b > (bytes.len() as usize) as i64 {
                    crate::value::is_runtime_error(r) && *final(heap) == *old(heap)
                } else if vstd::utf8::valid_utf8(bytes.subrange(a as int, b as int)) {
                    new_string(*old(heap), *final(heap), r, vstd::utf8::decode_utf8(bytes.subrange(a as int, b as int)))
                } else {
                    crate::value::is_runtime_error(r) && *final(heap) == *old(heap)
                }
            },
            (Some(_), _, _) => crate::value::is_type_mismatch(r) && *final(heap) == *old(heap),
            _ => crate::value::is_type_mismatch(r) && *final(heap) == *old(heap),
        },
{
    if args.len() != 3 {
        return Err(PulseError::RuntimeError(text("substring expects 3 arguments")));
    }
    let s = string_arg(heap, args[0])?;
    let a = args[1].as_int()?;
    let b = args[2].as_int()?;
    let bytes = s.as_str().as_bytes();
    if a < 0 || b < 0 || a > b || b > bytes.len() as i64 {
        return Err(PulseError::RuntimeError(text("Invalid indices for substring")));
    }
    let sub = &bytes[a as usize..b as usize];
    match from_utf8(sub) {
        Some(t) => {
            let y = heap.allocate(Object::String(t));
            Ok(Value::Obj(y))
        },
        None => Err(PulseError::RuntimeError(text("Substring bounds are not on character boundaries"))),
    }
}

/// `char_at(s, i)`: a new string of character `i` of `s`; `i` must be
/// below the byte length and the character count.
pub fn char_at_native(heap: &mut Heap, args: &[Value]) -> (r: PulseResult<Value>)
    requires
        ready(*old(heap)),
    ensures
        ready(*final(heap)),
        args@.len() != 2 ==> crate::value::is_runtime_error(r) && *final(heap) == *old(heap),
        args@.len() == 2 ==> match (str_arg(*old(heap), args@[0]), args@[1]) {
            (Some(s), Value::Int(i)) => if 0 <= i < (utf8(s).len() as usize) as i64 && i < s.len() {
                new_string(*old(heap), *final(heap), r, seq![s[i as int]])
            } else {
                crate::value::is_runtime_error(r) && *final(heap) == *old(heap)
            },
            _ => crate::value::is_type_mismatch(r) && *final(heap) == *old(heap),
        },
{
    if args.len() != 2 {
        return Err(PulseError::RuntimeError(text("char_at expects 2 arguments")));
    }
    let s = string_arg(heap, args[0])?;
    let i = args[1].as_int()?;
    if i < 0 || i >= s.as_str().len() as i64 {
        return Err(PulseError::RuntimeError(text("Index out of bounds for string")));
    }
    let cs = chars_of(s.as_str());
    if (i as u64) >= (cs.len() as u64) {
        return Err(PulseError::RuntimeError(text("Invalid character index")));
    }
    let mut t = String::new();
    push_char(&mut t, cs[i as usize]);
    let y = heap.allocate(Object::String(t));
    Ok(Value::Obj(y))
}

/// `repeat_string(s, n)`: a new string of `n` copies of `s`.
pub fn repeat_string_native(heap: &mut Heap, args: &[Value]) -> (r: PulseResult<Value>)
    requires
        ready(*old(heap)),
    ensures
        ready(*final(heap)),
        args@.len() != 2 ==> crate::value::is_runtime_error(r) && *final(heap) == *old(heap),
        args@.len() == 2 ==> match (str_arg(*old(heap), args@[0]), args@[1]) {
            (Some(s), Value::Int(n)) => if n < 0 {
                crate::value::is_runtime_error(r) && *final(heap) == *old(heap)
            } else {
                new_string(*old(heap), *final(heap), r, repeated(s, n as nat))
            },
            _ => crate::value::is_type_mismatch(r) && *final(heap) == *old(heap),
        },
{
    if args.len() != 2 {
        return Err(PulseError::RuntimeError(text("repeat_string expects 2 arguments")));
    }
    let s = string_arg(heap, args[0])?;
    let n = args[1].as_int()?;
    if n < 0 {
        return Err(PulseError::RuntimeError(text("repeat_string count cannot be negative")));
    }
    let mut out = String::new();
    let mut k: i64 = 0;
    while k < n
        invariant
            0 <= k <= n,
            out@ == repeated(s@, k as nat),
        decreases n - k,
    {
        push_str(&mut out, s.as_str());
        k = k + 1;
    }
    let y = heap.allocate(Object::String(out));
    Ok(Value::Obj(y))
}

/// `pad_start(s, n, pad)` / `pad_end(s, n, pad)`: `s` as it is when it has
/// at least `n` bytes; otherwise the first `n - len` bytes of `pad`
/// repeated, before or after `s`. The cut must fall on a character
/// boundary, and `pad` must not be empty.
fn pad_text(heap: &mut Heap, args: &[Value], at_end: bool) -> (r: PulseResult<Value>)
    requires
        ready(*old(heap)),
    ensures
        ready(*final(heap)),
        args@.len() != 3 ==> crate::value::is_runtime_error(r) && *final(heap) == *old(heap),
        args@.len() == 3 ==> match (str_arg(*old(heap), args@[0]), args@[1], str_arg(*old(heap), args@[2])) {
            (Some(s), Value::Int(n), Some(pad)) => {
                let len = utf8(s).len();
                let plen = utf8(pad).len();
                if n < 0 || pad.len() == 0 {
                    crate::value::is_runtime_error(r) && *final(heap) == *old(heap)
                } else if len >= n {
                    new_string(*old(heap), *final(heap), r, s)
                } else if n - len > usize::MAX || (n - len) / (plen as int) + 1 > usize::MAX
                    || n - len > utf8(repeated(pad, ((n - len) / (plen as int) + 1) as nat)).len() {
                    crate::value::is_runtime_error(r) && *final(heap) == *old(heap)
                } else {
                    let need = n - len;
                    let cut = utf8(repeated(pad, (need / (plen as int) + 1) as nat)).take(need);
                    if vstd::utf8::valid_utf8(cut) {
                        new_string(*old(heap), *final(heap), r,
                            if at_end { s + vstd::utf8::decode_utf8(cut) } else { vstd::utf8::decode_utf8(cut) + s })
                    } else {
                        crate::value::is_runtime_error(r) && *final(heap) == *old(heap)
                    }
                }
            },
            _ => r is Err && *final(heap) == *old(heap),
        },
{
    if args.len() != 3 {
        return Err(PulseError::RuntimeError(text("pad_start expects 3 arguments (str, target_len, pad_char)")));
    }
    let s = string_arg(heap, args[0])?;
    let n = args[1].as_int()?;
    let pad = string_arg(heap, args[2])?;
    let pad_chars = chars_of(pad.as_str());
    if n < 0 || pad_chars.len() == 0 {
        return Err(PulseError::RuntimeError(text("pad_start pad string cannot be empty")));
    }
    let sb = s.as_str().as_bytes();
    let len = sb.len();
    if (len as u64) >= (n as u64) {
        let y = heap.allocate(Object::String(s));
        return Ok(Value::Obj(y));
    }
    let need64 = n as u64 - len as u64;
    if need64 > usize::MAX as u64 {
        return Err(PulseError::RuntimeError(text("Padding too long")));
    }
    let need = need64 as usize;
    let pb = pad.as_str().as_bytes();
    let plen = pb.len();
    proof {
        lemma_utf8_nonempty(pad@);
    }
    let q = need / plen;
    if q == usize::MAX {
        return Err(PulseError::RuntimeError(text("Padding too long")));
    }
    let times = q + 1;
    let mut padding = String::new();
    let mut k: usize = 0;
    while k < times
        invariant
            0 <= k <= times,
            padding@ == repeated(pad@, k as nat),
        decreases times - k,
    {
        push_str(&mut padding, pad.as_str());
        k = k + 1;
    }
    let pbytes = padding.as_str().as_bytes();
    if need > pbytes.len() {
        return Err(PulseError::RuntimeError(text("Padding too short")));
    }
    let cut = &pbytes[0..need];
    proof {
        assert(cut@ =~= utf8(repeated(pad@, times as nat)).take(need as int));
    }
    let piece = match from_utf8(cut) {
        Some(p) => p,
        None => {
            return Err(PulseError::RuntimeError(text("Padding cut is not on a character boundary")));
        },
    };
    let out = if at_end {
        let mut o = s.clone();
        push_str(&mut o, piece.as_str());
        o
    } else {
        let mut o = piece;
        push_str(&mut o, s.as_str());
        o
    };
    let y = heap.allocate(Object::String(out));
    Ok(Value::Obj(y))
}

/// `pad_start(s, n, pad)`: `s` padded at the front to `n` bytes.
pub fn pad_start_native(heap: &mut Heap, args: &[Value]) -> (r: PulseResult<Value>)
    requires
        ready(*old(heap)),
    ensures
        ready(*final(heap)),
        args@.len() != 3 ==> crate::value::is_runtime_error(r) && *final(heap) == *old(heap),
        args@.len() == 3 ==> match (str_arg(*old(heap), args@[0]), args@[1], str_arg(*old(heap), args@[2])) {
            (Some(s), Value::Int(n), Some(pad)) => {
                let len = utf8(s).len();
                let plen = utf8(pad).len();
                if n < 0 || pad.len() == 0 {
                    crate::value::is_runtime_error(r) && *final(heap) == *old(heap)
                } else if len >= n {
                    new_string(*old(heap), *final(heap), r, s)
                } else if n - len > usize::MAX || (n - len) / (plen as int) + 1 > usize::MAX
                    || n - len > utf8(repeated(pad, ((n - len) / (plen as int) + 1) as nat)).len() {
                    crate::value::is_runtime_error(r) && *final(heap) == *old(heap)
                } else {
                    let need = n - len;
                    let cut = utf8(repeated(pad, (need / (plen as int) + 1) as nat)).take(need);
                    if vstd::utf8::valid_utf8(cut) {
                        new_string(*old(heap), *final(heap), r,
                            vstd::utf8::decode_utf8(cut) + s)
                    } else {
                        crate::value::is_runtime_error(r) && *final(heap) == *old(heap)
                    }
                }
            },
            _ => r is Err && *final(heap) == *old(heap),
        },
{
    pad_text(heap, args, false)
}

/// `pad_end(s, n, pad)`: `s` padded at the back to `n` bytes.
pub fn pad_end_native(heap: &mut Heap, args: &[Value]) -> (r: PulseResult<Value>)
    requires
        ready(*old(heap)),
    ensures
        ready(*final(heap)),
        args@.len() != 3 ==> crate::value::is_runtime_error(r) && *final(heap) == *old(heap),
        args@.len() == 3 ==> match (str_arg(*old(heap), args@[0]), args@[1], str_arg(*old(heap), args@[2])) {
            (Some(s), Value::Int(n), Some(pad)) => {
                let len = utf8(s).len();
                let plen = utf8(pad).len();
                if n < 0 || pad.len() == 0 {
                    crate::value::is_runtime_error(r) && *final(heap) == *old(heap)
                } else if len >= n {
                    new_string(*old(heap), *final(heap), r, s)
                } else if n - len > usize::MAX || (n - len) / (plen as int) + 1 > usize::MAX
                    || n - len > utf8(repeated(pad, ((n - len) / (plen as int) + 1) as nat)).len() {
                    crate::value::is_runtime_error(r) && *final(heap) == *old(heap)
                } else {
                    let need = n - len;
                    let cut = utf8(repeated(pad, (need / (plen as int) + 1) as nat)).take(need);
                    if vstd::utf8::valid_utf8(cut) {
                        new_string(*old(heap), *final(heap), r,
                            s + vstd::utf8::decode_utf8(cut))
                    } else {
                        crate::value::is_runtime_error(r) && *final(heap) == *old(heap)
                    }
                }
            },
            _ => r is Err && *final(heap) == *old(heap),
        },
{
    pad_text(heap, args, true)
}

proof fn lemma_utf8_empty()
    ensures
        utf8(Seq::<char>::empty()) == Seq::<u8>::empty(),
{
    assert(utf8(Seq::<char>::empty()) =~= Seq::<u8>::empty());
}

proof fn lemma_utf8_nonempty(s: Seq<char>)
    requires
        s.len() > 0,
    ensures
        utf8(s).len() > 0,
{
    assert(utf8(s) == vstd::utf8::encode_scalar(s[0] as u32) + utf8(s.drop_first()));
    assert(vstd::utf8::encode_scalar(s[0] as u32).len() >= 1);
}

proof fn lemma_joined_front(x: Seq<char>, rest: Seq<Seq<char>>, sep: Seq<char>)
    requires
        rest.len() > 0,
    ensures
        joined(seq![x] + rest, sep) == x + sep + joined(rest, sep),
    decreases rest.len(),
{
    let all = seq![x] + rest;
    assert(all.len() >= 2);
    assert(joined(all, sep) == joined(all.drop_last(), sep) + sep + all.last());
    assert(all.last() == rest.last());
    if rest.len() == 1 {
        assert(all.drop_last() =~= seq![x]);
        assert(joined(seq![x], sep) == x);
        assert(joined(rest, sep) == rest[0]);
    } else {
        assert(all.drop_last() =~= seq![x] + rest.drop_last());
        lemma_joined_front(x, rest.drop_last(), sep);
        assert(joined(rest, sep) == joined(rest.drop_last(), sep) + sep + rest.last());
        assert(x + sep + joined(rest.drop_last(), sep) + sep + rest.last() =~= x + sep + (joined(rest.drop_last(), sep) + sep + rest.last()));
    }
}

proof fn lemma_split_from_joined(s: Seq<char>, p: Seq<char>, i: int, start: int)
    requires
        p.len() > 0,
        0 <= start <= i <= s.len(),
    ensures
        joined(split_from(s, p, i, start), p) == s.subrange(start, s.len() as int),
    decreases s.len() - i,
{
    if i + p.len() > s.len() {
    } else if match_at(s, i, p) {
        let rest = split_from(s, p, i + p.len(), i + p.len());
        lemma_split_from_joined(s, p, i + p.len(), i + p.len());
        lemma_split_from_nonempty(s, p, i + p.len(), i + p.len());
        lemma_joined_front(s.subrange(start, i), rest, p);
        assert(s.subrange(start, i) + s.subrange(i, i + p.len()) + s.subrange(i + p.len(), s.len() as int)
            =~= s.subrange(start, s.len() as int));
    } else {
        lemma_split_from_joined(s, p, i + 1, start);
    }
}

proof fn lemma_split_from_nonempty(s: Seq<char>, p: Seq<char>, i: int, start: int)
    ensures
        split_from(s, p, i, start).len() > 0,
    decreases s.len() - i,
{
    if p.len() == 0 || i + p.len() > s.len() {
    } else if match_at(s, i, p) {
    } else {
        lemma_split_from_nonempty(s, p, i + 1, start);
    }
}

/// Joining the pieces `split_string` cuts a text into, with the nonempty
/// delimiter it cut at, gives the text back (`split_string`, then
/// `join_strings`).
pub proof fn law_join_undoes_split(s: Seq<char>, d: Seq<char>)
    requires
        d.len() > 0,
    ensures
        joined(split_pieces(s, d), d) == s,
{
    lemma_split_from_joined(s, d, 0, 0);
    assert(s.subrange(0, s.len() as int) =~= s);
}


proof fn lemma_replace_split_from(s: Seq<char>, p: Seq<char>, to: Seq<char>, i: int, start: int)
    requires
        p.len() > 0,
        0 <= start <= i <= s.len(),
    ensures
        joined(split_from(s, p, i, start), to) == s.subrange(start, i) + replaced_from(s, p, to, i),
    decreases s.len() - i,
{
    if i + p.len() > s.len() {
        assert forall|j: int| i <= j < s.len() implies !match_at(s, j, p) by {}
        crate::json::lemma_replaced_skip(s, p, to, i, s.len() as int);
        assert(replaced_from(s, p, to, s.len() as int) == Seq::<char>::empty());
        assert(s.subrange(start, i) + (s.subrange(i, s.len() as int) + Seq::<char>::empty()) =~= s.subrange(start, s.len() as int));
    } else if match_at(s, i, p) {
        lemma_replace_split_from(s, p, to, i + p.len(), i + p.len());
        let rest = split_from(s, p, i + p.len(), i + p.len());
        assert(rest.len() > 0) by {
            reveal_with_fuel(split_from, 1);
        }
        lemma_joined_front(s.subrange(start, i), rest, to);
        assert(s.subrange(i + p.len(), i + p.len()) =~= Seq::<char>::empty());
        assert(s.subrange(start, i) + to + (Seq::<char>::empty() + replaced_from(s, p, to, i + p.len()))
            =~= s.subrange(start, i) + (to + replaced_from(s, p, to, i + p.len())));
    } else {
        lemma_replace_split_from(s, p, to, i + 1, start);
        assert(s.subrange(start, i + 1) + replaced_from(s, p, to, i + 1) =~= s.subrange(start, i) + (seq![s[i]] + replaced_from(s, p, to, i + 1)));
    }
}

/// `replace(s, p, to)` with a nonempty `p` is splitting `s` at `p` and
/// joining the pieces with `to`: every occurrence, scanning from the left
/// without overlaps, is replaced and the text between is kept.
pub proof fn law_replace_is_split_then_join(s: Seq<char>, p: Seq<char>, to: Seq<char>)
    requires
        p.len() > 0,
    ensures
        replaced(s, p, to) == joined(split_pieces(s, p), to),
{
    lemma_replace_split_from(s, p, to, 0, 0);
    assert(s.subrange(0, 0) + replaced_from(s, p, to, 0) =~= replaced_from(s, p, to, 0));
}
} // verus!

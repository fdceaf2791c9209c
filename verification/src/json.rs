//! JSON text to values and back.

use vstd::prelude::*;
use crate::value::{Value, PulseError, PulseResult, text};
use crate::object::Object;
use crate::namemap::NameMap;
use crate::heap::Heap;
use crate::text::{push_char, push_str, string_from_chars, chars_of, i64_to_string, int_text, nat_digits, digit_char};
use crate::vm::{object_of, heap_string};
use crate::utils::{ready, grows, parsed_int, parse_i64, float_syntax, is_float_text, digits_value, all_digits};
use crate::string_utils::{trimmed, trim_chars, replaced, replace_all, str_arg, replaced_from, match_at, white_space, trim_start_at, trim_end_at};

verus! {

broadcast use {vstd::std_specs::vec::group_vec_axioms, vstd::string::group_string_axioms};

/// A JSON document as the parser reads it.
pub enum Json {
    Null,
    Bool(bool),
    Int(i64),
    Str(Seq<char>),
    Arr(Seq<Json>),
    Obj(Seq<(Seq<char>, Json)>),
}

/// What parsing gives: a document, a malformed text, or a number only the
/// host can read (a float).
pub enum Parsed {
    Doc(Json),
    Invalid,
    Float,
}

/// The pieces of `s` between the commas at nesting depth 0 outside
/// strings, scanning from `i`; a piece began at `start`. A backslash in a
/// string escapes the next character. The part after the last comma counts
/// only when it is not empty.
pub open spec fn scan(s: Seq<char>, i: int, depth: int, in_str: bool, esc: bool, start: int) -> Seq<Seq<char>>
    decreases s.len() - i,
{
    if i >= s.len() {
        if start < s.len() { seq![s.subrange(start, s.len() as int)] } else { Seq::empty() }
    } else if esc {
        scan(s, i + 1, depth, in_str, false, start)
    } else {
        let c = s[i];
        if c == '\\' && in_str {
            scan(s, i + 1, depth, in_str, true, start)
        } else if c == '"' {
            scan(s, i + 1, depth, !in_str, false, start)
        } else if (c == '{' || c == '[') && !in_str {
            scan(s, i + 1, depth + 1, in_str, false, start)
        } else if (c == '}' || c == ']') && !in_str {
            scan(s, i + 1, depth - 1, in_str, false, start)
        } else if c == ',' && !in_str && depth == 0 {
            seq![s.subrange(start, i)] + scan(s, i + 1, depth, in_str, false, i + 1)
        } else {
            scan(s, i + 1, depth, in_str, false, start)
        }
    }
}

/// The first `:` outside strings in `s`, scanning from `i`.
pub open spec fn colon_from(s: Seq<char>, i: int, in_str: bool, esc: bool) -> Option<int>
    decreases s.len() - i,
{
    if i >= s.len() || i < 0 {
        None
    } else if esc {
        colon_from(s, i + 1, in_str, false)
    } else if s[i] == '\\' && in_str {
        colon_from(s, i + 1, in_str, true)
    } else if s[i] == '"' {
        colon_from(s, i + 1, !in_str, false)
    } else if s[i] == ':' && !in_str {
        Some(i)
    } else {
        colon_from(s, i + 1, in_str, false)
    }
}

/// The escapes a string literal understands, undone in this order: `\"`,
/// `\n`, `\t`, `\\`.
pub open spec fn unescaped(s: Seq<char>) -> Seq<char> {
    replaced(replaced(replaced(replaced(s, seq!['\\', '"'], seq!['"']), seq!['\\', 'n'], seq!['\n']), seq!['\\', 't'], seq!['\t']),
        seq!['\\', '\\'], seq!['\\'])
}

/// A quoted string literal: its text between the quotes, unescaped.
pub open spec fn string_literal(s: Seq<char>) -> Option<Seq<char>> {
    let t = trimmed(s);
    if t.len() >= 2 && t[0] == '"' && t[t.len() - 1] == '"' {
        Some(unescaped(t.subrange(1, t.len() - 1)))
    } else {
        None
    }
}

/// The document a text is, looking at most `fuel` levels deep.
pub open spec fn parse_doc(s: Seq<char>, fuel: nat) -> Parsed
    decreases fuel, 0nat,
{
    let t = trimmed(s);
    if fuel == 0 {
        Parsed::Invalid
    } else if t.len() > 0 && t[0] == '{' {
        let t2 = trimmed(t);
        if !(t2.len() >= 2 && t2[0] == '{' && t2[t2.len() - 1] == '}') {
            Parsed::Invalid
        } else {
            let inner = trimmed(t2.subrange(1, t2.len() - 1));
            if inner.len() == 0 {
                Parsed::Doc(Json::Obj(Seq::empty()))
            } else {
                match parse_pairs(scan(inner, 0, 0, false, false, 0), (fuel - 1) as nat) {
                    Ok(ps) => Parsed::Doc(Json::Obj(ps)),
                    Err(f) => if f { Parsed::Float } else { Parsed::Invalid },
                }
            }
        }
    } else if t.len() > 0 && t[0] == '[' {
        let t2 = trimmed(t);
        if !(t2.len() >= 2 && t2[0] == '[' && t2[t2.len() - 1] == ']') {
            Parsed::Invalid
        } else {
            let inner = trimmed(t2.subrange(1, t2.len() - 1));
            if inner.len() == 0 {
                Parsed::Doc(Json::Arr(Seq::empty()))
            } else {
                match parse_items(scan(inner, 0, 0, false, false, 0), (fuel - 1) as nat) {
                    Ok(items) => Parsed::Doc(Json::Arr(items)),
                    Err(f) => if f { Parsed::Float } else { Parsed::Invalid },
                }
            }
        }
    } else if t.len() > 0 && t[0] == '"' {
        match string_literal(t) {
            Some(u) => Parsed::Doc(Json::Str(u)),
            None => Parsed::Invalid,
        }
    } else if t == "true"@ {
        Parsed::Doc(Json::Bool(true))
    } else if t == "false"@ {
        Parsed::Doc(Json::Bool(false))
    } else if t == "null"@ {
        Parsed::Doc(Json::Null)
    } else {
        match parsed_int(t) {
            Some(i) => Parsed::Doc(Json::Int(i)),
            None => if float_syntax(t) { Parsed::Float } else { Parsed::Invalid },
        }
    }
}

/// The elements of an array, in order; the first failure wins (`true` for
/// a float, `false` for malformed text).
pub open spec fn parse_items(pieces: Seq<Seq<char>>, fuel: nat) -> Result<Seq<Json>, bool>
    decreases fuel, pieces.len() + 1,
{
    if pieces.len() == 0 {
        Ok(Seq::empty())
    } else {
        match parse_items(pieces.drop_last(), fuel) {
            Ok(items) => match parse_doc(pieces.last(), fuel) {
                Parsed::Doc(j) => Ok(items.push(j)),
                Parsed::Invalid => Err(false),
                Parsed::Float => Err(true),
            },
            Err(f) => Err(f),
        }
    }
}

/// The members of an object, in order. A piece without a colon is
/// skipped; the key must be a string literal.
pub open spec fn parse_pairs(pieces: Seq<Seq<char>>, fuel: nat) -> Result<Seq<(Seq<char>, Json)>, bool>
    decreases fuel, pieces.len() + 1,
{
    if pieces.len() == 0 {
        Ok(Seq::empty())
    } else {
        match parse_pairs(pieces.drop_last(), fuel) {
            Ok(ps) => {
                let q = trimmed(pieces.last());
                match colon_from(q, 0, false, false) {
                    None => Ok(ps),
                    Some(pos) => match string_literal(trimmed(q.take(pos))) {
                        None => Err(false),
                        Some(k) => match parse_doc(trimmed(q.subrange(pos + 1, q.len() as int)), fuel) {
                            Parsed::Doc(j) => Ok(ps.push((k, j))),
                            Parsed::Invalid => Err(false),
                            Parsed::Float => Err(true),
                        },
                    },
                }
            },
            Err(f) => Err(f),
        }
    }
}

/// The document a JSON text is.
pub open spec fn json_of(s: Seq<char>) -> Parsed {
    parse_doc(s, s.len())
}

/// Member `i` is the last with its key.
pub open spec fn is_last(ps: Seq<(Seq<char>, Json)>, i: int) -> bool {
    forall|j: int| i < j < ps.len() ==> (#[trigger] ps[j]).0 != ps[i].0
}

/// The value `v` in heap `h` holds the document `j`: lists and maps are
/// objects, strings are string objects, and a key given twice keeps its
/// last value.
pub open spec fn holds(h: Heap, v: Value, j: Json) -> bool
    decreases j,
{
    match j {
        Json::Null => v == Value::Unit,
        Json::Bool(b) => v == Value::Bool(b),
        Json::Int(i) => v == Value::Int(i),
        Json::Str(t) => v is Obj && heap_string(h, v->Obj_0) == Some(t),
        Json::Arr(items) => match object_of(h, v) {
            Some(Object::List(l)) => l@.len() == items.len()
                && forall|i: int| 0 <= i < items.len() ==> holds(h, #[trigger] l@[i], items[i]),
            _ => false,
        },
        Json::Obj(ps) => match object_of(h, v) {
            Some(Object::Dict(m)) => m.wf()
                && (forall|k: Seq<char>| #[trigger] m@.dom().contains(k) <==> exists|i: int| 0 <= i < ps.len() && ps[i].0 == k)
                && forall|i: int| 0 <= i < ps.len() && is_last(ps, i) ==> holds(h, m@[(#[trigger] ps[i]).0], ps[i].1),
            _ => false,
        },
    }
}

/// The colon found lies within the text.
proof fn lemma_colon_range(s: Seq<char>, i: int, in_str: bool, esc: bool)
    ensures
        match colon_from(s, i, in_str, esc) {
            Some(p) => i <= p < s.len(),
            None => true,
        },
    decreases s.len() - i,
{
    if 0 <= i < s.len() {
        lemma_colon_range(s, i + 1, in_str, false);
        lemma_colon_range(s, i + 1, in_str, true);
        lemma_colon_range(s, i + 1, !in_str, false);
    }
}

/// The first `:` outside quotes, by character position.
pub fn find_colon_outside_quotes(s: &str) -> (r: Option<usize>)
    ensures
        match r {
            Some(i) => colon_from(s@, 0, false, false) == Some(i as int),
            None => colon_from(s@, 0, false, false) is None,
        },
{
    let cs = chars_of(s);
    colon_in(&cs)
}

fn colon_in(cs: &Vec<char>) -> (r: Option<usize>)
    ensures
        match r {
            Some(i) => colon_from(cs@, 0, false, false) == Some(i as int),
            None => colon_from(cs@, 0, false, false) is None,
        },
{
    let mut in_str = false;
    let mut esc = false;
    let mut i: usize = 0;
    while i < cs.len()
        invariant
            i <= cs@.len(),
            colon_from(cs@, i as int, in_str, esc) == colon_from(cs@, 0, false, false),
        decreases cs@.len() - i,
    {
        let c = cs[i];
        if esc {
            esc = false;
        } else if c == '\\' && in_str {
            esc = true;
        } else if c == '"' {
            in_str = !in_str;
        } else if c == ':' && !in_str {
            return Some(i);
        }
        i = i + 1;
    }
    None
}

/// The pieces of `cs` between commas at depth 0 outside strings.
fn split_top_level(cs: &Vec<char>) -> (r: Vec<Vec<char>>)
    ensures
        r@.map_values(|v: Vec<char>| v@) == scan(cs@, 0, 0, false, false, 0),
{
    let mut out: Vec<Vec<char>> = Vec::new();
    let mut depth: i128 = 0;
    let mut in_str = false;
    let mut esc = false;
    let mut start: usize = 0;
    let mut i: usize = 0;
    while i < cs.len()
        invariant
            start <= i <= cs@.len(),
            -(i as int) <= depth <= i as int,
            out@.map_values(|v: Vec<char>| v@) + scan(cs@, i as int, depth as int, in_str, esc, start as int)
                == scan(cs@, 0, 0, false, false, 0),
        decreases cs@.len() - i,
    {
        let c = cs[i];
        let ghost before = out@.map_values(|v: Vec<char>| v@);
        let ghost (i0, d0, s0, e0, st0) = (i as int, depth as int, in_str, esc, start as int);
        if esc {
            esc = false;
        } else if c == '\\' && in_str {
            esc = true;
        } else if c == '"' {
            in_str = !in_str;
        } else if (c == '{' || c == '[') && !in_str {
            depth = depth + 1;
        } else if (c == '}' || c == ']') && !in_str {
            depth = depth - 1;
        } else if c == ',' && !in_str && depth == 0 {
            out.push(sub_vec(cs, start, i));
            start = i + 1;
            proof {
                assert(out@.map_values(|v: Vec<char>| v@) =~= before.push(cs@.subrange(st0, i0)));
                assert(scan(cs@, i0, d0, s0, e0, st0) == seq![cs@.subrange(st0, i0)] + scan(cs@, i0 + 1, d0, s0, false, i0 + 1));
                assert(out@.map_values(|v: Vec<char>| v@) + scan(cs@, i0 + 1, depth as int, in_str, esc, start as int)
                    =~= before + scan(cs@, i0, d0, s0, e0, st0));
            }
        }
        i = i + 1;
        proof {
            if !(c == ',' && !s0 && d0 == 0 && !e0 && !(c == '\\' && s0)) {
                assert(scan(cs@, i0, d0, s0, e0, st0) == scan(cs@, i as int, depth as int, in_str, esc, start as int));
            }
        }
    }
    let ghost before = out@.map_values(|v: Vec<char>| v@);
    if start < cs.len() {
        out.push(sub_vec(cs, start, cs.len()));
        proof {
            assert(out@.map_values(|v: Vec<char>| v@) =~= before.push(cs@.subrange(start as int, cs@.len() as int)));
        }
    } else {
        proof {
            assert(before + Seq::<Seq<char>>::empty() =~= before);
        }
    }
    out
}

fn sub_vec(v: &Vec<char>, a: usize, b: usize) -> (r: Vec<char>)
    requires
        a <= b <= v@.len(),
    ensures
        r@ == v@.subrange(a as int, b as int),
{
    let mut r: Vec<char> = Vec::new();
    let mut i = a;
    while i < b
        invariant
            a <= i <= b <= v@.len(),
            r@ == v@.subrange(a as int, i as int),
        decreases b - i,
    {
        r.push(v[i]);
        i = i + 1;
        assert(r@ =~= v@.subrange(a as int, i as int));
    }
    r
}

/// The characters equal those of the literal.
fn eq_lit(t: &Vec<char>, lit: &str) -> (b: bool)
    ensures
        b == (t@ == lit@),
{
    let l = chars_of(lit);
    if t.len() != l.len() {
        return false;
    }
    let mut i: usize = 0;
    while i < t.len()
        invariant
            i <= t@.len(),
            t@.len() == l@.len(),
            l@ == lit@,
            forall|k: int| 0 <= k < i ==> t@[k] == l@[k],
        decreases t@.len() - i,
    {
        if t[i] != l[i] {
            return false;
        }
        i = i + 1;
    }
    assert(t@ =~= l@);
    true
}

/// The text of a string literal (see `string_literal`).
fn literal_of(cs: &Vec<char>) -> (r: Option<String>)
    ensures
        match r {
            Some(u) => string_literal(cs@) == Some(u@),
            None => string_literal(cs@) is None,
        },
{
    let t = trim_chars(cs);
    if !(t.len() >= 2 && t[0] == '"' && t[t.len() - 1] == '"') {
        return None;
    }
    let inner = sub_vec(&t, 1, t.len() - 1);
    let mut p1: Vec<char> = Vec::new();
    p1.push('\\');
    p1.push('"');
    let mut p2: Vec<char> = Vec::new();
    p2.push('\\');
    p2.push('n');
    let mut p3: Vec<char> = Vec::new();
    p3.push('\\');
    p3.push('t');
    let mut p4: Vec<char> = Vec::new();
    p4.push('\\');
    p4.push('\\');
    proof {
        reveal_strlit("\"");
        reveal_strlit("\n");
        reveal_strlit("\t");
        reveal_strlit("\\");
        assert(p1@ =~= seq!['\\', '"']);
        assert(p2@ =~= seq!['\\', 'n']);
        assert(p3@ =~= seq!['\\', 't']);
        assert(p4@ =~= seq!['\\', '\\']);
        assert("\""@ =~= seq!['"']);
        assert("\n"@ =~= seq!['\n']);
        assert("\t"@ =~= seq!['\t']);
        assert("\\"@ =~= seq!['\\']);
    }
    let a = replace_all(&inner, &p1, "\"");
    let a2 = chars_of(a.as_str());
    let b = replace_all(&a2, &p2, "\n");
    let b2 = chars_of(b.as_str());
    let c = replace_all(&b2, &p3, "\t");
    let c2 = chars_of(c.as_str());
    let d = replace_all(&c2, &p4, "\\");
    Some(d)
}

/// `parse_string_literal(s)`: the text of a quoted string literal, its
/// escapes undone.
pub fn parse_string_literal(s: &str) -> (r: PulseResult<String>)
    ensures
        match string_literal(s@) {
            Some(u) => r matches Ok(t) && t@ == u,
            None => crate::value::is_runtime_error(r),
        },
{
    let cs = chars_of(s);
    match literal_of(&cs) {
        Some(u) => Ok(u),
        None => Err(PulseError::RuntimeError(text("Invalid string"))),
    }
}

/// A document held in a heap is still held once the heap has grown.
pub proof fn lemma_holds_grow(h1: Heap, h2: Heap, v: Value, j: Json)
    requires
        holds(h1, v, j),
        h1.live().submap_of(h2.live()),
    ensures
        holds(h2, v, j),
    decreases j,
{
    match j {
        Json::Str(t) => {
            assert(h1.live().dom().contains(v->Obj_0.0 as int));
            assert(h2.live().dom().contains(v->Obj_0.0 as int));
        },
        Json::Arr(items) => {
            assert(h1.live().dom().contains(v->Obj_0.0 as int));
            assert(h2.live().dom().contains(v->Obj_0.0 as int));
            let l = h1.live()[v->Obj_0.0 as int]->List_0;
            assert forall|i: int| 0 <= i < items.len() implies holds(h2, #[trigger] l@[i], items[i]) by {
                lemma_holds_grow(h1, h2, l@[i], items[i]);
            }
        },
        Json::Obj(ps) => {
            assert(h1.live().dom().contains(v->Obj_0.0 as int));
            assert(h2.live().dom().contains(v->Obj_0.0 as int));
            let m = h1.live()[v->Obj_0.0 as int]->Dict_0;
            assert forall|i: int| 0 <= i < ps.len() && is_last(ps, i) implies holds(h2, m@[(#[trigger] ps[i]).0], ps[i].1) by {
                lemma_holds_grow(h1, h2, m@[ps[i].0], ps[i].1);
            }
        },
        _ => {},
    }
}

/// Once a prefix of the pieces fails, all of them fail the same way.
proof fn lemma_pairs_err(pieces: Seq<Seq<char>>, k: int, fuel: nat)
    requires
        0 <= k <= pieces.len(),
        parse_pairs(pieces.take(k), fuel) is Err,
    ensures
        parse_pairs(pieces, fuel) == parse_pairs(pieces.take(k), fuel),
    decreases pieces.len() - k,
{
    if k < pieces.len() {
        assert(pieces.take(k + 1).drop_last() =~= pieces.take(k));
        lemma_pairs_err(pieces, k + 1, fuel);
    } else {
        assert(pieces.take(k) =~= pieces);
    }
}

proof fn lemma_items_err(pieces: Seq<Seq<char>>, k: int, fuel: nat)
    requires
        0 <= k <= pieces.len(),
        parse_items(pieces.take(k), fuel) is Err,
    ensures
        parse_items(pieces, fuel) == parse_items(pieces.take(k), fuel),
    decreases pieces.len() - k,
{
    if k < pieces.len() {
        assert(pieces.take(k + 1).drop_last() =~= pieces.take(k));
        lemma_items_err(pieces, k + 1, fuel);
    } else {
        assert(pieces.take(k) =~= pieces);
    }
}

/// The error a failed parse gives.
pub open spec fn parse_error(r: PulseResult<Value>, float: bool) -> bool {
    if float { crate::value::is_float_host(r) } else { crate::value::is_runtime_error(r) }
}

/// The members of an object from its pieces (see `parse_pairs`), as a
/// new map.
#[verifier::spinoff_prover]
#[verifier::rlimit(40)]
fn parse_members(heap: &mut Heap, pieces: &Vec<Vec<char>>, fuel: usize) -> (r: PulseResult<Value>)
    requires
        ready(*old(heap)),
    ensures
        ready(*final(heap)),
        grows(*old(heap), *final(heap)),
        match parse_pairs(pieces@.map_values(|v: Vec<char>| v@), fuel as nat) {
            Ok(ps) => r matches Ok(v) && holds(*final(heap), v, Json::Obj(ps)),
            Err(f) => parse_error(r, f),
        },
    decreases fuel, 2nat,
{
    let ghost h0 = *heap;
    let ghost pv = pieces@.map_values(|v: Vec<char>| v@);
    let mut m: NameMap<Value> = NameMap::new();
    let ghost mut ps: Seq<(Seq<char>, Json)> = Seq::empty();
    let mut i: usize = 0;
    proof {
        assert(pv.take(0) =~= Seq::<Seq<char>>::empty());
    }
    while i < pieces.len()
        invariant
            ready(*heap),
            h0 == *old(heap),
            grows(h0, *heap),
            i <= pieces@.len(),
            pv == pieces@.map_values(|v: Vec<char>| v@),
            parse_pairs(pv.take(i as int), (fuel as nat)) == Ok::<Seq<(Seq<char>, Json)>, bool>(ps),
            m.wf(),
            forall|k: Seq<char>| #[trigger] m@.dom().contains(k) <==> exists|q: int| 0 <= q < ps.len() && ps[q].0 == k,
            forall|q: int| 0 <= q < ps.len() && is_last(ps, q) ==> holds(*heap, m@[(#[trigger] ps[q]).0], ps[q].1),
        decreases pieces@.len() - i,
    {
        proof {
            assert(pv.take(i + 1).drop_last() =~= pv.take(i as int));
            assert(pv.take(i + 1).last() == pieces@[i as int]@);
        }
        let q = trim_chars(&pieces[i]);
        match colon_in(&q) {
            None => {},
            Some(pos) => {
                proof { lemma_colon_range(q@, 0, false, false); }
                let key_chars = trim_chars(&sub_vec(&q, 0, pos));
                proof {
                    assert(q@.subrange(0, pos as int) =~= q@.take(pos as int));
                }
                let key = match literal_of(&key_chars) {
                    Some(k) => k,
                    None => {
                        proof {
                            lemma_pairs_err(pv, i + 1, (fuel as nat));
                        }
                        return Err(PulseError::RuntimeError(text("Invalid string")));
                    },
                };
                let qlen = q.len();
                assert(pos < qlen);
                let vtext = trim_chars(&sub_vec(&q, pos + 1, q.len()));
                let ghost hb = *heap;
                let v = match parse_value(heap, &vtext, fuel) {
                    Ok(v) => v,
                    Err(e) => {
                        proof {
                            vstd::map_lib::lemma_submap_of_trans(h0.live(), hb.live(), heap.live());
                            lemma_pairs_err(pv, i + 1, (fuel as nat));
                        }
                        return Err(e);
                    },
                };
                proof { vstd::map_lib::lemma_submap_of_trans(h0.live(), hb.live(), heap.live()); }
                let ghost j = parse_doc(vtext@, (fuel as nat))->Doc_0;
                let ghost ps0 = ps;
                let ghost m0 = m@;
                m.insert(key, v);
                proof {
                    ps = ps.push((key@, j));
                    assert forall|k: Seq<char>| #[trigger] m@.dom().contains(k) <==> exists|q: int| 0 <= q < ps.len() && ps[q].0 == k by {
                        if m@.dom().contains(k) && k != key@ {
                            let w = choose|q: int| 0 <= q < ps0.len() && ps0[q].0 == k;
                            assert(ps[w] == ps0[w]);
                        }
                        if k == key@ {
                            assert(ps[ps.len() - 1].0 == k);
                        }
                        if exists|q: int| 0 <= q < ps.len() && ps[q].0 == k {
                            let w = choose|q: int| 0 <= q < ps.len() && ps[q].0 == k;
                            if w < ps0.len() {
                                assert(ps0[w] == ps[w]);
                            }
                        }
                    }
                    assert forall|q: int| 0 <= q < ps.len() && is_last(ps, q) implies holds(*heap, m@[(#[trigger] ps[q]).0], ps[q].1) by {
                        if q < ps0.len() {
                            assert(ps[q] == ps0[q]);
                            assert(ps[q].0 != key@) by {
                                assert(ps[ps.len() - 1].0 == key@);
                            }
                            assert(is_last(ps0, q)) by {
                                assert forall|w: int| q < w < ps0.len() implies (#[trigger] ps0[w]).0 != ps0[q].0 by {
                                    assert(ps[w] == ps0[w]);
                                }
                            }
                            lemma_holds_grow(hb, *heap, m0[ps0[q].0], ps0[q].1);
                        }
                    }
                }
            },
        }
        i = i + 1;
    }
    proof {
        assert(pv.take(i as int) =~= pv);
    }
    let ghost hl = *heap;
    let ghost mm = m;
    let x = heap.allocate(Object::Dict(m));
    proof {
        vstd::map_lib::lemma_submap_of_trans(h0.live(), hl.live(), heap.live());
        assert forall|q: int| 0 <= q < ps.len() && is_last(ps, q) implies holds(*heap, mm@[(#[trigger] ps[q]).0], ps[q].1) by {
            lemma_holds_grow(hl, *heap, mm@[ps[q].0], ps[q].1);
        }
        assert(object_of(*heap, Value::Obj(x)) == Some(Object::Dict(mm)));
        assert(mm.wf());
        assert(forall|k: Seq<char>| #[trigger] mm@.dom().contains(k) <==> exists|i: int| 0 <= i < ps.len() && ps[i].0 == k);
        assert(forall|i: int| 0 <= i < ps.len() && is_last(ps, i) ==> holds(*heap, mm@[(#[trigger] ps[i]).0], ps[i].1));
        let ghost jo = Json::Obj(ps);
        assert(holds(*heap, Value::Obj(x), jo)) by {
            reveal_with_fuel(holds, 2);
        }
    }
    return Ok(Value::Obj(x));
}

/// The elements of an array from its pieces (see `parse_items`), as a new
/// list.
#[verifier::spinoff_prover]
#[verifier::rlimit(40)]
fn parse_elements(heap: &mut Heap, pieces: &Vec<Vec<char>>, fuel: usize) -> (r: PulseResult<Value>)
    requires
        ready(*old(heap)),
    ensures
        ready(*final(heap)),
        grows(*old(heap), *final(heap)),
        match parse_items(pieces@.map_values(|v: Vec<char>| v@), fuel as nat) {
            Ok(items) => r matches Ok(v) && holds(*final(heap), v, Json::Arr(items)),
            Err(f) => parse_error(r, f),
        },
    decreases fuel, 2nat,
{
    let ghost h0 = *heap;
    let ghost pv = pieces@.map_values(|v: Vec<char>| v@);
    let mut items: Vec<Value> = Vec::new();
    let ghost mut js: Seq<Json> = Seq::empty();
    let mut i: usize = 0;
    proof {
        assert(pv.take(0) =~= Seq::<Seq<char>>::empty());
    }
    while i < pieces.len()
        invariant
            ready(*heap),
            h0 == *old(heap),
            grows(h0, *heap),
            i <= pieces@.len(),
            pv == pieces@.map_values(|v: Vec<char>| v@),
            parse_items(pv.take(i as int), (fuel as nat)) == Ok::<Seq<Json>, bool>(js),
            items@.len() == js.len(),
            forall|q: int| 0 <= q < js.len() ==> holds(*heap, #[trigger] items@[q], js[q]),
        decreases pieces@.len() - i,
    {
        proof {
            assert(pv.take(i + 1).drop_last() =~= pv.take(i as int));
            assert(pv.take(i + 1).last() == pieces@[i as int]@);
        }
        let ghost hb = *heap;
        let v = match parse_value(heap, &pieces[i], fuel) {
            Ok(v) => v,
            Err(e) => {
                proof {
                    vstd::map_lib::lemma_submap_of_trans(h0.live(), hb.live(), heap.live());
                    lemma_items_err(pv, i + 1, (fuel as nat));
                }
                return Err(e);
            },
        };
        proof { vstd::map_lib::lemma_submap_of_trans(h0.live(), hb.live(), heap.live()); }
        proof {
            let j = parse_doc(pieces@[i as int]@, (fuel as nat))->Doc_0;
            assert forall|q: int| 0 <= q < js.len() implies holds(*heap, #[trigger] items@[q], js[q]) by {
                lemma_holds_grow(hb, *heap, items@[q], js[q]);
            }
            js = js.push(j);
        }
        items.push(v);
        i = i + 1;
    }
    proof {
        assert(pv.take(i as int) =~= pv);
    }
    let ghost hl = *heap;
    let x = heap.allocate(Object::List(items));
    proof {
        vstd::map_lib::lemma_submap_of_trans(h0.live(), hl.live(), heap.live());
        assert forall|q: int| 0 <= q < js.len() implies holds(*heap, #[trigger] items@[q], js[q]) by {
            lemma_holds_grow(hl, *heap, items@[q], js[q]);
        }
    }
    return Ok(Value::Obj(x));
}

/// Parses a JSON text into new objects (see `parse_doc`).
fn parse_value(heap: &mut Heap, s: &Vec<char>, fuel: usize) -> (r: PulseResult<Value>)
    requires
        ready(*old(heap)),
    ensures
        ready(*final(heap)),
        grows(*old(heap), *final(heap)),
        match parse_doc(s@, fuel as nat) {
            Parsed::Doc(j) => r matches Ok(v) && holds(*final(heap), v, j),
            Parsed::Invalid => crate::value::is_runtime_error(r),
            Parsed::Float => crate::value::is_float_host(r),
        },
    decreases fuel, 1nat,
{
    let ghost h0 = *heap;
    let t = trim_chars(s);
    if fuel == 0 {
        return Err(PulseError::RuntimeError(text("Invalid JSON")));
    }
    if t.len() > 0 && (t[0] == '{' || t[0] == '[') {
        let is_obj = t[0] == '{';
        let t2 = trim_chars(&t);
        let close = if is_obj { '}' } else { ']' };
        if !(t2.len() >= 2 && t2[0] == t[0] && t2[t2.len() - 1] == close) {
            return Err(PulseError::RuntimeError(text("Invalid JSON container")));
        }
        let inner = trim_chars(&sub_vec(&t2, 1, t2.len() - 1));
        if inner.len() == 0 {
            let x = if is_obj { heap.allocate(Object::Dict(NameMap::new())) } else { heap.allocate(Object::List(Vec::new())) };
            proof {
                if is_obj {
                    let m = heap.live()[x.0 as int]->Dict_0;
                    assert(m@.dom() =~= Set::<Seq<char>>::empty());
                }
            }
            return Ok(Value::Obj(x));
        }
        let pieces = split_top_level(&inner);
        let ghost pv = pieces@.map_values(|v: Vec<char>| v@);
        let ghost f1 = (fuel - 1) as nat;
        proof {
            if is_obj {
                assert(parse_doc(s@, fuel as nat) == match parse_pairs(pv, f1) {
                    Ok(ps) => Parsed::Doc(Json::Obj(ps)),
                    Err(f) => if f { Parsed::Float } else { Parsed::Invalid },
                });
            } else {
                assert(parse_doc(s@, fuel as nat) == match parse_items(pv, f1) {
                    Ok(items) => Parsed::Doc(Json::Arr(items)),
                    Err(f) => if f { Parsed::Float } else { Parsed::Invalid },
                });
            }
        }
        if is_obj {
            return parse_members(heap, &pieces, fuel - 1);
        } else {
            return parse_elements(heap, &pieces, fuel - 1);
        }
    }
    if t.len() > 0 && t[0] == '"' {
        return match literal_of(&t) {
            Some(u) => {
                let x = heap.allocate(Object::String(u));
                Ok(Value::Obj(x))
            },
            None => Err(PulseError::RuntimeError(text("Invalid JSON string"))),
        };
    }
    if eq_lit(&t, "true") {
        return Ok(Value::Bool(true));
    }
    if eq_lit(&t, "false") {
        return Ok(Value::Bool(false));
    }
    if eq_lit(&t, "null") {
        return Ok(Value::Unit);
    }
    let st = string_from_chars(t.as_slice());
    match parse_i64(st.as_str()) {
        Some(i) => Ok(Value::Int(i)),
        None => if is_float_text(t.as_slice()) {
            Err(PulseError::NeedsFloatHost)
        } else {
            Err(PulseError::RuntimeError(text("Invalid JSON")))
        },
    }
}

/// `json_parse(s)`: the document the JSON text `s` holds, as new objects
/// (see `json_of`). A float in it needs the host.
pub fn json_parse_native(heap: &mut Heap, args: &[Value]) -> (r: PulseResult<Value>)
    requires
        ready(*old(heap)),
    ensures
        ready(*final(heap)),
        grows(*old(heap), *final(heap)),
        args@.len() != 1 ==> crate::value::is_runtime_error(r),
        args@.len() == 1 ==> match str_arg(*old(heap), args@[0]) {
            Some(s) => match json_of(trimmed(s)) {
                Parsed::Doc(j) => r matches Ok(v) && holds(*final(heap), v, j),
                Parsed::Invalid => crate::value::is_runtime_error(r),
                Parsed::Float => crate::value::is_float_host(r),
            },
            None => crate::value::is_type_mismatch(r),
        },
{
    if args.len() != 1 {
        return Err(PulseError::RuntimeError(text("json_parse expects 1 argument")));
    }
    let s = match args[0] {
        Value::Obj(h) => match heap.get(h) {
            Some(Object::String(s)) => chars_of(s.as_str()),
            _ => {
                return Err(PulseError::TypeMismatch { expected: text("string"), got: text("object") });
            },
        },
        _ => {
            return Err(PulseError::TypeMismatch { expected: text("string"), got: args[0].kind_name() });
        },
    };
    let t = trim_chars(&s);
    parse_value(heap, &t, t.len())
}

/// A string's text with `\` and `"` escaped.
pub open spec fn escaped(s: Seq<char>) -> Seq<char> {
    replaced(replaced(s, seq!['\\'], seq!['\\', '\\']), seq!['"'], seq!['\\', '"'])
}

/// The JSON text of a value, looking at most `depth` levels into lists and
/// maps: `Err(true)` for a float (the host writes it), `Err(false)` for
/// nesting deeper than that.
pub open spec fn json_text(h: Heap, v: Value, depth: nat) -> Result<Seq<char>, bool>
    decreases depth, 0nat,
{
    match v {
        Value::Int(i) => Ok(int_text(i as int)),
        Value::Float(_) => Err(true),
        Value::Bool(b) => Ok(if b { "true"@ } else { "false"@ }),
        Value::Unit => Ok("null"@),
        Value::Pid(_) => Ok("null"@),
        Value::Obj(x) => if !h.live().dom().contains(x.0 as int) {
            Ok("null"@)
        } else {
            match h.live()[x.0 as int] {
                Object::String(s) => Ok(seq!['"'] + escaped(s@) + seq!['"']),
                Object::List(l) => if depth == 0 {
                    Err(false)
                } else {
                    match items_text(h, l@, (depth - 1) as nat) {
                        Ok(t) => Ok(seq!['['] + t + seq![']']),
                        Err(e) => Err(e),
                    }
                },
                Object::Dict(m) => if depth == 0 {
                    Err(false)
                } else {
                    match members_text(h, m.entries@, (depth - 1) as nat) {
                        Ok(t) => Ok(seq!['{'] + t + seq!['}']),
                        Err(e) => Err(e),
                    }
                },
                Object::SharedMemory(_) => Ok("<shared_memory>"@),
                _ => Ok("null"@),
            }
        },
    }
}

/// List items as JSON, separated by commas.
pub open spec fn items_text(h: Heap, s: Seq<Value>, depth: nat) -> Result<Seq<char>, bool>
    decreases depth, s.len() + 1,
{
    if s.len() == 0 {
        Ok(Seq::empty())
    } else {
        match items_text(h, s.drop_last(), depth) {
            Ok(a) => match json_text(h, s.last(), depth) {
                Ok(b) => Ok(if s.len() > 1 { a + seq![','] + b } else { b }),
                Err(e) => Err(e),
            },
            Err(e) => Err(e),
        }
    }
}

/// Map entries as JSON `"key":value`, separated by commas.
pub open spec fn members_text(h: Heap, s: Seq<(String, Value)>, depth: nat) -> Result<Seq<char>, bool>
    decreases depth, s.len() + 1,
{
    if s.len() == 0 {
        Ok(Seq::empty())
    } else {
        match members_text(h, s.drop_last(), depth) {
            Ok(a) => match json_text(h, s.last().1, depth) {
                Ok(b) => {
                    let m = seq!['"'] + escaped(s.last().0@) + seq!['"', ':'] + b;
                    Ok(if s.len() > 1 { a + seq![','] + m } else { m })
                },
                Err(e) => Err(e),
            },
            Err(e) => Err(e),
        }
    }
}

/// A string's text quoted and escaped.
fn quote(s: &str) -> (r: String)
    ensures
        r@ == seq!['"'] + escaped(s@) + seq!['"'],
{
    let cs = chars_of(s);
    let mut p1: Vec<char> = Vec::new();
    p1.push('\\');
    let mut p2: Vec<char> = Vec::new();
    p2.push('"');
    proof {
        reveal_strlit("\\\\");
        reveal_strlit("\\\"");
        assert(p1@ =~= seq!['\\']);
        assert(p2@ =~= seq!['"']);
        assert("\\\\"@ =~= seq!['\\', '\\']);
        assert("\\\""@ =~= seq!['\\', '"']);
    }
    let a = replace_all(&cs, &p1, "\\\\");
    let a2 = chars_of(a.as_str());
    let b = replace_all(&a2, &p2, "\\\"");
    let mut out = String::new();
    push_char(&mut out, '"');
    push_str(&mut out, b.as_str());
    push_char(&mut out, '"');
    proof {
        assert(out@ =~= seq!['"'] + escaped(s@) + seq!['"']);
    }
    out
}

/// The JSON text of a value (see `json_text`).
fn stringify(heap: &Heap, v: Value, depth: usize) -> (r: Result<String, bool>)
    requires
        heap.wf(),
    ensures
        match json_text(*heap, v, depth as nat) {
            Ok(t) => r matches Ok(s) && s@ == t,
            Err(e) => r == Err::<String, bool>(e),
        },
    decreases depth,
{
    match v {
        Value::Int(i) => Ok(i64_to_string(i)),
        Value::Float(_) => Err(true),
        Value::Bool(b) => Ok(if b { text("true") } else { text("false") }),
        Value::Unit => Ok(text("null")),
        Value::Pid(_) => Ok(text("null")),
        Value::Obj(x) => match heap.get(x) {
            None => Ok(text("null")),
            Some(Object::String(s)) => Ok(quote(s.as_str())),
            Some(Object::List(l)) => {
                if depth == 0 {
                    return Err(false);
                }
                let mut out = String::new();
                push_char(&mut out, '[');
                let mut i: usize = 0;
                let ghost d1 = (depth - 1) as nat;
                while i < l.len()
                    invariant
                        heap.wf(),
                        depth > 0,
                        d1 == depth - 1,
                        i <= l@.len(),
                        items_text(*heap, l@.take(i as int), d1) matches Ok(t) && out@ == seq!['['] + t,
                        json_text(*heap, v, depth as nat) == match items_text(*heap, l@, d1) {
                            Ok(t) => Ok(seq!['['] + t + seq![']']),
                            Err(e) => Err::<Seq<char>, bool>(e),
                        },
                    decreases l@.len() - i,
                {
                    proof {
                        assert(l@.take(i + 1).drop_last() =~= l@.take(i as int));
                    }
                    let piece = match stringify(heap, l[i], depth - 1) {
                        Ok(p) => p,
                        Err(e) => {
                            proof { lemma_items_text_err(*heap, l@, i + 1, d1); }
                            return Err(e);
                        },
                    };
                    if i > 0 {
                        push_char(&mut out, ',');
                    }
                    push_str(&mut out, piece.as_str());
                    i = i + 1;
                }
                proof {
                    assert(l@.take(i as int) =~= l@);
                }
                push_char(&mut out, ']');
                Ok(out)
            },
            Some(Object::Dict(m)) => {
                if depth == 0 {
                    return Err(false);
                }
                let mut out = String::new();
                push_char(&mut out, '{');
                let mut i: usize = 0;
                let ghost d1 = (depth - 1) as nat;
                while i < m.entries.len()
                    invariant
                        heap.wf(),
                        depth > 0,
                        d1 == depth - 1,
                        i <= m.entries@.len(),
                        members_text(*heap, m.entries@.take(i as int), d1) matches Ok(t) && out@ == seq!['{'] + t,
                        json_text(*heap, v, depth as nat) == match members_text(*heap, m.entries@, d1) {
                            Ok(t) => Ok(seq!['{'] + t + seq!['}']),
                            Err(e) => Err::<Seq<char>, bool>(e),
                        },
                    decreases m.entries@.len() - i,
                {
                    proof {
                        assert(m.entries@.take(i + 1).drop_last() =~= m.entries@.take(i as int));
                    }
                    let piece = match stringify(heap, m.entries[i].1, depth - 1) {
                        Ok(p) => p,
                        Err(e) => {
                            proof { lemma_members_text_err(*heap, m.entries@, i + 1, d1); }
                            return Err(e);
                        },
                    };
                    if i > 0 {
                        push_char(&mut out, ',');
                    }
                    let key = quote(m.entries[i].0.as_str());
                    push_str(&mut out, key.as_str());
                    push_char(&mut out, ':');
                    push_str(&mut out, piece.as_str());
                    i = i + 1;
                }
                proof {
                    assert(m.entries@.take(i as int) =~= m.entries@);
                }
                push_char(&mut out, '}');
                Ok(out)
            },
            Some(Object::SharedMemory(_)) => Ok(text("<shared_memory>")),
            Some(_) => Ok(text("null")),
        },
    }
}

proof fn lemma_items_text_err(h: Heap, s: Seq<Value>, k: int, depth: nat)
    requires
        0 <= k <= s.len(),
        items_text(h, s.take(k), depth) is Err,
    ensures
        items_text(h, s, depth) == items_text(h, s.take(k), depth),
    decreases s.len() - k,
{
    if k < s.len() {
        assert(s.take(k + 1).drop_last() =~= s.take(k));
        lemma_items_text_err(h, s, k + 1, depth);
    } else {
        assert(s.take(k) =~= s);
    }
}

proof fn lemma_members_text_err(h: Heap, s: Seq<(String, Value)>, k: int, depth: nat)
    requires
        0 <= k <= s.len(),
        members_text(h, s.take(k), depth) is Err,
    ensures
        members_text(h, s, depth) == members_text(h, s.take(k), depth),
    decreases s.len() - k,
{
    if k < s.len() {
        assert(s.take(k + 1).drop_last() =~= s.take(k));
        lemma_members_text_err(h, s, k + 1, depth);
    } else {
        assert(s.take(k) =~= s);
    }
}

/// `json_stringify(v)`: a new string of the JSON text of `v`, looking as
/// many levels deep as there are heap slots (a list or map nested deeper
/// contains itself). A float needs the host.
pub fn json_stringify_native(heap: &mut Heap, args: &[Value]) -> (r: PulseResult<Value>)
    requires
        ready(*old(heap)),
    ensures
        ready(*final(heap)),
        args@.len() != 1 ==> crate::value::is_runtime_error(r) && *final(heap) == *old(heap),
        args@.len() == 1 ==> match json_text(*old(heap), args@[0], old(heap).slots()) {
            Ok(t) => crate::utils::new_string(*old(heap), *final(heap), r, t),
            Err(f) => (if f { crate::value::is_float_host(r) } else { crate::value::is_runtime_error(r) }) && *final(heap) == *old(heap),
        },
{
    if args.len() != 1 {
        return Err(PulseError::RuntimeError(text("json_stringify expects 1 argument")));
    }
    let n = heap.slot_count();
    let t = match stringify(heap, args[0], n) {
        Ok(t) => t,
        Err(true) => {
            return Err(PulseError::NeedsFloatHost);
        },
        Err(false) => {
            return Err(PulseError::RuntimeError(text("Value nests too deep")));
        },
    };
    let x = heap.allocate(Object::String(t));
    Ok(Value::Obj(x))
}


/// A text with no quote and no backslash, which JSON writes as it is.
pub open spec fn plain_text(s: Seq<char>) -> bool {
    forall|i: int| 0 <= i < s.len() ==> s[i] != '"' && s[i] != '\\'
}

/// The document a scalar is: an integer, a boolean, unit, or a string of
/// plain text.
pub open spec fn scalar_doc(h: Heap, v: Value) -> Option<Json> {
    match v {
        Value::Int(i) => Some(Json::Int(i)),
        Value::Bool(b) => Some(Json::Bool(b)),
        Value::Unit => Some(Json::Null),
        Value::Obj(x) => match heap_string(h, x) {
            Some(t) => if plain_text(t) { Some(Json::Str(t)) } else { None },
            None => None,
        },
        _ => None,
    }
}

/// Replacing a pattern whose first character never occurs changes nothing.
proof fn lemma_replaced_absent(s: Seq<char>, p: Seq<char>, to: Seq<char>, i: int)
    requires
        p.len() > 0,
        0 <= i <= s.len(),
        forall|k: int| 0 <= k < s.len() ==> s[k] != p[0],
    ensures
        replaced_from(s, p, to, i) == s.subrange(i, s.len() as int),
    decreases s.len() - i,
{
    if i < s.len() {
        if match_at(s, i, p) {
            assert(s.subrange(i, i + p.len())[0] == s[i]);
        }
        lemma_replaced_absent(s, p, to, i + 1);
        assert(seq![s[i]] + s.subrange(i + 1, s.len() as int) =~= s.subrange(i, s.len() as int));
    } else {
        assert(s.subrange(i, s.len() as int) =~= Seq::<char>::empty());
    }
}

/// A text that starts and ends with other than white space is its own trim.
proof fn lemma_trimmed_same(s: Seq<char>)
    requires
        s.len() > 0,
        !white_space(s[0]),
        !white_space(s[s.len() - 1]),
    ensures
        trimmed(s) == s,
{
    reveal(trimmed);
    assert(exists|i: int| 0 <= i < s.len() && !white_space(s[i]));
    let a = choose|i: int| 0 <= i < s.len() && !white_space(s[i]) && forall|j: int| 0 <= j < i ==> white_space(#[trigger] s[j]);
    assert(0 <= 0 < s.len() && !white_space(s[0]) && forall|j: int| 0 <= j < 0 ==> white_space(#[trigger] s[j]));
    if a > 0 {
        assert(white_space(s[0]));
    }
    let e = choose|i: int| 0 <= i < s.len() && !white_space(s[i]) && forall|j: int| i < j < s.len() ==> white_space(#[trigger] s[j]);
    let last = s.len() - 1;
    assert(0 <= last < s.len() && !white_space(s[last]) && forall|j: int| last < j < s.len() ==> white_space(#[trigger] s[j]));
    if e < last {
        assert(white_space(s[last]));
    }
    assert(trim_start_at(s) == 0);
    assert(trim_end_at(s) == s.len());
    assert(s.subrange(0, s.len() as int) =~= s);
}

/// The decimal digits of `n` read back as `n`.
pub(crate) proof fn lemma_digits_read_back(n: nat)
    ensures
        nat_digits(n).len() > 0,
        all_digits(nat_digits(n)),
        digits_value(nat_digits(n)) == n,
        '0' <= nat_digits(n)[0] <= '9',
        '0' <= nat_digits(n)[nat_digits(n).len() - 1] <= '9',
    decreases n,
{
    let d = nat_digits(n);
    if n < 10 {
        assert(d.drop_last() =~= Seq::<char>::empty());
        assert(d.last() == digit_char(n as int));
        assert(digit_char(n as int) as int - '0' as int == n);
        assert(digits_value(d) == 10 * digits_value(d.drop_last()) + (d.last() as int - '0' as int));
    } else {
        lemma_digits_read_back(n / 10);
        let q = nat_digits(n / 10);
        let c = digit_char((n % 10) as int);
        assert(d == q + seq![c]);
        assert(d.drop_last() =~= q);
        assert(c as int - '0' as int == n % 10);
        assert(forall|i: int| 0 <= i < d.len() ==> #[trigger] d[i] == if i < q.len() { q[i] } else { c });
        assert(d.last() == c);
        assert(digits_value(d) == 10 * digits_value(d.drop_last()) + (d.last() as int - '0' as int));
        assert(n == 10 * (n / 10) + n % 10);
    }
}

/// The state the comma scanner reaches going from `i` up to `j` in `s`, or
/// none when a comma at depth 0 outside strings splits the text there.
pub open spec fn walk(s: Seq<char>, i: int, j: int, depth: int, in_str: bool, esc: bool) -> Option<(int, bool, bool)>
    decreases j - i,
{
    if i >= j {
        Some((depth, in_str, esc))
    } else if esc {
        walk(s, i + 1, j, depth, in_str, false)
    } else {
        let c = s[i];
        if c == '\\' && in_str {
            walk(s, i + 1, j, depth, in_str, true)
        } else if c == '"' {
            walk(s, i + 1, j, depth, !in_str, false)
        } else if (c == '{' || c == '[') && !in_str {
            walk(s, i + 1, j, depth + 1, in_str, false)
        } else if (c == '}' || c == ']') && !in_str {
            walk(s, i + 1, j, depth - 1, in_str, false)
        } else if c == ',' && !in_str && depth == 0 {
            None
        } else {
            walk(s, i + 1, j, depth, in_str, false)
        }
    }
}

/// A whole text walked from depth `d` outside strings comes back to depth
/// `d` outside strings, with no comma splitting it.
pub open spec fn balanced(t: Seq<char>) -> bool {
    forall|d: int| d >= 0 ==> #[trigger] walk(t, 0, t.len() as int, d, false, false) == Some((d, false, false))
}

/// Texts joined by commas.
pub open spec fn comma_join(ts: Seq<Seq<char>>) -> Seq<char>
    decreases ts.len(),
{
    if ts.len() == 0 {
        Seq::empty()
    } else if ts.len() == 1 {
        ts[0]
    } else {
        ts[0] + seq![','] + comma_join(ts.drop_first())
    }
}

/// The document a value is when it holds only integers, booleans, unit,
/// strings of plain text, and lists and maps (keys of plain text) of such
/// values, nested at most `n` deep.
pub open spec fn plain_doc(h: Heap, v: Value, n: nat) -> Option<Json>
    decreases n, 0nat,
{
    match scalar_doc(h, v) {
        Some(j) => Some(j),
        None => if n == 0 {
            None
        } else {
            match object_of(h, v) {
                Some(Object::List(l)) => match plain_items(h, l@, (n - 1) as nat) {
                    Some(js) => Some(Json::Arr(js)),
                    None => None,
                },
                Some(Object::Dict(m)) => match plain_members(h, m.entries@, (n - 1) as nat) {
                    Some(ps) => Some(Json::Obj(ps)),
                    None => None,
                },
                _ => None,
            }
        },
    }
}

/// The documents of the items, when each is plain.
pub open spec fn plain_items(h: Heap, s: Seq<Value>, n: nat) -> Option<Seq<Json>>
    decreases n, s.len() + 1,
{
    if s.len() == 0 {
        Some(Seq::empty())
    } else {
        match (plain_items(h, s.drop_last(), n), plain_doc(h, s.last(), n)) {
            (Some(js), Some(j)) => Some(js.push(j)),
            _ => None,
        }
    }
}

/// The members of a map, when each key is plain text and each value plain.
pub open spec fn plain_members(h: Heap, s: Seq<(String, Value)>, n: nat) -> Option<Seq<(Seq<char>, Json)>>
    decreases n, s.len() + 1,
{
    if s.len() == 0 {
        Some(Seq::empty())
    } else {
        match (plain_members(h, s.drop_last(), n), plain_doc(h, s.last().1, n)) {
            (Some(ps), Some(j)) => if plain_text(s.last().0@) { Some(ps.push((s.last().0@, j))) } else { None },
            _ => None,
        }
    }
}

/// Plain members, one by one.
proof fn lemma_plain_members(h: Heap, s: Seq<(String, Value)>, n: nat)
    requires
        plain_members(h, s, n) is Some,
    ensures
        plain_members(h, s, n)->Some_0.len() == s.len(),
        forall|i: int| 0 <= i < s.len() ==> {
            &&& plain_text(s[i].0@)
            &&& plain_members(h, s, n)->Some_0[i].0 == s[i].0@
            &&& #[trigger] plain_doc(h, s[i].1, n) == Some(plain_members(h, s, n)->Some_0[i].1)
        },
    decreases s.len(),
{
    if s.len() > 0 {
        let a = s.drop_last();
        lemma_plain_members(h, a, n);
        assert forall|i: int| 0 <= i < s.len() implies {
            &&& plain_text(s[i].0@)
            &&& plain_members(h, s, n)->Some_0[i].0 == s[i].0@
            &&& #[trigger] plain_doc(h, s[i].1, n) == Some(plain_members(h, s, n)->Some_0[i].1)
        } by {
            if i < s.len() - 1 {
                assert(s[i] == a[i]);
            }
        }
    }
}

/// Plain items, one by one.
proof fn lemma_plain_items(h: Heap, s: Seq<Value>, n: nat)
    requires
        plain_items(h, s, n) is Some,
    ensures
        plain_items(h, s, n)->Some_0.len() == s.len(),
        forall|i: int| 0 <= i < s.len() ==> #[trigger] plain_doc(h, s[i], n) == Some(plain_items(h, s, n)->Some_0[i]),
    decreases s.len(),
{
    if s.len() > 0 {
        let a = s.drop_last();
        lemma_plain_items(h, a, n);
        assert forall|i: int| 0 <= i < s.len() implies #[trigger] plain_doc(h, s[i], n) == Some(plain_items(h, s, n)->Some_0[i]) by {
            if i < s.len() - 1 {
                assert(s[i] == a[i]);
            }
        }
    }
}

proof fn lemma_scan_skip(s: Seq<char>, i: int, j: int, d: int, ins: bool, e: bool, start: int)
    requires
        0 <= i <= j <= s.len(),
        walk(s, i, j, d, ins, e) is Some,
    ensures
        ({
            let w = walk(s, i, j, d, ins, e)->Some_0;
            scan(s, i, d, ins, e, start) == scan(s, j, w.0, w.1, w.2, start)
        }),
    decreases j - i,
{
    if i < j {
        if e {
            lemma_scan_skip(s, i + 1, j, d, ins, false, start);
        } else {
            let c = s[i];
            if c == '\\' && ins {
                lemma_scan_skip(s, i + 1, j, d, ins, true, start);
            } else if c == '"' {
                lemma_scan_skip(s, i + 1, j, d, !ins, false, start);
            } else if (c == '{' || c == '[') && !ins {
                lemma_scan_skip(s, i + 1, j, d + 1, ins, false, start);
            } else if (c == '}' || c == ']') && !ins {
                lemma_scan_skip(s, i + 1, j, d - 1, ins, false, start);
            } else {
                lemma_scan_skip(s, i + 1, j, d, ins, false, start);
            }
        }
    }
}

/// Walking part of a text is walking that part on its own.
proof fn lemma_walk_local(s: Seq<char>, p: Seq<char>, i: int, k: int, d: int, ins: bool, e: bool)
    requires
        0 <= i,
        i + p.len() <= s.len(),
        0 <= k <= p.len(),
        s.subrange(i, i + p.len()) == p,
    ensures
        walk(s, i + k, i + p.len(), d, ins, e) == walk(p, k, p.len() as int, d, ins, e),
    decreases p.len() - k,
{
    if k < p.len() {
        assert(s[i + k] == p[k]);
        lemma_walk_local(s, p, i, k + 1, d, ins, false);
        lemma_walk_local(s, p, i, k + 1, d, ins, true);
        lemma_walk_local(s, p, i, k + 1, d, !ins, false);
        lemma_walk_local(s, p, i, k + 1, d + 1, ins, false);
        lemma_walk_local(s, p, i, k + 1, d - 1, ins, false);
    }
}

/// Walking up to `k` and on from there is walking the whole way.
proof fn lemma_walk_split(s: Seq<char>, i: int, k: int, j: int, d: int, ins: bool, e: bool)
    requires
        i <= k <= j,
        walk(s, i, k, d, ins, e) is Some,
    ensures
        ({
            let w = walk(s, i, k, d, ins, e)->Some_0;
            walk(s, i, j, d, ins, e) == walk(s, k, j, w.0, w.1, w.2)
        }),
    decreases k - i,
{
    if i < k {
        if e {
            lemma_walk_split(s, i + 1, k, j, d, ins, false);
        } else {
            let c = s[i];
            if c == '\\' && ins {
                lemma_walk_split(s, i + 1, k, j, d, ins, true);
            } else if c == '"' {
                lemma_walk_split(s, i + 1, k, j, d, !ins, false);
            } else if (c == '{' || c == '[') && !ins {
                lemma_walk_split(s, i + 1, k, j, d + 1, ins, false);
            } else if (c == '}' || c == ']') && !ins {
                lemma_walk_split(s, i + 1, k, j, d - 1, ins, false);
            } else {
                lemma_walk_split(s, i + 1, k, j, d, ins, false);
            }
        }
    }
}

/// Walking one character.
proof fn lemma_walk_char(c: char, d: int, ins: bool)
    ensures
        c == '"' ==> walk(seq![c], 0, 1, d, ins, false) == Some((d, !ins, false)),
        c == ',' && (ins || d != 0) ==> walk(seq![c], 0, 1, d, ins, false) == Some((d, ins, false)),
        c == '[' && !ins ==> walk(seq![c], 0, 1, d, ins, false) == Some((d + 1, ins, false)),
        c == ']' && !ins ==> walk(seq![c], 0, 1, d, ins, false) == Some((d - 1, ins, false)),
{
    reveal_with_fuel(walk, 2);
}

/// Walking `p + q` is walking `p`, then `q` from where `p` ends.
proof fn lemma_walk_concat(p: Seq<char>, q: Seq<char>, d: int, ins: bool, e: bool)
    requires
        walk(p, 0, p.len() as int, d, ins, e) is Some,
    ensures
        ({
            let w = walk(p, 0, p.len() as int, d, ins, e)->Some_0;
            walk(p + q, 0, (p + q).len() as int, d, ins, e) == walk(q, 0, q.len() as int, w.0, w.1, w.2)
        }),
{
    let s = p + q;
    assert(s.subrange(0, p.len() as int) =~= p);
    assert(s.subrange(p.len() as int, (p.len() + q.len()) as int) =~= q);
    lemma_walk_local(s, p, 0, 0, d, ins, e);
    let w = walk(p, 0, p.len() as int, d, ins, e)->Some_0;
    lemma_walk_split(s, 0, p.len() as int, s.len() as int, d, ins, e);
    lemma_walk_local(s, q, p.len() as int, 0, w.0, w.1, w.2);
}

/// A text with no quote, backslash, bracket, brace or comma leaves the
/// state as it was.
proof fn lemma_walk_quiet(t: Seq<char>, k: int, d: int, ins: bool)
    requires
        0 <= k <= t.len(),
        forall|i: int| 0 <= i < t.len() ==> {
            let c = #[trigger] t[i];
            c != '"' && c != '\\' && c != '{' && c != '[' && c != '}' && c != ']' && c != ','
        },
    ensures
        walk(t, k, t.len() as int, d, ins, false) == Some((d, ins, false)),
    decreases t.len() - k,
{
    if k < t.len() {
        let c = t[k];
        lemma_walk_quiet(t, k + 1, d, ins);
    }
}

/// Plain text inside a string leaves the scanner inside it.
proof fn lemma_walk_in_string(t: Seq<char>, k: int, d: int)
    requires
        0 <= k <= t.len(),
        plain_text(t),
    ensures
        walk(t, k, t.len() as int, d, true, false) == Some((d, true, false)),
    decreases t.len() - k,
{
    if k < t.len() {
        lemma_walk_in_string(t, k + 1, d);
    }
}

/// Balanced texts joined by commas walk back to the depth they started at,
/// when that is inside brackets.
proof fn lemma_walk_join(ts: Seq<Seq<char>>, d: int)
    requires
        d >= 1,
        forall|i: int| 0 <= i < ts.len() ==> balanced(#[trigger] ts[i]),
    ensures
        walk(comma_join(ts), 0, comma_join(ts).len() as int, d, false, false) == Some((d, false, false)),
    decreases ts.len(),
{
    if ts.len() == 0 {
    } else if ts.len() == 1 {
        assert(balanced(ts[0]));
        assert(walk(ts[0], 0, ts[0].len() as int, d, false, false) == Some((d, false, false)));
    } else {
        let rest = ts.drop_first();
        assert forall|i: int| 0 <= i < rest.len() implies balanced(#[trigger] rest[i]) by {
            assert(rest[i] == ts[i + 1]);
        }
        lemma_walk_join(rest, d);
        assert(balanced(ts[0]));
        assert(walk(ts[0], 0, ts[0].len() as int, d, false, false) == Some((d, false, false)));
        lemma_walk_concat(ts[0], seq![','] + comma_join(rest), d, false, false);
        lemma_walk_char(',', d, false);
        lemma_walk_concat(seq![','], comma_join(rest), d, false, false);
        assert(ts[0] + seq![','] + comma_join(rest) =~= ts[0] + (seq![','] + comma_join(rest)));
    }
}

/// Joining a text on at the end.
proof fn lemma_join_push(ts: Seq<Seq<char>>, t: Seq<char>)
    requires
        ts.len() >= 1,
    ensures
        comma_join(ts.push(t)) == comma_join(ts) + seq![','] + t,
    decreases ts.len(),
{
    assert(ts.push(t)[0] == ts[0]);
    if ts.len() == 1 {
        assert(ts.push(t).drop_first() =~= seq![t]);
        assert(comma_join(seq![t]) == t);
        assert(comma_join(ts) == ts[0]);
    } else {
        lemma_join_push(ts.drop_first(), t);
        assert(ts.push(t).drop_first() =~= ts.drop_first().push(t));
        assert(comma_join(ts.push(t)) == ts[0] + seq![','] + comma_join(ts.drop_first().push(t)));
        assert(ts[0] + seq![','] + (comma_join(ts.drop_first()) + seq![','] + t) =~= ts[0] + seq![','] + comma_join(ts.drop_first()) + seq![','] + t);
    }
}

/// Each joined text is no longer than the join; the join starts with the
/// first text's first character and ends with the last text's last one.
proof fn lemma_join_shape(ts: Seq<Seq<char>>)
    requires
        ts.len() >= 1,
        forall|i: int| 0 <= i < ts.len() ==> (#[trigger] ts[i]).len() > 0,
    ensures
        forall|i: int| 0 <= i < ts.len() ==> (#[trigger] ts[i]).len() <= comma_join(ts).len(),
        comma_join(ts)[0] == ts[0][0],
        comma_join(ts)[comma_join(ts).len() - 1] == ts[ts.len() - 1][ts[ts.len() - 1].len() - 1],
    decreases ts.len(),
{
    if ts.len() > 1 {
        let rest = ts.drop_first();
        assert forall|i: int| 0 <= i < rest.len() implies (#[trigger] rest[i]).len() > 0 by {
            assert(rest[i] == ts[i + 1]);
        }
        lemma_join_shape(rest);
        assert forall|i: int| 0 <= i < ts.len() implies (#[trigger] ts[i]).len() <= comma_join(ts).len() by {
            if i > 0 {
                assert(rest[i - 1] == ts[i]);
            }
        }
        let j = comma_join(ts);
        assert(j == ts[0] + seq![','] + comma_join(rest));
        assert(j[j.len() - 1] == comma_join(rest)[comma_join(rest).len() - 1]);
    }
}

/// The comma scanner cuts a join of balanced texts back into them.
proof fn lemma_scan_join(s: Seq<char>, ts: Seq<Seq<char>>, i: int)
    requires
        0 <= i <= s.len(),
        ts.len() >= 1,
        s.subrange(i, s.len() as int) == comma_join(ts),
        forall|k: int| 0 <= k < ts.len() ==> balanced(#[trigger] ts[k]) && ts[k].len() > 0,
    ensures
        scan(s, i, 0, false, false, i) == ts,
    decreases ts.len(),
{
    let t0 = ts[0];
    assert(balanced(t0) && t0.len() > 0);
    assert(walk(t0, 0, t0.len() as int, 0, false, false) == Some((0int, false, false)));
    let e = i + t0.len();
    if ts.len() == 1 {
        assert(s.subrange(i, i + t0.len()) =~= t0);
    } else {
        let rest = ts.drop_first();
        assert(comma_join(ts) == t0 + seq![','] + comma_join(rest));
        assert(s.subrange(i, e) =~= t0) by {
            assert(forall|k: int| 0 <= k < t0.len() ==> s[i + k] == #[trigger] comma_join(ts)[k]);
        }
        assert(s[e] == ',') by {
            assert(s[e] == comma_join(ts)[t0.len() as int]);
        }
        assert(s.subrange(e + 1, s.len() as int) =~= comma_join(rest)) by {
            let cj = comma_join(ts);
            assert(s.len() - i == cj.len());
            assert forall|k: int| 0 <= k < comma_join(rest).len() implies s[e + 1 + k] == #[trigger] comma_join(rest)[k] by {
                assert(s[e + 1 + k] == s.subrange(i, s.len() as int)[t0.len() + 1 + k]);
                assert(cj[t0.len() + 1 + k] == comma_join(rest)[k]);
            }
        }
        assert forall|k: int| 0 <= k < rest.len() implies balanced(#[trigger] rest[k]) && rest[k].len() > 0 by {
            assert(rest[k] == ts[k + 1]);
        }
        lemma_scan_join(s, rest, e + 1);
    }
    lemma_walk_local(s, t0, i, 0, 0, false, false);
    lemma_scan_skip(s, i, e, 0, false, false, i);
    assert(s.subrange(i, e) =~= t0);
    assert(ts =~= seq![t0] + ts.drop_first());
}

/// Parsing element texts one by one gives the elements.
proof fn lemma_parse_items(ts: Seq<Seq<char>>, js: Seq<Json>, fuel: nat)
    requires
        ts.len() == js.len(),
        forall|k: int| 0 <= k < ts.len() ==> parse_doc(#[trigger] ts[k], fuel) == Parsed::Doc(js[k]),
    ensures
        parse_items(ts, fuel) == Ok::<Seq<Json>, bool>(js),
    decreases ts.len(),
{
    if ts.len() > 0 {
        let a = ts.drop_last();
        assert forall|k: int| 0 <= k < a.len() implies parse_doc(#[trigger] a[k], fuel) == Parsed::Doc(js.drop_last()[k]) by {
            assert(a[k] == ts[k]);
            assert(js.drop_last()[k] == js[k]);
            assert(parse_doc(ts[k], fuel) == Parsed::Doc(js[k]));
        }
        lemma_parse_items(a, js.drop_last(), fuel);
        assert(parse_doc(ts[ts.len() - 1], fuel) == Parsed::Doc(js[js.len() - 1]));
        assert(ts.last() == ts[ts.len() - 1]);
        assert(js.drop_last().push(js[js.len() - 1]) =~= js);
    } else {
        assert(js =~= Seq::<Json>::empty());
    }
}

/// The element texts of a list, each written at depth `depth`.
pub open spec fn element_texts(h: Heap, l: Seq<Value>, depth: nat) -> Seq<Seq<char>> {
    Seq::new(l.len(), |i: int| json_text(h, l[i], depth)->Ok_0)
}

/// A list's items written one by one and joined by commas.
proof fn lemma_items_join(h: Heap, l: Seq<Value>, depth: nat)
    requires
        forall|i: int| 0 <= i < l.len() ==> #[trigger] json_text(h, l[i], depth) is Ok,
    ensures
        items_text(h, l, depth) == Ok::<Seq<char>, bool>(comma_join(element_texts(h, l, depth))),
    decreases l.len(),
{
    if l.len() > 0 {
        let a = l.drop_last();
        assert forall|i: int| 0 <= i < a.len() implies #[trigger] json_text(h, a[i], depth) is Ok by {
            assert(a[i] == l[i]);
        }
        lemma_items_join(h, a, depth);
        let ta = element_texts(h, a, depth);
        let tl = element_texts(h, l, depth);
        assert(json_text(h, l[l.len() - 1], depth) is Ok);
        assert(tl =~= ta.push(tl[l.len() - 1]));
        if l.len() > 1 {
            lemma_join_push(ta, tl[l.len() - 1]);
        } else {
            assert(ta.len() == 0);
            assert(tl =~= seq![tl[0]]);
        }
    }
}

/// The text of a member: its key quoted, a colon, and its value.
pub open spec fn member_text(key: Seq<char>, value: Seq<char>) -> Seq<char> {
    seq!['"'] + escaped(key) + seq!['"', ':'] + value
}

/// The member texts of a map's entries, each value written at depth `depth`.
pub open spec fn member_texts(h: Heap, s: Seq<(String, Value)>, depth: nat) -> Seq<Seq<char>> {
    Seq::new(s.len(), |i: int| member_text(s[i].0@, json_text(h, s[i].1, depth)->Ok_0))
}

/// A map's members written one by one and joined by commas.
proof fn lemma_members_join(h: Heap, s: Seq<(String, Value)>, depth: nat)
    requires
        forall|i: int| 0 <= i < s.len() ==> #[trigger] json_text(h, s[i].1, depth) is Ok,
    ensures
        members_text(h, s, depth) == Ok::<Seq<char>, bool>(comma_join(member_texts(h, s, depth))),
    decreases s.len(),
{
    if s.len() > 0 {
        let a = s.drop_last();
        assert forall|i: int| 0 <= i < a.len() implies #[trigger] json_text(h, a[i].1, depth) is Ok by {
            assert(a[i] == s[i]);
        }
        lemma_members_join(h, a, depth);
        let ta = member_texts(h, a, depth);
        let tl = member_texts(h, s, depth);
        assert(json_text(h, s[s.len() - 1].1, depth) is Ok);
        assert(tl =~= ta.push(tl[s.len() - 1]));
        assert(tl[s.len() - 1] == seq!['"'] + escaped(s.last().0@) + seq!['"', ':'] + json_text(h, s.last().1, depth)->Ok_0);
        if s.len() > 1 {
            lemma_join_push(ta, tl[s.len() - 1]);
        } else {
            assert(ta.len() == 0);
            assert(tl =~= seq![tl[0]]);
        }
    }
}

/// Inside a string of plain text, the colon search goes on to its end.
proof fn lemma_colon_in_string(q: Seq<char>, a: int, b: int)
    requires
        0 <= a <= b <= q.len(),
        forall|k: int| a <= k < b ==> #[trigger] q[k] != '"' && q[k] != '\\',
    ensures
        colon_from(q, a, true, false) == colon_from(q, b, true, false),
    decreases b - a,
{
    if a < b {
        lemma_colon_in_string(q, a + 1, b);
    }
}

/// Parsing member texts one by one gives the members.
proof fn lemma_parse_pairs(qs: Seq<Seq<char>>, ps: Seq<(Seq<char>, Json)>, pos: Seq<int>, fuel: nat)
    requires
        qs.len() == ps.len(),
        pos.len() == ps.len(),
        forall|k: int| 0 <= k < qs.len() ==> {
            &&& trimmed(#[trigger] qs[k]) == qs[k]
            &&& colon_from(qs[k], 0, false, false) == Some(pos[k])
            &&& string_literal(trimmed(qs[k].take(pos[k]))) == Some(ps[k].0)
            &&& parse_doc(trimmed(qs[k].subrange(pos[k] + 1, qs[k].len() as int)), fuel) == Parsed::Doc(ps[k].1)
        },
    ensures
        parse_pairs(qs, fuel) == Ok::<Seq<(Seq<char>, Json)>, bool>(ps),
    decreases qs.len(),
{
    if qs.len() > 0 {
        let a = qs.drop_last();
        let last = qs.len() - 1;
        assert forall|k: int| 0 <= k < a.len() implies {
            &&& trimmed(#[trigger] a[k]) == a[k]
            &&& colon_from(a[k], 0, false, false) == Some(pos.drop_last()[k])
            &&& string_literal(trimmed(a[k].take(pos.drop_last()[k]))) == Some(ps.drop_last()[k].0)
            &&& parse_doc(trimmed(a[k].subrange(pos.drop_last()[k] + 1, a[k].len() as int)), fuel) == Parsed::Doc(ps.drop_last()[k].1)
        } by {
            assert(a[k] == qs[k]);
            assert(pos.drop_last()[k] == pos[k]);
            assert(ps.drop_last()[k] == ps[k]);
            assert(trimmed(qs[k]) == qs[k]);
        }
        lemma_parse_pairs(a, ps.drop_last(), pos.drop_last(), fuel);
        assert(trimmed(qs[last]) == qs[last]);
        assert(qs.last() == qs[last]);
        assert(ps.drop_last().push(ps[last]) =~= ps);
    } else {
        assert(ps =~= Seq::<(Seq<char>, Json)>::empty());
    }
}

/// A scalar's text: not empty, without white space at either end,
/// balanced, and read back as the scalar with any fuel.
proof fn lemma_scalar_text(h: Heap, v: Value, depth: nat, fuel: nat)
    requires
        scalar_doc(h, v) is Some,
        fuel >= 1,
    ensures
        json_text(h, v, depth) matches Ok(t) && {
            &&& t.len() > 0
            &&& !white_space(t[0])
            &&& !white_space(t[t.len() - 1])
            &&& balanced(t)
            &&& parse_doc(t, fuel) == Parsed::Doc(scalar_doc(h, v)->Some_0)
        },
{
    reveal_strlit("true");
    reveal_strlit("false");
    reveal_strlit("null");
    let t = json_text(h, v, depth)->Ok_0;
    match v {
        Value::Int(i) => {
            if i < 0 {
                lemma_digits_read_back((-i) as nat);
                let b = nat_digits((-i) as nat);
                assert(t[0] == '-');
                assert(t[t.len() - 1] == b[b.len() - 1]);
                assert(t.drop_first() =~= b);
                assert forall|k: int| 0 <= k < t.len() implies (#[trigger] t[k] == '-' || '0' <= t[k] <= '9') by {
                    if k > 0 {
                        assert(t[k] == b[k - 1]);
                    }
                }
            } else {
                lemma_digits_read_back(i as nat);
            }
            lemma_trimmed_same(t);
            assert(t != "true"@ && t != "false"@ && t != "null"@) by {
                assert(t[0] != 't' && t[0] != 'f' && t[0] != 'n');
            }
            assert(parsed_int(t) == Some(i));
            assert forall|d: int| d >= 0 implies #[trigger] walk(t, 0, t.len() as int, d, false, false) == Some((d, false, false)) by {
                lemma_walk_quiet(t, 0, d, false);
            }
        },
        Value::Bool(b) => {
            lemma_trimmed_same(t);
            assert forall|d: int| d >= 0 implies #[trigger] walk(t, 0, t.len() as int, d, false, false) == Some((d, false, false)) by {
                lemma_walk_quiet(t, 0, d, false);
            }
        },
        Value::Unit => {
            lemma_trimmed_same(t);
            assert forall|d: int| d >= 0 implies #[trigger] walk(t, 0, t.len() as int, d, false, false) == Some((d, false, false)) by {
                lemma_walk_quiet(t, 0, d, false);
            }
        },
        Value::Obj(x) => {
            let s = heap_string(h, x)->Some_0;
            lemma_replaced_absent(s, seq!['\\'], seq!['\\', '\\'], 0);
            assert(s.subrange(0, s.len() as int) =~= s);
            lemma_replaced_absent(s, seq!['"'], seq!['\\', '"'], 0);
            assert(t == seq!['"'] + s + seq!['"']);
            assert(t[0] == '"' && t[t.len() - 1] == '"');
            lemma_trimmed_same(t);
            assert(t.subrange(1, t.len() - 1) =~= s);
            lemma_replaced_absent(s, seq!['\\', '"'], seq!['"'], 0);
            lemma_replaced_absent(s, seq!['\\', 'n'], seq!['\n'], 0);
            lemma_replaced_absent(s, seq!['\\', 't'], seq!['\t'], 0);
            lemma_replaced_absent(s, seq!['\\', '\\'], seq!['\\'], 0);
            assert(t != "true"@ && t != "false"@ && t != "null"@) by {
                assert(t[0] == '"');
            }
            assert forall|d: int| d >= 0 implies #[trigger] walk(t, 0, t.len() as int, d, false, false) == Some((d, false, false)) by {
                lemma_walk_in_string(s, 0, d);
                lemma_walk_char('"', d, false);
                lemma_walk_char('"', d, true);
                lemma_walk_concat(seq!['"'], s + seq!['"'], d, false, false);
                lemma_walk_concat(s, seq!['"'], d, true, false);
                assert(seq!['"'] + (s + seq!['"']) =~= t);
            }
        },
        _ => {},
    }
}

/// Plain text is written and read as it is.
proof fn lemma_escaped_plain(s: Seq<char>)
    requires
        plain_text(s),
    ensures
        escaped(s) == s,
        unescaped(s) == s,
{
    lemma_replaced_absent(s, seq!['\\'], seq!['\\', '\\'], 0);
    assert(s.subrange(0, s.len() as int) =~= s);
    lemma_replaced_absent(s, seq!['"'], seq!['\\', '"'], 0);
    lemma_replaced_absent(s, seq!['\\', '"'], seq!['"'], 0);
    lemma_replaced_absent(s, seq!['\\', 'n'], seq!['\n'], 0);
    lemma_replaced_absent(s, seq!['\\', 't'], seq!['\t'], 0);
    lemma_replaced_absent(s, seq!['\\', '\\'], seq!['\\'], 0);
}

/// A bracketed text `open + inner + close` read back, given what its
/// comma-separated pieces are.
proof fn lemma_bracket_inner(t: Seq<char>, inner: Seq<char>, ts: Seq<Seq<char>>)
    requires
        t.len() == inner.len() + 2,
        t.subrange(1, t.len() - 1) == inner,
        !white_space(t[0]),
        !white_space(t[t.len() - 1]),
        inner == comma_join(ts),
        forall|k: int| 0 <= k < ts.len() ==> balanced(#[trigger] ts[k]) && ts[k].len() > 0
            && !white_space(ts[k][0]) && !white_space(ts[k][ts[k].len() - 1]),
    ensures
        trimmed(t) == t,
        trimmed(t.subrange(1, t.len() - 1)) == inner,
        ts.len() > 0 ==> scan(inner, 0, 0, false, false, 0) == ts && inner.len() > 0,
        ts.len() == 0 ==> inner.len() == 0,
        forall|k: int| 0 <= k < ts.len() ==> (#[trigger] ts[k]).len() < t.len(),
{
    lemma_trimmed_same(t);
    if ts.len() == 0 {
        reveal(trimmed);
        assert(inner.len() == 0);
    } else {
        lemma_join_shape(ts);
        lemma_trimmed_same(inner);
        assert(inner.subrange(0, inner.len() as int) =~= inner);
        lemma_scan_join(inner, ts, 0);
    }
}

/// The text of a plain value: not empty, without white space at either
/// end, balanced, and read back as its document with fuel at least its
/// length.
proof fn lemma_plain_text(h: Heap, v: Value, n: nat, depth: nat, fuel: nat)
    requires
        plain_doc(h, v, n) is Some,
        depth >= n,
    ensures
        json_text(h, v, depth) matches Ok(t) && {
            &&& t.len() > 0
            &&& !white_space(t[0])
            &&& !white_space(t[t.len() - 1])
            &&& balanced(t)
            &&& (fuel >= t.len() ==> parse_doc(t, fuel) == Parsed::Doc(plain_doc(h, v, n)->Some_0))
        },
    decreases n,
{
    if scalar_doc(h, v) is Some {
        lemma_scalar_text(h, v, depth, if fuel >= 1 { fuel } else { 1 });
        if fuel >= 1 {
            lemma_scalar_text(h, v, depth, fuel);
        }
    } else {
        let dd = (depth - 1) as nat;
        let m = (n - 1) as nat;
        match object_of(h, v) {
            Some(Object::List(vl)) => {
                let l = vl@;
                let js = plain_items(h, l, m)->Some_0;
                lemma_plain_items(h, l, m);
                assert(plain_doc(h, v, n) == Some(Json::Arr(js)));
                assert forall|i: int| 0 <= i < l.len() implies #[trigger] json_text(h, l[i], dd) is Ok by {
                    assert(plain_doc(h, l[i], m) == Some(js[i]));
                    lemma_plain_text(h, l[i], m, dd, 0);
                }
                lemma_items_join(h, l, dd);
                let ts = element_texts(h, l, dd);
                let inner = comma_join(ts);
                let t = seq!['['] + inner + seq![']'];
                assert(json_text(h, v, depth) == Ok::<Seq<char>, bool>(t));
                assert forall|k: int| 0 <= k < ts.len() implies balanced(#[trigger] ts[k]) && ts[k].len() > 0
                    && !white_space(ts[k][0]) && !white_space(ts[k][ts[k].len() - 1]) by {
                    assert(plain_doc(h, l[k], m) == Some(js[k]));
                    lemma_plain_text(h, l[k], m, dd, 0);
                }
                assert forall|d: int| d >= 0 implies #[trigger] walk(t, 0, t.len() as int, d, false, false) == Some((d, false, false)) by {
                    lemma_walk_join(ts, d + 1);
                    lemma_walk_char('[', d, false);
                    lemma_walk_char(']', d + 1, false);
                    lemma_walk_concat(seq!['['], inner + seq![']'], d, false, false);
                    lemma_walk_concat(inner, seq![']'], d + 1, false, false);
                    assert(seq!['['] + (inner + seq![']']) =~= t);
                }
                assert(t.subrange(1, t.len() - 1) =~= inner);
                lemma_bracket_inner(t, inner, ts);
                if fuel >= t.len() {
                    if l.len() == 0 {
                        assert(js =~= Seq::<Json>::empty());
                    } else {
                        assert forall|k: int| 0 <= k < ts.len() implies parse_doc(#[trigger] ts[k], (fuel - 1) as nat) == Parsed::Doc(js[k]) by {
                            assert(plain_doc(h, l[k], m) == Some(js[k]));
                            lemma_plain_text(h, l[k], m, dd, (fuel - 1) as nat);
                        }
                        lemma_parse_items(ts, js, (fuel - 1) as nat);
                    }
                }
            },
            Some(Object::Dict(dm)) => {
                let es = dm.entries@;
                let ps = plain_members(h, es, m)->Some_0;
                lemma_plain_members(h, es, m);
                assert(plain_doc(h, v, n) == Some(Json::Obj(ps)));
                assert forall|i: int| 0 <= i < es.len() implies #[trigger] json_text(h, es[i].1, dd) is Ok by {
                    assert(plain_doc(h, es[i].1, m) == Some(ps[i].1));
                    lemma_plain_text(h, es[i].1, m, dd, 0);
                }
                lemma_members_join(h, es, dd);
                let ts = member_texts(h, es, dd);
                let inner = comma_join(ts);
                let t = seq!['{'] + inner + seq!['}'];
                assert(json_text(h, v, depth) == Ok::<Seq<char>, bool>(t));
                let pos: Seq<int> = Seq::new(es.len(), |k: int| (es[k].0@.len() + 2) as int);
                assert forall|k: int| 0 <= k < ts.len() implies balanced(#[trigger] ts[k]) && ts[k].len() > 0
                    && !white_space(ts[k][0]) && !white_space(ts[k][ts[k].len() - 1])
                    && (fuel >= t.len() ==> {
                        &&& trimmed(ts[k]) == ts[k]
                        &&& colon_from(ts[k], 0, false, false) == Some(pos[k])
                        &&& string_literal(trimmed(ts[k].take(pos[k]))) == Some(ps[k].0)
                        &&& parse_doc(trimmed(ts[k].subrange(pos[k] + 1, ts[k].len() as int)), (fuel - 1) as nat) == Parsed::Doc(ps[k].1)
                    }) by {
                    let key = es[k].0@;
                    assert(plain_doc(h, es[k].1, m) == Some(ps[k].1));
                    lemma_plain_text(h, es[k].1, m, dd, 0);
                    let vt = json_text(h, es[k].1, dd)->Ok_0;
                    lemma_escaped_plain(key);
                    let a = seq!['"'] + key;
                    let b = a + seq!['"', ':'];
                    let q = b + vt;
                    assert(ts[k] == q);
                    assert forall|d: int| d >= 0 implies #[trigger] walk(q, 0, q.len() as int, d, false, false) == Some((d, false, false)) by {
                        lemma_walk_char('"', d, false);
                        lemma_walk_in_string(key, 0, d);
                        lemma_walk_concat(seq!['"'], key, d, false, false);
                        assert(walk(seq!['"', ':'], 0, 2, d, true, false) == Some((d, false, false))) by {
                            reveal_with_fuel(walk, 3);
                        }
                        lemma_walk_concat(a, seq!['"', ':'], d, false, false);
                        lemma_walk_concat(b, vt, d, false, false);
                    }
                    let kl = key.len() as int;
                    assert(q[0] == '"');
                    assert(q[q.len() - 1] == vt[vt.len() - 1]);
                    if fuel >= t.len() {
                        lemma_trimmed_same(q);
                        assert(q[kl + 1] == '"' && q[kl + 2] == ':');
                        assert forall|j: int| 1 <= j < 1 + kl implies #[trigger] q[j] != '"' && q[j] != '\\' by {
                            assert(q[j] == key[j - 1]);
                        }
                        lemma_colon_in_string(q, 1, 1 + kl);
                        assert(colon_from(q, kl + 2, false, false) == Some(kl + 2));
                        assert(colon_from(q, kl + 1, true, false) == Some(kl + 2));
                        assert(colon_from(q, 0, false, false) == colon_from(q, 1, true, false));
                        let lit = q.take(kl + 2);
                        assert(lit =~= seq!['"'] + key + seq!['"']);
                        lemma_trimmed_same(lit);
                        assert(lit.subrange(1, lit.len() - 1) =~= key);
                        assert(q.subrange(kl + 3, q.len() as int) =~= vt);
                        lemma_trimmed_same(vt);
                        lemma_join_shape(ts);
                        assert(ts[k].len() <= inner.len());
                        lemma_plain_text(h, es[k].1, m, dd, (fuel - 1) as nat);
                    }
                }
                assert forall|d: int| d >= 0 implies #[trigger] walk(t, 0, t.len() as int, d, false, false) == Some((d, false, false)) by {
                    lemma_walk_join(ts, d + 1);
                    assert(walk(seq!['{'], 0, 1, d, false, false) == Some((d + 1, false, false))) by {
                        reveal_with_fuel(walk, 2);
                    }
                    assert(walk(seq!['}'], 0, 1, d + 1, false, false) == Some((d, false, false))) by {
                        reveal_with_fuel(walk, 2);
                    }
                    lemma_walk_concat(seq!['{'], inner + seq!['}'], d, false, false);
                    lemma_walk_concat(inner, seq!['}'], d + 1, false, false);
                    assert(seq!['{'] + (inner + seq!['}']) =~= t);
                }
                assert(t.subrange(1, t.len() - 1) =~= inner);
                lemma_bracket_inner(t, inner, ts);
                if fuel >= t.len() {
                    if es.len() == 0 {
                        assert(ps =~= Seq::<(Seq<char>, Json)>::empty());
                    } else {
                        lemma_parse_pairs(ts, ps, pos, (fuel - 1) as nat);
                    }
                }
            },
            _ => {},
        }
    }
}

/// Writing a value as JSON and reading the text back gives the same
/// document: for values made of integers, booleans, unit, strings with no
/// quote or backslash, and lists and maps (keys with no quote or
/// backslash) of such values nested at most `n` deep, written looking at
/// least `n` levels deep. Each list reads back as its items in order, each
/// map as its entries in order.
pub proof fn law_json_round_trip(h: Heap, v: Value, n: nat, depth: nat)
    requires
        plain_doc(h, v, n) is Some,
        depth >= n,
    ensures
        json_text(h, v, depth) matches Ok(t) && json_of(trimmed(t)) == Parsed::Doc(plain_doc(h, v, n)->Some_0),
{
    lemma_plain_text(h, v, n, depth, 0);
    let t = json_text(h, v, depth)->Ok_0;
    lemma_plain_text(h, v, n, depth, t.len());
    lemma_trimmed_same(t);
}


/// Replacing goes past a stretch with no occurrence as it is.
pub(crate) proof fn lemma_replaced_skip(s: Seq<char>, pat: Seq<char>, to: Seq<char>, i: int, k: int)
    requires
        pat.len() > 0,
        0 <= i <= k <= s.len(),
        forall|j: int| i <= j < k ==> !match_at(s, j, pat),
    ensures
        replaced_from(s, pat, to, i) == s.subrange(i, k) + replaced_from(s, pat, to, k),
    decreases k - i,
{
    if i < k {
        lemma_replaced_skip(s, pat, to, i + 1, k);
        assert(seq![s[i]] + (s.subrange(i + 1, k) + replaced_from(s, pat, to, k)) =~= s.subrange(i, k) + replaced_from(s, pat, to, k));
    } else {
        assert(s.subrange(i, k) =~= Seq::<char>::empty());
    }
}

/// Replacing a pattern that occurs only at `k`.
proof fn lemma_replaced_once(s: Seq<char>, pat: Seq<char>, to: Seq<char>, k: int)
    requires
        pat.len() > 0,
        match_at(s, k, pat),
        forall|j: int| 0 <= j < s.len() && j != k ==> !match_at(s, j, pat),
    ensures
        replaced(s, pat, to) == s.subrange(0, k) + to + s.subrange(k + pat.len(), s.len() as int),
{
    let e = k + pat.len();
    lemma_replaced_skip(s, pat, to, 0, k);
    lemma_replaced_skip(s, pat, to, e, s.len() as int);
    assert(replaced_from(s, pat, to, s.len() as int) == Seq::<char>::empty());
    assert(s.subrange(e, s.len() as int) + Seq::<char>::empty() =~= s.subrange(e, s.len() as int));
    assert(s.subrange(0, k) + (to + s.subrange(e, s.len() as int)) =~= s.subrange(0, k) + to + s.subrange(e, s.len() as int));
}

/// Replacing a pattern that never occurs changes nothing.
proof fn lemma_replaced_never(s: Seq<char>, pat: Seq<char>, to: Seq<char>)
    requires
        pat.len() > 0,
        forall|j: int| 0 <= j < s.len() ==> !match_at(s, j, pat),
    ensures
        replaced(s, pat, to) == s,
{
    lemma_replaced_skip(s, pat, to, 0, s.len() as int);
    assert(replaced_from(s, pat, to, s.len() as int) == Seq::<char>::empty());
    assert(s.subrange(0, s.len() as int) + Seq::<char>::empty() =~= s);
}

/// In `p + [\, e] + q`, with no backslash in `p` or `q`, a two-character
/// pattern that starts with a backslash can only occur at the escape.
proof fn lemma_escape_only_there(p: Seq<char>, e: char, q: Seq<char>, pat: Seq<char>)
    requires
        forall|i: int| 0 <= i < p.len() ==> p[i] != '\\',
        forall|i: int| 0 <= i < q.len() ==> q[i] != '\\',
        e != '\\',
        pat.len() == 2,
        pat[0] == '\\',
    ensures
        forall|j: int| 0 <= j < (p + seq!['\\', e] + q).len() && j != p.len() ==> !match_at(p + seq!['\\', e] + q, j, pat),
        match_at(p + seq!['\\', e] + q, p.len() as int, pat) <==> pat[1] == e,
{
    let s = p + seq!['\\', e] + q;
    assert forall|j: int| 0 <= j < s.len() && j != p.len() implies !match_at(s, j, pat) by {
        if match_at(s, j, pat) {
            assert(s.subrange(j, j + 2)[0] == s[j]);
            if j < p.len() {
                assert(s[j] == p[j]);
            } else if j == p.len() + 1 {
                assert(s[j] == e);
            } else {
                assert(s[j] == q[j - p.len() - 2]);
            }
        }
    }
    let k = p.len() as int;
    if match_at(s, k, pat) {
        assert(s.subrange(k, k + 2)[1] == s[k + 1]);
    }
    if pat[1] == e {
        assert(s.subrange(k, k + 2) =~= pat);
    }
}

/// A text with no backslash has no two-character pattern that starts with one.
proof fn lemma_no_backslash_pattern(s: Seq<char>, pat: Seq<char>)
    requires
        forall|i: int| 0 <= i < s.len() ==> s[i] != '\\',
        pat.len() == 2,
        pat[0] == '\\',
    ensures
        forall|j: int| 0 <= j < s.len() ==> !match_at(s, j, pat),
{
    assert forall|j: int| 0 <= j < s.len() implies !match_at(s, j, pat) by {
        if match_at(s, j, pat) {
            assert(s.subrange(j, j + 2)[0] == s[j]);
        }
    }
}

/// What a string literal's escapes stand for: in a quoted text with one
/// escape and no other backslash, `\n` is a newline, `\t` a tab and `\"` a
/// quote; the rest of the text is kept as it is.
pub proof fn law_string_literal_escapes(p: Seq<char>, q: Seq<char>)
    requires
        forall|i: int| 0 <= i < p.len() ==> p[i] != '\\',
        forall|i: int| 0 <= i < q.len() ==> q[i] != '\\',
    ensures
        string_literal(seq!['"'] + p + seq!['\\', 'n'] + q + seq!['"']) == Some(p + seq!['\n'] + q),
        string_literal(seq!['"'] + p + seq!['\\', 't'] + q + seq!['"']) == Some(p + seq!['\t'] + q),
        string_literal(seq!['"'] + p + seq!['\\', '"'] + q + seq!['"']) == Some(p + seq!['"'] + q),
        string_literal(seq!['"'] + p + q + seq!['"']) == Some(p + q),
{
    let qq = seq!['\\', '"'];
    let qn = seq!['\\', 'n'];
    let qt = seq!['\\', 't'];
    let qb = seq!['\\', '\\'];
    assert forall|e: char, out: char| e != '\\' && out != '\\' && (e == 'n' || e == 't' || e == '"')
        && out == (if e == 'n' { '\n' } else if e == 't' { '\t' } else { '"' })
        implies string_literal(seq!['"'] + p + seq!['\\', e] + q + seq!['"']) == Some(p + seq![out] + q) by {
        let s = p + seq!['\\', e] + q;
        let t = seq!['"'] + s + seq!['"'];
        assert(t =~= seq!['"'] + p + seq!['\\', e] + q + seq!['"']);
        lemma_trimmed_same(t);
        assert(t.subrange(1, t.len() - 1) =~= s);
        let k = p.len() as int;
        let r = p + seq![out] + q;
        assert forall|i: int| 0 <= i < r.len() implies r[i] != '\\' by {
            if i < p.len() {
                assert(r[i] == p[i]);
            } else if i > p.len() {
                assert(r[i] == q[i - p.len() - 1]);
            }
        }
        assert(s.subrange(0, k) =~= p);
        assert(s.subrange(k + 2, s.len() as int) =~= q);
        lemma_escape_only_there(p, e, q, qq);
        lemma_escape_only_there(p, e, q, qn);
        lemma_escape_only_there(p, e, q, qt);
        lemma_no_backslash_pattern(r, qq);
        lemma_no_backslash_pattern(r, qn);
        lemma_no_backslash_pattern(r, qt);
        lemma_no_backslash_pattern(r, qb);
        if e == '"' {
            lemma_replaced_once(s, qq, seq!['"'], k);
            assert(replaced(s, qq, seq!['"']) =~= r);
            lemma_replaced_never(r, qn, seq!['\n']);
            lemma_replaced_never(r, qt, seq!['\t']);
            lemma_replaced_never(r, qb, seq!['\\']);
        } else if e == 'n' {
            lemma_replaced_never(s, qq, seq!['"']);
            lemma_replaced_once(s, qn, seq!['\n'], k);
            assert(replaced(s, qn, seq!['\n']) =~= r);
            lemma_replaced_never(r, qt, seq!['\t']);
            lemma_replaced_never(r, qb, seq!['\\']);
        } else {
            lemma_replaced_never(s, qq, seq!['"']);
            lemma_replaced_never(s, qn, seq!['\n']);
            lemma_replaced_once(s, qt, seq!['\t'], k);
            assert(replaced(s, qt, seq!['\t']) =~= r);
            lemma_replaced_never(r, qb, seq!['\\']);
        }
    }
    assert(string_literal(seq!['"'] + p + seq!['\\', 'n'] + q + seq!['"']) == Some(p + seq!['\n'] + q));
    assert(string_literal(seq!['"'] + p + seq!['\\', 't'] + q + seq!['"']) == Some(p + seq!['\t'] + q));
    assert(string_literal(seq!['"'] + p + seq!['\\', '"'] + q + seq!['"']) == Some(p + seq!['"'] + q));
    let s = p + q;
    let t = seq!['"'] + s + seq!['"'];
    assert(t =~= seq!['"'] + p + q + seq!['"']);
    lemma_trimmed_same(t);
    assert(t.subrange(1, t.len() - 1) =~= s);
    assert forall|i: int| 0 <= i < s.len() implies s[i] != '\\' by {
        if i < p.len() {
            assert(s[i] == p[i]);
        } else {
            assert(s[i] == q[i - p.len()]);
        }
    }
    lemma_no_backslash_pattern(s, qq);
    lemma_no_backslash_pattern(s, qn);
    lemma_no_backslash_pattern(s, qt);
    lemma_no_backslash_pattern(s, qb);
    lemma_replaced_never(s, qq, seq!['"']);
    lemma_replaced_never(s, qn, seq!['\n']);
    lemma_replaced_never(s, qt, seq!['\t']);
    lemma_replaced_never(s, qb, seq!['\\']);
}

/// In a quoted text with one escaped backslash and no other backslash, the
/// pair stands for one backslash, unless what follows it makes an earlier
/// escape (`n`, `t` or a quote, which are undone first).
pub proof fn law_string_literal_backslash(p: Seq<char>, q: Seq<char>)
    requires
        forall|i: int| 0 <= i < p.len() ==> p[i] != '\\',
        forall|i: int| 0 <= i < q.len() ==> q[i] != '\\',
        q.len() == 0 || (q[0] != 'n' && q[0] != 't' && q[0] != '"'),
    ensures
        string_literal(seq!['"'] + p + seq!['\\', '\\'] + q + seq!['"']) == Some(p + seq!['\\'] + q),
{
    let s = p + seq!['\\', '\\'] + q;
    let t = seq!['"'] + s + seq!['"'];
    assert(t =~= seq!['"'] + p + seq!['\\', '\\'] + q + seq!['"']);
    lemma_trimmed_same(t);
    assert(t.subrange(1, t.len() - 1) =~= s);
    let k = p.len() as int;
    assert forall|pat: Seq<char>, j: int| pat.len() == 2 && pat[0] == '\\' && pat[1] != '\\' && 0 <= j < s.len()
        && #[trigger] match_at(s, j, pat) implies (j == k + 1 && q.len() > 0 && q[0] == pat[1]) by {
        assert(s.subrange(j, j + 2)[0] == s[j]);
        assert(s.subrange(j, j + 2)[1] == s[j + 1]);
        if j < k {
            assert(s[j] == p[j]);
        } else if j == k {
            assert(s[j + 1] == '\\');
        } else if j > k + 1 {
            assert(s[j] == q[j - k - 2]);
        } else {
            assert(s[j + 1] == q[0]);
        }
    }
    let qq = seq!['\\', '"'];
    let qn = seq!['\\', 'n'];
    let qt = seq!['\\', 't'];
    let qb = seq!['\\', '\\'];
    assert forall|j: int| 0 <= j < s.len() implies !match_at(s, j, qq) && !match_at(s, j, qn) && !match_at(s, j, qt) by {
        if match_at(s, j, qq) { assert(q[0] == qq[1]); }
        if match_at(s, j, qn) { assert(q[0] == qn[1]); }
        if match_at(s, j, qt) { assert(q[0] == qt[1]); }
    }
    lemma_replaced_never(s, qq, seq!['"']);
    lemma_replaced_never(s, qn, seq!['\n']);
    lemma_replaced_never(s, qt, seq!['\t']);
    assert forall|j: int| 0 <= j < s.len() && j != k implies !match_at(s, j, qb) by {
        if match_at(s, j, qb) {
            assert(s.subrange(j, j + 2)[0] == s[j]);
            assert(s.subrange(j, j + 2)[1] == s[j + 1]);
            if j < k {
                assert(s[j] == p[j]);
            } else if j > k + 1 {
                assert(s[j] == q[j - k - 2]);
            } else {
                assert(s[j + 1] == q[0]);
            }
        }
    }
    assert(s.subrange(k, k + 2) =~= qb);
    lemma_replaced_once(s, qb, seq!['\\'], k);
    assert(s.subrange(0, k) =~= p);
    assert(s.subrange(k + 2, s.len() as int) =~= q);
    assert(replaced(s, qb, seq!['\\']) =~= p + seq!['\\'] + q);
}

/// The decimal digits of a positive number do not start with zero.
proof fn lemma_no_leading_zero(n: nat)
    requires
        n > 0,
    ensures
        nat_digits(n)[0] != '0',
    decreases n,
{
    if n >= 10 {
        lemma_no_leading_zero(n / 10);
        lemma_digits_read_back(n / 10);
        assert(nat_digits(n) == nat_digits(n / 10) + seq![digit_char((n % 10) as int)]);
    }
}

/// An integer's decimal text reads back as the integer: a minus sign for a
/// negative one, then its digits without leading zeros.
pub proof fn law_int_text_reads_back(i: i64)
    ensures
        parsed_int(int_text(i as int)) == Some(i),
        int_text(i as int).len() > 0,
        (int_text(i as int)[0] == '-') <==> i < 0,
        i != 0 ==> int_text(i as int)[if i < 0 { 1int } else { 0int }] != '0',
        i == 0 ==> int_text(i as int) == seq!['0'],
{
    let t = int_text(i as int);
    if i < 0 {
        lemma_digits_read_back((-i) as nat);
        lemma_no_leading_zero((-i) as nat);
        let b = nat_digits((-i) as nat);
        assert(t.drop_first() =~= b);
        assert(t[1] == b[0]);
    } else {
        lemma_digits_read_back(i as nat);
        if i > 0 {
            lemma_no_leading_zero(i as nat);
        }
    }
}

/// Replacing in `pre + y` from inside `y` is replacing in `y`.
proof fn lemma_replaced_shift(pre: Seq<char>, y: Seq<char>, pat: Seq<char>, to: Seq<char>, k: int)
    requires
        pat.len() > 0,
        0 <= k <= y.len(),
    ensures
        replaced_from(pre + y, pat, to, pre.len() + k) == replaced_from(y, pat, to, k),
    decreases y.len() - k,
{
    let s = pre + y;
    let i = pre.len() + k;
    if k < y.len() {
        if match_at(s, i, pat) != match_at(y, k, pat) {
            if i + pat.len() <= s.len() {
                assert(s.subrange(i, i + pat.len()) =~= y.subrange(k, k + pat.len()));
            }
        }
        assert(s[i] == y[k]);
        if match_at(y, k, pat) {
            if k + pat.len() <= y.len() {
                lemma_replaced_shift(pre, y, pat, to, k + pat.len());
            }
        } else {
            lemma_replaced_shift(pre, y, pat, to, k + 1);
        }
    }
}

/// Replacing in `x + y` where `x` is one character or a match of the
/// pattern at its start.
proof fn lemma_replaced_front(x: Seq<char>, y: Seq<char>, pat: Seq<char>, to: Seq<char>)
    requires
        pat.len() > 0,
        x == pat || (x.len() == 1 && !match_at(x + y, 0, pat)),
    ensures
        replaced(x + y, pat, to) == (if x == pat { to } else { x }) + replaced(y, pat, to),
{
    let s = x + y;
    if x == pat {
        assert(s.subrange(0, pat.len() as int) =~= pat);
        if pat.len() >= s.len() {
            assert(y.len() == 0);
        }
        lemma_replaced_shift(x, y, pat, to, 0);
        if s.len() == pat.len() {
            assert(replaced_from(s, pat, to, pat.len() as int) == Seq::<char>::empty());
            assert(replaced_from(y, pat, to, 0) == Seq::<char>::empty());
        }
        assert(to + replaced_from(y, pat, to, 0) == to + replaced(y, pat, to));
    } else {
        lemma_replaced_shift(x, y, pat, to, 0);
        assert(s[0] == x[0]);
        assert(seq![s[0]] =~= x);
    }
}

/// Escaping the quotes of a text with no backslash, then undoing `\"`,
/// gives the text back.
proof fn lemma_quotes_undone(s: Seq<char>)
    requires
        forall|i: int| 0 <= i < s.len() ==> s[i] != '\\',
    ensures
        replaced(replaced(s, seq!['"'], seq!['\\', '"']), seq!['\\', '"'], seq!['"']) == s,
    decreases s.len(),
{
    let qq = seq!['\\', '"'];
    if s.len() == 0 {
        assert(replaced(s, seq!['"'], qq) == Seq::<char>::empty());
        assert(replaced(Seq::<char>::empty(), qq, seq!['"']) == Seq::<char>::empty());
    } else {
        let c = s[0];
        let rest = s.drop_first();
        assert(s =~= seq![c] + rest);
        assert forall|i: int| 0 <= i < rest.len() implies rest[i] != '\\' by {
            assert(rest[i] == s[i + 1]);
        }
        lemma_quotes_undone(rest);
        let er = replaced(rest, seq!['"'], qq);
        if c == '"' {
            assert(seq![c] =~= seq!['"']);
            lemma_replaced_front(seq![c], rest, seq!['"'], qq);
            assert(replaced(s, seq!['"'], qq) == qq + er);
            lemma_replaced_front(qq, er, qq, seq!['"']);
        } else {
            if match_at(seq![c] + rest, 0, seq!['"']) {
                assert((seq![c] + rest).subrange(0, 1)[0] == c);
            }
            lemma_replaced_front(seq![c], rest, seq!['"'], qq);
            assert(replaced(s, seq!['"'], qq) == seq![c] + er);
            if match_at(seq![c] + er, 0, qq) {
                assert((seq![c] + er).subrange(0, 2)[0] == c);
            }
            lemma_replaced_front(seq![c], er, qq, seq!['"']);
        }
    }
}

/// A text with no backslash, written as a JSON string (its quotes escaped)
/// and read back as a string literal, is the same text.
pub proof fn law_string_escape_round_trip(s: Seq<char>)
    requires
        forall|i: int| 0 <= i < s.len() ==> s[i] != '\\',
    ensures
        string_literal(seq!['"'] + escaped(s) + seq!['"']) == Some(s),
{
    lemma_replaced_absent(s, seq!['\\'], seq!['\\', '\\'], 0);
    assert(s.subrange(0, s.len() as int) =~= s);
    assert(escaped(s) == replaced(s, seq!['"'], seq!['\\', '"']));
    let e = escaped(s);
    let t = seq!['"'] + e + seq!['"'];
    lemma_trimmed_same(t);
    assert(t.subrange(1, t.len() - 1) =~= e);
    lemma_quotes_undone(s);
    lemma_no_backslash_pattern(s, seq!['\\', 'n']);
    lemma_no_backslash_pattern(s, seq!['\\', 't']);
    lemma_no_backslash_pattern(s, seq!['\\', '\\']);
    lemma_replaced_never(s, seq!['\\', 'n'], seq!['\n']);
    lemma_replaced_never(s, seq!['\\', 't'], seq!['\t']);
    lemma_replaced_never(s, seq!['\\', '\\'], seq!['\\']);
}
} // verus!

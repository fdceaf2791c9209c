//! UUID natives. A UUID is held as its 16 bytes; parsing and random
//! generation are the `uuid` crate's, and the text forms are written here:
//! lower-case hexadecimal, hyphenated after bytes 4, 6, 8 and 10.

use vstd::prelude::*;
use crate::value::{Value, PulseError, PulseResult, text};
use crate::object::Object;
use crate::heap::Heap;
use crate::namemap::NameMap;
use crate::vm::heap_string;
use crate::text::push_str;
use crate::utils::{ready, added, new_string, list_of};
use crate::crypto::{hex_text, hex_string};

verus! {

broadcast use {vstd::std_specs::vec::group_vec_axioms, vstd::string::group_string_axioms};

/// The 16 bytes `uuid::Uuid::parse_str` reads from a text, if it accepts
/// it.
pub uninterp spec fn uuid_parsed(t: Seq<char>) -> Option<Seq<u8>>;

/// `uuid::Uuid::parse_str`, the result as its bytes (`Uuid::into_bytes`).
/// Claimed: the result is `uuid_parsed(t)`, and 16 bytes long when there
/// is one.
#[verifier::external_body]
fn parse_uuid(t: &str) -> (r: Option<Vec<u8>>)
    ensures
        match r {
            Some(b) => uuid_parsed(t@) == Some(b@) && b@.len() == 16,
            None => uuid_parsed(t@) is None,
        },
{
    match ::uuid::Uuid::parse_str(t) {
        Ok(u) => Some(Vec::from(u.into_bytes())),
        Err(_) => None,
    }
}

/// `uuid::Uuid::new_v4`, as its bytes: 16 random bytes, except that the
/// version number (the high half of byte 6) is 4 and the variant (the top
/// bits of byte 8) is `10`, RFC 4122's. Which bytes come is not claimed.
#[verifier::external_body]
fn random_uuid() -> (b: Vec<u8>)
    ensures
        b@.len() == 16,
        b@[6] / 16 == 4,
        b@[8] / 64 == 2,
{
    Vec::from(::uuid::Uuid::new_v4().into_bytes())
}

/// The hyphenated text of a UUID: 8, 4, 4, 4 and 12 hexadecimal digits.
pub open spec fn uuid_text(b: Seq<u8>) -> Seq<char> {
    hex_text(b.subrange(0, 4)) + seq!['-'] + hex_text(b.subrange(4, 6)) + seq!['-']
        + hex_text(b.subrange(6, 8)) + seq!['-'] + hex_text(b.subrange(8, 10)) + seq!['-']
        + hex_text(b.subrange(10, 16))
}

/// The bytes of a UUID as hexadecimal pairs joined by colons.
pub open spec fn colon_hex(b: Seq<u8>) -> Seq<char>
    decreases b.len(),
{
    if b.len() == 0 {
        Seq::empty()
    } else if b.len() == 1 {
        hex_text(b)
    } else {
        colon_hex(b.drop_last()) + seq![':'] + hex_text(seq![b.last()])
    }
}

/// The name of a UUID's variant, read from byte 8 as `Uuid::get_variant`
/// reads it.
pub open spec fn variant_name(b8: u8) -> Seq<char> {
    if b8 < 0x80 { "NCS"@ } else if b8 < 0xc0 { "RFC4122"@ } else if b8 < 0xe0 { "Microsoft"@ } else { "Future"@ }
}

/// The version number `uuid_parse` reports: 3, 4 or 5 (MD5, random,
/// SHA-1) from the high half of byte 6, otherwise 0.
pub open spec fn version_number(b6: u8) -> i64 {
    let v = b6 / 16;
    if v == 3 || v == 4 || v == 5 { v as i64 } else { 0 }
}

fn hex_range(b: &[u8], from: usize, to: usize) -> (r: String)
    requires
        from <= to <= b@.len(),
    ensures
        r@ == hex_text(b@.subrange(from as int, to as int)),
{
    let mut part: Vec<u8> = Vec::new();
    let mut i = from;
    while i < to
        invariant
            from <= i <= to <= b@.len(),
            part@ == b@.subrange(from as int, i as int),
        decreases to - i,
    {
        part.push(b[i]);
        i = i + 1;
        assert(part@ =~= b@.subrange(from as int, i as int));
    }
    hex_string(part.as_slice())
}

/// The hyphenated text of the 16 bytes.
pub fn hyphenated(b: &[u8]) -> (r: String)
    requires
        b@.len() == 16,
    ensures
        r@ == uuid_text(b@),
{
    proof { reveal_strlit("-"); }
    let mut s = hex_range(b, 0, 4);
    push_str(&mut s, "-");
    push_str(&mut s, hex_range(b, 4, 6).as_str());
    push_str(&mut s, "-");
    push_str(&mut s, hex_range(b, 6, 8).as_str());
    push_str(&mut s, "-");
    push_str(&mut s, hex_range(b, 8, 10).as_str());
    push_str(&mut s, "-");
    push_str(&mut s, hex_range(b, 10, 16).as_str());
    s
}

fn colon_string(b: &[u8]) -> (r: String)
    ensures
        r@ == colon_hex(b@),
{
    proof { reveal_strlit(":"); }
    let mut s = String::new();
    let mut i: usize = 0;
    while i < b.len()
        invariant
            i <= b@.len(),
            s@ == colon_hex(b@.take(i as int)),
        decreases b@.len() - i,
    {
        let ghost p = b@.take(i + 1);
        assert(p.drop_last() =~= b@.take(i as int));
        let pair = hex_range(b, i, i + 1);
        assert(b@.subrange(i as int, i + 1) =~= seq![p.last()]);
        if i == 0 {
            assert(p =~= seq![p.last()]);
            s = pair;
        } else {
            let ghost s0 = s@;
            proof { reveal_strlit(":"); }
            push_str(&mut s, ":");
            push_str(&mut s, pair.as_str());
            assert(s@ =~= s0 + seq![':'] + hex_text(seq![p.last()]));
            assert(colon_hex(p) == colon_hex(p.drop_last()) + seq![':'] + hex_text(seq![p.last()]));
        }
        i = i + 1;
    }
    assert(b@.take(i as int) =~= b@);
    s
}

/// The string argument, or a type mismatch.
fn string_param(heap: &Heap, v: Value) -> (r: PulseResult<String>)
    requires
        heap.wf(),
    ensures
        match string_in(*heap, v) {
            Some(t) => r matches Ok(s) && s@ == t,
            None => crate::value::is_type_mismatch(r),
        },
{
    match v {
        Value::Obj(x) => match heap.get(x) {
            Some(Object::String(s)) => Ok(s.clone()),
            _ => Err(PulseError::TypeMismatch { expected: text("string"), got: text("object") }),
        },
        _ => Err(PulseError::TypeMismatch { expected: text("string"), got: v.kind_name() }),
    }
}

/// The string an argument holds.
pub open spec fn string_in(h: Heap, v: Value) -> Option<Seq<char>> {
    if v is Obj { heap_string(h, v->Obj_0) } else { None }
}

/// `uuid_generate()`: a new string holding a new random version 4 UUID.
pub fn uuid_generate_native(heap: &mut Heap, args: &[Value]) -> (r: PulseResult<Value>)
    requires
        ready(*old(heap)),
    ensures
        ready(*final(heap)),
        args@.len() != 0 ==> crate::value::is_runtime_error(r) && *final(heap) == *old(heap),
        args@.len() == 0 ==> exists|b: Seq<u8>| b.len() == 16 && b[6] / 16 == 4 && b[8] / 64 == 2
            && #[trigger] new_string(*old(heap), *final(heap), r, uuid_text(b)),
{
    if args.len() != 0 {
        return Err(PulseError::RuntimeError(text("uuid_generate takes no arguments")));
    }
    let b = random_uuid();
    let s = hyphenated(b.as_slice());
    let x = heap.allocate(Object::String(s));
    assert(new_string(*old(heap), *heap, Ok::<Value, PulseError>(Value::Obj(x)), uuid_text(b@)));
    Ok(Value::Obj(x))
}

/// `uuid_v4()`: the same as `uuid_generate()`.
pub fn uuid_v4_native(heap: &mut Heap, args: &[Value]) -> (r: PulseResult<Value>)
    requires
        ready(*old(heap)),
    ensures
        ready(*final(heap)),
        args@.len() != 0 ==> crate::value::is_runtime_error(r) && *final(heap) == *old(heap),
        args@.len() == 0 ==> exists|b: Seq<u8>| b.len() == 16 && b[6] / 16 == 4 && b[8] / 64 == 2
            && #[trigger] new_string(*old(heap), *final(heap), r, uuid_text(b)),
{
    uuid_generate_native(heap, args)
}

/// `v` is a new string holding `t`.
pub open spec fn fresh_string(h0: Heap, h1: Heap, v: Value, t: Seq<char>) -> bool {
    &&& v matches Value::Obj(x)
    &&& !h0.live().dom().contains(x.0 as int)
    &&& heap_string(h1, x) == Some(t)
}

/// The map `uuid_parse` gives for the bytes `b`: the variant's name, the
/// version number, the bytes in colon-separated hexadecimal, the simple
/// (unhyphenated) text and the URN, the texts in new strings.
pub open spec fn parse_map(h0: Heap, h1: Heap, m: Map<Seq<char>, Value>, b: Seq<u8>) -> bool {
    &&& m.dom() == set!["variant"@, "version"@, "bytes"@, "simple"@, "urn"@]
    &&& fresh_string(h0, h1, m["variant"@], variant_name(b[8]))
    &&& m["version"@] == Value::Int(version_number(b[6]))
    &&& fresh_string(h0, h1, m["bytes"@], colon_hex(b))
    &&& fresh_string(h0, h1, m["simple"@], hex_text(b))
    &&& fresh_string(h0, h1, m["urn"@], "urn:uuid:"@ + uuid_text(b))
}

/// Allocates a new string; the heap only grows.
pub(crate) fn new_text(heap: &mut Heap, s: String) -> (v: Value)
    requires
        ready(*old(heap)),
    ensures
        ready(*final(heap)),
        old(heap).live().submap_of(final(heap).live()),
        fresh_string(*old(heap), *final(heap), v, s@),
{
    let x = heap.allocate(Object::String(s));
    Value::Obj(x)
}

/// `uuid_parse(s)`: a new map of the parts of the UUID in `s` (see
/// `parse_map`); a runtime error when `uuid_parsed` accepts no UUID there.
pub fn uuid_parse_native(heap: &mut Heap, args: &[Value]) -> (r: PulseResult<Value>)
    requires
        ready(*old(heap)),
    ensures
        ready(*final(heap)),
        r is Err ==> *final(heap) == *old(heap),
        args@.len() != 1 ==> crate::value::is_runtime_error(r),
        args@.len() == 1 ==> match string_in(*old(heap), args@[0]) {
            Some(t) => match uuid_parsed(t) {
                Some(b) => {
                    &&& r matches Ok(Value::Obj(x))
                    &&& old(heap).live().submap_of(final(heap).live().remove(x.0 as int))
                    &&& !old(heap).live().dom().contains(x.0 as int)
                    &&& final(heap).live().dom().contains(x.0 as int)
                    &&& final(heap).live()[x.0 as int] matches Object::Dict(m) && parse_map(*old(heap), *final(heap), m@, b)
                },
                None => crate::value::is_runtime_error(r),
            },
            None => crate::value::is_type_mismatch(r),
        },
{
    if args.len() != 1 {
        return Err(PulseError::RuntimeError(text("uuid_parse expects 1 argument")));
    }
    let s = string_param(heap, args[0])?;
    let b = match parse_uuid(s.as_str()) {
        Some(b) => b,
        None => {
            return Err(PulseError::RuntimeError(text("Invalid UUID")));
        },
    };
    let ghost h0 = *heap;
    proof {
        reveal_strlit("NCS");
        reveal_strlit("RFC4122");
        reveal_strlit("Microsoft");
        reveal_strlit("Future");
        reveal_strlit("urn:uuid:");
        reveal_strlit("variant");
        reveal_strlit("version");
        reveal_strlit("bytes");
        reveal_strlit("simple");
        reveal_strlit("urn");
    }
    let variant = if b[8] < 0x80 { text("NCS") } else if b[8] < 0xc0 { text("RFC4122") }
        else if b[8] < 0xe0 { text("Microsoft") } else { text("Future") };
    let vn = b[6] / 16;
    let version: i64 = if vn == 3 || vn == 4 || vn == 5 { vn as i64 } else { 0 };
    let ghost h1 = *heap;
    let v_variant = new_text(heap, variant);
    let ghost h2 = *heap;
    let v_bytes = new_text(heap, colon_string(b.as_slice()));
    let ghost h3 = *heap;
    let v_simple = new_text(heap, hex_string(b.as_slice()));
    let ghost h4 = *heap;
    let mut urn = text("urn:uuid:");
    push_str(&mut urn, hyphenated(b.as_slice()).as_str());
    let v_urn = new_text(heap, urn);
    let ghost h5 = *heap;
    let mut m: NameMap<Value> = NameMap::new();
    m.insert(text("variant"), v_variant);
    m.insert(text("version"), Value::Int(version));
    m.insert(text("bytes"), v_bytes);
    m.insert(text("simple"), v_simple);
    m.insert(text("urn"), v_urn);
    let x = heap.allocate(Object::Dict(m));
    proof {
        vstd::map_lib::lemma_submap_of_trans(h0.live(), h2.live(), h3.live());
        vstd::map_lib::lemma_submap_of_trans(h0.live(), h3.live(), h4.live());
        vstd::map_lib::lemma_submap_of_trans(h0.live(), h4.live(), h5.live());
        assert(m@.dom() =~= set!["variant"@, "version"@, "bytes"@, "simple"@, "urn"@]);
        assert("variant"@.len() == 7 && "version"@.len() == 7 && "bytes"@.len() == 5
            && "simple"@.len() == 6 && "urn"@.len() == 3);
        assert("variant"@[1] != "version"@[1]);
        assert("variant"@ != "version"@);
        assert(m@["variant"@] == v_variant);
        assert(m@["version"@] == Value::Int(version));
        assert(m@["bytes"@] == v_bytes);
        assert(m@["simple"@] == v_simple);
        assert(m@["urn"@] == v_urn);
        assert(h5.live().submap_of(heap.live()));
        vstd::map_lib::lemma_submap_of_trans(h2.live(), h3.live(), h4.live());
        vstd::map_lib::lemma_submap_of_trans(h2.live(), h4.live(), h5.live());
        vstd::map_lib::lemma_submap_of_trans(h2.live(), h5.live(), heap.live());
        vstd::map_lib::lemma_submap_of_trans(h3.live(), h4.live(), h5.live());
        vstd::map_lib::lemma_submap_of_trans(h3.live(), h5.live(), heap.live());
        vstd::map_lib::lemma_submap_of_trans(h4.live(), h5.live(), heap.live());
        assert(heap_string(*heap, v_variant->Obj_0) == heap_string(h2, v_variant->Obj_0));
        assert(heap_string(*heap, v_bytes->Obj_0) == heap_string(h3, v_bytes->Obj_0));
        assert(heap_string(*heap, v_simple->Obj_0) == heap_string(h4, v_simple->Obj_0));
        assert(heap_string(*heap, v_urn->Obj_0) == heap_string(h5, v_urn->Obj_0));
        assert(h5.live().submap_of(heap.live()));
        assert(heap.live().remove(x.0 as int) =~= h5.live());
        if h0.live().dom().contains(x.0 as int) {
            assert(h5.live().dom().contains(x.0 as int));
        }
    }
    Ok(Value::Obj(x))
}

/// `uuid_to_string(s)`: a new string holding the canonical form of the
/// UUID `s` reads as, lower-case and hyphenated; a runtime error when `s`
/// reads as no UUID.
pub fn uuid_to_string_native(heap: &mut Heap, args: &[Value]) -> (r: PulseResult<Value>)
    requires
        ready(*old(heap)),
    ensures
        ready(*final(heap)),
        args@.len() != 1 ==> crate::value::is_runtime_error(r) && *final(heap) == *old(heap),
        args@.len() == 1 ==> match string_in(*old(heap), args@[0]) {
            Some(t) => match uuid_parsed(t) {
                Some(b) => new_string(*old(heap), *final(heap), r, uuid_text(b)),
                None => crate::value::is_runtime_error(r) && *final(heap) == *old(heap),
            },
            None => crate::value::is_type_mismatch(r) && *final(heap) == *old(heap),
        },
{
    if args.len() != 1 {
        return Err(PulseError::RuntimeError(text("uuid_to_string expects 1 argument")));
    }
    let s = string_param(heap, args[0])?;
    let bytes = match parse_uuid(s.as_str()) {
        Some(b) => b,
        None => {
            return Err(PulseError::RuntimeError(text("Invalid UUID")));
        },
    };
    let t = hyphenated(bytes.as_slice());
    let x = heap.allocate(Object::String(t));
    Ok(Value::Obj(x))
}

/// `uuid_is_valid(s)`: whether `s` reads as a UUID.
pub fn uuid_is_valid_native(heap: &mut Heap, args: &[Value]) -> (r: PulseResult<Value>)
    requires
        ready(*old(heap)),
    ensures
        *final(heap) == *old(heap),
        args@.len() != 1 ==> crate::value::is_runtime_error(r),
        args@.len() == 1 ==> match string_in(*old(heap), args@[0]) {
            Some(t) => r == Ok::<Value, PulseError>(Value::Bool(uuid_parsed(t) is Some)),
            None => crate::value::is_type_mismatch(r),
        },
{
    if args.len() != 1 {
        return Err(PulseError::RuntimeError(text("uuid_is_valid expects 1 argument")));
    }
    let s = string_param(heap, args[0])?;
    Ok(Value::Bool(parse_uuid(s.as_str()).is_some()))
}

/// The namespace UUIDs of RFC 4122 (`Uuid::NAMESPACE_DNS`, `_URL`, `_OID`,
/// `_X500`) differ in byte 3 only: 0x10, 0x11, 0x12, 0x14.
pub open spec fn namespace_bytes(b3: u8) -> Seq<u8> {
    seq![0x6bu8, 0xa7, 0xb8, b3, 0x9d, 0xad, 0x11, 0xd1, 0x80, 0xb4, 0x00, 0xc0, 0x4f, 0xd4, 0x30, 0xc8]
}

fn fixed_uuid(heap: &mut Heap, args: &[Value], bytes: Vec<u8>) -> (r: PulseResult<Value>)
    requires
        ready(*old(heap)),
        bytes@.len() == 16,
    ensures
        ready(*final(heap)),
        args@.len() != 0 ==> crate::value::is_runtime_error(r) && *final(heap) == *old(heap),
        args@.len() == 0 ==> new_string(*old(heap), *final(heap), r, uuid_text(bytes@)),
{
    if args.len() != 0 {
        return Err(PulseError::RuntimeError(text("this UUID function takes no arguments")));
    }
    let s = hyphenated(bytes.as_slice());
    let x = heap.allocate(Object::String(s));
    Ok(Value::Obj(x))
}

/// `uuid_nil()`: a new string holding the nil UUID, all zeros.
pub fn uuid_nil_native(heap: &mut Heap, args: &[Value]) -> (r: PulseResult<Value>)
    requires
        ready(*old(heap)),
    ensures
        ready(*final(heap)),
        args@.len() != 0 ==> crate::value::is_runtime_error(r) && *final(heap) == *old(heap),
        args@.len() == 0 ==> new_string(*old(heap), *final(heap), r, uuid_text(Seq::new(16, |i: int| 0u8))),
{
    let b: Vec<u8> = vec![0u8, 0, 0, 0, 0, 0, 0, 0, 0, 0, 0, 0, 0, 0, 0, 0];
    assert(b@ =~= Seq::new(16, |i: int| 0u8));
    fixed_uuid(heap, args, b)
}

/// `uuid_namespace_nsdns()`: a new string holding the DNS namespace UUID.
pub fn uuid_namespace_ns_dns_native(heap: &mut Heap, args: &[Value]) -> (r: PulseResult<Value>)
    requires
        ready(*old(heap)),
    ensures
        ready(*final(heap)),
        args@.len() != 0 ==> crate::value::is_runtime_error(r) && *final(heap) == *old(heap),
        args@.len() == 0 ==> new_string(*old(heap), *final(heap), r, uuid_text(namespace_bytes(0x10))),
{
    let b: Vec<u8> = vec![0x6bu8, 0xa7, 0xb8, 0x10, 0x9d, 0xad, 0x11, 0xd1, 0x80, 0xb4, 0x00, 0xc0, 0x4f, 0xd4, 0x30, 0xc8];
    assert(b@ =~= namespace_bytes(0x10));
    fixed_uuid(heap, args, b)
}

/// `uuid_namespace_nsurl()`: a new string holding the URL namespace UUID.
pub fn uuid_namespace_ns_url_native(heap: &mut Heap, args: &[Value]) -> (r: PulseResult<Value>)
    requires
        ready(*old(heap)),
    ensures
        ready(*final(heap)),
        args@.len() != 0 ==> crate::value::is_runtime_error(r) && *final(heap) == *old(heap),
        args@.len() == 0 ==> new_string(*old(heap), *final(heap), r, uuid_text(namespace_bytes(0x11))),
{
    let b: Vec<u8> = vec![0x6bu8, 0xa7, 0xb8, 0x11, 0x9d, 0xad, 0x11, 0xd1, 0x80, 0xb4, 0x00, 0xc0, 0x4f, 0xd4, 0x30, 0xc8];
    assert(b@ =~= namespace_bytes(0x11));
    fixed_uuid(heap, args, b)
}

/// `uuid_namespace_nsoid()`: a new string holding the OID namespace UUID.
pub fn uuid_namespace_ns_oid_native(heap: &mut Heap, args: &[Value]) -> (r: PulseResult<Value>)
    requires
        ready(*old(heap)),
    ensures
        ready(*final(heap)),
        args@.len() != 0 ==> crate::value::is_runtime_error(r) && *final(heap) == *old(heap),
        args@.len() == 0 ==> new_string(*old(heap), *final(heap), r, uuid_text(namespace_bytes(0x12))),
{
    let b: Vec<u8> = vec![0x6bu8, 0xa7, 0xb8, 0x12, 0x9d, 0xad, 0x11, 0xd1, 0x80, 0xb4, 0x00, 0xc0, 0x4f, 0xd4, 0x30, 0xc8];
    assert(b@ =~= namespace_bytes(0x12));
    fixed_uuid(heap, args, b)
}

/// `uuid_namespace_x500()`: a new string holding the X.500 namespace UUID.
pub fn uuid_namespace_x500_native(heap: &mut Heap, args: &[Value]) -> (r: PulseResult<Value>)
    requires
        ready(*old(heap)),
    ensures
        ready(*final(heap)),
        args@.len() != 0 ==> crate::value::is_runtime_error(r) && *final(heap) == *old(heap),
        args@.len() == 0 ==> new_string(*old(heap), *final(heap), r, uuid_text(namespace_bytes(0x14))),
{
    let b: Vec<u8> = vec![0x6bu8, 0xa7, 0xb8, 0x14, 0x9d, 0xad, 0x11, 0xd1, 0x80, 0xb4, 0x00, 0xc0, 0x4f, 0xd4, 0x30, 0xc8];
    assert(b@ =~= namespace_bytes(0x14));
    fixed_uuid(heap, args, b)
}

/// The bytes of a list of integers, each cut to its low 8 bits; none when
/// an item is not an integer.
pub open spec fn int_bytes(l: Seq<Value>) -> Option<Seq<u8>> {
    if forall|i: int| 0 <= i < l.len() ==> (#[trigger] l[i]) is Int {
        Some(Seq::new(l.len(), |i: int| l[i]->Int_0 as u8))
    } else {
        None
    }
}

/// Each integer cut to its low 8 bits; none when an item is not an
/// integer.
fn bytes_of(items: &Vec<Value>) -> (r: Option<Vec<u8>>)
    ensures
        match r {
            Some(b) => int_bytes(items@) == Some(b@),
            None => int_bytes(items@) is None,
        },
{
    let mut b: Vec<u8> = Vec::new();
    let mut i: usize = 0;
    while i < items.len()
        invariant
            i <= items@.len(),
            b@.len() == i,
            forall|k: int| 0 <= k < i ==> (#[trigger] items@[k]) is Int && b@[k] == #[verifier::truncate] (items@[k]->Int_0 as u8),
        decreases items@.len() - i,
    {
        match items[i] {
            Value::Int(n) => b.push(#[verifier::truncate] (n as u8)),
            _ => {
                assert(!(items@[i as int] is Int));
                return None;
            },
        }
        i = i + 1;
    }
    assert(b@ =~= int_bytes(items@)->Some_0);
    Some(b)
}

/// `uuid_from_bytes(list)`: a new string holding the UUID of the 16
/// integers in the list, each cut to a byte.
pub fn uuid_from_bytes_native(heap: &mut Heap, args: &[Value]) -> (r: PulseResult<Value>)
    requires
        ready(*old(heap)),
    ensures
        ready(*final(heap)),
        args@.len() != 1 ==> crate::value::is_runtime_error(r) && *final(heap) == *old(heap),
        args@.len() == 1 ==> match list_of(*old(heap), args@[0]) {
            Some(l) => if l.len() != 16 {
                crate::value::is_runtime_error(r) && *final(heap) == *old(heap)
            } else {
                match int_bytes(l) {
                    Some(b) => new_string(*old(heap), *final(heap), r, uuid_text(b)),
                    None => crate::value::is_runtime_error(r) && *final(heap) == *old(heap),
                }
            },
            None => crate::value::is_type_mismatch(r) && *final(heap) == *old(heap),
        },
{
    if args.len() != 1 {
        return Err(PulseError::RuntimeError(text("uuid_from_bytes expects 1 argument")));
    }
    let items = match args[0] {
        Value::Obj(x) => match heap.get(x) {
            Some(Object::List(l)) => crate::object::vec_copy(l),
            _ => {
                return Err(PulseError::TypeMismatch { expected: text("list"), got: text("object") });
            },
        },
        _ => {
            return Err(PulseError::TypeMismatch { expected: text("list"), got: args[0].kind_name() });
        },
    };
    if items.len() != 16 {
        return Err(PulseError::RuntimeError(text("UUID requires exactly 16 bytes")));
    }
    let b = match bytes_of(&items) {
        Some(b) => b,
        None => {
            return Err(PulseError::RuntimeError(text("Expected integer byte values")));
        },
    };
    let s = hyphenated(b.as_slice());
    let x = heap.allocate(Object::String(s));
    Ok(Value::Obj(x))
}


/// The variant a UUID reports from byte 8, as RFC 4122 lays it out: a
/// leading 0 bit is NCS, 10 is RFC4122, 110 is Microsoft, 111 is Future.
pub proof fn law_variant_names(b8: u8)
    ensures
        b8 / 128 == 0 ==> variant_name(b8) == "NCS"@,
        b8 / 64 == 2 ==> variant_name(b8) == "RFC4122"@,
        b8 / 32 == 6 ==> variant_name(b8) == "Microsoft"@,
        b8 / 32 == 7 ==> variant_name(b8) == "Future"@,
{
}
} // verus!

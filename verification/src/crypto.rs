//! Cryptographic natives: SHA-256 digests rendered as hexadecimal text.

use vstd::prelude::*;
use crate::value::{Value, PulseError, PulseResult, text};
use crate::object::Object;
use crate::heap::Heap;
use crate::text::push_char;
use crate::utils::{ready, new_string};
use crate::string_utils::{str_arg, utf8};

verus! {

broadcast use {vstd::std_specs::vec::group_vec_axioms, vstd::string::group_string_axioms};

/// Inputs of this many bytes or more are too long for SHA-256: their length
/// in bits does not fit in 64 bits.
pub const SHA256_INPUT_LIMIT: u64 = 0x2000_0000_0000_0000;

/// The SHA-256 digest of a byte string, as `ring::digest` computes it.
pub uninterp spec fn sha256_digest(bytes: Seq<u8>) -> Seq<u8>;

/// `ring::digest::Context` with `SHA256`: `new`, `update` with `data`,
/// `finish`. Claimed: the result is `sha256_digest(data)`, 32 bytes long
/// (ring's `SHA256_OUTPUT_LEN`). `finish` panics on inputs of
/// `SHA256_INPUT_LIMIT` bytes or more, which `requires` leaves out.
#[verifier::external_body]
fn sha256_bytes(data: &[u8]) -> (r: Vec<u8>)
    requires
        data@.len() < SHA256_INPUT_LIMIT,
    ensures
        r@ == sha256_digest(data@),
        r@.len() == 32,
{
    let mut context = ring::digest::Context::new(&ring::digest::SHA256);
    context.update(data);
    let digest = context.finish();
    Vec::from(digest.as_ref())
}

/// The lower-case hexadecimal digit for `d < 16`.
pub open spec fn hex_digit(d: int) -> char {
    if d == 0 { '0' } else if d == 1 { '1' } else if d == 2 { '2' } else if d == 3 { '3' }
    else if d == 4 { '4' } else if d == 5 { '5' } else if d == 6 { '6' } else if d == 7 { '7' }
    else if d == 8 { '8' } else if d == 9 { '9' } else if d == 10 { 'a' } else if d == 11 { 'b' }
    else if d == 12 { 'c' } else if d == 13 { 'd' } else if d == 14 { 'e' } else { 'f' }
}

/// Each byte as two lower-case hexadecimal digits, high digit first.
pub open spec fn hex_text(bytes: Seq<u8>) -> Seq<char>
    decreases bytes.len(),
{
    if bytes.len() == 0 {
        Seq::empty()
    } else {
        let b = bytes.last() as int;
        hex_text(bytes.drop_last()) + seq![hex_digit(b / 16), hex_digit(b % 16)]
    }
}

pub(crate) fn hex_char(d: u8) -> (c: char)
    requires
        d < 16,
    ensures
        c == hex_digit(d as int),
{
    if d == 0 { '0' } else if d == 1 { '1' } else if d == 2 { '2' } else if d == 3 { '3' }
    else if d == 4 { '4' } else if d == 5 { '5' } else if d == 6 { '6' } else if d == 7 { '7' }
    else if d == 8 { '8' } else if d == 9 { '9' } else if d == 10 { 'a' } else if d == 11 { 'b' }
    else if d == 12 { 'c' } else if d == 13 { 'd' } else if d == 14 { 'e' } else { 'f' }
}

/// The bytes in hexadecimal, two lower-case digits each.
pub fn hex_string(bytes: &[u8]) -> (r: String)
    ensures
        r@ == hex_text(bytes@),
{
    let mut r = String::new();
    let mut i: usize = 0;
    while i < bytes.len()
        invariant
            i <= bytes@.len(),
            r@ == hex_text(bytes@.take(i as int)),
        decreases bytes@.len() - i,
    {
        let b = bytes[i];
        push_char(&mut r, hex_char(b / 16));
        push_char(&mut r, hex_char(b % 16));
        proof {
            let t = bytes@.take(i + 1);
            assert(t.drop_last() =~= bytes@.take(i as int));
            assert(t.last() == b);
        }
        i = i + 1;
        assert(r@ =~= hex_text(bytes@.take(i as int)));
    }
    assert(bytes@.take(i as int) =~= bytes@);
    r
}

/// `sha256(s)`: a new string holding the SHA-256 digest of the UTF-8 bytes
/// of `s`, in lower-case hexadecimal.
pub fn sha256_native(heap: &mut Heap, args: &[Value]) -> (r: PulseResult<Value>)
    requires
        ready(*old(heap)),
        args@.len() >= 1 ==> match str_arg(*old(heap), args@[0]) {
            Some(s) => utf8(s).len() < SHA256_INPUT_LIMIT,
            None => true,
        },
    ensures
        ready(*final(heap)),
        args@.len() == 0 ==> crate::value::is_runtime_error(r) && *final(heap) == *old(heap),
        args@.len() >= 1 ==> match str_arg(*old(heap), args@[0]) {
            Some(s) => new_string(*old(heap), *final(heap), r, hex_text(sha256_digest(utf8(s)))),
            None => crate::value::is_runtime_error(r) && *final(heap) == *old(heap),
        },
{
    if args.len() == 0 {
        return Err(PulseError::RuntimeError(text("Expected data string for sha256")));
    }
    let data = match args[0] {
        Value::Obj(h) => match heap.get(h) {
            Some(Object::String(s)) => s.clone(),
            _ => return Err(PulseError::RuntimeError(text("Expected string data"))),
        },
        _ => return Err(PulseError::RuntimeError(text("Expected string data"))),
    };
    let digest = sha256_bytes(data.as_str().as_bytes());
    let hex = hex_string(digest.as_slice());
    let x = heap.allocate(Object::String(hex));
    Ok(Value::Obj(x))
}

} // verus!

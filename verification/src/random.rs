//! Random natives: integers, booleans, bytes, random text and random picks
//! from lists, drawn from a seedable generator that the caller owns. What
//! holds of every outcome is stated; which outcome comes is left to the
//! generator.

use vstd::prelude::*;
use rand::Rng;
use rand::SeedableRng;
use rand::seq::SliceRandom;
use rand::rngs::StdRng;
use crate::value::{Value, PulseError, PulseResult, text};
use crate::object::Object;
use crate::heap::Heap;
use crate::namemap::NameMap;
use crate::text::{push_char, chars_of};
use crate::utils::{ready, added, list_of};
use crate::crypto::hex_digit;

verus! {

broadcast use {vstd::std_specs::vec::group_vec_axioms, vstd::string::group_string_axioms,
    vstd::seq_lib::group_to_multiset_ensures};

#[verifier::external_type_specification]
#[verifier::external_body]
pub struct ExStdRng(rand::rngs::StdRng);

/// `Rng::gen::<i64>`: any `i64`; nothing is claimed of which.
#[verifier::external_body]
fn next_i64(rng: &mut StdRng) -> i64 {
    rng.gen::<i64>()
}

/// `Rng::gen::<bool>`: either boolean; nothing is claimed of which.
#[verifier::external_body]
fn next_bool(rng: &mut StdRng) -> bool {
    rng.gen::<bool>()
}

/// `Rng::gen::<u8>`: any byte; nothing is claimed of which.
#[verifier::external_body]
fn next_byte(rng: &mut StdRng) -> u8 {
    rng.gen::<u8>()
}

/// `Rng::gen_range(min..=max)`: an integer from `min` to `max`, both
/// included. It panics on an empty range, which `requires` leaves out.
#[verifier::external_body]
fn next_in(rng: &mut StdRng, min: i64, max: i64) -> (r: i64)
    requires
        min <= max,
    ensures
        min <= r <= max,
{
    rng.gen_range(min..=max)
}

/// `Rng::gen_range(0..n)`: an index below `n`. It panics on an empty range,
/// which `requires` leaves out.
#[verifier::external_body]
fn next_below(rng: &mut StdRng, n: usize) -> (r: usize)
    requires
        0 < n,
    ensures
        r < n,
{
    rng.gen_range(0..n)
}

/// `Rng::sample` of `distributions::Uniform::new(0, n)`: an index below `n`.
/// `Uniform::new` panics when `n` is 0, which `requires` leaves out.
#[verifier::external_body]
fn uniform_below(rng: &mut StdRng, n: usize) -> (r: usize)
    requires
        0 < n,
    ensures
        r < n,
{
    rng.sample(rand::distributions::Uniform::new(0, n))
}

/// `SliceRandom::choose`: `None` for an empty slice, otherwise one of its
/// items.
#[verifier::external_body]
fn choose_one(rng: &mut StdRng, items: &[Value]) -> (r: Option<Value>)
    ensures
        r is None <==> items@.len() == 0,
        r matches Some(v) ==> items@.contains(v),
{
    items.choose(rng).copied()
}

/// `SliceRandom::shuffle`: the same items, in some order.
#[verifier::external_body]
fn shuffle_in_place<T>(rng: &mut StdRng, items: &mut Vec<T>)
    ensures
        final(items)@.to_multiset() == old(items)@.to_multiset(),
{
    items.shuffle(rng);
}

/// `StdRng::seed_from_u64`: a generator seeded from `seed`.
#[verifier::external_body]
fn seeded(seed: u64) -> StdRng {
    StdRng::seed_from_u64(seed)
}

/// An integer parameter: an `Int` gives its value, a `Float` needs the host
/// (which truncates it), anything else is a runtime error.
fn int_param(v: Value, msg: &str) -> (r: PulseResult<i64>)
    ensures
        match v {
            Value::Int(i) => r == Ok::<i64, PulseError>(i),
            Value::Float(_) => r matches Err(PulseError::NeedsFloatHost),
            _ => crate::value::is_runtime_error(r),
        },
{
    match v {
        Value::Int(i) => Ok(i),
        Value::Float(_) => Err(PulseError::NeedsFloatHost),
        _ => Err(PulseError::RuntimeError(text(msg))),
    }
}

/// What `int_param` gives for `v`, as a result kind: `Some(i)` for an
/// integer, `None` otherwise.
pub open spec fn int_value(v: Value) -> Option<i64> {
    match v {
        Value::Int(i) => Some(i),
        _ => None,
    }
}

/// The error an integer parameter gives when it is not an `Int`: a float
/// goes to the host, anything else is a runtime error.
pub open spec fn param_error<T>(v: Value, r: PulseResult<T>) -> bool {
    if v is Float { r matches Err(PulseError::NeedsFloatHost) } else { crate::value::is_runtime_error(r) }
}

/// A count parameter as the host converts it: an integer cast to `usize`.
pub open spec fn count_of(i: i64) -> nat {
    (i as usize) as nat
}

/// `rand_int()`: any integer.
pub fn rand_int_native(rng: &mut StdRng, args: &[Value]) -> (r: PulseResult<Value>)
    ensures
        args@.len() != 0 <==> crate::value::is_runtime_error(r),
        args@.len() == 0 ==> r matches Ok(Value::Int(_)),
{
    if args.len() != 0 {
        return Err(PulseError::RuntimeError(text("rand_int expects 0 arguments")));
    }
    Ok(Value::Int(next_i64(rng)))
}

/// `rand_int_range(min, max)`: an integer from `min` to `max`, both
/// included; a runtime error when `min > max`.
pub fn rand_int_range_native(rng: &mut StdRng, args: &[Value]) -> (r: PulseResult<Value>)
    ensures
        args@.len() != 2 ==> crate::value::is_runtime_error(r),
        args@.len() == 2 ==> match (int_value(args@[0]), int_value(args@[1])) {
            (None, _) => param_error(args@[0], r),
            (Some(_), None) => param_error(args@[1], r),
            (Some(lo), Some(hi)) => if lo > hi {
                crate::value::is_runtime_error(r)
            } else {
                r matches Ok(Value::Int(k)) && lo <= k <= hi
            },
        },
{
    if args.len() != 2 {
        return Err(PulseError::RuntimeError(text("rand_int_range expects 2 arguments: min, max")));
    }
    let min = int_param(args[0], "Expected integer for min")?;
    let max = int_param(args[1], "Expected integer for max")?;
    if min > max {
        return Err(PulseError::RuntimeError(text("min must be less than or equal to max")));
    }
    Ok(Value::Int(next_in(rng, min, max)))
}

/// `random_int(min, max)`: an integer from `min` to `max`, both included,
/// from the thread's own generator; a runtime error when `min > max`.
pub fn random_int_native(args: &[Value]) -> (r: PulseResult<Value>)
    ensures
        args@.len() != 2 ==> crate::value::is_runtime_error(r),
        args@.len() == 2 ==> match (int_value(args@[0]), int_value(args@[1])) {
            (None, _) => crate::value::is_type_mismatch(r),
            (Some(_), None) => crate::value::is_type_mismatch(r),
            (Some(lo), Some(hi)) => if lo > hi {
                crate::value::is_runtime_error(r)
            } else {
                r matches Ok(Value::Int(k)) && lo <= k <= hi
            },
        },
{
    if args.len() != 2 {
        return Err(PulseError::RuntimeError(text("random_int expects 2 arguments")));
    }
    let min = args[0].as_int()?;
    let max = args[1].as_int()?;
    if min > max {
        return Err(PulseError::RuntimeError(text("random_int: min must be <= max")));
    }
    Ok(Value::Int(thread_next_in(min, max)))
}

/// `rand::thread_rng().gen_range(min..=max)`: an integer from `min` to
/// `max`, both included. It panics on an empty range, which `requires`
/// leaves out.
#[verifier::external_body]
fn thread_next_in(min: i64, max: i64) -> (r: i64)
    requires
        min <= max,
    ensures
        min <= r <= max,
{
    rand::thread_rng().gen_range(min..=max)
}

/// `rand_bool()`: either boolean.
pub fn rand_bool_native(rng: &mut StdRng, args: &[Value]) -> (r: PulseResult<Value>)
    ensures
        args@.len() != 0 <==> crate::value::is_runtime_error(r),
        args@.len() == 0 ==> r matches Ok(Value::Bool(_)),
{
    if args.len() != 0 {
        return Err(PulseError::RuntimeError(text("rand_bool expects 0 arguments")));
    }
    Ok(Value::Bool(next_bool(rng)))
}

/// `seed_rng(seed)`: replaces the generator by one seeded from the integer
/// (taken as `u64`); the generator is unchanged on an error.
pub fn seed_rng_native(rng: &mut StdRng, args: &[Value]) -> (r: PulseResult<Value>)
    ensures
        r is Err ==> *final(rng) == *old(rng),
        args@.len() != 1 ==> crate::value::is_runtime_error(r),
        args@.len() == 1 ==> match int_value(args@[0]) {
            Some(_) => r == Ok::<Value, PulseError>(Value::Unit),
            None => param_error(args@[0], r),
        },
{
    if args.len() != 1 {
        return Err(PulseError::RuntimeError(text("seed_rng expects 1 argument: seed")));
    }
    let seed = int_param(args[0], "Expected integer for seed")?;
    *rng = seeded(seed as u64);
    Ok(Value::Unit)
}

/// `rng_state()`: a new map `{"seeded": true}`; the arguments are ignored.
pub fn rng_state_native(heap: &mut Heap, args: &[Value]) -> (r: PulseResult<Value>)
    requires
        ready(*old(heap)),
    ensures
        ready(*final(heap)),
        r matches Ok(Value::Obj(x)) && added(*old(heap), *final(heap), x, final(heap).live()[x.0 as int]),
        r matches Ok(Value::Obj(x)) && final(heap).live()[x.0 as int] matches Object::Dict(m)
            && m@ == map![seq!['s', 'e', 'e', 'd', 'e', 'd'] => Value::Bool(true)],
{
    let mut m: NameMap<Value> = NameMap::new();
    let key = text("seeded");
    proof { reveal_strlit("seeded"); }
    assert(key@ =~= seq!['s', 'e', 'e', 'd', 'e', 'd']);
    m.insert(key, Value::Bool(true));
    let x = heap.allocate(Object::Dict(m));
    Ok(Value::Obj(x))
}

/// The list in the single argument, or the runtime error the random
/// natives give.
fn list_param(heap: &Heap, args: &[Value], n: usize, msg: &str) -> (r: PulseResult<Vec<Value>>)
    requires
        heap.wf(),
        n > 0,
    ensures
        match r {
            Ok(items) => args@.len() == n && list_of(*heap, args@[0]) == Some(items@),
            Err(e) => e is RuntimeError && (args@.len() != n || list_of(*heap, args@[0]) is None),
        },
{
    if args.len() != n {
        return Err(PulseError::RuntimeError(text(msg)));
    }
    match args[0] {
        Value::Obj(x) => match heap.get(x) {
            Some(Object::List(v)) => Ok(crate::object::vec_copy(v)),
            _ => Err(PulseError::RuntimeError(text("Expected list"))),
        },
        _ => Err(PulseError::RuntimeError(text("Expected list"))),
    }
}

/// `choice(list)`: one of the list's items; a runtime error for an empty
/// list. The heap is unchanged.
pub fn choice_native(rng: &mut StdRng, heap: &Heap, args: &[Value]) -> (r: PulseResult<Value>)
    requires
        heap.wf(),
    ensures
        args@.len() == 1 && list_of(*heap, args@[0]) is Some ==> {
            let l = list_of(*heap, args@[0])->Some_0;
            if l.len() == 0 { crate::value::is_runtime_error(r) } else { r matches Ok(v) && l.contains(v) }
        },
        !(args@.len() == 1 && list_of(*heap, args@[0]) is Some) ==> crate::value::is_runtime_error(r),
{
    let items = list_param(heap, args, 1, "choice expects 1 argument: list")?;
    if items.len() == 0 {
        return Err(PulseError::RuntimeError(text("Cannot choose from empty list")));
    }
    match choose_one(rng, items.as_slice()) {
        Some(v) => Ok(v),
        None => Err(PulseError::RuntimeError(text("Failed to choose element"))),
    }
}

/// The result is a new list object whose items are `l`'s in some order.
pub open spec fn new_permutation(h0: Heap, h1: Heap, r: PulseResult<Value>, l: Seq<Value>) -> bool {
    &&& r matches Ok(Value::Obj(x))
    &&& h1.live().dom().contains(x.0 as int)
    &&& h1.live()[x.0 as int] matches Object::List(out)
    &&& out@.to_multiset() == l.to_multiset()
    &&& added(h0, h1, x, h1.live()[x.0 as int])
}

/// `shuffle(list)`: a new list with the same items in a random order.
pub fn shuffle_native(rng: &mut StdRng, heap: &mut Heap, args: &[Value]) -> (r: PulseResult<Value>)
    requires
        ready(*old(heap)),
    ensures
        ready(*final(heap)),
        args@.len() == 1 && list_of(*old(heap), args@[0]) is Some ==>
            new_permutation(*old(heap), *final(heap), r, list_of(*old(heap), args@[0])->Some_0),
        !(args@.len() == 1 && list_of(*old(heap), args@[0]) is Some) ==>
            crate::value::is_runtime_error(r) && *final(heap) == *old(heap),
{
    let mut items = list_param(heap, args, 1, "shuffle expects 1 argument: list")?;
    shuffle_in_place(rng, &mut items);
    let x = heap.allocate(Object::List(items));
    Ok(Value::Obj(x))
}

/// `out` holds items of `l` taken at distinct positions, `idx` naming them.
pub open spec fn picked_at(out: Seq<Value>, l: Seq<Value>, idx: Seq<usize>) -> bool {
    &&& idx.len() == out.len()
    &&& idx.no_duplicates()
    &&& forall|k: int| 0 <= k < idx.len() ==> #[trigger] idx[k] < l.len() && out[k] == l[idx[k] as int]
}

/// The result is a new list of `n` items of `l` taken at distinct positions.
pub open spec fn new_sample(h0: Heap, h1: Heap, r: PulseResult<Value>, l: Seq<Value>, n: nat) -> bool {
    &&& r matches Ok(Value::Obj(x))
    &&& h1.live().dom().contains(x.0 as int)
    &&& h1.live()[x.0 as int] matches Object::List(out)
    &&& out@.len() == n
    &&& exists|idx: Seq<usize>| picked_at(out@, l, idx)
    &&& added(h0, h1, x, h1.live()[x.0 as int])
}

/// The positions `0..n`, in order.
fn positions(n: usize) -> (r: Vec<usize>)
    ensures
        r@.len() == n,
        forall|k: int| 0 <= k < n ==> r@[k] == k,
{
    let mut r: Vec<usize> = Vec::new();
    let mut i: usize = 0;
    while i < n
        invariant
            i <= n,
            r@.len() == i,
            forall|k: int| 0 <= k < i ==> r@[k] == k,
        decreases n - i,
    {
        r.push(i);
        i = i + 1;
    }
    r
}

/// A permutation of distinct positions below `n` holds distinct positions
/// below `n`.
proof fn lemma_permuted_positions(p: Seq<usize>, q: Seq<usize>, n: nat)
    requires
        p.to_multiset() == q.to_multiset(),
        q.no_duplicates(),
        forall|k: int| 0 <= k < q.len() ==> #[trigger] q[k] < n,
    ensures
        p.no_duplicates(),
        forall|k: int| 0 <= k < p.len() ==> #[trigger] p[k] < n,
{
    q.lemma_multiset_has_no_duplicates();
    p.lemma_multiset_has_no_duplicates_conv();
    assert forall|k: int| 0 <= k < p.len() implies #[trigger] p[k] < n by {
        assert(p.contains(p[k]));
        assert(p.to_multiset().count(p[k]) > 0);
        assert(q.contains(p[k]));
    }
}

/// `sample(list, n)`: a new list of `min(n, len)` items of the list, taken
/// at distinct positions; a runtime error for an empty list.
pub fn sample_native(rng: &mut StdRng, heap: &mut Heap, args: &[Value]) -> (r: PulseResult<Value>)
    requires
        ready(*old(heap)),
    ensures
        ready(*final(heap)),
        r is Err ==> *final(heap) == *old(heap),
        !(args@.len() == 2 && list_of(*old(heap), args@[0]) is Some) ==> crate::value::is_runtime_error(r),
        args@.len() == 2 && list_of(*old(heap), args@[0]) is Some ==> {
            let l = list_of(*old(heap), args@[0])->Some_0;
            match int_value(args@[1]) {
                None => param_error(args@[1], r),
                Some(i) => if l.len() == 0 {
                    crate::value::is_runtime_error(r)
                } else {
                    new_sample(*old(heap), *final(heap), r, l,
                        if count_of(i) < l.len() { count_of(i) } else { l.len() })
                },
            }
        },
{
    let items = list_param(heap, args, 2, "sample expects 2 arguments: list, n")?;
    let i = int_param(args[1], "Expected integer for n")?;
    if items.len() == 0 {
        return Err(PulseError::RuntimeError(text("Cannot sample from empty list")));
    }
    let mut n = i as usize;
    if n > items.len() {
        n = items.len();
    }
    let mut idx = positions(items.len());
    let ghost ordered = idx@;
    shuffle_in_place(rng, &mut idx);
    proof {
        assert(ordered.no_duplicates());
        lemma_permuted_positions(idx@, ordered, items@.len());
        assert(idx@.len() == idx@.to_multiset().len());
        assert(ordered.len() == ordered.to_multiset().len());
    }
    let mut out: Vec<Value> = Vec::new();
    let mut k: usize = 0;
    while k < n
        invariant
            n <= idx@.len() == items@.len(),
            k <= n,
            idx@.no_duplicates(),
            forall|j: int| 0 <= j < idx@.len() ==> #[trigger] idx@[j] < items@.len(),
            picked_at(out@, items@, idx@.take(k as int)),
        decreases n - k,
    {
        out.push(items[idx[k]]);
        k = k + 1;
        assert(idx@.take(k as int).drop_last() =~= idx@.take(k - 1));
        assert(picked_at(out@, items@, idx@.take(k as int)));
    }
    assert(picked_at(out@, items@, idx@.take(n as int)));
    let x = heap.allocate(Object::List(out));
    Ok(Value::Obj(x))
}

/// The result is a new list of `n` items, each one of `l`'s.
pub open spec fn new_draws(h0: Heap, h1: Heap, r: PulseResult<Value>, l: Seq<Value>, n: nat) -> bool {
    &&& r matches Ok(Value::Obj(x))
    &&& h1.live().dom().contains(x.0 as int)
    &&& h1.live()[x.0 as int] matches Object::List(out)
    &&& out@.len() == n
    &&& forall|k: int| 0 <= k < n ==> l.contains(#[trigger] out@[k])
    &&& added(h0, h1, x, h1.live()[x.0 as int])
}

/// `choices(list, n)`: a new list of `n` items drawn from the list with
/// replacement; a runtime error for an empty list.
pub fn choices_native(rng: &mut StdRng, heap: &mut Heap, args: &[Value]) -> (r: PulseResult<Value>)
    requires
        ready(*old(heap)),
    ensures
        ready(*final(heap)),
        r is Err ==> *final(heap) == *old(heap),
        !(args@.len() == 2 && list_of(*old(heap), args@[0]) is Some) ==> crate::value::is_runtime_error(r),
        args@.len() == 2 && list_of(*old(heap), args@[0]) is Some ==> {
            let l = list_of(*old(heap), args@[0])->Some_0;
            match int_value(args@[1]) {
                None => param_error(args@[1], r),
                Some(i) => if l.len() == 0 {
                    crate::value::is_runtime_error(r)
                } else {
                    new_draws(*old(heap), *final(heap), r, l, count_of(i))
                },
            }
        },
{
    let items = list_param(heap, args, 2, "choices expects 2 arguments: list, n")?;
    let i = int_param(args[1], "Expected integer for n")?;
    if items.len() == 0 {
        return Err(PulseError::RuntimeError(text("Cannot sample from empty list")));
    }
    let n = i as usize;
    let mut out: Vec<Value> = Vec::new();
    let mut k: usize = 0;
    while k < n
        invariant
            k <= n,
            items@.len() > 0,
            out@.len() == k,
            forall|j: int| 0 <= j < k ==> items@.contains(#[trigger] out@[j]),
        decreases n - k,
    {
        let j = uniform_below(rng, items.len());
        out.push(items[j]);
        assert(items@.contains(items@[j as int]));
        k = k + 1;
    }
    let x = heap.allocate(Object::List(out));
    Ok(Value::Obj(x))
}

/// A byte count parameter, or the error `random_bytes`, `random_hex` and
/// `random_string` give.
fn count_param(args: &[Value], msg: &str) -> (r: PulseResult<usize>)
    ensures
        args@.len() != 1 ==> crate::value::is_runtime_error(r),
        args@.len() == 1 ==> match int_value(args@[0]) {
            Some(i) => r == Ok::<usize, PulseError>(i as usize),
            None => param_error(args@[0], r),
        },
{
    if args.len() != 1 {
        return Err(PulseError::RuntimeError(text(msg)));
    }
    let i = int_param(args[0], "Expected integer for n")?;
    Ok(i as usize)
}

/// The count a generator native is given: the single integer argument,
/// cast to `usize`.
pub open spec fn count_arg(args: Seq<Value>) -> Option<nat> {
    if args.len() == 1 && int_value(args[0]) is Some { Some(count_of(int_value(args[0])->Some_0)) } else { None }
}

/// The error a generator native gives when it has no count.
pub open spec fn count_error<T>(args: Seq<Value>, r: PulseResult<T>) -> bool {
    if args.len() != 1 { crate::value::is_runtime_error(r) } else { param_error(args[0], r) }
}

/// The result is a new list of `n` integers, each a byte value.
pub open spec fn new_bytes(h0: Heap, h1: Heap, r: PulseResult<Value>, n: nat) -> bool {
    &&& r matches Ok(Value::Obj(x))
    &&& h1.live().dom().contains(x.0 as int)
    &&& h1.live()[x.0 as int] matches Object::List(out)
    &&& out@.len() == n
    &&& forall|k: int| 0 <= k < n ==> byte_value(#[trigger] out@[k])
    &&& added(h0, h1, x, h1.live()[x.0 as int])
}

/// An integer from 0 to 255.
pub open spec fn byte_value(v: Value) -> bool {
    v matches Value::Int(b) && 0 <= b < 256
}

/// `random_bytes(n)`: a new list of `n` random integers, each a byte value.
pub fn random_bytes_native(rng: &mut StdRng, heap: &mut Heap, args: &[Value]) -> (r: PulseResult<Value>)
    requires
        ready(*old(heap)),
    ensures
        ready(*final(heap)),
        r is Err ==> *final(heap) == *old(heap),
        match count_arg(args@) {
            Some(n) => new_bytes(*old(heap), *final(heap), r, n),
            None => count_error(args@, r),
        },
{
    let n = count_param(args, "random_bytes expects 1 argument: n")?;
    let mut out: Vec<Value> = Vec::new();
    let mut k: usize = 0;
    while k < n
        invariant
            k <= n,
            out@.len() == k,
            forall|j: int| 0 <= j < k ==> byte_value(#[trigger] out@[j]),
        decreases n - k,
    {
        let b = next_byte(rng);
        out.push(Value::Int(b as i64));
        k = k + 1;
    }
    let x = heap.allocate(Object::List(out));
    Ok(Value::Obj(x))
}

/// One of the sixteen lower-case hexadecimal digits.
pub open spec fn is_hex_digit(c: char) -> bool {
    exists|d: int| 0 <= d < 16 && c == #[trigger] hex_digit(d)
}

/// The result is a new string of `n` characters, each satisfying `ok`.
pub open spec fn new_text_of(h0: Heap, h1: Heap, r: PulseResult<Value>, n: nat, ok: spec_fn(char) -> bool) -> bool {
    &&& r matches Ok(Value::Obj(x))
    &&& h1.live().dom().contains(x.0 as int)
    &&& h1.live()[x.0 as int] matches Object::String(s)
    &&& s@.len() == n
    &&& forall|k: int| 0 <= k < n ==> ok(#[trigger] s@[k])
    &&& added(h0, h1, x, h1.live()[x.0 as int])
}

/// `random_hex(n)`: a new string of `n` random lower-case hexadecimal
/// digits.
pub fn random_hex_native(rng: &mut StdRng, heap: &mut Heap, args: &[Value]) -> (r: PulseResult<Value>)
    requires
        ready(*old(heap)),
    ensures
        ready(*final(heap)),
        r is Err ==> *final(heap) == *old(heap),
        match count_arg(args@) {
            Some(n) => new_text_of(*old(heap), *final(heap), r, n, |c: char| is_hex_digit(c)),
            None => count_error(args@, r),
        },
{
    let n = count_param(args, "random_hex expects 1 argument: n")?;
    let mut s = String::new();
    let mut k: usize = 0;
    while k < n
        invariant
            k <= n,
            s@.len() == k,
            forall|j: int| 0 <= j < k ==> is_hex_digit(#[trigger] s@[j]),
        decreases n - k,
    {
        let d = next_below(rng, 16);
        let c = crate::crypto::hex_char(d as u8);
        assert(is_hex_digit(c)) by {
            assert(c == hex_digit(d as int));
        }
        push_char(&mut s, c);
        k = k + 1;
    }
    let x = heap.allocate(Object::String(s));
    Ok(Value::Obj(x))
}

/// The characters `random_string` draws from: the ASCII letters, upper
/// case first, then the digits.
pub open spec fn alphanumerics() -> Seq<char> {
    seq!['A', 'B', 'C', 'D', 'E', 'F', 'G', 'H', 'I', 'J', 'K', 'L', 'M', 'N', 'O', 'P', 'Q', 'R', 'S',
        'T', 'U', 'V', 'W', 'X', 'Y', 'Z', 'a', 'b', 'c', 'd', 'e', 'f', 'g', 'h', 'i', 'j', 'k', 'l',
        'm', 'n', 'o', 'p', 'q', 'r', 's', 't', 'u', 'v', 'w', 'x', 'y', 'z', '0', '1', '2', '3', '4',
        '5', '6', '7', '8', '9']
}

/// `random_string(n)`: a new string of `n` random ASCII letters and digits.
pub fn random_string_native(rng: &mut StdRng, heap: &mut Heap, args: &[Value]) -> (r: PulseResult<Value>)
    requires
        ready(*old(heap)),
    ensures
        ready(*final(heap)),
        r is Err ==> *final(heap) == *old(heap),
        match count_arg(args@) {
            Some(n) => new_text_of(*old(heap), *final(heap), r, n, |c: char| alphanumerics().contains(c)),
            None => count_error(args@, r),
        },
{
    let n = count_param(args, "random_string expects 1 argument: n")?;
    let charset = chars_of("ABCDEFGHIJKLMNOPQRSTUVWXYZabcdefghijklmnopqrstuvwxyz0123456789");
    proof {
        reveal_strlit("ABCDEFGHIJKLMNOPQRSTUVWXYZabcdefghijklmnopqrstuvwxyz0123456789");
        assert(charset@ =~= alphanumerics());
    }
    let mut s = String::new();
    let mut k: usize = 0;
    while k < n
        invariant
            k <= n,
            charset@ == alphanumerics(),
            s@.len() == k,
            forall|j: int| 0 <= j < k ==> alphanumerics().contains(#[trigger] s@[j]),
        decreases n - k,
    {
        let i = next_below(rng, charset.len());
        let c = charset[i];
        assert(alphanumerics().contains(c)) by {
            assert(alphanumerics()[i as int] == c);
        }
        push_char(&mut s, c);
        k = k + 1;
    }
    let x = heap.allocate(Object::String(s));
    Ok(Value::Obj(x))
}

} // verus!

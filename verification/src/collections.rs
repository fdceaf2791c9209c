//! Natives that build new lists from lists and maps.

use vstd::prelude::*;
use crate::value::{ObjHandle, Value, PulseError, PulseResult, text};
use crate::object::Object;
use crate::namemap::NameMap;
use crate::heap::Heap;
use crate::vm::{object_of, VM};
use crate::utils::{ready, new_list, added, grows, list_of};

verus! {

broadcast use {vstd::std_specs::vec::group_vec_axioms, vstd::seq_lib::group_to_multiset_ensures};

/// Every item is an integer.
pub open spec fn all_ints(s: Seq<Value>) -> bool {
    forall|i: int| 0 <= i < s.len() ==> (#[trigger] s[i]) is Int
}

/// Some item is a float.
pub open spec fn has_float(s: Seq<Value>) -> bool {
    exists|i: int| 0 <= i < s.len() && (#[trigger] s[i]) is Float
}

/// Integers in ascending order.
pub open spec fn ints_sorted(s: Seq<Value>) -> bool {
    forall|i: int, j: int| 0 <= i < j < s.len() ==> (#[trigger] s[i])->Int_0 <= (#[trigger] s[j])->Int_0
}

/// The float with bit pattern `bits` is a NaN.
pub open spec fn is_nan(bits: u64) -> bool {
    (bits / 0x10000000000000) % 2048 == 2047 && bits % 0x10000000000000 != 0
}

/// Two items print the same under `Debug`: equal values, and every NaN
/// the same as every other.
pub open spec fn same_item(a: Value, b: Value) -> bool {
    match (a, b) {
        (Value::Float(x), Value::Float(y)) => x == y || (is_nan(x) && is_nan(y)),
        _ => a == b,
    }
}

/// The item at `i` prints like an earlier one.
pub open spec fn seen_before(s: Seq<Value>, i: int) -> bool {
    exists|j: int| 0 <= j < i && same_item(#[trigger] s[j], s[i])
}

/// The items that print differently from every item before them, in order.
pub open spec fn first_occurrences(s: Seq<Value>) -> Seq<Value>
    decreases s.len(),
{
    if s.len() == 0 {
        s
    } else {
        let d = first_occurrences(s.drop_last());
        if seen_before(s, s.len() - 1) { d } else { d.push(s.last()) }
    }
}

/// The map object a value refers to.
pub open spec fn map_of(h: Heap, v: Value) -> Option<NameMap<Value>> {
    match object_of(h, v) {
        Some(Object::Dict(m)) => Some(m),
        _ => None,
    }
}

/// `v` is a new string holding `t`.
pub open spec fn fresh_text(h0: Heap, h1: Heap, v: Value, t: Seq<char>) -> bool {
    &&& v matches Value::Obj(x)
    &&& !h0.live().dom().contains(x.0 as int)
    &&& h1.live().dom().contains(x.0 as int)
    &&& h1.live()[x.0 as int] matches Object::String(s)
    &&& s@ == t
}

/// `v` is a new two-item list: a new string holding `k`, then `val`.
pub open spec fn fresh_pair(h0: Heap, h1: Heap, v: Value, k: Seq<char>, val: Value) -> bool {
    &&& v matches Value::Obj(x)
    &&& !h0.live().dom().contains(x.0 as int)
    &&& h1.live().dom().contains(x.0 as int)
    &&& h1.live()[x.0 as int] matches Object::List(p)
    &&& p@.len() == 2
    &&& fresh_text(h0, h1, p@[0], k)
    &&& p@[1] == val
}

/// The result is a new list in the heap, which only grew.
pub open spec fn fresh_list_result(h0: Heap, h1: Heap, r: PulseResult<Value>) -> bool {
    &&& r matches Ok(Value::Obj(x))
    &&& !h0.live().dom().contains(x.0 as int)
    &&& h1.live().dom().contains(x.0 as int)
    &&& h1.live()[x.0 as int] is List
}

pub open spec fn result_items(h1: Heap, r: PulseResult<Value>) -> Seq<Value> {
    h1.live()[r->Ok_0->Obj_0.0 as int]->List_0@
}

/// The first argument as a list; every failure is a runtime error.
fn list_arg(heap: &Heap, args: &[Value], min: usize, msg: &str) -> (r: PulseResult<Vec<Value>>)
    requires
        heap.wf(),
    ensures
        match r {
            Ok(items) => args@.len() >= min && args@.len() > 0 && list_of(*heap, args@[0]) == Some(items@),
            Err(e) => e is RuntimeError && (args@.len() < min || args@.len() == 0 || list_of(*heap, args@[0]) is None),
        },
{
    if args.len() < min || args.len() == 0 {
        return Err(PulseError::RuntimeError(text(msg)));
    }
    match args[0] {
        Value::Obj(x) => match heap.get(x) {
            Some(Object::List(v)) => Ok(crate::object::vec_copy(v)),
            _ => Err(PulseError::RuntimeError(text("Expected list as first argument"))),
        },
        _ => Err(PulseError::RuntimeError(text("Expected list as first argument"))),
    }
}

/// What a job calls a function for: each item, each item as a test, or
/// each item with the value so far.
#[derive(PartialEq, Eq, Structural, Clone, Copy)]
pub enum FoldKind {
    Each,
    Filter,
    Reduce,
}

/// A function called over a list, item by item, in order. The host makes
/// each call `fold_next` asks for (running the function is the
/// interpreter's work) and hands the reply to `fold_resume`; `fold_finish`
/// gives the result once every item is done.
pub struct FoldJob {
    pub kind: FoldKind,
    pub items: Vec<Value>,
    pub func: Value,
    /// The item the next call is for.
    pub next: usize,
    /// `Each`: the replies so far; `Filter`: the items kept so far.
    pub kept: Vec<Value>,
    /// `Reduce`: the value so far.
    pub acc: Value,
    pub replies: Ghost<Seq<Value>>,
    pub init: Ghost<Value>,
}

/// What the host does next for a job.
pub enum FoldStep {
    /// Call `func` with `args` and hand the reply back.
    Call { func: Value, args: Vec<Value> },
    /// Every item is done.
    Done,
}

/// What a job keeps after the replies `replies` to its first calls: `Map`
/// the replies, `Filter` the items whose reply is true, `Reduce` nothing.
pub open spec fn kept_of(kind: FoldKind, items: Seq<Value>, replies: Seq<Value>) -> Seq<Value>
    decreases replies.len(),
{
    if replies.len() == 0 {
        Seq::empty()
    } else {
        let prev = kept_of(kind, items, replies.drop_last());
        match kind {
            FoldKind::Each => prev.push(replies.last()),
            FoldKind::Filter => if VM::spec_is_truthy(replies.last()) { prev.push(items[replies.len() - 1]) } else { prev },
            FoldKind::Reduce => prev,
        }
    }
}

/// The value so far of a reduction: the last reply, or the initial value.
pub open spec fn acc_of(init: Value, replies: Seq<Value>) -> Value {
    if replies.len() == 0 { init } else { replies.last() }
}

/// The items whose reply is true, in order.
pub open spec fn kept_items(items: Seq<Value>, replies: Seq<Value>) -> Seq<Value>
    decreases replies.len(),
{
    if replies.len() == 0 {
        Seq::empty()
    } else {
        let prev = kept_items(items, replies.drop_last());
        if VM::spec_is_truthy(replies.last()) { prev.push(items[replies.len() - 1]) } else { prev }
    }
}

impl FoldJob {
    /// The job has made `next` calls, got `replies` for them, and keeps
    /// what they give.
    pub open spec fn wf(&self) -> bool {
        &&& self.next == self.replies@.len()
        &&& self.next <= self.items@.len()
        &&& self.kept@ == kept_of(self.kind, self.items@, self.replies@)
        &&& self.acc == acc_of(self.init@, self.replies@)
    }

    /// The arguments of the next call: the item, after the value so far
    /// for a reduction.
    pub open spec fn call_args(&self) -> Seq<Value> {
        match self.kind {
            FoldKind::Reduce => seq![self.acc, self.items@[self.next as int]],
            _ => seq![self.items@[self.next as int]],
        }
    }

    /// A job that has made no call yet.
    pub open spec fn fresh(&self, kind: FoldKind, items: Seq<Value>, func: Value, init: Value) -> bool {
        &&& self.wf()
        &&& self.kind == kind
        &&& self.items@ == items
        &&& self.func == func
        &&& self.init@ == init
        &&& self.next == 0
    }
}

pub(crate) fn new_job(kind: FoldKind, items: Vec<Value>, func: Value, init: Value) -> (j: FoldJob)
    ensures
        j.fresh(kind, items@, func, init),
{
    FoldJob { kind, items, func, next: 0, kept: Vec::new(), acc: init, replies: Ghost(Seq::empty()), init: Ghost(init) }
}

/// The call the job needs next, or `Done`.
pub fn fold_next(job: &FoldJob) -> (s: FoldStep)
    requires
        job.wf(),
    ensures
        job.next < job.items@.len() ==> (s matches FoldStep::Call { func, args } && func == job.func && args@ == job.call_args()),
        job.next >= job.items@.len() ==> s is Done,
{
    if job.next >= job.items.len() {
        return FoldStep::Done;
    }
    let item = job.items[job.next];
    let args = match job.kind {
        FoldKind::Reduce => vec![job.acc, item],
        _ => vec![item],
    };
    FoldStep::Call { func: job.func, args }
}

/// Takes the reply to the call `fold_next` asked for.
pub fn fold_resume(job: &mut FoldJob, reply: Value)
    requires
        old(job).wf(),
        old(job).next < old(job).items@.len(),
    ensures
        final(job).wf(),
        final(job).replies@ == old(job).replies@.push(reply),
        final(job).kind == old(job).kind,
        final(job).items@ == old(job).items@,
        final(job).func == old(job).func,
        final(job).init@ == old(job).init@,
{
    let ghost rs = job.replies@.push(reply);
    match job.kind {
        FoldKind::Each => job.kept.push(reply),
        FoldKind::Filter => {
            let keep = match reply {
                Value::Bool(b) => b,
                Value::Unit => false,
                _ => true,
            };
            if keep {
                let item = job.items[job.next];
                job.kept.push(item);
            }
        },
        FoldKind::Reduce => {},
    }
    job.acc = reply;
    assert(job.next < job.items.len());
    job.next = job.next + 1;
    job.replies = Ghost(rs);
    assert(rs.drop_last() =~= old(job).replies@);
}

proof fn lemma_map_kept(items: Seq<Value>, replies: Seq<Value>)
    ensures
        kept_of(FoldKind::Each, items, replies) == replies,
        kept_of(FoldKind::Filter, items, replies) == kept_items(items, replies),
    decreases replies.len(),
{
    if replies.len() > 0 {
        lemma_map_kept(items, replies.drop_last());
        assert(replies.drop_last().push(replies.last()) =~= replies);
    }
}

/// The result of a job every item is done for: `Map` a new list of the
/// replies, `Filter` a new list of the items whose reply is true, `Reduce`
/// the last reply (the initial value for no items).
pub fn fold_finish(heap: &mut Heap, job: FoldJob) -> (r: Value)
    requires
        ready(*old(heap)),
        job.wf(),
        job.next == job.items@.len(),
    ensures
        ready(*final(heap)),
        job.kind == FoldKind::Each ==> new_list(*old(heap), *final(heap), Ok::<Value, PulseError>(r), job.replies@),
        job.kind == FoldKind::Filter ==> new_list(*old(heap), *final(heap), Ok::<Value, PulseError>(r), kept_items(job.items@, job.replies@)),
        job.kind == FoldKind::Reduce ==> r == acc_of(job.init@, job.replies@) && *final(heap) == *old(heap),
{
    proof { lemma_map_kept(job.items@, job.replies@); }
    match job.kind {
        FoldKind::Reduce => job.acc,
        _ => {
            let x = heap.allocate(Object::List(job.kept));
            Value::Obj(x)
        },
    }
}

/// `list_map(list, f)`: a job calling `f` on each item in order; the list
/// of the replies is the result (see `fold_finish`).
pub fn list_map_native(heap: &Heap, args: &[Value]) -> (r: PulseResult<FoldJob>)
    requires
        heap.wf(),
    ensures
        args@.len() >= 2 && list_of(*heap, args@[0]) is Some ==> (r matches Ok(j)
            && j.fresh(FoldKind::Each, list_of(*heap, args@[0])->Some_0, args@[1], Value::Unit)),
        !(args@.len() >= 2 && list_of(*heap, args@[0]) is Some) ==> crate::value::is_runtime_error(r),
{
    let items = match list_arg(heap, args, 2, "list_map requires list and function arguments") {
        Ok(v) => v,
        Err(e) => {
            return Err(e);
        },
    };
    Ok(new_job(FoldKind::Each, items, args[1], Value::Unit))
}

/// `list_filter(list, f)`: a job calling `f` on each item in order; the
/// list of the items it answers true for is the result.
pub fn list_filter_native(heap: &Heap, args: &[Value]) -> (r: PulseResult<FoldJob>)
    requires
        heap.wf(),
    ensures
        args@.len() >= 2 && list_of(*heap, args@[0]) is Some ==> (r matches Ok(j)
            && j.fresh(FoldKind::Filter, list_of(*heap, args@[0])->Some_0, args@[1], Value::Unit)),
        !(args@.len() >= 2 && list_of(*heap, args@[0]) is Some) ==> crate::value::is_runtime_error(r),
{
    let items = match list_arg(heap, args, 2, "list_filter requires list and predicate arguments") {
        Ok(v) => v,
        Err(e) => {
            return Err(e);
        },
    };
    Ok(new_job(FoldKind::Filter, items, args[1], Value::Unit))
}

/// `list_reduce(list, initial, f)`: a job calling `f` with the value so far
/// and each item in order, starting from `initial`; the last reply is the
/// result.
pub fn list_reduce_native(heap: &Heap, args: &[Value]) -> (r: PulseResult<FoldJob>)
    requires
        heap.wf(),
    ensures
        args@.len() >= 3 && list_of(*heap, args@[0]) is Some ==> (r matches Ok(j)
            && j.fresh(FoldKind::Reduce, list_of(*heap, args@[0])->Some_0, args@[2], args@[1])),
        !(args@.len() >= 3 && list_of(*heap, args@[0]) is Some) ==> crate::value::is_runtime_error(r),
{
    let items = match list_arg(heap, args, 3, "list_reduce requires list, initial value, and function arguments") {
        Ok(v) => v,
        Err(e) => {
            return Err(e);
        },
    };
    Ok(new_job(FoldKind::Reduce, items, args[2], args[1]))
}

/// `list_sort(list)`: a new list of the same items, integers in ascending
/// order, equal ones in their original order. Items that are not numbers
/// keep no particular place; a float needs the host.
pub fn list_sort_native(heap: &mut Heap, args: &[Value]) -> (r: PulseResult<Value>)
    requires
        ready(*old(heap)),
    ensures
        ready(*final(heap)),
        match list_of(*old(heap), if args@.len() > 0 { args@[0] } else { Value::Unit }) {
            Some(l) => if args@.len() == 0 {
                crate::value::is_runtime_error(r) && *final(heap) == *old(heap)
            } else if has_float(l) {
                crate::value::is_float_host(r) && *final(heap) == *old(heap)
            } else {
                &&& fresh_list_result(*old(heap), *final(heap), r)
                &&& final(heap).live() == old(heap).live().insert(r->Ok_0->Obj_0.0 as int, final(heap).live()[r->Ok_0->Obj_0.0 as int])
                &&& result_items(*final(heap), r).to_multiset() == l.to_multiset()
                &&& all_ints(l) ==> ints_sorted(result_items(*final(heap), r))
            },
            None => crate::value::is_runtime_error(r) && *final(heap) == *old(heap),
        },
{
    let items = list_arg(heap, args, 1, "list_sort requires a list argument")?;
    let mut i: usize = 0;
    while i < items.len()
        invariant
            i <= items@.len(),
            *heap == *old(heap),
            ready(*heap),
            args@.len() > 0,
            list_of(*old(heap), args@[0]) == Some(items@),
            forall|k: int| 0 <= k < i ==> !(#[trigger] items@[k] is Float),
        decreases items@.len() - i,
    {
        if let Value::Float(_) = items[i] {
            assert(has_float(items@)) by {
                assert(items@[i as int] is Float);
            }
            return Err(PulseError::NeedsFloatHost);
        }
        i = i + 1;
    }
    let mut sorted: Vec<Value> = Vec::new();
    let mut k: usize = 0;
    while k < items.len()
        invariant
            k <= items@.len(),
            sorted@.to_multiset() == items@.take(k as int).to_multiset(),
            all_ints(items@) ==> all_ints(sorted@) && ints_sorted(sorted@),
        decreases items@.len() - k,
    {
        let x = items[k];
        // insert after every item that is not greater than x
        let mut p: usize = 0;
        while p < sorted.len()
            invariant
                p <= sorted@.len(),
                all_ints(items@) ==> all_ints(sorted@),
                x == items@[k as int],
                k < items@.len(),
                all_ints(items@) ==> forall|q: int| 0 <= q < p ==> (#[trigger] sorted@[q])->Int_0 <= x->Int_0,
            ensures
                p <= sorted@.len(),
                all_ints(items@) ==> forall|q: int| 0 <= q < p ==> (#[trigger] sorted@[q])->Int_0 <= x->Int_0,
                all_ints(items@) && p < sorted@.len() ==> sorted@[p as int]->Int_0 > x->Int_0,
            decreases sorted@.len() - p,
        {
            if greater(&sorted[p], &x) {
                break;
            }
            p = p + 1;
        }
        let ghost before = sorted@;
        sorted.insert(p, x);
        proof {
            vstd::seq_lib::to_multiset_insert(before, p as int, x);
            assert(items@.take(k + 1) =~= items@.take(k as int).push(x));
            if all_ints(items@) {
                assert(x is Int);
                assert(all_ints(sorted@)) by {
                    assert forall|q: int| 0 <= q < sorted@.len() implies (#[trigger] sorted@[q]) is Int by {
                        if q < p { assert(sorted@[q] == before[q]); }
                        else if q > p { assert(sorted@[q] == before[q - 1]); }
                    }
                }
                assert forall|a: int, b: int| 0 <= a < b < sorted@.len() implies (#[trigger] sorted@[a])->Int_0 <= (#[trigger] sorted@[b])->Int_0 by {
                    if a < p && b < p {
                        assert(sorted@[a] == before[a] && sorted@[b] == before[b]);
                    } else if a < p && b == p {
                        assert(sorted@[a] == before[a]);
                    } else if a < p && b > p {
                        assert(sorted@[a] == before[a] && sorted@[b] == before[b - 1]);
                        assert(before[p as int]->Int_0 <= before[b - 1]->Int_0);
                    } else if a == p {
                        assert(sorted@[b] == before[b - 1]);
                        assert(before[p as int]->Int_0 <= before[b - 1]->Int_0);
                    } else {
                        assert(sorted@[a] == before[a - 1] && sorted@[b] == before[b - 1]);
                    }
                }
            }
        }
        k = k + 1;
    }
    proof {
        assert(items@.take(k as int) =~= items@);
    }
    let ghost h0 = heap.live();
    let x = heap.allocate(Object::List(sorted));
    Ok(Value::Obj(x))
}

/// `a` orders after `b` under the sort's comparison: integers by value,
/// anything else equal.
fn greater(a: &Value, b: &Value) -> (r: bool)
    ensures
        r == (a is Int && b is Int && a->Int_0 > b->Int_0),
{
    match (a, b) {
        (Value::Int(x), Value::Int(y)) => *x > *y,
        _ => false,
    }
}

/// `list_reverse(list)`: a new list of the items in reverse order.
pub fn list_reverse_native(heap: &mut Heap, args: &[Value]) -> (r: PulseResult<Value>)
    requires
        ready(*old(heap)),
    ensures
        ready(*final(heap)),
        args@.len() > 0 && list_of(*old(heap), args@[0]) is Some ==> new_list(*old(heap), *final(heap), r, list_of(*old(heap), args@[0])->Some_0.reverse()),
        !(args@.len() > 0 && list_of(*old(heap), args@[0]) is Some) ==> crate::value::is_runtime_error(r) && *final(heap) == *old(heap),
{
    let items = list_arg(heap, args, 1, "list_reverse requires a list argument")?;
    let mut out: Vec<Value> = Vec::new();
    let mut i = items.len();
    while i > 0
        invariant
            i <= items@.len(),
            out@ == items@.subrange(i as int, items@.len() as int).reverse(),
        decreases i,
    {
        i = i - 1;
        out.push(items[i]);
        assert(out@ =~= items@.subrange(i as int, items@.len() as int).reverse());
    }
    assert(items@.subrange(0, items@.len() as int) =~= items@);
    let x = heap.allocate(Object::List(out));
    Ok(Value::Obj(x))
}

/// The float bits encode a NaN.
fn nan_bits(bits: u64) -> (r: bool)
    ensures
        r == is_nan(bits),
{
    (bits / 0x10000000000000) % 2048 == 2047 && bits % 0x10000000000000 != 0
}

pub(crate) fn same(a: Value, b: Value) -> (r: bool)
    ensures
        r == same_item(a, b),
{
    match (a, b) {
        (Value::Float(x), Value::Float(y)) => x == y || (nan_bits(x) && nan_bits(y)),
        _ => a == b,
    }
}

/// `list_unique(list)`: a new list of the items that do not print like an
/// earlier item, in order.
pub fn list_unique_native(heap: &mut Heap, args: &[Value]) -> (r: PulseResult<Value>)
    requires
        ready(*old(heap)),
    ensures
        ready(*final(heap)),
        args@.len() > 0 && list_of(*old(heap), args@[0]) is Some ==> new_list(*old(heap), *final(heap), r, first_occurrences(list_of(*old(heap), args@[0])->Some_0)),
        !(args@.len() > 0 && list_of(*old(heap), args@[0]) is Some) ==> crate::value::is_runtime_error(r) && *final(heap) == *old(heap),
{
    let items = list_arg(heap, args, 1, "list_unique requires a list argument")?;
    let mut out: Vec<Value> = Vec::new();
    let mut i: usize = 0;
    while i < items.len()
        invariant
            i <= items@.len(),
            out@ == first_occurrences(items@.take(i as int)),
        decreases items@.len() - i,
    {
        let mut j: usize = 0;
        let mut dup = false;
        while j < i
            invariant
                j <= i < items@.len(),
                dup == exists|q: int| 0 <= q < j && same_item(#[trigger] items@[q], items@[i as int]),
            decreases i - j,
        {
            if same(items[j], items[i]) {
                dup = true;
            }
            j = j + 1;
        }
        proof {
            let t = items@.take(i + 1);
            assert(t.drop_last() =~= items@.take(i as int));
            assert(seen_before(t, i as int) == dup) by {
                if dup {
                    let q = choose|q: int| 0 <= q < i && same_item(#[trigger] items@[q], items@[i as int]);
                    assert(t[q] == items@[q]);
                }
                if seen_before(t, i as int) {
                    let q = choose|q: int| 0 <= q < i && same_item(#[trigger] t[q], t[i as int]);
                    assert(t[q] == items@[q]);
                }
            }
        }
        if !dup {
            out.push(items[i]);
        }
        i = i + 1;
    }
    assert(items@.take(i as int) =~= items@);
    let x = heap.allocate(Object::List(out));
    Ok(Value::Obj(x))
}

/// The first argument as a map; every failure is a runtime error.
fn map_arg(heap: &Heap, args: &[Value], msg: &str) -> (r: PulseResult<Vec<(String, Value)>>)
    requires
        heap.wf(),
    ensures
        match r {
            Ok(es) => args@.len() > 0 && (map_of(*heap, args@[0]) matches Some(m) && es@ == m.entries@),
            Err(e) => e is RuntimeError && (args@.len() == 0 || map_of(*heap, args@[0]) is None),
        },
{
    if args.len() == 0 {
        return Err(PulseError::RuntimeError(text(msg)));
    }
    match args[0] {
        Value::Obj(x) => match heap.get(x) {
            Some(Object::Dict(m)) => Ok(m.copy().entries),
            _ => Err(PulseError::RuntimeError(text("Expected map as first argument"))),
        },
        _ => Err(PulseError::RuntimeError(text("Expected map as first argument"))),
    }
}

/// `map_values(map)`: a new list of the map's values, in the map's order.
pub fn map_values_native(heap: &mut Heap, args: &[Value]) -> (r: PulseResult<Value>)
    requires
        ready(*old(heap)),
    ensures
        ready(*final(heap)),
        args@.len() > 0 && map_of(*old(heap), args@[0]) is Some ==> new_list(*old(heap), *final(heap), r,
            crate::object::entry_values(map_of(*old(heap), args@[0])->Some_0)),
        !(args@.len() > 0 && map_of(*old(heap), args@[0]) is Some) ==> crate::value::is_runtime_error(r) && *final(heap) == *old(heap),
{
    let es = map_arg(heap, args, "map_values requires a map argument")?;
    let m = NameMap { entries: es };
    let vals = crate::object::entry_values_of(&m);
    let x = heap.allocate(Object::List(vals));
    Ok(Value::Obj(x))
}

/// `map_keys(map)`: a new list of new strings holding the keys, in the
/// map's order.
pub fn map_keys_native(heap: &mut Heap, args: &[Value]) -> (r: PulseResult<Value>)
    requires
        ready(*old(heap)),
    ensures
        ready(*final(heap)),
        grows(*old(heap), *final(heap)),
        args@.len() > 0 && map_of(*old(heap), args@[0]) is Some ==>
            listed(*old(heap), *final(heap), r, map_of(*old(heap), args@[0])->Some_0.entries@, false),
        !(args@.len() > 0 && map_of(*old(heap), args@[0]) is Some) ==> crate::value::is_runtime_error(r) && *final(heap) == *old(heap),
{
    let es = map_arg(heap, args, "map_keys requires a map argument")?;
    listing(heap, es, false)
}

/// `map_entries(map)`: a new list of new `[key, value]` lists, the key a
/// new string, in the map's order.
pub fn map_entries_native(heap: &mut Heap, args: &[Value]) -> (r: PulseResult<Value>)
    requires
        ready(*old(heap)),
    ensures
        ready(*final(heap)),
        grows(*old(heap), *final(heap)),
        args@.len() > 0 && map_of(*old(heap), args@[0]) is Some ==>
            listed(*old(heap), *final(heap), r, map_of(*old(heap), args@[0])->Some_0.entries@, true),
        !(args@.len() > 0 && map_of(*old(heap), args@[0]) is Some) ==> crate::value::is_runtime_error(r) && *final(heap) == *old(heap),
{
    let es = map_arg(heap, args, "map_entries requires a map argument")?;
    listing(heap, es, true)
}

/// `r` is a new list, in a heap that only grew, holding for each entry of
/// `es` in order a new string of its key, or with `entries` a new
/// `[key, value]` list.
pub open spec fn listed(h0: Heap, h1: Heap, r: PulseResult<Value>, es: Seq<(String, Value)>, entries: bool) -> bool {
    &&& fresh_list_result(h0, h1, r)
    &&& result_items(h1, r).len() == es.len()
    &&& forall|i: int| 0 <= i < es.len() ==> if entries {
        fresh_pair(h0, h1, #[trigger] result_items(h1, r)[i], es[i].0@, es[i].1)
    } else {
        fresh_text(h0, h1, #[trigger] result_items(h1, r)[i], es[i].0@)
    }
}

/// Allocates the list of keys (or of `[key, value]` lists) of `es`.
pub(crate) fn listing(heap: &mut Heap, es: Vec<(String, Value)>, entries: bool) -> (r: PulseResult<Value>)
    requires
        ready(*old(heap)),
    ensures
        ready(*final(heap)),
        grows(*old(heap), *final(heap)),
        listed(*old(heap), *final(heap), r, es@, entries),
{
    let ghost h0 = *heap;
    let mut out: Vec<Value> = Vec::new();
    let mut i: usize = 0;
    while i < es.len()
        invariant
            ready(*heap),
            grows(h0, *heap),
            i <= es@.len(),
            out@.len() == i,
            forall|k: int| 0 <= k < i ==> if entries {
                fresh_pair(h0, *heap, #[trigger] out@[k], es@[k].0@, es@[k].1)
            } else {
                fresh_text(h0, *heap, #[trigger] out@[k], es@[k].0@)
            },
        decreases es@.len() - i,
    {
        let ghost hp = *heap;
        let kh = heap.allocate(Object::String(es[i].0.clone()));
        let item = if entries {
            let pair = vec![Value::Obj(kh), es[i].1];
            let ph = heap.allocate(Object::List(pair));
            Value::Obj(ph)
        } else {
            Value::Obj(kh)
        };
        proof {
            lemma_grows_trans(h0, hp, *heap);
            assert forall|k: int| 0 <= k < i implies if entries {
                fresh_pair(h0, *heap, #[trigger] out@[k], es@[k].0@, es@[k].1)
            } else {
                fresh_text(h0, *heap, #[trigger] out@[k], es@[k].0@)
            } by {
                if entries {
                    assert(fresh_pair(h0, hp, out@[k], es@[k].0@, es@[k].1));
                    let p = hp.live()[out@[k]->Obj_0.0 as int]->List_0;
                    assert(hp.live().dom().contains(p@[0]->Obj_0.0 as int));
                } else {
                    assert(fresh_text(h0, hp, out@[k], es@[k].0@));
                }
            }
            if h0.live().dom().contains(kh.0 as int) {
                assert(hp.live().dom().contains(kh.0 as int));
            }
            if entries {
                let ph = item->Obj_0;
                if h0.live().dom().contains(ph.0 as int) {
                    assert(hp.live().dom().contains(ph.0 as int));
                }
            }
        }
        out.push(item);
        i = i + 1;
    }
    let ghost hp = *heap;
    let x = heap.allocate(Object::List(out));
    proof {
        lemma_grows_trans(h0, hp, *heap);
        if h0.live().dom().contains(x.0 as int) {
            assert(hp.live().dom().contains(x.0 as int));
        }
        assert forall|k: int| 0 <= k < es@.len() implies if entries {
            fresh_pair(h0, *heap, #[trigger] out@[k], es@[k].0@, es@[k].1)
        } else {
            fresh_text(h0, *heap, #[trigger] out@[k], es@[k].0@)
        } by {
            if entries {
                assert(fresh_pair(h0, hp, out@[k], es@[k].0@, es@[k].1));
                let p = hp.live()[out@[k]->Obj_0.0 as int]->List_0;
                assert(hp.live().dom().contains(p@[0]->Obj_0.0 as int));
            } else {
                assert(fresh_text(h0, hp, out@[k], es@[k].0@));
            }
        }
    }
    Ok(Value::Obj(x))
}

proof fn lemma_grows_trans(a: Heap, b: Heap, c: Heap)
    requires
        grows(a, b),
        b.live().submap_of(c.live()),
    ensures
        grows(a, c),
{
    vstd::map_lib::lemma_submap_of_trans(a.live(), b.live(), c.live());
}

} // verus!

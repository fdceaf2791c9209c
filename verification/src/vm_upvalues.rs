use vstd::prelude::*;
use crate::value::{ObjHandle, Value, PulseError, PulseResult, text};
use crate::object::{Object, Upvalue};
use crate::heap::Heap;
use crate::vm::{VM, VMStatus, status_is_running, stack_below};

verus! {

broadcast use vstd::std_specs::vec::group_vec_axioms;

/// The slot `h` holds an upvalue that still refers to stack slot `loc`.
pub open spec fn open_at(heap: Heap, h: ObjHandle, loc: usize) -> bool {
    &&& heap.live().dom().contains(h.0 as int)
    &&& heap.live()[h.0 as int] matches Object::Upvalue(u)
    &&& u.location == Some(loc)
}

/// The slot `h` holds an open upvalue at stack slot `last` or above.
pub open spec fn closes(heap: Heap, h: ObjHandle, last: usize) -> bool {
    &&& heap.live().dom().contains(h.0 as int)
    &&& heap.live()[h.0 as int] matches Object::Upvalue(u)
    &&& u.location matches Some(loc)
    &&& loc >= last
}

/// The open upvalues that stay open when the slots from `last` up go away.
pub open spec fn still_open(heap: Heap, hs: Seq<ObjHandle>, last: usize) -> Seq<ObjHandle>
    decreases hs.len(),
{
    if hs.len() == 0 {
        hs
    } else {
        let sub = still_open(heap, hs.drop_last(), last);
        if closes(heap, hs.last(), last) { sub } else { sub.push(hs.last()) }
    }
}

/// The value an upvalue at stack slot `loc` closes over.
pub open spec fn slot_value(stack: Seq<Value>, loc: usize) -> Value {
    if loc < stack.len() { stack[loc as int] } else { Value::Unit }
}

/// The upvalue in slot `h` once closed over the stack.
pub open spec fn closed_form(heap: Heap, stack: Seq<Value>, h: ObjHandle) -> Object {
    match heap.live()[h.0 as int] {
        Object::Upvalue(u) => match u.location {
            Some(loc) => Object::Upvalue(Upvalue { location: None, closed: Some(slot_value(stack, loc)) }),
            None => Object::Upvalue(u),
        },
        o => o,
    }
}

/// The heap after closing, over `stack`, the upvalues of `hs` at slot `last`
/// or above: each becomes closed over its slot's value, nothing else changes.
pub open spec fn closed_heap(h0: Heap, h1: Heap, stack: Seq<Value>, hs: Seq<ObjHandle>, last: usize) -> bool {
    &&& h1.live().dom() == h0.live().dom()
    &&& forall|x: int| #[trigger] h1.live().dom().contains(x) ==> h1.live()[x] == (
        if closing_handle(h0, hs, last, x) {
            closed_form(h0, stack, ObjHandle(x as usize))
        } else {
            h0.live()[x]
        })
}

/// One of `hs` is the slot `x` and closes at `last`.
pub open spec fn closing_handle(h0: Heap, hs: Seq<ObjHandle>, last: usize, x: int) -> bool {
    exists|i: int| 0 <= i < hs.len() && #[trigger] hs[i].0 == x && closes(h0, hs[i], last)
}

/// The upvalue the current closure holds at `slot`, with its handle.
pub open spec fn frame_upvalue(vm: VM, slot: usize) -> Option<(ObjHandle, Upvalue)> {
    if vm.frames@.len() > 0 {
        match vm.closure_at(vm.frames@.last().closure) {
            Some(c) => if slot < c.upvalues@.len() {
                let uh = c.upvalues@[slot as int];
                if vm.heap.live().dom().contains(uh.0 as int) {
                    match vm.heap.live()[uh.0 as int] {
                        Object::Upvalue(u) => Some((uh, u)),
                        _ => None,
                    }
                } else {
                    None
                }
            } else {
                None
            },
            None => None,
        }
    } else {
        None
    }
}

/// What reading an upvalue gives: its stack slot's value while open, its
/// own value once closed.
pub open spec fn upvalue_read(stack: Seq<Value>, u: Upvalue) -> Option<Value> {
    match u.location {
        Some(loc) => if loc < stack.len() { Some(stack[loc as int]) } else { None },
        None => u.closed,
    }
}

proof fn lemma_still_open_push(heap: Heap, hs: Seq<ObjHandle>, k: int, last: usize)
    requires
        0 <= k < hs.len(),
    ensures
        still_open(heap, hs.take(k + 1), last) == if closes(heap, hs[k], last) {
            still_open(heap, hs.take(k), last)
        } else {
            still_open(heap, hs.take(k), last).push(hs[k])
        },
{
    assert(hs.take(k + 1).drop_last() =~= hs.take(k));
}

impl VM {
    /// The open upvalue for stack slot `local_idx`: the one already open
    /// there (the first in `open_upvalues`), or a new one, which joins
    /// `open_upvalues`.
    pub(crate) fn capture_upvalue(&mut self, local_idx: usize) -> (r: ObjHandle)
        requires
            old(self).wf(),
        ensures
            final(self).wf(),
            final(self).stack == old(self).stack,
            final(self).frames == old(self).frames,
            final(self).globals == old(self).globals,
            final(self).builtins == old(self).builtins,
            final(self).global_cache == old(self).global_cache,
            final(self).loaded_modules == old(self).loaded_modules,
            final(self).exception_frames == old(self).exception_frames,
            final(self).pid == old(self).pid,
            final(self).debug_ctx == old(self).debug_ctx,
            open_at(final(self).heap, r, local_idx),
            (exists|i: int| 0 <= i < old(self).open_upvalues@.len() && open_at(old(self).heap, #[trigger] old(self).open_upvalues@[i], local_idx)) ==> ({
                &&& final(self).heap == old(self).heap
                &&& final(self).open_upvalues == old(self).open_upvalues
                &&& exists|i: int| 0 <= i < old(self).open_upvalues@.len() && old(self).open_upvalues@[i] == r
                    && (forall|j: int| 0 <= j < i ==> !open_at(old(self).heap, #[trigger] old(self).open_upvalues@[j], local_idx))
            }),
            !(exists|i: int| 0 <= i < old(self).open_upvalues@.len() && open_at(old(self).heap, #[trigger] old(self).open_upvalues@[i], local_idx)) ==> ({
                &&& crate::vm::allocated(old(self).heap, final(self).heap, r, Object::Upvalue(Upvalue { location: Some(local_idx), closed: None }))
                &&& final(self).open_upvalues@ == old(self).open_upvalues@.push(r)
            }),
    {
        let mut i: usize = 0;
        while i < self.open_upvalues.len()
            invariant
                self.wf(),
                *self == *old(self),
                i <= self.open_upvalues@.len(),
                forall|j: int| 0 <= j < i ==> !open_at(self.heap, #[trigger] self.open_upvalues@[j], local_idx),
            decreases self.open_upvalues@.len() - i,
        {
            let h = self.open_upvalues[i];
            let found = match self.heap.get(h) {
                Some(Object::Upvalue(uv)) => match uv.location {
                    Some(loc) => loc == local_idx,
                    None => false,
                },
                _ => false,
            };
            if found {
                return h;
            }
            i = i + 1;
        }
        let ghost h0 = self.heap;
        let h = self.heap.allocate(Object::Upvalue(Upvalue { location: Some(local_idx), closed: None }));
        proof {
            h0.lemma_wf();
            assert forall|j: int| 0 <= j < self.open_upvalues@.len() implies self.open_upvalues@[j] != h by {
                assert(h0.live().dom().contains(self.open_upvalues@[j].0 as int));
            }
        }
        self.open_upvalues.push(h);
        proof {
            assert forall|a: int, b: int| 0 <= a < b < self.open_upvalues@.len() implies self.open_upvalues@[a] != self.open_upvalues@[b] by {
                if b < old(self).open_upvalues@.len() {
                    assert(old(self).open_upvalues@.no_duplicates());
                }
            }
        }
        h
    }

    /// Closes the open upvalues at stack slot `last_idx` or above: each takes
    /// the value of its slot and leaves `open_upvalues`, whose order stays.
    pub(crate) fn close_upvalues(&mut self, last_idx: usize)
        requires
            old(self).wf(),
        ensures
            final(self).wf(),
            final(self).stack == old(self).stack,
            final(self).frames == old(self).frames,
            final(self).globals == old(self).globals,
            final(self).builtins == old(self).builtins,
            final(self).global_cache == old(self).global_cache,
            final(self).loaded_modules == old(self).loaded_modules,
            final(self).exception_frames == old(self).exception_frames,
            final(self).pid == old(self).pid,
            final(self).debug_ctx == old(self).debug_ctx,
            final(self).open_upvalues@ == still_open(old(self).heap, old(self).open_upvalues@, last_idx),
            closed_heap(old(self).heap, final(self).heap, old(self).stack@, old(self).open_upvalues@, last_idx),
            final(self).heap.bytes() == old(self).heap.bytes(),
            final(self).heap.gc_threshold() == old(self).heap.gc_threshold(),
    {
        let ghost hs0 = self.open_upvalues@;
        let ghost h0 = self.heap;
        let mut i: usize = 0;
        let ghost mut k: int = 0;
        proof {
            assert(hs0.take(0) =~= Seq::<ObjHandle>::empty());
        }
        while i < self.open_upvalues.len()
            invariant
                self.wf(),
                0 <= k <= hs0.len(),
                hs0.no_duplicates(),
                hs0 == old(self).open_upvalues@,
                h0 == old(self).heap,
                self.stack == old(self).stack,
                self.frames == old(self).frames,
                self.globals == old(self).globals,
                self.builtins == old(self).builtins,
                self.global_cache == old(self).global_cache,
                self.loaded_modules == old(self).loaded_modules,
                self.exception_frames == old(self).exception_frames,
                self.pid == old(self).pid,
                self.debug_ctx == old(self).debug_ctx,
                self.heap.bytes() == h0.bytes(),
                self.heap.gc_threshold() == h0.gc_threshold(),
                self.open_upvalues@ == still_open(h0, hs0.take(k), last_idx) + hs0.skip(k),
                i == still_open(h0, hs0.take(k), last_idx).len(),
                closed_heap(h0, self.heap, old(self).stack@, hs0.take(k), last_idx),
            decreases hs0.len() - k,
        {
            proof {
                assert(self.open_upvalues@[i as int] == hs0[k]);
            }
            let h = self.open_upvalues[i];
            let ghost hp = self.heap;
            proof {
                self.heap.lemma_wf();
                // slots not yet visited still hold what they held
                if h0.live().dom().contains(h.0 as int) {
                    assert(self.heap.live().dom().contains(h.0 as int));
                    if closing_handle(h0, hs0.take(k), last_idx, h.0 as int) {
                        let j = choose|j: int| 0 <= j < hs0.take(k).len() && #[trigger] hs0.take(k)[j].0 == h.0 as int && closes(h0, hs0.take(k)[j], last_idx);
                        assert(hs0[j] == hs0[k]);
                    }
                    assert(self.heap.live()[h.0 as int] == h0.live()[h.0 as int]);
                }
            }
            let close_loc: Option<usize> = match self.heap.get(h) {
                Some(Object::Upvalue(uv)) => match uv.location {
                    Some(loc) => if loc >= last_idx { Some(loc) } else { None },
                    None => None,
                },
                _ => None,
            };
            match close_loc {
                Some(loc) => {
                    let value = if loc < self.stack.len() { self.stack[loc] } else { Value::Unit };
                    self.open_upvalues.remove(i);
                    let _ = self.heap.replace(h, Object::Upvalue(Upvalue { location: None, closed: Some(value) }));
                    proof {
                        lemma_still_open_push(h0, hs0, k, last_idx);
                        assert(closes(h0, hs0[k], last_idx));
                        assert(hs0.skip(k) =~= seq![hs0[k]] + hs0.skip(k + 1));
                        assert(self.open_upvalues@ =~= still_open(h0, hs0.take(k + 1), last_idx) + hs0.skip(k + 1));
                        assert forall|x: int| #[trigger] self.heap.live().dom().contains(x) implies self.heap.live()[x] == (
                            if closing_handle(h0, hs0.take(k + 1), last_idx, x) {
                                closed_form(h0, old(self).stack@, ObjHandle(x as usize))
                            } else {
                                h0.live()[x]
                            }) by {
                            if x == h.0 as int {
                                assert(hs0.take(k + 1)[k] == hs0[k]);
                            } else {
                                assert(hp.live().dom().contains(x));
                                if closing_handle(h0, hs0.take(k + 1), last_idx, x) {
                                    let j = choose|j: int| 0 <= j < hs0.take(k + 1).len() && #[trigger] hs0.take(k + 1)[j].0 == x && closes(h0, hs0.take(k + 1)[j], last_idx);
                                    assert(j != k);
                                    assert(hs0.take(k)[j] == hs0[j]);
                                } else {
                                    assert forall|j: int| 0 <= j < hs0.take(k).len() && #[trigger] hs0.take(k)[j].0 == x implies !closes(h0, hs0.take(k)[j], last_idx) by {
                                        assert(hs0.take(k + 1)[j] == hs0.take(k)[j]);
                                    }
                                }
                            }
                        }
                        assert(self.heap.live().dom() =~= h0.live().dom());
                        k = k + 1;
                    }
                },
                None => {
                    i = i + 1;
                    proof {
                        lemma_still_open_push(h0, hs0, k, last_idx);
                        assert(!closes(h0, hs0[k], last_idx));
                        assert(hs0.skip(k) =~= seq![hs0[k]] + hs0.skip(k + 1));
                        assert(self.open_upvalues@ =~= still_open(h0, hs0.take(k + 1), last_idx) + hs0.skip(k + 1));
                        assert forall|x: int| #[trigger] self.heap.live().dom().contains(x) implies self.heap.live()[x] == (
                            if closing_handle(h0, hs0.take(k + 1), last_idx, x) {
                                closed_form(h0, old(self).stack@, ObjHandle(x as usize))
                            } else {
                                h0.live()[x]
                            }) by {
                            if closing_handle(h0, hs0.take(k + 1), last_idx, x) {
                                let j = choose|j: int| 0 <= j < hs0.take(k + 1).len() && #[trigger] hs0.take(k + 1)[j].0 == x && closes(h0, hs0.take(k + 1)[j], last_idx);
                                assert(j != k);
                                assert(hs0.take(k)[j] == hs0[j]);
                            } else {
                                assert forall|j: int| 0 <= j < hs0.take(k).len() && #[trigger] hs0.take(k)[j].0 == x implies !closes(h0, hs0.take(k)[j], last_idx) by {
                                    assert(hs0.take(k + 1)[j] == hs0.take(k)[j]);
                                }
                            }
                        }
                        k = k + 1;
                    }
                },
            }
            proof {
                // what stays in the list keeps no duplicates
                let cur = self.open_upvalues@;
                assert forall|a: int, b: int| 0 <= a < b < cur.len() implies cur[a] != cur[b] by {
                    lemma_still_open_sub(h0, hs0.take(k), last_idx);
                    let p = still_open(h0, hs0.take(k), last_idx);
                    if b < p.len() {
                        lemma_still_open_distinct(h0, hs0.take(k), last_idx);
                    } else if a < p.len() {
                        let ia = choose|t: int| 0 <= t < k && hs0.take(k)[t] == p[a];
                        assert(cur[b] == hs0[k + (b - p.len())]);
                        assert(hs0[ia] == hs0.take(k)[ia]);
                    } else {
                        assert(cur[a] == hs0[k + (a - p.len())]);
                        assert(cur[b] == hs0[k + (b - p.len())]);
                    }
                }
            }
        }
        proof {
            assert(i == self.open_upvalues@.len());
            if k < hs0.len() {
                assert(hs0.skip(k).len() > 0);
            }
            assert(hs0.take(k) =~= hs0);
            assert(hs0.skip(k) =~= Seq::<ObjHandle>::empty());
            assert(self.open_upvalues@ =~= still_open(h0, hs0, last_idx));
        }
    }
}

/// Every handle kept open is one of the handles given.
proof fn lemma_still_open_sub(heap: Heap, hs: Seq<ObjHandle>, last: usize)
    ensures
        forall|a: int| 0 <= a < still_open(heap, hs, last).len() ==> exists|t: int| 0 <= t < hs.len() && hs[t] == #[trigger] still_open(heap, hs, last)[a],
        still_open(heap, hs, last).len() <= hs.len(),
    decreases hs.len(),
{
    if hs.len() > 0 {
        lemma_still_open_sub(heap, hs.drop_last(), last);
        let sub = still_open(heap, hs.drop_last(), last);
        assert forall|a: int| 0 <= a < still_open(heap, hs, last).len() implies exists|t: int| 0 <= t < hs.len() && hs[t] == #[trigger] still_open(heap, hs, last)[a] by {
            if a < sub.len() {
                let t = choose|t: int| 0 <= t < hs.drop_last().len() && hs.drop_last()[t] == #[trigger] sub[a];
                assert(hs[t] == hs.drop_last()[t]);
            } else {
                assert(hs[hs.len() - 1] == still_open(heap, hs, last)[a]);
            }
        }
    }
}

/// Distinct handles stay distinct.
proof fn lemma_still_open_distinct(heap: Heap, hs: Seq<ObjHandle>, last: usize)
    requires
        hs.no_duplicates(),
    ensures
        still_open(heap, hs, last).no_duplicates(),
    decreases hs.len(),
{
    if hs.len() > 0 {
        assert(hs.drop_last().no_duplicates());
        lemma_still_open_distinct(heap, hs.drop_last(), last);
        lemma_still_open_sub(heap, hs.drop_last(), last);
        let sub = still_open(heap, hs.drop_last(), last);
        assert forall|a: int| 0 <= a < sub.len() implies sub[a] != hs.last() by {
            let t = choose|t: int| 0 <= t < hs.drop_last().len() && hs.drop_last()[t] == #[trigger] sub[a];
            assert(hs[t] == hs.drop_last()[t]);
        }
    }
}

impl VM {
    /// The upvalue the current closure holds at `slot`.
    fn frame_upvalue_exec(&self, slot: usize) -> (r: PulseResult<(ObjHandle, Upvalue)>)
        requires
            self.wf(),
        ensures
            match r {
                Ok(p) => frame_upvalue(*self, slot) == Some(p),
                Err(e) => frame_upvalue(*self, slot) is None && e is RuntimeError,
            },
    {
        if self.frames.len() == 0 {
            return Err(PulseError::RuntimeError(text("No frame")));
        }
        let ch = self.frames[self.frames.len() - 1].closure;
        let uh = match self.heap.get(ch) {
            Some(Object::Closure(c)) => {
                if slot < c.upvalues.len() {
                    c.upvalues[slot]
                } else {
                    return Err(PulseError::RuntimeError(text("Invalid upvalue")));
                }
            },
            _ => {
                return Err(PulseError::RuntimeError(text("No closure in frame")));
            },
        };
        match self.heap.get(uh) {
            Some(Object::Upvalue(u)) => Ok((uh, *u)),
            _ => Err(PulseError::RuntimeError(text("Invalid upvalue"))),
        }
    }

    /// What `op_get_upvalue` does, from `before` to `after`, giving `r`.
    pub open spec fn get_upvalue_effect(before: VM, after: VM, r: PulseResult<VMStatus>, slot: usize) -> bool {
        &&& (crate::vm::env_eq(after, before))
        &&& (after.heap == before.heap)
        &&& (match frame_upvalue(before, slot) {
                Some((_, u)) => match upvalue_read(before.stack@, u) {
                    Some(v) => status_is_running(r) && after.stack@ == before.stack@.push(v),
                    None => crate::value::is_runtime_error(r),
                },
                None => crate::value::is_runtime_error(r),
            })
    }

    /// `GetUpvalue slot`: pushes the value of the current closure's upvalue
    /// `slot`: its stack slot while open, its own value once closed.
    pub(crate) fn op_get_upvalue(&mut self, slot: usize) -> (r: PulseResult<VMStatus>)
        requires
            old(self).wf(),
        ensures
            final(self).wf(),
            crate::vm::env_eq(*final(self), *old(self)),
            final(self).heap == old(self).heap,
            match frame_upvalue(*old(self), slot) {
                Some((_, u)) => match upvalue_read(old(self).stack@, u) {
                    Some(v) => status_is_running(r) && final(self).stack@ == old(self).stack@.push(v),
                    None => crate::value::is_runtime_error(r),
                },
                None => crate::value::is_runtime_error(r),
            },
    {
        let (_, u) = self.frame_upvalue_exec(slot)?;
        let v = match u.location {
            Some(loc) => {
                if loc < self.stack.len() {
                    self.stack[loc]
                } else {
                    return Err(PulseError::RuntimeError(text("Upvalue slot out of range")));
                }
            },
            None => match u.closed {
                Some(v) => v,
                None => {
                    return Err(PulseError::RuntimeError(text("Closed upvalue missing value")));
                },
            },
        };
        self.stack.push(v);
        Ok(VMStatus::Running)
    }

    /// What `op_set_upvalue` does, from `before` to `after`, giving `r`.
    pub open spec fn set_upvalue_effect(before: VM, after: VM, r: PulseResult<VMStatus>, slot: usize) -> bool {
        &&& (crate::vm::env_eq(after, before))
        &&& (before.stack@.len() == 0 ==> crate::value::is_stack_underflow(r))
        &&& (before.stack@.len() > 0 ==> match frame_upvalue(before, slot) {
                Some((uh, u)) => match u.location {
                    Some(loc) => if loc < before.stack@.len() {
                        &&& status_is_running(r)
                        &&& after.stack@ == before.stack@.update(loc as int, before.stack@.last())
                        &&& after.heap == before.heap
                    } else {
                        crate::value::is_runtime_error(r)
                    },
                    None => {
                        &&& status_is_running(r)
                        &&& after.stack == before.stack
                        &&& crate::vm::updated_obj(before.heap, after.heap, uh)
                        &&& after.heap.live()[uh.0 as int] == Object::Upvalue(Upvalue { location: None, closed: Some(before.stack@.last()) })
                    },
                },
                None => crate::value::is_runtime_error(r),
            })
    }

    /// `SetUpvalue slot`: stores the top of the stack, which stays, in the
    /// current closure's upvalue `slot`: in its stack slot while open, in the
    /// upvalue once closed.
    pub(crate) fn op_set_upvalue(&mut self, slot: usize) -> (r: PulseResult<VMStatus>)
        requires
            old(self).wf(),
        ensures
            final(self).wf(),
            crate::vm::env_eq(*final(self), *old(self)),
            old(self).stack@.len() == 0 ==> crate::value::is_stack_underflow(r),
            old(self).stack@.len() > 0 ==> match frame_upvalue(*old(self), slot) {
                Some((uh, u)) => match u.location {
                    Some(loc) => if loc < old(self).stack@.len() {
                        &&& status_is_running(r)
                        &&& final(self).stack@ == old(self).stack@.update(loc as int, old(self).stack@.last())
                        &&& final(self).heap == old(self).heap
                    } else {
                        crate::value::is_runtime_error(r)
                    },
                    None => {
                        &&& status_is_running(r)
                        &&& final(self).stack == old(self).stack
                        &&& crate::vm::updated_obj(old(self).heap, final(self).heap, uh)
                        &&& final(self).heap.live()[uh.0 as int] == Object::Upvalue(Upvalue { location: None, closed: Some(old(self).stack@.last()) })
                    },
                },
                None => crate::value::is_runtime_error(r),
            },
    {
        if self.stack.len() == 0 {
            return Err(PulseError::StackUnderflow);
        }
        let val = self.stack[self.stack.len() - 1];
        let (uh, u) = self.frame_upvalue_exec(slot)?;
        match u.location {
            Some(loc) => {
                if loc < self.stack.len() {
                    self.stack.set(loc, val);
                } else {
                    return Err(PulseError::RuntimeError(text("Upvalue slot out of range")));
                }
            },
            None => {
                let ghost h0 = self.heap;
                let _ = self.heap.replace(uh, Object::Upvalue(Upvalue { location: None, closed: Some(val) }));
                proof {
                    assert(self.heap.live() =~= h0.live().insert(uh.0 as int, self.heap.live()[uh.0 as int]));
                }
            },
        }
        Ok(VMStatus::Running)
    }

    /// What `op_close_upvalue` does, from `before` to `after`, giving `r`.
    pub open spec fn close_upvalue_effect(before: VM, after: VM, r: PulseResult<VMStatus>) -> bool {
        &&& (after.frames == before.frames)
        &&& (after.globals == before.globals)
        &&& (after.builtins == before.builtins)
        &&& (after.exception_frames == before.exception_frames)
        &&& (after.pid == before.pid)
        &&& (before.stack@.len() == 0 ==> crate::value::is_stack_underflow(r) && after.heap == before.heap)
        &&& (before.stack@.len() > 0 ==> ({
                let last = (before.stack@.len() - 1) as usize;
                &&& status_is_running(r)
                &&& after.stack@ == before.stack@.drop_last()
                &&& after.open_upvalues@ == still_open(before.heap, before.open_upvalues@, last)
                &&& closed_heap(before.heap, after.heap, before.stack@, before.open_upvalues@, last)
            }))
    }

    /// `CloseUpvalue`: closes the upvalues at the top slot or above, then
    /// pops it.
    pub(crate) fn op_close_upvalue(&mut self) -> (r: PulseResult<VMStatus>)
        requires
            old(self).wf(),
        ensures
            final(self).wf(),
            final(self).frames == old(self).frames,
            final(self).globals == old(self).globals,
            final(self).builtins == old(self).builtins,
            final(self).exception_frames == old(self).exception_frames,
            final(self).pid == old(self).pid,
            old(self).stack@.len() == 0 ==> crate::value::is_stack_underflow(r) && final(self).heap == old(self).heap,
            old(self).stack@.len() > 0 ==> ({
                let last = (old(self).stack@.len() - 1) as usize;
                &&& status_is_running(r)
                &&& final(self).stack@ == old(self).stack@.drop_last()
                &&& final(self).open_upvalues@ == still_open(old(self).heap, old(self).open_upvalues@, last)
                &&& closed_heap(old(self).heap, final(self).heap, old(self).stack@, old(self).open_upvalues@, last)
            }),
    {
        if self.stack.len() == 0 {
            return Err(PulseError::StackUnderflow);
        }
        let last = self.stack.len() - 1;
        self.close_upvalues(last);
        let _ = self.stack.pop();
        Ok(VMStatus::Running)
    }
}

} // verus!

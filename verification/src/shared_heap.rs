use vstd::prelude::*;
use crate::value::Value;
use crate::object::{Object, SharedMemory, size_estimate};

verus! {

/// Handle to an object in the shared heap.
#[derive(Clone, Copy, Debug, PartialEq, Eq, Structural, Hash)]
pub struct SharedHandle(pub usize);

/// A heap for objects that several actors reach by handle: chiefly
/// shared-memory cells that are read, written and locked in place.
/// Slots are never freed.
pub struct SharedHeap {
    entries: Vec<Object>,
    bytes_allocated: usize,
    next_gc: usize,
}

/// The shared-memory cell in a slot, if the slot holds one.
pub open spec fn cell_of(objs: Seq<Object>, h: SharedHandle) -> Option<SharedMemory> {
    if h.0 < objs.len() {
        match objs[h.0 as int] {
            Object::SharedMemory(sm) => Some(sm),
            _ => None,
        }
    } else {
        None
    }
}

impl SharedHeap {
    /// The objects, by slot.
    pub closed spec fn objects(&self) -> Seq<Object> {
        self.entries@
    }

    pub closed spec fn bytes(&self) -> usize {
        self.bytes_allocated
    }

    pub closed spec fn gc_threshold(&self) -> usize {
        self.next_gc
    }

    /// The shared-memory cell at `h`, if there is one.
    pub open spec fn cell(&self, h: SharedHandle) -> Option<SharedMemory> {
        cell_of(self.objects(), h)
    }

    pub fn new() -> (r: SharedHeap)
        ensures
            r.objects().len() == 0,
            r.bytes() == 0,
            r.gc_threshold() == 1024 * 1024,
    {
        SharedHeap { entries: Vec::with_capacity(1024), bytes_allocated: 0, next_gc: 1024 * 1024 }
    }

    /// Stores `object` in a new slot. A shared-memory cell counts 64 bytes.
    pub fn allocate(&mut self, object: Object) -> (h: SharedHandle)
        ensures
            h.0 == old(self).objects().len(),
            final(self).objects() == old(self).objects().push(object),
            final(self).bytes() as int == if old(self).bytes() + size_estimate(object, 64) <= usize::MAX {
                old(self).bytes() + size_estimate(object, 64)
            } else {
                usize::MAX as int
            },
            final(self).gc_threshold() == old(self).gc_threshold(),
    {
        let size = self.estimate_size(&object);
        let idx = self.entries.len();
        self.entries.push(object);
        self.bytes_allocated = self.bytes_allocated.saturating_add(size);
        SharedHandle(idx)
    }

    fn estimate_size(&self, object: &Object) -> (r: usize)
        ensures
            r == size_estimate(*object, 64),
    {
        object.estimate_size(64)
    }

    /// A copy of the shared-memory cell at `handle`; `None` when the handle
    /// is out of range or the slot holds another kind of object.
    pub fn get(&self, handle: SharedHandle) -> (r: Option<SharedMemory>)
        ensures
            r == self.cell(handle),
    {
        if handle.0 < self.entries.len() {
            match &self.entries[handle.0] {
                Object::SharedMemory(sm) => {
                    acquire_fence_now();
                    Some(*sm)
                },
                _ => None,
            }
        } else {
            None
        }
    }

    /// The same as `get`: a copy of the cell, which `set` updates.
    pub fn get_mut(&self, handle: SharedHandle) -> (r: Option<SharedMemory>)
        ensures
            r == self.cell(handle),
    {
        if handle.0 < self.entries.len() {
            match &self.entries[handle.0] {
                Object::SharedMemory(sm) => Some(*sm),
                _ => None,
            }
        } else {
            None
        }
    }

    /// Writes `value` into the cell at `handle`; false, and no change, when
    /// there is no cell there.
    pub fn set(&mut self, handle: SharedHandle, value: Value) -> (ok: bool)
        ensures
            ok == (old(self).cell(handle) is Some),
            ok ==> final(self).objects() == old(self).objects().update(
                handle.0 as int,
                Object::SharedMemory(SharedMemory { value, locked: old(self).cell(handle)->Some_0.locked }),
            ),
            !ok ==> final(self).objects() == old(self).objects(),
            final(self).bytes() == old(self).bytes(),
            final(self).gc_threshold() == old(self).gc_threshold(),
    {
        if handle.0 < self.entries.len() {
            let locked = match &self.entries[handle.0] {
                Object::SharedMemory(sm) => sm.locked,
                _ => {
                    return false;
                },
            };
            self.entries.set(handle.0, Object::SharedMemory(SharedMemory { value, locked }));
            release_fence_now();
            return true;
        }
        false
    }

    /// Takes the cell's lock: true when it was free (and is now held), false
    /// when it was already held or there is no cell at `handle`.
    pub fn try_lock(&mut self, handle: SharedHandle) -> (ok: bool)
        ensures
            ok == (old(self).cell(handle) matches Some(sm) && !sm.locked),
            ok ==> final(self).objects() == old(self).objects().update(
                handle.0 as int,
                Object::SharedMemory(SharedMemory { value: old(self).cell(handle)->Some_0.value, locked: true }),
            ),
            !ok ==> final(self).objects() == old(self).objects(),
            final(self).bytes() == old(self).bytes(),
            final(self).gc_threshold() == old(self).gc_threshold(),
    {
        if handle.0 < self.entries.len() {
            let (value, locked) = match &self.entries[handle.0] {
                Object::SharedMemory(sm) => (sm.value, sm.locked),
                _ => {
                    return false;
                },
            };
            if !locked {
                self.entries.set(handle.0, Object::SharedMemory(SharedMemory { value, locked: true }));
                return true;
            }
        }
        false
    }

    /// Releases the cell's lock; true when there is a cell at `handle`.
    pub fn unlock(&mut self, handle: SharedHandle) -> (ok: bool)
        ensures
            ok == (old(self).cell(handle) is Some),
            ok ==> final(self).objects() == old(self).objects().update(
                handle.0 as int,
                Object::SharedMemory(SharedMemory { value: old(self).cell(handle)->Some_0.value, locked: false }),
            ),
            !ok ==> final(self).objects() == old(self).objects(),
            final(self).bytes() == old(self).bytes(),
            final(self).gc_threshold() == old(self).gc_threshold(),
    {
        if handle.0 < self.entries.len() {
            let value = match &self.entries[handle.0] {
                Object::SharedMemory(sm) => sm.value,
                _ => {
                    return false;
                },
            };
            self.entries.set(handle.0, Object::SharedMemory(SharedMemory { value, locked: false }));
            return true;
        }
        false
    }

    pub fn get_allocation_stats(&self) -> (r: (usize, usize))
        ensures
            r == (self.bytes(), self.gc_threshold()),
    {
        (self.bytes_allocated, self.next_gc)
    }

    /// Acquire fence: later reads see the writes before the matching release.
    pub fn acquire_fence(&self) {
        acquire_fence_now();
    }

    /// Release fence: earlier writes become visible to later acquires.
    pub fn release_fence(&self) {
        release_fence_now();
    }

    /// Sequentially consistent fence: a full memory barrier.
    pub fn seqcst_fence(&self) {
        seqcst_fence_now();
    }
}

/// `std::sync::atomic::fence` with acquire ordering; no value to state.
#[verifier::external_body]
fn acquire_fence_now() {
    std::sync::atomic::fence(std::sync::atomic::Ordering::Acquire);
}

/// `std::sync::atomic::fence` with release ordering; no value to state.
#[verifier::external_body]
fn release_fence_now() {
    std::sync::atomic::fence(std::sync::atomic::Ordering::Release);
}

/// `std::sync::atomic::fence` with sequentially consistent ordering.
#[verifier::external_body]
fn seqcst_fence_now() {
    std::sync::atomic::fence(std::sync::atomic::Ordering::SeqCst);
}

/// A new, empty shared heap. Callers that share it between threads put it
/// behind a lock.
pub fn create_shared_heap() -> (r: SharedHeap)
    ensures
        r.objects().len() == 0,
        r.bytes() == 0,
{
    SharedHeap::new()
}

/// A read after a write gives back what was written, and the lock flag is
/// untouched by the write.
pub proof fn law_shared_set_then_get(before: SharedHeap, after: SharedHeap, h: SharedHandle, v: Value)
    requires
        before.cell(h) is Some,
        after.objects() == before.objects().update(
            h.0 as int,
            Object::SharedMemory(SharedMemory { value: v, locked: before.cell(h)->Some_0.locked }),
        ),
    ensures
        after.cell(h) == Some(SharedMemory { value: v, locked: before.cell(h)->Some_0.locked }),
        forall|g: SharedHandle| g != h ==> after.cell(g) == before.cell(g),
{
}

/// A lock taken by `try_lock` makes a second `try_lock` fail; `unlock`
/// frees it again.
pub proof fn law_shared_lock_exclusive(before: SharedHeap, after: SharedHeap, h: SharedHandle)
    requires
        before.cell(h) is Some,
        after.objects() == before.objects().update(
            h.0 as int,
            Object::SharedMemory(SharedMemory { value: before.cell(h)->Some_0.value, locked: true }),
        ),
    ensures
        after.cell(h) matches Some(sm) && sm.locked,
        after.cell(h)->Some_0.value == before.cell(h)->Some_0.value,
{
}

/// After `unlock` the cell is free, so the next `try_lock` succeeds.
pub proof fn law_shared_unlock_frees(before: SharedHeap, after: SharedHeap, h: SharedHandle)
    requires
        before.cell(h) is Some,
        after.objects() == before.objects().update(
            h.0 as int,
            Object::SharedMemory(SharedMemory { value: before.cell(h)->Some_0.value, locked: false }),
        ),
    ensures
        after.cell(h) matches Some(sm) && !sm.locked,
{
}

} // verus!

use vstd::prelude::*;
use crate::value::{ActorId, ObjHandle, Value, PulseError, PulseResult, text};
use crate::bytecode::Constant;
use crate::object::{Object, SharedMemory};
use crate::heap::Heap;
use crate::text::{push_str, i64_to_string, usize_to_string, u64_digits, string_from_chars, int_text, nat_digits};
use crate::vm::{VM, VMStatus, FloatOp, status_is_running, stack_below, object_of, allocated, env_eq, updated_obj, heap_string};

verus! {

broadcast use vstd::std_specs::vec::group_vec_axioms;

/// The shared cell a value refers to.
pub open spec fn shared_of(h: Heap, v: Value) -> Option<SharedMemory> {
    match object_of(h, v) {
        Some(Object::SharedMemory(s)) => Some(s),
        _ => None,
    }
}

/// `msg` is what a send of `v` carries: primitives as they are, a string
/// by its text.
pub open spec fn message_of(h: Heap, v: Value, msg: Constant) -> bool {
    match v {
        Value::Bool(b) => msg == Constant::Bool(b),
        Value::Int(i) => msg == Constant::Int(i),
        Value::Float(f) => msg == Constant::Float(f),
        Value::Unit => msg == Constant::Unit,
        Value::Pid(_) => false,
        Value::Obj(handle) => match heap_string(h, handle) {
            Some(t) => msg matches Constant::String(s) && s@ == t,
            None => false,
        },
    }
}

/// A value that can be sent: a primitive other than a pid, or a string.
pub open spec fn sendable(h: Heap, v: Value) -> bool {
    match v {
        Value::Pid(_) => false,
        Value::Obj(handle) => heap_string(h, handle) is Some,
        _ => true,
    }
}

impl VM {
    /// The shared cell in slot `handle`.
    fn shared_cell(&self, v: Value) -> (r: PulseResult<(ObjHandle, SharedMemory)>)
        requires
            self.wf(),
        ensures
            match r {
                Ok((h, s)) => v == Value::Obj(h) && shared_of(self.heap, v) == Some(s),
                Err(e) => shared_of(self.heap, v) is None && (if v is Obj && self.heap.live().dom().contains(v->Obj_0.0 as int) {
                    e is TypeMismatch
                } else if v is Obj {
                    e is RuntimeError
                } else {
                    e is TypeMismatch
                }),
            },
    {
        let handle = match v {
            Value::Obj(h) => h,
            _ => {
                return Err(PulseError::TypeMismatch { expected: text("shared memory reference"), got: v.kind_name() });
            },
        };
        match self.heap.get(handle) {
            Some(Object::SharedMemory(s)) => Ok((handle, *s)),
            Some(_) => Err(PulseError::TypeMismatch { expected: text("shared memory"), got: text("other object") }),
            None => Err(PulseError::RuntimeError(text("Invalid shared memory handle"))),
        }
    }

    /// What `op_create_shared` does, from `before` to `after`, giving `r`.
    pub open spec fn create_shared_effect(before: VM, after: VM, r: PulseResult<VMStatus>) -> bool {
        &&& (env_eq(after, before))
        &&& (before.stack@.len() == 0 ==> crate::value::is_stack_underflow(r) && after.heap == before.heap)
        &&& (before.stack@.len() > 0 ==> ({
                &&& status_is_running(r)
                &&& after.stack@.drop_last() == before.stack@.drop_last()
                &&& after.stack@.len() == before.stack@.len()
                &&& after.stack@.last() matches Value::Obj(h)
                &&& allocated(before.heap, after.heap, h, Object::SharedMemory(SharedMemory { value: before.stack@.last(), locked: false }))
            }))
    }

    /// `CreateSharedMemory`: replaces the top value with a new unlocked
    /// shared cell holding it.
    pub(crate) fn op_create_shared(&mut self) -> (r: PulseResult<VMStatus>)
        requires
            old(self).wf(),
        ensures
            final(self).wf(),
            env_eq(*final(self), *old(self)),
            old(self).stack@.len() == 0 ==> crate::value::is_stack_underflow(r) && final(self).heap == old(self).heap,
            old(self).stack@.len() > 0 ==> ({
                &&& status_is_running(r)
                &&& final(self).stack@.drop_last() == old(self).stack@.drop_last()
                &&& final(self).stack@.len() == old(self).stack@.len()
                &&& final(self).stack@.last() matches Value::Obj(h)
                &&& allocated(old(self).heap, final(self).heap, h, Object::SharedMemory(SharedMemory { value: old(self).stack@.last(), locked: false }))
            }),
    {
        let v = self.pop()?;
        let h = self.heap.allocate(Object::SharedMemory(SharedMemory { value: v, locked: false }));
        self.stack.push(Value::Obj(h));
        Ok(VMStatus::Running)
    }

    /// What `op_read_shared` does, from `before` to `after`, giving `r`.
    pub open spec fn read_shared_effect(before: VM, after: VM, r: PulseResult<VMStatus>) -> bool {
        &&& (env_eq(after, before))
        &&& (after.heap == before.heap)
        &&& (before.stack@.len() == 0 ==> crate::value::is_stack_underflow(r))
        &&& (before.stack@.len() > 0 ==> match shared_of(before.heap, before.stack@.last()) {
                Some(s) => status_is_running(r) && after.stack@ == before.stack@.drop_last().push(s.value),
                None => r is Err,
            })
    }

    /// `ReadSharedMemory`: replaces a shared cell with the value it holds.
    pub(crate) fn op_read_shared(&mut self) -> (r: PulseResult<VMStatus>)
        requires
            old(self).wf(),
        ensures
            final(self).wf(),
            env_eq(*final(self), *old(self)),
            final(self).heap == old(self).heap,
            old(self).stack@.len() == 0 ==> crate::value::is_stack_underflow(r),
            old(self).stack@.len() > 0 ==> match shared_of(old(self).heap, old(self).stack@.last()) {
                Some(s) => status_is_running(r) && final(self).stack@ == old(self).stack@.drop_last().push(s.value),
                None => r is Err,
            },
    {
        let v = self.pop()?;
        let (_, s) = self.shared_cell(v)?;
        self.stack.push(s.value);
        Ok(VMStatus::Running)
    }

    /// What `op_write_shared` does, from `before` to `after`, giving `r`.
    pub open spec fn write_shared_effect(before: VM, after: VM, r: PulseResult<VMStatus>) -> bool {
        &&& (env_eq(after, before))
        &&& (before.stack@.len() < 2 ==> r is Err && after.heap == before.heap)
        &&& (before.stack@.len() >= 2 ==> ({
                let cell = before.stack@[before.stack@.len() - 2];
                let val = before.stack@.last();
                match shared_of(before.heap, cell) {
                    Some(s) => {
                        &&& status_is_running(r)
                        &&& after.stack@ == stack_below(before.stack@, 2).push(val)
                        &&& updated_obj(before.heap, after.heap, cell->Obj_0)
                        &&& after.heap.live()[cell->Obj_0.0 as int] == Object::SharedMemory(SharedMemory { value: val, locked: s.locked })
                    },
                    None => r is Err && after.heap == before.heap,
                }
            }))
    }

    /// `WriteSharedMemory`: pops a value and a shared cell, stores the value
    /// in the cell and pushes it.
    pub(crate) fn op_write_shared(&mut self) -> (r: PulseResult<VMStatus>)
        requires
            old(self).wf(),
        ensures
            final(self).wf(),
            env_eq(*final(self), *old(self)),
            old(self).stack@.len() < 2 ==> r is Err && final(self).heap == old(self).heap,
            old(self).stack@.len() >= 2 ==> ({
                let cell = old(self).stack@[old(self).stack@.len() - 2];
                let val = old(self).stack@.last();
                match shared_of(old(self).heap, cell) {
                    Some(s) => {
                        &&& status_is_running(r)
                        &&& final(self).stack@ == stack_below(old(self).stack@, 2).push(val)
                        &&& updated_obj(old(self).heap, final(self).heap, cell->Obj_0)
                        &&& final(self).heap.live()[cell->Obj_0.0 as int] == Object::SharedMemory(SharedMemory { value: val, locked: s.locked })
                    },
                    None => r is Err && final(self).heap == old(self).heap,
                }
            }),
    {
        let (cell, val) = self.pop_two()?;
        let (h, s) = self.shared_cell(cell)?;
        let ghost h0 = self.heap;
        let _ = self.heap.replace(h, Object::SharedMemory(SharedMemory { value: val, locked: s.locked }));
        assert(self.heap.live() =~= h0.live().insert(h.0 as int, self.heap.live()[h.0 as int]));
        self.stack.push(val);
        Ok(VMStatus::Running)
    }

    /// What `op_lock_shared` does, from `before` to `after`, giving `r`.
    pub open spec fn lock_shared_effect(before: VM, after: VM, r: PulseResult<VMStatus>, lock: bool) -> bool {
        &&& (env_eq(after, before))
        &&& (before.stack@.len() == 0 ==> crate::value::is_stack_underflow(r) && after.heap == before.heap)
        &&& (before.stack@.len() > 0 ==> ({
                let cell = before.stack@.last();
                match shared_of(before.heap, cell) {
                    Some(s) => if lock && s.locked {
                        crate::value::is_runtime_error(r) && after.heap == before.heap
                    } else {
                        &&& status_is_running(r)
                        &&& after.stack@ == before.stack@.drop_last().push(Value::Bool(true))
                        &&& updated_obj(before.heap, after.heap, cell->Obj_0)
                        &&& after.heap.live()[cell->Obj_0.0 as int] == Object::SharedMemory(SharedMemory { value: s.value, locked: lock })
                    },
                    None => r is Err && after.heap == before.heap,
                }
            }))
    }

    /// `LockSharedMemory` / `UnlockSharedMemory`: pops a shared cell and sets
    /// its lock flag, pushing `true`. Locking a locked cell is an error.
    pub(crate) fn op_lock_shared(&mut self, lock: bool) -> (r: PulseResult<VMStatus>)
        requires
            old(self).wf(),
        ensures
            final(self).wf(),
            env_eq(*final(self), *old(self)),
            old(self).stack@.len() == 0 ==> crate::value::is_stack_underflow(r) && final(self).heap == old(self).heap,
            old(self).stack@.len() > 0 ==> ({
                let cell = old(self).stack@.last();
                match shared_of(old(self).heap, cell) {
                    Some(s) => if lock && s.locked {
                        crate::value::is_runtime_error(r) && final(self).heap == old(self).heap
                    } else {
                        &&& status_is_running(r)
                        &&& final(self).stack@ == old(self).stack@.drop_last().push(Value::Bool(true))
                        &&& updated_obj(old(self).heap, final(self).heap, cell->Obj_0)
                        &&& final(self).heap.live()[cell->Obj_0.0 as int] == Object::SharedMemory(SharedMemory { value: s.value, locked: lock })
                    },
                    None => r is Err && final(self).heap == old(self).heap,
                }
            }),
    {
        let cell = self.pop()?;
        let (h, s) = self.shared_cell(cell)?;
        if lock && s.locked {
            return Err(PulseError::RuntimeError(text("Shared memory already locked")));
        }
        let ghost h0 = self.heap;
        let _ = self.heap.replace(h, Object::SharedMemory(SharedMemory { value: s.value, locked: lock }));
        assert(self.heap.live() =~= h0.live().insert(h.0 as int, self.heap.live()[h.0 as int]));
        self.stack.push(Value::Bool(true));
        Ok(VMStatus::Running)
    }

    /// What `op_send` does, from `before` to `after`, giving `r`.
    pub open spec fn send_effect(before: VM, after: VM, r: PulseResult<VMStatus>) -> bool {
        &&& (env_eq(after, before))
        &&& (after.heap == before.heap)
        &&& (before.stack@.len() < 2 ==> crate::value::is_stack_underflow(r))
        &&& (before.stack@.len() >= 2 ==> ({
                let msg = before.stack@[before.stack@.len() - 2];
                let target = before.stack@.last();
                &&& after.stack@ == stack_below(before.stack@, 2)
                &&& match target {
                    Value::Pid(p) => if sendable(before.heap, msg) {
                        r matches Ok(VMStatus::Send { target: t, msg: m }) && t == p && message_of(before.heap, msg, m)
                    } else {
                        crate::value::is_runtime_error(r)
                    },
                    _ => crate::value::is_type_mismatch(r),
                }
            }))
    }

    /// `Send`: pops the target pid and then the message, and asks the host
    /// to deliver the message: a primitive other than a pid, or a string.
    pub(crate) fn op_send(&mut self) -> (r: PulseResult<VMStatus>)
        requires
            old(self).wf(),
        ensures
            final(self).wf(),
            env_eq(*final(self), *old(self)),
            final(self).heap == old(self).heap,
            old(self).stack@.len() < 2 ==> crate::value::is_stack_underflow(r),
            old(self).stack@.len() >= 2 ==> ({
                let msg = old(self).stack@[old(self).stack@.len() - 2];
                let target = old(self).stack@.last();
                &&& final(self).stack@ == stack_below(old(self).stack@, 2)
                &&& match target {
                    Value::Pid(p) => if sendable(old(self).heap, msg) {
                        r matches Ok(VMStatus::Send { target: t, msg: m }) && t == p && message_of(old(self).heap, msg, m)
                    } else {
                        crate::value::is_runtime_error(r)
                    },
                    _ => crate::value::is_type_mismatch(r),
                }
            }),
    {
        let (msg, target_val) = self.pop_two()?;
        let target = match target_val {
            Value::Pid(p) => p,
            _ => {
                return Err(PulseError::TypeMismatch { expected: text("pid"), got: target_val.kind_name() });
            },
        };
        let m = match msg {
            Value::Bool(b) => Constant::Bool(b),
            Value::Int(i) => Constant::Int(i),
            Value::Float(f) => Constant::Float(f),
            Value::Unit => Constant::Unit,
            Value::Pid(_) => {
                return Err(PulseError::RuntimeError(text("Cannot send PIDs yet")));
            },
            Value::Obj(h) => match self.heap.get(h) {
                Some(Object::String(s)) => Constant::String(s.clone()),
                Some(_) => {
                    return Err(PulseError::RuntimeError(text("Cannot send this kind of object")));
                },
                None => {
                    return Err(PulseError::RuntimeError(text("Cannot send freed object")));
                },
            },
        };
        Ok(VMStatus::Send { target, msg: m })
    }

    /// What `op_watch` does, from `before` to `after`, giving `r`.
    pub open spec fn watch_effect(before: VM, after: VM, r: PulseResult<VMStatus>, monitor: bool) -> bool {
        &&& (env_eq(after, before))
        &&& (after.heap == before.heap)
        &&& (before.stack@.len() == 0 ==> crate::value::is_stack_underflow(r))
        &&& (before.stack@.len() > 0 ==> after.stack@ == before.stack@.drop_last() && match before.stack@.last() {
                Value::Pid(p) => if monitor { r matches Ok(VMStatus::Monitor(t)) && t == p } else { r matches Ok(VMStatus::Link(t)) && t == p },
                _ => crate::value::is_type_mismatch(r),
            })
    }

    /// `Link` / `Monitor`: pops a pid and asks the host to link to it or
    /// monitor it.
    pub(crate) fn op_watch(&mut self, monitor: bool) -> (r: PulseResult<VMStatus>)
        requires
            old(self).wf(),
        ensures
            final(self).wf(),
            env_eq(*final(self), *old(self)),
            final(self).heap == old(self).heap,
            old(self).stack@.len() == 0 ==> crate::value::is_stack_underflow(r),
            old(self).stack@.len() > 0 ==> final(self).stack@ == old(self).stack@.drop_last() && match old(self).stack@.last() {
                Value::Pid(p) => if monitor { r matches Ok(VMStatus::Monitor(t)) && t == p } else { r matches Ok(VMStatus::Link(t)) && t == p },
                _ => crate::value::is_type_mismatch(r),
            },
    {
        let p = self.pop_pid()?;
        if monitor {
            Ok(VMStatus::Monitor(p))
        } else {
            Ok(VMStatus::Link(p))
        }
    }

    /// What `op_register` does, from `before` to `after`, giving `r`.
    pub open spec fn register_effect(before: VM, after: VM, r: PulseResult<VMStatus>) -> bool {
        &&& (env_eq(after, before))
        &&& (after.heap == before.heap)
        &&& (before.stack@.len() >= 2 ==> ({
                let name = before.stack@[before.stack@.len() - 2];
                let pid = before.stack@.last();
                &&& after.stack@ == stack_below(before.stack@, 2)
                &&& match (pid, name) {
                    (Value::Pid(p), Value::Obj(h)) => match heap_string(before.heap, h) {
                        Some(t) => r matches Ok(VMStatus::Register(n, q)) && n@ == t && q == p,
                        None => r is Err,
                    },
                    _ => r is Err,
                }
            }))
        &&& (before.stack@.len() < 2 ==> crate::value::is_stack_underflow(r))
    }

    /// `Register`: pops a pid and a name and asks the host to register the
    /// name for the pid.
    pub(crate) fn op_register(&mut self) -> (r: PulseResult<VMStatus>)
        requires
            old(self).wf(),
        ensures
            final(self).wf(),
            env_eq(*final(self), *old(self)),
            final(self).heap == old(self).heap,
            old(self).stack@.len() >= 2 ==> ({
                let name = old(self).stack@[old(self).stack@.len() - 2];
                let pid = old(self).stack@.last();
                &&& final(self).stack@ == stack_below(old(self).stack@, 2)
                &&& match (pid, name) {
                    (Value::Pid(p), Value::Obj(h)) => match heap_string(old(self).heap, h) {
                        Some(t) => r matches Ok(VMStatus::Register(n, q)) && n@ == t && q == p,
                        None => r is Err,
                    },
                    _ => r is Err,
                }
            }),
            old(self).stack@.len() < 2 ==> crate::value::is_stack_underflow(r),
    {
        let (name_val, pid_val) = self.pop_two()?;
        let p = match pid_val {
            Value::Pid(p) => p,
            _ => {
                return Err(PulseError::TypeMismatch { expected: text("pid"), got: pid_val.kind_name() });
            },
        };
        let name = match name_val {
            Value::Obj(h) => self.get_string(h)?,
            _ => {
                return Err(PulseError::TypeMismatch { expected: text("string name"), got: name_val.kind_name() });
            },
        };
        Ok(VMStatus::Register(name, p))
    }

    /// What `op_name_query` does, from `before` to `after`, giving `r`.
    pub open spec fn name_query_effect(before: VM, after: VM, r: PulseResult<VMStatus>, whereis: bool) -> bool {
        &&& (env_eq(after, before))
        &&& (after.heap == before.heap)
        &&& (before.stack@.len() == 0 ==> crate::value::is_stack_underflow(r))
        &&& (before.stack@.len() > 0 ==> after.stack@ == before.stack@.drop_last() && match before.stack@.last() {
                Value::Obj(h) => match heap_string(before.heap, h) {
                    Some(t) => if whereis { r matches Ok(VMStatus::WhereIs(n)) && n@ == t } else { r matches Ok(VMStatus::Unregister(n)) && n@ == t },
                    None => r is Err,
                },
                _ => crate::value::is_type_mismatch(r),
            })
    }

    /// `Unregister` / `WhereIs`: pops a name and asks the host to drop its
    /// registration or to look it up.
    pub(crate) fn op_name_query(&mut self, whereis: bool) -> (r: PulseResult<VMStatus>)
        requires
            old(self).wf(),
        ensures
            final(self).wf(),
            env_eq(*final(self), *old(self)),
            final(self).heap == old(self).heap,
            old(self).stack@.len() == 0 ==> crate::value::is_stack_underflow(r),
            old(self).stack@.len() > 0 ==> final(self).stack@ == old(self).stack@.drop_last() && match old(self).stack@.last() {
                Value::Obj(h) => match heap_string(old(self).heap, h) {
                    Some(t) => if whereis { r matches Ok(VMStatus::WhereIs(n)) && n@ == t } else { r matches Ok(VMStatus::Unregister(n)) && n@ == t },
                    None => r is Err,
                },
                _ => crate::value::is_type_mismatch(r),
            },
    {
        let name = self.pop_name()?;
        if whereis {
            Ok(VMStatus::WhereIs(name))
        } else {
            Ok(VMStatus::Unregister(name))
        }
    }
}

} // verus!

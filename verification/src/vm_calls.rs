use vstd::prelude::*;
use crate::value::{ObjHandle, Value, PulseError, PulseResult, text};
use crate::bytecode::{Constant, Function};
use crate::object::{Object, Closure, Instance};
use crate::namemap::NameMap;
use crate::heap::Heap;
use crate::vm::{VM, VMStatus, CallFrame, status_is_running, frame_at_ip, frame_start, object_of, method_closure, fresh_obj, allocated};
use crate::vm_upvalues::{open_at, still_open, closed_heap};

verus! {

broadcast use vstd::std_specs::vec::group_vec_axioms;

/// A frame that runs `closure` from its first byte, with its slots from
/// `start`.
pub open spec fn call_frame(closure: ObjHandle, start: usize) -> CallFrame {
    CallFrame { closure, ip: 0, stack_start: start, is_module: false, source_path: None, prev_globals: None }
}

/// Where the callee of a call with `argc` arguments sits on the stack.
pub open spec fn callee_slot(vm: VM, argc: usize) -> int {
    vm.stack@.len() - 1 - argc
}

/// Code byte `k` after the instruction pointer of the innermost frame.
pub open spec fn operand(vm: VM, k: int) -> int {
    vm.frame_code()->Some_0[vm.ip() + k] as int
}

/// The function constant a `Closure` instruction names.
pub open spec fn closure_constant(vm: VM) -> Option<Function> {
    match vm.frame_chunk() {
        Some(ch) => {
            let idx = operand(vm, 0) + 256 * operand(vm, 1);
            if idx < ch.constants@.len() {
                match ch.constants@[idx] {
                    Constant::Function(f) => Some(*f),
                    _ => None,
                }
            } else {
                None
            }
        },
        None => None,
    }
}

/// The closure the innermost frame runs.
pub open spec fn current_closure(vm: VM) -> Closure {
    vm.closure_at(vm.frames@.last().closure)->Some_0
}

/// Capture `k` of a `Closure` instruction can be made: a local slot that
/// exists as an index, or an upvalue the running closure has.
pub open spec fn capture_ok(vm: VM, k: int) -> bool {
    if operand(vm, 2 + 2 * k) == 1 {
        frame_start(vm) + operand(vm, 3 + 2 * k) <= usize::MAX
    } else {
        operand(vm, 3 + 2 * k) < current_closure(vm).upvalues@.len()
    }
}

/// What capture `k` of a `Closure` instruction gives in heap `h`.
pub open spec fn captured(vm: VM, h: Heap, k: int, u: ObjHandle) -> bool {
    if operand(vm, 2 + 2 * k) == 1 {
        open_at(h, u, (frame_start(vm) + operand(vm, 3 + 2 * k)) as usize)
    } else {
        u == current_closure(vm).upvalues@[operand(vm, 3 + 2 * k)]
    }
}

/// The operands of a `Closure` instruction are all there and usable.
pub open spec fn closure_operands_ok(vm: VM) -> bool {
    &&& vm.frame_code() matches Some(code)
    &&& vm.ip() + 2 <= code.len()
    &&& closure_constant(vm) matches Some(f)
    &&& vm.ip() + 2 + 2 * f.upvalue_count <= code.len()
    &&& forall|k: int| 0 <= k < f.upvalue_count ==> #[trigger] capture_ok(vm, k)
}

/// What a module frame gives back: a new module object holding the globals.
pub open spec fn module_result(h0: Heap, h1: Heap, globals: NameMap<Value>, v: Value) -> bool {
    &&& v matches Value::Obj(mh)
    &&& !h0.live().dom().contains(mh.0 as int)
    &&& h1.live().dom().contains(mh.0 as int)
    &&& h1.live()[mh.0 as int] matches Object::Module(m)
    &&& m.entries@ == globals.entries@
}

impl VM {
    /// What `op_closure` does, from `before` to `after`, giving `r`.
    pub open spec fn closure_effect(before: VM, after: VM, r: PulseResult<VMStatus>) -> bool {
        &&& (after.globals == before.globals)
        &&& (after.builtins == before.builtins)
        &&& (after.exception_frames == before.exception_frames)
        &&& (after.pid == before.pid)
        &&& (r is Ok <==> closure_operands_ok(before))
        &&& (r is Ok ==> ({
                let f = closure_constant(before)->Some_0;
                &&& status_is_running(r)
                &&& after.frames@ == before.frames@.update(before.frames@.len() - 1,
                    frame_at_ip(before.frames@.last(), (before.ip() + 2 + 2 * f.upvalue_count) as usize))
                &&& before.heap.live().submap_of(after.heap.live())
                &&& after.stack@.drop_last() == before.stack@
                &&& after.stack@.len() == before.stack@.len() + 1
                &&& after.stack@.last() matches Value::Obj(ch)
                &&& !before.heap.live().dom().contains(ch.0 as int)
                &&& after.heap.live()[ch.0 as int] matches Object::Closure(c)
                &&& c.function == f
                &&& c.upvalues@.len() == f.upvalue_count
                &&& forall|k: int| 0 <= k < f.upvalue_count ==> captured(before, after.heap, k, #[trigger] c.upvalues@[k])
            }))
    }

    /// `Closure`: reads a function constant and, for each of its upvalues, a
    /// flag and an index: a flag of 1 captures the local slot `index` of the
    /// frame, anything else takes the running closure's upvalue `index`.
    /// Pushes a new closure of the function over the captured upvalues.
    pub(crate) fn op_closure(&mut self) -> (r: PulseResult<VMStatus>)
        requires
            old(self).wf(),
        ensures
            final(self).wf(),
            final(self).globals == old(self).globals,
            final(self).builtins == old(self).builtins,
            final(self).exception_frames == old(self).exception_frames,
            final(self).pid == old(self).pid,
            r is Ok <==> closure_operands_ok(*old(self)),
            r is Ok ==> ({
                let f = closure_constant(*old(self))->Some_0;
                &&& status_is_running(r)
                &&& final(self).frames@ == old(self).frames@.update(old(self).frames@.len() - 1,
                    frame_at_ip(old(self).frames@.last(), (old(self).ip() + 2 + 2 * f.upvalue_count) as usize))
                &&& old(self).heap.live().submap_of(final(self).heap.live())
                &&& final(self).stack@.drop_last() == old(self).stack@
                &&& final(self).stack@.len() == old(self).stack@.len() + 1
                &&& final(self).stack@.last() matches Value::Obj(ch)
                &&& !old(self).heap.live().dom().contains(ch.0 as int)
                &&& final(self).heap.live()[ch.0 as int] matches Object::Closure(c)
                &&& c.function == f
                &&& c.upvalues@.len() == f.upvalue_count
                &&& forall|k: int| 0 <= k < f.upvalue_count ==> captured(*old(self), final(self).heap, k, #[trigger] c.upvalues@[k])
            }),
    {
        let ghost vm0 = *self;
        let b0 = self.read_u16();
        let idx = match b0 {
            Ok(i) => i as usize,
            Err(e) => {
                return Err(e);
            },
        };
        let chunk = self.current_chunk()?;
        proof {
            assert(self.frame_chunk() == vm0.frame_chunk());
        }
        if idx >= chunk.constants.len() {
            return Err(PulseError::RuntimeError(text("Constant index out of bounds")));
        }
        let function = match &chunk.constants[idx] {
            Constant::Function(f) => (**f).copy(),
            _ => {
                return Err(PulseError::TypeMismatch { expected: text("function"), got: text("other constant") });
            },
        };
        let count = function.upvalue_count;
        let n = self.frames.len();
        let fstart = self.frames[n - 1].stack_start;
        let fclosure = self.frames[n - 1].closure;
        let mut upvalues: Vec<ObjHandle> = Vec::new();
        let mut k: usize = 0;
        while k < count
            invariant
                self.wf(),
                vm0 == *old(self),
                n == vm0.frames@.len(),
                n > 0,
                fstart == frame_start(vm0),
                fclosure == vm0.frames@.last().closure,
                vm0.frame_code() matches Some(code) && vm0.ip() + 2 <= code.len(),
                closure_constant(vm0) == Some(function),
                count == function.upvalue_count,
                k <= count,
                vm0.ip() + 2 + 2 * k <= vm0.frame_code()->Some_0.len(),
                vm0.ip() + 2 + 2 * k <= usize::MAX,
                upvalues@.len() == k,
                self.frames@ == vm0.frames@.update(n - 1, frame_at_ip(vm0.frames@.last(), (vm0.ip() + 2 + 2 * k) as usize)),
                vm0.heap.live().submap_of(self.heap.live()),
                self.stack == vm0.stack,
                self.globals == vm0.globals,
                self.builtins == vm0.builtins,
                self.exception_frames == vm0.exception_frames,
                self.pid == vm0.pid,
                forall|j: int| 0 <= j < k ==> #[trigger] capture_ok(vm0, j),
                forall|j: int| 0 <= j < k ==> captured(vm0, self.heap, j, #[trigger] upvalues@[j]),
            decreases count - k,
        {
            proof {
                assert(vm0.heap.live().dom().contains(fclosure.0 as int));
                assert(self.closure_at(fclosure) == vm0.closure_at(fclosure));
                assert(self.frame_code() == vm0.frame_code());
                assert(self.frames@.last() == self.frames@[n - 1]);
                assert(self.ip() == vm0.ip() + 2 + 2 * k);
            }
            let flag = self.read_byte()?;
            proof {
                assert(flag as int == operand(vm0, 2 + 2 * k));
                assert(self.frame_code() == vm0.frame_code());
                assert(self.frames@.last() == self.frames@[n - 1]);
                assert(self.ip() == vm0.ip() + 3 + 2 * k);
            }
            let index = self.read_byte()?;
            proof {
                assert(index as int == operand(vm0, 3 + 2 * k));
            }
            let ghost hprev = self.heap;
            if flag == 1 {
                let slot = match fstart.checked_add(index as usize) {
                    Some(s) => s,
                    None => {
                        assert(!capture_ok(vm0, k as int));
                        return Err(PulseError::RuntimeError(text("Upvalue slot out of range")));
                    },
                };
                let u = self.capture_upvalue(slot);
                upvalues.push(u);
            } else {
                proof { self.heap.lemma_wf(); }
                let u = match self.heap.get(fclosure) {
                    Some(Object::Closure(c)) => {
                        if (index as usize) < c.upvalues.len() {
                            c.upvalues[index as usize]
                        } else {
                            assert(current_closure(vm0) == *c);
                            assert(!capture_ok(vm0, k as int));
                            return Err(PulseError::RuntimeError(text("Invalid upvalue")));
                        }
                    },
                    _ => {
                        return Err(PulseError::RuntimeError(text("No closure in frame")));
                    },
                };
                upvalues.push(u);
            }
            proof {
                assert(hprev.live().submap_of(self.heap.live()));
                assert forall|j: int| 0 <= j < k + 1 implies captured(vm0, self.heap, j, #[trigger] upvalues@[j]) by {
                    if j < k {
                        assert(captured(vm0, hprev, j, upvalues@[j]));
                    }
                }
            }
            k = k + 1;
        }
        let ghost hb = self.heap;
        let ch = self.heap.allocate(Object::Closure(Closure { function, upvalues }));
        proof {
            hb.lemma_wf();
            assert forall|i: int| 0 <= i < self.open_upvalues@.len() implies self.heap.live().dom().contains(#[trigger] self.open_upvalues@[i].0 as int) by {
                assert(hb.live().dom().contains(self.open_upvalues@[i].0 as int));
            }
            assert forall|j: int| 0 <= j < count implies captured(vm0, self.heap, j, #[trigger] upvalues@[j]) by {
                assert(captured(vm0, hb, j, upvalues@[j]));
            }
        }
        self.stack.push(Value::Obj(ch));
        Ok(VMStatus::Running)
    }
}

/// A class object gives a new instance of a copy of the class, with no
/// fields, in slot `ih`.
pub open spec fn instance_of(h0: Heap, h1: Heap, ih: ObjHandle, cl: crate::object::Class) -> bool {
    &&& !h0.live().dom().contains(ih.0 as int)
    &&& h1.live() == h0.live().insert(ih.0 as int, h1.live()[ih.0 as int])
    &&& h1.live()[ih.0 as int] matches Object::Instance(inst)
    &&& inst.class.name@ == cl.name@
    &&& inst.class.methods.entries@ == cl.methods.entries@
    &&& inst.class.superclass == cl.superclass
    &&& inst.fields.entries@.len() == 0
}

impl VM {
    /// A copy of the `argc` values on top of the stack, in stack order.
    fn top_values(&self, argc: usize) -> (r: Vec<Value>)
        requires
            argc <= self.stack@.len(),
        ensures
            r@ == self.stack@.subrange(self.stack@.len() - argc, self.stack@.len() as int),
    {
        let start = self.stack.len() - argc;
        let mut r: Vec<Value> = Vec::new();
        let mut i = start;
        while i < self.stack.len()
            invariant
                start <= i <= self.stack@.len(),
                start == self.stack@.len() - argc,
                r@ == self.stack@.subrange(start as int, i as int),
            decreases self.stack@.len() - i,
        {
            r.push(self.stack[i]);
            i = i + 1;
            assert(r@ =~= self.stack@.subrange(start as int, i as int));
        }
        r
    }

    /// What `op_call` does, from `before` to `after`, giving `r`.
    pub open spec fn call_effect(before: VM, after: VM, r: PulseResult<VMStatus>, argc: usize) -> bool {
        &&& (after.globals == before.globals)
        &&& (after.builtins == before.builtins)
        &&& (after.exception_frames == before.exception_frames)
        &&& (after.pid == before.pid)
        &&& (argc >= before.stack@.len() ==> crate::value::is_stack_underflow(r))
        &&& (argc < before.stack@.len() ==> ({
                let idx = callee_slot(before, argc);
                let callee = before.stack@[idx];
                match object_of(before.heap, callee) {
                    Some(Object::Closure(c)) => if c.function.arity == argc {
                        &&& status_is_running(r)
                        &&& after.stack == before.stack
                        &&& after.heap == before.heap
                        &&& after.frames@ == before.frames@.push(call_frame(callee->Obj_0, idx as usize))
                    } else {
                        crate::value::is_runtime_error(r)
                    },
                    Some(Object::Class(cl)) => {
                        &&& after.stack@.len() == before.stack@.len()
                        &&& after.stack@[idx] matches Value::Obj(ih)
                        &&& after.stack@ == before.stack@.update(idx, Value::Obj(ih))
                        &&& instance_of(before.heap, after.heap, ih, cl)
                        &&& if cl.methods@.dom().contains("init"@) {
                            match method_closure(before.heap, cl.methods@["init"@]) {
                                Some(init) => if init.function.arity == argc {
                                    &&& status_is_running(r)
                                    &&& after.frames@ == before.frames@.push(call_frame(cl.methods@["init"@]->Obj_0, idx as usize))
                                } else {
                                    crate::value::is_runtime_error(r)
                                },
                                None => status_is_running(r) && after.frames == before.frames,
                            }
                        } else if argc != 0 {
                            crate::value::is_runtime_error(r)
                        } else {
                            status_is_running(r) && after.frames == before.frames
                        }
                    },
                    Some(Object::BoundMethod(b)) => if b.method.arity == argc {
                        &&& status_is_running(r)
                        &&& after.stack@ == before.stack@.update(idx, b.receiver)
                        &&& after.stack@.len() == before.stack@.len()
                        &&& after.frames@.len() == before.frames@.len() + 1
                        &&& after.frames@.drop_last() == before.frames@
                        &&& after.frames@.last() == call_frame(after.frames@.last().closure, idx as usize)
                        &&& fresh_obj(before.heap, after.heap, after.frames@.last().closure)
                        &&& after.heap.live()[after.frames@.last().closure.0 as int] matches Object::Closure(c)
                        &&& c.function == b.method
                        &&& c.upvalues@.len() == 0
                    } else {
                        crate::value::is_runtime_error(r)
                    },
                    Some(Object::NativeFn(nf)) => {
                        &&& after.frames == before.frames
                        &&& (r matches Ok(VMStatus::NativeCall { name, args }) ==> {
                            &&& name@ == nf.name@
                            &&& args@ == before.stack@.subrange(idx + 1, before.stack@.len() as int)
                            &&& after.stack@ == before.stack@.subrange(0, idx)
                        })
                    },
                    _ => crate::value::is_type_mismatch(r),
                }
            }))
    }

    /// `Call argc`: calls the value below the top `argc` values with them as
    /// arguments. A closure of that arity gets a new frame whose slots start
    /// at the callee. A class makes an instance that takes the callee's slot
    /// and runs `init` when the class has one (a closure of that arity);
    /// without `init` it takes no arguments. A bound method puts its receiver
    /// in the callee's slot and runs a new closure of its function. A native
    /// function takes the arguments off the stack with the callee.
    pub(crate) fn op_call(&mut self, argc: usize) -> (r: PulseResult<VMStatus>)
        requires
            old(self).wf(),
        ensures
            final(self).wf(),
            final(self).globals == old(self).globals,
            final(self).builtins == old(self).builtins,
            final(self).exception_frames == old(self).exception_frames,
            final(self).pid == old(self).pid,
            argc >= old(self).stack@.len() ==> crate::value::is_stack_underflow(r),
            argc < old(self).stack@.len() ==> ({
                let idx = callee_slot(*old(self), argc);
                let callee = old(self).stack@[idx];
                match object_of(old(self).heap, callee) {
                    Some(Object::Closure(c)) => if c.function.arity == argc {
                        &&& status_is_running(r)
                        &&& final(self).stack == old(self).stack
                        &&& final(self).heap == old(self).heap
                        &&& final(self).frames@ == old(self).frames@.push(call_frame(callee->Obj_0, idx as usize))
                    } else {
                        crate::value::is_runtime_error(r)
                    },
                    Some(Object::Class(cl)) => {
                        &&& final(self).stack@.len() == old(self).stack@.len()
                        &&& final(self).stack@[idx] matches Value::Obj(ih)
                        &&& final(self).stack@ == old(self).stack@.update(idx, Value::Obj(ih))
                        &&& instance_of(old(self).heap, final(self).heap, ih, cl)
                        &&& if cl.methods@.dom().contains("init"@) {
                            match method_closure(old(self).heap, cl.methods@["init"@]) {
                                Some(init) => if init.function.arity == argc {
                                    &&& status_is_running(r)
                                    &&& final(self).frames@ == old(self).frames@.push(call_frame(cl.methods@["init"@]->Obj_0, idx as usize))
                                } else {
                                    crate::value::is_runtime_error(r)
                                },
                                None => status_is_running(r) && final(self).frames == old(self).frames,
                            }
                        } else if argc != 0 {
                            crate::value::is_runtime_error(r)
                        } else {
                            status_is_running(r) && final(self).frames == old(self).frames
                        }
                    },
                    Some(Object::BoundMethod(b)) => if b.method.arity == argc {
                        &&& status_is_running(r)
                        &&& final(self).stack@ == old(self).stack@.update(idx, b.receiver)
                        &&& final(self).stack@.len() == old(self).stack@.len()
                        &&& final(self).frames@.len() == old(self).frames@.len() + 1
                        &&& final(self).frames@.drop_last() == old(self).frames@
                        &&& final(self).frames@.last() == call_frame(final(self).frames@.last().closure, idx as usize)
                        &&& fresh_obj(old(self).heap, final(self).heap, final(self).frames@.last().closure)
                        &&& final(self).heap.live()[final(self).frames@.last().closure.0 as int] matches Object::Closure(c)
                        &&& c.function == b.method
                        &&& c.upvalues@.len() == 0
                    } else {
                        crate::value::is_runtime_error(r)
                    },
                    Some(Object::NativeFn(nf)) => {
                        &&& final(self).frames == old(self).frames
                        &&& (r matches Ok(VMStatus::NativeCall { name, args }) ==> {
                            &&& name@ == nf.name@
                            &&& args@ == old(self).stack@.subrange(idx + 1, old(self).stack@.len() as int)
                            &&& final(self).stack@ == old(self).stack@.subrange(0, idx)
                        })
                    },
                    _ => crate::value::is_type_mismatch(r),
                }
            }),
    {
        if argc >= self.stack.len() {
            return Err(PulseError::StackUnderflow);
        }
        let idx = self.stack.len() - 1 - argc;
        let callee = self.stack[idx];
        let handle = match callee {
            Value::Obj(h) => h,
            _ => {
                return Err(PulseError::TypeMismatch { expected: text("function"), got: callee.kind_name() });
            },
        };
        proof { self.heap.lemma_wf(); }
        let kind: u8 = match self.heap.get(handle) {
            Some(Object::NativeFn(_)) => 1,
            Some(Object::Closure(_)) => 2,
            Some(Object::Class(_)) => 3,
            Some(Object::BoundMethod(_)) => 4,
            _ => 0,
        };
        if kind == 1 {
            let name = match self.heap.get(handle) {
                Some(Object::NativeFn(n)) => n.name.clone(),
                _ => {
                    return Err(PulseError::RuntimeError(text("Invalid handle")));
                },
            };
            let args = self.top_values(argc);
            self.stack.truncate(idx);
            return self.call_native(name, args);
        } else if kind == 2 {
            let arity = match self.heap.get(handle) {
                Some(Object::Closure(c)) => c.function.arity,
                _ => 0,
            };
            if arity != argc {
                return Err(PulseError::RuntimeError(text("Wrong number of arguments")));
            }
            self.frames.push(CallFrame { closure: handle, ip: 0, stack_start: idx, is_module: false, source_path: None, prev_globals: None });
            return Ok(VMStatus::Running);
        } else if kind == 3 {
            let class = match self.heap.get(handle) {
                Some(Object::Class(c)) => c.copy(),
                _ => {
                    return Err(PulseError::RuntimeError(text("Invalid handle")));
                },
            };
            let ghost h0 = self.heap;
            let init_val: Option<Value> = match class.methods.get("init") {
                Some(v) => Some(*v),
                None => None,
            };
            let ih = self.heap.allocate(Object::Instance(Instance { class, fields: NameMap::new() }));
            proof {
                assert(self.heap.live() =~= h0.live().insert(ih.0 as int, self.heap.live()[ih.0 as int]));
            }
            self.stack.set(idx, Value::Obj(ih));
            match init_val {
                Some(iv) => {
                    let init_arity: Option<usize> = match iv {
                        Value::Obj(h) => match self.heap.get(h) {
                            Some(Object::Closure(c)) => Some(c.function.arity),
                            _ => None,
                        },
                        _ => None,
                    };
                    proof {
                        h0.lemma_wf();
                        if iv is Obj && h0.live().dom().contains(iv->Obj_0.0 as int) {
                            assert(iv->Obj_0 != ih);
                        }
                    }
                    match init_arity {
                        Some(a) => {
                            if a != argc {
                                return Err(PulseError::RuntimeError(text("Wrong number of arguments for init")));
                            }
                            let ch = match iv { Value::Obj(h) => h, _ => ObjHandle(0) };
                            self.frames.push(CallFrame { closure: ch, ip: 0, stack_start: idx, is_module: false, source_path: None, prev_globals: None });
                            return Ok(VMStatus::Running);
                        },
                        None => {
                            return Ok(VMStatus::Running);
                        },
                    }
                },
                None => {
                    if argc != 0 {
                        return Err(PulseError::RuntimeError(text("Expected 0 args for class without init")));
                    }
                    return Ok(VMStatus::Running);
                },
            }
        } else if kind == 4 {
            let (receiver, method) = match self.heap.get(handle) {
                Some(Object::BoundMethod(b)) => (b.receiver, b.method.copy()),
                _ => {
                    return Err(PulseError::RuntimeError(text("Invalid handle")));
                },
            };
            if method.arity != argc {
                return Err(PulseError::RuntimeError(text("Wrong number of arguments")));
            }
            self.stack.set(idx, receiver);
            let ch = self.heap.allocate(Object::Closure(Closure { function: method, upvalues: Vec::new() }));
            self.frames.push(CallFrame { closure: ch, ip: 0, stack_start: idx, is_module: false, source_path: None, prev_globals: None });
            return Ok(VMStatus::Running);
        } else {
            return Err(PulseError::TypeMismatch { expected: text("function"), got: text("other object") });
        }
    }

    /// What `op_return` does, from `before` to `after`, giving `r`.
    pub open spec fn return_effect(before: VM, after: VM, r: PulseResult<VMStatus>) -> bool {
        &&& (after.builtins == before.builtins)
        &&& (after.exception_frames == before.exception_frames)
        &&& (after.pid == before.pid)
        &&& (before.stack@.len() == 0 ==> crate::value::is_stack_underflow(r))
        &&& (before.stack@.len() > 0 && before.frames@.len() == 0 ==> crate::value::is_runtime_error(r))
        &&& (before.stack@.len() > 0 && before.frames@.len() > 0 ==> ({
                let fr = before.frames@.last();
                let start = fr.stack_start;
                &&& after.frames@ == before.frames@.drop_last()
                &&& r == (if after.frames@.len() == 0 { Ok::<VMStatus, PulseError>(VMStatus::Halted) } else { Ok(VMStatus::Running) })
                &&& after.stack@.len() == (if start <= before.stack@.len() - 1 { start as int } else { before.stack@.len() - 1 }) + 1
                &&& after.stack@.drop_last() == before.stack@.drop_last().subrange(0, after.stack@.len() - 1)
                &&& if fr.is_module {
                    &&& module_result(before.heap, after.heap, before.globals, after.stack@.last())
                    &&& after.globals == match fr.prev_globals { Some(g) => g, None => before.globals }
                    &&& match fr.source_path {
                        Some(p) => after.loaded_modules@ == before.loaded_modules@.insert(p@, after.stack@.last()->Obj_0),
                        None => after.loaded_modules == before.loaded_modules,
                    }
                } else {
                    &&& after.stack@.last() == before.stack@.last()
                    &&& after.globals == before.globals
                    &&& after.loaded_modules == before.loaded_modules
                    &&& after.open_upvalues@ == still_open(before.heap, before.open_upvalues@, start)
                    &&& closed_heap(before.heap, after.heap, before.stack@.drop_last(), before.open_upvalues@, start)
                }
            }))
    }

    /// `Return`: pops the result and the innermost frame. A module frame
    /// gives back a new module object of the globals instead, recorded under
    /// the module's path, and puts back the globals it replaced. The frame's
    /// upvalues are closed, its slots dropped and the result pushed; the VM
    /// halts when no frame is left.
    pub(crate) fn op_return(&mut self) -> (r: PulseResult<VMStatus>)
        requires
            old(self).wf(),
        ensures
            final(self).wf(),
            final(self).builtins == old(self).builtins,
            final(self).exception_frames == old(self).exception_frames,
            final(self).pid == old(self).pid,
            old(self).stack@.len() == 0 ==> crate::value::is_stack_underflow(r),
            old(self).stack@.len() > 0 && old(self).frames@.len() == 0 ==> crate::value::is_runtime_error(r),
            old(self).stack@.len() > 0 && old(self).frames@.len() > 0 ==> ({
                let fr = old(self).frames@.last();
                let start = fr.stack_start;
                &&& final(self).frames@ == old(self).frames@.drop_last()
                &&& r == (if final(self).frames@.len() == 0 { Ok::<VMStatus, PulseError>(VMStatus::Halted) } else { Ok(VMStatus::Running) })
                &&& final(self).stack@.len() == (if start <= old(self).stack@.len() - 1 { start as int } else { old(self).stack@.len() - 1 }) + 1
                &&& final(self).stack@.drop_last() == old(self).stack@.drop_last().subrange(0, final(self).stack@.len() - 1)
                &&& if fr.is_module {
                    &&& module_result(old(self).heap, final(self).heap, old(self).globals, final(self).stack@.last())
                    &&& final(self).globals == match fr.prev_globals { Some(g) => g, None => old(self).globals }
                    &&& match fr.source_path {
                        Some(p) => final(self).loaded_modules@ == old(self).loaded_modules@.insert(p@, final(self).stack@.last()->Obj_0),
                        None => final(self).loaded_modules == old(self).loaded_modules,
                    }
                } else {
                    &&& final(self).stack@.last() == old(self).stack@.last()
                    &&& final(self).globals == old(self).globals
                    &&& final(self).loaded_modules == old(self).loaded_modules
                    &&& final(self).open_upvalues@ == still_open(old(self).heap, old(self).open_upvalues@, start)
                    &&& closed_heap(old(self).heap, final(self).heap, old(self).stack@.drop_last(), old(self).open_upvalues@, start)
                }
            }),
    {
        let mut result = match self.stack.pop() {
            Some(v) => v,
            None => {
                return Err(PulseError::StackUnderflow);
            },
        };
        let frame = match self.frames.pop() {
            Some(f) => f,
            None => {
                return Err(PulseError::RuntimeError(text("Return from top level")));
            },
        };
        proof {
            assert(frame == old(self).frames@.last());
        }
        if frame.is_module {
            let exports = self.globals.copy();
            let mh = self.heap.allocate(Object::Module(exports));
            result = Value::Obj(mh);
            match frame.source_path {
                Some(path) => {
                    self.loaded_modules.insert(path, mh);
                },
                None => {},
            }
            match frame.prev_globals {
                Some(prev) => {
                    self.globals = prev;
                },
                None => {},
            }
            proof {
                assert(self.heap.live().dom().contains(mh.0 as int));
            }
        }
        let ghost h1 = self.heap;
        self.close_upvalues(frame.stack_start);
        self.stack.truncate(frame.stack_start);
        self.stack.push(result);
        proof {
            if frame.is_module {
                assert(h1.live().dom().contains(result->Obj_0.0 as int));
                assert(self.heap.live().dom().contains(result->Obj_0.0 as int));
                assert(crate::vm_upvalues::closing_handle(h1, old(self).open_upvalues@, frame.stack_start, result->Obj_0.0 as int) ==> false) by {
                    if crate::vm_upvalues::closing_handle(h1, old(self).open_upvalues@, frame.stack_start, result->Obj_0.0 as int) {
                        let j = choose|j: int| 0 <= j < old(self).open_upvalues@.len() && #[trigger] old(self).open_upvalues@[j].0 == result->Obj_0.0 as int
                            && crate::vm_upvalues::closes(h1, old(self).open_upvalues@[j], frame.stack_start);
                    }
                }
            }
        }
        if self.frames.len() == 0 {
            Ok(VMStatus::Halted)
        } else {
            Ok(VMStatus::Running)
        }
    }

    /// Calls `callee` with `args` for the host: they are pushed, and the
    /// call goes as `Call` with that many arguments does (see
    /// `call_effect`).
    pub fn call_value(&mut self, callee: Value, args: Vec<Value>) -> (r: PulseResult<VMStatus>)
        requires
            old(self).wf(),
        ensures
            final(self).wf(),
            exists|mid: VM| #![trigger Self::call_effect(mid, *final(self), r, args@.len() as usize)]
                mid.stack@ == old(self).stack@.push(callee) + args@
                && crate::vm::env_eq(mid, *old(self)) && mid.heap == old(self).heap
                && mid.wf() && Self::call_effect(mid, *final(self), r, args@.len() as usize),
    {
        self.stack.push(callee);
        let ghost s0 = self.stack@;
        let mut i: usize = 0;
        while i < args.len()
            invariant
                self.wf(),
                i <= args@.len(),
                self.stack@ == s0 + args@.take(i as int),
                s0 == old(self).stack@.push(callee),
                crate::vm::env_eq(*self, *old(self)),
                self.heap == old(self).heap,
            decreases args@.len() - i,
        {
            self.push(args[i]);
            proof {
                assert(args@.take(i + 1) =~= args@.take(i as int).push(args@[i as int]));
                assert(self.stack@ =~= s0 + args@.take(i + 1));
            }
            i = i + 1;
        }
        proof {
            assert(args@.take(i as int) =~= args@);
        }
        let ghost mid = *self;
        let r = self.op_call(args.len());
        proof {
            assert(Self::call_effect(mid, *self, r, args@.len() as usize));
        }
        r
    }

    /// Runs a native function on `args`; the callee and the arguments are
    /// already off the stack. The `gc` native collects garbage and pushes
    /// unit here; every other native goes to the host (`NativeCall`), which
    /// runs it on the heap and pushes its result.
    pub(crate) fn call_native(&mut self, name: String, args: Vec<Value>) -> (r: PulseResult<VMStatus>)
        requires
            old(self).wf(),
        ensures
            final(self).wf(),
            final(self).frames == old(self).frames,
            final(self).globals == old(self).globals,
            final(self).builtins == old(self).builtins,
            final(self).exception_frames == old(self).exception_frames,
            final(self).pid == old(self).pid,
            r matches Ok(VMStatus::NativeCall { name: n, args: a }) ==> n@ == name@ && a@ == args@
                && final(self).stack == old(self).stack && final(self).heap == old(self).heap,
            status_is_running(r) ==> final(self).stack@.drop_last() == old(self).stack@
                && final(self).stack@.len() == old(self).stack@.len() + 1,
            name@ == "gc"@ ==> {
                &&& r == Ok::<VMStatus, PulseError>(VMStatus::Running)
                &&& final(self).stack@ == old(self).stack@.push(Value::Unit)
                &&& final(self).heap.live() == old(self).heap.live().restrict(crate::heap::reachable_set(old(self).heap.live(),
                    crate::vm::value_handles(crate::vm_api::full_root_values(*old(self)))))
            },
            name@ != "gc"@ ==> (r matches Ok(VMStatus::NativeCall { name: n, args: a }) && n@ == name@ && a@ == args@)
                && final(self).stack == old(self).stack && final(self).heap == old(self).heap,
    {
        proof {
            reveal_strlit("gc");
        }
        if crate::namemap::str_equal(name.as_str(), "gc") {
            self.collect_garbage_full();
            self.stack.push(Value::Unit);
            return Ok(VMStatus::Running);
        }
        Ok(VMStatus::NativeCall { name, args })
    }
}

} // verus!

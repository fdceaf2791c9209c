use vstd::prelude::*;
use crate::value::{Value, PulseError, PulseResult, text};
use crate::bytecode::Op;
use crate::arith::IntOp;
use crate::object::Object;
use crate::debug::{DebugContext, StepMode};
use crate::vm::{VM, VMStatus, status_is_running, stack_below, env_eq, frame_at_ip, constant_loads, const_name};

verus! {

broadcast use vstd::std_specs::vec::group_vec_axioms;

impl VM {
    /// What `op_pop` does, from `before` to `after`, giving `r`.
    pub open spec fn pop_effect(before: VM, after: VM, r: PulseResult<VMStatus>) -> bool {
        &&& (env_eq(after, before))
        &&& (after.heap == before.heap)
        &&& (before.stack@.len() == 0 ==> crate::value::is_stack_underflow(r))
        &&& (before.stack@.len() > 0 ==> status_is_running(r) && after.stack@ == before.stack@.drop_last())
    }

    /// `Pop`: drops the top value.
    pub(crate) fn op_pop(&mut self) -> (r: PulseResult<VMStatus>)
        requires
            old(self).wf(),
        ensures
            final(self).wf(),
            env_eq(*final(self), *old(self)),
            final(self).heap == old(self).heap,
            old(self).stack@.len() == 0 ==> crate::value::is_stack_underflow(r),
            old(self).stack@.len() > 0 ==> status_is_running(r) && final(self).stack@ == old(self).stack@.drop_last(),
    {
        self.pop()?;
        Ok(VMStatus::Running)
    }

    /// What `op_const` does, from `before` to `after`, giving `r`.
    pub open spec fn const_effect(before: VM, after: VM, r: PulseResult<VMStatus>, idx: usize) -> bool {
        &&& (env_eq(after, before))
        &&& (match r {
                Ok(_) => status_is_running(r) && ({
                    &&& before.frame_chunk() matches Some(ch)
                    &&& idx < ch.constants@.len()
                    &&& after.stack@.drop_last() == before.stack@
                    &&& after.stack@.len() == before.stack@.len() + 1
                    &&& constant_loads(before.heap, after.heap, ch.constants@[idx as int], after.stack@.last())
                }),
                Err(_) => !(before.frame_chunk() matches Some(ch) && idx < ch.constants@.len())
                    && after.stack == before.stack && after.heap == before.heap,
            })
    }

    /// `Const idx`: pushes constant `idx` of the current chunk.
    pub(crate) fn op_const(&mut self, idx: usize) -> (r: PulseResult<VMStatus>)
        requires
            old(self).wf(),
        ensures
            final(self).wf(),
            env_eq(*final(self), *old(self)),
            match r {
                Ok(_) => status_is_running(r) && ({
                    &&& old(self).frame_chunk() matches Some(ch)
                    &&& idx < ch.constants@.len()
                    &&& final(self).stack@.drop_last() == old(self).stack@
                    &&& final(self).stack@.len() == old(self).stack@.len() + 1
                    &&& constant_loads(old(self).heap, final(self).heap, ch.constants@[idx as int], final(self).stack@.last())
                }),
                Err(_) => !(old(self).frame_chunk() matches Some(ch) && idx < ch.constants@.len())
                    && final(self).stack == old(self).stack && final(self).heap == old(self).heap,
            },
    {
        let v = self.load_constant(idx)?;
        self.stack.push(v);
        Ok(VMStatus::Running)
    }

    /// What `op_jump_if_false` does, from `before` to `after`, giving `r`.
    pub open spec fn jump_if_false_effect(before: VM, after: VM, r: PulseResult<VMStatus>, offset: usize) -> bool {
        &&& (after.stack == before.stack)
        &&& (after.heap == before.heap)
        &&& (after.globals == before.globals)
        &&& (before.stack@.len() == 0 ==> crate::value::is_stack_underflow(r))
        &&& (before.stack@.len() > 0 && VM::spec_is_truthy(before.stack@.last()) ==> status_is_running(r)
                && after.frames == before.frames)
        &&& (before.stack@.len() > 0 && !VM::spec_is_truthy(before.stack@.last()) ==> (
                if before.frames@.len() > 0 && before.ip() + offset <= usize::MAX {
                    status_is_running(r) && after.frames@ == before.frames@.update(before.frames@.len() - 1,
                        frame_at_ip(before.frames@.last(), (before.ip() + offset) as usize))
                } else {
                    crate::value::is_runtime_error(r)
                }))
    }

    /// `JumpIfFalse offset`: jumps forward when the top value (which stays)
    /// is false or unit.
    pub(crate) fn op_jump_if_false(&mut self, offset: usize) -> (r: PulseResult<VMStatus>)
        requires
            old(self).wf(),
        ensures
            final(self).wf(),
            final(self).stack == old(self).stack,
            final(self).heap == old(self).heap,
            final(self).globals == old(self).globals,
            old(self).stack@.len() == 0 ==> crate::value::is_stack_underflow(r),
            old(self).stack@.len() > 0 && Self::spec_is_truthy(old(self).stack@.last()) ==> status_is_running(r)
                && final(self).frames == old(self).frames,
            old(self).stack@.len() > 0 && !Self::spec_is_truthy(old(self).stack@.last()) ==> (
                if old(self).frames@.len() > 0 && old(self).ip() + offset <= usize::MAX {
                    status_is_running(r) && final(self).frames@ == old(self).frames@.update(old(self).frames@.len() - 1,
                        frame_at_ip(old(self).frames@.last(), (old(self).ip() + offset) as usize))
                } else {
                    crate::value::is_runtime_error(r)
                }),
    {
        let top = self.peek(0)?;
        if !self.is_truthy(&top) {
            return self.op_jump(offset);
        }
        Ok(VMStatus::Running)
    }

    /// What `op_end_try` does, from `before` to `after`, giving `r`.
    pub open spec fn end_try_effect(before: VM, after: VM, r: PulseResult<VMStatus>) -> bool {
        &&& (status_is_running(r))
        &&& (after.stack == before.stack)
        &&& (after.heap == before.heap)
        &&& (after.frames == before.frames)
        &&& (after.exception_frames@ == if before.exception_frames@.len() > 0 {
                before.exception_frames@.drop_last()
            } else {
                before.exception_frames@
            })
    }

    /// `EndTry`: drops the innermost handler, if any.
    pub(crate) fn op_end_try(&mut self) -> (r: PulseResult<VMStatus>)
        requires
            old(self).wf(),
        ensures
            final(self).wf(),
            status_is_running(r),
            final(self).stack == old(self).stack,
            final(self).heap == old(self).heap,
            final(self).frames == old(self).frames,
            final(self).exception_frames@ == if old(self).exception_frames@.len() > 0 {
                old(self).exception_frames@.drop_last()
            } else {
                old(self).exception_frames@
            },
    {
        let _ = self.exception_frames.pop();
        Ok(VMStatus::Running)
    }

    /// What `op_throw` does, from `before` to `after`, giving `r`.
    pub open spec fn throw_effect(before: VM, after: VM, r: PulseResult<VMStatus>) -> bool {
        &&& (after.heap == before.heap)
        &&& (before.stack@.len() == 0 ==> crate::value::is_stack_underflow(r))
        &&& (before.stack@.len() > 0 && before.exception_frames@.len() == 0 ==> crate::value::is_runtime_error(r))
        &&& (before.stack@.len() > 0 && before.exception_frames@.len() > 0 ==> ({
                let ef = before.exception_frames@.last();
                let s0 = before.stack@.drop_last();
                let fr = if before.frames@.len() > ef.frame_depth { before.frames@.take(ef.frame_depth as int) } else { before.frames@ };
                let st = if s0.len() > ef.stack_depth { s0.take(ef.stack_depth as int) } else { s0 };
                &&& status_is_running(r)
                &&& after.exception_frames@ == before.exception_frames@.drop_last()
                &&& after.stack@ == st.push(before.stack@.last())
                &&& after.frames@ == if fr.len() > 0 { fr.update(fr.len() - 1, frame_at_ip(fr.last(), ef.handler_ip)) } else { fr }
            }))
    }

    /// `Throw`: pops the exception value and unwinds to the innermost
    /// handler; without one the exception is uncaught.
    pub(crate) fn op_throw(&mut self) -> (r: PulseResult<VMStatus>)
        requires
            old(self).wf(),
        ensures
            final(self).wf(),
            final(self).heap == old(self).heap,
            old(self).stack@.len() == 0 ==> crate::value::is_stack_underflow(r),
            old(self).stack@.len() > 0 && old(self).exception_frames@.len() == 0 ==> crate::value::is_runtime_error(r),
            old(self).stack@.len() > 0 && old(self).exception_frames@.len() > 0 ==> ({
                let ef = old(self).exception_frames@.last();
                let s0 = old(self).stack@.drop_last();
                let fr = if old(self).frames@.len() > ef.frame_depth { old(self).frames@.take(ef.frame_depth as int) } else { old(self).frames@ };
                let st = if s0.len() > ef.stack_depth { s0.take(ef.stack_depth as int) } else { s0 };
                &&& status_is_running(r)
                &&& final(self).exception_frames@ == old(self).exception_frames@.drop_last()
                &&& final(self).stack@ == st.push(old(self).stack@.last())
                &&& final(self).frames@ == if fr.len() > 0 { fr.update(fr.len() - 1, frame_at_ip(fr.last(), ef.handler_ip)) } else { fr }
            }),
    {
        let v = self.pop()?;
        self.unwind_to_handler(v)?;
        Ok(VMStatus::Running)
    }

    /// A string constant, or the error `msg` when there is none at `idx`.
    fn name_operand(&mut self, msg: &str) -> (r: PulseResult<String>)
        requires
            old(self).wf(),
        ensures
            final(self).wf(),
            final(self).heap == old(self).heap,
            final(self).stack == old(self).stack,
            env_eq_but_frames(*final(self), *old(self)),
            match u16_operand(*old(self)) {
                Some(idx) => {
                    &&& final(self).frames@ == old(self).frames@.update(old(self).frames@.len() - 1,
                        frame_at_ip(old(self).frames@.last(), (old(self).ip() + 2) as usize))
                    &&& match const_name(*old(self), idx as usize) {
                        Some(t) => r matches Ok(s) && s@ == t,
                        None => r matches Err(PulseError::RuntimeError(m)) && m@ == msg@,
                    }
                },
                None => r is Err,
            },
    {
        let idx = self.read_u16()? as usize;
        proof {
            assert(self.frame_chunk() == old(self).frame_chunk());
        }
        match self.constant_name(idx) {
            Ok(s) => Ok(s),
            Err(_) => Err(PulseError::RuntimeError(text(msg))),
        }
    }

    /// Runs one instruction; its operands follow it in the code.
    #[verifier::rlimit(100)]
    pub fn execute_op(&mut self, op: Op) -> (r: PulseResult<VMStatus>)
        requires
            old(self).wf(),
        ensures
            final(self).wf(),
            step_effect(op, *old(self), *final(self), r),
    {
        match op {
            Op::Halt => Ok(VMStatus::Halted),
            Op::Receive => Ok(VMStatus::Blocked),
            Op::Pop => {
                let r = self.op_pop();
                proof { assert(VM::pop_effect(*old(self), *self, r)); }
                r
            },
            Op::Dup => {
                let r = self.op_dup();
                proof { assert(VM::dup_effect(*old(self), *self, r)); }
                r
            },
            Op::IsList => {
                let r = self.op_is_kind(false);
                proof { assert(VM::is_kind_effect(*old(self), *self, r, false)); }
                r
            },
            Op::IsMap => {
                let r = self.op_is_kind(true);
                proof { assert(VM::is_kind_effect(*old(self), *self, r, true)); }
                r
            },
            Op::Len => {
                let r = self.op_len();
                proof { assert(VM::len_effect(*old(self), *self, r)); }
                r
            },
            Op::MapContainsKey => {
                let r = self.op_map_contains_key();
                proof { assert(VM::map_contains_key_effect(*old(self), *self, r)); }
                r
            },
            Op::ToString => {
                let r = self.op_to_string();
                proof { assert(VM::to_string_effect(*old(self), *self, r)); }
                r
            },
            Op::Slice => {
                let r = self.op_slice();
                proof { assert(VM::slice_effect(*old(self), *self, r)); }
                r
            },
            Op::Eq => {
                let r = self.op_equal(false);
                proof { assert(VM::equal_effect(*old(self), *self, r, false)); }
                r
            },
            Op::Neq => {
                let r = self.op_equal(true);
                proof { assert(VM::equal_effect(*old(self), *self, r, true)); }
                r
            },
            Op::Gt => {
                let r = self.op_compare(false);
                proof { assert(VM::compare_effect(*old(self), *self, r, false)); }
                r
            },
            Op::Lt => {
                let r = self.op_compare(true);
                proof { assert(VM::compare_effect(*old(self), *self, r, true)); }
                r
            },
            Op::And => {
                let r = self.op_logic(false);
                proof { assert(VM::logic_effect(*old(self), *self, r, false)); }
                r
            },
            Op::Or => {
                let r = self.op_logic(true);
                proof { assert(VM::logic_effect(*old(self), *self, r, true)); }
                r
            },
            Op::Add => {
                let r = self.op_arith(IntOp::Add);
                proof { assert(VM::arith_effect(*old(self), *self, r, IntOp::Add)); }
                r
            },
            Op::Sub => {
                let r = self.op_arith(IntOp::Sub);
                proof { assert(VM::arith_effect(*old(self), *self, r, IntOp::Sub)); }
                r
            },
            Op::Mul => {
                let r = self.op_arith(IntOp::Mul);
                proof { assert(VM::arith_effect(*old(self), *self, r, IntOp::Mul)); }
                r
            },
            Op::Div => {
                let r = self.op_arith(IntOp::Div);
                proof { assert(VM::arith_effect(*old(self), *self, r, IntOp::Div)); }
                r
            },
            Op::Mod => {
                let r = self.op_arith(IntOp::Mod);
                proof { assert(VM::arith_effect(*old(self), *self, r, IntOp::Mod)); }
                r
            },
            Op::Return => {
                let r = self.op_return();
                proof { assert(VM::return_effect(*old(self), *self, r)); }
                r
            },
            Op::Closure => {
                let r = self.op_closure();
                proof { assert(VM::closure_effect(*old(self), *self, r)); }
                r
            },
            Op::CloseUpvalue => {
                let r = self.op_close_upvalue();
                proof { assert(VM::close_upvalue_effect(*old(self), *self, r)); }
                r
            },
            Op::Print => {
                let r = self.op_print(1);
                proof { assert(VM::print_effect(*old(self), *self, r, 1)); }
                r
            },
            Op::Negate => {
                let r = self.op_negate();
                proof { assert(VM::negate_effect(*old(self), *self, r)); }
                r
            },
            Op::Not => {
                let r = self.op_not();
                proof { assert(VM::not_effect(*old(self), *self, r)); }
                r
            },
            Op::SelfId => {
                let r = self.op_self_id();
                proof { assert(VM::self_id_effect(*old(self), *self, r)); }
                r
            },
            Op::Send => {
                let r = self.op_send();
                proof { assert(VM::send_effect(*old(self), *self, r)); }
                r
            },
            Op::Link => {
                let r = self.op_watch(false);
                proof { assert(VM::watch_effect(*old(self), *self, r, false)); }
                r
            },
            Op::Monitor => {
                let r = self.op_watch(true);
                proof { assert(VM::watch_effect(*old(self), *self, r, true)); }
                r
            },
            Op::Register => {
                let r = self.op_register();
                proof { assert(VM::register_effect(*old(self), *self, r)); }
                r
            },
            Op::Unregister => {
                let r = self.op_name_query(false);
                proof { assert(VM::name_query_effect(*old(self), *self, r, false)); }
                r
            },
            Op::WhereIs => {
                let r = self.op_name_query(true);
                proof { assert(VM::name_query_effect(*old(self), *self, r, true)); }
                r
            },
            Op::GetIndex => {
                let r = self.op_get_index();
                proof { assert(VM::get_index_effect(*old(self), *self, r)); }
                r
            },
            Op::SetIndex => {
                let r = self.op_set_index();
                proof { assert(VM::set_index_effect(*old(self), *self, r)); }
                r
            },
            Op::Unit => {
                let r = self.op_unit();
                proof { assert(VM::unit_effect(*old(self), *self, r)); }
                r
            },
            Op::EndTry => {
                let r = self.op_end_try();
                proof { assert(VM::end_try_effect(*old(self), *self, r)); }
                r
            },
            Op::Throw => {
                let r = self.op_throw();
                proof { assert(VM::throw_effect(*old(self), *self, r)); }
                r
            },
            Op::CreateSharedMemory => {
                let r = self.op_create_shared();
                proof { assert(VM::create_shared_effect(*old(self), *self, r)); }
                r
            },
            Op::ReadSharedMemory => {
                let r = self.op_read_shared();
                proof { assert(VM::read_shared_effect(*old(self), *self, r)); }
                r
            },
            Op::WriteSharedMemory => {
                let r = self.op_write_shared();
                proof { assert(VM::write_shared_effect(*old(self), *self, r)); }
                r
            },
            Op::LockSharedMemory => {
                let r = self.op_lock_shared(true);
                proof { assert(VM::lock_shared_effect(*old(self), *self, r, true)); }
                r
            },
            Op::UnlockSharedMemory => {
                let r = self.op_lock_shared(false);
                proof { assert(VM::lock_shared_effect(*old(self), *self, r, false)); }
                r
            },
            Op::Slide => {
                let b = self.read_byte()?;
                let ghost mid = *self;
                let r = self.op_slide(b as usize);
                proof { assert(VM::slide_effect(mid, *self, r, b as usize)); }
                r
            },
            Op::Call => {
                let b = self.read_byte()?;
                let ghost mid = *self;
                let r = self.op_call(b as usize);
                proof { assert(VM::call_effect(mid, *self, r, b as usize)); }
                r
            },
            Op::GetUpvalue => {
                let b = self.read_byte()?;
                let ghost mid = *self;
                let r = self.op_get_upvalue(b as usize);
                proof { assert(VM::get_upvalue_effect(mid, *self, r, b as usize)); }
                r
            },
            Op::SetUpvalue => {
                let b = self.read_byte()?;
                let ghost mid = *self;
                let r = self.op_set_upvalue(b as usize);
                proof { assert(VM::set_upvalue_effect(mid, *self, r, b as usize)); }
                r
            },
            Op::GetLocal => {
                let b = self.read_byte()?;
                let ghost mid = *self;
                let r = self.op_get_local(b as usize);
                proof { assert(VM::get_local_effect(mid, *self, r, b as usize)); }
                r
            },
            Op::SetLocal => {
                let b = self.read_byte()?;
                let ghost mid = *self;
                let r = self.op_set_local(b as usize);
                proof { assert(VM::set_local_effect(mid, *self, r, b as usize)); }
                r
            },
            Op::PrintMulti => {
                let b = self.read_byte()?;
                let ghost mid = *self;
                let r = self.op_print(b as usize);
                proof { assert(VM::print_effect(mid, *self, r, b as usize)); }
                r
            },
            Op::BuildList => {
                let b = self.read_byte()?;
                let ghost mid = *self;
                let r = self.op_build_list(b as usize);
                proof { assert(VM::build_list_effect(mid, *self, r, b as usize)); }
                r
            },
            Op::BuildMap => {
                let b = self.read_byte()?;
                let ghost mid = *self;
                let r = self.op_build_map(b as usize);
                proof { assert(VM::build_map_effect(mid, *self, r, b as usize)); }
                r
            },
            Op::Const => {
                let v = self.read_u16()?;
                let ghost mid = *self;
                let r = self.op_const(v as usize);
                proof { assert(VM::const_effect(mid, *self, r, v as usize)); }
                r
            },
            Op::Jump => {
                let v = self.read_u16()?;
                let ghost mid = *self;
                let r = self.op_jump(v as usize);
                proof { assert(VM::jump_effect(mid, *self, r, v as usize)); }
                r
            },
            Op::JumpIfFalse => {
                let v = self.read_u16()?;
                let ghost mid = *self;
                let r = self.op_jump_if_false(v as usize);
                proof { assert(VM::jump_if_false_effect(mid, *self, r, v as usize)); }
                r
            },
            Op::Loop => {
                let v = self.read_u16()?;
                let ghost mid = *self;
                let r = self.op_loop(v as usize);
                proof { assert(VM::loop_effect(mid, *self, r, v as usize)); }
                r
            },
            Op::Try => {
                let v = self.read_u16()?;
                let ghost mid = *self;
                let r = self.op_try(v as usize);
                proof { assert(VM::try_effect(mid, *self, r, v as usize)); }
                r
            },
            Op::GetGlobal => {
                let name = self.name_operand("Global name must be string")?;
                let ghost mid = *self;
                let ghost s = name;
                let r = self.op_get_global(name);
                proof { assert(VM::get_global_effect(mid, *self, r, s)); }
                r
            },
            Op::SetGlobal => {
                let name = self.name_operand("Global name must be string")?;
                let ghost mid = *self;
                let ghost s = name;
                let r = self.op_set_global(name);
                proof { assert(VM::set_global_effect(mid, *self, r, s)); }
                r
            },
            Op::DefineGlobal => {
                let name = self.name_operand("Global name must be string")?;
                let ghost mid = *self;
                let ghost s = name;
                let r = self.op_define_global(name);
                proof { assert(VM::define_global_effect(mid, *self, r, s)); }
                r
            },
            Op::GetSuper => {
                let name = self.name_operand("Method name must be string")?;
                let ghost mid = *self;
                let ghost s = name;
                let r = self.op_get_super(name);
                proof { assert(VM::get_super_effect(mid, *self, r, s)); }
                r
            },
            Op::Method => {
                let name = self.name_operand("Method name must be string")?;
                let ghost mid = *self;
                let ghost s = name;
                let r = self.op_method(name);
                proof { assert(VM::method_effect(mid, *self, r, s)); }
                r
            },
            Op::Spawn => {
                let offset = self.read_u16()? as usize;
                Ok(VMStatus::Spawn(offset))
            },
            Op::SpawnLink => {
                let offset = self.read_u16()? as usize;
                Ok(VMStatus::SpawnLink(offset))
            },
            Op::Import => {
                let idx = self.read_u16()? as usize;
                let ghost mid = *self;
                proof {
                    assert(self.frames@.last().closure == old(self).frames@.last().closure);
                    assert(self.frame_chunk() == old(self).frame_chunk());
                }
                let path = match self.constant_name(idx) {
                    Ok(p) => p,
                    Err(_) => {
                        return Err(PulseError::TypeMismatch { expected: text("string"), got: text("other constant") });
                    },
                };
                let ghost s = path;
                let r = self.op_import(path);
                proof { assert(VM::import_effect(mid, *self, r, s)); }
                r
            },
            Op::BuildClass => self.class_instruction(),
        }
    }

    /// `BuildClass`: its name operand, whether a superclass follows, and
    /// the superclass operand when one does.
    fn class_instruction(&mut self) -> (r: PulseResult<VMStatus>)
        requires
            old(self).wf(),
        ensures
            final(self).wf(),
            class_step(*old(self), *final(self), r),
    {
        let name_idx = self.read_u16()? as usize;
        proof {
            assert(self.frames@.last().closure == old(self).frames@.last().closure);
            assert(self.frame_code() == old(self).frame_code());
            assert(self.frame_chunk() == old(self).frame_chunk());
            assert(self.ip() == old(self).ip() + 2);
        }
        let ghost m1 = *self;
        let has_super = self.read_byte()?;
        proof {
            assert(self.frames@.last().closure == old(self).frames@.last().closure);
            assert(self.frame_code() == old(self).frame_code());
            assert(self.frame_chunk() == old(self).frame_chunk());
            assert(self.ip() == old(self).ip() + 3);
            assert(self.frames@ == old(self).frames@.update(old(self).frames@.len() - 1,
                frame_at_ip(old(self).frames@.last(), (old(self).ip() + 3) as usize)));
        }
        let name = match self.constant_name(name_idx) {
            Ok(n) => n,
            Err(_) => {
                return Err(PulseError::RuntimeError(text("Class name must be string")));
            },
        };
        let superclass = if has_super == 1 {
            let super_idx = self.read_u16()? as usize;
            proof {
                assert(self.frames@.last().closure == old(self).frames@.last().closure);
                assert(self.frame_chunk() == old(self).frame_chunk());
                assert(self.frames@ == old(self).frames@.update(old(self).frames@.len() - 1,
                    frame_at_ip(old(self).frames@.last(), (old(self).ip() + 5) as usize)));
            }
            let mut s = text("superclass_placeholder_");
            match self.constant_name(super_idx) {
                Ok(n) => crate::text::push_str(&mut s, n.as_str()),
                Err(_) => crate::text::push_str(&mut s, "unknown"),
            }
            Some(s)
        } else {
            None
        };
        let ghost mid = *self;
        let ghost nm = name;
        let ghost sc = superclass;
        let r = self.op_build_class(name, superclass);
        proof { assert(VM::build_class_effect(mid, *self, r, nm, sc)); }
        r
    }

    /// Where the innermost frame is: its instruction pointer, the source
    /// line of that byte (0 when unknown) and the number of frames; `None`
    /// at the end of its code.
    fn position(&self) -> (r: PulseResult<Option<(usize, usize, usize)>>)
        requires
            self.wf(),
        ensures
            match r {
                Ok(Some((ip, line, depth))) => self.frame_code() matches Some(code) && self.ip() < code.len()
                    && ip == self.ip() && depth == self.frames@.len() && line == frame_line(*self),
                Ok(None) => self.frame_code() matches Some(code) && self.ip() >= code.len(),
                Err(_) => self.frame_code() is None,
            },
    {
        if self.frames.len() == 0 {
            return Err(PulseError::RuntimeError(text("No frame")));
        }
        let frame = &self.frames[self.frames.len() - 1];
        match self.heap.get(frame.closure) {
            Some(Object::Closure(c)) => {
                let chunk = &c.function.chunk;
                if frame.ip >= chunk.code.len() {
                    return Ok(None);
                }
                let line = if frame.ip < chunk.lines.len() { chunk.lines[frame.ip] } else { 0 };
                Ok(Some((frame.ip, line, self.frames.len())))
            },
            _ => Err(PulseError::RuntimeError(text("Closure not found"))),
        }
    }

    /// Runs up to `steps` instructions. Stops early when an instruction
    /// asks the host for something (a status other than `Running`), on an
    /// error, at the end of the code (`Halted`), or where the debugger
    /// pauses: at a breakpoint line, or after a step.
    pub fn run(&mut self, steps: usize) -> (r: VMStatus)
        requires
            old(self).wf(),
        ensures
            final(self).wf(),
            runs_to(*old(self), steps as nat, *final(self), r),
    {
        let mut left = steps;
        let ghost mut k: nat = steps as nat;
        while left > 0
            invariant
                self.wf(),
                left <= steps,
                k == left as nat,
                forall|x: VM, st: VMStatus| #[trigger] runs_to(*self, k, x, st) ==> runs_to(*old(self), steps as nat, x, st),
            decreases left,
        {
            let ghost cur = *self;
            let (ip, line, depth) = match self.position() {
                Ok(Some(p)) => p,
                Ok(None) => {
                    proof { assert(runs_to(cur, k, *self, VMStatus::Halted)); }
                    return VMStatus::Halted;
                },
                Err(e) => {
                    proof { assert(runs_to(cur, k, *self, VMStatus::Error(e))); }
                    return VMStatus::Error(e);
                },
            };
            let mut ctx_opt = self.debug_ctx.take();
            match ctx_opt {
                Some(mut ctx) => {
                    if ctx.should_pause(ip, line, depth) {
                        ctx.mark_paused(ip);
                        self.debug_ctx = Some(ctx);
                        proof { assert(runs_to(cur, k, *self, VMStatus::Paused)); }
                        return VMStatus::Paused;
                    }
                    self.debug_ctx = Some(ctx);
                },
                None => {},
            }
            assert(*self == cur);
            let dbg = self.debug_ctx.take();
            let ghost bare = *self;
            assert(bare == with_debug(cur, None));
            let code = match self.read_byte() {
                Ok(b) => b,
                Err(e) => {
                    proof { assert(false); }
                    return VMStatus::Error(e);
                },
            };
            let ghost mid = *self;
            let op = match Op::from_byte(code) {
                Some(op) => op,
                None => {
                    self.debug_ctx = dbg;
                    let e = PulseError::RuntimeError(text("Unknown opcode"));
                    proof { assert(runs_to(cur, k, *self, VMStatus::Error(e))); }
                    return VMStatus::Error(e);
                },
            };
            let res = self.execute_op(op);
            let ghost next = *self;
            self.debug_ctx = dbg;
            proof {
                assert(first_op(cur) == Some(op));
                assert(advanced(with_debug(cur, None), mid, 1));
                assert(step_effect(op, mid, next, res));
                assert(*self == with_debug(next, cur.debug_ctx));
            }
            match res {
                Ok(VMStatus::Running) => {
                    proof {
                        assert forall|x: VM, st: VMStatus| #[trigger] runs_to(*self, (k - 1) as nat, x, st)
                            implies runs_to(*old(self), steps as nat, x, st) by {
                            assert(runs_to(cur, k, x, st));
                        }
                    }
                },
                Ok(status) => {
                    proof { assert(runs_to(cur, k, *self, status)); }
                    return status;
                },
                Err(e) => {
                    proof { assert(runs_to(cur, k, *self, VMStatus::Error(e))); }
                    return VMStatus::Error(e);
                },
            }
            left = left - 1;
            proof { k = (k - 1) as nat; }
        }
        proof { assert(runs_to(*self, k, *self, VMStatus::Running)); }
        VMStatus::Running
    }
}

/// The source line of the instruction at the pointer, 0 where the chunk
/// records none.
pub open spec fn frame_line(vm: VM) -> usize {
    match vm.frame_chunk() {
        Some(ch) => if vm.ip() < ch.lines@.len() { ch.lines@[vm.ip() as int] } else { 0 },
        None => 0,
    }
}

/// The pointer is at an instruction of the innermost frame's code.
pub open spec fn at_instruction(vm: VM) -> bool {
    vm.frame_code() matches Some(code) && vm.ip() < code.len()
}

/// The debugger stops before the instruction at the pointer: when stepping,
/// or at a breakpoint line it has not just stopped at.
pub open spec fn pauses_here(vm: VM) -> bool {
    vm.debug_ctx matches Some(ctx) && (ctx.mode == StepMode::StepIn
        || (ctx.breakpoints@.contains(frame_line(vm)) && ctx.paused_at != Some(vm.ip())))
}

/// The instruction at the pointer.
pub open spec fn first_op(vm: VM) -> Option<Op> {
    crate::bytecode::spec_op_of_byte(vm.frame_code()->Some_0[vm.ip() as int])
}

/// `after` is `before` where the debugger stopped: it records the stop at
/// the pointer and goes back to running, keeping its breakpoints.
pub open spec fn paused(before: VM, after: VM) -> bool {
    &&& after.frames == before.frames
    &&& after.stack == before.stack
    &&& after.heap == before.heap
    &&& env_eq(after, before)
    &&& after.debug_ctx matches Some(c) && c.paused_at == Some(before.ip()) && c.mode == StepMode::Continue
        && c.breakpoints@ == before.debug_ctx->Some_0.breakpoints@
}

/// `vm` with the debugger state `d`.
pub open spec fn with_debug(vm: VM, d: Option<DebugContext>) -> VM {
    VM { debug_ctx: d, ..vm }
}

/// Running at most `n` instructions from `before` ends in `after` with the
/// status `r`: with no instructions left, still running; without a frame
/// to run, an error; at the end of the code, halted; where the debugger
/// stops, paused; at a byte that is no instruction, an error (the pointer
/// past it); otherwise the instruction runs (`step_effect`) with the
/// debugger set aside, which is then put back as it was, and the run goes
/// on while the instruction gives `Running`, or ends with what it gave.
pub open spec fn runs_to(before: VM, n: nat, after: VM, r: VMStatus) -> bool
    decreases n,
{
    if n == 0 {
        r is Running && after == before
    } else if before.frame_code() is None {
        r is Error && after == before
    } else if !at_instruction(before) {
        r is Halted && after == before
    } else if pauses_here(before) {
        r is Paused && paused(before, after)
    } else {
        match first_op(before) {
            None => r matches VMStatus::Error(PulseError::RuntimeError(_)) && advanced(before, after, 1),
            Some(op) => exists|mid: VM, next: VM, res: PulseResult<VMStatus>|
                #![trigger step_effect(op, mid, next, res)]
                advanced(with_debug(before, None), mid, 1) && step_effect(op, mid, next, res) && match res {
                    Ok(VMStatus::Running) => runs_to(with_debug(next, before.debug_ctx), (n - 1) as nat, after, r),
                    Ok(st) => r == st && after == with_debug(next, before.debug_ctx),
                    Err(e) => r == VMStatus::Error(e) && after == with_debug(next, before.debug_ctx),
                },
        }
    }
}

/// The two-byte operand at the instruction pointer, low byte first, when
/// the code holds one there.
pub open spec fn u16_operand(vm: VM) -> Option<int> {
    match vm.frame_code() {
        Some(code) => if vm.ip() + 1 < code.len() && vm.ip() + 2 <= usize::MAX {
            Some(code[vm.ip() as int] + 256 * code[vm.ip() + 1])
        } else {
            None
        },
        None => None,
    }
}

/// Everything but the frames and the stack is the same in `a` and `b`.
pub open spec fn env_eq_but_frames(a: VM, b: VM) -> bool {
    &&& a.globals == b.globals
    &&& a.builtins == b.builtins
    &&& a.global_cache == b.global_cache
    &&& a.loaded_modules == b.loaded_modules
    &&& a.exception_frames == b.exception_frames
    &&& a.open_upvalues == b.open_upvalues
    &&& a.pid == b.pid
    &&& a.debug_ctx == b.debug_ctx
}

/// The byte `k` places after the instruction pointer, when the code holds
/// one there.
pub open spec fn code_byte(vm: VM, k: int) -> Option<int> {
    match vm.frame_code() {
        Some(code) => if vm.ip() + k < code.len() { Some(code[vm.ip() + k] as int) } else { None },
        None => None,
    }
}

/// The one-byte operand at the instruction pointer.
pub open spec fn byte_operand(vm: VM) -> Option<int> {
    code_byte(vm, 0)
}

/// The two-byte operand `k` places after the instruction pointer, low
/// byte first.
pub open spec fn u16_at(vm: VM, k: int) -> Option<int> {
    match (code_byte(vm, k), code_byte(vm, k + 1)) {
        (Some(lo), Some(hi)) => Some(lo + 256 * hi),
        _ => None,
    }
}

/// `b` is `a` with the innermost frame's instruction pointer `n` bytes
/// further on, and nothing else changed.
pub open spec fn advanced(a: VM, b: VM, n: int) -> bool {
    &&& a.frames@.len() > 0
    &&& b.frames@ == a.frames@.update(a.frames@.len() - 1, frame_at_ip(a.frames@.last(), (a.ip() + n) as usize))
    &&& b.stack == a.stack
    &&& b.heap == a.heap
    &&& env_eq_but_frames(b, a)
    &&& b.wf()
}

/// An operand could not be read: an error, with the stack, the heap and
/// everything but the frames unchanged.
pub open spec fn read_failed(before: VM, after: VM, r: PulseResult<VMStatus>) -> bool {
    &&& r is Err
    &&& after.stack == before.stack
    &&& after.heap == before.heap
    &&& env_eq_but_frames(after, before)
}

/// What `BuildClass` does: the class is named by the string constant its
/// first operand indexes; when the byte after it is 1, a superclass name
/// follows, made of a fixed prefix and the string constant the next
/// operand indexes (`unknown` where that is no string).
pub open spec fn class_step(before: VM, after: VM, r: PulseResult<VMStatus>) -> bool {
    match (u16_operand(before), code_byte(before, 2)) {
        (Some(ni), Some(hs)) => match const_name(before, ni as usize) {
            None => crate::value::is_runtime_error(r),
            Some(t) => if hs != 1 {
                exists|mid: VM, s: String| advanced(before, mid, 3) && s@ == t
                    && #[trigger] VM::build_class_effect(mid, after, r, s, None::<String>)
            } else {
                match u16_at(before, 3) {
                    Some(si) => exists|mid: VM, s: String, sup: String| advanced(before, mid, 5) && s@ == t
                        && sup@ == "superclass_placeholder_"@ + (match const_name(before, si as usize) {
                            Some(u) => u,
                            None => "unknown"@,
                        })
                        && #[trigger] VM::build_class_effect(mid, after, r, s, Some(sup)),
                    None => r is Err,
                }
            },
        },
        _ => r is Err,
    }
}

/// What one instruction does, from `before` to `after`, giving `r`: the
/// effect its handler states, after its operands are read (an operand that
/// cannot be read is an error).
pub open spec fn step_effect(op: Op, before: VM, after: VM, r: PulseResult<VMStatus>) -> bool {
    match op {
            Op::Halt => r == Ok::<VMStatus, PulseError>(VMStatus::Halted) && after == before,
            Op::Receive => r == Ok::<VMStatus, PulseError>(VMStatus::Blocked) && after == before,
            Op::Pop => VM::pop_effect(before, after, r),
            Op::Dup => VM::dup_effect(before, after, r),
            Op::IsList => VM::is_kind_effect(before, after, r, false),
            Op::IsMap => VM::is_kind_effect(before, after, r, true),
            Op::Len => VM::len_effect(before, after, r),
            Op::MapContainsKey => VM::map_contains_key_effect(before, after, r),
            Op::ToString => VM::to_string_effect(before, after, r),
            Op::Slice => VM::slice_effect(before, after, r),
            Op::Eq => VM::equal_effect(before, after, r, false),
            Op::Neq => VM::equal_effect(before, after, r, true),
            Op::Gt => VM::compare_effect(before, after, r, false),
            Op::Lt => VM::compare_effect(before, after, r, true),
            Op::And => VM::logic_effect(before, after, r, false),
            Op::Or => VM::logic_effect(before, after, r, true),
            Op::Add => VM::arith_effect(before, after, r, IntOp::Add),
            Op::Sub => VM::arith_effect(before, after, r, IntOp::Sub),
            Op::Mul => VM::arith_effect(before, after, r, IntOp::Mul),
            Op::Div => VM::arith_effect(before, after, r, IntOp::Div),
            Op::Mod => VM::arith_effect(before, after, r, IntOp::Mod),
            Op::Return => VM::return_effect(before, after, r),
            Op::Closure => VM::closure_effect(before, after, r),
            Op::CloseUpvalue => VM::close_upvalue_effect(before, after, r),
            Op::Print => VM::print_effect(before, after, r, 1),
            Op::Negate => VM::negate_effect(before, after, r),
            Op::Not => VM::not_effect(before, after, r),
            Op::SelfId => VM::self_id_effect(before, after, r),
            Op::Send => VM::send_effect(before, after, r),
            Op::Link => VM::watch_effect(before, after, r, false),
            Op::Monitor => VM::watch_effect(before, after, r, true),
            Op::Register => VM::register_effect(before, after, r),
            Op::Unregister => VM::name_query_effect(before, after, r, false),
            Op::WhereIs => VM::name_query_effect(before, after, r, true),
            Op::GetIndex => VM::get_index_effect(before, after, r),
            Op::SetIndex => VM::set_index_effect(before, after, r),
            Op::Unit => VM::unit_effect(before, after, r),
            Op::EndTry => VM::end_try_effect(before, after, r),
            Op::Throw => VM::throw_effect(before, after, r),
            Op::CreateSharedMemory => VM::create_shared_effect(before, after, r),
            Op::ReadSharedMemory => VM::read_shared_effect(before, after, r),
            Op::WriteSharedMemory => VM::write_shared_effect(before, after, r),
            Op::LockSharedMemory => VM::lock_shared_effect(before, after, r, true),
            Op::UnlockSharedMemory => VM::lock_shared_effect(before, after, r, false),
            Op::Slide => match byte_operand(before) {
                Some(b) => exists|mid: VM, n: usize| advanced(before, mid, 1) && n == b && #[trigger] VM::slide_effect(mid, after, r, n),
                None => read_failed(before, after, r),
            },
            Op::Call => match byte_operand(before) {
                Some(b) => exists|mid: VM, n: usize| advanced(before, mid, 1) && n == b && #[trigger] VM::call_effect(mid, after, r, n),
                None => read_failed(before, after, r),
            },
            Op::GetUpvalue => match byte_operand(before) {
                Some(b) => exists|mid: VM, n: usize| advanced(before, mid, 1) && n == b && #[trigger] VM::get_upvalue_effect(mid, after, r, n),
                None => read_failed(before, after, r),
            },
            Op::SetUpvalue => match byte_operand(before) {
                Some(b) => exists|mid: VM, n: usize| advanced(before, mid, 1) && n == b && #[trigger] VM::set_upvalue_effect(mid, after, r, n),
                None => read_failed(before, after, r),
            },
            Op::GetLocal => match byte_operand(before) {
                Some(b) => exists|mid: VM, n: usize| advanced(before, mid, 1) && n == b && #[trigger] VM::get_local_effect(mid, after, r, n),
                None => read_failed(before, after, r),
            },
            Op::SetLocal => match byte_operand(before) {
                Some(b) => exists|mid: VM, n: usize| advanced(before, mid, 1) && n == b && #[trigger] VM::set_local_effect(mid, after, r, n),
                None => read_failed(before, after, r),
            },
            Op::PrintMulti => match byte_operand(before) {
                Some(b) => exists|mid: VM, n: usize| advanced(before, mid, 1) && n == b && #[trigger] VM::print_effect(mid, after, r, n),
                None => read_failed(before, after, r),
            },
            Op::BuildList => match byte_operand(before) {
                Some(b) => exists|mid: VM, n: usize| advanced(before, mid, 1) && n == b && #[trigger] VM::build_list_effect(mid, after, r, n),
                None => read_failed(before, after, r),
            },
            Op::BuildMap => match byte_operand(before) {
                Some(b) => exists|mid: VM, n: usize| advanced(before, mid, 1) && n == b && #[trigger] VM::build_map_effect(mid, after, r, n),
                None => read_failed(before, after, r),
            },
            Op::Const => match u16_operand(before) {
                Some(v) => exists|mid: VM, n: usize| advanced(before, mid, 2) && n == v && #[trigger] VM::const_effect(mid, after, r, n),
                None => read_failed(before, after, r),
            },
            Op::Jump => match u16_operand(before) {
                Some(v) => exists|mid: VM, n: usize| advanced(before, mid, 2) && n == v && #[trigger] VM::jump_effect(mid, after, r, n),
                None => read_failed(before, after, r),
            },
            Op::JumpIfFalse => match u16_operand(before) {
                Some(v) => exists|mid: VM, n: usize| advanced(before, mid, 2) && n == v && #[trigger] VM::jump_if_false_effect(mid, after, r, n),
                None => read_failed(before, after, r),
            },
            Op::Loop => match u16_operand(before) {
                Some(v) => exists|mid: VM, n: usize| advanced(before, mid, 2) && n == v && #[trigger] VM::loop_effect(mid, after, r, n),
                None => read_failed(before, after, r),
            },
            Op::Try => match u16_operand(before) {
                Some(v) => exists|mid: VM, n: usize| advanced(before, mid, 2) && n == v && #[trigger] VM::try_effect(mid, after, r, n),
                None => read_failed(before, after, r),
            },
            Op::GetGlobal => match u16_operand(before) {
                Some(v) => match const_name(before, v as usize) {
                    Some(t) => exists|mid: VM, s: String| advanced(before, mid, 2) && s@ == t && #[trigger] VM::get_global_effect(mid, after, r, s),
                    None => r matches Err(PulseError::RuntimeError(m)) && m@ == "Global name must be string"@ && advanced(before, after, 2),
                },
                None => read_failed(before, after, r),
            },
            Op::SetGlobal => match u16_operand(before) {
                Some(v) => match const_name(before, v as usize) {
                    Some(t) => exists|mid: VM, s: String| advanced(before, mid, 2) && s@ == t && #[trigger] VM::set_global_effect(mid, after, r, s),
                    None => r matches Err(PulseError::RuntimeError(m)) && m@ == "Global name must be string"@ && advanced(before, after, 2),
                },
                None => read_failed(before, after, r),
            },
            Op::DefineGlobal => match u16_operand(before) {
                Some(v) => match const_name(before, v as usize) {
                    Some(t) => exists|mid: VM, s: String| advanced(before, mid, 2) && s@ == t && #[trigger] VM::define_global_effect(mid, after, r, s),
                    None => r matches Err(PulseError::RuntimeError(m)) && m@ == "Global name must be string"@ && advanced(before, after, 2),
                },
                None => read_failed(before, after, r),
            },
            Op::GetSuper => match u16_operand(before) {
                Some(v) => match const_name(before, v as usize) {
                    Some(t) => exists|mid: VM, s: String| advanced(before, mid, 2) && s@ == t && #[trigger] VM::get_super_effect(mid, after, r, s),
                    None => r matches Err(PulseError::RuntimeError(m)) && m@ == "Method name must be string"@ && advanced(before, after, 2),
                },
                None => read_failed(before, after, r),
            },
            Op::Method => match u16_operand(before) {
                Some(v) => match const_name(before, v as usize) {
                    Some(t) => exists|mid: VM, s: String| advanced(before, mid, 2) && s@ == t && #[trigger] VM::method_effect(mid, after, r, s),
                    None => r matches Err(PulseError::RuntimeError(m)) && m@ == "Method name must be string"@ && advanced(before, after, 2),
                },
                None => read_failed(before, after, r),
            },
            Op::Spawn => match u16_operand(before) {
                Some(v) => r == Ok::<VMStatus, PulseError>(VMStatus::Spawn(v as usize)) && advanced(before, after, 2),
                None => read_failed(before, after, r),
            },
            Op::SpawnLink => match u16_operand(before) {
                Some(v) => r == Ok::<VMStatus, PulseError>(VMStatus::SpawnLink(v as usize)) && advanced(before, after, 2),
                None => read_failed(before, after, r),
            },
            Op::Import => match u16_operand(before) {
                Some(v) => match const_name(before, v as usize) {
                    Some(t) => exists|mid: VM, s: String| advanced(before, mid, 2) && s@ == t && #[trigger] VM::import_effect(mid, after, r, s),
                    None => crate::value::is_type_mismatch(r) && advanced(before, after, 2),
                },
                None => read_failed(before, after, r),
            },
            Op::BuildClass => class_step(before, after, r),
    }
}


/// What one step of the interpreter does to two integers `x` (below) and
/// `y` (on top): `Add`, `Sub` and `Mul` push `x + y`, `x - y` and `x * y`
/// (a runtime error when that leaves `i64`), `Div` and `Mod` push the
/// quotient and remainder (for `x >= 0` and `y > 0`, `x / y` and `x % y`)
/// and a zero divisor is the error "Division by zero" or "Modulo by zero";
/// `Lt`, `Gt`, `Eq` and `Neq` push whether `x < y`, `x > y`, `x == y` and
/// `x != y`. The values below the two stay as they were.
pub proof fn law_step_on_integers(op: Op, before: VM, after: VM, r: PulseResult<VMStatus>, x: i64, y: i64)
    requires
        step_effect(op, before, after, r),
        before.stack@.len() >= 2,
        before.stack@[before.stack@.len() - 2] == Value::Int(x),
        before.stack@.last() == Value::Int(y),
    ensures
        ({
            let rest = stack_below(before.stack@, 2);
            let pushes = |v: Value| status_is_running(r) && after.stack@ == rest.push(v);
            &&& (op == Op::Add ==> if i64::MIN <= x + y <= i64::MAX { pushes(Value::Int((x + y) as i64)) } else { crate::value::is_runtime_error(r) })
            &&& (op == Op::Sub ==> if i64::MIN <= x - y <= i64::MAX { pushes(Value::Int((x - y) as i64)) } else { crate::value::is_runtime_error(r) })
            &&& (op == Op::Mul ==> if i64::MIN <= x * y <= i64::MAX { pushes(Value::Int((x * y) as i64)) } else { crate::value::is_runtime_error(r) })
            &&& (op == Op::Div && y == 0 ==> (r matches Err(PulseError::RuntimeError(m)) && m@ == "Division by zero"@))
            &&& (op == Op::Mod && y == 0 ==> (r matches Err(PulseError::RuntimeError(m)) && m@ == "Modulo by zero"@))
            &&& (op == Op::Div && x >= 0 && y > 0 ==> pushes(Value::Int((x / y) as i64)))
            &&& (op == Op::Mod && x >= 0 && y > 0 ==> pushes(Value::Int((x % y) as i64)))
            &&& (op == Op::Lt ==> pushes(Value::Bool(x < y)))
            &&& (op == Op::Gt ==> pushes(Value::Bool(x > y)))
            &&& (op == Op::Eq ==> pushes(Value::Bool(x == y)))
            &&& (op == Op::Neq ==> pushes(Value::Bool(x != y)))
        }),
{
    crate::arith::law_int_division(x as int, y as int);
    if op == Op::Div && x >= 0 && y > 0 {
        assert(crate::arith::trunc_div(x as int, y as int) == x / y);
    }
    if op == Op::Mod && x >= 0 && y > 0 {
        assert(crate::arith::trunc_rem(x as int, y as int) == x % y);
    }
}

/// What one step does to truth values: `And` and `Or` push the conjunction
/// and disjunction of two booleans, `Not` pushes the negation of the top
/// value's truth (`false` and unit are false, anything else true), and
/// `Negate` pushes `-n` for an integer `n` other than `i64::MIN`.
pub proof fn law_step_on_truth(op: Op, before: VM, after: VM, r: PulseResult<VMStatus>)
    requires
        step_effect(op, before, after, r),
        before.stack@.len() >= 2,
    ensures
        ({
            let a = before.stack@[before.stack@.len() - 2];
            let b = before.stack@.last();
            &&& (op == Op::And && a is Bool && b is Bool) ==> status_is_running(r)
                && after.stack@ == stack_below(before.stack@, 2).push(Value::Bool(a->Bool_0 && b->Bool_0))
            &&& (op == Op::Or && a is Bool && b is Bool) ==> status_is_running(r)
                && after.stack@ == stack_below(before.stack@, 2).push(Value::Bool(a->Bool_0 || b->Bool_0))
            &&& (op == Op::Not) ==> status_is_running(r) && after.stack@.drop_last() == before.stack@.drop_last()
                && after.stack@.last() == Value::Bool(if b is Bool { !b->Bool_0 } else { b is Unit })
            &&& (op == Op::Negate && b is Int && b->Int_0 != i64::MIN) ==> status_is_running(r)
                && after.stack@ == before.stack@.drop_last().push(Value::Int((-b->Int_0) as i64))
        }),
{
    let b = before.stack@.last();
    if op == Op::Not {
        assert(after.stack@.drop_last() =~= before.stack@.drop_last());
    }
}

/// `Eq` and `Neq` on two strings compare their texts: wherever the two are
/// stored, `Eq` pushes `true` and `Neq` `false` exactly when the texts are
/// the same.
pub proof fn law_step_compares_string_texts(op: Op, before: VM, after: VM, r: PulseResult<VMStatus>)
    requires
        op == Op::Eq || op == Op::Neq,
        step_effect(op, before, after, r),
        before.stack@.len() >= 2,
        before.stack@[before.stack@.len() - 2] is Obj,
        before.stack@.last() is Obj,
        crate::vm::heap_string(before.heap, before.stack@[before.stack@.len() - 2]->Obj_0) is Some,
        crate::vm::heap_string(before.heap, before.stack@.last()->Obj_0) is Some,
    ensures
        ({
            let s = crate::vm::heap_string(before.heap, before.stack@[before.stack@.len() - 2]->Obj_0)->Some_0;
            let t = crate::vm::heap_string(before.heap, before.stack@.last()->Obj_0)->Some_0;
            status_is_running(r) && after.stack@ == stack_below(before.stack@, 2).push(Value::Bool((s == t) == (op == Op::Eq)))
        }),
{
    crate::vm::law_strings_equal_by_text(before.heap, before.stack@[before.stack@.len() - 2]->Obj_0, before.stack@.last()->Obj_0);
}
} // verus!

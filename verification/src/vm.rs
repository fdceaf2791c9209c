use vstd::prelude::*;
use std::sync::Arc;
use crate::value::{ActorId, ObjHandle, Value, PulseError, PulseResult, text};
use crate::bytecode::{Chunk, Constant, Function, Op, share_chunk, spec_op_of_byte};
use crate::object::{Object, Closure, NativeFn, child_values};
use crate::namemap::NameMap;
use crate::heap::{Heap, reachable_set, gray_set, lemma_trace_marks_reachable, lemma_reachable_live_roots};
use crate::debug::DebugContext;

verus! {

broadcast use vstd::std_specs::vec::group_vec_axioms;

/// An activation of a closure: where its code is, where its locals start
/// on the stack, and for a module body the globals to restore on return.
pub struct CallFrame {
    pub closure: ObjHandle,
    pub ip: usize,
    pub stack_start: usize,
    pub is_module: bool,
    pub source_path: Option<String>,
    pub prev_globals: Option<NameMap<Value>>,
}

/// An active `try`: where its handler is and the depths to unwind to.
#[derive(Clone, Copy, Debug, PartialEq, Eq, Structural)]
pub struct ExceptionFrame {
    pub handler_ip: usize,
    pub stack_depth: usize,
    pub frame_depth: usize,
}

/// A floating-point operation the host performs on behalf of the VM.
#[derive(Clone, Copy, Debug, PartialEq, Eq, Structural)]
pub enum FloatOp {
    Add,
    Sub,
    Mul,
    Div,
    Mod,
    Negate,
    Gt,
    Lt,
    Eq,
    Neq,
    ToString,
}

/// A piece of printed output; floats are formatted by the host.
pub enum OutputPiece {
    Text(String),
    Float(u64),
}

/// Why `run` stopped, and what the host is asked to do.
pub enum VMStatus {
    Running,
    Yielded,
    /// Waiting for a message.
    Blocked,
    Halted,
    /// Stopped by the debugger.
    Paused,
    Error(PulseError),
    /// Spawn an actor running the same code from this offset.
    Spawn(usize),
    Send { target: ActorId, msg: Constant },
    /// Load the module at this path.
    Import(String),
    Link(ActorId),
    Monitor(ActorId),
    SpawnLink(usize),
    Register(String, ActorId),
    Unregister(String),
    WhereIs(String),
    /// Compute `op` on the operands and push the result.
    FloatOp { op: FloatOp, lhs: Value, rhs: Value },
    /// Call the host function `name` with `args` and push its result.
    NativeCall { name: String, args: Vec<Value> },
    /// Print the pieces, then a newline.
    Output(Vec<OutputPiece>),
}

/// The interpreter of one actor.
pub struct VM {
    pub pid: ActorId,
    pub stack: Vec<Value>,
    pub frames: Vec<CallFrame>,
    pub globals: NameMap<Value>,
    pub builtins: NameMap<Value>,
    /// Values of globals looked up before, dropped when the global changes.
    pub global_cache: NameMap<Value>,
    pub heap: Heap,
    /// Upvalues that still refer to stack slots.
    pub open_upvalues: Vec<ObjHandle>,
    pub loaded_modules: NameMap<ObjHandle>,
    pub exception_frames: Vec<ExceptionFrame>,
    pub debug_ctx: Option<DebugContext>,
}

pub open spec fn value_handles(vals: Seq<Value>) -> Set<int> {
    Set::new(|x: int| exists|i: int| 0 <= i < vals.len() && #[trigger] vals[i] == Value::Obj(ObjHandle(x as usize)) && 0 <= x <= usize::MAX)
}

pub open spec fn frame_closures(frames: Seq<CallFrame>) -> Seq<Value> {
    frames.map_values(|f: CallFrame| Value::Obj(f.closure))
}

pub open spec fn handle_vals(hs: Seq<ObjHandle>) -> Seq<Value> {
    hs.map_values(|h: ObjHandle| Value::Obj(h))
}

pub open spec fn map_vals(m: NameMap<Value>) -> Seq<Value> {
    m.entries@.map_values(|e: (String, Value)| e.1)
}

pub open spec fn module_vals(m: NameMap<ObjHandle>) -> Seq<Value> {
    m.entries@.map_values(|e: (String, ObjHandle)| Value::Obj(e.1))
}

impl VM {
    pub open spec fn wf(&self) -> bool {
        &&& self.heap.wf()
        &&& self.heap.idle()
        &&& self.globals.wf()
        &&& self.builtins.wf()
        &&& self.global_cache.wf()
        &&& self.loaded_modules.wf()
        &&& self.open_upvalues@.no_duplicates()
        &&& forall|i: int| 0 <= i < self.open_upvalues@.len() ==> self.heap.live().dom().contains(#[trigger] self.open_upvalues@[i].0 as int)
        &&& forall|i: int| 0 <= i < self.frames@.len() ==> ((#[trigger] self.frames@[i]).prev_globals matches Some(g) ==> g.wf())
    }

    /// The values the collector starts from: the stack, the globals, the
    /// builtins, the closures of the frames and the open upvalues.
    pub open spec fn root_values(&self) -> Seq<Value> {
        self.stack@ + map_vals(self.globals) + map_vals(self.builtins) + frame_closures(self.frames@)
            + handle_vals(self.open_upvalues@)
    }

    pub open spec fn roots(&self) -> Set<int> {
        value_handles(self.root_values())
    }

    /// The closure in slot `h`, if that slot holds one.
    pub open spec fn closure_at(&self, h: ObjHandle) -> Option<Closure> {
        if self.heap.live().dom().contains(h.0 as int) {
            match self.heap.live()[h.0 as int] {
                Object::Closure(c) => Some(c),
                _ => None,
            }
        } else {
            None
        }
    }

    /// The code of the innermost frame.
    pub open spec fn frame_code(&self) -> Option<Seq<u8>> {
        if self.frames@.len() > 0 {
            match self.closure_at(self.frames@.last().closure) {
                Some(c) => Some(c.function.chunk.code@),
                None => None,
            }
        } else {
            None
        }
    }

    /// The chunk of the innermost frame.
    pub open spec fn frame_chunk(&self) -> Option<Chunk> {
        if self.frames@.len() > 0 {
            match self.closure_at(self.frames@.last().closure) {
                Some(c) => Some(*c.function.chunk),
                None => None,
            }
        } else {
            None
        }
    }

    pub open spec fn ip(&self) -> usize {
        self.frames@.last().ip
    }

    pub fn push(&mut self, value: Value)
        ensures
            final(self).stack@ == old(self).stack@.push(value),
            env_eq(*final(self), *old(self)),
            final(self).heap == old(self).heap,
            final(self).debug_ctx == old(self).debug_ctx,
    {
        self.stack.push(value);
    }

    /// Pops the top of the stack; an empty stack is a stack underflow.
    pub fn pop(&mut self) -> (r: PulseResult<Value>)
        ensures
            old(self).stack@.len() > 0 ==> r == Ok::<Value, PulseError>(old(self).stack@.last())
                && final(self).stack@ == old(self).stack@.drop_last(),
            old(self).stack@.len() == 0 ==> crate::value::is_stack_underflow(r) && final(self).stack@ == old(self).stack@,
            env_eq(*final(self), *old(self)),
            final(self).heap == old(self).heap,
            final(self).debug_ctx == old(self).debug_ctx,
    {
        match self.stack.pop() {
            Some(v) => Ok(v),
            None => Err(PulseError::StackUnderflow),
        }
    }

    /// The value `distance` slots below the top.
    pub(crate) fn peek(&self, distance: usize) -> (r: PulseResult<Value>)
        ensures
            distance < self.stack@.len() ==> r == Ok::<Value, PulseError>(self.stack@[self.stack@.len() - 1 - distance]),
            distance >= self.stack@.len() ==> crate::value::is_stack_underflow(r),
    {
        if distance < self.stack.len() {
            Ok(self.stack[self.stack.len() - 1 - distance])
        } else {
            Err(PulseError::StackUnderflow)
        }
    }

    /// The string held by the object `handle`.
    pub(crate) fn get_string(&self, handle: ObjHandle) -> (r: PulseResult<String>)
        requires
            self.heap.wf(),
        ensures
            match r {
                Ok(s) => self.heap.live().dom().contains(handle.0 as int)
                    && self.heap.live()[handle.0 as int] == Object::String(s),
                Err(_) => !(self.heap.live().dom().contains(handle.0 as int)
                    && self.heap.live()[handle.0 as int] is String),
            },
    {
        match self.heap.get(handle) {
            Some(Object::String(s)) => Ok(s.clone()),
            Some(_) => Err(PulseError::TypeMismatch { expected: text("string"), got: text("object") }),
            None => Err(PulseError::RuntimeError(text("Invalid handle"))),
        }
    }

    /// The code of the innermost frame.
    pub(crate) fn current_chunk(&self) -> (r: PulseResult<Arc<Chunk>>)
        requires
            self.heap.wf(),
        ensures
            match r {
                Ok(c) => self.frame_chunk() == Some(*c),
                Err(_) => self.frame_chunk() is None,
            },
    {
        if self.frames.len() == 0 {
            return Err(PulseError::RuntimeError(text("No frame")));
        }
        let frame = &self.frames[self.frames.len() - 1];
        match self.heap.get(frame.closure) {
            Some(Object::Closure(c)) => Ok(share_chunk(&c.function.chunk)),
            _ => Err(PulseError::RuntimeError(text("Closure not found"))),
        }
    }

    /// The next code byte of the innermost frame; the frame's instruction
    /// pointer moves past it.
    pub(crate) fn read_byte(&mut self) -> (r: PulseResult<u8>)
        requires
            old(self).heap.wf(),
        ensures
            old(self).wf() ==> final(self).wf(),
            final(self).heap == old(self).heap,
            final(self).stack == old(self).stack,
            final(self).globals == old(self).globals,
            final(self).builtins == old(self).builtins,
            final(self).global_cache == old(self).global_cache,
            final(self).loaded_modules == old(self).loaded_modules,
            final(self).exception_frames == old(self).exception_frames,
            final(self).open_upvalues == old(self).open_upvalues,
            final(self).pid == old(self).pid,
            final(self).debug_ctx == old(self).debug_ctx,
            final(self).frames@.len() == old(self).frames@.len(),
            match r {
                Ok(b) => old(self).frame_code() matches Some(code) && old(self).ip() < code.len()
                    && old(self).ip() < usize::MAX
                    && b == code[old(self).ip() as int]
                    && final(self).frames@ == old(self).frames@.update(
                        old(self).frames@.len() - 1,
                        frame_at_ip(old(self).frames@.last(), (old(self).ip() + 1) as usize),
                    ),
                Err(_) => !(old(self).frame_code() matches Some(code) && old(self).ip() < code.len())
                    && final(self).frames@ == old(self).frames@,
            },
    {
        let n = self.frames.len();
        if n == 0 {
            return Err(PulseError::RuntimeError(text("No frame")));
        }
        let ip = self.frames[n - 1].ip;
        let b = match self.heap.get(self.frames[n - 1].closure) {
            Some(Object::Closure(c)) => {
                if ip < c.function.chunk.code.len() {
                    c.function.chunk.code[ip]
                } else {
                    return Err(PulseError::RuntimeError(text("Read past the end of the code")));
                }
            },
            _ => {
                return Err(PulseError::RuntimeError(text("Frame closure is not a closure")));
            },
        };
        self.set_ip(ip + 1);
        Ok(b)
    }

    /// Moves the innermost frame's instruction pointer.
    pub(crate) fn set_ip(&mut self, ip: usize)
        requires
            old(self).frames@.len() > 0,
        ensures
            old(self).wf() ==> final(self).wf(),
            final(self).frames@ == old(self).frames@.update(
                old(self).frames@.len() - 1,
                frame_at_ip(old(self).frames@.last(), ip),
            ),
            final(self).heap == old(self).heap,
            final(self).stack == old(self).stack,
            final(self).globals == old(self).globals,
            final(self).builtins == old(self).builtins,
            final(self).global_cache == old(self).global_cache,
            final(self).loaded_modules == old(self).loaded_modules,
            final(self).exception_frames == old(self).exception_frames,
            final(self).open_upvalues == old(self).open_upvalues,
            final(self).pid == old(self).pid,
            final(self).debug_ctx == old(self).debug_ctx,
    {
        let n = self.frames.len();
        let mut f = self.frames.pop().unwrap();
        f.ip = ip;
        self.frames.push(f);
        assert(self.frames@ =~= old(self).frames@.update(n - 1, frame_at_ip(old(self).frames@.last(), ip)));
    }

    /// Two code bytes, low byte first.
    pub(crate) fn read_u16(&mut self) -> (r: PulseResult<u16>)
        requires
            old(self).heap.wf(),
        ensures
            old(self).wf() ==> final(self).wf(),
            final(self).heap == old(self).heap,
            final(self).stack == old(self).stack,
            final(self).globals == old(self).globals,
            final(self).builtins == old(self).builtins,
            final(self).global_cache == old(self).global_cache,
            final(self).loaded_modules == old(self).loaded_modules,
            final(self).exception_frames == old(self).exception_frames,
            final(self).open_upvalues == old(self).open_upvalues,
            final(self).pid == old(self).pid,
            final(self).debug_ctx == old(self).debug_ctx,
            final(self).frames@.len() == old(self).frames@.len(),
            match r {
                Ok(v) => old(self).frame_code() matches Some(code) && old(self).ip() + 1 < code.len()
                    && old(self).ip() + 2 <= usize::MAX
                    && v == code[old(self).ip() as int] + 256 * code[old(self).ip() + 1]
                    && final(self).frames@ == old(self).frames@.update(
                        old(self).frames@.len() - 1,
                        frame_at_ip(old(self).frames@.last(), (old(self).ip() + 2) as usize),
                    ),
                Err(_) => !(old(self).frame_code() matches Some(code) && old(self).ip() + 1 < code.len()),
            },
    {
        let b1 = self.read_byte()?;
        proof {
            assert(self.frames@.last() == frame_at_ip(old(self).frames@.last(), (old(self).ip() + 1) as usize));
            assert(self.frames@.last().closure == old(self).frames@.last().closure);
            assert(self.frame_code() == old(self).frame_code());
            assert(self.ip() == old(self).ip() + 1);
        }
        let b2 = self.read_byte()?;
        proof {
            assert(self.frames@ =~= old(self).frames@.update(
                old(self).frames@.len() - 1,
                frame_at_ip(old(self).frames@.last(), (old(self).ip() + 2) as usize),
            ));
        }
        Ok(b1 as u16 + 256 * (b2 as u16))
    }

    pub open spec fn spec_is_truthy(v: Value) -> bool {
        match v {
            Value::Bool(b) => b,
            Value::Unit => false,
            _ => true,
        }
    }

    /// `false` and `unit` are false; every other value is true.
    pub(crate) fn is_truthy(&self, value: &Value) -> (b: bool)
        ensures
            b == Self::spec_is_truthy(*value),
    {
        match value {
            Value::Bool(b) => *b,
            Value::Unit => false,
            _ => true,
        }
    }
}

/// The message of an index out of range.
pub open spec fn index_message(i: i64) -> Seq<char> {
    "Index out of bounds: "@ + crate::text::int_text(i as int)
}

fn index_error_text(i: i64) -> (r: String)
    ensures
        r@ == index_message(i),
{
    let mut m = text("Index out of bounds: ");
    crate::text::push_str(&mut m, crate::text::i64_to_string(i).as_str());
    m
}

/// A frame with a new instruction pointer.
pub open spec fn frame_at_ip(f: CallFrame, ip: usize) -> CallFrame {
    CallFrame {
        closure: f.closure,
        ip,
        stack_start: f.stack_start,
        is_module: f.is_module,
        source_path: f.source_path,
        prev_globals: f.prev_globals,
    }
}

impl VM {
    /// The collector's root values, in the order `root_values` lists them.
    pub(crate) fn root_value_list(&self) -> (r: Vec<Value>)
        ensures
            r@ == self.root_values(),
    {
        let mut r = crate::object::vec_copy(&self.stack);
        let mut g = crate::object::entry_values_of(&self.globals);
        r.append(&mut g);
        let mut b = crate::object::entry_values_of(&self.builtins);
        r.append(&mut b);
        let mut i: usize = 0;
        let ghost base = r@;
        while i < self.frames.len()
            invariant
                i <= self.frames@.len(),
                r@ == base + frame_closures(self.frames@.take(i as int)),
            decreases self.frames@.len() - i,
        {
            r.push(Value::Obj(self.frames[i].closure));
            i = i + 1;
            assert(frame_closures(self.frames@.take(i as int)) =~= frame_closures(self.frames@.take(i - 1)).push(Value::Obj(self.frames@[i - 1].closure)));
        }
        assert(self.frames@.take(i as int) =~= self.frames@);
        let ghost base2 = r@;
        let mut j: usize = 0;
        while j < self.open_upvalues.len()
            invariant
                j <= self.open_upvalues@.len(),
                r@ == base2 + handle_vals(self.open_upvalues@.take(j as int)),
            decreases self.open_upvalues@.len() - j,
        {
            r.push(Value::Obj(self.open_upvalues[j]));
            j = j + 1;
            assert(handle_vals(self.open_upvalues@.take(j as int)) =~= handle_vals(self.open_upvalues@.take(j - 1)).push(Value::Obj(self.open_upvalues@[j - 1])));
        }
        assert(self.open_upvalues@.take(j as int) =~= self.open_upvalues@);
        r
    }

    /// Marks every live object the given values refer to.
    pub(crate) fn mark_values(&mut self, vals: &Vec<Value>)
        requires
            old(self).heap.wf(),
            old(self).heap.idle(),
        ensures
            final(self).heap.wf(),
            final(self).heap.live() == old(self).heap.live(),
            final(self).heap.marked() == value_handles(vals@).intersect(old(self).heap.live().dom()),
            gray_set(final(self).heap.gray()) == final(self).heap.marked(),
            crate::heap::tricolor(final(self).heap.live(), final(self).heap.marked(), final(self).heap.gray()),
            final(self).heap.slots() == old(self).heap.slots(),
            final(self).heap.free_slots() == old(self).heap.free_slots(),
            final(self).heap.bytes() == old(self).heap.bytes(),
            final(self).heap.gc_threshold() == old(self).heap.gc_threshold(),
            final(self).stack == old(self).stack,
            final(self).frames == old(self).frames,
            final(self).globals == old(self).globals,
            final(self).builtins == old(self).builtins,
            final(self).global_cache == old(self).global_cache,
            final(self).open_upvalues == old(self).open_upvalues,
            final(self).loaded_modules == old(self).loaded_modules,
            final(self).exception_frames == old(self).exception_frames,
            final(self).pid == old(self).pid,
    {
        let ghost live0 = self.heap.live();
        let mut i: usize = 0;
        proof {
            assert(value_handles(vals@.take(0)).intersect(live0.dom()) =~= Set::<int>::empty());
            assert(gray_set(self.heap.gray()) =~= Set::<int>::empty());
        }
        while i < vals.len()
            invariant
                i <= vals@.len(),
                self.heap.wf(),
                self.heap.live() == live0,
                self.heap.marked() == value_handles(vals@.take(i as int)).intersect(live0.dom()),
                gray_set(self.heap.gray()) == self.heap.marked(),
                self.heap.slots() == old(self).heap.slots(),
                self.heap.free_slots() == old(self).heap.free_slots(),
                self.heap.bytes() == old(self).heap.bytes(),
                self.heap.gc_threshold() == old(self).heap.gc_threshold(),
                self.stack == old(self).stack,
                self.frames == old(self).frames,
                self.globals == old(self).globals,
                self.builtins == old(self).builtins,
                self.global_cache == old(self).global_cache,
                self.open_upvalues == old(self).open_upvalues,
                self.loaded_modules == old(self).loaded_modules,
                self.exception_frames == old(self).exception_frames,
                self.pid == old(self).pid,
            decreases vals@.len() - i,
        {
            let ghost m = self.heap.marked();
            let ghost g = self.heap.gray();
            proof { self.heap.lemma_wf(); }
            match vals[i] {
                Value::Obj(h) => {
                    self.heap.mark_object(h);
                },
                _ => {},
            }
            i = i + 1;
            proof {
                let t1 = vals@.take(i - 1);
                let t2 = vals@.take(i as int);
                assert(t2 =~= t1.push(vals@[i - 1]));
                assert forall|x: int| #[trigger] value_handles(t2).contains(x) <==> value_handles(t1).contains(x)
                    || (vals@[i - 1] == Value::Obj(ObjHandle(x as usize)) && 0 <= x <= usize::MAX) by {
                    if value_handles(t1).contains(x) {
                        let k = choose|k: int| 0 <= k < t1.len() && #[trigger] t1[k] == Value::Obj(ObjHandle(x as usize)) && 0 <= x <= usize::MAX;
                        assert(t2[k] == t1[k]);
                    }
                    if vals@[i - 1] == Value::Obj(ObjHandle(x as usize)) && 0 <= x <= usize::MAX {
                        assert(t2[i - 1] == vals@[i - 1]);
                    }
                    if value_handles(t2).contains(x) {
                        let k = choose|k: int| 0 <= k < t2.len() && #[trigger] t2[k] == Value::Obj(ObjHandle(x as usize)) && 0 <= x <= usize::MAX;
                        if k < t1.len() {
                            assert(t1[k] == t2[k]);
                        }
                    }
                }
                assert(self.heap.marked() =~= value_handles(t2).intersect(live0.dom()));
                let g2 = self.heap.gray();
                assert forall|x: int| #[trigger] gray_set(g2).contains(x) <==> self.heap.marked().contains(x) by {
                    if gray_set(g).contains(x) {
                        let k = choose|k: int| 0 <= k < g.len() && g[k] as int == x;
                        if g2.len() > g.len() {
                            assert(g2[k] == g[k]);
                        }
                    }
                    if gray_set(g2).contains(x) && g2.len() > g.len() {
                        let k = choose|k: int| 0 <= k < g2.len() && g2[k] as int == x;
                        if k < g.len() {
                            assert(g[k] == g2[k]);
                            assert(gray_set(g).contains(x));
                        }
                    }
                    if m.contains(x) {
                        assert(gray_set(g).contains(x));
                        let k = choose|k: int| 0 <= k < g.len() && g[k] as int == x;
                        if g2.len() > g.len() {
                            assert(g2[k] == g[k]);
                        }
                    }
                    if g2.len() > g.len() && self.heap.marked().contains(x) && !m.contains(x) {
                        assert(g2[g2.len() - 1] as int == x);
                    }
                }
                assert(gray_set(g2) =~= self.heap.marked());
            }
        }
        proof {
            assert(vals@.take(vals@.len() as int) =~= vals@);
            let live = self.heap.live();
            let mk = self.heap.marked();
            let gr = self.heap.gray();
            assert forall|x: int, c: usize| #![trigger mk.contains(x), crate::object::refers_to(live[x], c)]
                mk.contains(x) && !gr.contains(x as usize) && live.dom().contains(x) && crate::object::refers_to(live[x], c)
                    && live.dom().contains(c as int) implies mk.contains(c as int) by {
                assert(gray_set(gr).contains(x));
                let k = choose|k: int| 0 <= k < gr.len() && gr[k] as int == x;
                assert(gr[k] == x as usize);
            }
        }
    }

    /// Collects garbage: marks what the stack, the globals, the builtins,
    /// the frames' closures and the open upvalues refer to, traces, and
    /// frees the rest. Exactly the objects reachable from those roots
    /// survive, unchanged.
    pub fn collect_garbage(&mut self)
        requires
            old(self).wf(),
        ensures
            final(self).wf(),
            final(self).heap.live() == old(self).heap.live().restrict(reachable_set(old(self).heap.live(), old(self).roots())),
            final(self).heap.gc_threshold() == old(self).heap.gc_threshold(),
            final(self).stack == old(self).stack,
            final(self).frames == old(self).frames,
            final(self).globals == old(self).globals,
            final(self).builtins == old(self).builtins,
            final(self).global_cache == old(self).global_cache,
            final(self).open_upvalues == old(self).open_upvalues,
            final(self).loaded_modules == old(self).loaded_modules,
            final(self).exception_frames == old(self).exception_frames,
            final(self).pid == old(self).pid,
    {
        let roots = self.root_value_list();
        proof {
            assert forall|i: int| 0 <= i < self.open_upvalues@.len() implies value_handles(roots@).contains(#[trigger] self.open_upvalues@[i].0 as int) by {
                let k = old(self).stack@.len() + map_vals(old(self).globals).len() + map_vals(old(self).builtins).len()
                    + frame_closures(old(self).frames@).len() + i;
                assert(roots@[k] == Value::Obj(self.open_upvalues@[i]));
            }
        }
        self.collect_from(&roots);
    }

    /// Marks from the given root values, traces and sweeps.
    pub(crate) fn collect_from(&mut self, roots: &Vec<Value>)
        requires
            old(self).wf(),
            forall|i: int| 0 <= i < old(self).open_upvalues@.len() ==> value_handles(roots@).contains(#[trigger] old(self).open_upvalues@[i].0 as int),
        ensures
            final(self).wf(),
            final(self).heap.live() == old(self).heap.live().restrict(reachable_set(old(self).heap.live(), value_handles(roots@))),
            final(self).heap.gc_threshold() == old(self).heap.gc_threshold(),
            final(self).heap.bytes() <= old(self).heap.bytes(),
            final(self).stack == old(self).stack,
            final(self).frames == old(self).frames,
            final(self).globals == old(self).globals,
            final(self).builtins == old(self).builtins,
            final(self).global_cache == old(self).global_cache,
            final(self).open_upvalues == old(self).open_upvalues,
            final(self).loaded_modules == old(self).loaded_modules,
            final(self).exception_frames == old(self).exception_frames,
            final(self).pid == old(self).pid,
    {
        let ghost live0 = self.heap.live();
        let ghost r = value_handles(roots@);
        self.mark_values(roots);
        let ghost m1 = self.heap.marked();
        let ghost g1 = self.heap.gray();
        self.heap.trace();
        proof {
            self.heap.lemma_wf();
            assert forall|x: int| #[trigger] self.heap.marked().contains(x) implies (r.contains(x) && live0.dom().contains(x)) || crate::heap::reachable(live0, r, x) by {
                if !m1.contains(x) {
                    assert(crate::heap::reachable(live0, gray_set(g1), x));
                    assert(gray_set(g1) == r.intersect(live0.dom()));
                    lemma_reachable_live_roots(live0, r, x);
                }
            }
            lemma_trace_marks_reachable(live0, r, self.heap.marked());
        }
        let ghost m2 = self.heap.marked();
        let ghost n2 = self.heap.slots();
        let ghost b2 = self.heap.bytes();
        self.heap.sweep();
        proof {
            crate::heap::lemma_swept_bytes_le(live0, m2, n2, b2);
            assert forall|i: int| 0 <= i < self.open_upvalues@.len() implies self.heap.live().dom().contains(#[trigger] self.open_upvalues@[i].0 as int) by {
                let x = self.open_upvalues@[i].0 as int;
                assert(value_handles(roots@).contains(x));
                let p = seq![x];
                assert(crate::heap::is_path(live0, p));
                assert(p.last() == x);
                assert(reachable_set(live0, value_handles(roots@)).contains(x));
            }
        }
    }
}

/// Everything but the stack and the heap is the same in `a` and `b`.
pub open spec fn env_eq(a: VM, b: VM) -> bool {
    &&& a.frames == b.frames
    &&& a.globals == b.globals
    &&& a.builtins == b.builtins
    &&& a.global_cache == b.global_cache
    &&& a.loaded_modules == b.loaded_modules
    &&& a.exception_frames == b.exception_frames
    &&& a.open_upvalues == b.open_upvalues
    &&& a.pid == b.pid
}

/// `b`'s heap is `a`'s with one new object, in slot `h`.
pub open spec fn fresh_obj(a: Heap, b: Heap, h: ObjHandle) -> bool {
    &&& !a.live().dom().contains(h.0 as int)
    &&& b.live().dom().contains(h.0 as int)
    &&& b.live() == a.live().insert(h.0 as int, b.live()[h.0 as int])
}

/// `b`'s heap is `a`'s with the new object `o` in slot `h`.
pub open spec fn allocated(a: Heap, b: Heap, h: ObjHandle, o: Object) -> bool {
    &&& !a.live().dom().contains(h.0 as int)
    &&& b.live() == a.live().insert(h.0 as int, o)
}

pub open spec fn status_is_running(r: PulseResult<VMStatus>) -> bool {
    r matches Ok(VMStatus::Running)
}

/// The stack without its top `n` values.
/// The map `BuildMap` makes of the top `n` pairs of `s`, popped from the
/// top (value above key), each later pair overwriting an earlier one;
/// `None` when a key is not a string.
pub open spec fn built_map(h: Heap, s: Seq<Value>, n: nat) -> Option<Map<Seq<char>, Value>>
    decreases n,
{
    if n == 0 {
        Some(Map::empty())
    } else {
        match built_map(h, s, (n - 1) as nat) {
            Some(m) => {
                let key = s[s.len() - 2 * n];
                let val = s[s.len() - 2 * n + 1];
                match key {
                    Value::Obj(x) => match heap_string(h, x) {
                        Some(k) => Some(m.insert(k, val)),
                        None => None,
                    },
                    _ => None,
                }
            },
            None => None,
        }
    }
}

/// Once a pair fails, the whole build fails.
pub proof fn lemma_built_map_none(h: Heap, s: Seq<Value>, k: nat, n: nat)
    requires
        k <= n,
        built_map(h, s, k) is None,
    ensures
        built_map(h, s, n) is None,
    decreases n - k,
{
    if k < n {
        lemma_built_map_none(h, s, k + 1, n);
    }
}

pub open spec fn stack_below(s: Seq<Value>, n: int) -> Seq<Value> {
    s.subrange(0, s.len() - n)
}

/// The string an object slot holds, if it holds one.
pub open spec fn heap_string(h: Heap, handle: ObjHandle) -> Option<Seq<char>> {
    if h.live().dom().contains(handle.0 as int) {
        match h.live()[handle.0 as int] {
            Object::String(s) => Some(s@),
            _ => None,
        }
    } else {
        None
    }
}

/// The float operation for an integer operation.
pub open spec fn float_of(op: crate::arith::IntOp) -> FloatOp {
    match op {
        crate::arith::IntOp::Add => FloatOp::Add,
        crate::arith::IntOp::Sub => FloatOp::Sub,
        crate::arith::IntOp::Mul => FloatOp::Mul,
        crate::arith::IntOp::Div => FloatOp::Div,
        crate::arith::IntOp::Mod => FloatOp::Mod,
    }
}

pub open spec fn is_number(v: Value) -> bool {
    v is Int || v is Float
}

pub open spec fn involves_float(a: Value, b: Value) -> bool {
    is_number(a) && is_number(b) && (a is Float || b is Float)
}

/// What `==` decides for two values: equal handles, or two strings with the
/// same text, or equal primitives. Two floats go to the host.
pub open spec fn values_equal(h: Heap, a: Value, b: Value) -> bool {
    match (a, b) {
        (Value::Obj(x), Value::Obj(y)) => x == y || (heap_string(h, x) is Some && heap_string(h, x) == heap_string(h, y)),
        _ => a == b,
    }
}

impl VM {
    /// Pops the right operand, then the left one.
    pub(crate) fn pop_two(&mut self) -> (r: PulseResult<(Value, Value)>)
        ensures
            env_eq(*final(self), *old(self)),
            final(self).heap == old(self).heap,
            old(self).stack@.len() >= 2 ==> r == Ok::<(Value, Value), PulseError>((old(self).stack@[old(self).stack@.len() - 2], old(self).stack@.last()))
                && final(self).stack@ == stack_below(old(self).stack@, 2),
            old(self).stack@.len() < 2 ==> crate::value::is_stack_underflow(r) && final(self).stack@ == Seq::<Value>::empty(),
    {
        let b = match self.stack.pop() {
            Some(v) => v,
            None => {
                assert(self.stack@ =~= Seq::<Value>::empty());
                return Err(PulseError::StackUnderflow);
            },
        };
        let a = match self.stack.pop() {
            Some(v) => v,
            None => {
                assert(self.stack@ =~= Seq::<Value>::empty());
                return Err(PulseError::StackUnderflow);
            },
        };
        assert(self.stack@ =~= stack_below(old(self).stack@, 2));
        Ok((a, b))
    }

    /// What `op_arith` does, from `before` to `after`, giving `r`.
    pub open spec fn arith_effect(before: VM, after: VM, r: PulseResult<VMStatus>, op: crate::arith::IntOp) -> bool {
        &&& (env_eq(after, before))
        &&& (before.stack@.len() < 2 ==> crate::value::is_stack_underflow(r))
        &&& (before.stack@.len() >= 2 ==> ({
                let a = before.stack@[before.stack@.len() - 2];
                let b = before.stack@.last();
                let rest = stack_below(before.stack@, 2);
                if a is Int && b is Int {
                    after.heap == before.heap && match crate::arith::int_op_result(op, a->Int_0 as int, b->Int_0 as int) {
                        None => r matches Err(PulseError::RuntimeError(m)) && m@ == crate::arith::zero_divisor_message(op) && after.stack@ == rest,
                        Some(v) => if crate::arith::fits_i64(v) {
                            status_is_running(r) && after.stack@ == rest.push(Value::Int(v as i64))
                        } else {
                            crate::value::is_runtime_error(r) && after.stack@ == rest
                        },
                    }
                } else if involves_float(a, b) {
                    r matches Ok(VMStatus::FloatOp { op: fop, lhs, rhs }) && fop == float_of(op) && lhs == a && rhs == b
                        && after.stack@ == rest && after.heap == before.heap
                } else if op == crate::arith::IntOp::Add && a is Obj && b is Obj
                    && heap_string(before.heap, a->Obj_0) is Some && heap_string(before.heap, b->Obj_0) is Some {
                    &&& status_is_running(r)
                    &&& after.stack@.len() == rest.len() + 1
                    &&& after.stack@.drop_last() == rest
                    &&& after.stack@.last() matches Value::Obj(h)
                    &&& exists|s: String| s@ == heap_string(before.heap, a->Obj_0)->Some_0 + heap_string(before.heap, b->Obj_0)->Some_0
                            && allocated(before.heap, after.heap, h, Object::String(s))
                } else {
                    r is Err
                }
            }))
    }

    /// `Add`, `Sub`, `Mul`, `Div`, `Mod`: integers are computed here (a zero
    /// divisor and a result outside `i64` are runtime errors), a float
    /// operand sends the pair to the host, and `Add` of two strings
    /// concatenates them into a new string.
    pub(crate) fn op_arith(&mut self, op: crate::arith::IntOp) -> (r: PulseResult<VMStatus>)
        requires
            old(self).wf(),
        ensures
            final(self).wf(),
            env_eq(*final(self), *old(self)),
            old(self).stack@.len() < 2 ==> crate::value::is_stack_underflow(r),
            old(self).stack@.len() >= 2 ==> ({
                let a = old(self).stack@[old(self).stack@.len() - 2];
                let b = old(self).stack@.last();
                let rest = stack_below(old(self).stack@, 2);
                if a is Int && b is Int {
                    final(self).heap == old(self).heap && match crate::arith::int_op_result(op, a->Int_0 as int, b->Int_0 as int) {
                        None => r matches Err(PulseError::RuntimeError(m)) && m@ == crate::arith::zero_divisor_message(op) && final(self).stack@ == rest,
                        Some(v) => if crate::arith::fits_i64(v) {
                            status_is_running(r) && final(self).stack@ == rest.push(Value::Int(v as i64))
                        } else {
                            crate::value::is_runtime_error(r) && final(self).stack@ == rest
                        },
                    }
                } else if involves_float(a, b) {
                    r matches Ok(VMStatus::FloatOp { op: fop, lhs, rhs }) && fop == float_of(op) && lhs == a && rhs == b
                        && final(self).stack@ == rest && final(self).heap == old(self).heap
                } else if op == crate::arith::IntOp::Add && a is Obj && b is Obj
                    && heap_string(old(self).heap, a->Obj_0) is Some && heap_string(old(self).heap, b->Obj_0) is Some {
                    &&& status_is_running(r)
                    &&& final(self).stack@.len() == rest.len() + 1
                    &&& final(self).stack@.drop_last() == rest
                    &&& final(self).stack@.last() matches Value::Obj(h)
                    &&& exists|s: String| s@ == heap_string(old(self).heap, a->Obj_0)->Some_0 + heap_string(old(self).heap, b->Obj_0)->Some_0
                            && allocated(old(self).heap, final(self).heap, h, Object::String(s))
                } else {
                    r is Err
                }
            }),
    {
        let (a, b) = self.pop_two()?;
        match (a, b) {
            (Value::Int(x), Value::Int(y)) => match crate::arith::int_op(op, x, y) {
                Ok(v) => {
                    self.stack.push(Value::Int(v));
                    Ok(VMStatus::Running)
                },
                Err(true) => if op == crate::arith::IntOp::Mod {
                    Err(PulseError::RuntimeError(text("Modulo by zero")))
                } else {
                    Err(PulseError::RuntimeError(text("Division by zero")))
                },
                Err(false) => Err(PulseError::RuntimeError(text("Integer overflow"))),
            },
            (Value::Float(_), Value::Float(_)) | (Value::Int(_), Value::Float(_)) | (Value::Float(_), Value::Int(_)) => {
                let fop = match op {
                    crate::arith::IntOp::Add => FloatOp::Add,
                    crate::arith::IntOp::Sub => FloatOp::Sub,
                    crate::arith::IntOp::Mul => FloatOp::Mul,
                    crate::arith::IntOp::Div => FloatOp::Div,
                    crate::arith::IntOp::Mod => FloatOp::Mod,
                };
                Ok(VMStatus::FloatOp { op: fop, lhs: a, rhs: b })
            },
            (Value::Obj(h1), Value::Obj(h2)) => {
                if op != crate::arith::IntOp::Add {
                    return Err(PulseError::TypeMismatch { expected: text("numbers"), got: text("objects") });
                }
                let s1 = self.get_string(h1)?;
                let s2 = self.get_string(h2)?;
                let joined = crate::text::concat_str(s1.as_str(), s2.as_str());
                let ghost j = joined;
                let h = self.heap.allocate(Object::String(joined));
                self.stack.push(Value::Obj(h));
                assert(allocated(old(self).heap, self.heap, h, Object::String(j)));
                Ok(VMStatus::Running)
            },
            _ => Err(PulseError::TypeMismatch { expected: text("numbers or strings"), got: text("other values") }),
        }
    }

    /// What `op_negate` does, from `before` to `after`, giving `r`.
    pub open spec fn negate_effect(before: VM, after: VM, r: PulseResult<VMStatus>) -> bool {
        &&& (env_eq(after, before))
        &&& (after.heap == before.heap)
        &&& (before.stack@.len() == 0 ==> crate::value::is_stack_underflow(r))
        &&& (before.stack@.len() > 0 ==> match before.stack@.last() {
                Value::Int(n) => if n != i64::MIN {
                    status_is_running(r) && after.stack@ == before.stack@.drop_last().push(Value::Int((-n) as i64))
                } else {
                    crate::value::is_runtime_error(r)
                },
                Value::Float(f) => (r matches Ok(VMStatus::FloatOp { op: fop, lhs, rhs }) && fop == FloatOp::Negate
                    && lhs == Value::Float(f) && rhs == Value::Unit) && after.stack@ == before.stack@.drop_last(),
                _ => crate::value::is_type_mismatch(r),
            })
    }

    /// `Negate`: an integer is negated here (negating `i64::MIN` is a
    /// runtime error), a float goes to the host, anything else is a type
    /// mismatch.
    pub(crate) fn op_negate(&mut self) -> (r: PulseResult<VMStatus>)
        requires
            old(self).wf(),
        ensures
            final(self).wf(),
            env_eq(*final(self), *old(self)),
            final(self).heap == old(self).heap,
            old(self).stack@.len() == 0 ==> crate::value::is_stack_underflow(r),
            old(self).stack@.len() > 0 ==> match old(self).stack@.last() {
                Value::Int(n) => if n != i64::MIN {
                    status_is_running(r) && final(self).stack@ == old(self).stack@.drop_last().push(Value::Int((-n) as i64))
                } else {
                    crate::value::is_runtime_error(r)
                },
                Value::Float(f) => (r matches Ok(VMStatus::FloatOp { op: fop, lhs, rhs }) && fop == FloatOp::Negate
                    && lhs == Value::Float(f) && rhs == Value::Unit) && final(self).stack@ == old(self).stack@.drop_last(),
                _ => crate::value::is_type_mismatch(r),
            },
    {
        let v = self.pop()?;
        match v {
            Value::Int(n) => {
                if n == i64::MIN {
                    return Err(PulseError::RuntimeError(text("Integer overflow")));
                }
                self.stack.push(Value::Int(-n));
                Ok(VMStatus::Running)
            },
            Value::Float(_) => Ok(VMStatus::FloatOp { op: FloatOp::Negate, lhs: v, rhs: Value::Unit }),
            _ => Err(PulseError::TypeMismatch { expected: text("number"), got: text("other") }),
        }
    }

    /// What `op_equal` does, from `before` to `after`, giving `r`.
    pub open spec fn equal_effect(before: VM, after: VM, r: PulseResult<VMStatus>, negate: bool) -> bool {
        &&& (env_eq(after, before))
        &&& (after.heap == before.heap)
        &&& (before.stack@.len() < 2 ==> crate::value::is_stack_underflow(r))
        &&& (before.stack@.len() >= 2 ==> ({
                let a = before.stack@[before.stack@.len() - 2];
                let b = before.stack@.last();
                let rest = stack_below(before.stack@, 2);
                if a is Float && b is Float {
                    r matches Ok(VMStatus::FloatOp { op: fop, lhs, rhs }) && lhs == a && rhs == b
                        && fop == (if negate { FloatOp::Neq } else { FloatOp::Eq }) && after.stack@ == rest
                } else {
                    status_is_running(r) && after.stack@ == rest.push(Value::Bool(values_equal(before.heap, a, b) != negate))
                }
            }))
    }

    /// `Eq` (or, with `negate`, `Neq`): pushes whether the two values are
    /// equal (`values_equal`); two floats go to the host.
    pub(crate) fn op_equal(&mut self, negate: bool) -> (r: PulseResult<VMStatus>)
        requires
            old(self).wf(),
        ensures
            final(self).wf(),
            env_eq(*final(self), *old(self)),
            final(self).heap == old(self).heap,
            old(self).stack@.len() < 2 ==> crate::value::is_stack_underflow(r),
            old(self).stack@.len() >= 2 ==> ({
                let a = old(self).stack@[old(self).stack@.len() - 2];
                let b = old(self).stack@.last();
                let rest = stack_below(old(self).stack@, 2);
                if a is Float && b is Float {
                    r matches Ok(VMStatus::FloatOp { op: fop, lhs, rhs }) && lhs == a && rhs == b
                        && fop == (if negate { FloatOp::Neq } else { FloatOp::Eq }) && final(self).stack@ == rest
                } else {
                    status_is_running(r) && final(self).stack@ == rest.push(Value::Bool(values_equal(old(self).heap, a, b) != negate))
                }
            }),
    {
        let (a, b) = self.pop_two()?;
        if let (Value::Float(_), Value::Float(_)) = (a, b) {
            return Ok(VMStatus::FloatOp { op: if negate { FloatOp::Neq } else { FloatOp::Eq }, lhs: a, rhs: b });
        }
        let eq = match (a, b) {
            (Value::Obj(h1), Value::Obj(h2)) => {
                if h1 == h2 {
                    true
                } else {
                    match (self.get_string(h1), self.get_string(h2)) {
                        (Ok(s1), Ok(s2)) => s1 == s2,
                        _ => false,
                    }
                }
            },
            _ => a == b,
        };
        self.stack.push(Value::Bool(eq != negate));
        Ok(VMStatus::Running)
    }

    /// What `op_compare` does, from `before` to `after`, giving `r`.
    pub open spec fn compare_effect(before: VM, after: VM, r: PulseResult<VMStatus>, less: bool) -> bool {
        &&& (env_eq(after, before))
        &&& (after.heap == before.heap)
        &&& (before.stack@.len() < 2 ==> crate::value::is_stack_underflow(r))
        &&& (before.stack@.len() >= 2 ==> ({
                let a = before.stack@[before.stack@.len() - 2];
                let b = before.stack@.last();
                let rest = stack_below(before.stack@, 2);
                match (a, b) {
                    (Value::Int(x), Value::Int(y)) => status_is_running(r)
                        && after.stack@ == rest.push(Value::Bool(if less { x < y } else { x > y })),
                    (Value::Float(_), Value::Float(_)) => r matches Ok(VMStatus::FloatOp { op: fop, lhs, rhs })
                        && lhs == a && rhs == b && fop == (if less { FloatOp::Lt } else { FloatOp::Gt })
                        && after.stack@ == rest,
                    (Value::Obj(x), Value::Obj(y)) => if heap_string(before.heap, x) is Some && heap_string(before.heap, y) is Some {
                        status_is_running(r) && after.stack@ == rest.push(Value::Bool(
                            if less {
                                crate::text::chars_lt(heap_string(before.heap, x)->Some_0, heap_string(before.heap, y)->Some_0)
                            } else {
                                crate::text::chars_lt(heap_string(before.heap, y)->Some_0, heap_string(before.heap, x)->Some_0)
                            },
                        ))
                    } else {
                        r is Err
                    },
                    _ => crate::value::is_type_mismatch(r),
                }
            }))
    }

    /// `Gt` (or, with `less`, `Lt`): compares two integers, or two strings by
    /// character order; two floats go to the host.
    pub(crate) fn op_compare(&mut self, less: bool) -> (r: PulseResult<VMStatus>)
        requires
            old(self).wf(),
        ensures
            final(self).wf(),
            env_eq(*final(self), *old(self)),
            final(self).heap == old(self).heap,
            old(self).stack@.len() < 2 ==> crate::value::is_stack_underflow(r),
            old(self).stack@.len() >= 2 ==> ({
                let a = old(self).stack@[old(self).stack@.len() - 2];
                let b = old(self).stack@.last();
                let rest = stack_below(old(self).stack@, 2);
                match (a, b) {
                    (Value::Int(x), Value::Int(y)) => status_is_running(r)
                        && final(self).stack@ == rest.push(Value::Bool(if less { x < y } else { x > y })),
                    (Value::Float(_), Value::Float(_)) => r matches Ok(VMStatus::FloatOp { op: fop, lhs, rhs })
                        && lhs == a && rhs == b && fop == (if less { FloatOp::Lt } else { FloatOp::Gt })
                        && final(self).stack@ == rest,
                    (Value::Obj(x), Value::Obj(y)) => if heap_string(old(self).heap, x) is Some && heap_string(old(self).heap, y) is Some {
                        status_is_running(r) && final(self).stack@ == rest.push(Value::Bool(
                            if less {
                                crate::text::chars_lt(heap_string(old(self).heap, x)->Some_0, heap_string(old(self).heap, y)->Some_0)
                            } else {
                                crate::text::chars_lt(heap_string(old(self).heap, y)->Some_0, heap_string(old(self).heap, x)->Some_0)
                            },
                        ))
                    } else {
                        r is Err
                    },
                    _ => crate::value::is_type_mismatch(r),
                }
            }),
    {
        let (a, b) = self.pop_two()?;
        match (a, b) {
            (Value::Int(x), Value::Int(y)) => {
                self.stack.push(Value::Bool(if less { x < y } else { x > y }));
                Ok(VMStatus::Running)
            },
            (Value::Float(_), Value::Float(_)) => Ok(VMStatus::FloatOp { op: if less { FloatOp::Lt } else { FloatOp::Gt }, lhs: a, rhs: b }),
            (Value::Obj(h1), Value::Obj(h2)) => {
                let s1 = self.get_string(h1)?;
                let s2 = self.get_string(h2)?;
                let res = if less { crate::text::str_less(s1.as_str(), s2.as_str()) } else { crate::text::str_less(s2.as_str(), s1.as_str()) };
                self.stack.push(Value::Bool(res));
                Ok(VMStatus::Running)
            },
            _ => Err(PulseError::TypeMismatch { expected: text("number or string"), got: text("other values") }),
        }
    }

    /// What `op_logic` does, from `before` to `after`, giving `r`.
    pub open spec fn logic_effect(before: VM, after: VM, r: PulseResult<VMStatus>, or: bool) -> bool {
        &&& (env_eq(after, before))
        &&& (after.heap == before.heap)
        &&& (before.stack@.len() < 2 ==> crate::value::is_stack_underflow(r))
        &&& (before.stack@.len() >= 2 ==> ({
                let a = VM::spec_is_truthy(before.stack@[before.stack@.len() - 2]);
                let b = VM::spec_is_truthy(before.stack@.last());
                status_is_running(r) && after.stack@ == stack_below(before.stack@, 2).push(Value::Bool(if or { a || b } else { a && b }))
            }))
    }

    /// `And` (or, with `or`, `Or`) of the truth of two values.
    pub(crate) fn op_logic(&mut self, or: bool) -> (r: PulseResult<VMStatus>)
        requires
            old(self).wf(),
        ensures
            final(self).wf(),
            env_eq(*final(self), *old(self)),
            final(self).heap == old(self).heap,
            old(self).stack@.len() < 2 ==> crate::value::is_stack_underflow(r),
            old(self).stack@.len() >= 2 ==> ({
                let a = Self::spec_is_truthy(old(self).stack@[old(self).stack@.len() - 2]);
                let b = Self::spec_is_truthy(old(self).stack@.last());
                status_is_running(r) && final(self).stack@ == stack_below(old(self).stack@, 2).push(Value::Bool(if or { a || b } else { a && b }))
            }),
    {
        let (a, b) = self.pop_two()?;
        let ta = self.is_truthy(&a);
        let tb = self.is_truthy(&b);
        self.stack.push(Value::Bool(if or { ta || tb } else { ta && tb }));
        Ok(VMStatus::Running)
    }

    /// What `op_not` does, from `before` to `after`, giving `r`.
    pub open spec fn not_effect(before: VM, after: VM, r: PulseResult<VMStatus>) -> bool {
        &&& (env_eq(after, before))
        &&& (after.heap == before.heap)
        &&& (before.stack@.len() == 0 ==> crate::value::is_stack_underflow(r))
        &&& (before.stack@.len() > 0 ==> status_is_running(r)
                && after.stack@ == before.stack@.drop_last().push(Value::Bool(!VM::spec_is_truthy(before.stack@.last()))))
    }

    /// `Not`: pushes the negated truth of the popped value.
    pub(crate) fn op_not(&mut self) -> (r: PulseResult<VMStatus>)
        requires
            old(self).wf(),
        ensures
            final(self).wf(),
            env_eq(*final(self), *old(self)),
            final(self).heap == old(self).heap,
            old(self).stack@.len() == 0 ==> crate::value::is_stack_underflow(r),
            old(self).stack@.len() > 0 ==> status_is_running(r)
                && final(self).stack@ == old(self).stack@.drop_last().push(Value::Bool(!Self::spec_is_truthy(old(self).stack@.last()))),
    {
        let v = self.pop()?;
        let t = self.is_truthy(&v);
        self.stack.push(Value::Bool(!t));
        Ok(VMStatus::Running)
    }

    /// What `op_dup` does, from `before` to `after`, giving `r`.
    pub open spec fn dup_effect(before: VM, after: VM, r: PulseResult<VMStatus>) -> bool {
        &&& (env_eq(after, before))
        &&& (after.heap == before.heap)
        &&& (before.stack@.len() == 0 ==> crate::value::is_stack_underflow(r) && after.stack@ == before.stack@)
        &&& (before.stack@.len() > 0 ==> status_is_running(r) && after.stack@ == before.stack@.push(before.stack@.last()))
    }

    /// `Dup`: pushes a copy of the top value.
    pub(crate) fn op_dup(&mut self) -> (r: PulseResult<VMStatus>)
        requires
            old(self).wf(),
        ensures
            final(self).wf(),
            env_eq(*final(self), *old(self)),
            final(self).heap == old(self).heap,
            old(self).stack@.len() == 0 ==> crate::value::is_stack_underflow(r) && final(self).stack@ == old(self).stack@,
            old(self).stack@.len() > 0 ==> status_is_running(r) && final(self).stack@ == old(self).stack@.push(old(self).stack@.last()),
    {
        let v = self.peek(0)?;
        self.stack.push(v);
        Ok(VMStatus::Running)
    }

    /// What `op_slide` does, from `before` to `after`, giving `r`.
    pub open spec fn slide_effect(before: VM, after: VM, r: PulseResult<VMStatus>, count: usize) -> bool {
        &&& (env_eq(after, before))
        &&& (after.heap == before.heap)
        &&& (before.stack@.len() > count ==> status_is_running(r)
                && after.stack@ == stack_below(before.stack@, count + 1).push(before.stack@.last()))
        &&& (before.stack@.len() <= count ==> crate::value::is_stack_underflow(r))
    }

    /// `Slide n`: keeps the top value and drops the `n` values under it.
    pub(crate) fn op_slide(&mut self, count: usize) -> (r: PulseResult<VMStatus>)
        requires
            old(self).wf(),
        ensures
            final(self).wf(),
            env_eq(*final(self), *old(self)),
            final(self).heap == old(self).heap,
            old(self).stack@.len() > count ==> status_is_running(r)
                && final(self).stack@ == stack_below(old(self).stack@, count + 1).push(old(self).stack@.last()),
            old(self).stack@.len() <= count ==> crate::value::is_stack_underflow(r),
    {
        let result = self.pop()?;
        let mut i: usize = 0;
        while i < count
            invariant
                self.wf(),
                env_eq(*self, *old(self)),
                self.heap == old(self).heap,
                i <= count,
                old(self).stack@.len() > 0,
                result == old(self).stack@.last(),
                old(self).stack@.len() - 1 >= i ==> self.stack@ == stack_below(old(self).stack@, i + 1),
                old(self).stack@.len() - 1 < i ==> false,
            decreases count - i,
        {
            self.pop()?;
            i = i + 1;
            assert(self.stack@ =~= stack_below(old(self).stack@, i + 1));
        }
        self.stack.push(result);
        Ok(VMStatus::Running)
    }
}

/// The value a constant loads as: a string or a function constant becomes a
/// new heap object.
pub open spec fn constant_loads(h0: Heap, h1: Heap, c: Constant, v: Value) -> bool {
    match c {
        Constant::Bool(b) => v == Value::Bool(b) && h1 == h0,
        Constant::Int(i) => v == Value::Int(i) && h1 == h0,
        Constant::Float(f) => v == Value::Float(f) && h1 == h0,
        Constant::Unit => v == Value::Unit && h1 == h0,
        Constant::String(s) => v matches Value::Obj(h) && allocated(h0, h1, h, Object::String(s)),
        Constant::Function(f) => v matches Value::Obj(h) && allocated(h0, h1, h, Object::Function(*f)),
    }
}

pub open spec fn frame_start(vm: VM) -> usize {
    if vm.frames@.len() > 0 { vm.frames@.last().stack_start } else { 0 }
}

/// The name a global instruction refers to: the string constant at `idx`.
pub open spec fn const_name(vm: VM, idx: usize) -> Option<Seq<char>> {
    match vm.frame_chunk() {
        Some(ch) => if idx < ch.constants@.len() {
            match ch.constants@[idx as int] {
                Constant::String(s) => Some(s@),
                _ => None,
            }
        } else {
            None
        },
        None => None,
    }
}

impl VM {
    /// The constant at `idx` in the current chunk, loaded as a value.
    pub(crate) fn load_constant(&mut self, idx: usize) -> (r: PulseResult<Value>)
        requires
            old(self).wf(),
        ensures
            final(self).wf(),
            env_eq(*final(self), *old(self)),
            final(self).stack == old(self).stack,
            match r {
                Ok(v) => old(self).frame_chunk() matches Some(ch) && idx < ch.constants@.len()
                    && constant_loads(old(self).heap, final(self).heap, ch.constants@[idx as int], v),
                Err(_) => !(old(self).frame_chunk() matches Some(ch) && idx < ch.constants@.len())
                    && final(self).heap == old(self).heap,
            },
    {
        let chunk = self.current_chunk()?;
        if idx >= chunk.constants.len() {
            return Err(PulseError::RuntimeError(text("Constant index out of bounds")));
        }
        let v = match &chunk.constants[idx] {
            Constant::Bool(b) => Value::Bool(*b),
            Constant::Int(i) => Value::Int(*i),
            Constant::Float(f) => Value::Float(*f),
            Constant::Unit => Value::Unit,
            Constant::String(s) => {
                let h = self.heap.allocate(Object::String(s.clone()));
                Value::Obj(h)
            },
            Constant::Function(f) => {
                let h = self.heap.allocate(Object::Function((**f).copy()));
                Value::Obj(h)
            },
        };
        Ok(v)
    }

    /// The string constant at `idx` in the current chunk, used as a name.
    pub(crate) fn constant_name(&self, idx: usize) -> (r: PulseResult<String>)
        requires
            self.wf(),
        ensures
            match r {
                Ok(s) => const_name(*self, idx) == Some(s@),
                Err(_) => const_name(*self, idx) is None,
            },
    {
        let chunk = self.current_chunk()?;
        if idx >= chunk.constants.len() {
            return Err(PulseError::RuntimeError(text("Constant index out of bounds")));
        }
        match &chunk.constants[idx] {
            Constant::String(s) => Ok(s.clone()),
            _ => Err(PulseError::RuntimeError(text("Global name must be string"))),
        }
    }

    /// What `op_jump` does, from `before` to `after`, giving `r`.
    pub open spec fn jump_effect(before: VM, after: VM, r: PulseResult<VMStatus>, offset: usize) -> bool {
        &&& (after.stack == before.stack)
        &&& (after.heap == before.heap)
        &&& (after.globals == before.globals)
        &&& (after.frames@.len() == before.frames@.len())
        &&& (before.frames@.len() > 0 && before.ip() + offset <= usize::MAX ==> status_is_running(r)
                && after.frames@ == before.frames@.update(before.frames@.len() - 1,
                    frame_at_ip(before.frames@.last(), (before.ip() + offset) as usize)))
        &&& (!(before.frames@.len() > 0 && before.ip() + offset <= usize::MAX) ==> crate::value::is_runtime_error(r))
    }

    /// `Jump`: moves the instruction pointer forward by `offset`.
    pub(crate) fn op_jump(&mut self, offset: usize) -> (r: PulseResult<VMStatus>)
        requires
            old(self).wf(),
        ensures
            final(self).wf(),
            final(self).stack == old(self).stack,
            final(self).heap == old(self).heap,
            final(self).globals == old(self).globals,
            final(self).frames@.len() == old(self).frames@.len(),
            old(self).frames@.len() > 0 && old(self).ip() + offset <= usize::MAX ==> status_is_running(r)
                && final(self).frames@ == old(self).frames@.update(old(self).frames@.len() - 1,
                    frame_at_ip(old(self).frames@.last(), (old(self).ip() + offset) as usize)),
            !(old(self).frames@.len() > 0 && old(self).ip() + offset <= usize::MAX) ==> crate::value::is_runtime_error(r),
    {
        if self.frames.len() == 0 {
            return Err(PulseError::RuntimeError(text("No frame")));
        }
        let ip = self.frames[self.frames.len() - 1].ip;
        match ip.checked_add(offset) {
            Some(n) => {
                self.set_ip(n);
                Ok(VMStatus::Running)
            },
            None => Err(PulseError::RuntimeError(text("Jump target out of range"))),
        }
    }

    /// What `op_loop` does, from `before` to `after`, giving `r`.
    pub open spec fn loop_effect(before: VM, after: VM, r: PulseResult<VMStatus>, offset: usize) -> bool {
        &&& (after.stack == before.stack)
        &&& (after.heap == before.heap)
        &&& (after.globals == before.globals)
        &&& (after.frames@.len() == before.frames@.len())
        &&& (before.frames@.len() > 0 && before.ip() >= offset ==> status_is_running(r)
                && after.frames@ == before.frames@.update(before.frames@.len() - 1,
                    frame_at_ip(before.frames@.last(), (before.ip() - offset) as usize)))
        &&& (!(before.frames@.len() > 0 && before.ip() >= offset) ==> crate::value::is_runtime_error(r))
    }

    /// `Loop`: moves the instruction pointer back by `offset`.
    pub(crate) fn op_loop(&mut self, offset: usize) -> (r: PulseResult<VMStatus>)
        requires
            old(self).wf(),
        ensures
            final(self).wf(),
            final(self).stack == old(self).stack,
            final(self).heap == old(self).heap,
            final(self).globals == old(self).globals,
            final(self).frames@.len() == old(self).frames@.len(),
            old(self).frames@.len() > 0 && old(self).ip() >= offset ==> status_is_running(r)
                && final(self).frames@ == old(self).frames@.update(old(self).frames@.len() - 1,
                    frame_at_ip(old(self).frames@.last(), (old(self).ip() - offset) as usize)),
            !(old(self).frames@.len() > 0 && old(self).ip() >= offset) ==> crate::value::is_runtime_error(r),
    {
        if self.frames.len() == 0 {
            return Err(PulseError::RuntimeError(text("No frame")));
        }
        let ip = self.frames[self.frames.len() - 1].ip;
        if ip < offset {
            return Err(PulseError::RuntimeError(text("Loop target out of range")));
        }
        self.set_ip(ip - offset);
        Ok(VMStatus::Running)
    }

    /// What `op_get_local` does, from `before` to `after`, giving `r`.
    pub open spec fn get_local_effect(before: VM, after: VM, r: PulseResult<VMStatus>, slot: usize) -> bool {
        &&& (env_eq(after, before))
        &&& (after.heap == before.heap)
        &&& (frame_start(before) + slot < before.stack@.len() ==> status_is_running(r)
                && after.stack@ == before.stack@.push(before.stack@[frame_start(before) + slot]))
        &&& (frame_start(before) + slot >= before.stack@.len() ==> crate::value::is_stack_underflow(r)
                && after.stack == before.stack)
    }

    /// `GetLocal slot`: pushes the local `slot` of the current frame.
    pub(crate) fn op_get_local(&mut self, slot: usize) -> (r: PulseResult<VMStatus>)
        requires
            old(self).wf(),
        ensures
            final(self).wf(),
            env_eq(*final(self), *old(self)),
            final(self).heap == old(self).heap,
            frame_start(*old(self)) + slot < old(self).stack@.len() ==> status_is_running(r)
                && final(self).stack@ == old(self).stack@.push(old(self).stack@[frame_start(*old(self)) + slot]),
            frame_start(*old(self)) + slot >= old(self).stack@.len() ==> crate::value::is_stack_underflow(r)
                && final(self).stack == old(self).stack,
    {
        let start = if self.frames.len() > 0 { self.frames[self.frames.len() - 1].stack_start } else { 0 };
        if start >= self.stack.len() || slot >= self.stack.len() - start {
            return Err(PulseError::StackUnderflow);
        }
        let v = self.stack[start + slot];
        self.stack.push(v);
        Ok(VMStatus::Running)
    }

    /// What `op_set_local` does, from `before` to `after`, giving `r`.
    pub open spec fn set_local_effect(before: VM, after: VM, r: PulseResult<VMStatus>, slot: usize) -> bool {
        &&& (env_eq(after, before))
        &&& (after.heap == before.heap)
        &&& (before.stack@.len() == 0 ==> crate::value::is_stack_underflow(r) && after.stack == before.stack)
        &&& (before.stack@.len() > 0 ==> status_is_running(r) && after.stack@ == (
                if frame_start(before) + slot < before.stack@.len() {
                    before.stack@.update(frame_start(before) + slot, before.stack@.last())
                } else {
                    before.stack@
                }))
    }

    /// `SetLocal slot`: stores the top value into the local `slot`, leaving
    /// it on the stack; a slot beyond the stack is left alone.
    pub(crate) fn op_set_local(&mut self, slot: usize) -> (r: PulseResult<VMStatus>)
        requires
            old(self).wf(),
        ensures
            final(self).wf(),
            env_eq(*final(self), *old(self)),
            final(self).heap == old(self).heap,
            old(self).stack@.len() == 0 ==> crate::value::is_stack_underflow(r) && final(self).stack == old(self).stack,
            old(self).stack@.len() > 0 ==> status_is_running(r) && final(self).stack@ == (
                if frame_start(*old(self)) + slot < old(self).stack@.len() {
                    old(self).stack@.update(frame_start(*old(self)) + slot, old(self).stack@.last())
                } else {
                    old(self).stack@
                }),
    {
        let v = self.peek(0)?;
        let start = if self.frames.len() > 0 { self.frames[self.frames.len() - 1].stack_start } else { 0 };
        if start < self.stack.len() && slot < self.stack.len() - start {
            self.stack.set(start + slot, v);
        }
        Ok(VMStatus::Running)
    }

    /// What `op_get_global` does, from `before` to `after`, giving `r`.
    pub open spec fn get_global_effect(before: VM, after: VM, r: PulseResult<VMStatus>, name: String) -> bool {
        &&& (after.heap == before.heap)
        &&& (after.frames == before.frames)
        &&& (after.globals == before.globals)
        &&& (after.builtins == before.builtins)
        &&& (if before.global_cache@.dom().contains(name@) {
                status_is_running(r) && after.stack@ == before.stack@.push(before.global_cache@[name@])
                    && after.global_cache == before.global_cache
            } else if before.globals@.dom().contains(name@) {
                status_is_running(r) && after.stack@ == before.stack@.push(before.globals@[name@])
                    && after.global_cache@ == before.global_cache@.insert(name@, before.globals@[name@])
            } else if before.builtins@.dom().contains(name@) {
                status_is_running(r) && after.stack@ == before.stack@.push(before.builtins@[name@])
                    && after.global_cache@ == before.global_cache@.insert(name@, before.builtins@[name@])
            } else {
                r matches Err(PulseError::UndefinedVariable(n)) && n@ == name@ && after.stack == before.stack
                    && after.global_cache == before.global_cache
            })
    }

    /// `GetGlobal`: pushes the cached value of the name, or else its value
    /// among the globals and then the builtins, which it caches.
    pub(crate) fn op_get_global(&mut self, name: String) -> (r: PulseResult<VMStatus>)
        requires
            old(self).wf(),
        ensures
            final(self).wf(),
            final(self).heap == old(self).heap,
            final(self).frames == old(self).frames,
            final(self).globals == old(self).globals,
            final(self).builtins == old(self).builtins,
            if old(self).global_cache@.dom().contains(name@) {
                status_is_running(r) && final(self).stack@ == old(self).stack@.push(old(self).global_cache@[name@])
                    && final(self).global_cache == old(self).global_cache
            } else if old(self).globals@.dom().contains(name@) {
                status_is_running(r) && final(self).stack@ == old(self).stack@.push(old(self).globals@[name@])
                    && final(self).global_cache@ == old(self).global_cache@.insert(name@, old(self).globals@[name@])
            } else if old(self).builtins@.dom().contains(name@) {
                status_is_running(r) && final(self).stack@ == old(self).stack@.push(old(self).builtins@[name@])
                    && final(self).global_cache@ == old(self).global_cache@.insert(name@, old(self).builtins@[name@])
            } else {
                r matches Err(PulseError::UndefinedVariable(n)) && n@ == name@ && final(self).stack == old(self).stack
                    && final(self).global_cache == old(self).global_cache
            },
    {
        match self.global_cache.get(name.as_str()) {
            Some(v) => {
                let v = *v;
                self.stack.push(v);
                return Ok(VMStatus::Running);
            },
            None => {},
        }
        let found = match self.globals.get(name.as_str()) {
            Some(v) => Some(*v),
            None => match self.builtins.get(name.as_str()) {
                Some(v) => Some(*v),
                None => None,
            },
        };
        match found {
            Some(v) => {
                self.global_cache.insert(name.clone(), v);
                self.stack.push(v);
                Ok(VMStatus::Running)
            },
            None => Err(PulseError::UndefinedVariable(name)),
        }
    }

    /// What `op_set_global` does, from `before` to `after`, giving `r`.
    pub open spec fn set_global_effect(before: VM, after: VM, r: PulseResult<VMStatus>, name: String) -> bool {
        &&& (after.heap == before.heap)
        &&& (after.frames == before.frames)
        &&& (after.builtins == before.builtins)
        &&& (after.stack == before.stack)
        &&& (before.stack@.len() == 0 ==> crate::value::is_stack_underflow(r))
        &&& (before.stack@.len() > 0 ==> if before.globals@.dom().contains(name@) {
                status_is_running(r) && after.globals@ == before.globals@.insert(name@, before.stack@.last())
                    && after.global_cache@ == before.global_cache@.remove(name@)
            } else if before.builtins@.dom().contains(name@) {
                (r matches Err(PulseError::RuntimeError(m)) && m@ == "Cannot modify immutable builtin: "@ + name@)
                    && after.globals == before.globals
            } else {
                r matches Err(PulseError::UndefinedVariable(n)) && n@ == name@ && after.globals == before.globals
            })
    }

    /// `SetGlobal`: assigns the top value (left on the stack) to an existing
    /// global and drops its cache entry; a builtin cannot be assigned and an
    /// unknown name is undefined.
    pub(crate) fn op_set_global(&mut self, name: String) -> (r: PulseResult<VMStatus>)
        requires
            old(self).wf(),
        ensures
            final(self).wf(),
            final(self).heap == old(self).heap,
            final(self).frames == old(self).frames,
            final(self).builtins == old(self).builtins,
            final(self).stack == old(self).stack,
            old(self).stack@.len() == 0 ==> crate::value::is_stack_underflow(r),
            old(self).stack@.len() > 0 ==> if old(self).globals@.dom().contains(name@) {
                status_is_running(r) && final(self).globals@ == old(self).globals@.insert(name@, old(self).stack@.last())
                    && final(self).global_cache@ == old(self).global_cache@.remove(name@)
            } else if old(self).builtins@.dom().contains(name@) {
                (r matches Err(PulseError::RuntimeError(m)) && m@ == "Cannot modify immutable builtin: "@ + name@)
                    && final(self).globals == old(self).globals
            } else {
                r matches Err(PulseError::UndefinedVariable(n)) && n@ == name@ && final(self).globals == old(self).globals
            },
    {
        let v = self.peek(0)?;
        if self.globals.contains_key(name.as_str()) {
            self.global_cache.remove(name.as_str());
            self.globals.insert(name, v);
            Ok(VMStatus::Running)
        } else if self.builtins.contains_key(name.as_str()) {
            let mut m = text("Cannot modify immutable builtin: ");
            crate::text::push_str(&mut m, name.as_str());
            Err(PulseError::RuntimeError(m))
        } else {
            Err(PulseError::UndefinedVariable(name))
        }
    }

    /// What `op_define_global` does, from `before` to `after`, giving `r`.
    pub open spec fn define_global_effect(before: VM, after: VM, r: PulseResult<VMStatus>, name: String) -> bool {
        &&& (after.heap == before.heap)
        &&& (after.frames == before.frames)
        &&& (after.builtins == before.builtins)
        &&& (before.stack@.len() == 0 ==> crate::value::is_stack_underflow(r))
        &&& (before.stack@.len() > 0 ==> status_is_running(r)
                && after.stack@ == before.stack@.drop_last()
                && after.globals@ == before.globals@.insert(name@, before.stack@.last())
                && after.global_cache@ == before.global_cache@.remove(name@))
    }

    /// `DefineGlobal`: pops a value and binds the name to it, dropping its
    /// cache entry.
    pub(crate) fn op_define_global(&mut self, name: String) -> (r: PulseResult<VMStatus>)
        requires
            old(self).wf(),
        ensures
            final(self).wf(),
            final(self).heap == old(self).heap,
            final(self).frames == old(self).frames,
            final(self).builtins == old(self).builtins,
            old(self).stack@.len() == 0 ==> crate::value::is_stack_underflow(r),
            old(self).stack@.len() > 0 ==> status_is_running(r)
                && final(self).stack@ == old(self).stack@.drop_last()
                && final(self).globals@ == old(self).globals@.insert(name@, old(self).stack@.last())
                && final(self).global_cache@ == old(self).global_cache@.remove(name@),
    {
        let v = self.pop()?;
        self.global_cache.remove(name.as_str());
        self.globals.insert(name, v);
        Ok(VMStatus::Running)
    }

    /// What `op_try` does, from `before` to `after`, giving `r`.
    pub open spec fn try_effect(before: VM, after: VM, r: PulseResult<VMStatus>, offset: usize) -> bool {
        &&& (after.stack == before.stack)
        &&& (after.heap == before.heap)
        &&& (after.frames == before.frames)
        &&& (after.globals == before.globals)
        &&& (before.frames@.len() > 0 && before.ip() + offset <= usize::MAX ==> status_is_running(r)
                && after.exception_frames@ == before.exception_frames@.push(ExceptionFrame {
                    handler_ip: (before.ip() + offset) as usize,
                    stack_depth: before.stack@.len() as usize,
                    frame_depth: before.frames@.len() as usize,
                }))
        &&& (!(before.frames@.len() > 0 && before.ip() + offset <= usize::MAX) ==> crate::value::is_runtime_error(r))
    }

    /// `Try offset`: records a handler `offset` bytes ahead, with the current
    /// stack and frame depths.
    pub(crate) fn op_try(&mut self, offset: usize) -> (r: PulseResult<VMStatus>)
        requires
            old(self).wf(),
        ensures
            final(self).wf(),
            final(self).stack == old(self).stack,
            final(self).heap == old(self).heap,
            final(self).frames == old(self).frames,
            final(self).globals == old(self).globals,
            old(self).frames@.len() > 0 && old(self).ip() + offset <= usize::MAX ==> status_is_running(r)
                && final(self).exception_frames@ == old(self).exception_frames@.push(ExceptionFrame {
                    handler_ip: (old(self).ip() + offset) as usize,
                    stack_depth: old(self).stack@.len() as usize,
                    frame_depth: old(self).frames@.len() as usize,
                }),
            !(old(self).frames@.len() > 0 && old(self).ip() + offset <= usize::MAX) ==> crate::value::is_runtime_error(r),
    {
        if self.frames.len() == 0 {
            return Err(PulseError::RuntimeError(text("No frame")));
        }
        let ip = self.frames[self.frames.len() - 1].ip;
        let handler_ip = match ip.checked_add(offset) {
            Some(n) => n,
            None => {
                return Err(PulseError::RuntimeError(text("Handler out of range")));
            },
        };
        let ef = ExceptionFrame { handler_ip, stack_depth: self.stack.len(), frame_depth: self.frames.len() };
        self.exception_frames.push(ef);
        Ok(VMStatus::Running)
    }

    /// Unwinds to the innermost handler: drops the frames and stack values
    /// above its depths, pushes the exception value and jumps to the
    /// handler. Without a handler the exception is uncaught.
    pub(crate) fn unwind_to_handler(&mut self, exception_val: Value) -> (r: PulseResult<()>)
        requires
            old(self).wf(),
        ensures
            final(self).wf(),
            final(self).heap == old(self).heap,
            final(self).globals == old(self).globals,
            old(self).exception_frames@.len() == 0 ==> crate::value::is_runtime_error(r)
                && final(self).stack == old(self).stack && final(self).frames == old(self).frames,
            old(self).exception_frames@.len() > 0 ==> ({
                let ef = old(self).exception_frames@.last();
                let fr = if old(self).frames@.len() > ef.frame_depth { old(self).frames@.take(ef.frame_depth as int) } else { old(self).frames@ };
                let st = if old(self).stack@.len() > ef.stack_depth { old(self).stack@.take(ef.stack_depth as int) } else { old(self).stack@ };
                &&& r is Ok
                &&& final(self).exception_frames@ == old(self).exception_frames@.drop_last()
                &&& final(self).stack@ == st.push(exception_val)
                &&& final(self).frames@ == if fr.len() > 0 { fr.update(fr.len() - 1, frame_at_ip(fr.last(), ef.handler_ip)) } else { fr }
            }),
    {
        match self.exception_frames.pop() {
            Some(ef) => {
                if self.frames.len() > ef.frame_depth {
                    self.frames.truncate(ef.frame_depth);
                }
                if self.stack.len() > ef.stack_depth {
                    self.stack.truncate(ef.stack_depth);
                }
                self.stack.push(exception_val);
                if self.frames.len() > 0 {
                    self.set_ip(ef.handler_ip);
                }
                Ok(())
            },
            None => Err(PulseError::RuntimeError(text("Uncaught exception"))),
        }
    }

    /// What `op_build_list` does, from `before` to `after`, giving `r`.
    pub open spec fn build_list_effect(before: VM, after: VM, r: PulseResult<VMStatus>, count: usize) -> bool {
        &&& (env_eq(after, before))
        &&& (count > before.stack@.len() ==> crate::value::is_stack_underflow(r))
        &&& (count <= before.stack@.len() ==> ({
                let items = before.stack@.subrange(before.stack@.len() - count, before.stack@.len() as int);
                &&& status_is_running(r)
                &&& after.stack@.drop_last() == stack_below(before.stack@, count as int)
                &&& after.stack@.len() == before.stack@.len() - count + 1
                &&& after.stack@.last() matches Value::Obj(h)
                &&& exists|v: Vec<Value>| v@ == items && allocated(before.heap, after.heap, h, Object::List(v))
            }))
    }

    /// `BuildList n`: replaces the top `n` values with a new list of them.
    pub(crate) fn op_build_list(&mut self, count: usize) -> (r: PulseResult<VMStatus>)
        requires
            old(self).wf(),
        ensures
            final(self).wf(),
            env_eq(*final(self), *old(self)),
            count > old(self).stack@.len() ==> crate::value::is_stack_underflow(r),
            count <= old(self).stack@.len() ==> ({
                let items = old(self).stack@.subrange(old(self).stack@.len() - count, old(self).stack@.len() as int);
                &&& status_is_running(r)
                &&& final(self).stack@.drop_last() == stack_below(old(self).stack@, count as int)
                &&& final(self).stack@.len() == old(self).stack@.len() - count + 1
                &&& final(self).stack@.last() matches Value::Obj(h)
                &&& exists|v: Vec<Value>| v@ == items && allocated(old(self).heap, final(self).heap, h, Object::List(v))
            }),
    {
        if count > self.stack.len() {
            self.stack.truncate(0);
            return Err(PulseError::StackUnderflow);
        }
        let start = self.stack.len() - count;
        let items = self.stack.split_off(start);
        let ghost iv = items;
        let h = self.heap.allocate(Object::List(items));
        self.stack.push(Value::Obj(h));
        assert(self.stack@.drop_last() =~= stack_below(old(self).stack@, count as int));
        assert(allocated(old(self).heap, self.heap, h, Object::List(iv)));
        Ok(VMStatus::Running)
    }

    /// What `op_unit` does, from `before` to `after`, giving `r`.
    pub open spec fn unit_effect(before: VM, after: VM, r: PulseResult<VMStatus>) -> bool {
        &&& (env_eq(after, before))
        &&& (after.heap == before.heap)
        &&& (status_is_running(r) && after.stack@ == before.stack@.push(Value::Unit))
    }

    /// `Unit`: pushes the unit value.
    pub(crate) fn op_unit(&mut self) -> (r: PulseResult<VMStatus>)
        requires
            old(self).wf(),
        ensures
            final(self).wf(),
            env_eq(*final(self), *old(self)),
            final(self).heap == old(self).heap,
            status_is_running(r) && final(self).stack@ == old(self).stack@.push(Value::Unit),
    {
        self.stack.push(Value::Unit);
        Ok(VMStatus::Running)
    }

    /// What `op_self_id` does, from `before` to `after`, giving `r`.
    pub open spec fn self_id_effect(before: VM, after: VM, r: PulseResult<VMStatus>) -> bool {
        &&& (env_eq(after, before))
        &&& (after.heap == before.heap)
        &&& (status_is_running(r) && after.stack@ == before.stack@.push(Value::Pid(before.pid)))
    }

    /// `SelfId`: pushes this actor's id.
    pub(crate) fn op_self_id(&mut self) -> (r: PulseResult<VMStatus>)
        requires
            old(self).wf(),
        ensures
            final(self).wf(),
            env_eq(*final(self), *old(self)),
            final(self).heap == old(self).heap,
            status_is_running(r) && final(self).stack@ == old(self).stack@.push(Value::Pid(old(self).pid)),
    {
        self.stack.push(Value::Pid(self.pid));
        Ok(VMStatus::Running)
    }

    /// Pops an actor id.
    pub(crate) fn pop_pid(&mut self) -> (r: PulseResult<ActorId>)
        ensures
            env_eq(*final(self), *old(self)),
            final(self).heap == old(self).heap,
            old(self).stack@.len() == 0 ==> crate::value::is_stack_underflow(r),
            old(self).stack@.len() > 0 ==> final(self).stack@ == old(self).stack@.drop_last() && match old(self).stack@.last() {
                Value::Pid(p) => r == Ok::<ActorId, PulseError>(p),
                _ => crate::value::is_type_mismatch(r),
            },
    {
        let v = self.pop()?;
        match v {
            Value::Pid(p) => Ok(p),
            _ => Err(PulseError::TypeMismatch { expected: text("pid"), got: v.kind_name() }),
        }
    }

    /// Pops a string object and returns its text.
    pub(crate) fn pop_name(&mut self) -> (r: PulseResult<String>)
        requires
            old(self).heap.wf(),
        ensures
            env_eq(*final(self), *old(self)),
            final(self).heap == old(self).heap,
            old(self).stack@.len() == 0 ==> crate::value::is_stack_underflow(r),
            old(self).stack@.len() > 0 ==> final(self).stack@ == old(self).stack@.drop_last() && match old(self).stack@.last() {
                Value::Obj(h) => match heap_string(old(self).heap, h) {
                    Some(t) => r matches Ok(s) && s@ == t,
                    None => r is Err,
                },
                _ => crate::value::is_type_mismatch(r),
            },
    {
        let v = self.pop()?;
        match v {
            Value::Obj(h) => self.get_string(h),
            _ => Err(PulseError::TypeMismatch { expected: text("string name"), got: v.kind_name() }),
        }
    }
}

/// The length `len` reports for an object: bytes of a string, items of a
/// list, map, set or queue.
pub open spec fn collection_len(o: Object) -> Option<nat> {
    match o {
        Object::String(s) => Some(vstd::utf8::encode_utf8(s@).len()),
        Object::List(v) => Some(v@.len()),
        Object::Dict(m) => Some(m.entries@.len()),
        Object::StringSet(m) => Some(m.entries@.len()),
        Object::Queue(q) => Some(q@.len()),
        _ => None,
    }
}

/// The object a value refers to, when it is a live object.
pub open spec fn object_of(h: Heap, v: Value) -> Option<Object> {
    match v {
        Value::Obj(x) => if h.live().dom().contains(x.0 as int) { Some(h.live()[x.0 as int]) } else { None },
        _ => None,
    }
}

impl VM {
    /// The length of a collection object.
    pub(crate) fn object_len(&self, h: ObjHandle) -> (r: PulseResult<usize>)
        requires
            self.heap.wf(),
        ensures
            match object_of(self.heap, Value::Obj(h)) {
                Some(o) => match collection_len(o) {
                    Some(n) => r == Ok::<usize, PulseError>(n as usize),
                    None => crate::value::is_type_mismatch(r),
                },
                None => crate::value::is_runtime_error(r),
            },
    {
        match self.heap.get(h) {
            Some(Object::String(s)) => Ok(s.as_str().len()),
            Some(Object::List(l)) => Ok(l.len()),
            Some(Object::Dict(m)) => Ok(m.entries.len()),
            Some(Object::StringSet(m)) => Ok(m.entries.len()),
            Some(Object::Queue(q)) => Ok(q.len()),
            Some(_) => Err(PulseError::TypeMismatch { expected: text("collection"), got: text("object") }),
            None => Err(PulseError::RuntimeError(text("Invalid object handle"))),
        }
    }

    /// What `op_len` does, from `before` to `after`, giving `r`.
    pub open spec fn len_effect(before: VM, after: VM, r: PulseResult<VMStatus>) -> bool {
        &&& (env_eq(after, before))
        &&& (after.heap == before.heap)
        &&& (before.stack@.len() == 0 ==> crate::value::is_stack_underflow(r))
        &&& (before.stack@.len() > 0 ==> match object_of(before.heap, before.stack@.last()) {
                Some(o) => match collection_len(o) {
                    Some(n) => status_is_running(r) && after.stack@ == before.stack@.push(Value::Int((n as usize) as i64)),
                    None => crate::value::is_type_mismatch(r),
                },
                None => r is Err,
            })
    }

    /// `Len`: pushes the length of the collection on top of the stack,
    /// which stays.
    pub(crate) fn op_len(&mut self) -> (r: PulseResult<VMStatus>)
        requires
            old(self).wf(),
        ensures
            final(self).wf(),
            env_eq(*final(self), *old(self)),
            final(self).heap == old(self).heap,
            old(self).stack@.len() == 0 ==> crate::value::is_stack_underflow(r),
            old(self).stack@.len() > 0 ==> match object_of(old(self).heap, old(self).stack@.last()) {
                Some(o) => match collection_len(o) {
                    Some(n) => status_is_running(r) && final(self).stack@ == old(self).stack@.push(Value::Int((n as usize) as i64)),
                    None => crate::value::is_type_mismatch(r),
                },
                None => r is Err,
            },
    {
        let v = self.peek(0)?;
        match v {
            Value::Obj(h) => {
                let n = self.object_len(h)?;
                self.stack.push(Value::Int(n as i64));
                Ok(VMStatus::Running)
            },
            _ => Err(PulseError::TypeMismatch { expected: text("collection"), got: v.kind_name() }),
        }
    }

    /// What `op_is_kind` does, from `before` to `after`, giving `r`.
    pub open spec fn is_kind_effect(before: VM, after: VM, r: PulseResult<VMStatus>, map: bool) -> bool {
        &&& (env_eq(after, before))
        &&& (after.heap == before.heap)
        &&& (before.stack@.len() == 0 ==> crate::value::is_stack_underflow(r))
        &&& (before.stack@.len() > 0 ==> match before.stack@.last() {
                Value::Obj(h) => match object_of(before.heap, Value::Obj(h)) {
                    Some(o) => status_is_running(r) && after.stack@ == before.stack@.push(Value::Bool(if map { o is Dict } else { o is List })),
                    None => crate::value::is_runtime_error(r),
                },
                _ => status_is_running(r) && after.stack@ == before.stack@.push(Value::Bool(false)),
            })
    }

    /// `IsList` (or, with `map`, `IsMap`): pushes whether the top value, which
    /// stays, is a list (a map); a dead handle is an error.
    pub(crate) fn op_is_kind(&mut self, map: bool) -> (r: PulseResult<VMStatus>)
        requires
            old(self).wf(),
        ensures
            final(self).wf(),
            env_eq(*final(self), *old(self)),
            final(self).heap == old(self).heap,
            old(self).stack@.len() == 0 ==> crate::value::is_stack_underflow(r),
            old(self).stack@.len() > 0 ==> match old(self).stack@.last() {
                Value::Obj(h) => match object_of(old(self).heap, Value::Obj(h)) {
                    Some(o) => status_is_running(r) && final(self).stack@ == old(self).stack@.push(Value::Bool(if map { o is Dict } else { o is List })),
                    None => crate::value::is_runtime_error(r),
                },
                _ => status_is_running(r) && final(self).stack@ == old(self).stack@.push(Value::Bool(false)),
            },
    {
        let v = self.peek(0)?;
        let b = match v {
            Value::Obj(h) => match self.heap.get(h) {
                Some(o) => if map { matches!(o, Object::Dict(_)) } else { matches!(o, Object::List(_)) },
                None => {
                    return Err(PulseError::RuntimeError(text("Invalid object handle")));
                },
            },
            _ => false,
        };
        self.stack.push(Value::Bool(b));
        Ok(VMStatus::Running)
    }

    /// What `op_map_contains_key` does, from `before` to `after`, giving `r`.
    pub open spec fn map_contains_key_effect(before: VM, after: VM, r: PulseResult<VMStatus>) -> bool {
        &&& (env_eq(after, before))
        &&& (after.heap == before.heap)
        &&& (before.stack@.len() >= 2 ==> match before.stack@.last() {
                Value::Obj(k) => match heap_string(before.heap, k) {
                    Some(key) => {
                        let m = before.stack@[before.stack@.len() - 2];
                        match m {
                            Value::Obj(mh) => match object_of(before.heap, m) {
                                Some(o) => status_is_running(r) && after.stack@ == before.stack@.drop_last().push(
                                    Value::Bool(o matches Object::Dict(d) && d@.dom().contains(key))),
                                None => crate::value::is_runtime_error(r),
                            },
                            _ => status_is_running(r) && after.stack@ == before.stack@.drop_last().push(Value::Bool(false)),
                        }
                    },
                    None => r is Err,
                },
                _ => crate::value::is_type_mismatch(r),
            })
        &&& (before.stack@.len() < 2 ==> r is Err)
    }

    /// `MapContainsKey`: pops a string key and pushes whether the map under
    /// it (which stays) has that key; a value that is no map gives false.
    pub(crate) fn op_map_contains_key(&mut self) -> (r: PulseResult<VMStatus>)
        requires
            old(self).wf(),
        ensures
            final(self).wf(),
            env_eq(*final(self), *old(self)),
            final(self).heap == old(self).heap,
            old(self).stack@.len() >= 2 ==> match old(self).stack@.last() {
                Value::Obj(k) => match heap_string(old(self).heap, k) {
                    Some(key) => {
                        let m = old(self).stack@[old(self).stack@.len() - 2];
                        match m {
                            Value::Obj(mh) => match object_of(old(self).heap, m) {
                                Some(o) => status_is_running(r) && final(self).stack@ == old(self).stack@.drop_last().push(
                                    Value::Bool(o matches Object::Dict(d) && d@.dom().contains(key))),
                                None => crate::value::is_runtime_error(r),
                            },
                            _ => status_is_running(r) && final(self).stack@ == old(self).stack@.drop_last().push(Value::Bool(false)),
                        }
                    },
                    None => r is Err,
                },
                _ => crate::value::is_type_mismatch(r),
            },
            old(self).stack@.len() < 2 ==> r is Err,
    {
        let key_val = self.pop()?;
        let key = match key_val {
            Value::Obj(h) => self.get_string(h)?,
            _ => {
                return Err(PulseError::TypeMismatch { expected: text("string key"), got: key_val.kind_name() });
            },
        };
        let m = self.peek(0)?;
        let found = match m {
            Value::Obj(h) => match self.heap.get(h) {
                Some(Object::Dict(d)) => {
                    proof { self.heap.lemma_wf(); }
                    d.contains_key(key.as_str())
                },
                Some(_) => false,
                None => {
                    return Err(PulseError::RuntimeError(text("Invalid object handle")));
                },
            },
            _ => false,
        };
        self.stack.push(Value::Bool(found));
        Ok(VMStatus::Running)
    }

    /// What `op_build_map` does, from `before` to `after`, giving `r`.
    pub open spec fn build_map_effect(before: VM, after: VM, r: PulseResult<VMStatus>, count: usize) -> bool {
        &&& (env_eq(after, before))
        &&& (r is Ok ==> ({
                &&& status_is_running(r)
                &&& 2 * count <= before.stack@.len()
                &&& after.stack@.drop_last() == stack_below(before.stack@, 2 * count)
                &&& after.stack@.len() == before.stack@.len() - 2 * count + 1
                &&& after.stack@.last() matches Value::Obj(h)
                &&& fresh_obj(before.heap, after.heap, h)
                &&& after.heap.live()[h.0 as int] matches Object::Dict(m) && m@.dom().len() <= count
            }))
        &&& (2 * count > before.stack@.len() ==> r is Err)
        &&& (2 * count <= before.stack@.len() ==> match built_map(before.heap, before.stack@, count as nat) {
                Some(bm) => r is Ok && (after.stack@.last() matches Value::Obj(h)
                    && after.heap.live()[h.0 as int] matches Object::Dict(m) && m@ == bm),
                None => r is Err,
            })
    }

    /// `BuildMap n`: pops `n` value/key pairs (keys are strings) and pushes
    /// a new map of them; for a repeated key the pair nearer the bottom wins.
    pub(crate) fn op_build_map(&mut self, count: usize) -> (r: PulseResult<VMStatus>)
        requires
            old(self).wf(),
        ensures
            final(self).wf(),
            env_eq(*final(self), *old(self)),
            r is Ok ==> ({
                &&& status_is_running(r)
                &&& 2 * count <= old(self).stack@.len()
                &&& final(self).stack@.drop_last() == stack_below(old(self).stack@, 2 * count)
                &&& final(self).stack@.len() == old(self).stack@.len() - 2 * count + 1
                &&& final(self).stack@.last() matches Value::Obj(h)
                &&& fresh_obj(old(self).heap, final(self).heap, h)
                &&& final(self).heap.live()[h.0 as int] matches Object::Dict(m) && m@.dom().len() <= count
            }),
            2 * count > old(self).stack@.len() ==> r is Err,
            2 * count <= old(self).stack@.len() ==> match built_map(old(self).heap, old(self).stack@, count as nat) {
                Some(bm) => r is Ok && (final(self).stack@.last() matches Value::Obj(h)
                    && final(self).heap.live()[h.0 as int] matches Object::Dict(m) && m@ == bm),
                None => r is Err,
            },
    {
        let mut map: NameMap<Value> = NameMap::new();
        let mut i: usize = 0;
        let ghost base = old(self).stack@;
        let ghost h0 = old(self).heap;
        while i < count
            invariant
                self.wf(),
                env_eq(*self, *old(self)),
                self.heap == old(self).heap,
                h0 == old(self).heap,
                base == old(self).stack@,
                i <= count,
                map.wf(),
                map@.dom().len() <= i,
                map@.dom().finite(),
                2 * i <= base.len(),
                self.stack@ == stack_below(base, 2 * i),
                2 * count <= base.len() ==> built_map(h0, base, i as nat) == Some(map@),
            decreases count - i,
        {
            let val = self.pop()?;
            let key_val = self.pop()?;
            let key = match key_val {
                Value::Obj(h) => match self.get_string(h) {
                    Ok(k) => k,
                    Err(e) => {
                        proof {
                            lemma_built_map_none(h0, base, (i + 1) as nat, count as nat);
                        }
                        return Err(e);
                    },
                },
                _ => {
                    proof {
                        lemma_built_map_none(h0, base, (i + 1) as nat, count as nat);
                    }
                    return Err(PulseError::TypeMismatch { expected: text("string key"), got: key_val.kind_name() });
                },
            };
            proof { map.lemma_dom_len(); }
            map.insert(key, val);
            proof { map.lemma_dom_len(); }
            i = i + 1;
            assert(self.stack@ =~= stack_below(base, 2 * i));
        }
        let ghost mv = map;
        let h = self.heap.allocate(Object::Dict(map));
        self.stack.push(Value::Obj(h));
        assert(allocated(old(self).heap, self.heap, h, Object::Dict(mv)));
        assert(mv@.dom().len() <= count);
        assert(self.stack@.drop_last() =~= stack_below(old(self).stack@, 2 * count));
        Ok(VMStatus::Running)
    }

    /// What `op_slice` does, from `before` to `after`, giving `r`.
    pub open spec fn slice_effect(before: VM, after: VM, r: PulseResult<VMStatus>) -> bool {
        &&& (env_eq(after, before))
        &&& (before.stack@.len() < 2 ==> r is Err)
        &&& (before.stack@.len() >= 2 ==> match (before.stack@[before.stack@.len() - 2], before.stack@.last()) {
                (Value::Obj(lh), Value::Int(i)) => match object_of(before.heap, Value::Obj(lh)) {
                    Some(Object::List(items)) => {
                        let tail = if 0 <= i <= items@.len() { items@.subrange(i as int, items@.len() as int) } else { Seq::empty() };
                        &&& status_is_running(r)
                        &&& after.stack@.drop_last() == stack_below(before.stack@, 2)
                        &&& after.stack@.len() == before.stack@.len() - 1
                        &&& after.stack@.last() matches Value::Obj(h)
                        &&& fresh_obj(before.heap, after.heap, h)
                        &&& after.heap.live()[h.0 as int] matches Object::List(v) && v@ == tail
                    },
                    Some(_) => crate::value::is_type_mismatch(r),
                    None => crate::value::is_runtime_error(r),
                },
                (_, Value::Int(_)) => crate::value::is_type_mismatch(r),
                _ => crate::value::is_type_mismatch(r),
            })
    }

    /// `Slice`: pops an index and a list and pushes a new list of the items
    /// from that index on; an index past the end (or negative) gives an
    /// empty list.
    pub(crate) fn op_slice(&mut self) -> (r: PulseResult<VMStatus>)
        requires
            old(self).wf(),
        ensures
            final(self).wf(),
            env_eq(*final(self), *old(self)),
            old(self).stack@.len() < 2 ==> r is Err,
            old(self).stack@.len() >= 2 ==> match (old(self).stack@[old(self).stack@.len() - 2], old(self).stack@.last()) {
                (Value::Obj(lh), Value::Int(i)) => match object_of(old(self).heap, Value::Obj(lh)) {
                    Some(Object::List(items)) => {
                        let tail = if 0 <= i <= items@.len() { items@.subrange(i as int, items@.len() as int) } else { Seq::empty() };
                        &&& status_is_running(r)
                        &&& final(self).stack@.drop_last() == stack_below(old(self).stack@, 2)
                        &&& final(self).stack@.len() == old(self).stack@.len() - 1
                        &&& final(self).stack@.last() matches Value::Obj(h)
                        &&& fresh_obj(old(self).heap, final(self).heap, h)
                        &&& final(self).heap.live()[h.0 as int] matches Object::List(v) && v@ == tail
                    },
                    Some(_) => crate::value::is_type_mismatch(r),
                    None => crate::value::is_runtime_error(r),
                },
                (_, Value::Int(_)) => crate::value::is_type_mismatch(r),
                _ => crate::value::is_type_mismatch(r),
            },
    {
        let (list_val, index_val) = self.pop_two()?;
        let start = match index_val {
            Value::Int(i) => i,
            _ => {
                return Err(PulseError::TypeMismatch { expected: text("int index"), got: index_val.kind_name() });
            },
        };
        let h = match list_val {
            Value::Obj(h) => h,
            _ => {
                return Err(PulseError::TypeMismatch { expected: text("list"), got: list_val.kind_name() });
            },
        };
        let tail = match self.heap.get(h) {
            Some(Object::List(items)) => {
                let mut t: Vec<Value> = Vec::new();
                if start >= 0 && (start as u64) <= (items.len() as u64) {
                    let s0 = start as usize;
                    let mut j = s0;
                    while j < items.len()
                        invariant
                            s0 <= j <= items@.len(),
                            t@ == items@.subrange(s0 as int, j as int),
                        decreases items@.len() - j,
                    {
                        t.push(items[j]);
                        j = j + 1;
                        assert(t@ =~= items@.subrange(s0 as int, j as int));
                    }
                }
                t
            },
            Some(_) => {
                return Err(PulseError::TypeMismatch { expected: text("list"), got: text("object") });
            },
            None => {
                return Err(PulseError::RuntimeError(text("Invalid object handle")));
            },
        };
        let ghost tv = tail;
        let nh = self.heap.allocate(Object::List(tail));
        self.stack.push(Value::Obj(nh));
        assert(allocated(old(self).heap, self.heap, nh, Object::List(tv)));
        proof {
            let items = self.heap.live()[h.0 as int];
            assert(self.stack@.drop_last() =~= stack_below(old(self).stack@, 2));
        }
        Ok(VMStatus::Running)
    }
}

/// `b`'s heap is `a`'s with the object in the live slot `h` replaced.
pub open spec fn updated_obj(a: Heap, b: Heap, h: ObjHandle) -> bool {
    &&& a.live().dom().contains(h.0 as int)
    &&& b.live() == a.live().insert(h.0 as int, b.live()[h.0 as int])
}

/// The value a method binding finds: the method value is a closure object.
pub open spec fn method_closure(h: Heap, v: Value) -> Option<Closure> {
    match object_of(h, v) {
        Some(Object::Closure(c)) => Some(c),
        _ => None,
    }
}

impl VM {
    /// What `op_get_index` does, from `before` to `after`, giving `r`.
    pub open spec fn get_index_effect(before: VM, after: VM, r: PulseResult<VMStatus>) -> bool {
        &&& (env_eq(after, before))
        &&& (before.stack@.len() < 2 ==> r is Err)
        &&& (before.stack@.len() >= 2 ==> ({
                let target = before.stack@[before.stack@.len() - 2];
                let index = before.stack@.last();
                let rest = stack_below(before.stack@, 2);
                let key = match index { Value::Obj(k) => heap_string(before.heap, k), _ => None };
                match object_of(before.heap, target) {
                    None => r is Err,
                    Some(Object::List(v)) => match index {
                        Value::Int(i) => if 0 <= i < v@.len() {
                            status_is_running(r) && after.stack@ == rest.push(v@[i as int]) && after.heap == before.heap
                        } else {
                            r matches Err(PulseError::RuntimeError(m)) && m@ == index_message(i)
                                && after.stack@ == rest && after.heap == before.heap
                        },
                        _ => crate::value::is_type_mismatch(r),
                    },
                    Some(Object::Dict(m)) => match key {
                        Some(k) => status_is_running(r) && after.heap == before.heap
                            && after.stack@ == rest.push(if m@.dom().contains(k) { m@[k] } else { Value::Unit }),
                        None => r is Err,
                    },
                    Some(Object::Module(m)) => match key {
                        Some(k) => status_is_running(r) && after.heap == before.heap
                            && after.stack@ == rest.push(if m@.dom().contains(k) { m@[k] } else { Value::Unit }),
                        None => r is Err,
                    },
                    Some(Object::Instance(inst)) => match key {
                        Some(k) => status_is_running(r) && if inst.fields@.dom().contains(k) {
                            after.heap == before.heap && after.stack@ == rest.push(inst.fields@[k])
                        } else if inst.class.methods@.dom().contains(k) && method_closure(before.heap, inst.class.methods@[k]) is Some {
                            &&& after.stack@.drop_last() == rest
                            &&& after.stack@.len() == rest.len() + 1
                            &&& after.stack@.last() matches Value::Obj(bh)
                            &&& fresh_obj(before.heap, after.heap, bh)
                            &&& after.heap.live()[bh.0 as int] matches Object::BoundMethod(b)
                            &&& b.receiver == target
                            &&& b.method == method_closure(before.heap, inst.class.methods@[k])->Some_0.function
                        } else {
                            after.heap == before.heap && after.stack@ == rest.push(Value::Unit)
                        },
                        None => r is Err,
                    },
                    Some(_) => crate::value::is_type_mismatch(r),
                }
            }))
    }

    /// `GetIndex`: pops an index and a target and pushes the element: a
    /// list item by integer index, a map or module entry by string key (unit
    /// when absent), an instance field, or else a method of its class bound
    /// to the instance (unit when absent).
    pub(crate) fn op_get_index(&mut self) -> (r: PulseResult<VMStatus>)
        requires
            old(self).wf(),
        ensures
            final(self).wf(),
            env_eq(*final(self), *old(self)),
            old(self).stack@.len() < 2 ==> r is Err,
            old(self).stack@.len() >= 2 ==> ({
                let target = old(self).stack@[old(self).stack@.len() - 2];
                let index = old(self).stack@.last();
                let rest = stack_below(old(self).stack@, 2);
                let key = match index { Value::Obj(k) => heap_string(old(self).heap, k), _ => None };
                match object_of(old(self).heap, target) {
                    None => r is Err,
                    Some(Object::List(v)) => match index {
                        Value::Int(i) => if 0 <= i < v@.len() {
                            status_is_running(r) && final(self).stack@ == rest.push(v@[i as int]) && final(self).heap == old(self).heap
                        } else {
                            r matches Err(PulseError::RuntimeError(m)) && m@ == index_message(i)
                                && final(self).stack@ == rest && final(self).heap == old(self).heap
                        },
                        _ => crate::value::is_type_mismatch(r),
                    },
                    Some(Object::Dict(m)) => match key {
                        Some(k) => status_is_running(r) && final(self).heap == old(self).heap
                            && final(self).stack@ == rest.push(if m@.dom().contains(k) { m@[k] } else { Value::Unit }),
                        None => r is Err,
                    },
                    Some(Object::Module(m)) => match key {
                        Some(k) => status_is_running(r) && final(self).heap == old(self).heap
                            && final(self).stack@ == rest.push(if m@.dom().contains(k) { m@[k] } else { Value::Unit }),
                        None => r is Err,
                    },
                    Some(Object::Instance(inst)) => match key {
                        Some(k) => status_is_running(r) && if inst.fields@.dom().contains(k) {
                            final(self).heap == old(self).heap && final(self).stack@ == rest.push(inst.fields@[k])
                        } else if inst.class.methods@.dom().contains(k) && method_closure(old(self).heap, inst.class.methods@[k]) is Some {
                            &&& final(self).stack@.drop_last() == rest
                            &&& final(self).stack@.len() == rest.len() + 1
                            &&& final(self).stack@.last() matches Value::Obj(bh)
                            &&& fresh_obj(old(self).heap, final(self).heap, bh)
                            &&& final(self).heap.live()[bh.0 as int] matches Object::BoundMethod(b)
                            &&& b.receiver == target
                            &&& b.method == method_closure(old(self).heap, inst.class.methods@[k])->Some_0.function
                        } else {
                            final(self).heap == old(self).heap && final(self).stack@ == rest.push(Value::Unit)
                        },
                        None => r is Err,
                    },
                    Some(_) => crate::value::is_type_mismatch(r),
                }
            }),
    {
        let (target_val, index_val) = self.pop_two()?;
        let handle = match target_val {
            Value::Obj(h) => h,
            _ => {
                return Err(PulseError::TypeMismatch { expected: text("List, Map, or Instance"), got: target_val.kind_name() });
            },
        };
        proof { self.heap.lemma_wf(); }
        let result: Value = match self.heap.get(handle) {
            None => {
                return Err(PulseError::RuntimeError(text("Invalid handle")));
            },
            Some(Object::List(v)) => {
                let idx = index_val.as_int()?;
                if idx < 0 || (idx as u64) >= (v.len() as u64) {
                    return Err(PulseError::RuntimeError(index_error_text(idx)));
                }
                v[idx as usize]
            },
            Some(Object::Dict(m)) | Some(Object::Module(m)) => {
                let key = match index_val {
                    Value::Obj(k) => self.get_string(k)?,
                    _ => {
                        return Err(PulseError::TypeMismatch { expected: text("string key"), got: index_val.kind_name() });
                    },
                };
                match m.get(key.as_str()) {
                    Some(v) => *v,
                    None => Value::Unit,
                }
            },
            Some(Object::Instance(inst)) => {
                let key = match index_val {
                    Value::Obj(k) => self.get_string(k)?,
                    _ => {
                        return Err(PulseError::TypeMismatch { expected: text("string key"), got: index_val.kind_name() });
                    },
                };
                match inst.fields.get(key.as_str()) {
                    Some(v) => *v,
                    None => {
                        let method = match inst.class.methods.get(key.as_str()) {
                            Some(mv) => match *mv {
                                Value::Obj(mh) => match self.heap.get(mh) {
                                    Some(Object::Closure(c)) => Some(c.function.copy()),
                                    _ => None,
                                },
                                _ => None,
                            },
                            None => None,
                        };
                        match method {
                            Some(f) => {
                                let bh = self.heap.allocate(Object::BoundMethod(crate::object::BoundMethod { receiver: target_val, method: f }));
                                Value::Obj(bh)
                            },
                            None => Value::Unit,
                        }
                    },
                }
            },
            Some(_) => {
                return Err(PulseError::TypeMismatch { expected: text("List, Map, Module, or Instance"), got: text("other object") });
            },
        };
        self.stack.push(result);
        Ok(VMStatus::Running)
    }

    /// What `op_set_index` does, from `before` to `after`, giving `r`.
    pub open spec fn set_index_effect(before: VM, after: VM, r: PulseResult<VMStatus>) -> bool {
        &&& (env_eq(after, before))
        &&& (before.stack@.len() < 3 ==> r is Err)
        &&& (before.stack@.len() >= 3 ==> ({
                let target = before.stack@[before.stack@.len() - 3];
                let index = before.stack@[before.stack@.len() - 2];
                let val = before.stack@.last();
                let rest = stack_below(before.stack@, 3);
                let key = match index { Value::Obj(k) => heap_string(before.heap, k), _ => None };
                if index is Obj && key is None {
                    r is Err
                } else {
                    match object_of(before.heap, target) {
                        None => r is Err,
                        Some(Object::List(v)) => match index {
                            Value::Int(i) => if 0 <= i < v@.len() {
                                &&& status_is_running(r)
                                &&& after.stack@ == rest.push(val)
                                &&& updated_obj(before.heap, after.heap, target->Obj_0)
                                &&& after.heap.live()[target->Obj_0.0 as int] matches Object::List(v2) && v2@ == v@.update(i as int, val)
                            } else {
                                r matches Err(PulseError::RuntimeError(m)) && m@ == index_message(i)
                            },
                            _ => crate::value::is_type_mismatch(r),
                        },
                        Some(Object::Dict(m)) => match key {
                            Some(k) => {
                                &&& status_is_running(r)
                                &&& after.stack@ == rest.push(val)
                                &&& updated_obj(before.heap, after.heap, target->Obj_0)
                                &&& after.heap.live()[target->Obj_0.0 as int] matches Object::Dict(m2) && m2@ == m@.insert(k, val)
                            },
                            None => crate::value::is_type_mismatch(r),
                        },
                        Some(Object::Instance(inst)) => match key {
                            Some(k) => {
                                &&& status_is_running(r)
                                &&& after.stack@ == rest.push(val)
                                &&& updated_obj(before.heap, after.heap, target->Obj_0)
                                &&& after.heap.live()[target->Obj_0.0 as int] matches Object::Instance(i2)
                                        && i2.fields@ == inst.fields@.insert(k, val) && i2.class == inst.class
                            },
                            None => crate::value::is_type_mismatch(r),
                        },
                        Some(_) => crate::value::is_type_mismatch(r),
                    }
                }
            }))
    }

    /// `SetIndex`: pops a value, an index and a target, stores the value at
    /// the index (a list item in range, or a map entry or instance field by
    /// string key) and pushes the value.
    pub(crate) fn op_set_index(&mut self) -> (r: PulseResult<VMStatus>)
        requires
            old(self).wf(),
        ensures
            final(self).wf(),
            env_eq(*final(self), *old(self)),
            old(self).stack@.len() < 3 ==> r is Err,
            old(self).stack@.len() >= 3 ==> ({
                let target = old(self).stack@[old(self).stack@.len() - 3];
                let index = old(self).stack@[old(self).stack@.len() - 2];
                let val = old(self).stack@.last();
                let rest = stack_below(old(self).stack@, 3);
                let key = match index { Value::Obj(k) => heap_string(old(self).heap, k), _ => None };
                if index is Obj && key is None {
                    r is Err
                } else {
                    match object_of(old(self).heap, target) {
                        None => r is Err,
                        Some(Object::List(v)) => match index {
                            Value::Int(i) => if 0 <= i < v@.len() {
                                &&& status_is_running(r)
                                &&& final(self).stack@ == rest.push(val)
                                &&& updated_obj(old(self).heap, final(self).heap, target->Obj_0)
                                &&& final(self).heap.live()[target->Obj_0.0 as int] matches Object::List(v2) && v2@ == v@.update(i as int, val)
                            } else {
                                r matches Err(PulseError::RuntimeError(m)) && m@ == index_message(i)
                            },
                            _ => crate::value::is_type_mismatch(r),
                        },
                        Some(Object::Dict(m)) => match key {
                            Some(k) => {
                                &&& status_is_running(r)
                                &&& final(self).stack@ == rest.push(val)
                                &&& updated_obj(old(self).heap, final(self).heap, target->Obj_0)
                                &&& final(self).heap.live()[target->Obj_0.0 as int] matches Object::Dict(m2) && m2@ == m@.insert(k, val)
                            },
                            None => crate::value::is_type_mismatch(r),
                        },
                        Some(Object::Instance(inst)) => match key {
                            Some(k) => {
                                &&& status_is_running(r)
                                &&& final(self).stack@ == rest.push(val)
                                &&& updated_obj(old(self).heap, final(self).heap, target->Obj_0)
                                &&& final(self).heap.live()[target->Obj_0.0 as int] matches Object::Instance(i2)
                                        && i2.fields@ == inst.fields@.insert(k, val) && i2.class == inst.class
                            },
                            None => crate::value::is_type_mismatch(r),
                        },
                        Some(_) => crate::value::is_type_mismatch(r),
                    }
                }
            }),
    {
        let val = self.pop()?;
        let (target_val, index_val) = self.pop_two()?;
        let handle = match target_val {
            Value::Obj(h) => h,
            _ => {
                return Err(PulseError::TypeMismatch { expected: text("List or Map"), got: target_val.kind_name() });
            },
        };
        let key_string = match index_val {
            Value::Obj(k) => Some(self.get_string(k)?),
            _ => None,
        };
        proof { self.heap.lemma_wf(); }
        let kind: u8 = match self.heap.get(handle) {
            None => {
                return Err(PulseError::RuntimeError(text("Invalid handle")));
            },
            Some(Object::List(v)) => {
                let idx = index_val.as_int()?;
                if idx < 0 || (idx as u64) >= (v.len() as u64) {
                    return Err(PulseError::RuntimeError(index_error_text(idx)));
                }
                0
            },
            Some(Object::Dict(_)) => {
                if key_string.is_none() {
                    return Err(PulseError::TypeMismatch { expected: text("string key"), got: index_val.kind_name() });
                }
                1
            },
            Some(Object::Instance(_)) => {
                if key_string.is_none() {
                    return Err(PulseError::TypeMismatch { expected: text("string key"), got: index_val.kind_name() });
                }
                2
            },
            Some(_) => {
                return Err(PulseError::TypeMismatch { expected: text("List, Map, or Instance"), got: text("other object") });
            },
        };
        let ghost h0 = self.heap;
        let taken = self.heap.replace(handle, Object::List(Vec::new()));
        let updated = match taken {
            Ok(Object::List(mut v)) => {
                let idx = index_val.as_int()?;
                v.set(idx as usize, val);
                Object::List(v)
            },
            Ok(Object::Dict(mut m)) => {
                match key_string {
                    Some(k) => { m.insert(k, val); },
                    None => {},
                }
                Object::Dict(m)
            },
            Ok(Object::Instance(mut inst)) => {
                match key_string {
                    Some(k) => { inst.fields.insert(k, val); },
                    None => {},
                }
                Object::Instance(inst)
            },
            Ok(other) => other,
            Err(back) => back,
        };
        let _ = self.heap.replace(handle, updated);
        assert(self.heap.live() =~= h0.live().insert(handle.0 as int, self.heap.live()[handle.0 as int]));
        self.stack.push(val);
        Ok(VMStatus::Running)
    }
}


/// `==` and `!=` compare strings by their text: two live strings are equal
/// exactly when they hold the same text, wherever each is stored.
pub proof fn law_strings_equal_by_text(h: Heap, x: ObjHandle, y: ObjHandle)
    requires
        heap_string(h, x) is Some,
        heap_string(h, y) is Some,
    ensures
        values_equal(h, Value::Obj(x), Value::Obj(y)) <==> heap_string(h, x)->Some_0 == heap_string(h, y)->Some_0,
{
}

/// Any other pair of values is equal exactly when it is the same value: the
/// same integer, boolean, unit or process, or the same object (objects other
/// than strings are compared by identity).
pub proof fn law_other_values_equal_by_identity(h: Heap, a: Value, b: Value)
    requires
        !(a matches Value::Obj(x) && b matches Value::Obj(y) && heap_string(h, x) is Some && heap_string(h, y) is Some),
    ensures
        values_equal(h, a, b) <==> a == b,
{
}

/// `<` and `>` on the top two values: integers by their value, strings by
/// the order of their texts (`a > b` exactly when `b < a`), and a string
/// that is a proper prefix of another is the smaller.
pub proof fn law_compare_values(before: VM, after: VM, r: PulseResult<VMStatus>, less: bool)
    requires
        VM::compare_effect(before, after, r, less),
        before.stack@.len() >= 2,
    ensures
        ({
            let a = before.stack@[before.stack@.len() - 2];
            let b = before.stack@.last();
            &&& (a is Int && b is Int) ==> after.stack@.last()
                == Value::Bool(if less { a->Int_0 < b->Int_0 } else { b->Int_0 < a->Int_0 })
            &&& (a is Obj && b is Obj && heap_string(before.heap, a->Obj_0) is Some
                && heap_string(before.heap, b->Obj_0) is Some) ==> {
                let s = heap_string(before.heap, a->Obj_0)->Some_0;
                let t = heap_string(before.heap, b->Obj_0)->Some_0;
                &&& after.stack@.last() == Value::Bool(if less { crate::text::chars_lt(s, t) } else { crate::text::chars_lt(t, s) })
                &&& (s.len() < t.len() && t.subrange(0, s.len() as int) == s) ==> after.stack@.last() == Value::Bool(less)
            }
        }),
{
    let a = before.stack@[before.stack@.len() - 2];
    let b = before.stack@.last();
    if a is Obj && b is Obj && heap_string(before.heap, a->Obj_0) is Some && heap_string(before.heap, b->Obj_0) is Some {
        let s = heap_string(before.heap, a->Obj_0)->Some_0;
        let t = heap_string(before.heap, b->Obj_0)->Some_0;
        if s.len() < t.len() && t.subrange(0, s.len() as int) == s {
            let rest = t.subrange(s.len() as int, t.len() as int);
            assert(t =~= s + rest);
            crate::text::law_chars_lt_lexicographic(s, rest, 'a', 'a', s, s);
        }
    }
}

} // verus!

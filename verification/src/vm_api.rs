use vstd::prelude::*;
use std::sync::Arc;
use crate::value::{ActorId, ObjHandle, Value, PulseError, PulseResult, text};
use crate::bytecode::{Chunk, Constant, Function, share_chunk};
use crate::object::{Object, Closure, NativeFn, obj_wf};
use crate::namemap::NameMap;
use crate::heap::{Heap, reachable_set};
use crate::debug::DebugContext;
use crate::vm::{VM, CallFrame, value_handles, map_vals, frame_closures, handle_vals, env_eq};
use crate::vm_calls::call_frame;

verus! {

broadcast use vstd::std_specs::vec::group_vec_axioms;

/// The natives every VM starts with, by name, and whether each is
/// asynchronous.
pub open spec fn native_names() -> Seq<Seq<char>> {
    seq![
        "clock"@, "println"@, "gc"@, "len"@, "push"@, "pop"@,
        "read_file"@, "write_file"@, "file_exists"@, "delete_file"@, "json_parse"@, "json_stringify"@,
        "random"@, "random_int"@, "sleep"@, "type_of"@, "to_string"@, "to_int"@, "abs"@, "string_to_list"@,
        "tcp_connect"@, "tcp_listen"@, "http_get"@, "http_post"@, "socket_create"@, "dns_resolve"@,
        "regex_compile"@, "regex_match"@, "regex_find_all"@, "regex_replace"@,
        "split_string"@, "join_strings"@, "starts_with"@, "ends_with"@, "trim_string"@, "string_length"@,
        "substring"@, "string_contains"@, "string_replace"@, "string_uppercase"@, "string_lowercase"@,
        "assert"@, "assert_eq"@, "assert_ne"@, "fail"@,
        "create_set"@, "add_to_set"@, "remove_from_set"@, "contains_in_set"@,
        "create_queue"@, "enqueue"@, "dequeue"@, "peek_queue"@,
        "map_list"@, "filter_list"@, "reduce_list"@,
        "sin"@, "cos"@, "tan"@, "pow"@, "sqrt"@, "log"@, "log10"@, "floor"@, "ceil"@, "round"@,
        "deep_copy"@
    ]
}

/// Whether each native of `native_names` suspends the actor while it runs,
/// position by position.
pub open spec fn native_async_flags() -> Seq<bool> {
    seq![
        false, false, false, false, false, false,
        false, false, false, false, false, false,
        false, false, true, false, false, false, false, false,
        true, true, true, true, true, true,
        false, false, false, false,
        false, false, false, false, false, false,
        false, false, false, false, false,
        false, false, false, false,
        false, false, false, false,
        false, false, false, false,
        false, false, false,
        false, false, false, false, false, false, false, false, false, false,
        false
    ]
}

/// Whether the native `name` is asynchronous, as the last of the first `n`
/// entries of the table that names it says (false where none does).
pub open spec fn native_is_async(n: nat, name: Seq<char>) -> bool
    decreases n,
{
    if n == 0 {
        false
    } else if native_names()[n - 1] == name {
        native_async_flags()[n - 1]
    } else {
        native_is_async((n - 1) as nat, name)
    }
}

/// `vm`'s builtin `name` is a native function object of that name, with the
/// asynchrony `is_async`, and it is not in the heap `before`.
pub open spec fn native_defined(vm: VM, before: Map<int, Object>, name: Seq<char>, is_async: bool) -> bool {
    &&& vm.builtins@.dom().contains(name)
    &&& vm.builtins@[name] matches Value::Obj(h)
    &&& !before.dom().contains(h.0 as int)
    &&& vm.heap.live().dom().contains(h.0 as int)
    &&& vm.heap.live()[h.0 as int] matches Object::NativeFn(nf)
    &&& nf.name@ == name
    &&& nf.is_async == is_async
}

/// `after` is `before` with one more native function object, named `name`
/// and with the asynchrony `is_async`, bound to `name` in the builtins; the
/// heap's byte count grows by that object's size and its threshold stays.
pub open spec fn defines_native(after: VM, before: VM, name: Seq<char>, is_async: bool) -> bool {
    let h = after.builtins@[name]->Obj_0.0 as int;
    &&& native_defined(after, before.heap.live(), name, is_async)
    &&& after.builtins@ == before.builtins@.insert(name, after.builtins@[name])
    &&& after.heap.live() == before.heap.live().insert(h, after.heap.live()[h])
    &&& after.heap.bytes() == bytes_after(before.heap.bytes(), 16)
    &&& after.heap.gc_threshold() == before.heap.gc_threshold()
}

/// The table of natives: each name with its asynchrony.
fn native_table() -> (r: Vec<(&'static str, bool)>)
    ensures
        r@.len() == native_names().len(),
        forall|i: int| 0 <= i < r@.len() ==> (#[trigger] r@[i]).0@ == native_names()[i] && r@[i].1 == native_async_flags()[i],
{
    let r = vec![
        ("clock", false), ("println", false), ("gc", false), ("len", false), ("push", false), ("pop", false),
        ("read_file", false), ("write_file", false), ("file_exists", false), ("delete_file", false), ("json_parse", false), ("json_stringify", false),
        ("random", false), ("random_int", false), ("sleep", true), ("type_of", false), ("to_string", false), ("to_int", false), ("abs", false), ("string_to_list", false),
        ("tcp_connect", true), ("tcp_listen", true), ("http_get", true), ("http_post", true), ("socket_create", true), ("dns_resolve", true),
        ("regex_compile", false), ("regex_match", false), ("regex_find_all", false), ("regex_replace", false),
        ("split_string", false), ("join_strings", false), ("starts_with", false), ("ends_with", false), ("trim_string", false), ("string_length", false),
        ("substring", false), ("string_contains", false), ("string_replace", false), ("string_uppercase", false), ("string_lowercase", false),
        ("assert", false), ("assert_eq", false), ("assert_ne", false), ("fail", false),
        ("create_set", false), ("add_to_set", false), ("remove_from_set", false), ("contains_in_set", false),
        ("create_queue", false), ("enqueue", false), ("dequeue", false), ("peek_queue", false),
        ("map_list", false), ("filter_list", false), ("reduce_list", false),
        ("sin", false), ("cos", false), ("tan", false), ("pow", false), ("sqrt", false), ("log", false), ("log10", false), ("floor", false), ("ceil", false), ("round", false),
        ("deep_copy", false)
    ];
    assert(r@.map_values(|p: (&'static str, bool)| p.0@) =~= native_names());
    assert(r@.map_values(|p: (&'static str, bool)| p.1) =~= native_async_flags());
    assert forall|i: int| 0 <= i < r@.len() implies (#[trigger] r@[i]).0@ == native_names()[i] && r@[i].1 == native_async_flags()[i] by {
        assert(r@.map_values(|p: (&'static str, bool)| p.0@)[i] == r@[i].0@);
        assert(r@.map_values(|p: (&'static str, bool)| p.1)[i] == r@[i].1);
    }
    r
}

/// The values the full collection starts from: those of `collect_garbage`,
/// and the globals saved by module frames, the loaded modules and the
/// global cache.
pub open spec fn full_root_values(vm: VM) -> Seq<Value> {
    vm.root_values() + saved_globals(vm.frames@) + crate::vm::module_vals(vm.loaded_modules) + map_vals(vm.global_cache)
}

/// The values of the globals that module frames will put back.
pub open spec fn saved_globals(frames: Seq<CallFrame>) -> Seq<Value>
    decreases frames.len(),
{
    if frames.len() == 0 {
        Seq::empty()
    } else {
        saved_globals(frames.drop_last()) + match frames.last().prev_globals {
            Some(g) => map_vals(g),
            None => Seq::empty(),
        }
    }
}

/// The byte count after allocating `size` more bytes, saturating.
pub open spec fn bytes_after(bytes: usize, size: usize) -> usize {
    if bytes + size <= usize::MAX { (bytes + size) as usize } else { usize::MAX }
}

/// The collection threshold after a full collection: twice the bytes still
/// allocated, at least one mebibyte.
pub open spec fn next_threshold(bytes: usize) -> usize {
    let twice = if 2 * bytes <= usize::MAX { (2 * bytes) as usize } else { usize::MAX };
    if twice > 1048576 { twice } else { 1048576 }
}

impl VM {
    /// A VM for the top-level script `chunk`: its closure runs in the only
    /// frame and sits in stack slot 0, and the natives are defined.
    pub fn new(chunk: Chunk, pid: ActorId) -> (vm: VM)
        ensures
            vm.wf(),
            vm.pid == pid,
            vm.frames@.len() == 1,
            vm.frames@[0] == call_frame(vm.frames@[0].closure, 0),
            vm.closure_at(vm.frames@[0].closure) matches Some(c) && c.function.name@ == "script"@
                && *c.function.chunk == chunk && c.function.arity == 0 && c.function.upvalue_count == 0
                && c.function.source_path is None && c.upvalues@.len() == 0,
            vm.stack@ == seq![Value::Obj(vm.frames@[0].closure)],
            vm.globals@ == Map::<Seq<char>, Value>::empty(),
            forall|i: int| 0 <= i < native_names().len() ==> native_defined(vm, Map::empty(),
                #[trigger] native_names()[i], native_is_async(native_names().len(), native_names()[i])),
            vm.builtins@.dom() == native_names().to_set(),
            vm.heap.bytes() == 96 + 16 * native_names().len(),
            vm.heap.gc_threshold() == 1024 * 1024,
            forall|x: int| #[trigger] vm.heap.live().dom().contains(x) ==> crate::object::child_values(vm.heap.live()[x]).len() == 0,
            vm.exception_frames@.len() == 0,
            vm.open_upvalues@.len() == 0,
            (vm.debug_ctx is None),
    {
        Self::start(Arc::new(chunk), pid, 0, text("script"))
    }

    /// A VM for a spawned actor: it runs the same code from `start_ip`.
    pub fn new_spawn(chunk: Arc<Chunk>, pid: ActorId, start_ip: usize) -> (vm: VM)
        ensures
            vm.wf(),
            vm.pid == pid,
            vm.frames@.len() == 1,
            vm.frames@[0].ip == start_ip,
            vm.frames@[0].stack_start == 0,
            !vm.frames@[0].is_module,
            vm.closure_at(vm.frames@[0].closure) matches Some(c) && c.function.name@ == "spawned"@
                && c.function.chunk == chunk && c.function.arity == 0,
            vm.stack@ == seq![Value::Obj(vm.frames@[0].closure)],
            vm.globals@ == Map::<Seq<char>, Value>::empty(),
            forall|i: int| 0 <= i < native_names().len() ==> native_defined(vm, Map::empty(),
                #[trigger] native_names()[i], native_is_async(native_names().len(), native_names()[i])),
            vm.builtins@.dom() == native_names().to_set(),
            vm.heap.bytes() == 96 + 16 * native_names().len(),
            vm.heap.gc_threshold() == 1024 * 1024,
            forall|x: int| #[trigger] vm.heap.live().dom().contains(x) ==> crate::object::child_values(vm.heap.live()[x]).len() == 0,
            (vm.debug_ctx is None),
    {
        Self::start(chunk, pid, start_ip, text("spawned"))
    }

    fn start(chunk: Arc<Chunk>, pid: ActorId, ip: usize, name: String) -> (vm: VM)
        ensures
            vm.wf(),
            vm.pid == pid,
            vm.frames@.len() == 1,
            vm.frames@[0] == (CallFrame { closure: vm.frames@[0].closure, ip, stack_start: 0, is_module: false, source_path: None, prev_globals: None }),
            vm.closure_at(vm.frames@[0].closure) matches Some(c) && c.function.name@ == name@
                && c.function.chunk == chunk && c.function.arity == 0 && c.function.upvalue_count == 0
                && c.function.source_path is None && c.upvalues@.len() == 0,
            vm.stack@ == seq![Value::Obj(vm.frames@[0].closure)],
            vm.globals@ == Map::<Seq<char>, Value>::empty(),
            forall|i: int| 0 <= i < native_names().len() ==> native_defined(vm, Map::empty(),
                #[trigger] native_names()[i], native_is_async(native_names().len(), native_names()[i])),
            vm.builtins@.dom() == native_names().to_set(),
            vm.heap.bytes() == 96 + 16 * native_names().len(),
            vm.heap.gc_threshold() == 1024 * 1024,
            forall|x: int| #[trigger] vm.heap.live().dom().contains(x) ==> crate::object::child_values(vm.heap.live()[x]).len() == 0,
            vm.exception_frames@.len() == 0,
            vm.open_upvalues@.len() == 0,
            (vm.debug_ctx is None),
    {
        let mut heap = Heap::new();
        let f = Function { arity: 0, chunk, name, upvalue_count: 0, source_path: None };
        let _ = heap.allocate(Object::Function(f.copy()));
        let ch = heap.allocate(Object::Closure(Closure { function: f, upvalues: Vec::new() }));
        let frame = CallFrame { closure: ch, ip, stack_start: 0, is_module: false, source_path: None, prev_globals: None };
        let mut frames: Vec<CallFrame> = Vec::new();
        frames.push(frame);
        let mut vm = VM {
            pid,
            stack: Vec::new(),
            frames,
            globals: NameMap::new(),
            builtins: NameMap::new(),
            global_cache: NameMap::new(),
            heap,
            open_upvalues: Vec::new(),
            loaded_modules: NameMap::new(),
            exception_frames: Vec::new(),
            debug_ctx: None,
        };
        vm.stack.push(Value::Obj(ch));
        proof {
            assert(vm.stack@ =~= seq![Value::Obj(ch)]);
        }
        let ghost h1 = vm.heap.live();
        proof {
            assert(vm.builtins@.dom() =~= Set::<Seq<char>>::empty());
        }
        vm.register_all_natives();
        proof {
            assert(vm.builtins@.dom() =~= native_names().to_set());
            assert forall|x: int| #[trigger] vm.heap.live().dom().contains(x) implies crate::object::child_values(vm.heap.live()[x]).len() == 0 by {
                if h1.dom().contains(x) {
                    assert(vm.heap.live()[x] == h1[x]);
                    assert(crate::object::handle_values(Seq::<ObjHandle>::empty()) =~= Seq::<Value>::empty());
                }
            }
            assert(h1.dom().contains(ch.0 as int));
            assert(vm.heap.live().dom().contains(ch.0 as int));
            assert(vm.heap.live()[ch.0 as int] == h1[ch.0 as int]);
        }
        vm
    }

    /// Defines a native function under `name` in the builtins.
    pub fn define_native(&mut self, name: &str)
        requires
            old(self).wf(),
        ensures
            final(self).wf(),
            final(self).stack == old(self).stack,
            final(self).frames == old(self).frames,
            final(self).globals == old(self).globals,
            final(self).pid == old(self).pid,
            final(self).debug_ctx == old(self).debug_ctx,
            final(self).open_upvalues == old(self).open_upvalues,
            final(self).exception_frames == old(self).exception_frames,
            defines_native(*final(self), *old(self), name@, false),
    {
        self.define(name, false);
    }

    /// Defines an asynchronous native function under `name`.
    pub fn define_native_async(&mut self, name: &str)
        requires
            old(self).wf(),
        ensures
            final(self).wf(),
            final(self).stack == old(self).stack,
            final(self).frames == old(self).frames,
            final(self).globals == old(self).globals,
            final(self).pid == old(self).pid,
            final(self).debug_ctx == old(self).debug_ctx,
            final(self).open_upvalues == old(self).open_upvalues,
            final(self).exception_frames == old(self).exception_frames,
            defines_native(*final(self), *old(self), name@, true),
    {
        self.define(name, true);
    }

    fn define(&mut self, name: &str, is_async: bool)
        requires
            old(self).wf(),
        ensures
            final(self).wf(),
            final(self).stack == old(self).stack,
            final(self).frames == old(self).frames,
            final(self).globals == old(self).globals,
            final(self).pid == old(self).pid,
            final(self).debug_ctx == old(self).debug_ctx,
            final(self).open_upvalues == old(self).open_upvalues,
            final(self).exception_frames == old(self).exception_frames,
            final(self).loaded_modules == old(self).loaded_modules,
            defines_native(*final(self), *old(self), name@, is_async),
    {
        let h = self.heap.allocate(Object::NativeFn(NativeFn { name: text(name), is_async }));
        self.builtins.insert(text(name), Value::Obj(h));
        proof {
            assert(self.builtins@.dom() =~= old(self).builtins@.dom().insert(name@));
            assert forall|i: int| 0 <= i < self.open_upvalues@.len() implies self.heap.live().dom().contains(#[trigger] self.open_upvalues@[i].0 as int) by {
                assert(old(self).heap.live().dom().contains(self.open_upvalues@[i].0 as int));
            }
        }
    }

    /// Defines every native of the table.
    pub fn register_all_natives(&mut self)
        requires
            old(self).wf(),
        ensures
            final(self).wf(),
            final(self).stack == old(self).stack,
            final(self).frames == old(self).frames,
            final(self).globals == old(self).globals,
            final(self).pid == old(self).pid,
            final(self).debug_ctx == old(self).debug_ctx,
            final(self).open_upvalues == old(self).open_upvalues,
            final(self).exception_frames == old(self).exception_frames,
            old(self).heap.live().submap_of(final(self).heap.live()),
            forall|i: int| 0 <= i < native_names().len() ==> native_defined(*final(self), old(self).heap.live(),
                #[trigger] native_names()[i], native_is_async(native_names().len(), native_names()[i])),
            forall|k: Seq<char>| #[trigger] old(self).builtins@.dom().contains(k) && !native_names().contains(k)
                ==> final(self).builtins@.dom().contains(k) && final(self).builtins@[k] == old(self).builtins@[k],
            final(self).builtins@.dom() == old(self).builtins@.dom() + native_names().to_set(),
            old(self).heap.bytes() + 16 * native_names().len() <= usize::MAX
                ==> final(self).heap.bytes() == old(self).heap.bytes() + 16 * native_names().len(),
            final(self).heap.gc_threshold() == old(self).heap.gc_threshold(),
            forall|x: int| #[trigger] final(self).heap.live().dom().contains(x) && !old(self).heap.live().dom().contains(x)
                ==> final(self).heap.live()[x] is NativeFn,
    {
        let table = native_table();
        let mut i: usize = 0;
        while i < table.len()
            invariant
                self.wf(),
                i <= table@.len(),
                table@.len() == native_names().len(),
                forall|k: int| 0 <= k < table@.len() ==> (#[trigger] table@[k]).0@ == native_names()[k] && table@[k].1 == native_async_flags()[k],
                self.stack == old(self).stack,
                self.frames == old(self).frames,
                self.globals == old(self).globals,
                self.pid == old(self).pid,
                self.debug_ctx == old(self).debug_ctx,
                self.open_upvalues == old(self).open_upvalues,
                self.exception_frames == old(self).exception_frames,
                old(self).heap.live().submap_of(self.heap.live()),
                forall|k: int| 0 <= k < i ==> native_defined(*self, old(self).heap.live(),
                    #[trigger] native_names()[k], native_is_async(i as nat, native_names()[k])),
                forall|k: Seq<char>| #[trigger] old(self).builtins@.dom().contains(k) && !native_names().take(i as int).contains(k)
                    ==> self.builtins@.dom().contains(k) && self.builtins@[k] == old(self).builtins@[k],
                self.builtins@.dom() == old(self).builtins@.dom() + native_names().take(i as int).to_set(),
                old(self).heap.bytes() + 16 * native_names().len() <= usize::MAX
                    ==> self.heap.bytes() == old(self).heap.bytes() + 16 * i,
                self.heap.gc_threshold() == old(self).heap.gc_threshold(),
                forall|x: int| #[trigger] self.heap.live().dom().contains(x) && !old(self).heap.live().dom().contains(x)
                    ==> self.heap.live()[x] is NativeFn,
            decreases table@.len() - i,
        {
            let (name, is_async) = table[i];
            let ghost before = *self;
            self.define(name, is_async);
            proof {
                let names = native_names();
                assert forall|x: int| #[trigger] self.heap.live().dom().contains(x) && !old(self).heap.live().dom().contains(x)
                    implies self.heap.live()[x] is NativeFn by {
                    if before.heap.live().dom().contains(x) {
                        assert(self.heap.live()[x] == before.heap.live()[x]);
                    }
                }
                assert forall|k: int| #[trigger] old(self).heap.live().dom().contains(k) implies self.heap.live().dom().contains(k)
                    && old(self).heap.live()[k] == self.heap.live()[k] by {
                    assert(before.heap.live().dom().contains(k));
                }
                assert(names.take(i + 1) =~= names.take(i as int).push(names[i as int]));
                assert(names.take(i + 1).to_set() =~= names.take(i as int).to_set().insert(names[i as int])) by {
                    broadcast use vstd::seq_lib::group_seq_properties;
                }
                assert(self.builtins@.dom() =~= old(self).builtins@.dom() + names.take(i + 1).to_set());
                assert forall|k: int| 0 <= k < i + 1 implies native_defined(*self, old(self).heap.live(),
                    #[trigger] names[k], native_is_async((i + 1) as nat, names[k])) by {
                    if names[k] != names[i as int] {
                        assert(native_defined(before, old(self).heap.live(), names[k], native_is_async(i as nat, names[k])));
                        let h = self.builtins@[names[k]]->Obj_0.0 as int;
                        assert(before.heap.live().dom().contains(h));
                    }
                }
                assert forall|k: Seq<char>| #[trigger] old(self).builtins@.dom().contains(k) && !names.take(i + 1).contains(k)
                    implies self.builtins@.dom().contains(k) && self.builtins@[k] == old(self).builtins@[k] by {
                    assert(names.take(i + 1)[i as int] == names[i as int]);
                    if !names.take(i as int).contains(k) {
                    } else {
                        let j = choose|j: int| 0 <= j < i && names.take(i as int)[j] == k;
                        assert(names.take(i + 1)[j] == k);
                    }
                }
            }
            i = i + 1;
        }
        proof {
            assert(native_names().take(i as int) =~= native_names());
        }
    }

    /// The chunk the innermost frame runs.
    pub fn get_current_chunk(&self) -> (r: PulseResult<Arc<Chunk>>)
        requires
            self.wf(),
        ensures
            match r {
                Ok(c) => self.frame_chunk() == Some(*c),
                Err(_) => self.frame_chunk() is None,
            },
    {
        self.current_chunk()
    }

    /// Constant `idx` of the chunk the innermost frame runs.
    pub fn get_current_chunk_const(&self, idx: usize) -> (r: PulseResult<Constant>)
        requires
            self.wf(),
        ensures
            match r {
                Ok(c) => self.frame_chunk() matches Some(ch) && idx < ch.constants@.len() && c == ch.constants@[idx as int],
                Err(_) => !(self.frame_chunk() matches Some(ch) && idx < ch.constants@.len()),
            },
    {
        let chunk = self.current_chunk()?;
        if idx >= chunk.constants.len() {
            return Err(PulseError::RuntimeError(text("Constant index out of bounds")));
        }
        Ok(chunk.constants[idx].copy())
    }

    /// The instruction pointer and stack start of the innermost frame.
    pub fn get_frame_info(&self) -> (r: Option<(usize, usize)>)
        ensures
            self.frames@.len() == 0 ==> r is None,
            self.frames@.len() > 0 ==> r == Some((self.frames@.last().ip, self.frames@.last().stack_start)),
    {
        if self.frames.len() == 0 {
            None
        } else {
            let f = &self.frames[self.frames.len() - 1];
            Some((f.ip, f.stack_start))
        }
    }

    /// Turns the debugger on, with no breakpoints, unless it is on.
    pub fn enable_debug(&mut self)
        requires
            old(self).wf(),
        ensures
            final(self).wf(),
            env_eq(*final(self), *old(self)),
            final(self).stack == old(self).stack,
            final(self).heap == old(self).heap,
            old(self).debug_ctx is Some ==> final(self).debug_ctx == old(self).debug_ctx,
            old(self).debug_ctx is None ==> (final(self).debug_ctx matches Some(d)
                && d.breakpoints@.len() == 0 && d.mode == crate::debug::StepMode::Continue && d.paused_at is None),
    {
        if self.debug_ctx.is_none() {
            self.debug_ctx = Some(DebugContext::new());
        }
    }

    /// Sets a breakpoint at a source line, turning the debugger on.
    pub fn set_breakpoint(&mut self, line: usize)
        requires
            old(self).wf(),
        ensures
            final(self).wf(),
            env_eq(*final(self), *old(self)),
            final(self).stack == old(self).stack,
            final(self).heap == old(self).heap,
            final(self).debug_ctx matches Some(d) && d.breakpoints@.contains(line),
            final(self).debug_ctx matches Some(d) && forall|x: usize| #[trigger] d.breakpoints@.contains(x) ==> x == line
                || (old(self).debug_ctx matches Some(d0) && d0.breakpoints@.contains(x)),
    {
        self.enable_debug();
        let mut ctx = self.debug_ctx.take().unwrap();
        ctx.set_breakpoint_line(line);
        self.debug_ctx = Some(ctx);
    }

    /// Removes the breakpoint at a source line.
    pub fn remove_breakpoint(&mut self, line: usize)
        requires
            old(self).wf(),
        ensures
            final(self).wf(),
            env_eq(*final(self), *old(self)),
            final(self).stack == old(self).stack,
            final(self).heap == old(self).heap,
            old(self).debug_ctx is None ==> final(self).debug_ctx is None,
            old(self).debug_ctx matches Some(d0) ==> (final(self).debug_ctx matches Some(d)
                && forall|x: usize| #[trigger] d.breakpoints@.contains(x) <==> d0.breakpoints@.contains(x) && x != line),
    {
        match self.debug_ctx.take() {
            Some(mut ctx) => {
                ctx.remove_breakpoint_line(line);
                self.debug_ctx = Some(ctx);
            },
            None => {},
        }
    }

    /// Lets a paused VM run on to the next breakpoint.
    pub fn debug_continue(&mut self)
        requires
            old(self).wf(),
        ensures
            final(self).wf(),
            env_eq(*final(self), *old(self)),
            final(self).stack == old(self).stack,
            final(self).heap == old(self).heap,
            old(self).debug_ctx is None ==> final(self).debug_ctx is None,
            old(self).debug_ctx matches Some(d0) ==> (final(self).debug_ctx matches Some(d)
                && d.mode == crate::debug::StepMode::Continue && d.breakpoints@ == d0.breakpoints@ && d.paused_at == d0.paused_at),
    {
        match self.debug_ctx.take() {
            Some(mut ctx) => {
                ctx.resume();
                self.debug_ctx = Some(ctx);
            },
            None => {},
        }
    }

    /// Makes a paused VM stop again before its next instruction.
    pub fn debug_step(&mut self)
        requires
            old(self).wf(),
        ensures
            final(self).wf(),
            env_eq(*final(self), *old(self)),
            final(self).stack == old(self).stack,
            final(self).heap == old(self).heap,
            old(self).debug_ctx is None ==> final(self).debug_ctx is None,
            old(self).debug_ctx matches Some(d0) ==> (final(self).debug_ctx matches Some(d)
                && d.mode == crate::debug::StepMode::StepIn && d.breakpoints@ == d0.breakpoints@ && d.paused_at == d0.paused_at),
    {
        match self.debug_ctx.take() {
            Some(mut ctx) => {
                ctx.step_in();
                self.debug_ctx = Some(ctx);
            },
            None => {},
        }
    }

    /// The breakpoints as decimal line numbers; none without the debugger.
    pub fn list_breakpoints(&self) -> (r: Vec<String>)
        ensures
            self.debug_ctx is None ==> r@.len() == 0,
            self.debug_ctx matches Some(d) ==> r@.len() == d.breakpoints@.len()
                && forall|i: int| 0 <= i < r@.len() ==> (#[trigger] r@[i])@ == crate::text::nat_digits(d.breakpoints@[i] as nat),
    {
        match &self.debug_ctx {
            Some(ctx) => ctx.list_breakpoints(),
            None => Vec::new(),
        }
    }
}

impl VM {
    /// The values of `full_root_values`, in that order.
    fn full_root_list(&self) -> (r: Vec<Value>)
        ensures
            r@ == full_root_values(*self),
    {
        let mut r = self.root_value_list();
        let mut i: usize = 0;
        let ghost base = r@;
        while i < self.frames.len()
            invariant
                i <= self.frames@.len(),
                r@ == base + saved_globals(self.frames@.take(i as int)),
            decreases self.frames@.len() - i,
        {
            proof {
                assert(self.frames@.take(i + 1).drop_last() =~= self.frames@.take(i as int));
            }
            match &self.frames[i].prev_globals {
                Some(g) => {
                    let mut vals = crate::object::entry_values_of(g);
                    r.append(&mut vals);
                },
                None => {},
            }
            i = i + 1;
            proof {
                assert(r@ =~= base + saved_globals(self.frames@.take(i as int)));
            }
        }
        proof {
            assert(self.frames@.take(i as int) =~= self.frames@);
        }
        let ghost base2 = r@;
        let mut j: usize = 0;
        while j < self.loaded_modules.entries.len()
            invariant
                j <= self.loaded_modules.entries@.len(),
                r@ == base2 + self.loaded_modules.entries@.take(j as int).map_values(|e: (String, ObjHandle)| Value::Obj(e.1)),
            decreases self.loaded_modules.entries@.len() - j,
        {
            r.push(Value::Obj(self.loaded_modules.entries[j].1));
            j = j + 1;
            proof {
                assert(self.loaded_modules.entries@.take(j as int).map_values(|e: (String, ObjHandle)| Value::Obj(e.1))
                    =~= self.loaded_modules.entries@.take(j - 1).map_values(|e: (String, ObjHandle)| Value::Obj(e.1)).push(Value::Obj(self.loaded_modules.entries@[j - 1].1)));
            }
        }
        proof {
            assert(self.loaded_modules.entries@.take(j as int) =~= self.loaded_modules.entries@);
        }
        let mut c = crate::object::entry_values_of(&self.global_cache);
        r.append(&mut c);
        proof {
            assert(r@ =~= full_root_values(*self));
        }
        r
    }

    /// Collects garbage from every root: those of `collect_garbage`, the
    /// globals saved by module frames, the loaded modules and the global
    /// cache. The next collection is due at twice the bytes left, and at
    /// least at one mebibyte.
    pub fn collect_garbage_full(&mut self)
        requires
            old(self).wf(),
        ensures
            final(self).wf(),
            final(self).heap.live() == old(self).heap.live().restrict(reachable_set(old(self).heap.live(), value_handles(full_root_values(*old(self))))),
            final(self).heap.gc_threshold() == next_threshold(final(self).heap.bytes()),
            final(self).stack == old(self).stack,
            final(self).frames == old(self).frames,
            final(self).globals == old(self).globals,
            final(self).builtins == old(self).builtins,
            final(self).global_cache == old(self).global_cache,
            final(self).open_upvalues == old(self).open_upvalues,
            final(self).loaded_modules == old(self).loaded_modules,
            final(self).exception_frames == old(self).exception_frames,
            final(self).pid == old(self).pid,
    {
        let roots = self.full_root_list();
        proof {
            assert forall|i: int| 0 <= i < self.open_upvalues@.len() implies value_handles(roots@).contains(#[trigger] self.open_upvalues@[i].0 as int) by {
                let k = self.stack@.len() + map_vals(self.globals).len() + map_vals(self.builtins).len()
                    + frame_closures(self.frames@).len() + i;
                assert(roots@[k] == Value::Obj(self.open_upvalues@[i]));
            }
        }
        self.collect_from(&roots);
        let (allocated, _) = self.heap.get_allocation_stats();
        let twice = crate::object::sat_mul(allocated, 2);
        let next = if twice > 1048576 { twice } else { 1048576 };
        self.heap.set_next_gc(next);
    }

    /// Allocates an object and then, when the bytes allocated exceed the
    /// threshold, collects garbage from the roots of `collect_garbage`: the
    /// new object survives only if those roots reach it.
    pub fn alloc_object(&mut self, object: Object) -> (h: ObjHandle)
        requires
            old(self).wf(),
            obj_wf(object),
        ensures
            final(self).wf(),
            !old(self).heap.live().dom().contains(h.0 as int),
            ({
                let grown = old(self).heap.live().insert(h.0 as int, object);
                final(self).heap.live() == grown
                    || final(self).heap.live() == grown.restrict(reachable_set(grown, old(self).roots()))
            }),
            final(self).heap.live() == old(self).heap.live().insert(h.0 as int, object) <==
                bytes_after(old(self).heap.bytes(), crate::object::size_estimate(object, 16)) <= old(self).heap.gc_threshold(),
            bytes_after(old(self).heap.bytes(), crate::object::size_estimate(object, 16)) <= old(self).heap.gc_threshold()
                ==> final(self).heap.bytes() == bytes_after(old(self).heap.bytes(), crate::object::size_estimate(object, 16)),
            final(self).heap.gc_threshold() == old(self).heap.gc_threshold(),
            final(self).stack == old(self).stack,
            final(self).frames == old(self).frames,
            final(self).globals == old(self).globals,
            final(self).builtins == old(self).builtins,
            final(self).open_upvalues == old(self).open_upvalues,
            final(self).pid == old(self).pid,
    {
        let h = self.heap.allocate(object);
        let (bytes, next_gc) = self.heap.get_allocation_stats();
        if bytes > next_gc {
            self.collect_garbage();
        }
        h
    }
}

/// `gc()`: collects garbage from every root of the VM (see
/// `VM::collect_garbage_full`) and gives unit; the arguments are ignored.
pub fn gc_native(vm: &mut VM, args: &[Value]) -> (r: PulseResult<Value>)
    requires
        old(vm).wf(),
    ensures
        r == Ok::<Value, PulseError>(Value::Unit),
        final(vm).wf(),
        final(vm).heap.live() == old(vm).heap.live().restrict(reachable_set(old(vm).heap.live(), value_handles(full_root_values(*old(vm))))),
        final(vm).stack == old(vm).stack,
        final(vm).globals == old(vm).globals,
{
    vm.collect_garbage_full();
    Ok(Value::Unit)
}

} // verus!

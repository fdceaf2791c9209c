//! Process natives: what they decide on values. Starting, waiting for and
//! killing processes and reading the environment are the host's work; it
//! acts on the requests checked here and hands what it read to the functions
//! that build the results.

use vstd::prelude::*;
use crate::value::{Value, PulseError, PulseResult, text};
use crate::object::Object;
use crate::heap::Heap;
use crate::namemap::{NameMap, seq_keys_distinct};
use crate::utils::{ready, added, grows, bool_text, list_of, new_list};
use crate::collections::map_of;
use crate::vm::heap_string;
use crate::text::{int_text, i64_to_string};
use crate::uuid::{fresh_string, new_text};
use crate::string_utils::{str_arg, alloc_strings, new_string_list};
use crate::text::chars_of;

verus! {

broadcast use vstd::std_specs::vec::group_vec_axioms;

/// The result is a new map object holding the entries `es`, in this order,
/// the only change to the heap.
pub open spec fn new_map(h0: Heap, h1: Heap, r: PulseResult<Value>, es: Seq<(Seq<char>, Value)>) -> bool {
    &&& r matches Ok(Value::Obj(x))
    &&& h1.live().dom().contains(x.0 as int)
    &&& h1.live()[x.0 as int] matches Object::Dict(m)
    &&& m.entries@.map_values(|e: (String, Value)| (e.0@, e.1)) == es
    &&& added(h0, h1, x, h1.live()[x.0 as int])
}

/// Allocates a map object holding `es`.
fn alloc_map(heap: &mut Heap, es: Vec<(String, Value)>) -> (r: PulseResult<Value>)
    requires
        ready(*old(heap)),
        seq_keys_distinct(es@),
    ensures
        ready(*final(heap)),
        new_map(*old(heap), *final(heap), r, es@.map_values(|e: (String, Value)| (e.0@, e.1))),
{
    let m = NameMap { entries: es };
    let x = heap.allocate(Object::Dict(m));
    Ok(Value::Obj(x))
}

/// `wait(pid)`, what comes before the wait: the process id.
pub fn wait_target(args: &[Value]) -> (r: PulseResult<i64>)
    ensures
        args@.len() != 1 ==> crate::value::is_runtime_error(r),
        args@.len() == 1 ==> match args@[0] {
            Value::Int(i) => r == Ok::<i64, PulseError>(i),
            _ => crate::value::is_type_mismatch(r),
        },
{
    if args.len() != 1 {
        return Err(PulseError::RuntimeError(text("wait expects 1 argument")));
    }
    args[0].as_int()
}

/// The exit code as a value: the integer, or unit where the process was
/// ended by a signal and has none.
pub open spec fn exit_value(code: Option<i32>) -> Value {
    match code {
        Some(c) => Value::Int(c as i64),
        None => Value::Unit,
    }
}

/// What `wait` gives once the process has ended with `code`: a new map
/// with the exit code and whether it is 0.
pub fn waited_process(heap: &mut Heap, code: Option<i32>) -> (r: PulseResult<Value>)
    requires
        ready(*old(heap)),
    ensures
        ready(*final(heap)),
        new_map(*old(heap), *final(heap), r,
            seq![("exit_code"@, exit_value(code)), ("success"@, Value::Bool(code == Some(0i32)))]),
{
    proof {
        reveal_strlit("exit_code");
        reveal_strlit("success");
    }
    let v = match code {
        Some(c) => Value::Int(c as i64),
        None => Value::Unit,
    };
    let ok = match code {
        Some(c) => c == 0,
        None => false,
    };
    let es = vec![(text("exit_code"), v), (text("success"), Value::Bool(ok))];
    assert(es@[0].0@.len() != es@[1].0@.len());
    assert(es@.map_values(|e: (String, Value)| (e.0@, e.1)) =~= seq![("exit_code"@, exit_value(code)), ("success"@, Value::Bool(code == Some(0i32)))]);
    alloc_map(heap, es)
}

/// The value under `key` in the map `v` refers to; a type mismatch when `v`
/// is no map.
fn map_field(heap: &Heap, v: Value, key: &str) -> (r: PulseResult<Option<Value>>)
    requires
        heap.wf(),
    ensures
        match map_of(*heap, v) {
            Some(m) => r matches Ok(o) && (if m@.dom().contains(key@) { o == Some(m@[key@]) } else { o is None }),
            None => crate::value::is_type_mismatch(r),
        },
{
    proof { heap.lemma_wf(); }
    match v {
        Value::Obj(x) => match heap.get(x) {
            Some(Object::Dict(m)) => match m.get(key) {
                Some(f) => Ok(Some(*f)),
                None => Ok(None),
            },
            _ => Err(PulseError::TypeMismatch { expected: text("map"), got: text("object") }),
        },
        _ => Err(PulseError::TypeMismatch { expected: text("map"), got: v.kind_name() }),
    }
}

/// `exit_code(process)`: the integer under "exit_code" in a process map.
pub fn exit_code_native(heap: &mut Heap, args: &[Value]) -> (r: PulseResult<Value>)
    requires
        ready(*old(heap)),
    ensures
        *final(heap) == *old(heap),
        args@.len() != 1 ==> crate::value::is_runtime_error(r),
        args@.len() == 1 ==> match map_of(*old(heap), args@[0]) {
            Some(m) => if m@.dom().contains("exit_code"@) {
                match m@["exit_code"@] {
                    Value::Int(i) => r == Ok::<Value, PulseError>(Value::Int(i)),
                    _ => crate::value::is_runtime_error(r),
                }
            } else {
                crate::value::is_runtime_error(r)
            },
            None => crate::value::is_type_mismatch(r),
        },
{
    if args.len() != 1 {
        return Err(PulseError::RuntimeError(text("exit_code expects 1 argument")));
    }
    match map_field(heap, args[0], "exit_code")? {
        Some(Value::Int(i)) => Ok(Value::Int(i)),
        Some(_) => Err(PulseError::RuntimeError(text("exit_code field is not an int"))),
        None => Err(PulseError::RuntimeError(text("Process map has no exit_code field"))),
    }
}

/// `process_running(process)`: the boolean under "running" in a process
/// map, false when there is none.
pub fn process_running_native(heap: &mut Heap, args: &[Value]) -> (r: PulseResult<Value>)
    requires
        ready(*old(heap)),
    ensures
        *final(heap) == *old(heap),
        args@.len() != 1 ==> crate::value::is_runtime_error(r),
        args@.len() == 1 ==> match map_of(*old(heap), args@[0]) {
            Some(m) => if m@.dom().contains("running"@) {
                match m@["running"@] {
                    Value::Bool(b) => r == Ok::<Value, PulseError>(Value::Bool(b)),
                    _ => crate::value::is_runtime_error(r),
                }
            } else {
                r == Ok::<Value, PulseError>(Value::Bool(false))
            },
            None => crate::value::is_type_mismatch(r),
        },
{
    if args.len() != 1 {
        return Err(PulseError::RuntimeError(text("process_running expects 1 argument")));
    }
    match map_field(heap, args[0], "running")? {
        Some(Value::Bool(b)) => Ok(Value::Bool(b)),
        Some(_) => Err(PulseError::RuntimeError(text("running field is not a bool"))),
        None => Ok(Value::Bool(false)),
    }
}

/// What the host needs to start a process.
pub struct SpawnRequest {
    pub command: String,
    pub args: Vec<String>,
    pub env: Vec<(String, String)>,
    pub dir: Option<String>,
}

/// The text a command-line argument gives: a string's text, an integer's
/// decimal, a boolean's word; no text for anything else (a float's text
/// is the host's to write).
pub open spec fn word_of(h: Heap, v: Value) -> Option<Seq<char>> {
    match v {
        Value::Int(i) => Some(int_text(i as int)),
        Value::Bool(b) => Some(bool_text(b)),
        Value::Obj(x) => heap_string(h, x),
        _ => None,
    }
}

/// The text an environment value gives: a string's text or an integer's
/// decimal; anything else is left out.
pub open spec fn env_text(h: Heap, v: Value) -> Option<Seq<char>> {
    match v {
        Value::Int(i) => Some(int_text(i as int)),
        Value::Obj(x) => heap_string(h, x),
        _ => None,
    }
}

/// The environment entries that have a text, in order.
pub open spec fn env_pairs(h: Heap, es: Seq<(String, Value)>) -> Seq<(Seq<char>, Seq<char>)>
    decreases es.len(),
{
    if es.len() == 0 {
        Seq::empty()
    } else {
        let rest = env_pairs(h, es.drop_last());
        match env_text(h, es.last().1) {
            Some(t) => rest.push((es.last().0@, t)),
            None => rest,
        }
    }
}

/// The command-line arguments `spawn_process` passes: those of the list in
/// the second argument, none when there is no list there.
pub open spec fn spawn_items(h: Heap, args: Seq<Value>) -> Seq<Value> {
    if args.len() > 1 && list_of(h, args[1]) is Some { list_of(h, args[1])->Some_0 } else { Seq::empty() }
}

/// The environment entries `spawn_process` reads: those of the map in the
/// third argument, none when there is no map there.
pub open spec fn spawn_env(h: Heap, args: Seq<Value>) -> Seq<(String, Value)> {
    if args.len() > 2 && map_of(h, args[2]) is Some { map_of(h, args[2])->Some_0.entries@ } else { Seq::empty() }
}

/// The working directory `spawn_process` asks for: the string in the fourth
/// argument, if there is one.
pub open spec fn spawn_dir(h: Heap, args: Seq<Value>) -> Option<Seq<char>> {
    if args.len() > 3 && args[3] is Obj { heap_string(h, args[3]->Obj_0) } else { None }
}

/// Word of one command-line argument.
fn word(heap: &Heap, v: Value) -> (r: PulseResult<String>)
    requires
        heap.wf(),
    ensures
        match word_of(*heap, v) {
            Some(t) => r matches Ok(s) && s@ == t,
            None => if v is Float { crate::value::is_float_host(r) } else { crate::value::is_type_mismatch(r) },
        },
{
    match v {
        Value::Int(i) => Ok(i64_to_string(i)),
        Value::Bool(b) => {
            proof {
                reveal_strlit("true");
                reveal_strlit("false");
            }
            Ok(if b { text("true") } else { text("false") })
        },
        Value::Float(_) => Err(PulseError::NeedsFloatHost),
        Value::Obj(x) => match heap.get(x) {
            Some(Object::String(s)) => Ok(s.clone()),
            _ => Err(PulseError::TypeMismatch { expected: text("string"), got: text("object") }),
        },
        _ => Err(PulseError::TypeMismatch { expected: text("string-like"), got: v.kind_name() }),
    }
}

/// `spawn_process(command, args?, env?, dir?)`, what comes before the start:
/// the command must be a string; the arguments are the words of the list
/// given second (the first item without one decides the error: a float
/// needs the host, anything else is a type mismatch); the environment the
/// texts of the map given third (a float value needs the host); the
/// directory the string given fourth. A second, third or fourth argument
/// of another kind is ignored.
pub fn spawn_request(heap: &Heap, args: &[Value]) -> (r: PulseResult<SpawnRequest>)
    requires
        heap.wf(),
    ensures
        args@.len() < 1 ==> crate::value::is_runtime_error(r),
        args@.len() >= 1 && !(args@[0] is Obj && heap_string(*heap, args@[0]->Obj_0) is Some)
            ==> crate::value::is_type_mismatch(r),
        args@.len() >= 1 && args@[0] is Obj && heap_string(*heap, args@[0]->Obj_0) is Some ==> ({
            let items = spawn_items(*heap, args@);
            let env = spawn_env(*heap, args@);
            if exists|i: int| 0 <= i < items.len() && word_of(*heap, #[trigger] items[i]) is None {
                exists|i: int| 0 <= i < items.len() && word_of(*heap, #[trigger] items[i]) is None
                    && (forall|k: int| 0 <= k < i ==> word_of(*heap, #[trigger] items[k]) is Some)
                    && if items[i] is Float { crate::value::is_float_host(r) } else { crate::value::is_type_mismatch(r) }
            } else if exists|k: int| 0 <= k < env.len() && (#[trigger] env[k]).1 is Float {
                crate::value::is_float_host(r)
            } else {
                &&& r matches Ok(q)
                &&& q.command@ == heap_string(*heap, args@[0]->Obj_0)->Some_0
                &&& q.args@.map_values(|s: String| s@) == items.map_values(|v: Value| word_of(*heap, v)->Some_0)
                &&& q.env@.map_values(|p: (String, String)| (p.0@, p.1@)) == env_pairs(*heap, env)
                &&& match spawn_dir(*heap, args@) {
                    Some(d) => q.dir matches Some(s) && s@ == d,
                    None => q.dir is None,
                }
            }
        }),
{
    if args.len() < 1 {
        return Err(PulseError::RuntimeError(text("spawn_process expects at least 1 argument")));
    }
    let command = match args[0] {
        Value::Obj(x) => match heap.get(x) {
            Some(Object::String(s)) => s.clone(),
            _ => {
                return Err(PulseError::TypeMismatch { expected: text("string"), got: text("object") });
            },
        },
        _ => {
            return Err(PulseError::TypeMismatch { expected: text("string"), got: args[0].kind_name() });
        },
    };
    let ghost items = spawn_items(*heap, args@);
    let mut words: Vec<String> = Vec::new();
    if args.len() > 1 {
        if let Value::Obj(x) = args[1] {
            if let Some(Object::List(l)) = heap.get(x) {
                let mut i: usize = 0;
                while i < l.len()
                    invariant
                        heap.wf(),
                        args@.len() > 1,
                        args@[0] is Obj && heap_string(*heap, args@[0]->Obj_0) is Some,
                        l@ == items,
                        items == spawn_items(*heap, args@),
                        i <= items.len(),
                        words@.len() == i,
                        forall|k: int| 0 <= k < i ==> word_of(*heap, #[trigger] items[k]) is Some,
                        forall|k: int| 0 <= k < i ==> (#[trigger] words@[k])@ == word_of(*heap, items[k])->Some_0,
                    decreases items.len() - i,
                {
                    let w = word(heap, l[i]);
                    match w {
                        Ok(t) => words.push(t),
                        Err(e) => {
                            assert(word_of(*heap, items[i as int]) is None);
                            return Err(e);
                        },
                    }
                    i = i + 1;
                }
                assert(words@.map_values(|s: String| s@) =~= items.map_values(|v: Value| word_of(*heap, v)->Some_0));
            }
        }
    }
    assert(words@.map_values(|s: String| s@) =~= items.map_values(|v: Value| word_of(*heap, v)->Some_0));
    let ghost env = spawn_env(*heap, args@);
    let mut pairs: Vec<(String, String)> = Vec::new();
    if args.len() > 2 {
        if let Value::Obj(x) = args[2] {
            if let Some(Object::Dict(m)) = heap.get(x) {
                let mut i: usize = 0;
                while i < m.entries.len()
                    invariant
                        heap.wf(),
                        args@.len() > 2,
                        args@[0] is Obj && heap_string(*heap, args@[0]->Obj_0) is Some,
                        forall|k: int| 0 <= k < items.len() ==> word_of(*heap, #[trigger] items[k]) is Some,
                        m.entries@ == env,
                        env == spawn_env(*heap, args@),
                        items == spawn_items(*heap, args@),
                        i <= env.len(),
                        forall|k: int| 0 <= k < i ==> !((#[trigger] env[k]).1 is Float),
                        pairs@.map_values(|p: (String, String)| (p.0@, p.1@)) == env_pairs(*heap, env.take(i as int)),
                    decreases env.len() - i,
                {
                    let ghost before = pairs@.map_values(|p: (String, String)| (p.0@, p.1@));
                    assert(env.take(i + 1).drop_last() =~= env.take(i as int));
                    match m.entries[i].1 {
                        Value::Int(n) => pairs.push((m.entries[i].0.clone(), i64_to_string(n))),
                        Value::Float(_) => {
                            assert(env[i as int].1 is Float);
                            assert(!(exists|j: int| 0 <= j < items.len() && word_of(*heap, #[trigger] items[j]) is None));
                            return Err(PulseError::NeedsFloatHost);
                        },
                        Value::Obj(y) => match heap.get(y) {
                            Some(Object::String(s)) => pairs.push((m.entries[i].0.clone(), s.clone())),
                            _ => {},
                        },
                        _ => {},
                    }
                    assert(pairs@.map_values(|p: (String, String)| (p.0@, p.1@)) =~= env_pairs(*heap, env.take(i + 1)));
                    i = i + 1;
                }
                assert(env.take(i as int) =~= env);
            }
        }
    }
    assert(env.len() == 0 ==> env.take(0) =~= env);
    let dir = if args.len() > 3 {
        match args[3] {
            Value::Obj(x) => match heap.get(x) {
                Some(Object::String(s)) => Some(s.clone()),
                _ => None,
            },
            _ => None,
        }
    } else {
        None
    };
    Ok(SpawnRequest { command, args: words, env: pairs, dir })
}

/// What `spawn_process` gives once the host has started the process `pid`:
/// a new map with the id and the running flag set.
pub fn spawned_process(heap: &mut Heap, pid: u32) -> (r: PulseResult<Value>)
    requires
        ready(*old(heap)),
    ensures
        ready(*final(heap)),
        new_map(*old(heap), *final(heap), r, seq![("pid"@, Value::Int(pid as i64)), ("running"@, Value::Bool(true))]),
{
    proof {
        reveal_strlit("pid");
        reveal_strlit("running");
    }
    let es = vec![(text("pid"), Value::Int(pid as i64)), (text("running"), Value::Bool(true))];
    assert(es@[0].0@.len() != es@[1].0@.len());
    assert(es@.map_values(|e: (String, Value)| (e.0@, e.1)) =~= seq![("pid"@, Value::Int(pid as i64)), ("running"@, Value::Bool(true))]);
    alloc_map(heap, es)
}

/// The string argument of a native that takes exactly one: a runtime error
/// for another count, a type mismatch for another kind.
fn one_string(heap: &Heap, args: &[Value], msg: &str) -> (r: PulseResult<String>)
    requires
        heap.wf(),
    ensures
        args@.len() != 1 ==> crate::value::is_runtime_error(r),
        args@.len() == 1 ==> match str_arg(*heap, args@[0]) {
            Some(t) => r matches Ok(s) && s@ == t,
            None => crate::value::is_type_mismatch(r),
        },
{
    if args.len() != 1 {
        return Err(PulseError::RuntimeError(text(msg)));
    }
    match args[0] {
        Value::Obj(x) => match heap.get(x) {
            Some(Object::String(s)) => Ok(s.clone()),
            _ => Err(PulseError::TypeMismatch { expected: text("string"), got: text("object") }),
        },
        _ => Err(PulseError::TypeMismatch { expected: text("string"), got: args[0].kind_name() }),
    }
}

/// `shell(command)`, what comes before the run: the command line.
pub fn shell_command(heap: &Heap, args: &[Value]) -> (r: PulseResult<String>)
    requires
        heap.wf(),
    ensures
        args@.len() != 1 ==> crate::value::is_runtime_error(r),
        args@.len() == 1 ==> match str_arg(*heap, args@[0]) {
            Some(t) => r matches Ok(s) && s@ == t,
            None => crate::value::is_type_mismatch(r),
        },
{
    one_string(heap, args, "shell expects 1 argument")
}

/// `String::from_utf8_lossy`: the text the bytes encode, each invalid
/// sequence replaced by U+FFFD. Of the replacement only this is stated:
/// valid UTF-8 decodes to its text.
#[verifier::external_body]
fn lossy_text(bytes: &[u8]) -> (r: String)
    ensures
        vstd::utf8::valid_utf8(bytes@) ==> r@ == vstd::utf8::decode_utf8(bytes@),
{
    String::from_utf8_lossy(bytes).into_owned()
}

/// `v` is a new string read from `bytes`: their text when they are valid
/// UTF-8.
pub open spec fn fresh_output(h0: Heap, h1: Heap, v: Value, bytes: Seq<u8>) -> bool {
    &&& v matches Value::Obj(x)
    &&& !h0.live().dom().contains(x.0 as int)
    &&& heap_string(h1, x) matches Some(t)
    &&& vstd::utf8::valid_utf8(bytes) ==> t == vstd::utf8::decode_utf8(bytes)
}

/// What `shell` gives for a finished command: a new map with its output
/// and error output as new strings, its exit code (-1 when it has none)
/// and whether it succeeded.
pub fn shell_output(heap: &mut Heap, stdout: &[u8], stderr: &[u8], code: Option<i32>, success: bool) -> (r: PulseResult<Value>)
    requires
        ready(*old(heap)),
    ensures
        ready(*final(heap)),
        grows(*old(heap), *final(heap)),
        r matches Ok(Value::Obj(x)),
        !old(heap).live().dom().contains(r->Ok_0->Obj_0.0 as int),
        final(heap).live().dom().contains(r->Ok_0->Obj_0.0 as int),
        final(heap).live()[r->Ok_0->Obj_0.0 as int] matches Object::Dict(m) && {
            let es = m.entries@;
            &&& es.len() == 4
            &&& es[0].0@ == "stdout"@ && fresh_output(*old(heap), *final(heap), es[0].1, stdout@)
            &&& es[1].0@ == "stderr"@ && fresh_output(*old(heap), *final(heap), es[1].1, stderr@)
            &&& es[2].0@ == "exit_code"@ && es[2].1 == Value::Int(match code { Some(c) => c as i64, None => -1i64 })
            &&& es[3].0@ == "success"@ && es[3].1 == Value::Bool(success)
        },
{
    proof {
        reveal_strlit("stdout");
        reveal_strlit("stderr");
        reveal_strlit("exit_code");
        reveal_strlit("success");
    }
    let ghost h0 = *heap;
    let out = new_text(heap, lossy_text(stdout));
    let ghost h1 = *heap;
    let err = new_text(heap, lossy_text(stderr));
    let ghost h2 = *heap;
    let c: i64 = match code {
        Some(c) => c as i64,
        None => -1,
    };
    let es = vec![(text("stdout"), out), (text("stderr"), err), (text("exit_code"), Value::Int(c)), (text("success"), Value::Bool(success))];
    proof {
        assert(es@[0].0@[3] != es@[1].0@[3]);
        assert(es@[0].0@.len() == 6 && es@[1].0@.len() == 6 && es@[2].0@.len() == 9 && es@[3].0@.len() == 7);
        assert forall|i: int, j: int| 0 <= i < es@.len() && 0 <= j < es@.len() && i != j
            implies (#[trigger] es@[i]).0@ != (#[trigger] es@[j]).0@ by {
            if (i == 0 && j == 1) || (i == 1 && j == 0) {
                assert(es@[i].0@[3] != es@[j].0@[3]);
            }
        }
        vstd::map_lib::lemma_submap_of_trans(h0.live(), h1.live(), h2.live());
        if h0.live().dom().contains(out->Obj_0.0 as int) {
            assert(h1.live().dom().contains(out->Obj_0.0 as int));
        }
    }
    let m = NameMap { entries: es };
    let x = heap.allocate(Object::Dict(m));
    proof {
        vstd::map_lib::lemma_submap_of_trans(h0.live(), h2.live(), heap.live());
        if h0.live().dom().contains(x.0 as int) {
            assert(h2.live().dom().contains(x.0 as int));
        }
        assert(h2.live().submap_of(heap.live()));
        vstd::map_lib::lemma_submap_of_trans(h1.live(), h2.live(), heap.live());
        assert(h1.live().dom().contains(out->Obj_0.0 as int));
        assert(h2.live().dom().contains(err->Obj_0.0 as int));
        assert(heap.live().dom().contains(out->Obj_0.0 as int));
        assert(heap.live().dom().contains(err->Obj_0.0 as int));
        assert(heap.live()[out->Obj_0.0 as int] == h1.live()[out->Obj_0.0 as int]);
        assert(heap.live()[err->Obj_0.0 as int] == h2.live()[err->Obj_0.0 as int]);
    }
    Ok(Value::Obj(x))
}

/// `get_env(name)`, what comes before the lookup: the variable's name.
pub fn env_var_name(heap: &Heap, args: &[Value]) -> (r: PulseResult<String>)
    requires
        heap.wf(),
    ensures
        args@.len() != 1 ==> crate::value::is_runtime_error(r),
        args@.len() == 1 ==> match str_arg(*heap, args@[0]) {
            Some(t) => r matches Ok(s) && s@ == t,
            None => crate::value::is_type_mismatch(r),
        },
{
    one_string(heap, args, "get_env expects 1 argument")
}

/// What `get_env` gives for what the lookup found: a new string holding
/// the value, unit when the variable is not set.
pub fn env_value(heap: &mut Heap, found: Option<String>) -> (v: Value)
    requires
        ready(*old(heap)),
    ensures
        ready(*final(heap)),
        match found {
            Some(s) => fresh_string(*old(heap), *final(heap), v, s@) && grows(*old(heap), *final(heap)),
            None => v == Value::Unit && *final(heap) == *old(heap),
        },
{
    match found {
        Some(s) => new_text(heap, s),
        None => Value::Unit,
    }
}

/// `get_args()`: a new list of new strings holding the program's
/// arguments `argv`, which the host read.
pub fn get_args_native(heap: &mut Heap, args: &[Value], argv: Vec<String>) -> (r: PulseResult<Value>)
    requires
        ready(*old(heap)),
    ensures
        ready(*final(heap)),
        args@.len() != 0 ==> crate::value::is_runtime_error(r) && *final(heap) == *old(heap),
        args@.len() == 0 ==> grows(*old(heap), *final(heap))
            && new_string_list(*old(heap), *final(heap), r, argv@.map_values(|s: String| s@)),
{
    if args.len() != 0 {
        return Err(PulseError::RuntimeError(text("get_args expects 0 arguments")));
    }
    let mut parts: Vec<Vec<char>> = Vec::new();
    let mut i: usize = 0;
    while i < argv.len()
        invariant
            i <= argv@.len(),
            parts@.len() == i,
            forall|k: int| 0 <= k < i ==> (#[trigger] parts@[k])@ == argv@[k]@,
        decreases argv@.len() - i,
    {
        parts.push(chars_of(argv[i].as_str()));
        i = i + 1;
    }
    assert(parts@.map_values(|v: Vec<char>| v@) =~= argv@.map_values(|s: String| s@));
    alloc_strings(heap, parts)
}

/// `get_pid()`: the id of this process, which the host read.
pub fn get_pid_native(args: &[Value], pid: u32) -> (r: PulseResult<Value>)
    ensures
        args@.len() != 0 ==> crate::value::is_runtime_error(r),
        args@.len() == 0 ==> r == Ok::<Value, PulseError>(Value::Int(pid as i64)),
{
    if args.len() != 0 {
        return Err(PulseError::RuntimeError(text("get_pid expects 0 arguments")));
    }
    Ok(Value::Int(pid as i64))
}

/// `kill(pid)`, what comes before the kill: the process id.
pub fn kill_target(args: &[Value]) -> (r: PulseResult<i64>)
    ensures
        args@.len() != 1 ==> crate::value::is_runtime_error(r),
        args@.len() == 1 ==> match args@[0] {
            Value::Int(i) => r == Ok::<i64, PulseError>(i),
            _ => crate::value::is_type_mismatch(r),
        },
{
    if args.len() != 1 {
        return Err(PulseError::RuntimeError(text("kill expects 1 argument")));
    }
    args[0].as_int()
}

/// `system_info()`: a new map of new strings naming the operating system,
/// the architecture and the family the host reports.
pub fn system_info_native(heap: &mut Heap, args: &[Value], os: &str, arch: &str, family: &str) -> (r: PulseResult<Value>)
    requires
        ready(*old(heap)),
    ensures
        ready(*final(heap)),
        args@.len() != 0 ==> crate::value::is_runtime_error(r) && *final(heap) == *old(heap),
        args@.len() == 0 ==> {
            &&& grows(*old(heap), *final(heap))
            &&& r matches Ok(Value::Obj(x))
            &&& !old(heap).live().dom().contains(x.0 as int)
            &&& final(heap).live().dom().contains(x.0 as int)
            &&& final(heap).live()[x.0 as int] matches Object::Dict(m) && {
                let es = m.entries@;
                &&& es.len() == 3
                &&& es[0].0@ == "os"@ && fresh_string(*old(heap), *final(heap), es[0].1, os@)
                &&& es[1].0@ == "architecture"@ && fresh_string(*old(heap), *final(heap), es[1].1, arch@)
                &&& es[2].0@ == "family"@ && fresh_string(*old(heap), *final(heap), es[2].1, family@)
            }
        },
{
    if args.len() != 0 {
        return Err(PulseError::RuntimeError(text("system_info expects 0 arguments")));
    }
    proof {
        reveal_strlit("os");
        reveal_strlit("architecture");
        reveal_strlit("family");
    }
    let ghost h0 = *heap;
    let a = new_text(heap, text(os));
    let ghost h1 = *heap;
    let b = new_text(heap, text(arch));
    let ghost h2 = *heap;
    let c = new_text(heap, text(family));
    let ghost h3 = *heap;
    let es = vec![(text("os"), a), (text("architecture"), b), (text("family"), c)];
    proof {
        assert(es@[0].0@.len() == 2 && es@[1].0@.len() == 12 && es@[2].0@.len() == 6);
        assert forall|i: int, j: int| 0 <= i < es@.len() && 0 <= j < es@.len() && i != j
            implies (#[trigger] es@[i]).0@ != (#[trigger] es@[j]).0@ by {
            assert(es@[i].0@.len() != es@[j].0@.len());
        }
        vstd::map_lib::lemma_submap_of_trans(h0.live(), h1.live(), h2.live());
        vstd::map_lib::lemma_submap_of_trans(h0.live(), h2.live(), h3.live());
        vstd::map_lib::lemma_submap_of_trans(h1.live(), h2.live(), h3.live());
        if h0.live().dom().contains(a->Obj_0.0 as int) {
            assert(h1.live().dom().contains(a->Obj_0.0 as int));
        }
        if h0.live().dom().contains(b->Obj_0.0 as int) {
            assert(h2.live().dom().contains(b->Obj_0.0 as int));
        }
    }
    let m = NameMap { entries: es };
    let x = heap.allocate(Object::Dict(m));
    proof {
        vstd::map_lib::lemma_submap_of_trans(h0.live(), h3.live(), heap.live());
        if h0.live().dom().contains(x.0 as int) {
            assert(h3.live().dom().contains(x.0 as int));
        }
        assert(fresh_string(h0, h1, a, os@));
        assert(fresh_string(h1, h2, b, arch@));
        assert(fresh_string(h2, h3, c, family@));
        assert(h3.live().submap_of(heap.live()));
        vstd::map_lib::lemma_submap_of_trans(h1.live(), h2.live(), h3.live());
        vstd::map_lib::lemma_submap_of_trans(h1.live(), h3.live(), heap.live());
        vstd::map_lib::lemma_submap_of_trans(h2.live(), h3.live(), heap.live());
        assert(h1.live().dom().contains(a->Obj_0.0 as int));
        assert(h2.live().dom().contains(b->Obj_0.0 as int));
        assert(heap.live().dom().contains(a->Obj_0.0 as int));
        assert(heap.live().dom().contains(b->Obj_0.0 as int));
        assert(heap.live().dom().contains(c->Obj_0.0 as int));
        assert(heap.live()[a->Obj_0.0 as int] == h1.live()[a->Obj_0.0 as int]);
        assert(heap.live()[b->Obj_0.0 as int] == h2.live()[b->Obj_0.0 as int]);
        assert(heap.live()[c->Obj_0.0 as int] == h3.live()[c->Obj_0.0 as int]);
        assert(fresh_string(h0, *heap, a, os@));
        assert(fresh_string(h0, *heap, b, arch@));
        assert(fresh_string(h0, *heap, c, family@));
    }
    Ok(Value::Obj(x))
}

/// `set_env(name, value)`, what comes before the change: the variable's
/// name and its new value, both strings.
pub fn set_env_request(heap: &Heap, args: &[Value]) -> (r: PulseResult<(String, String)>)
    requires
        heap.wf(),
    ensures
        args@.len() != 2 ==> crate::value::is_runtime_error(r),
        args@.len() == 2 ==> match (str_arg(*heap, args@[0]), str_arg(*heap, args@[1])) {
            (Some(n), Some(v)) => r matches Ok(p) && p.0@ == n && p.1@ == v,
            _ => crate::value::is_type_mismatch(r),
        },
{
    if args.len() != 2 {
        return Err(PulseError::RuntimeError(text("set_env expects 2 arguments")));
    }
    let name = one_string(heap, &args[0..1], "set_env expects 2 arguments")?;
    let value = one_string(heap, &args[1..2], "set_env expects 2 arguments")?;
    Ok((name, value))
}

} // verus!

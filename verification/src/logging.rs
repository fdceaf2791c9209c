//! Logging natives. The settings (the least level logged, and whether
//! logging is on) are a value the host keeps; each native decides whether
//! a line is written, and what it reads, and the host writes it with its
//! own timestamp.

use vstd::prelude::*;
use crate::value::{Value, PulseError, PulseResult, text};
use crate::object::Object;
use crate::heap::Heap;
use crate::vm::{object_of, heap_string};
use crate::text::{push_str, i64_to_string, usize_to_string, int_text, nat_digits};
use crate::utils::{ready, new_string, text_of, bool_text, value_to_string};
use crate::string_utils::{lower_case, upper_case, to_lower, to_upper};
use crate::namemap::str_equal;

verus! {

broadcast use {vstd::std_specs::vec::group_vec_axioms, vstd::string::group_string_axioms};

/// The least level that is logged (0 debug, 1 info, 2 warn, 3 error), and
/// whether logging is on.
#[derive(Clone, Copy)]
pub struct LogSettings {
    pub level: i32,
    pub enabled: bool,
}

impl LogSettings {
    /// Warnings and errors are logged; logging is on.
    pub fn new() -> (s: LogSettings)
        ensures
            s.level == 2,
            s.enabled,
    {
        LogSettings { level: 2, enabled: true }
    }
}

/// A line for the host to write, to standard error or standard output.
pub struct LogLine {
    pub text: String,
    pub to_stderr: bool,
}

/// What a logging native did: the line to write, if any, and its result.
pub struct LogOutcome {
    pub line: Option<LogLine>,
    pub result: PulseResult<Value>,
}

/// The level a level name stands for, case aside: debug 0, info 1, warn
/// or warning 2, error 3; any other name is info.
pub open spec fn level_named(name: Seq<char>) -> i32 {
    let l = lower_case(name);
    if l == "debug"@ { 0 } else if l == "info"@ { 1 } else if l == "warn"@ || l == "warning"@ { 2 }
    else if l == "error"@ { 3 } else { 1 }
}

fn level_of(name: &str) -> (r: i32)
    ensures
        r == level_named(name@),
{
    let l = to_lower(name);
    proof {
        reveal_strlit("debug");
        reveal_strlit("info");
        reveal_strlit("warn");
        reveal_strlit("warning");
        reveal_strlit("error");
    }
    if str_equal(l.as_str(), "debug") { 0 } else if str_equal(l.as_str(), "info") { 1 }
    else if str_equal(l.as_str(), "warn") || str_equal(l.as_str(), "warning") { 2 }
    else if str_equal(l.as_str(), "error") { 3 } else { 1 }
}

/// The name of a level: debug, info, warn, error; anything else reads
/// info.
pub open spec fn level_name(level: i32) -> Seq<char> {
    if level == 0 { "debug"@ } else if level == 1 { "info"@ } else if level == 2 { "warn"@ }
    else if level == 3 { "error"@ } else { "info"@ }
}

/// The string in argument `v`, or a type mismatch.
fn string_param(heap: &Heap, v: Value) -> (r: PulseResult<String>)
    requires
        heap.wf(),
    ensures
        match r {
            Ok(s) => v is Obj && heap_string(*heap, v->Obj_0) == Some(s@),
            Err(e) => e is TypeMismatch && !(v is Obj && heap_string(*heap, v->Obj_0) is Some),
        },
{
    match v {
        Value::Obj(x) => match heap.get(x) {
            Some(Object::String(s)) => Ok(s.clone()),
            _ => Err(PulseError::TypeMismatch { expected: text("string"), got: text("object") }),
        },
        _ => Err(PulseError::TypeMismatch { expected: text("string"), got: v.kind_name() }),
    }
}

/// The string an argument holds.
pub open spec fn string_in(h: Heap, v: Value) -> Option<Seq<char>> {
    if v is Obj { heap_string(h, v->Obj_0) } else { None }
}

/// `set_log_level(name)`: sets the least level logged (see
/// `level_named`); gives unit.
pub fn set_log_level_native(settings: &mut LogSettings, heap: &Heap, args: &[Value]) -> (r: PulseResult<Value>)
    requires
        heap.wf(),
    ensures
        final(settings).enabled == old(settings).enabled,
        args@.len() != 1 ==> crate::value::is_runtime_error(r) && *final(settings) == *old(settings),
        args@.len() == 1 ==> match string_in(*heap, args@[0]) {
            Some(s) => r == Ok::<Value, PulseError>(Value::Unit) && final(settings).level == level_named(s),
            None => crate::value::is_type_mismatch(r) && *final(settings) == *old(settings),
        },
{
    if args.len() != 1 {
        return Err(PulseError::RuntimeError(text("set_log_level expects 1 argument")));
    }
    let name = string_param(heap, args[0])?;
    settings.level = level_of(name.as_str());
    Ok(Value::Unit)
}

/// `get_log_level()`: a new string naming the least level logged.
pub fn get_log_level_native(settings: &LogSettings, heap: &mut Heap, args: &[Value]) -> (r: PulseResult<Value>)
    requires
        ready(*old(heap)),
    ensures
        ready(*final(heap)),
        args@.len() != 0 ==> crate::value::is_runtime_error(r) && *final(heap) == *old(heap),
        args@.len() == 0 ==> new_string(*old(heap), *final(heap), r, level_name(settings.level)),
{
    if args.len() != 0 {
        return Err(PulseError::RuntimeError(text("get_log_level expects 0 arguments")));
    }
    proof {
        reveal_strlit("debug");
        reveal_strlit("info");
        reveal_strlit("warn");
        reveal_strlit("error");
    }
    let name = if settings.level == 0 { text("debug") } else if settings.level == 1 { text("info") }
        else if settings.level == 2 { text("warn") } else if settings.level == 3 { text("error") } else { text("info") };
    let x = heap.allocate(Object::String(name));
    Ok(Value::Obj(x))
}

/// How the logger renders a value, with `fuel` levels of nested lists and
/// maps: `None` when a float needs the host, `Some(None)` when the nesting
/// goes deeper than `fuel`, otherwise the text. Lists read `[a, b]`, maps
/// `{k: v}`.
pub open spec fn log_text(h: Heap, v: Value, fuel: nat) -> Option<Option<Seq<char>>>
    decreases fuel, 0nat,
{
    match v {
        Value::Float(_) => None,
        Value::Pid(_) => Some(Some("<actor "@ + text_of(h, v)->Some_0 + ">"@)),
        Value::Obj(_) => match object_of(h, v) {
            Some(Object::String(s)) => Some(Some(s@)),
            Some(Object::List(l)) => if fuel == 0 {
                Some(None)
            } else {
                match log_items(h, l@, (fuel - 1) as nat) {
                    Some(Some(t)) => Some(Some("["@ + t + "]"@)),
                    other => other,
                }
            },
            Some(Object::Dict(m)) => if fuel == 0 {
                Some(None)
            } else {
                match log_entries(h, m.entries@, (fuel - 1) as nat) {
                    Some(Some(t)) => Some(Some("{"@ + t + "}"@)),
                    other => other,
                }
            },
            Some(Object::Closure(_)) => Some(Some("<closure>"@)),
            Some(Object::Function(f)) => Some(Some("<fn "@ + f.name@ + ">"@)),
            Some(Object::NativeFn(n)) => Some(Some("<native "@ + n.name@ + ">"@)),
            Some(Object::Module(m)) => Some(Some("<module len="@ + nat_digits(m.entries@.len()) + ">"@)),
            Some(Object::Class(c)) => Some(Some("<class "@ + c.name@ + ">"@)),
            Some(Object::Instance(i)) => Some(Some("<instance "@ + i.class.name@ + ">"@)),
            Some(_) => Some(Some("<object>"@)),
            None => Some(Some("<null>"@)),
        },
        _ => Some(text_of(h, v)),
    }
}

/// Two renderings joined by `sep`; the first failure wins.
pub open spec fn joined(a: Option<Option<Seq<char>>>, b: Option<Option<Seq<char>>>, sep: Seq<char>, first: bool) -> Option<Option<Seq<char>>> {
    match a {
        Some(Some(x)) => match b {
            Some(Some(y)) => Some(Some(if first { y } else { x + sep + y })),
            other => other,
        },
        other => other,
    }
}

/// The items rendered and joined by ", ".
pub open spec fn log_items(h: Heap, s: Seq<Value>, fuel: nat) -> Option<Option<Seq<char>>>
    decreases fuel, s.len() + 1,
{
    if s.len() == 0 {
        Some(Some(Seq::empty()))
    } else {
        joined(log_items(h, s.drop_last(), fuel), log_text(h, s.last(), fuel), ", "@, s.len() == 1)
    }
}

/// The entries rendered as `key: value` and joined by ", ".
pub open spec fn log_entries(h: Heap, s: Seq<(String, Value)>, fuel: nat) -> Option<Option<Seq<char>>>
    decreases fuel, s.len() + 1,
{
    if s.len() == 0 {
        Some(Some(Seq::empty()))
    } else {
        let e = match log_text(h, s.last().1, fuel) {
            Some(Some(t)) => Some(Some(s.last().0@ + ": "@ + t)),
            other => other,
        };
        joined(log_entries(h, s.drop_last(), fuel), e, ", "@, s.len() == 1)
    }
}

/// The result a rendering gives: a float needs the host; nesting deeper
/// than the heap has objects is a runtime error.
pub open spec fn rendered(t: Option<Option<Seq<char>>>, r: PulseResult<String>) -> bool {
    match t {
        None => crate::value::is_float_host(r),
        Some(None) => crate::value::is_runtime_error(r),
        Some(Some(x)) => r matches Ok(s) && s@ == x,
    }
}

fn join_step(acc: &mut String, piece: &str, first: bool)
    ensures
        final(acc)@ == if first { piece@ } else { old(acc)@ + ", "@ + piece@ },
{
    proof { reveal_strlit(", "); }
    if first {
        *acc = text(piece);
    } else {
        push_str(acc, ", ");
        push_str(acc, piece);
    }
}

fn render(heap: &Heap, v: Value, fuel: usize) -> (r: PulseResult<String>)
    requires
        heap.wf(),
    ensures
        rendered(log_text(*heap, v, fuel as nat), r),
    decreases fuel, 0nat,
{
    proof {
        reveal_strlit("<actor ");
        reveal_strlit(">");
        reveal_strlit("[");
        reveal_strlit("]");
        reveal_strlit("{");
        reveal_strlit("}");
        reveal_strlit("<closure>");
        reveal_strlit("<fn ");
        reveal_strlit("<native ");
        reveal_strlit("<module len=");
        reveal_strlit("<class ");
        reveal_strlit("<instance ");
        reveal_strlit("<object>");
        reveal_strlit("<null>");
    }
    match v {
        Value::Float(_) => Err(PulseError::NeedsFloatHost),
        Value::Pid(_) => {
            let t = value_to_string(heap, v)?;
            let mut s = text("<actor ");
            push_str(&mut s, t.as_str());
            push_str(&mut s, ">");
            Ok(s)
        },
        Value::Obj(x) => match heap.get(x) {
            Some(Object::String(s)) => Ok(s.clone()),
            Some(Object::List(l)) => {
                if fuel == 0 {
                    return Err(PulseError::RuntimeError(text("value nested too deeply to log")));
                }
                let inner = render_items(heap, l, fuel - 1)?;
                let mut s = text("[");
                push_str(&mut s, inner.as_str());
                push_str(&mut s, "]");
                Ok(s)
            },
            Some(Object::Dict(m)) => {
                if fuel == 0 {
                    return Err(PulseError::RuntimeError(text("value nested too deeply to log")));
                }
                let inner = render_entries(heap, &m.entries, fuel - 1)?;
                let mut s = text("{");
                push_str(&mut s, inner.as_str());
                push_str(&mut s, "}");
                Ok(s)
            },
            Some(Object::Closure(_)) => Ok(text("<closure>")),
            Some(Object::Function(f)) => {
                let mut s = text("<fn ");
                push_str(&mut s, f.name.as_str());
                push_str(&mut s, ">");
                Ok(s)
            },
            Some(Object::NativeFn(n)) => {
                let mut s = text("<native ");
                push_str(&mut s, n.name.as_str());
                push_str(&mut s, ">");
                Ok(s)
            },
            Some(Object::Module(m)) => {
                let mut s = text("<module len=");
                push_str(&mut s, usize_to_string(m.entries.len()).as_str());
                push_str(&mut s, ">");
                Ok(s)
            },
            Some(Object::Class(c)) => {
                let mut s = text("<class ");
                push_str(&mut s, c.name.as_str());
                push_str(&mut s, ">");
                Ok(s)
            },
            Some(Object::Instance(i)) => {
                let mut s = text("<instance ");
                push_str(&mut s, i.class.name.as_str());
                push_str(&mut s, ">");
                Ok(s)
            },
            Some(_) => Ok(text("<object>")),
            None => Ok(text("<null>")),
        },
        _ => value_to_string(heap, v),
    }
}

fn render_items(heap: &Heap, items: &Vec<Value>, fuel: usize) -> (r: PulseResult<String>)
    requires
        heap.wf(),
    ensures
        rendered(log_items(*heap, items@, fuel as nat), r),
    decreases fuel, items@.len() + 1,
{
    let mut acc = String::new();
    let mut i: usize = 0;
    while i < items.len()
        invariant
            heap.wf(),
            i <= items@.len(),
            log_items(*heap, items@.take(i as int), fuel as nat) == Some(Some(acc@)),
        decreases items@.len() - i,
    {
        let ghost p = items@.take(i + 1);
        assert(p.drop_last() =~= items@.take(i as int));
        assert(p.last() == items@[i as int]);
        let piece = match render(heap, items[i], fuel) {
            Ok(t) => t,
            Err(e) => {
                proof { lemma_items_fail(*heap, items@, i + 1, fuel as nat); }
                return Err(e);
            },
        };
        join_step(&mut acc, piece.as_str(), i == 0);
        i = i + 1;
    }
    assert(items@.take(i as int) =~= items@);
    Ok(acc)
}

proof fn lemma_items_fail(h: Heap, s: Seq<Value>, n: int, fuel: nat)
    requires
        0 < n <= s.len(),
        !(log_items(h, s.take(n), fuel) is Some && log_items(h, s.take(n), fuel)->Some_0 is Some),
    ensures
        log_items(h, s, fuel) == log_items(h, s.take(n), fuel),
    decreases s.len() - n,
{
    if n < s.len() {
        let p = s.take(n + 1);
        assert(p.drop_last() =~= s.take(n));
        lemma_items_fail(h, s, n + 1, fuel);
    } else {
        assert(s.take(n) =~= s);
    }
}

fn render_entries(heap: &Heap, es: &Vec<(String, Value)>, fuel: usize) -> (r: PulseResult<String>)
    requires
        heap.wf(),
    ensures
        rendered(log_entries(*heap, es@, fuel as nat), r),
    decreases fuel, es@.len() + 1,
{
    proof { reveal_strlit(": "); }
    let mut acc = String::new();
    let mut i: usize = 0;
    while i < es.len()
        invariant
            heap.wf(),
            i <= es@.len(),
            log_entries(*heap, es@.take(i as int), fuel as nat) == Some(Some(acc@)),
        decreases es@.len() - i,
    {
        let ghost p = es@.take(i + 1);
        assert(p.drop_last() =~= es@.take(i as int));
        assert(p.last() == es@[i as int]);
        let t = match render(heap, es[i].1, fuel) {
            Ok(t) => t,
            Err(e) => {
                proof { lemma_entries_fail(*heap, es@, i + 1, fuel as nat); }
                return Err(e);
            },
        };
        let mut piece = es[i].0.clone();
        push_str(&mut piece, ": ");
        push_str(&mut piece, t.as_str());
        join_step(&mut acc, piece.as_str(), i == 0);
        i = i + 1;
    }
    assert(es@.take(i as int) =~= es@);
    Ok(acc)
}

proof fn lemma_entries_fail(h: Heap, s: Seq<(String, Value)>, n: int, fuel: nat)
    requires
        0 < n <= s.len(),
        !(log_entries(h, s.take(n), fuel) is Some && log_entries(h, s.take(n), fuel)->Some_0 is Some),
    ensures
        log_entries(h, s, fuel) == log_entries(h, s.take(n), fuel),
    decreases s.len() - n,
{
    if n < s.len() {
        let p = s.take(n + 1);
        assert(p.drop_last() =~= s.take(n));
        lemma_entries_fail(h, s, n + 1, fuel);
    } else {
        assert(s.take(n) =~= s);
    }
}

/// The message of a log call: the values rendered and joined by spaces,
/// with as many levels of nesting as the heap has slots.
pub open spec fn log_message(h: Heap, vs: Seq<Value>) -> Option<Option<Seq<char>>>
    decreases vs.len(),
{
    if vs.len() == 0 {
        Some(Some(Seq::empty()))
    } else {
        match log_message(h, vs.drop_last()) {
            Some(Some(a)) => match log_text(h, vs.last(), h.slots()) {
                Some(Some(b)) => Some(Some(if vs.len() == 1 { b } else { a + " "@ + b })),
                other => other,
            },
            other => other,
        }
    }
}

fn message(heap: &Heap, vs: &[Value]) -> (r: PulseResult<String>)
    requires
        heap.wf(),
    ensures
        rendered(log_message(*heap, vs@), r),
{
    proof { reveal_strlit(" "); }
    let mut acc = String::new();
    let mut i: usize = 0;
    while i < vs.len()
        invariant
            heap.wf(),
            i <= vs@.len(),
            log_message(*heap, vs@.take(i as int)) == Some(Some(acc@)),
        decreases vs@.len() - i,
    {
        let ghost p = vs@.take(i + 1);
        assert(p.drop_last() =~= vs@.take(i as int));
        assert(p.last() == vs@[i as int]);
        let piece = match render(heap, vs[i], heap.slot_count()) {
            Ok(t) => t,
            Err(e) => {
                proof { lemma_message_fail(*heap, vs@, i + 1); }
                return Err(e);
            },
        };
        if i == 0 {
            acc = piece;
        } else {
            push_str(&mut acc, " ");
            push_str(&mut acc, piece.as_str());
        }
        i = i + 1;
    }
    assert(vs@.take(i as int) =~= vs@);
    Ok(acc)
}

proof fn lemma_message_fail(h: Heap, s: Seq<Value>, n: int)
    requires
        0 < n <= s.len(),
        !(log_message(h, s.take(n)) is Some && log_message(h, s.take(n))->Some_0 is Some),
    ensures
        log_message(h, s) == log_message(h, s.take(n)),
    decreases s.len() - n,
{
    if n < s.len() {
        let p = s.take(n + 1);
        assert(p.drop_last() =~= s.take(n));
        lemma_message_fail(h, s, n + 1);
    } else {
        assert(s.take(n) =~= s);
    }
}

/// The outcome of logging `vs` at `level` under `label`, stamped
/// `timestamp`: nothing when logging is off or the level is below the
/// least level; otherwise the line `[timestamp] [label] message`, to
/// standard error from level 2 on, and unit.
pub open spec fn logged(s: LogSettings, h: Heap, vs: Seq<Value>, level: i32, label: Seq<char>, timestamp: Seq<char>, o: LogOutcome) -> bool {
    if !s.enabled || level < s.level {
        o.line is None && o.result == Ok::<Value, PulseError>(Value::Unit)
    } else {
        match log_message(h, vs) {
            Some(Some(m)) => o.result == Ok::<Value, PulseError>(Value::Unit) && (o.line matches Some(l)
                && l.text@ == "["@ + timestamp + "] ["@ + label + "] "@ + m && l.to_stderr == (level >= 2)),
            None => o.line is None && crate::value::is_float_host(o.result),
            Some(None) => o.line is None && crate::value::is_runtime_error(o.result),
        }
    }
}

fn log_at(settings: &LogSettings, heap: &Heap, vs: &[Value], level: i32, label: &str, timestamp: &str) -> (o: LogOutcome)
    requires
        heap.wf(),
    ensures
        logged(*settings, *heap, vs@, level, label@, timestamp@, o),
{
    if !settings.enabled || level < settings.level {
        return LogOutcome { line: None, result: Ok(Value::Unit) };
    }
    let m = match message(heap, vs) {
        Ok(m) => m,
        Err(e) => {
            return LogOutcome { line: None, result: Err(e) };
        },
    };
    proof {
        reveal_strlit("[");
        reveal_strlit("] [");
        reveal_strlit("] ");
    }
    let mut t = text("[");
    push_str(&mut t, timestamp);
    push_str(&mut t, "] [");
    push_str(&mut t, label);
    push_str(&mut t, "] ");
    push_str(&mut t, m.as_str());
    LogOutcome { line: Some(LogLine { text: t, to_stderr: level >= 2 }), result: Ok(Value::Unit) }
}

/// `debug(values...)`: logs at level 0 under `DEBUG`.
pub fn debug_native(settings: &LogSettings, heap: &Heap, args: &[Value], timestamp: &str) -> (o: LogOutcome)
    requires
        heap.wf(),
    ensures
        logged(*settings, *heap, args@, 0, "DEBUG"@, timestamp@, o),
{
    log_at(settings, heap, args, 0, "DEBUG", timestamp)
}

/// `info(values...)`: logs at level 1 under `INFO`.
pub fn info_native(settings: &LogSettings, heap: &Heap, args: &[Value], timestamp: &str) -> (o: LogOutcome)
    requires
        heap.wf(),
    ensures
        logged(*settings, *heap, args@, 1, "INFO"@, timestamp@, o),
{
    log_at(settings, heap, args, 1, "INFO", timestamp)
}

/// `warn(values...)`: logs at level 2 under `WARN`.
pub fn warn_native(settings: &LogSettings, heap: &Heap, args: &[Value], timestamp: &str) -> (o: LogOutcome)
    requires
        heap.wf(),
    ensures
        logged(*settings, *heap, args@, 2, "WARN"@, timestamp@, o),
{
    log_at(settings, heap, args, 2, "WARN", timestamp)
}

/// `error(values...)`: logs at level 3 under `ERROR`.
pub fn error_native(settings: &LogSettings, heap: &Heap, args: &[Value], timestamp: &str) -> (o: LogOutcome)
    requires
        heap.wf(),
    ensures
        logged(*settings, *heap, args@, 3, "ERROR"@, timestamp@, o),
{
    log_at(settings, heap, args, 3, "ERROR", timestamp)
}

/// `trace(values...)`: logs at level 0 under `TRACE`.
pub fn trace_native(settings: &LogSettings, heap: &Heap, args: &[Value], timestamp: &str) -> (o: LogOutcome)
    requires
        heap.wf(),
    ensures
        logged(*settings, *heap, args@, 0, "TRACE"@, timestamp@, o),
{
    log_at(settings, heap, args, 0, "TRACE", timestamp)
}

/// `log(level, values...)`: logs the values after the first at the level
/// the first names (see `level_named`), under that name in upper case.
pub fn log_native(settings: &LogSettings, heap: &Heap, args: &[Value], timestamp: &str) -> (o: LogOutcome)
    requires
        heap.wf(),
    ensures
        args@.len() != 2 ==> o.line is None && crate::value::is_runtime_error(o.result),
        args@.len() == 2 ==> match string_in(*heap, args@[0]) {
            Some(name) => logged(*settings, *heap, args@.subrange(1, 2), level_named(name), upper_case(name), timestamp@, o),
            None => o.line is None && crate::value::is_type_mismatch(o.result),
        },
{
    if args.len() != 2 {
        return LogOutcome { line: None, result: Err(PulseError::RuntimeError(text("log expects 2 arguments"))) };
    }
    let name = match string_param(heap, args[0]) {
        Ok(s) => s,
        Err(e) => {
            return LogOutcome { line: None, result: Err(e) };
        },
    };
    let level = level_of(name.as_str());
    let label = to_upper(name.as_str());
    let rest = vec![args[1]];
    assert(rest@ =~= args@.subrange(1, 2));
    log_at(settings, heap, rest.as_slice(), level, label.as_str(), timestamp)
}

/// `log_fatal(values...)`: logs at level 3 under `FATAL`, then fails with
/// `FATAL: message`.
pub fn log_fatal_native(settings: &LogSettings, heap: &Heap, args: &[Value], timestamp: &str) -> (o: LogOutcome)
    requires
        heap.wf(),
    ensures
        match log_message(*heap, args@) {
            Some(Some(m)) => logged(*settings, *heap, args@, 3, "FATAL"@, timestamp@,
                LogOutcome { line: o.line, result: Ok(Value::Unit) })
                && (o.result matches Err(PulseError::RuntimeError(msg)) && msg@ == "FATAL: "@ + m),
            None => o.line is None && crate::value::is_float_host(o.result),
            Some(None) => o.line is None && crate::value::is_runtime_error(o.result),
        },
{
    let logged_out = log_at(settings, heap, args, 3, "FATAL", timestamp);
    if logged_out.result.is_err() {
        return logged_out;
    }
    let m = match message(heap, args) {
        Ok(m) => m,
        Err(e) => {
            return LogOutcome { line: None, result: Err(e) };
        },
    };
    proof { reveal_strlit("FATAL: "); }
    let mut msg = text("FATAL: ");
    push_str(&mut msg, m.as_str());
    LogOutcome { line: logged_out.line, result: Err(PulseError::RuntimeError(msg)) }
}

/// `log_debug_if(cond, v)` and `log_info_if(cond, v)`: log `v` at level 0
/// or 1 when `cond` holds.
fn log_if(settings: &LogSettings, heap: &Heap, args: &[Value], level: i32, label: &str, timestamp: &str) -> (o: LogOutcome)
    requires
        heap.wf(),
    ensures
        args@.len() != 2 ==> o.line is None && crate::value::is_runtime_error(o.result),
        args@.len() == 2 ==> match args@[0] {
            Value::Bool(true) => logged(*settings, *heap, args@.subrange(1, 2), level, label@, timestamp@, o),
            Value::Bool(false) => o.line is None && o.result == Ok::<Value, PulseError>(Value::Unit),
            _ => o.line is None && crate::value::is_type_mismatch(o.result),
        },
{
    if args.len() != 2 {
        return LogOutcome { line: None, result: Err(PulseError::RuntimeError(text("conditional logging expects 2 arguments"))) };
    }
    match args[0] {
        Value::Bool(true) => {
            let rest = vec![args[1]];
            assert(rest@ =~= args@.subrange(1, 2));
            log_at(settings, heap, rest.as_slice(), level, label, timestamp)
        },
        Value::Bool(false) => LogOutcome { line: None, result: Ok(Value::Unit) },
        _ => LogOutcome { line: None, result: Err(PulseError::TypeMismatch { expected: text("bool"), got: args[0].kind_name() }) },
    }
}

/// `log_debug_if(cond, v)`: logs `v` at level 0 under `DEBUG` when `cond`
/// holds.
pub fn log_debug_if_native(settings: &LogSettings, heap: &Heap, args: &[Value], timestamp: &str) -> (o: LogOutcome)
    requires
        heap.wf(),
    ensures
        args@.len() != 2 ==> o.line is None && crate::value::is_runtime_error(o.result),
        args@.len() == 2 ==> match args@[0] {
            Value::Bool(true) => logged(*settings, *heap, args@.subrange(1, 2), 0, "DEBUG"@, timestamp@, o),
            Value::Bool(false) => o.line is None && o.result == Ok::<Value, PulseError>(Value::Unit),
            _ => o.line is None && crate::value::is_type_mismatch(o.result),
        },
{
    log_if(settings, heap, args, 0, "DEBUG", timestamp)
}

/// `log_info_if(cond, v)`: logs `v` at level 1 under `INFO` when `cond`
/// holds.
pub fn log_info_if_native(settings: &LogSettings, heap: &Heap, args: &[Value], timestamp: &str) -> (o: LogOutcome)
    requires
        heap.wf(),
    ensures
        args@.len() != 2 ==> o.line is None && crate::value::is_runtime_error(o.result),
        args@.len() == 2 ==> match args@[0] {
            Value::Bool(true) => logged(*settings, *heap, args@.subrange(1, 2), 1, "INFO"@, timestamp@, o),
            Value::Bool(false) => o.line is None && o.result == Ok::<Value, PulseError>(Value::Unit),
            _ => o.line is None && crate::value::is_type_mismatch(o.result),
        },
{
    log_if(settings, heap, args, 1, "INFO", timestamp)
}

/// `set_log_format(format)`: accepted and ignored; gives unit.
pub fn set_log_format_native(args: &[Value]) -> (r: PulseResult<Value>)
    ensures
        args@.len() == 1 <==> r == Ok::<Value, PulseError>(Value::Unit),
        args@.len() != 1 ==> crate::value::is_runtime_error(r),
{
    if args.len() != 1 {
        return Err(PulseError::RuntimeError(text("set_log_format expects 1 argument")));
    }
    Ok(Value::Unit)
}

/// `enable_logging()` (`on`) and `disable_logging()`: switch logging on or
/// off; give unit.
fn switch_logging(settings: &mut LogSettings, args: &[Value], on: bool) -> (r: PulseResult<Value>)
    ensures
        args@.len() != 0 ==> crate::value::is_runtime_error(r) && *final(settings) == *old(settings),
        args@.len() == 0 ==> r == Ok::<Value, PulseError>(Value::Unit)
            && final(settings).enabled == on && final(settings).level == old(settings).level,
{
    if args.len() != 0 {
        return Err(PulseError::RuntimeError(text("logging switches expect 0 arguments")));
    }
    settings.enabled = on;
    Ok(Value::Unit)
}

/// `enable_logging()`: switches logging on; gives unit.
pub fn enable_logging_native(settings: &mut LogSettings, args: &[Value]) -> (r: PulseResult<Value>)
    ensures
        args@.len() != 0 ==> crate::value::is_runtime_error(r) && *final(settings) == *old(settings),
        args@.len() == 0 ==> r == Ok::<Value, PulseError>(Value::Unit)
            && final(settings).enabled && final(settings).level == old(settings).level,
{
    switch_logging(settings, args, true)
}

/// `disable_logging()`: switches logging off; gives unit.
pub fn disable_logging_native(settings: &mut LogSettings, args: &[Value]) -> (r: PulseResult<Value>)
    ensures
        args@.len() != 0 ==> crate::value::is_runtime_error(r) && *final(settings) == *old(settings),
        args@.len() == 0 ==> r == Ok::<Value, PulseError>(Value::Unit)
            && !final(settings).enabled && final(settings).level == old(settings).level,
{
    switch_logging(settings, args, false)
}

/// `logging_enabled()`: whether logging is on.
pub fn logging_enabled_native(settings: &LogSettings, args: &[Value]) -> (r: PulseResult<Value>)
    ensures
        args@.len() != 0 ==> crate::value::is_runtime_error(r),
        args@.len() == 0 ==> r == Ok::<Value, PulseError>(Value::Bool(settings.enabled)),
{
    if args.len() != 0 {
        return Err(PulseError::RuntimeError(text("logging_enabled expects 0 arguments")));
    }
    Ok(Value::Bool(settings.enabled))
}

/// The context entries rendered as `key=value` and joined by ", ".
pub open spec fn context_text(h: Heap, s: Seq<(String, Value)>) -> Option<Option<Seq<char>>>
    decreases s.len(),
{
    if s.len() == 0 {
        Some(Some(Seq::empty()))
    } else {
        let e = match log_text(h, s.last().1, h.slots()) {
            Some(Some(t)) => Some(Some(s.last().0@ + "="@ + t)),
            other => other,
        };
        joined(context_text(h, s.drop_last()), e, ", "@, s.len() == 1)
    }
}

/// The map an argument refers to.
pub open spec fn map_in(h: Heap, v: Value) -> Option<crate::namemap::NameMap<Value>> {
    match object_of(h, v) {
        Some(Object::Dict(m)) => Some(m),
        _ => None,
    }
}

/// `log_with_context(context, v)`: the line `message [k=v, ...]`, to
/// standard output when logging is on; gives unit.
pub fn log_with_context_native(settings: &LogSettings, heap: &Heap, args: &[Value]) -> (o: LogOutcome)
    requires
        heap.wf(),
    ensures
        args@.len() != 2 ==> o.line is None && crate::value::is_runtime_error(o.result),
        args@.len() == 2 ==> match map_in(*heap, args@[0]) {
            Some(m) => match (log_message(*heap, args@.subrange(1, 2)), context_text(*heap, m.entries@)) {
                (Some(Some(msg)), Some(Some(ctx))) => o.result == Ok::<Value, PulseError>(Value::Unit)
                    && if settings.enabled {
                        o.line matches Some(l) && l.text@ == msg + " ["@ + ctx + "]"@ && !l.to_stderr
                    } else {
                        o.line is None
                    },
                (Some(Some(_)), None) | (None, _) => o.line is None && crate::value::is_float_host(o.result),
                _ => o.line is None && crate::value::is_runtime_error(o.result),
            },
            None => o.line is None && crate::value::is_type_mismatch(o.result),
        },
{
    if args.len() != 2 {
        return LogOutcome { line: None, result: Err(PulseError::RuntimeError(text("log_with_context expects 2 arguments"))) };
    }
    let es = match args[0] {
        Value::Obj(x) => match heap.get(x) {
            Some(Object::Dict(m)) => m.copy().entries,
            _ => {
                return LogOutcome { line: None, result: Err(PulseError::TypeMismatch { expected: text("map"), got: text("object") }) };
            },
        },
        _ => {
            return LogOutcome { line: None, result: Err(PulseError::TypeMismatch { expected: text("map"), got: args[0].kind_name() }) };
        },
    };
    let rest = vec![args[1]];
    assert(rest@ =~= args@.subrange(1, 2));
    let msg = match message(heap, rest.as_slice()) {
        Ok(m) => m,
        Err(e) => {
            return LogOutcome { line: None, result: Err(e) };
        },
    };
    let ctx = match render_context(heap, &es) {
        Ok(c) => c,
        Err(e) => {
            return LogOutcome { line: None, result: Err(e) };
        },
    };
    if !settings.enabled {
        return LogOutcome { line: None, result: Ok(Value::Unit) };
    }
    proof {
        reveal_strlit(" [");
        reveal_strlit("]");
    }
    let mut t = msg;
    push_str(&mut t, " [");
    push_str(&mut t, ctx.as_str());
    push_str(&mut t, "]");
    LogOutcome { line: Some(LogLine { text: t, to_stderr: false }), result: Ok(Value::Unit) }
}

fn render_context(heap: &Heap, es: &Vec<(String, Value)>) -> (r: PulseResult<String>)
    requires
        heap.wf(),
    ensures
        rendered(context_text(*heap, es@), r),
{
    proof { reveal_strlit("="); }
    let mut acc = String::new();
    let mut i: usize = 0;
    while i < es.len()
        invariant
            heap.wf(),
            i <= es@.len(),
            context_text(*heap, es@.take(i as int)) == Some(Some(acc@)),
        decreases es@.len() - i,
    {
        let ghost p = es@.take(i + 1);
        assert(p.drop_last() =~= es@.take(i as int));
        assert(p.last() == es@[i as int]);
        let t = match render(heap, es[i].1, heap.slot_count()) {
            Ok(t) => t,
            Err(e) => {
                proof { lemma_context_fail(*heap, es@, i + 1); }
                return Err(e);
            },
        };
        let mut piece = es[i].0.clone();
        push_str(&mut piece, "=");
        push_str(&mut piece, t.as_str());
        join_step(&mut acc, piece.as_str(), i == 0);
        i = i + 1;
    }
    assert(es@.take(i as int) =~= es@);
    Ok(acc)
}

proof fn lemma_context_fail(h: Heap, s: Seq<(String, Value)>, n: int)
    requires
        0 < n <= s.len(),
        !(context_text(h, s.take(n)) is Some && context_text(h, s.take(n))->Some_0 is Some),
    ensures
        context_text(h, s) == context_text(h, s.take(n)),
    decreases s.len() - n,
{
    if n < s.len() {
        let p = s.take(n + 1);
        assert(p.drop_last() =~= s.take(n));
        lemma_context_fail(h, s, n + 1);
    } else {
        assert(s.take(n) =~= s);
    }
}


/// The log levels in order of severity, debug 0, info 1, warn 2, error 3:
/// a name reads as the level it names, case aside ("warning" reads as
/// warn, any other name as info), and each level writes as its name.
pub proof fn law_level_names(name: Seq<char>)
    ensures
        lower_case(name) == "debug"@ ==> level_named(name) == 0,
        lower_case(name) == "info"@ ==> level_named(name) == 1,
        lower_case(name) == "warn"@ ==> level_named(name) == 2,
        lower_case(name) == "warning"@ ==> level_named(name) == 2,
        lower_case(name) == "error"@ ==> level_named(name) == 3,
        ({
            let l = lower_case(name);
            l != "debug"@ && l != "info"@ && l != "warn"@ && l != "warning"@ && l != "error"@ ==> level_named(name) == 1
        }),
        level_name(0) == "debug"@ && level_name(1) == "info"@ && level_name(2) == "warn"@ && level_name(3) == "error"@,
{
    reveal_strlit("debug");
    reveal_strlit("info");
    reveal_strlit("warn");
    reveal_strlit("warning");
    reveal_strlit("error");
    assert("debug"@[0] == 'd' && "info"@[0] == 'i' && "warn"@[0] == 'w' && "warning"@[0] == 'w' && "error"@[0] == 'e');
    assert("warn"@.len() == 4 && "warning"@.len() == 7);
}
} // verus!

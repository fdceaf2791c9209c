use vstd::prelude::*;
use crate::value::{ActorId, Value, PulseError, PulseResult, text};
use crate::object::Object;
use crate::heap::Heap;
use crate::text::{push_str, i64_to_string, usize_to_string, u64_digits, string_from_chars, int_text, nat_digits};
use crate::vm::{VM, VMStatus, FloatOp, OutputPiece, status_is_running, stack_below, allocated, env_eq};

verus! {

broadcast use vstd::std_specs::vec::group_vec_axioms;

/// How deep printing goes into nested lists and maps; deeper ones print
/// as `[...]` and `{...}`.
pub const PRINT_DEPTH: usize = 32;

/// `true` or `false`.
pub open spec fn bool_text(b: bool) -> Seq<char> {
    if b { "true"@ } else { "false"@ }
}

/// The text `to_string` gives an object other than a string.
pub open spec fn object_label(o: Object) -> Seq<char> {
    match o {
        Object::String(s) => s@,
        Object::List(_) => "<list>"@,
        Object::Dict(_) => "<map>"@,
        Object::Closure(_) => "<closure>"@,
        Object::NativeFn(n) => "<native fn "@ + n.name@ + ">"@,
        Object::Upvalue(_) => "<upvalue>"@,
        Object::Function(_) => "<function>"@,
        Object::Module(_) => "<module>"@,
        Object::Class(c) => "<class "@ + c.name@ + ">"@,
        Object::Instance(i) => "<instance "@ + i.class.name@ + ">"@,
        Object::BoundMethod(_) => "<bound method>"@,
        Object::StringSet(s) => "<set len="@ + nat_digits(s.entries@.len()) + ">"@,
        Object::Queue(q) => "<queue len="@ + nat_digits(q@.len()) + ">"@,
        Object::SharedMemory(m) => "<shared memory locked="@ + bool_text(m.locked) + ">"@,
    }
}

/// The text `to_string` gives a value that is neither a float nor an object.
pub open spec fn primitive_label(v: Value) -> Seq<char> {
    match v {
        Value::Int(i) => int_text(i as int),
        Value::Bool(b) => bool_text(b),
        Value::Unit => "unit"@,
        Value::Pid(p) => "<pid "@ + nat_digits(p.node_id as nat) + ":"@ + nat_digits(p.sequence as nat) + ">"@,
        _ => Seq::empty(),
    }
}

/// A piece of printed output, as text or as a float the host formats.
pub enum Piece {
    Text(Seq<char>),
    Float(u64),
}

pub open spec fn piece_view(p: OutputPiece) -> Piece {
    match p {
        OutputPiece::Text(s) => Piece::Text(s@),
        OutputPiece::Float(f) => Piece::Float(f),
    }
}

pub open spec fn pieces_view(ps: Seq<OutputPiece>) -> Seq<Piece> {
    ps.map_values(|p: OutputPiece| piece_view(p))
}

/// The text of an actor id as `Debug` writes it.
pub open spec fn pid_debug(p: ActorId) -> Seq<char> {
    "ActorId { node_id: "@ + nat_digits(p.node_id as nat) + ", sequence: "@ + nat_digits(p.sequence as nat) + " }"@
}

/// What `print` writes for a value, looking `depth` levels into lists and
/// maps.
pub open spec fn shown(h: Heap, v: Value, depth: nat) -> Seq<Piece>
    decreases depth, 0nat,
{
    match v {
        Value::Obj(handle) => if h.live().dom().contains(handle.0 as int) {
            match h.live()[handle.0 as int] {
                Object::String(s) => seq![Piece::Text(s@)],
                Object::NativeFn(n) => seq![Piece::Text("<native fn "@ + n.name@ + ">"@)],
                Object::List(items) => if depth == 0 {
                    seq![Piece::Text("[...]"@)]
                } else {
                    seq![Piece::Text("["@)] + shown_items(h, items@, (depth - 1) as nat) + seq![Piece::Text("]"@)]
                },
                Object::Dict(m) => if depth == 0 {
                    seq![Piece::Text("{...}"@)]
                } else {
                    seq![Piece::Text("{"@)] + shown_entries(h, m.entries@, (depth - 1) as nat) + seq![Piece::Text("}"@)]
                },
                Object::Function(f) => seq![Piece::Text("<fn "@ + f.name@ + ">"@)],
                Object::Closure(c) => seq![Piece::Text("<fn "@ + c.function.name@ + ">"@)],
                Object::Module(m) => seq![Piece::Text("<module len="@ + nat_digits(m.entries@.len()) + ">"@)],
                o => seq![Piece::Text(object_label(o))],
            }
        } else {
            seq![Piece::Text("<freed object>"@)]
        },
        Value::Float(f) => seq![Piece::Float(f)],
        Value::Pid(p) => seq![Piece::Text("<actor "@ + pid_debug(p) + ">"@)],
        _ => seq![Piece::Text(primitive_label(v))],
    }
}

/// List items as `print` writes them, separated by `, `.
pub open spec fn shown_items(h: Heap, s: Seq<Value>, depth: nat) -> Seq<Piece>
    decreases depth, s.len(),
{
    if s.len() == 0 {
        Seq::empty()
    } else {
        let sep = if s.len() > 1 { seq![Piece::Text(", "@)] } else { Seq::empty() };
        shown_items(h, s.drop_last(), depth) + sep + shown(h, s.last(), depth)
    }
}

/// Map entries as `print` writes them: `key: value`, separated by `, `.
pub open spec fn shown_entries(h: Heap, s: Seq<(String, Value)>, depth: nat) -> Seq<Piece>
    decreases depth, s.len(),
{
    if s.len() == 0 {
        Seq::empty()
    } else {
        let sep = if s.len() > 1 { seq![Piece::Text(", "@)] } else { Seq::empty() };
        shown_entries(h, s.drop_last(), depth) + sep + seq![Piece::Text(s.last().0@ + ": "@)] + shown(h, s.last().1, depth)
    }
}

/// A line of `print` output: the values separated by spaces.
pub open spec fn shown_line(h: Heap, vs: Seq<Value>) -> Seq<Piece>
    decreases vs.len(),
{
    if vs.len() == 0 {
        Seq::empty()
    } else {
        let sep = if vs.len() > 1 { seq![Piece::Text(" "@)] } else { Seq::empty() };
        shown_line(h, vs.drop_last()) + sep + shown(h, vs.last(), PRINT_DEPTH as nat)
    }
}

/// `a` followed by `b` and `c`.
fn concat3(a: &str, b: &str, c: &str) -> (r: String)
    ensures
        r@ == a@ + b@ + c@,
{
    let mut r = text(a);
    push_str(&mut r, b);
    push_str(&mut r, c);
    r
}

fn bool_string(b: bool) -> (r: String)
    ensures
        r@ == bool_text(b),
{
    if b { text("true") } else { text("false") }
}

fn digits_string(n: u64) -> (r: String)
    ensures
        r@ == nat_digits(n as nat),
{
    let d = u64_digits(n);
    string_from_chars(d.as_slice())
}

/// The label of an object other than a string.
fn object_label_exec(o: &Object) -> (r: String)
    ensures
        r@ == object_label(*o),
{
    match o {
        Object::String(s) => s.clone(),
        Object::List(_) => text("<list>"),
        Object::Dict(_) => text("<map>"),
        Object::Closure(_) => text("<closure>"),
        Object::NativeFn(n) => concat3("<native fn ", n.name.as_str(), ">"),
        Object::Upvalue(_) => text("<upvalue>"),
        Object::Function(_) => text("<function>"),
        Object::Module(_) => text("<module>"),
        Object::Class(c) => concat3("<class ", c.name.as_str(), ">"),
        Object::Instance(i) => concat3("<instance ", i.class.name.as_str(), ">"),
        Object::BoundMethod(_) => text("<bound method>"),
        Object::StringSet(s) => {
            let n = usize_to_string(s.entries.len());
            concat3("<set len=", n.as_str(), ">")
        },
        Object::Queue(q) => {
            let n = usize_to_string(q.len());
            concat3("<queue len=", n.as_str(), ">")
        },
        Object::SharedMemory(m) => {
            let b = bool_string(m.locked);
            concat3("<shared memory locked=", b.as_str(), ">")
        },
    }
}

fn push_text(out: &mut Vec<OutputPiece>, s: String)
    ensures
        pieces_view(final(out)@) == pieces_view(old(out)@).push(Piece::Text(s@)),
{
    let ghost o0 = out@;
    out.push(OutputPiece::Text(s));
    assert(pieces_view(out@) =~= pieces_view(o0).push(Piece::Text(s@)));
}

impl VM {
    /// What `op_to_string` does, from `before` to `after`, giving `r`.
    pub open spec fn to_string_effect(before: VM, after: VM, r: PulseResult<VMStatus>) -> bool {
        &&& (env_eq(after, before))
        &&& (before.stack@.len() == 0 ==> crate::value::is_stack_underflow(r) && after.heap == before.heap)
        &&& (before.stack@.len() > 0 ==> ({
                let v = before.stack@.last();
                let rest = before.stack@.drop_last();
                match v {
                    Value::Float(_) => r == Ok::<VMStatus, PulseError>(VMStatus::FloatOp { op: FloatOp::ToString, lhs: v, rhs: Value::Unit })
                        && after.stack@ == rest && after.heap == before.heap,
                    Value::Obj(h) => if !before.heap.live().dom().contains(h.0 as int) {
                        crate::value::is_runtime_error(r) && after.heap == before.heap
                    } else if before.heap.live()[h.0 as int] is String {
                        status_is_running(r) && after.stack@ == before.stack@ && after.heap == before.heap
                    } else {
                        &&& status_is_running(r)
                        &&& after.stack@.drop_last() == rest
                        &&& after.stack@.len() == before.stack@.len()
                        &&& after.stack@.last() matches Value::Obj(sh)
                        &&& after.heap.live()[sh.0 as int] matches Object::String(s)
                        &&& s@ == object_label(before.heap.live()[h.0 as int])
                        &&& crate::vm::fresh_obj(before.heap, after.heap, sh)
                    },
                    _ => {
                        &&& status_is_running(r)
                        &&& after.stack@.drop_last() == rest
                        &&& after.stack@.len() == before.stack@.len()
                        &&& after.stack@.last() matches Value::Obj(sh)
                        &&& after.heap.live()[sh.0 as int] matches Object::String(s)
                        &&& s@ == primitive_label(v)
                        &&& crate::vm::fresh_obj(before.heap, after.heap, sh)
                    },
                }
            }))
    }

    /// `ToString`: replaces the top value with its text: integers in
    /// decimal, `true`/`false`, `unit`, `<pid node:sequence>`, a string as it
    /// is, and a label for other objects. A float goes to the host.
    pub(crate) fn op_to_string(&mut self) -> (r: PulseResult<VMStatus>)
        requires
            old(self).wf(),
        ensures
            final(self).wf(),
            env_eq(*final(self), *old(self)),
            old(self).stack@.len() == 0 ==> crate::value::is_stack_underflow(r) && final(self).heap == old(self).heap,
            old(self).stack@.len() > 0 ==> ({
                let v = old(self).stack@.last();
                let rest = old(self).stack@.drop_last();
                match v {
                    Value::Float(_) => r == Ok::<VMStatus, PulseError>(VMStatus::FloatOp { op: FloatOp::ToString, lhs: v, rhs: Value::Unit })
                        && final(self).stack@ == rest && final(self).heap == old(self).heap,
                    Value::Obj(h) => if !old(self).heap.live().dom().contains(h.0 as int) {
                        crate::value::is_runtime_error(r) && final(self).heap == old(self).heap
                    } else if old(self).heap.live()[h.0 as int] is String {
                        status_is_running(r) && final(self).stack@ == old(self).stack@ && final(self).heap == old(self).heap
                    } else {
                        &&& status_is_running(r)
                        &&& final(self).stack@.drop_last() == rest
                        &&& final(self).stack@.len() == old(self).stack@.len()
                        &&& final(self).stack@.last() matches Value::Obj(sh)
                        &&& final(self).heap.live()[sh.0 as int] matches Object::String(s)
                        &&& s@ == object_label(old(self).heap.live()[h.0 as int])
                        &&& crate::vm::fresh_obj(old(self).heap, final(self).heap, sh)
                    },
                    _ => {
                        &&& status_is_running(r)
                        &&& final(self).stack@.drop_last() == rest
                        &&& final(self).stack@.len() == old(self).stack@.len()
                        &&& final(self).stack@.last() matches Value::Obj(sh)
                        &&& final(self).heap.live()[sh.0 as int] matches Object::String(s)
                        &&& s@ == primitive_label(v)
                        &&& crate::vm::fresh_obj(old(self).heap, final(self).heap, sh)
                    },
                }
            }),
    {
        let v = self.pop()?;
        let label = match v {
            Value::Float(_) => {
                return Ok(VMStatus::FloatOp { op: FloatOp::ToString, lhs: v, rhs: Value::Unit });
            },
            Value::Int(i) => i64_to_string(i),
            Value::Bool(b) => bool_string(b),
            Value::Unit => text("unit"),
            Value::Pid(p) => {
                let a = digits_string(p.node_id);
                let b = digits_string(p.sequence);
                let mut s = concat3("<pid ", a.as_str(), ":");
                push_str(&mut s, b.as_str());
                push_str(&mut s, ">");
                s
            },
            Value::Obj(h) => {
                proof { self.heap.lemma_wf(); }
                match self.heap.get(h) {
                    None => {
                        return Err(PulseError::RuntimeError(text("Invalid object handle")));
                    },
                    Some(Object::String(_)) => {
                        self.stack.push(v);
                        assert(self.stack@ =~= old(self).stack@);
                        return Ok(VMStatus::Running);
                    },
                    Some(o) => object_label_exec(o),
                }
            },
        };
        let ghost h0 = self.heap;
        let sh = self.heap.allocate(Object::String(label));
        proof {
            assert(self.heap.live() =~= h0.live().insert(sh.0 as int, self.heap.live()[sh.0 as int]));
        }
        self.stack.push(Value::Obj(sh));
        Ok(VMStatus::Running)
    }

    /// Allocates a string and pushes it: how the host hands back text it
    /// computed, such as a formatted float.
    pub fn push_string(&mut self, s: String)
        requires
            old(self).wf(),
        ensures
            final(self).wf(),
            env_eq(*final(self), *old(self)),
            final(self).stack@.drop_last() == old(self).stack@,
            final(self).stack@.len() == old(self).stack@.len() + 1,
            final(self).stack@.last() matches Value::Obj(h) && allocated(old(self).heap, final(self).heap, h, Object::String(s)),
    {
        let h = self.heap.allocate(Object::String(s));
        self.stack.push(Value::Obj(h));
    }

    /// Appends what `print` writes for `v` to `out`.
    fn show(&self, v: Value, depth: usize, out: &mut Vec<OutputPiece>)
        requires
            self.wf(),
        ensures
            pieces_view(final(out)@) == pieces_view(old(out)@) + shown(self.heap, v, depth as nat),
        decreases depth,
    {
        let ghost o0 = out@;
        match v {
            Value::Obj(handle) => {
                match self.heap.get(handle) {
                    None => push_text(out, text("<freed object>")),
                    Some(Object::String(s)) => push_text(out, s.clone()),
                    Some(Object::NativeFn(n)) => push_text(out, concat3("<native fn ", n.name.as_str(), ">")),
                    Some(Object::List(items)) => {
                        if depth == 0 {
                            push_text(out, text("[...]"));
                        } else {
                            push_text(out, text("["));
                            let ghost o1 = out@;
                            let mut i: usize = 0;
                            while i < items.len()
                                invariant
                                    self.wf(),
                                    depth > 0,
                                    i <= items@.len(),
                                    self.heap.live().dom().contains(handle.0 as int),
                                    self.heap.live()[handle.0 as int] == Object::List(*items),
                                    pieces_view(out@) == pieces_view(o1) + shown_items(self.heap, items@.take(i as int), (depth - 1) as nat),
                                decreases items@.len() - i,
                            {
                                proof {
                                    assert(items@.take(i + 1).drop_last() =~= items@.take(i as int));
                                }
                                if i > 0 {
                                    push_text(out, text(", "));
                                }
                                self.show(items[i], depth - 1, out);
                                i = i + 1;
                                proof {
                                    assert(pieces_view(out@) =~= pieces_view(o1) + shown_items(self.heap, items@.take(i as int), (depth - 1) as nat));
                                }
                            }
                            proof {
                                assert(items@.take(i as int) =~= items@);
                            }
                            push_text(out, text("]"));
                        }
                    },
                    Some(Object::Dict(m)) => {
                        if depth == 0 {
                            push_text(out, text("{...}"));
                        } else {
                            push_text(out, text("{"));
                            let ghost o1 = out@;
                            let mut i: usize = 0;
                            while i < m.entries.len()
                                invariant
                                    self.wf(),
                                    depth > 0,
                                    i <= m.entries@.len(),
                                    pieces_view(out@) == pieces_view(o1) + shown_entries(self.heap, m.entries@.take(i as int), (depth - 1) as nat),
                                decreases m.entries@.len() - i,
                            {
                                proof {
                                    assert(m.entries@.take(i + 1).drop_last() =~= m.entries@.take(i as int));
                                }
                                if i > 0 {
                                    push_text(out, text(", "));
                                }
                                let mut key = m.entries[i].0.clone();
                                push_str(&mut key, ": ");
                                push_text(out, key);
                                self.show(m.entries[i].1, depth - 1, out);
                                i = i + 1;
                                proof {
                                    assert(pieces_view(out@) =~= pieces_view(o1) + shown_entries(self.heap, m.entries@.take(i as int), (depth - 1) as nat));
                                }
                            }
                            proof {
                                assert(m.entries@.take(i as int) =~= m.entries@);
                            }
                            push_text(out, text("}"));
                        }
                    },
                    Some(Object::Function(f)) => push_text(out, concat3("<fn ", f.name.as_str(), ">")),
                    Some(Object::Closure(c)) => push_text(out, concat3("<fn ", c.function.name.as_str(), ">")),
                    Some(Object::Module(m)) => {
                        let n = usize_to_string(m.entries.len());
                        push_text(out, concat3("<module len=", n.as_str(), ">"));
                    },
                    Some(o) => push_text(out, object_label_exec(o)),
                }
            },
            Value::Float(f) => {
                out.push(OutputPiece::Float(f));
                proof {
                    assert(pieces_view(out@) =~= pieces_view(o0).push(Piece::Float(f)));
                }
            },
            Value::Pid(p) => {
                let a = digits_string(p.node_id);
                let b = digits_string(p.sequence);
                let mut s = concat3("<actor ActorId { node_id: ", a.as_str(), ", sequence: ");
                push_str(&mut s, b.as_str());
                push_str(&mut s, " }>");
                proof {
                    reveal_strlit("<actor ActorId { node_id: ");
                    reveal_strlit("<actor ");
                    reveal_strlit("ActorId { node_id: ");
                    reveal_strlit(" }>");
                    reveal_strlit(" }");
                    reveal_strlit(">");
                    assert(s@ =~= "<actor "@ + pid_debug(p) + ">"@);
                }
                push_text(out, s);
            },
            Value::Int(i) => push_text(out, i64_to_string(i)),
            Value::Bool(b) => push_text(out, bool_string(b)),
            Value::Unit => push_text(out, text("unit")),
        }
    }

    /// What `op_print` does, from `before` to `after`, giving `r`.
    pub open spec fn print_effect(before: VM, after: VM, r: PulseResult<VMStatus>, count: usize) -> bool {
        &&& (env_eq(after, before))
        &&& (after.heap == before.heap)
        &&& (count > before.stack@.len() ==> crate::value::is_stack_underflow(r))
        &&& (count <= before.stack@.len() ==> ({
                let vals = before.stack@.subrange(before.stack@.len() - count, before.stack@.len() as int);
                &&& after.stack@ == stack_below(before.stack@, count as int)
                &&& r matches Ok(VMStatus::Output(pieces))
                &&& pieces_view(pieces@) == shown_line(before.heap, vals)
            }))
    }

    /// `Print` (one value) and `PrintMulti count`: pops the values and asks
    /// the host to print them on one line, separated by spaces.
    pub(crate) fn op_print(&mut self, count: usize) -> (r: PulseResult<VMStatus>)
        requires
            old(self).wf(),
        ensures
            final(self).wf(),
            env_eq(*final(self), *old(self)),
            final(self).heap == old(self).heap,
            count > old(self).stack@.len() ==> crate::value::is_stack_underflow(r),
            count <= old(self).stack@.len() ==> ({
                let vals = old(self).stack@.subrange(old(self).stack@.len() - count, old(self).stack@.len() as int);
                &&& final(self).stack@ == stack_below(old(self).stack@, count as int)
                &&& r matches Ok(VMStatus::Output(pieces))
                &&& pieces_view(pieces@) == shown_line(old(self).heap, vals)
            }),
    {
        if count > self.stack.len() {
            self.stack.truncate(0);
            return Err(PulseError::StackUnderflow);
        }
        let start = self.stack.len() - count;
        let mut out: Vec<OutputPiece> = Vec::new();
        let mut i = start;
        let ghost vals = self.stack@.subrange(start as int, self.stack@.len() as int);
        proof {
            assert(pieces_view(out@) =~= Seq::<Piece>::empty());
            assert(vals.take(0) =~= Seq::<Value>::empty());
        }
        while i < self.stack.len()
            invariant
                self.wf(),
                *self == *old(self),
                start == self.stack@.len() - count,
                start <= i <= self.stack@.len(),
                vals == self.stack@.subrange(start as int, self.stack@.len() as int),
                pieces_view(out@) == shown_line(self.heap, vals.take(i - start)),
            decreases self.stack@.len() - i,
        {
            proof {
                assert(vals.take(i - start + 1).drop_last() =~= vals.take(i - start));
                assert(vals.take(i - start + 1).last() == self.stack@[i as int]);
            }
            if i > start {
                push_text(&mut out, text(" "));
            }
            self.show(self.stack[i], PRINT_DEPTH, &mut out);
            i = i + 1;
            proof {
                assert(pieces_view(out@) =~= shown_line(self.heap, vals.take(i - start)));
            }
        }
        proof {
            assert(vals.take(i - start) =~= vals);
        }
        self.stack.truncate(start);
        Ok(VMStatus::Output(out))
    }
}


/// What `to_string` writes for a value that is neither a float nor an
/// object: an integer in decimal (reading back as itself), `true` or
/// `false`, `unit`, and a process as `<pid node:sequence>`.
pub proof fn law_primitive_labels(i: i64, p: ActorId)
    ensures
        crate::utils::parsed_int(primitive_label(Value::Int(i))) == Some(i),
        primitive_label(Value::Bool(true)) == "true"@,
        primitive_label(Value::Bool(false)) == "false"@,
        primitive_label(Value::Unit) == "unit"@,
        primitive_label(Value::Pid(p)) == "<pid "@ + nat_digits(p.node_id as nat) + ":"@ + nat_digits(p.sequence as nat) + ">"@,
{
    crate::json::law_int_text_reads_back(i);
}
} // verus!

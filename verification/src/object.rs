use vstd::prelude::*;
use std::collections::VecDeque;
use crate::value::{Value, ObjHandle};
use crate::bytecode::Function;
use crate::namemap::NameMap;

verus! {

/// A function value with the variables it captured.
pub struct Closure {
    pub function: Function,
    pub upvalues: Vec<ObjHandle>,
}

/// A captured variable: open while it lives in a stack slot, closed once the
/// slot is gone and the value moved into it.
#[derive(Clone, Copy)]
pub struct Upvalue {
    pub location: Option<usize>,
    pub closed: Option<Value>,
}

/// A function implemented by the host, known by name.
pub struct NativeFn {
    pub name: String,
    pub is_async: bool,
}

pub struct Class {
    pub name: String,
    pub methods: NameMap<Value>,
    pub superclass: Option<String>,
}

pub struct Instance {
    pub class: Class,
    pub fields: NameMap<Value>,
}

pub struct BoundMethod {
    pub receiver: Value,
    pub method: Function,
}

/// A cell of memory shared between actors, with an advisory lock flag.
#[derive(Clone, Copy, Debug, PartialEq, Eq, Structural)]
pub struct SharedMemory {
    pub value: Value,
    pub locked: bool,
}

/// An object that lives in a heap slot.
pub enum Object {
    String(String),
    List(Vec<Value>),
    Dict(NameMap<Value>),
    Function(Function),
    Closure(Closure),
    Upvalue(Upvalue),
    NativeFn(NativeFn),
    Module(NameMap<Value>),
    Class(Class),
    Instance(Instance),
    BoundMethod(BoundMethod),
    /// A set of strings: each added value is stored by its text.
    StringSet(NameMap<()>),
    Queue(VecDeque<Value>),
    SharedMemory(SharedMemory),
}

pub open spec fn entry_values(m: NameMap<Value>) -> Seq<Value> {
    m.entries@.map_values(|e: (String, Value)| e.1)
}

pub open spec fn handle_values(hs: Seq<ObjHandle>) -> Seq<Value> {
    hs.map_values(|h: ObjHandle| Value::Obj(h))
}

/// The name maps inside an object have no name twice.
pub open spec fn obj_wf(o: Object) -> bool {
    match o {
        Object::Dict(m) => m.wf(),
        Object::Module(m) => m.wf(),
        Object::Class(c) => c.methods.wf(),
        Object::Instance(i) => i.fields.wf() && i.class.methods.wf(),
        Object::StringSet(s) => s.wf(),
        _ => true,
    }
}

/// The values an object holds: the references the collector follows.
pub open spec fn child_values(o: Object) -> Seq<Value> {
    match o {
        Object::List(v) => v@,
        Object::Dict(m) => entry_values(m),
        Object::Module(m) => entry_values(m),
        Object::Closure(c) => handle_values(c.upvalues@),
        Object::Upvalue(u) => match u.closed {
            Some(v) => seq![v],
            None => Seq::empty(),
        },
        Object::Class(c) => entry_values(c.methods),
        Object::Instance(i) => entry_values(i.fields) + entry_values(i.class.methods),
        Object::BoundMethod(b) => seq![b.receiver],
        Object::Queue(q) => q@,
        Object::SharedMemory(s) => seq![s.value],
        _ => Seq::empty(),
    }
}

/// The slots an object refers to.
pub open spec fn refers_to(o: Object, h: usize) -> bool {
    exists|i: int| 0 <= i < child_values(o).len() && #[trigger] child_values(o)[i] == Value::Obj(ObjHandle(h))
}

pub fn entry_values_of(m: &NameMap<Value>) -> (r: Vec<Value>)
    ensures
        r@ == entry_values(*m),
{
    let mut r: Vec<Value> = Vec::new();
    let mut i: usize = 0;
    while i < m.entries.len()
        invariant
            i <= m.entries@.len(),
            r@ == m.entries@.subrange(0, i as int).map_values(|e: (String, Value)| e.1),
        decreases m.entries@.len() - i,
    {
        r.push(m.entries[i].1);
        i = i + 1;
        assert(m.entries@.subrange(0, i as int).map_values(|e: (String, Value)| e.1) =~= m.entries@.subrange(0, i - 1).map_values(|e: (String, Value)| e.1).push(m.entries@[i - 1].1));
    }
    assert(m.entries@.subrange(0, i as int) =~= m.entries@);
    r
}

pub fn vec_copy(v: &Vec<Value>) -> (r: Vec<Value>)
    ensures
        r@ == v@,
{
    let mut r: Vec<Value> = Vec::new();
    let mut i: usize = 0;
    while i < v.len()
        invariant
            i <= v@.len(),
            r@ == v@.subrange(0, i as int),
        decreases v@.len() - i,
    {
        r.push(v[i]);
        i = i + 1;
        assert(r@ =~= v@.subrange(0, i as int));
    }
    assert(v@.subrange(0, i as int) =~= v@);
    r
}

impl Object {
    /// The values this object holds (see `child_values`).
    pub fn children(&self) -> (r: Vec<Value>)
        ensures
            r@ == child_values(*self),
    {
        match self {
            Object::List(v) => vec_copy(v),
            Object::Dict(m) => entry_values_of(m),
            Object::Module(m) => entry_values_of(m),
            Object::Closure(c) => {
                let mut r: Vec<Value> = Vec::new();
                let mut i: usize = 0;
                while i < c.upvalues.len()
                    invariant
                        i <= c.upvalues@.len(),
                        r@ == handle_values(c.upvalues@.subrange(0, i as int)),
                    decreases c.upvalues@.len() - i,
                {
                    r.push(Value::Obj(c.upvalues[i]));
                    i = i + 1;
                    assert(handle_values(c.upvalues@.subrange(0, i as int)) =~= handle_values(c.upvalues@.subrange(0, i - 1)).push(Value::Obj(c.upvalues@[i - 1])));
                }
                assert(c.upvalues@.subrange(0, i as int) =~= c.upvalues@);
                r
            },
            Object::Upvalue(u) => match u.closed {
                Some(v) => {
                    let r = vec![v];
                    assert(r@ =~= seq![v]);
                    r
                },
                None => {
                    let r: Vec<Value> = Vec::new();
                    assert(r@ =~= Seq::<Value>::empty());
                    r
                },
            },
            Object::Class(c) => entry_values_of(&c.methods),
            Object::Instance(inst) => {
                let mut a = entry_values_of(&inst.fields);
                let mut b = entry_values_of(&inst.class.methods);
                a.append(&mut b);
                a
            },
            Object::BoundMethod(b) => {
                let r = vec![b.receiver];
                assert(r@ =~= seq![b.receiver]);
                r
            },
            Object::Queue(q) => {
                let mut r: Vec<Value> = Vec::new();
                let mut i: usize = 0;
                while i < q.len()
                    invariant
                        i <= q@.len(),
                        r@ == q@.subrange(0, i as int),
                    decreases q@.len() - i,
                {
                    r.push(q[i]);
                    i = i + 1;
                    assert(r@ =~= q@.subrange(0, i as int));
                }
                assert(q@.subrange(0, i as int) =~= q@);
                r
            },
            Object::SharedMemory(s) => {
                let r = vec![s.value];
                assert(r@ =~= seq![s.value]);
                r
            },
            _ => {
                let r: Vec<Value> = Vec::new();
                assert(r@ =~= child_values(*self));
                r
            },
        }
    }
}

impl Class {
    /// A copy with the same name, methods and superclass.
    pub fn copy(&self) -> (r: Class)
        ensures
            r.name@ == self.name@,
            r.methods.entries@ == self.methods.entries@,
            r.methods@ == self.methods@,
            r.superclass == self.superclass,
    {
        Class {
            name: self.name.clone(),
            methods: self.methods.copy(),
            superclass: crate::bytecode::copy_opt_string(&self.superclass),
        }
    }
}

/// `n * k`, or `usize::MAX` when that does not fit.
pub fn sat_mul(n: usize, k: usize) -> (r: usize)
    ensures
        r == if n * k <= usize::MAX { (n * k) as usize } else { usize::MAX },
{
    match n.checked_mul(k) {
        Some(x) => x,
        None => usize::MAX,
    }
}

/// `a + b`, or `usize::MAX` when that does not fit.
pub fn sat_add(a: usize, b: usize) -> (r: usize)
    ensures
        r == if a + b <= usize::MAX { (a + b) as usize } else { usize::MAX },
{
    a.saturating_add(b)
}

pub open spec fn clamp(n: nat) -> usize {
    if n <= usize::MAX { n as usize } else { usize::MAX }
}

/// The rough number of bytes an object accounts for, as the collector's
/// trigger counts them. A string counts its UTF-8 length.
pub open spec fn size_estimate(o: Object, shared_memory_size: int) -> usize {
    match o {
        Object::String(s) => vstd::utf8::encode_utf8(s@).len() as usize,
        Object::List(v) => clamp(v@.len() * 8),
        Object::Dict(m) => clamp(m.entries@.len() * 16),
        Object::Function(_) => 64,
        Object::Closure(_) => 32,
        Object::Upvalue(_) => 16,
        Object::NativeFn(_) => 16,
        Object::Module(m) => clamp(m.entries@.len() * 16),
        Object::Class(_) => 32,
        Object::Instance(i) => clamp(32 + i.fields.entries@.len() * 16 as nat),
        Object::BoundMethod(_) => 32,
        Object::StringSet(s) => clamp(s.entries@.len() * 8),
        Object::Queue(q) => clamp(q@.len() * 8),
        Object::SharedMemory(_) => shared_memory_size as usize,
    }
}

impl Object {
    /// Size estimate, counting a shared-memory cell as `shared_memory_size`.
    pub fn estimate_size(&self, shared_memory_size: usize) -> (r: usize)
        ensures
            r == size_estimate(*self, shared_memory_size as int),
    {
        match self {
            Object::String(s) => s.as_str().len(),
            Object::List(v) => sat_mul(v.len(), 8),
            Object::Dict(m) => sat_mul(m.entries.len(), 16),
            Object::Function(_) => 64,
            Object::Closure(_) => 32,
            Object::Upvalue(_) => 16,
            Object::NativeFn(_) => 16,
            Object::Module(m) => sat_mul(m.entries.len(), 16),
            Object::Class(_) => 32,
            Object::Instance(i) => sat_add(32, sat_mul(i.fields.entries.len(), 16)),
            Object::BoundMethod(_) => 32,
            Object::StringSet(s) => sat_mul(s.entries.len(), 8),
            Object::Queue(q) => sat_mul(q.len(), 8),
            Object::SharedMemory(_) => shared_memory_size,
        }
    }
}

} // verus!

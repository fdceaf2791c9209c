use vstd::prelude::*;

verus! {

/// Identity of an actor: the node it runs on and its sequence number there.
#[derive(Clone, Copy, Debug, PartialEq, Eq, Structural)]
pub struct ActorId {
    pub node_id: u64,
    pub sequence: u64,
}

impl ActorId {
    pub fn new(node_id: u64, sequence: u64) -> (r: ActorId)
        ensures
            r.node_id == node_id,
            r.sequence == sequence,
    {
        ActorId { node_id, sequence }
    }
}

/// Index of an object slot in a heap.
#[derive(Clone, Copy, Debug, PartialEq, Eq, Structural)]
pub struct ObjHandle(pub usize);

/// A value of the Pulse language. A float is held by its IEEE-754 bit pattern:
/// arithmetic on it is done by the host (see `VMStatus::FloatOp`).
#[derive(Clone, Copy, Debug, PartialEq, Eq, Structural)]
pub enum Value {
    Bool(bool),
    Int(i64),
    Float(u64),
    Unit,
    Pid(ActorId),
    Obj(ObjHandle),
}

/// Errors raised by the interpreter and the native functions.
#[derive(Debug)]
pub enum PulseError {
    RuntimeError(String),
    TypeMismatch { expected: String, got: String },
    StackUnderflow,
    UndefinedVariable(String),
    /// The computation reached a floating-point operation, which only the
    /// host can perform; the host runs its own version of the function.
    NeedsFloatHost,
}

pub type PulseResult<T> = Result<T, PulseError>;

/// An owned copy of a string slice.
pub fn text(s: &str) -> (r: String)
    ensures
        r@ == s@,
{
    s.to_owned()
}

pub open spec fn is_runtime_error<T>(r: PulseResult<T>) -> bool {
    r matches Err(PulseError::RuntimeError(_))
}

pub open spec fn is_type_mismatch<T>(r: PulseResult<T>) -> bool {
    r matches Err(PulseError::TypeMismatch { .. })
}

pub open spec fn is_stack_underflow<T>(r: PulseResult<T>) -> bool {
    r matches Err(PulseError::StackUnderflow)
}

pub open spec fn is_float_host<T>(r: PulseResult<T>) -> bool {
    r matches Err(PulseError::NeedsFloatHost)
}

pub open spec fn runtime_error(msg: String) -> PulseError {
    PulseError::RuntimeError(msg)
}

/// The name of a value's kind, as error messages report it.
pub open spec fn spec_kind_name(v: Value) -> Seq<char> {
    match v {
        Value::Bool(_) => "Bool"@,
        Value::Int(_) => "Int"@,
        Value::Float(_) => "Float"@,
        Value::Unit => "Unit"@,
        Value::Pid(_) => "Pid"@,
        Value::Obj(_) => "Object"@,
    }
}

impl Value {
    pub fn kind_name(&self) -> (r: String)
        ensures
            r@ == spec_kind_name(*self),
    {
        proof {
            reveal_strlit("Bool");
            reveal_strlit("Int");
            reveal_strlit("Float");
            reveal_strlit("Unit");
            reveal_strlit("Pid");
            reveal_strlit("Object");
        }
        match self {
            Value::Bool(_) => text("Bool"),
            Value::Int(_) => text("Int"),
            Value::Float(_) => text("Float"),
            Value::Unit => text("Unit"),
            Value::Pid(_) => text("Pid"),
            Value::Obj(_) => text("Object"),
        }
    }

    /// The integer a value holds; any other kind is a type mismatch.
    pub fn as_int(&self) -> (r: PulseResult<i64>)
        ensures
            match *self {
                Value::Int(i) => r == Ok::<i64, PulseError>(i),
                _ => is_type_mismatch(r),
            },
    {
        match self {
            Value::Int(i) => Ok(*i),
            _ => Err(PulseError::TypeMismatch { expected: text("int"), got: self.kind_name() }),
        }
    }

    pub open spec fn obj_handle(self) -> Option<usize> {
        match self {
            Value::Obj(h) => Some(h.0),
            _ => None,
        }
    }
}

} // verus!

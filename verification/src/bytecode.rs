use vstd::prelude::*;
use std::sync::Arc;


verus! {

/// The instructions of the Pulse bytecode. Each is encoded as one byte, its
/// position in this list; operands follow it in the code.
#[derive(Clone, Copy, Debug, PartialEq, Eq, Structural)]
pub enum Op {
    Halt,
    Pop,
    Dup,
    IsList,
    IsMap,
    Len,
    MapContainsKey,
    Slide,
    ToString,
    Slice,
    Eq,
    Neq,
    Gt,
    Lt,
    And,
    Or,
    Const,
    Add,
    Sub,
    Mul,
    Div,
    Mod,
    Jump,
    JumpIfFalse,
    Call,
    Return,
    Closure,
    GetUpvalue,
    SetUpvalue,
    CloseUpvalue,
    GetLocal,
    SetLocal,
    GetGlobal,
    SetGlobal,
    DefineGlobal,
    Print,
    PrintMulti,
    Negate,
    Not,
    Loop,
    SelfId,
    Send,
    Receive,
    Spawn,
    SpawnLink,
    Link,
    Monitor,
    Register,
    Unregister,
    WhereIs,
    Import,
    BuildList,
    BuildMap,
    GetIndex,
    SetIndex,
    Unit,
    Try,
    EndTry,
    Throw,
    BuildClass,
    GetSuper,
    Method,
    CreateSharedMemory,
    ReadSharedMemory,
    WriteSharedMemory,
    LockSharedMemory,
    UnlockSharedMemory,
}

/// The byte that encodes an instruction.
pub open spec fn spec_op_byte(op: Op) -> u8 {
    match op {
        Op::Halt => 0u8,
        Op::Pop => 1u8,
        Op::Dup => 2u8,
        Op::IsList => 3u8,
        Op::IsMap => 4u8,
        Op::Len => 5u8,
        Op::MapContainsKey => 6u8,
        Op::Slide => 7u8,
        Op::ToString => 8u8,
        Op::Slice => 9u8,
        Op::Eq => 10u8,
        Op::Neq => 11u8,
        Op::Gt => 12u8,
        Op::Lt => 13u8,
        Op::And => 14u8,
        Op::Or => 15u8,
        Op::Const => 16u8,
        Op::Add => 17u8,
        Op::Sub => 18u8,
        Op::Mul => 19u8,
        Op::Div => 20u8,
        Op::Mod => 21u8,
        Op::Jump => 22u8,
        Op::JumpIfFalse => 23u8,
        Op::Call => 24u8,
        Op::Return => 25u8,
        Op::Closure => 26u8,
        Op::GetUpvalue => 27u8,
        Op::SetUpvalue => 28u8,
        Op::CloseUpvalue => 29u8,
        Op::GetLocal => 30u8,
        Op::SetLocal => 31u8,
        Op::GetGlobal => 32u8,
        Op::SetGlobal => 33u8,
        Op::DefineGlobal => 34u8,
        Op::Print => 35u8,
        Op::PrintMulti => 36u8,
        Op::Negate => 37u8,
        Op::Not => 38u8,
        Op::Loop => 39u8,
        Op::SelfId => 40u8,
        Op::Send => 41u8,
        Op::Receive => 42u8,
        Op::Spawn => 43u8,
        Op::SpawnLink => 44u8,
        Op::Link => 45u8,
        Op::Monitor => 46u8,
        Op::Register => 47u8,
        Op::Unregister => 48u8,
        Op::WhereIs => 49u8,
        Op::Import => 50u8,
        Op::BuildList => 51u8,
        Op::BuildMap => 52u8,
        Op::GetIndex => 53u8,
        Op::SetIndex => 54u8,
        Op::Unit => 55u8,
        Op::Try => 56u8,
        Op::EndTry => 57u8,
        Op::Throw => 58u8,
        Op::BuildClass => 59u8,
        Op::GetSuper => 60u8,
        Op::Method => 61u8,
        Op::CreateSharedMemory => 62u8,
        Op::ReadSharedMemory => 63u8,
        Op::WriteSharedMemory => 64u8,
        Op::LockSharedMemory => 65u8,
        Op::UnlockSharedMemory => 66u8,
    }
}

/// The instruction a byte encodes, if any.
pub open spec fn spec_op_of_byte(b: u8) -> Option<Op> {
    if b == 0u8 {
        Some(Op::Halt)
    } else if b == 1u8 {
        Some(Op::Pop)
    } else if b == 2u8 {
        Some(Op::Dup)
    } else if b == 3u8 {
        Some(Op::IsList)
    } else if b == 4u8 {
        Some(Op::IsMap)
    } else if b == 5u8 {
        Some(Op::Len)
    } else if b == 6u8 {
        Some(Op::MapContainsKey)
    } else if b == 7u8 {
        Some(Op::Slide)
    } else if b == 8u8 {
        Some(Op::ToString)
    } else if b == 9u8 {
        Some(Op::Slice)
    } else if b == 10u8 {
        Some(Op::Eq)
    } else if b == 11u8 {
        Some(Op::Neq)
    } else if b == 12u8 {
        Some(Op::Gt)
    } else if b == 13u8 {
        Some(Op::Lt)
    } else if b == 14u8 {
        Some(Op::And)
    } else if b == 15u8 {
        Some(Op::Or)
    } else if b == 16u8 {
        Some(Op::Const)
    } else if b == 17u8 {
        Some(Op::Add)
    } else if b == 18u8 {
        Some(Op::Sub)
    } else if b == 19u8 {
        Some(Op::Mul)
    } else if b == 20u8 {
        Some(Op::Div)
    } else if b == 21u8 {
        Some(Op::Mod)
    } else if b == 22u8 {
        Some(Op::Jump)
    } else if b == 23u8 {
        Some(Op::JumpIfFalse)
    } else if b == 24u8 {
        Some(Op::Call)
    } else if b == 25u8 {
        Some(Op::Return)
    } else if b == 26u8 {
        Some(Op::Closure)
    } else if b == 27u8 {
        Some(Op::GetUpvalue)
    } else if b == 28u8 {
        Some(Op::SetUpvalue)
    } else if b == 29u8 {
        Some(Op::CloseUpvalue)
    } else if b == 30u8 {
        Some(Op::GetLocal)
    } else if b == 31u8 {
        Some(Op::SetLocal)
    } else if b == 32u8 {
        Some(Op::GetGlobal)
    } else if b == 33u8 {
        Some(Op::SetGlobal)
    } else if b == 34u8 {
        Some(Op::DefineGlobal)
    } else if b == 35u8 {
        Some(Op::Print)
    } else if b == 36u8 {
        Some(Op::PrintMulti)
    } else if b == 37u8 {
        Some(Op::Negate)
    } else if b == 38u8 {
        Some(Op::Not)
    } else if b == 39u8 {
        Some(Op::Loop)
    } else if b == 40u8 {
        Some(Op::SelfId)
    } else if b == 41u8 {
        Some(Op::Send)
    } else if b == 42u8 {
        Some(Op::Receive)
    } else if b == 43u8 {
        Some(Op::Spawn)
    } else if b == 44u8 {
        Some(Op::SpawnLink)
    } else if b == 45u8 {
        Some(Op::Link)
    } else if b == 46u8 {
        Some(Op::Monitor)
    } else if b == 47u8 {
        Some(Op::Register)
    } else if b == 48u8 {
        Some(Op::Unregister)
    } else if b == 49u8 {
        Some(Op::WhereIs)
    } else if b == 50u8 {
        Some(Op::Import)
    } else if b == 51u8 {
        Some(Op::BuildList)
    } else if b == 52u8 {
        Some(Op::BuildMap)
    } else if b == 53u8 {
        Some(Op::GetIndex)
    } else if b == 54u8 {
        Some(Op::SetIndex)
    } else if b == 55u8 {
        Some(Op::Unit)
    } else if b == 56u8 {
        Some(Op::Try)
    } else if b == 57u8 {
        Some(Op::EndTry)
    } else if b == 58u8 {
        Some(Op::Throw)
    } else if b == 59u8 {
        Some(Op::BuildClass)
    } else if b == 60u8 {
        Some(Op::GetSuper)
    } else if b == 61u8 {
        Some(Op::Method)
    } else if b == 62u8 {
        Some(Op::CreateSharedMemory)
    } else if b == 63u8 {
        Some(Op::ReadSharedMemory)
    } else if b == 64u8 {
        Some(Op::WriteSharedMemory)
    } else if b == 65u8 {
        Some(Op::LockSharedMemory)
    } else if b == 66u8 {
        Some(Op::UnlockSharedMemory)
    } else {
        None
    }
}

impl Op {
    pub fn to_byte(self) -> (b: u8)
        ensures
            b == spec_op_byte(self),
    {
        match self {
            Op::Halt => 0,
            Op::Pop => 1,
            Op::Dup => 2,
            Op::IsList => 3,
            Op::IsMap => 4,
            Op::Len => 5,
            Op::MapContainsKey => 6,
            Op::Slide => 7,
            Op::ToString => 8,
            Op::Slice => 9,
            Op::Eq => 10,
            Op::Neq => 11,
            Op::Gt => 12,
            Op::Lt => 13,
            Op::And => 14,
            Op::Or => 15,
            Op::Const => 16,
            Op::Add => 17,
            Op::Sub => 18,
            Op::Mul => 19,
            Op::Div => 20,
            Op::Mod => 21,
            Op::Jump => 22,
            Op::JumpIfFalse => 23,
            Op::Call => 24,
            Op::Return => 25,
            Op::Closure => 26,
            Op::GetUpvalue => 27,
            Op::SetUpvalue => 28,
            Op::CloseUpvalue => 29,
            Op::GetLocal => 30,
            Op::SetLocal => 31,
            Op::GetGlobal => 32,
            Op::SetGlobal => 33,
            Op::DefineGlobal => 34,
            Op::Print => 35,
            Op::PrintMulti => 36,
            Op::Negate => 37,
            Op::Not => 38,
            Op::Loop => 39,
            Op::SelfId => 40,
            Op::Send => 41,
            Op::Receive => 42,
            Op::Spawn => 43,
            Op::SpawnLink => 44,
            Op::Link => 45,
            Op::Monitor => 46,
            Op::Register => 47,
            Op::Unregister => 48,
            Op::WhereIs => 49,
            Op::Import => 50,
            Op::BuildList => 51,
            Op::BuildMap => 52,
            Op::GetIndex => 53,
            Op::SetIndex => 54,
            Op::Unit => 55,
            Op::Try => 56,
            Op::EndTry => 57,
            Op::Throw => 58,
            Op::BuildClass => 59,
            Op::GetSuper => 60,
            Op::Method => 61,
            Op::CreateSharedMemory => 62,
            Op::ReadSharedMemory => 63,
            Op::WriteSharedMemory => 64,
            Op::LockSharedMemory => 65,
            Op::UnlockSharedMemory => 66,
        }
    }

    pub fn from_byte(b: u8) -> (r: Option<Op>)
        ensures
            r == spec_op_of_byte(b),
    {
        match b {
            0 => Some(Op::Halt),
            1 => Some(Op::Pop),
            2 => Some(Op::Dup),
            3 => Some(Op::IsList),
            4 => Some(Op::IsMap),
            5 => Some(Op::Len),
            6 => Some(Op::MapContainsKey),
            7 => Some(Op::Slide),
            8 => Some(Op::ToString),
            9 => Some(Op::Slice),
            10 => Some(Op::Eq),
            11 => Some(Op::Neq),
            12 => Some(Op::Gt),
            13 => Some(Op::Lt),
            14 => Some(Op::And),
            15 => Some(Op::Or),
            16 => Some(Op::Const),
            17 => Some(Op::Add),
            18 => Some(Op::Sub),
            19 => Some(Op::Mul),
            20 => Some(Op::Div),
            21 => Some(Op::Mod),
            22 => Some(Op::Jump),
            23 => Some(Op::JumpIfFalse),
            24 => Some(Op::Call),
            25 => Some(Op::Return),
            26 => Some(Op::Closure),
            27 => Some(Op::GetUpvalue),
            28 => Some(Op::SetUpvalue),
            29 => Some(Op::CloseUpvalue),
            30 => Some(Op::GetLocal),
            31 => Some(Op::SetLocal),
            32 => Some(Op::GetGlobal),
            33 => Some(Op::SetGlobal),
            34 => Some(Op::DefineGlobal),
            35 => Some(Op::Print),
            36 => Some(Op::PrintMulti),
            37 => Some(Op::Negate),
            38 => Some(Op::Not),
            39 => Some(Op::Loop),
            40 => Some(Op::SelfId),
            41 => Some(Op::Send),
            42 => Some(Op::Receive),
            43 => Some(Op::Spawn),
            44 => Some(Op::SpawnLink),
            45 => Some(Op::Link),
            46 => Some(Op::Monitor),
            47 => Some(Op::Register),
            48 => Some(Op::Unregister),
            49 => Some(Op::WhereIs),
            50 => Some(Op::Import),
            51 => Some(Op::BuildList),
            52 => Some(Op::BuildMap),
            53 => Some(Op::GetIndex),
            54 => Some(Op::SetIndex),
            55 => Some(Op::Unit),
            56 => Some(Op::Try),
            57 => Some(Op::EndTry),
            58 => Some(Op::Throw),
            59 => Some(Op::BuildClass),
            60 => Some(Op::GetSuper),
            61 => Some(Op::Method),
            62 => Some(Op::CreateSharedMemory),
            63 => Some(Op::ReadSharedMemory),
            64 => Some(Op::WriteSharedMemory),
            65 => Some(Op::LockSharedMemory),
            66 => Some(Op::UnlockSharedMemory),
            _ => None,
        }
    }
}

/// Decoding the byte of an instruction gives the instruction back.
pub proof fn lemma_op_byte_roundtrip(op: Op)
    ensures
        spec_op_of_byte(spec_op_byte(op)) == Some(op),
{
}

/// A byte decodes to an instruction exactly when it is below the number of
/// instructions, and then encoding that instruction gives the byte back.
pub proof fn lemma_byte_op_roundtrip(b: u8)
    ensures
        spec_op_of_byte(b) is Some <==> b < 67,
        spec_op_of_byte(b) matches Some(op) ==> spec_op_byte(op) == b,
{
}

/// A literal of a chunk's constant pool.
pub enum Constant {
    Bool(bool),
    Int(i64),
    /// A float by its IEEE-754 bit pattern.
    Float(u64),
    Unit,
    String(String),
    Function(Box<Function>),
}

/// Compiled code: instruction bytes, the source line of each byte, and the
/// constant pool.
pub struct Chunk {
    pub code: Vec<u8>,
    pub lines: Vec<usize>,
    pub constants: Vec<Constant>,
}

impl Chunk {
    pub fn new() -> (c: Chunk)
        ensures
            c.code@.len() == 0,
            c.lines@.len() == 0,
            c.constants@.len() == 0,
    {
        Chunk { code: Vec::new(), lines: Vec::new(), constants: Vec::new() }
    }

    /// Appends one byte of code, from source line `line`.
    pub fn write(&mut self, byte: u8, line: usize)
        ensures
            final(self).code@ == old(self).code@.push(byte),
            final(self).lines@ == old(self).lines@.push(line),
            final(self).constants@ == old(self).constants@,
    {
        self.code.push(byte);
        self.lines.push(line);
    }

    /// Appends a constant to the pool and returns its index.
    pub fn add_constant(&mut self, c: Constant) -> (idx: usize)
        ensures
            idx == old(self).constants@.len(),
            final(self).constants@ == old(self).constants@.push(c),
            final(self).code@ == old(self).code@,
            final(self).lines@ == old(self).lines@,
    {
        self.constants.push(c);
        self.constants.len() - 1
    }
}

/// A compiled function.
pub struct Function {
    pub arity: usize,
    pub chunk: Arc<Chunk>,
    pub name: String,
    pub upvalue_count: usize,
    pub source_path: Option<String>,
}

/// Another handle on the same chunk.
#[verifier::external_body]
pub fn share_chunk(c: &Arc<Chunk>) -> (r: Arc<Chunk>)
    ensures
        r == *c,
{
    Arc::clone(c)
}

pub fn copy_opt_string(s: &Option<String>) -> (r: Option<String>)
    ensures
        r == *s,
{
    match s {
        Some(x) => Some(x.clone()),
        None => None,
    }
}

impl Constant {
    /// A copy of the constant; a function shares its chunk.
    pub fn copy(&self) -> (r: Constant)
        ensures
            r == *self,
    {
        match self {
            Constant::Bool(b) => Constant::Bool(*b),
            Constant::Int(i) => Constant::Int(*i),
            Constant::Float(f) => Constant::Float(*f),
            Constant::Unit => Constant::Unit,
            Constant::String(s) => Constant::String(s.clone()),
            Constant::Function(f) => Constant::Function(Box::new((**f).copy())),
        }
    }
}

impl Function {
    /// A copy that shares the chunk.
    pub fn copy(&self) -> (r: Function)
        ensures
            r == *self,
    {
        Function {
            arity: self.arity,
            chunk: share_chunk(&self.chunk),
            name: self.name.clone(),
            upvalue_count: self.upvalue_count,
            source_path: copy_opt_string(&self.source_path),
        }
    }
}

} // verus!

//! Instructions, and the chunk that holds them with their constants.

use vstd::prelude::*;
use crate::value::{Value, ValueView, views};

verus! {

/// One instruction of the stack machine, with the operand it needs.
///
/// An `index` refers to the chunk's constant pool, a `slot` to a position of
/// the operand stack counted from 1, and an `offset` is a number of
/// instructions counted from the instruction that follows the jump.
#[derive(Clone, Copy, Debug, PartialEq, Eq, Structural)]
pub enum OpCode {
    Constant(usize),
    True,
    False,
    Null,
    Not,
    Negate,
    Equal,
    NotEqual,
    Greater,
    GreaterEqual,
    Less,
    LessEqual,
    Add,
    Subtract,
    Multiply,
    Divide,
    Pop,
    DefineGlobal(usize),
    GetGlobal(usize),
    SetGlobal(usize),
    GetLocal(usize),
    SetLocal(usize),
    JumpIfFalse(usize),
    Jump(usize),
    Loop(usize),
    Return,
}

/// The number of values that an instruction takes from the stack or looks
/// at. `Pop` and `Return` make do with an empty stack; the compiler never
/// emits them where the stack can be empty.
pub open spec fn needs(op: OpCode) -> int {
    match op {
        OpCode::Constant(_)
        | OpCode::True
        | OpCode::False
        | OpCode::Null
        | OpCode::GetGlobal(_)
        | OpCode::GetLocal(_)
        | OpCode::Jump(_)
        | OpCode::Loop(_) => 0,
        OpCode::Not
        | OpCode::Negate
        | OpCode::Pop
        | OpCode::DefineGlobal(_)
        | OpCode::SetGlobal(_)
        | OpCode::SetLocal(_)
        | OpCode::JumpIfFalse(_)
        | OpCode::Return => 1,
        OpCode::Equal
        | OpCode::NotEqual
        | OpCode::Greater
        | OpCode::GreaterEqual
        | OpCode::Less
        | OpCode::LessEqual
        | OpCode::Add
        | OpCode::Subtract
        | OpCode::Multiply
        | OpCode::Divide => 2,
    }
}

/// By how many values an instruction that succeeds makes the stack higher,
/// once the host has answered where the instruction is arithmetic.
pub open spec fn effect(op: OpCode) -> int {
    match op {
        OpCode::Constant(_)
        | OpCode::True
        | OpCode::False
        | OpCode::Null
        | OpCode::GetGlobal(_)
        | OpCode::GetLocal(_) => 1,
        OpCode::Not
        | OpCode::Negate
        | OpCode::DefineGlobal(_)
        | OpCode::SetLocal(_)
        | OpCode::JumpIfFalse(_)
        | OpCode::Jump(_)
        | OpCode::Loop(_) => 0,
        OpCode::Pop
        | OpCode::SetGlobal(_)
        | OpCode::Return
        | OpCode::Equal
        | OpCode::NotEqual
        | OpCode::Greater
        | OpCode::GreaterEqual
        | OpCode::Less
        | OpCode::LessEqual
        | OpCode::Add
        | OpCode::Subtract
        | OpCode::Multiply
        | OpCode::Divide => -1,
    }
}

/// Whether an instruction carries a jump offset.
pub open spec fn is_jump(op: OpCode) -> bool {
    op is JumpIfFalse || op is Jump || op is Loop
}

/// The instruction `op` with its jump offset replaced by `offset`; an
/// instruction that is no jump is returned as it is.
pub open spec fn with_offset(op: OpCode, offset: usize) -> OpCode {
    match op {
        OpCode::JumpIfFalse(_) => OpCode::JumpIfFalse(offset),
        OpCode::Jump(_) => OpCode::Jump(offset),
        OpCode::Loop(_) => OpCode::Loop(offset),
        other => other,
    }
}

/// Whether the instruction `op`, at position `at` of a chunk of `length`
/// instructions with the given constants, refers only to what the chunk
/// holds: a constant that is in the pool, and is text where the instruction
/// takes it for the name of a global; a jump target that is an instruction
/// of the chunk or the end of it.
pub open spec fn sound_op(op: OpCode, at: int, length: nat, constants: Seq<ValueView>) -> bool {
    match op {
        OpCode::Constant(index) => index < constants.len(),
        OpCode::DefineGlobal(index) | OpCode::GetGlobal(index) | OpCode::SetGlobal(index) => index
            < constants.len() && constants[index as int] is String,
        OpCode::JumpIfFalse(offset) | OpCode::Jump(offset) => at + 1 + offset <= length,
        OpCode::Loop(offset) => offset <= at + 1,
        _ => true,
    }
}

/// Whether the instruction at `at` refers only to what `chunk` holds.
pub open spec fn sound_at(chunk: ChunkView, at: int) -> bool {
    sound_op(chunk.code[at], at, chunk.code.len(), chunk.constants)
}

/// Whether every instruction of `chunk` refers only to what the chunk holds.
pub open spec fn sound(chunk: ChunkView) -> bool {
    forall|at: int|
        0 <= at < chunk.code.len() ==> sound_op(
            #[trigger] chunk.code[at],
            at,
            chunk.code.len(),
            chunk.constants,
        )
}

/// Whether the instructions and the constants of `chunk` can each be
/// counted in a `usize`, as those of every [`Chunk`] can.
pub open spec fn fits(chunk: ChunkView) -> bool {
    chunk.code.len() <= usize::MAX && chunk.constants.len() <= usize::MAX
}

/// A sequence of instructions and the pool of constants they refer to.
///
/// Both only grow. The one change ever made to an instruction that is
/// already in place is to the offset of a jump, see [`Chunk::patch_jump`].
#[derive(Debug)]
pub struct Chunk {
    code: Vec<OpCode>,
    constants: Vec<Value>,
}

/// The mathematical content of a [`Chunk`].
pub struct ChunkView {
    pub code: Seq<OpCode>,
    pub constants: Seq<ValueView>,
}

impl View for Chunk {
    type V = ChunkView;

    closed spec fn view(&self) -> ChunkView {
        ChunkView { code: self.code@, constants: views(self.constants@) }
    }
}

impl Chunk {
    /// A chunk holds no more instructions and no more constants than can be
    /// counted in a `usize`.
    pub proof fn lemma_bounded(&self)
        ensures
            self@.code.len() <= usize::MAX,
            self@.constants.len() <= usize::MAX,
            fits(self@),
    {
        assert(self.code.len() == self.code@.len());
        assert(self.constants.len() == self.constants@.len());
    }

    /// An empty chunk.
    pub fn new() -> (chunk: Chunk)
        ensures
            chunk@.code == Seq::<OpCode>::empty(),
            chunk@.constants == Seq::<ValueView>::empty(),
    {
        let chunk = Chunk { code: Vec::new(), constants: Vec::new() };
        assert(views(chunk.constants@) =~= Seq::<ValueView>::empty());
        chunk
    }

    /// The number of instructions.
    pub fn len(&self) -> (n: usize)
        ensures
            n == self@.code.len(),
    {
        self.code.len()
    }

    /// The number of constants.
    pub fn constants_len(&self) -> (n: usize)
        ensures
            n == self@.constants.len(),
    {
        self.constants.len()
    }

    /// Adds an instruction at the end and returns its position.
    pub fn append(&mut self, instruction: OpCode) -> (position: usize)
        ensures
            position == old(self)@.code.len(),
            final(self)@.code == old(self)@.code.push(instruction),
            final(self)@.constants == old(self)@.constants,
    {
        let position = self.code.len();
        self.code.push(instruction);
        position
    }

    /// Adds a constant at the end of the pool and returns its index. A value that
    /// the pool already holds is added again.
    pub fn add_constant(&mut self, value: Value) -> (index: usize)
        ensures
            index == old(self)@.constants.len(),
            final(self)@.constants == old(self)@.constants.push(value@),
            final(self)@.code == old(self)@.code,
    {
        let index = self.constants.len();
        self.constants.push(value);
        assert(views(self.constants@) =~= views(old(self).constants@).push(value@));
        index
    }

    /// The instruction at `position`, or `None` past the end.
    pub fn get(&self, position: usize) -> (instruction: Option<OpCode>)
        ensures
            position < self@.code.len() ==> instruction == Some(self@.code[position as int]),
            position >= self@.code.len() ==> instruction.is_none(),
    {
        if position < self.code.len() {
            Some(self.code[position])
        } else {
            None
        }
    }

    /// The constant at `index`, or `None` where the pool has no such index.
    pub fn get_constant(&self, index: usize) -> (constant: Option<&Value>)
        ensures
            index < self@.constants.len() ==> constant.is_some()
                && constant.unwrap()@ == self@.constants[index as int],
            index >= self@.constants.len() ==> constant.is_none(),
    {
        if index < self.constants.len() {
            Some(&self.constants[index])
        } else {
            None
        }
    }

    /// Sets the offset of the jump at `position` and tells whether it did:
    /// where `position` is past the end or holds no jump, nothing changes.
    pub fn patch_jump(&mut self, position: usize, offset: usize) -> (patched: bool)
        ensures
            patched == (position < old(self)@.code.len() && is_jump(
                old(self)@.code[position as int],
            )),
            patched ==> final(self)@.code == old(self)@.code.update(
                position as int,
                with_offset(old(self)@.code[position as int], offset),
            ),
            !patched ==> final(self)@.code == old(self)@.code,
            final(self)@.constants == old(self)@.constants,
    {
        if position >= self.code.len() {
            return false;
        }
        let patched = match self.code[position] {
            OpCode::JumpIfFalse(_) => Some(OpCode::JumpIfFalse(offset)),
            OpCode::Jump(_) => Some(OpCode::Jump(offset)),
            OpCode::Loop(_) => Some(OpCode::Loop(offset)),
            _ => None,
        };
        match patched {
            Some(instruction) => {
                self.code.set(position, instruction);
                true
            },
            None => false,
        }
    }
}

} // verus!

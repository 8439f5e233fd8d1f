//! What compiling means: the code that each construct of the language
//! stands for, as functions on the compiler's state.
//!
//! Every function here takes the state before a construct and gives the state
//! after it, together with whether the construct was well formed. The
//! compiler in [`crate::compiler`] is proved to compute exactly these
//! functions.

use vstd::prelude::*;
use crate::chunk::{ChunkView, OpCode, effect, fits, sound, with_offset};
use crate::diagnostic::{ErrorKind, message};
use crate::token::{TokenType, TokenView};
use crate::value::ValueView;

verus! {

/// A local variable: its name, the stack slot that holds it, counted from 1,
/// and the depth of the block that declared it.
pub struct LocalView {
    pub name: Seq<char>,
    pub slot: usize,
    pub depth: int,
}

/// The state of a compilation.
pub struct CompilerView {
    /// The tokens of the program.
    pub tokens: Seq<TokenView>,
    /// The index of the token that is read next.
    pub position: nat,
    /// The instructions and constants emitted so far.
    pub chunk: ChunkView,
    /// The local variables in scope, innermost last.
    pub locals: Seq<LocalView>,
    /// The number of blocks that are open.
    pub depth: int,
    /// The height of the stack before each instruction that was emitted.
    pub heights: Seq<int>,
    /// The height of the stack before the instruction that is emitted next.
    pub height: int,
    /// The diagnostics recorded so far.
    pub errors: Seq<Seq<char>>,
}

/// The state in which compiling `tokens` starts: at the first token, with
/// nothing emitted, no block open and no diagnostic.
pub open spec fn start(tokens: Seq<TokenView>) -> CompilerView {
    CompilerView {
        tokens,
        position: 0,
        chunk: ChunkView { code: Seq::empty(), constants: Seq::empty() },
        locals: Seq::empty(),
        depth: 0,
        heights: Seq::empty(),
        height: 0,
        errors: Seq::empty(),
    }
}

/// The lowest binding power: that of `==` and `!=`.
pub const LOWEST: u8 = 1;

/// The binding power of the operand of a unary operator, above that of every
/// binary operator.
pub const UNARY: u8 = 5;

/// The lowest binding power, as a mathematical integer.
pub open spec fn lowest() -> int {
    LOWEST as int
}

/// The binding power of the operand of a unary operator, as a
/// mathematical integer.
pub open spec fn unary() -> int {
    UNARY as int
}

/// The binding power of a binary operator and the instruction it compiles to.
pub open spec fn binary(kind: TokenType) -> Option<(int, OpCode)> {
    match kind {
        TokenType::Equal => Some((1, OpCode::Equal)),
        TokenType::NotEqual => Some((1, OpCode::NotEqual)),
        TokenType::Less => Some((2, OpCode::Less)),
        TokenType::LessEqual => Some((2, OpCode::LessEqual)),
        TokenType::Greater => Some((2, OpCode::Greater)),
        TokenType::GreaterEqual => Some((2, OpCode::GreaterEqual)),
        TokenType::Plus => Some((3, OpCode::Add)),
        TokenType::Minus => Some((3, OpCode::Subtract)),
        TokenType::Star => Some((4, OpCode::Multiply)),
        TokenType::Slash => Some((4, OpCode::Divide)),
        _ => None,
    }
}

/// The slot of the innermost local variable called `name`, if there is one.
pub open spec fn slot_of(locals: Seq<LocalView>, name: Seq<char>) -> Option<usize>
    decreases locals.len(),
{
    if locals.len() == 0 {
        None
    } else if locals.last().name == name {
        Some(locals.last().slot)
    } else {
        slot_of(locals.drop_last(), name)
    }
}

impl CompilerView {
    /// What holds of every state that the compiler is ever in: the position
    /// is within the tokens or just after them; every open block has had its
    /// `{` read; every local variable was declared in a block that is still
    /// open, and has its value on the stack; every value on the stack was
    /// pushed by an instruction; a height is on record for every
    /// instruction, which is no more than the number of instructions before
    /// it; and, in a chunk that fits in memory, every instruction refers
    /// only to constants and instructions that the chunk holds.
    pub open spec fn well_formed(self) -> bool {
        &&& self.position <= self.tokens.len()
        &&& 0 <= self.depth <= self.position
        &&& self.locals.len() <= self.height
        &&& self.height <= self.chunk.code.len()
        &&& self.heights.len() == self.chunk.code.len()
        &&& forall|i: int| 0 <= i < self.heights.len() ==> 0 <= (#[trigger] self.heights[i]) <= i
        &&& forall|i: int|
            0 <= i < self.locals.len() ==> 1 <= (#[trigger] self.locals[i]).depth <= self.depth
        &&& fits(self.chunk) ==> sound(self.chunk)
    }

    /// The number of tokens that are not read yet.
    pub open spec fn remaining(self) -> nat {
        if self.position <= self.tokens.len() {
            (self.tokens.len() - self.position) as nat
        } else {
            0
        }
    }

    /// The kind of the token that is read next; `Eof` past the last token.
    pub open spec fn kind(self) -> TokenType {
        self.kind_at(0)
    }

    /// The kind of the token `ahead` places after the one that is read next.
    pub open spec fn kind_at(self, ahead: int) -> TokenType {
        if 0 <= self.position + ahead < self.tokens.len() {
            self.tokens[self.position + ahead].kind
        } else {
            TokenType::Eof
        }
    }

    /// The token that is read next.
    pub open spec fn token(self) -> TokenView {
        self.tokens[self.position as int]
    }

    /// The state after reading one token. `Eof` is never read past.
    pub open spec fn advance(self) -> CompilerView {
        if self.kind() is Eof {
            self
        } else {
            CompilerView { position: self.position + 1, ..self }
        }
    }

    /// The state after reading a `;`, where one is next.
    pub open spec fn end_statement(self) -> CompilerView {
        if self.kind() is Semicolon {
            self.advance()
        } else {
            self
        }
    }

    /// The state that a part of a construct leaves, seen from the state
    /// `self` in which the part began: `after`, over the same tokens, at a
    /// position between that of `self` and the end of the tokens. No part
    /// ever moves backwards or past the end, so this is `after` itself.
    pub open spec fn resume(self, after: CompilerView) -> CompilerView {
        CompilerView {
            tokens: self.tokens,
            position: if after.position < self.position {
                self.position
            } else if after.position > self.tokens.len() && self.position <= self.tokens.len() {
                self.tokens.len()
            } else {
                after.position
            },
            ..after
        }
    }

    /// The state with `op` added to the instructions: the height of the
    /// stack before it goes on record, and the height after it is what the
    /// instruction makes of it.
    pub open spec fn emit(self, op: OpCode) -> CompilerView {
        CompilerView {
            chunk: ChunkView { code: self.chunk.code.push(op), ..self.chunk },
            heights: self.heights.push(self.height),
            height: self.height + effect(op),
            ..self
        }
    }

    /// The state with `height` as the height of the stack before the next
    /// instruction: for an instruction that is reached by a jump only.
    pub open spec fn at_height(self, height: int) -> CompilerView {
        CompilerView { height, ..self }
    }

    /// The state with `value` added to the constants.
    pub open spec fn constant(self, value: ValueView) -> CompilerView {
        CompilerView {
            chunk: ChunkView { constants: self.chunk.constants.push(value), ..self.chunk },
            ..self
        }
    }

    /// The index that the next constant gets.
    pub open spec fn next_index(self) -> usize {
        self.chunk.constants.len() as usize
    }

    /// The state with `value` added to the constants and the instruction that
    /// pushes it.
    pub open spec fn load(self, value: ValueView) -> CompilerView {
        self.constant(value).emit(OpCode::Constant(self.next_index()))
    }

    /// The state with the diagnostic for `kind` recorded.
    pub open spec fn fail(self, kind: ErrorKind) -> CompilerView {
        CompilerView { errors: self.errors.push(message(kind)), ..self }
    }

    /// The state with the instruction that pushes the variable `name`: a
    /// local where one of that name is in scope, a global otherwise, whose
    /// name goes to the constants.
    pub open spec fn read(self, name: Seq<char>) -> CompilerView {
        match slot_of(self.locals, name) {
            Some(slot) => self.emit(OpCode::GetLocal(slot)),
            None => self.constant(ValueView::String(name)).emit(
                OpCode::GetGlobal(self.next_index()),
            ),
        }
    }

    /// The state with the instructions that store the top of the stack in the
    /// variable `name` and take it off the stack: a local where one of that
    /// name is in scope, a global otherwise.
    pub open spec fn write(self, name: Seq<char>) -> CompilerView {
        match slot_of(self.locals, name) {
            Some(slot) => self.emit(OpCode::SetLocal(slot)).emit(OpCode::Pop),
            None => self.constant(ValueView::String(name)).emit(
                OpCode::SetGlobal(self.next_index()),
            ),
        }
    }

    /// The state after declaring the variable `name`, whose value the code
    /// emitted so far leaves on top of the stack, where it stays. Outside
    /// every block the variable is a global, defined by an instruction. In
    /// a block it is a local, and the slot that its value is in, the topmost,
    /// is all there is to record.
    pub open spec fn declare(self, name: Seq<char>) -> CompilerView {
        if self.depth == 0 {
            self.constant(ValueView::String(name)).emit(OpCode::DefineGlobal(self.next_index()))
        } else {
            CompilerView {
                locals: self.locals.push(
                    LocalView { name, slot: self.height as usize, depth: self.depth },
                ),
                ..self
            }
        }
    }

    /// The state with the offset of the jump at `at` set to `offset`.
    pub open spec fn set_jump(self, at: int, offset: int) -> CompilerView {
        CompilerView {
            chunk: ChunkView {
                code: self.chunk.code.update(
                    at,
                    with_offset(self.chunk.code[at], offset as usize),
                ),
                ..self.chunk
            },
            ..self
        }
    }

    /// The state with the forward jump at `at` aimed at the instruction that
    /// is emitted next: its offset is the number of instructions that follow
    /// the jump so far.
    pub open spec fn patch(self, at: int) -> CompilerView {
        self.set_jump(at, self.chunk.code.len() - at - 1)
    }

    /// Whether a statement can start here: at the end of the input, after a
    /// `;`, or at a token that starts or ends a statement.
    pub open spec fn at_boundary(self) -> bool {
        ||| self.kind() is Eof
        ||| self.kind() is Let
        ||| self.kind() is If
        ||| self.kind() is While
        ||| self.kind() is Return
        ||| self.kind() is LeftBrace
        ||| self.kind() is RightBrace
        ||| self.kind_at(-1) is Semicolon
    }
}

/// An operand: a literal, a variable, an expression in parentheses, or a
/// unary operator and its operand, followed by the operator's instruction.
pub open spec fn prefix_spec(c: CompilerView) -> (CompilerView, bool)
    decreases c.remaining(), 0nat,
{
    match c.kind() {
        TokenType::Number => match c.token().number {
            Some(bits) => (c.load(ValueView::Number(bits)).advance(), true),
            None => (c.fail(ErrorKind::NumberNotRead), false),
        },
        TokenType::String => (c.load(ValueView::String(c.token().lexeme)).advance(), true),
        TokenType::True => (c.emit(OpCode::True).advance(), true),
        TokenType::False => (c.emit(OpCode::False).advance(), true),
        TokenType::Null => (c.emit(OpCode::Null).advance(), true),
        TokenType::Identifier => (c.read(c.token().lexeme).advance(), true),
        TokenType::LeftParen => {
            let (inner, ok) = expression_spec(c.advance(), lowest());
            if !ok {
                (inner, false)
            } else if inner.kind() is RightParen {
                (inner.advance(), true)
            } else {
                (inner.fail(ErrorKind::ExpectedRightParen), false)
            }
        },
        TokenType::Minus => {
            let (operand, ok) = expression_spec(c.advance(), unary());
            if ok {
                (operand.emit(OpCode::Negate), true)
            } else {
                (operand, false)
            }
        },
        TokenType::Bang => {
            let (operand, ok) = expression_spec(c.advance(), unary());
            if ok {
                (operand.emit(OpCode::Not), true)
            } else {
                (operand, false)
            }
        },
        _ => (c.fail(ErrorKind::ExpectedExpression), false),
    }
}

/// An expression whose binary operators all bind at least as strongly as
/// `min`: an operand, then operators with their right operands. The code of
/// the left operand comes first, then that of the right operand, then the
/// operator's instruction; operators of one binding power group to the left.
pub open spec fn expression_spec(c: CompilerView, min: int) -> (CompilerView, bool)
    decreases c.remaining(), 2nat,
{
    let (first, ok) = prefix_spec(c);
    if ok {
        infix_spec(c.resume(first), min)
    } else {
        (first, false)
    }
}

/// The operators that follow an operand, with their right operands, as far
/// as they bind at least as strongly as `min`.
pub open spec fn infix_spec(c: CompilerView, min: int) -> (CompilerView, bool)
    decreases c.remaining(), 1nat,
{
    match binary(c.kind()) {
        Some((power, op)) if power >= min => {
            let (right, ok) = expression_spec(c.advance(), power + 1);
            if ok {
                infix_spec(c.advance().resume(right).emit(op), min)
            } else {
                (right, false)
            }
        },
        _ => (c, true),
    }
}

/// The state after the local variables of the innermost open block have
/// gone: each is dropped from the scope, and an instruction takes its value
/// off the stack.
pub open spec fn drop_locals(c: CompilerView) -> CompilerView
    decreases c.locals.len(),
{
    if c.locals.len() > 0 && c.locals.last().depth >= c.depth {
        drop_locals(CompilerView { locals: c.locals.drop_last(), ..c }.emit(OpCode::Pop))
    } else {
        c
    }
}

/// The state after the tokens up to the next place where a statement can
/// start have been passed over.
pub open spec fn skip_spec(c: CompilerView) -> CompilerView
    decreases c.remaining(),
{
    if c.at_boundary() {
        c
    } else {
        skip_spec(c.advance())
    }
}

/// The recovery from a malformed statement that started at `start`: the
/// compiler goes on at the next place where a statement can start, and at
/// least one token after `start`.
pub open spec fn synchronize(c: CompilerView, start: nat) -> CompilerView {
    if c.position == start {
        skip_spec(c.advance())
    } else {
        skip_spec(c)
    }
}

/// `let name = expression`: the code of the expression, then the declaration
/// of the variable.
pub open spec fn let_spec(c: CompilerView) -> (CompilerView, bool) {
    let named = c.advance();
    if !(named.kind() is Identifier) {
        (named.fail(ErrorKind::ExpectedName), false)
    } else if !(named.kind_at(1) is Assign) {
        (named.advance().fail(ErrorKind::ExpectedAssign), false)
    } else {
        let (value, ok) = expression_spec(named.advance().advance(), lowest());
        if ok {
            (value.declare(named.token().lexeme).end_statement(), true)
        } else {
            (value, false)
        }
    }
}

/// `name = expression`: the code of the expression, then the store.
pub open spec fn assignment_spec(c: CompilerView) -> (CompilerView, bool) {
    let (value, ok) = expression_spec(c.advance().advance(), lowest());
    if ok {
        (value.write(c.token().lexeme).end_statement(), true)
    } else {
        (value, false)
    }
}

/// `return expression`: the code of the expression, then `Return`.
pub open spec fn return_spec(c: CompilerView) -> (CompilerView, bool) {
    let (value, ok) = expression_spec(c.advance(), lowest());
    if ok {
        (value.emit(OpCode::Return).end_statement(), true)
    } else {
        (value, false)
    }
}

/// An expression as a statement. Outside every block its value stays on the
/// stack; in a block an instruction takes it off.
pub open spec fn expression_statement_spec(c: CompilerView) -> (CompilerView, bool) {
    let (value, ok) = expression_spec(c, lowest());
    if !ok {
        (value, false)
    } else if value.depth == 0 {
        (value.end_statement(), true)
    } else {
        (value.emit(OpCode::Pop).end_statement(), true)
    }
}

/// One statement.
pub open spec fn statement_spec(c: CompilerView) -> (CompilerView, bool)
    decreases c.remaining(), 1nat,
{
    match c.kind() {
        TokenType::Semicolon => (c.advance(), true),
        TokenType::Let => let_spec(c),
        TokenType::Return => return_spec(c),
        TokenType::If => if_spec(c),
        TokenType::While => while_spec(c),
        TokenType::LeftBrace => block_spec(c),
        TokenType::Identifier if c.kind_at(1) is Assign => assignment_spec(c),
        _ => expression_statement_spec(c),
    }
}

/// One statement, and the recovery where it is malformed.
pub open spec fn declaration_spec(c: CompilerView) -> (CompilerView, bool)
    decreases c.remaining(), 2nat,
{
    let (done, ok) = statement_spec(c);
    if ok {
        (done, true)
    } else {
        (synchronize(done, c.position), false)
    }
}

/// The statements up to the next `}` that closes a block, or to the end of
/// the input.
pub open spec fn items_spec(c: CompilerView) -> CompilerView
    decreases c.remaining(), 3nat,
{
    if c.kind() is RightBrace || c.kind() is Eof {
        c
    } else {
        let next = c.resume(declaration_spec(c).0);
        if next.position > c.position {
            items_spec(next)
        } else {
            next
        }
    }
}

/// A block: `{`, statements, `}`. The variables declared in it are local to
/// it, and leave the stack at its end.
pub open spec fn block_spec(c: CompilerView) -> (CompilerView, bool)
    decreases c.remaining(), 0nat,
{
    if !(c.kind() is LeftBrace) {
        (c.fail(ErrorKind::ExpectedLeftBrace), false)
    } else {
        let body = items_spec(CompilerView { depth: c.depth + 1, ..c.advance() });
        let closed = CompilerView { depth: body.depth - 1, ..drop_locals(body) };
        if body.kind() is RightBrace {
            (closed.advance(), true)
        } else {
            (closed.fail(ErrorKind::ExpectedRightBrace), false)
        }
    }
}

/// `if condition { .. }`, with `else { .. }` or without.
///
/// Without `else` the code is: the condition; a `JumpIfFalse` over the
/// block; the block; a `Pop` for the condition, which the `JumpIfFalse` aims
/// at. With `else` it is: the condition; a `JumpIfFalse` to the second
/// block; the first block; a `Jump` over the second block; the second
/// block; a `Pop` for the condition, which the `Jump` aims at. A jump is
/// emitted with offset 0 and patched when its target is known. The value of
/// the condition stays on the stack while either block runs.
pub open spec fn if_spec(c: CompilerView) -> (CompilerView, bool)
    decreases c.remaining(), 0nat,
{
    let (condition, ok) = expression_spec(c.advance(), lowest());
    if !ok {
        (condition, false)
    } else {
        let test = c.advance().resume(condition);
        let branch = test.chunk.code.len() as int;
        let (first, first_ok) = block_spec(test.emit(OpCode::JumpIfFalse(0)));
        let decided = test.resume(first);
        if !first_ok {
            (first, false)
        } else if decided.kind() is Else {
            let skip = decided.chunk.code.len() as int;
            let (second, second_ok) = block_spec(
                decided.emit(OpCode::Jump(0)).patch(branch).advance(),
            );
            if second_ok {
                (second.patch(skip).emit(OpCode::Pop), true)
            } else {
                (second, false)
            }
        } else {
            (decided.patch(branch).emit(OpCode::Pop), true)
        }
    }
}

/// `while condition { .. }`.
///
/// The code is: the condition; a `JumpIfFalse` out of the loop, patched when
/// the loop is complete; a `Pop` for the condition; the block; a `Loop` back
/// to the first instruction of the condition, whose distance is known when
/// the `Loop` is emitted; a `Pop` for the condition, which the `JumpIfFalse`
/// aims at, and which is reached from there only, with the stack as high as
/// the condition left it.
pub open spec fn while_spec(c: CompilerView) -> (CompilerView, bool)
    decreases c.remaining(), 0nat,
{
    let start = c.chunk.code.len() as int;
    let (condition, ok) = expression_spec(c.advance(), lowest());
    if !ok {
        (condition, false)
    } else {
        let test = c.advance().resume(condition);
        let exit = test.chunk.code.len() as int;
        let (body, body_ok) = block_spec(test.emit(OpCode::JumpIfFalse(0)).emit(OpCode::Pop));
        if !body_ok {
            (body, false)
        } else {
            let back = body.chunk.code.len() as int;
            (
                body.emit(OpCode::Loop((back + 1 - start) as usize)).at_height(test.height).patch(
                    exit,
                ).emit(OpCode::Pop),
                true,
            )
        }
    }
}

/// A whole program: statements to the end of the input. A `}` that closes no
/// block is reported and passed over.
pub open spec fn program_spec(c: CompilerView) -> CompilerView
    decreases c.remaining(), 4nat,
{
    let body = c.resume(items_spec(c));
    if body.kind() is RightBrace {
        program_spec(body.fail(ErrorKind::UnexpectedRightBrace).advance())
    } else {
        body
    }
}

} // verus!

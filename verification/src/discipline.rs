//! The stack discipline of compiled code.
//!
//! The compiler keeps on record how high the stack is before every
//! instruction it emits. This module says what it means for code to keep to
//! such a record, and proves that the code of every program that compiles
//! without a diagnostic does: whichever way an instruction is reached, the
//! stack is as high before it as the record says, which is high enough for
//! the operands it takes and for the slots it reads and writes.

use vstd::prelude::*;
use crate::chunk::{OpCode, effect, fits, needs, sound, sound_op, with_offset};
use crate::diagnostic::ErrorKind;
use crate::grammar::{
    CompilerView, LocalView, binary, block_spec, declaration_spec, drop_locals, expression_spec,
    expression_statement_spec, if_spec, infix_spec, items_spec, lowest, prefix_spec, program_spec,
    skip_spec, slot_of, start, statement_spec, unary, while_spec,
};
use crate::number::{ArithOp, zero};
use crate::progress::{
    lemma_block, lemma_block_drops_its_locals, lemma_declaration, lemma_drop_locals,
    lemma_expression, lemma_if, lemma_infix, lemma_items, lemma_prefix, lemma_program,
    lemma_statement, lemma_while,
};
use crate::token::{TokenType, TokenView};
use crate::value::ValueView;
use crate::vm::{
    InterpretResult, MachineView, SignalView, boot, driven, name_at, step_spec, supplied,
};

verus! {

/// The height on record for the position `at`: that before the instruction
/// at `at`, or `end`, the height after the last instruction, where `at` is
/// the end of the code.
pub open spec fn height_at(heights: Seq<int>, end: int, at: int) -> int {
    if 0 <= at < heights.len() {
        heights[at]
    } else {
        end
    }
}

/// Whether the instruction `op` at position `at` keeps to the record.
///
/// The stack is high enough for the operands of the instruction, and for
/// the slot of a `GetLocal` or `SetLocal`. Every position that the
/// instruction can lead to is in the code or at its end, and the height on
/// record there is the height before the instruction, changed as the
/// instruction changes it.
pub open spec fn keeps(op: OpCode, at: int, heights: Seq<int>, end: int) -> bool {
    let before = heights[at];
    let next = height_at(heights, end, at + 1);
    &&& needs(op) <= before
    &&& match op {
        OpCode::Jump(offset) => at + 1 + offset <= heights.len() && height_at(
            heights,
            end,
            at + 1 + offset,
        ) == before,
        OpCode::JumpIfFalse(offset) => at + 1 + offset <= heights.len() && height_at(
            heights,
            end,
            at + 1 + offset,
        ) == before && next == before,
        OpCode::Loop(offset) => offset <= at + 1 && height_at(heights, end, at + 1 - offset)
            == before,
        OpCode::Return => true,
        OpCode::GetLocal(slot) | OpCode::SetLocal(slot) => 1 <= slot <= before && next == before
            + effect(op),
        _ => next == before + effect(op),
    }
}

/// Whether `code` keeps to the record `heights`, with `end` as the height
/// after the last instruction: every instruction does, but for the jumps at
/// the `pending` positions, whose targets are not known yet.
pub open spec fn disciplined(
    code: Seq<OpCode>,
    heights: Seq<int>,
    end: int,
    pending: Set<int>,
) -> bool {
    &&& heights.len() == code.len()
    &&& forall|at: int|
        0 <= at < code.len() && !pending.contains(at) ==> keeps(
            #[trigger] code[at],
            at,
            heights,
            end,
        )
}

/// What holds of the compiler's state between two instructions of a program
/// without a fault so far. The state is well formed, the code keeps to the
/// record of heights, and only jumps that are in the code are pending. The
/// slots of the local variables are on the stack, below `base`, each above
/// those of the variables declared before it.
pub open spec fn orderly(c: CompilerView, pending: Set<int>, base: int) -> bool {
    &&& c.well_formed()
    &&& fits(c.chunk)
    &&& disciplined(c.chunk.code, c.heights, c.height, pending)
    &&& forall|at: int| pending.contains(at) ==> 0 <= at < c.chunk.code.len()
    &&& c.locals.len() <= base <= c.height
    &&& forall|i: int| 0 <= i < c.locals.len() ==> 1 <= (#[trigger] c.locals[i]).slot <= base
    &&& forall|i: int, j: int|
        0 <= i < j < c.locals.len() ==> (#[trigger] c.locals[i]).slot < (
        #[trigger] c.locals[j]).slot
}

/// An instruction that keeps to the record can be added to code that does.
pub proof fn lemma_emit(c: CompilerView, op: OpCode, pending: Set<int>, base: int)
    requires
        orderly(c, pending, base),
        fits(c.emit(op).chunk),
        c.emit(op).well_formed(),
        base <= c.height + effect(op),
        keeps(op, c.chunk.code.len() as int, c.heights.push(c.height), c.height + effect(op)),
    ensures
        orderly(c.emit(op), pending, base),
{
    let d = c.emit(op);
    assert forall|at: int| 0 <= at < d.chunk.code.len() && !pending.contains(at) implies keeps(
        #[trigger] d.chunk.code[at],
        at,
        d.heights,
        d.height,
    ) by {
        if at < c.chunk.code.len() {
            assert(keeps(c.chunk.code[at], at, c.heights, c.height));
        }
    }
}

/// A jump whose offset is set so that it keeps to the record is pending no
/// more.
pub proof fn lemma_set_jump(c: CompilerView, at: int, offset: int, pending: Set<int>, base: int)
    requires
        orderly(c, pending, base),
        0 <= at < c.chunk.code.len(),
        0 <= offset <= usize::MAX,
        c.set_jump(at, offset).well_formed(),
        keeps(with_offset(c.chunk.code[at], offset as usize), at, c.heights, c.height),
    ensures
        orderly(c.set_jump(at, offset), pending.remove(at), base),
{
    let d = c.set_jump(at, offset);
    assert forall|i: int|
        0 <= i < d.chunk.code.len() && !pending.remove(at).contains(i) implies keeps(
        #[trigger] d.chunk.code[i],
        i,
        d.heights,
        d.height,
    ) by {
        if i != at {
            assert(keeps(c.chunk.code[i], i, c.heights, c.height));
        }
    }
}

/// A jump can be added as the last instruction with its target pending,
/// and the height for the next instruction be set as a jump to it will
/// find it: no instruction before the jump leads past the jump.
pub proof fn lemma_emit_jump(c: CompilerView, op: OpCode, height: int, pending: Set<int>, base: int)
    requires
        orderly(c, pending, base),
        op is Jump || op is Loop,
        fits(c.emit(op).chunk),
        c.emit(op).at_height(height).well_formed(),
        base <= height,
    ensures
        orderly(c.emit(op).at_height(height), pending.insert(c.chunk.code.len() as int), base),
{
    let d = c.emit(op).at_height(height);
    let waiting = pending.insert(c.chunk.code.len() as int);
    assert forall|at: int| 0 <= at < d.chunk.code.len() && !waiting.contains(at) implies keeps(
        #[trigger] d.chunk.code[at],
        at,
        d.heights,
        d.height,
    ) by {
        assert(keeps(c.chunk.code[at], at, c.heights, c.height));
    }
}

/// The slot that a name resolves to is the slot of a variable in scope.
pub proof fn lemma_slot_of(c: CompilerView, name: Seq<char>)
    ensures
        slot_of(c.locals, name) matches Some(slot) ==> exists|i: int|
            0 <= i < c.locals.len() && (#[trigger] c.locals[i]).slot == slot,
    decreases c.locals.len(),
{
    if c.locals.len() > 0 && c.locals.last().name != name {
        let rest = CompilerView { locals: c.locals.drop_last(), ..c };
        lemma_slot_of(rest, name);
        if slot_of(rest.locals, name) is Some {
            let i = choose|i: int|
                0 <= i < rest.locals.len() && (#[trigger] rest.locals[i]).slot
                    == slot_of(rest.locals, name)->0;
            assert(c.locals[i] == rest.locals[i]);
        }
    } else if c.locals.len() > 0 {
        assert(c.locals[c.locals.len() - 1].slot == c.locals.last().slot);
    }
}

/// What holds of an expression that was compiled from an orderly state
/// `before`: it is malformed only if it has left a diagnostic, and if it has
/// left none and the chunk fits in memory, the state is orderly again.
pub open spec fn expression_orderly(
    before: CompilerView,
    result: (CompilerView, bool),
    pending: Set<int>,
    base: int,
) -> bool {
    &&& !result.1 ==> result.0.errors.len() > before.errors.len()
    &&& result.1 && fits(result.0.chunk) ==> orderly(result.0, pending, base)
}

/// An operand keeps the state orderly.
pub proof fn lemma_prefix_orderly(c: CompilerView, pending: Set<int>, base: int)
    requires
        orderly(c, pending, base),
    ensures
        expression_orderly(c, prefix_spec(c), pending, base),
    decreases c.remaining(), 0nat,
{
    lemma_prefix(c);
    let (d, ok) = prefix_spec(c);
    if ok && fits(d.chunk) {
        match c.kind() {
            TokenType::Number => {
                let value = ValueView::Number(c.token().number->0);
                lemma_emit(c.constant(value), OpCode::Constant(c.next_index()), pending, base);
            },
            TokenType::String => {
                let value = ValueView::String(c.token().lexeme);
                lemma_emit(c.constant(value), OpCode::Constant(c.next_index()), pending, base);
            },
            TokenType::True => {
                lemma_emit(c, OpCode::True, pending, base);
            },
            TokenType::False => {
                lemma_emit(c, OpCode::False, pending, base);
            },
            TokenType::Null => {
                lemma_emit(c, OpCode::Null, pending, base);
            },
            TokenType::Identifier => {
                let name = c.token().lexeme;
                lemma_slot_of(c, name);
                match slot_of(c.locals, name) {
                    Some(slot) => {
                        lemma_emit(c, OpCode::GetLocal(slot), pending, base);
                    },
                    None => {
                        lemma_emit(
                            c.constant(ValueView::String(name)),
                            OpCode::GetGlobal(c.next_index()),
                            pending,
                            base,
                        );
                    },
                }
            },
            TokenType::LeftParen => {
                lemma_expression(c.advance(), lowest());
                lemma_expression_orderly(c.advance(), lowest(), pending, base);
            },
            TokenType::Minus => {
                lemma_expression(c.advance(), unary());
                lemma_expression_orderly(c.advance(), unary(), pending, base);
                let operand = expression_spec(c.advance(), unary()).0;
                lemma_emit(operand, OpCode::Negate, pending, base);
            },
            TokenType::Bang => {
                lemma_expression(c.advance(), unary());
                lemma_expression_orderly(c.advance(), unary(), pending, base);
                let operand = expression_spec(c.advance(), unary()).0;
                lemma_emit(operand, OpCode::Not, pending, base);
            },
            _ => {},
        }
    } else if !ok {
        match c.kind() {
            TokenType::LeftParen => {
                lemma_expression(c.advance(), lowest());
                lemma_expression_orderly(c.advance(), lowest(), pending, base);
            },
            TokenType::Minus | TokenType::Bang => {
                lemma_expression(c.advance(), unary());
                lemma_expression_orderly(c.advance(), unary(), pending, base);
            },
            _ => {},
        }
    }
}

/// An expression keeps the state orderly.
pub proof fn lemma_expression_orderly(c: CompilerView, min: int, pending: Set<int>, base: int)
    requires
        orderly(c, pending, base),
    ensures
        expression_orderly(c, expression_spec(c, min), pending, base),
    decreases c.remaining(), 2nat,
{
    lemma_prefix(c);
    lemma_prefix_orderly(c, pending, base);
    let (first, ok) = prefix_spec(c);
    if ok {
        lemma_infix(c.resume(first), min);
        if fits(infix_spec(c.resume(first), min).0.chunk) {
            lemma_infix_orderly(c.resume(first), min, pending, base);
        } else {
            lemma_infix_fails_with_error(c.resume(first), min);
        }
    }
}

/// Operators that are malformed leave a diagnostic.
pub proof fn lemma_infix_fails_with_error(c: CompilerView, min: int)
    requires
        c.well_formed(),
        c.locals.len() < c.height,
    ensures
        !infix_spec(c, min).1 ==> infix_spec(c, min).0.errors.len() > c.errors.len(),
    decreases c.remaining(), 1nat,
{
    match binary(c.kind()) {
        Some((power, op)) => {
            if power >= min {
                lemma_expression(c.advance(), power + 1);
                lemma_expression_fails_with_error(c.advance(), power + 1);
                let (right, ok) = expression_spec(c.advance(), power + 1);
                if ok {
                    lemma_infix(c.advance().resume(right).emit(op), min);
                    lemma_infix_fails_with_error(c.advance().resume(right).emit(op), min);
                }
            }
        },
        None => {},
    }
}

/// An operand that is malformed leaves a diagnostic.
pub proof fn lemma_prefix_fails_with_error(c: CompilerView)
    requires
        c.well_formed(),
    ensures
        !prefix_spec(c).1 ==> prefix_spec(c).0.errors.len() > c.errors.len(),
    decreases c.remaining(), 0nat,
{
    match c.kind() {
        TokenType::LeftParen => {
            lemma_expression(c.advance(), lowest());
            lemma_expression_fails_with_error(c.advance(), lowest());
        },
        TokenType::Minus | TokenType::Bang => {
            lemma_expression(c.advance(), unary());
            lemma_expression_fails_with_error(c.advance(), unary());
        },
        _ => {},
    }
}

/// An expression that is malformed leaves a diagnostic.
pub proof fn lemma_expression_fails_with_error(c: CompilerView, min: int)
    requires
        c.well_formed(),
    ensures
        !expression_spec(c, min).1 ==> expression_spec(c, min).0.errors.len() > c.errors.len(),
    decreases c.remaining(), 2nat,
{
    lemma_prefix(c);
    lemma_prefix_fails_with_error(c);
    let (first, ok) = prefix_spec(c);
    if ok {
        lemma_infix(c.resume(first), min);
        lemma_infix_fails_with_error(c.resume(first), min);
    }
}

/// The operators after an operand keep the state orderly.
pub proof fn lemma_infix_orderly(c: CompilerView, min: int, pending: Set<int>, base: int)
    requires
        orderly(c, pending, base),
        base < c.height,
    ensures
        expression_orderly(c, infix_spec(c, min), pending, base),
        infix_spec(c, min).1 && fits(infix_spec(c, min).0.chunk) ==> base < infix_spec(
            c,
            min,
        ).0.height,
    decreases c.remaining(), 1nat,
{
    lemma_infix(c, min);
    lemma_infix_fails_with_error(c, min);
    match binary(c.kind()) {
        Some((power, op)) => {
            if power >= min {
                lemma_expression(c.advance(), power + 1);
                let (right, ok) = expression_spec(c.advance(), power + 1);
                if ok {
                    let joined = c.advance().resume(right).emit(op);
                    lemma_infix(joined, min);
                    if fits(infix_spec(joined, min).0.chunk) {
                        lemma_expression_orderly(c.advance(), power + 1, pending, base);
                        lemma_emit(right, op, pending, base);
                        lemma_infix_orderly(joined, min, pending, base);
                    }
                }
            }
        },
        None => {},
    }
}

/// What holds of a statement that was compiled from an orderly state
/// `before`: it is malformed only if it has left a diagnostic, and if it has
/// left none and the chunk fits in memory, the state is orderly again, with
/// every value on the stack below the next instruction. A statement in a
/// block leaves on the stack only the values of the variables it declares.
pub open spec fn statement_orderly(
    before: CompilerView,
    result: (CompilerView, bool),
    pending: Set<int>,
) -> bool {
    &&& !result.1 ==> result.0.errors.len() > before.errors.len()
    &&& result.0.errors.len() == before.errors.len() && fits(result.0.chunk) ==> {
        &&& orderly(result.0, pending, result.0.height)
        &&& before.depth > 0 ==> result.0.height - result.0.locals.len() == before.height
            - before.locals.len()
    }
}

/// What holds of a block, an `if` or a `while` that was compiled from an
/// orderly state `before`: what holds of a statement, and the stack is as
/// high after it as before.
pub open spec fn block_orderly(
    before: CompilerView,
    result: (CompilerView, bool),
    pending: Set<int>,
) -> bool {
    &&& !result.1 ==> result.0.errors.len() > before.errors.len()
    &&& result.0.errors.len() == before.errors.len() && fits(result.0.chunk) ==> {
        &&& orderly(result.0, pending, result.0.height)
        &&& result.0.height == before.height
        &&& result.0.locals == before.locals
    }
}

/// Dropping the local variables of a block keeps the state orderly.
pub proof fn lemma_drop_locals_orderly(c: CompilerView, pending: Set<int>)
    requires
        c.well_formed(),
        fits(drop_locals(c).chunk),
        orderly(c, pending, c.height),
    ensures
        orderly(drop_locals(c), pending, drop_locals(c).height),
    decreases c.locals.len(),
{
    lemma_drop_locals(c);
    if c.locals.len() > 0 && c.locals.last().depth >= c.depth {
        let fewer = CompilerView { locals: c.locals.drop_last(), ..c };
        let popped = fewer.emit(OpCode::Pop);
        lemma_drop_locals(popped);
        assert forall|i: int| 0 <= i < fewer.locals.len() implies 1 <= (
        #[trigger] fewer.locals[i]).slot <= c.height - 1 by {
            assert(fewer.locals[i] == c.locals[i]);
            assert(c.locals[i].slot < c.locals[c.locals.len() - 1].slot);
        }
        assert forall|i: int, j: int| 0 <= i < j < fewer.locals.len() implies (
        #[trigger] fewer.locals[i]).slot < (#[trigger] fewer.locals[j]).slot by {
            assert(fewer.locals[i] == c.locals[i]);
            assert(fewer.locals[j] == c.locals[j]);
        }
        assert(orderly(fewer, pending, c.height - 1));
        lemma_emit(fewer, OpCode::Pop, pending, c.height - 1);
        lemma_drop_locals_orderly(popped, pending);
    }
}

/// Passing over tokens leaves a diagnostic as it is.
pub proof fn lemma_skip_keeps_errors(c: CompilerView)
    ensures
        skip_spec(c).errors == c.errors,
    decreases c.remaining(),
{
    if !c.at_boundary() {
        lemma_skip_keeps_errors(c.advance());
    }
}

/// A statement keeps the state orderly.
pub proof fn lemma_statement_orderly(c: CompilerView, pending: Set<int>)
    requires
        orderly(c, pending, c.height),
    ensures
        statement_orderly(c, statement_spec(c), pending),
    decreases c.remaining(), 1nat,
{
    lemma_statement(c);
    let (d, ok) = statement_spec(c);
    let base = c.height;
    match c.kind() {
        TokenType::Semicolon => {},
        TokenType::Let => {
            let named = c.advance();
            if named.kind() is Identifier && named.kind_at(1) is Assign {
                let valued = named.advance().advance();
                lemma_expression(valued, lowest());
                lemma_expression_orderly(valued, lowest(), pending, base);
                let (value, value_ok) = expression_spec(valued, lowest());
                if value_ok && fits(d.chunk) {
                    let name = named.token().lexeme;
                    if value.depth == 0 {
                        lemma_emit(
                            value.constant(ValueView::String(name)),
                            OpCode::DefineGlobal(value.next_index()),
                            pending,
                            base,
                        );
                    }
                }
            }
        },
        TokenType::Return => {
            lemma_expression(c.advance(), lowest());
            lemma_expression_orderly(c.advance(), lowest(), pending, base);
            let (value, value_ok) = expression_spec(c.advance(), lowest());
            if value_ok && fits(d.chunk) {
                lemma_emit(value, OpCode::Return, pending, base);
            }
        },
        TokenType::If => {
            lemma_if_orderly(c, pending);
        },
        TokenType::While => {
            lemma_while_orderly(c, pending);
        },
        TokenType::LeftBrace => {
            lemma_block_orderly(c, pending);
        },
        TokenType::Identifier => {
            if c.kind_at(1) is Assign {
                let valued = c.advance().advance();
                lemma_expression(valued, lowest());
                lemma_expression_orderly(valued, lowest(), pending, base);
                let (value, value_ok) = expression_spec(valued, lowest());
                if value_ok && fits(d.chunk) {
                    let name = c.token().lexeme;
                    lemma_slot_of(value, name);
                    match slot_of(value.locals, name) {
                        Some(slot) => {
                            lemma_emit(value, OpCode::SetLocal(slot), pending, base);
                            lemma_emit(
                                value.emit(OpCode::SetLocal(slot)),
                                OpCode::Pop,
                                pending,
                                base,
                            );
                        },
                        None => {
                            lemma_emit(
                                value.constant(ValueView::String(name)),
                                OpCode::SetGlobal(value.next_index()),
                                pending,
                                base,
                            );
                        },
                    }
                }
            } else {
                lemma_expression_statement_orderly(c, pending);
            }
        },
        _ => {
            lemma_expression_statement_orderly(c, pending);
        },
    }
}

/// An expression as a statement keeps the state orderly.
pub proof fn lemma_expression_statement_orderly(c: CompilerView, pending: Set<int>)
    requires
        orderly(c, pending, c.height),
    ensures
        statement_orderly(c, expression_statement_spec(c), pending),
{
    lemma_expression(c, lowest());
    lemma_expression_orderly(c, lowest(), pending, c.height);
    let (value, ok) = expression_spec(c, lowest());
    let d = expression_statement_spec(c).0;
    if ok && fits(d.chunk) && value.depth != 0 {
        lemma_emit(value, OpCode::Pop, pending, c.height);
    }
}

/// A statement with its recovery keeps the state orderly.
pub proof fn lemma_declaration_orderly(c: CompilerView, pending: Set<int>)
    requires
        orderly(c, pending, c.height),
    ensures
        statement_orderly(c, declaration_spec(c), pending),
    decreases c.remaining(), 2nat,
{
    lemma_statement(c);
    lemma_statement_orderly(c, pending);
    let (done, ok) = statement_spec(c);
    if !ok {
        if done.position == c.position {
            lemma_skip_keeps_errors(done.advance());
        } else {
            lemma_skip_keeps_errors(done);
        }
    }
}

/// A sequence of statements keeps the state orderly.
pub proof fn lemma_items_orderly(c: CompilerView, pending: Set<int>)
    requires
        orderly(c, pending, c.height),
    ensures
        items_spec(c).errors.len() == c.errors.len() && fits(items_spec(c).chunk) ==> orderly(
            items_spec(c),
            pending,
            items_spec(c).height,
        ),
        items_spec(c).errors.len() == c.errors.len() && fits(items_spec(c).chunk) && c.depth > 0
            ==> items_spec(c).height - items_spec(c).locals.len() == c.height - c.locals.len(),
    decreases c.remaining(), 3nat,
{
    if !(c.kind() is RightBrace || c.kind() is Eof) {
        lemma_declaration(c);
        lemma_declaration_orderly(c, pending);
        let next = c.resume(declaration_spec(c).0);
        lemma_items(next);
        if items_spec(c).errors.len() == c.errors.len() && fits(items_spec(c).chunk) {
            lemma_items_orderly(next, pending);
        }
    }
}

/// A block keeps the state orderly.
pub proof fn lemma_block_orderly(c: CompilerView, pending: Set<int>)
    requires
        orderly(c, pending, c.height),
    ensures
        block_orderly(c, block_spec(c), pending),
    decreases c.remaining(), 0nat,
{
    lemma_block(c);
    if c.kind() is LeftBrace {
        let opened = CompilerView { depth: c.depth + 1, ..c.advance() };
        lemma_items(opened);
        let body = items_spec(opened);
        lemma_drop_locals(body);
        lemma_block_drops_its_locals(c, body);
        let (d, ok) = block_spec(c);
        if d.errors.len() == c.errors.len() && fits(d.chunk) {
            lemma_items_orderly(opened, pending);
            lemma_drop_locals_orderly(body, pending);
        }
    }
}

/// A block that is malformed leaves a diagnostic.
pub proof fn lemma_block_fails_with_error(c: CompilerView)
    requires
        c.well_formed(),
    ensures
        !block_spec(c).1 ==> block_spec(c).0.errors.len() > c.errors.len(),
{
    if c.kind() is LeftBrace {
        let opened = CompilerView { depth: c.depth + 1, ..c.advance() };
        lemma_items(opened);
        lemma_drop_locals(items_spec(opened));
    }
}

/// The test of a `while`: after a condition that has left its value on the
/// stack, the conditional jump and the `Pop` of the value keep the state
/// orderly, and leave the stack as high as it was before the condition.
pub proof fn lemma_guard(test: CompilerView, pending: Set<int>, base: int)
    requires
        orderly(test, pending, base),
        test.height == base + 1,
        fits(test.emit(OpCode::JumpIfFalse(0)).emit(OpCode::Pop).chunk),
    ensures
        orderly(test.emit(OpCode::JumpIfFalse(0)).emit(OpCode::Pop), pending, base),
        test.emit(OpCode::JumpIfFalse(0)).emit(OpCode::Pop).height == base,
{
    let jumping = test.emit(OpCode::JumpIfFalse(0));
    lemma_emit(test, OpCode::JumpIfFalse(0), pending, base);
    lemma_emit(jumping, OpCode::Pop, pending, base);
}

/// The end of a `while`: after the block, the `Loop` back to the condition,
/// the patch of the conditional jump, which lands after the `Loop`, and the
/// `Pop` that it lands on keep the state orderly.
pub proof fn lemma_close(body: CompilerView, start: int, exit: int, pending: Set<int>, base: int)
    requires
        orderly(body, pending, base),
        body.height == base,
        0 <= start < exit,
        exit + 1 < body.chunk.code.len(),
        body.heights[start] == base,
        body.chunk.code[exit] == OpCode::JumpIfFalse(0),
        body.heights[exit] == base + 1,
        body.heights[exit + 1] == base + 1,
        !pending.contains(exit),
        fits(
            body.emit(OpCode::Loop((body.chunk.code.len() + 1 - start) as usize)).at_height(
                base + 1,
            ).patch(exit).emit(OpCode::Pop).chunk,
        ),
    ensures
        ({
            let back = body.chunk.code.len() as int;
            let closed = body.emit(OpCode::Loop((back + 1 - start) as usize)).at_height(
                base + 1,
            ).patch(exit).emit(OpCode::Pop);
            &&& orderly(closed, pending, base)
            &&& closed.height == base
        }),
{
    let back = body.chunk.code.len() as int;
    let waiting = pending.insert(back);
    let turn = OpCode::Loop((back + 1 - start) as usize);
    let looping = body.emit(turn).at_height(base + 1);
    lemma_emit_jump(body, turn, base + 1, pending, base);
    assert(looping.set_jump(back, back + 1 - start).chunk.code =~= looping.chunk.code);
    lemma_set_jump(looping, back, back + 1 - start, waiting, base);
    assert(waiting.remove(back) =~= pending);
    lemma_set_jump(looping, exit, looping.chunk.code.len() - exit - 1, pending, base);
    assert(pending.remove(exit) =~= pending);
    lemma_emit(looping.patch(exit), OpCode::Pop, pending, base);
}

/// An `if` keeps the state orderly.
pub proof fn lemma_if_orderly(c: CompilerView, pending: Set<int>)
    requires
        orderly(c, pending, c.height),
        c.kind() is If,
    ensures
        block_orderly(c, if_spec(c), pending),
    decreases c.remaining(), 0nat,
{
    lemma_if(c);
    let base = c.height;
    lemma_expression(c.advance(), lowest());
    lemma_expression_fails_with_error(c.advance(), lowest());
    let (condition, ok) = expression_spec(c.advance(), lowest());
    if ok {
        let test = c.advance().resume(condition);
        let branch = test.chunk.code.len() as int;
        let guarded = test.emit(OpCode::JumpIfFalse(0));
        lemma_block(guarded);
        lemma_block_fails_with_error(guarded);
        let (first, first_ok) = block_spec(guarded);
        let decided = test.resume(first);
        if first_ok {
            let skip = first.chunk.code.len() as int;
            let moved = decided.emit(OpCode::Jump(0)).patch(branch).advance();
            if decided.kind() is Else {
                lemma_block(moved);
                lemma_block_fails_with_error(moved);
            }
            let (d, d_ok) = if_spec(c);
            if d.errors.len() == c.errors.len() && fits(d.chunk) {
                lemma_expression_orderly(c.advance(), lowest(), pending, base);
                lemma_emit(test, OpCode::JumpIfFalse(0), pending, base);
                assert(orderly(guarded, pending, base + 1));
                lemma_block_orderly(guarded, pending);
                assert(first.chunk.code[branch] == guarded.chunk.code[branch]);
                assert(first.heights[branch] == guarded.heights[branch]);
                assert(keeps(first.chunk.code[branch], branch, first.heights, first.height));
                if decided.kind() is Else {
                    lemma_if_else_orderly(first, branch, pending, base);
                    lemma_block_orderly(moved, pending);
                    let second = block_spec(moved).0;
                    assert(second.chunk.code[skip] == moved.chunk.code[skip]);
                    assert(second.heights[skip] == moved.heights[skip]);
                    lemma_if_end_orderly(second, skip, c.locals, pending, base);
                } else {
                    lemma_if_end_orderly(first, branch, c.locals, pending, base);
                }
            }
        }
    }
}

/// The middle of an `if` with `else`: after the first block, the `Jump` over
/// the second block and the patch of the conditional jump, which lands
/// after the `Jump`, keep the state orderly.
pub proof fn lemma_if_else_orderly(first: CompilerView, branch: int, pending: Set<int>, base: int)
    requires
        orderly(first, pending, base + 1),
        first.height == base + 1,
        0 <= branch < first.chunk.code.len(),
        first.chunk.code[branch] == OpCode::JumpIfFalse(0),
        first.heights[branch] == base + 1,
        !pending.contains(branch),
        first.kind() is Else,
        fits(first.emit(OpCode::Jump(0)).chunk),
    ensures
        ({
            let skip = first.chunk.code.len() as int;
            let moved = first.emit(OpCode::Jump(0)).patch(branch).advance();
            &&& orderly(moved, pending, base + 1)
            &&& moved.height == base + 1
            &&& moved.chunk.code[skip] == OpCode::Jump(0)
            &&& moved.heights[skip] == base + 1
        }),
{
    let skip = first.chunk.code.len() as int;
    let jumped = first.emit(OpCode::Jump(0));
    assert(keeps(first.chunk.code[branch], branch, first.heights, first.height));
    lemma_emit(first, OpCode::Jump(0), pending, base + 1);
    assert(keeps(jumped.chunk.code[branch], branch, jumped.heights, jumped.height));
    lemma_set_jump(jumped, branch, skip - branch, pending, base + 1);
    assert(pending.remove(branch) =~= pending);
}

/// The end of an `if`: the patch of the jump over the last block, which
/// lands after the block, and the `Pop` of the condition keep the state
/// orderly, and leave the stack as high as it was before the condition.
pub proof fn lemma_if_end_orderly(
    last: CompilerView,
    jump: int,
    locals: Seq<LocalView>,
    pending: Set<int>,
    base: int,
)
    requires
        orderly(last, pending, base + 1),
        last.height == base + 1,
        last.locals == locals,
        locals.len() <= base,
        forall|i: int| 0 <= i < locals.len() ==> (#[trigger] locals[i]).slot <= base,
        0 <= jump < last.chunk.code.len(),
        last.chunk.code[jump] == OpCode::JumpIfFalse(0) || last.chunk.code[jump] == OpCode::Jump(
            0,
        ),
        last.heights[jump] == base + 1,
        !pending.contains(jump),
        fits(last.patch(jump).emit(OpCode::Pop).chunk),
    ensures
        orderly(last.patch(jump).emit(OpCode::Pop), pending, base),
        last.patch(jump).emit(OpCode::Pop).height == base,
{
    assert(keeps(last.chunk.code[jump], jump, last.heights, last.height));
    lemma_set_jump(last, jump, last.chunk.code.len() - jump - 1, pending, base + 1);
    assert(pending.remove(jump) =~= pending);
    let landed = last.patch(jump);
    assert(orderly(landed, pending, base));
    lemma_emit(landed, OpCode::Pop, pending, base);
}

/// A `while` keeps the state orderly.
pub proof fn lemma_while_orderly(c: CompilerView, pending: Set<int>)
    requires
        orderly(c, pending, c.height),
        c.kind() is While,
    ensures
        block_orderly(c, while_spec(c), pending),
    decreases c.remaining(), 0nat,
{
    lemma_while(c);
    let base = c.height;
    let start = c.chunk.code.len() as int;
    lemma_expression(c.advance(), lowest());
    lemma_expression_fails_with_error(c.advance(), lowest());
    let (condition, ok) = expression_spec(c.advance(), lowest());
    if ok {
        let test = c.advance().resume(condition);
        let exit = test.chunk.code.len() as int;
        let guarded = test.emit(OpCode::JumpIfFalse(0)).emit(OpCode::Pop);
        lemma_block(guarded);
        lemma_block_fails_with_error(guarded);
        let (body, body_ok) = block_spec(guarded);
        let (d, d_ok) = while_spec(c);
        if body_ok && d.errors.len() == c.errors.len() && fits(d.chunk) {
            lemma_expression_orderly(c.advance(), lowest(), pending, base);
            lemma_guard(test, pending, base);
            lemma_block_orderly(guarded, pending);
            assert(body.heights[start] == test.heights[start]);
            assert(body.chunk.code[exit] == guarded.chunk.code[exit]);
            assert(body.heights[exit] == guarded.heights[exit]);
            assert(body.heights[exit + 1] == guarded.heights[exit + 1]);
            lemma_close(body, start, exit, pending, base);
        }
    }
}

/// A program keeps the state orderly.
pub proof fn lemma_program_orderly(c: CompilerView, pending: Set<int>)
    requires
        orderly(c, pending, c.height),
    ensures
        program_spec(c).errors.len() == c.errors.len() && fits(program_spec(c).chunk) ==> orderly(
            program_spec(c),
            pending,
            program_spec(c).height,
        ),
    decreases c.remaining(), 4nat,
{
    lemma_items(c);
    let body = c.resume(items_spec(c));
    if body.kind() is RightBrace {
        lemma_program(body.fail(ErrorKind::UnexpectedRightBrace).advance());
    } else if program_spec(c).errors.len() == c.errors.len() && fits(program_spec(c).chunk) {
        lemma_items_orderly(c, pending);
    }
}

/// The code of a program that compiles without a diagnostic keeps to the
/// record of stack heights that the compiler made of it, which starts with
/// an empty stack.
pub proof fn compiled_program_keeps_the_stack_discipline(tokens: Seq<TokenView>)
    requires
        program_spec(start(tokens)).errors.len() == 0,
        fits(program_spec(start(tokens)).chunk),
    ensures
        disciplined(
            program_spec(start(tokens)).chunk.code,
            program_spec(start(tokens)).heights,
            program_spec(start(tokens)).height,
            Set::empty(),
        ),
        height_at(program_spec(start(tokens)).heights, program_spec(start(tokens)).height, 0) == 0,
{
    let c = start(tokens);
    lemma_program(c);
    lemma_program_orderly(c, Set::empty());
}

/// Whether the machine is where the record has it: at an instruction of the
/// chunk or at its end, with a stack as high as the record says for that
/// position.
pub open spec fn on_record(m: MachineView, heights: Seq<int>, end: int) -> bool {
    m.pc <= m.chunk.code.len() && m.stack.len() == height_at(heights, end, m.pc as int)
}

/// Whether the instruction that the machine is at fails for the values that
/// the program has computed: an operand that is not of the kind that the
/// instruction takes, a division by zero, or a global that is not bound.
pub open spec fn faults(m: MachineView) -> bool {
    let top = m.stack.len() - 1;
    m.pc < m.chunk.code.len() && match m.chunk.code[m.pc as int] {
        OpCode::Negate => m.stack.len() >= 1 && !(m.stack[top] is Number),
        OpCode::Greater
        | OpCode::GreaterEqual
        | OpCode::Less
        | OpCode::LessEqual
        | OpCode::Subtract
        | OpCode::Multiply => m.stack.len() >= 2 && !(m.stack[top - 1] is Number && m.stack[top]
            is Number),
        OpCode::Add => m.stack.len() >= 2 && !(m.stack[top - 1] is Number && m.stack[top]
            is Number) && !(m.stack[top - 1] is String && m.stack[top] is String),
        OpCode::Divide => m.stack.len() >= 2 && !(m.stack[top - 1] is Number && m.stack[top]
            is Number && !zero(m.stack[top]->Number_0)),
        OpCode::GetGlobal(index) => name_at(m.chunk, index) matches Some(name)
            && !m.globals.contains_key(name),
        _ => false,
    }
}

/// One step of a machine that is on the record of a chunk that keeps to it.
///
/// Where the machine goes on, it is on the record again, and so it is once
/// the host has answered where the step asks for arithmetic. The step
/// fails with a run-time error only for the values that the program has
/// computed: never for a stack that is too low, a slot that is not on the
/// stack, a constant that is not in the pool, or a jump out of the chunk.
pub proof fn step_keeps_the_stack_discipline(m: MachineView, heights: Seq<int>, end: int)
    requires
        disciplined(m.chunk.code, heights, end, Set::empty()),
        sound(m.chunk),
        fits(m.chunk),
        on_record(m, heights, end),
    ensures
        step_spec(m).0.chunk == m.chunk,
        step_spec(m).1 is Continue ==> on_record(step_spec(m).0, heights, end),
        step_spec(m).1 is Compute ==> forall|bits: u64|
            on_record(#[trigger] supplied(step_spec(m).0, bits), heights, end),
        step_spec(m).1 == SignalView::Halt(InterpretResult::RuntimeError) ==> faults(m),
{
    if m.pc < m.chunk.code.len() {
        let at = m.pc as int;
        assert(keeps(m.chunk.code[at], at, heights, end));
        assert(sound_op(m.chunk.code[at], at, m.chunk.code.len(), m.chunk.constants));
    }
}

/// A run, with the host's arithmetic, of a machine that is on the record of
/// a chunk that keeps to it. Where the run ends for its budget, the machine
/// is on the record. Where it ends with a run-time error, the machine was
/// on the record at an instruction that fails for the values that the
/// program has computed.
pub proof fn run_keeps_the_stack_discipline<F: Fn(ArithOp, u64, u64) -> u64>(
    arithmetic: F,
    m: MachineView,
    budget: nat,
    last: MachineView,
    signal: SignalView,
    heights: Seq<int>,
    end: int,
)
    requires
        disciplined(m.chunk.code, heights, end, Set::empty()),
        sound(m.chunk),
        fits(m.chunk),
        on_record(m, heights, end),
        driven(arithmetic, m, budget, last, signal),
    ensures
        last.chunk == m.chunk,
        signal is Continue ==> on_record(last, heights, end),
        signal == SignalView::Halt(InterpretResult::RuntimeError) ==> exists|at: MachineView|
            at.chunk == m.chunk && on_record(at, heights, end) && #[trigger] faults(at)
                && step_spec(at) == (last, signal),
    decreases budget,
{
    if budget > 0 {
        step_keeps_the_stack_discipline(m, heights, end);
        let (next, now) = step_spec(m);
        match now {
            SignalView::Continue => {
                run_keeps_the_stack_discipline(
                    arithmetic,
                    next,
                    (budget - 1) as nat,
                    last,
                    signal,
                    heights,
                    end,
                );
            },
            SignalView::Compute(op, lhs, rhs) => {
                let result = choose|result: u64|
                    #[trigger] arithmetic.ensures((op, lhs, rhs), result) && driven(
                        arithmetic,
                        supplied(next, result),
                        (budget - 1) as nat,
                        last,
                        signal,
                    );
                run_keeps_the_stack_discipline(
                    arithmetic,
                    supplied(next, result),
                    (budget - 1) as nat,
                    last,
                    signal,
                    heights,
                    end,
                );
            },
            _ => {
                if signal == SignalView::Halt(InterpretResult::RuntimeError) {
                    assert(faults(m));
                }
            },
        }
    }
}

/// A program that compiles without a diagnostic runs on the record that
/// the compiler made of it: a new machine is on the record, and by
/// [`run_keeps_the_stack_discipline`] it stays there, so that it fails only
/// for the values that the program computes.
pub proof fn compiled_program_starts_on_record(tokens: Seq<TokenView>)
    requires
        program_spec(start(tokens)).errors.len() == 0,
        fits(program_spec(start(tokens)).chunk),
    ensures
        disciplined(
            program_spec(start(tokens)).chunk.code,
            program_spec(start(tokens)).heights,
            program_spec(start(tokens)).height,
            Set::empty(),
        ),
        sound(program_spec(start(tokens)).chunk),
        on_record(
            boot(program_spec(start(tokens)).chunk, Map::empty()),
            program_spec(start(tokens)).heights,
            program_spec(start(tokens)).height,
        ),
{
    compiled_program_keeps_the_stack_discipline(tokens);
    lemma_program(start(tokens));
}

} // verus!

//! Compiling only ever adds: whatever construct is compiled, the tokens stay,
//! the position moves forward and stays within the tokens, and the
//! instructions, constants and diagnostics that were there before are still
//! there, in their places, afterwards. The local variables of a block are
//! gone when the block is closed, and no construct leaves the stack lower
//! than it found it.

use vstd::prelude::*;
use crate::chunk::OpCode;
use crate::diagnostic::ErrorKind;
use crate::grammar::{
    CompilerView, assignment_spec, binary, block_spec, declaration_spec, drop_locals,
    expression_spec, expression_statement_spec, if_spec, infix_spec, items_spec, let_spec, lowest,
    prefix_spec, program_spec, return_spec, skip_spec, statement_spec, synchronize, unary,
    while_spec,
};
use crate::token::TokenType;

verus! {

/// Whether `long` begins with `short`.
pub open spec fn begins_with<T>(long: Seq<T>, short: Seq<T>) -> bool {
    &&& short.len() <= long.len()
    &&& forall|i: int| 0 <= i < short.len() ==> #[trigger] long[i] == short[i]
}

/// Whether `after` is `before` with more read and more written: the same
/// tokens and block depth, a position that is no earlier, and instructions,
/// constants, heights and diagnostics that begin with those of `before`.
/// `after` is well formed.
pub open spec fn extends(before: CompilerView, after: CompilerView) -> bool {
    &&& after.well_formed()
    &&& after.tokens == before.tokens
    &&& after.depth == before.depth
    &&& before.position <= after.position
    &&& begins_with(after.chunk.code, before.chunk.code)
    &&& begins_with(after.chunk.constants, before.chunk.constants)
    &&& begins_with(after.heights, before.heights)
    &&& begins_with(after.errors, before.errors)
}

/// A state that extends the state in which a part began is the state that
/// the construct resumes in.
pub proof fn a_part_ends_where_the_construct_resumes(before: CompilerView, after: CompilerView)
    requires
        extends(before, after),
    ensures
        before.resume(after) == after,
{
}

/// Whether `after` has the local variables of `before`, and after them
/// none but variables of the block that is innermost in `before`, and has
/// above the variables as many values on the stack as `before`, or more.
pub open spec fn scoped(before: CompilerView, after: CompilerView) -> bool {
    &&& begins_with(after.locals, before.locals)
    &&& forall|i: int|
        before.locals.len() <= i < after.locals.len() ==> (#[trigger] after.locals[i]).depth
            == before.depth
    &&& after.height - after.locals.len() >= before.height - before.locals.len()
}

/// What holds of an expression compiled from `before`: the state extends
/// `before`, with the same variables and a stack that is no lower; and a
/// well-formed expression has taken at least one token, has given at least
/// one instruction, the first of them for a stack as high as it was before,
/// and leaves the stack higher by one value.
pub open spec fn expression_extends(before: CompilerView, result: (CompilerView, bool)) -> bool {
    &&& extends(before, result.0)
    &&& result.0.locals == before.locals
    &&& result.0.height >= before.height
    &&& result.1 ==> result.0.position > before.position
    &&& result.1 ==> result.0.chunk.code.len() > before.chunk.code.len()
    &&& result.1 ==> result.0.height == before.height + 1
    &&& result.1 ==> result.0.heights[before.chunk.code.len() as int] == before.height
}

/// What holds of a statement compiled from `before`: the state extends
/// `before`, the variables it has declared are of the innermost block, and
/// a well-formed statement has taken at least one token.
pub open spec fn statement_extends(before: CompilerView, result: (CompilerView, bool)) -> bool {
    &&& extends(before, result.0)
    &&& scoped(before, result.0)
    &&& result.1 ==> result.0.position > before.position
}

/// What holds of a block, an `if` or a `while` compiled from `before`: the
/// state extends `before` and has the same variables and a stack that is no
/// lower, and a well-formed one has taken at least one token.
pub open spec fn block_extends(before: CompilerView, result: (CompilerView, bool)) -> bool {
    &&& extends(before, result.0)
    &&& result.0.locals == before.locals
    &&& result.0.height >= before.height
    &&& result.1 ==> result.0.position > before.position
}

/// An operand extends the state.
pub proof fn lemma_prefix(c: CompilerView)
    requires
        c.well_formed(),
    ensures
        expression_extends(c, prefix_spec(c)),
    decreases c.remaining(), 0nat,
{
    match c.kind() {
        TokenType::LeftParen => {
            lemma_expression(c.advance(), lowest());
        },
        TokenType::Minus | TokenType::Bang => {
            lemma_expression(c.advance(), unary());
        },
        _ => {},
    }
}

/// An expression extends the state.
pub proof fn lemma_expression(c: CompilerView, min: int)
    requires
        c.well_formed(),
    ensures
        expression_extends(c, expression_spec(c, min)),
    decreases c.remaining(), 2nat,
{
    lemma_prefix(c);
    let (first, ok) = prefix_spec(c);
    if ok {
        lemma_infix(c.resume(first), min);
    }
}

/// The operators after an operand extend the state.
pub proof fn lemma_infix(c: CompilerView, min: int)
    requires
        c.well_formed(),
        c.locals.len() < c.height,
    ensures
        extends(c, infix_spec(c, min).0),
        infix_spec(c, min).0.locals == c.locals,
        infix_spec(c, min).0.height >= c.height,
        infix_spec(c, min).1 ==> infix_spec(c, min).0.height == c.height,
    decreases c.remaining(), 1nat,
{
    match binary(c.kind()) {
        Some((power, op)) => {
            if power >= min {
                lemma_expression(c.advance(), power + 1);
                let (right, ok) = expression_spec(c.advance(), power + 1);
                if ok {
                    lemma_infix(c.advance().resume(right).emit(op), min);
                }
            }
        },
        None => {},
    }
}

/// Dropping the local variables of a block extends the state, at the same
/// position. The variables that stay are those before the first of the
/// innermost block: every variable that goes is of that block, and the
/// last that stays is not. For each that goes, the stack is lower by one
/// value.
pub proof fn lemma_drop_locals(c: CompilerView)
    requires
        c.well_formed(),
    ensures
        extends(c, drop_locals(c)),
        drop_locals(c).position == c.position,
        begins_with(c.locals, drop_locals(c).locals),
        forall|i: int|
            drop_locals(c).locals.len() <= i < c.locals.len() ==> (#[trigger] c.locals[i]).depth
                >= c.depth,
        drop_locals(c).locals.len() > 0 ==> drop_locals(c).locals.last().depth < c.depth,
        drop_locals(c).height - drop_locals(c).locals.len() == c.height - c.locals.len(),
    decreases c.locals.len(),
{
    if c.locals.len() > 0 && c.locals.last().depth >= c.depth {
        let popped = CompilerView { locals: c.locals.drop_last(), ..c }.emit(OpCode::Pop);
        lemma_drop_locals(popped);
        let kept = drop_locals(c).locals;
        assert forall|i: int| 0 <= i < kept.len() implies #[trigger] c.locals[i] == kept[i] by {
            assert(popped.locals[i] == kept[i]);
        }
        assert forall|i: int| kept.len() <= i < c.locals.len() implies (
        #[trigger] c.locals[i]).depth >= c.depth by {
            if i < c.locals.len() - 1 {
                assert(popped.locals[i] == c.locals[i]);
            }
        }
    }
}

/// At the end of a block, dropping its variables leaves the variables that
/// were there when the block began.
pub proof fn lemma_block_drops_its_locals(before: CompilerView, body: CompilerView)
    requires
        before.well_formed(),
        body.well_formed(),
        body.depth == before.depth + 1,
        begins_with(body.locals, before.locals),
        forall|i: int|
            before.locals.len() <= i < body.locals.len() ==> (#[trigger] body.locals[i]).depth
                == body.depth,
    ensures
        drop_locals(body).locals == before.locals,
{
    lemma_drop_locals(body);
    let kept = drop_locals(body).locals;
    if kept.len() > before.locals.len() {
        assert(body.locals[kept.len() - 1] == kept[kept.len() - 1]);
        assert(body.locals[kept.len() - 1].depth == body.depth);
    }
    if kept.len() < before.locals.len() {
        assert(body.locals[kept.len() as int] == before.locals[kept.len() as int]);
        assert(before.locals[kept.len() as int].depth <= before.depth);
        assert(body.locals[kept.len() as int].depth >= body.depth);
    }
    assert forall|i: int| 0 <= i < kept.len() implies kept[i] == before.locals[i] by {
        assert(body.locals[i] == kept[i]);
        assert(body.locals[i] == before.locals[i]);
    }
    assert(kept =~= before.locals);
}

/// Passing over tokens extends the state.
pub proof fn lemma_skip(c: CompilerView)
    requires
        c.well_formed(),
    ensures
        extends(c, skip_spec(c)),
        skip_spec(c).locals == c.locals,
        skip_spec(c).height == c.height,
    decreases c.remaining(),
{
    if !c.at_boundary() {
        lemma_skip(c.advance());
    }
}

/// The recovery from a malformed statement extends the state, and ends
/// after the token at which the statement started, unless that is `Eof`.
pub proof fn lemma_synchronize(c: CompilerView, start: nat)
    requires
        c.well_formed(),
        start <= c.position,
    ensures
        extends(c, synchronize(c, start)),
        synchronize(c, start).locals == c.locals,
        synchronize(c, start).height == c.height,
        start < c.tokens.len() && !(c.tokens[start as int].kind is Eof) ==> synchronize(
            c,
            start,
        ).position > start,
{
    if c.position == start {
        lemma_skip(c.advance());
    } else {
        lemma_skip(c);
    }
}

/// A `let` extends the state.
pub proof fn lemma_let(c: CompilerView)
    requires
        c.well_formed(),
        c.kind() is Let,
    ensures
        statement_extends(c, let_spec(c)),
{
    let named = c.advance();
    if named.kind() is Identifier && named.kind_at(1) is Assign {
        lemma_expression(named.advance().advance(), lowest());
    }
}

/// An assignment extends the state.
pub proof fn lemma_assignment(c: CompilerView)
    requires
        c.well_formed(),
        c.kind() is Identifier,
        c.kind_at(1) is Assign,
    ensures
        statement_extends(c, assignment_spec(c)),
{
    lemma_expression(c.advance().advance(), lowest());
}

/// A `return` extends the state.
pub proof fn lemma_return(c: CompilerView)
    requires
        c.well_formed(),
        c.kind() is Return,
    ensures
        statement_extends(c, return_spec(c)),
{
    lemma_expression(c.advance(), lowest());
}

/// An expression as a statement extends the state.
pub proof fn lemma_expression_statement(c: CompilerView)
    requires
        c.well_formed(),
    ensures
        statement_extends(c, expression_statement_spec(c)),
{
    lemma_expression(c, lowest());
}

/// A statement extends the state.
pub proof fn lemma_statement(c: CompilerView)
    requires
        c.well_formed(),
    ensures
        statement_extends(c, statement_spec(c)),
    decreases c.remaining(), 1nat,
{
    match c.kind() {
        TokenType::Semicolon => {},
        TokenType::Let => {
            lemma_let(c);
        },
        TokenType::Return => {
            lemma_return(c);
        },
        TokenType::If => {
            lemma_if(c);
        },
        TokenType::While => {
            lemma_while(c);
        },
        TokenType::LeftBrace => {
            lemma_block(c);
        },
        TokenType::Identifier => {
            if c.kind_at(1) is Assign {
                lemma_assignment(c);
            } else {
                lemma_expression_statement(c);
            }
        },
        _ => {
            lemma_expression_statement(c);
        },
    }
}

/// A statement with its recovery extends the state, and takes at least one
/// token unless it starts at the end of the input.
pub proof fn lemma_declaration(c: CompilerView)
    requires
        c.well_formed(),
    ensures
        extends(c, declaration_spec(c).0),
        scoped(c, declaration_spec(c).0),
        !(c.kind() is Eof) ==> declaration_spec(c).0.position > c.position,
    decreases c.remaining(), 2nat,
{
    lemma_statement(c);
    let (done, ok) = statement_spec(c);
    if !ok {
        lemma_synchronize(done, c.position);
    }
}

/// A sequence of statements extends the state, and ends at a `}` or at the
/// end of the input.
pub proof fn lemma_items(c: CompilerView)
    requires
        c.well_formed(),
    ensures
        extends(c, items_spec(c)),
        scoped(c, items_spec(c)),
        items_spec(c).kind() is RightBrace || items_spec(c).kind() is Eof,
    decreases c.remaining(), 3nat,
{
    if !(c.kind() is RightBrace || c.kind() is Eof) {
        lemma_declaration(c);
        let next = c.resume(declaration_spec(c).0);
        lemma_items(next);
    }
}

/// A block extends the state.
pub proof fn lemma_block(c: CompilerView)
    requires
        c.well_formed(),
    ensures
        block_extends(c, block_spec(c)),
    decreases c.remaining(), 0nat,
{
    if c.kind() is LeftBrace {
        let opened = CompilerView { depth: c.depth + 1, ..c.advance() };
        lemma_items(opened);
        lemma_drop_locals(items_spec(opened));
        lemma_block_drops_its_locals(c, items_spec(opened));
    }
}

/// An `if` extends the state.
pub proof fn lemma_if(c: CompilerView)
    requires
        c.well_formed(),
        c.kind() is If,
    ensures
        block_extends(c, if_spec(c)),
        if_spec(c).0.position > c.position,
    decreases c.remaining(), 0nat,
{
    lemma_expression(c.advance(), lowest());
    let (condition, ok) = expression_spec(c.advance(), lowest());
    if ok {
        let test = c.advance().resume(condition);
        let branch = test.chunk.code.len() as int;
        let guarded = test.emit(OpCode::JumpIfFalse(0));
        lemma_block(guarded);
        let (first, first_ok) = block_spec(guarded);
        let decided = test.resume(first);
        if first_ok && decided.kind() is Else {
            lemma_block(decided.emit(OpCode::Jump(0)).patch(branch).advance());
        }
    }
}

/// A `while` extends the state.
pub proof fn lemma_while(c: CompilerView)
    requires
        c.well_formed(),
        c.kind() is While,
    ensures
        block_extends(c, while_spec(c)),
        while_spec(c).0.position > c.position,
    decreases c.remaining(), 0nat,
{
    lemma_expression(c.advance(), lowest());
    let (condition, ok) = expression_spec(c.advance(), lowest());
    if ok {
        let test = c.advance().resume(condition);
        lemma_block(test.emit(OpCode::JumpIfFalse(0)).emit(OpCode::Pop));
    }
}

/// A program extends the state, and ends at the end of the input.
pub proof fn lemma_program(c: CompilerView)
    requires
        c.well_formed(),
    ensures
        extends(c, program_spec(c)),
        program_spec(c).kind() is Eof,
    decreases c.remaining(), 4nat,
{
    lemma_items(c);
    let body = c.resume(items_spec(c));
    if body.kind() is RightBrace {
        lemma_program(body.fail(ErrorKind::UnexpectedRightBrace).advance());
    }
}

} // verus!

//! What holds of compiling and running together.

use vstd::prelude::*;
use crate::chunk::{OpCode, fits, sound};
use crate::discipline::{
    compiled_program_starts_on_record, faults, run_keeps_the_stack_discipline,
};
use crate::number::ArithOp;
use crate::grammar::{
    CompilerView, block_spec, declaration_spec, expression_spec, expression_statement_spec,
    if_spec, infix_spec, items_spec, let_spec, lowest, prefix_spec, program_spec, start,
    statement_spec, while_spec,
};
use crate::progress::{lemma_block, lemma_expression, lemma_program};
use crate::token::TokenView;
use crate::value::ValueView;
use crate::vm::{InterpretResult, MachineView, SignalView, boot, driven, run_spec, step_spec};

verus! {

/// A program that is one number literal compiles, without a diagnostic, to
/// the one instruction that pushes the number, and running it ends
/// successfully with exactly that number on the stack.
pub proof fn number_literal_is_pushed(tokens: Seq<TokenView>, bits: u64, budget: nat)
    requires
        tokens.len() >= 1,
        tokens[0].kind is Number,
        tokens[0].number == Some(bits),
        tokens.len() == 1 || tokens[1].kind is Eof,
        budget >= 2,
    ensures
        program_spec(start(tokens)).errors.len() == 0,
        program_spec(start(tokens)).chunk.code == seq![OpCode::Constant(0)],
        program_spec(start(tokens)).chunk.constants == seq![ValueView::Number(bits)],
        run_spec(boot(program_spec(start(tokens)).chunk, Map::empty()), budget) == (
            (MachineView {
                pc: 1,
                stack: seq![ValueView::Number(bits)],
                ..boot(program_spec(start(tokens)).chunk, Map::empty())
            }),
            SignalView::Halt(InterpretResult::Success),
        ),
{
    let c = start(tokens);
    let loaded = c.load(ValueView::Number(bits)).advance();
    assert(prefix_spec(c) == (loaded, true));
    assert(c.resume(loaded) == loaded);
    assert(infix_spec(loaded, lowest()) == (loaded, true));
    assert(expression_spec(c, lowest()) == (loaded, true));
    let kept = loaded;
    assert(expression_statement_spec(c) == (kept, true));
    assert(statement_spec(c) == (kept, true));
    assert(declaration_spec(c) == (kept, true));
    assert(c.resume(kept) == kept);
    assert(items_spec(kept) == kept);
    assert(items_spec(c) == kept);
    assert(program_spec(c) == kept);
    assert(kept.chunk.code =~= seq![OpCode::Constant(0)]);
    assert(kept.chunk.constants =~= seq![ValueView::Number(bits)]);
    let m = boot(kept.chunk, Map::empty());
    let pushed = MachineView { pc: 1, stack: seq![ValueView::Number(bits)], ..m };
    assert(step_spec(m).0.stack =~= pushed.stack);
    assert(step_spec(m) == (pushed, SignalView::Continue));
    assert(step_spec(pushed) == (pushed, SignalView::Halt(InterpretResult::Success)));
    assert(run_spec(pushed, (budget - 1) as nat) == (
        pushed,
        SignalView::Halt(InterpretResult::Success),
    ));
}

/// A program that is one `let` with a number literal compiles, without a
/// diagnostic, to the instruction that pushes the number and the one that
/// defines the global, and running it ends successfully with the name bound
/// to exactly that number, and the number still on the stack.
pub proof fn let_defines_a_global(
    tokens: Seq<TokenView>,
    name: Seq<char>,
    bits: u64,
    budget: nat,
)
    requires
        tokens.len() >= 4,
        tokens[0].kind is Let,
        tokens[1].kind is Identifier,
        tokens[1].lexeme == name,
        tokens[2].kind is Assign,
        tokens[3].kind is Number,
        tokens[3].number == Some(bits),
        tokens.len() == 4 || tokens[4].kind is Eof,
        budget >= 3,
    ensures
        program_spec(start(tokens)).errors.len() == 0,
        program_spec(start(tokens)).chunk.code == seq![
            OpCode::Constant(0),
            OpCode::DefineGlobal(1),
        ],
        program_spec(start(tokens)).chunk.constants == seq![
            ValueView::Number(bits),
            ValueView::String(name),
        ],
        run_spec(boot(program_spec(start(tokens)).chunk, Map::empty()), budget) == (
            (MachineView {
                pc: 2,
                stack: seq![ValueView::Number(bits)],
                globals: Map::empty().insert(name, ValueView::Number(bits)),
                ..boot(program_spec(start(tokens)).chunk, Map::empty())
            }),
            SignalView::Halt(InterpretResult::Success),
        ),
{
    let c = start(tokens);
    let named = c.advance();
    let valued = named.advance().advance();
    let loaded = valued.load(ValueView::Number(bits)).advance();
    assert(prefix_spec(valued) == (loaded, true));
    assert(valued.resume(loaded) == loaded);
    assert(infix_spec(loaded, lowest()) == (loaded, true));
    assert(expression_spec(valued, lowest()) == (loaded, true));
    let defined = loaded.declare(name).end_statement();
    assert(let_spec(c) == (defined, true));
    assert(statement_spec(c) == (defined, true));
    assert(declaration_spec(c) == (defined, true));
    assert(c.resume(defined) == defined);
    assert(items_spec(defined) == defined);
    assert(items_spec(c) == defined);
    assert(program_spec(c) == defined);
    assert(defined.chunk.code =~= seq![OpCode::Constant(0), OpCode::DefineGlobal(1)]);
    assert(defined.chunk.constants =~= seq![ValueView::Number(bits), ValueView::String(name)]);
    let m = boot(defined.chunk, Map::empty());
    let pushed = MachineView { pc: 1, stack: seq![ValueView::Number(bits)], ..m };
    assert(step_spec(m).0.stack =~= pushed.stack);
    assert(step_spec(m) == (pushed, SignalView::Continue));
    let bound = MachineView {
        pc: 2,
        globals: Map::empty().insert(name, ValueView::Number(bits)),
        ..pushed
    };
    assert(step_spec(pushed) == (bound, SignalView::Continue));
    assert(step_spec(bound) == (bound, SignalView::Halt(InterpretResult::Success)));
    assert(run_spec(bound, (budget - 2) as nat) == (
        bound,
        SignalView::Halt(InterpretResult::Success),
    ));
    assert(run_spec(pushed, (budget - 1) as nat) == (
        bound,
        SignalView::Halt(InterpretResult::Success),
    ));
}

/// Compiling a program reads all of its tokens, and gives a chunk whose
/// instructions refer only to what the chunk holds: every index of a
/// constant is in the pool, every name of a global is text, and every jump
/// lands on an instruction of the chunk or at its end.
pub proof fn compiled_program_is_sound(tokens: Seq<TokenView>)
    requires
        fits(program_spec(start(tokens)).chunk),
    ensures
        sound(program_spec(start(tokens)).chunk),
        program_spec(start(tokens)).kind() is Eof,
        program_spec(start(tokens)).depth == 0,
{
    lemma_program(start(tokens));
}

/// A program that compiles without a diagnostic fails, when it runs, only
/// for the values it computes.
///
/// Take any run of the program on a new machine, with any host arithmetic
/// and any budget. If the run ends with a run-time error, then its last
/// step was taken at an instruction that fails for the values it found: an
/// operand of the wrong kind, a division by zero, or a global that is not
/// bound. No compiled program fails for a stack that is too low, a slot
/// that is not on the stack, a constant that is not in the pool, or a jump
/// out of the chunk.
pub proof fn compiled_program_fails_for_its_values_only<F: Fn(ArithOp, u64, u64) -> u64>(
    tokens: Seq<TokenView>,
    arithmetic: F,
    budget: nat,
    last: MachineView,
    signal: SignalView,
)
    requires
        program_spec(start(tokens)).errors.len() == 0,
        fits(program_spec(start(tokens)).chunk),
        driven(
            arithmetic,
            boot(program_spec(start(tokens)).chunk, Map::empty()),
            budget,
            last,
            signal,
        ),
    ensures
        signal == SignalView::Halt(InterpretResult::RuntimeError) ==> exists|at: MachineView|
            at.chunk == program_spec(start(tokens)).chunk && #[trigger] faults(at) && step_spec(at)
                == (last, signal),
{
    let compiled = program_spec(start(tokens));
    compiled_program_starts_on_record(tokens);
    run_keeps_the_stack_discipline(
        arithmetic,
        boot(compiled.chunk, Map::empty()),
        budget,
        last,
        signal,
        compiled.heights,
        compiled.height,
    );
}

/// The jump of an `if` without `else` is patched to the number of
/// instructions of its block.
///
/// Let `branch` be the place of the `JumpIfFalse` that follows the
/// condition, and the block have `n` instructions. Then the `JumpIfFalse`
/// has the offset `n`, and lands on the `Pop` that follows the block, the
/// last instruction of the `if`.
pub proof fn if_jump_is_patched_to_the_length_of_the_block(c: CompilerView)
    requires
        c.well_formed(),
        c.kind() is If,
        if_spec(c).1,
        fits(if_spec(c).0.chunk),
        !(block_spec(
            expression_spec(c.advance(), lowest()).0.emit(OpCode::JumpIfFalse(0)),
        ).0.kind() is Else),
    ensures
        ({
            let condition = expression_spec(c.advance(), lowest()).0;
            let branch = condition.chunk.code.len() as int;
            let block = block_spec(condition.emit(OpCode::JumpIfFalse(0))).0;
            let n = block.chunk.code.len() - (branch + 1);
            let code = if_spec(c).0.chunk.code;
            &&& 0 <= n
            &&& code.len() == branch + 1 + n + 1
            &&& code[branch] matches OpCode::JumpIfFalse(offset) && offset == n
            &&& code[branch + 1 + n] == OpCode::Pop
            &&& forall|i: int|
                branch < i <= branch + n ==> #[trigger] code[i] == block.chunk.code[i]
        }),
{
    lemma_expression(c.advance(), lowest());
    let condition = expression_spec(c.advance(), lowest()).0;
    let branch = condition.chunk.code.len() as int;
    let guarded = condition.emit(OpCode::JumpIfFalse(0));
    lemma_block(guarded);
    let block = block_spec(guarded).0;
    assert(block.chunk.code[branch] == guarded.chunk.code[branch]);
}

/// The jumps of an `if` with `else` are patched to the number of
/// instructions they jump over.
///
/// Let `branch` be the place of the `JumpIfFalse` that follows the
/// condition, the first block have `n` instructions, and the second `m`.
/// Then the `JumpIfFalse` has the offset `n + 1`: it jumps over the first
/// block and the `Jump` that follows it, and lands on the second block. The
/// `Jump` has the offset `m`: it jumps over the second block, and lands on
/// the `Pop` that follows it, the last instruction of the `if`.
pub proof fn if_else_jumps_are_patched_to_the_lengths_of_the_blocks(c: CompilerView)
    requires
        c.well_formed(),
        c.kind() is If,
        if_spec(c).1,
        fits(if_spec(c).0.chunk),
        block_spec(
            expression_spec(c.advance(), lowest()).0.emit(OpCode::JumpIfFalse(0)),
        ).0.kind() is Else,
    ensures
        ({
            let condition = expression_spec(c.advance(), lowest()).0;
            let branch = condition.chunk.code.len() as int;
            let first = block_spec(condition.emit(OpCode::JumpIfFalse(0))).0;
            let n = first.chunk.code.len() - (branch + 1);
            let skip = branch + 1 + n;
            let second = block_spec(
                first.emit(OpCode::Jump(0)).patch(branch).advance(),
            ).0;
            let m = second.chunk.code.len() - (skip + 1);
            let code = if_spec(c).0.chunk.code;
            &&& 0 <= n
            &&& 0 <= m
            &&& code.len() == skip + 1 + m + 1
            &&& code[branch] matches OpCode::JumpIfFalse(offset) && offset == n + 1
            &&& code[skip] matches OpCode::Jump(offset) && offset == m
            &&& code[skip + 1 + m] == OpCode::Pop
        }),
{
    lemma_expression(c.advance(), lowest());
    let condition = expression_spec(c.advance(), lowest()).0;
    let branch = condition.chunk.code.len() as int;
    let guarded = condition.emit(OpCode::JumpIfFalse(0));
    lemma_block(guarded);
    let first = block_spec(guarded).0;
    assert(first.chunk.code[branch] == guarded.chunk.code[branch]);
    let skip = first.chunk.code.len() as int;
    let moved = first.emit(OpCode::Jump(0)).patch(branch).advance();
    lemma_block(moved);
    let second = block_spec(moved).0;
    assert(second.chunk.code[branch] == moved.chunk.code[branch]);
    assert(second.chunk.code[skip] == moved.chunk.code[skip]);
}

/// The jumps of a `while` are patched to the distance they jump.
///
/// Let `start` be the place of the first instruction of the condition,
/// `exit` the place of the `JumpIfFalse` that follows the condition, and
/// `back` the place of the `Loop` that follows the block. Then the `Loop`
/// has the offset `back + 1 - start`, which takes the machine from the
/// instruction after the `Loop` back to `start`; and the `JumpIfFalse` has
/// the offset `back - exit`, the number of instructions from the one after
/// it up to and including the `Loop`, and lands on the `Pop` that ends the
/// loop.
pub proof fn while_jumps_are_patched_to_the_distance(c: CompilerView)
    requires
        c.well_formed(),
        c.kind() is While,
        while_spec(c).1,
        fits(while_spec(c).0.chunk),
    ensures
        ({
            let start = c.chunk.code.len() as int;
            let condition = expression_spec(c.advance(), lowest()).0;
            let exit = condition.chunk.code.len() as int;
            let body = block_spec(condition.emit(OpCode::JumpIfFalse(0)).emit(OpCode::Pop)).0;
            let back = body.chunk.code.len() as int;
            let code = while_spec(c).0.chunk.code;
            &&& start < exit < back
            &&& code.len() == back + 2
            &&& code[exit] matches OpCode::JumpIfFalse(offset) && offset == back - exit
            &&& code[back] matches OpCode::Loop(offset) && offset == back + 1 - start
            &&& code[exit + 1 + (back - exit)] == OpCode::Pop
        }),
{
    lemma_expression(c.advance(), lowest());
    let (condition, ok) = expression_spec(c.advance(), lowest());
    let test = c.advance().resume(condition);
    assert(test == condition);
    let exit = test.chunk.code.len() as int;
    let guarded = test.emit(OpCode::JumpIfFalse(0)).emit(OpCode::Pop);
    lemma_block(guarded);
    let body = block_spec(guarded).0;
    assert(body.chunk.code[exit] == guarded.chunk.code[exit]);
}

} // verus!

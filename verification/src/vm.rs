//! The stack machine that runs a chunk.
//!
//! The machine is driven one instruction at a time, or in bursts with a
//! budget of instructions: a program may loop for ever, and the budget is
//! what makes every call return. The machine decides everything but two
//! things, which it asks of its host through the [`Signal`] it returns:
//! printing the value of a `Return`, and computing the sum, difference,
//! product or quotient of two numbers, which the host hands back with
//! [`VirtualMachine::supply`], or gives as a function to
//! [`VirtualMachine::run`].

use vstd::prelude::*;
use vstd::string::StringExecFns;
use crate::chunk::{Chunk, ChunkView, OpCode, fits, sound};
use crate::globals::Globals;
use crate::number::{
    ArithOp, greater, greater_equal, is_zero, less, less_equal, negate, negated, num_ge, num_gt,
    num_le, num_lt, zero,
};
use crate::value::{Value, ValueView, falsey, is_falsey, value_equal, values_equal, views};

verus! {

/// How compiling or running a program ended.
#[derive(Clone, Copy, Debug, PartialEq, Eq, Structural)]
pub enum InterpretResult {
    Success,
    CompileError,
    RuntimeError,
}

/// What the machine reports after it has run.
#[derive(Clone, Debug, PartialEq)]
pub enum Signal {
    /// The machine stopped between two instructions and can go on.
    Continue,
    /// Execution is over, with this result.
    Halt(InterpretResult),
    /// A `Return` ended execution with success; the host prints the value.
    Return(Value),
    /// The machine took two numbers off the stack, `lhs` below `rhs`. The
    /// host computes `lhs op rhs` and hands the result to
    /// [`VirtualMachine::supply`] before the machine goes on.
    Compute(ArithOp, u64, u64),
}

/// The mathematical content of a [`Signal`].
pub enum SignalView {
    Continue,
    Halt(InterpretResult),
    Return(ValueView),
    Compute(ArithOp, u64, u64),
}

impl View for Signal {
    type V = SignalView;

    open spec fn view(&self) -> SignalView {
        match self {
            Signal::Continue => SignalView::Continue,
            Signal::Halt(result) => SignalView::Halt(*result),
            Signal::Return(value) => SignalView::Return(value@),
            Signal::Compute(op, lhs, rhs) => SignalView::Compute(*op, *lhs, *rhs),
        }
    }
}

/// A machine: its chunk, the position of the next instruction, the operand
/// stack with its top at the end, and the global variables.
pub struct VirtualMachine {
    chunk: Chunk,
    pc: usize,
    pub stack: Vec<Value>,
    pub globals: Globals,
}

/// The mathematical content of a [`VirtualMachine`].
pub struct MachineView {
    pub chunk: ChunkView,
    pub pc: usize,
    pub stack: Seq<ValueView>,
    pub globals: Map<Seq<char>, ValueView>,
}

impl View for VirtualMachine {
    type V = MachineView;

    closed spec fn view(&self) -> MachineView {
        MachineView {
            chunk: self.chunk@,
            pc: self.pc,
            stack: views(self.stack@),
            globals: self.globals@,
        }
    }
}

/// A machine at the start of `chunk`, with an empty stack and the given
/// globals.
pub open spec fn boot(chunk: ChunkView, globals: Map<Seq<char>, ValueView>) -> MachineView {
    MachineView { chunk, pc: 0, stack: Seq::empty(), globals }
}

/// The stack without its `n` topmost values, or empty where it holds fewer.
pub open spec fn without_top(stack: Seq<ValueView>, n: nat) -> Seq<ValueView> {
    if stack.len() >= n {
        stack.take(stack.len() - n)
    } else {
        Seq::empty()
    }
}

/// The name that the constant at `index` holds, where there is such a
/// constant and it is text.
pub open spec fn name_at(chunk: ChunkView, index: usize) -> Option<Seq<char>> {
    if index < chunk.constants.len() {
        match chunk.constants[index as int] {
            ValueView::String(name) => Some(name),
            _ => None,
        }
    } else {
        None
    }
}

/// The machine goes on with `value` pushed.
pub open spec fn pushed(m: MachineView, value: ValueView) -> (MachineView, SignalView) {
    (MachineView { stack: m.stack.push(value), ..m }, SignalView::Continue)
}

/// The machine stops with a run-time error, in the state it is in.
pub open spec fn failed(m: MachineView) -> (MachineView, SignalView) {
    (m, SignalView::Halt(InterpretResult::RuntimeError))
}

/// What a two-operand instruction does. Both operands leave the stack
/// whatever happens, the right one from the top and the left one from
/// below it. `Equal` and `NotEqual` take any two values. The others take two
/// numbers, and `Add` also two texts, which it joins left before right. The
/// four comparisons push their answer; the arithmetic on numbers is asked of
/// the host, except a division by a zero of either sign, which fails.
pub open spec fn binary_spec(m: MachineView, op: OpCode) -> (MachineView, SignalView) {
    let rest = MachineView { stack: without_top(m.stack, 2), ..m };
    if m.stack.len() < 2 {
        failed(rest)
    } else {
        let left = m.stack[m.stack.len() - 2];
        let right = m.stack[m.stack.len() - 1];
        match (op, left, right) {
            (OpCode::Equal, _, _) => pushed(rest, ValueView::Boolean(values_equal(left, right))),
            (OpCode::NotEqual, _, _) => pushed(
                rest,
                ValueView::Boolean(!values_equal(left, right)),
            ),
            (OpCode::Greater, ValueView::Number(a), ValueView::Number(b)) => pushed(
                rest,
                ValueView::Boolean(num_gt(a, b)),
            ),
            (OpCode::GreaterEqual, ValueView::Number(a), ValueView::Number(b)) => pushed(
                rest,
                ValueView::Boolean(num_ge(a, b)),
            ),
            (OpCode::Less, ValueView::Number(a), ValueView::Number(b)) => pushed(
                rest,
                ValueView::Boolean(num_lt(a, b)),
            ),
            (OpCode::LessEqual, ValueView::Number(a), ValueView::Number(b)) => pushed(
                rest,
                ValueView::Boolean(num_le(a, b)),
            ),
            (OpCode::Add, ValueView::Number(a), ValueView::Number(b)) => (
                rest,
                SignalView::Compute(ArithOp::Add, a, b),
            ),
            (OpCode::Add, ValueView::String(a), ValueView::String(b)) => pushed(
                rest,
                ValueView::String(a + b),
            ),
            (OpCode::Subtract, ValueView::Number(a), ValueView::Number(b)) => (
                rest,
                SignalView::Compute(ArithOp::Subtract, a, b),
            ),
            (OpCode::Multiply, ValueView::Number(a), ValueView::Number(b)) => (
                rest,
                SignalView::Compute(ArithOp::Multiply, a, b),
            ),
            (OpCode::Divide, ValueView::Number(a), ValueView::Number(b)) => if zero(b) {
                failed(rest)
            } else {
                (rest, SignalView::Compute(ArithOp::Divide, a, b))
            },
            _ => failed(rest),
        }
    }
}

/// The counter moves forward by `offset`, where that is still a position a
/// machine can hold; the machine fails where it is not.
pub open spec fn jump_spec(m: MachineView, offset: usize) -> (MachineView, SignalView) {
    if m.pc + offset <= usize::MAX {
        (MachineView { pc: (m.pc + offset) as usize, ..m }, SignalView::Continue)
    } else {
        failed(m)
    }
}

/// What the instruction `op` does to a machine whose counter is already past it.
pub open spec fn execute_spec(m: MachineView, op: OpCode) -> (MachineView, SignalView) {
    let top = m.stack.len() - 1;
    match op {
        OpCode::Constant(index) => if index < m.chunk.constants.len() {
            pushed(m, m.chunk.constants[index as int])
        } else {
            failed(m)
        },
        OpCode::True => pushed(m, ValueView::Boolean(true)),
        OpCode::False => pushed(m, ValueView::Boolean(false)),
        OpCode::Null => pushed(m, ValueView::Null),
        OpCode::Not => if m.stack.len() > 0 {
            (
                MachineView {
                    stack: m.stack.update(top, ValueView::Boolean(falsey(m.stack[top]))),
                    ..m
                },
                SignalView::Continue,
            )
        } else {
            failed(m)
        },
        OpCode::Negate => if m.stack.len() > 0 && m.stack[top] is Number {
            (
                MachineView {
                    stack: m.stack.update(
                        top,
                        ValueView::Number(negated(m.stack[top]->Number_0)),
                    ),
                    ..m
                },
                SignalView::Continue,
            )
        } else {
            failed(m)
        },
        OpCode::Equal
        | OpCode::NotEqual
        | OpCode::Greater
        | OpCode::GreaterEqual
        | OpCode::Less
        | OpCode::LessEqual
        | OpCode::Add
        | OpCode::Subtract
        | OpCode::Multiply
        | OpCode::Divide => binary_spec(m, op),
        OpCode::Pop => (
            MachineView { stack: without_top(m.stack, 1), ..m },
            SignalView::Continue,
        ),
        OpCode::DefineGlobal(index) => match name_at(m.chunk, index) {
            Some(name) if m.stack.len() > 0 => (
                MachineView { globals: m.globals.insert(name, m.stack[top]), ..m },
                SignalView::Continue,
            ),
            _ => failed(m),
        },
        OpCode::GetGlobal(index) => match name_at(m.chunk, index) {
            Some(name) if m.globals.contains_key(name) => pushed(m, m.globals[name]),
            _ => failed(m),
        },
        OpCode::SetGlobal(index) => match name_at(m.chunk, index) {
            Some(name) if m.stack.len() > 0 => (
                MachineView {
                    stack: without_top(m.stack, 1),
                    globals: m.globals.insert(name, m.stack[top]),
                    ..m
                },
                SignalView::Continue,
            ),
            _ => failed(m),
        },
        OpCode::GetLocal(slot) => if 1 <= slot <= m.stack.len() {
            pushed(m, m.stack[slot - 1])
        } else {
            failed(m)
        },
        OpCode::SetLocal(slot) => if 1 <= slot <= m.stack.len() {
            (
                MachineView { stack: m.stack.update(slot - 1, m.stack[top]), ..m },
                SignalView::Continue,
            )
        } else {
            failed(m)
        },
        OpCode::JumpIfFalse(offset) => if m.stack.len() == 0 {
            failed(m)
        } else if falsey(m.stack[top]) {
            jump_spec(m, offset)
        } else {
            (m, SignalView::Continue)
        },
        OpCode::Jump(offset) => jump_spec(m, offset),
        OpCode::Loop(offset) => if offset <= m.pc {
            (MachineView { pc: (m.pc - offset) as usize, ..m }, SignalView::Continue)
        } else {
            failed(m)
        },
        OpCode::Return => (
            MachineView { stack: without_top(m.stack, 1), ..m },
            SignalView::Return(
                if m.stack.len() > 0 {
                    m.stack[top]
                } else {
                    ValueView::Null
                },
            ),
        ),
    }
}

/// One step of the machine. Where the counter is past the last instruction,
/// execution is over and nothing changes. Otherwise the counter moves past
/// the instruction it is at, and the instruction is executed.
pub open spec fn step_spec(m: MachineView) -> (MachineView, SignalView) {
    if m.pc >= m.chunk.code.len() {
        (m, SignalView::Halt(InterpretResult::Success))
    } else {
        execute_spec(MachineView { pc: (m.pc + 1) as usize, ..m }, m.chunk.code[m.pc as int])
    }
}

/// Up to `budget` steps of the machine: it stops at the first step whose
/// signal is not `Continue`, and after `budget` steps in any case.
pub open spec fn run_spec(m: MachineView, budget: nat) -> (MachineView, SignalView)
    decreases budget,
{
    if budget == 0 {
        (m, SignalView::Continue)
    } else {
        let (next, signal) = step_spec(m);
        if signal is Continue {
            run_spec(next, (budget - 1) as nat)
        } else {
            (next, signal)
        }
    }
}

/// The machine with the number `bits` pushed: what it is after the host has
/// answered a `Compute`.
pub open spec fn supplied(m: MachineView, bits: u64) -> MachineView {
    MachineView { stack: m.stack.push(ValueView::Number(bits)), ..m }
}

/// Whether a run of up to `budget` steps from `m`, in which `arithmetic`
/// answers every `Compute`, can end in the state `end` with `signal`.
///
/// A step that signals `Continue` is followed by the next. A step that
/// signals `Compute` is followed by the next once a result of `arithmetic`
/// for the two operands has been pushed. Any other signal ends the run, and
/// so does the end of the budget, with `Continue`.
pub open spec fn driven<F: Fn(ArithOp, u64, u64) -> u64>(
    arithmetic: F,
    m: MachineView,
    budget: nat,
    end: MachineView,
    signal: SignalView,
) -> bool
    decreases budget,
{
    if budget == 0 {
        end == m && signal is Continue
    } else {
        let (next, now) = step_spec(m);
        match now {
            SignalView::Continue => driven(arithmetic, next, (budget - 1) as nat, end, signal),
            SignalView::Compute(op, lhs, rhs) => exists|result: u64|
                #[trigger] arithmetic.ensures((op, lhs, rhs), result) && driven(
                    arithmetic,
                    supplied(next, result),
                    (budget - 1) as nat,
                    end,
                    signal,
                ),
            _ => end == next && signal == now,
        }
    }
}

/// No step ends in `CompileError`: a halt is a success or a run-time error.
pub proof fn step_never_reports_compile_error(m: MachineView)
    ensures
        step_spec(m).1 != SignalView::Halt(InterpretResult::CompileError),
{
}

/// No run ends in `CompileError`, whatever the chunk and however long the
/// run.
pub proof fn run_never_reports_compile_error(m: MachineView, budget: nat)
    ensures
        run_spec(m, budget).1 != SignalView::Halt(InterpretResult::CompileError),
    decreases budget,
{
    if budget > 0 {
        step_never_reports_compile_error(m);
        if step_spec(m).1 is Continue {
            run_never_reports_compile_error(step_spec(m).0, (budget - 1) as nat);
        }
    }
}

/// A run of `first + second` steps is a run of `first` steps, followed by a
/// run of `second` steps where the first run stopped for its budget alone.
pub proof fn run_in_two_parts(m: MachineView, first: nat, second: nat)
    ensures
        run_spec(m, first + second) == (if run_spec(m, first).1 is Continue {
            run_spec(run_spec(m, first).0, second)
        } else {
            run_spec(m, first)
        }),
    decreases first,
{
    if first > 0 {
        if step_spec(m).1 is Continue {
            run_in_two_parts(step_spec(m).0, (first - 1) as nat, second);
        }
    }
}

/// `Negate` takes a number only: it flips the sign of a number on top of
/// the stack, and fails, with the stack as it was, on any other value and on
/// an empty stack.
pub proof fn negate_takes_a_number(m: MachineView)
    ensures
        m.stack.len() > 0 && m.stack.last() is Number ==> execute_spec(m, OpCode::Negate) == (
            (MachineView {
                stack: m.stack.drop_last().push(
                    ValueView::Number(negated(m.stack.last()->Number_0)),
                ),
                ..m
            }),
            SignalView::Continue,
        ),
        !(m.stack.len() > 0 && m.stack.last() is Number) ==> execute_spec(m, OpCode::Negate)
            == failed(m),
{
    if m.stack.len() > 0 && m.stack.last() is Number {
        assert(m.stack.update(
            m.stack.len() - 1,
            ValueView::Number(negated(m.stack.last()->Number_0)),
        ) =~= m.stack.drop_last().push(ValueView::Number(negated(m.stack.last()->Number_0))));
    }
}

/// `Not` puts `true` in place of a top of stack that is `false` or `null`,
/// and `false` in place of any other, a number included whatever its value.
pub proof fn not_tests_for_false_and_null(m: MachineView)
    requires
        m.stack.len() > 0,
    ensures
        execute_spec(m, OpCode::Not) == (
            (MachineView {
                stack: m.stack.drop_last().push(
                    ValueView::Boolean(
                        m.stack.last() == ValueView::Boolean(false) || m.stack.last()
                            == ValueView::Null,
                    ),
                ),
                ..m
            }),
            SignalView::Continue,
        ),
{
    let answer = ValueView::Boolean(
        m.stack.last() == ValueView::Boolean(false) || m.stack.last() == ValueView::Null,
    );
    assert(m.stack.update(m.stack.len() - 1, answer) =~= m.stack.drop_last().push(answer));
}

/// A division by a zero of either sign fails: both operands have left the
/// stack and nothing is pushed.
pub proof fn division_by_zero_fails(rest: MachineView, a: u64, b: u64)
    requires
        zero(b),
    ensures
        execute_spec(
            (MachineView {
                stack: rest.stack.push(ValueView::Number(a)).push(ValueView::Number(b)),
                ..rest
            }),
            OpCode::Divide,
        ) == failed(rest),
{
    let stack = rest.stack.push(ValueView::Number(a)).push(ValueView::Number(b));
    assert(without_top(stack, 2) =~= rest.stack);
}

/// The arithmetic on two numbers is asked of the host with the operands in
/// the order in which the program wrote them: the one pushed first on the
/// left.
pub proof fn arithmetic_keeps_the_order(rest: MachineView, a: u64, b: u64)
    ensures
        execute_spec(
            (MachineView {
                stack: rest.stack.push(ValueView::Number(a)).push(ValueView::Number(b)),
                ..rest
            }),
            OpCode::Subtract,
        ) == (rest, SignalView::Compute(ArithOp::Subtract, a, b)),
        execute_spec(
            (MachineView {
                stack: rest.stack.push(ValueView::Number(a)).push(ValueView::Number(b)),
                ..rest
            }),
            OpCode::Add,
        ) == (rest, SignalView::Compute(ArithOp::Add, a, b)),
        execute_spec(
            (MachineView {
                stack: rest.stack.push(ValueView::Number(a)).push(ValueView::Number(b)),
                ..rest
            }),
            OpCode::Multiply,
        ) == (rest, SignalView::Compute(ArithOp::Multiply, a, b)),
        !zero(b) ==> execute_spec(
            (MachineView {
                stack: rest.stack.push(ValueView::Number(a)).push(ValueView::Number(b)),
                ..rest
            }),
            OpCode::Divide,
        ) == (rest, SignalView::Compute(ArithOp::Divide, a, b)),
{
    let stack = rest.stack.push(ValueView::Number(a)).push(ValueView::Number(b));
    assert(without_top(stack, 2) =~= rest.stack);
}

/// `Add` joins two texts in the order in which the program wrote them: the
/// one pushed first comes first.
pub proof fn concatenation_keeps_the_order(rest: MachineView, a: Seq<char>, b: Seq<char>)
    ensures
        execute_spec(
            (MachineView {
                stack: rest.stack.push(ValueView::String(a)).push(ValueView::String(b)),
                ..rest
            }),
            OpCode::Add,
        ) == pushed(rest, ValueView::String(a + b)),
{
    let stack = rest.stack.push(ValueView::String(a)).push(ValueView::String(b));
    assert(without_top(stack, 2) =~= rest.stack);
}

/// The comparisons of two numbers answer as the numbers are ordered, with
/// the one pushed first on the left.
pub proof fn comparisons_keep_the_order(rest: MachineView, a: u64, b: u64)
    ensures
        execute_spec(
            (MachineView {
                stack: rest.stack.push(ValueView::Number(a)).push(ValueView::Number(b)),
                ..rest
            }),
            OpCode::Less,
        ) == pushed(rest, ValueView::Boolean(num_lt(a, b))),
        execute_spec(
            (MachineView {
                stack: rest.stack.push(ValueView::Number(a)).push(ValueView::Number(b)),
                ..rest
            }),
            OpCode::LessEqual,
        ) == pushed(rest, ValueView::Boolean(num_le(a, b))),
        execute_spec(
            (MachineView {
                stack: rest.stack.push(ValueView::Number(a)).push(ValueView::Number(b)),
                ..rest
            }),
            OpCode::Greater,
        ) == pushed(rest, ValueView::Boolean(num_gt(a, b))),
        execute_spec(
            (MachineView {
                stack: rest.stack.push(ValueView::Number(a)).push(ValueView::Number(b)),
                ..rest
            }),
            OpCode::GreaterEqual,
        ) == pushed(rest, ValueView::Boolean(num_ge(a, b))),
{
    let stack = rest.stack.push(ValueView::Number(a)).push(ValueView::Number(b));
    assert(without_top(stack, 2) =~= rest.stack);
}

/// `Equal` and `NotEqual` take any two values and answer by
/// [`values_equal`], which is false across variants.
pub proof fn equality_takes_any_values(rest: MachineView, a: ValueView, b: ValueView)
    ensures
        execute_spec(MachineView { stack: rest.stack.push(a).push(b), ..rest }, OpCode::Equal)
            == pushed(rest, ValueView::Boolean(values_equal(a, b))),
        execute_spec(MachineView { stack: rest.stack.push(a).push(b), ..rest }, OpCode::NotEqual)
            == pushed(rest, ValueView::Boolean(!values_equal(a, b))),
{
    let stack = rest.stack.push(a).push(b);
    assert(without_top(stack, 2) =~= rest.stack);
}

/// A global that was defined is read back with the value it was defined
/// with, under any constant that holds its name; defining leaves the value
/// on the stack.
pub proof fn defined_global_is_read_back(m: MachineView, define: usize, get: usize)
    requires
        m.stack.len() > 0,
        name_at(m.chunk, define) is Some,
        name_at(m.chunk, get) == name_at(m.chunk, define),
    ensures
        execute_spec(m, OpCode::DefineGlobal(define)).1 is Continue,
        execute_spec(m, OpCode::DefineGlobal(define)).0.stack == m.stack,
        execute_spec(execute_spec(m, OpCode::DefineGlobal(define)).0, OpCode::GetGlobal(get))
            == pushed(execute_spec(m, OpCode::DefineGlobal(define)).0, m.stack.last()),
{
}

/// `SetGlobal` binds the name to the value on top of the stack, which it
/// takes off, in place of what the name was bound to; a name that was not
/// bound is bound by it. No other name changes.
pub proof fn set_global_overwrites(m: MachineView, index: usize)
    requires
        m.stack.len() > 0,
        name_at(m.chunk, index) is Some,
    ensures
        execute_spec(m, OpCode::SetGlobal(index)).1 is Continue,
        execute_spec(m, OpCode::SetGlobal(index)).0.stack == m.stack.drop_last(),
        execute_spec(m, OpCode::SetGlobal(index)).0.globals == m.globals.insert(
            name_at(m.chunk, index)->0,
            m.stack.last(),
        ),
        execute_spec(m, OpCode::SetGlobal(index)).0.globals[name_at(m.chunk, index)->0]
            == m.stack.last(),
        forall|other: Seq<char>|
            other != name_at(m.chunk, index)->0 ==> (execute_spec(
                m,
                OpCode::SetGlobal(index),
            ).0.globals.contains_key(other) == m.globals.contains_key(other)),
{
    assert(without_top(m.stack, 1) =~= m.stack.drop_last());
}

/// `GetGlobal` of a name that is not bound fails.
pub proof fn unbound_global_fails(m: MachineView, index: usize)
    requires
        name_at(m.chunk, index) is Some,
        !m.globals.contains_key(name_at(m.chunk, index)->0),
    ensures
        execute_spec(m, OpCode::GetGlobal(index)) == failed(m),
{
}

/// In a chunk whose instructions refer only to what the chunk holds, the
/// counter never leaves the chunk: from a position within the chunk or at
/// its end, every step leads to a position within the chunk or at its end.
pub proof fn counter_stays_in_sound_chunk(m: MachineView)
    requires
        sound(m.chunk),
        fits(m.chunk),
        m.pc <= m.chunk.code.len(),
    ensures
        step_spec(m).0.pc <= m.chunk.code.len(),
        step_spec(m).0.chunk == m.chunk,
{
}

/// In a chunk whose instructions refer only to what the chunk holds, no
/// instruction fails for a constant it cannot find: pushing a constant
/// always goes on, defining a global fails on an empty stack only, and so
/// does setting one.
pub proof fn sound_chunk_finds_its_constants(m: MachineView)
    requires
        sound(m.chunk),
        m.pc < m.chunk.code.len(),
    ensures
        m.chunk.code[m.pc as int] is Constant ==> step_spec(m).1 is Continue,
        m.chunk.code[m.pc as int] is DefineGlobal && m.stack.len() > 0 ==> step_spec(m).1
            is Continue,
        m.chunk.code[m.pc as int] is SetGlobal && m.stack.len() > 0 ==> step_spec(m).1
            is Continue,
{
}

/// A conditional jump whose condition is `false` or `null` goes on `offset`
/// instructions after the one that follows it; with any other condition it
/// goes on with the one that follows it. The condition stays on the stack.
pub proof fn conditional_jump_lands(m: MachineView, offset: usize)
    requires
        m.pc < m.chunk.code.len(),
        m.chunk.code[m.pc as int] == OpCode::JumpIfFalse(offset),
        m.stack.len() > 0,
        m.pc + 1 + offset <= usize::MAX,
    ensures
        step_spec(m).1 is Continue,
        step_spec(m).0.stack == m.stack,
        step_spec(m).0.pc == (if falsey(m.stack.last()) {
            m.pc + 1 + offset
        } else {
            m.pc + 1
        }),
{
}

fn push_value(stack: &mut Vec<Value>, value: Value)
    ensures
        views(final(stack)@) == views(old(stack)@).push(value@),
{
    stack.push(value);
    assert(views(stack@) =~= views(old(stack)@).push(value@));
}

fn pop_value(stack: &mut Vec<Value>) -> (value: Option<Value>)
    ensures
        views(final(stack)@) == without_top(views(old(stack)@), 1),
        old(stack)@.len() > 0 ==> value.is_some() && value.unwrap()@ == views(old(stack)@).last(),
        old(stack)@.len() == 0 ==> value.is_none(),
{
    let value = stack.pop();
    assert(views(stack@) =~= without_top(views(old(stack)@), 1));
    value
}

fn replace_value(stack: &mut Vec<Value>, index: usize, value: Value)
    requires
        index < old(stack)@.len(),
    ensures
        views(final(stack)@) == views(old(stack)@).update(index as int, value@),
{
    stack.set(index, value);
    assert(views(stack@) =~= views(old(stack)@).update(index as int, value@));
}

fn constant_name(chunk: &Chunk, index: usize) -> (name: Option<String>)
    ensures
        name.is_some() == name_at(chunk@, index).is_some(),
        name.is_some() ==> name.unwrap()@ == name_at(chunk@, index).unwrap(),
{
    match chunk.get_constant(index) {
        Some(constant) => match constant {
            Value::String(name) => Some(name.clone()),
            _ => None,
        },
        None => None,
    }
}

impl VirtualMachine {
    /// A machine at the start of `chunk`, with an empty stack and no globals.
    pub fn new(chunk: Chunk) -> (vm: VirtualMachine)
        ensures
            vm@ == boot(chunk@, Map::empty()),
    {
        let vm = VirtualMachine { chunk, pc: 0, stack: Vec::new(), globals: Globals::new() };
        assert(views(vm.stack@) =~= Seq::<ValueView>::empty());
        vm
    }

    /// A machine at the start of `chunk`, with an empty stack and the
    /// globals that an earlier run left.
    pub fn new_with_globals(chunk: Chunk, globals: Globals) -> (vm: VirtualMachine)
        ensures
            vm@ == boot(chunk@, globals@),
    {
        let vm = VirtualMachine { chunk, pc: 0, stack: Vec::new(), globals };
        assert(views(vm.stack@) =~= Seq::<ValueView>::empty());
        vm
    }

    /// The position of the instruction that runs next.
    pub fn pc(&self) -> (pc: usize)
        ensures
            pc == self@.pc,
    {
        self.pc
    }

    /// The chunk that the machine runs.
    pub fn chunk(&self) -> (chunk: &Chunk)
        ensures
            chunk@ == self@.chunk,
    {
        &self.chunk
    }

    /// Gives up the machine for its globals, to hand them to the next one.
    pub fn into_globals(self) -> (globals: Globals)
        ensures
            globals@ == self@.globals,
    {
        self.globals
    }

    /// Pushes the number that the host computed in answer to a
    /// [`Signal::Compute`].
    pub fn supply(&mut self, bits: u64)
        ensures
            final(self)@ == supplied(old(self)@, bits),
    {
        push_value(&mut self.stack, Value::Number(bits));
    }

    fn binary(&mut self, op: OpCode) -> (signal: Signal)
        ensures
            (final(self)@, signal@) == binary_spec(old(self)@, op),
    {
        let right = pop_value(&mut self.stack);
        let left = pop_value(&mut self.stack);
        assert(views(self.stack@) =~= without_top(old(self)@.stack, 2));
        let (left, right) = match (left, right) {
            (Some(left), Some(right)) => (left, right),
            _ => {
                return Signal::Halt(InterpretResult::RuntimeError);
            },
        };
        assert(left@ == old(self)@.stack[old(self)@.stack.len() - 2]);
        assert(right@ == old(self)@.stack[old(self)@.stack.len() - 1]);
        match op {
            OpCode::Equal => {
                let answer = value_equal(left, right);
                push_value(&mut self.stack, Value::Boolean(answer));
                return Signal::Continue;
            },
            OpCode::NotEqual => {
                let answer = !value_equal(left, right);
                push_value(&mut self.stack, Value::Boolean(answer));
                return Signal::Continue;
            },
            _ => {},
        }
        match (left, right) {
            (Value::Number(a), Value::Number(b)) => {
                let answer = match op {
                    OpCode::Greater => greater(a, b),
                    OpCode::GreaterEqual => greater_equal(a, b),
                    OpCode::Less => less(a, b),
                    OpCode::LessEqual => less_equal(a, b),
                    OpCode::Add => {
                        return Signal::Compute(ArithOp::Add, a, b);
                    },
                    OpCode::Subtract => {
                        return Signal::Compute(ArithOp::Subtract, a, b);
                    },
                    OpCode::Multiply => {
                        return Signal::Compute(ArithOp::Multiply, a, b);
                    },
                    OpCode::Divide => {
                        if is_zero(b) {
                            return Signal::Halt(InterpretResult::RuntimeError);
                        }
                        return Signal::Compute(ArithOp::Divide, a, b);
                    },
                    _ => {
                        return Signal::Halt(InterpretResult::RuntimeError);
                    },
                };
                push_value(&mut self.stack, Value::Boolean(answer));
                Signal::Continue
            },
            (Value::String(a), Value::String(b)) => {
                match op {
                    OpCode::Add => {
                        push_value(&mut self.stack, Value::String(a.concat(b.as_str())));
                        Signal::Continue
                    },
                    _ => Signal::Halt(InterpretResult::RuntimeError),
                }
            },
            _ => Signal::Halt(InterpretResult::RuntimeError),
        }
    }

    fn jump(&mut self, offset: usize) -> (signal: Signal)
        ensures
            (final(self)@, signal@) == jump_spec(old(self)@, offset),
    {
        match self.pc.checked_add(offset) {
            Some(target) => {
                self.pc = target;
                Signal::Continue
            },
            None => Signal::Halt(InterpretResult::RuntimeError),
        }
    }

    fn push(&mut self, value: Value) -> (signal: Signal)
        ensures
            (final(self)@, signal@) == pushed(old(self)@, value@),
    {
        push_value(&mut self.stack, value);
        Signal::Continue
    }

    fn constant(&mut self, index: usize) -> (signal: Signal)
        ensures
            (final(self)@, signal@) == execute_spec(old(self)@, OpCode::Constant(index)),
    {
        match self.chunk.get_constant(index) {
            Some(constant) => {
                let value = constant.duplicate();
                self.push(value)
            },
            None => Signal::Halt(InterpretResult::RuntimeError),
        }
    }

    fn not(&mut self) -> (signal: Signal)
        ensures
            (final(self)@, signal@) == execute_spec(old(self)@, OpCode::Not),
    {
        let height = self.stack.len();
        if height == 0 {
            return Signal::Halt(InterpretResult::RuntimeError);
        }
        let answer = is_falsey(&self.stack[height - 1]);
        replace_value(&mut self.stack, height - 1, Value::Boolean(answer));
        Signal::Continue
    }

    fn negate(&mut self) -> (signal: Signal)
        ensures
            (final(self)@, signal@) == execute_spec(old(self)@, OpCode::Negate),
    {
        let height = self.stack.len();
        if height == 0 {
            return Signal::Halt(InterpretResult::RuntimeError);
        }
        match self.stack[height - 1] {
            Value::Number(bits) => {
                replace_value(&mut self.stack, height - 1, Value::Number(negate(bits)));
                Signal::Continue
            },
            _ => Signal::Halt(InterpretResult::RuntimeError),
        }
    }

    fn define_global(&mut self, index: usize) -> (signal: Signal)
        ensures
            (final(self)@, signal@) == execute_spec(old(self)@, OpCode::DefineGlobal(index)),
    {
        let height = self.stack.len();
        match constant_name(&self.chunk, index) {
            Some(name) => {
                if height == 0 {
                    return Signal::Halt(InterpretResult::RuntimeError);
                }
                let value = self.stack[height - 1].duplicate();
                self.globals.insert(name, value);
                Signal::Continue
            },
            None => Signal::Halt(InterpretResult::RuntimeError),
        }
    }

    fn get_global(&mut self, index: usize) -> (signal: Signal)
        ensures
            (final(self)@, signal@) == execute_spec(old(self)@, OpCode::GetGlobal(index)),
    {
        match constant_name(&self.chunk, index) {
            Some(name) => {
                match self.globals.get(name.as_str()) {
                    Some(found) => {
                        let value = found.duplicate();
                        self.push(value)
                    },
                    None => Signal::Halt(InterpretResult::RuntimeError),
                }
            },
            None => Signal::Halt(InterpretResult::RuntimeError),
        }
    }

    fn set_global(&mut self, index: usize) -> (signal: Signal)
        ensures
            (final(self)@, signal@) == execute_spec(old(self)@, OpCode::SetGlobal(index)),
    {
        match constant_name(&self.chunk, index) {
            Some(name) => {
                match pop_value(&mut self.stack) {
                    Some(value) => {
                        self.globals.insert(name, value);
                        Signal::Continue
                    },
                    None => {
                        assert(self@.stack =~= old(self)@.stack);
                        Signal::Halt(InterpretResult::RuntimeError)
                    },
                }
            },
            None => Signal::Halt(InterpretResult::RuntimeError),
        }
    }

    fn get_local(&mut self, slot: usize) -> (signal: Signal)
        ensures
            (final(self)@, signal@) == execute_spec(old(self)@, OpCode::GetLocal(slot)),
    {
        if slot == 0 || slot > self.stack.len() {
            return Signal::Halt(InterpretResult::RuntimeError);
        }
        let value = self.stack[slot - 1].duplicate();
        self.push(value)
    }

    fn set_local(&mut self, slot: usize) -> (signal: Signal)
        ensures
            (final(self)@, signal@) == execute_spec(old(self)@, OpCode::SetLocal(slot)),
    {
        let height = self.stack.len();
        if slot == 0 || slot > height {
            return Signal::Halt(InterpretResult::RuntimeError);
        }
        let value = self.stack[height - 1].duplicate();
        replace_value(&mut self.stack, slot - 1, value);
        Signal::Continue
    }

    fn jump_if_false(&mut self, offset: usize) -> (signal: Signal)
        ensures
            (final(self)@, signal@) == execute_spec(old(self)@, OpCode::JumpIfFalse(offset)),
    {
        let height = self.stack.len();
        if height == 0 {
            return Signal::Halt(InterpretResult::RuntimeError);
        }
        if is_falsey(&self.stack[height - 1]) {
            self.jump(offset)
        } else {
            Signal::Continue
        }
    }

    fn loop_back(&mut self, offset: usize) -> (signal: Signal)
        ensures
            (final(self)@, signal@) == execute_spec(old(self)@, OpCode::Loop(offset)),
    {
        if offset > self.pc {
            return Signal::Halt(InterpretResult::RuntimeError);
        }
        self.pc = self.pc - offset;
        Signal::Continue
    }

    fn pop(&mut self) -> (signal: Signal)
        ensures
            (final(self)@, signal@) == execute_spec(old(self)@, OpCode::Pop),
    {
        let _ = pop_value(&mut self.stack);
        Signal::Continue
    }

    fn pop_result(&mut self) -> (signal: Signal)
        ensures
            (final(self)@, signal@) == execute_spec(old(self)@, OpCode::Return),
    {
        match pop_value(&mut self.stack) {
            Some(value) => Signal::Return(value),
            None => Signal::Return(Value::Null),
        }
    }

    fn execute(&mut self, op: OpCode) -> (signal: Signal)
        ensures
            (final(self)@, signal@) == execute_spec(old(self)@, op),
    {
        match op {
            OpCode::Constant(index) => self.constant(index),
            OpCode::True => self.push(Value::Boolean(true)),
            OpCode::False => self.push(Value::Boolean(false)),
            OpCode::Null => self.push(Value::Null),
            OpCode::Not => self.not(),
            OpCode::Negate => self.negate(),
            OpCode::Equal
            | OpCode::NotEqual
            | OpCode::Greater
            | OpCode::GreaterEqual
            | OpCode::Less
            | OpCode::LessEqual
            | OpCode::Add
            | OpCode::Subtract
            | OpCode::Multiply
            | OpCode::Divide => self.binary(op),
            OpCode::Pop => self.pop(),
            OpCode::DefineGlobal(index) => self.define_global(index),
            OpCode::GetGlobal(index) => self.get_global(index),
            OpCode::SetGlobal(index) => self.set_global(index),
            OpCode::GetLocal(slot) => self.get_local(slot),
            OpCode::SetLocal(slot) => self.set_local(slot),
            OpCode::JumpIfFalse(offset) => self.jump_if_false(offset),
            OpCode::Jump(offset) => self.jump(offset),
            OpCode::Loop(offset) => self.loop_back(offset),
            OpCode::Return => self.pop_result(),
        }
    }

    /// Runs one instruction, as [`step_spec`] says. The result of a halt is
    /// `Success` or `RuntimeError`, never `CompileError`.
    pub fn step(&mut self) -> (signal: Signal)
        ensures
            (final(self)@, signal@) == step_spec(old(self)@),
            signal@ != SignalView::Halt(InterpretResult::CompileError),
    {
        match self.chunk.get(self.pc) {
            None => Signal::Halt(InterpretResult::Success),
            Some(op) => {
                proof {
                    self.chunk.lemma_bounded();
                }
                self.pc = self.pc + 1;
                self.execute(op)
            },
        }
    }

    /// Runs instructions until one gives a signal other than `Continue`, or
    /// until `budget` instructions have run, as [`run_spec`] says. A program
    /// may loop for ever; the budget is what makes every call return. The
    /// result of a halt is `Success` or `RuntimeError`, never `CompileError`.
    pub fn interpret(&mut self, budget: usize) -> (signal: Signal)
        ensures
            (final(self)@, signal@) == run_spec(old(self)@, budget as nat),
            signal@ != SignalView::Halt(InterpretResult::CompileError),
    {
        let mut left = budget;
        while left > 0
            invariant
                run_spec(self@, left as nat) == run_spec(old(self)@, budget as nat),
            decreases left,
        {
            let signal = self.step();
            match signal {
                Signal::Continue => {
                    left = left - 1;
                },
                _ => {
                    return signal;
                },
            }
        }
        Signal::Continue
    }

    /// Runs instructions as [`VirtualMachine::interpret`] does, and answers
    /// every `Compute` itself with a call of `arithmetic`, as [`driven`]
    /// says. The signal is `Continue` where the budget ended the run, and
    /// else a `Halt` with `Success` or `RuntimeError`, or a `Return`.
    pub fn run<F: Fn(ArithOp, u64, u64) -> u64>(&mut self, arithmetic: F, budget: usize) -> (signal:
        Signal)
        requires
            forall|op: ArithOp, lhs: u64, rhs: u64| arithmetic.requires((op, lhs, rhs)),
        ensures
            driven(arithmetic, old(self)@, budget as nat, final(self)@, signal@),
            !(signal@ is Compute),
            signal@ != SignalView::Halt(InterpretResult::CompileError),
    {
        let mut left = budget;
        while left > 0
            invariant
                forall|op: ArithOp, lhs: u64, rhs: u64| arithmetic.requires((op, lhs, rhs)),
                forall|end: MachineView, last: SignalView| #[trigger]
                    driven(arithmetic, self@, left as nat, end, last) ==> driven(
                        arithmetic,
                        old(self)@,
                        budget as nat,
                        end,
                        last,
                    ),
            decreases left,
        {
            let ghost before = self@;
            let signal = self.step();
            match signal {
                Signal::Continue => {},
                Signal::Compute(op, lhs, rhs) => {
                    let result = arithmetic(op, lhs, rhs);
                    self.supply(result);
                },
                _ => {
                    assert(driven(arithmetic, before, left as nat, self@, signal@));
                    return signal;
                },
            }
            let ghost budget_before = left as nat;
            left = left - 1;
            assert forall|end: MachineView, last: SignalView| #[trigger]
                driven(arithmetic, self@, left as nat, end, last) implies driven(
                arithmetic,
                old(self)@,
                budget as nat,
                end,
                last,
            ) by {
                assert(driven(arithmetic, before, budget_before, end, last));
            }
        }
        assert(driven(arithmetic, self@, 0, self@, SignalView::Continue));
        Signal::Continue
    }
}

} // verus!

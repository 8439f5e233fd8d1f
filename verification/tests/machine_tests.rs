use bytecode_vm::chunk::{Chunk, OpCode};
use bytecode_vm::globals::Globals;
use bytecode_vm::number::ArithOp;
use bytecode_vm::value::Value;
use bytecode_vm::vm::{InterpretResult, Signal, VirtualMachine};

fn number(x: f64) -> Value {
    Value::Number(x.to_bits())
}

fn text(s: &str) -> Value {
    Value::String(s.to_string())
}

fn chunk_of(code: &[OpCode], constants: &[Value]) -> Chunk {
    let mut chunk = Chunk::new();
    for value in constants {
        chunk.add_constant(value.clone());
    }
    for op in code {
        chunk.append(*op);
    }
    chunk
}

fn machine(code: &[OpCode], constants: &[Value]) -> VirtualMachine {
    VirtualMachine::new(chunk_of(code, constants))
}

fn compute(op: ArithOp, lhs: u64, rhs: u64) -> u64 {
    let (x, y) = (f64::from_bits(lhs), f64::from_bits(rhs));
    let z = match op {
        ArithOp::Add => x + y,
        ArithOp::Subtract => x - y,
        ArithOp::Multiply => x * y,
        ArithOp::Divide => x / y,
    };
    z.to_bits()
}

const FAIL: Signal = Signal::Halt(InterpretResult::RuntimeError);
const DONE: Signal = Signal::Halt(InterpretResult::Success);

#[test]
fn a_new_machine_is_at_the_start() {
    let vm = machine(&[OpCode::True], &[]);
    assert_eq!(vm.pc(), 0);
    assert!(vm.stack.is_empty());
    assert_eq!(vm.globals.len(), 0);
    assert_eq!(vm.chunk().len(), 1);
}

#[test]
fn an_empty_chunk_ends_at_once() {
    let mut vm = machine(&[], &[]);
    assert_eq!(vm.step(), DONE);
    assert_eq!(vm.pc(), 0);
    assert_eq!(vm.interpret(10), DONE);
    assert_eq!(vm.run(compute, 10), DONE);
}

#[test]
fn literals_are_pushed() {
    let mut vm = machine(
        &[
            OpCode::Constant(0),
            OpCode::True,
            OpCode::False,
            OpCode::Null,
        ],
        &[number(1.5)],
    );
    assert_eq!(vm.step(), Signal::Continue);
    assert_eq!(vm.pc(), 1);
    assert_eq!(vm.interpret(10), DONE);
    assert_eq!(vm.pc(), 4);
    assert_eq!(
        vm.stack,
        vec![
            number(1.5),
            Value::Boolean(true),
            Value::Boolean(false),
            Value::Null
        ]
    );
}

#[test]
fn a_constant_that_is_not_there_fails() {
    let mut vm = machine(&[OpCode::Constant(1)], &[number(1.0)]);
    assert_eq!(vm.step(), FAIL);
    assert_eq!(vm.pc(), 1);
    assert!(vm.stack.is_empty());
}

#[test]
fn zero_budget_runs_nothing() {
    let mut vm = machine(&[OpCode::True], &[]);
    assert_eq!(vm.interpret(0), Signal::Continue);
    assert_eq!(vm.pc(), 0);
    assert_eq!(vm.run(compute, 0), Signal::Continue);
    assert_eq!(vm.pc(), 0);
    assert_eq!(vm.interpret(1), Signal::Continue);
    assert_eq!(vm.pc(), 1);
    assert_eq!(vm.interpret(1), DONE);
}

#[test]
fn not_answers_for_every_value() {
    let cases = [
        (Value::Boolean(true), false),
        (Value::Boolean(false), true),
        (Value::Null, true),
        (number(0.0), false),
        (number(1.0), false),
        (text(""), false),
    ];
    for (value, answer) in cases {
        let mut vm = machine(&[OpCode::Constant(0), OpCode::Not], &[value]);
        assert_eq!(vm.interpret(10), DONE);
        assert_eq!(vm.stack, vec![Value::Boolean(answer)]);
    }
    let mut vm = machine(&[OpCode::Not], &[]);
    assert_eq!(vm.step(), FAIL);
}

#[test]
fn negate_takes_a_number_only() {
    let mut vm = machine(&[OpCode::Constant(0), OpCode::Negate], &[number(1.2)]);
    assert_eq!(vm.interpret(10), DONE);
    assert_eq!(vm.stack, vec![number(-1.2)]);
    for value in [Value::Boolean(true), Value::Null, text("1")] {
        let mut vm = machine(&[OpCode::Constant(0), OpCode::Negate], &[value.clone()]);
        assert_eq!(vm.interpret(10), FAIL);
        assert_eq!(vm.stack, vec![value]);
    }
    let mut vm = machine(&[OpCode::Negate], &[]);
    assert_eq!(vm.step(), FAIL);
}

#[test]
fn arithmetic_is_asked_of_the_host_in_source_order() {
    let cases = [
        (OpCode::Add, ArithOp::Add),
        (OpCode::Subtract, ArithOp::Subtract),
        (OpCode::Multiply, ArithOp::Multiply),
        (OpCode::Divide, ArithOp::Divide),
    ];
    for (op, asked) in cases {
        let mut vm = machine(
            &[OpCode::Null, OpCode::Constant(0), OpCode::Constant(1), op],
            &[number(10.0), number(5.0)],
        );
        assert_eq!(
            vm.interpret(10),
            Signal::Compute(asked, 10.0f64.to_bits(), 5.0f64.to_bits())
        );
        assert_eq!(vm.stack, vec![Value::Null]);
        vm.supply(7.0f64.to_bits());
        assert_eq!(vm.stack, vec![Value::Null, number(7.0)]);
        assert_eq!(vm.interpret(10), DONE);
    }
}

#[test]
fn run_does_the_arithmetic() {
    let cases = [
        (OpCode::Add, 15.0),
        (OpCode::Subtract, 5.0),
        (OpCode::Multiply, 50.0),
        (OpCode::Divide, 2.0),
    ];
    for (op, result) in cases {
        let mut vm = machine(
            &[OpCode::Constant(0), OpCode::Constant(1), op],
            &[number(10.0), number(5.0)],
        );
        assert_eq!(vm.run(compute, 10), DONE);
        assert_eq!(vm.stack, vec![number(result)]);
    }
}

#[test]
fn division_by_zero_fails_and_pushes_nothing() {
    for zero in [0.0, -0.0] {
        let mut vm = machine(
            &[OpCode::True, OpCode::Constant(0), OpCode::Constant(1), OpCode::Divide],
            &[number(10.0), number(zero)],
        );
        assert_eq!(vm.run(compute, 10), FAIL);
        assert_eq!(vm.stack, vec![Value::Boolean(true)]);
        assert_eq!(vm.pc(), 4);
    }
}

#[test]
fn zero_divided_is_no_error() {
    let mut vm = machine(
        &[OpCode::Constant(0), OpCode::Constant(1), OpCode::Divide],
        &[number(0.0), number(4.0)],
    );
    assert_eq!(vm.run(compute, 10), DONE);
    assert_eq!(vm.stack, vec![number(0.0)]);
}

#[test]
fn add_joins_texts_left_before_right() {
    let mut vm = machine(
        &[OpCode::Constant(0), OpCode::Constant(1), OpCode::Add],
        &[text("hola"), text(" mundo")],
    );
    assert_eq!(vm.interpret(10), DONE);
    assert_eq!(vm.stack, vec![text("hola mundo")]);
}

#[test]
fn operands_of_the_wrong_kind_fail_and_leave_the_stack() {
    let ops = [
        OpCode::Add,
        OpCode::Subtract,
        OpCode::Multiply,
        OpCode::Divide,
        OpCode::Less,
        OpCode::LessEqual,
        OpCode::Greater,
        OpCode::GreaterEqual,
    ];
    for op in ops {
        let pairs = [
            (number(1.0), text("a")),
            (text("a"), number(1.0)),
            (Value::Boolean(true), Value::Boolean(false)),
            (Value::Null, Value::Null),
        ];
        for (left, right) in pairs {
            let mut vm = machine(
                &[OpCode::Null, OpCode::Constant(0), OpCode::Constant(1), op],
                &[left, right],
            );
            assert_eq!(vm.run(compute, 10), FAIL, "{:?}", op);
            assert_eq!(vm.stack, vec![Value::Null]);
        }
        if op != OpCode::Add {
            let mut vm = machine(
                &[OpCode::Constant(0), OpCode::Constant(1), op],
                &[text("a"), text("b")],
            );
            assert_eq!(vm.run(compute, 10), FAIL, "{:?}", op);
        }
        let mut vm = machine(&[OpCode::Constant(0), op], &[number(1.0)]);
        assert_eq!(vm.run(compute, 10), FAIL);
        assert!(vm.stack.is_empty());
        let mut vm = machine(&[op], &[]);
        assert_eq!(vm.run(compute, 10), FAIL);
    }
}

#[test]
fn comparisons_answer_in_source_order() {
    let cases = [
        (OpCode::Less, 1.0, 2.0, true),
        (OpCode::Less, 2.0, 1.0, false),
        (OpCode::Less, 1.0, 1.0, false),
        (OpCode::LessEqual, 1.0, 1.0, true),
        (OpCode::LessEqual, 1.0, 0.0, false),
        (OpCode::Greater, 1.0, 0.0, true),
        (OpCode::Greater, 1.0, 1.0, false),
        (OpCode::GreaterEqual, 1.0, 1.0, true),
        (OpCode::GreaterEqual, 1.0, 2.0, false),
        (OpCode::Less, -1.0, 0.5, true),
        (OpCode::Greater, -1.0, -2.0, true),
    ];
    for (op, left, right, answer) in cases {
        let mut vm = machine(
            &[OpCode::Constant(0), OpCode::Constant(1), op],
            &[number(left), number(right)],
        );
        assert_eq!(vm.interpret(10), DONE);
        assert_eq!(vm.stack, vec![Value::Boolean(answer)], "{:?} {} {}", op, left, right);
    }
}

#[test]
fn equality_takes_any_two_values() {
    let cases = [
        (number(1.0), number(1.0), true),
        (number(1.0), number(2.0), false),
        (text("hola"), text("hola"), true),
        (text("hola"), text("mundo"), false),
        (Value::Null, Value::Null, true),
        (Value::Null, Value::Boolean(false), false),
        (number(0.0), Value::Boolean(false), false),
        (text("1"), number(1.0), false),
    ];
    for (left, right, answer) in cases {
        let mut vm = machine(
            &[OpCode::Constant(0), OpCode::Constant(1), OpCode::Equal],
            &[left.clone(), right.clone()],
        );
        assert_eq!(vm.interpret(10), DONE);
        assert_eq!(vm.stack, vec![Value::Boolean(answer)]);
        let mut vm = machine(
            &[OpCode::Constant(0), OpCode::Constant(1), OpCode::NotEqual],
            &[left, right],
        );
        assert_eq!(vm.interpret(10), DONE);
        assert_eq!(vm.stack, vec![Value::Boolean(!answer)]);
    }
    let mut vm = machine(&[OpCode::True, OpCode::Equal], &[]);
    assert_eq!(vm.interpret(10), FAIL);
    assert!(vm.stack.is_empty());
}

#[test]
fn pop_on_an_empty_stack_is_no_error() {
    let mut vm = machine(&[OpCode::Pop, OpCode::True, OpCode::Pop], &[]);
    assert_eq!(vm.interpret(10), DONE);
    assert!(vm.stack.is_empty());
}

#[test]
fn define_global_keeps_the_value_on_the_stack() {
    let mut vm = machine(
        &[OpCode::Constant(0), OpCode::DefineGlobal(1)],
        &[number(1.0), text("a")],
    );
    assert_eq!(vm.interpret(10), DONE);
    assert_eq!(vm.stack, vec![number(1.0)]);
    assert_eq!(vm.globals.get("a"), Some(&number(1.0)));
    assert_eq!(vm.globals.len(), 1);
    assert!(vm.globals.contains("a"));
    assert!(!vm.globals.contains("b"));
}

#[test]
fn define_global_needs_a_name_and_a_value() {
    let mut vm = machine(&[OpCode::DefineGlobal(0)], &[text("a")]);
    assert_eq!(vm.interpret(10), FAIL);
    let mut vm = machine(&[OpCode::True, OpCode::DefineGlobal(0)], &[number(1.0)]);
    assert_eq!(vm.interpret(10), FAIL);
    let mut vm = machine(&[OpCode::True, OpCode::DefineGlobal(3)], &[text("a")]);
    assert_eq!(vm.interpret(10), FAIL);
    assert_eq!(vm.globals.len(), 0);
}

#[test]
fn get_global_of_an_unknown_name_fails() {
    let mut vm = machine(&[OpCode::GetGlobal(0)], &[text("a")]);
    assert_eq!(vm.interpret(10), FAIL);
    assert!(vm.stack.is_empty());
    let mut vm = machine(&[OpCode::GetGlobal(0)], &[number(1.0)]);
    assert_eq!(vm.interpret(10), FAIL);
    let mut vm = machine(&[OpCode::GetGlobal(1)], &[text("a")]);
    assert_eq!(vm.interpret(10), FAIL);
}

#[test]
fn set_global_of_an_unknown_name_defines_it() {
    let mut vm = machine(&[OpCode::Constant(0), OpCode::SetGlobal(1)], &[number(3.0), text("a")]);
    assert_eq!(vm.interpret(10), DONE);
    assert!(vm.stack.is_empty());
    assert_eq!(vm.globals.get("a"), Some(&number(3.0)));
}

#[test]
fn set_global_overwrites_and_pops() {
    let mut globals = Globals::new();
    globals.insert("a".to_string(), number(1.0));
    globals.insert("b".to_string(), number(2.0));
    let chunk = chunk_of(
        &[OpCode::Null, OpCode::Constant(0), OpCode::SetGlobal(1)],
        &[number(3.0), text("a")],
    );
    let mut vm = VirtualMachine::new_with_globals(chunk, globals);
    assert_eq!(vm.interpret(10), DONE);
    assert_eq!(vm.stack, vec![Value::Null]);
    let globals = vm.into_globals();
    assert_eq!(globals.get("a"), Some(&number(3.0)));
    assert_eq!(globals.get("b"), Some(&number(2.0)));
    assert_eq!(globals.len(), 2);
}

#[test]
fn set_global_needs_a_name_and_a_value() {
    let mut vm = machine(&[OpCode::SetGlobal(0)], &[text("a")]);
    assert_eq!(vm.interpret(10), FAIL);
    let mut vm = machine(&[OpCode::True, OpCode::SetGlobal(0)], &[number(1.0)]);
    assert_eq!(vm.interpret(10), FAIL);
    assert_eq!(vm.stack, vec![Value::Boolean(true)]);
}

#[test]
fn globals_are_handed_to_the_next_machine() {
    let mut first = machine(
        &[OpCode::Constant(0), OpCode::DefineGlobal(1)],
        &[number(1.0), text("a")],
    );
    assert_eq!(first.interpret(10), DONE);
    let chunk = chunk_of(&[OpCode::GetGlobal(0)], &[text("a")]);
    let mut second = VirtualMachine::new_with_globals(chunk, first.into_globals());
    assert_eq!(second.pc(), 0);
    assert!(second.stack.is_empty());
    assert_eq!(second.interpret(10), DONE);
    assert_eq!(second.stack, vec![number(1.0)]);
}

#[test]
fn locals_are_read_and_written_by_slot() {
    let mut vm = machine(
        &[
            OpCode::True,
            OpCode::False,
            OpCode::GetLocal(1),
            OpCode::Null,
            OpCode::SetLocal(2),
        ],
        &[],
    );
    assert_eq!(vm.interpret(10), DONE);
    assert_eq!(
        vm.stack,
        vec![
            Value::Boolean(true),
            Value::Null,
            Value::Boolean(true),
            Value::Null
        ]
    );
}

#[test]
fn a_slot_outside_the_stack_fails() {
    for op in [
        OpCode::GetLocal(0),
        OpCode::GetLocal(2),
        OpCode::SetLocal(0),
        OpCode::SetLocal(2),
        OpCode::GetLocal(usize::MAX),
    ] {
        let mut vm = machine(&[OpCode::True, op], &[]);
        assert_eq!(vm.interpret(10), FAIL, "{:?}", op);
        assert_eq!(vm.stack, vec![Value::Boolean(true)]);
    }
    let mut vm = machine(&[OpCode::GetLocal(1)], &[]);
    assert_eq!(vm.interpret(10), FAIL);
    let mut vm = machine(&[OpCode::SetLocal(1)], &[]);
    assert_eq!(vm.interpret(10), FAIL);
}

#[test]
fn jump_if_false_jumps_on_false_and_null_only() {
    let cases = [
        (OpCode::False, true),
        (OpCode::Null, true),
        (OpCode::True, false),
        (OpCode::Constant(0), false),
        (OpCode::Constant(1), false),
    ];
    for (condition, jumps) in cases {
        let mut vm = machine(
            &[condition, OpCode::JumpIfFalse(2), OpCode::Null, OpCode::Null, OpCode::True],
            &[number(0.0), text("")],
        );
        assert_eq!(vm.interpret(2), Signal::Continue);
        assert_eq!(vm.pc(), if jumps { 4 } else { 2 });
        assert_eq!(vm.stack.len(), 1);
        assert_eq!(vm.interpret(10), DONE);
        assert_eq!(vm.stack.len(), if jumps { 2 } else { 4 });
    }
    let mut vm = machine(&[OpCode::JumpIfFalse(0)], &[]);
    assert_eq!(vm.interpret(10), FAIL);
}

#[test]
fn jump_and_loop_move_the_counter() {
    let mut vm = machine(
        &[OpCode::Jump(1), OpCode::True, OpCode::False],
        &[],
    );
    assert_eq!(vm.interpret(10), DONE);
    assert_eq!(vm.stack, vec![Value::Boolean(false)]);
    let mut vm = machine(&[OpCode::True, OpCode::Loop(1)], &[]);
    assert_eq!(vm.interpret(2), Signal::Continue);
    assert_eq!(vm.pc(), 1);
    assert_eq!(vm.interpret(7), Signal::Continue);
    assert_eq!(vm.pc(), 1);
    assert_eq!(vm.stack, vec![Value::Boolean(true)]);
    let mut vm = machine(&[OpCode::True, OpCode::Null, OpCode::Loop(2)], &[]);
    assert_eq!(vm.interpret(3), Signal::Continue);
    assert_eq!(vm.pc(), 1);
    assert_eq!(vm.interpret(2), Signal::Continue);
    assert_eq!(vm.pc(), 1);
    assert_eq!(
        vm.stack,
        vec![Value::Boolean(true), Value::Null, Value::Null]
    );
}

#[test]
fn a_jump_past_the_end_ends_the_run() {
    let mut vm = machine(&[OpCode::Jump(10), OpCode::True], &[]);
    assert_eq!(vm.interpret(10), DONE);
    assert_eq!(vm.pc(), 11);
    assert!(vm.stack.is_empty());
}

#[test]
fn a_jump_out_of_every_range_fails() {
    let mut vm = machine(&[OpCode::Jump(usize::MAX)], &[]);
    assert_eq!(vm.interpret(10), FAIL);
    assert_eq!(vm.pc(), 1);
    let mut vm = machine(&[OpCode::True, OpCode::Loop(3)], &[]);
    assert_eq!(vm.interpret(10), FAIL);
    assert_eq!(vm.pc(), 2);
    let mut vm = machine(&[OpCode::False, OpCode::JumpIfFalse(usize::MAX)], &[]);
    assert_eq!(vm.interpret(10), FAIL);
}

#[test]
fn an_endless_loop_runs_as_long_as_the_budget() {
    let mut vm = machine(&[OpCode::Loop(1)], &[]);
    assert_eq!(vm.interpret(1000), Signal::Continue);
    assert_eq!(vm.interpret(1), Signal::Continue);
    assert_eq!(vm.run(compute, 1000), Signal::Continue);
    assert_eq!(vm.pc(), 0);
}

#[test]
fn return_pops_the_value_and_ends_the_run() {
    let mut vm = machine(&[OpCode::True, OpCode::Null, OpCode::Return, OpCode::False], &[]);
    assert_eq!(vm.interpret(10), Signal::Return(Value::Null));
    assert_eq!(vm.stack, vec![Value::Boolean(true)]);
    assert_eq!(vm.pc(), 3);
    let mut vm = machine(&[OpCode::Return], &[]);
    assert_eq!(vm.run(compute, 10), Signal::Return(Value::Null));
    assert!(vm.stack.is_empty());
}

#[test]
fn no_run_ends_in_a_compile_error() {
    let programs: [&[OpCode]; 4] = [
        &[OpCode::Negate],
        &[OpCode::True],
        &[OpCode::Return],
        &[OpCode::Constant(9)],
    ];
    for code in programs {
        let mut vm = machine(code, &[]);
        assert_ne!(
            vm.run(compute, 10),
            Signal::Halt(InterpretResult::CompileError)
        );
    }
}

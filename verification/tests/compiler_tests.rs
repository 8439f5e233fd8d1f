use bytecode_vm::chunk::{Chunk, OpCode};
use bytecode_vm::compiler::{binary_of, Compiler};
use bytecode_vm::diagnostic::{describe, ErrorKind};
use bytecode_vm::lexer::Lexer;
use bytecode_vm::token::{read_numbers, Token, TokenType};
use bytecode_vm::value::Value;
use bytecode_vm::vm::InterpretResult;

fn read(text: &str) -> Option<u64> {
    text.parse::<f64>().ok().map(f64::to_bits)
}

fn compiled(input: &str) -> Compiler {
    let mut compiler = Compiler::new(read_numbers(Lexer::new(input).tokenize(), read));
    compiler.compile();
    compiler
}

fn code_of(chunk: &Chunk) -> Vec<OpCode> {
    let mut code = Vec::new();
    let mut i = 0;
    while let Some(op) = chunk.get(i) {
        code.push(op);
        i += 1;
    }
    code
}

fn constants_of(chunk: &Chunk) -> Vec<Value> {
    let mut constants = Vec::new();
    let mut i = 0;
    while let Some(value) = chunk.get_constant(i) {
        constants.push(value.clone());
        i += 1;
    }
    constants
}

fn code(input: &str) -> Vec<OpCode> {
    let compiler = compiled(input);
    assert!(compiler.errors().is_empty(), "{:?}", compiler.errors());
    code_of(compiler.current_chunk())
}

fn errors(input: &str) -> Vec<String> {
    compiled(input).errors().clone()
}

fn number(x: f64) -> Value {
    Value::Number(x.to_bits())
}

fn text(s: &str) -> Value {
    Value::String(s.to_string())
}

#[test]
fn a_number_literal_is_one_constant() {
    let compiler = compiled("1.5");
    assert!(!compiler.had_error());
    assert_eq!(code_of(compiler.current_chunk()), vec![OpCode::Constant(0)]);
    assert_eq!(constants_of(compiler.current_chunk()), vec![number(1.5)]);
}

#[test]
fn literals_compile_to_their_instructions() {
    assert_eq!(code("true"), vec![OpCode::True]);
    assert_eq!(code("false"), vec![OpCode::False]);
    assert_eq!(code("null"), vec![OpCode::Null]);
    let compiler = compiled("\"hola\"");
    assert_eq!(code_of(compiler.current_chunk()), vec![OpCode::Constant(0)]);
    assert_eq!(constants_of(compiler.current_chunk()), vec![text("hola")]);
}

#[test]
fn the_left_operand_comes_first() {
    let compiler = compiled("10 - 5");
    assert_eq!(
        code_of(compiler.current_chunk()),
        vec![OpCode::Constant(0), OpCode::Constant(1), OpCode::Subtract]
    );
    assert_eq!(
        constants_of(compiler.current_chunk()),
        vec![number(10.0), number(5.0)]
    );
}

#[test]
fn every_binary_operator_has_its_instruction() {
    let cases = [
        ("1 + 2", OpCode::Add),
        ("1 - 2", OpCode::Subtract),
        ("1 * 2", OpCode::Multiply),
        ("1 / 2", OpCode::Divide),
        ("1 == 2", OpCode::Equal),
        ("1 != 2", OpCode::NotEqual),
        ("1 < 2", OpCode::Less),
        ("1 <= 2", OpCode::LessEqual),
        ("1 > 2", OpCode::Greater),
        ("1 >= 2", OpCode::GreaterEqual),
    ];
    for (input, op) in cases {
        assert_eq!(
            code(input),
            vec![OpCode::Constant(0), OpCode::Constant(1), op],
            "{}",
            input
        );
    }
}

#[test]
fn binding_powers_of_the_operators() {
    assert_eq!(binary_of(TokenType::Equal), Some((1, OpCode::Equal)));
    assert_eq!(binary_of(TokenType::NotEqual), Some((1, OpCode::NotEqual)));
    assert_eq!(binary_of(TokenType::Less), Some((2, OpCode::Less)));
    assert_eq!(binary_of(TokenType::GreaterEqual), Some((2, OpCode::GreaterEqual)));
    assert_eq!(binary_of(TokenType::Plus), Some((3, OpCode::Add)));
    assert_eq!(binary_of(TokenType::Minus), Some((3, OpCode::Subtract)));
    assert_eq!(binary_of(TokenType::Star), Some((4, OpCode::Multiply)));
    assert_eq!(binary_of(TokenType::Slash), Some((4, OpCode::Divide)));
    assert_eq!(binary_of(TokenType::Bang), None);
    assert_eq!(binary_of(TokenType::Eof), None);
}

#[test]
fn multiplication_binds_stronger_than_addition() {
    assert_eq!(
        code("1 + 2 * 3"),
        vec![
            OpCode::Constant(0),
            OpCode::Constant(1),
            OpCode::Constant(2),
            OpCode::Multiply,
            OpCode::Add
        ]
    );
    assert_eq!(
        code("1 * 2 + 3"),
        vec![
            OpCode::Constant(0),
            OpCode::Constant(1),
            OpCode::Multiply,
            OpCode::Constant(2),
            OpCode::Add
        ]
    );
}

#[test]
fn operators_of_one_power_group_to_the_left() {
    assert_eq!(
        code("1 - 2 - 3"),
        vec![
            OpCode::Constant(0),
            OpCode::Constant(1),
            OpCode::Subtract,
            OpCode::Constant(2),
            OpCode::Subtract
        ]
    );
}

#[test]
fn parentheses_group() {
    assert_eq!(
        code("(1 + 2) * 3"),
        vec![
            OpCode::Constant(0),
            OpCode::Constant(1),
            OpCode::Add,
            OpCode::Constant(2),
            OpCode::Multiply
        ]
    );
}

#[test]
fn unary_operators_follow_their_operand() {
    assert_eq!(code("-1"), vec![OpCode::Constant(0), OpCode::Negate]);
    assert_eq!(code("!true"), vec![OpCode::True, OpCode::Not]);
    assert_eq!(
        code("-1 + 2"),
        vec![
            OpCode::Constant(0),
            OpCode::Negate,
            OpCode::Constant(1),
            OpCode::Add
        ]
    );
    assert_eq!(code("!!null"), vec![OpCode::Null, OpCode::Not, OpCode::Not]);
}

#[test]
fn a_global_is_defined_by_name() {
    let compiler = compiled("let a = 1");
    assert_eq!(
        code_of(compiler.current_chunk()),
        vec![OpCode::Constant(0), OpCode::DefineGlobal(1)]
    );
    assert_eq!(
        constants_of(compiler.current_chunk()),
        vec![number(1.0), text("a")]
    );
}

#[test]
fn a_global_is_read_and_set_by_name() {
    let compiler = compiled("a = b");
    assert_eq!(
        code_of(compiler.current_chunk()),
        vec![OpCode::GetGlobal(0), OpCode::SetGlobal(1)]
    );
    assert_eq!(
        constants_of(compiler.current_chunk()),
        vec![text("b"), text("a")]
    );
}

#[test]
fn a_local_lives_in_its_stack_slot() {
    assert_eq!(
        code("{ let x = 1 x }"),
        vec![
            OpCode::Constant(0),
            OpCode::GetLocal(1),
            OpCode::Pop,
            OpCode::Pop
        ]
    );
    assert_eq!(
        code("{ let x = 1 let y = 2 x = y }"),
        vec![
            OpCode::Constant(0),
            OpCode::Constant(1),
            OpCode::GetLocal(2),
            OpCode::SetLocal(1),
            OpCode::Pop,
            OpCode::Pop,
            OpCode::Pop
        ]
    );
}

#[test]
fn values_left_outside_blocks_shift_the_slots() {
    assert_eq!(
        code("let a = 1 2 { let x = 3 x }"),
        vec![
            OpCode::Constant(0),
            OpCode::DefineGlobal(1),
            OpCode::Constant(2),
            OpCode::Constant(3),
            OpCode::GetLocal(3),
            OpCode::Pop,
            OpCode::Pop
        ]
    );
}

#[test]
fn an_inner_local_hides_an_outer_one_until_its_block_ends() {
    assert_eq!(
        code("{ let x = 1 { let x = 2 x } x }"),
        vec![
            OpCode::Constant(0),
            OpCode::Constant(1),
            OpCode::GetLocal(2),
            OpCode::Pop,
            OpCode::Pop,
            OpCode::GetLocal(1),
            OpCode::Pop,
            OpCode::Pop
        ]
    );
}

#[test]
fn a_name_that_is_no_local_is_a_global() {
    let compiler = compiled("{ let x = 1 } x");
    assert_eq!(
        code_of(compiler.current_chunk()),
        vec![OpCode::Constant(0), OpCode::Pop, OpCode::GetGlobal(1)]
    );
}

#[test]
fn an_if_is_patched_to_jump_over_its_block() {
    assert_eq!(
        code("if true { 1 }"),
        vec![
            OpCode::True,
            OpCode::JumpIfFalse(2),
            OpCode::Constant(0),
            OpCode::Pop,
            OpCode::Pop
        ]
    );
}

#[test]
fn an_if_with_else_is_patched_twice() {
    assert_eq!(
        code("if true { 1 } else { 2 3 }"),
        vec![
            OpCode::True,
            OpCode::JumpIfFalse(3),
            OpCode::Constant(0),
            OpCode::Pop,
            OpCode::Jump(4),
            OpCode::Constant(1),
            OpCode::Pop,
            OpCode::Constant(2),
            OpCode::Pop,
            OpCode::Pop
        ]
    );
}

#[test]
fn the_offset_of_an_if_is_the_length_of_its_block() {
    for n in 0..6usize {
        let mut input = String::from("if false {");
        for _ in 0..n {
            input.push_str(" true");
        }
        input.push_str(" }");
        let code = code(&input);
        assert_eq!(code[1], OpCode::JumpIfFalse(2 * n), "{}", input);
        assert_eq!(code[1 + 1 + 2 * n], OpCode::Pop);
        assert_eq!(code.len(), 2 * n + 3);
    }
}

#[test]
fn the_offsets_of_an_if_with_else_are_the_lengths_of_its_blocks() {
    for n in 0..4usize {
        for m in 0..4usize {
            let mut input = String::from("if false {");
            for _ in 0..n {
                input.push_str(" true");
            }
            input.push_str(" } else {");
            for _ in 0..m {
                input.push_str(" null");
            }
            input.push_str(" }");
            let code = code(&input);
            assert_eq!(code[1], OpCode::JumpIfFalse(2 * n + 1), "{}", input);
            assert_eq!(code[2 + 2 * n], OpCode::Jump(2 * m), "{}", input);
            assert_eq!(code[3 + 2 * n + 2 * m], OpCode::Pop);
            assert_eq!(code.len(), 2 * n + 2 * m + 4);
        }
    }
}

#[test]
fn a_local_in_an_if_lives_above_the_condition() {
    assert_eq!(
        code("if true { let x = 1 x }"),
        vec![
            OpCode::True,
            OpCode::JumpIfFalse(4),
            OpCode::Constant(0),
            OpCode::GetLocal(2),
            OpCode::Pop,
            OpCode::Pop,
            OpCode::Pop
        ]
    );
}

#[test]
fn a_while_loops_back_to_its_condition() {
    assert_eq!(
        code("1 while false { 2 }"),
        vec![
            OpCode::Constant(0),
            OpCode::False,
            OpCode::JumpIfFalse(4),
            OpCode::Pop,
            OpCode::Constant(1),
            OpCode::Pop,
            OpCode::Loop(6),
            OpCode::Pop
        ]
    );
}

#[test]
fn a_return_ends_with_the_instruction() {
    assert_eq!(
        code("return 1 + 2;"),
        vec![
            OpCode::Constant(0),
            OpCode::Constant(1),
            OpCode::Add,
            OpCode::Return
        ]
    );
}

#[test]
fn semicolons_are_optional() {
    assert_eq!(code("1; 2"), code("1 2"));
    assert_eq!(code("let a = 1; a = 2;"), code("let a = 1 a = 2"));
    assert_eq!(code(";;"), vec![]);
}

#[test]
fn compile_tells_whether_there_were_diagnostics() {
    let mut good = Compiler::new(Lexer::new("true").tokenize());
    assert_eq!(good.compile(), InterpretResult::Success);
    assert!(!good.had_error());
    let mut bad = Compiler::new(Lexer::new("(").tokenize());
    assert_eq!(bad.compile(), InterpretResult::CompileError);
    assert!(bad.had_error());
}

#[test]
fn compile_one_statement_stops_after_the_statement() {
    let mut compiler = Compiler::new(read_numbers(Lexer::new("true false").tokenize(), read));
    assert!(compiler.compile_one_statement());
    assert_eq!(code_of(compiler.current_chunk()), vec![OpCode::True]);
    assert!(compiler.compile_one_statement());
    assert_eq!(
        code_of(compiler.current_chunk()),
        vec![OpCode::True, OpCode::False]
    );
    assert!(!compiler.compile_one_statement());
    assert_eq!(compiler.errors().len(), 1);
}

#[test]
fn every_kind_of_error_has_its_diagnostic() {
    assert_eq!(errors(")"), vec![describe(ErrorKind::ExpectedExpression)]);
    assert_eq!(errors("1 +"), vec![describe(ErrorKind::ExpectedExpression)]);
    assert_eq!(errors("(1"), vec![describe(ErrorKind::ExpectedRightParen)]);
    assert_eq!(errors("let 1 = 2"), vec![describe(ErrorKind::ExpectedName)]);
    assert_eq!(errors("let a 2"), vec![describe(ErrorKind::ExpectedAssign)]);
    assert_eq!(errors("if true 1"), vec![describe(ErrorKind::ExpectedLeftBrace)]);
    assert_eq!(
        errors("while true 1"),
        vec![describe(ErrorKind::ExpectedLeftBrace)]
    );
    assert_eq!(
        errors("if true { } else 1"),
        vec![describe(ErrorKind::ExpectedLeftBrace)]
    );
    assert_eq!(errors("{ 1"), vec![describe(ErrorKind::ExpectedRightBrace)]);
    assert_eq!(errors("}"), vec![describe(ErrorKind::UnexpectedRightBrace)]);
    let unread = Compiler::new(Lexer::new("1").tokenize());
    let mut unread = unread;
    assert_eq!(unread.compile(), InterpretResult::CompileError);
    assert_eq!(unread.errors(), &vec![describe(ErrorKind::NumberNotRead)]);
}

#[test]
fn the_texts_of_the_diagnostics() {
    assert_eq!(describe(ErrorKind::ExpectedExpression), "expected an expression");
    assert_eq!(
        describe(ErrorKind::ExpectedRightParen),
        "expected ')' after the expression"
    );
    assert_eq!(describe(ErrorKind::ExpectedName), "expected a name after 'let'");
    assert_eq!(describe(ErrorKind::ExpectedAssign), "expected '=' after the name");
    assert_eq!(describe(ErrorKind::ExpectedLeftBrace), "expected '{'");
    assert_eq!(
        describe(ErrorKind::ExpectedRightBrace),
        "expected '}' at the end of the block"
    );
    assert_eq!(describe(ErrorKind::UnexpectedRightBrace), "unexpected '}'");
    assert_eq!(describe(ErrorKind::NumberNotRead), "the number has no value");
    assert_eq!(
        describe(ErrorKind::ExpectedInteger),
        "expected an integer that fits in 64 bits"
    );
}

#[test]
fn compiling_goes_on_after_an_error() {
    let compiler = compiled("let = 1; (2; let b = 3");
    assert_eq!(
        compiler.errors(),
        &vec![
            describe(ErrorKind::ExpectedName),
            describe(ErrorKind::ExpectedRightParen)
        ]
    );
    let code = code_of(compiler.current_chunk());
    assert_eq!(code[code.len() - 1], OpCode::DefineGlobal(2));
}

#[test]
fn an_error_in_a_block_does_not_end_the_block() {
    let compiler = compiled("{ ) ; let x = 1 } true");
    assert_eq!(
        compiler.errors(),
        &vec![describe(ErrorKind::ExpectedExpression)]
    );
    assert_eq!(
        code_of(compiler.current_chunk()),
        vec![OpCode::Constant(0), OpCode::Pop, OpCode::True]
    );
}

#[test]
fn tokens_after_an_eof_are_not_read() {
    let mut tokens = Lexer::new("true").tokenize();
    tokens.push(Token::new(TokenType::False, "false".to_string()));
    let mut compiler = Compiler::new(tokens);
    assert_eq!(compiler.compile(), InterpretResult::Success);
    assert_eq!(code_of(compiler.current_chunk()), vec![OpCode::True]);
}

#[test]
fn tokens_without_an_eof_are_read_to_the_last() {
    let tokens = vec![
        Token::new(TokenType::True, "true".to_string()),
        Token::new(TokenType::Semicolon, ";".to_string()),
        Token::new(TokenType::Null, "null".to_string()),
    ];
    let mut compiler = Compiler::new(tokens);
    assert_eq!(compiler.compile(), InterpretResult::Success);
    let (chunk, errors) = compiler.into_parts();
    assert!(errors.is_empty());
    assert_eq!(code_of(&chunk), vec![OpCode::True, OpCode::Null]);
}

#[test]
fn no_tokens_compile_to_nothing() {
    let mut compiler = Compiler::new(Vec::new());
    assert_eq!(compiler.compile(), InterpretResult::Success);
    assert_eq!(compiler.into_chunk().len(), 0);
}

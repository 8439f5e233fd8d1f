use bytecode_vm::chunk::{Chunk, OpCode};
use bytecode_vm::value::{is_falsey, value_equal, Value};

#[test]
fn append_returns_the_position() {
    let mut chunk = Chunk::new();
    assert_eq!(chunk.len(), 0);
    assert_eq!(chunk.append(OpCode::True), 0);
    assert_eq!(chunk.append(OpCode::Pop), 1);
    assert_eq!(chunk.append(OpCode::Return), 2);
    assert_eq!(chunk.len(), 3);
    assert_eq!(chunk.get(0), Some(OpCode::True));
    assert_eq!(chunk.get(1), Some(OpCode::Pop));
    assert_eq!(chunk.get(2), Some(OpCode::Return));
}

#[test]
fn get_past_the_end_is_none() {
    let mut chunk = Chunk::new();
    assert_eq!(chunk.get(0), None);
    chunk.append(OpCode::Null);
    assert_eq!(chunk.get(1), None);
    assert_eq!(chunk.get(usize::MAX), None);
}

#[test]
fn add_constant_returns_the_index_and_keeps_duplicates() {
    let mut chunk = Chunk::new();
    assert_eq!(chunk.add_constant(Value::Boolean(true)), 0);
    assert_eq!(chunk.add_constant(Value::String("a".to_string())), 1);
    assert_eq!(chunk.add_constant(Value::String("a".to_string())), 2);
    assert_eq!(chunk.constants_len(), 3);
    assert_eq!(chunk.get_constant(0), Some(&Value::Boolean(true)));
    assert_eq!(chunk.get_constant(1), Some(&Value::String("a".to_string())));
    assert_eq!(chunk.get_constant(2), Some(&Value::String("a".to_string())));
    assert_eq!(chunk.get_constant(3), None);
    assert_eq!(chunk.len(), 0);
}

#[test]
fn patch_jump_sets_the_offset_of_a_jump_only() {
    let mut chunk = Chunk::new();
    chunk.append(OpCode::JumpIfFalse(0));
    chunk.append(OpCode::Jump(0));
    chunk.append(OpCode::Loop(0));
    chunk.append(OpCode::Constant(7));
    assert!(chunk.patch_jump(0, 5));
    assert!(chunk.patch_jump(1, 6));
    assert!(chunk.patch_jump(2, 7));
    assert!(!chunk.patch_jump(3, 8));
    assert!(!chunk.patch_jump(4, 9));
    assert_eq!(chunk.get(0), Some(OpCode::JumpIfFalse(5)));
    assert_eq!(chunk.get(1), Some(OpCode::Jump(6)));
    assert_eq!(chunk.get(2), Some(OpCode::Loop(7)));
    assert_eq!(chunk.get(3), Some(OpCode::Constant(7)));
    assert_eq!(chunk.len(), 4);
}

#[test]
fn false_and_null_are_the_falsey_values() {
    assert!(is_falsey(&Value::Boolean(false)));
    assert!(is_falsey(&Value::Null));
    assert!(!is_falsey(&Value::Boolean(true)));
    assert!(!is_falsey(&Value::Number(0.0f64.to_bits())));
    assert!(!is_falsey(&Value::Number(1.0f64.to_bits())));
    assert!(!is_falsey(&Value::String(String::new())));
}

#[test]
fn equality_is_by_variant_and_content() {
    let one = || Value::Number(1.0f64.to_bits());
    let two = || Value::Number(2.0f64.to_bits());
    let hola = || Value::String("hola".to_string());
    assert!(value_equal(one(), one()));
    assert!(!value_equal(one(), two()));
    assert!(value_equal(hola(), hola()));
    assert!(!value_equal(hola(), Value::String("mundo".to_string())));
    assert!(value_equal(Value::Null, Value::Null));
    assert!(value_equal(Value::Boolean(true), Value::Boolean(true)));
    assert!(!value_equal(Value::Boolean(true), Value::Boolean(false)));
    assert!(!value_equal(one(), Value::Boolean(true)));
    assert!(!value_equal(Value::Null, Value::Boolean(false)));
    assert!(!value_equal(hola(), Value::Null));
    assert!(!value_equal(Value::String("1".to_string()), one()));
    assert!(value_equal(
        Value::Number(0.0f64.to_bits()),
        Value::Number((-0.0f64).to_bits())
    ));
    assert!(!value_equal(
        Value::Number(f64::NAN.to_bits()),
        Value::Number(f64::NAN.to_bits())
    ));
}

#[test]
fn equality_is_symmetric() {
    let values = || {
        vec![
            Value::Number(1.0f64.to_bits()),
            Value::Number(2.0f64.to_bits()),
            Value::Boolean(true),
            Value::Boolean(false),
            Value::String("hola".to_string()),
            Value::Null,
        ]
    };
    for a in values() {
        for b in values() {
            assert_eq!(
                value_equal(a.clone(), b.clone()),
                value_equal(b.clone(), a.clone())
            );
        }
        assert!(value_equal(a.clone(), a.duplicate()));
    }
}

use rlox::chunk::Chunk;
use rlox::chunk::OpCode;
use rlox::value::num_eq;
use rlox::value::num_lt;
use rlox::value::num_negate;
use rlox::value::values_equal;
use rlox::value::Value;
use rlox::value::ValueArray;

#[test]
fn opcode_bytes_round_trip() {
    let ops = vec![
        OpCode::Constant,
        OpCode::Nil,
        OpCode::True,
        OpCode::False,
        OpCode::Equal,
        OpCode::Greater,
        OpCode::Less,
        OpCode::Add,
        OpCode::Subtract,
        OpCode::Multiply,
        OpCode::Divide,
        OpCode::Not,
        OpCode::Negate,
        OpCode::Return,
    ];
    for (i, op) in ops.iter().enumerate() {
        assert_eq!(op.to_byte(), i as u8);
        assert_eq!(OpCode::from_byte(i as u8), *op);
    }
    assert_eq!(OpCode::from_byte(200), OpCode::Unknown);
    assert_eq!(OpCode::from_byte(14), OpCode::Unknown);
}

#[test]
fn line_table_stays_parallel_to_code() {
    let mut chunk = Chunk::new();
    chunk.write(OpCode::Nil.to_byte(), 3);
    chunk.write(OpCode::Return.to_byte(), 4);
    assert_eq!(chunk.count(), 2);
    assert_eq!(chunk.get(0), OpCode::Nil.to_byte());
    assert_eq!(chunk.get_line(0), 3);
    assert_eq!(chunk.get_line(1), 4);
}

#[test]
fn constants_are_appended_in_order() {
    let mut chunk = Chunk::new();
    let a = chunk.add_constant(Value::Number(1.5f64.to_bits()));
    let b = chunk.add_constant(Value::Bool(true));
    assert_eq!(a, 0);
    assert_eq!(b, 1);
    assert_eq!(chunk.constants_count(), 2);
    assert_eq!(chunk.get_constant(0), Value::Number(1.5f64.to_bits()));
    assert_eq!(chunk.get_constant(1), Value::Bool(true));
}

#[test]
fn decoding_walks_instruction_sizes() {
    let mut chunk = Chunk::new();
    chunk.add_constant(Value::Number(2.0f64.to_bits()));
    chunk.write(OpCode::Constant.to_byte(), 1);
    chunk.write(0, 1);
    chunk.write(OpCode::Negate.to_byte(), 1);
    chunk.write(OpCode::Return.to_byte(), 1);
    let (op, operand, next) = chunk.decode_instruction(0);
    assert_eq!(op, OpCode::Constant);
    assert_eq!(operand, Some(0));
    assert_eq!(next, 2);
    let (op2, operand2, next2) = chunk.decode_instruction(2);
    assert_eq!(op2, OpCode::Negate);
    assert_eq!(operand2, None);
    assert_eq!(next2, 3);
    let (op3, _, next3) = chunk.decode_instruction(3);
    assert_eq!(op3, OpCode::Return);
    assert_eq!(next3, 4);
}

#[test]
fn value_array_appends_and_reads() {
    let mut pool = ValueArray::new();
    assert_eq!(pool.len(), 0);
    pool.write(Value::Nil);
    pool.write(Value::Number(0.0f64.to_bits()));
    assert_eq!(pool.len(), 2);
    assert_eq!(pool.get(0), Value::Nil);
    assert_eq!(pool.get(1), Value::Number(0.0f64.to_bits()));
}

#[test]
fn bitwise_comparison_matches_ieee() {
    let samples = [
        0.0f64,
        -0.0,
        1.0,
        -1.0,
        1.5,
        -2.5,
        f64::INFINITY,
        f64::NEG_INFINITY,
        f64::NAN,
        f64::MIN_POSITIVE,
        -4.2e300,
    ];
    for &a in samples.iter() {
        for &b in samples.iter() {
            assert_eq!(num_lt(a.to_bits(), b.to_bits()), a < b, "lt {} {}", a, b);
            assert_eq!(num_eq(a.to_bits(), b.to_bits()), a == b, "eq {} {}", a, b);
        }
        assert_eq!(num_negate(a.to_bits()), (-a).to_bits());
    }
}

#[test]
fn value_equality_follows_ieee_on_numbers() {
    let nan = Value::Number(f64::NAN.to_bits());
    let zero = Value::Number(0.0f64.to_bits());
    let neg_zero = Value::Number((-0.0f64).to_bits());
    assert!(!values_equal(nan, nan));
    assert!(values_equal(zero, neg_zero));
    assert!(values_equal(Value::Nil, Value::Nil));
    assert!(values_equal(Value::Bool(true), Value::Bool(true)));
    assert!(!values_equal(Value::Bool(true), Value::Bool(false)));
    assert!(!values_equal(Value::Nil, Value::Bool(false)));
    assert!(!values_equal(zero, Value::Bool(false)));
}

#[test]
fn truthiness_table() {
    assert!(Value::Nil.is_falsey());
    assert!(Value::Bool(false).is_falsey());
    assert!(!Value::Bool(true).is_falsey());
    assert!(!Value::Number(0.0f64.to_bits()).is_falsey());
    assert!(!Value::Number(f64::NAN.to_bits()).is_falsey());
}

#[test]
fn not_not_collapses_to_truthiness() {
    let samples = vec![
        Value::Nil,
        Value::Bool(false),
        Value::Bool(true),
        Value::Number(0.0f64.to_bits()),
        Value::Number(1.0f64.to_bits()),
    ];
    for v in samples {
        let once = Value::Bool(v.is_falsey());
        let twice = Value::Bool(once.is_falsey());
        assert_eq!(twice, Value::Bool(!v.is_falsey()));
    }
}

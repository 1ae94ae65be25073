//! Runtime values and the constant pool.
//!
//! A `Value` is nil, a boolean, or a number. A number is an IEEE-754 double,
//! held as its 64-bit bit pattern so that the rest of the machine can reason
//! about it as a plain integer.

use rustc_apfloat::Float;
use vstd::prelude::*;

verus! {

/// A tagged runtime value. `Number` holds the bit pattern of an IEEE-754
/// double.
#[derive(Clone, Copy, PartialEq, Eq, Structural, Debug)]
pub enum Value {
    Bool(bool),
    Nil,
    Number(u64),
}

/// Nil and false are falsey; every other value (including a number equal to
/// zero) is truthy.
pub open spec fn spec_is_falsey(v: Value) -> bool {
    v == Value::Nil || v == Value::Bool(false)
}

impl Value {
    /// Truthiness test used by the `NOT` instruction.
    pub fn is_falsey(&self) -> (r: bool)
        ensures
            r == spec_is_falsey(*self),
    {
        match self {
            Value::Nil => true,
            Value::Bool(b) => !*b,
            Value::Number(_) => false,
        }
    }
}

/// Sign bit of an IEEE-754 double.
pub const SIGN_BIT: u64 = 0x8000_0000_0000_0000;

/// Exponent field of an IEEE-754 double.
pub const EXP_MASK: u64 = 0x7FF0_0000_0000_0000;

/// Fraction field of an IEEE-754 double.
pub const FRAC_MASK: u64 = 0x000F_FFFF_FFFF_FFFF;

/// Everything but the sign bit.
pub const ABS_MASK: u64 = 0x7FFF_FFFF_FFFF_FFFF;

/// The bit pattern is a NaN: exponent all ones, fraction non-zero.
pub open spec fn num_is_nan(b: u64) -> bool {
    b & EXP_MASK == EXP_MASK && b & FRAC_MASK != 0
}

/// The bit pattern is a zero (either sign).
pub open spec fn num_is_zero(b: u64) -> bool {
    b & ABS_MASK == 0
}

/// The sign bit is set.
pub open spec fn num_is_neg(b: u64) -> bool {
    b & SIGN_BIT == SIGN_BIT
}

/// IEEE-754 equality on double bit patterns: NaN compares equal to nothing,
/// the two zeroes compare equal to each other, and every other double is
/// equal exactly to itself.
pub open spec fn spec_num_eq(a: u64, b: u64) -> bool {
    &&& !num_is_nan(a)
    &&& !num_is_nan(b)
    &&& (a == b || (num_is_zero(a) && num_is_zero(b)))
}

/// IEEE-754 `<` on double bit patterns. A NaN is less than nothing and the
/// two zeroes are equal. Otherwise a negative is below a positive, two
/// non-negatives order as their bit patterns do (sign-magnitude encoding is
/// monotone in the value), and two negatives order the other way around.
pub open spec fn spec_num_lt(a: u64, b: u64) -> bool {
    &&& !num_is_nan(a)
    &&& !num_is_nan(b)
    &&& !(num_is_zero(a) && num_is_zero(b))
    &&& if num_is_neg(a) != num_is_neg(b) {
        num_is_neg(a)
    } else if !num_is_neg(a) {
        a < b
    } else {
        b < a
    }
}

/// IEEE-754 negation flips exactly the sign bit, on every double (zeroes,
/// infinities and NaNs included).
pub open spec fn spec_num_negate(a: u64) -> u64 {
    a ^ SIGN_BIT
}

/// IEEE-754 equality test on double bit patterns.
pub fn num_eq(a: u64, b: u64) -> (r: bool)
    ensures
        r == spec_num_eq(a, b),
{
    let a_nan = a & EXP_MASK == EXP_MASK && a & FRAC_MASK != 0;
    let b_nan = b & EXP_MASK == EXP_MASK && b & FRAC_MASK != 0;
    !a_nan && !b_nan && (a == b || (a & ABS_MASK == 0 && b & ABS_MASK == 0))
}

/// IEEE-754 `<` test on double bit patterns.
pub fn num_lt(a: u64, b: u64) -> (r: bool)
    ensures
        r == spec_num_lt(a, b),
{
    proof {
        assert(a & 0x8000_0000_0000_0000 == 0x8000_0000_0000_0000 || a & 0x8000_0000_0000_0000
            == 0) by (bit_vector);
        assert(b & 0x8000_0000_0000_0000 == 0x8000_0000_0000_0000 || b & 0x8000_0000_0000_0000
            == 0) by (bit_vector);
    }
    let a_nan = a & EXP_MASK == EXP_MASK && a & FRAC_MASK != 0;
    let b_nan = b & EXP_MASK == EXP_MASK && b & FRAC_MASK != 0;
    if a_nan || b_nan {
        false
    } else if a & ABS_MASK == 0 && b & ABS_MASK == 0 {
        false
    } else if (a & SIGN_BIT) != (b & SIGN_BIT) {
        a & SIGN_BIT == SIGN_BIT
    } else if a & SIGN_BIT == 0 {
        a < b
    } else {
        b < a
    }
}

/// IEEE-754 negation on a double bit pattern.
pub fn num_negate(a: u64) -> (r: u64)
    ensures
        r == spec_num_negate(a),
{
    a ^ SIGN_BIT
}

/// The bit pattern of the IEEE-754 double sum of the doubles with bit
/// patterns `a` and `b`, rounded to nearest, ties to even.
pub uninterp spec fn add_bits(a: u64, b: u64) -> u64;

/// The bit pattern of the IEEE-754 double difference `a - b`.
pub uninterp spec fn sub_bits(a: u64, b: u64) -> u64;

/// The bit pattern of the IEEE-754 double product `a * b`.
pub uninterp spec fn mul_bits(a: u64, b: u64) -> u64;

/// The bit pattern of the IEEE-754 double quotient `a / b` (division by zero
/// gives an infinity, per IEEE-754; it is not an error).
pub uninterp spec fn div_bits(a: u64, b: u64) -> u64;

/// The bit pattern of the IEEE-754 double nearest to the decimal number the
/// characters spell (round to nearest, ties to even).
pub uninterp spec fn number_value_bits(s: Seq<char>) -> u64;

/// Relies on rustc_apfloat's `ieee::Double` addition with the default
/// rounding (nearest, ties to even): IEEE-754 `+` on the doubles whose bit
/// patterns are given.
#[verifier::external_body]
pub(crate) fn num_add(a: u64, b: u64) -> (r: u64)
    ensures
        r == add_bits(a, b),
{
    let x = rustc_apfloat::ieee::Double::from_bits(a as u128);
    let y = rustc_apfloat::ieee::Double::from_bits(b as u128);
    rustc_apfloat::Float::to_bits((x + y).value) as u64
}

/// Relies on rustc_apfloat's `ieee::Double` subtraction with the default
/// rounding: IEEE-754 `-` on the doubles whose bit patterns are given.
#[verifier::external_body]
pub(crate) fn num_sub(a: u64, b: u64) -> (r: u64)
    ensures
        r == sub_bits(a, b),
{
    let x = rustc_apfloat::ieee::Double::from_bits(a as u128);
    let y = rustc_apfloat::ieee::Double::from_bits(b as u128);
    rustc_apfloat::Float::to_bits((x - y).value) as u64
}

/// Relies on rustc_apfloat's `ieee::Double` multiplication with the default
/// rounding: IEEE-754 `*` on the doubles whose bit patterns are given.
#[verifier::external_body]
pub(crate) fn num_mul(a: u64, b: u64) -> (r: u64)
    ensures
        r == mul_bits(a, b),
{
    let x = rustc_apfloat::ieee::Double::from_bits(a as u128);
    let y = rustc_apfloat::ieee::Double::from_bits(b as u128);
    rustc_apfloat::Float::to_bits((x * y).value) as u64
}

/// Relies on rustc_apfloat's `ieee::Double` division with the default
/// rounding: IEEE-754 `/` on the doubles whose bit patterns are given
/// (division by zero yields an infinity, not a panic).
#[verifier::external_body]
pub(crate) fn num_div(a: u64, b: u64) -> (r: u64)
    ensures
        r == div_bits(a, b),
{
    let x = rustc_apfloat::ieee::Double::from_bits(a as u128);
    let y = rustc_apfloat::ieee::Double::from_bits(b as u128);
    rustc_apfloat::Float::to_bits((x / y).value) as u64
}

/// Relies on rustc_apfloat's `ieee::Double` `FromStr`: correctly-rounded
/// decimal parsing (nearest, ties to even), the value `str::parse::<f64>`
/// yields on the same digits. A lexeme the grammar cannot produce parses to
/// the zero pattern.
#[verifier::external_body]
pub(crate) fn num_from_lexeme(s: &str) -> (r: u64)
    ensures
        r == number_value_bits(s@),
{
    match s.parse::<rustc_apfloat::ieee::Double>() {
        Ok(d) => rustc_apfloat::Float::to_bits(d) as u64,
        Err(_) => 0,
    }
}

/// Negation applied twice is the identity on numbers: flipping the sign bit
/// of a double twice gives back the original bit pattern, whatever it was.
pub proof fn lemma_negate_involution(x: u64)
    ensures
        spec_num_negate(spec_num_negate(x)) == x,
{
    assert((x ^ 0x8000_0000_0000_0000) ^ 0x8000_0000_0000_0000 == x) by (bit_vector);
}

/// Two `NOT` instructions collapse any value to the boolean of its
/// truthiness: `NOT v` is `Bool(falsey(v))`, and applying `NOT` to that
/// yields `Bool(truthy(v))`.
pub proof fn lemma_not_not(v: Value)
    ensures
        Value::Bool(spec_is_falsey(Value::Bool(spec_is_falsey(v)))) == Value::Bool(
            !spec_is_falsey(v),
        ),
{
}

/// The language's value equality: same variant, payloads equal, with IEEE
/// semantics on numbers (`NaN != NaN`, `0.0 == -0.0`).
pub open spec fn spec_values_equal(a: Value, b: Value) -> bool {
    match (a, b) {
        (Value::Nil, Value::Nil) => true,
        (Value::Bool(x), Value::Bool(y)) => x == y,
        (Value::Number(x), Value::Number(y)) => spec_num_eq(x, y),
        _ => false,
    }
}

/// Value equality test used by the `EQUAL` instruction.
pub fn values_equal(a: Value, b: Value) -> (r: bool)
    ensures
        r == spec_values_equal(a, b),
{
    match (a, b) {
        (Value::Nil, Value::Nil) => true,
        (Value::Bool(x), Value::Bool(y)) => x == y,
        (Value::Number(x), Value::Number(y)) => num_eq(x, y),
        _ => false,
    }
}

/// The constant pool: an append-only ordered sequence of values. Insertion
/// returns the zero-based index of the new entry; nothing is ever removed or
/// deduplicated.
pub struct ValueArray {
    values: Vec<Value>,
}

impl ValueArray {
    /// The pool seen as a mathematical sequence.
    pub closed spec fn view(&self) -> Seq<Value> {
        self.values@
    }

    pub fn new() -> (r: Self)
        ensures
            r@ == Seq::<Value>::empty(),
    {
        ValueArray { values: Vec::new() }
    }

    /// Appends one value at the end of the pool.
    pub fn write(&mut self, value: Value)
        ensures
            final(self)@ == old(self)@.push(value),
    {
        self.values.push(value)
    }

    pub fn len(&self) -> (r: usize)
        ensures
            r == self@.len(),
    {
        self.values.len()
    }

    pub fn get(&self, seq: usize) -> (r: Value)
        requires
            seq < self@.len(),
        ensures
            r == self@[seq as int],
    {
        self.values[seq]
    }
}

} // verus!

use rhai_sci::error::ArithmeticError;
use rhai_sci::stats::{argmax, float_lt, INFINITY_BITS};
use rhai_sci::value::Value;

fn float(x: f64) -> Value {
    Value::Float(x.to_bits())
}

fn samples() -> Vec<f64> {
    let mut values = vec![
        0.0,
        -0.0,
        1.0,
        -1.0,
        1.5,
        -1.5,
        f64::MIN_POSITIVE,
        -f64::MIN_POSITIVE,
        5e-324,
        -5e-324,
        f64::MAX,
        f64::MIN,
        f64::INFINITY,
        f64::NEG_INFINITY,
        f64::NAN,
        -f64::NAN,
        f64::from_bits(0x7FF0_0000_0000_0001),
        f64::from_bits(0xFFFF_FFFF_FFFF_FFFF),
        f64::EPSILON,
        9007199254740992.0,
        -9007199254740993.0,
    ];
    let mut state: u64 = 0x2545_F491_4F6C_DD1D;
    for _ in 0..300 {
        state ^= state << 13;
        state ^= state >> 7;
        state ^= state << 17;
        values.push(f64::from_bits(state));
    }
    values
}

#[test]
fn float_lt_agrees_with_the_hardware() {
    let values = samples();
    for a in &values {
        for b in &values {
            assert_eq!(float_lt(a.to_bits(), b.to_bits()), a < b, "{:?} < {:?}", a, b);
        }
    }
}

#[test]
fn float_lt_on_zeros_infinities_and_what_is_no_number() {
    assert!(!float_lt(0.0f64.to_bits(), (-0.0f64).to_bits()));
    assert!(!float_lt((-0.0f64).to_bits(), 0.0f64.to_bits()));
    assert!(float_lt((-1.0f64).to_bits(), 0.0f64.to_bits()));
    assert!(float_lt(1.0f64.to_bits(), 2.0f64.to_bits()));
    assert!(float_lt((-2.0f64).to_bits(), (-1.0f64).to_bits()));
    assert!(!float_lt(2.0f64.to_bits(), 2.0f64.to_bits()));
    assert!(float_lt(f64::MAX.to_bits(), INFINITY_BITS));
    assert!(!float_lt(f64::NAN.to_bits(), 1.0f64.to_bits()));
    assert!(!float_lt(1.0f64.to_bits(), f64::NAN.to_bits()));
    assert_eq!(INFINITY_BITS, f64::INFINITY.to_bits());
}

#[test]
fn argmax_gives_the_first_greatest() {
    assert_eq!(argmax(&vec![Value::Int(1), Value::Int(9), Value::Int(3)]), Ok(1));
    assert_eq!(argmax(&vec![Value::Int(7)]), Ok(0));
    assert_eq!(argmax(&vec![Value::Int(2), Value::Int(5), Value::Int(5)]), Ok(1));
    assert_eq!(argmax(&vec![float(-1.5), Value::Int(-2), float(-1.25)]), Ok(2));
    assert_eq!(argmax(&vec![Value::Int(3), float(3.5), Value::Int(-4)]), Ok(1));
    assert_eq!(argmax(&vec![float(-0.0), float(0.0)]), Ok(0));
}

#[test]
fn argmax_compares_integers_as_doubles() {
    // Both integers are nearest to the same double: the first holds the place.
    let near = vec![Value::Int(9007199254740992), Value::Int(9007199254740993)];
    assert_eq!(argmax(&near), Ok(0));
    let apart = vec![Value::Int(9007199254740992), Value::Int(9007199254740994)];
    assert_eq!(argmax(&apart), Ok(1));
}

#[test]
fn argmax_takes_every_orientation() {
    let row = vec![Value::Array(vec![Value::Int(1), Value::Int(9), Value::Int(3)])];
    let column = vec![
        Value::Array(vec![Value::Int(1)]),
        Value::Array(vec![Value::Int(9)]),
        Value::Array(vec![Value::Int(3)]),
    ];
    assert_eq!(argmax(&row), Ok(1));
    assert_eq!(argmax(&column), Ok(1));
}

#[test]
fn argmax_refuses_what_has_no_greatest_item() {
    assert_eq!(argmax(&Vec::new()), Err(ArithmeticError::EmptyList));
    assert_eq!(argmax(&vec![Value::Array(vec![])]), Err(ArithmeticError::EmptyList));
    let square = vec![
        Value::Array(vec![Value::Int(1), Value::Int(2)]),
        Value::Array(vec![Value::Int(3), Value::Int(4)]),
    ];
    assert_eq!(argmax(&square), Err(ArithmeticError::NotListLike));
    let ragged = vec![
        Value::Array(vec![Value::Int(1)]),
        Value::Array(vec![Value::Int(2), Value::Int(3)]),
    ];
    assert_eq!(argmax(&ragged), Err(ArithmeticError::NotListLike));
    assert_eq!(argmax(&vec![Value::Int(1), Value::Other(0)]), Err(ArithmeticError::VectorNonNumeric));
    assert_eq!(ArithmeticError::EmptyList.message(), "List must hold at least one item");
}

use bea::callable::get_builtin_println;
use bea::literals::{number_less, number_less_equal, numbers_equal, LiteralValue, Number};

fn num(f: f32) -> Number {
    Number { bits: f.to_bits(), text: format!("{}", f) }
}

#[test]
fn values_print_as_expected() {
    assert_eq!(LiteralValue::Nil.cast_string(), "nil");
    assert_eq!(LiteralValue::True.cast_string(), "true");
    assert_eq!(LiteralValue::False.cast_string(), "false");
    assert_eq!(LiteralValue::Num(num(2.5)).cast_string(), "2.5");
    assert_eq!(LiteralValue::Str("s".to_string()).cast_string(), "s");
    assert_eq!(LiteralValue::Fn(get_builtin_println()).cast_string(), "<fn println>");
}

#[test]
fn only_nil_and_false_are_falsy() {
    assert!(!LiteralValue::Nil.is_truthy());
    assert!(!LiteralValue::False.is_truthy());
    assert!(LiteralValue::True.is_truthy());
    assert!(LiteralValue::Num(num(0.0)).is_truthy());
    assert!(LiteralValue::Str(String::new()).is_truthy());
    assert!(matches!(LiteralValue::Nil.to_inverse_bool_literal_value(), LiteralValue::True));
    assert!(matches!(LiteralValue::Num(num(1.0)).to_inverse_bool_literal_value(), LiteralValue::False));
}

#[test]
fn equality() {
    assert!(LiteralValue::Nil.equals(&LiteralValue::Nil));
    assert!(!LiteralValue::Nil.equals(&LiteralValue::False));
    assert!(LiteralValue::Str("a".to_string()).equals(&LiteralValue::Str("a".to_string())));
    assert!(!LiteralValue::Str("a".to_string()).equals(&LiteralValue::Str("b".to_string())));
    assert!(LiteralValue::Num(num(1.0)).equals(&LiteralValue::Num(num(1.0))));
    assert!(!LiteralValue::Num(num(f32::NAN)).equals(&LiteralValue::Num(num(f32::NAN))));
    let f = LiteralValue::Fn(get_builtin_println());
    assert!(!f.equals(&LiteralValue::Fn(get_builtin_println())));
}

#[test]
fn number_comparisons_follow_floats() {
    for (a, b) in [(1.0f32, 2.0f32), (-1.0, 1.0), (0.0, -0.0), (-3.5, -3.25), (2.0, 2.0), (f32::NAN, 1.0), (f32::INFINITY, 1e30)] {
        assert_eq!(numbers_equal(&num(a), &num(b)), a == b);
        assert_eq!(number_less(&num(a), &num(b)), a < b);
        assert_eq!(number_less_equal(&num(a), &num(b)), a <= b);
    }
}

#[test]
fn casting_to_a_number() {
    assert_eq!(LiteralValue::Num(num(3.0)).cast_float().unwrap().bits, 3.0f32.to_bits());
    assert_eq!(LiteralValue::True.cast_float().unwrap_err(), "Unable to cast 'true' to number");
}

#[test]
fn bools_become_values() {
    assert!(matches!(LiteralValue::from_bool(true), LiteralValue::True));
    assert!(matches!(LiteralValue::from(false), LiteralValue::False));
}

#[test]
fn equality_is_symmetric() {
    let values = vec![
        LiteralValue::Nil,
        LiteralValue::True,
        LiteralValue::False,
        LiteralValue::Num(num(1.0)),
        LiteralValue::Num(num(-0.0)),
        LiteralValue::Str("x".to_string()),
    ];
    for a in values.iter() {
        assert!(a.equals(a));
        for b in values.iter() {
            assert_eq!(a.equals(b), b.equals(a));
        }
    }
}

use datavalue_rs::helpers;
use datavalue_rs::operations::{apply, compare, equals, less_than, negate};
use datavalue_rs::{DataValue, Error, Operator, Order, Outcome};

fn resolve(outcome: Outcome) -> DataValue {
    match outcome {
        Outcome::Value(v) => v,
        Outcome::Float { op, left, right } => {
            let (l, r) = (f64::from_bits(left), f64::from_bits(right));
            let result = match op {
                Operator::Add => l + r,
                Operator::Sub => l - r,
                Operator::Mul => l * r,
                Operator::Div => l / r,
            };
            helpers::float(result.to_bits())
        }
    }
}

fn as_float(value: &DataValue) -> Option<f64> {
    value.as_f64().map(f64::from_bits)
}

fn float(x: f64) -> DataValue {
    helpers::float(x.to_bits())
}

#[test]
fn test_operator_add() {
    let a = helpers::integer(5);
    let b = helpers::integer(3);
    let result = resolve((a + b).unwrap());
    assert_eq!(result.as_i64(), Some(8));

    let a = helpers::integer(5);
    let b = float(2.5);
    let result = resolve((a + b).unwrap());
    assert_eq!(as_float(&result), Some(7.5));
}

#[test]
fn test_operator_subtract() {
    let a = helpers::integer(10);
    let b = helpers::integer(4);
    let result = resolve((a - b).unwrap());
    assert_eq!(result.as_i64(), Some(6));
}

#[test]
fn test_operator_multiply() {
    let a = helpers::integer(5);
    let b = helpers::integer(3);
    let result = resolve((a * b).unwrap());
    assert_eq!(result.as_i64(), Some(15));
}

#[test]
fn test_operator_equals() {
    let a = helpers::integer(5);
    let b = helpers::integer(5);
    let c = helpers::integer(10);

    assert!(a == b);
    assert!(a != c);
}

#[test]
fn test_operator_compare() {
    let a = helpers::integer(5);
    let b = helpers::integer(10);
    let c = helpers::integer(5);

    assert!(a < b);
    assert!(b > a);
    assert!(a <= c);
    assert!(a >= c);
}

#[test]
fn integers_stay_integers() {
    let sum = (helpers::integer(5) + helpers::integer(3)).unwrap();
    assert!(matches!(sum, Outcome::Value(DataValue::Number(datavalue_rs::Number::Integer(8)))));
    let difference = (helpers::integer(3) - helpers::integer(5)).unwrap();
    assert_eq!(difference.value().unwrap().as_i64(), Some(-2));
    let product = (helpers::integer(-4) * helpers::integer(6)).unwrap();
    assert_eq!(product.value().unwrap().as_i64(), Some(-24));
}

#[test]
fn division_is_exact_or_a_float() {
    let exact = (helpers::integer(6) / helpers::integer(2)).unwrap();
    assert_eq!(exact.value().unwrap().as_i64(), Some(3));

    let inexact = (helpers::integer(7) / helpers::integer(2)).unwrap();
    match &inexact {
        Outcome::Float { op, left, right } => {
            assert_eq!(*op, Operator::Div);
            assert_eq!(*left, 7.0f64.to_bits());
            assert_eq!(*right, 2.0f64.to_bits());
        }
        Outcome::Value(_) => panic!("7 / 2 is no integer"),
    }
    assert!(inexact.value().is_none());
    let inexact = (helpers::integer(7) / helpers::integer(2)).unwrap();
    assert_eq!(as_float(&resolve(inexact)), Some(3.5));

    for (a, b) in [
        (-6i64, 2i64),
        (6, -2),
        (-6, -2),
        (-7, 2),
        (7, -2),
        (-7, -2),
        (0, 5),
        (0, -5),
        (i64::MIN, 1),
        (i64::MIN, 2),
        (i64::MIN, i64::MIN),
        (i64::MAX, -1),
        (i64::MAX, i64::MAX),
        (i64::MIN + 1, -1),
        (1, i64::MIN),
        (9, 3),
        (10, 3),
    ] {
        let outcome = (helpers::integer(a) / helpers::integer(b)).unwrap();
        if a % b == 0 {
            assert_eq!(outcome.value().unwrap().as_i64(), Some(a / b), "{} / {}", a, b);
        } else {
            assert_eq!(
                as_float(&resolve(outcome)),
                Some(a as f64 / b as f64),
                "{} / {}",
                a,
                b
            );
        }
    }
}

#[test]
fn division_by_zero_fails() {
    let error = (helpers::integer(5) / helpers::integer(0)).unwrap_err();
    assert!(matches!(error, Error::Custom(_)));
    assert_eq!(error.to_string(), "Division by zero");

    let error = (helpers::integer(5) / float(0.0)).unwrap_err();
    assert_eq!(error.to_string(), "Division by zero");
    let error = (float(5.0) / float(-0.0)).unwrap_err();
    assert_eq!(error.to_string(), "Division by zero");
    let error = (helpers::string("x") / helpers::integer(0)).unwrap_err();
    assert_eq!(error.to_string(), "Division by zero");
    let error = (helpers::null() / float(0.0)).unwrap_err();
    assert_eq!(error.to_string(), "Division by zero");
}

#[test]
fn mixed_numbers_widen_to_floats() {
    let outcome = (helpers::integer(5) * float(2.5)).unwrap();
    assert!(matches!(
        outcome,
        Outcome::Float { op: Operator::Mul, left, right }
            if left == 5.0f64.to_bits() && right == 2.5f64.to_bits()
    ));
    let outcome = (float(2.5) - helpers::integer(5)).unwrap();
    assert_eq!(as_float(&resolve(outcome)), Some(-2.5));
    let outcome = (float(1.5) + float(2.25)).unwrap();
    assert_eq!(as_float(&resolve(outcome)), Some(3.75));
    let outcome = (float(1.0) / helpers::integer(4)).unwrap();
    assert_eq!(as_float(&resolve(outcome)), Some(0.25));
    let outcome = apply(Operator::Add, helpers::integer(1), float(0.5)).unwrap();
    assert_eq!(as_float(&resolve(outcome)), Some(1.5));
}

#[test]
fn operators_refuse_what_is_no_number() {
    let error = (helpers::string("a") + helpers::integer(1)).unwrap_err();
    match &error {
        Error::ExpectedType { expected, found } => {
            assert_eq!(expected, "Integer or Float");
            assert_eq!(found, "String and Integer");
        }
        _ => panic!("a mismatch was expected"),
    }
    assert_eq!(
        error.to_string(),
        "Expected Integer or Float, found String and Integer"
    );
    let both = helpers::array(vec![]) * helpers::array(vec![]);
    assert_eq!(
        both.unwrap_err().to_string(),
        "Expected Integer or Float, found Array and Array"
    );
    let error = (helpers::integer(1) - helpers::null()).unwrap_err();
    assert_eq!(
        error.to_string(),
        "Expected Integer or Float, found Integer and Null"
    );
    let error = (helpers::boolean(true) / helpers::integer(2)).unwrap_err();
    assert_eq!(
        error.to_string(),
        "Expected Integer or Float, found Bool and Integer"
    );
    let error = (float(1.0) + helpers::duration(3)).unwrap_err();
    assert_eq!(
        error.to_string(),
        "Expected Integer or Float, found Float and Duration"
    );
}

#[test]
fn not_negates_booleans_only() {
    assert_eq!((!helpers::boolean(true)).unwrap().as_bool(), Some(false));
    assert_eq!((!helpers::boolean(false)).unwrap().as_bool(), Some(true));
    assert_eq!(negate(helpers::boolean(false)).unwrap().as_bool(), Some(true));
    let error = (!helpers::integer(1)).unwrap_err();
    match &error {
        Error::ExpectedType { expected, found } => {
            assert_eq!(expected, "Bool");
            assert_eq!(found, "Integer");
        }
        _ => panic!("a mismatch was expected"),
    }
    assert_eq!((!helpers::null()).unwrap_err().to_string(), "Expected Bool, found Null");
}

#[test]
fn numbers_are_equal_across_kinds() {
    assert!(helpers::integer(2) == float(2.0));
    assert!(float(2.0) == helpers::integer(2));
    assert!(helpers::integer(2) != float(2.5));
    assert!(helpers::string("2") != helpers::integer(2));
    assert!(float(0.0) == float(-0.0));
    assert!(float(f64::NAN) != float(f64::NAN));
    assert!(helpers::integer(0) == float(-0.0));
    assert!(equals(&helpers::integer((1 << 53) + 1), &float(9_007_199_254_740_992.0)));
}

#[test]
fn equality_of_the_other_kinds() {
    assert!(helpers::null() == helpers::null());
    assert!(helpers::null() != helpers::boolean(false));
    assert!(helpers::boolean(true) == helpers::boolean(true));
    assert!(helpers::boolean(true) != helpers::boolean(false));
    assert!(helpers::string("a") == helpers::string("a"));
    assert!(helpers::string("a") != helpers::string("b"));
    assert!(helpers::duration(3) == helpers::duration(3));
    assert!(helpers::duration(3) != helpers::duration(4));
    let a = helpers::datetime("2021-01-01T00:00:00Z").unwrap();
    let b = helpers::datetime("2021-01-01T01:00:00+01:00").unwrap();
    let c = helpers::datetime("2021-01-01T00:00:01Z").unwrap();
    assert!(a == b);
    assert!(a != c);
    assert!(a != helpers::duration(3));
}

#[test]
fn arrays_are_equal_position_by_position() {
    let a = helpers::array(vec![helpers::integer(1), helpers::string("x")]);
    let b = helpers::array(vec![float(1.0), helpers::string("x")]);
    let c = helpers::array(vec![helpers::string("x"), helpers::integer(1)]);
    let d = helpers::array(vec![helpers::integer(1)]);
    assert!(a == b);
    assert!(a != c);
    assert!(a != d);
    assert!(helpers::array(vec![]) == helpers::array(vec![]));
    assert!(helpers::array(vec![]) != helpers::object(vec![]));
}

#[test]
fn objects_are_equal_whatever_the_order() {
    let a = helpers::object(vec![
        ("x".to_string(), helpers::integer(1)),
        ("y".to_string(), helpers::integer(2)),
    ]);
    let b = helpers::object(vec![
        ("y".to_string(), helpers::integer(2)),
        ("x".to_string(), helpers::integer(1)),
    ]);
    let c = helpers::object(vec![
        ("x".to_string(), helpers::integer(1)),
        ("y".to_string(), helpers::integer(3)),
    ]);
    let d = helpers::object(vec![
        ("x".to_string(), helpers::integer(1)),
        ("z".to_string(), helpers::integer(2)),
    ]);
    assert!(a == b);
    assert!(a != c);
    assert!(a != d);
}

#[test]
fn objects_with_repeated_keys_go_by_the_first_pair() {
    let left = helpers::object(vec![
        ("x".to_string(), helpers::integer(1)),
        ("x".to_string(), helpers::integer(1)),
    ]);
    let right = helpers::object(vec![
        ("x".to_string(), helpers::integer(1)),
        ("y".to_string(), helpers::integer(2)),
    ]);
    assert!(left == right);
    assert!(right != left);
    let hidden = helpers::object(vec![
        ("x".to_string(), helpers::integer(1)),
        ("x".to_string(), helpers::integer(9)),
    ]);
    let plain = helpers::object(vec![
        ("x".to_string(), helpers::integer(1)),
        ("x".to_string(), helpers::integer(1)),
    ]);
    assert!(plain == hidden);
    assert!(hidden != plain);
}

#[test]
fn numbers_and_strings_are_ordered() {
    assert_eq!(less_than(&helpers::integer(1), &helpers::integer(2)), Some(true));
    assert_eq!(less_than(&helpers::integer(2), &helpers::integer(2)), Some(false));
    assert_eq!(less_than(&helpers::integer(1), &float(1.5)), Some(true));
    assert_eq!(less_than(&float(1.5), &helpers::integer(1)), Some(false));
    assert_eq!(less_than(&float(-1.5), &float(1.5)), Some(true));
    assert_eq!(less_than(&helpers::string("a"), &helpers::string("b")), Some(true));
    assert_eq!(less_than(&helpers::string("b"), &helpers::string("a")), Some(false));
    assert_eq!(less_than(&helpers::string("a"), &helpers::string("ab")), Some(true));
    assert_eq!(less_than(&helpers::string("ab"), &helpers::string("a")), Some(false));
    assert_eq!(less_than(&helpers::string(""), &helpers::string("")), Some(false));
    assert_eq!(less_than(&helpers::string("Z"), &helpers::string("a")), Some(true));
    assert_eq!(less_than(&helpers::string("z"), &helpers::string("é")), Some(true));
    assert_eq!(less_than(&helpers::string("é"), &helpers::string("😀")), Some(true));
    assert_eq!(compare(&helpers::integer(1), &helpers::integer(2)), Some(Order::Less));
    assert_eq!(compare(&helpers::integer(2), &float(2.0)), Some(Order::Equal));
    assert_eq!(compare(&float(3.0), &helpers::integer(2)), Some(Order::Greater));
    assert_eq!(compare(&helpers::string("a"), &helpers::string("a")), Some(Order::Equal));
    assert!(helpers::string("a") < helpers::string("b"));
    assert!(float(1.5) >= helpers::integer(1));
}

#[test]
fn strings_are_ordered_as_the_machine_orders_them() {
    let words = ["", "a", "ab", "b", "B", "é", "e", "zz", "😀", "a😀", "aé", "\u{7f}", "\u{80}", "\u{7ff}", "\u{800}", "\u{ffff}", "\u{10000}"];
    for a in words {
        for b in words {
            assert_eq!(
                less_than(&helpers::string(a), &helpers::string(b)),
                Some(a < b),
                "{:?} < {:?}",
                a,
                b
            );
        }
    }
}

#[test]
fn other_pairs_are_not_ordered() {
    assert_eq!(less_than(&helpers::null(), &helpers::null()), None);
    assert_eq!(less_than(&helpers::integer(1), &helpers::string("1")), None);
    assert_eq!(compare(&helpers::boolean(true), &helpers::boolean(true)), None);
    assert_eq!(compare(&helpers::array(vec![]), &helpers::array(vec![])), None);
    let a = helpers::null();
    let b = helpers::null();
    assert!(!(a < b));
    assert!(!(a > b));
    assert!(!(a <= b));
    assert!(!(a >= b));
    assert!(a.partial_cmp(&b).is_none());
    assert!(!(helpers::integer(1) < helpers::string("2")));
    assert!(!(helpers::integer(1) > helpers::string("2")));
}

use datavalue_rs::{helpers, DataValue, Number};

#[test]
fn test_json_macro_basic_types() {
    let null_value = helpers::null();
    assert!(matches!(null_value, DataValue::Null));

    let true_value = helpers::boolean(true);
    assert!(matches!(true_value, DataValue::Bool(true)));

    let false_value = helpers::boolean(false);
    assert!(matches!(false_value, DataValue::Bool(false)));

    let string_value = helpers::string("hello");
    if let DataValue::String(s) = string_value {
        assert_eq!(s, "hello");
    } else {
        panic!("Expected string");
    }
}

#[test]
fn test_json_macro_numbers() {
    let int_value = helpers::integer(42);
    if let DataValue::Number(Number::Integer(i)) = int_value {
        assert_eq!(i, 42);
    } else {
        panic!("Expected integer number");
    }
}

use datavalue_rs::helpers;
use datavalue_rs::{DataValue, DataValueType, Number, Span, Timestamp};

#[test]
fn test_get_type() {
    assert_eq!(DataValue::Null.get_type(), DataValueType::Null);
    assert_eq!(DataValue::Bool(true).get_type(), DataValueType::Bool);
    assert_eq!(
        DataValue::Number(Number::Integer(42)).get_type(),
        DataValueType::Integer
    );
    assert_eq!(
        DataValue::Number(Number::Float(3.14f64.to_bits())).get_type(),
        DataValueType::Float
    );

    let string_val = DataValue::String("hello".to_string());
    assert_eq!(string_val.get_type(), DataValueType::String);

    let array_val = helpers::array(vec![DataValue::Null]);
    assert_eq!(array_val.get_type(), DataValueType::Array);

    let object_val = helpers::object(vec![("key".to_string(), DataValue::Null)]);
    assert_eq!(object_val.get_type(), DataValueType::Object);

    let now = chrono::Utc::now();
    let dt_val = DataValue::DateTime(
        Timestamp::new(now.timestamp(), now.timestamp_subsec_nanos()).unwrap(),
    );
    assert_eq!(dt_val.get_type(), DataValueType::DateTime);

    let dur_val = DataValue::Duration(Span::seconds(10).unwrap());
    assert_eq!(dur_val.get_type(), DataValueType::Duration);
}

#[test]
fn accessors_answer_only_for_their_own_kind() {
    let b = helpers::boolean(true);
    assert_eq!(b.as_bool(), Some(true));
    assert_eq!(b.as_i64(), None);
    assert_eq!(b.as_f64(), None);
    assert_eq!(b.as_str(), None);
    assert!(b.as_array().is_none());
    assert!(b.as_object().is_none());
    assert!(b.as_datetime().is_none());
    assert!(b.as_duration().is_none());

    let i = helpers::integer(42);
    assert_eq!(i.as_i64(), Some(42));
    assert_eq!(i.as_bool(), None);
    assert_eq!(i.as_f64().map(f64::from_bits), Some(42.0));

    let f = helpers::float(3.14f64.to_bits());
    assert_eq!(f.as_i64(), None);
    assert_eq!(f.as_f64().map(f64::from_bits), Some(3.14));

    let s = helpers::string("hello");
    assert_eq!(s.as_str(), Some("hello"));

    let a = helpers::array(vec![helpers::integer(1), helpers::integer(2)]);
    assert_eq!(a.as_array().unwrap().len(), 2);

    let o = helpers::object(vec![("key".to_string(), helpers::boolean(true))]);
    let pairs = o.as_object().unwrap();
    assert_eq!(pairs.len(), 1);
    assert_eq!(pairs[0].0, "key");

    let d = helpers::duration(10);
    assert_eq!(d.as_duration(), Some(Span::seconds(10).unwrap()));
}

#[test]
fn integer_widens_beyond_two_to_the_fifty_third() {
    let big = helpers::integer(9_007_199_254_740_993);
    assert_eq!(
        big.as_f64().map(f64::from_bits),
        Some(9_007_199_254_740_993i64 as f64)
    );
    assert_eq!(big.as_f64().map(f64::from_bits), Some(9_007_199_254_740_992.0));
}

#[test]
fn get_finds_the_first_of_equal_keys() {
    let obj = helpers::object(vec![
        ("name".to_string(), helpers::string("John")),
        ("age".to_string(), helpers::integer(30)),
        ("name".to_string(), helpers::string("Jane")),
    ]);
    assert_eq!(obj.get("name").unwrap().as_str(), Some("John"));
    assert_eq!(obj.get("age").unwrap().as_i64(), Some(30));
    assert!(obj.get("address").is_none());
    assert!(obj.contains_key("name"));
    assert!(!obj.contains_key("address"));
    assert!(helpers::integer(1).get("name").is_none());
    assert!(!helpers::integer(1).contains_key("name"));
    assert_eq!(obj.as_object().unwrap().len(), 3);
}

#[test]
fn get_index_checks_bounds() {
    let arr = helpers::array(vec![
        helpers::integer(10),
        helpers::integer(20),
        helpers::integer(30),
    ]);
    assert_eq!(arr.get_index(0).unwrap().as_i64(), Some(10));
    assert_eq!(arr.get_index(2).unwrap().as_i64(), Some(30));
    assert!(arr.get_index(3).is_none());
    assert!(arr.get_index(5).is_none());
    assert!(helpers::string("x").get_index(0).is_none());
}

#[test]
fn index_operators_reach_into_the_tree() {
    let obj = helpers::object(vec![
        ("name".to_string(), helpers::string("John")),
        (
            "hobbies".to_string(),
            helpers::array(vec![helpers::string("reading"), helpers::string("coding")]),
        ),
    ]);
    assert_eq!(obj["name"].as_str(), Some("John"));
    assert_eq!(obj["hobbies"][1].as_str(), Some("coding"));
}

#[test]
fn clone_keeps_the_whole_tree() {
    let obj = helpers::object(vec![
        ("a".to_string(), helpers::array(vec![helpers::integer(1), helpers::null()])),
        ("b".to_string(), helpers::string("x")),
    ]);
    let copy = obj.clone();
    assert!(copy == obj);
    assert_eq!(copy["a"][0].as_i64(), Some(1));
    assert_eq!(copy["b"].as_str(), Some("x"));
}

#[test]
fn kind_tests_tell_the_kinds_apart() {
    assert!(DataValue::Null.is_null());
    assert!(!DataValue::Bool(true).is_null());
    assert!(DataValue::Bool(true).is_bool());
    assert!(!DataValue::Null.is_bool());
    assert!(helpers::integer(42).is_number());
    assert!(helpers::float(3.14f64.to_bits()).is_number());
    assert!(!DataValue::Bool(true).is_number());
    assert!(helpers::string("hello").is_string());
    assert!(!DataValue::Bool(true).is_string());
    assert!(helpers::array(vec![helpers::integer(1)]).is_array());
    assert!(!DataValue::Bool(true).is_array());
    assert!(helpers::object(vec![("key".to_string(), helpers::integer(42))]).is_object());
    assert!(!DataValue::Bool(true).is_object());
}

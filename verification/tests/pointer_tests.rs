use datavalue_rs::{from_str, helpers, DataValue};

fn document() -> DataValue {
    from_str(
        r#"
    {
        "foo": ["bar", "baz"],
        "": 0,
        "a/b": 1,
        "c%d": 2,
        "e^f": 3,
        "g|h": 4,
        "i\\j": 5,
        "k\"l": 6,
        " ": 7,
        "m~n": 8
    }
    "#,
    )
    .unwrap()
}

#[test]
fn the_empty_pointer_names_the_value_itself() {
    let doc = document();
    assert!(doc.pointer("").unwrap() == &doc);
    assert!(std::ptr::eq(doc.pointer("").unwrap(), &doc));
    for value in [
        helpers::null(),
        helpers::boolean(true),
        helpers::integer(3),
        helpers::float(1.5f64.to_bits()),
        helpers::string("s"),
        helpers::array(vec![]),
        helpers::object(vec![]),
        helpers::duration(1),
    ] {
        assert!(std::ptr::eq(value.pointer("").unwrap(), &value));
    }
}

#[test]
fn pointers_of_the_standard_resolve() {
    let doc = document();
    assert_eq!(doc.pointer("/foo").unwrap().as_array().unwrap().len(), 2);
    assert_eq!(doc.pointer("/foo/0").unwrap().as_str(), Some("bar"));
    assert_eq!(doc.pointer("/foo/1").unwrap().as_str(), Some("baz"));
    assert_eq!(doc.pointer("/").unwrap().as_i64(), Some(0));
    assert_eq!(doc.pointer("/a~1b").unwrap().as_i64(), Some(1));
    assert_eq!(doc.pointer("/c%d").unwrap().as_i64(), Some(2));
    assert_eq!(doc.pointer("/e^f").unwrap().as_i64(), Some(3));
    assert_eq!(doc.pointer("/g|h").unwrap().as_i64(), Some(4));
    assert_eq!(doc.pointer("/i\\j").unwrap().as_i64(), Some(5));
    assert_eq!(doc.pointer("/k\"l").unwrap().as_i64(), Some(6));
    assert_eq!(doc.pointer("/ ").unwrap().as_i64(), Some(7));
    assert_eq!(doc.pointer("/m~0n").unwrap().as_i64(), Some(8));
}

#[test]
fn a_key_is_found_and_a_missing_key_is_not() {
    let tree = helpers::object(vec![("a".to_string(), helpers::integer(1))]);
    assert_eq!(tree.pointer("/a").unwrap().as_i64(), Some(1));
    assert!(matches!(
        tree.pointer("/a"),
        Some(DataValue::Number(datavalue_rs::Number::Integer(1)))
    ));
    assert!(tree.pointer("/b").is_none());
}

#[test]
fn escapes_address_keys_with_slash_and_tilde() {
    let tree = helpers::object(vec![
        ("a/b".to_string(), helpers::integer(1)),
        ("m~n".to_string(), helpers::integer(8)),
        ("~1".to_string(), helpers::integer(9)),
        ("~".to_string(), helpers::integer(10)),
    ]);
    assert_eq!(tree.pointer("/a~1b").unwrap().as_i64(), Some(1));
    assert_eq!(tree.pointer("/m~0n").unwrap().as_i64(), Some(8));
    assert_eq!(tree.pointer("/~01").unwrap().as_i64(), Some(9));
    assert_eq!(tree.pointer("/~").unwrap().as_i64(), Some(10));
    assert_eq!(tree.pointer("/~0").unwrap().as_i64(), Some(10));
    assert!(tree.pointer("/a/b").is_none());
}

#[test]
fn unescaping_matches_two_replacements_in_order() {
    for token in ["~01", "~10", "~~1", "~~0", "~0~1", "~1~0", "~", "~2", "a~", "~0~", "~1~1~0~01"] {
        let key = token.replace("~1", "/").replace("~0", "~");
        let tree = helpers::object(vec![(key.clone(), helpers::integer(5))]);
        let path = format!("/{}", token);
        assert_eq!(
            tree.pointer(&path).and_then(|v| v.as_i64()),
            Some(5),
            "token {:?} key {:?}",
            token,
            key
        );
    }
}

#[test]
fn a_pointer_must_begin_with_a_slash() {
    let doc = document();
    assert!(doc.pointer("foo").is_none());
    assert!(doc.pointer("foo/0").is_none());
    assert!(doc.pointer(" /foo").is_none());
    assert!(doc.pointer("~").is_none());
}

#[test]
fn array_tokens_are_indices() {
    let tree = helpers::array(vec![
        helpers::integer(10),
        helpers::integer(20),
        helpers::array(vec![helpers::integer(30)]),
    ]);
    assert_eq!(tree.pointer("/0").unwrap().as_i64(), Some(10));
    assert_eq!(tree.pointer("/1").unwrap().as_i64(), Some(20));
    assert_eq!(tree.pointer("/2/0").unwrap().as_i64(), Some(30));
    assert_eq!(tree.pointer("/01").unwrap().as_i64(), Some(20));
    assert_eq!(tree.pointer("/+1").unwrap().as_i64(), Some(20));
    assert_eq!(tree.pointer("/0000000000000000000000000000000001").unwrap().as_i64(), Some(20));
    assert!(tree.pointer("/3").is_none());
    assert!(tree.pointer("/-1").is_none());
    assert!(tree.pointer("/-0").is_none());
    assert!(tree.pointer("/+").is_none());
    assert!(tree.pointer("/").is_none());
    assert!(tree.pointer("/a").is_none());
    assert!(tree.pointer("/1a").is_none());
    assert!(tree.pointer("/1 ").is_none());
    assert!(tree.pointer("/١").is_none());
    assert!(tree.pointer("/18446744073709551615").is_none());
    assert!(tree.pointer("/18446744073709551616").is_none());
    assert!(tree.pointer("/99999999999999999999999999999999").is_none());
    assert!(tree.pointer("/2/1").is_none());
    assert!(tree.pointer("/2/").is_none());
}

#[test]
fn index_tokens_match_the_machine() {
    let items: Vec<DataValue> = (0..12).map(helpers::integer).collect();
    let tree = helpers::array(items);
    for token in ["0", "7", "11", "12", "011", "+11", "++1", "+-1", "1+", "", "+", "-", "1.0", "0x1", " 1", "1e0", "٣"] {
        let expected = token.parse::<usize>().ok().filter(|n| *n < 12).map(|n| n as i64);
        let path = format!("/{}", token);
        assert_eq!(tree.pointer(&path).and_then(|v| v.as_i64()), expected, "token {:?}", token);
    }
}

#[test]
fn a_scalar_has_nothing_below_it() {
    let tree = helpers::object(vec![("a".to_string(), helpers::integer(1))]);
    assert!(tree.pointer("/a/b").is_none());
    assert!(tree.pointer("/a/0").is_none());
    assert!(tree.pointer("/a/").is_none());
    assert!(helpers::string("x").pointer("/0").is_none());
    assert!(helpers::null().pointer("/").is_none());
}

#[test]
fn the_first_of_equal_keys_is_followed() {
    let tree = helpers::object(vec![
        ("k".to_string(), helpers::object(vec![("x".to_string(), helpers::integer(1))])),
        ("k".to_string(), helpers::object(vec![("y".to_string(), helpers::integer(2))])),
    ]);
    assert_eq!(tree.pointer("/k/x").unwrap().as_i64(), Some(1));
    assert!(tree.pointer("/k/y").is_none());
}

#[test]
fn an_empty_token_is_the_empty_key() {
    let tree = helpers::object(vec![
        ("".to_string(), helpers::object(vec![("".to_string(), helpers::integer(4))])),
    ]);
    assert!(tree.pointer("/").unwrap().is_object());
    assert_eq!(tree.pointer("//").unwrap().as_i64(), Some(4));
    assert!(tree.pointer("///").is_none());
}

#[test]
fn pointer_mut_is_never_available() {
    let mut value = from_str(r#"{"key": "value"}"#).unwrap();
    assert!(value.pointer_mut("/key").is_none());
    assert!(value.pointer_mut("").is_none());
    assert_eq!(value["key"].as_str(), Some("value"));
}

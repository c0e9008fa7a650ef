use datavalue_rs::Error;

#[test]
fn each_kind_of_error_has_its_message() {
    assert_eq!(
        Error::syntax("Unexpected end of input").to_string(),
        "Syntax error: Unexpected end of input"
    );
    assert!(Error::syntax("Unexpected end of input").to_string().contains("Syntax error"));
    assert_eq!(
        Error::expected_type("string", "number").to_string(),
        "Expected string, found number"
    );
    assert_eq!(Error::missing_field("name").to_string(), "Missing field: name");
    assert_eq!(Error::out_of_bounds(10).to_string(), "Index out of bounds: 10");
    assert_eq!(Error::out_of_bounds(0).to_string(), "Index out of bounds: 0");
    assert_eq!(
        Error::out_of_bounds(usize::MAX).to_string(),
        format!("Index out of bounds: {}", usize::MAX)
    );
    assert_eq!(Error::custom("Something went wrong").to_string(), "Something went wrong");
    assert_eq!(Error::custom("").to_string(), "");
    assert_eq!(Error::io("file not found").to_string(), "IO error: file not found");
    assert_eq!(Error::json("Invalid JSON format").to_string(), "JSON error: Invalid JSON format");
}

#[test]
fn constructors_make_the_matching_variant() {
    assert!(matches!(Error::syntax("m"), Error::Syntax(s) if s == "m"));
    assert!(matches!(
        Error::expected_type("a", "b"),
        Error::ExpectedType { expected, found } if expected == "a" && found == "b"
    ));
    assert!(matches!(Error::missing_field("f"), Error::MissingField(s) if s == "f"));
    assert!(matches!(Error::out_of_bounds(3), Error::OutOfBounds(3)));
    assert!(matches!(Error::custom("c"), Error::Custom(s) if s == "c"));
    assert!(matches!(Error::io("i"), Error::Io(s) if s == "i"));
    assert!(matches!(Error::json("j"), Error::Json(s) if s == "j"));
}

#[test]
fn a_parser_error_becomes_a_json_error() {
    let outside = serde_json::from_str::<serde_json::Value>("[").unwrap_err();
    let text = outside.to_string();
    let error = Error::from(outside);
    assert!(matches!(&error, Error::Json(s) if *s == text));
    assert_eq!(error.to_string(), format!("JSON error: {}", text));
}

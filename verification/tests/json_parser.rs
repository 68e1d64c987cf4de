use stdt::json::{from_str, Number, Object, ParseError, Value};

fn num(x: f64) -> Value {
    if x.is_nan() {
        Value::Number(Number::nan())
    } else if x == f64::INFINITY {
        Value::Number(Number::infinity())
    } else if x == f64::NEG_INFINITY {
        Value::Number(Number::neg_infinity())
    } else {
        Value::Number(Number::parse(&format!("{}", x)).unwrap())
    }
}

fn as_f64(v: &Value) -> f64 {
    match v {
        Value::Number(n) => match n.literal() {
            Some(text) => text.parse::<f64>().unwrap(),
            None => panic!("no literal"),
        },
        other => panic!("expected a number, got {:?}", other),
    }
}

fn obj(pairs: &[(&str, Value)]) -> Value {
    let mut m = Object::new();
    for (k, v) in pairs {
        m.insert((*k).to_string(), v.clone());
    }
    Value::Object(m)
}

#[test]
fn parses_string_basic() {
    let v = from_str(r#""hello""#).unwrap();
    assert_eq!(v, Value::String("hello".into()));
}

#[test]
fn parses_string_with_escapes_and_unicode() {
    let v = from_str(r#""line\n\tquote:\" snow:\u2603""#).unwrap();
    assert_eq!(v, Value::String("line\n\tquote:\" snow:\u{2603}".into()));
}

#[test]
fn parses_numbers_int_float_exp() {
    assert_eq!(from_str("0").unwrap(), num(0.0));
    assert_eq!(from_str("-42").unwrap(), num(-42.0));
    assert_eq!(from_str("3.1415").unwrap(), num(3.1415));
    assert_eq!(as_f64(&from_str("0").unwrap()), 0.0);
    assert_eq!(as_f64(&from_str("-42").unwrap()), -42.0);
    assert_eq!(as_f64(&from_str("3.1415").unwrap()), 3.1415);
    assert_eq!(as_f64(&from_str("1e3").unwrap()), 1000.0);
    assert_eq!(as_f64(&from_str("-2.5E-2").unwrap()), -0.025);
}

#[test]
fn parses_arrays() {
    assert_eq!(from_str("[]").unwrap(), Value::Array(vec![]));
    let v = from_str(r#"[1, "x", true, null]"#).unwrap();
    assert_eq!(
        v,
        Value::Array(vec![
            num(1.0),
            Value::String("x".into()),
            Value::Bool(true),
            Value::Null
        ])
    );
}

#[test]
fn parses_objects_simple_and_nested() {
    let v = from_str(r#"{"a":1,"b":"x","c":false}"#).unwrap();
    assert_eq!(
        v,
        obj(&[
            ("a", num(1.0)),
            ("b", Value::String("x".into())),
            ("c", Value::Bool(false))
        ])
    );

    let nested = from_str(r#"{"outer":{"inner":[1,2,3]}}"#).unwrap();
    assert_eq!(
        nested,
        obj(&[(
            "outer",
            obj(&[(
                "inner",
                Value::Array(vec![num(1.0), num(2.0), num(3.0)])
            )])
        )])
    );
}

#[test]
fn parses_literals_and_whitespace() {
    assert_eq!(from_str(" true ").unwrap(), Value::Bool(true));
    assert_eq!(from_str("\nfalse\t").unwrap(), Value::Bool(false));
    assert_eq!(from_str("  null  ").unwrap(), Value::Null);
}

#[test]
fn error_trailing_characters() {
    let err = from_str("null 0").unwrap_err();
    assert_eq!(err, ParseError::TrailingCharacters);
}

#[test]
fn error_unterminated_string() {
    let err = from_str(r#""unterminated"#).unwrap_err();
    assert_eq!(err, ParseError::UnterminatedString);
}

#[test]
fn error_invalid_escape_sequence() {
    let err = from_str(r#""bad \q escape""#).unwrap_err();
    assert_eq!(err, ParseError::InvalidEscapeSequence('q'));
}

#[test]
fn error_invalid_number() {
    let err = from_str("--1").unwrap_err();
    assert_eq!(err, ParseError::InvalidNumber);
}

#[test]
fn error_invalid_literal() {
    let err = from_str("tru").unwrap_err();
    assert_eq!(err, ParseError::InvalidLiteral("tru".into()));
}

#[test]
fn error_object_key_must_be_string() {
    let err = from_str("{1:2}").unwrap_err();
    assert_eq!(err, ParseError::UnexpectedToken('"'));
}

#[test]
fn error_object_missing_colon() {
    let err = from_str(r#"{"a" 1}"#).unwrap_err();
    assert_eq!(err, ParseError::UnexpectedToken(':'));
}

#[test]
fn error_array_missing_comma_or_closing() {
    let err = from_str(r#"[1 "a"]"#).unwrap_err();
    assert_eq!(err, ParseError::UnexpectedToken('"'));
}

#[test]
fn object_objects_equal_in_any_order() {
    let v = from_str(r#"{"a":1,"b":"x","c":false}"#).unwrap();
    assert_eq!(
        v,
        obj(&[
            ("c", Value::Bool(false)),
            ("a", num(1.0)),
            ("b", Value::String("x".into())),
        ])
    );
    let other = obj(&[
        ("b", Value::String("x".into())),
        ("c", Value::Bool(false)),
        ("a", num(1.0)),
    ]);
    assert_eq!(other, v);
    assert_eq!(v, other);
    assert_eq!(v, v.clone());
    assert_ne!(v, obj(&[("a", num(1.0)), ("b", Value::String("x".into()))]));
    assert_ne!(obj(&[("a", num(1.0)), ("b", Value::String("x".into()))]), v);
    assert_ne!(
        v,
        obj(&[
            ("a", num(1.0)),
            ("b", Value::String("x".into())),
            ("d", Value::Bool(false))
        ])
    );
    assert_ne!(
        v,
        obj(&[
            ("a", num(2.0)),
            ("b", Value::String("x".into())),
            ("c", Value::Bool(false))
        ])
    );
}

#[test]
fn duplicate_keys_last_write_wins() {
    let v = from_str(r#"{"a":1,"a":2}"#).unwrap();
    match &v {
        Value::Object(o) => {
            assert_eq!(o.len(), 1);
            assert_eq!(o.get("a"), Some(&num(2.0)));
            assert!(o.contains_key("a"));
            assert!(!o.contains_key("b"));
            assert_eq!(o.get("b"), None);
        }
        other => panic!("expected an object, got {:?}", other),
    }
    assert_eq!(v, obj(&[("a", num(2.0))]));
    let v = from_str(r#"{"a":1,"b":true,"a":null}"#).unwrap();
    assert_eq!(v.to_string(), r#"{"a":null,"b":true}"#);
}

#[test]
fn every_error_variant() {
    assert_eq!(from_str("").unwrap_err(), ParseError::UnexpectedEndOfInput);
    assert_eq!(from_str("   ").unwrap_err(), ParseError::UnexpectedEndOfInput);
    assert_eq!(from_str("[1,").unwrap_err(), ParseError::UnexpectedEndOfInput);
    assert_eq!(from_str("[1").unwrap_err(), ParseError::UnexpectedEndOfInput);
    assert_eq!(from_str("{").unwrap_err(), ParseError::UnexpectedEndOfInput);
    assert_eq!(from_str(r#"{"a":1"#).unwrap_err(), ParseError::UnexpectedEndOfInput);
    assert_eq!(from_str(r#"{"a":"#).unwrap_err(), ParseError::UnexpectedEndOfInput);
    assert_eq!(from_str("@").unwrap_err(), ParseError::UnexpectedToken('@'));
    assert_eq!(from_str("+1").unwrap_err(), ParseError::UnexpectedToken('+'));
    assert_eq!(from_str(".5").unwrap_err(), ParseError::UnexpectedToken('.'));
    assert_eq!(from_str("]").unwrap_err(), ParseError::UnexpectedToken(']'));
    assert_eq!(from_str("[1,]").unwrap_err(), ParseError::UnexpectedToken(']'));
    assert_eq!(from_str("[1;2]").unwrap_err(), ParseError::UnexpectedToken(';'));
    assert_eq!(from_str(r#"{"a":1,}"#).unwrap_err(), ParseError::UnexpectedToken('}'));
    assert_eq!(from_str(r#"{"a":1;"b":2}"#).unwrap_err(), ParseError::UnexpectedToken(';'));
    assert_eq!(from_str(r#"{"a""#).unwrap_err(), ParseError::UnexpectedToken(':'));
    assert_eq!(from_str("{true:1}").unwrap_err(), ParseError::UnexpectedToken('"'));
    assert_eq!(from_str("{tru:1}").unwrap_err(), ParseError::InvalidLiteral("tru".into()));
    assert_eq!(from_str(r#""abc"#).unwrap_err(), ParseError::UnterminatedString);
    assert_eq!(from_str(r#""abc\"#).unwrap_err(), ParseError::UnterminatedString);
    assert_eq!(from_str(r#""\u12"#).unwrap_err(), ParseError::UnterminatedString);
    assert_eq!(from_str(r#""\u12""#).unwrap_err(), ParseError::UnterminatedString);
    assert_eq!(from_str(r#""\x""#).unwrap_err(), ParseError::InvalidEscapeSequence('x'));
    assert_eq!(from_str(r#""\u12G4""#).unwrap_err(), ParseError::InvalidEscapeSequence('u'));
    assert_eq!(from_str(r#""\u12"x""#).unwrap_err(), ParseError::InvalidEscapeSequence('u'));
    assert_eq!(from_str(r#""\u+123""#).unwrap_err(), ParseError::InvalidEscapeSequence('u'));
    assert_eq!(from_str(r#""\uD800""#).unwrap_err(), ParseError::InvalidEscapeSequence('u'));
    assert_eq!(from_str(r#""\uDFFF""#).unwrap_err(), ParseError::InvalidEscapeSequence('u'));
    assert_eq!(from_str(r#""\uD83D\uDE00""#).unwrap_err(), ParseError::InvalidEscapeSequence('u'));
    assert_eq!(from_str("-").unwrap_err(), ParseError::InvalidNumber);
    assert_eq!(from_str("1e").unwrap_err(), ParseError::InvalidNumber);
    assert_eq!(from_str("1e+").unwrap_err(), ParseError::InvalidNumber);
    assert_eq!(from_str("1.2.3").unwrap_err(), ParseError::InvalidNumber);
    assert_eq!(from_str("-+1").unwrap_err(), ParseError::InvalidNumber);
    assert_eq!(from_str("1-2").unwrap_err(), ParseError::InvalidNumber);
    assert_eq!(from_str("-.").unwrap_err(), ParseError::InvalidNumber);
    assert_eq!(from_str("1ee5").unwrap_err(), ParseError::InvalidNumber);
    assert_eq!(from_str("trueish").unwrap_err(), ParseError::InvalidLiteral("trueish".into()));
    assert_eq!(from_str("nul").unwrap_err(), ParseError::InvalidLiteral("nul".into()));
    assert_eq!(from_str("True").unwrap_err(), ParseError::UnexpectedToken('T'));
    assert_eq!(from_str("n\u{e9}").unwrap_err(), ParseError::InvalidLiteral("n\u{e9}".into()));
    assert_eq!(from_str("null1").unwrap_err(), ParseError::TrailingCharacters);
    assert_eq!(from_str("1 2").unwrap_err(), ParseError::TrailingCharacters);
    assert_eq!(from_str("[] []").unwrap_err(), ParseError::TrailingCharacters);
    assert_eq!(from_str("{}x").unwrap_err(), ParseError::TrailingCharacters);
}

#[test]
fn first_failure_from_the_left_is_reported() {
    assert_eq!(from_str("[tru, @]").unwrap_err(), ParseError::InvalidLiteral("tru".into()));
    assert_eq!(from_str("[@, tru]").unwrap_err(), ParseError::UnexpectedToken('@'));
    assert_eq!(from_str(r#"{"a":--1,"b":@}"#).unwrap_err(), ParseError::InvalidNumber);
}

#[test]
fn error_messages() {
    assert_eq!(ParseError::UnexpectedEndOfInput.to_string(), "Unexpected end of input");
    assert_eq!(ParseError::UnexpectedToken('x').to_string(), "Unexpected token: 'x'");
    assert_eq!(ParseError::UnterminatedString.to_string(), "Unterminated string");
    assert_eq!(
        ParseError::InvalidEscapeSequence('q').to_string(),
        "Invalid escape sequence: '\\q'"
    );
    assert_eq!(ParseError::InvalidNumber.to_string(), "Invalid number format");
    assert_eq!(ParseError::InvalidLiteral("tru".into()).to_string(), "Invalid literal: tru");
    assert_eq!(
        ParseError::TrailingCharacters.to_string(),
        "Trailing characters after valid JSON"
    );
    assert_ne!(ParseError::UnexpectedToken('a'), ParseError::UnexpectedToken('b'));
    assert_ne!(ParseError::UnexpectedToken('a'), ParseError::InvalidEscapeSequence('a'));
    assert_ne!(ParseError::InvalidLiteral("a".into()), ParseError::InvalidLiteral("b".into()));
}

#[test]
fn number_literals_follow_the_float_grammar() {
    for text in ["0", "-0", "007", "1.", "-.5", "1.e5", "1E+05", "1e-5", "0.1000", "12345678901234567890123"] {
        let v = from_str(text).unwrap();
        match &v {
            Value::Number(n) => assert_eq!(n.literal(), Some(text)),
            other => panic!("expected a number, got {:?}", other),
        }
        assert_eq!(v.to_string(), text);
    }
    assert_eq!(as_f64(&from_str("1.").unwrap()), 1.0);
    assert_eq!(as_f64(&from_str("-.5").unwrap()), -0.5);
    assert_eq!(as_f64(&from_str("1e999").unwrap()), f64::INFINITY);
    assert!(Number::parse("+1").is_none());
    assert!(Number::parse(".5").is_none());
    assert!(Number::parse("").is_none());
    assert!(Number::parse("1 ").is_none());
    assert!(Number::parse("nan").is_none());
    assert!(Number::parse("inf").is_none());
    assert!(Number::parse("1e5").unwrap().is_finite());
    assert!(!Number::nan().is_finite());
    assert_eq!(Number::nan().literal(), None);
}

#[test]
fn string_escapes_are_decoded() {
    let v = from_str(r#""\"\\\/\b\f\n\r\t\u0041\u00e9\u00E9\uffff""#).unwrap();
    assert_eq!(
        v,
        Value::String("\"\\/\u{8}\u{c}\n\r\tA\u{e9}\u{e9}\u{ffff}".into())
    );
    let v = from_str("\"tab\there \u{1F600} \u{0}\"").unwrap();
    assert_eq!(v, Value::String("tab\there \u{1F600} \u{0}".into()));
}

#[test]
fn whitespace_is_unicode_whitespace() {
    assert_eq!(from_str("\u{a0}\u{2003}[\u{3000}1\u{85},\r\n2\u{2028}]\u{205f}").unwrap(),
        Value::Array(vec![num(1.0), num(2.0)]));
    assert_eq!(from_str("\u{200b}1").unwrap_err(), ParseError::UnexpectedToken('\u{200b}'));
    assert_eq!(from_str("  true  ").unwrap(), from_str("true").unwrap());
    assert_eq!(from_str("\t{ \"a\" : [ 1 , 2 ] , \"b\" : { } }\n").unwrap(),
        from_str(r#"{"a":[1,2],"b":{}}"#).unwrap());
}

#[test]
fn nesting() {
    let v = from_str("[[[[[[[[[[[]]]]]]]]]]]").unwrap();
    assert_eq!(v.to_string(), "[[[[[[[[[[[]]]]]]]]]]]");
    let v = from_str(r#"{"a":{"b":{"c":[{"d":null}]}}}"#).unwrap();
    assert_eq!(v.to_string(), r#"{"a":{"b":{"c":[{"d":null}]}}}"#);
}

#[test]
fn number_literals_are_what_the_float_parser_takes() {
    let alphabet = ['0', '7', '.', 'e', 'E', '+', '-'];
    let mut texts: Vec<String> = vec![String::new()];
    let mut level: Vec<String> = vec![String::new()];
    for _ in 0..6 {
        let mut next = Vec::new();
        for t in &level {
            for c in alphabet {
                let mut longer = t.clone();
                longer.push(c);
                next.push(longer);
            }
        }
        texts.extend(next.iter().cloned());
        level = next;
    }
    for text in &texts {
        let starts_well = text.starts_with(|c: char| c.is_ascii_digit() || c == '-');
        let float_takes_it = text.parse::<f64>().is_ok();
        assert_eq!(
            Number::parse(text).is_some(),
            starts_well && float_takes_it,
            "{:?}",
            text
        );
        let parsed = from_str(text);
        if starts_well && float_takes_it {
            assert_eq!(parsed.unwrap().to_string(), *text);
        } else if starts_well {
            assert_eq!(parsed.unwrap_err(), ParseError::InvalidNumber, "{:?}", text);
        }
    }
}

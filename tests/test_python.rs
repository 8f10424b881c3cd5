use dynfmt::{Arguments, Decimal, Error, ParseReason, PythonFormat, Value, ValueKind, ValueMap};

fn text(s: &str) -> Value {
    Value::Str(s.to_string())
}

fn float(negative: bool, digits: Vec<u8>, exponent: i32) -> Value {
    Value::Float(Decimal::new(negative, digits, exponent).expect("valid digits"))
}

fn fmt(template: &str, args: Vec<Value>) -> String {
    PythonFormat
        .format(template, &Arguments::List(args))
        .expect("formatting failed")
}

fn foo_bar() -> Value {
    let mut map = ValueMap::new();
    map.insert("foo".to_string(), text("bar"));
    Value::Object(map)
}

#[test]
fn string_display() {
    assert_eq!("hello, world!", fmt("hello, %s!", vec![text("world")]));
}

#[test]
fn number_display() {
    assert_eq!("hello, 42!", fmt("hello, %s!", vec![Value::Int(42)]));
}

#[test]
fn negative_display() {
    assert_eq!("hello, -42!", fmt("hello, %s!", vec![Value::Int(-42)]));
}

#[test]
fn float_display() {
    assert_eq!("hello, 4.2!", fmt("hello, %s!", vec![float(false, vec![4, 2], 0)]));
}

#[test]
fn float_display_whole_and_small() {
    assert_eq!("4.0", fmt("%s", vec![float(false, vec![4], 0)]));
    assert_eq!("420.0", fmt("%s", vec![float(false, vec![4, 2], 2)]));
    assert_eq!("-0.042", fmt("%s", vec![float(true, vec![4, 2], -2)]));
}

#[test]
fn boolean_display() {
    assert_eq!("hello, true!", fmt("hello, %s!", vec![Value::Bool(true)]));
}

#[test]
fn array_display() {
    let arr = Value::List(vec![Value::Int(1), Value::Int(2), Value::Int(3)]);
    assert_eq!("hello, [1,2,3]!", fmt("hello, %s!", vec![arr]));
}

#[test]
fn object_display() {
    // values inside an object render in their display text: strings unquoted
    assert_eq!("hello, {\"foo\":bar}!", fmt("hello, %s!", vec![foo_bar()]));
}

#[test]
fn object_keys_render_sorted() {
    let mut map = ValueMap::new();
    map.insert("b".to_string(), Value::Int(2));
    map.insert("a".to_string(), Value::Int(1));
    map.insert("c".to_string(), Value::Int(3));
    map.insert("a".to_string(), Value::Int(0));
    assert_eq!(3, map.len());
    assert_eq!("{\"a\":0,\"b\":2,\"c\":3}", fmt("%s", vec![Value::Object(map)]));
}

#[test]
fn string_repr() {
    assert_eq!("hello, \"world\"!", fmt("hello, %r!", vec![text("world")]));
}

#[test]
fn array_repr() {
    let arr = Value::List(vec![Value::Int(1), Value::Int(2), Value::Int(3)]);
    assert_eq!("hello, [1,2,3]!", fmt("hello, %r!", vec![arr]));
}

#[test]
fn array_repr_alt() {
    let arr = Value::List(vec![Value::Int(1), Value::Int(2), Value::Int(3)]);
    assert_eq!("hello, [\n  1,\n  2,\n  3\n]!", fmt("hello, %#r!", vec![arr]));
}

#[test]
fn nested_repr_alt() {
    let inner = Value::List(vec![text("x")]);
    let mut map = ValueMap::new();
    map.insert("k".to_string(), inner);
    let v = Value::List(vec![Value::Object(map), Value::List(vec![])]);
    assert_eq!(
        "[\n  {\n    \"k\": [\n      \"x\"\n    ]\n  },\n  []\n]",
        fmt("%#r", vec![v])
    );
}

#[test]
fn object_repr() {
    assert_eq!("hello, {\"foo\":\"bar\"}!", fmt("hello, %r!", vec![foo_bar()]));
}

#[test]
fn number_octal() {
    assert_eq!("hello, 52!", fmt("hello, %o!", vec![Value::Int(42)]));
}

#[test]
fn number_octal_alt() {
    assert_eq!("hello, 0o52!", fmt("hello, %#o!", vec![Value::Int(42)]));
}

#[test]
fn number_lower_hex() {
    assert_eq!("hello, 2a!", fmt("hello, %x!", vec![Value::Int(42)]));
}

#[test]
fn number_lower_hex_alt() {
    assert_eq!("hello, 0x2a!", fmt("hello, %#x!", vec![Value::Int(42)]));
}

#[test]
fn number_upper_hex() {
    assert_eq!("hello, 2A!", fmt("hello, %X!", vec![Value::Int(42)]));
}

#[test]
fn number_upper_hex_alt() {
    assert_eq!("hello, 0X2A!", fmt("hello, %#X!", vec![Value::Int(42)]));
}

#[test]
fn negative_hex_and_zero() {
    assert_eq!("-0x2a", fmt("%#x", vec![Value::Int(-42)]));
    assert_eq!("0", fmt("%o", vec![Value::Int(0)]));
    assert_eq!("-8000000000000000", fmt("%x", vec![Value::Int(i64::MIN)]));
}

#[test]
fn float_lower_exp() {
    assert_eq!("hello, 4.2e0!", fmt("hello, %e!", vec![float(false, vec![4, 2], 0)]));
}

#[test]
fn float_upper_exp() {
    assert_eq!("hello, 4.2E0!", fmt("hello, %E!", vec![float(false, vec![4, 2], 0)]));
}

#[test]
fn float_exp_negative_exponent() {
    assert_eq!("-5e-3", fmt("%e", vec![float(true, vec![5], -3)]));
}

#[test]
fn width_right_aligned() {
    assert_eq!("hello,    42!", fmt("hello, %5s!", vec![Value::Int(42)]));
}

#[test]
fn width_left_aligned() {
    assert_eq!("hello, 42   !", fmt("hello, %-5s!", vec![Value::Int(42)]));
}

#[test]
fn width_with_zero_padding() {
    assert_eq!("hello, 00042!", fmt("hello, %05s!", vec![Value::Int(42)]));
}

#[test]
fn width_left_align_wins_over_zero() {
    assert_eq!("[42   ]", fmt("[%-05s]", vec![Value::Int(42)]));
    assert_eq!("[42   ]", fmt("[%0-5s]", vec![Value::Int(42)]));
}

#[test]
fn width_larger_than_content() {
    assert_eq!("hello,   abc!", fmt("hello, %5s!", vec![text("abc")]));
}

#[test]
fn width_smaller_than_content() {
    assert_eq!("hello, abcdef!", fmt("hello, %3s!", vec![text("abcdef")]));
}

#[test]
fn width_equal_to_content_is_unchanged() {
    assert_eq!("[abc]", fmt("[%3s]", vec![text("abc")]));
    assert_eq!("[0x2a]", fmt("[%#04x]", vec![Value::Int(42)]));
}

#[test]
fn width_from_argument() {
    assert_eq!("hello,   42!", fmt("hello, %*s!", vec![Value::Int(4), Value::Int(42)]));
}

#[test]
fn width_from_negative_argument_is_none() {
    assert_eq!("[42]", fmt("[%*s]", vec![Value::Int(-4), Value::Int(42)]));
}

#[test]
fn width_from_non_integer_argument() {
    let r = PythonFormat.format("%*s", &Arguments::List(vec![text("4"), Value::Int(42)]));
    assert!(matches!(
        r,
        Err(Error::TypeMismatch { expected: ValueKind::Int, found: ValueKind::Str })
    ));
}

#[test]
fn test_width_formatting_demo() {
    // Test that width formatting is working correctly
    let result = PythonFormat.format(
        "Width: %5s, Left: %-5s, Zero: %05s",
        &Arguments::List(vec![text("abc"), text("def"), text("42")]),
    );
    assert_eq!(result.unwrap(), "Width:   abc, Left: def  , Zero: 00042");
}

#[test]
fn test_width_formatting_issue_3() {
    let result = PythonFormat.format("[%5s]", &Arguments::List(vec![text("A")]));
    assert_eq!(result.unwrap(), "[    A]");
}

#[test]
fn string_display_by_name() {
    let mut args = ValueMap::new();
    args.insert("name".to_string(), text("world"));

    assert_eq!(
        "hello, world!",
        PythonFormat
            .format("hello, %(name)s!", &Arguments::Named(args))
            .expect("formatting failed")
    );
}

#[test]
fn missing_name() {
    let mut args = ValueMap::new();
    args.insert("name".to_string(), text("world"));
    let r = PythonFormat.format("%(other)s", &Arguments::Named(args));
    match r {
        Err(Error::MissingArgument(dynfmt::Position::Key(k))) => assert_eq!(k, "other"),
        other => panic!("unexpected {:?}", other),
    }
}

#[test]
fn auto_against_named_source() {
    let r = PythonFormat.format("%s", &Arguments::Named(ValueMap::new()));
    assert!(matches!(r, Err(Error::UnsupportedPosition)));
}

#[test]
fn hex_of_string_is_type_mismatch() {
    let r = PythonFormat.format("%x", &Arguments::List(vec![text("a")]));
    assert!(matches!(
        r,
        Err(Error::TypeMismatch { expected: ValueKind::Int, found: ValueKind::Str })
    ));
}

#[test]
fn exp_of_integer_is_type_mismatch() {
    let r = PythonFormat.format("%e", &Arguments::List(vec![Value::Int(1)]));
    assert!(matches!(
        r,
        Err(Error::TypeMismatch { expected: ValueKind::Float, found: ValueKind::Int })
    ));
}

#[test]
fn missing_positional_argument() {
    let r = PythonFormat.format("%s %s", &Arguments::List(vec![text("a")]));
    assert!(matches!(r, Err(Error::MissingArgument(dynfmt::Position::Index(1)))));
}

#[test]
fn unknown_conversion_is_parse_error() {
    let r = PythonFormat.format("ab%q", &Arguments::List(vec![text("a")]));
    assert!(matches!(
        r,
        Err(Error::Parse { offset: 2, reason: ParseReason::UnknownConversion })
    ));
}

#[test]
fn parse_error_offset_counts_bytes() {
    let r = PythonFormat.format("é%", &Arguments::List(vec![]));
    assert!(matches!(
        r,
        Err(Error::Parse { offset: 2, reason: ParseReason::Unterminated })
    ));
}

#[test]
fn unclosed_name_is_parse_error() {
    let r = PythonFormat.format("%(name s", &Arguments::List(vec![]));
    assert!(matches!(
        r,
        Err(Error::Parse { offset: 0, reason: ParseReason::UnclosedName })
    ));
}

#[test]
fn huge_width_is_parse_error() {
    let r = PythonFormat.format("%99999999999999999999999s", &Arguments::List(vec![text("a")]));
    assert!(matches!(
        r,
        Err(Error::Parse { offset: 0, reason: ParseReason::WidthTooLarge })
    ));
}

#[test]
fn parse_error_wins_over_earlier_missing_argument() {
    let r = PythonFormat.format("%s %q", &Arguments::List(vec![]));
    assert!(matches!(r, Err(Error::Parse { .. })));
}

#[test]
fn printf_pass_through() {
    assert_eq!("no placeholders {0} here", fmt("no placeholders {0} here", vec![]));
    assert_eq!("", fmt("", vec![text("unused")]));
}

#[test]
fn printf_iter_args() {
    let mut it = PythonFormat.iter_args("é%-5x and %(k)*r").expect("iterator");
    let first = it.next().expect("first").expect("well formed");
    assert_eq!((first.start, first.end), (2, 6));
    assert!(matches!(first.position, dynfmt::Position::Auto));
    assert!(first.directive.left_align && !first.directive.zero_pad);
    assert_eq!(first.directive.width, Some(dynfmt::Width::Literal(5)));
    assert_eq!(first.directive.conversion, dynfmt::Conversion::LowerHex);
    let second = it.next().expect("second").expect("well formed");
    assert_eq!((second.start, second.end), (11, 17));
    assert!(matches!(second.position, dynfmt::Position::Key(ref k) if k == "k"));
    assert_eq!(second.directive.width, Some(dynfmt::Width::FromArgument));
    assert!(it.next().is_none());
}

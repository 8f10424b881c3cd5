use dynfmt::{parse_position, Arguments, Error, Position, SimpleCurlyFormat, Value};

fn text(s: &str) -> Value {
    Value::Str(s.to_string())
}

fn fmt(template: &str, args: Vec<Value>) -> Result<String, Error> {
    SimpleCurlyFormat.format(template, &Arguments::List(args))
}

#[test]
fn curly_next_positional() {
    assert_eq!("hello, world", fmt("hello, {}", vec![text("world")]).unwrap());
}

#[test]
fn curly_auto_in_order() {
    let args = vec![text("a"), text("b"), text("c")];
    assert_eq!("a-b-c", fmt("{}-{}-{}", args).unwrap());
}

#[test]
fn curly_auto_ignores_explicit_indices() {
    let args = vec![text("a"), text("b"), text("c")];
    assert_eq!("a c b", fmt("{} {2} {}", args).unwrap());
}

#[test]
fn curly_explicit_swap_equals_positional() {
    let left = fmt("{1}{0}", vec![Value::Int(1), Value::Bool(false)]).unwrap();
    let right = fmt("{}{}", vec![Value::Bool(false), Value::Int(1)]).unwrap();
    assert_eq!(left, right);
    assert_eq!("false1", left);
}

#[test]
fn curly_pass_through() {
    assert_eq!("plain text %s", fmt("plain text %s", vec![]).unwrap());
    assert_eq!("{ not } {a-b}", fmt("{ not } {a-b}", vec![]).unwrap());
}

#[test]
fn curly_named() {
    let mut map = dynfmt::ValueMap::new();
    map.insert("name".to_string(), text("world"));
    let r = SimpleCurlyFormat.format("hi {name}", &Arguments::Named(map)).unwrap();
    assert_eq!("hi world", r);
}

#[test]
fn curly_named_against_positional_source() {
    let r = fmt("{name}", vec![text("x")]);
    assert!(matches!(r, Err(Error::UnsupportedPosition)));
}

#[test]
fn curly_missing_index() {
    let r = fmt("{0}", vec![]);
    assert!(matches!(r, Err(Error::MissingArgument(Position::Index(0)))));
}

#[test]
fn curly_auto_missing_reports_cursor() {
    let r = fmt("{}{}", vec![text("x")]);
    assert!(matches!(r, Err(Error::MissingArgument(Position::Index(1)))));
}

#[test]
fn curly_display_only() {
    let r = fmt("{}", vec![Value::List(vec![text("a"), Value::Int(-1)])]).unwrap();
    assert_eq!("[a,-1]", r);
}

#[test]
fn curly_unicode_name_and_offsets() {
    let mut it = SimpleCurlyFormat.iter_args("é{} {0} {näme}").expect("iterator");
    let a = it.next().expect("first").expect("ok");
    assert_eq!((a.start, a.end), (2, 4));
    assert!(matches!(a.position, Position::Auto));
    let b = it.next().expect("second").expect("ok");
    assert_eq!((b.start, b.end), (5, 8));
    assert!(matches!(b.position, Position::Index(0)));
    let c = it.next().expect("third").expect("ok");
    assert_eq!((c.start, c.end), (9, 16));
    assert!(matches!(c.position, Position::Key(ref k) if k == "näme"));
    assert!(it.next().is_none());
}

#[test]
fn parse_position_forms() {
    assert!(matches!(parse_position("12"), Position::Index(12)));
    assert!(matches!(parse_position("0012"), Position::Index(12)));
    assert!(matches!(parse_position("1a"), Position::Key(ref k) if k == "1a"));
    assert!(matches!(parse_position("+5"), Position::Index(5)));
    assert!(matches!(parse_position("+"), Position::Key(ref k) if k == "+"));
    assert!(matches!(parse_position("-1"), Position::Key(ref k) if k == "-1"));
    assert!(matches!(parse_position("++5"), Position::Key(ref k) if k == "++5"));
    assert!(matches!(parse_position(""), Position::Key(ref k) if k.is_empty()));
    assert!(matches!(
        parse_position("18446744073709551615"),
        Position::Index(18446744073709551615)
    ));
    assert!(matches!(
        parse_position("18446744073709551616"),
        Position::Key(ref k) if k == "18446744073709551616"
    ));
}

#[test]
fn curly_unclosed_brace_is_parse_error() {
    let r = fmt("abc{def", vec![text("x")]);
    assert!(matches!(
        r,
        Err(dynfmt::Error::Parse { offset: 3, reason: dynfmt::ParseReason::Unterminated })
    ));
    let mut it = SimpleCurlyFormat.iter_args("é{} {x").expect("iterator");
    assert!(matches!(it.next(), Some(Ok(_))));
    assert!(matches!(
        it.next(),
        Some(Err(dynfmt::Error::Parse { offset: 5, .. }))
    ));
    assert!(it.next().is_none());
    assert!(it.next().is_none());
}

#[test]
fn curly_word_class_follows_unicode_word_characters() {
    // a combining mark and a connector punctuation are word characters
    let mut it = SimpleCurlyFormat.iter_args("{a\u{301}} {x\u{203F}y}").expect("iterator");
    let a = it.next().expect("first").expect("ok");
    assert!(matches!(a.position, Position::Key(ref k) if k == "a\u{301}"));
    let b = it.next().expect("second").expect("ok");
    assert!(matches!(b.position, Position::Key(ref k) if k == "x\u{203F}y"));
    assert!(it.next().is_none());
    // a superscript digit is not
    assert_eq!("{\u{b2}}", fmt("{\u{b2}}", vec![text("x")]).unwrap());
}

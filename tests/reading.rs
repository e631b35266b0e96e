use argo::grammar::SyntaxErrorKind;
use argo::reader::{read_cargo_basic, read_cargo_number, read_cargo_object, read_cargo_string, read_cargo_value, SyntaxError};
use argo::value::{CargoBasic, CargoContent, CargoString, CargoValue};
use argo::writer;
use argo::writer::{WriteConfig, WriteMode};

fn chars(s: &str) -> Vec<char> {
    s.chars().collect()
}

fn read(s: &str) -> Result<CargoValue, SyntaxError> {
    read_cargo_value(&chars(s))
}

fn canonical() -> WriteConfig {
    WriteConfig { mode: WriteMode::Canonical, indent_width: 4 }
}

fn pretty(width: usize) -> WriteConfig {
    WriteConfig { mode: WriteMode::Pretty, indent_width: width }
}

fn kind_of(s: &str) -> SyntaxErrorKind {
    match read(s) {
        Err(e) => e.kind,
        Ok(_) => panic!("accepted {:?}", s),
    }
}

#[test]
fn basic_literals() {
    for (text, want) in [("true", CargoBasic::CargoTrue), ("false", CargoBasic::CargoFalse), ("null", CargoBasic::CargoNull)] {
        let v = read(text).unwrap();
        match v.content {
            CargoContent::Basic(b) => assert_eq!(b, want),
            _ => panic!("not a basic value"),
        }
    }
}

#[test]
fn literal_prefix_and_suffix_are_refused() {
    assert_eq!(kind_of("tru"), SyntaxErrorKind::UnexpectedChar);
    assert_eq!(kind_of("True"), SyntaxErrorKind::UnexpectedChar);
    assert_eq!(kind_of("truex"), SyntaxErrorKind::TrailingContent);
    assert_eq!(kind_of("[nulls]"), SyntaxErrorKind::UnexpectedChar);
}

#[test]
fn object_members_keep_names_and_order() {
    let v = read(" { \"b\" : 1 , \"a\" : [true, null], \"b\": \"x\" } ").unwrap();
    match &v.content {
        CargoContent::Object(o) => {
            let names: Vec<String> = o
                .member_list
                .iter()
                .map(|m| m.name.as_ref().unwrap().chars().iter().collect())
                .collect();
            assert_eq!(names, vec!["b".to_string(), "a".to_string(), "b".to_string()]);
        },
        _ => panic!("not an object"),
    }
    assert_eq!(writer::write(&v, canonical()), "{\"b\":1,\"a\":[true,null],\"b\":\"x\"}");
}

#[test]
fn number_text_is_kept() {
    let v = read("1.50").unwrap();
    assert_eq!(writer::write(&v, canonical()), "1.50");
    let v = read("-0.0e+00").unwrap();
    assert_eq!(writer::write(&v, canonical()), "-0.0e+00");
}

#[test]
fn huge_number_is_text_only() {
    let v = read("100000000000000000000000").unwrap();
    match &v.content {
        CargoContent::Number(n) => {
            assert_eq!(n.int_value(), None);
            let t: String = n.text().chars().iter().collect();
            assert_eq!(t, "100000000000000000000000");
        },
        _ => panic!("not a number"),
    }
}

#[test]
fn integer_values() {
    let int_of = |s: &str| match read(s).unwrap().content {
        CargoContent::Number(n) => n.int_value(),
        _ => panic!("not a number"),
    };
    assert_eq!(int_of("0"), Some(0));
    assert_eq!(int_of("42"), Some(42));
    assert_eq!(int_of("18446744073709551615"), Some(u64::MAX));
    assert_eq!(int_of("18446744073709551616"), None);
    assert_eq!(int_of("-5"), None);
    assert_eq!(int_of("1e3"), None);
    assert_eq!(int_of("2.0"), None);
}

#[test]
fn unicode_escape_equals_literal() {
    let a = read("\"\\u0041\"").unwrap();
    let b = read("\"A\"").unwrap();
    assert_eq!(writer::write(&a, canonical()), writer::write(&b, canonical()));
    assert_eq!(writer::write(&a, canonical()), "\"A\"");
}

#[test]
fn escapes_decode() {
    let v = read("\"\\\"\\\\\\/\\b\\f\\n\\r\\t\\u00e9\\uD83D\\uDE00\"").unwrap();
    match &v.content {
        CargoContent::String(s) => {
            let t: String = s.chars().iter().collect();
            assert_eq!(t, "\"\\/\u{8}\u{c}\n\r\té\u{1F600}");
            assert_eq!(s.len(), 10);
        },
        _ => panic!("not a string"),
    }
}

#[test]
fn lone_surrogates_are_refused() {
    assert_eq!(kind_of("\"\\uD800\""), SyntaxErrorKind::LoneSurrogate);
    assert_eq!(kind_of("\"\\uD800\\u0041\""), SyntaxErrorKind::LoneSurrogate);
    assert_eq!(kind_of("\"\\uDC00\""), SyntaxErrorKind::LoneSurrogate);
}

#[test]
fn rejection_cases() {
    for bad in ["{,}", "[1,]", "{\"a\":1,}", "01", "1.", ".1", "\"abc", "\"a\u{1}b\"", "\"a\nb\""] {
        assert!(read(bad).is_err(), "accepted {:?}", bad);
    }
    assert_eq!(kind_of("{,}"), SyntaxErrorKind::UnexpectedChar);
    assert_eq!(kind_of("[1,]"), SyntaxErrorKind::UnexpectedChar);
    assert_eq!(kind_of("{\"a\":1,}"), SyntaxErrorKind::UnexpectedChar);
    assert_eq!(kind_of("01"), SyntaxErrorKind::TrailingContent);
    assert_eq!(kind_of("1."), SyntaxErrorKind::BadNumber);
    assert_eq!(kind_of(".1"), SyntaxErrorKind::UnexpectedChar);
    assert_eq!(kind_of("\"abc"), SyntaxErrorKind::UnexpectedEnd);
    assert_eq!(kind_of("\"a\u{1}b\""), SyntaxErrorKind::ControlInString);
}

#[test]
fn each_error_kind_with_position() {
    let err = |s: &str| read(s).unwrap_err();
    assert_eq!(err("[1"), SyntaxError { kind: SyntaxErrorKind::UnexpectedEnd, position: 2 });
    assert_eq!(err(""), SyntaxError { kind: SyntaxErrorKind::UnexpectedEnd, position: 0 });
    assert_eq!(err("  @"), SyntaxError { kind: SyntaxErrorKind::UnexpectedChar, position: 2 });
    assert_eq!(err("\"\\x\""), SyntaxError { kind: SyntaxErrorKind::InvalidEscape, position: 2 });
    assert_eq!(err("\"\\u12G4\""), SyntaxError { kind: SyntaxErrorKind::InvalidEscape, position: 2 });
    assert_eq!(err("[\"\\uD800\"]"), SyntaxError { kind: SyntaxErrorKind::LoneSurrogate, position: 2 });
    assert_eq!(err("\"a\tb\""), SyntaxError { kind: SyntaxErrorKind::ControlInString, position: 2 });
    assert_eq!(err("-"), SyntaxError { kind: SyntaxErrorKind::BadNumber, position: 1 });
    assert_eq!(err("1e+"), SyntaxError { kind: SyntaxErrorKind::BadNumber, position: 3 });
    assert_eq!(err("1 2"), SyntaxError { kind: SyntaxErrorKind::TrailingContent, position: 2 });
    assert_eq!(err("{\"a\" 1}"), SyntaxError { kind: SyntaxErrorKind::UnexpectedChar, position: 5 });
    assert_eq!(err("{\"a\":1 \"b\":2}"), SyntaxError { kind: SyntaxErrorKind::UnexpectedChar, position: 7 });
    assert!(!err("1 2").message().is_empty());
}

#[test]
fn empty_containers() {
    for text in ["{}", "[]"] {
        let v = read(text).unwrap();
        assert_eq!(writer::write(&v, canonical()), text);
        assert_eq!(writer::write(&v, pretty(4)), text);
    }
    let v = read(" { } ").unwrap();
    match &v.content {
        CargoContent::Object(o) => assert!(o.member_list.is_empty()),
        _ => panic!("not an object"),
    }
    let v = read("[ ]").unwrap();
    match &v.content {
        CargoContent::Array(a) => assert!(a.element_list.is_empty()),
        _ => panic!("not an array"),
    }
}

#[test]
fn indent_scenario() {
    let v = read("{\"a\":[1,2]}").unwrap();
    assert_eq!(writer::write(&v, pretty(2)), "{\n  \"a\":[\n    1,\n    2\n  ]\n}");
}

#[test]
fn pretty_with_zero_indent_and_nesting() {
    let v = read("[{\"k\":{}},[]]").unwrap();
    assert_eq!(writer::write(&v, pretty(0)), "[\n{\n\"k\":{}\n},\n[]\n]");
}

#[test]
fn round_trip_twice() {
    let doc = " {\"name\": \"x\\u0001y\", \"list\": [1, -2.5e10, true, false, null, {}, []], \"s\": \"\\/\\\"\"} ";
    let first = writer::write(&read(doc).unwrap(), canonical());
    let second = writer::write(&read(&first).unwrap(), canonical());
    let third = writer::write(&read(&second).unwrap(), canonical());
    assert_eq!(first, "{\"name\":\"x\\u0001y\",\"list\":[1,-2.5e10,true,false,null,{},[]],\"s\":\"/\\\"\"}");
    assert_eq!(first, second);
    assert_eq!(second, third);
}

#[test]
fn pretty_and_canonical_read_the_same() {
    let doc = "{\"a\":[1,{\"b\":null}],\"c\":\"d\"}";
    let v = read(doc).unwrap();
    let from_pretty = read(&writer::write(&v, pretty(3))).unwrap();
    let from_canonical = read(&writer::write(&v, canonical())).unwrap();
    assert_eq!(writer::write(&from_pretty, canonical()), writer::write(&from_canonical, canonical()));
}

#[test]
fn writer_escapes() {
    let v = read("\"a\\u001fb\\u0008c\\\\d\\\"e/f\\u00e9\"").unwrap();
    assert_eq!(writer::write(&v, canonical()), "\"a\\u001fb\\bc\\\\d\\\"e/fé\"");
}

#[test]
fn object_read_from_its_brace() {
    let text = chars("x{ \"k\" : [] } tail");
    let (o, end) = read_cargo_object(&text, 2).unwrap();
    assert_eq!(o.member_list.len(), 1);
    assert_eq!(end, 13);
    let err = read_cargo_object(&chars("{\"k\" 1}"), 1).unwrap_err();
    assert_eq!(err, SyntaxError { kind: SyntaxErrorKind::UnexpectedChar, position: 5 });
}

#[test]
fn scalar_writers() {
    let mut out: Vec<char> = Vec::new();
    CargoString::from_chars(chars("a\"b\u{7}")).write_cargo_string(&mut out);
    assert_eq!(out.iter().collect::<String>(), "\"a\\\"b\\u0007\"");
    let mut out: Vec<char> = Vec::new();
    CargoBasic::CargoFalse.write_cargo_basic(&mut out);
    CargoBasic::CargoNull.write_cargo_basic(&mut out);
    assert_eq!(out.iter().collect::<String>(), "falsenull");
    let v = read("-12.5E3").unwrap();
    let mut out: Vec<char> = vec!['='];
    match &v.content {
        CargoContent::Number(n) => n.write_cargo_number(&mut out),
        _ => panic!("not a number"),
    }
    assert_eq!(out.iter().collect::<String>(), "=-12.5E3");
}

#[test]
fn token_readers() {
    let text = chars("[\"a\\tb\", 12e-3, false]");
    let (s, end) = read_cargo_string(&text, 2).unwrap();
    assert_eq!(s.chars(), &vec!['a', '\t', 'b']);
    assert_eq!(s.len(), 3);
    assert_eq!(end, 7);
    let (n, end) = read_cargo_number(&text, 9).unwrap();
    assert_eq!(end, 14);
    assert_eq!(writer::write(&n, canonical()), "12e-3");
    let (b, end) = read_cargo_basic(&text, 16).unwrap();
    assert_eq!(end, 21);
    assert_eq!(writer::write(&b, canonical()), "false");
    let err = read_cargo_basic(&chars("fals"), 0).unwrap_err();
    assert_eq!(err, SyntaxError { kind: SyntaxErrorKind::UnexpectedChar, position: 0 });
    let err = read_cargo_number(&chars("-x"), 0).unwrap_err();
    assert_eq!(err, SyntaxError { kind: SyntaxErrorKind::BadNumber, position: 1 });
    let err = read_cargo_string(&chars("ab"), 0).unwrap_err();
    assert_eq!(err, SyntaxError { kind: SyntaxErrorKind::UnexpectedEnd, position: 2 });
}

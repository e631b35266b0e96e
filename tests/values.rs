use argo::args::{are_cargo_args_valid, cargo_init, is_num_args_valid, Command};
use argo::classify::{cargo_is_control, cargo_is_digit, cargo_is_exponent, cargo_is_hex, cargo_is_whitespace, hex_digit_value};
use argo::reader::int_of_chars;
use argo::value::{CargoString, CargoValue, CargoValueType};
use argo::writer;
use argo::writer::{WriteConfig, WriteMode, DEFAULT_INDENT};

fn words(ws: &[&str]) -> Vec<String> {
    ws.iter().map(|w| w.to_string()).collect()
}

#[test]
fn classifier() {
    for c in [' ', '\n', '\r', '\t'] {
        assert!(cargo_is_whitespace(c));
    }
    assert!(!cargo_is_whitespace('\u{c}'));
    assert!(cargo_is_exponent('e') && cargo_is_exponent('E') && !cargo_is_exponent('x'));
    assert!(cargo_is_digit('0') && cargo_is_digit('9') && !cargo_is_digit('a') && !cargo_is_digit('/'));
    assert!(cargo_is_hex('f') && cargo_is_hex('A') && cargo_is_hex('7') && !cargo_is_hex('g'));
    assert!(cargo_is_control('\u{0}') && cargo_is_control('\u{1f}') && !cargo_is_control(' '));
    assert_eq!(hex_digit_value('b'), 11);
    assert_eq!(hex_digit_value('F'), 15);
}

#[test]
fn argument_counts() {
    assert!(!is_num_args_valid(1));
    assert!(is_num_args_valid(2));
    assert!(is_num_args_valid(4));
    assert!(!is_num_args_valid(5));
}

#[test]
fn accepted_command_lines() {
    for ws in [vec!["argo", "-h"], vec!["argo", "-v"], vec!["argo", "-c"], vec!["argo", "-c", "-p"], vec!["argo", "-c", "-p", "2"]] {
        let argv = words(&ws);
        assert!(are_cargo_args_valid(argv.len(), argv.clone()), "{:?}", ws);
    }
    for ws in [vec!["argo"], vec!["argo", "-p"], vec!["argo", "-v", "-p"], vec!["argo", "-c", "-p", "x"], vec!["argo", "-x"]] {
        let argv = words(&ws);
        assert!(!are_cargo_args_valid(argv.len(), argv.clone()), "{:?}", ws);
    }
}

#[test]
fn commands() {
    assert_eq!(cargo_init(words(&["argo", "-h"])), Some(Command::Help));
    assert_eq!(cargo_init(words(&["argo", "-v"])), Some(Command::Validate));
    assert_eq!(
        cargo_init(words(&["argo", "-c"])),
        Some(Command::Canonicalize(WriteConfig { mode: WriteMode::Canonical, indent_width: DEFAULT_INDENT }))
    );
    assert_eq!(
        cargo_init(words(&["argo", "-c", "-p"])),
        Some(Command::Canonicalize(WriteConfig { mode: WriteMode::Pretty, indent_width: 4 }))
    );
    assert_eq!(
        cargo_init(words(&["argo", "-c", "-p", "12"])),
        Some(Command::Canonicalize(WriteConfig { mode: WriteMode::Pretty, indent_width: 12 }))
    );
    assert_eq!(cargo_init(words(&["argo", "-c", "-p", "99999999999999999999"])), None);
    assert_eq!(cargo_init(words(&["argo", "-v", "-c"])), None);
}

#[test]
fn integer_text() {
    assert_eq!(int_of_chars(&"907".chars().collect()), Some(907));
    assert_eq!(int_of_chars(&Vec::new()), None);
    assert_eq!(int_of_chars(&"9a".chars().collect()), None);
}

#[test]
fn strings_track_length() {
    let mut s = CargoString::new(2);
    s.append_char('x');
    s.append_char('é');
    assert_eq!(s.len(), 2);
    assert_eq!(s.chars(), &vec!['x', 'é']);
    let t = CargoString::from_chars(vec!['a', 'b', 'c']);
    assert_eq!(t.len(), 3);
}

#[test]
fn new_values() {
    let c = WriteConfig { mode: WriteMode::Canonical, indent_width: 4 };
    let cases = [
        (CargoValueType::CargoObjectType, "{}"),
        (CargoValueType::CargoArrayType, "[]"),
        (CargoValueType::CargoStringType, "\"\""),
        (CargoValueType::CargoNumberType, "0"),
        (CargoValueType::CargoBasicType, "null"),
        (CargoValueType::CargoNoType, "null"),
    ];
    for (t, text) in cases {
        let v = CargoValue::new(t, "Sentinel".to_string());
        assert_eq!(writer::write(&v, c), text);
        let name: String = v.name.as_ref().unwrap().chars().iter().collect();
        assert_eq!(name, "Sentinel");
    }
    assert_eq!(CargoValue::new(CargoValueType::CargoArrayType, String::new()).value_type(), CargoValueType::CargoArrayType);
    assert_eq!(CargoValue::new(CargoValueType::CargoNoType, String::new()).value_type(), CargoValueType::CargoBasicType);
}

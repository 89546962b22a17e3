use picasso::text::{i64_to_string, u64_to_string, parse_i64_digits, contains_str, starts_with};
use picasso::compiler::replace_str;
use picasso::exception::{CompilerError, CompilerException, CompilerExceptionCode};

#[test]
fn numbers_render_in_decimal() {
    assert_eq!(u64_to_string(0), "0");
    assert_eq!(u64_to_string(1234567890), "1234567890");
    assert_eq!(i64_to_string(-12), "-12");
    assert_eq!(i64_to_string(i64::MIN), "-9223372036854775808");
}

#[test]
fn digits_parse_back() {
    let digits: Vec<char> = "9223372036854775807".chars().collect();
    assert_eq!(parse_i64_digits(&digits), Some(i64::MAX));
    let too_big: Vec<char> = "9223372036854775808".chars().collect();
    assert_eq!(parse_i64_digits(&too_big), None);
    let not_digits: Vec<char> = "12a".chars().collect();
    assert_eq!(parse_i64_digits(&not_digits), None);
}

#[test]
fn replacing_every_occurrence() {
    assert_eq!(replace_str("aXbXc", "X", "--"), "a--b--c");
    assert_eq!(replace_str("abc", "X", "--"), "abc");
    assert_eq!(replace_str("aaa", "aa", "b"), "ba");
}

#[test]
fn substring_tests() {
    assert!(contains_str("lib::f", "::"));
    assert!(!contains_str("lib", "::"));
    assert!(starts_with("__export_x", "__export_"));
}

#[test]
fn note_is_indented_after_line_breaks() {
    let mut e = CompilerError { error_message: "m".to_string(), extra_message: None };
    assert_eq!(e.add_identation(4, "Hello,\nWorld!".to_string()), "Hello,\n    World!");
    assert_eq!(e.add_identation(8, "one line".to_string()), "one line");
}

#[test]
fn error_messages() {
    let e = CompilerException::new(0, 0, CompilerExceptionCode::TooManyLocals);
    assert_eq!(e.pretty_print(), "too many locals");
    let e = CompilerException::new(0, 0, CompilerExceptionCode::WrongType("INT".to_string(), "BOOL".to_string()));
    assert_eq!(e.pretty_print(), "type mismatch, can not assign different type. got=\"INT\". expected=\"BOOL\"");
}

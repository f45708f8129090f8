use tinyre::parse::Error;
use tinyre::parse::parse;

#[test]
fn test() {
    let _ = parse("abc");
    let _ = parse("(abc)");
    let _ = parse("a|b|c");
    let _ = parse("(a|bc)");
    let _ = parse("(a|bc)*");
    let _ = parse("(a|b+c)");
    let _ = parse("(a|bc+)");
}

#[test]
fn well_formed_patterns_compile() {
    assert!(parse("abc").is_ok());
    assert!(parse("(a|bc)*").is_ok());
    assert!(parse("[a-c]").is_ok());
    assert!(parse("a{2,3}").is_ok());
    assert!(parse("(?:ab)(?=c)(?!d)").is_ok());
    assert!(parse("").is_ok());
    assert!(parse("a|").is_ok());
    assert!(parse("\\d\\r\\n\\t\\0").is_ok());
}

#[test]
fn unterminated_group_is_eos() {
    assert_eq!(parse("(abc").unwrap_err(), Error::UnexpectedEOS);
}

#[test]
fn stray_close_paren_is_unexpected_char() {
    assert_eq!(parse("a)").unwrap_err(), Error::UnexpectedChar(')'));
}

#[test]
fn quantifier_without_atom_is_unexpected_char() {
    assert_eq!(parse("{2,3}").unwrap_err(), Error::UnexpectedChar('{'));
    assert_eq!(parse("*a").unwrap_err(), Error::UnexpectedChar('*'));
    assert_eq!(parse("a**").unwrap_err(), Error::UnexpectedChar('*'));
}

#[test]
fn trailing_backslash_is_eos() {
    assert_eq!(parse("\\").unwrap_err(), Error::UnexpectedEOS);
}

#[test]
fn unknown_escape_is_unexpected_char() {
    assert_eq!(parse("\\q").unwrap_err(), Error::UnexpectedChar('q'));
}

#[test]
fn bad_group_marker() {
    assert_eq!(parse("(?x)").unwrap_err(), Error::UnexpectedChar('x'));
    assert_eq!(parse("(?").unwrap_err(), Error::UnexpectedEOS);
}

#[test]
fn unterminated_class_is_eos() {
    assert_eq!(parse("[ab").unwrap_err(), Error::UnexpectedEOS);
}

#[test]
fn missing_comma_in_bounds() {
    assert_eq!(parse("a{2}").unwrap_err(), Error::UnexpectedChar('}'));
}

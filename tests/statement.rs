use rickroll::scope::Scope;
use rickroll::statement::Statement;
use rickroll::compiler::{parse_line, Parsed};
use rickroll::text::{lines_of, word_char};

fn classify(s: &str) -> Option<Statement> {
    Statement::match_statement(&s.to_string())
}

#[test]
fn classifies_each_shape() {
    assert_eq!(classify("Never gonna say hi"), Some(Statement::Say));
    assert_eq!(classify("Never gonna let x_1 down"), Some(Statement::Let));
    assert_eq!(classify("Never gonna give x 5"), Some(Statement::Assign));
    assert_eq!(classify("Never gonna run around"), None);
}

#[test]
fn say_needs_an_expression() {
    assert_eq!(classify("Never gonna say "), None);
    assert_eq!(classify("Never gonna say  "), Some(Statement::Say));
}

#[test]
fn let_needs_one_word() {
    assert_eq!(classify("Never gonna let  down"), None);
    assert_eq!(classify("Never gonna let x y down"), None);
    assert_eq!(classify("Never gonna let x-y down"), None);
    assert_eq!(classify("Never gonna let x down now"), None);
    assert_eq!(classify("Never gonna let café down"), Some(Statement::Let));
    assert_eq!(classify("Never gonna let 42 down"), Some(Statement::Let));
}

#[test]
fn assign_needs_name_space_and_expression() {
    assert_eq!(classify("Never gonna give x"), None);
    assert_eq!(classify("Never gonna give x "), None);
    assert_eq!(classify("Never gonna give  5"), None);
    assert_eq!(classify("Never gonna give x-y 5"), None);
    assert_eq!(classify("Never gonna give you up"), Some(Statement::Assign));
}

#[test]
fn matches_tests_one_shape() {
    let line = "Never gonna say hi".to_string();
    assert!(Statement::Say.matches(&line));
    assert!(!Statement::Let.matches(&line));
    assert!(!Statement::Assign.matches(&line));
}

#[test]
fn classifier_does_not_trim() {
    assert_eq!(classify(" Never gonna say hi"), None);
}

#[test]
fn splits_lines() {
    assert_eq!(lines_of("a\nb\r\nc\rd\n"), vec!["a", "b", "c", "d", ""]);
    assert_eq!(lines_of(""), vec![""]);
    assert_eq!(lines_of("\n\r"), vec!["", "", ""]);
}

#[test]
fn scope_tracks_names() {
    let mut s = Scope::new();
    assert!(!s.has_var(&"x".to_string()));
    s.add_var("x".to_string());
    let copy = s.snapshot();
    s.add_var("y".to_string());
    assert!(copy.has_var(&"x".to_string()));
    assert!(!copy.has_var(&"y".to_string()));
    assert!(s.has_var(&"y".to_string()));
}

#[test]
fn parses_each_statement() {
    assert_eq!(
        parse_line(&"Never gonna say 1 + 2".to_string()),
        Some(Parsed::Print("1 + 2".to_string()))
    );
    assert_eq!(
        parse_line(&"Never gonna let my_var down".to_string()),
        Some(Parsed::Declare("my_var".to_string()))
    );
    assert_eq!(
        parse_line(&"Never gonna give n n + 1".to_string()),
        Some(Parsed::Assign("n".to_string(), "n + 1".to_string()))
    );
    assert_eq!(parse_line(&"Never gonna give n".to_string()), None);
    assert_eq!(parse_line(&"hello".to_string()), None);
}

#[test]
fn word_characters() {
    assert!(word_char('a'));
    assert!(word_char('Z'));
    assert!(word_char('7'));
    assert!(word_char('_'));
    assert!(word_char('é'));
    assert!(!word_char(' '));
    assert!(!word_char('-'));
}

use rickroll::compiler::{Compiler, Instruction};
use rickroll::error::{Error, ErrorType};
use rickroll::scope::Scope;

fn tokens_of(expr: &str) -> Vec<String> {
    expr.split(' ').map(|t| t.to_string()).collect()
}

fn split_lexer(expr: String, _scope: Scope) -> Result<Vec<String>, Error> {
    Ok(tokens_of(&expr))
}

fn compile(text: &str) -> Result<Vec<(usize, Instruction<String>)>, Error> {
    Compiler::new(text.to_string()).compile(split_lexer)
}

#[test]
fn say_hello_world() {
    let out = compile("Never gonna say hello world").unwrap();
    assert_eq!(
        out,
        vec![(1, Instruction::Put(tokens_of("hello world"))), (0, Instruction::End())]
    );
}

#[test]
fn let_declares_variable() {
    let out = compile("Never gonna let x down").unwrap();
    assert_eq!(out, vec![(1, Instruction::Let("x".to_string())), (0, Instruction::End())]);
}

#[test]
fn let_twice_is_name_error_on_second_line() {
    let err = compile("Never gonna let x down\nNever gonna let x down").unwrap_err();
    assert_eq!(err.kind, ErrorType::NameError);
    assert_eq!(err.traceback, vec![2]);
    assert_eq!(err.message, "Variable x already exists in the current scope");
}

#[test]
fn give_without_let_is_accepted() {
    let out = compile("Never gonna give x 5").unwrap();
    assert_eq!(
        out,
        vec![(1, Instruction::SetVar("x".to_string(), tokens_of("5"))), (0, Instruction::End())]
    );
}

#[test]
fn invalid_line_is_syntax_error() {
    let err = compile("not a valid line").unwrap_err();
    assert_eq!(err.kind, ErrorType::SyntaxError);
    assert_eq!(err.traceback, vec![1]);
    assert_eq!(err.message, "Illegal statement");
}

#[test]
fn empty_input_compiles_to_end() {
    let out = compile("").unwrap();
    assert_eq!(out, vec![(0, Instruction::End())]);
}

#[test]
fn blank_lines_keep_line_numbers() {
    let out = compile("\nNever gonna let x down\n   \n\nNever gonna give x 1 + 2\n").unwrap();
    assert_eq!(
        out,
        vec![
            (2, Instruction::Let("x".to_string())),
            (5, Instruction::SetVar("x".to_string(), tokens_of("1 + 2"))),
            (0, Instruction::End()),
        ]
    );
}

#[test]
fn output_ends_with_one_end() {
    let out = compile("Never gonna let a down\nNever gonna say a\nNever gonna give a 3").unwrap();
    assert_eq!(out.last(), Some(&(0, Instruction::End())));
    let ends = out.iter().filter(|(_, i)| *i == Instruction::End()).count();
    assert_eq!(ends, 1);
}

#[test]
fn count_matches_non_blank_lines() {
    let text = "Never gonna say 1\n\n  Never gonna let b down  \n\t\nNever gonna give b 2";
    let out = compile(text).unwrap();
    let non_blank = text.lines().filter(|l| !l.trim().is_empty()).count();
    assert_eq!(out.len() - 1, non_blank);
}

#[test]
fn compiling_twice_gives_same_output() {
    let text = "Never gonna let y down\nNever gonna say y\n\nNever gonna give y 7";
    assert_eq!(compile(text).unwrap(), compile(text).unwrap());
    let bad = "Never gonna let y down\nNever gonna let y down";
    assert_eq!(compile(bad).unwrap_err(), compile(bad).unwrap_err());
}

#[test]
fn crlf_is_one_line_end() {
    let out = compile("Never gonna let x down\r\nNever gonna say x").unwrap();
    assert_eq!(
        out,
        vec![
            (1, Instruction::Let("x".to_string())),
            (2, Instruction::Put(tokens_of("x"))),
            (0, Instruction::End()),
        ]
    );
}

#[test]
fn lone_carriage_return_ends_a_line() {
    let out = compile("Never gonna let x down\rNever gonna say x").unwrap();
    assert_eq!(out[1].0, 2);
}

#[test]
fn lines_are_trimmed_before_matching() {
    let out = compile("   Never gonna let x down\t").unwrap();
    assert_eq!(out, vec![(1, Instruction::Let("x".to_string())), (0, Instruction::End())]);
}

#[test]
fn first_error_stops_compilation() {
    let err = compile("Never gonna say 1\nbad line\nNever gonna let x down\nNever gonna let x down")
        .unwrap_err();
    assert_eq!(err.kind, ErrorType::SyntaxError);
    assert_eq!(err.traceback, vec![2]);
}

fn strict_lexer(expr: String, scope: Scope) -> Result<Vec<String>, Error> {
    let mut out = Vec::new();
    for t in expr.split(' ') {
        if t.chars().all(|c| c.is_ascii_digit() || c == '+') {
            out.push(t.to_string());
        } else if scope.has_var(&t.to_string()) {
            out.push(t.to_string());
        } else {
            return Err(Error::new(ErrorType::ExpressionError, format!("Unknown name {}", t), Some(1)));
        }
    }
    Ok(out)
}

#[test]
fn lexer_error_gets_line_frame() {
    let err = Compiler::new("Never gonna let a down\n\nNever gonna say a + b".to_string())
        .compile(strict_lexer)
        .unwrap_err();
    assert_eq!(err.kind, ErrorType::ExpressionError);
    assert_eq!(err.message, "Unknown name b");
    assert_eq!(err.traceback, vec![1, 3]);
}

#[test]
fn lexer_sees_names_declared_before() {
    let out = Compiler::new("Never gonna let a down\nNever gonna give a a + 1".to_string())
        .compile(strict_lexer)
        .unwrap();
    assert_eq!(out[1], (2, Instruction::SetVar("a".to_string(), tokens_of("a + 1"))));
    let err = Compiler::new("Never gonna say a\nNever gonna let a down".to_string())
        .compile(strict_lexer)
        .unwrap_err();
    assert_eq!(err.traceback, vec![1, 1]);
}

#[test]
fn assign_splits_at_first_space() {
    let out = compile("Never gonna give total  x y").unwrap();
    assert_eq!(out[0], (1, Instruction::SetVar("total".to_string(), vec![
        String::new(),
        "x".to_string(),
        "y".to_string(),
    ])));
}

#[test]
fn error_constructors() {
    let e = Error::new(ErrorType::SyntaxError, "m".to_string(), None);
    assert!(e.traceback.is_empty());
    let e = e.traceback(Some(4)).traceback(None).traceback(Some(9));
    assert_eq!(e.traceback, vec![4, 9]);
    assert_eq!(e.message, "m");
}

#[test]
fn unicode_white_space_is_trimmed() {
    let out = compile("\u{3000}\u{a0}Never gonna let x down\u{2003}\n\u{85}\u{2028}").unwrap();
    assert_eq!(out, vec![(1, Instruction::Let("x".to_string())), (0, Instruction::End())]);
}

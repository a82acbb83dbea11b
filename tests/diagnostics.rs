use scamper::{ErrorCode, ErrorLevel, ParseError, RuntimeError, Span};

#[test]
fn runtime_error_reports_a_line_and_column_range() {
    let e = RuntimeError::new(String::from("boom"), Some(Span { loc: 4, len: 3 }));
    assert_eq!(e.emit_to_string("ab\ncdefg"), "Runtime error [2:2-2:4]: boom.");
    let e = RuntimeError::new(String::from("boom"), Some(Span { loc: 0, len: 2 }));
    assert_eq!(e.emit_to_string("ab\ncdefg"), "Runtime error [1:1-1:2]: boom.");
}

#[test]
fn runtime_error_without_a_usable_span() {
    let e = RuntimeError::new(String::from("boom"), None);
    assert_eq!(e.emit_to_string("x"), "Runtime error: boom.");
    let e = RuntimeError::new(String::from("boom"), Some(Span { loc: 9, len: 1 }));
    assert_eq!(e.emit_to_string("x"), "Runtime error: boom");
}

#[test]
fn parse_error_web_report_capitalizes_the_message() {
    let e = ParseError::new(String::from("unclosed delimiter"), Some(Span { loc: 0, len: 1 }));
    assert_eq!(e.emit_to_web_string("(a b"), "Parser error [1:1-1:1]: Unclosed delimiter.");
    let e = ParseError::new(String::from("bad"), None);
    assert_eq!(e.emit_to_web_string(""), "Parser error: Bad.");
}

#[test]
fn parse_error_terminal_report_underlines_the_span() {
    let e = ParseError::new(String::from("unterminated double quote string"), Some(Span { loc: 3, len: 4 })).with_code(1);
    assert_eq!(e.code.map(|c| c.0), Some(1));
    assert!(matches!(e.level, ErrorLevel::Error));
    assert_eq!(
        e.emit_to_string("f", "(a \"bc\nd)"),
        "error[E0001]: unterminated double quote string\n  --> f:1:4\n   |\n 1 | (a \"bc\n   |    ^^^^"
    );
    let e = ParseError::new(String::from("oops"), Some(Span { loc: 5, len: 1 }));
    assert_eq!(e.emit_to_string("g", "ab\ncde"), "error: oops\n  --> g:2:3\n   |\n 2 | cde\n   |   ^");
}

#[test]
fn error_code_keeps_its_number() {
    assert_eq!(ErrorCode::new(42).0, 42);
}

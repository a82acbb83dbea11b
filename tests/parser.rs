use scamper::{
    parse, Ast, Decimal, Operation, OperationKind, Span, Statement, StatementKind, Value,
};

#[test]
fn empty_source() {
    let src = "";
    let ast = parse(src).expect("parse failed");
    assert!(ast.statements.is_empty());
}

#[test]
fn multi_expr() {
    let src = "(define a 1)\n(+ a 2)\n(+ a 3)";
    let ast = parse(src).expect("parse failed");
    assert_eq!(
        ast,
        Ast {
            statements: vec![
                Statement::binding(
                    String::from("a"),
                    vec![Operation::value(Value::Integer(1), Span { loc: 10, len: 1 })],
                    Span { loc: 0, len: 12 }
                ),
                Statement::expr(
                    vec![
                        Operation::var(String::from("+"), Span { loc: 14, len: 1 }),
                        Operation::var(String::from("a"), Span { loc: 16, len: 1 }),
                        Operation::value(Value::Integer(2), Span { loc: 18, len: 1 }),
                        Operation::ap(2, Span { loc: 13, len: 7 })
                    ],
                    Span { loc: 13, len: 7 }
                ),
                Statement::expr(
                    vec![
                        Operation::var(String::from("+"), Span { loc: 22, len: 1 }),
                        Operation::var(String::from("a"), Span { loc: 24, len: 1 }),
                        Operation::value(Value::Integer(3), Span { loc: 26, len: 1 }),
                        Operation::ap(2, Span { loc: 21, len: 7 })
                    ],
                    Span { loc: 21, len: 7 }
                )
            ]
        }
    );
}

#[test]
fn variables() {
    let src1 = "a";
    let ast1 = parse(src1).expect("parse failed");
    assert_eq!(
        ast1,
        Ast {
            statements: vec![Statement::expr(
                vec![Operation::var(String::from("a"), Span { loc: 0, len: 1 })],
                Span { loc: 0, len: 1 }
            )]
        }
    );

    let src2 = "(+ 1 a)";
    let ast2 = parse(src2).expect("parse failed");
    assert_eq!(
        ast2,
        Ast {
            statements: vec![Statement::expr(
                vec![
                    Operation::var(String::from("+"), Span { loc: 1, len: 1 }),
                    Operation::value(Value::Integer(1), Span { loc: 3, len: 1 }),
                    Operation::var(String::from("a"), Span { loc: 5, len: 1 }),
                    Operation::ap(2, Span { loc: 0, len: 7 })
                ],
                Span { loc: 0, len: 7 }
            )]
        }
    );
}

#[test]
fn define_stmt() {
    let src1 = "(define a 1)";
    let ast1 = parse(src1).expect("parse failed");
    assert_eq!(
        ast1,
        Ast {
            statements: vec![Statement::binding(
                String::from("a"),
                vec![Operation::value(Value::Integer(1), Span { loc: 10, len: 1 })],
                Span { loc: 0, len: 12 }
            )]
        }
    );

    let src2 = "(define a (+ 1 2))";
    let ast2 = parse(src2).expect("parse failed");
    assert_eq!(
        ast2,
        Ast {
            statements: vec![Statement::binding(
                String::from("a"),
                vec![
                    Operation::var(String::from("+"), Span { loc: 11, len: 1 }),
                    Operation::value(Value::Integer(1), Span { loc: 13, len: 1 }),
                    Operation::value(Value::Integer(2), Span { loc: 15, len: 1 }),
                    Operation::ap(2, Span { loc: 10, len: 7 })
                ],
                Span { loc: 0, len: 18 }
            )]
        }
    );
}

#[test]
fn literals() {
    let int_src = "1";
    let int_ast = parse(int_src).expect("parse failed");
    assert_eq!(
        int_ast.statements,
        vec![Statement::expr(
            vec![Operation {
                kind: OperationKind::Value { value: Value::Integer(1) },
                span: Span { loc: 0, len: 1 }
            }],
            Span { loc: 0, len: 1 }
        )]
    );

    let float_src = "1.0";
    let float_ast = parse(float_src).expect("parse failed");
    assert_eq!(
        float_ast.statements,
        vec![Statement::expr(
            vec![Operation {
                kind: OperationKind::Value { value: Value::Float(Decimal { mantissa: 1, scale: 0 }) },
                span: Span { loc: 0, len: 3 }
            }],
            Span { loc: 0, len: 3 }
        )]
    );

    let string_src = "\"hello\"";
    let string_ast = parse(string_src).expect("parse failed");
    assert_eq!(
        string_ast.statements,
        vec![Statement::expr(
            vec![Operation {
                kind: OperationKind::Value { value: Value::String(String::from("hello")) },
                span: Span { loc: 0, len: 7 }
            }],
            Span { loc: 0, len: 7 }
        )]
    );
}

#[test]
fn closures() {
    let src = "(define add (lambda (a b) (+ a b)))";
    let ast = parse(src).expect("parse failed");
    assert_eq!(
        ast,
        Ast {
            statements: vec![Statement::binding(
                String::from("add"),
                vec![Operation::closure(
                    vec![String::from("a"), String::from("b")],
                    vec![
                        Operation::var(String::from("+"), Span { loc: 27, len: 1 }),
                        Operation::var(String::from("a"), Span { loc: 29, len: 1 }),
                        Operation::var(String::from("b"), Span { loc: 31, len: 1 }),
                        Operation::ap(2, Span { loc: 26, len: 7 })
                    ],
                    Span { loc: 12, len: 22 }
                )],
                Span { loc: 0, len: 35 }
            )]
        }
    );
}

#[test]
fn if_expr() {
    let src = "(if #t 1 2)";
    let ast = parse(src).expect("parse failed");
    assert_eq!(
        ast,
        Ast {
            statements: vec![Statement::expr(
                vec![
                    Operation::value(Value::Boolean(true), Span { loc: 4, len: 2 }),
                    Operation::if_(
                        vec![Operation::value(Value::Integer(1), Span { loc: 7, len: 1 })],
                        vec![Operation::value(Value::Integer(2), Span { loc: 9, len: 1 })],
                        Span { loc: 0, len: 11 }
                    )
                ],
                Span { loc: 0, len: 11 }
            )]
        }
    );
}

#[test]
fn integer_literal_reads_back_with_its_span() {
    for (src, n) in [("0", 0i64), ("42", 42), ("-7", -7), ("9223372036854775807", i64::MAX), ("-9223372036854775808", i64::MIN)] {
        let ast = parse(src).expect("parse failed");
        let span = Span { loc: 0, len: src.len() as u16 };
        assert_eq!(ast.statements, vec![Statement::expr(vec![Operation::value(Value::Integer(n), span)], span)]);
    }
}

#[test]
fn and_lowers_to_jumps_to_a_shared_label() {
    let ast = parse("(and #t #f)").expect("parse failed");
    let span = Span { loc: 0, len: 11 };
    assert_eq!(
        ast.statements,
        vec![Statement::expr(
            vec![
                Operation::value(Value::Boolean(true), Span { loc: 5, len: 2 }),
                Operation::and(String::from("lbl_0"), span),
                Operation::value(Value::Boolean(false), Span { loc: 8, len: 2 }),
                Operation::and(String::from("lbl_0"), span),
                Operation::value(Value::Boolean(true), span),
                Operation::label(String::from("lbl_0")),
            ],
            span
        )]
    );
}

#[test]
fn parse_errors() {
    let e = parse("(a b").unwrap_err();
    assert_eq!(e.message, "unclosed delimiter");
    assert_eq!(e.span, Some(Span { loc: 0, len: 1 }));
    let e = parse("(a b]").unwrap_err();
    assert_eq!(e.message, "mismatched closing delimiter: `]`");
    let e = parse("(lambda x)").unwrap_err();
    assert_eq!(e.message, "lambda expression must have 2 sub-components: a parameter list and a body");
    let e = parse("(define 1 2)").unwrap_err();
    assert_eq!(e.message, "the first component of a define statement must be an identifier");
    let e = parse("99999999999999999999").unwrap_err();
    assert_eq!(e.message, "invalid integer literal");
    let e = parse("#\\bogus").unwrap_err();
    assert_eq!(e.message, "invalid character literal");
}

#[test]
fn statements_of_each_kind() {
    let ast = parse("(import image) (struct point (x y)) (display 1)").expect("parse failed");
    assert_eq!(ast.statements.len(), 3);
    assert_eq!(ast.statements[0].kind, StatementKind::Import { mod_name: String::from("image") });
    assert_eq!(
        ast.statements[1].kind,
        StatementKind::Struct { id: String::from("point"), fields: vec![String::from("x"), String::from("y")] }
    );
    assert_eq!(
        ast.statements[2].kind,
        StatementKind::Display { body: vec![Operation::value(Value::Integer(1), Span { loc: 45, len: 1 })] }
    );
}

#[test]
fn underscore_names_only_in_patterns() {
    let e = parse("(+ _x 1)").unwrap_err();
    assert_eq!(e.message, "identifiers cannot begin with `_` unless inside of `section` or patterns");
    assert_eq!(e.span, Some(Span { loc: 3, len: 2 }));
    assert!(parse("(match 1 [_ 2])").is_ok());
}

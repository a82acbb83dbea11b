use scamper::{Closure, Decimal, Engine, Env, Operation, Output, Span, Value};
use std::rc::Rc;

fn run(engine: &mut Engine, src: &str) -> Vec<Output> {
    engine.run(src).expect("parse failed")
}

fn value_of(out: &Output) -> &Value {
    match out {
        Output::Value(v) => v,
        Output::Error(e) => panic!("unexpected error: {}", e.message),
    }
}

fn error_of(out: &Output) -> String {
    match out {
        Output::Error(e) => e.message.clone(),
        Output::Value(v) => panic!("unexpected value: {}", v.to_display_string()),
    }
}

#[test]
fn bindings_persist_across_statements() {
    let mut engine = Engine::new();
    let out = run(&mut engine, "(define a 1)\n(+ a 2)");
    assert_eq!(out.len(), 1);
    assert_eq!(value_of(&out[0]), &Value::Integer(3));
    let out = run(&mut engine, "(+ a 10)");
    assert_eq!(value_of(&out[0]), &Value::Integer(11));
}

#[test]
fn if_takes_the_branch_of_its_guard() {
    let mut engine = Engine::new();
    let out = run(&mut engine, "(if #t 1 2) (if #f 1 2) (if 1 1 2)");
    assert_eq!(value_of(&out[0]), &Value::Integer(1));
    assert_eq!(value_of(&out[1]), &Value::Integer(2));
    assert_eq!(error_of(&out[2]), "Boolean expected in conditional");
}

#[test]
fn and_or_short_circuit() {
    let mut engine = Engine::new();
    let out = run(&mut engine, "(and #f (error \"boom\")) (or #t (error \"boom\")) (and #t #t) (or #f #f)");
    assert_eq!(value_of(&out[0]), &Value::Boolean(false));
    assert_eq!(value_of(&out[1]), &Value::Boolean(true));
    assert_eq!(value_of(&out[2]), &Value::Boolean(true));
    assert_eq!(value_of(&out[3]), &Value::Boolean(false));
    let out = run(&mut engine, "(and #t (error \"boom\"))");
    assert_eq!(error_of(&out[0]), "boom");
}

#[test]
fn closure_arity_is_checked() {
    let mut engine = Engine::new();
    let out = run(&mut engine, "((lambda (a b) (+ a b)) 1) ((lambda (a b) (+ a b)) 1 2)");
    assert_eq!(error_of(&out[0]), "Function expected 2 arguments, passed 1 instead");
    assert_eq!(value_of(&out[1]), &Value::Integer(3));
}

#[test]
fn match_binds_and_takes_the_first_match() {
    let mut engine = Engine::new();
    let out = run(&mut engine, "(match 5 [x (+ x 1)]) (match 5 [6 'no] [5 'yes]) (match 5 [6 'no])");
    assert_eq!(value_of(&out[0]), &Value::Integer(6));
    assert_eq!(value_of(&out[1]), &Value::Symbol(String::from("yes")));
    assert_eq!(error_of(&out[2]), "No pattern matches for 5");
}

#[test]
fn match_destructures_pairs_and_records() {
    let mut engine = Engine::new();
    let out = run(
        &mut engine,
        "(struct point (x y))\n(match (point 1 2) [(point a b) (+ a b)])\n(point-y (point 3 4))\n(point? 5)",
    );
    assert_eq!(value_of(&out[0]), &Value::Integer(3));
    assert_eq!(value_of(&out[1]), &Value::Integer(4));
    assert_eq!(value_of(&out[2]), &Value::Boolean(false));
}

#[test]
fn cond_runs_the_first_true_branch() {
    let mut engine = Engine::new();
    let out = run(&mut engine, "(cond [#f 1] [#t 2] [#t (error \"boom\")]) (cond [#f 1])");
    assert_eq!(value_of(&out[0]), &Value::Integer(2));
    assert_eq!(error_of(&out[1]), "No branches of \"cond\" expression matched");
}

#[test]
fn closures_keep_the_environment_they_were_made_in() {
    let mut engine = Engine::new();
    let out = run(&mut engine, "(define x 1)\n(define f (lambda () x))\n(define x 2)\n(f)\nx");
    assert_eq!(value_of(&out[0]), &Value::Integer(1));
    assert_eq!(value_of(&out[1]), &Value::Integer(2));
}

#[test]
fn deep_recursion_is_an_error_not_a_crash() {
    let mut engine = Engine::new();
    let out = run(&mut engine, "((lambda (f) (f f)) (lambda (f) (f f)))");
    assert_eq!(out.len(), 1);
    assert_eq!(error_of(&out[0]), "Maximum call stack size exceeded");
}

#[test]
fn let_forms_bind_in_order() {
    let mut engine = Engine::new();
    let out = run(&mut engine, "(let ([a 1] [b 2]) (+ a b)) (let* ([a 1] [b (+ a 1)]) (* a b)) (begin 1 2 3)");
    assert_eq!(value_of(&out[0]), &Value::Integer(3));
    assert_eq!(value_of(&out[1]), &Value::Integer(2));
    assert_eq!(value_of(&out[2]), &Value::Integer(3));
}

#[test]
fn runtime_errors_do_not_stop_later_statements() {
    let mut engine = Engine::new();
    let out = run(&mut engine, "y (import image) (define lambda 1) (- 10 4)");
    assert_eq!(error_of(&out[0]), "Referenced unbound identifier `y`");
    assert_eq!(error_of(&out[1]), "Module not found: image");
    assert_eq!(error_of(&out[2]), "\"lambda\" is a reserved word and cannot be used as an identifier");
    assert_eq!(value_of(&out[3]), &Value::Integer(6));
}

#[test]
fn arithmetic_overflow_and_type_errors() {
    let mut engine = Engine::new();
    let out = run(&mut engine, "(+ 9223372036854775807 1) (+ 1 #t) (- 5) (* 2 3 4) (< 1 2) (= 1 1.0) (not #f) (1 2)");
    assert_eq!(error_of(&out[0]), "integer overflow");
    assert_eq!(error_of(&out[1]), "expected integer arguments");
    assert_eq!(value_of(&out[2]), &Value::Integer(-5));
    assert_eq!(value_of(&out[3]), &Value::Integer(24));
    assert_eq!(value_of(&out[4]), &Value::Boolean(true));
    assert_eq!(value_of(&out[5]), &Value::Boolean(true));
    assert_eq!(value_of(&out[6]), &Value::Boolean(true));
    assert_eq!(error_of(&out[7]), "Non-function value in function application");
}

#[test]
fn display_round_trips_through_the_literal_grammar() {
    let mut engine = Engine::new();
    for src in ["42", "-17", "2.50", "-0.05", "#t", "#f", "\"hi there\"", "3.0"] {
        let out = run(&mut engine, src);
        let shown = value_of(&out[0]).to_display_string();
        let again = run(&mut engine, &shown);
        assert!(value_of(&out[0]).equals(value_of(&again[0])), "{} showed as {}", src, shown);
    }
    let out = run(&mut engine, "2.50");
    assert_eq!(value_of(&out[0]), &Value::Float(Decimal { mantissa: 25, scale: 1 }));
    assert_eq!(value_of(&out[0]).to_display_string(), "2.5");
}

#[test]
fn values_display_in_surface_syntax() {
    let list = Value::List(vec![Value::Integer(1), Value::Boolean(false), Value::String(String::from("s"))]);
    assert_eq!(list.to_display_string(), "(list 1 #f \"s\")");
    assert_eq!(Value::Null.to_display_string(), "null");
    assert_eq!(Value::Char('a').to_display_string(), "#\\a");
    assert_eq!(Value::Float(Decimal { mantissa: -5, scale: 2 }).to_display_string(), "-0.05");
}

#[test]
fn equality_relaxations() {
    assert!(Value::Integer(1).equals(&Value::Float(Decimal { mantissa: 10, scale: 1 })));
    assert!(Value::Null.equals(&Value::List(vec![])));
    assert!(!Value::Integer(1).equals(&Value::String(String::from("1"))));
    assert!(!Value::Integer(0).truthy() == false);
    assert!(!Value::Null.truthy());
    assert!(Value::String(String::new()).truthy());
}

#[test]
fn closures_are_equal_when_parameters_and_bodies_are() {
    let body = |n: i64| vec![Operation::value(Value::Integer(n), Span { loc: 0, len: 1 })];
    let make = |n: i64| {
        Value::Closure(Closure {
            params: vec![String::from("x")],
            body: Rc::new(body(n)),
            env: Rc::new(Env::new(None)),
        })
    };
    assert!(make(1).equals(&make(1)));
    assert!(!make(1).equals(&make(2)));
}

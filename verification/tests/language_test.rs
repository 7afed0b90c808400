#![allow(non_snake_case)]

use monkey_interpreter::evaluator;
use monkey_interpreter::lexer;
use monkey_interpreter::object;
use monkey_interpreter::token;

fn run(input: &str) -> object::Object {
    let l = lexer::New(String::from(input));
    let mut p = l.New();
    let program = p.ParseProgram();
    let mut env = object::NewEnvironment();
    evaluator::Eval(program, &mut env)
}

#[test]
fn closures_capture_their_defining_scope() {
    let out = run("let newAdder = fn(x) { fn(y) { x + y }; }; let addTwo = newAdder(2); addTwo(3);");
    if let object::Object::Integer { Value } = out {
        assert_eq!(Value, 5);
    } else {
        panic!("expected an integer, got {:?}", out);
    }
}

#[test]
fn sibling_closures_share_the_captured_scope() {
    let out = run(
        "let make = fn() { let a = 1; fn() { a } }; let get = make(); get();",
    );
    if let object::Object::Integer { Value } = out {
        assert_eq!(Value, 1);
    } else {
        panic!("expected an integer, got {:?}", out);
    }
}

#[test]
fn precedence_round_trip() {
    let cases: Vec<(&str, &str)> = vec![
        ("a + b * c + d / e - f", "(((a + (b * c)) + (d / e)) - f)"),
        ("-a * b", "((-a) * b)"),
        ("!-a", "(!(-a))"),
        ("add(a, b, 1, 2 * 3)", "add(a, b, 1, (2 * 3))"),
        ("fn(x, y) { x }(1, 2)", "fn(x, y) {(1, 2)"),
    ];
    for (input, expected) in cases.iter() {
        let l = lexer::New(String::from(*input));
        let mut p = l.New();
        let program = p.ParseProgram();
        assert_eq!(program.into_string(), String::from(*expected));
    }
}

#[test]
fn parsing_is_total_on_malformed_input() {
    let l = lexer::New(String::from("let x 5;"));
    let mut p = l.New();
    let program = p.ParseProgram();
    let errors = p.Errors();
    assert!(errors.len() >= 1);
    assert_eq!(errors[0], String::from("expected next token to be =, got INT, instead"));
    assert_eq!(program.Statements.len(), 1);

    let l = lexer::New(String::from(")(##"));
    let mut p = l.New();
    let program = p.ParseProgram();
    assert!(p.Errors().len() >= 1);
    assert_eq!(program.Statements.len(), 0);
}

#[test]
fn division_by_zero_is_an_error_value() {
    let out = run("5 / 0");
    if let object::Object::Error { Message } = out {
        assert_eq!(Message, String::from("division by zero"));
    } else {
        panic!("expected an error, got {:?}", out);
    }
}

#[test]
fn calling_a_non_function_is_an_error_value() {
    let out = run("let x = 5; x(1);");
    if let object::Object::Error { Message } = out {
        assert_eq!(Message, String::from("not a function: INTEGER"));
    } else {
        panic!("expected an error, got {:?}", out);
    }
}

#[test]
fn arity_mismatch_is_an_error_value() {
    let out = run("let f = fn(x, y) { x + y }; f(1);");
    if let object::Object::Error { Message } = out {
        assert_eq!(Message, String::from("wrong number of arguments"));
    } else {
        panic!("expected an error, got {:?}", out);
    }
}

#[test]
fn runaway_recursion_is_reported_not_crashed() {
    let out = run("let f = fn() { f() }; f();");
    if let object::Object::Error { Message } = out {
        assert_eq!(Message, String::from("stack overflow"));
    } else {
        panic!("expected an error, got {:?}", out);
    }
}

#[test]
fn inspect_renders_canonical_text() {
    assert_eq!(run("5 * 8").Inspect(), String::from("40"));
    assert_eq!(run("-5").Inspect(), String::from("-5"));
    assert_eq!(run("1 < 2").Inspect(), String::from("true"));
    assert_eq!(run("if (false) { 1 }").Inspect(), String::from("null"));
    assert_eq!(run("zzz").Inspect(), String::from("ERROR: identifier not found: zzz"));
}

#[test]
fn keywords_are_reclassified() {
    assert_eq!(token::LookupIdent(&String::from("fn")), token::FUNCTION);
    assert_eq!(token::LookupIdent(&String::from("let")), token::LET);
    assert_eq!(token::LookupIdent(&String::from("true")), token::TRUE);
    assert_eq!(token::LookupIdent(&String::from("false")), token::FALSE);
    assert_eq!(token::LookupIdent(&String::from("if")), token::IF);
    assert_eq!(token::LookupIdent(&String::from("else")), token::ELSE);
    assert_eq!(token::LookupIdent(&String::from("return")), token::RETURN);
    assert_eq!(token::LookupIdent(&String::from("lets")), token::IDENT);
}

#[test]
fn bindings_persist_across_evaluations() {
    let mut env = object::NewEnvironment();

    let l = lexer::New(String::from("let a = 41;"));
    let mut p = l.New();
    let program = p.ParseProgram();
    evaluator::Eval(program, &mut env);

    let l = lexer::New(String::from("a + 1"));
    let mut p = l.New();
    let program = p.ParseProgram();
    let out = evaluator::Eval(program, &mut env);
    if let object::Object::Integer { Value } = out {
        assert_eq!(Value, 42);
    } else {
        panic!("expected an integer, got {:?}", out);
    }

    let stored = env.SetValue(&String::from("b"), object::Object::Integer { Value: 7 });
    assert!(matches!(stored, object::Object::Integer { Value: 7 }));
    match env.Get(&String::from("b")) {
        Some(object::Object::Integer { Value }) => assert_eq!(*Value, 7),
        other => panic!("expected the stored binding, got {:?}", other),
    }
}

#[test]
fn illegal_characters_become_illegal_tokens() {
    let mut l = lexer::New(String::from("#"));
    let tok = l.NextToken();
    assert_eq!(tok.Type, token::ILLEGAL);
    assert_eq!(tok.Literal, String::from("#"));
    let tok = l.NextToken();
    assert_eq!(tok.Type, token::EOF);
}

#[test]
fn oversized_integer_literal_is_a_diagnostic() {
    let l = lexer::New(String::from("9223372036854775808"));
    let mut p = l.New();
    let _ = p.ParseProgram();
    let errors = p.Errors();
    assert_eq!(errors.len(), 1);
    assert_eq!(
        errors[0],
        String::from("could not parse 9223372036854775808 as integer")
    );
}

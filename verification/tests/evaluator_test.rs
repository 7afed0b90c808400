#![allow(non_snake_case)]
#![allow(dead_code)]

use monkey_interpreter::evaluator;
use monkey_interpreter::lexer;
use monkey_interpreter::object;

fn testEval(input: &String) -> object::Object {
    let l = lexer::New(input.clone());
    let mut p = l.New();
    let program = p.ParseProgram();
    let mut env = object::NewEnvironment();
    evaluator::Eval(program, &mut env)
}

fn testIntegerObject(obj: &object::Object, expected: i64) -> bool {
    if let object::Object::Integer { Value } = obj {
        if *Value != expected {
            println!("object has wrong value. got={}, want={}", Value, expected);
            false
        } else {
            true
        }
    } else {
        println!("object is not Integer. got={:?}", obj);
        false
    }
}

fn testBooleanObject(obj: &object::Object, expected: bool) -> bool {
    if let object::Object::Boolean { Value } = obj {
        if *Value != expected {
            println!("object has wrong value. got={}, want={}", Value, expected);
            false
        } else {
            true
        }
    } else {
        println!("object is not Boolean. got={:?}", obj);
        false
    }
}

fn testNullObject(obj: &object::Object) -> bool {
    if let object::Object::Null = obj {
        true
    } else {
        println!("object is not NULL. got={:?}", obj);
        false
    }
}

#[test]
fn TestEvalIntegerExpression() {
    let tests: Vec<(&str, i64)> = vec![
        ("5", 5),
        ("10", 10),
        ("-5", -5),
        ("-10", -10),
        ("5 + 5 + 5 + 5 - 10", 10),
        ("2 * 2 * 2 * 2 * 2", 32),
        ("-50 + 100 - 50", 0),
        ("5 * 2 + 10", 20),
        ("5 + 2 * 10", 25),
        ("20 + 2 * -10", 0),
        ("50 / 2 * 2 + 10", 60),
        ("2 * (5 + 10)", 30),
        ("3 * 3 * 3 + 10", 37),
        ("3 * (3 * 3) + 10", 37),
        ("(5 + 10 * 2 + 15 / 3) * 2 - 10", 50),
    ];

    for tt in tests.iter() {
        let evaluated = testEval(&String::from(tt.0));
        assert_eq!(true, testIntegerObject(&evaluated, tt.1));
    }
}

#[test]
fn TestEvalBooleanExpression() {
    let tests: Vec<(&str, bool)> = vec![
        ("true", true),
        ("false", false),
        ("1 < 2", true),
        ("1 > 2", false),
        ("1 < 1", false),
        ("1 > 1", false),
        ("1 == 1", true),
        ("1 != 1", false),
        ("1 == 2", false),
        ("1 != 2", true),
        ("true == true", true),
        ("false == false", true),
        ("true == false", false),
        ("true != false", true),
        ("false != true", true),
        ("(1 < 2) == true", true),
        ("(1 < 2) == false", false),
        ("(1 > 2) == true", false),
        ("(1 > 2) == false", true),
    ];

    for tt in tests.iter() {
        let evaluated = testEval(&String::from(tt.0));
        assert_eq!(true, testBooleanObject(&evaluated, tt.1));
    }
}

#[test]
fn TestBangOperator() {
    let tests: Vec<(&str, bool)> = vec![
        ("!true", false),
        ("!false", true),
        ("!5", false),
        ("!!true", true),
        ("!!false", false),
        ("!!5", true),
    ];

    for tt in tests.iter() {
        let evaluated = testEval(&String::from(tt.0));
        assert_eq!(true, testBooleanObject(&evaluated, tt.1));
    }
}

#[test]
fn TestIfElseExpressions() {
    let tests: Vec<(&str, object::Object)> = vec![
        ("if (true) {10}", object::Object::Integer { Value: 10 }),
        ("if (false) {10}", object::Object::Null),
        ("if (1) {10}", object::Object::Integer { Value: 10 }),
        ("if (1 < 2) {10}", object::Object::Integer { Value: 10 }),
        ("if (1 > 2) {10}", object::Object::Null),
        ("if (1 > 2) {10} else {20}", object::Object::Integer { Value: 20 }),
        ("if (1 < 2) {10} else {20}", object::Object::Integer { Value: 10 }),
    ];

    for tt in tests.iter() {
        let evaluated = testEval(&String::from(tt.0));
        if let object::Object::Integer { Value } = tt.1 {
            assert_eq!(true, testIntegerObject(&evaluated, Value));
        } else {
            assert_eq!(true, testNullObject(&evaluated));
        }
    }
}

#[test]
fn TestReturnStatements() {
    let tests: Vec<(&str, i64)> = vec![
        ("return 10;", 10),
        ("return 10; 9", 10),
        ("return 2 * 5; 9", 10),
        ("9; return 2 * 5; 9;", 10),
        (
            "\
        if (10 > 1) {
            if (10 > 1) {
                return 10;
            }
            return 1;
        }",
            10,
        ),
    ];

    for tt in tests.iter() {
        let evaluated = testEval(&String::from(tt.0));
        assert_eq!(true, testIntegerObject(&evaluated, tt.1));
    }
}

#[test]
fn TestErrorHandling() {
    let tests: Vec<(&str, &str)> = vec![
        ("5 + true;", "type mismatch: INTEGER + BOOLEAN"),
        ("5 + true; 5;", "type mismatch: INTEGER + BOOLEAN"),
        ("-true;", "unknown operator: -BOOLEAN"),
        ("true + false;", "unknown operator: BOOLEAN + BOOLEAN"),
        ("5; true + false; 5", "unknown operator: BOOLEAN + BOOLEAN"),
        ("if (10 > 1) {true + false; }", "unknown operator: BOOLEAN + BOOLEAN"),
        (
            "\
        if (10 > 1) {
            if (10 > 1) {
                return true + false;
            }
            return 1;
        }
        ",
            "unknown operator: BOOLEAN + BOOLEAN",
        ),
        ("foobar", "identifier not found: foobar"),
    ];

    for tt in tests.iter() {
        let evaluated = testEval(&String::from(tt.0));
        if let object::Object::Error { Message } = evaluated {
            assert_eq!(String::from(tt.1), Message);
        } else {
            println!("no error object returned. got={:?}", evaluated);
            continue;
        }
    }
}

#[test]
fn evaluator_test_TestLetStatements() {
    let tests: Vec<(&str, i64)> = vec![
        ("let a = 5; a;", 5),
        ("let a = 5 * 5; a;", 25),
        ("let a = 5; let b = a; b;", 5),
        ("let a = 5; let b = a; let c = a + b + 5; c;", 15),
    ];

    for tt in tests.iter() {
        assert_eq!(true, testIntegerObject(&testEval(&String::from(tt.0)), tt.1));
    }
}

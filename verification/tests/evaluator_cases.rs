use kl_rs::ast::{AstNode, BlockStatement, Expression, Statement};
use kl_rs::builtin::{apply_builtin, len, lookup_builtin, BuiltinFunction};
use kl_rs::evaluator::{
    bind_parameters, eval_bang_expression, eval_infix_expression,
    eval_minus_prefix_expression, eval_prefix_expression, Environment, EvalError, Evaluator,
    Object, MAX_CALL_DEPTH,
};
use kl_rs::parser::parse;
use kl_rs::token::Token;

fn run(code: &str) -> Result<Object, EvalError> {
    let (program, errors) = parse(code.to_string());
    assert_eq!(errors, Vec::<String>::new());
    Evaluator::new().eval(program)
}

fn text(value: &str) -> Object {
    Object::String(value.to_string())
}

#[test]
fn integer_literals_evaluate_to_their_value() {
    assert_eq!(run("0;"), Ok(Object::Integer(0)));
    assert_eq!(run("007;"), Ok(Object::Integer(7)));
    assert_eq!(run("2147483647;"), Ok(Object::Integer(2147483647)));
}

#[test]
fn arithmetic_gives_integers() {
    assert_eq!(run("1 + 2 * 3"), Ok(Object::Integer(7)));
    assert_eq!(run("(1 + 2) * 3"), Ok(Object::Integer(9)));
    assert_eq!(run("10 - 4 - 3"), Ok(Object::Integer(3)));
    assert_eq!(run("2 * 3 * 4"), Ok(Object::Integer(24)));
    assert_eq!(run("-5 + 2"), Ok(Object::Integer(-3)));
}

#[test]
fn division_rounds_toward_zero() {
    assert_eq!(run("7 / 2"), Ok(Object::Integer(3)));
    assert_eq!(run("-7 / 2"), Ok(Object::Integer(-3)));
    assert_eq!(run("7 / -2"), Ok(Object::Integer(-3)));
    assert_eq!(run("-7 / -2"), Ok(Object::Integer(3)));
    assert_eq!(run("0 / 5"), Ok(Object::Integer(0)));
    assert_eq!(run("6 / 3"), Ok(Object::Integer(2)));
}

#[test]
fn division_by_zero_is_an_error() {
    assert_eq!(run("1 / 0"), Err(EvalError::DivisionByZero));
    assert_eq!(run("0 / 0"), Err(EvalError::DivisionByZero));
}

#[test]
fn results_outside_thirty_two_bits_are_errors() {
    assert_eq!(run("2147483647 + 1"), Err(EvalError::IntegerOverflow));
    assert_eq!(run("0 - 2147483647 - 2"), Err(EvalError::IntegerOverflow));
    assert_eq!(run("65536 * 32768"), Err(EvalError::IntegerOverflow));
    assert_eq!(run("0 - 2147483647 - 1"), Ok(Object::Integer(-2147483648)));
    assert_eq!(run("-(0 - 2147483647 - 1)"), Err(EvalError::IntegerOverflow));
    assert_eq!(
        run("(0 - 2147483647 - 1) / -1"),
        Err(EvalError::IntegerOverflow)
    );
    assert_eq!(run("-2147483647"), Ok(Object::Integer(-2147483647)));
}

#[test]
fn comparisons_give_booleans() {
    assert_eq!(run("1 < 2"), Ok(Object::Boolean(true)));
    assert_eq!(run("2 < 1"), Ok(Object::Boolean(false)));
    assert_eq!(run("2 > 1"), Ok(Object::Boolean(true)));
    assert_eq!(run("1 == 1"), Ok(Object::Boolean(true)));
    assert_eq!(run("1 != 1"), Ok(Object::Boolean(false)));
    assert_eq!(run("1 + 1 == 2"), Ok(Object::Boolean(true)));
}

#[test]
fn operands_that_are_no_integers_give_null() {
    assert_eq!(run("true + 1"), Ok(Object::Null));
    assert_eq!(run("1 + true"), Ok(Object::Null));
    assert_eq!(run("true == true"), Ok(Object::Null));
    assert_eq!(run("\"a\" + \"b\""), Ok(Object::Null));
    assert_eq!(run("-true"), Ok(Object::Null));
    assert_eq!(run("-\"a\""), Ok(Object::Null));
    assert_eq!(run("!5"), Ok(Object::Null));
    assert_eq!(run("!\"a\""), Ok(Object::Null));
    assert_eq!(run("true / 0"), Ok(Object::Null));
}

#[test]
fn negating_null_gives_true() {
    assert_eq!(run("!(if (false) { 1 })"), Ok(Object::Boolean(true)));
    assert_eq!(eval_bang_expression(Object::Null), Object::Boolean(true));
    assert_eq!(eval_bang_expression(Object::Boolean(true)), Object::Boolean(false));
    assert_eq!(eval_bang_expression(Object::Integer(0)), Object::Null);
}

#[test]
fn operator_functions_take_any_token() {
    assert_eq!(
        eval_prefix_expression(&Token::Plus, Object::Integer(1)),
        Ok(Object::Null)
    );
    assert_eq!(
        eval_prefix_expression(&Token::Minus, Object::Integer(1)),
        Ok(Object::Integer(-1))
    );
    assert_eq!(
        eval_minus_prefix_expression(Object::Integer(-2147483648)),
        Err(EvalError::IntegerOverflow)
    );
    assert_eq!(
        eval_infix_expression(Object::Integer(1), Object::Integer(2), &Token::Comma),
        Ok(Object::Null)
    );
    assert_eq!(
        eval_infix_expression(Object::Integer(1), Object::Null, &Token::Plus),
        Ok(Object::Null)
    );
    assert_eq!(
        eval_infix_expression(Object::Integer(9), Object::Integer(4), &Token::Slash),
        Ok(Object::Integer(2))
    );
}

#[test]
fn truthiness() {
    assert!(Object::Boolean(true).is_truthy());
    assert!(Object::Integer(1).is_truthy());
    assert!(Object::Integer(-1).is_truthy());
    assert!(!Object::Integer(0).is_truthy());
    assert!(!Object::Boolean(false).is_truthy());
    assert!(!Object::Null.is_truthy());
    assert!(!text("true").is_truthy());
    assert!(!Object::Array(vec![Object::Integer(1)]).is_truthy());
    assert_eq!(run("if (\"yes\") { 1 } else { 2 }"), Ok(Object::Integer(2)));
    assert_eq!(run("if (-3) { 1 } else { 2 }"), Ok(Object::Integer(1)));
}

#[test]
fn an_empty_block_gives_null() {
    assert_eq!(run("if (true) { }"), Ok(Object::Null));
    assert_eq!(run(""), Ok(Object::Null));
    assert_eq!(run("fn() { }()"), Ok(Object::Null));
}

#[test]
fn a_program_gives_the_value_of_its_last_statement() {
    assert_eq!(run("1; 2; 3"), Ok(Object::Integer(3)));
    assert_eq!(run("let a = 1; let b = 2;"), Ok(Object::Integer(2)));
}

#[test]
fn let_binds_and_yields_the_value() {
    assert_eq!(run("let x = 5;"), Ok(Object::Integer(5)));
    assert_eq!(run("let x = 5; x + 1"), Ok(Object::Integer(6)));
    assert_eq!(run("let x = 5; let x = x * 2; x"), Ok(Object::Integer(10)));
    assert_eq!(run("let x = 5; let y = x; let x = 1; y"), Ok(Object::Integer(5)));
}

#[test]
fn the_environment_outlives_one_evaluation() {
    let mut evaluator = Evaluator::new();
    let (first, _) = parse("let x = 41;".to_string());
    let (second, _) = parse("x + 1".to_string());
    assert_eq!(evaluator.eval(first), Ok(Object::Integer(41)));
    assert_eq!(evaluator.eval(second), Ok(Object::Integer(42)));
}

#[test]
fn an_unbound_identifier_is_an_error() {
    assert_eq!(run("x"), Err(EvalError::UnboundIdentifier));
    assert_eq!(run("1; x; 2"), Err(EvalError::UnboundIdentifier));
    assert_eq!(run("[1, x]"), Err(EvalError::UnboundIdentifier));
    assert_eq!(run("let y = x;"), Err(EvalError::UnboundIdentifier));
}

#[test]
fn a_builtin_name_wins_over_a_binding() {
    assert_eq!(run("len"), Ok(Object::Builtin(BuiltinFunction::Len)));
    assert_eq!(run("let len = 5; len"), Ok(Object::Builtin(BuiltinFunction::Len)));
}

#[test]
fn functions_are_called_with_their_arguments() {
    assert_eq!(
        run("let add = fn(a, b) { a + b }; add(2, 3)"),
        Ok(Object::Integer(5))
    );
    assert_eq!(run("fn(x) { x * x }(7)"), Ok(Object::Integer(49)));
    assert_eq!(
        run("let twice = fn(f, x) { f(f(x)) }; twice(fn(n) { n + 1 }, 5)"),
        Ok(Object::Integer(7))
    );
    assert_eq!(run("let f = fn(a, b) { a }; f(1, 2, 3)"), Ok(Object::Integer(1)));
    assert_eq!(run("let f = fn(a, a) { a }; f(1, 2)"), Ok(Object::Integer(2)));
}

#[test]
fn a_function_literal_is_a_function_with_an_empty_scope() {
    assert_eq!(
        run("fn(a) { a }"),
        Ok(Object::Function {
            parameters: vec![Token::Identifier("a".to_string())],
            body: Box::new(BlockStatement {
                statements: vec![AstNode::Expression(Box::new(Expression::Identifier(
                    "a".to_string()
                )))],
            }),
            scope: Environment::new(),
        })
    );
}

#[test]
fn a_return_signal_ends_at_the_call() {
    assert_eq!(
        run("let f = fn(x) { if (x) { return 1; } 2 }; f(1) + 10"),
        Ok(Object::Integer(11))
    );
    assert_eq!(
        run("let f = fn(x) { if (x) { return 1; } 2 }; f(0) + 10"),
        Ok(Object::Integer(12))
    );
    assert_eq!(
        run("let f = fn() { return 1; 2 }; f(); 3"),
        Ok(Object::Integer(3))
    );
}

#[test]
fn a_return_signal_stops_the_program() {
    assert_eq!(
        run("1; return 2; 3"),
        Ok(Object::Return(Box::new(Object::Integer(2))))
    );
    assert_eq!(
        run("if (true) { return 7; 8 } 9"),
        Ok(Object::Return(Box::new(Object::Integer(7))))
    );
    assert_eq!(
        run("let x = if (true) { return 7; }; 9"),
        Ok(Object::Return(Box::new(Object::Integer(7))))
    );
}

#[test]
fn a_function_does_not_see_the_bindings_of_its_caller() {
    assert_eq!(
        run("let y = 1; let f = fn(x) { y }; f(0)"),
        Err(EvalError::UnboundIdentifier)
    );
    assert_eq!(
        run("let f = fn(x) { f }; f(0)"),
        Err(EvalError::UnboundIdentifier)
    );
}

#[test]
fn the_environment_of_the_caller_is_back_after_a_call() {
    assert_eq!(
        run("let x = 1; let f = fn(x) { let z = 2; x }; f(5); x"),
        Ok(Object::Integer(1))
    );
    assert_eq!(
        run("let f = fn(x) { let z = 2; x }; f(5); z"),
        Err(EvalError::UnboundIdentifier)
    );
    assert_eq!(
        run("let x = 1; let f = fn() { y }; f(); x"),
        Err(EvalError::UnboundIdentifier)
    );
    let mut evaluator = Evaluator::new();
    let (failing, _) = parse("let x = 1; let f = fn() { let w = 3; y }; f();".to_string());
    let (after, _) = parse("x".to_string());
    let (inner, _) = parse("w".to_string());
    assert_eq!(evaluator.eval(failing), Err(EvalError::UnboundIdentifier));
    assert_eq!(evaluator.eval(after), Ok(Object::Integer(1)));
    assert_eq!(evaluator.eval(inner), Err(EvalError::UnboundIdentifier));
}

#[test]
fn a_missing_argument_is_an_error() {
    assert_eq!(
        run("let f = fn(a, b) { a }; f(1)"),
        Err(EvalError::MissingArgument)
    );
    assert_eq!(run("fn(a) { 1 }()"), Err(EvalError::MissingArgument));
}

#[test]
fn calling_what_is_no_function_is_an_error() {
    assert_eq!(run("5(1)"), Err(EvalError::NotCallable));
    assert_eq!(run("\"f\"()"), Err(EvalError::NotCallable));
    assert_eq!(run("let x = true; x(x)"), Err(EvalError::NotCallable));
    assert_eq!(run("5(y)"), Err(EvalError::NotCallable));
}

#[test]
fn calls_nest_to_a_limit() {
    assert_eq!(
        run("let f = fn(g) { g(g) }; f(f)"),
        Err(EvalError::CallDepthExceeded)
    );
    let mut evaluator = Evaluator::new();
    let (program, _) = parse("fn() { fn() { 1 }() }()".to_string());
    assert_eq!(evaluator.eval_node(&program, 2), Ok(Object::Integer(1)));
    assert_eq!(
        evaluator.eval_node(&program, 1),
        Err(EvalError::CallDepthExceeded)
    );
    assert_eq!(
        evaluator.eval_node(&program, 0),
        Err(EvalError::CallDepthExceeded)
    );
    let (flat, _) = parse("len(\"ab\") + 1".to_string());
    assert_eq!(evaluator.eval_node(&flat, 0), Ok(Object::Integer(3)));
    assert!(MAX_CALL_DEPTH >= 2);
}

#[test]
fn len_gives_the_length_in_bytes() {
    assert_eq!(run("len(\"kevin\")"), Ok(Object::Integer(5)));
    assert_eq!(run("len(\"\")"), Ok(Object::Integer(0)));
    assert_eq!(run("len(\"héllo\")"), Ok(Object::Integer(6)));
    assert_eq!(run("len(\"a\", 1)"), Ok(Object::Integer(1)));
    assert_eq!(len(&vec![text("abc")]), Ok(Object::Integer(3)));
}

#[test]
fn len_of_what_is_no_string_is_an_error() {
    assert_eq!(run("len(1)"), Err(EvalError::WrongArgumentType));
    assert_eq!(run("len()"), Err(EvalError::WrongArgumentType));
    assert_eq!(run("len([1, 2])"), Err(EvalError::WrongArgumentType));
    assert_eq!(run("len(1, \"a\")"), Err(EvalError::WrongArgumentType));
    assert_eq!(len(&vec![]), Err(EvalError::WrongArgumentType));
    assert_eq!(
        apply_builtin(BuiltinFunction::Len, &vec![Object::Null]),
        Err(EvalError::WrongArgumentType)
    );
}

#[test]
fn the_registry_holds_len() {
    assert_eq!(lookup_builtin("len"), Some(BuiltinFunction::Len));
    assert_eq!(lookup_builtin("Len"), None);
    assert_eq!(lookup_builtin("length"), None);
    assert_eq!(lookup_builtin(""), None);
}

#[test]
fn arrays_evaluate_their_elements_from_the_left() {
    assert_eq!(
        run("[1, 1 + 2, \"kevin\", [true]]"),
        Ok(Object::Array(vec![
            Object::Integer(1),
            Object::Integer(3),
            text("kevin"),
            Object::Array(vec![Object::Boolean(true)])
        ]))
    );
    assert_eq!(run("[]"), Ok(Object::Array(vec![])));
    assert_eq!(run("[1 / 0, x]"), Err(EvalError::DivisionByZero));
    assert_eq!(run("[x, 1 / 0]"), Err(EvalError::UnboundIdentifier));
}

#[test]
fn inspect_shows_values() {
    assert_eq!(Object::Integer(0).inspect(), "0");
    assert_eq!(Object::Integer(42).inspect(), "42");
    assert_eq!(Object::Integer(-10).inspect(), "-10");
    assert_eq!(Object::Integer(2147483647).inspect(), "2147483647");
    assert_eq!(Object::Integer(-2147483648).inspect(), "-2147483648");
    assert_eq!(Object::Integer(1000).inspect(), "1000");
    assert_eq!(Object::Boolean(true).inspect(), "true");
    assert_eq!(Object::Boolean(false).inspect(), "false");
    assert_eq!(text("kevin").inspect(), "kevin");
    assert_eq!(Object::Null.inspect(), "null");
    assert_eq!(Object::Builtin(BuiltinFunction::Len).inspect(), "null");
    assert_eq!(
        Object::Return(Box::new(Object::Integer(7))).inspect(),
        "7"
    );
    assert_eq!(run("fn(a) { a }").unwrap().inspect(), "function");
    assert_eq!(Object::Array(vec![]).inspect(), "[]");
    assert_eq!(Object::Array(vec![Object::Integer(1)]).inspect(), "[1]");
    assert_eq!(
        Object::Array(vec![
            Object::Integer(1),
            text("a"),
            Object::Array(vec![Object::Null, Object::Boolean(true)])
        ])
        .inspect(),
        "[1, a, [null, true]]"
    );
}

#[test]
fn every_error_has_its_message() {
    assert_eq!(EvalError::UnboundIdentifier.message(), "identifier not found");
    assert_eq!(EvalError::NotCallable.message(), "value is not callable");
    assert_eq!(EvalError::WrongArgumentType.message(), "wrong argument type");
    assert_eq!(EvalError::MissingArgument.message(), "missing argument");
    assert_eq!(
        EvalError::InvalidParameter.message(),
        "parameter is not an identifier"
    );
    assert_eq!(
        EvalError::InvalidLetTarget.message(),
        "let target is not an identifier"
    );
    assert_eq!(EvalError::DivisionByZero.message(), "division by zero");
    assert_eq!(EvalError::IntegerOverflow.message(), "integer overflow");
    assert_eq!(EvalError::CallDepthExceeded.message(), "call depth exceeded");
}

#[test]
fn trees_that_no_parser_builds_are_errors_not_crashes() {
    let mut evaluator = Evaluator::new();
    let bad_let = AstNode::Statement(Box::new(Statement::LetStatement {
        name: Box::new(Expression::Int(1)),
        value: Box::new(Expression::Int(2)),
    }));
    assert_eq!(evaluator.eval(bad_let), Err(EvalError::InvalidLetTarget));
    let bad_parameter = AstNode::Expression(Box::new(Expression::CallExpression {
        function: Box::new(Expression::FunctionExpression {
            parameters: vec![Token::Int("1".to_string())],
            body: Box::new(BlockStatement { statements: vec![] }),
        }),
        arguments: vec![Expression::Int(1)],
    }));
    assert_eq!(evaluator.eval(bad_parameter), Err(EvalError::InvalidParameter));
    let odd_operator = AstNode::Expression(Box::new(Expression::Infix {
        operator: Token::Comma,
        left: Box::new(Expression::Int(1)),
        right: Box::new(Expression::Int(2)),
    }));
    assert_eq!(evaluator.eval(odd_operator), Ok(Object::Null));
    let negative = AstNode::Expression(Box::new(Expression::Int(-5)));
    assert_eq!(evaluator.eval(negative), Ok(Object::Integer(-5)));
    let nested = AstNode::Program {
        statements: vec![AstNode::Program {
            statements: vec![AstNode::Expression(Box::new(Expression::Int(3)))],
        }],
    };
    assert_eq!(evaluator.eval(nested), Ok(Object::Integer(3)));
}

#[test]
fn binding_parameters_goes_in_order() {
    let a = Token::Identifier("a".to_string());
    let b = Token::Identifier("b".to_string());
    let bound = bind_parameters(
        &vec![a.clone(), b.clone()],
        &vec![Object::Integer(1), Object::Integer(2)],
        Environment::new(),
    )
    .unwrap();
    assert_eq!(bound.get(&"a".to_string()), Some(&Object::Integer(1)));
    assert_eq!(bound.get(&"b".to_string()), Some(&Object::Integer(2)));
    assert_eq!(bound.get(&"c".to_string()), None);
    assert_eq!(
        bind_parameters(&vec![a.clone(), Token::Plus], &vec![], Environment::new()),
        Err(EvalError::MissingArgument)
    );
    assert_eq!(
        bind_parameters(
            &vec![Token::Plus, a.clone()],
            &vec![],
            Environment::new()
        ),
        Err(EvalError::InvalidParameter)
    );
    assert_eq!(
        bind_parameters(&vec![], &vec![Object::Null], Environment::new()),
        Ok(Environment::new())
    );
}

#[test]
fn a_later_binding_hides_an_earlier_one() {
    let mut environment = Environment::new();
    assert_eq!(environment.get(&"x".to_string()), None);
    environment.insert("x".to_string(), Object::Integer(1));
    environment.insert("y".to_string(), Object::Integer(2));
    environment.insert("x".to_string(), Object::Integer(3));
    assert_eq!(environment.get(&"x".to_string()), Some(&Object::Integer(3)));
    assert_eq!(environment.get(&"y".to_string()), Some(&Object::Integer(2)));
    let copy = environment.duplicate();
    assert_eq!(copy, environment);
    assert_eq!(copy.get(&"x".to_string()), Some(&Object::Integer(3)));
}

#[test]
fn a_copy_of_an_object_equals_it() {
    let object = run("[1, \"a\", fn(x) { x }, len, [true]]").unwrap();
    assert_eq!(object.duplicate(), object);
    assert_eq!(object.clone(), object);
    let wrapped = Object::Return(Box::new(Object::Null));
    assert_eq!(wrapped.duplicate(), wrapped);
}

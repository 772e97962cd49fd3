use kl_rs::ast::{AstNode, BlockStatement, Expression, Statement};
use kl_rs::grammar::{InfixParseFn, Precedence, PrefixParseFn};
use kl_rs::lexer::Lexer;
use kl_rs::parser::{parse, parse_decimal_text, Parser, ParserError};
use kl_rs::token::{Token, TokenType};

fn statements_of(code: &str) -> (Vec<AstNode>, Vec<String>) {
    let mut parser = Parser::new(Lexer::new(code.to_string()));
    let program = parser.parse_program();
    match program {
        AstNode::Program { statements } => (statements, parser.errors),
        _ => panic!("a parser returns a program"),
    }
}

fn expression_of(code: &str) -> Expression {
    let (statements, errors) = statements_of(code);
    assert_eq!(errors, Vec::<String>::new());
    assert_eq!(statements.len(), 1);
    match &statements[0] {
        AstNode::Expression(expression) => (**expression).clone(),
        _ => panic!("not an expression statement"),
    }
}

fn name(text: &str) -> Expression {
    Expression::Identifier(text.to_string())
}

fn infix(operator: Token, left: Expression, right: Expression) -> Expression {
    Expression::Infix {
        operator,
        left: Box::new(left),
        right: Box::new(right),
    }
}

fn prefix(operator: Token, right: Expression) -> Expression {
    Expression::Prefix {
        operator,
        right: Box::new(right),
    }
}

#[test]
fn product_binds_tighter_than_sum() {
    assert_eq!(expression_of("1 + 2 * 3"), expression_of("1 + (2 * 3)"));
    assert_eq!(expression_of("1 * 2 + 3"), expression_of("(1 * 2) + 3"));
    assert_eq!(
        expression_of("1 * 2 + 3"),
        infix(
            Token::Plus,
            infix(Token::Asterisk, Expression::Int(1), Expression::Int(2)),
            Expression::Int(3)
        )
    );
}

#[test]
fn operators_of_one_level_group_from_the_left() {
    assert_eq!(expression_of("a - b - c"), expression_of("(a - b) - c"));
    assert_eq!(expression_of("a / b * c"), expression_of("(a / b) * c"));
    assert_eq!(
        expression_of("a - b - c"),
        infix(
            Token::Minus,
            infix(Token::Minus, name("a"), name("b")),
            name("c")
        )
    );
}

#[test]
fn comparison_and_equality_bind_weaker_than_arithmetic() {
    assert_eq!(
        expression_of("a + b < c * d == e"),
        expression_of("((a + b) < (c * d)) == e")
    );
    assert_eq!(
        expression_of("a != b > c"),
        expression_of("a != (b > c)")
    );
}

#[test]
fn prefix_operators_bind_tighter_than_infix_operators() {
    assert_eq!(expression_of("-a * b"), expression_of("(-a) * b"));
    assert_eq!(
        expression_of("!-a"),
        prefix(Token::Bang, prefix(Token::Minus, name("a")))
    );
    assert_eq!(expression_of("-(5 + 5)"), expression_of("(-(5 + 5))"));
}

#[test]
fn a_call_binds_tightest() {
    assert_eq!(expression_of("a + f(b) * c"), expression_of("a + ((f(b)) * c)"));
    assert_eq!(expression_of("-f(x)"), prefix(
        Token::Minus,
        Expression::CallExpression {
            function: Box::new(name("f")),
            arguments: vec![name("x")],
        }
    ));
    assert_eq!(
        expression_of("f(1)(2)"),
        Expression::CallExpression {
            function: Box::new(Expression::CallExpression {
                function: Box::new(name("f")),
                arguments: vec![Expression::Int(1)],
            }),
            arguments: vec![Expression::Int(2)],
        }
    );
}

#[test]
fn empty_lists_parse() {
    assert_eq!(expression_of("[]"), Expression::Array(vec![]));
    assert_eq!(
        expression_of("f()"),
        Expression::CallExpression {
            function: Box::new(name("f")),
            arguments: vec![],
        }
    );
    assert_eq!(
        expression_of("fn() { 1 }"),
        Expression::FunctionExpression {
            parameters: vec![],
            body: Box::new(BlockStatement {
                statements: vec![AstNode::Expression(Box::new(Expression::Int(1)))],
            }),
        }
    );
    assert_eq!(
        expression_of("fn(x) { }"),
        Expression::FunctionExpression {
            parameters: vec![Token::Identifier("x".to_string())],
            body: Box::new(BlockStatement { statements: vec![] }),
        }
    );
}

#[test]
fn two_malformed_let_statements_and_a_valid_one() {
    let (statements, errors) = statements_of("let x 5; let = 10; let y = 3;");
    assert_eq!(
        statements,
        vec![AstNode::Statement(Box::new(Statement::LetStatement {
            name: Box::new(name("y")),
            value: Box::new(Expression::Int(3)),
        }))]
    );
    assert_eq!(
        errors,
        vec![
            "expected token =, got 5".to_string(),
            "expected token identifier, got =".to_string()
        ]
    );
}

#[test]
fn errors_accumulate_and_parsing_goes_on() {
    let (statements, errors) = statements_of("let; 1 + ; let a = 2; ) ; b");
    assert_eq!(
        statements,
        vec![
            AstNode::Statement(Box::new(Statement::LetStatement {
                name: Box::new(name("a")),
                value: Box::new(Expression::Int(2)),
            })),
            AstNode::Expression(Box::new(name("b")))
        ]
    );
    assert_eq!(
        errors,
        vec![
            "expected token identifier, got ;".to_string(),
            "no parsing function for token ;".to_string(),
            "no parsing function for token )".to_string()
        ]
    );
}

#[test]
fn a_tree_without_statements_and_with_errors_is_a_total_failure() {
    let (statements, errors) = statements_of("let let let");
    assert_eq!(statements, vec![]);
    assert_eq!(errors, vec!["expected token identifier, got let".to_string()]);
}

#[test]
fn a_let_statement_needs_its_semicolon() {
    let (statements, errors) = statements_of("let x = 5");
    assert_eq!(statements, vec![]);
    assert_eq!(errors, vec!["expected token ;, got end of input".to_string()]);
}

#[test]
fn return_takes_an_expression_that_starts_with_an_integer() {
    let (statements, errors) = statements_of("return x;");
    assert_eq!(statements, vec![]);
    assert_eq!(errors, vec!["expected token integer, got x".to_string()]);

    let (statements, errors) = statements_of("return 1 + 2 * x; return 3");
    assert_eq!(errors, Vec::<String>::new());
    assert_eq!(
        statements,
        vec![
            AstNode::Statement(Box::new(Statement::ReturnStatement(Box::new(infix(
                Token::Plus,
                Expression::Int(1),
                infix(Token::Asterisk, Expression::Int(2), name("x"))
            ))))),
            AstNode::Statement(Box::new(Statement::ReturnStatement(Box::new(
                Expression::Int(3)
            ))))
        ]
    );
}

#[test]
fn an_integer_literal_has_to_fit_thirty_two_bits() {
    assert_eq!(expression_of("2147483647"), Expression::Int(2147483647));
    assert_eq!(expression_of("0000000000042"), Expression::Int(42));
    let (statements, errors) = statements_of("2147483648;");
    assert_eq!(statements, vec![]);
    assert_eq!(errors, vec!["error parsing integer: 2147483648".to_string()]);
    let (statements, errors) = statements_of("99999999999999999999999999;1");
    assert_eq!(statements, vec![AstNode::Expression(Box::new(Expression::Int(1)))]);
    assert_eq!(errors.len(), 1);
}

#[test]
fn decimal_text_is_digits_only() {
    assert_eq!(parse_decimal_text("0"), Some(0));
    assert_eq!(parse_decimal_text("10"), Some(10));
    assert_eq!(parse_decimal_text("2147483647"), Some(2147483647));
    assert_eq!(parse_decimal_text("2147483648"), None);
    assert_eq!(parse_decimal_text(""), None);
    assert_eq!(parse_decimal_text("-1"), None);
    assert_eq!(parse_decimal_text("+1"), None);
    assert_eq!(parse_decimal_text("1a"), None);
    assert_eq!(parse_decimal_text("12345678901234567890x"), None);
}

#[test]
fn parameters_have_to_be_identifiers() {
    let (statements, errors) = statements_of("fn(1) { 2 };");
    assert_eq!(statements, vec![]);
    assert_eq!(errors, vec!["expected token identifier, got 1".to_string()]);
    let (_, errors) = statements_of("fn(a, 1) { 2 };");
    assert_eq!(errors, vec!["expected token identifier, got 1".to_string()]);
    let (_, errors) = statements_of("fn(a b) { 2 };");
    assert_eq!(errors, vec!["expected token ), got b".to_string()]);
    let (_, errors) = statements_of("fn a");
    assert_eq!(errors, vec!["expected token (, got a".to_string()]);
    let (_, errors) = statements_of("fn(a) a");
    assert_eq!(errors, vec!["expected token {, got a".to_string()]);
}

#[test]
fn a_conditional_needs_its_parentheses_and_braces() {
    let (_, errors) = statements_of("if x { 1 }");
    assert_eq!(errors[0], "expected token (, got x".to_string());
    let (_, errors) = statements_of("if (x { 1 }");
    assert_eq!(errors[0], "expected token ), got {".to_string());
    let (_, errors) = statements_of("if (x) 1");
    assert_eq!(errors[0], "expected token {, got 1".to_string());
    let (_, errors) = statements_of("if (x) { 1 } else 2");
    assert_eq!(errors[0], "expected token {, got 2".to_string());
}

#[test]
fn unclosed_brackets_are_errors() {
    let (_, errors) = statements_of("(1 + 2;");
    assert_eq!(errors, vec!["expected token ), got ;".to_string()]);
    let (_, errors) = statements_of("[1, 2;");
    assert_eq!(errors, vec!["expected token ], got ;".to_string()]);
    let (_, errors) = statements_of("f(1, 2;");
    assert_eq!(errors, vec!["expected token ), got ;".to_string()]);
    let (_, errors) = statements_of("[");
    assert_eq!(errors, vec!["no parsing function for token end of input".to_string()]);
}

#[test]
fn a_failed_statement_inside_a_block_leaves_the_block_standing() {
    let (statements, errors) = statements_of("fn(x) { let 1; x };");
    assert_eq!(errors, vec!["expected token identifier, got 1".to_string()]);
    assert_eq!(
        statements,
        vec![AstNode::Expression(Box::new(Expression::FunctionExpression {
            parameters: vec![Token::Identifier("x".to_string())],
            body: Box::new(BlockStatement {
                statements: vec![AstNode::Expression(Box::new(name("x")))],
            }),
        }))]
    );
}

#[test]
fn skipping_inside_a_block_stops_at_its_closing_brace() {
    let (statements, errors) = statements_of("if (a) { let b 1 } c");
    assert_eq!(errors, vec!["expected token =, got 1".to_string()]);
    assert_eq!(
        statements,
        vec![
            AstNode::Expression(Box::new(Expression::IfExpression {
                condition: Box::new(name("a")),
                consequence: Box::new(BlockStatement { statements: vec![] }),
                alternative: None,
            })),
            AstNode::Expression(Box::new(name("c")))
        ]
    );
}

#[test]
fn a_block_may_end_with_the_input() {
    let (statements, errors) = statements_of("if (a) { b");
    assert_eq!(errors, Vec::<String>::new());
    assert_eq!(
        statements,
        vec![AstNode::Expression(Box::new(Expression::IfExpression {
            condition: Box::new(name("a")),
            consequence: Box::new(BlockStatement {
                statements: vec![AstNode::Expression(Box::new(name("b")))],
            }),
            alternative: None,
        }))]
    );
}

#[test]
fn illegal_tokens_start_no_expression() {
    let (statements, errors) = statements_of("@; 1");
    assert_eq!(statements, vec![AstNode::Expression(Box::new(Expression::Int(1)))]);
    assert_eq!(
        errors,
        vec!["no parsing function for token illegal character".to_string()]
    );
}

#[test]
fn an_empty_source_is_an_empty_program() {
    let (statements, errors) = statements_of("");
    assert_eq!(statements, vec![]);
    assert_eq!(errors, Vec::<String>::new());
    let (statements, errors) = statements_of("  /* nothing */  ");
    assert_eq!(statements, vec![]);
    assert_eq!(errors, Vec::<String>::new());
}

#[test]
fn parse_returns_the_program_and_the_errors() {
    let (program, errors) = parse("let a = 1; let 2; a".to_string());
    assert_eq!(
        program,
        AstNode::Program {
            statements: vec![
                AstNode::Statement(Box::new(Statement::LetStatement {
                    name: Box::new(name("a")),
                    value: Box::new(Expression::Int(1)),
                })),
                AstNode::Expression(Box::new(name("a")))
            ]
        }
    );
    assert_eq!(errors, vec!["expected token identifier, got 2".to_string()]);
}

#[test]
fn a_parser_starts_where_its_lexer_stands() {
    let mut lexer = Lexer::new("let x = 5; y".to_string());
    assert_eq!(lexer.next_token(), Token::Let);
    assert_eq!(lexer.next_token(), Token::Identifier("x".to_string()));
    let mut parser = Parser::new(lexer);
    let program = parser.parse_program();
    assert_eq!(parser.errors, vec!["no parsing function for token =".to_string()]);
    assert_eq!(
        program,
        AstNode::Program {
            statements: vec![AstNode::Expression(Box::new(name("y")))]
        }
    );
}

#[test]
fn precedence_levels_are_ordered() {
    let levels = [
        Precedence::Lowest,
        Precedence::Equals,
        Precedence::LessGreater,
        Precedence::Sum,
        Precedence::Product,
        Precedence::Prefix,
        Precedence::Call,
    ];
    for (idx, level) in levels.iter().enumerate() {
        assert_eq!(level.level() as usize, idx);
    }
}

#[test]
fn precedence_is_a_function_of_the_kind_of_token() {
    assert_eq!(Token::Equals.precedence(), Precedence::Equals);
    assert_eq!(Token::NotEquals.precedence(), Precedence::Equals);
    assert_eq!(Token::LessThan.precedence(), Precedence::LessGreater);
    assert_eq!(Token::GreaterThan.precedence(), Precedence::LessGreater);
    assert_eq!(Token::Plus.precedence(), Precedence::Sum);
    assert_eq!(Token::Minus.precedence(), Precedence::Sum);
    assert_eq!(Token::Asterisk.precedence(), Precedence::Product);
    assert_eq!(Token::Slash.precedence(), Precedence::Product);
    assert_eq!(Token::LeftParentesis.precedence(), Precedence::Call);
    assert_eq!(Token::Semicolon.precedence(), Precedence::Lowest);
    assert_eq!(Token::Bang.precedence(), Precedence::Lowest);
    assert_eq!(Token::Identifier("a".to_string()).precedence(), Precedence::Lowest);
    assert_eq!(Token::Identifier("b".to_string()).precedence(), Precedence::Lowest);
}

#[test]
fn handlers_are_looked_up_by_token() {
    assert_eq!(Token::Bang.prefix_parse_fn(), Some(PrefixParseFn::Prefix));
    assert_eq!(Token::Minus.prefix_parse_fn(), Some(PrefixParseFn::Prefix));
    assert_eq!(Token::If.prefix_parse_fn(), Some(PrefixParseFn::If));
    assert_eq!(Token::Function.prefix_parse_fn(), Some(PrefixParseFn::Function));
    assert_eq!(Token::LeftBracket.prefix_parse_fn(), Some(PrefixParseFn::Array));
    assert_eq!(Token::LeftParentesis.prefix_parse_fn(), Some(PrefixParseFn::Grouped));
    assert_eq!(Token::True.prefix_parse_fn(), Some(PrefixParseFn::Boolean));
    assert_eq!(Token::Plus.prefix_parse_fn(), None);
    assert_eq!(Token::Eof.prefix_parse_fn(), None);
    assert_eq!(Token::Minus.infix_parse_fn(), Some(InfixParseFn::Infix));
    assert_eq!(Token::LeftParentesis.infix_parse_fn(), Some(InfixParseFn::Call));
    assert_eq!(Token::Bang.infix_parse_fn(), None);
    assert_eq!(Token::Assign.infix_parse_fn(), None);
}

#[test]
fn error_messages_name_what_was_expected_and_what_stood_there() {
    assert_eq!(
        ParserError::UnexpectedToken {
            expected: TokenType::RightParentesis,
            actual: Token::Identifier("foo".to_string()),
        }
        .message(),
        "expected token ), got foo"
    );
    assert_eq!(
        ParserError::NoParsingFunction(Token::Else).message(),
        "no parsing function for token else"
    );
    assert_eq!(
        ParserError::IntErr("123456789012".to_string()).message(),
        "error parsing integer: 123456789012"
    );
    assert_eq!(Token::String("text".to_string()).text(), "text");
    assert_eq!(TokenType::Eof.name(), "end of input");
}

#[test]
fn a_copy_of_a_tree_equals_it() {
    let (program, _) = parse(
        "let f = fn(a, b) { if (a < b) { return 1; } else { [a, \"s\", !b] } }; f(1, -2);"
            .to_string(),
    );
    assert_eq!(program.duplicate(), program);
    assert_eq!(program.clone(), program);
}

use kl_rs::ast::{AstNode, Expression};
use kl_rs::lexer::tokenize;
use kl_rs::parser::parse;
use kl_rs::printer::{pretty_print, print_tokens, tokens_text};
use kl_rs::token::Token;

fn first_expression(code: &str) -> Expression {
    let (program, errors) = parse(code.to_string());
    assert_eq!(errors, Vec::<String>::new());
    match program {
        AstNode::Program { statements } => match statements.into_iter().next() {
            Some(AstNode::Expression(expression)) => *expression,
            _ => panic!("the source does not start with an expression statement"),
        },
        _ => panic!("a parser returns a program"),
    }
}

fn reads_back(code: &str) {
    let expression = first_expression(code);
    let printed = pretty_print(&expression);
    assert_eq!(first_expression(&printed), expression);
    let mut tokens = print_tokens(&expression);
    tokens.push(Token::Eof);
    assert_eq!(tokenize(printed), tokens);
}

#[test]
fn compound_expressions_are_printed_in_parentheses() {
    assert_eq!(pretty_print(&first_expression("1 + 2 * 3")), " ( 1 + ( 2 * 3 ) )");
    assert_eq!(pretty_print(&first_expression("-(5 + 5)")), " ( - ( 5 + 5 ) )");
    assert_eq!(pretty_print(&first_expression("!true")), " ( ! true )");
    assert_eq!(pretty_print(&first_expression("a != b")), " ( a != b )");
    assert_eq!(pretty_print(&first_expression("f(x, 1)")), " ( f ( x , 1 ) )");
    assert_eq!(pretty_print(&first_expression("[1, \"two\", []]")), " [ 1 , \"two\" , [ ] ]");
    assert_eq!(
        pretty_print(&first_expression("if (a < b) { a } else { b; 2 }")),
        " ( if ( ( a < b ) ) { a ; } else { b ; 2 ; } )"
    );
    assert_eq!(
        pretty_print(&first_expression("fn(a, b) { let c = a; return 1 + c * 2; }")),
        " fn ( a , b ) { let c = a ; return 1 + ( c * 2 ) ; }"
    );
    assert_eq!(pretty_print(&first_expression("fn() { }")), " fn ( ) { }");
}

#[test]
fn atoms_are_printed_as_they_are() {
    assert_eq!(pretty_print(&first_expression("0042")), " 42");
    assert_eq!(pretty_print(&first_expression("x")), " x");
    assert_eq!(pretty_print(&first_expression("false")), " false");
    assert_eq!(pretty_print(&first_expression("\"s p a c e\"")), " \"s p a c e\"");
    assert_eq!(pretty_print(&Expression::Int(2147483647)), " 2147483647");
}

#[test]
fn a_negative_integer_is_printed_as_a_negation() {
    assert_eq!(pretty_print(&Expression::Int(-5)), " ( - 5 )");
    assert_eq!(pretty_print(&Expression::Int(-2147483648)), " ( - 2147483648 )");
    assert_eq!(
        print_tokens(&Expression::Int(-7)),
        vec![
            Token::LeftParentesis,
            Token::Minus,
            Token::Int("7".to_string()),
            Token::RightParentesis
        ]
    );
}

#[test]
fn the_tokens_of_a_tree_are_those_of_its_text() {
    assert_eq!(
        print_tokens(&first_expression("a + b(1)")),
        vec![
            Token::LeftParentesis,
            Token::Identifier("a".to_string()),
            Token::Plus,
            Token::LeftParentesis,
            Token::Identifier("b".to_string()),
            Token::LeftParentesis,
            Token::Int("1".to_string()),
            Token::RightParentesis,
            Token::RightParentesis,
            Token::RightParentesis
        ]
    );
    assert_eq!(
        tokens_text(&vec![Token::Let, Token::Equals, Token::String("x".to_string())]),
        " let == \"x\""
    );
    assert_eq!(tokens_text(&vec![]), "");
}

#[test]
fn what_is_parsed_is_read_back_from_its_printed_form() {
    reads_back("1");
    reads_back("foo");
    reads_back("\"kevin\"");
    reads_back("true");
    reads_back("1 + 2 * 3");
    reads_back("(1 + 2) * 3");
    reads_back("a - b - c");
    reads_back("a - (b - c)");
    reads_back("-a * !b");
    reads_back("!!-!x");
    reads_back("1 < 2 == 3 > 4 != 5");
    reads_back("f()");
    reads_back("f(1)(2)(3, 4)");
    reads_back("-f(x)");
    reads_back("(a + b)(c)");
    reads_back("[]");
    reads_back("[1, [2, [3]], \"x\", fn(a) { a }]");
    reads_back("if (x) { }");
    reads_back("if (x < y) { x } else { y }");
    reads_back("if (a) { if (b) { c } else { d } } else { e; f; }");
    reads_back("fn() { }");
    reads_back("fn(a, b, c) { let d = a + b; d * c }");
    reads_back("fn(x) { return 1; }");
    reads_back("fn(x) { return 1 + 2 * 3 - 4; }");
    reads_back("fn(x) { return 1 * 2 + 3; }");
    reads_back("fn(x) { return 1(2)(3) * x + (y < z); }");
    reads_back("fn(x) { return 1 == 2; return 3 }");
    reads_back("fn(f) { fn(g) { if (g) { return 2 < 3; } f(g) } }");
    reads_back("5(1)");
    reads_back("if (c) { 1 } (x)");
    reads_back("fn(x) { x }(2)");
    reads_back("2147483647 + 0");
}

#[test]
fn the_printed_form_is_printed_the_same_again() {
    let expression = first_expression("fn(a) { if (a == 1) { return 1 + a; } [a, -a] }(3)");
    let printed = pretty_print(&expression);
    assert_eq!(pretty_print(&first_expression(&printed)), printed);
}

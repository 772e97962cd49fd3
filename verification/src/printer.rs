//! The pretty-printer: from a tree back to tokens and to source text.
//!
//! Every compound expression is printed with the parentheses that make it
//! read the same wherever it stands. A negative integer, which no literal
//! denotes, is printed as the negation of its magnitude. The one place where
//! the grammar takes no parenthesis is behind `return`, where an integer
//! literal has to follow: there the expression is printed bare, which is
//! possible for exactly the expressions that the parser builds there.

use vstd::prelude::*;
use vstd::string::*;

use crate::ast::{
    expressions_view, lemma_tokens_view_push, nodes_view, tokens_view, AstNode, AstNodeView,
    Expression, ExpressionView, Statement, StatementView,
};
use crate::grammar::{infix_handler, is_decimal, precedence_of, InfixParseFn, Precedence};
use crate::lexer::{letter, word_token};
use crate::text::{natural_text, push_natural};
use crate::token::{Token, TokenView};

verus! {

/// The tokens of parameter names from position `from` on, separated by
/// commas.
pub open spec fn parameter_tokens_from(names: Seq<TokenView>, from: nat) -> Seq<TokenView>
    decreases names.len() - from,
{
    if from >= names.len() {
        Seq::empty()
    } else if from + 1 == names.len() {
        seq![names[from as int]]
    } else {
        seq![names[from as int], TokenView::Comma] + parameter_tokens_from(names, from + 1)
    }
}

/// The tokens of an expression.
pub open spec fn expression_tokens(e: ExpressionView) -> Seq<TokenView>
    decreases e, 0nat,
{
    match e {
        ExpressionView::Int(value) => if value >= 0 {
            seq![TokenView::Int(natural_text(value as nat))]
        } else {
            seq![
                TokenView::LeftParentesis,
                TokenView::Minus,
                TokenView::Int(natural_text((-value) as nat)),
                TokenView::RightParentesis,
            ]
        },
        ExpressionView::Identifier(name) => seq![TokenView::Identifier(name)],
        ExpressionView::Boolean(value) => seq![
            if value {
                TokenView::True
            } else {
                TokenView::False
            },
        ],
        ExpressionView::String(text) => seq![TokenView::String(text)],
        ExpressionView::Array(items) => seq![TokenView::LeftBracket] + list_tokens_from(items, 0)
            + seq![TokenView::RightBracket],
        ExpressionView::Prefix { operator, right } => seq![TokenView::LeftParentesis, operator]
            + expression_tokens(*right) + seq![TokenView::RightParentesis],
        ExpressionView::Infix { operator, left, right } => seq![TokenView::LeftParentesis]
            + expression_tokens(*left) + seq![operator] + expression_tokens(*right)
            + seq![TokenView::RightParentesis],
        ExpressionView::IfExpression { condition, consequence, alternative } => seq![
            TokenView::LeftParentesis,
            TokenView::If,
            TokenView::LeftParentesis,
        ] + expression_tokens(*condition) + seq![TokenView::RightParentesis] + block_tokens(
            consequence,
        ) + (match alternative {
            Some(block) => seq![TokenView::Else] + block_tokens(block),
            None => Seq::empty(),
        }) + seq![TokenView::RightParentesis],
        ExpressionView::FunctionExpression { parameters, body } => seq![
            TokenView::Function,
            TokenView::LeftParentesis,
        ] + parameter_tokens_from(parameters, 0) + seq![TokenView::RightParentesis]
            + block_tokens(body),
        ExpressionView::CallExpression { function, arguments } => seq![
            TokenView::LeftParentesis,
        ] + expression_tokens(*function) + seq![TokenView::LeftParentesis] + list_tokens_from(
            arguments,
            0,
        ) + seq![TokenView::RightParentesis, TokenView::RightParentesis],
    }
}

/// The tokens of the expressions of a list from position `from` on,
/// separated by commas.
pub open spec fn list_tokens_from(items: Seq<ExpressionView>, from: nat) -> Seq<TokenView>
    decreases items, items.len() - from,
{
    if from >= items.len() {
        Seq::empty()
    } else if from + 1 == items.len() {
        expression_tokens(items[from as int])
    } else {
        expression_tokens(items[from as int]) + seq![TokenView::Comma] + list_tokens_from(
            items,
            from + 1,
        )
    }
}

/// The tokens of a block: its statements between braces.
pub open spec fn block_tokens(nodes: Seq<AstNodeView>) -> Seq<TokenView>
    decreases nodes, nodes.len() + 1,
{
    seq![TokenView::LeftBrace] + nodes_tokens_from(nodes, 0) + seq![TokenView::RightBrace]
}

/// The tokens of the statements of a list from position `from` on.
pub open spec fn nodes_tokens_from(nodes: Seq<AstNodeView>, from: nat) -> Seq<TokenView>
    decreases nodes, nodes.len() - from,
{
    if from >= nodes.len() {
        Seq::empty()
    } else {
        node_tokens(nodes[from as int]) + nodes_tokens_from(nodes, from + 1)
    }
}

/// The tokens of a node: a statement with its semicolon, or the statements
/// of a program.
pub open spec fn node_tokens(n: AstNodeView) -> Seq<TokenView>
    decreases n, 0nat,
{
    match n {
        AstNodeView::Expression(expression) => expression_tokens(expression) + seq![
            TokenView::Semicolon,
        ],
        AstNodeView::Statement(StatementView::LetStatement { name, value }) => seq![
            TokenView::Let,
        ] + expression_tokens(name) + seq![TokenView::Assign] + expression_tokens(value) + seq![
            TokenView::Semicolon,
        ],
        AstNodeView::Statement(StatementView::ReturnStatement(value)) => seq![TokenView::Return]
            + bare_tokens(value) + seq![TokenView::Semicolon],
        AstNodeView::Program { statements } => nodes_tokens_from(statements, 0),
    }
}

/// The tokens of an expression without parentheses around it and around the
/// left operands and callees at its left edge.
pub open spec fn bare_tokens(e: ExpressionView) -> Seq<TokenView>
    decreases e, 1nat,
{
    match e {
        ExpressionView::Infix { operator, left, right } => bare_tokens(*left) + seq![operator]
            + expression_tokens(*right),
        ExpressionView::CallExpression { function, arguments } => bare_tokens(*function) + seq![
            TokenView::LeftParentesis,
        ] + list_tokens_from(arguments, 0) + seq![TokenView::RightParentesis],
        _ => expression_tokens(e),
    }
}

/// The last token of the tokens of an expression.
pub open spec fn last_token(e: ExpressionView) -> TokenView {
    match e {
        ExpressionView::Int(value) => if value >= 0 {
            TokenView::Int(natural_text(value as nat))
        } else {
            TokenView::RightParentesis
        },
        ExpressionView::Identifier(name) => TokenView::Identifier(name),
        ExpressionView::Boolean(value) => if value {
            TokenView::True
        } else {
            TokenView::False
        },
        ExpressionView::String(text) => TokenView::String(text),
        ExpressionView::Array(_) => TokenView::RightBracket,
        ExpressionView::FunctionExpression { .. } => TokenView::RightBrace,
        _ => TokenView::RightParentesis,
    }
}

/// Whether an expression is one that the parser can build.
pub open spec fn parseable_expression(e: ExpressionView) -> bool
    decreases e, 0nat,
{
    match e {
        ExpressionView::Int(value) => 0 <= value <= i32::MAX,
        ExpressionView::Identifier(_) => true,
        ExpressionView::Boolean(_) => true,
        ExpressionView::String(_) => true,
        ExpressionView::Array(items) => parseable_expressions(items),
        ExpressionView::Prefix { operator, right } => (operator is Bang || operator is Minus)
            && parseable_expression(*right),
        ExpressionView::Infix { operator, left, right } => infix_handler(operator) == Some(
            InfixParseFn::Infix,
        ) && parseable_expression(*left) && parseable_expression(*right),
        ExpressionView::IfExpression { condition, consequence, alternative } => {
            &&& parseable_expression(*condition)
            &&& parseable_block(consequence)
            &&& match alternative {
                Some(block) => parseable_block(block),
                None => true,
            }
        },
        ExpressionView::FunctionExpression { parameters, body } => {
            &&& forall|i: int| 0 <= i < parameters.len() ==> (#[trigger] parameters[i]) is Identifier
            &&& parseable_block(body)
        },
        ExpressionView::CallExpression { function, arguments } => parseable_expression(*function)
            && parseable_expressions(arguments),
    }
}

/// Whether every expression of a list is one that the parser can build.
pub open spec fn parseable_expressions(items: Seq<ExpressionView>) -> bool
    decreases items, 0nat,
{
    forall|i: int| 0 <= i < items.len() ==> parseable_expression(#[trigger] items[i])
}

/// Whether every statement of a block is one that the parser can build.
pub open spec fn parseable_block(nodes: Seq<AstNodeView>) -> bool
    decreases nodes, 0nat,
{
    forall|i: int| 0 <= i < nodes.len() ==> parseable_node(#[trigger] nodes[i])
}

/// Whether a statement is one that the parser can build.
pub open spec fn parseable_node(n: AstNodeView) -> bool
    decreases n, 0nat,
{
    match n {
        AstNodeView::Expression(expression) => parseable_expression(expression),
        AstNodeView::Statement(StatementView::LetStatement { name, value }) => name is Identifier
            && parseable_expression(value),
        AstNodeView::Statement(StatementView::ReturnStatement(value)) => parseable_expression(
            value,
        ) && bare_from_integer(value),
        AstNodeView::Program { .. } => false,
    }
}

/// The binding strength with which an expression printed bare holds
/// together: that of its operator where it is a binary operation, the
/// strongest otherwise.
pub open spec fn outer_precedence(e: ExpressionView) -> Precedence {
    match e {
        ExpressionView::Infix { operator, .. } => precedence_of(operator),
        _ => Precedence::Call,
    }
}

/// Whether an expression is an integer literal extended by calls.
pub open spec fn calls_from_integer(e: ExpressionView) -> bool
    decreases e,
{
    match e {
        ExpressionView::Int(_) => true,
        ExpressionView::CallExpression { function, .. } => calls_from_integer(*function),
        _ => false,
    }
}

/// Whether an expression, printed bare, starts with an integer literal and
/// reads as the same expression: an integer literal extended by calls and
/// then by binary operators, none of which binds tighter than the one before
/// it.
pub open spec fn bare_from_integer(e: ExpressionView) -> bool
    decreases e,
{
    match e {
        ExpressionView::Infix { operator, left, .. } => bare_from_integer(*left)
            && outer_precedence(*left).rank() >= precedence_of(operator).rank(),
        _ => calls_from_integer(e),
    }
}

/// The source text of a token.
pub open spec fn token_source(token: TokenView) -> Seq<char> {
    match token {
        TokenView::Illegal => seq!['?'],
        TokenView::Eof => Seq::empty(),
        TokenView::Identifier(name) => name,
        TokenView::Int(digits) => digits,
        TokenView::String(text) => seq!['"'] + text + seq!['"'],
        TokenView::Assign => seq!['='],
        TokenView::Plus => seq!['+'],
        TokenView::Minus => seq!['-'],
        TokenView::Bang => seq!['!'],
        TokenView::Asterisk => seq!['*'],
        TokenView::Slash => seq!['/'],
        TokenView::LessThan => seq!['<'],
        TokenView::GreaterThan => seq!['>'],
        TokenView::Equals => seq!['=', '='],
        TokenView::NotEquals => seq!['!', '='],
        TokenView::Comma => seq![','],
        TokenView::Semicolon => seq![';'],
        TokenView::LeftParentesis => seq!['('],
        TokenView::RightParentesis => seq![')'],
        TokenView::LeftBrace => seq!['{'],
        TokenView::RightBrace => seq!['}'],
        TokenView::LeftBracket => seq!['['],
        TokenView::RightBracket => seq![']'],
        TokenView::Function => seq!['f', 'n'],
        TokenView::Let => seq!['l', 'e', 't'],
        TokenView::True => seq!['t', 'r', 'u', 'e'],
        TokenView::False => seq!['f', 'a', 'l', 's', 'e'],
        TokenView::If => seq!['i', 'f'],
        TokenView::Else => seq!['e', 'l', 's', 'e'],
        TokenView::Return => seq!['r', 'e', 't', 'u', 'r', 'n'],
    }
}

/// The source text of the tokens of a list from position `from` on: each
/// token with a space before it.
pub open spec fn tokens_text_from(tokens: Seq<TokenView>, from: nat) -> Seq<char>
    decreases tokens.len() - from,
{
    if from >= tokens.len() {
        Seq::empty()
    } else {
        seq![' '] + token_source(tokens[from as int]) + tokens_text_from(tokens, from + 1)
    }
}

/// The source text of an expression: that of its tokens.
pub open spec fn expression_text(e: ExpressionView) -> Seq<char> {
    tokens_text_from(expression_tokens(e), 0)
}

/// Whether a token is one that the lexer reads back from its source text:
/// a symbol or keyword, an identifier made of letters that spells no
/// keyword, an integer literal made of digits, or a string literal without a
/// quote in it.
pub open spec fn lexical(token: TokenView) -> bool {
    match token {
        TokenView::Illegal => false,
        TokenView::Eof => false,
        TokenView::Identifier(name) => {
            &&& name.len() > 0
            &&& forall|i: int| 0 <= i < name.len() ==> letter(#[trigger] name[i])
            &&& word_token(name) == TokenView::Identifier(name)
        },
        TokenView::Int(digits) => is_decimal(digits),
        TokenView::String(text) => forall|i: int| 0 <= i < text.len() ==> (#[trigger] text[i])
            != '"',
        _ => true,
    }
}

/// Whether every token of a list is lexical.
pub open spec fn all_lexical(tokens: Seq<TokenView>) -> bool {
    forall|i: int| 0 <= i < tokens.len() ==> lexical(#[trigger] tokens[i])
}

/// Whether the names and texts in an expression are such that the lexer
/// reads them back.
pub open spec fn lexical_expression(e: ExpressionView) -> bool
    decreases e, 0nat,
{
    match e {
        ExpressionView::Int(_) => true,
        ExpressionView::Identifier(name) => lexical(TokenView::Identifier(name)),
        ExpressionView::Boolean(_) => true,
        ExpressionView::String(text) => lexical(TokenView::String(text)),
        ExpressionView::Array(items) => lexical_expressions(items),
        ExpressionView::Prefix { right, .. } => lexical_expression(*right),
        ExpressionView::Infix { left, right, .. } => lexical_expression(*left)
            && lexical_expression(*right),
        ExpressionView::IfExpression { condition, consequence, alternative } => {
            &&& lexical_expression(*condition)
            &&& lexical_block(consequence)
            &&& match alternative {
                Some(block) => lexical_block(block),
                None => true,
            }
        },
        ExpressionView::FunctionExpression { parameters, body } => all_lexical(parameters)
            && lexical_block(body),
        ExpressionView::CallExpression { function, arguments } => lexical_expression(*function)
            && lexical_expressions(arguments),
    }
}

/// Whether every expression of a list is lexical.
pub open spec fn lexical_expressions(items: Seq<ExpressionView>) -> bool
    decreases items, 0nat,
{
    forall|i: int| 0 <= i < items.len() ==> lexical_expression(#[trigger] items[i])
}

/// Whether every statement of a block is lexical.
pub open spec fn lexical_block(nodes: Seq<AstNodeView>) -> bool
    decreases nodes, 0nat,
{
    forall|i: int| 0 <= i < nodes.len() ==> lexical_node(#[trigger] nodes[i])
}

/// Whether the names and texts in a node are such that the lexer reads
/// them back.
pub open spec fn lexical_node(n: AstNodeView) -> bool
    decreases n, 0nat,
{
    match n {
        AstNodeView::Expression(expression) => lexical_expression(expression),
        AstNodeView::Statement(StatementView::LetStatement { name, value }) => lexical_expression(
            name,
        ) && lexical_expression(value),
        AstNodeView::Statement(StatementView::ReturnStatement(value)) => lexical_expression(
            value,
        ),
        AstNodeView::Program { statements } => lexical_block(statements),
    }
}

/// Appends `token` to `out`.
fn emit(out: &mut Vec<Token>, token: Token)
    ensures
        tokens_view(final(out)@) == tokens_view(old(out)@) + seq![token@],
{
    proof {
        lemma_tokens_view_push(out@, token);
    }
    out.push(token);
    assert(tokens_view(old(out)@).push(token@) =~= tokens_view(old(out)@) + seq![token@]);
}

/// The integer literal that denotes `value`.
fn literal(value: u32) -> (token: Token)
    ensures
        token@ == TokenView::Int(natural_text(value as nat)),
{
    let mut digits = String::new();
    push_natural(&mut digits, value);
    assert(digits@ =~= natural_text(value as nat));
    Token::Int(digits)
}

/// Appends the tokens of the parameter names from position `from` on.
fn push_parameter_tokens_from(names: &Vec<Token>, from: usize, out: &mut Vec<Token>)
    requires
        from <= names.len(),
    ensures
        tokens_view(final(out)@) == tokens_view(old(out)@) + parameter_tokens_from(
            tokens_view(names@),
            from as nat,
        ),
    decreases names.len() - from,
{
    if from >= names.len() {
        assert(tokens_view(out@) + Seq::<TokenView>::empty() =~= tokens_view(out@));
    } else {
        assert(tokens_view(names@)[from as int] == names[from as int]@);
        emit(out, names[from].duplicate());
        if from + 1 < names.len() {
            emit(out, Token::Comma);
            push_parameter_tokens_from(names, from + 1, out);
        }
        assert(tokens_view(out@) =~= tokens_view(old(out)@) + parameter_tokens_from(
            tokens_view(names@),
            from as nat,
        ));
    }
}

/// Appends the tokens of an integer literal, a boolean, an identifier or a
/// string.
fn push_atom_tokens(e: &Expression, out: &mut Vec<Token>)
    requires
        e is Int || e is Identifier || e is Boolean || e is String,
    ensures
        tokens_view(final(out)@) == tokens_view(old(out)@) + expression_tokens(e@),
{
    match e {
        Expression::Int(value) => {
            if *value >= 0 {
                emit(out, literal(*value as u32));
            } else {
                emit(out, Token::LeftParentesis);
                emit(out, Token::Minus);
                emit(out, literal((-(*value as i64)) as u32));
                emit(out, Token::RightParentesis);
            }
        },
        Expression::Identifier(name) => {
            emit(out, Token::Identifier(name.clone()));
        },
        Expression::Boolean(value) => {
            if *value {
                emit(out, Token::True);
            } else {
                emit(out, Token::False);
            }
        },
        Expression::String(text) => {
            emit(out, Token::String(text.clone()));
        },
        _ => {},
    }
    assert(tokens_view(out@) =~= tokens_view(old(out)@) + expression_tokens(e@));
}

/// Appends the tokens of an array literal.
fn push_array_tokens(e: &Expression, out: &mut Vec<Token>)
    requires
        e is Array,
    ensures
        tokens_view(final(out)@) == tokens_view(old(out)@) + expression_tokens(e@),
    decreases e, 0nat,
{
    if let Expression::Array(items) = e {
        emit(out, Token::LeftBracket);
        push_list_tokens_from(items, 0, out);
        emit(out, Token::RightBracket);
    }
    assert(tokens_view(out@) =~= tokens_view(old(out)@) + expression_tokens(e@));
}

/// Appends the tokens of a unary operation.
fn push_prefix_tokens(e: &Expression, out: &mut Vec<Token>)
    requires
        e is Prefix,
    ensures
        tokens_view(final(out)@) == tokens_view(old(out)@) + expression_tokens(e@),
    decreases e, 0nat,
{
    if let Expression::Prefix { operator, right } = e {
        emit(out, Token::LeftParentesis);
        emit(out, operator.duplicate());
        push_expression_tokens(right, out);
        emit(out, Token::RightParentesis);
    }
    assert(tokens_view(out@) =~= tokens_view(old(out)@) + expression_tokens(e@));
}

/// Appends the tokens of a binary operation.
fn push_infix_tokens(e: &Expression, out: &mut Vec<Token>)
    requires
        e is Infix,
    ensures
        tokens_view(final(out)@) == tokens_view(old(out)@) + expression_tokens(e@),
    decreases e, 0nat,
{
    if let Expression::Infix { operator, left, right } = e {
        emit(out, Token::LeftParentesis);
        push_expression_tokens(left, out);
        emit(out, operator.duplicate());
        push_expression_tokens(right, out);
        emit(out, Token::RightParentesis);
    }
    assert(tokens_view(out@) =~= tokens_view(old(out)@) + expression_tokens(e@));
}

/// Appends the tokens of a conditional.
fn push_if_tokens(e: &Expression, out: &mut Vec<Token>)
    requires
        e is IfExpression,
    ensures
        tokens_view(final(out)@) == tokens_view(old(out)@) + expression_tokens(e@),
    decreases e, 0nat,
{
    if let Expression::IfExpression { condition, consequence, alternative } = e {
        emit(out, Token::LeftParentesis);
        emit(out, Token::If);
        emit(out, Token::LeftParentesis);
        push_expression_tokens(condition, out);
        emit(out, Token::RightParentesis);
        push_block_tokens(&consequence.statements, out);
        match alternative {
            Some(block) => {
                emit(out, Token::Else);
                push_block_tokens(&block.statements, out);
            },
            None => {},
        }
        emit(out, Token::RightParentesis);
    }
    assert(tokens_view(out@) =~= tokens_view(old(out)@) + expression_tokens(e@));
}

/// Appends the tokens of a function literal.
fn push_function_tokens(e: &Expression, out: &mut Vec<Token>)
    requires
        e is FunctionExpression,
    ensures
        tokens_view(final(out)@) == tokens_view(old(out)@) + expression_tokens(e@),
    decreases e, 0nat,
{
    if let Expression::FunctionExpression { parameters, body } = e {
        emit(out, Token::Function);
        emit(out, Token::LeftParentesis);
        push_parameter_tokens_from(parameters, 0, out);
        emit(out, Token::RightParentesis);
        push_block_tokens(&body.statements, out);
    }
    assert(tokens_view(out@) =~= tokens_view(old(out)@) + expression_tokens(e@));
}

/// Appends the tokens of a call.
fn push_call_tokens(e: &Expression, out: &mut Vec<Token>)
    requires
        e is CallExpression,
    ensures
        tokens_view(final(out)@) == tokens_view(old(out)@) + expression_tokens(e@),
    decreases e, 0nat,
{
    if let Expression::CallExpression { function, arguments } = e {
        emit(out, Token::LeftParentesis);
        push_expression_tokens(function, out);
        emit(out, Token::LeftParentesis);
        push_list_tokens_from(arguments, 0, out);
        emit(out, Token::RightParentesis);
        emit(out, Token::RightParentesis);
    }
    assert(tokens_view(out@) =~= tokens_view(old(out)@) + expression_tokens(e@));
}

/// Appends the tokens of `e` to `out`.
pub fn push_expression_tokens(e: &Expression, out: &mut Vec<Token>)
    ensures
        tokens_view(final(out)@) == tokens_view(old(out)@) + expression_tokens(e@),
    decreases e, 1nat,
{
    match e {
        Expression::Array(_) => push_array_tokens(e, out),
        Expression::Prefix { .. } => push_prefix_tokens(e, out),
        Expression::Infix { .. } => push_infix_tokens(e, out),
        Expression::IfExpression { .. } => push_if_tokens(e, out),
        Expression::FunctionExpression { .. } => push_function_tokens(e, out),
        Expression::CallExpression { .. } => push_call_tokens(e, out),
        _ => push_atom_tokens(e, out),
    }
}

/// Appends the tokens of the expressions of a list from position `from`
/// on, separated by commas.
fn push_list_tokens_from(items: &Vec<Expression>, from: usize, out: &mut Vec<Token>)
    requires
        from <= items.len(),
    ensures
        tokens_view(final(out)@) == tokens_view(old(out)@) + list_tokens_from(
            expressions_view(items@),
            from as nat,
        ),
    decreases items, items.len() - from,
{
    if from < items.len() {
        assert(expressions_view(items@)[from as int] == items[from as int]@);
        push_expression_tokens(&items[from], out);
        if from + 1 < items.len() {
            emit(out, Token::Comma);
            push_list_tokens_from(items, from + 1, out);
        }
    }
    assert(tokens_view(out@) =~= tokens_view(old(out)@) + list_tokens_from(
        expressions_view(items@),
        from as nat,
    ));
}

/// Appends the tokens of a block: its statements between braces.
pub fn push_block_tokens(nodes: &Vec<AstNode>, out: &mut Vec<Token>)
    ensures
        tokens_view(final(out)@) == tokens_view(old(out)@) + block_tokens(nodes_view(nodes@)),
    decreases nodes, nodes.len() + 1,
{
    emit(out, Token::LeftBrace);
    push_nodes_tokens_from(nodes, 0, out);
    emit(out, Token::RightBrace);
    assert(tokens_view(out@) =~= tokens_view(old(out)@) + block_tokens(nodes_view(nodes@)));
}

/// Appends the tokens of the statements of a list from position `from` on.
fn push_nodes_tokens_from(nodes: &Vec<AstNode>, from: usize, out: &mut Vec<Token>)
    requires
        from <= nodes.len(),
    ensures
        tokens_view(final(out)@) == tokens_view(old(out)@) + nodes_tokens_from(
            nodes_view(nodes@),
            from as nat,
        ),
    decreases nodes, nodes.len() - from,
{
    if from < nodes.len() {
        assert(nodes_view(nodes@)[from as int] == nodes[from as int]@);
        push_node_tokens(&nodes[from], out);
        push_nodes_tokens_from(nodes, from + 1, out);
    }
    assert(tokens_view(out@) =~= tokens_view(old(out)@) + nodes_tokens_from(
        nodes_view(nodes@),
        from as nat,
    ));
}

/// Appends the tokens of a node: a statement with its semicolon, or the
/// statements of a program.
pub fn push_node_tokens(node: &AstNode, out: &mut Vec<Token>)
    ensures
        tokens_view(final(out)@) == tokens_view(old(out)@) + node_tokens(node@),
    decreases node, 0nat,
{
    match node {
        AstNode::Expression(expression) => {
            push_expression_tokens(expression, out);
            emit(out, Token::Semicolon);
        },
        AstNode::Statement(statement) => {
            match &**statement {
                Statement::LetStatement { name, value } => {
                    emit(out, Token::Let);
                    push_expression_tokens(name, out);
                    emit(out, Token::Assign);
                    push_expression_tokens(value, out);
                    emit(out, Token::Semicolon);
                },
                Statement::ReturnStatement(value) => {
                    emit(out, Token::Return);
                    push_bare_tokens(value, out);
                    emit(out, Token::Semicolon);
                },
            }
        },
        AstNode::Program { statements } => {
            push_nodes_tokens_from(statements, 0, out);
        },
    }
    assert(tokens_view(out@) =~= tokens_view(old(out)@) + node_tokens(node@));
}

/// Appends the tokens of `e` printed bare.
pub fn push_bare_tokens(e: &Expression, out: &mut Vec<Token>)
    ensures
        tokens_view(final(out)@) == tokens_view(old(out)@) + bare_tokens(e@),
    decreases e, 2nat,
{
    match e {
        Expression::Infix { operator, left, right } => {
            push_bare_tokens(left, out);
            emit(out, operator.duplicate());
            push_expression_tokens(right, out);
        },
        Expression::CallExpression { function, arguments } => {
            push_bare_tokens(function, out);
            emit(out, Token::LeftParentesis);
            push_list_tokens_from(arguments, 0, out);
            emit(out, Token::RightParentesis);
        },
        _ => {
            push_expression_tokens(e, out);
        },
    }
    assert(tokens_view(out@) =~= tokens_view(old(out)@) + bare_tokens(e@));
}

/// The source text of a token that carries no text.
fn symbol_source(token: &Token) -> (text: &'static str)
    requires
        !(token is Identifier),
        !(token is Int),
        !(token is String),
    ensures
        text@ == token_source(token@),
{
    proof {
        reveal_strlit("?");
        reveal_strlit("");
        reveal_strlit("=");
        reveal_strlit("+");
        reveal_strlit("-");
        reveal_strlit("!");
        reveal_strlit("*");
        reveal_strlit("/");
        reveal_strlit("<");
        reveal_strlit(">");
        reveal_strlit("==");
        reveal_strlit("!=");
        reveal_strlit(",");
        reveal_strlit(";");
        reveal_strlit("(");
        reveal_strlit(")");
        reveal_strlit("{");
        reveal_strlit("}");
        reveal_strlit("[");
        reveal_strlit("]");
        reveal_strlit("fn");
        reveal_strlit("let");
        reveal_strlit("true");
        reveal_strlit("false");
        reveal_strlit("if");
        reveal_strlit("else");
        reveal_strlit("return");
    }
    let text = match token {
        Token::Illegal => "?",
        Token::Eof => "",
        Token::Assign => "=",
        Token::Plus => "+",
        Token::Minus => "-",
        Token::Bang => "!",
        Token::Asterisk => "*",
        Token::Slash => "/",
        Token::LessThan => "<",
        Token::GreaterThan => ">",
        Token::Equals => "==",
        Token::NotEquals => "!=",
        Token::Comma => ",",
        Token::Semicolon => ";",
        Token::LeftParentesis => "(",
        Token::RightParentesis => ")",
        Token::LeftBrace => "{",
        Token::RightBrace => "}",
        Token::LeftBracket => "[",
        Token::RightBracket => "]",
        Token::Function => "fn",
        Token::Let => "let",
        Token::True => "true",
        Token::False => "false",
        Token::If => "if",
        Token::Else => "else",
        _ => "return",
    };
    assert(text@ =~= token_source(token@));
    text
}

/// Appends the source text of `token` to `out`.
pub fn push_token_source(out: &mut String, token: &Token)
    ensures
        final(out)@ == old(out)@ + token_source(token@),
{
    match token {
        Token::Identifier(name) => {
            out.append(name.as_str());
        },
        Token::Int(digits) => {
            out.append(digits.as_str());
        },
        Token::String(text) => {
            proof {
                reveal_strlit("\"");
            }
            out.append("\"");
            out.append(text.as_str());
            out.append("\"");
            assert(out@ =~= old(out)@ + token_source(token@));
        },
        _ => {
            out.append(symbol_source(token));
        },
    }
}

/// The source text of a list of tokens: each token with a space before it.
pub fn tokens_text(tokens: &Vec<Token>) -> (text: String)
    ensures
        text@ == tokens_text_from(tokens_view(tokens@), 0),
{
    let mut text = String::new();
    let mut i: usize = 0;
    assert(text@ + tokens_text_from(tokens_view(tokens@), 0) =~= tokens_text_from(
        tokens_view(tokens@),
        0,
    ));
    while i < tokens.len()
        invariant
            i <= tokens.len(),
            text@ + tokens_text_from(tokens_view(tokens@), i as nat) == tokens_text_from(
                tokens_view(tokens@),
                0,
            ),
        decreases tokens.len() - i,
    {
        proof {
            reveal_strlit(" ");
        }
        let ghost before = text@;
        assert(tokens_view(tokens@)[i as int] == tokens[i as int]@);
        text.append(" ");
        push_token_source(&mut text, &tokens[i]);
        assert(text@ + tokens_text_from(tokens_view(tokens@), (i + 1) as nat) =~= before
            + tokens_text_from(tokens_view(tokens@), i as nat));
        i += 1;
    }
    assert(text@ + Seq::<char>::empty() =~= text@);
    text
}

/// The tokens of an expression as the pretty-printer gives them.
pub fn print_tokens(e: &Expression) -> (tokens: Vec<Token>)
    ensures
        tokens_view(tokens@) == expression_tokens(e@),
{
    let mut tokens: Vec<Token> = Vec::new();
    assert(tokens_view(tokens@) =~= Seq::<TokenView>::empty());
    push_expression_tokens(e, &mut tokens);
    assert(Seq::<TokenView>::empty() + expression_tokens(e@) =~= expression_tokens(e@));
    tokens
}

/// The source text of an expression as the pretty-printer writes it.
pub fn pretty_print(e: &Expression) -> (text: String)
    ensures
        text@ == expression_text(e@),
{
    let tokens = print_tokens(e);
    tokens_text(&tokens)
}

} // verus!

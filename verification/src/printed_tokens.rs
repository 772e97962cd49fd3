//! The tokens that the pretty-printer writes are tokens that the lexer
//! reads back.

use vstd::prelude::*;

use crate::ast::{AstNodeView, ExpressionView, StatementView};

use crate::printer::{
    all_lexical, bare_tokens, block_tokens, expression_tokens, lexical, lexical_block,
    lexical_expression, lexical_expressions, lexical_node, list_tokens_from, node_tokens,
    nodes_tokens_from, parameter_tokens_from, parseable_block, parseable_expression,
    parseable_expressions, parseable_node,
};
use crate::round_trip::lemma_natural_text_denotes;
use crate::token::TokenView;

verus! {

/// Lexical tokens followed by lexical tokens are lexical tokens.
pub proof fn lemma_all_lexical_join(a: Seq<TokenView>, b: Seq<TokenView>)
    requires
        all_lexical(a),
        all_lexical(b),
    ensures
        all_lexical(a + b),
{
    assert forall|i: int| 0 <= i < (a + b).len() implies lexical(#[trigger] (a + b)[i]) by {
        if i < a.len() {
            assert((a + b)[i] == a[i]);
        } else {
            assert((a + b)[i] == b[i - a.len()]);
        }
    }
}

/// The tokens of lexical parameter names are lexical.
pub proof fn lemma_parameter_tokens_lexical(names: Seq<TokenView>, from: nat)
    requires
        all_lexical(names),
    ensures
        all_lexical(parameter_tokens_from(names, from)),
    decreases names.len() - from,
{
    if from < names.len() {
        assert(lexical(names[from as int]));
        if from + 1 < names.len() {
            lemma_parameter_tokens_lexical(names, from + 1);
            lemma_all_lexical_join(
                seq![names[from as int], TokenView::Comma],
                parameter_tokens_from(names, from + 1),
            );
        }
    }
}

/// The tokens of a parseable, lexical expression are lexical.
pub proof fn lemma_expression_tokens_lexical(e: ExpressionView)
    requires
        parseable_expression(e),
        lexical_expression(e),
    ensures
        all_lexical(expression_tokens(e)),
    decreases e, 0nat,
{
    match e {
        ExpressionView::Int(value) => {
            lemma_natural_text_denotes(value as nat);
        },
        ExpressionView::Array(items) => {
            lemma_list_tokens_lexical(items, 0);
            lemma_all_lexical_join(seq![TokenView::LeftBracket], list_tokens_from(items, 0));
            lemma_all_lexical_join(
                seq![TokenView::LeftBracket] + list_tokens_from(items, 0),
                seq![TokenView::RightBracket],
            );
        },
        ExpressionView::Prefix { operator, right } => {
            lemma_expression_tokens_lexical(*right);
            lemma_all_lexical_join(
                seq![TokenView::LeftParentesis, operator],
                expression_tokens(*right),
            );
            lemma_all_lexical_join(
                seq![TokenView::LeftParentesis, operator] + expression_tokens(*right),
                seq![TokenView::RightParentesis],
            );
        },
        ExpressionView::Infix { operator, left, right } => {
            lemma_expression_tokens_lexical(*left);
            lemma_expression_tokens_lexical(*right);
            let a = seq![TokenView::LeftParentesis] + expression_tokens(*left);
            lemma_all_lexical_join(seq![TokenView::LeftParentesis], expression_tokens(*left));
            lemma_all_lexical_join(a, seq![operator]);
            lemma_all_lexical_join(a + seq![operator], expression_tokens(*right));
            lemma_all_lexical_join(
                a + seq![operator] + expression_tokens(*right),
                seq![TokenView::RightParentesis],
            );
        },
        ExpressionView::IfExpression { condition, consequence, alternative } => {
            lemma_expression_tokens_lexical(*condition);
            lemma_block_tokens_lexical(consequence);
            let head = seq![TokenView::LeftParentesis, TokenView::If, TokenView::LeftParentesis];
            let a = head + expression_tokens(*condition);
            lemma_all_lexical_join(head, expression_tokens(*condition));
            lemma_all_lexical_join(a, seq![TokenView::RightParentesis]);
            let b = a + seq![TokenView::RightParentesis];
            lemma_all_lexical_join(b, block_tokens(consequence));
            let c = b + block_tokens(consequence);
            let tail = match alternative {
                Some(block) => seq![TokenView::Else] + block_tokens(block),
                None => Seq::empty(),
            };
            match alternative {
                Some(block) => {
                    lemma_block_tokens_lexical(block);
                    lemma_all_lexical_join(seq![TokenView::Else], block_tokens(block));
                },
                None => {},
            }
            lemma_all_lexical_join(c, tail);
            lemma_all_lexical_join(c + tail, seq![TokenView::RightParentesis]);
        },
        ExpressionView::FunctionExpression { parameters, body } => {
            lemma_parameter_tokens_lexical(parameters, 0);
            lemma_block_tokens_lexical(body);
            let head = seq![TokenView::Function, TokenView::LeftParentesis];
            lemma_all_lexical_join(head, parameter_tokens_from(parameters, 0));
            let a = head + parameter_tokens_from(parameters, 0);
            lemma_all_lexical_join(a, seq![TokenView::RightParentesis]);
            lemma_all_lexical_join(a + seq![TokenView::RightParentesis], block_tokens(body));
        },
        ExpressionView::CallExpression { function, arguments } => {
            lemma_expression_tokens_lexical(*function);
            lemma_list_tokens_lexical(arguments, 0);
            lemma_all_lexical_join(seq![TokenView::LeftParentesis], expression_tokens(*function));
            let a = seq![TokenView::LeftParentesis] + expression_tokens(*function);
            lemma_all_lexical_join(a, seq![TokenView::LeftParentesis]);
            let b = a + seq![TokenView::LeftParentesis];
            lemma_all_lexical_join(b, list_tokens_from(arguments, 0));
            lemma_all_lexical_join(
                b + list_tokens_from(arguments, 0),
                seq![TokenView::RightParentesis, TokenView::RightParentesis],
            );
        },
        _ => {},
    }
}

/// The tokens of a list of parseable, lexical expressions are lexical.
pub proof fn lemma_list_tokens_lexical(items: Seq<ExpressionView>, from: nat)
    requires
        parseable_expressions(items),
        lexical_expressions(items),
    ensures
        all_lexical(list_tokens_from(items, from)),
    decreases items, items.len() - from,
{
    if from < items.len() {
        lemma_expression_tokens_lexical(items[from as int]);
        if from + 1 < items.len() {
            lemma_list_tokens_lexical(items, from + 1);
            lemma_all_lexical_join(
                expression_tokens(items[from as int]),
                seq![TokenView::Comma],
            );
            lemma_all_lexical_join(
                expression_tokens(items[from as int]) + seq![TokenView::Comma],
                list_tokens_from(items, from + 1),
            );
        }
    }
}

/// The tokens of a block of parseable, lexical statements are lexical.
pub proof fn lemma_block_tokens_lexical(nodes: Seq<AstNodeView>)
    requires
        parseable_block(nodes),
        lexical_block(nodes),
    ensures
        all_lexical(block_tokens(nodes)),
    decreases nodes, nodes.len() + 1,
{
    lemma_nodes_tokens_lexical(nodes, 0);
    lemma_all_lexical_join(seq![TokenView::LeftBrace], nodes_tokens_from(nodes, 0));
    lemma_all_lexical_join(
        seq![TokenView::LeftBrace] + nodes_tokens_from(nodes, 0),
        seq![TokenView::RightBrace],
    );
}

/// The tokens of parseable, lexical statements are lexical.
pub proof fn lemma_nodes_tokens_lexical(nodes: Seq<AstNodeView>, from: nat)
    requires
        parseable_block(nodes),
        lexical_block(nodes),
    ensures
        all_lexical(nodes_tokens_from(nodes, from)),
    decreases nodes, nodes.len() - from,
{
    if from < nodes.len() {
        lemma_node_tokens_lexical(nodes[from as int]);
        lemma_nodes_tokens_lexical(nodes, from + 1);
        lemma_all_lexical_join(
            node_tokens(nodes[from as int]),
            nodes_tokens_from(nodes, from + 1),
        );
    }
}

/// The tokens of a parseable, lexical statement are lexical.
pub proof fn lemma_node_tokens_lexical(node: AstNodeView)
    requires
        parseable_node(node),
        lexical_node(node),
    ensures
        all_lexical(node_tokens(node)),
    decreases node, 0nat,
{
    match node {
        AstNodeView::Expression(expression) => {
            lemma_expression_tokens_lexical(expression);
            lemma_all_lexical_join(expression_tokens(expression), seq![TokenView::Semicolon]);
        },
        AstNodeView::Statement(StatementView::LetStatement { name, value }) => {
            lemma_expression_tokens_lexical(value);
            let a = seq![TokenView::Let] + expression_tokens(name);
            lemma_all_lexical_join(seq![TokenView::Let], expression_tokens(name));
            lemma_all_lexical_join(a, seq![TokenView::Assign]);
            lemma_all_lexical_join(a + seq![TokenView::Assign], expression_tokens(value));
            lemma_all_lexical_join(
                a + seq![TokenView::Assign] + expression_tokens(value),
                seq![TokenView::Semicolon],
            );
        },
        AstNodeView::Statement(StatementView::ReturnStatement(value)) => {
            lemma_bare_tokens_lexical(value);
            lemma_all_lexical_join(seq![TokenView::Return], bare_tokens(value));
            lemma_all_lexical_join(
                seq![TokenView::Return] + bare_tokens(value),
                seq![TokenView::Semicolon],
            );
        },
        AstNodeView::Program { .. } => {},
    }
}

/// The tokens of a parseable, lexical expression printed bare are lexical.
pub proof fn lemma_bare_tokens_lexical(e: ExpressionView)
    requires
        parseable_expression(e),
        lexical_expression(e),
    ensures
        all_lexical(bare_tokens(e)),
    decreases e, 1nat,
{
    match e {
        ExpressionView::Infix { operator, left, right } => {
            lemma_bare_tokens_lexical(*left);
            lemma_expression_tokens_lexical(*right);
            lemma_all_lexical_join(bare_tokens(*left), seq![operator]);
            lemma_all_lexical_join(bare_tokens(*left) + seq![operator], expression_tokens(*right));
        },
        ExpressionView::CallExpression { function, arguments } => {
            lemma_bare_tokens_lexical(*function);
            lemma_list_tokens_lexical(arguments, 0);
            lemma_all_lexical_join(bare_tokens(*function), seq![TokenView::LeftParentesis]);
            let a = bare_tokens(*function) + seq![TokenView::LeftParentesis];
            lemma_all_lexical_join(a, list_tokens_from(arguments, 0));
            lemma_all_lexical_join(
                a + list_tokens_from(arguments, 0),
                seq![TokenView::RightParentesis],
            );
        },
        _ => {
            lemma_expression_tokens_lexical(e);
        },
    }
}

} // verus!

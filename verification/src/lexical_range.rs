//! What the parser builds from the tokens of a text holds only names and
//! texts that the lexer reads back.

use vstd::prelude::*;

use crate::ast::{AstNodeView, ExpressionView};
use crate::grammar::{
    extend_expression_spec, infix_handler, parse_array_expression_spec, parse_block_statement_spec,
    parse_call_expression_spec, parse_expression_list_spec, parse_expression_spec,
    parse_expression_statement_spec, parse_function_expression_spec,
    parse_function_parameters_spec, parse_grouped_expression_spec, parse_if_expression_spec,
    parse_infix_expression_spec, parse_let_statement_spec, parse_more_expressions_spec,
    parse_more_parameters_spec, parse_prefix_expression_spec, parse_prefix_spec,
    parse_return_statement_spec, parse_statement_spec, parse_statements_spec, precedence_of,
    synchronize_spec, InfixParseFn, ParserState, Precedence,
};
use crate::lexer_laws::{all_lexer_made, lexer_made};
use crate::printer::{
    all_lexical, lexical, lexical_block, lexical_expression, lexical_expressions, lexical_node,
};
use crate::token::{TokenType, TokenView};

verus! {

/// Whether every token before a parser is lexical or illegal.
pub open spec fn clean(s: ParserState) -> bool {
    all_lexer_made(s.tokens)
}

/// Moving the cursor keeps a clean state clean, and the tokens under and
/// behind the cursor of a clean state are lexical, illegal or the end of the
/// input.
pub proof fn lemma_clean(s: ParserState)
    requires
        clean(s),
    ensures
        clean(s.advance()),
        clean(s.advance().advance()),
        s.current() is Eof || lexer_made(s.current()),
        s.peek() is Eof || lexer_made(s.peek()),
{
    let once = s.advance();
    assert forall|i: int| 0 <= i < once.tokens.len() implies lexer_made(#[trigger] once.tokens[i]) by {
        assert(once.tokens[i] == s.tokens[i + 1]);
    }
    let twice = once.advance();
    assert forall|i: int| 0 <= i < twice.tokens.len() implies lexer_made(
        #[trigger] twice.tokens[i],
    ) by {
        assert(twice.tokens[i] == once.tokens[i + 1]);
    }
}

/// Parameter lists read from a clean state hold lexical names.
pub proof fn lemma_more_parameters_lexical(s: ParserState, names: Seq<TokenView>)
    requires
        clean(s),
        all_lexical(names),
    ensures
        clean(parse_more_parameters_spec(s, names).state),
        parse_more_parameters_spec(s, names).value matches Some(all) ==> all_lexical(all),
    decreases s.tokens.len(),
{
    lemma_clean(s);
    if s.peek() is Comma {
        let at_name = s.advance().advance();
        lemma_clean(at_name);
        if at_name.current() is Identifier {
            lemma_more_parameters_lexical(at_name, names.push(at_name.current()));
        }
    }
}

/// Parameter lists read from a clean state hold lexical names.
pub proof fn lemma_parameters_lexical(s: ParserState)
    requires
        clean(s),
    ensures
        clean(parse_function_parameters_spec(s).state),
        parse_function_parameters_spec(s).value matches Some(all) ==> all_lexical(all),
{
    lemma_clean(s);
    if s.current() is Identifier {
        lemma_more_parameters_lexical(s, seq![s.current()]);
    }
}

/// Skipping to the next statement keeps a clean state clean.
pub proof fn lemma_synchronize_clean(s: ParserState, in_block: bool)
    requires
        clean(s),
    ensures
        clean(synchronize_spec(s, in_block)),
    decreases s.tokens.len(),
{
    lemma_clean(s);
    if !s.at_end_of_statements(in_block) && !(s.current() is Semicolon) {
        lemma_synchronize_clean(s.advance(), in_block);
    }
}

/// What `parse_expression_spec` builds from a clean state is lexical.
pub proof fn lemma_expression_lexical(s: ParserState, precedence: Precedence)
    requires
        clean(s),
    ensures
        clean(parse_expression_spec(s, precedence).state),
        parse_expression_spec(s, precedence).value matches Some(e) ==> lexical_expression(e),
    decreases s.tokens.len(), 3nat,
{
    lemma_prefix_lexical(s);
    let left = parse_prefix_spec(s);
    if let Some(expression) = left.value {
        if left.state.tokens.len() <= s.tokens.len() {
            lemma_extend_lexical(left.state, expression, precedence);
        }
    }
}

/// What `parse_prefix_spec` builds from a clean state is lexical.
pub proof fn lemma_prefix_lexical(s: ParserState)
    requires
        clean(s),
    ensures
        clean(parse_prefix_spec(s).state),
        parse_prefix_spec(s).value matches Some(e) ==> lexical_expression(e),
    decreases s.tokens.len(), 2nat,
{
    lemma_clean(s);
    match s.current() {
        TokenView::Bang | TokenView::Minus => lemma_prefix_expression_lexical(s),
        TokenView::LeftParentesis => lemma_grouped_lexical(s),
        TokenView::LeftBracket => lemma_array_lexical(s),
        TokenView::If => lemma_if_lexical(s),
        TokenView::Function => lemma_function_lexical(s),
        _ => {},
    }
}

/// What `extend_expression_spec` builds from a clean state and a lexical
/// expression is lexical.
pub proof fn lemma_extend_lexical(s: ParserState, left: ExpressionView, precedence: Precedence)
    requires
        clean(s),
        lexical_expression(left),
    ensures
        clean(extend_expression_spec(s, left, precedence).state),
        extend_expression_spec(s, left, precedence).value matches Some(e) ==> lexical_expression(
            e,
        ),
    decreases s.tokens.len(), 2nat,
{
    lemma_clean(s);
    let next = s.peek();
    if !(next is Semicolon || precedence.rank() >= precedence_of(next).rank()) {
        match infix_handler(next) {
            None => {},
            Some(InfixParseFn::Infix) => {
                lemma_infix_lexical(s.advance(), left);
                let extended = parse_infix_expression_spec(s.advance(), left);
                if let Some(expression) = extended.value {
                    if extended.state.tokens.len() < s.tokens.len() {
                        lemma_extend_lexical(extended.state, expression, precedence);
                    }
                }
            },
            Some(InfixParseFn::Call) => {
                lemma_call_lexical(s.advance(), left);
                let extended = parse_call_expression_spec(s.advance(), left);
                if let Some(expression) = extended.value {
                    if extended.state.tokens.len() < s.tokens.len() {
                        lemma_extend_lexical(extended.state, expression, precedence);
                    }
                }
            },
        }
    }
}

/// What `parse_prefix_expression_spec` builds from a clean state is
/// lexical.
pub proof fn lemma_prefix_expression_lexical(s: ParserState)
    requires
        clean(s),
    ensures
        clean(parse_prefix_expression_spec(s).state),
        parse_prefix_expression_spec(s).value matches Some(e) ==> lexical_expression(e),
    decreases s.tokens.len(), 1nat,
{
    lemma_clean(s);
    let operator = s.current();
    if operator is Bang || operator is Minus {
        lemma_expression_lexical(s.advance(), Precedence::Prefix);
    }
}

/// What `parse_infix_expression_spec` builds from a clean state and a
/// lexical left operand is lexical.
pub proof fn lemma_infix_lexical(s: ParserState, left: ExpressionView)
    requires
        clean(s),
        lexical_expression(left),
    ensures
        clean(parse_infix_expression_spec(s, left).state),
        parse_infix_expression_spec(s, left).value matches Some(e) ==> lexical_expression(e),
    decreases s.tokens.len(), 1nat,
{
    lemma_clean(s);
    let operator = s.current();
    if infix_handler(operator) == Some(InfixParseFn::Infix) {
        lemma_expression_lexical(s.advance(), precedence_of(operator));
    }
}

/// What `parse_grouped_expression_spec` builds from a clean state is
/// lexical.
pub proof fn lemma_grouped_lexical(s: ParserState)
    requires
        clean(s),
    ensures
        clean(parse_grouped_expression_spec(s).state),
        parse_grouped_expression_spec(s).value matches Some(e) ==> lexical_expression(e),
    decreases s.tokens.len(), 1nat,
{
    lemma_clean(s);
    if s.current() is LeftParentesis {
        lemma_expression_lexical(s.advance(), Precedence::Lowest);
        lemma_clean(parse_expression_spec(s.advance(), Precedence::Lowest).state);
    }
}

/// What `parse_expression_list_spec` builds from a clean state is lexical.
pub proof fn lemma_list_lexical(s: ParserState, closing: TokenType)
    requires
        clean(s),
    ensures
        clean(parse_expression_list_spec(s, closing).state),
        parse_expression_list_spec(s, closing).value matches Some(items) ==> lexical_expressions(
            items,
        ),
    decreases s.tokens.len(), 4nat,
{
    if s.current().kind() != closing {
        lemma_expression_lexical(s, Precedence::Lowest);
        let first = parse_expression_spec(s, Precedence::Lowest);
        if let Some(expression) = first.value {
            if first.state.tokens.len() <= s.tokens.len() {
                lemma_more_expressions_lexical(first.state, seq![expression], closing);
            }
        }
    }
}

/// What `parse_more_expressions_spec` builds from a clean state and
/// lexical expressions is lexical.
pub proof fn lemma_more_expressions_lexical(
    s: ParserState,
    items: Seq<ExpressionView>,
    closing: TokenType,
)
    requires
        clean(s),
        lexical_expressions(items),
    ensures
        clean(parse_more_expressions_spec(s, items, closing).state),
        parse_more_expressions_spec(s, items, closing).value matches Some(all)
            ==> lexical_expressions(all),
    decreases s.tokens.len(), 0nat,
{
    lemma_clean(s);
    if s.peek() is Comma {
        lemma_expression_lexical(s.advance().advance(), Precedence::Lowest);
        let item = parse_expression_spec(s.advance().advance(), Precedence::Lowest);
        if let Some(expression) = item.value {
            if item.state.tokens.len() < s.tokens.len() {
                lemma_more_expressions_lexical(item.state, items.push(expression), closing);
            }
        }
    }
}

/// What `parse_array_expression_spec` builds from a clean state is
/// lexical.
pub proof fn lemma_array_lexical(s: ParserState)
    requires
        clean(s),
    ensures
        clean(parse_array_expression_spec(s).state),
        parse_array_expression_spec(s).value matches Some(e) ==> lexical_expression(e),
    decreases s.tokens.len(), 1nat,
{
    lemma_clean(s);
    if s.current() is LeftBracket {
        lemma_list_lexical(s.advance(), TokenType::RightBracket);
    }
}

/// What `parse_call_expression_spec` builds from a clean state and a
/// lexical callee is lexical.
pub proof fn lemma_call_lexical(s: ParserState, function: ExpressionView)
    requires
        clean(s),
        lexical_expression(function),
    ensures
        clean(parse_call_expression_spec(s, function).state),
        parse_call_expression_spec(s, function).value matches Some(e) ==> lexical_expression(e),
    decreases s.tokens.len(), 1nat,
{
    lemma_clean(s);
    if s.current() is LeftParentesis {
        lemma_list_lexical(s.advance(), TokenType::RightParentesis);
    }
}

/// What `parse_if_expression_spec` builds from a clean state is lexical.
pub proof fn lemma_if_lexical(s: ParserState)
    requires
        clean(s),
    ensures
        clean(parse_if_expression_spec(s).state),
        parse_if_expression_spec(s).value matches Some(e) ==> lexical_expression(e),
    decreases s.tokens.len(), 1nat,
{
    lemma_clean(s);
    if s.current() is If && s.peek() is LeftParentesis {
        lemma_expression_lexical(s.advance().advance(), Precedence::Lowest);
        let condition = parse_expression_spec(s.advance().advance(), Precedence::Lowest);
        lemma_clean(condition.state);
        if condition.value is Some && condition.state.tokens.len() <= s.tokens.len()
            && condition.state.peek() is RightParentesis {
            let at_close = condition.state.advance();
            if at_close.peek() is LeftBrace {
                lemma_block_lexical(at_close.advance());
                let consequence = parse_block_statement_spec(at_close.advance());
                lemma_clean(consequence.state);
                if consequence.value is Some && consequence.state.peek() is Else
                    && consequence.state.tokens.len() <= s.tokens.len() {
                    let at_else = consequence.state.advance();
                    if at_else.peek() is LeftBrace {
                        lemma_block_lexical(at_else.advance());
                    }
                }
            }
        }
    }
}

/// What `parse_function_expression_spec` builds from a clean state is
/// lexical.
pub proof fn lemma_function_lexical(s: ParserState)
    requires
        clean(s),
    ensures
        clean(parse_function_expression_spec(s).state),
        parse_function_expression_spec(s).value matches Some(e) ==> lexical_expression(e),
    decreases s.tokens.len(), 1nat,
{
    lemma_clean(s);
    if s.current() is Function && s.peek() is LeftParentesis {
        lemma_parameters_lexical(s.advance().advance());
        let parameters = parse_function_parameters_spec(s.advance().advance());
        lemma_clean(parameters.state);
        if parameters.value is Some && parameters.state.tokens.len() <= s.tokens.len()
            && parameters.state.peek() is LeftBrace {
            lemma_block_lexical(parameters.state.advance());
        }
    }
}

/// What `parse_block_statement_spec` builds from a clean state is lexical.
pub proof fn lemma_block_lexical(s: ParserState)
    requires
        clean(s),
    ensures
        clean(parse_block_statement_spec(s).state),
        parse_block_statement_spec(s).value matches Some(nodes) ==> lexical_block(nodes),
    decreases s.tokens.len(), 8nat,
{
    lemma_clean(s);
    if s.current() is LeftBrace {
        lemma_statements_lexical(s.advance(), Seq::empty(), true);
    }
}

/// What `parse_statements_spec` adds to lexical statements from a clean
/// state is lexical.
pub proof fn lemma_statements_lexical(s: ParserState, done: Seq<AstNodeView>, in_block: bool)
    requires
        clean(s),
        lexical_block(done),
    ensures
        clean(parse_statements_spec(s, done, in_block).1),
        lexical_block(parse_statements_spec(s, done, in_block).0),
    decreases s.tokens.len(), 7nat,
{
    if !s.at_end_of_statements(in_block) {
        lemma_statement_lexical(s);
        let statement = parse_statement_spec(s);
        lemma_clean(statement.state);
        match statement.value {
            Some(node) => {
                let next = statement.state.advance();
                if next.tokens.len() < s.tokens.len() {
                    lemma_statements_lexical(next, done.push(node), in_block);
                }
            },
            None => {
                lemma_synchronize_clean(statement.state, in_block);
                let next = synchronize_spec(statement.state, in_block);
                if next.tokens.len() < s.tokens.len() {
                    lemma_statements_lexical(next, done, in_block);
                }
            },
        }
    }
}

/// What `parse_statement_spec` builds from a clean state is lexical.
pub proof fn lemma_statement_lexical(s: ParserState)
    requires
        clean(s),
    ensures
        clean(parse_statement_spec(s).state),
        parse_statement_spec(s).value matches Some(node) ==> lexical_node(node),
    decreases s.tokens.len(), 6nat,
{
    match s.current() {
        TokenView::Let => lemma_let_statement_lexical(s),
        TokenView::Return => lemma_return_statement_lexical(s),
        _ => lemma_expression_statement_lexical(s),
    }
}

/// What `parse_let_statement_spec` builds from a clean state is lexical.
pub proof fn lemma_let_statement_lexical(s: ParserState)
    requires
        clean(s),
    ensures
        clean(parse_let_statement_spec(s).state),
        parse_let_statement_spec(s).value matches Some(node) ==> lexical_node(node),
    decreases s.tokens.len(), 5nat,
{
    lemma_clean(s);
    let at_name = s.advance();
    lemma_clean(at_name);
    if s.peek() is Identifier && at_name.peek() is Assign {
        lemma_expression_lexical(at_name.advance().advance(), Precedence::Lowest);
        lemma_clean(parse_expression_spec(at_name.advance().advance(), Precedence::Lowest).state);
    }
}

/// What `parse_return_statement_spec` builds from a clean state is
/// lexical.
pub proof fn lemma_return_statement_lexical(s: ParserState)
    requires
        clean(s),
    ensures
        clean(parse_return_statement_spec(s).state),
        parse_return_statement_spec(s).value matches Some(node) ==> lexical_node(node),
    decreases s.tokens.len(), 5nat,
{
    lemma_clean(s);
    if s.peek() is Int {
        lemma_expression_lexical(s.advance(), Precedence::Lowest);
        lemma_clean(parse_expression_spec(s.advance(), Precedence::Lowest).state);
    }
}

/// What `parse_expression_statement_spec` builds from a clean state is
/// lexical.
pub proof fn lemma_expression_statement_lexical(s: ParserState)
    requires
        clean(s),
    ensures
        clean(parse_expression_statement_spec(s).state),
        parse_expression_statement_spec(s).value matches Some(node) ==> lexical_node(node),
    decreases s.tokens.len(), 5nat,
{
    lemma_expression_lexical(s, Precedence::Lowest);
    lemma_clean(parse_expression_spec(s, Precedence::Lowest).state);
}

} // verus!

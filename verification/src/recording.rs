//! Failures leave a record: a parsing function that builds nothing has
//! recorded at least one error, and no parsing function takes a recorded
//! error away.

use vstd::prelude::*;

use crate::ast::{AstNodeView, ExpressionView};
use crate::grammar::{
    extend_expression_spec, infix_handler, parse_array_expression_spec, parse_block_statement_spec,
    parse_call_expression_spec, parse_expression_list_spec, parse_expression_spec,
    parse_expression_statement_spec, parse_function_expression_spec,
    parse_function_parameters_spec, parse_grouped_expression_spec, parse_if_expression_spec,
    parse_infix_expression_spec, parse_let_statement_spec, parse_more_expressions_spec,
    parse_more_parameters_spec, parse_prefix_expression_spec, parse_prefix_spec,
    parse_program_spec, parse_return_statement_spec, parse_statement_spec, parse_statements_spec,
    precedence_of, synchronize_spec, InfixParseFn, Parsed, ParserState, Precedence,
};
use crate::printer::parseable_expression;
use crate::range::{
    lemma_block_in_range, lemma_call_in_range, lemma_expression_in_range, lemma_infix_in_range,
    lemma_parameters_in_range, lemma_prefix_in_range, lemma_statement_in_range,
    lemma_synchronize_in_range,
};
use crate::token::{TokenType, TokenView};

verus! {

/// Whether a parsing function that went from the state `before` to the
/// outcome `after` has kept the record: no error fewer than before, and at
/// least one more where it built nothing.
pub open spec fn recorded<T>(before: ParserState, after: Parsed<T>) -> bool {
    &&& before.errors.len() <= after.state.errors.len()
    &&& after.value is None ==> before.errors.len() < after.state.errors.len()
}

/// Reading further parameter names keeps the record.
pub proof fn lemma_more_parameters_recorded(s: ParserState, names: Seq<TokenView>)
    ensures
        recorded(s, parse_more_parameters_spec(s, names)),
    decreases s.tokens.len(),
{
    if s.peek() is Comma {
        let at_name = s.advance().advance();
        if at_name.current() is Identifier {
            lemma_more_parameters_recorded(at_name, names.push(at_name.current()));
        }
    }
}

/// Reading a parameter list keeps the record.
pub proof fn lemma_parameters_recorded(s: ParserState)
    ensures
        recorded(s, parse_function_parameters_spec(s)),
{
    if s.current() is Identifier {
        lemma_more_parameters_recorded(s, seq![s.current()]);
    }
}

/// Skipping to the next statement records nothing and takes nothing away.
pub proof fn lemma_synchronize_recorded(s: ParserState, in_block: bool)
    ensures
        synchronize_spec(s, in_block).errors == s.errors,
    decreases s.tokens.len(),
{
    if !s.at_end_of_statements(in_block) && !(s.current() is Semicolon) {
        lemma_synchronize_recorded(s.advance(), in_block);
    }
}

/// `parse_expression_spec` keeps the record.
pub proof fn lemma_expression_recorded(s: ParserState, precedence: Precedence)
    ensures
        recorded(s, parse_expression_spec(s, precedence)),
    decreases s.tokens.len(), 3nat,
{
    lemma_prefix_recorded(s);
    lemma_prefix_in_range(s);
    let left = parse_prefix_spec(s);
    if let Some(expression) = left.value {
        lemma_extend_recorded(left.state, expression, precedence);
    }
}

/// `parse_prefix_spec` keeps the record.
pub proof fn lemma_prefix_recorded(s: ParserState)
    ensures
        recorded(s, parse_prefix_spec(s)),
    decreases s.tokens.len(), 2nat,
{
    match s.current() {
        TokenView::Bang | TokenView::Minus => lemma_prefix_expression_recorded(s),
        TokenView::LeftParentesis => lemma_grouped_recorded(s),
        TokenView::LeftBracket => lemma_array_recorded(s),
        TokenView::If => lemma_if_recorded(s),
        TokenView::Function => lemma_function_recorded(s),
        _ => {},
    }
}

/// `extend_expression_spec` keeps the record.
pub proof fn lemma_extend_recorded(s: ParserState, left: ExpressionView, precedence: Precedence)
    requires
        parseable_expression(left),
    ensures
        recorded(s, extend_expression_spec(s, left, precedence)),
    decreases s.tokens.len(), 2nat,
{
    let next = s.peek();
    if !(next is Semicolon || precedence.rank() >= precedence_of(next).rank()) {
        match infix_handler(next) {
            None => {},
            Some(InfixParseFn::Infix) => {
                lemma_infix_recorded(s.advance(), left);
                lemma_infix_in_range(s.advance(), left);
                let extended = parse_infix_expression_spec(s.advance(), left);
                if let Some(expression) = extended.value {
                    lemma_extend_recorded(extended.state, expression, precedence);
                }
            },
            Some(InfixParseFn::Call) => {
                lemma_call_recorded(s.advance(), left);
                lemma_call_in_range(s.advance(), left);
                let extended = parse_call_expression_spec(s.advance(), left);
                if let Some(expression) = extended.value {
                    lemma_extend_recorded(extended.state, expression, precedence);
                }
            },
        }
    }
}

/// `parse_prefix_expression_spec` keeps the record.
pub proof fn lemma_prefix_expression_recorded(s: ParserState)
    ensures
        recorded(s, parse_prefix_expression_spec(s)),
    decreases s.tokens.len(), 1nat,
{
    let operator = s.current();
    if operator is Bang || operator is Minus {
        lemma_expression_recorded(s.advance(), Precedence::Prefix);
    }
}

/// `parse_infix_expression_spec` keeps the record.
pub proof fn lemma_infix_recorded(s: ParserState, left: ExpressionView)
    ensures
        recorded(s, parse_infix_expression_spec(s, left)),
    decreases s.tokens.len(), 1nat,
{
    let operator = s.current();
    if infix_handler(operator) == Some(InfixParseFn::Infix) {
        lemma_expression_recorded(s.advance(), precedence_of(operator));
    }
}

/// `parse_grouped_expression_spec` keeps the record.
pub proof fn lemma_grouped_recorded(s: ParserState)
    ensures
        recorded(s, parse_grouped_expression_spec(s)),
    decreases s.tokens.len(), 1nat,
{
    if s.current() is LeftParentesis {
        lemma_expression_recorded(s.advance(), Precedence::Lowest);
    }
}

/// `parse_expression_list_spec` keeps the record.
pub proof fn lemma_list_recorded(s: ParserState, closing: TokenType)
    ensures
        recorded(s, parse_expression_list_spec(s, closing)),
    decreases s.tokens.len(), 4nat,
{
    if s.current().kind() != closing {
        lemma_expression_recorded(s, Precedence::Lowest);
        lemma_expression_in_range(s, Precedence::Lowest);
        let first = parse_expression_spec(s, Precedence::Lowest);
        if let Some(expression) = first.value {
            lemma_more_expressions_recorded(first.state, seq![expression], closing);
        }
    }
}

/// `parse_more_expressions_spec` keeps the record.
pub proof fn lemma_more_expressions_recorded(
    s: ParserState,
    items: Seq<ExpressionView>,
    closing: TokenType,
)
    ensures
        recorded(s, parse_more_expressions_spec(s, items, closing)),
    decreases s.tokens.len(), 0nat,
{
    if s.peek() is Comma {
        let at_item = s.advance().advance();
        lemma_expression_recorded(at_item, Precedence::Lowest);
        lemma_expression_in_range(at_item, Precedence::Lowest);
        let item = parse_expression_spec(at_item, Precedence::Lowest);
        if let Some(expression) = item.value {
            lemma_more_expressions_recorded(item.state, items.push(expression), closing);
        }
    }
}

/// `parse_array_expression_spec` keeps the record.
pub proof fn lemma_array_recorded(s: ParserState)
    ensures
        recorded(s, parse_array_expression_spec(s)),
    decreases s.tokens.len(), 1nat,
{
    if s.current() is LeftBracket {
        lemma_list_recorded(s.advance(), TokenType::RightBracket);
    }
}

/// `parse_call_expression_spec` keeps the record.
pub proof fn lemma_call_recorded(s: ParserState, function: ExpressionView)
    ensures
        recorded(s, parse_call_expression_spec(s, function)),
    decreases s.tokens.len(), 1nat,
{
    if s.current() is LeftParentesis {
        lemma_list_recorded(s.advance(), TokenType::RightParentesis);
    }
}

/// `parse_if_expression_spec` keeps the record.
pub proof fn lemma_if_recorded(s: ParserState)
    ensures
        recorded(s, parse_if_expression_spec(s)),
    decreases s.tokens.len(), 1nat,
{
    if s.current() is If && s.peek() is LeftParentesis {
        let at_condition = s.advance().advance();
        lemma_expression_recorded(at_condition, Precedence::Lowest);
        lemma_expression_in_range(at_condition, Precedence::Lowest);
        let condition = parse_expression_spec(at_condition, Precedence::Lowest);
        if condition.value is Some && condition.state.peek() is RightParentesis {
            let at_close = condition.state.advance();
            if at_close.peek() is LeftBrace {
                lemma_block_recorded(at_close.advance());
                lemma_block_in_range(at_close.advance());
                let consequence = parse_block_statement_spec(at_close.advance());
                if consequence.value is Some && consequence.state.peek() is Else {
                    let at_else = consequence.state.advance();
                    if at_else.peek() is LeftBrace {
                        lemma_block_recorded(at_else.advance());
                    }
                }
            }
        }
    }
}

/// `parse_function_expression_spec` keeps the record.
pub proof fn lemma_function_recorded(s: ParserState)
    ensures
        recorded(s, parse_function_expression_spec(s)),
    decreases s.tokens.len(), 1nat,
{
    if s.current() is Function && s.peek() is LeftParentesis {
        let at_names = s.advance().advance();
        lemma_parameters_recorded(at_names);
        lemma_parameters_in_range(at_names);
        let parameters = parse_function_parameters_spec(at_names);
        if parameters.value is Some && parameters.state.peek() is LeftBrace {
            lemma_block_recorded(parameters.state.advance());
        }
    }
}

/// `parse_block_statement_spec` keeps the record.
pub proof fn lemma_block_recorded(s: ParserState)
    ensures
        recorded(s, parse_block_statement_spec(s)),
    decreases s.tokens.len(), 8nat,
{
    if s.current() is LeftBrace {
        lemma_statements_recorded(s.advance(), Seq::empty(), true);
    }
}

/// `parse_statements_spec` takes no recorded error away.
pub proof fn lemma_statements_recorded(s: ParserState, done: Seq<AstNodeView>, in_block: bool)
    ensures
        s.errors.len() <= parse_statements_spec(s, done, in_block).1.errors.len(),
    decreases s.tokens.len(), 7nat,
{
    if !s.at_end_of_statements(in_block) {
        lemma_statement_recorded(s);
        let statement = parse_statement_spec(s);
        match statement.value {
            Some(node) => {
                let next = statement.state.advance();
                if next.tokens.len() < s.tokens.len() {
                    lemma_statements_recorded(next, done.push(node), in_block);
                }
            },
            None => {
                lemma_synchronize_recorded(statement.state, in_block);
                let next = synchronize_spec(statement.state, in_block);
                if next.tokens.len() < s.tokens.len() {
                    lemma_statements_recorded(next, done, in_block);
                }
            },
        }
    }
}

/// `parse_statement_spec` keeps the record.
pub proof fn lemma_statement_recorded(s: ParserState)
    ensures
        recorded(s, parse_statement_spec(s)),
    decreases s.tokens.len(), 6nat,
{
    match s.current() {
        TokenView::Let => lemma_let_statement_recorded(s),
        TokenView::Return => lemma_return_statement_recorded(s),
        _ => lemma_expression_statement_recorded(s),
    }
}

/// `parse_let_statement_spec` keeps the record.
pub proof fn lemma_let_statement_recorded(s: ParserState)
    ensures
        recorded(s, parse_let_statement_spec(s)),
    decreases s.tokens.len(), 5nat,
{
    let at_name = s.advance();
    if s.peek() is Identifier && at_name.peek() is Assign {
        lemma_expression_recorded(at_name.advance().advance(), Precedence::Lowest);
    }
}

/// `parse_return_statement_spec` keeps the record.
pub proof fn lemma_return_statement_recorded(s: ParserState)
    ensures
        recorded(s, parse_return_statement_spec(s)),
    decreases s.tokens.len(), 5nat,
{
    if s.peek() is Int {
        lemma_expression_recorded(s.advance(), Precedence::Lowest);
    }
}

/// `parse_expression_statement_spec` keeps the record.
pub proof fn lemma_expression_statement_recorded(s: ParserState)
    ensures
        recorded(s, parse_expression_statement_spec(s)),
    decreases s.tokens.len(), 5nat,
{
    lemma_expression_recorded(s, Precedence::Lowest);
}

/// A statement that fails to parse leaves a record, and parsing goes on:
/// where the first statement of a program fails, at least one error more is
/// recorded than before, the statement is left out, and the program is what
/// the statements behind the next semicolon make of it.
pub proof fn law_failed_statement_is_recorded_and_skipped(s: ParserState, done: Seq<AstNodeView>)
    requires
        !(s.current() is Eof),
        parse_statement_spec(s).value is None,
    ensures
        s.errors.len() < parse_statement_spec(s).state.errors.len(),
        parse_statements_spec(s, done, false) == parse_statements_spec(
            synchronize_spec(parse_statement_spec(s).state, false),
            done,
            false,
        ),
        parse_statement_spec(s).state.errors.len() <= parse_statements_spec(
            s,
            done,
            false,
        ).1.errors.len(),
{
    lemma_statement_recorded(s);
    lemma_statement_in_range(s);
    let failed_at = parse_statement_spec(s).state;
    lemma_synchronize_in_range(failed_at, false);
    lemma_synchronize_recorded(failed_at, false);
    let next = synchronize_spec(failed_at, false);
    lemma_statements_recorded(next, done, false);
    if !(next.tokens.len() < s.tokens.len()) {
        assert(next.at_end_of_statements(false)) by {
            lemma_synchronize_stops(failed_at, false);
        }
    }
}

/// Skipping to the next statement consumes a token, unless the statements
/// end where the skipping starts and where it stops.
pub proof fn lemma_synchronize_stops(s: ParserState, in_block: bool)
    ensures
        synchronize_spec(s, in_block).tokens.len() < s.tokens.len() || synchronize_spec(
            s,
            in_block,
        ).at_end_of_statements(in_block),
    decreases s.tokens.len(),
{
    if !s.at_end_of_statements(in_block) && !(s.current() is Semicolon) {
        lemma_synchronize_stops(s.advance(), in_block);
        lemma_synchronize_in_range(s.advance(), in_block);
    }
}

/// Parsing a program takes no recorded error away.
pub proof fn law_program_keeps_recorded_errors(s: ParserState)
    ensures
        s.errors.len() <= parse_program_spec(s).1.errors.len(),
{
    lemma_statements_recorded(s, Seq::empty(), false);
}

} // verus!

//! What the parser builds: every tree that comes out of the grammar is one
//! that the pretty-printer can print and the parser can read back, and no
//! parsing function lengthens the sequence of tokens before it.

use vstd::prelude::*;

use crate::ast::{AstNodeView, ExpressionView};
use crate::grammar::{
    extend_expression_spec, infix_handler, parse_array_expression_spec, parse_block_statement_spec,
    parse_call_expression_spec, parse_decimal, parse_expression_list_spec, parse_expression_spec,
    parse_expression_statement_spec, parse_function_expression_spec,
    parse_function_parameters_spec, parse_grouped_expression_spec, parse_if_expression_spec,
    parse_infix_expression_spec, parse_let_statement_spec, parse_more_expressions_spec,
    parse_more_parameters_spec, parse_prefix_expression_spec, parse_prefix_spec,
    parse_return_statement_spec, parse_statement_spec, parse_statements_spec, precedence_of,
    synchronize_spec, InfixParseFn, ParserState, Precedence,
};
use crate::printer::{
    bare_from_integer, outer_precedence, parseable_block, parseable_expression,
    parseable_expressions, parseable_node,
};
use crate::token::{TokenType, TokenView};

verus! {

/// Whether a parser that takes what binds tighter than `precedence` stops
/// before `token`.
pub open spec fn stops_before(token: TokenView, precedence: Precedence) -> bool {
    token is Semicolon || precedence.rank() >= precedence_of(token).rank()
}

/// Parameter lists never lengthen the tokens, and hold identifiers only.
pub proof fn lemma_more_parameters_in_range(s: ParserState, names: Seq<TokenView>)
    requires
        forall|i: int| 0 <= i < names.len() ==> (#[trigger] names[i]) is Identifier,
    ensures
        parse_more_parameters_spec(s, names).state.tokens.len() <= s.tokens.len(),
        parse_more_parameters_spec(s, names).value matches Some(all) ==> forall|i: int|
            0 <= i < all.len() ==> (#[trigger] all[i]) is Identifier,
    decreases s.tokens.len(),
{
    if s.peek() is Comma {
        let at_name = s.advance().advance();
        if at_name.current() is Identifier {
            lemma_more_parameters_in_range(at_name, names.push(at_name.current()));
        }
    }
}

/// Parameter lists never lengthen the tokens, and hold identifiers only.
pub proof fn lemma_parameters_in_range(s: ParserState)
    ensures
        parse_function_parameters_spec(s).state.tokens.len() <= s.tokens.len(),
        parse_function_parameters_spec(s).value matches Some(all) ==> forall|i: int|
            0 <= i < all.len() ==> (#[trigger] all[i]) is Identifier,
{
    if s.current() is Identifier {
        lemma_more_parameters_in_range(s, seq![s.current()]);
    }
}

/// Skipping to the next statement never lengthens the tokens.
pub proof fn lemma_synchronize_in_range(s: ParserState, in_block: bool)
    ensures
        synchronize_spec(s, in_block).tokens.len() <= s.tokens.len(),
    decreases s.tokens.len(),
{
    if !s.at_end_of_statements(in_block) && !(s.current() is Semicolon) {
        lemma_synchronize_in_range(s.advance(), in_block);
    }
}

/// What `parse_expression_spec` builds is parseable; it stops before what
/// binds no tighter than its level; and from an integer literal it builds
/// what can be printed bare.
pub proof fn lemma_expression_in_range(s: ParserState, precedence: Precedence)
    ensures
        parse_expression_spec(s, precedence).state.tokens.len() <= s.tokens.len(),
        parse_expression_spec(s, precedence).value matches Some(e) ==> {
            &&& parseable_expression(e)
            &&& stops_before(parse_expression_spec(s, precedence).state.peek(), precedence)
            &&& s.current() is Int ==> bare_from_integer(e)
        },
    decreases s.tokens.len(), 3nat,
{
    lemma_prefix_in_range(s);
    let left = parse_prefix_spec(s);
    if let Some(expression) = left.value {
        lemma_extend_in_range(left.state, expression, precedence);
    }
}

/// What `parse_prefix_spec` builds is parseable.
pub proof fn lemma_prefix_in_range(s: ParserState)
    ensures
        parse_prefix_spec(s).state.tokens.len() <= s.tokens.len(),
        parse_prefix_spec(s).value matches Some(e) ==> {
            &&& parseable_expression(e)
            &&& s.current() is Int ==> e is Int && parse_prefix_spec(s).state == s
        },
    decreases s.tokens.len(), 2nat,
{
    match s.current() {
        TokenView::Bang | TokenView::Minus => lemma_prefix_expression_in_range(s),
        TokenView::LeftParentesis => lemma_grouped_in_range(s),
        TokenView::LeftBracket => lemma_array_in_range(s),
        TokenView::If => lemma_if_in_range(s),
        TokenView::Function => lemma_function_in_range(s),
        TokenView::Int(digits) => {
            if parse_decimal(digits) is Some {
                crate::parser::lemma_decimal_value_nonnegative(digits);
            }
        },
        _ => {},
    }
}

/// What `extend_expression_spec` builds from a parseable expression is
/// parseable, and can be printed bare where the expression can and the
/// parser has stopped before what binds no tighter than it.
pub proof fn lemma_extend_in_range(s: ParserState, left: ExpressionView, precedence: Precedence)
    requires
        parseable_expression(left),
    ensures
        extend_expression_spec(s, left, precedence).state.tokens.len() <= s.tokens.len(),
        extend_expression_spec(s, left, precedence).value matches Some(e) ==> {
            &&& parseable_expression(e)
            &&& stops_before(extend_expression_spec(s, left, precedence).state.peek(), precedence)
            &&& bare_from_integer(left) && stops_before(s.peek(), outer_precedence(left))
                ==> bare_from_integer(e)
        },
    decreases s.tokens.len(), 2nat,
{
    let next = s.peek();
    if !(next is Semicolon || precedence.rank() >= precedence_of(next).rank()) {
        match infix_handler(next) {
            None => {},
            Some(InfixParseFn::Infix) => {
                lemma_infix_in_range(s.advance(), left);
                let extended = parse_infix_expression_spec(s.advance(), left);
                if let Some(expression) = extended.value {
                    if extended.state.tokens.len() < s.tokens.len() {
                        lemma_extend_in_range(extended.state, expression, precedence);
                    }
                }
            },
            Some(InfixParseFn::Call) => {
                lemma_call_in_range(s.advance(), left);
                let extended = parse_call_expression_spec(s.advance(), left);
                if let Some(expression) = extended.value {
                    if extended.state.tokens.len() < s.tokens.len() {
                        lemma_extend_in_range(extended.state, expression, precedence);
                    }
                }
            },
        }
    }
}

/// What `parse_prefix_expression_spec` builds is parseable.
pub proof fn lemma_prefix_expression_in_range(s: ParserState)
    ensures
        parse_prefix_expression_spec(s).state.tokens.len() <= s.tokens.len(),
        parse_prefix_expression_spec(s).value matches Some(e) ==> parseable_expression(e),
    decreases s.tokens.len(), 1nat,
{
    let operator = s.current();
    if operator is Bang || operator is Minus {
        lemma_expression_in_range(s.advance(), Precedence::Prefix);
    }
}

/// What `parse_infix_expression_spec` builds is a parseable binary
/// operation with the given left operand, behind which the parser has
/// stopped before what binds no tighter than the operator.
pub proof fn lemma_infix_in_range(s: ParserState, left: ExpressionView)
    requires
        parseable_expression(left),
    ensures
        parse_infix_expression_spec(s, left).state.tokens.len() <= s.tokens.len(),
        infix_handler(s.current()) == Some(InfixParseFn::Infix) ==> parse_infix_expression_spec(
            s,
            left,
        ).state.tokens.len() < s.tokens.len(),
        parse_infix_expression_spec(s, left).value matches Some(e) ==> {
            &&& parseable_expression(e)
            &&& e matches ExpressionView::Infix { operator, left: l, .. } && operator
                == s.current() && *l == left
            &&& stops_before(
                parse_infix_expression_spec(s, left).state.peek(),
                precedence_of(s.current()),
            )
        },
    decreases s.tokens.len(), 1nat,
{
    let operator = s.current();
    if infix_handler(operator) == Some(InfixParseFn::Infix) {
        lemma_expression_in_range(s.advance(), precedence_of(operator));
    }
}

/// What `parse_grouped_expression_spec` builds is parseable.
pub proof fn lemma_grouped_in_range(s: ParserState)
    ensures
        parse_grouped_expression_spec(s).state.tokens.len() <= s.tokens.len(),
        parse_grouped_expression_spec(s).value matches Some(e) ==> parseable_expression(e),
    decreases s.tokens.len(), 1nat,
{
    if s.current() is LeftParentesis {
        lemma_expression_in_range(s.advance(), Precedence::Lowest);
    }
}

/// What `parse_expression_list_spec` builds holds parseable expressions.
pub proof fn lemma_list_in_range(s: ParserState, closing: TokenType)
    ensures
        parse_expression_list_spec(s, closing).state.tokens.len() <= s.tokens.len(),
        parse_expression_list_spec(s, closing).value matches Some(items)
            ==> parseable_expressions(items),
    decreases s.tokens.len(), 4nat,
{
    if s.current().kind() != closing {
        lemma_expression_in_range(s, Precedence::Lowest);
        let first = parse_expression_spec(s, Precedence::Lowest);
        if let Some(expression) = first.value {
            lemma_more_expressions_in_range(first.state, seq![expression], closing);
        }
    }
}

/// What `parse_more_expressions_spec` builds from parseable expressions
/// holds parseable expressions.
pub proof fn lemma_more_expressions_in_range(
    s: ParserState,
    items: Seq<ExpressionView>,
    closing: TokenType,
)
    requires
        parseable_expressions(items),
    ensures
        parse_more_expressions_spec(s, items, closing).state.tokens.len() <= s.tokens.len(),
        parse_more_expressions_spec(s, items, closing).value matches Some(all)
            ==> parseable_expressions(all),
    decreases s.tokens.len(), 0nat,
{
    if s.peek() is Comma {
        lemma_expression_in_range(s.advance().advance(), Precedence::Lowest);
        let item = parse_expression_spec(s.advance().advance(), Precedence::Lowest);
        if let Some(expression) = item.value {
            if item.state.tokens.len() < s.tokens.len() {
                lemma_more_expressions_in_range(item.state, items.push(expression), closing);
            }
        }
    }
}

/// What `parse_array_expression_spec` builds is parseable.
pub proof fn lemma_array_in_range(s: ParserState)
    ensures
        parse_array_expression_spec(s).state.tokens.len() <= s.tokens.len(),
        parse_array_expression_spec(s).value matches Some(e) ==> parseable_expression(e),
    decreases s.tokens.len(), 1nat,
{
    if s.current() is LeftBracket {
        lemma_list_in_range(s.advance(), TokenType::RightBracket);
    }
}

/// What `parse_call_expression_spec` builds is a parseable call of the
/// given callee.
pub proof fn lemma_call_in_range(s: ParserState, function: ExpressionView)
    requires
        parseable_expression(function),
    ensures
        parse_call_expression_spec(s, function).state.tokens.len() <= s.tokens.len(),
        s.current() is LeftParentesis ==> parse_call_expression_spec(
            s,
            function,
        ).state.tokens.len() < s.tokens.len(),
        parse_call_expression_spec(s, function).value matches Some(e) ==> {
            &&& parseable_expression(e)
            &&& e matches ExpressionView::CallExpression { function: f, .. } && *f == function
        },
    decreases s.tokens.len(), 1nat,
{
    if s.current() is LeftParentesis {
        lemma_list_in_range(s.advance(), TokenType::RightParentesis);
    }
}

/// What `parse_if_expression_spec` builds is parseable.
pub proof fn lemma_if_in_range(s: ParserState)
    ensures
        parse_if_expression_spec(s).state.tokens.len() <= s.tokens.len(),
        parse_if_expression_spec(s).value matches Some(e) ==> parseable_expression(e),
    decreases s.tokens.len(), 1nat,
{
    if s.current() is If && s.peek() is LeftParentesis {
        lemma_expression_in_range(s.advance().advance(), Precedence::Lowest);
        let condition = parse_expression_spec(s.advance().advance(), Precedence::Lowest);
        if condition.value is Some && condition.state.tokens.len() <= s.tokens.len()
            && condition.state.peek() is RightParentesis {
            let at_close = condition.state.advance();
            if at_close.peek() is LeftBrace {
                lemma_block_in_range(at_close.advance());
                let consequence = parse_block_statement_spec(at_close.advance());
                if consequence.value is Some && consequence.state.peek() is Else
                    && consequence.state.tokens.len() <= s.tokens.len() {
                    let at_else = consequence.state.advance();
                    if at_else.peek() is LeftBrace {
                        lemma_block_in_range(at_else.advance());
                    }
                }
            }
        }
    }
}

/// What `parse_function_expression_spec` builds is parseable.
pub proof fn lemma_function_in_range(s: ParserState)
    ensures
        parse_function_expression_spec(s).state.tokens.len() <= s.tokens.len(),
        parse_function_expression_spec(s).value matches Some(e) ==> parseable_expression(e),
    decreases s.tokens.len(), 1nat,
{
    if s.current() is Function && s.peek() is LeftParentesis {
        lemma_parameters_in_range(s.advance().advance());
        let parameters = parse_function_parameters_spec(s.advance().advance());
        if parameters.value is Some && parameters.state.tokens.len() <= s.tokens.len()
            && parameters.state.peek() is LeftBrace {
            lemma_block_in_range(parameters.state.advance());
        }
    }
}

/// What `parse_block_statement_spec` builds is a block of parseable
/// statements.
pub proof fn lemma_block_in_range(s: ParserState)
    ensures
        parse_block_statement_spec(s).state.tokens.len() <= s.tokens.len(),
        parse_block_statement_spec(s).value matches Some(nodes) ==> parseable_block(nodes),
    decreases s.tokens.len(), 8nat,
{
    if s.current() is LeftBrace {
        lemma_statements_in_range(s.advance(), Seq::empty(), true);
    }
}

/// What `parse_statements_spec` adds to parseable statements are parseable
/// statements.
pub proof fn lemma_statements_in_range(s: ParserState, done: Seq<AstNodeView>, in_block: bool)
    requires
        parseable_block(done),
    ensures
        parse_statements_spec(s, done, in_block).1.tokens.len() <= s.tokens.len(),
        parseable_block(parse_statements_spec(s, done, in_block).0),
    decreases s.tokens.len(), 7nat,
{
    if !s.at_end_of_statements(in_block) {
        lemma_statement_in_range(s);
        let statement = parse_statement_spec(s);
        match statement.value {
            Some(node) => {
                let next = statement.state.advance();
                if next.tokens.len() < s.tokens.len() {
                    lemma_statements_in_range(next, done.push(node), in_block);
                }
            },
            None => {
                lemma_synchronize_in_range(statement.state, in_block);
                let next = synchronize_spec(statement.state, in_block);
                if next.tokens.len() < s.tokens.len() {
                    lemma_statements_in_range(next, done, in_block);
                }
            },
        }
    }
}

/// What `parse_statement_spec` builds is a parseable statement.
pub proof fn lemma_statement_in_range(s: ParserState)
    ensures
        parse_statement_spec(s).state.tokens.len() <= s.tokens.len(),
        parse_statement_spec(s).value matches Some(node) ==> parseable_node(node),
    decreases s.tokens.len(), 6nat,
{
    match s.current() {
        TokenView::Let => lemma_let_statement_in_range(s),
        TokenView::Return => lemma_return_statement_in_range(s),
        _ => lemma_expression_statement_in_range(s),
    }
}

/// What `parse_let_statement_spec` builds is a parseable statement.
pub proof fn lemma_let_statement_in_range(s: ParserState)
    ensures
        parse_let_statement_spec(s).state.tokens.len() <= s.tokens.len(),
        parse_let_statement_spec(s).value matches Some(node) ==> parseable_node(node),
    decreases s.tokens.len(), 5nat,
{
    let at_name = s.advance();
    if s.peek() is Identifier && at_name.peek() is Assign {
        lemma_expression_in_range(at_name.advance().advance(), Precedence::Lowest);
    }
}

/// What `parse_return_statement_spec` builds is a parseable statement.
pub proof fn lemma_return_statement_in_range(s: ParserState)
    ensures
        parse_return_statement_spec(s).state.tokens.len() <= s.tokens.len(),
        parse_return_statement_spec(s).value matches Some(node) ==> parseable_node(node),
    decreases s.tokens.len(), 5nat,
{
    if s.peek() is Int {
        lemma_expression_in_range(s.advance(), Precedence::Lowest);
    }
}

/// What `parse_expression_statement_spec` builds is a parseable statement.
pub proof fn lemma_expression_statement_in_range(s: ParserState)
    ensures
        parse_expression_statement_spec(s).state.tokens.len() <= s.tokens.len(),
        parse_expression_statement_spec(s).value matches Some(node) ==> parseable_node(node),
    decreases s.tokens.len(), 5nat,
{
    lemma_expression_in_range(s, Precedence::Lowest);
}

} // verus!

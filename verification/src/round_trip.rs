//! Printing and parsing are inverse to each other: the tokens that the
//! pretty-printer gives for a tree parse back to that tree.

use vstd::prelude::*;

use crate::ast::{AstNodeView, ExpressionView, StatementView};
use crate::grammar::{
    decimal_value, digit_value, extend_expression_spec, infix_handler, is_decimal,
    parse_array_expression_spec, parse_block_statement_spec, parse_call_expression_spec,
    parse_expression_list_spec, parse_expression_spec, parse_expression_statement_spec,
    parse_function_expression_spec, parse_function_parameters_spec, parse_grouped_expression_spec,
    parse_if_expression_spec, parse_infix_expression_spec, parse_let_statement_spec,
    parse_more_expressions_spec, parse_more_parameters_spec, parse_prefix_expression_spec,
    parse_prefix_spec, parse_return_statement_spec, parse_statement_spec, parse_statements_spec,
    parsed, precedence_of, prefix_handler, skip_semicolon_spec, InfixParseFn, Parsed, ParserState,
    Precedence,
};
use crate::lexer::digit;
use crate::printer::{
    bare_from_integer, bare_tokens, block_tokens, calls_from_integer, expression_tokens,
    last_token, list_tokens_from, node_tokens, nodes_tokens_from, parameter_tokens_from,
    parseable_block, parseable_expression, parseable_expressions, parseable_node,
};
use crate::text::{digit_char, natural_text};
use crate::token::{TokenType, TokenView};

verus! {

/// `parse_prefix_spec`, kept folded in the proofs of this module.
#[verifier::opaque]
pub open spec fn prefix_parse(s: ParserState) -> Parsed<ExpressionView> {
    parse_prefix_spec(s)
}

/// `parse_expression_spec`, kept folded in the proofs of this module.
#[verifier::opaque]
pub open spec fn expression_parse(s: ParserState, precedence: Precedence) -> Parsed<
    ExpressionView,
> {
    parse_expression_spec(s, precedence)
}

/// `extend_expression_spec`, kept folded in the proofs of this module.
#[verifier::opaque]
pub open spec fn expression_extension(
    s: ParserState,
    left: ExpressionView,
    precedence: Precedence,
) -> Parsed<ExpressionView> {
    extend_expression_spec(s, left, precedence)
}

/// `parse_expression_list_spec`, kept folded in the proofs of this module.
#[verifier::opaque]
pub open spec fn list_parse(s: ParserState, closing: TokenType) -> Parsed<Seq<ExpressionView>> {
    parse_expression_list_spec(s, closing)
}

/// `parse_more_expressions_spec`, kept folded in the proofs of this module.
#[verifier::opaque]
pub open spec fn more_expressions_parse(
    s: ParserState,
    items: Seq<ExpressionView>,
    closing: TokenType,
) -> Parsed<Seq<ExpressionView>> {
    parse_more_expressions_spec(s, items, closing)
}

/// `parse_block_statement_spec`, kept folded in the proofs of this module.
#[verifier::opaque]
pub open spec fn block_parse(s: ParserState) -> Parsed<Seq<AstNodeView>> {
    parse_block_statement_spec(s)
}

/// `parse_statements_spec`, kept folded in the proofs of this module.
#[verifier::opaque]
pub open spec fn statements_parse(s: ParserState, done: Seq<AstNodeView>, in_block: bool) -> (
    Seq<AstNodeView>,
    ParserState,
) {
    parse_statements_spec(s, done, in_block)
}

/// `parse_statement_spec`, kept folded in the proofs of this module.
#[verifier::opaque]
pub open spec fn statement_parse(s: ParserState) -> Parsed<AstNodeView> {
    parse_statement_spec(s)
}

/// `parse_infix_expression_spec`, kept folded in the proofs of this module.
#[verifier::opaque]
pub open spec fn infix_parse(s: ParserState, left: ExpressionView) -> Parsed<ExpressionView> {
    parse_infix_expression_spec(s, left)
}

/// `parse_call_expression_spec`, kept folded in the proofs of this module.
#[verifier::opaque]
pub open spec fn call_parse(s: ParserState, function: ExpressionView) -> Parsed<ExpressionView> {
    parse_call_expression_spec(s, function)
}

/// `parse_function_parameters_spec`, kept folded in the proofs of this
/// module.
#[verifier::opaque]
pub open spec fn parameters_parse(s: ParserState) -> Parsed<Seq<TokenView>> {
    parse_function_parameters_spec(s)
}

/// `parse_more_parameters_spec`, kept folded in the proofs of this module.
#[verifier::opaque]
pub open spec fn more_parameters_parse(s: ParserState, names: Seq<TokenView>) -> Parsed<
    Seq<TokenView>,
> {
    parse_more_parameters_spec(s, names)
}

/// `parse_if_expression_spec`, kept folded in the proofs of this module.
#[verifier::opaque]
pub open spec fn conditional_parse(s: ParserState) -> Parsed<ExpressionView> {
    parse_if_expression_spec(s)
}

/// Unfolds the parsing functions that this module keeps folded.
pub proof fn lemma_unfold_parsing()
    ensures
        forall|s: ParserState| #[trigger] prefix_parse(s) == parse_prefix_spec(s),
        forall|s: ParserState, p: Precedence| #[trigger]
            expression_parse(s, p) == parse_expression_spec(s, p),
        forall|s: ParserState, l: ExpressionView, p: Precedence| #[trigger]
            expression_extension(s, l, p) == extend_expression_spec(s, l, p),
        forall|s: ParserState, c: TokenType| #[trigger]
            list_parse(s, c) == parse_expression_list_spec(s, c),
        forall|s: ParserState, i: Seq<ExpressionView>, c: TokenType| #[trigger]
            more_expressions_parse(s, i, c) == parse_more_expressions_spec(s, i, c),
        forall|s: ParserState| #[trigger] block_parse(s) == parse_block_statement_spec(s),
        forall|s: ParserState, d: Seq<AstNodeView>, b: bool| #[trigger]
            statements_parse(s, d, b) == parse_statements_spec(s, d, b),
        forall|s: ParserState| #[trigger] statement_parse(s) == parse_statement_spec(s),
        forall|s: ParserState, l: ExpressionView| #[trigger]
            infix_parse(s, l) == parse_infix_expression_spec(s, l),
        forall|s: ParserState, l: ExpressionView| #[trigger]
            call_parse(s, l) == parse_call_expression_spec(s, l),
        forall|s: ParserState| #[trigger]
            parameters_parse(s) == parse_function_parameters_spec(s),
        forall|s: ParserState, n: Seq<TokenView>| #[trigger]
            more_parameters_parse(s, n) == parse_more_parameters_spec(s, n),
        forall|s: ParserState| #[trigger] conditional_parse(s) == parse_if_expression_spec(s),
{
    reveal(prefix_parse);
    reveal(expression_parse);
    reveal(expression_extension);
    reveal(list_parse);
    reveal(more_expressions_parse);
    reveal(block_parse);
    reveal(statements_parse);
    reveal(statement_parse);
    reveal(infix_parse);
    reveal(call_parse);
    reveal(parameters_parse);
    reveal(more_parameters_parse);
    reveal(conditional_parse);
}


/// The decimal digits of a natural number denote that number.
pub proof fn lemma_natural_text_denotes(n: nat)
    ensures
        is_decimal(natural_text(n)),
        decimal_value(natural_text(n)) == n,
    decreases n,
{
    let d = digit_char((n % 10) as int);
    assert(digit(d) && digit_value(d) == n % 10);
    if n < 10 {
        let text = seq![d];
        assert(text.drop_last() =~= Seq::<char>::empty());
        assert(decimal_value(text.drop_last()) == 0);
    } else {
        lemma_natural_text_denotes(n / 10);
        let front = natural_text(n / 10);
        let text = front.push(d);
        assert(text.drop_last() =~= front);
        assert(text.last() == d);
        assert forall|i: int| 0 <= i < text.len() implies digit(#[trigger] text[i]) by {
            if i < front.len() {
                assert(text[i] == front[i]);
            }
        }
    }
}

/// A parser state with the given tokens and errors.
pub open spec fn state_of(tokens: Seq<TokenView>, errors: Seq<Seq<char>>) -> ParserState {
    ParserState { tokens, errors }
}

/// Whether an expression that is followed by the tokens `rest` ends where
/// they begin, for a parser that takes what binds tighter than `precedence`:
/// nothing follows, or a semicolon, or a token that binds no tighter.
pub open spec fn ends_before(rest: Seq<TokenView>, precedence: Precedence) -> bool {
    rest.len() == 0 || rest[0] is Semicolon || precedence.rank() >= precedence_of(rest[0]).rank()
}

/// The tokens of an expression are at least one, and the first of them
/// starts an expression and closes no list.
pub proof fn lemma_expression_tokens_start(e: ExpressionView)
    ensures
        expression_tokens(e).len() >= 1,
        prefix_handler(expression_tokens(e)[0]) is Some,
        !(expression_tokens(e)[0] is RightParentesis),
        !(expression_tokens(e)[0] is RightBracket),
        !(expression_tokens(e)[0] is RightBrace),
        !(expression_tokens(e)[0] is Let),
        !(expression_tokens(e)[0] is Return),
        !(expression_tokens(e)[0] is Eof),
{
}

/// An expression in parentheses parses as the expression, where the
/// tokens behind the opening parenthesis are given as one sequence.
pub proof fn lemma_grouped_after(
    inner: ExpressionView,
    behind_open: Seq<TokenView>,
    inner_last: TokenView,
    rest: Seq<TokenView>,
    errors: Seq<Seq<char>>,
)
    requires
        expression_parse(state_of(behind_open, errors), Precedence::Lowest) == parsed(
            inner,
            state_of(seq![inner_last] + (seq![TokenView::RightParentesis] + rest), errors),
        ),
    ensures
        prefix_parse(state_of(seq![TokenView::LeftParentesis] + behind_open, errors))
            == parsed(inner, state_of(seq![TokenView::RightParentesis] + rest, errors)),
{
    lemma_unfold_parsing();
    let start = state_of(seq![TokenView::LeftParentesis] + behind_open, errors);
    assert(start.current() is LeftParentesis);
    assert(start.advance().tokens =~= behind_open);
    let after = state_of(seq![inner_last] + (seq![TokenView::RightParentesis] + rest), errors);
    assert(after.peek() is RightParentesis);
    assert(after.advance().tokens =~= seq![TokenView::RightParentesis] + rest);
    assert(parse_grouped_expression_spec(start) == parsed(
        inner,
        state_of(seq![TokenView::RightParentesis] + rest, errors),
    ));
}

/// An expression that ends before what follows it is parsed as what its
/// first token starts.
pub proof fn lemma_expression_from_prefix(
    e: ExpressionView,
    tokens: Seq<TokenView>,
    last: TokenView,
    rest: Seq<TokenView>,
    errors: Seq<Seq<char>>,
    precedence: Precedence,
)
    requires
        tokens.len() >= 1,
        ends_before(rest, precedence),
        prefix_parse(state_of(tokens + rest, errors)) == parsed(
            e,
            state_of(seq![last] + rest, errors),
        ),
    ensures
        expression_parse(state_of(tokens + rest, errors), precedence) == parsed(
            e,
            state_of(seq![last] + rest, errors),
        ),
{
    lemma_unfold_parsing();
    let after = state_of(seq![last] + rest, errors);
    if rest.len() > 0 {
        assert(after.peek() == rest[0]);
    } else {
        assert(after.peek() is Eof);
    }
    assert(expression_extension(after, e, precedence) == parsed(e, after));
}

/// A unary operator in parentheses with its operand parses as the
/// operation.
pub proof fn lemma_prefix_operation(
    operator: TokenView,
    right: ExpressionView,
    right_tokens: Seq<TokenView>,
    right_last: TokenView,
    rest: Seq<TokenView>,
    errors: Seq<Seq<char>>,
)
    requires
        operator is Bang || operator is Minus,
        right_tokens.len() >= 1,
        expression_parse(
            state_of(right_tokens + (seq![TokenView::RightParentesis] + rest), errors),
            Precedence::Prefix,
        ) == parsed(
            right,
            state_of(seq![right_last] + (seq![TokenView::RightParentesis] + rest), errors),
        ),
    ensures
        prefix_parse(
            state_of(
                seq![TokenView::LeftParentesis] + (seq![operator] + (right_tokens + (seq![
                    TokenView::RightParentesis,
                ] + rest))),
                errors,
            ),
        ) == parsed(
            ExpressionView::Prefix { operator, right: Box::new(right) },
            state_of(seq![TokenView::RightParentesis] + rest, errors),
        ),
{
    lemma_unfold_parsing();
    let e = ExpressionView::Prefix { operator, right: Box::new(right) };
    let close = seq![TokenView::RightParentesis] + rest;
    let at_operator = state_of(seq![operator] + (right_tokens + close), errors);
    assert(at_operator.current() == operator);
    assert(at_operator.advance().tokens =~= right_tokens + close);
    let after = state_of(seq![right_last] + close, errors);
    assert(parse_prefix_expression_spec(at_operator) == parsed(e, after));
    assert(prefix_parse(at_operator) == parsed(e, after));
    assert(after.peek() is RightParentesis);
    assert(expression_extension(after, e, Precedence::Lowest) == parsed(e, after));
    lemma_expression_from_parts(at_operator, e, after, e, after, Precedence::Lowest);
    lemma_grouped_after(e, seq![operator] + (right_tokens + close), right_last, rest, errors);
}

/// A binary operator with its right operand behind its left operand parses
/// as the operation.
pub proof fn lemma_infix_operand(
    operator: TokenView,
    left: ExpressionView,
    right: ExpressionView,
    right_tokens: Seq<TokenView>,
    right_last: TokenView,
    rest: Seq<TokenView>,
    errors: Seq<Seq<char>>,
)
    requires
        infix_handler(operator) == Some(InfixParseFn::Infix),
        expression_parse(state_of(right_tokens + rest, errors), precedence_of(operator))
            == parsed(right, state_of(seq![right_last] + rest, errors)),
    ensures
        infix_parse(
            state_of(seq![operator] + (right_tokens + rest), errors),
            left,
        ) == parsed(
            ExpressionView::Infix { operator, left: Box::new(left), right: Box::new(right) },
            state_of(seq![right_last] + rest, errors),
        ),
{
    lemma_unfold_parsing();
    let at_operator = state_of(seq![operator] + (right_tokens + rest), errors);
    assert(at_operator.current() == operator);
    assert(at_operator.advance().tokens =~= right_tokens + rest);
}

/// Two operands in parentheses with a binary operator between them parse
/// as the operation.
pub proof fn lemma_infix_operation(
    operator: TokenView,
    left: ExpressionView,
    left_tokens: Seq<TokenView>,
    left_last: TokenView,
    right: ExpressionView,
    right_tokens: Seq<TokenView>,
    right_last: TokenView,
    rest: Seq<TokenView>,
    errors: Seq<Seq<char>>,
)
    requires
        infix_handler(operator) == Some(InfixParseFn::Infix),
        left_tokens.len() >= 1,
        right_tokens.len() >= 1,
        prefix_parse(
            state_of(
                left_tokens + (seq![operator] + (right_tokens + (seq![
                    TokenView::RightParentesis,
                ] + rest))),
                errors,
            ),
        ) == parsed(
            left,
            state_of(
                seq![left_last] + (seq![operator] + (right_tokens + (seq![
                    TokenView::RightParentesis,
                ] + rest))),
                errors,
            ),
        ),
        expression_parse(
            state_of(right_tokens + (seq![TokenView::RightParentesis] + rest), errors),
            precedence_of(operator),
        ) == parsed(
            right,
            state_of(seq![right_last] + (seq![TokenView::RightParentesis] + rest), errors),
        ),
    ensures
        prefix_parse(
            state_of(
                seq![TokenView::LeftParentesis] + (left_tokens + (seq![operator]
                    + (right_tokens + (seq![TokenView::RightParentesis] + rest)))),
                errors,
            ),
        ) == parsed(
            ExpressionView::Infix { operator, left: Box::new(left), right: Box::new(right) },
            state_of(seq![TokenView::RightParentesis] + rest, errors),
        ),
{
    lemma_unfold_parsing();
    let e = ExpressionView::Infix { operator, left: Box::new(left), right: Box::new(right) };
    let close = seq![TokenView::RightParentesis] + rest;
    let tail = seq![operator] + (right_tokens + close);
    let inner_start = state_of(left_tokens + tail, errors);
    let at_left = state_of(seq![left_last] + tail, errors);
    let at_right = state_of(seq![right_last] + close, errors);
    lemma_infix_operand(operator, left, right, right_tokens, right_last, close, errors);
    assert(at_left.peek() == operator);
    assert(at_left.advance().tokens =~= tail);
    assert(at_right.peek() is RightParentesis);
    lemma_extend_once(at_left, left, e, at_right);
    lemma_expression_from_parts(inner_start, left, at_left, e, at_right, Precedence::Lowest);
    lemma_grouped_after(e, left_tokens + tail, right_last, rest, errors);
}

/// One extension of an expression, behind which a closing parenthesis
/// follows, is all that the parser takes.
pub proof fn lemma_extend_once(
    at_left: ParserState,
    left: ExpressionView,
    extended: ExpressionView,
    after: ParserState,
)
    requires
        !(at_left.peek() is Semicolon),
        match infix_handler(at_left.peek()) {
            Some(InfixParseFn::Infix) => infix_parse(at_left.advance(), left)
                == parsed(extended, after),
            Some(InfixParseFn::Call) => call_parse(at_left.advance(), left)
                == parsed(extended, after),
            None => false,
        },
        after.tokens.len() < at_left.tokens.len(),
        after.peek() is RightParentesis,
    ensures
        expression_extension(at_left, left, Precedence::Lowest) == parsed(extended, after),
{
    lemma_unfold_parsing();
    assert(expression_extension(after, extended, Precedence::Lowest) == parsed(
        extended,
        after,
    ));
}

/// Before a semicolon, and before a token that binds no tighter than the
/// level at which the parser works, an expression is extended no further.
pub proof fn lemma_extension_stops(at_left: ParserState, left: ExpressionView, precedence: Precedence)
    requires
        at_left.peek() is Semicolon || precedence.rank() >= precedence_of(at_left.peek()).rank(),
    ensures
        expression_extension(at_left, left, precedence) == parsed(left, at_left),
{
    lemma_unfold_parsing();
}

/// An expression is what its first token starts, extended.
pub proof fn lemma_expression_from_parts(
    start: ParserState,
    left: ExpressionView,
    at_left: ParserState,
    e: ExpressionView,
    after: ParserState,
    precedence: Precedence,
)
    requires
        prefix_parse(start) == parsed(left, at_left),
        at_left.tokens.len() <= start.tokens.len(),
        expression_extension(at_left, left, precedence) == parsed(e, after),
    ensures
        expression_parse(start, precedence) == parsed(e, after),
{
    lemma_unfold_parsing();
}

/// An argument list behind its callee parses as the call.
pub proof fn lemma_call_arguments(
    function: ExpressionView,
    arguments: Seq<ExpressionView>,
    argument_tokens: Seq<TokenView>,
    rest: Seq<TokenView>,
    errors: Seq<Seq<char>>,
)
    requires
        list_parse(
            state_of(argument_tokens + (seq![TokenView::RightParentesis] + rest), errors),
            TokenType::RightParentesis,
        ) == parsed(arguments, state_of(seq![TokenView::RightParentesis] + rest, errors)),
    ensures
        call_parse(
            state_of(
                seq![TokenView::LeftParentesis] + (argument_tokens + (seq![
                    TokenView::RightParentesis,
                ] + rest)),
                errors,
            ),
            function,
        ) == parsed(
            ExpressionView::CallExpression { function: Box::new(function), arguments },
            state_of(seq![TokenView::RightParentesis] + rest, errors),
        ),
{
    lemma_unfold_parsing();
    let at_open = state_of(
        seq![TokenView::LeftParentesis] + (argument_tokens + (seq![TokenView::RightParentesis]
            + rest)),
        errors,
    );
    assert(at_open.current() is LeftParentesis);
    assert(at_open.advance().tokens =~= argument_tokens + (seq![TokenView::RightParentesis]
        + rest));
}

/// A callee in parentheses with an argument list behind it parses as the
/// call.
pub proof fn lemma_call(
    function: ExpressionView,
    function_tokens: Seq<TokenView>,
    function_last: TokenView,
    arguments: Seq<ExpressionView>,
    argument_tokens: Seq<TokenView>,
    rest: Seq<TokenView>,
    errors: Seq<Seq<char>>,
)
    requires
        function_tokens.len() >= 1,
        prefix_parse(
            state_of(
                function_tokens + (seq![TokenView::LeftParentesis] + (argument_tokens + (seq![
                    TokenView::RightParentesis,
                ] + (seq![TokenView::RightParentesis] + rest)))),
                errors,
            ),
        ) == parsed(
            function,
            state_of(
                seq![function_last] + (seq![TokenView::LeftParentesis] + (argument_tokens
                    + (seq![TokenView::RightParentesis] + (seq![TokenView::RightParentesis]
                    + rest)))),
                errors,
            ),
        ),
        list_parse(
            state_of(
                argument_tokens + (seq![TokenView::RightParentesis] + (seq![
                    TokenView::RightParentesis,
                ] + rest)),
                errors,
            ),
            TokenType::RightParentesis,
        ) == parsed(
            arguments,
            state_of(
                seq![TokenView::RightParentesis] + (seq![TokenView::RightParentesis] + rest),
                errors,
            ),
        ),
    ensures
        prefix_parse(
            state_of(
                seq![TokenView::LeftParentesis] + (function_tokens + (seq![
                    TokenView::LeftParentesis,
                ] + (argument_tokens + (seq![TokenView::RightParentesis] + (seq![
                    TokenView::RightParentesis,
                ] + rest))))),
                errors,
            ),
        ) == parsed(
            ExpressionView::CallExpression { function: Box::new(function), arguments },
            state_of(seq![TokenView::RightParentesis] + rest, errors),
        ),
{
    lemma_unfold_parsing();
    let e = ExpressionView::CallExpression { function: Box::new(function), arguments };
    let close = seq![TokenView::RightParentesis] + rest;
    let tail = seq![TokenView::LeftParentesis] + (argument_tokens + (seq![
        TokenView::RightParentesis,
    ] + close));
    let inner_start = state_of(function_tokens + tail, errors);
    let at_function = state_of(seq![function_last] + tail, errors);
    let at_close = state_of(seq![TokenView::RightParentesis] + close, errors);
    lemma_call_arguments(function, arguments, argument_tokens, close, errors);
    assert(at_function.peek() is LeftParentesis);
    assert(at_function.advance().tokens =~= tail);
    assert(at_close.peek() is RightParentesis);
    lemma_extend_once(at_function, function, e, at_close);
    lemma_expression_from_parts(
        inner_start,
        function,
        at_function,
        e,
        at_close,
        Precedence::Lowest,
    );
    lemma_grouped_after(e, function_tokens + tail, TokenView::RightParentesis, rest, errors);
}

/// A list of elements in brackets parses as the array literal.
pub proof fn lemma_array(
    items: Seq<ExpressionView>,
    item_tokens: Seq<TokenView>,
    rest: Seq<TokenView>,
    errors: Seq<Seq<char>>,
)
    requires
        list_parse(
            state_of(item_tokens + (seq![TokenView::RightBracket] + rest), errors),
            TokenType::RightBracket,
        ) == parsed(items, state_of(seq![TokenView::RightBracket] + rest, errors)),
    ensures
        prefix_parse(
            state_of(
                seq![TokenView::LeftBracket] + (item_tokens + (seq![TokenView::RightBracket]
                    + rest)),
                errors,
            ),
        ) == parsed(
            ExpressionView::Array(items),
            state_of(seq![TokenView::RightBracket] + rest, errors),
        ),
{
    lemma_unfold_parsing();
    let start = state_of(
        seq![TokenView::LeftBracket] + (item_tokens + (seq![TokenView::RightBracket] + rest)),
        errors,
    );
    assert(start.current() is LeftBracket);
    assert(start.advance().tokens =~= item_tokens + (seq![TokenView::RightBracket] + rest));
    assert(parse_array_expression_spec(start) == parsed(
        ExpressionView::Array(items),
        state_of(seq![TokenView::RightBracket] + rest, errors),
    ));
}

/// An integer literal, an identifier, a boolean or a string parses as
/// itself and leaves the cursor where it is.
pub proof fn lemma_atom(e: ExpressionView, rest: Seq<TokenView>, errors: Seq<Seq<char>>)
    requires
        parseable_expression(e),
        e is Int || e is Identifier || e is Boolean || e is String,
    ensures
        prefix_parse(state_of(expression_tokens(e) + rest, errors)) == parsed(
            e,
            state_of(seq![last_token(e)] + rest, errors),
        ),
{
    lemma_unfold_parsing();
    let start = state_of(expression_tokens(e) + rest, errors);
    assert(start.tokens =~= seq![last_token(e)] + rest);
    assert(start.current() == last_token(e));
    if let ExpressionView::Int(value) = e {
        lemma_natural_text_denotes(value as nat);
    }
}

/// The tokens that follow the parameter name before position `from`: a
/// comma and the names from `from` on, or nothing behind the last name.
pub open spec fn parameter_tail(names: Seq<TokenView>, from: nat) -> Seq<TokenView> {
    if from >= names.len() {
        Seq::empty()
    } else {
        seq![TokenView::Comma] + parameter_tokens_from(names, from)
    }
}

/// The tokens of the names from a position on are the name at that position
/// and what follows it.
pub proof fn lemma_parameter_tokens_unfold(names: Seq<TokenView>, from: nat)
    requires
        from < names.len(),
    ensures
        parameter_tokens_from(names, from) == seq![names[from as int]] + parameter_tail(
            names,
            from + 1,
        ),
{
    assert(parameter_tokens_from(names, from) =~= seq![names[from as int]] + parameter_tail(
        names,
        from + 1,
    ));
}

/// The parameter names behind the first `count`, with the cursor on the
/// last of those, parse to the whole list.
pub proof fn lemma_more_parameters(
    names: Seq<TokenView>,
    count: nat,
    rest: Seq<TokenView>,
    errors: Seq<Seq<char>>,
)
    requires
        1 <= count <= names.len(),
        forall|i: int| 0 <= i < names.len() ==> (#[trigger] names[i]) is Identifier,
    ensures
        more_parameters_parse(
            state_of(
                seq![names[count - 1]] + (parameter_tail(names, count) + (seq![
                    TokenView::RightParentesis,
                ] + rest)),
                errors,
            ),
            names.take(count as int),
        ) == parsed(names, state_of(seq![TokenView::RightParentesis] + rest, errors)),
    decreases names.len() - count,
{
    lemma_unfold_parsing();
    let close = seq![TokenView::RightParentesis] + rest;
    let s = state_of(seq![names[count - 1]] + (parameter_tail(names, count) + close), errors);
    if count == names.len() {
        assert(parameter_tail(names, count) + close =~= close);
        assert(s.peek() is RightParentesis);
        assert(s.advance().tokens =~= close);
        assert(names.take(count as int) =~= names);
    } else {
        lemma_parameter_tokens_unfold(names, count);
        let following = parameter_tail(names, count + 1) + close;
        assert(parameter_tail(names, count) + close =~= seq![TokenView::Comma] + (seq![
            names[count as int],
        ] + following));
        assert(s.peek() is Comma);
        let at_name = s.advance().advance();
        assert(at_name.tokens =~= seq![names[count as int]] + following);
        assert(at_name.current() == names[count as int]);
        assert(names.take(count as int).push(names[count as int]) =~= names.take((count + 1) as int));
        lemma_more_parameters(names, count + 1, rest, errors);
    }
}

/// The tokens of a list of parameter names parse to that list and leave the
/// cursor on the closing parenthesis.
pub proof fn lemma_parameters(names: Seq<TokenView>, rest: Seq<TokenView>, errors: Seq<Seq<char>>)
    requires
        forall|i: int| 0 <= i < names.len() ==> (#[trigger] names[i]) is Identifier,
    ensures
        parameters_parse(
            state_of(
                parameter_tokens_from(names, 0) + (seq![TokenView::RightParentesis] + rest),
                errors,
            ),
        ) == parsed(names, state_of(seq![TokenView::RightParentesis] + rest, errors)),
{
    lemma_unfold_parsing();
    let close = seq![TokenView::RightParentesis] + rest;
    let s = state_of(parameter_tokens_from(names, 0) + close, errors);
    if names.len() == 0 {
        assert(s.tokens =~= close);
        assert(s.current() is RightParentesis);
        assert(names =~= Seq::<TokenView>::empty());
    } else {
        lemma_parameter_tokens_unfold(names, 0);
        assert(s.tokens =~= seq![names[0]] + (parameter_tail(names, 1) + close));
        assert(s.current() == names[0]);
        assert(seq![names[0]] =~= names.take(1));
        lemma_more_parameters(names, 1, rest, errors);
    }
}

/// A parameter list and a block behind `fn` parse as the function literal.
pub proof fn lemma_function(
    parameters: Seq<TokenView>,
    parameter_tokens: Seq<TokenView>,
    body: Seq<AstNodeView>,
    body_tokens: Seq<TokenView>,
    rest: Seq<TokenView>,
    errors: Seq<Seq<char>>,
)
    requires
        body_tokens.len() >= 1,
        body_tokens[0] is LeftBrace,
        parameters_parse(
            state_of(
                parameter_tokens + (seq![TokenView::RightParentesis] + (body_tokens + rest)),
                errors,
            ),
        ) == parsed(
            parameters,
            state_of(seq![TokenView::RightParentesis] + (body_tokens + rest), errors),
        ),
        block_parse(state_of(body_tokens + rest, errors)) == parsed(
            body,
            state_of(seq![TokenView::RightBrace] + rest, errors),
        ),
    ensures
        prefix_parse(
            state_of(
                seq![TokenView::Function] + (seq![TokenView::LeftParentesis] + (parameter_tokens
                    + (seq![TokenView::RightParentesis] + (body_tokens + rest)))),
                errors,
            ),
        ) == parsed(
            ExpressionView::FunctionExpression { parameters, body },
            state_of(seq![TokenView::RightBrace] + rest, errors),
        ),
{
    lemma_unfold_parsing();
    let behind = parameter_tokens + (seq![TokenView::RightParentesis] + (body_tokens + rest));
    let start = state_of(
        seq![TokenView::Function] + (seq![TokenView::LeftParentesis] + behind),
        errors,
    );
    assert(start.current() is Function);
    assert(start.peek() is LeftParentesis);
    assert(start.advance().advance().tokens =~= behind);
    let at_close = state_of(seq![TokenView::RightParentesis] + (body_tokens + rest), errors);
    assert(at_close.peek() == body_tokens[0]);
    assert(at_close.advance().tokens =~= body_tokens + rest);
    assert(parse_function_expression_spec(start) == parsed(
        ExpressionView::FunctionExpression { parameters, body },
        state_of(seq![TokenView::RightBrace] + rest, errors),
    ));
}

/// A condition in parentheses and a block behind `if`, with an `else` and
/// a second block where `alternative` holds one, parse as the conditional.
pub proof fn lemma_if_inner(
    condition: ExpressionView,
    condition_tokens: Seq<TokenView>,
    condition_last: TokenView,
    consequence: Seq<AstNodeView>,
    consequence_tokens: Seq<TokenView>,
    alternative: Option<Seq<AstNodeView>>,
    alternative_tokens: Seq<TokenView>,
    rest: Seq<TokenView>,
    errors: Seq<Seq<char>>,
)
    requires
        condition_tokens.len() >= 1,
        consequence_tokens.len() >= 1,
        consequence_tokens[0] is LeftBrace,
        rest.len() >= 1,
        !(rest[0] is Else),
        expression_parse(
            state_of(
                condition_tokens + (seq![TokenView::RightParentesis] + (consequence_tokens
                    + (alternative_tokens + rest))),
                errors,
            ),
            Precedence::Lowest,
        ) == parsed(
            condition,
            state_of(
                seq![condition_last] + (seq![TokenView::RightParentesis] + (consequence_tokens
                    + (alternative_tokens + rest))),
                errors,
            ),
        ),
        block_parse(
            state_of(consequence_tokens + (alternative_tokens + rest), errors),
        ) == parsed(
            consequence,
            state_of(seq![TokenView::RightBrace] + (alternative_tokens + rest), errors),
        ),
        match alternative {
            None => alternative_tokens.len() == 0,
            Some(block) => {
                &&& alternative_tokens.len() >= 2
                &&& alternative_tokens[0] is Else
                &&& alternative_tokens[1] is LeftBrace
                &&& block_parse(state_of(alternative_tokens.skip(1) + rest, errors))
                    == parsed(block, state_of(seq![TokenView::RightBrace] + rest, errors))
            },
        },
    ensures
        conditional_parse(
            state_of(
                seq![TokenView::If] + (seq![TokenView::LeftParentesis] + (condition_tokens
                    + (seq![TokenView::RightParentesis] + (consequence_tokens
                    + (alternative_tokens + rest))))),
                errors,
            ),
        ) == parsed(
            ExpressionView::IfExpression {
                condition: Box::new(condition),
                consequence,
                alternative,
            },
            state_of(seq![TokenView::RightBrace] + rest, errors),
        ),
{
    lemma_unfold_parsing();
    let after_blocks = alternative_tokens + rest;
    let from_block = consequence_tokens + after_blocks;
    let from_close = seq![TokenView::RightParentesis] + from_block;
    let from_condition = condition_tokens + from_close;
    let start = state_of(
        seq![TokenView::If] + (seq![TokenView::LeftParentesis] + from_condition),
        errors,
    );
    assert(start.current() is If);
    assert(start.peek() is LeftParentesis);
    assert(start.advance().advance().tokens =~= from_condition);
    let at_condition = state_of(seq![condition_last] + from_close, errors);
    assert(at_condition.peek() is RightParentesis);
    let at_close = at_condition.advance();
    assert(at_close.tokens =~= from_close);
    assert(at_close.peek() == consequence_tokens[0]);
    assert(at_close.advance().tokens =~= from_block);
    let at_brace = state_of(seq![TokenView::RightBrace] + after_blocks, errors);
    assert(at_brace.peek() == after_blocks[0]);
    match alternative {
        None => {
            assert(after_blocks =~= rest);
            assert(!(at_brace.peek() is Else));
        },
        Some(block) => {
            assert(at_brace.peek() is Else);
            let at_else = at_brace.advance();
            assert(at_else.tokens =~= after_blocks);
            assert(at_else.peek() is LeftBrace);
            assert(at_else.advance().tokens =~= alternative_tokens.skip(1) + rest);
        },
    }
}

/// A conditional in parentheses parses as the conditional.
pub proof fn lemma_if(
    e: ExpressionView,
    if_tokens: Seq<TokenView>,
    rest: Seq<TokenView>,
    errors: Seq<Seq<char>>,
)
    requires
        if_tokens.len() >= 1,
        if_tokens[0] is If,
        conditional_parse(
            state_of(if_tokens + (seq![TokenView::RightParentesis] + rest), errors),
        ) == parsed(
            e,
            state_of(
                seq![TokenView::RightBrace] + (seq![TokenView::RightParentesis] + rest),
                errors,
            ),
        ),
    ensures
        prefix_parse(
            state_of(
                seq![TokenView::LeftParentesis] + (if_tokens + (seq![
                    TokenView::RightParentesis,
                ] + rest)),
                errors,
            ),
        ) == parsed(e, state_of(seq![TokenView::RightParentesis] + rest, errors)),
{
    lemma_unfold_parsing();
    let close = seq![TokenView::RightParentesis] + rest;
    let at_if = state_of(if_tokens + close, errors);
    assert(at_if.current() is If);
    let after = state_of(seq![TokenView::RightBrace] + close, errors);
    assert(prefix_parse(at_if) == parsed(e, after));
    assert(after.peek() is RightParentesis);
    assert(expression_extension(after, e, Precedence::Lowest) == parsed(e, after));
    lemma_expression_from_parts(at_if, e, after, e, after, Precedence::Lowest);
    lemma_grouped_after(e, if_tokens + close, TokenView::RightBrace, rest, errors);
}

/// One extension of an expression by a token that binds tighter than the
/// level at which the parser works leaves the parser to extend the result.
pub proof fn lemma_extend_step(
    at_left: ParserState,
    left: ExpressionView,
    extended: ExpressionView,
    after: ParserState,
    precedence: Precedence,
)
    requires
        !(at_left.peek() is Semicolon),
        precedence.rank() < precedence_of(at_left.peek()).rank(),
        match infix_handler(at_left.peek()) {
            Some(InfixParseFn::Infix) => infix_parse(at_left.advance(), left)
                == parsed(extended, after),
            Some(InfixParseFn::Call) => call_parse(at_left.advance(), left)
                == parsed(extended, after),
            None => false,
        },
        after.tokens.len() < at_left.tokens.len(),
    ensures
        expression_extension(at_left, left, precedence) == expression_extension(
            after,
            extended,
            precedence,
        ),
{
    lemma_unfold_parsing();
}

/// An expression with a semicolon behind it parses as an expression
/// statement and leaves the cursor on the semicolon.
pub proof fn lemma_expression_statement(
    e: ExpressionView,
    tokens: Seq<TokenView>,
    last: TokenView,
    following: Seq<TokenView>,
    errors: Seq<Seq<char>>,
)
    requires
        tokens.len() >= 1,
        !(tokens[0] is Let),
        !(tokens[0] is Return),
        expression_parse(
            state_of(tokens + (seq![TokenView::Semicolon] + following), errors),
            Precedence::Lowest,
        ) == parsed(
            e,
            state_of(seq![last] + (seq![TokenView::Semicolon] + following), errors),
        ),
    ensures
        statement_parse(
            state_of(tokens + (seq![TokenView::Semicolon] + following), errors),
        ) == parsed(
            AstNodeView::Expression(e),
            state_of(seq![TokenView::Semicolon] + following, errors),
        ),
{
    lemma_unfold_parsing();
    let start = state_of(tokens + (seq![TokenView::Semicolon] + following), errors);
    assert(start.current() == tokens[0]);
    let after = state_of(seq![last] + (seq![TokenView::Semicolon] + following), errors);
    assert(after.peek() is Semicolon);
    assert(after.advance().tokens =~= seq![TokenView::Semicolon] + following);
    assert(skip_semicolon_spec(after) == state_of(
        seq![TokenView::Semicolon] + following,
        errors,
    ));
    assert(parse_expression_statement_spec(start) == parsed(
        AstNodeView::Expression(e),
        state_of(seq![TokenView::Semicolon] + following, errors),
    ));
}

/// A name, `=`, an expression and a semicolon behind `let` parse as the
/// `let` statement and leave the cursor on the semicolon.
pub proof fn lemma_let_statement(
    name: Seq<char>,
    value: ExpressionView,
    tokens: Seq<TokenView>,
    last: TokenView,
    following: Seq<TokenView>,
    errors: Seq<Seq<char>>,
)
    requires
        tokens.len() >= 1,
        expression_parse(
            state_of(tokens + (seq![TokenView::Semicolon] + following), errors),
            Precedence::Lowest,
        ) == parsed(
            value,
            state_of(seq![last] + (seq![TokenView::Semicolon] + following), errors),
        ),
    ensures
        statement_parse(
            state_of(
                seq![TokenView::Let] + (seq![TokenView::Identifier(name)] + (seq![
                    TokenView::Assign,
                ] + (tokens + (seq![TokenView::Semicolon] + following)))),
                errors,
            ),
        ) == parsed(
            AstNodeView::Statement(
                StatementView::LetStatement { name: ExpressionView::Identifier(name), value },
            ),
            state_of(seq![TokenView::Semicolon] + following, errors),
        ),
{
    lemma_unfold_parsing();
    let behind = tokens + (seq![TokenView::Semicolon] + following);
    let start = state_of(
        seq![TokenView::Let] + (seq![TokenView::Identifier(name)] + (seq![TokenView::Assign]
            + behind)),
        errors,
    );
    assert(start.current() is Let);
    assert(start.peek() == TokenView::Identifier(name));
    let at_name = start.advance();
    assert(at_name.tokens =~= seq![TokenView::Identifier(name)] + (seq![TokenView::Assign]
        + behind));
    assert(at_name.peek() is Assign);
    assert(at_name.advance().advance().tokens =~= behind);
    let after = state_of(seq![last] + (seq![TokenView::Semicolon] + following), errors);
    assert(after.peek() is Semicolon);
    assert(after.advance().tokens =~= seq![TokenView::Semicolon] + following);
    assert(parse_let_statement_spec(start) == parsed(
        AstNodeView::Statement(
            StatementView::LetStatement { name: ExpressionView::Identifier(name), value },
        ),
        state_of(seq![TokenView::Semicolon] + following, errors),
    ));
}

/// An expression that starts with an integer literal, and a semicolon,
/// behind `return` parse as the `return` statement and leave the cursor on
/// the semicolon.
pub proof fn lemma_return_statement(
    value: ExpressionView,
    tokens: Seq<TokenView>,
    last: TokenView,
    following: Seq<TokenView>,
    errors: Seq<Seq<char>>,
)
    requires
        tokens.len() >= 1,
        tokens[0] is Int,
        expression_parse(
            state_of(tokens + (seq![TokenView::Semicolon] + following), errors),
            Precedence::Lowest,
        ) == parsed(
            value,
            state_of(seq![last] + (seq![TokenView::Semicolon] + following), errors),
        ),
    ensures
        statement_parse(
            state_of(
                seq![TokenView::Return] + (tokens + (seq![TokenView::Semicolon] + following)),
                errors,
            ),
        ) == parsed(
            AstNodeView::Statement(StatementView::ReturnStatement(value)),
            state_of(seq![TokenView::Semicolon] + following, errors),
        ),
{
    lemma_unfold_parsing();
    let behind = tokens + (seq![TokenView::Semicolon] + following);
    let start = state_of(seq![TokenView::Return] + behind, errors);
    assert(start.current() is Return);
    assert(start.peek() == tokens[0]);
    assert(start.advance().tokens =~= behind);
    let after = state_of(seq![last] + (seq![TokenView::Semicolon] + following), errors);
    assert(after.peek() is Semicolon);
    assert(after.advance().tokens =~= seq![TokenView::Semicolon] + following);
    assert(skip_semicolon_spec(after) == state_of(
        seq![TokenView::Semicolon] + following,
        errors,
    ));
    assert(parse_return_statement_spec(start) == parsed(
        AstNodeView::Statement(StatementView::ReturnStatement(value)),
        state_of(seq![TokenView::Semicolon] + following, errors),
    ));
}

/// Whether a token closes a list.
pub open spec fn closes_list(token: TokenView) -> bool {
    token is RightParentesis || token is RightBracket
}

/// Nothing between the brackets parses as the empty list.
pub proof fn lemma_list_empty(closing: TokenView, rest: Seq<TokenView>, errors: Seq<Seq<char>>)
    requires
        closes_list(closing),
    ensures
        list_parse(state_of(seq![closing] + rest, errors), closing.kind())
            == parsed(Seq::<ExpressionView>::empty(), state_of(seq![closing] + rest, errors)),
{
    lemma_unfold_parsing();
    let s = state_of(seq![closing] + rest, errors);
    assert(s.current() == closing);
}

/// The first element of a list is parsed, and the parser goes on with what
/// follows it.
pub proof fn lemma_list_first(
    item: ExpressionView,
    item_tokens: Seq<TokenView>,
    item_last: TokenView,
    after: Seq<TokenView>,
    errors: Seq<Seq<char>>,
    closing: TokenView,
)
    requires
        closes_list(closing),
        item_tokens.len() >= 1,
        !closes_list(item_tokens[0]),
        expression_parse(state_of(item_tokens + after, errors), Precedence::Lowest)
            == parsed(item, state_of(seq![item_last] + after, errors)),
    ensures
        list_parse(state_of(item_tokens + after, errors), closing.kind())
            == more_expressions_parse(
            state_of(seq![item_last] + after, errors),
            seq![item],
            closing.kind(),
        ),
{
    lemma_unfold_parsing();
    let s = state_of(item_tokens + after, errors);
    assert(s.current() == item_tokens[0]);
}

/// A further element of a list is parsed, and the parser goes on with what
/// follows it.
pub proof fn lemma_list_next(
    done: Seq<ExpressionView>,
    previous_last: TokenView,
    item: ExpressionView,
    item_tokens: Seq<TokenView>,
    item_last: TokenView,
    after: Seq<TokenView>,
    errors: Seq<Seq<char>>,
    closing: TokenType,
)
    requires
        item_tokens.len() >= 1,
        expression_parse(state_of(item_tokens + after, errors), Precedence::Lowest)
            == parsed(item, state_of(seq![item_last] + after, errors)),
    ensures
        more_expressions_parse(
            state_of(seq![previous_last] + (seq![TokenView::Comma] + (item_tokens + after)), errors),
            done,
            closing,
        ) == more_expressions_parse(
            state_of(seq![item_last] + after, errors),
            done.push(item),
            closing,
        ),
{
    lemma_unfold_parsing();
    let s = state_of(
        seq![previous_last] + (seq![TokenView::Comma] + (item_tokens + after)),
        errors,
    );
    assert(s.peek() is Comma);
    assert(s.advance().advance().tokens =~= item_tokens + after);
}

/// Behind the last element of a list the closing bracket ends the list.
pub proof fn lemma_list_end(
    done: Seq<ExpressionView>,
    previous_last: TokenView,
    closing: TokenView,
    rest: Seq<TokenView>,
    errors: Seq<Seq<char>>,
)
    requires
        closes_list(closing),
    ensures
        more_expressions_parse(
            state_of(seq![previous_last] + (seq![closing] + rest), errors),
            done,
            closing.kind(),
        ) == parsed(done, state_of(seq![closing] + rest, errors)),
{
    lemma_unfold_parsing();
    let s = state_of(seq![previous_last] + (seq![closing] + rest), errors);
    assert(s.peek() == closing);
    assert(s.advance().tokens =~= seq![closing] + rest);
}

/// A statement of a block is parsed, and the parser goes on behind its
/// semicolon.
pub proof fn lemma_statements_next(
    done: Seq<AstNodeView>,
    node: AstNodeView,
    tokens: Seq<TokenView>,
    following: Seq<TokenView>,
    errors: Seq<Seq<char>>,
)
    requires
        tokens.len() >= 1,
        !(tokens[0] is Eof),
        !(tokens[0] is RightBrace),
        statement_parse(state_of(tokens + following, errors)) == parsed(
            node,
            state_of(seq![TokenView::Semicolon] + following, errors),
        ),
    ensures
        statements_parse(state_of(tokens + following, errors), done, true)
            == statements_parse(state_of(following, errors), done.push(node), true),
{
    lemma_unfold_parsing();
    let s = state_of(tokens + following, errors);
    assert(s.current() == tokens[0]);
    let at_semicolon = state_of(seq![TokenView::Semicolon] + following, errors);
    assert(at_semicolon.advance().tokens =~= following);
}

/// The closing brace ends the statements of a block.
pub proof fn lemma_statements_end(
    done: Seq<AstNodeView>,
    rest: Seq<TokenView>,
    errors: Seq<Seq<char>>,
)
    ensures
        statements_parse(state_of(seq![TokenView::RightBrace] + rest, errors), done, true)
            == (done, state_of(seq![TokenView::RightBrace] + rest, errors)),
{
    lemma_unfold_parsing();
    let s = state_of(seq![TokenView::RightBrace] + rest, errors);
    assert(s.current() is RightBrace);
}

/// Statements between braces parse as the block.
pub proof fn lemma_block_braces(
    nodes: Seq<AstNodeView>,
    inner_tokens: Seq<TokenView>,
    rest: Seq<TokenView>,
    errors: Seq<Seq<char>>,
)
    requires
        statements_parse(
            state_of(inner_tokens + (seq![TokenView::RightBrace] + rest), errors),
            Seq::empty(),
            true,
        ) == (nodes, state_of(seq![TokenView::RightBrace] + rest, errors)),
    ensures
        block_parse(
            state_of(
                seq![TokenView::LeftBrace] + (inner_tokens + (seq![TokenView::RightBrace]
                    + rest)),
                errors,
            ),
        ) == parsed(nodes, state_of(seq![TokenView::RightBrace] + rest, errors)),
{
    lemma_unfold_parsing();
    let s = state_of(
        seq![TokenView::LeftBrace] + (inner_tokens + (seq![TokenView::RightBrace] + rest)),
        errors,
    );
    assert(s.current() is LeftBrace);
    assert(s.advance().tokens =~= inner_tokens + (seq![TokenView::RightBrace] + rest));
}

/// The tokens that follow the list element before position `from`: a comma
/// and the elements from `from` on, or nothing behind the last element.
pub open spec fn list_tail(items: Seq<ExpressionView>, from: nat) -> Seq<TokenView> {
    if from >= items.len() {
        Seq::empty()
    } else {
        seq![TokenView::Comma] + list_tokens_from(items, from)
    }
}

/// The tokens of the elements from a position on are those of the element
/// at that position and what follows it.
pub proof fn lemma_list_tokens_unfold(items: Seq<ExpressionView>, from: nat)
    requires
        from < items.len(),
    ensures
        list_tokens_from(items, from) == expression_tokens(items[from as int]) + list_tail(
            items,
            from + 1,
        ),
{
    assert(list_tokens_from(items, from) =~= expression_tokens(items[from as int]) + list_tail(
        items,
        from + 1,
    ));
}

/// The integer literal at the left edge of an expression printed bare.
pub open spec fn bare_root(e: ExpressionView) -> ExpressionView
    decreases e,
{
    match e {
        ExpressionView::Infix { left, .. } => bare_root(*left),
        ExpressionView::CallExpression { function, .. } => bare_root(*function),
        _ => e,
    }
}

/// The last token of an expression printed bare.
pub open spec fn bare_last(e: ExpressionView) -> TokenView {
    match e {
        ExpressionView::Infix { right, .. } => last_token(*right),
        ExpressionView::CallExpression { .. } => TokenView::RightParentesis,
        _ => last_token(e),
    }
}

/// The round trip of a unary operation, given that of its parts.
pub proof fn lemma_round_trip_of_prefix_operation(
    e: ExpressionView,
    rest: Seq<TokenView>,
    errors: Seq<Seq<char>>,
)
    requires
        parseable_expression(e),
        e is Prefix,
    ensures
        prefix_parse(state_of(expression_tokens(e) + rest, errors)) == parsed(
            e,
            state_of(seq![last_token(e)] + rest, errors),
        ),
    decreases e, 0nat,
{
    if let ExpressionView::Prefix { operator, right } = e {
            let close = seq![TokenView::RightParentesis] + rest;
            lemma_expression_tokens_start(*right);
            lemma_expression_round_trip(*right, close, errors, Precedence::Prefix);
            lemma_prefix_operation(
                operator,
                *right,
                expression_tokens(*right),
                last_token(*right),
                rest,
                errors,
            );
            assert(expression_tokens(e) + rest =~= seq![TokenView::LeftParentesis] + (seq![
                operator,
            ] + (expression_tokens(*right) + close)));
    }
}

/// The round trip of a binary operation, given that of its parts.
pub proof fn lemma_round_trip_of_infix_operation(
    e: ExpressionView,
    rest: Seq<TokenView>,
    errors: Seq<Seq<char>>,
)
    requires
        parseable_expression(e),
        e is Infix,
    ensures
        prefix_parse(state_of(expression_tokens(e) + rest, errors)) == parsed(
            e,
            state_of(seq![last_token(e)] + rest, errors),
        ),
    decreases e, 0nat,
{
    if let ExpressionView::Infix { operator, left, right } = e {
            let close = seq![TokenView::RightParentesis] + rest;
            lemma_expression_tokens_start(*left);
            lemma_expression_tokens_start(*right);
            lemma_prefix_round_trip(
                *left,
                seq![operator] + (expression_tokens(*right) + close),
                errors,
            );
            lemma_expression_round_trip(*right, close, errors, precedence_of(operator));
            lemma_infix_operation(
                operator,
                *left,
                expression_tokens(*left),
                last_token(*left),
                *right,
                expression_tokens(*right),
                last_token(*right),
                rest,
                errors,
            );
            assert(expression_tokens(e) + rest =~= seq![TokenView::LeftParentesis]
                + (expression_tokens(*left) + (seq![operator] + (expression_tokens(*right)
                + close))));
    }
}

/// The round trip of a call, given that of its parts.
pub proof fn lemma_round_trip_of_call(
    e: ExpressionView,
    rest: Seq<TokenView>,
    errors: Seq<Seq<char>>,
)
    requires
        parseable_expression(e),
        e is CallExpression,
    ensures
        prefix_parse(state_of(expression_tokens(e) + rest, errors)) == parsed(
            e,
            state_of(seq![last_token(e)] + rest, errors),
        ),
    decreases e, 0nat,
{
    if let ExpressionView::CallExpression { function, arguments } = e {
            let close = seq![TokenView::RightParentesis] + rest;
            let argument_tokens = list_tokens_from(arguments, 0);
            lemma_expression_tokens_start(*function);
            lemma_prefix_round_trip(
                *function,
                seq![TokenView::LeftParentesis] + (argument_tokens + (seq![
                    TokenView::RightParentesis,
                ] + close)),
                errors,
            );
            lemma_list_round_trip(arguments, TokenView::RightParentesis, close, errors);
            lemma_call(
                *function,
                expression_tokens(*function),
                last_token(*function),
                arguments,
                argument_tokens,
                rest,
                errors,
            );
            assert(expression_tokens(e) + rest =~= seq![TokenView::LeftParentesis]
                + (expression_tokens(*function) + (seq![TokenView::LeftParentesis]
                + (argument_tokens + (seq![TokenView::RightParentesis] + close)))));
    }
}

/// The round trip of an array literal, given that of its parts.
pub proof fn lemma_round_trip_of_array(
    e: ExpressionView,
    rest: Seq<TokenView>,
    errors: Seq<Seq<char>>,
)
    requires
        parseable_expression(e),
        e is Array,
    ensures
        prefix_parse(state_of(expression_tokens(e) + rest, errors)) == parsed(
            e,
            state_of(seq![last_token(e)] + rest, errors),
        ),
    decreases e, 0nat,
{
    if let ExpressionView::Array(items) = e {
            lemma_list_round_trip(items, TokenView::RightBracket, rest, errors);
            lemma_array(items, list_tokens_from(items, 0), rest, errors);
            assert(expression_tokens(e) + rest =~= seq![TokenView::LeftBracket]
                + (list_tokens_from(items, 0) + (seq![TokenView::RightBracket] + rest)));
    }
}

/// The round trip of a function literal, given that of its parts.
pub proof fn lemma_round_trip_of_function(
    e: ExpressionView,
    rest: Seq<TokenView>,
    errors: Seq<Seq<char>>,
)
    requires
        parseable_expression(e),
        e is FunctionExpression,
    ensures
        prefix_parse(state_of(expression_tokens(e) + rest, errors)) == parsed(
            e,
            state_of(seq![last_token(e)] + rest, errors),
        ),
    decreases e, 0nat,
{
    if let ExpressionView::FunctionExpression { parameters, body } = e {
            let body_tokens = block_tokens(body);
            lemma_parameters(parameters, body_tokens + rest, errors);
            lemma_block_round_trip(body, rest, errors);
            lemma_function(
                parameters,
                parameter_tokens_from(parameters, 0),
                body,
                body_tokens,
                rest,
                errors,
            );
            assert(expression_tokens(e) + rest =~= seq![TokenView::Function] + (seq![
                TokenView::LeftParentesis,
            ] + (parameter_tokens_from(parameters, 0) + (seq![TokenView::RightParentesis]
                + (body_tokens + rest)))));
    }
}

/// The round trip of a conditional, given that of its parts.
pub proof fn lemma_round_trip_of_conditional(
    e: ExpressionView,
    rest: Seq<TokenView>,
    errors: Seq<Seq<char>>,
)
    requires
        parseable_expression(e),
        e is IfExpression,
    ensures
        prefix_parse(state_of(expression_tokens(e) + rest, errors)) == parsed(
            e,
            state_of(seq![last_token(e)] + rest, errors),
        ),
    decreases e, 0nat,
{
    if let ExpressionView::IfExpression { condition, consequence, alternative } = e {
            let close = seq![TokenView::RightParentesis] + rest;
            let consequence_tokens = block_tokens(consequence);
            let alternative_tokens = match alternative {
                Some(block) => seq![TokenView::Else] + block_tokens(block),
                None => Seq::empty(),
            };
            lemma_expression_tokens_start(*condition);
            lemma_expression_round_trip(
                *condition,
                seq![TokenView::RightParentesis] + (consequence_tokens + (alternative_tokens
                    + close)),
                errors,
                Precedence::Lowest,
            );
            lemma_block_round_trip(consequence, alternative_tokens + close, errors);
            match alternative {
                Some(block) => {
                    lemma_block_round_trip(block, close, errors);
                    assert(alternative_tokens.skip(1) =~= block_tokens(block));
                },
                None => {},
            }
            lemma_if_inner(
                *condition,
                expression_tokens(*condition),
                last_token(*condition),
                consequence,
                consequence_tokens,
                alternative,
                alternative_tokens,
                close,
                errors,
            );
            let if_tokens = seq![TokenView::If] + (seq![TokenView::LeftParentesis]
                + (expression_tokens(*condition) + (seq![TokenView::RightParentesis]
                + (consequence_tokens + alternative_tokens))));
            assert(if_tokens + close =~= seq![TokenView::If] + (seq![TokenView::LeftParentesis]
                + (expression_tokens(*condition) + (seq![TokenView::RightParentesis]
                + (consequence_tokens + (alternative_tokens + close))))));
            lemma_if(e, if_tokens, rest, errors);
            assert(expression_tokens(e) + rest =~= seq![TokenView::LeftParentesis] + (if_tokens
                + close));
    }
}

/// The tokens of a parseable expression, whatever follows them, parse as
/// what their first token starts to that expression, and leave the cursor
/// on the last of them.
pub proof fn lemma_prefix_round_trip(
    e: ExpressionView,
    rest: Seq<TokenView>,
    errors: Seq<Seq<char>>,
)
    requires
        parseable_expression(e),
    ensures
        prefix_parse(state_of(expression_tokens(e) + rest, errors)) == parsed(
            e,
            state_of(seq![last_token(e)] + rest, errors),
        ),
    decreases e, 1nat,
{
    match e {
        ExpressionView::Prefix { .. } => lemma_round_trip_of_prefix_operation(e, rest, errors),
        ExpressionView::Infix { .. } => lemma_round_trip_of_infix_operation(e, rest, errors),
        ExpressionView::CallExpression { .. } => lemma_round_trip_of_call(e, rest, errors),
        ExpressionView::Array(_) => lemma_round_trip_of_array(e, rest, errors),
        ExpressionView::FunctionExpression { .. } => lemma_round_trip_of_function(e, rest, errors),
        ExpressionView::IfExpression { .. } => lemma_round_trip_of_conditional(e, rest, errors),
        _ => lemma_atom(e, rest, errors),
    }
}

/// The tokens of a parseable expression, followed by tokens before which it
/// ends, parse to that expression and leave the cursor on the last of them.
pub proof fn lemma_expression_round_trip(
    e: ExpressionView,
    rest: Seq<TokenView>,
    errors: Seq<Seq<char>>,
    precedence: Precedence,
)
    requires
        parseable_expression(e),
        ends_before(rest, precedence),
    ensures
        expression_parse(state_of(expression_tokens(e) + rest, errors), precedence)
            == parsed(e, state_of(seq![last_token(e)] + rest, errors)),
    decreases e, 2nat,
{
    lemma_expression_tokens_start(e);
    lemma_prefix_round_trip(e, rest, errors);
    lemma_expression_from_prefix(
        e,
        expression_tokens(e),
        last_token(e),
        rest,
        errors,
        precedence,
    );
}

/// The elements of a list behind the first `count`, with the cursor on the
/// last token of those, parse to the whole list.
pub proof fn lemma_more_expressions_round_trip(
    items: Seq<ExpressionView>,
    count: nat,
    closing: TokenView,
    rest: Seq<TokenView>,
    errors: Seq<Seq<char>>,
)
    requires
        parseable_expressions(items),
        closes_list(closing),
        1 <= count <= items.len(),
    ensures
        more_expressions_parse(
            state_of(
                seq![last_token(items[count - 1])] + (list_tail(items, count) + (seq![closing]
                    + rest)),
                errors,
            ),
            items.take(count as int),
            closing.kind(),
        ) == parsed(items, state_of(seq![closing] + rest, errors)),
    decreases items, items.len() - count,
{
    let close = seq![closing] + rest;
    let previous_last = last_token(items[count - 1]);
    if count == items.len() {
        assert(list_tail(items, count) + close =~= close);
        assert(items.take(count as int) =~= items);
        lemma_list_end(items, previous_last, closing, rest, errors);
    } else {
        let item = items[count as int];
        let after = list_tail(items, count + 1) + close;
        lemma_list_tokens_unfold(items, count);
        lemma_expression_tokens_start(item);
        assert(ends_before(after, Precedence::Lowest)) by {
            if count + 1 >= items.len() {
                assert(after[0] == closing);
            } else {
                assert(after[0] is Comma);
            }
        }
        lemma_expression_round_trip(item, after, errors, Precedence::Lowest);
        lemma_list_next(
            items.take(count as int),
            previous_last,
            item,
            expression_tokens(item),
            last_token(item),
            after,
            errors,
            closing.kind(),
        );
        assert(list_tail(items, count) + close =~= seq![TokenView::Comma] + (expression_tokens(
            item,
        ) + after));
        assert(items.take(count as int).push(item) =~= items.take((count + 1) as int));
        lemma_more_expressions_round_trip(items, count + 1, closing, rest, errors);
    }
}

/// The tokens of a list of parseable expressions parse to that list and
/// leave the cursor on the closing bracket.
pub proof fn lemma_list_round_trip(
    items: Seq<ExpressionView>,
    closing: TokenView,
    rest: Seq<TokenView>,
    errors: Seq<Seq<char>>,
)
    requires
        parseable_expressions(items),
        closes_list(closing),
    ensures
        list_parse(
            state_of(list_tokens_from(items, 0) + (seq![closing] + rest), errors),
            closing.kind(),
        ) == parsed(items, state_of(seq![closing] + rest, errors)),
    decreases items, items.len() + 1,
{
    let close = seq![closing] + rest;
    if items.len() == 0 {
        assert(list_tokens_from(items, 0) + close =~= close);
        assert(items =~= Seq::<ExpressionView>::empty());
        lemma_list_empty(closing, rest, errors);
    } else {
        let item = items[0];
        let after = list_tail(items, 1) + close;
        lemma_list_tokens_unfold(items, 0);
        lemma_expression_tokens_start(item);
        assert(ends_before(after, Precedence::Lowest)) by {
            if 1 >= items.len() {
                assert(after[0] == closing);
            } else {
                assert(after[0] is Comma);
            }
        }
        lemma_expression_round_trip(item, after, errors, Precedence::Lowest);
        lemma_list_first(
            item,
            expression_tokens(item),
            last_token(item),
            after,
            errors,
            closing,
        );
        assert(list_tokens_from(items, 0) + close =~= expression_tokens(item) + after);
        assert(seq![item] =~= items.take(1));
        lemma_more_expressions_round_trip(items, 1, closing, rest, errors);
    }
}

/// The tokens of the statements of a block from a position on parse to the
/// rest of the block and leave the cursor on the closing brace.
pub proof fn lemma_statements_round_trip(
    nodes: Seq<AstNodeView>,
    from: nat,
    rest: Seq<TokenView>,
    errors: Seq<Seq<char>>,
)
    requires
        parseable_block(nodes),
        from <= nodes.len(),
    ensures
        statements_parse(
            state_of(
                nodes_tokens_from(nodes, from) + (seq![TokenView::RightBrace] + rest),
                errors,
            ),
            nodes.take(from as int),
            true,
        ) == (nodes, state_of(seq![TokenView::RightBrace] + rest, errors)),
    decreases nodes, nodes.len() - from,
{
    let close = seq![TokenView::RightBrace] + rest;
    if from == nodes.len() {
        assert(nodes_tokens_from(nodes, from) + close =~= close);
        assert(nodes.take(from as int) =~= nodes);
        lemma_statements_end(nodes, rest, errors);
    } else {
        let node = nodes[from as int];
        let following = nodes_tokens_from(nodes, from + 1) + close;
        lemma_node_round_trip(node, following, errors);
        lemma_statements_next(
            nodes.take(from as int),
            node,
            node_tokens(node),
            following,
            errors,
        );
        assert(nodes_tokens_from(nodes, from) + close =~= node_tokens(node) + following);
        assert(nodes.take(from as int).push(node) =~= nodes.take((from + 1) as int));
        lemma_statements_round_trip(nodes, from + 1, rest, errors);
    }
}

/// The tokens of a block of parseable statements parse to that block and
/// leave the cursor on the closing brace.
pub proof fn lemma_block_round_trip(
    nodes: Seq<AstNodeView>,
    rest: Seq<TokenView>,
    errors: Seq<Seq<char>>,
)
    requires
        parseable_block(nodes),
    ensures
        block_parse(state_of(block_tokens(nodes) + rest, errors)) == parsed(
            nodes,
            state_of(seq![TokenView::RightBrace] + rest, errors),
        ),
        block_tokens(nodes).len() >= 2,
        block_tokens(nodes)[0] is LeftBrace,
    decreases nodes, nodes.len() + 1,
{
    lemma_statements_round_trip(nodes, 0, rest, errors);
    assert(nodes.take(0) =~= Seq::<AstNodeView>::empty());
    lemma_block_braces(nodes, nodes_tokens_from(nodes, 0), rest, errors);
    assert(block_tokens(nodes) + rest =~= seq![TokenView::LeftBrace] + (nodes_tokens_from(
        nodes,
        0,
    ) + (seq![TokenView::RightBrace] + rest)));
}

/// The round trip of an expression statement, given that of its
/// expression.
pub proof fn lemma_round_trip_of_expression_statement(
    expression: ExpressionView,
    following: Seq<TokenView>,
    errors: Seq<Seq<char>>,
)
    requires
        parseable_expression(expression),
    ensures
        statement_parse(
            state_of(node_tokens(AstNodeView::Expression(expression)) + following, errors),
        ) == parsed(
            AstNodeView::Expression(expression),
            state_of(seq![TokenView::Semicolon] + following, errors),
        ),
    decreases expression, 3nat,
{
    let behind = seq![TokenView::Semicolon] + following;
    lemma_expression_tokens_start(expression);
    lemma_expression_round_trip(expression, behind, errors, Precedence::Lowest);
    lemma_expression_statement(
        expression,
        expression_tokens(expression),
        last_token(expression),
        following,
        errors,
    );
    assert(node_tokens(AstNodeView::Expression(expression)) + following =~= expression_tokens(
        expression,
    ) + behind);
}

/// The round trip of a `let` statement, given that of its expression.
pub proof fn lemma_round_trip_of_let_statement(
    name: Seq<char>,
    value: ExpressionView,
    following: Seq<TokenView>,
    errors: Seq<Seq<char>>,
)
    requires
        parseable_expression(value),
    ensures
        statement_parse(
            state_of(
                node_tokens(
                    AstNodeView::Statement(
                        StatementView::LetStatement {
                            name: ExpressionView::Identifier(name),
                            value,
                        },
                    ),
                ) + following,
                errors,
            ),
        ) == parsed(
            AstNodeView::Statement(
                StatementView::LetStatement { name: ExpressionView::Identifier(name), value },
            ),
            state_of(seq![TokenView::Semicolon] + following, errors),
        ),
    decreases value, 3nat,
{
    let node = AstNodeView::Statement(
        StatementView::LetStatement { name: ExpressionView::Identifier(name), value },
    );
    let behind = seq![TokenView::Semicolon] + following;
    lemma_expression_tokens_start(value);
    lemma_expression_round_trip(value, behind, errors, Precedence::Lowest);
    lemma_let_statement(
        name,
        value,
        expression_tokens(value),
        last_token(value),
        following,
        errors,
    );
    assert(expression_tokens(ExpressionView::Identifier(name)) =~= seq![
        TokenView::Identifier(name),
    ]);
    assert(node_tokens(node) + following =~= seq![TokenView::Let] + (seq![
        TokenView::Identifier(name),
    ] + (seq![TokenView::Assign] + (expression_tokens(value) + behind))));
}

/// The round trip of a `return` statement, given that of its expression.
pub proof fn lemma_round_trip_of_return_statement(
    value: ExpressionView,
    following: Seq<TokenView>,
    errors: Seq<Seq<char>>,
)
    requires
        parseable_expression(value),
        bare_from_integer(value),
    ensures
        statement_parse(
            state_of(
                node_tokens(AstNodeView::Statement(StatementView::ReturnStatement(value)))
                    + following,
                errors,
            ),
        ) == parsed(
            AstNodeView::Statement(StatementView::ReturnStatement(value)),
            state_of(seq![TokenView::Semicolon] + following, errors),
        ),
    decreases value, 3nat,
{
    let node = AstNodeView::Statement(StatementView::ReturnStatement(value));
    let behind = seq![TokenView::Semicolon] + following;
    lemma_bare_round_trip(value, following, errors);
    lemma_return_statement(value, bare_tokens(value), bare_last(value), following, errors);
    assert(node_tokens(node) + following =~= seq![TokenView::Return] + (bare_tokens(value)
        + behind));
}

/// The tokens of a parseable statement are at least one, and the first of
/// them ends no block.
pub proof fn lemma_node_tokens_start(node: AstNodeView)
    requires
        parseable_node(node),
    ensures
        node_tokens(node).len() >= 1,
        !(node_tokens(node)[0] is Eof),
        !(node_tokens(node)[0] is RightBrace),
{
    match node {
        AstNodeView::Expression(expression) => {
            lemma_expression_tokens_start(expression);
        },
        _ => {},
    }
}

/// The tokens of a parseable statement, whatever follows them, parse to
/// that statement and leave the cursor on its semicolon.
pub proof fn lemma_node_round_trip(
    node: AstNodeView,
    following: Seq<TokenView>,
    errors: Seq<Seq<char>>,
)
    requires
        parseable_node(node),
    ensures
        statement_parse(state_of(node_tokens(node) + following, errors)) == parsed(
            node,
            state_of(seq![TokenView::Semicolon] + following, errors),
        ),
        node_tokens(node).len() >= 1,
        !(node_tokens(node)[0] is Eof),
        !(node_tokens(node)[0] is RightBrace),
    decreases node, 0nat,
{
    lemma_node_tokens_start(node);
    match node {
        AstNodeView::Expression(expression) => {
            lemma_round_trip_of_expression_statement(expression, following, errors);
        },
        AstNodeView::Statement(StatementView::LetStatement { name, value }) => {
            lemma_round_trip_of_let_statement(name->Identifier_0, value, following, errors);
        },
        AstNodeView::Statement(StatementView::ReturnStatement(value)) => {
            lemma_round_trip_of_return_statement(value, following, errors);
        },
        AstNodeView::Program { .. } => {},
    }
}

/// The step of `lemma_bare_reaches` for a binary operation.
pub proof fn lemma_bare_reaches_operation(
    e: ExpressionView,
    rest: Seq<TokenView>,
    errors: Seq<Seq<char>>,
    precedence: Precedence,
)
    requires
        parseable_expression(e),
        bare_from_integer(e),
        e is Infix,
        precedence.rank() < Precedence::Call.rank(),
        e matches ExpressionView::Infix { operator, .. } ==> precedence.rank() < precedence_of(
            operator,
        ).rank() && ends_before(rest, precedence_of(operator)),
    ensures
        bare_tokens(e).len() >= 1,
        bare_tokens(e)[0] is Int,
        prefix_parse(state_of(bare_tokens(e) + rest, errors)) == parsed(
            bare_root(e),
            state_of(bare_tokens(e) + rest, errors),
        ),
        expression_extension(
            state_of(bare_tokens(e) + rest, errors),
            bare_root(e),
            precedence,
        ) == expression_extension(state_of(seq![bare_last(e)] + rest, errors), e, precedence),
    decreases e, 0nat,
{
    if let ExpressionView::Infix { operator, left, right } = e {
        let after_left = seq![operator] + (expression_tokens(*right) + rest);
        assert(after_left[0] == operator);
        lemma_bare_reaches(*left, after_left, errors, precedence);
        lemma_expression_tokens_start(*right);
        lemma_expression_round_trip(*right, rest, errors, precedence_of(operator));
        lemma_infix_operand(
            operator,
            *left,
            *right,
            expression_tokens(*right),
            last_token(*right),
            rest,
            errors,
        );
        let at_left = state_of(seq![bare_last(*left)] + after_left, errors);
        assert(at_left.peek() == operator);
        assert(at_left.advance().tokens =~= after_left);
        lemma_extend_step(
            at_left,
            *left,
            e,
            state_of(seq![bare_last(e)] + rest, errors),
            precedence,
        );
        assert(bare_tokens(e) + rest =~= bare_tokens(*left) + after_left);
        assert(bare_tokens(e)[0] == bare_tokens(*left)[0]);
        assert(bare_tokens(e).len() >= 1);
    }
}

/// The step of `lemma_bare_reaches` for a call.
pub proof fn lemma_bare_reaches_call(
    e: ExpressionView,
    rest: Seq<TokenView>,
    errors: Seq<Seq<char>>,
    precedence: Precedence,
)
    requires
        parseable_expression(e),
        bare_from_integer(e),
        e is CallExpression,
        precedence.rank() < Precedence::Call.rank(),
    ensures
        bare_tokens(e).len() >= 1,
        bare_tokens(e)[0] is Int,
        prefix_parse(state_of(bare_tokens(e) + rest, errors)) == parsed(
            bare_root(e),
            state_of(bare_tokens(e) + rest, errors),
        ),
        expression_extension(
            state_of(bare_tokens(e) + rest, errors),
            bare_root(e),
            precedence,
        ) == expression_extension(state_of(seq![bare_last(e)] + rest, errors), e, precedence),
    decreases e, 0nat,
{
    if let ExpressionView::CallExpression { function, arguments } = e {
        let argument_tokens = list_tokens_from(arguments, 0);
        let after_function = seq![TokenView::LeftParentesis] + (argument_tokens + (seq![
            TokenView::RightParentesis,
        ] + rest));
        assert(calls_from_integer(*function));
        assert(bare_from_integer(*function));
        assert(!(*function is Infix));
        lemma_bare_reaches(*function, after_function, errors, precedence);
        lemma_list_round_trip(arguments, TokenView::RightParentesis, rest, errors);
        lemma_call_arguments(*function, arguments, argument_tokens, rest, errors);
        let at_function = state_of(seq![bare_last(*function)] + after_function, errors);
        assert(at_function.peek() is LeftParentesis);
        assert(at_function.advance().tokens =~= after_function);
        lemma_extend_step(
            at_function,
            *function,
            e,
            state_of(seq![bare_last(e)] + rest, errors),
            precedence,
        );
        assert(bare_tokens(e) + rest =~= bare_tokens(*function) + after_function);
        assert(bare_tokens(e)[0] == bare_tokens(*function)[0]);
    }
}

/// An expression printed bare is read by the parser from its integer
/// literal on: the extensions that the parser makes from the literal lead
/// to the whole expression, with the cursor on its last token.
pub proof fn lemma_bare_reaches(
    e: ExpressionView,
    rest: Seq<TokenView>,
    errors: Seq<Seq<char>>,
    precedence: Precedence,
)
    requires
        parseable_expression(e),
        bare_from_integer(e),
        precedence.rank() < Precedence::Call.rank(),
        e matches ExpressionView::Infix { operator, .. } ==> precedence.rank() < precedence_of(
            operator,
        ).rank() && ends_before(rest, precedence_of(operator)),
    ensures
        bare_tokens(e).len() >= 1,
        bare_tokens(e)[0] is Int,
        prefix_parse(state_of(bare_tokens(e) + rest, errors)) == parsed(
            bare_root(e),
            state_of(bare_tokens(e) + rest, errors),
        ),
        expression_extension(
            state_of(bare_tokens(e) + rest, errors),
            bare_root(e),
            precedence,
        ) == expression_extension(state_of(seq![bare_last(e)] + rest, errors), e, precedence),
    decreases e, 1nat,
{
    match e {
        ExpressionView::Infix { .. } => lemma_bare_reaches_operation(e, rest, errors, precedence),
        ExpressionView::CallExpression { .. } => lemma_bare_reaches_call(
            e,
            rest,
            errors,
            precedence,
        ),
        _ => {
            lemma_atom(e, rest, errors);
            assert(bare_tokens(e) + rest =~= seq![bare_last(e)] + rest);
        },
    }
}

/// The tokens of an expression printed bare, with a semicolon behind them,
/// parse to that expression and leave the cursor on the last of them.
pub proof fn lemma_bare_round_trip(
    e: ExpressionView,
    following: Seq<TokenView>,
    errors: Seq<Seq<char>>,
)
    requires
        parseable_expression(e),
        bare_from_integer(e),
    ensures
        bare_tokens(e).len() >= 1,
        bare_tokens(e)[0] is Int,
        expression_parse(
            state_of(bare_tokens(e) + (seq![TokenView::Semicolon] + following), errors),
            Precedence::Lowest,
        ) == parsed(
            e,
            state_of(seq![bare_last(e)] + (seq![TokenView::Semicolon] + following), errors),
        ),
    decreases e, 2nat,
{
    let rest = seq![TokenView::Semicolon] + following;
    lemma_bare_reaches(e, rest, errors, Precedence::Lowest);
    let start = state_of(bare_tokens(e) + rest, errors);
    let after = state_of(seq![bare_last(e)] + rest, errors);
    assert(after.peek() is Semicolon);
    lemma_extension_stops(after, e, Precedence::Lowest);
    lemma_expression_from_parts(start, bare_root(e), start, e, after, Precedence::Lowest);
}

/// A statement of a program is parsed, and the parser goes on behind its
/// semicolon.
pub proof fn lemma_program_next(
    done: Seq<AstNodeView>,
    node: AstNodeView,
    tokens: Seq<TokenView>,
    following: Seq<TokenView>,
    errors: Seq<Seq<char>>,
)
    requires
        tokens.len() >= 1,
        !(tokens[0] is Eof),
        statement_parse(state_of(tokens + following, errors)) == parsed(
            node,
            state_of(seq![TokenView::Semicolon] + following, errors),
        ),
    ensures
        statements_parse(state_of(tokens + following, errors), done, false) == statements_parse(
            state_of(following, errors),
            done.push(node),
            false,
        ),
{
    lemma_unfold_parsing();
    let s = state_of(tokens + following, errors);
    assert(s.current() == tokens[0]);
    let at_semicolon = state_of(seq![TokenView::Semicolon] + following, errors);
    assert(at_semicolon.advance().tokens =~= following);
}

/// The end of the input ends the statements of a program.
pub proof fn lemma_program_end(done: Seq<AstNodeView>, errors: Seq<Seq<char>>)
    ensures
        statements_parse(state_of(Seq::empty(), errors), done, false) == (
            done,
            state_of(Seq::empty(), errors),
        ),
{
    lemma_unfold_parsing();
}

/// The tokens of the statements of a program from a position on parse to
/// the rest of the program and leave nothing behind.
pub proof fn lemma_program_round_trip(nodes: Seq<AstNodeView>, from: nat, errors: Seq<Seq<char>>)
    requires
        parseable_block(nodes),
        from <= nodes.len(),
    ensures
        statements_parse(
            state_of(nodes_tokens_from(nodes, from), errors),
            nodes.take(from as int),
            false,
        ) == (nodes, state_of(Seq::empty(), errors)),
    decreases nodes.len() - from,
{
    if from == nodes.len() {
        assert(nodes_tokens_from(nodes, from) =~= Seq::<TokenView>::empty());
        assert(nodes.take(from as int) =~= nodes);
        lemma_program_end(nodes, errors);
    } else {
        let node = nodes[from as int];
        let following = nodes_tokens_from(nodes, from + 1);
        lemma_node_round_trip(node, following, errors);
        lemma_program_next(nodes.take(from as int), node, node_tokens(node), following, errors);
        assert(nodes_tokens_from(nodes, from) =~= node_tokens(node) + following);
        assert(nodes.take(from as int).push(node) =~= nodes.take((from + 1) as int));
        lemma_program_round_trip(nodes, from + 1, errors);
    }
}

/// Printing and parsing are inverse on the tokens of programs: the tokens
/// of a program of parseable statements parse back to that program, without
/// an error, and leave nothing behind.
pub proof fn law_program_tokens_parse_back(nodes: Seq<AstNodeView>, errors: Seq<Seq<char>>)
    requires
        parseable_block(nodes),
    ensures
        crate::grammar::parse_program_spec(
            state_of(node_tokens(AstNodeView::Program { statements: nodes }), errors),
        ) == (nodes, state_of(Seq::empty(), errors)),
{
    lemma_program_round_trip(nodes, 0, errors);
    lemma_unfold_parsing();
    assert(nodes.take(0) =~= Seq::<AstNodeView>::empty());
}

/// Printing and parsing are inverse on tokens: the tokens of a parseable
/// expression, followed by tokens before which it ends, parse back to that
/// expression, without an error, and leave the cursor on the last of them.
pub proof fn law_tokens_parse_back(
    e: ExpressionView,
    rest: Seq<TokenView>,
    errors: Seq<Seq<char>>,
    precedence: Precedence,
)
    requires
        parseable_expression(e),
        ends_before(rest, precedence),
    ensures
        parse_expression_spec(state_of(expression_tokens(e) + rest, errors), precedence)
            == parsed(e, state_of(seq![last_token(e)] + rest, errors)),
{
    lemma_expression_round_trip(e, rest, errors, precedence);
    lemma_unfold_parsing();
}

/// Printing and parsing are inverse on the tokens of blocks: the tokens of
/// a block of parseable statements parse back to that block, without an
/// error, and leave the cursor on the closing brace.
pub proof fn law_block_tokens_parse_back(
    nodes: Seq<AstNodeView>,
    rest: Seq<TokenView>,
    errors: Seq<Seq<char>>,
)
    requires
        parseable_block(nodes),
    ensures
        parse_block_statement_spec(state_of(block_tokens(nodes) + rest, errors)) == parsed(
            nodes,
            state_of(seq![TokenView::RightBrace] + rest, errors),
        ),
{
    lemma_block_round_trip(nodes, rest, errors);
    lemma_unfold_parsing();
}

} // verus!

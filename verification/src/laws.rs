//! Laws that relate the lexer, the parser and the evaluator to each other.

use vstd::prelude::*;

use crate::ast::{AstNodeView, ExpressionView};
use crate::evaluator::ObjectView;
use crate::grammar::{
    decimal_value, extend_expression_spec, is_decimal, parse_decimal, parse_expression_spec,
    parse_expression_statement_spec, parse_int_spec, parse_prefix_spec, parse_program_spec,
    parse_statement_spec, parse_statements_spec, skip_semicolon_spec, ParserState, Precedence,
};
use crate::lexer::{digit, next_token_spec, scan, tokens_from, tokens_of, whitespace};
use crate::lexer_laws::{all_lexer_made, law_tokens_of_text, lemma_tokens_are_lexer_made};
use crate::lexical_range::lemma_expression_lexical;
use crate::printed_tokens::lemma_expression_tokens_lexical;
use crate::printer::{expression_text, expression_tokens, last_token, parseable_expression};
use crate::range::lemma_expression_in_range;
use crate::round_trip::{law_tokens_parse_back, state_of};
use crate::grammar::parsed;
use crate::builtin::len_spec;
use crate::evaluator::EvalError;
use crate::grammar::precedence_of;
use crate::semantics::{
    eval_bang_spec, eval_block_statement_spec, eval_expression_spec, eval_function_call_spec,
    eval_node_spec, evaluated, is_truthy_spec,
};
use crate::token::TokenView;

verus! {

/// A position is where a scan ends if everything from the start of the scan
/// up to it passes the test, and the character at it, if there is one, does
/// not.
pub proof fn lemma_scan_ends_at(s: Seq<char>, from: int, end: int, keep: spec_fn(char) -> bool)
    requires
        0 <= from <= end <= s.len(),
        forall|k: int| from <= k < end ==> keep(#[trigger] s[k]),
        end < s.len() ==> !keep(s[end]),
    ensures
        scan(s, from, keep) == end,
    decreases end - from,
{
    if from < end {
        lemma_scan_ends_at(s, from + 1, end, keep);
    }
}

/// The tokens of a decimal literal followed by a semicolon are the literal
/// and the semicolon.
pub proof fn lemma_tokens_of_literal_statement(digits: Seq<char>)
    requires
        is_decimal(digits),
    ensures
        tokens_of(digits + seq![';']) == seq![TokenView::Int(digits), TokenView::Semicolon],
{
    let source = digits + seq![';'];
    let n = digits.len() as int;
    assert(source.len() == n + 1);
    assert(source[n] == ';');
    assert forall|k: int| 0 <= k < n implies digit(#[trigger] source[k]) by {
        assert(source[k] == digits[k]);
    }
    assert(digit(source[0]));
    lemma_scan_ends_at(source, 0, 0, |c: char| whitespace(c));
    lemma_scan_ends_at(source, 0, n, |c: char| digit(c));
    assert(source.subrange(0, n) =~= digits);
    assert(next_token_spec(source, 0) == (TokenView::Int(digits), n));
    lemma_scan_ends_at(source, n, n, |c: char| whitespace(c));
    assert(next_token_spec(source, n) == (TokenView::Semicolon, n + 1));
    lemma_scan_ends_at(source, n + 1, n + 1, |c: char| whitespace(c));
    assert(next_token_spec(source, n + 1).0 is Eof);
    assert(tokens_from(source, n + 1) =~= Seq::<TokenView>::empty());
    assert(tokens_from(source, n) =~= seq![TokenView::Semicolon]);
    assert(tokens_from(source, 0) =~= seq![TokenView::Int(digits), TokenView::Semicolon]);
}

/// An integer literal means its value: for every decimal literal whose
/// value fits a 32-bit signed integer, the source text made of the literal
/// and a semicolon parses, without an error, to the one expression statement
/// that holds the value of the literal in base ten, and that program
/// evaluates to this value as an integer, in every environment and with
/// every budget of nested calls.
pub proof fn law_integer_literal_evaluates_to_its_value(
    digits: Seq<char>,
    env: Map<Seq<char>, ObjectView>,
    depth: nat,
)
    requires
        is_decimal(digits),
        decimal_value(digits) <= i32::MAX,
    ensures
        ({
            let start = ParserState {
                tokens: tokens_of(digits + seq![';']),
                errors: Seq::empty(),
            };
            let (statements, end) = parse_program_spec(start);
            let value = ObjectView::Integer(decimal_value(digits));
            &&& statements == seq![
                AstNodeView::Expression(ExpressionView::Int(decimal_value(digits))),
            ]
            &&& end.errors == Seq::<Seq<char>>::empty()
            &&& eval_node_spec(statements[0], env, depth).result == Ok::<ObjectView, EvalError>(
                value,
            )
            &&& eval_node_spec(AstNodeView::Program { statements }, env, depth).result == Ok::<
                ObjectView,
                EvalError,
            >(value)
        }),
{
    lemma_tokens_of_literal_statement(digits);
    let value = decimal_value(digits);
    let tokens = seq![TokenView::Int(digits), TokenView::Semicolon];
    let start = ParserState { tokens, errors: Seq::empty() };
    let expression = ExpressionView::Int(value);
    let node = AstNodeView::Expression(expression);
    assert(start.current() == TokenView::Int(digits));
    assert(start.peek() == TokenView::Semicolon);
    assert(parse_decimal(digits) == Some(value));
    assert(parse_int_spec(start).value == Some(expression));
    assert(parse_int_spec(start).state == start);
    assert(parse_prefix_spec(start) == parse_int_spec(start));
    assert(extend_expression_spec(start, expression, Precedence::Lowest).value == Some(
        expression,
    ));
    assert(extend_expression_spec(start, expression, Precedence::Lowest).state == start);
    assert(parse_expression_spec(start, Precedence::Lowest).value == Some(expression));
    assert(parse_expression_spec(start, Precedence::Lowest).state == start);
    let at_semicolon = start.advance();
    assert(skip_semicolon_spec(start) == at_semicolon);
    assert(parse_expression_statement_spec(start).value == Some(node));
    assert(parse_expression_statement_spec(start).state == at_semicolon);
    assert(parse_statement_spec(start) == parse_expression_statement_spec(start));
    let at_end = at_semicolon.advance();
    assert(at_semicolon.tokens.len() == 1);
    assert(at_end.tokens.len() == 0);
    assert(at_end.at_end_of_statements(false));
    let done = Seq::<AstNodeView>::empty().push(node);
    assert(parse_statements_spec(at_end, done, false) == (done, at_end));
    assert(!start.at_end_of_statements(false));
    assert(parse_statements_spec(start, Seq::empty(), false) == (done, at_end));
    assert(done =~= seq![node]);
    let object = ObjectView::Integer(value);
    assert(eval_expression_spec(expression, env, depth).result == Ok::<ObjectView, EvalError>(object));
    assert(eval_expression_spec(expression, env, depth).env == env);
    assert(eval_node_spec(node, env, depth) == eval_expression_spec(expression, env, depth));
    assert(eval_block_statement_spec(done, 1, object, env, depth).result == Ok::<ObjectView, EvalError>(object));
    assert(eval_block_statement_spec(done, 0, ObjectView::Null, env, depth).result == Ok::<ObjectView, EvalError>(object));
}

/// The precedence of a token depends on nothing but its kind.
pub proof fn law_precedence_depends_on_kind(a: TokenView, b: TokenView)
    requires
        a.kind() == b.kind(),
    ensures
        precedence_of(a) == precedence_of(b),
{
}

/// A return signal stops a block: where a statement of a program or block
/// evaluates to a return signal, that signal is the value of the whole, and
/// no later statement is evaluated, whatever the later statements are.
pub proof fn law_return_stops_the_block(
    nodes: Seq<AstNodeView>,
    from: nat,
    last: ObjectView,
    env: Map<Seq<char>, ObjectView>,
    depth: nat,
    signal: ObjectView,
)
    requires
        from < nodes.len(),
        signal is Return,
        eval_node_spec(nodes[from as int], env, depth).result == Ok::<ObjectView, EvalError>(
            signal,
        ),
    ensures
        eval_block_statement_spec(nodes, from, last, env, depth) == evaluated(
            signal,
            eval_node_spec(nodes[from as int], env, depth).env,
        ),
        forall|others: Seq<AstNodeView>|
            others.len() > from && others[from as int] == nodes[from as int]
                ==> #[trigger] eval_block_statement_spec(others, from, last, env, depth)
                == eval_block_statement_spec(nodes, from, last, env, depth),
{
}

/// A function call leaves the environment of its caller as the evaluation
/// of the arguments left it, whatever the body does.
pub proof fn law_call_restores_the_environment(
    parameters: Seq<TokenView>,
    arguments: Seq<ExpressionView>,
    body: Seq<AstNodeView>,
    scope: Map<Seq<char>, ObjectView>,
    env: Map<Seq<char>, ObjectView>,
    depth: nat,
)
    ensures
        eval_function_call_spec(parameters, arguments, body, scope, env, depth).env
            == crate::semantics::eval_expressions_spec(
            arguments,
            0,
            Seq::empty(),
            env,
            depth,
        ).env,
{
}

/// Negation is defined for every value: it swaps the booleans, makes null
/// true, and gives null for everything else. Negating a boolean twice gives
/// it back.
pub proof fn law_negation(value: ObjectView)
    ensures
        value is Boolean ==> eval_bang_spec(eval_bang_spec(value)) == value,
        value is Null ==> eval_bang_spec(value) == ObjectView::Boolean(true),
        !(value is Boolean) && !(value is Null) ==> eval_bang_spec(value) == ObjectView::Null,
{
}

/// The truthy values are the boolean `true` and the integers other than
/// zero.
pub proof fn law_truthiness(value: ObjectView)
    ensures
        is_truthy_spec(value) <==> value == ObjectView::Boolean(true) || (value matches ObjectView::Integer(
            i,
        ) && i != 0),
{
}

/// `len` of what is no string, and of nothing, is an error, never null.
pub proof fn law_len_of_a_non_string_is_an_error(arguments: Seq<ObjectView>)
    requires
        arguments.len() == 0 || !(arguments[0] is String),
    ensures
        len_spec(arguments) == Err::<ObjectView, EvalError>(EvalError::WrongArgumentType),
{
}

/// Printing is inverse to parsing, from any place in the tokens of a text:
/// where the parser, before tokens that the lexer has made, builds an
/// expression, the source text that the pretty-printer writes for that
/// expression has the tokens that the pretty-printer gives for it, and these
/// parse, without an error, to the same expression, with the cursor left on
/// the last of them.
pub proof fn law_parsed_expression_is_read_back(
    s: ParserState,
    precedence: Precedence,
    e: ExpressionView,
)
    requires
        all_lexer_made(s.tokens),
        parse_expression_spec(s, precedence).value == Some(e),
    ensures
        parseable_expression(e),
        tokens_of(expression_text(e)) == expression_tokens(e),
        parse_expression_spec(
            state_of(tokens_of(expression_text(e)), Seq::empty()),
            Precedence::Lowest,
        ) == parsed(e, state_of(seq![last_token(e)], Seq::empty())),
{
    lemma_expression_in_range(s, precedence);
    lemma_expression_lexical(s, precedence);
    lemma_expression_tokens_lexical(e);
    law_tokens_of_text(expression_tokens(e));
    law_tokens_parse_back(e, Seq::empty(), Seq::empty(), Precedence::Lowest);
    assert(expression_tokens(e) + Seq::<TokenView>::empty() =~= expression_tokens(e));
    assert(seq![last_token(e)] + Seq::<TokenView>::empty() =~= seq![last_token(e)]);
}

/// Pretty-printing, lexing and parsing give back what was parsed: where an
/// expression is parsed at the start of a source text, lexing and parsing
/// the source text that the pretty-printer writes for it gives the same
/// expression, without an error.
pub proof fn law_pretty_printed_form_parses_to_the_same_tree(
    source: Seq<char>,
    precedence: Precedence,
    e: ExpressionView,
)
    requires
        parse_expression_spec(state_of(tokens_of(source), Seq::empty()), precedence).value
            == Some(e),
    ensures
        parse_expression_spec(
            state_of(tokens_of(expression_text(e)), Seq::empty()),
            Precedence::Lowest,
        ).value == Some(e),
        parse_expression_spec(
            state_of(tokens_of(expression_text(e)), Seq::empty()),
            Precedence::Lowest,
        ).state.errors == Seq::<Seq<char>>::empty(),
{
    lemma_tokens_are_lexer_made(source, 0);
    law_parsed_expression_is_read_back(
        state_of(tokens_of(source), Seq::empty()),
        precedence,
        e,
    );
}

} // verus!

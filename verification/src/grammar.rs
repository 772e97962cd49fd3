//! The grammar of the language, as mathematics.
//!
//! A parser state is the sequence of tokens not yet consumed, without the
//! end-of-input token, and the list of error messages recorded so far. The
//! first token of the sequence is the one under the cursor; past the end of
//! the sequence every token is the end of input. Each function here says,
//! for one construct, which tree is built from a state and which state is
//! left behind. The parser computes exactly these functions.
//!
//! The cursor convention: a construct is parsed with the cursor on its first
//! token, and on success the cursor is left on its last token.
//!
//! Several functions compare the lengths of two token sequences before they
//! go on. These tests make it evident that the definitions terminate; no
//! function here ever lengthens the sequence, as [`crate::range`] proves, so
//! they never fail.

use vstd::prelude::*;

use crate::ast::{AstNodeView, ExpressionView, StatementView};
use crate::lexer::digit;
use crate::token::{TokenType, TokenView};

verus! {

/// Binding strength of an operator, from weakest to strongest.
#[derive(Debug, Clone, Copy, PartialEq, Eq, Structural)]
pub enum Precedence {
    Lowest,
    Equals,
    LessGreater,
    Sum,
    Product,
    Prefix,
    Call,
}

impl Precedence {
    /// The position of this level in the order of levels.
    pub open spec fn rank(self) -> int {
        match self {
            Precedence::Lowest => 0,
            Precedence::Equals => 1,
            Precedence::LessGreater => 2,
            Precedence::Sum => 3,
            Precedence::Product => 4,
            Precedence::Prefix => 5,
            Precedence::Call => 6,
        }
    }
}

/// The precedence of a token when it stands between two operands.
pub open spec fn precedence_of(token: TokenView) -> Precedence {
    match token {
        TokenView::Equals | TokenView::NotEquals => Precedence::Equals,
        TokenView::LessThan | TokenView::GreaterThan => Precedence::LessGreater,
        TokenView::Plus | TokenView::Minus => Precedence::Sum,
        TokenView::Asterisk | TokenView::Slash => Precedence::Product,
        TokenView::LeftParentesis => Precedence::Call,
        _ => Precedence::Lowest,
    }
}

/// How an expression that starts with a given token is parsed.
#[derive(Debug, Clone, Copy, PartialEq, Eq, Structural)]
pub enum PrefixParseFn {
    String,
    Identifier,
    Int,
    Prefix,
    Grouped,
    Array,
    Boolean,
    If,
    Function,
}

/// How an expression is extended by a given token that follows it.
#[derive(Debug, Clone, Copy, PartialEq, Eq, Structural)]
pub enum InfixParseFn {
    Infix,
    Call,
}

/// The way to parse an expression that starts with `token`, if any
/// expression starts with it.
pub open spec fn prefix_handler(token: TokenView) -> Option<PrefixParseFn> {
    match token {
        TokenView::String(_) => Some(PrefixParseFn::String),
        TokenView::Identifier(_) => Some(PrefixParseFn::Identifier),
        TokenView::Int(_) => Some(PrefixParseFn::Int),
        TokenView::Bang | TokenView::Minus => Some(PrefixParseFn::Prefix),
        TokenView::LeftParentesis => Some(PrefixParseFn::Grouped),
        TokenView::LeftBracket => Some(PrefixParseFn::Array),
        TokenView::True | TokenView::False => Some(PrefixParseFn::Boolean),
        TokenView::If => Some(PrefixParseFn::If),
        TokenView::Function => Some(PrefixParseFn::Function),
        _ => None,
    }
}

/// The way to extend an expression that `token` follows, if it can follow
/// one.
pub open spec fn infix_handler(token: TokenView) -> Option<InfixParseFn> {
    match token {
        TokenView::Plus
        | TokenView::Minus
        | TokenView::Slash
        | TokenView::Asterisk
        | TokenView::GreaterThan
        | TokenView::LessThan
        | TokenView::Equals
        | TokenView::NotEquals => Some(InfixParseFn::Infix),
        TokenView::LeftParentesis => Some(InfixParseFn::Call),
        _ => None,
    }
}

/// How a kind of token is named in an error message.
pub open spec fn kind_name(kind: TokenType) -> Seq<char> {
    match kind {
        TokenType::Illegal => "illegal character"@,
        TokenType::Eof => "end of input"@,
        TokenType::Identifier => "identifier"@,
        TokenType::Int => "integer"@,
        TokenType::String => "string"@,
        TokenType::Assign => "="@,
        TokenType::Plus => "+"@,
        TokenType::Minus => "-"@,
        TokenType::Bang => "!"@,
        TokenType::Asterisk => "*"@,
        TokenType::Slash => "/"@,
        TokenType::LessThan => "<"@,
        TokenType::GreaterThan => ">"@,
        TokenType::Equals => "=="@,
        TokenType::NotEquals => "!="@,
        TokenType::Comma => ","@,
        TokenType::Semicolon => ";"@,
        TokenType::LeftParentesis => "("@,
        TokenType::RightParentesis => ")"@,
        TokenType::LeftBrace => "{"@,
        TokenType::RightBrace => "}"@,
        TokenType::LeftBracket => "["@,
        TokenType::RightBracket => "]"@,
        TokenType::Function => "fn"@,
        TokenType::Let => "let"@,
        TokenType::True => "true"@,
        TokenType::False => "false"@,
        TokenType::If => "if"@,
        TokenType::Else => "else"@,
        TokenType::Return => "return"@,
    }
}

/// How a token is shown in an error message: the text it carries, or the
/// name of its kind where it carries none.
pub open spec fn token_text(token: TokenView) -> Seq<char> {
    match token {
        TokenView::Identifier(name) => name,
        TokenView::Int(digits) => digits,
        TokenView::String(text) => text,
        _ => kind_name(token.kind()),
    }
}

/// The model of a parser error.
pub ghost enum ParserErrorView {
    UnexpectedToken { expected: TokenType, actual: TokenView },
    NoParsingFunction(TokenView),
    IntErr(Seq<char>),
}

impl ParserErrorView {
    /// The message under which the error is recorded.
    pub open spec fn message(self) -> Seq<char> {
        match self {
            ParserErrorView::UnexpectedToken { expected, actual } => "expected token "@ + kind_name(
                expected,
            ) + ", got "@ + token_text(actual),
            ParserErrorView::NoParsingFunction(token) => "no parsing function for token "@
                + token_text(token),
            ParserErrorView::IntErr(digits) => "error parsing integer: "@ + digits,
        }
    }
}

/// The value of a decimal digit.
pub open spec fn digit_value(c: char) -> int {
    c as int - '0' as int
}

/// The number that a sequence of decimal digits denotes in base ten.
pub open spec fn decimal_value(digits: Seq<char>) -> int
    decreases digits.len(),
{
    if digits.len() == 0 {
        0
    } else {
        10 * decimal_value(digits.drop_last()) + digit_value(digits.last())
    }
}

/// Whether `text` is a non-empty run of decimal digits.
pub open spec fn is_decimal(text: Seq<char>) -> bool {
    text.len() > 0 && forall|i: int| 0 <= i < text.len() ==> digit(#[trigger] text[i])
}

/// The integer that `text` denotes, where it is a decimal literal whose
/// value fits a 32-bit signed integer.
pub open spec fn parse_decimal(text: Seq<char>) -> Option<int> {
    if is_decimal(text) && decimal_value(text) <= i32::MAX {
        Some(decimal_value(text))
    } else {
        None
    }
}

/// What a parser still has before it and what it has recorded.
pub ghost struct ParserState {
    /// The tokens not yet consumed, the one under the cursor first.
    pub tokens: Seq<TokenView>,
    /// The error messages recorded so far, oldest first.
    pub errors: Seq<Seq<char>>,
}

impl ParserState {
    /// The token under the cursor.
    pub open spec fn current(self) -> TokenView {
        if self.tokens.len() > 0 {
            self.tokens[0]
        } else {
            TokenView::Eof
        }
    }

    /// The token that follows the one under the cursor.
    pub open spec fn peek(self) -> TokenView {
        if self.tokens.len() > 1 {
            self.tokens[1]
        } else {
            TokenView::Eof
        }
    }

    /// The state with the cursor moved one token on. At the end of the
    /// input the cursor stays.
    pub open spec fn advance(self) -> ParserState {
        ParserState {
            tokens: if self.tokens.len() > 0 {
                self.tokens.skip(1)
            } else {
                self.tokens
            },
            errors: self.errors,
        }
    }

    /// The state with one more error recorded.
    pub open spec fn report(self, error: ParserErrorView) -> ParserState {
        ParserState { tokens: self.tokens, errors: self.errors.push(error.message()) }
    }

    /// The state with the error recorded that a token of kind `expected`
    /// was to stand under the cursor.
    pub open spec fn expected_current(self, expected: TokenType) -> ParserState {
        self.report(ParserErrorView::UnexpectedToken { expected, actual: self.current() })
    }

    /// The state with the error recorded that a token of kind `expected`
    /// was to follow the one under the cursor.
    pub open spec fn expected_next(self, expected: TokenType) -> ParserState {
        self.report(ParserErrorView::UnexpectedToken { expected, actual: self.peek() })
    }

    /// Whether a sequence of statements ends with the cursor where it is: at
    /// the end of the input, or, inside a block, on the closing brace.
    pub open spec fn at_end_of_statements(self, in_block: bool) -> bool {
        self.current() is Eof || (in_block && self.current() is RightBrace)
    }
}

/// The result of parsing one construct: the tree, where parsing succeeded,
/// and the state left behind.
pub ghost struct Parsed<T> {
    pub value: Option<T>,
    pub state: ParserState,
}

/// The result of a parse that failed and left `state` behind.
pub open spec fn failed<T>(state: ParserState) -> Parsed<T> {
    Parsed { value: None, state }
}

/// The result of a parse that built `value` and left `state` behind.
pub open spec fn parsed<T>(value: T, state: ParserState) -> Parsed<T> {
    Parsed { value: Some(value), state }
}

/// An identifier under the cursor, as an expression.
pub open spec fn parse_identifier_spec(s: ParserState) -> Parsed<ExpressionView> {
    match s.current() {
        TokenView::Identifier(name) => parsed(ExpressionView::Identifier(name), s),
        _ => failed(s.expected_current(TokenType::Identifier)),
    }
}

/// An integer literal under the cursor, as an expression. A literal that is
/// too large for a 32-bit signed integer is an error.
pub open spec fn parse_int_spec(s: ParserState) -> Parsed<ExpressionView> {
    match s.current() {
        TokenView::Int(digits) => match parse_decimal(digits) {
            Some(value) => parsed(ExpressionView::Int(value), s),
            None => failed(s.report(ParserErrorView::IntErr(digits))),
        },
        _ => failed(s.expected_current(TokenType::Int)),
    }
}

/// A string literal under the cursor, as an expression.
pub open spec fn parse_string_spec(s: ParserState) -> Parsed<ExpressionView> {
    match s.current() {
        TokenView::String(text) => parsed(ExpressionView::String(text), s),
        _ => failed(s.expected_current(TokenType::String)),
    }
}

/// `true` or `false` under the cursor, as an expression.
pub open spec fn parse_boolean_expression_spec(s: ParserState) -> Parsed<ExpressionView> {
    match s.current() {
        TokenView::True => parsed(ExpressionView::Boolean(true), s),
        TokenView::False => parsed(ExpressionView::Boolean(false), s),
        _ => failed(s.expected_current(TokenType::True)),
    }
}

/// The parameter names that follow the first one, up to the closing
/// parenthesis, on which the cursor is left.
pub open spec fn parse_more_parameters_spec(s: ParserState, names: Seq<TokenView>) -> Parsed<
    Seq<TokenView>,
>
    decreases s.tokens.len(),
{
    if s.peek() is Comma {
        let at_name = s.advance().advance();
        if at_name.current() is Identifier {
            parse_more_parameters_spec(at_name, names.push(at_name.current()))
        } else {
            failed(at_name.expected_current(TokenType::Identifier))
        }
    } else if s.peek() is RightParentesis {
        parsed(names, s.advance())
    } else {
        failed(s.expected_next(TokenType::RightParentesis))
    }
}

/// The parameter list of a function literal, parsed with the cursor behind
/// the opening parenthesis: identifiers separated by commas, up to the
/// closing parenthesis, on which the cursor is left.
pub open spec fn parse_function_parameters_spec(s: ParserState) -> Parsed<Seq<TokenView>> {
    if s.current() is RightParentesis {
        parsed(Seq::empty(), s)
    } else if s.current() is Identifier {
        parse_more_parameters_spec(s, seq![s.current()])
    } else {
        failed(s.expected_current(TokenType::Identifier))
    }
}

/// The state in which parsing resumes after a statement failed in state
/// `s`: the tokens up to and including the next semicolon are skipped. The
/// end of the input, and inside a block the closing brace, stop the skipping
/// and stay.
pub open spec fn synchronize_spec(s: ParserState, in_block: bool) -> ParserState
    decreases s.tokens.len(),
{
    if s.at_end_of_statements(in_block) {
        s
    } else if s.current() is Semicolon {
        s.advance()
    } else {
        synchronize_spec(s.advance(), in_block)
    }
}

/// An expression that binds tighter than `precedence`, parsed with the
/// cursor on its first token: what the token under the cursor starts,
/// extended by the operators and calls that follow it for as long as they
/// bind tighter than `precedence`.
pub open spec fn parse_expression_spec(s: ParserState, precedence: Precedence) -> Parsed<
    ExpressionView,
>
    decreases s.tokens.len(), 3nat,
{
    let left = parse_prefix_spec(s);
    match left.value {
        None => failed(left.state),
        Some(expression) => if left.state.tokens.len() <= s.tokens.len() {
            extend_expression_spec(left.state, expression, precedence)
        } else {
            failed(left.state)
        },
    }
}

/// The expression that the token under the cursor starts. A token that
/// starts no expression is an error.
pub open spec fn parse_prefix_spec(s: ParserState) -> Parsed<ExpressionView>
    decreases s.tokens.len(), 2nat,
{
    match prefix_handler(s.current()) {
        None => failed(s.report(ParserErrorView::NoParsingFunction(s.current()))),
        Some(PrefixParseFn::String) => parse_string_spec(s),
        Some(PrefixParseFn::Identifier) => parse_identifier_spec(s),
        Some(PrefixParseFn::Int) => parse_int_spec(s),
        Some(PrefixParseFn::Boolean) => parse_boolean_expression_spec(s),
        Some(PrefixParseFn::Prefix) => parse_prefix_expression_spec(s),
        Some(PrefixParseFn::Grouped) => parse_grouped_expression_spec(s),
        Some(PrefixParseFn::Array) => parse_array_expression_spec(s),
        Some(PrefixParseFn::If) => parse_if_expression_spec(s),
        Some(PrefixParseFn::Function) => parse_function_expression_spec(s),
    }
}

/// The expression `left`, whose last token is under the cursor, extended by
/// what follows: while the next token is no semicolon and binds tighter than
/// `precedence`, it is taken as an operator with `left` as its left operand,
/// or as the opening parenthesis of a call of `left`.
pub open spec fn extend_expression_spec(
    s: ParserState,
    left: ExpressionView,
    precedence: Precedence,
) -> Parsed<ExpressionView>
    decreases s.tokens.len(), 2nat,
{
    let next = s.peek();
    if next is Semicolon || precedence.rank() >= precedence_of(next).rank() {
        parsed(left, s)
    } else {
        match infix_handler(next) {
            None => failed(s.report(ParserErrorView::NoParsingFunction(next))),
            Some(handler) => {
                let extended = match handler {
                    InfixParseFn::Infix => parse_infix_expression_spec(s.advance(), left),
                    InfixParseFn::Call => parse_call_expression_spec(s.advance(), left),
                };
                match extended.value {
                    None => failed(extended.state),
                    Some(expression) => if extended.state.tokens.len() < s.tokens.len() {
                        extend_expression_spec(extended.state, expression, precedence)
                    } else {
                        failed(extended.state)
                    },
                }
            },
        }
    }
}

/// A unary operator under the cursor, applied to the expression that follows
/// it.
pub open spec fn parse_prefix_expression_spec(s: ParserState) -> Parsed<ExpressionView>
    decreases s.tokens.len(), 1nat,
{
    let operator = s.current();
    if operator is Bang || operator is Minus {
        let right = parse_expression_spec(s.advance(), Precedence::Prefix);
        match right.value {
            None => failed(right.state),
            Some(operand) => parsed(
                ExpressionView::Prefix { operator, right: Box::new(operand) },
                right.state,
            ),
        }
    } else {
        failed(s.report(ParserErrorView::NoParsingFunction(operator)))
    }
}

/// A binary operator under the cursor, applied to `left` and to the
/// expression that follows the operator and binds tighter than it.
pub open spec fn parse_infix_expression_spec(s: ParserState, left: ExpressionView) -> Parsed<
    ExpressionView,
>
    decreases s.tokens.len(), 1nat,
{
    let operator = s.current();
    if infix_handler(operator) == Some(InfixParseFn::Infix) {
        let right = parse_expression_spec(s.advance(), precedence_of(operator));
        match right.value {
            None => failed(right.state),
            Some(operand) => parsed(
                ExpressionView::Infix {
                    operator,
                    left: Box::new(left),
                    right: Box::new(operand),
                },
                right.state,
            ),
        }
    } else {
        failed(s.report(ParserErrorView::NoParsingFunction(operator)))
    }
}

/// An expression in parentheses, the opening one under the cursor. The
/// cursor is left on the closing one.
pub open spec fn parse_grouped_expression_spec(s: ParserState) -> Parsed<ExpressionView>
    decreases s.tokens.len(), 1nat,
{
    if s.current() is LeftParentesis {
        let inner = parse_expression_spec(s.advance(), Precedence::Lowest);
        match inner.value {
            None => failed(inner.state),
            Some(expression) => if inner.state.peek() is RightParentesis {
                parsed(expression, inner.state.advance())
            } else {
                failed(inner.state.expected_next(TokenType::RightParentesis))
            },
        }
    } else {
        failed(s.expected_current(TokenType::LeftParentesis))
    }
}

/// A list of expressions separated by commas, parsed with the cursor behind
/// the opening bracket, up to the token of kind `closing`, on which the
/// cursor is left.
pub open spec fn parse_expression_list_spec(s: ParserState, closing: TokenType) -> Parsed<
    Seq<ExpressionView>,
>
    decreases s.tokens.len(), 4nat,
{
    if s.current().kind() == closing {
        parsed(Seq::empty(), s)
    } else {
        let first = parse_expression_spec(s, Precedence::Lowest);
        match first.value {
            None => failed(first.state),
            Some(expression) => if first.state.tokens.len() <= s.tokens.len() {
                parse_more_expressions_spec(first.state, seq![expression], closing)
            } else {
                failed(first.state)
            },
        }
    }
}

/// The expressions of a list that follow those already parsed, `items`, up
/// to the token of kind `closing`, on which the cursor is left.
pub open spec fn parse_more_expressions_spec(
    s: ParserState,
    items: Seq<ExpressionView>,
    closing: TokenType,
) -> Parsed<Seq<ExpressionView>>
    decreases s.tokens.len(), 0nat,
{
    if s.peek() is Comma {
        let item = parse_expression_spec(s.advance().advance(), Precedence::Lowest);
        match item.value {
            None => failed(item.state),
            Some(expression) => if item.state.tokens.len() < s.tokens.len() {
                parse_more_expressions_spec(item.state, items.push(expression), closing)
            } else {
                failed(item.state)
            },
        }
    } else if s.peek().kind() == closing {
        parsed(items, s.advance())
    } else {
        failed(s.expected_next(closing))
    }
}

/// An array literal, its opening bracket under the cursor.
pub open spec fn parse_array_expression_spec(s: ParserState) -> Parsed<ExpressionView>
    decreases s.tokens.len(), 1nat,
{
    if s.current() is LeftBracket {
        let items = parse_expression_list_spec(s.advance(), TokenType::RightBracket);
        match items.value {
            None => failed(items.state),
            Some(elements) => parsed(ExpressionView::Array(elements), items.state),
        }
    } else {
        failed(s.expected_current(TokenType::LeftBracket))
    }
}

/// The arguments of a call, parsed with the cursor behind the opening
/// parenthesis.
pub open spec fn parse_call_expression_arguments_spec(s: ParserState) -> Parsed<
    Seq<ExpressionView>,
>
    decreases s.tokens.len(), 5nat,
{
    parse_expression_list_spec(s, TokenType::RightParentesis)
}

/// A call of `function`, the opening parenthesis of its arguments under the
/// cursor.
pub open spec fn parse_call_expression_spec(s: ParserState, function: ExpressionView) -> Parsed<
    ExpressionView,
>
    decreases s.tokens.len(), 1nat,
{
    if s.current() is LeftParentesis {
        let arguments = parse_call_expression_arguments_spec(s.advance());
        match arguments.value {
            None => failed(arguments.state),
            Some(items) => parsed(
                ExpressionView::CallExpression { function: Box::new(function), arguments: items },
                arguments.state,
            ),
        }
    } else {
        failed(s.expected_current(TokenType::LeftParentesis))
    }
}

/// A conditional, `if` under the cursor: a condition in parentheses, a
/// block, and where `else` follows the block, a second block.
pub open spec fn parse_if_expression_spec(s: ParserState) -> Parsed<ExpressionView>
    decreases s.tokens.len(), 1nat,
{
    if !(s.current() is If) {
        failed(s.expected_current(TokenType::If))
    } else if !(s.peek() is LeftParentesis) {
        failed(s.expected_next(TokenType::LeftParentesis))
    } else {
        let condition = parse_expression_spec(s.advance().advance(), Precedence::Lowest);
        match condition.value {
            None => failed(condition.state),
            Some(test) => {
                let at_close = condition.state.advance();
                if condition.state.tokens.len() > s.tokens.len() {
                    failed(condition.state)
                } else if !(condition.state.peek() is RightParentesis) {
                    failed(condition.state.expected_next(TokenType::RightParentesis))
                } else if !(at_close.peek() is LeftBrace) {
                    failed(at_close.expected_next(TokenType::LeftBrace))
                } else {
                    let consequence = parse_block_statement_spec(at_close.advance());
                    match consequence.value {
                        None => failed(consequence.state),
                        Some(then_block) => {
                            let at_else = consequence.state.advance();
                            if !(consequence.state.peek() is Else) {
                                parsed(
                                    ExpressionView::IfExpression {
                                        condition: Box::new(test),
                                        consequence: then_block,
                                        alternative: None,
                                    },
                                    consequence.state,
                                )
                            } else if consequence.state.tokens.len() > s.tokens.len() {
                                failed(consequence.state)
                            } else if !(at_else.peek() is LeftBrace) {
                                failed(at_else.expected_next(TokenType::LeftBrace))
                            } else {
                                let alternative = parse_block_statement_spec(at_else.advance());
                                match alternative.value {
                                    None => failed(alternative.state),
                                    Some(else_block) => parsed(
                                        ExpressionView::IfExpression {
                                            condition: Box::new(test),
                                            consequence: then_block,
                                            alternative: Some(else_block),
                                        },
                                        alternative.state,
                                    ),
                                }
                            }
                        },
                    }
                }
            },
        }
    }
}

/// A function literal, `fn` under the cursor: a parameter list in
/// parentheses and a block.
pub open spec fn parse_function_expression_spec(s: ParserState) -> Parsed<ExpressionView>
    decreases s.tokens.len(), 1nat,
{
    if !(s.current() is Function) {
        failed(s.expected_current(TokenType::Function))
    } else if !(s.peek() is LeftParentesis) {
        failed(s.expected_next(TokenType::LeftParentesis))
    } else {
        let parameters = parse_function_parameters_spec(s.advance().advance());
        match parameters.value {
            None => failed(parameters.state),
            Some(names) => if parameters.state.tokens.len() > s.tokens.len() {
                failed(parameters.state)
            } else if !(parameters.state.peek() is LeftBrace) {
                failed(parameters.state.expected_next(TokenType::LeftBrace))
            } else {
                let body = parse_block_statement_spec(parameters.state.advance());
                match body.value {
                    None => failed(body.state),
                    Some(statements) => parsed(
                        ExpressionView::FunctionExpression { parameters: names, body: statements },
                        body.state,
                    ),
                }
            },
        }
    }
}

/// A block, its opening brace under the cursor: statements up to the
/// closing brace, on which the cursor is left, or up to the end of the
/// input.
pub open spec fn parse_block_statement_spec(s: ParserState) -> Parsed<Seq<AstNodeView>>
    decreases s.tokens.len(), 8nat,
{
    if s.current() is LeftBrace {
        let (statements, state) = parse_statements_spec(s.advance(), Seq::empty(), true);
        parsed(statements, state)
    } else {
        failed(s.expected_current(TokenType::LeftBrace))
    }
}

/// The statements from the cursor on, appended to `done`: up to the end of
/// the input, or, inside a block, up to its closing brace. A statement that
/// fails to parse is left out; what it recorded stays, and parsing resumes
/// behind the next semicolon.
pub open spec fn parse_statements_spec(
    s: ParserState,
    done: Seq<AstNodeView>,
    in_block: bool,
) -> (Seq<AstNodeView>, ParserState)
    decreases s.tokens.len(), 7nat,
{
    if s.at_end_of_statements(in_block) {
        (done, s)
    } else {
        let statement = parse_statement_spec(s);
        match statement.value {
            Some(node) => {
                let next = statement.state.advance();
                if next.tokens.len() < s.tokens.len() {
                    parse_statements_spec(next, done.push(node), in_block)
                } else {
                    (done.push(node), next)
                }
            },
            None => {
                let next = synchronize_spec(statement.state, in_block);
                if next.tokens.len() < s.tokens.len() {
                    parse_statements_spec(next, done, in_block)
                } else {
                    (done, next)
                }
            },
        }
    }
}

/// The statement that starts under the cursor: a `let` statement, a
/// `return` statement, or an expression taken as a statement.
pub open spec fn parse_statement_spec(s: ParserState) -> Parsed<AstNodeView>
    decreases s.tokens.len(), 6nat,
{
    match s.current() {
        TokenView::Let => parse_let_statement_spec(s),
        TokenView::Return => parse_return_statement_spec(s),
        _ => parse_expression_statement_spec(s),
    }
}

/// A `let` statement, `let` under the cursor: a name, `=`, an expression
/// and a semicolon, on which the cursor is left.
pub open spec fn parse_let_statement_spec(s: ParserState) -> Parsed<AstNodeView>
    decreases s.tokens.len(), 5nat,
{
    let at_name = s.advance();
    match s.peek() {
        TokenView::Identifier(name) => if !(at_name.peek() is Assign) {
            failed(at_name.expected_next(TokenType::Assign))
        } else {
            let value = parse_expression_spec(at_name.advance().advance(), Precedence::Lowest);
            match value.value {
                None => failed(value.state),
                Some(expression) => if value.state.peek() is Semicolon {
                    parsed(
                        AstNodeView::Statement(
                            StatementView::LetStatement {
                                name: ExpressionView::Identifier(name),
                                value: expression,
                            },
                        ),
                        value.state.advance(),
                    )
                } else {
                    failed(value.state.expected_next(TokenType::Semicolon))
                },
            }
        },
        _ => failed(s.expected_next(TokenType::Identifier)),
    }
}

/// A `return` statement, `return` under the cursor: an expression that
/// starts with an integer literal, and a semicolon where one follows.
pub open spec fn parse_return_statement_spec(s: ParserState) -> Parsed<AstNodeView>
    decreases s.tokens.len(), 5nat,
{
    if s.peek() is Int {
        let value = parse_expression_spec(s.advance(), Precedence::Lowest);
        match value.value {
            None => failed(value.state),
            Some(expression) => parsed(
                AstNodeView::Statement(StatementView::ReturnStatement(expression)),
                skip_semicolon_spec(value.state),
            ),
        }
    } else {
        failed(s.expected_next(TokenType::Int))
    }
}

/// An expression taken as a statement, and a semicolon where one follows.
pub open spec fn parse_expression_statement_spec(s: ParserState) -> Parsed<AstNodeView>
    decreases s.tokens.len(), 5nat,
{
    let value = parse_expression_spec(s, Precedence::Lowest);
    match value.value {
        None => failed(value.state),
        Some(expression) => parsed(
            AstNodeView::Expression(expression),
            skip_semicolon_spec(value.state),
        ),
    }
}

/// The state with the cursor moved onto the semicolon that follows it, if
/// one does.
pub open spec fn skip_semicolon_spec(s: ParserState) -> ParserState {
    if s.peek() is Semicolon {
        s.advance()
    } else {
        s
    }
}

/// The statements of a whole program and the state at its end.
pub open spec fn parse_program_spec(s: ParserState) -> (Seq<AstNodeView>, ParserState) {
    parse_statements_spec(s, Seq::empty(), false)
}

} // verus!

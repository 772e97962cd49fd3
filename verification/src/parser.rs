//! The parser: from tokens to an abstract syntax tree, by recursive descent
//! with precedence climbing.
//!
//! What each function builds and how far it moves the cursor is defined in
//! [`crate::grammar`]; the contracts here say that the parser computes those
//! definitions.

use vstd::prelude::*;
use vstd::string::*;

use crate::ast::{
    lemma_expressions_view_push, lemma_nodes_view_push, lemma_tokens_view_push, AstNode,
    BlockStatement, Expression, Statement,
};
use crate::ast::{expressions_view, nodes_view, tokens_view, AstNodeView};
use crate::grammar::{
    decimal_value, extend_expression_spec, infix_handler, is_decimal, kind_name,
    parse_array_expression_spec, parse_block_statement_spec, parse_boolean_expression_spec,
    parse_call_expression_arguments_spec, parse_call_expression_spec, parse_decimal,
    parse_expression_list_spec, parse_expression_spec, parse_expression_statement_spec,
    parse_function_expression_spec, parse_function_parameters_spec,
    parse_grouped_expression_spec, parse_identifier_spec, parse_if_expression_spec,
    parse_infix_expression_spec, parse_int_spec, parse_let_statement_spec,
    parse_more_expressions_spec, parse_more_parameters_spec, parse_prefix_expression_spec,
    parse_prefix_spec, parse_program_spec, parse_return_statement_spec, parse_statement_spec,
    parse_statements_spec, parse_string_spec, precedence_of, prefix_handler,
    skip_semicolon_spec, synchronize_spec, token_text, InfixParseFn, Parsed, ParserErrorView,
    ParserState, Precedence, PrefixParseFn,
};
use crate::lexer::{
    characters, digit, is_digit, lemma_tokens_from_unfold, lemma_tokens_hold_no_eof, tokens_of,
    Lexer,
};
use crate::token::{Token, TokenType, TokenView};

verus! {

impl Precedence {
    /// The position of this level in the order of levels, as a number.
    pub fn level(&self) -> (rank: u8)
        ensures
            rank == self.rank(),
    {
        match self {
            Precedence::Lowest => 0,
            Precedence::Equals => 1,
            Precedence::LessGreater => 2,
            Precedence::Sum => 3,
            Precedence::Product => 4,
            Precedence::Prefix => 5,
            Precedence::Call => 6,
        }
    }
}

impl TokenType {
    /// The name of this kind of token in an error message.
    pub fn name(&self) -> (name: &'static str)
        ensures
            name@ == kind_name(*self),
    {
        match self {
            TokenType::Illegal => "illegal character",
            TokenType::Eof => "end of input",
            TokenType::Identifier => "identifier",
            TokenType::Int => "integer",
            TokenType::String => "string",
            TokenType::Assign => "=",
            TokenType::Plus => "+",
            TokenType::Minus => "-",
            TokenType::Bang => "!",
            TokenType::Asterisk => "*",
            TokenType::Slash => "/",
            TokenType::LessThan => "<",
            TokenType::GreaterThan => ">",
            TokenType::Equals => "==",
            TokenType::NotEquals => "!=",
            TokenType::Comma => ",",
            TokenType::Semicolon => ";",
            TokenType::LeftParentesis => "(",
            TokenType::RightParentesis => ")",
            TokenType::LeftBrace => "{",
            TokenType::RightBrace => "}",
            TokenType::LeftBracket => "[",
            TokenType::RightBracket => "]",
            TokenType::Function => "fn",
            TokenType::Let => "let",
            TokenType::True => "true",
            TokenType::False => "false",
            TokenType::If => "if",
            TokenType::Else => "else",
            TokenType::Return => "return",
        }
    }
}

impl Token {
    /// The precedence of this token when it stands between two operands.
    pub fn precedence(&self) -> (precedence: Precedence)
        ensures
            precedence == precedence_of(self@),
    {
        match self {
            Token::Equals | Token::NotEquals => Precedence::Equals,
            Token::Plus | Token::Minus => Precedence::Sum,
            Token::LeftParentesis => Precedence::Call,
            Token::Asterisk | Token::Slash => Precedence::Product,
            Token::LessThan | Token::GreaterThan => Precedence::LessGreater,
            _ => Precedence::Lowest,
        }
    }

    /// The way to parse an expression that starts with this token, if any
    /// expression starts with it.
    pub fn prefix_parse_fn(&self) -> (handler: Option<PrefixParseFn>)
        ensures
            handler == prefix_handler(self@),
    {
        match self {
            Token::String(_) => Some(PrefixParseFn::String),
            Token::Identifier(_) => Some(PrefixParseFn::Identifier),
            Token::Int(_) => Some(PrefixParseFn::Int),
            Token::Bang => Some(PrefixParseFn::Prefix),
            Token::LeftParentesis => Some(PrefixParseFn::Grouped),
            Token::LeftBracket => Some(PrefixParseFn::Array),
            Token::Minus => Some(PrefixParseFn::Prefix),
            Token::True | Token::False => Some(PrefixParseFn::Boolean),
            Token::If => Some(PrefixParseFn::If),
            Token::Function => Some(PrefixParseFn::Function),
            _ => None,
        }
    }

    /// The way to extend an expression that this token follows, if it can
    /// follow one.
    pub fn infix_parse_fn(&self) -> (handler: Option<InfixParseFn>)
        ensures
            handler == infix_handler(self@),
    {
        match self {
            Token::Plus => Some(InfixParseFn::Infix),
            Token::Minus => Some(InfixParseFn::Infix),
            Token::Slash => Some(InfixParseFn::Infix),
            Token::Asterisk => Some(InfixParseFn::Infix),
            Token::GreaterThan => Some(InfixParseFn::Infix),
            Token::LessThan => Some(InfixParseFn::Infix),
            Token::Equals => Some(InfixParseFn::Infix),
            Token::NotEquals => Some(InfixParseFn::Infix),
            Token::LeftParentesis => Some(InfixParseFn::Call),
            _ => None,
        }
    }

    /// How this token is shown in an error message.
    pub fn text(&self) -> (text: String)
        ensures
            text@ == token_text(self@),
    {
        match self {
            Token::Identifier(name) => name.clone(),
            Token::Int(digits) => digits.clone(),
            Token::String(text) => text.clone(),
            _ => String::from_str(self.token_type().name()),
        }
    }
}

/// Why a construct could not be parsed.
#[derive(Debug, PartialEq, Eq)]
pub enum ParserError {
    /// A token of one kind was required where another stood.
    UnexpectedToken { expected: TokenType, actual: Token },
    /// No expression starts with, or is extended by, this token.
    NoParsingFunction(Token),
    /// The integer literal with these digits does not fit 32 bits.
    IntErr(String),
}

impl View for ParserError {
    type V = ParserErrorView;

    open spec fn view(&self) -> ParserErrorView {
        match self {
            ParserError::UnexpectedToken { expected, actual } => ParserErrorView::UnexpectedToken {
                expected: *expected,
                actual: actual@,
            },
            ParserError::NoParsingFunction(token) => ParserErrorView::NoParsingFunction(token@),
            ParserError::IntErr(digits) => ParserErrorView::IntErr(digits@),
        }
    }
}

impl ParserError {
    /// The message under which this error is recorded.
    pub fn message(&self) -> (message: String)
        ensures
            message@ == self@.message(),
    {
        match self {
            ParserError::UnexpectedToken { expected, actual } => {
                let mut message = String::from_str("expected token ");
                message.append(expected.name());
                message.append(", got ");
                message.append(actual.text().as_str());
                message
            },
            ParserError::NoParsingFunction(token) => {
                let mut message = String::from_str("no parsing function for token ");
                message.append(token.text().as_str());
                message
            },
            ParserError::IntErr(digits) => {
                let mut message = String::from_str("error parsing integer: ");
                message.append(digits.as_str());
                message
            },
        }
    }
}

/// A prefix of a run of digits denotes no more than the whole run.
pub proof fn lemma_decimal_value_grows(digits: Seq<char>, k: int)
    requires
        0 <= k <= digits.len(),
        forall|i: int| 0 <= i < digits.len() ==> digit(#[trigger] digits[i]),
    ensures
        0 <= decimal_value(digits.take(k)) <= decimal_value(digits),
    decreases digits.len() - k,
{
    if k == digits.len() {
        assert(digits.take(k) =~= digits);
        lemma_decimal_value_nonnegative(digits);
    } else {
        assert(digits.drop_last().take(k) =~= digits.take(k));
        lemma_decimal_value_grows(digits.drop_last(), k);
    }
}

/// A run of digits denotes no negative number.
pub proof fn lemma_decimal_value_nonnegative(digits: Seq<char>)
    requires
        forall|i: int| 0 <= i < digits.len() ==> digit(#[trigger] digits[i]),
    ensures
        0 <= decimal_value(digits),
    decreases digits.len(),
{
    if digits.len() > 0 {
        lemma_decimal_value_nonnegative(digits.drop_last());
    }
}

/// The integer that `text` denotes, where it is a decimal literal whose
/// value fits a 32-bit signed integer.
pub fn parse_decimal_text(text: &str) -> (value: Option<i32>)
    ensures
        match value {
            Some(v) => parse_decimal(text@) == Some(v as int),
            None => parse_decimal(text@) is None,
        },
{
    let chars = characters(text);
    if chars.len() == 0 {
        return None;
    }
    let mut value: i64 = 0;
    let mut i: usize = 0;
    while i < chars.len()
        invariant
            chars@ == text@,
            i <= chars.len(),
            forall|k: int| 0 <= k < i ==> digit(#[trigger] chars[k]),
            value == decimal_value(chars@.take(i as int)),
            0 <= value <= i32::MAX,
        decreases chars.len() - i,
    {
        let c = chars[i];
        if !is_digit(c) {
            return None;
        }
        let d = (c as u32 - '0' as u32) as i64;
        proof {
            assert(chars@.take(i + 1).drop_last() =~= chars@.take(i as int));
        }
        value = value * 10 + d;
        if value > i32::MAX as i64 {
            proof {
                if is_decimal(text@) {
                    lemma_decimal_value_grows(text@, i + 1);
                }
            }
            return None;
        }
        i += 1;
    }
    proof {
        assert(chars@.take(chars.len() as int) =~= chars@);
    }
    Some(value as i32)
}

/// The messages of a list of strings.
pub open spec fn messages_view(messages: Seq<String>) -> Seq<Seq<char>> {
    messages.map_values(|m: String| m@)
}

/// A parser over the tokens of a lexer. It holds the token under the cursor
/// and the one that follows it; everything behind them is still in the
/// lexer.
#[derive(Debug)]
pub struct Parser {
    /// The messages of the errors met so far, oldest first.
    pub errors: Vec<String>,
    lexer: Lexer,
    current_token: Token,
    next_token: Token,
}

impl View for Parser {
    type V = ParserState;

    closed spec fn view(&self) -> ParserState {
        ParserState { tokens: self.stream(), errors: messages_view(self.errors@) }
    }
}

impl Parser {
    /// The tokens not yet consumed, the one under the cursor first, without
    /// the end-of-input token.
    pub closed spec fn stream(&self) -> Seq<TokenView> {
        if self.current_token@ is Eof {
            Seq::empty()
        } else if self.next_token@ is Eof {
            seq![self.current_token@]
        } else {
            seq![self.current_token@, self.next_token@] + self.lexer.remaining()
        }
    }

    /// What holds of a parser between any two of its operations: once the
    /// end of the input is under the cursor or behind it, nothing but the end
    /// of the input follows.
    pub closed spec fn wf(&self) -> bool {
        &&& self.lexer.well_formed()
        &&& self.current_token@ is Eof ==> self.next_token@ is Eof
        &&& self.next_token@ is Eof ==> self.lexer.remaining().len() == 0
    }

    /// A parser at the first token of what `lexer` has still to hand out.
    pub fn new(lexer: Lexer) -> (parser: Parser)
        ensures
            parser.wf(),
            parser@.tokens == lexer.remaining(),
            parser@.errors == Seq::<Seq<char>>::empty(),
    {
        let ghost start = lexer.remaining();
        let mut lexer = lexer;
        proof {
            use_type_invariant(&lexer);
            lexer.lemma_offset_in_bounds();
            lemma_tokens_from_unfold(lexer.source(), lexer.offset());
        }
        let current_token = lexer.next_token();
        proof {
            use_type_invariant(&lexer);
            lemma_tokens_from_unfold(lexer.source(), lexer.offset());
        }
        let next_token = lexer.next_token();
        proof {
            use_type_invariant(&lexer);
            lemma_tokens_from_unfold(lexer.source(), lexer.offset());
        }
        let parser = Parser { errors: Vec::new(), lexer, current_token, next_token };
        assert(parser@.errors =~= Seq::<Seq<char>>::empty());
        assert(parser@.tokens =~= start);
        parser
    }

    /// Moves the cursor one token on. At the end of the input it stays.
    fn advance_tokens(&mut self)
        requires
            old(self).wf(),
        ensures
            final(self).wf(),
            final(self)@ == old(self)@.advance(),
    {
        proof {
            use_type_invariant(&self.lexer);
            self.lexer.lemma_offset_in_bounds();
            lemma_tokens_from_unfold(self.lexer.source(), self.lexer.offset());
            lemma_tokens_hold_no_eof(self.lexer.source(), self.lexer.offset());
        }
        let ghost before = self.stream();
        core::mem::swap(&mut self.current_token, &mut self.next_token);
        self.next_token = self.lexer.next_token();
        proof {
            use_type_invariant(&self.lexer);
            lemma_tokens_from_unfold(self.lexer.source(), self.lexer.offset());
            if before.len() > 0 {
                assert(self.stream() =~= before.skip(1));
            }
        }
    }

    /// Records `error`.
    fn report_error(&mut self, error: ParserError)
        requires
            old(self).wf(),
        ensures
            final(self).wf(),
            final(self)@ == old(self)@.report(error@),
    {
        let message = error.message();
        self.errors.push(message);
        assert(messages_view(self.errors@) =~= messages_view(old(self).errors@).push(message@));
    }

    /// Records that a token of kind `expected` was required where `actual`
    /// stood.
    fn report_expected_token_error(&mut self, expected: TokenType, actual: Token)
        requires
            old(self).wf(),
        ensures
            final(self).wf(),
            final(self)@ == old(self)@.report(
                ParserErrorView::UnexpectedToken { expected, actual: actual@ },
            ),
    {
        self.report_error(ParserError::UnexpectedToken { expected, actual });
    }

    /// Whether the token under the cursor is of kind `kind`.
    fn current_token_is(&self, kind: TokenType) -> (b: bool)
        requires
            self.wf(),
        ensures
            b == (self@.current().kind() == kind),
    {
        proof {
            lemma_lookahead(*self);
        }
        self.current_token.token_type() == kind
    }

    /// Whether the token behind the cursor is of kind `kind`.
    fn next_token_is(&self, kind: TokenType) -> (b: bool)
        requires
            self.wf(),
        ensures
            b == (self@.peek().kind() == kind),
    {
        proof {
            lemma_lookahead(*self);
        }
        self.next_token.token_type() == kind
    }

    /// Tests that the token under the cursor is of kind `kind`, and records
    /// an error where it is not.
    fn expect_current_token(&mut self, kind: TokenType) -> (b: bool)
        requires
            old(self).wf(),
        ensures
            final(self).wf(),
            b == (old(self)@.current().kind() == kind),
            final(self)@ == if b {
                old(self)@
            } else {
                old(self)@.expected_current(kind)
            },
    {
        proof {
            lemma_lookahead(*self);
        }
        if self.current_token.token_type() == kind {
            true
        } else {
            let actual = self.current_token.duplicate();
            self.report_expected_token_error(kind, actual);
            false
        }
    }

    /// Moves the cursor onto the next token where that is of kind `kind`,
    /// and records an error where it is not.
    fn expect_next_token(&mut self, kind: TokenType) -> (b: bool)
        requires
            old(self).wf(),
        ensures
            final(self).wf(),
            b == (old(self)@.peek().kind() == kind),
            final(self)@ == if b {
                old(self)@.advance()
            } else {
                old(self)@.expected_next(kind)
            },
    {
        proof {
            lemma_lookahead(*self);
        }
        if self.next_token.token_type() == kind {
            self.advance_tokens();
            true
        } else {
            let actual = self.next_token.duplicate();
            self.report_expected_token_error(kind, actual);
            false
        }
    }

    /// Parses the identifier under the cursor.
    fn parse_identifier(&mut self) -> (result: Option<Expression>)
        requires
            old(self).wf(),
        ensures
            final(self).wf(),
            agrees(result, final(self)@, parse_identifier_spec(old(self)@)),
            final(self)@.tokens == old(self)@.tokens,
    {
        proof {
            lemma_lookahead(*self);
        }
        if let Token::Identifier(name) = &self.current_token {
            return Some(Expression::Identifier(name.clone()));
        }
        self.expect_current_token(TokenType::Identifier);
        None
    }

    /// Parses the integer literal under the cursor.
    fn parse_int(&mut self) -> (result: Option<Expression>)
        requires
            old(self).wf(),
        ensures
            final(self).wf(),
            agrees(result, final(self)@, parse_int_spec(old(self)@)),
            final(self)@.tokens == old(self)@.tokens,
    {
        proof {
            lemma_lookahead(*self);
        }
        if let Token::Int(digits) = &self.current_token {
            return match parse_decimal_text(digits.as_str()) {
                Some(value) => Some(Expression::Int(value)),
                None => {
                    let error = ParserError::IntErr(digits.clone());
                    self.report_error(error);
                    None
                },
            };
        }
        self.expect_current_token(TokenType::Int);
        None
    }

    /// Parses the string literal under the cursor.
    fn parse_string(&mut self) -> (result: Option<Expression>)
        requires
            old(self).wf(),
        ensures
            final(self).wf(),
            agrees(result, final(self)@, parse_string_spec(old(self)@)),
            final(self)@.tokens == old(self)@.tokens,
    {
        proof {
            lemma_lookahead(*self);
        }
        if let Token::String(text) = &self.current_token {
            return Some(Expression::String(text.clone()));
        }
        self.expect_current_token(TokenType::String);
        None
    }

    /// Parses `true` or `false` under the cursor.
    fn parse_boolean_expression(&mut self) -> (result: Option<Expression>)
        requires
            old(self).wf(),
        ensures
            final(self).wf(),
            agrees(result, final(self)@, parse_boolean_expression_spec(old(self)@)),
            final(self)@.tokens == old(self)@.tokens,
    {
        proof {
            lemma_lookahead(*self);
        }
        match self.current_token {
            Token::True => Some(Expression::Boolean(true)),
            Token::False => Some(Expression::Boolean(false)),
            _ => {
                self.expect_current_token(TokenType::True);
                None
            },
        }
    }

    /// Parses the parameter list of a function literal, with the cursor
    /// behind the opening parenthesis.
    fn parse_function_parameters(&mut self) -> (result: Option<Vec<Token>>)
        requires
            old(self).wf(),
        ensures
            final(self).wf(),
            final(self)@ == parse_function_parameters_spec(old(self)@).state,
            match result {
                Some(names) => parse_function_parameters_spec(old(self)@).value == Some(
                    tokens_view(names@),
                ),
                None => parse_function_parameters_spec(old(self)@).value is None,
            },
            final(self)@.tokens.len() <= old(self)@.tokens.len(),
    {
        let mut parameters: Vec<Token> = Vec::new();
        proof {
            lemma_lookahead(*self);
        }
        if self.current_token_is(TokenType::RightParentesis) {
            assert(tokens_view(parameters@) =~= Seq::<TokenView>::empty());
            return Some(parameters);
        }
        if !self.expect_current_token(TokenType::Identifier) {
            return None;
        }
        parameters.push(self.current_token.duplicate());
        assert(tokens_view(parameters@) =~= seq![self@.current()]);
        while self.next_token_is(TokenType::Comma)
            invariant
                self.wf(),
                self@.tokens.len() <= old(self)@.tokens.len(),
                parse_more_parameters_spec(self@, tokens_view(parameters@))
                    == parse_function_parameters_spec(old(self)@),
            decreases self@.tokens.len(),
        {
            self.advance_tokens();
            self.advance_tokens();
            if !self.expect_current_token(TokenType::Identifier) {
                return None;
            }
            proof {
                lemma_lookahead(*self);
                lemma_tokens_view_push(parameters@, self.current_token);
            }
            parameters.push(self.current_token.duplicate());
        }
        if !self.expect_next_token(TokenType::RightParentesis) {
            return None;
        }
        Some(parameters)
    }

    /// Skips what is left of a statement that failed to parse: the tokens up
    /// to and including the next semicolon. The end of the input, and inside
    /// a block the closing brace, stop the skipping and stay.
    fn synchronize(&mut self, in_block: bool)
        requires
            old(self).wf(),
        ensures
            final(self).wf(),
            final(self)@ == synchronize_spec(old(self)@, in_block),
            final(self)@.tokens.len() <= old(self)@.tokens.len(),
            !old(self)@.at_end_of_statements(in_block) ==> final(self)@.tokens.len() < old(
                self,
            )@.tokens.len(),
    {
        while !self.at_end_of_statements(in_block)
            invariant
                self.wf(),
                self@.tokens.len() < old(self)@.tokens.len() || self@ == old(self)@,
                synchronize_spec(self@, in_block) == synchronize_spec(old(self)@, in_block),
            decreases self@.tokens.len(),
        {
            let done = self.current_token_is(TokenType::Semicolon);
            self.advance_tokens();
            if done {
                return ;
            }
        }
    }

    /// Whether a sequence of statements ends with the cursor where it is.
    fn at_end_of_statements(&self, in_block: bool) -> (b: bool)
        requires
            self.wf(),
        ensures
            b == self@.at_end_of_statements(in_block),
    {
        self.current_token_is(TokenType::Eof) || (in_block && self.current_token_is(
            TokenType::RightBrace,
        ))
    }

    /// Moves the cursor onto the semicolon that follows it, if one does.
    fn skip_semicolon(&mut self)
        requires
            old(self).wf(),
        ensures
            final(self).wf(),
            final(self)@ == skip_semicolon_spec(old(self)@),
            final(self)@.tokens.len() <= old(self)@.tokens.len(),
    {
        if self.next_token_is(TokenType::Semicolon) {
            self.advance_tokens();
        }
    }

    /// Parses an expression that binds tighter than `precedence`, with the
    /// cursor on its first token, and leaves the cursor on its last.
    fn parse_expression(&mut self, precedence: Precedence) -> (result: Option<Expression>)
        requires
            old(self).wf(),
        ensures
            final(self).wf(),
            agrees(result, final(self)@, parse_expression_spec(old(self)@, precedence)),
            final(self)@.tokens.len() <= old(self)@.tokens.len(),
        decreases old(self)@.tokens.len(), 3nat,
    {
        let mut left = match self.parse_prefix() {
            None => {
                return None;
            },
            Some(expression) => expression,
        };
        loop
            invariant
                self.wf(),
                self@.tokens.len() <= old(self)@.tokens.len(),
                extend_expression_spec(self@, left@, precedence) == parse_expression_spec(
                    old(self)@,
                    precedence,
                ),
            decreases self@.tokens.len(),
        {
            proof {
                lemma_lookahead(*self);
            }
            if self.next_token_is(TokenType::Semicolon) || precedence.level()
                >= self.next_token.precedence().level() {
                return Some(left);
            }
            match self.next_token.infix_parse_fn() {
                None => {
                    let token = self.next_token.duplicate();
                    self.report_error(ParserError::NoParsingFunction(token));
                    return None;
                },
                Some(handler) => {
                    self.advance_tokens();
                    let extended = match handler {
                        InfixParseFn::Infix => self.parse_infix_expression(left),
                        InfixParseFn::Call => self.parse_call_expression(left),
                    };
                    match extended {
                        None => {
                            return None;
                        },
                        Some(expression) => {
                            left = expression;
                        },
                    }
                },
            }
        }
    }

    /// Parses the expression that the token under the cursor starts.
    fn parse_prefix(&mut self) -> (result: Option<Expression>)
        requires
            old(self).wf(),
        ensures
            final(self).wf(),
            agrees(result, final(self)@, parse_prefix_spec(old(self)@)),
            final(self)@.tokens.len() <= old(self)@.tokens.len(),
        decreases old(self)@.tokens.len(), 2nat,
    {
        proof {
            lemma_lookahead(*self);
        }
        match self.current_token.prefix_parse_fn() {
            None => {
                let token = self.current_token.duplicate();
                self.report_error(ParserError::NoParsingFunction(token));
                None
            },
            Some(PrefixParseFn::String) => self.parse_string(),
            Some(PrefixParseFn::Identifier) => self.parse_identifier(),
            Some(PrefixParseFn::Int) => self.parse_int(),
            Some(PrefixParseFn::Boolean) => self.parse_boolean_expression(),
            Some(PrefixParseFn::Prefix) => self.parse_prefix_expression(),
            Some(PrefixParseFn::Grouped) => self.parse_grouped_expression(),
            Some(PrefixParseFn::Array) => self.parse_array_expression(),
            Some(PrefixParseFn::If) => self.parse_if_expression(),
            Some(PrefixParseFn::Function) => self.parse_function_expression(),
        }
    }

    /// Parses a unary operator under the cursor and its operand.
    fn parse_prefix_expression(&mut self) -> (result: Option<Expression>)
        requires
            old(self).wf(),
        ensures
            final(self).wf(),
            agrees(result, final(self)@, parse_prefix_expression_spec(old(self)@)),
            final(self)@.tokens.len() <= old(self)@.tokens.len(),
        decreases old(self)@.tokens.len(), 1nat,
    {
        proof {
            lemma_lookahead(*self);
        }
        let operator = self.current_token.duplicate();
        if !(matches!(operator, Token::Bang) || matches!(operator, Token::Minus)) {
            self.report_error(ParserError::NoParsingFunction(operator));
            return None;
        }
        self.advance_tokens();
        match self.parse_expression(Precedence::Prefix) {
            None => None,
            Some(right) => Some(Expression::Prefix { operator, right: Box::new(right) }),
        }
    }

    /// Parses a binary operator under the cursor and its right operand, and
    /// applies it to `left_expression`.
    fn parse_infix_expression(&mut self, left_expression: Expression) -> (result: Option<
        Expression,
    >)
        requires
            old(self).wf(),
        ensures
            final(self).wf(),
            agrees(
                result,
                final(self)@,
                parse_infix_expression_spec(old(self)@, left_expression@),
            ),
            final(self)@.tokens.len() <= old(self)@.tokens.len(),
        decreases old(self)@.tokens.len(), 1nat,
    {
        proof {
            lemma_lookahead(*self);
        }
        let operator = self.current_token.duplicate();
        match operator.infix_parse_fn() {
            Some(InfixParseFn::Infix) => {},
            _ => {
                self.report_error(ParserError::NoParsingFunction(operator));
                return None;
            },
        }
        let precedence = operator.precedence();
        self.advance_tokens();
        match self.parse_expression(precedence) {
            None => None,
            Some(right) => Some(
                Expression::Infix {
                    operator,
                    left: Box::new(left_expression),
                    right: Box::new(right),
                },
            ),
        }
    }

    /// Parses an expression in parentheses, the opening one under the
    /// cursor.
    fn parse_grouped_expression(&mut self) -> (result: Option<Expression>)
        requires
            old(self).wf(),
        ensures
            final(self).wf(),
            agrees(result, final(self)@, parse_grouped_expression_spec(old(self)@)),
            final(self)@.tokens.len() <= old(self)@.tokens.len(),
        decreases old(self)@.tokens.len(), 1nat,
    {
        if !self.expect_current_token(TokenType::LeftParentesis) {
            return None;
        }
        self.advance_tokens();
        let expression = match self.parse_expression(Precedence::Lowest) {
            None => {
                return None;
            },
            Some(expression) => expression,
        };
        if !self.expect_next_token(TokenType::RightParentesis) {
            return None;
        }
        Some(expression)
    }

    /// Parses a list of expressions separated by commas, with the cursor
    /// behind the opening bracket, up to the token of kind `closing`.
    fn parse_expression_list(&mut self, closing: TokenType) -> (result: Option<Vec<Expression>>)
        requires
            old(self).wf(),
        ensures
            final(self).wf(),
            final(self)@ == parse_expression_list_spec(old(self)@, closing).state,
            match result {
                Some(items) => parse_expression_list_spec(old(self)@, closing).value == Some(
                    expressions_view(items@),
                ),
                None => parse_expression_list_spec(old(self)@, closing).value is None,
            },
            final(self)@.tokens.len() <= old(self)@.tokens.len(),
        decreases old(self)@.tokens.len(), 4nat,
    {
        let mut items: Vec<Expression> = Vec::new();
        if self.current_token_is(closing) {
            assert(expressions_view(items@) =~= Seq::<crate::ast::ExpressionView>::empty());
            return Some(items);
        }
        let first = match self.parse_expression(Precedence::Lowest) {
            None => {
                return None;
            },
            Some(expression) => expression,
        };
        proof {
            lemma_expressions_view_push(items@, first);
            assert(expressions_view(items@).push(first@) =~= seq![first@]);
        }
        items.push(first);
        while self.next_token_is(TokenType::Comma)
            invariant
                self.wf(),
                self@.tokens.len() <= old(self)@.tokens.len(),
                parse_more_expressions_spec(self@, expressions_view(items@), closing)
                    == parse_expression_list_spec(old(self)@, closing),
            decreases self@.tokens.len(),
        {
            self.advance_tokens();
            self.advance_tokens();
            match self.parse_expression(Precedence::Lowest) {
                None => {
                    return None;
                },
                Some(expression) => {
                    proof {
                        lemma_expressions_view_push(items@, expression);
                    }
                    items.push(expression);
                },
            }
        }
        if !self.expect_next_token(closing) {
            return None;
        }
        Some(items)
    }

    /// Parses an array literal, its opening bracket under the cursor.
    fn parse_array_expression(&mut self) -> (result: Option<Expression>)
        requires
            old(self).wf(),
        ensures
            final(self).wf(),
            agrees(result, final(self)@, parse_array_expression_spec(old(self)@)),
            final(self)@.tokens.len() <= old(self)@.tokens.len(),
        decreases old(self)@.tokens.len(), 1nat,
    {
        if !self.expect_current_token(TokenType::LeftBracket) {
            return None;
        }
        self.advance_tokens();
        match self.parse_expression_list(TokenType::RightBracket) {
            None => None,
            Some(elements) => Some(Expression::Array(elements)),
        }
    }

    /// Parses the arguments of a call, with the cursor behind the opening
    /// parenthesis.
    fn parse_call_expression_arguments(&mut self) -> (result: Option<Vec<Expression>>)
        requires
            old(self).wf(),
        ensures
            final(self).wf(),
            final(self)@ == parse_call_expression_arguments_spec(old(self)@).state,
            match result {
                Some(items) => parse_call_expression_arguments_spec(old(self)@).value == Some(
                    expressions_view(items@),
                ),
                None => parse_call_expression_arguments_spec(old(self)@).value is None,
            },
            final(self)@.tokens.len() <= old(self)@.tokens.len(),
        decreases old(self)@.tokens.len(), 5nat,
    {
        self.parse_expression_list(TokenType::RightParentesis)
    }

    /// Parses a call of `function`, the opening parenthesis of its arguments
    /// under the cursor.
    fn parse_call_expression(&mut self, function: Expression) -> (result: Option<Expression>)
        requires
            old(self).wf(),
        ensures
            final(self).wf(),
            agrees(result, final(self)@, parse_call_expression_spec(old(self)@, function@)),
            final(self)@.tokens.len() <= old(self)@.tokens.len(),
        decreases old(self)@.tokens.len(), 1nat,
    {
        if !self.expect_current_token(TokenType::LeftParentesis) {
            return None;
        }
        self.advance_tokens();
        match self.parse_call_expression_arguments() {
            None => None,
            Some(arguments) => Some(
                Expression::CallExpression { function: Box::new(function), arguments },
            ),
        }
    }

    /// Parses a conditional, `if` under the cursor.
    fn parse_if_expression(&mut self) -> (result: Option<Expression>)
        requires
            old(self).wf(),
        ensures
            final(self).wf(),
            agrees(result, final(self)@, parse_if_expression_spec(old(self)@)),
            final(self)@.tokens.len() <= old(self)@.tokens.len(),
        decreases old(self)@.tokens.len(), 1nat,
    {
        if !self.expect_current_token(TokenType::If) {
            return None;
        }
        if !self.expect_next_token(TokenType::LeftParentesis) {
            return None;
        }
        self.advance_tokens();
        let condition = match self.parse_expression(Precedence::Lowest) {
            None => {
                return None;
            },
            Some(expression) => expression,
        };
        if !self.expect_next_token(TokenType::RightParentesis) {
            return None;
        }
        if !self.expect_next_token(TokenType::LeftBrace) {
            return None;
        }
        let consequence = match self.parse_block_statement() {
            None => {
                return None;
            },
            Some(block) => block,
        };
        if !self.next_token_is(TokenType::Else) {
            return Some(
                Expression::IfExpression {
                    condition: Box::new(condition),
                    consequence: Box::new(consequence),
                    alternative: None,
                },
            );
        }
        self.advance_tokens();
        if !self.expect_next_token(TokenType::LeftBrace) {
            return None;
        }
        match self.parse_block_statement() {
            None => None,
            Some(block) => Some(
                Expression::IfExpression {
                    condition: Box::new(condition),
                    consequence: Box::new(consequence),
                    alternative: Some(block),
                },
            ),
        }
    }

    /// Parses a function literal, `fn` under the cursor.
    fn parse_function_expression(&mut self) -> (result: Option<Expression>)
        requires
            old(self).wf(),
        ensures
            final(self).wf(),
            agrees(result, final(self)@, parse_function_expression_spec(old(self)@)),
            final(self)@.tokens.len() <= old(self)@.tokens.len(),
        decreases old(self)@.tokens.len(), 1nat,
    {
        if !self.expect_current_token(TokenType::Function) {
            return None;
        }
        if !self.expect_next_token(TokenType::LeftParentesis) {
            return None;
        }
        self.advance_tokens();
        let parameters = match self.parse_function_parameters() {
            None => {
                return None;
            },
            Some(names) => names,
        };
        if !self.expect_next_token(TokenType::LeftBrace) {
            return None;
        }
        match self.parse_block_statement() {
            None => None,
            Some(block) => Some(
                Expression::FunctionExpression { parameters, body: Box::new(block) },
            ),
        }
    }

    /// Parses a block, its opening brace under the cursor.
    fn parse_block_statement(&mut self) -> (result: Option<BlockStatement>)
        requires
            old(self).wf(),
        ensures
            final(self).wf(),
            agrees(result, final(self)@, parse_block_statement_spec(old(self)@)),
            final(self)@.tokens.len() <= old(self)@.tokens.len(),
        decreases old(self)@.tokens.len(), 8nat,
    {
        if !self.expect_current_token(TokenType::LeftBrace) {
            return None;
        }
        self.advance_tokens();
        let statements = self.parse_statements(true);
        Some(BlockStatement { statements })
    }

    /// Parses the statements from the cursor on: up to the end of the input,
    /// or, inside a block, up to its closing brace.
    fn parse_statements(&mut self, in_block: bool) -> (statements: Vec<AstNode>)
        requires
            old(self).wf(),
        ensures
            final(self).wf(),
            (nodes_view(statements@), final(self)@) == parse_statements_spec(
                old(self)@,
                Seq::empty(),
                in_block,
            ),
            final(self)@.tokens.len() <= old(self)@.tokens.len(),
        decreases old(self)@.tokens.len(), 7nat,
    {
        let mut statements: Vec<AstNode> = Vec::new();
        assert(nodes_view(statements@) =~= Seq::<crate::ast::AstNodeView>::empty());
        while !self.at_end_of_statements(in_block)
            invariant
                self.wf(),
                self@.tokens.len() <= old(self)@.tokens.len(),
                parse_statements_spec(self@, nodes_view(statements@), in_block)
                    == parse_statements_spec(old(self)@, Seq::empty(), in_block),
            decreases
                    self@.tokens.len(),
                    (if self@.at_end_of_statements(in_block) {
                        0nat
                    } else {
                        1nat
                    }),
        {
            match self.parse_statement() {
                Some(node) => {
                    proof {
                        lemma_nodes_view_push(statements@, node);
                    }
                    statements.push(node);
                    self.advance_tokens();
                },
                None => {
                    self.synchronize(in_block);
                },
            }
        }
        statements
    }

    /// Parses the statement that starts under the cursor.
    fn parse_statement(&mut self) -> (result: Option<AstNode>)
        requires
            old(self).wf(),
        ensures
            final(self).wf(),
            agrees(result, final(self)@, parse_statement_spec(old(self)@)),
            final(self)@.tokens.len() <= old(self)@.tokens.len(),
        decreases old(self)@.tokens.len(), 6nat,
    {
        proof {
            lemma_lookahead(*self);
        }
        match self.current_token {
            Token::Let => self.parse_let_statement(),
            Token::Return => self.parse_return_statement(),
            _ => self.parse_expression_statement(),
        }
    }

    /// Parses a `let` statement, `let` under the cursor.
    fn parse_let_statement(&mut self) -> (result: Option<AstNode>)
        requires
            old(self).wf(),
        ensures
            final(self).wf(),
            agrees(result, final(self)@, parse_let_statement_spec(old(self)@)),
            final(self)@.tokens.len() <= old(self)@.tokens.len(),
        decreases old(self)@.tokens.len(), 5nat,
    {
        if !self.expect_next_token(TokenType::Identifier) {
            return None;
        }
        let name = match self.parse_identifier() {
            None => {
                return None;
            },
            Some(expression) => expression,
        };
        if !self.expect_next_token(TokenType::Assign) {
            return None;
        }
        self.advance_tokens();
        let value = match self.parse_expression(Precedence::Lowest) {
            None => {
                return None;
            },
            Some(expression) => expression,
        };
        if !self.expect_next_token(TokenType::Semicolon) {
            return None;
        }
        Some(
            AstNode::Statement(
                Box::new(Statement::LetStatement { name: Box::new(name), value: Box::new(value) }),
            ),
        )
    }

    /// Parses a `return` statement, `return` under the cursor.
    fn parse_return_statement(&mut self) -> (result: Option<AstNode>)
        requires
            old(self).wf(),
        ensures
            final(self).wf(),
            agrees(result, final(self)@, parse_return_statement_spec(old(self)@)),
            final(self)@.tokens.len() <= old(self)@.tokens.len(),
        decreases old(self)@.tokens.len(), 5nat,
    {
        if !self.expect_next_token(TokenType::Int) {
            return None;
        }
        let expression = match self.parse_expression(Precedence::Lowest) {
            None => {
                return None;
            },
            Some(expression) => expression,
        };
        self.skip_semicolon();
        Some(AstNode::Statement(Box::new(Statement::ReturnStatement(Box::new(expression)))))
    }

    /// Parses an expression taken as a statement.
    fn parse_expression_statement(&mut self) -> (result: Option<AstNode>)
        requires
            old(self).wf(),
        ensures
            final(self).wf(),
            agrees(result, final(self)@, parse_expression_statement_spec(old(self)@)),
            final(self)@.tokens.len() <= old(self)@.tokens.len(),
        decreases old(self)@.tokens.len(), 5nat,
    {
        let expression = match self.parse_expression(Precedence::Lowest) {
            None => {
                return None;
            },
            Some(expression) => expression,
        };
        self.skip_semicolon();
        Some(AstNode::Expression(Box::new(expression)))
    }

    /// Parses a whole program. Statements that fail to parse are left out of
    /// the tree; their errors are recorded in `errors`, and parsing goes on
    /// behind them.
    pub fn parse_program(&mut self) -> (program: AstNode)
        requires
            old(self).wf(),
        ensures
            final(self).wf(),
            program@ == (AstNodeView::Program {
                statements: parse_program_spec(old(self)@).0,
            }),
            final(self)@ == parse_program_spec(old(self)@).1,
    {
        let statements = self.parse_statements(false);
        AstNode::Program { statements }
    }
}

/// Parses a whole source text: the program it holds, and the messages of
/// the errors met, oldest first.
pub fn parse(source: String) -> (result: (AstNode, Vec<String>))
    ensures
        ({
            let start = ParserState { tokens: tokens_of(source@), errors: Seq::empty() };
            &&& result.0@ == (AstNodeView::Program { statements: parse_program_spec(start).0 })
            &&& messages_view(result.1@) == parse_program_spec(start).1.errors
        }),
{
    let mut parser = Parser::new(Lexer::new(source));
    let program = parser.parse_program();
    (program, parser.errors)
}

/// The two tokens a parser holds are the first two of its stream.
proof fn lemma_lookahead(parser: Parser)
    requires
        parser.wf(),
    ensures
        parser@.current() == parser.current_token@,
        parser@.peek() == parser.next_token@,
{
    parser.lexer.lemma_offset_in_bounds();
    lemma_tokens_hold_no_eof(parser.lexer.source(), parser.lexer.offset());
    if !(parser.current_token@ is Eof) && !(parser.next_token@ is Eof) {
        assert(parser.stream()[1] == parser.next_token@);
    }
}

/// Whether what a parsing function returned, and the state it left the
/// parser in, are what the grammar defines.
pub open spec fn agrees<T: View>(result: Option<T>, state: ParserState, expected: Parsed<T::V>) -> bool {
    &&& state == expected.state
    &&& match result {
        Some(value) => expected.value == Some(value@),
        None => expected.value is None,
    }
}

} // verus!

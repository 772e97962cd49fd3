//! The lexer: from source text to tokens, one at a time.
//!
//! The model of a source text is its sequence of characters, and a position in
//! it is an index into that sequence. [`next_token_spec`] says which token
//! starts at a position and where the following one is looked for;
//! [`Lexer::next_token`] computes exactly that.

use vstd::prelude::*;
use vstd::string::*;

use crate::token::{Token, TokenView};

verus! {

/// An ASCII letter, the only kind of character an identifier is made of.
pub open spec fn letter(c: char) -> bool {
    ('a' <= c && c <= 'z') || ('A' <= c && c <= 'Z')
}

/// An ASCII decimal digit.
pub open spec fn digit(c: char) -> bool {
    '0' <= c && c <= '9'
}

/// A character with the Unicode property `White_Space`.
pub open spec fn whitespace(c: char) -> bool {
    ||| c == ' '
    ||| ('\u{9}' <= c && c <= '\u{d}')
    ||| c == '\u{85}'
    ||| c == '\u{a0}'
    ||| c == '\u{1680}'
    ||| ('\u{2000}' <= c && c <= '\u{200a}')
    ||| c == '\u{2028}'
    ||| c == '\u{2029}'
    ||| c == '\u{202f}'
    ||| c == '\u{205f}'
    ||| c == '\u{3000}'
}

/// The first position at or after `from` whose character fails `keep`, or the
/// length of `s` where every character from `from` on passes.
pub open spec fn scan(s: Seq<char>, from: int, keep: spec_fn(char) -> bool) -> int
    decreases s.len() - from,
{
    if 0 <= from < s.len() && keep(s[from]) {
        scan(s, from + 1, keep)
    } else {
        from
    }
}

/// Where the run of whitespace that starts at `from` ends.
pub open spec fn whitespace_end(s: Seq<char>, from: int) -> int {
    scan(s, from, |c: char| whitespace(c))
}

/// Where the run of letters that starts at `from` ends.
pub open spec fn letters_end(s: Seq<char>, from: int) -> int {
    scan(s, from, |c: char| letter(c))
}

/// Where the run of digits that starts at `from` ends.
pub open spec fn digits_end(s: Seq<char>, from: int) -> int {
    scan(s, from, |c: char| digit(c))
}

/// The position of the first `"` at or after `from`, or the length of `s`.
pub open spec fn quote_position(s: Seq<char>, from: int) -> int {
    scan(s, from, |c: char| c != '"')
}

/// The position just behind the first `*/` that starts at or after `from`, or
/// the length of `s` where there is none: an unterminated comment runs to the
/// end of the input.
pub open spec fn comment_end(s: Seq<char>, from: int) -> int
    decreases s.len() - from,
{
    if from < 0 || from + 1 >= s.len() {
        s.len() as int
    } else if s[from] == '*' && s[from + 1] == '/' {
        from + 2
    } else {
        comment_end(s, from + 1)
    }
}

/// What `scan` returns lies between `from` and the end, everything before it
/// passes `keep`, and the character at it, if there is one, does not.
pub proof fn lemma_scan(s: Seq<char>, from: int, keep: spec_fn(char) -> bool)
    requires
        0 <= from <= s.len(),
    ensures
        from <= scan(s, from, keep) <= s.len(),
        forall|k: int| from <= k < scan(s, from, keep) ==> keep(#[trigger] s[k]),
        scan(s, from, keep) < s.len() ==> !keep(s[scan(s, from, keep)]),
    decreases s.len() - from,
{
    if from < s.len() && keep(s[from]) {
        lemma_scan(s, from + 1, keep);
    }
}

/// A comment ends at or after the position its search starts from, within the
/// input.
pub proof fn lemma_comment_end(s: Seq<char>, from: int)
    requires
        0 <= from <= s.len(),
    ensures
        from <= comment_end(s, from) <= s.len(),
    decreases s.len() - from,
{
    if from + 1 < s.len() && !(s[from] == '*' && s[from + 1] == '/') {
        lemma_comment_end(s, from + 1);
    }
}

/// The token a maximal run of letters stands for: a keyword where the run
/// spells one, an identifier otherwise.
pub open spec fn word_token(text: Seq<char>) -> TokenView {
    if text == "fn"@ {
        TokenView::Function
    } else if text == "let"@ {
        TokenView::Let
    } else if text == "if"@ {
        TokenView::If
    } else if text == "else"@ {
        TokenView::Else
    } else if text == "true"@ {
        TokenView::True
    } else if text == "false"@ {
        TokenView::False
    } else if text == "return"@ {
        TokenView::Return
    } else {
        TokenView::Identifier(text)
    }
}

/// The token that starts at or after position `from` of `s`, once whitespace
/// and comments are skipped, together with the position from which the
/// following token is looked for.
pub open spec fn next_token_spec(s: Seq<char>, from: int) -> (TokenView, int)
    decreases s.len() - from,
{
    let start = whitespace_end(s, from);
    if !(0 <= from <= start < s.len()) {
        (TokenView::Eof, start)
    } else {
        let c = s[start];
        let paired = start + 1 < s.len() && s[start + 1] == '=';
        if c == '(' {
            (TokenView::LeftParentesis, start + 1)
        } else if c == ')' {
            (TokenView::RightParentesis, start + 1)
        } else if c == '{' {
            (TokenView::LeftBrace, start + 1)
        } else if c == '}' {
            (TokenView::RightBrace, start + 1)
        } else if c == '[' {
            (TokenView::LeftBracket, start + 1)
        } else if c == ']' {
            (TokenView::RightBracket, start + 1)
        } else if c == '+' {
            (TokenView::Plus, start + 1)
        } else if c == '-' {
            (TokenView::Minus, start + 1)
        } else if c == '*' {
            (TokenView::Asterisk, start + 1)
        } else if c == '<' {
            (TokenView::LessThan, start + 1)
        } else if c == '>' {
            (TokenView::GreaterThan, start + 1)
        } else if c == ',' {
            (TokenView::Comma, start + 1)
        } else if c == ';' {
            (TokenView::Semicolon, start + 1)
        } else if c == '=' {
            if paired {
                (TokenView::Equals, start + 2)
            } else {
                (TokenView::Assign, start + 1)
            }
        } else if c == '!' {
            if paired {
                (TokenView::NotEquals, start + 2)
            } else {
                (TokenView::Bang, start + 1)
            }
        } else if c == '"' {
            let close = quote_position(s, start + 1);
            (
                TokenView::String(s.subrange(start + 1, close)),
                if close < s.len() {
                    close + 1
                } else {
                    close
                },
            )
        } else if c == '/' {
            if start + 1 < s.len() && s[start + 1] == '*' {
                let resume = comment_end(s, start + 2);
                if from < resume <= s.len() {
                    next_token_spec(s, resume)
                } else {
                    (TokenView::Eof, resume)
                }
            } else {
                (TokenView::Slash, start + 1)
            }
        } else if letter(c) {
            let end = letters_end(s, start);
            (word_token(s.subrange(start, end)), end)
        } else if digit(c) {
            let end = digits_end(s, start);
            (TokenView::Int(s.subrange(start, end)), end)
        } else {
            (TokenView::Illegal, start + 1)
        }
    }
}

/// Every token but the end of input consumes at least one character, and the
/// lexer never reads past the end.
pub proof fn lemma_next_token_advances(s: Seq<char>, from: int)
    requires
        0 <= from <= s.len(),
    ensures
        from <= next_token_spec(s, from).1 <= s.len(),
        !(next_token_spec(s, from).0 is Eof) ==> from < next_token_spec(s, from).1,
        next_token_spec(s, from).0 is Eof ==> next_token_spec(s, from).1 == s.len(),
    decreases s.len() - from,
{
    lemma_scan(s, from, |c: char| whitespace(c));
    let start = whitespace_end(s, from);
    if start < s.len() {
        let c = s[start];
        if c == '"' {
            lemma_scan(s, start + 1, |c: char| c != '"');
        } else if c == '/' && start + 1 < s.len() && s[start + 1] == '*' {
            lemma_comment_end(s, start + 2);
            lemma_next_token_advances(s, comment_end(s, start + 2));
        } else if letter(c) {
            lemma_scan(s, start, |c: char| letter(c));
        } else if digit(c) {
            lemma_scan(s, start, |c: char| digit(c));
        }
    }
}

/// The tokens of `s` from position `from` on, in order, up to the end of
/// input; the end-of-input token itself is not among them.
pub open spec fn tokens_from(s: Seq<char>, from: int) -> Seq<TokenView>
    decreases s.len() - from,
{
    let (token, next) = next_token_spec(s, from);
    if token is Eof || !(0 <= from < next <= s.len()) {
        Seq::empty()
    } else {
        seq![token] + tokens_from(s, next)
    }
}

/// The tokens of a whole source text, without the final end-of-input token.
pub open spec fn tokens_of(s: Seq<char>) -> Seq<TokenView> {
    tokens_from(s, 0)
}

/// How the tokens from a position on are made of the token at that position
/// and the tokens behind it. Once the end of the input is met, every further
/// token is the end of the input.
pub proof fn lemma_tokens_from_unfold(s: Seq<char>, from: int)
    requires
        0 <= from <= s.len(),
    ensures
        ({
            let (token, next) = next_token_spec(s, from);
            &&& from <= next <= s.len()
            &&& token is Eof ==> tokens_from(s, from) == Seq::<TokenView>::empty() && next
                == s.len() && next_token_spec(s, next) == (TokenView::Eof, next)
            &&& !(token is Eof) ==> tokens_from(s, from) == seq![token] + tokens_from(s, next)
        }),
{
    lemma_next_token_advances(s, from);
    let (token, next) = next_token_spec(s, from);
    if token is Eof {
        lemma_scan(s, next, |c: char| whitespace(c));
    }
}

/// No end-of-input token stands among the tokens of a text.
pub proof fn lemma_tokens_hold_no_eof(s: Seq<char>, from: int)
    requires
        0 <= from <= s.len(),
    ensures
        forall|k: int| 0 <= k < tokens_from(s, from).len() ==> !(#[trigger] tokens_from(s, from)[k] is Eof),
    decreases s.len() - from,
{
    let (token, next) = next_token_spec(s, from);
    lemma_next_token_advances(s, from);
    if !(token is Eof) {
        lemma_tokens_hold_no_eof(s, next);
    }
}

/// Whether `c` is an ASCII letter.
pub fn is_letter(c: char) -> (b: bool)
    ensures
        b == letter(c),
{
    (c >= 'a' && c <= 'z') || (c >= 'A' && c <= 'Z')
}

/// Whether `c` is an ASCII decimal digit.
pub fn is_digit(c: char) -> (b: bool)
    ensures
        b == digit(c),
{
    c >= '0' && c <= '9'
}

/// Whether `c` has the Unicode property `White_Space`.
pub fn is_whitespace(c: char) -> (b: bool)
    ensures
        b == whitespace(c),
{
    c == ' ' || (c >= '\u{9}' && c <= '\u{d}') || c == '\u{85}' || c == '\u{a0}' || c == '\u{1680}'
        || (c >= '\u{2000}' && c <= '\u{200a}') || c == '\u{2028}' || c == '\u{2029}' || c
        == '\u{202f}' || c == '\u{205f}' || c == '\u{3000}'
}

/// The characters of a text, in order.
pub fn characters(text: &str) -> (chars: Vec<char>)
    ensures
        chars@ == text@,
{
    let mut chars: Vec<char> = Vec::new();
    for c in it: text.chars()
        invariant
            chars@ == it.seq().take(it.index() as int),
            it.seq() == text@,
    {
        chars.push(c);
    }
    chars
}

/// The keyword that `word` spells, or the identifier it is.
pub fn lookup_word(word: String) -> (token: Token)
    ensures
        token@ == word_token(word@),
{
    if word == String::from_str("fn") {
        Token::Function
    } else if word == String::from_str("let") {
        Token::Let
    } else if word == String::from_str("if") {
        Token::If
    } else if word == String::from_str("else") {
        Token::Else
    } else if word == String::from_str("true") {
        Token::True
    } else if word == String::from_str("false") {
        Token::False
    } else if word == String::from_str("return") {
        Token::Return
    } else {
        Token::Identifier(word)
    }
}

/// A cursor over a source text that hands out its tokens one at a time.
#[derive(Debug)]
pub struct Lexer {
    input: String,
    chars: Vec<char>,
    position: usize,
}

impl Lexer {
    /// What holds of every lexer: its cursor lies within its text.
    #[verifier::type_invariant]
    pub closed spec fn well_formed(&self) -> bool {
        &&& self.chars@ == self.input@
        &&& self.position <= self.chars@.len()
    }

    /// The cursor of a well-formed lexer lies within its text.
    pub proof fn lemma_offset_in_bounds(self)
        requires
            self.well_formed(),
        ensures
            0 <= self.offset() <= self.source().len(),
    {
    }

    /// The characters of the text being read.
    pub closed spec fn source(&self) -> Seq<char> {
        self.chars@
    }

    /// The position from which the next token is looked for.
    pub closed spec fn offset(&self) -> int {
        self.position as int
    }

    /// The tokens still to come, without the final end-of-input token.
    pub open spec fn remaining(&self) -> Seq<TokenView> {
        tokens_from(self.source(), self.offset())
    }

    /// A lexer at the start of `input`.
    pub fn new(input: String) -> (lexer: Lexer)
        ensures
            lexer.source() == input@,
            lexer.offset() == 0,
    {
        let chars = characters(input.as_str());
        Lexer { input, chars, position: 0 }
    }

    /// The character at position `pos`, if the text has one there.
    fn peek_char(&self, pos: usize) -> (c: Option<char>)
        ensures
            c == (if pos < self.source().len() {
                Some(self.source()[pos as int])
            } else {
                None
            }),
    {
        if pos < self.chars.len() {
            Some(self.chars[pos])
        } else {
            None
        }
    }

    /// The character under the cursor, if the cursor is not at the end.
    fn current_char(&self) -> (c: Option<char>)
        ensures
            c == (if self.offset() < self.source().len() {
                Some(self.source()[self.offset()])
            } else {
                None
            }),
    {
        self.peek_char(self.position)
    }

    /// Moves the cursor one character on, unless it is at the end.
    fn read_char(&mut self)
        ensures
            final(self).source() == old(self).source(),
            final(self).offset() == if old(self).offset() < old(self).source().len() {
                old(self).offset() + 1
            } else {
                old(self).offset()
            },
    {
        proof {
            use_type_invariant(&*self);
        }
        if self.position < self.chars.len() {
            self.position = self.position + 1;
        }
    }

    /// Moves the cursor over the whitespace it stands on.
    fn skip_whitespaces(&mut self)
        ensures
            final(self).source() == old(self).source(),
            final(self).offset() == whitespace_end(old(self).source(), old(self).offset()),
    {
        proof {
            use_type_invariant(&*self);
        }
        while self.position < self.chars.len() && is_whitespace(self.chars[self.position])
            invariant
                self.chars@ == self.input@,
                self.chars@ == old(self).chars@,
                self.position <= self.chars@.len(),
                whitespace_end(self.chars@, self.position as int) == whitespace_end(
                    old(self).chars@,
                    old(self).position as int,
                ),
            decreases self.chars@.len() - self.position,
        {
            self.position = self.position + 1;
        }
    }

    /// Moves the cursor from inside a comment to just behind its closing `*/`,
    /// or to the end of the text where the comment is not closed.
    fn skip_comments(&mut self)
        ensures
            final(self).source() == old(self).source(),
            final(self).offset() == comment_end(old(self).source(), old(self).offset()),
    {
        proof {
            use_type_invariant(&*self);
        }
        loop
            invariant_except_break
                comment_end(self.chars@, self.position as int) == comment_end(
                    old(self).chars@,
                    old(self).position as int,
                ),
            invariant
                self.chars@ == self.input@,
                self.chars@ == old(self).chars@,
                self.position <= self.chars@.len(),
            ensures
                self.position == comment_end(old(self).chars@, old(self).position as int),
            decreases self.chars@.len() - self.position,
        {
            if self.chars.len() - self.position < 2 {
                self.position = self.chars.len();
                break;
            }
            if self.chars[self.position] == '*' && self.chars[self.position + 1] == '/' {
                self.position = self.position + 2;
                break;
            }
            self.position = self.position + 1;
        }
    }

    /// The text between positions `from` and `to`.
    fn slice(&self, from: usize, to: usize) -> (text: String)
        requires
            from <= to <= self.source().len(),
        ensures
            text@ == self.source().subrange(from as int, to as int),
    {
        proof {
            use_type_invariant(self);
        }
        String::from_str(self.input.as_str().substring_char(from, to))
    }

    /// Reads the run of letters under the cursor and moves the cursor behind it.
    fn read_identifier(&mut self) -> (word: String)
        ensures
            final(self).source() == old(self).source(),
            final(self).offset() == letters_end(old(self).source(), old(self).offset()),
            word@ == old(self).source().subrange(old(self).offset(), final(self).offset()),
    {
        proof {
            use_type_invariant(&*self);
        }
        let start = self.position;
        while self.position < self.chars.len() && is_letter(self.chars[self.position])
            invariant
                self.chars@ == self.input@,
                self.chars@ == old(self).chars@,
                start <= self.position <= self.chars@.len(),
                letters_end(self.chars@, self.position as int) == letters_end(
                    self.chars@,
                    start as int,
                ),
            decreases self.chars@.len() - self.position,
        {
            self.position = self.position + 1;
        }
        self.slice(start, self.position)
    }

    /// Reads the run of digits under the cursor and moves the cursor behind it.
    fn read_number(&mut self) -> (digits: String)
        ensures
            final(self).source() == old(self).source(),
            final(self).offset() == digits_end(old(self).source(), old(self).offset()),
            digits@ == old(self).source().subrange(old(self).offset(), final(self).offset()),
    {
        proof {
            use_type_invariant(&*self);
        }
        let start = self.position;
        while self.position < self.chars.len() && is_digit(self.chars[self.position])
            invariant
                self.chars@ == self.input@,
                self.chars@ == old(self).chars@,
                start <= self.position <= self.chars@.len(),
                digits_end(self.chars@, self.position as int) == digits_end(
                    self.chars@,
                    start as int,
                ),
            decreases self.chars@.len() - self.position,
        {
            self.position = self.position + 1;
        }
        self.slice(start, self.position)
    }

    /// Reads a string literal whose opening quote is under the cursor: the text
    /// up to the next quote, taken as it stands, or up to the end of the input
    /// where the literal is not closed. The cursor ends on the closing quote.
    fn read_string(&mut self) -> (text: String)
        requires
            old(self).offset() < old(self).source().len(),
        ensures
            final(self).source() == old(self).source(),
            final(self).offset() == quote_position(old(self).source(), old(self).offset() + 1),
            text@ == old(self).source().subrange(old(self).offset() + 1, final(self).offset()),
    {
        proof {
            use_type_invariant(&*self);
        }
        assert(self.position < self.chars.len());
        self.position = self.position + 1;
        let start = self.position;
        while self.position < self.chars.len() && self.chars[self.position] != '"'
            invariant
                self.chars@ == self.input@,
                self.chars@ == old(self).chars@,
                start <= self.position <= self.chars@.len(),
                quote_position(self.chars@, self.position as int) == quote_position(
                    self.chars@,
                    start as int,
                ),
            decreases self.chars@.len() - self.position,
        {
            self.position = self.position + 1;
        }
        self.slice(start, self.position)
    }

    /// The next token of the text. At the end of the input, and from then on,
    /// this is the end-of-input token.
    pub fn next_token(&mut self) -> (token: Token)
        ensures
            final(self).source() == old(self).source(),
            (token@, final(self).offset()) == next_token_spec(
                old(self).source(),
                old(self).offset(),
            ),
            0 <= old(self).offset() <= final(self).offset() <= final(self).source().len(),
        decreases old(self).source().len() - old(self).offset(),
    {
        proof {
            use_type_invariant(&*self);
            lemma_scan(self.chars@, self.position as int, |c: char| whitespace(c));
            lemma_next_token_advances(self.chars@, self.position as int);
        }
        self.skip_whitespaces();
        let ch = match self.current_char() {
            None => {
                return Token::Eof;
            },
            Some(ch) => ch,
        };
        assert(self.position < self.chars.len());
        let following = self.peek_char(self.position + 1);
        let token = if ch == '(' {
            Token::LeftParentesis
        } else if ch == ')' {
            Token::RightParentesis
        } else if ch == '{' {
            Token::LeftBrace
        } else if ch == '}' {
            Token::RightBrace
        } else if ch == '[' {
            Token::LeftBracket
        } else if ch == ']' {
            Token::RightBracket
        } else if ch == '+' {
            Token::Plus
        } else if ch == '-' {
            Token::Minus
        } else if ch == '*' {
            Token::Asterisk
        } else if ch == '<' {
            Token::LessThan
        } else if ch == '>' {
            Token::GreaterThan
        } else if ch == ',' {
            Token::Comma
        } else if ch == ';' {
            Token::Semicolon
        } else if ch == '=' {
            if following == Some('=') {
                self.read_char();
                Token::Equals
            } else {
                Token::Assign
            }
        } else if ch == '!' {
            if following == Some('=') {
                self.read_char();
                Token::NotEquals
            } else {
                Token::Bang
            }
        } else if ch == '"' {
            Token::String(self.read_string())
        } else if ch == '/' {
            if following == Some('*') {
                self.read_char();
                self.read_char();
                proof {
                    lemma_comment_end(self.chars@, self.position as int);
                }
                self.skip_comments();
                return self.next_token();
            }
            Token::Slash
        } else if is_letter(ch) {
            let word = self.read_identifier();
            return lookup_word(word);
        } else if is_digit(ch) {
            let digits = self.read_number();
            return Token::Int(digits);
        } else {
            Token::Illegal
        };
        self.read_char();
        token
    }
}

/// All the tokens of `source`, in order, followed by one end-of-input token.
pub fn tokenize(source: String) -> (tokens: Vec<Token>)
    ensures
        tokens@.map_values(|t: Token| t@) == tokens_of(source@).push(TokenView::Eof),
{
    let mut lexer = Lexer::new(source);
    let mut tokens: Vec<Token> = Vec::new();
    loop
        invariant_except_break
            tokens@.map_values(|t: Token| t@) + lexer.remaining() == tokens_of(source@),
        invariant
            lexer.source() == source@,
        ensures
            tokens@.map_values(|t: Token| t@) == tokens_of(source@).push(TokenView::Eof),
        decreases lexer.source().len() - lexer.offset(),
    {
        proof {
            use_type_invariant(&lexer);
            lemma_next_token_advances(lexer.source(), lexer.offset());
        }
        let ghost before = tokens@.map_values(|t: Token| t@);
        let ghost rest = lexer.remaining();
        let token = lexer.next_token();
        let done = matches!(token, Token::Eof);
        tokens.push(token);
        assert(tokens@.map_values(|t: Token| t@) =~= before.push(token@));
        if done {
            assert(rest =~= Seq::empty());
            assert(before + rest =~= before);
            break;
        }
        assert(rest == seq![token@] + lexer.remaining());
        assert(before.push(token@) + lexer.remaining() =~= before + rest);
    }
    tokens
}

} // verus!

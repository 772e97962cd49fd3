//! Laws of the lexer: what it makes, and that it reads back what the
//! pretty-printer writes.

use vstd::prelude::*;

use crate::laws::lemma_scan_ends_at;
use crate::lexer::{
    digit, digits_end, lemma_next_token_advances, lemma_scan, letter, letters_end, next_token_spec,
    quote_position, tokens_from, tokens_of, whitespace, whitespace_end, word_token,
};
use crate::printer::{all_lexical, lexical, token_source, tokens_text_from};
use crate::token::TokenView;

verus! {

/// The keywords, character by character.
pub proof fn lemma_keywords()
    ensures
        "fn"@ == seq!['f', 'n'],
        "let"@ == seq!['l', 'e', 't'],
        "if"@ == seq!['i', 'f'],
        "else"@ == seq!['e', 'l', 's', 'e'],
        "true"@ == seq!['t', 'r', 'u', 'e'],
        "false"@ == seq!['f', 'a', 'l', 's', 'e'],
        "return"@ == seq!['r', 'e', 't', 'u', 'r', 'n'],
{
    reveal_strlit("fn");
    reveal_strlit("let");
    reveal_strlit("if");
    reveal_strlit("else");
    reveal_strlit("true");
    reveal_strlit("false");
    reveal_strlit("return");
    assert("fn"@ =~= seq!['f', 'n']);
    assert("let"@ =~= seq!['l', 'e', 't']);
    assert("if"@ =~= seq!['i', 'f']);
    assert("else"@ =~= seq!['e', 'l', 's', 'e']);
    assert("true"@ =~= seq!['t', 'r', 'u', 'e']);
    assert("false"@ =~= seq!['f', 'a', 'l', 's', 'e']);
    assert("return"@ =~= seq!['r', 'e', 't', 'u', 'r', 'n']);
}

/// Whether a token is one that the lexer can hand out before the end of
/// the input: a lexical token or the illegal one.
pub open spec fn lexer_made(token: TokenView) -> bool {
    lexical(token) || token is Illegal
}

/// The token that a run of letters stands for is a keyword or the
/// identifier with that text, and in either case one the lexer reads back.
pub proof fn lemma_word_token_is_lexical(text: Seq<char>)
    requires
        text.len() > 0,
        forall|i: int| 0 <= i < text.len() ==> letter(#[trigger] text[i]),
    ensures
        lexical(word_token(text)),
{
}

/// What the lexer hands out before the end of the input is lexical or
/// illegal.
pub proof fn lemma_next_token_is_lexer_made(s: Seq<char>, from: int)
    requires
        0 <= from <= s.len(),
    ensures
        next_token_spec(s, from).0 is Eof || lexer_made(next_token_spec(s, from).0),
    decreases s.len() - from,
{
    lemma_scan(s, from, |c: char| whitespace(c));
    let start = whitespace_end(s, from);
    if start < s.len() {
        let c = s[start];
        if c == '"' {
            lemma_scan(s, start + 1, |c: char| c != '"');
            let close = quote_position(s, start + 1);
            let text = s.subrange(start + 1, close);
            assert forall|i: int| 0 <= i < text.len() implies (#[trigger] text[i]) != '"' by {
                assert(text[i] == s[start + 1 + i]);
            }
        } else if c == '/' && start + 1 < s.len() && s[start + 1] == '*' {
            crate::lexer::lemma_comment_end(s, start + 2);
            lemma_next_token_is_lexer_made(s, crate::lexer::comment_end(s, start + 2));
        } else if letter(c) {
            lemma_scan(s, start, |c: char| letter(c));
            let end = letters_end(s, start);
            let text = s.subrange(start, end);
            assert forall|i: int| 0 <= i < text.len() implies letter(#[trigger] text[i]) by {
                assert(text[i] == s[start + i]);
            }
            lemma_word_token_is_lexical(text);
        } else if digit(c) {
            lemma_scan(s, start, |c: char| digit(c));
            let end = digits_end(s, start);
            let text = s.subrange(start, end);
            assert forall|i: int| 0 <= i < text.len() implies digit(#[trigger] text[i]) by {
                assert(text[i] == s[start + i]);
            }
        }
    }
}

/// Whether every token of a list is lexical or illegal.
pub open spec fn all_lexer_made(tokens: Seq<TokenView>) -> bool {
    forall|i: int| 0 <= i < tokens.len() ==> lexer_made(#[trigger] tokens[i])
}

/// Every token of a text is lexical or illegal.
pub proof fn lemma_tokens_are_lexer_made(s: Seq<char>, from: int)
    requires
        0 <= from <= s.len(),
    ensures
        all_lexer_made(tokens_from(s, from)),
    decreases s.len() - from,
{
    let (token, next) = next_token_spec(s, from);
    lemma_next_token_advances(s, from);
    lemma_next_token_is_lexer_made(s, from);
    if !(token is Eof) {
        lemma_tokens_are_lexer_made(s, next);
        let rest = tokens_from(s, next);
        assert forall|i: int| 0 <= i < tokens_from(s, from).len() implies lexer_made(
            #[trigger] tokens_from(s, from)[i],
        ) by {
            if i > 0 {
                assert(tokens_from(s, from)[i] == rest[i - 1]);
            }
        }
    }
}

/// Whether the source text of `token` stands in `s` behind a space at
/// position `from`, and a space or the end of the text follows it.
pub open spec fn written_at(s: Seq<char>, from: int, token: TokenView) -> bool {
    let end = from + 1 + token_source(token).len();
    &&& 0 <= from
    &&& end <= s.len()
    &&& s[from] == ' '
    &&& s.subrange(from + 1, end) == token_source(token)
    &&& end < s.len() ==> s[end] == ' '
}

/// The characters of a token written in a text are the characters of its
/// source text.
pub proof fn lemma_written_characters(s: Seq<char>, from: int, token: TokenView)
    requires
        written_at(s, from, token),
    ensures
        forall|k: int|
            0 <= k < token_source(token).len() ==> s[from + 1 + k] == #[trigger] token_source(
                token,
            )[k],
{
    let end = from + 1 + token_source(token).len();
    assert forall|k: int| 0 <= k < token_source(token).len() implies s[from + 1 + k]
        == #[trigger] token_source(token)[k] by {
        assert(s.subrange(from + 1, end)[k] == s[from + 1 + k]);
    }
}

/// The lexer reads a written symbol back.
pub proof fn lemma_reads_symbol(s: Seq<char>, from: int, token: TokenView)
    requires
        written_at(s, from, token),
        lexical(token),
        !(token is Identifier),
        !(token is Int),
        !(token is String),
        !(token is Function),
        !(token is Let),
        !(token is True),
        !(token is False),
        !(token is If),
        !(token is Else),
        !(token is Return),
    ensures
        next_token_spec(s, from) == (token, from + 1 + token_source(token).len()),
{
    lemma_written_characters(s, from, token);
    let text = token_source(token);
    assert(s[from + 1] == text[0]);
    lemma_scan_ends_at(s, from, from + 1, |c: char| whitespace(c));
    if text.len() == 2 {
        assert(s[from + 2] == text[1]);
    }
}

/// The lexer reads a written keyword back.
pub proof fn lemma_reads_keyword(s: Seq<char>, from: int, token: TokenView)
    requires
        written_at(s, from, token),
        token is Function || token is Let || token is True || token is False || token is If
            || token is Else || token is Return,
    ensures
        next_token_spec(s, from) == (token, from + 1 + token_source(token).len()),
{
    lemma_keywords();
    lemma_written_characters(s, from, token);
    let text = token_source(token);
    let end = from + 1 + text.len();
    assert(s[from + 1] == text[0]);
    lemma_scan_ends_at(s, from, from + 1, |c: char| whitespace(c));
    assert forall|k: int| from + 1 <= k < end implies letter(#[trigger] s[k]) by {
        assert(s[k] == text[k - (from + 1)]);
    }
    lemma_scan_ends_at(s, from + 1, end, |c: char| letter(c));
    assert(word_token(text) == token);
}

/// The lexer reads a written identifier back.
pub proof fn lemma_reads_identifier(s: Seq<char>, from: int, token: TokenView)
    requires
        written_at(s, from, token),
        lexical(token),
        token is Identifier,
    ensures
        next_token_spec(s, from) == (token, from + 1 + token_source(token).len()),
{
    lemma_written_characters(s, from, token);
    let text = token_source(token);
    let end = from + 1 + text.len();
    assert(s[from + 1] == text[0]);
    assert(letter(text[0]));
    lemma_scan_ends_at(s, from, from + 1, |c: char| whitespace(c));
    assert forall|k: int| from + 1 <= k < end implies letter(#[trigger] s[k]) by {
        assert(s[k] == text[k - (from + 1)]);
    }
    lemma_scan_ends_at(s, from + 1, end, |c: char| letter(c));
}

/// The lexer reads a written integer literal back.
pub proof fn lemma_reads_integer(s: Seq<char>, from: int, token: TokenView)
    requires
        written_at(s, from, token),
        lexical(token),
        token is Int,
    ensures
        next_token_spec(s, from) == (token, from + 1 + token_source(token).len()),
{
    lemma_written_characters(s, from, token);
    let text = token_source(token);
    let end = from + 1 + text.len();
    assert(s[from + 1] == text[0]);
    assert(digit(text[0]));
    lemma_scan_ends_at(s, from, from + 1, |c: char| whitespace(c));
    assert forall|k: int| from + 1 <= k < end implies digit(#[trigger] s[k]) by {
        assert(s[k] == text[k - (from + 1)]);
    }
    lemma_scan_ends_at(s, from + 1, end, |c: char| digit(c));
}

/// The lexer reads a written string literal back.
pub proof fn lemma_reads_string(s: Seq<char>, from: int, token: TokenView)
    requires
        written_at(s, from, token),
        lexical(token),
        token is String,
    ensures
        next_token_spec(s, from) == (token, from + 1 + token_source(token).len()),
{
    lemma_written_characters(s, from, token);
    let content = token->String_0;
    let text = token_source(token);
    let end = from + 1 + text.len();
    assert(text.len() == content.len() + 2);
    assert(s[from + 1] == text[0]);
    assert(text[0] == '"');
    lemma_scan_ends_at(s, from, from + 1, |c: char| whitespace(c));
    let close = end - 1;
    assert(s[close] == text[content.len() as int + 1]);
    assert forall|k: int| from + 2 <= k < close implies (#[trigger] s[k]) != '"' by {
        assert(s[k] == text[k - (from + 1)]);
        assert(text[k - (from + 1)] == content[k - (from + 2)]);
    }
    lemma_scan_ends_at(s, from + 2, close, |c: char| c != '"');
    assert(s.subrange(from + 2, close) =~= content) by {
        assert forall|k: int| 0 <= k < content.len() implies s.subrange(from + 2, close)[k]
            == content[k] by {
            assert(s[from + 2 + k] == text[k + 1]);
        }
    }
}

/// The lexer reads a written lexical token back.
pub proof fn lemma_reads_token(s: Seq<char>, from: int, token: TokenView)
    requires
        written_at(s, from, token),
        lexical(token),
    ensures
        next_token_spec(s, from) == (token, from + 1 + token_source(token).len()),
        token_source(token).len() >= 1,
{
    match token {
        TokenView::Identifier(_) => lemma_reads_identifier(s, from, token),
        TokenView::Int(_) => lemma_reads_integer(s, from, token),
        TokenView::String(_) => lemma_reads_string(s, from, token),
        TokenView::Function
        | TokenView::Let
        | TokenView::True
        | TokenView::False
        | TokenView::If
        | TokenView::Else
        | TokenView::Return => lemma_reads_keyword(s, from, token),
        _ => lemma_reads_symbol(s, from, token),
    }
}

/// The lexer reads written tokens back: behind any text, the tokens of the
/// source text of lexical tokens are those tokens.
pub proof fn lemma_reads_tokens(prefix: Seq<char>, tokens: Seq<TokenView>, from: nat)
    requires
        all_lexical(tokens),
        from <= tokens.len(),
    ensures
        tokens_from(prefix + tokens_text_from(tokens, from), prefix.len() as int) == tokens.skip(
            from as int,
        ),
    decreases tokens.len() - from,
{
    let source = prefix + tokens_text_from(tokens, from);
    let position = prefix.len() as int;
    if from == tokens.len() {
        assert(source =~= prefix);
        lemma_scan_ends_at(source, position, position, |c: char| whitespace(c));
        assert(tokens.skip(from as int) =~= Seq::<TokenView>::empty());
    } else {
        let token = tokens[from as int];
        let text = token_source(token);
        let more = tokens_text_from(tokens, from + 1);
        let written = prefix + (seq![' '] + text);
        let end = position + 1 + text.len();
        assert(source =~= written + more);
        assert(source[position] == ' ');
        assert(source.subrange(position + 1, end) =~= text);
        if end < source.len() {
            assert(source[end] == more[0]);
            assert(from + 1 < tokens.len());
            assert(more[0] == ' ');
        }
        assert(written_at(source, position, token));
        lemma_reads_token(source, position, token);
        lemma_reads_tokens(written, tokens, from + 1);
        assert(written.len() == end);
        assert(tokens_from(source, position) == seq![token] + tokens_from(source, end));
        assert(seq![token] + tokens.skip((from + 1) as int) =~= tokens.skip(from as int));
    }
}

/// The lexer reads back what the pretty-printer writes: the tokens of the
/// source text of lexical tokens are those tokens.
pub proof fn law_tokens_of_text(tokens: Seq<TokenView>)
    requires
        all_lexical(tokens),
    ensures
        tokens_of(tokens_text_from(tokens, 0)) == tokens,
{
    lemma_reads_tokens(Seq::empty(), tokens, 0);
    assert(Seq::<char>::empty() + tokens_text_from(tokens, 0) =~= tokens_text_from(tokens, 0));
    assert(tokens.skip(0) =~= tokens);
}

} // verus!

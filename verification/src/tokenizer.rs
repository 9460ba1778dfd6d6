//! The lexer shared by the brace-and-keyword grammars.
//!
//! Text is cut into words, quoted strings and punctuation; whitespace, `//`
//! line comments and `/* */` block comments separate tokens and are
//! otherwise ignored. Lexing can be started at any byte offset, one token at
//! a time ([`next_token`]) or to the end of the text ([`tokenize`]).

use vstd::prelude::*;
use crate::ascii::{byte_is_digit, byte_is_space, copy_range, is_digit, is_space};

verus! {

pub const BRACE_OPEN: u8 = 0x7b;

pub const BRACE_CLOSE: u8 = 0x7d;

pub const EQUALS: u8 = 0x3d;

pub const COMMA: u8 = 0x2c;

pub const SEMICOLON: u8 = 0x3b;

pub const QUOTE: u8 = 0x22;

pub const BACKSLASH: u8 = 0x5c;

pub const SLASH: u8 = 0x2f;

pub const STAR: u8 = 0x2a;

pub const NEWLINE: u8 = 0x0a;

pub const PLUS: u8 = 0x2b;

pub const MINUS: u8 = 0x2d;

pub const DOT: u8 = 0x2e;

/// A token, as the grammars see it.
pub enum Lexeme {
    /// A word that does not start like a number.
    Ident(Seq<u8>),
    /// The decoded content of a quoted string.
    Str(Seq<u8>),
    /// A word that starts with a digit, or with a sign or dot and a digit.
    Number(Seq<u8>),
    BraceOpen,
    BraceClose,
    Equals,
    Comma,
    Semicolon,
}

/// A token, as the lexer hands it out.
#[derive(Clone, Debug, PartialEq, Eq)]
pub enum Token {
    Ident(Vec<u8>),
    Str(Vec<u8>),
    Number(Vec<u8>),
    BraceOpen,
    BraceClose,
    Equals,
    Comma,
    Semicolon,
}

impl View for Token {
    type V = Lexeme;

    open spec fn view(&self) -> Lexeme {
        match self {
            Token::Ident(s) => Lexeme::Ident(s@),
            Token::Str(s) => Lexeme::Str(s@),
            Token::Number(s) => Lexeme::Number(s@),
            Token::BraceOpen => Lexeme::BraceOpen,
            Token::BraceClose => Lexeme::BraceClose,
            Token::Equals => Lexeme::Equals,
            Token::Comma => Lexeme::Comma,
            Token::Semicolon => Lexeme::Semicolon,
        }
    }
}

/// Why a text cannot be cut into tokens.
#[derive(Clone, Copy, Debug, PartialEq, Eq, Structural)]
pub enum LexError {
    /// A quoted string has no closing quote.
    UnterminatedString,
    /// A block comment has no closing `*/`.
    UnterminatedComment,
}

/// What lexing finds at an offset.
pub enum Lexed {
    /// Only whitespace and comments are left.
    End,
    /// The text from here on cannot be lexed.
    Failed(LexError),
    /// A token, and the offset just past it.
    Found { lexeme: Lexeme, next: int },
}

/// The views of a vector of tokens.
pub open spec fn lexemes(tokens: Seq<Token>) -> Seq<Lexeme> {
    Seq::new(tokens.len(), |i: int| tokens[i]@)
}

/// Whether `b` is one of the five punctuation tokens.
pub open spec fn is_punct(b: u8) -> bool {
    b == BRACE_OPEN || b == BRACE_CLOSE || b == EQUALS || b == COMMA || b == SEMICOLON
}

/// Whether a `//` comment starts at `i`.
pub open spec fn line_comment_at(data: Seq<u8>, i: int) -> bool {
    0 <= i && i + 1 < data.len() && data[i] == SLASH && data[i + 1] == SLASH
}

/// Whether a `/*` comment starts at `i`.
pub open spec fn block_comment_at(data: Seq<u8>, i: int) -> bool {
    0 <= i && i + 1 < data.len() && data[i] == SLASH && data[i + 1] == STAR
}

/// The number of bytes from `i` up to, not including, the next line feed or
/// the end of the text.
pub open spec fn line_rest(data: Seq<u8>, i: int) -> nat
    decreases data.len() - i,
{
    if 0 <= i < data.len() && data[i] != NEWLINE {
        1 + line_rest(data, i + 1)
    } else {
        0
    }
}

/// The number of bytes from `i` through the first `*/` at or after `i`, if
/// there is one.
pub open spec fn comment_rest(data: Seq<u8>, i: int) -> Option<nat>
    decreases data.len() - i,
{
    if i < 0 || i + 1 >= data.len() {
        None
    } else if data[i] == STAR && data[i + 1] == SLASH {
        Some(2)
    } else {
        match comment_rest(data, i + 1) {
            Some(n) => Some(n + 1),
            None => None,
        }
    }
}

/// The offset of the first byte at or after `i` that is neither whitespace
/// nor inside a comment, or why there is none.
pub open spec fn trivia_end(data: Seq<u8>, i: int) -> Result<int, LexError>
    decreases data.len() - i,
    via trivia_end_decreases
{
    if i < 0 || i >= data.len() {
        Ok(i)
    } else if is_space(data[i]) {
        trivia_end(data, i + 1)
    } else if line_comment_at(data, i) {
        trivia_end(data, i + 2 + line_rest(data, i + 2))
    } else if block_comment_at(data, i) {
        match comment_rest(data, i + 2) {
            Some(n) => trivia_end(data, i + 2 + n),
            None => Err(LexError::UnterminatedComment),
        }
    } else {
        Ok(i)
    }
}

/// Whether a word cannot extend over the byte at `i`.
pub open spec fn word_break_at(data: Seq<u8>, i: int) -> bool {
    is_space(data[i]) || is_punct(data[i]) || data[i] == QUOTE || line_comment_at(data, i)
        || block_comment_at(data, i)
}

/// The length of the longest run of word bytes that starts at `i`.
pub open spec fn word_len(data: Seq<u8>, i: int) -> nat
    decreases data.len() - i,
{
    if 0 <= i < data.len() && !word_break_at(data, i) {
        1 + word_len(data, i + 1)
    } else {
        0
    }
}

/// Whether a word reads as a number: it starts with a digit, or with a sign
/// or dot that a digit follows.
pub open spec fn is_number(word: Seq<u8>) -> bool {
    word.len() > 0 && (is_digit(word[0]) || (word.len() > 1 && (word[0] == PLUS || word[0]
        == MINUS || word[0] == DOT) && is_digit(word[1])))
}

/// The byte that `\b` stands for inside a quoted string: `\n`, `\t` and `\r`
/// are the usual control characters, and any other byte stands for itself.
pub open spec fn unescape(b: u8) -> u8 {
    if b == 0x6e {
        0x0a
    } else if b == 0x74 {
        0x09
    } else if b == 0x72 {
        0x0d
    } else {
        b
    }
}

/// The decoded content of the string whose first byte after the opening
/// quote is at `i`, and the number of bytes from `i` through the closing
/// quote; `None` when the string is not closed.
pub open spec fn string_rest(data: Seq<u8>, i: int) -> Option<(Seq<u8>, nat)>
    decreases data.len() - i,
{
    if i < 0 || i >= data.len() {
        None
    } else if data[i] == QUOTE {
        Some((Seq::empty(), 1))
    } else if data[i] == BACKSLASH {
        if i + 1 >= data.len() {
            None
        } else {
            match string_rest(data, i + 2) {
                Some((s, n)) => Some((seq![unescape(data[i + 1])] + s, n + 2)),
                None => None,
            }
        }
    } else {
        match string_rest(data, i + 1) {
            Some((s, n)) => Some((seq![data[i]] + s, n + 1)),
            None => None,
        }
    }
}

/// The token that starts at `i`, where `i` holds a byte that is neither
/// whitespace nor the start of a comment.
pub open spec fn token_at(data: Seq<u8>, i: int) -> Lexed {
    let b = data[i];
    if b == BRACE_OPEN {
        Lexed::Found { lexeme: Lexeme::BraceOpen, next: i + 1 }
    } else if b == BRACE_CLOSE {
        Lexed::Found { lexeme: Lexeme::BraceClose, next: i + 1 }
    } else if b == EQUALS {
        Lexed::Found { lexeme: Lexeme::Equals, next: i + 1 }
    } else if b == COMMA {
        Lexed::Found { lexeme: Lexeme::Comma, next: i + 1 }
    } else if b == SEMICOLON {
        Lexed::Found { lexeme: Lexeme::Semicolon, next: i + 1 }
    } else if b == QUOTE {
        match string_rest(data, i + 1) {
            Some((s, n)) => Lexed::Found { lexeme: Lexeme::Str(s), next: i + 1 + n },
            None => Lexed::Failed(LexError::UnterminatedString),
        }
    } else {
        let n = word_len(data, i);
        let word = data.subrange(i, i + n);
        if is_number(word) {
            Lexed::Found { lexeme: Lexeme::Number(word), next: i + n }
        } else {
            Lexed::Found { lexeme: Lexeme::Ident(word), next: i + n }
        }
    }
}

/// What lexing finds at or after `pos`.
pub open spec fn lexed_at(data: Seq<u8>, pos: int) -> Lexed {
    match trivia_end(data, pos) {
        Err(e) => Lexed::Failed(e),
        Ok(i) => if i >= data.len() {
            Lexed::End
        } else {
            token_at(data, i)
        },
    }
}

/// All the tokens of `data` from `pos` on, or the first lexical error.
pub open spec fn lex(data: Seq<u8>, pos: int) -> Result<Seq<Lexeme>, LexError>
    decreases data.len() - pos,
    when 0 <= pos
    via lex_decreases
{
    match lexed_at(data, pos) {
        Lexed::End => Ok(Seq::empty()),
        Lexed::Failed(e) => Err(e),
        Lexed::Found { lexeme, next } => match lex(data, next) {
            Ok(rest) => Ok(seq![lexeme] + rest),
            Err(e) => Err(e),
        },
    }
}

#[via_fn]
proof fn trivia_end_decreases(data: Seq<u8>, i: int) {
    if 0 <= i < data.len() {
        lemma_line_rest_bound(data, i + 2);
        lemma_comment_rest_bound(data, i + 2);
    }
}

#[via_fn]
proof fn lex_decreases(data: Seq<u8>, pos: int) {
    lemma_lexed_progress(data, pos);
}

/// `line_rest` ends at or before the end of the text.
pub proof fn lemma_line_rest_bound(data: Seq<u8>, i: int)
    requires
        0 <= i,
    ensures
        i <= data.len() ==> i + line_rest(data, i) <= data.len(),
        i >= data.len() ==> line_rest(data, i) == 0,
    decreases data.len() - i,
{
    if i < data.len() && data[i] != NEWLINE {
        lemma_line_rest_bound(data, i + 1);
    }
}

/// A closed comment ends at or before the end of the text.
pub proof fn lemma_comment_rest_bound(data: Seq<u8>, i: int)
    requires
        0 <= i,
    ensures
        comment_rest(data, i) matches Some(n) ==> 2 <= n && i + n <= data.len(),
    decreases data.len() - i,
{
    if i + 1 < data.len() && !(data[i] == STAR && data[i + 1] == SLASH) {
        lemma_comment_rest_bound(data, i + 1);
    }
}

/// Skipping trivia never moves backwards, and stops inside the text at a
/// byte that can start a token.
pub proof fn lemma_trivia_end(data: Seq<u8>, i: int)
    requires
        0 <= i,
    ensures
        trivia_end(data, i) matches Ok(e) ==> i <= e && (e < data.len() ==> !is_space(data[e])
            && !line_comment_at(data, e) && !block_comment_at(data, e)),
    decreases data.len() - i,
{
    if i < data.len() {
        if is_space(data[i]) {
            lemma_trivia_end(data, i + 1);
        } else if line_comment_at(data, i) {
            lemma_line_rest_bound(data, i + 2);
            lemma_trivia_end(data, i + 2 + line_rest(data, i + 2));
        } else if block_comment_at(data, i) {
            lemma_comment_rest_bound(data, i + 2);
            match comment_rest(data, i + 2) {
                Some(n) => {
                    lemma_trivia_end(data, i + 2 + n);
                },
                None => {},
            }
        }
    }
}

/// A word ends at or before the end of the text.
pub proof fn lemma_word_len_bound(data: Seq<u8>, i: int)
    requires
        0 <= i <= data.len(),
    ensures
        i + word_len(data, i) <= data.len(),
    decreases data.len() - i,
{
    if i < data.len() && !word_break_at(data, i) {
        lemma_word_len_bound(data, i + 1);
    }
}

/// A closed string ends at or before the end of the text.
pub proof fn lemma_string_rest_bound(data: Seq<u8>, i: int)
    requires
        0 <= i,
    ensures
        string_rest(data, i) matches Some((s, n)) ==> 1 <= n && i + n <= data.len(),
    decreases data.len() - i,
{
    if i < data.len() && data[i] != QUOTE {
        if data[i] == BACKSLASH {
            if i + 1 < data.len() {
                lemma_string_rest_bound(data, i + 2);
            }
        } else {
            lemma_string_rest_bound(data, i + 1);
        }
    }
}

/// Every token is at least one byte long and lies inside the text.
pub proof fn lemma_lexed_progress(data: Seq<u8>, pos: int)
    requires
        0 <= pos,
    ensures
        lexed_at(data, pos) matches Lexed::Found { lexeme, next } ==> pos < next <= data.len(),
{
    lemma_trivia_end(data, pos);
    match trivia_end(data, pos) {
        Ok(i) => {
            if i < data.len() {
                lemma_string_rest_bound(data, i + 1);
                lemma_word_len_bound(data, i + 1);
            }
        },
        Err(_) => {},
    }
}

fn byte_is_punct(b: u8) -> (r: bool)
    ensures
        r == is_punct(b),
{
    b == BRACE_OPEN || b == BRACE_CLOSE || b == EQUALS || b == COMMA || b == SEMICOLON
}

fn pair_at(data: &[u8], i: usize, first: u8, second: u8) -> (r: bool)
    requires
        i < data.len(),
    ensures
        r == (i + 1 < data@.len() && data@[i as int] == first && data@[i + 1] == second),
{
    data[i] == first && i + 1 < data.len() && data[i + 1] == second
}

fn byte_unescape(b: u8) -> (r: u8)
    ensures
        r == unescape(b),
{
    if b == 0x6e {
        0x0a
    } else if b == 0x74 {
        0x09
    } else if b == 0x72 {
        0x0d
    } else {
        b
    }
}

/// The offset of the next line feed at or after `i`, or the length of the
/// text.
pub fn skip_line(data: &[u8], i: usize) -> (r: usize)
    requires
        i <= data.len(),
    ensures
        r == i + line_rest(data@, i as int),
        r <= data.len(),
{
    let mut j: usize = i;
    while j < data.len() && data[j] != NEWLINE
        invariant
            i <= j <= data.len(),
            line_rest(data@, i as int) == (j - i) + line_rest(data@, j as int),
        decreases data.len() - j,
    {
        j += 1;
    }
    j
}

/// The offset just past the first `*/` at or after `i`, if there is one.
pub fn skip_block_comment(data: &[u8], i: usize) -> (r: Option<usize>)
    requires
        i <= data.len(),
    ensures
        match r {
            Some(e) => comment_rest(data@, i as int) == Some((e - i) as nat) && i + 2 <= e
                <= data.len(),
            None => comment_rest(data@, i as int) is None,
        },
{
    let mut j: usize = i;
    while j < data.len() && j + 1 < data.len()
        invariant
            i <= j <= data.len(),
            comment_rest(data@, i as int) == match comment_rest(data@, j as int) {
                Some(n) => Some((n + (j - i)) as nat),
                None => None,
            },
        decreases data.len() - j,
    {
        if data[j] == STAR && data[j + 1] == SLASH {
            return Some(j + 2);
        }
        j += 1;
    }
    None
}

/// Skips whitespace and comments from `pos` on.
pub fn skip_trivia(data: &[u8], pos: usize) -> (r: Result<usize, LexError>)
    requires
        pos <= data.len(),
    ensures
        match r {
            Ok(e) => trivia_end(data@, pos as int) == Ok::<int, LexError>(e as int) && pos <= e
                <= data.len(),
            Err(e) => trivia_end(data@, pos as int) == Err::<int, LexError>(e),
        },
{
    let mut i: usize = pos;
    while i < data.len()
        invariant
            pos <= i <= data.len(),
            trivia_end(data@, pos as int) == trivia_end(data@, i as int),
        decreases data.len() - i,
    {
        if byte_is_space(data[i]) {
            i += 1;
        } else if pair_at(data, i, SLASH, SLASH) {
            i = skip_line(data, i + 2);
        } else if pair_at(data, i, SLASH, STAR) {
            match skip_block_comment(data, i + 2) {
                Some(e) => {
                    i = e;
                },
                None => {
                    return Err(LexError::UnterminatedComment);
                },
            }
        } else {
            return Ok(i);
        }
    }
    Ok(i)
}

/// The offset just past the word that starts at `i`.
pub fn read_word(data: &[u8], i: usize) -> (r: usize)
    requires
        i <= data.len(),
    ensures
        r == i + word_len(data@, i as int),
        r <= data.len(),
{
    let mut j: usize = i;
    while j < data.len()
        invariant
            i <= j <= data.len(),
            word_len(data@, i as int) == (j - i) + word_len(data@, j as int),
        decreases data.len() - j,
    {
        let b: u8 = data[j];
        if byte_is_space(b) || byte_is_punct(b) || b == QUOTE || pair_at(data, j, SLASH, SLASH)
            || pair_at(data, j, SLASH, STAR) {
            return j;
        }
        j += 1;
    }
    j
}

/// Whether a word reads as a number.
pub fn word_is_number(word: &[u8]) -> (r: bool)
    ensures
        r == is_number(word@),
{
    if word.len() == 0 {
        false
    } else if byte_is_digit(word[0]) {
        true
    } else {
        word.len() > 1 && (word[0] == PLUS || word[0] == MINUS || word[0] == DOT)
            && byte_is_digit(word[1])
    }
}

/// Decodes the quoted string whose content starts at `i`, and gives the
/// offset just past its closing quote.
pub fn read_string(data: &[u8], i: usize) -> (r: Option<(Vec<u8>, usize)>)
    requires
        i <= data.len(),
    ensures
        match r {
            Some((s, e)) => string_rest(data@, i as int) == Some((s@, (e - i) as nat)) && i < e
                <= data.len(),
            None => string_rest(data@, i as int) is None,
        },
{
    let mut out: Vec<u8> = Vec::new();
    let mut j: usize = i;
    while j < data.len()
        invariant
            i <= j <= data.len(),
            string_rest(data@, i as int) == match string_rest(data@, j as int) {
                Some((s, n)) => Some((out@ + s, (n + (j - i)) as nat)),
                None => None,
            },
        decreases data.len() - j,
    {
        let b: u8 = data[j];
        if b == QUOTE {
            assert(out@ + Seq::<u8>::empty() =~= out@);
            return Some((out, j + 1));
        } else if b == BACKSLASH {
            if j + 1 >= data.len() {
                return None;
            }
            let ghost before = out@;
            let c: u8 = byte_unescape(data[j + 1]);
            out.push(c);
            proof {
                match string_rest(data@, j + 2) {
                    Some((s, n)) => {
                        assert(before + (seq![c] + s) =~= out@ + s);
                    },
                    None => {},
                }
            }
            j += 2;
        } else {
            let ghost before = out@;
            out.push(b);
            proof {
                match string_rest(data@, j + 1) {
                    Some((s, n)) => {
                        assert(before + (seq![b] + s) =~= out@ + s);
                    },
                    None => {},
                }
            }
            j += 1;
        }
    }
    None
}

/// Lexes one token at or after byte `pos`.
///
/// Gives the token and the offset just past it, `None` when only whitespace
/// and comments are left, or the lexical error met first.
pub fn next_token(data: &[u8], pos: usize) -> (r: Result<Option<(Token, usize)>, LexError>)
    ensures
        match r {
            Ok(Some((token, next))) => lexed_at(data@, pos as int) == (Lexed::Found {
                lexeme: token@,
                next: next as int,
            }) && pos < next <= data.len(),
            Ok(None) => lexed_at(data@, pos as int) == Lexed::End,
            Err(e) => lexed_at(data@, pos as int) == Lexed::Failed(e),
        },
{
    if pos >= data.len() {
        return Ok(None);
    }
    let i: usize = match skip_trivia(data, pos) {
        Ok(i) => i,
        Err(e) => {
            return Err(e);
        },
    };
    if i >= data.len() {
        return Ok(None);
    }
    proof {
        lemma_lexed_progress(data@, pos as int);
    }
    let b: u8 = data[i];
    if b == BRACE_OPEN {
        Ok(Some((Token::BraceOpen, i + 1)))
    } else if b == BRACE_CLOSE {
        Ok(Some((Token::BraceClose, i + 1)))
    } else if b == EQUALS {
        Ok(Some((Token::Equals, i + 1)))
    } else if b == COMMA {
        Ok(Some((Token::Comma, i + 1)))
    } else if b == SEMICOLON {
        Ok(Some((Token::Semicolon, i + 1)))
    } else if b == QUOTE {
        match read_string(data, i + 1) {
            Some((s, e)) => Ok(Some((Token::Str(s), e))),
            None => Err(LexError::UnterminatedString),
        }
    } else {
        let e: usize = read_word(data, i);
        let word = copy_range(data, i, e);
        if word_is_number(word.as_slice()) {
            Ok(Some((Token::Number(word), e)))
        } else {
            Ok(Some((Token::Ident(word), e)))
        }
    }
}

/// Lexes a whole text.
///
/// Gives every token in order, or the first lexical error anywhere in the
/// text.
pub fn tokenize(data: &[u8]) -> (r: Result<Vec<Token>, LexError>)
    ensures
        match r {
            Ok(tokens) => lex(data@, 0) == Ok::<Seq<Lexeme>, LexError>(lexemes(tokens@)),
            Err(e) => lex(data@, 0) == Err::<Seq<Lexeme>, LexError>(e),
        },
{
    let mut tokens: Vec<Token> = Vec::new();
    let mut pos: usize = 0;
    loop
        invariant
            pos <= data.len(),
            lex(data@, 0) == match lex(data@, pos as int) {
                Ok(rest) => Ok::<Seq<Lexeme>, LexError>(lexemes(tokens@) + rest),
                Err(e) => Err(e),
            },
        decreases data.len() - pos,
    {
        match next_token(data, pos) {
            Err(e) => {
                return Err(e);
            },
            Ok(None) => {
                assert(lexemes(tokens@) + Seq::<Lexeme>::empty() =~= lexemes(tokens@));
                return Ok(tokens);
            },
            Ok(Some((token, next))) => {
                let ghost before = lexemes(tokens@);
                let ghost lexeme = token@;
                tokens.push(token);
                proof {
                    assert(lexemes(tokens@) =~= before.push(lexeme));
                    match lex(data@, next as int) {
                        Ok(rest) => {
                            assert(before + (seq![lexeme] + rest) =~= lexemes(tokens@) + rest);
                        },
                        Err(_) => {},
                    }
                }
                pos = next;
            },
        }
    }
}

} // verus!

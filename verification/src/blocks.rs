//! Brace-delimited blocks, as MAPINFO and UMAPINFO both write them.
//!
//! A block body is scanned for the one assignment that matters,
//! `levelname = "..."`, while braces of nested blocks are counted so that
//! the body's own closing brace is found.

use vstd::prelude::*;
use vstd::string::StringSliceAdditionalSpecFns;
use crate::ascii::{clone_bytes, eq_ignore_case, equals_ignore_case};
use crate::levels::{bytes_of, Finding};
use crate::tokenizer::{lexemes, Lexeme, Token};

verus! {

/// Whether `t` is the bare word `word`, in any ASCII case.
pub open spec fn is_word(t: Lexeme, word: Seq<u8>) -> bool {
    match t {
        Lexeme::Ident(s) => eq_ignore_case(s, word),
        _ => false,
    }
}

/// The text that a word, number or string token carries.
pub open spec fn text_of(t: Lexeme) -> Option<Seq<u8>> {
    match t {
        Lexeme::Ident(s) => Some(s),
        Lexeme::Number(s) => Some(s),
        Lexeme::Str(s) => Some(s),
        _ => None,
    }
}

/// Whether `t` is the keyword that opens a map block.
pub open spec fn is_map_keyword(t: Lexeme) -> bool {
    is_word(t, "map".spec_bytes())
}

/// Whether the token at `open` is the opening brace of a block.
pub open spec fn opens_block(toks: Seq<Lexeme>, open: int) -> bool {
    0 <= open < toks.len() && toks[open] == Lexeme::BraceOpen
}

/// The key whose string value is a level's display name.
pub open spec fn levelname_key() -> Seq<u8> {
    "levelname".spec_bytes()
}

/// The string that the three tokens from `i` on assign to `levelname`, if
/// they are such an assignment.
pub open spec fn level_name_at(toks: Seq<Lexeme>, i: int) -> Option<Seq<u8>> {
    if 0 <= i && i + 2 < toks.len() && is_word(toks[i], levelname_key()) && toks[i + 1]
        == Lexeme::Equals {
        match toks[i + 2] {
            Lexeme::Str(s) => Some(s),
            _ => None,
        }
    } else {
        None
    }
}

/// A step of a block parser: what it found at an offset, if anything, and
/// the offset at which it goes on.
pub struct Step {
    pub found: Option<Finding>,
    pub next: int,
}

/// The outcome of scanning a block body.
pub struct BlockScan {
    /// The offset just past the closing brace; `None` when the tokens run
    /// out first.
    pub end: Option<int>,
    /// The last string assigned to `levelname` directly inside the block.
    pub name: Option<Seq<u8>>,
}

/// Scans a block body from token `pos` on, `depth` braces deep, with
/// `name` the name seen so far. Assignments inside nested blocks are not
/// the block's own and are passed over.
pub open spec fn scan_block(toks: Seq<Lexeme>, pos: int, depth: nat, name: Option<Seq<u8>>) -> BlockScan
    decreases toks.len() - pos,
{
    if pos < 0 || pos >= toks.len() {
        BlockScan { end: None, name }
    } else if toks[pos] == Lexeme::BraceOpen {
        scan_block(toks, pos + 1, depth + 1, name)
    } else if toks[pos] == Lexeme::BraceClose {
        if depth <= 1 {
            BlockScan { end: Some(pos + 1), name }
        } else {
            scan_block(toks, pos + 1, (depth - 1) as nat, name)
        }
    } else if depth == 1 && level_name_at(toks, pos) is Some {
        scan_block(toks, pos + 1, depth, level_name_at(toks, pos))
    } else {
        scan_block(toks, pos + 1, depth, name)
    }
}

/// The body of the block whose opening brace is at `open`.
pub open spec fn block_body(toks: Seq<Lexeme>, open: int) -> BlockScan {
    scan_block(toks, open + 1, 1, None)
}

/// A block's closing brace comes after the place where the scan started and
/// before the tokens run out.
pub proof fn lemma_scan_block_end(toks: Seq<Lexeme>, pos: int, depth: nat, name: Option<Seq<u8>>)
    requires
        0 <= pos,
    ensures
        scan_block(toks, pos, depth, name).end matches Some(e) ==> pos < e <= toks.len(),
    decreases toks.len() - pos,
{
    if pos < toks.len() {
        if toks[pos] == Lexeme::BraceOpen {
            lemma_scan_block_end(toks, pos + 1, depth + 1, name);
        } else if toks[pos] == Lexeme::BraceClose {
            if depth > 1 {
                lemma_scan_block_end(toks, pos + 1, (depth - 1) as nat, name);
            }
        } else if depth == 1 && level_name_at(toks, pos) is Some {
            lemma_scan_block_end(toks, pos + 1, depth, level_name_at(toks, pos));
        } else {
            lemma_scan_block_end(toks, pos + 1, depth, name);
        }
    }
}

/// Whether a token is the bare word `word`, in any ASCII case.
pub fn token_is_word(t: &Token, word: &str) -> (r: bool)
    ensures
        r == is_word(t@, word.spec_bytes()),
{
    match t {
        Token::Ident(s) => equals_ignore_case(s.as_slice(), word.as_bytes()),
        _ => false,
    }
}

/// The text that a word, number or string token carries.
pub fn token_text(t: &Token) -> (r: Option<&Vec<u8>>)
    ensures
        match r {
            Some(s) => text_of(t@) == Some(s@),
            None => text_of(t@) is None,
        },
{
    match t {
        Token::Ident(s) => Some(s),
        Token::Number(s) => Some(s),
        Token::Str(s) => Some(s),
        _ => None,
    }
}

/// The string of a string token.
pub fn token_string(t: &Token) -> (r: Option<&Vec<u8>>)
    ensures
        match r {
            Some(s) => t@ == Lexeme::Str(s@),
            None => !(t@ is Str),
        },
{
    match t {
        Token::Str(s) => Some(s),
        _ => None,
    }
}

/// Whether a token is an opening brace.
pub fn token_opens(t: &Token) -> (r: bool)
    ensures
        r == (t@ == Lexeme::BraceOpen),
{
    match t {
        Token::BraceOpen => true,
        _ => false,
    }
}

/// Whether a token is a closing brace.
pub fn token_closes(t: &Token) -> (r: bool)
    ensures
        r == (t@ == Lexeme::BraceClose),
{
    match t {
        Token::BraceClose => true,
        _ => false,
    }
}

/// Whether a token is an equals sign.
pub fn token_assigns(t: &Token) -> (r: bool)
    ensures
        r == (t@ == Lexeme::Equals),
{
    match t {
        Token::Equals => true,
        _ => false,
    }
}

/// The string that the three tokens from `i` on assign to `levelname`, if
/// they are such an assignment.
pub fn read_level_name(tokens: &Vec<Token>, i: usize) -> (r: Option<Vec<u8>>)
    requires
        i < tokens.len(),
    ensures
        bytes_of(r) == level_name_at(lexemes(tokens@), i as int),
{
    if tokens.len() - i > 2 && token_is_word(&tokens[i], "levelname") && token_assigns(
        &tokens[i + 1],
    ) {
        match token_string(&tokens[i + 2]) {
            Some(s) => Some(clone_bytes(s)),
            None => None,
        }
    } else {
        None
    }
}

/// Scans the body of the block whose opening brace is the token before
/// `start`. Gives the offset just past the closing brace, or `None` when
/// the block is never closed, and the display name assigned in the body.
pub fn read_block(tokens: &Vec<Token>, start: usize) -> (r: (Option<usize>, Option<Vec<u8>>))
    requires
        start <= tokens.len(),
    ensures
        match r.0 {
            Some(e) => scan_block(lexemes(tokens@), start as int, 1, None).end == Some(e as int)
                && start < e <= tokens.len(),
            None => scan_block(lexemes(tokens@), start as int, 1, None).end is None,
        },
        bytes_of(r.1) == scan_block(lexemes(tokens@), start as int, 1, None).name,
{
    let mut pos: usize = start;
    // The number of nested blocks that are open at `pos`.
    let mut nested: usize = 0;
    let mut name: Option<Vec<u8>> = None;
    while pos < tokens.len()
        invariant
            start <= pos <= tokens.len(),
            nested <= pos - start,
            scan_block(lexemes(tokens@), start as int, 1, None) == scan_block(
                lexemes(tokens@),
                pos as int,
                (nested + 1) as nat,
                bytes_of(name),
            ),
        decreases tokens.len() - pos,
    {
        if token_opens(&tokens[pos]) {
            nested += 1;
        } else if token_closes(&tokens[pos]) {
            if nested == 0 {
                return (Some(pos + 1), name);
            }
            nested -= 1;
        } else if nested == 0 {
            match read_level_name(tokens, pos) {
                Some(n) => {
                    name = Some(n);
                },
                None => {},
            }
        }
        pos += 1;
    }
    (None, name)
}

} // verus!

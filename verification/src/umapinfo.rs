//! The UMAPINFO grammar.
//!
//! A lump is a sequence of map blocks:
//!
//! ```text
//! map MAP01 { levelname = "Entryway"; next = "MAP02"; }
//! ```
//!
//! The token after `map` is the level identifier, and the display name is
//! what the block body assigns to `levelname`. Unlike MAPINFO, the header
//! carries no name, and `map` is the only keyword at the top level.
//! Anything else is passed over, a brace-delimited block as a whole. A block
//! whose closing brace is missing names nothing, and parsing goes on at the
//! next `map` after its opening brace.

use vstd::prelude::*;
use crate::blocks::{
    block_body, is_map_keyword, lemma_scan_block_end, opens_block, read_block, text_of,
    token_is_word, token_opens, token_text, Step,
};
use crate::levels::{
    canonical_id, findings, lemma_findings_push, level_id, tagged, Finding, LevelEntry,
};
use crate::locator::LumpFormat;
use crate::tokenizer::{lex, lexemes, tokenize, LexError, Lexeme, Token};

verus! {

/// The number of tokens from `pos` up to, not including, the next `map`
/// keyword or the end of the tokens.
pub open spec fn map_gap(toks: Seq<Lexeme>, pos: int) -> nat
    decreases toks.len() - pos,
{
    if 0 <= pos < toks.len() && !is_map_keyword(toks[pos]) {
        1 + map_gap(toks, pos + 1)
    } else {
        0
    }
}

/// Where parsing goes on after a block whose opening brace is at `open` and
/// whose closing brace is missing.
pub open spec fn resume_after(toks: Seq<Lexeme>, open: int) -> int {
    open + 1 + map_gap(toks, open + 1)
}

/// The identifier of the map block whose keyword is at `pos`; `None` when
/// no word, number or string follows the keyword.
pub open spec fn map_id(toks: Seq<Lexeme>, pos: int) -> Option<Seq<u8>> {
    if pos + 1 < toks.len() && text_of(toks[pos + 1]) is Some {
        Some(level_id(text_of(toks[pos + 1])->0))
    } else {
        None
    }
}

/// The map block whose keyword is at `pos`: the finding it yields and the
/// offset just past it.
pub open spec fn map_step(toks: Seq<Lexeme>, pos: int) -> Step {
    match map_id(toks, pos) {
        None => Step { found: None, next: pos + 1 },
        Some(id) => if opens_block(toks, pos + 2) {
            let scan = block_body(toks, pos + 2);
            match scan.end {
                Some(e) => Step { found: Some(Finding { id, name: scan.name }), next: e },
                None => Step {
                    found: Some(Finding { id, name: None }),
                    next: resume_after(toks, pos + 2),
                },
            }
        } else {
            Step { found: Some(Finding { id, name: None }), next: pos + 2 }
        },
    }
}

/// The offset at which parsing goes on after the token at `pos`, which does
/// not open a map block: past the whole block when the token is an opening
/// brace, past the token otherwise.
pub open spec fn skip_step(toks: Seq<Lexeme>, pos: int) -> int {
    if toks[pos] == Lexeme::BraceOpen {
        match block_body(toks, pos).end {
            Some(e) => e,
            None => resume_after(toks, pos),
        }
    } else {
        pos + 1
    }
}

/// One step of the top-level parse at `pos`.
pub open spec fn step(toks: Seq<Lexeme>, pos: int) -> Step {
    if is_map_keyword(toks[pos]) {
        map_step(toks, pos)
    } else {
        Step { found: None, next: skip_step(toks, pos) }
    }
}

/// The findings of the map blocks from token `pos` on, in order.
pub open spec fn umapinfo_findings(toks: Seq<Lexeme>, pos: int) -> Seq<Finding>
    decreases toks.len() - pos,
    when 0 <= pos
    via umapinfo_findings_decreases
{
    if pos >= toks.len() {
        Seq::empty()
    } else {
        let s = step(toks, pos);
        let rest = umapinfo_findings(toks, s.next);
        match s.found {
            Some(f) => seq![f] + rest,
            None => rest,
        }
    }
}

#[via_fn]
proof fn umapinfo_findings_decreases(toks: Seq<Lexeme>, pos: int) {
    if pos < toks.len() {
        lemma_step_progress(toks, pos);
    }
}

/// What a UMAPINFO lump states: the findings of its map blocks, or nothing
/// when the text cannot be lexed.
pub open spec fn umapinfo_lump_findings(bytes: Seq<u8>) -> Seq<Finding> {
    match lex(bytes, 0) {
        Ok(toks) => umapinfo_findings(toks, 0),
        Err(_) => Seq::empty(),
    }
}

/// The finding of the map block whose keyword is at `pos`, when the block
/// has an identifier and a body that its closing brace ends.
pub open spec fn closed_map_block(toks: Seq<Lexeme>, pos: int) -> Option<Finding> {
    if 0 <= pos < toks.len() && is_map_keyword(toks[pos]) && map_id(toks, pos) is Some
        && opens_block(toks, pos + 2) && block_body(toks, pos + 2).end is Some {
        Some(Finding { id: map_id(toks, pos)->0, name: block_body(toks, pos + 2).name })
    } else {
        None
    }
}

/// The gap to the next `map` ends at or before the end of the tokens.
pub proof fn lemma_map_gap_bound(toks: Seq<Lexeme>, pos: int)
    requires
        0 <= pos <= toks.len(),
    ensures
        pos + map_gap(toks, pos) <= toks.len(),
    decreases toks.len() - pos,
{
    if pos < toks.len() && !is_map_keyword(toks[pos]) {
        lemma_map_gap_bound(toks, pos + 1);
    }
}

/// Every step moves forward and stays inside the tokens.
pub proof fn lemma_step_progress(toks: Seq<Lexeme>, pos: int)
    requires
        0 <= pos < toks.len(),
    ensures
        pos < step(toks, pos).next <= toks.len(),
{
    if is_map_keyword(toks[pos]) {
        if map_id(toks, pos) is Some && opens_block(toks, pos + 2) {
            lemma_scan_block_end(toks, pos + 3, 1, None);
            lemma_map_gap_bound(toks, pos + 3);
        }
    } else if toks[pos] == Lexeme::BraceOpen {
        lemma_scan_block_end(toks, pos + 1, 1, None);
        lemma_map_gap_bound(toks, pos + 1);
    }
}

/// A map block whose closing brace is missing does not hide what follows
/// it: the findings from its keyword on are its own finding, without a
/// name, then all that parsing finds from the next `map` after its opening
/// brace. When that `map` opens a block that is closed, that block's
/// identifier and name come second.
pub proof fn lemma_unclosed_block_is_isolated(toks: Seq<Lexeme>, pos: int)
    requires
        0 <= pos < toks.len(),
        is_map_keyword(toks[pos]),
        map_id(toks, pos) is Some,
        opens_block(toks, pos + 2),
        block_body(toks, pos + 2).end is None,
    ensures
        ({
            let resume = resume_after(toks, pos + 2);
            let own = Finding { id: map_id(toks, pos)->0, name: None };
            &&& pos < resume <= toks.len()
            &&& umapinfo_findings(toks, pos) == seq![own] + umapinfo_findings(toks, resume)
            &&& closed_map_block(toks, resume) matches Some(later) ==> umapinfo_findings(
                toks,
                pos,
            ).len() >= 2 && umapinfo_findings(toks, pos)[1] == later
        }),
{
    lemma_step_progress(toks, pos);
    let resume = resume_after(toks, pos + 2);
    if resume < toks.len() && is_map_keyword(toks[resume]) {
        lemma_step_progress(toks, resume);
    }
}

/// The offset of the next `map` keyword at or after `pos`, or the number of
/// tokens.
pub fn skip_to_map(tokens: &Vec<Token>, pos: usize) -> (r: usize)
    requires
        pos <= tokens.len(),
    ensures
        r == pos + map_gap(lexemes(tokens@), pos as int),
        pos <= r <= tokens.len(),
{
    let mut i: usize = pos;
    while i < tokens.len() && !token_is_word(&tokens[i], "map")
        invariant
            pos <= i <= tokens.len(),
            map_gap(lexemes(tokens@), pos as int) == (i - pos) + map_gap(
                lexemes(tokens@),
                i as int,
            ),
        decreases tokens.len() - i,
    {
        i += 1;
    }
    i
}

/// Reads the map block whose keyword is at `pos`.
pub fn read_map_block(tokens: &Vec<Token>, pos: usize, position: usize) -> (r: (
    Option<LevelEntry>,
    usize,
))
    requires
        pos < tokens.len(),
    ensures
        r.1 == map_step(lexemes(tokens@), pos as int).next,
        pos < r.1 <= tokens.len(),
        match r.0 {
            Some(entry) => map_step(lexemes(tokens@), pos as int).found == Some(entry.finding())
                && entry.format == LumpFormat::UMapInfo && entry.position == position,
            None => map_step(lexemes(tokens@), pos as int).found is None,
        },
{
    let n: usize = tokens.len();
    if n - pos < 2 {
        return (None, pos + 1);
    }
    let id: Vec<u8> = match token_text(&tokens[pos + 1]) {
        Some(s) => canonical_id(s.as_slice()),
        None => {
            return (None, pos + 1);
        },
    };
    assert(map_id(lexemes(tokens@), pos as int) == Some(id@));
    let format = LumpFormat::UMapInfo;
    if n - pos > 2 && token_opens(&tokens[pos + 2]) {
        let (end, found) = read_block(tokens, pos + 3);
        match end {
            Some(e) => (Some(LevelEntry { id, name: found, format, position }), e),
            None => {
                let next: usize = skip_to_map(tokens, pos + 3);
                (Some(LevelEntry { id, name: None, format, position }), next)
            },
        }
    } else {
        (Some(LevelEntry { id, name: None, format, position }), pos + 2)
    }
}

/// The offset at which parsing goes on after the token at `pos`, which does
/// not open a map block.
pub fn read_skip(tokens: &Vec<Token>, pos: usize) -> (r: usize)
    requires
        pos < tokens.len(),
    ensures
        r == skip_step(lexemes(tokens@), pos as int),
        pos < r <= tokens.len(),
{
    if token_opens(&tokens[pos]) {
        match read_block(tokens, pos + 1).0 {
            Some(e) => e,
            None => skip_to_map(tokens, pos + 1),
        }
    } else {
        pos + 1
    }
}

/// Parses the tokens of a UMAPINFO lump.
///
/// Gives one entry per map block, in the order of the blocks, each marked
/// as UMAPINFO read at `position`. A block that names nothing still gives
/// an entry, without a name.
pub fn parse_umapinfo(tokens: &Vec<Token>, position: usize) -> (r: Vec<LevelEntry>)
    ensures
        findings(r@) == umapinfo_findings(lexemes(tokens@), 0),
        tagged(r@, LumpFormat::UMapInfo, position),
{
    let mut entries: Vec<LevelEntry> = Vec::new();
    let mut pos: usize = 0;
    assert(findings(entries@) + umapinfo_findings(lexemes(tokens@), 0) =~= umapinfo_findings(
        lexemes(tokens@),
        0,
    ));
    while pos < tokens.len()
        invariant
            pos <= tokens.len(),
            umapinfo_findings(lexemes(tokens@), 0) == findings(entries@) + umapinfo_findings(
                lexemes(tokens@),
                pos as int,
            ),
            tagged(entries@, LumpFormat::UMapInfo, position),
        decreases tokens.len() - pos,
    {
        let ghost toks = lexemes(tokens@);
        let ghost before = findings(entries@);
        if token_is_word(&tokens[pos], "map") {
            let (found, next) = read_map_block(tokens, pos, position);
            match found {
                Some(entry) => {
                    proof {
                        lemma_findings_push(entries@, entry);
                        assert(before + (seq![entry.finding()] + umapinfo_findings(
                            toks,
                            next as int,
                        )) =~= before.push(entry.finding()) + umapinfo_findings(
                            toks,
                            next as int,
                        ));
                    }
                    entries.push(entry);
                },
                None => {},
            }
            pos = next;
        } else {
            pos = read_skip(tokens, pos);
        }
    }
    assert(findings(entries@) + Seq::<Finding>::empty() =~= findings(entries@));
    entries
}

/// Lexes and parses a UMAPINFO lump.
///
/// A text that cannot be lexed gives the lexical error and no entries.
pub fn parse_umapinfo_lump(bytes: &[u8], position: usize) -> (r: Result<Vec<LevelEntry>, LexError>)
    ensures
        match r {
            Ok(entries) => lex(bytes@, 0) is Ok && findings(entries@) == umapinfo_lump_findings(
                bytes@,
            ) && tagged(entries@, LumpFormat::UMapInfo, position),
            Err(e) => lex(bytes@, 0) == Err::<Seq<Lexeme>, LexError>(e)
                && umapinfo_lump_findings(bytes@) == Seq::<Finding>::empty(),
        },
{
    match tokenize(bytes) {
        Ok(tokens) => Ok(parse_umapinfo(&tokens, position)),
        Err(e) => Err(e),
    }
}

} // verus!

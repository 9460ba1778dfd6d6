//! The MAPINFO grammar, which ZMAPINFO lumps share.
//!
//! A lump is a sequence of top-level declarations. Only `map` blocks matter
//! here:
//!
//! ```text
//! map MAP01 "Entryway" { ... }
//! map MAP02 { levelname = "Underhalls" ... }
//! ```
//!
//! The token after `map` is the level identifier. A quoted string right
//! after it is the display name, unless it starts with `$`: then it is a key
//! into a string table, and the block names nothing. Without such a string,
//! the name is what the block body assigns to `levelname`.
//!
//! Everything else at the top level is passed over, a brace-delimited block
//! as a whole. A block whose closing brace is missing ends the scan of that
//! block only: parsing goes on at the next block keyword after its opening
//! brace.

use vstd::prelude::*;
use vstd::string::StringSliceAdditionalSpecFns;
use crate::ascii::clone_bytes;
use crate::blocks::{
    block_body, is_map_keyword, is_word, lemma_scan_block_end, opens_block, read_block, text_of,
    token_is_word, token_opens, token_string, token_text, Step,
};
use crate::levels::{
    bytes_of, canonical_id, findings, lemma_findings_push, level_id, tagged, Finding, LevelEntry,
};
use crate::locator::LumpFormat;
use crate::tokenizer::{lex, lexemes, tokenize, LexError, Lexeme, Token};

verus! {

pub const DOLLAR: u8 = 0x24;

/// Whether `t` is one of the keywords that start a top-level declaration.
pub open spec fn is_block_keyword(t: Lexeme) -> bool {
    is_word(t, "map".spec_bytes()) || is_word(t, "defaultmap".spec_bytes()) || is_word(
        t,
        "adddefaultmap".spec_bytes(),
    ) || is_word(t, "gamedefaults".spec_bytes()) || is_word(t, "clearepisodes".spec_bytes())
        || is_word(t, "episode".spec_bytes()) || is_word(t, "gameinfo".spec_bytes()) || is_word(
        t,
        "clearskills".spec_bytes(),
    ) || is_word(t, "skill".spec_bytes())
}

/// The number of tokens from `pos` up to, not including, the next block
/// keyword or the end of the tokens.
pub open spec fn keyword_gap(toks: Seq<Lexeme>, pos: int) -> nat
    decreases toks.len() - pos,
{
    if 0 <= pos < toks.len() && !is_block_keyword(toks[pos]) {
        1 + keyword_gap(toks, pos + 1)
    } else {
        0
    }
}

/// Whether a string is a key into a string table rather than a name.
pub open spec fn is_lookup(s: Seq<u8>) -> bool {
    s.len() > 0 && s[0] == DOLLAR
}

/// What stands between the `map` keyword and the block body.
pub struct MapHeader {
    /// The level identifier, in canonical form.
    pub id: Seq<u8>,
    /// The quoted string after the identifier, if there is one.
    pub title: Option<Seq<u8>>,
    /// The offset of the token after the header.
    pub body: int,
}

/// The header of the map block whose keyword is at `pos`; `None` when no
/// word, number or string follows the keyword.
pub open spec fn map_header(toks: Seq<Lexeme>, pos: int) -> Option<MapHeader> {
    if pos + 1 < toks.len() && text_of(toks[pos + 1]) is Some {
        let id = level_id(text_of(toks[pos + 1])->0);
        if pos + 2 < toks.len() && toks[pos + 2] is Str {
            Some(MapHeader { id, title: Some(toks[pos + 2]->Str_0), body: pos + 3 })
        } else {
            Some(MapHeader { id, title: None, body: pos + 2 })
        }
    } else {
        None
    }
}

/// The display name that a header gives by itself.
pub open spec fn title_name(title: Option<Seq<u8>>) -> Option<Seq<u8>> {
    match title {
        Some(s) => if is_lookup(s) {
            None
        } else {
            Some(s)
        },
        None => None,
    }
}

/// Where parsing goes on after a block whose opening brace is at `open` and
/// whose closing brace is missing.
pub open spec fn resume_after(toks: Seq<Lexeme>, open: int) -> int {
    open + 1 + keyword_gap(toks, open + 1)
}

/// The map block whose keyword is at `pos`: the finding it yields and the
/// offset just past it.
pub open spec fn map_step(toks: Seq<Lexeme>, pos: int) -> Step {
    match map_header(toks, pos) {
        None => Step { found: None, next: pos + 1 },
        Some(h) => if opens_block(toks, h.body) {
            let scan = block_body(toks, h.body);
            match scan.end {
                Some(e) => Step {
                    found: Some(
                        Finding {
                            id: h.id,
                            name: if h.title is Some {
                                title_name(h.title)
                            } else {
                                scan.name
                            },
                        },
                    ),
                    next: e,
                },
                None => Step {
                    found: Some(Finding { id: h.id, name: title_name(h.title) }),
                    next: resume_after(toks, h.body),
                },
            }
        } else {
            Step { found: Some(Finding { id: h.id, name: title_name(h.title) }), next: h.body }
        },
    }
}

/// The offset at which parsing goes on after the token at `pos`, which does
/// not open a map block: past the whole block when the token is an opening
/// brace, past the token otherwise.
pub open spec fn skip_step(toks: Seq<Lexeme>, pos: int) -> int {
    if toks[pos] == Lexeme::BraceOpen {
        match block_body(toks, pos).end {
            Some(e) => e,
            None => resume_after(toks, pos),
        }
    } else {
        pos + 1
    }
}

/// One step of the top-level parse at `pos`.
pub open spec fn step(toks: Seq<Lexeme>, pos: int) -> Step {
    if is_map_keyword(toks[pos]) {
        map_step(toks, pos)
    } else {
        Step { found: None, next: skip_step(toks, pos) }
    }
}

/// The findings of the map blocks from token `pos` on, in order.
pub open spec fn mapinfo_findings(toks: Seq<Lexeme>, pos: int) -> Seq<Finding>
    decreases toks.len() - pos,
    when 0 <= pos
    via mapinfo_findings_decreases
{
    if pos >= toks.len() {
        Seq::empty()
    } else {
        let s = step(toks, pos);
        let rest = mapinfo_findings(toks, s.next);
        match s.found {
            Some(f) => seq![f] + rest,
            None => rest,
        }
    }
}

#[via_fn]
proof fn mapinfo_findings_decreases(toks: Seq<Lexeme>, pos: int) {
    if pos < toks.len() {
        lemma_step_progress(toks, pos);
    }
}

/// What a MAPINFO or ZMAPINFO lump states: the findings of its map blocks,
/// or nothing when the text cannot be lexed.
pub open spec fn mapinfo_lump_findings(bytes: Seq<u8>) -> Seq<Finding> {
    match lex(bytes, 0) {
        Ok(toks) => mapinfo_findings(toks, 0),
        Err(_) => Seq::empty(),
    }
}

/// The gap to the next keyword ends at or before the end of the tokens.
pub proof fn lemma_keyword_gap_bound(toks: Seq<Lexeme>, pos: int)
    requires
        0 <= pos <= toks.len(),
    ensures
        pos + keyword_gap(toks, pos) <= toks.len(),
    decreases toks.len() - pos,
{
    if pos < toks.len() && !is_block_keyword(toks[pos]) {
        lemma_keyword_gap_bound(toks, pos + 1);
    }
}

/// Every step moves forward and stays inside the tokens.
pub proof fn lemma_step_progress(toks: Seq<Lexeme>, pos: int)
    requires
        0 <= pos < toks.len(),
    ensures
        pos < step(toks, pos).next <= toks.len(),
{
    if is_map_keyword(toks[pos]) {
        match map_header(toks, pos) {
            None => {},
            Some(h) => {
                if opens_block(toks, h.body) {
                    lemma_scan_block_end(toks, h.body + 1, 1, None);
                    lemma_keyword_gap_bound(toks, h.body + 1);
                }
            },
        }
    } else if toks[pos] == Lexeme::BraceOpen {
        lemma_scan_block_end(toks, pos + 1, 1, None);
        lemma_keyword_gap_bound(toks, pos + 1);
    }
}

/// The finding of the map block whose keyword is at `pos`, when the block
/// has a header and a body that its closing brace ends.
pub open spec fn closed_map_block(toks: Seq<Lexeme>, pos: int) -> Option<Finding> {
    if 0 <= pos < toks.len() && is_map_keyword(toks[pos]) && map_header(toks, pos) is Some {
        let h = map_header(toks, pos)->0;
        if opens_block(toks, h.body) && block_body(toks, h.body).end is Some {
            Some(
                Finding {
                    id: h.id,
                    name: if h.title is Some {
                        title_name(h.title)
                    } else {
                        block_body(toks, h.body).name
                    },
                },
            )
        } else {
            None
        }
    } else {
        None
    }
}

/// A map block whose closing brace is missing does not hide what follows
/// it: the findings from its keyword on are its own finding, then all that
/// parsing finds from the next block keyword after its opening brace. When
/// that keyword opens a map block that is closed, that block's identifier
/// and name come second.
pub proof fn lemma_unclosed_block_is_isolated(toks: Seq<Lexeme>, pos: int)
    requires
        0 <= pos < toks.len(),
        is_map_keyword(toks[pos]),
        map_header(toks, pos) is Some,
        opens_block(toks, map_header(toks, pos)->0.body),
        block_body(toks, map_header(toks, pos)->0.body).end is None,
    ensures
        ({
            let h = map_header(toks, pos)->0;
            let resume = resume_after(toks, h.body);
            let own = Finding { id: h.id, name: title_name(h.title) };
            &&& pos < resume <= toks.len()
            &&& mapinfo_findings(toks, pos) == seq![own] + mapinfo_findings(toks, resume)
            &&& closed_map_block(toks, resume) matches Some(later) ==> mapinfo_findings(
                toks,
                pos,
            ).len() >= 2 && mapinfo_findings(toks, pos)[1] == later
        }),
{
    lemma_step_progress(toks, pos);
    let h = map_header(toks, pos)->0;
    let resume = resume_after(toks, h.body);
    if resume < toks.len() && is_map_keyword(toks[resume]) {
        lemma_step_progress(toks, resume);
    }
}

/// Whether a token is one of the keywords that start a top-level
/// declaration.
pub fn token_is_block_keyword(t: &Token) -> (r: bool)
    ensures
        r == is_block_keyword(t@),
{
    token_is_word(t, "map") || token_is_word(t, "defaultmap") || token_is_word(t, "adddefaultmap")
        || token_is_word(t, "gamedefaults") || token_is_word(t, "clearepisodes") || token_is_word(
        t,
        "episode",
    ) || token_is_word(t, "gameinfo") || token_is_word(t, "clearskills") || token_is_word(
        t,
        "skill",
    )
}

/// The offset of the next block keyword at or after `pos`, or the number of
/// tokens.
pub fn skip_to_keyword(tokens: &Vec<Token>, pos: usize) -> (r: usize)
    requires
        pos <= tokens.len(),
    ensures
        r == pos + keyword_gap(lexemes(tokens@), pos as int),
        pos <= r <= tokens.len(),
{
    let mut i: usize = pos;
    while i < tokens.len() && !token_is_block_keyword(&tokens[i])
        invariant
            pos <= i <= tokens.len(),
            keyword_gap(lexemes(tokens@), pos as int) == (i - pos) + keyword_gap(
                lexemes(tokens@),
                i as int,
            ),
        decreases tokens.len() - i,
    {
        i += 1;
    }
    i
}

/// Reads the map block whose keyword is at `pos`.
pub fn read_map_block(
    tokens: &Vec<Token>,
    pos: usize,
    format: LumpFormat,
    position: usize,
) -> (r: (Option<LevelEntry>, usize))
    requires
        pos < tokens.len(),
    ensures
        r.1 == map_step(lexemes(tokens@), pos as int).next,
        pos < r.1 <= tokens.len(),
        match r.0 {
            Some(entry) => map_step(lexemes(tokens@), pos as int).found == Some(entry.finding())
                && entry.format == format && entry.position == position,
            None => map_step(lexemes(tokens@), pos as int).found is None,
        },
{
    let n: usize = tokens.len();
    if n - pos < 2 {
        return (None, pos + 1);
    }
    let id: Vec<u8> = match token_text(&tokens[pos + 1]) {
        Some(s) => canonical_id(s.as_slice()),
        None => {
            return (None, pos + 1);
        },
    };
    let mut has_title: bool = false;
    let mut title: Option<Vec<u8>> = None;
    let mut body: usize = pos + 2;
    if n - pos > 2 {
        match token_string(&tokens[pos + 2]) {
            Some(s) => {
                has_title = true;
                if !(s.len() > 0 && s[0] == DOLLAR) {
                    title = Some(clone_bytes(s));
                }
                body = pos + 3;
            },
            None => {},
        }
    }
    let ghost h = map_header(lexemes(tokens@), pos as int)->0;
    assert(map_header(lexemes(tokens@), pos as int) is Some);
    assert(h.id == id@);
    assert(h.body == body);
    assert(has_title == (h.title is Some));
    assert(bytes_of(title) == title_name(h.title));
    if body < n && token_opens(&tokens[body]) {
        let (end, found) = read_block(tokens, body + 1);
        match end {
            Some(e) => {
                let name = if has_title {
                    title
                } else {
                    found
                };
                (Some(LevelEntry { id, name, format, position }), e)
            },
            None => {
                let next: usize = skip_to_keyword(tokens, body + 1);
                (Some(LevelEntry { id, name: title, format, position }), next)
            },
        }
    } else {
        (Some(LevelEntry { id, name: title, format, position }), body)
    }
}

/// The offset at which parsing goes on after the token at `pos`, which does
/// not open a map block.
pub fn read_skip(tokens: &Vec<Token>, pos: usize) -> (r: usize)
    requires
        pos < tokens.len(),
    ensures
        r == skip_step(lexemes(tokens@), pos as int),
        pos < r <= tokens.len(),
{
    if token_opens(&tokens[pos]) {
        match read_block(tokens, pos + 1).0 {
            Some(e) => e,
            None => skip_to_keyword(tokens, pos + 1),
        }
    } else {
        pos + 1
    }
}

/// Parses the tokens of a MAPINFO or ZMAPINFO lump.
///
/// Gives one entry per map block, in the order of the blocks, each marked
/// with `format` and `position`. A block that names nothing still gives an
/// entry, without a name.
pub fn parse_mapinfo(tokens: &Vec<Token>, format: LumpFormat, position: usize) -> (r: Vec<
    LevelEntry,
>)
    ensures
        findings(r@) == mapinfo_findings(lexemes(tokens@), 0),
        tagged(r@, format, position),
{
    let mut entries: Vec<LevelEntry> = Vec::new();
    let mut pos: usize = 0;
    assert(findings(entries@) + mapinfo_findings(lexemes(tokens@), 0) =~= mapinfo_findings(
        lexemes(tokens@),
        0,
    ));
    while pos < tokens.len()
        invariant
            pos <= tokens.len(),
            mapinfo_findings(lexemes(tokens@), 0) == findings(entries@) + mapinfo_findings(
                lexemes(tokens@),
                pos as int,
            ),
            tagged(entries@, format, position),
        decreases tokens.len() - pos,
    {
        let ghost toks = lexemes(tokens@);
        let ghost before = findings(entries@);
        if token_is_word(&tokens[pos], "map") {
            let (found, next) = read_map_block(tokens, pos, format, position);
            match found {
                Some(entry) => {
                    proof {
                        lemma_findings_push(entries@, entry);
                        assert(before + (seq![entry.finding()] + mapinfo_findings(
                            toks,
                            next as int,
                        )) =~= before.push(entry.finding()) + mapinfo_findings(toks, next as int));
                    }
                    entries.push(entry);
                },
                None => {},
            }
            pos = next;
        } else {
            pos = read_skip(tokens, pos);
        }
    }
    assert(findings(entries@) + Seq::<Finding>::empty() =~= findings(entries@));
    entries
}

/// Lexes and parses a MAPINFO or ZMAPINFO lump.
///
/// A text that cannot be lexed gives the lexical error and no entries.
pub fn parse_mapinfo_lump(bytes: &[u8], format: LumpFormat, position: usize) -> (r: Result<
    Vec<LevelEntry>,
    LexError,
>)
    ensures
        match r {
            Ok(entries) => lex(bytes@, 0) is Ok && findings(entries@) == mapinfo_lump_findings(
                bytes@,
            ) && tagged(entries@, format, position),
            Err(e) => lex(bytes@, 0) == Err::<Seq<Lexeme>, LexError>(e) && mapinfo_lump_findings(
                bytes@,
            ) == Seq::<Finding>::empty(),
        },
{
    match tokenize(bytes) {
        Ok(tokens) => Ok(parse_mapinfo(&tokens, format, position)),
        Err(e) => Err(e),
    }
}

} // verus!

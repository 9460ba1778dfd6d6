//! From the bytes of a WAD file to its table of level names.
//!
//! The container is validated and its directory decoded; the metadata lumps
//! are found by name and each is handed to the parser of its grammar; what
//! they state is merged, the grammars in their order of priority and the
//! lumps of one grammar in file order. A container that is malformed gives
//! an error and no table. A lump that is malformed is left out, and the
//! other lumps still count.

use vstd::prelude::*;
use vstd::string::StringExecFns;
use crate::dehacked::{dehacked_lump_findings, parse_dehacked, patch_from};
use crate::levels::{
    findings, lemma_findings_concat, tagged, Finding, LevelEntry, LumpOutcome, LumpParseError,
};
use crate::locator::{
    format_of, lemma_located, lemma_located_none, locate_lumps, located, LumpFormat,
};
use crate::mapinfo::{mapinfo_lump_findings, parse_mapinfo_lump};
use crate::merge::{in_priority_order, merge, resolve};
use crate::table::LevelNameTable;
use crate::tokenizer::{lex, LexError};
use crate::umapinfo::{parse_umapinfo_lump, umapinfo_lump_findings};
use crate::wad::{
    directory_of, format_error_text, header_of, lemma_first_misfit, lump_bytes, read_wad,
    record_at, span_fits, spans, within_size_limit, FormatError, LumpDirectoryEntry, LumpSpan,
    MAX_WAD_BYTES,
};

verus! {

/// What a lump written in `format` states.
pub open spec fn lump_findings(format: LumpFormat, bytes: Seq<u8>) -> Seq<Finding> {
    match format {
        LumpFormat::Dehacked => dehacked_lump_findings(bytes),
        LumpFormat::MapInfo => mapinfo_lump_findings(bytes),
        LumpFormat::ZMapInfo => mapinfo_lump_findings(bytes),
        LumpFormat::UMapInfo => umapinfo_lump_findings(bytes),
    }
}

/// A lexical error as the failure of a lump.
pub open spec fn lex_failure(e: LexError) -> LumpParseError {
    match e {
        LexError::UnterminatedString => LumpParseError::UnterminatedString,
        LexError::UnterminatedComment => LumpParseError::UnterminatedComment,
    }
}

/// Why a lump written in `format` cannot be read to its end, if it cannot.
pub open spec fn lump_error(format: LumpFormat, bytes: Seq<u8>) -> Option<LumpParseError> {
    match format {
        LumpFormat::Dehacked => if patch_from(bytes, 0).truncated {
            Some(LumpParseError::TruncatedText)
        } else {
            None
        },
        _ => match lex(bytes, 0) {
            Ok(_) => None,
            Err(e) => Some(lex_failure(e)),
        },
    }
}

/// The bytes that `span` addresses in `data`, when they lie inside it.
pub open spec fn lump_of(data: Seq<u8>, span: LumpSpan) -> Option<Seq<u8>> {
    if span_fits(span, data.len() as int) {
        Some(data.subrange(span.offset, span.offset + span.size))
    } else {
        None
    }
}

/// What the lump at `span`, written in `format`, states.
pub open spec fn span_findings(data: Seq<u8>, span: LumpSpan, format: LumpFormat) -> Seq<Finding> {
    match lump_of(data, span) {
        Some(bytes) => lump_findings(format, bytes),
        None => Seq::empty(),
    }
}

/// What the first `n` of the lumps listed in `indices` state, in order.
pub open spec fn gathered(
    data: Seq<u8>,
    dir: Seq<LumpSpan>,
    format: LumpFormat,
    indices: Seq<usize>,
    n: int,
) -> Seq<Finding>
    decreases n,
{
    if n <= 0 {
        Seq::empty()
    } else {
        gathered(data, dir, format, indices, n - 1) + span_findings(
            data,
            dir[indices[n - 1] as int],
            format,
        )
    }
}

/// The directory index of the lump that each of those findings was read
/// from: for each of the first `n` lumps listed, its index as many times as
/// the lump has findings.
pub open spec fn gathered_positions(
    data: Seq<u8>,
    dir: Seq<LumpSpan>,
    format: LumpFormat,
    indices: Seq<usize>,
    n: int,
) -> Seq<usize>
    decreases n,
{
    if n <= 0 {
        Seq::empty()
    } else {
        gathered_positions(data, dir, format, indices, n - 1) + Seq::new(
            span_findings(data, dir[indices[n - 1] as int], format).len(),
            |i: int| indices[n - 1],
        )
    }
}

/// The positions that a list of entries carries, in order.
pub open spec fn positions(entries: Seq<LevelEntry>) -> Seq<usize> {
    Seq::new(entries.len(), |i: int| entries[i].position)
}

/// The directory index of the lump behind each finding of one grammar.
pub open spec fn format_positions(data: Seq<u8>, dir: Seq<LumpSpan>, format: LumpFormat) -> Seq<
    usize,
> {
    let indices = located(dir, format, dir.len() as int);
    gathered_positions(data, dir, format, indices, indices.len() as int)
}

/// What the lumps of one grammar state, in file order.
pub open spec fn format_findings(data: Seq<u8>, dir: Seq<LumpSpan>, format: LumpFormat) -> Seq<
    Finding,
> {
    let indices = located(dir, format, dir.len() as int);
    gathered(data, dir, format, indices, indices.len() as int)
}

/// What all the metadata lumps state, in the order in which it applies.
pub open spec fn all_findings(data: Seq<u8>, dir: Seq<LumpSpan>) -> Seq<Finding> {
    in_priority_order(
        format_findings(data, dir, LumpFormat::Dehacked),
        format_findings(data, dir, LumpFormat::MapInfo),
        format_findings(data, dir, LumpFormat::ZMapInfo),
        format_findings(data, dir, LumpFormat::UMapInfo),
    )
}

/// The level names of the WAD file `data`, or why the file is rejected.
pub open spec fn level_names(data: Seq<u8>) -> Result<Map<Seq<u8>, Seq<u8>>, FormatError> {
    match directory_of(data) {
        Ok(dir) => Ok(resolve(all_findings(data, dir))),
        Err(e) => Err(e),
    }
}

/// Why an extraction gave no table.
#[derive(Clone, Debug, PartialEq, Eq)]
pub enum ExtractError {
    /// The file is missing, unreadable or too large; the text says which.
    Io(String),
    /// The file was read and is not a usable WAD container.
    Format(FormatError),
}

/// The message that goes with an extraction error.
pub open spec fn extract_error_text(e: ExtractError) -> Seq<char> {
    match e {
        ExtractError::Io(detail) => "Failed to read WAD file: "@ + detail@,
        ExtractError::Format(e) => "Invalid WAD file: "@ + format_error_text(e),
    }
}

/// What is said of a file that is over the size limit.
pub open spec fn oversize_text() -> Seq<char> {
    "file is larger than one gibibyte"@
}

/// Extraction is a function of the bytes: equal files have equal names.
pub proof fn lemma_same_bytes_same_names(a: Seq<u8>, b: Seq<u8>)
    requires
        a == b,
    ensures
        level_names(a) == level_names(b),
{
}

/// A file without metadata lumps has no level names, and that is no error.
pub proof fn lemma_no_metadata_no_names(data: Seq<u8>)
    requires
        directory_of(data) is Ok,
        forall|i: int|
            0 <= i < directory_of(data)->Ok_0.len() ==> format_of(
                (#[trigger] directory_of(data)->Ok_0[i]).name,
            ) is None,
    ensures
        level_names(data) == Ok::<Map<Seq<u8>, Seq<u8>>, FormatError>(Map::empty()),
{
    let dir = directory_of(data)->Ok_0;
    let n = dir.len() as int;
    lemma_located_none(dir, LumpFormat::Dehacked, n);
    lemma_located_none(dir, LumpFormat::MapInfo, n);
    lemma_located_none(dir, LumpFormat::ZMapInfo, n);
    lemma_located_none(dir, LumpFormat::UMapInfo, n);
    assert(all_findings(data, dir) =~= Seq::<Finding>::empty());
}

/// A directory record that addresses bytes outside the file makes the
/// extraction fail, with the index of the first such record.
pub proof fn lemma_misfit_is_rejected(data: Seq<u8>, i: int)
    requires
        header_of(data) is Ok,
        0 <= i < header_of(data)->Ok_0.lump_count,
        !span_fits(
            record_at(data, header_of(data)->Ok_0.directory_offset + 16 * i),
            data.len() as int,
        ),
    ensures
        level_names(data) matches Err(FormatError::LumpOutOfBounds { index }) && index <= i,
{
    let h = header_of(data)->Ok_0;
    lemma_first_misfit(data, h.directory_offset as int, h.lump_count as int, 0);
}

/// Parses one lump in the grammar `format`. The entries are marked with
/// `format` and `position`.
pub fn parse_lump(format: LumpFormat, bytes: &[u8], position: usize) -> (r: LumpOutcome)
    ensures
        findings(r.entries@) == lump_findings(format, bytes@),
        r.error == lump_error(format, bytes@),
        tagged(r.entries@, format, position),
{
    match format {
        LumpFormat::Dehacked => {
            let patch = parse_dehacked(bytes, position);
            let error = if patch.truncated {
                Some(LumpParseError::TruncatedText)
            } else {
                None
            };
            LumpOutcome { entries: patch.entries, error }
        },
        LumpFormat::MapInfo | LumpFormat::ZMapInfo => {
            match parse_mapinfo_lump(bytes, format, position) {
                Ok(entries) => LumpOutcome { entries, error: None },
                Err(e) => failed_lump(e),
            }
        },
        LumpFormat::UMapInfo => {
            match parse_umapinfo_lump(bytes, position) {
                Ok(entries) => LumpOutcome { entries, error: None },
                Err(e) => failed_lump(e),
            }
        },
    }
}

/// The outcome of a lump that cannot be lexed: no entries.
fn failed_lump(e: LexError) -> (r: LumpOutcome)
    ensures
        r.entries@.len() == 0,
        r.error == Some(lex_failure(e)),
{
    let error = match e {
        LexError::UnterminatedString => LumpParseError::UnterminatedString,
        LexError::UnterminatedComment => LumpParseError::UnterminatedComment,
    };
    LumpOutcome { entries: Vec::new(), error: Some(error) }
}

/// Parses every lump of the directory that carries `format`, in file
/// order, and gives their entries one after the other. The position of an
/// entry is the index of its lump in the directory.
pub fn gather_format(data: &[u8], dir: &Vec<LumpDirectoryEntry>, format: LumpFormat) -> (r: Vec<
    LevelEntry,
>)
    ensures
        findings(r@) == format_findings(data@, spans(dir@), format),
        forall|i: int|
            0 <= i < r@.len() ==> (#[trigger] r@[i]).format == format && r@[i].position
                < dir@.len(),
        forall|i: int|
            0 <= i < r@.len() ==> format_of(
                spans(dir@)[(#[trigger] r@[i]).position as int].name,
            ) == Some(format),
        forall|i: int, j: int|
            0 <= i <= j < r@.len() ==> (#[trigger] r@[i]).position <= (#[trigger] r@[j]).position,
        positions(r@) == format_positions(data@, spans(dir@), format),
{
    let indices = locate_lumps(dir, format);
    let mut out: Vec<LevelEntry> = Vec::new();
    let mut k: usize = 0;
    let count: usize = dir.len();
    proof {
        lemma_located(spans(dir@), format, count as int);
        assert(findings(out@) =~= Seq::<Finding>::empty());
        assert(positions(out@) =~= Seq::<usize>::empty());
    }
    while k < indices.len()
        invariant
            k <= indices@.len(),
            indices@ == located(spans(dir@), format, dir@.len() as int),
            forall|j: int| 0 <= j < indices@.len() ==> (#[trigger] indices@[j]) < dir@.len(),
            findings(out@) == gathered(data@, spans(dir@), format, indices@, k as int),
            positions(out@) == gathered_positions(
                data@,
                spans(dir@),
                format,
                indices@,
                k as int,
            ),
            forall|j: int|
                0 <= j < out@.len() ==> (#[trigger] out@[j]).format == format && out@[j].position
                    < dir@.len(),
            forall|j: int|
                0 <= j < out@.len() ==> format_of(
                    spans(dir@)[(#[trigger] out@[j]).position as int].name,
                ) == Some(format),
            forall|a: int, b: int|
                0 <= a <= b < out@.len() ==> (#[trigger] out@[a]).position <= (
                #[trigger] out@[b]).position,
            forall|j: int, m: int|
                0 <= j < out@.len() && k <= m < indices@.len() ==> (#[trigger] out@[j]).position
                    < (#[trigger] indices@[m]),
            forall|a: int, b: int|
                0 <= a < b < indices@.len() ==> indices@[a] < indices@[b],
            forall|m: int|
                0 <= m < indices@.len() ==> format_of(
                    spans(dir@)[(#[trigger] indices@[m]) as int].name,
                ) == Some(format),
        decreases indices@.len() - k,
    {
        let i: usize = indices[k];
        match lump_bytes(data, &dir[i]) {
            Some(bytes) => {
                let mut outcome = parse_lump(format, bytes, i);
                proof {
                    lemma_findings_concat(out@, outcome.entries@);
                    assert(positions(out@ + outcome.entries@) =~= positions(out@) + Seq::new(
                        findings(outcome.entries@).len(),
                        |j: int| i,
                    ));
                }
                out.append(&mut outcome.entries);
            },
            None => {
                assert(findings(out@) + Seq::<Finding>::empty() =~= findings(out@));
                assert(positions(out@) + Seq::new(0, |j: int| i) =~= positions(out@));
            },
        }
        k += 1;
    }
    out
}

/// Extracts the level names of a WAD file from its bytes.
///
/// Fails exactly when the container is malformed: the buffer is too short
/// for a header, the tag is unknown, the lump count is negative, the
/// directory lies outside the buffer, or a directory record addresses bytes
/// outside the buffer. Otherwise the table holds, for each level that a
/// metadata lump names, the name that prevails. A file without metadata
/// lumps gives an empty table.
pub fn extract_level_names(data: &[u8]) -> (r: Result<LevelNameTable, FormatError>)
    ensures
        match r {
            Ok(table) => table.wf() && level_names(data@) == Ok::<
                Map<Seq<u8>, Seq<u8>>,
                FormatError,
            >(table@),
            Err(e) => level_names(data@) == Err::<Map<Seq<u8>, Seq<u8>>, FormatError>(e),
        },
{
    let dir = match read_wad(data) {
        Ok((_, dir)) => dir,
        Err(e) => {
            return Err(e);
        },
    };
    let dehacked = gather_format(data, &dir, LumpFormat::Dehacked);
    let mapinfo = gather_format(data, &dir, LumpFormat::MapInfo);
    let zmapinfo = gather_format(data, &dir, LumpFormat::ZMapInfo);
    let umapinfo = gather_format(data, &dir, LumpFormat::UMapInfo);
    Ok(merge(&dehacked, &mapinfo, &zmapinfo, &umapinfo))
}

impl ExtractError {
    /// A message for the reader of an error report.
    pub fn message(&self) -> (r: String)
        ensures
            r@ == extract_error_text(*self),
    {
        match self {
            ExtractError::Io(detail) => String::from_str("Failed to read WAD file: ").concat(
                detail.as_str(),
            ),
            ExtractError::Format(e) => {
                let text = e.message();
                String::from_str("Invalid WAD file: ").concat(text.as_str())
            },
        }
    }
}

/// Accepts the size of a file before it is read, or refuses it as too
/// large to read.
pub fn check_file_size(len: u64) -> (r: Result<(), ExtractError>)
    ensures
        r is Ok <==> len <= MAX_WAD_BYTES,
        r matches Err(e) ==> e matches ExtractError::Io(detail) && detail@ == oversize_text(),
{
    if within_size_limit(len) {
        Ok(())
    } else {
        Err(ExtractError::Io(String::from_str("file is larger than one gibibyte")))
    }
}

/// Extracts the level names of a WAD file, given what reading the file
/// came to: its bytes, or the text of the error that reading met.
///
/// A failed read fails the extraction with that text. A malformed
/// container fails it with the format error. Otherwise the table is that
/// of [`extract_level_names`].
pub fn extract_from_content(content: Result<Vec<u8>, String>) -> (r: Result<
    LevelNameTable,
    ExtractError,
>)
    ensures
        match content {
            Err(detail) => r matches Err(ExtractError::Io(d)) && d == detail,
            Ok(bytes) => match r {
                Ok(table) => table.wf() && level_names(bytes@) == Ok::<
                    Map<Seq<u8>, Seq<u8>>,
                    FormatError,
                >(table@),
                Err(ExtractError::Format(e)) => level_names(bytes@) == Err::<
                    Map<Seq<u8>, Seq<u8>>,
                    FormatError,
                >(e),
                Err(ExtractError::Io(_)) => false,
            },
        },
{
    match content {
        Err(detail) => Err(ExtractError::Io(detail)),
        Ok(bytes) => match extract_level_names(bytes.as_slice()) {
            Ok(table) => Ok(table),
            Err(e) => Err(ExtractError::Format(e)),
        },
    }
}

} // verus!

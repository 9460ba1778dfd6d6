//! What a metadata lump says about a level.

use vstd::prelude::*;
use crate::ascii::{to_upper, trim, trimmed, upper};
use crate::locator::LumpFormat;

verus! {

/// One statement about a level: its identifier, and the display name that
/// goes with it when the statement carries one.
pub struct Finding {
    pub id: Seq<u8>,
    pub name: Option<Seq<u8>>,
}

/// A statement about a level together with where it was read: the grammar
/// of the lump and the lump's index in the directory.
#[derive(Clone, Debug, PartialEq, Eq)]
pub struct LevelEntry {
    pub id: Vec<u8>,
    pub name: Option<Vec<u8>>,
    pub format: LumpFormat,
    pub position: usize,
}

/// The content of an optional byte string.
pub open spec fn bytes_of(o: Option<Vec<u8>>) -> Option<Seq<u8>> {
    match o {
        Some(v) => Some(v@),
        None => None,
    }
}

impl LevelEntry {
    /// What the entry states, without where it was read.
    pub open spec fn finding(&self) -> Finding {
        Finding { id: self.id@, name: bytes_of(self.name) }
    }
}

/// What a list of entries states, in order.
pub open spec fn findings(entries: Seq<LevelEntry>) -> Seq<Finding> {
    Seq::new(entries.len(), |i: int| entries[i].finding())
}

/// Whether every entry of the list is marked as read from the lump at
/// `position`, written in `format`.
pub open spec fn tagged(entries: Seq<LevelEntry>, format: LumpFormat, position: usize) -> bool {
    forall|i: int|
        0 <= i < entries.len() ==> (#[trigger] entries[i]).format == format
            && entries[i].position == position
}

/// The canonical form of a level identifier: without the whitespace
/// around it, in ASCII upper case.
pub open spec fn level_id(text: Seq<u8>) -> Seq<u8> {
    upper(trim(text))
}

/// Brings a level identifier into its canonical form.
pub fn canonical_id(text: &[u8]) -> (r: Vec<u8>)
    ensures
        r@ == level_id(text@),
{
    let bare = trimmed(text);
    to_upper(bare.as_slice())
}

/// Why a metadata lump could not be read to its end. Such a lump is left
/// out, wholly or from the point of failure on; the extraction goes on.
#[derive(Clone, Copy, Debug, PartialEq, Eq, Structural)]
pub enum LumpParseError {
    /// A quoted string has no closing quote.
    UnterminatedString,
    /// A block comment has no closing `*/`.
    UnterminatedComment,
    /// A text directive announces more bytes than the lump holds.
    TruncatedText,
}

/// What one lump contributes: the entries read from it, and the reason
/// reading stopped early when it did.
#[derive(Debug)]
pub struct LumpOutcome {
    pub entries: Vec<LevelEntry>,
    pub error: Option<LumpParseError>,
}

/// The findings of two lists of entries, one after the other.
pub proof fn lemma_findings_concat(a: Seq<LevelEntry>, b: Seq<LevelEntry>)
    ensures
        findings(a + b) == findings(a) + findings(b),
{
    assert(findings(a + b) =~= findings(a) + findings(b));
}

/// Appending an entry appends its finding.
pub proof fn lemma_findings_push(entries: Seq<LevelEntry>, entry: LevelEntry)
    ensures
        findings(entries.push(entry)) == findings(entries).push(entry.finding()),
{
    assert(findings(entries.push(entry)) =~= findings(entries).push(entry.finding()));
}

} // verus!

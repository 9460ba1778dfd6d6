//! The rules that launching the game goes by.

use vstd::prelude::*;
use vstd::slice::slice_subrange;
use vstd::string::{StringExecFns, StringSliceAdditionalSpecFns};
use vstd::utf8::encode_utf8;
use crate::ascii::bytes_equal;

verus! {

/// The lower-case form of a text, as Unicode defines it.
pub uninterp spec fn lowercase(s: Seq<char>) -> Seq<char>;

/// Lower-cases a text with `str::to_lowercase` of the standard library.
/// The contract only names the result: it is the text that the standard
/// library's lower-casing gives for this text.
#[verifier::external_body]
fn to_lowercase(s: &str) -> (r: String)
    ensures
        r@ == lowercase(s@),
{
    s.to_lowercase()
}

/// Whether `needle` occurs in `hay` as a run of consecutive bytes.
pub open spec fn occurs(hay: Seq<u8>, needle: Seq<u8>) -> bool {
    exists|i: int| occurs_at(hay, needle, i)
}

/// Whether `needle` occurs in `hay` at offset `i`.
pub open spec fn occurs_at(hay: Seq<u8>, needle: Seq<u8>, i: int) -> bool {
    0 <= i && i + needle.len() <= hay.len() && hay.subrange(i, i + needle.len()) == needle
}

/// The word that the path of the game's executable must hold.
pub open spec fn required_word() -> Seq<u8> {
    "gzdoom".spec_bytes()
}

/// Whether a path is accepted as that of the game: its lower-case form
/// holds the word `gzdoom`.
pub open spec fn names_gzdoom(path: Seq<char>) -> bool {
    occurs(encode_utf8(lowercase(path)), required_word())
}

/// The message that a refused path is answered with.
pub open spec fn refusal() -> Seq<char> {
    "Invalid GZDoom path: must contain 'gzdoom'"@
}

/// Whether `needle` occurs in `hay`.
pub fn contains_bytes(hay: &[u8], needle: &[u8]) -> (r: bool)
    ensures
        r == occurs(hay@, needle@),
{
    if needle.len() > hay.len() {
        assert forall|i: int| !occurs_at(hay@, needle@, i) by {}
        return false;
    }
    if needle.len() == 0 {
        assert(hay@.subrange(0, 0) =~= needle@);
        assert(occurs_at(hay@, needle@, 0));
        return true;
    }
    let last: usize = hay.len() - needle.len();
    let mut i: usize = 0;
    while i <= last
        invariant
            i <= last + 1,
            last == hay.len() - needle.len(),
            1 <= needle.len() <= hay.len(),
            forall|j: int| 0 <= j < i ==> !occurs_at(hay@, needle@, j),
        decreases last + 1 - i,
    {
        if bytes_equal(slice_subrange(hay, i, i + needle.len()), needle) {
            assert(occurs_at(hay@, needle@, i as int));
            return true;
        }
        i += 1;
    }
    assert forall|j: int| !occurs_at(hay@, needle@, j) by {}
    false
}

/// Whether a path is accepted as that of the game.
pub fn is_gzdoom_path(path: &str) -> (r: bool)
    ensures
        r == names_gzdoom(path@),
{
    let lower = to_lowercase(path);
    contains_bytes(lower.as_str().as_bytes(), "gzdoom".as_bytes())
}

/// Accepts the path of the game's executable, or refuses it with a
/// message.
pub fn check_gzdoom_path(path: &str) -> (r: Result<(), String>)
    ensures
        r is Ok <==> names_gzdoom(path@),
        r matches Err(message) ==> message@ == refusal(),
{
    if is_gzdoom_path(path) {
        Ok(())
    } else {
        Err(String::from_str("Invalid GZDoom path: must contain 'gzdoom'"))
    }
}

/// The message for a step that failed: what failed, a colon and a space,
/// and the detail that the failure came with.
pub fn failure_message(what: &str, detail: &str) -> (r: String)
    ensures
        r@ == what@ + ": "@ + detail@,
{
    String::from_str(what).concat(": ").concat(detail)
}

/// The message for a process check that could not be run: what failed and
/// the detail that the failure came with.
pub fn pgrep_failure(detail: &str) -> (r: String)
    ensures
        r@ == "Failed to run pgrep: "@ + detail@,
{
    String::from_str("Failed to run pgrep: ").concat(detail)
}

/// The message for a game that could not be started: the path and the
/// detail that the failure came with.
pub fn launch_failure(path: &str, detail: &str) -> (r: String)
    ensures
        r@ == "Failed to launch GZDoom at '"@ + path@ + "': "@ + detail@,
{
    String::from_str("Failed to launch GZDoom at '").concat(path).concat("': ").concat(detail)
}

} // verus!

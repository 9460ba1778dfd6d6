//! The DEHACKED patch grammar, as far as it renames levels.
//!
//! A patch is read line by line, with one exception. A line of the form
//!
//! ```text
//! Text 6 8
//! ```
//!
//! announces two runs of raw bytes that start right after the line: first
//! the text to replace, of the first length, then its replacement, of the
//! second. Both are taken by length alone, whatever they hold, line feeds
//! included; reading by lines goes on after them. When the text to replace
//! is the default name of a level (see [`crate::vanilla`]), the replacement
//! is that level's new name. A patch that announces more bytes than it
//! holds is cut short there: what was read before stands.
//!
//! A line of the form `MAP01 = Entryway` or `E1M1 = Hangar` names the level
//! directly. Every other line is passed over.

use vstd::prelude::*;
use vstd::slice::slice_subrange;
use vstd::string::StringSliceAdditionalSpecFns;
use crate::ascii::{
    byte_is_digit, byte_is_space, copy_range, eq_ignore_case, equals_ignore_case, is_digit,
    is_space, lemma_spaces_end_bounds, spaces_end, to_upper, trim, trimmed, upper,
};
use crate::levels::{
    canonical_id, findings, lemma_findings_push, level_id, tagged, Finding, LevelEntry,
};
use crate::locator::LumpFormat;
use crate::tokenizer::{lemma_line_rest_bound, line_rest, skip_line, EQUALS};
use crate::vanilla::{find_vanilla, vanilla_id, vanilla_index, vanilla_level};

verus! {

/// The length of the run of bytes from `i` on that are not whitespace.
pub open spec fn field_len(s: Seq<u8>, i: int) -> nat
    decreases s.len() - i,
{
    if 0 <= i < s.len() && !is_space(s[i]) {
        1 + field_len(s, i + 1)
    } else {
        0
    }
}

/// Whether every byte of `s` is a decimal digit.
pub open spec fn all_digits(s: Seq<u8>) -> bool {
    forall|i: int| 0 <= i < s.len() ==> is_digit(#[trigger] s[i])
}

/// The number that the decimal digits `s` write.
pub open spec fn decimal(s: Seq<u8>) -> nat
    decreases s.len(),
{
    if s.len() == 0 {
        0
    } else {
        decimal(s.drop_last()) * 10 + (s.last() - 0x30) as nat
    }
}

/// The word that opens a text replacement.
pub open spec fn text_keyword() -> Seq<u8> {
    "Text".spec_bytes()
}

/// The first three whitespace-separated fields of a line, as offsets, and
/// the offset of what follows them.
pub struct Fields {
    pub a: int,
    pub b: int,
    pub c: int,
    pub d: int,
    pub e: int,
    pub f: int,
    pub g: int,
}

/// Cuts a line into its first three fields: `a..b`, `c..d` and `e..f`;
/// `g` is where a fourth would start.
pub open spec fn fields_of(line: Seq<u8>) -> Fields {
    let a = spaces_end(line, 0);
    let b = a + field_len(line, a);
    let c = spaces_end(line, b);
    let d = c + field_len(line, c);
    let e = spaces_end(line, d);
    let f = e + field_len(line, e);
    let g = spaces_end(line, f);
    Fields { a, b, c, d, e, f, g }
}

/// The two lengths that a line announces, if the line is a text directive:
/// the word `Text`, in any case, and two decimal numbers, with nothing
/// after them.
pub open spec fn text_directive(line: Seq<u8>) -> Option<(nat, nat)> {
    let x = fields_of(line);
    if eq_ignore_case(line.subrange(x.a, x.b), text_keyword()) && x.c < x.d && x.e < x.f && x.g
        >= line.len() && all_digits(line.subrange(x.c, x.d)) && all_digits(
        line.subrange(x.e, x.f),
    ) {
        Some((decimal(line.subrange(x.c, x.d)), decimal(line.subrange(x.e, x.f))))
    } else {
        None
    }
}

/// Whether `s` has the shape of a level identifier: `E`, a digit, `M` and a
/// digit, or `MAP` and two digits, in any case.
pub open spec fn is_level_id(s: Seq<u8>) -> bool {
    let u = upper(s);
    (u.len() == 4 && u[0] == 0x45 && is_digit(u[1]) && u[2] == 0x4d && is_digit(u[3])) || (u.len()
        == 5 && u[0] == 0x4d && u[1] == 0x41 && u[2] == 0x50 && is_digit(u[3]) && is_digit(u[4]))
}

/// The number of bytes from `i` up to, not including, the next equals sign
/// or the end of the line.
pub open spec fn equals_gap(line: Seq<u8>, i: int) -> nat
    decreases line.len() - i,
{
    if 0 <= i < line.len() && line[i] != EQUALS {
        1 + equals_gap(line, i + 1)
    } else {
        0
    }
}

/// What a line of the form `<level> = <name>` states; `None` for any other
/// line. The name is what follows the first equals sign, without the
/// whitespace around it.
pub open spec fn assignment(line: Seq<u8>) -> Option<Finding> {
    let k = equals_gap(line, 0) as int;
    if k < line.len() && is_level_id(trim(line.subrange(0, k))) {
        Some(
            Finding {
                id: level_id(line.subrange(0, k)),
                name: Some(trim(line.subrange(k + 1, line.len() as int))),
            },
        )
    } else {
        None
    }
}

/// What replacing the text `from` by `to` states: a new name for the level
/// whose default name `from` is, and nothing for any other text.
pub open spec fn replacement(from: Seq<u8>, to: Seq<u8>) -> Option<Finding> {
    match vanilla_index(from) {
        Some(k) => Some(Finding { id: vanilla_id(k), name: Some(to) }),
        None => None,
    }
}

/// What reading one line, and the bytes it announces, comes to.
pub enum LineStep {
    /// The line announces more bytes than are left.
    Truncated,
    /// The line was read: what it states, and where reading goes on.
    Read { found: Option<Finding>, next: int },
}

/// Reads the line that starts at `pos`.
pub open spec fn line_step(data: Seq<u8>, pos: int) -> LineStep {
    let n = line_rest(data, pos);
    let line = data.subrange(pos, pos + n);
    let after = if pos + n < data.len() {
        pos + n + 1
    } else {
        pos + n
    };
    match text_directive(line) {
        Some((from_len, to_len)) => if after + from_len + to_len > data.len() {
            LineStep::Truncated
        } else {
            LineStep::Read {
                found: replacement(
                    data.subrange(after, after + from_len),
                    data.subrange(after + from_len, after + from_len + to_len),
                ),
                next: after + from_len + to_len,
            }
        },
        None => LineStep::Read { found: assignment(line), next: after },
    }
}

/// What a patch states, and whether it was cut short.
pub struct Patch {
    pub findings: Seq<Finding>,
    pub truncated: bool,
}

/// Reads the patch `data` from byte `pos` on.
pub open spec fn patch_from(data: Seq<u8>, pos: int) -> Patch
    decreases data.len() - pos,
    when 0 <= pos
    via patch_from_decreases
{
    if pos >= data.len() {
        Patch { findings: Seq::empty(), truncated: false }
    } else {
        match line_step(data, pos) {
            LineStep::Truncated => Patch { findings: Seq::empty(), truncated: true },
            LineStep::Read { found, next } => {
                let rest = patch_from(data, next);
                match found {
                    Some(f) => Patch { findings: seq![f] + rest.findings, truncated: rest.truncated },
                    None => rest,
                }
            },
        }
    }
}

#[via_fn]
proof fn patch_from_decreases(data: Seq<u8>, pos: int) {
    if pos < data.len() {
        lemma_line_step_progress(data, pos);
    }
}

/// What a DEHACKED lump states: every renaming up to the end of the lump or
/// to the first directive that announces more bytes than the lump holds.
pub open spec fn dehacked_lump_findings(bytes: Seq<u8>) -> Seq<Finding> {
    patch_from(bytes, 0).findings
}

/// Reading a line moves forward and stays inside the patch.
pub proof fn lemma_line_step_progress(data: Seq<u8>, pos: int)
    requires
        0 <= pos < data.len(),
    ensures
        line_step(data, pos) matches LineStep::Read { found, next } ==> pos < next <= data.len(),
{
    lemma_line_rest_bound(data, pos);
}

/// A field ends at or before the end of the line.
pub proof fn lemma_field_len_bound(s: Seq<u8>, i: int)
    requires
        0 <= i <= s.len(),
    ensures
        i + field_len(s, i) <= s.len(),
    decreases s.len() - i,
{
    if i < s.len() && !is_space(s[i]) {
        lemma_field_len_bound(s, i + 1);
    }
}

/// The fields of a line lie in the line, one after the other.
pub proof fn lemma_fields_bounds(line: Seq<u8>)
    ensures
        ({
            let x = fields_of(line);
            0 <= x.a <= x.b <= x.c <= x.d <= x.e <= x.f <= x.g <= line.len()
        }),
{
    let x = fields_of(line);
    lemma_spaces_end_bounds(line, 0);
    lemma_field_len_bound(line, x.a);
    lemma_spaces_end_bounds(line, x.b);
    lemma_field_len_bound(line, x.c);
    lemma_spaces_end_bounds(line, x.d);
    lemma_field_len_bound(line, x.e);
    lemma_spaces_end_bounds(line, x.f);
}

/// The number written by the first `k` digits is at most the number written
/// by all of them.
pub proof fn lemma_decimal_prefix(s: Seq<u8>, k: int)
    requires
        all_digits(s),
        0 <= k <= s.len(),
    ensures
        decimal(s.subrange(0, k)) <= decimal(s),
    decreases s.len() - k,
{
    if k == s.len() {
        assert(s.subrange(0, k) =~= s);
    } else {
        let t = s.drop_last();
        assert(is_digit(s[s.len() - 1]));
        assert(all_digits(t)) by {
            assert forall|i: int| 0 <= i < t.len() implies is_digit(#[trigger] t[i]) by {
                assert(t[i] == s[i]);
            }
        }
        lemma_decimal_prefix(t, k);
        assert(t.subrange(0, k) =~= s.subrange(0, k));
    }
}

/// The offset of the first whitespace at or after `i`, or the length of the
/// line.
pub fn skip_field(s: &[u8], i: usize) -> (r: usize)
    requires
        i <= s.len(),
    ensures
        r == i + field_len(s@, i as int),
        i <= r <= s.len(),
{
    let mut j: usize = i;
    while j < s.len() && !byte_is_space(s[j])
        invariant
            i <= j <= s.len(),
            field_len(s@, i as int) == (j - i) + field_len(s@, j as int),
        decreases s.len() - j,
    {
        j += 1;
    }
    j
}

/// The offset of the first byte at or after `i` that is not whitespace, or
/// the length of the line.
pub fn skip_spaces(s: &[u8], i: usize) -> (r: usize)
    requires
        i <= s.len(),
    ensures
        r == spaces_end(s@, i as int),
        i <= r <= s.len(),
{
    let mut j: usize = i;
    while j < s.len() && byte_is_space(s[j])
        invariant
            i <= j <= s.len(),
            spaces_end(s@, i as int) == spaces_end(s@, j as int),
        decreases s.len() - j,
    {
        j += 1;
    }
    j
}

/// Whether every byte of `s` is a decimal digit.
pub fn is_all_digits(s: &[u8]) -> (r: bool)
    ensures
        r == all_digits(s@),
{
    let mut i: usize = 0;
    while i < s.len()
        invariant
            i <= s.len(),
            forall|j: int| 0 <= j < i ==> is_digit(#[trigger] s@[j]),
        decreases s.len() - i,
    {
        if !byte_is_digit(s[i]) {
            return false;
        }
        i += 1;
    }
    true
}

/// Reads a decimal number that is at most `cap`; `None` when a byte is not
/// a digit or the digits write a larger number.
pub fn parse_decimal(digits: &[u8], cap: usize) -> (r: Option<usize>)
    ensures
        match r {
            Some(v) => all_digits(digits@) && v == decimal(digits@) && v <= cap,
            None => !all_digits(digits@) || decimal(digits@) > cap,
        },
{
    let mut acc: usize = 0;
    let mut i: usize = 0;
    assert(digits@.subrange(0, 0) =~= Seq::<u8>::empty());
    while i < digits.len()
        invariant
            i <= digits.len(),
            forall|j: int| 0 <= j < i ==> is_digit(#[trigger] digits@[j]),
            acc == decimal(digits@.subrange(0, i as int)),
            acc <= cap,
        decreases digits.len() - i,
    {
        if !byte_is_digit(digits[i]) {
            return None;
        }
        let d: u8 = digits[i] - 0x30;
        let next: u128 = acc as u128 * 10 + d as u128;
        proof {
            let p = digits@.subrange(0, i + 1);
            assert(p.drop_last() =~= digits@.subrange(0, i as int));
            assert(p.last() == digits@[i as int]);
            assert(decimal(p) == next);
            if all_digits(digits@) {
                lemma_decimal_prefix(digits@, i + 1);
            }
        }
        if next > cap as u128 {
            return None;
        }
        acc = next as usize;
        i += 1;
    }
    assert(digits@.subrange(0, i as int) =~= digits@);
    Some(acc)
}

/// What a line announces.
pub enum Directive {
    /// The line is not a text directive.
    Absent,
    /// The line is a text directive, and one of its lengths is over the cap.
    Oversized,
    /// The line is a text directive with these two lengths.
    Lengths(usize, usize),
}

/// Reads a line as a text directive whose lengths are at most `cap` each.
pub fn read_text_directive(line: &[u8], cap: usize) -> (r: Directive)
    ensures
        match r {
            Directive::Absent => text_directive(line@) is None,
            Directive::Oversized => text_directive(line@) matches Some((a, b)) && (a > cap || b
                > cap),
            Directive::Lengths(a, b) => text_directive(line@) == Some((a as nat, b as nat)) && a
                <= cap && b <= cap,
        },
{
    proof {
        lemma_fields_bounds(line@);
    }
    let a: usize = skip_spaces(line, 0);
    let b: usize = skip_field(line, a);
    let c: usize = skip_spaces(line, b);
    let d: usize = skip_field(line, c);
    let e: usize = skip_spaces(line, d);
    let f: usize = skip_field(line, e);
    let g: usize = skip_spaces(line, f);
    if !equals_ignore_case(slice_subrange(line, a, b), "Text".as_bytes()) {
        return Directive::Absent;
    }
    if c >= d || e >= f || g < line.len() {
        return Directive::Absent;
    }
    let first = slice_subrange(line, c, d);
    let second = slice_subrange(line, e, f);
    if !is_all_digits(first) || !is_all_digits(second) {
        return Directive::Absent;
    }
    match parse_decimal(first, cap) {
        None => Directive::Oversized,
        Some(x) => match parse_decimal(second, cap) {
            None => Directive::Oversized,
            Some(y) => Directive::Lengths(x, y),
        },
    }
}

/// Whether `s` has the shape of a level identifier.
pub fn has_level_id_shape(s: &[u8]) -> (r: bool)
    ensures
        r == is_level_id(s@),
{
    let u = to_upper(s);
    if u.len() == 4 {
        u[0] == 0x45 && byte_is_digit(u[1]) && u[2] == 0x4d && byte_is_digit(u[3])
    } else if u.len() == 5 {
        u[0] == 0x4d && u[1] == 0x41 && u[2] == 0x50 && byte_is_digit(u[3]) && byte_is_digit(u[4])
    } else {
        false
    }
}

/// Reads a line as the direct naming of a level.
pub fn read_assignment(line: &[u8], position: usize) -> (r: Option<LevelEntry>)
    ensures
        match r {
            Some(entry) => assignment(line@) == Some(entry.finding()) && entry.format
                == LumpFormat::Dehacked && entry.position == position,
            None => assignment(line@) is None,
        },
{
    let mut k: usize = 0;
    while k < line.len() && line[k] != EQUALS
        invariant
            k <= line.len(),
            equals_gap(line@, 0) == k + equals_gap(line@, k as int),
        decreases line.len() - k,
    {
        k += 1;
    }
    if k >= line.len() {
        return None;
    }
    let left = trimmed(slice_subrange(line, 0, k));
    if !has_level_id_shape(left.as_slice()) {
        return None;
    }
    let id = canonical_id(slice_subrange(line, 0, k));
    let name = trimmed(slice_subrange(line, k + 1, line.len()));
    Some(LevelEntry { id, name: Some(name), format: LumpFormat::Dehacked, position })
}

/// Reads a replacement as the renaming of a level.
pub fn read_replacement(from: &[u8], to: &[u8], position: usize) -> (r: Option<LevelEntry>)
    ensures
        match r {
            Some(entry) => replacement(from@, to@) == Some(entry.finding()) && entry.format
                == LumpFormat::Dehacked && entry.position == position,
            None => replacement(from@, to@) is None,
        },
{
    match find_vanilla(from) {
        Some(k) => {
            let id_text = vanilla_level(k).0.as_bytes();
            let id = copy_range(id_text, 0, id_text.len());
            assert(id@ =~= vanilla_id(k as int));
            let name = copy_range(to, 0, to.len());
            assert(name@ =~= to@);
            Some(LevelEntry { id, name: Some(name), format: LumpFormat::Dehacked, position })
        },
        None => None,
    }
}

/// The entries read from a patch, and whether the patch was cut short by a
/// directive that announces more bytes than it holds.
#[derive(Debug)]
pub struct DehackedPatch {
    pub entries: Vec<LevelEntry>,
    pub truncated: bool,
}

/// Parses a DEHACKED lump.
///
/// Gives one entry per renaming, in the order of the patch, each marked as
/// DEHACKED read at `position`. A directive that announces more bytes than
/// the lump holds ends the parse: the entries before it are kept, and
/// `truncated` says so.
pub fn parse_dehacked(data: &[u8], position: usize) -> (r: DehackedPatch)
    ensures
        findings(r.entries@) == patch_from(data@, 0).findings,
        r.truncated == patch_from(data@, 0).truncated,
        tagged(r.entries@, LumpFormat::Dehacked, position),
{
    let mut entries: Vec<LevelEntry> = Vec::new();
    let mut pos: usize = 0;
    assert(findings(entries@) + patch_from(data@, 0).findings =~= patch_from(data@, 0).findings);
    while pos < data.len()
        invariant
            pos <= data.len(),
            patch_from(data@, 0).findings == findings(entries@) + patch_from(
                data@,
                pos as int,
            ).findings,
            patch_from(data@, 0).truncated == patch_from(data@, pos as int).truncated,
            tagged(entries@, LumpFormat::Dehacked, position),
        decreases data.len() - pos,
    {
        let ghost before = findings(entries@);
        let end: usize = skip_line(data, pos);
        let line = slice_subrange(data, pos, end);
        let after: usize = if end < data.len() {
            end + 1
        } else {
            end
        };
        let left: usize = data.len() - after;
        let found: Option<LevelEntry>;
        let next: usize;
        match read_text_directive(line, left) {
            Directive::Absent => {
                found = read_assignment(line, position);
                next = after;
            },
            Directive::Oversized => {
                assert(findings(entries@) + Seq::<Finding>::empty() =~= findings(entries@));
                return DehackedPatch { entries, truncated: true };
            },
            Directive::Lengths(from_len, to_len) => {
                if to_len > left - from_len {
                    assert(findings(entries@) + Seq::<Finding>::empty() =~= findings(entries@));
                    return DehackedPatch { entries, truncated: true };
                }
                let from = slice_subrange(data, after, after + from_len);
                let to = slice_subrange(data, after + from_len, after + from_len + to_len);
                found = read_replacement(from, to, position);
                next = after + from_len + to_len;
            },
        }
        match found {
            Some(entry) => {
                proof {
                    lemma_findings_push(entries@, entry);
                    assert(before + (seq![entry.finding()] + patch_from(
                        data@,
                        next as int,
                    ).findings) =~= before.push(entry.finding()) + patch_from(
                        data@,
                        next as int,
                    ).findings);
                }
                entries.push(entry);
            },
            None => {},
        }
        pos = next;
    }
    assert(findings(entries@) + Seq::<Finding>::empty() =~= findings(entries@));
    DehackedPatch { entries, truncated: false }
}

} // verus!

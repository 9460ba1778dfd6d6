//! The WAD container: a twelve-byte header followed, somewhere in the file,
//! by a directory of sixteen-byte lump records.

use vstd::prelude::*;
use vstd::slice::slice_subrange;
use vstd::string::StringExecFns;
use crate::ascii::copy_range;

verus! {

/// The two container tags: base game data and patch data.
#[derive(Clone, Copy, Debug, PartialEq, Eq, Structural)]
pub enum WadKind {
    Iwad,
    Pwad,
}

/// The decoded container header.
///
/// A header returned by [`read_header`] describes a directory that lies
/// wholly inside the file: `directory_offset + 16 * lump_count` does not
/// exceed the file length.
#[derive(Clone, Copy, Debug, PartialEq, Eq, Structural)]
pub struct WadHeader {
    pub kind: WadKind,
    pub lump_count: u32,
    pub directory_offset: u32,
}

/// Why a buffer is not a usable WAD container.
#[derive(Clone, Copy, Debug, PartialEq, Eq, Structural)]
pub enum FormatError {
    /// The buffer is shorter than the twelve-byte header.
    TooShort,
    /// The first four bytes are neither `IWAD` nor `PWAD`.
    BadMagic,
    /// The lump count, read as a signed integer, is negative.
    NegativeLumpCount,
    /// The directory does not lie inside the buffer.
    DirectoryOutOfBounds,
    /// The directory record `index` addresses bytes outside the buffer.
    LumpOutOfBounds { index: usize },
}

/// One directory record: a lump's name and the byte range it occupies.
#[derive(Clone, Debug, PartialEq, Eq)]
pub struct LumpDirectoryEntry {
    pub name: Vec<u8>,
    pub offset: u32,
    pub size: u32,
}

/// The mathematical content of a directory record.
pub struct LumpSpan {
    pub name: Seq<u8>,
    pub offset: int,
    pub size: int,
}

impl View for LumpDirectoryEntry {
    type V = LumpSpan;

    open spec fn view(&self) -> LumpSpan {
        LumpSpan { name: self.name@, offset: self.offset as int, size: self.size as int }
    }
}

/// The largest file that is read, in bytes: one gibibyte.
pub const MAX_WAD_BYTES: u64 = 0x4000_0000;

pub const HEADER_LEN: usize = 12;

/// The little-endian 32-bit unsigned integer stored at `data[at..at + 4]`.
pub open spec fn le_u32(data: Seq<u8>, at: int) -> int {
    data[at] as int + 0x100 * (data[at + 1] as int) + 0x1_0000 * (data[at + 2] as int)
        + 0x100_0000 * (data[at + 3] as int)
}

/// The container tag spelled by the first four bytes, if it is a known one.
pub open spec fn magic_kind(data: Seq<u8>) -> Option<WadKind> {
    if data.len() < 4 {
        None
    } else if data[1] == 0x57 && data[2] == 0x41 && data[3] == 0x44 {
        // "?WAD"
        if data[0] == 0x49 {
            Some(WadKind::Iwad)
        } else if data[0] == 0x50 {
            Some(WadKind::Pwad)
        } else {
            None
        }
    } else {
        None
    }
}

/// What the first twelve bytes of `data` say, or why they are unusable.
pub open spec fn header_of(data: Seq<u8>) -> Result<WadHeader, FormatError> {
    if data.len() < 12 {
        Err(FormatError::TooShort)
    } else if magic_kind(data) is None {
        Err(FormatError::BadMagic)
    } else if le_u32(data, 4) >= 0x8000_0000 {
        Err(FormatError::NegativeLumpCount)
    } else if le_u32(data, 8) + 16 * le_u32(data, 4) > data.len() {
        Err(FormatError::DirectoryOutOfBounds)
    } else {
        Ok(
            WadHeader {
                kind: magic_kind(data)->0,
                lump_count: le_u32(data, 4) as u32,
                directory_offset: le_u32(data, 8) as u32,
            },
        )
    }
}

/// The number of bytes of `raw` before its first NUL at or after `i`,
/// counted from `i`.
pub open spec fn name_len(raw: Seq<u8>, i: int) -> nat
    decreases raw.len() - i,
{
    if 0 <= i < raw.len() && raw[i] != 0 {
        1 + name_len(raw, i + 1)
    } else {
        0
    }
}

/// An eight-byte name field cut at its first NUL.
pub open spec fn name_of(raw: Seq<u8>) -> Seq<u8> {
    raw.subrange(0, name_len(raw, 0) as int)
}

/// The directory record that starts at byte `at`.
pub open spec fn record_at(data: Seq<u8>, at: int) -> LumpSpan {
    LumpSpan {
        name: name_of(data.subrange(at + 8, at + 16)),
        offset: le_u32(data, at),
        size: le_u32(data, at + 4),
    }
}

/// Whether the bytes that `span` addresses lie inside a file of `len` bytes.
pub open spec fn span_fits(span: LumpSpan, len: int) -> bool {
    0 <= span.offset && 0 <= span.size && span.offset + span.size <= len
}

/// The `count` records of the directory that starts at byte `dir`.
pub open spec fn records(data: Seq<u8>, dir: int, count: int) -> Seq<LumpSpan> {
    Seq::new(count as nat, |i: int| record_at(data, dir + 16 * i))
}

/// The index of the first record at or after `i` that addresses bytes
/// outside the file, if there is one.
pub open spec fn first_misfit(data: Seq<u8>, dir: int, count: int, i: int) -> Option<int>
    decreases count - i,
{
    if i >= count {
        None
    } else if !span_fits(record_at(data, dir + 16 * i), data.len() as int) {
        Some(i)
    } else {
        first_misfit(data, dir, count, i + 1)
    }
}

/// The directory of the container `data`: every record in file order, or the
/// reason the container is rejected.
pub open spec fn directory_of(data: Seq<u8>) -> Result<Seq<LumpSpan>, FormatError> {
    match header_of(data) {
        Err(e) => Err(e),
        Ok(h) => match first_misfit(
            data,
            h.directory_offset as int,
            h.lump_count as int,
            0,
        ) {
            Some(i) => Err(FormatError::LumpOutOfBounds { index: i as usize }),
            None => Ok(records(data, h.directory_offset as int, h.lump_count as int)),
        },
    }
}

/// The views of a vector of directory entries.
pub open spec fn spans(dir: Seq<LumpDirectoryEntry>) -> Seq<LumpSpan> {
    Seq::new(dir.len(), |i: int| dir[i]@)
}

/// `first_misfit` finds a record that does not fit exactly when one exists,
/// and the one it finds is the earliest.
pub proof fn lemma_first_misfit(data: Seq<u8>, dir: int, count: int, i: int)
    requires
        0 <= i,
    ensures
        match first_misfit(data, dir, count, i) {
            None => forall|j: int|
                i <= j < count ==> span_fits(
                    #[trigger] record_at(data, dir + 16 * j),
                    data.len() as int,
                ),
            Some(k) => i <= k < count && !span_fits(
                record_at(data, dir + 16 * k),
                data.len() as int,
            ) && forall|j: int|
                i <= j < k ==> span_fits(
                    #[trigger] record_at(data, dir + 16 * j),
                    data.len() as int,
                ),
        },
    decreases count - i,
{
    if i < count && span_fits(record_at(data, dir + 16 * i), data.len() as int) {
        lemma_first_misfit(data, dir, count, i + 1);
    }
}

/// The message that goes with a format error.
pub open spec fn format_error_text(e: FormatError) -> Seq<char> {
    match e {
        FormatError::TooShort => "file is too short to hold a WAD header"@,
        FormatError::BadMagic => "file does not start with IWAD or PWAD"@,
        FormatError::NegativeLumpCount => "WAD header holds a negative lump count"@,
        FormatError::DirectoryOutOfBounds => "WAD lump directory lies outside the file"@,
        FormatError::LumpOutOfBounds { index } => "WAD lump directory entry points outside the file"@,
    }
}

impl FormatError {
    /// A message for the reader of an error report.
    pub fn message(&self) -> (r: String)
        ensures
            r@ == format_error_text(*self),
    {
        match self {
            FormatError::TooShort => String::from_str("file is too short to hold a WAD header"),
            FormatError::BadMagic => String::from_str("file does not start with IWAD or PWAD"),
            FormatError::NegativeLumpCount => String::from_str(
                "WAD header holds a negative lump count",
            ),
            FormatError::DirectoryOutOfBounds => String::from_str(
                "WAD lump directory lies outside the file",
            ),
            FormatError::LumpOutOfBounds { index: _ } => String::from_str(
                "WAD lump directory entry points outside the file",
            ),
        }
    }
}

/// Whether a file of `len` bytes is small enough to be read.
pub fn within_size_limit(len: u64) -> (r: bool)
    ensures
        r == (len <= MAX_WAD_BYTES),
{
    len <= MAX_WAD_BYTES
}

/// Reads the little-endian 32-bit unsigned integer at `data[at..at + 4]`.
pub fn read_u32_le(data: &[u8], at: usize) -> (r: u32)
    requires
        at + 4 <= data.len(),
    ensures
        r == le_u32(data@, at as int),
{
    let b0: u32 = data[at] as u32;
    let b1: u32 = data[at + 1] as u32;
    let b2: u32 = data[at + 2] as u32;
    let b3: u32 = data[at + 3] as u32;
    b0 + 0x100 * b1 + 0x1_0000 * b2 + 0x100_0000 * b3
}

/// Decodes and validates the container header.
pub fn read_header(data: &[u8]) -> (r: Result<WadHeader, FormatError>)
    ensures
        r == header_of(data@),
{
    if data.len() < HEADER_LEN {
        return Err(FormatError::TooShort);
    }
    let kind = if data[1] == 0x57 && data[2] == 0x41 && data[3] == 0x44 {
        if data[0] == 0x49 {
            WadKind::Iwad
        } else if data[0] == 0x50 {
            WadKind::Pwad
        } else {
            return Err(FormatError::BadMagic);
        }
    } else {
        return Err(FormatError::BadMagic);
    };
    let count: u32 = read_u32_le(data, 4);
    let offset: u32 = read_u32_le(data, 8);
    if count >= 0x8000_0000 {
        return Err(FormatError::NegativeLumpCount);
    }
    if offset as u64 + 16 * (count as u64) > data.len() as u64 {
        return Err(FormatError::DirectoryOutOfBounds);
    }
    Ok(WadHeader { kind, lump_count: count, directory_offset: offset })
}

/// Cuts an eight-byte name field at its first NUL.
pub fn read_name(raw: &[u8]) -> (r: Vec<u8>)
    ensures
        r@ == name_of(raw@),
{
    let mut n: usize = 0;
    while n < raw.len() && raw[n] != 0
        invariant
            n <= raw.len(),
            name_len(raw@, 0) == n + name_len(raw@, n as int),
        decreases raw.len() - n,
    {
        n += 1;
    }
    copy_range(raw, 0, n)
}

/// Decodes the directory record that starts at byte `at`.
pub fn read_record(data: &[u8], at: usize) -> (r: LumpDirectoryEntry)
    requires
        at + 16 <= data.len(),
    ensures
        r@ == record_at(data@, at as int),
{
    let offset: u32 = read_u32_le(data, at);
    let size: u32 = read_u32_le(data, at + 4);
    let name = read_name(slice_subrange(data, at + 8, at + 16));
    LumpDirectoryEntry { name, offset, size }
}

/// Validates the container and decodes its lump directory.
///
/// Succeeds exactly when the header is usable and every record addresses
/// bytes inside the buffer; the error otherwise names the first thing found
/// wrong, in the order header, then records by index.
pub fn read_wad(data: &[u8]) -> (r: Result<(WadHeader, Vec<LumpDirectoryEntry>), FormatError>)
    ensures
        match r {
            Ok((header, dir)) => header_of(data@) == Ok::<WadHeader, FormatError>(header)
                && directory_of(data@) == Ok::<Seq<LumpSpan>, FormatError>(spans(dir@))
                && dir@.len() == header.lump_count
                && forall|i: int|
                    0 <= i < dir@.len() ==> span_fits(#[trigger] dir@[i]@, data@.len() as int),
            Err(e) => directory_of(data@) == Err::<Seq<LumpSpan>, FormatError>(e),
        },
{
    let header = match read_header(data) {
        Ok(h) => h,
        Err(e) => {
            return Err(e);
        },
    };
    let count: usize = header.lump_count as usize;
    let base: usize = header.directory_offset as usize;
    let mut dir: Vec<LumpDirectoryEntry> = Vec::new();
    let mut i: usize = 0;
    while i < count
        invariant
            i <= count,
            count == header.lump_count,
            base == header.directory_offset,
            base + 16 * count <= data.len(),
            header_of(data@) == Ok::<WadHeader, FormatError>(header),
            dir@.len() == i,
            forall|j: int| 0 <= j < i ==> (#[trigger] dir@[j])@ == record_at(data@, base + 16 * j),
            forall|j: int| 0 <= j < i ==> span_fits(#[trigger] dir@[j]@, data@.len() as int),
            first_misfit(data@, base as int, count as int, 0) == first_misfit(
                data@,
                base as int,
                count as int,
                i as int,
            ),
        decreases count - i,
    {
        let entry = read_record(data, base + 16 * i);
        if entry.offset as u64 + entry.size as u64 > data.len() as u64 {
            return Err(FormatError::LumpOutOfBounds { index: i });
        }
        dir.push(entry);
        i += 1;
    }
    assert(spans(dir@) =~= records(data@, base as int, count as int));
    Ok((header, dir))
}

/// The bytes of the lump that `entry` addresses, when they lie inside
/// `data`.
pub fn lump_bytes<'a>(data: &'a [u8], entry: &LumpDirectoryEntry) -> (r: Option<&'a [u8]>)
    ensures
        r is Some <==> span_fits(entry@, data@.len() as int),
        r matches Some(bytes) ==> bytes@ == data@.subrange(
            entry@.offset,
            entry@.offset + entry@.size,
        ),
{
    if entry.offset as u64 + entry.size as u64 > data.len() as u64 {
        None
    } else {
        let start: usize = entry.offset as usize;
        let end: usize = start + entry.size as usize;
        Some(slice_subrange(data, start, end))
    }
}

} // verus!

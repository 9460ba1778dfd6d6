//! Finding the metadata lumps of a directory by name.

use vstd::prelude::*;
use vstd::string::StringSliceAdditionalSpecFns;
use crate::ascii::{eq_ignore_case, equals_ignore_case};
use crate::wad::{spans, LumpDirectoryEntry, LumpSpan};

verus! {

/// The four metadata grammars, one per lump name.
#[derive(Clone, Copy, Debug, PartialEq, Eq, Structural)]
pub enum LumpFormat {
    Dehacked,
    MapInfo,
    ZMapInfo,
    UMapInfo,
}

/// The lump name that carries `format`.
pub open spec fn format_name(format: LumpFormat) -> Seq<u8> {
    match format {
        LumpFormat::Dehacked => "DEHACKED".spec_bytes(),
        LumpFormat::MapInfo => "MAPINFO".spec_bytes(),
        LumpFormat::ZMapInfo => "ZMAPINFO".spec_bytes(),
        LumpFormat::UMapInfo => "UMAPINFO".spec_bytes(),
    }
}

/// The grammar that a lump called `name` is written in, if it is one of the
/// four; names compare without regard to ASCII case.
pub open spec fn format_of(name: Seq<u8>) -> Option<LumpFormat> {
    if eq_ignore_case(name, format_name(LumpFormat::Dehacked)) {
        Some(LumpFormat::Dehacked)
    } else if eq_ignore_case(name, format_name(LumpFormat::MapInfo)) {
        Some(LumpFormat::MapInfo)
    } else if eq_ignore_case(name, format_name(LumpFormat::ZMapInfo)) {
        Some(LumpFormat::ZMapInfo)
    } else if eq_ignore_case(name, format_name(LumpFormat::UMapInfo)) {
        Some(LumpFormat::UMapInfo)
    } else {
        None
    }
}

/// The indices below `n` of the directory entries that carry `format`, in
/// file order.
pub open spec fn located(dir: Seq<LumpSpan>, format: LumpFormat, n: int) -> Seq<usize>
    decreases n,
{
    if n <= 0 {
        Seq::empty()
    } else {
        let earlier = located(dir, format, n - 1);
        if format_of(dir[n - 1].name) == Some(format) {
            earlier.push((n - 1) as usize)
        } else {
            earlier
        }
    }
}

/// What `located` holds: exactly the indices below `n` whose entry carries
/// `format`, each once, in increasing order.
pub proof fn lemma_located(dir: Seq<LumpSpan>, format: LumpFormat, n: int)
    requires
        0 <= n <= dir.len(),
        n <= usize::MAX,
    ensures
        forall|k: int|
            0 <= k < located(dir, format, n).len() ==> 0 <= (#[trigger] located(
                dir,
                format,
                n,
            )[k]) < n && format_of(dir[located(dir, format, n)[k] as int].name) == Some(format),
        forall|j: int, k: int|
            0 <= j < k < located(dir, format, n).len() ==> located(dir, format, n)[j] < located(
                dir,
                format,
                n,
            )[k],
        forall|i: int|
            0 <= i < n && format_of(#[trigger] dir[i].name) == Some(format) ==> located(
                dir,
                format,
                n,
            ).contains(i as usize),
    decreases n,
{
    if n > 0 {
        lemma_located(dir, format, n - 1);
        let earlier = located(dir, format, n - 1);
        let now = located(dir, format, n);
        if format_of(dir[n - 1].name) == Some(format) {
            assert(now[now.len() - 1] == (n - 1) as usize);
            assert forall|i: int|
                0 <= i < n && format_of(#[trigger] dir[i].name) == Some(format) implies now.contains(
                i as usize,
            ) by {
                if i < n - 1 {
                    let k = choose|k: int| 0 <= k < earlier.len() && earlier[k] == i as usize;
                    assert(now[k] == i as usize);
                } else {
                    assert(now[now.len() - 1] == i as usize);
                }
            }
        }
    }
}

/// When no entry of the directory carries `format`, nothing is located.
pub proof fn lemma_located_none(dir: Seq<LumpSpan>, format: LumpFormat, n: int)
    requires
        0 <= n <= dir.len(),
        forall|i: int| 0 <= i < n ==> format_of(#[trigger] dir[i].name) != Some(format),
    ensures
        located(dir, format, n) == Seq::<usize>::empty(),
    decreases n,
{
    if n > 0 {
        lemma_located_none(dir, format, n - 1);
    }
}

/// The lump name that carries `format`.
pub fn lump_name(format: LumpFormat) -> (r: &'static str)
    ensures
        r.spec_bytes() == format_name(format),
{
    match format {
        LumpFormat::Dehacked => "DEHACKED",
        LumpFormat::MapInfo => "MAPINFO",
        LumpFormat::ZMapInfo => "ZMAPINFO",
        LumpFormat::UMapInfo => "UMAPINFO",
    }
}

/// Looks a lump name up in the table of metadata grammars.
pub fn lump_format(name: &[u8]) -> (r: Option<LumpFormat>)
    ensures
        r == format_of(name@),
{
    if equals_ignore_case(name, lump_name(LumpFormat::Dehacked).as_bytes()) {
        Some(LumpFormat::Dehacked)
    } else if equals_ignore_case(name, lump_name(LumpFormat::MapInfo).as_bytes()) {
        Some(LumpFormat::MapInfo)
    } else if equals_ignore_case(name, lump_name(LumpFormat::ZMapInfo).as_bytes()) {
        Some(LumpFormat::ZMapInfo)
    } else if equals_ignore_case(name, lump_name(LumpFormat::UMapInfo).as_bytes()) {
        Some(LumpFormat::UMapInfo)
    } else {
        None
    }
}

/// Whether two formats are the same one.
pub fn same_format(a: LumpFormat, b: LumpFormat) -> (r: bool)
    ensures
        r == (a == b),
{
    match (a, b) {
        (LumpFormat::Dehacked, LumpFormat::Dehacked) => true,
        (LumpFormat::MapInfo, LumpFormat::MapInfo) => true,
        (LumpFormat::ZMapInfo, LumpFormat::ZMapInfo) => true,
        (LumpFormat::UMapInfo, LumpFormat::UMapInfo) => true,
        _ => false,
    }
}

/// Lists the directory entries that carry `format`, by index, in file
/// order. An entry that occurs several times is listed each time.
pub fn locate_lumps(dir: &Vec<LumpDirectoryEntry>, format: LumpFormat) -> (r: Vec<usize>)
    ensures
        r@ == located(spans(dir@), format, dir@.len() as int),
{
    let mut found: Vec<usize> = Vec::new();
    let mut i: usize = 0;
    while i < dir.len()
        invariant
            i <= dir@.len(),
            found@ == located(spans(dir@), format, i as int),
        decreases dir@.len() - i,
    {
        let hit = match lump_format(dir[i].name.as_slice()) {
            Some(f) => same_format(f, format),
            None => false,
        };
        if hit {
            found.push(i);
        }
        i += 1;
    }
    found
}

} // verus!

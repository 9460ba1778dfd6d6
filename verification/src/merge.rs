//! Folding what the lumps state into one table.
//!
//! Statements are applied one after the other, and a later one replaces an
//! earlier one for the same level. The four grammars are applied in the
//! order DEHACKED, MAPINFO, ZMAPINFO, UMAPINFO, so that UMAPINFO has the
//! last word. A statement that carries no name, or a name that is empty
//! once the whitespace around it is gone, changes nothing.

use vstd::prelude::*;
use crate::ascii::{clone_bytes, trim, trimmed};
use crate::levels::{findings, Finding, LevelEntry};
use crate::table::LevelNameTable;

verus! {

/// The display name that a statement settles: its name without the
/// whitespace around it, unless that is empty.
pub open spec fn resolved_name(f: Finding) -> Option<Seq<u8>> {
    match f.name {
        Some(n) => if trim(n).len() > 0 {
            Some(trim(n))
        } else {
            None
        },
        None => None,
    }
}

/// The mapping `m` after the statement `f`.
pub open spec fn apply(m: Map<Seq<u8>, Seq<u8>>, f: Finding) -> Map<Seq<u8>, Seq<u8>> {
    match resolved_name(f) {
        Some(n) => m.insert(f.id, n),
        None => m,
    }
}

/// The mapping `m` after the first `n` statements of `fs`, in order.
pub open spec fn resolve_from(m: Map<Seq<u8>, Seq<u8>>, fs: Seq<Finding>, n: int) -> Map<
    Seq<u8>,
    Seq<u8>,
>
    decreases n,
{
    if n <= 0 {
        m
    } else {
        apply(resolve_from(m, fs, n - 1), fs[n - 1])
    }
}

/// The mapping that the statements `fs` come to.
pub open spec fn resolve(fs: Seq<Finding>) -> Map<Seq<u8>, Seq<u8>> {
    resolve_from(Map::empty(), fs, fs.len() as int)
}

/// The statements of the four grammars in the order in which they apply.
pub open spec fn in_priority_order(
    dehacked: Seq<Finding>,
    mapinfo: Seq<Finding>,
    zmapinfo: Seq<Finding>,
    umapinfo: Seq<Finding>,
) -> Seq<Finding> {
    dehacked + mapinfo + zmapinfo + umapinfo
}

/// Applying `a` and then `b` is applying `a + b`.
pub proof fn lemma_resolve_concat(m: Map<Seq<u8>, Seq<u8>>, a: Seq<Finding>, b: Seq<Finding>, n: int)
    requires
        0 <= n <= b.len(),
    ensures
        resolve_from(m, a + b, a.len() + n) == resolve_from(
            resolve_from(m, a, a.len() as int),
            b,
            n,
        ),
    decreases n,
{
    if n == 0 {
        lemma_resolve_prefix(m, a + b, a, a.len() as int);
    } else {
        lemma_resolve_concat(m, a, b, n - 1);
        assert((a + b)[a.len() + n - 1] == b[n - 1]);
    }
}

/// Only the statements that are applied matter.
pub proof fn lemma_resolve_prefix(m: Map<Seq<u8>, Seq<u8>>, a: Seq<Finding>, b: Seq<Finding>, n: int)
    requires
        0 <= n <= a.len(),
        n <= b.len(),
        forall|i: int| 0 <= i < n ==> a[i] == b[i],
    ensures
        resolve_from(m, a, n) == resolve_from(m, b, n),
    decreases n,
{
    if n > 0 {
        lemma_resolve_prefix(m, a, b, n - 1);
    }
}

/// A later statement wins: after the statements `fs`, a level that they
/// name has the name that they alone come to, and any other level is as it
/// was before them.
pub proof fn lemma_later_wins(m: Map<Seq<u8>, Seq<u8>>, fs: Seq<Finding>, n: int, id: Seq<u8>)
    requires
        0 <= n <= fs.len(),
    ensures
        resolve_from(Map::empty(), fs, n).contains_key(id) ==> resolve_from(m, fs, n).contains_key(
            id,
        ) && resolve_from(m, fs, n)[id] == resolve_from(Map::empty(), fs, n)[id],
        !resolve_from(Map::empty(), fs, n).contains_key(id) ==> (resolve_from(
            m,
            fs,
            n,
        ).contains_key(id) <==> m.contains_key(id)) && (m.contains_key(id) ==> resolve_from(
            m,
            fs,
            n,
        )[id] == m[id]),
    decreases n,
{
    if n > 0 {
        lemma_later_wins(m, fs, n - 1, id);
    }
}

/// Every name in a resolved mapping is non-empty and has no whitespace
/// around it.
pub proof fn lemma_names_are_trimmed(fs: Seq<Finding>, n: int, id: Seq<u8>)
    requires
        0 <= n <= fs.len(),
        resolve_from(Map::empty(), fs, n).contains_key(id),
    ensures
        resolve_from(Map::empty(), fs, n)[id].len() > 0,
        exists|i: int|
            0 <= i < n && (#[trigger] fs[i]).id == id && resolved_name(fs[i]) == Some(
                resolve_from(Map::empty(), fs, n)[id],
            ),
    decreases n,
{
    if n > 0 {
        let f = fs[n - 1];
        if f.id == id && resolved_name(f) is Some {
            assert(fs[n - 1].id == id);
        } else {
            lemma_names_are_trimmed(fs, n - 1, id);
            let i = choose|i: int|
                0 <= i < n - 1 && (#[trigger] fs[i]).id == id && resolved_name(fs[i]) == Some(
                    resolve_from(Map::empty(), fs, n - 1)[id],
                );
            assert(fs[i].id == id);
        }
    }
}

/// The order of priority: a level that UMAPINFO names has its UMAPINFO
/// name; failing that its ZMAPINFO name; failing that its MAPINFO name;
/// failing that its DEHACKED name; and a level that none of them names is
/// not in the mapping.
pub proof fn lemma_priority(
    dehacked: Seq<Finding>,
    mapinfo: Seq<Finding>,
    zmapinfo: Seq<Finding>,
    umapinfo: Seq<Finding>,
    id: Seq<u8>,
)
    ensures
        ({
            let all = resolve(in_priority_order(dehacked, mapinfo, zmapinfo, umapinfo));
            let d = resolve(dehacked);
            let m = resolve(mapinfo);
            let z = resolve(zmapinfo);
            let u = resolve(umapinfo);
            if u.contains_key(id) {
                all.contains_key(id) && all[id] == u[id]
            } else if z.contains_key(id) {
                all.contains_key(id) && all[id] == z[id]
            } else if m.contains_key(id) {
                all.contains_key(id) && all[id] == m[id]
            } else if d.contains_key(id) {
                all.contains_key(id) && all[id] == d[id]
            } else {
                !all.contains_key(id)
            }
        }),
{
    let e = Map::<Seq<u8>, Seq<u8>>::empty();
    let dm = dehacked + mapinfo;
    let dmz = dm + zmapinfo;
    let all = dmz + umapinfo;
    lemma_resolve_concat(e, dehacked, mapinfo, mapinfo.len() as int);
    lemma_resolve_concat(e, dm, zmapinfo, zmapinfo.len() as int);
    lemma_resolve_concat(e, dmz, umapinfo, umapinfo.len() as int);
    lemma_later_wins(resolve(dehacked), mapinfo, mapinfo.len() as int, id);
    lemma_later_wins(resolve(dm), zmapinfo, zmapinfo.len() as int, id);
    lemma_later_wins(resolve(dmz), umapinfo, umapinfo.len() as int, id);
}

/// Applies one entry to the table.
pub fn apply_entry(table: &mut LevelNameTable, entry: &LevelEntry)
    requires
        old(table).wf(),
    ensures
        final(table).wf(),
        final(table)@ == apply(old(table)@, entry.finding()),
{
    match &entry.name {
        Some(n) => {
            let name = trimmed(n.as_slice());
            if name.len() > 0 {
                table.insert(clone_bytes(&entry.id), name);
            }
        },
        None => {},
    }
}

/// Applies a list of entries to the table, in order.
pub fn apply_entries(table: &mut LevelNameTable, entries: &Vec<LevelEntry>)
    requires
        old(table).wf(),
    ensures
        final(table).wf(),
        final(table)@ == resolve_from(old(table)@, findings(entries@), entries@.len() as int),
{
    let mut i: usize = 0;
    while i < entries.len()
        invariant
            i <= entries@.len(),
            table.wf(),
            table@ == resolve_from(old(table)@, findings(entries@), i as int),
        decreases entries@.len() - i,
    {
        apply_entry(table, &entries[i]);
        i += 1;
    }
}

/// Merges what the lumps of the four grammars state into one table.
///
/// Each list holds the entries of one grammar, in the order of the lumps in
/// the file and of the blocks in each lump. The lists apply in the order
/// DEHACKED, MAPINFO, ZMAPINFO, UMAPINFO; the table holds, for each level
/// that any entry names, the name that the last such entry gives.
pub fn merge(
    dehacked: &Vec<LevelEntry>,
    mapinfo: &Vec<LevelEntry>,
    zmapinfo: &Vec<LevelEntry>,
    umapinfo: &Vec<LevelEntry>,
) -> (r: LevelNameTable)
    ensures
        r.wf(),
        r@ == resolve(
            in_priority_order(
                findings(dehacked@),
                findings(mapinfo@),
                findings(zmapinfo@),
                findings(umapinfo@),
            ),
        ),
{
    let mut table = LevelNameTable::new();
    apply_entries(&mut table, dehacked);
    apply_entries(&mut table, mapinfo);
    apply_entries(&mut table, zmapinfo);
    apply_entries(&mut table, umapinfo);
    proof {
        let e = Map::<Seq<u8>, Seq<u8>>::empty();
        let d = findings(dehacked@);
        let m = findings(mapinfo@);
        let z = findings(zmapinfo@);
        let u = findings(umapinfo@);
        lemma_resolve_concat(e, d, m, m.len() as int);
        lemma_resolve_concat(e, d + m, z, z.len() as int);
        lemma_resolve_concat(e, d + m + z, u, u.len() as int);
    }
    table
}

} // verus!

//! The default level names of the base games, which DEHACKED patches
//! replace by quoting them.
//!
//! The table pins the names of *Doom* (`E1M1` to `E4M9`, the fourth episode
//! as *The Ultimate Doom* added it) and of *Doom II* (`MAP01` to `MAP32`),
//! spelled as the games show them on the automap, without the identifier
//! that the games put in front. The names of other games are not in it.

use vstd::prelude::*;
use vstd::string::StringSliceAdditionalSpecFns;
use crate::ascii::bytes_equal;

verus! {

/// The number of rows of the table.
pub const VANILLA_LEVELS: usize = 68;

/// Row `k` of the table: a level identifier and the level's default name.
/// Rows from `VANILLA_LEVELS` on are empty.
pub open spec fn vanilla_row(k: usize) -> (&'static str, &'static str) {
    match k {
        0 => ("E1M1", "Hangar"),
        1 => ("E1M2", "Nuclear Plant"),
        2 => ("E1M3", "Toxin Refinery"),
        3 => ("E1M4", "Command Control"),
        4 => ("E1M5", "Phobos Lab"),
        5 => ("E1M6", "Central Processing"),
        6 => ("E1M7", "Computer Station"),
        7 => ("E1M8", "Phobos Anomaly"),
        8 => ("E1M9", "Military Base"),
        9 => ("E2M1", "Deimos Anomaly"),
        10 => ("E2M2", "Containment Area"),
        11 => ("E2M3", "Refinery"),
        12 => ("E2M4", "Deimos Lab"),
        13 => ("E2M5", "Command Center"),
        14 => ("E2M6", "Halls of the Damned"),
        15 => ("E2M7", "Spawning Vats"),
        16 => ("E2M8", "Tower of Babel"),
        17 => ("E2M9", "Fortress of Mystery"),
        18 => ("E3M1", "Hell Keep"),
        19 => ("E3M2", "Slough of Despair"),
        20 => ("E3M3", "Pandemonium"),
        21 => ("E3M4", "House of Pain"),
        22 => ("E3M5", "Unholy Cathedral"),
        23 => ("E3M6", "Mt. Erebus"),
        24 => ("E3M7", "Limbo"),
        25 => ("E3M8", "Dis"),
        26 => ("E3M9", "Warrens"),
        27 => ("E4M1", "Hell Beneath"),
        28 => ("E4M2", "Perfect Hatred"),
        29 => ("E4M3", "Sever The Wicked"),
        30 => ("E4M4", "Unruly Evil"),
        31 => ("E4M5", "They Will Repent"),
        32 => ("E4M6", "Against Thee Wickedly"),
        33 => ("E4M7", "And Hell Followed"),
        34 => ("E4M8", "Unto The Cruel"),
        35 => ("E4M9", "Fear"),
        36 => ("MAP01", "Entryway"),
        37 => ("MAP02", "Underhalls"),
        38 => ("MAP03", "The Gantlet"),
        39 => ("MAP04", "The Focus"),
        40 => ("MAP05", "The Waste Tunnels"),
        41 => ("MAP06", "The Crusher"),
        42 => ("MAP07", "Dead Simple"),
        43 => ("MAP08", "Tricks and Traps"),
        44 => ("MAP09", "The Pit"),
        45 => ("MAP10", "Refueling Base"),
        46 => ("MAP11", "'O' of Destruction!"),
        47 => ("MAP12", "The Factory"),
        48 => ("MAP13", "Downtown"),
        49 => ("MAP14", "The Inmost Dens"),
        50 => ("MAP15", "Industrial Zone"),
        51 => ("MAP16", "Suburbs"),
        52 => ("MAP17", "Tenements"),
        53 => ("MAP18", "The Courtyard"),
        54 => ("MAP19", "The Citadel"),
        55 => ("MAP20", "Gotcha!"),
        56 => ("MAP21", "Nirvana"),
        57 => ("MAP22", "The Catacombs"),
        58 => ("MAP23", "Barrels o' Fun"),
        59 => ("MAP24", "The Chasm"),
        60 => ("MAP25", "Bloodfalls"),
        61 => ("MAP26", "The Abandoned Mines"),
        62 => ("MAP27", "Monster Condo"),
        63 => ("MAP28", "The Spirit World"),
        64 => ("MAP29", "The Living End"),
        65 => ("MAP30", "Icon of Sin"),
        66 => ("MAP31", "Wolfenstein"),
        67 => ("MAP32", "Grosse"),
        _ => ("", ""),
    }
}

/// The level identifier of row `k`.
pub open spec fn vanilla_id(k: int) -> Seq<u8> {
    vanilla_row(k as usize).0.spec_bytes()
}

/// The default name of row `k`.
pub open spec fn vanilla_name(k: int) -> Seq<u8> {
    vanilla_row(k as usize).1.spec_bytes()
}

/// The first row at or after `k` whose default name is exactly `name`.
pub open spec fn vanilla_search(name: Seq<u8>, k: int) -> Option<int>
    decreases VANILLA_LEVELS - k,
{
    if k < 0 || k >= VANILLA_LEVELS {
        None
    } else if vanilla_name(k) == name {
        Some(k)
    } else {
        vanilla_search(name, k + 1)
    }
}

/// The row whose default name is exactly `name`, bytes for bytes.
pub open spec fn vanilla_index(name: Seq<u8>) -> Option<int> {
    vanilla_search(name, 0)
}

/// Row `k` of the table.
pub fn vanilla_level(k: usize) -> (r: (&'static str, &'static str))
    ensures
        r == vanilla_row(k),
{
    match k {
        0 => ("E1M1", "Hangar"),
        1 => ("E1M2", "Nuclear Plant"),
        2 => ("E1M3", "Toxin Refinery"),
        3 => ("E1M4", "Command Control"),
        4 => ("E1M5", "Phobos Lab"),
        5 => ("E1M6", "Central Processing"),
        6 => ("E1M7", "Computer Station"),
        7 => ("E1M8", "Phobos Anomaly"),
        8 => ("E1M9", "Military Base"),
        9 => ("E2M1", "Deimos Anomaly"),
        10 => ("E2M2", "Containment Area"),
        11 => ("E2M3", "Refinery"),
        12 => ("E2M4", "Deimos Lab"),
        13 => ("E2M5", "Command Center"),
        14 => ("E2M6", "Halls of the Damned"),
        15 => ("E2M7", "Spawning Vats"),
        16 => ("E2M8", "Tower of Babel"),
        17 => ("E2M9", "Fortress of Mystery"),
        18 => ("E3M1", "Hell Keep"),
        19 => ("E3M2", "Slough of Despair"),
        20 => ("E3M3", "Pandemonium"),
        21 => ("E3M4", "House of Pain"),
        22 => ("E3M5", "Unholy Cathedral"),
        23 => ("E3M6", "Mt. Erebus"),
        24 => ("E3M7", "Limbo"),
        25 => ("E3M8", "Dis"),
        26 => ("E3M9", "Warrens"),
        27 => ("E4M1", "Hell Beneath"),
        28 => ("E4M2", "Perfect Hatred"),
        29 => ("E4M3", "Sever The Wicked"),
        30 => ("E4M4", "Unruly Evil"),
        31 => ("E4M5", "They Will Repent"),
        32 => ("E4M6", "Against Thee Wickedly"),
        33 => ("E4M7", "And Hell Followed"),
        34 => ("E4M8", "Unto The Cruel"),
        35 => ("E4M9", "Fear"),
        36 => ("MAP01", "Entryway"),
        37 => ("MAP02", "Underhalls"),
        38 => ("MAP03", "The Gantlet"),
        39 => ("MAP04", "The Focus"),
        40 => ("MAP05", "The Waste Tunnels"),
        41 => ("MAP06", "The Crusher"),
        42 => ("MAP07", "Dead Simple"),
        43 => ("MAP08", "Tricks and Traps"),
        44 => ("MAP09", "The Pit"),
        45 => ("MAP10", "Refueling Base"),
        46 => ("MAP11", "'O' of Destruction!"),
        47 => ("MAP12", "The Factory"),
        48 => ("MAP13", "Downtown"),
        49 => ("MAP14", "The Inmost Dens"),
        50 => ("MAP15", "Industrial Zone"),
        51 => ("MAP16", "Suburbs"),
        52 => ("MAP17", "Tenements"),
        53 => ("MAP18", "The Courtyard"),
        54 => ("MAP19", "The Citadel"),
        55 => ("MAP20", "Gotcha!"),
        56 => ("MAP21", "Nirvana"),
        57 => ("MAP22", "The Catacombs"),
        58 => ("MAP23", "Barrels o' Fun"),
        59 => ("MAP24", "The Chasm"),
        60 => ("MAP25", "Bloodfalls"),
        61 => ("MAP26", "The Abandoned Mines"),
        62 => ("MAP27", "Monster Condo"),
        63 => ("MAP28", "The Spirit World"),
        64 => ("MAP29", "The Living End"),
        65 => ("MAP30", "Icon of Sin"),
        66 => ("MAP31", "Wolfenstein"),
        67 => ("MAP32", "Grosse"),
        _ => ("", ""),
    }
}

/// Looks a default name up in the table.
pub fn find_vanilla(name: &[u8]) -> (r: Option<usize>)
    ensures
        match r {
            Some(k) => vanilla_index(name@) == Some(k as int) && k < VANILLA_LEVELS,
            None => vanilla_index(name@) is None,
        },
{
    let mut k: usize = 0;
    while k < VANILLA_LEVELS
        invariant
            k <= VANILLA_LEVELS,
            vanilla_index(name@) == vanilla_search(name@, k as int),
        decreases VANILLA_LEVELS - k,
    {
        if bytes_equal(name, vanilla_level(k).1.as_bytes()) {
            return Some(k);
        }
        k += 1;
    }
    None
}

} // verus!

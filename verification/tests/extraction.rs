use doom_launcher::extract::{
    check_file_size, extract_from_content, extract_level_names, gather_format, parse_lump,
    ExtractError,
};
use doom_launcher::levels::{LevelEntry, LumpParseError};
use doom_launcher::locator::LumpFormat;
use doom_launcher::merge::{apply_entries, apply_entry, merge};
use doom_launcher::table::LevelNameTable;
use doom_launcher::wad::{read_wad, within_size_limit, FormatError};

fn build_wad(tag: &[u8; 4], lumps: &[(&[u8], &[u8])]) -> Vec<u8> {
    let mut body: Vec<u8> = Vec::new();
    let mut dir: Vec<u8> = Vec::new();
    for (name, bytes) in lumps {
        let offset = 12 + body.len() as u32;
        body.extend_from_slice(bytes);
        dir.extend_from_slice(&offset.to_le_bytes());
        dir.extend_from_slice(&(bytes.len() as u32).to_le_bytes());
        let mut field = [0u8; 8];
        field[..name.len()].copy_from_slice(name);
        dir.extend_from_slice(&field);
    }
    let mut out: Vec<u8> = Vec::new();
    out.extend_from_slice(tag);
    out.extend_from_slice(&(lumps.len() as u32).to_le_bytes());
    out.extend_from_slice(&(12 + body.len() as u32).to_le_bytes());
    out.extend_from_slice(&body);
    out.extend_from_slice(&dir);
    out
}

fn names(wad: &[u8]) -> Vec<(String, String)> {
    let mut v = extract_level_names(wad).unwrap().to_strings();
    v.sort();
    v
}

fn pair(id: &str, name: &str) -> (String, String) {
    (id.to_string(), name.to_string())
}

fn entry(id: &[u8], name: Option<&[u8]>, format: LumpFormat) -> LevelEntry {
    LevelEntry { id: id.to_vec(), name: name.map(|n| n.to_vec()), format, position: 0 }
}

#[test]
fn umapinfo_alone_names_the_level() {
    let wad = build_wad(b"PWAD", &[(b"UMAPINFO", b"map MAP01 { levelname = \"Entryway\"; }")]);
    assert_eq!(names(&wad), vec![pair("MAP01", "Entryway")]);
}

#[test]
fn umapinfo_wins_over_mapinfo() {
    let wad = build_wad(
        b"PWAD",
        &[
            (b"UMAPINFO", b"map MAP01 { levelname = \"Entryway\"; }"),
            (b"MAPINFO", b"map MAP01 \"Foo\" { }"),
        ],
    );
    assert_eq!(names(&wad), vec![pair("MAP01", "Entryway")]);
    // The order of the lumps in the file does not change that.
    let wad = build_wad(
        b"PWAD",
        &[
            (b"MAPINFO", b"map MAP01 \"Foo\" { }"),
            (b"UMAPINFO", b"map MAP01 { levelname = \"Entryway\"; }"),
        ],
    );
    assert_eq!(names(&wad), vec![pair("MAP01", "Entryway")]);
}

#[test]
fn grammars_apply_in_their_order_of_priority() {
    let deh: &[u8] = b"MAP01 = D1\nMAP02 = D2\nMAP03 = D3\nMAP04 = D4\n";
    let map: &[u8] = b"map MAP02 \"M2\" {} map MAP03 \"M3\" {} map MAP04 \"M4\" {}";
    let zmap: &[u8] = b"map MAP03 \"Z3\" {} map MAP04 \"Z4\" {}";
    let umap: &[u8] = b"map MAP04 { levelname = \"U4\" }";
    let wad = build_wad(
        b"PWAD",
        &[(b"UMAPINFO", umap), (b"ZMAPINFO", zmap), (b"MAPINFO", map), (b"DEHACKED", deh)],
    );
    assert_eq!(
        names(&wad),
        vec![pair("MAP01", "D1"), pair("MAP02", "M2"), pair("MAP03", "Z3"), pair("MAP04", "U4")]
    );
}

#[test]
fn later_lump_and_later_block_win_within_a_grammar() {
    let wad = build_wad(
        b"PWAD",
        &[
            (b"MAPINFO", b"map MAP01 \"First\" {} map MAP01 \"Second\" {} map MAP02 \"A\" {}"),
            (b"THINGS", b"map MAP01 \"Not metadata\" {}"),
            (b"MAPINFO", b"map MAP02 \"B\" {}"),
        ],
    );
    assert_eq!(names(&wad), vec![pair("MAP01", "Second"), pair("MAP02", "B")]);
}

#[test]
fn entry_without_a_name_does_not_overwrite() {
    let wad = build_wad(
        b"PWAD",
        &[
            (b"MAPINFO", b"map MAP01 \"Entryway\" {} map MAP02 \"Two\" {}"),
            (b"UMAPINFO", b"map MAP01 { next = \"MAP02\" } map MAP02 { levelname = \"  \" } map MAP03 { }"),
        ],
    );
    assert_eq!(names(&wad), vec![pair("MAP01", "Entryway"), pair("MAP02", "Two")]);
}

#[test]
fn names_are_trimmed_and_identifiers_upper_cased() {
    let wad = build_wad(b"PWAD", &[(b"umapinfo", b"map map01 { levelname = \"  Entry way \t\" }")]);
    assert_eq!(names(&wad), vec![pair("MAP01", "Entry way")]);
}

#[test]
fn same_bytes_give_the_same_names() {
    let wad = build_wad(
        b"IWAD",
        &[
            (b"DEHACKED", b"Text 6 8\nHangarRenamed!\nMAP03 = Three\n"),
            (b"MAPINFO", b"map MAP01 \"One\" {} map MAP02 { levelname = \"Two\" }"),
        ],
    );
    let first = extract_level_names(&wad).unwrap().to_strings();
    let second = extract_level_names(&wad.clone()).unwrap().to_strings();
    assert_eq!(first, second);
    assert_eq!(first.len(), 4);
}

#[test]
fn broken_block_does_not_hide_a_later_block() {
    let wad = build_wad(
        b"PWAD",
        &[(b"MAPINFO", b"map MAP01 { levelname = \"Lost\" \n map MAP02 { levelname = \"Kept\" }")],
    );
    assert_eq!(names(&wad), vec![pair("MAP02", "Kept")]);
    let wad = build_wad(
        b"PWAD",
        &[(b"UMAPINFO", b"map MAP01 { levelname = \"Lost\" \n map MAP02 { levelname = \"Kept\" }")],
    );
    assert_eq!(names(&wad), vec![pair("MAP02", "Kept")]);
}

#[test]
fn wad_without_metadata_lumps_has_no_names() {
    let wad = build_wad(b"PWAD", &[(b"MAP01", b""), (b"THINGS", b"map MAP01 \"x\" {}")]);
    let table = extract_level_names(&wad).unwrap();
    assert!(table.is_empty());
    assert_eq!(table.len(), 0);
    let wad = build_wad(b"IWAD", &[]);
    assert!(extract_level_names(&wad).unwrap().is_empty());
}

#[test]
fn dehacked_replacement_renames_the_vanilla_level() {
    let wad = build_wad(b"PWAD", &[(b"DEHACKED", b"Text 6 8\nHangarRenamed!")]);
    assert_eq!(names(&wad), vec![pair("E1M1", "Renamed!")]);
}

#[test]
fn record_past_the_end_fails_the_whole_extraction() {
    let mut wad = build_wad(
        b"PWAD",
        &[(b"UMAPINFO", b"map MAP01 { levelname = \"Entryway\"; }"), (b"MAPINFO", b"")],
    );
    let second = wad.len() - 16;
    let len = wad.len() as u32;
    wad[second..second + 4].copy_from_slice(&len.to_le_bytes());
    wad[second + 4..second + 8].copy_from_slice(&1u32.to_le_bytes());
    assert_eq!(
        extract_level_names(&wad).err(),
        Some(FormatError::LumpOutOfBounds { index: 1 })
    );
}

#[test]
fn malformed_container_fails_with_the_reason() {
    assert_eq!(extract_level_names(b"PWAD").err(), Some(FormatError::TooShort));
    assert_eq!(
        extract_level_names(b"WAD2\0\0\0\0\x0c\0\0\0").err(),
        Some(FormatError::BadMagic)
    );
    assert_eq!(
        extract_level_names(b"PWAD\xff\xff\xff\xff\x0c\0\0\0").err(),
        Some(FormatError::NegativeLumpCount)
    );
    assert_eq!(
        extract_level_names(b"PWAD\x02\0\0\0\x0c\0\0\0").err(),
        Some(FormatError::DirectoryOutOfBounds)
    );
}

#[test]
fn malformed_lump_is_left_out_and_the_others_count() {
    let wad = build_wad(
        b"PWAD",
        &[
            (b"MAPINFO", b"map MAP01 \"One\" {} map MAP02 \"unterminated"),
            (b"MAPINFO", b"map MAP03 \"Three\" {}"),
            (b"ZMAPINFO", b"map MAP04 \"Four\" {} /* open"),
            (b"UMAPINFO", b"map MAP05 { levelname = \"Five\" }"),
            (b"DEHACKED", b"MAP06 = Six\nText 6 800\nHangar"),
        ],
    );
    assert_eq!(
        names(&wad),
        vec![pair("MAP03", "Three"), pair("MAP05", "Five"), pair("MAP06", "Six")]
    );
}

#[test]
fn lump_outcome_says_why_reading_stopped() {
    let o = parse_lump(LumpFormat::MapInfo, b"map A \"x\" {} \"open", 2);
    assert!(o.entries.is_empty());
    assert_eq!(o.error, Some(LumpParseError::UnterminatedString));
    let o = parse_lump(LumpFormat::UMapInfo, b"map A { levelname = \"x\" } /*", 2);
    assert!(o.entries.is_empty());
    assert_eq!(o.error, Some(LumpParseError::UnterminatedComment));
    let o = parse_lump(LumpFormat::Dehacked, b"MAP01 = x\nText 1 1\n", 2);
    assert_eq!(o.entries.len(), 1);
    assert_eq!(o.error, Some(LumpParseError::TruncatedText));
    let o = parse_lump(LumpFormat::ZMapInfo, b"map A \"x\" {}", 2);
    assert_eq!(o.entries.len(), 1);
    assert_eq!(o.entries[0].format, LumpFormat::ZMapInfo);
    assert_eq!(o.entries[0].position, 2);
    assert_eq!(o.error, None);
}

#[test]
fn gathered_entries_carry_the_index_of_their_lump() {
    let wad = build_wad(
        b"PWAD",
        &[(b"MAPINFO", b"map A \"x\" {}"), (b"OTHER", b""), (b"MAPINFO", b"map B \"y\" {} map C {}")],
    );
    let (_, dir) = read_wad(&wad).unwrap();
    let entries = gather_format(&wad, &dir, LumpFormat::MapInfo);
    let seen: Vec<(Vec<u8>, usize)> = entries.iter().map(|e| (e.id.clone(), e.position)).collect();
    assert_eq!(seen, vec![(b"A".to_vec(), 0), (b"B".to_vec(), 2), (b"C".to_vec(), 2)]);
    assert!(gather_format(&wad, &dir, LumpFormat::Dehacked).is_empty());
}

#[test]
fn merge_applies_lists_in_priority_order() {
    let d = vec![entry(b"MAP01", Some(b"d"), LumpFormat::Dehacked)];
    let m = vec![
        entry(b"MAP01", Some(b" m "), LumpFormat::MapInfo),
        entry(b"MAP02", Some(b"m2"), LumpFormat::MapInfo),
    ];
    let z = vec![entry(b"MAP02", None, LumpFormat::ZMapInfo)];
    let u = vec![entry(b"MAP03", Some(b""), LumpFormat::UMapInfo)];
    let table = merge(&d, &m, &z, &u);
    assert_eq!(table.len(), 2);
    assert_eq!(table.get(b"MAP01"), Some(&b"m".to_vec()));
    assert_eq!(table.get(b"MAP02"), Some(&b"m2".to_vec()));
    assert_eq!(table.get(b"MAP03"), None);
    // Swapping two lists swaps who has the last word.
    let table = merge(&m, &d, &z, &u);
    assert_eq!(table.get(b"MAP01"), Some(&b"d".to_vec()));
}

#[test]
fn applying_entries_overwrites_only_with_a_name() {
    let mut table = LevelNameTable::new();
    apply_entry(&mut table, &entry(b"E1M1", Some(b"Hangar"), LumpFormat::Dehacked));
    apply_entry(&mut table, &entry(b"E1M1", None, LumpFormat::UMapInfo));
    apply_entry(&mut table, &entry(b"E1M1", Some(b" \t"), LumpFormat::UMapInfo));
    assert_eq!(table.get(b"E1M1"), Some(&b"Hangar".to_vec()));
    apply_entries(
        &mut table,
        &vec![
            entry(b"E1M1", Some(b"A"), LumpFormat::MapInfo),
            entry(b"E1M2", Some(b"B"), LumpFormat::MapInfo),
            entry(b"E1M1", Some(b"C"), LumpFormat::MapInfo),
        ],
    );
    assert_eq!(table.to_pairs(), vec![
        (b"E1M1".to_vec(), b"C".to_vec()),
        (b"E1M2".to_vec(), b"B".to_vec())
    ]);
}

#[test]
fn table_keeps_one_name_per_identifier() {
    let mut table = LevelNameTable::new();
    assert!(table.is_empty());
    table.insert(b"MAP01".to_vec(), b"one".to_vec());
    table.insert(b"MAP02".to_vec(), b"two".to_vec());
    table.insert(b"MAP01".to_vec(), b"uno".to_vec());
    assert_eq!(table.len(), 2);
    assert!(!table.is_empty());
    assert_eq!(table.get(b"MAP01"), Some(&b"uno".to_vec()));
    assert_eq!(table.get(b"MAP02"), Some(&b"two".to_vec()));
    assert_eq!(table.get(b"map01"), None);
    assert_eq!(table.id_at(0), &b"MAP01".to_vec());
    assert_eq!(table.name_at(1), &b"two".to_vec());
}

#[test]
fn names_that_are_not_utf8_are_decoded_with_replacement_characters() {
    let mut table = LevelNameTable::new();
    table.insert(b"MAP01".to_vec(), vec![b'C', b'a', b'f', 0xe9]);
    table.insert(b"MAP02".to_vec(), "Café".as_bytes().to_vec());
    assert_eq!(
        table.to_strings(),
        vec![pair("MAP01", "Caf\u{fffd}"), pair("MAP02", "Café")]
    );
    let wad = build_wad(b"PWAD", &[(b"UMAPINFO", b"map MAP01 { levelname = \"\xff\xfeX\" }")]);
    assert_eq!(names(&wad), vec![pair("MAP01", "\u{fffd}\u{fffd}X")]);
}

#[test]
fn failed_read_fails_the_extraction_with_its_text() {
    let r = extract_from_content(Err("No such file or directory (os error 2)".to_string()));
    let e = r.err().unwrap();
    assert_eq!(e, ExtractError::Io("No such file or directory (os error 2)".to_string()));
    assert_eq!(e.message(), "Failed to read WAD file: No such file or directory (os error 2)");
    let r = extract_from_content(Ok(b"NOPE\0\0\0\0\x0c\0\0\0".to_vec()));
    let e = r.err().unwrap();
    assert_eq!(e, ExtractError::Format(FormatError::BadMagic));
    assert_eq!(e.message(), "Invalid WAD file: file does not start with IWAD or PWAD");
    let wad = build_wad(b"PWAD", &[(b"UMAPINFO", b"map MAP01 { levelname = \"Entryway\"; }")]);
    let table = extract_from_content(Ok(wad)).unwrap();
    assert_eq!(table.to_strings(), vec![pair("MAP01", "Entryway")]);
    assert_eq!(check_file_size(0), Ok(()));
    assert_eq!(check_file_size(1 << 30), Ok(()));
    assert_eq!(
        check_file_size((1 << 30) + 1),
        Err(ExtractError::Io("file is larger than one gibibyte".to_string()))
    );
}

#[test]
fn format_errors_have_messages() {
    assert_eq!(FormatError::TooShort.message(), "file is too short to hold a WAD header");
    assert_eq!(FormatError::BadMagic.message(), "file does not start with IWAD or PWAD");
    assert_eq!(FormatError::NegativeLumpCount.message(), "WAD header holds a negative lump count");
    assert_eq!(
        FormatError::DirectoryOutOfBounds.message(),
        "WAD lump directory lies outside the file"
    );
    assert_eq!(
        FormatError::LumpOutOfBounds { index: 3 }.message(),
        "WAD lump directory entry points outside the file"
    );
    assert!(within_size_limit(0x4000_0000));
    assert!(!within_size_limit(0x4000_0001));
}

use doom_launcher::blocks::{read_block, read_level_name, token_is_word};
use doom_launcher::dehacked::{
    has_level_id_shape, is_all_digits, parse_decimal, parse_dehacked, read_assignment,
    read_replacement, read_text_directive, skip_field, skip_spaces, Directive,
};
use doom_launcher::levels::LevelEntry;
use doom_launcher::locator::LumpFormat;
use doom_launcher::mapinfo::{parse_mapinfo, parse_mapinfo_lump, skip_to_keyword};
use doom_launcher::tokenizer::{tokenize, LexError};
use doom_launcher::umapinfo::{parse_umapinfo, parse_umapinfo_lump, skip_to_map};
use doom_launcher::vanilla::{find_vanilla, vanilla_level, VANILLA_LEVELS};

fn pairs(entries: &[LevelEntry]) -> Vec<(String, Option<String>)> {
    entries
        .iter()
        .map(|e| {
            (
                String::from_utf8_lossy(&e.id).into_owned(),
                e.name.as_ref().map(|n| String::from_utf8_lossy(n).into_owned()),
            )
        })
        .collect()
}

fn named(id: &str, name: &str) -> (String, Option<String>) {
    (id.to_string(), Some(name.to_string()))
}

fn unnamed(id: &str) -> (String, Option<String>) {
    (id.to_string(), None)
}

fn mapinfo(text: &[u8]) -> Vec<(String, Option<String>)> {
    pairs(&parse_mapinfo_lump(text, LumpFormat::MapInfo, 0).unwrap())
}

fn umapinfo(text: &[u8]) -> Vec<(String, Option<String>)> {
    pairs(&parse_umapinfo_lump(text, 0).unwrap())
}

fn dehacked(text: &[u8]) -> (Vec<(String, Option<String>)>, bool) {
    let patch = parse_dehacked(text, 0);
    (pairs(&patch.entries), patch.truncated)
}

#[test]
fn mapinfo_name_after_the_identifier_is_the_name() {
    assert_eq!(
        mapinfo(b"map MAP01 \"Entryway\" { next = \"MAP02\" }"),
        vec![named("MAP01", "Entryway")]
    );
}

#[test]
fn mapinfo_identifier_is_upper_cased_and_name_keeps_its_case() {
    assert_eq!(mapinfo(b"MAP e1m1 \"hAnGaR\" { }"), vec![named("E1M1", "hAnGaR")]);
}

#[test]
fn identifier_in_quotes_is_trimmed() {
    assert_eq!(mapinfo(b"map \" map01\t\" \"Entryway\" { }"), vec![named("MAP01", "Entryway")]);
    assert_eq!(umapinfo(b"map \" e1m1 \" { levelname = \"Hangar\" }"), vec![named("E1M1", "Hangar")]);
}

#[test]
fn mapinfo_lookup_key_names_nothing() {
    assert_eq!(
        mapinfo(b"map MAP01 \"$HUSTR_1\" { levelname = \"Ignored\" }"),
        vec![unnamed("MAP01")]
    );
}

#[test]
fn mapinfo_name_in_the_header_goes_before_the_body() {
    assert_eq!(
        mapinfo(b"map MAP01 \"Header\" { levelname = \"Body\" }"),
        vec![named("MAP01", "Header")]
    );
}

#[test]
fn mapinfo_body_assignment_is_the_name_when_the_header_has_none() {
    assert_eq!(
        mapinfo(b"map MAP02 { sky1 = \"SKY1\", 0.0\n levelname = \"Underhalls\"\n next = \"MAP03\" }"),
        vec![named("MAP02", "Underhalls")]
    );
    assert_eq!(mapinfo(b"map MAP02 { LevelName = \"X\" }"), vec![named("MAP02", "X")]);
}

#[test]
fn mapinfo_last_assignment_in_a_body_counts() {
    assert_eq!(
        mapinfo(b"map MAP02 { levelname = \"First\" levelname = \"Second\" }"),
        vec![named("MAP02", "Second")]
    );
}

#[test]
fn mapinfo_assignment_in_a_nested_block_is_not_the_maps() {
    assert_eq!(
        mapinfo(b"map MAP03 { intermission { levelname = \"Inner\" } music = \"D_RUNNIN\" }"),
        vec![unnamed("MAP03")]
    );
    assert_eq!(
        mapinfo(b"map MAP03 { a { b { } } levelname = \"Outer\" c { levelname = \"Inner\" } }"),
        vec![named("MAP03", "Outer")]
    );
}

#[test]
fn mapinfo_assignment_must_be_key_equals_string() {
    assert_eq!(mapinfo(b"map MAP03 { levelname = Bare }"), vec![unnamed("MAP03")]);
    assert_eq!(mapinfo(b"map MAP03 { levelname \"NoEquals\" }"), vec![unnamed("MAP03")]);
    assert_eq!(mapinfo(b"map MAP03 { levelname = }"), vec![unnamed("MAP03")]);
}

#[test]
fn mapinfo_defaultmap_names_nothing() {
    assert_eq!(
        mapinfo(b"defaultmap { levelname = \"Default\" }\nmap MAP01 { }\nmap MAP02 \"Two\" { }"),
        vec![unnamed("MAP01"), named("MAP02", "Two")]
    );
}

#[test]
fn mapinfo_other_declarations_are_passed_over() {
    let text = b"gameinfo { titlepage = \"TITLE\" }\n\
        clearepisodes\n\
        episode MAP01 { name = \"Hell on Earth\" }\n\
        cluster 5 { map = \"trap\" exittext = \"map MAP99\" }\n\
        map MAP01 \"Entryway\" { cluster = 5 }\n\
        skill baby { map }\n";
    assert_eq!(mapinfo(text), vec![named("MAP01", "Entryway")]);
}

#[test]
fn mapinfo_block_without_braces_still_gives_an_entry() {
    assert_eq!(
        mapinfo(b"map MAP01 \"Entryway\"\nnext MAP02\nmap MAP02 \"Underhalls\"\nnext MAP03"),
        vec![named("MAP01", "Entryway"), named("MAP02", "Underhalls")]
    );
    assert_eq!(mapinfo(b"map MAP01"), vec![unnamed("MAP01")]);
}

#[test]
fn mapinfo_keyword_without_identifier_gives_nothing() {
    assert_eq!(mapinfo(b"map"), vec![]);
    assert_eq!(mapinfo(b"map { levelname = \"X\" }"), vec![]);
    assert_eq!(mapinfo(b""), vec![]);
}

#[test]
fn mapinfo_unclosed_block_does_not_hide_the_next_block() {
    let text = b"map MAP01 { levelname = \"Broken\" sky1 = \"SKY1\"\n\
        map MAP02 { levelname = \"Underhalls\" }\n\
        map MAP03 \"The Gantlet\" { }";
    assert_eq!(
        mapinfo(text),
        vec![unnamed("MAP01"), named("MAP02", "Underhalls"), named("MAP03", "The Gantlet")]
    );
}

#[test]
fn mapinfo_unclosed_block_keeps_the_name_of_its_header() {
    let text = b"map MAP01 \"Entryway\" { sky1 = { \n map MAP02 \"Underhalls\" { }";
    assert_eq!(mapinfo(text), vec![named("MAP01", "Entryway"), named("MAP02", "Underhalls")]);
}

#[test]
fn mapinfo_unclosed_foreign_block_does_not_hide_the_next_block() {
    let text = b"gameinfo { x = 1 \n defaultmap { y = 2 } map MAP05 \"Five\" { }";
    assert_eq!(mapinfo(text), vec![named("MAP05", "Five")]);
}

#[test]
fn mapinfo_stray_closing_brace_is_passed_over() {
    assert_eq!(mapinfo(b"} map MAP01 \"A\" { } } map MAP02 \"B\" { }"), vec![
        named("MAP01", "A"),
        named("MAP02", "B")
    ]);
}

#[test]
fn mapinfo_lexical_error_gives_no_entries() {
    assert_eq!(
        parse_mapinfo_lump(b"map MAP01 \"A\" { } map MAP02 \"B", LumpFormat::ZMapInfo, 3).err(),
        Some(LexError::UnterminatedString)
    );
    assert_eq!(
        parse_mapinfo_lump(b"map MAP01 \"A\" { } /* ", LumpFormat::MapInfo, 3).err(),
        Some(LexError::UnterminatedComment)
    );
}

#[test]
fn entries_carry_format_and_position() {
    let entries = parse_mapinfo_lump(b"map A \"x\" {} map B \"y\" {}", LumpFormat::ZMapInfo, 7)
        .unwrap();
    assert_eq!(entries.len(), 2);
    for e in &entries {
        assert_eq!(e.format, LumpFormat::ZMapInfo);
        assert_eq!(e.position, 7);
    }
    let entries = parse_umapinfo_lump(b"map A { levelname = \"x\" }", 4).unwrap();
    assert_eq!(entries[0].format, LumpFormat::UMapInfo);
    assert_eq!(entries[0].position, 4);
    let patch = parse_dehacked(b"MAP01 = x\n", 9);
    assert_eq!(patch.entries[0].format, LumpFormat::Dehacked);
    assert_eq!(patch.entries[0].position, 9);
}

#[test]
fn token_level_parsers_agree_with_lump_level_parsers() {
    let text = b"map MAP01 { levelname = \"Entryway\" }";
    let tokens = tokenize(text).unwrap();
    assert_eq!(pairs(&parse_mapinfo(&tokens, LumpFormat::MapInfo, 0)), mapinfo(text));
    assert_eq!(pairs(&parse_umapinfo(&tokens, 0)), umapinfo(text));
    assert!(token_is_word(&tokens[0], "MAP"));
    assert!(!token_is_word(&tokens[1], "map"));
    assert_eq!(read_level_name(&tokens, 3), Some(b"Entryway".to_vec()));
    assert_eq!(read_level_name(&tokens, 2), None);
    assert_eq!(read_block(&tokens, 3), (Some(7), Some(b"Entryway".to_vec())));
    assert_eq!(read_block(&tokens, 7), (None, None));
    assert_eq!(skip_to_keyword(&tokens, 1), 7);
    assert_eq!(skip_to_map(&tokens, 0), 0);
}

#[test]
fn umapinfo_block_names_its_level() {
    assert_eq!(
        umapinfo(b"map MAP01 { levelname = \"Entryway\"; }"),
        vec![named("MAP01", "Entryway")]
    );
}

#[test]
fn umapinfo_semicolons_are_optional_and_other_keys_ignored() {
    let text = b"MAP E1M1\n{\n  label = \"1\"\n  levelname = \"Hangar\"\n  next = \"E1M2\"\n\
        episode = \"M_EPI1\", \"Knee-Deep\", \"k\"\n}\n\
        map e1m2 { levelname = \"Nuclear Plant\"; next = \"E1M3\"; }";
    assert_eq!(umapinfo(text), vec![named("E1M1", "Hangar"), named("E1M2", "Nuclear Plant")]);
}

#[test]
fn umapinfo_header_carries_no_name() {
    // The string after the identifier is not a name here; no block follows
    // the identifier, so the map names nothing, and the block is skipped.
    assert_eq!(umapinfo(b"map MAP01 \"Entryway\" { levelname = \"X\" }"), vec![unnamed("MAP01")]);
}

#[test]
fn umapinfo_unclosed_block_does_not_hide_the_next_block() {
    let text = b"map MAP01 { levelname = \"Broken\"\n map MAP02 { levelname = \"Underhalls\"; }";
    assert_eq!(umapinfo(text), vec![unnamed("MAP01"), named("MAP02", "Underhalls")]);
}

#[test]
fn umapinfo_foreign_blocks_are_skipped_whole() {
    let text = b"other { map MAP09 { levelname = \"Hidden\" } } map MAP01 { levelname = \"Seen\" }";
    assert_eq!(umapinfo(text), vec![named("MAP01", "Seen")]);
}

#[test]
fn umapinfo_lexical_error_gives_no_entries() {
    assert_eq!(
        parse_umapinfo_lump(b"map MAP01 { levelname = \"Entryway }", 0).err(),
        Some(LexError::UnterminatedString)
    );
}

#[test]
fn vanilla_table_pins_both_games() {
    assert_eq!(VANILLA_LEVELS, 68);
    assert_eq!(vanilla_level(0), ("E1M1", "Hangar"));
    assert_eq!(vanilla_level(8), ("E1M9", "Military Base"));
    assert_eq!(vanilla_level(9), ("E2M1", "Deimos Anomaly"));
    assert_eq!(vanilla_level(35), ("E4M9", "Fear"));
    assert_eq!(vanilla_level(36), ("MAP01", "Entryway"));
    assert_eq!(vanilla_level(67), ("MAP32", "Grosse"));
    assert_eq!(vanilla_level(68), ("", ""));
    assert_eq!(find_vanilla(b"Hangar"), Some(0));
    assert_eq!(find_vanilla(b"Grosse"), Some(67));
    assert_eq!(find_vanilla(b"Dead Simple"), Some(42));
    assert_eq!(find_vanilla(b"hangar"), None);
    assert_eq!(find_vanilla(b"Hangar "), None);
    assert_eq!(find_vanilla(b""), None);
    for k in 0..VANILLA_LEVELS {
        assert_eq!(find_vanilla(vanilla_level(k).1.as_bytes()), Some(k));
    }
}

#[test]
fn dehacked_text_replacement_renames_the_level() {
    assert_eq!(dehacked(b"Text 6 8\nHangarRenamed!"), (vec![named("E1M1", "Renamed!")], false));
}

#[test]
fn dehacked_text_is_taken_by_length_across_line_ends() {
    let text = b"Patch File for DeHackEd v3.0\n\nText 8 11\nEntrywayFirst\nLevel\nText 10 3\nUnderhallsTwo\n";
    assert_eq!(
        dehacked(text),
        (vec![named("MAP01", "First\nLevel"), named("MAP02", "Two")], false)
    );
}

#[test]
fn dehacked_replacement_of_other_text_names_nothing() {
    assert_eq!(dehacked(b"Text 5 5\nhelloworld\nText 6 3\nHangarOne\n"), (
        vec![named("E1M1", "One")],
        false
    ));
    // The replaced text is skipped by length: a level line inside it is not read.
    assert_eq!(dehacked(b"Text 12 1\nMAP01 = Foo\nx\nE1M2 = Bar"), (vec![named("E1M2", "Bar")], false));
}

#[test]
fn dehacked_directive_allows_other_case_and_spacing() {
    assert_eq!(dehacked(b"  TEXT\t6   3 \r\nHangarOne"), (vec![named("E1M1", "One")], false));
    assert_eq!(dehacked(b"Text 006 03\nHangarOne"), (vec![named("E1M1", "One")], false));
}

#[test]
fn dehacked_lines_that_only_look_like_directives_are_passed_over() {
    assert_eq!(dehacked(b"Text 6\nHangarOne\n"), (vec![], false));
    assert_eq!(dehacked(b"Text 6 3 1\nHangarOne\n"), (vec![], false));
    assert_eq!(dehacked(b"Text six 3\nHangarOne\n"), (vec![], false));
    assert_eq!(dehacked(b"Text -6 3\nHangarOne\n"), (vec![], false));
    assert_eq!(dehacked(b"Texts 6 3\nHangarOne\n"), (vec![], false));
}

#[test]
fn dehacked_truncated_directive_stops_the_lump_and_keeps_what_came_before() {
    assert_eq!(
        dehacked(b"Text 6 3\nHangarOne\nText 8 100\nEntrywayshort\nMAP05 = Lost"),
        (vec![named("E1M1", "One")], true)
    );
    assert_eq!(dehacked(b"Text 6 8\nHangarRenamed"), (vec![], true));
    assert_eq!(dehacked(b"Text 1 0"), (vec![], true));
    assert_eq!(dehacked(b"Text 0 0"), (vec![], false));
    assert_eq!(
        dehacked(b"Text 99999999999999999999999999999999999999999 1\nx"),
        (vec![], true)
    );
    assert_eq!(
        dehacked(b"Text 1 340282366920938463463374607431768211456\nx"),
        (vec![], true)
    );
}

#[test]
fn dehacked_level_line_names_the_level() {
    assert_eq!(
        dehacked(b"# comment\nMAP01 = Entryway Redux\r\n  e1m1=  Hangar 2  \nSpeed = 8\nMAP1 = no\nMAP001 = no\nE1M10 = no\nHit points = 20\n"),
        (vec![named("MAP01", "Entryway Redux"), named("E1M1", "Hangar 2")], false)
    );
    assert_eq!(dehacked(b"MAP07 = a = b"), (vec![named("MAP07", "a = b")], false));
    assert_eq!(dehacked(b"MAP07 ="), (vec![named("MAP07", "")], false));
    assert_eq!(dehacked(b"MAP07"), (vec![], false));
}

#[test]
fn dehacked_helpers_give_exact_values() {
    assert!(has_level_id_shape(b"E1M1"));
    assert!(has_level_id_shape(b"e9m0"));
    assert!(has_level_id_shape(b"map32"));
    assert!(!has_level_id_shape(b"MAP3"));
    assert!(!has_level_id_shape(b"E1M"));
    assert!(!has_level_id_shape(b"EAM1"));
    assert!(!has_level_id_shape(b"MAPXX"));
    assert!(is_all_digits(b"0123456789"));
    assert!(is_all_digits(b""));
    assert!(!is_all_digits(b"12a"));
    assert_eq!(parse_decimal(b"0", 0), Some(0));
    assert_eq!(parse_decimal(b"", 5), Some(0));
    assert_eq!(parse_decimal(b"1234", 1234), Some(1234));
    assert_eq!(parse_decimal(b"1234", 1233), None);
    assert_eq!(parse_decimal(b"0001234", 5000), Some(1234));
    assert_eq!(parse_decimal(b"18446744073709551615", usize::MAX), Some(usize::MAX));
    assert_eq!(parse_decimal(b"18446744073709551616", usize::MAX), None);
    assert_eq!(parse_decimal(b"12a", 5000), None);
    assert_eq!(parse_decimal(b"-1", 5000), None);
    assert_eq!(skip_spaces(b"  ab ", 0), 2);
    assert_eq!(skip_field(b"  ab ", 2), 4);
    assert!(matches!(read_text_directive(b"Text 6 8", 100), Directive::Lengths(6, 8)));
    assert!(matches!(read_text_directive(b"Text 6 8", 7), Directive::Oversized));
    assert!(matches!(read_text_directive(b"Text 6", 100), Directive::Absent));
    assert!(read_assignment(b"Speed = 8", 0).is_none());
    assert_eq!(pairs(&[read_assignment(b"map01 = x", 0).unwrap()]), vec![named("MAP01", "x")]);
    assert!(read_replacement(b"Nowhere", b"x", 0).is_none());
    assert_eq!(
        pairs(&[read_replacement(b"Entryway", b" y ", 0).unwrap()]),
        vec![named("MAP01", " y ")]
    );
}

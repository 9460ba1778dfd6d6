use doom_launcher::locator::{locate_lumps, lump_format, lump_name, LumpFormat};
use doom_launcher::wad::{
    lump_bytes, read_header, read_name, read_record, read_u32_le, read_wad, FormatError, WadKind,
};

fn build_wad(tag: &[u8; 4], lumps: &[(&[u8], &[u8])]) -> Vec<u8> {
    let mut body: Vec<u8> = Vec::new();
    let mut dir: Vec<u8> = Vec::new();
    for (name, bytes) in lumps {
        let offset = 12 + body.len() as u32;
        body.extend_from_slice(bytes);
        dir.extend_from_slice(&offset.to_le_bytes());
        dir.extend_from_slice(&(bytes.len() as u32).to_le_bytes());
        let mut field = [0u8; 8];
        field[..name.len()].copy_from_slice(name);
        dir.extend_from_slice(&field);
    }
    let mut out: Vec<u8> = Vec::new();
    out.extend_from_slice(tag);
    out.extend_from_slice(&(lumps.len() as u32).to_le_bytes());
    out.extend_from_slice(&(12 + body.len() as u32).to_le_bytes());
    out.extend_from_slice(&body);
    out.extend_from_slice(&dir);
    out
}

#[test]
fn little_endian_word_is_read_low_byte_first() {
    let data = [0u8, 0x78, 0x56, 0x34, 0x12, 0xff];
    assert_eq!(read_u32_le(&data, 1), 0x1234_5678);
    assert_eq!(read_u32_le(&[0xff, 0xff, 0xff, 0xff], 0), u32::MAX);
}

#[test]
fn header_shorter_than_twelve_bytes_is_rejected() {
    assert_eq!(read_header(b""), Err(FormatError::TooShort));
    assert_eq!(read_header(b"PWAD\0\0\0\0\x0c\0\0"), Err(FormatError::TooShort));
    assert_eq!(read_wad(b"IWAD").err(), Some(FormatError::TooShort));
}

#[test]
fn unknown_tag_is_rejected() {
    assert_eq!(read_header(b"ZWAD\0\0\0\0\x0c\0\0\0"), Err(FormatError::BadMagic));
    assert_eq!(read_header(b"pwad\0\0\0\0\x0c\0\0\0"), Err(FormatError::BadMagic));
    assert_eq!(read_header(b"IWAX\0\0\0\0\x0c\0\0\0"), Err(FormatError::BadMagic));
}

#[test]
fn negative_lump_count_is_rejected() {
    assert_eq!(
        read_header(b"PWAD\xff\xff\xff\xff\x0c\0\0\0"),
        Err(FormatError::NegativeLumpCount)
    );
    assert_eq!(read_header(b"PWAD\0\0\0\x80\x0c\0\0\0"), Err(FormatError::NegativeLumpCount));
}

#[test]
fn directory_outside_the_file_is_rejected() {
    // One lump announced, directory at 12, but the file ends there.
    assert_eq!(read_header(b"PWAD\x01\0\0\0\x0c\0\0\0"), Err(FormatError::DirectoryOutOfBounds));
    // No lumps, but the directory offset is past the end.
    assert_eq!(read_header(b"PWAD\0\0\0\0\x0d\0\0\0"), Err(FormatError::DirectoryOutOfBounds));
}

#[test]
fn both_tags_are_known() {
    let h = read_header(b"IWAD\0\0\0\0\x0c\0\0\0").unwrap();
    assert_eq!(h.kind, WadKind::Iwad);
    assert_eq!(h.lump_count, 0);
    assert_eq!(h.directory_offset, 12);
    let h = read_header(b"PWAD\0\0\0\0\x0c\0\0\0").unwrap();
    assert_eq!(h.kind, WadKind::Pwad);
}

#[test]
fn name_is_cut_at_first_nul() {
    assert_eq!(read_name(b"MAPINFO\0"), b"MAPINFO".to_vec());
    assert_eq!(read_name(b"DEHACKED"), b"DEHACKED".to_vec());
    assert_eq!(read_name(b"AB\0CD\0\0\0"), b"AB".to_vec());
    assert_eq!(read_name(b"\0\0\0\0\0\0\0\0"), Vec::<u8>::new());
}

#[test]
fn record_holds_offset_size_and_name() {
    let mut data = vec![0u8; 4];
    data.extend_from_slice(&[0x10, 0x20, 0, 0, 5, 0, 0, 0]);
    data.extend_from_slice(b"E1M1\0\0\0\0");
    let r = read_record(&data, 4);
    assert_eq!(r.offset, 0x2010);
    assert_eq!(r.size, 5);
    assert_eq!(r.name, b"E1M1".to_vec());
}

#[test]
fn directory_is_decoded_in_file_order() {
    let wad = build_wad(b"PWAD", &[(b"MAPINFO", b"abc"), (b"THINGS", b""), (b"UMAPINFO", b"xy")]);
    let (header, dir) = read_wad(&wad).unwrap();
    assert_eq!(header.lump_count, 3);
    assert_eq!(header.directory_offset, 17);
    assert_eq!(dir.len(), 3);
    assert_eq!(dir[0].name, b"MAPINFO".to_vec());
    assert_eq!((dir[0].offset, dir[0].size), (12, 3));
    assert_eq!(dir[1].name, b"THINGS".to_vec());
    assert_eq!((dir[1].offset, dir[1].size), (15, 0));
    assert_eq!(dir[2].name, b"UMAPINFO".to_vec());
    assert_eq!((dir[2].offset, dir[2].size), (15, 2));
    assert_eq!(lump_bytes(&wad, &dir[0]), Some(&b"abc"[..]));
    assert_eq!(lump_bytes(&wad, &dir[2]), Some(&b"xy"[..]));
}

#[test]
fn record_past_the_end_is_rejected_with_its_index() {
    let mut wad = build_wad(b"PWAD", &[(b"MAPINFO", b"abc"), (b"UMAPINFO", b"xy")]);
    let len = wad.len() as u32;
    // Second record: size such that offset + size is one past the end.
    let second = wad.len() - 16;
    let offset = u32::from_le_bytes([wad[second], wad[second + 1], wad[second + 2], wad[second + 3]]);
    let size = len - offset + 1;
    wad[second + 4..second + 8].copy_from_slice(&size.to_le_bytes());
    assert_eq!(read_wad(&wad).err(), Some(FormatError::LumpOutOfBounds { index: 1 }));
    // The largest size that still fits is accepted.
    let size = len - offset;
    wad[second + 4..second + 8].copy_from_slice(&size.to_le_bytes());
    assert!(read_wad(&wad).is_ok());
}

#[test]
fn first_bad_record_is_the_one_reported() {
    let mut wad = build_wad(b"IWAD", &[(b"A", b""), (b"B", b""), (b"C", b"")]);
    let dir = wad.len() - 48;
    wad[dir + 16..dir + 20].copy_from_slice(&u32::MAX.to_le_bytes());
    wad[dir + 32..dir + 36].copy_from_slice(&u32::MAX.to_le_bytes());
    assert_eq!(read_wad(&wad).err(), Some(FormatError::LumpOutOfBounds { index: 1 }));
}

#[test]
fn lump_bytes_refuses_a_span_outside_the_data() {
    let wad = build_wad(b"PWAD", &[(b"MAPINFO", b"abc")]);
    let (_, mut dir) = read_wad(&wad).unwrap();
    dir[0].size = wad.len() as u32;
    assert_eq!(lump_bytes(&wad, &dir[0]), None);
}

#[test]
fn lump_names_select_grammars_without_regard_to_case() {
    assert_eq!(lump_format(b"DEHACKED"), Some(LumpFormat::Dehacked));
    assert_eq!(lump_format(b"MAPINFO"), Some(LumpFormat::MapInfo));
    assert_eq!(lump_format(b"ZMAPINFO"), Some(LumpFormat::ZMapInfo));
    assert_eq!(lump_format(b"UMAPINFO"), Some(LumpFormat::UMapInfo));
    assert_eq!(lump_format(b"umapinfo"), Some(LumpFormat::UMapInfo));
    assert_eq!(lump_format(b"MapInfo"), Some(LumpFormat::MapInfo));
    assert_eq!(lump_format(b"MAPINF"), None);
    assert_eq!(lump_format(b"MAPINFOS"), None);
    assert_eq!(lump_format(b""), None);
    assert_eq!(lump_format(b"THINGS"), None);
    assert_eq!(lump_name(LumpFormat::ZMapInfo), "ZMAPINFO");
}

#[test]
fn lumps_are_located_in_file_order_with_duplicates() {
    let wad = build_wad(
        b"PWAD",
        &[
            (b"MAPINFO", b""),
            (b"DEHACKED", b""),
            (b"mapinfo", b""),
            (b"UMAPINFO", b""),
            (b"MAPINFO", b""),
        ],
    );
    let (_, dir) = read_wad(&wad).unwrap();
    assert_eq!(locate_lumps(&dir, LumpFormat::MapInfo), vec![0, 2, 4]);
    assert_eq!(locate_lumps(&dir, LumpFormat::Dehacked), vec![1]);
    assert_eq!(locate_lumps(&dir, LumpFormat::UMapInfo), vec![3]);
    assert_eq!(locate_lumps(&dir, LumpFormat::ZMapInfo), Vec::<usize>::new());
}

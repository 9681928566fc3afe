use glb_rs::extracted::{classify, next_mode};
use glb_rs::{
    CollectionMode, EntryFailure, EntryKind, Extracted, FatEntry, File, FileAllocationTable, Flag,
    GlbArchive, GlbError, Pic, Text,
};

fn encrypt(plain: &[u8]) -> Vec<u8> {
    let key = glb_rs::ENCRYPTION_KEY;
    let mut cursor = 25 % key.len();
    let mut previous = key[cursor];
    let mut out = Vec::new();
    for p in plain {
        let c = p.wrapping_add(key[cursor]).wrapping_add(previous);
        out.push(c);
        previous = c;
        cursor = (cursor + 1) % key.len();
    }
    out
}

fn chunk(flag: u32, offset: u32, length: u32, name: &[u8]) -> Vec<u8> {
    let mut plain = Vec::new();
    plain.extend_from_slice(&flag.to_le_bytes());
    plain.extend_from_slice(&offset.to_le_bytes());
    plain.extend_from_slice(&length.to_le_bytes());
    let mut field = [0u8; 16];
    field[..name.len()].copy_from_slice(name);
    plain.extend_from_slice(&field);
    encrypt(&plain)
}

/// Builds an archive from (name, encrypted, payload) triples.
fn archive(entries: &[(&str, bool, Vec<u8>)]) -> GlbArchive {
    let mut bytes = chunk(0, entries.len() as u32, 0, b"");
    let mut offset = 28 * (entries.len() as u32 + 1);
    for (name, encrypted, payload) in entries {
        bytes.extend(chunk(*encrypted as u32, offset, payload.len() as u32, name.as_bytes()));
        offset += payload.len() as u32;
    }
    for (_, encrypted, payload) in entries {
        if *encrypted {
            bytes.extend(encrypt(payload));
        } else {
            bytes.extend_from_slice(payload);
        }
    }
    GlbArchive { bytes }
}

fn extract(archive: &GlbArchive) -> Extracted {
    let fat = archive.parse_fat().unwrap();
    archive.extract_files(&fat)
}

fn tile(pixels: &[u8]) -> Vec<u8> {
    let mut bytes = Vec::new();
    for v in [1u32, 0, 1, pixels.len() as u32, 1] {
        bytes.extend_from_slice(&v.to_le_bytes());
    }
    bytes.extend_from_slice(pixels);
    bytes
}

fn tile_pic(pixels: &[u8]) -> Pic {
    Pic {
        filename: String::new(),
        width: pixels.len(),
        height: 1,
        pixels: pixels.iter().map(|p| Some(*p)).collect(),
    }
}

fn failure(index: usize, error: GlbError) -> EntryFailure {
    EntryFailure { index, error }
}

#[test]
fn text_entry_round_trip() {
    let archive = archive(&[("HELLO_TXT", false, b"HELLO".to_vec())]);
    assert_eq!(archive.bytes.len(), 2 * 28 + 5);
    let extracted = extract(&archive);
    assert_eq!(extracted.named_files.len(), 1);
    assert_eq!(extracted.names, vec!["HELLO_TXT".to_string()]);
    assert_eq!(
        extracted.get("HELLO_TXT"),
        Some(&File::Text(Text { filename: "HELLO_TXT".to_string(), text: "HELLO".to_string() }))
    );
    assert!(extracted.tiles.tiles.is_empty());
    assert!(extracted.failures.is_empty());
}

#[test]
fn encrypted_text_entry() {
    let extracted = extract(&archive(&[("NOTE_TXT", true, b"secret text".to_vec())]));
    match extracted.get("NOTE_TXT") {
        Some(File::Text(text)) => assert_eq!(text.text, "secret text"),
        other => panic!("unexpected {:?}", other),
    }
}

#[test]
fn empty_directory_extracts_nothing() {
    let extracted = extract(&archive(&[]));
    assert!(extracted.named_files.is_empty());
    assert!(extracted.names.is_empty());
    assert!(extracted.tiles.tiles.is_empty());
    assert!(extracted.failures.is_empty());
    assert_eq!(extracted.get(""), None);
}

#[test]
fn each_kind_is_decoded_by_its_decoder() {
    let mut raw_pic = Vec::new();
    for v in [1u32, 1, 0, 1, 1] {
        raw_pic.extend_from_slice(&v.to_le_bytes());
    }
    raw_pic.push(42);
    let mut map = vec![0u8; 16 + 4 * 9 * 150];
    map[8] = 3;
    let extracted = extract(&archive(&[
        ("A_TXT", false, b"a".to_vec()),
        ("PALETTE_DAT", false, vec![63, 0, 0]),
        ("SHIP_PIC", true, raw_pic.clone()),
        ("SHIP_PIC//", false, raw_pic.clone()),
        ("ROCK_BLK", false, raw_pic.clone()),
        ("LEVEL_MAP", false, map),
    ]));
    assert!(extracted.failures.is_empty());
    assert_eq!(extracted.named_files.len(), 6);
    assert!(matches!(extracted.get("A_TXT"), Some(File::Text(_))));
    match extracted.get("PALETTE_DAT") {
        Some(File::Palette(p)) => assert_eq!(p.palette[0].red, 255),
        other => panic!("unexpected {:?}", other),
    }
    for name in ["SHIP_PIC", "SHIP_PIC//", "ROCK_BLK"] {
        match extracted.get(name) {
            Some(File::Pic(p)) => {
                assert_eq!(p.filename, name);
                assert_eq!(p.pixels, vec![Some(42)]);
            }
            other => panic!("unexpected {:?}", other),
        }
    }
    match extracted.get("LEVEL_MAP") {
        Some(File::TileMap(m)) => assert_eq!(m.actor_count, 3),
        other => panic!("unexpected {:?}", other),
    }
}

#[test]
fn tiles_are_collected_between_the_markers_in_order() {
    let extracted = extract(&archive(&[
        ("", false, tile(&[1])),
        ("STARTG_TILES", false, vec![]),
        ("", false, tile(&[2, 3])),
        ("", true, tile(&[4])),
        ("ENDG_TILES", false, vec![]),
        ("", false, tile(&[5])),
        ("STARTG", false, vec![]),
        ("", false, tile(&[6])),
    ]));
    assert_eq!(extracted.tiles.tiles, vec![tile_pic(&[2, 3]), tile_pic(&[4]), tile_pic(&[6])]);
    assert_eq!(
        extracted.failures,
        vec![failure(0, GlbError::UnknownEntryKind), failure(5, GlbError::UnknownEntryKind)]
    );
    assert!(extracted.named_files.is_empty());
}

#[test]
fn tiles_ignore_the_third_header_field() {
    let mut bytes = Vec::new();
    for v in [1u32, 0, 9, 2, 1] {
        bytes.extend_from_slice(&v.to_le_bytes());
    }
    bytes.extend_from_slice(&[7, 8]);
    let extracted = extract(&archive(&[("STARTG", false, vec![]), ("", false, bytes)]));
    assert_eq!(extracted.tiles.tiles, vec![tile_pic(&[7, 8])]);
}

#[test]
fn named_entries_are_filed_while_tiles_are_collected() {
    let extracted = extract(&archive(&[
        ("STARTG", false, vec![]),
        ("A_TXT", false, b"x".to_vec()),
        ("", false, tile(&[1])),
    ]));
    assert_eq!(extracted.named_files.len(), 1);
    assert_eq!(extracted.tiles.tiles.len(), 1);
    assert!(extracted.failures.is_empty());
}

#[test]
fn unknown_names_are_skipped_and_reported() {
    let extracted = extract(&archive(&[
        ("MYSTERY", false, vec![1, 2, 3]),
        ("A_TXT", false, b"kept".to_vec()),
        ("TXT_NOT", false, vec![]),
    ]));
    assert_eq!(
        extracted.failures,
        vec![failure(0, GlbError::UnknownEntryKind), failure(2, GlbError::UnknownEntryKind)]
    );
    assert_eq!(extracted.names, vec!["A_TXT".to_string()]);
}

#[test]
fn failed_entries_do_not_stop_the_extraction() {
    let mut overflow = Vec::new();
    for v in [0u32, 0, 1, 1, 1, 0, 0, 0, 2] {
        overflow.extend_from_slice(&v.to_le_bytes());
    }
    overflow.extend_from_slice(&[1, 2]);
    let extracted = extract(&archive(&[
        ("BAD_TXT", false, vec![0xFF]),
        ("BAD_DAT", false, vec![1, 2]),
        ("BAD_PIC", false, overflow),
        ("BAD_MAP", false, vec![0; 100]),
        ("GOOD_TXT", false, b"ok".to_vec()),
    ]));
    assert_eq!(
        extracted.failures,
        vec![
            failure(0, GlbError::InvalidText),
            failure(1, GlbError::OutOfBounds),
            failure(2, GlbError::SpriteOverflow),
            failure(3, GlbError::OutOfBounds),
        ]
    );
    assert_eq!(extracted.names, vec!["GOOD_TXT".to_string()]);
    assert!(extracted.get("BAD_TXT").is_none());
}

#[test]
fn entry_outside_the_archive_is_reported() {
    let archive = GlbArchive { bytes: vec![0; 60] };
    let fat = FileAllocationTable {
        entries: vec![
            FatEntry { filename: "A_TXT".to_string(), flag: Flag::Normal, offset: 58, length: 3 },
            FatEntry { filename: "STARTG".to_string(), flag: Flag::Normal, offset: 61, length: 0 },
            FatEntry { filename: String::new(), flag: Flag::Normal, offset: 0, length: 20 },
            FatEntry { filename: "B_TXT".to_string(), flag: Flag::Normal, offset: 58, length: 2 },
        ],
    };
    assert!(!fat.fits(60));
    let extracted = archive.extract_files(&fat);
    assert_eq!(
        extracted.failures,
        vec![
            failure(0, GlbError::OutOfBounds),
            failure(1, GlbError::OutOfBounds),
            failure(2, GlbError::UnknownEntryKind),
        ]
    );
    assert_eq!(extracted.names, vec!["B_TXT".to_string()]);
}

#[test]
fn later_entry_replaces_an_earlier_one_of_the_same_name() {
    let extracted = extract(&archive(&[
        ("A_TXT", false, b"first".to_vec()),
        ("B_TXT", false, b"other".to_vec()),
        ("A_TXT", false, b"second".to_vec()),
    ]));
    assert_eq!(extracted.names, vec!["A_TXT".to_string(), "B_TXT".to_string()]);
    assert_eq!(extracted.named_files.len(), 2);
    match extracted.get("A_TXT") {
        Some(File::Text(text)) => assert_eq!(text.text, "second"),
        other => panic!("unexpected {:?}", other),
    }
}

#[test]
fn extract_entry_steps_the_mode() {
    let archive = archive(&[("STARTG", false, vec![]), ("", false, tile(&[1]))]);
    let fat = archive.parse_fat().unwrap();
    let mut extracted = Extracted::new();
    let mode = archive.extract_entry(&fat.entries[1], 1, CollectionMode::Idle, &mut extracted);
    assert_eq!(mode, CollectionMode::Idle);
    assert_eq!(extracted.failures, vec![failure(1, GlbError::UnknownEntryKind)]);
    let mode = archive.extract_entry(&fat.entries[0], 0, mode, &mut extracted);
    assert_eq!(mode, CollectionMode::Collecting);
    let mode = archive.extract_entry(&fat.entries[1], 1, mode, &mut extracted);
    assert_eq!(mode, CollectionMode::Collecting);
    assert_eq!(extracted.tiles.tiles, vec![tile_pic(&[1])]);
}

#[test]
fn classify_by_suffix_and_prefix() {
    assert_eq!(classify("README_TXT"), EntryKind::Text);
    assert_eq!(classify("TXT"), EntryKind::Text);
    assert_eq!(classify("PALETTE_DAT"), EntryKind::Palette);
    assert_eq!(classify("SHIP_PIC"), EntryKind::Sprite);
    assert_eq!(classify("SHIP_PIC//"), EntryKind::Sprite);
    assert_eq!(classify("ROCK_BLK"), EntryKind::Sprite);
    assert_eq!(classify("LEVEL1_MAP"), EntryKind::TileMap);
    assert_eq!(classify("STARTG_TILES"), EntryKind::BeginTiles);
    assert_eq!(classify("ENDG_TILES"), EntryKind::EndTiles);
    assert_eq!(classify(""), EntryKind::Anonymous);
    assert_eq!(classify("OTHER"), EntryKind::Unknown);
    assert_eq!(classify("_PIC/"), EntryKind::Unknown);
    assert_eq!(classify("XT"), EntryKind::Unknown);
    assert_eq!(classify("DAT"), EntryKind::Unknown);
    assert_eq!(classify("A_TXT_"), EntryKind::Unknown);
    assert_eq!(classify("XSTARTG"), EntryKind::Unknown);
    assert_eq!(classify("START"), EntryKind::Unknown);
    assert_eq!(classify("endg"), EntryKind::Unknown);
}

#[test]
fn classify_tries_the_rules_in_order() {
    assert_eq!(classify("STARTG_TXT"), EntryKind::Text);
    assert_eq!(classify("ENDG_MAP"), EntryKind::TileMap);
    assert_eq!(classify("STARTGENDG"), EntryKind::BeginTiles);
    assert_eq!(classify("_DATTXT"), EntryKind::Text);
}

#[test]
fn mode_steps() {
    let idle = CollectionMode::Idle;
    let collecting = CollectionMode::Collecting;
    assert_eq!(next_mode(idle, EntryKind::BeginTiles), collecting);
    assert_eq!(next_mode(collecting, EntryKind::BeginTiles), collecting);
    assert_eq!(next_mode(collecting, EntryKind::EndTiles), idle);
    assert_eq!(next_mode(idle, EntryKind::EndTiles), idle);
    for kind in [
        EntryKind::Text,
        EntryKind::Palette,
        EntryKind::Sprite,
        EntryKind::TileMap,
        EntryKind::Anonymous,
        EntryKind::Unknown,
    ] {
        assert_eq!(next_mode(idle, kind), idle);
        assert_eq!(next_mode(collecting, kind), collecting);
    }
}

#[test]
fn extracted_insert_push_and_report() {
    let mut extracted = Extracted::new();
    let text = |s: &str| File::Text(Text { filename: "N".to_string(), text: s.to_string() });
    extracted.insert("N".to_string(), text("one"));
    extracted.insert("N".to_string(), text("two"));
    extracted.push_tile(tile_pic(&[1]));
    extracted.report(4, GlbError::InvalidText);
    assert_eq!(extracted.names, vec!["N".to_string()]);
    assert_eq!(extracted.get("N"), Some(&text("two")));
    assert_eq!(extracted.get("M"), None);
    assert_eq!(extracted.tiles.tiles.len(), 1);
    assert_eq!(extracted.failures, vec![failure(4, GlbError::InvalidText)]);
}

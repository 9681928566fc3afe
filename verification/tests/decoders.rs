use glb_rs::file::{blank_grid, scale_channel};
use glb_rs::{ArgbPixel, FatEntry, Flag, GlbArchive, GlbError, Palette, Pic, Text, UntypedFile};

fn encrypt(plain: &[u8]) -> Vec<u8> {
    let key = glb_rs::ENCRYPTION_KEY;
    let mut cursor = 25 % key.len();
    let mut previous = key[cursor];
    let mut out = Vec::new();
    for p in plain {
        let c = p.wrapping_add(key[cursor]).wrapping_add(previous);
        out.push(c);
        previous = c;
        cursor = (cursor + 1) % key.len();
    }
    out
}

fn file(bytes: Vec<u8>, name: &str) -> UntypedFile {
    UntypedFile::new(bytes, name.to_string())
}

fn words(values: &[u32]) -> Vec<u8> {
    let mut out = Vec::new();
    for v in values {
        out.extend_from_slice(&v.to_le_bytes());
    }
    out
}

fn entry(name: &str, flag: Flag, offset: u32, length: u32) -> FatEntry {
    FatEntry { filename: name.to_string(), flag, offset, length }
}

fn color(red: u8, green: u8, blue: u8) -> ArgbPixel {
    ArgbPixel { alpha: 255, red, green, blue }
}

#[test]
fn read_file_copies_a_plain_payload() {
    let archive = GlbArchive { bytes: vec![9, 8, 7, 6, 5, 4] };
    let read = UntypedFile::read_file(&archive, &entry("A", Flag::Normal, 2, 3)).unwrap();
    assert_eq!(read, file(vec![7, 6, 5], "A"));
    assert_eq!(read.name(), "A");
    assert_eq!(read.filename, "A");
    assert_eq!(read.bytes().as_slice(), &[7, 6, 5]);
}

#[test]
fn read_file_decrypts_an_encrypted_payload_as_one_unit() {
    let plain: Vec<u8> = (0..100).collect();
    let mut bytes = vec![0xAA; 10];
    bytes.extend(encrypt(&plain));
    let archive = GlbArchive { bytes };
    let read = UntypedFile::read_file(&archive, &entry("B", Flag::Encrypted, 10, 100)).unwrap();
    assert_eq!(read, file(plain, "B"));
}

#[test]
fn read_file_may_reach_the_last_byte() {
    let archive = GlbArchive { bytes: vec![1, 2, 3] };
    let read = UntypedFile::read_file(&archive, &entry("", Flag::Normal, 0, 3)).unwrap();
    assert_eq!(read.bytes().len(), 3);
    let read = UntypedFile::read_file(&archive, &entry("", Flag::Normal, 3, 0)).unwrap();
    assert_eq!(read.bytes().len(), 0);
}

#[test]
fn read_file_out_of_bounds() {
    let archive = GlbArchive { bytes: vec![1, 2, 3] };
    for (offset, length) in [(0, 4), (3, 1), (4, 0), (0xFFFF_FFFF, 0xFFFF_FFFF), (2, 0xFFFF_FFFF)] {
        let read = UntypedFile::read_file(&archive, &entry("A", Flag::Normal, offset, length));
        assert_eq!(read, Err(GlbError::OutOfBounds));
    }
}

#[test]
fn text_is_stored_verbatim() {
    let text = file(b"HELLO\r\nworld".to_vec(), "README_TXT").get_txt();
    assert_eq!(
        text,
        Ok(Text { filename: "README_TXT".to_string(), text: "HELLO\r\nworld".to_string() })
    );
}

#[test]
fn text_that_is_not_utf8_is_refused() {
    assert_eq!(file(vec![0x48, 0xFF], "A_TXT").get_txt(), Err(GlbError::InvalidText));
}

#[test]
fn channel_scaling_exact_values() {
    assert_eq!(scale_channel(0), 0);
    assert_eq!(scale_channel(1), 4);
    assert_eq!(scale_channel(32), 129);
    assert_eq!(scale_channel(62), 250);
    assert_eq!(scale_channel(63), 255);
}

#[test]
fn channel_scaling_is_monotonic_on_six_bits() {
    for c in 0u8..63 {
        assert!(scale_channel(c) <= scale_channel(c + 1));
        assert_eq!(scale_channel(c) as u32, c as u32 * 255 / 63);
    }
}

#[test]
fn channel_scaling_wraps_above_six_bits() {
    assert_eq!(scale_channel(64), 3);
    assert_eq!(scale_channel(255), 8);
}

#[test]
fn palette_has_one_opaque_color_per_group() {
    let palette = file(vec![0, 63, 32, 63, 0, 1], "PALETTE_DAT").get_dat();
    assert_eq!(
        palette,
        Ok(Palette {
            filename: "PALETTE_DAT".to_string(),
            palette: vec![color(0, 255, 129), color(255, 0, 4)],
        })
    );
    assert_eq!(file(vec![], "P_DAT").get_dat().unwrap().palette.len(), 0);
    assert_eq!(file(vec![0; 768], "P_DAT").get_dat().unwrap().palette.len(), 256);
}

#[test]
fn palette_that_ends_inside_a_group_is_refused() {
    assert_eq!(file(vec![1, 2, 3, 4], "P_DAT").get_dat(), Err(GlbError::OutOfBounds));
    assert_eq!(file(vec![1, 2], "P_DAT").get_dat(), Err(GlbError::OutOfBounds));
}

#[test]
fn raw_sprite() {
    let mut bytes = words(&[1, 1, 0, 3, 2]);
    bytes.extend_from_slice(&[10, 11, 12, 13, 14, 15]);
    let pic = file(bytes, "SHIP_PIC").get_pic().unwrap();
    assert_eq!(
        pic,
        Pic {
            filename: "SHIP_PIC".to_string(),
            width: 3,
            height: 2,
            pixels: vec![Some(10), Some(11), Some(12), Some(13), Some(14), Some(15)],
        }
    );
}

#[test]
fn raw_sprite_ignores_excess_bytes() {
    let mut bytes = words(&[1, 1, 0, 2, 1]);
    bytes.extend_from_slice(&[1, 2, 3, 4, 5]);
    let pic = file(bytes, "A_PIC").get_pic().unwrap();
    assert_eq!(pic.pixels, vec![Some(1), Some(2)]);
    assert_eq!(pic.pixels.len(), pic.width * pic.height);
}

#[test]
fn raw_sprite_with_too_few_bytes_is_refused() {
    let mut bytes = words(&[1, 1, 0, 2, 2]);
    bytes.extend_from_slice(&[1, 2, 3]);
    assert_eq!(file(bytes, "A_PIC").get_pic(), Err(GlbError::OutOfBounds));
    let bytes = words(&[1, 1, 0, 0xFFFF_FFFF, 0xFFFF_FFFF]);
    assert_eq!(file(bytes, "A_PIC").get_pic(), Err(GlbError::OutOfBounds));
}

#[test]
fn sprite_header_must_be_whole() {
    assert_eq!(file(vec![0; 19], "A_PIC").get_pic(), Err(GlbError::OutOfBounds));
    assert_eq!(file(vec![0; 19], "").get_tile(), Err(GlbError::OutOfBounds));
    assert_eq!(file(vec![], "A_PIC").get_pic(), Err(GlbError::OutOfBounds));
}

#[test]
fn empty_sprite() {
    let pic = file(words(&[1, 1, 0, 0, 5]), "A_PIC").get_pic().unwrap();
    assert_eq!((pic.width, pic.height, pic.pixels.len()), (0, 5, 0));
}

#[test]
fn span_sprite_leaves_unwritten_cells_transparent() {
    let mut bytes = words(&[0, 0, 2, 4, 3]);
    bytes.extend(words(&[1, 0, 1, 2]));
    bytes.extend_from_slice(&[7, 8]);
    bytes.extend(words(&[2, 2, 10, 1]));
    bytes.extend_from_slice(&[9]);
    bytes.extend(words(&[0, 0, 0xFFFF_FFFF, 0xFFFF_FFFF]));
    let pic = file(bytes, "EXPL_BLK").get_pic().unwrap();
    let mut pixels = vec![None; 12];
    pixels[1] = Some(7);
    pixels[2] = Some(8);
    pixels[10] = Some(9);
    assert_eq!(pic.pixels.len(), pic.width * pic.height);
    assert_eq!(pic, Pic { filename: "EXPL_BLK".to_string(), width: 4, height: 3, pixels });
}

#[test]
fn later_span_overwrites_earlier_span() {
    let mut bytes = words(&[0, 0, 1, 2, 2]);
    bytes.extend(words(&[0, 0, 0, 4]));
    bytes.extend_from_slice(&[1, 2, 3, 4]);
    bytes.extend(words(&[1, 0, 1, 2]));
    bytes.extend_from_slice(&[8, 9]);
    bytes.extend(words(&[0, 0, 0xFFFF_FFFF, 0xFFFF_FFFF]));
    bytes.extend_from_slice(&[0xEE; 7]);
    let pic = file(bytes, "A_PIC").get_pic().unwrap();
    assert_eq!(pic.pixels, vec![Some(1), Some(8), Some(9), Some(4)]);
}

#[test]
fn span_position_goes_by_column_and_row_not_by_linear_offset() {
    let mut bytes = words(&[0, 0, 1, 3, 2]);
    bytes.extend(words(&[2, 1, 0, 1]));
    bytes.extend_from_slice(&[5]);
    bytes.extend(words(&[0, 0, 0xFFFF_FFFF, 0xFFFF_FFFF]));
    let pic = file(bytes, "A_PIC").get_pic().unwrap();
    assert_eq!(pic.pixels, vec![None, None, None, None, None, Some(5)]);
}

#[test]
fn sentinel_needs_both_fields() {
    let mut bytes = words(&[0, 0, 1, 1, 1]);
    bytes.extend(words(&[0, 0, 0xFFFF_FFFF, 0]));
    bytes.extend(words(&[0, 0, 0xFFFF_FFFF, 0xFFFF_FFFF]));
    let pic = file(bytes, "A_PIC").get_pic().unwrap();
    assert_eq!(pic.pixels, vec![None]);
    let mut bytes = words(&[0, 0, 1, 1, 1]);
    bytes.extend(words(&[0, 0, 0, 0xFFFF_FFFF]));
    assert_eq!(file(bytes, "A_PIC").get_pic(), Err(GlbError::SpriteOverflow));
}

#[test]
fn span_past_the_grid_is_sprite_overflow() {
    let mut bytes = words(&[0, 0, 1, 2, 2]);
    bytes.extend(words(&[1, 1, 3, 2]));
    bytes.extend_from_slice(&[1, 2]);
    bytes.extend(words(&[0, 0, 0xFFFF_FFFF, 0xFFFF_FFFF]));
    assert_eq!(file(bytes, "A_PIC").get_pic(), Err(GlbError::SpriteOverflow));
    let mut bytes = words(&[0, 0, 1, 2, 2]);
    bytes.extend(words(&[0xFFFF_FFFF, 0xFFFF_FFFF, 0, 0xFFFF_FFFE]));
    assert_eq!(file(bytes, "A_PIC").get_pic(), Err(GlbError::SpriteOverflow));
}

#[test]
fn span_may_end_at_the_last_cell() {
    let mut bytes = words(&[0, 0, 1, 2, 2]);
    bytes.extend(words(&[1, 1, 3, 1]));
    bytes.extend_from_slice(&[6]);
    bytes.extend(words(&[0, 0, 0xFFFF_FFFF, 0xFFFF_FFFF]));
    let pic = file(bytes, "A_PIC").get_pic().unwrap();
    assert_eq!(pic.pixels, vec![None, None, None, Some(6)]);
}

#[test]
fn span_stream_without_sentinel_is_refused() {
    let mut bytes = words(&[0, 0, 1, 2, 2]);
    bytes.extend(words(&[0, 0, 0, 1]));
    bytes.extend_from_slice(&[1]);
    assert_eq!(file(bytes.clone(), "A_PIC").get_pic(), Err(GlbError::OutOfBounds));
    bytes.extend_from_slice(&[0xFF; 15]);
    assert_eq!(file(bytes, "A_PIC").get_pic(), Err(GlbError::OutOfBounds));
}

#[test]
fn span_with_too_few_bytes_is_refused() {
    let mut bytes = words(&[0, 0, 1, 4, 4]);
    bytes.extend(words(&[0, 0, 0, 5]));
    bytes.extend_from_slice(&[1, 2, 3, 4]);
    assert_eq!(file(bytes, "A_PIC").get_pic(), Err(GlbError::OutOfBounds));
}

#[test]
fn tile_is_always_raw() {
    let mut bytes = words(&[1, 0, 1, 2, 2]);
    bytes.extend_from_slice(&[4, 3, 2, 1]);
    let tile = file(bytes.clone(), "").get_tile().unwrap();
    assert_eq!(
        tile,
        Pic {
            filename: String::new(),
            width: 2,
            height: 2,
            pixels: vec![Some(4), Some(3), Some(2), Some(1)],
        }
    );
    bytes.truncate(23);
    assert_eq!(file(bytes, "").get_tile(), Err(GlbError::OutOfBounds));
}

#[test]
fn blank_grid_is_transparent() {
    assert_eq!(blank_grid(3), vec![None, None, None]);
    assert_eq!(blank_grid(0), Vec::<Option<u8>>::new());
}

fn map_bytes() -> Vec<u8> {
    let mut bytes = words(&[5416, 0x1524, 17, 0]);
    for y in 0..150u16 {
        for x in 0..9u16 {
            bytes.extend_from_slice(&(y * 9 + x).to_le_bytes());
            bytes.extend_from_slice(&0xABCDu16.to_le_bytes());
        }
    }
    bytes
}

#[test]
fn tile_map_is_9_by_150() {
    let map = file(map_bytes(), "LEVEL1_MAP").get_map().unwrap();
    assert_eq!(map.filename, "LEVEL1_MAP");
    assert_eq!((map.width, map.height), (9, 150));
    assert_eq!(map.actor_count, 17);
    assert_eq!(map.tiles.len(), 150);
    for y in 0..150 {
        assert_eq!(map.tiles[y].len(), 9);
        for x in 0..9 {
            assert_eq!(map.tiles[y][x] as usize, y * 9 + x);
        }
    }
}

#[test]
fn tile_map_ignores_excess_bytes() {
    let mut bytes = map_bytes();
    bytes.extend_from_slice(&[1; 24]);
    let map = file(bytes, "L_MAP").get_map().unwrap();
    assert_eq!(map.tiles[149][8], 1349);
}

#[test]
fn tile_map_with_too_few_bytes_is_refused() {
    let mut bytes = map_bytes();
    bytes.pop();
    assert_eq!(file(bytes, "L_MAP").get_map(), Err(GlbError::OutOfBounds));
    assert_eq!(file(vec![0; 16], "L_MAP").get_map(), Err(GlbError::OutOfBounds));
}

#[test]
fn colors_of_a_sprite() {
    let palette = Palette {
        filename: "P".to_string(),
        palette: vec![color(1, 2, 3), color(4, 5, 6)],
    };
    let pic = Pic {
        filename: "A".to_string(),
        width: 3,
        height: 1,
        pixels: vec![Some(1), None, Some(0)],
    };
    assert!(pic.fits_palette(&palette));
    assert_eq!(
        pic.get_argb(&palette),
        vec![
            color(4, 5, 6),
            ArgbPixel { alpha: 0, red: 0, green: 0, blue: 0 },
            color(1, 2, 3),
        ]
    );
}

#[test]
fn palette_too_short_for_a_sprite() {
    let palette = Palette { filename: "P".to_string(), palette: vec![color(1, 2, 3)] };
    let pic =
        Pic { filename: "A".to_string(), width: 2, height: 1, pixels: vec![None, Some(1)] };
    assert!(!pic.fits_palette(&palette));
    let pic = Pic { filename: "A".to_string(), width: 2, height: 1, pixels: vec![None, None] };
    assert!(pic.fits_palette(&Palette { filename: String::new(), palette: vec![] }));
}

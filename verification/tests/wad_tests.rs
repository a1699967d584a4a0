use goldsrc_bsp::error::Error;
use goldsrc_bsp::gold_src_30::Texture;
use goldsrc_bsp::texture::{missing_textures, parse_texture};
use goldsrc_bsp::wad::{truncate_name, TextureTable, WadManager};
use goldsrc_bsp::{BspDecoder, WadDecoder};

fn push_i32(out: &mut Vec<u8>, v: i32) {
    out.extend_from_slice(&v.to_le_bytes());
}

fn name16(name: &str) -> [u8; 16] {
    let mut out = [0u8; 16];
    out[..name.len()].copy_from_slice(name.as_bytes());
    out
}

/// A texture record: 40-byte header, then (only when the first mip
/// offset is positive) the index bytes and a 768-byte palette.
fn texture_record(name: &str, width: u32, height: u32, mip: &[u8], palette: &[u8]) -> Vec<u8> {
    let mut out = Vec::new();
    out.extend_from_slice(&name16(name));
    out.extend_from_slice(&width.to_le_bytes());
    out.extend_from_slice(&height.to_le_bytes());
    let first_offset: u32 = if mip.is_empty() { 0 } else { 40 };
    out.extend_from_slice(&first_offset.to_le_bytes());
    for _ in 0..3 {
        out.extend_from_slice(&0u32.to_le_bytes());
    }
    if !mip.is_empty() {
        assert_eq!(mip.len(), (width * height) as usize);
        assert_eq!(palette.len(), 768);
        out.extend_from_slice(mip);
        out.extend_from_slice(palette);
    }
    out
}

/// An archive: magic, directory count and offset, the texture records,
/// then the 32-byte directory entries.
fn build_wad(magic: &[u8; 4], entries: &[(Vec<u8>, &str, u8, u8, i32)]) -> Vec<u8> {
    let mut data = Vec::new();
    data.extend_from_slice(magic);
    push_i32(&mut data, entries.len() as i32);
    let dir_offset_pos = data.len();
    push_i32(&mut data, 0);
    let mut placed = Vec::new();
    for (record, _, _, _, _) in entries {
        placed.push(data.len() as i32);
        data.extend_from_slice(record);
    }
    let dir_offset = data.len() as i32;
    data[dir_offset_pos..dir_offset_pos + 4].copy_from_slice(&dir_offset.to_le_bytes());
    for (i, (record, name, kind, compression, size_delta)) in entries.iter().enumerate() {
        push_i32(&mut data, placed[i]);
        push_i32(&mut data, record.len() as i32);
        push_i32(&mut data, record.len() as i32 + size_delta);
        data.push(*kind);
        data.push(*compression);
        data.extend_from_slice(&0i16.to_le_bytes());
        data.extend_from_slice(&name16(name));
    }
    data
}

fn key_palette() -> Vec<u8> {
    // Entry 0 is (10, 20, 30); entry 1 is the color key (0, 0, 255).
    let mut palette = vec![0u8; 768];
    palette[0] = 10;
    palette[1] = 20;
    palette[2] = 30;
    palette[3] = 0;
    palette[4] = 0;
    palette[5] = 255;
    palette
}

#[test]
fn end_to_end_wad_with_color_key() {
    // One uncompressed type-0x43 entry: a 2x2 texture whose palette index
    // 1, used by exactly one pixel, maps to RGB (0, 0, 255).
    let record = texture_record("TEST", 2, 2, &[0, 1, 0, 0], &key_palette());
    let data = build_wad(b"WAD3", &[(record, "TEST", 0x43, 0, 0)]);
    let wad = WadDecoder::from_reader(data).decode().expect("the archive decodes");
    assert_eq!(wad.textures.len(), 1);
    let texture = wad.textures.get(b"TEST").expect("the texture is found by name");
    assert_eq!(texture.width, 2);
    assert_eq!(texture.height, 2);
    assert_eq!(texture.mip, vec![0, 1, 0, 0]);
    assert!(wad.textures.get(b"OTHER").is_none());

    let (transparent, rgba) = parse_texture(texture);
    assert!(transparent);
    assert_eq!(rgba.len(), 16);
    assert_eq!(&rgba[0..4], &[10, 20, 30, 255]);
    assert_eq!(&rgba[4..8], &[0, 0, 255, 0]);
    assert_eq!(&rgba[8..12], &[10, 20, 30, 255]);
    assert_eq!(&rgba[12..16], &[10, 20, 30, 255]);
    let alpha_zero = rgba.chunks(4).filter(|px| px[3] == 0).count();
    assert_eq!(alpha_zero, 1);
}

#[test]
fn wad4_magic_fails_before_directory() {
    let record = texture_record("TEST", 2, 2, &[0, 1, 0, 0], &key_palette());
    let data = build_wad(b"WAD4", &[(record, "TEST", 0x43, 0, 0)]);
    match WadDecoder::from_reader(data).decode() {
        Err(Error::InvalidWadFormat) => {}
        Err(other) => panic!("expected the invalid-format error, got {:?}", other),
        Ok(_) => panic!("a WAD4 magic must not decode"),
    }
}

#[test]
fn wad2_magic_is_accepted() {
    let record = texture_record("OLD", 1, 1, &[0], &key_palette());
    let data = build_wad(b"WAD2", &[(record, "OLD", 0x43, 0, 0)]);
    let wad = WadDecoder::from_reader(data).decode().expect("WAD2 decodes");
    assert_eq!(wad.textures.len(), 1);
}

#[test]
fn ineligible_and_broken_entries_are_skipped() {
    let good = texture_record("GOOD", 1, 1, &[0], &key_palette());
    let compressed = texture_record("PACKED", 1, 1, &[0], &key_palette());
    let wrong_kind = texture_record("DECAL", 1, 1, &[0], &key_palette());
    let mismatched = texture_record("HALF", 1, 1, &[0], &key_palette());
    // A bare 40-byte header; its first mip offset is patched positive
    // below, so it claims pixel data the file does not hold.
    let truncated = texture_record("CUT", 4, 4, &[], &[]);
    let cut_offset_pos =
        12 + good.len() + compressed.len() + wrong_kind.len() + mismatched.len() + 24;
    let mut data = build_wad(
        b"WAD3",
        &[
            (good, "GOOD", 0x43, 0, 0),
            (compressed, "PACKED", 0x43, 1, 0),
            (wrong_kind, "DECAL", 0x40, 0, 0),
            (mismatched, "HALF", 0x43, 0, -4),
            (truncated, "CUT", 0x43, 0, 0),
        ],
    );
    data[cut_offset_pos..cut_offset_pos + 4].copy_from_slice(&40u32.to_le_bytes());
    let wad = WadDecoder::from_reader(data).decode().expect("the archive decodes");
    assert_eq!(wad.textures.len(), 1);
    assert!(wad.textures.get(b"GOOD").is_some());
    assert!(wad.textures.get(b"PACKED").is_none());
    assert!(wad.textures.get(b"DECAL").is_none());
    assert!(wad.textures.get(b"HALF").is_none());
    assert!(wad.textures.get(b"CUT").is_none());
}

#[test]
fn table_lookup_returns_latest_entry() {
    let mut table = TextureTable::new();
    let mut first = Texture {
        name: name16("WALL"),
        width: 4,
        height: 4,
        offsets: [0; 4],
        mip: Vec::new(),
        palette: Vec::new(),
    };
    table.insert(b"WALL".to_vec(), first.clone());
    first.width = 8;
    table.insert(b"WALL".to_vec(), first);
    assert_eq!(table.len(), 2);
    let found = table.get(b"WALL").expect("the name is present");
    assert_eq!(found.width, 8);
    assert!(table.get(b"FLOOR").is_none());
}

#[test]
fn manager_keeps_only_sized_textures_and_later_archives_win() {
    let a_old = texture_record("ALPHA", 1, 1, &[0], &key_palette());
    let degenerate = texture_record("FLAT", 0, 0, &[], &[]);
    let first = build_wad(
        b"WAD3",
        &[(a_old, "ALPHA", 0x43, 0, 0), (degenerate, "FLAT", 0x43, 0, 0)],
    );
    let a_new = texture_record("ALPHA", 2, 2, &[0, 0, 0, 0], &key_palette());
    let second = build_wad(b"WAD3", &[(a_new, "ALPHA", 0x43, 0, 0)]);

    let mut manager = WadManager::new();
    let wad1 = WadDecoder::from_reader(first).decode().expect("first archive");
    let wad2 = WadDecoder::from_reader(second).decode().expect("second archive");
    assert!(wad1.textures.get(b"FLAT").is_some());
    manager.add_wad(wad1);
    manager.add_wad(wad2);
    // The zero-sized texture was dropped; the later archive's ALPHA won.
    assert!(manager.textures.get(b"FLAT").is_none());
    let alpha = manager.textures.get(b"ALPHA").expect("ALPHA is present");
    assert_eq!(alpha.width, 2);
}

#[test]
fn truncate_name_cuts_at_first_nul() {
    assert_eq!(truncate_name(&name16("BRICK")), b"BRICK".to_vec());
    assert_eq!(truncate_name(&[0u8; 16]), Vec::<u8>::new());
    let mut padded = name16("AB");
    padded[5] = b'Z';
    assert_eq!(truncate_name(&padded), b"AB".to_vec());
}

#[test]
fn missing_texture_report_names_unresolved_externals() {
    // A map whose texture lump holds two external textures (first mip
    // offset zero) and one embedded texture.
    let mut tex_lump = Vec::new();
    push_i32(&mut tex_lump, 3);
    let headers = [
        texture_record("CRATE", 2, 2, &[], &[]),
        texture_record("GRATE", 2, 2, &[], &[]),
        texture_record("HOME", 1, 1, &[7], &key_palette()),
    ];
    let mut offset = 4 + 3 * 4;
    for h in &headers {
        push_i32(&mut tex_lump, offset);
        offset += h.len() as i32;
    }
    for h in &headers {
        tex_lump.extend_from_slice(h);
    }
    let mut data = Vec::new();
    push_i32(&mut data, 30);
    data.resize(132, 0);
    let lump_off = data.len() as i32;
    data.extend_from_slice(&tex_lump);
    data[4 + 2 * 8..4 + 2 * 8 + 4].copy_from_slice(&lump_off.to_le_bytes());
    data[4 + 2 * 8 + 4..4 + 2 * 8 + 8].copy_from_slice(&(tex_lump.len() as i32).to_le_bytes());

    let mut decoder = BspDecoder::from_reader(data).expect("identifier is 30");
    let bsp = decoder.decode_gold_src_30().expect("the map decodes");
    assert_eq!(bsp.textures.len(), 3);

    // The archive table supplies CRATE but not GRATE.
    let supplied = texture_record("CRATE", 1, 1, &[0], &key_palette());
    let archive = build_wad(b"WAD3", &[(supplied, "CRATE", 0x43, 0, 0)]);
    let mut manager = WadManager::new();
    manager.add_wad(WadDecoder::from_reader(archive).decode().expect("archive"));

    let report = missing_textures(&bsp, &manager);
    assert_eq!(report, vec![b"GRATE".to_vec()]);
}

#[test]
fn face_projection_carries_texture_dimensions() {
    // A map with one texture info and one embedded texture: the face's
    // projection resolves both and carries the texture's dimensions.
    let mut tex_lump = Vec::new();
    push_i32(&mut tex_lump, 1);
    push_i32(&mut tex_lump, 8);
    tex_lump.extend_from_slice(&texture_record("HOME", 1, 1, &[0], &key_palette()));

    let mut texinfo = Vec::new();
    for v in [1.0f32, 0.0, 0.0] {
        texinfo.extend_from_slice(&v.to_le_bytes());
    }
    texinfo.extend_from_slice(&4.0f32.to_le_bytes());
    for v in [0.0f32, 1.0, 0.0] {
        texinfo.extend_from_slice(&v.to_le_bytes());
    }
    texinfo.extend_from_slice(&8.0f32.to_le_bytes());
    texinfo.extend_from_slice(&0u32.to_le_bytes()); // texture index
    texinfo.extend_from_slice(&0u32.to_le_bytes()); // flags

    let mut face = Vec::new();
    face.extend_from_slice(&0u16.to_le_bytes()); // plane (dangling, lenient)
    face.extend_from_slice(&0u16.to_le_bytes());
    face.extend_from_slice(&0u32.to_le_bytes());
    face.extend_from_slice(&0u16.to_le_bytes());
    face.extend_from_slice(&0u16.to_le_bytes()); // texture info 0
    face.extend_from_slice(&[0, 0, 0, 0]);
    face.extend_from_slice(&0u32.to_le_bytes());

    let mut data = Vec::new();
    push_i32(&mut data, 30);
    data.resize(132, 0);
    let tex_off = data.len() as i32;
    data.extend_from_slice(&tex_lump);
    let ti_off = data.len() as i32;
    data.extend_from_slice(&texinfo);
    let face_off = data.len() as i32;
    data.extend_from_slice(&face);
    for (slot, off, len) in [
        (2usize, tex_off, tex_lump.len() as i32),
        (6, ti_off, texinfo.len() as i32),
        (7, face_off, face.len() as i32),
    ] {
        data[4 + slot * 8..4 + slot * 8 + 4].copy_from_slice(&off.to_le_bytes());
        data[4 + slot * 8 + 4..4 + slot * 8 + 8].copy_from_slice(&len.to_le_bytes());
    }

    let mut decoder = BspDecoder::from_reader(data).expect("identifier is 30");
    let bsp = decoder.decode_gold_src_30().expect("the map decodes");
    assert_eq!(bsp.texture_info.len(), 1);
    assert_eq!(bsp.textures.len(), 1);
    let (frame, _) = goldsrc_bsp::geometry::build_face_geometry(&bsp, 0);
    let projection = frame.projection.expect("texture info and texture resolve");
    assert_eq!(projection.texture_width, 1);
    assert_eq!(projection.texture_height, 1);
    assert_eq!(projection.s_shift, 4.0f32.to_bits());
    assert_eq!(projection.t_shift, 8.0f32.to_bits());
    assert_eq!(projection.s_vector.x, 1.0f32.to_bits());
    assert_eq!(projection.t_vector.y, 1.0f32.to_bits());
}

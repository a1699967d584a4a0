use goldsrc_bsp::bytes::ByteReader;
use goldsrc_bsp::error::{CustomKind, Error};
use goldsrc_bsp::gold_src_30::{decode_header, Contents, Header, Lump, PlaneType, SurfEdge};
use goldsrc_bsp::{BspDecoder, BspVersion};

fn push_i32(out: &mut Vec<u8>, v: i32) {
    out.extend_from_slice(&v.to_le_bytes());
}

/// Assembles a version-30 file: identifier, directory, and the given
/// lumps (by directory slot) packed after the header. Unless the caller
/// supplies one, the texture lump holds a zero count.
fn build_bsp(lumps: &[(usize, Vec<u8>)]) -> Vec<u8> {
    let mut data = Vec::new();
    push_i32(&mut data, 30);
    data.resize(132, 0);
    let mut dir: Vec<(i32, i32)> = vec![(0, 0); 16];
    if !lumps.iter().any(|(s, _)| *s == 2) {
        let off = data.len() as i32;
        push_i32(&mut data, 0);
        dir[2] = (off, 4);
    }
    for (slot, bytes) in lumps {
        let off = data.len() as i32;
        data.extend_from_slice(bytes);
        dir[*slot] = (off, bytes.len() as i32);
    }
    for (i, (off, len)) in dir.iter().enumerate() {
        let p = 4 + 8 * i;
        data[p..p + 4].copy_from_slice(&off.to_le_bytes());
        data[p + 4..p + 8].copy_from_slice(&len.to_le_bytes());
    }
    data
}

#[test]
fn test_header_size() {
    let size = std::mem::size_of::<Header>();

    assert_eq!(size, 132);
}

#[test]
fn header_round_trip_sixteen_pairs() {
    // A synthetic header: ident 30, then 16 known (offset, length) pairs.
    let mut data = Vec::new();
    push_i32(&mut data, 30);
    for i in 0..16i32 {
        push_i32(&mut data, 1000 + 2 * i);
        push_i32(&mut data, 17 * i);
    }
    assert_eq!(data.len(), 132);
    let mut reader = ByteReader::new(data);
    reader.seek(4);
    let header = decode_header(&mut reader, 30).expect("header must decode");
    assert_eq!(header.ident, 30);
    for i in 0..16i32 {
        assert_eq!(header.lumps[i as usize].file_offset, 1000 + 2 * i);
        assert_eq!(header.lumps[i as usize].len, 17 * i);
    }
}

#[test]
fn header_short_buffer_is_io_error() {
    let mut data = Vec::new();
    push_i32(&mut data, 30);
    push_i32(&mut data, 0);
    let mut reader = ByteReader::new(data);
    reader.seek(4);
    assert_eq!(decode_header(&mut reader, 30).unwrap_err(), Error::Io);
}

#[test]
fn ident_30_is_gold_src() {
    assert_eq!(BspVersion::from_ident(30), Ok(BspVersion::GoldSrc30));
}

#[test]
fn ident_other_than_30_is_rejected() {
    // Negative: any identifier other than 30 fails and returns no structure.
    match BspVersion::from_ident(29) {
        Err(Error::InvalidOrUnimplementedIdent { ident }) => assert_eq!(ident, 29),
        other => panic!("expected unsupported-identifier error, got {:?}", other),
    }
    let mut data = Vec::new();
    push_i32(&mut data, 31);
    data.resize(256, 0);
    match BspDecoder::from_reader(data) {
        Err(Error::InvalidOrUnimplementedIdent { ident }) => assert_eq!(ident, 31),
        Err(other) => panic!("expected unsupported-identifier error, got {:?}", other),
        Ok(_) => panic!("a file with identifier 31 must not decode"),
    }
}

#[test]
fn short_file_is_io_error() {
    match BspDecoder::from_reader(vec![30, 0]) {
        Err(Error::Io) => {}
        Err(other) => panic!("expected an end-of-data error, got {:?}", other),
        Ok(_) => panic!("a two-byte file must not decode"),
    }
}

#[test]
fn plane_type_codes() {
    assert_eq!(PlaneType::try_from(0), Ok(PlaneType::X));
    assert_eq!(PlaneType::try_from(1), Ok(PlaneType::Y));
    assert_eq!(PlaneType::try_from(2), Ok(PlaneType::Z));
    assert_eq!(PlaneType::try_from(3), Ok(PlaneType::AnyX));
    assert_eq!(PlaneType::try_from(4), Ok(PlaneType::AnyY));
    assert_eq!(PlaneType::try_from(5), Ok(PlaneType::AnyZ));
    assert_eq!(
        PlaneType::try_from(6),
        Err(Error::Custom(CustomKind::PlaneType))
    );
    assert_eq!(
        PlaneType::try_from(-1),
        Err(Error::Custom(CustomKind::PlaneType))
    );
}

#[test]
fn contents_codes() {
    assert_eq!(Contents::try_from(-1), Ok(Contents::Empty));
    assert_eq!(Contents::try_from(-2), Ok(Contents::Solid));
    assert_eq!(Contents::try_from(-15), Ok(Contents::Translucent));
    assert_eq!(
        Contents::try_from(0),
        Err(Error::Custom(CustomKind::Contents))
    );
    assert_eq!(
        Contents::try_from(-16),
        Err(Error::Custom(CustomKind::Contents))
    );
}

#[test]
fn lump_truncation_takes_floor_of_length() {
    // A surfedge record is 4 bytes; a 10-byte lump yields floor(10/4) = 2
    // records, and the 2 remainder bytes are never read.
    let mut surfedges = Vec::new();
    push_i32(&mut surfedges, 7);
    push_i32(&mut surfedges, -9);
    surfedges.push(0xAA);
    surfedges.push(0xBB);
    let data = build_bsp(&[(13, surfedges)]);
    let mut decoder = BspDecoder::from_reader(data).expect("identifier is 30");
    let bsp = decoder.decode_gold_src_30().expect("all lumps decode");
    assert_eq!(bsp.surf_edges.len(), 2);
    assert_eq!(bsp.surf_edges[0], SurfEdge(7));
    assert_eq!(bsp.surf_edges[1], SurfEdge(-9));
    // The remainder did not desynchronize anything else: every other lump
    // is empty and the decode as a whole succeeded.
    assert_eq!(bsp.planes.len(), 0);
    assert_eq!(bsp.models.len(), 0);
    assert_eq!(bsp.textures.len(), 0);
}

#[test]
fn record_sizes_match_wire_layout() {
    assert_eq!(<goldsrc_bsp::gold_src_30::Plane as Lump>::record_size(), 20);
    assert_eq!(<goldsrc_bsp::gold_src_30::Edge as Lump>::record_size(), 4);
    assert_eq!(<goldsrc_bsp::gold_src_30::Vertex as Lump>::record_size(), 12);
    assert_eq!(<goldsrc_bsp::gold_src_30::Node as Lump>::record_size(), 24);
    assert_eq!(<goldsrc_bsp::gold_src_30::Leaf as Lump>::record_size(), 28);
    assert_eq!(<goldsrc_bsp::gold_src_30::Face as Lump>::record_size(), 20);
    assert_eq!(
        <goldsrc_bsp::gold_src_30::TextureInfo as Lump>::record_size(),
        40
    );
    assert_eq!(<goldsrc_bsp::gold_src_30::Model as Lump>::record_size(), 64);
    assert_eq!(
        <goldsrc_bsp::gold_src_30::Lighting as Lump>::record_size(),
        3
    );
}

#[test]
fn invalid_plane_code_fails_whole_decode() {
    // One plane record: a zero normal and distance, then type code 9,
    // which no plane class carries.
    let mut plane = Vec::new();
    for _ in 0..4 {
        push_i32(&mut plane, 0);
    }
    push_i32(&mut plane, 9);
    let data = build_bsp(&[(1, plane)]);
    let mut decoder = BspDecoder::from_reader(data).expect("identifier is 30");
    match decoder.decode_gold_src_30() {
        Err(Error::Custom(CustomKind::PlaneType)) => {}
        Err(other) => panic!("expected the plane-type error, got {:?}", other),
        Ok(_) => panic!("a malformed plane record must fail the decode"),
    }
}

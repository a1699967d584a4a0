//! The GoldSrc version-30 BSP format: its fixed lump directory, the record
//! layout of every lump, and the strict all-or-nothing decode into
//! [`GoldSrc30Bsp`].

use vstd::arithmetic::mul::{lemma_mul_inequality, lemma_mul_is_distributive_add_other_way, lemma_mul_upper_bound};
use vstd::prelude::*;

use crate::bytes::{le16, le32, le_i16, le_i32, read_array_i16, read_array_i32, read_array_u32, read_array_u8, vec3_at, ByteReader, Vec3Bits};
use crate::error::Error;

verus! {

/// One lump-directory entry: where a lump's bytes start and how many there
/// are, both as stored on the wire (signed).
#[derive(Debug, Clone, Copy, PartialEq, Eq, Structural, Default)]
pub struct HeaderLump {
    pub file_offset: i32,
    pub len: i32,
}

/// The file header: the identifier and the 16-entry lump directory, in the
/// fixed order given by [`LumpType`].
#[derive(Debug, Clone, Copy)]
#[verifier::ext_equal]
pub struct Header {
    pub ident: i32,
    pub lumps: [HeaderLump; 16],
}

/// The fixed order of the lump directory.
#[derive(Debug, Clone, Copy, PartialEq, Eq, Structural)]
pub enum LumpType {
    Entities,
    Planes,
    Textures,
    Vertices,
    Visibility,
    Nodes,
    Texinfo,
    Faces,
    Lighting,
    Clipnodes,
    Leaves,
    Marksurfaces,
    Edges,
    Surfedges,
    Models,
    HeaderLumps,
}

pub open spec fn lump_index_spec(t: LumpType) -> int {
    match t {
        LumpType::Entities => 0,
        LumpType::Planes => 1,
        LumpType::Textures => 2,
        LumpType::Vertices => 3,
        LumpType::Visibility => 4,
        LumpType::Nodes => 5,
        LumpType::Texinfo => 6,
        LumpType::Faces => 7,
        LumpType::Lighting => 8,
        LumpType::Clipnodes => 9,
        LumpType::Leaves => 10,
        LumpType::Marksurfaces => 11,
        LumpType::Edges => 12,
        LumpType::Surfedges => 13,
        LumpType::Models => 14,
        LumpType::HeaderLumps => 15,
    }
}

/// The position of a lump type in the directory.
pub fn lump_index(t: LumpType) -> (i: usize)
    ensures
        i as int == lump_index_spec(t),
        i < 16,
{
    match t {
        LumpType::Entities => 0,
        LumpType::Planes => 1,
        LumpType::Textures => 2,
        LumpType::Vertices => 3,
        LumpType::Visibility => 4,
        LumpType::Nodes => 5,
        LumpType::Texinfo => 6,
        LumpType::Faces => 7,
        LumpType::Lighting => 8,
        LumpType::Clipnodes => 9,
        LumpType::Leaves => 10,
        LumpType::Marksurfaces => 11,
        LumpType::Edges => 12,
        LumpType::Surfedges => 13,
        LumpType::Models => 14,
        LumpType::HeaderLumps => 15,
    }
}

/// The directory entry that starts at position `p` of `b`: a signed offset
/// followed by a signed length, both little-endian.
pub open spec fn lump_entry_at(b: Seq<u8>, p: int) -> HeaderLump {
    HeaderLump { file_offset: le_i32(b, p), len: le_i32(b, p + 4) }
}

fn decode_header_lump(r: &mut ByteReader) -> (res: Result<HeaderLump, Error>)
    ensures
        final(r).bytes() == old(r).bytes(),
        old(r).position() + 8 <= old(r).bytes().len() ==> {
            &&& res matches Ok(l) && l == lump_entry_at(old(r).bytes(), old(r).position())
            &&& final(r).position() == old(r).position() + 8
        },
        old(r).position() + 8 > old(r).bytes().len() ==> (res matches Err(e) && e is Io),
    {
    let file_offset = r.read_i32_le()?;
    let len = r.read_i32_le()?;
    Ok(HeaderLump { file_offset, len })
}

/// Decodes the 16-entry lump directory from the reader's current position
/// (the 4-byte identifier has already been read) and pairs it with the
/// identifier. Succeeds exactly when 128 bytes remain; every decoded
/// `(offset, length)` pair equals the little-endian pair stored on the wire,
/// in directory order.
pub fn decode_header(r: &mut ByteReader, ident: i32) -> (res: Result<Header, Error>)
    ensures
        final(r).bytes() == old(r).bytes(),
        old(r).position() + 128 <= old(r).bytes().len() ==> {
            &&& res matches Ok(h)
            &&& h.ident == ident
            &&& forall|i: int|
                0 <= i < 16 ==> (#[trigger] h.lumps@[i]) == lump_entry_at(
                    old(r).bytes(),
                    old(r).position() + 8 * i,
                )
            &&& final(r).position() == old(r).position() + 128
        },
        old(r).position() + 128 > old(r).bytes().len() ==> (res matches Err(e) && e is Io),
{
    let ghost start = r.position();
    let mut lumps: [HeaderLump; 16] = [HeaderLump { file_offset: 0, len: 0 };16];
    let mut i: usize = 0;
    while i < 16
        invariant
            r.bytes() == old(r).bytes(),
            start == old(r).position(),
            i <= 16,
            r.position() == start + 8 * i,
            i > 0 ==> start + 8 * i <= r.bytes().len(),
            forall|j: int|
                0 <= j < i ==> (#[trigger] lumps@[j]) == lump_entry_at(r.bytes(), start + 8 * j),
        decreases 16 - i,
    {
        let l = decode_header_lump(r)?;
        lumps[i] = l;
        i = i + 1;
    }
    Ok(Header { ident, lumps })
}

/// A fixed-size record type that a lump holds back to back.
///
/// `from_at` is the mathematical layout of one record starting at position
/// `p` of the byte source; `valid_at` says when the stored bytes form a
/// legal record (always, except for the enumerated fields of planes and
/// leaves). `decode` reads one record from the cursor and is exact: it
/// succeeds if and only if a whole, valid record lies at the cursor.
pub trait Lump: Sized {
    /// The record's size on the wire, in bytes.
    spec fn size_spec() -> int;

    /// Whether the bytes at `p` form a legal record.
    spec fn valid_at(b: Seq<u8>, p: int) -> bool;

    /// The record the bytes at `p` denote.
    spec fn from_at(b: Seq<u8>, p: int) -> Self;

    fn record_size() -> (n: usize)
        ensures
            n as int == Self::size_spec(),
            1 <= n,
    ;

    fn decode(r: &mut ByteReader) -> (res: Result<Self, Error>)
        ensures
            final(r).bytes() == old(r).bytes(),
            res matches Ok(rec) ==> {
                &&& old(r).position() + Self::size_spec() <= old(r).bytes().len()
                &&& Self::valid_at(old(r).bytes(), old(r).position())
                &&& rec == Self::from_at(old(r).bytes(), old(r).position())
                &&& final(r).position() == old(r).position() + Self::size_spec()
            },
            (old(r).position() + Self::size_spec() <= old(r).bytes().len() && Self::valid_at(
                old(r).bytes(),
                old(r).position(),
            )) ==> res matches Ok(_),
            res matches Err(e) ==> (e is Io || e is Custom),
    ;
}

/// How many records the directory entry `l` yields: its stored byte length,
/// reinterpreted as the in-memory size the original reader used, divided by
/// the record size with the remainder discarded.
pub open spec fn lump_count<L: Lump>(l: HeaderLump) -> int {
    ((l.len as usize) as int) / L::size_spec()
}

/// Whether the whole lump described by `l` can be decoded from `b`: either
/// it is empty, or its offset is non-negative and all `lump_count` records
/// lie within `b` and are valid.
pub open spec fn lump_ok<L: Lump>(b: Seq<u8>, l: HeaderLump) -> bool {
    lump_count::<L>(l) == 0 || {
        &&& l.file_offset >= 0
        &&& l.file_offset + lump_count::<L>(l) * L::size_spec() <= b.len()
        &&& forall|i: int|
            0 <= i < lump_count::<L>(l) ==> #[trigger] L::valid_at(
                b,
                l.file_offset + i * L::size_spec(),
            )
    }
}

/// Seeks to the lump named by `lump_type` and decodes `floor(length / R)`
/// records of size `R` back to back; remainder bytes are never read. The
/// whole lump succeeds or fails as one: on success the vector holds exactly
/// the records stored on the wire, in order.
pub fn decode_lump<L: Lump>(r: &mut ByteReader, header: &Header, lump_type: LumpType) -> (res:
    Result<Vec<L>, Error>)
    ensures
        final(r).bytes() == old(r).bytes(),
        res matches Ok(v) ==> {
            let l = header.lumps@[lump_index_spec(lump_type)];
            &&& v@.len() == lump_count::<L>(l)
            &&& forall|i: int|
                0 <= i < v@.len() ==> (#[trigger] v@[i]) == L::from_at(
                    old(r).bytes(),
                    l.file_offset + i * L::size_spec(),
                )
        },
        res matches Ok(_) <==> lump_ok::<L>(
            old(r).bytes(),
            header.lumps@[lump_index_spec(lump_type)],
        ),
        res matches Err(e) ==> (e is Io || e is Custom),
{
    let l = header.lumps[lump_index(lump_type)];
    let size = L::record_size();
    let count = (l.len as usize) / size;
    let mut items: Vec<L> = Vec::new();
    if count == 0 {
        return Ok(items);
    }
    if l.file_offset < 0 {
        return Err(Error::Io);
    }
    let offset = l.file_offset as usize;
    r.seek(offset);
    let mut i: usize = 0;
    while i < count
        invariant
            r.bytes() == old(r).bytes(),
            i <= count,
            0 < count,
            count == lump_count::<L>(header.lumps@[lump_index_spec(lump_type)]),
            offset == header.lumps@[lump_index_spec(lump_type)].file_offset,
            size == L::size_spec(),
            1 <= size,
            r.position() == offset + i * size,
            items@.len() == i,
            forall|j: int|
                0 <= j < i ==> (#[trigger] items@[j]) == L::from_at(r.bytes(), offset + j * size),
            forall|j: int| 0 <= j < i ==> #[trigger] L::valid_at(r.bytes(), offset + j * size),
            i > 0 ==> offset + i * size <= r.bytes().len(),
        decreases count - i,
    {
        proof {
            lemma_mul_is_distributive_add_other_way(size as int, i as int, 1);
        }
        match L::decode(r) {
            Ok(rec) => {
                items.push(rec);
            },
            Err(e) => {
                proof {
                    lemma_mul_inequality(i + 1, count as int, size as int);
                }
                return Err(e);
            },
        }
        i = i + 1;
    }
    Ok(items)
}

/// A brush model: a bounding box, an origin, the head nodes of its four
/// hulls, and its face range. All vector fields are IEEE-754 bit patterns.
#[derive(Debug, Clone, Copy, PartialEq, Eq)]
#[verifier::ext_equal]
pub struct Model {
    pub mins: Vec3Bits,
    pub maxs: Vec3Bits,
    pub origin: Vec3Bits,
    pub idx_head_nodes: [i32; 4],
    pub num_vis_leafs: i32,
    pub idx_first_face: i32,
    pub num_faces: i32,
}

impl Lump for Model {
    open spec fn size_spec() -> int {
        64
    }

    open spec fn valid_at(b: Seq<u8>, p: int) -> bool {
        true
    }

    open spec fn from_at(b: Seq<u8>, p: int) -> Model {
        Model {
            mins: vec3_at(b, p),
            maxs: vec3_at(b, p + 12),
            origin: vec3_at(b, p + 24),
            idx_head_nodes: [le_i32(b, p + 36), le_i32(b, p + 40), le_i32(b, p + 44), le_i32(
                b,
                p + 48,
            )],
            num_vis_leafs: le_i32(b, p + 52),
            idx_first_face: le_i32(b, p + 56),
            num_faces: le_i32(b, p + 60),
        }
    }

    fn record_size() -> usize {
        64
    }

    fn decode(r: &mut ByteReader) -> (res: Result<Model, Error>) {
        let mins = r.read_vec3()?;
        let maxs = r.read_vec3()?;
        let origin = r.read_vec3()?;
        let idx_head_nodes = read_array_i32::<4>(r)?;
        let num_vis_leafs = r.read_i32_le()?;
        let idx_first_face = r.read_i32_le()?;
        let num_faces = r.read_i32_le()?;
        let m = Model { mins, maxs, origin, idx_head_nodes, num_vis_leafs, idx_first_face,
            num_faces };
        proof {
            assert(m =~= Model::from_at(old(r).bytes(), old(r).position()));
        }
        Ok(m)
    }
}

/// A splitting plane: a normal (bit patterns), a distance (bit pattern)
/// and the axis-alignment class stored with it.
#[derive(Debug, Clone, Copy, PartialEq, Eq, Structural)]
pub struct Plane {
    pub normal: Vec3Bits,
    pub dist: u32,
    pub plane_type: PlaneType,
}

/// The axis-alignment class of a plane, wire codes 0..=5.
#[derive(Debug, Clone, Copy, PartialEq, Eq, Structural)]
pub enum PlaneType {
    X,
    Y,
    Z,
    AnyX,
    AnyY,
    AnyZ,
}

pub open spec fn plane_type_code_valid(c: i32) -> bool {
    0 <= c <= 5
}

pub open spec fn plane_type_from_code(c: i32) -> PlaneType {
    if c == 0 {
        PlaneType::X
    } else if c == 1 {
        PlaneType::Y
    } else if c == 2 {
        PlaneType::Z
    } else if c == 3 {
        PlaneType::AnyX
    } else if c == 4 {
        PlaneType::AnyY
    } else {
        PlaneType::AnyZ
    }
}

impl PlaneType {
    /// The plane class a wire code denotes; any code outside 0..=5 is a
    /// malformed record and rejected.
    pub fn try_from(value: i32) -> (res: Result<PlaneType, Error>)
        ensures
            plane_type_code_valid(value) ==> (res matches Ok(t) && t == plane_type_from_code(
                value,
            )),
            !plane_type_code_valid(value) ==> res == Err::<PlaneType, Error>(
                Error::Custom(crate::error::CustomKind::PlaneType),
            ),
    {
        match value {
            0 => Ok(PlaneType::X),
            1 => Ok(PlaneType::Y),
            2 => Ok(PlaneType::Z),
            3 => Ok(PlaneType::AnyX),
            4 => Ok(PlaneType::AnyY),
            5 => Ok(PlaneType::AnyZ),
            _ => Err(Error::Custom(crate::error::CustomKind::PlaneType)),
        }
    }
}

impl Lump for Plane {
    open spec fn size_spec() -> int {
        20
    }

    open spec fn valid_at(b: Seq<u8>, p: int) -> bool {
        plane_type_code_valid(le_i32(b, p + 16))
    }

    open spec fn from_at(b: Seq<u8>, p: int) -> Plane {
        Plane {
            normal: vec3_at(b, p),
            dist: le32(b, p + 12),
            plane_type: plane_type_from_code(le_i32(b, p + 16)),
        }
    }

    fn record_size() -> usize {
        20
    }

    fn decode(r: &mut ByteReader) -> (res: Result<Plane, Error>) {
        let normal = r.read_vec3()?;
        let dist = r.read_u32_le()?;
        let code = r.read_i32_le()?;
        let plane_type = PlaneType::try_from(code)?;
        Ok(Plane { normal, dist, plane_type })
    }
}

/// One edge: the indices of its two endpoint vertices, in stored order.
#[derive(Debug, Clone, Copy, PartialEq, Eq, Structural)]
pub struct Edge {
    pub v0: u16,
    pub v1: u16,
}

impl Lump for Edge {
    open spec fn size_spec() -> int {
        4
    }

    open spec fn valid_at(b: Seq<u8>, p: int) -> bool {
        true
    }

    open spec fn from_at(b: Seq<u8>, p: int) -> Edge {
        Edge { v0: le16(b, p), v1: le16(b, p + 2) }
    }

    fn record_size() -> usize {
        4
    }

    fn decode(r: &mut ByteReader) -> (res: Result<Edge, Error>) {
        let v0 = r.read_u16_le()?;
        let v1 = r.read_u16_le()?;
        Ok(Edge { v0, v1 })
    }
}

/// A signed reference into the edge array: the absolute value is the edge
/// index, the sign selects the traversal direction.
#[derive(Debug, Clone, Copy, PartialEq, Eq, Structural)]
pub struct SurfEdge(pub i32);

impl Lump for SurfEdge {
    open spec fn size_spec() -> int {
        4
    }

    open spec fn valid_at(b: Seq<u8>, p: int) -> bool {
        true
    }

    open spec fn from_at(b: Seq<u8>, p: int) -> SurfEdge {
        SurfEdge(le_i32(b, p))
    }

    fn record_size() -> usize {
        4
    }

    fn decode(r: &mut ByteReader) -> (res: Result<SurfEdge, Error>) {
        Ok(SurfEdge(r.read_i32_le()?))
    }
}

/// One stored lightmap sample.
#[derive(Debug, Clone, Copy, PartialEq, Eq, Structural)]
pub struct Lighting {
    pub r: u8,
    pub g: u8,
    pub b: u8,
}

impl Lump for Lighting {
    open spec fn size_spec() -> int {
        3
    }

    open spec fn valid_at(b: Seq<u8>, p: int) -> bool {
        true
    }

    open spec fn from_at(b: Seq<u8>, p: int) -> Lighting {
        Lighting { r: b[p], g: b[p + 1], b: b[p + 2] }
    }

    fn record_size() -> usize {
        3
    }

    fn decode(rd: &mut ByteReader) -> (res: Result<Lighting, Error>) {
        let r = rd.read_u8()?;
        let g = rd.read_u8()?;
        let b = rd.read_u8()?;
        Ok(Lighting { r, g, b })
    }
}

/// One vertex position, as three IEEE-754 bit patterns.
#[derive(Debug, Clone, Copy, PartialEq, Eq, Structural)]
pub struct Vertex(pub Vec3Bits);

impl Lump for Vertex {
    open spec fn size_spec() -> int {
        12
    }

    open spec fn valid_at(b: Seq<u8>, p: int) -> bool {
        true
    }

    open spec fn from_at(b: Seq<u8>, p: int) -> Vertex {
        Vertex(vec3_at(b, p))
    }

    fn record_size() -> usize {
        12
    }

    fn decode(r: &mut ByteReader) -> (res: Result<Vertex, Error>) {
        Ok(Vertex(r.read_vec3()?))
    }
}

/// An interior BSP node: its splitting plane, its two signed children
/// (see [`crate::geometry::NodeChild`]), a coarse bounding box and a face
/// range.
#[derive(Debug, Clone, Copy, PartialEq, Eq)]
#[verifier::ext_equal]
pub struct Node {
    pub idx_plane: u32,
    pub idx_children: [i16; 2],
    pub mins: [i16; 3],
    pub maxs: [i16; 3],
    pub first_face: u16,
    pub num_faces: u16,
}

impl Lump for Node {
    open spec fn size_spec() -> int {
        24
    }

    open spec fn valid_at(b: Seq<u8>, p: int) -> bool {
        true
    }

    open spec fn from_at(b: Seq<u8>, p: int) -> Node {
        Node {
            idx_plane: le32(b, p),
            idx_children: [le_i16(b, p + 4), le_i16(b, p + 6)],
            mins: [le_i16(b, p + 8), le_i16(b, p + 10), le_i16(b, p + 12)],
            maxs: [le_i16(b, p + 14), le_i16(b, p + 16), le_i16(b, p + 18)],
            first_face: le16(b, p + 20),
            num_faces: le16(b, p + 22),
        }
    }

    fn record_size() -> usize {
        24
    }

    fn decode(r: &mut ByteReader) -> (res: Result<Node, Error>) {
        let idx_plane = r.read_u32_le()?;
        let idx_children = read_array_i16::<2>(r)?;
        let mins = read_array_i16::<3>(r)?;
        let maxs = read_array_i16::<3>(r)?;
        let first_face = r.read_u16_le()?;
        let num_faces = r.read_u16_le()?;
        let n = Node { idx_plane, idx_children, mins, maxs, first_face, num_faces };
        proof {
            assert(n =~= Node::from_at(old(r).bytes(), old(r).position()));
        }
        Ok(n)
    }
}

/// A terminal BSP region: its contents class, visibility offset, bounding
/// box, marksurface range and ambient sound levels.
#[derive(Debug, Clone, Copy, PartialEq, Eq)]
#[verifier::ext_equal]
pub struct Leaf {
    pub contents: Contents,
    pub vis_offset: i32,
    pub mins: [i16; 3],
    pub maxs: [i16; 3],
    pub idx_first_mark_surface: u16,
    pub num_mark_surfaces: u16,
    pub ambient_levels: [u8; 4],
}

/// What a leaf contains, wire codes -1..=-15.
#[derive(Debug, Clone, Copy, PartialEq, Eq, Structural)]
pub enum Contents {
    Empty,
    Solid,
    Water,
    Slime,
    Lava,
    Sky,
    Origin,
    Clip,
    Current0,
    Current90,
    Current180,
    Current270,
    CurrentUp,
    CurrentDown,
    Translucent,
}

pub open spec fn contents_code_valid(c: i32) -> bool {
    -15 <= c <= -1
}

pub open spec fn contents_from_code(c: i32) -> Contents {
    if c == -1 {
        Contents::Empty
    } else if c == -2 {
        Contents::Solid
    } else if c == -3 {
        Contents::Water
    } else if c == -4 {
        Contents::Slime
    } else if c == -5 {
        Contents::Lava
    } else if c == -6 {
        Contents::Sky
    } else if c == -7 {
        Contents::Origin
    } else if c == -8 {
        Contents::Clip
    } else if c == -9 {
        Contents::Current0
    } else if c == -10 {
        Contents::Current90
    } else if c == -11 {
        Contents::Current180
    } else if c == -12 {
        Contents::Current270
    } else if c == -13 {
        Contents::CurrentUp
    } else if c == -14 {
        Contents::CurrentDown
    } else {
        Contents::Translucent
    }
}

impl Contents {
    /// The contents class a wire code denotes; any code outside -15..=-1
    /// is a malformed record and rejected.
    pub fn try_from(value: i32) -> (res: Result<Contents, Error>)
        ensures
            contents_code_valid(value) ==> (res matches Ok(c) && c == contents_from_code(value)),
            !contents_code_valid(value) ==> res == Err::<Contents, Error>(
                Error::Custom(crate::error::CustomKind::Contents),
            ),
    {
        match value {
            -1 => Ok(Contents::Empty),
            -2 => Ok(Contents::Solid),
            -3 => Ok(Contents::Water),
            -4 => Ok(Contents::Slime),
            -5 => Ok(Contents::Lava),
            -6 => Ok(Contents::Sky),
            -7 => Ok(Contents::Origin),
            -8 => Ok(Contents::Clip),
            -9 => Ok(Contents::Current0),
            -10 => Ok(Contents::Current90),
            -11 => Ok(Contents::Current180),
            -12 => Ok(Contents::Current270),
            -13 => Ok(Contents::CurrentUp),
            -14 => Ok(Contents::CurrentDown),
            -15 => Ok(Contents::Translucent),
            _ => Err(Error::Custom(crate::error::CustomKind::Contents)),
        }
    }
}

impl Lump for Leaf {
    open spec fn size_spec() -> int {
        28
    }

    open spec fn valid_at(b: Seq<u8>, p: int) -> bool {
        contents_code_valid(le_i32(b, p))
    }

    open spec fn from_at(b: Seq<u8>, p: int) -> Leaf {
        Leaf {
            contents: contents_from_code(le_i32(b, p)),
            vis_offset: le_i32(b, p + 4),
            mins: [le_i16(b, p + 8), le_i16(b, p + 10), le_i16(b, p + 12)],
            maxs: [le_i16(b, p + 14), le_i16(b, p + 16), le_i16(b, p + 18)],
            idx_first_mark_surface: le16(b, p + 20),
            num_mark_surfaces: le16(b, p + 22),
            ambient_levels: [b[p + 24], b[p + 25], b[p + 26], b[p + 27]],
        }
    }

    fn record_size() -> usize {
        28
    }

    fn decode(r: &mut ByteReader) -> (res: Result<Leaf, Error>) {
        let code = r.read_i32_le()?;
        let contents = Contents::try_from(code)?;
        let vis_offset = r.read_i32_le()?;
        let mins = read_array_i16::<3>(r)?;
        let maxs = read_array_i16::<3>(r)?;
        let idx_first_mark_surface = r.read_u16_le()?;
        let num_mark_surfaces = r.read_u16_le()?;
        let ambient_levels = read_array_u8::<4>(r)?;
        let l = Leaf {
            contents,
            vis_offset,
            mins,
            maxs,
            idx_first_mark_surface,
            num_mark_surfaces,
            ambient_levels,
        };
        proof {
            assert(l =~= Leaf::from_at(old(r).bytes(), old(r).position()));
        }
        Ok(l)
    }
}

/// An embedded paletted texture (miptex): a NUL-padded 16-byte name, its
/// dimensions, the four stored mip offsets and, when the first mip offset
/// is positive, the `width * height` palette-index bytes of mip level 0
/// followed by the 256-entry RGB palette, flat (768 bytes). A first mip
/// offset of zero marks an external texture that a WAD archive supplies;
/// such a record carries no pixel data.
#[derive(Debug, Clone, PartialEq, Eq)]
pub struct Texture {
    pub name: [u8; 16],
    pub width: u32,
    pub height: u32,
    pub offsets: [u32; 4],
    pub mip: Vec<u8>,
    pub palette: Vec<u8>,
}

/// Whether a whole texture record lies at position `p` of `b`.
pub open spec fn texture_ok_at(b: Seq<u8>, p: int) -> bool {
    &&& p + 40 <= b.len()
    &&& le32(b, p + 24) > 0 ==> p + 40 + le32(b, p + 16) * le32(b, p + 20) + 768 <= b.len()
}

/// Whether `t` is exactly the texture record stored at position `p` of `b`.
pub open spec fn texture_matches(t: Texture, b: Seq<u8>, p: int) -> bool {
    let w = le32(b, p + 16);
    let h = le32(b, p + 20);
    &&& t.name@.len() == 16
    &&& forall|i: int| 0 <= i < 16 ==> (#[trigger] t.name@[i]) == b[p + i]
    &&& t.width == w
    &&& t.height == h
    &&& t.offsets@.len() == 4
    &&& forall|i: int| 0 <= i < 4 ==> (#[trigger] t.offsets@[i]) == le32(b, p + 24 + 4 * i)
    &&& t.mip@ == (if le32(b, p + 24) > 0 {
        Seq::new((w * h) as nat, |i: int| b[p + 40 + i])
    } else {
        Seq::<u8>::empty()
    })
    &&& t.palette@ == (if le32(b, p + 24) > 0 {
        Seq::new(768, |i: int| b[p + 40 + w * h + i])
    } else {
        Seq::<u8>::empty()
    })
}

/// The mathematical value of a texture record: the same fields as
/// [`Texture`], with sequences in place of arrays and vectors. Spec-only;
/// it is what map views of texture tables range over.
#[verifier::ext_equal]
pub ghost struct TextureModel {
    pub name: Seq<u8>,
    pub width: u32,
    pub height: u32,
    pub offsets: Seq<u32>,
    pub mip: Seq<u8>,
    pub palette: Seq<u8>,
}

/// The mathematical value of an in-memory texture.
pub open spec fn model_of(t: Texture) -> TextureModel {
    TextureModel {
        name: t.name@,
        width: t.width,
        height: t.height,
        offsets: t.offsets@,
        mip: t.mip@,
        palette: t.palette@,
    }
}

/// The mathematical value of the texture record stored at position `p`.
pub open spec fn texture_model_at(b: Seq<u8>, p: int) -> TextureModel {
    let w = le32(b, p + 16);
    let h = le32(b, p + 20);
    TextureModel {
        name: Seq::new(16, |i: int| b[p + i]),
        width: w,
        height: h,
        offsets: Seq::new(4, |i: int| le32(b, p + 24 + 4 * i)),
        mip: if le32(b, p + 24) > 0 {
            Seq::new((w * h) as nat, |i: int| b[p + 40 + i])
        } else {
            Seq::<u8>::empty()
        },
        palette: if le32(b, p + 24) > 0 {
            Seq::new(768, |i: int| b[p + 40 + w * h + i])
        } else {
            Seq::<u8>::empty()
        },
    }
}

/// A texture that matches the record at `p` has the record's mathematical
/// value.
pub proof fn lemma_texture_matches_model(t: Texture, b: Seq<u8>, p: int)
    requires
        texture_matches(t, b, p),
    ensures
        model_of(t) == texture_model_at(b, p),
{
    let m = texture_model_at(b, p);
    assert(t.name@ =~= m.name);
    assert(t.offsets@ =~= m.offsets);
    assert(model_of(t) =~= m);
}

impl Texture {
    /// Decodes one self-describing texture record from the cursor: the
    /// 40-byte fixed part, then — only if the first mip offset is positive
    /// — `width * height` index bytes and the 768-byte palette. Exact:
    /// succeeds if and only if the whole record is present.
    pub fn decode(r: &mut ByteReader) -> (res: Result<Texture, Error>)
        ensures
            final(r).bytes() == old(r).bytes(),
            res matches Ok(t) ==> texture_matches(t, old(r).bytes(), old(r).position()),
            res matches Ok(_) <==> texture_ok_at(old(r).bytes(), old(r).position()),
            res matches Err(e) ==> e is Io,
    {
        let ghost p = r.position();
        let name = read_array_u8::<16>(r)?;
        let width = r.read_u32_le()?;
        let height = r.read_u32_le()?;
        let offsets = read_array_u32::<4>(r)?;
        let mut mip: Vec<u8> = Vec::new();
        let mut palette: Vec<u8> = Vec::new();
        if offsets[0] > 0 {
            proof {
                lemma_mul_upper_bound(width as int, 0xffff_ffff, height as int, 0xffff_ffff);
            }
            let total: u64 = (width as u64) * (height as u64);
            let mut k: u64 = 0;
            while k < total
                invariant
                    r.bytes() == old(r).bytes(),
                    k <= total,
                    total == width as int * height as int,
                    width == le32(r.bytes(), p + 16),
                    height == le32(r.bytes(), p + 20),
                    le32(r.bytes(), p + 24) > 0,
                    p == old(r).position(),
                    r.position() == p + 40 + k,
                    mip@.len() == k,
                    forall|j: int| 0 <= j < k ==> (#[trigger] mip@[j]) == r.bytes()[p + 40 + j],
                    k > 0 ==> p + 40 + k <= r.bytes().len(),
                decreases total - k,
            {
                let v = r.read_u8()?;
                mip.push(v);
                k = k + 1;
            }
            let mut k2: usize = 0;
            while k2 < 768
                invariant
                    r.bytes() == old(r).bytes(),
                    k2 <= 768,
                    total == width as int * height as int,
                    width == le32(r.bytes(), p + 16),
                    height == le32(r.bytes(), p + 20),
                    le32(r.bytes(), p + 24) > 0,
                    p == old(r).position(),
                    r.position() == p + 40 + total + k2,
                    palette@.len() == k2,
                    forall|j: int|
                        0 <= j < k2 ==> (#[trigger] palette@[j]) == r.bytes()[p + 40 + total + j],
                    k2 > 0 ==> p + 40 + total + k2 <= r.bytes().len(),
                decreases 768 - k2,
            {
                let v = r.read_u8()?;
                palette.push(v);
                k2 = k2 + 1;
            }
        }
        let t = Texture { name, width, height, offsets, mip, palette };
        proof {
            let b = old(r).bytes();
            let w = le32(b, p + 16);
            let h = le32(b, p + 20);
            if le32(b, p + 24) > 0 {
                assert(t.mip@ =~= Seq::new((w * h) as nat, |i: int| b[p + 40 + i]));
                assert(t.palette@ =~= Seq::new(768, |i: int| b[p + 40 + w * h + i]));
            } else {
                assert(t.mip@ =~= Seq::<u8>::empty());
                assert(t.palette@ =~= Seq::<u8>::empty());
            }
        }
        Ok(t)
    }
}

/// One byte of the visibility lump, retained unparsed.
#[derive(Debug, Clone, Copy, PartialEq, Eq, Structural)]
pub struct Visibility(pub u8);

impl Lump for Visibility {
    open spec fn size_spec() -> int {
        1
    }

    open spec fn valid_at(b: Seq<u8>, p: int) -> bool {
        true
    }

    open spec fn from_at(b: Seq<u8>, p: int) -> Visibility {
        Visibility(b[p])
    }

    fn record_size() -> usize {
        1
    }

    fn decode(r: &mut ByteReader) -> (res: Result<Visibility, Error>) {
        Ok(Visibility(r.read_u8()?))
    }
}

/// A texture projection basis: two axes with shifts (bit patterns), the
/// index of the texture it maps, and flags.
#[derive(Debug, Clone, Copy, PartialEq, Eq, Structural)]
pub struct TextureInfo {
    pub s_vector: Vec3Bits,
    pub s_shift: u32,
    pub t_vector: Vec3Bits,
    pub t_shift: u32,
    pub idx_miptex: u32,
    pub flags: u32,
}

impl Lump for TextureInfo {
    open spec fn size_spec() -> int {
        40
    }

    open spec fn valid_at(b: Seq<u8>, p: int) -> bool {
        true
    }

    open spec fn from_at(b: Seq<u8>, p: int) -> TextureInfo {
        TextureInfo {
            s_vector: vec3_at(b, p),
            s_shift: le32(b, p + 12),
            t_vector: vec3_at(b, p + 16),
            t_shift: le32(b, p + 28),
            idx_miptex: le32(b, p + 32),
            flags: le32(b, p + 36),
        }
    }

    fn record_size() -> usize {
        40
    }

    fn decode(r: &mut ByteReader) -> (res: Result<TextureInfo, Error>) {
        let s_vector = r.read_vec3()?;
        let s_shift = r.read_u32_le()?;
        let t_vector = r.read_vec3()?;
        let t_shift = r.read_u32_le()?;
        let idx_miptex = r.read_u32_le()?;
        let flags = r.read_u32_le()?;
        Ok(TextureInfo { s_vector, s_shift, t_vector, t_shift, idx_miptex, flags })
    }
}

/// One face: its plane (and which side of it), its surfedge range, its
/// texture info, light styles and lightmap offset.
#[derive(Debug, Clone, Copy, PartialEq, Eq)]
#[verifier::ext_equal]
pub struct Face {
    pub plane: u16,
    pub plane_side: u16,
    pub first_edge: u32,
    pub edges: u16,
    pub texture_info: u16,
    pub styles: [u8; 4],
    pub lightmap_offset: u32,
}

impl Lump for Face {
    open spec fn size_spec() -> int {
        20
    }

    open spec fn valid_at(b: Seq<u8>, p: int) -> bool {
        true
    }

    open spec fn from_at(b: Seq<u8>, p: int) -> Face {
        Face {
            plane: le16(b, p),
            plane_side: le16(b, p + 2),
            first_edge: le32(b, p + 4),
            edges: le16(b, p + 8),
            texture_info: le16(b, p + 10),
            styles: [b[p + 12], b[p + 13], b[p + 14], b[p + 15]],
            lightmap_offset: le32(b, p + 16),
        }
    }

    fn record_size() -> usize {
        20
    }

    fn decode(r: &mut ByteReader) -> (res: Result<Face, Error>) {
        let plane = r.read_u16_le()?;
        let plane_side = r.read_u16_le()?;
        let first_edge = r.read_u32_le()?;
        let edges = r.read_u16_le()?;
        let texture_info = r.read_u16_le()?;
        let styles = read_array_u8::<4>(r)?;
        let lightmap_offset = r.read_u32_le()?;
        let f = Face { plane, plane_side, first_edge, edges, texture_info, styles,
            lightmap_offset };
        proof {
            assert(f =~= Face::from_at(old(r).bytes(), old(r).position()));
        }
        Ok(f)
    }
}

/// How many textures the texture lump announces: the signed count stored at
/// the lump start, reinterpreted as the original reader's loop bound.
pub open spec fn tex_lump_count(b: Seq<u8>, l: HeaderLump) -> int {
    (le_i32(b, l.file_offset as int) as usize) as int
}

/// The absolute position of texture `j`: the lump start plus the signed
/// relative offset stored in the lump's offset table.
pub open spec fn tex_offset(b: Seq<u8>, l: HeaderLump, j: int) -> int {
    l.file_offset + le_i32(b, l.file_offset + 4 + 4 * j)
}

/// Whether the whole irregular texture lump can be decoded from `b`: the
/// count and offset table are present, and every announced texture record
/// lies at a representable position and is whole.
pub open spec fn textures_lump_ok(b: Seq<u8>, l: HeaderLump) -> bool {
    &&& l.file_offset >= 0
    &&& l.file_offset + 4 <= b.len()
    &&& l.file_offset + 4 + 4 * tex_lump_count(b, l) <= b.len()
    &&& forall|j: int|
        0 <= j < tex_lump_count(b, l) ==> {
            &&& 0 <= #[trigger] tex_offset(b, l, j) <= usize::MAX
            &&& texture_ok_at(b, tex_offset(b, l, j))
        }
}

/// Whether `ts` holds exactly the texture records the lump announces, in
/// offset-table order.
pub open spec fn textures_match(ts: Seq<Texture>, b: Seq<u8>, l: HeaderLump) -> bool {
    &&& ts.len() == tex_lump_count(b, l)
    &&& forall|j: int|
        0 <= j < ts.len() ==> texture_matches(#[trigger] ts[j], b, tex_offset(b, l, j))
}

/// Decodes the irregular texture lump: an i32 count, that many i32 offsets
/// relative to the lump start, and a self-describing texture record at each
/// offset. Strict, like every other lump: one bad record fails the whole
/// decode.
pub fn decode_textures(r: &mut ByteReader, header: &Header) -> (res: Result<Vec<Texture>, Error>)
    ensures
        final(r).bytes() == old(r).bytes(),
        res matches Ok(v) ==> textures_match(v@, old(r).bytes(), header.lumps@[2]),
        res matches Ok(_) <==> textures_lump_ok(old(r).bytes(), header.lumps@[2]),
        res matches Err(e) ==> e is Io,
{
    let l = header.lumps[2];
    if l.file_offset < 0 {
        return Err(Error::Io);
    }
    let off = l.file_offset as usize;
    r.seek(off);
    let count_raw = r.read_i32_le()?;
    let count = count_raw as usize;
    let mut offsets: Vec<i32> = Vec::new();
    let mut j: usize = 0;
    while j < count
        invariant
            r.bytes() == old(r).bytes(),
            l == header.lumps@[2],
            off == l.file_offset,
            count == (le_i32(r.bytes(), off as int) as usize),
            off + 4 <= r.bytes().len(),
            j <= count,
            r.position() == off + 4 + 4 * j,
            offsets@.len() == j,
            forall|i: int|
                0 <= i < j ==> (#[trigger] offsets@[i]) == le_i32(r.bytes(), off + 4 + 4 * i),
            j > 0 ==> off + 4 + 4 * j <= r.bytes().len(),
        decreases count - j,
    {
        let o = r.read_i32_le()?;
        offsets.push(o);
        j = j + 1;
    }
    let mut ts: Vec<Texture> = Vec::new();
    let mut j2: usize = 0;
    while j2 < count
        invariant
            r.bytes() == old(r).bytes(),
            l == header.lumps@[2],
            off == l.file_offset,
            count == (le_i32(r.bytes(), off as int) as usize),
            off + 4 + 4 * count <= r.bytes().len(),
            j2 <= count,
            offsets@.len() == count,
            forall|i: int|
                0 <= i < count ==> (#[trigger] offsets@[i]) == le_i32(r.bytes(), off + 4 + 4 * i),
            ts@.len() == j2,
            forall|i: int|
                0 <= i < j2 ==> texture_matches(
                    #[trigger] ts@[i],
                    r.bytes(),
                    tex_offset(r.bytes(), l, i),
                ),
            forall|i: int|
                0 <= i < j2 ==> {
                    &&& 0 <= #[trigger] tex_offset(r.bytes(), l, i) <= usize::MAX
                    &&& texture_ok_at(r.bytes(), tex_offset(r.bytes(), l, i))
                },
        decreases count - j2,
    {
        let o = offsets[j2];
        let target: i64 = off as i64 + o as i64;
        if target < 0 {
            proof {
                assert(tex_offset(r.bytes(), l, j2 as int) < 0);
                assert(!textures_lump_ok(r.bytes(), l));
            }
            return Err(Error::Io);
        }
        if target as u64 > usize::MAX as u64 {
            proof {
                assert(tex_offset(r.bytes(), l, j2 as int) > usize::MAX);
                assert(!textures_lump_ok(r.bytes(), l));
            }
            return Err(Error::Io);
        }
        r.seek(target as u64 as usize);
        let t = match Texture::decode(r) {
            Ok(t) => t,
            Err(e) => {
                proof {
                    assert(!texture_ok_at(r.bytes(), tex_offset(r.bytes(), l, j2 as int)));
                    assert(!textures_lump_ok(r.bytes(), l));
                }
                return Err(e);
            },
        };
        ts.push(t);
        j2 = j2 + 1;
    }
    Ok(ts)
}

/// A fully decoded version-30 BSP file: one vector per lump, each holding
/// exactly the records stored on the wire, in wire order.
#[derive(Debug, Clone)]
pub struct GoldSrc30Bsp {
    pub models: Vec<Model>,
    pub planes: Vec<Plane>,
    pub edges: Vec<Edge>,
    pub surf_edges: Vec<SurfEdge>,
    pub lighting: Vec<Lighting>,
    pub vertices: Vec<Vertex>,
    pub nodes: Vec<Node>,
    pub leaves: Vec<Leaf>,
    pub visibility: Vec<Visibility>,
    pub texture_info: Vec<TextureInfo>,
    pub faces: Vec<Face>,
    pub textures: Vec<Texture>,
}

/// The header a version-30 file carries: the identifier at position 0 has
/// already been read; the 16 directory entries follow at position 4.
pub open spec fn header_at(b: Seq<u8>, ident: i32) -> Header {
    Header {
        ident,
        lumps: [
            lump_entry_at(b, 4),
            lump_entry_at(b, 12),
            lump_entry_at(b, 20),
            lump_entry_at(b, 28),
            lump_entry_at(b, 36),
            lump_entry_at(b, 44),
            lump_entry_at(b, 52),
            lump_entry_at(b, 60),
            lump_entry_at(b, 68),
            lump_entry_at(b, 76),
            lump_entry_at(b, 84),
            lump_entry_at(b, 92),
            lump_entry_at(b, 100),
            lump_entry_at(b, 108),
            lump_entry_at(b, 116),
            lump_entry_at(b, 124),
        ],
    }
}

/// Whether `v` holds exactly the records of the lump described by `l`.
pub open spec fn lump_records_match<L: Lump>(v: Seq<L>, b: Seq<u8>, l: HeaderLump) -> bool {
    &&& v.len() == lump_count::<L>(l)
    &&& forall|i: int|
        0 <= i < v.len() ==> (#[trigger] v[i]) == L::from_at(b, l.file_offset + i * L::size_spec())
}

/// Whether a whole version-30 file can be decoded from `b`: the header is
/// present and every lump, the irregular texture lump included, is whole
/// and valid.
pub open spec fn bsp_decodable(b: Seq<u8>, ident: i32) -> bool {
    let h = header_at(b, ident);
    &&& 132 <= b.len()
    &&& lump_ok::<Plane>(b, h.lumps@[1])
    &&& lump_ok::<Vertex>(b, h.lumps@[3])
    &&& lump_ok::<Visibility>(b, h.lumps@[4])
    &&& lump_ok::<Node>(b, h.lumps@[5])
    &&& lump_ok::<TextureInfo>(b, h.lumps@[6])
    &&& lump_ok::<Face>(b, h.lumps@[7])
    &&& lump_ok::<Lighting>(b, h.lumps@[8])
    &&& lump_ok::<Leaf>(b, h.lumps@[10])
    &&& lump_ok::<Edge>(b, h.lumps@[12])
    &&& lump_ok::<SurfEdge>(b, h.lumps@[13])
    &&& lump_ok::<Model>(b, h.lumps@[14])
    &&& textures_lump_ok(b, h.lumps@[2])
}

/// Whether `bsp` is exactly the decode of `b`: every lump vector holds the
/// records stored on the wire, in order.
pub open spec fn bsp_matches(bsp: GoldSrc30Bsp, b: Seq<u8>, ident: i32) -> bool {
    let h = header_at(b, ident);
    &&& lump_records_match(bsp.planes@, b, h.lumps@[1])
    &&& lump_records_match(bsp.vertices@, b, h.lumps@[3])
    &&& lump_records_match(bsp.visibility@, b, h.lumps@[4])
    &&& lump_records_match(bsp.nodes@, b, h.lumps@[5])
    &&& lump_records_match(bsp.texture_info@, b, h.lumps@[6])
    &&& lump_records_match(bsp.faces@, b, h.lumps@[7])
    &&& lump_records_match(bsp.lighting@, b, h.lumps@[8])
    &&& lump_records_match(bsp.leaves@, b, h.lumps@[10])
    &&& lump_records_match(bsp.edges@, b, h.lumps@[12])
    &&& lump_records_match(bsp.surf_edges@, b, h.lumps@[13])
    &&& lump_records_match(bsp.models@, b, h.lumps@[14])
    &&& textures_match(bsp.textures@, b, h.lumps@[2])
}

/// Decodes a whole version-30 file. The 4-byte identifier has been read
/// already, so the cursor stands at the lump directory. All-or-nothing:
/// succeeds exactly when every lump is whole and valid, and then returns
/// precisely the stored records; no partial structure is ever returned.
pub fn decode(r: &mut ByteReader, ident: i32) -> (res: Result<GoldSrc30Bsp, Error>)
    requires
        old(r).position() == 4,
    ensures
        final(r).bytes() == old(r).bytes(),
        res matches Ok(bsp) ==> bsp_matches(bsp, old(r).bytes(), ident),
        res matches Ok(_) <==> bsp_decodable(old(r).bytes(), ident),
        res matches Err(e) ==> (e is Io || e is Custom),
{
    let header = decode_header(r, ident)?;
    proof {
        let b = old(r).bytes();
        let hs = header_at(b, ident);
        assert(header.lumps@ =~= hs.lumps@);
        assert(header =~= hs);
    }
    let planes = decode_lump::<Plane>(r, &header, LumpType::Planes)?;
    let vertices = decode_lump::<Vertex>(r, &header, LumpType::Vertices)?;
    let visibility = decode_lump::<Visibility>(r, &header, LumpType::Visibility)?;
    let nodes = decode_lump::<Node>(r, &header, LumpType::Nodes)?;
    let texture_info = decode_lump::<TextureInfo>(r, &header, LumpType::Texinfo)?;
    let faces = decode_lump::<Face>(r, &header, LumpType::Faces)?;
    let lighting = decode_lump::<Lighting>(r, &header, LumpType::Lighting)?;
    let leaves = decode_lump::<Leaf>(r, &header, LumpType::Leaves)?;
    let edges = decode_lump::<Edge>(r, &header, LumpType::Edges)?;
    let surf_edges = decode_lump::<SurfEdge>(r, &header, LumpType::Surfedges)?;
    let models = decode_lump::<Model>(r, &header, LumpType::Models)?;
    let textures = decode_textures(r, &header)?;
    Ok(GoldSrc30Bsp {
        models,
        planes,
        edges,
        surf_edges,
        lighting,
        vertices,
        nodes,
        leaves,
        visibility,
        texture_info,
        faces,
        textures,
    })
}

} // verus!

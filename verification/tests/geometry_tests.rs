use goldsrc_bsp::bytes::Vec3Bits;
use goldsrc_bsp::geometry::{
    build_face_geometry, build_model_faces, reachable_leaves, triangulate, EdgeRef,
    FaceDiagnostic, NodeChild,
};
use goldsrc_bsp::gold_src_30::{Edge, Node, SurfEdge};
use goldsrc_bsp::{BspDecoder, BspFormat, BspVersion};

fn push_i32(out: &mut Vec<u8>, v: i32) {
    out.extend_from_slice(&v.to_le_bytes());
}

fn push_u16(out: &mut Vec<u8>, v: u16) {
    out.extend_from_slice(&v.to_le_bytes());
}

fn push_f32(out: &mut Vec<u8>, v: f32) {
    out.extend_from_slice(&v.to_le_bytes());
}

fn bits(x: f32, y: f32, z: f32) -> Vec3Bits {
    Vec3Bits { x: x.to_bits(), y: y.to_bits(), z: z.to_bits() }
}

fn build_bsp(lumps: &[(usize, Vec<u8>)]) -> Vec<u8> {
    let mut data = Vec::new();
    push_i32(&mut data, 30);
    data.resize(132, 0);
    let mut dir: Vec<(i32, i32)> = vec![(0, 0); 16];
    if !lumps.iter().any(|(s, _)| *s == 2) {
        let off = data.len() as i32;
        push_i32(&mut data, 0);
        dir[2] = (off, 4);
    }
    for (slot, bytes) in lumps {
        let off = data.len() as i32;
        data.extend_from_slice(bytes);
        dir[*slot] = (off, bytes.len() as i32);
    }
    for (i, (off, len)) in dir.iter().enumerate() {
        let p = 4 + 8 * i;
        data[p..p + 4].copy_from_slice(&off.to_le_bytes());
        data[p + 4..p + 8].copy_from_slice(&len.to_le_bytes());
    }
    data
}

/// The lumps of a minimal map: one plane, 3 vertices, 3 edges, 3
/// surfedges (one reversed), one face over them, one model, no texture
/// info.
fn minimal_map(plane_side: u16) -> Vec<u8> {
    let mut planes = Vec::new();
    push_f32(&mut planes, 0.0);
    push_f32(&mut planes, 0.0);
    push_f32(&mut planes, 1.0);
    push_f32(&mut planes, 0.0);
    push_i32(&mut planes, 2);
    let mut vertices = Vec::new();
    for (x, y, z) in [(0.0, 0.0, 0.0), (1.0, 0.0, 0.0), (0.0, 1.0, 0.0)] {
        push_f32(&mut vertices, x);
        push_f32(&mut vertices, y);
        push_f32(&mut vertices, z);
    }
    let mut edges = Vec::new();
    for (v0, v1) in [(0u16, 1u16), (1, 2), (0, 2)] {
        push_u16(&mut edges, v0);
        push_u16(&mut edges, v1);
    }
    let mut surfedges = Vec::new();
    push_i32(&mut surfedges, 0);
    push_i32(&mut surfedges, 1);
    push_i32(&mut surfedges, -2);
    let mut face = Vec::new();
    push_u16(&mut face, 0); // plane
    push_u16(&mut face, plane_side);
    face.extend_from_slice(&0u32.to_le_bytes()); // first edge
    push_u16(&mut face, 3); // edge count
    push_u16(&mut face, 0); // texture info
    face.extend_from_slice(&[0, 0, 0, 0]); // styles
    face.extend_from_slice(&0u32.to_le_bytes()); // lightmap offset
    let mut model = Vec::new();
    for _ in 0..9 {
        push_f32(&mut model, 0.0);
    }
    for _ in 0..4 {
        push_i32(&mut model, 0); // head nodes
    }
    push_i32(&mut model, 0); // vis leaf count
    push_i32(&mut model, 0); // first face
    push_i32(&mut model, 1); // face count
    build_bsp(&[(1, planes), (3, vertices), (12, edges), (13, surfedges), (7, face), (14, model)])
}

#[test]
fn node_child_discrimination() {
    // Child >= 0 is a node index, -1 is empty, and any other negative
    // value c is leaf index -c - 1.
    assert_eq!(NodeChild::from_raw(0), NodeChild::Node(0));
    assert_eq!(NodeChild::from_raw(5), NodeChild::Node(5));
    assert_eq!(NodeChild::from_raw(32767), NodeChild::Node(32767));
    assert_eq!(NodeChild::from_raw(-1), NodeChild::Empty);
    assert_eq!(NodeChild::from_raw(-2), NodeChild::Leaf(1));
    assert_eq!(NodeChild::from_raw(-17), NodeChild::Leaf(16));
    assert_eq!(NodeChild::from_raw(-32768), NodeChild::Leaf(32767));
}

#[test]
fn edge_winding_follows_sign() {
    let edges = vec![
        Edge { v0: 3, v1: 9 },
        Edge { v0: 4, v1: 7 },
        Edge { v0: 5, v1: 6 },
    ];
    // v >= 0: the pair is (edges[v].v0, edges[v].v1).
    assert_eq!(SurfEdge(1).vertex_pair(&edges), Some((4, 7)));
    assert_eq!(SurfEdge(0).vertex_pair(&edges), Some((3, 9)));
    // v < 0: the pair is (edges[-v].v1, edges[-v].v0).
    assert_eq!(SurfEdge(-1).vertex_pair(&edges), Some((7, 4)));
    assert_eq!(SurfEdge(-2).vertex_pair(&edges), Some((6, 5)));
    // An out-of-range edge index yields nothing.
    assert_eq!(SurfEdge(3).vertex_pair(&edges), None);
    assert_eq!(SurfEdge(-3).vertex_pair(&edges), None);
    assert_eq!(SurfEdge(7).edge_ref(), EdgeRef::Forward(7));
    assert_eq!(SurfEdge(-7).edge_ref(), EdgeRef::Reversed(7));
}

#[test]
fn fan_triangulation_shapes() {
    let v = bits(0.0, 0.0, 0.0);
    // n >= 3 yields exactly n - 2 triangles (0, i, i + 1).
    assert_eq!(triangulate(&vec![v; 3]), vec![0, 1, 2]);
    assert_eq!(triangulate(&vec![v; 5]), vec![0, 1, 2, 0, 2, 3, 0, 3, 4]);
    // n < 3 yields an empty mesh.
    assert_eq!(triangulate(&vec![]), Vec::<u16>::new());
    assert_eq!(triangulate(&vec![v; 2]), Vec::<u16>::new());
}

fn node(front: i16, back: i16) -> Node {
    Node {
        idx_plane: 0,
        idx_children: [front, back],
        mins: [0; 3],
        maxs: [0; 3],
        first_face: 0,
        num_faces: 0,
    }
}

#[test]
fn traversal_visits_exactly_the_reachable_leaves() {
    // node 0 -> (node 1, leaf 1); node 1 -> (empty, leaf 3).
    let nodes = vec![node(1, -2), node(-1, -4)];
    let mut leaves = reachable_leaves(&nodes, 0);
    leaves.sort();
    assert_eq!(leaves, vec![1, 3]);
    // From node 1 only its own leaf is reachable.
    let mut from_one = reachable_leaves(&nodes, 1);
    from_one.sort();
    assert_eq!(from_one, vec![3]);
    // An out-of-range head reaches nothing.
    assert_eq!(reachable_leaves(&nodes, 2), Vec::<u16>::new());
    assert_eq!(reachable_leaves(&nodes, -1), Vec::<u16>::new());
}

#[test]
fn end_to_end_minimal_map() {
    let data = minimal_map(0);
    let mut decoder = BspDecoder::from_reader(data).expect("identifier is 30");
    let bsp = decoder.decode_gold_src_30().expect("the map decodes");
    assert_eq!(bsp.models.len(), 1);
    assert_eq!(bsp.planes.len(), 1);
    assert_eq!(bsp.vertices.len(), 3);
    assert_eq!(bsp.edges.len(), 3);
    assert_eq!(bsp.surf_edges.len(), 3);
    assert_eq!(bsp.faces.len(), 1);
    assert_eq!(bsp.textures.len(), 0);
    assert_eq!(bsp.edges[0], Edge { v0: 0, v1: 1 });
    assert_eq!(bsp.surf_edges[2], SurfEdge(-2));

    let (frames, diags) = build_model_faces(&bsp, &bsp.models[0]);
    assert_eq!(frames.len(), 1);
    assert!(diags.is_empty());
    let frame = &frames[0];
    // The boundary follows the surfedges: forward edge 0, forward edge 1,
    // reversed edge 2; the first vertex of each derived pair.
    assert_eq!(
        frame.positions,
        vec![bits(0.0, 0.0, 0.0), bits(1.0, 0.0, 0.0), bits(0.0, 1.0, 0.0)]
    );
    // Exactly one triangle, wound in the stored boundary order.
    assert_eq!(frame.indices, vec![0, 1, 2]);
    // No texture info: no projection, so UVs are (0, 0) by contract.
    assert!(frame.projection.is_none());
    assert!(frame.lighting.is_none());
    assert_eq!(frame.normal, Some(bits(0.0, 0.0, 1.0)));
}

#[test]
fn back_side_face_negates_normal() {
    let data = minimal_map(1);
    let mut decoder = BspDecoder::from_reader(data).expect("identifier is 30");
    let bsp = decoder.decode_gold_src_30().expect("the map decodes");
    let (frame, diags) = build_face_geometry(&bsp, 0);
    assert!(diags.is_empty());
    assert_eq!(frame.normal, Some(bits(-0.0, -0.0, -1.0)));
}

#[test]
fn dangling_references_are_reported_not_fatal() {
    let data = minimal_map(0);
    let mut decoder = BspDecoder::from_reader(data).expect("identifier is 30");
    let bsp = decoder.decode_gold_src_30().expect("the map decodes");
    // A face index past the lump.
    let (frame, diags) = build_face_geometry(&bsp, 9);
    assert!(frame.positions.is_empty());
    assert!(frame.indices.is_empty());
    assert_eq!(diags, vec![FaceDiagnostic::MissingFace { face: 9 }]);

    // A face whose plane dangles.
    let mut bad_plane = bsp.clone();
    bad_plane.faces[0].plane = 4;
    let (frame, diags) = build_face_geometry(&bad_plane, 0);
    assert!(frame.positions.is_empty());
    assert_eq!(frame.normal, None);
    assert_eq!(diags, vec![FaceDiagnostic::MissingPlane { face: 0, plane: 4 }]);

    // A face whose surfedge range runs past the lump: the two dangling
    // steps are reported, the one valid vertex is kept.
    let mut bad_range = bsp.clone();
    bad_range.faces[0].first_edge = 2;
    let (frame, diags) = build_face_geometry(&bad_range, 0);
    assert_eq!(frame.positions.len(), 1);
    assert!(frame.indices.is_empty());
    assert_eq!(
        diags,
        vec![
            FaceDiagnostic::MissingSurfEdge { face: 0, surfedge: 3 },
            FaceDiagnostic::MissingSurfEdge { face: 0, surfedge: 4 },
        ]
    );

    // A surfedge whose edge dangles.
    let mut bad_edge = bsp.clone();
    bad_edge.surf_edges[1] = SurfEdge(9);
    let (frame, diags) = build_face_geometry(&bad_edge, 0);
    assert_eq!(frame.positions.len(), 2);
    assert_eq!(
        diags,
        vec![FaceDiagnostic::MissingEdge { face: 0, surfedge: 1, edge: 9 }]
    );
}

#[test]
fn lighting_sample_is_shared_per_face() {
    // Two lighting samples; the face's lightmap offset of 3 selects the
    // second (offset / 3 = 1), shared by every vertex of the face.
    let mut data = minimal_map(0);
    let mut lighting = Vec::new();
    lighting.extend_from_slice(&[10, 20, 30, 40, 50, 60]);
    let off = data.len() as i32;
    data.extend_from_slice(&lighting);
    data[4 + 8 * 8..4 + 8 * 8 + 4].copy_from_slice(&off.to_le_bytes());
    data[4 + 8 * 8 + 4..4 + 8 * 8 + 8].copy_from_slice(&6i32.to_le_bytes());
    // Patch the face's lightmap offset (the face lump begins right after
    // the directory, the texture-count word, planes, vertices, edges and
    // surfedges; easier: re-decode and check via the builder on a
    // modified structure).
    let mut decoder = BspDecoder::from_reader(data).expect("identifier is 30");
    let mut bsp = decoder.decode_gold_src_30().expect("the map decodes");
    assert_eq!(bsp.lighting.len(), 2);
    bsp.faces[0].lightmap_offset = 3;
    let (frame, diags) = build_face_geometry(&bsp, 0);
    assert!(diags.is_empty());
    let sample = frame.lighting.expect("a lighting sample is attached");
    assert_eq!((sample.r, sample.g, sample.b), (40, 50, 60));
    // An offset past the lump attaches nothing.
    bsp.faces[0].lightmap_offset = 6;
    let (frame, _) = build_face_geometry(&bsp, 0);
    assert!(frame.lighting.is_none());
}

#[test]
fn decode_any_wraps_the_typed_decode() {
    let data = minimal_map(0);
    let decoder = BspDecoder::from_reader(data).expect("identifier is 30");
    assert_eq!(decoder.version(), BspVersion::GoldSrc30);
    match decoder.decode_any() {
        Ok(BspFormat::GoldSrc30(bsp)) => assert_eq!(bsp.faces.len(), 1),
        Err(e) => panic!("the map must decode, got {:?}", e),
    }
}

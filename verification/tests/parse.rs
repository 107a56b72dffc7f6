use ibsp::bsp::Bsp;
use ibsp::geometry::Geometry;
use ibsp::parse::{read_i32, read_scalar, read_u32, DecodeError, HEADER_SIZE, LUMP_COUNT};
use ibsp::scalar::Scalar;
use ibsp::store::LoadError;

fn no_curve(_level: u32, _k: u32, start: Scalar, _mid: Scalar, _end: Scalar) -> Scalar {
    start
}

fn put_i32(out: &mut Vec<u8>, x: i32) {
    out.extend_from_slice(&x.to_le_bytes());
}

fn put_f32(out: &mut Vec<u8>, x: f32) {
    out.extend_from_slice(&x.to_le_bytes());
}

fn put_name(out: &mut Vec<u8>, text: &str) {
    let mut bytes = [0u8; 64];
    bytes[..text.len()].copy_from_slice(text.as_bytes());
    out.extend_from_slice(&bytes);
}

/// A file with the given lumps, one after the other behind the header.
fn file(lumps: &[Vec<u8>]) -> Vec<u8> {
    assert_eq!(lumps.len(), LUMP_COUNT);
    let mut out = Vec::new();
    out.extend_from_slice(b"IBSP");
    out.extend_from_slice(&46u32.to_le_bytes());
    let mut offset = HEADER_SIZE;
    for lump in lumps {
        out.extend_from_slice(&(offset as u32).to_le_bytes());
        out.extend_from_slice(&(lump.len() as u32).to_le_bytes());
        offset += lump.len();
    }
    for lump in lumps {
        out.extend_from_slice(lump);
    }
    out
}

fn sample_lumps() -> Vec<Vec<u8>> {
    let mut lumps: Vec<Vec<u8>> = vec![Vec::new(); LUMP_COUNT];
    lumps[0] = b"{ }".to_vec();
    // Two textures.
    put_name(&mut lumps[1], "textures/base_wall/concrete");
    put_i32(&mut lumps[1], 7);
    put_i32(&mut lumps[1], 1);
    put_name(&mut lumps[1], "textures/skies/pj_dm9sky");
    put_i32(&mut lumps[1], -2);
    put_i32(&mut lumps[1], 0x10);
    // One plane, and three bytes that make up no record.
    put_f32(&mut lumps[2], 0.0);
    put_f32(&mut lumps[2], -1.0);
    put_f32(&mut lumps[2], 0.5);
    put_f32(&mut lumps[2], 128.25);
    lumps[2].extend_from_slice(&[1, 2, 3]);
    // One node.
    for x in [0, -1, -2, -10, -20, -30, 10, 20, 30] {
        put_i32(&mut lumps[3], x);
    }
    // Two leaves.
    for x in [3, 4, -1, -2, -3, 1, 2, 3, 5, 6, 0, 1] {
        put_i32(&mut lumps[4], x);
    }
    for x in [0, 0, 0, 0, 0, 0, 0, 0, 0, 0, 0, 0] {
        put_i32(&mut lumps[4], x);
    }
    // Leaf faces, leaf brushes.
    put_i32(&mut lumps[5], 9);
    put_i32(&mut lumps[6], 0);
    // One model.
    for x in [-1, -2, -3, 1, 2, 3, 4, 5, 6, 7] {
        put_i32(&mut lumps[7], x);
    }
    // One brush with one side.
    for x in [0, 1, 0] {
        put_i32(&mut lumps[8], x);
    }
    for x in [0, 1] {
        put_i32(&mut lumps[9], x);
    }
    // Two vertices.
    for i in 0..2 {
        let k = i as f32;
        for x in [1.0 + k, 2.0, 3.0, 0.25, 0.5, 0.75, 1.0, 0.0, 0.0, 1.0] {
            put_f32(&mut lumps[10], x);
        }
        lumps[10].extend_from_slice(&[10, 20, 30, 40 + i as u8]);
    }
    // Mesh vertices.
    for x in [0, 1, -1] {
        put_i32(&mut lumps[11], x);
    }
    // One effect.
    put_name(&mut lumps[12], "fog");
    put_i32(&mut lumps[12], 3);
    put_i32(&mut lumps[12], -1);
    // One face.
    for x in [1, -1, 4, 0, 2, 0, 3, -1, 5, 6, 7, 8] {
        put_i32(&mut lumps[13], x);
    }
    for x in [1.0, 2.0, 3.0, 4.0, 5.0, 6.0, 7.0, 8.0, 9.0, 0.0, 0.0, 1.0] {
        put_f32(&mut lumps[13], x);
    }
    put_i32(&mut lumps[13], 3);
    put_i32(&mut lumps[13], 5);
    // One light map.
    lumps[14] = (0..49152u32).map(|i| (i % 251) as u8).collect();
    // One light volume.
    lumps[15] = vec![1, 2, 3, 4, 5, 6, 7, 8];
    // Visibility data: a header and two bytes.
    put_i32(&mut lumps[16], 2);
    put_i32(&mut lumps[16], 1);
    lumps[16].extend_from_slice(&[0xFF, 0x01]);
    lumps
}

#[test]
fn numbers_are_read_least_significant_byte_first() {
    let bytes = [0x78, 0x56, 0x34, 0x12, 0xFF, 0xFF, 0xFF, 0xFF, 0x00, 0x00, 0x00, 0x80];
    assert_eq!(read_u32(&bytes, 0), 0x1234_5678);
    assert_eq!(read_u32(&bytes, 1), 0xFF12_3456);
    assert_eq!(read_u32(&bytes, 4), 0xFFFF_FFFF);
    assert_eq!(read_i32(&bytes, 0), 0x1234_5678);
    assert_eq!(read_i32(&bytes, 4), -1);
    assert_eq!(read_i32(&bytes, 8), i32::MIN);
    assert_eq!(read_i32(&bytes, 7), 0xFF);
    assert_eq!(read_scalar(&bytes, 8).bits, (-0.0f32).to_bits());
    let one = 1.0f32.to_le_bytes();
    assert_eq!(read_scalar(&one, 0).bits, 0x3F80_0000);
}

#[test]
fn every_lump_is_decoded() {
    let g = Geometry::decode(&file(&sample_lumps())).unwrap();
    assert_eq!(g.version, 46);

    assert_eq!(g.textures.len(), 2);
    assert_eq!(&g.textures[0].name[..27], b"textures/base_wall/concrete");
    assert_eq!(g.textures[0].name[27], 0);
    assert_eq!(g.textures[0].flags, 7);
    assert_eq!(g.textures[0].contents, 1);
    assert_eq!(g.textures[1].flags, -2);
    assert_eq!(g.textures[1].contents, 0x10);

    assert_eq!(g.planes.len(), 1);
    assert_eq!(g.planes[0].normal[0].bits, 0.0f32.to_bits());
    assert_eq!(g.planes[0].normal[1].bits, (-1.0f32).to_bits());
    assert_eq!(g.planes[0].normal[2].bits, 0.5f32.to_bits());
    assert_eq!(g.planes[0].distance.bits, 128.25f32.to_bits());

    assert_eq!(g.nodes.len(), 1);
    assert_eq!(g.nodes[0].plane, 0);
    assert_eq!(g.nodes[0].children, [-1, -2]);
    assert_eq!(g.nodes[0].mins, [-10, -20, -30]);
    assert_eq!(g.nodes[0].maxs, [10, 20, 30]);

    assert_eq!(g.leafs.len(), 2);
    assert_eq!(g.leafs[0].cluster, 3);
    assert_eq!(g.leafs[0].area, 4);
    assert_eq!(g.leafs[0].mins, [-1, -2, -3]);
    assert_eq!(g.leafs[0].maxs, [1, 2, 3]);
    assert_eq!(g.leafs[0].leaf_face, 5);
    assert_eq!(g.leafs[0].num_leaf_faces, 6);
    assert_eq!(g.leafs[0].leaf_brush, 0);
    assert_eq!(g.leafs[0].num_leaf_brushes, 1);

    assert_eq!(g.leaf_faces.len(), 1);
    assert_eq!(g.leaf_faces[0].face, 9);
    assert_eq!(g.leaf_brushes.len(), 1);
    assert_eq!(g.leaf_brushes[0].brush, 0);

    assert_eq!(g.models.len(), 1);
    assert_eq!(g.models[0].mins, [-1, -2, -3]);
    assert_eq!(g.models[0].maxs, [1, 2, 3]);
    assert_eq!(g.models[0].face, 4);
    assert_eq!(g.models[0].num_faces, 5);
    assert_eq!(g.models[0].brush, 6);
    assert_eq!(g.models[0].num_brushes, 7);

    assert_eq!(g.brushes.len(), 1);
    assert_eq!(g.brushes[0].brush_side, 0);
    assert_eq!(g.brushes[0].num_brush_sides, 1);
    assert_eq!(g.brushes[0].texture, 0);
    assert_eq!(g.brush_sides.len(), 1);
    assert_eq!(g.brush_sides[0].plane, 0);
    assert_eq!(g.brush_sides[0].texture, 1);

    assert_eq!(g.vertexes.len(), 2);
    let v = &g.vertexes[1];
    assert_eq!(v.position.map(|x| f32::from_bits(x.bits)), [2.0, 2.0, 3.0]);
    assert_eq!(v.texcoord_s.map(|x| f32::from_bits(x.bits)), [0.25, 0.5]);
    assert_eq!(v.texcoord_l.map(|x| f32::from_bits(x.bits)), [0.75, 1.0]);
    assert_eq!(v.normal.map(|x| f32::from_bits(x.bits)), [0.0, 0.0, 1.0]);
    assert_eq!(v.colour, [10, 20, 30, 41]);

    assert_eq!(g.mesh_verts.len(), 3);
    assert_eq!(g.mesh_verts[2].offset, -1);

    assert_eq!(g.effects.len(), 1);
    assert_eq!(&g.effects[0].name[..4], b"fog\0");
    assert_eq!(g.effects[0].brush, 3);
    assert_eq!(g.effects[0].unknown, -1);

    assert_eq!(g.faces.len(), 1);
    let face = &g.faces[0];
    assert_eq!(face.texture, 1);
    assert_eq!(face.effect, -1);
    assert_eq!(face.type_draw, 4);
    assert_eq!(face.vertex, 0);
    assert_eq!(face.num_vertexes, 2);
    assert_eq!(face.mesh_vert, 0);
    assert_eq!(face.num_mesh_verts, 3);
    assert_eq!(face.lightmap_index, -1);
    assert_eq!(face.lightmap_start, [5, 6]);
    assert_eq!(face.lightmap_size, [7, 8]);
    assert_eq!(face.lightmap_origin.map(|x| f32::from_bits(x.bits)), [1.0, 2.0, 3.0]);
    assert_eq!(face.lightmap_vecs[0].map(|x| f32::from_bits(x.bits)), [4.0, 5.0, 6.0]);
    assert_eq!(face.lightmap_vecs[1].map(|x| f32::from_bits(x.bits)), [7.0, 8.0, 9.0]);
    assert_eq!(face.normal.map(|x| f32::from_bits(x.bits)), [0.0, 0.0, 1.0]);
    assert_eq!(face.size, [3, 5]);

    assert_eq!(g.light_maps.len(), 1);
    assert_eq!(g.light_maps[0].map[0], 0);
    assert_eq!(g.light_maps[0].map[250], 250);
    assert_eq!(g.light_maps[0].map[251], 0);
    assert_eq!(g.light_maps[0].map[49151], (49151u32 % 251) as u8);

    assert_eq!(g.light_vols.len(), 1);
    assert_eq!(g.light_vols[0].ambient, [1, 2, 3]);
    assert_eq!(g.light_vols[0].directional, [4, 5, 6]);
    assert_eq!(g.light_vols[0].dir, [7, 8]);

    let vis = g.vis_data.unwrap();
    assert_eq!(vis.num_vecs, 2);
    assert_eq!(vis.size_vecs, 1);
}

#[test]
fn a_file_without_lumps_decodes_to_nothing() {
    let lumps: Vec<Vec<u8>> = vec![Vec::new(); LUMP_COUNT];
    let g = Geometry::decode(&file(&lumps)).unwrap();
    assert!(g.textures.is_empty());
    assert!(g.planes.is_empty());
    assert!(g.nodes.is_empty());
    assert!(g.faces.is_empty());
    assert!(g.light_maps.is_empty());
    assert!(g.vis_data.is_none());
}

#[test]
fn a_short_file_is_refused() {
    assert_eq!(Geometry::decode(&[]).unwrap_err(), DecodeError::TooShort);
    assert_eq!(Geometry::decode(b"IBSP").unwrap_err(), DecodeError::TooShort);
    let bytes = file(&sample_lumps());
    assert_eq!(Geometry::decode(&bytes[..143]).unwrap_err(), DecodeError::TooShort);
}

#[test]
fn a_file_without_the_magic_is_refused() {
    let mut bytes = file(&sample_lumps());
    bytes[3] = b'Q';
    assert_eq!(Geometry::decode(&bytes).unwrap_err(), DecodeError::BadMagic);
    let bytes = vec![0u8; 144];
    assert_eq!(Geometry::decode(&bytes).unwrap_err(), DecodeError::BadMagic);
    assert!(matches!(
        Bsp::new(&bytes, &no_curve),
        Err(LoadError::Decode(DecodeError::BadMagic))
    ));
}

#[test]
fn a_lump_outside_the_file_is_refused() {
    let bytes = file(&sample_lumps());
    let cut = &bytes[..bytes.len() - 1];
    assert_eq!(
        Geometry::decode(cut).unwrap_err(),
        DecodeError::LumpOutOfBounds { lump: 16 }
    );
    // The first lump that does not fit is named.
    let mut broken = bytes.clone();
    broken[8 + 8 * 5..8 + 8 * 5 + 4].copy_from_slice(&u32::MAX.to_le_bytes());
    broken[8 + 8 * 9 + 4..8 + 8 * 9 + 8].copy_from_slice(&u32::MAX.to_le_bytes());
    assert_eq!(
        Geometry::decode(&broken).unwrap_err(),
        DecodeError::LumpOutOfBounds { lump: 5 }
    );
    assert!(matches!(
        Bsp::new(&broken, &no_curve),
        Err(LoadError::Decode(DecodeError::LumpOutOfBounds { lump: 5 }))
    ));
}

#[test]
fn a_decoded_file_is_checked() {
    // The sample names leaf -2 but its brush names texture 0 of two: it
    // loads. With the brush naming a texture that is not there it does not.
    let lumps = sample_lumps();
    let bsp = Bsp::new(&file(&lumps), &no_curve).unwrap();
    assert_eq!(bsp.geometry().planes.len(), 1);
    assert_eq!(bsp.vertexes().len(), 2);

    let mut lumps = sample_lumps();
    lumps[8].clear();
    for x in [0, 1, 2] {
        put_i32(&mut lumps[8], x);
    }
    assert!(matches!(Bsp::new(&file(&lumps), &no_curve), Err(LoadError::BadBrush)));

    let mut lumps = sample_lumps();
    lumps[3].clear();
    assert!(matches!(Bsp::new(&file(&lumps), &no_curve), Err(LoadError::NoNodes)));
}

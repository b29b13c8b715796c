use hlbsp::batch::{batch_faces, triangulate};
use hlbsp::error::DecodeError;
use hlbsp::lump::{LumpType, RawMap};
use hlbsp::map::BspMap;
use hlbsp::miptex::MipData;
use hlbsp::records::{Edge, Face, Vec3};

fn push_u32(out: &mut Vec<u8>, v: u32) {
    out.extend_from_slice(&v.to_le_bytes());
}

fn push_u16(out: &mut Vec<u8>, v: u16) {
    out.extend_from_slice(&v.to_le_bytes());
}

fn push_f32(out: &mut Vec<u8>, v: f32) {
    out.extend_from_slice(&v.to_bits().to_le_bytes());
}

/// A file with the given lumps, laid out one after another after the header.
fn build_bsp(lumps: &[Vec<u8>; 15]) -> Vec<u8> {
    let mut out = Vec::new();
    push_u32(&mut out, 30);
    let mut offset = 124u32;
    for l in lumps.iter() {
        push_u32(&mut out, offset);
        push_u32(&mut out, l.len() as u32);
        offset += l.len() as u32;
    }
    for l in lumps.iter() {
        out.extend_from_slice(l);
    }
    out
}

fn absent_miptex(name: &str) -> Vec<u8> {
    let mut rec = vec![0u8; 16];
    rec[..name.len()].copy_from_slice(name.as_bytes());
    push_u32(&mut rec, 16);
    push_u32(&mut rec, 16);
    for _ in 0..4 {
        push_u32(&mut rec, 0);
    }
    rec
}

/// One model of one quad face: four vertices wound counter-clockwise, unit
/// texture axes with zero shifts, and a texture named `wall`.
fn quad_bsp() -> Vec<u8> {
    let mut lumps: [Vec<u8>; 15] = Default::default();
    lumps[0] = b"{\n\"classname\" \"worldspawn\"\n}\n\0".to_vec();
    let mut planes = Vec::new();
    for v in [0.0f32, 0.0, 1.0, 0.0] {
        push_f32(&mut planes, v);
    }
    push_u32(&mut planes, 2);
    lumps[1] = planes;
    let mut textures = Vec::new();
    push_u32(&mut textures, 1);
    push_u32(&mut textures, 8);
    textures.extend_from_slice(&absent_miptex("wall"));
    lumps[2] = textures;
    let mut vertices = Vec::new();
    for p in [[0.0f32, 0.0, 0.0], [64.0, 0.0, 0.0], [64.0, 64.0, 0.0], [0.0, 64.0, 0.0]] {
        for c in p {
            push_f32(&mut vertices, c);
        }
    }
    lumps[3] = vertices;
    let mut texinfo = Vec::new();
    for v in [1.0f32, 0.0, 0.0, 0.0, 0.0, 1.0, 0.0, 0.0] {
        push_f32(&mut texinfo, v);
    }
    push_u32(&mut texinfo, 0);
    push_u32(&mut texinfo, 0);
    lumps[6] = texinfo;
    let mut faces = Vec::new();
    push_u16(&mut faces, 0);
    push_u16(&mut faces, 0);
    push_u32(&mut faces, 0);
    push_u16(&mut faces, 4);
    push_u16(&mut faces, 0);
    faces.extend_from_slice(&[0, 0, 0, 0]);
    push_u32(&mut faces, 0);
    lumps[7] = faces;
    let mut edges = Vec::new();
    for (a, b) in [(0u16, 1u16), (1, 2), (2, 3), (3, 0)] {
        push_u16(&mut edges, a);
        push_u16(&mut edges, b);
    }
    lumps[12] = edges;
    let mut surfedges = Vec::new();
    for s in [0i32, 1, 2, 3] {
        surfedges.extend_from_slice(&s.to_le_bytes());
    }
    lumps[13] = surfedges;
    let mut model = Vec::new();
    for _ in 0..9 {
        push_f32(&mut model, 0.0);
    }
    for _ in 0..5 {
        push_u32(&mut model, 0);
    }
    push_u32(&mut model, 0);
    push_u32(&mut model, 1);
    lumps[14] = model;
    build_bsp(&lumps)
}

#[test]
fn version_gate_rejects_other_versions() {
    let mut file = quad_bsp();
    assert!(RawMap::parse(&file).is_ok());
    for v in [0u32, 29, 31, 0x1e00_0000, u32::MAX] {
        file[..4].copy_from_slice(&v.to_le_bytes());
        assert_eq!(RawMap::parse(&file).err(), Some(DecodeError::VersionMismatch));
        assert_eq!(BspMap::new(&file).err(), Some(DecodeError::VersionMismatch));
    }
}

#[test]
fn short_header_is_out_of_bounds() {
    assert_eq!(RawMap::parse(&[30, 0]).err(), Some(DecodeError::OutOfBounds));
    assert_eq!(RawMap::parse(&[30, 0, 0, 0, 1, 2]).err(), Some(DecodeError::OutOfBounds));
}

#[test]
fn lump_bounds() {
    let mut file = quad_bsp();
    let map = RawMap::parse(&file).unwrap();
    let planes = map.lump_data(LumpType::Planes).unwrap();
    assert_eq!(planes.len(), 20);
    assert_eq!(map.lump_data(LumpType::Visibility).unwrap().len(), 0);
    // Lengthen the edges lump past the end of the file.
    let at = 4 + 8 * 12 + 4;
    let len = file.len() as u32;
    file[at..at + 4].copy_from_slice(&len.to_le_bytes());
    let map = RawMap::parse(&file).unwrap();
    assert_eq!(map.lump_data(LumpType::Edges).err(), Some(DecodeError::OutOfBounds));
    assert_eq!(map.lump_data(LumpType::Faces).unwrap().len(), 20);
    assert_eq!(BspMap::new(&file).err(), Some(DecodeError::OutOfBounds));
}

#[test]
fn decode_tables() {
    let map = BspMap::new(&quad_bsp()).unwrap();
    assert_eq!(map.entities, b"{\n\"classname\" \"worldspawn\"\n}\n".to_vec());
    assert_eq!(map.vertices.len(), 4);
    assert_eq!(map.vertices[1].x, 64.0f32.to_bits());
    assert_eq!(map.edges[3], Edge { v0: 3, v1: 0 });
    assert_eq!(map.surfedges, vec![0, 1, 2, 3]);
    assert_eq!(map.faces.len(), 1);
    assert_eq!(map.faces[0].surfedges_num, 4);
    assert_eq!(map.texinfos[0].s.x, 1.0f32.to_bits());
    assert_eq!(map.models[0].faces_num, 1);
    assert_eq!(map.textures.len(), 1);
    assert_eq!(map.textures[0].name, b"wall".to_vec());
    assert!(matches!(map.textures[0].data, MipData::Absent));
}

fn winding_map() -> BspMap {
    let mut map = BspMap::new(&quad_bsp()).unwrap();
    map.edges = vec![Edge { v0: 0, v1: 1 }, Edge { v0: 1, v1: 2 }, Edge { v0: 0, v1: 2 }];
    map.surfedges = vec![0, 1, -2];
    map
}

#[test]
fn surfedge_winding_round_trip() {
    let map = winding_map();
    let face = Face {
        plane_index: 0,
        plane_side: 0,
        first_surfedge: 0,
        surfedges_num: 3,
        texinfo_index: 0,
        styles: [0; 4],
        lightmap_offset: 0,
    };
    assert_eq!(map.face_to_vertices(&face).unwrap(), vec![0, 1, 2]);
}

#[test]
fn dangling_surfedge_is_index_out_of_range() {
    let mut map = winding_map();
    map.surfedges = vec![0, 1, -7];
    let face = Face {
        plane_index: 0,
        plane_side: 0,
        first_surfedge: 0,
        surfedges_num: 3,
        texinfo_index: 0,
        styles: [0; 4],
        lightmap_offset: 0,
    };
    assert_eq!(map.face_to_vertices(&face).err(), Some(DecodeError::IndexOutOfRange));
    let long = Face { surfedges_num: 9, ..face };
    assert_eq!(map.face_to_vertices(&long).err(), Some(DecodeError::IndexOutOfRange));
}

#[test]
fn triangulate_laws() {
    assert_eq!(triangulate(vec![7, 8, 9]), vec![7, 8, 9]);
    assert_eq!(triangulate(vec![1, 2, 3, 4]), vec![1, 2, 3, 1, 3, 4]);
    assert_eq!(triangulate(vec![]), Vec::<usize>::new());
    assert_eq!(triangulate(vec![5]), Vec::<usize>::new());
    assert_eq!(triangulate(vec![5, 6]), Vec::<usize>::new());
    for n in 3..12usize {
        let t = triangulate((0..n).collect());
        assert_eq!(t.len() / 3, n - 2);
        assert_eq!(t.len() % 3, 0);
    }
}

#[test]
fn end_to_end_quad() {
    let map = BspMap::new(&quad_bsp()).unwrap();
    let geometry = map.decode_model_geometry(0).unwrap();
    assert_eq!(geometry.vertices.len(), 4);
    assert_eq!(geometry.vertices[2].position, Vec3 {
        x: 64.0f32.to_bits(),
        y: 64.0f32.to_bits(),
        z: 0.0f32.to_bits(),
    });
    let up = Vec3 { x: 0.0f32.to_bits(), y: 0.0f32.to_bits(), z: 1.0f32.to_bits() };
    assert!(geometry.vertices.iter().all(|v| v.normal == up));
    assert_eq!(geometry.faces.len(), 1);
    assert_eq!(geometry.faces[0].first, 0);
    assert_eq!(geometry.faces[0].count, 4);
    let batches = batch_faces(&geometry.faces);
    assert_eq!(batches.len(), 1);
    assert_eq!(batches[0].name, b"wall".to_vec());
    assert_eq!(batches[0].indices, vec![0, 1, 2, 0, 2, 3]);
    assert_eq!(batches[0].indices.len() / 3, 2);
}

#[test]
fn missing_model_is_index_out_of_range() {
    let map = BspMap::new(&quad_bsp()).unwrap();
    assert_eq!(map.decode_model_geometry(1).err(), Some(DecodeError::IndexOutOfRange));
    let mut bad = BspMap::new(&quad_bsp()).unwrap();
    bad.texinfos[0].texture_index = 5;
    assert_eq!(bad.decode_model_geometry(0).err(), Some(DecodeError::IndexOutOfRange));
}

#[test]
fn back_side_flips_normal() {
    let mut map = BspMap::new(&quad_bsp()).unwrap();
    map.faces[0].plane_side = 1;
    let geometry = map.decode_model_geometry(0).unwrap();
    assert_eq!(f32::from_bits(geometry.vertices[0].normal.z), -1.0);
    assert_eq!(geometry.vertices[0].normal.x, (-0.0f32).to_bits());
}

#[test]
fn small_faces_add_nothing() {
    let mut map = BspMap::new(&quad_bsp()).unwrap();
    map.faces[0].surfedges_num = 2;
    let geometry = map.decode_model_geometry(0).unwrap();
    assert_eq!(geometry.vertices.len(), 0);
    assert_eq!(geometry.faces.len(), 0);
}

#[test]
fn sky_and_trigger_are_dropped() {
    let mut map = BspMap::new(&quad_bsp()).unwrap();
    for name in ["SKY", "sky", "AAATRIGGER", "aaaTrigger"] {
        map.textures[0].name = name.as_bytes().to_vec();
        let geometry = map.decode_model_geometry(0).unwrap();
        assert!(batch_faces(&geometry.faces).is_empty());
    }
    map.textures[0].name = b"Wall".to_vec();
    let geometry = map.decode_model_geometry(0).unwrap();
    let batches = batch_faces(&geometry.faces);
    assert_eq!(batches.len(), 1);
    assert_eq!(batches[0].name, b"wall".to_vec());
}

#[test]
fn absent_texture_names() {
    let map = BspMap::new(&quad_bsp()).unwrap();
    assert_eq!(map.empty_textures(), vec![b"wall".to_vec()]);
}

#[test]
fn lighting_becomes_opaque_texels() {
    let lighting = [1u8, 2, 3, 4, 5, 6, 7];
    assert_eq!(hlbsp::geometry::lightmap_rgba(&lighting), vec![1, 2, 3, 255, 4, 5, 6, 255]);
    assert!(hlbsp::geometry::lightmap_rgba(&[]).is_empty());
}

//! The decoded tables of a BSP file.
use vstd::prelude::*;
use crate::bytes::{cstr_of, read_name};
use crate::error::DecodeError;
use crate::lump::{header_error, lump_entry, LumpType, RawMap};
use crate::miptex::{parse_textures, textures_fail, textures_ok, MipTexture, MipTextureView};
use crate::record::{read_mul_structs, records_of};
use crate::records::{Clipnode, Edge, Face, Model, Plane, TexInfo, Vec3};

verus! {

/// The bytes of a lump, read through the file's own directory.
pub open spec fn lump_bytes(file: Seq<u8>, t: LumpType) -> Seq<u8> {
    lump_entry(file, t).spec_data(file)
}

pub open spec fn lump_ok(file: Seq<u8>, t: LumpType) -> bool {
    lump_entry(file, t).in_bounds(file.len())
}

/// Every lump that the decoder reads lies inside the file.
pub open spec fn lumps_ok(file: Seq<u8>) -> bool {
    &&& lump_ok(file, LumpType::Entities)
    &&& lump_ok(file, LumpType::Planes)
    &&& lump_ok(file, LumpType::Textures)
    &&& lump_ok(file, LumpType::Vertices)
    &&& lump_ok(file, LumpType::TexInfo)
    &&& lump_ok(file, LumpType::Faces)
    &&& lump_ok(file, LumpType::Lighting)
    &&& lump_ok(file, LumpType::Clipnodes)
    &&& lump_ok(file, LumpType::Marksurfaces)
    &&& lump_ok(file, LumpType::Edges)
    &&& lump_ok(file, LumpType::Surfedges)
    &&& lump_ok(file, LumpType::Models)
}

/// The decoded tables of a BSP file.
pub struct BspMap {
    pub entities: Vec<u8>,
    pub planes: Vec<Plane>,
    pub textures: Vec<MipTexture>,
    pub vertices: Vec<Vec3>,
    pub texinfos: Vec<TexInfo>,
    pub faces: Vec<Face>,
    pub lighting: Vec<u8>,
    pub clipnodes: Vec<Clipnode>,
    pub marksurfaces: Vec<u16>,
    pub edges: Vec<Edge>,
    pub surfedges: Vec<i32>,
    pub models: Vec<Model>,
}

impl BspMap {
    /// The tables are those that `file` encodes.
    pub open spec fn decodes_from(&self, file: Seq<u8>) -> bool {
        &&& header_error(file) is None
        &&& lumps_ok(file)
        &&& self.entities@ == cstr_of(lump_bytes(file, LumpType::Entities))
        &&& self.planes@ == records_of::<Plane>(lump_bytes(file, LumpType::Planes))
        &&& textures_ok(
            lump_bytes(file, LumpType::Textures),
            self.textures@.map_values(|t: MipTexture| t@),
        )
        &&& self.vertices@ == records_of::<Vec3>(lump_bytes(file, LumpType::Vertices))
        &&& self.texinfos@ == records_of::<TexInfo>(lump_bytes(file, LumpType::TexInfo))
        &&& self.faces@ == records_of::<Face>(lump_bytes(file, LumpType::Faces))
        &&& self.lighting@ == lump_bytes(file, LumpType::Lighting)
        &&& self.clipnodes@ == records_of::<Clipnode>(lump_bytes(file, LumpType::Clipnodes))
        &&& self.marksurfaces@ == records_of::<u16>(lump_bytes(file, LumpType::Marksurfaces))
        &&& self.edges@ == records_of::<Edge>(lump_bytes(file, LumpType::Edges))
        &&& self.surfedges@ == records_of::<i32>(lump_bytes(file, LumpType::Surfedges))
        &&& self.models@ == records_of::<Model>(lump_bytes(file, LumpType::Models))
    }

    pub open spec fn wf(&self) -> bool {
        forall|i: int| 0 <= i < self.textures@.len() ==> (#[trigger] self.textures@[i]).wf()
    }

    /// Decode a BSP file: its header, then each lump's records. Fails with the
    /// header's error, with `OutOfBounds` for a lump that passes the end of
    /// the file, or with the error of the textures lump.
    pub fn new(buf: &[u8]) -> (r: Result<BspMap, DecodeError>)
        ensures
            match r {
                Ok(m) => m.wf() && m.decodes_from(buf@),
                Err(e) => {
                    ||| header_error(buf@) == Some(e)
                    ||| header_error(buf@) is None && !lumps_ok(buf@) && e
                        == DecodeError::OutOfBounds
                    ||| header_error(buf@) is None && lumps_ok(buf@) && textures_fail(
                        lump_bytes(buf@, LumpType::Textures),
                        e,
                    )
                },
            },
    {
        let map = RawMap::parse(buf)?;
        assert(map.file@ == buf@);
        let entities_lump = map.lump_data(LumpType::Entities)?;
        let planes_lump = map.lump_data(LumpType::Planes)?;
        let textures_lump = map.lump_data(LumpType::Textures)?;
        let vertices_lump = map.lump_data(LumpType::Vertices)?;
        let texinfo_lump = map.lump_data(LumpType::TexInfo)?;
        let faces_lump = map.lump_data(LumpType::Faces)?;
        let lighting_lump = map.lump_data(LumpType::Lighting)?;
        let clipnodes_lump = map.lump_data(LumpType::Clipnodes)?;
        let marksurfaces_lump = map.lump_data(LumpType::Marksurfaces)?;
        let edges_lump = map.lump_data(LumpType::Edges)?;
        let surfedges_lump = map.lump_data(LumpType::Surfedges)?;
        let models_lump = map.lump_data(LumpType::Models)?;
        let textures = parse_textures(textures_lump)?;
        let entities = read_name(entities_lump);
        let planes = read_mul_structs::<Plane>(planes_lump);
        let vertices = read_mul_structs::<Vec3>(vertices_lump);
        let texinfos = read_mul_structs::<TexInfo>(texinfo_lump);
        let faces = read_mul_structs::<Face>(faces_lump);
        let lighting = vstd::slice::slice_to_vec(lighting_lump);
        let clipnodes = read_mul_structs::<Clipnode>(clipnodes_lump);
        let marksurfaces = read_mul_structs::<u16>(marksurfaces_lump);
        let edges = read_mul_structs::<Edge>(edges_lump);
        let surfedges = read_mul_structs::<i32>(surfedges_lump);
        let models = read_mul_structs::<Model>(models_lump);
        Ok(
            BspMap {
                entities,
                planes,
                textures,
                vertices,
                texinfos,
                faces,
                lighting,
                clipnodes,
                marksurfaces,
                edges,
                surfedges,
                models,
            },
        )
    }

    /// The names of the textures that carry no pixel data, in table order.
    pub fn empty_textures(&self) -> (r: Vec<Vec<u8>>)
        ensures
            r@.map_values(|n: Vec<u8>| n@) == absent_names(
                self.textures@.map_values(|t: MipTexture| t@),
            ),
    {
        let ghost tv = self.textures@.map_values(|t: MipTexture| t@);
        let mut out: Vec<Vec<u8>> = Vec::new();
        let mut i: usize = 0;
        while i < self.textures.len()
            invariant
                tv == self.textures@.map_values(|t: MipTexture| t@),
                i <= self.textures@.len(),
                out@.map_values(|n: Vec<u8>| n@) == absent_names(tv.subrange(0, i as int)),
            decreases self.textures@.len() - i,
        {
            proof {
                let sub = tv.subrange(0, i + 1);
                assert(sub.drop_last() =~= tv.subrange(0, i as int));
                assert(sub.last() == self.textures@[i as int]@);
            }
            let t = &self.textures[i];
            if t.is_absent() {
                let ghost before = out@.map_values(|n: Vec<u8>| n@);
                let name = t.name.clone();
                let ghost nv = name@;
                out.push(name);
                assert(out@.map_values(|n: Vec<u8>| n@) =~= before.push(nv));
            }
            i = i + 1;
        }
        assert(tv.subrange(0, self.textures@.len() as int) =~= tv);
        out
    }
}

/// The names of the textures without pixel data.
pub open spec fn absent_names(ts: Seq<MipTextureView>) -> Seq<Seq<u8>>
    decreases ts.len(),
{
    if ts.len() == 0 {
        Seq::empty()
    } else {
        let prev = absent_names(ts.drop_last());
        if ts.last().data is None {
            prev.push(ts.last().name)
        } else {
            prev
        }
    }
}

} // verus!

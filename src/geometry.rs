//! From faces to ordered vertex loops: face -> surfedge run -> edge -> vertex,
//! with the surfedge's sign choosing the edge's direction.
use vstd::prelude::*;
use crate::error::DecodeError;
use crate::map::BspMap;
use crate::records::{Edge, Face, Vec3};

verus! {

/// The vertex a surfedge starts at: `v0` of a positive one, `v1` of the edge
/// a negative one reverses.
pub open spec fn resolve_surfedge(edges: Seq<Edge>, s: i32) -> u16 {
    if s >= 0 {
        edges[s as int].v0
    } else {
        edges[-(s as int)].v1
    }
}

/// The surfedge names an edge of the table.
pub open spec fn surfedge_in_range(edges: Seq<Edge>, s: i32) -> bool {
    if s >= 0 {
        (s as int) < edges.len()
    } else {
        -(s as int) < edges.len()
    }
}

/// The vertex index that a surfedge resolves to, or nothing when it names no
/// edge of the table.
pub fn surfedge_vertex(edges: &[Edge], s: i32) -> (r: Option<u16>)
    ensures
        match r {
            Some(v) => surfedge_in_range(edges@, s) && v == resolve_surfedge(edges@, s),
            None => !surfedge_in_range(edges@, s),
        },
{
    let e: u64 = if s >= 0 {
        s as u64
    } else {
        (-(s as i64)) as u64
    };
    if e >= edges.len() as u64 {
        None
    } else if s >= 0 {
        Some(edges[e as usize].v0)
    } else {
        Some(edges[e as usize].v1)
    }
}

/// A vertex of the reconstructed mesh: position and flat normal as float bit
/// patterns, and the face's texel offset into the lighting lump.
#[derive(Debug, Clone, Copy, PartialEq, Eq, Structural)]
pub struct GeoVertex {
    pub position: Vec3,
    pub normal: Vec3,
    pub lightmap_offset: u32,
}

/// A face's run of vertices in the vertex list, and its texture.
pub struct FaceRangeView {
    pub first: int,
    pub count: int,
    pub texinfo: int,
    pub texture: int,
    pub name: Seq<u8>,
}

pub struct FaceRange {
    pub first: usize,
    pub count: usize,
    pub texinfo: usize,
    pub texture: usize,
    pub name: Vec<u8>,
}

impl View for FaceRange {
    type V = FaceRangeView;

    open spec fn view(&self) -> FaceRangeView {
        FaceRangeView {
            first: self.first as int,
            count: self.count as int,
            texinfo: self.texinfo as int,
            texture: self.texture as int,
            name: self.name@,
        }
    }
}

/// The mesh of one model: a flat vertex list and, per face, its range and
/// texture name.
pub struct ResolvedGeometry {
    pub origin: Vec3,
    pub vertices: Vec<GeoVertex>,
    pub faces: Vec<FaceRange>,
}

/// Faces of fewer than three vertices add nothing to the mesh.
pub const MIN_POLYGON: u16 = 3;

impl BspMap {
    /// Every surfedge of the face's run exists and resolves to a vertex.
    pub open spec fn spec_run_ok(&self, f: Face) -> bool {
        &&& f.first_surfedge as int + f.surfedges_num as int <= self.surfedges@.len()
        &&& forall|k: int|
            0 <= k < f.surfedges_num ==> {
                let s = #[trigger] self.surfedges@[f.first_surfedge as int + k];
                surfedge_in_range(self.edges@, s) && (resolve_surfedge(self.edges@, s) as int)
                    < self.vertices@.len()
            }
    }

    /// The face's polygon: vertex indices in surfedge order.
    pub open spec fn spec_face_loop(&self, f: Face) -> Seq<u16> {
        Seq::new(
            f.surfedges_num as nat,
            |k: int| resolve_surfedge(self.edges@, self.surfedges@[f.first_surfedge as int + k]),
        )
    }

    /// The vertex indices of a face's polygon, in winding order.
    pub fn face_to_vertices(&self, face: &Face) -> (r: Result<Vec<u16>, DecodeError>)
        ensures
            match r {
                Ok(v) => self.spec_run_ok(*face) && v@ == self.spec_face_loop(*face),
                Err(e) => !self.spec_run_ok(*face) && e == DecodeError::IndexOutOfRange,
            },
    {
        let first = face.first_surfedge as usize;
        let num = face.surfedges_num as usize;
        if first > self.surfedges.len() || num > self.surfedges.len() - first {
            return Err(DecodeError::IndexOutOfRange);
        }
        let mut out: Vec<u16> = Vec::with_capacity(num);
        let mut k: usize = 0;
        while k < num
            invariant
                first + num <= self.surfedges.len(),
                first == face.first_surfedge,
                num == face.surfedges_num,
                k <= num,
                out@.len() == k,
                forall|j: int|
                    0 <= j < k ==> {
                        let s = #[trigger] self.surfedges@[first + j];
                        surfedge_in_range(self.edges@, s) && (resolve_surfedge(self.edges@, s)
                            as int) < self.vertices@.len()
                    },
                forall|j: int|
                    0 <= j < k ==> out@[j] == resolve_surfedge(
                        self.edges@,
                        self.surfedges@[first + j],
                    ),
            decreases num - k,
        {
            let s = self.surfedges[first + k];
            match surfedge_vertex(self.edges.as_slice(), s) {
                Some(v) => {
                    if v as usize >= self.vertices.len() {
                        return Err(DecodeError::IndexOutOfRange);
                    }
                    out.push(v);
                },
                None => {
                    return Err(DecodeError::IndexOutOfRange);
                },
            }
            k = k + 1;
        }
        assert(out@ =~= self.spec_face_loop(*face));
        Ok(out)
    }

    /// The face's plane, texture projection, texture and surfedge run all
    /// exist.
    pub open spec fn spec_face_ok(&self, f: Face) -> bool {
        &&& (f.plane_index as int) < self.planes@.len()
        &&& (f.texinfo_index as int) < self.texinfos@.len()
        &&& (self.texinfos@[f.texinfo_index as int].texture_index as int) < self.textures@.len()
        &&& self.spec_run_ok(f)
    }

    /// The plane's normal on side 0, its negation on the other side.
    pub open spec fn spec_normal(&self, f: Face) -> Vec3 {
        let n = self.planes@[f.plane_index as int].normal;
        if f.plane_side == 0 {
            n
        } else {
            n.spec_neg()
        }
    }

    pub open spec fn spec_texture_index(&self, f: Face) -> int {
        self.texinfos@[f.texinfo_index as int].texture_index as int
    }

    pub open spec fn spec_geo_vertex(&self, f: Face, v: u16) -> GeoVertex {
        GeoVertex {
            position: self.vertices@[v as int],
            normal: self.spec_normal(f),
            lightmap_offset: f.lightmap_offset / 3,
        }
    }

    /// What one face adds to the vertex list.
    pub open spec fn spec_face_vertices(&self, f: Face) -> Seq<GeoVertex> {
        if f.surfedges_num < MIN_POLYGON {
            Seq::empty()
        } else {
            self.spec_face_loop(f).map_values(|v: u16| self.spec_geo_vertex(f, v))
        }
    }

    /// The vertex list of the faces `first .. first + n`.
    pub open spec fn spec_faces_vertices(&self, first: int, n: int) -> Seq<GeoVertex>
        decreases n,
    {
        if n <= 0 {
            Seq::empty()
        } else {
            self.spec_faces_vertices(first, n - 1) + self.spec_face_vertices(
                self.faces@[first + n - 1],
            )
        }
    }

    /// The face ranges of the faces `first .. first + n`.
    pub open spec fn spec_faces_ranges(&self, first: int, n: int) -> Seq<FaceRangeView>
        decreases n,
    {
        if n <= 0 {
            Seq::empty()
        } else {
            let f = self.faces@[first + n - 1];
            let prev = self.spec_faces_ranges(first, n - 1);
            if f.surfedges_num < MIN_POLYGON {
                prev
            } else {
                prev.push(
                    FaceRangeView {
                        first: self.spec_faces_vertices(first, n - 1).len() as int,
                        count: f.surfedges_num as int,
                        texinfo: f.texinfo_index as int,
                        texture: self.spec_texture_index(f),
                        name: self.textures@[self.spec_texture_index(f)].name@,
                    },
                )
            }
        }
    }

    /// The model exists, its face run lies in the face table and every face
    /// of it resolves.
    pub open spec fn spec_model_ok(&self, model_index: int) -> bool {
        &&& 0 <= model_index < self.models@.len()
        &&& {
            let m = self.models@[model_index];
            &&& m.first_face as int + m.faces_num as int <= self.faces@.len()
            &&& forall|i: int|
                0 <= i < m.faces_num ==> self.spec_face_ok(
                    #[trigger] self.faces@[m.first_face as int + i],
                )
        }
    }

    /// Build the mesh of one model: each face's polygon in surfedge order,
    /// with its flat normal and lightmap offset, and the face's range and
    /// texture name. Any dangling cross-reference is `IndexOutOfRange`.
    pub fn decode_model_geometry(&self, model_index: usize) -> (r: Result<
        ResolvedGeometry,
        DecodeError,
    >)
        ensures
            match r {
                Ok(g) => {
                    let m = self.models@[model_index as int];
                    &&& self.spec_model_ok(model_index as int)
                    &&& g.origin == m.origin
                    &&& g.vertices@ == self.spec_faces_vertices(
                        m.first_face as int,
                        m.faces_num as int,
                    )
                    &&& g.faces@.map_values(|f: FaceRange| f@) == self.spec_faces_ranges(
                        m.first_face as int,
                        m.faces_num as int,
                    )
                    &&& forall|k: int|
                        0 <= k < g.faces@.len() ==> (#[trigger] g.faces@[k]).first
                            + g.faces@[k].count <= g.vertices@.len()
                },
                Err(e) => !self.spec_model_ok(model_index as int) && e
                    == DecodeError::IndexOutOfRange,
            },
    {
        if model_index >= self.models.len() {
            return Err(DecodeError::IndexOutOfRange);
        }
        let model = self.models[model_index];
        let first = model.first_face as usize;
        let n = model.faces_num as usize;
        if first > self.faces.len() || n > self.faces.len() - first {
            return Err(DecodeError::IndexOutOfRange);
        }
        let mut vertices: Vec<GeoVertex> = Vec::new();
        let mut ranges: Vec<FaceRange> = Vec::new();
        let mut i: usize = 0;
        while i < n
            invariant
                model == self.models@[model_index as int],
                first == model.first_face,
                n == model.faces_num,
                first + n <= self.faces.len(),
                i <= n,
                forall|j: int| 0 <= j < i ==> self.spec_face_ok(#[trigger] self.faces@[first + j]),
                vertices@ == self.spec_faces_vertices(first as int, i as int),
                ranges@.map_values(|f: FaceRange| f@) == self.spec_faces_ranges(
                    first as int,
                    i as int,
                ),
                forall|k: int|
                    0 <= k < ranges@.len() ==> (#[trigger] ranges@[k]).first + ranges@[k].count
                        <= vertices@.len(),
            decreases n - i,
        {
            let f = self.faces[first + i];
            let ti = f.texinfo_index as usize;
            if f.plane_index as usize >= self.planes.len() || ti >= self.texinfos.len() {
                assert(!self.spec_face_ok(self.faces@[first + i]));
                return Err(DecodeError::IndexOutOfRange);
            }
            let tex = self.texinfos[ti].texture_index as usize;
            if tex >= self.textures.len() {
                assert(!self.spec_face_ok(self.faces@[first + i]));
                return Err(DecodeError::IndexOutOfRange);
            }
            let polygon = match self.face_to_vertices(&f) {
                Ok(p) => p,
                Err(e) => {
                    assert(!self.spec_face_ok(self.faces@[first + i]));
                    return Err(e);
                },
            };
            let ghost before = vertices@;
            let ghost ranges_before = ranges@;
            if f.surfedges_num >= MIN_POLYGON {
                let plane_normal = self.planes[f.plane_index as usize].normal;
                let normal = if f.plane_side == 0 {
                    plane_normal
                } else {
                    plane_normal.neg()
                };
                let lightmap_offset = f.lightmap_offset / 3;
                let start = vertices.len();
                let mut k: usize = 0;
                while k < polygon.len()
                    invariant
                        self.spec_run_ok(f),
                        polygon@ == self.spec_face_loop(f),
                        (f.plane_index as int) < self.planes@.len(),
                        normal == self.spec_normal(f),
                        lightmap_offset == f.lightmap_offset / 3,
                        k <= polygon@.len(),
                        vertices@ == before + polygon@.subrange(0, k as int).map_values(
                            |v: u16| self.spec_geo_vertex(f, v),
                        ),
                    decreases polygon@.len() - k,
                {
                    let v = polygon[k] as usize;
                    vertices.push(
                        GeoVertex { position: self.vertices[v], normal, lightmap_offset },
                    );
                    proof {
                        assert(polygon@.subrange(0, k + 1).map_values(
                            |v: u16| self.spec_geo_vertex(f, v),
                        ) =~= polygon@.subrange(0, k as int).map_values(
                            |v: u16| self.spec_geo_vertex(f, v),
                        ).push(self.spec_geo_vertex(f, polygon@[k as int])));
                    }
                    k = k + 1;
                }
                assert(polygon@.subrange(0, polygon@.len() as int) =~= polygon@);
                let name = self.textures[tex].name.clone();
                let range = FaceRange {
                    first: start,
                    count: f.surfedges_num as usize,
                    texinfo: ti,
                    texture: tex,
                    name,
                };
                assert(polygon@.len() == f.surfedges_num);
                ranges.push(range);
                proof {
                    assert(ranges@.map_values(|f: FaceRange| f@) =~= ranges_before.map_values(
                        |f: FaceRange| f@,
                    ).push(range@));
                }
            }
            assert(self.faces@[first + i] == f);
            assert(self.spec_faces_vertices(first as int, i + 1) == self.spec_faces_vertices(
                first as int,
                i as int,
            ) + self.spec_face_vertices(f));
            assert(vertices@ =~= self.spec_faces_vertices(first as int, i + 1));
            i = i + 1;
        }
        Ok(ResolvedGeometry { origin: model.origin, vertices, faces: ranges })
    }
}

/// Texel `i` of `r` is RGB triple `i` of `l`, opaque.
pub open spec fn texel_at(r: Seq<u8>, l: Seq<u8>, i: int) -> bool {
    &&& r[4 * i] == l[3 * i]
    &&& r[4 * i + 1] == l[3 * i + 1]
    &&& r[4 * i + 2] == l[3 * i + 2]
    &&& r[4 * i + 3] == 255
}

/// The lighting lump as RGBA texels: each whole RGB triple, opaque; a
/// trailing partial triple is dropped.
pub fn lightmap_rgba(lighting: &[u8]) -> (r: Vec<u8>)
    ensures
        r@.len() == 4 * (lighting@.len() / 3),
        forall|i: int| 0 <= i < lighting@.len() / 3 ==> #[trigger] texel_at(r@, lighting@, i),
{
    let len = lighting.len();
    let n = len / 3;
    proof {
        vstd::arithmetic::div_mod::lemma_fundamental_div_mod(len as int, 3);
        vstd::arithmetic::div_mod::lemma_mod_pos_bound(len as int, 3);
    }
    let mut out: Vec<u8> = Vec::new();
    let mut i: usize = 0;
    while i < n
        invariant
            n == lighting@.len() / 3,
            len == lighting@.len(),
            len == 3 * n + len % 3,
            0 <= len % 3,
            i <= n,
            out@.len() == 4 * i,
            forall|k: int| 0 <= k < i ==> #[trigger] texel_at(out@, lighting@, k),
        decreases n - i,
    {
        let ghost before = out@;
        out.push(lighting[3 * i]);
        out.push(lighting[3 * i + 1]);
        out.push(lighting[3 * i + 2]);
        out.push(255);
        assert forall|k: int| 0 <= k < i + 1 implies #[trigger] texel_at(out@, lighting@, k) by {
            if k < i {
                assert(texel_at(before, lighting@, k));
            }
        }
        i = i + 1;
    }
    out
}

} // verus!

//! Fan triangulation of face polygons, and grouping of the triangles by
//! texture name.
use vstd::prelude::*;
use crate::geometry::{FaceRange, FaceRangeView};

verus! {

/// The fan of a convex polygon: triangles `(v0, v[k-1], v[k])` for
/// `k = 2 .. n`; nothing for fewer than three vertices.
pub open spec fn fan_of(v: Seq<usize>) -> Seq<usize>
    decreases v.len(),
{
    if v.len() < 3 {
        Seq::empty()
    } else {
        fan_of(v.drop_last()) + seq![v[0], v[v.len() - 2], v.last()]
    }
}

pub proof fn lemma_fan_len(v: Seq<usize>)
    ensures
        v.len() >= 3 ==> fan_of(v).len() == 3 * (v.len() - 2),
        v.len() < 3 ==> fan_of(v).len() == 0,
    decreases v.len(),
{
    if v.len() >= 3 {
        lemma_fan_len(v.drop_last());
    }
}

/// Fan-triangulate a convex polygon given by its vertex indices in winding
/// order. A polygon of three vertices comes back unchanged; one of `n >= 3`
/// gives `n - 2` triangles.
pub fn triangulate(vertices: Vec<usize>) -> (r: Vec<usize>)
    ensures
        r@ == fan_of(vertices@),
        vertices@.len() < 3 ==> r@.len() == 0,
        vertices@.len() >= 3 ==> r@.len() == 3 * (vertices@.len() - 2),
        vertices@.len() == 3 ==> r@ == vertices@,
{
    proof {
        lemma_fan_len(vertices@);
        if vertices@.len() == 3 {
            assert(vertices@.drop_last().len() == 2);
            assert(fan_of(vertices@) =~= vertices@);
        }
    }
    let n = vertices.len();
    let mut out: Vec<usize> = Vec::new();
    if n < 3 {
        return out;
    }
    let mut k: usize = 2;
    assert(fan_of(vertices@.subrange(0, 2)) =~= Seq::<usize>::empty());
    while k < n
        invariant
            n == vertices@.len(),
            n >= 3,
            2 <= k <= n,
            out@ == fan_of(vertices@.subrange(0, k as int)),
        decreases n - k,
    {
        out.push(vertices[0]);
        out.push(vertices[k - 1]);
        out.push(vertices[k]);
        proof {
            let sub = vertices@.subrange(0, k + 1);
            assert(sub.drop_last() =~= vertices@.subrange(0, k as int));
        }
        k = k + 1;
    }
    assert(vertices@.subrange(0, n as int) =~= vertices@);
    out
}

/// `c` with ASCII upper case letters made lower case.
pub open spec fn ascii_lower(c: u8) -> u8 {
    if 65 <= c <= 90 {
        (c + 32) as u8
    } else {
        c
    }
}

/// `c` with ASCII lower case letters made upper case.
pub open spec fn ascii_upper(c: u8) -> u8 {
    if 97 <= c <= 122 {
        (c - 32) as u8
    } else {
        c
    }
}

pub open spec fn lower_of(s: Seq<u8>) -> Seq<u8> {
    s.map_values(|c: u8| ascii_lower(c))
}

pub open spec fn upper_of(s: Seq<u8>) -> Seq<u8> {
    s.map_values(|c: u8| ascii_upper(c))
}

/// A copy of `s` in ASCII lower case.
pub fn to_ascii_lowercase(s: &[u8]) -> (r: Vec<u8>)
    ensures
        r@ == lower_of(s@),
{
    let mut out: Vec<u8> = Vec::with_capacity(s.len());
    let mut i: usize = 0;
    while i < s.len()
        invariant
            i <= s@.len(),
            out@ == lower_of(s@.subrange(0, i as int)),
        decreases s@.len() - i,
    {
        let c = s[i];
        let l = if 65 <= c && c <= 90 {
            c + 32
        } else {
            c
        };
        out.push(l);
        assert(lower_of(s@.subrange(0, i + 1)) =~= lower_of(s@.subrange(0, i as int)).push(l));
        i = i + 1;
    }
    assert(s@.subrange(0, s@.len() as int) =~= s@);
    out
}

/// A copy of `s` in ASCII upper case.
pub fn to_ascii_uppercase(s: &[u8]) -> (r: Vec<u8>)
    ensures
        r@ == upper_of(s@),
{
    let mut out: Vec<u8> = Vec::with_capacity(s.len());
    let mut i: usize = 0;
    while i < s.len()
        invariant
            i <= s@.len(),
            out@ == upper_of(s@.subrange(0, i as int)),
        decreases s@.len() - i,
    {
        let c = s[i];
        let u = if 97 <= c && c <= 122 {
            c - 32
        } else {
            c
        };
        out.push(u);
        assert(upper_of(s@.subrange(0, i + 1)) =~= upper_of(s@.subrange(0, i as int)).push(u));
        i = i + 1;
    }
    assert(s@.subrange(0, s@.len() as int) =~= s@);
    out
}

/// The lower-case names of the sky and of invisible collision brushes: never
/// rendered.
pub open spec fn is_excluded_key(key: Seq<u8>) -> bool {
    key == seq![115u8, 107u8, 121u8] || key == seq![
        97u8,
        97u8,
        97u8,
        116u8,
        114u8,
        105u8,
        103u8,
        103u8,
        101u8,
        114u8,
    ]
}

/// Whether a lower-case name is `sky` or `aaatrigger`.
pub fn is_excluded(key: &[u8]) -> (r: bool)
    ensures
        r == is_excluded_key(key@),
{
    let sky = key.len() == 3 && key[0] == 115 && key[1] == 107 && key[2] == 121;
    let trigger = key.len() == 10 && key[0] == 97 && key[1] == 97 && key[2] == 97 && key[3]
        == 116 && key[4] == 114 && key[5] == 105 && key[6] == 103 && key[7] == 103 && key[8]
        == 101 && key[9] == 114;
    proof {
        if key@.len() == 3 {
            assert(sky == (key@ =~= seq![115u8, 107u8, 121u8]));
        }
        if key@.len() == 10 {
            assert(trigger == (key@ =~= seq![
                97u8,
                97u8,
                97u8,
                116u8,
                114u8,
                105u8,
                103u8,
                103u8,
                101u8,
                114u8,
            ]));
        }
    }
    sky || trigger
}

/// The vertex indices `first .. first + count` of a face.
pub open spec fn face_polygon(f: FaceRangeView) -> Seq<usize> {
    Seq::new(f.count as nat, |k: int| (f.first + k) as usize)
}

/// The triangles that the faces under `key` contribute, in face order.
pub open spec fn indices_for(faces: Seq<FaceRangeView>, key: Seq<u8>) -> Seq<usize>
    decreases faces.len(),
{
    if faces.len() == 0 {
        Seq::empty()
    } else {
        let f = faces.last();
        indices_for(faces.drop_last(), key) + if !is_excluded_key(lower_of(f.name)) && lower_of(
            f.name,
        ) == key {
            fan_of(face_polygon(f))
        } else {
            Seq::empty()
        }
    }
}

proof fn lemma_indices_for_absent(faces: Seq<FaceRangeView>, key: Seq<u8>)
    requires
        forall|k: int|
            0 <= k < faces.len() ==> is_excluded_key(lower_of(#[trigger] faces[k].name))
                || lower_of(faces[k].name) != key,
    ensures
        indices_for(faces, key) == Seq::<usize>::empty(),
    decreases faces.len(),
{
    if faces.len() > 0 {
        lemma_indices_for_absent(faces.drop_last(), key);
        assert(indices_for(faces, key) =~= Seq::<usize>::empty());
    }
}

/// The triangles of every face drawn with one texture.
pub struct BatchView {
    pub name: Seq<u8>,
    pub indices: Seq<usize>,
}

pub struct Batch {
    pub name: Vec<u8>,
    pub indices: Vec<usize>,
}

impl View for Batch {
    type V = BatchView;

    open spec fn view(&self) -> BatchView {
        BatchView { name: self.name@, indices: self.indices@ }
    }
}

/// The batches group `faces` by lower-case texture name: one batch per name
/// that some face not excluded carries, none for another name, each with the
/// triangles of its faces in face order.
pub open spec fn batches_ok(faces: Seq<FaceRangeView>, b: Seq<BatchView>) -> bool {
    &&& forall|x: int, y: int| 0 <= x < y < b.len() ==> b[x].name != b[y].name
    &&& forall|x: int|
        0 <= x < b.len() ==> (#[trigger] b[x]).indices == indices_for(faces, b[x].name)
    &&& forall|x: int|
        0 <= x < b.len() ==> !is_excluded_key((#[trigger] b[x]).name) && exists|k: int|
            0 <= k < faces.len() && lower_of(faces[k].name) == b[x].name
    &&& forall|k: int|
        0 <= k < faces.len() && !is_excluded_key(lower_of(#[trigger] faces[k].name)) ==> exists|
            x: int,
        |
            0 <= x < b.len() && b[x].name == lower_of(faces[k].name)
}

/// The vertex indices of a face range.
fn polygon(f: &FaceRange) -> (r: Vec<usize>)
    requires
        f.first + f.count <= usize::MAX,
    ensures
        r@ == face_polygon(f@),
{
    let mut out: Vec<usize> = Vec::with_capacity(f.count);
    let mut k: usize = 0;
    while k < f.count
        invariant
            f.first + f.count <= usize::MAX,
            k <= f.count,
            out@.len() == k,
            forall|j: int| 0 <= j < k ==> out@[j] == f.first + j,
        decreases f.count - k,
    {
        out.push(f.first + k);
        k = k + 1;
    }
    assert(out@ =~= face_polygon(f@));
    out
}

/// Position of the batch with this name.
fn find_batch(batches: &Vec<Batch>, key: &[u8]) -> (r: Option<usize>)
    ensures
        match r {
            Some(j) => j < batches@.len() && batches@[j as int].name@ == key@,
            None => forall|x: int| 0 <= x < batches@.len() ==> batches@[x].name@ != key@,
        },
{
    let mut j: usize = 0;
    while j < batches.len()
        invariant
            j <= batches@.len(),
            forall|x: int| 0 <= x < j ==> batches@[x].name@ != key@,
        decreases batches@.len() - j,
    {
        if crate::wad::bytes_eq(batches[j].name.as_slice(), key) {
            return Some(j);
        }
        j = j + 1;
    }
    None
}

/// Triangulate every face and group the triangles by lower-case texture name,
/// in order of first appearance, dropping the sky and invisible collision
/// brushes.
pub fn batch_faces(faces: &[FaceRange]) -> (r: Vec<Batch>)
    requires
        forall|k: int| 0 <= k < faces@.len() ==> faces@[k].first + faces@[k].count <= usize::MAX,
    ensures
        batches_ok(faces@.map_values(|f: FaceRange| f@), r@.map_values(|b: Batch| b@)),
{
    let ghost fv = faces@.map_values(|f: FaceRange| f@);
    let mut out: Vec<Batch> = Vec::new();
    let mut i: usize = 0;
    while i < faces.len()
        invariant
            fv == faces@.map_values(|f: FaceRange| f@),
            forall|k: int| 0 <= k < faces@.len() ==> faces@[k].first + faces@[k].count <= usize::MAX,
            i <= faces@.len(),
            batches_ok(fv.subrange(0, i as int), out@.map_values(|b: Batch| b@)),
        decreases faces@.len() - i,
    {
        let ghost old_out = out@.map_values(|b: Batch| b@);
        let ghost pre = fv.subrange(0, i as int);
        let ghost post = fv.subrange(0, i + 1);
        proof {
            assert(post.drop_last() =~= pre);
            assert(post.last() == faces@[i as int]@);
        }
        let key = to_ascii_lowercase(faces[i].name.as_slice());
        if is_excluded(key.as_slice()) {
            proof {
                assert forall|x: int| 0 <= x < old_out.len() implies (#[trigger] old_out[x]).indices
                    == indices_for(post, old_out[x].name) by {
                    assert(indices_for(post, old_out[x].name) =~= indices_for(pre, old_out[x].name));
                }
                assert forall|x: int| 0 <= x < old_out.len() implies !is_excluded_key(
                    (#[trigger] old_out[x]).name,
                ) && exists|k: int| 0 <= k < post.len() && lower_of(post[k].name) == old_out[x].name by {
                    let k = choose|k: int| 0 <= k < pre.len() && lower_of(pre[k].name) == old_out[x].name;
                    assert(post[k] == pre[k]);
                }
                assert forall|k: int| 0 <= k < post.len() && !is_excluded_key(lower_of(#[trigger] post[k].name)) implies exists|x: int|
                    0 <= x < old_out.len() && old_out[x].name == lower_of(post[k].name) by {
                    assert(post[k] == pre[k]);
                }
            }
        } else {
            let tri = triangulate(polygon(&faces[i]));
            proof {
                assert(!is_excluded_key(lower_of(post.last().name)));
                assert(face_polygon(post.last()) == face_polygon(faces@[i as int]@));
            }
            match find_batch(&out, key.as_slice()) {
                Some(j) => {
                    let mut batch = Batch { name: Vec::new(), indices: Vec::new() };
                    out.set_and_swap(j, &mut batch);
                    let mut more = tri;
                    batch.indices.append(&mut more);
                    out.set_and_swap(j, &mut batch);
                    proof {
                        let new_out = out@.map_values(|b: Batch| b@);
                        assert(new_out =~= old_out.update(
                            j as int,
                            BatchView { name: key@, indices: old_out[j as int].indices + tri@ },
                        ));
                        assert forall|x: int| 0 <= x < new_out.len() implies (#[trigger] new_out[x]).indices
                            == indices_for(post, new_out[x].name) by {
                            assert(old_out[x].name == new_out[x].name);
                        }
                        assert forall|x: int| 0 <= x < new_out.len() implies !is_excluded_key(
                            (#[trigger] new_out[x]).name,
                        ) && exists|k: int| 0 <= k < post.len() && lower_of(post[k].name) == new_out[x].name by {
                            assert(old_out[x].name == new_out[x].name);
                            let k = choose|k: int| 0 <= k < pre.len() && lower_of(pre[k].name) == old_out[x].name;
                            assert(post[k] == pre[k]);
                        }
                        assert forall|k: int| 0 <= k < post.len() && !is_excluded_key(lower_of(#[trigger] post[k].name)) implies exists|x: int|
                            0 <= x < new_out.len() && new_out[x].name == lower_of(post[k].name) by {
                            if k < pre.len() {
                                assert(post[k] == pre[k]);
                                let x = choose|x: int| 0 <= x < old_out.len() && old_out[x].name == lower_of(pre[k].name);
                                assert(new_out[x].name == old_out[x].name);
                            } else {
                                assert(new_out[j as int].name == lower_of(post[k].name));
                            }
                        }
                    }
                },
                None => {
                    let ghost key_view = key@;
                    out.push(Batch { name: key, indices: tri });
                    proof {
                        let new_out = out@.map_values(|b: Batch| b@);
                        assert(new_out =~= old_out.push(BatchView { name: key_view, indices: tri@ }));
                        assert forall|k: int| 0 <= k < pre.len() implies is_excluded_key(lower_of(#[trigger] pre[k].name))
                            || lower_of(pre[k].name) != key_view by {
                            if !is_excluded_key(lower_of(pre[k].name)) {
                                let x = choose|x: int| 0 <= x < old_out.len() && old_out[x].name == lower_of(pre[k].name);
                                assert(out@[x].name@ != key_view);
                            }
                        }
                        lemma_indices_for_absent(pre, key_view);
                        assert forall|x: int| 0 <= x < new_out.len() implies (#[trigger] new_out[x]).indices
                            == indices_for(post, new_out[x].name) by {
                            if x < old_out.len() {
                                assert(old_out[x].name == new_out[x].name);
                            } else {
                                assert(indices_for(post, key_view) =~= tri@);
                            }
                        }
                        assert forall|x: int| 0 <= x < new_out.len() implies !is_excluded_key(
                            (#[trigger] new_out[x]).name,
                        ) && exists|k: int| 0 <= k < post.len() && lower_of(post[k].name) == new_out[x].name by {
                            if x < old_out.len() {
                                assert(old_out[x].name == new_out[x].name);
                                let k = choose|k: int| 0 <= k < pre.len() && lower_of(pre[k].name) == old_out[x].name;
                                assert(post[k] == pre[k]);
                            } else {
                                assert(lower_of(post[i as int].name) == new_out[x].name);
                            }
                        }
                        assert forall|k: int| 0 <= k < post.len() && !is_excluded_key(lower_of(#[trigger] post[k].name)) implies exists|x: int|
                            0 <= x < new_out.len() && new_out[x].name == lower_of(post[k].name) by {
                            if k < pre.len() {
                                assert(post[k] == pre[k]);
                                let x = choose|x: int| 0 <= x < old_out.len() && old_out[x].name == lower_of(pre[k].name);
                                assert(new_out[x].name == old_out[x].name);
                            } else {
                                assert(new_out[old_out.len() as int].name == lower_of(post[k].name));
                            }
                        }
                    }
                },
            }
        }
        i = i + 1;
    }
    assert(fv.subrange(0, faces@.len() as int) =~= fv);
    out
}

} // verus!

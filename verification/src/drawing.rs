//! What is handed to the graphics card to draw a set of faces: the 16-bit
//! vertex indices of their triangles, gathered in batches that share a
//! texture.
use vstd::prelude::*;
use crate::bsp::{Face, FaceRenderType, FaceView, RenderTypeView};

verus! {

/// The triangle indices of a face: its mesh indices cut to 16 bits; other
/// faces have none.
pub open spec fn mesh_indices(f: FaceView) -> Seq<u16> {
    match f.render_type {
        RenderTypeView::Mesh(v) => v.map_values(|i: usize| i as u16),
        _ => Seq::empty(),
    }
}

/// The triangle indices of faces, one face after the other.
pub open spec fn face_indices(fs: Seq<FaceView>) -> Seq<u16>
    decreases fs.len(),
{
    if fs.len() == 0 {
        Seq::empty()
    } else {
        face_indices(fs.drop_last()) + mesh_indices(fs.last())
    }
}

/// The views of borrowed faces.
pub open spec fn face_views(fs: Seq<&Face>) -> Seq<FaceView> {
    fs.map_values(|f: &Face| f@)
}

/// Appends the triangle indices of `f` to `out`.
fn push_mesh_indices(out: &mut Vec<u16>, f: &Face)
    ensures
        final(out)@ == old(out)@ + mesh_indices(f@),
{
    match &f.render_type {
        FaceRenderType::Mesh(v) => {
            let ghost start = out@;
            let mut j: usize = 0;
            while j < v.len()
                invariant
                    j <= v@.len(),
                    f@.render_type == RenderTypeView::Mesh(v@),
                    out@ == start + v@.take(j as int).map_values(|i: usize| i as u16),
                decreases v@.len() - j,
            {
                out.push(#[verifier::truncate] (v[j] as u16));
                j = j + 1;
                assert(v@.take(j as int).map_values(|i: usize| i as u16) =~= v@.take(j - 1).map_values(
                    |i: usize| i as u16,
                ).push(v@[j - 1] as u16));
            }
            assert(v@.take(j as int) =~= v@);
        },
        _ => {
            assert(out@ =~= out@ + Seq::<u16>::empty());
        },
    }
}

proof fn lemma_face_views_take(fs: Seq<&Face>, i: int)
    requires
        0 <= i < fs.len(),
    ensures
        face_views(fs).take(i + 1).drop_last() == face_views(fs).take(i),
        face_views(fs).take(i + 1).last() == fs[i]@,
        face_views(fs).take(i + 1).len() == i + 1,
{
    assert(face_views(fs).take(i + 1).drop_last() =~= face_views(fs).take(i));
}

/// The triangle indices of the mesh faces among `faces`, in order.
pub fn get_indices_from_faces(faces: &[&Face]) -> (r: Vec<u16>)
    ensures
        r@ == face_indices(face_views(faces@)),
{
    let mut out: Vec<u16> = Vec::new();
    let mut i: usize = 0;
    assert(face_views(faces@).take(0) =~= Seq::<FaceView>::empty());
    while i < faces.len()
        invariant
            i <= faces@.len(),
            out@ == face_indices(face_views(faces@).take(i as int)),
        decreases faces@.len() - i,
    {
        proof {
            lemma_face_views_take(faces@, i as int);
        }
        push_mesh_indices(&mut out, faces[i]);
        i = i + 1;
    }
    assert(face_views(faces@).take(i as int) =~= face_views(faces@));
    out
}

/// The batch key of a face: the group of its texture when that texture is
/// drawn, nothing otherwise.
pub open spec fn drawn_key(f: FaceView, drawn: Seq<bool>, group: Seq<usize>) -> Option<usize> {
    if drawn[f.texture as int] {
        Some(group[f.texture as int])
    } else {
        None
    }
}

/// The distinct batch keys of the faces, in the order they first appear.
pub open spec fn batch_keys(fs: Seq<FaceView>, drawn: Seq<bool>, group: Seq<usize>) -> Seq<usize>
    decreases fs.len(),
{
    if fs.len() == 0 {
        Seq::empty()
    } else {
        let r = batch_keys(fs.drop_last(), drawn, group);
        match drawn_key(fs.last(), drawn, group) {
            Some(k) => if r.contains(k) {
                r
            } else {
                r.push(k)
            },
            None => r,
        }
    }
}

/// The faces whose batch key is `k`, in order.
pub open spec fn batch_faces(fs: Seq<FaceView>, drawn: Seq<bool>, group: Seq<usize>, k: usize) -> Seq<FaceView>
    decreases fs.len(),
{
    if fs.len() == 0 {
        Seq::empty()
    } else {
        let r = batch_faces(fs.drop_last(), drawn, group, k);
        if drawn_key(fs.last(), drawn, group) == Some(k) {
            r.push(fs.last())
        } else {
            r
        }
    }
}

/// The keys of `batch_keys` are distinct, and a key that is not among them
/// has no faces.
proof fn lemma_batch_keys(fs: Seq<FaceView>, drawn: Seq<bool>, group: Seq<usize>)
    ensures
        batch_keys(fs, drawn, group).no_duplicates(),
        forall|k: usize| !batch_keys(fs, drawn, group).contains(k) ==> #[trigger] batch_faces(fs, drawn, group, k) == Seq::<FaceView>::empty(),
    decreases fs.len(),
{
    if fs.len() > 0 {
        lemma_batch_keys(fs.drop_last(), drawn, group);
        let r = batch_keys(fs.drop_last(), drawn, group);
        if let Some(k) = drawn_key(fs.last(), drawn, group) {
            if !r.contains(k) {
                assert forall|i: int, j: int| 0 <= i < j < r.push(k).len() implies r.push(k)[i] != r.push(k)[j] by {
                    if j == r.len() {
                        assert(r[i] == r.push(k)[i]);
                    }
                }
            }
        }
        let keys = batch_keys(fs, drawn, group);
        assert forall|k: usize| !keys.contains(k) implies #[trigger] batch_faces(fs, drawn, group, k) == Seq::<FaceView>::empty() by {
            assert(!r.contains(k)) by {
                if r.contains(k) {
                    let i = choose|i: int| 0 <= i < r.len() && r[i] == k;
                    if let Some(k2) = drawn_key(fs.last(), drawn, group) {
                        if !r.contains(k2) {
                            assert(keys[i] == k);
                        }
                    }
                    assert(keys.contains(k));
                }
            }
            if drawn_key(fs.last(), drawn, group) == Some(k) {
                if !r.contains(k) {
                    assert(keys[r.len() as int] == k);
                }
                assert(false);
            }
            assert(batch_faces(fs.drop_last(), drawn, group, k) == Seq::<FaceView>::empty());
        }
    }
}

/// The faces grouped into batches for drawing: faces whose texture is not
/// drawn are left out, and the others go to the batch of their texture's
/// group, with one batch per group in the order the groups first appear.
/// Each batch holds the group and the triangle indices of its faces, in
/// order.
pub fn draw_batches(faces: &[&Face], drawn: &[bool], group: &[usize]) -> (r: Vec<(usize, Vec<u16>)>)
    requires
        drawn@.len() == group@.len(),
        forall|i: int| 0 <= i < faces@.len() ==> #[trigger] faces@[i].texture < drawn@.len(),
    ensures
        r@.len() == batch_keys(face_views(faces@), drawn@, group@).len(),
        forall|j: int|
            0 <= j < r@.len() ==> {
                &&& (#[trigger] r@[j]).0 == batch_keys(face_views(faces@), drawn@, group@)[j]
                &&& r@[j].1@ == face_indices(batch_faces(face_views(faces@), drawn@, group@, r@[j].0))
            },
{
    let ghost fv = face_views(faces@);
    let mut out: Vec<(usize, Vec<u16>)> = Vec::new();
    let mut i: usize = 0;
    assert(fv.take(0) =~= Seq::<FaceView>::empty());
    while i < faces.len()
        invariant
            i <= faces@.len(),
            fv == face_views(faces@),
            drawn@.len() == group@.len(),
            forall|i: int| 0 <= i < faces@.len() ==> #[trigger] faces@[i].texture < drawn@.len(),
            out@.len() == batch_keys(fv.take(i as int), drawn@, group@).len(),
            forall|j: int|
                0 <= j < out@.len() ==> {
                    &&& (#[trigger] out@[j]).0 == batch_keys(fv.take(i as int), drawn@, group@)[j]
                    &&& out@[j].1@ == face_indices(batch_faces(fv.take(i as int), drawn@, group@, out@[j].0))
                },
        decreases faces@.len() - i,
    {
        let f = faces[i];
        let ghost prev = fv.take(i as int);
        let ghost next = fv.take(i + 1);
        proof {
            lemma_face_views_take(faces@, i as int);
            lemma_batch_keys(prev, drawn@, group@);
            assert(next.drop_last() == prev);
            assert(next.last() == f@);
        }
        if drawn[f.texture] {
            let k = group[f.texture];
            let mut j: usize = 0;
            while j < out.len() && out[j].0 != k
                invariant
                    j <= out@.len(),
                    forall|m: int| 0 <= m < j ==> (#[trigger] out@[m]).0 != k,
                decreases out@.len() - j,
            {
                j = j + 1;
            }
            let ghost keys = batch_keys(prev, drawn@, group@);
            if j < out.len() {
                assert(keys.contains(k)) by {
                    assert(keys[j as int] == k);
                }
                assert(batch_keys(next, drawn@, group@) == keys);
                let ghost old_out = out@;
                push_mesh_indices(&mut out[j].1, f);
                proof {
                    assert forall|m: int| 0 <= m < out@.len() implies {
                        &&& (#[trigger] out@[m]).0 == batch_keys(next, drawn@, group@)[m]
                        &&& out@[m].1@ == face_indices(batch_faces(next, drawn@, group@, out@[m].0))
                    } by {
                        let bm = batch_faces(next, drawn@, group@, out@[m].0);
                        if m == j {
                            assert(bm == batch_faces(prev, drawn@, group@, k).push(f@));
                            assert(bm.drop_last() =~= batch_faces(prev, drawn@, group@, k));
                        } else {
                            assert(old_out[m] == out@[m]);
                            assert(keys[m] != keys[j as int]);
                            assert(bm == batch_faces(prev, drawn@, group@, out@[m].0));
                        }
                    }
                }
            } else {
                assert(!keys.contains(k)) by {
                    if keys.contains(k) {
                        let m = choose|m: int| 0 <= m < keys.len() && keys[m] == k;
                        assert(out@[m].0 == k);
                    }
                }
                assert(batch_keys(next, drawn@, group@) == keys.push(k));
                let mut b: Vec<u16> = Vec::new();
                push_mesh_indices(&mut b, f);
                let ghost old_out = out@;
                out.push((k, b));
                proof {
                    assert(batch_faces(prev, drawn@, group@, k) == Seq::<FaceView>::empty());
                    assert forall|m: int| 0 <= m < out@.len() implies {
                        &&& (#[trigger] out@[m]).0 == batch_keys(next, drawn@, group@)[m]
                        &&& out@[m].1@ == face_indices(batch_faces(next, drawn@, group@, out@[m].0))
                    } by {
                        let bm = batch_faces(next, drawn@, group@, out@[m].0);
                        if m == old_out.len() {
                            assert(bm == Seq::<FaceView>::empty().push(f@));
                            assert(bm.drop_last() =~= Seq::<FaceView>::empty());
                            assert(face_indices(Seq::<FaceView>::empty()) == Seq::<u16>::empty());
                            assert(out@[m].1@ =~= Seq::<u16>::empty() + mesh_indices(f@));
                        } else {
                            assert(old_out[m] == out@[m]);
                            assert(keys[m] != k);
                            assert(bm == batch_faces(prev, drawn@, group@, out@[m].0));
                        }
                    }
                }
            }
        } else {
            proof {
                assert(batch_keys(next, drawn@, group@) == batch_keys(prev, drawn@, group@));
                assert forall|m: int| 0 <= m < out@.len() implies {
                    &&& (#[trigger] out@[m]).0 == batch_keys(next, drawn@, group@)[m]
                    &&& out@[m].1@ == face_indices(batch_faces(next, drawn@, group@, out@[m].0))
                } by {
                    assert(batch_faces(next, drawn@, group@, out@[m].0) == batch_faces(prev, drawn@, group@, out@[m].0));
                }
            }
        }
        i = i + 1;
    }
    assert(fv.take(i as int) =~= fv);
    out
}

} // verus!

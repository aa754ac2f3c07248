//! Building the navigable level from the records of a file.
//!
//! Every builder checks the indices it follows and gives `None` exactly when
//! one of them does not lead into the lump it names (or an offset sum leaves
//! the `i32` range); the `*_ok` spec functions state those conditions and the
//! `*_view` spec functions state what is built.
use vstd::prelude::*;
use vstd::set_lib::{lemma_int_range, lemma_len_subset, set_int_range};
use crate::bsp::{
    Brush, BrushView, Face, FaceRenderType, FaceView, Model, ModelView, RenderTypeView, Surface,
};
use crate::raw_bsp::{
    FaceType, Plane, RawBrush, RawBrushSide, RawFace, RawMeshVert, RawModel, Texture, TextureView,
};
use crate::helpers::{lemma_views_push, views};
use crate::raw_bsp::{RawBsp, RawBspView, RawLeaf, RawVisibilityDataView};
use crate::bsp::{descent, Bsp, BspTreeNode, BspView, Descent, Leaf, LeafView, NonTerminal};
use crate::entity::Entity;
use crate::raw_bsp::RawNode;
use crate::sorted_set::{
    increasing, insert_sorted, ints, lemma_members_push, lemma_sorted_distinct,
    lemma_sorted_distinct_exists, same_members, sorted_distinct, sorted_distinct_of,
};
use crate::texture_flags::{ContentFlags, SurfaceFlags};

verus! {

// ---------------------------------------------------------------------------
// Visibility bit vectors.

/// Whether bit `i` of the byte string `s` is set (bit `i % 8` of byte `i / 8`).
pub open spec fn bit_set(s: Seq<u8>, i: int) -> bool {
    s[i / 8] & (1u8 << ((i % 8) as u8)) != 0
}

/// Bit `i` of a byte string is the bit of weight `2^(i % 8)` of byte
/// `i / 8`: the lowest bit of that byte shifted right by `i % 8`.
pub proof fn lemma_bit_set_is_low_first(s: Seq<u8>, i: int)
    requires
        0 <= i < 8 * s.len(),
    ensures
        bit_set(s, i) <==> (s[i / 8] >> ((i % 8) as u8)) & 1u8 == 1u8,
{
    let b = s[i / 8];
    let k = (i % 8) as u8;
    assert(k < 8);
    assert((b & (1u8 << k)) != 0 <==> (b >> k) & 1u8 == 1u8) by (bit_vector)
        requires k < 8;
}

/// The indices below `n` of the set bits of `s`, in increasing order.
pub open spec fn set_bits_below(s: Seq<u8>, n: int) -> Seq<usize>
    decreases n,
{
    if n <= 0 {
        seq![]
    } else if bit_set(s, n - 1) {
        set_bits_below(s, n - 1).push((n - 1) as usize)
    } else {
        set_bits_below(s, n - 1)
    }
}

/// The indices of all set bits of `s`, in increasing order.
pub open spec fn set_bits(s: Seq<u8>) -> Seq<usize> {
    set_bits_below(s, 8 * s.len() as int)
}

/// Every listed index is a set bit below `n`, every set bit below `n` is
/// listed, and the list increases.
pub proof fn lemma_set_bits_below(s: Seq<u8>, n: int)
    requires
        0 <= n <= usize::MAX,
    ensures
        forall|k: int|
            0 <= k < set_bits_below(s, n).len() ==> (#[trigger] set_bits_below(s, n)[k] as int) < n
                && bit_set(s, set_bits_below(s, n)[k] as int),
        forall|a: int, b: int|
            0 <= a < b < set_bits_below(s, n).len() ==> set_bits_below(s, n)[a]
                < set_bits_below(s, n)[b],
        forall|i: int| 0 <= i < n && bit_set(s, i) ==> set_bits_below(s, n).contains(i as usize),
    decreases n,
{
    if n > 0 {
        lemma_set_bits_below(s, n - 1);
        let prev = set_bits_below(s, n - 1);
        if bit_set(s, n - 1) {
            let cur = prev.push((n - 1) as usize);
            assert(cur == set_bits_below(s, n));
            assert forall|i: int| 0 <= i < n && bit_set(s, i) implies cur.contains(i as usize) by {
                if i < n - 1 {
                    assert(prev.contains(i as usize));
                    let k = choose|k: int| 0 <= k < prev.len() && prev[k] == i as usize;
                    assert(cur[k] == i as usize);
                } else {
                    assert(cur[prev.len() as int] == i as usize);
                }
            }
        }
    }
}

/// The indices of the set bits of `visdata`, in increasing order.
pub fn get_indices(visdata: &[u8]) -> (r: Vec<usize>)
    requires
        8 * visdata@.len() <= usize::MAX,
    ensures
        r@ == set_bits(visdata@),
{
    let n = visdata.len() * 8;
    let mut out: Vec<usize> = Vec::new();
    let mut i: usize = 0;
    while i < n
        invariant
            i <= n,
            n == 8 * visdata@.len(),
            out@ == set_bits_below(visdata@, i as int),
        decreases n - i,
    {
        if visdata[i / 8] & (1u8 << ((i % 8) as u8)) != 0 {
            out.push(i);
        }
        i = i + 1;
    }
    out
}

// ---------------------------------------------------------------------------
// Patches.

/// The nine control-vertex indices of the patch at grid position (`x`, `y`)
/// of a face whose control grid is `width` vertices wide.
pub open spec fn offset_grid(x: int, y: int, width: int) -> [usize; 9] {
    let (x, y) = (x * 2, y * 2);
    [
        (x + y * width) as usize, (x + y * width + 1) as usize, (x + y * width + 2) as usize,
        (x + (y + 1) * width) as usize, (x + (y + 1) * width + 1) as usize,
        (x + (y + 1) * width + 2) as usize,
        (x + (y + 2) * width) as usize, (x + (y + 2) * width + 1) as usize,
        (x + (y + 2) * width + 2) as usize,
    ]
}

/// The largest index of `offset_grid(x, y, width)`.
pub open spec fn grid_max(x: int, y: int, width: int) -> int {
    x * 2 + (y * 2 + 2) * width + 2
}

/// The indices of the control vertices of the patch at (`x`, `y`).
pub fn get_offset_grid(x: usize, y: usize, width: usize) -> (r: [usize; 9])
    requires
        grid_max(x as int, y as int, width as int) <= usize::MAX,
        y * 2 + 2 <= usize::MAX,
    ensures
        r == offset_grid(x as int, y as int, width as int),
{
    proof {
        assert(0 <= (y * 2) * width <= (y * 2 + 1) * width <= (y * 2 + 2) * width)
            by (nonlinear_arith);
        assert(x * 2 <= grid_max(x as int, y as int, width as int)) by (nonlinear_arith)
            requires 0 <= (y * 2 + 2) * width;
    }
    let (x, y) = (x * 2, y * 2);
    [
        x + y * width, x + y * width + 1, x + y * width + 2,
        x + (y + 1) * width, x + (y + 1) * width + 1, x + (y + 1) * width + 2,
        x + (y + 2) * width, x + (y + 2) * width + 1, x + (y + 2) * width + 2,
    ]
}

/// How many patches a face of control-grid size `size` has along each axis:
/// `(size - 1) / 2`, computed on the unsigned reinterpretation of `size - 1`.
pub open spec fn patch_count(size: i32) -> int {
    ((size - 1) as usize) as int / 2
}

/// The patch grid can be laid out: no subtraction overflows, and each
/// patch's control vertices are vertices.
pub open spec fn patch_ok(size: [i32; 2], num_vertices: int) -> bool {
    let px = patch_count(size[0]);
    let py = patch_count(size[1]);
    &&& size[0] != i32::MIN
    &&& size[1] != i32::MIN
    &&& (px == 0 || py == 0 || forall|x: int, y: int|
        0 <= x < px && 0 <= y < py ==> #[trigger] grid_max(x, y, (size[0] as usize) as int)
            < num_vertices)
}

/// The control vertices of the patch at (`x`, `y`) are the 3 by 3 block of
/// the control grid whose corner is at column `2x`, row `2y`: entry
/// `3r + col` is the vertex at column `2x + col`, row `2y + r`.
pub proof fn lemma_offset_grid_block(x: int, y: int, width: int)
    ensures
        forall|r: int, col: int|
            0 <= r < 3 && 0 <= col < 3 ==> #[trigger] offset_grid(x, y, width)[3 * r + col] == (2 * x + col + (2
                * y + r) * width) as usize,
{
    assert forall|r: int, col: int| 0 <= r < 3 && 0 <= col < 3 implies #[trigger] offset_grid(x, y, width)[3 * r
        + col] == (2 * x + col + (2 * y + r) * width) as usize by {
        assert((2 * y + 1) * width == 2 * y * width + width) by (nonlinear_arith);
        assert((2 * y + 2) * width == 2 * y * width + 2 * width) by (nonlinear_arith);
        assert(y * 2 == 2 * y && x * 2 == 2 * x);
        if r == 0 {
        } else if r == 1 {
        } else {
        }
    }
}

/// The patches of a face, row after row of the grid (`x` outer, `y` inner).
pub open spec fn patch_grids(size: [i32; 2]) -> Seq<[usize; 9]> {
    let px = patch_count(size[0]);
    let py = patch_count(size[1]);
    let width = (size[0] as usize) as int;
    if px == 0 || py == 0 {
        seq![]
    } else {
        Seq::new(
            (px * py) as nat,
            |k: int| offset_grid(k / py, k % py, width),
        )
    }
}

/// The patches of a face of control-grid size `size`, when the grid can be
/// laid out over `num_vertices` vertices.
pub fn build_patches(size: [i32; 2], num_vertices: usize) -> (r: Option<Vec<[usize; 9]>>)
    ensures
        r is Some <==> patch_ok(size, num_vertices as int),
        r matches Some(p) ==> p@ == patch_grids(size),
{
    if size[0] == i32::MIN || size[1] == i32::MIN {
        return None;
    }
    let px = (size[0] - 1) as usize / 2;
    let py = (size[1] - 1) as usize / 2;
    assert(px as int == patch_count(size[0]));
    assert(py as int == patch_count(size[1]));
    let mut out: Vec<[usize; 9]> = Vec::new();
    if px == 0 || py == 0 {
        assert(out@ =~= patch_grids(size));
        return Some(out);
    }
    let width = size[0] as usize;
    let ghost w = width as int;
    let mut x: usize = 0;
    while x < px
        invariant
            x <= px,
            0 < py,
            px as int == patch_count(size[0]),
            py as int == patch_count(size[1]),
            size[0] != i32::MIN,
            size[1] != i32::MIN,
            w == width as int,
            width == size[0] as usize,
            py <= usize::MAX / 2,
            px <= usize::MAX / 2,
            out@.len() == x * py,
            forall|k: int| 0 <= k < out@.len() ==> #[trigger] out@[k] == offset_grid(k / py as int, k % py as int, w),
            forall|a: int, b: int| 0 <= a < x && 0 <= b < py ==> #[trigger] grid_max(a, b, w) < num_vertices,
        decreases px - x,
    {
        let mut y: usize = 0;
        while y < py
            invariant
                x < px,
                y <= py,
                0 < py,
                py <= usize::MAX / 2,
                px <= usize::MAX / 2,
                px as int == patch_count(size[0]),
                py as int == patch_count(size[1]),
                size[0] != i32::MIN,
                size[1] != i32::MIN,
                width == size[0] as usize,
                w == width as int,
                out@.len() == x * py + y,
                forall|k: int| 0 <= k < out@.len() ==> #[trigger] out@[k] == offset_grid(k / py as int, k % py as int, w),
                forall|a: int, b: int| 0 <= a < x && 0 <= b < py ==> #[trigger] grid_max(a, b, w) < num_vertices,
                forall|b: int| 0 <= b < y ==> #[trigger] grid_max(x as int, b, w) < num_vertices,
            decreases py - y,
        {
            let m = match (y * 2 + 2).checked_mul(width) {
                None => {
                    proof {
                        assert(grid_max(x as int, y as int, w) >= (y * 2 + 2) * w) by (nonlinear_arith)
                            requires 0 <= x, 0 <= y, 0 <= w;
                        assert(grid_max(x as int, y as int, w) >= num_vertices);
                    }
                    return None;
                },
                Some(m) => m,
            };
            let g = match m.checked_add(x * 2) {
                None => return None,
                Some(g) => g,
            };
            let g = match g.checked_add(2) {
                None => return None,
                Some(g) => g,
            };
            assert(g as int == grid_max(x as int, y as int, w));
            if g >= num_vertices {
                return None;
            }
            let grid = get_offset_grid(x, y, width);
            proof {
                let k = x * py + y;
                assert(k == out@.len());
                vstd::arithmetic::div_mod::lemma_fundamental_div_mod_converse(k as int, py as int, x as int, y as int);
            }
            out.push(grid);
            y = y + 1;
        }
        proof {
            assert((x + 1) * py == x * py + py) by (nonlinear_arith);
        }
        x = x + 1;
    }
    proof {
        assert(out@.len() == px * py);
        assert(out@ =~= patch_grids(size));
    }
    Some(out)
}

// ---------------------------------------------------------------------------
// Faces.

/// A range `first .. first + num` walked index by index: an empty range is
/// fine wherever it starts, any other must lie within `0 .. len`.
pub open spec fn mesh_range_ok(first: i32, num: i32, len: int) -> bool {
    num == 0 || (0 <= first && 0 <= num && first + num <= len)
}

/// A range `first .. first + num` taken as a slice: it must lie within `0 .. len`.
pub open spec fn range_ok(first: i32, num: i32, len: int) -> bool {
    0 <= first && 0 <= num && first + num <= len
}

/// The vertex index of the `j`-th mesh vertex of face `f`.
pub open spec fn mesh_index(f: RawFace, mesh: Seq<RawMeshVert>, j: int) -> int {
    mesh[f.first_mesh_vertex + j].offset + f.first_vertex
}

/// The mesh vertices of a face exist and their offsets from its first vertex fit an `i32`.
pub open spec fn mesh_ok(f: RawFace, mesh: Seq<RawMeshVert>) -> bool {
    &&& mesh_range_ok(f.first_mesh_vertex, f.num_mesh_vertices, mesh.len() as int)
    &&& forall|j: int|
        0 <= j < f.num_mesh_vertices ==> i32::MIN <= #[trigger] mesh_index(f, mesh, j) <= i32::MAX
}

/// A face can be built: its texture and lightmap exist, its mesh vertices
/// exist and their offsets from its first vertex fit an `i32`, and its patch
/// grid can be laid out.
pub open spec fn face_ok(
    f: RawFace,
    mesh: Seq<RawMeshVert>,
    num_vertices: int,
    num_textures: int,
    num_lightmaps: int,
) -> bool {
    &&& 0 <= f.texture_index < num_textures
    &&& (f.lightmap_index >= 0 ==> f.lightmap_index < num_lightmaps)
    &&& match f.face_type {
        FaceType::Mesh | FaceType::Polygon => mesh_ok(f, mesh),
        FaceType::Patch => patch_ok(f.size, num_vertices),
        FaceType::Billboard => true,
    }
}

/// What a face becomes: texture and lightmap by index (no lightmap when the
/// index is negative), mesh faces and polygons as the vertex indices of their
/// mesh vertices, patches as their control grids.
pub open spec fn face_view(f: RawFace, mesh: Seq<RawMeshVert>) -> FaceView {
    FaceView {
        texture: f.texture_index as usize,
        lightmap: if f.lightmap_index < 0 { None } else { Some(f.lightmap_index as usize) },
        render_type: match f.face_type {
            FaceType::Mesh | FaceType::Polygon => RenderTypeView::Mesh(
                Seq::new(
                    if f.num_mesh_vertices < 0 { 0 } else { f.num_mesh_vertices as nat },
                    |j: int| mesh_index(f, mesh, j) as usize,
                ),
            ),
            FaceType::Patch => RenderTypeView::Patch(patch_grids(f.size)),
            FaceType::Billboard => RenderTypeView::Billboard(0),
        },
    }
}

/// The mesh-vertex indices of a mesh face.
fn build_mesh(face: &RawFace, mesh_verts: &[RawMeshVert]) -> (r: Option<Vec<usize>>)
    requires
        face.face_type == FaceType::Mesh || face.face_type == FaceType::Polygon,
    ensures
        r is Some <==> mesh_ok(*face, mesh_verts@),
        r matches Some(v) ==> face_view(*face, mesh_verts@).render_type == RenderTypeView::Mesh(v@),
{
    let num = face.num_mesh_vertices;
    let first = face.first_mesh_vertex;
    let mut out: Vec<usize> = Vec::new();
    if num == 0 {
        assert(out@ =~= Seq::new(0, |j: int| mesh_index(*face, mesh_verts@, j) as usize));
        return Some(out);
    }
    if first < 0 || num < 0 || first as usize > mesh_verts.len() || num as usize > mesh_verts.len() - first as usize {
        return None;
    }
    let start = first as usize;
    let n = num as usize;
    let mut j: usize = 0;
    while j < n
        invariant
            j <= n,
            n == num as int,
            start == first as int,
            first == face.first_mesh_vertex,
            num == face.num_mesh_vertices,
            start + n <= mesh_verts@.len(),
            out@.len() == j,
            forall|k: int| 0 <= k < j ==> #[trigger] out@[k] == mesh_index(*face, mesh_verts@, k) as usize,
            forall|k: int| 0 <= k < j ==> i32::MIN <= #[trigger] mesh_index(*face, mesh_verts@, k) <= i32::MAX,
        decreases n - j,
    {
        let off = mesh_verts[start + j].offset;
        let v = match off.checked_add(face.first_vertex) {
            None => {
                assert(!(i32::MIN <= mesh_index(*face, mesh_verts@, j as int) <= i32::MAX));
                return None;
            },
            Some(v) => v,
        };
        assert(v as int == mesh_index(*face, mesh_verts@, j as int));
        out.push(v as usize);
        j = j + 1;
    }
    assert(out@ =~= Seq::new(num as nat, |j: int| mesh_index(*face, mesh_verts@, j) as usize));
    Some(out)
}

/// Builds a face, when [`face_ok`] holds.
pub fn build_face(
    face: &RawFace,
    mesh_verts: &[RawMeshVert],
    num_vertices: usize,
    num_textures: usize,
    num_lightmaps: usize,
) -> (r: Option<Face>)
    ensures
        r is Some <==> face_ok(*face, mesh_verts@, num_vertices as int, num_textures as int, num_lightmaps as int),
        r matches Some(f) ==> f@ == face_view(*face, mesh_verts@),
{
    if face.texture_index < 0 || face.texture_index as usize >= num_textures {
        return None;
    }
    let lightmap = if face.lightmap_index < 0 {
        None
    } else if face.lightmap_index as usize >= num_lightmaps {
        return None;
    } else {
        Some(face.lightmap_index as usize)
    };
    let render_type = match face.face_type {
        FaceType::Mesh | FaceType::Polygon => match build_mesh(face, mesh_verts) {
            None => return None,
            Some(v) => FaceRenderType::Mesh(v),
        },
        FaceType::Patch => match build_patches(face.size, num_vertices) {
            None => return None,
            Some(p) => FaceRenderType::Patch(p),
        },
        FaceType::Billboard => FaceRenderType::Billboard(0),
    };
    Some(Face { texture: face.texture_index as usize, lightmap, render_type })
}

/// A model can be built: its faces exist and each can be built.
pub open spec fn model_ok(
    mdl: RawModel,
    faces: Seq<RawFace>,
    mesh: Seq<RawMeshVert>,
    num_vertices: int,
    num_textures: int,
    num_lightmaps: int,
) -> bool {
    &&& mesh_range_ok(mdl.first_face, mdl.num_faces, faces.len() as int)
    &&& forall|j: int|
        0 <= j < mdl.num_faces ==> face_ok(#[trigger] faces[mdl.first_face + j], mesh, num_vertices, num_textures, num_lightmaps)
}

/// What a model becomes: its bounds and its faces; it gets no brushes.
pub open spec fn model_view(mdl: RawModel, faces: Seq<RawFace>, mesh: Seq<RawMeshVert>) -> ModelView {
    ModelView {
        min: mdl.min,
        max: mdl.max,
        faces: Seq::new(
            if mdl.num_faces < 0 { 0 } else { mdl.num_faces as nat },
            |j: int| face_view(faces[mdl.first_face + j], mesh),
        ),
        brushes: seq![],
    }
}

/// A built face names its texture and lightmap by their indices in the file
/// (a negative lightmap index gives no lightmap); a mesh face or polygon
/// lists, for each of its mesh vertices in turn, that mesh vertex's offset
/// plus the face's first vertex; a patch lists its control grids; a
/// billboard gets the placeholder `0`.
pub proof fn lemma_face_view_follows_record(f: RawFace, mesh: Seq<RawMeshVert>)
    ensures
        face_view(f, mesh).texture == f.texture_index as usize,
        f.lightmap_index < 0 ==> face_view(f, mesh).lightmap is None,
        f.lightmap_index >= 0 ==> face_view(f, mesh).lightmap == Some(f.lightmap_index as usize),
        (f.face_type == FaceType::Mesh || f.face_type == FaceType::Polygon) ==> (face_view(f, mesh).render_type
            matches RenderTypeView::Mesh(v) && (f.num_mesh_vertices >= 0 ==> v.len() == f.num_mesh_vertices)
            && forall|j: int|
            0 <= j < v.len() ==> #[trigger] v[j] == (mesh[f.first_mesh_vertex + j].offset + f.first_vertex) as usize),
        f.face_type == FaceType::Patch ==> face_view(f, mesh).render_type == RenderTypeView::Patch(
            patch_grids(f.size),
        ),
        f.face_type == FaceType::Billboard ==> face_view(f, mesh).render_type == RenderTypeView::Billboard(0),
{
}

/// A built model keeps the model's corners, and its `j`-th face is the face
/// record `first_face + j`, built; it gets no brushes.
pub proof fn lemma_model_view_follows_record(mdl: RawModel, faces: Seq<RawFace>, mesh: Seq<RawMeshVert>)
    ensures
        model_view(mdl, faces, mesh).min == mdl.min,
        model_view(mdl, faces, mesh).max == mdl.max,
        mdl.num_faces >= 0 ==> model_view(mdl, faces, mesh).faces.len() == mdl.num_faces,
        forall|j: int|
            0 <= j < model_view(mdl, faces, mesh).faces.len() ==> #[trigger] model_view(mdl, faces, mesh).faces[j]
                == face_view(faces[mdl.first_face + j], mesh),
        model_view(mdl, faces, mesh).brushes.len() == 0,
{
}

/// Builds a model, when [`model_ok`] holds.
pub fn build_model(
    mdl: &RawModel,
    faces: &[RawFace],
    mesh_verts: &[RawMeshVert],
    num_vertices: usize,
    num_textures: usize,
    num_lightmaps: usize,
) -> (r: Option<Model>)
    ensures
        r is Some <==> model_ok(*mdl, faces@, mesh_verts@, num_vertices as int, num_textures as int, num_lightmaps as int),
        r matches Some(m) ==> m@ == model_view(*mdl, faces@, mesh_verts@),
{
    let mut out: Vec<Face> = Vec::new();
    let num = mdl.num_faces;
    let first = mdl.first_face;
    if num != 0 {
        if first < 0 || num < 0 || first as usize > faces.len() || num as usize > faces.len() - first as usize {
            return None;
        }
        let start = first as usize;
        let n = num as usize;
        let mut j: usize = 0;
        while j < n
            invariant
                j <= n,
                n == num as int,
                start == first as int,
                first == mdl.first_face,
                num == mdl.num_faces,
                start + n <= faces@.len(),
                views(out@) == Seq::new(j as nat, |k: int| face_view(faces@[first + k], mesh_verts@)),
                forall|k: int| 0 <= k < j ==> face_ok(#[trigger] faces@[first + k], mesh_verts@, num_vertices as int, num_textures as int, num_lightmaps as int),
            decreases n - j,
        {
            match build_face(&faces[start + j], mesh_verts, num_vertices, num_textures, num_lightmaps) {
                None => return None,
                Some(f) => {
                    proof {
                        lemma_views_push(out@, f);
                        assert(views(out@.push(f)) =~= Seq::new((j + 1) as nat, |k: int| face_view(faces@[first + k], mesh_verts@)));
                    }
                    out.push(f);
                },
            }
            j = j + 1;
        }
    }
    let m = Model { min: mdl.min, max: mdl.max, faces: out, brushes: Vec::new() };
    assert(m@.faces =~= model_view(*mdl, faces@, mesh_verts@).faces);
    assert(m@.brushes =~= model_view(*mdl, faces@, mesh_verts@).brushes);
    Some(m)
}

// ---------------------------------------------------------------------------
// Brushes.

/// A brush can be built: its sides exist, and their planes and textures and
/// its own texture exist.
pub open spec fn brush_ok(
    b: RawBrush,
    sides: Seq<RawBrushSide>,
    num_planes: int,
    num_textures: int,
) -> bool {
    &&& range_ok(b.first_brush_side, b.num_brush_sides, sides.len() as int)
    &&& forall|j: int|
        0 <= j < b.num_brush_sides ==> {
            let side = #[trigger] sides[b.first_brush_side + j];
            &&& 0 <= side.plane_index < num_planes
            &&& 0 <= side.texture_index < num_textures
        }
    &&& 0 <= b.texture_index < num_textures
}

/// What a brush becomes: one surface per side (the side's plane and its
/// texture's surface flags) and its texture's content flags.
pub open spec fn brush_view(
    b: RawBrush,
    sides: Seq<RawBrushSide>,
    planes: Seq<Plane>,
    textures: Seq<TextureView>,
) -> BrushView {
    BrushView {
        surfaces: Seq::new(
            if b.num_brush_sides < 0 { 0 } else { b.num_brush_sides as nat },
            |j: int| {
                let side = sides[b.first_brush_side + j];
                Surface {
                    plane: planes[side.plane_index as int],
                    surface_flags: textures[side.texture_index as int].surface_flags,
                }
            },
        ),
        content_flags: textures[b.texture_index as int].content_flags,
    }
}

/// Every side of a brush becomes a surface with that side's own plane and
/// the surface flags of that side's own texture, in side order; the brush's
/// content flags are those of the brush's texture.
pub proof fn lemma_brush_surfaces_follow_sides(
    b: RawBrush,
    sides: Seq<RawBrushSide>,
    planes: Seq<Plane>,
    textures: Seq<TextureView>,
)
    ensures
        b.num_brush_sides >= 0 ==> brush_view(b, sides, planes, textures).surfaces.len() == b.num_brush_sides,
        forall|j: int|
            0 <= j < brush_view(b, sides, planes, textures).surfaces.len() ==> {
                &&& 0 <= j < b.num_brush_sides
                &&& (#[trigger] brush_view(b, sides, planes, textures).surfaces[j]).plane
                    == planes[sides[b.first_brush_side + j].plane_index as int]
                &&& brush_view(b, sides, planes, textures).surfaces[j].surface_flags
                    == textures[sides[b.first_brush_side + j].texture_index as int].surface_flags
            },
        brush_view(b, sides, planes, textures).content_flags == textures[b.texture_index as int].content_flags,
{
}

/// Builds a brush, when [`brush_ok`] holds.
pub fn build_brush(
    brush: &RawBrush,
    brush_sides: &[RawBrushSide],
    planes: &[Plane],
    raw_textures: &[Texture],
) -> (r: Option<Brush>)
    ensures
        r is Some <==> brush_ok(*brush, brush_sides@, planes@.len() as int, raw_textures@.len() as int),
        r matches Some(b) ==> b@ == brush_view(*brush, brush_sides@, planes@, views(raw_textures@)),
{
    let num = brush.num_brush_sides;
    let first = brush.first_brush_side;
    if first < 0 || num < 0 || first as usize > brush_sides.len() || num as usize > brush_sides.len() - first as usize {
        return None;
    }
    let start = first as usize;
    let n = num as usize;
    let mut surfaces: Vec<Surface> = Vec::new();
    let mut j: usize = 0;
    while j < n
        invariant
            j <= n,
            n == num as int,
            start == first as int,
            first == brush.first_brush_side,
            num == brush.num_brush_sides,
            start + n <= brush_sides@.len(),
            surfaces@ == brush_view(*brush, brush_sides@, planes@, views(raw_textures@)).surfaces.take(j as int),
            forall|k: int| 0 <= k < j ==> {
                let side = #[trigger] brush_sides@[first + k];
                &&& 0 <= side.plane_index < planes@.len()
                &&& 0 <= side.texture_index < raw_textures@.len()
            },
        decreases n - j,
    {
        let side = &brush_sides[start + j];
        if side.plane_index < 0 || side.plane_index as usize >= planes.len() {
            return None;
        }
        if side.texture_index < 0 || side.texture_index as usize >= raw_textures.len() {
            return None;
        }
        let sf = Surface {
            plane: planes[side.plane_index as usize],
            surface_flags: raw_textures[side.texture_index as usize].surface_flags,
        };
        proof {
            let bv = brush_view(*brush, brush_sides@, planes@, views(raw_textures@)).surfaces;
            assert(surfaces@.push(sf) =~= bv.take(j + 1));
        }
        surfaces.push(sf);
        j = j + 1;
    }
    if brush.texture_index < 0 || brush.texture_index as usize >= raw_textures.len() {
        return None;
    }
    let b = Brush {
        surfaces,
        content_flags: raw_textures[brush.texture_index as usize].content_flags,
    };
    assert(b@.surfaces =~= brush_view(*brush, brush_sides@, planes@, views(raw_textures@)).surfaces);
    Some(b)
}

// ---------------------------------------------------------------------------
// Leaves.

/// The run of a leaf's face indices (`faces`) or brush indices (otherwise).
pub open spec fn leaf_run(l: RawLeaf, faces: bool) -> (i32, i32) {
    if faces {
        (l.first_leaf_face, l.num_leaf_faces)
    } else {
        (l.first_leaf_brush, l.num_leaf_brushes)
    }
}

/// The index values in a run of an index lump.
pub open spec fn run_values(ids: Seq<int>, run: (i32, i32)) -> Seq<int> {
    ids.subrange(run.0 as int, run.0 + run.1)
}

/// The index values of the runs of the first `n` leaves that belong to cluster `c`.
pub open spec fn cluster_values(leaves: Seq<RawLeaf>, ids: Seq<int>, c: int, faces: bool, n: int) -> Seq<int>
    decreases n,
{
    if n <= 0 {
        seq![]
    } else {
        let l = leaves[n - 1];
        cluster_values(leaves, ids, c, faces, n - 1) + if l.visdata_cluster == c {
            run_values(ids, leaf_run(l, faces))
        } else {
            seq![]
        }
    }
}

/// The runs of the first `n` leaves of cluster `c` lie within the lump.
pub open spec fn cluster_runs_ok(leaves: Seq<RawLeaf>, len: int, c: int, faces: bool, n: int) -> bool {
    forall|i: int| 0 <= i < n && (#[trigger] leaves[i]).visdata_cluster == c ==> {
        let r = leaf_run(leaves[i], faces);
        range_ok(r.0, r.1, len)
    }
}

pub open spec fn face_ids(raw: RawBspView) -> Seq<int> {
    raw.leaf_faces.map_values(|x: crate::raw_bsp::RawLeafFace| x.index as int)
}

pub open spec fn brush_ids(raw: RawBspView) -> Seq<int> {
    raw.leaf_brushes.map_values(|x: crate::raw_bsp::RawLeafBrush| x.index as int)
}

/// The face indices of cluster `c`: sorted, each once.
pub open spec fn cluster_face_ids(raw: RawBspView, c: int) -> Seq<int> {
    sorted_distinct(cluster_values(raw.leaves, face_ids(raw), c, true, raw.leaves.len() as int))
}

/// The brush indices of cluster `c`: sorted, each once.
pub open spec fn cluster_brush_ids(raw: RawBspView, c: int) -> Seq<int> {
    sorted_distinct(cluster_values(raw.leaves, brush_ids(raw), c, false, raw.leaves.len() as int))
}

/// The clusters of the leaves: sorted, each once.
pub open spec fn clusters(raw: RawBspView) -> Seq<int> {
    sorted_distinct(Seq::new(raw.leaves.len(), |i: int| raw.leaves[i].visdata_cluster as int))
}

/// The clusters that become leaves: all but the first when the first is
/// negative (the space outside the map).
pub open spec fn out_clusters(raw: RawBspView) -> Seq<int> {
    let c = clusters(raw);
    if c.len() > 0 && c[0] < 0 {
        c.drop_first()
    } else {
        c
    }
}

pub open spec fn min(a: int, b: int) -> int {
    if a < b {
        a
    } else {
        b
    }
}

/// A cluster's leaf can be built.  Its faces and brushes are paired off, so
/// only as many of each are built as the shorter list holds; when there are
/// more faces than brushes, one face past that count is built too (and
/// dropped).
pub open spec fn cluster_ok(raw: RawBspView, c: int) -> bool {
    let f = cluster_face_ids(raw, c);
    let b = cluster_brush_ids(raw, c);
    &&& forall|k: int|
        0 <= k < min(f.len() as int, b.len() as int + 1) ==> {
            &&& 0 <= #[trigger] f[k] < raw.faces.len()
            &&& face_ok(raw.faces[f[k]], raw.mesh_vertices, raw.vertices.len() as int, raw.textures.len() as int, raw.light_maps.len() as int)
        }
    &&& forall|k: int|
        0 <= k < min(f.len() as int, b.len() as int) ==> {
            &&& 0 <= #[trigger] b[k] < raw.brushes.len()
            &&& brush_ok(raw.brushes[b[k]], raw.brush_sides, raw.planes.len() as int, raw.textures.len() as int)
        }
}

/// The start, in the visibility bytes, of the vector of cluster `c`.
pub open spec fn vis_start(v: RawVisibilityDataView, c: int) -> int {
    (((c as isize) as usize) as int) * ((v.sizeof_vector as usize) as int)
}

/// The visibility vector of cluster `c`.
pub open spec fn vis_bytes(v: RawVisibilityDataView, c: int) -> Seq<u8> {
    v.raw_bytes.subrange(vis_start(v, c), vis_start(v, c) + (v.sizeof_vector as usize) as int)
}

/// The visibility vector of cluster `c` lies within the first visibility
/// record and each of its set bits names one of the `n` leaves.
pub open spec fn visdata_ok(raw: RawBspView, c: int, n: int) -> bool {
    &&& raw.visibility_data.len() > 0
    &&& vis_start(raw.visibility_data[0], c) + (raw.visibility_data[0].sizeof_vector as usize) as int
        <= raw.visibility_data[0].raw_bytes.len()
    &&& 8 * ((raw.visibility_data[0].sizeof_vector as usize) as int) <= usize::MAX
    &&& forall|k: int|
        0 <= k < set_bits(vis_bytes(raw.visibility_data[0], c)).len() ==> (#[trigger] set_bits(
            vis_bytes(raw.visibility_data[0], c),
        )[k]) < n
}

/// The leaf of cluster `c` with the given visible set.
pub open spec fn leaf_view(raw: RawBspView, c: int, visdata: Seq<usize>) -> LeafView {
    let f = cluster_face_ids(raw, c);
    let b = cluster_brush_ids(raw, c);
    let m = min(f.len() as int, b.len() as int);
    LeafView {
        cluster: c as isize,
        visdata,
        faces: Seq::new(m as nat, |k: int| face_view(raw.faces[f[k]], raw.mesh_vertices)),
        brushes: Seq::new(
            m as nat,
            |k: int| brush_view(raw.brushes[b[k]], raw.brush_sides, raw.planes, raw.textures),
        ),
    }
}

/// The leaves can be built: there is at least one, every leaf's runs lie
/// within the index lumps, every cluster's leaf can be built, and every kept
/// cluster's visibility vector is well placed.
pub open spec fn leaves_ok(raw: RawBspView) -> bool {
    let out = out_clusters(raw);
    &&& raw.leaves.len() > 0
    &&& forall|i: int| 0 <= i < raw.leaves.len() ==> #[trigger] leaf_runs_ok(raw, i)
    &&& forall|k: int| 0 <= k < clusters(raw).len() ==> cluster_ok(raw, #[trigger] clusters(raw)[k])
    &&& forall|k: int| 0 <= k < out.len() ==> visdata_ok(raw, #[trigger] out[k], out.len() as int)
}

/// The leaves: one per kept cluster, in increasing cluster order.
pub open spec fn leaves_view(raw: RawBspView) -> Seq<LeafView> {
    let out = out_clusters(raw);
    Seq::new(
        out.len(),
        |k: int| leaf_view(raw, out[k], set_bits(vis_bytes(raw.visibility_data[0], out[k]))),
    )
}

/// The sorted distinct index values of the runs of the leaves of cluster
/// `c`, when every such run lies within `ids`.
fn collect_cluster_ids(leaves: &[RawLeaf], ids: &Vec<i32>, c: i32, faces: bool) -> (r: Option<Vec<i32>>)
    ensures
        r is Some <==> cluster_runs_ok(leaves@, ids@.len() as int, c as int, faces, leaves@.len() as int),
        r matches Some(v) ==> ints(v@) == sorted_distinct(cluster_values(leaves@, ints(ids@), c as int, faces, leaves@.len() as int)),
{
    let mut out: Vec<i32> = Vec::new();
    let mut i: usize = 0;
    assert(ints(out@) =~= Seq::<int>::empty());
    while i < leaves.len()
        invariant
            i <= leaves@.len(),
            increasing(ints(out@)),
            same_members(ints(out@), cluster_values(leaves@, ints(ids@), c as int, faces, i as int)),
            cluster_runs_ok(leaves@, ids@.len() as int, c as int, faces, i as int),
        decreases leaves@.len() - i,
    {
        let l = &leaves[i];
        let ghost prev = cluster_values(leaves@, ints(ids@), c as int, faces, i as int);
        if l.visdata_cluster == c {
            let (first, num) = if faces {
                (l.first_leaf_face, l.num_leaf_faces)
            } else {
                (l.first_leaf_brush, l.num_leaf_brushes)
            };
            if first < 0 || num < 0 || first as usize > ids.len() || num as usize > ids.len() - first as usize {
                assert(!range_ok(first, num, ids@.len() as int));
                return None;
            }
            let start = first as usize;
            let n = num as usize;
            let ghost run = run_values(ints(ids@), (first, num));
            let mut j: usize = 0;
            while j < n
                invariant
                    j <= n,
                    start + n <= ids@.len(),
                    start == first as int,
                    n == num as int,
                    run == ints(ids@).subrange(first as int, first + num),
                    increasing(ints(out@)),
                    same_members(ints(out@), prev + run.take(j as int)),
                decreases n - j,
            {
                proof {
                    lemma_members_push(prev + run.take(j as int), run[j as int]);
                    assert((prev + run.take(j as int)).push(run[j as int]) =~= prev + run.take(j + 1));
                    assert(run[j as int] == ids@[start + j] as int);
                }
                insert_sorted(&mut out, ids[start + j]);
                j = j + 1;
            }
            assert(run.take(n as int) =~= run);
        } else {
            assert(prev + seq![] =~= prev);
        }
        i = i + 1;
    }
    proof {
        lemma_sorted_distinct(ints(out@), cluster_values(leaves@, ints(ids@), c as int, faces, leaves@.len() as int));
    }
    Some(out)
}

/// The record lumps of a file seen through their views are the lumps themselves.
pub proof fn lemma_raw_lumps(raw: &RawBsp)
    ensures
        raw@.leaves == raw.leaves@,
        raw@.faces == raw.faces@,
        raw@.mesh_vertices == raw.mesh_vertices@,
        raw@.brushes == raw.brushes@,
        raw@.brush_sides == raw.brush_sides@,
        raw@.planes == raw.planes@,
        raw@.nodes == raw.nodes@,
        raw@.models == raw.models@,
        raw@.vertices == raw.vertices@,
        raw@.textures.len() == raw.textures@.len(),
        raw@.light_maps.len() == raw.light_maps@.len(),
        raw@.visibility_data.len() == raw.visibility_data@.len(),
        forall|k: int| 0 <= k < raw.visibility_data@.len() ==> raw@.visibility_data[k] == (#[trigger] raw.visibility_data@[k])@,
{
    assert(raw@.leaves =~= raw.leaves@);
    assert(raw@.faces =~= raw.faces@);
    assert(raw@.mesh_vertices =~= raw.mesh_vertices@);
    assert(raw@.brushes =~= raw.brushes@);
    assert(raw@.brush_sides =~= raw.brush_sides@);
    assert(raw@.planes =~= raw.planes@);
    assert(raw@.nodes =~= raw.nodes@);
    assert(raw@.models =~= raw.models@);
    assert(raw@.vertices =~= raw.vertices@);
}

/// The index values of the leaf-face lump.
fn leaf_face_ids(raw: &RawBsp) -> (r: Vec<i32>)
    ensures
        ints(r@) == face_ids(raw@),
        r@.len() == raw@.leaf_faces.len(),
{
    let mut out: Vec<i32> = Vec::new();
    let mut i: usize = 0;
    while i < raw.leaf_faces.len()
        invariant
            i <= raw.leaf_faces@.len(),
            ints(out@) == face_ids(raw@).take(i as int),
            raw@.leaf_faces =~= raw.leaf_faces@,
        decreases raw.leaf_faces@.len() - i,
    {
        let ghost before = out@;
        out.push(raw.leaf_faces[i].index);
        proof {
            assert(out@ =~= before.push(raw.leaf_faces@[i as int].index));
            assert(face_ids(raw@)[i as int] == raw.leaf_faces@[i as int].index as int);
            assert(ints(out@) =~= ints(before).push(raw.leaf_faces@[i as int].index as int));
            assert(face_ids(raw@).take(i + 1) =~= face_ids(raw@).take(i as int).push(face_ids(raw@)[i as int]));
            assert(ints(out@) =~= face_ids(raw@).take(i + 1));
        }
        i = i + 1;
    }
    assert(face_ids(raw@).take(i as int) =~= face_ids(raw@));
    out
}

/// The index values of the leaf-brush lump.
fn leaf_brush_ids(raw: &RawBsp) -> (r: Vec<i32>)
    ensures
        ints(r@) == brush_ids(raw@),
        r@.len() == raw@.leaf_brushes.len(),
{
    let mut out: Vec<i32> = Vec::new();
    let mut i: usize = 0;
    while i < raw.leaf_brushes.len()
        invariant
            i <= raw.leaf_brushes@.len(),
            ints(out@) == brush_ids(raw@).take(i as int),
            raw@.leaf_brushes =~= raw.leaf_brushes@,
        decreases raw.leaf_brushes@.len() - i,
    {
        let ghost before = out@;
        out.push(raw.leaf_brushes[i].index);
        proof {
            assert(out@ =~= before.push(raw.leaf_brushes@[i as int].index));
            assert(brush_ids(raw@)[i as int] == raw.leaf_brushes@[i as int].index as int);
            assert(ints(out@) =~= ints(before).push(raw.leaf_brushes@[i as int].index as int));
            assert(brush_ids(raw@).take(i + 1) =~= brush_ids(raw@).take(i as int).push(brush_ids(raw@)[i as int]));
            assert(ints(out@) =~= brush_ids(raw@).take(i + 1));
        }
        i = i + 1;
    }
    assert(brush_ids(raw@).take(i as int) =~= brush_ids(raw@));
    out
}

/// The visible set of cluster `c` among `n` leaves, when [`visdata_ok`] holds.
fn visdata_for(raw: &RawBsp, c: i32, n: usize) -> (r: Option<Vec<usize>>)
    ensures
        r is Some <==> visdata_ok(raw@, c as int, n as int),
        r matches Some(v) ==> v@ == set_bits(vis_bytes(raw@.visibility_data[0], c as int)),
{
    proof {
        lemma_raw_lumps(raw);
    }
    if raw.visibility_data.len() == 0 {
        return None;
    }
    let v = &raw.visibility_data[0];
    let blen = v.raw_bytes.len();
    let ci: isize = c as isize;
    let cu: usize = ci as usize;
    let su: usize = v.sizeof_vector as usize;
    assert(raw@.visibility_data[0] == v@);
    assert(cu as int == (((c as int) as isize) as usize) as int);
    assert(su as int == ((v.sizeof_vector as usize) as int));
    assert(vis_start(raw@.visibility_data[0], c as int) == cu * su);
    let start = match cu.checked_mul(su) {
        None => {
            assert(vis_start(raw@.visibility_data[0], c as int) > usize::MAX) by (nonlinear_arith)
                requires cu * su > usize::MAX, vis_start(raw@.visibility_data[0], c as int) == cu * su;
            return None;
        },
        Some(s) => s,
    };
    let end = match start.checked_add(su) {
        None => return None,
        Some(e) => e,
    };
    if end > v.raw_bytes.len() {
        return None;
    }
    if su > usize::MAX / 8 {
        return None;
    }
    let bytes = &v.raw_bytes.as_slice()[start..end];
    assert(bytes@ == vis_bytes(raw@.visibility_data[0], c as int));
    let idx = get_indices(bytes);
    let mut k: usize = 0;
    while k < idx.len()
        invariant
            k <= idx@.len(),
            forall|j: int| 0 <= j < k ==> idx@[j] < n,
            raw@.visibility_data.len() > 0,
            idx@ == set_bits(vis_bytes(raw@.visibility_data[0], c as int)),
        decreases idx@.len() - k,
    {
        if idx[k] >= n {
            assert(set_bits(vis_bytes(raw@.visibility_data[0], c as int))[k as int] >= n);
            return None;
        }
        k = k + 1;
    }
    Some(idx)
}

/// Builds the leaf of cluster `c` with the visible set `visdata`, when the
/// runs of its leaves lie within the index lumps and [`cluster_ok`] holds.
fn build_cluster_leaf(
    raw: &RawBsp,
    fids: &Vec<i32>,
    bids: &Vec<i32>,
    c: i32,
    visdata: Vec<usize>,
) -> (r: Option<Leaf>)
    requires
        ints(fids@) == face_ids(raw@),
        fids@.len() == raw@.leaf_faces.len(),
        ints(bids@) == brush_ids(raw@),
        bids@.len() == raw@.leaf_brushes.len(),
    ensures
        r is Some <==> {
            &&& cluster_runs_ok(raw@.leaves, raw@.leaf_faces.len() as int, c as int, true, raw@.leaves.len() as int)
            &&& cluster_runs_ok(raw@.leaves, raw@.leaf_brushes.len() as int, c as int, false, raw@.leaves.len() as int)
            &&& cluster_ok(raw@, c as int)
        },
        r matches Some(l) ==> l@ == leaf_view(raw@, c as int, visdata@),
{
    proof {
        lemma_raw_lumps(raw);
    }
    let f = match collect_cluster_ids(raw.leaves.as_slice(), fids, c, true) {
        None => return None,
        Some(f) => f,
    };
    let b = match collect_cluster_ids(raw.leaves.as_slice(), bids, c, false) {
        None => return None,
        Some(b) => b,
    };
    let ghost fs = cluster_face_ids(raw@, c as int);
    let ghost bs = cluster_brush_ids(raw@, c as int);
    assert(ints(f@) == fs);
    assert(ints(b@) == bs);
    let nf = f.len();
    let nb = b.len();
    let m = if nf < nb { nf } else { nb };
    let cf = if nf <= nb { nf } else { nb + 1 };
    assert(cf as int == min(fs.len() as int, bs.len() as int + 1));
    assert(m as int == min(fs.len() as int, bs.len() as int));
    let mut faces: Vec<Face> = Vec::new();
    let mut k: usize = 0;
    while k < cf
        invariant
            k <= cf,
            m <= cf,
            cf <= f@.len(),
            ints(f@) == fs,
            fs == cluster_face_ids(raw@, c as int),
            bs == cluster_brush_ids(raw@, c as int),
            cf as int == min(fs.len() as int, bs.len() as int + 1),
            m as int == min(fs.len() as int, bs.len() as int),
            raw@.faces == raw.faces@,
            raw@.mesh_vertices == raw.mesh_vertices@,
            raw@.vertices == raw.vertices@,
            raw@.textures.len() == raw.textures@.len(),
            raw@.light_maps.len() == raw.light_maps@.len(),
            faces@.len() == min(k as int, m as int),
            views(faces@) == Seq::new(min(k as int, m as int) as nat, |j: int| face_view(raw@.faces[fs[j]], raw@.mesh_vertices)),
            forall|j: int| 0 <= j < k ==> {
                &&& 0 <= #[trigger] fs[j] < raw@.faces.len()
                &&& face_ok(raw@.faces[fs[j]], raw@.mesh_vertices, raw@.vertices.len() as int, raw@.textures.len() as int, raw@.light_maps.len() as int)
            },
        decreases cf - k,
    {
        let idx = f[k];
        assert(fs[k as int] == idx as int);
        if idx < 0 || idx as usize >= raw.faces.len() {
            return None;
        }
        let face = match build_face(&raw.faces[idx as usize], raw.mesh_vertices.as_slice(), raw.vertices.len(), raw.textures.len(), raw.light_maps.len()) {
            None => return None,
            Some(face) => face,
        };
        if k < m {
            proof {
                lemma_views_push(faces@, face);
                assert(views(faces@.push(face)) =~= Seq::new((k + 1) as nat, |j: int| face_view(raw@.faces[fs[j]], raw@.mesh_vertices)));
            }
            faces.push(face);
        }
        k = k + 1;
    }
    let mut brushes: Vec<Brush> = Vec::new();
    let mut k: usize = 0;
    while k < m
        invariant
            k <= m,
            m <= b@.len(),
            ints(b@) == bs,
            fs == cluster_face_ids(raw@, c as int),
            bs == cluster_brush_ids(raw@, c as int),
            m as int == min(fs.len() as int, bs.len() as int),
            raw@.brushes == raw.brushes@,
            raw@.brush_sides == raw.brush_sides@,
            raw@.planes == raw.planes@,
            raw@.textures == views(raw.textures@),
            views(brushes@) == Seq::new(k as nat, |j: int| brush_view(raw@.brushes[bs[j]], raw@.brush_sides, raw@.planes, raw@.textures)),
            forall|j: int| 0 <= j < k ==> {
                &&& 0 <= #[trigger] bs[j] < raw@.brushes.len()
                &&& brush_ok(raw@.brushes[bs[j]], raw@.brush_sides, raw@.planes.len() as int, raw@.textures.len() as int)
            },
        decreases m - k,
    {
        let idx = b[k];
        assert(bs[k as int] == idx as int);
        if idx < 0 || idx as usize >= raw.brushes.len() {
            return None;
        }
        let brush = match build_brush(&raw.brushes[idx as usize], raw.brush_sides.as_slice(), raw.planes.as_slice(), raw.textures.as_slice()) {
            None => return None,
            Some(br) => br,
        };
        proof {
            lemma_views_push(brushes@, brush);
            assert(views(brushes@.push(brush)) =~= Seq::new((k + 1) as nat, |j: int| brush_view(raw@.brushes[bs[j]], raw@.brush_sides, raw@.planes, raw@.textures)));
        }
        brushes.push(brush);
        k = k + 1;
    }
    let leaf = Leaf { cluster: c as isize, visdata, faces, brushes };
    assert(leaf@.faces =~= leaf_view(raw@, c as int, visdata@).faces);
    assert(leaf@.brushes =~= leaf_view(raw@, c as int, visdata@).brushes);
    Some(leaf)
}

/// The runs of leaf `i` lie within the index lumps.
pub open spec fn leaf_runs_ok(raw: RawBspView, i: int) -> bool {
    &&& range_ok(raw.leaves[i].first_leaf_face, raw.leaves[i].num_leaf_faces, raw.leaf_faces.len() as int)
    &&& range_ok(raw.leaves[i].first_leaf_brush, raw.leaves[i].num_leaf_brushes, raw.leaf_brushes.len() as int)
}

/// Everything [`build_cluster_leaf`] checks for cluster `c`.
pub open spec fn cluster_leaf_ok(raw: RawBspView, c: int) -> bool {
    &&& cluster_runs_ok(raw.leaves, raw.leaf_faces.len() as int, c, true, raw.leaves.len() as int)
    &&& cluster_runs_ok(raw.leaves, raw.leaf_brushes.len() as int, c, false, raw.leaves.len() as int)
    &&& cluster_ok(raw, c)
}

/// A value is among the run values of the first `n` leaves of cluster `c`
/// exactly when some such leaf's run lists it.
proof fn lemma_cluster_values_members(leaves: Seq<RawLeaf>, ids: Seq<int>, c: int, faces: bool, n: int)
    requires
        0 <= n <= leaves.len(),
        forall|i: int|
            0 <= i < n ==> range_ok(
                (#[trigger] leaf_run(leaves[i], faces)).0,
                leaf_run(leaves[i], faces).1,
                ids.len() as int,
            ),
    ensures
        forall|x: int|
            cluster_values(leaves, ids, c, faces, n).contains(x) <==> exists|i: int, j: int|
                #![trigger leaf_run(leaves[i], faces), ids[leaf_run(leaves[i], faces).0 + j]]
                {
                    &&& 0 <= i < n
                    &&& leaves[i].visdata_cluster == c
                    &&& 0 <= j < leaf_run(leaves[i], faces).1
                    &&& x == ids[leaf_run(leaves[i], faces).0 + j]
                },
    decreases n,
{
    if n > 0 {
        lemma_cluster_values_members(leaves, ids, c, faces, n - 1);
        let prev = cluster_values(leaves, ids, c, faces, n - 1);
        let l = leaves[n - 1];
        let run = leaf_run(l, faces);
        let tail = if l.visdata_cluster == c { run_values(ids, run) } else { seq![] };
        assert(cluster_values(leaves, ids, c, faces, n) == prev + tail);
        assert(range_ok(leaf_run(leaves[n - 1], faces).0, leaf_run(leaves[n - 1], faces).1, ids.len() as int));
        assert forall|x: int|
            cluster_values(leaves, ids, c, faces, n).contains(x) <==> exists|i: int, j: int|
                #![trigger leaf_run(leaves[i], faces), ids[leaf_run(leaves[i], faces).0 + j]]
                {
                    &&& 0 <= i < n
                    &&& leaves[i].visdata_cluster == c
                    &&& 0 <= j < leaf_run(leaves[i], faces).1
                    &&& x == ids[leaf_run(leaves[i], faces).0 + j]
                } by {
            let all = prev + tail;
            if all.contains(x) {
                let k = choose|k: int| 0 <= k < all.len() && all[k] == x;
                if k < prev.len() {
                    assert(prev[k] == x);
                    assert(prev.contains(x));
                } else {
                    assert(tail[k - prev.len()] == x);
                    let j = k - prev.len();
                    assert(ids[leaf_run(leaves[n - 1], faces).0 + j] == x);
                }
            }
            if exists|i: int, j: int|
                #![trigger leaf_run(leaves[i], faces), ids[leaf_run(leaves[i], faces).0 + j]]
                {
                    &&& 0 <= i < n
                    &&& leaves[i].visdata_cluster == c
                    &&& 0 <= j < leaf_run(leaves[i], faces).1
                    &&& x == ids[leaf_run(leaves[i], faces).0 + j]
                } {
                let (i, j) = choose|i: int, j: int|
                    #![trigger leaf_run(leaves[i], faces), ids[leaf_run(leaves[i], faces).0 + j]]
                    {
                        &&& 0 <= i < n
                        &&& leaves[i].visdata_cluster == c
                        &&& 0 <= j < leaf_run(leaves[i], faces).1
                        &&& x == ids[leaf_run(leaves[i], faces).0 + j]
                    };
                if i < n - 1 {
                    assert(prev.contains(x));
                    let k = choose|k: int| 0 <= k < prev.len() && prev[k] == x;
                    assert(all[k] == x);
                } else {
                    assert(tail[j] == x);
                    assert(all[prev.len() + j] == x);
                }
            }
        }
    }
}

/// The face indices of a cluster increase, and an index is among them
/// exactly when the leaf-face run of some leaf of the cluster lists it; the
/// same holds of its brush indices and the leaf-brush runs.
pub proof fn lemma_cluster_ids_are_the_cluster_runs(raw: RawBspView, c: int)
    requires
        forall|i: int| 0 <= i < raw.leaves.len() ==> #[trigger] leaf_runs_ok(raw, i),
    ensures
        increasing(cluster_face_ids(raw, c)),
        forall|x: int|
            cluster_face_ids(raw, c).contains(x) <==> exists|i: int, j: int|
                #![trigger raw.leaf_faces[raw.leaves[i].first_leaf_face + j]]
                {
                    &&& 0 <= i < raw.leaves.len()
                    &&& raw.leaves[i].visdata_cluster == c
                    &&& 0 <= j < raw.leaves[i].num_leaf_faces
                    &&& x == raw.leaf_faces[raw.leaves[i].first_leaf_face + j].index
                },
        increasing(cluster_brush_ids(raw, c)),
        forall|x: int|
            cluster_brush_ids(raw, c).contains(x) <==> exists|i: int, j: int|
                #![trigger raw.leaf_brushes[raw.leaves[i].first_leaf_brush + j]]
                {
                    &&& 0 <= i < raw.leaves.len()
                    &&& raw.leaves[i].visdata_cluster == c
                    &&& 0 <= j < raw.leaves[i].num_leaf_brushes
                    &&& x == raw.leaf_brushes[raw.leaves[i].first_leaf_brush + j].index
                },
{
    let n = raw.leaves.len() as int;
    let fids = face_ids(raw);
    let bids = brush_ids(raw);
    assert forall|i: int| 0 <= i < n implies range_ok(
        (#[trigger] leaf_run(raw.leaves[i], true)).0,
        leaf_run(raw.leaves[i], true).1,
        fids.len() as int,
    ) by {
        assert(leaf_runs_ok(raw, i));
    }
    assert forall|i: int| 0 <= i < n implies range_ok(
        (#[trigger] leaf_run(raw.leaves[i], false)).0,
        leaf_run(raw.leaves[i], false).1,
        bids.len() as int,
    ) by {
        assert(leaf_runs_ok(raw, i));
    }
    lemma_cluster_values_members(raw.leaves, fids, c, true, n);
    lemma_cluster_values_members(raw.leaves, bids, c, false, n);
    let fv = cluster_values(raw.leaves, fids, c, true, n);
    let bv = cluster_values(raw.leaves, bids, c, false, n);
    lemma_sorted_distinct_exists(fv);
    lemma_sorted_distinct_exists(bv);
    assert forall|x: int|
        cluster_face_ids(raw, c).contains(x) <==> exists|i: int, j: int|
            #![trigger raw.leaf_faces[raw.leaves[i].first_leaf_face + j]]
            {
                &&& 0 <= i < raw.leaves.len()
                &&& raw.leaves[i].visdata_cluster == c
                &&& 0 <= j < raw.leaves[i].num_leaf_faces
                &&& x == raw.leaf_faces[raw.leaves[i].first_leaf_face + j].index
            } by {
        assert(cluster_face_ids(raw, c).contains(x) <==> fv.contains(x));
        if fv.contains(x) {
            let (i, j) = choose|i: int, j: int|
                #![trigger leaf_run(raw.leaves[i], true), fids[leaf_run(raw.leaves[i], true).0 + j]]
                {
                    &&& 0 <= i < n
                    &&& raw.leaves[i].visdata_cluster == c
                    &&& 0 <= j < leaf_run(raw.leaves[i], true).1
                    &&& x == fids[leaf_run(raw.leaves[i], true).0 + j]
                };
            assert(leaf_runs_ok(raw, i));
            assert(x == raw.leaf_faces[raw.leaves[i].first_leaf_face + j].index);
        }
        if exists|i: int, j: int|
            #![trigger raw.leaf_faces[raw.leaves[i].first_leaf_face + j]]
            {
                &&& 0 <= i < raw.leaves.len()
                &&& raw.leaves[i].visdata_cluster == c
                &&& 0 <= j < raw.leaves[i].num_leaf_faces
                &&& x == raw.leaf_faces[raw.leaves[i].first_leaf_face + j].index
            } {
            let (i, j) = choose|i: int, j: int|
                #![trigger raw.leaf_faces[raw.leaves[i].first_leaf_face + j]]
                {
                    &&& 0 <= i < raw.leaves.len()
                    &&& raw.leaves[i].visdata_cluster == c
                    &&& 0 <= j < raw.leaves[i].num_leaf_faces
                    &&& x == raw.leaf_faces[raw.leaves[i].first_leaf_face + j].index
                };
            assert(leaf_runs_ok(raw, i));
            assert(x == fids[leaf_run(raw.leaves[i], true).0 + j]);
            assert(leaf_run(raw.leaves[i], true).1 == raw.leaves[i].num_leaf_faces);
        }
    }
    assert forall|x: int|
        cluster_brush_ids(raw, c).contains(x) <==> exists|i: int, j: int|
            #![trigger raw.leaf_brushes[raw.leaves[i].first_leaf_brush + j]]
            {
                &&& 0 <= i < raw.leaves.len()
                &&& raw.leaves[i].visdata_cluster == c
                &&& 0 <= j < raw.leaves[i].num_leaf_brushes
                &&& x == raw.leaf_brushes[raw.leaves[i].first_leaf_brush + j].index
            } by {
        assert(cluster_brush_ids(raw, c).contains(x) <==> bv.contains(x));
        if bv.contains(x) {
            let (i, j) = choose|i: int, j: int|
                #![trigger leaf_run(raw.leaves[i], false), bids[leaf_run(raw.leaves[i], false).0 + j]]
                {
                    &&& 0 <= i < n
                    &&& raw.leaves[i].visdata_cluster == c
                    &&& 0 <= j < leaf_run(raw.leaves[i], false).1
                    &&& x == bids[leaf_run(raw.leaves[i], false).0 + j]
                };
            assert(leaf_runs_ok(raw, i));
            assert(x == raw.leaf_brushes[raw.leaves[i].first_leaf_brush + j].index);
        }
        if exists|i: int, j: int|
            #![trigger raw.leaf_brushes[raw.leaves[i].first_leaf_brush + j]]
            {
                &&& 0 <= i < raw.leaves.len()
                &&& raw.leaves[i].visdata_cluster == c
                &&& 0 <= j < raw.leaves[i].num_leaf_brushes
                &&& x == raw.leaf_brushes[raw.leaves[i].first_leaf_brush + j].index
            } {
            let (i, j) = choose|i: int, j: int|
                #![trigger raw.leaf_brushes[raw.leaves[i].first_leaf_brush + j]]
                {
                    &&& 0 <= i < raw.leaves.len()
                    &&& raw.leaves[i].visdata_cluster == c
                    &&& 0 <= j < raw.leaves[i].num_leaf_brushes
                    &&& x == raw.leaf_brushes[raw.leaves[i].first_leaf_brush + j].index
                };
            assert(leaf_runs_ok(raw, i));
            assert(x == bids[leaf_run(raw.leaves[i], false).0 + j]);
            assert(leaf_run(raw.leaves[i], false).1 == raw.leaves[i].num_leaf_brushes);
        }
    }
}

/// The `k`-th built leaf is the leaf of the `k`-th kept cluster `c`: its
/// visible set lists the set bits of the `c`-th visibility vector (the
/// vector size times `c` bytes in), and its faces and brushes are the faces
/// and brushes of the cluster's sorted distinct face and brush indices,
/// paired off, as many as the shorter list holds.
pub proof fn lemma_leaves_follow_clusters(raw: RawBspView)
    ensures
        leaves_view(raw).len() == out_clusters(raw).len(),
        forall|k: int|
            0 <= k < leaves_view(raw).len() ==> {
                let c = out_clusters(raw)[k];
                let l = #[trigger] leaves_view(raw)[k];
                let f = cluster_face_ids(raw, c);
                let b = cluster_brush_ids(raw, c);
                let v = raw.visibility_data[0];
                &&& l.cluster == c as isize
                &&& (0 <= c <= i32::MAX && 0 <= v.sizeof_vector) ==> l.visdata == set_bits(
                    v.raw_bytes.subrange(c * v.sizeof_vector, c * v.sizeof_vector + v.sizeof_vector),
                )
                &&& l.faces.len() == min(f.len() as int, b.len() as int)
                &&& l.brushes.len() == l.faces.len()
                &&& forall|j: int|
                    0 <= j < l.faces.len() ==> #[trigger] l.faces[j] == face_view(raw.faces[f[j]], raw.mesh_vertices)
                        && l.brushes[j] == brush_view(raw.brushes[b[j]], raw.brush_sides, raw.planes, raw.textures)
            },
{
    assert forall|k: int| 0 <= k < leaves_view(raw).len() implies {
        let c = #[trigger] out_clusters(raw)[k];
        let v = raw.visibility_data[0];
        (0 <= c <= i32::MAX && 0 <= v.sizeof_vector) ==> vis_start(v, c) == c * v.sizeof_vector
            && (v.sizeof_vector as usize) as int == v.sizeof_vector
    } by {
        let c = out_clusters(raw)[k];
        let v = raw.visibility_data[0];
        if 0 <= c <= i32::MAX && 0 <= v.sizeof_vector {
            assert(((c as isize) as usize) as int == c);
            assert((v.sizeof_vector as usize) as int == v.sizeof_vector);
        }
    }
}

/// Builds one leaf per cluster, when [`leaves_ok`] holds.
pub fn build_leaves(raw: &RawBsp) -> (r: Option<Vec<Leaf>>)
    ensures
        r is Some <==> leaves_ok(raw@),
        r matches Some(v) ==> views(v@) == leaves_view(raw@),
{
    proof {
        lemma_raw_lumps(raw);
    }
    if raw.leaves.len() == 0 {
        return None;
    }
    let fids = leaf_face_ids(raw);
    let bids = leaf_brush_ids(raw);
    let mut cl: Vec<i32> = Vec::new();
    let mut i: usize = 0;
    while i < raw.leaves.len()
        invariant
            i <= raw.leaves@.len(),
            raw@.leaves == raw.leaves@,
            ints(cl@) == Seq::new(i as nat, |j: int| raw@.leaves[j].visdata_cluster as int),
        decreases raw.leaves@.len() - i,
    {
        let ghost before = cl@;
        cl.push(raw.leaves[i].visdata_cluster);
        proof {
            assert(cl@ =~= before.push(raw.leaves@[i as int].visdata_cluster));
            assert(ints(cl@) =~= ints(before).push(raw.leaves@[i as int].visdata_cluster as int));
            assert(ints(cl@) =~= Seq::new((i + 1) as nat, |j: int| raw@.leaves[j].visdata_cluster as int));
        }
        i = i + 1;
    }
    let cs = sorted_distinct_of(&cl);
    let ghost all = Seq::new(raw@.leaves.len(), |j: int| raw@.leaves[j].visdata_cluster as int);
    assert(ints(cl@) =~= all);
    let ghost csv = clusters(raw@);
    assert(ints(cs@) == csv);
    proof {
        assert(all.contains(all[0]));
        assert(ints(cs@).contains(all[0]));
    }
    let start: usize = if cs[0] < 0 { 1 } else { 0 };
    let n = cs.len() - start;
    let ghost outc = out_clusters(raw@);
    assert(outc =~= csv.skip(start as int));
    if start == 1 {
        match build_cluster_leaf(raw, &fids, &bids, cs[0], Vec::new()) {
            None => {
                assert(!cluster_leaf_ok(raw@, csv[0]));
                proof {
                    if cluster_ok(raw@, csv[0]) {
                        let t = if !cluster_runs_ok(raw@.leaves, raw@.leaf_faces.len() as int, csv[0], true, raw@.leaves.len() as int) { true } else { false };
                        let i = choose|i: int| 0 <= i < raw@.leaves.len() && (#[trigger] raw@.leaves[i]).visdata_cluster == csv[0] && !range_ok(leaf_run(raw@.leaves[i], t).0, leaf_run(raw@.leaves[i], t).1, if t { raw@.leaf_faces.len() as int } else { raw@.leaf_brushes.len() as int });
                        assert(!leaf_runs_ok(raw@, i));
                    }
                }
                return None;
            },
            Some(_) => {},
        }
    }
    let mut out: Vec<Leaf> = Vec::new();
    let mut k: usize = start;
    while k < cs.len()
        invariant
            start <= k <= cs@.len(),
            start <= 1,
            n == cs@.len() - start,
            ints(cs@) == csv,
            csv == clusters(raw@),
            outc == out_clusters(raw@),
            outc == csv.skip(start as int),
            ints(fids@) == face_ids(raw@),
            fids@.len() == raw@.leaf_faces.len(),
            ints(bids@) == brush_ids(raw@),
            bids@.len() == raw@.leaf_brushes.len(),
            start == 1 ==> cluster_leaf_ok(raw@, csv[0]),
            views(out@) == Seq::new((k - start) as nat, |j: int| leaf_view(raw@, outc[j], set_bits(vis_bytes(raw@.visibility_data[0], outc[j])))),
            forall|j: int| 0 <= j < k - start ==> cluster_leaf_ok(raw@, #[trigger] outc[j]) && visdata_ok(raw@, outc[j], n as int),
        decreases cs@.len() - k,
    {
        let c = cs[k];
        assert(outc[k - start] == c as int);
        let vis = match visdata_for(raw, c, n) {
            None => return None,
            Some(v) => v,
        };
        let leaf = match build_cluster_leaf(raw, &fids, &bids, c, vis) {
            None => {
                proof {
                    assert(!cluster_leaf_ok(raw@, c as int));
                    assert(csv[k as int] == c as int);
                    if cluster_ok(raw@, c as int) {
                        let t = if !cluster_runs_ok(raw@.leaves, raw@.leaf_faces.len() as int, c as int, true, raw@.leaves.len() as int) { true } else { false };
                        let i = choose|i: int| 0 <= i < raw@.leaves.len() && (#[trigger] raw@.leaves[i]).visdata_cluster == c as int && !range_ok(leaf_run(raw@.leaves[i], t).0, leaf_run(raw@.leaves[i], t).1, if t { raw@.leaf_faces.len() as int } else { raw@.leaf_brushes.len() as int });
                        assert(!leaf_runs_ok(raw@, i));
                    }
                }
                return None;
            },
            Some(l) => l,
        };
        proof {
            lemma_views_push(out@, leaf);
            assert(views(out@.push(leaf)) =~= Seq::new((k + 1 - start) as nat, |j: int| leaf_view(raw@, outc[j], set_bits(vis_bytes(raw@.visibility_data[0], outc[j])))));
        }
        out.push(leaf);
        k = k + 1;
    }
    proof {
        assert(views(out@) =~= leaves_view(raw@));
        assert forall|i: int| 0 <= i < raw@.leaves.len() implies leaf_runs_ok(raw@, i) by {
            let c = raw@.leaves[i].visdata_cluster as int;
            assert(all[i] == c);
            assert(all.contains(c));
            assert(csv.contains(c));
            let kk = choose|kk: int| 0 <= kk < csv.len() && csv[kk] == c;
            if kk < start {
                assert(cluster_leaf_ok(raw@, csv[0]));
            } else {
                assert(outc[kk - start] == c);
                assert(cluster_leaf_ok(raw@, outc[kk - start]));
            }
            assert(cluster_runs_ok(raw@.leaves, raw@.leaf_faces.len() as int, c, true, raw@.leaves.len() as int));
            assert(cluster_runs_ok(raw@.leaves, raw@.leaf_brushes.len() as int, c, false, raw@.leaves.len() as int));
        }
        assert forall|kk: int| 0 <= kk < csv.len() implies cluster_ok(raw@, #[trigger] csv[kk]) by {
            if kk < start {
            } else {
                assert(outc[kk - start] == csv[kk]);
                assert(cluster_leaf_ok(raw@, outc[kk - start]));
            }
        }
        assert forall|j: int| 0 <= j < outc.len() implies visdata_ok(raw@, #[trigger] outc[j], outc.len() as int) by {
            assert(cluster_leaf_ok(raw@, outc[j]) && visdata_ok(raw@, outc[j], n as int));
        }
        assert(raw@.leaves.len() > 0);
        assert(leaves_ok(raw@));
    }
    Some(out)
}

// ---------------------------------------------------------------------------
// Nodes.

/// A child link can be followed: a node index names a node, a leaf link
/// (`-(leaf + 1)`) names a leaf, and that leaf's cluster, when not negative,
/// names one of the `num_leaves` built leaves.
pub open spec fn child_ok(i: i32, raw_leaves: Seq<RawLeaf>, num_leaves: int, num_nodes: int) -> bool {
    if i < 0 {
        &&& i != i32::MIN
        &&& -i - 1 < raw_leaves.len()
        &&& raw_leaves[-i - 1].visdata_cluster >= 0 ==> raw_leaves[-i - 1].visdata_cluster < num_leaves
    } else {
        i < num_nodes
    }
}

/// Where a child link leads: a node, the leaf of its leaf's cluster, or
/// nothing when that cluster is negative.
pub open spec fn child_view(i: i32, raw_leaves: Seq<RawLeaf>) -> BspTreeNode {
    if i < 0 {
        let cluster = raw_leaves[-i - 1].visdata_cluster;
        if cluster >= 0 {
            BspTreeNode::Leaf(cluster as usize)
        } else {
            BspTreeNode::Empty
        }
    } else {
        BspTreeNode::NonTerminal(i as usize)
    }
}

/// Follows a child link.
pub fn get_bsp_tree_node(i: i32, raw_leaves: &[RawLeaf], num_leaves: usize, num_nodes: usize) -> (r: Option<BspTreeNode>)
    ensures
        r is Some <==> child_ok(i, raw_leaves@, num_leaves as int, num_nodes as int),
        r matches Some(n) ==> n == child_view(i, raw_leaves@),
{
    if i < 0 {
        if i == i32::MIN {
            return None;
        }
        let leaf_index = (-i - 1) as usize;
        if leaf_index >= raw_leaves.len() {
            return None;
        }
        let visdata_cluster = raw_leaves[leaf_index].visdata_cluster;
        if visdata_cluster >= 0 {
            if visdata_cluster as usize >= num_leaves {
                return None;
            }
            Some(BspTreeNode::Leaf(visdata_cluster as usize))
        } else {
            Some(BspTreeNode::Empty)
        }
    } else {
        if i as usize >= num_nodes {
            return None;
        }
        Some(BspTreeNode::NonTerminal(i as usize))
    }
}

/// A node can be built: its plane exists and both its children can be followed.
pub open spec fn node_ok(n: RawNode, num_planes: int, raw_leaves: Seq<RawLeaf>, num_leaves: int, num_nodes: int) -> bool {
    &&& 0 <= n.plane < num_planes
    &&& child_ok(n.children.0, raw_leaves, num_leaves, num_nodes)
    &&& child_ok(n.children.1, raw_leaves, num_leaves, num_nodes)
}

/// What a node becomes: its plane, its bounds, its front and back children.
pub open spec fn node_view(n: RawNode, planes: Seq<Plane>, raw_leaves: Seq<RawLeaf>) -> NonTerminal {
    NonTerminal {
        plane: planes[n.plane as int],
        bounds: (n.min, n.max),
        front: child_view(n.children.0, raw_leaves),
        back: child_view(n.children.1, raw_leaves),
    }
}

/// A built node keeps the plane its record names and the record's corners;
/// its front child comes from the record's first child link and its back
/// child from the second.  A link `c >= 0` is node `c`; a link `c < 0` is
/// raw leaf `-c - 1`, which becomes the leaf of its cluster when that
/// cluster is not negative and nothing otherwise.
pub proof fn lemma_node_view_follows_record(n: RawNode, planes: Seq<Plane>, raw_leaves: Seq<RawLeaf>)
    ensures
        node_view(n, planes, raw_leaves).plane == planes[n.plane as int],
        node_view(n, planes, raw_leaves).bounds == (n.min, n.max),
        node_view(n, planes, raw_leaves).front == child_view(n.children.0, raw_leaves),
        node_view(n, planes, raw_leaves).back == child_view(n.children.1, raw_leaves),
        forall|c: i32|
            #![trigger child_view(c, raw_leaves)]
            {
                &&& c >= 0 ==> child_view(c, raw_leaves) == BspTreeNode::NonTerminal(c as usize)
                &&& (c < 0 && raw_leaves[-c - 1].visdata_cluster >= 0) ==> child_view(c, raw_leaves)
                    == BspTreeNode::Leaf(raw_leaves[-c - 1].visdata_cluster as usize)
                &&& (c < 0 && raw_leaves[-c - 1].visdata_cluster < 0) ==> child_view(c, raw_leaves)
                    == BspTreeNode::Empty
            },
{
}

/// Builds every node, when each satisfies [`node_ok`] with `num_leaves` leaves.
pub fn build_nodes(raw: &RawBsp, num_leaves: usize) -> (r: Option<Vec<NonTerminal>>)
    ensures
        r is Some <==> forall|k: int| 0 <= k < raw@.nodes.len() ==> #[trigger] node_ok(raw@.nodes[k], raw@.planes.len() as int, raw@.leaves, num_leaves as int, raw@.nodes.len() as int),
        r matches Some(v) ==> v@ == Seq::new(raw@.nodes.len(), |k: int| node_view(raw@.nodes[k], raw@.planes, raw@.leaves)),
{
    proof {
        lemma_raw_lumps(raw);
    }
    let num_nodes = raw.nodes.len();
    let mut out: Vec<NonTerminal> = Vec::new();
    let mut k: usize = 0;
    while k < num_nodes
        invariant
            k <= num_nodes,
            num_nodes == raw@.nodes.len(),
            raw@.nodes == raw.nodes@,
            raw@.planes == raw.planes@,
            raw@.leaves == raw.leaves@,
            out@ == Seq::new(k as nat, |j: int| node_view(raw@.nodes[j], raw@.planes, raw@.leaves)),
            forall|j: int| 0 <= j < k ==> #[trigger] node_ok(raw@.nodes[j], raw@.planes.len() as int, raw@.leaves, num_leaves as int, raw@.nodes.len() as int),
        decreases num_nodes - k,
    {
        let n = &raw.nodes[k];
        if n.plane < 0 || n.plane as usize >= raw.planes.len() {
            assert(!node_ok(raw@.nodes[k as int], raw@.planes.len() as int, raw@.leaves, num_leaves as int, raw@.nodes.len() as int));
            return None;
        }
        let front = match get_bsp_tree_node(n.children.0, raw.leaves.as_slice(), num_leaves, num_nodes) {
            None => {
                assert(!node_ok(raw@.nodes[k as int], raw@.planes.len() as int, raw@.leaves, num_leaves as int, raw@.nodes.len() as int));
                return None;
            },
            Some(c) => c,
        };
        let back = match get_bsp_tree_node(n.children.1, raw.leaves.as_slice(), num_leaves, num_nodes) {
            None => {
                assert(!node_ok(raw@.nodes[k as int], raw@.planes.len() as int, raw@.leaves, num_leaves as int, raw@.nodes.len() as int));
                return None;
            },
            Some(c) => c,
        };
        let node = NonTerminal { plane: raw.planes[n.plane as usize], bounds: (n.min, n.max), front, back };
        assert(node == node_view(raw@.nodes[k as int], raw@.planes, raw@.leaves));
        out.push(node);
        k = k + 1;
        assert(out@ =~= Seq::new(k as nat, |j: int| node_view(raw@.nodes[j], raw@.planes, raw@.leaves)));
    }
    Some(out)
}

// ---------------------------------------------------------------------------
// The whole level.

/// A child link that leads to one of the `n` nodes.
pub open spec fn node_link(i: i32, n: int) -> bool {
    0 <= i < n
}

/// Some walk of exactly `m` node-to-node links leads from node `k` to the
/// root (the first node).
pub open spec fn walks_to_root(nodes: Seq<RawNode>, k: int, m: nat) -> bool
    decreases m,
{
    if m == 0 {
        k == 0
    } else {
        let c = nodes[k].children;
        ||| node_link(c.0, nodes.len() as int) && walks_to_root(nodes, c.0 as int, (m - 1) as nat)
        ||| node_link(c.1, nodes.len() as int) && walks_to_root(nodes, c.1 as int, (m - 1) as nat)
    }
}

/// The root stays linked to once the other nodes are let go: some node
/// that stays alive links to it.  The nodes that stay alive are those
/// reachable from the root and those reachable from a cycle of links, so
/// the root stays linked to exactly when it lies on a cycle or a node on a
/// cycle reaches it; that is exactly when some walk of as many links as
/// there are nodes ends at the root (such a walk passes some node twice,
/// and a cycle that reaches the root gives walks of every length).
pub open spec fn root_held(nodes: Seq<RawNode>) -> bool {
    exists|k: int| 0 <= k < nodes.len() && #[trigger] walks_to_root(nodes, k, nodes.len())
}

/// Node `a` links to node `b`: one of its children is node `b`.
pub open spec fn links_to(nodes: Seq<RawNode>, a: int, b: int) -> bool {
    &&& 0 <= b < nodes.len()
    &&& (nodes[a].children.0 == b || nodes[a].children.1 == b)
}

/// `w` is a walk along node links: a nonempty list of nodes, each linking
/// to the next.
pub open spec fn is_walk(nodes: Seq<RawNode>, w: Seq<int>) -> bool {
    &&& w.len() >= 1
    &&& forall|i: int| 0 <= i < w.len() ==> 0 <= #[trigger] w[i] < nodes.len()
    &&& forall|i: int| 0 <= i < w.len() - 1 ==> links_to(nodes, #[trigger] w[i], w[i + 1])
}

/// Some node lies on a cycle of links and has a walk to the root.
pub open spec fn cycle_reaches_root(nodes: Seq<RawNode>) -> bool {
    exists|cyc: Seq<int>, path: Seq<int>|
        #![trigger is_walk(nodes, cyc), is_walk(nodes, path)]
        {
            &&& is_walk(nodes, cyc)
            &&& cyc.len() >= 2
            &&& cyc[0] == cyc.last()
            &&& is_walk(nodes, path)
            &&& path[0] == cyc[0]
            &&& path.last() == 0
        }
}

/// A walk of `m` links from `k` to the root, as a list of nodes.
proof fn walk_from(nodes: Seq<RawNode>, k: int, m: nat) -> (w: Seq<int>)
    requires
        0 <= k < nodes.len(),
        walks_to_root(nodes, k, m),
    ensures
        is_walk(nodes, w),
        w.len() == m + 1,
        w[0] == k,
        w.last() == 0,
    decreases m,
{
    if m == 0 {
        seq![k]
    } else {
        let c = nodes[k].children;
        let next = if node_link(c.0, nodes.len() as int) && walks_to_root(nodes, c.0 as int, (m - 1) as nat) {
            c.0 as int
        } else {
            c.1 as int
        };
        let rest = walk_from(nodes, next, (m - 1) as nat);
        let w = seq![k] + rest;
        assert forall|i: int| 0 <= i < w.len() implies 0 <= #[trigger] w[i] < nodes.len() by {
            if i > 0 {
                assert(w[i] == rest[i - 1]);
            }
        }
        assert forall|i: int| 0 <= i < w.len() - 1 implies links_to(nodes, #[trigger] w[i], w[i + 1]) by {
            if i > 0 {
                assert(w[i] == rest[i - 1]);
                assert(w[i + 1] == rest[i]);
            }
        }
        w
    }
}

/// A walk from `w[0]` to `w.last()` lengthens every walk from `w.last()` to
/// the root.
proof fn lemma_walk_prefix(nodes: Seq<RawNode>, w: Seq<int>, m: nat)
    requires
        is_walk(nodes, w),
        walks_to_root(nodes, w.last(), m),
    ensures
        walks_to_root(nodes, w[0], (m + w.len() - 1) as nat),
    decreases w.len(),
{
    if w.len() > 1 {
        let rest = w.drop_first();
        assert forall|i: int| 0 <= i < rest.len() implies 0 <= #[trigger] rest[i] < nodes.len() by {
            assert(rest[i] == w[i + 1]);
        }
        assert forall|i: int| 0 <= i < rest.len() - 1 implies links_to(nodes, #[trigger] rest[i], rest[i + 1]) by {
            assert(rest[i] == w[i + 1]);
            assert(links_to(nodes, w[i + 1], w[i + 2]));
        }
        lemma_walk_prefix(nodes, rest, m);
        assert(links_to(nodes, w[0], w[1]));
        assert(0 <= w[0] < nodes.len());
    }
}

/// Going round a cycle `t` times lengthens every walk to the root.
#[verifier::spinoff_prover]
proof fn lemma_walk_repeat(nodes: Seq<RawNode>, cyc: Seq<int>, m: nat, t: nat)
    requires
        is_walk(nodes, cyc),
        cyc.len() >= 2,
        cyc[0] == cyc.last(),
        walks_to_root(nodes, cyc[0], m),
    ensures
        walks_to_root(nodes, cyc[0], (m + t * (cyc.len() - 1)) as nat),
    decreases t,
{
    let l = cyc.len() - 1;
    if t > 0 {
        lemma_walk_repeat(nodes, cyc, m, (t - 1) as nat);
        assert((t - 1) * l + l == t * l) by (nonlinear_arith);
        assert((t - 1) * l >= 0) by (nonlinear_arith)
            requires t >= 1, l >= 1;
        let m1 = (m + (t - 1) * l) as nat;
        lemma_walk_prefix(nodes, cyc, m1);
        assert(m1 + cyc.len() - 1 == m + t * l);
    } else {
        assert(t * l == 0);
    }
}

/// A walk to the root has walks to the root of every shorter length.
proof fn lemma_walk_suffix(nodes: Seq<RawNode>, k: int, m: nat, r: nat)
    requires
        0 <= k < nodes.len(),
        walks_to_root(nodes, k, m),
        r <= m,
    ensures
        exists|j: int| 0 <= j < nodes.len() && #[trigger] walks_to_root(nodes, j, r),
    decreases m - r,
{
    if m == r {
        assert(walks_to_root(nodes, k, r));
    } else {
        let c = nodes[k].children;
        if node_link(c.0, nodes.len() as int) && walks_to_root(nodes, c.0 as int, (m - 1) as nat) {
            lemma_walk_suffix(nodes, c.0 as int, (m - 1) as nat, r);
        } else {
            lemma_walk_suffix(nodes, c.1 as int, (m - 1) as nat, r);
        }
    }
}

/// The root stays linked to exactly when some node on a cycle of links has
/// a walk to the root.
pub proof fn lemma_root_held_iff_cycle_reaches_root(nodes: Seq<RawNode>)
    ensures
        root_held(nodes) <==> cycle_reaches_root(nodes),
{
    let n = nodes.len();
    if root_held(nodes) {
        let k = choose|k: int| 0 <= k < n && #[trigger] walks_to_root(nodes, k, n);
        let w = walk_from(nodes, k, n);
        assert(!w.no_duplicates()) by {
            if w.no_duplicates() {
                w.unique_seq_to_set();
                lemma_int_range(0, n as int);
                assert(w.to_set().subset_of(set_int_range(0, n as int))) by {
                    assert forall|x: int| w.to_set().contains(x) implies set_int_range(0, n as int).contains(x) by {
                        let i = choose|i: int| 0 <= i < w.len() && w[i] == x;
                        assert(0 <= w[i] < n);
                    }
                }
                lemma_len_subset(w.to_set(), set_int_range(0, n as int));
            }
        }
        let (a, b) = choose|a: int, b: int| 0 <= a < w.len() && 0 <= b < w.len() && a != b && w[a] == w[b];
        let i = if a < b { a } else { b };
        let j = if a < b { b } else { a };
        let cyc = w.subrange(i, j + 1);
        let path = w.subrange(i, w.len() as int);
        assert forall|x: int| 0 <= x < cyc.len() implies 0 <= #[trigger] cyc[x] < n by {
            assert(cyc[x] == w[i + x]);
        }
        assert forall|x: int| 0 <= x < cyc.len() - 1 implies links_to(nodes, #[trigger] cyc[x], cyc[x + 1]) by {
            assert(cyc[x] == w[i + x]);
            assert(cyc[x + 1] == w[i + x + 1]);
        }
        assert forall|x: int| 0 <= x < path.len() implies 0 <= #[trigger] path[x] < n by {
            assert(path[x] == w[i + x]);
        }
        assert forall|x: int| 0 <= x < path.len() - 1 implies links_to(nodes, #[trigger] path[x], path[x + 1]) by {
            assert(path[x] == w[i + x]);
            assert(path[x + 1] == w[i + x + 1]);
        }
        assert(is_walk(nodes, cyc) && is_walk(nodes, path));
        assert(cyc.last() == w[j]);
        assert(path.last() == w.last());
    }
    if cycle_reaches_root(nodes) {
        let (cyc, path) = choose|cyc: Seq<int>, path: Seq<int>|
            #![trigger is_walk(nodes, cyc), is_walk(nodes, path)]
            {
                &&& is_walk(nodes, cyc)
                &&& cyc.len() >= 2
                &&& cyc[0] == cyc.last()
                &&& is_walk(nodes, path)
                &&& path[0] == cyc[0]
                &&& path.last() == 0
            };
        let d = (path.len() - 1) as nat;
        let l = cyc.len() - 1;
        assert(walks_to_root(nodes, path.last(), 0));
        lemma_walk_prefix(nodes, path, 0);
        lemma_walk_repeat(nodes, cyc, d, n);
        assert(n * l >= n) by (nonlinear_arith)
            requires l >= 1, n >= 0;
        assert(0 <= cyc[0] < n);
        lemma_walk_suffix(nodes, cyc[0], (d + n * l) as nat, n);
    }
}

/// Whether the root stays linked to once the other nodes are let go.
pub fn root_is_held(nodes: &Vec<RawNode>) -> (r: bool)
    ensures
        r == root_held(nodes@),
{
    let n = nodes.len();
    let mut cur: Vec<bool> = Vec::new();
    let mut k: usize = 0;
    while k < n
        invariant
            n == nodes@.len(),
            k <= n,
            cur@.len() == k,
            forall|j: int| 0 <= j < k ==> #[trigger] cur@[j] == walks_to_root(nodes@, j, 0),
        decreases n - k,
    {
        cur.push(k == 0);
        k = k + 1;
    }
    let mut m: usize = 0;
    while m < n
        invariant
            n == nodes@.len(),
            m <= n,
            cur@.len() == n,
            forall|j: int| 0 <= j < n ==> #[trigger] cur@[j] == walks_to_root(nodes@, j, m as nat),
        decreases n - m,
    {
        let mut next: Vec<bool> = Vec::new();
        let mut j: usize = 0;
        while j < n
            invariant
                n == nodes@.len(),
                m < n,
                j <= n,
                cur@.len() == n,
                forall|i: int| 0 <= i < n ==> #[trigger] cur@[i] == walks_to_root(nodes@, i, m as nat),
                next@.len() == j,
                forall|i: int| 0 <= i < j ==> #[trigger] next@[i] == walks_to_root(nodes@, i, (m + 1) as nat),
            decreases n - j,
        {
            let c = nodes[j].children;
            let a = 0 <= c.0 && (c.0 as usize) < n && cur[c.0 as usize];
            let b = 0 <= c.1 && (c.1 as usize) < n && cur[c.1 as usize];
            proof {
                assert(walks_to_root(nodes@, j as int, (m + 1) as nat) == (
                    (node_link(c.0, n as int) && walks_to_root(nodes@, c.0 as int, m as nat))
                    || (node_link(c.1, n as int) && walks_to_root(nodes@, c.1 as int, m as nat))));
            }
            next.push(a || b);
            j = j + 1;
        }
        cur = next;
        m = m + 1;
    }
    let mut i: usize = 0;
    while i < n
        invariant
            n == nodes@.len(),
            i <= n,
            cur@.len() == n,
            forall|j: int| 0 <= j < n ==> #[trigger] cur@[j] == walks_to_root(nodes@, j, n as nat),
            forall|j: int| 0 <= j < i ==> !walks_to_root(nodes@, j, n as nat),
        decreases n - i,
    {
        if cur[i] {
            assert(walks_to_root(nodes@, i as int, nodes@.len()));
            return true;
        }
        i = i + 1;
    }
    false
}

/// A file can be turned into a level: its leaves can be built, there is at
/// least one node and every node can be built, the root is not held by a
/// node that stays alive (see [`root_held`]), and there is a first model
/// that can be built.
pub open spec fn bsp_ok(raw: RawBspView) -> bool {
    &&& leaves_ok(raw)
    &&& raw.nodes.len() > 0
    &&& forall|k: int| 0 <= k < raw.nodes.len() ==> #[trigger] node_ok(raw.nodes[k], raw.planes.len() as int, raw.leaves, out_clusters(raw).len() as int, raw.nodes.len() as int)
    &&& !root_held(raw.nodes)
    &&& raw.models.len() > 0
    &&& model_ok(raw.models[0], raw.faces, raw.mesh_vertices, raw.vertices.len() as int, raw.textures.len() as int, raw.light_maps.len() as int)
}

/// The level a file becomes: its vertices, its first model as the world, its
/// nodes (the first is the root) and its leaves.
pub open spec fn bsp_view(raw: RawBspView) -> BspView {
    BspView {
        vertices: raw.vertices,
        world: model_view(raw.models[0], raw.faces, raw.mesh_vertices),
        nodes: Seq::new(raw.nodes.len(), |k: int| node_view(raw.nodes[k], raw.planes, raw.leaves)),
        leaves: leaves_view(raw),
    }
}

/// Turns the records of a file into its entities and its level, or nothing
/// when [`bsp_ok`] fails.
pub fn try_build_bsp(raw: RawBsp) -> (r: Option<(Vec<Entity>, Bsp)>)
    ensures
        r is Some <==> bsp_ok(raw@),
        r matches Some((e, b)) ==> views(e@) == raw@.entities && b@ == bsp_view(raw@),
{
    proof {
        lemma_raw_lumps(&raw);
    }
    let leaves = match build_leaves(&raw) {
        None => return None,
        Some(l) => l,
    };
    let num_leaves = leaves.len();
    proof {
        assert(views(leaves@).len() == leaves_view(raw@).len());
        assert(num_leaves as int == out_clusters(raw@).len());
    }
    let nodes = match build_nodes(&raw, num_leaves) {
        None => return None,
        Some(n) => n,
    };
    if nodes.len() == 0 {
        return None;
    }
    if root_is_held(&raw.nodes) {
        return None;
    }
    if raw.models.len() == 0 {
        return None;
    }
    let world = match build_model(&raw.models[0], raw.faces.as_slice(), raw.mesh_vertices.as_slice(), raw.vertices.len(), raw.textures.len(), raw.light_maps.len()) {
        None => return None,
        Some(m) => m,
    };
    let RawBsp { entities, vertices, .. } = raw;
    let b = Bsp::new(nodes, leaves, world, vertices);
    assert(b@.nodes =~= bsp_view(raw@).nodes);
    Some((entities, b))
}

/// Turns the records of a file into its entities and its level.
pub fn build_bsp(raw: RawBsp) -> (r: (Vec<Entity>, Bsp))
    requires
        bsp_ok(raw@),
    ensures
        views(r.0@) == raw@.entities,
        r.1@ == bsp_view(raw@),
{
    try_build_bsp(raw).unwrap()
}

/// A child link leads to a node or leaf that exists, or to nothing.
pub open spec fn link_ok(n: BspTreeNode, num_nodes: int, num_leaves: int) -> bool {
    match n {
        BspTreeNode::NonTerminal(i) => i < num_nodes,
        BspTreeNode::Leaf(l) => l < num_leaves,
        BspTreeNode::Empty => true,
    }
}

/// Every link of a level can be followed: each child of a node is an
/// existing node, an existing leaf or nothing, and every
/// leaf's visible set names existing leaves.
pub open spec fn level_linked(b: BspView) -> bool {
    &&& forall|k: int|
        0 <= k < b.nodes.len() ==> link_ok((#[trigger] b.nodes[k]).front, b.nodes.len() as int, b.leaves.len() as int)
            && link_ok(b.nodes[k].back, b.nodes.len() as int, b.leaves.len() as int)
    &&& forall|l: int, j: int|
        0 <= l < b.leaves.len() && 0 <= j < b.leaves[l].visdata.len() ==> #[trigger] b.leaves[l].visdata[j]
            < b.leaves.len()
}

/// A level built from a file is linked: walking from the root by node
/// links, and from a leaf by its visible set, never leaves the level.
pub proof fn lemma_built_level_linked(raw: RawBspView)
    requires
        bsp_ok(raw),
    ensures
        level_linked(bsp_view(raw)),
{
    let b = bsp_view(raw);
    let out = out_clusters(raw);
    assert(b.leaves.len() == out.len());
    assert forall|k: int| 0 <= k < b.nodes.len() implies link_ok(
        (#[trigger] b.nodes[k]).front,
        b.nodes.len() as int,
        b.leaves.len() as int,
    ) && link_ok(b.nodes[k].back, b.nodes.len() as int, b.leaves.len() as int) by {
        assert(node_ok(raw.nodes[k], raw.planes.len() as int, raw.leaves, out.len() as int, raw.nodes.len() as int));
    }
    assert forall|l: int, j: int|
        0 <= l < b.leaves.len() && 0 <= j < b.leaves[l].visdata.len() implies #[trigger] b.leaves[l].visdata[j]
            < b.leaves.len() by {
        assert(visdata_ok(raw, out[l], out.len() as int));
        assert(b.leaves[l].visdata == set_bits(vis_bytes(raw.visibility_data[0], out[l])));
    }
}

/// In a linked level, a step of the walk from an existing node goes on to an
/// existing node, ends in an existing leaf, or leaves
/// the map.
pub proof fn lemma_descent_stays_in_level(b: BspView, node: int, outside: bool, behind: bool)
    requires
        level_linked(b),
        0 <= node < b.nodes.len(),
    ensures
        match descent(b.nodes[node], outside, behind) {
            Descent::Node(i) => i < b.nodes.len(),
            Descent::Leaf(l) => l < b.leaves.len(),
            Descent::Outside => true,
        },
{
    assert(link_ok(b.nodes[node].front, b.nodes.len() as int, b.leaves.len() as int));
}

// ---------------------------------------------------------------------------
// Patch tessellation.

/// The triangle indices of a patch tessellated at `level`. The grid has
/// `v = level + 1` vertices per side and rows start at each multiple of `v`
/// below `level - 1`; as `v` exceeds `level - 1`, only the first row exists,
/// and only when `level >= 2`. Column `c` of that row gives the triangle
/// `(c + 2v, c + v, c)`, each index cut to 16 bits.
pub open spec fn tessellation_index(level: int, k: int) -> u16 {
    let v = level + 1;
    let c = k / 3;
    let i = if k % 3 == 0 {
        c + 2 * v
    } else if k % 3 == 1 {
        c + v
    } else {
        c
    };
    i as u16
}

/// The number of rows of a patch tessellated at `level`.
pub open spec fn tessellation_rows(level: int) -> int {
    if level >= 2 { 1 } else { 0 }
}

pub open spec fn tessellation_indices(level: int) -> Seq<u16> {
    Seq::new((tessellation_rows(level) * (level + 1) * 3) as nat, |k: int| tessellation_index(level, k))
}

/// At level `level >= 2` a patch has `level + 1` triangles, the `c`-th one
/// `(c + 2v, c + v, c)` with `v = level + 1`, each index cut to 16 bits; at
/// level 1 it has none.
pub proof fn lemma_tessellation_triangles(level: int)
    requires
        level >= 1,
    ensures
        level == 1 ==> tessellation_indices(level).len() == 0,
        level >= 2 ==> tessellation_indices(level).len() == 3 * (level + 1),
        level >= 2 ==> forall|c: int|
            0 <= c <= level ==> {
                &&& #[trigger] tessellation_indices(level)[3 * c] == (c + 2 * (level + 1)) as u16
                &&& tessellation_indices(level)[3 * c + 1] == (c + (level + 1)) as u16
                &&& tessellation_indices(level)[3 * c + 2] == c as u16
            },
{
    if level >= 2 {
        assert forall|c: int| 0 <= c <= level implies {
            &&& #[trigger] tessellation_indices(level)[3 * c] == (c + 2 * (level + 1)) as u16
            &&& tessellation_indices(level)[3 * c + 1] == (c + (level + 1)) as u16
            &&& tessellation_indices(level)[3 * c + 2] == c as u16
        } by {
            assert((3 * c) / 3 == c && (3 * c) % 3 == 0);
            assert((3 * c + 1) / 3 == c && (3 * c + 1) % 3 == 1);
            assert((3 * c + 2) / 3 == c && (3 * c + 2) % 3 == 2);
        }
    }
}

/// The triangle indices of a patch tessellated at `level`.
pub fn tessellation_indices_of(level: usize) -> (r: Vec<u16>)
    requires
        1 <= level,
        3 * level + 2 <= usize::MAX,
    ensures
        r@ == tessellation_indices(level as int),
{
    let v = level + 1;
    let mut out: Vec<u16> = Vec::new();
    let mut row: usize = 0;
    while row < level - 1
        invariant
            v == level + 1,
            1 <= level,
            3 * level + 2 <= usize::MAX,
            row == 0 || (row == v && level >= 2),
            row == 0 ==> out@.len() == 0,
            row == v ==> out@ =~= tessellation_indices(level as int),
        decreases level + 1 - row,
    {
        let mut col: usize = 0;
        while col < v
            invariant
                v == level + 1,
                2 <= level,
                3 * level + 2 <= usize::MAX,
                row == 0,
                col <= v,
                out@.len() == col * 3,
                forall|k: int| 0 <= k < out@.len() ==> #[trigger] out@[k] == tessellation_index(level as int, k),
            decreases v - col,
        {
            let base = row + col;
            proof {
                let k0 = col * 3;
                assert(k0 / 3 == col && k0 % 3 == 0);
                assert((k0 + 1) / 3 == col && (k0 + 1) % 3 == 1);
                assert((k0 + 2) / 3 == col && (k0 + 2) % 3 == 2);
            }
            out.push(#[verifier::truncate] ((base + 2 * v) as u16));
            out.push(#[verifier::truncate] ((base + v) as u16));
            out.push(#[verifier::truncate] (base as u16));
            col = col + 1;
        }
        assert(out@ =~= tessellation_indices(level as int));
        row = row + v;
    }
    proof {
        if row == 0 {
            assert(level < 2);
            assert(out@ =~= tessellation_indices(level as int));
        }
    }
    out
}

} // verus!

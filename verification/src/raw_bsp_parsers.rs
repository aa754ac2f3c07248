//! Parsers for the records of each lump, and for the whole file.
use vstd::prelude::*;
use crate::helpers::{
    Record, many1, parse_vec, parsed_views, skip, spec_many1, spec_parse_vec,
    IVec3, ParseError, Parsed, Rgb, SpecParsed, fixed, ivec2_at, ivec3_at, le_i32_at,
    le_u32_at, parsed_view, read_i32_at, read_ivec2_at, read_ivec3_at, read_u32_at, read_vec2_at,
    read_vec3_at, spec_take_s, spec_text, take_s, vec2_at, vec3_at,
};
use crate::directory_header::{DirectoryEntry, DirectoryHeader, directory_header, magic, spec_directory_header};
use crate::entity::Entity;
use crate::raw_bsp::{
    RawBsp, RawBspView,
    FaceType, LightVolume, Lightmap, LightmapView, Plane, RawBrush, RawBrushSide, RawEffect,
    RawEffectView, RawFace, RawLeaf, RawLeafBrush, RawLeafFace, RawMeshVert, RawModel, RawNode,
    RawVisibilityData, RawVisibilityDataView, RotationDirection, Texture, TextureView, Vertex,

};
use crate::texture_flags::{
    ALL_CONTENT_FLAGS, ALL_SURFACE_FLAGS, ContentFlags, SurfaceFlags,
};

verus! {

// ---------------------------------------------------------------------------
// Record sizes.

pub const TEXTURE_SIZE: usize = 72;
pub const PLANE_SIZE: usize = 16;
pub const NODE_SIZE: usize = 36;
pub const LEAF_SIZE: usize = 48;
pub const LEAF_FACE_SIZE: usize = 4;
pub const LEAF_BRUSH_SIZE: usize = 4;
pub const MODEL_SIZE: usize = 40;
pub const BRUSH_SIZE: usize = 12;
pub const BRUSH_SIDE_SIZE: usize = 8;
pub const VERTEX_SIZE: usize = 44;
pub const MESH_VERTEX_SIZE: usize = 4;
pub const EFFECT_SIZE: usize = 72;
pub const FACE_SIZE: usize = 104;
pub const LIGHTMAP_SIZE: usize = 49152;
pub const LIGHT_VOLUME_SIZE: usize = 8;

// ---------------------------------------------------------------------------
// Textures.

pub open spec fn spec_parse_texture(s: Seq<u8>) -> SpecParsed<TextureView> {
    match spec_take_s(s, 64) {
        Err(e) => Err(e),
        Ok((_, name)) => fixed(
            s,
            72,
            TextureView {
                name,
                surface_flags: SurfaceFlags { bits: le_u32_at(s, 64) & ALL_SURFACE_FLAGS },
                content_flags: ContentFlags { bits: le_u32_at(s, 68) & ALL_CONTENT_FLAGS },
            },
        ),
    }
}

/// A texture: a 64-byte name, its surface flags and its content flags.
pub fn parse_texture(i: &[u8]) -> (r: Parsed<Texture>)
    ensures
        parsed_view(r) == spec_parse_texture(i@),
{
    match take_s(i, 64) {
        Err(e) => Err(e),
        Ok((_, name)) => {
            if i.len() < TEXTURE_SIZE {
                Err(ParseError::Incomplete)
            } else {
                let surface_flags = SurfaceFlags::from_bits_truncate(read_u32_at(i, 64));
                let content_flags = ContentFlags::from_bits_truncate(read_u32_at(i, 68));
                Ok((TEXTURE_SIZE, Texture { name, surface_flags, content_flags }))
            }
        },
    }
}

impl Record for Texture {
    open spec fn spec_parse(s: Seq<u8>) -> SpecParsed<TextureView> {
        spec_parse_texture(s)
    }

    proof fn lemma_parse_consumes(s: Seq<u8>) {
    }

    fn parse(i: &[u8]) -> (r: Parsed<Texture>) {
        parse_texture(i)
    }
}

// ---------------------------------------------------------------------------
// Planes.

pub open spec fn plane_at(s: Seq<u8>) -> Plane {
    Plane { normal: vec3_at(s, 0), distance: le_u32_at(s, 12) }
}

/// A plane: its normal then its distance.
pub fn parse_plane(i: &[u8]) -> (r: Parsed<Plane>)
    ensures
        parsed_view(r) == fixed(i@, 16, plane_at(i@)),
{
    if i.len() < PLANE_SIZE {
        Err(ParseError::Incomplete)
    } else {
        Ok((PLANE_SIZE, Plane { normal: read_vec3_at(i, 0), distance: read_u32_at(i, 12) }))
    }
}

impl Record for Plane {
    open spec fn spec_parse(s: Seq<u8>) -> SpecParsed<Plane> {
        fixed(s, 16, plane_at(s))
    }

    proof fn lemma_parse_consumes(s: Seq<u8>) {
    }

    fn parse(i: &[u8]) -> (r: Parsed<Plane>) {
        parse_plane(i)
    }
}

// ---------------------------------------------------------------------------
// Nodes.

pub open spec fn node_at(s: Seq<u8>) -> RawNode {
    RawNode {
        plane: le_i32_at(s, 0),
        children: (le_i32_at(s, 4), le_i32_at(s, 8)),
        min: ivec3_at(s, 12),
        max: ivec3_at(s, 24),
    }
}

/// A node: its plane, its two children, its minimum and maximum corners.
pub fn parse_raw_node(i: &[u8]) -> (r: Parsed<RawNode>)
    ensures
        parsed_view(r) == fixed(i@, 36, node_at(i@)),
{
    if i.len() < NODE_SIZE {
        Err(ParseError::Incomplete)
    } else {
        let n = RawNode {
            plane: read_i32_at(i, 0),
            children: (read_i32_at(i, 4), read_i32_at(i, 8)),
            min: read_ivec3_at(i, 12),
            max: read_ivec3_at(i, 24),
        };
        Ok((NODE_SIZE, n))
    }
}

impl Record for RawNode {
    open spec fn spec_parse(s: Seq<u8>) -> SpecParsed<RawNode> {
        fixed(s, 36, node_at(s))
    }

    proof fn lemma_parse_consumes(s: Seq<u8>) {
    }

    fn parse(i: &[u8]) -> (r: Parsed<RawNode>) {
        parse_raw_node(i)
    }
}

// ---------------------------------------------------------------------------
// Vertices.

pub open spec fn vertex_at(s: Seq<u8>) -> Vertex {
    Vertex {
        position: vec3_at(s, 0),
        surface_coords: vec2_at(s, 12),
        lightmap_coords: vec2_at(s, 20),
        normal: vec3_at(s, 28),
        color: [s[40], s[41], s[42], s[43]],
    }
}

/// A vertex record is 44 bytes: the position (three little-endian 32-bit
/// values), then the surface coordinates (two), then the lightmap
/// coordinates (two), then the normal (three), then four colour bytes.
pub proof fn lemma_vertex_fields_in_record_order(s: Seq<u8>)
    ensures
        <Vertex as Record>::spec_parse(s) matches Ok((n, v)) ==> {
            &&& n == 44
            &&& v.position == [le_u32_at(s, 0), le_u32_at(s, 4), le_u32_at(s, 8)]
            &&& v.surface_coords == [le_u32_at(s, 12), le_u32_at(s, 16)]
            &&& v.lightmap_coords == [le_u32_at(s, 20), le_u32_at(s, 24)]
            &&& v.normal == [le_u32_at(s, 28), le_u32_at(s, 32), le_u32_at(s, 36)]
            &&& v.color == [s[40], s[41], s[42], s[43]]
        },
{
}

/// A vertex: position, surface and lightmap coordinates, normal, colour.
pub fn parse_vertex(i: &[u8]) -> (r: Parsed<Vertex>)
    ensures
        parsed_view(r) == fixed(i@, 44, vertex_at(i@)),
{
    if i.len() < VERTEX_SIZE {
        Err(ParseError::Incomplete)
    } else {
        let v = Vertex {
            position: read_vec3_at(i, 0),
            surface_coords: read_vec2_at(i, 12),
            lightmap_coords: read_vec2_at(i, 20),
            normal: read_vec3_at(i, 28),
            color: [i[40], i[41], i[42], i[43]],
        };
        Ok((VERTEX_SIZE, v))
    }
}

impl Record for Vertex {
    open spec fn spec_parse(s: Seq<u8>) -> SpecParsed<Vertex> {
        fixed(s, 44, vertex_at(s))
    }

    proof fn lemma_parse_consumes(s: Seq<u8>) {
    }

    fn parse(i: &[u8]) -> (r: Parsed<Vertex>) {
        parse_vertex(i)
    }
}

// ---------------------------------------------------------------------------
// Leaves.

pub open spec fn leaf_at(s: Seq<u8>) -> RawLeaf {
    RawLeaf {
        visdata_cluster: le_i32_at(s, 0),
        areaportal_area: le_i32_at(s, 4),
        min: ivec3_at(s, 8),
        max: ivec3_at(s, 20),
        first_leaf_face: le_i32_at(s, 32),
        num_leaf_faces: le_i32_at(s, 36),
        first_leaf_brush: le_i32_at(s, 40),
        num_leaf_brushes: le_i32_at(s, 44),
    }
}

/// A leaf: cluster, area, bounds, and its ranges of leaf faces and leaf brushes.
pub fn parse_raw_leaf(i: &[u8]) -> (r: Parsed<RawLeaf>)
    ensures
        parsed_view(r) == fixed(i@, 48, leaf_at(i@)),
{
    if i.len() < LEAF_SIZE {
        Err(ParseError::Incomplete)
    } else {
        let l = RawLeaf {
            visdata_cluster: read_i32_at(i, 0),
            areaportal_area: read_i32_at(i, 4),
            min: read_ivec3_at(i, 8),
            max: read_ivec3_at(i, 20),
            first_leaf_face: read_i32_at(i, 32),
            num_leaf_faces: read_i32_at(i, 36),
            first_leaf_brush: read_i32_at(i, 40),
            num_leaf_brushes: read_i32_at(i, 44),
        };
        Ok((LEAF_SIZE, l))
    }
}

impl Record for RawLeaf {
    open spec fn spec_parse(s: Seq<u8>) -> SpecParsed<RawLeaf> {
        fixed(s, 48, leaf_at(s))
    }

    proof fn lemma_parse_consumes(s: Seq<u8>) {
    }

    fn parse(i: &[u8]) -> (r: Parsed<RawLeaf>) {
        parse_raw_leaf(i)
    }
}

// ---------------------------------------------------------------------------
// Leaf faces, leaf brushes, mesh vertices: one index each.

/// A leaf face: one face index.
pub fn parse_raw_leaf_face(i: &[u8]) -> (r: Parsed<RawLeafFace>)
    ensures
        parsed_view(r) == fixed(i@, 4, RawLeafFace { index: le_i32_at(i@, 0) }),
{
    if i.len() < LEAF_FACE_SIZE {
        Err(ParseError::Incomplete)
    } else {
        Ok((LEAF_FACE_SIZE, RawLeafFace { index: read_i32_at(i, 0) }))
    }
}

impl Record for RawLeafFace {
    open spec fn spec_parse(s: Seq<u8>) -> SpecParsed<RawLeafFace> {
        fixed(s, 4, RawLeafFace { index: le_i32_at(s, 0) })
    }

    proof fn lemma_parse_consumes(s: Seq<u8>) {
    }

    fn parse(i: &[u8]) -> (r: Parsed<RawLeafFace>) {
        parse_raw_leaf_face(i)
    }
}

/// A leaf brush: one brush index.
pub fn parse_raw_leaf_brush(i: &[u8]) -> (r: Parsed<RawLeafBrush>)
    ensures
        parsed_view(r) == fixed(i@, 4, RawLeafBrush { index: le_i32_at(i@, 0) }),
{
    if i.len() < LEAF_BRUSH_SIZE {
        Err(ParseError::Incomplete)
    } else {
        Ok((LEAF_BRUSH_SIZE, RawLeafBrush { index: read_i32_at(i, 0) }))
    }
}

impl Record for RawLeafBrush {
    open spec fn spec_parse(s: Seq<u8>) -> SpecParsed<RawLeafBrush> {
        fixed(s, 4, RawLeafBrush { index: le_i32_at(s, 0) })
    }

    proof fn lemma_parse_consumes(s: Seq<u8>) {
    }

    fn parse(i: &[u8]) -> (r: Parsed<RawLeafBrush>) {
        parse_raw_leaf_brush(i)
    }
}

/// A mesh vertex: one vertex offset.
pub fn parse_raw_mesh_vertex(i: &[u8]) -> (r: Parsed<RawMeshVert>)
    ensures
        parsed_view(r) == fixed(i@, 4, RawMeshVert { offset: le_i32_at(i@, 0) }),
{
    if i.len() < MESH_VERTEX_SIZE {
        Err(ParseError::Incomplete)
    } else {
        Ok((MESH_VERTEX_SIZE, RawMeshVert { offset: read_i32_at(i, 0) }))
    }
}

impl Record for RawMeshVert {
    open spec fn spec_parse(s: Seq<u8>) -> SpecParsed<RawMeshVert> {
        fixed(s, 4, RawMeshVert { offset: le_i32_at(s, 0) })
    }

    proof fn lemma_parse_consumes(s: Seq<u8>) {
    }

    fn parse(i: &[u8]) -> (r: Parsed<RawMeshVert>) {
        parse_raw_mesh_vertex(i)
    }
}

// ---------------------------------------------------------------------------
// Models.

pub open spec fn model_at(s: Seq<u8>) -> RawModel {
    RawModel {
        min: vec3_at(s, 0),
        max: vec3_at(s, 12),
        first_face: le_i32_at(s, 24),
        num_faces: le_i32_at(s, 28),
        first_brush: le_i32_at(s, 32),
        num_brushes: le_i32_at(s, 36),
    }
}

/// A model: bounds, then its ranges of faces and brushes.
pub fn parse_raw_model(i: &[u8]) -> (r: Parsed<RawModel>)
    ensures
        parsed_view(r) == fixed(i@, 40, model_at(i@)),
{
    if i.len() < MODEL_SIZE {
        Err(ParseError::Incomplete)
    } else {
        let m = RawModel {
            min: read_vec3_at(i, 0),
            max: read_vec3_at(i, 12),
            first_face: read_i32_at(i, 24),
            num_faces: read_i32_at(i, 28),
            first_brush: read_i32_at(i, 32),
            num_brushes: read_i32_at(i, 36),
        };
        Ok((MODEL_SIZE, m))
    }
}

impl Record for RawModel {
    open spec fn spec_parse(s: Seq<u8>) -> SpecParsed<RawModel> {
        fixed(s, 40, model_at(s))
    }

    proof fn lemma_parse_consumes(s: Seq<u8>) {
    }

    fn parse(i: &[u8]) -> (r: Parsed<RawModel>) {
        parse_raw_model(i)
    }
}

// ---------------------------------------------------------------------------
// Brushes and brush sides.

pub open spec fn brush_at(s: Seq<u8>) -> RawBrush {
    RawBrush {
        first_brush_side: le_i32_at(s, 0),
        num_brush_sides: le_i32_at(s, 4),
        texture_index: le_i32_at(s, 8),
    }
}

/// A brush: its range of sides and its texture.
pub fn parse_raw_brush(i: &[u8]) -> (r: Parsed<RawBrush>)
    ensures
        parsed_view(r) == fixed(i@, 12, brush_at(i@)),
{
    if i.len() < BRUSH_SIZE {
        Err(ParseError::Incomplete)
    } else {
        let b = RawBrush {
            first_brush_side: read_i32_at(i, 0),
            num_brush_sides: read_i32_at(i, 4),
            texture_index: read_i32_at(i, 8),
        };
        Ok((BRUSH_SIZE, b))
    }
}

impl Record for RawBrush {
    open spec fn spec_parse(s: Seq<u8>) -> SpecParsed<RawBrush> {
        fixed(s, 12, brush_at(s))
    }

    proof fn lemma_parse_consumes(s: Seq<u8>) {
    }

    fn parse(i: &[u8]) -> (r: Parsed<RawBrush>) {
        parse_raw_brush(i)
    }
}

pub open spec fn brush_side_at(s: Seq<u8>) -> RawBrushSide {
    RawBrushSide { plane_index: le_i32_at(s, 0), texture_index: le_i32_at(s, 4) }
}

/// A brush side: its plane and its texture.
pub fn parse_raw_brush_side(i: &[u8]) -> (r: Parsed<RawBrushSide>)
    ensures
        parsed_view(r) == fixed(i@, 8, brush_side_at(i@)),
{
    if i.len() < BRUSH_SIDE_SIZE {
        Err(ParseError::Incomplete)
    } else {
        let b = RawBrushSide { plane_index: read_i32_at(i, 0), texture_index: read_i32_at(i, 4) };
        Ok((BRUSH_SIDE_SIZE, b))
    }
}

impl Record for RawBrushSide {
    open spec fn spec_parse(s: Seq<u8>) -> SpecParsed<RawBrushSide> {
        fixed(s, 8, brush_side_at(s))
    }

    proof fn lemma_parse_consumes(s: Seq<u8>) {
    }

    fn parse(i: &[u8]) -> (r: Parsed<RawBrushSide>) {
        parse_raw_brush_side(i)
    }
}

// ---------------------------------------------------------------------------
// Effects.

pub open spec fn spec_parse_effect(s: Seq<u8>) -> SpecParsed<RawEffectView> {
    match spec_take_s(s, 64) {
        Err(e) => Err(e),
        Ok((_, name)) => fixed(s, 72, RawEffectView { name, brush_index: le_i32_at(s, 64) }),
    }
}

/// An effect: a 64-byte name, its brush, and four unused bytes.
pub fn parse_raw_effect(i: &[u8]) -> (r: Parsed<RawEffect>)
    ensures
        parsed_view(r) == spec_parse_effect(i@),
{
    match take_s(i, 64) {
        Err(e) => Err(e),
        Ok((_, name)) => {
            if i.len() < EFFECT_SIZE {
                Err(ParseError::Incomplete)
            } else {
                Ok((EFFECT_SIZE, RawEffect { name, brush_index: read_i32_at(i, 64) }))
            }
        },
    }
}

impl Record for RawEffect {
    open spec fn spec_parse(s: Seq<u8>) -> SpecParsed<RawEffectView> {
        spec_parse_effect(s)
    }

    proof fn lemma_parse_consumes(s: Seq<u8>) {
    }

    fn parse(i: &[u8]) -> (r: Parsed<RawEffect>) {
        parse_raw_effect(i)
    }
}

// ---------------------------------------------------------------------------
// Faces.

/// The face type stored as `t`, when `t` is one of the four known codes.
pub open spec fn face_type_of(t: i32) -> Option<FaceType> {
    if t == 1 {
        Some(FaceType::Polygon)
    } else if t == 2 {
        Some(FaceType::Patch)
    } else if t == 3 {
        Some(FaceType::Mesh)
    } else if t == 4 {
        Some(FaceType::Billboard)
    } else {
        None
    }
}

pub open spec fn spec_parse_face_type(s: Seq<u8>) -> SpecParsed<FaceType> {
    if s.len() < 4 {
        Err(ParseError::Incomplete)
    } else {
        match face_type_of(le_i32_at(s, 0)) {
            Some(t) => Ok((4, t)),
            None => Err(ParseError::Error),
        }
    }
}

/// A face type: 1 polygon, 2 patch, 3 mesh, 4 billboard; any other code is an error.
pub fn parse_face_type(i: &[u8]) -> (r: Parsed<FaceType>)
    ensures
        parsed_view(r) == spec_parse_face_type(i@),
{
    if i.len() < 4 {
        return Err(ParseError::Incomplete);
    }
    let t = read_i32_at(i, 0);
    if t == 1 {
        Ok((4, FaceType::Polygon))
    } else if t == 2 {
        Ok((4, FaceType::Patch))
    } else if t == 3 {
        Ok((4, FaceType::Mesh))
    } else if t == 4 {
        Ok((4, FaceType::Billboard))
    } else {
        Err(ParseError::Error)
    }
}

pub open spec fn face_at(s: Seq<u8>, t: FaceType) -> RawFace {
    RawFace {
        texture_index: le_i32_at(s, 0),
        effect_index: le_i32_at(s, 4),
        face_type: t,
        first_vertex: le_i32_at(s, 12),
        num_vertexes: le_i32_at(s, 16),
        first_mesh_vertex: le_i32_at(s, 20),
        num_mesh_vertices: le_i32_at(s, 24),
        lightmap_index: le_i32_at(s, 28),
        lightmap_start: ivec2_at(s, 32),
        lightmap_size: ivec2_at(s, 40),
        lightmap_origin: vec3_at(s, 48),
        lightmap_vecs: (vec3_at(s, 60), vec3_at(s, 72)),
        normal: vec3_at(s, 84),
        size: ivec2_at(s, 96),
    }
}

pub open spec fn spec_parse_face(s: Seq<u8>) -> SpecParsed<RawFace> {
    if s.len() < 8 {
        Err(ParseError::Incomplete)
    } else {
        match spec_parse_face_type(s.skip(8)) {
            Err(e) => Err(e),
            Ok((_, t)) => fixed(s, 104, face_at(s, t)),
        }
    }
}

/// A face record is 104 bytes of little-endian fields in this order:
/// texture, effect, type, first vertex, vertex count, first mesh vertex,
/// mesh vertex count, lightmap, lightmap start (2), lightmap size (2),
/// lightmap origin (3), the two lightmap vectors (3 each), normal (3) and
/// patch size (2); the type is the code at byte 8.
pub proof fn lemma_face_fields_in_record_order(s: Seq<u8>)
    ensures
        spec_parse_face(s) matches Ok((n, f)) ==> {
            &&& n == 104
            &&& Some(f.face_type) == face_type_of(le_i32_at(s, 8))
            &&& f.texture_index == le_i32_at(s, 0)
            &&& f.effect_index == le_i32_at(s, 4)
            &&& f.first_vertex == le_i32_at(s, 12)
            &&& f.num_vertexes == le_i32_at(s, 16)
            &&& f.first_mesh_vertex == le_i32_at(s, 20)
            &&& f.num_mesh_vertices == le_i32_at(s, 24)
            &&& f.lightmap_index == le_i32_at(s, 28)
            &&& f.lightmap_start == [le_i32_at(s, 32), le_i32_at(s, 36)]
            &&& f.lightmap_size == [le_i32_at(s, 40), le_i32_at(s, 44)]
            &&& f.lightmap_origin == [le_u32_at(s, 48), le_u32_at(s, 52), le_u32_at(s, 56)]
            &&& f.lightmap_vecs.0 == [le_u32_at(s, 60), le_u32_at(s, 64), le_u32_at(s, 68)]
            &&& f.lightmap_vecs.1 == [le_u32_at(s, 72), le_u32_at(s, 76), le_u32_at(s, 80)]
            &&& f.normal == [le_u32_at(s, 84), le_u32_at(s, 88), le_u32_at(s, 92)]
            &&& f.size == [le_i32_at(s, 96), le_i32_at(s, 100)]
        },
{
    if let Ok((n, f)) = spec_parse_face(s) {
        assert(s.skip(8).len() >= 4);
        assert(le_i32_at(s.skip(8), 0) == le_i32_at(s, 8));
    }
}

/// A face: texture, effect, type, vertex and mesh-vertex ranges, lightmap data,
/// normal and patch size.  An unknown type code is an error.
pub fn parse_raw_face(i: &[u8]) -> (r: Parsed<RawFace>)
    ensures
        parsed_view(r) == spec_parse_face(i@),
{
    if i.len() < 8 {
        return Err(ParseError::Incomplete);
    }
    let rest = &i[8..i.len()];
    assert(rest@ =~= i@.skip(8));
    match parse_face_type(rest) {
        Err(e) => Err(e),
        Ok((_, t)) => {
            if i.len() < FACE_SIZE {
                Err(ParseError::Incomplete)
            } else {
                let f = RawFace {
                    texture_index: read_i32_at(i, 0),
                    effect_index: read_i32_at(i, 4),
                    face_type: t,
                    first_vertex: read_i32_at(i, 12),
                    num_vertexes: read_i32_at(i, 16),
                    first_mesh_vertex: read_i32_at(i, 20),
                    num_mesh_vertices: read_i32_at(i, 24),
                    lightmap_index: read_i32_at(i, 28),
                    lightmap_start: read_ivec2_at(i, 32),
                    lightmap_size: read_ivec2_at(i, 40),
                    lightmap_origin: read_vec3_at(i, 48),
                    lightmap_vecs: (read_vec3_at(i, 60), read_vec3_at(i, 72)),
                    normal: read_vec3_at(i, 84),
                    size: read_ivec2_at(i, 96),
                };
                Ok((FACE_SIZE, f))
            }
        },
    }
}

impl Record for RawFace {
    open spec fn spec_parse(s: Seq<u8>) -> SpecParsed<RawFace> {
        spec_parse_face(s)
    }

    proof fn lemma_parse_consumes(s: Seq<u8>) {
    }

    fn parse(i: &[u8]) -> (r: Parsed<RawFace>) {
        parse_raw_face(i)
    }
}

// ---------------------------------------------------------------------------
// Lightmaps.

pub open spec fn rgb_at(s: Seq<u8>, off: int) -> Rgb {
    [s[off], s[off + 1], s[off + 2]]
}

/// The colours of a lightmap: the file stores them column by column, so the
/// colour at column `x`, row `y` is the `(x * 128 + y)`-th triple.
pub open spec fn lightmap_at(s: Seq<u8>) -> LightmapView {
    LightmapView {
        colors: Seq::new(128, |y: int| Seq::new(128, |x: int| rgb_at(s, 3 * (x * 128 + y)))),
    }
}

/// A lightmap: 128 by 128 colours of three bytes.
pub fn parse_lightmap(i: &[u8]) -> (r: Parsed<Lightmap>)
    ensures
        parsed_view(r) == fixed(i@, 49152, lightmap_at(i@)),
{
    if i.len() < LIGHTMAP_SIZE {
        return Err(ParseError::Incomplete);
    }
    let mut colors: Vec<Vec<Rgb>> = Vec::new();
    let mut y: usize = 0;
    while y < 128
        invariant
            y <= 128,
            i@.len() >= 49152,
            colors@.len() == y,
            forall|k: int|
                0 <= k < y ==> (#[trigger] colors@[k])@ == lightmap_at(i@).colors[k],
        decreases 128 - y,
    {
        let mut row: Vec<Rgb> = Vec::new();
        let mut x: usize = 0;
        while x < 128
            invariant
                x <= 128,
                y < 128,
                i@.len() >= 49152,
                row@.len() == x,
                forall|k: int|
                    0 <= k < x ==> #[trigger] row@[k] == rgb_at(i@, 3 * (k * 128 + y)),
            decreases 128 - x,
        {
            let off = 3 * (x * 128 + y);
            row.push([i[off], i[off + 1], i[off + 2]]);
            x = x + 1;
        }
        assert(row@ =~= lightmap_at(i@).colors[y as int]);
        colors.push(row);
        y = y + 1;
    }
    let l = Lightmap { colors };
    assert(l@.colors =~= lightmap_at(i@).colors);
    Ok((LIGHTMAP_SIZE, l))
}

impl Record for Lightmap {
    open spec fn spec_parse(s: Seq<u8>) -> SpecParsed<LightmapView> {
        fixed(s, 49152, lightmap_at(s))
    }

    proof fn lemma_parse_consumes(s: Seq<u8>) {
    }

    fn parse(i: &[u8]) -> (r: Parsed<Lightmap>) {
        parse_lightmap(i)
    }
}

// ---------------------------------------------------------------------------
// Light volumes.

pub open spec fn light_volume_at(s: Seq<u8>) -> LightVolume {
    LightVolume {
        ambient: rgb_at(s, 0),
        directional: rgb_at(s, 3),
        direction: RotationDirection { phi: s[6], theta: s[7] },
    }
}

/// A rotation direction: two angle bytes.
pub fn parse_rotation_direction(i: &[u8]) -> (r: Parsed<RotationDirection>)
    ensures
        parsed_view(r) == fixed(i@, 2, RotationDirection { phi: i@[0], theta: i@[1] }),
{
    if i.len() < 2 {
        Err(ParseError::Incomplete)
    } else {
        Ok((2, RotationDirection { phi: i[0], theta: i[1] }))
    }
}

/// A light volume: ambient colour, directional colour, direction.
pub fn parse_light_volume(i: &[u8]) -> (r: Parsed<LightVolume>)
    ensures
        parsed_view(r) == fixed(i@, 8, light_volume_at(i@)),
{
    if i.len() < LIGHT_VOLUME_SIZE {
        Err(ParseError::Incomplete)
    } else {
        let v = LightVolume {
            ambient: [i[0], i[1], i[2]],
            directional: [i[3], i[4], i[5]],
            direction: RotationDirection { phi: i[6], theta: i[7] },
        };
        Ok((LIGHT_VOLUME_SIZE, v))
    }
}

impl Record for LightVolume {
    open spec fn spec_parse(s: Seq<u8>) -> SpecParsed<LightVolume> {
        fixed(s, 8, light_volume_at(s))
    }

    proof fn lemma_parse_consumes(s: Seq<u8>) {
    }

    fn parse(i: &[u8]) -> (r: Parsed<LightVolume>) {
        parse_light_volume(i)
    }
}

// ---------------------------------------------------------------------------
// Visibility data.

pub open spec fn spec_parse_visibility_data(s: Seq<u8>) -> SpecParsed<RawVisibilityDataView> {
    if s.len() < 8 {
        Err(ParseError::Incomplete)
    } else {
        let n = le_i32_at(s, 0);
        let sz = le_i32_at(s, 4);
        let size = n * sz;
        if size < i32::MIN || size > i32::MAX {
            Err(ParseError::Error)
        } else if size < 0 || s.len() - 8 < size {
            Err(ParseError::Incomplete)
        } else {
            Ok(
                (
                    8 + size,
                    RawVisibilityDataView {
                        num_vectors: n,
                        sizeof_vector: sz,
                        raw_bytes: s.subrange(8, 8 + size),
                    },
                ),
            )
        }
    }
}

/// Visibility data: the number of vectors, the size of one vector, then all
/// vectors' bytes.  A product of the two counts that does not fit an `i32` is
/// an error; a negative product, or too few bytes, is incomplete input.
pub fn parse_visibility_data(i: &[u8]) -> (r: Parsed<RawVisibilityData>)
    ensures
        parsed_view(r) == spec_parse_visibility_data(i@),
{
    if i.len() < 8 {
        return Err(ParseError::Incomplete);
    }
    let n = read_i32_at(i, 0);
    let sz = read_i32_at(i, 4);
    let size = match n.checked_mul(sz) {
        Some(p) => p,
        None => return Err(ParseError::Error),
    };
    if size < 0 || i.len() - 8 < size as usize {
        return Err(ParseError::Incomplete);
    }
    let end = 8 + size as usize;
    let mut raw_bytes: Vec<u8> = Vec::new();
    let mut k: usize = 8;
    while k < end
        invariant
            8 <= k <= end,
            end <= i@.len(),
            raw_bytes@ == i@.subrange(8, k as int),
        decreases end - k,
    {
        raw_bytes.push(i[k]);
        k = k + 1;
        assert(raw_bytes@ =~= i@.subrange(8, k as int));
    }
    Ok((end, RawVisibilityData { num_vectors: n, sizeof_vector: sz, raw_bytes }))
}

impl Record for RawVisibilityData {
    open spec fn spec_parse(s: Seq<u8>) -> SpecParsed<RawVisibilityDataView> {
        spec_parse_visibility_data(s)
    }

    proof fn lemma_parse_consumes(s: Seq<u8>) {
    }

    fn parse(i: &[u8]) -> (r: Parsed<RawVisibilityData>) {
        parse_visibility_data(i)
    }
}

// ---------------------------------------------------------------------------
// Where each field of a record comes from.

/// A texture record is 72 bytes: a 64-byte name (its text up to the first
/// zero byte), then the surface flags and the content flags as
/// little-endian 32-bit values with the undefined bits dropped.
pub proof fn lemma_texture_fields_in_record_order(s: Seq<u8>)
    ensures
        <Texture as Record>::spec_parse(s) matches Ok((n, t)) ==> {
            &&& n == 72
            &&& spec_text(s.take(64)) == Some(t.name)
            &&& t.surface_flags.bits == le_u32_at(s, 64) & ALL_SURFACE_FLAGS
            &&& t.content_flags.bits == le_u32_at(s, 68) & ALL_CONTENT_FLAGS
        },
{
}

/// A plane record is 16 bytes: the normal (three little-endian 32-bit
/// values), then the distance.
pub proof fn lemma_plane_fields_in_record_order(s: Seq<u8>)
    ensures
        <Plane as Record>::spec_parse(s) matches Ok((n, p)) ==> {
            &&& n == 16
            &&& p.normal == [le_u32_at(s, 0), le_u32_at(s, 4), le_u32_at(s, 8)]
            &&& p.distance == le_u32_at(s, 12)
        },
{
}

/// A node record is 36 bytes of little-endian `i32`: the plane, the front
/// child, the back child, the minimum corner (3) and the maximum corner (3).
pub proof fn lemma_node_fields_in_record_order(s: Seq<u8>)
    ensures
        <RawNode as Record>::spec_parse(s) matches Ok((n, r)) ==> {
            &&& n == 36
            &&& r.plane == le_i32_at(s, 0)
            &&& r.children.0 == le_i32_at(s, 4)
            &&& r.children.1 == le_i32_at(s, 8)
            &&& r.min == [le_i32_at(s, 12), le_i32_at(s, 16), le_i32_at(s, 20)]
            &&& r.max == [le_i32_at(s, 24), le_i32_at(s, 28), le_i32_at(s, 32)]
        },
{
}

/// A leaf record is 48 bytes of little-endian `i32`: the cluster, the area,
/// the minimum corner (3), the maximum corner (3), the first leaf face, the
/// leaf face count, the first leaf brush and the leaf brush count.
pub proof fn lemma_leaf_fields_in_record_order(s: Seq<u8>)
    ensures
        <RawLeaf as Record>::spec_parse(s) matches Ok((n, l)) ==> {
            &&& n == 48
            &&& l.visdata_cluster == le_i32_at(s, 0)
            &&& l.areaportal_area == le_i32_at(s, 4)
            &&& l.min == [le_i32_at(s, 8), le_i32_at(s, 12), le_i32_at(s, 16)]
            &&& l.max == [le_i32_at(s, 20), le_i32_at(s, 24), le_i32_at(s, 28)]
            &&& l.first_leaf_face == le_i32_at(s, 32)
            &&& l.num_leaf_faces == le_i32_at(s, 36)
            &&& l.first_leaf_brush == le_i32_at(s, 40)
            &&& l.num_leaf_brushes == le_i32_at(s, 44)
        },
{
}

/// Leaf face, leaf brush and mesh vertex records are each one
/// little-endian `i32`.
pub proof fn lemma_index_records(s: Seq<u8>)
    ensures
        <RawLeafFace as Record>::spec_parse(s) matches Ok((n, r)) ==> n == 4 && r.index == le_i32_at(s, 0),
        <RawLeafBrush as Record>::spec_parse(s) matches Ok((n, r)) ==> n == 4 && r.index == le_i32_at(s, 0),
        <RawMeshVert as Record>::spec_parse(s) matches Ok((n, r)) ==> n == 4 && r.offset == le_i32_at(s, 0),
{
}

/// A model record is 40 bytes: the minimum and maximum corners (three
/// little-endian 32-bit values each), then the first face, the face count,
/// the first brush and the brush count as little-endian `i32`.
pub proof fn lemma_model_fields_in_record_order(s: Seq<u8>)
    ensures
        <RawModel as Record>::spec_parse(s) matches Ok((n, m)) ==> {
            &&& n == 40
            &&& m.min == [le_u32_at(s, 0), le_u32_at(s, 4), le_u32_at(s, 8)]
            &&& m.max == [le_u32_at(s, 12), le_u32_at(s, 16), le_u32_at(s, 20)]
            &&& m.first_face == le_i32_at(s, 24)
            &&& m.num_faces == le_i32_at(s, 28)
            &&& m.first_brush == le_i32_at(s, 32)
            &&& m.num_brushes == le_i32_at(s, 36)
        },
{
}

/// A brush record is 12 bytes of little-endian `i32`: the first side, the
/// side count and the texture; a brush side record is 8 bytes: the plane,
/// then the texture.
pub proof fn lemma_brush_fields_in_record_order(s: Seq<u8>)
    ensures
        <RawBrush as Record>::spec_parse(s) matches Ok((n, b)) ==> {
            &&& n == 12
            &&& b.first_brush_side == le_i32_at(s, 0)
            &&& b.num_brush_sides == le_i32_at(s, 4)
            &&& b.texture_index == le_i32_at(s, 8)
        },
        <RawBrushSide as Record>::spec_parse(s) matches Ok((n, b)) ==> {
            &&& n == 8
            &&& b.plane_index == le_i32_at(s, 0)
            &&& b.texture_index == le_i32_at(s, 4)
        },
{
}

/// An effect record is 72 bytes: a 64-byte name, the brush as a
/// little-endian `i32`, and four unused bytes.
pub proof fn lemma_effect_fields_in_record_order(s: Seq<u8>)
    ensures
        <RawEffect as Record>::spec_parse(s) matches Ok((n, e)) ==> {
            &&& n == 72
            &&& spec_text(s.take(64)) == Some(e.name)
            &&& e.brush_index == le_i32_at(s, 64)
        },
{
}

/// A lightmap record is 128 by 128 colours of three bytes, stored column by
/// column: the colour at column `x`, row `y` starts at byte
/// `3 * (128 * x + y)`.
pub proof fn lemma_lightmap_column_major(s: Seq<u8>)
    ensures
        <Lightmap as Record>::spec_parse(s) matches Ok((n, l)) ==> {
            &&& n == 49152
            &&& l.colors.len() == 128
            &&& forall|y: int, x: int|
                0 <= y < 128 && 0 <= x < 128 ==> #[trigger] l.colors[y][x] == [
                    s[3 * (128 * x + y)],
                    s[3 * (128 * x + y) + 1],
                    s[3 * (128 * x + y) + 2],
                ] && l.colors[y].len() == 128
        },
{
}

/// A light volume record is 8 bytes: the ambient colour (3), the
/// directional colour (3), then the two direction angles.
pub proof fn lemma_light_volume_fields_in_record_order(s: Seq<u8>)
    ensures
        <LightVolume as Record>::spec_parse(s) matches Ok((n, v)) ==> {
            &&& n == 8
            &&& v.ambient == [s[0], s[1], s[2]]
            &&& v.directional == [s[3], s[4], s[5]]
            &&& v.direction.phi == s[6]
            &&& v.direction.theta == s[7]
        },
{
}

/// Visibility data is the vector count and the vector size as little-endian
/// `i32`, then count times size bytes of vectors, all kept.
pub proof fn lemma_visibility_data_layout(s: Seq<u8>)
    ensures
        <RawVisibilityData as Record>::spec_parse(s) matches Ok((n, d)) ==> {
            &&& d.num_vectors == le_i32_at(s, 0)
            &&& d.sizeof_vector == le_i32_at(s, 4)
            &&& n == 8 + d.num_vectors * d.sizeof_vector
            &&& d.raw_bytes == s.subrange(8, 8 + d.num_vectors * d.sizeof_vector)
        },
{
}

/// The records of a lump read as a run of fixed-size records: as many as
/// fit in the lump's size, read from the lump's offset on.  An offset outside
/// the file or a negative size is an error.
pub open spec fn spec_lump<T: Record>(s: Seq<u8>, e: DirectoryEntry, rec: int) -> SpecParsed<Seq<T::V>> {
    if e.offset < 0 || e.offset > s.len() || e.size < 0 {
        Err(ParseError::Error)
    } else {
        spec_parse_vec::<T>(s.skip(e.offset as int), (e.size as int / rec) as nat)
    }
}

/// The records of a lump read as one or more records within the lump's
/// bytes.  A lump that does not lie within the file is an error.
pub open spec fn spec_lump_many1<T: Record>(s: Seq<u8>, e: DirectoryEntry) -> SpecParsed<Seq<T::V>> {
    if e.offset < 0 || e.size < 0 || e.offset + e.size > i32::MAX || e.offset + e.size > s.len() {
        Err(ParseError::Error)
    } else {
        spec_many1::<T>(s.subrange(e.offset as int, e.offset + e.size))
    }
}

/// Reads the fixed-size records of the lump `e`.
pub fn get_from_header<T: Record>(i: &[u8], e: DirectoryEntry, rec: usize) -> (r: Parsed<Vec<T>>)
    requires
        rec > 0,
    ensures
        parsed_views(r) == spec_lump::<T>(i@, e, rec as int),
{
    if e.offset < 0 || e.offset as usize > i.len() || e.size < 0 {
        return Err(ParseError::Error);
    }
    let count = e.size as usize / rec;
    parse_vec::<T>(skip(i, e.offset as usize), count)
}

/// Reads one or more records from the bytes of the lump `e`.
pub fn many1_from_header<T: Record>(i: &[u8], e: DirectoryEntry) -> (r: Parsed<Vec<T>>)
    ensures
        parsed_views(r) == spec_lump_many1::<T>(i@, e),
{
    if e.offset < 0 || e.size < 0 || e.offset > i32::MAX - e.size || (e.offset + e.size) as usize > i.len() {
        return Err(ParseError::Error);
    }
    let start = e.offset as usize;
    let end = (e.offset + e.size) as usize;
    let slice = &i[start..end];
    many1::<T>(slice)
}

/// The whole file: the header, then every lump in directory order; the first
/// lump that fails decides the error.  On success the whole input counts as consumed.
pub open spec fn spec_parse_raw_bsp(s: Seq<u8>) -> SpecParsed<RawBspView> {
    match spec_directory_header(s) {
        Err(e) => Err(e),
        Ok((_, h)) => match spec_lump_many1::<Entity>(s, h.entities) {
        Err(e) => Err(e),
        Ok((_, entities)) => match spec_lump::<Texture>(s, h.textures, TEXTURE_SIZE as int) {
        Err(e) => Err(e),
        Ok((_, textures)) => match spec_lump::<Plane>(s, h.planes, PLANE_SIZE as int) {
        Err(e) => Err(e),
        Ok((_, planes)) => match spec_lump::<RawNode>(s, h.nodes, NODE_SIZE as int) {
        Err(e) => Err(e),
        Ok((_, nodes)) => match spec_lump::<RawLeaf>(s, h.leaves, LEAF_SIZE as int) {
        Err(e) => Err(e),
        Ok((_, leaves)) => match spec_lump::<RawLeafFace>(s, h.leaf_faces, LEAF_FACE_SIZE as int) {
        Err(e) => Err(e),
        Ok((_, leaf_faces)) => match spec_lump::<RawLeafBrush>(s, h.leaf_brushes, LEAF_BRUSH_SIZE as int) {
        Err(e) => Err(e),
        Ok((_, leaf_brushes)) => match spec_lump::<RawModel>(s, h.models, MODEL_SIZE as int) {
        Err(e) => Err(e),
        Ok((_, models)) => match spec_lump::<RawBrush>(s, h.brushes, BRUSH_SIZE as int) {
        Err(e) => Err(e),
        Ok((_, brushes)) => match spec_lump::<RawBrushSide>(s, h.brush_sides, BRUSH_SIDE_SIZE as int) {
        Err(e) => Err(e),
        Ok((_, brush_sides)) => match spec_lump::<Vertex>(s, h.vertices, VERTEX_SIZE as int) {
        Err(e) => Err(e),
        Ok((_, vertices)) => match spec_lump::<RawMeshVert>(s, h.mesh_vertices, MESH_VERTEX_SIZE as int) {
        Err(e) => Err(e),
        Ok((_, mesh_vertices)) => match spec_lump::<RawEffect>(s, h.effects, EFFECT_SIZE as int) {
        Err(e) => Err(e),
        Ok((_, effects)) => match spec_lump::<RawFace>(s, h.faces, FACE_SIZE as int) {
        Err(e) => Err(e),
        Ok((_, faces)) => match spec_lump::<Lightmap>(s, h.light_maps, LIGHTMAP_SIZE as int) {
        Err(e) => Err(e),
        Ok((_, light_maps)) => match spec_lump::<LightVolume>(s, h.light_volumes, LIGHT_VOLUME_SIZE as int) {
        Err(e) => Err(e),
        Ok((_, light_volumes)) => match spec_lump_many1::<RawVisibilityData>(s, h.visibility_data) {
        Err(e) => Err(e),
        Ok((_, visibility_data)) => Ok((s.len() as int, RawBspView {
            header: h,
            entities: entities,
            textures: textures,
            planes: planes,
            nodes: nodes,
            leaves: leaves,
            leaf_faces: leaf_faces,
            leaf_brushes: leaf_brushes,
            models: models,
            brushes: brushes,
            brush_sides: brush_sides,
            vertices: vertices,
            mesh_vertices: mesh_vertices,
            effects: effects,
            faces: faces,
            light_maps: light_maps,
            light_volumes: light_volumes,
            visibility_data: visibility_data,
        })),
    },
    },
    },
    },
    },
    },
    },
    },
    },
    },
    },
    },
    },
    },
    },
    },
    },
    }
}

/// A file that reads as a level starts with the tag `IBSP`, is read whole,
/// and carries the directory header read from its first bytes.
pub proof fn lemma_parsed_level_header(s: Seq<u8>)
    ensures
        spec_parse_raw_bsp(s) matches Ok((n, b)) ==> {
            &&& n == s.len()
            &&& s.take(4) == magic()
            &&& spec_directory_header(s) == Ok::<(int, DirectoryHeader), ParseError>((144, b.header))
        },
{
}

/// Reads a whole level file.
pub fn parse_raw_bsp(i: &[u8]) -> (r: Parsed<RawBsp>)
    ensures
        parsed_view(r) == spec_parse_raw_bsp(i@),
{
    let (_, header) = match directory_header(i) {
        Err(e) => return Err(e),
        Ok(p) => p,
    };
    let (_, entities) = match many1_from_header::<Entity>(i, header.entities) {
        Err(e) => return Err(e),
        Ok(p) => p,
    };
    let (_, textures) = match get_from_header::<Texture>(i, header.textures, TEXTURE_SIZE) {
        Err(e) => return Err(e),
        Ok(p) => p,
    };
    let (_, planes) = match get_from_header::<Plane>(i, header.planes, PLANE_SIZE) {
        Err(e) => return Err(e),
        Ok(p) => p,
    };
    let (_, nodes) = match get_from_header::<RawNode>(i, header.nodes, NODE_SIZE) {
        Err(e) => return Err(e),
        Ok(p) => p,
    };
    let (_, leaves) = match get_from_header::<RawLeaf>(i, header.leaves, LEAF_SIZE) {
        Err(e) => return Err(e),
        Ok(p) => p,
    };
    let (_, leaf_faces) = match get_from_header::<RawLeafFace>(i, header.leaf_faces, LEAF_FACE_SIZE) {
        Err(e) => return Err(e),
        Ok(p) => p,
    };
    let (_, leaf_brushes) = match get_from_header::<RawLeafBrush>(i, header.leaf_brushes, LEAF_BRUSH_SIZE) {
        Err(e) => return Err(e),
        Ok(p) => p,
    };
    let (_, models) = match get_from_header::<RawModel>(i, header.models, MODEL_SIZE) {
        Err(e) => return Err(e),
        Ok(p) => p,
    };
    let (_, brushes) = match get_from_header::<RawBrush>(i, header.brushes, BRUSH_SIZE) {
        Err(e) => return Err(e),
        Ok(p) => p,
    };
    let (_, brush_sides) = match get_from_header::<RawBrushSide>(i, header.brush_sides, BRUSH_SIDE_SIZE) {
        Err(e) => return Err(e),
        Ok(p) => p,
    };
    let (_, vertices) = match get_from_header::<Vertex>(i, header.vertices, VERTEX_SIZE) {
        Err(e) => return Err(e),
        Ok(p) => p,
    };
    let (_, mesh_vertices) = match get_from_header::<RawMeshVert>(i, header.mesh_vertices, MESH_VERTEX_SIZE) {
        Err(e) => return Err(e),
        Ok(p) => p,
    };
    let (_, effects) = match get_from_header::<RawEffect>(i, header.effects, EFFECT_SIZE) {
        Err(e) => return Err(e),
        Ok(p) => p,
    };
    let (_, faces) = match get_from_header::<RawFace>(i, header.faces, FACE_SIZE) {
        Err(e) => return Err(e),
        Ok(p) => p,
    };
    let (_, light_maps) = match get_from_header::<Lightmap>(i, header.light_maps, LIGHTMAP_SIZE) {
        Err(e) => return Err(e),
        Ok(p) => p,
    };
    let (_, light_volumes) = match get_from_header::<LightVolume>(i, header.light_volumes, LIGHT_VOLUME_SIZE) {
        Err(e) => return Err(e),
        Ok(p) => p,
    };
    let (_, visibility_data) = match many1_from_header::<RawVisibilityData>(i, header.visibility_data) {
        Err(e) => return Err(e),
        Ok(p) => p,
    };
    let raw = RawBsp {
        header,
        entities,
        textures,
        planes,
        nodes,
        leaves,
        leaf_faces,
        leaf_brushes,
        models,
        brushes,
        brush_sides,
        vertices,
        mesh_vertices,
        effects,
        faces,
        light_maps,
        light_volumes,
        visibility_data,
    };
    Ok((i.len(), raw))
}

} // verus!

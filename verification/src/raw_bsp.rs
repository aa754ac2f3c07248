//! The records of a level file, as they are stored.
//!
//! Floating-point fields are held as their 32-bit IEEE-754 bit patterns.
use vstd::prelude::*;
use crate::directory_header::DirectoryHeader;
use crate::entity::{Entity, EntityView};
use crate::helpers::{IVec2, IVec3, Rgb, Vec2, Vec3, views};
use crate::texture_flags::{ContentFlags, SurfaceFlags};

verus! {

/// Everything a level file holds, lump by lump.
#[derive(Debug, PartialEq, Eq)]
pub struct RawBsp {
    pub header: DirectoryHeader,
    pub entities: Vec<Entity>,
    pub textures: Vec<Texture>,
    pub planes: Vec<Plane>,
    pub nodes: Vec<RawNode>,
    pub leaves: Vec<RawLeaf>,
    pub leaf_faces: Vec<RawLeafFace>,
    pub leaf_brushes: Vec<RawLeafBrush>,
    pub models: Vec<RawModel>,
    pub brushes: Vec<RawBrush>,
    pub brush_sides: Vec<RawBrushSide>,
    pub vertices: Vec<Vertex>,
    pub mesh_vertices: Vec<RawMeshVert>,
    pub effects: Vec<RawEffect>,
    pub faces: Vec<RawFace>,
    pub light_maps: Vec<Lightmap>,
    pub light_volumes: Vec<LightVolume>,
    pub visibility_data: Vec<RawVisibilityData>,
}

/// The view of a [`RawBsp`]: every lump as a sequence of record views.
pub struct RawBspView {
    pub header: DirectoryHeader,
    pub entities: Seq<EntityView>,
    pub textures: Seq<TextureView>,
    pub planes: Seq<Plane>,
    pub nodes: Seq<RawNode>,
    pub leaves: Seq<RawLeaf>,
    pub leaf_faces: Seq<RawLeafFace>,
    pub leaf_brushes: Seq<RawLeafBrush>,
    pub models: Seq<RawModel>,
    pub brushes: Seq<RawBrush>,
    pub brush_sides: Seq<RawBrushSide>,
    pub vertices: Seq<Vertex>,
    pub mesh_vertices: Seq<RawMeshVert>,
    pub effects: Seq<RawEffectView>,
    pub faces: Seq<RawFace>,
    pub light_maps: Seq<LightmapView>,
    pub light_volumes: Seq<LightVolume>,
    pub visibility_data: Seq<RawVisibilityDataView>,
}

impl View for RawBsp {
    type V = RawBspView;

    open spec fn view(&self) -> RawBspView {
        RawBspView {
            header: self.header,
            entities: views(self.entities@),
            textures: views(self.textures@),
            planes: views(self.planes@),
            nodes: views(self.nodes@),
            leaves: views(self.leaves@),
            leaf_faces: views(self.leaf_faces@),
            leaf_brushes: views(self.leaf_brushes@),
            models: views(self.models@),
            brushes: views(self.brushes@),
            brush_sides: views(self.brush_sides@),
            vertices: views(self.vertices@),
            mesh_vertices: views(self.mesh_vertices@),
            effects: views(self.effects@),
            faces: views(self.faces@),
            light_maps: views(self.light_maps@),
            light_volumes: views(self.light_volumes@),
            visibility_data: views(self.visibility_data@),
        }
    }
}

/// A texture reference: its name and its flags.
#[derive(Debug, PartialEq, Eq)]
pub struct Texture {
    pub name: String,
    pub surface_flags: SurfaceFlags,
    pub content_flags: ContentFlags,
}

pub struct TextureView {
    pub name: Seq<char>,
    pub surface_flags: SurfaceFlags,
    pub content_flags: ContentFlags,
}

impl View for Texture {
    type V = TextureView;

    open spec fn view(&self) -> TextureView {
        TextureView {
            name: self.name@,
            surface_flags: self.surface_flags,
            content_flags: self.content_flags,
        }
    }
}

/// A plane: its normal and its distance from the origin.
#[derive(Debug, Clone, Copy, PartialEq, Eq)]
pub struct Plane {
    pub normal: Vec3,
    pub distance: u32,
}

/// A node of the tree: the index of its plane, its two children, and its bounds.
///
/// A non-negative child is a node index; a negative child `c` stands for the
/// leaf `-(c + 1)`.
#[derive(Debug, Clone, Copy, PartialEq, Eq)]
pub struct RawNode {
    pub plane: i32,
    pub children: (i32, i32),
    pub min: IVec3,
    pub max: IVec3,
}

/// A leaf of the tree.
#[derive(Debug, Clone, Copy, PartialEq, Eq)]
pub struct RawLeaf {
    pub visdata_cluster: i32,
    pub areaportal_area: i32,
    pub min: IVec3,
    pub max: IVec3,
    pub first_leaf_face: i32,
    pub num_leaf_faces: i32,
    pub first_leaf_brush: i32,
    pub num_leaf_brushes: i32,
}

/// A face index, referenced from leaves.
#[derive(Debug, Clone, Copy, PartialEq, Eq, Structural)]
pub struct RawLeafFace {
    pub index: i32,
}

/// A brush index, referenced from leaves.
#[derive(Debug, Clone, Copy, PartialEq, Eq, Structural)]
pub struct RawLeafBrush {
    pub index: i32,
}

/// A model: its bounds and its ranges of faces and brushes.
#[derive(Debug, Clone, Copy, PartialEq, Eq)]
pub struct RawModel {
    pub min: Vec3,
    pub max: Vec3,
    pub first_face: i32,
    pub num_faces: i32,
    pub first_brush: i32,
    pub num_brushes: i32,
}

/// A brush: its range of brush sides and its texture.
#[derive(Debug, Clone, Copy, PartialEq, Eq, Structural)]
pub struct RawBrush {
    pub first_brush_side: i32,
    pub num_brush_sides: i32,
    pub texture_index: i32,
}

/// A side of a brush: its plane and its texture.
#[derive(Debug, Clone, Copy, PartialEq, Eq, Structural)]
pub struct RawBrushSide {
    pub plane_index: i32,
    pub texture_index: i32,
}

/// A vertex.
#[derive(Debug, Clone, Copy, PartialEq, Eq)]
pub struct Vertex {
    pub position: Vec3,
    pub surface_coords: Vec2,
    pub lightmap_coords: Vec2,
    pub normal: Vec3,
    pub color: [u8; 4],
}

/// A vertex offset, relative to the first vertex of a face.
#[derive(Debug, Clone, Copy, PartialEq, Eq, Structural)]
pub struct RawMeshVert {
    pub offset: i32,
}

/// An effect (such as fog): its shader name and its brush.
#[derive(Debug, PartialEq, Eq)]
pub struct RawEffect {
    pub name: String,
    pub brush_index: i32,
}

pub struct RawEffectView {
    pub name: Seq<char>,
    pub brush_index: i32,
}

impl View for RawEffect {
    type V = RawEffectView;

    open spec fn view(&self) -> RawEffectView {
        RawEffectView { name: self.name@, brush_index: self.brush_index }
    }
}

/// How a face is drawn; stored as 1, 2, 3 or 4.
#[derive(Debug, Clone, Copy, PartialEq, Eq, Structural)]
pub enum FaceType {
    Polygon,
    Patch,
    Mesh,
    Billboard,
}

/// A face.
#[derive(Debug, Clone, Copy, PartialEq, Eq)]
pub struct RawFace {
    pub texture_index: i32,
    pub effect_index: i32,
    pub face_type: FaceType,
    pub first_vertex: i32,
    pub num_vertexes: i32,
    pub first_mesh_vertex: i32,
    pub num_mesh_vertices: i32,
    pub lightmap_index: i32,
    pub lightmap_start: IVec2,
    pub lightmap_size: IVec2,
    pub lightmap_origin: Vec3,
    pub lightmap_vecs: (Vec3, Vec3),
    pub normal: Vec3,
    pub size: IVec2,
}

/// A lightmap of 128 by 128 colours; `colors[y][x]` is the colour at column `x`, row `y`.
#[derive(Debug, PartialEq, Eq)]
pub struct Lightmap {
    pub colors: Vec<Vec<Rgb>>,
}

pub struct LightmapView {
    pub colors: Seq<Seq<Rgb>>,
}

impl View for Lightmap {
    type V = LightmapView;

    open spec fn view(&self) -> LightmapView {
        LightmapView { colors: self.colors@.map_values(|row: Vec<Rgb>| row@) }
    }
}

/// A direction in spherical coordinates, one byte per angle.
#[derive(Debug, Clone, Copy, PartialEq, Eq, Structural)]
pub struct RotationDirection {
    pub phi: u8,
    pub theta: u8,
}

/// A cell of the light grid.
#[derive(Debug, Clone, Copy, PartialEq, Eq)]
pub struct LightVolume {
    pub ambient: Rgb,
    pub directional: Rgb,
    pub direction: RotationDirection,
}

/// The visibility bit vectors: `num_vectors` vectors of `sizeof_vector` bytes each.
#[derive(Debug, PartialEq, Eq)]
pub struct RawVisibilityData {
    pub num_vectors: i32,
    pub sizeof_vector: i32,
    pub raw_bytes: Vec<u8>,
}

pub struct RawVisibilityDataView {
    pub num_vectors: i32,
    pub sizeof_vector: i32,
    pub raw_bytes: Seq<u8>,
}

impl View for RawVisibilityData {
    type V = RawVisibilityDataView;

    open spec fn view(&self) -> RawVisibilityDataView {
        RawVisibilityDataView {
            num_vectors: self.num_vectors,
            sizeof_vector: self.sizeof_vector,
            raw_bytes: self.raw_bytes@,
        }
    }
}

impl View for Plane {
    type V = Plane;

    open spec fn view(&self) -> Plane {
        *self
    }
}

impl View for RawNode {
    type V = RawNode;

    open spec fn view(&self) -> RawNode {
        *self
    }
}

impl View for RawLeaf {
    type V = RawLeaf;

    open spec fn view(&self) -> RawLeaf {
        *self
    }
}

impl View for RawLeafFace {
    type V = RawLeafFace;

    open spec fn view(&self) -> RawLeafFace {
        *self
    }
}

impl View for RawLeafBrush {
    type V = RawLeafBrush;

    open spec fn view(&self) -> RawLeafBrush {
        *self
    }
}

impl View for RawModel {
    type V = RawModel;

    open spec fn view(&self) -> RawModel {
        *self
    }
}

impl View for RawBrush {
    type V = RawBrush;

    open spec fn view(&self) -> RawBrush {
        *self
    }
}

impl View for RawBrushSide {
    type V = RawBrushSide;

    open spec fn view(&self) -> RawBrushSide {
        *self
    }
}

impl View for Vertex {
    type V = Vertex;

    open spec fn view(&self) -> Vertex {
        *self
    }
}

impl View for RawMeshVert {
    type V = RawMeshVert;

    open spec fn view(&self) -> RawMeshVert {
        *self
    }
}

impl View for LightVolume {
    type V = LightVolume;

    open spec fn view(&self) -> LightVolume {
        *self
    }
}

impl View for RotationDirection {
    type V = RotationDirection;

    open spec fn view(&self) -> RotationDirection {
        *self
    }
}

impl View for RawFace {
    type V = RawFace;

    open spec fn view(&self) -> RawFace {
        *self
    }
}

impl View for FaceType {
    type V = FaceType;

    open spec fn view(&self) -> FaceType {
        *self
    }
}

} // verus!

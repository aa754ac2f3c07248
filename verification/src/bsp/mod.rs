//! The level as a navigable tree: nodes split space by planes, leaves hold
//! the faces and brushes of a visibility cluster and the clusters visible
//! from it.
//!
//! Nodes and leaves live in vectors and refer to each other by index; the
//! root is the first node.  Faces refer to textures and lightmaps by their
//! index in the file's texture and lightmap lumps.
use vstd::prelude::*;
use crate::helpers::{IVec3, Vec3, views};
use crate::raw_bsp::{Plane, Vertex};
use crate::texture_flags::{ContentFlags, SurfaceFlags};

pub mod transform;

verus! {

/// A level ready to be walked and drawn.
#[derive(Debug, PartialEq, Eq)]
pub struct Bsp {
    pub vertices: Vec<Vertex>,
    pub world: Model,
    pub nodes: Vec<NonTerminal>,
    pub leaves: Vec<Leaf>,
}

pub struct BspView {
    pub vertices: Seq<Vertex>,
    pub world: ModelView,
    pub nodes: Seq<NonTerminal>,
    pub leaves: Seq<LeafView>,
}

impl View for Bsp {
    type V = BspView;

    open spec fn view(&self) -> BspView {
        BspView {
            vertices: self.vertices@,
            world: self.world@,
            nodes: self.nodes@,
            leaves: views(self.leaves@),
        }
    }
}

/// Where a walk down the tree goes from a node.
#[derive(Debug, Clone, Copy, PartialEq, Eq, Structural)]
pub enum Descent {
    /// On to another node, by index.
    Node(usize),
    /// The walk ends in a leaf, by index.
    Leaf(usize),
    /// The point lies outside the map.
    Outside,
}

/// Where a walk goes from `node` when the point is outside the node's
/// bounds (`outside`) or behind its plane (`behind`).
pub open spec fn descent(node: NonTerminal, outside: bool, behind: bool) -> Descent {
    if outside {
        Descent::Outside
    } else {
        match if behind { node.back } else { node.front } {
            BspTreeNode::NonTerminal(i) => Descent::Node(i),
            BspTreeNode::Leaf(l) => Descent::Leaf(l),
            BspTreeNode::Empty => Descent::Outside,
        }
    }
}

/// The child of `node` on the side of its plane where the point lies.
pub open spec fn child_on_side(node: NonTerminal, behind: bool) -> BspTreeNode {
    if behind {
        node.back
    } else {
        node.front
    }
}

/// A step of the walk goes on to node `i` exactly when the point is inside
/// the node's bounds and the child on the point's side is node `i`; it ends
/// in leaf `l` exactly when the point is inside and that child is leaf `l`;
/// and it leaves the map exactly when the point is outside the node's
/// bounds or that child is empty.
pub proof fn lemma_descent_follows_the_chosen_child(node: NonTerminal, outside: bool, behind: bool)
    ensures
        descent(node, outside, behind) matches Descent::Node(i) ==> !outside && child_on_side(node, behind)
            == BspTreeNode::NonTerminal(i),
        descent(node, outside, behind) matches Descent::Leaf(l) ==> !outside && child_on_side(node, behind)
            == BspTreeNode::Leaf(l),
        !outside ==> (child_on_side(node, behind) matches BspTreeNode::NonTerminal(i) ==> descent(
            node,
            outside,
            behind,
        ) == Descent::Node(i)),
        !outside ==> (child_on_side(node, behind) matches BspTreeNode::Leaf(l) ==> descent(node, outside, behind)
            == Descent::Leaf(l)),
        descent(node, outside, behind) == Descent::Outside <==> (outside || child_on_side(node, behind)
            == BspTreeNode::Empty),
{
}

impl Bsp {
    /// A level of the given nodes (the first is the root), leaves, world
    /// model and vertices.
    pub fn new(nodes: Vec<NonTerminal>, leaves: Vec<Leaf>, world: Model, verts: Vec<Vertex>) -> (b: Bsp)
        ensures
            b.nodes == nodes,
            b.leaves == leaves,
            b.world == world,
            b.vertices == verts,
    {
        Bsp { vertices: verts, world, nodes, leaves }
    }

    /// The vertices that faces refer to.
    pub fn get_vertices(&self) -> (r: &[Vertex])
        ensures
            r@ == self.vertices@,
    {
        self.vertices.as_slice()
    }

    /// The faces of the world model.
    pub fn get_world(&self) -> (r: &[Face])
        ensures
            views(r@) == self@.world.faces,
    {
        self.world.faces.as_slice()
    }

    /// The bounds of the root node.
    pub fn get_bounds(&self) -> (r: (IVec3, IVec3))
        requires
            self.nodes.len() > 0,
        ensures
            r == self.nodes@[0].bounds,
    {
        self.nodes[0].bounds
    }

    /// The leaves visible from `leaf`: those its visibility data lists, then
    /// `leaf` itself.
    pub fn get_visible_set_of(&self, leaf: usize) -> (r: Vec<usize>)
        requires
            leaf < self.leaves.len(),
        ensures
            r@ == self.leaves@[leaf as int].visdata@.push(leaf),
    {
        let mut out = self.leaves[leaf].visdata.clone();
        out.push(leaf);
        out
    }

    /// One step of the walk from the root towards the leaf that holds a
    /// point, given whether the point is outside `node`'s bounds and whether
    /// it lies behind `node`'s plane.
    pub fn descend(&self, node: usize, outside: bool, behind: bool) -> (r: Descent)
        requires
            node < self.nodes.len(),
        ensures
            r == descent(self.nodes@[node as int], outside, behind),
    {
        if outside {
            return Descent::Outside;
        }
        let n = &self.nodes[node];
        let child = if behind { n.back } else { n.front };
        match child {
            BspTreeNode::NonTerminal(i) => Descent::Node(i),
            BspTreeNode::Leaf(l) => Descent::Leaf(l),
            BspTreeNode::Empty => Descent::Outside,
        }
    }
}

/// What a child link of a node leads to.
#[derive(Debug, Clone, Copy, PartialEq, Eq, Structural)]
pub enum BspTreeNode {
    /// Another node, by index.
    NonTerminal(usize),
    /// A leaf, by index.
    Leaf(usize),
    /// Nothing: space outside the map.
    Empty,
}

/// A node: its splitting plane, its bounds and its two children.
#[derive(Debug, Clone, Copy, PartialEq, Eq)]
pub struct NonTerminal {
    pub plane: Plane,
    pub bounds: (IVec3, IVec3),
    pub front: BspTreeNode,
    pub back: BspTreeNode,
}

impl View for NonTerminal {
    type V = NonTerminal;

    open spec fn view(&self) -> NonTerminal {
        *self
    }
}

/// A leaf: one visibility cluster with its faces and brushes, and the
/// indices of the leaves visible from it.
#[derive(Debug, PartialEq, Eq)]
pub struct Leaf {
    pub cluster: isize,
    pub visdata: Vec<usize>,
    pub faces: Vec<Face>,
    pub brushes: Vec<Brush>,
}

pub struct LeafView {
    pub cluster: isize,
    pub visdata: Seq<usize>,
    pub faces: Seq<FaceView>,
    pub brushes: Seq<BrushView>,
}

impl View for Leaf {
    type V = LeafView;

    open spec fn view(&self) -> LeafView {
        LeafView {
            cluster: self.cluster,
            visdata: self.visdata@,
            faces: views(self.faces@),
            brushes: views(self.brushes@),
        }
    }
}

/// A face to draw: its texture and lightmap (by index) and how it is drawn.
#[derive(Debug, PartialEq, Eq)]
pub struct Face {
    pub texture: usize,
    pub lightmap: Option<usize>,
    pub render_type: FaceRenderType,
}

pub struct FaceView {
    pub texture: usize,
    pub lightmap: Option<usize>,
    pub render_type: RenderTypeView,
}

impl View for Face {
    type V = FaceView;

    open spec fn view(&self) -> FaceView {
        FaceView { texture: self.texture, lightmap: self.lightmap, render_type: self.render_type@ }
    }
}

/// How a face is drawn.
#[derive(Debug, PartialEq, Eq)]
pub enum FaceRenderType {
    /// Curved patches, each given by the indices of its nine control vertices.
    Patch(Vec<[usize; 9]>),
    /// Triangles, given by vertex indices.
    Mesh(Vec<usize>),
    Billboard(usize),
}

pub enum RenderTypeView {
    Patch(Seq<[usize; 9]>),
    Mesh(Seq<usize>),
    Billboard(usize),
}

impl View for FaceRenderType {
    type V = RenderTypeView;

    open spec fn view(&self) -> RenderTypeView {
        match self {
            FaceRenderType::Patch(p) => RenderTypeView::Patch(p@),
            FaceRenderType::Mesh(m) => RenderTypeView::Mesh(m@),
            FaceRenderType::Billboard(b) => RenderTypeView::Billboard(*b),
        }
    }
}

/// A model: its bounds, faces and brushes.
#[derive(Debug, PartialEq, Eq)]
pub struct Model {
    pub min: Vec3,
    pub max: Vec3,
    pub faces: Vec<Face>,
    pub brushes: Vec<Brush>,
}

pub struct ModelView {
    pub min: Vec3,
    pub max: Vec3,
    pub faces: Seq<FaceView>,
    pub brushes: Seq<BrushView>,
}

impl View for Model {
    type V = ModelView;

    open spec fn view(&self) -> ModelView {
        ModelView {
            min: self.min,
            max: self.max,
            faces: views(self.faces@),
            brushes: views(self.brushes@),
        }
    }
}

/// A side of a brush: its plane and its surface flags.
#[derive(Debug, Clone, Copy, PartialEq, Eq)]
pub struct Surface {
    pub plane: Plane,
    pub surface_flags: SurfaceFlags,
}

impl View for Surface {
    type V = Surface;

    open spec fn view(&self) -> Surface {
        *self
    }
}

/// A convex solid: its sides and its content flags.
#[derive(Debug, PartialEq, Eq)]
pub struct Brush {
    pub surfaces: Vec<Surface>,
    pub content_flags: ContentFlags,
}

pub struct BrushView {
    pub surfaces: Seq<Surface>,
    pub content_flags: ContentFlags,
}

impl View for Brush {
    type V = BrushView;

    open spec fn view(&self) -> BrushView {
        BrushView { surfaces: self.surfaces@, content_flags: self.content_flags }
    }
}

} // verus!

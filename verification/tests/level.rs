use q3bsp::bsp::transform::{
    build_brush, build_bsp, build_face, build_leaves, build_model, build_nodes, build_patches,
    get_bsp_tree_node, get_indices, get_offset_grid, root_is_held, tessellation_indices_of,
    try_build_bsp,
};
use q3bsp::bsp::{BspTreeNode, Descent, FaceRenderType, Surface};
use q3bsp::directory_header::{DirectoryEntry, DirectoryHeader};
use q3bsp::entity::{Entity, EntityValue};
use q3bsp::raw_bsp::{
    FaceType, Plane, RawBrush, RawBrushSide, RawBsp, RawFace, RawLeaf, RawLeafBrush, RawLeafFace,
    RawMeshVert, RawModel, RawNode, RawVisibilityData, Texture, Vertex,
};
use q3bsp::texture_flags::{ContentFlags, SurfaceFlags, SKY, SOLID3};

#[test]
fn set_bits_of_visibility_vectors() {
    assert_eq!(get_indices(&[]), Vec::<usize>::new());
    assert_eq!(get_indices(&[0]), Vec::<usize>::new());
    assert_eq!(get_indices(&[0b0000_0101]), vec![0, 2]);
    assert_eq!(get_indices(&[0x80, 0x01]), vec![7, 8]);
    assert_eq!(get_indices(&[0xff]), vec![0, 1, 2, 3, 4, 5, 6, 7]);
    assert_eq!(get_indices(&[0, 0, 0x10]), vec![20]);
}

#[test]
fn control_grid_of_a_patch() {
    assert_eq!(get_offset_grid(0, 0, 3), [0, 1, 2, 3, 4, 5, 6, 7, 8]);
    assert_eq!(get_offset_grid(1, 0, 5), [2, 3, 4, 7, 8, 9, 12, 13, 14]);
    assert_eq!(get_offset_grid(0, 1, 5), [10, 11, 12, 15, 16, 17, 20, 21, 22]);
}

#[test]
fn patches_of_a_face() {
    assert_eq!(build_patches([3, 3], 9), Some(vec![[0, 1, 2, 3, 4, 5, 6, 7, 8]]));
    assert_eq!(build_patches([3, 3], 8), None);
    let p = build_patches([5, 3], 15).unwrap();
    assert_eq!(p, vec![[0, 1, 2, 5, 6, 7, 10, 11, 12], [2, 3, 4, 7, 8, 9, 12, 13, 14]]);
    let p = build_patches([3, 5], 15).unwrap();
    assert_eq!(p, vec![[0, 1, 2, 3, 4, 5, 6, 7, 8], [6, 7, 8, 9, 10, 11, 12, 13, 14]]);
    assert_eq!(build_patches([1, 7], 0), Some(vec![]));
    assert_eq!(build_patches([i32::MIN, 3], 100), None);
}

#[test]
fn tessellation_indices() {
    let idx = tessellation_indices_of(12);
    assert_eq!(idx.len(), 13 * 3);
    assert_eq!(&idx[..6], &[26, 13, 0, 27, 14, 1]);
    assert_eq!(&idx[36..], &[38, 25, 12]);
    assert_eq!(tessellation_indices_of(1), Vec::<u16>::new());
    assert_eq!(tessellation_indices_of(2), vec![6, 3, 0, 7, 4, 1, 8, 5, 2]);
}

fn plane() -> Plane {
    Plane { normal: [0, 0, 1.0f32.to_bits()], distance: 0 }
}

fn vertex(x: f32) -> Vertex {
    Vertex {
        position: [x.to_bits(), 0, 0],
        surface_coords: [0, 0],
        lightmap_coords: [0, 0],
        normal: [0, 0, 1.0f32.to_bits()],
        color: [255, 255, 255, 255],
    }
}

fn face(t: FaceType) -> RawFace {
    RawFace {
        texture_index: 0,
        effect_index: -1,
        face_type: t,
        first_vertex: 10,
        num_vertexes: 3,
        first_mesh_vertex: 0,
        num_mesh_vertices: 3,
        lightmap_index: -1,
        lightmap_start: [0, 0],
        lightmap_size: [0, 0],
        lightmap_origin: [0, 0, 0],
        lightmap_vecs: ([0, 0, 0], [0, 0, 0]),
        normal: [0, 0, 0],
        size: [3, 3],
    }
}

fn leaf(cluster: i32, first_face: i32, faces: i32, first_brush: i32, brushes: i32) -> RawLeaf {
    RawLeaf {
        visdata_cluster: cluster,
        areaportal_area: 0,
        min: [0, 0, 0],
        max: [0, 0, 0],
        first_leaf_face: first_face,
        num_leaf_faces: faces,
        first_leaf_brush: first_brush,
        num_leaf_brushes: brushes,
    }
}

fn texture(surface: u32, content: u32) -> Texture {
    Texture {
        name: "textures/base".to_string(),
        surface_flags: SurfaceFlags::from_bits_truncate(surface),
        content_flags: ContentFlags::from_bits_truncate(content),
    }
}

fn empty_entry() -> DirectoryEntry {
    DirectoryEntry { offset: 0, size: 0 }
}

fn header() -> DirectoryHeader {
    let e = empty_entry();
    DirectoryHeader {
        version: 0x2e,
        entities: e,
        textures: e,
        planes: e,
        nodes: e,
        leaves: e,
        leaf_faces: e,
        leaf_brushes: e,
        models: e,
        brushes: e,
        brush_sides: e,
        vertices: e,
        mesh_vertices: e,
        effects: e,
        faces: e,
        light_maps: e,
        light_volumes: e,
        visibility_data: e,
    }
}

/// One node splitting two clusters, each seeing the other; a third leaf
/// outside the map.
fn small_level() -> RawBsp {
    RawBsp {
        header: header(),
        entities: vec![Entity { parameters: vec![("classname".to_string(), EntityValue::Text("worldspawn".to_string()))] }],
        textures: vec![texture(SKY, SOLID3)],
        planes: vec![plane()],
        nodes: vec![RawNode { plane: 0, children: (-1, -2), min: [-8, -8, -8], max: [8, 8, 8] }],
        leaves: vec![leaf(0, 0, 1, 0, 1), leaf(1, 0, 2, 0, 1), leaf(-1, 0, 0, 0, 0)],
        leaf_faces: vec![RawLeafFace { index: 0 }, RawLeafFace { index: 1 }],
        leaf_brushes: vec![RawLeafBrush { index: 0 }],
        models: vec![RawModel {
            min: [0, 0, 0],
            max: [0, 0, 0],
            first_face: 0,
            num_faces: 2,
            first_brush: 0,
            num_brushes: 1,
        }],
        brushes: vec![RawBrush { first_brush_side: 0, num_brush_sides: 1, texture_index: 0 }],
        brush_sides: vec![RawBrushSide { plane_index: 0, texture_index: 0 }],
        vertices: (0..13).map(|i| vertex(i as f32)).collect(),
        mesh_vertices: vec![RawMeshVert { offset: 0 }, RawMeshVert { offset: 2 }, RawMeshVert { offset: 1 }],
        effects: vec![],
        faces: vec![face(FaceType::Polygon), face(FaceType::Billboard)],
        light_maps: vec![],
        light_volumes: vec![],
        visibility_data: vec![RawVisibilityData { num_vectors: 2, sizeof_vector: 1, raw_bytes: vec![0b10, 0b01] }],
    }
}

#[test]
fn faces_are_built_from_their_records() {
    let raw = small_level();
    let f = build_face(&raw.faces[0], &raw.mesh_vertices, 13, 1, 0).unwrap();
    assert_eq!(f.texture, 0);
    assert_eq!(f.lightmap, None);
    assert_eq!(f.render_type, FaceRenderType::Mesh(vec![10, 12, 11]));
    let b = build_face(&raw.faces[1], &raw.mesh_vertices, 13, 1, 0).unwrap();
    assert_eq!(b.render_type, FaceRenderType::Billboard(0));

    let mut with_lightmap = face(FaceType::Mesh);
    with_lightmap.lightmap_index = 2;
    assert!(build_face(&with_lightmap, &raw.mesh_vertices, 13, 1, 2).is_none());
    assert_eq!(build_face(&with_lightmap, &raw.mesh_vertices, 13, 1, 3).unwrap().lightmap, Some(2));

    let mut bad_texture = face(FaceType::Polygon);
    bad_texture.texture_index = 1;
    assert!(build_face(&bad_texture, &raw.mesh_vertices, 13, 1, 0).is_none());

    let mut past_mesh = face(FaceType::Polygon);
    past_mesh.first_mesh_vertex = 1;
    assert!(build_face(&past_mesh, &raw.mesh_vertices, 13, 1, 0).is_none());

    let mut overflow = face(FaceType::Polygon);
    overflow.first_vertex = i32::MAX;
    assert!(build_face(&overflow, &raw.mesh_vertices, 13, 1, 0).is_none());

    let patch = face(FaceType::Patch);
    let p = build_face(&patch, &raw.mesh_vertices, 9, 1, 0).unwrap();
    assert_eq!(p.render_type, FaceRenderType::Patch(vec![[0, 1, 2, 3, 4, 5, 6, 7, 8]]));
    assert!(build_face(&patch, &raw.mesh_vertices, 8, 1, 0).is_none());
}

#[test]
fn models_and_brushes() {
    let raw = small_level();
    let m = build_model(&raw.models[0], &raw.faces, &raw.mesh_vertices, 13, 1, 0).unwrap();
    assert_eq!(m.faces.len(), 2);
    assert!(m.brushes.is_empty());
    let mut too_many = raw.models[0];
    too_many.num_faces = 3;
    assert!(build_model(&too_many, &raw.faces, &raw.mesh_vertices, 13, 1, 0).is_none());

    let b = build_brush(&raw.brushes[0], &raw.brush_sides, &raw.planes, &raw.textures).unwrap();
    assert_eq!(b.surfaces, vec![Surface { plane: plane(), surface_flags: SurfaceFlags::from_bits_truncate(SKY) }]);
    assert_eq!(b.content_flags, ContentFlags::from_bits_truncate(SOLID3));
    let bad = RawBrush { first_brush_side: 0, num_brush_sides: 2, texture_index: 0 };
    assert!(build_brush(&bad, &raw.brush_sides, &raw.planes, &raw.textures).is_none());
}

#[test]
fn leaves_one_per_cluster() {
    let raw = small_level();
    let leaves = build_leaves(&raw).unwrap();
    // the cluster -1 leaf lies outside the map and is dropped
    assert_eq!(leaves.len(), 2);
    assert_eq!(leaves[0].cluster, 0);
    assert_eq!(leaves[0].visdata, vec![1]);
    assert_eq!(leaves[0].faces.len(), 1);
    assert_eq!(leaves[0].brushes.len(), 1);
    assert_eq!(leaves[1].cluster, 1);
    assert_eq!(leaves[1].visdata, vec![0]);
    // faces and brushes are paired off: one brush, so one face
    assert_eq!(leaves[1].faces.len(), 1);
    assert_eq!(leaves[1].brushes.len(), 1);
}

#[test]
fn tree_links() {
    let raw = small_level();
    assert_eq!(get_bsp_tree_node(-1, &raw.leaves, 2, 1), Some(BspTreeNode::Leaf(0)));
    assert_eq!(get_bsp_tree_node(-2, &raw.leaves, 2, 1), Some(BspTreeNode::Leaf(1)));
    assert_eq!(get_bsp_tree_node(-3, &raw.leaves, 2, 1), Some(BspTreeNode::Empty));
    assert_eq!(get_bsp_tree_node(-4, &raw.leaves, 2, 1), None);
    assert_eq!(get_bsp_tree_node(0, &raw.leaves, 2, 1), Some(BspTreeNode::NonTerminal(0)));
    assert_eq!(get_bsp_tree_node(1, &raw.leaves, 2, 1), None);
    assert_eq!(get_bsp_tree_node(-2, &raw.leaves, 1, 1), None);
    assert_eq!(get_bsp_tree_node(i32::MIN, &raw.leaves, 2, 1), None);

    let nodes = build_nodes(&raw, 2).unwrap();
    assert_eq!(nodes.len(), 1);
    assert_eq!(nodes[0].front, BspTreeNode::Leaf(0));
    assert_eq!(nodes[0].back, BspTreeNode::Leaf(1));
    assert_eq!(nodes[0].bounds, ([-8, -8, -8], [8, 8, 8]));
    assert_eq!(nodes[0].plane, plane());
}

#[test]
fn whole_level() {
    let (entities, bsp) = build_bsp(small_level());
    assert_eq!(entities.len(), 1);
    assert_eq!(bsp.get_vertices().len(), 13);
    assert_eq!(bsp.get_world().len(), 2);
    assert_eq!(bsp.get_bounds(), ([-8, -8, -8], [8, 8, 8]));
    assert_eq!(bsp.leaves.len(), 2);
    assert_eq!(bsp.get_visible_set_of(0), vec![1, 0]);
    assert_eq!(bsp.get_visible_set_of(1), vec![0, 1]);
    assert_eq!(bsp.descend(0, false, false), Descent::Leaf(0));
    assert_eq!(bsp.descend(0, false, true), Descent::Leaf(1));
    assert_eq!(bsp.descend(0, true, false), Descent::Outside);
}

#[test]
fn levels_that_cannot_be_built() {
    let mut no_nodes = small_level();
    no_nodes.nodes.clear();
    assert!(try_build_bsp(no_nodes).is_none());

    let mut loop_to_root = small_level();
    loop_to_root.nodes[0].children = (0, -1);
    assert!(try_build_bsp(loop_to_root).is_none());

    let mut bad_plane = small_level();
    bad_plane.nodes[0].plane = 1;
    assert!(try_build_bsp(bad_plane).is_none());

    let mut no_model = small_level();
    no_model.models.clear();
    assert!(try_build_bsp(no_model).is_none());

    let mut no_leaves = small_level();
    no_leaves.leaves.clear();
    assert!(try_build_bsp(no_leaves).is_none());

    let mut no_visibility = small_level();
    no_visibility.visibility_data.clear();
    assert!(try_build_bsp(no_visibility).is_none());

    let mut sees_too_far = small_level();
    sees_too_far.visibility_data[0].raw_bytes = vec![0b100, 0b01];
    assert!(try_build_bsp(sees_too_far).is_none());

    let mut bad_run = small_level();
    bad_run.leaves[0].num_leaf_faces = 5;
    assert!(try_build_bsp(bad_run).is_none());

    assert!(try_build_bsp(small_level()).is_some());
}

fn node(front: i32, back: i32) -> RawNode {
    RawNode { plane: 0, children: (front, back), min: [-8, -8, -8], max: [8, 8, 8] }
}

#[test]
fn root_held_only_by_live_nodes() {
    // nothing links to the root
    assert!(!root_is_held(&vec![node(-1, -2), node(-1, -1)]));
    // the root links to itself
    assert!(root_is_held(&vec![node(0, -1)]));
    // a node reachable from the root links back to it
    assert!(root_is_held(&vec![node(1, -1), node(0, -2)]));
    // an unreachable node, on no cycle, links to the root: it is let go
    assert!(!root_is_held(&vec![node(-1, -2), node(0, -1)]));
    // an unreachable chain, on no cycle, ends at the root
    assert!(!root_is_held(&vec![node(-1, -2), node(0, -1), node(1, 1)]));
    // two nodes hold each other, and one of them links to the root
    assert!(root_is_held(&vec![node(-1, -2), node(2, -1), node(1, 0)]));
    // a cycle off to the side that does not reach the root
    assert!(!root_is_held(&vec![node(-1, -2), node(2, -1), node(1, -1)]));
    assert!(!root_is_held(&vec![]));
}

#[test]
fn unreachable_link_to_root_still_builds() {
    let mut level = small_level();
    level.nodes.push(node(0, -1));
    let (_, bsp) = try_build_bsp(level).unwrap();
    assert_eq!(bsp.nodes.len(), 2);
    assert_eq!(bsp.nodes[1].front, BspTreeNode::NonTerminal(0));

    let mut held = small_level();
    held.nodes.push(node(2, -1));
    held.nodes.push(node(1, 0));
    assert!(try_build_bsp(held).is_none());
}

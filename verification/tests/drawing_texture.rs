use q3bsp::bsp::{Face, FaceRenderType};
use q3bsp::drawing::{draw_batches, get_indices_from_faces};
use q3bsp::raw_bsp;
use q3bsp::texture::{
    build_textures, get_extensions, get_search_order, image_kinds, merge_loaded, misses, search_step, ImageKind,
    Probe, SearchStep, Texture,
};
use q3bsp::texture_flags::{ContentFlags, SurfaceFlags, NODRAW, SKY};

fn mesh(texture: usize, idx: Vec<usize>) -> Face {
    Face { texture, lightmap: None, render_type: FaceRenderType::Mesh(idx) }
}

#[test]
fn indices_of_mesh_faces_only() {
    let a = mesh(0, vec![1, 2, 3]);
    let p = Face { texture: 0, lightmap: Some(1), render_type: FaceRenderType::Patch(vec![[0; 9]]) };
    let b = mesh(0, vec![70000, 4]);
    let bb = Face { texture: 0, lightmap: None, render_type: FaceRenderType::Billboard(0) };
    assert_eq!(get_indices_from_faces(&[&a, &p, &b, &bb]), vec![1, 2, 3, 4464, 4]);
    assert_eq!(get_indices_from_faces(&[]), Vec::<u16>::new());
    assert_eq!(get_indices_from_faces(&[&p]), Vec::<u16>::new());
}

#[test]
fn batches_by_texture_group() {
    let f0 = mesh(0, vec![0, 1, 2]);
    let f1 = mesh(1, vec![3, 4, 5]);
    let f2 = mesh(0, vec![6, 7, 8]);
    let f3 = mesh(2, vec![9, 10, 11]);
    let faces = [&f0, &f1, &f2, &f3];
    let b = draw_batches(&faces, &[true, true, false], &[0, 1, 0]);
    assert_eq!(b, vec![(0, vec![0, 1, 2, 6, 7, 8]), (1, vec![3, 4, 5])]);
    // textures 0 and 1 share a picture, so they share a batch
    let b = draw_batches(&faces, &[true, true, true], &[0, 0, 2]);
    assert_eq!(b, vec![(0, vec![0, 1, 2, 3, 4, 5, 6, 7, 8]), (2, vec![9, 10, 11])]);
    // batches come in the order their groups first appear
    let b = draw_batches(&[&f1, &f0], &[true, true, true], &[5, 3, 4]);
    assert_eq!(b, vec![(3, vec![3, 4, 5]), (5, vec![0, 1, 2])]);
    let b = draw_batches(&faces, &[false, false, false], &[0, 1, 2]);
    assert!(b.is_empty());
}

fn raw_texture(surface: u32) -> raw_bsp::Texture {
    raw_bsp::Texture {
        name: "textures/x".to_string(),
        surface_flags: SurfaceFlags::from_bits_truncate(surface),
        content_flags: ContentFlags::empty(),
    }
}

#[test]
fn textures_pair_pictures_with_flags() {
    let raw = vec![raw_texture(SKY), raw_texture(NODRAW)];
    let t = build_textures(vec![Some("sky"), Some("clip")], &raw).unwrap();
    assert_eq!(t.len(), 2);
    assert_eq!(t[0].texture, "sky");
    assert_eq!(t[0].surface_flags, SurfaceFlags::from_bits_truncate(SKY));
    assert!(!t[1].surface_flags.should_draw());
    assert!(build_textures(vec![Some("sky"), None], &raw).is_err());
    assert_eq!(build_textures(vec![Some(1u8), Some(2), None], &raw).map(|v| v.len()), Ok(2));
    assert_eq!(build_textures::<u8>(vec![], &raw).map(|v| v.len()), Ok(0));
    let one = Texture::create_texture(7u32, SurfaceFlags::empty());
    assert_eq!(one.texture, 7);
}

#[test]
fn image_formats_in_order() {
    assert_eq!(
        image_kinds(),
        [
            ImageKind::Png,
            ImageKind::Jpeg,
            ImageKind::Gif,
            ImageKind::Webp,
            ImageKind::Ppm,
            ImageKind::Tiff,
            ImageKind::Tga,
            ImageKind::Bmp,
            ImageKind::Ico,
        ]
    );
    assert_eq!(get_extensions(ImageKind::Jpeg), vec!["jpeg", "jpg"]);
    assert_eq!(get_extensions(ImageKind::Tga), vec!["tga"]);
    assert_eq!(get_extensions(ImageKind::Png), vec!["png"]);
}

#[test]
fn requests_answered_from_cache_loader_or_fallback() {
    let cached = vec![Some("a"), None, Some("c"), None, None];
    assert_eq!(misses(&cached), vec![1, 3, 4]);
    let out = merge_loaded(cached, vec![Some("b"), None, Some("e")], &Some("missing"));
    assert_eq!(out, vec![Some("a"), Some("b"), Some("c"), Some("missing"), Some("e")]);
    let out = merge_loaded(vec![None, Some(2u8)], vec![None], &None);
    assert_eq!(out, vec![None, Some(2)]);
    assert_eq!(misses::<u8>(&[]), Vec::<usize>::new());
}

#[test]
fn search_order_roots_then_formats_then_extensions() {
    assert!(get_search_order(0).is_empty());
    let one = get_search_order(1);
    assert_eq!(one.len(), 10);
    assert_eq!(one[0], (0, ImageKind::Png, "png"));
    assert_eq!(one[1], (0, ImageKind::Jpeg, "jpeg"));
    assert_eq!(one[2], (0, ImageKind::Jpeg, "jpg"));
    assert_eq!(one[3], (0, ImageKind::Gif, "gif"));
    assert_eq!(one[9], (0, ImageKind::Ico, "ico"));
    let two = get_search_order(2);
    assert_eq!(two.len(), 20);
    assert_eq!(two[9], (0, ImageKind::Ico, "ico"));
    assert_eq!(two[10], (1, ImageKind::Png, "png"));
    assert_eq!(two[16], (1, ImageKind::Tiff, "tiff"));
    assert_eq!(two[17], (1, ImageKind::Tga, "tga"));
    assert_eq!(two[19], (1, ImageKind::Ico, "ico"));
}

#[test]
fn search_steps() {
    assert_eq!(search_step(0, 10, Probe::Missing), SearchStep::Next(1));
    assert_eq!(search_step(3, 10, Probe::Present), SearchStep::Found(3));
    assert_eq!(search_step(3, 10, Probe::Unusable), SearchStep::NotFound);
    assert_eq!(search_step(9, 10, Probe::Missing), SearchStep::NotFound);
    assert_eq!(search_step(9, 10, Probe::Present), SearchStep::Found(9));
}

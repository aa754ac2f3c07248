//! Textures: which image files are looked for, how a batch of requests is
//! answered from the cache, the loader and the fallback picture, and how
//! loaded pictures are paired with the surface flags of the level's texture
//! records.  The pictures themselves are held as a handle of the graphics
//! side (`T`); reading files and uploading pictures happen there.
use vstd::prelude::*;
use crate::raw_bsp;
use crate::texture_flags::SurfaceFlags;

verus! {

/// A texture ready to draw: the picture and the surface flags of the faces
/// that use it.
pub struct Texture<T> {
    pub texture: T,
    pub surface_flags: SurfaceFlags,
}

impl<T> Texture<T> {
    /// A texture of picture `texture` for surfaces with `flags`.
    pub fn create_texture(texture: T, flags: SurfaceFlags) -> (r: Texture<T>)
        ensures
            r.texture == texture,
            r.surface_flags == flags,
    {
        Texture { texture, surface_flags: flags }
    }
}

pub open spec fn min(a: int, b: int) -> int {
    if a < b {
        a
    } else {
        b
    }
}

/// Pairs each loaded picture with the surface flags of its texture record,
/// as many as both lists hold; fails when one of those pictures is missing.
pub fn build_textures<T>(loaded: Vec<Option<T>>, raw: &[raw_bsp::Texture]) -> (r: Result<Vec<Texture<T>>, ()>)
    ensures
        r is Ok <==> forall|i: int| 0 <= i < min(loaded@.len() as int, raw@.len() as int) ==> (#[trigger] loaded@[i]) is Some,
        r matches Ok(v) ==> {
            &&& v@.len() == min(loaded@.len() as int, raw@.len() as int)
            &&& forall|i: int|
                0 <= i < v@.len() ==> (#[trigger] v@[i]).texture == loaded@[i]->Some_0 && v@[i].surface_flags
                    == raw@[i].surface_flags
        },
{
    let ghost given = loaded@;
    let mut pics = loaded;
    let n = if pics.len() < raw.len() { pics.len() } else { raw.len() };
    let mut out: Vec<Texture<T>> = Vec::new();
    let mut i: usize = 0;
    while i < n
        invariant
            i <= n,
            n == min(given.len() as int, raw@.len() as int),
            given == loaded@,
            pics@.len() == given.len(),
            forall|j: int| i <= j < given.len() ==> #[trigger] pics@[j] == given[j],
            forall|j: int| 0 <= j < i ==> (#[trigger] given[j]) is Some,
            out@.len() == i,
            forall|j: int|
                0 <= j < i ==> (#[trigger] out@[j]).texture == given[j]->Some_0 && out@[j].surface_flags
                    == raw@[j].surface_flags,
        decreases n - i,
    {
        let o = pics[i].take();
        match o {
            Some(t) => {
                out.push(Texture::create_texture(t, raw[i].surface_flags));
            },
            None => {
                assert(loaded@[i as int] is None);
                return Err(());
            },
        }
        i = i + 1;
    }
    Ok(out)
}

/// The image formats a texture file may have, in the order they are tried.
#[derive(Debug, Clone, Copy, PartialEq, Eq, Structural)]
pub enum ImageKind {
    Png,
    Jpeg,
    Gif,
    Webp,
    Ppm,
    Tiff,
    Tga,
    Bmp,
    Ico,
}

/// Every image format, in the order they are tried.
pub fn image_kinds() -> (r: [ImageKind; 9])
    ensures
        r@ == seq![
            ImageKind::Png,
            ImageKind::Jpeg,
            ImageKind::Gif,
            ImageKind::Webp,
            ImageKind::Ppm,
            ImageKind::Tiff,
            ImageKind::Tga,
            ImageKind::Bmp,
            ImageKind::Ico,
        ],
{
    let r = [
        ImageKind::Png,
        ImageKind::Jpeg,
        ImageKind::Gif,
        ImageKind::Webp,
        ImageKind::Ppm,
        ImageKind::Tiff,
        ImageKind::Tga,
        ImageKind::Bmp,
        ImageKind::Ico,
    ];
    assert(r@ =~= seq![
        ImageKind::Png,
        ImageKind::Jpeg,
        ImageKind::Gif,
        ImageKind::Webp,
        ImageKind::Ppm,
        ImageKind::Tiff,
        ImageKind::Tga,
        ImageKind::Bmp,
        ImageKind::Ico,
    ]);
    r
}

/// The file extensions of an image format, in the order they are tried.
pub open spec fn extensions_of(kind: ImageKind) -> Seq<&'static str> {
    match kind {
        ImageKind::Png => seq!["png"],
        ImageKind::Jpeg => seq!["jpeg", "jpg"],
        ImageKind::Gif => seq!["gif"],
        ImageKind::Webp => seq!["webp"],
        ImageKind::Ppm => seq!["ppm"],
        ImageKind::Tiff => seq!["tiff"],
        ImageKind::Tga => seq!["tga"],
        ImageKind::Bmp => seq!["bmp"],
        ImageKind::Ico => seq!["ico"],
    }
}

/// The file extensions of an image format, in the order they are tried.
pub fn get_extensions(kind: ImageKind) -> (r: Vec<&'static str>)
    ensures
        r@ == extensions_of(kind),
{
    let mut v: Vec<&'static str> = Vec::new();
    match kind {
        ImageKind::Png => v.push("png"),
        ImageKind::Jpeg => {
            v.push("jpeg");
            v.push("jpg");
        },
        ImageKind::Gif => v.push("gif"),
        ImageKind::Webp => v.push("webp"),
        ImageKind::Ppm => v.push("ppm"),
        ImageKind::Tiff => v.push("tiff"),
        ImageKind::Tga => v.push("tga"),
        ImageKind::Bmp => v.push("bmp"),
        ImageKind::Ico => v.push("ico"),
    }
    assert(v@ =~= extensions_of(kind));
    v
}

/// Every image format, in the order they are tried.
pub open spec fn all_kinds() -> Seq<ImageKind> {
    seq![
        ImageKind::Png,
        ImageKind::Jpeg,
        ImageKind::Gif,
        ImageKind::Webp,
        ImageKind::Ppm,
        ImageKind::Tiff,
        ImageKind::Tga,
        ImageKind::Bmp,
        ImageKind::Ico,
    ]
}

/// The formats of `kinds` in turn, each with each of its extensions in turn.
pub open spec fn kind_extensions(kinds: Seq<ImageKind>) -> Seq<(ImageKind, &'static str)>
    decreases kinds.len(),
{
    if kinds.len() == 0 {
        Seq::empty()
    } else {
        kind_extensions(kinds.drop_last()) + extensions_of(kinds.last()).map_values(
            |e: &'static str| (kinds.last(), e),
        )
    }
}

/// The files looked for when searching for a texture under `num_roots`
/// roots: every root in turn, and under each root every format in turn with
/// each of its extensions in turn, as (root, format, extension).
pub open spec fn search_order(num_roots: int) -> Seq<(usize, ImageKind, &'static str)> {
    let per = kind_extensions(all_kinds());
    Seq::new(
        (num_roots * per.len()) as nat,
        |i: int| ((i / per.len() as int) as usize, per[i % per.len() as int].0, per[i % per.len() as int].1),
    )
}

/// The formats and extensions tried under one root, in order.
fn formats_and_extensions() -> (r: Vec<(ImageKind, &'static str)>)
    ensures
        r@ == kind_extensions(all_kinds()),
{
    let kinds = image_kinds();
    let mut out: Vec<(ImageKind, &'static str)> = Vec::new();
    let mut k: usize = 0;
    assert(all_kinds().take(0) =~= Seq::<ImageKind>::empty());
    while k < 9
        invariant
            k <= 9,
            kinds@ == all_kinds(),
            out@ == kind_extensions(all_kinds().take(k as int)),
        decreases 9 - k,
    {
        let kind = kinds[k];
        let exts = get_extensions(kind);
        let ghost before = out@;
        let mut j: usize = 0;
        while j < exts.len()
            invariant
                j <= exts@.len(),
                exts@ == extensions_of(kind),
                out@ == before + exts@.take(j as int).map_values(|e: &'static str| (kind, e)),
            decreases exts@.len() - j,
        {
            out.push((kind, exts[j]));
            j = j + 1;
            assert(exts@.take(j as int).map_values(|e: &'static str| (kind, e)) =~= exts@.take(j - 1).map_values(
                |e: &'static str| (kind, e),
            ).push((kind, exts@[j - 1])));
        }
        assert(exts@.take(j as int) =~= exts@);
        assert(all_kinds().take(k + 1).drop_last() =~= all_kinds().take(k as int));
        k = k + 1;
    }
    assert(all_kinds().take(9) =~= all_kinds());
    out
}

/// The files to look for, in order, when searching for a texture under
/// `num_roots` roots: (root, format, extension) triples, every root in turn,
/// and under each every format with each of its extensions in turn.
pub fn get_search_order(num_roots: usize) -> (r: Vec<(usize, ImageKind, &'static str)>)
    requires
        num_roots * 10 <= usize::MAX,
    ensures
        r@ == search_order(num_roots as int),
{
    let per = formats_and_extensions();
    let ghost ke = kind_extensions(all_kinds());
    proof {
        reveal_with_fuel(kind_extensions, 10);
        assert(ke.len() == 10);
    }
    let mut out: Vec<(usize, ImageKind, &'static str)> = Vec::new();
    let mut root: usize = 0;
    while root < num_roots
        invariant
            root <= num_roots,
            num_roots * 10 <= usize::MAX,
            per@ == ke,
            ke == kind_extensions(all_kinds()),
            ke.len() == 10,
            out@.len() == root * 10,
            forall|i: int| 0 <= i < out@.len() ==> #[trigger] out@[i] == search_order(num_roots as int)[i],
        decreases num_roots - root,
    {
        let mut j: usize = 0;
        while j < per.len()
            invariant
                root < num_roots,
                num_roots * 10 <= usize::MAX,
                per@ == ke,
                ke == kind_extensions(all_kinds()),
                ke.len() == 10,
                j <= 10,
                out@.len() == root * 10 + j,
                forall|i: int| 0 <= i < out@.len() ==> #[trigger] out@[i] == search_order(num_roots as int)[i],
            decreases 10 - j,
        {
            let (kind, ext) = per[j];
            let ghost i = root * 10 + j;
            proof {
                assert(i / 10 == root && i % 10 == j) by (nonlinear_arith)
                    requires i == root * 10 + j, 0 <= j < 10;
                assert(i < num_roots * 10) by (nonlinear_arith)
                    requires i == root * 10 + j, j < 10, root < num_roots;
                let so = search_order(num_roots as int);
                assert(so.len() == num_roots * 10);
                assert(so[i] == ((i / 10) as usize, ke[i % 10].0, ke[i % 10].1));
                assert(so[i] == (root, kind, ext));
            }
            out.push((root, kind, ext));
            proof {
                assert(out@[i] == search_order(num_roots as int)[i]);
            }
            j = j + 1;
        }
        root = root + 1;
    }
    assert(out@ =~= search_order(num_roots as int));
    out
}

/// What looking at one candidate file found.
#[derive(Debug, Clone, Copy, PartialEq, Eq, Structural)]
pub enum Probe {
    /// The texture's path has no usable file name under this root.
    Unusable,
    /// No such file.
    Missing,
    /// The file is there.
    Present,
}

/// Where a search through the candidate files goes after a probe.
#[derive(Debug, Clone, Copy, PartialEq, Eq, Structural)]
pub enum SearchStep {
    /// The texture is the candidate at this position.
    Found(usize),
    /// The search ends without a file.
    NotFound,
    /// Probe the candidate at this position next.
    Next(usize),
}

/// The step after probing the candidate at `position` of `total`: a file
/// that is there ends the search with it, a path without a usable file name
/// ends the search without a file, and a missing file moves on to the next
/// candidate, if there is one.
pub open spec fn next_step(position: int, total: int, probe: Probe) -> SearchStep {
    match probe {
        Probe::Present => SearchStep::Found(position as usize),
        Probe::Unusable => SearchStep::NotFound,
        Probe::Missing => if position + 1 < total {
            SearchStep::Next((position + 1) as usize)
        } else {
            SearchStep::NotFound
        },
    }
}

/// Decides where a search through the candidate files goes after probing
/// the candidate at `position` of `total`.
pub fn search_step(position: usize, total: usize, probe: Probe) -> (r: SearchStep)
    requires
        position < total,
    ensures
        r == next_step(position as int, total as int, probe),
{
    match probe {
        Probe::Present => SearchStep::Found(position),
        Probe::Unusable => SearchStep::NotFound,
        Probe::Missing => if position + 1 < total {
            SearchStep::Next(position + 1)
        } else {
            SearchStep::NotFound
        },
    }
}

/// The positions of the requests that the cache could not serve, in order.
pub open spec fn miss_positions<T>(cached: Seq<Option<T>>) -> Seq<usize>
    decreases cached.len(),
{
    if cached.len() == 0 {
        Seq::empty()
    } else {
        let r = miss_positions(cached.drop_last());
        if cached.last() is None {
            r.push((cached.len() - 1) as usize)
        } else {
            r
        }
    }
}

/// The positions of the requests that the cache could not serve, in order:
/// the requests to hand to the loader.
pub fn misses<T>(cached: &[Option<T>]) -> (r: Vec<usize>)
    ensures
        r@ == miss_positions(cached@),
{
    let mut out: Vec<usize> = Vec::new();
    let mut i: usize = 0;
    assert(cached@.take(0) =~= Seq::<Option<T>>::empty());
    while i < cached.len()
        invariant
            i <= cached@.len(),
            out@ == miss_positions(cached@.take(i as int)),
        decreases cached@.len() - i,
    {
        assert(cached@.take(i + 1).drop_last() =~= cached@.take(i as int));
        if cached[i].is_none() {
            out.push(i);
        }
        i = i + 1;
    }
    assert(cached@.take(i as int) =~= cached@);
    out
}

/// What the request at `i` is answered with: the cached picture if there is
/// one; else what the loader gave for it (the loader answers the misses in
/// order); else the fallback picture, if any.
pub open spec fn answered<T: Clone>(
    cached: Seq<Option<T>>,
    loaded: Seq<Option<T>>,
    missing: Option<T>,
    i: int,
    out: Option<T>,
) -> bool {
    let k = miss_positions(cached.take(i)).len() as int;
    match cached[i] {
        Some(t) => out == Some(t),
        None => match loaded[k] {
            Some(t) => out == Some(t),
            None => match missing {
                Some(m) => out matches Some(c) && cloned(m, c),
                None => out is None,
            },
        },
    }
}

/// Answers a batch of requests: each with its cached picture, else with what
/// the loader gave for it, else with a copy of the fallback picture.
/// `loaded` holds the loader's answers to the misses, in order.
pub fn merge_loaded<T: Clone>(cached: Vec<Option<T>>, loaded: Vec<Option<T>>, missing: &Option<T>) -> (r: Vec<Option<T>>)
    requires
        loaded@.len() == miss_positions(cached@).len(),
    ensures
        r@.len() == cached@.len(),
        forall|i: int| 0 <= i < cached@.len() ==> answered(cached@, loaded@, *missing, i, #[trigger] r@[i]),
{
    let ghost c0 = cached@;
    let ghost l0 = loaded@;
    let mut cached = cached;
    let mut loaded = loaded;
    let mut out: Vec<Option<T>> = Vec::new();
    let mut i: usize = 0;
    let mut k: usize = 0;
    assert(c0.take(0) =~= Seq::<Option<T>>::empty());
    while i < cached.len()
        invariant
            i <= c0.len(),
            cached@.len() == c0.len(),
            loaded@.len() == l0.len(),
            l0.len() == miss_positions(c0).len(),
            k == miss_positions(c0.take(i as int)).len(),
            forall|j: int| i <= j < c0.len() ==> #[trigger] cached@[j] == c0[j],
            forall|j: int| k <= j < l0.len() ==> #[trigger] loaded@[j] == l0[j],
            out@.len() == i,
            forall|j: int| 0 <= j < i ==> answered(c0, l0, *missing, j, #[trigger] out@[j]),
        decreases c0.len() - i,
    {
        proof {
            assert(c0.take(i + 1).drop_last() =~= c0.take(i as int));
            lemma_misses_prefix(c0, i as int + 1);
        }
        let c = cached[i].take();
        match c {
            Some(t) => {
                out.push(Some(t));
            },
            None => {
                assert(c0.take(i + 1).last() == c0[i as int]);
                assert(miss_positions(c0.take(i + 1)).len() == k + 1);
                let n = loaded.len();
                assert(k < n);
                let l = loaded[k].take();
                match l {
                    Some(t) => out.push(Some(t)),
                    None => out.push(missing.clone()),
                }
                k = k + 1;
            },
        }
        i = i + 1;
    }
    out
}

/// A prefix of the requests has no more misses than all of them.
proof fn lemma_misses_prefix<T>(c: Seq<Option<T>>, i: int)
    requires
        0 <= i <= c.len(),
    ensures
        miss_positions(c.take(i)).len() <= miss_positions(c).len(),
    decreases c.len() - i,
{
    if i < c.len() {
        lemma_misses_prefix(c, i + 1);
        assert(c.take(i + 1).drop_last() =~= c.take(i));
    } else {
        assert(c.take(i) =~= c);
    }
}

} // verus!

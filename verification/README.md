# q3bsp

Reading Quake 3 level files (`.bsp`) and turning them into a level that can
be walked and drawn, with the reading and the building proved correct by
Verus.

## Layout

- `src/` — the verified library.
  - `helpers.rs`: little-endian readers, fixed-width text, runs of records,
    whitespace and decimal numbers.
  - `directory_header.rs`: the `IBSP` tag and the directory of lumps.
  - `entity.rs`: the entity lump's `{ "key" "value" ... }` text.
  - `raw_bsp.rs`, `raw_bsp_parsers.rs`: the records of every lump and the
    whole file.
  - `texture_flags.rs`: surface and content flag sets.
  - `bsp/`: the level built from the records (nodes, leaves with their
    visible sets, faces, brushes, the world model), the walk step down the
    tree, and patch tessellation indices.
  - `drawing.rs`: triangle indices of faces and draw batches per texture.
  - `texture.rs`: which image files are tried, how a batch of texture
    requests is answered, and pairing pictures with surface flags.
  - `lazy.rs`, `cache.rs`, `sorted_set.rs`: values computed on first use, a
    probe-ordered cache, sorted distinct lists.
- `tests/` — tests on concrete values.
- `app/` — the viewer: file and image I/O, the graphics card, floating-point
  geometry (camera, patch vertices, plane tests) and the window loop.

Floating-point values read from the file are kept as their IEEE-754 bit
patterns in the library; the viewer turns them into `f32`.

//! The file header: the magic tag, the format version and the directory of lumps.
use vstd::prelude::*;
use crate::helpers::{ParseError, Parsed, SpecParsed, plain, fixed, le_i32_at, read_i32_at};

verus! {

/// Where a lump lies in the file: its byte offset and its size in bytes.
#[derive(Debug, Clone, Copy, PartialEq, Eq, Structural)]
pub struct DirectoryEntry {
    pub offset: i32,
    pub size: i32,
}

/// The header of a level file.
#[derive(Debug, Clone, Copy, PartialEq, Eq, Structural)]
pub struct DirectoryHeader {
    pub version: i32,
    pub entities: DirectoryEntry,
    pub textures: DirectoryEntry,
    pub planes: DirectoryEntry,
    pub nodes: DirectoryEntry,
    pub leaves: DirectoryEntry,
    pub leaf_faces: DirectoryEntry,
    pub leaf_brushes: DirectoryEntry,
    pub models: DirectoryEntry,
    pub brushes: DirectoryEntry,
    pub brush_sides: DirectoryEntry,
    pub vertices: DirectoryEntry,
    pub mesh_vertices: DirectoryEntry,
    pub effects: DirectoryEntry,
    pub faces: DirectoryEntry,
    pub light_maps: DirectoryEntry,
    pub light_volumes: DirectoryEntry,
    pub visibility_data: DirectoryEntry,
}

/// Size in bytes of one directory entry.
pub const DIRECTORY_ENTRY_SIZE: usize = 8;

/// Size in bytes of the whole header.
pub const DIRECTORY_HEADER_SIZE: usize = 144;

/// The magic tag that starts every level file.
pub open spec fn magic() -> Seq<u8> {
    seq![0x49u8, 0x42u8, 0x53u8, 0x50u8]
}

/// The directory entry stored at `off`.
pub open spec fn entry_at(s: Seq<u8>, off: int) -> DirectoryEntry {
    DirectoryEntry { offset: le_i32_at(s, off), size: le_i32_at(s, off + 4) }
}

/// The header whose fields are stored in `s` (the tag is not checked here).
pub open spec fn header_at(s: Seq<u8>) -> DirectoryHeader {
    DirectoryHeader {
        version: le_i32_at(s, 4),
        entities: entry_at(s, 8),
        textures: entry_at(s, 16),
        planes: entry_at(s, 24),
        nodes: entry_at(s, 32),
        leaves: entry_at(s, 40),
        leaf_faces: entry_at(s, 48),
        leaf_brushes: entry_at(s, 56),
        models: entry_at(s, 64),
        brushes: entry_at(s, 72),
        brush_sides: entry_at(s, 80),
        vertices: entry_at(s, 88),
        mesh_vertices: entry_at(s, 96),
        effects: entry_at(s, 104),
        faces: entry_at(s, 112),
        light_maps: entry_at(s, 120),
        light_volumes: entry_at(s, 128),
        visibility_data: entry_at(s, 136),
    }
}

/// Matching a literal tag: a mismatch in the bytes present is an error, a
/// matching but short input is incomplete.
pub open spec fn spec_tag(s: Seq<u8>, t: Seq<u8>) -> SpecParsed<()> {
    if s.len() < t.len() {
        if s == t.take(s.len() as int) {
            Err(ParseError::Incomplete)
        } else {
            Err(ParseError::Error)
        }
    } else if s.take(t.len() as int) == t {
        Ok((t.len() as int, ()))
    } else {
        Err(ParseError::Error)
    }
}

/// The header grammar: the tag `IBSP`, the version, then seventeen entries.
pub open spec fn spec_directory_header(s: Seq<u8>) -> SpecParsed<DirectoryHeader> {
    match spec_tag(s, magic()) {
        Err(e) => Err(e),
        Ok(_) => fixed(s, 144, header_at(s)),
    }
}

/// The entries of a header in the fixed lump order of the format.
pub open spec fn lumps_in_order(h: DirectoryHeader) -> Seq<DirectoryEntry> {
    seq![
        h.entities,
        h.textures,
        h.planes,
        h.nodes,
        h.leaves,
        h.leaf_faces,
        h.leaf_brushes,
        h.models,
        h.brushes,
        h.brush_sides,
        h.vertices,
        h.mesh_vertices,
        h.effects,
        h.faces,
        h.light_maps,
        h.light_volumes,
        h.visibility_data,
    ]
}

/// A header is 144 bytes: the tag `IBSP`, the version (a little-endian
/// `i32` at byte 4), then the seventeen lump entries in lump order, eight
/// bytes each from byte 8, each a little-endian offset then size.
pub proof fn lemma_header_entries_in_lump_order(s: Seq<u8>)
    ensures
        spec_directory_header(s) matches Ok((n, h)) ==> {
            &&& n == 144
            &&& s.take(4) == magic()
            &&& h.version == le_i32_at(s, 4)
            &&& lumps_in_order(h).len() == 17
            &&& forall|k: int|
                0 <= k < 17 ==> (#[trigger] lumps_in_order(h)[k]).offset == le_i32_at(s, 8 + 8 * k)
                    && lumps_in_order(h)[k].size == le_i32_at(s, 12 + 8 * k)
        },
{
    if let Ok((n, h)) = spec_directory_header(s) {
        assert(s.take(4) =~= magic());
        let l = lumps_in_order(h);
        assert forall|k: int| 0 <= k < 17 implies (#[trigger] l[k]).offset == le_i32_at(s, 8 + 8 * k)
            && l[k].size == le_i32_at(s, 12 + 8 * k) by {
            if k == 0 {} else if k == 1 {} else if k == 2 {} else if k == 3 {} else if k == 4 {}
            else if k == 5 {} else if k == 6 {} else if k == 7 {} else if k == 8 {} else if k == 9 {}
            else if k == 10 {} else if k == 11 {} else if k == 12 {} else if k == 13 {} else if k == 14 {}
            else if k == 15 {} else {}
        }
    }
}

/// Reads the entry at `off`.
fn read_entry_at(i: &[u8], off: usize) -> (r: DirectoryEntry)
    requires
        off + 8 <= i@.len(),
    ensures
        r == entry_at(i@, off as int),
{
    let _len = i.len();
    DirectoryEntry { offset: read_i32_at(i, off), size: read_i32_at(i, off + 4) }
}

/// Recognizes one directory entry: its offset then its size.
pub fn directory_entry(i: &[u8]) -> (r: Parsed<DirectoryEntry>)
    ensures
        plain(r) == fixed(i@, 8, entry_at(i@, 0)),
{
    if i.len() < DIRECTORY_ENTRY_SIZE {
        Err(ParseError::Incomplete)
    } else {
        Ok((DIRECTORY_ENTRY_SIZE, read_entry_at(i, 0)))
    }
}

/// Matches the magic tag at the start of `i`.
fn tag_ibsp(i: &[u8]) -> (r: Parsed<()>)
    ensures
        plain(r) == spec_tag(i@, magic()),
{
    let t: [u8; 4] = [0x49u8, 0x42u8, 0x53u8, 0x50u8];
    assert(t@ =~= magic());
    let m = if i.len() < 4 { i.len() } else { 4 };
    let mut k: usize = 0;
    while k < m
        invariant
            m <= 4,
            m <= i@.len(),
            m == (if i@.len() < 4 { i@.len() } else { 4 }),
            k <= m,
            t@ == magic(),
            forall|j: int| 0 <= j < k ==> i@[j] == magic()[j],
        decreases m - k,
    {
        if i[k] != t[k] {
            assert(i@.take(m as int)[k as int] != magic().take(m as int)[k as int]);
            return Err(ParseError::Error);
        }
        k += 1;
    }
    assert(i@.take(m as int) =~= magic().take(m as int));
    if m < 4 {
        assert(i@ =~= i@.take(m as int));
        Err(ParseError::Incomplete)
    } else {
        assert(magic().take(4) =~= magic());
        Ok((4, ()))
    }
}

/// Recognizes the file header.
pub fn directory_header(i: &[u8]) -> (r: Parsed<DirectoryHeader>)
    ensures
        plain(r) == spec_directory_header(i@),
        r is Ok ==> i@.take(4) == magic(),
{
    match tag_ibsp(i) {
        Err(e) => Err(e),
        Ok(_) => {
            if i.len() < DIRECTORY_HEADER_SIZE {
                Err(ParseError::Incomplete)
            } else {
                let h = DirectoryHeader {
                    version: read_i32_at(i, 4),
                    entities: read_entry_at(i, 8),
                    textures: read_entry_at(i, 16),
                    planes: read_entry_at(i, 24),
                    nodes: read_entry_at(i, 32),
                    leaves: read_entry_at(i, 40),
                    leaf_faces: read_entry_at(i, 48),
                    leaf_brushes: read_entry_at(i, 56),
                    models: read_entry_at(i, 64),
                    brushes: read_entry_at(i, 72),
                    brush_sides: read_entry_at(i, 80),
                    vertices: read_entry_at(i, 88),
                    mesh_vertices: read_entry_at(i, 96),
                    effects: read_entry_at(i, 104),
                    faces: read_entry_at(i, 112),
                    light_maps: read_entry_at(i, 120),
                    light_volumes: read_entry_at(i, 128),
                    visibility_data: read_entry_at(i, 136),
                };
                Ok((DIRECTORY_HEADER_SIZE, h))
            }
        },
    }
}

} // verus!

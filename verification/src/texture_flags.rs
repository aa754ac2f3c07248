//! Content and surface flag sets carried by every texture of a level.
//!
//! A flag set is a 32-bit mask restricted to the flags the format defines;
//! bits outside that set are dropped when a set is built from raw bits.
use vstd::prelude::*;

verus! {

// Content flags.
/// An eye is never valid in a solid.
pub const SOLID3: u32 = 0x00000001;
pub const LAVA: u32 = 0x00000008;
pub const SLIME: u32 = 0x00000010;
pub const WATER: u32 = 0x00000100;
pub const FOG: u32 = 0x00001000;
pub const NOTTEAM1: u32 = 0x00000080;
pub const NOTTEAM2: u32 = 0x00000100;
pub const NOBOTCLIP: u32 = 0x00000200;
pub const AREAPORTAL: u32 = 0x00008000;
pub const PLAYERCLIP: u32 = 0x00010000;
pub const MONSTERCLIP: u32 = 0x00020000;
pub const TELEPORTER: u32 = 0x00040000;
pub const JUMPPAD: u32 = 0x00080000;
pub const CLUSTERPORTAL: u32 = 0x00100000;
pub const DONOTENTER: u32 = 0x00200000;
pub const BOTCLIP: u32 = 0x00400000;
pub const MOVER: u32 = 0x00800000;
/// Removed before an entity is compiled.
pub const ORIGIN: u32 = 0x01000000;
/// Should never be on a brush, only in game.
pub const BODY: u32 = 0x02000000;
pub const CORPSE: u32 = 0x04000000;
/// Brushes not used for the tree.
pub const DETAIL: u32 = 0x08000000;
/// Brushes used for the tree.
pub const STRUCTURAL: u32 = 0x10000000;
/// Does not consume surface fragments inside.
pub const TRANSLUCENT: u32 = 0x20000000;
pub const TRIGGER: u32 = 0x40000000;
/// Does not leave bodies or items (death fog, lava).
pub const NODROP: u32 = 0x80000000;

/// Every content flag the format defines, or-ed together.
pub const ALL_CONTENT_FLAGS: u32 = 0xFFFF9399;

// Surface flags.
/// Never gives falling damage.
pub const NODAMAGE: u32 = 0x00001;
/// Affects game physics.
pub const SLICK: u32 = 0x00002;
/// Lighting from the environment map.
pub const SKY: u32 = 0x00004;
pub const LADDER: u32 = 0x00008;
/// Does not make missile explosions.
pub const NOIMPACT: u32 = 0x00010;
/// Does not leave missile marks.
pub const NOMARKS: u32 = 0x00020;
/// Makes flesh sounds and effects.
pub const FLESH: u32 = 0x00040;
/// Generates no draw surface at all.
pub const NODRAW: u32 = 0x00080;
/// Makes a primary splitter.
pub const HINT: u32 = 0x00100;
/// Completely ignored, allowing non-closed brushes.
pub const SKIP: u32 = 0x00200;
/// The surface needs no lightmap.
pub const NOLIGHTMAP: u32 = 0x00400;
/// Lighting is generated at vertexes.
pub const POINTLIGHT: u32 = 0x00800;
/// Clanking footsteps.
pub const METALSTEPS: u32 = 0x01000;
/// No footstep sounds.
pub const NOSTEPS: u32 = 0x02000;
/// Does not collide against curves with this set.
pub const NONSOLID: u32 = 0x04000;
/// Acts as a light filter.
pub const LIGHTFILTER: u32 = 0x08000;
/// Per-pixel light shadow casting.
pub const ALPHASHADOW: u32 = 0x10000;
/// No dynamic light even if solid.
pub const NODLIGHT: u32 = 0x20000;
/// Leaves a dust trail when walked on.
pub const DUST: u32 = 0x40000;

/// Every surface flag the format defines, or-ed together.
pub const ALL_SURFACE_FLAGS: u32 = 0x7FFFF;

/// A set of content flags.
#[derive(Debug, Clone, Copy, PartialEq, Eq, Structural)]
pub struct ContentFlags {
    pub bits: u32,
}

/// A set of surface flags.
#[derive(Debug, Clone, Copy, PartialEq, Eq, Structural)]
pub struct SurfaceFlags {
    pub bits: u32,
}

impl ContentFlags {
    /// A well-formed set holds no bit outside the defined flags.
    pub open spec fn wf(self) -> bool {
        self.bits & ALL_CONTENT_FLAGS == self.bits
    }

    /// The empty set.
    pub fn empty() -> (r: ContentFlags)
        ensures
            r.bits == 0,
            r.wf(),
    {
        proof {
            assert(0u32 & ALL_CONTENT_FLAGS == 0u32) by (bit_vector);
        }
        ContentFlags { bits: 0 }
    }

    /// The set of all defined flags.
    pub fn all() -> (r: ContentFlags)
        ensures
            r.bits == ALL_CONTENT_FLAGS,
            r.wf(),
    {
        proof {
            assert(ALL_CONTENT_FLAGS & ALL_CONTENT_FLAGS == ALL_CONTENT_FLAGS) by (bit_vector);
        }
        ContentFlags { bits: ALL_CONTENT_FLAGS }
    }

    /// The set of the defined flags among `bits`; other bits are dropped.
    pub fn from_bits_truncate(bits: u32) -> (r: ContentFlags)
        ensures
            r.bits == bits & ALL_CONTENT_FLAGS,
            r.wf(),
    {
        proof {
            assert((bits & ALL_CONTENT_FLAGS) & ALL_CONTENT_FLAGS == bits & ALL_CONTENT_FLAGS)
                by (bit_vector);
        }
        ContentFlags { bits: bits & ALL_CONTENT_FLAGS }
    }

    /// The raw bits of the set.
    pub fn bits(&self) -> (r: u32)
        ensures
            r == self.bits,
    {
        self.bits
    }

    /// Whether every flag of `flags` is in the set.
    pub fn contains(&self, flags: u32) -> (r: bool)
        ensures
            r == (self.bits & flags == flags),
    {
        self.bits & flags == flags
    }
}

impl SurfaceFlags {
    /// A well-formed set holds no bit outside the defined flags.
    pub open spec fn wf(self) -> bool {
        self.bits & ALL_SURFACE_FLAGS == self.bits
    }

    /// The empty set.
    pub fn empty() -> (r: SurfaceFlags)
        ensures
            r.bits == 0,
            r.wf(),
    {
        proof {
            assert(0u32 & ALL_SURFACE_FLAGS == 0u32) by (bit_vector);
        }
        SurfaceFlags { bits: 0 }
    }

    /// The set of all defined flags.
    pub fn all() -> (r: SurfaceFlags)
        ensures
            r.bits == ALL_SURFACE_FLAGS,
            r.wf(),
    {
        proof {
            assert(ALL_SURFACE_FLAGS & ALL_SURFACE_FLAGS == ALL_SURFACE_FLAGS) by (bit_vector);
        }
        SurfaceFlags { bits: ALL_SURFACE_FLAGS }
    }

    /// The set of the defined flags among `bits`; other bits are dropped.
    pub fn from_bits_truncate(bits: u32) -> (r: SurfaceFlags)
        ensures
            r.bits == bits & ALL_SURFACE_FLAGS,
            r.wf(),
    {
        proof {
            assert((bits & ALL_SURFACE_FLAGS) & ALL_SURFACE_FLAGS == bits & ALL_SURFACE_FLAGS)
                by (bit_vector);
        }
        SurfaceFlags { bits: bits & ALL_SURFACE_FLAGS }
    }

    /// The raw bits of the set.
    pub fn bits(&self) -> (r: u32)
        ensures
            r == self.bits,
    {
        self.bits
    }

    /// Whether every flag of `flags` is in the set.
    pub fn contains(&self, flags: u32) -> (r: bool)
        ensures
            r == (self.bits & flags == flags),
    {
        self.bits & flags == flags
    }

    /// Whether a surface with these flags is drawn: it is unless it is flagged `NODRAW`.
    pub fn should_draw(&self) -> (r: bool)
        ensures
            r == (self.bits & NODRAW != NODRAW),
    {
        !self.contains(NODRAW)
    }
}

/// The defined content flags are exactly the named content flags, and the
/// defined surface flags exactly the named surface flags.
pub proof fn lemma_defined_flags_are_the_named_flags()
    ensures
        ALL_CONTENT_FLAGS == SOLID3 | LAVA | SLIME | WATER | FOG | NOTTEAM1 | NOTTEAM2 | NOBOTCLIP | AREAPORTAL
            | PLAYERCLIP | MONSTERCLIP | TELEPORTER | JUMPPAD | CLUSTERPORTAL | DONOTENTER | BOTCLIP | MOVER
            | ORIGIN | BODY | CORPSE | DETAIL | STRUCTURAL | TRANSLUCENT | TRIGGER | NODROP,
        ALL_SURFACE_FLAGS == NODAMAGE | SLICK | SKY | LADDER | NOIMPACT | NOMARKS | FLESH | NODRAW | HINT | SKIP
            | NOLIGHTMAP | POINTLIGHT | METALSTEPS | NOSTEPS | NONSOLID | LIGHTFILTER | ALPHASHADOW | NODLIGHT
            | DUST,
{
    assert(0xFFFF9399u32 == 0x00000001u32 | 0x00000008u32 | 0x00000010u32 | 0x00000100u32 | 0x00001000u32
        | 0x00000080u32 | 0x00000100u32 | 0x00000200u32 | 0x00008000u32 | 0x00010000u32 | 0x00020000u32
        | 0x00040000u32 | 0x00080000u32 | 0x00100000u32 | 0x00200000u32 | 0x00400000u32 | 0x00800000u32
        | 0x01000000u32 | 0x02000000u32 | 0x04000000u32 | 0x08000000u32 | 0x10000000u32 | 0x20000000u32
        | 0x40000000u32 | 0x80000000u32) by (bit_vector);
    assert(0x7FFFFu32 == 0x00001u32 | 0x00002u32 | 0x00004u32 | 0x00008u32 | 0x00010u32 | 0x00020u32
        | 0x00040u32 | 0x00080u32 | 0x00100u32 | 0x00200u32 | 0x00400u32 | 0x00800u32 | 0x01000u32
        | 0x02000u32 | 0x04000u32 | 0x08000u32 | 0x10000u32 | 0x20000u32 | 0x40000u32) by (bit_vector);
}

/// Building a content set from raw bits a second time changes nothing.
pub proof fn lemma_content_truncate_idempotent(bits: u32)
    ensures
        (bits & ALL_CONTENT_FLAGS) & ALL_CONTENT_FLAGS == bits & ALL_CONTENT_FLAGS,
{
    assert((bits & ALL_CONTENT_FLAGS) & ALL_CONTENT_FLAGS == bits & ALL_CONTENT_FLAGS)
        by (bit_vector);
}

/// Building a surface set from raw bits a second time changes nothing.
pub proof fn lemma_surface_truncate_idempotent(bits: u32)
    ensures
        (bits & ALL_SURFACE_FLAGS) & ALL_SURFACE_FLAGS == bits & ALL_SURFACE_FLAGS,
{
    assert((bits & ALL_SURFACE_FLAGS) & ALL_SURFACE_FLAGS == bits & ALL_SURFACE_FLAGS)
        by (bit_vector);
}

} // verus!

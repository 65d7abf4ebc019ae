//! Motion primitives, their bounded features, and the packed context keys.
use vstd::prelude::*;

use crate::types::Cost;
use crate::arith;

verus! {

pub const FEATURE_SCHEMA_VERSION: u16 = 2;

/// Stable persisted motion-primitive identifier.
///
/// Built-in generators author this ID; consumers must not infer it from two
/// path nodes because `Swim`, for example, covers both a vertical stroke and a
/// bank exit.
#[derive(Clone, Copy, PartialEq, Eq, PartialOrd, Ord, Hash, Structural, Debug)]
pub struct PrimitiveId(pub u16);

impl PrimitiveId {
    pub const WALK_CARDINAL: u16 = 1;

    pub const WALK_DIAGONAL: u16 = 2;

    pub const STEP: u16 = 3;

    pub const JUMP: u16 = 4;

    pub const FALL: u16 = 5;

    pub const PARKOUR: u16 = 6;

    pub const CLIMB: u16 = 7;

    pub const SWIM: u16 = 8;

    pub const SWIM_EXIT: u16 = 9;

    pub const AOTV: u16 = 10;

    pub const ETHERWARP: u16 = 11;

    pub open spec fn builtin(self) -> bool {
        1 <= self.0 <= 11
    }

    pub fn is_builtin(self) -> (r: bool)
        ensures
            r == self.builtin(),
    {
        self.0 >= Self::WALK_CARDINAL && self.0 <= Self::ETHERWARP
    }
}

#[derive(Clone, Copy, PartialEq, Eq, Structural, Debug)]
pub enum TerrainClass {
    Unknown,
    FullBlock,
    PartialBlock,
    Climbable,
    Water,
}

impl TerrainClass {
    /// The persisted number of a terrain class.
    pub open spec fn code_spec(self) -> u64 {
        match self {
            TerrainClass::Unknown => 0,
            TerrainClass::FullBlock => 1,
            TerrainClass::PartialBlock => 2,
            TerrainClass::Climbable => 3,
            TerrainClass::Water => 4,
        }
    }

    pub fn code(self) -> (code: u64)
        ensures
            code == self.code_spec(),
    {
        match self {
            TerrainClass::Unknown => 0,
            TerrainClass::FullBlock => 1,
            TerrainClass::PartialBlock => 2,
            TerrainClass::Climbable => 3,
            TerrainClass::Water => 4,
        }
    }
}

/// Versioned, bounded features authored with a planned edge.
#[derive(Clone, Copy, PartialEq, Eq, Structural, Debug)]
pub struct MoveFeatures {
    pub schema: u16,
    /// Generator-defined travel distance. For parkour this is the
    /// `MoveKind::Parkour::blocks` value, not Chebyshev distance.
    pub horizontal_blocks: u8,
    pub vertical_blocks: i8,
    pub adjacent_walls: u8,
    pub terrain: TerrainClass,
    pub flags: u16,
}

impl MoveFeatures {
    pub const FLAG_LOW_HEADROOM: u16 = 2;

    pub const FLAG_FRACTIONAL_NEIGHBOR: u16 = 4;

    pub const FLAG_WATER_ENTRY: u16 = 8;

    pub const KNOWN_FLAGS: u16 = 14;

    pub fn new(horizontal_blocks: u8, vertical_blocks: i8, terrain: TerrainClass) -> (features:
        MoveFeatures)
        ensures
            features == (MoveFeatures {
                schema: FEATURE_SCHEMA_VERSION,
                horizontal_blocks,
                vertical_blocks,
                adjacent_walls: 0,
                terrain,
                flags: 0,
            }),
    {
        MoveFeatures {
            schema: FEATURE_SCHEMA_VERSION,
            horizontal_blocks,
            vertical_blocks,
            adjacent_walls: 0,
            terrain,
            flags: 0,
        }
    }

    pub fn with_surroundings(self, adjacent_walls: u8, flags: u16) -> (features: MoveFeatures)
        ensures
            features == (MoveFeatures { adjacent_walls, flags, ..self }),
    {
        MoveFeatures { adjacent_walls, flags, ..self }
    }

    pub open spec fn valid(self) -> bool {
        &&& self.schema == FEATURE_SCHEMA_VERSION
        &&& self.horizontal_blocks <= 16
        &&& self.adjacent_walls <= 8
        &&& self.flags & !14u16 == 0
    }

    pub fn validate(self) -> (r: bool)
        ensures
            r == self.valid(),
    {
        self.schema == FEATURE_SCHEMA_VERSION && self.horizontal_blocks <= 16 && self.adjacent_walls
            <= 8 && self.flags & !14u16 == 0
    }
}

/// The parts of an edge's cost; only `time` and `reliability` can be learned.
#[derive(Clone, Copy, PartialEq, Eq, Structural, Debug)]
pub struct CostComponents {
    pub time: Cost,
    pub reliability: Cost,
    /// Immutable feasibility/policy toll. The learner never scales this.
    pub safety: Cost,
    pub damage: Cost,
    pub desync: Cost,
    pub resource: Cost,
}

impl Default for CostComponents {
    fn default() -> (zero: CostComponents)
        ensures
            zero == (CostComponents {
                time: 0,
                reliability: 0,
                safety: 0,
                damage: 0,
                desync: 0,
                resource: 0,
            }),
    {
        CostComponents { time: 0, reliability: 0, safety: 0, damage: 0, desync: 0, resource: 0 }
    }
}

impl CostComponents {
    /// The sum of all parts, limited to the range of a cost.
    pub open spec fn sum(self) -> Cost {
        arith::clamp_u32(
            self.time + self.reliability + self.safety + self.damage + self.desync + self.resource,
        )
    }

    pub fn total(self) -> (total: Cost)
        ensures
            total == self.sum(),
    {
        self.time.saturating_add(self.reliability).saturating_add(self.safety).saturating_add(
            self.damage,
        ).saturating_add(self.desync).saturating_add(self.resource)
    }
}

/// Packed, version-stable context key.
#[derive(Clone, Copy, PartialEq, Eq, PartialOrd, Ord, Structural, Debug)]
pub struct FeatureKey(pub u64);

/// The key shared by every context of one primitive: the primitive's number.
pub open spec fn fallback_key(primitive: PrimitiveId) -> u64 {
    primitive.0 as u64
}

/// The key of one exact context. From the low end: 16 bits of primitive, 5 of
/// horizontal distance, 8 of vertical distance, 3 of wall count (capped at
/// four), 4 of terrain class, 16 of flags, and the top bit as the marker.
pub open spec fn exact_key(primitive: PrimitiveId, features: MoveFeatures) -> u64 {
    packed_context(
        primitive.0 as u64,
        features.horizontal_blocks as u64,
        (features.vertical_blocks as u8) as u64,
        (if features.adjacent_walls <= 4 {
            features.adjacent_walls
        } else {
            4
        }) as u64,
        features.terrain.code_spec(),
        features.flags as u64,
    )
}

pub open spec fn packed_context(
    primitive: u64,
    horizontal: u64,
    vertical: u64,
    walls: u64,
    terrain: u64,
    flags: u64,
) -> u64 {
    primitive | (horizontal << 16) | (vertical << 21) | (walls << 29) | (terrain << 32) | (flags
        << 36) | 0x8000_0000_0000_0000
}

/// Whether a packed key carries the exact-context marker.
pub open spec fn key_is_exact(key: u64) -> bool {
    key & 0x8000_0000_0000_0000 != 0
}

/// Whether a packed key could have been produced by a valid built-in context.
pub open spec fn key_is_valid(key: u64) -> bool {
    &&& 1 <= key & 0xffff <= 11
    &&& if key_is_exact(key) {
        &&& (key >> 16) & 0x1f <= 16
        &&& (key >> 29) & 0x7 <= 4
        &&& (key >> 32) & 0xf <= 4
        &&& (key >> 36) & 0xfff1 == 0
        &&& (key >> 52) & 0x7ff == 0
    } else {
        key == key & 0xffff
    }
}

impl FeatureKey {
    pub fn fallback(primitive: PrimitiveId) -> (key: FeatureKey)
        ensures
            key.0 == fallback_key(primitive),
    {
        FeatureKey(primitive.0 as u64)
    }

    pub fn exact(primitive: PrimitiveId, features: MoveFeatures) -> (key: FeatureKey)
        ensures
            key.0 == exact_key(primitive, features),
    {
        let horizontal: u64 = features.horizontal_blocks as u64;
        let vertical: u64 = (features.vertical_blocks as u8) as u64;
        let walls: u64 = (if features.adjacent_walls <= 4 {
            features.adjacent_walls
        } else {
            4
        }) as u64;
        let terrain: u64 = features.terrain.code();
        let flags: u64 = features.flags as u64;
        FeatureKey(
            (primitive.0 as u64) | (horizontal << 16) | (vertical << 21) | (walls << 29) | (terrain
                << 32) | (flags << 36) | 0x8000_0000_0000_0000,
        )
    }

    pub fn is_exact(self) -> (r: bool)
        ensures
            r == key_is_exact(self.0),
    {
        self.0 & 0x8000_0000_0000_0000 != 0
    }

    pub fn validate(self) -> (r: bool)
        ensures
            r == key_is_valid(self.0),
    {
        let key: u64 = self.0;
        let primitive: u64 = key & 0xffff;
        if primitive < 1 || primitive > 11 {
            return false;
        }
        if !self.is_exact() {
            return key == primitive;
        }
        (key >> 16) & 0x1f <= 16 && (key >> 29) & 0x7 <= 4 && (key >> 32) & 0xf <= 4 && (key >> 36)
            & 0xfff1 == 0 && (key >> 52) & 0x7ff == 0
    }
}

proof fn lemma_packed_context_fields(p: u64, h: u64, v: u64, w: u64, t: u64, f: u64)
    by (bit_vector)
    requires
        p <= 0xffff,
        h <= 0x1f,
        v <= 0xff,
        w <= 7,
        t <= 0xf,
        f <= 0xffff,
    ensures
        packed_context(p, h, v, w, t, f) & 0xffff == p,
        (packed_context(p, h, v, w, t, f) >> 16) & 0x1f == h,
        (packed_context(p, h, v, w, t, f) >> 21) & 0xff == v,
        (packed_context(p, h, v, w, t, f) >> 29) & 0x7 == w,
        (packed_context(p, h, v, w, t, f) >> 32) & 0xf == t,
        (packed_context(p, h, v, w, t, f) >> 36) & 0xffff == f,
        (packed_context(p, h, v, w, t, f) >> 36) & 0xfff1 == f & 0xfff1,
        (packed_context(p, h, v, w, t, f) >> 52) & 0x7ff == 0,
        packed_context(p, h, v, w, t, f) & 0x8000_0000_0000_0000 != 0,
{
}

/// A valid context of a built-in primitive packs to a valid exact key, and its
/// fallback key is valid and not exact.
pub proof fn built_in_contexts_have_valid_keys(primitive: PrimitiveId, features: MoveFeatures)
    requires
        primitive.builtin(),
        features.valid(),
    ensures
        key_is_valid(exact_key(primitive, features)),
        key_is_exact(exact_key(primitive, features)),
        key_is_valid(fallback_key(primitive)),
        !key_is_exact(fallback_key(primitive)),
{
    let p = primitive.0 as u64;
    let f = features.flags as u64;
    let w: u64 = (if features.adjacent_walls <= 4 {
        features.adjacent_walls
    } else {
        4
    }) as u64;
    lemma_packed_context_fields(
        p,
        features.horizontal_blocks as u64,
        (features.vertical_blocks as u8) as u64,
        w,
        features.terrain.code_spec(),
        f,
    );
    let flags = features.flags;
    assert(f & 0xfff1 == 0) by (bit_vector)
        requires
            flags & !14u16 == 0,
            f == flags as u64,
    ;
    assert(p & 0xffff == p && p & 0x8000_0000_0000_0000 == 0) by (bit_vector)
        requires
            p <= 11,
    ;
}

/// Two valid contexts share an exact key only when every packed feature
/// agrees; wall counts are told apart only up to four.
pub proof fn exact_keys_tell_contexts_apart(
    a: PrimitiveId,
    fa: MoveFeatures,
    b: PrimitiveId,
    fb: MoveFeatures,
)
    requires
        fa.valid(),
        fb.valid(),
        exact_key(a, fa) == exact_key(b, fb),
    ensures
        a == b,
        fa.horizontal_blocks == fb.horizontal_blocks,
        fa.vertical_blocks == fb.vertical_blocks,
        fa.terrain == fb.terrain,
        fa.flags == fb.flags,
        fa.adjacent_walls == fb.adjacent_walls || (fa.adjacent_walls >= 4 && fb.adjacent_walls
            >= 4),
{
    let wa: u64 = (if fa.adjacent_walls <= 4 {
        fa.adjacent_walls
    } else {
        4
    }) as u64;
    let wb: u64 = (if fb.adjacent_walls <= 4 {
        fb.adjacent_walls
    } else {
        4
    }) as u64;
    lemma_packed_context_fields(
        a.0 as u64,
        fa.horizontal_blocks as u64,
        (fa.vertical_blocks as u8) as u64,
        wa,
        fa.terrain.code_spec(),
        fa.flags as u64,
    );
    lemma_packed_context_fields(
        b.0 as u64,
        fb.horizontal_blocks as u64,
        (fb.vertical_blocks as u8) as u64,
        wb,
        fb.terrain.code_spec(),
        fb.flags as u64,
    );
    let va = fa.vertical_blocks;
    let vb = fb.vertical_blocks;
    assert(va == vb) by (bit_vector)
        requires
            va as u8 == vb as u8,
    ;
}

/// A valid key that is not exact is a built-in primitive.
pub proof fn lemma_fallback_keys(key: u64)
    requires
        key_is_valid(key),
        !key_is_exact(key),
    ensures
        1 <= key <= 11,
{
}

/// Every valid key is the key of something: an exact one of a valid context of a
/// built-in primitive, and any other of a built-in primitive alone.
pub proof fn valid_keys_stand_for_contexts(key: u64) -> (context: (PrimitiveId, MoveFeatures))
    requires
        key_is_valid(key),
    ensures
        context.0.builtin(),
        context.1.valid(),
        key_is_exact(key) ==> exact_key(context.0, context.1) == key,
        !key_is_exact(key) ==> fallback_key(context.0) == key,
{
    let p = key & 0xffff;
    let h = (key >> 16) & 0x1f;
    let v = (key >> 21) & 0xff;
    let w = (key >> 29) & 0x7;
    let t = (key >> 32) & 0xf;
    let f = (key >> 36) & 0xffff;
    assert(v <= 0xff && f <= 0xffff) by (bit_vector)
        requires
            v == (key >> 21) & 0xff,
            f == (key >> 36) & 0xffff,
    ;
    let terrain = if t == 0 {
        TerrainClass::Unknown
    } else if t == 1 {
        TerrainClass::FullBlock
    } else if t == 2 {
        TerrainClass::PartialBlock
    } else if t == 3 {
        TerrainClass::Climbable
    } else {
        TerrainClass::Water
    };
    let low = v as u8;
    let vertical = low as i8;
    assert(vertical as u8 == low) by (bit_vector)
        requires
            vertical == low as i8,
    ;
    let exact = key_is_exact(key);
    let flags: u16 = if exact {
        f as u16
    } else {
        0
    };
    let features = MoveFeatures {
        schema: FEATURE_SCHEMA_VERSION,
        horizontal_blocks: if exact {
            h as u8
        } else {
            0
        },
        vertical_blocks: vertical,
        adjacent_walls: if exact {
            w as u8
        } else {
            0
        },
        terrain,
        flags,
    };
    assert(flags & !14u16 == 0) by {
        if exact {
            assert(flags & !14u16 == 0) by (bit_vector)
                requires
                    (key >> 36) & 0xfff1 == 0,
                    f == (key >> 36) & 0xffff,
                    flags == f as u16,
            ;
        } else {
            assert(0u16 & !14u16 == 0) by (bit_vector);
        }
    }
    if exact {
        lemma_unpacked(key);
        assert(exact_key(PrimitiveId(p as u16), features) == packed_context(p, h, v, w, t, f));
    }
    (PrimitiveId(p as u16), features)
}

proof fn lemma_unpacked(key: u64)
    by (bit_vector)
    requires
        (key >> 52) & 0x7ff == 0,
        key & 0x8000_0000_0000_0000 != 0,
    ensures
        packed_context(
            key & 0xffff,
            (key >> 16) & 0x1f,
            (key >> 21) & 0xff,
            (key >> 29) & 0x7,
            (key >> 32) & 0xf,
            (key >> 36) & 0xffff,
        ) == key,
{
}

} // verus!

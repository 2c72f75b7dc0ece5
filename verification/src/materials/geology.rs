//! Seed-derived geology: where the world's material comes from.
//!
//! * **Deterministic.** The same seed and tile give the same deposit, forever, on any
//!   machine: the noise below is **integer** arithmetic, not float.
//! * **Regional.** Deposits come from interpolated value noise on a coarse lattice, so they
//!   form patches you can drive to, not confetti.
//! * **Exact.** Mass is derived from one declared scale factor, the seam depth and the
//!   substance's own declared density, in integers.
use vstd::prelude::*;

use crate::materials::generated::{spec_substances, substances_row};
use crate::materials::schema::{lemma_ground_substances, spec_substance, substance};

verus! {

/// Metres to a centimetre, so the arithmetic stays in integers.
pub const CM_PER_M: i64 = 100;

/// **The declared scale factor.** A tile is 8 m on a side.
pub const TILE_METRES: i64 = 8;

/// A tile's area in cm²: 800 × 800.
pub const TILE_AREA_CM2: i64 = TILE_METRES * CM_PER_M * TILE_METRES * CM_PER_M;

/// The declared seam depth worked by a mine, in cm.
pub const SEAM_DEPTH_CM: i64 = 200;

/// Tiles across one geology cell. Bigger than a tile, so deposits are regional.
pub const GEOLOGY_CELL: u32 = 32;

/// The top of the richness scale.
pub const RICHNESS_ONE: i64 = 1000;

/// The salt the richness field is read with.
pub const SALT_RICHNESS: u64 = 0x51_01;
/// The salt the kind field is read with.
pub const SALT_KIND: u64 = 0xD3_02;

/// The volume one tile of deposit offers, in mL (= cm³): 64 m² × 2 m = 128 m³.
pub fn tile_volume_ml() -> (r: i64)
    ensures
        r == TILE_AREA_CM2 * SEAM_DEPTH_CM,
        r == 128_000_000,
{
    TILE_AREA_CM2 * SEAM_DEPTH_CM
}

/// One declared deposit kind: **where** a substance is found, not what it is.
#[derive(Clone, Copy, Debug)]
pub struct DepositKind {
    /// The substance, in the schema's vocabulary.
    pub substance: &'static str,
    /// The noise floor (0..=1000) a tile must clear to hold this kind.
    pub min_richness: i64,
    /// Relative weight when the field picks a kind.
    pub share: i64,
}

/// How many deposit kinds are declared.
pub const DEPOSIT_KINDS_LEN: usize = 5;

/// One declared deposit kind, in the order the field slices into them.
pub open spec fn spec_deposit_kind(i: int) -> DepositKind {
    if i == 0 {
        DepositKind { substance: "stone", min_richness: 620, share: 34 }
    } else if i == 1 {
        DepositKind { substance: "sand", min_richness: 660, share: 22 }
    } else if i == 2 {
        DepositKind { substance: "clay", min_richness: 640, share: 22 }
    } else if i == 3 {
        DepositKind { substance: "coal", min_richness: 700, share: 14 }
    } else {
        DepositKind { substance: "iron_ore", min_richness: 740, share: 8 }
    }
}

/// One declared deposit kind.
pub fn deposit_kind(i: usize) -> (r: DepositKind)
    requires
        i < DEPOSIT_KINDS_LEN,
    ensures
        r == spec_deposit_kind(i as int),
{
    match i {
        0 => DepositKind { substance: "stone", min_richness: 620, share: 34 },
        1 => DepositKind { substance: "sand", min_richness: 660, share: 22 },
        2 => DepositKind { substance: "clay", min_richness: 640, share: 22 },
        3 => DepositKind { substance: "coal", min_richness: 700, share: 14 },
        _ => DepositKind { substance: "iron_ore", min_richness: 740, share: 8 },
    }
}

/// The declared deposit kinds, in the order the field slices into them.
pub fn deposit_kinds() -> (r: Vec<DepositKind>)
    ensures
        r@.len() == DEPOSIT_KINDS_LEN,
        forall|i: int| 0 <= i < DEPOSIT_KINDS_LEN ==> r@[i] == spec_deposit_kind(i),
{
    let mut out: Vec<DepositKind> = Vec::new();
    let mut i: usize = 0;
    while i < DEPOSIT_KINDS_LEN
        invariant
            i <= DEPOSIT_KINDS_LEN,
            out@.len() == i,
            forall|j: int| 0 <= j < i ==> out@[j] == spec_deposit_kind(j),
        decreases DEPOSIT_KINDS_LEN - i,
    {
        out.push(deposit_kind(i));
        i += 1;
    }
    out
}

/// A deposit kind's substance is the table row in the same position.
proof fn lemma_kind_substance(kind: int)
    requires
        0 <= kind < DEPOSIT_KINDS_LEN,
    ensures
        spec_substance(spec_deposit_kind(kind).substance@) == Some(spec_substances()[kind]),
{
    lemma_ground_substances();
    assert(spec_deposit_kind(kind).substance == spec_substances()[kind].name);
}

/// The substance a kind holds.
pub fn kind_substance(kind: usize) -> (r: &'static str)
    requires
        kind < DEPOSIT_KINDS_LEN,
    ensures
        r == spec_deposit_kind(kind as int).substance,
{
    deposit_kind(kind).substance
}

/// The appearance family a kind presents as: the substance's own.
pub fn kind_family(kind: usize) -> (r: &'static str)
    requires
        kind < DEPOSIT_KINDS_LEN,
    ensures
        r == spec_substances()[kind as int].family,
{
    proof {
        lemma_kind_substance(kind as int);
    }
    match substance(kind_substance(kind)) {
        Some(entry) => entry.family,
        None => "",
    }
}

/// A kind's density as a declared rational, in g/mL.
pub open spec fn spec_kind_density(kind: int) -> (int, int) {
    (spec_substances()[kind].density.num as int, spec_substances()[kind].density.den as int)
}

/// Richness held to the scale.
pub open spec fn clamp_richness(richness: int) -> int {
    if richness < 0 {
        0
    } else if richness > RICHNESS_ONE {
        RICHNESS_ONE as int
    } else {
        richness
    }
}

/// The declared mass of one tile of a kind at a given richness, in grams: volume in mL ×
/// a rational density, scaled by richness over 1000.
pub open spec fn spec_mass_g(kind: int, richness: int) -> int {
    let (num, den) = spec_kind_density(kind);
    (128_000_000 * num * clamp_richness(richness)) / (den * RICHNESS_ONE)
}

/// The declared mass of one tile of a kind at a given richness, in grams, exactly. Iron
/// ore at full richness is 128 000 000 mL × 27/10 = 345 600 000 g.
pub fn mass_g(kind: usize, richness: i64) -> (r: i64)
    requires
        kind < DEPOSIT_KINDS_LEN,
    ensures
        r == spec_mass_g(kind as int, richness as int),
        0 <= r <= spec_mass_g(kind as int, RICHNESS_ONE as int),
{
    proof {
        lemma_kind_substance(kind as int);
    }
    let entry = substances_row(kind);
    let density_num = entry.density.num;
    let density_den = entry.density.den;
    let clamped: i64 = if richness < 0 {
        0
    } else if richness > RICHNESS_ONE {
        RICHNESS_ONE
    } else {
        richness
    };
    let volume = tile_volume_ml();
    proof {
        assert(1 <= density_num <= 27 && 1 <= density_den <= 10);
        assert(0 <= volume * density_num * clamped <= 128_000_000 * 27 * 1000) by (nonlinear_arith)
            requires
                volume == 128_000_000,
                1 <= density_num <= 27,
                0 <= clamped <= 1000,
        ;
        let n = density_num as int;
        let d = density_den as int;
        let c = clamped as int;
        assert((128_000_000 * n * c) / (d * 1000) <= (128_000_000 * n * 1000) / (d * 1000)) by (nonlinear_arith)
            requires
                1 <= n,
                1 <= d,
                0 <= c <= 1000,
        ;
    }
    volume * density_num * clamped / (density_den * RICHNESS_ONE)
}

/// The declared total mass of one tile of a kind at full richness, in grams.
pub fn full_tile_mass_g(kind: usize) -> (r: i64)
    requires
        kind < DEPOSIT_KINDS_LEN,
    ensures
        r == spec_mass_g(kind as int, RICHNESS_ONE as int),
{
    mass_g(kind, RICHNESS_ONE)
}

/// Division that rounds toward zero, as the machine does it.
pub open spec fn toward_zero(a: int, b: int) -> int {
    if a >= 0 {
        a / b
    } else {
        -((-a) / b)
    }
}

/// A cheap integer finaliser, so neighbouring lattice points are uncorrelated.
pub open spec fn spec_mix(value: u64) -> u64 {
    let a = value ^ (value >> 33u64);
    let b = vstd::wrapping::u64_specs::wrapping_mul(a, 0xFF51_AFD7_ED55_8CCD);
    let c = b ^ (b >> 33u64);
    let d = vstd::wrapping::u64_specs::wrapping_mul(c, 0xC4CE_B9FE_1A85_EC53);
    d ^ (d >> 33u64)
}

fn mix(value: u64) -> (r: u64)
    ensures
        r == spec_mix(value),
{
    let mut value = value;
    value ^= value >> 33;
    value = value.wrapping_mul(0xFF51_AFD7_ED55_8CCD);
    value ^= value >> 33;
    value = value.wrapping_mul(0xC4CE_B9FE_1A85_EC53);
    value ^ (value >> 33)
}

/// One lattice point's value, 0..=1000, from the seed and a salt.
pub open spec fn spec_lattice(seed: u64, salt: u64, cx: i64, cy: i64) -> i64 {
    let mixed = spec_mix(
        seed ^ spec_mix(salt) ^ vstd::wrapping::u64_specs::wrapping_mul(
            cx as u64,
            0x9E37_79B9_7F4A_7C15,
        ) ^ vstd::wrapping::u64_specs::wrapping_mul(cy as u64, 0xC2B2_AE3D_27D4_EB4F),
    );
    (mixed % 1001) as i64
}

fn lattice(seed: u64, salt: u64, cx: i64, cy: i64) -> (r: i64)
    ensures
        r == spec_lattice(seed, salt, cx, cy),
        0 <= r <= 1000,
{
    let mixed = mix(
        seed ^ mix(salt) ^ (cx as u64).wrapping_mul(0x9E37_79B9_7F4A_7C15) ^ (cy as u64).wrapping_mul(
            0xC2B2_AE3D_27D4_EB4F,
        ),
    );
    (mixed % (RICHNESS_ONE as u64 + 1)) as i64
}

/// Integer bilinear value noise on a lattice `span` tiles wide, 0..=1000.
pub open spec fn spec_noise(seed: u64, salt: u64, x: u32, y: u32, span: i64) -> i64 {
    let cx = (x as int / span as int) as i64;
    let cy = (y as int / span as int) as i64;
    let fx = x as int % span as int;
    let fy = y as int % span as int;
    let c00 = spec_lattice(seed, salt, cx, cy) as int;
    let c10 = spec_lattice(seed, salt, (cx + 1) as i64, cy) as int;
    let c01 = spec_lattice(seed, salt, cx, (cy + 1) as i64) as int;
    let c11 = spec_lattice(seed, salt, (cx + 1) as i64, (cy + 1) as i64) as int;
    let top = c00 + toward_zero((c10 - c00) * fx, span as int);
    let bottom = c01 + toward_zero((c11 - c01) * fx, span as int);
    (top + toward_zero((bottom - top) * fy, span as int)) as i64
}

/// Interpolating between two lattice values stays between them.
proof fn lemma_between(a: int, b: int, f: int, span: int)
    requires
        0 <= a <= 1000,
        0 <= b <= 1000,
        0 <= f < span,
    ensures
        0 <= a + toward_zero((b - a) * f, span) <= 1000,
{
    if b >= a {
        assert(0 <= (b - a) * f <= (b - a) * span) by (nonlinear_arith)
            requires b >= a, 0 <= f < span;
        assert(((b - a) * f) / span <= b - a) by (nonlinear_arith)
            requires b >= a, 0 <= f < span, 0 <= (b - a) * f <= (b - a) * span;
    } else {
        assert(0 <= (a - b) * f <= (a - b) * span) by (nonlinear_arith)
            requires a > b, 0 <= f < span;
        assert(((a - b) * f) / span <= a - b) by (nonlinear_arith)
            requires a > b, 0 <= f < span, 0 <= (a - b) * f <= (a - b) * span;
        assert(-((b - a) * f) == (a - b) * f) by (nonlinear_arith);
    }
}

/// Integer bilinear value noise on a lattice `span` tiles wide.
///
/// Integer, not float, and that is a decision rather than a style: a replay that
/// disagrees with its own seed is the one failure this world cannot absorb.
pub fn noise_at(seed: u64, salt: u64, x: u32, y: u32, span: i64) -> (r: i64)
    requires
        0 < span <= 0x10_0000_0000,
    ensures
        r == spec_noise(seed, salt, x, y, span),
        0 <= r <= 1000,
{
    let cx = (x as i64) / span;
    let cy = (y as i64) / span;
    let fx = (x as i64) % span;
    let fy = (y as i64) % span;
    let c00 = lattice(seed, salt, cx, cy);
    let c10 = lattice(seed, salt, cx + 1, cy);
    let c01 = lattice(seed, salt, cx, cy + 1);
    let c11 = lattice(seed, salt, cx + 1, cy + 1);
    proof {
        assert(-1000 * 0x10_0000_0000 <= (c10 - c00) * fx <= 1000 * 0x10_0000_0000) by (nonlinear_arith)
            requires 0 <= c10 <= 1000, 0 <= c00 <= 1000, 0 <= fx < span, span <= 0x10_0000_0000;
        assert(-1000 * 0x10_0000_0000 <= (c11 - c01) * fx <= 1000 * 0x10_0000_0000) by (nonlinear_arith)
            requires 0 <= c11 <= 1000, 0 <= c01 <= 1000, 0 <= fx < span, span <= 0x10_0000_0000;
        lemma_between(c00 as int, c10 as int, fx as int, span as int);
        lemma_between(c01 as int, c11 as int, fx as int, span as int);
    }
    let top = c00 + (c10 - c00) * fx / span;
    let bottom = c01 + (c11 - c01) * fx / span;
    proof {
        assert(-1000 * 0x10_0000_0000 <= (bottom - top) * fy <= 1000 * 0x10_0000_0000) by (nonlinear_arith)
            requires 0 <= top <= 1000, 0 <= bottom <= 1000, 0 <= fy < span, span <= 0x10_0000_0000;
        lemma_between(top as int, bottom as int, fy as int, span as int);
    }
    top + (bottom - top) * fy / span
}

/// Integer bilinear value noise on a lattice one [`GEOLOGY_CELL`] wide.
fn noise(seed: u64, salt: u64, x: u32, y: u32) -> (r: i64)
    ensures
        r == spec_noise(seed, salt, x, y, GEOLOGY_CELL as i64),
        0 <= r <= 1000,
{
    noise_at(seed, salt, x, y, GEOLOGY_CELL as i64)
}

/// The kind a target lands in when the declared shares are laid end to end from kind `i`.
pub open spec fn slice_kind(target: int, i: int) -> int
    decreases DEPOSIT_KINDS_LEN - i,
{
    if i >= DEPOSIT_KINDS_LEN || i < 0 {
        DEPOSIT_KINDS_LEN - 1
    } else if target - spec_deposit_kind(i).share < 0 {
        i
    } else {
        slice_kind(target - spec_deposit_kind(i).share, i + 1)
    }
}

/// The tile a kind is read at: the corner of its coarse cell.
pub open spec fn kind_cell_corner(v: u32) -> u32 {
    ((v / 128) * 128) as u32
}

/// Which kind a patch holds, by the declared shares, read from a coarser field than
/// richness so a patch is one substance.
pub open spec fn spec_kind_at(seed: u64, x: u32, y: u32) -> int {
    let pick = spec_noise(seed, SALT_KIND, kind_cell_corner(x), kind_cell_corner(y), GEOLOGY_CELL as i64);
    slice_kind((pick * 100) / (RICHNESS_ONE as int), 0)
}

fn kind_at(seed: u64, x: u32, y: u32) -> (r: usize)
    ensures
        r == spec_kind_at(seed, x, y),
        r < DEPOSIT_KINDS_LEN,
{
    let cell = GEOLOGY_CELL * 4;
    let pick = noise(seed, SALT_KIND, (x / cell) * cell, (y / cell) * cell);
    let mut total: i64 = 0;
    let mut k: usize = 0;
    while k < DEPOSIT_KINDS_LEN
        invariant
            k <= DEPOSIT_KINDS_LEN,
            total == (if k == 0 { 0int } else if k == 1 { 34 } else if k == 2 { 56 } else if k == 3 { 78 } else if k == 4 { 92 } else { 100 }),
        decreases DEPOSIT_KINDS_LEN - k,
    {
        total = total + deposit_kind(k).share;
        k += 1;
    }
    let mut target = pick * total / RICHNESS_ONE;
    let mut index: usize = 0;
    while index < DEPOSIT_KINDS_LEN
        invariant
            index <= DEPOSIT_KINDS_LEN,
            0 <= target <= 100,
            slice_kind(target as int, index as int) == spec_kind_at(seed, x, y),
            index == 0 ==> target == (pick * 100) / (RICHNESS_ONE as int),
        decreases DEPOSIT_KINDS_LEN - index,
    {
        target = target - deposit_kind(index).share;
        if target < 0 {
            return index;
        }
        index += 1;
    }
    DEPOSIT_KINDS_LEN - 1
}

/// One tile's deposit: which kind, and how much of it is there.
#[derive(Clone, Copy, Debug, PartialEq, Eq, Structural)]
pub struct Deposit {
    /// Index into the deposit kinds.
    pub kind: usize,
    /// How rich the patch is at this tile, 0..=1000.
    pub richness: i64,
    /// The mass this tile holds, in grams, exactly.
    pub mass_g: i64,
}

/// The deposit on one tile, or `None` where the ground is barren.
pub open spec fn spec_deposit(seed: u64, x: u32, y: u32) -> Option<Deposit> {
    let richness = spec_noise(seed, SALT_RICHNESS, x, y, GEOLOGY_CELL as i64);
    let kind = spec_kind_at(seed, x, y);
    if richness < spec_deposit_kind(kind).min_richness {
        None
    } else {
        Some(Deposit { kind: kind as usize, richness, mass_g: spec_mass_g(kind, richness as int) as i64 })
    }
}

/// The deposit on one tile, or `None` where the ground is barren. A function of the seed
/// and the tile alone, so the world can be regenerated from its seed.
pub fn deposit(seed: u64, x: u32, y: u32) -> (r: Option<Deposit>)
    ensures
        r == spec_deposit(seed, x, y),
        r matches Some(d) ==> d.kind < DEPOSIT_KINDS_LEN && spec_deposit_kind(d.kind as int).min_richness
            <= d.richness <= RICHNESS_ONE && 0 <= d.mass_g <= spec_mass_g(d.kind as int, RICHNESS_ONE as int),
        r matches Some(d) ==> d.mass_g == spec_mass_g(d.kind as int, d.richness as int),
{
    let richness = noise(seed, SALT_RICHNESS, x, y);
    let kind = kind_at(seed, x, y);
    let declaration = deposit_kind(kind);
    if richness < declaration.min_richness {
        return None;
    }
    Some(Deposit { kind, richness, mass_g: mass_g(kind, richness) })
}


/// A kind's share of the shares laid end to end is one of the declared kinds.
proof fn lemma_slice_kind_in_range(target: int, i: int)
    ensures
        0 <= slice_kind(target, i) < DEPOSIT_KINDS_LEN,
    decreases DEPOSIT_KINDS_LEN - i,
{
    if !(i >= DEPOSIT_KINDS_LEN || i < 0) && target - spec_deposit_kind(i).share >= 0 {
        lemma_slice_kind_in_range(target - spec_deposit_kind(i).share, i + 1);
    }
}

/// The law of a deposit's mass: a tile's deposit weighs what a whole tile of its kind weighs
/// at that deposit's own richness, never the full-richness mass of a poorer seam; and a
/// poorer deposit of a kind never weighs more than a richer one.
pub proof fn law_a_deposit_weighs_at_its_own_richness(seed: u64, x: u32, y: u32, kind: int, poorer: int, richer: int)
    requires
        0 <= kind < DEPOSIT_KINDS_LEN,
        poorer <= richer,
    ensures
        spec_deposit(seed, x, y) matches Some(d) ==> d.mass_g == spec_mass_g(d.kind as int, d.richness as int),
        spec_mass_g(kind, poorer) <= spec_mass_g(kind, richer),
        0 <= poorer < richer <= RICHNESS_ONE ==> spec_mass_g(kind, poorer) < spec_mass_g(kind, richer),
{
    let k = spec_kind_at(seed, x, y);
    lemma_slice_kind_in_range(
        (spec_noise(seed, SALT_KIND, kind_cell_corner(x), kind_cell_corner(y), GEOLOGY_CELL as i64) * 100) / (RICHNESS_ONE as int),
        0,
    );
    assert(0 <= k < DEPOSIT_KINDS_LEN);
    let (n, d) = spec_kind_density(k);
    assert(1 <= n <= 27 && 1 <= d <= 10);
    let richness = spec_noise(seed, SALT_RICHNESS, x, y, GEOLOGY_CELL as i64);
    let c = clamp_richness(richness as int);
    assert(0 <= (128_000_000 * n * c) / (d * 1000) <= 128_000_000 * 27) by (nonlinear_arith)
        requires
            1 <= n <= 27,
            1 <= d <= 10,
            0 <= c <= 1000,
    ;
    let (n2, d2) = spec_kind_density(kind);
    assert(1 <= n2 <= 27 && 1 <= d2 <= 10);
    let c1 = clamp_richness(poorer);
    let c2 = clamp_richness(richer);
    assert(c1 <= c2);
    assert((128_000_000 * n2 * c1) / (d2 * 1000) <= (128_000_000 * n2 * c2) / (d2 * 1000)) by (nonlinear_arith)
        requires
            1 <= n2 <= 27,
            1 <= d2 <= 10,
            0 <= c1 <= c2,
    ;
    if 0 <= poorer < richer <= RICHNESS_ONE {
        assert((128_000_000 * n2 * poorer) / (d2 * 1000) < (128_000_000 * n2 * richer) / (d2 * 1000)) by (nonlinear_arith)
            requires
                1 <= n2 <= 27,
                1 <= d2 <= 10,
                0 <= poorer < richer <= 1000,
        ;
    }
}

} // verus!

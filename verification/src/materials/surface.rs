//! Surface deposits: what the world *grows*.
//!
//! `geology` is where a substance is **mined**. This is the other half: a substance taken
//! **by hand without a mine**, from a patch standing on the ground.
//!
//! * **Derived, like the geology.** The same seed and tile give the same patch, in integer
//!   arithmetic. Nothing about a patch is stored except the delta the world has taken.
//! * **Regrowth is a function of elapsed time, not of ticks.** What a patch stands is
//!   `base - harvested + rate × sim-days since the last take`, held between zero and base.
//! * **A stripped patch stops growing.** A take that leaves less than a tenth of the base
//!   strips the tile.
//!
//! The take total a tile records is **monotone**: `harvested_g` is what this patch has given
//! up, and it never goes down when the patch grows back.
use vstd::prelude::*;

use crate::exact::fits_i64;
use crate::materials::generated::spec_substances;
use crate::materials::geology::{self, noise_at, spec_noise, toward_zero, RICHNESS_ONE};
use crate::materials::schema::{lemma_ground_substances, substance};

verus! {

/// Tiles across one surface patch. Smaller than a geology cell on purpose.
pub const SURFACE_CELL: u32 = 8;

/// The lattice the *kind* field reads: coarser than richness.
pub const KIND_CELL: u32 = 24;

/// The fraction of a patch's base mass below which a take leaves it **stripped to the
/// soil**: one tenth.
pub const STRIP_FLOOR: (i64, i64) = (1, 10);

/// The salt the surface kind field is read with.
pub const SALT_SURFACE_KIND: u64 = 0x5A_11;
/// The salt the surface richness field is read with.
pub const SALT_SURFACE_RICHNESS: u64 = 0x5A_22;

/// One declared surface kind: what grows, how much of it a full tile holds, and how fast
/// it comes back.
#[derive(Clone, Copy, Debug)]
pub struct SurfaceKind {
    /// The substance, in the schema's vocabulary; a surface kind names only a `gathered`
    /// substance.
    pub substance: &'static str,
    /// Mass a full tile holds, in grams.
    pub base_g: i64,
    /// Grams the patch regrows per sim-day once it has been cut back.
    pub regrowth_g_per_day: i64,
    /// The noise floor (0..=1000) a tile must clear to hold this kind.
    pub min_richness: i64,
    /// Relative weight when the field picks a kind.
    pub share: i64,
    /// Why these numbers, so the declaration can be argued with rather than trusted.
    pub note: &'static str,
}

/// How many surface kinds are declared.
pub const SURFACE_KINDS_LEN: usize = 2;

/// One declared surface kind.
pub open spec fn spec_surface_kind(i: int) -> SurfaceKind {
    if i == 0 {
        SurfaceKind {
            substance: "timber",
            base_g: 6_000_000,
            regrowth_g_per_day: 4_200,
            min_richness: 620,
            share: 45,
            note: "a stand: six tonnes on one tile is a few trees, and 4 200 g/day is Q108's *stands take years* — four years for the whole of it, declared rather than sampled",
        }
    } else {
        SurfaceKind {
            substance: "plant_fibre",
            base_g: 1_200_000,
            regrowth_g_per_day: 20_000,
            min_richness: 520,
            share: 55,
            note: "brush: 1.2 t of fibre on a tile, back in about sixty days at 20 kg/day. This is Q108's declared cycle, and the renewable half of the pair",
        }
    }
}

/// One declared surface kind.
pub fn surface_kind(i: usize) -> (r: SurfaceKind)
    requires
        i < SURFACE_KINDS_LEN,
    ensures
        r == spec_surface_kind(i as int),
{
    if i == 0 {
        SurfaceKind {
            substance: "timber",
            base_g: 6_000_000,
            regrowth_g_per_day: 4_200,
            min_richness: 620,
            share: 45,
            note: "a stand: six tonnes on one tile is a few trees, and 4 200 g/day is Q108's *stands take years* — four years for the whole of it, declared rather than sampled",
        }
    } else {
        SurfaceKind {
            substance: "plant_fibre",
            base_g: 1_200_000,
            regrowth_g_per_day: 20_000,
            min_richness: 520,
            share: 55,
            note: "brush: 1.2 t of fibre on a tile, back in about sixty days at 20 kg/day. This is Q108's declared cycle, and the renewable half of the pair",
        }
    }
}

/// The declared surface kinds, in the order the field slices into them.
pub fn surface_kinds() -> (r: Vec<SurfaceKind>)
    ensures
        r@.len() == SURFACE_KINDS_LEN,
        forall|i: int| 0 <= i < SURFACE_KINDS_LEN ==> r@[i] == spec_surface_kind(i),
{
    let mut out: Vec<SurfaceKind> = Vec::new();
    out.push(surface_kind(0));
    out.push(surface_kind(1));
    out
}

/// The substance a kind grows.
pub fn kind_substance(kind: usize) -> (r: &'static str)
    requires
        kind < SURFACE_KINDS_LEN,
    ensures
        r == spec_surface_kind(kind as int).substance,
{
    surface_kind(kind).substance
}

/// The appearance family a kind presents as: the substance's own.
pub fn kind_family(kind: usize) -> (r: &'static str)
    requires
        kind < SURFACE_KINDS_LEN,
    ensures
        r == spec_substances()[kind as int + 5].family,
{
    proof {
        lemma_ground_substances();
        assert(spec_surface_kind(kind as int).substance == spec_substances()[kind as int + 5].name);
    }
    match substance(kind_substance(kind)) {
        Some(entry) => entry.family,
        None => "",
    }
}

/// How fast a kind comes back, in grams per sim-day.
pub fn kind_regrowth(kind: usize) -> (r: i64)
    requires
        kind < SURFACE_KINDS_LEN,
    ensures
        r == spec_surface_kind(kind as int).regrowth_g_per_day,
{
    surface_kind(kind).regrowth_g_per_day
}

/// A patch on one tile: which kind, how rich, and the mass it holds untouched.
#[derive(Clone, Copy, Debug, PartialEq, Eq, Structural)]
pub struct Surface {
    /// Index into the surface kinds.
    pub kind: usize,
    /// How rich the patch is at this tile, 0..=1000.
    pub richness: i64,
    /// The mass this tile holds before anyone takes from it, in grams, exactly.
    pub base_g: i64,
}

/// The mass of one tile of a kind at a given richness: `base × richness / 1000`.
pub open spec fn spec_mass_g(kind: int, richness: int) -> int {
    spec_surface_kind(kind).base_g * geology::clamp_richness(richness) / RICHNESS_ONE as int
}

/// The mass of one tile of a kind at a given richness, in grams, exactly.
pub fn mass_g(kind: usize, richness: i64) -> (r: i64)
    requires
        kind < SURFACE_KINDS_LEN,
    ensures
        r == spec_mass_g(kind as int, richness as int),
        0 <= r <= spec_surface_kind(kind as int).base_g,
{
    let clamped: i64 = if richness < 0 {
        0
    } else if richness > RICHNESS_ONE {
        RICHNESS_ONE
    } else {
        richness
    };
    let base = surface_kind(kind).base_g;
    proof {
        assert(0 <= base * clamped <= 6_000_000 * 1000) by (nonlinear_arith)
            requires 0 <= base <= 6_000_000, 0 <= clamped <= 1000;
        assert(base * clamped / 1000 <= base) by (nonlinear_arith)
            requires 0 <= base, 0 <= clamped <= 1000;
    }
    base * clamped / RICHNESS_ONE
}

/// The declared base mass of a kind at full richness.
pub fn full_mass_g(kind: usize) -> (r: i64)
    requires
        kind < SURFACE_KINDS_LEN,
    ensures
        r == spec_surface_kind(kind as int).base_g,
{
    surface_kind(kind).base_g
}

/// The kind a target lands in when the declared shares are laid end to end.
pub open spec fn slice_kind(target: int) -> int {
    if target - spec_surface_kind(0).share < 0 {
        0
    } else {
        1
    }
}

/// Which kind a patch grows, read from a coarser field than richness.
pub open spec fn spec_kind_at(seed: u64, x: u32, y: u32) -> int {
    let pick = spec_noise(
        seed,
        SALT_SURFACE_KIND,
        ((x / KIND_CELL) * KIND_CELL) as u32,
        ((y / KIND_CELL) * KIND_CELL) as u32,
        KIND_CELL as i64,
    );
    slice_kind((pick * 100) / (RICHNESS_ONE as int))
}

fn kind_at(seed: u64, x: u32, y: u32) -> (r: usize)
    ensures
        r == spec_kind_at(seed, x, y),
        r < SURFACE_KINDS_LEN,
{
    let cell = KIND_CELL;
    let pick = noise_at(seed, SALT_SURFACE_KIND, (x / cell) * cell, (y / cell) * cell, KIND_CELL as i64);
    let total: i64 = surface_kind(0).share + surface_kind(1).share;
    let mut target = pick * total / RICHNESS_ONE;
    target = target - surface_kind(0).share;
    if target < 0 {
        return 0;
    }
    target = target - surface_kind(1).share;
    if target < 0 {
        return 1;
    }
    SURFACE_KINDS_LEN - 1
}

/// The surface richness at a tile.
pub open spec fn spec_richness_at(seed: u64, x: u32, y: u32) -> i64 {
    spec_noise(seed, SALT_SURFACE_RICHNESS, x, y, SURFACE_CELL as i64)
}

fn richness_at(seed: u64, x: u32, y: u32) -> (r: i64)
    ensures
        r == spec_richness_at(seed, x, y),
        0 <= r <= 1000,
{
    noise_at(seed, SALT_SURFACE_RICHNESS, x, y, SURFACE_CELL as i64)
}

/// The patch on one tile, or `None` where the ground grows nothing worth taking.
pub open spec fn spec_surface(seed: u64, x: u32, y: u32) -> Option<Surface> {
    let richness = spec_richness_at(seed, x, y);
    let kind = spec_kind_at(seed, x, y);
    if richness < spec_surface_kind(kind).min_richness {
        None
    } else {
        Some(Surface { kind: kind as usize, richness, base_g: spec_mass_g(kind, richness as int) as i64 })
    }
}

/// The patch on one tile, or `None` where the ground grows nothing worth taking. Pure and
/// seed-derived: whether a tile is reachable or built on is the world's business.
pub fn surface(seed: u64, x: u32, y: u32) -> (r: Option<Surface>)
    ensures
        r == spec_surface(seed, x, y),
        r matches Some(s) ==> s.kind < SURFACE_KINDS_LEN && 0 <= s.base_g <= spec_surface_kind(
            s.kind as int,
        ).base_g,
{
    let richness = richness_at(seed, x, y);
    let kind = kind_at(seed, x, y);
    if richness < surface_kind(kind).min_richness {
        return None;
    }
    Some(Surface { kind, richness, base_g: mass_g(kind, richness) })
}

/// This tile's own regrowth rate: the kind's declared rate scaled by the tile's share of
/// the kind's full base. A thin edge comes back more slowly than its middle.
pub open spec fn spec_tile_regrowth(kind: int, base_g: int) -> int {
    let full = spec_surface_kind(kind).base_g;
    if full <= 0 {
        0
    } else {
        toward_zero(spec_surface_kind(kind).regrowth_g_per_day * base_g, full as int)
    }
}

/// This tile's own regrowth rate, in grams per sim-day.
pub fn tile_regrowth_g_per_day(kind: usize, base_g: i64) -> (r: i64)
    requires
        kind < SURFACE_KINDS_LEN,
        fits_i64(spec_surface_kind(kind as int).regrowth_g_per_day * base_g),
    ensures
        r == spec_tile_regrowth(kind as int, base_g as int),
{
    let declared = surface_kind(kind);
    let full = declared.base_g;
    if full <= 0 {
        return 0;
    }
    declared.regrowth_g_per_day * base_g / full
}

/// Sim-days since the last take, as the machine counts them.
pub open spec fn elapsed_days(harvested_day: u64, day: u64) -> i64 {
    (if day >= harvested_day {
        day - harvested_day
    } else {
        0
    }) as i64
}

/// What a patch stands right now, given the delta the world stores for that tile.
pub open spec fn spec_standing(
    base_g: int,
    regrowth_g_per_day: int,
    harvested_g: int,
    harvested_day: u64,
    stripped: bool,
    day: u64,
) -> int {
    if stripped {
        0
    } else {
        let raw = base_g - harvested_g + regrowth_g_per_day * elapsed_days(harvested_day, day);
        if raw < 0 {
            0
        } else if raw > base_g {
            base_g
        } else {
            raw
        }
    }
}

/// Whether what a patch stands can be computed in 64 bits.
pub open spec fn standing_fits(
    base_g: int,
    regrowth_g_per_day: int,
    harvested_g: int,
    harvested_day: u64,
    day: u64,
) -> bool {
    &&& base_g >= 0
    &&& fits_i64(base_g - harvested_g)
    &&& fits_i64(regrowth_g_per_day * elapsed_days(harvested_day, day))
    &&& fits_i64(base_g - harvested_g + regrowth_g_per_day * elapsed_days(harvested_day, day))
}

/// What a patch stands right now: a function of elapsed sim-days, held between zero and
/// the patch's base. A stripped patch stands nothing, however long it waits.
pub fn standing_g(
    base_g: i64,
    regrowth_g_per_day: i64,
    harvested_g: i64,
    harvested_day: u64,
    stripped: bool,
    day: u64,
) -> (r: i64)
    requires
        stripped || standing_fits(base_g as int, regrowth_g_per_day as int, harvested_g as int, harvested_day, day),
    ensures
        r == spec_standing(base_g as int, regrowth_g_per_day as int, harvested_g as int, harvested_day, stripped, day),
        stripped ==> r == 0,
{
    if stripped {
        return 0;
    }
    let elapsed = day.saturating_sub(harvested_day) as i64;
    let raw = base_g - harvested_g + regrowth_g_per_day * elapsed;
    if raw < 0 {
        0
    } else if raw > base_g {
        base_g
    } else {
        raw
    }
}

/// One take's arithmetic: what came off the patch, what the tile's delta becomes, and
/// whether the patch is stripped.
#[derive(Clone, Copy, Debug, PartialEq, Eq, Structural)]
pub struct Take {
    /// What actually came off, in grams: never more than the patch stood.
    pub taken_g: i64,
    /// The tile's new take total, in grams.
    pub harvested_g: i64,
    /// Whether the patch is now stripped to the soil.
    pub stripped: bool,
}

/// The take a patch gives up when `want_g` is asked of it.
pub open spec fn spec_take(
    base_g: int,
    regrowth_g_per_day: int,
    harvested_g: int,
    harvested_day: u64,
    stripped: bool,
    day: u64,
    want_g: int,
) -> Take {
    let now = spec_standing(base_g, regrowth_g_per_day, harvested_g, harvested_day, stripped, day);
    let taken = if want_g < 0 {
        0
    } else if want_g > now {
        now
    } else {
        want_g
    };
    let after = now - taken;
    Take {
        taken_g: taken as i64,
        harvested_g: (harvested_g + taken) as i64,
        stripped: stripped || after * STRIP_FLOOR.1 < base_g * STRIP_FLOOR.0,
    }
}

/// Take up to `want_g` off a patch, returning **only what stood there**: a caller handed
/// more than the ground held would break the ledger at the next audit.
pub fn take(
    base_g: i64,
    regrowth_g_per_day: i64,
    harvested_g: i64,
    harvested_day: u64,
    stripped: bool,
    day: u64,
    want_g: i64,
) -> (r: Take)
    requires
        base_g >= 0,
        base_g * 10 <= i64::MAX,
        stripped || standing_fits(base_g as int, regrowth_g_per_day as int, harvested_g as int, harvested_day, day),
        fits_i64(harvested_g + spec_standing(base_g as int, regrowth_g_per_day as int, harvested_g as int, harvested_day, stripped, day)),
    ensures
        r == spec_take(base_g as int, regrowth_g_per_day as int, harvested_g as int, harvested_day, stripped, day, want_g as int),
        0 <= r.taken_g <= spec_standing(base_g as int, regrowth_g_per_day as int, harvested_g as int, harvested_day, stripped, day),
        r.harvested_g == harvested_g + r.taken_g,
        r.harvested_g >= harvested_g,
        stripped ==> r.stripped,
        want_g <= 0 ==> r.taken_g == 0,
        0 <= want_g <= spec_standing(base_g as int, regrowth_g_per_day as int, harvested_g as int, harvested_day, stripped, day) ==> r.taken_g == want_g,
        want_g >= spec_standing(base_g as int, regrowth_g_per_day as int, harvested_g as int, harvested_day, stripped, day) ==> r.taken_g == spec_standing(base_g as int, regrowth_g_per_day as int, harvested_g as int, harvested_day, stripped, day),
        r.stripped == (stripped || (spec_standing(base_g as int, regrowth_g_per_day as int, harvested_g as int, harvested_day, stripped, day) - r.taken_g) * 10 < base_g),
{
    let now = standing_g(base_g, regrowth_g_per_day, harvested_g, harvested_day, stripped, day);
    let taken_g: i64 = if want_g < 0 {
        0
    } else if want_g > now {
        now
    } else {
        want_g
    };
    let after = now - taken_g;
    let stripped = stripped || after * STRIP_FLOOR.1 < base_g * STRIP_FLOOR.0;
    Take { taken_g, harvested_g: harvested_g + taken_g, stripped }
}


/// The law of a take: it comes off what stands, never more than was asked or than stood, and
/// it strips the patch exactly when what stands after it is below a tenth of the patch's
/// base, or the patch was stripped already. How much the patch has given up over its life
/// does not enter: a patch that has grown back is as whole as one never touched.
pub proof fn law_a_take_strips_below_a_tenth(
    base_g: int,
    regrowth_g_per_day: int,
    harvested_g: int,
    harvested_day: u64,
    stripped: bool,
    day: u64,
    want_g: int,
)
    requires
        base_g >= 0,
        base_g * 10 <= i64::MAX,
        fits_i64(harvested_g),
        fits_i64(harvested_g + spec_standing(base_g, regrowth_g_per_day, harvested_g, harvested_day, stripped, day)),
    ensures
        ({
            let now = spec_standing(base_g, regrowth_g_per_day, harvested_g, harvested_day, stripped, day);
            let r = spec_take(base_g, regrowth_g_per_day, harvested_g, harvested_day, stripped, day, want_g);
            &&& 0 <= r.taken_g <= now
            &&& want_g >= 0 ==> r.taken_g <= want_g
            &&& (want_g >= 0 ==> r.taken_g == want_g || r.taken_g == now)
            &&& r.harvested_g == harvested_g + r.taken_g
            &&& r.stripped == (stripped || (now - r.taken_g) * 10 < base_g)
        }),
{
    let now = spec_standing(base_g, regrowth_g_per_day, harvested_g, harvested_day, stripped, day);
    assert(0 <= now <= base_g);
}

} // verus!

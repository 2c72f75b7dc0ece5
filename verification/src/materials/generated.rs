//! The declared material tables: substances, processes, ages, and the names the
//! colour table resolves. Every number here is an integer or a rational; the colour
//! readings that need floating point live with the renderer rather than here.

use vstd::prelude::*;

verus! {

/// The digest of the declaration these tables were emitted from.
pub const SOURCE_DIGEST: u64 = 0x4218A3E2DCE1FCC2;
/// The program that emits the declaration.
pub const GENERATED_BY: &'static str = "tools/materials/emit.py";
/// The name of a family's untinted hue.
pub const NATURAL: &'static str = "natural";

/// One declared rational: a numerator over a denominator, in integers.
///
/// A float is what the schema refuses, because a ledger in mixed units balances only
/// if every conversion is exact.
#[derive(Clone, Copy, Debug, PartialEq, Eq, Structural)]
pub struct Rational {
    pub num: i64,
    pub den: i64,
}

/// One substance: what it is measured in, what it presents as, and where it comes from.
#[derive(Clone, Copy, Debug)]
pub struct Substance {
    pub name: &'static str,
    pub family: &'static str,
    pub hue: &'static str,
    /// Mass | Volume | Count | Gas: the canonical unit the ledger counts in.
    pub unit: &'static str,
    /// g/mL, required for Volume and Gas; zero where the unit does not need it.
    pub density: Rational,
    /// Grams per unit, required for Count; zero where the unit does not need it.
    pub unit_mass: Rational,
    /// Condition lost per sim-day.
    pub rot_per_day: Rational,
    pub tags: &'static [&'static str],
    pub source: &'static str,
    /// The natural unit a person reads it in, and its exact grams per unit.
    pub display_unit: &'static str,
    pub display_grams: Rational,
    /// Why nothing consumes it, or empty when something does.
    pub no_consumer: &'static str,
    pub note: &'static str,
}

/// What a process costs to run, as numbers rather than as prose.
#[derive(Clone, Copy, Debug)]
pub struct Mechanism {
    pub heat_c: i64,
    /// `material` or `flame`, empty when nothing is heated.
    pub heat_kind: &'static str,
    pub hours: Rational,
    pub labour_hours: Rational,
    pub power_kw: i64,
}

/// One process: what it takes, what it gives, and the number behind it.
#[derive(Clone, Copy, Debug)]
pub struct Process {
    pub name: &'static str,
    pub tier: &'static str,
    pub inputs: &'static [(&'static str, Rational)],
    pub outputs: &'static [(&'static str, Rational)],
    pub mechanism: Mechanism,
    /// What must exist for the work to be possible: (kind, name) pairs.
    pub requires: &'static [(&'static str, &'static str)],
    pub note: &'static str,
}

/// One resolved colour-table entry, by the names it is declared under.
#[derive(Clone, Copy, Debug)]
pub struct MaterialName {
    pub name: &'static str,
    pub family: &'static str,
    pub hue: &'static str,
    pub level: &'static str,
}

/// How many rows tiers() holds.
pub const TIERS_LEN: usize = 2;

/// One row of tiers(), by its position.
pub open spec fn spec_tiers_row(i: int) -> (&'static str, i64, &'static str) {
    if i == 0 {
        ("hands & stone", 0, "no structure and no tool: what a person does with hands and with stone picked up and used")
    } else 
{
        ("bound & composite", 1, "things joined to other things — cord, haft, assembly — which is the first real manufacturing")
    }

}

/// The ages, as rows: name, ordinal, and what the age is.
pub open spec fn spec_tiers() -> Seq<(&'static str, i64, &'static str)> {
    Seq::new(2, |i: int| spec_tiers_row(i))
}

/// One row of tiers(), by its position.
pub fn tiers_row(i: usize) -> (row: (&'static str, i64, &'static str))
    requires
        i < 2,
    ensures
        row == spec_tiers_row(i as int),
{
    match i {
        0 => ("hands & stone", 0, "no structure and no tool: what a person does with hands and with stone picked up and used"),
        _ => ("bound & composite", 1, "things joined to other things — cord, haft, assembly — which is the first real manufacturing"),
    }
}

/// The ages, as rows: name, ordinal, and what the age is.
pub fn tiers() -> (rows: Vec<(&'static str, i64, &'static str)>)
    ensures
        rows@ == spec_tiers(),
{
    let mut rows: Vec<(&'static str, i64, &'static str)> = Vec::new();
    let mut i: usize = 0;
    while i < 2
        invariant
            i <= 2,
            rows@ == spec_tiers().take(i as int),
        decreases 2 - i,
    {
        rows.push(tiers_row(i));
        i += 1;
        assert(rows@ =~= spec_tiers().take(i as int));
    }
    assert(rows@ =~= spec_tiers());
    rows
}

/// How many rows substances() holds.
pub const SUBSTANCES_LEN: usize = 16;

/// One row of substances(), by its position.
pub open spec fn spec_substances_row(i: int) -> Substance {
    if i == 0 {
        Substance { name: "stone", family: "ceramic", hue: "natural", unit: "Mass", density: Rational { num: 13, den: 5 }, unit_mass: Rational { num: 0, den: 1 }, rot_per_day: Rational { num: 0, den: 1 }, tags: &["structure"], source: "mined", display_unit: "t", display_grams: Rational { num: 1000000, den: 1 }, no_consumer: "", note: "the deposit kind `stone`; consumed by knapping, and the bulk of every masonry age", }
    } else 
if i == 1 {
        Substance { name: "sand", family: "ceramic", hue: "natural", unit: "Mass", density: Rational { num: 8, den: 5 }, unit_mass: Rational { num: 0, den: 1 }, rot_per_day: Rational { num: 0, den: 1 }, tags: &["structure"], source: "mined", display_unit: "t", display_grams: Rational { num: 1000000, den: 1 }, no_consumer: "the aggregate half of glass and mortar: glass waits for the kiln and mortar for the lime process, both of which need SOURCES [NS] rows", note: "the deposit kind `sand`; the aggregate half of glass and mortar", }
    } else 
if i == 2 {
        Substance { name: "clay", family: "ceramic", hue: "natural", unit: "Mass", density: Rational { num: 19, den: 10 }, unit_mass: Rational { num: 0, den: 1 }, rot_per_day: Rational { num: 0, den: 1 }, tags: &["structure"], source: "mined", display_unit: "t", display_grams: Rational { num: 1000000, den: 1 }, no_consumer: "unfired it is mud, which is why brick waits for the kiln — and the kiln is a process structure this table has not declared yet", note: "the deposit kind `clay`; unfired it is mud, which is why brick waits for the kiln", }
    } else 
if i == 3 {
        Substance { name: "coal", family: "soil", hue: "natural", unit: "Mass", density: Rational { num: 13, den: 10 }, unit_mass: Rational { num: 0, den: 1 }, rot_per_day: Rational { num: 0, den: 1 }, tags: &["fuel"], source: "mined", display_unit: "t", display_grams: Rational { num: 1000000, den: 1 }, no_consumer: "the fuel of the coal ages: nothing burns anything until the smelt lands, and the smelt needs SOURCES [NS] rows (coke per tonne, blast temperature)", note: "", }
    } else 
if i == 4 {
        Substance { name: "iron_ore", family: "metal", hue: "natural", unit: "Mass", density: Rational { num: 27, den: 10 }, unit_mass: Rational { num: 0, den: 1 }, rot_per_day: Rational { num: 0, den: 1 }, tags: &[], source: "mined", display_unit: "t", display_grams: Rational { num: 1000000, den: 1 }, no_consumer: "the metal ages' input: the ore-to-blade rung is blocked on the iron ore grade row in `tools/materials/SOURCES.md`, which is [NS] — and an invented grade would make the whole ledger look sourced while being declared", note: "", }
    } else 
if i == 5 {
        Substance { name: "timber", family: "organic", hue: "natural", unit: "Mass", density: Rational { num: 7, den: 10 }, unit_mass: Rational { num: 0, den: 1 }, rot_per_day: Rational { num: 0, den: 1 }, tags: &["fuel", "structure"], source: "gathered", display_unit: "kg", display_grams: Rational { num: 1000, den: 1 }, no_consumer: "", note: "taken from a standing surface deposit (Q102); the first material a founder touches", }
    } else 
if i == 6 {
        Substance { name: "plant_fibre", family: "organic", hue: "natural", unit: "Mass", density: Rational { num: 3, den: 10 }, unit_mass: Rational { num: 0, den: 1 }, rot_per_day: Rational { num: 0, den: 1 }, tags: &[], source: "gathered", display_unit: "kg", display_grams: Rational { num: 1000, den: 1 }, no_consumer: "", note: "brush and cordage stock; the only thing available to bind with before metal", }
    } else 
if i == 7 {
        Substance { name: "haft_blank", family: "organic", hue: "natural", unit: "Mass", density: Rational { num: 7, den: 10 }, unit_mass: Rational { num: 0, den: 1 }, rot_per_day: Rational { num: 0, den: 1 }, tags: &[], source: "made", display_unit: "kg", display_grams: Rational { num: 1000, den: 1 }, no_consumer: "", note: "a riven haft, before assembly: the same timber, one process later", }
    } else 
if i == 8 {
        Substance { name: "knapped_edge", family: "ceramic", hue: "natural", unit: "Mass", density: Rational { num: 13, den: 5 }, unit_mass: Rational { num: 0, den: 1 }, rot_per_day: Rational { num: 0, den: 1 }, tags: &[], source: "made", display_unit: "kg", display_grams: Rational { num: 1000, den: 1 }, no_consumer: "", note: "a worked stone edge: flaked, not ground, which is what the stone age actually did", }
    } else 
if i == 9 {
        Substance { name: "cord", family: "organic", hue: "natural", unit: "Mass", density: Rational { num: 1, den: 2 }, unit_mass: Rational { num: 0, den: 1 }, rot_per_day: Rational { num: 0, den: 1 }, tags: &[], source: "made", display_unit: "kg", display_grams: Rational { num: 1000, den: 1 }, no_consumer: "", note: "twisted fibre; the first thing in the world that binds two other things together", }
    } else 
if i == 10 {
        Substance { name: "hatchet", family: "ceramic", hue: "natural", unit: "Count", density: Rational { num: 0, den: 1 }, unit_mass: Rational { num: 2900, den: 1 }, rot_per_day: Rational { num: 0, den: 1 }, tags: &["tool"], source: "made", display_unit: "hatchet", display_grams: Rational { num: 0, den: 1 }, no_consumer: "a tool is held and used, not consumed by a process: what consumes it is wear, which is the MAINTAIN half of phase 3 and not a row in this rung", note: "the edge is the part that identifies it, so the table reads it as the stone it is made of — a tool of two materials presents as the one that says what it does", }
    } else 
if i == 11 {
        Substance { name: "timber_offcuts", family: "organic", hue: "natural", unit: "Mass", density: Rational { num: 7, den: 10 }, unit_mass: Rational { num: 0, den: 1 }, rot_per_day: Rational { num: 0, den: 1 }, tags: &[], source: "made", display_unit: "kg", display_grams: Rational { num: 1000, den: 1 }, no_consumer: "an end product: offcuts leave the process and accumulate. They are mass the ledger can still point at, which is why a loss is declared as an output rather than subtracted from the total", note: "declared, not hoped for: a process that loses mass silently is a process that creates it", }
    } else 
if i == 12 {
        Substance { name: "stone_flakes", family: "ceramic", hue: "natural", unit: "Mass", density: Rational { num: 13, den: 5 }, unit_mass: Rational { num: 0, den: 1 }, rot_per_day: Rational { num: 0, den: 1 }, tags: &[], source: "made", display_unit: "kg", display_grams: Rational { num: 1000, den: 1 }, no_consumer: "an end product: debitage. Salvage (Q71) is where it earns a consumer", note: "knapping loses more than half its stone as flakes, and the ratio is declared here", }
    } else 
if i == 13 {
        Substance { name: "fibre_dust", family: "organic", hue: "natural", unit: "Mass", density: Rational { num: 3, den: 10 }, unit_mass: Rational { num: 0, den: 1 }, rot_per_day: Rational { num: 0, den: 1 }, tags: &[], source: "made", display_unit: "kg", display_grams: Rational { num: 1000, den: 1 }, no_consumer: "an end product: short fibres too fine to twist", note: "", }
    } else 
if i == 14 {
        Substance { name: "trim_waste", family: "soil", hue: "natural", unit: "Mass", density: Rational { num: 1, den: 1 }, unit_mass: Rational { num: 0, den: 1 }, rot_per_day: Rational { num: 0, den: 1 }, tags: &[], source: "made", display_unit: "kg", display_grams: Rational { num: 1000, den: 1 }, no_consumer: "an end product: mixed-material trimmings, and the one declared destination for a process whose losses are not one material", note: "declared as `soil` because a mixture of stone, timber and fibre reads as aggregate", }
    } else 
{
        Substance { name: "water", family: "water", hue: "natural", unit: "Volume", density: Rational { num: 1, den: 1 }, unit_mass: Rational { num: 0, den: 1 }, rot_per_day: Rational { num: 0, den: 1 }, tags: &[], source: "gathered", display_unit: "L", display_grams: Rational { num: 1000, den: 1 }, no_consumer: "drinking, washing and irrigation arrive with phase 7's couplings; the world already draws it, so the substance exists and the consumer does not", note: "declared in millilitres with a density of 1 g/mL, so the conversion is exact by construction rather than by a constant that happens to be 1", }
    }

}

/// Every declared substance.
pub open spec fn spec_substances() -> Seq<Substance> {
    Seq::new(16, |i: int| spec_substances_row(i))
}

/// One row of substances(), by its position.
pub fn substances_row(i: usize) -> (row: Substance)
    requires
        i < 16,
    ensures
        row == spec_substances_row(i as int),
{
    match i {
        0 => Substance { name: "stone", family: "ceramic", hue: "natural", unit: "Mass", density: Rational { num: 13, den: 5 }, unit_mass: Rational { num: 0, den: 1 }, rot_per_day: Rational { num: 0, den: 1 }, tags: &["structure"], source: "mined", display_unit: "t", display_grams: Rational { num: 1000000, den: 1 }, no_consumer: "", note: "the deposit kind `stone`; consumed by knapping, and the bulk of every masonry age", },
        1 => Substance { name: "sand", family: "ceramic", hue: "natural", unit: "Mass", density: Rational { num: 8, den: 5 }, unit_mass: Rational { num: 0, den: 1 }, rot_per_day: Rational { num: 0, den: 1 }, tags: &["structure"], source: "mined", display_unit: "t", display_grams: Rational { num: 1000000, den: 1 }, no_consumer: "the aggregate half of glass and mortar: glass waits for the kiln and mortar for the lime process, both of which need SOURCES [NS] rows", note: "the deposit kind `sand`; the aggregate half of glass and mortar", },
        2 => Substance { name: "clay", family: "ceramic", hue: "natural", unit: "Mass", density: Rational { num: 19, den: 10 }, unit_mass: Rational { num: 0, den: 1 }, rot_per_day: Rational { num: 0, den: 1 }, tags: &["structure"], source: "mined", display_unit: "t", display_grams: Rational { num: 1000000, den: 1 }, no_consumer: "unfired it is mud, which is why brick waits for the kiln — and the kiln is a process structure this table has not declared yet", note: "the deposit kind `clay`; unfired it is mud, which is why brick waits for the kiln", },
        3 => Substance { name: "coal", family: "soil", hue: "natural", unit: "Mass", density: Rational { num: 13, den: 10 }, unit_mass: Rational { num: 0, den: 1 }, rot_per_day: Rational { num: 0, den: 1 }, tags: &["fuel"], source: "mined", display_unit: "t", display_grams: Rational { num: 1000000, den: 1 }, no_consumer: "the fuel of the coal ages: nothing burns anything until the smelt lands, and the smelt needs SOURCES [NS] rows (coke per tonne, blast temperature)", note: "", },
        4 => Substance { name: "iron_ore", family: "metal", hue: "natural", unit: "Mass", density: Rational { num: 27, den: 10 }, unit_mass: Rational { num: 0, den: 1 }, rot_per_day: Rational { num: 0, den: 1 }, tags: &[], source: "mined", display_unit: "t", display_grams: Rational { num: 1000000, den: 1 }, no_consumer: "the metal ages' input: the ore-to-blade rung is blocked on the iron ore grade row in `tools/materials/SOURCES.md`, which is [NS] — and an invented grade would make the whole ledger look sourced while being declared", note: "", },
        5 => Substance { name: "timber", family: "organic", hue: "natural", unit: "Mass", density: Rational { num: 7, den: 10 }, unit_mass: Rational { num: 0, den: 1 }, rot_per_day: Rational { num: 0, den: 1 }, tags: &["fuel", "structure"], source: "gathered", display_unit: "kg", display_grams: Rational { num: 1000, den: 1 }, no_consumer: "", note: "taken from a standing surface deposit (Q102); the first material a founder touches", },
        6 => Substance { name: "plant_fibre", family: "organic", hue: "natural", unit: "Mass", density: Rational { num: 3, den: 10 }, unit_mass: Rational { num: 0, den: 1 }, rot_per_day: Rational { num: 0, den: 1 }, tags: &[], source: "gathered", display_unit: "kg", display_grams: Rational { num: 1000, den: 1 }, no_consumer: "", note: "brush and cordage stock; the only thing available to bind with before metal", },
        7 => Substance { name: "haft_blank", family: "organic", hue: "natural", unit: "Mass", density: Rational { num: 7, den: 10 }, unit_mass: Rational { num: 0, den: 1 }, rot_per_day: Rational { num: 0, den: 1 }, tags: &[], source: "made", display_unit: "kg", display_grams: Rational { num: 1000, den: 1 }, no_consumer: "", note: "a riven haft, before assembly: the same timber, one process later", },
        8 => Substance { name: "knapped_edge", family: "ceramic", hue: "natural", unit: "Mass", density: Rational { num: 13, den: 5 }, unit_mass: Rational { num: 0, den: 1 }, rot_per_day: Rational { num: 0, den: 1 }, tags: &[], source: "made", display_unit: "kg", display_grams: Rational { num: 1000, den: 1 }, no_consumer: "", note: "a worked stone edge: flaked, not ground, which is what the stone age actually did", },
        9 => Substance { name: "cord", family: "organic", hue: "natural", unit: "Mass", density: Rational { num: 1, den: 2 }, unit_mass: Rational { num: 0, den: 1 }, rot_per_day: Rational { num: 0, den: 1 }, tags: &[], source: "made", display_unit: "kg", display_grams: Rational { num: 1000, den: 1 }, no_consumer: "", note: "twisted fibre; the first thing in the world that binds two other things together", },
        10 => Substance { name: "hatchet", family: "ceramic", hue: "natural", unit: "Count", density: Rational { num: 0, den: 1 }, unit_mass: Rational { num: 2900, den: 1 }, rot_per_day: Rational { num: 0, den: 1 }, tags: &["tool"], source: "made", display_unit: "hatchet", display_grams: Rational { num: 0, den: 1 }, no_consumer: "a tool is held and used, not consumed by a process: what consumes it is wear, which is the MAINTAIN half of phase 3 and not a row in this rung", note: "the edge is the part that identifies it, so the table reads it as the stone it is made of — a tool of two materials presents as the one that says what it does", },
        11 => Substance { name: "timber_offcuts", family: "organic", hue: "natural", unit: "Mass", density: Rational { num: 7, den: 10 }, unit_mass: Rational { num: 0, den: 1 }, rot_per_day: Rational { num: 0, den: 1 }, tags: &[], source: "made", display_unit: "kg", display_grams: Rational { num: 1000, den: 1 }, no_consumer: "an end product: offcuts leave the process and accumulate. They are mass the ledger can still point at, which is why a loss is declared as an output rather than subtracted from the total", note: "declared, not hoped for: a process that loses mass silently is a process that creates it", },
        12 => Substance { name: "stone_flakes", family: "ceramic", hue: "natural", unit: "Mass", density: Rational { num: 13, den: 5 }, unit_mass: Rational { num: 0, den: 1 }, rot_per_day: Rational { num: 0, den: 1 }, tags: &[], source: "made", display_unit: "kg", display_grams: Rational { num: 1000, den: 1 }, no_consumer: "an end product: debitage. Salvage (Q71) is where it earns a consumer", note: "knapping loses more than half its stone as flakes, and the ratio is declared here", },
        13 => Substance { name: "fibre_dust", family: "organic", hue: "natural", unit: "Mass", density: Rational { num: 3, den: 10 }, unit_mass: Rational { num: 0, den: 1 }, rot_per_day: Rational { num: 0, den: 1 }, tags: &[], source: "made", display_unit: "kg", display_grams: Rational { num: 1000, den: 1 }, no_consumer: "an end product: short fibres too fine to twist", note: "", },
        14 => Substance { name: "trim_waste", family: "soil", hue: "natural", unit: "Mass", density: Rational { num: 1, den: 1 }, unit_mass: Rational { num: 0, den: 1 }, rot_per_day: Rational { num: 0, den: 1 }, tags: &[], source: "made", display_unit: "kg", display_grams: Rational { num: 1000, den: 1 }, no_consumer: "an end product: mixed-material trimmings, and the one declared destination for a process whose losses are not one material", note: "declared as `soil` because a mixture of stone, timber and fibre reads as aggregate", },
        _ => Substance { name: "water", family: "water", hue: "natural", unit: "Volume", density: Rational { num: 1, den: 1 }, unit_mass: Rational { num: 0, den: 1 }, rot_per_day: Rational { num: 0, den: 1 }, tags: &[], source: "gathered", display_unit: "L", display_grams: Rational { num: 1000, den: 1 }, no_consumer: "drinking, washing and irrigation arrive with phase 7's couplings; the world already draws it, so the substance exists and the consumer does not", note: "declared in millilitres with a density of 1 g/mL, so the conversion is exact by construction rather than by a constant that happens to be 1", },
    }
}

/// Every declared substance.
pub fn substances() -> (rows: Vec<Substance>)
    ensures
        rows@ == spec_substances(),
{
    let mut rows: Vec<Substance> = Vec::new();
    let mut i: usize = 0;
    while i < 16
        invariant
            i <= 16,
            rows@ == spec_substances().take(i as int),
        decreases 16 - i,
    {
        rows.push(substances_row(i));
        i += 1;
        assert(rows@ =~= spec_substances().take(i as int));
    }
    assert(rows@ =~= spec_substances());
    rows
}

/// How many rows processes() holds.
pub const PROCESSES_LEN: usize = 7;

/// One row of processes(), by its position.
pub open spec fn spec_processes_row(i: int) -> Process {
    if i == 0 {
        Process { name: "gather timber", tier: "hands & stone", inputs: &[], outputs: &[("timber", Rational { num: 3000, den: 1 })], mechanism: Mechanism { heat_c: 0, heat_kind: "", hours: Rational { num: 1, den: 4 }, labour_hours: Rational { num: 1, den: 4 }, power_kw: 0 }, requires: &[], note: "3000 g is one armful; the rate is declared (SOURCES: durations and labour costs are `[D]`, because no source states what a game gather costs)", }
    } else 
if i == 1 {
        Process { name: "riven haft", tier: "hands & stone", inputs: &[("timber", Rational { num: 3000, den: 1 })], outputs: &[("haft_blank", Rational { num: 2400, den: 1 }), ("timber_offcuts", Rational { num: 600, den: 1 })], mechanism: Mechanism { heat_c: 0, heat_kind: "", hours: Rational { num: 1, den: 3 }, labour_hours: Rational { num: 1, den: 3 }, power_kw: 0 }, requires: &[], note: "riving, not sawing: splitting along the grain is what the stone age can do, and it is why a haft is a blank rather than a cut board", }
    } else 
if i == 2 {
        Process { name: "gather stone", tier: "hands & stone", inputs: &[], outputs: &[("stone", Rational { num: 1000, den: 1 })], mechanism: Mechanism { heat_c: 0, heat_kind: "", hours: Rational { num: 1, den: 4 }, labour_hours: Rational { num: 1, den: 4 }, power_kw: 0 }, requires: &[], note: "1000 g is one carried load", }
    } else 
if i == 3 {
        Process { name: "knap a core", tier: "hands & stone", inputs: &[("stone", Rational { num: 1000, den: 1 })], outputs: &[("knapped_edge", Rational { num: 800, den: 1 }), ("stone_flakes", Rational { num: 200, den: 1 })], mechanism: Mechanism { heat_c: 0, heat_kind: "", hours: Rational { num: 1, den: 2 }, labour_hours: Rational { num: 1, den: 2 }, power_kw: 0 }, requires: &[], note: "the 800/200 split is declared `[D]`: real knapping loses more, but a usable edge is what the process is for and the flakes are the loss", }
    } else 
if i == 4 {
        Process { name: "gather plant fibre", tier: "hands & stone", inputs: &[], outputs: &[("plant_fibre", Rational { num: 100, den: 1 })], mechanism: Mechanism { heat_c: 0, heat_kind: "", hours: Rational { num: 1, den: 6 }, labour_hours: Rational { num: 1, den: 6 }, power_kw: 0 }, requires: &[], note: "", }
    } else 
if i == 5 {
        Process { name: "twist cord", tier: "bound & composite", inputs: &[("plant_fibre", Rational { num: 100, den: 1 })], outputs: &[("cord", Rational { num: 95, den: 1 }), ("fibre_dust", Rational { num: 5, den: 1 })], mechanism: Mechanism { heat_c: 0, heat_kind: "", hours: Rational { num: 1, den: 4 }, labour_hours: Rational { num: 1, den: 4 }, power_kw: 0 }, requires: &[], note: "the first process in `bound & composite`, and the reason that tier exists: binding is what makes a composite tool possible before metal is", }
    } else 
{
        Process { name: "assemble the hatchet", tier: "bound & composite", inputs: &[("knapped_edge", Rational { num: 800, den: 1 }), ("haft_blank", Rational { num: 2400, den: 1 }), ("cord", Rational { num: 95, den: 1 })], outputs: &[("hatchet", Rational { num: 1, den: 1 }), ("trim_waste", Rational { num: 395, den: 1 })], mechanism: Mechanism { heat_c: 0, heat_kind: "", hours: Rational { num: 1, den: 2 }, labour_hours: Rational { num: 1, den: 2 }, power_kw: 0 }, requires: &[], note: "the chain's end, and Q7's own example: a hatchet fashioned from natural materials, which is the tool that multiplies work before anything is mined", }
    }

}

/// Every declared process.
pub open spec fn spec_processes() -> Seq<Process> {
    Seq::new(7, |i: int| spec_processes_row(i))
}

/// One row of processes(), by its position.
pub fn processes_row(i: usize) -> (row: Process)
    requires
        i < 7,
    ensures
        row == spec_processes_row(i as int),
{
    match i {
        0 => Process { name: "gather timber", tier: "hands & stone", inputs: &[], outputs: &[("timber", Rational { num: 3000, den: 1 })], mechanism: Mechanism { heat_c: 0, heat_kind: "", hours: Rational { num: 1, den: 4 }, labour_hours: Rational { num: 1, den: 4 }, power_kw: 0 }, requires: &[], note: "3000 g is one armful; the rate is declared (SOURCES: durations and labour costs are `[D]`, because no source states what a game gather costs)", },
        1 => Process { name: "riven haft", tier: "hands & stone", inputs: &[("timber", Rational { num: 3000, den: 1 })], outputs: &[("haft_blank", Rational { num: 2400, den: 1 }), ("timber_offcuts", Rational { num: 600, den: 1 })], mechanism: Mechanism { heat_c: 0, heat_kind: "", hours: Rational { num: 1, den: 3 }, labour_hours: Rational { num: 1, den: 3 }, power_kw: 0 }, requires: &[], note: "riving, not sawing: splitting along the grain is what the stone age can do, and it is why a haft is a blank rather than a cut board", },
        2 => Process { name: "gather stone", tier: "hands & stone", inputs: &[], outputs: &[("stone", Rational { num: 1000, den: 1 })], mechanism: Mechanism { heat_c: 0, heat_kind: "", hours: Rational { num: 1, den: 4 }, labour_hours: Rational { num: 1, den: 4 }, power_kw: 0 }, requires: &[], note: "1000 g is one carried load", },
        3 => Process { name: "knap a core", tier: "hands & stone", inputs: &[("stone", Rational { num: 1000, den: 1 })], outputs: &[("knapped_edge", Rational { num: 800, den: 1 }), ("stone_flakes", Rational { num: 200, den: 1 })], mechanism: Mechanism { heat_c: 0, heat_kind: "", hours: Rational { num: 1, den: 2 }, labour_hours: Rational { num: 1, den: 2 }, power_kw: 0 }, requires: &[], note: "the 800/200 split is declared `[D]`: real knapping loses more, but a usable edge is what the process is for and the flakes are the loss", },
        4 => Process { name: "gather plant fibre", tier: "hands & stone", inputs: &[], outputs: &[("plant_fibre", Rational { num: 100, den: 1 })], mechanism: Mechanism { heat_c: 0, heat_kind: "", hours: Rational { num: 1, den: 6 }, labour_hours: Rational { num: 1, den: 6 }, power_kw: 0 }, requires: &[], note: "", },
        5 => Process { name: "twist cord", tier: "bound & composite", inputs: &[("plant_fibre", Rational { num: 100, den: 1 })], outputs: &[("cord", Rational { num: 95, den: 1 }), ("fibre_dust", Rational { num: 5, den: 1 })], mechanism: Mechanism { heat_c: 0, heat_kind: "", hours: Rational { num: 1, den: 4 }, labour_hours: Rational { num: 1, den: 4 }, power_kw: 0 }, requires: &[], note: "the first process in `bound & composite`, and the reason that tier exists: binding is what makes a composite tool possible before metal is", },
        _ => Process { name: "assemble the hatchet", tier: "bound & composite", inputs: &[("knapped_edge", Rational { num: 800, den: 1 }), ("haft_blank", Rational { num: 2400, den: 1 }), ("cord", Rational { num: 95, den: 1 })], outputs: &[("hatchet", Rational { num: 1, den: 1 }), ("trim_waste", Rational { num: 395, den: 1 })], mechanism: Mechanism { heat_c: 0, heat_kind: "", hours: Rational { num: 1, den: 2 }, labour_hours: Rational { num: 1, den: 2 }, power_kw: 0 }, requires: &[], note: "the chain's end, and Q7's own example: a hatchet fashioned from natural materials, which is the tool that multiplies work before anything is mined", },
    }
}

/// Every declared process.
pub fn processes() -> (rows: Vec<Process>)
    ensures
        rows@ == spec_processes(),
{
    let mut rows: Vec<Process> = Vec::new();
    let mut i: usize = 0;
    while i < 7
        invariant
            i <= 7,
            rows@ == spec_processes().take(i as int),
        decreases 7 - i,
    {
        rows.push(processes_row(i));
        i += 1;
        assert(rows@ =~= spec_processes().take(i as int));
    }
    assert(rows@ =~= spec_processes());
    rows
}

/// How many rows structures() holds.
pub const STRUCTURES_LEN: usize = 0;

/// A closed vocabulary a process may require from.
pub open spec fn spec_structures() -> Seq<(&'static str, &'static str)> {
    Seq::empty()
}

/// A closed vocabulary a process may require from.
pub fn structures() -> (rows: Vec<(&'static str, &'static str)>)
    ensures
        rows@ == spec_structures(),
{
    Vec::new()
}

/// How many rows tools() holds.
pub const TOOLS_LEN: usize = 0;

/// A closed vocabulary a process may require from.
pub open spec fn spec_tools() -> Seq<(&'static str, &'static str)> {
    Seq::empty()
}

/// A closed vocabulary a process may require from.
pub fn tools() -> (rows: Vec<(&'static str, &'static str)>)
    ensures
        rows@ == spec_tools(),
{
    Vec::new()
}

/// How many rows skills() holds.
pub const SKILLS_LEN: usize = 0;

/// A closed vocabulary a process may require from.
pub open spec fn spec_skills() -> Seq<(&'static str, &'static str)> {
    Seq::empty()
}

/// A closed vocabulary a process may require from.
pub fn skills() -> (rows: Vec<(&'static str, &'static str)>)
    ensures
        rows@ == spec_skills(),
{
    Vec::new()
}

/// How many rows schema_open() holds.
pub const SCHEMA_OPEN_LEN: usize = 15;

/// One row of schema_open(), by its position.
pub open spec fn spec_schema_open_row(i: int) -> &'static str {
    if i == 0 {
        "`sand` is declared and nothing consumes it: the aggregate half of glass and mortar: glass waits for the kiln and mortar for the lime process, both of which need SOURCES [NS] rows"
    } else 
if i == 1 {
        "`clay` is declared and nothing consumes it: unfired it is mud, which is why brick waits for the kiln — and the kiln is a process structure this table has not declared yet"
    } else 
if i == 2 {
        "`coal` is declared and nothing consumes it: the fuel of the coal ages: nothing burns anything until the smelt lands, and the smelt needs SOURCES [NS] rows (coke per tonne, blast temperature)"
    } else 
if i == 3 {
        "`iron_ore` is declared and nothing consumes it: the metal ages' input: the ore-to-blade rung is blocked on the iron ore grade row in `tools/materials/SOURCES.md`, which is [NS] — and an invented grade would make the whole ledger look sourced while being declared"
    } else 
if i == 4 {
        "`hatchet` is declared and nothing consumes it: a tool is held and used, not consumed by a process: what consumes it is wear, which is the MAINTAIN half of phase 3 and not a row in this rung"
    } else 
if i == 5 {
        "`timber_offcuts` is declared and nothing consumes it: an end product: offcuts leave the process and accumulate. They are mass the ledger can still point at, which is why a loss is declared as an output rather than subtracted from the total"
    } else 
if i == 6 {
        "`stone_flakes` is declared and nothing consumes it: an end product: debitage. Salvage (Q71) is where it earns a consumer"
    } else 
if i == 7 {
        "`fibre_dust` is declared and nothing consumes it: an end product: short fibres too fine to twist"
    } else 
if i == 8 {
        "`trim_waste` is declared and nothing consumes it: an end product: mixed-material trimmings, and the one declared destination for a process whose losses are not one material"
    } else 
if i == 9 {
        "`water` is declared and nothing consumes it: drinking, washing and irrigation arrive with phase 7's couplings; the world already draws it, so the substance exists and the consumer does not"
    } else 
if i == 10 {
        "`gather timber` draws 3000 g of `timber` out of the world's own ground"
    } else 
if i == 11 {
        "`gather stone` draws 1000 g of `stone` out of the world's own ground"
    } else 
if i == 12 {
        "`gather plant fibre` draws 100 g of `plant_fibre` out of the world's own ground"
    } else 
if i == 13 {
        "the ages: two tiers are declared and Q69 asked for as many as possible — the content is unbounded and an age is rows, so adding one touches no schema"
    } else 
{
        "the numbers in these tables are declared, not measured: every duration, labour cost, power figure and loss ratio is `[D]`, and the rung above the stone one is blocked on `[NS]` source rows rather than on this schema"
    }

}

/// What the substance and process tables deliberately do not decide.
pub open spec fn spec_schema_open() -> Seq<&'static str> {
    Seq::new(15, |i: int| spec_schema_open_row(i))
}

/// One row of schema_open(), by its position.
pub fn schema_open_row(i: usize) -> (row: &'static str)
    requires
        i < 15,
    ensures
        row == spec_schema_open_row(i as int),
{
    match i {
        0 => "`sand` is declared and nothing consumes it: the aggregate half of glass and mortar: glass waits for the kiln and mortar for the lime process, both of which need SOURCES [NS] rows",
        1 => "`clay` is declared and nothing consumes it: unfired it is mud, which is why brick waits for the kiln — and the kiln is a process structure this table has not declared yet",
        2 => "`coal` is declared and nothing consumes it: the fuel of the coal ages: nothing burns anything until the smelt lands, and the smelt needs SOURCES [NS] rows (coke per tonne, blast temperature)",
        3 => "`iron_ore` is declared and nothing consumes it: the metal ages' input: the ore-to-blade rung is blocked on the iron ore grade row in `tools/materials/SOURCES.md`, which is [NS] — and an invented grade would make the whole ledger look sourced while being declared",
        4 => "`hatchet` is declared and nothing consumes it: a tool is held and used, not consumed by a process: what consumes it is wear, which is the MAINTAIN half of phase 3 and not a row in this rung",
        5 => "`timber_offcuts` is declared and nothing consumes it: an end product: offcuts leave the process and accumulate. They are mass the ledger can still point at, which is why a loss is declared as an output rather than subtracted from the total",
        6 => "`stone_flakes` is declared and nothing consumes it: an end product: debitage. Salvage (Q71) is where it earns a consumer",
        7 => "`fibre_dust` is declared and nothing consumes it: an end product: short fibres too fine to twist",
        8 => "`trim_waste` is declared and nothing consumes it: an end product: mixed-material trimmings, and the one declared destination for a process whose losses are not one material",
        9 => "`water` is declared and nothing consumes it: drinking, washing and irrigation arrive with phase 7's couplings; the world already draws it, so the substance exists and the consumer does not",
        10 => "`gather timber` draws 3000 g of `timber` out of the world's own ground",
        11 => "`gather stone` draws 1000 g of `stone` out of the world's own ground",
        12 => "`gather plant fibre` draws 100 g of `plant_fibre` out of the world's own ground",
        13 => "the ages: two tiers are declared and Q69 asked for as many as possible — the content is unbounded and an age is rows, so adding one touches no schema",
        _ => "the numbers in these tables are declared, not measured: every duration, labour cost, power figure and loss ratio is `[D]`, and the rung above the stone one is blocked on `[NS]` source rows rather than on this schema",
    }
}

/// What the substance and process tables deliberately do not decide.
pub fn schema_open() -> (rows: Vec<&'static str>)
    ensures
        rows@ == spec_schema_open(),
{
    let mut rows: Vec<&'static str> = Vec::new();
    let mut i: usize = 0;
    while i < 15
        invariant
            i <= 15,
            rows@ == spec_schema_open().take(i as int),
        decreases 15 - i,
    {
        rows.push(schema_open_row(i));
        i += 1;
        assert(rows@ =~= spec_schema_open().take(i as int));
    }
    assert(rows@ =~= spec_schema_open());
    rows
}

/// How many rows open_items() holds.
pub const OPEN_ITEMS_LEN: usize = 4;

/// One row of open_items(), by its position.
pub open spec fn spec_open_items_row(i: int) -> &'static str {
    if i == 0 {
        "whether the world reads as these materials to a person"
    } else 
if i == 1 {
        "frame timing with the material shade term"
    } else 
if i == 2 {
        "whether the four sim effects are balanced"
    } else 
{
        "composite contrast on a rendered frame"
    }

}

/// What the material table cannot check, printed every run.
pub open spec fn spec_open_items() -> Seq<&'static str> {
    Seq::new(4, |i: int| spec_open_items_row(i))
}

/// One row of open_items(), by its position.
pub fn open_items_row(i: usize) -> (row: &'static str)
    requires
        i < 4,
    ensures
        row == spec_open_items_row(i as int),
{
    match i {
        0 => "whether the world reads as these materials to a person",
        1 => "frame timing with the material shade term",
        2 => "whether the four sim effects are balanced",
        _ => "composite contrast on a rendered frame",
    }
}

/// What the material table cannot check, printed every run.
pub fn open_items() -> (rows: Vec<&'static str>)
    ensures
        rows@ == spec_open_items(),
{
    let mut rows: Vec<&'static str> = Vec::new();
    let mut i: usize = 0;
    while i < 4
        invariant
            i <= 4,
            rows@ == spec_open_items().take(i as int),
        decreases 4 - i,
    {
        rows.push(open_items_row(i));
        i += 1;
        assert(rows@ =~= spec_open_items().take(i as int));
    }
    assert(rows@ =~= spec_open_items());
    rows
}

/// How many rows world_surfaces() holds.
pub const WORLD_SURFACES_LEN: usize = 23;

/// One row of world_surfaces(), by its position.
pub open spec fn spec_world_surfaces_row(i: int) -> (&'static str, &'static str, &'static str, &'static str, &'static str) {
    if i == 0 {
        ("home.walls", "ceramic", "natural", "body", "the home's body")
    } else 
if i == 1 {
        ("home.roof", "polymer", "amber", "edge", "a different material from the walls, read once")
    } else 
if i == 2 {
        ("home.window", "glass", "cyan", "body", "the one transparent part")
    } else 
if i == 3 {
        ("shop.walls", "ceramic", "natural", "body", "shares the residential body")
    } else 
if i == 4 {
        ("shop.frontage", "enamel", "blue", "body", "the commercial face paint belongs to")
    } else 
if i == 5 {
        ("shop.window", "glass", "cyan", "body", "")
    } else 
if i == 6 {
        ("factory.frame", "metal", "natural", "body", "structural metal")
    } else 
if i == 7 {
        ("factory.cladding", "enamel", "amber", "body", "coated industrial panel")
    } else 
if i == 8 {
        ("factory.vent", "polymer", "natural", "deep", "the dark recessed part")
    } else 
if i == 9 {
        ("power.frame", "metal", "natural", "body", "")
    } else 
if i == 10 {
        ("power.stack", "ceramic", "natural", "edge", "a fired stack, not a painted one")
    } else 
if i == 11 {
        ("power.insulator", "ceramic", "amber", "body", "the insulator is the part that must not conduct")
    } else 
if i == 12 {
        ("power.core", "enamel", "amber", "body", "painted caution face")
    } else 
if i == 13 {
        ("road.surface", "road", "natural", "body", "aggregate")
    } else 
if i == 14 {
        ("road.edge", "soil", "natural", "body", "the shoulder: mineral, not asphalt")
    } else 
if i == 15 {
        ("terrain.ground", "organic", "natural", "body", "the grass is a living surface, not a mineral one")
    } else 
if i == 16 {
        ("terrain.water", "water", "natural", "body", "a body of water is a volume, not a pane")
    } else 
if i == 17 {
        ("powerline.conductor", "metal", "natural", "body", "what a conductor must be made of")
    } else 
if i == 18 {
        ("powerline.pylon", "metal", "natural", "deep", "the same metal read darker")
    } else 
if i == 19 {
        ("scaffold.frame", "metal", "amber", "edge", "under construction, and painted to say so")
    } else 
if i == 20 {
        ("scaffold.deck", "paper", "natural", "body", "a board, not a beam")
    } else 
if i == 21 {
        ("zone.paint", "enamel", "__anchor__", "body", "a tint over whatever it paints on; the anchor is the zone's")
    } else 
{
        ("ruin.parts", "__inherits__", "__inherits__", "deep", "the retired structure's own parts, darker")
    }

}

/// Part, family, hue, level, note: every part of the world, as a claim.
pub open spec fn spec_world_surfaces() -> Seq<(&'static str, &'static str, &'static str, &'static str, &'static str)> {
    Seq::new(23, |i: int| spec_world_surfaces_row(i))
}

/// One row of world_surfaces(), by its position.
pub fn world_surfaces_row(i: usize) -> (row: (&'static str, &'static str, &'static str, &'static str, &'static str))
    requires
        i < 23,
    ensures
        row == spec_world_surfaces_row(i as int),
{
    match i {
        0 => ("home.walls", "ceramic", "natural", "body", "the home's body"),
        1 => ("home.roof", "polymer", "amber", "edge", "a different material from the walls, read once"),
        2 => ("home.window", "glass", "cyan", "body", "the one transparent part"),
        3 => ("shop.walls", "ceramic", "natural", "body", "shares the residential body"),
        4 => ("shop.frontage", "enamel", "blue", "body", "the commercial face paint belongs to"),
        5 => ("shop.window", "glass", "cyan", "body", ""),
        6 => ("factory.frame", "metal", "natural", "body", "structural metal"),
        7 => ("factory.cladding", "enamel", "amber", "body", "coated industrial panel"),
        8 => ("factory.vent", "polymer", "natural", "deep", "the dark recessed part"),
        9 => ("power.frame", "metal", "natural", "body", ""),
        10 => ("power.stack", "ceramic", "natural", "edge", "a fired stack, not a painted one"),
        11 => ("power.insulator", "ceramic", "amber", "body", "the insulator is the part that must not conduct"),
        12 => ("power.core", "enamel", "amber", "body", "painted caution face"),
        13 => ("road.surface", "road", "natural", "body", "aggregate"),
        14 => ("road.edge", "soil", "natural", "body", "the shoulder: mineral, not asphalt"),
        15 => ("terrain.ground", "organic", "natural", "body", "the grass is a living surface, not a mineral one"),
        16 => ("terrain.water", "water", "natural", "body", "a body of water is a volume, not a pane"),
        17 => ("powerline.conductor", "metal", "natural", "body", "what a conductor must be made of"),
        18 => ("powerline.pylon", "metal", "natural", "deep", "the same metal read darker"),
        19 => ("scaffold.frame", "metal", "amber", "edge", "under construction, and painted to say so"),
        20 => ("scaffold.deck", "paper", "natural", "body", "a board, not a beam"),
        21 => ("zone.paint", "enamel", "__anchor__", "body", "a tint over whatever it paints on; the anchor is the zone's"),
        _ => ("ruin.parts", "__inherits__", "__inherits__", "deep", "the retired structure's own parts, darker"),
    }
}

/// Part, family, hue, level, note: every part of the world, as a claim.
pub fn world_surfaces() -> (rows: Vec<(&'static str, &'static str, &'static str, &'static str, &'static str)>)
    ensures
        rows@ == spec_world_surfaces(),
{
    let mut rows: Vec<(&'static str, &'static str, &'static str, &'static str, &'static str)> = Vec::new();
    let mut i: usize = 0;
    while i < 23
        invariant
            i <= 23,
            rows@ == spec_world_surfaces().take(i as int),
        decreases 23 - i,
    {
        rows.push(world_surfaces_row(i));
        i += 1;
        assert(rows@ =~= spec_world_surfaces().take(i as int));
    }
    assert(rows@ =~= spec_world_surfaces());
    rows
}

/// How many rows surface_tokens() holds.
pub const SURFACE_TOKENS_LEN: usize = 4;

/// One row of surface_tokens(), by its position.
pub open spec fn spec_surface_tokens_row(i: int) -> (&'static str, &'static str) {
    if i == 0 {
        ("Ground", "terrain.ground")
    } else 
if i == 1 {
        ("Water", "terrain.water")
    } else 
if i == 2 {
        ("Road", "road.surface")
    } else 
{
        ("RoadEdge", "road.edge")
    }

}

/// Tokens that are a surface's material read out.
pub open spec fn spec_surface_tokens() -> Seq<(&'static str, &'static str)> {
    Seq::new(4, |i: int| spec_surface_tokens_row(i))
}

/// One row of surface_tokens(), by its position.
pub fn surface_tokens_row(i: usize) -> (row: (&'static str, &'static str))
    requires
        i < 4,
    ensures
        row == spec_surface_tokens_row(i as int),
{
    match i {
        0 => ("Ground", "terrain.ground"),
        1 => ("Water", "terrain.water"),
        2 => ("Road", "road.surface"),
        _ => ("RoadEdge", "road.edge"),
    }
}

/// Tokens that are a surface's material read out.
pub fn surface_tokens() -> (rows: Vec<(&'static str, &'static str)>)
    ensures
        rows@ == spec_surface_tokens(),
{
    let mut rows: Vec<(&'static str, &'static str)> = Vec::new();
    let mut i: usize = 0;
    while i < 4
        invariant
            i <= 4,
            rows@ == spec_surface_tokens().take(i as int),
        decreases 4 - i,
    {
        rows.push(surface_tokens_row(i));
        i += 1;
        assert(rows@ =~= spec_surface_tokens().take(i as int));
    }
    assert(rows@ =~= spec_surface_tokens());
    rows
}

/// How many rows divergences() holds.
pub const DIVERGENCES_LEN: usize = 3;

/// One row of divergences(), by its position.
pub open spec fn spec_divergences_row(i: int) -> (&'static str, &'static str, &'static str) {
    if i == 0 {
        ("Ink", "Ink declared oklch(0.45, 0.13, 250.0), which linear sRGB cannot hold — the frame silently clipped it", "now oklch(0.45, 0.1273, 250.0), resolved in gamut")
    } else 
if i == 1 {
        ("Road", "Road was oklch(0.42, 0.005, 260.0)", "now the reading of road:natural:body — oklch(0.38, 0.018, 250.0)")
    } else 
{
        ("ZoneIndustrial", "ZoneIndustrial declared oklch(0.55, 0.13, 60.0), which linear sRGB cannot hold — the frame silently clipped it", "now oklch(0.55, 0.1289, 60.0), resolved in gamut")
    }

}

/// Where the table's reading of a surface differs from the literal it replaced.
pub open spec fn spec_divergences() -> Seq<(&'static str, &'static str, &'static str)> {
    Seq::new(3, |i: int| spec_divergences_row(i))
}

/// One row of divergences(), by its position.
pub fn divergences_row(i: usize) -> (row: (&'static str, &'static str, &'static str))
    requires
        i < 3,
    ensures
        row == spec_divergences_row(i as int),
{
    match i {
        0 => ("Ink", "Ink declared oklch(0.45, 0.13, 250.0), which linear sRGB cannot hold — the frame silently clipped it", "now oklch(0.45, 0.1273, 250.0), resolved in gamut"),
        1 => ("Road", "Road was oklch(0.42, 0.005, 260.0)", "now the reading of road:natural:body — oklch(0.38, 0.018, 250.0)"),
        _ => ("ZoneIndustrial", "ZoneIndustrial declared oklch(0.55, 0.13, 60.0), which linear sRGB cannot hold — the frame silently clipped it", "now oklch(0.55, 0.1289, 60.0), resolved in gamut"),
    }
}

/// Where the table's reading of a surface differs from the literal it replaced.
pub fn divergences() -> (rows: Vec<(&'static str, &'static str, &'static str)>)
    ensures
        rows@ == spec_divergences(),
{
    let mut rows: Vec<(&'static str, &'static str, &'static str)> = Vec::new();
    let mut i: usize = 0;
    while i < 3
        invariant
            i <= 3,
            rows@ == spec_divergences().take(i as int),
        decreases 3 - i,
    {
        rows.push(divergences_row(i));
        i += 1;
        assert(rows@ =~= spec_divergences().take(i as int));
    }
    assert(rows@ =~= spec_divergences());
    rows
}

/// How many rows deferred_surfaces() holds.
pub const DEFERRED_SURFACES_LEN: usize = 2;

/// One row of deferred_surfaces(), by its position.
pub open spec fn spec_deferred_surfaces_row(i: int) -> (&'static str, &'static str) {
    if i == 0 {
        ("terrain.vegetation", "the world draws one green ground; a second vegetation surface does not exist, so `organic` has one consumer and not two")
    } else 
{
        ("soil.paving", "declared slot: `soil` is the road shoulder today; unpaved ground and yards would be its second consumer")
    }

}

/// Surfaces the world does not have yet.
pub open spec fn spec_deferred_surfaces() -> Seq<(&'static str, &'static str)> {
    Seq::new(2, |i: int| spec_deferred_surfaces_row(i))
}

/// One row of deferred_surfaces(), by its position.
pub fn deferred_surfaces_row(i: usize) -> (row: (&'static str, &'static str))
    requires
        i < 2,
    ensures
        row == spec_deferred_surfaces_row(i as int),
{
    match i {
        0 => ("terrain.vegetation", "the world draws one green ground; a second vegetation surface does not exist, so `organic` has one consumer and not two"),
        _ => ("soil.paving", "declared slot: `soil` is the road shoulder today; unpaved ground and yards would be its second consumer"),
    }
}

/// Surfaces the world does not have yet.
pub fn deferred_surfaces() -> (rows: Vec<(&'static str, &'static str)>)
    ensures
        rows@ == spec_deferred_surfaces(),
{
    let mut rows: Vec<(&'static str, &'static str)> = Vec::new();
    let mut i: usize = 0;
    while i < 2
        invariant
            i <= 2,
            rows@ == spec_deferred_surfaces().take(i as int),
        decreases 2 - i,
    {
        rows.push(deferred_surfaces_row(i));
        i += 1;
        assert(rows@ =~= spec_deferred_surfaces().take(i as int));
    }
    assert(rows@ =~= spec_deferred_surfaces());
    rows
}

/// How many rows material_names() holds.
pub const MATERIAL_NAMES_LEN: usize = 240;

/// One row of material_names(), by its position.
pub open spec fn spec_material_names_row(i: int) -> MaterialName {
    if i == 0 {
        MaterialName { name: "metal:red", family: "metal", hue: "red", level: "body" }
    } else 
if i == 1 {
        MaterialName { name: "metal:red:edge", family: "metal", hue: "red", level: "edge" }
    } else 
if i == 2 {
        MaterialName { name: "metal:red:deep", family: "metal", hue: "red", level: "deep" }
    } else 
if i == 3 {
        MaterialName { name: "metal:amber", family: "metal", hue: "amber", level: "body" }
    } else 
if i == 4 {
        MaterialName { name: "metal:amber:edge", family: "metal", hue: "amber", level: "edge" }
    } else 
if i == 5 {
        MaterialName { name: "metal:amber:deep", family: "metal", hue: "amber", level: "deep" }
    } else 
if i == 6 {
        MaterialName { name: "metal:yellow", family: "metal", hue: "yellow", level: "body" }
    } else 
if i == 7 {
        MaterialName { name: "metal:yellow:edge", family: "metal", hue: "yellow", level: "edge" }
    } else 
if i == 8 {
        MaterialName { name: "metal:yellow:deep", family: "metal", hue: "yellow", level: "deep" }
    } else 
if i == 9 {
        MaterialName { name: "metal:green", family: "metal", hue: "green", level: "body" }
    } else 
if i == 10 {
        MaterialName { name: "metal:green:edge", family: "metal", hue: "green", level: "edge" }
    } else 
if i == 11 {
        MaterialName { name: "metal:green:deep", family: "metal", hue: "green", level: "deep" }
    } else 
if i == 12 {
        MaterialName { name: "metal:cyan", family: "metal", hue: "cyan", level: "body" }
    } else 
if i == 13 {
        MaterialName { name: "metal:cyan:edge", family: "metal", hue: "cyan", level: "edge" }
    } else 
if i == 14 {
        MaterialName { name: "metal:cyan:deep", family: "metal", hue: "cyan", level: "deep" }
    } else 
if i == 15 {
        MaterialName { name: "metal:blue", family: "metal", hue: "blue", level: "body" }
    } else 
if i == 16 {
        MaterialName { name: "metal:blue:edge", family: "metal", hue: "blue", level: "edge" }
    } else 
if i == 17 {
        MaterialName { name: "metal:blue:deep", family: "metal", hue: "blue", level: "deep" }
    } else 
if i == 18 {
        MaterialName { name: "metal:violet", family: "metal", hue: "violet", level: "body" }
    } else 
if i == 19 {
        MaterialName { name: "metal:violet:edge", family: "metal", hue: "violet", level: "edge" }
    } else 
if i == 20 {
        MaterialName { name: "metal:violet:deep", family: "metal", hue: "violet", level: "deep" }
    } else 
if i == 21 {
        MaterialName { name: "metal:natural", family: "metal", hue: "natural", level: "body" }
    } else 
if i == 22 {
        MaterialName { name: "metal:natural:edge", family: "metal", hue: "natural", level: "edge" }
    } else 
if i == 23 {
        MaterialName { name: "metal:natural:deep", family: "metal", hue: "natural", level: "deep" }
    } else 
if i == 24 {
        MaterialName { name: "paper:red", family: "paper", hue: "red", level: "body" }
    } else 
if i == 25 {
        MaterialName { name: "paper:red:edge", family: "paper", hue: "red", level: "edge" }
    } else 
if i == 26 {
        MaterialName { name: "paper:red:deep", family: "paper", hue: "red", level: "deep" }
    } else 
if i == 27 {
        MaterialName { name: "paper:amber", family: "paper", hue: "amber", level: "body" }
    } else 
if i == 28 {
        MaterialName { name: "paper:amber:edge", family: "paper", hue: "amber", level: "edge" }
    } else 
if i == 29 {
        MaterialName { name: "paper:amber:deep", family: "paper", hue: "amber", level: "deep" }
    } else 
if i == 30 {
        MaterialName { name: "paper:yellow", family: "paper", hue: "yellow", level: "body" }
    } else 
if i == 31 {
        MaterialName { name: "paper:yellow:edge", family: "paper", hue: "yellow", level: "edge" }
    } else 
if i == 32 {
        MaterialName { name: "paper:yellow:deep", family: "paper", hue: "yellow", level: "deep" }
    } else 
if i == 33 {
        MaterialName { name: "paper:green", family: "paper", hue: "green", level: "body" }
    } else 
if i == 34 {
        MaterialName { name: "paper:green:edge", family: "paper", hue: "green", level: "edge" }
    } else 
if i == 35 {
        MaterialName { name: "paper:green:deep", family: "paper", hue: "green", level: "deep" }
    } else 
if i == 36 {
        MaterialName { name: "paper:cyan", family: "paper", hue: "cyan", level: "body" }
    } else 
if i == 37 {
        MaterialName { name: "paper:cyan:edge", family: "paper", hue: "cyan", level: "edge" }
    } else 
if i == 38 {
        MaterialName { name: "paper:cyan:deep", family: "paper", hue: "cyan", level: "deep" }
    } else 
if i == 39 {
        MaterialName { name: "paper:blue", family: "paper", hue: "blue", level: "body" }
    } else 
if i == 40 {
        MaterialName { name: "paper:blue:edge", family: "paper", hue: "blue", level: "edge" }
    } else 
if i == 41 {
        MaterialName { name: "paper:blue:deep", family: "paper", hue: "blue", level: "deep" }
    } else 
if i == 42 {
        MaterialName { name: "paper:violet", family: "paper", hue: "violet", level: "body" }
    } else 
if i == 43 {
        MaterialName { name: "paper:violet:edge", family: "paper", hue: "violet", level: "edge" }
    } else 
if i == 44 {
        MaterialName { name: "paper:violet:deep", family: "paper", hue: "violet", level: "deep" }
    } else 
if i == 45 {
        MaterialName { name: "paper:natural", family: "paper", hue: "natural", level: "body" }
    } else 
if i == 46 {
        MaterialName { name: "paper:natural:edge", family: "paper", hue: "natural", level: "edge" }
    } else 
if i == 47 {
        MaterialName { name: "paper:natural:deep", family: "paper", hue: "natural", level: "deep" }
    } else 
if i == 48 {
        MaterialName { name: "ceramic:red", family: "ceramic", hue: "red", level: "body" }
    } else 
if i == 49 {
        MaterialName { name: "ceramic:red:edge", family: "ceramic", hue: "red", level: "edge" }
    } else 
if i == 50 {
        MaterialName { name: "ceramic:red:deep", family: "ceramic", hue: "red", level: "deep" }
    } else 
if i == 51 {
        MaterialName { name: "ceramic:amber", family: "ceramic", hue: "amber", level: "body" }
    } else 
if i == 52 {
        MaterialName { name: "ceramic:amber:edge", family: "ceramic", hue: "amber", level: "edge" }
    } else 
if i == 53 {
        MaterialName { name: "ceramic:amber:deep", family: "ceramic", hue: "amber", level: "deep" }
    } else 
if i == 54 {
        MaterialName { name: "ceramic:yellow", family: "ceramic", hue: "yellow", level: "body" }
    } else 
if i == 55 {
        MaterialName { name: "ceramic:yellow:edge", family: "ceramic", hue: "yellow", level: "edge" }
    } else 
if i == 56 {
        MaterialName { name: "ceramic:yellow:deep", family: "ceramic", hue: "yellow", level: "deep" }
    } else 
if i == 57 {
        MaterialName { name: "ceramic:green", family: "ceramic", hue: "green", level: "body" }
    } else 
if i == 58 {
        MaterialName { name: "ceramic:green:edge", family: "ceramic", hue: "green", level: "edge" }
    } else 
if i == 59 {
        MaterialName { name: "ceramic:green:deep", family: "ceramic", hue: "green", level: "deep" }
    } else 
if i == 60 {
        MaterialName { name: "ceramic:cyan", family: "ceramic", hue: "cyan", level: "body" }
    } else 
if i == 61 {
        MaterialName { name: "ceramic:cyan:edge", family: "ceramic", hue: "cyan", level: "edge" }
    } else 
if i == 62 {
        MaterialName { name: "ceramic:cyan:deep", family: "ceramic", hue: "cyan", level: "deep" }
    } else 
if i == 63 {
        MaterialName { name: "ceramic:blue", family: "ceramic", hue: "blue", level: "body" }
    } else 
if i == 64 {
        MaterialName { name: "ceramic:blue:edge", family: "ceramic", hue: "blue", level: "edge" }
    } else 
if i == 65 {
        MaterialName { name: "ceramic:blue:deep", family: "ceramic", hue: "blue", level: "deep" }
    } else 
if i == 66 {
        MaterialName { name: "ceramic:violet", family: "ceramic", hue: "violet", level: "body" }
    } else 
if i == 67 {
        MaterialName { name: "ceramic:violet:edge", family: "ceramic", hue: "violet", level: "edge" }
    } else 
if i == 68 {
        MaterialName { name: "ceramic:violet:deep", family: "ceramic", hue: "violet", level: "deep" }
    } else 
if i == 69 {
        MaterialName { name: "ceramic:natural", family: "ceramic", hue: "natural", level: "body" }
    } else 
if i == 70 {
        MaterialName { name: "ceramic:natural:edge", family: "ceramic", hue: "natural", level: "edge" }
    } else 
if i == 71 {
        MaterialName { name: "ceramic:natural:deep", family: "ceramic", hue: "natural", level: "deep" }
    } else 
if i == 72 {
        MaterialName { name: "glass:red", family: "glass", hue: "red", level: "body" }
    } else 
if i == 73 {
        MaterialName { name: "glass:red:edge", family: "glass", hue: "red", level: "edge" }
    } else 
if i == 74 {
        MaterialName { name: "glass:red:deep", family: "glass", hue: "red", level: "deep" }
    } else 
if i == 75 {
        MaterialName { name: "glass:amber", family: "glass", hue: "amber", level: "body" }
    } else 
if i == 76 {
        MaterialName { name: "glass:amber:edge", family: "glass", hue: "amber", level: "edge" }
    } else 
if i == 77 {
        MaterialName { name: "glass:amber:deep", family: "glass", hue: "amber", level: "deep" }
    } else 
if i == 78 {
        MaterialName { name: "glass:yellow", family: "glass", hue: "yellow", level: "body" }
    } else 
if i == 79 {
        MaterialName { name: "glass:yellow:edge", family: "glass", hue: "yellow", level: "edge" }
    } else 
if i == 80 {
        MaterialName { name: "glass:yellow:deep", family: "glass", hue: "yellow", level: "deep" }
    } else 
if i == 81 {
        MaterialName { name: "glass:green", family: "glass", hue: "green", level: "body" }
    } else 
if i == 82 {
        MaterialName { name: "glass:green:edge", family: "glass", hue: "green", level: "edge" }
    } else 
if i == 83 {
        MaterialName { name: "glass:green:deep", family: "glass", hue: "green", level: "deep" }
    } else 
if i == 84 {
        MaterialName { name: "glass:cyan", family: "glass", hue: "cyan", level: "body" }
    } else 
if i == 85 {
        MaterialName { name: "glass:cyan:edge", family: "glass", hue: "cyan", level: "edge" }
    } else 
if i == 86 {
        MaterialName { name: "glass:cyan:deep", family: "glass", hue: "cyan", level: "deep" }
    } else 
if i == 87 {
        MaterialName { name: "glass:blue", family: "glass", hue: "blue", level: "body" }
    } else 
if i == 88 {
        MaterialName { name: "glass:blue:edge", family: "glass", hue: "blue", level: "edge" }
    } else 
if i == 89 {
        MaterialName { name: "glass:blue:deep", family: "glass", hue: "blue", level: "deep" }
    } else 
if i == 90 {
        MaterialName { name: "glass:violet", family: "glass", hue: "violet", level: "body" }
    } else 
if i == 91 {
        MaterialName { name: "glass:violet:edge", family: "glass", hue: "violet", level: "edge" }
    } else 
if i == 92 {
        MaterialName { name: "glass:violet:deep", family: "glass", hue: "violet", level: "deep" }
    } else 
if i == 93 {
        MaterialName { name: "glass:natural", family: "glass", hue: "natural", level: "body" }
    } else 
if i == 94 {
        MaterialName { name: "glass:natural:edge", family: "glass", hue: "natural", level: "edge" }
    } else 
if i == 95 {
        MaterialName { name: "glass:natural:deep", family: "glass", hue: "natural", level: "deep" }
    } else 
if i == 96 {
        MaterialName { name: "polymer:red", family: "polymer", hue: "red", level: "body" }
    } else 
if i == 97 {
        MaterialName { name: "polymer:red:edge", family: "polymer", hue: "red", level: "edge" }
    } else 
if i == 98 {
        MaterialName { name: "polymer:red:deep", family: "polymer", hue: "red", level: "deep" }
    } else 
if i == 99 {
        MaterialName { name: "polymer:amber", family: "polymer", hue: "amber", level: "body" }
    } else 
if i == 100 {
        MaterialName { name: "polymer:amber:edge", family: "polymer", hue: "amber", level: "edge" }
    } else 
if i == 101 {
        MaterialName { name: "polymer:amber:deep", family: "polymer", hue: "amber", level: "deep" }
    } else 
if i == 102 {
        MaterialName { name: "polymer:yellow", family: "polymer", hue: "yellow", level: "body" }
    } else 
if i == 103 {
        MaterialName { name: "polymer:yellow:edge", family: "polymer", hue: "yellow", level: "edge" }
    } else 
if i == 104 {
        MaterialName { name: "polymer:yellow:deep", family: "polymer", hue: "yellow", level: "deep" }
    } else 
if i == 105 {
        MaterialName { name: "polymer:green", family: "polymer", hue: "green", level: "body" }
    } else 
if i == 106 {
        MaterialName { name: "polymer:green:edge", family: "polymer", hue: "green", level: "edge" }
    } else 
if i == 107 {
        MaterialName { name: "polymer:green:deep", family: "polymer", hue: "green", level: "deep" }
    } else 
if i == 108 {
        MaterialName { name: "polymer:cyan", family: "polymer", hue: "cyan", level: "body" }
    } else 
if i == 109 {
        MaterialName { name: "polymer:cyan:edge", family: "polymer", hue: "cyan", level: "edge" }
    } else 
if i == 110 {
        MaterialName { name: "polymer:cyan:deep", family: "polymer", hue: "cyan", level: "deep" }
    } else 
if i == 111 {
        MaterialName { name: "polymer:blue", family: "polymer", hue: "blue", level: "body" }
    } else 
if i == 112 {
        MaterialName { name: "polymer:blue:edge", family: "polymer", hue: "blue", level: "edge" }
    } else 
if i == 113 {
        MaterialName { name: "polymer:blue:deep", family: "polymer", hue: "blue", level: "deep" }
    } else 
if i == 114 {
        MaterialName { name: "polymer:violet", family: "polymer", hue: "violet", level: "body" }
    } else 
if i == 115 {
        MaterialName { name: "polymer:violet:edge", family: "polymer", hue: "violet", level: "edge" }
    } else 
if i == 116 {
        MaterialName { name: "polymer:violet:deep", family: "polymer", hue: "violet", level: "deep" }
    } else 
if i == 117 {
        MaterialName { name: "polymer:natural", family: "polymer", hue: "natural", level: "body" }
    } else 
if i == 118 {
        MaterialName { name: "polymer:natural:edge", family: "polymer", hue: "natural", level: "edge" }
    } else 
if i == 119 {
        MaterialName { name: "polymer:natural:deep", family: "polymer", hue: "natural", level: "deep" }
    } else 
if i == 120 {
        MaterialName { name: "road:red", family: "road", hue: "red", level: "body" }
    } else 
if i == 121 {
        MaterialName { name: "road:red:edge", family: "road", hue: "red", level: "edge" }
    } else 
if i == 122 {
        MaterialName { name: "road:red:deep", family: "road", hue: "red", level: "deep" }
    } else 
if i == 123 {
        MaterialName { name: "road:amber", family: "road", hue: "amber", level: "body" }
    } else 
if i == 124 {
        MaterialName { name: "road:amber:edge", family: "road", hue: "amber", level: "edge" }
    } else 
if i == 125 {
        MaterialName { name: "road:amber:deep", family: "road", hue: "amber", level: "deep" }
    } else 
if i == 126 {
        MaterialName { name: "road:yellow", family: "road", hue: "yellow", level: "body" }
    } else 
if i == 127 {
        MaterialName { name: "road:yellow:edge", family: "road", hue: "yellow", level: "edge" }
    } else 
if i == 128 {
        MaterialName { name: "road:yellow:deep", family: "road", hue: "yellow", level: "deep" }
    } else 
if i == 129 {
        MaterialName { name: "road:green", family: "road", hue: "green", level: "body" }
    } else 
if i == 130 {
        MaterialName { name: "road:green:edge", family: "road", hue: "green", level: "edge" }
    } else 
if i == 131 {
        MaterialName { name: "road:green:deep", family: "road", hue: "green", level: "deep" }
    } else 
if i == 132 {
        MaterialName { name: "road:cyan", family: "road", hue: "cyan", level: "body" }
    } else 
if i == 133 {
        MaterialName { name: "road:cyan:edge", family: "road", hue: "cyan", level: "edge" }
    } else 
if i == 134 {
        MaterialName { name: "road:cyan:deep", family: "road", hue: "cyan", level: "deep" }
    } else 
if i == 135 {
        MaterialName { name: "road:blue", family: "road", hue: "blue", level: "body" }
    } else 
if i == 136 {
        MaterialName { name: "road:blue:edge", family: "road", hue: "blue", level: "edge" }
    } else 
if i == 137 {
        MaterialName { name: "road:blue:deep", family: "road", hue: "blue", level: "deep" }
    } else 
if i == 138 {
        MaterialName { name: "road:violet", family: "road", hue: "violet", level: "body" }
    } else 
if i == 139 {
        MaterialName { name: "road:violet:edge", family: "road", hue: "violet", level: "edge" }
    } else 
if i == 140 {
        MaterialName { name: "road:violet:deep", family: "road", hue: "violet", level: "deep" }
    } else 
if i == 141 {
        MaterialName { name: "road:natural", family: "road", hue: "natural", level: "body" }
    } else 
if i == 142 {
        MaterialName { name: "road:natural:edge", family: "road", hue: "natural", level: "edge" }
    } else 
if i == 143 {
        MaterialName { name: "road:natural:deep", family: "road", hue: "natural", level: "deep" }
    } else 
if i == 144 {
        MaterialName { name: "enamel:red", family: "enamel", hue: "red", level: "body" }
    } else 
if i == 145 {
        MaterialName { name: "enamel:red:edge", family: "enamel", hue: "red", level: "edge" }
    } else 
if i == 146 {
        MaterialName { name: "enamel:red:deep", family: "enamel", hue: "red", level: "deep" }
    } else 
if i == 147 {
        MaterialName { name: "enamel:amber", family: "enamel", hue: "amber", level: "body" }
    } else 
if i == 148 {
        MaterialName { name: "enamel:amber:edge", family: "enamel", hue: "amber", level: "edge" }
    } else 
if i == 149 {
        MaterialName { name: "enamel:amber:deep", family: "enamel", hue: "amber", level: "deep" }
    } else 
if i == 150 {
        MaterialName { name: "enamel:yellow", family: "enamel", hue: "yellow", level: "body" }
    } else 
if i == 151 {
        MaterialName { name: "enamel:yellow:edge", family: "enamel", hue: "yellow", level: "edge" }
    } else 
if i == 152 {
        MaterialName { name: "enamel:yellow:deep", family: "enamel", hue: "yellow", level: "deep" }
    } else 
if i == 153 {
        MaterialName { name: "enamel:green", family: "enamel", hue: "green", level: "body" }
    } else 
if i == 154 {
        MaterialName { name: "enamel:green:edge", family: "enamel", hue: "green", level: "edge" }
    } else 
if i == 155 {
        MaterialName { name: "enamel:green:deep", family: "enamel", hue: "green", level: "deep" }
    } else 
if i == 156 {
        MaterialName { name: "enamel:cyan", family: "enamel", hue: "cyan", level: "body" }
    } else 
if i == 157 {
        MaterialName { name: "enamel:cyan:edge", family: "enamel", hue: "cyan", level: "edge" }
    } else 
if i == 158 {
        MaterialName { name: "enamel:cyan:deep", family: "enamel", hue: "cyan", level: "deep" }
    } else 
if i == 159 {
        MaterialName { name: "enamel:blue", family: "enamel", hue: "blue", level: "body" }
    } else 
if i == 160 {
        MaterialName { name: "enamel:blue:edge", family: "enamel", hue: "blue", level: "edge" }
    } else 
if i == 161 {
        MaterialName { name: "enamel:blue:deep", family: "enamel", hue: "blue", level: "deep" }
    } else 
if i == 162 {
        MaterialName { name: "enamel:violet", family: "enamel", hue: "violet", level: "body" }
    } else 
if i == 163 {
        MaterialName { name: "enamel:violet:edge", family: "enamel", hue: "violet", level: "edge" }
    } else 
if i == 164 {
        MaterialName { name: "enamel:violet:deep", family: "enamel", hue: "violet", level: "deep" }
    } else 
if i == 165 {
        MaterialName { name: "enamel:natural", family: "enamel", hue: "natural", level: "body" }
    } else 
if i == 166 {
        MaterialName { name: "enamel:natural:edge", family: "enamel", hue: "natural", level: "edge" }
    } else 
if i == 167 {
        MaterialName { name: "enamel:natural:deep", family: "enamel", hue: "natural", level: "deep" }
    } else 
if i == 168 {
        MaterialName { name: "water:red", family: "water", hue: "red", level: "body" }
    } else 
if i == 169 {
        MaterialName { name: "water:red:edge", family: "water", hue: "red", level: "edge" }
    } else 
if i == 170 {
        MaterialName { name: "water:red:deep", family: "water", hue: "red", level: "deep" }
    } else 
if i == 171 {
        MaterialName { name: "water:amber", family: "water", hue: "amber", level: "body" }
    } else 
if i == 172 {
        MaterialName { name: "water:amber:edge", family: "water", hue: "amber", level: "edge" }
    } else 
if i == 173 {
        MaterialName { name: "water:amber:deep", family: "water", hue: "amber", level: "deep" }
    } else 
if i == 174 {
        MaterialName { name: "water:yellow", family: "water", hue: "yellow", level: "body" }
    } else 
if i == 175 {
        MaterialName { name: "water:yellow:edge", family: "water", hue: "yellow", level: "edge" }
    } else 
if i == 176 {
        MaterialName { name: "water:yellow:deep", family: "water", hue: "yellow", level: "deep" }
    } else 
if i == 177 {
        MaterialName { name: "water:green", family: "water", hue: "green", level: "body" }
    } else 
if i == 178 {
        MaterialName { name: "water:green:edge", family: "water", hue: "green", level: "edge" }
    } else 
if i == 179 {
        MaterialName { name: "water:green:deep", family: "water", hue: "green", level: "deep" }
    } else 
if i == 180 {
        MaterialName { name: "water:cyan", family: "water", hue: "cyan", level: "body" }
    } else 
if i == 181 {
        MaterialName { name: "water:cyan:edge", family: "water", hue: "cyan", level: "edge" }
    } else 
if i == 182 {
        MaterialName { name: "water:cyan:deep", family: "water", hue: "cyan", level: "deep" }
    } else 
if i == 183 {
        MaterialName { name: "water:blue", family: "water", hue: "blue", level: "body" }
    } else 
if i == 184 {
        MaterialName { name: "water:blue:edge", family: "water", hue: "blue", level: "edge" }
    } else 
if i == 185 {
        MaterialName { name: "water:blue:deep", family: "water", hue: "blue", level: "deep" }
    } else 
if i == 186 {
        MaterialName { name: "water:violet", family: "water", hue: "violet", level: "body" }
    } else 
if i == 187 {
        MaterialName { name: "water:violet:edge", family: "water", hue: "violet", level: "edge" }
    } else 
if i == 188 {
        MaterialName { name: "water:violet:deep", family: "water", hue: "violet", level: "deep" }
    } else 
if i == 189 {
        MaterialName { name: "water:natural", family: "water", hue: "natural", level: "body" }
    } else 
if i == 190 {
        MaterialName { name: "water:natural:edge", family: "water", hue: "natural", level: "edge" }
    } else 
if i == 191 {
        MaterialName { name: "water:natural:deep", family: "water", hue: "natural", level: "deep" }
    } else 
if i == 192 {
        MaterialName { name: "organic:red", family: "organic", hue: "red", level: "body" }
    } else 
if i == 193 {
        MaterialName { name: "organic:red:edge", family: "organic", hue: "red", level: "edge" }
    } else 
if i == 194 {
        MaterialName { name: "organic:red:deep", family: "organic", hue: "red", level: "deep" }
    } else 
if i == 195 {
        MaterialName { name: "organic:amber", family: "organic", hue: "amber", level: "body" }
    } else 
if i == 196 {
        MaterialName { name: "organic:amber:edge", family: "organic", hue: "amber", level: "edge" }
    } else 
if i == 197 {
        MaterialName { name: "organic:amber:deep", family: "organic", hue: "amber", level: "deep" }
    } else 
if i == 198 {
        MaterialName { name: "organic:yellow", family: "organic", hue: "yellow", level: "body" }
    } else 
if i == 199 {
        MaterialName { name: "organic:yellow:edge", family: "organic", hue: "yellow", level: "edge" }
    } else 
if i == 200 {
        MaterialName { name: "organic:yellow:deep", family: "organic", hue: "yellow", level: "deep" }
    } else 
if i == 201 {
        MaterialName { name: "organic:green", family: "organic", hue: "green", level: "body" }
    } else 
if i == 202 {
        MaterialName { name: "organic:green:edge", family: "organic", hue: "green", level: "edge" }
    } else 
if i == 203 {
        MaterialName { name: "organic:green:deep", family: "organic", hue: "green", level: "deep" }
    } else 
if i == 204 {
        MaterialName { name: "organic:cyan", family: "organic", hue: "cyan", level: "body" }
    } else 
if i == 205 {
        MaterialName { name: "organic:cyan:edge", family: "organic", hue: "cyan", level: "edge" }
    } else 
if i == 206 {
        MaterialName { name: "organic:cyan:deep", family: "organic", hue: "cyan", level: "deep" }
    } else 
if i == 207 {
        MaterialName { name: "organic:blue", family: "organic", hue: "blue", level: "body" }
    } else 
if i == 208 {
        MaterialName { name: "organic:blue:edge", family: "organic", hue: "blue", level: "edge" }
    } else 
if i == 209 {
        MaterialName { name: "organic:blue:deep", family: "organic", hue: "blue", level: "deep" }
    } else 
if i == 210 {
        MaterialName { name: "organic:violet", family: "organic", hue: "violet", level: "body" }
    } else 
if i == 211 {
        MaterialName { name: "organic:violet:edge", family: "organic", hue: "violet", level: "edge" }
    } else 
if i == 212 {
        MaterialName { name: "organic:violet:deep", family: "organic", hue: "violet", level: "deep" }
    } else 
if i == 213 {
        MaterialName { name: "organic:natural", family: "organic", hue: "natural", level: "body" }
    } else 
if i == 214 {
        MaterialName { name: "organic:natural:edge", family: "organic", hue: "natural", level: "edge" }
    } else 
if i == 215 {
        MaterialName { name: "organic:natural:deep", family: "organic", hue: "natural", level: "deep" }
    } else 
if i == 216 {
        MaterialName { name: "soil:red", family: "soil", hue: "red", level: "body" }
    } else 
if i == 217 {
        MaterialName { name: "soil:red:edge", family: "soil", hue: "red", level: "edge" }
    } else 
if i == 218 {
        MaterialName { name: "soil:red:deep", family: "soil", hue: "red", level: "deep" }
    } else 
if i == 219 {
        MaterialName { name: "soil:amber", family: "soil", hue: "amber", level: "body" }
    } else 
if i == 220 {
        MaterialName { name: "soil:amber:edge", family: "soil", hue: "amber", level: "edge" }
    } else 
if i == 221 {
        MaterialName { name: "soil:amber:deep", family: "soil", hue: "amber", level: "deep" }
    } else 
if i == 222 {
        MaterialName { name: "soil:yellow", family: "soil", hue: "yellow", level: "body" }
    } else 
if i == 223 {
        MaterialName { name: "soil:yellow:edge", family: "soil", hue: "yellow", level: "edge" }
    } else 
if i == 224 {
        MaterialName { name: "soil:yellow:deep", family: "soil", hue: "yellow", level: "deep" }
    } else 
if i == 225 {
        MaterialName { name: "soil:green", family: "soil", hue: "green", level: "body" }
    } else 
if i == 226 {
        MaterialName { name: "soil:green:edge", family: "soil", hue: "green", level: "edge" }
    } else 
if i == 227 {
        MaterialName { name: "soil:green:deep", family: "soil", hue: "green", level: "deep" }
    } else 
if i == 228 {
        MaterialName { name: "soil:cyan", family: "soil", hue: "cyan", level: "body" }
    } else 
if i == 229 {
        MaterialName { name: "soil:cyan:edge", family: "soil", hue: "cyan", level: "edge" }
    } else 
if i == 230 {
        MaterialName { name: "soil:cyan:deep", family: "soil", hue: "cyan", level: "deep" }
    } else 
if i == 231 {
        MaterialName { name: "soil:blue", family: "soil", hue: "blue", level: "body" }
    } else 
if i == 232 {
        MaterialName { name: "soil:blue:edge", family: "soil", hue: "blue", level: "edge" }
    } else 
if i == 233 {
        MaterialName { name: "soil:blue:deep", family: "soil", hue: "blue", level: "deep" }
    } else 
if i == 234 {
        MaterialName { name: "soil:violet", family: "soil", hue: "violet", level: "body" }
    } else 
if i == 235 {
        MaterialName { name: "soil:violet:edge", family: "soil", hue: "violet", level: "edge" }
    } else 
if i == 236 {
        MaterialName { name: "soil:violet:deep", family: "soil", hue: "violet", level: "deep" }
    } else 
if i == 237 {
        MaterialName { name: "soil:natural", family: "soil", hue: "natural", level: "body" }
    } else 
if i == 238 {
        MaterialName { name: "soil:natural:edge", family: "soil", hue: "natural", level: "edge" }
    } else 
{
        MaterialName { name: "soil:natural:deep", family: "soil", hue: "natural", level: "deep" }
    }

}

/// Every resolved colour-table entry, by name.
pub open spec fn spec_material_names() -> Seq<MaterialName> {
    Seq::new(240, |i: int| spec_material_names_row(i))
}

/// One row of material_names(), by its position.
pub fn material_names_row(i: usize) -> (row: MaterialName)
    requires
        i < 240,
    ensures
        row == spec_material_names_row(i as int),
{
    match i {
        0 => MaterialName { name: "metal:red", family: "metal", hue: "red", level: "body" },
        1 => MaterialName { name: "metal:red:edge", family: "metal", hue: "red", level: "edge" },
        2 => MaterialName { name: "metal:red:deep", family: "metal", hue: "red", level: "deep" },
        3 => MaterialName { name: "metal:amber", family: "metal", hue: "amber", level: "body" },
        4 => MaterialName { name: "metal:amber:edge", family: "metal", hue: "amber", level: "edge" },
        5 => MaterialName { name: "metal:amber:deep", family: "metal", hue: "amber", level: "deep" },
        6 => MaterialName { name: "metal:yellow", family: "metal", hue: "yellow", level: "body" },
        7 => MaterialName { name: "metal:yellow:edge", family: "metal", hue: "yellow", level: "edge" },
        8 => MaterialName { name: "metal:yellow:deep", family: "metal", hue: "yellow", level: "deep" },
        9 => MaterialName { name: "metal:green", family: "metal", hue: "green", level: "body" },
        10 => MaterialName { name: "metal:green:edge", family: "metal", hue: "green", level: "edge" },
        11 => MaterialName { name: "metal:green:deep", family: "metal", hue: "green", level: "deep" },
        12 => MaterialName { name: "metal:cyan", family: "metal", hue: "cyan", level: "body" },
        13 => MaterialName { name: "metal:cyan:edge", family: "metal", hue: "cyan", level: "edge" },
        14 => MaterialName { name: "metal:cyan:deep", family: "metal", hue: "cyan", level: "deep" },
        15 => MaterialName { name: "metal:blue", family: "metal", hue: "blue", level: "body" },
        16 => MaterialName { name: "metal:blue:edge", family: "metal", hue: "blue", level: "edge" },
        17 => MaterialName { name: "metal:blue:deep", family: "metal", hue: "blue", level: "deep" },
        18 => MaterialName { name: "metal:violet", family: "metal", hue: "violet", level: "body" },
        19 => MaterialName { name: "metal:violet:edge", family: "metal", hue: "violet", level: "edge" },
        20 => MaterialName { name: "metal:violet:deep", family: "metal", hue: "violet", level: "deep" },
        21 => MaterialName { name: "metal:natural", family: "metal", hue: "natural", level: "body" },
        22 => MaterialName { name: "metal:natural:edge", family: "metal", hue: "natural", level: "edge" },
        23 => MaterialName { name: "metal:natural:deep", family: "metal", hue: "natural", level: "deep" },
        24 => MaterialName { name: "paper:red", family: "paper", hue: "red", level: "body" },
        25 => MaterialName { name: "paper:red:edge", family: "paper", hue: "red", level: "edge" },
        26 => MaterialName { name: "paper:red:deep", family: "paper", hue: "red", level: "deep" },
        27 => MaterialName { name: "paper:amber", family: "paper", hue: "amber", level: "body" },
        28 => MaterialName { name: "paper:amber:edge", family: "paper", hue: "amber", level: "edge" },
        29 => MaterialName { name: "paper:amber:deep", family: "paper", hue: "amber", level: "deep" },
        30 => MaterialName { name: "paper:yellow", family: "paper", hue: "yellow", level: "body" },
        31 => MaterialName { name: "paper:yellow:edge", family: "paper", hue: "yellow", level: "edge" },
        32 => MaterialName { name: "paper:yellow:deep", family: "paper", hue: "yellow", level: "deep" },
        33 => MaterialName { name: "paper:green", family: "paper", hue: "green", level: "body" },
        34 => MaterialName { name: "paper:green:edge", family: "paper", hue: "green", level: "edge" },
        35 => MaterialName { name: "paper:green:deep", family: "paper", hue: "green", level: "deep" },
        36 => MaterialName { name: "paper:cyan", family: "paper", hue: "cyan", level: "body" },
        37 => MaterialName { name: "paper:cyan:edge", family: "paper", hue: "cyan", level: "edge" },
        38 => MaterialName { name: "paper:cyan:deep", family: "paper", hue: "cyan", level: "deep" },
        39 => MaterialName { name: "paper:blue", family: "paper", hue: "blue", level: "body" },
        40 => MaterialName { name: "paper:blue:edge", family: "paper", hue: "blue", level: "edge" },
        41 => MaterialName { name: "paper:blue:deep", family: "paper", hue: "blue", level: "deep" },
        42 => MaterialName { name: "paper:violet", family: "paper", hue: "violet", level: "body" },
        43 => MaterialName { name: "paper:violet:edge", family: "paper", hue: "violet", level: "edge" },
        44 => MaterialName { name: "paper:violet:deep", family: "paper", hue: "violet", level: "deep" },
        45 => MaterialName { name: "paper:natural", family: "paper", hue: "natural", level: "body" },
        46 => MaterialName { name: "paper:natural:edge", family: "paper", hue: "natural", level: "edge" },
        47 => MaterialName { name: "paper:natural:deep", family: "paper", hue: "natural", level: "deep" },
        48 => MaterialName { name: "ceramic:red", family: "ceramic", hue: "red", level: "body" },
        49 => MaterialName { name: "ceramic:red:edge", family: "ceramic", hue: "red", level: "edge" },
        50 => MaterialName { name: "ceramic:red:deep", family: "ceramic", hue: "red", level: "deep" },
        51 => MaterialName { name: "ceramic:amber", family: "ceramic", hue: "amber", level: "body" },
        52 => MaterialName { name: "ceramic:amber:edge", family: "ceramic", hue: "amber", level: "edge" },
        53 => MaterialName { name: "ceramic:amber:deep", family: "ceramic", hue: "amber", level: "deep" },
        54 => MaterialName { name: "ceramic:yellow", family: "ceramic", hue: "yellow", level: "body" },
        55 => MaterialName { name: "ceramic:yellow:edge", family: "ceramic", hue: "yellow", level: "edge" },
        56 => MaterialName { name: "ceramic:yellow:deep", family: "ceramic", hue: "yellow", level: "deep" },
        57 => MaterialName { name: "ceramic:green", family: "ceramic", hue: "green", level: "body" },
        58 => MaterialName { name: "ceramic:green:edge", family: "ceramic", hue: "green", level: "edge" },
        59 => MaterialName { name: "ceramic:green:deep", family: "ceramic", hue: "green", level: "deep" },
        60 => MaterialName { name: "ceramic:cyan", family: "ceramic", hue: "cyan", level: "body" },
        61 => MaterialName { name: "ceramic:cyan:edge", family: "ceramic", hue: "cyan", level: "edge" },
        62 => MaterialName { name: "ceramic:cyan:deep", family: "ceramic", hue: "cyan", level: "deep" },
        63 => MaterialName { name: "ceramic:blue", family: "ceramic", hue: "blue", level: "body" },
        64 => MaterialName { name: "ceramic:blue:edge", family: "ceramic", hue: "blue", level: "edge" },
        65 => MaterialName { name: "ceramic:blue:deep", family: "ceramic", hue: "blue", level: "deep" },
        66 => MaterialName { name: "ceramic:violet", family: "ceramic", hue: "violet", level: "body" },
        67 => MaterialName { name: "ceramic:violet:edge", family: "ceramic", hue: "violet", level: "edge" },
        68 => MaterialName { name: "ceramic:violet:deep", family: "ceramic", hue: "violet", level: "deep" },
        69 => MaterialName { name: "ceramic:natural", family: "ceramic", hue: "natural", level: "body" },
        70 => MaterialName { name: "ceramic:natural:edge", family: "ceramic", hue: "natural", level: "edge" },
        71 => MaterialName { name: "ceramic:natural:deep", family: "ceramic", hue: "natural", level: "deep" },
        72 => MaterialName { name: "glass:red", family: "glass", hue: "red", level: "body" },
        73 => MaterialName { name: "glass:red:edge", family: "glass", hue: "red", level: "edge" },
        74 => MaterialName { name: "glass:red:deep", family: "glass", hue: "red", level: "deep" },
        75 => MaterialName { name: "glass:amber", family: "glass", hue: "amber", level: "body" },
        76 => MaterialName { name: "glass:amber:edge", family: "glass", hue: "amber", level: "edge" },
        77 => MaterialName { name: "glass:amber:deep", family: "glass", hue: "amber", level: "deep" },
        78 => MaterialName { name: "glass:yellow", family: "glass", hue: "yellow", level: "body" },
        79 => MaterialName { name: "glass:yellow:edge", family: "glass", hue: "yellow", level: "edge" },
        80 => MaterialName { name: "glass:yellow:deep", family: "glass", hue: "yellow", level: "deep" },
        81 => MaterialName { name: "glass:green", family: "glass", hue: "green", level: "body" },
        82 => MaterialName { name: "glass:green:edge", family: "glass", hue: "green", level: "edge" },
        83 => MaterialName { name: "glass:green:deep", family: "glass", hue: "green", level: "deep" },
        84 => MaterialName { name: "glass:cyan", family: "glass", hue: "cyan", level: "body" },
        85 => MaterialName { name: "glass:cyan:edge", family: "glass", hue: "cyan", level: "edge" },
        86 => MaterialName { name: "glass:cyan:deep", family: "glass", hue: "cyan", level: "deep" },
        87 => MaterialName { name: "glass:blue", family: "glass", hue: "blue", level: "body" },
        88 => MaterialName { name: "glass:blue:edge", family: "glass", hue: "blue", level: "edge" },
        89 => MaterialName { name: "glass:blue:deep", family: "glass", hue: "blue", level: "deep" },
        90 => MaterialName { name: "glass:violet", family: "glass", hue: "violet", level: "body" },
        91 => MaterialName { name: "glass:violet:edge", family: "glass", hue: "violet", level: "edge" },
        92 => MaterialName { name: "glass:violet:deep", family: "glass", hue: "violet", level: "deep" },
        93 => MaterialName { name: "glass:natural", family: "glass", hue: "natural", level: "body" },
        94 => MaterialName { name: "glass:natural:edge", family: "glass", hue: "natural", level: "edge" },
        95 => MaterialName { name: "glass:natural:deep", family: "glass", hue: "natural", level: "deep" },
        96 => MaterialName { name: "polymer:red", family: "polymer", hue: "red", level: "body" },
        97 => MaterialName { name: "polymer:red:edge", family: "polymer", hue: "red", level: "edge" },
        98 => MaterialName { name: "polymer:red:deep", family: "polymer", hue: "red", level: "deep" },
        99 => MaterialName { name: "polymer:amber", family: "polymer", hue: "amber", level: "body" },
        100 => MaterialName { name: "polymer:amber:edge", family: "polymer", hue: "amber", level: "edge" },
        101 => MaterialName { name: "polymer:amber:deep", family: "polymer", hue: "amber", level: "deep" },
        102 => MaterialName { name: "polymer:yellow", family: "polymer", hue: "yellow", level: "body" },
        103 => MaterialName { name: "polymer:yellow:edge", family: "polymer", hue: "yellow", level: "edge" },
        104 => MaterialName { name: "polymer:yellow:deep", family: "polymer", hue: "yellow", level: "deep" },
        105 => MaterialName { name: "polymer:green", family: "polymer", hue: "green", level: "body" },
        106 => MaterialName { name: "polymer:green:edge", family: "polymer", hue: "green", level: "edge" },
        107 => MaterialName { name: "polymer:green:deep", family: "polymer", hue: "green", level: "deep" },
        108 => MaterialName { name: "polymer:cyan", family: "polymer", hue: "cyan", level: "body" },
        109 => MaterialName { name: "polymer:cyan:edge", family: "polymer", hue: "cyan", level: "edge" },
        110 => MaterialName { name: "polymer:cyan:deep", family: "polymer", hue: "cyan", level: "deep" },
        111 => MaterialName { name: "polymer:blue", family: "polymer", hue: "blue", level: "body" },
        112 => MaterialName { name: "polymer:blue:edge", family: "polymer", hue: "blue", level: "edge" },
        113 => MaterialName { name: "polymer:blue:deep", family: "polymer", hue: "blue", level: "deep" },
        114 => MaterialName { name: "polymer:violet", family: "polymer", hue: "violet", level: "body" },
        115 => MaterialName { name: "polymer:violet:edge", family: "polymer", hue: "violet", level: "edge" },
        116 => MaterialName { name: "polymer:violet:deep", family: "polymer", hue: "violet", level: "deep" },
        117 => MaterialName { name: "polymer:natural", family: "polymer", hue: "natural", level: "body" },
        118 => MaterialName { name: "polymer:natural:edge", family: "polymer", hue: "natural", level: "edge" },
        119 => MaterialName { name: "polymer:natural:deep", family: "polymer", hue: "natural", level: "deep" },
        120 => MaterialName { name: "road:red", family: "road", hue: "red", level: "body" },
        121 => MaterialName { name: "road:red:edge", family: "road", hue: "red", level: "edge" },
        122 => MaterialName { name: "road:red:deep", family: "road", hue: "red", level: "deep" },
        123 => MaterialName { name: "road:amber", family: "road", hue: "amber", level: "body" },
        124 => MaterialName { name: "road:amber:edge", family: "road", hue: "amber", level: "edge" },
        125 => MaterialName { name: "road:amber:deep", family: "road", hue: "amber", level: "deep" },
        126 => MaterialName { name: "road:yellow", family: "road", hue: "yellow", level: "body" },
        127 => MaterialName { name: "road:yellow:edge", family: "road", hue: "yellow", level: "edge" },
        128 => MaterialName { name: "road:yellow:deep", family: "road", hue: "yellow", level: "deep" },
        129 => MaterialName { name: "road:green", family: "road", hue: "green", level: "body" },
        130 => MaterialName { name: "road:green:edge", family: "road", hue: "green", level: "edge" },
        131 => MaterialName { name: "road:green:deep", family: "road", hue: "green", level: "deep" },
        132 => MaterialName { name: "road:cyan", family: "road", hue: "cyan", level: "body" },
        133 => MaterialName { name: "road:cyan:edge", family: "road", hue: "cyan", level: "edge" },
        134 => MaterialName { name: "road:cyan:deep", family: "road", hue: "cyan", level: "deep" },
        135 => MaterialName { name: "road:blue", family: "road", hue: "blue", level: "body" },
        136 => MaterialName { name: "road:blue:edge", family: "road", hue: "blue", level: "edge" },
        137 => MaterialName { name: "road:blue:deep", family: "road", hue: "blue", level: "deep" },
        138 => MaterialName { name: "road:violet", family: "road", hue: "violet", level: "body" },
        139 => MaterialName { name: "road:violet:edge", family: "road", hue: "violet", level: "edge" },
        140 => MaterialName { name: "road:violet:deep", family: "road", hue: "violet", level: "deep" },
        141 => MaterialName { name: "road:natural", family: "road", hue: "natural", level: "body" },
        142 => MaterialName { name: "road:natural:edge", family: "road", hue: "natural", level: "edge" },
        143 => MaterialName { name: "road:natural:deep", family: "road", hue: "natural", level: "deep" },
        144 => MaterialName { name: "enamel:red", family: "enamel", hue: "red", level: "body" },
        145 => MaterialName { name: "enamel:red:edge", family: "enamel", hue: "red", level: "edge" },
        146 => MaterialName { name: "enamel:red:deep", family: "enamel", hue: "red", level: "deep" },
        147 => MaterialName { name: "enamel:amber", family: "enamel", hue: "amber", level: "body" },
        148 => MaterialName { name: "enamel:amber:edge", family: "enamel", hue: "amber", level: "edge" },
        149 => MaterialName { name: "enamel:amber:deep", family: "enamel", hue: "amber", level: "deep" },
        150 => MaterialName { name: "enamel:yellow", family: "enamel", hue: "yellow", level: "body" },
        151 => MaterialName { name: "enamel:yellow:edge", family: "enamel", hue: "yellow", level: "edge" },
        152 => MaterialName { name: "enamel:yellow:deep", family: "enamel", hue: "yellow", level: "deep" },
        153 => MaterialName { name: "enamel:green", family: "enamel", hue: "green", level: "body" },
        154 => MaterialName { name: "enamel:green:edge", family: "enamel", hue: "green", level: "edge" },
        155 => MaterialName { name: "enamel:green:deep", family: "enamel", hue: "green", level: "deep" },
        156 => MaterialName { name: "enamel:cyan", family: "enamel", hue: "cyan", level: "body" },
        157 => MaterialName { name: "enamel:cyan:edge", family: "enamel", hue: "cyan", level: "edge" },
        158 => MaterialName { name: "enamel:cyan:deep", family: "enamel", hue: "cyan", level: "deep" },
        159 => MaterialName { name: "enamel:blue", family: "enamel", hue: "blue", level: "body" },
        160 => MaterialName { name: "enamel:blue:edge", family: "enamel", hue: "blue", level: "edge" },
        161 => MaterialName { name: "enamel:blue:deep", family: "enamel", hue: "blue", level: "deep" },
        162 => MaterialName { name: "enamel:violet", family: "enamel", hue: "violet", level: "body" },
        163 => MaterialName { name: "enamel:violet:edge", family: "enamel", hue: "violet", level: "edge" },
        164 => MaterialName { name: "enamel:violet:deep", family: "enamel", hue: "violet", level: "deep" },
        165 => MaterialName { name: "enamel:natural", family: "enamel", hue: "natural", level: "body" },
        166 => MaterialName { name: "enamel:natural:edge", family: "enamel", hue: "natural", level: "edge" },
        167 => MaterialName { name: "enamel:natural:deep", family: "enamel", hue: "natural", level: "deep" },
        168 => MaterialName { name: "water:red", family: "water", hue: "red", level: "body" },
        169 => MaterialName { name: "water:red:edge", family: "water", hue: "red", level: "edge" },
        170 => MaterialName { name: "water:red:deep", family: "water", hue: "red", level: "deep" },
        171 => MaterialName { name: "water:amber", family: "water", hue: "amber", level: "body" },
        172 => MaterialName { name: "water:amber:edge", family: "water", hue: "amber", level: "edge" },
        173 => MaterialName { name: "water:amber:deep", family: "water", hue: "amber", level: "deep" },
        174 => MaterialName { name: "water:yellow", family: "water", hue: "yellow", level: "body" },
        175 => MaterialName { name: "water:yellow:edge", family: "water", hue: "yellow", level: "edge" },
        176 => MaterialName { name: "water:yellow:deep", family: "water", hue: "yellow", level: "deep" },
        177 => MaterialName { name: "water:green", family: "water", hue: "green", level: "body" },
        178 => MaterialName { name: "water:green:edge", family: "water", hue: "green", level: "edge" },
        179 => MaterialName { name: "water:green:deep", family: "water", hue: "green", level: "deep" },
        180 => MaterialName { name: "water:cyan", family: "water", hue: "cyan", level: "body" },
        181 => MaterialName { name: "water:cyan:edge", family: "water", hue: "cyan", level: "edge" },
        182 => MaterialName { name: "water:cyan:deep", family: "water", hue: "cyan", level: "deep" },
        183 => MaterialName { name: "water:blue", family: "water", hue: "blue", level: "body" },
        184 => MaterialName { name: "water:blue:edge", family: "water", hue: "blue", level: "edge" },
        185 => MaterialName { name: "water:blue:deep", family: "water", hue: "blue", level: "deep" },
        186 => MaterialName { name: "water:violet", family: "water", hue: "violet", level: "body" },
        187 => MaterialName { name: "water:violet:edge", family: "water", hue: "violet", level: "edge" },
        188 => MaterialName { name: "water:violet:deep", family: "water", hue: "violet", level: "deep" },
        189 => MaterialName { name: "water:natural", family: "water", hue: "natural", level: "body" },
        190 => MaterialName { name: "water:natural:edge", family: "water", hue: "natural", level: "edge" },
        191 => MaterialName { name: "water:natural:deep", family: "water", hue: "natural", level: "deep" },
        192 => MaterialName { name: "organic:red", family: "organic", hue: "red", level: "body" },
        193 => MaterialName { name: "organic:red:edge", family: "organic", hue: "red", level: "edge" },
        194 => MaterialName { name: "organic:red:deep", family: "organic", hue: "red", level: "deep" },
        195 => MaterialName { name: "organic:amber", family: "organic", hue: "amber", level: "body" },
        196 => MaterialName { name: "organic:amber:edge", family: "organic", hue: "amber", level: "edge" },
        197 => MaterialName { name: "organic:amber:deep", family: "organic", hue: "amber", level: "deep" },
        198 => MaterialName { name: "organic:yellow", family: "organic", hue: "yellow", level: "body" },
        199 => MaterialName { name: "organic:yellow:edge", family: "organic", hue: "yellow", level: "edge" },
        200 => MaterialName { name: "organic:yellow:deep", family: "organic", hue: "yellow", level: "deep" },
        201 => MaterialName { name: "organic:green", family: "organic", hue: "green", level: "body" },
        202 => MaterialName { name: "organic:green:edge", family: "organic", hue: "green", level: "edge" },
        203 => MaterialName { name: "organic:green:deep", family: "organic", hue: "green", level: "deep" },
        204 => MaterialName { name: "organic:cyan", family: "organic", hue: "cyan", level: "body" },
        205 => MaterialName { name: "organic:cyan:edge", family: "organic", hue: "cyan", level: "edge" },
        206 => MaterialName { name: "organic:cyan:deep", family: "organic", hue: "cyan", level: "deep" },
        207 => MaterialName { name: "organic:blue", family: "organic", hue: "blue", level: "body" },
        208 => MaterialName { name: "organic:blue:edge", family: "organic", hue: "blue", level: "edge" },
        209 => MaterialName { name: "organic:blue:deep", family: "organic", hue: "blue", level: "deep" },
        210 => MaterialName { name: "organic:violet", family: "organic", hue: "violet", level: "body" },
        211 => MaterialName { name: "organic:violet:edge", family: "organic", hue: "violet", level: "edge" },
        212 => MaterialName { name: "organic:violet:deep", family: "organic", hue: "violet", level: "deep" },
        213 => MaterialName { name: "organic:natural", family: "organic", hue: "natural", level: "body" },
        214 => MaterialName { name: "organic:natural:edge", family: "organic", hue: "natural", level: "edge" },
        215 => MaterialName { name: "organic:natural:deep", family: "organic", hue: "natural", level: "deep" },
        216 => MaterialName { name: "soil:red", family: "soil", hue: "red", level: "body" },
        217 => MaterialName { name: "soil:red:edge", family: "soil", hue: "red", level: "edge" },
        218 => MaterialName { name: "soil:red:deep", family: "soil", hue: "red", level: "deep" },
        219 => MaterialName { name: "soil:amber", family: "soil", hue: "amber", level: "body" },
        220 => MaterialName { name: "soil:amber:edge", family: "soil", hue: "amber", level: "edge" },
        221 => MaterialName { name: "soil:amber:deep", family: "soil", hue: "amber", level: "deep" },
        222 => MaterialName { name: "soil:yellow", family: "soil", hue: "yellow", level: "body" },
        223 => MaterialName { name: "soil:yellow:edge", family: "soil", hue: "yellow", level: "edge" },
        224 => MaterialName { name: "soil:yellow:deep", family: "soil", hue: "yellow", level: "deep" },
        225 => MaterialName { name: "soil:green", family: "soil", hue: "green", level: "body" },
        226 => MaterialName { name: "soil:green:edge", family: "soil", hue: "green", level: "edge" },
        227 => MaterialName { name: "soil:green:deep", family: "soil", hue: "green", level: "deep" },
        228 => MaterialName { name: "soil:cyan", family: "soil", hue: "cyan", level: "body" },
        229 => MaterialName { name: "soil:cyan:edge", family: "soil", hue: "cyan", level: "edge" },
        230 => MaterialName { name: "soil:cyan:deep", family: "soil", hue: "cyan", level: "deep" },
        231 => MaterialName { name: "soil:blue", family: "soil", hue: "blue", level: "body" },
        232 => MaterialName { name: "soil:blue:edge", family: "soil", hue: "blue", level: "edge" },
        233 => MaterialName { name: "soil:blue:deep", family: "soil", hue: "blue", level: "deep" },
        234 => MaterialName { name: "soil:violet", family: "soil", hue: "violet", level: "body" },
        235 => MaterialName { name: "soil:violet:edge", family: "soil", hue: "violet", level: "edge" },
        236 => MaterialName { name: "soil:violet:deep", family: "soil", hue: "violet", level: "deep" },
        237 => MaterialName { name: "soil:natural", family: "soil", hue: "natural", level: "body" },
        238 => MaterialName { name: "soil:natural:edge", family: "soil", hue: "natural", level: "edge" },
        _ => MaterialName { name: "soil:natural:deep", family: "soil", hue: "natural", level: "deep" },
    }
}

/// Every resolved colour-table entry, by name.
pub fn material_names() -> (rows: Vec<MaterialName>)
    ensures
        rows@ == spec_material_names(),
{
    let mut rows: Vec<MaterialName> = Vec::new();
    let mut i: usize = 0;
    while i < 240
        invariant
            i <= 240,
            rows@ == spec_material_names().take(i as int),
        decreases 240 - i,
    {
        rows.push(material_names_row(i));
        i += 1;
        assert(rows@ =~= spec_material_names().take(i as int));
    }
    assert(rows@ =~= spec_material_names());
    rows
}

/// How many rows icon_family_names() holds.
pub const ICON_FAMILY_NAMES_LEN: usize = 7;

/// One row of icon_family_names(), by its position.
pub open spec fn spec_icon_family_names_row(i: int) -> &'static str {
    if i == 0 {
        "metal"
    } else 
if i == 1 {
        "paper"
    } else 
if i == 2 {
        "ceramic"
    } else 
if i == 3 {
        "glass"
    } else 
if i == 4 {
        "polymer"
    } else 
if i == 5 {
        "road"
    } else 
{
        "enamel"
    }

}

/// The icon set's families: exactly seven.
pub open spec fn spec_icon_family_names() -> Seq<&'static str> {
    Seq::new(7, |i: int| spec_icon_family_names_row(i))
}

/// One row of icon_family_names(), by its position.
pub fn icon_family_names_row(i: usize) -> (row: &'static str)
    requires
        i < 7,
    ensures
        row == spec_icon_family_names_row(i as int),
{
    match i {
        0 => "metal",
        1 => "paper",
        2 => "ceramic",
        3 => "glass",
        4 => "polymer",
        5 => "road",
        _ => "enamel",
    }
}

/// The icon set's families: exactly seven.
pub fn icon_family_names() -> (rows: Vec<&'static str>)
    ensures
        rows@ == spec_icon_family_names(),
{
    let mut rows: Vec<&'static str> = Vec::new();
    let mut i: usize = 0;
    while i < 7
        invariant
            i <= 7,
            rows@ == spec_icon_family_names().take(i as int),
        decreases 7 - i,
    {
        rows.push(icon_family_names_row(i));
        i += 1;
        assert(rows@ =~= spec_icon_family_names().take(i as int));
    }
    assert(rows@ =~= spec_icon_family_names());
    rows
}

/// How many rows world_family_names() holds.
pub const WORLD_FAMILY_NAMES_LEN: usize = 3;

/// One row of world_family_names(), by its position.
pub open spec fn spec_world_family_names_row(i: int) -> &'static str {
    if i == 0 {
        "water"
    } else 
if i == 1 {
        "organic"
    } else 
{
        "soil"
    }

}

/// The world's own families, never available to an icon.
pub open spec fn spec_world_family_names() -> Seq<&'static str> {
    Seq::new(3, |i: int| spec_world_family_names_row(i))
}

/// One row of world_family_names(), by its position.
pub fn world_family_names_row(i: usize) -> (row: &'static str)
    requires
        i < 3,
    ensures
        row == spec_world_family_names_row(i as int),
{
    match i {
        0 => "water",
        1 => "organic",
        _ => "soil",
    }
}

/// The world's own families, never available to an icon.
pub fn world_family_names() -> (rows: Vec<&'static str>)
    ensures
        rows@ == spec_world_family_names(),
{
    let mut rows: Vec<&'static str> = Vec::new();
    let mut i: usize = 0;
    while i < 3
        invariant
            i <= 3,
            rows@ == spec_world_family_names().take(i as int),
        decreases 3 - i,
    {
        rows.push(world_family_names_row(i));
        i += 1;
        assert(rows@ =~= spec_world_family_names().take(i as int));
    }
    assert(rows@ =~= spec_world_family_names());
    rows
}

/// How many rows mechanism_names() holds.
pub const MECHANISM_NAMES_LEN: usize = 10;

/// One row of mechanism_names(), by its position.
pub open spec fn spec_mechanism_names_row(i: int) -> &'static str {
    if i == 0 {
        "metal"
    } else 
if i == 1 {
        "glass"
    } else 
if i == 2 {
        "ceramic"
    } else 
if i == 3 {
        "polymer"
    } else 
if i == 4 {
        "paper"
    } else 
if i == 5 {
        "road"
    } else 
if i == 6 {
        "enamel"
    } else 
if i == 7 {
        "water"
    } else 
if i == 8 {
        "organic"
    } else 
{
        "soil"
    }

}

/// The families whose colour mechanism is declared.
pub open spec fn spec_mechanism_names() -> Seq<&'static str> {
    Seq::new(10, |i: int| spec_mechanism_names_row(i))
}

/// One row of mechanism_names(), by its position.
pub fn mechanism_names_row(i: usize) -> (row: &'static str)
    requires
        i < 10,
    ensures
        row == spec_mechanism_names_row(i as int),
{
    match i {
        0 => "metal",
        1 => "glass",
        2 => "ceramic",
        3 => "polymer",
        4 => "paper",
        5 => "road",
        6 => "enamel",
        7 => "water",
        8 => "organic",
        _ => "soil",
    }
}

/// The families whose colour mechanism is declared.
pub fn mechanism_names() -> (rows: Vec<&'static str>)
    ensures
        rows@ == spec_mechanism_names(),
{
    let mut rows: Vec<&'static str> = Vec::new();
    let mut i: usize = 0;
    while i < 10
        invariant
            i <= 10,
            rows@ == spec_mechanism_names().take(i as int),
        decreases 10 - i,
    {
        rows.push(mechanism_names_row(i));
        i += 1;
        assert(rows@ =~= spec_mechanism_names().take(i as int));
    }
    assert(rows@ =~= spec_mechanism_names());
    rows
}

/// How many rows anchor_names() holds.
pub const ANCHOR_NAMES_LEN: usize = 7;

/// One row of anchor_names(), by its position.
pub open spec fn spec_anchor_names_row(i: int) -> &'static str {
    if i == 0 {
        "red"
    } else 
if i == 1 {
        "amber"
    } else 
if i == 2 {
        "yellow"
    } else 
if i == 3 {
        "green"
    } else 
if i == 4 {
        "cyan"
    } else 
if i == 5 {
        "blue"
    } else 
{
        "violet"
    }

}

/// The hue ring's declared anchors.
pub open spec fn spec_anchor_names() -> Seq<&'static str> {
    Seq::new(7, |i: int| spec_anchor_names_row(i))
}

/// One row of anchor_names(), by its position.
pub fn anchor_names_row(i: usize) -> (row: &'static str)
    requires
        i < 7,
    ensures
        row == spec_anchor_names_row(i as int),
{
    match i {
        0 => "red",
        1 => "amber",
        2 => "yellow",
        3 => "green",
        4 => "cyan",
        5 => "blue",
        _ => "violet",
    }
}

/// The hue ring's declared anchors.
pub fn anchor_names() -> (rows: Vec<&'static str>)
    ensures
        rows@ == spec_anchor_names(),
{
    let mut rows: Vec<&'static str> = Vec::new();
    let mut i: usize = 0;
    while i < 7
        invariant
            i <= 7,
            rows@ == spec_anchor_names().take(i as int),
        decreases 7 - i,
    {
        rows.push(anchor_names_row(i));
        i += 1;
        assert(rows@ =~= spec_anchor_names().take(i as int));
    }
    assert(rows@ =~= spec_anchor_names());
    rows
}

/// How many rows level_names() holds.
pub const LEVEL_NAMES_LEN: usize = 3;

/// One row of level_names(), by its position.
pub open spec fn spec_level_names_row(i: int) -> &'static str {
    if i == 0 {
        "body"
    } else 
if i == 1 {
        "edge"
    } else 
{
        "deep"
    }

}

/// The declared lightness levels.
pub open spec fn spec_level_names() -> Seq<&'static str> {
    Seq::new(3, |i: int| spec_level_names_row(i))
}

/// One row of level_names(), by its position.
pub fn level_names_row(i: usize) -> (row: &'static str)
    requires
        i < 3,
    ensures
        row == spec_level_names_row(i as int),
{
    match i {
        0 => "body",
        1 => "edge",
        _ => "deep",
    }
}

/// The declared lightness levels.
pub fn level_names() -> (rows: Vec<&'static str>)
    ensures
        rows@ == spec_level_names(),
{
    let mut rows: Vec<&'static str> = Vec::new();
    let mut i: usize = 0;
    while i < 3
        invariant
            i <= 3,
            rows@ == spec_level_names().take(i as int),
        decreases 3 - i,
    {
        rows.push(level_names_row(i));
        i += 1;
        assert(rows@ =~= spec_level_names().take(i as int));
    }
    assert(rows@ =~= spec_level_names());
    rows
}

/// How many rows token_names() holds.
pub const TOKEN_NAMES_LEN: usize = 24;

/// One row of token_names(), by its position.
pub open spec fn spec_token_names_row(i: int) -> &'static str {
    if i == 0 {
        "Agent"
    } else 
if i == 1 {
        "CaseOpen"
    } else 
if i == 2 {
        "Desk"
    } else 
if i == 3 {
        "Grid"
    } else 
if i == 4 {
        "Ground"
    } else 
if i == 5 {
        "Ink"
    } else 
if i == 6 {
        "Nature"
    } else 
if i == 7 {
        "NotObtained"
    } else 
if i == 8 {
        "Panel"
    } else 
if i == 9 {
        "PanelRaised"
    } else 
if i == 10 {
        "Plaque"
    } else 
if i == 11 {
        "Refused"
    } else 
if i == 12 {
        "Retired"
    } else 
if i == 13 {
        "Road"
    } else 
if i == 14 {
        "RoadEdge"
    } else 
if i == 15 {
        "Scaffold"
    } else 
if i == 16 {
        "TextBody"
    } else 
if i == 17 {
        "TextMuted"
    } else 
if i == 18 {
        "Warning"
    } else 
if i == 19 {
        "Water"
    } else 
if i == 20 {
        "ZoneCommercial"
    } else 
if i == 21 {
        "ZoneIndustrial"
    } else 
if i == 22 {
        "ZoneResidential"
    } else 
{
        "IconBlack"
    }

}

/// The colour tokens this table owns.
pub open spec fn spec_token_names() -> Seq<&'static str> {
    Seq::new(24, |i: int| spec_token_names_row(i))
}

/// One row of token_names(), by its position.
pub fn token_names_row(i: usize) -> (row: &'static str)
    requires
        i < 24,
    ensures
        row == spec_token_names_row(i as int),
{
    match i {
        0 => "Agent",
        1 => "CaseOpen",
        2 => "Desk",
        3 => "Grid",
        4 => "Ground",
        5 => "Ink",
        6 => "Nature",
        7 => "NotObtained",
        8 => "Panel",
        9 => "PanelRaised",
        10 => "Plaque",
        11 => "Refused",
        12 => "Retired",
        13 => "Road",
        14 => "RoadEdge",
        15 => "Scaffold",
        16 => "TextBody",
        17 => "TextMuted",
        18 => "Warning",
        19 => "Water",
        20 => "ZoneCommercial",
        21 => "ZoneIndustrial",
        22 => "ZoneResidential",
        _ => "IconBlack",
    }
}

/// The colour tokens this table owns.
pub fn token_names() -> (rows: Vec<&'static str>)
    ensures
        rows@ == spec_token_names(),
{
    let mut rows: Vec<&'static str> = Vec::new();
    let mut i: usize = 0;
    while i < 24
        invariant
            i <= 24,
            rows@ == spec_token_names().take(i as int),
        decreases 24 - i,
    {
        rows.push(token_names_row(i));
        i += 1;
        assert(rows@ =~= spec_token_names().take(i as int));
    }
    assert(rows@ =~= spec_token_names());
    rows
}

/// How many rows priced_parts() holds.
pub const PRICED_PARTS_LEN: usize = 19;

/// One row of priced_parts(), by its position.
pub open spec fn spec_priced_parts_row(i: int) -> &'static str {
    if i == 0 {
        "home.walls"
    } else 
if i == 1 {
        "home.roof"
    } else 
if i == 2 {
        "home.window"
    } else 
if i == 3 {
        "shop.walls"
    } else 
if i == 4 {
        "shop.frontage"
    } else 
if i == 5 {
        "shop.window"
    } else 
if i == 6 {
        "factory.frame"
    } else 
if i == 7 {
        "factory.cladding"
    } else 
if i == 8 {
        "factory.vent"
    } else 
if i == 9 {
        "power.frame"
    } else 
if i == 10 {
        "power.stack"
    } else 
if i == 11 {
        "power.insulator"
    } else 
if i == 12 {
        "power.core"
    } else 
if i == 13 {
        "road.surface"
    } else 
if i == 14 {
        "road.edge"
    } else 
if i == 15 {
        "powerline.conductor"
    } else 
if i == 16 {
        "powerline.pylon"
    } else 
if i == 17 {
        "scaffold.frame"
    } else 
{
        "scaffold.deck"
    }

}

/// The parts a price is declared for.
pub open spec fn spec_priced_parts() -> Seq<&'static str> {
    Seq::new(19, |i: int| spec_priced_parts_row(i))
}

/// One row of priced_parts(), by its position.
pub fn priced_parts_row(i: usize) -> (row: &'static str)
    requires
        i < 19,
    ensures
        row == spec_priced_parts_row(i as int),
{
    match i {
        0 => "home.walls",
        1 => "home.roof",
        2 => "home.window",
        3 => "shop.walls",
        4 => "shop.frontage",
        5 => "shop.window",
        6 => "factory.frame",
        7 => "factory.cladding",
        8 => "factory.vent",
        9 => "power.frame",
        10 => "power.stack",
        11 => "power.insulator",
        12 => "power.core",
        13 => "road.surface",
        14 => "road.edge",
        15 => "powerline.conductor",
        16 => "powerline.pylon",
        17 => "scaffold.frame",
        _ => "scaffold.deck",
    }
}

/// The parts a price is declared for.
pub fn priced_parts() -> (rows: Vec<&'static str>)
    ensures
        rows@ == spec_priced_parts(),
{
    let mut rows: Vec<&'static str> = Vec::new();
    let mut i: usize = 0;
    while i < 19
        invariant
            i <= 19,
            rows@ == spec_priced_parts().take(i as int),
        decreases 19 - i,
    {
        rows.push(priced_parts_row(i));
        i += 1;
        assert(rows@ =~= spec_priced_parts().take(i as int));
    }
    assert(rows@ =~= spec_priced_parts());
    rows
}

/// How many rows upkeep_families() holds.
pub const UPKEEP_FAMILIES_LEN: usize = 10;

/// One row of upkeep_families(), by its position.
pub open spec fn spec_upkeep_families_row(i: int) -> &'static str {
    if i == 0 {
        "metal"
    } else 
if i == 1 {
        "enamel"
    } else 
if i == 2 {
        "glass"
    } else 
if i == 3 {
        "ceramic"
    } else 
if i == 4 {
        "polymer"
    } else 
if i == 5 {
        "paper"
    } else 
if i == 6 {
        "road"
    } else 
if i == 7 {
        "water"
    } else 
if i == 8 {
        "organic"
    } else 
{
        "soil"
    }

}

/// The families a upkeep per month rate is declared for.
pub open spec fn spec_upkeep_families() -> Seq<&'static str> {
    Seq::new(10, |i: int| spec_upkeep_families_row(i))
}

/// One row of upkeep_families(), by its position.
pub fn upkeep_families_row(i: usize) -> (row: &'static str)
    requires
        i < 10,
    ensures
        row == spec_upkeep_families_row(i as int),
{
    match i {
        0 => "metal",
        1 => "enamel",
        2 => "glass",
        3 => "ceramic",
        4 => "polymer",
        5 => "paper",
        6 => "road",
        7 => "water",
        8 => "organic",
        _ => "soil",
    }
}

/// The families a upkeep per month rate is declared for.
pub fn upkeep_families() -> (rows: Vec<&'static str>)
    ensures
        rows@ == spec_upkeep_families(),
{
    let mut rows: Vec<&'static str> = Vec::new();
    let mut i: usize = 0;
    while i < 10
        invariant
            i <= 10,
            rows@ == spec_upkeep_families().take(i as int),
        decreases 10 - i,
    {
        rows.push(upkeep_families_row(i));
        i += 1;
        assert(rows@ =~= spec_upkeep_families().take(i as int));
    }
    assert(rows@ =~= spec_upkeep_families());
    rows
}

/// How many rows decay_families() holds.
pub const DECAY_FAMILIES_LEN: usize = 10;

/// One row of decay_families(), by its position.
pub open spec fn spec_decay_families_row(i: int) -> &'static str {
    if i == 0 {
        "metal"
    } else 
if i == 1 {
        "enamel"
    } else 
if i == 2 {
        "glass"
    } else 
if i == 3 {
        "ceramic"
    } else 
if i == 4 {
        "polymer"
    } else 
if i == 5 {
        "paper"
    } else 
if i == 6 {
        "road"
    } else 
if i == 7 {
        "water"
    } else 
if i == 8 {
        "organic"
    } else 
{
        "soil"
    }

}

/// The families a decay per day rate is declared for.
pub open spec fn spec_decay_families() -> Seq<&'static str> {
    Seq::new(10, |i: int| spec_decay_families_row(i))
}

/// One row of decay_families(), by its position.
pub fn decay_families_row(i: usize) -> (row: &'static str)
    requires
        i < 10,
    ensures
        row == spec_decay_families_row(i as int),
{
    match i {
        0 => "metal",
        1 => "enamel",
        2 => "glass",
        3 => "ceramic",
        4 => "polymer",
        5 => "paper",
        6 => "road",
        7 => "water",
        8 => "organic",
        _ => "soil",
    }
}

/// The families a decay per day rate is declared for.
pub fn decay_families() -> (rows: Vec<&'static str>)
    ensures
        rows@ == spec_decay_families(),
{
    let mut rows: Vec<&'static str> = Vec::new();
    let mut i: usize = 0;
    while i < 10
        invariant
            i <= 10,
            rows@ == spec_decay_families().take(i as int),
        decreases 10 - i,
    {
        rows.push(decay_families_row(i));
        i += 1;
        assert(rows@ =~= spec_decay_families().take(i as int));
    }
    assert(rows@ =~= spec_decay_families());
    rows
}

/// How many rows desirability_families() holds.
pub const DESIRABILITY_FAMILIES_LEN: usize = 10;

/// One row of desirability_families(), by its position.
pub open spec fn spec_desirability_families_row(i: int) -> &'static str {
    if i == 0 {
        "metal"
    } else 
if i == 1 {
        "enamel"
    } else 
if i == 2 {
        "glass"
    } else 
if i == 3 {
        "ceramic"
    } else 
if i == 4 {
        "polymer"
    } else 
if i == 5 {
        "paper"
    } else 
if i == 6 {
        "road"
    } else 
if i == 7 {
        "water"
    } else 
if i == 8 {
        "organic"
    } else 
{
        "soil"
    }

}

/// The families a desirability rate is declared for.
pub open spec fn spec_desirability_families() -> Seq<&'static str> {
    Seq::new(10, |i: int| spec_desirability_families_row(i))
}

/// One row of desirability_families(), by its position.
pub fn desirability_families_row(i: usize) -> (row: &'static str)
    requires
        i < 10,
    ensures
        row == spec_desirability_families_row(i as int),
{
    match i {
        0 => "metal",
        1 => "enamel",
        2 => "glass",
        3 => "ceramic",
        4 => "polymer",
        5 => "paper",
        6 => "road",
        7 => "water",
        8 => "organic",
        _ => "soil",
    }
}

/// The families a desirability rate is declared for.
pub fn desirability_families() -> (rows: Vec<&'static str>)
    ensures
        rows@ == spec_desirability_families(),
{
    let mut rows: Vec<&'static str> = Vec::new();
    let mut i: usize = 0;
    while i < 10
        invariant
            i <= 10,
            rows@ == spec_desirability_families().take(i as int),
        decreases 10 - i,
    {
        rows.push(desirability_families_row(i));
        i += 1;
        assert(rows@ =~= spec_desirability_families().take(i as int));
    }
    assert(rows@ =~= spec_desirability_families());
    rows
}

/// How many rows nuisance_families() holds.
pub const NUISANCE_FAMILIES_LEN: usize = 10;

/// One row of nuisance_families(), by its position.
pub open spec fn spec_nuisance_families_row(i: int) -> &'static str {
    if i == 0 {
        "metal"
    } else 
if i == 1 {
        "enamel"
    } else 
if i == 2 {
        "glass"
    } else 
if i == 3 {
        "ceramic"
    } else 
if i == 4 {
        "polymer"
    } else 
if i == 5 {
        "paper"
    } else 
if i == 6 {
        "road"
    } else 
if i == 7 {
        "water"
    } else 
if i == 8 {
        "organic"
    } else 
{
        "soil"
    }

}

/// The families a nuisance rate is declared for.
pub open spec fn spec_nuisance_families() -> Seq<&'static str> {
    Seq::new(10, |i: int| spec_nuisance_families_row(i))
}

/// One row of nuisance_families(), by its position.
pub fn nuisance_families_row(i: usize) -> (row: &'static str)
    requires
        i < 10,
    ensures
        row == spec_nuisance_families_row(i as int),
{
    match i {
        0 => "metal",
        1 => "enamel",
        2 => "glass",
        3 => "ceramic",
        4 => "polymer",
        5 => "paper",
        6 => "road",
        7 => "water",
        8 => "organic",
        _ => "soil",
    }
}

/// The families a nuisance rate is declared for.
pub fn nuisance_families() -> (rows: Vec<&'static str>)
    ensures
        rows@ == spec_nuisance_families(),
{
    let mut rows: Vec<&'static str> = Vec::new();
    let mut i: usize = 0;
    while i < 10
        invariant
            i <= 10,
            rows@ == spec_nuisance_families().take(i as int),
        decreases 10 - i,
    {
        rows.push(nuisance_families_row(i));
        i += 1;
        assert(rows@ =~= spec_nuisance_families().take(i as int));
    }
    assert(rows@ =~= spec_nuisance_families());
    rows
}

} // verus!

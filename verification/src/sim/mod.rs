//! The city's types and the readings the sim makes of them.
//!
//! Everything here is a pure function of its inputs: no wall clock, no hidden global state,
//! so a save replays to the same city.
pub mod citizen;
pub mod city;
pub mod ground;
pub mod growth;
pub mod power;
pub mod rng;
pub mod road;
pub mod task;
pub mod walk;
pub mod works;

use vstd::prelude::*;

use crate::exact::fits_i64;
use crate::lookup::{first_of, first_upto, lemma_first_upto};
use crate::materials::ledger::{ruin_account, spec_structure_base, structure_account, structure_mass_g};
use crate::materials::schema::first_stays;
use crate::materials::world::{family_name, hue_name, level_name, parts_of, spec_parts_of, Level, Part};
use crate::strings::{
    decimal, decimal_nat, glue, join, joined, same, show_i64, show_two_digits, show_u32, show_u64,
    show_usize, two_digits, views,
};

verus! {

/// The save format this build writes.
pub const FORMAT_VERSION: u32 = 2;

/// Simulation rate. Fixed, and never negotiated with the renderer.
pub const SIM_HZ: u32 = 20;

/// Sim-ticks in one game day. At 1x, a day is two seconds.
pub const TICKS_PER_DAY: u64 = 40;

pub const DAYS_PER_MONTH: u64 = 30;

pub const MONTHS_PER_YEAR: u64 = 12;

/// How long construction takes, in ticks.
pub const BUILD_TICKS: u64 = 40;

/// Tiles within this distance of the camera focus are simulated as full agents.
pub const LOD_RADIUS: i32 = 48;

/// A power plant lights this many road-distance tiles.
pub const POWER_RADIUS: u32 = 14;

pub const POWER_PER_PLANT: u32 = 60;

/// The material a structure was built from, as its ticket claims it: in the material
/// table's own vocabulary, so a reader compares it against the world mapping by name.
#[derive(Clone, Debug, PartialEq, Eq)]
pub struct MaterialClaim {
    pub part: String,
    pub family: String,
    pub anchor: String,
    pub level: String,
}

/// A claim as text: part, family, anchor, level.
pub struct ClaimView {
    pub part: Seq<char>,
    pub family: Seq<char>,
    pub anchor: Seq<char>,
    pub level: Seq<char>,
}

impl View for MaterialClaim {
    type V = ClaimView;

    open spec fn view(&self) -> ClaimView {
        ClaimView {
            part: self.part@,
            family: self.family@,
            anchor: self.anchor@,
            level: self.level@,
        }
    }
}

/// Whether a part is read at the body level.
pub open spec fn is_body() -> spec_fn(Part) -> bool {
    |p: Part| p.level == Level::Body
}

/// The part a structure's claim records: its first body part, or its first part when none
/// is read at the body level.
pub open spec fn claimed_part(parts: Seq<Part>) -> Option<Part> {
    let k = first_of(parts, is_body());
    if k >= 0 {
        Some(parts[k])
    } else if parts.len() > 0 {
        Some(parts[0])
    } else {
        None
    }
}

/// The claim a part makes.
pub open spec fn claim_of_part(p: Part) -> ClaimView {
    ClaimView {
        part: p.part@,
        family: family_name(p.family),
        anchor: hue_name(p.hue),
        level: level_name(p.level),
    }
}

impl MaterialClaim {
    /// The claim for a structure of this kind, read off the declared world mapping: the
    /// **body** part is the claim, because it makes the structure what it is.
    pub fn of_kind(kind: BuildingKind) -> (r: Option<MaterialClaim>)
        ensures
            match claimed_part(spec_parts_of(prefix_name(kind))) {
                None => r is None,
                Some(p) => r matches Some(c) && c@ == claim_of_part(p),
            },
    {
        let parts = parts_of(kind.part_prefix());
        let mut i: usize = 0;
        while i < parts.len()
            invariant
                i <= parts@.len(),
                parts@ == spec_parts_of(prefix_name(kind)),
                first_upto(parts@, is_body(), i as int) == -1,
            decreases parts@.len() - i,
        {
            if parts[i].level == Level::Body {
                proof {
                    first_stays(parts@, is_body(), i as int + 1);
                }
                return Some(MaterialClaim::of_part(&parts[i]));
            }
            i += 1;
        }
        if parts.len() == 0 {
            None
        } else {
            Some(MaterialClaim::of_part(&parts[0]))
        }
    }

    /// The claim one part makes.
    fn of_part(p: &Part) -> (r: MaterialClaim)
        ensures
            r@ == claim_of_part(*p),
    {
        MaterialClaim {
            part: String::from_str(p.part),
            family: String::from_str(p.family.as_str()),
            anchor: String::from_str(p.hue.as_str()),
            level: String::from_str(p.level.as_str()),
        }
    }

    /// The claim as a ticket states it.
    pub fn describe(&self) -> (r: String)
        ensures
            r@ == self.family@ + "/"@ + self.anchor@ + "/"@ + self.level@ + " on "@ + self.part@,
    {
        let line = glue(glue(glue(glue(self.family.clone(), "/"), self.anchor.as_str()), "/"), self.level.as_str());
        glue(glue(line, " on "), self.part.as_str())
    }
}

/// Whether a tally row counts this claim.
pub open spec fn claim_is(claim: Seq<char>) -> spec_fn((Seq<char>, nat)) -> bool {
    |t: (Seq<char>, nat)| t.0 == claim
}

/// The tallies after counting one more claim: its row goes up by one, or a new row starts.
pub open spec fn tally_step(earlier: Seq<(Seq<char>, nat)>, claim: Seq<char>) -> Seq<(Seq<char>, nat)> {
    let k = first_of(earlier, claim_is(claim));
    if k >= 0 {
        earlier.update(k, (claim, earlier[k].1 + 1))
    } else {
        earlier.push((claim, 1nat))
    }
}

/// The claims a migration derived, tallied in the order each first appears.
pub open spec fn tally(claims: Seq<Seq<char>>) -> Seq<(Seq<char>, nat)>
    decreases claims.len(),
{
    if claims.len() == 0 {
        Seq::empty()
    } else {
        tally_step(tally(claims.drop_last()), claims.last())
    }
}

/// A tally as the report prints it.
pub open spec fn tally_text() -> spec_fn((Seq<char>, nat)) -> Seq<char> {
    |t: (Seq<char>, nat)| decimal_nat(t.1) + " × "@ + t.0
}

/// What a v1 → v2 migration derived, and from what.
#[derive(Clone, Debug, PartialEq, Eq)]
pub struct Migration {
    pub from: u32,
    pub to: u32,
    /// `(building id, the claim derived for it)`, in the order they were derived.
    pub derived: Vec<(u32, String)>,
}

/// The claims a migration derived, as text, in order.
pub open spec fn derived_claims(derived: Seq<(u32, String)>) -> Seq<Seq<char>> {
    derived.map_values(|d: (u32, String)| d.1@)
}

/// What a migration report says.
pub open spec fn migration_text(m: Migration) -> Seq<char> {
    if m.derived@.len() == 0 {
        "save format v"@ + decimal_nat(m.from as nat) + " → v"@ + decimal_nat(m.to as nat)
            + ": no structures needed a material derived; the tables and the road graph were already there"@
    } else {
        "save format v"@ + decimal_nat(m.from as nat) + " → v"@ + decimal_nat(m.to as nat)
            + ": derived the as-built material of "@ + decimal_nat(m.derived@.len())
            + " structure(s) from their own kinds against the declared mapping — "@ + joined(
            tally(derived_claims(m.derived@)).map_values(tally_text()),
            ", "@,
        )
            + ". This is a derivation, not a measurement: the structures were built before the world had materials, and a claim recorded from here on is a claim."@
    }
}

/// The tallies so far, as text and as counts.
pub open spec fn tally_view(by_claim: Seq<(String, usize)>) -> Seq<(Seq<char>, nat)> {
    by_claim.map_values(|t: (String, usize)| (t.0@, t.1 as nat))
}

/// The row that counts a claim, if there is one.
fn find_claim(by_claim: &Vec<(String, usize)>, claim: &str) -> (r: Option<usize>)
    ensures
        r matches Some(j) ==> j < by_claim@.len(),
        match r {
            Some(j) => first_of(tally_view(by_claim@), claim_is(claim@)) == j as int,
            None => first_of(tally_view(by_claim@), claim_is(claim@)) == -1,
        },
{
    let ghost v = tally_view(by_claim@);
    let mut j: usize = 0;
    while j < by_claim.len()
        invariant
            j <= by_claim@.len(),
            v == tally_view(by_claim@),
            first_upto(v, claim_is(claim@), j as int) == -1,
        decreases by_claim@.len() - j,
    {
        if same(by_claim[j].0.as_str(), claim) {
            proof {
                assert(v[j as int].0 == claim@);
                first_stays(v, claim_is(claim@), j as int + 1);
            }
            return Some(j);
        }
        proof {
            assert(v[j as int].0 != claim@);
        }
        j += 1;
    }
    None
}

/// Count one more claim.
fn count_claim(by_claim: &mut Vec<(String, usize)>, claim: &String, bound: usize)
    requires
        bound >= 1,
        forall|k: int| 0 <= k < old(by_claim)@.len() ==> #[trigger] old(by_claim)@[k].1 < bound,
    ensures
        tally_view(final(by_claim)@) == tally_step(tally_view(old(by_claim)@), claim@),
        forall|k: int| 0 <= k < final(by_claim)@.len() ==> #[trigger] final(by_claim)@[k].1 <= bound,
{
    let ghost earlier = tally_view(by_claim@);
    match find_claim(by_claim, claim.as_str()) {
        Some(j) => {
            let count = by_claim[j].1;
            by_claim.set(j, (claim.clone(), count + 1));
            proof {
                assert(tally_view(by_claim@) =~= earlier.update(j as int, (claim@, earlier[j as int].1 + 1)));
            }
        },
        None => {
            by_claim.push((claim.clone(), 1));
            proof {
                assert(tally_view(by_claim@) =~= earlier.push((claim@, 1nat)));
            }
        },
    }
}

impl Migration {
    /// The migration as a report: how many structures needed a material invented for them,
    /// and which materials were chosen, so a reader can disagree with the choice.
    pub fn describe(&self) -> (r: String)
        ensures
            r@ == migration_text(*self),
    {
        let head = glue(
            glue(glue(String::from_str("save format v"), show_u32(self.from).as_str()), " → v"),
            show_u32(self.to).as_str(),
        );
        if self.derived.len() == 0 {
            return glue(
                head,
                ": no structures needed a material derived; the tables and the road graph were already there",
            );
        }
        let mut by_claim: Vec<(String, usize)> = Vec::new();
        let mut i: usize = 0;
        while i < self.derived.len()
            invariant
                i <= self.derived@.len(),
                forall|k: int| 0 <= k < by_claim@.len() ==> #[trigger] by_claim@[k].1 <= i,
                tally_view(by_claim@) == tally(derived_claims(self.derived@.take(i as int))),
            decreases self.derived@.len() - i,
        {
            proof {
                let claims = derived_claims(self.derived@.take(i as int + 1));
                assert(claims.drop_last() =~= derived_claims(self.derived@.take(i as int)));
                assert(claims.last() == self.derived@[i as int].1@);
            }
            count_claim(&mut by_claim, &self.derived[i].1, i + 1);
            i += 1;
        }
        proof {
            assert(self.derived@.take(self.derived@.len() as int) =~= self.derived@);
        }
        let mut tallies: Vec<String> = Vec::new();
        let mut j: usize = 0;
        while j < by_claim.len()
            invariant
                j <= by_claim@.len(),
                views(tallies@) == tally_view(by_claim@).take(j as int).map_values(tally_text()),
            decreases by_claim@.len() - j,
        {
            let line = glue(glue(show_usize(by_claim[j].1), " × "), by_claim[j].0.as_str());
            let ghost before = tallies@;
            tallies.push(line);
            proof {
                let tv = tally_view(by_claim@);
                assert(tv[j as int] == (by_claim@[j as int].0@, by_claim@[j as int].1 as nat));
                assert(views(tallies@) =~= views(before).push(tally_text()(tv[j as int])));
                assert(tv.take(j as int + 1).map_values(tally_text()) =~= tv.take(j as int).map_values(
                    tally_text(),
                ).push(tally_text()(tv[j as int])));
                assert(views(tallies@) =~= tally_view(by_claim@).take(j as int + 1).map_values(
                    tally_text(),
                ));
            }
            j += 1;
        }
        proof {
            assert(tally_view(by_claim@).take(by_claim@.len() as int) =~= tally_view(by_claim@));
        }
        let line = glue(
            glue(glue(head, ": derived the as-built material of "), show_usize(self.derived.len()).as_str()),
            " structure(s) from their own kinds against the declared mapping — ",
        );
        let joined_tallies = join(&tallies, ", ");
        glue(
            glue(line, joined_tallies.as_str()),
            ". This is a derivation, not a measurement: the structures were built before the world had materials, and a claim recorded from here on is a claim.",
        )
    }
}

/// What a tile's ground is.
#[derive(Clone, Copy, Debug, PartialEq, Eq, Structural)]
pub enum Terrain {
    Ground,
    Water,
}

/// What a tile is zoned for.
#[derive(Clone, Copy, Debug, PartialEq, Eq, Structural)]
pub enum Zone {
    Unzoned,
    Residential,
    Commercial,
    Industrial,
}

/// The name a zone is shown by.
pub open spec fn zone_name(zone: Zone) -> Seq<char> {
    match zone {
        Zone::Unzoned => "unzoned"@,
        Zone::Residential => "residential"@,
        Zone::Commercial => "commercial"@,
        Zone::Industrial => "industrial"@,
    }
}

impl Zone {
    pub fn name(self) -> (r: &'static str)
        ensures
            r@ == zone_name(self),
    {
        match self {
            Zone::Unzoned => "unzoned",
            Zone::Residential => "residential",
            Zone::Commercial => "commercial",
            Zone::Industrial => "industrial",
        }
    }
}

/// One tile of the map.
#[derive(Clone, Copy, Debug, PartialEq, Eq, Structural)]
pub struct Tile {
    pub terrain: Terrain,
    pub zone: Zone,
    pub road: bool,
    /// Index of the structure standing here.
    pub building: Option<u32>,
    pub powered: bool,
    /// How much of this tile's deposit has been taken out, in grams. The deposit itself is
    /// derived from the world's seed and never stored; this is the delta.
    pub extracted_g: i64,
}

/// The family a tile's surface presents as.
pub open spec fn surface_family_of(tile: Tile) -> Seq<char> {
    match tile.terrain {
        Terrain::Water => "water"@,
        Terrain::Ground => if tile.road {
            "road"@
        } else {
            "soil"@
        },
    }
}

/// A tile of bare ground: unzoned, unpaved, unbuilt, unpowered, untouched.
pub open spec fn bare_tile() -> Tile {
    Tile {
        terrain: Terrain::Ground,
        zone: Zone::Unzoned,
        road: false,
        building: None,
        powered: false,
        extracted_g: 0,
    }
}

impl Tile {
    /// The family this tile's surface presents as: derived rather than stored, so there
    /// is no second copy to drift. Bare ground reads as `soil`, the road shoulder's reading.
    pub fn surface_family(&self) -> (r: &'static str)
        ensures
            r@ == surface_family_of(*self),
    {
        match self.terrain {
            Terrain::Water => "water",
            Terrain::Ground => if self.road {
                "road"
            } else {
                "soil"
            },
        }
    }
}

impl Default for Tile {
    fn default() -> (r: Self)
        ensures
            r == bare_tile(),
    {
        Tile {
            terrain: Terrain::Ground,
            zone: Zone::Unzoned,
            road: false,
            building: None,
            powered: false,
            extracted_g: 0,
        }
    }
}

/// What a structure is.
#[derive(Clone, Copy, Debug, PartialEq, Eq, Structural)]
pub enum BuildingKind {
    Home,
    Shop,
    Factory,
    PowerPlant,
}

/// The name a kind is shown by.
pub open spec fn kind_name(kind: BuildingKind) -> Seq<char> {
    match kind {
        BuildingKind::Home => "home"@,
        BuildingKind::Shop => "shop"@,
        BuildingKind::Factory => "factory"@,
        BuildingKind::PowerPlant => "power plant"@,
    }
}

/// The prefix a kind's parts carry in the declared world mapping.
pub open spec fn prefix_name(kind: BuildingKind) -> Seq<char> {
    match kind {
        BuildingKind::Home => "home"@,
        BuildingKind::Shop => "shop"@,
        BuildingKind::Factory => "factory"@,
        BuildingKind::PowerPlant => "power"@,
    }
}

impl BuildingKind {
    pub fn name(self) -> (r: &'static str)
        ensures
            r@ == kind_name(self),
    {
        match self {
            BuildingKind::Home => "home",
            BuildingKind::Shop => "shop",
            BuildingKind::Factory => "factory",
            BuildingKind::PowerPlant => "power plant",
        }
    }

    /// The prefix its parts carry in the declared world mapping (`home.walls`, …): the
    /// mapping's names are identifiers, so "power plant" is not a prefix and `power` is.
    pub fn part_prefix(self) -> (r: &'static str)
        ensures
            r@ == prefix_name(self),
    {
        match self {
            BuildingKind::Home => "home",
            BuildingKind::Shop => "shop",
            BuildingKind::Factory => "factory",
            BuildingKind::PowerPlant => "power",
        }
    }

    /// The zone a structure of this kind grows in.
    pub fn zone(self) -> (r: Zone)
        ensures
            r == match self {
                BuildingKind::Home => Zone::Residential,
                BuildingKind::Shop => Zone::Commercial,
                BuildingKind::Factory => Zone::Industrial,
                BuildingKind::PowerPlant => Zone::Unzoned,
            },
    {
        match self {
            BuildingKind::Home => Zone::Residential,
            BuildingKind::Shop => Zone::Commercial,
            BuildingKind::Factory => Zone::Industrial,
            BuildingKind::PowerPlant => Zone::Unzoned,
        }
    }

    /// What it costs to build, in credits.
    pub fn build_cost(self) -> (r: i64)
        ensures
            r == match self {
                BuildingKind::Home => 120i64,
                BuildingKind::Shop => 240,
                BuildingKind::Factory => 400,
                BuildingKind::PowerPlant => 1_800,
            },
    {
        match self {
            BuildingKind::Home => 120,
            BuildingKind::Shop => 240,
            BuildingKind::Factory => 400,
            BuildingKind::PowerPlant => 1_800,
        }
    }

    /// How many people one level of it holds.
    pub open spec fn spec_capacity(self) -> u32 {
        match self {
            BuildingKind::Home => 8u32,
            BuildingKind::Shop => 6,
            BuildingKind::Factory => 12,
            BuildingKind::PowerPlant => 0,
        }
    }

    /// How many people it holds, as homes or as jobs.
    pub fn capacity(self) -> (r: u32)
        ensures
            r == self.spec_capacity(),
            r == match self {
                BuildingKind::Home => 8u32,
                BuildingKind::Shop => 6,
                BuildingKind::Factory => 12,
                BuildingKind::PowerPlant => 0,
            },
    {
        match self {
            BuildingKind::Home => 8,
            BuildingKind::Shop => 6,
            BuildingKind::Factory => 12,
            BuildingKind::PowerPlant => 0,
        }
    }
}

/// One structure's material provenance: where its mass actually came from, a witness per
/// gram instead of an assertion.
#[derive(Clone, Debug, PartialEq, Eq)]
pub struct MaterialLineage {
    /// The tile the ground gave it up from.
    pub tile: u32,
    /// The substance as it came out of the ground.
    pub substance: String,
    /// How much of it, in grams, exactly.
    pub grams: i64,
}

/// Why a structure was retired.
#[derive(Clone, Copy, Debug, PartialEq, Eq, Structural)]
pub enum RetirementReason {
    /// Replaced by something newer.
    Superseded,
}

/// A structure standing in the city, or retired: a demolished structure stays on the
/// record, because what the city used to be is part of the city.
#[derive(Clone, Debug)]
pub struct Building {
    pub id: u32,
    pub kind: BuildingKind,
    pub tile: u32,
    pub level: u8,
    pub built_tick: u64,
    pub ready_tick: u64,
    pub retired: Option<RetirementReason>,
    pub retired_tick: Option<u64>,
    pub powered: bool,
    pub occupants: u32,
    /// The material this structure was built from. `None` means the save predates the
    /// claim, which every reader treats as a defect rather than as an unknown material.
    pub material_as_built: Option<MaterialClaim>,
    /// The tiles this structure's mass came out of. Empty is a placement that made no
    /// material claim.
    pub material_from: Vec<MaterialLineage>,
    /// Whether this structure is known to owe a repair, so a crossed floor files one
    /// ticket rather than one per tick.
    pub repair_filed: bool,
}

/// How many grams a run of lineage lines adds up to.
pub open spec fn lineage_sum(lines: Seq<MaterialLineage>) -> int
    decreases lines.len(),
{
    if lines.len() == 0 {
        0
    } else {
        lineage_sum(lines.drop_last()) + lines.last().grams
    }
}

/// Whether every running total of a lineage can be counted in grams.
pub open spec fn lineage_fits(lines: Seq<MaterialLineage>) -> bool {
    forall|k: int| 0 <= k <= lines.len() ==> #[trigger] fits_i64(lineage_sum(lines.take(k)))
}

/// The mass a structure of `kind` at `level` derives to, if its kind declares one.
pub open spec fn spec_building_mass(kind: BuildingKind, level: u8) -> Option<i64> {
    match spec_structure_base(kind_name(kind)) {
        Some(base) => Some((base * (if level == 0 {
            1
        } else {
            level as int
        })) as i64),
        None => None,
    }
}

/// The family a structure's material belongs to: its claim's, or else its kind's declared
/// body part's.
pub open spec fn spec_material_family(b: Building) -> Option<Seq<char>> {
    match b.material_as_built {
        Some(claim) => Some(claim.family@),
        None => match claimed_part(spec_parts_of(prefix_name(b.kind))) {
            Some(p) => Some(family_name(p.family)),
            None => None,
        },
    }
}

impl Building {
    /// This structure's mass, in grams, derived from what it is rather than stored.
    /// `None` is a kind with no declared mass, which is a defect rather than a zero.
    pub fn mass_g(&self) -> (r: Option<i64>)
        ensures
            r == spec_building_mass(self.kind, self.level),
    {
        structure_mass_g(self.kind.name(), self.level)
    }

    /// The mass this structure's recorded lineage accounts for, in grams. Zero means no
    /// material claim was made, not that it weighs nothing.
    pub fn lineage_g(&self) -> (r: i64)
        requires
            lineage_fits(self.material_from@),
        ensures
            r == lineage_sum(self.material_from@),
    {
        let lines = &self.material_from;
        let mut total: i64 = 0;
        let mut i: usize = 0;
        while i < lines.len()
            invariant
                i <= lines@.len(),
                lines@ == self.material_from@,
                lineage_fits(lines@),
                total == lineage_sum(lines@.take(i as int)),
            decreases lines@.len() - i,
        {
            proof {
                assert(lines@.take(i as int + 1).drop_last() =~= lines@.take(i as int));
                assert(fits_i64(lineage_sum(lines@.take(i as int + 1))));
            }
            total = total + lines[i].grams;
            i += 1;
        }
        proof {
            assert(lines@.take(lines@.len() as int) =~= lines@);
        }
        total
    }

    /// The account this structure's mass sits in: standing structures, or once retired
    /// its remains, because a demolition preserves the material as surely as the record.
    pub fn mass_account(&self, family: &str) -> (r: String)
        ensures
            r@ == if self.retired is None {
                "structure:"@ + family@
            } else {
                "ruin:"@ + family@
            },
    {
        match self.retired {
            None => structure_account(family),
            Some(_) => ruin_account(family),
        }
    }

    /// The appearance family this structure's material belongs to, read off its claim,
    /// falling back to the kind's declared body part. `None` only when neither knows.
    pub fn material_family(&self) -> (r: Option<&str>)
        ensures
            match r {
                Some(family) => spec_material_family(*self) == Some(family@),
                None => spec_material_family(*self) is None,
            },
    {
        match &self.material_as_built {
            Some(claim) => Some(claim.family.as_str()),
            None => match MaterialClaim::of_kind(self.kind) {
                Some(_) => {
                    let parts = parts_of(self.kind.part_prefix());
                    let mut i: usize = 0;
                    while i < parts.len()
                        invariant
                            i <= parts@.len(),
                            parts@ == spec_parts_of(prefix_name(self.kind)),
                            first_upto(parts@, is_body(), i as int) == -1,
                            self.material_as_built is None,
                        decreases parts@.len() - i,
                    {
                        if parts[i].level == Level::Body {
                            proof {
                                assert(is_body()(parts@[i as int]));
                                assert(first_upto(parts@, is_body(), i as int + 1) == i);
                                first_stays(parts@, is_body(), i as int + 1);
                                assert(first_of(parts@, is_body()) == i);
                                assert(claimed_part(parts@) == Some(parts@[i as int]));
                                assert(self.material_as_built is None);
                                assert(spec_material_family(*self) == Some(family_name(parts@[i as int].family)));
                            }
                            let family = parts[i].family.as_str();
                            assert(family@ == family_name(parts@[i as int].family));
                            return Some(family);
                        }
                        i += 1;
                    }
                    Some(parts[0].family.as_str())
                },
                None => None,
            },
        }
    }

    /// The claim a structure is drawn by: its own as-built claim, or else the one its
    /// kind's declared parts derive, so a drawn colour is always one the table names.
    /// `None` only when neither exists.
    pub fn drawn_claim(&self) -> (r: Option<MaterialClaim>)
        ensures
            match self.material_as_built {
                Some(c) => r matches Some(d) && d@ == c@,
                None => match derived_claim(self.kind) {
                    Some(v) => r matches Some(d) && d@ == v,
                    None => r is None,
                },
            },
    {
        match &self.material_as_built {
            Some(c) => Some(
                MaterialClaim {
                    part: c.part.clone(),
                    family: c.family.clone(),
                    anchor: c.anchor.clone(),
                    level: c.level.clone(),
                },
            ),
            None => MaterialClaim::of_kind(self.kind),
        }
    }

    /// Whether the structure is standing and finished by `tick`.
    pub fn is_ready(&self, tick: u64) -> (r: bool)
        ensures
            r == (self.retired is None && tick >= self.ready_tick),
    {
        self.retired.is_none() && tick >= self.ready_tick
    }

    /// How many people it holds: its kind's capacity, once more for every level above the
    /// first.
    pub fn capacity(&self) -> (r: u32)
        ensures
            r == self.kind.spec_capacity() * (if self.level == 0 {
                1
            } else {
                self.level as int
            }),
    {
        let base = self.kind.capacity();
        let extra: u32 = if self.level == 0 {
            0
        } else {
            (self.level - 1) as u32
        };
        proof {
            assert(base * extra <= 12 * 255) by (nonlinear_arith)
                requires
                    base <= 12,
                    extra <= 255,
            ;
            assert(base + base * extra == base * (if self.level == 0 {
                1
            } else {
                self.level as int
            })) by (nonlinear_arith)
                requires
                    extra == (if self.level == 0 {
                        0
                    } else {
                        self.level - 1
                    }),
            ;
        }
        base + base * extra
    }
}

/// A structure's claim, as text, where it has one.
pub open spec fn claim_text(claim: Option<MaterialClaim>) -> Option<ClaimView> {
    match claim {
        Some(c) => Some(c@),
        None => None,
    }
}

/// The claim a kind's own declared parts derive to.
pub open spec fn derived_claim(kind: BuildingKind) -> Option<ClaimView> {
    match claimed_part(spec_parts_of(prefix_name(kind))) {
        Some(p) => Some(claim_of_part(p)),
        None => None,
    }
}

/// How a claim reads on a ticket.
pub open spec fn claim_line(c: ClaimView) -> Seq<char> {
    c.family + "/"@ + c.anchor + "/"@ + c.level + " on "@ + c.part
}

/// What bringing the first `n` structures up to date derives: the id and the claim of each
/// that had none and whose kind declares one, in order.
pub open spec fn derivations(bs: Seq<Building>, n: int) -> Seq<(u32, Seq<char>)>
    decreases n,
{
    if n <= 0 {
        Seq::empty()
    } else {
        let rest = derivations(bs, n - 1);
        let b = bs[n - 1];
        if b.material_as_built is None {
            match derived_claim(b.kind) {
                Some(c) => rest.push((b.id, claim_line(c))),
                None => rest,
            }
        } else {
            rest
        }
    }
}

/// The ids of the first `n` structures that carry no claim, in order.
pub open spec fn unclaimed_ids(bs: Seq<Building>, n: int) -> Seq<u32>
    decreases n,
{
    if n <= 0 {
        Seq::empty()
    } else if bs[n - 1].material_as_built is None {
        unclaimed_ids(bs, n - 1).push(bs[n - 1].id)
    } else {
        unclaimed_ids(bs, n - 1)
    }
}

/// A migration's derivations as plain values.
pub open spec fn derived_view(derived: Seq<(u32, String)>) -> Seq<(u32, Seq<char>)> {
    derived.map_values(|d: (u32, String)| (d.0, d.1@))
}

/// Why a save from a newer build is refused.
pub open spec fn newer_save_text(version: u32) -> Seq<char> {
    "this save is format v"@ + decimal_nat(version as nat) + " and this build understands up to v"@
        + decimal_nat(FORMAT_VERSION as nat)
        + "; a newer save read by an older build is invented state"@
}

/// Why a current save with structures missing their claims is refused.
pub open spec fn unclaimed_text(ids: Seq<u32>) -> Seq<char> {
    "a v"@ + decimal_nat(FORMAT_VERSION as nat) + " save carries "@ + decimal_nat(ids.len())
        + " structure(s) with no as-built material ("@ + joined(
        ids.map_values(|id: u32| decimal_nat(id as nat)),
        ", "@,
    ) + "); that is a defect in the file, not a version to migrate"@
}

/// Bring a loaded save's structures up to [`FORMAT_VERSION`], or refuse.
///
/// A save from a **newer** build is refused, because reading it would be inventing state;
/// a **current** save with a structure missing its claim is refused as a defect in the
/// file. An older save gets every unclaimed structure the material its own kind declares,
/// and the derivation is **reported** rather than happening quietly: the report is
/// returned, and `None` means the save was already current.
pub fn migrate(format_version: u32, buildings: &mut Vec<Building>) -> (r: Result<Option<Migration>, String>)
    ensures
        format_version > FORMAT_VERSION ==> final(buildings)@ == old(buildings)@ && (r matches Err(e)
            && e@ == newer_save_text(format_version)),
        format_version == FORMAT_VERSION ==> final(buildings)@ == old(buildings)@ && if unclaimed_ids(
            old(buildings)@,
            old(buildings)@.len() as int,
        ).len() == 0 {
            r matches Ok(None)
        } else {
            r matches Err(e) && e@ == unclaimed_text(unclaimed_ids(old(buildings)@, old(buildings)@.len() as int))
        },
        format_version < FORMAT_VERSION ==> {
            &&& r matches Ok(Some(m)) && m.from == format_version && m.to == FORMAT_VERSION
                && derived_view(m.derived@) == derivations(old(buildings)@, old(buildings)@.len() as int)
            &&& final(buildings)@.len() == old(buildings)@.len()
            &&& forall|i: int|
                0 <= i < old(buildings)@.len() ==> {
                    &&& #[trigger] final(buildings)@[i] == (Building {
                        material_as_built: final(buildings)@[i].material_as_built,
                        ..old(buildings)@[i]
                    })
                    &&& claim_text(final(buildings)@[i].material_as_built) == if old(buildings)@[i].material_as_built is None {
                        derived_claim(old(buildings)@[i].kind)
                    } else {
                        claim_text(old(buildings)@[i].material_as_built)
                    }
                }
        },
{
    if format_version > FORMAT_VERSION {
        let text = glue(
            glue(
                glue(glue(String::from_str("this save is format v"), show_u32(format_version).as_str()), " and this build understands up to v"),
                show_u32(FORMAT_VERSION).as_str(),
            ),
            "; a newer save read by an older build is invented state",
        );
        proof {
            reveal_strlit("this save is format v");
            reveal_strlit(" and this build understands up to v");
            reveal_strlit("; a newer save read by an older build is invented state");
        }
        return Err(text);
    }
    if format_version == FORMAT_VERSION {
        let mut missing: Vec<String> = Vec::new();
        let ghost ids: Seq<u32> = Seq::empty();
        let mut i: usize = 0;
        while i < buildings.len()
            invariant
                i <= buildings@.len(),
                ids == unclaimed_ids(buildings@, i as int),
                views(missing@) == ids.map_values(|id: u32| decimal_nat(id as nat)),
            decreases buildings@.len() - i,
        {
            if buildings[i].material_as_built.is_none() {
                let ghost before = missing@;
                missing.push(show_u32(buildings[i].id));
                proof {
                    ids = ids.push(buildings@[i as int].id);
                    assert(views(missing@) =~= views(before).push(decimal_nat(buildings@[i as int].id as nat)));
                    assert(ids.map_values(|id: u32| decimal_nat(id as nat)) =~= unclaimed_ids(buildings@, i as int).map_values(
                        |id: u32| decimal_nat(id as nat),
                    ).push(decimal_nat(buildings@[i as int].id as nat)));
                }
            }
            i += 1;
        }
        if missing.len() == 0 {
            return Ok(None);
        }
        let mut text = glue(String::from_str("a v"), show_u32(FORMAT_VERSION).as_str());
        text = glue(text, " save carries ");
        text = glue(text, show_usize(missing.len()).as_str());
        text = glue(text, " structure(s) with no as-built material (");
        text = glue(text, join(&missing, ", ").as_str());
        text = glue(text, "); that is a defect in the file, not a version to migrate");
        proof {
            reveal_strlit("a v");
            reveal_strlit(" save carries ");
            reveal_strlit(" structure(s) with no as-built material (");
            reveal_strlit(", ");
            reveal_strlit("); that is a defect in the file, not a version to migrate");
            assert(views(missing@).len() == ids.len());
            assert(text@ =~= unclaimed_text(ids));
        }
        return Err(text);
    }
    let mut derived: Vec<(u32, String)> = Vec::new();
    let mut i: usize = 0;
    while i < buildings.len()
        invariant
            i <= buildings@.len(),
            buildings@.len() == old(buildings)@.len(),
            derived_view(derived@) == derivations(old(buildings)@, i as int),
            forall|j: int|
                0 <= j < old(buildings)@.len() ==> {
                    &&& #[trigger] buildings@[j] == (Building {
                        material_as_built: buildings@[j].material_as_built,
                        ..old(buildings)@[j]
                    })
                    &&& claim_text(buildings@[j].material_as_built) == if j < i && old(buildings)@[j].material_as_built is None {
                        derived_claim(old(buildings)@[j].kind)
                    } else {
                        claim_text(old(buildings)@[j].material_as_built)
                    }
                },
        decreases buildings@.len() - i,
    {
        if buildings[i].material_as_built.is_none() {
            let claim = MaterialClaim::of_kind(buildings[i].kind);
            let ghost before = derived@;
            match &claim {
                Some(c) => {
                    derived.push((buildings[i].id, c.describe()));
                    proof {
                        assert(derived_view(derived@) =~= derived_view(before).push((buildings@[i as int].id, claim_line(c@))));
                    }
                },
                None => {},
            }
            buildings[i].material_as_built = claim;
        }
        i += 1;
    }
    Ok(Some(Migration { from: format_version, to: FORMAT_VERSION, derived }))
}

/// **A migrated save is current.** Once an older save's structures are brought up to date,
/// none is left without a claim where its kind declares one, so the save reads as current
/// and is not migrated again.
pub proof fn law_a_migrated_save_is_current(before: Seq<Building>, after: Seq<Building>)
    requires
        after.len() == before.len(),
        forall|i: int|
            0 <= i < before.len() ==> #[trigger] claim_text(after[i].material_as_built) == if before[i].material_as_built is None {
                derived_claim(before[i].kind)
            } else {
                claim_text(before[i].material_as_built)
            },
        forall|i: int| 0 <= i < before.len() ==> #[trigger] derived_claim(before[i].kind) is Some,
    ensures
        unclaimed_ids(after, after.len() as int).len() == 0,
{
    assert forall|i: int| 0 <= i < after.len() implies #[trigger] after[i].material_as_built is Some by {
        assert(claim_text(after[i].material_as_built) == if before[i].material_as_built is None {
            derived_claim(before[i].kind)
        } else {
            claim_text(before[i].material_as_built)
        });
        assert(derived_claim(before[i].kind) is Some);
    }
    lemma_none_unclaimed(after, after.len() as int);
}

/// Where every structure carries a claim, none is unclaimed.
proof fn lemma_none_unclaimed(bs: Seq<Building>, n: int)
    requires
        0 <= n <= bs.len(),
        forall|i: int| 0 <= i < bs.len() ==> #[trigger] bs[i].material_as_built is Some,
    ensures
        unclaimed_ids(bs, n).len() == 0,
    decreases n,
{
    if n > 0 {
        lemma_none_unclaimed(bs, n - 1);
    }
}

/// How much is missing when `wanted` was asked for and `found` was there: never negative.
pub open spec fn shortfall(wanted: int, found: int) -> int {
    if wanted - found > 0 {
        wanted - found
    } else {
        0
    }
}

/// A refusal to build, because the world could not supply the mass: what it wanted, what
/// it found, and of what.
#[derive(Clone, Debug, PartialEq, Eq)]
pub struct MaterialShortfall {
    pub site: u32,
    pub family: String,
    pub wanted_g: i64,
    pub found_g: i64,
}

/// Where the city is short of material, aggregated by district and family.
#[derive(Clone, Debug, PartialEq, Eq)]
pub struct Starved {
    pub district: u32,
    pub family: String,
    /// Total wanted across every refusal folded into this reading, in grams.
    pub wanted_g: i64,
    /// Total the world could supply, in grams.
    pub found_g: i64,
    /// How many refusals this reading stands for.
    pub count: u32,
}

/// Whether a reading is the one for `district` and `family`.
pub open spec fn reading_for(district: u32, family: Seq<char>) -> spec_fn(Starved) -> bool {
    |s: Starved| s.district == district && s.family@ == family
}

/// The readings once one more refusal in `district` is noted: folded into the reading
/// for the same district and family, or a new reading of its own.
pub open spec fn noted(readings: Seq<Starved>, district: u32, refusal: MaterialShortfall) -> Seq<Starved> {
    let k = first_of(readings, reading_for(district, refusal.family@));
    if k >= 0 {
        let r = readings[k];
        readings.update(
            k,
            Starved {
                count: (r.count + 1) as u32,
                wanted_g: (r.wanted_g + refusal.wanted_g) as i64,
                found_g: (r.found_g + refusal.found_g) as i64,
                ..r
            },
        )
    } else {
        readings.push(
            Starved {
                district,
                family: refusal.family,
                wanted_g: refusal.wanted_g,
                found_g: refusal.found_g,
                count: 1,
            },
        )
    }
}

/// Whether no two readings are for the same district and family.
pub open spec fn one_reading_each(readings: Seq<Starved>) -> bool {
    forall|i: int, j: int|
        0 <= i < j < readings.len() ==> !(#[trigger] readings[i].district == #[trigger] readings[j].district
            && readings[i].family@ == readings[j].family@)
}

/// Whether folding a refusal in `district` into its reading can be counted.
pub open spec fn noting_fits(readings: Seq<Starved>, district: u32, refusal: MaterialShortfall) -> bool {
    let k = first_of(readings, reading_for(district, refusal.family@));
    k >= 0 ==> {
        &&& readings[k].count + 1 <= u32::MAX
        &&& fits_i64(readings[k].wanted_g + refusal.wanted_g)
        &&& fits_i64(readings[k].found_g + refusal.found_g)
    }
}

/// Note a refusal in `district`, folding it into an existing reading for the same district
/// and family: a shortage read four hundred times in one district is **one** reading with
/// a count, so the readings are bounded by districts × families rather than by time.
pub fn record_starved(starved: &mut Vec<Starved>, district: u32, shortfall: &MaterialShortfall)
    requires
        noting_fits(old(starved)@, district, *shortfall),
    ensures
        final(starved)@ == noted(old(starved)@, district, *shortfall),
{
    let ghost want = reading_for(district, shortfall.family@);
    let mut i: usize = 0;
    while i < starved.len()
        invariant
            starved@ == old(starved)@,
            noting_fits(old(starved)@, district, *shortfall),
            want == reading_for(district, shortfall.family@),
            i <= starved@.len(),
            first_upto(starved@, want, i as int) == -1,
        decreases starved@.len() - i,
    {
        if starved[i].district == district && same(starved[i].family.as_str(), shortfall.family.as_str()) {
            proof {
                assert(want(starved@[i as int]));
                assert(first_upto(starved@, want, i as int + 1) == i);
                first_stays(starved@, want, i as int + 1);
            }
            let count = starved[i].count + 1;
            let wanted = starved[i].wanted_g + shortfall.wanted_g;
            let found = starved[i].found_g + shortfall.found_g;
            starved[i].count = count;
            starved[i].wanted_g = wanted;
            starved[i].found_g = found;
            return;
        }
        proof {
            assert(!want(starved@[i as int]));
        }
        i += 1;
    }
    starved.push(
        Starved {
            district,
            family: shortfall.family.clone(),
            wanted_g: shortfall.wanted_g,
            found_g: shortfall.found_g,
            count: 1,
        },
    );
}

/// **One reading per district and family.** Noting a refusal never makes two readings for
/// the same district and family, so the record of shortages does not grow with time.
pub proof fn law_one_reading_each(readings: Seq<Starved>, district: u32, refusal: MaterialShortfall)
    requires
        one_reading_each(readings),
    ensures
        one_reading_each(noted(readings, district, refusal)),
{
    let want = reading_for(district, refusal.family@);
    let k = first_of(readings, want);
    let after = noted(readings, district, refusal);
    lemma_first_upto(readings, want, readings.len() as int);
    if k < 0 {
        assert forall|i: int, j: int| 0 <= i < j < after.len() implies !(#[trigger] after[i].district
            == #[trigger] after[j].district && after[i].family@ == after[j].family@) by {
            if j == readings.len() {
                assert(!want(readings[i]));
            }
        }
    } else {
        assert forall|i: int, j: int| 0 <= i < j < after.len() implies !(#[trigger] after[i].district
            == #[trigger] after[j].district && after[i].family@ == after[j].family@) by {
            assert(readings[i].district == after[i].district && readings[i].family@ == after[i].family@);
            assert(readings[j].district == after[j].district && readings[j].family@ == after[j].family@);
        }
    }
}

/// The case key a reading files under.
pub open spec fn case_key_text(district: u32, family: Seq<char>) -> Seq<char> {
    "materials:"@ + decimal_nat(district as nat) + ":"@ + family
}

/// What a person reads of a shortage.
pub open spec fn objective_text(s: Starved) -> Seq<char> {
    decimal_nat(s.count as nat) + " build site(s) in district "@ + decimal_nat(s.district as nat)
        + " want "@ + decimal(s.wanted_g as int) + " g of "@ + s.family@ + " and the world holds "@
        + decimal(s.found_g as int) + " g: "@ + decimal(shortfall(s.wanted_g as int, s.found_g as int))
        + " g short"@
}

/// What a person reads of a refusal.
pub open spec fn shortfall_text(s: MaterialShortfall) -> Seq<char> {
    "a structure at tile "@ + decimal_nat(s.site as nat) + " needs "@ + decimal(s.wanted_g as int)
        + " g of "@ + s.family@ + " and the world holds "@ + decimal(s.found_g as int)
        + " g within reach: "@ + decimal(shortfall(s.wanted_g as int, s.found_g as int))
        + " g short"@
}

/// The shortfall between two amounts, in grams.
fn missing_between(wanted: i64, found: i64) -> (r: i64)
    requires
        fits_i64(wanted - found),
    ensures
        r == shortfall(wanted as int, found as int),
{
    let gap = wanted - found;
    if gap > 0 {
        gap
    } else {
        0
    }
}

impl Starved {
    /// The shortfall this reading stands for, in grams.
    pub fn missing_g(&self) -> (r: i64)
        requires
            fits_i64(self.wanted_g - self.found_g),
        ensures
            r == shortfall(self.wanted_g as int, self.found_g as int),
    {
        missing_between(self.wanted_g, self.found_g)
    }

    /// The case key, so repeated refusals update one reading instead of filing a thousand.
    pub fn case_key(&self) -> (r: String)
        ensures
            r@ == case_key_text(self.district, self.family@),
    {
        glue(glue(glue(String::from_str("materials:"), show_u32(self.district).as_str()), ":"), self.family.as_str())
    }

    /// What a person reads: the shortage named as work rather than as a complaint.
    pub fn objective(&self) -> (r: String)
        requires
            fits_i64(self.wanted_g - self.found_g),
        ensures
            r@ == objective_text(*self),
    {
        let line = glue(glue(show_u32(self.count), " build site(s) in district "), show_u32(self.district).as_str());
        let line = glue(glue(glue(line, " want "), show_i64(self.wanted_g).as_str()), " g of ");
        let line = glue(glue(glue(line, self.family.as_str()), " and the world holds "), show_i64(self.found_g).as_str());
        let line = glue(glue(line, " g: "), show_i64(self.missing_g()).as_str());
        glue(line, " g short")
    }
}

impl MaterialShortfall {
    /// The shortfall in grams: the number a case has to carry.
    pub fn missing_g(&self) -> (r: i64)
        requires
            fits_i64(self.wanted_g - self.found_g),
        ensures
            r == shortfall(self.wanted_g as int, self.found_g as int),
    {
        missing_between(self.wanted_g, self.found_g)
    }

    /// What a person reads, in the shape the report uses for a claim the world does not
    /// support.
    pub fn describe(&self) -> (r: String)
        requires
            fits_i64(self.wanted_g - self.found_g),
        ensures
            r@ == shortfall_text(*self),
    {
        let line = glue(glue(glue(String::from_str("a structure at tile "), show_u32(self.site).as_str()), " needs "), show_i64(self.wanted_g).as_str());
        let line = glue(glue(glue(line, " g of "), self.family.as_str()), " and the world holds ");
        let line = glue(glue(glue(line, show_i64(self.found_g).as_str()), " g within reach: "), show_i64(self.missing_g()).as_str());
        glue(line, " g short")
    }
}

/// The sim's clock, in ticks.
#[derive(Clone, Copy, Debug)]
pub struct Clock {
    pub tick: u64,
}

/// The day a tick falls on, counted from zero.
pub open spec fn day_of(tick: u64) -> nat {
    (tick / TICKS_PER_DAY) as nat
}

/// The month a tick falls in, counted from one.
pub open spec fn month_of(tick: u64) -> nat {
    ((day_of(tick) / (DAYS_PER_MONTH as nat)) % (MONTHS_PER_YEAR as nat) + 1) as nat
}

/// The year a tick falls in, counted from one.
pub open spec fn year_of(tick: u64) -> nat {
    (day_of(tick) / ((DAYS_PER_MONTH * MONTHS_PER_YEAR) as nat) + 1) as nat
}

/// Which of the simulation's passes run on a tick, besides movement, which runs on every
/// one.
#[derive(Clone, Copy, Debug, PartialEq, Eq, Structural)]
pub struct Passes {
    /// Power is recomputed every fourth tick.
    pub power: bool,
    /// Demand, growth, claiming and work run every eighth.
    pub growth: bool,
    /// Jobs and the recount run every sixteenth.
    pub jobs: bool,
    /// The month's books close on the tick that closes a month.
    pub month: bool,
    /// A day's wear comes on the tick that closes a day.
    pub day: bool,
}

impl Default for Clock {
    fn default() -> (r: Self)
        ensures
            r.tick == 0,
    {
        Clock { tick: 0 }
    }
}

impl Clock {
    pub fn day(&self) -> (r: u64)
        ensures
            r == day_of(self.tick),
    {
        self.tick / TICKS_PER_DAY
    }

    /// One-based, because "month 0" is not a month.
    pub fn month(&self) -> (r: u64)
        ensures
            r == month_of(self.tick),
            1 <= r <= MONTHS_PER_YEAR,
    {
        (self.day() / DAYS_PER_MONTH) % MONTHS_PER_YEAR + 1
    }

    pub fn year(&self) -> (r: u64)
        ensures
            r == year_of(self.tick),
            r >= 1,
    {
        self.day() / (DAYS_PER_MONTH * MONTHS_PER_YEAR) + 1
    }

    /// True on the single tick that closes a month, so income posts once.
    pub fn closes_month(&self) -> (r: bool)
        ensures
            r == (self.tick > 0 && (self.tick as int) % ((TICKS_PER_DAY * DAYS_PER_MONTH) as int) == 0),
    {
        self.tick > 0 && self.tick % (TICKS_PER_DAY * DAYS_PER_MONTH) == 0
    }

    /// The passes that run on this tick.
    pub fn passes(&self) -> (r: Passes)
        ensures
            r == (Passes {
                power: self.tick % 4 == 0,
                growth: self.tick % 8 == 0,
                jobs: self.tick % 16 == 0,
                month: self.tick > 0 && (self.tick as int) % ((TICKS_PER_DAY * DAYS_PER_MONTH) as int) == 0,
                day: self.tick % TICKS_PER_DAY == 0,
            }),
    {
        Passes {
            power: self.tick % 4 == 0,
            growth: self.tick % 8 == 0,
            jobs: self.tick % 16 == 0,
            month: self.closes_month(),
            day: self.tick % TICKS_PER_DAY == 0,
        }
    }

    /// The date as the frame shows it.
    pub fn label(&self) -> (r: String)
        ensures
            r@ == "Y"@ + decimal_nat(year_of(self.tick)) + " M"@ + two_digits(month_of(self.tick))
                + " D"@ + two_digits(day_of(self.tick)),
    {
        let line = glue(glue(String::from_str("Y"), show_u64(self.year()).as_str()), " M");
        let line = glue(glue(line, show_two_digits(self.month()).as_str()), " D");
        glue(line, show_two_digits(self.day()).as_str())
    }
}

/// What the city holds, counted.
#[derive(Clone, Copy, Debug)]
pub struct Stats {
    pub population: u32,
    pub homes: u32,
    pub shops: u32,
    pub factories: u32,
    pub power_plants: u32,
    pub retired_buildings: u32,
    pub jobs: u32,
    pub employed: u32,
    pub unemployed: u32,
    pub road_tiles: u32,
    pub powered_tiles: u32,
    pub unpowered_zoned: u32,
    pub commute_failures: u32,
    pub full_agents: u32,
    pub brownout: bool,
}

impl Default for Stats {
    fn default() -> (r: Self)
        ensures
            r.population == 0 && r.homes == 0 && r.shops == 0 && r.factories == 0
                && r.power_plants == 0 && r.retired_buildings == 0 && r.jobs == 0 && r.employed == 0
                && r.unemployed == 0 && r.road_tiles == 0 && r.powered_tiles == 0
                && r.unpowered_zoned == 0 && r.commute_failures == 0 && r.full_agents == 0
                && !r.brownout,
    {
        Stats {
            population: 0,
            homes: 0,
            shops: 0,
            factories: 0,
            power_plants: 0,
            retired_buildings: 0,
            jobs: 0,
            employed: 0,
            unemployed: 0,
            road_tiles: 0,
            powered_tiles: 0,
            unpowered_zoned: 0,
            commute_failures: 0,
            full_agents: 0,
            brownout: false,
        }
    }
}

/// Ground tiles, no water, no roads: a clean grid of `width × height`.
pub fn blank_tiles(width: u32, height: u32) -> (r: Vec<Tile>)
    requires
        width * height <= u32::MAX,
    ensures
        r@.len() == width * height,
        forall|i: int| 0 <= i < r@.len() ==> #[trigger] r@[i] == bare_tile(),
{
    let n: u32 = width * height;
    let mut tiles: Vec<Tile> = Vec::new();
    let mut i: u32 = 0;
    while i < n
        invariant
            i <= n,
            tiles@.len() == i,
            forall|k: int| 0 <= k < tiles@.len() ==> #[trigger] tiles@[k] == bare_tile(),
        decreases n - i,
    {
        tiles.push(Tile::default());
        i += 1;
    }
    tiles
}

} // verus!

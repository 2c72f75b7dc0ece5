//! The world's surfaces, declared typed and checked against the emitted copy.
//!
//! The mapping is declared here so the sim can match on a family rather than compare
//! strings, and the generated tables carry the same rows as text; the audit compares the
//! two. The two special forms are rules rather than materials, and are named as such:
//! zone paint takes the anchor of the zone that painted it, and a ruin is the retired
//! structure's own parts read at `deep`.
use vstd::prelude::*;

use crate::lookup::{first_of, first_upto};
use crate::materials::schema::first_stays;
use crate::strings::{begins_with, same};
use vstd::string::StrSliceExecFns;

verus! {

/// A material family the world may use. The icon set's seven, plus the world's own.
#[derive(Clone, Copy, Debug, PartialEq, Eq, Structural)]
pub enum Family {
    Metal,
    Paper,
    Ceramic,
    Glass,
    Polymer,
    Road,
    Enamel,
    Water,
    Organic,
    Soil,
}

/// The name a family is declared under.
pub open spec fn family_name(family: Family) -> Seq<char> {
    match family {
        Family::Metal => "metal"@,
        Family::Paper => "paper"@,
        Family::Ceramic => "ceramic"@,
        Family::Glass => "glass"@,
        Family::Polymer => "polymer"@,
        Family::Road => "road"@,
        Family::Enamel => "enamel"@,
        Family::Water => "water"@,
        Family::Organic => "organic"@,
        Family::Soil => "soil"@,
    }
}

impl Family {
    pub fn as_str(self) -> (r: &'static str)
        ensures
            r@ == family_name(self),
    {
        match self {
            Family::Metal => "metal",
            Family::Paper => "paper",
            Family::Ceramic => "ceramic",
            Family::Glass => "glass",
            Family::Polymer => "polymer",
            Family::Road => "road",
            Family::Enamel => "enamel",
            Family::Water => "water",
            Family::Organic => "organic",
            Family::Soil => "soil",
        }
    }

    /// Whether an icon may be made of this family. Exactly the seven.
    pub fn is_icon(self) -> (r: bool)
        ensures
            r == !(self is Water || self is Organic || self is Soil),
    {
        !matches!(self, Family::Water | Family::Organic | Family::Soil)
    }
}

/// Every family, in declaration order.
pub open spec fn spec_all_families() -> Seq<Family> {
    seq![
        Family::Metal,
        Family::Paper,
        Family::Ceramic,
        Family::Glass,
        Family::Polymer,
        Family::Road,
        Family::Enamel,
        Family::Water,
        Family::Organic,
        Family::Soil,
    ]
}

/// Every family, in declaration order: read from here rather than typed out at a call
/// site, so a family added to the vocabulary is checked by every audit that walks it.
pub fn all_families() -> (r: Vec<Family>)
    ensures
        r@ == spec_all_families(),
{
    let r = vec![
        Family::Metal,
        Family::Paper,
        Family::Ceramic,
        Family::Glass,
        Family::Polymer,
        Family::Road,
        Family::Enamel,
        Family::Water,
        Family::Organic,
        Family::Soil,
    ];
    proof {
        assert(r@ =~= spec_all_families());
    }
    r
}

/// A declared hue anchor, or the family's own untinted hue.
#[derive(Clone, Copy, Debug, PartialEq, Eq, Structural)]
pub enum Hue {
    Natural,
    Red,
    Amber,
    Yellow,
    Green,
    Cyan,
    Blue,
    Violet,
}

/// The name a hue is declared under.
pub open spec fn hue_name(hue: Hue) -> Seq<char> {
    match hue {
        Hue::Natural => "natural"@,
        Hue::Red => "red"@,
        Hue::Amber => "amber"@,
        Hue::Yellow => "yellow"@,
        Hue::Green => "green"@,
        Hue::Cyan => "cyan"@,
        Hue::Blue => "blue"@,
        Hue::Violet => "violet"@,
    }
}

impl Hue {
    pub fn as_str(self) -> (r: &'static str)
        ensures
            r@ == hue_name(self),
    {
        match self {
            Hue::Natural => "natural",
            Hue::Red => "red",
            Hue::Amber => "amber",
            Hue::Yellow => "yellow",
            Hue::Green => "green",
            Hue::Cyan => "cyan",
            Hue::Blue => "blue",
            Hue::Violet => "violet",
        }
    }
}

/// A declared lightness offset on the family's own lightness.
#[derive(Clone, Copy, Debug, PartialEq, Eq, Structural)]
pub enum Level {
    Body,
    Edge,
    Deep,
}

/// The name a level is declared under.
pub open spec fn level_name(level: Level) -> Seq<char> {
    match level {
        Level::Body => "body"@,
        Level::Edge => "edge"@,
        Level::Deep => "deep"@,
    }
}

impl Level {
    pub fn as_str(self) -> (r: &'static str)
        ensures
            r@ == level_name(self),
    {
        match self {
            Level::Body => "body",
            Level::Edge => "edge",
            Level::Deep => "deep",
        }
    }
}

/// One part of one world surface, as a claim: this part is this material.
#[derive(Clone, Copy, Debug)]
pub struct Part {
    /// The part's name, which is also the row the generated copy carries.
    pub part: &'static str,
    pub family: Family,
    pub hue: Hue,
    pub level: Level,
    /// Why this part is this material, so the claim can be argued with.
    pub note: &'static str,
}

/// How many parts `parts()` holds.
pub const PARTS_LEN: usize = 21;

/// Row `i` of the part table.
pub open spec fn spec_parts_row(i: int) -> Part {
    if i == 0 {
        Part { part: "home.walls", family: Family::Ceramic, hue: Hue::Natural, level: Level::Body, note: "the home's body" }
    } else if i == 1 {
        Part { part: "home.roof", family: Family::Polymer, hue: Hue::Amber, level: Level::Edge, note: "a different material from the walls, read once" }
    } else if i == 2 {
        Part { part: "home.window", family: Family::Glass, hue: Hue::Cyan, level: Level::Body, note: "the one transparent part" }
    } else if i == 3 {
        Part { part: "shop.walls", family: Family::Ceramic, hue: Hue::Natural, level: Level::Body, note: "shares the residential body" }
    } else if i == 4 {
        Part { part: "shop.frontage", family: Family::Enamel, hue: Hue::Blue, level: Level::Body, note: "the commercial face paint belongs to" }
    } else if i == 5 {
        Part { part: "shop.window", family: Family::Glass, hue: Hue::Cyan, level: Level::Body, note: "" }
    } else if i == 6 {
        Part { part: "factory.frame", family: Family::Metal, hue: Hue::Natural, level: Level::Body, note: "structural metal" }
    } else if i == 7 {
        Part { part: "factory.cladding", family: Family::Enamel, hue: Hue::Amber, level: Level::Body, note: "coated industrial panel" }
    } else if i == 8 {
        Part { part: "factory.vent", family: Family::Polymer, hue: Hue::Natural, level: Level::Deep, note: "the dark recessed part" }
    } else if i == 9 {
        Part { part: "power.frame", family: Family::Metal, hue: Hue::Natural, level: Level::Body, note: "" }
    } else if i == 10 {
        Part { part: "power.stack", family: Family::Ceramic, hue: Hue::Natural, level: Level::Edge, note: "a fired stack, not a painted one" }
    } else if i == 11 {
        Part { part: "power.insulator", family: Family::Ceramic, hue: Hue::Amber, level: Level::Body, note: "the insulator is the part that must not conduct" }
    } else if i == 12 {
        Part { part: "power.core", family: Family::Enamel, hue: Hue::Amber, level: Level::Body, note: "painted caution face" }
    } else if i == 13 {
        Part { part: "road.surface", family: Family::Road, hue: Hue::Natural, level: Level::Body, note: "aggregate" }
    } else if i == 14 {
        Part { part: "road.edge", family: Family::Soil, hue: Hue::Natural, level: Level::Body, note: "the shoulder: mineral, not asphalt" }
    } else if i == 15 {
        Part { part: "terrain.ground", family: Family::Organic, hue: Hue::Natural, level: Level::Body, note: "the grass is a living surface, not a mineral one" }
    } else if i == 16 {
        Part { part: "terrain.water", family: Family::Water, hue: Hue::Natural, level: Level::Body, note: "a body of water is a volume, not a pane" }
    } else if i == 17 {
        Part { part: "powerline.conductor", family: Family::Metal, hue: Hue::Natural, level: Level::Body, note: "what a conductor must be made of" }
    } else if i == 18 {
        Part { part: "powerline.pylon", family: Family::Metal, hue: Hue::Natural, level: Level::Deep, note: "the same metal read darker" }
    } else if i == 19 {
        Part { part: "scaffold.frame", family: Family::Metal, hue: Hue::Amber, level: Level::Edge, note: "under construction, and painted to say so" }
    } else {
        Part { part: "scaffold.deck", family: Family::Paper, hue: Hue::Natural, level: Level::Body, note: "a board, not a beam" }
    }
}

/// Every part of the world, in declaration order.
pub open spec fn spec_parts() -> Seq<Part> {
    Seq::new(PARTS_LEN as nat, |i: int| spec_parts_row(i))
}

/// Row `i` of the part table.
pub fn parts_row(i: usize) -> (row: Part)
    requires
        i < PARTS_LEN,
    ensures
        row == spec_parts_row(i as int),
{
    match i {
        0 => Part { part: "home.walls", family: Family::Ceramic, hue: Hue::Natural, level: Level::Body, note: "the home's body" },
        1 => Part { part: "home.roof", family: Family::Polymer, hue: Hue::Amber, level: Level::Edge, note: "a different material from the walls, read once" },
        2 => Part { part: "home.window", family: Family::Glass, hue: Hue::Cyan, level: Level::Body, note: "the one transparent part" },
        3 => Part { part: "shop.walls", family: Family::Ceramic, hue: Hue::Natural, level: Level::Body, note: "shares the residential body" },
        4 => Part { part: "shop.frontage", family: Family::Enamel, hue: Hue::Blue, level: Level::Body, note: "the commercial face paint belongs to" },
        5 => Part { part: "shop.window", family: Family::Glass, hue: Hue::Cyan, level: Level::Body, note: "" },
        6 => Part { part: "factory.frame", family: Family::Metal, hue: Hue::Natural, level: Level::Body, note: "structural metal" },
        7 => Part { part: "factory.cladding", family: Family::Enamel, hue: Hue::Amber, level: Level::Body, note: "coated industrial panel" },
        8 => Part { part: "factory.vent", family: Family::Polymer, hue: Hue::Natural, level: Level::Deep, note: "the dark recessed part" },
        9 => Part { part: "power.frame", family: Family::Metal, hue: Hue::Natural, level: Level::Body, note: "" },
        10 => Part { part: "power.stack", family: Family::Ceramic, hue: Hue::Natural, level: Level::Edge, note: "a fired stack, not a painted one" },
        11 => Part { part: "power.insulator", family: Family::Ceramic, hue: Hue::Amber, level: Level::Body, note: "the insulator is the part that must not conduct" },
        12 => Part { part: "power.core", family: Family::Enamel, hue: Hue::Amber, level: Level::Body, note: "painted caution face" },
        13 => Part { part: "road.surface", family: Family::Road, hue: Hue::Natural, level: Level::Body, note: "aggregate" },
        14 => Part { part: "road.edge", family: Family::Soil, hue: Hue::Natural, level: Level::Body, note: "the shoulder: mineral, not asphalt" },
        15 => Part { part: "terrain.ground", family: Family::Organic, hue: Hue::Natural, level: Level::Body, note: "the grass is a living surface, not a mineral one" },
        16 => Part { part: "terrain.water", family: Family::Water, hue: Hue::Natural, level: Level::Body, note: "a body of water is a volume, not a pane" },
        17 => Part { part: "powerline.conductor", family: Family::Metal, hue: Hue::Natural, level: Level::Body, note: "what a conductor must be made of" },
        18 => Part { part: "powerline.pylon", family: Family::Metal, hue: Hue::Natural, level: Level::Deep, note: "the same metal read darker" },
        19 => Part { part: "scaffold.frame", family: Family::Metal, hue: Hue::Amber, level: Level::Edge, note: "under construction, and painted to say so" },
        _ => Part { part: "scaffold.deck", family: Family::Paper, hue: Hue::Natural, level: Level::Body, note: "a board, not a beam" },
    }
}

/// Every part of the world. Grass and water included: they are materials too, and
/// saying so is what stops "the ground" being an unexamined colour.
pub fn parts() -> (rows: Vec<Part>)
    ensures
        rows@ == spec_parts(),
{
    let mut rows: Vec<Part> = Vec::new();
    let mut i: usize = 0;
    while i < PARTS_LEN
        invariant
            i <= PARTS_LEN,
            rows@ == spec_parts().take(i as int),
        decreases PARTS_LEN - i,
    {
        rows.push(parts_row(i));
        i += 1;
        proof { assert(rows@ =~= spec_parts().take(i as int)); }
    }
    proof { assert(rows@ =~= spec_parts()); }
    rows
}

/// How many rules `rules()` holds.
pub const RULES_LEN: usize = 2;

/// Row `i` of the rule table: a surface name and why it is a rule.
pub open spec fn spec_rules_row(i: int) -> (&'static str, &'static str) {
    if i == 0 {
        ("zone.paint", "a tint over whatever it paints on; the anchor is the zone's own")
    } else {
        ("ruin.parts", "the retired structure's own parts, read at `deep`")
    }
}

/// Every rule, in declaration order.
pub open spec fn spec_rules() -> Seq<(&'static str, &'static str)> {
    Seq::new(RULES_LEN as nat, |i: int| spec_rules_row(i))
}

/// Surfaces whose material is a **rule**, not a row: named so the absence of a row
/// is a declaration rather than an oversight.
pub fn rules() -> (rows: Vec<(&'static str, &'static str)>)
    ensures
        rows@ == spec_rules(),
{
    let rows = vec![("zone.paint", "a tint over whatever it paints on; the anchor is the zone's own"), ("ruin.parts", "the retired structure's own parts, read at `deep`")];
    proof { assert(rows@ =~= spec_rules()); }
    rows
}

/// Whether a part row answers to a name.
pub open spec fn part_named(name: Seq<char>) -> spec_fn(Part) -> bool {
    |entry: Part| entry.part@ == name
}

/// The first declared part with this name.
pub open spec fn spec_part(name: Seq<char>) -> Option<Part> {
    let k = first_of(spec_parts(), part_named(name));
    if k < 0 {
        None
    } else {
        Some(spec_parts()[k])
    }
}

/// The row for a part, if it has one.
pub fn part(name: &str) -> (r: Option<Part>)
    ensures
        r == spec_part(name@),
{
    let mut i: usize = 0;
    while i < PARTS_LEN
        invariant
            i <= PARTS_LEN,
            first_upto(spec_parts(), part_named(name@), i as int) == -1,
        decreases PARTS_LEN - i,
    {
        let row = parts_row(i);
        if same(row.part, name) {
            proof {
                first_stays(spec_parts(), part_named(name@), i as int + 1);
            }
            return Some(row);
        }
        i += 1;
    }
    None
}

/// Whether a part belongs to a structure of the given kind: its name starts with the
/// kind and a dot.
pub open spec fn part_of_kind(kind: Seq<char>) -> spec_fn(Part) -> bool {
    |entry: Part| begins_with(entry.part@, kind + "."@)
}

/// The parts of a structure of the given kind, in declaration order.
pub open spec fn spec_parts_of(kind: Seq<char>) -> Seq<Part> {
    spec_parts().filter(part_of_kind(kind))
}

/// Whether `s` starts with `kind` and then a dot.
fn starts_with_kind(s: &str, kind: &str) -> (r: bool)
    ensures
        r == begins_with(s@, kind@ + "."@),
{
    proof {
        reveal_strlit(".");
    }
    let n = kind.unicode_len();
    let m = s.unicode_len();
    if m <= n {
        proof {
            assert((kind@ + "."@).len() == n + 1);
        }
        return false;
    }
    let mut i: usize = 0;
    while i < n
        invariant
            n == kind@.len(),
            m == s@.len(),
            m >= n + 1,
            i <= n,
            forall|j: int| 0 <= j < i ==> s@[j] == kind@[j],
        decreases n - i,
    {
        if s.get_char(i) != kind.get_char(i) {
            proof {
                reveal_strlit(".");
                let want = kind@ + "."@;
                assert(want.len() == n + 1);
                assert(want[i as int] == kind@[i as int]);
                assert(s@.subrange(0, want.len() as int)[i as int] == s@[i as int]);
            }
            return false;
        }
        i += 1;
    }
    let dot = s.get_char(n) == '.';
    proof {
        let want = kind@ + "."@;
        assert(want[n as int] == '.');
        if dot {
            assert(s@.subrange(0, want.len() as int) =~= want);
        } else {
            assert(s@.subrange(0, want.len() as int)[n as int] == s@[n as int]);
        }
    }
    dot
}

/// The parts of a structure of a given kind, in the order the frame draws them.
pub fn parts_of(kind: &str) -> (r: Vec<Part>)
    ensures
        r@ == spec_parts_of(kind@),
{
    let mut r: Vec<Part> = Vec::new();
    let mut i: usize = 0;
    while i < PARTS_LEN
        invariant
            i <= PARTS_LEN,
            r@ == spec_parts().take(i as int).filter(part_of_kind(kind@)),
        decreases PARTS_LEN - i,
    {
        let row = parts_row(i);
        proof {
            let next = spec_parts().take(i as int + 1);
            assert(next.drop_last() =~= spec_parts().take(i as int));
            assert(next.last() == row);
            reveal(Seq::filter);
        }
        if starts_with_kind(row.part, kind) {
            r.push(row);
        }
        i += 1;
    }
    proof {
        assert(spec_parts().take(PARTS_LEN as int) =~= spec_parts());
    }
    r
}

} // verus!

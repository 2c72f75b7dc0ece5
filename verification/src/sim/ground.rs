//! The map's ground: its tiles, where a straight leg of road runs, what a tile can be
//! zoned for, what each tile still holds underground, and where a structure's material
//! comes from.
//!
//! What a tile holds is derived from the seed; what has been taken out is stored. A
//! take returns **only what was actually there**, and a plan for a structure's material
//! is computed in full before anything is drawn, so a build that cannot be covered never
//! half-mines the map.
use vstd::prelude::*;

use crate::materials::generated::spec_substances;
use crate::materials::geology::{
    deposit,
    kind_family,
    kind_substance,
    spec_deposit,
    spec_deposit_kind,
    Deposit,
    DEPOSIT_KINDS_LEN,
};
use crate::exact::fits_i64;
use crate::materials::ledger::{
    ground_account, lemma_record_reads_back, lemma_record_sorted, lemma_record_total, sorted_listing, spec_of,
    spec_record, spec_total, Ledger, MassAudit,
};
use crate::sim::{
    kind_name,
    spec_building_mass,
    spec_material_family,
    Building,
    MaterialLineage,
    MaterialShortfall,
    Terrain,
    Tile,
    Zone,
};
use crate::sim::road::{hits, nearest_pick, ring, RoadGraph};
use crate::strings::{decimal_nat, glue, same, show_u32, views};

verus! {

/// The map's ground: a `width × height` grid of tiles, in row-major order, and the seed
/// every deposit derives from.
#[derive(Clone, Debug)]
pub struct Ground {
    pub width: u32,
    pub height: u32,
    pub seed: u64,
    pub tiles: Vec<Tile>,
}

/// The sign of an integer.
pub open spec fn signum(v: int) -> int {
    if v > 0 {
        1
    } else if v < 0 {
        -1
    } else {
        0
    }
}

/// The distance between two integers.
pub open spec fn gap(a: int, b: int) -> nat {
    if a >= b {
        (a - b) as nat
    } else {
        (b - a) as nat
    }
}

/// The grid positions a straight leg from `(x0, y0)` to `(x1, y1)` passes through: along
/// the row to the target column first, then along the column to the target row.
pub open spec fn leg(x0: int, y0: int, x1: int, y1: int) -> Seq<(int, int)> {
    let across = gap(x0, x1);
    let down = gap(y0, y1);
    Seq::new(
        across + down + 1,
        |k: int|
            if k <= across {
                (x0 + signum(x1 - x0) * k, y0)
            } else {
                (x1, y0 + signum(y1 - y0) * (k - across))
            },
    )
}

/// A step of `k` in direction `s` is `k`, `-k` or nothing.
proof fn lemma_step(s: int, k: int)
    ensures
        s == 1 ==> s * k == k,
        s == -1 ==> s * k == -k,
        s == 0 ==> s * k == 0,
{
    assert(s == 1 ==> s * k == k) by (nonlinear_arith);
    assert(s == -1 ==> s * k == -k) by (nonlinear_arith);
    assert(s == 0 ==> s * k == 0) by (nonlinear_arith);
}

/// Whether `v` lies between `a` and `b`, either way round.
pub open spec fn between(v: int, a: int, b: int) -> bool {
    (a <= v <= b) || (b <= v <= a)
}

/// Every point of a leg lies within the box its two ends span.
proof fn lemma_leg_within(x0: int, y0: int, x1: int, y1: int, k: int)
    requires
        0 <= k < leg(x0, y0, x1, y1).len(),
    ensures
        between(leg(x0, y0, x1, y1)[k].0, x0, x1),
        between(leg(x0, y0, x1, y1)[k].1, y0, y1),
{
    let across = gap(x0, x1) as int;
    lemma_step(signum(x1 - x0), k);
    lemma_step(signum(y1 - y0), k - across);
}

/// No point of a leg is visited twice.
proof fn lemma_leg_distinct(x0: int, y0: int, x1: int, y1: int, i: int, j: int)
    requires
        0 <= i < j < leg(x0, y0, x1, y1).len(),
    ensures
        leg(x0, y0, x1, y1)[i] != leg(x0, y0, x1, y1)[j],
{
    let across = gap(x0, x1) as int;
    let sx = signum(x1 - x0);
    let sy = signum(y1 - y0);
    lemma_step(sx, i);
    lemma_step(sx, j);
    lemma_step(sy, i - across);
    lemma_step(sy, j - across);
}

/// Two grid positions in a row of `width` columns are the same tile only when they are
/// the same position.
pub(crate) proof fn lemma_tile_injective(width: int, x1: int, y1: int, x2: int, y2: int)
    requires
        0 <= x1 < width,
        0 <= x2 < width,
        0 <= y1,
        0 <= y2,
        y1 * width + x1 == y2 * width + x2,
    ensures
        x1 == x2 && y1 == y2,
{
    if y1 < y2 {
        assert(y1 * width + width <= y2 * width) by (nonlinear_arith)
            requires
                y1 < y2,
                width > 0,
        ;
    } else if y2 < y1 {
        assert(y2 * width + width <= y1 * width) by (nonlinear_arith)
            requires
                y2 < y1,
                width > 0,
        ;
    }
}

/// A tile that takes road: ground that is not road yet.
pub open spec fn takes_road(tile: Tile) -> bool {
    tile.terrain == Terrain::Ground && !tile.road
}

/// A tile with road laid on it.
pub open spec fn paved(tile: Tile) -> Tile {
    Tile { road: true, ..tile }
}

/// A tile a zone can be put on: ground with nothing standing on it and no road.
pub open spec fn zonable(tile: Tile) -> bool {
    tile.terrain == Terrain::Ground && !tile.road && tile.building.is_none()
}

/// The farthest row a tile of a grid `height` rows tall can be from `row`.
pub open spec fn rows_from(height: u32, row: int) -> int {
    if row > height - 1 {
        row
    } else {
        height - 1
    }
}

/// The squared distance between two tiles of a grid `width` columns wide.
pub open spec fn distance2(width: u32, a: u32, b: u32) -> int {
    let dx = (a as int % width as int) - (b as int % width as int);
    let dy = (a as int / width as int) - (b as int / width as int);
    dx * dx + dy * dy
}

/// Whether tile `a` comes before tile `b` in a search outward from `site`: the nearer
/// first, and of two at the same distance the lower tile number, so the order is the
/// same on every platform and in every replay.
pub open spec fn nearer(width: u32, site: u32, a: u32, b: u32) -> bool {
    ||| distance2(width, a, site) < distance2(width, b, site)
    ||| (distance2(width, a, site) == distance2(width, b, site) && a < b)
}

/// The deposit a tile of a grid `width` columns wide derives to from `seed`, before
/// anything is taken.
#[verifier::opaque]
pub open spec fn found(seed: u64, width: u32, tile: u32) -> Option<Deposit> {
    spec_deposit(seed, (tile as int % width as int) as u32, (tile as int / width as int) as u32)
}

/// How many grams a tile of `tiles` still holds: nothing where it is barren or worked out.
pub open spec fn left_in(seed: u64, width: u32, tiles: Seq<Tile>, tile: u32) -> int {
    match found(seed, width, tile) {
        Some(found) => {
            let remaining = found.mass_g - tiles[tile as int].extracted_g;
            if remaining > 0 {
                remaining
            } else {
                0
            }
        },
        None => 0,
    }
}

/// What a take of `grams` gets where `left` grams are: what was asked for, but never more
/// than is there and never less than nothing.
pub open spec fn take_of(left: int, grams: int) -> int {
    if grams <= 0 {
        0
    } else if grams <= left {
        grams
    } else {
        left
    }
}

/// A tile once `taken` more grams have come out of it.
pub open spec fn dug(tile: Tile, taken: int) -> Tile {
    Tile { extracted_g: (tile.extracted_g + taken) as i64, ..tile }
}

/// Drawing `lines` (tile, grams) out of `tiles` one after another: what each take got,
/// and the tiles afterwards.
pub open spec fn drawn(seed: u64, width: u32, tiles: Seq<Tile>, lines: Seq<(u32, int)>) -> (
    Seq<int>,
    Seq<Tile>,
)
    decreases lines.len(),
{
    if lines.len() == 0 {
        (Seq::empty(), tiles)
    } else {
        let t = lines[0].0;
        let taken = take_of(left_in(seed, width, tiles, t), lines[0].1);
        let rest = drawn(seed, width, tiles.update(t as int, dug(tiles[t as int], taken)), lines.drop_first());
        (seq![taken] + rest.0, rest.1)
    }
}

/// A plan's lines as what to draw: tile and grams.
pub open spec fn draws_of(lines: Seq<(u32, Seq<char>, int)>) -> Seq<(u32, int)> {
    lines.map_values(|line: (u32, Seq<char>, int)| (line.0, line.2))
}

/// Two orders of the same tiles, each strictly nearest first from one site, are one order.
proof fn lemma_one_order(width: u32, site: u32, a: Seq<u32>, b: Seq<u32>)
    requires
        forall|i: int, j: int| 0 <= i < j < a.len() ==> nearer(width, site, #[trigger] a[i], #[trigger] a[j]),
        forall|i: int, j: int| 0 <= i < j < b.len() ==> nearer(width, site, #[trigger] b[i], #[trigger] b[j]),
        forall|t: u32| #![trigger a.contains(t)] #![trigger b.contains(t)] a.contains(t) <==> b.contains(t),
    ensures
        a == b,
    decreases a.len(),
{
    if a.len() == 0 {
        if b.len() > 0 {
            assert(b.contains(b[0]));
        }
        assert(a =~= b);
    } else if b.len() == 0 {
        assert(a.contains(a[0]));
    } else {
        assert(a.contains(a[0]));
        assert(b.contains(b[0]));
        let j = choose|j: int| 0 <= j < b.len() && b[j] == a[0];
        let i = choose|i: int| 0 <= i < a.len() && a[i] == b[0];
        if j > 0 && i > 0 {
            assert(nearer(width, site, b[0], b[j]));
            assert(nearer(width, site, a[0], a[i]));
        }
        if j == 0 {
            assert(a[0] == b[0]);
        } else {
            assert(i == 0);
        }
        let ra = a.drop_first();
        let rb = b.drop_first();
        assert forall|t: u32| #![trigger ra.contains(t)] #![trigger rb.contains(t)] ra.contains(t) <==> rb.contains(t) by {
            if ra.contains(t) {
                let k = choose|k: int| 0 <= k < ra.len() && ra[k] == t;
                assert(a[k + 1] == t);
                assert(nearer(width, site, a[0], a[k + 1]));
                assert(a.contains(t));
                let m = choose|m: int| 0 <= m < b.len() && b[m] == t;
                assert(m != 0);
                assert(rb[m - 1] == t);
            }
            if rb.contains(t) {
                let k = choose|k: int| 0 <= k < rb.len() && rb[k] == t;
                assert(b[k + 1] == t);
                assert(nearer(width, site, b[0], b[k + 1]));
                assert(b.contains(t));
                let m = choose|m: int| 0 <= m < a.len() && a[m] == t;
                assert(m != 0);
                assert(ra[m - 1] == t);
            }
        }
        lemma_one_order(width, site, ra, rb);
        assert(a =~= b) by {
            assert forall|k: int| 0 <= k < a.len() implies a[k] == b[k] by {
                if k > 0 {
                    assert(a[k] == ra[k - 1]);
                    assert(b[k] == rb[k - 1]);
                }
            }
        }
    }
}

/// Drawing lines of distinct tiles, each for no more than its tile holds, takes exactly
/// what each line asks for.
proof fn lemma_draw_exact(seed: u64, width: u32, tiles: Seq<Tile>, lines: Seq<(u32, int)>)
    requires
        forall|i: int|
            0 <= i < lines.len() ==> 0 < #[trigger] lines[i].1 <= left_in(seed, width, tiles, lines[i].0),
        forall|i: int, j: int|
            0 <= i < j < lines.len() ==> #[trigger] lines[i].0 != #[trigger] lines[j].0,
        forall|i: int| 0 <= i < lines.len() ==> #[trigger] lines[i].0 < tiles.len(),
    ensures
        drawn(seed, width, tiles, lines).0 == lines.map_values(|line: (u32, int)| line.1),
    decreases lines.len(),
{
    if lines.len() == 0 {
        assert(lines.map_values(|line: (u32, int)| line.1) =~= Seq::<int>::empty());
    } else {
        let t = lines[0].0;
        let taken = take_of(left_in(seed, width, tiles, t), lines[0].1);
        assert(taken == lines[0].1);
        let after = tiles.update(t as int, dug(tiles[t as int], taken));
        let rest = lines.drop_first();
        assert forall|i: int| 0 <= i < rest.len() implies 0 < #[trigger] rest[i].1 <= left_in(
            seed,
            width,
            after,
            rest[i].0,
        ) by {
            assert(rest[i] == lines[i + 1]);
            assert(lines[0].0 != lines[i + 1].0);
            assert(after[rest[i].0 as int] == tiles[rest[i].0 as int]);
        }
        assert forall|i: int, j: int| 0 <= i < j < rest.len() implies #[trigger] rest[i].0
            != #[trigger] rest[j].0 by {
            assert(lines[i + 1].0 != lines[j + 1].0);
        }
        assert forall|i: int| 0 <= i < rest.len() implies #[trigger] rest[i].0 < after.len() by {
            assert(rest[i] == lines[i + 1]);
        }
        lemma_draw_exact(seed, width, after, rest);
        assert(lines.map_values(|line: (u32, int)| line.1) =~= seq![taken] + rest.map_values(
            |line: (u32, int)| line.1,
        ));
    }
}

/// Whether a road node lies within `radius` rings of a tile.
pub open spec fn road_within(index: Map<u32, u32>, width: nat, height: nat, tile: u32, radius: int) -> bool {
    exists|x: int, y: int|
        #[trigger] hits(index, width, height, x, y) && ring(
            tile as int % width as int,
            tile as int / width as int,
            x,
            y,
        ) <= radius
}

/// The ground account a tile's take is debited to: the substance its own deposit derives
/// to, or `unattributed` where no deposit derives there any more.
pub open spec fn take_account(seed: u64, width: u32, tile: u32) -> Seq<char> {
    "ground:"@ + match found(seed, width, tile) {
        Some(d) => spec_deposit_kind(d.kind as int).substance@,
        None => "unattributed"@,
    }
}

/// The audit's reading of the ground's first `n` tiles: the listing, with each worked
/// tile's take debited to its account, and the total taken.
pub open spec fn ground_audit(seed: u64, width: u32, tiles: Seq<Tile>, n: int) -> (
    Seq<(Seq<char>, i64)>,
    int,
)
    decreases n,
{
    if n <= 0 {
        (Seq::empty(), 0)
    } else {
        let (es, taken) = ground_audit(seed, width, tiles, n - 1);
        let g = tiles[n - 1].extracted_g;
        if g == 0 {
            (es, taken)
        } else {
            (spec_record(es, take_account(seed, width, (n - 1) as u32), -g), taken + g)
        }
    }
}

/// The grams taken from the first `n` tiles whose deposit, as the seed derives it, holds
/// `substance`.
pub open spec fn deposit_taken(seed: u64, width: u32, tiles: Seq<Tile>, substance: Seq<char>, n: int) -> int
    decreases n,
{
    if n <= 0 {
        0
    } else {
        deposit_taken(seed, width, tiles, substance, n - 1) + match found(seed, width, (n - 1) as u32) {
            Some(d) => if spec_deposit_kind(d.kind as int).substance@ == substance {
                tiles[n - 1].extracted_g as int
            } else {
                0
            },
            None => 0,
        }
    }
}

/// Two accounts under one prefix are one account only where their names are one name.
proof fn lemma_same_prefix(prefix: Seq<char>, a: Seq<char>, b: Seq<char>)
    requires
        prefix + a == prefix + b,
    ensures
        a == b,
{
    assert(a =~= (prefix + a).subrange(prefix.len() as int, (prefix + a).len() as int));
    assert(b =~= (prefix + b).subrange(prefix.len() as int, (prefix + b).len() as int));
}

/// The law of the ground's debits: across the first `n` tiles, the ground account of a
/// substance is debited exactly what was taken from the tiles whose own deposit, as the
/// seed derives it, holds that substance, and nothing else.
pub proof fn law_a_take_is_debited_to_its_deposit(seed: u64, width: u32, tiles: Seq<Tile>, substance: Seq<char>, n: int)
    requires
        0 <= n <= tiles.len(),
        forall|k: int| 0 <= k < n ==> #[trigger] ground_step_fits(seed, width, tiles, k),
        substance != "unattributed"@,
    ensures
        sorted_listing(ground_audit(seed, width, tiles, n).0),
        spec_of(ground_audit(seed, width, tiles, n).0, "ground:"@ + substance) == -deposit_taken(
            seed,
            width,
            tiles,
            substance,
            n,
        ),
    decreases n,
{
    if n > 0 {
        law_a_take_is_debited_to_its_deposit(seed, width, tiles, substance, n - 1);
        assert(ground_step_fits(seed, width, tiles, n - 1));
        let (es, taken) = ground_audit(seed, width, tiles, n - 1);
        let g = tiles[n - 1].extracted_g;
        let here = take_account(seed, width, (n - 1) as u32);
        let mine = "ground:"@ + substance;
        if g != 0 {
            lemma_record_sorted(es, here, -g);
            lemma_record_reads_back(es, here, -g, mine);
            if here == mine {
                match found(seed, width, (n - 1) as u32) {
                    Some(d) => lemma_same_prefix("ground:"@, spec_deposit_kind(d.kind as int).substance@, substance),
                    None => lemma_same_prefix("ground:"@, "unattributed"@, substance),
                }
            } else {
                if let Some(d) = found(seed, width, (n - 1) as u32) {
                    assert(spec_deposit_kind(d.kind as int).substance@ != substance);
                }
            }
        }
    }
}

/// Crediting the structures standing on a ground leaves every ground account as it was.
proof fn lemma_city_keeps_the_ground(start: Seq<(Seq<char>, i64)>, buildings: Seq<Building>, n: int, substance: Seq<char>)
    requires
        sorted_listing(start),
        0 <= n <= buildings.len(),
        forall|k: int| 0 <= k < n ==> #[trigger] city_step_fits(start, buildings, k),
    ensures
        sorted_listing(city_audit(start, buildings, n).0),
        spec_of(city_audit(start, buildings, n).0, "ground:"@ + substance) == spec_of(start, "ground:"@ + substance),
    decreases n,
{
    if n > 0 {
        lemma_city_keeps_the_ground(start, buildings, n - 1, substance);
        assert(city_step_fits(start, buildings, n - 1));
        let (es, standing, defects) = city_audit(start, buildings, n - 1);
        let b = buildings[n - 1];
        match (spec_building_mass(b.kind, b.level), spec_material_family(b)) {
            (Some(mass), Some(family)) => {
                let account = standing_account(b, family);
                let mine = "ground:"@ + substance;
                reveal_strlit("ground:");
                reveal_strlit("structure:");
                reveal_strlit("ruin:");
                assert(account[0] != mine[0]);
                lemma_record_sorted(es, account, mass as int);
                lemma_record_reads_back(es, account, mass as int, mine);
            },
            _ => {},
        }
    }
}



/// The grams taken from the first `n` tiles, together.
pub open spec fn tiles_taken(tiles: Seq<Tile>, n: int) -> int
    decreases n,
{
    if n <= 0 {
        0
    } else {
        tiles_taken(tiles, n - 1) + tiles[n - 1].extracted_g
    }
}

/// The law of the ground's side of the audit: it counts every gram taken from the first `n`
/// tiles, and its listing sums to minus that.
pub proof fn law_the_ground_audit_counts_every_take(seed: u64, width: u32, tiles: Seq<Tile>, n: int)
    requires
        0 <= n <= tiles.len(),
        forall|k: int| 0 <= k < n ==> #[trigger] ground_step_fits(seed, width, tiles, k),
    ensures
        ground_audit(seed, width, tiles, n).1 == tiles_taken(tiles, n),
        spec_total(ground_audit(seed, width, tiles, n).0) == -tiles_taken(tiles, n),
    decreases n,
{
    if n > 0 {
        law_the_ground_audit_counts_every_take(seed, width, tiles, n - 1);
        assert(ground_step_fits(seed, width, tiles, n - 1));
        let (es, taken) = ground_audit(seed, width, tiles, n - 1);
        let g = tiles[n - 1].extracted_g;
        if g != 0 {
            lemma_record_total(es, take_account(seed, width, (n - 1) as u32), -g);
        }
    }
}

/// Crediting the structures standing on a ground adds to its listing exactly what stands.
proof fn lemma_city_adds_what_stands(start: Seq<(Seq<char>, i64)>, buildings: Seq<Building>, n: int)
    requires
        0 <= n <= buildings.len(),
        forall|k: int| 0 <= k < n ==> #[trigger] city_step_fits(start, buildings, k),
    ensures
        spec_total(city_audit(start, buildings, n).0) == spec_total(start) + city_audit(start, buildings, n).1,
    decreases n,
{
    if n > 0 {
        lemma_city_adds_what_stands(start, buildings, n - 1);
        assert(city_step_fits(start, buildings, n - 1));
        let (es, standing, defects) = city_audit(start, buildings, n - 1);
        let b = buildings[n - 1];
        match (spec_building_mass(b.kind, b.level), spec_material_family(b)) {
            (Some(mass), Some(family)) => {
                lemma_record_total(es, standing_account(b, family), mass as int);
            },
            _ => {},
        }
    }
}

/// Whether tile `k`'s debit, and the total taken with it, can be counted in grams.
pub open spec fn ground_step_fits(seed: u64, width: u32, tiles: Seq<Tile>, k: int) -> bool {
    let (es, taken) = ground_audit(seed, width, tiles, k);
    let g = tiles[k].extracted_g;
    g != 0 ==> fits_i64(-g) && fits_i64(spec_of(es, take_account(seed, width, k as u32)) - g)
        && fits_i64(taken + g)
}

/// The account a structure's mass sits in once weighed.
pub open spec fn standing_account(b: Building, family: Seq<char>) -> Seq<char> {
    if b.retired is None {
        "structure:"@ + family
    } else {
        "ruin:"@ + family
    }
}

/// The finding for a structure that cannot be weighed or attributed.
pub open spec fn unweighed_text(b: Building) -> Seq<char> {
    "structure "@ + decimal_nat(b.id as nat) + " ("@ + kind_name(b.kind) + ", level "@ + decimal_nat(
        b.level as nat,
    ) + ") could not be weighed or attributed: "@ + (if spec_building_mass(b.kind, b.level) is None {
        "its kind declares no mass"@
    } else {
        "no material claim and no declared body part"@
    }) + " — it is not in the mass audit at all"@
}

/// The audit's reading of the first `n` structures on top of the listing `start`: the
/// listing with each weighed structure credited to its account, the total standing, and
/// the findings for the structures that could not be weighed.
pub open spec fn city_audit(start: Seq<(Seq<char>, i64)>, buildings: Seq<Building>, n: int) -> (
    Seq<(Seq<char>, i64)>,
    int,
    Seq<Seq<char>>,
)
    decreases n,
{
    if n <= 0 {
        (start, 0, Seq::empty())
    } else {
        let (es, standing, defects) = city_audit(start, buildings, n - 1);
        let b = buildings[n - 1];
        match (spec_building_mass(b.kind, b.level), spec_material_family(b)) {
            (Some(mass), Some(family)) => (
                spec_record(es, standing_account(b, family), mass as int),
                standing + mass,
                defects,
            ),
            _ => (es, standing, defects.push(unweighed_text(b))),
        }
    }
}

/// Whether structure `k`'s credit, and the total standing with it, can be counted in grams.
pub open spec fn city_step_fits(start: Seq<(Seq<char>, i64)>, buildings: Seq<Building>, k: int) -> bool {
    let (es, standing, defects) = city_audit(start, buildings, k);
    let b = buildings[k];
    match (spec_building_mass(b.kind, b.level), spec_material_family(b)) {
        (Some(mass), Some(family)) => fits_i64(spec_of(es, standing_account(b, family)) + mass)
            && fits_i64(standing + mass),
        _ => true,
    }
}

/// How many grams a plan's lines add up to.
pub open spec fn planned(lines: Seq<(u32, Seq<char>, int)>) -> int
    decreases lines.len(),
{
    if lines.len() == 0 {
        0
    } else {
        lines[0].2 + planned(lines.drop_first())
    }
}

/// A plan's lines as plain values: tile, substance, grams.
pub open spec fn lines_of(plan: Seq<MaterialLineage>) -> Seq<(u32, Seq<char>, int)> {
    plan.map_values(|line: MaterialLineage| (line.tile, line.substance@, line.grams as int))
}

/// The grams of one plan line in a row of them add up line by line.
proof fn lemma_planned_append(a: Seq<(u32, Seq<char>, int)>, b: Seq<(u32, Seq<char>, int)>)
    ensures
        planned(a + b) == planned(a) + planned(b),
    decreases a.len(),
{
    if a.len() > 0 {
        assert((a + b).drop_first() =~= a.drop_first() + b);
        lemma_planned_append(a.drop_first(), b);
    } else {
        assert(a + b =~= b);
    }
}

impl Ground {
    /// Whether the grid's tiles are all there, and every tile number fits.
    pub open spec fn fits(&self) -> bool {
        &&& self.width * self.height <= u32::MAX
        &&& self.tiles@.len() == self.width * self.height
    }

    /// The tile a grid position is.
    pub open spec fn tile_at(&self, x: int, y: int) -> int {
        y * self.width + x
    }

    /// The tiles a straight leg between two tiles passes through.
    pub open spec fn spec_leg_tiles(&self, from: u32, to: u32) -> Seq<u32> {
        let x0 = from as int % self.width as int;
        let y0 = from as int / self.width as int;
        let x1 = to as int % self.width as int;
        let y1 = to as int / self.width as int;
        leg(x0, y0, x1, y1).map_values(|p: (int, int)| self.tile_at(p.0, p.1) as u32)
    }

    /// The deposit a tile's position derives to from the seed, before anything is taken.
    pub open spec fn found_at(&self, tile: u32) -> Option<Deposit> {
        found(self.seed, self.width, tile)
    }

    /// Whether what is left of a tile's deposit can be counted in grams.
    pub open spec fn remains_fit(&self, tile: u32) -> bool {
        match self.found_at(tile) {
            Some(found) => i64::MIN <= found.mass_g - self.tiles@[tile as int].extracted_g
                <= i64::MAX,
            None => true,
        }
    }

    /// What a tile still holds: its deposit net of what has been taken out, or `None`
    /// where the ground is barren or worked out.
    pub open spec fn spec_deposit_at(&self, tile: u32) -> Option<Deposit> {
        match self.found_at(tile) {
            Some(found) => {
                let remaining = found.mass_g - self.tiles@[tile as int].extracted_g;
                if remaining > 0 {
                    Some(Deposit { mass_g: remaining as i64, ..found })
                } else {
                    None
                }
            },
            None => None,
        }
    }

    /// What a take of `grams` gets out of a tile: what was asked for, but never more
    /// than the tile still holds and never less than nothing.
    pub open spec fn spec_take(&self, tile: u32, grams: i64) -> i64 {
        match self.spec_deposit_at(tile) {
            Some(left) => if grams <= 0 {
                0
            } else if grams <= left.mass_g {
                grams
            } else {
                left.mass_g
            },
            None => 0,
        }
    }

    /// Whether what is left of every tile's deposit can be counted in grams.
    pub open spec fn all_fit(&self) -> bool {
        forall|t: u32| t < self.tiles@.len() ==> #[trigger] self.remains_fit(t)
    }

    /// How many grams a tile still holds: nothing where it is barren or worked out.
    pub open spec fn left_at(&self, tile: u32) -> int {
        left_in(self.seed, self.width, self.tiles@, tile)
    }

    /// The substance a tile still holds, by name.
    pub open spec fn substance_at(&self, tile: u32) -> Seq<char> {
        match self.spec_deposit_at(tile) {
            Some(left) => spec_deposit_kind(left.kind as int).substance@,
            None => Seq::empty(),
        }
    }

    /// Whether a tile still holds a deposit whose substance presents as `family`.
    pub open spec fn holds_family(&self, tile: u32, family: Seq<char>) -> bool {
        match self.spec_deposit_at(tile) {
            Some(left) => spec_substances()[left.kind as int].family@ == family,
            None => false,
        }
    }

    /// Whether `order` is the search outward from `site` for `family`: every tile that
    /// holds the family, once each, nearest first, ties by tile number.
    pub open spec fn is_search_order(&self, site: u32, family: Seq<char>, order: Seq<u32>) -> bool {
        &&& forall|i: int, j: int|
            0 <= i < j < order.len() ==> nearer(self.width, site, #[trigger] order[i], #[trigger] order[j])
        &&& forall|t: u32|
            #[trigger] order.contains(t) <==> (t < self.tiles@.len() && self.holds_family(t, family))
    }

    /// How many grams the tiles of `order` hold between them.
    pub open spec fn supply(&self, order: Seq<u32>) -> int
        decreases order.len(),
    {
        if order.len() == 0 {
            0
        } else {
            self.left_at(order[0]) + self.supply(order.drop_first())
        }
    }

    /// The plan for `need` grams along `order`: each tile in turn gives what it holds or
    /// what is still wanted, whichever is less, until nothing more is wanted.
    pub open spec fn spec_plan(&self, order: Seq<u32>, need: int) -> Seq<(u32, Seq<char>, int)>
        decreases order.len(),
    {
        if order.len() == 0 || need <= 0 {
            Seq::empty()
        } else {
            let t = order[0];
            let take = if self.left_at(t) < need {
                self.left_at(t)
            } else {
                need
            };
            if take <= 0 {
                self.spec_plan(order.drop_first(), need)
            } else {
                seq![(t, self.substance_at(t), take)] + self.spec_plan(order.drop_first(), need - take)
            }
        }
    }

    /// A plan covers what was wanted, or all the supply there is, whichever is less.
    pub proof fn lemma_plan_covers(&self, order: Seq<u32>, need: int)
        ensures
            planned(self.spec_plan(order, need)) == if need <= 0 {
                0
            } else if self.supply(order) < need {
                self.supply(order)
            } else {
                need
            },
        decreases order.len(),
    {
        if order.len() > 0 && need > 0 {
            let t = order[0];
            assert(self.left_at(t) >= 0);
            let take = if self.left_at(t) < need {
                self.left_at(t)
            } else {
                need
            };
            self.lemma_plan_covers(order.drop_first(), need - take);
            self.lemma_plan_covers(order.drop_first(), need);
            if take > 0 {
                let head = seq![(t, self.substance_at(t), take)];
                lemma_planned_append(head, self.spec_plan(order.drop_first(), need - take));
                assert(head.drop_first() =~= Seq::<(u32, Seq<char>, int)>::empty());
                assert(planned(head.drop_first()) == 0);
                assert(planned(head) == take);
            }
            self.lemma_supply_nonnegative(order.drop_first());
            assert(self.supply(order) == self.left_at(t) + self.supply(order.drop_first()));
        }
    }

    /// There is one search order for a site and a family: which tiles a plan draws from,
    /// and in what order, is a function of the ground alone, ties included.
    pub proof fn law_one_search_order(&self, site: u32, family: Seq<char>, a: Seq<u32>, b: Seq<u32>)
        requires
            self.is_search_order(site, family, a),
            self.is_search_order(site, family, b),
        ensures
            a == b,
    {
        assert forall|t: u32| #![trigger a.contains(t)] #![trigger b.contains(t)] a.contains(t) <==> b.contains(t) by {
            assert(a.contains(t) <==> (t < self.tiles@.len() && self.holds_family(t, family)));
            assert(b.contains(t) <==> (t < self.tiles@.len() && self.holds_family(t, family)));
        }
        lemma_one_order(self.width, site, a, b);
    }

    /// Every line of a plan names a tile of its order that still holds more than nothing,
    /// asks for no more than that tile holds and names what is there; and where the order
    /// names no tile twice, neither does the plan.
    #[verifier::spinoff_prover]
    pub proof fn lemma_plan_lines(&self, order: Seq<u32>, need: int)
        ensures
            forall|i: int|
                0 <= i < self.spec_plan(order, need).len() ==> {
                    &&& order.contains(#[trigger] self.spec_plan(order, need)[i].0)
                    &&& 0 < self.spec_plan(order, need)[i].2 <= self.left_at(self.spec_plan(order, need)[i].0)
                    &&& self.spec_plan(order, need)[i].1 == self.substance_at(self.spec_plan(order, need)[i].0)
                },
            order.no_duplicates() ==> forall|i: int, j: int|
                0 <= i < j < self.spec_plan(order, need).len() ==> #[trigger] self.spec_plan(order, need)[i].0
                    != #[trigger] self.spec_plan(order, need)[j].0,
        decreases order.len(),
    {
        if order.len() > 0 && need > 0 {
            let t = order[0];
            let rest = order.drop_first();
            let take = if self.left_at(t) < need {
                self.left_at(t)
            } else {
                need
            };
            let next = if take <= 0 {
                need
            } else {
                need - take
            };
            self.lemma_plan_lines(rest, next);
            let tail = self.spec_plan(rest, next);
            let plan = self.spec_plan(order, need);
            assert forall|i: int| 0 <= i < tail.len() implies order.contains(#[trigger] tail[i].0) by {
                let k = choose|k: int| 0 <= k < rest.len() && rest[k] == tail[i].0;
                assert(order[k + 1] == tail[i].0);
            }
            if take > 0 {
                assert(plan =~= seq![(t, self.substance_at(t), take)] + tail);
                assert forall|i: int| 0 <= i < plan.len() implies {
                    &&& order.contains(#[trigger] plan[i].0)
                    &&& 0 < plan[i].2 <= self.left_at(plan[i].0)
                    &&& plan[i].1 == self.substance_at(plan[i].0)
                } by {
                    if i == 0 {
                        assert(order[0] == t);
                    } else {
                        assert(plan[i] == tail[i - 1]);
                    }
                }
                if order.no_duplicates() {
                    assert(rest.no_duplicates());
                    assert forall|i: int, j: int| 0 <= i < j < plan.len() implies #[trigger] plan[i].0
                        != #[trigger] plan[j].0 by {
                        if i == 0 {
                            assert(plan[j] == tail[j - 1]);
                            let k = choose|k: int| 0 <= k < rest.len() && rest[k] == tail[j - 1].0;
                            assert(order[k + 1] == tail[j - 1].0);
                        } else {
                            assert(plan[i] == tail[i - 1] && plan[j] == tail[j - 1]);
                        }
                    }
                }
            } else {
                if order.no_duplicates() {
                    assert(rest.no_duplicates());
                }
            }
        }
    }

    /// **A plan draws what it promised.** Every line of a plan made from this ground names
    /// a tile holding the structure's own family and the substance that is there, asks for
    /// no more than that tile holds, and drawing the plan out of this same ground takes
    /// from each tile exactly the grams its line planned.
    pub proof fn law_plan_draws_as_promised(&self, site: u32, family: Seq<char>, order: Seq<u32>, need: int)
        requires
            self.is_search_order(site, family, order),
        ensures
            forall|i: int|
                0 <= i < self.spec_plan(order, need).len() ==> {
                    &&& self.holds_family(#[trigger] self.spec_plan(order, need)[i].0, family)
                    &&& self.spec_plan(order, need)[i].1 == self.substance_at(self.spec_plan(order, need)[i].0)
                    &&& 0 < self.spec_plan(order, need)[i].2 <= self.left_at(self.spec_plan(order, need)[i].0)
                },
            drawn(self.seed, self.width, self.tiles@, draws_of(self.spec_plan(order, need))).0
                == self.spec_plan(order, need).map_values(|line: (u32, Seq<char>, int)| line.2),
    {
        let plan = self.spec_plan(order, need);
        assert(order.no_duplicates()) by {
            assert forall|i: int, j: int| 0 <= i < order.len() && 0 <= j < order.len() && i != j
                implies order[i] != order[j] by {
                if i < j {
                    assert(nearer(self.width, site, order[i], order[j]));
                } else {
                    assert(nearer(self.width, site, order[j], order[i]));
                }
            }
        }
        self.lemma_plan_lines(order, need);
        let lines = draws_of(plan);
        assert forall|i: int| 0 <= i < plan.len() implies self.holds_family(#[trigger] plan[i].0, family)
            && plan[i].0 < self.tiles@.len() by {
            assert(order.contains(plan[i].0));
        }
        assert forall|i: int| 0 <= i < lines.len() implies 0 < #[trigger] lines[i].1 <= left_in(
            self.seed,
            self.width,
            self.tiles@,
            lines[i].0,
        ) by {
            assert(lines[i] == (plan[i].0, plan[i].2));
        }
        assert forall|i: int, j: int| 0 <= i < j < lines.len() implies #[trigger] lines[i].0
            != #[trigger] lines[j].0 by {
            assert(lines[i].0 == plan[i].0 && lines[j].0 == plan[j].0);
        }
        assert forall|i: int| 0 <= i < lines.len() implies #[trigger] lines[i].0 < self.tiles@.len() by {
            assert(lines[i].0 == plan[i].0);
        }
        lemma_draw_exact(self.seed, self.width, self.tiles@, lines);
        assert(lines.map_values(|line: (u32, int)| line.1) =~= plan.map_values(
            |line: (u32, Seq<char>, int)| line.2,
        ));
    }

    /// Supply is never negative.
    pub proof fn lemma_supply_nonnegative(&self, order: Seq<u32>)
        ensures
            self.supply(order) >= 0,
        decreases order.len(),
    {
        if order.len() > 0 {
            self.lemma_supply_nonnegative(order.drop_first());
        }
    }

    /// The tiles of a leg are all on the map and no tile comes twice.
    pub proof fn lemma_leg_tiles(&self, from: u32, to: u32)
        requires
            self.fits(),
            self.width > 0,
            from < self.width * self.height,
            to < self.width * self.height,
        ensures
            self.spec_leg_tiles(from, to).no_duplicates(),
            forall|i: int|
                0 <= i < self.spec_leg_tiles(from, to).len() ==> #[trigger] self.spec_leg_tiles(
                    from,
                    to,
                )[i] < self.width * self.height,
    {
        let w = self.width as int;
        let h = self.height as int;
        let x0 = from as int % w;
        let y0 = from as int / w;
        let x1 = to as int % w;
        let y1 = to as int / w;
        assert(0 <= y0 < h && 0 <= y1 < h) by (nonlinear_arith)
            requires
                y0 == from as int / w,
                y1 == to as int / w,
                from < w * h,
                to < w * h,
                w > 0,
                from >= 0,
                to >= 0,
        ;
        let path = leg(x0, y0, x1, y1);
        let tiles = self.spec_leg_tiles(from, to);
        assert forall|i: int| 0 <= i < path.len() implies 0 <= path[i].0 < w && 0 <= path[i].1 < h
            && 0 <= #[trigger] self.tile_at(path[i].0, path[i].1) < w * h by {
            lemma_leg_within(x0, y0, x1, y1, i);
            let (x, y) = path[i];
            assert(0 <= y * w + x < w * h) by (nonlinear_arith)
                requires
                    0 <= x < w,
                    0 <= y < h,
            ;
        }
        assert forall|i: int| 0 <= i < tiles.len() implies #[trigger] tiles[i] < self.width
            * self.height by {
            assert(0 <= self.tile_at(path[i].0, path[i].1) < w * h);
        }
        assert forall|i: int, j: int| 0 <= i < tiles.len() && 0 <= j < tiles.len() && i != j
            implies tiles[i] != tiles[j] by {
            assert(0 <= self.tile_at(path[i].0, path[i].1) < w * h);
            assert(0 <= self.tile_at(path[j].0, path[j].1) < w * h);
            if i < j {
                lemma_leg_distinct(x0, y0, x1, y1, i, j);
            } else {
                lemma_leg_distinct(x0, y0, x1, y1, j, i);
            }
            if tiles[i] == tiles[j] {
                lemma_tile_injective(w, path[i].0, path[i].1, path[j].0, path[j].1);
            }
        }
    }

    pub fn in_bounds(&self, x: i32, y: i32) -> (r: bool)
        ensures
            r == (x >= 0 && y >= 0 && x < self.width as i32 && y < self.height as i32),
    {
        x >= 0 && y >= 0 && x < self.width as i32 && y < self.height as i32
    }

    pub fn index(&self, x: u32, y: u32) -> (r: u32)
        requires
            y * self.width + x <= u32::MAX,
        ensures
            r == self.tile_at(x as int, y as int),
    {
        y * self.width + x
    }

    pub fn coords(&self, tile: u32) -> (r: (u32, u32))
        requires
            self.width > 0,
        ensures
            r == ((tile % self.width) as u32, (tile / self.width) as u32),
    {
        (tile % self.width, tile / self.width)
    }

    /// The tiles a straight leg between two tiles passes through, without changing
    /// anything: what a caller asks for **before** building, so it can see what already
    /// existed.
    pub fn leg_tiles(&self, from: u32, to: u32) -> (r: Vec<u32>)
        requires
            self.fits(),
            self.width > 0,
            from < self.width * self.height,
            to < self.width * self.height,
        ensures
            r@ == self.spec_leg_tiles(from, to),
    {
        let x0 = from % self.width;
        let y0 = from / self.width;
        let x1 = to % self.width;
        let y1 = to / self.width;
        proof {
            assert(y0 < self.height && y1 < self.height) by (nonlinear_arith)
                requires
                    y0 == from / self.width,
                    y1 == to / self.width,
                    from < self.width * self.height,
                    to < self.width * self.height,
                    self.width > 0,
            ;
        }
        let ghost path = leg(x0 as int, y0 as int, x1 as int, y1 as int);
        let across: u32 = if x0 >= x1 { x0 - x1 } else { x1 - x0 };
        let down: u32 = if y0 >= y1 { y0 - y1 } else { y1 - y0 };
        let steps: u64 = across as u64 + down as u64 + 1;
        let mut tiles: Vec<u32> = Vec::new();
        let mut k: u64 = 0;
        while k < steps
            invariant
                self.fits(),
                self.width > 0,
                x0 < self.width,
                x1 < self.width,
                y0 < self.height,
                y1 < self.height,
                across == gap(x0 as int, x1 as int),
                down == gap(y0 as int, y1 as int),
                steps == path.len(),
                path == leg(x0 as int, y0 as int, x1 as int, y1 as int),
                k <= steps,
                tiles@ == path.take(k as int).map_values(|p: (int, int)| self.tile_at(p.0, p.1) as u32),
            decreases steps - k,
        {
            let (x, y): (u32, u32) = if k <= across as u64 {
                (if x1 >= x0 { x0 + k as u32 } else { x0 - k as u32 }, y0)
            } else {
                let along = (k - across as u64) as u32;
                (x1, if y1 >= y0 { y0 + along } else { y0 - along })
            };
            proof {
                let kk = k as int;
                if kk <= across {
                    lemma_step(signum(x1 - x0), kk);
                    if x1 > x0 {
                        assert(x == x0 + kk);
                    } else if x1 < x0 {
                        assert(x == x0 - kk);
                    } else {
                        assert(kk == 0);
                    }
                    assert(path[kk] == (x0 + signum(x1 - x0) * kk, y0 as int));
                } else {
                    if y1 > y0 {
                        let m = kk - across;
                        let s = signum(y1 - y0);
                        assert(s == 1);
                        assert(s * m == m) by (nonlinear_arith)
                            requires
                                s == 1,
                        ;
                        assert(y == y0 + (kk - across));
                    } else if y1 < y0 {
                        let m = kk - across;
                        let s = signum(y1 - y0);
                        assert(s == -1);
                        assert(s * m == -m) by (nonlinear_arith)
                            requires
                                s == -1,
                        ;
                        assert(y == y0 - (kk - across));
                    } else {
                        assert(kk - across == 0);
                        assert(signum(y1 - y0) * (kk - across) == 0);
                    }
                    assert(path[kk] == (x1 as int, y0 + signum(y1 - y0) * (kk - across)));
                }
                assert(path[k as int] == (x as int, y as int));
                assert(x < self.width && y < self.height);
                assert(y * self.width + x < self.width * self.height) by (nonlinear_arith)
                    requires
                        x < self.width,
                        y < self.height,
                ;
            }
            let ghost before = tiles@;
            tiles.push(y * self.width + x);
            proof {
                assert(path.take(k as int + 1) =~= path.take(k as int).push(path[k as int]));
                assert(tiles@ =~= path.take(k as int + 1).map_values(|p: (int, int)| self.tile_at(p.0, p.1) as u32));
            }
            k += 1;
        }
        proof {
            assert(path.take(steps as int) =~= path);
        }
        tiles
    }

    /// Lay road along a straight leg between two tiles. Returns the tiles that became road:
    /// the ground along the leg that was not road yet, in the leg's order. Water stays
    /// water, and a tile already paved is not laid twice.
    pub fn lay_road(&mut self, from: u32, to: u32) -> (laid: Vec<u32>)
        requires
            old(self).fits(),
            old(self).width > 0,
            from < old(self).width * old(self).height,
            to < old(self).width * old(self).height,
        ensures
            final(self).width == old(self).width,
            final(self).height == old(self).height,
            final(self).seed == old(self).seed,
            final(self).tiles@.len() == old(self).tiles@.len(),
            forall|t: int|
                0 <= t < old(self).tiles@.len() ==> #[trigger] final(self).tiles@[t] == if old(
                    self,
                ).spec_leg_tiles(from, to).contains(t as u32) && old(self).tiles@[t].terrain
                    == Terrain::Ground {
                    paved(old(self).tiles@[t])
                } else {
                    old(self).tiles@[t]
                },
            laid@ == old(self).spec_leg_tiles(from, to).filter(
                |t: u32| takes_road(old(self).tiles@[t as int]),
            ),
    {
        let leg = self.leg_tiles(from, to);
        proof {
            self.lemma_leg_tiles(from, to);
        }
        let ghost before = self.tiles@;
        let ghost takes = |t: u32| takes_road(before[t as int]);
        let mut laid: Vec<u32> = Vec::new();
        let mut k: usize = 0;
        while k < leg.len()
            invariant
                self.width == old(self).width,
                self.height == old(self).height,
                self.seed == old(self).seed,
                before == old(self).tiles@,
                takes == (|t: u32| takes_road(before[t as int])),
                self.tiles@.len() == before.len(),
                before.len() == self.width * self.height,
                self.width * self.height <= u32::MAX,
                leg@ == old(self).spec_leg_tiles(from, to),
                leg@.no_duplicates(),
                forall|i: int| 0 <= i < leg@.len() ==> #[trigger] leg@[i] < before.len(),
                k <= leg.len(),
                forall|t: int|
                    0 <= t < before.len() ==> #[trigger] self.tiles@[t] == if leg@.take(
                        k as int,
                    ).contains(t as u32) && before[t].terrain == Terrain::Ground {
                        paved(before[t])
                    } else {
                        before[t]
                    },
                laid@ == leg@.take(k as int).filter(takes),
            decreases leg.len() - k,
        {
            let tile = leg[k];
            proof {
                assert(!leg@.take(k as int).contains(tile)) by {
                    if leg@.take(k as int).contains(tile) {
                        let i = choose|i: int|
                            0 <= i < k && #[trigger] leg@.take(k as int)[i] == tile;
                        assert(leg@[i] == leg@[k as int]);
                    }
                }
                assert(self.tiles@[tile as int] == before[tile as int]);
                assert(leg@.take(k as int + 1) =~= leg@.take(k as int).push(tile));
                assert(leg@.take(k as int + 1).drop_last() =~= leg@.take(k as int));
                assert(leg@.take(k as int + 1).last() == tile);
                reveal(Seq::filter);
            }
            let here = self.tiles[tile as usize];
            if here.terrain == Terrain::Ground && !here.road {
                self.tiles.set(tile as usize, Tile { road: true, ..here });
                laid.push(tile);
            }
            proof {
                assert forall|t: int| 0 <= t < before.len() implies #[trigger] self.tiles@[t]
                    == if leg@.take(k as int + 1).contains(t as u32) && before[t].terrain
                    == Terrain::Ground {
                    paved(before[t])
                } else {
                    before[t]
                } by {
                    if t == tile as int {
                        assert(leg@.take(k as int + 1).contains(tile));
                    } else {
                        assert(leg@.take(k as int + 1).contains(t as u32) == leg@.take(
                            k as int,
                        ).contains(t as u32)) by {
                            if leg@.take(k as int + 1).contains(t as u32) {
                                let i = choose|i: int|
                                    0 <= i < k + 1 && #[trigger] leg@.take(k as int + 1)[i]
                                        == t as u32;
                                assert(leg@.take(k as int + 1)[k as int] == tile);
                                assert(i < k);
                                assert(leg@.take(k as int)[i] == t as u32);
                            }
                            if leg@.take(k as int).contains(t as u32) {
                                let i = choose|i: int|
                                    0 <= i < k && #[trigger] leg@.take(k as int)[i] == t as u32;
                                assert(leg@.take(k as int + 1)[i] == t as u32);
                            }
                        }
                    }
                }
            }
            k += 1;
        }
        proof {
            assert(leg@.take(leg@.len() as int) =~= leg@);
        }
        laid
    }

    /// Zone a tile. Returns whether the zone actually changed: a road, water or a tile
    /// with a structure on it takes no zone, and a tile already in the zone is left as it is.
    pub fn set_zone(&mut self, tile: u32, zone: Zone) -> (changed: bool)
        requires
            tile < old(self).tiles@.len(),
        ensures
            changed == (zonable(old(self).tiles@[tile as int]) && old(self).tiles@[tile as int].zone
                != zone),
            final(self).width == old(self).width,
            final(self).height == old(self).height,
            final(self).seed == old(self).seed,
            final(self).tiles@ == if changed {
                old(self).tiles@.update(tile as int, Tile { zone, ..old(self).tiles@[tile as int] })
            } else {
                old(self).tiles@
            },
    {
        let here = self.tiles[tile as usize];
        if here.terrain != Terrain::Ground || here.road || here.building.is_some() {
            return false;
        }
        if here.zone == zone {
            return false;
        }
        self.tiles.set(tile as usize, Tile { zone, ..here });
        true
    }

    /// What this tile still holds, in grams: derived from the seed and net of what has
    /// been taken out. `None` where the ground is barren or worked out.
    pub fn deposit_at(&self, tile: u32) -> (r: Option<Deposit>)
        requires
            self.width > 0,
            tile < self.tiles@.len(),
            self.remains_fit(tile),
        ensures
            r == self.spec_deposit_at(tile),
            r matches Some(left) ==> left.kind < DEPOSIT_KINDS_LEN && left.mass_g == self.left_at(tile),
            r is None ==> self.left_at(tile) == 0,
    {
        let (x, y) = self.coords(tile);
        proof {
            reveal(found);
        }
        let found = match deposit(self.seed, x, y) {
            Some(found) => found,
            None => return None,
        };
        let remaining = found.mass_g - self.tiles[tile as usize].extracted_g;
        if remaining > 0 {
            Some(Deposit { mass_g: remaining, ..found })
        } else {
            None
        }
    }

    /// Take up to `grams` out of a tile, recording the take and returning **only what
    /// was actually there**: never more than the tile held, never less than nothing.
    pub fn extract(&mut self, tile: u32, grams: i64) -> (taken: i64)
        requires
            old(self).width > 0,
            tile < old(self).tiles@.len(),
            old(self).remains_fit(tile),
        ensures
            taken == old(self).spec_take(tile, grams),
            taken == take_of(old(self).left_at(tile), grams as int),
            0 <= taken,
            grams >= 0 ==> taken <= grams,
            final(self).width == old(self).width,
            final(self).height == old(self).height,
            final(self).seed == old(self).seed,
            final(self).tiles@ == old(self).tiles@.update(
                tile as int,
                Tile {
                    extracted_g: (old(self).tiles@[tile as int].extracted_g + taken) as i64,
                    ..old(self).tiles@[tile as int]
                },
            ),
            final(self).spec_deposit_at(tile) == match old(self).spec_deposit_at(tile) {
                Some(left) => if left.mass_g - taken > 0 {
                    Some(Deposit { mass_g: (left.mass_g - taken) as i64, ..left })
                } else {
                    None
                },
                None => None,
            },
            final(self).remains_fit(tile),
            match old(self).found_at(tile) {
                Some(found) => old(self).tiles@[tile as int].extracted_g <= found.mass_g
                    ==> final(self).tiles@[tile as int].extracted_g <= found.mass_g,
                None => final(self).tiles@[tile as int].extracted_g == old(
                    self,
                ).tiles@[tile as int].extracted_g,
            },
    {
        let left = match self.deposit_at(tile) {
            Some(left) => left,
            None => return 0,
        };
        let taken: i64 = if grams <= 0 {
            0
        } else if grams <= left.mass_g {
            grams
        } else {
            left.mass_g
        };
        let here = self.tiles[tile as usize];
        self.tiles.set(tile as usize, Tile { extracted_g: here.extracted_g + taken, ..here });
        taken
    }

    /// Plan where a structure's material would come from, **without touching the ground**.
    ///
    /// Tiles are searched outward from the site for a deposit of the structure's own
    /// family, nearest first and ties by tile number, and each gives what it holds until
    /// `need_g` is covered. Nothing wanted is an empty plan; a world that cannot cover the
    /// need is refused with what it wanted and everything it did find.
    pub fn plan_material(&self, site: u32, family: &str, need_g: i64) -> (r: Result<
        Vec<MaterialLineage>,
        MaterialShortfall,
    >)
        requires
            self.fits(),
            self.width > 0,
            self.all_fit(),
            (self.width - 1) * (self.width - 1) + rows_from(self.height, site as int / self.width as int)
                * rows_from(self.height, site as int / self.width as int) <= i64::MAX,
        ensures
            need_g <= 0 ==> (r matches Ok(plan) && plan@.len() == 0),
            need_g > 0 ==> exists|order: Seq<u32>|
                #[trigger] self.is_search_order(site, family@, order) && match r {
                    Ok(plan) => {
                        &&& lines_of(plan@) == self.spec_plan(order, need_g as int)
                        &&& self.supply(order) >= need_g
                        &&& planned(lines_of(plan@)) == need_g
                    },
                    Err(short) => {
                        &&& short.site == site
                        &&& short.family@ == family@
                        &&& short.wanted_g == need_g
                        &&& short.found_g == self.supply(order)
                        &&& self.supply(order) < need_g
                    },
                },
    {
        if need_g <= 0 {
            return Ok(Vec::new());
        }
        let width = self.width;
        let (sx, sy) = self.coords(site);
        let ghost reach = rows_from(self.height, sy as int);
        let n: u32 = self.tiles.len() as u32;
        // Nearest first: (squared distance, tile, substance), kept in search order.
        let mut found: Vec<(i64, u32, &'static str)> = Vec::new();
        let mut index: u32 = 0;
        while index < n
            invariant
                self.fits(),
                self.width > 0,
                self.all_fit(),
                width == self.width,
                n == self.tiles@.len(),
                sx == site % width,
                sy == site / width,
                reach == rows_from(self.height, sy as int),
                (self.width - 1) * (self.width - 1) + reach * reach <= i64::MAX,
                index <= n,
                forall|i: int, j: int|
                    0 <= i < j < found@.len() ==> nearer(width, site, #[trigger] found@[i].1, #[trigger] found@[j].1),
                forall|i: int|
                    0 <= i < found@.len() ==> {
                        &&& #[trigger] found@[i].1 < index
                        &&& self.holds_family(found@[i].1, family@)
                        &&& found@[i].0 == distance2(width, found@[i].1, site)
                        &&& found@[i].2@ == self.substance_at(found@[i].1)
                    },
                forall|t: u32|
                    t < index && #[trigger] self.holds_family(t, family@) ==> exists|i: int|
                        0 <= i < found@.len() && #[trigger] found@[i].1 == t,
            decreases n - index,
        {
            match self.deposit_at(index) {
                Some(left) => {
                    if same(kind_family(left.kind), family) {
                        let x = index % width;
                        let y = index / width;
                        proof {
                            assert(y < self.height) by (nonlinear_arith)
                                requires
                                    y == index / width,
                                    index < width * self.height,
                                    width > 0,
                            ;
                        }
                        let dx: i64 = x as i64 - sx as i64;
                        let dy: i64 = y as i64 - sy as i64;
                        proof {
                            let w = width as int;
                            let h = self.height as int;
                            assert(dx * dx <= (w - 1) * (w - 1)) by (nonlinear_arith)
                                requires
                                    -(w - 1) <= dx <= w - 1,
                            ;
                            assert(dy * dy <= reach * reach) by (nonlinear_arith)
                                requires
                                    -reach <= dy <= reach,
                            ;
                            assert(dx * dx >= 0 && dy * dy >= 0) by (nonlinear_arith);
                        }
                        let d2: i64 = dx * dx + dy * dy;
                        proof {
                            assert forall|i: int, j: int| 0 <= i < j < found@.len() implies #[trigger] found@[i].0
                                <= #[trigger] found@[j].0 by {
                                assert(nearer(width, site, found@[i].1, found@[j].1));
                            }
                        }
                        // The first entry farther than this tile: ties stay in tile order.
                        let mut lo: usize = 0;
                        let mut hi: usize = found.len();
                        while lo < hi
                            invariant
                                lo <= hi <= found@.len(),
                                forall|i: int, j: int| 0 <= i < j < found@.len() ==> #[trigger] found@[i].0
                                    <= #[trigger] found@[j].0,
                                forall|i: int| 0 <= i < lo ==> #[trigger] found@[i].0 <= d2,
                                forall|i: int| hi <= i < found@.len() ==> #[trigger] found@[i].0 > d2,
                            decreases hi - lo,
                        {
                            let mid = lo + (hi - lo) / 2;
                            if found[mid].0 <= d2 {
                                lo = mid + 1;
                            } else {
                                hi = mid;
                            }
                        }
                        let at = lo;
                        let ghost before = found@;
                        found.insert(at, (d2, index, kind_substance(left.kind)));
                        proof {
                            assert(d2 == distance2(width, index, site));
                            assert forall|i: int, j: int|
                                0 <= i < j < found@.len() implies nearer(
                                    width,
                                    site,
                                    #[trigger] found@[i].1,
                                    #[trigger] found@[j].1,
                                ) by {
                                if j < at {
                                    assert(found@[i] == before[i] && found@[j] == before[j]);
                                } else if j == at {
                                    assert(found@[i] == before[i]);
                                    assert(before[i].0 <= d2);
                                } else if i < at {
                                    assert(found@[i] == before[i] && found@[j] == before[j - 1]);
                                } else if i == at {
                                    assert(found@[j] == before[j - 1]);
                                    assert(before[j - 1].0 > d2);
                                } else {
                                    assert(found@[i] == before[i - 1] && found@[j] == before[j - 1]);
                                }
                            }
                            assert forall|t: u32|
                                t < index + 1 && #[trigger] self.holds_family(t, family@) implies exists|i: int|
                                    0 <= i < found@.len() && #[trigger] found@[i].1 == t by {
                                if t == index {
                                    assert(found@[at as int].1 == t);
                                } else {
                                    let i = choose|i: int| 0 <= i < before.len() && #[trigger] before[i].1 == t;
                                    if i < at {
                                        assert(found@[i].1 == t);
                                    } else {
                                        assert(found@[i + 1].1 == t);
                                    }
                                }
                            }
                        }
                    }
                },
                None => {},
            }
            index += 1;
        }
        let ghost order = found@.map_values(|e: (i64, u32, &'static str)| e.1);
        proof {
            assert forall|t: u32| #[trigger] order.contains(t) <==> (t < self.tiles@.len()
                && self.holds_family(t, family@)) by {
                if order.contains(t) {
                    let i = choose|i: int| 0 <= i < order.len() && order[i] == t;
                    assert(found@[i].1 == t);
                }
                if t < self.tiles@.len() && self.holds_family(t, family@) {
                    let i = choose|i: int| 0 <= i < found@.len() && #[trigger] found@[i].1 == t;
                    assert(order[i] == t);
                }
            }
            assert(self.is_search_order(site, family@, order));
        }
        let mut plan: Vec<MaterialLineage> = Vec::new();
        let mut covered: i64 = 0;
        let mut k: usize = 0;
        proof {
            assert(order.subrange(0, order.len() as int) =~= order);
            assert(lines_of(plan@) =~= Seq::<(u32, Seq<char>, int)>::empty());
            assert(lines_of(plan@) + self.spec_plan(order, need_g as int) =~= self.spec_plan(
                order,
                need_g as int,
            ));
        }
        while k < found.len() && covered < need_g
            invariant
                self.width > 0,
                self.all_fit(),
                n == self.tiles@.len(),
                order == found@.map_values(|e: (i64, u32, &'static str)| e.1),
                forall|i: int|
                    0 <= i < found@.len() ==> {
                        &&& #[trigger] found@[i].1 < n
                        &&& found@[i].2@ == self.substance_at(found@[i].1)
                    },
                k <= found@.len(),
                0 <= covered <= need_g,
                covered == planned(lines_of(plan@)),
                self.spec_plan(order, need_g as int) == lines_of(plan@) + self.spec_plan(
                    order.subrange(k as int, order.len() as int),
                    need_g - covered,
                ),
            decreases found@.len() - k,
        {
            let tile = found[k].1;
            let available: i64 = match self.deposit_at(tile) {
                Some(left) => left.mass_g,
                None => 0,
            };
            let take: i64 = if available < need_g - covered {
                available
            } else {
                need_g - covered
            };
            let ghost rest = order.subrange(k as int, order.len() as int);
            proof {
                assert(rest[0] == tile);
                assert(rest.drop_first() =~= order.subrange(k as int + 1, order.len() as int));
            }
            if take > 0 {
                let ghost earlier = lines_of(plan@);
                plan.push(MaterialLineage { tile, substance: String::from_str(found[k].2), grams: take });
                proof {
                    let line = (tile, self.substance_at(tile), take as int);
                    assert(lines_of(plan@) =~= earlier.push(line));
                    lemma_planned_append(earlier, seq![line]);
                    assert(seq![line].drop_first() =~= Seq::<(u32, Seq<char>, int)>::empty());
                    assert(planned(seq![line].drop_first()) == 0);
                    assert(earlier.push(line) =~= earlier + seq![line]);
                    assert(earlier + (seq![line] + self.spec_plan(rest.drop_first(), need_g - covered - take))
                        =~= earlier.push(line) + self.spec_plan(rest.drop_first(), need_g - covered - take));
                }
                covered = covered + take;
            }
            k += 1;
        }
        proof {
            let rest = order.subrange(k as int, order.len() as int);
            assert(self.spec_plan(rest, need_g - covered) =~= Seq::<(u32, Seq<char>, int)>::empty());
            assert(lines_of(plan@) + Seq::<(u32, Seq<char>, int)>::empty() =~= lines_of(plan@));
            self.lemma_plan_covers(order, need_g as int);
        }
        if covered < need_g {
            return Err(MaterialShortfall {
                site,
                family: String::from_str(family),
                wanted_g: need_g,
                found_g: covered,
            });
        }
        Ok(plan)
    }

    /// Draw a plan's mass out of the ground, line by line, returning what each line
    /// actually took. It takes the plan rather than recomputing it, so the mass a structure
    /// claims is the mass its plan promised.
    #[verifier::spinoff_prover]
    pub fn draw_material(&mut self, plan: &[MaterialLineage]) -> (r: Vec<MaterialLineage>)
        requires
            old(self).width > 0,
            forall|i: int| 0 <= i < plan@.len() ==> #[trigger] plan@[i].tile < old(self).tiles@.len(),
            forall|i: int| 0 <= i < plan@.len() ==> old(self).remains_fit(#[trigger] plan@[i].tile),
        ensures
            final(self).width == old(self).width,
            final(self).height == old(self).height,
            final(self).seed == old(self).seed,
            old(self).all_fit() ==> final(self).all_fit(),
            final(self).tiles@.len() == old(self).tiles@.len(),
            r@.len() == plan@.len(),
            forall|i: int|
                0 <= i < plan@.len() ==> {
                    &&& #[trigger] r@[i].tile == plan@[i].tile
                    &&& r@[i].substance@ == plan@[i].substance@
                    &&& r@[i].grams == drawn(
                        old(self).seed,
                        old(self).width,
                        old(self).tiles@,
                        draws_of(lines_of(plan@)),
                    ).0[i]
                },
            final(self).tiles@ == drawn(
                old(self).seed,
                old(self).width,
                old(self).tiles@,
                draws_of(lines_of(plan@)),
            ).1,
    {
        let ghost lines = draws_of(lines_of(plan@));
        let ghost whole = drawn(self.seed, self.width, self.tiles@, lines);
        let mut out: Vec<MaterialLineage> = Vec::new();
        let mut k: usize = 0;
        proof {
            assert(lines.subrange(0, lines.len() as int) =~= lines);
            assert(Seq::<int>::empty() + whole.0 =~= whole.0);
        }
        while k < plan.len()
            invariant
                self.width == old(self).width,
                self.height == old(self).height,
                self.seed == old(self).seed,
                self.width > 0,
                forall|i: int| 0 <= i < plan@.len() ==> self.remains_fit(#[trigger] plan@[i].tile),
                old(self).all_fit() ==> self.all_fit(),
                self.tiles@.len() == old(self).tiles@.len(),
                lines == draws_of(lines_of(plan@)),
                lines.len() == plan@.len(),
                whole == drawn(old(self).seed, old(self).width, old(self).tiles@, lines),
                forall|i: int| 0 <= i < plan@.len() ==> #[trigger] plan@[i].tile < old(self).tiles@.len(),
                k <= plan@.len(),
                out@.len() == k,
                forall|i: int| 0 <= i < k ==> #[trigger] out@[i].tile == plan@[i].tile,
                forall|i: int| 0 <= i < k ==> #[trigger] out@[i].substance@ == plan@[i].substance@,
                whole.0 == out@.map_values(|line: MaterialLineage| line.grams as int) + drawn(
                    self.seed,
                    self.width,
                    self.tiles@,
                    lines.subrange(k as int, lines.len() as int),
                ).0,
                whole.1 == drawn(
                    self.seed,
                    self.width,
                    self.tiles@,
                    lines.subrange(k as int, lines.len() as int),
                ).1,
            decreases plan@.len() - k,
        {
            let line = &plan[k];
            let ghost rest = lines.subrange(k as int, lines.len() as int);
            let ghost before = self.tiles@;
            let ghost pre: Ground = *self;
            let ghost got = out@.map_values(|line: MaterialLineage| line.grams as int);
            let taken = self.extract(line.tile, line.grams);
            proof {
                assert(rest[0] == (line.tile, line.grams as int));
                assert(rest.drop_first() =~= lines.subrange(k as int + 1, lines.len() as int));
                assert(self.tiles@ =~= before.update(line.tile as int, dug(before[line.tile as int], taken as int)));
                assert forall|i: int| 0 <= i < plan@.len() implies self.remains_fit(#[trigger] plan@[i].tile) by {
                    if plan@[i].tile != line.tile {
                        assert(pre.remains_fit(plan@[i].tile));
                        assert(self.tiles@[plan@[i].tile as int] == pre.tiles@[plan@[i].tile as int]);
                    }
                }
                if old(self).all_fit() {
                    assert forall|t: u32| t < self.tiles@.len() implies #[trigger] self.remains_fit(t) by {
                        if t != line.tile {
                            assert(pre.remains_fit(t));
                            assert(self.tiles@[t as int] == pre.tiles@[t as int]);
                        }
                    }
                }
            }
            let ghost out_before = out@;
            out.push(MaterialLineage { tile: line.tile, substance: line.substance.clone(), grams: taken });
            proof {
                assert forall|i: int| 0 <= i < k + 1 implies #[trigger] out@[i].tile == plan@[i].tile by {
                    if i < k {
                        assert(out@[i] == out_before[i]);
                    }
                }
                assert forall|i: int| 0 <= i < k + 1 implies #[trigger] out@[i].substance@ == plan@[i].substance@ by {
                    if i < k {
                        assert(out@[i] == out_before[i]);
                    }
                }
                let after = drawn(self.seed, self.width, self.tiles@, rest.drop_first());
                assert(out@.map_values(|line: MaterialLineage| line.grams as int) =~= got.push(taken as int));
                assert(got + (seq![taken as int] + after.0) =~= got.push(taken as int) + after.0);
            }
            k += 1;
        }
        proof {
            let rest = lines.subrange(k as int, lines.len() as int);
            assert(rest.len() == 0);
            assert(whole.0 =~= out@.map_values(|line: MaterialLineage| line.grams as int));
            assert(whole == drawn(old(self).seed, old(self).width, old(self).tiles@, draws_of(lines_of(plan@))));
            assert forall|i: int| 0 <= i < plan@.len() implies {
                &&& #[trigger] out@[i].tile == plan@[i].tile
                &&& out@[i].substance@ == plan@[i].substance@
                &&& out@[i].grams == whole.0[i]
            } by {
                assert(out@.map_values(|line: MaterialLineage| line.grams as int)[i] == out@[i].grams);
            }
        }
        out
    }

    /// Whether every step of this ground's audit, with these structures standing on it,
    /// can be counted in grams.
    pub open spec fn audit_counts(&self, buildings: Seq<Building>) -> bool {
        let n = self.tiles@.len() as int;
        &&& forall|k: int| 0 <= k < n ==> #[trigger] ground_step_fits(self.seed, self.width, self.tiles@, k)
        &&& forall|k: int|
            0 <= k < buildings.len() ==> #[trigger] city_step_fits(
                ground_audit(self.seed, self.width, self.tiles@, n).0,
                buildings,
                k,
            )
    }

    /// The world's mass audit, assembled from what is here: the ground's depletion, per
    /// tile, debited at the substance its own deposit derives to, and the mass standing in
    /// the city, per structure, credited at the material it claims. A structure that
    /// cannot be weighed or attributed is **reported, never skipped**.
    pub fn mass_audit(&self, buildings: &[Building]) -> (r: MassAudit)
        requires
            self.tiles@.len() <= u32::MAX,
            self.width > 0,
            self.audit_counts(buildings@),
        ensures
            ({
                let (ground, taken) = ground_audit(self.seed, self.width, self.tiles@, self.tiles@.len() as int);
                let (es, standing, defects) = city_audit(ground, buildings@, buildings@.len() as int);
                &&& r.ledger@ == es
                &&& r.extracted_g == taken
                &&& r.standing_g == standing
                &&& r.held_g == 0
                &&& views(r.defects@) == defects
            }),
            r.extracted_g == tiles_taken(self.tiles@, self.tiles@.len() as int),
            spec_total(r.ledger@) == r.standing_g - r.extracted_g,
            forall|substance: Seq<char>|
                substance != "unattributed"@ ==> #[trigger] spec_of(r.ledger@, "ground:"@ + substance) == -deposit_taken(
                    self.seed,
                    self.width,
                    self.tiles@,
                    substance,
                    self.tiles@.len() as int,
                ),
    {
        let width = self.width;
        let n: u32 = self.tiles.len() as u32;
        let mut ledger = Ledger::new();
        let mut extracted_g: i64 = 0;
        let mut index: u32 = 0;
        while index < n
            invariant
                self.tiles@.len() <= u32::MAX,
                width == self.width,
                width > 0,
                n == self.tiles@.len(),
                self.audit_counts(buildings@),
                index <= n,
                (ledger@, extracted_g as int) == ground_audit(self.seed, width, self.tiles@, index as int),
            decreases n - index,
        {
            let g = self.tiles[index as usize].extracted_g;
            if g != 0 {
                proof {
                    assert(ground_step_fits(self.seed, width, self.tiles@, index as int));
                    reveal(found);
                }
                let account = match deposit(self.seed, index % width, index / width) {
                    Some(d) => ground_account(kind_substance(d.kind)),
                    None => ground_account("unattributed"),
                };
                proof {
                    reveal_strlit("unattributed");
                    assert(account@ == take_account(self.seed, width, index));
                }
                ledger.record(account.as_str(), -g);
                extracted_g = extracted_g + g;
            }
            index += 1;
        }
        let ghost ground = ledger@;
        let mut standing_g: i64 = 0;
        let mut defects: Vec<String> = Vec::new();
        let mut k: usize = 0;
        while k < buildings.len()
            invariant
                self.audit_counts(buildings@),
                ground == ground_audit(self.seed, self.width, self.tiles@, self.tiles@.len() as int).0,
                k <= buildings@.len(),
                (ledger@, standing_g as int, views(defects@)) == city_audit(ground, buildings@, k as int),
            decreases buildings@.len() - k,
        {
            let b = &buildings[k];
            proof {
                assert(city_step_fits(ground, buildings@, k as int));
            }
            let mass = b.mass_g();
            let family = b.material_family();
            match (mass, family) {
                (Some(mass), Some(family)) => {
                    let account = b.mass_account(family);
                    ledger.record(account.as_str(), mass);
                    standing_g = standing_g + mass;
                },
                _ => {
                    let mut line = String::from_str("structure ");
                    line = glue(line, show_u32(b.id).as_str());
                    line = glue(line, " (");
                    line = glue(line, b.kind.name());
                    line = glue(line, ", level ");
                    line = glue(line, show_u32(b.level as u32).as_str());
                    line = glue(line, ") could not be weighed or attributed: ");
                    line = glue(line, if mass.is_none() {
                        "its kind declares no mass"
                    } else {
                        "no material claim and no declared body part"
                    });
                    line = glue(line, " — it is not in the mass audit at all");
                    proof {
                        reveal_strlit("structure ");
                        reveal_strlit(" (");
                        reveal_strlit(", level ");
                        reveal_strlit(") could not be weighed or attributed: ");
                        reveal_strlit("its kind declares no mass");
                        reveal_strlit("no material claim and no declared body part");
                        reveal_strlit(" — it is not in the mass audit at all");
                        assert(line@ =~= unweighed_text(*b));
                    }
                    let ghost before = defects@;
                    defects.push(line);
                    proof {
                        assert(views(defects@) =~= views(before).push(unweighed_text(*b)));
                    }
                },
            }
            k += 1;
        }
        proof {
            let len = self.tiles@.len() as int;
            let ground = ground_audit(self.seed, width, self.tiles@, len).0;
            law_the_ground_audit_counts_every_take(self.seed, width, self.tiles@, len);
            lemma_city_adds_what_stands(ground, buildings@, buildings@.len() as int);
            assert forall|substance: Seq<char>|
                substance != "unattributed"@ implies #[trigger] spec_of(
                    city_audit(ground, buildings@, buildings@.len() as int).0,
                    "ground:"@ + substance,
                ) == -deposit_taken(self.seed, width, self.tiles@, substance, len) by {
                law_a_take_is_debited_to_its_deposit(self.seed, width, self.tiles@, substance, len);
                lemma_city_keeps_the_ground(ground, buildings@, buildings@.len() as int, substance);
            }
        }
        MassAudit { ledger, extracted_g, standing_g, held_g: 0, defects }
    }

    /// Whether a tile has road access through a graph's road index: ground that is road
    /// itself or has a road within two tiles.
    pub open spec fn has_access(&self, index: Map<u32, u32>, tile: u32) -> bool {
        let here = self.tiles@[tile as int];
        here.terrain == Terrain::Ground && (here.road || road_within(
            index,
            self.width as nat,
            self.height as nat,
            tile,
            2,
        ))
    }

    /// Which tiles have road access, tile by tile: ground within two tiles of a road of
    /// `roads`, or a road itself. Water has none.
    pub fn road_access(&self, roads: &RoadGraph) -> (r: Vec<bool>)
        requires
            self.fits(),
            self.width > 0,
            self.width + 2 <= i32::MAX,
            self.height + 2 <= i32::MAX,
        ensures
            r@.len() == self.tiles@.len(),
            forall|t: int| 0 <= t < r@.len() ==> #[trigger] r@[t] == self.has_access(roads.index(), t as u32),
    {
        let n: u32 = self.tiles.len() as u32;
        let mut access: Vec<bool> = Vec::new();
        let mut tile: u32 = 0;
        while tile < n
            invariant
                self.fits(),
                self.width > 0,
                self.width + 2 <= i32::MAX,
                self.height + 2 <= i32::MAX,
                n == self.tiles@.len(),
                tile <= n,
                access@.len() == tile,
                forall|t: int| 0 <= t < tile ==> #[trigger] access@[t] == self.has_access(roads.index(), t as u32),
            decreases n - tile,
        {
            let here = self.tiles[tile as usize];
            let open = if here.terrain != Terrain::Ground {
                false
            } else if here.road {
                true
            } else {
                proof {
                    assert(tile / self.width < self.height) by (nonlinear_arith)
                        requires
                            tile < self.width * self.height,
                            self.width > 0,
                    ;
                }
                let near = roads.nearest_node_within(self.width, self.height, tile, 2);
                proof {
                    let w = self.width as nat;
                    let h = self.height as nat;
                    if near is Some {
                        let tx = tile as int % w as int;
                        let ty = tile as int / w as int;
                        let (x, y) = choose|x: int, y: int|
                            #[trigger] nearest_pick(roads.index(), w, h, tx, ty, 2, x, y)
                                && near->0 == roads.index()[(y * w + x) as u32];
                        assert(hits(roads.index(), w, h, x, y));
                        assert(road_within(roads.index(), w, h, tile, 2));
                    } else {
                        assert(!road_within(roads.index(), w, h, tile, 2));
                    }
                }
                near.is_some()
            };
            access.push(open);
            tile += 1;
        }
        access
    }
}

} // verus!

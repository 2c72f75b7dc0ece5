//! Growth: the city posts build work on zoned tiles that want it, never buildings. How much
//! each zone wants is the economy's to say; here it arrives as how many posts the demand
//! in each zone affords this tick.
use vstd::prelude::*;

use crate::lookup::{first_of, lemma_first_upto};
use crate::sim::city::{build_task_is, lemma_every_kind_weighs, task_on, City};
use crate::sim::task::Task;
use crate::materials::world::{part_of_kind, spec_parts, spec_parts_of, spec_parts_row};
use crate::sim::{derived_claim, prefix_name, spec_building_mass, BuildingKind, MaterialShortfall, Zone};

verus! {

/// How many build tasks the demand in each zone affords this tick.
#[derive(Clone, Copy, Debug, PartialEq, Eq, Structural)]
pub struct Allowance {
    pub residential: u32,
    pub commercial: u32,
    pub industrial: u32,
}

/// The structure that grows in a zone.
pub open spec fn kind_for_zone(zone: Zone) -> BuildingKind {
    match zone {
        Zone::Residential => BuildingKind::Home,
        Zone::Commercial => BuildingKind::Shop,
        _ => BuildingKind::Factory,
    }
}

/// What is left of an allowance for a zone.
pub open spec fn left_for(left: (int, int, int), zone: Zone) -> int {
    match zone {
        Zone::Residential => left.0,
        Zone::Commercial => left.1,
        Zone::Industrial => left.2,
        Zone::Unzoned => 0,
    }
}

/// An allowance once one post in `zone` has spent from it.
pub open spec fn spend(left: (int, int, int), zone: Zone) -> (int, int, int) {
    match zone {
        Zone::Residential => (left.0 - 1, left.1, left.2),
        Zone::Commercial => (left.0, left.1 - 1, left.2),
        Zone::Industrial => (left.0, left.1, left.2 - 1),
        Zone::Unzoned => left,
    }
}

/// Whether a tile may take build work: zoned, powered, with nothing standing and no road
/// on it, no work already posted on it, and road access.
pub open spec fn wants_work(city: City, tile: u32) -> bool {
    let t = city.ground.tiles@[tile as int];
    &&& t.zone != Zone::Unzoned
    &&& t.building is None
    &&& !t.road
    &&& t.powered
    &&& first_of(city.tasks@, task_on(tile)) < 0
    &&& (tile as int) < city.road_access@.len()
    &&& city.road_access@[tile as int]
}

/// Whether the ground can supply a structure of `kind` for `site`: its search outward for
/// the kind's family finds the kind's mass.
pub open spec fn covers(city: City, site: u32, kind: BuildingKind) -> bool {
    exists|order: Seq<u32>|
        #[trigger] city.ground.is_search_order(site, derived_claim(kind)->Some_0.family, order)
            && city.ground.supply(order) >= spec_building_mass(kind, 1)->Some_0
}

/// Growth over the first `k` tiles, in order, from an allowance `a`: how many posts were
/// made, what is left of the allowance, the tiles work was posted on and the tiles it was
/// refused on. A tile that wants work, while fewer than four posts have been made and its
/// zone's allowance lasts, is posted on if the ground covers its structure and refused
/// otherwise.
pub open spec fn growth(city: City, a: (int, int, int), k: int) -> (int, (int, int, int), Seq<u32>, Seq<u32>)
    decreases k,
{
    if k <= 0 {
        (0, a, Seq::empty(), Seq::empty())
    } else {
        let prev = growth(city, a, k - 1);
        let tile = (k - 1) as u32;
        let zone = city.ground.tiles@[k - 1].zone;
        if prev.0 >= 4 || !wants_work(city, tile) || left_for(prev.1, zone) <= 0 {
            prev
        } else if covers(city, tile, kind_for_zone(zone)) {
            (prev.0 + 1, spend(prev.1, zone), prev.2.push(tile), prev.3)
        } else {
            (prev.0, prev.1, prev.2, prev.3.push(tile))
        }
    }
}

/// Whether `t` is the work numbered `id` that growth posts on `site` of `city`.
pub open spec fn grown_task(t: Task, city: City, id: u32, site: u32) -> bool {
    let kind = kind_for_zone(city.ground.tiles@[site as int].zone);
    let need = spec_building_mass(kind, 1)->Some_0;
    let family = derived_claim(kind)->Some_0.family;
    exists|order: Seq<u32>|
        #[trigger] city.ground.is_search_order(site, family, order) && build_task_is(
            t,
            id,
            kind,
            site,
            family,
            need,
            city.ground.spec_plan(order, need as int),
            city.clock.tick,
        )
}

/// Whether `s` is the refusal growth meets on `site` of `city`: the structure's mass
/// wanted, and what the ground's search found.
pub open spec fn grown_refusal(s: MaterialShortfall, city: City, site: u32) -> bool {
    let kind = kind_for_zone(city.ground.tiles@[site as int].zone);
    let need = spec_building_mass(kind, 1)->Some_0;
    let family = derived_claim(kind)->Some_0.family;
    exists|order: Seq<u32>|
        #[trigger] city.ground.is_search_order(site, family, order) && s.site == site && s.family@ == family
            && s.wanted_g == need && s.found_g == city.ground.supply(order) && city.ground.supply(order) < need
}

/// Each structure that grows in a zone declares the material it is made of.
pub proof fn lemma_grown_kinds_claim(zone: Zone)
    ensures
        derived_claim(kind_for_zone(zone)) is Some,
        spec_building_mass(kind_for_zone(zone), 1) matches Some(m) && m > 0,
{
    reveal_strlit("home.walls");
    reveal_strlit("shop.walls");
    reveal_strlit("factory.frame");
    reveal_strlit("home");
    reveal_strlit("shop");
    reveal_strlit("factory");
    reveal_strlit(".");
    let kind = kind_for_zone(zone);
    lemma_every_kind_weighs(kind);
    let i: int = match kind {
        BuildingKind::Home => 0,
        BuildingKind::Shop => 3,
        _ => 6,
    };
    let p = part_of_kind(prefix_name(kind));
    let row = spec_parts()[i];
    assert(row == spec_parts_row(i));
    assert(row.part@.subrange(0, prefix_name(kind).len() as int + 1) =~= prefix_name(kind) + "."@);
    assert(p(row));
    spec_parts().filter_lemma(p);
    assert(spec_parts_of(prefix_name(kind)).contains(row));
}

/// Once four posts are made, growth over further tiles changes nothing.
proof fn lemma_growth_stops(city: City, a: (int, int, int), i: int, k: int)
    requires
        0 <= i <= k,
        growth(city, a, i).0 >= 4,
    ensures
        growth(city, a, k) == growth(city, a, i),
    decreases k - i,
{
    if i < k {
        lemma_growth_stops(city, a, i, k - 1);
    }
}

/// Growth never makes more than four posts, nor spends an allowance below nothing, and
/// the tiles it names come before `k` in order.
proof fn lemma_growth_bounds(city: City, a: (int, int, int), k: int)
    requires
        0 <= k,
        a.0 >= 0 && a.1 >= 0 && a.2 >= 0,
    ensures
        0 <= growth(city, a, k).0 <= 4,
        growth(city, a, k).0 == growth(city, a, k).2.len(),
        growth(city, a, k).1.0 >= 0 && growth(city, a, k).1.1 >= 0 && growth(city, a, k).1.2 >= 0,
        forall|j: int| 0 <= j < growth(city, a, k).2.len() ==> (#[trigger] growth(city, a, k).2[j] as int) < k,
        forall|j: int| 0 <= j < growth(city, a, k).3.len() ==> (#[trigger] growth(city, a, k).3[j] as int) < k,
        growth(city, a, k).3.len() <= k,
    decreases k,
{
    if k > 0 {
        lemma_growth_bounds(city, a, k - 1);
    }
}

/// When no element of `extra` satisfies `p`, adding it after `s` finds nothing new.
proof fn lemma_first_of_append<T>(s: Seq<T>, extra: Seq<T>, p: spec_fn(T) -> bool)
    requires
        forall|j: int| 0 <= j < extra.len() ==> !p(#[trigger] extra[j]),
    ensures
        (first_of(s + extra, p) < 0) == (first_of(s, p) < 0),
{
    let whole = s + extra;
    lemma_first_upto(s, p, s.len() as int);
    lemma_first_upto(whole, p, whole.len() as int);
    if first_of(s, p) >= 0 {
        let k = first_of(s, p);
        assert(whole[k] == s[k]);
    }
    if first_of(whole, p) >= 0 {
        let k = first_of(whole, p);
        if k >= s.len() {
            assert(whole[k] == extra[k - s.len()]);
        } else {
            assert(whole[k] == s[k]);
        }
    }
}

impl City {
    /// Post build work where the city wants to grow: on each tile in order that wants work
    /// (see [`wants_work`]), while fewer than four posts have been made this tick and the
    /// tile's zone has allowance left, a build task for the zone's structure is posted,
    /// planned in full, or refused where the ground cannot cover it. A city in brownout
    /// posts nothing. Gives the zone of each post, in order, so the demand it spent can be
    /// taken off, and the refusals, in order.
    pub fn post_demand_tasks(&mut self, allowance: Allowance) -> (r: (Vec<Zone>, Vec<MaterialShortfall>))
        requires
            old(self).ground.fits(),
            old(self).ground.width > 0,
            old(self).ground.all_fit(),
            (old(self).ground.width - 1) * (old(self).ground.width - 1) + (old(self).ground.height - 1) * (
            old(self).ground.height - 1) <= i64::MAX,
            old(self).next_task_id + 4 < u32::MAX,
        ensures
            ({
                let a = (allowance.residential as int, allowance.commercial as int, allowance.industrial as int);
                let g = growth(*old(self), a, old(self).ground.tiles@.len() as int);
                let n = old(self).tasks@.len();
                if old(self).stats.brownout {
                    &&& r.0@.len() == 0
                    &&& r.1@.len() == 0
                    &&& final(self).tasks@ == old(self).tasks@
                    &&& final(self).next_task_id == old(self).next_task_id
                } else {
                    &&& r.0@ == g.2.map_values(|t: u32| old(self).ground.tiles@[t as int].zone)
                    &&& r.1@.len() == g.3.len()
                    &&& forall|j: int| 0 <= j < g.3.len() ==> grown_refusal(#[trigger] r.1@[j], *old(self), g.3[j])
                    &&& final(self).tasks@.len() == n + g.2.len()
                    &&& final(self).tasks@.take(n as int) == old(self).tasks@
                    &&& forall|j: int|
                        0 <= j < g.2.len() ==> grown_task(
                            #[trigger] final(self).tasks@[n + j],
                            *old(self),
                            (old(self).next_task_id + j) as u32,
                            g.2[j],
                        )
                    &&& final(self).next_task_id == old(self).next_task_id + g.2.len()
                }
            }),
            final(self).ground == old(self).ground,
            final(self).buildings@ == old(self).buildings@,
            final(self).citizens@ == old(self).citizens@,
            final(self).clock == old(self).clock,
            final(self).stats == old(self).stats,
            final(self).next_building_id == old(self).next_building_id,
            final(self).next_citizen_id == old(self).next_citizen_id,
            final(self).starved@ == old(self).starved@,
            final(self).roads == old(self).roads,
            final(self).road_access@ == old(self).road_access@,
    {
        let mut zones: Vec<Zone> = Vec::new();
        let mut refusals: Vec<MaterialShortfall> = Vec::new();
        if self.stats.brownout {
            return (zones, refusals);
        }
        let ghost start = *self;
        let ghost a = (allowance.residential as int, allowance.commercial as int, allowance.industrial as int);
        let ghost n = start.tasks@.len();
        let mut left_r = allowance.residential;
        let mut left_c = allowance.commercial;
        let mut left_i = allowance.industrial;
        let mut posted: u32 = 0;
        let count = self.ground.tiles.len();
        let mut tile: usize = 0;
        while tile < count && posted < 4
            invariant
                count == start.ground.tiles@.len(),
                count <= u32::MAX,
                tile <= count,
                start.ground.fits(),
                start.ground.width > 0,
                start.ground.all_fit(),
                (start.ground.width - 1) * (start.ground.width - 1) + (start.ground.height - 1) * (start.ground.height
                    - 1) <= i64::MAX,
                start.next_task_id + 4 < u32::MAX,
                a == (allowance.residential as int, allowance.commercial as int, allowance.industrial as int),
                n == start.tasks@.len(),
                ({
                    let g = growth(start, a, tile as int);
                    &&& posted == g.0
                    &&& (left_r as int, left_c as int, left_i as int) == g.1
                    &&& zones@ == g.2.map_values(|t: u32| start.ground.tiles@[t as int].zone)
                    &&& refusals@.len() == g.3.len()
                    &&& forall|j: int| 0 <= j < g.3.len() ==> grown_refusal(#[trigger] refusals@[j], start, g.3[j])
                    &&& self.tasks@.len() == n + g.2.len()
                    &&& self.tasks@.take(n as int) == start.tasks@
                    &&& forall|j: int|
                        0 <= j < g.2.len() ==> grown_task(
                            #[trigger] self.tasks@[n + j],
                            start,
                            (start.next_task_id + j) as u32,
                            g.2[j],
                        )
                    &&& self.next_task_id == start.next_task_id + g.2.len()
                }),
                self.ground == start.ground,
                self.buildings@ == start.buildings@,
                self.citizens@ == start.citizens@,
                self.clock == start.clock,
                self.stats == start.stats,
                self.next_building_id == start.next_building_id,
                self.next_citizen_id == start.next_citizen_id,
                self.starved@ == start.starved@,
                self.roads == start.roads,
                self.road_access@ == start.road_access@,
            decreases count - tile,
        {
            let ghost g = growth(start, a, tile as int);
            let ghost before = *self;
            let ghost prior_refusals = refusals@;
            proof {
                lemma_growth_bounds(start, a, tile as int);
            }
            let site = tile as u32;
            let t = self.ground.tiles[tile];
            let candidate = t.zone != Zone::Unzoned && t.building.is_none() && !t.road && t.powered;
            let mut wanted = false;
            if candidate {
                let open = self.open_task_at(site).is_some();
                proof {
                    let extra = self.tasks@.subrange(n as int, self.tasks@.len() as int);
                    assert(self.tasks@ =~= start.tasks@ + extra);
                    assert forall|j: int| 0 <= j < extra.len() implies !task_on(site)(#[trigger] extra[j]) by {
                        assert(extra[j] == self.tasks@[n + j]);
                        assert(grown_task(self.tasks@[n + j], start, (start.next_task_id + j) as u32, g.2[j]));
                        assert((g.2[j] as int) < tile);
                    }
                    lemma_first_of_append(start.tasks@, extra, task_on(site));
                }
                wanted = !open && self.has_road_access(site);
            }
            proof {
                assert(wanted == wants_work(start, site));
            }
            if wanted {
                let left = match t.zone {
                    Zone::Residential => left_r,
                    Zone::Commercial => left_c,
                    Zone::Industrial => left_i,
                    Zone::Unzoned => 0,
                };
                if left > 0 {
                    let kind = match t.zone {
                        Zone::Residential => BuildingKind::Home,
                        Zone::Commercial => BuildingKind::Shop,
                        _ => BuildingKind::Factory,
                    };
                    proof {
                        lemma_grown_kinds_claim(t.zone);
                        assert((site as int) / (start.ground.width as int) < start.ground.height) by (nonlinear_arith)
                            requires
                                site < start.ground.width * start.ground.height,
                                start.ground.width > 0,
                        ;
                    }
                    let ghost need = spec_building_mass(kind, 1)->Some_0;
                    let ghost family = derived_claim(kind)->Some_0.family;
                    match self.post_build_task(site, kind) {
                        Ok(_) => {
                            proof {
                                let order = choose|order: Seq<u32>|
                                    #[trigger] before.ground.is_search_order(site, family, order)
                                        && before.ground.supply(order) >= need && build_task_is(
                                        self.tasks@.last(),
                                        before.next_task_id,
                                        kind,
                                        site,
                                        family,
                                        need,
                                        before.ground.spec_plan(order, need as int),
                                        before.clock.tick,
                                    );
                                assert(covers(start, site, kind));
                            }
                            posted = posted + 1;
                            match t.zone {
                                Zone::Residential => left_r = left_r - 1,
                                Zone::Commercial => left_c = left_c - 1,
                                _ => left_i = left_i - 1,
                            }
                            zones.push(t.zone);
                        },
                        Err(short) => {
                            proof {
                                let order0 = choose|order: Seq<u32>|
                                    #[trigger] before.ground.is_search_order(site, family, order) && short.site
                                        == site && short.family@ == family && short.wanted_g == need && short.found_g
                                        == before.ground.supply(order) && before.ground.supply(order) < need;
                                assert forall|order: Seq<u32>| #[trigger]
                                    start.ground.is_search_order(site, family, order) implies start.ground.supply(order)
                                    < need by {
                                    start.ground.law_one_search_order(site, family, order, order0);
                                }
                                assert(!covers(start, site, kind));
                            }
                            refusals.push(short);
                        },
                    }
                }
            }
            proof {
                let g2 = growth(start, a, tile as int + 1);
                assert(zones@ =~= g2.2.map_values(|t: u32| start.ground.tiles@[t as int].zone));
                assert forall|j: int| 0 <= j < g2.3.len() implies grown_refusal(#[trigger] refusals@[j], start, g2.3[j]) by {
                    if j < g.3.len() {
                        assert(refusals@[j] == prior_refusals[j]);
                    }
                }
                assert(self.tasks@.take(n as int) =~= start.tasks@) by {
                    assert(self.tasks@.take(before.tasks@.len() as int) == before.tasks@);
                    assert forall|q: int| 0 <= q < n implies self.tasks@[q] == before.tasks@[q] by {
                        assert(self.tasks@.take(before.tasks@.len() as int)[q] == before.tasks@[q]);
                    }
                }
                assert forall|j: int| 0 <= j < g2.2.len() implies grown_task(
                    #[trigger] self.tasks@[n + j],
                    start,
                    (start.next_task_id + j) as u32,
                    g2.2[j],
                ) by {
                    if j < g.2.len() {
                        assert(self.tasks@.take(before.tasks@.len() as int)[n + j] == before.tasks@[n + j]);
                    }
                }
            }
            tile += 1;
        }
        proof {
            if tile < count {
                lemma_growth_stops(start, a, tile as int, count as int);
            }
        }
        (zones, refusals)
    }
}

} // verus!

//! The city: its ground, the structures standing on it, the people living in them, the
//! work the city has posted, the shortages it has met, and the readings derived from all
//! of it. The road graph and each tile's road access are derived from the tiles and never
//! stored apart from them.
use vstd::prelude::*;

use crate::sim::citizen::{tile_at, Citizen, CitizenState};
use crate::sim::ground::Ground;
use crate::sim::road::{neighbours_of, road_nodes, RoadGraph};
use crate::materials::ledger::structure_mass_g;
use crate::lookup::{first_of, first_upto, lemma_first_upto};
use crate::materials::schema::first_stays;
use crate::sim::ground::{distance2, draws_of, drawn, lines_of, rows_from};
use crate::sim::power::{beside, consumer_count, plant_tiles, radius_lights, reached_by};
use crate::sim::task::{Task, Verb};
use crate::sim::{
    claim_text,
    derived_claim,
    spec_building_mass,
    Building,
    BuildingKind,
    Clock,
    MaterialClaim,
    MaterialShortfall,
    RetirementReason,
    Starved,
    Stats,
    Terrain,
    Tile,
    Zone,
    BUILD_TICKS,
    POWER_PER_PLANT,
};

verus! {

/// The city.
#[derive(Debug)]
pub struct City {
    pub ground: Ground,
    pub buildings: Vec<Building>,
    pub citizens: Vec<Citizen>,
    pub clock: Clock,
    pub stats: Stats,
    pub next_building_id: u32,
    pub next_citizen_id: u32,
    /// Open and claimed work.
    pub tasks: Vec<Task>,
    pub next_task_id: u32,
    /// Where the city is short of material, one reading per district and family.
    pub starved: Vec<Starved>,
    /// Derived from the tiles: rebuilt after any road change.
    pub roads: RoadGraph,
    /// Derived from the tiles and the roads: whether each tile has road access.
    pub road_access: Vec<bool>,
}

/// Whether a tile is road.
pub open spec fn is_road_tile() -> spec_fn(Tile) -> bool {
    |t: Tile| t.road
}

/// Whether a tile is powered.
pub open spec fn is_powered_tile() -> spec_fn(Tile) -> bool {
    |t: Tile| t.powered
}

/// Whether a tile is zoned and unpowered.
pub open spec fn is_dark_zone() -> spec_fn(Tile) -> bool {
    |t: Tile| t.zone != Zone::Unzoned && !t.powered
}

/// Whether a tile is zoned.
pub open spec fn is_zoned_tile() -> spec_fn(Tile) -> bool {
    |t: Tile| t.zone != Zone::Unzoned
}

/// Whether a tile is zoned and powered.
pub open spec fn is_lit_zone() -> spec_fn(Tile) -> bool {
    |t: Tile| t.zone != Zone::Unzoned && t.powered
}

/// Whether a tile is unpowered.
pub open spec fn is_unpowered_tile() -> spec_fn(Tile) -> bool {
    |t: Tile| !t.powered
}

/// Whether a tile is unpowered and unzoned.
pub open spec fn is_dark_open_ground() -> spec_fn(Tile) -> bool {
    |t: Tile| t.zone == Zone::Unzoned && !t.powered
}

/// Counting what satisfies either of two exclusive tests counts what satisfies each.
proof fn lemma_split_count(s: Seq<Tile>, p: spec_fn(Tile) -> bool, q: spec_fn(Tile) -> bool, r: spec_fn(Tile) -> bool)
    requires
        forall|t: Tile| #[trigger] r(t) == (p(t) || q(t)),
        forall|t: Tile| !(#[trigger] p(t) && q(t)),
    ensures
        s.filter(p).len() + s.filter(q).len() == s.filter(r).len(),
    decreases s.len(),
{
    reveal(Seq::filter);
    if s.len() > 0 {
        lemma_split_count(s.drop_last(), p, q, r);
        let x = s.last();
        assert(r(x) == (p(x) || q(x)));
        assert(!(p(x) && q(x)));
    }
}

/// The law of the dark-zone count: it counts the zoned tiles that are not powered, and no
/// others. With the zoned tiles that are powered it makes up every zoned tile, and it is
/// never more than the tiles without power.
pub proof fn law_only_dark_zoned_tiles_count(
    tiles: Seq<Tile>,
    bs: Seq<Building>,
    cs: Seq<Citizen>,
    brownout: bool,
    commute_failures: u32,
)
    requires
        tiles.len() <= u32::MAX,
    ensures
        recounted(tiles, bs, cs, brownout, commute_failures).unpowered_zoned + tiles.filter(is_lit_zone()).len()
            == tiles.filter(is_zoned_tile()).len(),
        recounted(tiles, bs, cs, brownout, commute_failures).unpowered_zoned <= tiles.filter(is_unpowered_tile()).len(),
{
    tiles.lemma_filter_len(is_dark_zone());
    lemma_split_count(tiles, is_dark_zone(), is_lit_zone(), is_zoned_tile());
    lemma_split_count(tiles, is_dark_zone(), is_dark_open_ground(), is_unpowered_tile());
}


/// Whether a tile is not road.
pub open spec fn is_open_tile() -> spec_fn(Tile) -> bool {
    |t: Tile| !t.road
}

/// Every tile.
pub open spec fn any_tile() -> spec_fn(Tile) -> bool {
    |t: Tile| true
}

/// Counting what passes a test every element passes counts every element.
proof fn lemma_count_all(s: Seq<Tile>)
    ensures
        s.filter(any_tile()).len() == s.len(),
    decreases s.len(),
{
    reveal(Seq::filter);
    if s.len() > 0 {
        lemma_count_all(s.drop_last());
    }
}

/// The law of the tile counts: the road tiles and the tiles that are not road make up the
/// map, and so do the powered tiles and the unpowered ones.
pub proof fn law_the_tile_counts_cover_the_map(
    tiles: Seq<Tile>,
    bs: Seq<Building>,
    cs: Seq<Citizen>,
    brownout: bool,
    commute_failures: u32,
)
    requires
        tiles.len() <= u32::MAX,
    ensures
        recounted(tiles, bs, cs, brownout, commute_failures).road_tiles + tiles.filter(is_open_tile()).len() == tiles.len(),
        recounted(tiles, bs, cs, brownout, commute_failures).powered_tiles + tiles.filter(is_unpowered_tile()).len()
            == tiles.len(),
{
    tiles.lemma_filter_len(is_road_tile());
    tiles.lemma_filter_len(is_powered_tile());
    lemma_count_all(tiles);
    lemma_split_count(tiles, is_road_tile(), is_open_tile(), any_tile());
    lemma_split_count(tiles, is_powered_tile(), is_unpowered_tile(), any_tile());
}

/// Whether a structure is standing and of `kind`.
pub open spec fn standing_of(kind: BuildingKind) -> spec_fn(Building) -> bool {
    |b: Building| b.retired is None && b.kind == kind
}

/// Whether a structure is retired.
pub open spec fn is_retired() -> spec_fn(Building) -> bool {
    |b: Building| b.retired is Some
}

/// Whether a citizen is at work: has a job and is not out of work.
pub open spec fn is_employed() -> spec_fn(Citizen) -> bool {
    |c: Citizen| c.work is Some && c.state != CitizenState::Unemployed
}

/// The jobs the standing structures offer: every standing structure but a plant, at its
/// capacity.
pub open spec fn jobs_in(bs: Seq<Building>) -> int
    decreases bs.len(),
{
    if bs.len() == 0 {
        0
    } else {
        let b = bs.last();
        jobs_in(bs.drop_last()) + if b.retired is None && b.kind != BuildingKind::PowerPlant {
            b.kind.spec_capacity() * (if b.level == 0 {
                1
            } else {
                b.level as int
            })
        } else {
            0
        }
    }
}

/// The readings a recount makes of a city: counts of its tiles, its structures by kind,
/// the jobs they offer, and its people at work and out of it. Brownout and commute
/// failures are carried over; the count of full agents starts again from nothing.
pub open spec fn recounted(
    tiles: Seq<Tile>,
    bs: Seq<Building>,
    cs: Seq<Citizen>,
    brownout: bool,
    commute_failures: u32,
) -> Stats {
    let population = cs.len();
    let employed = cs.filter(is_employed()).len();
    Stats {
        population: population as u32,
        homes: bs.filter(standing_of(BuildingKind::Home)).len() as u32,
        shops: bs.filter(standing_of(BuildingKind::Shop)).len() as u32,
        factories: bs.filter(standing_of(BuildingKind::Factory)).len() as u32,
        power_plants: bs.filter(standing_of(BuildingKind::PowerPlant)).len() as u32,
        retired_buildings: bs.filter(is_retired()).len() as u32,
        jobs: jobs_in(bs) as u32,
        employed: employed as u32,
        unemployed: (population - employed) as u32,
        road_tiles: tiles.filter(is_road_tile()).len() as u32,
        powered_tiles: tiles.filter(is_powered_tile()).len() as u32,
        unpowered_zoned: tiles.filter(is_dark_zone()).len() as u32,
        commute_failures,
        full_agents: 0,
        brownout,
    }
}

/// Whether every running total of the jobs on offer can be counted.
pub open spec fn jobs_fit(bs: Seq<Building>) -> bool {
    forall|k: int| 0 <= k <= bs.len() ==> #[trigger] jobs_in(bs.take(k)) <= u32::MAX
}

/// Whether `g` is the road graph of a `width × height` grid of `tiles`: a node per road
/// tile in row-major order, each with its road neighbours in step order.
pub open spec fn graph_of(g: RoadGraph, width: u32, height: u32, tiles: Seq<Tile>) -> bool {
    &&& g.wf_in(width as nat, height as nat)
    &&& g.node_seq() == road_nodes(width as nat, height as nat, tiles)
    &&& g.adjacency().len() == g.node_seq().len()
    &&& forall|i: int|
        0 <= i < g.node_seq().len() ==> #[trigger] g.adjacency()[i] == neighbours_of(
            g.index(),
            width as nat,
            height as nat,
            g.node_seq()[i],
        )
}

/// Whether a tile can take a structure: ground with no road and nothing standing.
pub open spec fn buildable(t: Tile) -> bool {
    t.terrain == Terrain::Ground && !t.road && t.building is None
}

/// Whether a citizen lives or works in the structure at `index`.
pub open spec fn tied_to(c: Citizen, index: u32) -> bool {
    c.home == Some(index) || c.work == Some(index)
}

/// Whether `after` is `before` turned out of a structure that was retired: out of work
/// and going nowhere, and otherwise the same citizen.
pub open spec fn turned_out(after: Citizen, before: Citizen) -> bool {
    &&& after.state == CitizenState::Unemployed
    &&& after.path@.len() == 0
    &&& after.id == before.id
    &&& after.home == before.home
    &&& after.work == before.work
    &&& after.task == before.task
    &&& after.path_cursor == before.path_cursor
    &&& after.step_quarters == before.step_quarters
    &&& after.born_tick == before.born_tick
    &&& after.ready == before.ready
}

/// Every kind of structure declares a mass, and more than nothing.
pub proof fn lemma_every_kind_weighs(kind: BuildingKind)
    ensures
        spec_building_mass(kind, 1) matches Some(m) && m > 0,
{
    reveal_strlit("home");
    reveal_strlit("shop");
    reveal_strlit("factory");
    reveal_strlit("power plant");
}

/// What a structure of `kind` costs to build, in labour.
pub open spec fn build_work(kind: BuildingKind) -> i64 {
    match kind {
        BuildingKind::Home => 120i64,
        BuildingKind::Shop => 240,
        BuildingKind::Factory => 400,
        BuildingKind::PowerPlant => 1_800,
    }
}

/// Whether `t` is the build task numbered `id` for a structure of `kind` on `site`, wanting
/// `need` grams of `family` planned as `plan`, opened at `tick`, unclaimed, with its kind's
/// declared work to do.
pub open spec fn build_task_is(
    t: Task,
    id: u32,
    kind: BuildingKind,
    site: u32,
    family: Seq<char>,
    need: i64,
    plan: Seq<(u32, Seq<char>, int)>,
    tick: u64,
) -> bool {
    &&& t.id == id
    &&& t.verb == Verb::Build
    &&& t.kind == kind
    &&& t.site == site
    &&& t.family@ == family
    &&& t.requires_g == need
    &&& lines_of(t.material@) == plan
    &&& t.work_remaining == build_work(kind)
    &&& t.claimed_by is None
    &&& t.opened_tick == tick
}

/// Whether a citizen lives in the structure at `index`.
pub open spec fn home_is(index: u32) -> spec_fn(Citizen) -> bool {
    |c: Citizen| c.home == Some(index)
}

/// Whether a citizen works at the structure at `index`.
pub open spec fn work_is(index: u32) -> spec_fn(Citizen) -> bool {
    |c: Citizen| c.work == Some(index)
}

/// Whether a citizen is free to take a job: none yet, and settled.
pub open spec fn is_free() -> spec_fn(Citizen) -> bool {
    |c: Citizen| c.work is None && c.ready
}

/// How many people a structure holds.
pub open spec fn capacity_of(b: Building) -> int {
    b.kind.spec_capacity() * (if b.level == 0 {
        1
    } else {
        b.level as int
    })
}

/// Whether a structure is standing and finished by `tick`.
pub open spec fn ready_at(b: Building, tick: u64) -> bool {
    b.retired is None && tick >= b.ready_tick
}

/// `n` copies of `x`, or none when `n` is not positive.
pub open spec fn copies(x: u32, n: int) -> Seq<u32> {
    Seq::new(if n > 0 { n as nat } else { 0 }, |_i: int| x)
}

/// The homes new residents are settled into, one entry per resident: each ready home of
/// the first `n` structures, in order, filled to its capacity.
pub open spec fn homes_to_fill(bs: Seq<Building>, cs: Seq<Citizen>, tick: u64, n: int) -> Seq<u32>
    decreases n,
{
    if n <= 0 {
        Seq::empty()
    } else {
        let b = bs[n - 1];
        homes_to_fill(bs, cs, tick, n - 1) + if ready_at(b, tick) && b.kind == BuildingKind::Home {
            copies((n - 1) as u32, capacity_of(b) - cs.filter(home_is((n - 1) as u32)).len())
        } else {
            Seq::empty()
        }
    }
}

/// The job openings, one entry per vacancy: each ready workplace of the first `n`
/// structures, in order, with as many entries as it is short of workers.
pub open spec fn job_slots(bs: Seq<Building>, cs: Seq<Citizen>, tick: u64, n: int) -> Seq<u32>
    decreases n,
{
    if n <= 0 {
        Seq::empty()
    } else {
        let b = bs[n - 1];
        job_slots(bs, cs, tick, n - 1) + if ready_at(b, tick) && b.kind != BuildingKind::PowerPlant
            && b.kind != BuildingKind::Home {
            copies((n - 1) as u32, capacity_of(b) - cs.filter(work_is((n - 1) as u32)).len())
        } else {
            Seq::empty()
        }
    }
}

/// Whether `after` is `before` hired into the structure at `work`: sent home to set off
/// from there, with no route yet, and settled.
pub open spec fn hired(after: Citizen, before: Citizen, work: u32) -> bool {
    &&& after.id == before.id
    &&& after.home == before.home
    &&& after.work == Some(work)
    &&& after.task == before.task
    &&& after.state == CitizenState::AtHome
    &&& after.path@.len() == 0
    &&& after.path_cursor == 0
    &&& after.step_quarters == 0
    &&& after.born_tick == before.born_tick
    &&& after.ready
}

/// Whether `c` is a new resident numbered `id` of the structure at `home`, born at `tick`
/// and settled.
pub open spec fn settled_in(c: Citizen, id: int, home: u32, tick: u64) -> bool {
    &&& c.id == id
    &&& c.home == Some(home)
    &&& c.work is None
    &&& c.task is None
    &&& c.state == CitizenState::Unemployed
    &&& c.path@.len() == 0
    &&& c.path_cursor == 0
    &&& c.step_quarters == 0
    &&& c.born_tick == tick
    &&& c.ready
}

/// Whether `c` is a new resident numbered `id` of the structure at `home`, born at `tick`
/// and not yet settled.
pub open spec fn born_in(c: Citizen, id: int, home: u32, tick: u64) -> bool {
    &&& c.id == id
    &&& c.home == Some(home)
    &&& c.work is None
    &&& c.task is None
    &&& c.state == CitizenState::Unemployed
    &&& c.path@.len() == 0
    &&& c.path_cursor == 0
    &&& c.step_quarters == 0
    &&& c.born_tick == tick
    &&& !c.ready
}

/// Whether a citizen is idle and may take build work: settled, with no job and no task,
/// at home or out of work, and with a home to set off from.
pub open spec fn idle(c: Citizen) -> bool {
    &&& c.ready
    &&& c.work is None
    &&& c.task is None
    &&& (c.state == CitizenState::AtHome || c.state == CitizenState::Unemployed)
    &&& c.home is Some
}

/// Whether task `a` comes before task `b` for a citizen living at `home`: nearer, and
/// between two at the same distance the lower id.
pub open spec fn task_before(width: u32, home: u32, a: Task, b: Task) -> bool {
    ||| distance2(width, a.site, home) < distance2(width, b.site, home)
    ||| (distance2(width, a.site, home) == distance2(width, b.site, home) && a.id < b.id)
}

/// The task a citizen living at `home` picks among the first `n` tasks, given whom each
/// is claimed by: the first open task that no earlier open task comes before.
pub open spec fn pick_upto(tasks: Seq<Task>, claims: Seq<Option<u32>>, width: u32, home: u32, n: int) -> Option<int>
    decreases n,
{
    if n <= 0 {
        None
    } else {
        let best = pick_upto(tasks, claims, width, home, n - 1);
        if claims[n - 1] is None && (best is None || task_before(width, home, tasks[n - 1], tasks[best->0])) {
            Some(n - 1)
        } else {
            best
        }
    }
}

/// Whether a task has the id `id`.
pub open spec fn id_is(id: u32) -> spec_fn(Task) -> bool {
    |t: Task| t.id == id
}

/// The first `k` citizens, in order, claiming work: each idle citizen takes the open task
/// nearest its home, and once one finds no open task nobody else looks. Gives whom each
/// task is claimed by, the task each citizen took, and whether the search stopped.
pub open spec fn claiming(width: u32, bs: Seq<Building>, cs: Seq<Citizen>, tasks: Seq<Task>, k: int) -> (
    Seq<Option<u32>>,
    Seq<Option<u32>>,
    bool,
)
    decreases k,
{
    if k <= 0 {
        (tasks.map_values(|t: Task| t.claimed_by), Seq::empty(), false)
    } else {
        let (claims, picks, stopped) = claiming(width, bs, cs, tasks, k - 1);
        let c = cs[k - 1];
        if stopped || !idle(c) {
            (claims, picks.push(None), stopped)
        } else {
            match pick_upto(tasks, claims, width, bs[c.home->0 as int].tile, tasks.len() as int) {
                None => (claims, picks.push(None), true),
                Some(i) => {
                    let id = tasks[i].id;
                    let j = first_of(tasks, id_is(id));
                    (claims.update(j, Some(c.id)), picks.push(Some(id)), false)
                },
            }
        }
    }
}

/// Whether `after` is `before` having taken the task `id`: parked at home with no route,
/// to be routed to the site.
pub open spec fn took(after: Citizen, before: Citizen, id: u32) -> bool {
    &&& after.task == Some(id)
    &&& after.state == CitizenState::AtHome
    &&& after.path@.len() == 0
    &&& after.path_cursor == 0
    &&& after.step_quarters == 0
    &&& after.id == before.id
    &&& after.home == before.home
    &&& after.work == before.work
    &&& after.born_tick == before.born_tick
    &&& after.ready == before.ready
}

/// Whether a citizen has the id `id`.
pub open spec fn citizen_id_is(id: u32) -> spec_fn(Citizen) -> bool {
    |c: Citizen| c.id == id
}

/// One tick of labour on a task: the work the worker who claimed it puts in, if they are
/// at work on it and standing on or beside its site. A claim whose worker is gone goes back
/// to the queue. Gives the task afterwards and whether it is finished.
pub open spec fn worked(width: u32, cs: Seq<Citizen>, t: Task) -> (Task, bool) {
    match t.claimed_by {
        None => (t, false),
        Some(worker) => {
            let k = first_of(cs, citizen_id_is(worker));
            if k < 0 {
                (Task { claimed_by: None, ..t }, false)
            } else {
                let c = cs[k];
                let standing = match tile_at(c.path@, c.path_cursor as int) {
                    Some(tile) => tile,
                    None => t.site,
                };
                if c.state != CitizenState::AtWork || c.task != Some(t.id) || !beside(width, t.site, standing) {
                    (t, false)
                } else {
                    let after = Task { work_remaining: (t.work_remaining - 1) as i64, ..t };
                    (after, after.work_remaining <= 0)
                }
            }
        },
    }
}

/// The ids of the first `n` tasks that a tick of labour finishes, in order.
pub open spec fn finished_ids(width: u32, cs: Seq<Citizen>, ts: Seq<Task>, n: int) -> Seq<u32>
    decreases n,
{
    if n <= 0 {
        Seq::empty()
    } else {
        let rest = finished_ids(width, cs, ts, n - 1);
        if worked(width, cs, ts[n - 1]).1 {
            rest.push(ts[n - 1].id)
        } else {
            rest
        }
    }
}

/// Whether a task is on `site`.
pub open spec fn task_on(site: u32) -> spec_fn(Task) -> bool {
    |t: Task| t.site == site
}

/// Replacing one element by another that the predicate reads alike leaves the count
/// alone.
proof fn lemma_count_update<T>(s: Seq<T>, p: spec_fn(T) -> bool, i: int, x: T)
    requires
        0 <= i < s.len(),
        p(x) == p(s[i]),
    ensures
        s.update(i, x).filter(p).len() == s.filter(p).len(),
    decreases s.len(),
{
    reveal(Seq::filter);
    if i < s.len() - 1 {
        lemma_count_update(s.drop_last(), p, i, x);
        assert(s.update(i, x).drop_last() =~= s.drop_last().update(i, x));
        assert(s.update(i, x).last() == s.last());
    } else {
        assert(s.update(i, x).drop_last() =~= s.drop_last());
    }
}

/// The jobs on offer read only whether each structure stands, its kind and its level.
pub(crate) proof fn lemma_jobs_update(bs: Seq<Building>, i: int, b: Building)
    requires
        0 <= i < bs.len(),
        b.retired is None == bs[i].retired is None,
        b.kind == bs[i].kind,
        b.level == bs[i].level,
    ensures
        jobs_in(bs.update(i, b)) == jobs_in(bs),
    decreases bs.len(),
{
    if i < bs.len() - 1 {
        lemma_jobs_update(bs.drop_last(), i, b);
        assert(bs.update(i, b).drop_last() =~= bs.drop_last().update(i, b));
    } else {
        assert(bs.update(i, b).drop_last() =~= bs.drop_last());
    }
}

/// The counts a recount makes of the structures read only whether each stands, its kind
/// and its level.
pub(crate) proof fn lemma_recount_update(
    tiles: Seq<Tile>,
    bs: Seq<Building>,
    cs: Seq<Citizen>,
    brownout: bool,
    failures: u32,
    i: int,
    b: Building,
)
    requires
        0 <= i < bs.len(),
        b.retired is None == bs[i].retired is None,
        b.kind == bs[i].kind,
        b.level == bs[i].level,
    ensures
        recounted(tiles, bs.update(i, b), cs, brownout, failures) == recounted(tiles, bs, cs, brownout, failures),
{
    lemma_count_update(bs, standing_of(BuildingKind::Home), i, b);
    lemma_count_update(bs, standing_of(BuildingKind::Shop), i, b);
    lemma_count_update(bs, standing_of(BuildingKind::Factory), i, b);
    lemma_count_update(bs, standing_of(BuildingKind::PowerPlant), i, b);
    lemma_count_update(bs, is_retired(), i, b);
    lemma_jobs_update(bs, i, b);
}

/// How many residents and workers each of the first `n` structures has, by position.
fn headcounts(cs: &Vec<Citizen>, n: usize) -> (r: (Vec<u32>, Vec<u32>))
    requires
        cs@.len() <= u32::MAX,
        n <= u32::MAX,
    ensures
        r.0@.len() == n,
        r.1@.len() == n,
        forall|i: int| 0 <= i < n ==> #[trigger] r.0@[i] == cs@.filter(home_is(i as u32)).len(),
        forall|i: int| 0 <= i < n ==> #[trigger] r.1@[i] == cs@.filter(work_is(i as u32)).len(),
{
    let mut residents: Vec<u32> = Vec::new();
    let mut workers: Vec<u32> = Vec::new();
    while residents.len() < n
        invariant
            residents@.len() == workers@.len(),
            residents@.len() <= n,
            forall|i: int| 0 <= i < residents@.len() ==> #[trigger] residents@[i] == 0,
            forall|i: int| 0 <= i < workers@.len() ==> #[trigger] workers@[i] == 0,
        decreases n - residents@.len(),
    {
        residents.push(0);
        workers.push(0);
    }
    let mut k: usize = 0;
    proof {
        assert(cs@.take(0) =~= Seq::<Citizen>::empty());
    }
    while k < cs.len()
        invariant
            cs@.len() <= u32::MAX,
            n <= u32::MAX,
            residents@.len() == n,
            workers@.len() == n,
            k <= cs@.len(),
            forall|i: int| 0 <= i < n ==> #[trigger] residents@[i] == cs@.take(k as int).filter(home_is(i as u32)).len(),
            forall|i: int| 0 <= i < n ==> #[trigger] workers@[i] == cs@.take(k as int).filter(work_is(i as u32)).len(),
        decreases cs@.len() - k,
    {
        proof {
            assert forall|i: int| 0 <= i < n implies cs@.take(k as int + 1).filter(#[trigger] home_is(i as u32)).len()
                == cs@.take(k as int).filter(home_is(i as u32)).len() + if home_is(i as u32)(cs@[k as int]) { 1int } else { 0int }
                && cs@.take(k as int + 1).filter(home_is(i as u32)).len() <= k + 1 by {
                lemma_count_step(cs@, home_is(i as u32), k as int);
            }
            assert forall|i: int| 0 <= i < n implies cs@.take(k as int + 1).filter(#[trigger] work_is(i as u32)).len()
                == cs@.take(k as int).filter(work_is(i as u32)).len() + if work_is(i as u32)(cs@[k as int]) { 1int } else { 0int }
                && cs@.take(k as int + 1).filter(work_is(i as u32)).len() <= k + 1 by {
                lemma_count_step(cs@, work_is(i as u32), k as int);
            }
        }
        match cs[k].home {
            Some(h) => {
                if (h as usize) < n {
                    let count = residents[h as usize] + 1;
                    residents.set(h as usize, count);
                }
            },
            None => {},
        }
        match cs[k].work {
            Some(w) => {
                if (w as usize) < n {
                    let count = workers[w as usize] + 1;
                    workers.set(w as usize, count);
                }
            },
            None => {},
        }
        proof {
            assert forall|i: int| 0 <= i < n implies #[trigger] residents@[i] == cs@.take(k as int + 1).filter(home_is(i as u32)).len() by {
                let _ = cs@.take(k as int + 1).filter(home_is(i as u32)).len();
            }
            assert forall|i: int| 0 <= i < n implies #[trigger] workers@[i] == cs@.take(k as int + 1).filter(work_is(i as u32)).len() by {
                let _ = cs@.take(k as int + 1).filter(work_is(i as u32)).len();
            }
        }
        k += 1;
    }
    proof {
        assert(cs@.take(cs@.len() as int) =~= cs@);
    }
    (residents, workers)
}

/// Filling more structures' homes never settles fewer people.
proof fn lemma_fill_grows(bs: Seq<Building>, cs: Seq<Citizen>, tick: u64, i: int, n: int)
    requires
        0 <= i <= n,
    ensures
        homes_to_fill(bs, cs, tick, i).len() <= homes_to_fill(bs, cs, tick, n).len(),
    decreases n - i,
{
    if i < n {
        lemma_fill_grows(bs, cs, tick, i, n - 1);
    }
}

/// Whether two tasks are on the same site under the same id.
pub open spec fn same_place(a: Task, b: Task) -> bool {
    a.site == b.site && a.id == b.id
}

/// The pick reads only where each task is and its id.
proof fn lemma_pick_same(a: Seq<Task>, b: Seq<Task>, claims: Seq<Option<u32>>, width: u32, home: u32, n: int)
    requires
        0 <= n <= a.len(),
        a.len() == b.len(),
        forall|i: int| 0 <= i < a.len() ==> same_place(#[trigger] a[i], b[i]),
    ensures
        pick_upto(a, claims, width, home, n) == pick_upto(b, claims, width, home, n),
    decreases n,
{
    if n > 0 {
        lemma_pick_same(a, b, claims, width, home, n - 1);
        lemma_pick_open(a, claims, width, home, n - 1);
        let best = pick_upto(a, claims, width, home, n - 1);
        if best is Some {
            assert(same_place(a[best->0], b[best->0]));
        }
        assert(same_place(a[n - 1], b[n - 1]));
    }
}

/// A pick, when there is one, is among the tasks looked at, and open.
proof fn lemma_pick_open(tasks: Seq<Task>, claims: Seq<Option<u32>>, width: u32, home: u32, n: int)
    ensures
        pick_upto(tasks, claims, width, home, n) matches Some(i) ==> 0 <= i < n && claims[i] is None,
    decreases n,
{
    if n > 0 {
        lemma_pick_open(tasks, claims, width, home, n - 1);
    }
}

/// Once the search has stopped, nobody else takes work and nothing more is claimed.
proof fn lemma_stopped_stays(width: u32, bs: Seq<Building>, cs: Seq<Citizen>, tasks: Seq<Task>, k: int, n: int)
    requires
        0 <= k <= n,
        claiming(width, bs, cs, tasks, k).2,
    ensures
        claiming(width, bs, cs, tasks, n).0 == claiming(width, bs, cs, tasks, k).0,
        claiming(width, bs, cs, tasks, n).1.len() == claiming(width, bs, cs, tasks, k).1.len() + (n - k),
        claiming(width, bs, cs, tasks, n).1.take(claiming(width, bs, cs, tasks, k).1.len() as int)
            == claiming(width, bs, cs, tasks, k).1,
        forall|q: int|
            claiming(width, bs, cs, tasks, k).1.len() <= q < claiming(width, bs, cs, tasks, n).1.len()
                ==> #[trigger] claiming(width, bs, cs, tasks, n).1[q] is None,
        claiming(width, bs, cs, tasks, n).2,
    decreases n - k,
{
    if k < n {
        lemma_stopped_stays(width, bs, cs, tasks, k, n - 1);
        let before = claiming(width, bs, cs, tasks, n - 1).1;
        let after = claiming(width, bs, cs, tasks, n).1;
        assert(after =~= before.push(None));
        assert(after.take(claiming(width, bs, cs, tasks, k).1.len() as int) =~= before.take(
            claiming(width, bs, cs, tasks, k).1.len() as int,
        ));
    }
}

/// The fold's record of picks has one entry per citizen looked at, and its claims one per
/// task.
proof fn lemma_claiming_lengths(width: u32, bs: Seq<Building>, cs: Seq<Citizen>, tasks: Seq<Task>, k: int)
    requires
        0 <= k,
    ensures
        claiming(width, bs, cs, tasks, k).1.len() == k,
        claiming(width, bs, cs, tasks, k).0.len() == tasks.len(),
    decreases k,
{
    if k > 0 {
        lemma_claiming_lengths(width, bs, cs, tasks, k - 1);
        let (claims, picks, stopped) = claiming(width, bs, cs, tasks, k - 1);
        let c = cs[k - 1];
        if !stopped && idle(c) {
            let home = bs[c.home->0 as int].tile;
            lemma_pick_open(tasks, claims, width, home, tasks.len() as int);
            match pick_upto(tasks, claims, width, home, tasks.len() as int) {
                Some(i) => {
                    lemma_first_upto(tasks, id_is(tasks[i].id), tasks.len() as int);
                    assert(id_is(tasks[i].id)(tasks[i]));
                },
                None => {},
            }
        }
    }
}

/// Retiring a structure takes its jobs off the total, and adds none.
proof fn lemma_retire_jobs(bs: Seq<Building>, index: int, retired: Building, k: int)
    requires
        0 <= index < bs.len(),
        0 <= k <= bs.len(),
        retired.retired is Some,
    ensures
        jobs_in(bs.update(index, retired).take(k)) <= jobs_in(bs.take(k)),
        jobs_in(bs.update(index, retired).take(k)) >= 0,
    decreases k,
{
    lemma_jobs_nonnegative(bs.take(k));
    if k > 0 {
        lemma_retire_jobs(bs, index, retired, k - 1);
        assert(bs.update(index, retired).take(k).drop_last() =~= bs.update(index, retired).take(k - 1));
        assert(bs.take(k).drop_last() =~= bs.take(k - 1));
        lemma_jobs_nonnegative(bs.take(k - 1));
    } else {
        assert(bs.update(index, retired).take(0) =~= Seq::<Building>::empty());
    }
}

/// The jobs on offer are never fewer than none.
pub(crate) proof fn lemma_jobs_nonnegative(bs: Seq<Building>)
    ensures
        jobs_in(bs) >= 0,
    decreases bs.len(),
{
    if bs.len() > 0 {
        lemma_jobs_nonnegative(bs.drop_last());
    }
}

/// Counting one more element of a sequence counts it when it qualifies.
proof fn lemma_count_step<T>(s: Seq<T>, p: spec_fn(T) -> bool, i: int)
    requires
        0 <= i < s.len(),
    ensures
        s.take(i + 1).filter(p).len() == s.take(i).filter(p).len() + if p(s[i]) {
            1int
        } else {
            0int
        },
        s.take(i + 1).filter(p).len() <= i + 1,
{
    reveal(Seq::filter);
    assert(s.take(i + 1).drop_last() =~= s.take(i));
    assert(s.take(i + 1).last() == s[i]);
    s.take(i + 1).filter_lemma(p);
}

impl City {
    /// Whether a tile has road access. A tile off the map has none.
    pub fn has_road_access(&self, tile: u32) -> (r: bool)
        ensures
            r == ((tile as int) < self.road_access@.len() && self.road_access@[tile as int]),
    {
        if (tile as usize) < self.road_access.len() {
            self.road_access[tile as usize]
        } else {
            false
        }
    }

    /// One tile.
    pub fn tile(&self, tile: u32) -> (r: &Tile)
        requires
            (tile as int) < self.ground.tiles@.len(),
        ensures
            *r == self.ground.tiles@[tile as int],
    {
        &self.ground.tiles[tile as usize]
    }

    /// One structure, by its position in the record.
    pub fn building(&self, index: u32) -> (r: &Building)
        requires
            (index as int) < self.buildings@.len(),
        ensures
            *r == self.buildings@[index as int],
    {
        &self.buildings[index as usize]
    }

    /// The structure standing on a tile, if any. A structure's **id is not its index**:
    /// ids start at 1 and survive demolition, an index is a position in the record.
    pub fn building_on(&self, tile: u32) -> (r: Option<&Building>)
        requires
            (tile as int) < self.ground.tiles@.len(),
            self.ground.tiles@[tile as int].building matches Some(i) ==> (i as int) < self.buildings@.len(),
        ensures
            r == match self.ground.tiles@[tile as int].building {
                Some(i) => Some(&self.buildings@[i as int]),
                None => None,
            },
    {
        match self.ground.tiles[tile as usize].building {
            Some(index) => Some(&self.buildings[index as usize]),
            None => None,
        }
    }

    /// Where the city is short of material.
    pub fn starved(&self) -> (r: &[Starved])
        ensures
            r@ == self.starved@,
    {
        self.starved.as_slice()
    }

    /// Count everything the statistics read, afresh.
    pub fn recount(&mut self)
        requires
            old(self).ground.tiles@.len() <= u32::MAX,
            old(self).citizens@.len() <= u32::MAX,
            old(self).buildings@.len() <= u32::MAX,
            jobs_fit(old(self).buildings@),
        ensures
            final(self).stats.unpowered_zoned + old(self).ground.tiles@.filter(is_lit_zone()).len()
                == old(self).ground.tiles@.filter(is_zoned_tile()).len(),
            final(self).stats.road_tiles + old(self).ground.tiles@.filter(is_open_tile()).len()
                == old(self).ground.tiles@.len(),
            final(self).stats.powered_tiles + old(self).ground.tiles@.filter(is_unpowered_tile()).len()
                == old(self).ground.tiles@.len(),
            final(self).stats == recounted(
                old(self).ground.tiles@,
                old(self).buildings@,
                old(self).citizens@,
                old(self).stats.brownout,
                old(self).stats.commute_failures,
            ),
            final(self).ground == old(self).ground,
            final(self).buildings@ == old(self).buildings@,
            final(self).citizens@ == old(self).citizens@,
            final(self).clock == old(self).clock,
            final(self).next_building_id == old(self).next_building_id,
            final(self).next_citizen_id == old(self).next_citizen_id,
            final(self).tasks@ == old(self).tasks@,
            final(self).next_task_id == old(self).next_task_id,
            final(self).starved@ == old(self).starved@,
            final(self).roads == old(self).roads,
            final(self).road_access@ == old(self).road_access@,
    {
        let tiles = &self.ground.tiles;
        let mut road_tiles: u32 = 0;
        let mut powered_tiles: u32 = 0;
        let mut unpowered_zoned: u32 = 0;
        let mut t: usize = 0;
        while t < tiles.len()
            invariant
                tiles@.len() <= u32::MAX,
                t <= tiles@.len(),
                road_tiles == tiles@.take(t as int).filter(is_road_tile()).len(),
                powered_tiles == tiles@.take(t as int).filter(is_powered_tile()).len(),
                unpowered_zoned == tiles@.take(t as int).filter(is_dark_zone()).len(),
            decreases tiles@.len() - t,
        {
            proof {
                lemma_count_step(tiles@, is_road_tile(), t as int);
                lemma_count_step(tiles@, is_powered_tile(), t as int);
                lemma_count_step(tiles@, is_dark_zone(), t as int);
            }
            let here = tiles[t];
            if here.road {
                road_tiles = road_tiles + 1;
            }
            if here.powered {
                powered_tiles = powered_tiles + 1;
            }
            if here.zone != Zone::Unzoned && !here.powered {
                unpowered_zoned = unpowered_zoned + 1;
            }
            t += 1;
        }
        proof {
            assert(tiles@.take(tiles@.len() as int) =~= tiles@);
        }
        let bs = &self.buildings;
        let mut homes: u32 = 0;
        let mut shops: u32 = 0;
        let mut factories: u32 = 0;
        let mut power_plants: u32 = 0;
        let mut retired_buildings: u32 = 0;
        let mut jobs: u32 = 0;
        let mut b: usize = 0;
        while b < bs.len()
            invariant
                bs@.len() <= u32::MAX,
                jobs_fit(bs@),
                b <= bs@.len(),
                homes == bs@.take(b as int).filter(standing_of(BuildingKind::Home)).len(),
                shops == bs@.take(b as int).filter(standing_of(BuildingKind::Shop)).len(),
                factories == bs@.take(b as int).filter(standing_of(BuildingKind::Factory)).len(),
                power_plants == bs@.take(b as int).filter(standing_of(BuildingKind::PowerPlant)).len(),
                retired_buildings == bs@.take(b as int).filter(is_retired()).len(),
                jobs == jobs_in(bs@.take(b as int)),
            decreases bs@.len() - b,
        {
            proof {
                lemma_count_step(bs@, standing_of(BuildingKind::Home), b as int);
                lemma_count_step(bs@, standing_of(BuildingKind::Shop), b as int);
                lemma_count_step(bs@, standing_of(BuildingKind::Factory), b as int);
                lemma_count_step(bs@, standing_of(BuildingKind::PowerPlant), b as int);
                lemma_count_step(bs@, is_retired(), b as int);
                assert(bs@.take(b as int + 1).drop_last() =~= bs@.take(b as int));
                assert(jobs_in(bs@.take(b as int + 1)) <= u32::MAX);
            }
            let here = &bs[b];
            if here.retired.is_some() {
                retired_buildings = retired_buildings + 1;
            } else {
                match here.kind {
                    BuildingKind::Home => homes = homes + 1,
                    BuildingKind::Shop => shops = shops + 1,
                    BuildingKind::Factory => factories = factories + 1,
                    BuildingKind::PowerPlant => power_plants = power_plants + 1,
                }
                if here.kind != BuildingKind::PowerPlant {
                    jobs = jobs + here.capacity();
                }
            }
            b += 1;
        }
        proof {
            assert(bs@.take(bs@.len() as int) =~= bs@);
        }
        let cs = &self.citizens;
        let mut employed: u32 = 0;
        let mut c: usize = 0;
        while c < cs.len()
            invariant
                cs@.len() <= u32::MAX,
                c <= cs@.len(),
                employed == cs@.take(c as int).filter(is_employed()).len(),
            decreases cs@.len() - c,
        {
            proof {
                lemma_count_step(cs@, is_employed(), c as int);
            }
            if cs[c].work.is_some() && cs[c].state != CitizenState::Unemployed {
                employed = employed + 1;
            }
            c += 1;
        }
        proof {
            assert(cs@.take(cs@.len() as int) =~= cs@);
        }
        let population = cs.len() as u32;
        let stats = Stats {
            population,
            homes,
            shops,
            factories,
            power_plants,
            retired_buildings,
            jobs,
            employed,
            unemployed: population - employed,
            road_tiles,
            powered_tiles,
            unpowered_zoned,
            commute_failures: self.stats.commute_failures,
            full_agents: 0,
            brownout: self.stats.brownout,
        };
        self.stats = stats;
        proof {
            law_the_tile_counts_cover_the_map(
                old(self).ground.tiles@,
                old(self).buildings@,
                old(self).citizens@,
                old(self).stats.brownout,
                old(self).stats.commute_failures,
            );
            law_only_dark_zoned_tiles_count(
                old(self).ground.tiles@,
                old(self).buildings@,
                old(self).citizens@,
                old(self).stats.brownout,
                old(self).stats.commute_failures,
            );
        }
    }

    /// Whether the city's size, and every count it keeps, can be held.
    pub open spec fn counts_fit(&self) -> bool {
        &&& self.ground.tiles@.len() <= u32::MAX
        &&& self.citizens@.len() <= u32::MAX
        &&& self.buildings@.len() <= u32::MAX
        &&& jobs_fit(self.buildings@)
    }

    /// Rebuild everything derived from the tiles: the road graph, each tile's road access
    /// (ground within two tiles of a road), and the statistics.
    pub fn rebuild_derived(&mut self)
        requires
            old(self).ground.fits(),
            old(self).ground.width > 0,
            old(self).ground.width + 2 <= i32::MAX,
            old(self).ground.height + 2 <= i32::MAX,
            old(self).counts_fit(),
        ensures
            graph_of(final(self).roads, old(self).ground.width, old(self).ground.height, old(self).ground.tiles@),
            final(self).road_access@.len() == old(self).ground.tiles@.len(),
            forall|t: int|
                0 <= t < old(self).ground.tiles@.len() ==> #[trigger] final(self).road_access@[t]
                    == old(self).ground.has_access(final(self).roads.index(), t as u32),
            final(self).stats == recounted(
                old(self).ground.tiles@,
                old(self).buildings@,
                old(self).citizens@,
                old(self).stats.brownout,
                old(self).stats.commute_failures,
            ),
            final(self).ground == old(self).ground,
            final(self).buildings@ == old(self).buildings@,
            final(self).citizens@ == old(self).citizens@,
            final(self).clock == old(self).clock,
            final(self).next_building_id == old(self).next_building_id,
            final(self).next_citizen_id == old(self).next_citizen_id,
            final(self).tasks@ == old(self).tasks@,
            final(self).next_task_id == old(self).next_task_id,
            final(self).starved@ == old(self).starved@,
    {
        self.roads = RoadGraph::rebuild(self.ground.width, self.ground.height, self.ground.tiles.as_slice());
        self.road_access = self.ground.road_access(&self.roads);
        self.recount();
    }

    /// Place a structure directly on a tile: ground with no road and nothing standing,
    /// and for a power plant a tile with road access. Returns the new structure's id, or
    /// `None`, changing nothing, where it cannot stand. The structure claims its kind's
    /// declared material, made no claim on the ground, and is ready `BUILD_TICKS` on.
    pub fn place_building(&mut self, tile: u32, kind: BuildingKind) -> (r: Option<u32>)
        requires
            (tile as int) < old(self).ground.tiles@.len(),
            old(self).next_building_id < u32::MAX,
            old(self).buildings@.len() < u32::MAX,
            old(self).clock.tick + BUILD_TICKS <= u64::MAX,
            old(self).counts_fit(),
            jobs_in(old(self).buildings@) + kind.spec_capacity() <= u32::MAX,
        ensures
            ({
                let here = old(self).ground.tiles@[tile as int];
                let open = buildable(here) && (kind != BuildingKind::PowerPlant || ((tile as int)
                    < old(self).road_access@.len() && old(self).road_access@[tile as int]));
                if open {
                    let index = old(self).buildings@.len();
                    let b = final(self).buildings@[index as int];
                    &&& r == Some(old(self).next_building_id)
                    &&& final(self).next_building_id == old(self).next_building_id + 1
                    &&& final(self).buildings@.len() == index + 1
                    &&& final(self).buildings@.take(index as int) == old(self).buildings@
                    &&& b == (Building {
                        id: old(self).next_building_id,
                        kind,
                        tile,
                        level: 1,
                        built_tick: old(self).clock.tick,
                        ready_tick: (old(self).clock.tick + BUILD_TICKS) as u64,
                        retired: None,
                        retired_tick: None,
                        powered: false,
                        occupants: 0,
                        material_as_built: b.material_as_built,
                        material_from: b.material_from,
                        repair_filed: false,
                    })
                    &&& claim_text(b.material_as_built) == derived_claim(kind)
                    &&& b.material_from@.len() == 0
                    &&& final(self).ground.tiles@ == old(self).ground.tiles@.update(
                        tile as int,
                        Tile { building: Some(index as u32), zone: Zone::Unzoned, ..here },
                    )
                    &&& final(self).stats == recounted(
                        final(self).ground.tiles@,
                        final(self).buildings@,
                        old(self).citizens@,
                        old(self).stats.brownout,
                        old(self).stats.commute_failures,
                    )
                } else {
                    &&& r is None
                    &&& final(self).ground == old(self).ground
                    &&& final(self).buildings@ == old(self).buildings@
                    &&& final(self).next_building_id == old(self).next_building_id
                    &&& final(self).stats == old(self).stats
                }
            }),
            final(self).ground.width == old(self).ground.width,
            final(self).ground.height == old(self).ground.height,
            final(self).ground.seed == old(self).ground.seed,
            final(self).counts_fit(),
            final(self).citizens@ == old(self).citizens@,
            final(self).clock == old(self).clock,
            final(self).next_citizen_id == old(self).next_citizen_id,
            final(self).tasks@ == old(self).tasks@,
            final(self).next_task_id == old(self).next_task_id,
            final(self).starved@ == old(self).starved@,
            final(self).roads == old(self).roads,
            final(self).road_access@ == old(self).road_access@,
    {
        let here = self.ground.tiles[tile as usize];
        if here.terrain != Terrain::Ground || here.road || here.building.is_some() {
            return None;
        }
        if kind == BuildingKind::PowerPlant && !self.has_road_access(tile) {
            return None;
        }
        let id = self.next_building_id;
        self.next_building_id = id + 1;
        let index = self.buildings.len() as u32;
        let tick = self.clock.tick;
        let ghost before = self.buildings@;
        self.buildings.push(
            Building {
                id,
                kind,
                tile,
                level: 1,
                built_tick: tick,
                ready_tick: tick + BUILD_TICKS,
                retired: None,
                retired_tick: None,
                powered: false,
                occupants: 0,
                material_as_built: MaterialClaim::of_kind(kind),
                material_from: Vec::new(),
                repair_filed: false,
            },
        );
        self.ground.tiles.set(tile as usize, Tile { building: Some(index), zone: Zone::Unzoned, ..here });
        proof {
            assert(self.buildings@.take(index as int) =~= before);
            assert(self.buildings@.drop_last() =~= before);
            assert forall|k: int| 0 <= k <= self.buildings@.len() implies #[trigger] jobs_in(self.buildings@.take(k)) <= u32::MAX by {
                if k <= before.len() {
                    assert(self.buildings@.take(k) =~= before.take(k));
                    assert(jobs_fit(before));
                } else {
                    assert(self.buildings@.take(k) =~= self.buildings@);
                    assert(before.take(before.len() as int) =~= before);
                    assert(jobs_fit(before));
                }
            }
        }
        self.recount();
        Some(id)
    }

    /// Demolish whatever stands on a tile. A structure is **retired**, not deleted, with
    /// its reason and the tick recorded, and whoever lived or worked there is turned out
    /// rather than vanishing; its id is returned. Otherwise a road is taken up, or else a
    /// zone is cleared, and `None` is returned.
    pub fn demolish(&mut self, tile: u32, reason: RetirementReason) -> (r: Option<u32>)
        requires
            (tile as int) < old(self).ground.tiles@.len(),
            old(self).ground.tiles@[tile as int].building matches Some(i) ==> (i as int) < old(self).buildings@.len(),
            old(self).ground.fits(),
            old(self).ground.width > 0,
            old(self).ground.width + 2 <= i32::MAX,
            old(self).ground.height + 2 <= i32::MAX,
            old(self).counts_fit(),
        ensures
            ({
                let here = old(self).ground.tiles@[tile as int];
                match here.building {
                    Some(index) => {
                        let b = old(self).buildings@[index as int];
                        &&& r == Some(b.id)
                        &&& final(self).buildings@ == old(self).buildings@.update(
                            index as int,
                            Building { retired: Some(reason), retired_tick: Some(old(self).clock.tick), ..b },
                        )
                        &&& final(self).citizens@.len() == old(self).citizens@.len()
                        &&& forall|i: int|
                            0 <= i < old(self).citizens@.len() ==> if tied_to(old(self).citizens@[i], index) {
                                turned_out(#[trigger] final(self).citizens@[i], old(self).citizens@[i])
                            } else {
                                final(self).citizens@[i] == old(self).citizens@[i]
                            }
                        &&& final(self).ground.tiles@ == old(self).ground.tiles@.update(
                            tile as int,
                            Tile { building: None, ..here },
                        )
                        &&& final(self).stats == recounted(
                            final(self).ground.tiles@,
                            final(self).buildings@,
                            final(self).citizens@,
                            old(self).stats.brownout,
                            old(self).stats.commute_failures,
                        )
                        &&& final(self).roads == old(self).roads
                        &&& final(self).road_access@ == old(self).road_access@
                    },
                    None => {
                        &&& r is None
                        &&& final(self).buildings@ == old(self).buildings@
                        &&& final(self).citizens@ == old(self).citizens@
                        &&& if here.road {
                            &&& final(self).ground.tiles@ == old(self).ground.tiles@.update(
                                tile as int,
                                Tile { road: false, ..here },
                            )
                            &&& graph_of(final(self).roads, old(self).ground.width, old(self).ground.height, final(self).ground.tiles@)
                            &&& final(self).road_access@.len() == old(self).ground.tiles@.len()
                            &&& forall|t: int|
                                0 <= t < old(self).ground.tiles@.len() ==> #[trigger] final(self).road_access@[t]
                                    == final(self).ground.has_access(final(self).roads.index(), t as u32)
                            &&& final(self).stats == recounted(
                                final(self).ground.tiles@,
                                old(self).buildings@,
                                old(self).citizens@,
                                old(self).stats.brownout,
                                old(self).stats.commute_failures,
                            )
                        } else {
                            &&& final(self).ground.tiles@ == if here.zone != Zone::Unzoned {
                                old(self).ground.tiles@.update(tile as int, Tile { zone: Zone::Unzoned, ..here })
                            } else {
                                old(self).ground.tiles@
                            }
                            &&& final(self).stats == old(self).stats
                            &&& final(self).roads == old(self).roads
                            &&& final(self).road_access@ == old(self).road_access@
                        }
                    },
                }
            }),
            final(self).ground.width == old(self).ground.width,
            final(self).ground.height == old(self).ground.height,
            final(self).ground.seed == old(self).ground.seed,
            final(self).clock == old(self).clock,
            final(self).next_building_id == old(self).next_building_id,
            final(self).next_citizen_id == old(self).next_citizen_id,
            final(self).tasks@ == old(self).tasks@,
            final(self).next_task_id == old(self).next_task_id,
            final(self).starved@ == old(self).starved@,
    {
        let here = self.ground.tiles[tile as usize];
        match here.building {
            Some(index) => {
                let tick = self.clock.tick;
                let id = self.buildings[index as usize].id;
                self.buildings[index as usize].retired = Some(reason);
                self.buildings[index as usize].retired_tick = Some(tick);
                let ghost before = self.citizens@;
                let ghost retired_bs = self.buildings@;
                let mut i: usize = 0;
                while i < self.citizens.len()
                    invariant
                        self.ground == old(self).ground,
                        self.buildings@ == retired_bs,
                        self.clock == old(self).clock,
                        self.stats == old(self).stats,
                        self.next_building_id == old(self).next_building_id,
                        self.next_citizen_id == old(self).next_citizen_id,
                        self.tasks@ == old(self).tasks@,
                        self.next_task_id == old(self).next_task_id,
                        self.starved@ == old(self).starved@,
                        self.roads == old(self).roads,
                        self.road_access@ == old(self).road_access@,
                        i <= self.citizens@.len(),
                        self.citizens@.len() == before.len(),
                        forall|j: int|
                            0 <= j < before.len() ==> if j < i && tied_to(before[j], index) {
                                turned_out(#[trigger] self.citizens@[j], before[j])
                            } else {
                                self.citizens@[j] == before[j]
                            },
                    decreases self.citizens@.len() - i,
                {
                    if self.citizens[i].home == Some(index) || self.citizens[i].work == Some(index) {
                        self.citizens[i].state = CitizenState::Unemployed;
                        self.citizens[i].path.clear();

                    }
                    i += 1;
                }
                self.ground.tiles.set(tile as usize, Tile { building: None, ..here });
                proof {
                    let old_bs = old(self).buildings@;
                    let retired = Building {
                        retired: Some(reason),
                        retired_tick: Some(tick),
                        ..old_bs[index as int]
                    };
                    assert(self.buildings@ =~= old_bs.update(index as int, retired));
                    assert forall|k: int| 0 <= k <= self.buildings@.len() implies #[trigger] jobs_in(self.buildings@.take(k)) <= u32::MAX by {
                        lemma_retire_jobs(old_bs, index as int, Building {
                            retired: Some(reason),
                            retired_tick: Some(tick),
                            ..old_bs[index as int]
                        }, k);
                        assert(jobs_fit(old_bs));
                        assert(jobs_in(old_bs.take(k)) <= u32::MAX);
                    }
                }
                self.recount();
                Some(id)
            },
            None => {
                if here.road {
                    self.ground.tiles.set(tile as usize, Tile { road: false, ..here });
                    self.rebuild_derived();
                    return None;
                }
                if here.zone != Zone::Unzoned {
                    self.ground.tiles.set(tile as usize, Tile { zone: Zone::Unzoned, ..here });
                }
                None
            },
        }
    }

    /// The first work posted on a site, if any: one task per site, so two citizens cannot
    /// raise two structures on one tile.
    pub fn open_task_at(&self, site: u32) -> (r: Option<&Task>)
        ensures
            ({
                let k = first_of(self.tasks@, task_on(site));
                if k >= 0 {
                    r == Some(&self.tasks@[k])
                } else {
                    r is None
                }
            }),
    {
        let ghost want = task_on(site);
        let mut i: usize = 0;
        while i < self.tasks.len()
            invariant
                want == task_on(site),
                i <= self.tasks@.len(),
                first_upto(self.tasks@, want, i as int) == -1,
            decreases self.tasks@.len() - i,
        {
            if self.tasks[i].site == site {
                proof {
                    assert(want(self.tasks@[i as int]));
                    assert(first_upto(self.tasks@, want, i as int + 1) == i);
                    first_stays(self.tasks@, want, i as int + 1);
                }
                return Some(&self.tasks[i]);
            }
            i += 1;
        }
        None
    }

    /// Post the work of building a structure of `kind` on `site`, **or refuse and say
    /// why**. The material is planned before anyone is asked to work, and the plan travels
    /// with the task: a task that exists can be paid for, and one that cannot is not posted.
    /// The work is the kind's own declared build cost.
    pub fn post_build_task(&mut self, site: u32, kind: BuildingKind) -> (r: Result<u32, MaterialShortfall>)
        requires
            derived_claim(kind) is Some,
            old(self).ground.fits(),
            old(self).ground.width > 0,
            old(self).ground.all_fit(),
            (old(self).ground.width - 1) * (old(self).ground.width - 1) + rows_from(
                old(self).ground.height,
                site as int / old(self).ground.width as int,
            ) * rows_from(old(self).ground.height, site as int / old(self).ground.width as int) <= i64::MAX,
            old(self).next_task_id < u32::MAX,
        ensures
            ({
                let need = spec_building_mass(kind, 1)->Some_0;
                let family = derived_claim(kind)->Some_0.family;
                exists|order: Seq<u32>|
                    #[trigger] old(self).ground.is_search_order(site, family, order) && match r {
                        Ok(id) => {
                            &&& id == old(self).next_task_id
                            &&& final(self).next_task_id == old(self).next_task_id + 1
                            &&& old(self).ground.supply(order) >= need
                            &&& final(self).tasks@.len() == old(self).tasks@.len() + 1
                            &&& final(self).tasks@.take(old(self).tasks@.len() as int) == old(self).tasks@
                            &&& build_task_is(
                                final(self).tasks@.last(),
                                id,
                                kind,
                                site,
                                family,
                                need,
                                old(self).ground.spec_plan(order, need as int),
                                old(self).clock.tick,
                            )
                        },
                        Err(short) => {
                            &&& short.site == site
                            &&& short.family@ == family
                            &&& short.wanted_g == need
                            &&& short.found_g == old(self).ground.supply(order)
                            &&& old(self).ground.supply(order) < need
                            &&& final(self).tasks@ == old(self).tasks@
                            &&& final(self).next_task_id == old(self).next_task_id
                        },
                    }
            }),
            final(self).ground == old(self).ground,
            final(self).buildings@ == old(self).buildings@,
            final(self).citizens@ == old(self).citizens@,
            final(self).clock == old(self).clock,
            final(self).stats == old(self).stats,
            final(self).next_building_id == old(self).next_building_id,
            final(self).next_citizen_id == old(self).next_citizen_id,
            final(self).starved@ == old(self).starved@,
            final(self).roads == old(self).roads,
            final(self).road_access@ == old(self).road_access@,
    {
        proof {
            lemma_every_kind_weighs(kind);
        }
        let need = structure_mass_g(kind.name(), 1).unwrap();
        let claim = MaterialClaim::of_kind(kind).unwrap();
        let ghost family = derived_claim(kind)->Some_0.family;
        assert(need == spec_building_mass(kind, 1)->Some_0);
        assert(claim.family@ == family);
        let result = self.ground.plan_material(site, claim.family.as_str(), need);
        let ghost order = choose|order: Seq<u32>|
            #[trigger] self.ground.is_search_order(site, family, order) && match result {
                Ok(plan) => lines_of(plan@) == self.ground.spec_plan(order, need as int) && self.ground.supply(
                    order,
                ) >= need,
                Err(short) => short.site == site && short.family@ == family && short.wanted_g == need
                    && short.found_g == self.ground.supply(order) && self.ground.supply(order) < need,
            };
        let plan = match result {
            Ok(plan) => plan,
            Err(short) => {
                proof {
                    assert(old(self).ground.is_search_order(site, family, order));
                }
                return Err(short);
            },
        };
        let id = self.next_task_id;
        self.next_task_id = id + 1;
        let tick = self.clock.tick;
        let ghost before = self.tasks@;
        self.tasks.push(
            Task {
                id,
                verb: Verb::Build,
                kind,
                site,
                family: claim.family,
                requires_g: need,
                material: plan,
                work_remaining: kind.build_cost(),
                claimed_by: None,
                opened_tick: tick,
            },
        );
        proof {
            assert(self.tasks@.take(before.len() as int) =~= before);
            assert(old(self).ground.is_search_order(site, family, order));
            assert(build_task_is(
                self.tasks@.last(),
                id,
                kind,
                site,
                family,
                need,
                old(self).ground.spec_plan(order, need as int),
                old(self).clock.tick,
            ));
        }
        Ok(id)
    }

    /// Build a structure of `kind` on `tile` **out of material the world actually gives
    /// up**, or refuse and say why. The material is planned in full first, so a build that
    /// cannot be covered mines nothing; then the plan is drawn, the structure is placed, and
    /// it records where its mass came from: the plan, line for line. A site that cannot
    /// take the structure once the material is drawn is refused with nothing found.
    pub fn build_with_material(&mut self, tile: u32, kind: BuildingKind) -> (r: Result<u32, MaterialShortfall>)
        requires
            derived_claim(kind) is Some,
            (tile as int) < old(self).ground.tiles@.len(),
            old(self).ground.fits(),
            old(self).ground.width > 0,
            old(self).ground.all_fit(),
            (old(self).ground.width - 1) * (old(self).ground.width - 1) + rows_from(
                old(self).ground.height,
                tile as int / old(self).ground.width as int,
            ) * rows_from(old(self).ground.height, tile as int / old(self).ground.width as int) <= i64::MAX,
            old(self).next_building_id < u32::MAX,
            old(self).buildings@.len() < u32::MAX,
            old(self).clock.tick + BUILD_TICKS <= u64::MAX,
            old(self).counts_fit(),
            jobs_in(old(self).buildings@) + kind.spec_capacity() <= u32::MAX,
        ensures
            ({
                let need = spec_building_mass(kind, 1)->Some_0;
                let family = derived_claim(kind)->Some_0.family;
                exists|order: Seq<u32>|
                    #[trigger] old(self).ground.is_search_order(tile, family, order) && {
                        let plan = old(self).ground.spec_plan(order, need as int);
                        let mid = drawn(old(self).ground.seed, old(self).ground.width, old(self).ground.tiles@, draws_of(plan)).1;
                        let here = mid[tile as int];
                        let open = buildable(here) && (kind != BuildingKind::PowerPlant || ((tile as int)
                            < old(self).road_access@.len() && old(self).road_access@[tile as int]));
                        if old(self).ground.supply(order) < need {
                            &&& r matches Err(short) && short.site == tile && short.family@ == family
                                && short.wanted_g == need && short.found_g == old(self).ground.supply(order)
                            &&& final(self).ground == old(self).ground
                            &&& final(self).buildings@ == old(self).buildings@
                            &&& final(self).next_building_id == old(self).next_building_id
                            &&& final(self).stats == old(self).stats
                        } else if open {
                            let index = old(self).buildings@.len();
                            let b = final(self).buildings@[index as int];
                            &&& r == Ok::<u32, MaterialShortfall>(old(self).next_building_id)
                            &&& final(self).next_building_id == old(self).next_building_id + 1
                            &&& final(self).buildings@.len() == index + 1
                            &&& final(self).buildings@.take(index as int) == old(self).buildings@
                            &&& b.id == old(self).next_building_id && b.kind == kind && b.tile == tile
                            &&& b.level == 1 && b.built_tick == old(self).clock.tick
                            &&& b.ready_tick == old(self).clock.tick + BUILD_TICKS
                            &&& b.retired is None && b.retired_tick is None && !b.powered
                            &&& b.occupants == 0 && !b.repair_filed
                            &&& claim_text(b.material_as_built) == derived_claim(kind)
                            &&& lines_of(b.material_from@) == plan
                            &&& final(self).ground.tiles@ == mid.update(
                                tile as int,
                                Tile { building: Some(index as u32), zone: Zone::Unzoned, ..here },
                            )
                            &&& final(self).stats == recounted(
                                final(self).ground.tiles@,
                                final(self).buildings@,
                                old(self).citizens@,
                                old(self).stats.brownout,
                                old(self).stats.commute_failures,
                            )
                        } else {
                            &&& r matches Err(short) && short.site == tile && short.family@ == family
                                && short.wanted_g == need && short.found_g == 0
                            &&& final(self).ground.tiles@ == mid
                            &&& final(self).buildings@ == old(self).buildings@
                            &&& final(self).next_building_id == old(self).next_building_id
                            &&& final(self).stats == old(self).stats
                        }
                    }
            }),
            final(self).ground.width == old(self).ground.width,
            final(self).ground.height == old(self).ground.height,
            final(self).ground.seed == old(self).ground.seed,
            final(self).citizens@ == old(self).citizens@,
            final(self).clock == old(self).clock,
            final(self).next_citizen_id == old(self).next_citizen_id,
            final(self).tasks@ == old(self).tasks@,
            final(self).next_task_id == old(self).next_task_id,
            final(self).starved@ == old(self).starved@,
            final(self).roads == old(self).roads,
            final(self).road_access@ == old(self).road_access@,
    {
        proof {
            lemma_every_kind_weighs(kind);
        }
        let need = structure_mass_g(kind.name(), 1).unwrap();
        let claim = MaterialClaim::of_kind(kind).unwrap();
        let ghost family = derived_claim(kind)->Some_0.family;
        assert(need == spec_building_mass(kind, 1)->Some_0);
        assert(claim.family@ == family);
        let result = self.ground.plan_material(tile, claim.family.as_str(), need);
        let ghost order = choose|order: Seq<u32>|
            #[trigger] self.ground.is_search_order(tile, family, order) && match result {
                Ok(plan) => lines_of(plan@) == self.ground.spec_plan(order, need as int) && self.ground.supply(
                    order,
                ) >= need,
                Err(short) => short.site == tile && short.family@ == family && short.wanted_g == need
                    && short.found_g == self.ground.supply(order) && self.ground.supply(order) < need,
            };
        let plan = match result {
            Ok(plan) => plan,
            Err(short) => {
                proof {
                    assert(old(self).ground.is_search_order(tile, family, order));
                }
                return Err(short);
            },
        };
        let ghost spec_plan = old(self).ground.spec_plan(order, need as int);
        proof {
            old(self).ground.law_plan_draws_as_promised(tile, family, order, need as int);
            old(self).ground.lemma_plan_lines(order, need as int);
            assert forall|i: int| 0 <= i < plan@.len() implies #[trigger] plan@[i].tile < self.ground.tiles@.len()
                && self.ground.remains_fit(plan@[i].tile) by {
                assert(lines_of(plan@)[i] == spec_plan[i]);
                assert(order.contains(spec_plan[i].0));
                assert(self.ground.holds_family(spec_plan[i].0, family));
                assert(self.ground.is_search_order(tile, family, order));
                if plan@[i].tile >= self.ground.tiles@.len() {
                    assert(!order.contains(plan@[i].tile));
                }
            }
        }
        let drawn_lines = self.ground.draw_material(&plan);
        proof {
            let lines = draws_of(lines_of(plan@));
            assert(lines =~= draws_of(spec_plan));
            assert(lines_of(drawn_lines@) =~= spec_plan) by {
                assert forall|i: int| 0 <= i < spec_plan.len() implies lines_of(drawn_lines@)[i] == spec_plan[i] by {
                    assert(lines_of(plan@)[i] == spec_plan[i]);
                    assert(drawn_lines@[i].tile == plan@[i].tile);
                    assert(drawn_lines@[i].grams == drawn(old(self).ground.seed, old(self).ground.width, old(self).ground.tiles@, lines).0[i]);
                    assert(spec_plan.map_values(|line: (u32, Seq<char>, int)| line.2)[i] == spec_plan[i].2);
                }
            }
        }
        let built = match self.place_building(tile, kind) {
            Some(id) => id,
            None => {
                proof {
                    assert(old(self).ground.is_search_order(tile, family, order));
                }
                return Err(MaterialShortfall { site: tile, family: claim.family, wanted_g: need, found_g: 0 });
            },
        };
        let index = (self.buildings.len() - 1) as usize;
        let ghost placed = self.buildings@;
        self.buildings[index].material_from = drawn_lines;
        proof {
            assert(self.buildings@.take(index as int) =~= placed.take(index as int));
            assert(self.buildings@ =~= placed.update(index as int, self.buildings@[index as int]));
            lemma_recount_update(
                self.ground.tiles@,
                placed,
                old(self).citizens@,
                old(self).stats.brownout,
                old(self).stats.commute_failures,
                index as int,
                self.buildings@[index as int],
            );
            assert(old(self).ground.is_search_order(tile, family, order));
        }
        Ok(built)
    }

    /// Recompute which tiles and structures have power, and record whether the city is in
    /// brownout: a plant's flood lights the roads within its radius of the road nearest it,
    /// every tile beside a lit road is powered and every structure exactly when its tile
    /// is; in brownout nothing is.
    pub fn recompute_power(&mut self)
        requires
            old(self).ground.fits(),
            old(self).ground.width > 0,
            old(self).ground.width + 3 <= i32::MAX,
            old(self).ground.height + 3 <= i32::MAX,
            old(self).roads.wf(),
            forall|i: int| 0 <= i < old(self).buildings@.len() ==> #[trigger] old(self).buildings@[i].tile < old(self).ground.tiles@.len(),
            plant_tiles(old(self).buildings@).len() * POWER_PER_PLANT <= u32::MAX,
            consumer_count(old(self).buildings@) <= u32::MAX,
        ensures
            final(self).stats == (Stats {
                brownout: consumer_count(old(self).buildings@) > plant_tiles(old(self).buildings@).len() * POWER_PER_PLANT,
                ..old(self).stats
            }),
            final(self).ground.width == old(self).ground.width,
            final(self).ground.height == old(self).ground.height,
            final(self).ground.seed == old(self).ground.seed,
            final(self).ground.tiles@.len() == old(self).ground.tiles@.len(),
            forall|t: int|
                0 <= t < old(self).ground.tiles@.len() ==> #[trigger] final(self).ground.tiles@[t] == (Tile {
                    powered: final(self).ground.tiles@[t].powered,
                    ..old(self).ground.tiles@[t]
                }),
            final(self).stats.brownout ==> forall|t: int|
                0 <= t < old(self).ground.tiles@.len() ==> !(#[trigger] final(self).ground.tiles@[t]).powered,
            !final(self).stats.brownout ==> forall|t: int|
                0 <= t < old(self).ground.tiles@.len() && (#[trigger] final(self).ground.tiles@[t]).powered
                    ==> exists|road: u32|
                    #[trigger] beside(old(self).ground.width, road, t as u32) && reached_by(
                        old(self).roads,
                        old(self).ground.width,
                        old(self).ground.height,
                        plant_tiles(old(self).buildings@),
                        road,
                    ),
            !final(self).stats.brownout ==> forall|q: int, t: int|
                0 <= q < plant_tiles(old(self).buildings@).len() && 0 <= t < old(self).ground.tiles@.len()
                    ==> #[trigger] radius_lights(
                    old(self).roads,
                    old(self).ground.width,
                    old(self).ground.height,
                    plant_tiles(old(self).buildings@)[q],
                    final(self).ground.tiles@,
                    t,
                ),
            final(self).buildings@.len() == old(self).buildings@.len(),
            forall|i: int|
                0 <= i < old(self).buildings@.len() ==> #[trigger] final(self).buildings@[i] == (Building {
                    powered: final(self).ground.tiles@[old(self).buildings@[i].tile as int].powered,
                    ..old(self).buildings@[i]
                }),
            final(self).citizens@ == old(self).citizens@,
            final(self).clock == old(self).clock,
            final(self).next_building_id == old(self).next_building_id,
            final(self).next_citizen_id == old(self).next_citizen_id,
            final(self).tasks@ == old(self).tasks@,
            final(self).next_task_id == old(self).next_task_id,
            final(self).starved@ == old(self).starved@,
            final(self).roads == old(self).roads,
            final(self).road_access@ == old(self).road_access@,
    {
        let brownout = self.ground.recompute_power(&mut self.buildings, &self.roads);
        self.stats.brownout = brownout;
    }

    /// A new resident for the structure at `home`: the next citizen id, born now, out of
    /// work and not yet settled.
    fn spawn_citizen(&mut self, home: u32)
        requires
            old(self).next_citizen_id < u32::MAX,
        ensures
            final(self).citizens@.len() == old(self).citizens@.len() + 1,
            final(self).citizens@.take(old(self).citizens@.len() as int) == old(self).citizens@,
            born_in(final(self).citizens@.last(), old(self).next_citizen_id as int, home, old(self).clock.tick),
            final(self).next_citizen_id == old(self).next_citizen_id + 1,
            final(self).ground == old(self).ground,
            final(self).buildings@ == old(self).buildings@,
            final(self).clock == old(self).clock,
            final(self).stats == old(self).stats,
            final(self).next_building_id == old(self).next_building_id,
            final(self).tasks@ == old(self).tasks@,
            final(self).next_task_id == old(self).next_task_id,
            final(self).starved@ == old(self).starved@,
            final(self).roads == old(self).roads,
            final(self).road_access@ == old(self).road_access@,
    {
        let id = self.next_citizen_id;
        self.next_citizen_id = id + 1;
        let ghost before = self.citizens@;
        self.citizens.push(Citizen::new(id, home, self.clock.tick));
        proof {
            assert(self.citizens@.take(before.len() as int) =~= before);
        }
    }

    /// Settle new residents into ready homes, then find work for the jobless.
    ///
    /// Every ready home is filled to its capacity with new citizens, home by home in the
    /// record's order. Then the citizens free to work (no job, and settled before this
    /// pass, so none born in it), in order, take the vacancies of the ready workplaces,
    /// workplace by workplace, one each, until either runs out; a hired citizen sets off
    /// from home with no route yet. Last, everyone is settled.
    pub fn assign_jobs(&mut self)
        requires
            old(self).buildings@.len() <= u32::MAX,
            old(self).citizens@.len() + homes_to_fill(
                old(self).buildings@,
                old(self).citizens@,
                old(self).clock.tick,
                old(self).buildings@.len() as int,
            ).len() <= u32::MAX,
            old(self).next_citizen_id + homes_to_fill(
                old(self).buildings@,
                old(self).citizens@,
                old(self).clock.tick,
                old(self).buildings@.len() as int,
            ).len() <= u32::MAX,
        ensures
            ({
                let bs = old(self).buildings@;
                let cs = old(self).citizens@;
                let tick = old(self).clock.tick;
                let born = homes_to_fill(bs, cs, tick, bs.len() as int);
                let slots = job_slots(bs, cs, tick, bs.len() as int);
                &&& final(self).citizens@.len() == cs.len() + born.len()
                &&& final(self).next_citizen_id == old(self).next_citizen_id + born.len()
                &&& forall|j: int|
                    0 <= j < cs.len() ==> {
                        let rank = cs.take(j).filter(is_free()).len();
                        if is_free()(cs[j]) && rank < slots.len() {
                            hired(#[trigger] final(self).citizens@[j], cs[j], slots[rank as int])
                        } else {
                            final(self).citizens@[j] == (Citizen { ready: true, ..cs[j] })
                        }
                    }
                &&& forall|k: int|
                    0 <= k < born.len() ==> settled_in(
                        #[trigger] final(self).citizens@[cs.len() + k],
                        old(self).next_citizen_id + k,
                        born[k],
                        tick,
                    )
            }),
            final(self).ground == old(self).ground,
            final(self).buildings@ == old(self).buildings@,
            final(self).clock == old(self).clock,
            final(self).stats == old(self).stats,
            final(self).next_building_id == old(self).next_building_id,
            final(self).tasks@ == old(self).tasks@,
            final(self).next_task_id == old(self).next_task_id,
            final(self).starved@ == old(self).starved@,
            final(self).roads == old(self).roads,
            final(self).road_access@ == old(self).road_access@,
    {
        let tick = self.clock.tick;
        let n = self.buildings.len();
        let ghost bs = self.buildings@;
        let ghost cs = self.citizens@;
        let ghost next0 = self.next_citizen_id as int;
        let ghost total = homes_to_fill(bs, cs, tick, n as int);
        let (residents, workers) = headcounts(&self.citizens, n);
        // Settle new residents into every ready home, up to its capacity.
        let mut i: usize = 0;
        while i < n
            invariant
                n == bs.len(),
                n <= u32::MAX,
                self.buildings@ == bs,
                self.clock == old(self).clock,
                tick == self.clock.tick,
                self.ground == old(self).ground,
                self.stats == old(self).stats,
                self.next_building_id == old(self).next_building_id,
                self.tasks@ == old(self).tasks@,
                self.next_task_id == old(self).next_task_id,
                self.starved@ == old(self).starved@,
                self.roads == old(self).roads,
                self.road_access@ == old(self).road_access@,
                residents@.len() == n,
                forall|b: int| 0 <= b < n ==> #[trigger] residents@[b] == cs.filter(home_is(b as u32)).len(),
                total == homes_to_fill(bs, cs, tick, n as int),
                next0 + total.len() <= u32::MAX,
                i <= n,
                self.citizens@.len() == cs.len() + homes_to_fill(bs, cs, tick, i as int).len(),
                self.citizens@.take(cs.len() as int) == cs,
                self.next_citizen_id == next0 + homes_to_fill(bs, cs, tick, i as int).len(),
                forall|k: int|
                    0 <= k < homes_to_fill(bs, cs, tick, i as int).len() ==> born_in(
                        #[trigger] self.citizens@[cs.len() + k],
                        next0 + k,
                        homes_to_fill(bs, cs, tick, i as int)[k],
                        tick,
                    ),
            decreases n - i,
        {
            let ready_home = self.buildings[i].is_ready(tick) && self.buildings[i].kind == BuildingKind::Home;
            let ghost before = homes_to_fill(bs, cs, tick, i as int);
            proof {
                lemma_fill_grows(bs, cs, tick, i as int + 1, n as int);
            }
            if ready_home {
                let capacity = self.buildings[i].capacity();
                let mut have = residents[i];
                let ghost start = have;
                while have < capacity
                    invariant
                        self.buildings@ == bs,
                        self.clock == old(self).clock,
                        tick == self.clock.tick,
                        self.ground == old(self).ground,
                        self.stats == old(self).stats,
                        self.next_building_id == old(self).next_building_id,
                        self.tasks@ == old(self).tasks@,
                        self.next_task_id == old(self).next_task_id,
                        self.starved@ == old(self).starved@,
                        self.roads == old(self).roads,
                        self.road_access@ == old(self).road_access@,
                        start <= have,
                        have <= capacity || have == start,
                        next0 + homes_to_fill(bs, cs, tick, i as int + 1).len() <= u32::MAX,
                        homes_to_fill(bs, cs, tick, i as int + 1) == before + copies(i as u32, capacity - start),
                        self.citizens@.len() == cs.len() + before.len() + (have - start),
                        self.citizens@.take(cs.len() as int) == cs,
                        self.next_citizen_id == next0 + before.len() + (have - start),
                        forall|k: int|
                            0 <= k < before.len() + (have - start) ==> born_in(
                                #[trigger] self.citizens@[cs.len() + k],
                                next0 + k,
                                (before + copies(i as u32, capacity - start))[k],
                                tick,
                            ),
                    decreases capacity - have,
                {
                    let ghost prior = self.citizens@;
                    self.spawn_citizen(i as u32);
                    proof {
                        assert(self.citizens@.take(cs.len() as int) =~= prior.take(cs.len() as int));
                        assert forall|k: int| 0 <= k < before.len() + (have + 1 - start) implies born_in(
                            #[trigger] self.citizens@[cs.len() + k],
                            next0 + k,
                            (before + copies(i as u32, capacity - start))[k],
                            tick,
                        ) by {
                            if k < before.len() + (have - start) {
                                assert(self.citizens@[cs.len() + k] == prior[cs.len() + k]);
                            }
                        }
                    }
                    have = have + 1;
                }
                proof {
                    assert(homes_to_fill(bs, cs, tick, i as int + 1) =~= before + copies(i as u32, capacity - start));
                }
            } else {
                proof {
                    assert(homes_to_fill(bs, cs, tick, i as int + 1) =~= before);
                }
            }
            i += 1;
        }
        let ghost post = self.citizens@;
        // The vacancies of every ready workplace, in order.
        let mut slots: Vec<u32> = Vec::new();
        let mut i: usize = 0;
        while i < n
            invariant
                n == bs.len(),
                n <= u32::MAX,
                self.buildings@ == bs,
                tick == self.clock.tick,
                workers@.len() == n,
                forall|b: int| 0 <= b < n ==> #[trigger] workers@[b] == cs.filter(work_is(b as u32)).len(),
                i <= n,
                slots@ == job_slots(bs, cs, tick, i as int),
            decreases n - i,
        {
            let b = &self.buildings[i];
            let ghost before = slots@;
            if b.is_ready(tick) && b.kind != BuildingKind::PowerPlant && b.kind != BuildingKind::Home {
                let capacity = b.capacity();
                let mut have = workers[i];
                let ghost start = have;
                while have < capacity
                    invariant
                        start <= have,
                        have <= capacity || have == start,
                        slots@ == before + copies(i as u32, have - start),
                    decreases capacity - have,
                {
                    slots.push(i as u32);
                    have = have + 1;
                    proof {
                        assert(slots@ =~= before + copies(i as u32, have - start));
                    }
                }
                proof {
                    assert(copies(i as u32, have - start) =~= copies(i as u32, capacity - start));
                    assert(job_slots(bs, cs, tick, i as int + 1) =~= before + copies(i as u32, capacity - start));
                }
            } else {
                proof {
                    assert(job_slots(bs, cs, tick, i as int + 1) =~= before);
                }
            }
            i += 1;
        }
        // The free citizens take the vacancies in order, and everyone is settled.
        let mut m: usize = 0;
        let mut j: usize = 0;
        while j < self.citizens.len()
            invariant
                self.citizens@.len() == post.len(),
                j <= post.len(),
                m == post.take(j as int).filter(is_free()).len(),
                self.buildings@ == bs,
                self.clock == old(self).clock,
                self.ground == old(self).ground,
                self.stats == old(self).stats,
                self.next_building_id == old(self).next_building_id,
                self.next_citizen_id == next0 + total.len(),
                self.tasks@ == old(self).tasks@,
                self.next_task_id == old(self).next_task_id,
                self.starved@ == old(self).starved@,
                self.roads == old(self).roads,
                self.road_access@ == old(self).road_access@,
                forall|q: int|
                    j <= q < post.len() ==> #[trigger] self.citizens@[q] == post[q],
                forall|q: int|
                    0 <= q < j ==> {
                        let rank = post.take(q).filter(is_free()).len();
                        if is_free()(post[q]) && rank < slots@.len() {
                            hired(#[trigger] self.citizens@[q], post[q], slots@[rank as int])
                        } else {
                            self.citizens@[q] == (Citizen { ready: true, ..post[q] })
                        }
                    },
            decreases post.len() - j,
        {
            proof {
                lemma_count_step(post, is_free(), j as int);
            }
            let ghost prior = self.citizens@;
            if self.citizens[j].work.is_none() && self.citizens[j].ready && m < slots.len() {
                self.citizens[j].work = Some(slots[m]);
                self.citizens[j].state = CitizenState::AtHome;
                self.citizens[j].path.clear();
                self.citizens[j].path_cursor = 0;
                self.citizens[j].step_quarters = 0;
                m = m + 1;
            } else if self.citizens[j].work.is_none() && self.citizens[j].ready {
                m = m + 1;
            }
            self.citizens[j].ready = true;
            proof {
                assert forall|q: int| 0 <= q < j + 1 implies {
                    let rank = post.take(q).filter(is_free()).len();
                    if is_free()(post[q]) && rank < slots@.len() {
                        hired(#[trigger] self.citizens@[q], post[q], slots@[rank as int])
                    } else {
                        self.citizens@[q] == (Citizen { ready: true, ..post[q] })
                    }
                } by {
                    if q < j {
                        assert(self.citizens@[q] == prior[q]);
                    }
                }
            }
            j += 1;
        }
        proof {
            assert forall|q: int| 0 <= q < cs.len() implies post.take(q) == cs.take(q) && post[q] == cs[q] by {
                assert(post.take(cs.len() as int)[q] == post[q]);
                assert(post.take(q) =~= post.take(cs.len() as int).take(q));
            }
            assert forall|k: int| 0 <= k < total.len() implies !is_free()(#[trigger] post[cs.len() + k]) by {
                assert(born_in(post[cs.len() + k], next0 + k, total[k], tick));
            }
        }
    }

    /// The open task nearest `home`, by position in the record: the first open task that
    /// no earlier open task comes before.
    fn nearest_open(&self, home: u32) -> (r: Option<usize>)
        requires
            self.ground.width > 0,
            forall|i: int| 0 <= i < self.tasks@.len() ==> distance2(self.ground.width, #[trigger] self.tasks@[i].site, home) <= i64::MAX,
        ensures
            match r {
                Some(i) => pick_upto(
                    self.tasks@,
                    self.tasks@.map_values(|t: Task| t.claimed_by),
                    self.ground.width,
                    home,
                    self.tasks@.len() as int,
                ) == Some(i as int),
                None => pick_upto(
                    self.tasks@,
                    self.tasks@.map_values(|t: Task| t.claimed_by),
                    self.ground.width,
                    home,
                    self.tasks@.len() as int,
                ) is None,
            },
    {
        let width = self.ground.width;
        let ghost claims = self.tasks@.map_values(|t: Task| t.claimed_by);
        let hx = (home % width) as i64;
        let hy = (home / width) as i64;
        let mut best: Option<(i64, u32, usize)> = None;
        let mut i: usize = 0;
        while i < self.tasks.len()
            invariant
                width == self.ground.width,
                width > 0,
                hx == home as int % width as int,
                hy == home as int / width as int,
                claims == self.tasks@.map_values(|t: Task| t.claimed_by),
                forall|q: int| 0 <= q < self.tasks@.len() ==> distance2(width, #[trigger] self.tasks@[q].site, home) <= i64::MAX,
                i <= self.tasks@.len(),
                match best {
                    Some((d, id, at)) => pick_upto(self.tasks@, claims, width, home, i as int) == Some(at as int)
                        && d == distance2(width, self.tasks@[at as int].site, home) && id == self.tasks@[at as int].id
                        && at < i,
                    None => pick_upto(self.tasks@, claims, width, home, i as int) is None,
                },
            decreases self.tasks@.len() - i,
        {
            let task = &self.tasks[i];
            if !task.is_claimed() {
                let dx: i64 = (task.site % width) as i64 - hx;
                let dy: i64 = (task.site / width) as i64 - hy;
                proof {
                    let d = distance2(width, task.site, home);
                    assert(d == dx * dx + dy * dy);
                    assert(dx * dx >= 0 && dy * dy >= 0) by (nonlinear_arith);
                }
                let distance = dx * dx + dy * dy;
                let better = match best {
                    Some((d, id, _)) => distance < d || (distance == d && task.id < id),
                    None => true,
                };
                if better {
                    best = Some((distance, task.id, i));
                }
            }
            i += 1;
        }
        match best {
            Some((_, _, at)) => Some(at),
            None => None,
        }
    }

    /// Idle hands take the nearest open work, and are parked at home to be routed to it.
    ///
    /// Citizen by citizen, in order, each idle one (settled, with no job and no task, at
    /// home or out of work) takes the open task nearest its home, ties by the lower task
    /// id, and the first task bearing that id is claimed by it. Once one finds no open task,
    /// nobody else looks.
    pub fn claim_tasks(&mut self)
        requires
            old(self).ground.width > 0,
            forall|k: int|
                0 <= k < old(self).citizens@.len() && idle(#[trigger] old(self).citizens@[k]) ==> (old(
                    self,
                ).citizens@[k].home->0 as int) < old(self).buildings@.len(),
            forall|i: int, b: int|
                0 <= i < old(self).tasks@.len() && 0 <= b < old(self).buildings@.len() ==> distance2(
                    old(self).ground.width,
                    #[trigger] old(self).tasks@[i].site,
                    #[trigger] old(self).buildings@[b].tile,
                ) <= i64::MAX,
        ensures
            ({
                let (claims, picks, _) = claiming(
                    old(self).ground.width,
                    old(self).buildings@,
                    old(self).citizens@,
                    old(self).tasks@,
                    old(self).citizens@.len() as int,
                );
                &&& final(self).tasks@.len() == old(self).tasks@.len()
                &&& forall|i: int|
                    0 <= i < old(self).tasks@.len() ==> #[trigger] final(self).tasks@[i] == (Task {
                        claimed_by: claims[i],
                        ..old(self).tasks@[i]
                    })
                &&& final(self).citizens@.len() == old(self).citizens@.len()
                &&& forall|k: int|
                    0 <= k < old(self).citizens@.len() ==> match picks[k] {
                        Some(id) => took(#[trigger] final(self).citizens@[k], old(self).citizens@[k], id),
                        None => final(self).citizens@[k] == old(self).citizens@[k],
                    }
            }),
            final(self).ground == old(self).ground,
            final(self).buildings@ == old(self).buildings@,
            final(self).clock == old(self).clock,
            final(self).stats == old(self).stats,
            final(self).next_building_id == old(self).next_building_id,
            final(self).next_citizen_id == old(self).next_citizen_id,
            final(self).next_task_id == old(self).next_task_id,
            final(self).starved@ == old(self).starved@,
            final(self).roads == old(self).roads,
            final(self).road_access@ == old(self).road_access@,
    {
        let ghost width = self.ground.width;
        let ghost bs = self.buildings@;
        let ghost cs = self.citizens@;
        let ghost ts = self.tasks@;
        let n = self.citizens.len();
        let mut stopped = false;
        let mut k: usize = 0;
        proof {
            lemma_claiming_lengths(width, bs, cs, ts, 0);
        }
        while k < n && !stopped
            invariant
                n == cs.len(),
                width == self.ground.width,
                width > 0,
                bs == self.buildings@,
                self.ground == old(self).ground,
                self.clock == old(self).clock,
                self.stats == old(self).stats,
                self.next_building_id == old(self).next_building_id,
                self.next_citizen_id == old(self).next_citizen_id,
                self.next_task_id == old(self).next_task_id,
                self.starved@ == old(self).starved@,
                self.roads == old(self).roads,
                self.road_access@ == old(self).road_access@,
                forall|q: int|
                    0 <= q < cs.len() && idle(#[trigger] cs[q]) ==> (cs[q].home->0 as int) < bs.len(),
                forall|i: int, b: int|
                    0 <= i < ts.len() && 0 <= b < bs.len() ==> distance2(width, #[trigger] ts[i].site, #[trigger] bs[b].tile)
                        <= i64::MAX,
                k <= n,
                stopped == claiming(width, bs, cs, ts, k as int).2,
                claiming(width, bs, cs, ts, k as int).1.len() == k,
                claiming(width, bs, cs, ts, k as int).0.len() == ts.len(),
                self.tasks@.len() == ts.len(),
                forall|i: int|
                    0 <= i < ts.len() ==> #[trigger] self.tasks@[i] == (Task {
                        claimed_by: claiming(width, bs, cs, ts, k as int).0[i],
                        ..ts[i]
                    }),
                self.citizens@.len() == n,
                forall|q: int|
                    0 <= q < k ==> match claiming(width, bs, cs, ts, k as int).1[q] {
                        Some(id) => took(#[trigger] self.citizens@[q], cs[q], id),
                        None => self.citizens@[q] == cs[q],
                    },
                forall|q: int| k <= q < n ==> #[trigger] self.citizens@[q] == cs[q],
            decreases n - k,
        {
            let ghost (claims, picks, _) = claiming(width, bs, cs, ts, k as int);
            proof {
                lemma_claiming_lengths(width, bs, cs, ts, k as int + 1);
                assert(self.tasks@.map_values(|t: Task| t.claimed_by) =~= claims);
            }
            let c = &self.citizens[k];
            let is_idle = c.ready && c.work.is_none() && c.task.is_none() && (c.state == CitizenState::AtHome
                || c.state == CitizenState::Unemployed) && c.home.is_some();
            if is_idle {
                let home = self.buildings[c.home.unwrap() as usize].tile;
                let citizen_id = c.id;
                proof {
                    assert forall|i: int| 0 <= i < self.tasks@.len() implies distance2(width, #[trigger] self.tasks@[i].site, home)
                        <= i64::MAX by {
                        assert(self.tasks@[i].site == ts[i].site);
                    }
                    assert forall|i: int| 0 <= i < ts.len() implies same_place(#[trigger] self.tasks@[i], ts[i]) by {}
                    lemma_pick_same(self.tasks@, ts, claims, width, home, ts.len() as int);
                }
                match self.nearest_open(home) {
                    None => {
                        stopped = true;
                        proof {
                            let next = claiming(width, bs, cs, ts, k as int + 1);
                            assert(next.1 =~= picks.push(None));
                        }
                    },
                    Some(at) => {
                        proof {
                            lemma_pick_open(ts, claims, width, home, ts.len() as int);
                        }
                        let id = self.tasks[at].id;
                        let ghost want = id_is(id);
                        let mut j: usize = 0;
                        while self.tasks[j].id != id
                            invariant
                                j <= at,
                                at < self.tasks@.len(),
                                self.tasks@[at as int].id == id,
                                want == id_is(id),
                                self.tasks@.len() == ts.len(),
                                forall|i: int| 0 <= i < ts.len() ==> #[trigger] self.tasks@[i].id == ts[i].id,
                                first_upto(ts, want, j as int) == -1,
                            decreases at - j,
                        {
                            proof {
                                assert(!want(ts[j as int]));
                            }
                            j += 1;
                        }
                        proof {
                            assert(want(ts[j as int]));
                            assert(first_upto(ts, want, j as int + 1) == j);
                            first_stays(ts, want, j as int + 1);
                        }
                        self.tasks[j].claimed_by = Some(citizen_id);
                        self.citizens[k].task = Some(id);
                        self.citizens[k].state = CitizenState::AtHome;
                        self.citizens[k].path.clear();
                        self.citizens[k].path_cursor = 0;
                        self.citizens[k].step_quarters = 0;
                        proof {
                            let next = claiming(width, bs, cs, ts, k as int + 1);
                            assert(next.0 =~= claims.update(j as int, Some(citizen_id)));
                            assert(next.1 =~= picks.push(Some(id)));
                        }
                    },
                }
            } else {
                proof {
                    let next = claiming(width, bs, cs, ts, k as int + 1);
                    assert(next.1 =~= picks.push(None));
                }
            }
            k += 1;
        }
        proof {
            if k < n {
                lemma_stopped_stays(width, bs, cs, ts, k as int, n as int);
            }
        }
    }

    /// One tick of labour on every claimed task (see [`worked`]); gives the ids of the
    /// tasks it finishes, in order.
    pub(crate) fn labour(&mut self) -> (r: Vec<u32>)
        requires
            old(self).ground.width > 0,
            forall|i: int| 0 <= i < old(self).tasks@.len() ==> #[trigger] old(self).tasks@[i].work_remaining > i64::MIN,
        ensures
            final(self).tasks@.len() == old(self).tasks@.len(),
            forall|i: int|
                0 <= i < old(self).tasks@.len() ==> #[trigger] final(self).tasks@[i] == worked(
                    old(self).ground.width,
                    old(self).citizens@,
                    old(self).tasks@[i],
                ).0,
            r@ == finished_ids(old(self).ground.width, old(self).citizens@, old(self).tasks@, old(self).tasks@.len() as int),
            final(self).ground == old(self).ground,
            final(self).buildings@ == old(self).buildings@,
            final(self).citizens@ == old(self).citizens@,
            final(self).clock == old(self).clock,
            final(self).stats == old(self).stats,
            final(self).next_building_id == old(self).next_building_id,
            final(self).next_citizen_id == old(self).next_citizen_id,
            final(self).next_task_id == old(self).next_task_id,
            final(self).starved@ == old(self).starved@,
            final(self).roads == old(self).roads,
            final(self).road_access@ == old(self).road_access@,
    {
        let width = self.ground.width;
        let ghost ts = self.tasks@;
        let ghost cs = self.citizens@;
        let mut finished: Vec<u32> = Vec::new();
        let mut i: usize = 0;
        while i < self.tasks.len()
            invariant
                width == self.ground.width,
                width > 0,
                self.tasks@.len() == ts.len(),
                self.citizens@ == cs,
                self.ground == old(self).ground,
                self.buildings@ == old(self).buildings@,
                self.clock == old(self).clock,
                self.stats == old(self).stats,
                self.next_building_id == old(self).next_building_id,
                self.next_citizen_id == old(self).next_citizen_id,
                self.next_task_id == old(self).next_task_id,
                self.starved@ == old(self).starved@,
                self.roads == old(self).roads,
                self.road_access@ == old(self).road_access@,
                ts == old(self).tasks@,
                forall|q: int| 0 <= q < ts.len() ==> #[trigger] ts[q].work_remaining > i64::MIN,
                i <= ts.len(),
                forall|q: int| 0 <= q < i ==> #[trigger] self.tasks@[q] == worked(width, cs, ts[q]).0,
                forall|q: int| i <= q < ts.len() ==> #[trigger] self.tasks@[q] == ts[q],
                finished@ == finished_ids(width, cs, ts, i as int),
            decreases ts.len() - i,
        {
            let ghost before = self.tasks@;
            match self.tasks[i].claimed_by {
                None => {},
                Some(worker) => {
                    let ghost want = citizen_id_is(worker);
                    let mut k: usize = 0;
                    while k < self.citizens.len() && self.citizens[k].id != worker
                        invariant
                            self.citizens@ == cs,
                            want == citizen_id_is(worker),
                            k <= cs.len(),
                            first_upto(cs, want, k as int) == -1,
                        decreases cs.len() - k,
                    {
                        proof {
                            assert(!want(cs[k as int]));
                        }
                        k += 1;
                    }
                    if k == self.citizens.len() {
                        self.tasks[i].claimed_by = None;
                    } else {
                        proof {
                            assert(want(cs[k as int]));
                            assert(first_upto(cs, want, k as int + 1) == k);
                            first_stays(cs, want, k as int + 1);
                        }
                        let c = &self.citizens[k];
                        let site = self.tasks[i].site;
                        let standing = match c.current_tile() {
                            Some(tile) => tile,
                            None => site,
                        };
                        let (sx, sy) = ((site % width) as i64, (site / width) as i64);
                        let (cx, cy) = ((standing % width) as i64, (standing / width) as i64);
                        let near = -1 <= sx - cx && sx - cx <= 1 && -1 <= sy - cy && sy - cy <= 1;
                        if c.state == CitizenState::AtWork && c.task == Some(self.tasks[i].id) && near {
                            let left = self.tasks[i].work_remaining - 1;
                            self.tasks[i].work_remaining = left;
                            if left <= 0 {
                                finished.push(self.tasks[i].id);
                            }
                        }
                    }
                },
            }
            proof {
                assert forall|q: int| 0 <= q < i implies #[trigger] self.tasks@[q] == worked(width, cs, ts[q]).0 by {
                    assert(self.tasks@[q] == before[q]);
                }
                assert forall|q: int| i + 1 <= q < ts.len() implies #[trigger] self.tasks@[q] == ts[q] by {
                    assert(self.tasks@[q] == before[q]);
                }
            }
            i += 1;
        }
        finished
    }
}

} // verus!

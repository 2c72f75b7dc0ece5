//! Moving people: every resident walks its route a step at a time, parks where it ends,
//! and a parked resident with somewhere to be is routed there over the roads. Agents near
//! the camera walk a quarter of a step a tick and the rest a whole step, so what the
//! player watches is smooth and what they do not watch costs little.
use vstd::prelude::*;

use crate::lookup::{first_of, first_upto};
use crate::materials::schema::first_stays;
use crate::sim::citizen::{tile_at, Citizen, CitizenState};
use crate::sim::city::{graph_of, id_is, City};
use crate::sim::road::{fewest_hops, is_walk, nearest_is, reachable, tiles_of, RoadGraph};
use crate::sim::task::Task;
use crate::sim::{Building, Stats, LOD_RADIUS};

verus! {

/// How far a number lies from nothing.
pub open spec fn magnitude(x: int) -> int {
    if x < 0 {
        -x
    } else {
        x
    }
}

/// The tiles the structures stand on, by position.
pub open spec fn building_tiles(bs: Seq<Building>) -> Seq<u32> {
    bs.map_values(|b: Building| b.tile)
}

/// The tile a citizen's home stands on, where it has a home that stands among `tiles`.
pub open spec fn home_tile_of(c: Citizen, tiles: Seq<u32>) -> Option<u32> {
    match c.home {
        Some(h) => if (h as int) < tiles.len() {
            Some(tiles[h as int])
        } else {
            None
        },
        None => None,
    }
}

/// How many tiles, across and down, a tile lies from the camera focus.
pub open spec fn focus_distance(width: u32, tile: u32, focus: (i32, i32)) -> int {
    magnitude(tile as int % width as int - focus.0) + magnitude(tile as int / width as int - focus.1)
}

/// Whether the distance from a tile to the focus counts in 32 bits, the way it is taken.
pub open spec fn focus_fits(width: u32, tile: u32, focus: (i32, i32)) -> bool {
    let dx = tile as int % width as int - focus.0;
    let dy = tile as int / width as int - focus.1;
    &&& tile as int % width as int <= i32::MAX
    &&& tile as int / width as int <= i32::MAX
    &&& i32::MIN < dx <= i32::MAX
    &&& i32::MIN < dy <= i32::MAX
    &&& magnitude(dx) + magnitude(dy) <= i32::MAX
}

/// Whether a citizen is simulated in full: its home lies within the level-of-detail
/// radius of the camera focus.
pub open spec fn full_agent(c: Citizen, tiles: Seq<u32>, width: u32, focus: (i32, i32)) -> bool {
    match home_tile_of(c, tiles) {
        Some(t) => focus_distance(width, t, focus) <= LOD_RADIUS,
        None => false,
    }
}

/// How many of the first `k` citizens are simulated in full.
pub open spec fn full_upto(cs: Seq<Citizen>, tiles: Seq<u32>, width: u32, focus: (i32, i32), k: int) -> int
    decreases k,
{
    if k <= 0 {
        0
    } else {
        full_upto(cs, tiles, width, focus, k - 1) + if full_agent(cs[k - 1], tiles, width, focus) {
            1int
        } else {
            0
        }
    }
}

/// The state a citizen is in once its route ends: at work after the way there, at home
/// after the way back, and otherwise as it was.
pub open spec fn arrived_state(s: CitizenState) -> CitizenState {
    match s {
        CitizenState::ToWork => CitizenState::AtWork,
        CitizenState::ToHome => CitizenState::AtHome,
        other => other,
    }
}

/// Whether a citizen walks this tick: it has a home that stands and a route to walk.
pub open spec fn walks(c: Citizen, tiles: Seq<u32>) -> bool {
    home_tile_of(c, tiles) is Some && c.path@.len() > 1
}

/// The quarters of a step a walking citizen has once this tick's walk is added.
pub open spec fn quarters_after(c: Citizen, tiles: Seq<u32>, width: u32, focus: (i32, i32)) -> int {
    c.step_quarters + if full_agent(c, tiles, width, focus) {
        1int
    } else {
        4
    }
}

/// Whether a citizen reaches the end of its route this tick.
pub open spec fn arrives(c: Citizen, tiles: Seq<u32>, width: u32, focus: (i32, i32)) -> bool {
    &&& walks(c, tiles)
    &&& quarters_after(c, tiles, width, focus) >= 4
    &&& c.path_cursor + 2 >= c.path@.len()
}

/// The workplace a citizen arrives at this tick, if it arrives and is then at work.
pub open spec fn arrival(c: Citizen, tiles: Seq<u32>, width: u32, focus: (i32, i32)) -> Option<u32> {
    if arrives(c, tiles, width, focus) && arrived_state(c.state) == CitizenState::AtWork {
        c.work
    } else {
        None
    }
}

/// Whether `after` is `before` once it has walked this tick: a quarter of a step near the
/// camera and a whole step elsewhere; four quarters take it a tile on, and at the end of
/// its route it parks there, on a route of that one tile, in the state it arrived in.
pub open spec fn walked(after: Citizen, before: Citizen, tiles: Seq<u32>, width: u32, focus: (i32, i32)) -> bool {
    let q = quarters_after(before, tiles, width, focus);
    if !walks(before, tiles) {
        after == before
    } else if q < 4 {
        after == (Citizen { step_quarters: q as u32, ..before })
    } else if arrives(before, tiles, width, focus) {
        &&& after.path@ == seq![before.path@.last()]
        &&& after.path_cursor == 0
        &&& after.step_quarters == 0
        &&& after.state == arrived_state(before.state)
        &&& after.id == before.id
        &&& after.home == before.home
        &&& after.work == before.work
        &&& after.task == before.task
        &&& after.born_tick == before.born_tick
        &&& after.ready == before.ready
    } else {
        after == (Citizen { step_quarters: (q - 4) as u32, path_cursor: (before.path_cursor + 1) as usize, ..before })
    }
}

/// The workplaces the first `k` citizens arrive at this tick, in order.
pub open spec fn arrivals_upto(cs: Seq<Citizen>, tiles: Seq<u32>, width: u32, focus: (i32, i32), k: int) -> Seq<
    u32,
>
    decreases k,
{
    if k <= 0 {
        Seq::empty()
    } else {
        let rest = arrivals_upto(cs, tiles, width, focus, k - 1);
        match arrival(cs[k - 1], tiles, width, focus) {
            Some(w) => rest.push(w),
            None => rest,
        }
    }
}

/// How many times `x` occurs among the first `k` entries of `s`.
pub open spec fn count_upto(s: Seq<u32>, x: u32, k: int) -> int
    decreases k,
{
    if k <= 0 {
        0
    } else {
        count_upto(s, x, k - 1) + if s[k - 1] == x {
            1int
        } else {
            0
        }
    }
}

/// How many times `x` occurs in `s`.
pub open spec fn count_of(s: Seq<u32>, x: u32) -> int {
    count_upto(s, x, s.len() as int)
}

/// Walk every citizen (see [`walked`]); gives how many are simulated in full and the
/// workplaces they arrive at, in order.
fn walk_all(cs: &mut Vec<Citizen>, tiles: &Vec<u32>, width: u32, focus: (i32, i32)) -> (r: (u32, Vec<u32>))
    requires
        width > 0,
        old(cs)@.len() <= u32::MAX,
        forall|i: int|
            0 <= i < old(cs)@.len() ==> {
                let c = #[trigger] old(cs)@[i];
                &&& home_tile_of(c, tiles@) matches Some(t) ==> focus_fits(width, t, focus)
                &&& c.step_quarters + 4 <= u32::MAX
                &&& c.path_cursor + 2 <= usize::MAX
            },
    ensures
        final(cs)@.len() == old(cs)@.len(),
        forall|i: int| 0 <= i < old(cs)@.len() ==> walked(#[trigger] final(cs)@[i], old(cs)@[i], tiles@, width, focus),
        r.0 == full_upto(old(cs)@, tiles@, width, focus, old(cs)@.len() as int),
        r.1@ == arrivals_upto(old(cs)@, tiles@, width, focus, old(cs)@.len() as int),
{
    let ghost before = cs@;
    let mut full: u32 = 0;
    let mut arrived: Vec<u32> = Vec::new();
    let mut i: usize = 0;
    while i < cs.len()
        invariant
            width > 0,
            cs@.len() == before.len(),
            before.len() <= u32::MAX,
            i <= before.len(),
            forall|q: int|
                0 <= q < before.len() ==> {
                    let c = #[trigger] before[q];
                    &&& home_tile_of(c, tiles@) matches Some(t) ==> focus_fits(width, t, focus)
                    &&& c.step_quarters + 4 <= u32::MAX
                    &&& c.path_cursor + 2 <= usize::MAX
                },
            forall|q: int| 0 <= q < i ==> walked(#[trigger] cs@[q], before[q], tiles@, width, focus),
            forall|q: int| i <= q < before.len() ==> #[trigger] cs@[q] == before[q],
            full == full_upto(before, tiles@, width, focus, i as int),
            0 <= full_upto(before, tiles@, width, focus, i as int) <= i,
            arrived@ == arrivals_upto(before, tiles@, width, focus, i as int),
        decreases before.len() - i,
    {
        let ghost c0 = before[i as int];
        let home_tile = match cs[i].home {
            Some(h) => if (h as usize) < tiles.len() {
                Some(tiles[h as usize])
            } else {
                None
            },
            None => None,
        };
        if let Some(t) = home_tile {
            let hx = (t % width) as i64;
            let hy = (t / width) as i64;
            let dx = hx - focus.0 as i64;
            let dy = hy - focus.1 as i64;
            let ax = if dx < 0 { -dx } else { dx };
            let ay = if dy < 0 { -dy } else { dy };
            let is_full = ax + ay <= LOD_RADIUS as i64;
            proof {
                assert(home_tile_of(c0, tiles@) == Some(t));
                assert(ax == magnitude(t as int % width as int - focus.0));
                assert(ay == magnitude(t as int / width as int - focus.1));
                assert(is_full == full_agent(c0, tiles@, width, focus));
            }
            if is_full {
                full = full + 1;
            }
            if cs[i].path.len() > 1 {
                let q = cs[i].step_quarters + if is_full { 1u32 } else { 4u32 };
                assert(q == quarters_after(c0, tiles@, width, focus));
                if q < 4 {
                    cs[i].step_quarters = q;
                    assert(cs@[i as int] == (Citizen { step_quarters: q as u32, ..c0 }));
                } else {
                    let cursor = cs[i].path_cursor + 1;
                    if cursor + 1 >= cs[i].path.len() {
                        let last = cs[i].path[cs[i].path.len() - 1];
                        let state = match cs[i].state {
                            CitizenState::ToWork => CitizenState::AtWork,
                            CitizenState::ToHome => CitizenState::AtHome,
                            other => other,
                        };
                        cs[i].path = vec![last];
                        cs[i].path_cursor = 0;
                        cs[i].step_quarters = 0;
                        cs[i].state = state;
                        assert(arrives(c0, tiles@, width, focus));
                        assert(cs@[i as int].path@ =~= seq![c0.path@.last()]);
                        if state == CitizenState::AtWork {
                            if let Some(work) = cs[i].work {
                                arrived.push(work);
                            }
                        }
                    } else {
                        cs[i].step_quarters = q - 4;
                        cs[i].path_cursor = cursor;
                        assert(cs@[i as int] == (Citizen { step_quarters: (q - 4) as u32, path_cursor: (c0.path_cursor + 1) as usize, ..c0 }));
                    }
                }
            }
        }
        proof {
            assert(cs@[i as int].path@ =~= cs@[i as int].path@);
            assert(walked(cs@[i as int], c0, tiles@, width, focus));
        }
        i += 1;
    }
    (full, arrived)
}

/// The route a citizen is due this tick, as where it sets off from, where it is going and
/// the state it sets off in: a settled citizen with a home, parked on a route of at most
/// one tile, goes from home to the site of the task it took, or else to its work; from
/// where it stands at work to its workplace, heading home; or, heading home, from where it
/// stands to its home. `None` where it is due nothing, or the task or workplace is gone.
pub open spec fn route_plan(c: Citizen, tiles: Seq<u32>, tasks: Seq<Task>) -> Option<(u32, u32, CitizenState)> {
    if c.path@.len() > 1 || !c.ready || c.home is None {
        None
    } else {
        let from_tile = tiles[c.home->Some_0 as int];
        let here = match tile_at(c.path@, c.path_cursor as int) {
            Some(t) => t,
            None => from_tile,
        };
        match c.state {
            CitizenState::AtHome => match c.task {
                Some(t) => {
                    let k = first_of(tasks, id_is(t));
                    if k < 0 {
                        None
                    } else {
                        Some((from_tile, tasks[k].site, CitizenState::ToWork))
                    }
                },
                None => match c.work {
                    Some(job) => if (job as int) < tiles.len() {
                        Some((from_tile, tiles[job as int], CitizenState::ToWork))
                    } else {
                        None
                    },
                    None => None,
                },
            },
            CitizenState::AtWork => match c.work {
                Some(job) => if (job as int) < tiles.len() {
                    Some((here, tiles[job as int], CitizenState::ToHome))
                } else {
                    None
                },
                None => None,
            },
            CitizenState::ToHome => Some((here, from_tile, CitizenState::AtHome)),
            _ => None,
        }
    }
}

/// How many of the first `k` citizens are due a route.
pub open spec fn plans_upto(cs: Seq<Citizen>, tiles: Seq<u32>, tasks: Seq<Task>, k: int) -> int
    decreases k,
{
    if k <= 0 {
        0
    } else {
        plans_upto(cs, tiles, tasks, k - 1) + if route_plan(cs[k - 1], tiles, tasks) is Some {
            1int
        } else {
            0
        }
    }
}

/// Whether the citizen at `i` is routed this tick: it is due a route, and fewer than
/// `budget` citizens before it were.
pub open spec fn routed_now(cs: Seq<Citizen>, tiles: Seq<u32>, tasks: Seq<Task>, budget: u32, i: int) -> bool {
    route_plan(cs[i], tiles, tasks) is Some && plans_upto(cs, tiles, tasks, i) < budget
}

/// Whether `tiles` is a route the road graph gives between two tiles: a walk of fewest hops
/// from the road nearest the first, within three rings, to the road nearest the second.
pub open spec fn route_found(g: RoadGraph, width: u32, height: u32, from: u32, to: u32, tiles: Seq<u32>) -> bool {
    exists|a: u32, b: u32, path: Seq<u32>|
        #[trigger] nearest_is(g.index(), width as nat, height as nat, from, 3, Some(a)) && #[trigger] nearest_is(
            g.index(),
            width as nat,
            height as nat,
            to,
            3,
            Some(b),
        ) && path.len() > 0 && path[0] == a && path.last() == b && #[trigger] is_walk(g.adjacency(), path)
            && fewest_hops(g.adjacency(), a, b, path) && tiles == tiles_of(g.node_seq(), path)
}

/// Whether the road graph may refuse a route between two tiles: one of them has no road
/// within three rings, or no road joins the two nearest.
pub open spec fn route_refused(g: RoadGraph, width: u32, height: u32, from: u32, to: u32) -> bool {
    nearest_is(g.index(), width as nat, height as nat, from, 3, None) || nearest_is(
        g.index(),
        width as nat,
        height as nat,
        to,
        3,
        None,
    ) || exists|a: u32, b: u32|
        #[trigger] nearest_is(g.index(), width as nat, height as nat, from, 3, Some(a)) && #[trigger] nearest_is(
            g.index(),
            width as nat,
            height as nat,
            to,
            3,
            Some(b),
        ) && (g.node_seq().len() < u32::MAX ==> !reachable(g.adjacency(), a, b))
}

/// Whether `after` is `before` once routed as `plan` says over the road graph `g`: on the
/// route found and in the state it sets off in, or, where the graph refuses, with no route
/// and as it was; either way at the start of its route.
pub open spec fn rerouted(
    after: Citizen,
    before: Citizen,
    g: RoadGraph,
    width: u32,
    height: u32,
    plan: (u32, u32, CitizenState),
) -> bool {
    &&& after.id == before.id
    &&& after.home == before.home
    &&& after.work == before.work
    &&& after.task == before.task
    &&& after.born_tick == before.born_tick
    &&& after.ready == before.ready
    &&& after.path_cursor == 0
    &&& after.step_quarters == 0
    &&& if after.path@.len() > 0 {
        route_found(g, width, height, plan.0, plan.1, after.path@) && after.state == plan.2
    } else {
        route_refused(g, width, height, plan.0, plan.1) && after.state == before.state
    }
}

/// How many of the first `k` citizens routed this tick were refused a route.
pub open spec fn refused_upto(
    after: Seq<Citizen>,
    cs: Seq<Citizen>,
    tiles: Seq<u32>,
    tasks: Seq<Task>,
    budget: u32,
    k: int,
) -> int
    decreases k,
{
    if k <= 0 {
        0
    } else {
        refused_upto(after, cs, tiles, tasks, budget, k - 1) + if routed_now(cs, tiles, tasks, budget, k - 1)
            && after[k - 1].path@.len() == 0 {
            1int
        } else {
            0
        }
    }
}

/// Counting further never counts fewer.
proof fn lemma_plans_grow(cs: Seq<Citizen>, tiles: Seq<u32>, tasks: Seq<Task>, i: int, j: int)
    requires
        0 <= i <= j,
    ensures
        plans_upto(cs, tiles, tasks, i) <= plans_upto(cs, tiles, tasks, j),
    decreases j - i,
{
    if i < j {
        lemma_plans_grow(cs, tiles, tasks, i, j - 1);
    }
}

/// The position of the first task numbered `id`, if there is one.
fn find_task(tasks: &Vec<Task>, id: u32) -> (r: Option<usize>)
    ensures
        match r {
            Some(k) => k as int == first_of(tasks@, id_is(id)) && (k as int) < tasks@.len(),
            None => first_of(tasks@, id_is(id)) < 0,
        },
{
    let ghost want = id_is(id);
    let mut k: usize = 0;
    while k < tasks.len()
        invariant
            want == id_is(id),
            k <= tasks@.len(),
            first_upto(tasks@, want, k as int) == -1,
        decreases tasks@.len() - k,
    {
        if tasks[k].id == id {
            proof {
                assert(want(tasks@[k as int]));
                assert(first_upto(tasks@, want, k as int + 1) == k);
                first_stays(tasks@, want, k as int + 1);
            }
            return Some(k);
        }
        proof {
            assert(!want(tasks@[k as int]));
        }
        k += 1;
    }
    None
}

/// The route a citizen is due (see [`route_plan`]).
fn plan_for(c: &Citizen, tiles: &Vec<u32>, tasks: &Vec<Task>) -> (r: Option<(u32, u32, CitizenState)>)
    requires
        c.ready && c.path@.len() <= 1 && c.home is Some ==> (c.home->Some_0 as int) < tiles@.len(),
    ensures
        r == route_plan(*c, tiles@, tasks@),
{
    if c.path.len() > 1 || !c.ready {
        return None;
    }
    let home = match c.home {
        Some(h) => h,
        None => return None,
    };
    let from_tile = tiles[home as usize];
    let here = match c.current_tile() {
        Some(t) => t,
        None => from_tile,
    };
    match c.state {
        CitizenState::AtHome => match c.task {
            Some(t) => match find_task(tasks, t) {
                Some(k) => Some((from_tile, tasks[k].site, CitizenState::ToWork)),
                None => None,
            },
            None => match c.work {
                Some(job) => if (job as usize) < tiles.len() {
                    Some((from_tile, tiles[job as usize], CitizenState::ToWork))
                } else {
                    None
                },
                None => None,
            },
        },
        CitizenState::AtWork => match c.work {
            Some(job) => if (job as usize) < tiles.len() {
                Some((here, tiles[job as usize], CitizenState::ToHome))
            } else {
                None
            },
            None => None,
        },
        CitizenState::ToHome => Some((here, from_tile, CitizenState::AtHome)),
        _ => None,
    }
}

/// Route the citizens due a route (see [`route_plan`]), in order, until `budget` of them
/// have been; gives how many of those the road graph refused.
fn plan_all(
    cs: &mut Vec<Citizen>,
    tiles: &Vec<u32>,
    tasks: &Vec<Task>,
    g: &RoadGraph,
    width: u32,
    height: u32,
    budget: u32,
) -> (r: u32)
    requires
        g.wf(),
        width > 0,
        width * height <= u32::MAX,
        width + 3 <= i32::MAX,
        height + 3 <= i32::MAX,
        forall|i: int|
            0 <= i < old(cs)@.len() ==> {
                let c = #[trigger] old(cs)@[i];
                &&& budget > 0 && c.ready && c.path@.len() <= 1 && c.home is Some ==> (c.home->Some_0 as int)
                    < tiles@.len()
                &&& budget > 0 && route_plan(c, tiles@, tasks@) is Some ==> route_plan(c, tiles@, tasks@)->Some_0.0
                    < width * height && route_plan(c, tiles@, tasks@)->Some_0.1 < width * height
            },
    ensures
        final(cs)@.len() == old(cs)@.len(),
        forall|i: int|
            0 <= i < old(cs)@.len() && routed_now(old(cs)@, tiles@, tasks@, budget, i) ==> rerouted(
                #[trigger] final(cs)@[i],
                old(cs)@[i],
                *g,
                width,
                height,
                route_plan(old(cs)@[i], tiles@, tasks@)->Some_0,
            ),
        forall|i: int|
            0 <= i < old(cs)@.len() && !routed_now(old(cs)@, tiles@, tasks@, budget, i) ==> #[trigger] final(cs)@[i]
                == old(cs)@[i],
        r == refused_upto(final(cs)@, old(cs)@, tiles@, tasks@, budget, old(cs)@.len() as int),
{
    let ghost before = cs@;
    let mut planned: u32 = 0;
    let mut refused: u32 = 0;
    let mut i: usize = 0;
    while i < cs.len() && planned < budget
        invariant
            g.wf(),
            width > 0,
            width * height <= u32::MAX,
            width + 3 <= i32::MAX,
            height + 3 <= i32::MAX,
            cs@.len() == before.len(),
            i <= before.len(),
            forall|q: int|
                0 <= q < before.len() ==> {
                    let c = #[trigger] before[q];
                    &&& budget > 0 && c.ready && c.path@.len() <= 1 && c.home is Some ==> (c.home->Some_0 as int)
                        < tiles@.len()
                    &&& budget > 0 && route_plan(c, tiles@, tasks@) is Some ==> route_plan(c, tiles@, tasks@)->Some_0.0
                        < width * height && route_plan(c, tiles@, tasks@)->Some_0.1 < width * height
                },
            planned == plans_upto(before, tiles@, tasks@, i as int),
            planned <= budget,
            refused <= planned,
            forall|q: int|
                0 <= q < i && routed_now(before, tiles@, tasks@, budget, q) ==> rerouted(
                    #[trigger] cs@[q],
                    before[q],
                    *g,
                    width,
                    height,
                    route_plan(before[q], tiles@, tasks@)->Some_0,
                ),
            forall|q: int| 0 <= q < i && !routed_now(before, tiles@, tasks@, budget, q) ==> #[trigger] cs@[q] == before[q],
            forall|q: int| i <= q < before.len() ==> #[trigger] cs@[q] == before[q],
            refused == refused_upto(cs@, before, tiles@, tasks@, budget, i as int),
        decreases before.len() - i,
    {
        let ghost c0 = before[i as int];
        let ghost prior = cs@;
        let plan = plan_for(&cs[i], tiles, tasks);
        if let Some((origin, to, onwards)) = plan {
            proof {
                assert(origin < width * height && to < width * height);
                assert(origin / width < height) by (nonlinear_arith)
                    requires
                        origin < width * height,
                        width > 0,
                ;
                assert(to / width < height) by (nonlinear_arith)
                    requires
                        to < width * height,
                        width > 0,
                ;
            }
            let route = g.route_between_tiles(width, height, origin, to, 3);
            planned = planned + 1;
            match route {
                Some(path) => {
                    cs[i].path = path;
                    cs[i].path_cursor = 0;
                    cs[i].step_quarters = 0;
                    cs[i].state = onwards;
                },
                None => {
                    refused = refused + 1;
                    cs[i].path = Vec::new();
                    cs[i].path_cursor = 0;
                    cs[i].step_quarters = 0;
                },
            }
        }
        proof {
            assert(routed_now(before, tiles@, tasks@, budget, i as int) == plan is Some);
            assert forall|q: int| 0 <= q < i as int implies #[trigger] cs@[q] == prior[q] by {}
            assert(refused_upto(cs@, before, tiles@, tasks@, budget, i as int) == refused_upto(
                prior,
                before,
                tiles@,
                tasks@,
                budget,
                i as int,
            )) by {
                lemma_refused_same(cs@, prior, before, tiles@, tasks@, budget, i as int);
            }
        }
        i += 1;
    }
    proof {
        assert forall|q: int| i <= q < before.len() implies !routed_now(before, tiles@, tasks@, budget, q) by {
            lemma_plans_grow(before, tiles@, tasks@, i as int, q);
        }
        lemma_refused_rest(cs@, before, tiles@, tasks@, budget, i as int, before.len() as int);
    }
    refused
}

/// The refusals among the first `k` citizens read only those citizens.
proof fn lemma_refused_same(
    a: Seq<Citizen>,
    b: Seq<Citizen>,
    cs: Seq<Citizen>,
    tiles: Seq<u32>,
    tasks: Seq<Task>,
    budget: u32,
    k: int,
)
    requires
        0 <= k <= a.len(),
        k <= b.len(),
        forall|q: int| 0 <= q < k ==> #[trigger] a[q] == b[q],
    ensures
        refused_upto(a, cs, tiles, tasks, budget, k) == refused_upto(b, cs, tiles, tasks, budget, k),
    decreases k,
{
    if k > 0 {
        lemma_refused_same(a, b, cs, tiles, tasks, budget, k - 1);
    }
}

/// Citizens that are not routed add no refusals.
proof fn lemma_refused_rest(
    after: Seq<Citizen>,
    cs: Seq<Citizen>,
    tiles: Seq<u32>,
    tasks: Seq<Task>,
    budget: u32,
    i: int,
    k: int,
)
    requires
        0 <= i <= k,
        forall|q: int| i <= q < k ==> !routed_now(cs, tiles, tasks, budget, q),
    ensures
        refused_upto(after, cs, tiles, tasks, budget, k) == refused_upto(after, cs, tiles, tasks, budget, i),
    decreases k - i,
{
    if i < k {
        lemma_refused_rest(after, cs, tiles, tasks, budget, i, k - 1);
    }
}

/// Count each arrival in at its workplace: a structure's occupants go up by the times it
/// is among `arrivals`.
fn seat(bs: &mut Vec<Building>, arrivals: &Vec<u32>)
    requires
        old(bs)@.len() <= u32::MAX,
        forall|b: int| 0 <= b < old(bs)@.len() ==> #[trigger] old(bs)@[b].occupants + arrivals@.len() <= u32::MAX,
    ensures
        final(bs)@.len() == old(bs)@.len(),
        forall|b: int|
            0 <= b < old(bs)@.len() ==> #[trigger] final(bs)@[b] == (Building {
                occupants: (old(bs)@[b].occupants + count_of(arrivals@, b as u32)) as u32,
                ..old(bs)@[b]
            }),
{
    let ghost before = bs@;
    let mut k: usize = 0;
    while k < arrivals.len()
        invariant
            bs@.len() == before.len(),
            before.len() <= u32::MAX,
            k <= arrivals@.len(),
            forall|b: int| 0 <= b < before.len() ==> #[trigger] before[b].occupants + arrivals@.len() <= u32::MAX,
            forall|b: int|
                0 <= b < before.len() ==> #[trigger] bs@[b] == (Building {
                    occupants: (before[b].occupants + count_upto(arrivals@, b as u32, k as int)) as u32,
                    ..before[b]
                }),
            forall|b: int| 0 <= b < before.len() ==> 0 <= #[trigger] count_upto(arrivals@, b as u32, k as int) <= k,
        decreases arrivals@.len() - k,
    {
        let w = arrivals[k];
        let ghost prior = bs@;
        if (w as usize) < bs.len() {
            assert(bs@[w as int].occupants == before[w as int].occupants + count_upto(arrivals@, w, k as int));
            bs[w as usize].occupants = bs[w as usize].occupants + 1;
        }
        proof {
            assert forall|b: int| 0 <= b < before.len() implies #[trigger] bs@[b] == (Building {
                occupants: (before[b].occupants + count_upto(arrivals@, b as u32, k as int + 1)) as u32,
                ..before[b]
            }) by {
                assert(prior[b] == (Building {
                    occupants: (before[b].occupants + count_upto(arrivals@, b as u32, k as int)) as u32,
                    ..before[b]
                }));
                assert(0 <= count_upto(arrivals@, b as u32, k as int));
                assert(arrivals@[k as int] == w);
                if b == w as int {
                    assert(b as u32 == w);
                } else {
                    assert(b as u32 != w);
                    assert(bs@[b] == prior[b]);
                }
            }
            assert forall|b: int| 0 <= b < before.len() implies 0 <= #[trigger] count_upto(
                arrivals@,
                b as u32,
                k as int + 1,
            ) <= k + 1 by {
                assert(0 <= count_upto(arrivals@, b as u32, k as int) <= k);
            }
        }
        k += 1;
    }
}

/// Whether `w` is every citizen of `cs` walked this tick (see [`walked`]).
pub open spec fn walked_all(w: Seq<Citizen>, cs: Seq<Citizen>, tiles: Seq<u32>, width: u32, focus: (i32, i32)) -> bool {
    &&& w.len() == cs.len()
    &&& forall|i: int| 0 <= i < cs.len() ==> walked(#[trigger] w[i], cs[i], tiles, width, focus)
}

/// Whether `after` is the citizens `w` once every one due a route has been routed, up to
/// `budget` of them in order, over the road graph `g`.
pub open spec fn routed_all(
    after: Seq<Citizen>,
    w: Seq<Citizen>,
    tiles: Seq<u32>,
    tasks: Seq<Task>,
    g: RoadGraph,
    width: u32,
    height: u32,
    budget: u32,
) -> bool {
    &&& after.len() == w.len()
    &&& forall|i: int|
        0 <= i < w.len() && routed_now(w, tiles, tasks, budget, i) ==> rerouted(
            #[trigger] after[i],
            w[i],
            g,
            width,
            height,
            route_plan(w[i], tiles, tasks)->Some_0,
        )
    &&& forall|i: int| 0 <= i < w.len() && !routed_now(w, tiles, tasks, budget, i) ==> #[trigger] after[i] == w[i]
}

/// How many citizens are routed on a tick: up to 64 every fourth tick, and none between.
pub open spec fn route_budget(tick: u64) -> u32 {
    if tick % 4 == 0 {
        64
    } else {
        0
    }
}

impl City {
    /// Whether every tile the city refers to lies on its ground: each structure's, each
    /// task's site, and every tile of every route.
    pub open spec fn on_map(&self) -> bool {
        let n = self.ground.tiles@.len();
        &&& forall|b: int| 0 <= b < self.buildings@.len() ==> #[trigger] self.buildings@[b].tile < n
        &&& forall|t: int| 0 <= t < self.tasks@.len() ==> #[trigger] self.tasks@[t].site < n
        &&& forall|i: int, j: int|
            0 <= i < self.citizens@.len() && 0 <= j < self.citizens@[i].path@.len() ==> #[trigger] self.citizens@[i].path@[j]
                < n
    }

    /// One tick of movement. Every resident with a home walks its route (see [`walked`]),
    /// those near the camera `focus` a quarter of a step and the rest a whole step; each
    /// arrival at work is counted in at its workplace. Then, every fourth tick, up to 64
    /// residents due a route are routed over the roads in order (see [`route_plan`]), and
    /// each the roads refuse is a commute failure. Records how many residents were
    /// simulated in full.
    pub fn step_citizens(&mut self, focus: (i32, i32))
        requires
            old(self).ground.width > 0,
            old(self).ground.fits(),
            old(self).ground.width + 3 <= i32::MAX,
            old(self).ground.height + 3 <= i32::MAX,
            graph_of(old(self).roads, old(self).ground.width, old(self).ground.height, old(self).ground.tiles@),
            old(self).counts_fit(),
            old(self).on_map(),
            forall|i: int|
                0 <= i < old(self).citizens@.len() ==> {
                    let c = #[trigger] old(self).citizens@[i];
                    &&& home_tile_of(c, building_tiles(old(self).buildings@)) matches Some(t) ==> focus_fits(
                        old(self).ground.width,
                        t,
                        focus,
                    )
                    &&& c.step_quarters + 4 <= u32::MAX
                    &&& c.path_cursor + 2 <= usize::MAX
                    &&& old(self).clock.tick % 4 == 0 && c.ready && c.home is Some ==> (c.home->Some_0 as int)
                        < old(self).buildings@.len()
                },
            forall|b: int|
                0 <= b < old(self).buildings@.len() ==> #[trigger] old(self).buildings@[b].occupants
                    + old(self).citizens@.len() <= u32::MAX,
            old(self).stats.commute_failures + 64 <= u32::MAX,
        ensures
            ({
                let tiles = building_tiles(old(self).buildings@);
                let cs = old(self).citizens@;
                let width = old(self).ground.width;
                let budget = route_budget(old(self).clock.tick);
                exists|w: Seq<Citizen>|
                    #[trigger] walked_all(w, cs, tiles, width, focus) && routed_all(
                        final(self).citizens@,
                        w,
                        tiles,
                        old(self).tasks@,
                        old(self).roads,
                        width,
                        old(self).ground.height,
                        budget,
                    ) && final(self).stats == (Stats {
                        commute_failures: (old(self).stats.commute_failures + refused_upto(
                            final(self).citizens@,
                            w,
                            tiles,
                            old(self).tasks@,
                            budget,
                            cs.len() as int,
                        )) as u32,
                        full_agents: full_upto(cs, tiles, width, focus, cs.len() as int) as u32,
                        ..old(self).stats
                    })
            }),
            final(self).buildings@.len() == old(self).buildings@.len(),
            forall|b: int|
                0 <= b < old(self).buildings@.len() ==> #[trigger] final(self).buildings@[b] == (Building {
                    occupants: (old(self).buildings@[b].occupants + count_of(
                        arrivals_upto(
                            old(self).citizens@,
                            building_tiles(old(self).buildings@),
                            old(self).ground.width,
                            focus,
                            old(self).citizens@.len() as int,
                        ),
                        b as u32,
                    )) as u32,
                    ..old(self).buildings@[b]
                }),
            final(self).ground == old(self).ground,
            final(self).clock == old(self).clock,
            final(self).tasks@ == old(self).tasks@,
            final(self).next_building_id == old(self).next_building_id,
            final(self).next_citizen_id == old(self).next_citizen_id,
            final(self).next_task_id == old(self).next_task_id,
            final(self).starved@ == old(self).starved@,
            final(self).roads == old(self).roads,
            final(self).road_access@ == old(self).road_access@,
    {
        let width = self.ground.width;
        let height = self.ground.height;
        let ghost cs = self.citizens@;
        let ghost bs = self.buildings@;
        let mut tiles: Vec<u32> = Vec::new();
        let mut b: usize = 0;
        while b < self.buildings.len()
            invariant
                b <= self.buildings@.len(),
                tiles@ == building_tiles(self.buildings@.take(b as int)),
            decreases self.buildings@.len() - b,
        {
            tiles.push(self.buildings[b].tile);
            proof {
                assert(building_tiles(self.buildings@.take(b as int + 1)) =~= building_tiles(
                    self.buildings@.take(b as int),
                ).push(self.buildings@[b as int].tile));
            }
            b += 1;
        }
        proof {
            assert(self.buildings@.take(self.buildings@.len() as int) =~= self.buildings@);
        }
        let (full, arrivals) = walk_all(&mut self.citizens, &tiles, width, focus);
        let ghost w = self.citizens@;
        proof {
            lemma_arrivals_len(cs, tiles@, width, focus, cs.len() as int);
            lemma_full_len(cs, tiles@, width, focus, cs.len() as int);
        }
        seat(&mut self.buildings, &arrivals);
        let budget: u32 = if self.clock.tick % 4 == 0 {
            64
        } else {
            0
        };
        proof {
            assert forall|i: int| 0 <= i < w.len() implies {
                let c = #[trigger] w[i];
                &&& budget > 0 && c.ready && c.path@.len() <= 1 && c.home is Some ==> (c.home->Some_0 as int) < tiles@.len()
                &&& budget > 0 && route_plan(c, tiles@, self.tasks@) is Some ==> route_plan(c, tiles@, self.tasks@)->Some_0.0
                    < width * height && route_plan(c, tiles@, self.tasks@)->Some_0.1 < width * height
            } by {
                assert(walked(w[i], cs[i], tiles@, width, focus));
                let c = w[i];
                lemma_walked_keeps(c, cs[i], tiles@, width, focus);
                if c.home is Some && (c.home->Some_0 as int) < tiles@.len() {
                    assert(tiles@[c.home->Some_0 as int] == bs[c.home->Some_0 as int].tile);
                }
                if c.work is Some && (c.work->Some_0 as int) < tiles@.len() {
                    assert(tiles@[c.work->Some_0 as int] == bs[c.work->Some_0 as int].tile);
                }
                if 0 <= c.path_cursor < c.path@.len() {
                    let t = c.path@[c.path_cursor as int];
                    assert(cs[i].path@.contains(t));
                    let m = choose|m: int| 0 <= m < cs[i].path@.len() && cs[i].path@[m] == t;
                    assert(cs[i].path@[m] < self.ground.tiles@.len());
                }
                if c.task is Some {
                    let k = first_of(self.tasks@, id_is(c.task->Some_0));
                    if k >= 0 {
                        crate::lookup::lemma_first_upto(self.tasks@, id_is(c.task->Some_0), self.tasks@.len() as int);
                        assert(self.tasks@[k].site < self.ground.tiles@.len());
                    }
                }
                assert(self.ground.tiles@.len() == width * height);
                assert(budget > 0 && c.ready && c.path@.len() <= 1 && c.home is Some ==> (c.home->Some_0 as int) < tiles@.len());
                let p = route_plan(c, tiles@, self.tasks@);
                if budget > 0 && p is Some {
                    assert(p->Some_0.0 < width * height);
                    assert(p->Some_0.1 < width * height);
                }
            }
            assert(self.roads.wf_in(width as nat, height as nat));
        }
        let ghost routed_from = self.citizens@;
        let refused = plan_all(&mut self.citizens, &tiles, &self.tasks, &self.roads, width, height, budget);
        proof {
            assert(walked_all(w, cs, tiles@, width, focus));
            lemma_refused_bound(self.citizens@, w, tiles@, self.tasks@, budget, w.len() as int);
            lemma_plans_grow(w, tiles@, self.tasks@, 0, w.len() as int);
        }
        self.stats.commute_failures = self.stats.commute_failures + refused;
        self.stats.full_agents = full;
    }
}

/// Walking keeps who a citizen is and what it is bound to, and every tile of the route it
/// is left on was a tile of the route it had.
proof fn lemma_walked_keeps(after: Citizen, before: Citizen, tiles: Seq<u32>, width: u32, focus: (i32, i32))
    requires
        walked(after, before, tiles, width, focus),
    ensures
        after.home == before.home,
        after.work == before.work,
        after.task == before.task,
        after.ready == before.ready,
        forall|j: int| 0 <= j < after.path@.len() ==> before.path@.contains(#[trigger] after.path@[j]),
{
    if walks(before, tiles) && quarters_after(before, tiles, width, focus) >= 4 && arrives(before, tiles, width, focus) {
        assert forall|j: int| 0 <= j < after.path@.len() implies before.path@.contains(#[trigger] after.path@[j]) by {
            assert(after.path@[j] == before.path@[before.path@.len() - 1]);
        }
    } else {
        assert forall|j: int| 0 <= j < after.path@.len() implies before.path@.contains(#[trigger] after.path@[j]) by {
            assert(after.path@[j] == before.path@[j]);
        }
    }
}

/// No more citizens arrive than there are.
proof fn lemma_arrivals_len(cs: Seq<Citizen>, tiles: Seq<u32>, width: u32, focus: (i32, i32), k: int)
    requires
        0 <= k,
    ensures
        arrivals_upto(cs, tiles, width, focus, k).len() <= k,
    decreases k,
{
    if k > 0 {
        lemma_arrivals_len(cs, tiles, width, focus, k - 1);
    }
}

/// No more citizens are simulated in full than there are.
proof fn lemma_full_len(cs: Seq<Citizen>, tiles: Seq<u32>, width: u32, focus: (i32, i32), k: int)
    requires
        0 <= k,
    ensures
        0 <= full_upto(cs, tiles, width, focus, k) <= k,
    decreases k,
{
    if k > 0 {
        lemma_full_len(cs, tiles, width, focus, k - 1);
    }
}

/// No more routes are refused than are planned, and none below nothing.
proof fn lemma_refused_bound(
    after: Seq<Citizen>,
    cs: Seq<Citizen>,
    tiles: Seq<u32>,
    tasks: Seq<Task>,
    budget: u32,
    k: int,
)
    requires
        0 <= k,
    ensures
        0 <= refused_upto(after, cs, tiles, tasks, budget, k) <= if plans_upto(cs, tiles, tasks, k) < budget {
            plans_upto(cs, tiles, tasks, k)
        } else {
            budget as int
        },
    decreases k,
{
    if k > 0 {
        lemma_refused_bound(after, cs, tiles, tasks, budget, k - 1);
        lemma_plans_nonnegative(cs, tiles, tasks, k - 1);
    }
}

/// The count of citizens due a route is never below nothing.
proof fn lemma_plans_nonnegative(cs: Seq<Citizen>, tiles: Seq<u32>, tasks: Seq<Task>, k: int)
    ensures
        plans_upto(cs, tiles, tasks, k) >= 0,
    decreases k,
{
    if k > 0 {
        lemma_plans_nonnegative(cs, tiles, tasks, k - 1);
    }
}

} // verus!

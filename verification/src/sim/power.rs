//! Power: a plant lights the roads within its radius of the road nearest it, and a lit
//! road lights the tiles beside it. Power follows streets, which is what makes a plant's
//! placement a real decision; and a city with more consumers than its plants can carry
//! is in brownout, with nothing lit at all.
use vstd::prelude::*;

use crate::sim::ground::Ground;
use crate::sim::road::{is_walk, nearest_is, RoadGraph};
use crate::sim::{Building, BuildingKind, Tile, POWER_PER_PLANT, POWER_RADIUS};

verus! {

/// The tiles of the city's power plants: every standing plant, in order.
pub open spec fn plant_tiles(bs: Seq<Building>) -> Seq<u32>
    decreases bs.len(),
{
    if bs.len() == 0 {
        Seq::empty()
    } else {
        let rest = plant_tiles(bs.drop_last());
        let b = bs.last();
        if b.kind == BuildingKind::PowerPlant && b.retired is None {
            rest.push(b.tile)
        } else {
            rest
        }
    }
}

/// How many standing structures draw power: every one but the plants.
pub open spec fn consumer_count(bs: Seq<Building>) -> nat
    decreases bs.len(),
{
    if bs.len() == 0 {
        0
    } else {
        let b = bs.last();
        consumer_count(bs.drop_last()) + if b.kind != BuildingKind::PowerPlant && b.retired is None {
            1nat
        } else {
            0nat
        }
    }
}

/// Whether two tiles of a grid `width` columns wide are the same or touch, diagonals
/// included.
pub open spec fn beside(width: u32, a: u32, b: u32) -> bool {
    let (ax, ay) = (a as int % width as int, a as int / width as int);
    let (bx, by) = (b as int % width as int, b as int / width as int);
    -1 <= ax - bx <= 1 && -1 <= ay - by <= 1
}

/// Whether a walk of at most `steps` steps leads from one node to another.
pub open spec fn within_steps(adjacency: Seq<Seq<u32>>, from: u32, to: u32, steps: int) -> bool {
    exists|path: Seq<u32>|
        #[trigger] is_walk(adjacency, path) && 0 < path.len() <= steps + 1 && path[0] == from
            && path.last() == to
}

/// Whether a road tile is one a plant's power can reach: the tile of a node within the
/// power radius of the road nearest one of `plants`.
pub open spec fn reached_by(roads: RoadGraph, width: u32, height: u32, plants: Seq<u32>, road_tile: u32) -> bool {
    exists|p: int, start: u32, node: u32|
        0 <= p < plants.len() && #[trigger] nearest_is(
            roads.index(),
            width as nat,
            height as nat,
            plants[p],
            3,
            Some(start),
        ) && #[trigger] within_steps(roads.adjacency(), start, node, POWER_RADIUS as int) && (node as int)
            < roads.node_seq().len() && roads.node_seq()[node as int].tile == road_tile
}

/// Counting one more structure counts it as a consumer or not, and never takes one away.
proof fn lemma_consumers_grow(bs: Seq<Building>, n: int)
    requires
        0 < n <= bs.len(),
    ensures
        consumer_count(bs.take(n)) >= consumer_count(bs.take(n - 1)),
        consumer_count(bs.take(n)) <= consumer_count(bs),
    decreases bs.len() - n,
{
    assert(bs.take(n).drop_last() =~= bs.take(n - 1));
    if n < bs.len() {
        lemma_consumers_grow(bs, n + 1);
    } else {
        assert(bs.take(n) =~= bs);
    }
}

/// The tile at offset `k` (0..9, row by row) of the 3×3 block around `center`, when it is
/// on the grid.
pub open spec fn spot(width: u32, height: u32, center: u32, k: int) -> Option<u32> {
    let nx = center as int % width as int + (k % 3 - 1);
    let ny = center as int / width as int + (k / 3 - 1);
    if 0 <= nx < width && 0 <= ny < height {
        Some((ny * width + nx) as u32)
    } else {
        None
    }
}

/// A tile of the grid is beside `center` exactly when it is one of the nine spots around it.
proof fn lemma_spots(width: u32, height: u32, center: u32, t: u32)
    requires
        width > 0,
        width * height <= u32::MAX,
        t < width * height,
    ensures
        beside(width, center, t) <==> exists|k: int| 0 <= k < 9 && #[trigger] spot(width, height, center, k) == Some(t),
{
    let w = width as int;
    let (cx, cy) = (center as int % w, center as int / w);
    let (tx, ty) = (t as int % w, t as int / w);
    assert(0 <= ty < height) by (nonlinear_arith)
        requires
            ty == t as int / w,
            t < w * height,
            w > 0,
            t >= 0,
    ;
    vstd::arithmetic::div_mod::lemma_fundamental_div_mod(t as int, w);
    if beside(width, center, t) {
        let k = (ty - cy + 1) * 3 + (tx - cx + 1);
        assert(k % 3 == tx - cx + 1 && k / 3 == ty - cy + 1) by {
            vstd::arithmetic::div_mod::lemma_fundamental_div_mod_converse(k, 3, ty - cy + 1, tx - cx + 1);
        }
        assert(ty * w + tx == t);
        assert(spot(width, height, center, k) == Some(t));
    }
    if exists|k: int| 0 <= k < 9 && #[trigger] spot(width, height, center, k) == Some(t) {
        let k = choose|k: int| 0 <= k < 9 && #[trigger] spot(width, height, center, k) == Some(t);
        let nx = cx + (k % 3 - 1);
        let ny = cy + (k / 3 - 1);
        assert(0 <= ny * w + nx <= u32::MAX) by (nonlinear_arith)
            requires
                0 <= nx < w,
                0 <= ny < height,
                w * height <= u32::MAX,
        ;
        assert(t as int == ny * w + nx);
        vstd::arithmetic::div_mod::lemma_fundamental_div_mod_converse(t as int, w, ny, nx);
    }
}

/// Whether a plant's power lights tile `t` of `tiles`: the plant has no road within reach,
/// or `t` is powered wherever it lies beside a road node within the power radius of the
/// road nearest the plant.
pub open spec fn radius_lights(roads: RoadGraph, width: u32, height: u32, plant: u32, tiles: Seq<Tile>, t: int) -> bool {
    ||| nearest_is(roads.index(), width as nat, height as nat, plant, 3, None)
    ||| exists|start: u32|
        #[trigger] nearest_is(roads.index(), width as nat, height as nat, plant, 3, Some(start))
            && (start as int) < roads.node_seq().len() && forall|n: u32|
            (n as int) < roads.node_seq().len() && #[trigger] within_steps(roads.adjacency(), start, n, POWER_RADIUS as int)
                && beside(width, roads.node_seq()[n as int].tile, t as u32) ==> tiles[t].powered
}

/// Whether a tile lies beside one of the `lit` road tiles.
pub open spec fn lit_beside(width: u32, lit: Seq<u32>, t: u32) -> bool {
    exists|i: int| 0 <= i < lit.len() && #[trigger] beside(width, lit[i], t)
}

/// Whether a plant's roads are lit: it has no road within reach, or every road node within
/// the power radius of the road nearest it is among `lit`.
pub open spec fn radius_lit(roads: RoadGraph, width: u32, height: u32, plant: u32, lit: Seq<u32>) -> bool {
    ||| nearest_is(roads.index(), width as nat, height as nat, plant, 3, None)
    ||| exists|start: u32|
        #[trigger] nearest_is(roads.index(), width as nat, height as nat, plant, 3, Some(start))
            && (start as int) < roads.node_seq().len() && forall|n: u32|
            (n as int) < roads.node_seq().len() && #[trigger] within_steps(roads.adjacency(), start, n, POWER_RADIUS as int)
                ==> lit.contains(roads.node_seq()[n as int].tile)
}

/// Whether node `u` is reached and lists `v` among its neighbours.
pub open spec fn feeds(adjacency: Seq<Seq<u32>>, reach: Seq<bool>, u: int, v: u32) -> bool {
    reach[u] && adjacency[u].contains(v)
}

/// One more step reaches what was reached already and every neighbour of it.
proof fn lemma_one_step_more(adjacency: Seq<Seq<u32>>, start: u32, v: u32, k: int)
    requires
        k >= 0,
        (start as int) < adjacency.len(),
        forall|i: int, j: int|
            0 <= i < adjacency.len() && 0 <= j < adjacency[i].len() ==> (#[trigger] adjacency[i][j] as int)
                < adjacency.len(),
    ensures
        within_steps(adjacency, start, v, k + 1) <==> (within_steps(adjacency, start, v, k) || exists|u: u32|
            (u as int) < adjacency.len() && #[trigger] within_steps(adjacency, start, u, k) && adjacency[u as int].contains(v)),
{
    if within_steps(adjacency, start, v, k + 1) && !within_steps(adjacency, start, v, k) {
        let path = choose|path: Seq<u32>|
            #[trigger] is_walk(adjacency, path) && 0 < path.len() <= k + 2 && path[0] == start && path.last() == v;
        if path.len() <= k + 1 {
            assert(within_steps(adjacency, start, v, k));
        }
        let n = path.len() as int;
        let u = path[n - 2];
        let before = path.drop_last();
        assert(is_walk(adjacency, before)) by {
            assert forall|m: int| 0 <= m < before.len() - 1 implies #[trigger] adjacency[before[m] as int].contains(before[m + 1]) by {
                assert(before[m] == path[m] && before[m + 1] == path[m + 1]);
            }
            assert forall|m: int| 0 <= m < before.len() implies (#[trigger] before[m] as int) < adjacency.len() by {
                assert(before[m] == path[m]);
            }
        }
        assert(within_steps(adjacency, start, u, k));
        assert(adjacency[path[n - 2] as int].contains(path[n - 1]));
        assert((u as int) < adjacency.len());
    }
    if within_steps(adjacency, start, v, k) {
        let path = choose|path: Seq<u32>|
            #[trigger] is_walk(adjacency, path) && 0 < path.len() <= k + 1 && path[0] == start && path.last() == v;
        assert(within_steps(adjacency, start, v, k + 1));
    }
    if exists|u: u32|
        (u as int) < adjacency.len() && #[trigger] within_steps(adjacency, start, u, k) && adjacency[u as int].contains(v) {
        let u = choose|u: u32|
            (u as int) < adjacency.len() && #[trigger] within_steps(adjacency, start, u, k) && adjacency[u as int].contains(v);
        let path = choose|path: Seq<u32>|
            #[trigger] is_walk(adjacency, path) && 0 < path.len() <= k + 1 && path[0] == start && path.last() == u;
        let longer = path.push(v);
        let j = choose|j: int| 0 <= j < adjacency[u as int].len() && adjacency[u as int][j] == v;
        assert(is_walk(adjacency, longer)) by {
            assert forall|m: int| 0 <= m < longer.len() - 1 implies #[trigger] adjacency[longer[m] as int].contains(longer[m + 1]) by {
                if m < longer.len() - 2 {
                    assert(longer[m] == path[m] && longer[m + 1] == path[m + 1]);
                } else {
                    assert(longer[m] == u && longer[m + 1] == v);
                }
            }
            assert forall|m: int| 0 <= m < longer.len() implies (#[trigger] longer[m] as int) < adjacency.len() by {
                if m < path.len() {
                    assert(longer[m] == path[m]);
                }
            }
        }
        assert(within_steps(adjacency, start, v, k + 1));
    }
}

/// The nodes a walk of at most `POWER_RADIUS` steps leads to from `start`, marked by node.
/// The flood goes out one step at a time, every reached node lighting its neighbours, so a
/// node counts as reached by its shortest walk, however long a detour also leads to it.
fn reach_within(roads: &RoadGraph, start: u32) -> (r: Vec<bool>)
    requires
        roads.wf(),
        (start as int) < roads.node_seq().len(),
    ensures
        r@.len() == roads.node_seq().len(),
        forall|v: int|
            0 <= v < r@.len() ==> (#[trigger] r@[v] <==> within_steps(roads.adjacency(), start, v as u32, POWER_RADIUS as int)),
{
    proof {
        roads.lemma_ids();
    }
    let ghost adj = roads.adjacency();
    let n = roads.len();
    let mut reach: Vec<bool> = Vec::new();
    while reach.len() < n
        invariant
            reach@.len() <= n,
            forall|i: int| 0 <= i < reach@.len() ==> !#[trigger] reach@[i],
        decreases n - reach@.len(),
    {
        reach.push(false);
    }
    reach.set(start as usize, true);
    proof {
        assert forall|v: int| 0 <= v < n implies (#[trigger] reach@[v] <==> within_steps(adj, start, v as u32, 0)) by {
            if within_steps(adj, start, v as u32, 0) {
                let path = choose|path: Seq<u32>|
                    #[trigger] is_walk(adj, path) && 0 < path.len() <= 1 && path[0] == start && path.last() == v as u32;
            }
            if v == start {
                assert(is_walk(adj, seq![start]));
            }
        }
    }
    let mut round: u32 = 0;
    while round < POWER_RADIUS
        invariant
            adj == roads.adjacency(),
            n == adj.len(),
            n <= u32::MAX,
            (start as int) < n,
            forall|i: int, j: int|
                0 <= i < adj.len() && 0 <= j < adj[i].len() ==> (#[trigger] adj[i][j] as int) < adj.len(),
            round <= POWER_RADIUS,
            reach@.len() == n,
            forall|v: int| 0 <= v < n ==> (#[trigger] reach@[v] <==> within_steps(adj, start, v as u32, round as int)),
        decreases POWER_RADIUS - round,
    {
        let mut next: Vec<bool> = Vec::new();
        while next.len() < n
            invariant
                reach@.len() == n,
                next@.len() <= n,
                forall|i: int| 0 <= i < next@.len() ==> #[trigger] next@[i] == reach@[i],
            decreases n - next@.len(),
        {
            let here = reach[next.len()];
            next.push(here);
        }
        proof {
            assert(next@ =~= reach@);
        }
        let mut u: usize = 0;
        while u < n
            invariant
                adj == roads.adjacency(),
                n == adj.len(),
                n <= u32::MAX,
                forall|i: int, j: int|
                    0 <= i < adj.len() && 0 <= j < adj[i].len() ==> (#[trigger] adj[i][j] as int) < adj.len(),
                reach@.len() == n,
                next@.len() == n,
                u <= n,
                forall|v: int| 0 <= v < n ==> (#[trigger] next@[v] <==> (reach@[v] || exists|w: int|
                    0 <= w < u && #[trigger] feeds(adj, reach@, w, v as u32))),
            decreases n - u,
        {
            if reach[u] {
                let near = roads.neighbours(u as u32);
                let ghost mid = next@;
                let mut k: usize = 0;
                while k < near.len()
                    invariant
                        adj == roads.adjacency(),
                        n == adj.len(),
                        n <= u32::MAX,
                        u < n,
                        reach@[u as int],
                        near@ == adj[u as int],
                        forall|j: int| 0 <= j < adj[u as int].len() ==> (#[trigger] adj[u as int][j] as int) < n,
                        next@.len() == n,
                        mid.len() == n,
                        k <= near@.len(),
                        forall|v: int| 0 <= v < n ==> (#[trigger] next@[v] <==> (mid[v] || exists|j: int|
                            0 <= j < k && near@[j] == v as u32)),
                    decreases near@.len() - k,
                {
                    let to = near[k];
                    next.set(to as usize, true);
                    proof {
                        assert forall|v: int| 0 <= v < n implies (#[trigger] next@[v] <==> (mid[v] || exists|j: int|
                            0 <= j < k + 1 && near@[j] == v as u32)) by {
                            if v == to as int {
                                assert(near@[k as int] == v as u32);
                            } else if exists|j: int| 0 <= j < k + 1 && near@[j] == v as u32 {
                                let j = choose|j: int| 0 <= j < k + 1 && near@[j] == v as u32;
                                assert(near@[k as int] == to);
                                assert(j != k);
                            }
                        }
                    }
                    k += 1;
                }
                proof {
                    assert forall|v: int| 0 <= v < n implies (#[trigger] next@[v] <==> (reach@[v] || exists|w: int|
                        0 <= w < u + 1 && #[trigger] feeds(adj, reach@, w, v as u32))) by {
                        if exists|j: int| 0 <= j < near@.len() && near@[j] == v as u32 {
                            assert(adj[u as int].contains(v as u32));
                            assert(feeds(adj, reach@, u as int, v as u32));
                        }
                        if feeds(adj, reach@, u as int, v as u32) {
                            let j = choose|j: int| 0 <= j < adj[u as int].len() && adj[u as int][j] == v as u32;
                            assert(near@[j] == v as u32);
                        }
                    }
                }
            } else {
                proof {
                    assert forall|v: int| 0 <= v < n implies (#[trigger] next@[v] <==> (reach@[v] || exists|w: int|
                        0 <= w < u + 1 && #[trigger] feeds(adj, reach@, w, v as u32))) by {
                        assert(!feeds(adj, reach@, u as int, v as u32));
                    }
                }
            }
            u += 1;
        }
        proof {
            assert forall|v: int| 0 <= v < n implies (#[trigger] next@[v] <==> within_steps(adj, start, v as u32, round + 1)) by {
                lemma_one_step_more(adj, start, v as u32, round as int);
                if exists|w: int| 0 <= w < n && #[trigger] feeds(adj, reach@, w, v as u32) {
                    let w = choose|w: int| 0 <= w < n && #[trigger] feeds(adj, reach@, w, v as u32);
                    assert(reach@[w]);
                    assert((w as u32) as int == w);
                    assert(within_steps(adj, start, w as u32, round as int));
                }
                if exists|x: u32|
                    (x as int) < adj.len() && #[trigger] within_steps(adj, start, x, round as int) && adj[x as int].contains(v as u32) {
                    let x = choose|x: u32|
                        (x as int) < adj.len() && #[trigger] within_steps(adj, start, x, round as int) && adj[x as int].contains(v as u32);
                    assert(reach@[x as int]);
                    assert(feeds(adj, reach@, x as int, v as u32));
                }
            }
        }
        reach = next;
        round += 1;
    }
    reach
}

impl Ground {
    /// Light every tile beside one of `lit`, and darken every other.
    fn light(&mut self, lit: &Vec<u32>)
        requires
            old(self).fits(),
            old(self).width > 0,
        ensures
            final(self).width == old(self).width,
            final(self).height == old(self).height,
            final(self).seed == old(self).seed,
            final(self).tiles@.len() == old(self).tiles@.len(),
            forall|t: int|
                0 <= t < old(self).tiles@.len() ==> #[trigger] final(self).tiles@[t] == (Tile {
                    powered: lit_beside(old(self).width, lit@, t as u32),
                    ..old(self).tiles@[t]
                }),
    {
        let n = self.tiles.len();
        let ghost before = self.tiles@;
        let mut t: usize = 0;
        while t < n
            invariant
                self.width == old(self).width,
                self.height == old(self).height,
                self.seed == old(self).seed,
                before == old(self).tiles@,
                n == before.len(),
                self.tiles@.len() == n,
                t <= n,
                forall|i: int| 0 <= i < n ==> #[trigger] self.tiles@[i] == (Tile {
                    powered: if i < t { false } else { before[i].powered },
                    ..before[i]
                }),
            decreases n - t,
        {
            let here = self.tiles[t];
            self.tiles.set(t, Tile { powered: false, ..here });
            t += 1;
        }
        let width = self.width;
        let height = self.height;
        let mut i: usize = 0;
        while i < lit.len()
            invariant
                self.width == width,
                self.height == height,
                self.seed == old(self).seed,
                width == old(self).width,
                height == old(self).height,
                width > 0,
                width * height <= u32::MAX,
                before == old(self).tiles@,
                n == before.len(),
                n == width * height,
                self.tiles@.len() == n,
                i <= lit@.len(),
                forall|x: int| 0 <= x < n ==> #[trigger] self.tiles@[x] == (Tile {
                    powered: lit_beside(width, lit@.take(i as int), x as u32),
                    ..before[x]
                }),
            decreases lit@.len() - i,
        {
            let center = lit[i];
            let cx = (center % width) as i64;
            let cy = (center / width) as i64;
            let ghost mid = self.tiles@;
            let mut k: i64 = 0;
            while k < 9
                invariant
                    self.width == width,
                    self.height == height,
                    self.seed == old(self).seed,
                    width > 0,
                    width * height <= u32::MAX,
                    n == width * height,
                    self.tiles@.len() == n,
                    cx == center as int % width as int,
                    cy == center as int / width as int,
                    0 <= k <= 9,
                    forall|x: int| 0 <= x < n ==> #[trigger] self.tiles@[x] == (Tile {
                        powered: mid[x].powered || exists|j: int| 0 <= j < k && #[trigger] spot(width, height, center, j) == Some(x as u32),
                        ..mid[x]
                    }),
                decreases 9 - k,
            {
                let nx = cx + (k % 3 - 1);
                let ny = cy + (k / 3 - 1);
                if 0 <= nx && nx < width as i64 && 0 <= ny && ny < height as i64 {
                    proof {
                        assert(0 <= ny * width + nx < width * height) by (nonlinear_arith)
                            requires
                                0 <= nx < width,
                                0 <= ny < height,
                        ;
                    }
                    let x = (ny as u32) * width + (nx as u32);
                    let here = self.tiles[x as usize];
                    self.tiles.set(x as usize, Tile { powered: true, ..here });
                    proof {
                        assert(spot(width, height, center, k as int) == Some(x));
                        assert forall|y: int| 0 <= y < n implies #[trigger] self.tiles@[y] == (Tile {
                            powered: mid[y].powered || exists|j: int| 0 <= j < k + 1 && #[trigger] spot(width, height, center, j) == Some(y as u32),
                            ..mid[y]
                        }) by {
                            if y == x as int {
                                assert(spot(width, height, center, k as int) == Some(y as u32));
                            } else {
                                assert(spot(width, height, center, k as int) != Some(y as u32));
                            }
                        }
                    }
                } else {
                    proof {
                        assert(spot(width, height, center, k as int) is None);
                        assert forall|y: int| 0 <= y < n implies #[trigger] self.tiles@[y] == (Tile {
                            powered: mid[y].powered || exists|j: int| 0 <= j < k + 1 && #[trigger] spot(width, height, center, j) == Some(y as u32),
                            ..mid[y]
                        }) by {
                            assert(spot(width, height, center, k as int) != Some(y as u32));
                        }
                    }
                }
                k += 1;
            }
            proof {
                assert forall|x: int| 0 <= x < n implies #[trigger] self.tiles@[x] == (Tile {
                    powered: lit_beside(width, lit@.take(i as int + 1), x as u32),
                    ..before[x]
                }) by {
                    lemma_spots(width, height, center, x as u32);
                    let next = lit@.take(i as int + 1);
                    assert(next[i as int] == center);
                    if lit_beside(width, lit@.take(i as int), x as u32) {
                        let j = choose|j: int| 0 <= j < i && #[trigger] beside(width, lit@.take(i as int)[j], x as u32);
                        assert(next[j] == lit@.take(i as int)[j]);
                    }
                    if lit_beside(width, next, x as u32) {
                        let j = choose|j: int| 0 <= j < i + 1 && #[trigger] beside(width, next[j], x as u32);
                        if j < i {
                            assert(lit@.take(i as int)[j] == next[j]);
                        }
                    }
                }
            }
            i += 1;
        }
        proof {
            assert(lit@.take(lit@.len() as int) =~= lit@);
        }
    }

    /// Recompute which tiles and structures have power, and whether the city is in
    /// brownout: more consumers than its standing plants can carry.
    ///
    /// Out of brownout, each plant lights every road node within the power radius, in road
    /// steps, of the road nearest it (within three tiles). Every tile beside a lit road is
    /// powered, and every structure is powered exactly when its tile is. In brownout
    /// nothing is.
    pub fn recompute_power(&mut self, buildings: &mut Vec<Building>, roads: &RoadGraph) -> (brownout: bool)
        requires
            old(self).fits(),
            old(self).width > 0,
            old(self).width + 3 <= i32::MAX,
            old(self).height + 3 <= i32::MAX,
            roads.wf(),
            forall|i: int| 0 <= i < old(buildings)@.len() ==> #[trigger] old(buildings)@[i].tile < old(self).tiles@.len(),
            plant_tiles(old(buildings)@).len() * POWER_PER_PLANT <= u32::MAX,
            consumer_count(old(buildings)@) <= u32::MAX,
        ensures
            brownout == (consumer_count(old(buildings)@) > plant_tiles(old(buildings)@).len() * POWER_PER_PLANT),
            final(self).width == old(self).width,
            final(self).height == old(self).height,
            final(self).seed == old(self).seed,
            final(self).tiles@.len() == old(self).tiles@.len(),
            forall|t: int|
                0 <= t < old(self).tiles@.len() ==> #[trigger] final(self).tiles@[t] == (Tile {
                    powered: final(self).tiles@[t].powered,
                    ..old(self).tiles@[t]
                }),
            brownout ==> forall|t: int| 0 <= t < old(self).tiles@.len() ==> !(#[trigger] final(self).tiles@[t]).powered,
            !brownout ==> forall|t: int|
                0 <= t < old(self).tiles@.len() && (#[trigger] final(self).tiles@[t]).powered ==> exists|road: u32|
                    #[trigger] beside(old(self).width, road, t as u32) && reached_by(
                        *roads,
                        old(self).width,
                        old(self).height,
                        plant_tiles(old(buildings)@),
                        road,
                    ),
            !brownout ==> forall|q: int, t: int|
                0 <= q < plant_tiles(old(buildings)@).len() && 0 <= t < old(self).tiles@.len() ==> #[trigger] radius_lights(
                    *roads,
                    old(self).width,
                    old(self).height,
                    plant_tiles(old(buildings)@)[q],
                    final(self).tiles@,
                    t,
                ),
            final(buildings)@.len() == old(buildings)@.len(),
            forall|i: int|
                0 <= i < old(buildings)@.len() ==> #[trigger] final(buildings)@[i] == (Building {
                    powered: final(self).tiles@[old(buildings)@[i].tile as int].powered,
                    ..old(buildings)@[i]
                }),
    {
        proof {
            roads.lemma_ids();
        }
        let width = self.width;
        let height = self.height;
        // The standing plants, and how many structures draw from them.
        let mut plants: Vec<u32> = Vec::new();
        let mut consumers: u32 = 0;
        let mut b: usize = 0;
        while b < buildings.len()
            invariant
                b <= buildings@.len(),
                buildings@ == old(buildings)@,
                consumer_count(old(buildings)@) <= u32::MAX,
                plants@ == plant_tiles(buildings@.take(b as int)),
                consumers == consumer_count(buildings@.take(b as int)),
                forall|i: int| 0 <= i < buildings@.len() ==> #[trigger] buildings@[i].tile < self.tiles@.len(),
                forall|i: int| 0 <= i < plants@.len() ==> #[trigger] plants@[i] < self.tiles@.len(),
            decreases buildings@.len() - b,
        {
            proof {
                assert(buildings@.take(b as int + 1).drop_last() =~= buildings@.take(b as int));
                lemma_consumers_grow(buildings@, b as int + 1);
            }
            let here = &buildings[b];
            if here.retired.is_none() {
                if here.kind == BuildingKind::PowerPlant {
                    plants.push(here.tile);
                } else {
                    consumers = consumers + 1;
                }
            }
            b += 1;
        }
        proof {
            assert(buildings@.take(buildings@.len() as int) =~= buildings@);
        }
        let capacity = plants.len() as u32 * POWER_PER_PLANT;
        let brownout = consumers > capacity;
        let mut lit: Vec<u32> = Vec::new();
        if !brownout {
            let node_count = roads.len();
            let mut p: usize = 0;
            while p < plants.len()
                invariant
                    self.fits(),
                    width == self.width,
                    height == self.height,
                    width > 0,
                    width + 3 <= i32::MAX,
                    height + 3 <= i32::MAX,
                    roads.wf(),
                    node_count == roads.node_seq().len(),
                    node_count <= u32::MAX,
                    roads.adjacency().len() == node_count,
                    forall|t: u32| #[trigger]
                        roads.index().contains_key(t) ==> (roads.index()[t] as int) < node_count,
                    forall|i: int, k: int|
                        0 <= i < roads.adjacency().len() && 0 <= k < roads.adjacency()[i].len() ==> (
                        #[trigger] roads.adjacency()[i][k] as int) < node_count,
                    plants@ == plant_tiles(old(buildings)@),
                    forall|i: int| 0 <= i < plants@.len() ==> #[trigger] plants@[i] < self.tiles@.len(),
                    p <= plants@.len(),
                    forall|i: int| 0 <= i < lit@.len() ==> #[trigger] reached_by(*roads, width, height, plants@, lit@[i]),
                    forall|q: int| 0 <= q < p ==> #[trigger] radius_lit(*roads, width, height, plants@[q], lit@),
                decreases plants@.len() - p,
            {
                let plant = plants[p];
                proof {
                    assert(plant / width < height) by (nonlinear_arith)
                        requires
                            plant < width * height,
                            width > 0,
                    ;
                }
                let nearest = roads.nearest_node_within(width, height, plant, 3);
                let ghost lit_before = lit@;
                match nearest {
                    None => {},
                    Some(start) => {
                        proof {
                            let (x, y) = choose|x: int, y: int|
                                #[trigger] crate::sim::road::nearest_pick(roads.index(), width as nat, height as nat, plant as int % width as int, plant as int / width as int, 3, x, y)
                                    && start == roads.index()[(y * width + x) as u32];
                        }
                        let reach = reach_within(roads, start);
                        let mut v: usize = 0;
                        while v < node_count
                            invariant
                                width == self.width,
                                height == self.height,
                                width > 0,
                                roads.wf(),
                                node_count == roads.node_seq().len(),
                                node_count <= u32::MAX,
                                plants@ == plant_tiles(old(buildings)@),
                                p < plants@.len(),
                                plant == plants@[p as int],
                                nearest_is(roads.index(), width as nat, height as nat, plant, 3, Some(start)),
                                (start as int) < node_count,
                                reach@.len() == node_count,
                                forall|x: int|
                                    0 <= x < node_count ==> (#[trigger] reach@[x] <==> within_steps(
                                        roads.adjacency(),
                                        start,
                                        x as u32,
                                        POWER_RADIUS as int,
                                    )),
                                v <= node_count,
                                lit_before.len() <= lit@.len(),
                                lit@.take(lit_before.len() as int) == lit_before,
                                forall|i: int| 0 <= i < lit@.len() ==> #[trigger] reached_by(*roads, width, height, plants@, lit@[i]),
                                forall|x: int| 0 <= x < v && reach@[x] ==> lit@.contains(#[trigger] roads.node_seq()[x].tile),
                            decreases node_count - v,
                        {
                            if reach[v] {
                                let road_tile = roads.node_tile(v as u32);
                                proof {
                                    assert(reach@[v as int]);
                                    assert(within_steps(roads.adjacency(), start, v as u32, POWER_RADIUS as int));
                                    assert(roads.node_seq()[(v as u32) as int].tile == road_tile);
                                    assert(reached_by(*roads, width, height, plants@, road_tile));
                                }
                                let ghost lit_mid = lit@;
                                lit.push(road_tile);
                                proof {
                                    assert(lit@.take(lit_before.len() as int) =~= lit_mid.take(lit_before.len() as int));
                                    assert forall|x: int| 0 <= x < v + 1 && reach@[x] implies lit@.contains(#[trigger] roads.node_seq()[x].tile) by {
                                        if x < v {
                                            assert(lit_mid.contains(roads.node_seq()[x].tile));
                                            let k = choose|k: int| 0 <= k < lit_mid.len() && lit_mid[k] == roads.node_seq()[x].tile;
                                            assert(lit@[k] == lit_mid[k]);
                                        } else {
                                            assert(lit@[lit_mid.len() as int] == road_tile);
                                        }
                                    }
                                }
                            }
                            v += 1;
                        }
                        proof {
                            assert forall|x: u32|
                                (x as int) < roads.node_seq().len() && #[trigger] within_steps(
                                    roads.adjacency(),
                                    start,
                                    x,
                                    POWER_RADIUS as int,
                                ) implies lit@.contains(roads.node_seq()[x as int].tile) by {
                                assert(reach@[x as int]);
                            }
                            assert(radius_lit(*roads, width, height, plant, lit@));
                        }
                    },
                }
                proof {
                    assert forall|q: int| 0 <= q < p + 1 implies #[trigger] radius_lit(*roads, width, height, plants@[q], lit@) by {
                        if q < p {
                            assert(radius_lit(*roads, width, height, plants@[q], lit_before));
                            if !nearest_is(roads.index(), width as nat, height as nat, plants@[q], 3, None) {
                                let s = choose|s: u32|
                                    #[trigger] nearest_is(roads.index(), width as nat, height as nat, plants@[q], 3, Some(s))
                                        && (s as int) < roads.node_seq().len() && forall|n: u32|
                                        (n as int) < roads.node_seq().len() && #[trigger] within_steps(roads.adjacency(), s, n, POWER_RADIUS as int)
                                            ==> lit_before.contains(roads.node_seq()[n as int].tile);
                                assert forall|n: u32|
                                    (n as int) < roads.node_seq().len() && #[trigger] within_steps(roads.adjacency(), s, n, POWER_RADIUS as int)
                                        implies lit@.contains(roads.node_seq()[n as int].tile) by {
                                    let k = choose|k: int| 0 <= k < lit_before.len() && lit_before[k] == roads.node_seq()[n as int].tile;
                                    assert(lit@.take(lit_before.len() as int)[k] == lit@[k]);
                                }
                            }
                        } else if nearest is None {
                            assert(nearest_is(roads.index(), width as nat, height as nat, plants@[q], 3, None));
                        }
                    }
                }
                p += 1;
            }
        }
        self.light(&lit);
        let mut i: usize = 0;
        while i < buildings.len()
            invariant
                i <= buildings@.len(),
                buildings@.len() == old(buildings)@.len(),
                self.tiles@.len() == old(self).tiles@.len(),
                forall|j: int| 0 <= j < old(buildings)@.len() ==> #[trigger] old(buildings)@[j].tile < old(self).tiles@.len(),
                forall|j: int|
                    0 <= j < buildings@.len() ==> #[trigger] buildings@[j] == if j < i {
                        Building { powered: self.tiles@[old(buildings)@[j].tile as int].powered, ..old(buildings)@[j] }
                    } else {
                        old(buildings)@[j]
                    },
            decreases buildings@.len() - i,
        {
            let tile = buildings[i].tile;
            let powered = self.tiles[tile as usize].powered;
            buildings[i].powered = powered;
            i += 1;
        }
        proof {
            assert forall|t: int| 0 <= t < old(self).tiles@.len() && !brownout && (#[trigger] self.tiles@[t]).powered implies exists|road: u32|
                #[trigger] beside(width, road, t as u32) && reached_by(*roads, width, height, plant_tiles(old(buildings)@), road) by {
                let i = choose|i: int| 0 <= i < lit@.len() && #[trigger] beside(width, lit@[i], t as u32);
                assert(reached_by(*roads, width, height, plants@, lit@[i]));
            }
            if !brownout {
                assert(width == old(self).width && height == old(self).height);
                assert forall|q: int, t: int|
                    0 <= q < plant_tiles(old(buildings)@).len() && 0 <= t < old(self).tiles@.len() implies #[trigger] radius_lights(
                        *roads,
                        old(self).width,
                        old(self).height,
                        plant_tiles(old(buildings)@)[q],
                        self.tiles@,
                        t,
                    ) by {
                    assert(radius_lit(*roads, width, height, plants@[q], lit@));
                    if !nearest_is(roads.index(), width as nat, height as nat, plants@[q], 3, None) {
                        let s = choose|s: u32|
                            #[trigger] nearest_is(roads.index(), width as nat, height as nat, plants@[q], 3, Some(s))
                                && (s as int) < roads.node_seq().len() && forall|n: u32|
                                (n as int) < roads.node_seq().len() && #[trigger] within_steps(roads.adjacency(), s, n, POWER_RADIUS as int)
                                    ==> lit@.contains(roads.node_seq()[n as int].tile);
                        assert forall|n: u32|
                            (n as int) < roads.node_seq().len() && #[trigger] within_steps(roads.adjacency(), s, n, POWER_RADIUS as int)
                                && beside(width, roads.node_seq()[n as int].tile, t as u32) implies self.tiles@[t].powered by {
                            let k = choose|k: int| 0 <= k < lit@.len() && lit@[k] == roads.node_seq()[n as int].tile;
                            assert(beside(width, lit@[k], t as u32));
                            assert(lit_beside(width, lit@, t as u32));
                        }
                        assert(nearest_is(roads.index(), old(self).width as nat, old(self).height as nat, plant_tiles(old(buildings)@)[q], 3, Some(s)));
                    }
                }
            }
        }
        brownout
    }
}

} // verus!

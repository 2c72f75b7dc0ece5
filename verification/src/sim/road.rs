//! The road network.
//!
//! The graph is rebuilt from the tile grid rather than stored beside it, so there is
//! exactly one source of truth for where a road is and no way for the graph to disagree
//! with the map. The graph is a grid, the search is A* with a Manhattan heuristic, and the
//! contracts say what a route is: a walk along the graph's own edges, from one end to the
//! other, and no route only where none exists.
use vstd::prelude::*;

use std::collections::HashMap;

use crate::lookup::{each_of, lemma_each_of_step, lemma_take_all};
use crate::sim::Tile;

verus! {

broadcast use vstd::std_specs::hash::group_hash_axioms;

/// The largest number of tiles a single road leg may span. A leg beyond this is refused
/// rather than truncated.
pub const MAX_LEG_TILES: u32 = 64;

/// One road tile, as a node of the graph.
#[derive(Clone, Copy, Debug, PartialEq, Eq, Structural)]
pub struct RoadNode {
    pub tile: u32,
    pub x: u32,
    pub y: u32,
}

/// The node a grid position would be, were it a road.
pub open spec fn cell(width: nat, t: nat) -> RoadNode {
    RoadNode { tile: t as u32, x: (t % width) as u32, y: (t / width) as u32 }
}

/// Whether a node's tile is a road.
pub open spec fn is_road(tiles: Seq<Tile>) -> spec_fn(RoadNode) -> bool {
    |n: RoadNode| tiles[n.tile as int].road
}

/// The road tiles of a `width × height` grid, as nodes, in row-major order.
pub open spec fn road_nodes(width: nat, height: nat, tiles: Seq<Tile>) -> Seq<RoadNode> {
    Seq::new(width * height, |t: int| cell(width, t as nat)).filter(is_road(tiles))
}

/// The four orthogonal steps, in the order a node's neighbours are listed.
pub open spec fn steps() -> Seq<(int, int)> {
    seq![(1int, 0int), (-1int, 0int), (0int, 1int), (0int, -1int)]
}

/// The tile one step away from a node, when that step stays on the grid.
pub open spec fn step_tile(width: nat, height: nat, n: RoadNode, d: (int, int)) -> Option<u32> {
    let nx = n.x + d.0;
    let ny = n.y + d.1;
    if 0 <= nx < width && 0 <= ny < height {
        Some((ny * width + nx) as u32)
    } else {
        None
    }
}

/// A node's neighbours: the road nodes one orthogonal step away, in step order.
/// Diagonal tiles are not neighbours, so a route cannot cut a corner.
pub open spec fn neighbours_of(
    index: Map<u32, u32>,
    width: nat,
    height: nat,
    n: RoadNode,
) -> Seq<u32> {
    each_of(steps(), neighbour_step(index, width, height, n))
}

/// The neighbour one step gives, if that step lands on a road node.
pub open spec fn neighbour_step(index: Map<u32, u32>, width: nat, height: nat, n: RoadNode) -> spec_fn(
    (int, int),
) -> Seq<u32> {
    |d: (int, int)|
        match step_tile(width, height, n, d) {
            Some(t) => if index.contains_key(t) {
                seq![index[t]]
            } else {
                Seq::<u32>::empty()
            },
            None => Seq::<u32>::empty(),
        }
}

/// Whether a sequence of node ids is a walk of the graph: every id a node, and every next
/// id a neighbour of the one before.
pub open spec fn is_walk(adjacency: Seq<Seq<u32>>, path: Seq<u32>) -> bool {
    &&& forall|k: int| 0 <= k < path.len() ==> (#[trigger] path[k] as int) < adjacency.len()
    &&& forall|k: int|
        0 <= k < path.len() - 1 ==> #[trigger] adjacency[path[k] as int].contains(path[k + 1])
}

/// Whether `path` has no more nodes than any walk of the graph from `a` to `b`: a route of
/// fewest hops.
pub open spec fn fewest_hops(adjacency: Seq<Seq<u32>>, a: u32, b: u32, path: Seq<u32>) -> bool {
    forall|p: Seq<u32>|
        p.len() > 0 && #[trigger] is_walk(adjacency, p) && p[0] == a && p.last() == b ==> path.len() <= p.len()
}

/// Whether some walk of the graph leads from one node to another.
pub open spec fn reachable(adjacency: Seq<Seq<u32>>, from: u32, to: u32) -> bool {
    exists|path: Seq<u32>|
        path.len() > 0 && #[trigger] is_walk(adjacency, path) && path[0] == from && path.last()
            == to
}

/// The road graph: a node per road tile, the tile index, and each node's neighbours.
#[derive(Clone, Debug)]
pub struct RoadGraph {
    pub nodes: Vec<RoadNode>,
    by_tile: HashMap<u32, u32>,
    adj: Vec<Vec<u32>>,
}

impl RoadGraph {
    /// The nodes, by id.
    pub closed spec fn node_seq(&self) -> Seq<RoadNode> {
        self.nodes@
    }

    /// Each node's neighbours, by node id.
    pub closed spec fn adjacency(&self) -> Seq<Seq<u32>> {
        self.adj@.map_values(|v: Vec<u32>| v@)
    }

    /// The node id each road tile has.
    pub closed spec fn index(&self) -> Map<u32, u32> {
        self.by_tile@
    }

    /// The graph of a `width × height` grid: every node on the grid at its own tile, one
    /// node per tile, the index naming each node by its tile, and every neighbour a node.
    pub closed spec fn wf_in(&self, width: nat, height: nat) -> bool {
        &&& width * height <= u32::MAX
        &&& self.adj@.len() == self.nodes@.len()
        &&& self.nodes@.len() <= u32::MAX
        &&& forall|i: int|
            0 <= i < self.nodes@.len() ==> {
                let n = #[trigger] self.nodes@[i];
                &&& n.x < width
                &&& n.y < height
                &&& n.tile == n.y * width + n.x
                &&& self.by_tile@.contains_key(n.tile)
                &&& self.by_tile@[n.tile] == i
            }
        &&& forall|t: u32| #[trigger]
            self.by_tile@.contains_key(t) ==> (self.by_tile@[t] as int) < self.nodes@.len()
                && self.nodes@[self.by_tile@[t] as int].tile == t
        &&& forall|i: int, k: int|
            0 <= i < self.adj@.len() && 0 <= k < self.adj@[i]@.len() ==> (#[trigger] self.adj@[i]@[k]
                as int) < self.nodes@.len()
        &&& forall|i: int, k: int|
            0 <= i < self.adj@.len() && 0 <= k < self.adj@[i]@.len() ==> manhattan(
                self.nodes@[i],
                self.nodes@[#[trigger] self.adj@[i]@[k] as int],
            ) == 1
    }

    /// Whether the graph is one that a rebuild of some grid produces.
    pub open spec fn wf(&self) -> bool {
        exists|width: nat, height: nat| #[trigger] self.wf_in(width, height)
    }

    /// In a graph of a grid, every id the index names is a node at that tile, and every
    /// neighbour listed is a node.
    pub proof fn lemma_ids(&self)
        requires
            self.wf(),
        ensures
            self.adjacency().len() == self.node_seq().len(),
            self.node_seq().len() <= u32::MAX,
            forall|t: u32| #[trigger]
                self.index().contains_key(t) ==> (self.index()[t] as int) < self.node_seq().len()
                    && self.node_seq()[self.index()[t] as int].tile == t,
            forall|i: int, k: int|
                0 <= i < self.adjacency().len() && 0 <= k < self.adjacency()[i].len() ==> (
                #[trigger] self.adjacency()[i][k] as int) < self.node_seq().len(),
            forall|i: int, k: int|
                0 <= i < self.adjacency().len() && 0 <= k < self.adjacency()[i].len() ==> manhattan(
                    self.node_seq()[i],
                    self.node_seq()[#[trigger] self.adjacency()[i][k] as int],
                ) == 1,
    {
        let (w, h) = choose|w: nat, h: nat| #[trigger] self.wf_in(w, h);
        assert forall|i: int, k: int|
            0 <= i < self.adjacency().len() && 0 <= k < self.adjacency()[i].len() implies (
            #[trigger] self.adjacency()[i][k] as int) < self.node_seq().len() && manhattan(
                self.node_seq()[i],
                self.node_seq()[self.adjacency()[i][k] as int],
            ) == 1 by {
            assert(self.adjacency()[i] == self.adj@[i]@);
            assert(self.adj@[i]@[k] == self.adjacency()[i][k]);
        }
    }

    /// Rebuild from the tiles. Called after any road change; roads are laid rarely and the
    /// map is small, so the cost is not worth optimising away.
    pub fn rebuild(width: u32, height: u32, tiles: &[Tile]) -> (g: RoadGraph)
        requires
            width * height <= u32::MAX,
            tiles@.len() >= width * height,
        ensures
            g.wf_in(width as nat, height as nat),
            g.wf(),
            g.node_seq() == road_nodes(width as nat, height as nat, tiles@),
            g.adjacency().len() == g.node_seq().len(),
            forall|i: int|
                0 <= i < g.node_seq().len() ==> #[trigger] g.adjacency()[i] == neighbours_of(
                    g.index(),
                    width as nat,
                    height as nat,
                    g.node_seq()[i],
                ),
    {
        let n: u32 = width * height;
        let ghost all = Seq::new(width as nat * height as nat, |t: int| cell(width as nat, t as nat));
        let mut nodes: Vec<RoadNode> = Vec::new();
        let mut by_tile: HashMap<u32, u32> = HashMap::new();
        let mut t: u32 = 0;
        while t < n
            invariant
                n == width * height,
                t <= n,
                tiles@.len() >= n,
                all == Seq::new(width as nat * height as nat, |t: int| cell(width as nat, t as nat)),
                nodes@ == all.take(t as int).filter(is_road(tiles@)),
                nodes@.len() <= t,
                forall|i: int|
                    0 <= i < nodes@.len() ==> {
                        let m = #[trigger] nodes@[i];
                        &&& m.tile < t
                        &&& m.x < width
                        &&& m.y < height
                        &&& m.tile == m.y * width + m.x
                        &&& by_tile@.contains_key(m.tile)
                        &&& by_tile@[m.tile] == i
                    },
                forall|u: u32| #[trigger]
                    by_tile@.contains_key(u) ==> (by_tile@[u] as int) < nodes@.len()
                        && nodes@[by_tile@[u] as int].tile == u,
            decreases n - t,
        {
            let x = t % width;
            let y = t / width;
            proof {
                assert(width > 0);
                vstd::arithmetic::div_mod::lemma_fundamental_div_mod(t as int, width as int);
                assert(y * width + x == t) by (nonlinear_arith)
                    requires
                        t == width * (t / width) + t % width,
                        y == t / width,
                        x == t % width,
                ;
                assert(y < height) by (nonlinear_arith)
                    requires
                        y * width + x == t,
                        t < width * height,
                        x >= 0,
                        width > 0,
                ;
                let next = all.take(t as int + 1);
                assert(next.drop_last() =~= all.take(t as int));
                assert(next.last() == RoadNode { tile: t, x, y });
                reveal(Seq::filter);
            }
            if tiles[t as usize].road {
                let id = nodes.len() as u32;
                nodes.push(RoadNode { tile: t, x, y });
                by_tile.insert(t, id);
            }
            t += 1;
        }
        proof {
            assert(all.take(n as int) =~= all);
        }
        let mut adj: Vec<Vec<u32>> = Vec::new();
        let mut id: usize = 0;
        while id < nodes.len()
            invariant
                id <= nodes@.len(),
                adj@.len() == id,
                width * height <= u32::MAX,
                forall|i: int|
                    0 <= i < nodes@.len() ==> {
                        let m = #[trigger] nodes@[i];
                        &&& m.x < width
                        &&& m.y < height
                        &&& m.tile == m.y * width + m.x
                        &&& by_tile@.contains_key(m.tile)
                        &&& by_tile@[m.tile] == i
                    },
                forall|u: u32| #[trigger]
                    by_tile@.contains_key(u) ==> (by_tile@[u] as int) < nodes@.len()
                        && nodes@[by_tile@[u] as int].tile == u,
                forall|i: int|
                    0 <= i < id ==> #[trigger] adj@[i]@ == neighbours_of(
                        by_tile@,
                        width as nat,
                        height as nat,
                        nodes@[i],
                    ),
            decreases nodes@.len() - id,
        {
            let node = nodes[id];
            let list = neighbours_at(&by_tile, width, height, node);
            adj.push(list);
            id += 1;
        }
        let g = RoadGraph { nodes, by_tile, adj };
        proof {
            assert forall|i: int, k: int|
                0 <= i < g.adj@.len() && 0 <= k < g.adj@[i]@.len() implies (#[trigger] g.adj@[i]@[k]
                as int) < g.nodes@.len() by {
                lemma_neighbours_are_nodes(g.by_tile@, width as nat, height as nat, g.nodes@[i], g.nodes@.len());
            }
            assert forall|i: int, k: int|
                0 <= i < g.adj@.len() && 0 <= k < g.adj@[i]@.len() implies manhattan(
                g.nodes@[i],
                g.nodes@[#[trigger] g.adj@[i]@[k] as int],
            ) == 1 by {
                let m = g.nodes@[i];
                lemma_neighbours_near(g.by_tile@, width as nat, height as nat, m);
                let u = g.adj@[i]@[k];
                assert(a_step_from(steps(), g.by_tile@, width as nat, height as nat, m, u));
                let (j, t) = choose|j: int, t: u32|
                    #![trigger step_tile(width as nat, height as nat, m, steps()[j]), g.by_tile@[t]]
                    0 <= j < steps().len() && step_tile(width as nat, height as nat, m, steps()[j]) == Some(t)
                        && g.by_tile@.contains_key(t) && g.by_tile@[t] == u;
                let d = steps()[j];
                let o = g.nodes@[u as int];
                assert(o.tile == t);
                let nx = m.x + d.0;
                let ny = m.y + d.1;
                assert(0 <= nx < width && 0 <= ny < height);
                assert(ny * width + nx < width * height) by (nonlinear_arith)
                    requires
                        0 <= nx < width,
                        0 <= ny < height,
                ;
                assert(t == ny * width + nx);
                crate::sim::ground::lemma_tile_injective(width as int, o.x as int, o.y as int, nx, ny);
            }
            assert(g.wf_in(width as nat, height as nat));
        }
        g
    }
}

impl Default for RoadGraph {
    fn default() -> (g: Self)
        ensures
            g.node_seq().len() == 0,
            g.wf(),
    {
        let g = RoadGraph { nodes: Vec::new(), by_tile: HashMap::new(), adj: Vec::new() };
        proof {
            assert(g.wf_in(0, 0));
        }
        g
    }
}

/// The distance of a position from a centre, in rings: the larger of the two offsets.
pub open spec fn ring(tx: int, ty: int, x: int, y: int) -> int {
    let dx = if x >= tx { x - tx } else { tx - x };
    let dy = if y >= ty { y - ty } else { ty - y };
    if dx >= dy { dx } else { dy }
}

/// The squared straight-line distance of a position from a centre.
pub open spec fn reach2(tx: int, ty: int, x: int, y: int) -> int {
    (x - tx) * (x - tx) + (y - ty) * (y - ty)
}

/// Whether a grid position is on the map and is a road node.
pub open spec fn hits(index: Map<u32, u32>, width: nat, height: nat, x: int, y: int) -> bool {
    0 <= x < width && 0 <= y < height && index.contains_key((y * width + x) as u32)
}

/// Whether a position comes before another in the order a ring is searched: row by row,
/// then column by column.
pub open spec fn scanned_before(x: int, y: int, x2: int, y2: int) -> bool {
    y < y2 || (y == y2 && x < x2)
}

/// The position a search for the road nearest `(tx, ty)` picks: a road within `radius`
/// rings, no road on a nearer ring, and on its own ring the nearest in a straight line,
/// the earliest searched among equals.
pub open spec fn nearest_pick(
    index: Map<u32, u32>,
    width: nat,
    height: nat,
    tx: int,
    ty: int,
    radius: int,
    x: int,
    y: int,
) -> bool {
    &&& hits(index, width, height, x, y)
    &&& ring(tx, ty, x, y) <= radius
    &&& forall|x2: int, y2: int| #[trigger]
        hits(index, width, height, x2, y2) ==> ring(tx, ty, x2, y2) >= ring(tx, ty, x, y)
    &&& forall|x2: int, y2: int| #[trigger]
        hits(index, width, height, x2, y2) && ring(tx, ty, x2, y2) == ring(tx, ty, x, y) ==> reach2(
            tx,
            ty,
            x,
            y,
        ) < reach2(tx, ty, x2, y2) || (reach2(tx, ty, x, y) == reach2(tx, ty, x2, y2)
            && !scanned_before(x2, y2, x, y))
}

/// The answer a search for the road nearest a tile gives.
pub open spec fn nearest_is(
    index: Map<u32, u32>,
    width: nat,
    height: nat,
    tile: u32,
    radius: u32,
    r: Option<u32>,
) -> bool {
    let tx = tile as int % width as int;
    let ty = tile as int / width as int;
    match r {
        None => forall|x: int, y: int| #[trigger]
            hits(index, width, height, x, y) ==> ring(tx, ty, x, y) > radius,
        Some(node) => exists|x: int, y: int|
            #[trigger] nearest_pick(index, width, height, tx, ty, radius as int, x, y) && node
                == index[(y * width + x) as u32],
    }
}

impl RoadGraph {
    pub fn len(&self) -> (r: usize)
        ensures
            r == self.node_seq().len(),
    {
        self.nodes.len()
    }

    /// The tile a node stands on.
    pub fn node_tile(&self, node: u32) -> (r: u32)
        requires
            (node as int) < self.node_seq().len(),
        ensures
            r == self.node_seq()[node as int].tile,
    {
        self.nodes[node as usize].tile
    }

    pub fn is_empty(&self) -> (r: bool)
        ensures
            r == (self.node_seq().len() == 0),
    {
        self.nodes.len() == 0
    }

    /// The node a tile is, if it is a road.
    pub fn node_of_tile(&self, tile: u32) -> (r: Option<u32>)
        ensures
            r == (if self.index().contains_key(tile) {
                Some(self.index()[tile])
            } else {
                None::<u32>
            }),
            self.wf() ==> (r matches Some(i) ==> (i as int) < self.node_seq().len()
                && self.node_seq()[i as int].tile == tile),
            self.wf() ==> (r is None ==> forall|i: int|
                0 <= i < self.node_seq().len() ==> #[trigger] self.node_seq()[i].tile != tile),
    {
        match self.by_tile.get(&tile) {
            Some(id) => Some(*id),
            None => None,
        }
    }

    /// A node's neighbours; none for an id that is not a node.
    pub fn neighbours(&self, node: u32) -> (r: &[u32])
        ensures
            r@ == (if (node as int) < self.adjacency().len() {
                self.adjacency()[node as int]
            } else {
                Seq::<u32>::empty()
            }),
    {
        if (node as usize) < self.adj.len() {
            self.adj[node as usize].as_slice()
        } else {
            &[]
        }
    }

    /// The nearest road node to a tile, searched outwards in rings.
    ///
    /// A building with no road within `radius` returns `None`: a refusal the caller must
    /// handle, not a silent fallback to nowhere.
    pub fn nearest_node_within(&self, width: u32, height: u32, tile: u32, radius: u32) -> (r: Option<u32>)
        requires
            width > 0,
            width * height <= u32::MAX,
            radius <= 32767,
            width + radius <= i32::MAX,
            height <= i32::MAX,
            tile / width + radius <= i32::MAX,
        ensures
            nearest_is(self.index(), width as nat, height as nat, tile, radius, r),
    {
        let tx: i64 = (tile % width) as i64;
        let ty: i64 = (tile / width) as i64;
        let ghost index = self.by_tile@;
        let ghost w = width as nat;
        let ghost h = height as nat;
        let mut r: u32 = 0;
        while r <= radius
            invariant
                index == self.by_tile@,
                w == width,
                h == height,
                width * height <= u32::MAX,
                tx == (tile % width) as int,
                ty == (tile / width) as int,
                0 <= tx < width,
                0 <= ty <= u32::MAX,
                r <= radius + 1,
                radius <= 32767,
                width + radius <= i32::MAX,
                height <= i32::MAX,
                tile / width + radius <= i32::MAX,
                forall|x: int, y: int| #[trigger] hits(index, w, h, x, y) ==> ring(tx as int, ty as int, x, y) >= r,
            decreases radius + 1 - r,
        {
            let ri: i64 = r as i64;
            let mut best: Option<(i64, u32)> = None;
            let ghost mut bx: int = 0;
            let ghost mut by: int = 0;
            let mut dy: i64 = -ri;
            while dy <= ri
                invariant
                    index == self.by_tile@,
                    w == width,
                    h == height,
                    width * height <= u32::MAX,
                    0 <= tx < width,
                    0 <= ty <= u32::MAX,
                    0 <= ri <= 32767,
                    ri == r,
                    r <= radius,
                    width + radius <= i32::MAX,
                    height <= i32::MAX,
                    tile / width + radius <= i32::MAX,
                    -ri <= dy <= ri + 1,
                    forall|x: int, y: int| #[trigger] hits(index, w, h, x, y) ==> ring(tx as int, ty as int, x, y) >= r,
                    best is None ==> forall|x: int, y: int|
                        #[trigger] hits(index, w, h, x, y) && ring(tx as int, ty as int, x, y) == r && y < ty + dy ==> false,
                    best matches Some(b) ==> {
                        &&& hits(index, w, h, bx, by)
                        &&& ring(tx as int, ty as int, bx, by) == r
                        &&& by < ty + dy
                        &&& b.0 == reach2(tx as int, ty as int, bx, by)
                        &&& b.1 == index[(by * w + bx) as u32]
                        &&& forall|x: int, y: int|
                            #[trigger] hits(index, w, h, x, y) && ring(tx as int, ty as int, x, y) == r && y < ty + dy ==> reach2(tx as int, ty as int, bx, by) < reach2(tx as int, ty as int, x, y)
                                || (reach2(tx as int, ty as int, bx, by) == reach2(tx as int, ty as int, x, y) && !scanned_before(x, y, bx, by))
                    },
                decreases ri + 1 - dy,
            {
                proof {
                    assert forall|xx: int, yy: int|
                        #[trigger] hits(index, w, h, xx, yy) && ring(tx as int, ty as int, xx, yy) == r
                            && scanned_before(xx, yy, tx - ri, ty + dy) implies yy < ty + dy by {}
                }
                let mut dx: i64 = -ri;
                while dx <= ri
                    invariant
                        index == self.by_tile@,
                        w == width,
                        h == height,
                        width * height <= u32::MAX,
                        0 <= tx < width,
                        0 <= ty <= u32::MAX,
                        0 <= ri <= 32767,
                        ri == r,
                        r <= radius,
                        width + radius <= i32::MAX,
                        height <= i32::MAX,
                        tile / width + radius <= i32::MAX,
                        -ri <= dy <= ri,
                        -ri <= dx <= ri + 1,
                        forall|x: int, y: int| #[trigger] hits(index, w, h, x, y) ==> ring(tx as int, ty as int, x, y) >= r,
                        best is None ==> forall|x: int, y: int|
                            #[trigger] hits(index, w, h, x, y) && ring(tx as int, ty as int, x, y) == r && scanned_before(x, y, tx + dx, ty + dy) ==> false,
                        best matches Some(b) ==> {
                            &&& hits(index, w, h, bx, by)
                            &&& ring(tx as int, ty as int, bx, by) == r
                            &&& scanned_before(bx, by, tx + dx, ty + dy)
                            &&& b.0 == reach2(tx as int, ty as int, bx, by)
                            &&& b.1 == index[(by * w + bx) as u32]
                            &&& forall|x: int, y: int|
                                #[trigger] hits(index, w, h, x, y) && ring(tx as int, ty as int, x, y) == r && scanned_before(x, y, tx + dx, ty + dy) ==> reach2(tx as int, ty as int, bx, by) < reach2(tx as int, ty as int, x, y)
                                    || (reach2(tx as int, ty as int, bx, by) == reach2(tx as int, ty as int, x, y) && !scanned_before(x, y, bx, by))
                        },
                    decreases ri + 1 - dx,
                {
                    let ghost before = best;
                    let ghost (obx, oby) = (bx, by);
                    let adx: i64 = if dx < 0 { -dx } else { dx };
                    let ady: i64 = if dy < 0 { -dy } else { dy };
                    let x: i64 = tx + dx;
                    let y: i64 = ty + dy;
                    let ghost here = hits(index, w, h, x as int, y as int);
                    if (adx == ri || ady == ri) && 0 <= x && 0 <= y && x < width as i64 && y < height as i64 {
                        proof {
                            assert(y * width + x < width * height) by (nonlinear_arith)
                                requires 0 <= x < width, 0 <= y < height;
                            assert(y * width + x >= 0) by (nonlinear_arith)
                                requires 0 <= x, 0 <= y, 0 <= width;
                            assert(ring(tx as int, ty as int, x as int, y as int) == r);
                        }
                        let c: u32 = (y as u32) * width + (x as u32);
                        match self.by_tile.get(&c) {
                            Some(node) => {
                                proof {
                                    assert(dx * dx <= 32767 * 32767) by (nonlinear_arith)
                                        requires -32767 <= dx <= 32767;
                                    assert(dy * dy <= 32767 * 32767) by (nonlinear_arith)
                                        requires -32767 <= dy <= 32767;
                                    assert(dx * dx >= 0) by (nonlinear_arith);
                                    assert(dy * dy >= 0) by (nonlinear_arith);
                                }
                                let distance: i64 = dx * dx + dy * dy;
                                let better = match best {
                                    None => true,
                                    Some((d, _)) => distance < d,
                                };
                                if better {
                                    best = Some((distance, *node));
                                    proof {
                                        bx = x as int;
                                        by = y as int;
                                    }
                                }
                                proof {
                                    assert(hits(index, w, h, x as int, y as int));
                                }
                            },
                            None => {
                                proof {
                                    assert(!hits(index, w, h, x as int, y as int));
                                }
                            },
                        }
                    } else {
                        proof {
                            if hits(index, w, h, x as int, y as int) {
                                assert(ring(tx as int, ty as int, x as int, y as int) != r);
                            }
                        }
                    }
                    proof {
                        assert forall|xx: int, yy: int|
                            #[trigger] hits(index, w, h, xx, yy) && ring(tx as int, ty as int, xx, yy) == r
                                && scanned_before(xx, yy, tx + dx + 1, ty + dy) implies (xx == x && yy == y)
                                || scanned_before(xx, yy, tx + dx, ty + dy) by {}
                    }
                    dx += 1;
                }
                proof {
                    assert forall|xx: int, yy: int|
                        #[trigger] hits(index, w, h, xx, yy) && ring(tx as int, ty as int, xx, yy) == r
                            && yy < ty + dy + 1 implies scanned_before(xx, yy, tx + dx, ty + dy) by {}
                }
                dy += 1;
            }
            match best {
                Some((_, node)) => {
                    proof {
                        assert forall|xx: int, yy: int|
                            #[trigger] hits(index, w, h, xx, yy) && ring(tx as int, ty as int, xx, yy) == r
                                implies yy < ty + dy by {}
                        assert(nearest_pick(index, w, h, tx as int, ty as int, radius as int, bx, by));
                        assert(node == index[(by * w + bx) as u32]);
                        assert(tx == tile as int % width as int);
                        assert(ty == tile as int / width as int);
                    }
                    return Some(node);
                },
                None => {
                    proof {
                        assert forall|xx: int, yy: int|
                            #[trigger] hits(index, w, h, xx, yy) implies ring(tx as int, ty as int, xx, yy) >= r + 1 by {
                            if ring(tx as int, ty as int, xx, yy) == r {
                                assert(yy < ty + dy);
                            }
                        }
                    }
                },
            }
            r += 1;
        }
        None
    }
}

/// The sum of a run of costs.
pub open spec fn total_cost(s: Seq<u32>) -> nat
    decreases s.len(),
{
    if s.len() == 0 {
        0
    } else {
        total_cost(s.drop_last()) + s.last() as nat
    }
}

/// Changing one cost changes the sum by the difference.
proof fn lemma_total_cost_update(s: Seq<u32>, i: int, v: u32)
    requires
        0 <= i < s.len(),
    ensures
        total_cost(s.update(i, v)) + s[i] == total_cost(s) + v,
    decreases s.len(),
{
    if i == s.len() - 1 {
        assert(s.update(i, v).drop_last() =~= s.drop_last());
    } else {
        lemma_total_cost_update(s.drop_last(), i, v);
        assert(s.update(i, v).drop_last() =~= s.drop_last().update(i, v));
    }
}

/// A run of distinct node ids below `n` is no longer than `n`.
proof fn lemma_distinct_ids_fit(s: Seq<u32>, n: nat)
    requires
        s.no_duplicates(),
        forall|i: int| 0 <= i < s.len() ==> (#[trigger] s[i] as int) < n,
    ensures
        s.len() <= n,
{
    let t = s.map_values(|v: u32| v as int);
    assert(t.no_duplicates()) by {
        assert forall|i: int, j: int| 0 <= i < t.len() && 0 <= j < t.len() && i != j implies t[i] != t[j] by {
            assert(s[i] != s[j]);
        }
    }
    t.unique_seq_to_set();
    vstd::set_lib::lemma_int_range(0, n as int);
    assert forall|v: int| t.to_set().contains(v) implies vstd::set_lib::set_int_range(0, n as int).contains(v) by {
        let i = choose|i: int| 0 <= i < t.len() && t[i] == v;
        assert(s[i] as int == v);
    }
    vstd::set_lib::lemma_len_subset(t.to_set(), vstd::set_lib::set_int_range(0, n as int));
}

/// Whether a node still has an entry waiting in the open list.
pub open spec fn pending(open: Seq<(u32, u32)>, m: int) -> bool {
    exists|k: int| 0 <= k < open.len() && #[trigger] open[k].1 == m
}

/// The smallest entry of the open list, by estimate and then by node, taken out of it.
fn pop_min(open: &mut Vec<(u32, u32)>) -> (e: (u32, u32))
    requires
        old(open)@.len() > 0,
    ensures
        exists|k: int|
            0 <= k < old(open)@.len() && e == old(open)@[k] && final(open)@ == old(open)@.remove(k),
        forall|j: int| 0 <= j < old(open)@.len() ==> e.0 <= #[trigger] old(open)@[j].0,
{
    let mut k: usize = 0;
    let mut i: usize = 1;
    while i < open.len()
        invariant
            1 <= i <= open@.len(),
            k < i,
            forall|j: int| 0 <= j < i ==> open@[k as int].0 <= #[trigger] open@[j].0,
        decreases open@.len() - i,
    {
        let (f, m) = open[i];
        let (bf, bm) = open[k];
        if f < bf || (f == bf && m < bm) {
            k = i;
        }
        i += 1;
    }
    open.remove(k)
}

/// The Manhattan distance between two nodes of the grid: columns apart plus rows apart.
pub open spec fn manhattan(a: RoadNode, b: RoadNode) -> int {
    (if a.x >= b.x {
        a.x - b.x
    } else {
        b.x - a.x
    }) + (if a.y >= b.y {
        a.y - b.y
    } else {
        b.y - a.y
    })
}

impl RoadGraph {
    /// Congestion surcharge on an edge. Traffic-aware costing lands with the traffic model;
    /// a flat zero keeps every path deterministic in the meantime, which a replay needs.
    fn edge_cost(&self, from: u32, to: u32) -> (r: u32)
        ensures
            r == 0,
    {
        0
    }

    /// The Manhattan distance between two nodes: the search's estimate.
    fn heuristic(&self, a: u32, b: u32) -> (r: u32)
        requires
            self.wf(),
            (a as int) < self.nodes@.len(),
            (b as int) < self.nodes@.len(),
        ensures
            r == manhattan(self.node_seq()[a as int], self.node_seq()[b as int]),
    {
        let na = self.nodes[a as usize];
        let nb = self.nodes[b as usize];
        let dx = if na.x >= nb.x { na.x - nb.x } else { nb.x - na.x };
        let dy = if na.y >= nb.y { na.y - nb.y } else { nb.y - na.y };
        proof {
            let (w, h) = choose|w: nat, h: nat| #[trigger] self.wf_in(w, h);
            assert(self.wf_in(w, h));
            let i = a as int;
            let j = b as int;
            assert(self.nodes@[i].x < w && self.nodes@[j].x < w);
            assert(self.nodes@[i].y < h && self.nodes@[j].y < h);
            assert(dx + dy <= u32::MAX) by (nonlinear_arith)
                requires
                    dx < w,
                    dy < h,
                    w * h <= u32::MAX,
                    w >= 1,
                    h >= 1,
            ;
        }
        dx + dy
    }

    /// The walk back from `to` along the recorded parents, first node first.
    fn trace(
        &self,
        came: &Vec<Option<u32>>,
        best: &Vec<u32>,
        from: u32,
        to: u32,
    ) -> (path: Vec<u32>)
        requires
            best@.len() == self.nodes@.len(),
            came@.len() == self.nodes@.len(),
            self.adj@.len() == self.nodes@.len(),
            (from as int) < self.nodes@.len(),
            (to as int) < self.nodes@.len(),
            best@[to as int] < u32::MAX,
            forall|m: int|
                0 <= m < came@.len() ==> (#[trigger] came@[m] matches Some(p) ==> (p as int) < best@.len()
                    && best@[p as int] < best@[m] && self.adjacency()[p as int].contains(m as u32)),
            forall|m: int|
                0 <= m < best@.len() && m != from && best@[m] < u32::MAX ==> #[trigger] came@[m] is Some,
        ensures
            path@.len() > 0,
            path@[0] == from,
            path@.last() == to,
            is_walk(self.adjacency(), path@),
            path@.len() <= best@[to as int] + 1,
    {
        let mut back: Vec<u32> = Vec::new();
        back.push(to);
        let mut cursor: u32 = to;
        while came[cursor as usize].is_some()
            invariant
                best@.len() == self.nodes@.len(),
                came@.len() == self.nodes@.len(),
                self.adj@.len() == self.nodes@.len(),
                (cursor as int) < self.nodes@.len(),
                best@[cursor as int] < u32::MAX,
                back@.len() > 0,
                back@[0] == to,
                back@.last() == cursor,
                back@.len() + best@[cursor as int] <= best@[to as int] + 1,
                forall|k: int| 0 <= k < back@.len() ==> (#[trigger] back@[k] as int) < self.nodes@.len(),
                forall|k: int|
                    0 <= k < back@.len() - 1 ==> self.adjacency()[#[trigger] back@[k + 1] as int].contains(back@[k]),
                forall|m: int|
                    0 <= m < came@.len() ==> (#[trigger] came@[m] matches Some(p) ==> (p as int) < best@.len()
                        && best@[p as int] < best@[m] && self.adjacency()[p as int].contains(m as u32)),
            decreases best@[cursor as int],
        {
            let prev = came[cursor as usize].unwrap();
            proof {
                assert(came@[cursor as int] == Some(prev));
            }
            back.push(prev);
            cursor = prev;
        }
        proof {
            if cursor != from {
                assert(came@[cursor as int] is Some);
            }
        }
        let mut path: Vec<u32> = Vec::new();
        let mut i: usize = back.len();
        while i > 0
            invariant
                i <= back@.len(),
                path@.len() == back@.len() - i,
                forall|k: int| 0 <= k < path@.len() ==> #[trigger] path@[k] == back@[back@.len() - 1 - k],
            decreases i,
        {
            i -= 1;
            path.push(back[i]);
        }
        proof {
            assert forall|k: int| 0 <= k < path@.len() - 1 implies #[trigger] self.adjacency()[path@[k] as int].contains(path@[k + 1]) by {
                let j = back@.len() - 2 - k;
                assert(path@[k] == back@[j + 1]);
                assert(path@[k + 1] == back@[j]);
            }
            assert forall|k: int| 0 <= k < path@.len() implies (#[trigger] path@[k] as int) < self.adjacency().len() by {
                assert(path@[k] == back@[back@.len() - 1 - k]);
            }
        }
        path
    }
}

/// What the search keeps true between steps, over the costs so far, the recorded parents,
/// the open list and the witness walks behind every cost.
pub open spec fn search_state(
    adjacency: Seq<Seq<u32>>,
    n: nat,
    from: u32,
    best: Seq<u32>,
    came: Seq<Option<u32>>,
    open: Seq<(u32, u32)>,
    wit: Seq<Seq<u32>>,
) -> bool {
    &&& adjacency.len() == n
    &&& best.len() == n
    &&& came.len() == n
    &&& wit.len() == n
    &&& (from as int) < n
    &&& best[from as int] == 0
    &&& came[from as int] is None
    &&& forall|i: int, k: int|
        0 <= i < n && 0 <= k < adjacency[i].len() ==> (#[trigger] adjacency[i][k] as int) < n
    &&& forall|k: int|
        0 <= k < open.len() ==> (#[trigger] open[k].1 as int) < n && best[open[k].1 as int] < u32::MAX
    &&& forall|m: int|
        0 <= m < n ==> (#[trigger] came[m] matches Some(p) ==> (p as int) < n && best[p as int]
            < best[m] && adjacency[p as int].contains(m as u32))
    &&& forall|m: int| 0 <= m < n && m != from && best[m] < u32::MAX ==> #[trigger] came[m] is Some
    &&& forall|m: int|
        0 <= m < n && #[trigger] best[m] < u32::MAX ==> {
            let w = wit[m];
            &&& w.len() == best[m] + 1
            &&& w[0] == from
            &&& w.last() == m
            &&& w.no_duplicates()
            &&& forall|i: int| 0 <= i < w.len() ==> (#[trigger] w[i] as int) < n && best[w[i] as int] <= i
        }
}

/// Every node with a cost is waiting in the open list, or has been searched: it is not the
/// target and each of its neighbours has a cost.
pub open spec fn closed_or_pending(
    adjacency: Seq<Seq<u32>>,
    to: u32,
    best: Seq<u32>,
    open: Seq<(u32, u32)>,
    skip: int,
) -> bool {
    forall|m: int|
        0 <= m < best.len() && m != skip && #[trigger] best[m] < u32::MAX ==> pending(open, m) || (m
            != to && forall|j: int|
            0 <= j < adjacency[m].len() ==> best[#[trigger] adjacency[m][j] as int] < u32::MAX)
}

/// Whether every neighbour of a node has a cost at most one more than the node's own: the
/// node has been searched since its cost last fell.
pub open spec fn relaxed(adjacency: Seq<Seq<u32>>, best: Seq<u32>, m: int) -> bool {
    forall|j: int| 0 <= j < adjacency[m].len() ==> best[#[trigger] adjacency[m][j] as int] <= best[m] + 1
}

/// Whether a node has an entry in the open list whose estimate is at most `e`.
pub open spec fn queued(open: Seq<(u32, u32)>, m: int, e: int) -> bool {
    exists|k: int| 0 <= k < open.len() && #[trigger] open[k].1 == m && open[k].0 <= e
}

/// The search's frontier: every entry's estimate is at least its node's cost, and every
/// node with a cost (but `skip`) has been searched, or is queued with an estimate no more
/// than its cost and its distance from the target.
pub open spec fn frontier(
    adjacency: Seq<Seq<u32>>,
    nodes: Seq<RoadNode>,
    to: u32,
    best: Seq<u32>,
    open: Seq<(u32, u32)>,
    skip: int,
) -> bool {
    &&& forall|k: int| 0 <= k < open.len() ==> best[#[trigger] open[k].1 as int] <= open[k].0
    &&& forall|m: int|
        0 <= m < best.len() && m != skip && #[trigger] best[m] < u32::MAX ==> relaxed(adjacency, best, m)
            || queued(open, m, best[m] + manhattan(nodes[m], nodes[to as int]))
}

/// Along a walk whose every step is one orthogonal step, the distance to its last node is
/// at most the steps left.
proof fn lemma_distance_along(adjacency: Seq<Seq<u32>>, nodes: Seq<RoadNode>, p: Seq<u32>, i: int)
    requires
        nodes.len() == adjacency.len(),
        is_walk(adjacency, p),
        0 <= i < p.len(),
        forall|a: int, j: int|
            0 <= a < adjacency.len() && 0 <= j < adjacency[a].len() ==> manhattan(
                nodes[a],
                nodes[#[trigger] adjacency[a][j] as int],
            ) == 1,
    ensures
        manhattan(nodes[p[i] as int], nodes[p.last() as int]) <= p.len() - 1 - i,
    decreases p.len() - i,
{
    if i < p.len() - 1 {
        lemma_distance_along(adjacency, nodes, p, i + 1);
        assert(adjacency[p[i] as int].contains(p[i + 1]));
        let j = choose|j: int| 0 <= j < adjacency[p[i] as int].len() && adjacency[p[i] as int][j] == p[i + 1];
        assert(manhattan(nodes[p[i] as int], nodes[adjacency[p[i] as int][j] as int]) == 1);
    }
}

/// When the smallest estimate in the open list is `est` and the target's cost is no more,
/// no walk to the target from a node whose cost is at most its position is shorter.
proof fn lemma_no_shorter(
    adjacency: Seq<Seq<u32>>,
    nodes: Seq<RoadNode>,
    to: u32,
    best: Seq<u32>,
    open: Seq<(u32, u32)>,
    est: u32,
    p: Seq<u32>,
    i: int,
)
    requires
        nodes.len() == adjacency.len(),
        best.len() == adjacency.len(),
        frontier(adjacency, nodes, to, best, open, -1),
        forall|k: int| 0 <= k < open.len() ==> est <= #[trigger] open[k].0,
        best[to as int] <= est,
        is_walk(adjacency, p),
        p.last() == to,
        0 <= i < p.len(),
        best[p[i] as int] <= i,
        forall|a: int, j: int|
            0 <= a < adjacency.len() && 0 <= j < adjacency[a].len() ==> manhattan(
                nodes[a],
                nodes[#[trigger] adjacency[a][j] as int],
            ) == 1,
    ensures
        best[to as int] <= p.len() - 1,
    decreases p.len() - i,
{
    if p.len() - 1 >= u32::MAX {
    } else if i == p.len() - 1 {
    } else {
        let m = p[i] as int;
        assert(best[m] < u32::MAX);
        if relaxed(adjacency, best, m) {
            assert(adjacency[m].contains(p[i + 1]));
            let j = choose|j: int| 0 <= j < adjacency[m].len() && adjacency[m][j] == p[i + 1];
            assert(best[adjacency[m][j] as int] <= best[m] + 1);
            lemma_no_shorter(adjacency, nodes, to, best, open, est, p, i + 1);
        } else {
            assert(queued(open, m, best[m] + manhattan(nodes[m], nodes[to as int])));
            let k = choose|k: int| 0 <= k < open.len() && #[trigger] open[k].1 == m && open[k].0 <= best[m]
                + manhattan(nodes[m], nodes[to as int]);
            lemma_distance_along(adjacency, nodes, p, i);
            assert(est <= open[k].0);
        }
    }
}

/// A set of nodes closed under the graph's edges holds every node a walk from inside it
/// reaches.
proof fn lemma_closed_holds_walks(adjacency: Seq<Seq<u32>>, best: Seq<u32>, path: Seq<u32>, to: u32)
    requires
        path.len() > 0,
        is_walk(adjacency, path),
        best.len() == adjacency.len(),
        best[path[0] as int] < u32::MAX,
        forall|m: int|
            0 <= m < best.len() && #[trigger] best[m] < u32::MAX ==> (m != to && forall|j: int|
                0 <= j < adjacency[m].len() ==> best[#[trigger] adjacency[m][j] as int] < u32::MAX),
    ensures
        best[path.last() as int] < u32::MAX,
        path.last() != to,
    decreases path.len(),
{
    if path.len() > 1 {
        let shorter = path.drop_last();
        assert forall|k: int| 0 <= k < shorter.len() - 1 implies #[trigger] adjacency[shorter[k] as int].contains(shorter[k + 1]) by {
            assert(adjacency[path[k] as int].contains(path[k + 1]));
        }
        lemma_closed_holds_walks(adjacency, best, shorter, to);
        let a = shorter.last();
        let b = path.last();
        let k = path.len() - 2;
        assert(adjacency[path[k] as int].contains(path[k + 1]));
        assert(path[k + 1] == b);
        assert(path[k] == a);
        let j = choose|j: int| 0 <= j < adjacency[a as int].len() && adjacency[a as int][j] == b;
        assert(best[adjacency[a as int][j] as int] < u32::MAX);
    }
}

impl RoadGraph {
    /// A* over the road graph. Returns the node path, including both ends: a walk along the
    /// graph's edges from `from` to `to` with no more nodes than any other, and `[from]`
    /// alone when the two are one node. `None` means one end is not a node, or no walk
    /// leads from one to the other.
    pub fn astar(&self, from: u32, to: u32) -> (r: Option<Vec<u32>>)
        requires
            self.wf(),
        ensures
            (from as int) >= self.node_seq().len() || (to as int) >= self.node_seq().len() ==> r is None,
            r matches Some(path) ==> path@.len() > 0 && path@[0] == from && path@.last() == to
                && is_walk(self.adjacency(), path@),
            r is None && (from as int) < self.node_seq().len() && (to as int) < self.node_seq().len()
                && self.node_seq().len() < u32::MAX ==> !reachable(self.adjacency(), from, to),
            r matches Some(path) ==> fewest_hops(self.adjacency(), from, to, path@),
            from == to && (from as int) < self.node_seq().len() ==> (r matches Some(path) && path@ == seq![from]),
    {
        let n = self.nodes.len();
        if from as usize >= n || to as usize >= n {
            return None;
        }
        if from == to {
            let path = vec![from];
            proof {
                assert(is_walk(self.adjacency(), path@));
            }
            return Some(path);
        }
        let ghost adjacency = self.adjacency();
        let ghost nodes = self.node_seq();
        proof {
            self.lemma_ids();
            let (w, h) = choose|w: nat, h: nat| #[trigger] self.wf_in(w, h);
            assert(self.wf_in(w, h));
            assert forall|i: int, k: int|
                0 <= i < n && 0 <= k < adjacency[i].len() implies (#[trigger] adjacency[i][k] as int) < n by {
                assert(adjacency[i] == self.adj@[i]@);
            }
        }
        let mut best: Vec<u32> = Vec::new();
        let mut came: Vec<Option<u32>> = Vec::new();
        let mut i: usize = 0;
        while i < n
            invariant
                i <= n,
                best@.len() == i,
                came@.len() == i,
                forall|m: int| 0 <= m < i ==> #[trigger] best@[m] == u32::MAX,
                forall|m: int| 0 <= m < i ==> #[trigger] came@[m] is None,
            decreases n - i,
        {
            best.push(u32::MAX);
            came.push(None);
            i += 1;
        }
        best.set(from as usize, 0);
        let mut open: Vec<(u32, u32)> = Vec::new();
        open.push((self.heuristic(from, to), from));
        let ghost mut wit: Seq<Seq<u32>> = Seq::new(n as nat, |m: int| seq![m as u32]);
        proof {
            assert(open@[0].1 == from);
            assert(pending(open@, from as int));
            assert(search_state(adjacency, n as nat, from, best@, came@, open@, wit));
            assert(closed_or_pending(adjacency, to, best@, open@, -1));
            assert(queued(open@, from as int, best@[from as int] + manhattan(nodes[from as int], nodes[to as int])));
            assert(frontier(adjacency, nodes, to, best@, open@, -1));
        }
        while open.len() > 0
            invariant
                self.wf(),
                n == self.nodes@.len(),
                adjacency == self.adjacency(),
                nodes == self.node_seq(),
                nodes.len() == n,
                frontier(adjacency, nodes, to, best@, open@, -1),
                forall|a: int, j: int|
                    0 <= a < adjacency.len() && 0 <= j < adjacency[a].len() ==> manhattan(
                        nodes[a],
                        nodes[#[trigger] adjacency[a][j] as int],
                    ) == 1,
                (to as int) < n,
                from != to,
                search_state(adjacency, n as nat, from, best@, came@, open@, wit),
                n < u32::MAX ==> closed_or_pending(adjacency, to, best@, open@, -1),
                best@[to as int] < u32::MAX ==> pending(open@, to as int),
            decreases 2 * total_cost(best@) + open@.len(),
        {
            let ghost budget = 2 * total_cost(best@) + open@.len();
            let ghost before_pop = open@;
            let entry = pop_min(&mut open);
            let current = entry.1;
            let ghost popped = choose|k: int|
                0 <= k < before_pop.len() && entry == before_pop[k] && open@ == before_pop.remove(k);
            proof {
                assert forall|m: int| #[trigger] pending(before_pop, m) && m != current implies pending(open@, m) by {
                    let k = choose|k: int| 0 <= k < before_pop.len() && before_pop[k].1 == m;
                    if k < popped {
                        assert(open@[k] == before_pop[k]);
                    } else {
                        assert(k != popped);
                        assert(open@[k - 1] == before_pop[k]);
                    }
                }
                assert forall|k: int| 0 <= k < open@.len() implies (#[trigger] open@[k].1 as int) < n
                    && best@[open@[k].1 as int] < u32::MAX && best@[open@[k].1 as int] <= open@[k].0 by {
                    if k < popped {
                        assert(open@[k] == before_pop[k]);
                    } else {
                        assert(open@[k] == before_pop[k + 1]);
                    }
                }
                assert forall|m: int| 0 <= m < best@.len() && m != current && #[trigger] best@[m] < u32::MAX
                    && queued(before_pop, m, best@[m] + manhattan(nodes[m], nodes[to as int])) implies queued(
                    open@,
                    m,
                    best@[m] + manhattan(nodes[m], nodes[to as int]),
                ) by {
                    let k = choose|k: int| 0 <= k < before_pop.len() && #[trigger] before_pop[k].1 == m
                        && before_pop[k].0 <= best@[m] + manhattan(nodes[m], nodes[to as int]);
                    if k < popped {
                        assert(open@[k] == before_pop[k]);
                    } else {
                        assert(k != popped);
                        assert(open@[k - 1] == before_pop[k]);
                    }
                }
                assert(frontier(adjacency, nodes, to, best@, open@, current as int));
            }
            if current == to {
                proof {
                    assert(best@[to as int] <= entry.0) by {
                        assert(before_pop[popped].1 == to);
                    }
                    assert forall|p: Seq<u32>|
                        p.len() > 0 && #[trigger] is_walk(adjacency, p) && p[0] == from && p.last() == to implies best@[to as int]
                        <= p.len() - 1 by {
                        lemma_no_shorter(adjacency, nodes, to, best@, before_pop, entry.0, p, 0);
                    }
                }
                let path = self.trace(&came, &best, from, to);
                return Some(path);
            }
            let current_cost = best[current as usize];
            let nbrs = self.neighbours(current);
            let mut k: usize = 0;
            while k < nbrs.len()
                invariant
                    self.wf(),
                    n == self.nodes@.len(),
                    adjacency == self.adjacency(),
                    (to as int) < n,
                    from != to,
                    current != to,
                    (current as int) < n,
                    nbrs@ == adjacency[current as int],
                    k <= nbrs@.len(),
                    best@[current as int] == current_cost,
                    current_cost < u32::MAX,
                    search_state(adjacency, n as nat, from, best@, came@, open@, wit),
                    nodes == self.node_seq(),
                    nodes.len() == n,
                    frontier(adjacency, nodes, to, best@, open@, current as int),
                    forall|j: int| 0 <= j < k ==> best@[#[trigger] nbrs@[j] as int] <= current_cost + 1,
                    forall|a: int, j: int|
                        0 <= a < adjacency.len() && 0 <= j < adjacency[a].len() ==> manhattan(
                            nodes[a],
                            nodes[#[trigger] adjacency[a][j] as int],
                        ) == 1,
                    n < u32::MAX ==> closed_or_pending(adjacency, to, best@, open@, current as int),
                    n < u32::MAX ==> forall|j: int| 0 <= j < k ==> best@[#[trigger] nbrs@[j] as int] < u32::MAX,
                    best@[to as int] < u32::MAX ==> pending(open@, to as int),
                    2 * total_cost(best@) + open@.len() < budget,
                decreases nbrs@.len() - k,
            {
                let next = nbrs[k];
                let step = 1 + self.edge_cost(current, next);
                let tentative = current_cost.saturating_add(step);
                proof {
                    let cw = wit[current as int];
                    lemma_distinct_ids_fit(cw, n as nat);
                }
                if tentative < best[next as usize] {
                    let ghost old_best = best@;
                    let ghost old_open = open@;
                    let ghost new_wit = wit[current as int].push(next);
                    proof {
                        let cw = wit[current as int];
                        assert forall|i: int| 0 <= i < cw.len() implies #[trigger] cw[i] != next by {
                            assert(best@[cw[i] as int] <= i);
                        }
                        lemma_total_cost_update(best@, next as int, tentative);
                    }
                    best.set(next as usize, tentative);
                    came.set(next as usize, Some(current));
                    let estimate = tentative.saturating_add(self.heuristic(next, to));
                    open.push((estimate, next));
                    proof {
                        wit = wit.update(next as int, new_wit);
                        assert(open@[open@.len() - 1].1 == next);
                        assert(pending(open@, next as int));
                        assert forall|m: int| #[trigger] pending(old_open, m) implies pending(open@, m) by {
                            let j = choose|j: int| 0 <= j < old_open.len() && old_open[j].1 == m;
                            assert(open@[j] == old_open[j]);
                        }
                        assert(new_wit.no_duplicates());
                        assert(search_state(adjacency, n as nat, from, best@, came@, open@, wit));
                        assert forall|q: int| 0 <= q < open@.len() implies best@[#[trigger] open@[q].1 as int]
                            <= open@[q].0 by {
                            if q < old_open.len() {
                                assert(open@[q] == old_open[q]);
                            }
                        }
                        assert(queued(open@, next as int, best@[next as int] + manhattan(nodes[next as int], nodes[to as int]))) by {
                            assert(open@[open@.len() - 1] == (estimate, next));
                        }
                        assert forall|m: int|
                            0 <= m < best@.len() && m != current && #[trigger] best@[m] < u32::MAX implies relaxed(
                            adjacency,
                            best@,
                            m,
                        ) || queued(open@, m, best@[m] + manhattan(nodes[m], nodes[to as int])) by {
                            if m != next {
                                assert(old_best[m] == best@[m]);
                                if relaxed(adjacency, old_best, m) {
                                    assert forall|j: int| 0 <= j < adjacency[m].len() implies best@[#[trigger] adjacency[m][j]
                                        as int] <= best@[m] + 1 by {
                                        assert(best@[adjacency[m][j] as int] <= old_best[adjacency[m][j] as int]);
                                    }
                                } else {
                                    let q = choose|q: int| 0 <= q < old_open.len() && #[trigger] old_open[q].1 == m
                                        && old_open[q].0 <= old_best[m] + manhattan(nodes[m], nodes[to as int]);
                                    assert(open@[q] == old_open[q]);
                                }
                            }
                        }
                    }
                }
                k += 1;
            }
            proof {
                if n < u32::MAX {
                    assert(closed_or_pending(adjacency, to, best@, open@, -1));
                }
                assert(relaxed(adjacency, best@, current as int));
                assert(frontier(adjacency, nodes, to, best@, open@, -1));
            }
        }
        proof {
            if n < u32::MAX {
                if reachable(adjacency, from, to) {
                    let path = choose|path: Seq<u32>|
                        path.len() > 0 && #[trigger] is_walk(adjacency, path) && path[0] == from
                            && path.last() == to;
                    lemma_closed_holds_walks(adjacency, best@, path, to);
                }
            }
        }
        None
    }
}

/// The tiles a walk of node ids stands on.
pub open spec fn tiles_of(nodes: Seq<RoadNode>, path: Seq<u32>) -> Seq<u32> {
    path.map_values(|i: u32| nodes[i as int].tile)
}

impl RoadGraph {
    /// The tile path between two tiles, along a route of fewest hops between the roads
    /// nearest each, or `None` when either cannot reach a road or no road leads between
    /// them. Callers must treat `None` as a refused commute.
    pub fn route_between_tiles(
        &self,
        width: u32,
        height: u32,
        from_tile: u32,
        to_tile: u32,
        radius: u32,
    ) -> (r: Option<Vec<u32>>)
        requires
            self.wf(),
            width > 0,
            width * height <= u32::MAX,
            radius <= 32767,
            width + radius <= i32::MAX,
            height <= i32::MAX,
            from_tile / width + radius <= i32::MAX,
            to_tile / width + radius <= i32::MAX,
        ensures
            r matches Some(tiles) ==> exists|a: u32, b: u32, path: Seq<u32>|
                #[trigger] nearest_is(self.index(), width as nat, height as nat, from_tile, radius, Some(a))
                    && #[trigger] nearest_is(self.index(), width as nat, height as nat, to_tile, radius, Some(b))
                    && path.len() > 0 && path[0] == a && path.last() == b && #[trigger] is_walk(self.adjacency(), path)
                    && fewest_hops(self.adjacency(), a, b, path) && tiles@ == tiles_of(self.node_seq(), path),
            r is None ==> nearest_is(self.index(), width as nat, height as nat, from_tile, radius, None)
                || nearest_is(self.index(), width as nat, height as nat, to_tile, radius, None)
                || exists|a: u32, b: u32|
                #[trigger] nearest_is(self.index(), width as nat, height as nat, from_tile, radius, Some(a))
                    && #[trigger] nearest_is(self.index(), width as nat, height as nat, to_tile, radius, Some(b))
                    && (self.node_seq().len() < u32::MAX ==> !reachable(self.adjacency(), a, b)),
    {
        let from = match self.nearest_node_within(width, height, from_tile, radius) {
            Some(node) => node,
            None => return None,
        };
        let to = match self.nearest_node_within(width, height, to_tile, radius) {
            Some(node) => node,
            None => return None,
        };
        let nodes = match self.astar(from, to) {
            Some(path) => path,
            None => {
                proof {
                    let (w, h) = choose|w: nat, h: nat| #[trigger] self.wf_in(w, h);
                    assert(self.wf_in(w, h));
                    assert((from as int) < self.nodes@.len()) by {
                        let tx = from_tile as int % width as int;
                        let ty = from_tile as int / width as int;
                        let (x, y) = choose|x: int, y: int|
                            #[trigger] nearest_pick(self.by_tile@, width as nat, height as nat, tx, ty, radius as int, x, y)
                                && from == self.by_tile@[(y * width + x) as u32];
                        assert(self.by_tile@.contains_key((y * width + x) as u32));
                    }
                    assert((to as int) < self.nodes@.len()) by {
                        let tx = to_tile as int % width as int;
                        let ty = to_tile as int / width as int;
                        let (x, y) = choose|x: int, y: int|
                            #[trigger] nearest_pick(self.by_tile@, width as nat, height as nat, tx, ty, radius as int, x, y)
                                && to == self.by_tile@[(y * width + x) as u32];
                        assert(self.by_tile@.contains_key((y * width + x) as u32));
                    }
                }
                return None;
            },
        };
        let mut tiles: Vec<u32> = Vec::new();
        let mut i: usize = 0;
        while i < nodes.len()
            invariant
                i <= nodes@.len(),
                is_walk(self.adjacency(), nodes@),
                self.adj@.len() == self.nodes@.len(),
                tiles@ == tiles_of(self.nodes@, nodes@.take(i as int)),
            decreases nodes@.len() - i,
        {
            proof {
                assert((nodes@[i as int] as int) < self.adjacency().len());
            }
            tiles.push(self.nodes[nodes[i] as usize].tile);
            proof {
                assert(tiles@ =~= tiles_of(self.nodes@, nodes@.take(i as int + 1)));
            }
            i += 1;
        }
        proof {
            assert(nodes@.take(nodes@.len() as int) =~= nodes@);
        }
        Some(tiles)
    }
}

/// The neighbours of one node, looked up in the tile index.
fn neighbours_at(by_tile: &HashMap<u32, u32>, width: u32, height: u32, node: RoadNode) -> (r: Vec<u32>)
    requires
        width * height <= u32::MAX,
        node.x < width,
        node.y < height,
    ensures
        r@ == neighbours_of(by_tile@, width as nat, height as nat, node),
{
    let mut out: Vec<u32> = Vec::new();
    let ghost f = neighbour_step(by_tile@, width as nat, height as nat, node);
    let dirs: [(i64, i64); 4] = [(1, 0), (-1, 0), (0, 1), (0, -1)];
    let mut k: usize = 0;
    while k < 4
        invariant
            k <= 4,
            width * height <= u32::MAX,
            node.x < width,
            node.y < height,
            dirs@ == seq![(1i64, 0i64), (-1i64, 0i64), (0i64, 1i64), (0i64, -1i64)],
            f == neighbour_step(by_tile@, width as nat, height as nat, node),
            out@ == each_of(steps().take(k as int), f),
        decreases 4 - k,
    {
        proof {
            lemma_each_of_step(steps(), f, k as int);
            assert(steps()[k as int] == (dirs@[k as int].0 as int, dirs@[k as int].1 as int));
        }
        let (dx, dy) = dirs[k];
        let nx: i64 = node.x as i64 + dx;
        let ny: i64 = node.y as i64 + dy;
        let ghost d = steps()[k as int];
        if 0 <= nx && nx < width as i64 && 0 <= ny && ny < height as i64 {
            proof {
                assert(ny * width + nx < width * height) by (nonlinear_arith)
                    requires
                        0 <= nx < width,
                        0 <= ny < height,
                ;
                assert(ny * width + nx >= 0) by (nonlinear_arith)
                    requires
                        0 <= nx,
                        0 <= ny,
                        0 <= width,
                ;
            }
            let t: u32 = (ny as u32) * width + (nx as u32);
            proof {
                assert(step_tile(width as nat, height as nat, node, d) == Some(t));
            }
            match by_tile.get(&t) {
                Some(id) => {
                    let ghost before = out@;
                    out.push(*id);
                    proof {
                        assert(by_tile@.contains_key(t));
                        assert(by_tile@[t] == *id);
                        assert(f(d) == seq![*id]);
                        assert(out@ =~= before + seq![*id]);
                    }
                },
                None => {
                    proof {
                        assert(!by_tile@.contains_key(t));
                        assert(f(d) == Seq::<u32>::empty());
                        assert(out@ =~= out@ + Seq::<u32>::empty());
                    }
                },
            }
        } else {
            proof {
                assert(step_tile(width as nat, height as nat, node, d) is None);
                assert(f(d) == Seq::<u32>::empty());
                assert(out@ =~= out@ + Seq::<u32>::empty());
            }
        }
        k += 1;
    }
    proof {
        lemma_take_all(steps());
    }
    out
}

/// Every neighbour the index names is a node.
proof fn lemma_neighbours_are_nodes(index: Map<u32, u32>, width: nat, height: nat, n: RoadNode, count: nat)
    requires
        forall|u: u32| #[trigger] index.contains_key(u) ==> (index[u] as int) < count,
    ensures
        forall|k: int|
            0 <= k < neighbours_of(index, width, height, n).len() ==> (#[trigger] neighbours_of(
                index,
                width,
                height,
                n,
            )[k] as int) < count,
{
    lemma_each_of_bounded(steps(), neighbour_step(index, width, height, n), 4, count, index, width, height, n);
    lemma_take_all(steps());
}

/// What a run of steps gives is bounded by the index's range.
proof fn lemma_each_of_bounded(
    s: Seq<(int, int)>,
    f: spec_fn((int, int)) -> Seq<u32>,
    j: int,
    count: nat,
    index: Map<u32, u32>,
    width: nat,
    height: nat,
    n: RoadNode,
)
    requires
        0 <= j <= s.len(),
        forall|u: u32| #[trigger] index.contains_key(u) ==> (index[u] as int) < count,
        f == neighbour_step(index, width, height, n),
    ensures
        forall|k: int|
            0 <= k < #[trigger] each_of(s.take(j), f).len() ==> (each_of(s.take(j), f)[k] as int)
                < count,
    decreases j,
{
    if j > 0 {
        lemma_each_of_bounded(s, f, j - 1, count, index, width, height, n);
        lemma_each_of_step(s, f, j - 1);
        let d = s[j - 1];
        assert forall|k: int| 0 <= k < f(d).len() implies (#[trigger] f(d)[k] as int) < count by {
            match step_tile(width, height, n, d) {
                Some(t) => {
                    if index.contains_key(t) {
                        assert(f(d) == seq![index[t]]);
                    }
                },
                None => {},
            }
        }
        let a = each_of(s.take(j - 1), f);
        assert forall|k: int| 0 <= k < (a + f(d)).len() implies (#[trigger] (a + f(d))[k] as int) < count by {
            if k < a.len() {
                assert((a + f(d))[k] == a[k]);
            } else {
                assert((a + f(d))[k] == f(d)[k - a.len()]);
            }
        }
    } else {
        assert(s.take(0).len() == 0);
    }
}

/// Whether a node id stands one orthogonal step from a node: the index names it for the
/// tile some step of `s` lands on.
pub open spec fn a_step_from(
    s: Seq<(int, int)>,
    index: Map<u32, u32>,
    width: nat,
    height: nat,
    n: RoadNode,
    u: u32,
) -> bool {
    exists|i: int, t: u32|
        #![trigger step_tile(width, height, n, s[i]), index[t]]
        0 <= i < s.len() && step_tile(width, height, n, s[i]) == Some(t) && index.contains_key(t) && index[t] == u
}

/// Every neighbour a run of steps gives is one of those steps away.
proof fn lemma_each_of_steps(
    s: Seq<(int, int)>,
    f: spec_fn((int, int)) -> Seq<u32>,
    j: int,
    index: Map<u32, u32>,
    width: nat,
    height: nat,
    n: RoadNode,
)
    requires
        0 <= j <= s.len(),
        f == neighbour_step(index, width, height, n),
    ensures
        forall|k: int|
            0 <= k < each_of(s.take(j), f).len() ==> a_step_from(
                s,
                index,
                width,
                height,
                n,
                #[trigger] each_of(s.take(j), f)[k],
            ),
    decreases j,
{
    if j > 0 {
        lemma_each_of_steps(s, f, j - 1, index, width, height, n);
        lemma_each_of_step(s, f, j - 1);
        let d = s[j - 1];
        let a = each_of(s.take(j - 1), f);
        assert forall|k: int| 0 <= k < (a + f(d)).len() implies a_step_from(
            s,
            index,
            width,
            height,
            n,
            #[trigger] (a + f(d))[k],
        ) by {
            if k < a.len() {
                assert((a + f(d))[k] == a[k]);
            } else {
                assert((a + f(d))[k] == f(d)[k - a.len()]);
                match step_tile(width, height, n, d) {
                    Some(t) => {
                        if index.contains_key(t) {
                            assert(f(d) == seq![index[t]]);
                            assert(step_tile(width, height, n, s[j - 1]) == Some(t));
                        }
                    },
                    None => {},
                }
            }
        }
    } else {
        assert(s.take(0).len() == 0);
    }
}

/// A node's listed neighbours each stand one orthogonal step from it.
proof fn lemma_neighbours_near(index: Map<u32, u32>, width: nat, height: nat, n: RoadNode)
    ensures
        forall|k: int|
            0 <= k < neighbours_of(index, width, height, n).len() ==> a_step_from(
                steps(),
                index,
                width,
                height,
                n,
                #[trigger] neighbours_of(index, width, height, n)[k],
            ),
{
    lemma_each_of_steps(steps(), neighbour_step(index, width, height, n), 4, index, width, height, n);
    lemma_take_all(steps());
}

/// What a step gives is among what the run of steps up to and past it gives.
proof fn lemma_each_of_holds(s: Seq<(int, int)>, f: spec_fn((int, int)) -> Seq<u32>, k: int, q: int, u: u32)
    requires
        0 <= q < k <= s.len(),
        f(s[q]).contains(u),
    ensures
        each_of(s.take(k), f).contains(u),
    decreases k,
{
    lemma_each_of_step(s, f, k - 1);
    let a = each_of(s.take(k - 1), f);
    let b = f(s[k - 1]);
    if q == k - 1 {
        let j = choose|j: int| 0 <= j < b.len() && b[j] == u;
        assert((a + b)[a.len() + j] == u);
    } else {
        lemma_each_of_holds(s, f, k - 1, q, u);
        let j = choose|j: int| 0 <= j < a.len() && a[j] == u;
        assert((a + b)[j] == u);
    }
}

/// In a graph rebuilt from a grid, two road nodes are neighbours exactly when they are
/// one orthogonal step apart: so the relation is symmetric, and a diagonal touch is no
/// connection.
pub proof fn law_neighbours_are_one_step_apart(g: RoadGraph, width: u32, height: u32, i: int, j: int)
    requires
        g.wf_in(width as nat, height as nat),
        forall|m: int|
            0 <= m < g.node_seq().len() ==> #[trigger] g.adjacency()[m] == neighbours_of(
                g.index(),
                width as nat,
                height as nat,
                g.node_seq()[m],
            ),
        0 <= i < g.node_seq().len(),
        0 <= j < g.node_seq().len(),
    ensures
        g.adjacency()[i].contains(j as u32) <==> manhattan(g.node_seq()[i], g.node_seq()[j]) == 1,
{
    let m = g.nodes@[i];
    let o = g.nodes@[j];
    assert(g.adjacency()[i] == g.adj@[i]@);
    if g.adjacency()[i].contains(j as u32) {
        let k = choose|k: int| 0 <= k < g.adjacency()[i].len() && g.adjacency()[i][k] == j as u32;
        assert(g.adj@[i]@[k] == j as u32);
    }
    if manhattan(m, o) == 1 {
        let w = width as nat;
        let h = height as nat;
        let q: int = if o.x == m.x + 1 {
            0
        } else if o.x + 1 == m.x {
            1
        } else if o.y == m.y + 1 {
            2
        } else {
            3
        };
        let d = steps()[q];
        assert(o.x == m.x + d.0 && o.y == m.y + d.1);
        assert(o.y * width + o.x < width * height) by (nonlinear_arith)
            requires
                o.x < width,
                o.y < height,
        ;
        assert(step_tile(w, h, m, d) == Some(o.tile));
        assert(g.by_tile@.contains_key(o.tile) && g.by_tile@[o.tile] == j);
        let f = neighbour_step(g.index(), w, h, m);
        assert(f(d) == seq![j as u32]);
        assert(f(steps()[q]).contains(j as u32)) by {
            assert(f(steps()[q])[0] == j as u32);
        }
        lemma_each_of_holds(steps(), f, 4, q, j as u32);
        lemma_take_all(steps());
    }
}

} // verus!

//! A sparse 32³ voxel octree.
//!
//! Empty air is implicit. Each occupied coordinate allocates only the branch path to its
//! leaf, so a surface chunk remains sparse instead of paying for 32³ empty cells. Its
//! contents read back exactly as they were written, coordinate by coordinate.
use vstd::prelude::*;

use vstd::wrapping::u64_specs;

verus! {

/// Five halvings from one 32-wide root to one-voxel leaves.
pub const OCTREE_DEPTH: u8 = 5;

/// How many voxels the octree can hold.
pub const OCTREE_CAPACITY: usize = 32768;

/// How many nodes a full octree has: one root and every level below it.
pub const OCTREE_MAX_NODES: usize = 37_449;

/// A voxel coordinate.
#[derive(Clone, Copy, Debug, PartialEq, Eq, Hash, Structural)]
pub struct Coord {
    pub x: i32,
    pub y: i32,
    pub z: i32,
}

impl Coord {
    pub fn new(x: i32, y: i32, z: i32) -> (r: Coord)
        ensures
            r == (Coord { x, y, z }),
    {
        Coord { x, y, z }
    }
}

/// What a voxel is made of.
#[derive(Clone, Copy, Debug, PartialEq, Eq, Hash, Structural)]
pub enum VoxelKind {
    Soil,
    Forage,
    Wood,
}

/// Whether a coordinate is inside the octree's 32³ cube.
pub open spec fn in_cube(c: Coord) -> bool {
    0 <= c.x < 32 && 0 <= c.y < 32 && 0 <= c.z < 32
}

/// Which of a branch's eight children holds a coordinate at a depth: one bit of each axis,
/// the highest first.
pub open spec fn slot(c: Coord, depth: nat) -> int {
    let b = (4 - depth) as u32;
    let x = c.x as u32;
    let y = c.y as u32;
    let z = c.z as u32;
    (((x >> b) & 1u32) | (((y >> b) & 1u32) << 1u32) | (((z >> b) & 1u32) << 2u32)) as int
}

/// Whether two coordinates take the same branches from a depth down.
pub open spec fn same_path(c: Coord, c2: Coord, depth: nat) -> bool {
    forall|d: nat| depth <= d < 5 ==> #[trigger] slot(c, d) == slot(c2, d)
}

#[derive(Debug)]
enum Node {
    Empty,
    Leaf(Option<VoxelKind>),
    Branch(Vec<Option<Box<Node>>>),
}

/// What a node holds at a coordinate, read from a depth down.
spec fn lookup(node: Node, c: Coord, depth: nat) -> Option<VoxelKind>
    decreases node,
{
    match node {
        Node::Empty => None,
        Node::Leaf(kind) => if depth >= 5 {
            kind
        } else {
            None
        },
        Node::Branch(children) => if depth < 5 && 0 <= slot(c, depth) < children@.len() {
            match children@[slot(c, depth)] {
                Some(child) => lookup(*child, c, depth + 1),
                None => None,
            }
        } else {
            None
        },
    }
}

/// The shape a node at a depth has: a leaf at the bottom, and above it a branch of eight
/// children, each absent or itself well shaped.
spec fn shaped(node: Node, depth: nat) -> bool
    decreases node,
{
    match node {
        Node::Empty => false,
        Node::Leaf(_) => depth >= 5,
        Node::Branch(children) => depth < 5 && children@.len() == 8 && forall|i: int|
            0 <= i < 8 ==> match #[trigger] children@[i] {
                Some(child) => shaped(*child, depth + 1),
                None => true,
            },
    }
}

/// The bytes a node is digested as, in visiting order.
spec fn encoding(node: Node) -> Seq<u8>
    decreases node, 0nat,
{
    match node {
        Node::Empty => seq![0u8],
        Node::Leaf(None) => seq![1u8],
        Node::Leaf(Some(kind)) => seq![2u8, kind_byte(kind)],
        Node::Branch(children) => seq![3u8] + encode_children(children@, children@.len()),
    }
}

/// The bytes the first `k` children of a branch are digested as.
spec fn encode_children(s: Seq<Option<Box<Node>>>, k: nat) -> Seq<u8>
    decreases s, k,
{
    if k == 0 || k > s.len() {
        Seq::empty()
    } else {
        encode_children(s, (k - 1) as nat) + match s[k - 1] {
            Some(child) => encoding(*child),
            None => seq![0u8],
        }
    }
}

/// How many nodes a node stands for: itself and every node below it.
spec fn size(node: Node) -> nat
    decreases node, 0nat,
{
    match node {
        Node::Branch(children) => 1 + children_size(children@, children@.len()),
        _ => 1,
    }
}

/// How many nodes the first `k` children of a branch stand for.
spec fn children_size(s: Seq<Option<Box<Node>>>, k: nat) -> nat
    decreases s, k,
{
    if k == 0 || k > s.len() {
        0
    } else {
        children_size(s, (k - 1) as nat) + match s[k - 1] {
            Some(child) => size(*child),
            None => 0,
        }
    }
}

/// How many nodes a full octree below a depth has, the node at that depth included.
pub open spec fn full_size(depth: nat) -> nat
    decreases 5 - depth,
{
    if depth >= 5 {
        1
    } else {
        1 + 8 * full_size(depth + 1)
    }
}

/// How many nodes putting a voxel at `c` into `node` at `depth` has to create: the rest
/// of the branch path below the deepest node already there.
spec fn fresh(node: Node, c: Coord, depth: nat) -> nat
    decreases node,
{
    if depth >= 5 {
        0
    } else {
        match node {
            Node::Branch(children) => if 0 <= slot(c, depth) < children@.len() {
                match children@[slot(c, depth)] {
                    Some(child) => fresh(*child, c, depth + 1),
                    None => (5 - depth) as nat,
                }
            } else {
                (5 - depth) as nat
            },
            _ => (5 - depth) as nat,
        }
    }
}

/// Changing one child changes the count by that child's change.
proof fn lemma_children_size_update(s: Seq<Option<Box<Node>>>, i: int, x: Option<Box<Node>>, k: nat)
    requires
        0 <= i < s.len(),
        k <= s.len(),
    ensures
        children_size(s.update(i, x), k) + (if i < k {
            match s[i] {
                Some(c) => size(*c),
                None => 0,
            }
        } else {
            0
        }) == children_size(s, k) + (if i < k {
            match x {
                Some(c) => size(*c),
                None => 0,
            }
        } else {
            0
        }),
    decreases k,
{
    if k > 0 {
        lemma_children_size_update(s, i, x, (k - 1) as nat);
    }
}

/// Children all absent stand for no nodes.
proof fn lemma_children_size_none(s: Seq<Option<Box<Node>>>, k: nat)
    requires
        k <= s.len(),
        forall|i: int| 0 <= i < s.len() ==> #[trigger] s[i] is None,
    ensures
        children_size(s, k) == 0,
    decreases k,
{
    if k > 0 {
        lemma_children_size_none(s, (k - 1) as nat);
    }
}

/// A well-shaped node has no more nodes than a full one.
proof fn lemma_size_bounded(node: Node, depth: nat)
    requires
        shaped(node, depth),
    ensures
        size(node) <= full_size(depth),
    decreases node, 1nat,
{
    match node {
        Node::Branch(children) => {
            lemma_children_bounded(node, children@, depth, 8);
            assert(size(node) == 1 + children_size(children@, 8));
            let m = full_size(depth + 1);
            assert(8 * m == 8 * m);
        },
        _ => {},
    }
}

/// The first `k` children of a well-shaped branch have no more nodes than `k` full ones.
proof fn lemma_children_bounded(node: Node, s: Seq<Option<Box<Node>>>, depth: nat, k: nat)
    requires
        shaped(node, depth),
        node is Branch && node->Branch_0@ == s,
        k <= 8,
    ensures
        children_size(s, k) <= k * full_size(depth + 1),
    decreases node, 0nat, k,
{
    assert(s.len() == 8);
    if k > 0 {
        lemma_children_bounded(node, s, depth, (k - 1) as nat);
        let m = full_size(depth + 1);
        match s[k - 1] {
            Some(child) => {
                let ch = node->Branch_0;
                assert(decreases_to!(node => ch));
                assert(decreases_to!(ch => ch@));
                assert(decreases_to!(ch@ => ch@[k - 1]));
                assert(shaped(*child, depth + 1));
                lemma_size_bounded(*child, depth + 1);
            },
            None => {},
        }
        assert((k - 1) * m + m == k * m) by (nonlinear_arith);
    }
}

/// A coordinate a node already holds needs no new node.
proof fn lemma_held_needs_nothing(node: Node, c: Coord, depth: nat)
    requires
        lookup(node, c, depth) is Some,
    ensures
        fresh(node, c, depth) == 0,
    decreases node,
{
    match node {
        Node::Branch(children) => {
            if depth < 5 && 0 <= slot(c, depth) < children@.len() {
                match children@[slot(c, depth)] {
                    Some(child) => lemma_held_needs_nothing(*child, c, depth + 1),
                    None => {},
                }
            }
        },
        _ => {},
    }
}

/// A path of at most five nodes is ever created.
proof fn lemma_fresh_bounded(node: Node, c: Coord, depth: nat)
    ensures
        fresh(node, c, depth) <= 5,
    decreases node,
{
    if depth < 5 {
        match node {
            Node::Branch(children) => {
                if 0 <= slot(c, depth) < children@.len() {
                    match children@[slot(c, depth)] {
                        Some(child) => lemma_fresh_bounded(*child, c, depth + 1),
                        None => {},
                    }
                }
            },
            _ => {},
        }
    }
}

/// The byte a voxel kind is digested as.
pub open spec fn kind_byte(kind: VoxelKind) -> u8 {
    match kind {
        VoxelKind::Soil => 1,
        VoxelKind::Forage => 2,
        VoxelKind::Wood => 3,
    }
}

/// The FNV-1a offset basis.
pub const FNV_OFFSET: u64 = 0xcbf2_9ce4_8422_2325;

/// The FNV-1a prime.
pub const FNV_PRIME: u64 = 0x1000_0000_01b3;

/// One FNV-1a step: fold a byte in, then multiply by the prime modulo 2^64.
#[verifier::opaque]
pub open spec fn mix(hash: u64, byte: u8) -> u64 {
    u64_specs::wrapping_mul(hash ^ (byte as u64), FNV_PRIME)
}

/// FNV-1a over a run of bytes, from a starting hash.
pub open spec fn fnv(hash: u64, bytes: Seq<u8>) -> u64
    decreases bytes.len(),
{
    if bytes.len() == 0 {
        hash
    } else {
        mix(fnv(hash, bytes.drop_last()), bytes.last())
    }
}

/// Hashing two runs is hashing the first, then the second.
pub proof fn lemma_fnv_append(hash: u64, a: Seq<u8>, b: Seq<u8>)
    ensures
        fnv(hash, a + b) == fnv(fnv(hash, a), b),
    decreases b.len(),
{
    if b.len() == 0 {
        assert(a + b =~= a);
    } else {
        lemma_fnv_append(hash, a, b.drop_last());
        assert((a + b).drop_last() =~= a + b.drop_last());
    }
}

/// The sparse octree: a root node, the nodes counted as allocated, and the coordinates
/// that hold a voxel.
pub struct SparseVoxelOctree {
    root: Node,
    nodes: usize,
    occupied: usize,
    filled: Ghost<Set<Coord>>,
}

/// The cube's coordinates, numbered one for one.
pub open spec fn code(c: Coord) -> int {
    c.x * 1024 + c.y * 32 + c.z
}

/// No more coordinates than the cube has can be inside it.
proof fn lemma_cube_holds(s: Set<Coord>)
    requires
        s.finite(),
        forall|c: Coord| #[trigger] s.contains(c) ==> in_cube(c),
    ensures
        s.len() <= OCTREE_CAPACITY,
{
    let f = |c: Coord| code(c);
    assert(vstd::relations::injective_on(f, s)) by {
        assert forall|a: Coord, b: Coord| s.contains(a) && s.contains(b) && #[trigger] f(a) == #[trigger] f(b) implies a == b by {
            assert(a.z == b.z && a.y == b.y && a.x == b.x) by (nonlinear_arith)
                requires
                    0 <= a.x < 32,
                    0 <= a.y < 32,
                    0 <= a.z < 32,
                    0 <= b.x < 32,
                    0 <= b.y < 32,
                    0 <= b.z < 32,
                    a.x * 1024 + a.y * 32 + a.z == b.x * 1024 + b.y * 32 + b.z,
            ;
        }
    }
    vstd::set_lib::lemma_map_size(s, s.map(f), f);
    vstd::set_lib::lemma_int_range(0, 32768);
    assert forall|v: int| s.map(f).contains(v) implies vstd::set_lib::set_int_range(0, 32768).contains(v) by {
        let c = choose|c: Coord| s.contains(c) && f(c) == v;
        assert(0 <= c.x * 1024 + c.y * 32 + c.z < 32768) by (nonlinear_arith)
            requires
                0 <= c.x < 32,
                0 <= c.y < 32,
                0 <= c.z < 32,
        ;
    }
    vstd::set_lib::lemma_len_subset(s.map(f), vstd::set_lib::set_int_range(0, 32768));
}

/// A branch index is one of eight.
proof fn lemma_slot_in_range(c: Coord, depth: nat)
    requires
        depth < 5,
    ensures
        0 <= slot(c, depth) < 8,
{
    let b = (4 - depth) as u32;
    let x = c.x as u32;
    let y = c.y as u32;
    let z = c.z as u32;
    assert((((x >> b) & 1u32) | (((y >> b) & 1u32) << 1u32) | (((z >> b) & 1u32) << 2u32)) < 8u32)
        by (bit_vector);
}

/// Two coordinates of the cube that take the same five branches are the same coordinate.
proof fn lemma_one_path_one_voxel(c: Coord, c2: Coord)
    requires
        in_cube(c),
        in_cube(c2),
        same_path(c, c2, 0),
    ensures
        c == c2,
{
    let (x, y, z) = (c.x as u32, c.y as u32, c.z as u32);
    let (x2, y2, z2) = (c2.x as u32, c2.y as u32, c2.z as u32);
    assert(slot(c, 0) == slot(c2, 0));
    assert(slot(c, 1) == slot(c2, 1));
    assert(slot(c, 2) == slot(c2, 2));
    assert(slot(c, 3) == slot(c2, 3));
    assert(slot(c, 4) == slot(c2, 4));
    assert(x == x2 && y == y2 && z == z2) by (bit_vector)
        requires
            x < 32u32,
            y < 32u32,
            z < 32u32,
            x2 < 32u32,
            y2 < 32u32,
            z2 < 32u32,
            (((x >> 4u32) & 1u32) | (((y >> 4u32) & 1u32) << 1u32) | (((z >> 4u32) & 1u32) << 2u32))
                == (((x2 >> 4u32) & 1u32) | (((y2 >> 4u32) & 1u32) << 1u32) | (((z2 >> 4u32) & 1u32) << 2u32)),
            (((x >> 3u32) & 1u32) | (((y >> 3u32) & 1u32) << 1u32) | (((z >> 3u32) & 1u32) << 2u32))
                == (((x2 >> 3u32) & 1u32) | (((y2 >> 3u32) & 1u32) << 1u32) | (((z2 >> 3u32) & 1u32) << 2u32)),
            (((x >> 2u32) & 1u32) | (((y >> 2u32) & 1u32) << 1u32) | (((z >> 2u32) & 1u32) << 2u32))
                == (((x2 >> 2u32) & 1u32) | (((y2 >> 2u32) & 1u32) << 1u32) | (((z2 >> 2u32) & 1u32) << 2u32)),
            (((x >> 1u32) & 1u32) | (((y >> 1u32) & 1u32) << 1u32) | (((z >> 1u32) & 1u32) << 2u32))
                == (((x2 >> 1u32) & 1u32) | (((y2 >> 1u32) & 1u32) << 1u32) | (((z2 >> 1u32) & 1u32) << 2u32)),
            (((x >> 0u32) & 1u32) | (((y >> 0u32) & 1u32) << 1u32) | (((z >> 0u32) & 1u32) << 2u32))
                == (((x2 >> 0u32) & 1u32) | (((y2 >> 0u32) & 1u32) << 1u32) | (((z2 >> 0u32) & 1u32) << 2u32)),
    ;
}

/// Whether a node holds a voxel at some coordinate of the cube, read from a depth down.
spec fn holds_some(node: Node, depth: nat) -> bool {
    exists|c: Coord| in_cube(c) && (#[trigger] lookup(node, c, depth)) is Some
}

/// Whether every child of every branch in a node holds a voxel somewhere below it: no
/// branch path is kept that leads to nothing.
spec fn full(node: Node, depth: nat) -> bool
    decreases node,
{
    match node {
        Node::Branch(children) => forall|i: int|
            0 <= i < children@.len() ==> match #[trigger] children@[i] {
                Some(child) => full(*child, depth + 1) && holds_some(*child, depth + 1),
                None => true,
            },
        _ => true,
    }
}

/// What a node holds at a coordinate depends only on the branches the coordinate takes
/// from the node's depth down.
proof fn lemma_lookup_on_path(node: Node, c: Coord, c2: Coord, depth: nat)
    requires
        same_path(c, c2, depth),
    ensures
        lookup(node, c, depth) == lookup(node, c2, depth),
    decreases node,
{
    match node {
        Node::Branch(children) => {
            if depth < 5 {
                assert(slot(c, depth) == slot(c2, depth));
                if 0 <= slot(c, depth) < children@.len() {
                    match children@[slot(c, depth)] {
                        Some(child) => {
                            assert(same_path(c, c2, depth + 1));
                            lemma_lookup_on_path(*child, c, c2, depth + 1);
                        },
                        None => {},
                    }
                }
            }
        },
        _ => {},
    }
}

/// A coordinate of the cube taking branch `i` at a depth and, below it, the branches
/// another coordinate takes.
proof fn lemma_reslot(c: Coord, depth: nat, i: int) -> (c2: Coord)
    requires
        in_cube(c),
        depth < 5,
        0 <= i < 8,
    ensures
        in_cube(c2),
        slot(c2, depth) == i,
        same_path(c, c2, depth + 1),
{
    let b = (4 - depth) as u32;
    let x = c.x as u32;
    let y = c.y as u32;
    let z = c.z as u32;
    let iu = i as u32;
    let x2 = (x & !(1u32 << b)) | ((iu & 1u32) << b);
    let y2 = (y & !(1u32 << b)) | (((iu >> 1u32) & 1u32) << b);
    let z2 = (z & !(1u32 << b)) | (((iu >> 2u32) & 1u32) << b);
    assert(x2 < 32u32 && y2 < 32u32 && z2 < 32u32) by (bit_vector)
        requires
            x < 32u32,
            y < 32u32,
            z < 32u32,
            b <= 4u32,
            iu < 8u32,
            x2 == (x & !(1u32 << b)) | ((iu & 1u32) << b),
            y2 == (y & !(1u32 << b)) | (((iu >> 1u32) & 1u32) << b),
            z2 == (z & !(1u32 << b)) | (((iu >> 2u32) & 1u32) << b),
    ;
    assert((((x2 >> b) & 1u32) | (((y2 >> b) & 1u32) << 1u32) | (((z2 >> b) & 1u32) << 2u32)) == iu)
        by (bit_vector)
        requires
            b <= 4u32,
            iu < 8u32,
            x2 == (x & !(1u32 << b)) | ((iu & 1u32) << b),
            y2 == (y & !(1u32 << b)) | (((iu >> 1u32) & 1u32) << b),
            z2 == (z & !(1u32 << b)) | (((iu >> 2u32) & 1u32) << b),
    ;
    let c2 = Coord { x: x2 as i32, y: y2 as i32, z: z2 as i32 };
    assert(c2.x as u32 == x2 && c2.y as u32 == y2 && c2.z as u32 == z2);
    assert forall|d: nat| depth + 1 <= d < 5 implies #[trigger] slot(c, d) == slot(c2, d) by {
        let b2 = (4 - d) as u32;
        assert(((x2 >> b2) & 1u32) == ((x >> b2) & 1u32) && ((y2 >> b2) & 1u32) == ((y >> b2) & 1u32)
            && ((z2 >> b2) & 1u32) == ((z >> b2) & 1u32)) by (bit_vector)
            requires
                b2 < b,
                b <= 4u32,
                x2 == (x & !(1u32 << b)) | ((iu & 1u32) << b),
                y2 == (y & !(1u32 << b)) | (((iu >> 1u32) & 1u32) << b),
                z2 == (z & !(1u32 << b)) | (((iu >> 2u32) & 1u32) << b),
        ;
    }
    c2
}

/// Two nodes at one depth that hold the same voxels over the whole cube, each well shaped
/// and keeping no path to nothing, are digested as the same bytes.
proof fn lemma_same_contents_same_bytes(n1: Node, n2: Node, depth: nat)
    requires
        depth <= 5,
        shaped(n1, depth),
        shaped(n2, depth),
        full(n1, depth),
        full(n2, depth),
        forall|c: Coord| in_cube(c) ==> #[trigger] lookup(n1, c, depth) == lookup(n2, c, depth),
    ensures
        encoding(n1) == encoding(n2),
    decreases n1,
{
    match n1 {
        Node::Leaf(k1) => {
            let o = Coord { x: 0, y: 0, z: 0 };
            assert(lookup(n1, o, depth) == lookup(n2, o, depth));
        },
        Node::Branch(s1) => {
            let s2 = n2->Branch_0;
            assert forall|i: int| 0 <= i < 8 implies #[trigger] child_bytes(s1@[i]) == child_bytes(s2@[i]) by {
                match (s1@[i], s2@[i]) {
                    (Some(a), Some(b)) => {
                        assert forall|c: Coord| in_cube(c) implies #[trigger] lookup(*a, c, depth + 1) == lookup(
                            *b,
                            c,
                            depth + 1,
                        ) by {
                            let c2 = lemma_reslot(c, depth, i);
                            lemma_lookup_on_path(*a, c, c2, depth + 1);
                            lemma_lookup_on_path(*b, c, c2, depth + 1);
                            assert(lookup(n1, c2, depth) == lookup(n2, c2, depth));
                        }
                        assert(decreases_to!(n1 => s1@[i]));
                        lemma_same_contents_same_bytes(*a, *b, depth + 1);
                    },
                    (Some(a), None) => {
                        assert(holds_some(*a, depth + 1));
                        let c = choose|c: Coord| in_cube(c) && (#[trigger] lookup(*a, c, depth + 1)) is Some;
                        let c2 = lemma_reslot(c, depth, i);
                        lemma_lookup_on_path(*a, c, c2, depth + 1);
                        assert(lookup(n1, c2, depth) == lookup(n2, c2, depth));
                    },
                    (None, Some(b)) => {
                        assert(holds_some(*b, depth + 1));
                        let c = choose|c: Coord| in_cube(c) && (#[trigger] lookup(*b, c, depth + 1)) is Some;
                        let c2 = lemma_reslot(c, depth, i);
                        lemma_lookup_on_path(*b, c, c2, depth + 1);
                        assert(lookup(n1, c2, depth) == lookup(n2, c2, depth));
                    },
                    (None, None) => {},
                }
            }
            lemma_children_bytes(s1@, s2@, 8);
        },
        _ => {},
    }
}

/// The bytes one child of a branch is digested as.
spec fn child_bytes(child: Option<Box<Node>>) -> Seq<u8> {
    match child {
        Some(node) => encoding(*node),
        None => seq![0u8],
    }
}

/// Children digested alike one by one are digested alike together.
proof fn lemma_children_bytes(s1: Seq<Option<Box<Node>>>, s2: Seq<Option<Box<Node>>>, k: nat)
    requires
        k <= s1.len(),
        s1.len() == s2.len(),
        forall|i: int| 0 <= i < k ==> #[trigger] child_bytes(s1[i]) == child_bytes(s2[i]),
    ensures
        encode_children(s1, k) == encode_children(s2, k),
    decreases k,
{
    if k > 0 {
        lemma_children_bytes(s1, s2, (k - 1) as nat);
        assert(child_bytes(s1[k - 1]) == child_bytes(s2[k - 1]));
    }
}

/// Whether two coordinates take the same branches above a depth.
pub open spec fn share_prefix(c: Coord, c2: Coord, depth: nat) -> bool {
    forall|d: nat| d < depth ==> #[trigger] slot(c, d) == slot(c2, d)
}

/// How deep the branch path to `c` already goes, from a depth down, in an octree holding the
/// voxels `filled`: the deepest level whose node lies on the path of a held voxel too.
pub open spec fn held_depth(filled: Set<Coord>, c: Coord, depth: nat) -> nat
    decreases 5 - depth,
{
    if depth < 5 && exists|c2: Coord| #[trigger] filled.contains(c2) && share_prefix(c, c2, depth + 1) {
        held_depth(filled, c, depth + 1)
    } else {
        depth
    }
}

/// How many nodes putting a voxel at `c` into an octree holding `filled` allocates: the
/// levels of its branch path, down to its leaf, below the deepest one already there.
pub open spec fn new_path_nodes(filled: Set<Coord>, c: Coord) -> nat {
    (5 - held_depth(filled, c, 0)) as nat
}

/// A coordinate of the cube taking the branches of `c` down to a depth and those of `c3`
/// below it.
proof fn lemma_graft(c: Coord, c3: Coord, depth: nat) -> (c2: Coord)
    requires
        in_cube(c),
        in_cube(c3),
        depth < 5,
    ensures
        in_cube(c2),
        share_prefix(c, c2, depth + 1),
        same_path(c3, c2, depth + 1),
{
    let b = (4 - depth) as u32;
    let (x, y, z) = (c.x as u32, c.y as u32, c.z as u32);
    let (x3, y3, z3) = (c3.x as u32, c3.y as u32, c3.z as u32);
    let high: u32 = (!0u32) << b;
    let x2 = (x & high) | (x3 & !high);
    let y2 = (y & high) | (y3 & !high);
    let z2 = (z & high) | (z3 & !high);
    assert(x2 < 32u32 && y2 < 32u32 && z2 < 32u32) by (bit_vector)
        requires
            x < 32u32,
            y < 32u32,
            z < 32u32,
            x3 < 32u32,
            y3 < 32u32,
            z3 < 32u32,
            b <= 4u32,
            high == (!0u32) << b,
            x2 == (x & high) | (x3 & !high),
            y2 == (y & high) | (y3 & !high),
            z2 == (z & high) | (z3 & !high),
    ;
    let c2 = Coord { x: x2 as i32, y: y2 as i32, z: z2 as i32 };
    assert(c2.x as u32 == x2 && c2.y as u32 == y2 && c2.z as u32 == z2);
    assert forall|d: nat| d < depth + 1 implies #[trigger] slot(c, d) == slot(c2, d) by {
        let b2 = (4 - d) as u32;
        assert(((x2 >> b2) & 1u32) == ((x >> b2) & 1u32) && ((y2 >> b2) & 1u32) == ((y >> b2) & 1u32)
            && ((z2 >> b2) & 1u32) == ((z >> b2) & 1u32)) by (bit_vector)
            requires
                b <= b2,
                b2 <= 4u32,
                high == (!0u32) << b,
                x2 == (x & high) | (x3 & !high),
                y2 == (y & high) | (y3 & !high),
                z2 == (z & high) | (z3 & !high),
        ;
    }
    assert forall|d: nat| depth + 1 <= d < 5 implies #[trigger] slot(c3, d) == slot(c2, d) by {
        let b2 = (4 - d) as u32;
        assert(((x2 >> b2) & 1u32) == ((x3 >> b2) & 1u32) && ((y2 >> b2) & 1u32) == ((y3 >> b2) & 1u32)
            && ((z2 >> b2) & 1u32) == ((z3 >> b2) & 1u32)) by (bit_vector)
            requires
                b2 < b,
                b <= 4u32,
                high == (!0u32) << b,
                x2 == (x & high) | (x3 & !high),
                y2 == (y & high) | (y3 & !high),
                z2 == (z & high) | (z3 & !high),
        ;
    }
    c2
}

/// The nodes an insertion creates below a node on the path of `c` are the levels below the
/// deepest one a held voxel shares with `c`, where the node holds exactly the voxels of
/// `filled` that share its path.
proof fn lemma_fresh_is_new_path(node: Node, filled: Set<Coord>, c: Coord, depth: nat)
    requires
        depth <= 5,
        in_cube(c),
        node is Empty ==> depth == 0,
        node is Empty || shaped(node, depth),
        full(node, depth),
        forall|c2: Coord| #[trigger] filled.contains(c2) ==> in_cube(c2),
        forall|c2: Coord|
            in_cube(c2) && share_prefix(c, c2, depth) ==> (#[trigger] lookup(node, c2, depth) is Some <==> filled.contains(c2)),
    ensures
        fresh(node, c, depth) == 5 - held_depth(filled, c, depth),
    decreases node,
{
    if depth >= 5 {
        return;
    }
    match node {
        Node::Branch(children) => {
            lemma_slot_in_range(c, depth);
            let i = slot(c, depth);
            match children@[i] {
                None => {
                    if exists|c2: Coord| #[trigger] filled.contains(c2) && share_prefix(c, c2, depth + 1) {
                        let c2 = choose|c2: Coord| #[trigger] filled.contains(c2) && share_prefix(c, c2, depth + 1);
                        assert(slot(c, depth) == slot(c2, depth));
                        assert(lookup(node, c2, depth) is Some);
                    }
                },
                Some(ch) => {
                    assert(full(*ch, depth + 1) && holds_some(*ch, depth + 1));
                    let c3 = choose|c3: Coord| in_cube(c3) && (#[trigger] lookup(*ch, c3, depth + 1)) is Some;
                    let c2 = lemma_graft(c, c3, depth);
                    lemma_lookup_on_path(*ch, c3, c2, depth + 1);
                    assert(slot(c, depth) == slot(c2, depth));
                    assert(lookup(node, c2, depth) is Some);
                    assert(filled.contains(c2));
                    assert(held_depth(filled, c, depth) == held_depth(filled, c, depth + 1));
                    assert forall|c4: Coord|
                        in_cube(c4) && share_prefix(c, c4, depth + 1) implies (#[trigger] lookup(*ch, c4, depth + 1) is Some
                            <==> filled.contains(c4)) by {
                        assert(slot(c, depth) == slot(c4, depth));
                        assert(lookup(node, c4, depth) == lookup(*ch, c4, depth + 1));
                    }
                    assert(decreases_to!(node => children@[i]));
                    lemma_fresh_is_new_path(*ch, filled, c, depth + 1);
                },
            }
        },
        _ => {
            if exists|c2: Coord| #[trigger] filled.contains(c2) && share_prefix(c, c2, depth + 1) {
                let c2 = choose|c2: Coord| #[trigger] filled.contains(c2) && share_prefix(c, c2, depth + 1);
                assert(lookup(node, c2, depth) is Some);
            }
        },
    }
}

/// A branch with no children yet, or a leaf with nothing in it at the bottom.
fn empty_for_depth(depth: u8) -> (r: Node)
    requires
        depth <= 5,
    ensures
        shaped(r, depth as nat),
        full(r, depth as nat),
        forall|c: Coord| #[trigger] lookup(r, c, depth as nat) is None,
        size(r) == 1,
        forall|c: Coord| #[trigger] fresh(r, c, depth as nat) == 5 - depth,
{
    if depth == OCTREE_DEPTH {
        Node::Leaf(None)
    } else {
        let children = no_children();
        proof {
            lemma_children_size_none(children@, 8);
            assert forall|c: Coord| #[trigger] fresh(Node::Branch(children), c, depth as nat) == 5 - depth by {
                lemma_slot_in_range(c, depth as nat);
            }
        }
        Node::Branch(children)
    }
}

/// Eight absent children.
fn no_children() -> (r: Vec<Option<Box<Node>>>)
    ensures
        r@.len() == 8,
        forall|i: int| 0 <= i < 8 ==> #[trigger] r@[i] is None,
{
    let mut children: Vec<Option<Box<Node>>> = Vec::new();
    let mut i: usize = 0;
    while i < 8
        invariant
            i <= 8,
            children@.len() == i,
            forall|k: int| 0 <= k < i ==> #[trigger] children@[k] is None,
        decreases 8 - i,
    {
        children.push(None);
        i += 1;
    }
    children
}

/// Which child of a branch at `depth` holds a coordinate.
fn branch_index(coord: Coord, depth: u8) -> (r: usize)
    requires
        depth < 5,
    ensures
        r == slot(coord, depth as nat),
        r < 8,
{
    proof {
        lemma_slot_in_range(coord, depth as nat);
    }
    let bit: u32 = (OCTREE_DEPTH - 1 - depth) as u32;
    let x = ((coord.x as u32) >> bit) & 1;
    let y = ((coord.y as u32) >> bit) & 1;
    let z = ((coord.z as u32) >> bit) & 1;
    (x | (y << 1) | (z << 2)) as usize
}

/// Put a voxel into a node, returning the node it becomes and what the coordinate held.
fn insert_at(node: Node, coord: Coord, depth: u8, kind: VoxelKind) -> (r: (Node, Option<VoxelKind>, usize))
    requires
        depth <= 5,
        node is Empty || shaped(node, depth as nat),
        in_cube(coord),
        full(node, depth as nat),
    ensures
        shaped(r.0, depth as nat),
        full(r.0, depth as nat),
        holds_some(r.0, depth as nat),
        r.1 == lookup(node, coord, depth as nat),
        size(r.0) == size(node) + fresh(node, coord, depth as nat),
        r.2 == fresh(node, coord, depth as nat),
        forall|c2: Coord|
            #[trigger] lookup(r.0, c2, depth as nat) == if same_path(coord, c2, depth as nat) {
                Some(kind)
            } else {
                lookup(node, c2, depth as nat)
            },
    decreases 5 - depth,
{
    if depth == OCTREE_DEPTH {
        let previous = match node {
            Node::Leaf(held) => held,
            _ => None,
        };
        proof {
            assert forall|c2: Coord| same_path(coord, c2, depth as nat) by {}
            assert(lookup(Node::Leaf(Some(kind)), coord, depth as nat) is Some);
        }
        return (Node::Leaf(Some(kind)), previous, 0);
    }
    let ghost old_node = node;
    let mut children = match node {
        Node::Branch(children) => children,
        _ => no_children(),
    };
    let ghost before = children@;
    proof {
        assert(before.len() == 8);
        if old_node is Branch {
            assert(old_node == Node::Branch(children));
        } else {
            lemma_children_size_none(before, 8);
        }
        assert(size(old_node) == 1 + children_size(before, 8));
        assert(forall|c2: Coord| #[trigger] lookup(old_node, c2, depth as nat) == match before[slot(c2, depth as nat)] {
            Some(ch) => lookup(*ch, c2, depth as nat + 1),
            None => None,
        }) by {
            assert forall|c2: Coord| #[trigger] lookup(old_node, c2, depth as nat) == match before[slot(c2, depth as nat)] {
                Some(ch) => lookup(*ch, c2, depth as nat + 1),
                None => None,
            } by {
                lemma_slot_in_range(c2, depth as nat);
            }
        }
    }
    let index = branch_index(coord, depth);
    let child = children.remove(index);
    let (child_node, made) = match child {
        Some(boxed) => (*boxed, 0usize),
        None => (empty_for_depth(depth + 1), 1usize),
    };
    let ghost held = child_node;
    proof {
        assert(forall|c2: Coord| #[trigger] lookup(held, c2, depth as nat + 1) == match before[index as int] {
            Some(ch) => lookup(*ch, c2, depth as nat + 1),
            None => None,
        });
    }
    let (inner, previous, below) = insert_at(child_node, coord, depth + 1, kind);
    proof {
        lemma_fresh_bounded(child_node, coord, depth as nat + 1);
    }
    children.insert(index, Some(Box::new(inner)));
    let r = Node::Branch(children);
    proof {
        assert(children@ =~= before.update(index as int, Some(Box::new(inner))));
        lemma_children_size_update(before, index as int, Some(Box::new(inner)), 8);
        lemma_slot_in_range(coord, depth as nat);
        assert(fresh(old_node, coord, depth as nat) == match before[index as int] {
            Some(ch) => fresh(*ch, coord, depth as nat + 1),
            None => (5 - depth) as nat,
        });
        assert(size(r) == 1 + children_size(children@, 8));
        assert(size(r) == size(old_node) + fresh(old_node, coord, depth as nat));
        assert forall|i: int| 0 <= i < 8 implies match #[trigger] children@[i] {
            Some(child) => shaped(*child, depth as nat + 1),
            None => true,
        } by {
            if i != index {
                assert(children@[i] == before[i]);
            }
        }
        assert(shaped(r, depth as nat));
        assert forall|c2: Coord|
            #[trigger] lookup(r, c2, depth as nat) == if same_path(coord, c2, depth as nat) {
                Some(kind)
            } else {
                lookup(old_node, c2, depth as nat)
            } by {
            lemma_slot_in_range(c2, depth as nat);
            let s2 = slot(c2, depth as nat);
            if s2 == index {
                assert(children@[s2] == Some(Box::new(inner)));
                assert(lookup(r, c2, depth as nat) == lookup(inner, c2, depth as nat + 1));
                if same_path(coord, c2, depth as nat + 1) {
                    assert forall|d: nat| depth <= d < 5 implies #[trigger] slot(coord, d) == slot(c2, d) by {
                        if d > depth {
                            assert(slot(coord, d) == slot(c2, d));
                        }
                    }
                    assert(same_path(coord, c2, depth as nat));
                } else {
                    let d = choose|d: nat| depth + 1 <= d < 5 && #[trigger] slot(coord, d) != slot(c2, d);
                    assert(!same_path(coord, c2, depth as nat));
                }
            } else {
                assert(children@[s2] == before[s2]);
                assert(slot(coord, depth as nat) != slot(c2, depth as nat));
                assert(!same_path(coord, c2, depth as nat));
            }
        }
        assert(same_path(coord, coord, depth as nat));
        assert(lookup(r, coord, depth as nat) == Some(kind));
    }
    (r, previous, made + below)
}

/// What a node holds at a coordinate, read from a depth down.
fn get_at(node: &Node, coord: Coord, depth: u8) -> (r: Option<VoxelKind>)
    requires
        depth <= 5,
    ensures
        r == lookup(*node, coord, depth as nat),
    decreases node,
{
    if depth == OCTREE_DEPTH {
        return match node {
            Node::Leaf(held) => *held,
            _ => None,
        };
    }
    match node {
        Node::Branch(children) => {
            let index = branch_index(coord, depth);
            if index < children.len() {
                match &children[index] {
                    Some(child) => get_at(&**child, coord, depth + 1),
                    None => None,
                }
            } else {
                None
            }
        },
        _ => None,
    }
}

/// Fold a node's bytes into a hash, in visiting order.
fn visit(hash: &mut u64, node: &Node)
    ensures
        *final(hash) == fnv(*old(hash), encoding(*node)),
    decreases node,
{
    match node {
        Node::Empty => feed(hash, 0),
        Node::Leaf(None) => feed(hash, 1),
        Node::Leaf(Some(kind)) => {
            let ghost start = *hash;
            feed(hash, 2);
            feed(hash, kind_byte_of(*kind));
            proof {
                lemma_fnv_append(start, seq![2u8], seq![kind_byte(*kind)]);
                assert(seq![2u8] + seq![kind_byte(*kind)] =~= seq![2u8, kind_byte(*kind)]);
            }
        },
        Node::Branch(children) => {
            let ghost start = *hash;
            feed(hash, 3);
            let mut i: usize = 0;
            while i < children.len()
                invariant
                    *node == Node::Branch(*children),
                    i <= children@.len(),
                    *hash == fnv(start, seq![3u8] + encode_children(children@, i as nat)),
                decreases children@.len() - i,
            {
                let ghost before = *hash;
                let ghost part = match children@[i as int] {
                    Some(child) => encoding(*child),
                    None => seq![0u8],
                };
                match &children[i] {
                    Some(child) => {
                        proof {
                            assert(children@[i as int] == Some(*child));
                            assert(*node == Node::Branch(*children));
                            assert(decreases_to!(*node => (*node)->Branch_0));
                            assert(decreases_to!(*children => children@));
                            assert(decreases_to!(*node => children@));
                            assert(decreases_to!(children@ => children@[i as int]));
                            assert(decreases_to!(children@[i as int] => **child));
                        }
                        visit(hash, &**child)
                    },
                    None => feed(hash, 0),
                }
                proof {
                    lemma_fnv_append(start, seq![3u8] + encode_children(children@, i as nat), part);
                    assert(seq![3u8] + encode_children(children@, i as nat + 1) =~= (seq![3u8]
                        + encode_children(children@, i as nat)) + part);
                }
                i += 1;
            }
        },
    }
}

/// Fold one byte into a hash.
fn feed(hash: &mut u64, value: u8)
    ensures
        *final(hash) == fnv(*old(hash), seq![value]),
{
    let ghost h = *hash;
    let x = *hash ^ (value as u64);
    let r = x.wrapping_mul(FNV_PRIME);
    proof {
        reveal(mix);
        assert(r == mix(h, value));
        assert(seq![value].drop_last() =~= Seq::<u8>::empty());
        assert(seq![value].last() == value);
        assert(fnv(h, Seq::<u8>::empty()) == h);
        assert(fnv(h, seq![value]) == mix(fnv(h, seq![value].drop_last()), seq![value].last()));
    }
    *hash = r;
}

/// The byte a voxel kind is digested as.
fn kind_byte_of(kind: VoxelKind) -> (r: u8)
    ensures
        r == kind_byte(kind),
{
    match kind {
        VoxelKind::Soil => 1,
        VoxelKind::Forage => 2,
        VoxelKind::Wood => 3,
    }
}

impl SparseVoxelOctree {
    /// What the octree holds at a coordinate: nothing outside the cube.
    pub closed spec fn at(&self, c: Coord) -> Option<VoxelKind> {
        if in_cube(c) {
            lookup(self.root, c, 0)
        } else {
            None
        }
    }

    /// The coordinates that hold a voxel.
    pub closed spec fn filled(&self) -> Set<Coord> {
        self.filled@
    }

    /// How many nodes are counted as allocated.
    pub closed spec fn allocated(&self) -> nat {
        self.nodes as nat
    }

    /// The bytes the octree is digested as: its nodes, root first, each branch's children
    /// in order.
    pub closed spec fn encoded(&self) -> Seq<u8> {
        encoding(self.root)
    }

    /// Whether an octree is in the state its operations keep: well shaped, its counts
    /// right, and no branch path kept that leads to nothing.
    pub closed spec fn valid(&self) -> bool {
        self.well_formed()
    }

    #[verifier::type_invariant]
    spec fn well_formed(&self) -> bool {
        &&& self.root is Empty || shaped(self.root, 0)
        &&& full(self.root, 0)
        &&& !(self.root is Empty) ==> holds_some(self.root, 0)
        &&& self.filled@.finite()
        &&& forall|c: Coord| #[trigger] self.filled@.contains(c) <==> self.at(c) is Some
        &&& self.occupied == self.filled@.len()
        &&& self.nodes == size(self.root)
        &&& self.nodes <= 1 + 5 * self.occupied
    }
}

impl Default for SparseVoxelOctree {
    fn default() -> (r: Self)
        ensures
            forall|c: Coord| #[trigger] r.at(c) is None,
            r.filled() == Set::<Coord>::empty(),
            r.allocated() == 1,
            r.valid(),
    {
        SparseVoxelOctree { root: Node::Empty, nodes: 1, occupied: 0, filled: Ghost(Set::empty()) }
    }
}

impl SparseVoxelOctree {
    /// Put a voxel at a coordinate, returning what was there. Outside the cube nothing is
    /// stored and `None` comes back. An insertion allocates only the nodes of its branch
    /// path that were not there yet: none where the coordinate already held a voxel, and
    /// never more than five.
    pub fn insert(&mut self, coord: Coord, kind: VoxelKind) -> (r: Option<VoxelKind>)
        ensures
            final(self).valid(),
            !in_cube(coord) ==> r is None && *final(self) == *old(self),
            in_cube(coord) ==> final(self).allocated() == old(self).allocated() + new_path_nodes(old(self).filled(), coord),
            old(self).filled().contains(coord) ==> new_path_nodes(old(self).filled(), coord) == 0,
            in_cube(coord) ==> r == old(self).at(coord) && final(self).filled() == old(self).filled().insert(
                coord,
            ) && forall|c: Coord|
                #[trigger] final(self).at(c) == if c == coord {
                    Some(kind)
                } else {
                    old(self).at(c)
                },
    {
        proof {
            use_type_invariant(&*self);
        }
        if !(0 <= coord.x && coord.x < 32 && 0 <= coord.y && coord.y < 32 && 0 <= coord.z && coord.z < 32) {
            return None;
        }
        let ghost old_self = *self;
        proof {
            lemma_fresh_bounded(self.root, coord, 0);
            if self.filled@.contains(coord) {
                lemma_held_needs_nothing(self.root, coord, 0);
            }
            assert forall|c2: Coord| #[trigger] self.filled@.contains(c2) implies in_cube(c2) by {
                assert(self.at(c2) is Some);
            }
            assert forall|c2: Coord| in_cube(c2) && share_prefix(coord, c2, 0) implies (#[trigger] lookup(self.root, c2, 0) is Some
                <==> self.filled@.contains(c2)) by {
                assert(self.filled@.contains(c2) <==> self.at(c2) is Some);
            }
            lemma_fresh_is_new_path(self.root, self.filled@, coord, 0);
        }
        let mut taken = SparseVoxelOctree::default();
        std::mem::swap(&mut taken, self);
        proof {
            use_type_invariant(&taken);
        }
        let SparseVoxelOctree { root, nodes, occupied, filled } = taken;
        let ghost old_filled = filled@;
        let (new_root, previous, added) = insert_at(root, coord, 0, kind);
        let ghost new_filled = old_filled.insert(coord);
        proof {
            lemma_cube_holds(old_filled);
            assert forall|c: Coord| in_cube(c) implies #[trigger] lookup(new_root, c, 0) == if c == coord {
                Some(kind)
            } else {
                old_self.at(c)
            } by {
                if same_path(coord, c, 0) {
                    lemma_one_path_one_voxel(coord, c);
                }
            }
            assert(same_path(coord, coord, 0));
            if previous is None {
                assert(!old_filled.contains(coord));
            } else {
                assert(old_filled.contains(coord));
                assert(new_filled =~= old_filled);
            }
            lemma_cube_holds(new_filled);
            if previous is Some {
                lemma_held_needs_nothing(root, coord, 0);
            }
            lemma_size_bounded(new_root, 0);
        }
        let occupied = if previous.is_none() { occupied + 1 } else { occupied };
        *self = SparseVoxelOctree {
            root: new_root,
            nodes: nodes + added,
            occupied,
            filled: Ghost(new_filled),
        };
        proof {
            use_type_invariant(&*self);
        }
        previous
    }

    /// What is at a coordinate: nothing outside the cube, and nothing where nothing was put.
    pub fn get(&self, coord: Coord) -> (r: Option<VoxelKind>)
        ensures
            r == self.at(coord),
            r is Some <==> self.filled().contains(coord),
    {
        proof {
            use_type_invariant(self);
        }
        if !(0 <= coord.x && coord.x < 32 && 0 <= coord.y && coord.y < 32 && 0 <= coord.z && coord.z < 32) {
            return None;
        }
        get_at(&self.root, coord, 0)
    }

    /// How many nodes are counted as allocated.
    pub fn node_count(&self) -> (r: usize)
        ensures
            r == self.allocated(),
            1 <= r <= OCTREE_MAX_NODES,
            r <= 1 + 5 * self.filled().len(),
    {
        proof {
            use_type_invariant(self);
            if !(self.root is Empty) {
                lemma_size_bounded(self.root, 0);
            }
            reveal_with_fuel(full_size, 6);
            assert(full_size(0) == 37_449);
        }
        self.nodes
    }

    /// How many coordinates hold a voxel.
    pub fn occupied_count(&self) -> (r: usize)
        ensures
            r == self.filled().len(),
            r <= OCTREE_CAPACITY,
            self.filled().finite(),
    {
        proof {
            use_type_invariant(self);
            lemma_cube_holds(self.filled@);
        }
        self.occupied
    }

    /// How many voxels the octree can hold.
    pub fn capacity(&self) -> (r: usize)
        ensures
            r == OCTREE_CAPACITY,
    {
        OCTREE_CAPACITY
    }

    /// How many nodes a full octree has.
    pub fn max_nodes(&self) -> (r: usize)
        ensures
            r == OCTREE_MAX_NODES,
    {
        OCTREE_MAX_NODES
    }

    /// Whether the octree is still sparse: short of full, in voxels and in nodes.
    pub fn is_sparse(&self) -> (r: bool)
        ensures
            r == (self.filled().len() < OCTREE_CAPACITY && self.allocated() < OCTREE_MAX_NODES),
    {
        self.occupied_count() < self.capacity() && self.nodes < self.max_nodes()
    }

    /// FNV-1a over the octree's nodes in visiting order. No branch path is kept that leads
    /// to nothing, so the nodes are fixed by what the octree holds, and two octrees holding
    /// the same voxels digest alike (see [`law_the_digest_reads_only_the_contents`]).
    pub fn digest(&self) -> (r: u64)
        ensures
            r == fnv(FNV_OFFSET, self.encoded()),
    {
        let mut hash: u64 = FNV_OFFSET;
        visit(&mut hash, &self.root);
        hash
    }
}

/// Two octrees that hold the same voxel at every coordinate are digested as the same
/// bytes, whatever order their voxels were put in and however often they were
/// overwritten: the digest reads what an octree holds, not how it came to hold it.
pub proof fn law_the_digest_reads_only_the_contents(a: SparseVoxelOctree, b: SparseVoxelOctree)
    requires
        a.valid(),
        b.valid(),
        forall|c: Coord| #[trigger] a.at(c) == b.at(c),
    ensures
        a.encoded() == b.encoded(),
{
    if a.root is Empty && !(b.root is Empty) {
        let c = choose|c: Coord| in_cube(c) && (#[trigger] lookup(b.root, c, 0)) is Some;
        assert(a.at(c) == b.at(c));
    } else if !(a.root is Empty) && b.root is Empty {
        let c = choose|c: Coord| in_cube(c) && (#[trigger] lookup(a.root, c, 0)) is Some;
        assert(a.at(c) == b.at(c));
    } else if !(a.root is Empty) && !(b.root is Empty) {
        assert forall|c: Coord| in_cube(c) implies #[trigger] lookup(a.root, c, 0) == lookup(b.root, c, 0) by {
            assert(a.at(c) == b.at(c));
        }
        lemma_same_contents_same_bytes(a.root, b.root, 0);
    }
}

} // verus!

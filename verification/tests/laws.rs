use ala_cities::materials::chain::{plan, producible, Refusal};
use ala_cities::materials::effects::{deferred, unique_families};
use ala_cities::materials::ledger::Ledger;
use ala_cities::materials::schema::{gathers, Unit};
use ala_cities::materials::world::{part, parts_of, Family, Hue, Level};
use ala_cities::materials::{
    is_icon_family, material, material_of, material_of_part, surface_of_token, verify,
};
use ala_cities::octree::{Coord, SparseVoxelOctree, VoxelKind};
use ala_cities::sim::blank_tiles;
use ala_cities::sim::citizen::CitizenState;
use ala_cities::sim::rng::Pcg32;
use ala_cities::sim::road::RoadGraph;
use ala_cities::sim::task::{Task, Verb};
use ala_cities::sim::{
    BuildingKind, Clock, MaterialClaim, MaterialLineage, MaterialShortfall, Migration, Starved,
    Terrain, Tile, Zone,
};

#[test]
fn a_voxel_reads_back_what_was_written_and_nothing_else_moves() {
    let mut octree = SparseVoxelOctree::default();
    assert_eq!(octree.node_count(), 1);
    assert_eq!(octree.occupied_count(), 0);
    assert_eq!(octree.insert(Coord::new(3, 4, 5), VoxelKind::Wood), None);
    assert_eq!(octree.get(Coord::new(3, 4, 5)), Some(VoxelKind::Wood));
    assert_eq!(octree.get(Coord::new(3, 4, 6)), None);
    assert_eq!(octree.insert(Coord::new(3, 4, 5), VoxelKind::Soil), Some(VoxelKind::Wood));
    assert_eq!(octree.get(Coord::new(3, 4, 5)), Some(VoxelKind::Soil));
    assert_eq!(octree.occupied_count(), 1, "a rewrite is not a second voxel");
    assert_eq!(octree.node_count(), 6, "the root and the one five-node path, allocated once");
    assert!(octree.is_sparse());
    assert_eq!(octree.capacity(), 32 * 32 * 32);
    assert_eq!(octree.max_nodes(), 37_449);
}

#[test]
fn a_voxel_written_again_and_again_stays_sparse() {
    let mut octree = SparseVoxelOctree::default();
    for _ in 0..7490 {
        octree.insert(Coord::new(0, 0, 0), VoxelKind::Soil);
    }
    assert_eq!((octree.occupied_count(), octree.node_count()), (1, 6));
    assert!(octree.is_sparse());
    octree.insert(Coord::new(0, 0, 1), VoxelKind::Wood);
    assert_eq!(octree.node_count(), 7, "a neighbour shares all but its own leaf");
    octree.insert(Coord::new(31, 31, 31), VoxelKind::Wood);
    assert_eq!(octree.node_count(), 12, "the far corner shares only the root");
}

#[test]
fn a_coordinate_outside_the_cube_is_never_stored() {
    let mut octree = SparseVoxelOctree::default();
    assert_eq!(octree.insert(Coord::new(32, 0, 0), VoxelKind::Soil), None);
    assert_eq!(octree.insert(Coord::new(0, -1, 0), VoxelKind::Soil), None);
    assert_eq!(octree.get(Coord::new(32, 0, 0)), None);
    assert_eq!(octree.occupied_count(), 0);
    assert_eq!(octree.node_count(), 1);
}

#[test]
fn the_same_contents_written_the_same_way_digest_the_same() {
    let build = |kind: VoxelKind| {
        let mut octree = SparseVoxelOctree::default();
        octree.insert(Coord::new(0, 0, 0), VoxelKind::Soil);
        octree.insert(Coord::new(31, 31, 31), kind);
        octree.digest()
    };
    assert_eq!(build(VoxelKind::Forage), build(VoxelKind::Forage));
    assert_ne!(build(VoxelKind::Forage), build(VoxelKind::Wood));
    assert_eq!(SparseVoxelOctree::default().digest(), (0xcbf2_9ce4_8422_2325u64 ^ 0).wrapping_mul(0x1000_0000_01b3));
}

fn with_road(width: u32, height: u32, road: &[(u32, u32)]) -> RoadGraph {
    let mut tiles = blank_tiles(width, height);
    for &(x, y) in road {
        tiles[(y * width + x) as usize].road = true;
    }
    RoadGraph::rebuild(width, height, &tiles)
}

#[test]
fn a_route_is_a_walk_along_neighbouring_road_tiles() {
    let graph = with_road(6, 6, &[(0, 0), (1, 0), (1, 1), (1, 2), (2, 2), (3, 2)]);
    let tiles = graph.route_between_tiles(6, 6, 0, 2 * 6 + 3, 1).expect("connected");
    assert_eq!(tiles.first(), Some(&0));
    assert_eq!(tiles.last(), Some(&(2 * 6 + 3)));
    for pair in tiles.windows(2) {
        let (a, b) = (pair[0], pair[1]);
        let (ax, ay, bx, by) = (a % 6, a / 6, b % 6, b / 6);
        assert_eq!(ax.abs_diff(bx) + ay.abs_diff(by), 1, "{a} → {b} is not one orthogonal step");
    }
}

#[test]
fn an_end_that_is_not_a_node_has_no_route() {
    let graph = with_road(4, 1, &[(0, 0), (1, 0)]);
    assert_eq!(graph.astar(0, 7), None);
    assert_eq!(graph.astar(9, 0), None);
    assert_eq!(graph.astar(1, 1), Some(vec![1]));
    assert_eq!(graph.neighbours(0), &[1]);
    assert_eq!(graph.neighbours(42), &[] as &[u32]);
    assert_eq!(graph.node_of_tile(1), Some(1));
    assert_eq!(graph.node_of_tile(2), None);
    assert!(!graph.is_empty());
    assert!(RoadGraph::default().is_empty());
}

#[test]
fn the_nearest_road_is_found_ring_by_ring_and_row_by_row() {
    // Nodes are numbered in row order, so (5, 3) is node 0 and (4, 4) is node 1.
    let graph = with_road(10, 10, &[(4, 4), (5, 3)]);
    assert_eq!(graph.nearest_node_within(10, 10, 5 * 10 + 5, 3), Some(1), "(4,4) is ring one");
    let graph = with_road(10, 10, &[(3, 3), (5, 3)]);
    assert_eq!(graph.nearest_node_within(10, 10, 5 * 10 + 5, 3), Some(1), "(5,3) is nearer than (3,3)");
    let graph = with_road(10, 10, &[(4, 7), (6, 3)]);
    assert_eq!(
        graph.nearest_node_within(10, 10, 5 * 10 + 5, 3),
        Some(0),
        "equally near: the earlier row wins"
    );
}

#[test]
fn the_same_seed_starts_the_same_stream_and_below_zero_draws_nothing() {
    let mut a = Pcg32::new(42);
    let mut b = Pcg32::new(42);
    assert_eq!(a.below(0), 0);
    assert_eq!(a.next_u32(), b.next_u32(), "a refused draw does not advance the stream");
    for n in [1u32, 2, 7, 1000] {
        assert!(a.below(n) < n);
    }
}

#[test]
fn every_open_item_and_the_header_are_printed() {
    let report = verify();
    assert!(report.ok());
    assert!(report.lines.iter().any(|line| line == "materials: 7 icon families (+3 world-only), 8 anchors, 3 levels, 240 entries"));
    assert!(report.lines.iter().any(|line| line == "schema: 16 substances, 7 processes, 2 tiers"));
    assert!(report.lines.iter().any(|line| line.starts_with("materials: zone.paint is a rule, not a row — ")));
    assert!(report.lines.iter().any(|line| line.starts_with("materials: deferred — conduction: ")));
    assert!(report.lines.iter().all(|line| !line.starts_with("DEFECT: ")));
}

#[test]
fn the_world_gives_up_only_what_the_gathers_declare() {
    assert_eq!(
        gathers(),
        vec![
            ("gather timber", "timber", 3000),
            ("gather stone", "stone", 1000),
            ("gather plant fibre", "plant_fibre", 100),
        ]
    );
}

#[test]
fn producers_are_listed_by_name_once_each() {
    let listed = producible();
    for pair in listed.windows(2) {
        assert!(pair[0].0 < pair[1].0, "{:?} before {:?}", pair[0], pair[1]);
    }
    assert!(listed.iter().any(|(name, process)| *name == "hatchet" && *process == "assemble the hatchet"));
}

#[test]
fn a_zero_request_is_an_empty_plan_and_an_undeclared_one_is_refused() {
    let nothing = plan("hatchet", 0).expect("nothing wanted, nothing to do");
    assert!(nothing.leaves.is_empty() && nothing.steps.is_empty());
    assert_eq!(plan("unobtainium", 5), Err(Refusal::Undeclared("unobtainium".to_string())));
}

#[test]
fn a_recorded_movement_reads_back_and_the_listing_is_sorted() {
    let mut ledger = Ledger::new();
    ledger.record("b", 7);
    ledger.record("a", -3);
    ledger.record("b", 2);
    assert_eq!(ledger.of("b"), 9);
    assert_eq!(ledger.of("a"), -3);
    assert_eq!(ledger.of("c"), 0);
    assert_eq!(ledger.total_g(), 6);
    assert_eq!(ledger.entries(), vec![("a", -3), ("b", 9)]);
}

#[test]
fn the_vocabularies_quote_themselves() {
    for unit in Unit::ALL.iter() {
        assert_eq!(Unit::named(unit.name()), Some(*unit));
    }
    assert!(Verb::Build.builds());
    assert_eq!(Verb::Build.name(), "build");
    assert_eq!(CitizenState::ToWork.name(), "commuting to work");
    assert!(CitizenState::ToHome.is_commuting());
    assert!(!CitizenState::AtWork.is_commuting());
    assert_eq!(Zone::Unzoned.name(), "unzoned");
    assert_eq!(Hue::Amber.as_str(), "amber");
    assert_eq!(Level::Deep.as_str(), "deep");
    assert!(Family::Enamel.is_icon());
    assert!(!Family::Soil.is_icon());
}

#[test]
fn the_world_mapping_resolves_by_name() {
    let home = parts_of("home");
    assert_eq!(home.iter().map(|p| p.part).collect::<Vec<_>>(), vec!["home.walls", "home.roof", "home.window"]);
    assert!(part("home.door").is_none());
    assert_eq!(material_of_part("home.roof").map(|m| m.name), Some("polymer:amber:edge"));
    assert_eq!(material_of("metal", "red", "body").map(|m| m.name), Some("metal:red"));
    assert_eq!(material("metal:chartreuse").map(|m| m.name), None);
    assert_eq!(surface_of_token("Ground"), Some("terrain.ground"));
    assert_eq!(surface_of_token("Sky"), None);
    assert!(is_icon_family("glass"));
    assert!(!is_icon_family("water"));
    assert_eq!(unique_families("power"), vec![Family::Metal, Family::Ceramic, Family::Enamel]);
    assert_eq!(deferred().len(), 2);
}

#[test]
fn a_kind_claims_its_body_part() {
    let claim = MaterialClaim::of_kind(BuildingKind::Home).expect("declared");
    assert_eq!(claim.describe(), "ceramic/natural/body on home.walls");
    let plant = MaterialClaim::of_kind(BuildingKind::PowerPlant).expect("declared");
    assert_eq!(plant.part, "power.frame");
    assert_eq!(BuildingKind::PowerPlant.name(), "power plant");
    assert_eq!(BuildingKind::PowerPlant.part_prefix(), "power");
    assert_eq!(BuildingKind::Factory.zone(), Zone::Industrial);
    assert_eq!(BuildingKind::Shop.build_cost(), 240);
    assert_eq!(BuildingKind::Home.capacity(), 8);
}

#[test]
fn a_migration_report_tallies_each_claim_once() {
    let none = Migration { from: 1, to: 2, derived: Vec::new() };
    assert_eq!(
        none.describe(),
        "save format v1 → v2: no structures needed a material derived; the tables and the road graph were already there"
    );
    let some = Migration {
        from: 1,
        to: 2,
        derived: vec![(1, "ceramic".to_string()), (2, "metal".to_string()), (3, "ceramic".to_string())],
    };
    let text = some.describe();
    assert!(text.starts_with("save format v1 → v2: derived the as-built material of 3 structure(s)"), "{text}");
    assert!(text.contains("— 2 × ceramic, 1 × metal."), "{text}");
}

#[test]
fn a_shortfall_says_what_it_wanted_and_what_it_found() {
    let short = MaterialShortfall { site: 12, family: "ceramic".to_string(), wanted_g: 900, found_g: 400 };
    assert_eq!(short.missing_g(), 500);
    assert_eq!(
        short.describe(),
        "a structure at tile 12 needs 900 g of ceramic and the world holds 400 g within reach: 500 g short"
    );
    let starved = Starved { district: 3, family: "metal".to_string(), wanted_g: 10, found_g: 30, count: 2 };
    assert_eq!(starved.missing_g(), 0, "more found than wanted is not negative");
    assert_eq!(starved.case_key(), "materials:3:metal");
    assert_eq!(
        starved.objective(),
        "2 build site(s) in district 3 want 10 g of metal and the world holds 30 g: 0 g short"
    );
}

#[test]
fn the_clock_reads_days_months_and_years() {
    let start = Clock::default();
    assert_eq!((start.day(), start.month(), start.year()), (0, 1, 1));
    assert_eq!(start.label(), "Y1 M01 D00");
    assert!(!start.closes_month());
    let month_end = Clock { tick: 40 * 30 };
    assert!(month_end.closes_month());
    assert_eq!(month_end.month(), 2);
    let later = Clock { tick: 40 * 30 * 12 + 40 * 5 };
    assert_eq!((later.day(), later.month(), later.year()), (365, 1, 2));
    assert_eq!(later.label(), "Y2 M01 D365");
}

#[test]
fn a_task_reads_as_a_sentence_and_sums_its_lineage() {
    let task = Task {
        id: 1,
        verb: Verb::Build,
        kind: BuildingKind::Home,
        site: 9,
        family: "ceramic".to_string(),
        requires_g: 300,
        material: vec![
            MaterialLineage { tile: 4, substance: "clay".to_string(), grams: 100 },
            MaterialLineage { tile: 5, substance: "stone".to_string(), grams: 200 },
        ],
        work_remaining: 0,
        claimed_by: Some(7),
        opened_tick: 0,
    };
    assert_eq!(task.lineage_total(), 300);
    assert!(task.is_done());
    assert!(task.is_claimed());
    assert_eq!(
        task.describe(),
        "build home at tile 9 (300 g of ceramic, 0 work left, claimed by citizen 7)"
    );
}

#[test]
fn a_tile_presents_as_what_is_on_it() {
    let bare = Tile::default();
    assert_eq!(bare.surface_family(), "soil");
    let paved = Tile { road: true, ..Tile::default() };
    assert_eq!(paved.surface_family(), "road");
    let lake = Tile { terrain: Terrain::Water, ..Tile::default() };
    assert_eq!(lake.surface_family(), "water");
    assert_eq!(blank_tiles(3, 2).len(), 6);
}

#[test]
fn the_digest_reads_what_is_held_not_how_it_came_to_be() {
    let a = Coord::new(1, 2, 3);
    let b = Coord::new(9, 0, 31);
    let c = Coord::new(31, 31, 31);
    let mut first = SparseVoxelOctree::default();
    first.insert(a, VoxelKind::Soil);
    first.insert(b, VoxelKind::Forage);
    first.insert(c, VoxelKind::Soil);
    first.insert(b, VoxelKind::Wood);
    let mut second = SparseVoxelOctree::default();
    second.insert(c, VoxelKind::Soil);
    second.insert(b, VoxelKind::Wood);
    second.insert(a, VoxelKind::Forage);
    second.insert(a, VoxelKind::Soil);
    assert_eq!(first.digest(), second.digest());
    let mut third = SparseVoxelOctree::default();
    third.insert(c, VoxelKind::Soil);
    third.insert(b, VoxelKind::Wood);
    assert_ne!(first.digest(), third.digest(), "a voxel fewer is another digest");
}

#[test]
fn a_ledger_balances_at_zero_whatever_moves_through_it() {
    let mut ledger = Ledger::new();
    assert_eq!(ledger.convert("ground:stone", 5000, "stock:stone", 5000), None);
    assert_eq!(ledger.convert("stock:stone", 1000, "stock:knapped_edge", 800), Some(
        "`stock:stone` → `stock:knapped_edge` does not conserve: 1000 g in, 800 g out, a difference of 200 g".to_string()
    ));
    assert_eq!(ledger.convert("stock:stone", 800, "stock:knapped_edge", 800), None);
    assert_eq!(ledger.convert("stock:knapped_edge", 800, "stock:knapped_edge", 800), None);
    assert_eq!(ledger.convert("ground:timber", -300, "stock:timber", -300), None);
    assert!(ledger.balances());
    assert_eq!(ledger.total_g(), 0);
    assert!(ledger.findings().is_empty());
    assert_eq!(ledger.of("ground:stone"), -5000);
    assert_eq!(ledger.of("stock:stone"), 4200);
    assert_eq!(ledger.of("stock:timber"), -300);
}

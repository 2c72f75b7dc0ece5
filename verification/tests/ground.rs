use ala_cities::materials::geology::{deposit, kind_family, kind_substance};
use ala_cities::materials::ledger::structure_mass_g;
use ala_cities::sim::ground::Ground;
use ala_cities::sim::road::RoadGraph;
use ala_cities::sim::{
    blank_tiles, Building, BuildingKind, MaterialClaim, MaterialLineage, RetirementReason, Terrain, Zone,
};

/// A map of ground everywhere, with a road down its left edge.
fn ground_with_edge_road(size: u32, seed: u64) -> Ground {
    let mut tiles = blank_tiles(size, size);
    for y in 0..size {
        tiles[(y * size) as usize].road = true;
    }
    Ground { width: size, height: size, seed, tiles }
}

/// A 32×32 map: one geology cell across, so it holds one substance everywhere.
fn small_ground() -> Ground {
    ground_with_edge_road(32, 7)
}

/// A map the size a city actually is.
fn worked_ground() -> Ground {
    ground_with_edge_road(256, 7)
}

/// Total mass of a family's deposits, in grams, and how many tiles hold it.
fn family_totals(ground: &Ground, family: &str) -> (u32, i64) {
    let mut tiles = 0;
    let mut mass = 0;
    for index in 0..ground.tiles.len() as u32 {
        if let Some(found) = ground.deposit_at(index) {
            if kind_family(found.kind) == family {
                tiles += 1;
                mass += found.mass_g;
            }
        }
    }
    (tiles, mass)
}

fn home_mass() -> i64 {
    structure_mass_g("home", 1).expect("declared")
}

#[test]
fn a_road_leg_lays_the_tiles_between_its_ends() {
    let mut ground = small_ground();
    let from = ground.index(4, 4);
    let to = ground.index(8, 4);
    let laid = ground.lay_road(from, to);
    assert_eq!(laid.len(), 5, "expected five tiles from x=4 to x=8");
    for x in 4..=8u32 {
        assert!(ground.tiles[ground.index(x, 4) as usize].road);
    }
    let roads = RoadGraph::rebuild(ground.width, ground.height, &ground.tiles);
    assert!(roads.len() >= 5);
}

#[test]
fn zoning_is_refused_on_roads_and_buildings() {
    let mut ground = small_ground();
    let road_tile = ground.index(0, 5);
    assert!(!ground.set_zone(road_tile, Zone::Residential));
    let free = ground.index(4, 20);
    assert!(ground.set_zone(free, Zone::Residential));
    assert_eq!(ground.tiles[free as usize].zone, Zone::Residential);
}

#[test]
fn a_tile_gives_up_only_what_it_holds_and_then_is_spent() {
    let mut ground = Ground {
        width: 256,
        height: 256,
        seed: 0xC117_2026,
        tiles: blank_tiles(256, 256),
    };
    let (tile, declared) = (0..256u32 * 256)
        .find_map(|tile| ground.deposit_at(tile).map(|found| (tile, found.mass_g)))
        .expect("this seed's map holds at least one deposit");

    // Nothing taken yet, so the reading is the derivation itself.
    let (x, y) = ground.coords(tile);
    assert_eq!(
        declared,
        deposit(ground.seed, x, y).unwrap().mass_g,
        "an untouched tile reads exactly what the seed derives"
    );

    // Asking for more than is there takes only what is there.
    let over = declared + 1_000_000;
    assert_eq!(ground.extract(tile, over), declared, "the request is not the take");
    assert!(ground.deposit_at(tile).is_none(), "a worked-out tile holds nothing");
    assert_eq!(ground.extract(tile, 1000), 0, "a spent tile gives nothing more");
    assert_eq!(ground.tiles[tile as usize].extracted_g, declared);

    // A part-worked tile reports the remainder, which is what a mine's rate limit reads.
    let other = (0..256u32 * 256)
        .find(|t| *t != tile && ground.deposit_at(*t).is_some())
        .expect("a second deposit exists");
    let full = ground.deposit_at(other).expect("found").mass_g;
    assert_eq!(ground.extract(other, full / 3), full / 3);
    assert_eq!(ground.deposit_at(other).expect("remains").mass_g, full - full / 3);
}

#[test]
fn a_game_sized_world_can_supply_every_family_its_structures_claim() {
    let ground = worked_ground();
    for kind in [BuildingKind::Home, BuildingKind::Shop, BuildingKind::Factory, BuildingKind::PowerPlant] {
        let claim = MaterialClaim::of_kind(kind).expect("declared claim");
        let (tiles, mass) = family_totals(&ground, &claim.family);
        let needs = structure_mass_g(kind.name(), 1).expect("declared");
        assert!(
            tiles > 0 && mass >= needs,
            "{} needs {} g of {} and the world holds {} g across {} tiles",
            kind.name(),
            needs,
            claim.family,
            mass,
            tiles
        );
    }
}

#[test]
fn a_structure_only_draws_from_its_own_family() {
    let ground = worked_ground();
    let site = ground.index(4, 4);
    let claim = MaterialClaim::of_kind(BuildingKind::Home).expect("declared claim");
    let plan = ground
        .plan_material(site, &claim.family, home_mass())
        .expect("a 256×256 world should cover a home");
    for line in &plan {
        let found = ground.deposit_at(line.tile).expect("a planned tile holds something");
        assert_eq!(
            kind_family(found.kind),
            claim.family,
            "tile {} is {}, not {}",
            line.tile,
            kind_substance(found.kind),
            claim.family
        );
        assert_eq!(line.substance, kind_substance(found.kind), "and the line names what is there");
    }
}

#[test]
fn a_shortfall_refuses_without_mining_anything() {
    let ground = worked_ground();
    let before: i64 = ground.tiles.iter().map(|tile| tile.extracted_g).sum();
    let site = ground.index(4, 4);
    let shortfall = ground
        .plan_material(site, "ceramic", i64::MAX / 2)
        .expect_err("no world holds that much clay");
    assert!(shortfall.found_g > 0, "it says what it did find: {}", shortfall.found_g);
    assert!(shortfall.missing_g() > 0);
    assert!(shortfall.describe().contains("short"), "{}", shortfall.describe());

    let after: i64 = ground.tiles.iter().map(|tile| tile.extracted_g).sum();
    assert_eq!(after, before, "planning is a read; a refusal must not leave holes");
}

#[test]
fn the_same_world_plans_the_same_tiles() {
    let plan = |ground: &Ground| {
        ground
            .plan_material(4 * 256 + 4, "ceramic", home_mass())
            .expect("coverable")
            .iter()
            .map(|line| (line.tile, line.grams))
            .collect::<Vec<_>>()
    };
    assert_eq!(plan(&worked_ground()), plan(&worked_ground()));
}

#[test]
fn a_world_of_iron_plans_no_ceramic() {
    let ground = small_ground();
    let (ceramic_tiles, _) = family_totals(&ground, "ceramic");
    assert_eq!(ceramic_tiles, 0, "this world is the fixture because it has no ceramic");
    let (metal_tiles, metal_mass) = family_totals(&ground, "metal");
    assert!(metal_tiles > 0 && metal_mass > 0);

    let site = ground.index(4, 4);
    let shortfall = ground
        .plan_material(site, "ceramic", home_mass())
        .expect_err("a home is ceramic and there is no ceramic");
    assert_eq!(shortfall.found_g, 0);
    assert_eq!(shortfall.site, site);
    assert_eq!(shortfall.family, "ceramic");
    assert_eq!(shortfall.wanted_g, home_mass());
    assert_eq!(ground.tiles.iter().map(|tile| tile.extracted_g).sum::<i64>(), 0);
}

#[test]
fn a_plan_draws_exactly_what_it_promised() {
    let mut ground = worked_ground();
    let site = ground.index(4, 4);
    let need = home_mass() * 40;
    let plan = ground.plan_material(site, "ceramic", need).expect("coverable");
    assert!(plan.len() > 1, "a large need spans several tiles");
    assert_eq!(plan.iter().map(|line| line.grams).sum::<i64>(), need, "the plan covers the need");
    // Each tile appears once, and all but the last give everything they hold.
    for (i, line) in plan.iter().enumerate() {
        assert!(plan[..i].iter().all(|earlier| earlier.tile != line.tile));
        let held = ground.deposit_at(line.tile).expect("holds something").mass_g;
        if i + 1 < plan.len() {
            assert_eq!(line.grams, held);
        } else {
            assert!(line.grams <= held);
        }
    }
    let drawn = ground.draw_material(&plan);
    assert_eq!(drawn, plan, "what is drawn is what was planned, line for line");
    let taken: i64 = ground.tiles.iter().map(|tile| tile.extracted_g).sum();
    assert_eq!(taken, need, "the ground went down by exactly the plan");
}

#[test]
fn a_plan_searches_nearest_first() {
    let ground = worked_ground();
    let site = ground.index(100, 100);
    let plan = ground.plan_material(site, "ceramic", home_mass() * 40).expect("coverable");
    let d2 = |tile: u32| {
        let (x, y) = ground.coords(tile);
        let (dx, dy) = (x as i64 - 100, y as i64 - 100);
        dx * dx + dy * dy
    };
    for pair in plan.windows(2) {
        let (a, b) = (&pair[0], &pair[1]);
        assert!(d2(a.tile) < d2(b.tile) || (d2(a.tile) == d2(b.tile) && a.tile < b.tile));
    }
    // No ceramic tile nearer than the first planned one was passed over.
    let first = d2(plan[0].tile);
    for tile in 0..ground.tiles.len() as u32 {
        if let Some(found) = ground.deposit_at(tile) {
            if kind_family(found.kind) == "ceramic" {
                assert!(d2(tile) > first || (d2(tile) == first && tile >= plan[0].tile));
            }
        }
    }
}

#[test]
fn nothing_wanted_is_an_empty_plan() {
    let ground = small_ground();
    let plan: Vec<MaterialLineage> = ground.plan_material(5, "ceramic", 0).expect("nothing is owed");
    assert!(plan.is_empty());
    assert!(ground.plan_material(5, "metal", -10).expect("nothing is owed").is_empty());
}

#[test]
fn a_leg_runs_along_the_row_then_down_the_column() {
    let ground = small_ground();
    let from = ground.index(5, 2);
    let to = ground.index(3, 4);
    let tiles = ground.leg_tiles(from, to);
    let expected: Vec<u32> = [(5, 2), (4, 2), (3, 2), (3, 3), (3, 4)]
        .iter()
        .map(|&(x, y)| ground.index(x, y))
        .collect();
    assert_eq!(tiles, expected);
    assert_eq!(ground.leg_tiles(from, from), vec![from], "a leg to itself is one tile");
}

#[test]
fn road_is_not_laid_on_water_or_twice() {
    let mut ground = small_ground();
    let wet = ground.index(6, 4);
    ground.tiles[wet as usize].terrain = Terrain::Water;
    let from = ground.index(0, 4);
    let to = ground.index(8, 4);
    let laid = ground.lay_road(from, to);
    // x = 0 was already road, x = 6 is water.
    let expected: Vec<u32> = [1, 2, 3, 4, 5, 7, 8].iter().map(|&x| ground.index(x, 4)).collect();
    assert_eq!(laid, expected);
    assert!(!ground.tiles[wet as usize].road, "water stays water");
    assert!(ground.lay_road(from, to).is_empty(), "a second pass lays nothing");
}

#[test]
fn a_zone_is_set_once_and_not_on_water() {
    let mut ground = small_ground();
    let free = ground.index(10, 10);
    assert!(ground.set_zone(free, Zone::Commercial));
    assert!(!ground.set_zone(free, Zone::Commercial), "the same zone again changes nothing");
    assert!(ground.set_zone(free, Zone::Industrial));
    let wet = ground.index(11, 10);
    ground.tiles[wet as usize].terrain = Terrain::Water;
    assert!(!ground.set_zone(wet, Zone::Residential));
    let built = ground.index(12, 10);
    ground.tiles[built as usize].building = Some(0);
    assert!(!ground.set_zone(built, Zone::Residential));
}

#[test]
fn a_take_of_nothing_or_less_takes_nothing() {
    let mut ground = small_ground();
    let tile = (0..1024u32).find(|t| ground.deposit_at(*t).is_some()).expect("ore somewhere");
    let held = ground.deposit_at(tile).unwrap().mass_g;
    assert_eq!(ground.extract(tile, 0), 0);
    assert_eq!(ground.extract(tile, -50), 0);
    assert_eq!(ground.deposit_at(tile).unwrap().mass_g, held);
    assert_eq!(ground.tiles[tile as usize].extracted_g, 0);
}

/// A home standing on `tile`, claiming its kind's declared material.
fn home_on(tile: u32, id: u32) -> Building {
    Building {
        id,
        kind: BuildingKind::Home,
        tile,
        level: 1,
        built_tick: 0,
        ready_tick: 40,
        retired: None,
        retired_tick: None,
        powered: false,
        occupants: 0,
        material_as_built: MaterialClaim::of_kind(BuildingKind::Home),
        material_from: Vec::new(),
        repair_filed: false,
    }
}

fn bare_ground() -> Ground {
    Ground { width: 32, height: 32, seed: 7, tiles: blank_tiles(32, 32) }
}

#[test]
fn a_dug_ground_balances_to_the_gram() {
    let mut ground = bare_ground();
    let rich = (0..1024u32)
        .find(|tile| ground.deposit_at(*tile).is_some())
        .expect("a 32×32 world has ore in it somewhere");
    let available = ground.deposit_at(rich).expect("just found it").mass_g;
    assert_eq!(ground.extract(rich, available), available, "the take is what was there");

    let audit = ground.mass_audit(&[]);
    let debited: i64 = audit
        .holdings()
        .iter()
        .filter(|(account, _)| account.starts_with("ground:"))
        .map(|(_, grams)| *grams)
        .sum();
    assert_eq!(debited, -available, "the ground goes down by exactly the take");
    assert_eq!(audit.extracted_g, available);
    assert_eq!(audit.standing_g, 0, "nothing has been built yet");
    assert!(audit.conserves(), "material taken and not yet built is loose, not invented");
    assert_eq!(audit.loose_g(), available, "all of it is loose so far");

    let home = structure_mass_g("home", 1).expect("declared");
    let audit = ground.mass_audit(&[home_on(rich, 1)]);
    assert_eq!(audit.of("structure:ceramic"), home, "a declared mass, read off the kind");
    assert_eq!(audit.extracted_g, available, "building does not change what was dug");
    assert_eq!(audit.standing_g, home);
    assert_eq!(audit.loose_g(), available - home, "the remainder is real material, still in the world");
    assert!(audit.defects.is_empty());
}

#[test]
fn a_structure_nobody_dug_for_is_an_imbalance_of_its_own_mass() {
    let ground = bare_ground();
    let home = structure_mass_g("home", 1).expect("declared");
    let audit = ground.mass_audit(&[home_on(40, 1)]);
    assert!(!audit.conserves(), "a house out of nothing is not conservation");
    assert_eq!(audit.loose_g(), -home, "the defect is exactly the house, as a quantity");
    let findings = audit.findings();
    assert_eq!(findings.len(), 1, "one finding: {findings:?}");
    assert!(findings[0].contains(&home.to_string()), "the amount is named: {findings:?}");
}

#[test]
fn a_retired_structure_is_weighed_as_a_ruin() {
    let ground = bare_ground();
    let mut shop = home_on(40, 3);
    shop.kind = BuildingKind::Shop;
    shop.material_as_built = MaterialClaim::of_kind(BuildingKind::Shop);
    shop.retired = Some(RetirementReason::Superseded);
    let mass = structure_mass_g("shop", 1).expect("declared");
    let family = shop.material_family().expect("claimed").to_string();
    let audit = ground.mass_audit(&[shop.clone()]);
    assert_eq!(audit.of(&format!("structure:{family}")), 0, "it is no longer standing");
    assert_eq!(audit.of(&format!("ruin:{family}")), mass, "the material is still in the world");
    assert_eq!(audit.standing_g, mass);
    assert_eq!(shop.mass_account(&family), format!("ruin:{family}"));
}

#[test]
fn a_structure_without_a_claim_falls_back_to_its_body_part() {
    let mut home = home_on(5, 1);
    let claimed = home.material_family().expect("claimed").to_string();
    home.material_as_built = None;
    assert_eq!(home.material_family(), Some(claimed.as_str()), "the kind's body part names the same family");
    assert_eq!(claimed, "ceramic");
}

#[test]
fn a_structure_reads_its_mass_capacity_and_readiness() {
    let mut home = home_on(5, 1);
    assert_eq!(home.mass_g(), structure_mass_g("home", 1));
    assert_eq!(home.capacity(), 8);
    home.level = 3;
    assert_eq!(home.capacity(), 24, "each level above the first holds as many again");
    assert_eq!(home.mass_g(), Some(structure_mass_g("home", 1).unwrap() * 3));
    home.level = 0;
    assert_eq!(home.capacity(), 8, "level 0 holds what level 1 does");
    assert!(!home.is_ready(39));
    assert!(home.is_ready(40));
    home.retired = Some(RetirementReason::Superseded);
    assert!(!home.is_ready(400), "a ruin is never ready");
    assert_eq!(home.mass_account("ceramic"), "ruin:ceramic");
}

#[test]
fn a_lineage_adds_up_its_lines() {
    let mut home = home_on(5, 1);
    assert_eq!(home.lineage_g(), 0, "no claim made is zero, not a weight");
    home.material_from = vec![
        MaterialLineage { tile: 3, substance: "clay".to_string(), grams: 1_000 },
        MaterialLineage { tile: 9, substance: "stone".to_string(), grams: 2_500 },
    ];
    assert_eq!(home.lineage_g(), 3_500);
}

fn plant_on(tile: u32, id: u32) -> Building {
    let mut plant = home_on(tile, id);
    plant.kind = BuildingKind::PowerPlant;
    plant.material_as_built = MaterialClaim::of_kind(BuildingKind::PowerPlant);
    plant.ready_tick = 0;
    plant
}

#[test]
fn power_follows_the_road_network() {
    let mut ground = small_ground();
    let roads = RoadGraph::rebuild(ground.width, ground.height, &ground.tiles);
    // A plant near the seed road, and a tile far from it.
    let plant_tile = ground.index(1, 3);
    let mut buildings = vec![plant_on(plant_tile, 1)];
    let near = ground.index(0, 3);
    let far = ground.index(30, 30);
    let brownout = ground.recompute_power(&mut buildings, &roads);
    assert!(!brownout);
    assert!(ground.tiles[near as usize].powered, "tile beside the plant's road should be lit");
    assert!(!ground.tiles[far as usize].powered, "a tile with no road within the radius must stay dark");
    assert!(buildings[0].powered, "the plant's own tile is beside its road");
}

#[test]
fn power_reaches_as_far_as_its_radius_along_the_road() {
    let mut ground = small_ground();
    let roads = RoadGraph::rebuild(ground.width, ground.height, &ground.tiles);
    let mut buildings = vec![plant_on(ground.index(1, 3), 1)];
    ground.recompute_power(&mut buildings, &roads);
    // The road is the left edge; the plant's nearest road tile is (0, 3), and the radius is
    // fourteen road steps, so (0, 17) is lit and (0, 18) is the last row touched by it.
    assert!(ground.tiles[ground.index(1, 17) as usize].powered);
    assert!(ground.tiles[ground.index(1, 18) as usize].powered, "beside the last lit road tile");
    assert!(!ground.tiles[ground.index(1, 19) as usize].powered, "beyond the radius is dark");
    assert!(!ground.tiles[ground.index(2, 5) as usize].powered, "two tiles off the road is dark");
}

#[test]
fn a_city_beyond_its_plants_is_in_brownout() {
    let mut ground = small_ground();
    let roads = RoadGraph::rebuild(ground.width, ground.height, &ground.tiles);
    let mut buildings = vec![plant_on(ground.index(1, 3), 1)];
    for id in 0..61u32 {
        buildings.push(home_on(ground.index(2 + id % 20, 5 + id / 20), 2 + id));
    }
    assert!(ground.recompute_power(&mut buildings, &roads), "61 consumers on one plant of 60");
    assert!(ground.tiles.iter().all(|tile| !tile.powered));
    assert!(buildings.iter().all(|b| !b.powered));
    buildings.pop();
    assert!(!ground.recompute_power(&mut buildings, &roads), "60 is exactly what one plant carries");
    assert!(buildings[0].powered);
}

#[test]
fn a_ruined_plant_powers_nothing() {
    let mut ground = small_ground();
    let roads = RoadGraph::rebuild(ground.width, ground.height, &ground.tiles);
    let mut plant = plant_on(ground.index(1, 3), 1);
    plant.retired = Some(RetirementReason::Superseded);
    let mut buildings = vec![plant];
    assert!(!ground.recompute_power(&mut buildings, &roads), "no consumers, no brownout");
    assert!(ground.tiles.iter().all(|tile| !tile.powered));
}

#[test]
fn road_access_reaches_two_tiles_from_a_road() {
    let mut ground = small_ground();
    let wet = ground.index(1, 9);
    ground.tiles[wet as usize].terrain = Terrain::Water;
    let roads = RoadGraph::rebuild(ground.width, ground.height, &ground.tiles);
    let access = ground.road_access(&roads);
    assert_eq!(access.len(), ground.tiles.len());
    assert!(access[ground.index(0, 4) as usize], "a road has access");
    assert!(access[ground.index(2, 4) as usize], "two tiles off a road has access");
    assert!(!access[ground.index(3, 4) as usize], "three tiles off has none");
    assert!(!access[wet as usize], "water has none");
}

#[test]
fn power_on_a_grid_of_roads_reaches_every_road_within_its_radius() {
    // A 21×21 square of road in the corner of the map, and a plant just right of its top
    // right corner: every road within fourteen steps of (20, 0) is lit, however many longer
    // ways round also lead to it.
    let mut tiles = blank_tiles(32, 32);
    for y in 0..21u32 {
        for x in 0..21u32 {
            tiles[(y * 32 + x) as usize].road = true;
        }
    }
    let mut ground = Ground { width: 32, height: 32, seed: 7, tiles };
    let roads = RoadGraph::rebuild(ground.width, ground.height, &ground.tiles);
    let mut buildings = vec![plant_on(ground.index(21, 0), 1)];
    assert!(!ground.recompute_power(&mut buildings, &roads));
    let powered = |x: u32, y: u32| ground.tiles[ground.index(x, y) as usize].powered;
    assert!(powered(6, 0), "fourteen steps along the top row");
    assert!(powered(5, 0), "beside the last lit road");
    assert!(!powered(4, 0));
    assert!(powered(13, 7), "seven across and seven down");
    assert!(powered(13, 8));
    assert!(!powered(12, 9));
    assert!(powered(20, 15));
    assert!(!powered(20, 16));
    assert!(powered(21, 10), "off the road but beside a lit one");
}

use ala_cities::materials::geology::kind_family;
use ala_cities::materials::ledger::structure_mass_g;
use ala_cities::sim::citizen::{Citizen, CitizenState};
use ala_cities::sim::city::City;
use ala_cities::sim::ground::Ground;
use ala_cities::sim::growth::Allowance;
use ala_cities::sim::road::RoadGraph;
use ala_cities::sim::task::Verb;
use ala_cities::sim::{
    blank_tiles, record_starved, BuildingKind, Clock, MaterialClaim, RetirementReason, Stats, Zone,
};

/// A city on a map of ground everywhere, with a road down its left edge.
fn city_of(size: u32, seed: u64) -> City {
    let mut tiles = blank_tiles(size, size);
    for y in 0..size {
        tiles[(y * size) as usize].road = true;
    }
    let mut city = City {
        ground: Ground { width: size, height: size, seed, tiles },
        buildings: Vec::new(),
        citizens: Vec::new(),
        clock: Clock { tick: 0 },
        stats: Stats::default(),
        next_building_id: 1,
        next_citizen_id: 1,
        tasks: Vec::new(),
        next_task_id: 1,
        starved: Vec::new(),
        roads: RoadGraph::default(),
        road_access: Vec::new(),
    };
    city.rebuild_derived();
    city
}

fn small_city() -> City {
    city_of(32, 7)
}

#[test]
fn a_new_citizen_has_a_home_and_no_job() {
    let citizen = Citizen::new(1, 7, 0);
    assert_eq!(citizen.home, Some(7));
    assert_eq!(citizen.work, None);
    assert_eq!(citizen.state, CitizenState::Unemployed);
    assert!(!citizen.ready);
}

#[test]
fn a_citizen_stands_on_its_route() {
    let mut citizen = Citizen::new(1, 0, 0);
    assert_eq!(citizen.current_tile(), None, "no route, nothing to stand on");
    citizen.path = vec![10, 11, 12];
    assert_eq!((citizen.current_tile(), citizen.next_tile()), (Some(10), Some(11)));
    citizen.path_cursor = 2;
    assert_eq!((citizen.current_tile(), citizen.next_tile()), (Some(12), None), "the last step has no next tile");
}

#[test]
fn a_demolished_building_is_retired_not_deleted() {
    let mut city = small_city();
    let tile = city.ground.index(4, 4);
    let id = city.place_building(tile, BuildingKind::Home).expect("placed");
    assert_eq!(city.buildings.len(), 1);
    assert_eq!(city.building_on(tile).map(|b| b.id), Some(id));
    let retired = city.demolish(tile, RetirementReason::Superseded);
    assert_eq!(retired, Some(id));
    assert_eq!(city.buildings.len(), 1, "retirement must not remove the building from the record");
    assert_eq!(city.buildings[0].retired, Some(RetirementReason::Superseded));
    assert!(city.tile(tile).building.is_none());
    assert_eq!(city.stats.retired_buildings, 1);
    assert_eq!(city.stats.homes, 0);
}

#[test]
fn a_placed_structure_carries_its_claim_and_is_counted() {
    let mut city = small_city();
    let tile = city.ground.index(4, 4);
    city.ground.set_zone(tile, Zone::Residential);
    let id = city.place_building(tile, BuildingKind::Home).expect("ground, no road, empty");
    assert_eq!(id, 1, "ids start at one");
    let home = city.building(0);
    assert_eq!(home.material_as_built, MaterialClaim::of_kind(BuildingKind::Home));
    assert!(home.material_from.is_empty(), "placement makes no claim on the ground");
    assert_eq!(home.ready_tick, 40);
    assert_eq!(city.tile(tile).zone, Zone::Unzoned, "a structure replaces the zone");
    assert_eq!((city.stats.homes, city.stats.jobs), (1, 8), "every standing structure but a plant counts its capacity");
    assert_eq!(city.stats.road_tiles, 32);
    assert!(city.place_building(tile, BuildingKind::Shop).is_none(), "one structure per tile");
    assert!(city.place_building(city.ground.index(0, 4), BuildingKind::Shop).is_none(), "not on a road");
    let shop = city.place_building(city.ground.index(5, 4), BuildingKind::Shop).expect("placed");
    assert_eq!(shop, 2);
    assert_eq!((city.stats.shops, city.stats.jobs), (1, 14));
}

#[test]
fn a_plant_needs_road_access() {
    let mut city = small_city();
    assert!(city.has_road_access(city.ground.index(2, 9)));
    assert!(!city.has_road_access(city.ground.index(3, 9)));
    assert!(!city.has_road_access(100_000), "off the map has none");
    assert!(city.place_building(city.ground.index(3, 9), BuildingKind::PowerPlant).is_none());
    assert!(city.place_building(city.ground.index(2, 9), BuildingKind::PowerPlant).is_some());
}

#[test]
fn demolishing_turns_out_residents_and_clears_roads_and_zones() {
    let mut city = small_city();
    let tile = city.ground.index(6, 6);
    city.place_building(tile, BuildingKind::Home).expect("placed");
    let mut resident = Citizen::new(1, 0, 0);
    resident.state = CitizenState::AtHome;
    resident.path = vec![tile];
    let mut stranger = Citizen::new(2, 5, 0);
    stranger.state = CitizenState::AtHome;
    city.citizens = vec![resident, stranger];
    city.demolish(tile, RetirementReason::Superseded);
    assert_eq!(city.citizens[0].state, CitizenState::Unemployed, "residents leave rather than vanish");
    assert!(city.citizens[0].path.is_empty());
    assert_eq!(city.citizens[1].state, CitizenState::AtHome, "a stranger is untouched");

    let road = city.ground.index(0, 6);
    assert_eq!(city.demolish(road, RetirementReason::Superseded), None);
    assert!(!city.tile(road).road);
    assert_eq!(city.stats.road_tiles, 31);
    assert_eq!(city.roads.len(), 31, "the graph is rebuilt");

    let zoned = city.ground.index(9, 9);
    city.ground.set_zone(zoned, Zone::Industrial);
    assert_eq!(city.demolish(zoned, RetirementReason::Superseded), None);
    assert_eq!(city.tile(zoned).zone, Zone::Unzoned);
}

#[test]
fn a_recount_reads_people_at_work() {
    let mut city = small_city();
    let mut worker = Citizen::new(1, 0, 0);
    worker.work = Some(3);
    worker.state = CitizenState::AtWork;
    let mut idle = Citizen::new(2, 0, 0);
    idle.work = Some(3);
    city.citizens = vec![worker, idle, Citizen::new(3, 0, 0)];
    city.recount();
    assert_eq!((city.stats.population, city.stats.employed, city.stats.unemployed), (3, 1, 2));
}

#[test]
fn build_work_is_posted_with_its_plan_or_refused() {
    let mut city = city_of(256, 7);
    let site = city.ground.index(4, 4);
    let home = structure_mass_g("home", 1).expect("declared");
    let id = city.post_build_task(site, BuildingKind::Home).expect("a game-sized world covers a home");
    assert_eq!(id, 1);
    assert_eq!(city.next_task_id, 2);
    let task = city.open_task_at(site).expect("one task on the site");
    assert_eq!((task.verb, task.kind, task.requires_g, task.work_remaining), (Verb::Build, BuildingKind::Home, home, 120));
    assert_eq!(task.material.iter().map(|line| line.grams).sum::<i64>(), home, "the plan covers the structure");
    assert!(city.open_task_at(site + 1).is_none());
    assert_eq!(city.ground.tiles.iter().map(|t| t.extracted_g).sum::<i64>(), 0, "posting work mines nothing");

    let mut iron = small_city();
    let refusal = iron.post_build_task(iron.ground.index(4, 4), BuildingKind::Home).expect_err("no ceramic here");
    assert_eq!((refusal.found_g, refusal.family.as_str()), (0, "ceramic"));
    assert!(iron.tasks.is_empty());
}

#[test]
fn a_built_structure_is_paid_for_out_of_named_tiles() {
    let mut city = city_of(256, 7);
    let site = city.ground.index(4, 4);
    let home = structure_mass_g("home", 1).expect("declared");
    let id = city.build_with_material(site, BuildingKind::Home).expect("a game-sized world covers a home");
    assert_eq!(city.building_on(site).map(|b| b.id), Some(id), "the home stands on its site");
    let building = city.building(0);
    assert_eq!(building.lineage_g(), home, "the lineage accounts for the whole mass");
    for line in &building.material_from {
        assert!(line.grams > 0, "a lineage line of nothing is not a line");
        let found = ground_tile_family(&city.ground, line.tile);
        assert_eq!(found, "ceramic");
    }
    let audit = city.ground.mass_audit(&city.buildings);
    assert!(audit.conserves(), "the material came out of the world's own ground");
    assert_eq!(audit.extracted_g, home, "and it took exactly what the house weighs");
    assert_eq!(audit.loose_g(), 0, "nothing is left lying around from a single build");
}

fn ground_tile_family(ground: &Ground, tile: u32) -> &'static str {
    let (x, y) = ground.coords(tile);
    let found = ala_cities::materials::geology::deposit(ground.seed, x, y).expect("a deposit was there");
    kind_family(found.kind)
}

#[test]
fn a_ceramic_home_cannot_be_built_on_a_world_of_iron() {
    let mut city = small_city();
    let site = city.ground.index(4, 4);
    let shortfall = city
        .build_with_material(site, BuildingKind::Home)
        .expect_err("a home is ceramic and there is no ceramic");
    assert_eq!(shortfall.found_g, 0);
    assert!(shortfall.family.contains("ceramic"), "it names what it wanted: {}", shortfall.family);
    assert!(city.buildings.is_empty(), "and nothing was placed");
    assert_eq!(
        city.ground.tiles.iter().map(|tile| tile.extracted_g).sum::<i64>(),
        0,
        "not even out of the metal, which is there and is the wrong material"
    );
}

#[test]
fn construction_finishes_before_a_home_is_occupied() {
    let mut city = small_city();
    let tile = city.ground.index(4, 4);
    city.place_building(tile, BuildingKind::Home).expect("home");
    city.buildings[0].ready_tick = 100;
    city.clock.tick = 50;
    city.assign_jobs();
    assert_eq!(city.citizens.len(), 0, "no residents before the building is ready");
    city.clock.tick = 120;
    city.assign_jobs();
    assert!(!city.citizens.is_empty(), "residents move in once it is ready");
}

#[test]
fn a_ready_home_fills_and_residents_take_work_the_pass_after() {
    let mut city = small_city();
    city.place_building(city.ground.index(4, 4), BuildingKind::Home).expect("home");
    city.place_building(city.ground.index(5, 4), BuildingKind::Shop).expect("shop");
    city.clock.tick = 40;
    city.assign_jobs();
    assert_eq!(city.citizens.len(), 8, "a home is filled to its capacity");
    assert_eq!(city.next_citizen_id, 9);
    assert!(city.citizens.iter().all(|c| c.home == Some(0) && c.ready && c.work.is_none()),
        "nobody is hired in the pass that settles them");
    assert_eq!(city.citizens[3].id, 4);

    city.assign_jobs();
    assert_eq!(city.citizens.len(), 8, "a full home takes nobody more");
    let hired: Vec<u32> = city.citizens.iter().filter(|c| c.work == Some(1)).map(|c| c.id).collect();
    assert_eq!(hired, vec![1, 2, 3, 4, 5, 6], "the first six free citizens fill the shop's six jobs");
    assert!(city.citizens[..6].iter().all(|c| c.state == CitizenState::AtHome && c.path.is_empty()));
    assert!(city.citizens[6..].iter().all(|c| c.work.is_none() && c.state == CitizenState::Unemployed));

    city.assign_jobs();
    assert_eq!(city.citizens.iter().filter(|c| c.work == Some(1)).count(), 6, "a full workplace hires nobody more");
}

#[test]
fn idle_hands_take_the_nearest_open_work() {
    let mut city = city_of(256, 7);
    let west_home = city.ground.index(10, 10);
    let east_home = city.ground.index(200, 200);
    city.place_building(west_home, BuildingKind::Home).expect("home");
    city.place_building(east_home, BuildingKind::Home).expect("home");
    let east_site = city.post_build_task(city.ground.index(198, 200), BuildingKind::Shop).expect("coverable");
    let west_site = city.post_build_task(city.ground.index(12, 10), BuildingKind::Shop).expect("coverable");
    let mut citizens = Vec::new();
    for (id, home) in [(1, 1u32), (2, 0u32), (3, 0u32)] {
        let mut c = Citizen::new(id, home, 0);
        c.ready = true;
        citizens.push(c);
    }
    citizens[1].work = Some(0);
    city.citizens = citizens;
    city.claim_tasks();
    assert_eq!(city.citizens[0].task, Some(east_site), "the east resident takes the work nearest home");
    assert_eq!(city.citizens[0].state, CitizenState::AtHome, "and is parked at home to be routed");
    assert_eq!(city.citizens[1].task, None, "someone with a job is not idle");
    assert_eq!(city.citizens[2].task, Some(west_site), "the next idle one takes what is left");
    assert_eq!(city.tasks[0].claimed_by, Some(1));
    assert_eq!(city.tasks[1].claimed_by, Some(3));

    let mut late = Citizen::new(4, 0, 0);
    late.ready = true;
    city.citizens.push(late);
    city.claim_tasks();
    assert_eq!(city.citizens[3].task, None, "no open work, nothing taken");
}

/// A city with a home at (10, 10), one resident ready to work, and a home's worth of
/// build work posted at (12, 10) and taken by that resident.
fn city_with_claimed_work() -> (City, u32, u32) {
    let mut city = city_of(256, 7);
    city.build_with_material(city.ground.index(10, 10), BuildingKind::Home).expect("home");
    let site = city.ground.index(12, 10);
    let task = city.post_build_task(site, BuildingKind::Home).expect("coverable");
    let mut worker = Citizen::new(1, 0, 0);
    worker.ready = true;
    city.citizens.push(worker);
    city.claim_tasks();
    assert_eq!(city.citizens[0].task, Some(task));
    (city, site, task)
}

fn stand_on(city: &mut City, index: usize, tile: u32) {
    city.citizens[index].state = CitizenState::AtWork;
    city.citizens[index].path = vec![tile];
    city.citizens[index].path_cursor = 0;
}

#[test]
fn work_nobody_stands_on_does_not_advance() {
    let (mut city, _, _) = city_with_claimed_work();
    let before = city.tasks[0].work_remaining;
    assert!(city.work_tasks().is_empty());
    assert_eq!(city.tasks[0].work_remaining, before, "the worker is at home, not on the site");

    let far = city.ground.index(40, 40);
    stand_on(&mut city, 0, far);
    city.work_tasks();
    assert_eq!(city.tasks[0].work_remaining, before, "standing somewhere else is not working on it");
}

#[test]
fn work_done_on_the_site_raises_the_structure_out_of_its_plan() {
    let (mut city, site, _) = city_with_claimed_work();
    let home = structure_mass_g("home", 1).expect("declared");
    let plan = city.tasks[0].material.clone();
    // Beside the site counts as on it.
    stand_on(&mut city, 0, site + 1);
    for left in (1..120).rev() {
        assert!(city.work_tasks().is_empty());
        assert_eq!(city.tasks[0].work_remaining, left, "one unit of work a tick");
        assert!(city.building_on(site).is_none(), "nothing stands before the work is done");
    }
    assert!(city.work_tasks().is_empty(), "the plan still covers the home");
    assert!(city.tasks.is_empty(), "the finished work retires itself");
    let built = city.building_on(site).expect("the home stands on its site");
    assert_eq!((built.id, built.kind, built.level), (2, BuildingKind::Home, 1));
    assert_eq!(built.material_from, plan, "it took exactly the tiles its plan named");
    assert_eq!(built.lineage_g(), home, "to the gram");
    assert_eq!(city.citizens[0].task, None);
    assert_eq!(city.citizens[0].state, CitizenState::ToHome, "the worker walks home");
    let audit = city.ground.mass_audit(&city.buildings);
    assert!(audit.conserves());
    assert_eq!(audit.extracted_g, 2 * home, "two homes, each out of its own draw");
}

#[test]
fn a_plan_mined_out_from_under_the_work_is_refused_with_what_it_found() {
    let (mut city, site, _) = city_with_claimed_work();
    let home = structure_mass_g("home", 1).expect("declared");
    let first = city.tasks[0].material[0].clone();
    // Somebody else worked the first line's tile out first.
    let (x, y) = city.ground.coords(first.tile);
    let found = ala_cities::materials::geology::deposit(city.ground.seed, x, y).expect("a deposit was there");
    city.ground.tiles[first.tile as usize].extracted_g = found.mass_g;
    stand_on(&mut city, 0, site);
    let mut refusals = Vec::new();
    for _ in 0..120 {
        refusals.extend(city.work_tasks());
    }
    assert_eq!(refusals.len(), 1);
    assert_eq!((refusals[0].site, refusals[0].family.as_str(), refusals[0].wanted_g), (site, "ceramic", home));
    assert!(refusals[0].found_g < home, "it found less than it wanted: {}", refusals[0].found_g);
    assert!(city.tasks.is_empty(), "the work is over either way");
    assert!(city.building_on(site).is_none(), "and nothing stands");
    assert_eq!(city.citizens[0].state, CitizenState::ToHome);
}

#[test]
fn a_site_taken_before_the_work_ends_is_refused_after_the_draw() {
    let (mut city, site, _) = city_with_claimed_work();
    let home = structure_mass_g("home", 1).expect("declared");
    city.ground.tiles[site as usize].road = true;
    stand_on(&mut city, 0, site);
    let mut refusals = Vec::new();
    for _ in 0..120 {
        refusals.extend(city.work_tasks());
    }
    assert_eq!(refusals.len(), 1);
    assert_eq!((refusals[0].wanted_g, refusals[0].found_g), (home, home), "the plan was drawn in full");
    assert!(city.building_on(site).is_none());
    assert_eq!(city.ground.tiles.iter().map(|t| t.extracted_g).sum::<i64>(), 2 * home, "and the mass is out of the ground");
    let audit = city.ground.mass_audit(&city.buildings);
    assert!(audit.conserves(), "a refused draw stands nothing up, so the balance holds");
    assert_eq!(audit.loose_g(), home, "what was drawn for nothing lies loose");
}

/// A city with a home at (1, 4) and a shop at (1, 8), both beside the road down the left
/// edge, and one settled resident of the home who works at the shop, parked at home.
fn city_with_commuter() -> City {
    let mut city = small_city();
    city.place_building(city.ground.index(1, 4), BuildingKind::Home).expect("home");
    city.place_building(city.ground.index(1, 8), BuildingKind::Shop).expect("shop");
    let mut c = Citizen::new(1, 0, 0);
    c.ready = true;
    c.work = Some(1);
    c.state = CitizenState::AtHome;
    city.citizens.push(c);
    city
}

#[test]
fn a_parked_resident_is_routed_to_work_every_fourth_tick() {
    let mut city = city_with_commuter();
    city.clock.tick = 1;
    city.step_citizens((1, 4));
    assert!(city.citizens[0].path.is_empty(), "no routing between the fourth ticks");
    city.clock.tick = 4;
    city.step_citizens((1, 4));
    let c = &city.citizens[0];
    assert_eq!(c.state, CitizenState::ToWork);
    let expected: Vec<u32> = (4..=8).map(|y| city.ground.index(0, y)).collect();
    assert_eq!(c.path, expected, "along the road from beside home to beside work");
    assert_eq!((c.path_cursor, c.step_quarters), (0, 0));
    assert_eq!(city.stats.commute_failures, 0);
    assert_eq!(city.stats.full_agents, 1, "the home is at the focus");
}

#[test]
fn a_full_agent_walks_a_quarter_step_a_tick_and_parks_at_work() {
    let mut city = city_with_commuter();
    city.clock.tick = 4;
    city.step_citizens((1, 4));
    city.clock.tick = 5;
    for quarter in 1..4 {
        city.step_citizens((1, 4));
        assert_eq!((city.citizens[0].path_cursor, city.citizens[0].step_quarters), (0, quarter));
    }
    city.step_citizens((1, 4));
    assert_eq!((city.citizens[0].path_cursor, city.citizens[0].step_quarters), (1, 0), "four quarters make a step");
    for _ in 0..12 {
        city.step_citizens((1, 4));
    }
    let c = &city.citizens[0];
    assert_eq!(c.path, vec![city.ground.index(0, 8)], "parked where the route ends");
    assert_eq!(c.state, CitizenState::AtWork);
    assert_eq!(city.buildings[1].occupants, 1, "and counted in at work");
}

#[test]
fn an_agent_away_from_the_camera_walks_a_step_a_tick() {
    let mut city = city_with_commuter();
    city.clock.tick = 4;
    city.step_citizens((30, 30));
    assert_eq!(city.stats.full_agents, 0);
    city.clock.tick = 5;
    city.step_citizens((30, 30));
    assert_eq!((city.citizens[0].path_cursor, city.citizens[0].step_quarters), (1, 0));
    for _ in 0..3 {
        city.step_citizens((30, 30));
    }
    assert_eq!(city.citizens[0].state, CitizenState::AtWork, "four steps of a five-tile route");
}

#[test]
fn a_commute_with_no_road_is_counted_as_a_failure() {
    let mut city = small_city();
    city.place_building(city.ground.index(20, 20), BuildingKind::Home).expect("home");
    city.place_building(city.ground.index(22, 20), BuildingKind::Shop).expect("shop");
    let mut c = Citizen::new(1, 0, 0);
    c.ready = true;
    c.work = Some(1);
    c.state = CitizenState::AtHome;
    city.citizens.push(c);
    city.step_citizens((0, 0));
    assert_eq!(city.stats.commute_failures, 1, "no road within reach of home");
    assert!(city.citizens[0].path.is_empty());
    assert_eq!(city.citizens[0].state, CitizenState::AtHome, "and nobody teleports");
}

#[test]
fn no_more_than_sixty_four_residents_are_routed_a_tick() {
    let mut city = city_with_commuter();
    for id in 2..=70 {
        let mut c = Citizen::new(id, 0, 0);
        c.ready = true;
        c.work = Some(1);
        c.state = CitizenState::AtHome;
        city.citizens.push(c);
    }
    city.step_citizens((1, 4));
    assert!(city.citizens[..64].iter().all(|c| c.state == CitizenState::ToWork && !c.path.is_empty()));
    assert!(city.citizens[64..].iter().all(|c| c.state == CitizenState::AtHome && c.path.is_empty()));
}

fn allowance(residential: u32, commercial: u32, industrial: u32) -> Allowance {
    Allowance { residential, commercial, industrial }
}

/// Zone a tile beside the left-edge road and give it power by hand.
fn zone_powered(city: &mut City, x: u32, y: u32, zone: Zone) -> u32 {
    let tile = city.ground.index(x, y);
    assert!(city.ground.set_zone(tile, zone));
    city.ground.tiles[tile as usize].powered = true;
    tile
}

#[test]
fn a_starved_world_posts_no_work_and_records_the_shortage() {
    let mut city = small_city();
    city.place_building(city.ground.index(1, 3), BuildingKind::PowerPlant).expect("plant");
    city.buildings[0].ready_tick = 0;
    let site = city.ground.index(1, 6);
    city.ground.set_zone(site, Zone::Residential);
    city.recompute_power();
    assert!(city.ground.tiles[site as usize].powered, "the plant lights the zoned tile");
    let (posted, refusals) = city.post_demand_tasks(allowance(1, 0, 0));
    assert!(posted.is_empty());
    assert!(city.open_task_at(site).is_none(), "the world cannot supply a ceramic home, so no work is posted");
    let mut starved = Vec::new();
    for refusal in &refusals {
        record_starved(&mut starved, 0, refusal);
    }
    assert_eq!(starved.len(), 1, "one reading for the district, not one per tick");
    assert!(starved[0].family.contains("ceramic"), "{}", starved[0].objective());
    assert_eq!(starved[0].found_g, 0, "the world holds none of it");
    assert!(starved[0].missing_g() > 0);
    assert!(starved[0].objective().contains("short"), "{}", starved[0].objective());

    let (_, again) = city.post_demand_tasks(allowance(1, 0, 0));
    for refusal in &again {
        record_starved(&mut starved, 0, refusal);
    }
    assert_eq!(starved.len(), 1);
    assert_eq!(starved[0].count, 2, "and the count is real, not decorative");
}

#[test]
fn demand_posts_work_and_never_a_building() {
    let mut city = city_of(256, 7);
    let a = zone_powered(&mut city, 1, 10, Zone::Residential);
    let b = zone_powered(&mut city, 1, 11, Zone::Commercial);
    let c = zone_powered(&mut city, 1, 12, Zone::Residential);
    let (posted, refusals) = city.post_demand_tasks(allowance(1, 1, 0));
    assert!(refusals.is_empty());
    assert_eq!(posted, vec![Zone::Residential, Zone::Commercial], "one home's and one shop's worth of demand");
    assert_eq!(city.open_task_at(a).map(|t| (t.id, t.kind)), Some((1, BuildingKind::Home)));
    assert_eq!(city.open_task_at(b).map(|t| (t.id, t.kind)), Some((2, BuildingKind::Shop)));
    assert!(city.open_task_at(c).is_none(), "the residential allowance is spent");
    assert!(city.buildings.is_empty(), "posting work raises nothing");

    let (again, _) = city.post_demand_tasks(allowance(4, 4, 4));
    assert_eq!(again, vec![Zone::Residential], "a site already posted on is not posted again");
    assert_eq!(city.tasks.len(), 3);
}

#[test]
fn no_more_than_four_posts_a_tick_and_none_in_brownout() {
    let mut city = city_of(256, 7);
    for y in 10..16 {
        zone_powered(&mut city, 1, y, Zone::Industrial);
    }
    zone_powered(&mut city, 5, 10, Zone::Industrial);
    city.stats.brownout = true;
    let (posted, refusals) = city.post_demand_tasks(allowance(0, 0, 9));
    assert!(posted.is_empty() && refusals.is_empty() && city.tasks.is_empty(), "no power, no growth");
    city.stats.brownout = false;
    let (posted, _) = city.post_demand_tasks(allowance(0, 0, 9));
    assert_eq!(posted.len(), 4);
    let sites: Vec<u32> = city.tasks.iter().map(|t| t.site).collect();
    let expected: Vec<u32> = (10..14).map(|y| city.ground.index(1, y)).collect();
    assert_eq!(sites, expected, "in tile order; the tile out of road reach wants no work");
}

/// A city of ground everywhere and no road at all.
fn bare_city(size: u32, seed: u64) -> City {
    let mut city = city_of(size, seed);
    for tile in city.ground.tiles.iter_mut() {
        tile.road = false;
    }
    city.rebuild_derived();
    city
}

#[test]
fn a_dug_city_balances_to_the_gram() {
    let mut city = bare_city(32, 7);
    let rich = (0..1024u32)
        .find(|tile| city.ground.deposit_at(*tile).is_some())
        .expect("a 32×32 world has ore in it somewhere");
    let available = city.ground.deposit_at(rich).expect("just found it").mass_g;
    assert_eq!(city.ground.extract(rich, available), available, "the take is what was there");

    let audit = city.ground.mass_audit(&city.buildings);
    let ground: i64 = audit
        .holdings()
        .iter()
        .filter(|(account, _)| account.starts_with("ground:"))
        .map(|(_, grams)| *grams)
        .sum();
    assert_eq!(ground, -available, "the ground goes down by exactly the take");
    assert_eq!(audit.extracted_g, available);
    assert_eq!(audit.standing_g, 0, "nothing has been built yet");
    assert!(audit.conserves(), "material taken and not yet built is loose, not invented");
    assert_eq!(audit.loose_g(), available, "all of it is loose so far");

    city.place_building(rich, BuildingKind::Home).expect("ground, no road, empty");
    let audit = city.ground.mass_audit(&city.buildings);
    let home = structure_mass_g("home", 1).expect("declared");
    assert_eq!(audit.of("structure:ceramic"), home, "a declared mass, read off the kind");
    assert_eq!(city.buildings[0].mass_g(), Some(home));
    assert_eq!(audit.extracted_g, available, "building does not change what was dug");
    assert_eq!(audit.standing_g, home);
    assert_eq!(audit.loose_g(), available - home, "the remainder is real material, still in the world");
    assert!(
        audit.holdings().iter().any(|(account, grams)| account.starts_with("ground:") && *grams < 0),
        "and the ground it came from is still visibly debited"
    );
}

#[test]
fn material_that_was_never_dug_up_is_reported_as_an_imbalance() {
    let mut city = bare_city(32, 7);
    city.place_building(0, BuildingKind::Home).expect("empty ground");
    let audit = city.ground.mass_audit(&city.buildings);
    assert!(!audit.conserves(), "a house that grew out of nothing is not conservation");
    let mass = structure_mass_g("home", 1).expect("declared");
    assert_eq!(audit.loose_g(), -mass, "the defect is exactly the house, as a quantity");
    let findings = audit.findings();
    assert_eq!(findings.len(), 1, "one finding, naming the number: {findings:?}");
    assert!(findings[0].contains("never gave up"), "{findings:?}");
    assert!(findings[0].contains(&mass.to_string()), "the amount is named: {findings:?}");
}

#[test]
fn demolishing_moves_mass_to_the_ruins() {
    let mut city = bare_city(32, 7);
    city.place_building(0, BuildingKind::Shop).expect("empty ground");
    let mass = structure_mass_g("shop", 1).expect("declared");
    assert_eq!(city.ground.mass_audit(&city.buildings).of("structure:ceramic"), mass);

    city.demolish(0, RetirementReason::Superseded);
    let audit = city.ground.mass_audit(&city.buildings);
    assert_eq!(audit.of("structure:ceramic"), 0, "it is no longer a standing structure");
    assert_eq!(audit.of("ruin:ceramic"), mass, "the material is still in the world");
    assert_eq!(audit.standing_g, mass, "demolition conserved the mass; only its account changed");
}

#[test]
fn zoned_tiles_get_work_only_with_power_and_a_road() {
    let mut city = city_of(256, 7);
    city.place_building(city.ground.index(1, 3), BuildingKind::PowerPlant).expect("plant");
    city.buildings[0].ready_tick = 0;
    let near = city.ground.index(1, 6);
    city.ground.set_zone(near, Zone::Residential);
    let far = city.ground.index(250, 250);
    city.ground.set_zone(far, Zone::Residential);
    city.recompute_power();
    for _ in 0..40 {
        city.clock.tick += 1;
        city.post_demand_tasks(allowance(1, 0, 0));
    }
    assert!(city.open_task_at(near).is_some(), "a powered, road-connected zoned tile should have work posted for it");
    assert!(city.open_task_at(far).is_none(), "an unpowered tile with no road must not be given work");
    assert!(city.ground.tiles[near as usize].building.is_none(), "and work posted is not a building: the citizen has to do it");
}

#[test]
fn a_structure_claims_the_body_material_its_kind_declares() {
    for kind in [BuildingKind::Home, BuildingKind::Shop, BuildingKind::Factory, BuildingKind::PowerPlant] {
        let claim = MaterialClaim::of_kind(kind).expect("every kind has a declared body");
        let part = ala_cities::materials::world::part(&claim.part)
            .unwrap_or_else(|| panic!("{} names an undeclared part", claim.part));
        assert_eq!(part.family.as_str(), claim.family, "{} family", kind.name());
        assert_eq!(part.hue.as_str(), claim.anchor, "{} anchor", kind.name());
        assert_eq!(part.level.as_str(), claim.level, "{} level", kind.name());
        assert_eq!(claim.level, "body", "the claim is the body part");
        assert!(claim.part.starts_with(kind.part_prefix()));
    }
}

#[test]
fn a_structure_is_drawn_by_its_own_claim_or_else_its_kinds() {
    let mut city = small_city();
    city.place_building(city.ground.index(4, 4), BuildingKind::Shop).expect("shop");
    let claim = city.buildings[0].drawn_claim().expect("a shop declares its body");
    assert_eq!((claim.part.as_str(), claim.family.as_str(), claim.level.as_str()), ("shop.walls", "ceramic", "body"));
    city.buildings[0].material_as_built = Some(MaterialClaim {
        part: "shop.frontage".to_string(),
        family: "enamel".to_string(),
        anchor: "blue".to_string(),
        level: "body".to_string(),
    });
    let claim = city.buildings[0].drawn_claim().expect("its own claim");
    assert_eq!((claim.part.as_str(), claim.family.as_str(), claim.anchor.as_str()), ("shop.frontage", "enamel", "blue"));
    city.buildings[0].material_as_built = None;
    assert_eq!(city.buildings[0].drawn_claim().map(|c| c.part), Some("shop.walls".to_string()), "the kind's body when it has none");
}

use ala_cities::sim::blank_tiles;
use ala_cities::sim::rng::Pcg32;
use ala_cities::sim::road::RoadGraph;
use ala_cities::sim::task::Verb;

#[test]
fn the_same_seed_gives_the_same_sequence() {
    let mut a = Pcg32::new(0xC117_0001);
    let mut b = Pcg32::new(0xC117_0001);
    for _ in 0..1_000 {
        assert_eq!(a.next_u32(), b.next_u32());
    }
}

#[test]
fn different_seeds_diverge() {
    let mut a = Pcg32::new(1);
    let mut b = Pcg32::new(2);
    let mut same = 0;
    for _ in 0..1_000 {
        if a.next_u32() == b.next_u32() {
            same += 1;
        }
    }
    assert!(same < 5, "seeds 1 and 2 produced {same} identical draws");
}

#[test]
fn below_never_exceeds_its_bound() {
    let mut rng = Pcg32::new(11);
    for n in 1..64u32 {
        for _ in 0..100 {
            assert!(rng.below(n) < n);
        }
    }
    assert_eq!(rng.below(0), 0);
}

fn with_road(width: u32, height: u32, road: &[(u32, u32)]) -> RoadGraph {
    let mut tiles = blank_tiles(width, height);
    for &(x, y) in road {
        tiles[(y * width + x) as usize].road = true;
    }
    RoadGraph::rebuild(width, height, &tiles)
}

#[test]
fn a_straight_road_is_a_connected_chain() {
    let graph = with_road(10, 1, &[(0, 0), (1, 0), (2, 0)]);
    assert_eq!(graph.len(), 3);
    let path = graph.astar(0, 2).expect("path along a straight road");
    assert_eq!(path, vec![0, 1, 2]);
}

#[test]
fn diagonal_touch_is_not_a_connection() {
    let graph = with_road(3, 3, &[(0, 0), (1, 1)]);
    assert_eq!(graph.len(), 2);
    assert!(graph.astar(0, 1).is_none(), "diagonally touching tiles must not be routable");
}

#[test]
fn disconnected_roads_have_no_path() {
    let graph = with_road(6, 3, &[(0, 0), (5, 2)]);
    assert!(graph.astar(0, 1).is_none());
}

#[test]
fn nearest_node_searches_outwards() {
    let graph = with_road(10, 10, &[(5, 5)]);
    let node = graph.nearest_node_within(10, 10, 5 * 10 + 5, 3);
    assert_eq!(node, Some(0));
    let node = graph.nearest_node_within(10, 10, 5 * 10 + 7, 3);
    assert_eq!(node, Some(0));
    assert_eq!(graph.nearest_node_within(10, 10, 5 * 10 + 9, 3), None);
}

#[test]
fn a_bend_is_routed_around() {
    let graph = with_road(5, 5, &[(0, 0), (1, 0), (2, 0), (2, 1), (2, 2)]);
    let path = graph.astar(0, 4).expect("path around the corner");
    assert_eq!(path, vec![0, 1, 2, 3, 4]);
}

#[test]
fn routing_between_buildings_uses_the_grid() {
    let graph = with_road(6, 1, &[(0, 0), (1, 0), (2, 0), (3, 0)]);
    let path = graph.route_between_tiles(6, 1, 0, 3, 2).expect("a route between two road tiles");
    assert_eq!(path.len(), 4);
    assert_eq!(path[0], 0);
    assert_eq!(path[3], 3);
}

#[test]
fn a_building_with_no_road_nearby_refuses_a_route() {
    let graph = with_road(20, 20, &[(0, 0)]);
    assert!(graph.route_between_tiles(20, 20, 19 * 20 + 19, 0, 2).is_none());
}

#[test]
fn the_verb_list_is_closed_and_quotes_itself() {
    for verb in Verb::ALL.iter() {
        assert_eq!(Verb::named(verb.name()), Some(*verb));
    }
    assert_eq!(Verb::named("demolish"), None, "not declared, so not a task verb");
    assert_eq!(Verb::named(""), None);
    assert_eq!(Verb::ALL.len(), 1, "a verb arrives with an implementation, not before");
}

#[test]
fn the_search_takes_the_short_way_round() {
    // Two ways from the top-left corner to (2, 2): round the ring's long side, or straight
    // down and across.
    let graph = with_road(
        5,
        5,
        &[(0, 0), (1, 0), (2, 0), (3, 0), (4, 0), (4, 1), (4, 2), (3, 2), (2, 2), (0, 1), (0, 2), (1, 2)],
    );
    let start = 0;
    let goal = graph.route_between_tiles(5, 5, 0, 2 * 5 + 2, 0).expect("both ends are road");
    assert_eq!(goal.len(), 5, "down two and across two: {goal:?}");
    assert_eq!(graph.astar(start, start), Some(vec![start]), "a node is its own route");
}

#[test]
fn the_passes_come_round_on_their_own_ticks() {
    let at = |tick: u64| ala_cities::sim::Clock { tick }.passes();
    let p = at(16);
    assert!(p.power && p.growth && p.jobs && !p.month && !p.day);
    let p = at(12);
    assert!(p.power && !p.growth && !p.jobs);
    let p = at(1200);
    assert!(p.month && p.day, "a month closes on its last tick, which closes a day too");
    let p = at(0);
    assert!(!p.month, "the first tick closes nothing");
    assert!(!at(41).day && at(40).day);
}

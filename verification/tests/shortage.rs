use ala_cities::sim::{record_starved, MaterialShortfall, Starved};

fn refusal(site: u32, family: &str, wanted_g: i64, found_g: i64) -> MaterialShortfall {
    MaterialShortfall { site, family: family.to_string(), wanted_g, found_g }
}

#[test]
fn a_shortage_read_again_is_one_reading_with_a_count() {
    let mut starved: Vec<Starved> = Vec::new();
    record_starved(&mut starved, 3, &refusal(10, "ceramic", 500, 0));
    record_starved(&mut starved, 3, &refusal(11, "ceramic", 700, 100));
    assert_eq!(starved.len(), 1, "one reading for the district, not one per refusal");
    assert_eq!(starved[0].count, 2);
    assert_eq!(starved[0].wanted_g, 1_200);
    assert_eq!(starved[0].found_g, 100);
    assert_eq!(starved[0].missing_g(), 1_100);
}

#[test]
fn another_district_or_family_is_another_reading() {
    let mut starved: Vec<Starved> = Vec::new();
    record_starved(&mut starved, 3, &refusal(10, "ceramic", 500, 0));
    record_starved(&mut starved, 4, &refusal(90, "ceramic", 500, 0));
    record_starved(&mut starved, 3, &refusal(12, "metal", 900, 0));
    record_starved(&mut starved, 4, &refusal(91, "ceramic", 100, 20));
    assert_eq!(starved.len(), 3);
    assert_eq!((starved[0].district, starved[0].family.as_str(), starved[0].count), (3, "ceramic", 1));
    assert_eq!((starved[1].district, starved[1].family.as_str(), starved[1].count), (4, "ceramic", 2));
    assert_eq!((starved[1].wanted_g, starved[1].found_g), (600, 20));
    assert_eq!((starved[2].district, starved[2].family.as_str(), starved[2].count), (3, "metal", 1));
    assert_eq!(starved[1].case_key(), "materials:4:ceramic");
}

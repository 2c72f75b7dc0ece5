use ala_cities::sim::{migrate, Building, BuildingKind, MaterialClaim, FORMAT_VERSION};

fn placed(id: u32, tile: u32, kind: BuildingKind, claimed: bool) -> Building {
    Building {
        id,
        kind,
        tile,
        level: 1,
        built_tick: 0,
        ready_tick: 40,
        retired: None,
        retired_tick: None,
        powered: false,
        occupants: 0,
        material_as_built: if claimed { MaterialClaim::of_kind(kind) } else { None },
        material_from: Vec::new(),
        repair_filed: false,
    }
}

/// Structures written before the world had materials: no claims at all.
fn v1_city() -> Vec<Building> {
    vec![
        placed(1, 132, BuildingKind::Home, false),
        placed(2, 133, BuildingKind::Home, false),
        placed(3, 134, BuildingKind::Factory, false),
    ]
}

#[test]
fn an_old_save_migrates_with_a_report_naming_what_it_derived() {
    let mut buildings = v1_city();
    let migration = migrate(0, &mut buildings)
        .expect("an old save migrates")
        .expect("the derivation is reported");
    assert_eq!((migration.from, migration.to), (0, FORMAT_VERSION));
    assert_eq!(migration.derived.len(), 3, "every structure that predated the claim got one derived");
    assert_eq!(migration.derived[0], (1, "ceramic/natural/body on home.walls".to_string()));
    assert_eq!(migration.derived[2].1, "metal/natural/body on factory.frame");
    let described = migration.describe();
    assert!(described.contains("2 × ceramic/natural/body on home.walls"), "{described}");
    assert!(described.contains("derivation, not a measurement"), "{described}");
    for building in &buildings {
        assert_eq!(
            building.material_as_built,
            MaterialClaim::of_kind(building.kind),
            "the derived claim is the kind's own declared body material"
        );
    }
    // Brought up to date, the save reads as current and is not migrated again.
    assert_eq!(migrate(FORMAT_VERSION, &mut buildings), Ok(None));
}

#[test]
fn a_claim_already_made_is_kept() {
    let mut buildings = v1_city();
    buildings[1].material_as_built = MaterialClaim::of_kind(BuildingKind::Factory);
    let migration = migrate(1, &mut buildings).expect("migrates").expect("reported");
    assert_eq!(migration.derived.len(), 2, "only the unclaimed structures are derived");
    assert_eq!(migration.derived[1].0, 3);
    assert_eq!(buildings[1].material_as_built, MaterialClaim::of_kind(BuildingKind::Factory));
}

#[test]
fn a_save_from_a_newer_build_is_refused_rather_than_guessed() {
    let mut buildings = vec![placed(1, 132, BuildingKind::Home, true)];
    let err = migrate(FORMAT_VERSION + 1, &mut buildings).expect_err("a newer save is refused");
    assert!(err.contains("invented state"), "the refusal names the reason: {err}");
    assert_eq!(
        err,
        format!(
            "this save is format v{} and this build understands up to v{}; a newer save read by an older build is invented state",
            FORMAT_VERSION + 1,
            FORMAT_VERSION
        )
    );
}

#[test]
fn a_current_save_missing_a_claim_is_refused() {
    let mut buildings = vec![
        placed(4, 132, BuildingKind::Home, false),
        placed(5, 133, BuildingKind::Home, true),
        placed(9, 134, BuildingKind::Shop, false),
    ];
    let err = migrate(FORMAT_VERSION, &mut buildings).expect_err("a current save missing a claim is refused");
    assert!(err.contains("no as-built material"), "the refusal names the defect: {err}");
    assert!(err.contains("carries 2 structure(s)") && err.contains("(4, 9)"), "{err}");
    assert!(buildings[0].material_as_built.is_none(), "a refusal changes nothing");
}

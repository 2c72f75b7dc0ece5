use ala_cities::materials::chain::{
    counted_goods, plan, plan_with, producible, Leaf, Refusal, Route,
};
use ala_cities::materials::effects::table_defects;
use ala_cities::materials::generated::{open_items, processes, schema_open, Process, Rational};
use ala_cities::materials::geology::{
    deposit, deposit_kinds, full_tile_mass_g, mass_g, tile_volume_ml, RICHNESS_ONE, TILE_AREA_CM2,
};
use ala_cities::materials::ledger::{
    carried_account, carried_prefix, site_account, site_prefix, structure_mass_g, Ledger, MassAudit,
};
use ala_cities::materials::schema::{
    gathers, grams, process, quantity_grams, reachable, substance, tier_ordinal, Unit,
};
use ala_cities::materials::surface::{
    full_mass_g, kind_regrowth, standing_g, surface, surface_kinds, take, tile_regrowth_g_per_day,
};
use ala_cities::materials::verify;
use ala_cities::sim::BuildingKind;

#[test]
fn one_hatchet_reduces_to_the_three_gathers_the_schema_states() {
    let plan = plan("hatchet", 2900).expect("the stone rung reaches the ground");
    assert!(!plan.is_bare_leaf(), "a hatchet is made, not taken");

    let mut leaves: Vec<(&str, i64, Route)> = plan
        .leaves
        .iter()
        .map(|leaf| (leaf.substance, leaf.grams, leaf.route))
        .collect();
    leaves.sort_by_key(|(name, grams, _)| (*name, *grams));
    assert_eq!(
        leaves,
        vec![
            ("plant_fibre", 100, Route::Gather),
            ("stone", 1000, Route::Gather),
            ("timber", 3000, Route::Gather),
        ],
        "the chain's leaves are the schema's own three gathers"
    );
    assert_eq!(plan.drawn_g(), 4100, "4.1 kg of the world, exactly");

    let process_names: Vec<&str> = plan.steps.iter().map(|step| step.process).collect();
    assert_eq!(
        process_names.last().copied(),
        Some("assemble the hatchet"),
        "the thing asked for is made last: {process_names:?}"
    );
    for (index, step) in plan.steps.iter().enumerate() {
        let declared = process(step.process).expect("declared");
        for (input, _) in declared.inputs {
            let maker = plan.steps.iter().position(|earlier| {
                process(earlier.process)
                    .is_some_and(|p| p.outputs.iter().any(|(name, _)| name == input))
            });
            match maker {
                Some(maker) => assert!(
                    maker < index,
                    "`{input}` is consumed by `{}` at step {index} but made at step {maker}",
                    step.process
                ),
                None => assert!(
                    plan.leaves
                        .iter()
                        .any(|leaf| { leaf.substance == *input && leaf.route == Route::Extract }),
                    "`{input}` is neither made by the plan nor taken from the world"
                ),
            }
        }
    }
    assert!(plan.steps.iter().all(|step| step.runs == 1), "one of each: {:#?}", plan.steps);
    assert!(
        plan.surplus.is_empty(),
        "one run yields exactly one hatchet's worth: {:#?}",
        plan.surplus
    );

    let mut by_products: Vec<(&str, i64)> = plan.by_products.clone();
    by_products.sort();
    assert_eq!(
        by_products,
        vec![
            ("fibre_dust", 5),
            ("stone_flakes", 200),
            ("timber_offcuts", 600),
            ("trim_waste", 395),
        ],
        "a loss is an output, so a plan has to carry it"
    );
}

#[test]
fn a_run_is_whole_and_the_remainder_is_named_as_surplus() {
    let two = plan("hatchet", 5800).expect("planned");
    assert!(
        two.steps
            .iter()
            .filter(|step| step.process == "assemble the hatchet")
            .all(|step| step.runs == 2),
        "5800 g is two hatchets: {:#?}",
        two.steps
    );
    assert!(two.surplus.is_empty(), "two runs yield exactly 5800 g");

    let over = plan("hatchet", 2901).expect("planned");
    assert_eq!(
        over.surplus,
        vec![("hatchet", 2899)],
        "one gram past a whole hatchet is a second run, and the rest stays as stock"
    );
    assert_eq!(over.drawn_g(), 4100 * 2, "and the world gives up twice what it did");
}

#[test]
fn a_mined_substance_is_taken_rather_than_made() {
    let plan = plan("clay", 5000).expect("clay is mined");
    assert_eq!(
        plan.leaves,
        vec![Leaf { substance: "clay", grams: 5000, route: Route::Extract, process: None }]
    );
    assert!(plan.steps.is_empty(), "nothing is made, so there is no work");
    assert_eq!(plan.drawn_g(), 5000);
}

#[test]
fn a_substance_with_no_route_to_the_world_is_refused() {
    let refusal = plan("nobody declared this", 10).expect_err("undeclared");
    assert_eq!(refusal, Refusal::Undeclared("nobody declared this".to_string()));
    assert!(refusal.describe().contains("not a declared substance"));

    let refusal = plan("water", 1000).expect_err("no route");
    let described = refusal.describe();
    assert!(described.contains("cannot be reached"), "{described}");
    assert!(described.contains("gathered"), "{described}");
    assert!(described.contains("would have to invent mass"), "{described}");
}

#[test]
fn a_looping_table_is_refused_with_the_cycle_named() {
    let mechanism = processes()[0].mechanism;
    let looped: Vec<Process> = vec![
        Process {
            name: "cord from a haft",
            tier: "bound & composite",
            inputs: &[("haft_blank", Rational { num: 1000, den: 1 })],
            outputs: &[("cord", Rational { num: 1000, den: 1 })],
            mechanism,
            requires: &[],
            note: "",
        },
        Process {
            name: "a haft from cord",
            tier: "bound & composite",
            inputs: &[("cord", Rational { num: 1000, den: 1 })],
            outputs: &[("haft_blank", Rational { num: 1000, den: 1 })],
            mechanism,
            requires: &[],
            note: "",
        },
    ];
    let refusal = plan_with(&looped, "cord", 1000).expect_err("the loop is refused");
    match refusal {
        Refusal::Cycle(path) => {
            assert!(path.len() >= 2, "the path names where it closed: {path:?}");
            assert!(path[0] == path[path.len() - 1], "and closes on itself: {path:?}");
        }
        other => panic!("expected a cycle, got {other:?}"),
    }
    assert!(
        Refusal::Cycle(vec!["cord".into(), "cord".into()]).describe().contains("loops"),
        "the refusal reads as a sentence"
    );
}

#[test]
fn every_plan_the_table_can_make_ends_in_the_world() {
    for (name, process) in producible() {
        let plan = plan(name, 1000).unwrap_or_else(|refusal| {
            panic!("`{name}` ({process}) cannot be planned: {}", refusal.describe())
        });
        assert!(!plan.leaves.is_empty(), "`{name}` was made without the world giving anything up");
        for leaf in &plan.leaves {
            assert!(
                substance(leaf.substance).is_some_and(|entry| entry.source != "made"),
                "a leaf must be something the world holds: `{}`",
                leaf.substance
            );
        }
        for step in &plan.steps {
            if step.input_g == 0 {
                assert!(
                    plan.leaves.iter().any(|leaf| {
                        leaf.process == Some(step.process) && leaf.route == Route::Gather
                    }),
                    "`{}` takes nothing in and is not a declared gather",
                    step.process
                );
                continue;
            }
            assert_eq!(step.input_g, step.output_g, "step `{}` does not balance", step.process);
        }
    }
}

#[test]
fn every_counted_good_declares_a_unit_mass() {
    let counted = counted_goods();
    assert_eq!(counted, vec!["hatchet"], "the stone rung's one tool");
    for name in counted {
        let entry = substance(name).expect("declared");
        assert!(
            entry.unit_mass.num > 0,
            "`{name}` is counted and weighs nothing, so it cannot enter the ledger"
        );
    }
}

#[test]
fn every_declared_table_entry_is_accounted_for() {
    let defects = table_defects();
    assert!(defects.is_empty(), "the tables are short: {defects:#?}");
}

#[test]
fn one_worked_tile_is_worth_about_a_house_and_a_half() {
    assert_eq!(TILE_AREA_CM2, 640_000, "an 8 m tile is 64 m²");
    assert_eq!(tile_volume_ml(), 128_000_000, "a 2 m seam is 128 m³");
    let iron = deposit_kinds()
        .iter()
        .position(|kind| kind.substance == "iron_ore")
        .expect("iron is declared");
    assert_eq!(full_tile_mass_g(iron), 345_600_000, "345.6 t of ore in one tile, in exact grams");
    assert_eq!(mass_g(iron, RICHNESS_ONE / 2), full_tile_mass_g(iron) / 2);
    assert_eq!(mass_g(iron, 0), 0, "a thin edge holds nothing");
}

#[test]
fn the_same_seed_and_tile_always_give_the_same_deposit() {
    for x in (0..256).step_by(7) {
        for y in (0..256).step_by(11) {
            assert_eq!(deposit(0xC117_2026, x, y), deposit(0xC117_2026, x, y));
        }
    }
}

#[test]
fn a_different_seed_is_a_different_world() {
    let mut differences = 0;
    for x in 0..128 {
        for y in 0..128 {
            if deposit(1, x, y) != deposit(2, x, y) {
                differences += 1;
            }
        }
    }
    assert!(differences > 2_000, "two seeds agreed almost everywhere: {differences}");
}

#[test]
fn deposits_form_regions_rather_than_confetti() {
    let seed = 0xC117_2026;
    let mut deposited = 0;
    let mut with_deposited_neighbour = 0;
    for x in 0..255 {
        for y in 0..255 {
            if deposit(seed, x, y).is_none() {
                continue;
            }
            deposited += 1;
            if deposit(seed, x + 1, y).is_some() || deposit(seed, x, y + 1).is_some() {
                with_deposited_neighbour += 1;
            }
        }
    }
    let fraction = deposited as f64 / (255.0 * 255.0);
    assert!(
        (0.05..0.45).contains(&fraction),
        "deposits cover {fraction:.3} of the map, which is neither barren nor carpet"
    );
    assert!(
        with_deposited_neighbour as f64 / deposited as f64 > 0.5,
        "most deposits should have a deposited neighbour, so the field is regional"
    );
}

#[test]
fn every_declared_kind_is_actually_reachable() {
    let seed = 0xC117_2026;
    let kinds = deposit_kinds();
    let mut seen = vec![false; kinds.len()];
    for x in (0..4096).step_by(13) {
        for y in (0..4096).step_by(17) {
            if let Some(found) = deposit(seed, x, y) {
                seen[found.kind] = true;
            }
        }
    }
    for (index, kind) in kinds.iter().enumerate() {
        assert!(seen[index], "`{}` is declared but never occurs", kind.substance);
        assert!(
            substance(kind.substance).is_some(),
            "`{}` is a deposit and not a substance in the table",
            kind.substance
        );
    }
}

#[test]
fn a_patch_holds_one_substance() {
    let seed = 0xC117_2026;
    let mut same_as_the_next_tile = 0;
    let mut compared = 0;
    for x in 0..512 {
        for y in (0..512).step_by(5) {
            if let (Some(left), Some(right)) = (deposit(seed, x, y), deposit(seed, x + 1, y)) {
                compared += 1;
                if left.kind == right.kind {
                    same_as_the_next_tile += 1;
                }
            }
        }
    }
    assert!(compared > 100, "the sample found too few adjacent deposits");
    assert!(
        same_as_the_next_tile as f64 / compared as f64 > 0.95,
        "kinds are being re-sliced every tile: {same_as_the_next_tile}/{compared}"
    );
}

#[test]
fn every_structure_kind_declares_a_mass() {
    for kind in [
        BuildingKind::Home,
        BuildingKind::Shop,
        BuildingKind::Factory,
        BuildingKind::PowerPlant,
    ] {
        let mass = structure_mass_g(kind.name(), 1)
            .unwrap_or_else(|| panic!("{} has no declared mass", kind.name()));
        assert!(mass > 0, "{} weighs nothing", kind.name());
        assert_eq!(
            structure_mass_g(kind.name(), 3),
            Some(mass * 3),
            "level scales mass exactly, in integers"
        );
    }
    assert_eq!(structure_mass_g("a kind nobody declared", 1), None);
}

#[test]
fn level_zero_still_weighs_what_a_building_weighs() {
    assert_eq!(structure_mass_g("home", 0), structure_mass_g("home", 1));
}

#[test]
fn one_worked_tile_of_ore_is_worth_several_houses_of_rock() {
    let iron = deposit_kinds()
        .iter()
        .position(|kind| kind.substance == "iron_ore")
        .expect("iron ore is a declared deposit kind");
    let tile = full_tile_mass_g(iron);
    let home = structure_mass_g("home", 1).expect("declared");

    assert_eq!(tile, 345_600_000, "128 m³ of ore at 2.7 t/m³, exact");
    assert_eq!(tile / home, 3, "one full tile is three houses of ore, before recovery");
    assert!(tile > home, "a tile that could not build a house would make mining pointless");
}

#[test]
fn an_unweighable_structure_is_reported_by_a_balanced_audit() {
    let audit = MassAudit {
        defects: vec!["structure 3 could not be weighed".to_string()],
        ..Default::default()
    };
    assert!(audit.conserves(), "a held-nothing world conserves trivially");
    assert_eq!(audit.findings(), vec!["structure 3 could not be weighed"]);
}

#[test]
fn a_quiet_world_balances_at_zero() {
    let ledger = Ledger::new();
    assert!(ledger.balances());
    assert_eq!(ledger.total_g(), 0);
    assert!(ledger.findings().is_empty(), "an empty ledger has nothing to report");
}

#[test]
fn the_ground_goes_down_exactly_as_the_city_goes_up() {
    let mut ledger = Ledger::new();

    assert!(ledger
        .convert("ground:iron_ore", 345_600_000, "stock:iron_ore", 345_600_000)
        .is_none());
    assert!(ledger.balances(), "a two-sided movement cannot unbalance the world");
    assert_eq!(ledger.of("ground:iron_ore"), -345_600_000);
    assert_eq!(ledger.of("stock:iron_ore"), 345_600_000);
    assert_eq!(
        ledger.holdings().len(),
        2,
        "the same mass is visible on both sides, which is what makes it auditable"
    );

    assert!(ledger.convert("stock:iron_ore", 345_600_000, "stock:steel", 345_600_000).is_none());
    assert!(ledger.balances());
    assert_eq!(ledger.of("stock:iron_ore"), 0);
    assert_eq!(ledger.of("stock:steel"), 345_600_000);

    assert!(ledger.convert("stock:steel", 400, "waste:steel", 400).is_none());
    assert!(ledger.balances(), "nothing was invented and nothing was lost");
    assert!(ledger.findings().is_empty());
}

#[test]
fn a_site_and_a_carrier_hold_under_their_own_names() {
    assert_eq!(site_account(41, "timber"), "site:41:timber");
    assert_eq!(carried_account(3, "timber"), "carried:carrier-3:timber");
    assert_ne!(site_account(41, "timber"), site_account(41, "stone"));
    assert_ne!(site_account(41, "timber"), carried_account(41, "timber"));
    assert!(site_account(41, "timber").starts_with(&site_prefix(41)));
    assert!(carried_account(3, "timber").starts_with(&carried_prefix(3)));
    assert!(!site_prefix(4).starts_with(&site_prefix(41)));

    let audit = MassAudit { extracted_g: 3000, standing_g: 1000, held_g: 2000, ..Default::default() };
    assert!(audit.conserves());
    assert_eq!(audit.loose_g(), 0, "everything taken is standing or held");
    assert!(audit.holdings_are_paid_for());

    let unpaid = MassAudit { extracted_g: 3000, standing_g: 1000, held_g: 3000, ..Default::default() };
    assert!(!unpaid.conserves(), "a holding larger than the take is the defect");
    assert!(!unpaid.holdings_are_paid_for());
}

#[test]
fn a_one_sided_movement_is_the_defect() {
    let mut ledger = Ledger::new();
    ledger.record("stock:steel", 400);
    assert!(!ledger.balances(), "400 g appeared from nowhere");
    let findings = ledger.findings();
    assert!(findings.len() == 1, "one finding, not one per account: {findings:?}");
    assert!(findings[0].contains("does not balance"), "{findings:?}");
    assert!(findings[0].contains("400 g"), "{findings:?}");
}

#[test]
fn a_conversion_that_does_not_conserve_is_a_defect_not_a_rounding() {
    let mut ledger = Ledger::new();
    let defect = ledger.convert("iron_ore", 1000, "steel", 999).expect("a gram is a defect");
    assert!(defect.contains("1000 g in, 999 g out"), "{defect}");
    assert!(defect.contains("difference of 1 g"), "{defect}");
    assert_eq!(ledger.total_g(), 0, "a refused conversion changes nothing");
    assert!(ledger.balances());
}

#[test]
fn a_listing_is_stable_between_runs() {
    let build = || {
        let mut ledger = Ledger::new();
        for (account, grams) in [
            ("stock:steel", 10),
            ("ground:iron_ore", -20),
            ("stock:clay", 5),
            ("ground:iron_ore", 3),
        ] {
            ledger.record(account, grams);
        }
        ledger.entries().into_iter().map(|(name, _)| name.to_string()).collect::<Vec<_>>()
    };
    assert_eq!(build(), build());
    assert_eq!(build(), vec!["ground:iron_ore", "stock:clay", "stock:steel"], "alphabetical, and stable");
}

#[test]
fn every_defect_reported_is_a_real_one() {
    let report = verify();
    assert!(report.ok(), "the material audit found defects: {:#?}", report.defects);
}

#[test]
fn the_gate_reports_every_open_item_it_has() {
    let report = verify();
    for item in open_items() {
        assert!(
            report.lines.iter().any(|line| line.contains(item)),
            "the open list is part of the report: `{item}` was not printed"
        );
    }
}

#[test]
fn the_stone_chain_builds_a_hatchet_out_of_the_world() {
    let edge = quantity_grams("knapped_edge", Rational { num: 800, den: 1 }).expect("grams");
    let haft = quantity_grams("haft_blank", Rational { num: 2400, den: 1 }).expect("grams");
    let cord = quantity_grams("cord", Rational { num: 95, den: 1 }).expect("grams");
    let hatchet = quantity_grams("hatchet", Rational { num: 1, den: 1 }).expect("a count reaches grams");
    assert_eq!(hatchet, 2900, "one hatchet is 2900 g, from its own unit mass");
    assert_eq!(
        edge + haft + cord,
        hatchet + 395,
        "the three inputs are the hatchet plus the declared trim waste — 3295 = 2900 + 395"
    );

    let drawn: i64 = gathers().iter().map(|(_, _, grams)| grams).sum();
    assert_eq!(drawn, 3000 + 1000 + 100, "the stone rung draws 4.1 kg from the world");
    assert!(
        gathers()
            .iter()
            .all(|(_, name, _)| substance(name).is_some_and(|entry| entry.source != "made")),
        "a gather produces only what the world already holds"
    );
}

#[test]
fn a_process_that_makes_something_from_nothing_is_the_defect() {
    let fabricated = Process {
        name: "conjure brick",
        tier: "hands & stone",
        inputs: &[],
        outputs: &[("clay", Rational { num: 1000, den: 1 })],
        mechanism: processes()[0].mechanism,
        requires: &[],
        note: "",
    };
    assert_eq!(substance("clay").expect("declared").source, "mined");
    assert!(fabricated.inputs.is_empty() && !fabricated.outputs.is_empty());
    let made = substance("haft_blank").expect("declared");
    assert_eq!(made.source, "made", "a made good must come from a process with inputs");
    for declared in processes() {
        if declared.inputs.is_empty() {
            for (name, _) in declared.outputs {
                assert_ne!(
                    substance(name).expect("declared").source,
                    "made",
                    "`{}` conjures a made good",
                    declared.name
                );
            }
        }
    }
}

#[test]
fn a_conversion_that_would_round_is_refused() {
    let hatchet = substance("hatchet").expect("declared");
    assert_eq!(grams(&hatchet, Rational { num: 1, den: 1 }), Some(2900));
    assert_eq!(
        grams(&hatchet, Rational { num: 1, den: 3 }),
        None,
        "a third of a hatchet is not a number of grams"
    );
    assert_eq!(quantity_grams("nobody declared this", Rational { num: 1, den: 1 }), None);
    let water = substance("water").expect("declared");
    assert_eq!(grams(&water, Rational { num: 1500, den: 1 }), Some(1500), "1 mL is 1 g");
}

#[test]
fn the_unit_list_is_closed_and_quotes_itself() {
    for unit in Unit::ALL.iter() {
        assert_eq!(Unit::named(unit.name()), Some(*unit));
    }
    assert_eq!(Unit::named("Bushel"), None);
    assert_eq!(Unit::named(""), None);
    assert_eq!(Unit::Mass.needs(), None, "grams are grams");
    assert_eq!(Unit::Volume.needs(), Some("density"));
    assert_eq!(Unit::Count.needs(), Some("unit_mass"));
}

#[test]
fn an_age_gates_the_work_inside_it() {
    assert_eq!(tier_ordinal("hands & stone"), Some(0));
    assert_eq!(tier_ordinal("bound & composite"), Some(1));
    assert_eq!(tier_ordinal("the age nobody wrote"), None);

    let bind = process("twist cord").expect("declared");
    assert!(reachable(&bind, 1), "binding is reachable once its age is reached");
    assert!(!reachable(&bind, 0), "and not before");
    let knap = process("knap a core").expect("declared");
    assert!(reachable(&knap, 0), "the stone age is where knapping lives");
}

#[test]
fn the_gate_reports_every_defect_and_every_open_item() {
    let report = verify();
    assert!(report.ok(), "the schema audit found defects: {:#?}", report.defects);
    for item in schema_open() {
        assert!(
            report.lines.iter().any(|line| line.contains(item)),
            "the open list is part of the report: `{item}` was not printed"
        );
    }
    assert!(report.lines.iter().any(|line| line.contains("substances")), "the report states what it read");
}

#[test]
fn the_same_seed_and_tile_always_give_the_same_patch() {
    for x in (0..256).step_by(5) {
        for y in (0..256).step_by(9) {
            assert_eq!(surface(0xC117_2026, x, y), surface(0xC117_2026, x, y));
        }
    }
    assert_eq!(surface(7, 40, 40), surface(7, 40, 40));
}

#[test]
fn every_declared_kind_grows_a_gathered_substance() {
    let seed = 0xC117_2026;
    let kinds = surface_kinds();
    let mut seen = vec![false; kinds.len()];
    for x in (0..2048).step_by(11) {
        for y in (0..2048).step_by(13) {
            if let Some(found) = surface(seed, x, y) {
                seen[found.kind] = true;
            }
        }
    }
    for (index, kind) in kinds.iter().enumerate() {
        assert!(seen[index], "`{}` is declared but never grows anywhere", kind.substance);
        let entry = substance(kind.substance)
            .unwrap_or_else(|| panic!("`{}` is a surface and not a substance", kind.substance));
        assert_eq!(
            entry.source, "gathered",
            "`{}` grows on the ground and the table does not declare it gathered",
            kind.substance
        );
        assert!(kind.base_g > 0, "`{}` holds nothing at all", kind.substance);
        assert!(
            kind.regrowth_g_per_day > 0,
            "`{}` is a renewable with no declared cycle, so Q108 is unanswerable for it",
            kind.substance
        );
    }
}

#[test]
fn patches_form_regions_rather_than_confetti() {
    let seed = 0xC117_2026;
    let (mut grown, mut with_grown_neighbour) = (0, 0);
    for x in 0..255 {
        for y in 0..255 {
            if surface(seed, x, y).is_none() {
                continue;
            }
            grown += 1;
            if surface(seed, x + 1, y).is_some() || surface(seed, x, y + 1).is_some() {
                with_grown_neighbour += 1;
            }
        }
    }
    let fraction = grown as f64 / (255.0 * 255.0);
    assert!(
        (0.05..0.80).contains(&fraction),
        "patches cover {fraction:.3} of the map, which is neither barren nor carpet"
    );
    assert!(
        with_grown_neighbour as f64 / grown as f64 > 0.6,
        "most patches should have a grown neighbour, so the field is regional"
    );
}

fn kind_named(substance_name: &str) -> usize {
    surface_kinds()
        .iter()
        .position(|kind| kind.substance == substance_name)
        .expect("declared")
}

#[test]
fn a_patch_grows_back_with_elapsed_time() {
    let brush = kind_named("plant_fibre");
    let base = full_mass_g(brush);
    let rate = tile_regrowth_g_per_day(brush, base);
    let day = 10;

    assert_eq!(standing_g(base, rate, 0, 0, false, 0), base);
    assert_eq!(standing_g(base, rate, 0, 0, false, 10_000), base);

    let take_now = take(base, rate, 0, 0, false, day, base / 2);
    assert_eq!(take_now.taken_g, base / 2, "half the patch, exactly");
    assert_eq!(take_now.harvested_g, base / 2);
    assert!(!take_now.stripped, "half a patch is not stripped soil");
    assert_eq!(
        standing_g(base, rate, take_now.harvested_g, day, false, day),
        base / 2,
        "the day of the take is the patch it left"
    );

    let grown = standing_g(base, rate, take_now.harvested_g, day, false, day + 20);
    assert_eq!(grown, base / 2 + rate * 20, "regrowth is the declared rate times elapsed sim-days");
    assert!(grown > base / 2, "and a patch without a take is a patch that grows");

    assert_eq!(rate, kind_regrowth(brush), "a full tile regrows at the declared rate");
    assert!(tile_regrowth_g_per_day(brush, base / 4) < rate);
}

#[test]
fn growing_back_does_not_lower_what_the_ground_gave_up() {
    let brush = kind_named("plant_fibre");
    let base = full_mass_g(brush);
    let rate = tile_regrowth_g_per_day(brush, base);
    let first = take(base, rate, 0, 0, false, 0, base / 4);
    let second = take(base, rate, first.harvested_g, 0, first.stripped, 360, base / 4);
    assert!(second.harvested_g > first.harvested_g, "{second:?}");
    assert_eq!(
        second.harvested_g,
        first.harvested_g + second.taken_g,
        "the total is the sum of the takes, and regrowth is not a negative one"
    );
}

#[test]
fn a_patch_stripped_to_the_soil_does_not_grow_back() {
    let stand = kind_named("timber");
    let base = full_mass_g(stand);
    let rate = tile_regrowth_g_per_day(stand, base);

    let stripped = take(base, rate, 0, 0, false, 0, base - base / 20);
    assert!(stripped.stripped, "less than a tenth left is stripped soil: {stripped:?}");
    assert_eq!(
        standing_g(base, rate, stripped.harvested_g, 0, true, 100_000),
        0,
        "a stripped patch grows nothing, however long you wait"
    );

    let kept = take(base, rate, 0, 0, false, 0, base - base / 5);
    assert!(!kept.stripped, "a fifth left is a patch that will return: {kept:?}");
    assert!(
        standing_g(base, rate, kept.harvested_g, 0, false, 200) > base / 5,
        "and it returns at the declared rate"
    );
}

#[test]
fn a_take_is_bounded_by_what_the_patch_holds() {
    let stand = kind_named("timber");
    let base = full_mass_g(stand);
    let rate = tile_regrowth_g_per_day(stand, base);
    let greedy = take(base, rate, 0, 0, false, 0, base * 4);
    assert_eq!(greedy.taken_g, base, "the patch gives up what it has, and no more");
    assert_eq!(
        standing_g(base, rate, greedy.harvested_g, 0, false, 0),
        0,
        "and it is bare, not negative"
    );
    let nothing = take(base, rate, 0, 0, false, 0, -5);
    assert_eq!(nothing.taken_g, 0, "a negative want takes nothing");
}

#[test]
fn a_thin_edge_holds_proportionally_less() {
    for kind in 0..surface_kinds().len() {
        let full = full_mass_g(kind);
        assert_eq!(ala_cities::materials::surface::mass_g(kind, RICHNESS_ONE), full);
        assert_eq!(ala_cities::materials::surface::mass_g(kind, RICHNESS_ONE / 2), full / 2);
        assert_eq!(ala_cities::materials::surface::mass_g(kind, 0), 0);
    }
}

#[test]
fn every_declared_world_part_resolves_to_a_declared_material() {
    let report = verify();
    assert!(report.ok(), "the audit found defects in the declared world: {:#?}", report.defects);
}

#[test]
fn a_plan_says_what_it_was_asked_for() {
    let plan = plan("hatchet", 2900).expect("the stone rung reaches the ground");
    assert_eq!(plan.wanted, vec![("hatchet", 2900)]);
    let described = plan.describe();
    assert_eq!(described.lines().next(), Some("plan: 2900 g hatchet from 4100 g of the world, 7 step(s)"));
    assert_eq!(described.lines().count(), 1 + plan.leaves.len() + plan.steps.len());
    assert_eq!(described.lines().last(), Some("  run assemble the hatchet ×1 (3295 g in, 3295 g out)"));
}

#[test]
fn a_prefix_names_one_holder_either_way_round() {
    assert!(!site_prefix(41).starts_with(&site_prefix(4)));
    assert!(!site_account(4, "1:timber").starts_with(&site_prefix(41)), "a substance cannot pass for a tile");
    assert!(!carried_prefix(3).starts_with(&carried_prefix(30)));
    assert!(site_account(4, "timber").starts_with(&site_prefix(4)));
}

#[test]
fn every_plan_does_its_work_dependencies_first() {
    for (name, _) in producible() {
        let plan = plan(name, 1000).expect("plans");
        for (i, step) in plan.steps.iter().enumerate() {
            let row = process(step.process).expect("a step runs a process of the table");
            for (input, amount) in row.inputs {
                if quantity_grams(input, *amount).map_or(true, |g| g <= 0) {
                    continue;
                }
                let declared = substance(input).expect("declared").name;
                let from_the_world = plan.leaves.iter().any(|leaf| leaf.substance == declared);
                let made_earlier = plan.steps[..i].iter().any(|earlier| {
                    process(earlier.process)
                        .is_some_and(|p| p.outputs.iter().any(|(out, _)| *out == declared))
                });
                assert!(
                    from_the_world || made_earlier,
                    "`{}` in the plan for `{name}` uses `{declared}` before anything makes it",
                    step.process
                );
            }
        }
        assert!(
            plan.steps.last().is_some_and(|last| {
                process(last.process).is_some_and(|p| p.outputs.iter().any(|(out, _)| *out == name))
            }) || plan.leaves.iter().any(|leaf| leaf.substance == name),
            "what was asked for, `{name}`, is in hand at the end"
        );
    }
}

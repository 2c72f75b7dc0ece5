use ala_cities::materials::generated::{icon_family_names, processes, world_family_names, world_surfaces};
use ala_cities::materials::schema::process_totals;
use ala_cities::materials::world::{parts, parts_of, rules, Family};
use ala_cities::materials::{is_icon_family, material_of_part};

#[test]
fn a_structure_resolves_to_the_parts_it_is_made_of() {
    let home = parts_of("home");
    assert_eq!(home.len(), 3, "a home is three parts: {home:#?}");
    let materials: Vec<&str> = home
        .iter()
        .map(|part| material_of_part(part.part).expect("resolves").name)
        .collect();
    assert_eq!(materials, vec!["ceramic:natural", "polymer:amber:edge", "glass:cyan"]);
}

#[test]
fn every_process_balances_in_exact_grams() {
    let mut unbalanced = Vec::new();
    for process in processes() {
        if process.inputs.is_empty() {
            continue;
        }
        let (taken, given) = process_totals(&process);
        match (taken, given) {
            (Some(into), Some(out)) if into == out => {}
            (Some(into), Some(out)) => unbalanced.push(format!(
                "`{}`: in {into} g, out {out} g, difference {} g",
                process.name,
                into - out
            )),
            _ => unbalanced.push(format!("`{}`: does not total in whole grams", process.name)),
        }
    }
    assert!(unbalanced.is_empty(), "{unbalanced:#?}");
}

#[test]
fn the_declared_mapping_and_the_emitted_copy_agree() {
    let surfaces = world_surfaces();
    assert_eq!(
        parts().len() + rules().len(),
        surfaces.len(),
        "the declared mapping and the emitted copy describe different worlds"
    );
    for part in parts() {
        let row = surfaces
            .iter()
            .find(|(name, ..)| *name == part.part)
            .unwrap_or_else(|| panic!("`{}` is declared and missing from the emitted copy", part.part));
        assert_eq!(row.1, part.family.as_str(), "{} family", part.part);
        assert_eq!(row.2, part.hue.as_str(), "{} hue", part.part);
        assert_eq!(row.3, part.level.as_str(), "{} level", part.part);
    }
}

#[test]
fn an_icon_may_only_be_made_of_the_seven() {
    let icon = icon_family_names();
    assert_eq!(icon.len(), 7, "the icon set is seven families, not {}", icon.len());
    for family in [Family::Metal, Family::Paper, Family::Ceramic, Family::Glass, Family::Polymer, Family::Road, Family::Enamel] {
        assert!(family.is_icon(), "{} must be available to an icon", family.as_str());
        assert!(icon.contains(&family.as_str()), "{} is missing from the icon set", family.as_str());
    }
    for family in [Family::Water, Family::Organic, Family::Soil] {
        assert!(!family.is_icon(), "{} is a world material, not an icon material", family.as_str());
        assert!(!icon.contains(&family.as_str()), "{} leaked into the icon set", family.as_str());
    }
}

#[test]
fn no_family_is_both_icon_and_world() {
    for icon in icon_family_names() {
        for world in world_family_names() {
            assert_ne!(icon, world, "`{icon}` is declared twice");
        }
        assert!(is_icon_family(icon));
    }
}

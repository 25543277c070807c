use sim_systems::materials::{select_material_for_tags, str_less, Material};

fn material(id: &str, tags: &[&str]) -> Material {
    Material { id: id.to_string(), tags: tags.iter().map(|t| t.to_string()).collect() }
}

#[test]
fn preferred_tag_wins_then_smallest_id() {
    let ms = vec![
        material("pine", &["building_material", "wood"]),
        material("granite", &["building_material", "stone"]),
        material("oak", &["building_material", "wood"]),
        material("clay", &["pottery"]),
    ];
    let required = vec!["building_material".to_string()];
    assert_eq!(select_material_for_tags(&ms, &required, Some("wood")), Some(2));
    assert_eq!(select_material_for_tags(&ms, &required, Some("stone")), Some(1));
    assert_eq!(select_material_for_tags(&ms, &required, Some("glass")), Some(1));
    assert_eq!(select_material_for_tags(&ms, &required, None), Some(1));
    assert_eq!(select_material_for_tags(&ms, &vec!["roof_material".to_string()], None), None);
    assert_eq!(select_material_for_tags(&ms, &vec![], Some("pottery")), Some(3));
}

#[test]
fn str_order_is_bytewise() {
    assert!(str_less("granite", "oak"));
    assert!(!str_less("oak", "granite"));
    assert!(str_less("oak", "oaks"));
    assert!(!str_less("oak", "oak"));
    assert!(str_less("Zed", "apple"));
}

use sim_systems::materials::{structure_requirement_tags, RequirementKind, StructureRequirement};

#[test]
fn requirement_tags_fall_back_when_missing_or_empty() {
    let reqs = vec![
        StructureRequirement { kind: RequirementKind::Other, tags: vec!["x".to_string()] },
        StructureRequirement { kind: RequirementKind::Wall, tags: vec!["stone".to_string(), "hard".to_string()] },
        StructureRequirement { kind: RequirementKind::Roof, tags: vec![] },
        StructureRequirement { kind: RequirementKind::Roof, tags: vec!["thatch".to_string()] },
    ];
    assert_eq!(structure_requirement_tags(Some(&reqs), RequirementKind::Wall, "building_material"), vec!["stone", "hard"]);
    // The first roof requirement names no tags: the fallback applies.
    assert_eq!(structure_requirement_tags(Some(&reqs), RequirementKind::Roof, "roof_material"), vec!["roof_material"]);
    assert_eq!(structure_requirement_tags(None, RequirementKind::Wall, "building_material"), vec!["building_material"]);
}

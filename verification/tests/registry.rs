use riposte_client::registry::{
    Assets, Building, Civilization, ItemKind, Registry, RegistryItemNotFound, Resource, Tech, UnitKind,
};

fn strings(items: &[&str]) -> Vec<String> {
    items.iter().map(|s| s.to_string()).collect()
}

fn unit(id: &str, name: &str, only_for: &[&str], replaces: Option<&str>) -> UnitKind {
    UnitKind {
        id: id.to_string(),
        name: name.to_string(),
        only_for_civs: strings(only_for),
        replaces: replaces.map(|r| r.to_string()),
    }
}

fn civ(id: &str, name: &str, techs: &[&str]) -> Civilization {
    Civilization { id: id.to_string(), name: name.to_string(), starting_techs: strings(techs) }
}

fn building(name: &str, only_for: &[&str], replaces: Option<&str>) -> Building {
    Building { name: name.to_string(), only_for_civs: strings(only_for), replaces: replaces.map(|r| r.to_string()) }
}

fn assets() -> Assets {
    Assets {
        unit_kinds: vec![
            unit("warrior", "Warrior", &[], None),
            unit("swordsman", "Swordsman", &[], None),
            unit("legion", "Legion", &["rome"], Some("swordsman")),
            unit("settler", "Settler", &[], None),
        ],
        civs: vec![civ("rome", "Rome", &["Bronze Working", "Masonry"]), civ("greece", "Greece", &[])],
        buildings: vec![
            building("Marketplace", &[], None),
            building("Forum", &["rome"], Some("Marketplace")),
            building("Granary", &[], None),
        ],
        techs: vec![Tech { name: "Masonry".to_string() }, Tech { name: "Bronze Working".to_string() }],
        resources: vec![Resource { id: "iron".to_string(), name: "Iron".to_string() }],
    }
}

fn loaded() -> Registry {
    let mut registry = Registry::new();
    registry.load_from_assets(assets());
    registry
}

#[test]
fn items_are_found_by_id() {
    let registry = loaded();
    assert_eq!(registry.unit_kind("warrior").unwrap().name, "Warrior");
    assert_eq!(registry.civ("greece").unwrap().name, "Greece");
    assert_eq!(registry.building("Granary").unwrap().name, "Granary");
    assert_eq!(registry.tech("Masonry").unwrap().name, "Masonry");
    assert_eq!(registry.resource("iron").unwrap().name, "Iron");
    assert_eq!(registry.num_civs(), 2);
    let handle = registry.item(ItemKind::UnitKind, "settler").unwrap();
    assert_eq!(registry.unit_kinds().len(), 4);
    assert!(registry.handles(ItemKind::UnitKind).contains(&handle));
}

#[test]
fn missing_items_name_their_kind_and_id() {
    let registry = loaded();
    let err = registry.unit_kind("Granary").unwrap_err();
    assert_eq!(err.0, "unit kind");
    assert_eq!(err.1, "Granary");
    assert_eq!(err.message(), "no unit kind exists with ID 'Granary'");
    assert_eq!(registry.tech("Writing").unwrap_err().message(), "no tech exists with ID 'Writing'");
    assert_eq!(registry.resource("gold").unwrap_err().0, "resource");
    assert_eq!(registry.civ("egypt").unwrap_err().0, "civilization");
    assert_eq!(registry.building("Temple").unwrap_err().0, "building");
    assert_eq!(registry.item(ItemKind::Civilization, "egypt").unwrap_err().0, "civilization");
}

#[test]
fn error_message_format() {
    let err = RegistryItemNotFound("civilization", "babylon".to_string());
    assert_eq!(err.message(), "no civilization exists with ID 'babylon'");
}

#[test]
fn items_are_listed_alphabetically() {
    let registry = loaded();
    let units: Vec<&str> = registry.unit_kinds().iter().map(|u| u.name.as_str()).collect();
    assert_eq!(units, vec!["Legion", "Settler", "Swordsman", "Warrior"]);
    let civs: Vec<&str> = registry.civs().iter().map(|c| c.name.as_str()).collect();
    assert_eq!(civs, vec!["Greece", "Rome"]);
    let buildings: Vec<&str> = registry.buildings().iter().map(|b| b.name.as_str()).collect();
    assert_eq!(buildings, vec!["Forum", "Granary", "Marketplace"]);
    let techs: Vec<&str> = registry.techs().iter().map(|t| t.name.as_str()).collect();
    assert_eq!(techs, vec!["Bronze Working", "Masonry"]);
    assert_eq!(registry.resources().len(), 1);
}

#[test]
fn equal_names_keep_their_loading_order() {
    let mut registry = Registry::new();
    registry.load_from_assets(Assets {
        unit_kinds: vec![unit("b", "Scout", &[], None), unit("a", "Scout", &[], None), unit("c", "Archer", &[], None)],
        civs: vec![],
        buildings: vec![],
        techs: vec![],
        resources: vec![],
    });
    let ids: Vec<&str> = registry.unit_kinds().iter().map(|u| u.id.as_str()).collect();
    assert_eq!(ids, vec!["c", "b", "a"]);
}

#[test]
fn loading_again_replaces_items_with_the_same_id() {
    let mut registry = loaded();
    registry.load_from_assets(Assets {
        unit_kinds: vec![unit("warrior", "Brave", &[], None)],
        civs: vec![],
        buildings: vec![],
        techs: vec![],
        resources: vec![],
    });
    assert_eq!(registry.unit_kind("warrior").unwrap().name, "Brave");
    assert_eq!(registry.unit_kinds().len(), 4);
    let units: Vec<&str> = registry.unit_kinds().iter().map(|u| u.name.as_str()).collect();
    assert_eq!(units, vec!["Brave", "Legion", "Settler", "Swordsman"]);
}

#[test]
fn unique_units_and_buildings_replace_others() {
    let registry = loaded();
    let rome = registry.civ("rome").unwrap();
    let greece = registry.civ("greece").unwrap();
    let swordsman = registry.unit_kind("swordsman").unwrap();
    let warrior = registry.unit_kind("warrior").unwrap();
    assert!(registry.is_unit_replaced_for_civ(swordsman, rome));
    assert!(!registry.is_unit_replaced_for_civ(swordsman, greece));
    assert!(!registry.is_unit_replaced_for_civ(warrior, rome));
    let marketplace = registry.building("Marketplace").unwrap();
    let granary = registry.building("Granary").unwrap();
    assert!(registry.is_building_replaced_for_civ(marketplace, rome));
    assert!(!registry.is_building_replaced_for_civ(marketplace, greece));
    assert!(!registry.is_building_replaced_for_civ(granary, rome));
}

#[test]
fn civilizations_are_described() {
    let registry = loaded();
    let rome = registry.civ("rome").unwrap();
    assert_eq!(registry.describe_civ(rome), "Rome (Bronze Working, Masonry, Legion, Forum)");
    let greece = registry.civ("greece").unwrap();
    assert_eq!(registry.describe_civ(greece), "Greece");
}

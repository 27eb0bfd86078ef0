use winshoweq::spawn_filter::{FilterEntry, SpawnCategory, SpawnFilterUI, SpawnTypeFilter};

fn make_entry(id: u32, race: &str, class: &str, level: u8, spawn_type: SpawnCategory) -> FilterEntry {
    FilterEntry {
        id,
        name: format!("spawn_{id}"),
        race: race.to_string(),
        class: class.to_string(),
        level,
        spawn_type,
    }
}

fn test_entries() -> Vec<FilterEntry> {
    vec![
        make_entry(1, "Orc", "Warrior", 20, SpawnCategory::Npc),
        make_entry(2, "Orc", "Shaman", 25, SpawnCategory::Npc),
        make_entry(3, "Gnoll", "Warrior", 15, SpawnCategory::Npc),
        make_entry(4, "Human", "Ranger", 60, SpawnCategory::Pc),
        make_entry(5, "Orc", "Warrior", 30, SpawnCategory::Corpse),
    ]
}

#[test]
fn default_is_not_active() {
    let f = SpawnFilterUI::default();
    assert!(!f.is_active());
}

#[test]
fn apply_filters_returns_all_when_inactive() {
    let mut f = SpawnFilterUI::default();
    f.update_spawns(test_entries());
    assert_eq!(f.apply_filters().len(), 5);
}

#[test]
fn filter_by_race() {
    let mut f = SpawnFilterUI::default();
    f.update_spawns(test_entries());
    f.selected_race = Some("Orc".to_string());
    assert!(f.is_active());
    let ids = f.apply_filters();
    assert!(ids.contains(&1));
    assert!(ids.contains(&2));
    assert!(ids.contains(&5));
    assert!(!ids.contains(&3));
    assert!(!ids.contains(&4));
}

#[test]
fn filter_by_class() {
    let mut f = SpawnFilterUI::default();
    f.update_spawns(test_entries());
    f.selected_class = Some("Warrior".to_string());
    let ids = f.apply_filters();
    assert!(ids.contains(&1));
    assert!(ids.contains(&3));
    assert!(ids.contains(&5));
    assert!(!ids.contains(&2));
    assert!(!ids.contains(&4));
}

#[test]
fn filter_by_race_and_class() {
    let mut f = SpawnFilterUI::default();
    f.update_spawns(test_entries());
    f.selected_race = Some("Orc".to_string());
    f.selected_class = Some("Warrior".to_string());
    let ids = f.apply_filters();
    assert!(ids.contains(&1));
    assert!(ids.contains(&5));
    assert!(!ids.contains(&2));
    assert!(!ids.contains(&3));
}

#[test]
fn filter_by_level_min() {
    let mut f = SpawnFilterUI::default();
    f.update_spawns(test_entries());
    f.level_min = 20;
    assert!(f.is_active());
    let ids = f.apply_filters();
    assert!(!ids.contains(&3));
    assert!(ids.contains(&1));
}

#[test]
fn filter_by_level_max() {
    let mut f = SpawnFilterUI::default();
    f.update_spawns(test_entries());
    f.level_max = 25;
    assert!(f.is_active());
    let ids = f.apply_filters();
    assert!(ids.contains(&1));
    assert!(ids.contains(&2));
    assert!(ids.contains(&3));
    assert!(!ids.contains(&4));
}

#[test]
fn filter_by_type_npc() {
    let mut f = SpawnFilterUI::default();
    f.update_spawns(test_entries());
    f.spawn_type_filter = SpawnTypeFilter::Npc;
    assert!(f.is_active());
    let ids = f.apply_filters();
    assert!(ids.contains(&1));
    assert!(ids.contains(&2));
    assert!(ids.contains(&3));
    assert!(!ids.contains(&4));
    assert!(!ids.contains(&5));
}

#[test]
fn filter_by_type_pc() {
    let mut f = SpawnFilterUI::default();
    f.update_spawns(test_entries());
    f.spawn_type_filter = SpawnTypeFilter::Pc;
    let ids = f.apply_filters();
    assert_eq!(ids, [4].into());
}

#[test]
fn filter_by_type_corpse() {
    let mut f = SpawnFilterUI::default();
    f.update_spawns(test_entries());
    f.spawn_type_filter = SpawnTypeFilter::Corpse;
    let ids = f.apply_filters();
    assert_eq!(ids, [5].into());
}

#[test]
fn update_spawns_builds_race_list() {
    let mut f = SpawnFilterUI::default();
    f.update_spawns(test_entries());
    assert!(f.races().contains(&"Orc".to_string()));
    assert!(f.races().contains(&"Gnoll".to_string()));
    assert!(f.races().contains(&"Human".to_string()));
    assert!(f.races().windows(2).all(|w| w[0] <= w[1]), "races must be sorted");
}

#[test]
fn update_spawns_classes_cascade_by_race() {
    let mut f = SpawnFilterUI::default();
    f.update_spawns(test_entries());
    let orc_classes = f.classes_for_race("Orc").unwrap();
    assert!(orc_classes.contains(&"Warrior".to_string()));
    assert!(orc_classes.contains(&"Shaman".to_string()));
    assert!(!orc_classes.contains(&"Ranger".to_string()));
}

#[test]
fn update_spawns_preserves_valid_selection() {
    let mut f = SpawnFilterUI::default();
    f.update_spawns(test_entries());
    f.selected_race = Some("Orc".to_string());
    f.update_spawns(test_entries());
    assert_eq!(f.selected_race, Some("Orc".to_string()));
}

#[test]
fn update_spawns_clears_stale_race() {
    let mut f = SpawnFilterUI::default();
    f.update_spawns(test_entries());
    f.selected_race = Some("Orc".to_string());
    f.selected_class = Some("Warrior".to_string());
    f.update_spawns(vec![make_entry(10, "Gnoll", "Warrior", 10, SpawnCategory::Npc)]);
    assert_eq!(f.selected_race, None);
    assert_eq!(f.selected_class, None);
}

#[test]
fn reset_clears_all_filters() {
    let mut f = SpawnFilterUI::default();
    f.update_spawns(test_entries());
    f.selected_race = Some("Orc".to_string());
    f.level_min = 10;
    f.level_max = 50;
    f.spawn_type_filter = SpawnTypeFilter::Npc;
    f.reset();
    assert!(!f.is_active());
}

#[test]
fn reset_passes_every_spawn() {
    let mut f = SpawnFilterUI::default();
    f.update_spawns(test_entries());
    f.selected_class = Some("Shaman".to_string());
    f.level_min = 50;
    f.reset();
    assert_eq!(f.apply_filters().len(), 5);
}

#[test]
fn pet_filter_matches_merc() {
    let mut f = SpawnFilterUI::default();
    f.update_spawns(vec![
        make_entry(1, "---", "---", 1, SpawnCategory::Pet),
        make_entry(2, "---", "---", 1, SpawnCategory::Merc),
        make_entry(3, "---", "---", 1, SpawnCategory::Npc),
    ]);
    f.spawn_type_filter = SpawnTypeFilter::Pet;
    let ids = f.apply_filters();
    assert!(ids.contains(&1));
    assert!(ids.contains(&2));
    assert!(!ids.contains(&3));
}

#[test]
fn type_filter_labels() {
    assert_eq!(SpawnTypeFilter::All.label(), "All Types");
}

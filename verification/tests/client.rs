use winshoweq::config::{parse_ini, ClientConfig};
use winshoweq::filters::{extract_old_filter_name, FilterCategory, FilterSet};
use winshoweq::game_data::GameData;
use winshoweq::protocol::{
    decode_packet, name_from_bytes, InGameTime, Packet, SpawnRecord, OPT_GROUND, OPT_PROCESS,
    OPT_SELF, OPT_SPAWNS, OPT_TARGET, OPT_WORLD, OPT_ZONE, RECORD_SIZE,
};
use winshoweq::spawns::{con_color, ConColor, SpawnInfo, SpawnStore};
use winshoweq::stores::{AnnotationStore, GroundStore};

fn rec_with_flags(flags: u32) -> SpawnRecord {
    let mut r = SpawnRecord::zeroed();
    r.flags = flags;
    r
}

fn spawn_at_level(level: u8) -> SpawnRecord {
    let mut rec = SpawnRecord::zeroed();
    rec.level = level;
    rec.flags = OPT_SPAWNS;
    rec
}

// ── config ──────────────────────────────────────────────────────────────────

#[test]
fn parse_defaults_when_file_missing() {
    let cfg = ClientConfig::load(None);
    assert_eq!(cfg.server_ip, "127.0.0.1");
    assert_eq!(cfg.server_port, 5555);
    assert_eq!(cfg.update_delay_ms, 250);
}

#[test]
fn parse_ini_reads_sections_and_keys() {
    let ini = "[WinShowEQ]\nServer=192.168.1.1\nPort=9000\nRate=500\n\
               [Directories]\nCfgDir=mycfg\nLogDir=mylogs\n";
    let sections = parse_ini(ini);
    assert_eq!(sections.get("winshoweq", "server").unwrap(), "192.168.1.1");
    assert_eq!(sections.get("winshoweq", "port").unwrap(), "9000");
    assert_eq!(sections.get("directories", "cfgdir").unwrap(), "mycfg");
}

#[test]
fn parse_ini_ignores_comments() {
    let ini = "; this is a comment\n[WinShowEQ]\n# also a comment\nServer=10.0.0.1\n";
    let sections = parse_ini(ini);
    assert_eq!(sections.get("winshoweq", "server").unwrap(), "10.0.0.1");
}

#[test]
fn config_reads_server_section() {
    let cfg = ClientConfig::load(Some("[WinShowEQ]\nServer=10.1.2.3\nPort=6000\nRate=100\n"));
    assert_eq!(cfg.server_ip, "10.1.2.3");
    assert_eq!(cfg.server_port, 6000);
    assert_eq!(cfg.update_delay_ms, 100);
}

#[test]
fn parse_ini_missing_key_is_none() {
    let sections = parse_ini("[A]\nx=1\n");
    assert!(sections.get("a", "y").is_none());
    assert!(sections.get("b", "x").is_none());
}

// ── annotations and ground items ────────────────────────────────────────────

#[test]
fn add_and_remove() {
    let mut store = AnnotationStore::default();
    store.add("Test note".to_owned(), 100.0f32.to_bits(), 200.0f32.to_bits(), 0.0f32.to_bits(), [255, 255, 0], 12);
    assert_eq!(store.items.len(), 1);
    let id = store.items[0].id;
    store.remove(id);
    assert!(store.items.is_empty());
}

#[test]
fn ids_increment() {
    let mut store = AnnotationStore::default();
    store.add("A".to_owned(), 0, 0, 0, [255, 255, 255], 12);
    store.add("B".to_owned(), 0, 0, 0, [255, 255, 255], 12);
    assert_eq!(store.items[0].id, 0);
    assert_eq!(store.items[1].id, 1);
}

#[test]
fn annotation_clear_restarts_ids() {
    let mut store = AnnotationStore::default();
    store.add("A".to_owned(), 0, 0, 0, [1, 2, 3], 12);
    store.add("B".to_owned(), 0, 0, 0, [1, 2, 3], 12);
    store.clear();
    assert!(store.items.is_empty());
    store.add("C".to_owned(), 0, 0, 0, [1, 2, 3], 12);
    assert_eq!(store.items[0].id, 0);
}

#[test]
fn annotation_remove_keeps_order_of_others() {
    let mut store = AnnotationStore::default();
    store.add("A".to_owned(), 0, 0, 0, [1, 2, 3], 12);
    store.add("B".to_owned(), 0, 0, 0, [1, 2, 3], 12);
    store.add("C".to_owned(), 0, 0, 0, [1, 2, 3], 12);
    store.remove(1);
    assert_eq!(store.items.len(), 2);
    assert_eq!(store.items[0].text, "A");
    assert_eq!(store.items[1].text, "C");
}

fn make_ground_record(id: u32, name: &str, x: f32, y: f32, z: f32) -> SpawnRecord {
    let mut rec = SpawnRecord::zeroed();
    rec.id = id;
    rec.x = x.to_bits();
    rec.y = y.to_bits();
    rec.z = z.to_bits();
    rec.flags = OPT_GROUND;
    let bytes = name.as_bytes();
    let copy = bytes.len().min(rec.name.len() - 1);
    rec.name[..copy].copy_from_slice(&bytes[..copy]);
    rec
}

#[test]
fn push_and_iterate() {
    let mut store = GroundStore::new();
    store.push(&make_ground_record(0, "IT0001", 100.0, 200.0, 0.0));
    store.push(&make_ground_record(0, "IT0002", 300.0, 400.0, 0.0));
    assert_eq!(store.len(), 2);
    let names: Vec<_> = store.items().iter().map(|i| i.name.as_str()).collect();
    assert!(names.contains(&"IT0001"));
    assert!(names.contains(&"IT0002"));
}

#[test]
fn ground_item_swaps_axes() {
    let mut store = GroundStore::new();
    store.push(&make_ground_record(3, "IT9", 1.0, 2.0, 3.0));
    let item = &store.items()[0];
    assert_eq!(item.x, 2.0f32.to_bits());
    assert_eq!(item.y, 1.0f32.to_bits());
    assert_eq!(item.z, 3.0f32.to_bits());
    assert_eq!(item.id, 3);
}

#[test]
fn ignores_non_ground_record() {
    let mut store = GroundStore::new();
    let mut rec = SpawnRecord::zeroed();
    rec.flags = OPT_SPAWNS;
    store.push(&rec);
    assert!(store.is_empty());
}

#[test]
fn clear_empties_store() {
    let mut store = GroundStore::new();
    store.push(&make_ground_record(0, "IT0001", 0.0, 0.0, 0.0));
    store.push(&make_ground_record(0, "IT0002", 0.0, 0.0, 0.0));
    assert_eq!(store.len(), 2);
    store.clear();
    assert!(store.is_empty());
}

// ── con colors and spawns ───────────────────────────────────────────────────

#[test]
fn same_level_is_white() {
    assert_eq!(con_color(30, 30), ConColor::White);
    assert_eq!(con_color(1, 1), ConColor::White);
    assert_eq!(con_color(60, 60), ConColor::White);
}

#[test]
fn one_below_is_blue() {
    assert_eq!(con_color(30, 29), ConColor::Blue);
}

#[test]
fn two_below_is_light_blue() {
    assert_eq!(con_color(30, 28), ConColor::LightBlue);
    assert_eq!(con_color(30, 27), ConColor::LightBlue);
}

#[test]
fn four_below_is_green() {
    assert_eq!(con_color(30, 26), ConColor::Green);
    assert_eq!(con_color(30, 23), ConColor::Green);
}

#[test]
fn gray_boundary_at_level_30() {
    assert_eq!(con_color(30, 22), ConColor::Gray);
    assert_eq!(con_color(30, 23), ConColor::Green);
}

#[test]
fn gray_boundary_at_level_10() {
    assert_eq!(con_color(10, 5), ConColor::Gray);
    assert_eq!(con_color(10, 6), ConColor::Green);
}

#[test]
fn yellow_range() {
    assert_eq!(con_color(30, 31), ConColor::Yellow);
    assert_eq!(con_color(30, 33), ConColor::Yellow);
}

#[test]
fn four_above_is_red() {
    assert_eq!(con_color(30, 34), ConColor::Red);
    assert_eq!(con_color(30, 60), ConColor::Red);
}

#[test]
fn con_gray_gap_top_levels() {
    // gray gap 14 from level 65 on
    assert_eq!(con_color(70, 56), ConColor::Gray);
    assert_eq!(con_color(70, 57), ConColor::Green);
    // gray gap 3 below level 5
    assert_eq!(con_color(4, 1), ConColor::Gray);
    assert_eq!(con_color(4, 2), ConColor::LightBlue);
}

#[test]
fn con_is_monotonic_in_mob_level() {
    let rank = |c: ConColor| match c {
        ConColor::Gray => 0,
        ConColor::Green => 1,
        ConColor::LightBlue => 2,
        ConColor::Blue => 3,
        ConColor::White => 4,
        ConColor::Yellow => 5,
        ConColor::Red => 6,
    };
    for p in [1u8, 10, 30, 50, 65, 100] {
        for m in 0u8..=120 {
            assert!(rank(con_color(p, m)) <= rank(con_color(p, m + 1)));
        }
    }
}

#[test]
fn upsert_and_retrieve() {
    let mut store = SpawnStore::new();
    let mut rec = spawn_at_level(30);
    rec.id = 100;
    store.upsert(&rec);
    assert_eq!(store.len(), 1);
    assert_eq!(store.get(100).unwrap().level, 30);
}

#[test]
fn upsert_overwrites_existing() {
    let mut store = SpawnStore::new();
    let mut rec = spawn_at_level(30);
    rec.id = 100;
    store.upsert(&rec);
    rec.level = 35;
    store.upsert(&rec);
    assert_eq!(store.get(100).unwrap().level, 35);
    assert_eq!(store.len(), 1);
}

#[test]
fn spawns_remove_drops_entry() {
    let mut store = SpawnStore::new();
    let mut rec = spawn_at_level(1);
    rec.id = 7;
    store.upsert(&rec);
    store.remove(7);
    assert!(store.is_empty());
}

#[test]
fn parses_name_from_record() {
    let mut rec = SpawnRecord::zeroed();
    rec.flags = OPT_SPAWNS;
    let src = b"Fippy";
    rec.name[..src.len()].copy_from_slice(src);
    let info = SpawnInfo::from_record(&rec);
    assert_eq!(info.name, "Fippy");
}

// ── protocol ────────────────────────────────────────────────────────────────

#[test]
fn decode_spawn() {
    let mut r = rec_with_flags(OPT_SPAWNS);
    r.id = 10;
    assert!(matches!(decode_packet(r), Packet::Spawn(_)));
}

#[test]
fn decode_self() {
    assert!(matches!(decode_packet(rec_with_flags(OPT_SELF)), Packet::Self_(_)));
}

#[test]
fn decode_target() {
    assert!(matches!(decode_packet(rec_with_flags(OPT_TARGET)), Packet::Target(_)));
}

#[test]
fn decode_zone_extracts_name() {
    let mut r = rec_with_flags(OPT_ZONE);
    r.name[..6].copy_from_slice(b"qeynos");
    match decode_packet(r) {
        Packet::Zone { name } => assert_eq!(name, "qeynos"),
        _ => panic!("expected Zone"),
    }
}

#[test]
fn decode_zone_full_field_no_null() {
    let mut r = rec_with_flags(OPT_ZONE);
    r.name = [b'a'; 30];
    match decode_packet(r) {
        Packet::Zone { name } => assert_eq!(name.len(), 30),
        _ => panic!("expected Zone"),
    }
}

#[test]
fn decode_ground() {
    assert!(matches!(decode_packet(rec_with_flags(OPT_GROUND)), Packet::Ground(_)));
}

#[test]
fn decode_world_maps_fields() {
    let mut r = rec_with_flags(OPT_WORLD);
    r.spawn_type = 14;
    r.class = 30;
    r.level = 15;
    r.hidden = 6;
    r.race = 3245;
    match decode_packet(r) {
        Packet::World(t) => {
            assert_eq!(t.hour, 14);
            assert_eq!(t.minute, 30);
            assert_eq!(t.year, 3245);
        }
        _ => panic!("expected World"),
    }
}

#[test]
fn decode_process() {
    let mut r = rec_with_flags(OPT_PROCESS);
    r.id = 12345;
    assert!(matches!(decode_packet(r), Packet::Process { pid: 12345 }));
}

#[test]
fn decode_unknown() {
    assert!(matches!(decode_packet(rec_with_flags(0x99)), Packet::Unknown { flags: 0x99 }));
}

#[test]
fn name_from_bytes_null_terminated() {
    let mut b = [0u8; 30];
    b[..4].copy_from_slice(b"Test");
    assert_eq!(name_from_bytes(&b), "Test");
}

#[test]
fn name_from_bytes_no_null() {
    let b = [b'x'; 30];
    assert_eq!(name_from_bytes(&b).len(), 30);
}

#[test]
fn record_from_bytes_round_trips() {
    let mut original = SpawnRecord::zeroed();
    original.id = 42;
    original.flags = 0xFD;
    original.name[0] = b'T';
    original.name[1] = b'e';
    original.name[2] = b's';
    original.name[3] = b't';
    let bytes: Vec<u8> = original.as_bytes();
    let decoded = SpawnRecord::from_bytes(&bytes);
    assert_eq!(decoded.id, 42u32);
    assert_eq!(decoded.flags, 0xFDu32);
    assert_eq!(decoded.name[0], b'T');
}

#[test]
fn spawn_record_wire_size() {
    assert_eq!(SpawnRecord::zeroed().as_bytes().len(), 100);
    assert_eq!(RECORD_SIZE, 100);
}

#[test]
fn record_bytes_are_little_endian() {
    let mut r = SpawnRecord::zeroed();
    r.x = 0x0403_0201;
    r.flags = 0x0807_0605;
    let b = r.as_bytes();
    assert_eq!(&b[30..34], &[1, 2, 3, 4]);
    assert_eq!(&b[96..100], &[5, 6, 7, 8]);
}

fn make_world_record(h: u8, min: u8, d: u8, mo: u8, y: u32) -> SpawnRecord {
    let mut rec = SpawnRecord::zeroed();
    rec.spawn_type = h;
    rec.class = min;
    rec.level = d;
    rec.hidden = mo;
    rec.race = y;
    rec.flags = OPT_WORLD;
    rec
}

#[test]
fn round_trips_world_time() {
    let rec = make_world_record(14, 30, 15, 6, 3245);
    let t = InGameTime::from_record(&rec).unwrap();
    assert_eq!(t.hour, 14);
    assert_eq!(t.minute, 30);
    assert_eq!(t.day, 15);
    assert_eq!(t.month, 6);
    assert_eq!(t.year, 3245);
}

#[test]
fn rejects_non_world_record() {
    let mut rec = SpawnRecord::zeroed();
    rec.flags = OPT_SPAWNS;
    assert!(InGameTime::from_record(&rec).is_none());
}

#[test]
fn display_formats_pm_hour() {
    let rec = make_world_record(14, 5, 1, 3, 3100);
    let t = InGameTime::from_record(&rec).unwrap();
    assert_eq!(t.display(), "3/1/3100 02:05 PM");
}

#[test]
fn display_formats_midnight_as_twelve_am() {
    let rec = make_world_record(0, 0, 2, 12, 3000);
    let t = InGameTime::from_record(&rec).unwrap();
    assert_eq!(t.display(), "12/2/3000 12:00 AM");
}

// ── filters ─────────────────────────────────────────────────────────────────

#[test]
fn classify_matches_substring() {
    let mut set = FilterSet::new();
    set.add(FilterCategory::Hunt, "gnoll");
    assert_eq!(set.classify("a gnoll scout"), Some(FilterCategory::Hunt));
    assert_eq!(set.classify("a gnoll warrior"), Some(FilterCategory::Hunt));
    assert_eq!(set.classify("GNOLL SHAMAN"), Some(FilterCategory::Hunt));
    assert_eq!(set.classify("orc pawn"), None);
}

#[test]
fn classify_highest_priority_wins_on_multiple_substring_matches() {
    let mut set = FilterSet::new();
    set.add(FilterCategory::Hunt, "gnoll");
    set.add(FilterCategory::Danger, "gnoll lord");
    assert_eq!(set.classify("a gnoll lord"), Some(FilterCategory::Danger));
}

#[test]
fn higher_priority_wins_on_merge() {
    let mut base = FilterSet::new();
    base.add(FilterCategory::Hunt, "Pox");
    let mut overlay = FilterSet::new();
    overlay.add(FilterCategory::Danger, "Pox");
    base.merge(overlay);
    assert_eq!(base.classify("Pox"), Some(FilterCategory::Danger));
}

#[test]
fn lower_priority_does_not_overwrite() {
    let mut set = FilterSet::new();
    set.add(FilterCategory::Danger, "Boss");
    set.add(FilterCategory::Hunt, "Boss");
    assert_eq!(set.classify("Boss"), Some(FilterCategory::Danger));
}

#[test]
fn filters_remove_drops_entry() {
    let mut set = FilterSet::new();
    set.add(FilterCategory::Hunt, "Fippy");
    set.remove("Fippy");
    assert!(set.classify("Fippy").is_none());
    assert!(set.is_empty());
}

#[test]
fn remove_is_case_insensitive() {
    let mut set = FilterSet::new();
    set.add(FilterCategory::Danger, "Nagafen");
    set.remove("NAGAFEN");
    assert!(set.is_empty());
}

#[test]
fn extract_old_filter_name_strips_prefix() {
    assert_eq!(extract_old_filter_name("Name:Fippy Darkpaw"), Some("Fippy Darkpaw".to_owned()));
    assert_eq!(extract_old_filter_name("name:fippy darkpaw"), Some("fippy darkpaw".to_owned()));
    assert_eq!(extract_old_filter_name("Name:#Fippy"), Some("#Fippy".to_owned()));
    assert_eq!(extract_old_filter_name("Name:"), None);
    assert_eq!(extract_old_filter_name("Name:some[regex]"), None);
    assert_eq!(extract_old_filter_name("Name:^anchored"), None);
    assert_eq!(extract_old_filter_name("Name:wild*card"), None);
}

#[test]
fn filter_add_is_case_insensitive_key() {
    let mut set = FilterSet::new();
    set.add(FilterCategory::Rare, "Orc");
    set.add(FilterCategory::Hunt, "ORC");
    assert_eq!(set.len(), 1);
    assert_eq!(set.classify("an orc pawn"), Some(FilterCategory::Hunt));
}

// ── game data ───────────────────────────────────────────────────────────────

#[test]
fn parses_race_entries() {
    let input = "1^11^Human^0^\n2^11^Barbarian^0^\n3^8^Some lore text^0^\n3^11^Erudite^0^\n";
    let gd = GameData::parse(input);
    assert_eq!(gd.race_name(1), "Human");
    assert_eq!(gd.race_name(2), "Barbarian");
    assert_eq!(gd.race_name(3), "Erudite");
}

#[test]
fn skips_non_11_entries() {
    let input = "5^8^Some lore^0^\n5^12^Plural^0^\n";
    let gd = GameData::parse(input);
    assert_eq!(gd.race_name(5), "High Elf");
}

#[test]
fn fallback_for_unknown_npc_race() {
    let gd = GameData::default();
    assert_eq!(gd.race_name(999), "---");
}

#[test]
fn spawn_color_override_returns_none_for_unknown_name() {
    let gd = GameData::default();
    assert_eq!(gd.spawn_color_override("Nobody"), None);
}

#[test]
fn spawn_color_override_missing_files_are_silent() {
    let mut gd = GameData::default();
    gd.load_color_palette(None);
    gd.load_spawn_colors(None);
    assert_eq!(gd.spawn_color_override("Fippy Darkpaw"), None);
}

#[test]
fn spawn_color_override_resolves_via_palette_text() {
    let mut gd = GameData::default();
    gd.load_color_palette(Some(r##"{"flame": {"name": "Flame", "hex": "#e25822", "rgb": [226, 88, 34]}}"##));
    gd.load_spawn_colors(Some(r#"{"Fippy Darkpaw": "flame"}"#));
    assert_eq!(gd.spawn_color_override("Fippy Darkpaw"), Some([226, 88, 34]));
    assert_eq!(gd.spawn_color_override("FIPPY DARKPAW"), Some([226, 88, 34]));
}

#[test]
fn spawn_color_override_ignores_unknown_color_key_text() {
    let mut gd = GameData::default();
    gd.load_color_palette(Some("{}"));
    gd.load_spawn_colors(Some(r#"{"Fippy Darkpaw": "nonexistent_color"}"#));
    assert_eq!(gd.spawn_color_override("Fippy Darkpaw"), None);
}

#[test]
fn config_text_reads_back() {
    let mut cfg = ClientConfig::load(None);
    cfg.server_ip = "10.1.2.3".to_owned();
    cfg.server_port = 6000;
    cfg.update_delay_ms = 125;
    cfg.auto_connect = true;
    cfg.map_dir = "maps".to_owned();
    cfg.alert_rare_mode = "speech".to_owned();
    cfg.discord_on_hunt = true;
    cfg.log_enabled = false;
    cfg.log_level = "warn".to_owned();
    let text = cfg.ini_text();
    assert!(text.starts_with("[WinShowEQ]\nServer=10.1.2.3\nPort=6000\nRate=125\nAutoConnect=1\n\n[Directories]\n"));
    assert!(text.ends_with("[Logging]\nEnabled=0\nLevel=warn\n"));
    let back = ClientConfig::load(Some(&text));
    assert_eq!(back.server_ip, "10.1.2.3");
    assert_eq!(back.server_port, 6000);
    assert_eq!(back.update_delay_ms, 125);
    assert!(back.auto_connect);
    assert_eq!(back.map_dir, "maps");
    assert_eq!(back.alert_rare_mode, "speech");
    assert!(back.discord_on_hunt);
    assert!(!back.discord_on_danger);
    assert!(!back.log_enabled);
    assert_eq!(back.log_level, "warn");
}

use winshoweq::alerts::{AlertEngine, AlertMode, AudioCmd};
use winshoweq::filters::{filter_name_of, FilterCategory, FilterSet};
use winshoweq::game_data::GameData;
use winshoweq::logger::{entry_line, log_file_name, LogLevel, Logger};
use winshoweq::offsets::{ItemOffsets, PrimaryOffsets, SpawnOffsets, WorldOffsets};
use winshoweq::protocol::OPT_GROUND;
use winshoweq::scanner::{patch_structure_mask, scan_line, scan_outcome, ScanOutcome};
use winshoweq::server_logic::{extract_world_time, pack_item_as_spawn};
use winshoweq::status::{
    addr_string, connection_event_for, default_snapshot, initial_snapshot, offsets_look_unset,
    session_state_for, GuiState, SessionState,
};
use winshoweq::timers::SpawnTimer;
use winshoweq::spawns::{con_rgb, is_pc_corpse, ConColor, SpawnStore};
use winshoweq::protocol::SpawnRecord;
use winshoweq::map_text::line_rgb;

#[test]
fn alert_mode_from_config_words() {
    assert_eq!(AlertMode::from_config("BEEP", ""), AlertMode::Beep);
    assert_eq!(AlertMode::from_config("Speech", "x.wav"), AlertMode::Speech);
    assert_eq!(AlertMode::from_config("sound", "alarm.wav"), AlertMode::SoundFile("alarm.wav".to_owned()));
    assert_eq!(AlertMode::from_config("sound", ""), AlertMode::Beep);
    assert_eq!(AlertMode::from_config("loud", "alarm.wav"), AlertMode::Off);
}

#[test]
fn alert_fires_once_per_spawn() {
    let mut e = AlertEngine::new();
    e.danger_mode = AlertMode::Beep;
    let a = e.check_spawn(7, "a_gnoll", Some(FilterCategory::Danger), 0).unwrap();
    assert_eq!(a.audio, AudioCmd::Beep);
    assert_eq!(a.category, FilterCategory::Danger);
    assert_eq!(a.log, "Alert [Danger]: a_gnoll");
    assert!(!a.post_discord);
    assert!(e.check_spawn(7, "a_gnoll", Some(FilterCategory::Danger), 1).is_none());
    // A category whose mode is off, or no category, never alerts.
    assert!(e.check_spawn(8, "a_bat", Some(FilterCategory::Hunt), 0).is_none());
    assert!(e.check_spawn(9, "a_rat", None, 0).is_none());
}

#[test]
fn class_names_from_table_and_file() {
    let mut gd = GameData::default();
    assert_eq!(gd.class_name(1), "Warrior");
    assert_eq!(gd.class_name(200), "200 Unknown");
    gd.load_classes(Some(r#"{"1": "Fighter", "x": "ignored"}"#));
    assert_eq!(gd.class_name(1), "Fighter");
    assert_eq!(gd.class_name(2), "2 Unknown");
}

#[test]
fn log_entry_and_file_name_formats() {
    assert_eq!(entry_line(7, 5, 9, LogLevel::Warn, "disk low"), "[07:05:09] [WARN] disk low\n");
    assert_eq!(log_file_name(3, 4, 2025), "03-04-2025.txt");
}

#[test]
fn logger_switches_apply_to_clones() {
    let l = Logger::new("logs".to_owned()).with_level(LogLevel::Error);
    let c = l.clone();
    assert_eq!(c.level(), LogLevel::Error);
    l.set_level(LogLevel::Debug);
    assert_eq!(c.level(), LogLevel::Debug);
    assert!(c.is_enabled());
    l.set_enabled(false);
    assert!(!c.is_enabled());
}

#[test]
fn structure_mask_patched_with_base_address() {
    let bytes = [0x48u8, 0x8b, 0, 0, 0, 0, 0xc3];
    let chars = b"xxooooxx";
    let patched = patch_structure_mask(&bytes, &chars[..7], 0x1122_3344).unwrap();
    assert_eq!(patched, vec![0x48, 0x8b, 0x44, 0x33, 0x22, 0x11, 0xc3]);
    // A run of `o` that is neither 4 nor 8 long cannot be patched.
    assert!(patch_structure_mask(&bytes, b"xxoooxx", 1).is_none());
    // Without `o` the mask is used as it is.
    assert_eq!(patch_structure_mask(&bytes, b"xxxxxxx", 1).unwrap(), bytes.to_vec());
}

#[test]
fn scan_outcomes_and_lines() {
    assert_eq!(scan_outcome(0, 5, true, true, false), ScanOutcome::NotFound);
    assert_eq!(scan_outcome(5, 5, true, true, false), ScanOutcome::Match);
    assert_eq!(scan_outcome(6, 5, true, true, false), ScanOutcome::Written);
    assert_eq!(scan_outcome(6, 5, true, false, false), ScanOutcome::WriteFailed);
    assert_eq!(scan_outcome(6, 5, false, true, false), ScanOutcome::Mismatch);
    assert_eq!(scan_outcome(6, 5, false, true, true), ScanOutcome::Found);
    assert_eq!(scan_line("ZoneAddr", 0x140abc, ScanOutcome::Match), "ZoneAddr=0x140abc # Match\r\n");
}

#[test]
fn ground_item_and_world_time_from_memory() {
    let mut buf = vec![0u8; 64];
    buf[0..4].copy_from_slice(&77u32.to_le_bytes());
    buf[4..8].copy_from_slice(&1.5f32.to_bits().to_le_bytes());
    buf[16..22].copy_from_slice(b"Sword\0");
    let offs = ItemOffsets { id: 0, x: 4, y: 8, z: 12, name: 16, buf_size: 64, ..ItemOffsets::default() };
    let rec = pack_item_as_spawn(&buf, &offs);
    assert_eq!(rec.id, 77);
    assert_eq!(rec.x, 1.5f32.to_bits());
    assert_eq!(&rec.name[..6], b"Sword\0");
    assert_eq!(rec.flags, OPT_GROUND);

    let mut w = vec![0u8; 16];
    w[0] = 13;
    w[1] = 45;
    w[2] = 2;
    w[3] = 11;
    w[4..6].copy_from_slice(&3100u16.to_le_bytes());
    let wo = WorldOffsets { hour: 0, minute: 1, day: 2, month: 3, year: 4, race8: true, buf_size: 16 };
    let t = extract_world_time(&w, &wo);
    assert_eq!((t.hour, t.minute, t.day, t.month, t.year), (13, 45, 2, 11, 3100));
}

#[test]
fn snapshot_merge_keeps_unset_fields() {
    let mut a = default_snapshot();
    a.zone = "nektulos".to_owned();
    a.port = 5555;
    let mut b = default_snapshot();
    b.status_text = "Connected".to_owned();
    a.merge_from(&b);
    assert_eq!(a.zone, "nektulos");
    assert_eq!(a.port, 5555);
    assert_eq!(a.status_text, "Connected");
}

#[test]
fn connection_events_round_trip_states() {
    let err = "port in use".to_owned();
    let e = connection_event_for(SessionState::Error, &err);
    assert!(e.error && !e.connected);
    assert_eq!(e.error_message, "port in use");
    assert_eq!(session_state_for(&e), SessionState::Error);
    let c = connection_event_for(SessionState::Connected, &err);
    assert!(c.connected && c.error_message.is_empty());
    assert_eq!(session_state_for(&c), SessionState::Connected);
}

#[test]
fn gui_log_is_stamped_and_capped() {
    let mut g = GuiState::default();
    g.push_log_at(3600 * 25 + 61, "hello");
    assert_eq!(g.log[0], "[01:01:01] hello");
    for i in 0..250 {
        g.push_log_at(0, &format!("m{i}"));
    }
    assert_eq!(g.log.len(), 200);
    assert_eq!(g.log[199], "[00:00:00] m249");
    g.push_log("now");
    assert!(g.log[199].ends_with("] now"));
}

#[test]
fn timer_next_spawn_and_alive() {
    let mut t = SpawnTimer::new("a".to_owned(), "1,2".to_owned(), 0, 0, 0, 600, 1000);
    t.killed_at = None;
    assert!(t.is_alive());
    assert_eq!(t.next_spawn_at(), None);
    t.killed_at = Some(1000);
    assert!(!t.is_alive());
    assert_eq!(t.next_spawn_at(), Some(1600));
}

#[test]
fn map_colours() {
    assert_eq!(con_rgb(ConColor::Red), (255, 50, 50));
    assert_eq!(con_rgb(ConColor::White), (255, 255, 255));
    assert_eq!(line_rgb(0, 0, 0), (100, 100, 100));
    assert_eq!(line_rgb(0, 0, 1), (0, 0, 1));
}

#[test]
fn player_corpse_names() {
    assert!(is_pc_corpse("Soandso's corpse"));
    assert!(!is_pc_corpse("a_gnoll's corpse"));
    assert!(!is_pc_corpse("a gnoll's corpse"));
    assert!(!is_pc_corpse("an orc's corpse"));
    assert!(is_pc_corpse("Anna's corpse"));
}

fn named(id: u32, name: &str) -> SpawnRecord {
    let mut r = SpawnRecord::zeroed();
    r.id = id;
    r.name[..name.len()].copy_from_slice(name.as_bytes());
    r
}

#[test]
fn spawn_search_finds_names_case_insensitively() {
    let mut store = SpawnStore::new();
    store.upsert(&named(1, "Fippy_Darkpaw"));
    store.upsert(&named(2, "a_gnoll_pup"));
    store.upsert(&named(3, "Gnollbane"));
    let mut ids = store.ids();
    ids.sort();
    assert_eq!(ids, vec![1, 2, 3]);
    let mut hits = store.search_ids("GNOLL", None);
    hits.sort();
    assert_eq!(hits, vec![2, 3]);
    assert_eq!(store.search_ids("gnoll", Some(3)), vec![2]);
    assert!(store.search_ids("", None).is_empty());
}

#[test]
fn filter_names_drop_spawn_numbers() {
    assert_eq!(filter_name_of("a_gnoll01"), "a_gnoll");
    assert_eq!(filter_name_of("Fippy Darkpaw 12"), "Fippy Darkpaw");
    assert_eq!(filter_name_of("Lord Nagafen"), "Lord Nagafen");
    assert_eq!(filter_name_of("123"), "");
}

fn sorted_entries(set: &FilterSet) -> Vec<(String, u8)> {
    let mut v: Vec<(String, u8)> =
        set.entries_list().into_iter().map(|(n, c)| (n, c.priority())).collect();
    v.sort();
    v
}

#[test]
fn merge_in_either_order_gives_same_entries() {
    let mut a = FilterSet::new();
    a.add(FilterCategory::Hunt, "pox");
    a.add(FilterCategory::Danger, "fippy");
    let mut b = FilterSet::new();
    b.add(FilterCategory::Rare, "pox");
    b.add(FilterCategory::Caution, "orc");
    let mut x = a.clone();
    x.merge(b.clone());
    let mut y = b.clone();
    y.merge(a.clone());
    assert_eq!(sorted_entries(&x), sorted_entries(&y));
    assert_eq!(x.len(), 3);
    assert_eq!(x.classify("pox"), Some(FilterCategory::Hunt));
    assert_eq!(y.classify("orc"), Some(FilterCategory::Caution));
}

#[test]
fn spawn_offset_set_reads_back_from_named_values() {
    let mut o = SpawnOffsets::default();
    assert!(o.set_by_index(7, 0x40));
    let r = o.named_values();
    assert_eq!(r.len(), 18);
    assert_eq!(r[7], ("XOffset", 0x40));
    assert_eq!(r[0], ("NameOffset", 0));
    assert_eq!(r[17].0, "NextOffset");
    assert_eq!(o.buf_size, 0x40 + 30);
    assert_eq!(o.set_by_name("yoffset", 0x80), Some(8));
    assert_eq!(o.y, 0x80);
    assert_eq!(o.x, 0x40);
    assert_eq!(o.buf_size, 0x80 + 30);
}

#[test]
fn spawn_offset_set_out_of_range_changes_nothing() {
    let mut o = SpawnOffsets::default();
    o.name = usize::MAX;
    assert!(!o.set_by_index(18, 5));
    assert_eq!(o.name, usize::MAX);
    assert_eq!(o.set_by_name("NoSuchOffset", 5), None);
    assert_eq!(o.buf_size, 0);
}

#[test]
fn session_initial_snapshot() {
    let mut o = PrimaryOffsets::default();
    o.spawn_list = 0x14a2b3c;
    let s = initial_snapshot("04/14/2026", 5555, "10.0.0.2", &o);
    assert_eq!(s.patch_date, "04/14/2026");
    assert_eq!(s.port, 5555);
    assert_eq!(s.primary_address, "10.0.0.2");
    assert_eq!(s.spawn_list_addr, "0x14A2B3C");
    assert_eq!(s.self_addr, "");
    assert_eq!(s.npc_count, -1);
    assert_eq!(addr_string(0xff), "0xFF");
    assert!(offsets_look_unset(30));
    assert!(!offsets_look_unset(31));
}

#[test]
fn offsets_from_values_size_the_read() {
    let mut v: Vec<usize> = (0..18).map(|i| i * 4).collect();
    v[5] = 0x200;
    let o = SpawnOffsets::from_values(&v, true);
    assert_eq!(o.name, 0);
    assert_eq!(o.race, 0x200);
    assert_eq!(o.next, 17 * 4);
    assert!(o.race8);
    assert_eq!(o.buf_size, 0x200 + 30);
    let i = ItemOffsets::from_values(&vec![8, 16, 24, 32, 40, 44, 48, 0x90]);
    assert_eq!(i.name, 0x90);
    assert_eq!(i.drop_id, 32);
    assert_eq!(i.buf_size, 0x90 + 30);
    let w = WorldOffsets::from_values(&vec![8, 9, 10, 11, 12], false);
    assert_eq!(w.year, 12);
    assert_eq!(w.buf_size, 42);
    let z = SpawnOffsets::from_values(&vec![0; 18], false);
    assert_eq!(z.buf_size, 30);
}

#[test]
fn spawn_offset_set_by_name_keeps_race_switch() {
    let mut o = SpawnOffsets::from_values(&vec![0; 18], true);
    assert_eq!(o.set_by_name("XOFFSET", 0x40), Some(7));
    assert_eq!(o.x, 0x40);
    assert!(o.race8);
    assert_eq!(o.buf_size, 0x40 + 30);
}

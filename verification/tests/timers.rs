use winshoweq::observer::{ObservedSpawn, PendingKill, SpawnObservation, SpawnObserver, MIN_INTERVAL_SECS};
use winshoweq::timers::{
    best_display_name, is_excluded_spawn, is_void_zone, parse_cs_datetime, SpawnTimer, TimerStore,
};

fn now_secs() -> i64 {
    std::time::SystemTime::now()
        .duration_since(std::time::UNIX_EPOCH)
        .unwrap()
        .as_secs() as i64
}

fn loc_key(x: f32, y: f32) -> String {
    format!("{:.3},{:.3}", y, x)
}

fn timer(name: &str, x: f32, y: f32, z: f32, respawn_secs: i64) -> SpawnTimer {
    SpawnTimer::new(
        name.to_owned(),
        loc_key(x, y),
        x.to_bits(),
        y.to_bits(),
        z.to_bits(),
        respawn_secs,
        now_secs(),
    )
}

fn make_npc(id: u32, name: &str, x: f32, y: f32) -> ObservedSpawn {
    ObservedSpawn {
        id,
        name: name.to_owned(),
        race: 1,
        owner_id: 0,
        is_npc: true,
        loc: loc_key(x, y),
        spawn_loc: loc_key(x, y),
        x: x.to_bits(),
        y: y.to_bits(),
        z: 0.0f32.to_bits(),
        spawn_x: x.to_bits(),
        spawn_y: y.to_bits(),
    }
}

fn ids(v: &[u32]) -> Vec<u32> {
    v.to_vec()
}

fn has_kill(o: &SpawnObserver, key: &str) -> bool {
    o.pending_kills.iter().any(|(k, _)| k == key)
}

fn backdate_kill(o: &mut SpawnObserver, key: &str, secs: i64) {
    let entry = o.pending_kills.iter_mut().find(|(k, _)| k == key).unwrap();
    entry.1.killed_at = now_secs() - secs;
}

fn observation<'a>(o: &'a SpawnObserver, key: &str) -> &'a SpawnObservation {
    &o.observations.iter().find(|(k, _)| k == key).unwrap().1
}

// --- is_void_zone / is_excluded_spawn ---

#[test]
fn void_zone_false_for_normal_zones() {
    assert!(!is_void_zone("najena"));
    assert!(!is_void_zone("gfaydark"));
    assert!(!is_void_zone("blackburrow"));
}

#[test]
fn void_zone_true_for_known_void_zones() {
    assert!(is_void_zone("bazaar"));
    assert!(is_void_zone("nexus"));
    assert!(is_void_zone("poknowledge"));
    assert!(is_void_zone("clz"));
    assert!(is_void_zone("default"));
}

#[test]
fn void_zone_true_for_guild_prefix() {
    assert!(is_void_zone("guildlobby"));
    assert!(is_void_zone("guildhall"));
    assert!(is_void_zone("GUILDLOBBY"));
}

#[test]
fn excluded_owner_id_nonzero() {
    assert!(is_excluded_spawn("Warder", 1, 1234));
}

#[test]
fn excluded_underscore_prefix() {
    assert!(is_excluded_spawn("_placeholder", 1, 0));
}

#[test]
fn excluded_boat_races() {
    assert!(is_excluded_spawn("Boat", 141, 0));
    assert!(is_excluded_spawn("Boat", 376, 0));
    assert!(is_excluded_spawn("Boat", 533, 0));
}

#[test]
fn not_excluded_normal_npc() {
    assert!(!is_excluded_spawn("Fippy Darkpaw", 1, 0));
}

// --- best_display_name ---

#[test]
fn named_mob_uppercase_promoted() {
    let names = vec!["a skeleton".to_owned(), "Bonecracker".to_owned()];
    assert_eq!(best_display_name(&names, "a skeleton"), "Bonecracker");
}

#[test]
fn named_mob_hash_prefix_promoted() {
    let names = vec!["a rat".to_owned(), "#RareRat".to_owned()];
    assert_eq!(best_display_name(&names, "a rat"), "#RareRat");
}

#[test]
fn best_display_name_falls_back_when_no_named_mob() {
    let names = vec!["a skeleton".to_owned(), "an orc".to_owned()];
    assert_eq!(best_display_name(&names, "a skeleton"), "a skeleton");
}

// --- SpawnObserver::process_diff: kill detection ---

#[test]
fn process_diff_records_pending_kill_when_npc_disappears() {
    let mut observer = SpawnObserver::default();
    let mut timers = TimerStore::default();
    let store = vec![make_npc(1, "Fippy Darkpaw", 100.0, 200.0)];

    observer.process_diff(&ids(&[1]), &store, "blackburrow", &mut timers);
    let (_, log) = observer.process_diff(&ids(&[]), &store, "blackburrow", &mut timers);

    assert!(has_kill(&observer, &loc_key(100.0, 200.0)));
    assert_eq!(log, vec!["[Timer] Kill detected: Fippy Darkpaw @ 200.000,100.000".to_owned()]);
}

#[test]
fn process_diff_no_kill_recorded_in_void_zone() {
    let mut observer = SpawnObserver::default();
    let mut timers = TimerStore::default();
    let store = vec![make_npc(1, "Merchant", 100.0, 200.0)];

    observer.process_diff(&ids(&[1]), &store, "bazaar", &mut timers);
    observer.process_diff(&ids(&[]), &store, "bazaar", &mut timers);

    assert!(observer.pending_kills.is_empty());
}

#[test]
fn process_diff_no_kill_recorded_in_empty_zone() {
    let mut observer = SpawnObserver::default();
    let mut timers = TimerStore::default();
    let store = vec![make_npc(1, "NPC", 100.0, 200.0)];

    observer.process_diff(&ids(&[1]), &store, "", &mut timers);
    observer.process_diff(&ids(&[]), &store, "", &mut timers);

    assert!(observer.pending_kills.is_empty());
}

#[test]
fn process_diff_no_kill_for_pet() {
    let mut observer = SpawnObserver::default();
    let mut timers = TimerStore::default();
    let mut pet = make_npc(1, "Warder", 100.0, 200.0);
    pet.owner_id = 999;
    let store = vec![pet];

    observer.process_diff(&ids(&[1]), &store, "crushbone", &mut timers);
    observer.process_diff(&ids(&[]), &store, "crushbone", &mut timers);

    assert!(observer.pending_kills.is_empty());
}

#[test]
fn process_diff_no_kill_for_underscore_name() {
    let mut observer = SpawnObserver::default();
    let mut timers = TimerStore::default();
    let store = vec![make_npc(1, "_placeholder", 100.0, 200.0)];

    observer.process_diff(&ids(&[1]), &store, "crushbone", &mut timers);
    observer.process_diff(&ids(&[]), &store, "crushbone", &mut timers);

    assert!(observer.pending_kills.is_empty());
}

#[test]
fn process_diff_kill_uses_spawn_point_not_death_position() {
    let mut observer = SpawnObserver::default();
    let mut timers = TimerStore::default();

    let mut npc = make_npc(1, "Fippy Darkpaw", 100.0, 200.0);
    let store = vec![npc.clone_spawn()];

    observer.process_diff(&ids(&[1]), &store, "blackburrow", &mut timers);

    npc.x = 300.0f32.to_bits();
    npc.y = 400.0f32.to_bits();
    npc.loc = loc_key(300.0, 400.0);
    let moved_store = vec![npc];

    observer.process_diff(&ids(&[]), &moved_store, "blackburrow", &mut timers);

    assert!(has_kill(&observer, &loc_key(100.0, 200.0)));
    assert!(!has_kill(&observer, &loc_key(300.0, 400.0)));
}

trait CloneSpawn {
    fn clone_spawn(&self) -> ObservedSpawn;
}

impl CloneSpawn for ObservedSpawn {
    fn clone_spawn(&self) -> ObservedSpawn {
        ObservedSpawn {
            id: self.id,
            name: self.name.clone(),
            race: self.race,
            owner_id: self.owner_id,
            is_npc: self.is_npc,
            loc: self.loc.clone(),
            spawn_loc: self.spawn_loc.clone(),
            x: self.x,
            y: self.y,
            z: self.z,
            spawn_x: self.spawn_x,
            spawn_y: self.spawn_y,
        }
    }
}

#[test]
fn process_diff_no_kill_for_boat_race() {
    let mut observer = SpawnObserver::default();
    let mut timers = TimerStore::default();
    let mut boat = make_npc(1, "The Big Boat", 100.0, 200.0);
    boat.race = 141;
    let store = vec![boat];

    observer.process_diff(&ids(&[1]), &store, "butcher", &mut timers);
    observer.process_diff(&ids(&[]), &store, "butcher", &mut timers);

    assert!(observer.pending_kills.is_empty());
}

// --- SpawnObserver::process_diff: respawn and promotion ---

#[test]
fn process_diff_no_promotion_on_first_respawn_cycle() {
    let mut observer = SpawnObserver::default();
    let mut timers = TimerStore::default();
    let store = vec![make_npc(1, "Fippy Darkpaw", 100.0, 200.0)];
    let key = loc_key(100.0, 200.0);

    observer.process_diff(&ids(&[1]), &store, "blackburrow", &mut timers);
    observer.process_diff(&ids(&[]), &store, "blackburrow", &mut timers);
    backdate_kill(&mut observer, &key, 600);

    let (promoted, _) = observer.process_diff(&ids(&[1]), &store, "blackburrow", &mut timers);

    assert!(!promoted);
    assert!(timers.is_empty());
    assert_eq!(observation(&observer, &key).spawn_count, 1);
}

#[test]
fn process_diff_promotes_timer_on_second_respawn_cycle() {
    let mut observer = SpawnObserver::default();
    let mut timers = TimerStore::default();
    let store = vec![make_npc(1, "Fippy Darkpaw", 100.0, 200.0)];
    let key = loc_key(100.0, 200.0);
    let zone = "blackburrow";

    observer.process_diff(&ids(&[1]), &store, zone, &mut timers);
    observer.process_diff(&ids(&[]), &store, zone, &mut timers);
    backdate_kill(&mut observer, &key, 600);
    let (promoted, _) = observer.process_diff(&ids(&[1]), &store, zone, &mut timers);
    assert!(!promoted);

    observer.process_diff(&ids(&[]), &store, zone, &mut timers);
    backdate_kill(&mut observer, &key, 600);
    let (promoted, _) = observer.process_diff(&ids(&[1]), &store, zone, &mut timers);

    assert!(promoted);
    assert_eq!(timers.len(), 1);
    let t = &timers.timers[0];
    assert_eq!(t.name, "Fippy Darkpaw");
    assert!(t.is_auto);
    assert_eq!(t.spawn_count, 2);
    assert!(t.respawn_secs >= MIN_INTERVAL_SECS);
    assert_eq!(t.spawn_loc, key);
    assert!(!t.all_names.is_empty());
    assert_eq!(t.zone, zone);
    assert!(t.killed_at.is_none());
}

#[test]
fn process_diff_named_mob_promoted_over_placeholder() {
    let mut observer = SpawnObserver::default();
    let mut timers = TimerStore::default();
    let key = loc_key(100.0, 200.0);
    let zone = "unrest";

    let store_ph = vec![make_npc(1, "a skeleton", 100.0, 200.0)];
    let store_nm = vec![make_npc(2, "Bonecracker", 100.0, 200.0)];

    observer.process_diff(&ids(&[1]), &store_ph, zone, &mut timers);
    observer.process_diff(&ids(&[]), &store_ph, zone, &mut timers);
    backdate_kill(&mut observer, &key, 600);
    observer.process_diff(&ids(&[2]), &store_nm, zone, &mut timers);

    observer.process_diff(&ids(&[]), &store_nm, zone, &mut timers);
    backdate_kill(&mut observer, &key, 600);
    let (promoted, _) = observer.process_diff(&ids(&[1]), &store_ph, zone, &mut timers);

    assert!(promoted);
    assert_eq!(timers.len(), 1);
    assert_eq!(timers.timers[0].name, "Bonecracker");
}

#[test]
fn process_diff_skips_respawn_when_interval_too_short() {
    let mut observer = SpawnObserver::default();
    let mut timers = TimerStore::default();
    let store = vec![make_npc(1, "Fast Spawn", 100.0, 200.0)];

    observer.process_diff(&ids(&[1]), &store, "crushbone", &mut timers);
    observer.process_diff(&ids(&[]), &store, "crushbone", &mut timers);
    let (promoted, _) = observer.process_diff(&ids(&[1]), &store, "crushbone", &mut timers);

    assert!(!promoted);
    assert!(observer.observations.is_empty());
}

#[test]
fn process_diff_averages_intervals_over_multiple_cycles() {
    let mut observer = SpawnObserver::default();
    let mut timers = TimerStore::default();
    let store = vec![make_npc(1, "Lord Nagafen", 100.0, 200.0)];
    let key = loc_key(100.0, 200.0);
    let zone = "soldungb";

    observer.process_diff(&ids(&[1]), &store, zone, &mut timers);
    observer.process_diff(&ids(&[]), &store, zone, &mut timers);
    backdate_kill(&mut observer, &key, 300);
    observer.process_diff(&ids(&[1]), &store, zone, &mut timers);

    observer.process_diff(&ids(&[]), &store, zone, &mut timers);
    backdate_kill(&mut observer, &key, 700);
    observer.process_diff(&ids(&[1]), &store, zone, &mut timers);

    assert_eq!(timers.len(), 1);
    assert!((timers.timers[0].respawn_secs - 500).abs() <= 2);
}

#[test]
fn process_diff_at_exact_log_and_average() {
    let mut observer = SpawnObserver::default();
    let mut timers = TimerStore::default();
    let store = vec![make_npc(1, "Lord Nagafen", 100.0, 200.0)];
    let zone = "soldungb";

    observer.process_diff_at(&ids(&[1]), &store, zone, &mut timers, 1000);
    observer.process_diff_at(&ids(&[]), &store, zone, &mut timers, 1000);
    let (p1, log1) = observer.process_diff_at(&ids(&[1]), &store, zone, &mut timers, 1300);
    assert!(!p1);
    assert_eq!(log1, vec!["[Timer] Respawn: Lord Nagafen — interval 300s (cycle 1)".to_owned()]);
    let (p2, _) = observer.process_diff_at(&ids(&[]), &store, zone, &mut timers, 2000);
    assert!(!p2);
    let (p3, log3) = observer.process_diff_at(&ids(&[1]), &store, zone, &mut timers, 2701);
    assert!(p3);
    assert_eq!(
        log3,
        vec![
            "[Timer] Respawn: Lord Nagafen — interval 701s (cycle 2)".to_owned(),
            "[Timer] Auto-timer promoted: Lord Nagafen — avg 500s over 2 cycles".to_owned(),
        ]
    );
    assert_eq!(timers.timers[0].respawn_secs, 500);
    assert_eq!(timers.timers[0].spawn_time, Some(2701));
    // the next kill starts the promoted timer's countdown
    let (p4, _) = observer.process_diff_at(&ids(&[]), &store, zone, &mut timers, 3000);
    assert!(p4);
    assert_eq!(timers.timers[0].killed_at, Some(3000));
}

#[test]
fn process_diff_at_logs_short_interval() {
    let mut observer = SpawnObserver::default();
    let mut timers = TimerStore::default();
    let store = vec![make_npc(1, "Fast Spawn", 100.0, 200.0)];
    observer.process_diff_at(&ids(&[1]), &store, "crushbone", &mut timers, 50);
    observer.process_diff_at(&ids(&[]), &store, "crushbone", &mut timers, 50);
    let (_, log) = observer.process_diff_at(&ids(&[1]), &store, "crushbone", &mut timers, 55);
    assert_eq!(log, vec!["[Timer] Respawn skipped: Fast Spawn — interval 5s below minimum 10s".to_owned()]);
    assert!(observer.pending_kills.is_empty());
}

// --- on_zone_change / reset_zone ---

#[test]
fn on_zone_change_clears_transient_state_preserves_observations() {
    let mut observer = SpawnObserver::default();
    let mut timers = TimerStore::default();
    let store = vec![make_npc(1, "Orc", 100.0, 200.0)];

    observer.process_diff(&ids(&[1]), &store, "crushbone", &mut timers);
    observer.process_diff(&ids(&[]), &store, "crushbone", &mut timers);
    observer.observations.push((
        "key".to_owned(),
        SpawnObservation {
            name: "Orc".to_owned(),
            x: 0,
            y: 0,
            z: 0,
            spawn_count: 1,
            intervals: vec![600],
            names: vec!["Orc".to_owned()],
        },
    ));

    observer.on_zone_change();

    assert!(observer.pending_kills.is_empty());
    assert!(observer.prev_tick_npcs.is_empty());
    assert!(!observer.observations.is_empty(), "observations survive zone change");
}

#[test]
fn reset_zone_clears_everything_including_observations() {
    let mut observer = SpawnObserver::default();
    observer.observations.push((
        "key".to_owned(),
        SpawnObservation {
            name: "NPC".to_owned(),
            x: 0,
            y: 0,
            z: 0,
            spawn_count: 3,
            intervals: vec![600, 610],
            names: vec!["NPC".to_owned()],
        },
    ));
    observer.pending_kills.push((
        "key".to_owned(),
        PendingKill { name: "NPC".to_owned(), x: 0, y: 0, z: 0, killed_at: now_secs() },
    ));

    observer.reset_zone();

    assert!(observer.observations.is_empty());
    assert!(observer.pending_kills.is_empty());
    assert!(observer.prev_tick_npcs.is_empty());
}

// --- SpawnTimer helpers ---

#[test]
fn countdown_str_formats_correctly() {
    let mut t = timer("Boss", 0.0, 0.0, 0.0, 3661);
    t.killed_at = Some(now_secs());
    let s = t.countdown_str();
    assert!(s.starts_with('1'), "expected 1:01:01 format, got {s}");
}

#[test]
fn countdown_str_shows_spawned_when_expired() {
    let mut t = timer("Boss", 0.0, 0.0, 0.0, 0);
    t.killed_at = Some(now_secs() - 60);
    assert_eq!(t.countdown_str(), "UNKNOWN");
}

#[test]
fn countdown_str_shows_alive_when_no_kill_time() {
    let mut t = timer("Boss", 0.0, 0.0, 0.0, 1800);
    t.killed_at = None;
    assert_eq!(t.countdown_str(), "ALIVE");
}

#[test]
fn countdown_str_at_exact_values() {
    let mut t = timer("Boss", 0.0, 0.0, 0.0, 3661);
    t.killed_at = Some(1000);
    assert_eq!(t.countdown_str_at(1000), "1:01:01");
    assert_eq!(t.countdown_str_at(1061), "1:00:00");
    assert_eq!(t.countdown_str_at(1062), "59:59");
    assert_eq!(t.countdown_str_at(4661), "UNKNOWN");
    assert_eq!(t.secs_remaining_at(1000), 3661);
    assert!(!t.is_spawned_at(1000));
    assert!(t.is_spawned_at(4661));
}

#[test]
fn add_replaces_existing_timer_at_same_location() {
    let mut store = TimerStore::default();
    store.add(timer("Fippy", 0.0, 0.0, 0.0, 600));
    store.add(timer("Fippy", 0.0, 0.0, 0.0, 900));
    assert_eq!(store.len(), 1);
    assert_eq!(store.timers[0].respawn_secs, 900);
}

#[test]
fn add_keeps_timers_at_different_locations() {
    let mut store = TimerStore::default();
    store.add(timer("Fippy", 0.0, 0.0, 0.0, 600));
    store.add(timer("Fippy", 100.0, 200.0, 0.0, 900));
    assert_eq!(store.len(), 2);
}

#[test]
fn add_caps_the_list() {
    let mut store = TimerStore::default();
    for i in 0..205 {
        store.add(timer("X", i as f32, 0.0, 0.0, 60));
    }
    assert_eq!(store.len(), 200);
    assert_eq!(store.timers[0].spawn_loc, loc_key(5.0, 0.0));
}

#[test]
fn remove_by_index() {
    let mut store = TimerStore::default();
    store.add(timer("A", 0.0, 0.0, 0.0, 600));
    store.add(timer("B", 1.0, 0.0, 0.0, 600));
    store.remove(0);
    assert_eq!(store.len(), 1);
    assert_eq!(store.timers[0].name, "B");
}

#[test]
fn clear_all_empties_the_store() {
    let mut store = TimerStore::default();
    store.add(timer("A", 0.0, 0.0, 0.0, 600));
    store.add(timer("B", 1.0, 0.0, 0.0, 900));
    store.clear_all();
    assert!(store.is_empty());
}

#[test]
fn mark_killed_starts_countdown() {
    let mut store = TimerStore::default();
    let mut t = timer("A", 0.0, 0.0, 0.0, 600);
    t.killed_at = None;
    t.sticky = true;
    store.add(t);
    assert!(store.sticky_for(&loc_key(0.0, 0.0)));
    assert!(store.mark_killed(&loc_key(0.0, 0.0), 77));
    assert_eq!(store.timers[0].killed_at, Some(77));
    assert!(!store.mark_killed(&loc_key(9.0, 9.0), 77));
}

// --- parse_cs_datetime ---

fn hms(t: i64) -> (i64, i64, i64) {
    let day = t.rem_euclid(86400);
    (day / 3600, (day % 3600) / 60, day % 60)
}

#[test]
fn parse_cs_datetime_handles_pm() {
    let dt = parse_cs_datetime("5/31/2026 3:45:23 PM").unwrap();
    assert_eq!(hms(dt), (15, 45, 23));
}

#[test]
fn parse_cs_datetime_handles_midnight() {
    let dt = parse_cs_datetime("1/1/2026 12:00:00 AM").unwrap();
    assert_eq!(hms(dt).0, 0);
}

#[test]
fn parse_cs_datetime_returns_none_for_empty() {
    assert!(parse_cs_datetime("").is_none());
}

#[test]
fn parse_cs_datetime_exact_timestamp() {
    // 2009-04-15 00:00:00 UTC
    assert_eq!(parse_cs_datetime("4/15/2009 12:00:00 AM"), Some(1_239_753_600));
    assert_eq!(parse_cs_datetime("1/1/1970 0:00"), Some(0));
    assert_eq!(parse_cs_datetime("2/29/2023 1:00:00 PM"), None);
    assert_eq!(parse_cs_datetime("2/29/2024 1:00:00 pm"), Some(1_709_211_600));
    assert_eq!(parse_cs_datetime("1/1/2024 24:00"), None);
    assert_eq!(parse_cs_datetime("1/1/2024"), None);
}

#[test]
fn process_diff_at_averages_loaded_intervals_exactly() {
    let mut observer = SpawnObserver::default();
    let mut timers = TimerStore::default();
    let store = vec![make_npc(1, "Lord Nagafen", 100.0, 200.0)];
    let key = loc_key(100.0, 200.0);
    let zone = "soldungb";
    observer.load_observation(
        key,
        SpawnObservation {
            name: "Lord Nagafen".to_owned(),
            x: 100.0f32.to_bits(),
            y: 200.0f32.to_bits(),
            z: 0,
            spawn_count: 1,
            intervals: vec![i64::MAX, i64::MAX],
            names: vec![],
        },
    );
    observer.process_diff_at(&ids(&[1]), &store, zone, &mut timers, 1000);
    observer.process_diff_at(&ids(&[]), &store, zone, &mut timers, 1000);
    let (p, _) = observer.process_diff_at(&ids(&[1]), &store, zone, &mut timers, 1600);
    assert!(p);
    let expected = ((i64::MAX as i128 * 2 + 600) / 3) as i64;
    assert_eq!(timers.timers[0].respawn_secs, expected);
}

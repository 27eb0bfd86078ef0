use winshoweq::timer_file::{line_writable, parse_timer_line, timer_file_line, timer_lines};
use winshoweq::timers::{SpawnTimer, TimerStore};

fn sample_timer() -> SpawnTimer {
    SpawnTimer {
        name: "Lord Nagafen".to_owned(),
        spawn_loc: "200.000,100.500".to_owned(),
        all_names: vec!["Lord Nagafen".to_owned(), "a dragon".to_owned()],
        x: 100.5f32.to_bits(),
        y: 200.0f32.to_bits(),
        z: (-50.0f32).to_bits(),
        killed_at: Some(1_700_000_000),
        respawn_secs: 1800,
        is_auto: true,
        spawn_count: 3,
        spawn_time: Some(1_699_999_000),
        zone: "najena".to_owned(),
        sticky: true,
    }
}

#[test]
fn timer_line_exact_text() {
    let t = sample_timer();
    assert!(line_writable(&t));
    assert_eq!(
        timer_file_line(&t, "100.5", "200", "-50"),
        "200.000,100.500;3;1800;1699999000;1700000000;1700001800;Lord Nagafen;Lord Nagafen,a dragon;100.5;200;-50;1"
    );
}

#[test]
fn timer_line_round_trips_every_field() {
    let t = sample_timer();
    let line = timer_file_line(&t, "100.5", "200", "-50");
    let r = parse_timer_line(&line).unwrap();
    assert_eq!(r.name, "Lord Nagafen");
    assert_eq!(r.spawn_loc.as_deref(), Some("200.000,100.500"));
    assert_eq!(r.all_names, vec!["Lord Nagafen", "a dragon"]);
    assert_eq!((r.x.as_str(), r.y.as_str(), r.z.as_str()), ("100.5", "200", "-50"));
    assert_eq!(r.killed_at, Some(1_700_000_000));
    assert_eq!(r.respawn_secs, 1800);
    assert!(r.is_auto);
    assert_eq!(r.spawn_count, 3);
    assert_eq!(r.spawn_time, Some(1_699_999_000));
    assert!(r.sticky);
    assert!(!r.migrated);
}

#[test]
fn timer_store_migrates_old_rust_format() {
    let r = parse_timer_line("Lord Nagafen;100.5;200.0;-50.0;1700000000;1800;1;3;1699999700;najena").unwrap();
    assert_eq!(r.name, "Lord Nagafen");
    assert_eq!(r.respawn_secs, 1800);
    assert_eq!(r.spawn_count, 3);
    assert!(r.is_auto);
    assert!(r.spawn_loc.is_none());
    assert_eq!(r.x, "100.5");
    assert!(r.migrated);
}

#[test]
fn timer_store_migrates_cs_format() {
    let r = parse_timer_line(
        "200.000,100.500;3;1800;5/31/2026 3:00:00 PM;5/31/2026 2:00:00 PM;;Lord Nagafen;Lord Nagafen,a dragon;100.5;200.0;-50.0",
    )
    .unwrap();
    assert_eq!(r.name, "Lord Nagafen");
    assert_eq!(r.respawn_secs, 1800);
    assert_eq!(r.spawn_count, 3);
    assert!(r.is_auto);
    assert_eq!(r.all_names, vec!["Lord Nagafen", "a dragon"]);
    assert!(r.migrated);
    assert_eq!(r.killed_at.unwrap() - r.spawn_time.unwrap(), -3600);
}

#[test]
fn timer_lines_skip_comments_blank_and_bad() {
    let text = "# header\n\n  Fippy;1;2;3;0;600  \nbroken\n200.000,100.500;x;1;2;3;4;n;;1;2;3\n";
    let lines = timer_lines(text);
    assert_eq!(lines.len(), 1);
    assert_eq!(lines[0].name, "Fippy");
    assert_eq!(lines[0].killed_at, None);
    assert_eq!(lines[0].respawn_secs, 600);
}

#[test]
fn timer_line_out_of_range_kill_time_is_dropped() {
    let r = parse_timer_line("a,b;1;60;0;9000000000000000;0;n;;0;0;0").unwrap();
    assert_eq!(r.killed_at, None);
    let mut t = sample_timer();
    t.killed_at = Some(i64::MAX - 10);
    assert!(!line_writable(&t));
}

fn now_secs() -> i64 {
    std::time::SystemTime::now().duration_since(std::time::UNIX_EPOCH).unwrap().as_secs() as i64
}

fn loc_key(x: f32, y: f32) -> String {
    format!("{:.3},{:.3}", y, x)
}

fn new_timer(name: &str, x: f32, y: f32, z: f32, respawn_secs: i64) -> SpawnTimer {
    SpawnTimer::new(name.to_owned(), loc_key(x, y), x.to_bits(), y.to_bits(), z.to_bits(), respawn_secs, now_secs())
}

/// The file text a store is saved as.
fn save_text(store: &TimerStore) -> String {
    let mut out = String::new();
    for t in &store.timers {
        let x = f32::from_bits(t.x).to_string();
        let y = f32::from_bits(t.y).to_string();
        let z = f32::from_bits(t.z).to_string();
        assert!(line_writable(t));
        out.push_str(&timer_file_line(t, &x, &y, &z));
        out.push('\n');
    }
    out
}

/// The store a file's text loads as.
fn load_text(text: &str, zone: &str) -> TimerStore {
    let mut store = TimerStore::new();
    for line in timer_lines(text) {
        let (Ok(x), Ok(y), Ok(z)) = (line.x.parse::<f32>(), line.y.parse::<f32>(), line.z.parse::<f32>()) else {
            continue;
        };
        let spawn_loc = line.spawn_loc.unwrap_or_else(|| loc_key(x, y));
        store.timers.push_back(SpawnTimer {
            name: line.name,
            spawn_loc,
            all_names: line.all_names,
            x: x.to_bits(),
            y: y.to_bits(),
            z: z.to_bits(),
            killed_at: line.killed_at,
            respawn_secs: line.respawn_secs,
            is_auto: line.is_auto,
            spawn_count: line.spawn_count,
            spawn_time: line.spawn_time,
            zone: zone.to_owned(),
            sticky: line.sticky,
        });
    }
    store
}

#[test]
fn timer_store_save_and_load_round_trips() {
    let mut store = TimerStore::default();
    store.add(new_timer("Lord Nagafen", 100.5, 200.0, -50.0, 1800));
    store.add(new_timer("Fippy Darkpaw", 10.0, 20.0, 0.0, 600));
    let text = save_text(&store);

    let loaded = load_text(&text, "najena");
    assert_eq!(loaded.len(), 2);
    assert_eq!(loaded.timers[0].name, "Lord Nagafen");
    assert_eq!(loaded.timers[0].respawn_secs, 1800);
    assert!((f32::from_bits(loaded.timers[0].x) - 100.5).abs() < 0.01);
    assert_eq!(loaded.timers[1].name, "Fippy Darkpaw");
}

#[test]
fn timer_store_save_and_load_round_trips_auto_fields() {
    let mut store = TimerStore::default();
    let mut t = new_timer("Lord Nagafen", 100.5, 200.0, -50.0, 1800);
    t.is_auto = true;
    t.spawn_count = 5;
    t.all_names = vec!["Lord Nagafen".to_owned(), "a dragon".to_owned()];
    store.add(t);
    let text = save_text(&store);

    let loaded = load_text(&text, "nagafen");
    assert_eq!(loaded.len(), 1);
    let t = &loaded.timers[0];
    assert!(t.is_auto);
    assert_eq!(t.spawn_count, 5);
    assert_eq!(t.all_names, vec!["Lord Nagafen", "a dragon"]);
    assert_eq!(t.spawn_loc, loc_key(100.5, 200.0));
}

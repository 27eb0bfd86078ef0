use winshoweq::obs_file::{obs_file_line, obs_lines, parse_obs_line};
use winshoweq::observer::{SpawnObservation, SpawnObserver};

fn loc_key(x: f32, y: f32) -> String {
    format!("{:.3},{:.3}", y, x)
}

/// The file text an observer's observations are saved as.
fn save_text(observer: &SpawnObserver) -> String {
    let mut out = String::new();
    for (key, o) in &observer.observations {
        let x = f32::from_bits(o.x).to_string();
        let y = f32::from_bits(o.y).to_string();
        let z = f32::from_bits(o.z).to_string();
        out.push_str(&obs_file_line(key, o, &x, &y, &z));
        out.push('\n');
    }
    out
}

/// An observer holding the observations a file's text loads as.
fn load_text(text: &str) -> SpawnObserver {
    let mut observer = SpawnObserver::new();
    for l in obs_lines(text) {
        let (Ok(x), Ok(y), Ok(z)) = (l.x.parse::<f32>(), l.y.parse::<f32>(), l.z.parse::<f32>()) else {
            continue;
        };
        let o = SpawnObservation {
            name: l.name,
            x: x.to_bits(),
            y: y.to_bits(),
            z: z.to_bits(),
            spawn_count: l.spawn_count,
            intervals: l.intervals,
            names: l.names,
        };
        observer.load_observation(l.key, o);
    }
    observer
}

#[test]
fn obs_save_and_load_round_trips() {
    let key = loc_key(100.0, 200.0);
    let mut observer = SpawnObserver::new();
    observer.load_observation(
        key.clone(),
        SpawnObservation {
            name: "Fippy Darkpaw".to_owned(),
            x: 100.0f32.to_bits(),
            y: 200.0f32.to_bits(),
            z: (-5.0f32).to_bits(),
            spawn_count: 3,
            intervals: vec![600, 605, 595],
            names: vec!["Fippy Darkpaw".to_owned(), "_Fippy".to_owned()],
        },
    );
    let text = save_text(&observer);

    let loaded = load_text(&text);
    assert_eq!(loaded.observations.len(), 1);
    let (k, obs) = &loaded.observations[0];
    assert_eq!(k, &key);
    assert_eq!(obs.name, "Fippy Darkpaw");
    assert_eq!(obs.spawn_count, 3);
    assert_eq!(obs.intervals, vec![600, 605, 595]);
    assert_eq!(obs.names, vec!["Fippy Darkpaw", "_Fippy"]);
    assert!((f32::from_bits(obs.x) - 100.0).abs() < 0.01);
    assert!((f32::from_bits(obs.y) - 200.0).abs() < 0.01);
}

#[test]
fn obs_line_exact_text() {
    let o = SpawnObservation {
        name: "Fippy Darkpaw".to_owned(),
        x: 0,
        y: 0,
        z: 0,
        spawn_count: 3,
        intervals: vec![600, -5],
        names: vec!["Fippy Darkpaw".to_owned(), "_Fippy".to_owned()],
    };
    assert_eq!(
        obs_file_line("200.000,100.000", &o, "100", "200", "-5"),
        "200.000,100.000;Fippy Darkpaw;100;200;-5;3;600,-5;Fippy Darkpaw|_Fippy"
    );
}

#[test]
fn obs_line_optional_fields_and_bad_intervals() {
    let a = parse_obs_line("k,1;Name;1;2;3;4").unwrap();
    assert_eq!(a.spawn_count, 4);
    assert!(a.intervals.is_empty());
    assert!(a.names.is_empty());
    let b = parse_obs_line("k,1;Name;1;2;3;4;600,x,610;a|b;c").unwrap();
    assert_eq!(b.intervals, vec![600, 610]);
    assert_eq!(b.names, vec!["a", "b;c"]);
    assert!(parse_obs_line("k,1;Name;1;2;3").is_none());
    assert!(parse_obs_line("k,1;Name;1;2;3;-4").is_none());
}

#[test]
fn obs_later_line_replaces_earlier_key() {
    let text = "k;A;0;0;0;1;600;A\n# c\nk;B;0;0;0;2;700;B\n";
    let loaded = load_text(text);
    assert_eq!(loaded.observations.len(), 1);
    assert_eq!(loaded.observations[0].1.name, "B");
}

#[test]
fn obs_any_intervals_are_loaded() {
    let mut observer = SpawnObserver::new();
    let o = SpawnObservation {
        name: "x".to_owned(),
        x: 0,
        y: 0,
        z: 0,
        spawn_count: 1,
        intervals: vec![-1, i64::MAX, 5, 6, 7, 8, 9, 10, 11, 12, 13, 14],
        names: vec![],
    };
    observer.load_observation("k".to_owned(), o);
    assert_eq!(observer.observations.len(), 1);
    assert_eq!(observer.observations[0].1.intervals.len(), 12);
}

use winshoweq::map_text::{map_entries, parse_map_entry, MapEntry, MapError};

const SAMPLE: &str = "\
L -100,-200,0,100,-200,0,255,0,0
L -100,-200,0,-100,200,0,0,255,0
P -75,-150,0,125,0,125,2,Entrance
P 0,0,50,0,0,255,1,Center
# this is a comment and should be ignored
unknown line here
";

struct Line {
    p1: (f32, f32, f32),
    p2: (f32, f32, f32),
    color: [u8; 3],
}

struct Label {
    pos: (f32, f32, f32),
    text: String,
    color: [u8; 3],
    size: u8,
}

fn num(s: &str) -> f32 {
    s.parse().unwrap()
}

fn comp(s: &str) -> u8 {
    num(s).clamp(0.0, 255.0) as u8
}

/// The map a layer's text gives, Y negated as the display draws it.
fn parse_str(text: &str) -> (Vec<Line>, Vec<Label>) {
    let mut lines = Vec::new();
    let mut labels = Vec::new();
    for e in map_entries(text) {
        match e {
            MapEntry::Line(f) => lines.push(Line {
                p1: (num(&f[0]), -num(&f[1]), num(&f[2])),
                p2: (num(&f[3]), -num(&f[4]), num(&f[5])),
                color: [comp(&f[6]), comp(&f[7]), comp(&f[8])],
            }),
            MapEntry::Label(f, text) => labels.push(Label {
                pos: (num(&f[0]), -num(&f[1]), num(&f[2])),
                text,
                color: [comp(&f[3]), comp(&f[4]), comp(&f[5])],
                size: comp(&f[6]),
            }),
        }
    }
    (lines, labels)
}

#[test]
fn parses_line_count() {
    let (lines, _) = parse_str(SAMPLE);
    assert_eq!(lines.len(), 2);
}

#[test]
fn parses_label_count() {
    let (_, labels) = parse_str(SAMPLE);
    assert_eq!(labels.len(), 2);
}

#[test]
fn line_coords_y_negated() {
    let (lines, _) = parse_str(SAMPLE);
    let l = &lines[0];
    assert!((l.p1.0 - (-100.0)).abs() < 0.01);
    assert!((l.p1.1 - 200.0).abs() < 0.01);
    assert!((l.p1.2 - 0.0).abs() < 0.01);
    assert!((l.p2.0 - 100.0).abs() < 0.01);
    assert!((l.p2.1 - 200.0).abs() < 0.01);
}

#[test]
fn line_color() {
    let (lines, _) = parse_str(SAMPLE);
    assert_eq!(lines[0].color, [255, 0, 0]);
    assert_eq!(lines[1].color, [0, 255, 0]);
}

#[test]
fn label_text_and_size() {
    let (_, labels) = parse_str(SAMPLE);
    assert_eq!(labels[0].text, "Entrance");
    assert_eq!(labels[0].size, 2);
    assert_eq!(labels[1].text, "Center");
    assert_eq!(labels[1].size, 1);
}

#[test]
fn label_coords_y_negated() {
    let (_, labels) = parse_str(SAMPLE);
    let lbl = &labels[0];
    assert!((lbl.pos.0 - (-75.0)).abs() < 0.01);
    assert!((lbl.pos.1 - 150.0).abs() < 0.01);
}

#[test]
fn label_color() {
    let (_, labels) = parse_str(SAMPLE);
    assert_eq!(labels[0].color, [125, 0, 125]);
}

#[test]
fn unknown_tokens_skipped() {
    let (lines, _) = parse_str("X garbage\nL 0,0,0,1,1,1,255,255,255\n");
    assert_eq!(lines.len(), 1);
}

#[test]
fn map_fields_split_on_commas_and_spaces() {
    match parse_map_entry("  l 1 , 2,,3\t4,5,6,7,8,9,10  ") {
        Some(MapEntry::Line(f)) => assert_eq!(f, vec!["1", "2", "3", "4", "5", "6", "7", "8", "9"]),
        _ => panic!("expected a line"),
    }
    match parse_map_entry("p 1,2,3,4,5,6,7,  Big  label , here ") {
        Some(MapEntry::Label(f, t)) => {
            assert_eq!(f, vec!["1", "2", "3", "4", "5", "6", "7"]);
            assert_eq!(t, "Big  label , here");
        }
        _ => panic!("expected a label"),
    }
    assert!(parse_map_entry("L 1,2,3,4,5,6,7,8").is_none());
    assert!(parse_map_entry("P 1,2,3,4,5,6").is_none());
    assert!(parse_map_entry("   ").is_none());
}

#[test]
fn map_error_messages() {
    assert_eq!(MapError::NoLayersFound.message(), "no map layer files found for zone");
}

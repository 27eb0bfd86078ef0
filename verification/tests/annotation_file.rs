use winshoweq::annotation_file::{annotation_file_line, annotation_lines, parse_annotation_line};
use winshoweq::stores::{AnnotationStore, MapAnnotation};

/// The file text a store is saved as.
fn save_text(store: &AnnotationStore) -> String {
    let mut out = String::new();
    for a in &store.items {
        let x = f32::from_bits(a.x).to_string();
        let y = f32::from_bits(a.y).to_string();
        let z = f32::from_bits(a.z).to_string();
        out.push_str(&annotation_file_line(a, &x, &y, &z));
        out.push('\n');
    }
    out
}

/// The store a file's text loads as.
fn load_text(text: &str) -> AnnotationStore {
    let mut store = AnnotationStore::default();
    for l in annotation_lines(text) {
        let (Ok(x), Ok(y), Ok(z)) = (l.x.parse::<f32>(), l.y.parse::<f32>(), l.z.parse::<f32>()) else {
            continue;
        };
        assert!(l.id < u32::MAX);
        store.push_loaded(MapAnnotation {
            id: l.id,
            text: l.text,
            x: x.to_bits(),
            y: y.to_bits(),
            z: z.to_bits(),
            color: l.color,
            size: l.size,
        });
    }
    store
}

#[test]
fn save_and_load_round_trips() {
    let mut store = AnnotationStore::default();
    store.add("Banker".to_owned(), 100.0f32.to_bits(), 200.0f32.to_bits(), 5.0f32.to_bits(), [255, 255, 0], 12);
    store.add("Safe camp".to_owned(), (-50.0f32).to_bits(), 80.0f32.to_bits(), 0.0f32.to_bits(), [0, 255, 0], 14);
    let text = save_text(&store);

    let loaded = load_text(&text);
    assert_eq!(loaded.items.len(), 2);
    assert_eq!(loaded.items[0].text, "Banker");
    assert_eq!(loaded.items[1].color, [0, 255, 0]);
    assert_eq!(loaded.items[1].size, 14);
    assert!((f32::from_bits(loaded.items[0].x) - 100.0).abs() < 0.01);
}

#[test]
fn next_id_restored_on_load() {
    let zero = 0.0f32.to_bits();
    let mut store = AnnotationStore::default();
    store.add("A".to_owned(), zero, zero, zero, [255, 255, 255], 12);
    store.add("B".to_owned(), zero, zero, zero, [255, 255, 255], 12);
    let text = save_text(&store);

    let mut loaded = load_text(&text);
    loaded.add("C".to_owned(), zero, zero, zero, [255, 255, 255], 12);
    // New annotation should get id 2, not 0
    assert_eq!(loaded.items[2].id, 2);
}

#[test]
fn annotation_line_exact_text() {
    let a = MapAnnotation {
        id: 7,
        text: "Safe camp".to_owned(),
        x: 0,
        y: 0,
        z: 0,
        color: [0, 255, 0],
        size: 14,
    };
    assert_eq!(annotation_file_line(&a, "-50", "80", "0"), "7;Safe camp;-50;80;0;0;255;0;14");
}

#[test]
fn annotation_size_defaults_to_twelve() {
    let a = parse_annotation_line("3;Gate;1;2;3;10;20;30").unwrap();
    assert_eq!(a.id, 3);
    assert_eq!(a.text, "Gate");
    assert_eq!((a.x.as_str(), a.y.as_str(), a.z.as_str()), ("1", "2", "3"));
    assert_eq!(a.color, [10, 20, 30]);
    assert_eq!(a.size, 12);
    let b = parse_annotation_line("3;Gate;1;2;3;10;20;30;big").unwrap();
    assert_eq!(b.size, 12);
}

#[test]
fn annotation_bad_lines_rejected() {
    assert!(parse_annotation_line("x;Gate;1;2;3;10;20;30").is_none());
    assert!(parse_annotation_line("3;Gate;1;2;3;10;20;300").is_none());
    assert!(parse_annotation_line("3;Gate;1;2;3;10;20").is_none());
}

#[test]
fn annotation_lines_skip_comments_and_blanks() {
    let text = "# notes\n\n  1;A;0;0;0;1;2;3;9  \nbad\n";
    let ls = annotation_lines(text);
    assert_eq!(ls.len(), 1);
    assert_eq!(ls[0].id, 1);
    assert_eq!(ls[0].size, 9);
}

#[test]
fn push_loaded_keeps_next_id_above_ids() {
    let mut store = AnnotationStore::default();
    let zero = 0.0f32.to_bits();
    let mk = |id: u32| MapAnnotation { id, text: String::new(), x: zero, y: zero, z: zero, color: [0, 0, 0], size: 12 };
    store.push_loaded(mk(5));
    assert_eq!(store.next_id, 6);
    store.push_loaded(mk(2));
    assert_eq!(store.next_id, 6);
    assert_eq!(store.items.len(), 2);
}

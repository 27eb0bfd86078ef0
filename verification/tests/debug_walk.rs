use std::collections::HashMap;

use winshoweq::debug_walk::{
    name_hits, name_read_addr, plan_string_search, pointer_hits, zone_candidates, zone_text_matches,
    DebugWalk, SearchMode,
};
use winshoweq::offsets::SpawnOffsets;

fn node(name: &str, id: u32, prev: u64, next: u64) -> Vec<u8> {
    let mut b = vec![0u8; 64];
    b[..name.len()].copy_from_slice(name.as_bytes());
    b[32..40].copy_from_slice(&prev.to_le_bytes());
    b[40..48].copy_from_slice(&next.to_le_bytes());
    b[48..52].copy_from_slice(&id.to_le_bytes());
    b
}

fn offsets() -> SpawnOffsets {
    SpawnOffsets { name: 0, prev: 32, next: 40, id: 48, buf_size: 64, ..SpawnOffsets::default() }
}

/// Run a walk over `nodes`; the printed lines, and the pointer searched for.
fn run(nodes: &HashMap<u64, Vec<u8>>, start: u64, reverse: bool) -> (Vec<String>, Option<u64>) {
    let (mut w, step) = DebugWalk::start(start, reverse, offsets());
    assert_eq!(w.buf_size, 64);
    let mut lines = step.lines;
    let mut read = step.read;
    let mut scan = None;
    let mut n = 0;
    while let Some(a) = read {
        n += 1;
        assert!(n < 10_000);
        let s = w.on_bytes(nodes.get(&a).cloned());
        lines.extend(s.lines);
        read = s.read;
        scan = s.scan_for;
    }
    (lines, scan)
}

#[test]
fn debug_walk_forward_prints_each_entry() {
    let mut nodes = HashMap::new();
    nodes.insert(0x1000, node("Fippy", 7, 0, 0x2000));
    nodes.insert(0x2000, node("Guard", 8, 0x1000, 0));
    let (lines, scan) = run(&nodes, 0x1000, false);
    assert_eq!(
        lines,
        vec![
            " Walking spawnlist forward.",
            "    -----------------------------------",
            "    NameOffset -> Fippy",
            "    SpawnIDOffset -> 7",
            "    PrevOffset -> 0x0",
            "    NextOffset -> 0x2000",
            "    -----------------------------------",
            "    NameOffset -> Guard",
            "    SpawnIDOffset -> 8",
            "    PrevOffset -> 0x1000",
            "    NextOffset -> 0x0",
            " Discovered 2 spawn entities during the walk.",
        ]
    );
    assert_eq!(scan, None);
}

#[test]
fn debug_walk_reverse_stops_at_unreadable_link_and_searches() {
    let mut nodes = HashMap::new();
    nodes.insert(0x2000, node("Guard", 8, 0xDEAD0, 0));
    let (lines, scan) = run(&nodes, 0x2000, true);
    assert_eq!(lines[0], " Walking spawnlist in reverse.");
    assert_eq!(lines[4], "    PrevOffset -> 0xDEAD0");
    assert_eq!(lines.last().unwrap(), " Discovered 1 spawn entities during the walk.");
    assert_eq!(scan, Some(0x2000));
}

#[test]
fn debug_walk_self_link_and_unreadable_start() {
    let mut nodes = HashMap::new();
    nodes.insert(0x3000, node("Loop", 1, 0, 0x3000));
    let (lines, _) = run(&nodes, 0x3000, false);
    assert_eq!(lines.last().unwrap(), " Discovered 1 spawn entities during the walk.");
    let (lines, scan) = run(&nodes, 0x9999, false);
    assert_eq!(lines, vec![" Walking spawnlist forward.", " Discovered 0 spawn entities during the walk."]);
    assert_eq!(scan, None);
}

#[test]
fn pointer_hits_finds_every_position() {
    let mut buf = vec![0u8; 24];
    buf[3..11].copy_from_slice(&0x1122_3344_5566_7788u64.to_le_bytes());
    buf[16..24].copy_from_slice(&0x1122_3344_5566_7788u64.to_le_bytes());
    assert_eq!(pointer_hits(&buf, 0x1122_3344_5566_7788), vec![3, 16]);
    assert_eq!(pointer_hits(&buf, 5), Vec::<usize>::new());
}

#[test]
fn string_search_plans_and_matches() {
    assert!(plan_string_search(0, 16, "x", 0, 0, 0).is_none());
    assert!(plan_string_search(0x1000, 0, "x", 0, 0, 0).is_none());
    assert!(plan_string_search(0x1000, 16, "", 0, 0, 0).is_none());
    let p = plan_string_search(0x1000, 0x100, "Gnome", 4, 0x10, 0x20).unwrap();
    assert_eq!(p.mode, SearchMode::GroundName);
    assert_eq!(p.from, 0x1000 - 0x400);
    assert_eq!(p.len, 0x800);
    assert_eq!(p.name_off, 0x20);
    let p = plan_string_search(0x100, 0x100, "Fippy", 2, 0x10, 0x20).unwrap();
    assert_eq!(p.mode, SearchMode::Name);
    assert_eq!(p.from, 0);
    assert_eq!(p.name_off, 0x10);
    assert_eq!(plan_string_search(0x100, 1, "x", 5, 0, 0).unwrap().mode, SearchMode::Nothing);

    assert_eq!(zone_candidates(b"abcab", 0x100, b'a'), vec![0x100, 0x103]);
    assert!(zone_text_matches(b"gfaydark\0junk", "gfaydark"));
    assert!(!zone_text_matches(b"gfay\0", "gfaydark"));

    assert_eq!(name_read_addr(0x500, Some(0x400), 0x10), Some(0x410));
    assert_eq!(name_read_addr(0x500, Some(0x600), 0x10), None);
    assert_eq!(name_read_addr(0x500, Some(0), 0x10), None);
    assert_eq!(name_read_addr(0x500, None, 0x10), None);

    assert!(name_hits(SearchMode::GroundName, "IT63_ACTORDEF", "IT"));
    assert!(!name_hits(SearchMode::Name, "Fippy Darkpaw", "Fippy"));
    assert!(name_hits(SearchMode::Name, "Fippy", "Fippy"));
}

use std::collections::HashMap;

use winshoweq::mem_walk::{GroundWalk, MemRead, SpawnListWalk, MAX_GROUND_ITEMS};
use winshoweq::offsets::{ItemOffsets, SpawnOffsets};

/// A fake process memory: 64-byte nodes and stored pointers.
struct Memory {
    nodes: HashMap<u64, Vec<u8>>,
    pointers: HashMap<u64, u64>,
    texts: HashMap<u64, String>,
}

fn node(name: &str, id: u32, prev: u64, next: u64) -> Vec<u8> {
    let mut b = vec![0u8; 64];
    b[..name.len()].copy_from_slice(name.as_bytes());
    b[32..40].copy_from_slice(&prev.to_le_bytes());
    b[40..48].copy_from_slice(&next.to_le_bytes());
    b[48..52].copy_from_slice(&id.to_le_bytes());
    b
}

fn spawn_offsets() -> SpawnOffsets {
    SpawnOffsets { name: 0, prev: 32, next: 40, id: 48, buf_size: 64, ..SpawnOffsets::default() }
}

fn item_offsets() -> ItemOffsets {
    ItemOffsets { name: 0, prev: 32, next: 40, id: 48, buf_size: 64, ..ItemOffsets::default() }
}

fn walk_spawns(mem: &Memory, list_addr: u64) -> Vec<u32> {
    let (mut w, mut read) = SpawnListWalk::start(list_addr, spawn_offsets());
    let mut reads = 0;
    while let Some(r) = read {
        reads += 1;
        assert!(reads < 10_000);
        read = match r {
            MemRead::Pointer(a) => w.on_pointer(mem.pointers.get(&a).copied()),
            MemRead::Bytes(a, n) => {
                assert_eq!(n, 64);
                w.on_bytes(mem.nodes.get(&a).cloned())
            }
            MemRead::Text(..) => unreachable!(),
        };
    }
    w.records.iter().map(|r| r.id).collect()
}

fn walk_ground(mem: &Memory, ground_addr: u64) -> Vec<u32> {
    let (mut w, mut read) = GroundWalk::start(ground_addr, item_offsets());
    while let Some(r) = read {
        read = match r {
            MemRead::Pointer(a) => w.on_pointer(mem.pointers.get(&a).copied()),
            MemRead::Bytes(a, _) => w.on_bytes(mem.nodes.get(&a).cloned()),
            MemRead::Text(a, n) => {
                assert_eq!(n, 4);
                let t = mem.texts.get(&a).cloned().unwrap_or_default();
                w.on_text(&t)
            }
        };
    }
    w.records.iter().map(|r| r.id).collect()
}

#[test]
fn spawn_walk_backs_up_to_the_head_then_walks_forward() {
    let mut mem = Memory { nodes: HashMap::new(), pointers: HashMap::new(), texts: HashMap::new() };
    mem.nodes.insert(0x1000, node("a", 1, 0, 0x2000));
    mem.nodes.insert(0x2000, node("b", 2, 0x1000, 0x3000));
    mem.nodes.insert(0x3000, node("c", 3, 0x2000, 0));
    mem.pointers.insert(0x500, 0x2000);
    assert_eq!(walk_spawns(&mem, 0x500), vec![1, 2, 3]);
}

#[test]
fn spawn_walk_stops_at_self_link_and_missing_list() {
    let mut mem = Memory { nodes: HashMap::new(), pointers: HashMap::new(), texts: HashMap::new() };
    mem.nodes.insert(0x1000, node("a", 1, 0, 0x1000));
    mem.pointers.insert(0x500, 0x1000);
    mem.pointers.insert(0x600, 0);
    assert_eq!(walk_spawns(&mem, 0x500), vec![1]);
    assert!(walk_spawns(&mem, 0x600).is_empty());
    assert!(walk_spawns(&mem, 0).is_empty());
    assert!(walk_spawns(&mem, 0x700).is_empty());
}

#[test]
fn spawn_walk_back_steps_are_bounded() {
    // A two-node cycle of prev links: the walk back gives up and walks forward.
    let mut mem = Memory { nodes: HashMap::new(), pointers: HashMap::new(), texts: HashMap::new() };
    mem.nodes.insert(0x1000, node("a", 1, 0x2000, 0x2000));
    mem.nodes.insert(0x2000, node("b", 2, 0x1000, 0x2000));
    mem.pointers.insert(0x500, 0x1000);
    assert_eq!(walk_spawns(&mem, 0x500), vec![1, 2]);
}

#[test]
fn ground_walk_direct_item_and_container() {
    let mut mem = Memory { nodes: HashMap::new(), pointers: HashMap::new(), texts: HashMap::new() };
    mem.nodes.insert(0x1000, node("IT10", 10, 0, 0x2000));
    mem.nodes.insert(0x2000, node("IT11", 11, 0x1000, 0));
    mem.texts.insert(0x1000, "IT10".to_owned());
    mem.pointers.insert(0x500, 0x1000);
    assert_eq!(walk_ground(&mem, 0x500), vec![10, 11]);

    // A container holding a pointer to the first item.
    mem.texts.insert(0x9000, "xx".to_owned());
    mem.pointers.insert(0x9000, 0x1000);
    mem.pointers.insert(0x600, 0x9000);
    assert_eq!(walk_ground(&mem, 0x600), vec![10, 11]);
    assert!(walk_ground(&mem, 0).is_empty());
}

#[test]
fn ground_walk_reads_at_most_the_limit() {
    let mut mem = Memory { nodes: HashMap::new(), pointers: HashMap::new(), texts: HashMap::new() };
    for i in 0..400u64 {
        let a = 0x1000 + i * 0x100;
        mem.nodes.insert(a, node("IT", i as u32, 0, a + 0x100));
    }
    mem.texts.insert(0x1000, "IT".to_owned());
    mem.pointers.insert(0x500, 0x1000);
    assert_eq!(walk_ground(&mem, 0x500).len(), MAX_GROUND_ITEMS as usize);
}

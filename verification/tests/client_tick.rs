use winshoweq::alerts::{AlertEngine, AlertMode, AudioCmd};
use winshoweq::client_tick::{ClientTick, TickAction};
use winshoweq::filters::{FilterCategory, FilterSet};
use winshoweq::protocol::{InGameTime, Packet, SpawnRecord, OPT_GROUND, OPT_SPAWNS};

fn spawn(id: u32, name: &str, spawn_type: u8, x: f32, y: f32) -> SpawnRecord {
    let mut r = SpawnRecord::zeroed();
    r.id = id;
    r.flags = OPT_SPAWNS;
    r.spawn_type = spawn_type;
    r.x = x.to_bits();
    r.y = y.to_bits();
    for (i, b) in name.bytes().enumerate() {
        r.name[i] = b;
    }
    r
}

fn ground(id: u32) -> SpawnRecord {
    let mut r = SpawnRecord::zeroed();
    r.id = id;
    r.flags = OPT_GROUND;
    r
}

fn fresh() -> ClientTick {
    ClientTick::new(FilterSet::new(), AlertEngine::new())
}

#[test]
fn tick_zone_change_clears_and_reports_previous_zone() {
    let mut t = fresh();
    t.apply_packet(Packet::Zone { name: "gfaydark".to_owned() }, 0);
    t.apply_packet(Packet::Spawn(spawn(1, "an_orc", 1, 1.0, 2.0)), 0);
    t.apply_packet(Packet::Target(spawn(1, "an_orc", 1, 1.0, 2.0)), 0);
    let r = t.apply_packet(Packet::Zone { name: "crushbone".to_owned() }, 0);
    match r {
        TickAction::ZoneChanged { previous } => assert_eq!(previous, "gfaydark"),
        _ => panic!("expected a zone change"),
    }
    assert_eq!(t.zone, "crushbone");
    assert!(t.spawns.is_empty());
    assert!(t.spawn_points.is_empty());
    assert!(t.npc_ids.is_empty() && t.all_ids.is_empty());
    assert_eq!(t.target_id, None);
    assert!(t.spawns_dirty);
}

#[test]
fn tick_spawns_join_ids_and_keep_first_point() {
    let mut t = fresh();
    t.apply_packet(Packet::Spawn(spawn(1, "an_orc", 1, 1.0, 2.0)), 0);
    t.apply_packet(Packet::Spawn(spawn(2, "Soandso", 0, 5.0, 6.0)), 0);
    t.apply_packet(Packet::Spawn(spawn(1, "an_orc", 1, 3.0, 4.0)), 0);
    t.apply_packet(Packet::Self_(spawn(9, "Me", 0, 0.0, 0.0)), 0);
    assert_eq!(t.npc_ids, vec![1]);
    assert_eq!(t.all_ids, vec![1, 2, 9]);
    assert_eq!(t.self_id, Some(9));
    assert_eq!(t.spawn_points.get(&1), Some(&(1.0f32.to_bits(), 2.0f32.to_bits())));
    assert_eq!(t.spawns.get(1).unwrap().x, 3.0f32.to_bits());
    t.apply_packet(Packet::World(InGameTime { hour: 5, minute: 6, day: 7, month: 8, year: 3100 }), 0);
    assert_eq!(t.world_time.hour, 5);
}

#[test]
fn tick_end_removes_unseen_spawns_and_target() {
    let mut t = fresh();
    t.apply_packet(Packet::Spawn(spawn(1, "an_orc", 1, 1.0, 2.0)), 0);
    t.apply_packet(Packet::Spawn(spawn(2, "a_bat", 1, 1.0, 2.0)), 0);
    t.apply_packet(Packet::Target(spawn(2, "a_bat", 1, 1.0, 2.0)), 0);
    t.end_tick_at(&Vec::new(), 100);
    assert_eq!(t.spawns.len(), 2);
    assert!(t.all_ids.is_empty());
    // A tick that carries only spawn 1 drops spawn 2 and the target on it.
    t.begin_tick(&vec![spawn(1, "an_orc", 1, 1.0, 2.0)]);
    t.apply_packet(Packet::Spawn(spawn(1, "an_orc", 1, 1.0, 2.0)), 0);
    t.end_tick_at(&Vec::new(), 101);
    assert_eq!(t.spawns.len(), 1);
    assert!(t.spawns.get(2).is_none());
    assert_eq!(t.target_id, None);
    assert!(t.spawn_points.get(&2).is_none());
    // An empty tick removes nothing.
    t.begin_tick(&Vec::new());
    t.end_tick_at(&Vec::new(), 102);
    assert_eq!(t.spawns.len(), 1);
}

#[test]
fn tick_begin_clears_ground_only_when_ground_arrives() {
    let mut t = fresh();
    t.apply_packet(Packet::Ground(ground(5)), 0);
    assert_eq!(t.ground.len(), 1);
    t.begin_tick(&vec![spawn(1, "an_orc", 1, 1.0, 2.0)]);
    assert_eq!(t.ground.len(), 1);
    t.begin_tick(&vec![ground(6)]);
    assert_eq!(t.ground.len(), 0);
    assert!(t.npc_ids.is_empty());
}

#[test]
fn tick_flagged_spawn_alerts_once() {
    let mut filters = FilterSet::new();
    filters.add(FilterCategory::Danger, "gnoll");
    let mut alerts = AlertEngine::new();
    alerts.danger_mode = AlertMode::Beep;
    let mut t = ClientTick::new(filters, alerts);
    match t.apply_packet(Packet::Spawn(spawn(3, "a_gnoll", 1, 1.0, 2.0)), 0) {
        TickAction::Alert(a) => {
            assert_eq!(a.audio, AudioCmd::Beep);
            assert_eq!(a.log, "Alert [Danger]: a_gnoll");
        }
        _ => panic!("expected an alert"),
    }
    assert!(matches!(
        t.apply_packet(Packet::Spawn(spawn(3, "a_gnoll", 1, 1.0, 2.0)), 1),
        TickAction::Stay
    ));
    assert!(matches!(
        t.apply_packet(Packet::Spawn(spawn(4, "an_orc", 1, 1.0, 2.0)), 1),
        TickAction::Stay
    ));
}

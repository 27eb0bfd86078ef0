//! One network tick of the map client: the records of a response applied in
//! turn to the client's stores, then the tick closed by the respawn diff and
//! the removal of spawns the server no longer sends.  What needs files, the
//! clock's formatting or sound (saving and loading a zone's timers, playing
//! an alert) is handed back to the caller as an action.
use std::collections::HashMap;
use vstd::prelude::*;
use crate::alerts::{Alert, AlertEngine, ZONE_SUPPRESS_MS};
use crate::filters::{classified, FilterCategory, FilterSet};
use crate::observer::{
    diff_outcome, next_prev, pend_m, prev_m, skipped_zone, state_of, ObservedSpawn,
    SpawnObserver,
};
use crate::protocol::{InGameTime, Packet, SpawnRecord, OPT_GROUND};
use crate::spawns::{spawn_of, SpawnInfo, SpawnStore};
use crate::stores::{item_of, GroundStore};
use crate::text::unicode_lowercase;
use crate::timers::{unix_now, TimerStore, CLOCK_MAX};

verus! {

broadcast use vstd::std_specs::hash::group_hash_axioms;

/// The spawn type the server counts as an NPC.
pub const NPC_SPAWN_TYPE: u8 = 1;

/// What the caller does after a record is applied.
pub enum TickAction {
    /// Nothing more.
    Stay,
    /// Play and log an alert for a flagged spawn.
    Alert(Alert),
    /// The zone changed from `previous` (empty when there was none): the
    /// caller saves the previous zone's timers and observations and loads
    /// those of the new zone and its zone filters.
    ZoneChanged { previous: String },
}

/// The client's state between and during ticks.
pub struct ClientTick {
    pub spawns: SpawnStore,
    pub ground: GroundStore,
    pub timers: TimerStore,
    pub observer: SpawnObserver,
    pub alerts: AlertEngine,
    pub filters: FilterSet,
    pub zone: String,
    pub self_id: Option<u32>,
    pub target_id: Option<u32>,
    pub world_time: InGameTime,
    /// The NPC ids seen in this tick, each once, in the order first seen.
    pub npc_ids: Vec<u32>,
    /// Every spawn id seen in this tick, each once.
    pub all_ids: Vec<u32>,
    /// Where each spawn was first seen since it appeared: `f32` bit
    /// patterns of x and y.
    pub spawn_points: HashMap<u32, (u32, u32)>,
    /// A timer was promoted since the timers were last saved.
    pub timers_dirty: bool,
    /// The spawn list changed since the caller last looked.
    pub spawns_dirty: bool,
}

/// `v` with `id` added at the end unless already there.
pub open spec fn with_id(v: Seq<u32>, id: u32) -> Seq<u32> {
    if v.contains(id) {
        v
    } else {
        v.push(id)
    }
}

/// The spawn points with `id` at `(x, y)` unless it has one already.
pub open spec fn with_point(m: Map<u32, (u32, u32)>, id: u32, x: u32, y: u32) -> Map<u32, (u32, u32)> {
    if m.contains_key(id) {
        m
    } else {
        m.insert(id, (x, y))
    }
}

/// Does a spawn check at time `now_ms` alert?  Not once it has since the
/// last zone change, nor while alerts are held back, nor without a
/// category, nor when its category's mode is none.
pub open spec fn alert_fires(e: AlertEngine, id: u32, cat: Option<FilterCategory>, now_ms: u64) -> bool {
    let held = e.suppressed_until() matches Some(t) && now_ms < t;
    &&& !e.alerted_ids().contains(id)
    &&& !held
    &&& cat is Some
    &&& !(e.mode_for(cat->0) is Off)
}

/// The ids a closing tick removes: the spawns not seen in it, none when the
/// tick saw nothing.
pub open spec fn stale_ids(spawns: Map<u32, SpawnInfo>, seen: Seq<u32>) -> Set<u32> {
    if seen.len() == 0 {
        Set::empty()
    } else {
        spawns.dom().difference(seen.to_set())
    }
}

/// The tick's respawn diff at time `now` took `before` to `after` with log
/// `log`: the observer, timers and log are the diff's outcome, and the
/// timers are marked for saving when it promoted one.
pub open spec fn diff_applied(
    before: ClientTick,
    after: ClientTick,
    observed: Seq<ObservedSpawn>,
    log: Seq<String>,
    now: i64,
) -> bool {
    let d = diff_outcome(before.observer, before.timers.timers@, before.npc_ids@, observed, before.zone@, now);
    &&& state_of(after.observer, after.timers.timers@, log, d.promoted) == d
    &&& after.timers_dirty == (before.timers_dirty || d.promoted)
}

/// Does any record of the response carry a ground item?
pub open spec fn has_ground(records: Seq<SpawnRecord>) -> bool {
    exists|i: int| 0 <= i < records.len() && #[trigger] records[i].flags == OPT_GROUND
}

fn has_id(v: &Vec<u32>, id: u32) -> (b: bool)
    ensures
        b == v@.contains(id),
{
    let mut i: usize = 0;
    while i < v.len()
        invariant
            i <= v@.len(),
            forall|j: int| 0 <= j < i ==> v@[j] != id,
        decreases v@.len() - i,
    {
        if v[i] == id {
            return true;
        }
        i = i + 1;
    }
    false
}

fn add_id(v: &mut Vec<u32>, id: u32)
    ensures
        final(v)@ == with_id(old(v)@, id),
{
    if !has_id(v, id) {
        v.push(id);
    }
}

fn any_ground(records: &Vec<SpawnRecord>) -> (b: bool)
    ensures
        b == has_ground(records@),
{
    let mut i: usize = 0;
    while i < records.len()
        invariant
            i <= records@.len(),
            forall|j: int| 0 <= j < i ==> records@[j].flags != OPT_GROUND,
        decreases records@.len() - i,
    {
        if records[i].flags == OPT_GROUND {
            return true;
        }
        i = i + 1;
    }
    false
}

/// Remove the spawns not seen in the tick (`seen`), with their spawn
/// points, and forget the target if it was one of them; nothing when the
/// tick saw nothing.
fn prune(
    spawns: &mut SpawnStore,
    points: &mut HashMap<u32, (u32, u32)>,
    target: &mut Option<u32>,
    seen: &Vec<u32>,
)
    ensures
        final(spawns)@ == old(spawns)@.remove_keys(stale_ids(old(spawns)@, seen@)),
        final(points)@ == old(points)@.remove_keys(stale_ids(old(spawns)@, seen@)),
        *final(target) == (if *old(target) matches Some(t) && stale_ids(old(spawns)@, seen@).contains(t) {
            None
        } else {
            *old(target)
        }),
{
    let ghost s0 = spawns@;
    let ghost p0 = points@;
    let ghost t0 = *target;
    let ghost stale = stale_ids(s0, seen@);
    if seen.len() == 0 {
        assert(s0.remove_keys(stale) =~= s0);
        assert(p0.remove_keys(stale) =~= p0);
        return;
    }
    let ids = spawns.ids();
    let mut k: usize = 0;
    while k < ids.len()
        invariant
            k <= ids@.len(),
            ids@.to_set() == s0.dom(),
            seen@.len() > 0,
            stale == stale_ids(s0, seen@),
            spawns@ == s0.remove_keys(stale.intersect(ids@.take(k as int).to_set())),
            points@ == p0.remove_keys(stale.intersect(ids@.take(k as int).to_set())),
            *target == (if t0 matches Some(t) && stale.intersect(ids@.take(k as int).to_set()).contains(t) {
                None
            } else {
                t0
            }),
        decreases ids@.len() - k,
    {
        let id = ids[k];
        let ghost before = stale.intersect(ids@.take(k as int).to_set());
        let ghost after = stale.intersect(ids@.take(k + 1).to_set());
        assert(ids@.take(k + 1) =~= ids@.take(k as int).push(id));
        assert(ids@.take(k + 1).to_set() =~= ids@.take(k as int).to_set().insert(id)) by {
            ids@.take(k as int).lemma_push_to_set_commute(id);
        }
        assert(s0.dom().contains(id)) by {
            assert(ids@.contains(id)) by {
                assert(ids@[k as int] == id);
            }
        }
        if !has_id(seen, id) {
            assert(stale.contains(id));
            assert(after =~= before.insert(id));
            spawns.remove(id);
            points.remove(&id);
            assert(spawns@ =~= s0.remove_keys(after));
            assert(points@ =~= p0.remove_keys(after));
            match *target {
                Some(t) => {
                    if t == id {
                        *target = None;
                    }
                },
                None => {},
            }
        } else {
            assert(!stale.contains(id)) by {
                assert(seen@.to_set().contains(id));
            }
            assert(after =~= before);
        }
        k = k + 1;
    }
    assert(ids@.take(k as int) =~= ids@);
    assert(stale.intersect(ids@.to_set()) =~= stale);
}

impl ClientTick {
    /// The state the observer's contracts need.
    pub open spec fn wf(&self) -> bool {
        self.observer.fits()
    }

    /// A client that has seen nothing, with the given filters and alerts.
    pub fn new(filters: FilterSet, alerts: AlertEngine) -> (t: Self)
        ensures
            t.wf(),
            t.spawns@ == Map::<u32, SpawnInfo>::empty(),
            t.ground.items_view().len() == 0,
            t.timers.timers@.len() == 0,
            t.zone@.len() == 0,
            t.self_id is None && t.target_id is None,
            t.npc_ids@.len() == 0 && t.all_ids@.len() == 0,
            t.spawn_points@ == Map::<u32, (u32, u32)>::empty(),
            !t.timers_dirty && !t.spawns_dirty,
            t.filters == filters,
            t.alerts == alerts,
    {
        let t = ClientTick {
            spawns: SpawnStore::new(),
            ground: GroundStore::new(),
            timers: TimerStore::new(),
            observer: SpawnObserver::new(),
            alerts,
            filters,
            zone: String::new(),
            self_id: None,
            target_id: None,
            world_time: InGameTime::default(),
            npc_ids: Vec::new(),
            all_ids: Vec::new(),
            spawn_points: HashMap::new(),
            timers_dirty: false,
            spawns_dirty: false,
        };
        assert(pend_m(t.observer.pending_kills@) =~= Seq::empty());
        t
    }

    /// Start a tick on a response: forget the previous tick's NPC ids, and
    /// clear the ground items when the response carries any.
    pub fn begin_tick(&mut self, records: &Vec<SpawnRecord>)
        requires
            old(self).wf(),
        ensures
            final(self).wf(),
            final(self).npc_ids@.len() == 0,
            has_ground(records@) ==> final(self).ground.items_view().len() == 0,
            !has_ground(records@) ==> final(self).ground == old(self).ground,
            final(self).spawns == old(self).spawns,
            final(self).observer == old(self).observer,
            final(self).all_ids == old(self).all_ids,
            final(self).zone == old(self).zone,
    {
        self.npc_ids.clear();
        if any_ground(records) {
            self.ground.clear();
        }
    }

    /// Apply one decoded record at time `now_ms` (milliseconds on the
    /// alert clock).
    ///
    /// - A zone change clears the spawns, ground items, spawn points and the
    ///   tick's ids, forgets self and target, resets the observer's
    ///   in-flight state and the alerts, and takes the new zone name.
    /// - A spawn is stored; its id joins the tick's ids (and the NPC ids for
    ///   an NPC), its spawn point is kept where first seen, and it is checked
    ///   for an alert under its filter category.
    /// - The player's own spawn is stored and becomes self.
    /// - A target, ground item or world time is recorded.
    pub fn apply_packet(&mut self, packet: Packet, now_ms: u64) -> (r: TickAction)
        requires
            old(self).wf(),
        ensures
            final(self).wf(),
            match packet {
                Packet::Zone { name } => {
                    &&& r matches TickAction::ZoneChanged { previous } && previous@ == old(self).zone@
                    &&& final(self).zone@ == name@
                    &&& final(self).spawns@ == Map::<u32, SpawnInfo>::empty()
                    &&& final(self).ground.items_view().len() == 0
                    &&& final(self).spawn_points@ == Map::<u32, (u32, u32)>::empty()
                    &&& final(self).npc_ids@.len() == 0 && final(self).all_ids@.len() == 0
                    &&& final(self).self_id is None && final(self).target_id is None
                    &&& final(self).spawns_dirty
                    &&& final(self).observer.prev_tick_npcs@.len() == 0
                    &&& final(self).observer.pending_kills@.len() == 0
                    &&& final(self).observer.observations@ == old(self).observer.observations@
                    &&& final(self).alerts.alerted_ids().len() == 0
                    &&& final(self).alerts.suppressed_until() == Some(
                        now_ms.saturating_add(ZONE_SUPPRESS_MS),
                    )
                    &&& final(self).timers == old(self).timers
                    &&& final(self).world_time == old(self).world_time
                    &&& final(self).timers_dirty == old(self).timers_dirty
                },
                Packet::Spawn(rec) => {
                    let info = final(self).spawns@[rec.id];
                    let cat = classified(old(self).filters@, unicode_lowercase(info.name@));
                    let fires = alert_fires(old(self).alerts, rec.id, cat, now_ms);
                    &&& final(self).spawns@.dom() == old(self).spawns@.dom().insert(rec.id)
                    &&& spawn_of(rec, info)
                    &&& forall|k: u32|
                        k != rec.id && old(self).spawns@.contains_key(k) ==> #[trigger] final(self).spawns@[k] == old(self).spawns@[k]
                    &&& final(self).all_ids@ == with_id(old(self).all_ids@, rec.id)
                    &&& final(self).npc_ids@ == (if rec.spawn_type == NPC_SPAWN_TYPE {
                        with_id(old(self).npc_ids@, rec.id)
                    } else {
                        old(self).npc_ids@
                    })
                    &&& final(self).spawn_points@ == with_point(
                        old(self).spawn_points@,
                        rec.id,
                        rec.x,
                        rec.y,
                    )
                    &&& (r is Alert <==> fires)
                    &&& (fires ==> final(self).alerts.alerted_ids() == old(self).alerts.alerted_ids().insert(rec.id))
                    &&& (!fires ==> final(self).alerts.alerted_ids() == old(self).alerts.alerted_ids())
                    &&& (r matches TickAction::Alert(a) ==> a.category == cat->0)
                    &&& final(self).alerts.suppressed_until() == old(self).alerts.suppressed_until()
                    &&& final(self).self_id == old(self).self_id
                    &&& final(self).target_id == old(self).target_id
                    &&& final(self).zone == old(self).zone
                    &&& final(self).ground == old(self).ground
                    &&& final(self).observer == old(self).observer
                },
                Packet::Self_(rec) => {
                    &&& r is Stay
                    &&& final(self).spawns@.dom() == old(self).spawns@.dom().insert(rec.id)
                    &&& spawn_of(rec, final(self).spawns@[rec.id])
                    &&& forall|k: u32|
                        k != rec.id && old(self).spawns@.contains_key(k) ==> #[trigger] final(self).spawns@[k] == old(self).spawns@[k]
                    &&& final(self).self_id == Some(rec.id)
                    &&& final(self).all_ids@ == with_id(old(self).all_ids@, rec.id)
                    &&& final(self).npc_ids == old(self).npc_ids
                    &&& final(self).spawn_points@ == with_point(
                        old(self).spawn_points@,
                        rec.id,
                        rec.x,
                        rec.y,
                    )
                    &&& final(self).target_id == old(self).target_id
                    &&& final(self).zone == old(self).zone
                    &&& final(self).ground == old(self).ground
                    &&& final(self).observer == old(self).observer
                    &&& final(self).alerts == old(self).alerts
                },
                Packet::Target(rec) => {
                    &&& r is Stay
                    &&& *final(self) == (ClientTick { target_id: Some(rec.id), ..*old(self) })
                },
                Packet::Ground(rec) => {
                    &&& r is Stay
                    &&& rec.flags == OPT_GROUND ==> {
                        &&& final(self).ground.items_view().len() == old(self).ground.items_view().len() + 1
                        &&& final(self).ground.items_view().drop_last() == old(self).ground.items_view()
                        &&& item_of(rec, final(self).ground.items_view().last())
                    }
                    &&& rec.flags != OPT_GROUND ==> final(self).ground.items_view() == old(self).ground.items_view()
                    &&& final(self).spawns == old(self).spawns
                    &&& final(self).all_ids == old(self).all_ids
                    &&& final(self).npc_ids == old(self).npc_ids
                    &&& final(self).observer == old(self).observer
                    &&& final(self).zone == old(self).zone
                },
                Packet::World(t) => {
                    &&& r is Stay
                    &&& *final(self) == (ClientTick { world_time: t, ..*old(self) })
                },
                _ => {
                    &&& r is Stay
                    &&& *final(self) == *old(self)
                },
            },
    {
        match packet {
            Packet::Zone { name } => {
                self.spawns.clear();
                self.ground.clear();
                self.spawn_points.clear();
                self.self_id = None;
                self.target_id = None;
                self.npc_ids.clear();
                self.all_ids.clear();
                self.spawns_dirty = true;
                self.observer.on_zone_change();
                self.alerts.on_zone_change_at(now_ms);
                let mut previous = name;
                std::mem::swap(&mut previous, &mut self.zone);
                assert(pend_m(self.observer.pending_kills@) =~= Seq::empty());
                TickAction::ZoneChanged { previous }
            },
            Packet::Spawn(rec) => {
                let id = rec.id;
                self.spawns.upsert(&rec);
                self.note_point(&rec);
                if rec.spawn_type == NPC_SPAWN_TYPE {
                    add_id(&mut self.npc_ids, id);
                }
                add_id(&mut self.all_ids, id);
                let category = match self.spawns.get(id) {
                    Some(info) => self.filters.classify(info.name.as_str()),
                    None => None,
                };
                let name = match self.spawns.get(id) {
                    Some(info) => info.name.clone(),
                    None => String::new(),
                };
                match self.alerts.check_spawn(id, name.as_str(), category, now_ms) {
                    Some(a) => TickAction::Alert(a),
                    None => TickAction::Stay,
                }
            },
            Packet::Self_(rec) => {
                self.self_id = Some(rec.id);
                add_id(&mut self.all_ids, rec.id);
                self.spawns.upsert(&rec);
                self.note_point(&rec);
                TickAction::Stay
            },
            Packet::Target(rec) => {
                self.target_id = Some(rec.id);
                TickAction::Stay
            },
            Packet::Ground(rec) => {
                self.ground.push(&rec);
                TickAction::Stay
            },
            Packet::World(t) => {
                self.world_time = t;
                TickAction::Stay
            },
            Packet::Process { .. } => TickAction::Stay,
            Packet::Unknown { .. } => TickAction::Stay,
        }
    }

    /// Close the tick at time `now` (Unix seconds): run the respawn diff on
    /// the tick's NPC ids and the spawns as observed, mark the timers for
    /// saving when one was promoted, then remove the spawns the tick did not
    /// carry (none when it carried nothing) and start a new list of ids.
    /// Returns the diff's log lines.
    pub fn end_tick_at(&mut self, observed: &Vec<ObservedSpawn>, now: i64) -> (log: Vec<String>)
        requires
            old(self).wf(),
            -0x1000_0000_0000 <= now <= 0x1000_0000_0000,
        ensures
            final(self).wf(),
            prev_m(final(self).observer.prev_tick_npcs@) == next_prev(old(self).npc_ids@, observed@),
            skipped_zone(old(self).zone@) ==> {
                &&& final(self).observer.pending_kills@ == old(self).observer.pending_kills@
                &&& final(self).observer.observations@ == old(self).observer.observations@
                &&& final(self).timers.timers@ == old(self).timers.timers@
                &&& log@.len() == 0
                &&& final(self).timers_dirty == old(self).timers_dirty
            },
            !skipped_zone(old(self).zone@) ==> diff_applied(*old(self), *final(self), observed@, log@, now),
            final(self).spawns@ == old(self).spawns@.remove_keys(stale_ids(old(self).spawns@, old(self).all_ids@)),
            final(self).spawn_points@ == old(self).spawn_points@.remove_keys(
                stale_ids(old(self).spawns@, old(self).all_ids@),
            ),
            final(self).target_id == (if old(self).target_id matches Some(t) && stale_ids(
                old(self).spawns@,
                old(self).all_ids@,
            ).contains(t) {
                None
            } else {
                old(self).target_id
            }),
            final(self).all_ids@.len() == 0,
            final(self).spawns_dirty,
            final(self).npc_ids == old(self).npc_ids,
            final(self).self_id == old(self).self_id,
            final(self).zone == old(self).zone,
            final(self).ground == old(self).ground,
    {
        let (promoted, log) = self.observer.process_diff_at(
            &self.npc_ids,
            observed,
            self.zone.as_str(),
            &mut self.timers,
            now,
        );
        if promoted {
            self.timers_dirty = true;
        }
        prune(&mut self.spawns, &mut self.spawn_points, &mut self.target_id, &self.all_ids);
        self.all_ids.clear();
        self.spawns_dirty = true;
        log
    }

    /// `end_tick_at` by the system clock.
    pub fn end_tick(&mut self, observed: &Vec<ObservedSpawn>) -> (log: Vec<String>)
        requires
            old(self).wf(),
        ensures
            final(self).wf(),
            prev_m(final(self).observer.prev_tick_npcs@) == next_prev(old(self).npc_ids@, observed@),
            skipped_zone(old(self).zone@) ==> {
                &&& final(self).observer.pending_kills@ == old(self).observer.pending_kills@
                &&& final(self).observer.observations@ == old(self).observer.observations@
                &&& final(self).timers.timers@ == old(self).timers.timers@
                &&& log@.len() == 0
            },
            !skipped_zone(old(self).zone@) ==> exists|now: i64|
                0 <= now <= CLOCK_MAX && #[trigger] diff_applied(*old(self), *final(self), observed@, log@, now),
            final(self).spawns@ == old(self).spawns@.remove_keys(stale_ids(old(self).spawns@, old(self).all_ids@)),
            final(self).spawn_points@ == old(self).spawn_points@.remove_keys(
                stale_ids(old(self).spawns@, old(self).all_ids@),
            ),
            final(self).target_id == (if old(self).target_id matches Some(t) && stale_ids(
                old(self).spawns@,
                old(self).all_ids@,
            ).contains(t) {
                None
            } else {
                old(self).target_id
            }),
            final(self).all_ids@.len() == 0,
            final(self).spawns_dirty,
            final(self).npc_ids == old(self).npc_ids,
            final(self).zone == old(self).zone,
    {
        let now = unix_now();
        self.end_tick_at(observed, now)
    }

    /// Keep where the spawn of `rec` was first seen.
    fn note_point(&mut self, rec: &SpawnRecord)
        ensures
            final(self).spawn_points@ == with_point(old(self).spawn_points@, rec.id, rec.x, rec.y),
            final(self).spawns == old(self).spawns,
            final(self).ground == old(self).ground,
            final(self).timers == old(self).timers,
            final(self).observer == old(self).observer,
            final(self).alerts == old(self).alerts,
            final(self).filters == old(self).filters,
            final(self).zone == old(self).zone,
            final(self).self_id == old(self).self_id,
            final(self).target_id == old(self).target_id,
            final(self).world_time == old(self).world_time,
            final(self).npc_ids == old(self).npc_ids,
            final(self).all_ids == old(self).all_ids,
            final(self).timers_dirty == old(self).timers_dirty,
            final(self).spawns_dirty == old(self).spawns_dirty,
    {
        if !self.spawn_points.contains_key(&rec.id) {
            self.spawn_points.insert(rec.id, (rec.x, rec.y));
        }
    }
}

} // verus!

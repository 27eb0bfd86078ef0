//! The respawn observer: from one tick to the next it notices NPCs that
//! disappear (kills) and NPCs that appear where a kill was seen
//! (respawns), learns each spawn point's respawn interval, and promotes a
//! point seen respawning more than once to an automatic timer.
//!
//! Spawn points are identified by location keys (`y.yyy,x.xxx`), which
//! the caller renders from the coordinates; coordinates hold `f32` bit
//! patterns.  Times are Unix seconds.
use vstd::prelude::*;
use crate::assoc::{assoc_get, assoc_put, assoc_remove, key_index, lemma_key_index, lemma_key_index_is};
use crate::text::{chars_eq, chars_of, dec_chars, dec_seq, int_dec_chars, int_dec_seq, push_all, string_of};
use crate::timers::{
    added_m, best_display_name, excluded, first_named, is_excluded_spawn, is_void_name,
    is_void_zone, killed_m, lemma_added_models, loc_index, sticky_at, tmodels, unix_now, CLOCK_MAX,
    SpawnTimer, TimerModel, TimerStore,
};
use crate::text::unicode_lowercase;
use crate::spawn_filter::texts;

verus! {

/// A respawn must come at least this long after the kill to count.
pub const MIN_INTERVAL_SECS: i64 = 10;

/// Intervals kept per spawn point.
pub const MAX_INTERVALS: usize = 10;

/// Names kept on a promoted timer.
pub const MAX_ALL_NAMES: usize = 10;

/// What the observer reads of a spawn in the current tick.
pub struct ObservedSpawn {
    pub id: u32,
    pub name: String,
    pub race: u32,
    pub owner_id: u32,
    /// The spawn is of the NPC type (not a player or a corpse).
    pub is_npc: bool,
    /// Location key of the current position.
    pub loc: String,
    /// Location key of the spawn point.
    pub spawn_loc: String,
    pub x: u32,
    pub y: u32,
    pub z: u32,
    pub spawn_x: u32,
    pub spawn_y: u32,
}

/// A kill waiting for its respawn.
pub struct PendingKill {
    pub name: String,
    pub x: u32,
    pub y: u32,
    pub z: u32,
    pub killed_at: i64,
}

pub struct KillModel {
    pub name: Seq<char>,
    pub x: u32,
    pub y: u32,
    pub z: u32,
    pub killed_at: i64,
}

impl PendingKill {
    pub open spec fn model(&self) -> KillModel {
        KillModel { name: self.name@, x: self.x, y: self.y, z: self.z, killed_at: self.killed_at }
    }
}

/// What has been learned of one spawn point.
pub struct SpawnObservation {
    pub name: String,
    pub x: u32,
    pub y: u32,
    pub z: u32,
    pub spawn_count: u32,
    /// The most recent respawn intervals, oldest first.
    pub intervals: Vec<i64>,
    /// Every name seen respawning here.
    pub names: Vec<String>,
}

pub struct ObsModel {
    pub name: Seq<char>,
    pub x: u32,
    pub y: u32,
    pub z: u32,
    pub spawn_count: u32,
    pub intervals: Seq<i64>,
    pub names: Seq<Seq<char>>,
}

impl SpawnObservation {
    pub open spec fn model(&self) -> ObsModel {
        ObsModel {
            name: self.name@,
            x: self.x,
            y: self.y,
            z: self.z,
            spawn_count: self.spawn_count,
            intervals: self.intervals@,
            names: texts(self.names@),
        }
    }
}

/// The observer.  Each list is keyed by its first component; the first
/// entry with a key is the one that counts.
pub struct SpawnObserver {
    /// NPCs of the previous tick: id and name.
    pub prev_tick_npcs: Vec<(u32, String)>,
    /// Kills by spawn-point key.
    pub pending_kills: Vec<(String, PendingKill)>,
    /// Observations by spawn-point key.
    pub observations: Vec<(String, SpawnObservation)>,
}

pub open spec fn prev_m(v: Seq<(u32, String)>) -> Seq<(u32, Seq<char>)> {
    v.map_values(|p: (u32, String)| (p.0, p.1@))
}

pub open spec fn pend_m(v: Seq<(String, PendingKill)>) -> Seq<(Seq<char>, KillModel)> {
    v.map_values(|p: (String, PendingKill)| (p.0@, p.1.model()))
}

pub open spec fn obs_m(v: Seq<(String, SpawnObservation)>) -> Seq<(Seq<char>, ObsModel)> {
    v.map_values(|p: (String, SpawnObservation)| (p.0@, p.1.model()))
}

/// Kill times within the range the interval arithmetic is proved for.
pub open spec fn kills_fit(p: Seq<(Seq<char>, KillModel)>) -> bool {
    forall|i: int|
        0 <= i < p.len() ==> -0x1000_0000_0000 <= #[trigger] p[i].1.killed_at <= 0x1000_0000_0000
}

impl SpawnObserver {
    pub open spec fn fits(&self) -> bool {
        kills_fit(pend_m(self.pending_kills@))
    }
}

/// Everything one tick's diff reads and writes besides the NPC list.
pub struct DiffState {
    pub pending: Seq<(Seq<char>, KillModel)>,
    pub obs: Seq<(Seq<char>, ObsModel)>,
    pub timers: Seq<TimerModel>,
    pub log: Seq<Seq<char>>,
    pub promoted: bool,
}

/// Index of the first spawn with id `id`, or `s.len()`.
pub open spec fn spawn_index(s: Seq<ObservedSpawn>, id: u32) -> int
    decreases s.len(),
{
    if s.len() == 0 {
        0
    } else if s[0].id == id {
        0
    } else {
        1 + spawn_index(s.drop_first(), id)
    }
}

pub open spec fn prev_has(prev: Seq<(u32, Seq<char>)>, id: u32) -> bool {
    exists|i: int| 0 <= i < prev.len() && #[trigger] prev[i].0 == id
}

pub open spec fn fresh_obs(sp: ObservedSpawn) -> ObsModel {
    ObsModel {
        name: sp.name@,
        x: sp.x,
        y: sp.y,
        z: sp.z,
        spawn_count: 0,
        intervals: Seq::empty(),
        names: Seq::empty(),
    }
}

/// `c + 1`, wrapping at the top of `u32`.
pub open spec fn wrap_inc(c: u32) -> u32 {
    if c == u32::MAX {
        0
    } else {
        (c + 1) as u32
    }
}

/// Drop the oldest interval once there are more than `MAX_INTERVALS`.
pub open spec fn trim_intervals(s: Seq<i64>) -> Seq<i64> {
    if s.len() > MAX_INTERVALS {
        s.drop_first()
    } else {
        s
    }
}

/// `names` with `n` appended unless already there.
pub open spec fn with_name(names: Seq<Seq<char>>, n: Seq<char>) -> Seq<Seq<char>> {
    if names.contains(n) {
        names
    } else {
        names.push(n)
    }
}

/// An observation after one more respawn of `name` after `interval` seconds.
pub open spec fn bumped(o: ObsModel, interval: i64, name: Seq<char>) -> ObsModel {
    ObsModel {
        spawn_count: wrap_inc(o.spawn_count),
        intervals: trim_intervals(o.intervals.push(interval)),
        names: with_name(o.names, name),
        ..o
    }
}

pub open spec fn seq_sum(s: Seq<i64>) -> int
    decreases s.len(),
{
    if s.len() == 0 {
        0
    } else {
        seq_sum(s.drop_last()) + s.last()
    }
}

/// `a / n` rounded toward zero, as integer division does.
pub open spec fn trunc_div(a: int, n: int) -> int {
    if a >= 0 {
        a / n
    } else {
        -((-a) / n)
    }
}

/// The mean of the intervals, rounded toward zero.
pub open spec fn mean_of(s: Seq<i64>) -> int {
    trunc_div(seq_sum(s), s.len() as int)
}

/// The sum of `n` values of `i64` lies between `n` times the least and
/// `n` times the largest `i64`.
proof fn lemma_seq_sum_bounds(s: Seq<i64>)
    ensures
        s.len() * -0x8000_0000_0000_0000 <= seq_sum(s) <= s.len() * 0x7fff_ffff_ffff_ffff,
    decreases s.len(),
{
    if s.len() > 0 {
        lemma_seq_sum_bounds(s.drop_last());
    }
}

/// The names a promoted timer carries: those seen respawning, the killed
/// mob's name, at most `MAX_ALL_NAMES`.
pub open spec fn timer_names(o: ObsModel, kill: KillModel) -> Seq<Seq<char>> {
    let all = with_name(o.names, kill.name);
    if all.len() > MAX_ALL_NAMES {
        all.take(MAX_ALL_NAMES as int)
    } else {
        all
    }
}

/// The timer a spawn point is promoted to.
pub open spec fn promoted_timer(
    o: ObsModel,
    kill: KillModel,
    key: Seq<char>,
    zone: Seq<char>,
    now: i64,
    timers: Seq<TimerModel>,
) -> TimerModel {
    let all = timer_names(o, kill);
    TimerModel {
        name: if first_named(all) < all.len() {
            all[first_named(all)]
        } else {
            kill.name
        },
        spawn_loc: key,
        all_names: all,
        x: kill.x,
        y: kill.y,
        z: kill.z,
        killed_at: None,
        respawn_secs: mean_of(o.intervals) as i64,
        is_auto: true,
        spawn_count: o.spawn_count,
        spawn_time: Some(now),
        zone,
        sticky: sticky_at(timers, key),
    }
}

pub open spec fn respawn_msg(name: Seq<char>, interval: int, count: nat) -> Seq<char> {
    "[Timer] Respawn: "@ + name + " — interval "@ + int_dec_seq(interval) + "s (cycle "@
        + dec_seq(count) + ")"@
}

pub open spec fn promote_msg(name: Seq<char>, avg: int, count: nat) -> Seq<char> {
    "[Timer] Auto-timer promoted: "@ + name + " — avg "@ + int_dec_seq(avg) + "s over "@
        + dec_seq(count) + " cycles"@
}

pub open spec fn skip_msg(name: Seq<char>, interval: int) -> Seq<char> {
    "[Timer] Respawn skipped: "@ + name + " — interval "@ + int_dec_seq(interval)
        + "s below minimum 10s"@
}

pub open spec fn kill_msg(name: Seq<char>, key: Seq<char>) -> Seq<char> {
    "[Timer] Kill detected: "@ + name + " @ "@ + key
}

/// One id of the current tick: an NPC new this tick that appears where a
/// kill is pending closes that kill; a long enough interval is recorded,
/// and a point seen respawning more than once becomes a timer.
pub open spec fn respawn_step(
    st: DiffState,
    id: u32,
    prev: Seq<(u32, Seq<char>)>,
    spawns: Seq<ObservedSpawn>,
    zone: Seq<char>,
    now: i64,
) -> DiffState {
    let si = spawn_index(spawns, id);
    if prev_has(prev, id) || si >= spawns.len() {
        st
    } else {
        let sp = spawns[si];
        let key = sp.loc@;
        if !sp.is_npc || excluded(sp.name@, sp.race, sp.owner_id) {
            st
        } else if let Some(kill) = assoc_get(st.pending, key) {
            let pending = assoc_remove(st.pending, key);
            let interval = now - kill.killed_at;
            if interval >= MIN_INTERVAL_SECS {
                let o0 = match assoc_get(st.obs, key) {
                    Some(o) => o,
                    None => fresh_obs(sp),
                };
                let o1 = bumped(o0, interval as i64, sp.name@);
                let obs = assoc_put(st.obs, key, o1);
                let log = st.log.push(respawn_msg(sp.name@, interval, o1.spawn_count as nat));
                if o1.spawn_count > 1 {
                    let t = promoted_timer(o1, kill, key, zone, now, st.timers);
                    DiffState {
                        pending,
                        obs,
                        timers: added_m(st.timers, t),
                        log: log.push(
                            promote_msg(kill.name, t.respawn_secs as int, o1.spawn_count as nat),
                        ),
                        promoted: true,
                    }
                } else {
                    DiffState { pending, obs, log, ..st }
                }
            } else {
                DiffState { pending, log: st.log.push(skip_msg(sp.name@, interval)), ..st }
            }
        } else {
            st
        }
    }
}

/// One NPC of the previous tick: gone this tick (and not excluded), it is
/// a kill at its spawn point; a timer there starts its countdown.
pub open spec fn kill_step(
    st: DiffState,
    entry: (u32, Seq<char>),
    curr: Seq<u32>,
    spawns: Seq<ObservedSpawn>,
    now: i64,
) -> DiffState {
    let id = entry.0;
    let name = entry.1;
    let si = spawn_index(spawns, id);
    if curr.contains(id) || si >= spawns.len() {
        st
    } else {
        let sp = spawns[si];
        let key = sp.spawn_loc@;
        if excluded(name, sp.race, sp.owner_id) {
            st
        } else {
            DiffState {
                pending: assoc_put(
                    st.pending,
                    key,
                    KillModel { name, x: sp.spawn_x, y: sp.spawn_y, z: sp.z, killed_at: now },
                ),
                timers: killed_m(st.timers, key, now),
                log: st.log.push(kill_msg(name, key)),
                promoted: st.promoted || loc_index(st.timers, key) < st.timers.len(),
                ..st
            }
        }
    }
}

pub open spec fn respawn_pass(
    st: DiffState,
    ids: Seq<u32>,
    prev: Seq<(u32, Seq<char>)>,
    spawns: Seq<ObservedSpawn>,
    zone: Seq<char>,
    now: i64,
) -> DiffState
    decreases ids.len(),
{
    if ids.len() == 0 {
        st
    } else {
        respawn_step(
            respawn_pass(st, ids.drop_last(), prev, spawns, zone, now),
            ids.last(),
            prev,
            spawns,
            zone,
            now,
        )
    }
}

pub open spec fn kill_pass(
    st: DiffState,
    entries: Seq<(u32, Seq<char>)>,
    curr: Seq<u32>,
    spawns: Seq<ObservedSpawn>,
    now: i64,
) -> DiffState
    decreases entries.len(),
{
    if entries.len() == 0 {
        st
    } else {
        kill_step(kill_pass(st, entries.drop_last(), curr, spawns, now), entries.last(), curr, spawns, now)
    }
}

/// The NPC list carried to the next tick: each current id that has a
/// spawn, with its name.
pub open spec fn next_prev(curr: Seq<u32>, spawns: Seq<ObservedSpawn>) -> Seq<(u32, Seq<char>)>
    decreases curr.len(),
{
    if curr.len() == 0 {
        Seq::empty()
    } else {
        let r = next_prev(curr.drop_last(), spawns);
        let si = spawn_index(spawns, curr.last());
        if si < spawns.len() {
            r.push((curr.last(), spawns[si].name@))
        } else {
            r
        }
    }
}


/// The state a diff starts from.
pub open spec fn state_of(
    o: SpawnObserver,
    timers: Seq<SpawnTimer>,
    log: Seq<String>,
    promoted: bool,
) -> DiffState {
    DiffState {
        pending: pend_m(o.pending_kills@),
        obs: obs_m(o.observations@),
        timers: tmodels(timers),
        log: texts(log),
        promoted,
    }
}

proof fn lemma_spawn_index(s: Seq<ObservedSpawn>, id: u32)
    ensures
        0 <= spawn_index(s, id) <= s.len(),
        spawn_index(s, id) < s.len() ==> s[spawn_index(s, id)].id == id,
    decreases s.len(),
{
    if s.len() > 0 && s[0].id != id {
        lemma_spawn_index(s.drop_first(), id);
    }
}

/// Position of the first spawn with id `id`.
fn spawn_position(spawns: &Vec<ObservedSpawn>, id: u32) -> (r: usize)
    ensures
        r == spawn_index(spawns@, id),
{
    let ghost s = spawns@;
    let mut i: usize = 0;
    assert(s.skip(0) =~= s);
    while i < spawns.len()
        invariant
            i <= s.len(),
            s == spawns@,
            spawn_index(s, id) == i + spawn_index(s.skip(i as int), id),
        decreases s.len() - i,
    {
        assert(s.skip(i as int)[0] == s[i as int]);
        if spawns[i].id == id {
            return i;
        }
        assert(s.skip(i as int).drop_first() =~= s.skip(i + 1));
        i = i + 1;
    }
    i
}

/// Does the previous tick's list hold `id`?
fn prev_contains(prev: &Vec<(u32, String)>, id: u32) -> (b: bool)
    ensures
        b == prev_has(prev_m(prev@), id),
{
    let ghost m = prev_m(prev@);
    let mut i: usize = 0;
    while i < prev.len()
        invariant
            i <= prev@.len(),
            m == prev_m(prev@),
            forall|j: int| 0 <= j < i ==> m[j].0 != id,
        decreases prev@.len() - i,
    {
        assert(m[i as int].0 == prev@[i as int].0);
        if prev[i].0 == id {
            assert(m[i as int].0 == id);
            return true;
        }
        i = i + 1;
    }
    false
}

fn ids_contain(ids: &Vec<u32>, id: u32) -> (b: bool)
    ensures
        b == ids@.contains(id),
{
    let mut i: usize = 0;
    while i < ids.len()
        invariant
            i <= ids@.len(),
            forall|j: int| 0 <= j < i ==> ids@[j] != id,
        decreases ids@.len() - i,
    {
        if ids[i] == id {
            assert(ids@[i as int] == id);
            return true;
        }
        i = i + 1;
    }
    false
}

/// Position of the first entry keyed `key`, or the length.
fn key_position<X>(v: &Vec<(String, X)>, key: &str) -> (r: usize)
    ensures
        r <= v@.len(),
        r < v@.len() ==> v@[r as int].0@ == key@,
        forall|j: int| 0 <= j < r ==> v@[j].0@ != key@,
{
    let k = chars_of(key);
    let mut i: usize = 0;
    while i < v.len()
        invariant
            i <= v@.len(),
            k@ == key@,
            forall|j: int| 0 <= j < i ==> v@[j].0@ != key@,
        decreases v@.len() - i,
    {
        if chars_eq(&chars_of(v[i].0.as_str()), &k) {
            return i;
        }
        i = i + 1;
    }
    i
}

/// Does `v` hold a string with the characters of `s`?
fn has_text(v: &Vec<String>, s: &str) -> (b: bool)
    ensures
        b == texts(v@).contains(s@),
{
    let k = chars_of(s);
    let ghost t = texts(v@);
    let mut i: usize = 0;
    while i < v.len()
        invariant
            i <= v@.len(),
            k@ == s@,
            t == texts(v@),
            forall|j: int| 0 <= j < i ==> t[j] != s@,
        decreases v@.len() - i,
    {
        assert(t[i as int] == v@[i as int]@);
        if chars_eq(&chars_of(v[i].as_str()), &k) {
            assert(t[i as int] == s@);
            return true;
        }
        i = i + 1;
    }
    false
}

fn copy_strings(v: &Vec<String>) -> (r: Vec<String>)
    ensures
        r@ == v@,
{
    let mut r: Vec<String> = Vec::new();
    let mut i: usize = 0;
    while i < v.len()
        invariant
            i <= v@.len(),
            r@ == v@.take(i as int),
        decreases v@.len() - i,
    {
        r.push(v[i].clone());
        assert(r@ =~= v@.take(i + 1));
        i = i + 1;
    }
    assert(v@.take(i as int) =~= v@);
    r
}

fn copy_ints(v: &Vec<i64>) -> (r: Vec<i64>)
    ensures
        r@ == v@,
{
    let mut r: Vec<i64> = Vec::new();
    let mut i: usize = 0;
    while i < v.len()
        invariant
            i <= v@.len(),
            r@ == v@.take(i as int),
        decreases v@.len() - i,
    {
        r.push(v[i]);
        assert(r@ =~= v@.take(i + 1));
        i = i + 1;
    }
    assert(v@.take(i as int) =~= v@);
    r
}

/// The mean of the intervals, rounded toward zero.
fn average(v: &Vec<i64>) -> (r: i64)
    requires
        0 < v@.len(),
    ensures
        r == mean_of(v@),
{
    let mut sum: i128 = 0;
    let mut i: usize = 0;
    while i < v.len()
        invariant
            i <= v@.len(),
            sum == seq_sum(v@.take(i as int)),
            i * -0x8000_0000_0000_0000 <= sum <= i * 0x7fff_ffff_ffff_ffff,
        decreases v@.len() - i,
    {
        assert(v@.take(i + 1).drop_last() =~= v@.take(i as int));
        sum = sum + (v[i] as i128);
        i = i + 1;
    }
    assert(v@.take(i as int) =~= v@);
    let n: u128 = v.len() as u128;
    let ghost a: int = sum as int;
    let ghost m: int = n as int;
    if sum >= 0 {
        let q: u128 = (sum as u128) / n;
        assert(q <= 0x7fff_ffff_ffff_ffff) by (nonlinear_arith)
            requires
                q == a / m,
                0 <= a <= m * 0x7fff_ffff_ffff_ffff,
                m > 0,
        ;
        q as i64
    } else {
        let q: u128 = ((-sum) as u128) / n;
        assert(q <= 0x8000_0000_0000_0000) by (nonlinear_arith)
            requires
                q == (-a) / m,
                0 <= -a <= m * 0x8000_0000_0000_0000,
                m > 0,
        ;
        (-(q as i128)) as i64
    }
}

fn texts_push(v: &mut Vec<String>, s: String)
    ensures
        final(v)@ == old(v)@.push(s),
        texts(final(v)@) == texts(old(v)@).push(s@),
{
    v.push(s);
    assert(texts(v@) =~= texts(old(v)@).push(s@));
}

fn respawn_text(name: &str, interval: i64, count: u32) -> (r: String)
    ensures
        r@ == respawn_msg(name@, interval as int, count as nat),
{
    let mut v = chars_of("[Timer] Respawn: ");
    push_all(&mut v, &chars_of(name));
    push_all(&mut v, &chars_of(" — interval "));
    push_all(&mut v, &int_dec_chars(interval));
    push_all(&mut v, &chars_of("s (cycle "));
    push_all(&mut v, &dec_chars(count as u64));
    push_all(&mut v, &chars_of(")"));
    string_of(v.as_slice())
}

fn promote_text(name: &str, avg: i64, count: u32) -> (r: String)
    ensures
        r@ == promote_msg(name@, avg as int, count as nat),
{
    let mut v = chars_of("[Timer] Auto-timer promoted: ");
    push_all(&mut v, &chars_of(name));
    push_all(&mut v, &chars_of(" — avg "));
    push_all(&mut v, &int_dec_chars(avg));
    push_all(&mut v, &chars_of("s over "));
    push_all(&mut v, &dec_chars(count as u64));
    push_all(&mut v, &chars_of(" cycles"));
    string_of(v.as_slice())
}

fn skip_text(name: &str, interval: i64) -> (r: String)
    ensures
        r@ == skip_msg(name@, interval as int),
{
    let mut v = chars_of("[Timer] Respawn skipped: ");
    push_all(&mut v, &chars_of(name));
    push_all(&mut v, &chars_of(" — interval "));
    push_all(&mut v, &int_dec_chars(interval));
    push_all(&mut v, &chars_of("s below minimum 10s"));
    string_of(v.as_slice())
}

fn kill_text(name: &str, key: &str) -> (r: String)
    ensures
        r@ == kill_msg(name@, key@),
{
    let mut v = chars_of("[Timer] Kill detected: ");
    push_all(&mut v, &chars_of(name));
    push_all(&mut v, &chars_of(" @ "));
    push_all(&mut v, &chars_of(key));
    string_of(v.as_slice())
}

impl SpawnObservation {
    /// A first observation of `sp`, before any respawn is counted.
    fn fresh(sp: &ObservedSpawn) -> (r: Self)
        ensures
            r.model() == fresh_obs(*sp),
    {
        let r = SpawnObservation {
            name: sp.name.clone(),
            x: sp.x,
            y: sp.y,
            z: sp.z,
            spawn_count: 0,
            intervals: Vec::new(),
            names: Vec::new(),
        };
        assert(r.model().names =~= Seq::<Seq<char>>::empty());
        r
    }

    /// This observation after one more respawn of `name`.
    fn bumped(&self, interval: i64, name: &String) -> (r: Self)
        ensures
            r.model() == bumped(self.model(), interval, name@),
    {
        let mut intervals = copy_ints(&self.intervals);
        intervals.push(interval);
        if intervals.len() > MAX_INTERVALS {
            let _ = intervals.remove(0);
            assert(intervals@ =~= self.intervals@.push(interval).drop_first());
        }
        let mut names = copy_strings(&self.names);
        if !has_text(&names, name.as_str()) {
            texts_push(&mut names, name.clone());
        }
        let count = if self.spawn_count == u32::MAX {
            0
        } else {
            self.spawn_count + 1
        };
        SpawnObservation {
            name: self.name.clone(),
            x: self.x,
            y: self.y,
            z: self.z,
            spawn_count: count,
            intervals,
            names,
        }
    }
}


impl SpawnObserver {
    /// An observer that has seen nothing.
    pub fn new() -> (o: Self)
        ensures
            o.prev_tick_npcs@.len() == 0,
            o.pending_kills@.len() == 0,
            o.observations@.len() == 0,
    {
        SpawnObserver { prev_tick_npcs: Vec::new(), pending_kills: Vec::new(), observations: Vec::new() }
    }

    fn pending_position(&self, key: &str) -> (r: usize)
        ensures
            r == key_index(pend_m(self.pending_kills@), key@),
    {
        let r = key_position(&self.pending_kills, key);
        proof {
            let m = pend_m(self.pending_kills@);
            assert forall|j: int| 0 <= j < r implies m[j].0 != key@ by {
                assert(m[j].0 == self.pending_kills@[j].0@);
            }
            if r < m.len() {
                assert(m[r as int].0 == self.pending_kills@[r as int].0@);
            }
            lemma_key_index_is(m, key@, r as int);
        }
        r
    }

    fn obs_position(&self, key: &str) -> (r: usize)
        ensures
            r == key_index(obs_m(self.observations@), key@),
    {
        let r = key_position(&self.observations, key);
        proof {
            let m = obs_m(self.observations@);
            assert forall|j: int| 0 <= j < r implies m[j].0 != key@ by {
                assert(m[j].0 == self.observations@[j].0@);
            }
            if r < m.len() {
                assert(m[r as int].0 == self.observations@[r as int].0@);
            }
            lemma_key_index_is(m, key@, r as int);
        }
        r
    }

    /// Put `o` under `key`: replace the first entry with that key, or append.
    fn put_observation(&mut self, key: String, o: SpawnObservation)
        ensures
            obs_m(final(self).observations@) == assoc_put(obs_m(old(self).observations@), key@, o.model()),
            final(self).pending_kills@ == old(self).pending_kills@,
            final(self).prev_tick_npcs@ == old(self).prev_tick_npcs@,
    {
        let ghost s0 = self.observations@;
        let ghost k = key@;
        let ghost om = o.model();
        let i = self.obs_position(key.as_str());
        if i < self.observations.len() {
            self.observations.set(i, (key, o));
            assert(obs_m(self.observations@) =~= obs_m(s0).update(i as int, (k, om)));
        } else {
            self.observations.push((key, o));
            assert(obs_m(self.observations@) =~= obs_m(s0).push((k, om)));
        }
    }

    /// Take in an observation read from the observation file, replacing one
    /// under the same key.
    pub fn load_observation(&mut self, key: String, o: SpawnObservation)
        requires
            old(self).fits(),
        ensures
            final(self).fits(),
            obs_m(final(self).observations@) == assoc_put(
                obs_m(old(self).observations@),
                key@,
                o.model(),
            ),
            final(self).pending_kills@ == old(self).pending_kills@,
            final(self).prev_tick_npcs@ == old(self).prev_tick_npcs@,
    {
        self.put_observation(key, o);
    }

    /// Put `p` under `key` among the pending kills.
    fn put_kill(&mut self, key: String, p: PendingKill)
        ensures
            pend_m(final(self).pending_kills@) == assoc_put(pend_m(old(self).pending_kills@), key@, p.model()),
            final(self).observations@ == old(self).observations@,
            final(self).prev_tick_npcs@ == old(self).prev_tick_npcs@,
    {
        let ghost s0 = self.pending_kills@;
        let ghost k = key@;
        let ghost pm = p.model();
        let i = self.pending_position(key.as_str());
        if i < self.pending_kills.len() {
            self.pending_kills.set(i, (key, p));
            assert(pend_m(self.pending_kills@) =~= pend_m(s0).update(i as int, (k, pm)));
        } else {
            self.pending_kills.push((key, p));
            assert(pend_m(self.pending_kills@) =~= pend_m(s0).push((k, pm)));
        }
    }

    /// Take the pending kill at `key`, if any.
    fn take_kill(&mut self, key: &str) -> (r: Option<PendingKill>)
        ensures
            pend_m(final(self).pending_kills@) == assoc_remove(pend_m(old(self).pending_kills@), key@),
            r matches Some(p) ==> assoc_get(pend_m(old(self).pending_kills@), key@) == Some(p.model()),
            r is None ==> assoc_get(pend_m(old(self).pending_kills@), key@) is None,
            final(self).observations@ == old(self).observations@,
            final(self).prev_tick_npcs@ == old(self).prev_tick_npcs@,
    {
        let ghost s0 = self.pending_kills@;
        let i = self.pending_position(key);
        if i < self.pending_kills.len() {
            let (_, p) = self.pending_kills.remove(i);
            assert(pend_m(s0)[i as int] == (s0[i as int].0@, s0[i as int].1.model()));
            assert(pend_m(self.pending_kills@) =~= pend_m(s0).remove(i as int));
            Some(p)
        } else {
            None
        }
    }
}


proof fn lemma_fit_get(p: Seq<(Seq<char>, KillModel)>, k: Seq<char>)
    requires
        kills_fit(p),
    ensures
        assoc_get(p, k) matches Some(v) ==> -0x1000_0000_0000 <= v.killed_at <= 0x1000_0000_0000,
{
    lemma_key_index(p, k);
}

proof fn lemma_fit_remove(p: Seq<(Seq<char>, KillModel)>, k: Seq<char>)
    requires
        kills_fit(p),
    ensures
        kills_fit(assoc_remove(p, k)),
{
    lemma_key_index(p, k);
    let i = key_index(p, k);
    if i < p.len() {
        let r = p.remove(i);
        assert forall|q: int| 0 <= q < r.len() implies -0x1000_0000_0000 <= #[trigger] r[q].1.killed_at
            <= 0x1000_0000_0000 by {
            if q < i {
                assert(r[q] == p[q]);
            } else {
                assert(r[q] == p[q + 1]);
            }
        }
    }
}

proof fn lemma_fit_put_kill(p: Seq<(Seq<char>, KillModel)>, k: Seq<char>, v: KillModel)
    requires
        kills_fit(p),
        -0x1000_0000_0000 <= v.killed_at <= 0x1000_0000_0000,
    ensures
        kills_fit(assoc_put(p, k, v)),
{
    lemma_key_index(p, k);
    let r = assoc_put(p, k, v);
    assert forall|q: int| 0 <= q < r.len() implies -0x1000_0000_0000 <= #[trigger] r[q].1.killed_at
        <= 0x1000_0000_0000 by {
        if q < p.len() && q != key_index(p, k) {
            assert(r[q] == p[q]);
        }
    }
}

/// An observation has at least one interval once a respawn is counted.
proof fn lemma_bumped_nonempty(o: ObsModel, interval: i64, name: Seq<char>)
    ensures
        bumped(o, interval, name).intervals.len() > 0,
{
}

impl SpawnObserver {
    /// The respawn part of a diff, for one id of the current tick.
    fn respawn_one(
        &mut self,
        id: u32,
        spawns: &Vec<ObservedSpawn>,
        zone: &str,
        now: i64,
        timers: &mut TimerStore,
        log: &mut Vec<String>,
        promoted: &mut bool,
    )
        requires
            old(self).fits(),
            -0x1000_0000_0000 <= now <= 0x1000_0000_0000,
        ensures
            final(self).fits(),
            final(self).prev_tick_npcs@ == old(self).prev_tick_npcs@,
            state_of(*final(self), final(timers).timers@, final(log)@, *final(promoted))
                == respawn_step(
                state_of(*old(self), old(timers).timers@, old(log)@, *old(promoted)),
                id,
                prev_m(old(self).prev_tick_npcs@),
                spawns@,
                zone@,
                now,
            ),
    {
        let ghost st = state_of(*self, timers.timers@, log@, *promoted);
        proof {
            lemma_spawn_index(spawns@, id);
        }
        if prev_contains(&self.prev_tick_npcs, id) {
            return;
        }
        let si = spawn_position(spawns, id);
        if si >= spawns.len() {
            return;
        }
        let sp = &spawns[si];
        if !sp.is_npc || is_excluded_spawn(sp.name.as_str(), sp.race, sp.owner_id) {
            return;
        }
        proof {
            lemma_fit_get(st.pending, sp.loc@);
            lemma_fit_remove(st.pending, sp.loc@);
        }
        let taken = self.take_kill(sp.loc.as_str());
        let kill = match taken {
            Some(k) => k,
            None => {
                assert(pend_m(self.pending_kills@) =~= st.pending);
                return;
            },
        };
        let interval = now - kill.killed_at;
        if interval >= MIN_INTERVAL_SECS {
            let oi = self.obs_position(sp.loc.as_str());
            proof {
                lemma_key_index(st.obs, sp.loc@);
            }
            let o1 = if oi < self.observations.len() {
                assert(st.obs[oi as int].1 == self.observations@[oi as int].1.model());
                self.observations[oi].1.bumped(interval, &sp.name)
            } else {
                SpawnObservation::fresh(sp).bumped(interval, &sp.name)
            };
            let ghost o0 = match assoc_get(st.obs, sp.loc@) {
                Some(o) => o,
                None => fresh_obs(*sp),
            };
            assert(o1.model() == bumped(o0, interval, sp.name@));
            proof {
                lemma_bumped_nonempty(o0, interval, sp.name@);
            }
            let count = o1.spawn_count;
            texts_push(log, respawn_text(sp.name.as_str(), interval, count));
            if count > 1 {
                let avg = average(&o1.intervals);
                let mut all = copy_strings(&o1.names);
                if !has_text(&all, kill.name.as_str()) {
                    texts_push(&mut all, kill.name.clone());
                }
                let ghost all0 = texts(all@);
                all.truncate(MAX_ALL_NAMES);
                assert(texts(all@) =~= (if all0.len() > MAX_ALL_NAMES {
                    all0.take(MAX_ALL_NAMES as int)
                } else {
                    all0
                }));
                let display = best_display_name(all.as_slice(), kill.name.as_str()).to_owned();
                let sticky = timers.sticky_for(sp.loc.as_str());
                let t = SpawnTimer {
                    name: display,
                    spawn_loc: sp.loc.clone(),
                    all_names: all,
                    x: kill.x,
                    y: kill.y,
                    z: kill.z,
                    killed_at: None,
                    respawn_secs: avg,
                    is_auto: true,
                    spawn_count: count,
                    spawn_time: Some(now),
                    zone: zone.to_owned(),
                    sticky,
                };
                assert(t.model() == promoted_timer(o1.model(), kill.model(), sp.loc@, zone@, now, st.timers));
                proof {
                    lemma_added_models(timers.timers@, t);
                }
                timers.add(t);
                texts_push(log, promote_text(kill.name.as_str(), avg, count));
                *promoted = true;
            }
            self.put_observation(sp.loc.clone(), o1);
        } else {
            texts_push(log, skip_text(sp.name.as_str(), interval));
        }
    }
}


/// Does the diff skip this zone?  An empty zone name, or a void zone.
pub open spec fn skipped_zone(zone: Seq<char>) -> bool {
    zone.len() == 0 || is_void_name(unicode_lowercase(zone))
}

/// The state after a diff in a zone that is not skipped.
pub open spec fn diff_outcome(
    o: SpawnObserver,
    timers: Seq<SpawnTimer>,
    curr: Seq<u32>,
    spawns: Seq<ObservedSpawn>,
    zone: Seq<char>,
    now: i64,
) -> DiffState {
    let prev = prev_m(o.prev_tick_npcs@);
    kill_pass(
        respawn_pass(state_of(o, timers, Seq::empty(), false), curr, prev, spawns, zone, now),
        prev,
        curr,
        spawns,
        now,
    )
}

impl SpawnObserver {
    /// The kill part of a diff, for one NPC of the previous tick.
    fn kill_one(
        &mut self,
        id: u32,
        name: &String,
        curr: &Vec<u32>,
        spawns: &Vec<ObservedSpawn>,
        now: i64,
        timers: &mut TimerStore,
        log: &mut Vec<String>,
        promoted: &mut bool,
    )
        requires
            old(self).fits(),
            -0x1000_0000_0000 <= now <= 0x1000_0000_0000,
        ensures
            final(self).fits(),
            final(self).prev_tick_npcs@ == old(self).prev_tick_npcs@,
            state_of(*final(self), final(timers).timers@, final(log)@, *final(promoted))
                == kill_step(
                state_of(*old(self), old(timers).timers@, old(log)@, *old(promoted)),
                (id, name@),
                curr@,
                spawns@,
                now,
            ),
    {
        let ghost st = state_of(*self, timers.timers@, log@, *promoted);
        if ids_contain(curr, id) {
            return;
        }
        let si = spawn_position(spawns, id);
        if si >= spawns.len() {
            return;
        }
        let sp = &spawns[si];
        if is_excluded_spawn(name.as_str(), sp.race, sp.owner_id) {
            return;
        }
        texts_push(log, kill_text(name.as_str(), sp.spawn_loc.as_str()));
        let hit = timers.mark_killed(sp.spawn_loc.as_str(), now);
        if hit {
            *promoted = true;
        }
        let p = PendingKill { name: name.clone(), x: sp.spawn_x, y: sp.spawn_y, z: sp.z, killed_at: now };
        proof {
            lemma_fit_put_kill(st.pending, sp.spawn_loc@, p.model());
        }
        self.put_kill(sp.spawn_loc.clone(), p);
    }

    /// The NPC list for the next tick (see `next_prev`).
    fn remember_tick(&mut self, curr: &Vec<u32>, spawns: &Vec<ObservedSpawn>)
        ensures
            prev_m(final(self).prev_tick_npcs@) == next_prev(curr@, spawns@),
            final(self).pending_kills@ == old(self).pending_kills@,
            final(self).observations@ == old(self).observations@,
    {
        let mut next: Vec<(u32, String)> = Vec::new();
        let mut i: usize = 0;
        while i < curr.len()
            invariant
                i <= curr@.len(),
                prev_m(next@) == next_prev(curr@.take(i as int), spawns@),
            decreases curr@.len() - i,
        {
            let ghost before = next@;
            assert(curr@.take(i + 1).drop_last() =~= curr@.take(i as int));
            assert(curr@.take(i + 1).last() == curr@[i as int]);
            let si = spawn_position(spawns, curr[i]);
            if si < spawns.len() {
                next.push((curr[i], spawns[si].name.clone()));
                assert(prev_m(next@) =~= prev_m(before).push((curr@[i as int], spawns@[si as int].name@)));
            }
            i = i + 1;
        }
        assert(curr@.take(i as int) =~= curr@);
        self.prev_tick_npcs = next;
    }

    /// Diff the current tick against the previous one at time `now`: record
    /// kills and respawns and promote confident timers into `timers`.
    /// Returns whether any timer changed, and the log lines.  In a skipped
    /// zone (empty or void) only the NPC list is carried over.
    pub fn process_diff_at(
        &mut self,
        curr_ids: &Vec<u32>,
        spawns: &Vec<ObservedSpawn>,
        zone: &str,
        timers: &mut TimerStore,
        now: i64,
    ) -> (r: (bool, Vec<String>))
        requires
            old(self).fits(),
            -0x1000_0000_0000 <= now <= 0x1000_0000_0000,
        ensures
            final(self).fits(),
            prev_m(final(self).prev_tick_npcs@) == next_prev(curr_ids@, spawns@),
            skipped_zone(zone@) ==> {
                &&& final(self).pending_kills@ == old(self).pending_kills@
                &&& final(self).observations@ == old(self).observations@
                &&& final(timers).timers@ == old(timers).timers@
                &&& !r.0 && r.1@.len() == 0
            },
            !skipped_zone(zone@) ==> state_of(*final(self), final(timers).timers@, r.1@, r.0)
                == diff_outcome(*old(self), old(timers).timers@, curr_ids@, spawns@, zone@, now),
    {
        if zone.is_empty() || is_void_zone(zone) {
            self.remember_tick(curr_ids, spawns);
            return (false, Vec::new());
        }
        let ghost o0 = *self;
        let ghost prev = prev_m(self.prev_tick_npcs@);
        let ghost st0 = state_of(o0, timers.timers@, Seq::empty(), false);
        let mut promoted = false;
        let mut log: Vec<String> = Vec::new();
        assert(texts(log@) =~= Seq::<Seq<char>>::empty());
        let mut i: usize = 0;
        while i < curr_ids.len()
            invariant
                i <= curr_ids@.len(),
                self.fits(),
                -0x1000_0000_0000 <= now <= 0x1000_0000_0000,
                self.prev_tick_npcs@ == o0.prev_tick_npcs@,
                prev == prev_m(o0.prev_tick_npcs@),
                state_of(*self, timers.timers@, log@, promoted) == respawn_pass(
                    st0,
                    curr_ids@.take(i as int),
                    prev,
                    spawns@,
                    zone@,
                    now,
                ),
            decreases curr_ids@.len() - i,
        {
            assert(curr_ids@.take(i + 1).drop_last() =~= curr_ids@.take(i as int));
            assert(curr_ids@.take(i + 1).last() == curr_ids@[i as int]);
            self.respawn_one(curr_ids[i], spawns, zone, now, timers, &mut log, &mut promoted);
            i = i + 1;
        }
        assert(curr_ids@.take(i as int) =~= curr_ids@);
        let ghost st1 = state_of(*self, timers.timers@, log@, promoted);
        let mut j: usize = 0;
        while j < self.prev_tick_npcs.len()
            invariant
                j <= prev.len(),
                self.fits(),
                -0x1000_0000_0000 <= now <= 0x1000_0000_0000,
                self.prev_tick_npcs@ == o0.prev_tick_npcs@,
                prev == prev_m(o0.prev_tick_npcs@),
                state_of(*self, timers.timers@, log@, promoted) == kill_pass(
                    st1,
                    prev.take(j as int),
                    curr_ids@,
                    spawns@,
                    now,
                ),
            decreases prev.len() - j,
        {
            assert(prev.take(j + 1).drop_last() =~= prev.take(j as int));
            assert(prev.take(j + 1).last() == prev[j as int]);
            let id = self.prev_tick_npcs[j].0;
            let name = self.prev_tick_npcs[j].1.clone();
            assert(prev[j as int] == (id, name@));
            self.kill_one(id, &name, curr_ids, spawns, now, timers, &mut log, &mut promoted);
            j = j + 1;
        }
        assert(prev.take(j as int) =~= prev);
        self.remember_tick(curr_ids, spawns);
        (promoted, log)
    }

    /// `process_diff_at` by the system clock.
    pub fn process_diff(
        &mut self,
        curr_ids: &Vec<u32>,
        spawns: &Vec<ObservedSpawn>,
        zone: &str,
        timers: &mut TimerStore,
    ) -> (r: (bool, Vec<String>))
        requires
            old(self).fits(),
        ensures
            final(self).fits(),
            prev_m(final(self).prev_tick_npcs@) == next_prev(curr_ids@, spawns@),
            skipped_zone(zone@) ==> {
                &&& final(self).pending_kills@ == old(self).pending_kills@
                &&& final(self).observations@ == old(self).observations@
                &&& final(timers).timers@ == old(timers).timers@
                &&& !r.0 && r.1@.len() == 0
            },
            !skipped_zone(zone@) ==> exists|now: i64|
                0 <= now <= CLOCK_MAX && state_of(*final(self), final(timers).timers@, r.1@, r.0) == diff_outcome(
                    *old(self),
                    old(timers).timers@,
                    curr_ids@,
                    spawns@,
                    zone@,
                    now,
                ),
    {
        let now = unix_now();
        self.process_diff_at(curr_ids, spawns, zone, timers, now)
    }

    /// A zone change: forget the previous tick and the pending kills; what
    /// was learned stays.
    pub fn on_zone_change(&mut self)
        ensures
            final(self).prev_tick_npcs@.len() == 0,
            final(self).pending_kills@.len() == 0,
            final(self).observations@ == old(self).observations@,
    {
        self.prev_tick_npcs.clear();
        self.pending_kills.clear();
    }

    /// Forget everything, learned observations included.
    pub fn reset_zone(&mut self)
        ensures
            final(self).prev_tick_npcs@.len() == 0,
            final(self).pending_kills@.len() == 0,
            final(self).observations@.len() == 0,
    {
        self.prev_tick_npcs.clear();
        self.pending_kills.clear();
        self.observations.clear();
    }
}

impl Default for SpawnObserver {
    fn default() -> (o: Self)
        ensures
            o.prev_tick_npcs@.len() == 0,
            o.pending_kills@.len() == 0,
            o.observations@.len() == 0,
    {
        SpawnObserver::new()
    }
}



/// A promoted timer's respawn time is the mean of the recorded intervals,
/// rounded toward zero: it times the number of intervals falls short of
/// their sum (or, for a negative sum, exceeds it) by less than one interval
/// count.
pub proof fn law_promoted_interval_is_mean(
    o: ObsModel,
    kill: KillModel,
    key: Seq<char>,
    zone: Seq<char>,
    now: i64,
    timers: Seq<TimerModel>,
)
    requires
        o.intervals.len() > 0,
    ensures
        ({
            let v = promoted_timer(o, kill, key, zone, now, timers).respawn_secs as int;
            let n = o.intervals.len() as int;
            let sum = seq_sum(o.intervals);
            &&& sum >= 0 ==> 0 <= sum - v * n < n
            &&& sum < 0 ==> 0 <= v * n - sum < n
        }),
{
    let n = o.intervals.len() as int;
    let sum = seq_sum(o.intervals);
    lemma_seq_sum_bounds(o.intervals);
    if sum >= 0 {
        let q = sum / n;
        assert(0 <= sum - q * n < n) by (nonlinear_arith)
            requires
                sum >= 0,
                n > 0,
                q == sum / n,
        ;
        assert(q <= 0x7fff_ffff_ffff_ffff) by (nonlinear_arith)
            requires
                q == sum / n,
                0 <= sum <= n * 0x7fff_ffff_ffff_ffff,
                n > 0,
        ;
        assert(q >= 0) by (nonlinear_arith)
            requires
                q == sum / n,
                sum >= 0,
                n > 0,
        ;
    } else {
        let q = (-sum) / n;
        assert(0 <= (-sum) - q * n < n) by (nonlinear_arith)
            requires
                -sum > 0,
                n > 0,
                q == (-sum) / n,
        ;
        assert(q <= 0x8000_0000_0000_0000) by (nonlinear_arith)
            requires
                q == (-sum) / n,
                0 <= -sum <= n * 0x8000_0000_0000_0000,
                n > 0,
        ;
        assert(q >= 0) by (nonlinear_arith)
            requires
                q == (-sum) / n,
                -sum >= 0,
                n > 0,
        ;
        assert((-q) * n == -(q * n)) by (nonlinear_arith);
    }
}

/// A recorded respawn after `t` seconds makes `t` the newest interval and
/// keeps the older ones in order, dropping the oldest one once there are
/// more than `MAX_INTERVALS`; the respawn count goes up by one (wrapping).
pub proof fn law_respawn_records_interval(o: ObsModel, t: i64, name: Seq<char>)
    ensures
        ({
            let r = bumped(o, t, name).intervals;
            let n = o.intervals.len();
            &&& r.len() == (if n + 1 > MAX_INTERVALS {
                n
            } else {
                n + 1
            })
            &&& r.len() > 0
            &&& r[r.len() - 1] == t
            &&& forall|k: int|
                0 <= k < r.len() - 1 ==> #[trigger] r[k] == o.intervals[n + 1 - r.len() + k]
            &&& bumped(o, t, name).spawn_count == (if o.spawn_count == u32::MAX {
                0
            } else {
                o.spawn_count + 1
            })
            &&& bumped(o, t, name).names.contains(name)
            &&& o.names.contains(name) ==> bumped(o, t, name).names == o.names
            &&& !o.names.contains(name) ==> bumped(o, t, name).names == o.names.push(name)
            &&& bumped(o, t, name).name == o.name && bumped(o, t, name).x == o.x
            &&& bumped(o, t, name).y == o.y && bumped(o, t, name).z == o.z
        }),
{
    let s = o.intervals.push(t);
    let r = bumped(o, t, name).intervals;
    if s.len() > MAX_INTERVALS {
        assert(r == s.drop_first());
        assert forall|k: int| 0 <= k < r.len() - 1 implies #[trigger] r[k] == o.intervals[o.intervals.len() + 1 - r.len() + k] by {
            assert(r[k] == s[k + 1]);
        }
        assert(r[r.len() - 1] == s[s.len() - 1]);
    } else {
        assert(r == s);
    }
    if !o.names.contains(name) {
        assert(o.names.push(name)[o.names.len() as int] == name);
    }
}

/// A spawn point seen respawning for the first time never produces a
/// timer: with no observation yet at the spawn's location, a respawn step
/// leaves the timers as they were.
pub proof fn law_first_respawn_makes_no_timer(
    st: DiffState,
    id: u32,
    prev: Seq<(u32, Seq<char>)>,
    spawns: Seq<ObservedSpawn>,
    zone: Seq<char>,
    now: i64,
)
    requires
        spawn_index(spawns, id) < spawns.len() ==> assoc_get(
            st.obs,
            spawns[spawn_index(spawns, id)].loc@,
        ) is None,
    ensures
        respawn_step(st, id, prev, spawns, zone, now).timers == st.timers,
        !respawn_step(st, id, prev, spawns, zone, now).promoted || st.promoted,
{
}

/// A kill is filed under the spawn point, not where the mob died: when a
/// spawn of the previous tick is gone and not excluded, the pending kill
/// at its spawn-point key is that kill, timed `now`.
pub proof fn law_kill_filed_at_spawn_point(
    st: DiffState,
    entry: (u32, Seq<char>),
    curr: Seq<u32>,
    spawns: Seq<ObservedSpawn>,
    now: i64,
)
    requires
        !curr.contains(entry.0),
        spawn_index(spawns, entry.0) < spawns.len(),
        !excluded(
            entry.1,
            spawns[spawn_index(spawns, entry.0)].race,
            spawns[spawn_index(spawns, entry.0)].owner_id,
        ),
    ensures
        ({
            let sp = spawns[spawn_index(spawns, entry.0)];
            assoc_get(kill_step(st, entry, curr, spawns, now).pending, sp.spawn_loc@) == Some(
                KillModel { name: entry.1, x: sp.spawn_x, y: sp.spawn_y, z: sp.z, killed_at: now },
            )
        }),
{
    let sp = spawns[spawn_index(spawns, entry.0)];
    let k = sp.spawn_loc@;
    let v = KillModel { name: entry.1, x: sp.spawn_x, y: sp.spawn_y, z: sp.z, killed_at: now };
    lemma_key_index(st.pending, k);
    let i = key_index(st.pending, k);
    let s1 = assoc_put(st.pending, k, v);
    if i < st.pending.len() {
        lemma_key_index_is(s1, k, i);
    } else {
        assert forall|j: int| 0 <= j < st.pending.len() implies s1[j].0 != k by {
            assert(s1[j] == st.pending[j]);
        }
        lemma_key_index_is(s1, k, st.pending.len() as int);
    }
}

/// Excluded spawns (pets and other owned spawns, `_` names, boats) never
/// leave a pending kill and never touch the timers: their kill step
/// changes nothing.
pub proof fn law_excluded_spawns_leave_no_kill(
    st: DiffState,
    entry: (u32, Seq<char>),
    curr: Seq<u32>,
    spawns: Seq<ObservedSpawn>,
    now: i64,
)
    requires
        spawn_index(spawns, entry.0) < spawns.len() ==> excluded(
            entry.1,
            spawns[spawn_index(spawns, entry.0)].race,
            spawns[spawn_index(spawns, entry.0)].owner_id,
        ),
    ensures
        kill_step(st, entry, curr, spawns, now) == st,
{
}

} // verus!

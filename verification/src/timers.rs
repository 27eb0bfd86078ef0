//! Respawn timers: which zones and spawns take part, the display name of
//! a spawn point, a timer's countdown, the zone's timer list, and the
//! dates of the older timer file format.
use vstd::prelude::*;
use std::collections::VecDeque;
use crate::scanner::days_of;
use crate::spawn_filter::texts;
use crate::text::{
    chars_eq, chars_of, dec_chars, dec_chars_padded, dec_seq, has_prefix, pad_left,
    parse_i64, parse_int, parse_nat_upto, parse_u64_upto, push_all, seqs, split_chars, split_seq,
    splitn_chars, splitn_seq, starts_with, string_of, to_lowercase, to_uppercase, trim, trim_chars,
    unicode_lowercase, unicode_upper,
};

verus! {

/// Timers kept per zone.
pub const MAX_TIMERS: usize = 200;

/// Zones where nothing is timed: these, and every zone whose (lowercased)
/// name starts with `guild`.
pub open spec fn is_void_name(z: Seq<char>) -> bool {
    z == "bazaar"@ || z == "clz"@ || z == "default"@ || z == "nexus"@ || z == "poknowledge"@
        || has_prefix(z, "guild"@)
}

/// Is `zone` (case-insensitive) a zone where nothing is timed?
pub fn is_void_zone(zone: &str) -> (b: bool)
    ensures
        b == is_void_name(unicode_lowercase(zone@)),
{
    let lowered = to_lowercase(zone);
    let z = chars_of(lowered.as_str());
    chars_eq(&z, &chars_of("bazaar")) || chars_eq(&z, &chars_of("clz")) || chars_eq(
        &z,
        &chars_of("default"),
    ) || chars_eq(&z, &chars_of("nexus")) || chars_eq(&z, &chars_of("poknowledge")) || starts_with(
        &z,
        &chars_of("guild"),
    )
}

/// Spawns that never get timers: pets and other owned spawns, names
/// starting with `_`, and boats (races 141, 376, 533).
pub open spec fn excluded(name: Seq<char>, race: u32, owner_id: u32) -> bool {
    owner_id != 0 || (name.len() > 0 && name[0] == '_') || race == 141 || race == 376 || race == 533
}

pub fn is_excluded_spawn(name: &str, race: u32, owner_id: u32) -> (b: bool)
    ensures
        b == excluded(name@, race, owner_id),
{
    let n = chars_of(name);
    owner_id != 0 || (n.len() > 0 && n[0] == '_') || race == 141 || race == 376 || race == 533
}

/// Result of `char::is_uppercase` (Unicode `Uppercase` property).
pub uninterp spec fn unicode_uppercase(c: char) -> bool;

/// `char::is_uppercase`.  std documents it as the Unicode `Uppercase`
/// property; among ASCII characters exactly `A`–`Z` have it.
#[verifier::external_body]
fn is_uppercase(c: char) -> (b: bool)
    ensures
        b == unicode_uppercase(c),
        (c as u32) < 128 ==> (b == ('A' <= c && c <= 'Z')),
{
    c.is_uppercase()
}

/// A named (boss) mob: the name starts with an uppercase letter or `#`.
pub open spec fn named_mob(name: Seq<char>) -> bool {
    name.len() > 0 && (unicode_uppercase(name[0]) || name[0] == '#')
}

pub fn is_named_mob(name: &str) -> (b: bool)
    ensures
        b == named_mob(name@),
{
    let n = chars_of(name);
    n.len() > 0 && (is_uppercase(n[0]) || n[0] == '#')
}

/// Index of the first named mob among `names`, or `names.len()`.
pub open spec fn first_named(names: Seq<Seq<char>>) -> int
    decreases names.len(),
{
    if names.len() == 0 {
        0
    } else if named_mob(names[0]) {
        0
    } else {
        1 + first_named(names.drop_first())
    }
}

/// The display name of a spawn point: its first named mob, else `fallback`.
pub fn best_display_name<'a>(all_names: &'a [String], fallback: &'a str) -> (r: &'a str)
    ensures
        ({
            let ns = all_names@.map_values(|s: String| s@);
            r@ == (if first_named(ns) < ns.len() {
                ns[first_named(ns)]
            } else {
                fallback@
            })
        }),
{
    let ghost ns = all_names@.map_values(|s: String| s@);
    let mut i: usize = 0;
    assert(ns.skip(0) =~= ns);
    while i < all_names.len()
        invariant
            i <= ns.len(),
            ns == all_names@.map_values(|s: String| s@),
            first_named(ns) == i + first_named(ns.skip(i as int)),
        decreases ns.len() - i,
    {
        if is_named_mob(all_names[i].as_str()) {
            return all_names[i].as_str();
        }
        assert(ns.skip(i as int).drop_first() =~= ns.skip(i + 1));
        i = i + 1;
    }
    fallback
}

/// A respawn timer for one spawn point.  Times are Unix seconds (UTC);
/// coordinates hold `f32` bit patterns.
#[derive(Debug, Clone)]
pub struct SpawnTimer {
    /// Display name (a named mob when one was seen here).
    pub name: String,
    /// `y.yyy,x.xxx` location key; identifies the timer.
    pub spawn_loc: String,
    /// Every name seen at this spawn point.
    pub all_names: Vec<String>,
    pub x: u32,
    pub y: u32,
    pub z: u32,
    /// When the mob was killed (the timer's start); `None` while it is up.
    pub killed_at: Option<i64>,
    /// Expected respawn interval in seconds.
    pub respawn_secs: i64,
    /// Learned by watching respawns rather than entered by hand.
    pub is_auto: bool,
    /// Respawn cycles observed.
    pub spawn_count: u32,
    /// When the mob last respawned.
    pub spawn_time: Option<i64>,
    pub zone: String,
    /// Survives zone changes until all timers are cleared.
    pub sticky: bool,
}

/// The countdown text: `ALIVE` with no kill time, `UNKNOWN` once the
/// respawn time has passed, else `h:mm:ss` (or `m:ss` under an hour).
pub open spec fn countdown_text(killed_at: Option<i64>, respawn_secs: i64, now: i64) -> Seq<char> {
    match killed_at {
        None => "ALIVE"@,
        Some(k) => {
            let secs = k + respawn_secs - now;
            if secs <= 0 {
                "UNKNOWN"@
            } else {
                let h = secs / 3600;
                let m = (secs % 3600) / 60;
                let s = secs % 60;
                if h > 0 {
                    dec_seq(h as nat) + seq![':'] + pad_left(dec_seq(m as nat), 2, '0') + seq![':']
                        + pad_left(dec_seq(s as nat), 2, '0')
                } else {
                    dec_seq(m as nat) + seq![':'] + pad_left(dec_seq(s as nat), 2, '0')
                }
            }
        },
    }
}

/// The times fit the machine's arithmetic.
pub open spec fn times_fit(killed_at: Option<i64>, respawn_secs: i64, now: i64) -> bool {
    killed_at matches Some(k) ==> (i64::MIN <= k + respawn_secs <= i64::MAX && i64::MIN <= k
        + respawn_secs - now <= i64::MAX)
}

impl SpawnTimer {
    /// A hand-entered timer for the spawn point `spawn_loc`, started at
    /// `now` (Unix seconds).
    pub fn new(name: String, spawn_loc: String, x: u32, y: u32, z: u32, respawn_secs: i64, now: i64) -> (t:
        Self)
        ensures
            t.name == name,
            t.spawn_loc == spawn_loc,
            t.all_names@.len() == 0,
            t.x == x && t.y == y && t.z == z,
            t.killed_at == Some(now),
            t.respawn_secs == respawn_secs,
            !t.is_auto && t.spawn_count == 0 && t.spawn_time is None && !t.sticky,
            t.zone@.len() == 0,
    {
        SpawnTimer {
            name,
            spawn_loc,
            all_names: Vec::new(),
            x,
            y,
            z,
            killed_at: Some(now),
            respawn_secs,
            is_auto: false,
            spawn_count: 0,
            spawn_time: None,
            zone: String::new(),
            sticky: false,
        }
    }

    /// When the mob is expected back.
    pub fn next_spawn_at(&self) -> (r: Option<i64>)
        requires
            self.killed_at matches Some(k) ==> i64::MIN <= k + self.respawn_secs <= i64::MAX,
        ensures
            r == (match self.killed_at {
                Some(k) => Some((k + self.respawn_secs) as i64),
                None => None,
            }),
    {
        match self.killed_at {
            Some(k) => Some(k + self.respawn_secs),
            None => None,
        }
    }

    /// Seconds left at `now` (negative once past); `i64::MIN` with no kill time.
    pub fn secs_remaining_at(&self, now: i64) -> (r: i64)
        requires
            times_fit(self.killed_at, self.respawn_secs, now),
        ensures
            r == (match self.killed_at {
                Some(k) => (k + self.respawn_secs - now) as i64,
                None => i64::MIN,
            }),
    {
        match self.killed_at {
            Some(k) => k + self.respawn_secs - now,
            None => i64::MIN,
        }
    }

    /// Has the respawn time passed at `now`?
    pub fn is_spawned_at(&self, now: i64) -> (b: bool)
        requires
            times_fit(self.killed_at, self.respawn_secs, now),
        ensures
            b == (match self.killed_at {
                Some(k) => k + self.respawn_secs - now <= 0,
                None => true,
            }),
    {
        self.secs_remaining_at(now) <= 0
    }

    /// The mob is known to be up (no kill time).
    pub fn is_alive(&self) -> (b: bool)
        ensures
            b == (self.killed_at is None),
    {
        self.killed_at.is_none()
    }

    /// The countdown at `now` (see `countdown_text`).
    pub fn countdown_str_at(&self, now: i64) -> (s: String)
        requires
            times_fit(self.killed_at, self.respawn_secs, now),
        ensures
            s@ == countdown_text(self.killed_at, self.respawn_secs, now),
    {
        if self.killed_at.is_none() {
            return String::from_str("ALIVE");
        }
        let secs = self.secs_remaining_at(now);
        if secs <= 0 {
            return String::from_str("UNKNOWN");
        }
        let h = secs / 3600;
        let m = (secs % 3600) / 60;
        let s = secs % 60;
        let mut v: Vec<char> = Vec::new();
        if h > 0 {
            v = dec_chars(h as u64);
            v.push(':');
            push_all(&mut v, &dec_chars_padded(m as u64, 2));
            v.push(':');
            push_all(&mut v, &dec_chars_padded(s as u64, 2));
        } else {
            v = dec_chars(m as u64);
            v.push(':');
            push_all(&mut v, &dec_chars_padded(s as u64, 2));
        }
        assert(v@ =~= countdown_text(self.killed_at, self.respawn_secs, now));
        string_of(v.as_slice())
    }

    /// The countdown now, by the system clock.
    pub fn countdown_str(&self) -> (s: String)
        requires
            self.killed_at matches Some(k) ==> -0x1000_0000_0000_0000 <= k <= 0x1000_0000_0000_0000
                && -0x1000_0000_0000_0000 <= self.respawn_secs <= 0x1000_0000_0000_0000,
        ensures
            exists|now: i64| s@ == countdown_text(self.killed_at, self.respawn_secs, now),
    {
        let now = unix_now();
        let s = self.countdown_str_at(now);
        assert(s@ == countdown_text(self.killed_at, self.respawn_secs, now));
        s
    }
}

/// The system clock in whole seconds since the Unix epoch
/// (`SystemTime::now().duration_since(UNIX_EPOCH)`, `as_secs`), or `None`
/// when the clock reads before the epoch.  Nothing is known of the value.
#[verifier::external_body]
fn clock_secs() -> Option<u64> {
    std::time::SystemTime::now().duration_since(std::time::UNIX_EPOCH).ok().map(|d| d.as_secs())
}

/// The latest time the timers work with: 2^43 seconds after the epoch,
/// beyond the years a calendar date is kept for.
pub const CLOCK_MAX: i64 = 0x800_0000_0000;

/// The system clock in Unix seconds.  A clock reading before the epoch
/// counts as the epoch, and one past `CLOCK_MAX` as `CLOCK_MAX`.
pub(crate) fn unix_now() -> (t: i64)
    ensures
        0 <= t <= CLOCK_MAX,
{
    match clock_secs() {
        Some(s) => if s <= CLOCK_MAX as u64 {
            s as i64
        } else {
            CLOCK_MAX
        },
        None => 0,
    }
}

/// The timer list of the current zone.
pub struct TimerStore {
    pub timers: VecDeque<SpawnTimer>,
}

/// Does timer `t` stand for the same spawn as `new`?  By location key when
/// `new` has one, else by name.
pub open spec fn same_timer(t: SpawnTimer, new: SpawnTimer) -> bool {
    if new.spawn_loc@.len() > 0 {
        t.spawn_loc@ == new.spawn_loc@
    } else {
        t.name@ == new.name@
    }
}

/// Index of the first timer in `s` standing for the same spawn as `new`.
pub open spec fn same_index(s: Seq<SpawnTimer>, new: SpawnTimer) -> int
    decreases s.len(),
{
    if s.len() == 0 {
        0
    } else if same_timer(s[0], new) {
        0
    } else {
        1 + same_index(s.drop_first(), new)
    }
}

proof fn lemma_same_index(s: Seq<SpawnTimer>, new: SpawnTimer)
    ensures
        0 <= same_index(s, new) <= s.len(),
        same_index(s, new) < s.len() ==> same_timer(s[same_index(s, new)], new),
    decreases s.len(),
{
    if s.len() > 0 && !same_timer(s[0], new) {
        lemma_same_index(s.drop_first(), new);
    }
}

/// The list after adding `new`: it replaces the first timer for the same
/// spawn; otherwise it is appended, dropping the oldest beyond `MAX_TIMERS`.
pub open spec fn added(s: Seq<SpawnTimer>, new: SpawnTimer) -> Seq<SpawnTimer> {
    let i = same_index(s, new);
    if i < s.len() {
        s.update(i, new)
    } else if s.len() + 1 > MAX_TIMERS {
        s.push(new).drop_first()
    } else {
        s.push(new)
    }
}

fn text_eq(a: &String, b: &String) -> (r: bool)
    ensures
        r == (a@ == b@),
{
    chars_eq(&chars_of(a.as_str()), &chars_of(b.as_str()))
}

impl Default for TimerStore {
    fn default() -> (s: Self)
        ensures
            s.timers@.len() == 0,
    {
        TimerStore::new()
    }
}

impl TimerStore {
    pub fn new() -> (s: Self)
        ensures
            s.timers@.len() == 0,
    {
        TimerStore { timers: VecDeque::new() }
    }

    /// Add or replace a timer (see `added`).
    pub fn add(&mut self, timer: SpawnTimer)
        ensures
            final(self).timers@ == added(old(self).timers@, timer),
    {
        let ghost s0 = self.timers@;
        let by_loc = !timer.spawn_loc.as_str().is_empty();
        let mut i: usize = 0;
        assert(s0.skip(0) =~= s0);
        while i < self.timers.len()
            invariant
                i <= s0.len(),
                s0 == self.timers@,
                s0 == old(self).timers@,
                by_loc == (timer.spawn_loc@.len() > 0),
                same_index(s0, timer) == i + same_index(s0.skip(i as int), timer),
            decreases s0.len() - i,
        {
            let hit = if by_loc {
                text_eq(&self.timers[i].spawn_loc, &timer.spawn_loc)
            } else {
                text_eq(&self.timers[i].name, &timer.name)
            };
            if hit {
                assert(s0.skip(i as int)[0] == s0[i as int]);
                assert(same_index(s0.skip(i as int), timer) == 0);
                assert(same_index(s0, timer) == i);
                let _ = self.timers.remove(i);
                self.timers.insert(i, timer);
                assert(self.timers@ =~= s0.update(i as int, timer));
                return;
            }
            assert(s0.skip(i as int).drop_first() =~= s0.skip(i + 1));
            i = i + 1;
        }
        assert(same_index(s0.skip(i as int), timer) == 0);
        self.timers.push_back(timer);
        if self.timers.len() > MAX_TIMERS {
            let _ = self.timers.pop_front();
        }
    }

    /// Remove the timer at `index`; nothing happens past the end.
    pub fn remove(&mut self, index: usize)
        ensures
            index < old(self).timers@.len() ==> final(self).timers@ == old(self).timers@.remove(
                index as int,
            ),
            index >= old(self).timers@.len() ==> final(self).timers@ == old(self).timers@,
    {
        let _ = self.timers.remove(index);
    }

    pub fn clear_all(&mut self)
        ensures
            final(self).timers@.len() == 0,
    {
        self.timers.clear();
    }

    pub fn len(&self) -> (n: usize)
        ensures
            n == self.timers@.len(),
    {
        self.timers.len()
    }

    pub fn is_empty(&self) -> (b: bool)
        ensures
            b == (self.timers@.len() == 0),
    {
        self.timers.len() == 0
    }
}

/// Adding a timer never takes the list past `MAX_TIMERS`, and afterwards
/// the list holds the added timer.
pub proof fn law_timers_capped(s: Seq<SpawnTimer>, new: SpawnTimer)
    requires
        s.len() <= MAX_TIMERS,
    ensures
        added(s, new).len() <= MAX_TIMERS,
        added(s, new).contains(new),
{
    let r = added(s, new);
    let i = same_index(s, new);
    lemma_same_index(s, new);
    if i < s.len() {
        assert(r[i] == new);
    } else if s.len() + 1 > MAX_TIMERS {
        assert(r[r.len() - 1] == new);
    } else {
        assert(r[s.len() as int] == new);
    }
}


/// A timer as values: its strings by their characters.
pub struct TimerModel {
    pub name: Seq<char>,
    pub spawn_loc: Seq<char>,
    pub all_names: Seq<Seq<char>>,
    pub x: u32,
    pub y: u32,
    pub z: u32,
    pub killed_at: Option<i64>,
    pub respawn_secs: i64,
    pub is_auto: bool,
    pub spawn_count: u32,
    pub spawn_time: Option<i64>,
    pub zone: Seq<char>,
    pub sticky: bool,
}

impl SpawnTimer {
    pub open spec fn model(&self) -> TimerModel {
        TimerModel {
            name: self.name@,
            spawn_loc: self.spawn_loc@,
            all_names: texts(self.all_names@),
            x: self.x,
            y: self.y,
            z: self.z,
            killed_at: self.killed_at,
            respawn_secs: self.respawn_secs,
            is_auto: self.is_auto,
            spawn_count: self.spawn_count,
            spawn_time: self.spawn_time,
            zone: self.zone@,
            sticky: self.sticky,
        }
    }
}

/// The models of a timer list.
pub open spec fn tmodels(s: Seq<SpawnTimer>) -> Seq<TimerModel> {
    s.map_values(|t: SpawnTimer| t.model())
}

/// `same_timer` on models.
pub open spec fn same_timer_m(t: TimerModel, new: TimerModel) -> bool {
    if new.spawn_loc.len() > 0 {
        t.spawn_loc == new.spawn_loc
    } else {
        t.name == new.name
    }
}

pub open spec fn same_index_m(s: Seq<TimerModel>, new: TimerModel) -> int
    decreases s.len(),
{
    if s.len() == 0 {
        0
    } else if same_timer_m(s[0], new) {
        0
    } else {
        1 + same_index_m(s.drop_first(), new)
    }
}

/// `added` on models.
pub open spec fn added_m(s: Seq<TimerModel>, new: TimerModel) -> Seq<TimerModel> {
    let i = same_index_m(s, new);
    if i < s.len() {
        s.update(i, new)
    } else if s.len() + 1 > MAX_TIMERS {
        s.push(new).drop_first()
    } else {
        s.push(new)
    }
}

proof fn lemma_same_index_m(s: Seq<SpawnTimer>, new: SpawnTimer)
    ensures
        same_index(s, new) == same_index_m(tmodels(s), new.model()),
    decreases s.len(),
{
    if s.len() > 0 {
        assert(tmodels(s)[0] == s[0].model());
        assert(tmodels(s).drop_first() =~= tmodels(s.drop_first()));
        lemma_same_index_m(s.drop_first(), new);
    }
}

/// Adding a timer and then taking models is taking models and then adding
/// the new timer's model.
pub proof fn lemma_added_models(s: Seq<SpawnTimer>, new: SpawnTimer)
    ensures
        tmodels(added(s, new)) == added_m(tmodels(s), new.model()),
{
    lemma_same_index_m(s, new);
    lemma_same_index(s, new);
    let i = same_index(s, new);
    if i < s.len() {
        assert(tmodels(s.update(i, new)) =~= tmodels(s).update(i, new.model()));
    } else if s.len() + 1 > MAX_TIMERS {
        assert(tmodels(s.push(new).drop_first()) =~= tmodels(s).push(new.model()).drop_first());
    } else {
        assert(tmodels(s.push(new)) =~= tmodels(s).push(new.model()));
    }
}

/// Index of the first timer with location key `key`, or `s.len()`.
pub open spec fn loc_index(s: Seq<TimerModel>, key: Seq<char>) -> int
    decreases s.len(),
{
    if s.len() == 0 {
        0
    } else if s[0].spawn_loc == key {
        0
    } else {
        1 + loc_index(s.drop_first(), key)
    }
}

proof fn lemma_loc_index(s: Seq<TimerModel>, key: Seq<char>)
    ensures
        0 <= loc_index(s, key) <= s.len(),
        loc_index(s, key) < s.len() ==> s[loc_index(s, key)].spawn_loc == key,
    decreases s.len(),
{
    if s.len() > 0 && s[0].spawn_loc != key {
        lemma_loc_index(s.drop_first(), key);
    }
}

/// The sticky flag of the first timer at `key` (false when none is).
pub open spec fn sticky_at(s: Seq<TimerModel>, key: Seq<char>) -> bool {
    let i = loc_index(s, key);
    i < s.len() && s[i].sticky
}

/// The list with the first timer at `key` marked killed at `now`.
pub open spec fn killed_m(s: Seq<TimerModel>, key: Seq<char>, now: i64) -> Seq<TimerModel> {
    let i = loc_index(s, key);
    if i < s.len() {
        s.update(i, TimerModel { killed_at: Some(now), ..s[i] })
    } else {
        s
    }
}

impl TimerStore {
    /// Position of the first timer at `key`.
    fn loc_position(&self, key: &str) -> (r: usize)
        ensures
            r == loc_index(tmodels(self.timers@), key@),
    {
        let ghost ms = tmodels(self.timers@);
        let k = chars_of(key);
        let mut i: usize = 0;
        assert(ms.skip(0) =~= ms);
        while i < self.timers.len()
            invariant
                i <= ms.len(),
                ms == tmodels(self.timers@),
                k@ == key@,
                loc_index(ms, key@) == i + loc_index(ms.skip(i as int), key@),
            decreases ms.len() - i,
        {
            assert(ms[i as int] == self.timers@[i as int].model());
            if chars_eq(&chars_of(self.timers[i].spawn_loc.as_str()), &k) {
                assert(ms.skip(i as int)[0] == ms[i as int]);
                return i;
            }
            assert(ms.skip(i as int)[0] == ms[i as int]);
            assert(ms.skip(i as int).drop_first() =~= ms.skip(i + 1));
            i = i + 1;
        }
        i
    }

    /// Is the first timer at `key` sticky?
    pub fn sticky_for(&self, key: &str) -> (b: bool)
        ensures
            b == sticky_at(tmodels(self.timers@), key@),
    {
        let i = self.loc_position(key);
        proof {
            lemma_loc_index(tmodels(self.timers@), key@);
        }
        if i < self.timers.len() {
            assert(tmodels(self.timers@)[i as int] == self.timers@[i as int].model());
            self.timers[i].sticky
        } else {
            false
        }
    }

    /// Start the countdown of the first timer at `key` from `now`; says
    /// whether there was one.
    pub fn mark_killed(&mut self, key: &str, now: i64) -> (hit: bool)
        ensures
            tmodels(final(self).timers@) == killed_m(tmodels(old(self).timers@), key@, now),
            hit == (loc_index(tmodels(old(self).timers@), key@) < old(self).timers@.len()),
    {
        let i = self.loc_position(key);
        proof {
            lemma_loc_index(tmodels(self.timers@), key@);
        }
        if i < self.timers.len() {
            let ghost s0 = self.timers@;
            let mut t = self.timers.remove(i).unwrap();
            t.killed_at = Some(now);
            self.timers.insert(i, t);
            assert(self.timers@ =~= s0.update(i as int, t));
            assert(tmodels(self.timers@) =~= killed_m(tmodels(s0), key@, now));
            true
        } else {
            false
        }
    }
}

// ---------------------------------------------------------------------------
// Dates of the older timer file format
// ---------------------------------------------------------------------------

pub open spec fn leap_year(y: int) -> bool {
    (y % 4 == 0 && y % 100 != 0) || y % 400 == 0
}

pub open spec fn month_days(y: int, m: int) -> int {
    if m == 2 {
        if leap_year(y) {
            29
        } else {
            28
        }
    } else if m == 4 || m == 6 || m == 9 || m == 11 {
        30
    } else {
        31
    }
}

/// A calendar date chrono represents: years -262143 to 262142.
pub open spec fn valid_ymd(y: int, m: int, d: int) -> bool {
    -262143 <= y <= 262142 && 1 <= m <= 12 && 1 <= d <= month_days(y, m)
}

/// Unix seconds of a date and time of day (UTC).
pub open spec fn utc_seconds(y: int, m: int, d: int, h: int, mi: int, s: int) -> int {
    days_of(y, m, d) * 86400 + h * 3600 + mi * 60 + s
}

/// `NaiveDate::from_ymd_opt(year, month, day)`, then `and_hms_opt(hour, min,
/// sec)`, then `and_utc().timestamp()`.  chrono's source: the date is
/// refused outside years -262143..=262142 and when the month or day does
/// not exist (proleptic Gregorian calendar); the time is refused unless
/// hour < 24, min < 60 and sec < 60; the timestamp counts seconds from
/// 1970-01-01 00:00:00 UTC.
#[verifier::external_body]
fn utc_timestamp(year: i32, month: u32, day: u32, hour: u32, min: u32, sec: u32) -> (r: Option<i64>)
    ensures
        (r is Some) == (valid_ymd(year as int, month as int, day as int) && hour < 24 && min < 60 && sec < 60),
        r matches Some(t) ==> t == utc_seconds(year as int, month as int, day as int, hour as int, min as int, sec as int),
{
    match chrono::NaiveDate::from_ymd_opt(year, month, day) {
        Some(d) => match d.and_hms_opt(hour, min, sec) {
            Some(dt) => Some(dt.and_utc().timestamp()),
            None => None,
        },
        None => None,
    }
}

/// The number `FromStr` for `u32` reads.
pub open spec fn u32_text(s: Seq<char>) -> Option<nat> {
    parse_nat_upto(s, u32::MAX as nat)
}

/// The number `FromStr` for `i32` reads.
pub open spec fn i32_text(s: Seq<char>) -> Option<int> {
    match parse_int(s) {
        Some(n) => if i32::MIN <= n <= i32::MAX {
            Some(n)
        } else {
            None
        },
        None => None,
    }
}

/// The hour on the 24-hour clock of `hour` read with the marker `ampm`
/// (already uppercased).
pub open spec fn hour24(hour: nat, ampm: Seq<char>) -> nat {
    if ampm == "PM"@ && hour < 12 {
        hour + 12
    } else if ampm == "AM"@ && hour == 12 {
        0
    } else {
        hour
    }
}

/// A date and time as `m/d/yyyy h:mm[:ss] [AM|PM]`, as Unix seconds.
pub open spec fn cs_datetime(text: Seq<char>) -> Option<int> {
    let t = trim(text);
    let parts = splitn_seq(t, 3, ' ');
    let dp = split_seq(parts[0], '/');
    let tp = split_seq(parts[1], ':');
    if t.len() == 0 || parts.len() < 2 || dp.len() != 3 || tp.len() < 2 {
        None
    } else {
        match (u32_text(dp[0]), u32_text(dp[1]), i32_text(dp[2]), u32_text(tp[0]), u32_text(tp[1])) {
            (Some(month), Some(day), Some(year), Some(hour), Some(min)) => {
                let sec: nat = if tp.len() > 2 {
                    match u32_text(tp[2]) {
                        Some(s) => s,
                        None => 0,
                    }
                } else {
                    0
                };
                let ampm = if parts.len() > 2 {
                    unicode_upper(parts[2])
                } else {
                    Seq::empty()
                };
                let h = hour24(hour, ampm);
                if valid_ymd(year, month as int, day as int) && h < 24 && min < 60 && sec < 60 {
                    Some(utc_seconds(year, month as int, day as int, h as int, min as int, sec as int))
                } else {
                    None
                }
            },
            _ => None,
        }
    }
}

fn u32_of(v: &Vec<char>) -> (r: Option<u32>)
    ensures
        r == (match u32_text(v@) {
            Some(n) => Some(n as u32),
            None => None::<u32>,
        }),
{
    match parse_u64_upto(v, 0xffff_ffff) {
        Some(n) => Some(n as u32),
        None => None,
    }
}

fn i32_of(v: &Vec<char>) -> (r: Option<i32>)
    ensures
        r == (match i32_text(v@) {
            Some(n) => Some(n as i32),
            None => None::<i32>,
        }),
{
    match parse_i64(v) {
        Some(n) => if n >= -0x8000_0000 && n <= 0x7fff_ffff {
            Some(n as i32)
        } else {
            None
        },
        None => None,
    }
}

/// Read a timer file date (`5/31/2026 3:45:23 PM`) as Unix seconds (UTC);
/// `None` when it does not parse or names no real date and time.
pub fn parse_cs_datetime(s: &str) -> (r: Option<i64>)
    ensures
        r == (match cs_datetime(s@) {
            Some(t) => Some(t as i64),
            None => None::<i64>,
        }),
{
    let t = trim_chars(&chars_of(s));
    if t.len() == 0 {
        return None;
    }
    let parts = splitn_chars(&t, 3, ' ');
    if parts.len() < 2 {
        return None;
    }
    let dp = split_chars(&parts[0], '/');
    let tp = split_chars(&parts[1], ':');
    assert(seqs(parts@)[0] == parts@[0]@ && seqs(parts@)[1] == parts@[1]@);
    if dp.len() != 3 || tp.len() < 2 {
        return None;
    }
    assert(seqs(dp@)[0] == dp@[0]@ && seqs(dp@)[1] == dp@[1]@ && seqs(dp@)[2] == dp@[2]@);
    assert(seqs(tp@)[0] == tp@[0]@ && seqs(tp@)[1] == tp@[1]@);
    let month = match u32_of(&dp[0]) {
        Some(v) => v,
        None => return None,
    };
    let day = match u32_of(&dp[1]) {
        Some(v) => v,
        None => return None,
    };
    let year = match i32_of(&dp[2]) {
        Some(v) => v,
        None => return None,
    };
    let hour = match u32_of(&tp[0]) {
        Some(v) => v,
        None => return None,
    };
    let min = match u32_of(&tp[1]) {
        Some(v) => v,
        None => return None,
    };
    let sec: u32 = if tp.len() > 2 {
        assert(seqs(tp@)[2] == tp@[2]@);
        match u32_of(&tp[2]) {
            Some(v) => v,
            None => 0,
        }
    } else {
        0
    };
    let ampm: Vec<char> = if parts.len() > 2 {
        assert(seqs(parts@)[2] == parts@[2]@);
        let u = to_uppercase(string_of(parts[2].as_slice()).as_str());
        chars_of(u.as_str())
    } else {
        Vec::new()
    };
    let is_pm = chars_eq(&ampm, &chars_of("PM"));
    let is_am = chars_eq(&ampm, &chars_of("AM"));
    let h: u32 = if is_pm && hour < 12 {
        hour + 12
    } else if is_am && hour == 12 {
        0
    } else {
        hour
    };
    let r = utc_timestamp(year, month, day, h, min, sec);
    proof {
        if r is Some {
            lemma_utc_seconds_range(year as int, month as int, day as int, h as int, min as int, sec as int);
        }
    }
    r
}

/// Seconds of a representable date fit an `i64` easily.
proof fn lemma_utc_seconds_range(y: int, m: int, d: int, h: int, mi: int, s: int)
    requires
        valid_ymd(y, m, d),
        0 <= h < 24,
        0 <= mi < 60,
        0 <= s < 60,
    ensures
        -0x1000_0000_0000 <= utc_seconds(y, m, d, h, mi, s) <= 0x1000_0000_0000,
{
    let days = days_of(y, m, d);
    assert(-100_000_000 <= days <= 100_000_000) by (nonlinear_arith)
        requires
            -262143 <= y <= 262142,
            1 <= m <= 12,
            1 <= d <= 31,
            days == days_of(y, m, d),
    {
    }
    assert(-100_000_000 * 86400 <= days * 86400 <= 100_000_000 * 86400) by (nonlinear_arith)
        requires
            -100_000_000 <= days <= 100_000_000,
    {
    }
}

} // verus!

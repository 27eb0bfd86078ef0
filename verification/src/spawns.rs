//! The client's spawns: the con color of a mob relative to the player,
//! the spawn decoded from a wire record, and the store of live spawns by id.
use vstd::prelude::*;
use std::collections::HashMap;
use crate::protocol::{field_text, name_from_bytes, last_name_from_bytes, SpawnRecord};
use crate::text::{
    chars_of, contains_char, contains_chars, contains_seq, has_prefix, starts_with, to_lowercase,
    unicode_lowercase,
};
use vstd::std_specs::iter::IteratorSpec;

verus! {

broadcast use vstd::std_specs::hash::group_hash_axioms;

/// The con color of a mob relative to the player's level.
#[derive(Debug, Clone, Copy, PartialEq, Eq, Structural)]
pub enum ConColor {
    Gray,
    Green,
    LightBlue,
    Blue,
    White,
    Yellow,
    Red,
}

/// How many levels below the player a mob cons gray.
pub open spec fn gray_gap_of(player_level: u8) -> int {
    if player_level <= 4 {
        3
    } else if player_level <= 9 {
        4
    } else if player_level <= 18 {
        5
    } else if player_level <= 29 {
        6
    } else if player_level <= 39 {
        8
    } else if player_level <= 49 {
        10
    } else if player_level <= 59 {
        12
    } else if player_level <= 64 {
        13
    } else {
        14
    }
}

/// The con color for a level difference `diff = mob - player`.
pub open spec fn con_of(diff: int, gray: int) -> ConColor {
    if diff <= -gray {
        ConColor::Gray
    } else if diff <= -4 {
        ConColor::Green
    } else if diff <= -2 {
        ConColor::LightBlue
    } else if diff == -1 {
        ConColor::Blue
    } else if diff == 0 {
        ConColor::White
    } else if diff <= 3 {
        ConColor::Yellow
    } else {
        ConColor::Red
    }
}

fn gray_gap(player_level: u8) -> (g: u8)
    ensures
        g == gray_gap_of(player_level),
{
    if player_level <= 4 {
        3
    } else if player_level <= 9 {
        4
    } else if player_level <= 18 {
        5
    } else if player_level <= 29 {
        6
    } else if player_level <= 39 {
        8
    } else if player_level <= 49 {
        10
    } else if player_level <= 59 {
        12
    } else if player_level <= 64 {
        13
    } else {
        14
    }
}

/// The con color of a mob at `mob_level` for a player at `player_level`.
pub fn con_color(player_level: u8, mob_level: u8) -> (c: ConColor)
    ensures
        c == con_of(mob_level - player_level, gray_gap_of(player_level)),
{
    let diff: i32 = mob_level as i32 - player_level as i32;
    let gray: i32 = gray_gap(player_level) as i32;
    if diff <= -gray {
        ConColor::Gray
    } else if diff <= -4 {
        ConColor::Green
    } else if diff <= -2 {
        ConColor::LightBlue
    } else if diff == -1 {
        ConColor::Blue
    } else if diff == 0 {
        ConColor::White
    } else if diff <= 3 {
        ConColor::Yellow
    } else {
        ConColor::Red
    }
}

/// The con color never gets colder as the mob's level rises.
pub open spec fn con_rank(c: ConColor) -> int {
    match c {
        ConColor::Gray => 0,
        ConColor::Green => 1,
        ConColor::LightBlue => 2,
        ConColor::Blue => 3,
        ConColor::White => 4,
        ConColor::Yellow => 5,
        ConColor::Red => 6,
    }
}

/// For a fixed player level, a higher mob level never gives a colder con
/// color; an equal level is always white.
pub proof fn law_con_monotonic(player_level: u8, a: u8, b: u8)
    requires
        a <= b,
    ensures
        con_rank(con_of(a - player_level, gray_gap_of(player_level))) <= con_rank(
            con_of(b - player_level, gray_gap_of(player_level)),
        ),
        con_of(0, gray_gap_of(player_level)) == ConColor::White,
{
}

/// One spawn, decoded from a wire record.  Coordinates, heading and speed
/// hold `f32` bit patterns.
#[derive(Debug, Clone)]
pub struct SpawnInfo {
    pub id: u32,
    pub name: String,
    pub last_name: String,
    pub x: u32,
    pub y: u32,
    pub z: u32,
    pub heading: u32,
    pub speed: u32,
    pub owner_id: u32,
    pub spawn_type: u8,
    pub class: u8,
    pub race: u32,
    pub level: u8,
    pub hidden: u8,
    pub primary: u32,
    pub offhand: u32,
}

/// `s` is the spawn decoded from `rec`.
pub open spec fn spawn_of(rec: SpawnRecord, s: SpawnInfo) -> bool {
    &&& s.id == rec.id
    &&& s.name@ == field_text(rec.name@)
    &&& s.last_name@ == field_text(rec.last_name@)
    &&& s.x == rec.x && s.y == rec.y && s.z == rec.z
    &&& s.heading == rec.heading && s.speed == rec.speed
    &&& s.owner_id == rec.owner
    &&& s.spawn_type == rec.spawn_type && s.class == rec.class && s.race == rec.race
    &&& s.level == rec.level && s.hidden == rec.hidden
    &&& s.primary == rec.primary && s.offhand == rec.offhand
}

impl SpawnInfo {
    /// Decode a wire record.
    pub fn from_record(rec: &SpawnRecord) -> (s: Self)
        ensures
            spawn_of(*rec, s),
    {
        SpawnInfo {
            id: rec.id,
            name: name_from_bytes(&rec.name),
            last_name: last_name_from_bytes(&rec.last_name),
            x: rec.x,
            y: rec.y,
            z: rec.z,
            heading: rec.heading,
            speed: rec.speed,
            owner_id: rec.owner,
            spawn_type: rec.spawn_type,
            class: rec.class,
            race: rec.race,
            level: rec.level,
            hidden: rec.hidden,
            primary: rec.primary,
            offhand: rec.offhand,
        }
    }
}

/// The live spawns, keyed by spawn id.
pub struct SpawnStore {
    spawns: HashMap<u32, SpawnInfo>,
}

impl View for SpawnStore {
    type V = Map<u32, SpawnInfo>;

    closed spec fn view(&self) -> Map<u32, SpawnInfo> {
        self.spawns@
    }
}

impl SpawnStore {
    pub fn new() -> (s: Self)
        ensures
            s@ == Map::<u32, SpawnInfo>::empty(),
    {
        SpawnStore { spawns: HashMap::new() }
    }

    /// Insert or replace the spawn described by `rec`, under its id.
    pub fn upsert(&mut self, rec: &SpawnRecord)
        ensures
            final(self)@.dom() == old(self)@.dom().insert(rec.id),
            spawn_of(*rec, final(self)@[rec.id]),
            forall|k: u32| k != rec.id && old(self)@.contains_key(k) ==> #[trigger] final(self)@[k]
                == old(self)@[k],
    {
        let info = SpawnInfo::from_record(rec);
        let id = info.id;
        self.spawns.insert(id, info);
    }

    pub fn remove(&mut self, id: u32)
        ensures
            final(self)@ == old(self)@.remove(id),
    {
        self.spawns.remove(&id);
    }

    pub fn clear(&mut self)
        ensures
            final(self)@ == Map::<u32, SpawnInfo>::empty(),
    {
        self.spawns.clear();
    }

    pub fn get(&self, id: u32) -> (r: Option<&SpawnInfo>)
        ensures
            match r {
                Some(s) => self@.contains_key(id) && *s == self@[id],
                None => !self@.contains_key(id),
            },
    {
        self.spawns.get(&id)
    }

    pub fn len(&self) -> (n: usize)
        ensures
            n == self@.len(),
    {
        self.spawns.len()
    }

    /// The spawns a search for `query` finds: those, other than the
    /// player's own, whose lowercased name holds the lowercased query; none
    /// for an empty query.  Each id once, in the map's own order.
    pub fn search_ids(&self, query: &str, self_id: Option<u32>) -> (r: Vec<u32>)
        ensures
            r@.to_set() == self@.dom().filter(|k: u32| search_hit(self@, query@, self_id, k)),
            r@.no_duplicates(),
    {
        let ghost hit = |k: u32| search_hit(self@, query@, self_id, k);
        let mut r: Vec<u32> = Vec::new();
        if query.is_empty() {
            assert(r@.to_set() =~= self@.dom().filter(hit));
            return r;
        }
        let q = chars_of(to_lowercase(query).as_str());
        let ids = self.ids();
        let mut i: usize = 0;
        while i < ids.len()
            invariant
                i <= ids@.len(),
                ids@.to_set() == self@.dom(),
                ids@.no_duplicates(),
                query@.len() > 0,
                q@ == unicode_lowercase(query@),
                hit == (|k: u32| search_hit(self@, query@, self_id, k)),
                r@ == ids@.take(i as int).filter(hit),
                r@.no_duplicates(),
            decreases ids@.len() - i,
        {
            proof {
                reveal(Seq::filter);
                assert(ids@.take(i + 1).drop_last() =~= ids@.take(i as int));
                assert(ids@.take(i + 1).last() == ids@[i as int]);
            }
            let id = ids[i];
            assert(self@.dom().contains(id)) by {
                assert(ids@.to_set().contains(ids@[i as int]));
            }
            let s = self.get(id).unwrap();
            let own = match self_id {
                Some(me) => me == id,
                None => false,
            };
            let lowered = chars_of(to_lowercase(s.name.as_str()).as_str());
            let found = !own && contains_chars(&lowered, &q);
            proof {
                assert(lowered@ == unicode_lowercase(self@[id].name@));
                assert(found == search_hit(self@, query@, self_id, id));
                let t1 = ids@.take(i + 1);
                assert(t1.last() == id);
                assert(t1.filter(hit) == (if hit(id) {
                    t1.drop_last().filter(hit).push(id)
                } else {
                    t1.drop_last().filter(hit)
                }));
            }
            if found {
                proof {
                    assert forall|j: int| 0 <= j < r@.len() implies r@[j] != id by {
                        assert(ids@.take(i as int).filter(hit).contains(r@[j]));
                        ids@.take(i as int).lemma_filter_contains_rev(hit, r@[j]);
                        let m = choose|m: int| 0 <= m < i && ids@.take(i as int)[m] == r@[j];
                        assert(ids@[m] == r@[j]);
                    }
                }
                r.push(id);
            }
            i = i + 1;
        }
        proof {
            broadcast use vstd::seq_lib::group_filter_ensures;
            assert(ids@.take(i as int) =~= ids@);
            assert forall|k: u32| #[trigger] r@.to_set().contains(k) == self@.dom().filter(hit).contains(k) by {
                if r@.contains(k) {
                    ids@.lemma_filter_contains_rev(hit, k);
                    assert(ids@.to_set().contains(k));
                    let j = choose|j: int| 0 <= j < r@.len() && r@[j] == k;
                    assert(hit(r@[j]));
                }
                if self@.dom().filter(hit).contains(k) {
                    assert(ids@.to_set().contains(k));
                    let j = choose|j: int| 0 <= j < ids@.len() && ids@[j] == k;
                    ids@.lemma_filter_contains(hit, j);
                }
            }
            assert(r@.to_set() =~= self@.dom().filter(hit));
        }
        r
    }

    /// The ids of the live spawns, each once, in the map's own order.
    pub fn ids(&self) -> (r: Vec<u32>)
        ensures
            r@.to_set() == self@.dom(),
            r@.no_duplicates(),
    {
        broadcast use vstd::std_specs::hash::group_hash_axioms;
        let mut r: Vec<u32> = Vec::new();
        let ghost keys = vstd::std_specs::hash::spec_keys_iter(&self.spawns).remaining().map_values(|k: &u32| *k);
        for k in it: self.spawns.keys()
            invariant
                it.seq().map_values(|k: &u32| *k) == keys,
                r@ == keys.take(it.index() as int),
        {
            r.push(*k);
        }
        assert(keys.take(keys.len() as int) =~= keys);
        assert(keys =~= vstd::std_specs::hash::spec_keys_iter(&self.spawns).remaining().unref());
        r
    }

    pub fn is_empty(&self) -> (b: bool)
        ensures
            b == (self@.len() == 0),
    {
        self.spawns.len() == 0
    }
}

/// The map colour (RGB) of a con colour.
pub open spec fn con_rgb_of(c: ConColor) -> (u8, u8, u8) {
    match c {
        ConColor::Gray => (128, 128, 128),
        ConColor::Green => (0, 200, 0),
        ConColor::LightBlue => (0, 200, 255),
        ConColor::Blue => (64, 128, 255),
        ConColor::White => (255, 255, 255),
        ConColor::Yellow => (255, 210, 0),
        ConColor::Red => (255, 50, 50),
    }
}

/// The map colour of a con colour (see `con_rgb_of`).
pub fn con_rgb(c: ConColor) -> (rgb: (u8, u8, u8))
    ensures
        rgb == con_rgb_of(c),
{
    match c {
        ConColor::Gray => (128, 128, 128),
        ConColor::Green => (0, 200, 0),
        ConColor::LightBlue => (0, 200, 255),
        ConColor::Blue => (64, 128, 255),
        ConColor::White => (255, 255, 255),
        ConColor::Yellow => (255, 210, 0),
        ConColor::Red => (255, 50, 50),
    }
}

/// Does a search for `query` find spawn `k`: a non-empty query held by
/// the spawn's lowercased name (both lowercased), the player excluded?
pub open spec fn search_hit(spawns: Map<u32, SpawnInfo>, query: Seq<char>, self_id: Option<u32>, k: u32) -> bool {
    query.len() > 0 && self_id != Some(k) && contains_seq(
        unicode_lowercase(spawns[k].name@),
        unicode_lowercase(query),
    )
}

/// Was a corpse likely a player's?  Player names hold no `_` and do not
/// start with `a ` or `an `, as NPC names do.
pub fn is_pc_corpse(name: &str) -> (b: bool)
    ensures
        b == (!name@.contains('_') && !has_prefix(name@, "a "@) && !has_prefix(name@, "an "@)),
{
    let v = chars_of(name);
    !contains_char(&v, '_') && !starts_with(&v, &chars_of("a ")) && !starts_with(&v, &chars_of("an "))
}

} // verus!

//! Byte offsets of the fields the server reads from the game's spawn,
//! ground item and world structures, and the size of the read buffer they
//! imply: the largest offset plus 30 bytes.
use vstd::prelude::*;
use crate::text::{ascii_lower_seq, chars_of, eq_ignore_ascii_case};

verus! {

/// Addresses of the game's top-level structures (the `[Memory Offsets]`
/// of the server INI file); 0 means unknown.
#[derive(Debug, Clone, Copy)]
pub struct PrimaryOffsets {
    pub zone_name: u64,
    pub spawn_list: u64,
    pub self_addr: u64,
    pub target: u64,
    pub ground: u64,
    pub world: u64,
}

impl Default for PrimaryOffsets {
    fn default() -> (o: Self)
        ensures
            o.zone_name == 0 && o.spawn_list == 0 && o.self_addr == 0 && o.target == 0 && o.ground
                == 0 && o.world == 0,
    {
        PrimaryOffsets { zone_name: 0, spawn_list: 0, self_addr: 0, target: 0, ground: 0, world: 0 }
    }
}

/// Bytes read past the largest offset.
pub const FIELD_SLACK: usize = 30;

/// Offsets within the spawn structure.
#[derive(Debug, Clone)]
pub struct SpawnOffsets {
    pub name: usize,
    pub last_name: usize,
    pub x: usize,
    pub y: usize,
    pub z: usize,
    pub speed: usize,
    pub heading: usize,
    pub prev: usize,
    pub next: usize,
    pub type_: usize,
    pub level: usize,
    pub hidden: usize,
    pub class: usize,
    pub id: usize,
    pub owner: usize,
    pub race: usize,
    pub primary: usize,
    pub offhand: usize,
    /// Race is 8-bit and id/owner/primary/offhand are 16-bit.
    pub race8: bool,
    /// Bytes to read per spawn node: the largest offset plus 30.
    pub buf_size: usize,
}

/// The INI key of each spawn offset, in index order.
pub open spec fn spawn_offset_names() -> Seq<Seq<char>> {
    seq![
        "NameOffset"@,
        "LastNameOffset"@,
        "SpawnIDOffset"@,
        "OwnerIDOffset"@,
        "LevelOffset"@,
        "RaceOffset"@,
        "ClassOffset"@,
        "XOffset"@,
        "YOffset"@,
        "ZOffset"@,
        "HeadingOffset"@,
        "SpeedOffset"@,
        "TypeOffset"@,
        "HideOffset"@,
        "PrimaryOffset"@,
        "OffhandOffset"@,
        "PrevOffset"@,
        "NextOffset"@,
    ]
}

/// The spawn offsets in index order (the order of `spawn_offset_names`).
pub open spec fn spawn_offset_values(o: SpawnOffsets) -> Seq<usize> {
    seq![
        o.name,
        o.last_name,
        o.id,
        o.owner,
        o.level,
        o.race,
        o.class,
        o.x,
        o.y,
        o.z,
        o.heading,
        o.speed,
        o.type_,
        o.hidden,
        o.primary,
        o.offhand,
        o.prev,
        o.next,
    ]
}

/// The largest of `s`, 0 for none.
pub open spec fn max_of(s: Seq<usize>) -> int
    decreases s.len(),
{
    if s.len() == 0 {
        0
    } else {
        let m = max_of(s.drop_last());
        if s.last() > m {
            s.last() as int
        } else {
            m
        }
    }
}

/// Setting offset `i` to `val` leaves every offset, plus the 30 bytes
/// read past the largest, within `usize`.
pub open spec fn spawn_bounds_except(o: SpawnOffsets, i: int, val: usize) -> bool {
    &&& val + FIELD_SLACK <= usize::MAX
    &&& forall|k: int| 0 <= k < 18 && k != i ==> #[trigger] spawn_offset_values(o)[k] + FIELD_SLACK <= usize::MAX
}

/// A value set by index reads back at that index of `named_values`, and
/// no other value changes: the values that `named_values` lists after a
/// successful `set_by_index(i, val)` are those before with `val` at `i`.
pub proof fn law_set_by_index_reads_back(before: SpawnOffsets, after: SpawnOffsets, i: int, val: usize)
    requires
        0 <= i < 18,
        spawn_offset_values(after) == spawn_offset_values(before).update(i, val),
    ensures
        spawn_offset_values(after).len() == 18,
        spawn_offset_values(after)[i] == val,
        forall|k: int| 0 <= k < 18 && k != i ==> #[trigger] spawn_offset_values(after)[k] == spawn_offset_values(before)[k],
{
}

/// The buffer size fits the offsets: the largest plus 30.
pub open spec fn spawn_wf(o: SpawnOffsets) -> bool {
    o.buf_size == max_of(spawn_offset_values(o)) + FIELD_SLACK
}

/// Each value of `s` is at most `max_of(s)`, and `max_of(s)` is one of
/// them (or 0).
proof fn lemma_max_of(s: Seq<usize>)
    ensures
        forall|i: int| 0 <= i < s.len() ==> s[i] <= max_of(s),
        0 <= max_of(s),
        s.len() == 0 ==> max_of(s) == 0,
        s.len() > 0 ==> exists|i: int| 0 <= i < s.len() && s[i] == max_of(s),
    decreases s.len(),
{
    if s.len() > 0 {
        lemma_max_of(s.drop_last());
        assert forall|i: int| 0 <= i < s.len() implies s[i] <= max_of(s) by {
            if i < s.len() - 1 {
                assert(s[i] == s.drop_last()[i]);
            }
        }
        if s.len() > 1 && s.last() <= max_of(s.drop_last()) {
            let i = choose|i: int|
                0 <= i < s.drop_last().len() && s.drop_last()[i] == max_of(s.drop_last());
            assert(s[i] == s.drop_last()[i]);
        }
        if s.len() == 1 {
            assert(s[0] == s.last());
        }
    }
}

/// The largest value of a list of offsets.
fn largest(v: &Vec<(&'static str, usize)>) -> (m: usize)
    ensures
        m == max_of(v@.map_values(|p: (&'static str, usize)| p.1)),
{
    let ghost vals = v@.map_values(|p: (&'static str, usize)| p.1);
    let mut m: usize = 0;
    let mut i: usize = 0;
    while i < v.len()
        invariant
            i <= v@.len(),
            vals == v@.map_values(|p: (&'static str, usize)| p.1),
            m == max_of(vals.take(i as int)),
        decreases v@.len() - i,
    {
        assert(vals.take(i + 1).drop_last() =~= vals.take(i as int));
        if v[i].1 > m {
            m = v[i].1;
        }
        i = i + 1;
    }
    assert(vals.take(i as int) =~= vals);
    m
}

impl Default for SpawnOffsets {
    fn default() -> (o: Self)
        ensures
            forall|k: int| 0 <= k < 18 ==> #[trigger] spawn_offset_values(o)[k] == 0,
            !o.race8 && o.buf_size == 0,
    {
        SpawnOffsets {
            name: 0,
            last_name: 0,
            x: 0,
            y: 0,
            z: 0,
            speed: 0,
            heading: 0,
            prev: 0,
            next: 0,
            type_: 0,
            level: 0,
            hidden: 0,
            class: 0,
            id: 0,
            owner: 0,
            race: 0,
            primary: 0,
            offhand: 0,
            race8: false,
            buf_size: 0,
        }
    }
}

impl SpawnOffsets {
    /// `(INI key, value)` for each spawn offset, in index order.
    pub fn named_values(&self) -> (v: Vec<(&'static str, usize)>)
        ensures
            v@.len() == 18,
            forall|i: int| 0 <= i < 18 ==> (#[trigger] v@[i]).0@ == spawn_offset_names()[i],
            v@.map_values(|p: (&'static str, usize)| p.1) == spawn_offset_values(*self),
    {
        let v = vec![
            ("NameOffset", self.name),
            ("LastNameOffset", self.last_name),
            ("SpawnIDOffset", self.id),
            ("OwnerIDOffset", self.owner),
            ("LevelOffset", self.level),
            ("RaceOffset", self.race),
            ("ClassOffset", self.class),
            ("XOffset", self.x),
            ("YOffset", self.y),
            ("ZOffset", self.z),
            ("HeadingOffset", self.heading),
            ("SpeedOffset", self.speed),
            ("TypeOffset", self.type_),
            ("HideOffset", self.hidden),
            ("PrimaryOffset", self.primary),
            ("OffhandOffset", self.offhand),
            ("PrevOffset", self.prev),
            ("NextOffset", self.next),
        ];
        assert(v@.map_values(|p: (&'static str, usize)| p.1) =~= spawn_offset_values(*self));
        v
    }

    /// The offsets read from the INI file's `[SpawnInfo Offsets]`: `v` holds
    /// them in index order (the keys of `spawn_offset_names`); the read
    /// size is the largest plus 30.
    pub fn from_values(v: &Vec<usize>, race8: bool) -> (o: Self)
        requires
            v@.len() == 18,
            forall|k: int| 0 <= k < 18 ==> #[trigger] v@[k] + FIELD_SLACK <= usize::MAX,
        ensures
            spawn_offset_values(o) == v@,
            o.race8 == race8,
            spawn_wf(o),
    {
        let mut o = SpawnOffsets {
            name: v[0],
            last_name: v[1],
            id: v[2],
            owner: v[3],
            level: v[4],
            race: v[5],
            class: v[6],
            x: v[7],
            y: v[8],
            z: v[9],
            heading: v[10],
            speed: v[11],
            type_: v[12],
            hidden: v[13],
            primary: v[14],
            offhand: v[15],
            prev: v[16],
            next: v[17],
            race8,
            buf_size: 0,
        };
        assert(spawn_offset_values(o) =~= v@);
        let nv = o.named_values();
        let m = largest(&nv);
        proof {
            let vals = spawn_offset_values(o);
            lemma_max_of(vals);
            let k = choose|k: int| 0 <= k < vals.len() && vals[k] == max_of(vals);
            assert(vals[k] + FIELD_SLACK <= usize::MAX);
        }
        o.buf_size = m + FIELD_SLACK;
        o
    }

    /// Set the offset with index `i` (the order of `named_values`) and
    /// recompute the buffer size; `false`, with nothing changed, for an
    /// index past the last.
    pub fn set_by_index(&mut self, i: usize, val: usize) -> (ok: bool)
        requires
            i < 18 ==> spawn_bounds_except(*old(self), i as int, val),
        ensures
            ok == (i < 18),
            ok ==> spawn_offset_values(*final(self)) == spawn_offset_values(*old(self)).update(
                i as int,
                val,
            ),
            ok ==> spawn_wf(*final(self)),
            ok ==> final(self).race8 == old(self).race8,
            !ok ==> *final(self) == *old(self),
    {
        match i {
            0 => self.name = val,
            1 => self.last_name = val,
            2 => self.id = val,
            3 => self.owner = val,
            4 => self.level = val,
            5 => self.race = val,
            6 => self.class = val,
            7 => self.x = val,
            8 => self.y = val,
            9 => self.z = val,
            10 => self.heading = val,
            11 => self.speed = val,
            12 => self.type_ = val,
            13 => self.hidden = val,
            14 => self.primary = val,
            15 => self.offhand = val,
            16 => self.prev = val,
            17 => self.next = val,
            _ => {
                return false;
            },
        }
        assert(spawn_offset_values(*self) =~= spawn_offset_values(*old(self)).update(
            i as int,
            val,
        ));
        let v = self.named_values();
        let m = largest(&v);
        proof {
            let vals = spawn_offset_values(*self);
            lemma_max_of(vals);
            let k = choose|k: int| 0 <= k < vals.len() && vals[k] == max_of(vals);
            assert(vals[k] + FIELD_SLACK <= usize::MAX);
        }
        self.buf_size = m + FIELD_SLACK;
        true
    }

    /// Set the offset whose INI key is `name` (ASCII case-insensitive);
    /// the index set, or `None` when no key matches.
    pub fn set_by_name(&mut self, name: &str, val: usize) -> (r: Option<usize>)
        requires
            forall|j: int|
                0 <= j < 18 && ascii_lower_seq(#[trigger] spawn_offset_names()[j]) == ascii_lower_seq(
                    name@,
                ) ==> spawn_bounds_except(*old(self), j, val),
        ensures
            match r {
                Some(i) => {
                    &&& i < 18
                    &&& ascii_lower_seq(spawn_offset_names()[i as int]) == ascii_lower_seq(name@)
                    &&& forall|j: int|
                        0 <= j < i ==> ascii_lower_seq(#[trigger] spawn_offset_names()[j])
                            != ascii_lower_seq(name@)
                    &&& spawn_offset_values(*final(self)) == spawn_offset_values(
                        *old(self),
                    ).update(i as int, val)
                    &&& spawn_wf(*final(self))
                    &&& final(self).race8 == old(self).race8
                },
                None => {
                    &&& forall|j: int|
                        0 <= j < 18 ==> ascii_lower_seq(#[trigger] spawn_offset_names()[j])
                            != ascii_lower_seq(name@)
                    &&& *final(self) == *old(self)
                },
            },
    {
        let v = self.named_values();
        let target = chars_of(name);
        let mut i: usize = 0;
        while i < v.len()
            invariant
                *self == *old(self),
                forall|j: int|
                    0 <= j < 18 && ascii_lower_seq(#[trigger] spawn_offset_names()[j])
                        == ascii_lower_seq(name@) ==> spawn_bounds_except(*old(self), j, val),
                v@.len() == 18,
                target@ == name@,
                forall|k: int| 0 <= k < 18 ==> (#[trigger] v@[k]).0@ == spawn_offset_names()[k],
                i <= 18,
                forall|j: int|
                    0 <= j < i ==> ascii_lower_seq(#[trigger] spawn_offset_names()[j])
                        != ascii_lower_seq(name@),
            decreases 18 - i,
        {
            let key = chars_of(v[i].0);
            if eq_ignore_ascii_case(&key, &target) {
                assert(ascii_lower_seq(spawn_offset_names()[i as int]) == ascii_lower_seq(name@));
                let ok = self.set_by_index(i, val);
                if ok {
                    return Some(i);
                }
                return None;
            }
            i = i + 1;
        }
        None
    }
}

/// Offsets within the ground item structure.
#[derive(Debug, Clone)]
pub struct ItemOffsets {
    pub prev: usize,
    pub next: usize,
    pub id: usize,
    pub drop_id: usize,
    pub x: usize,
    pub y: usize,
    pub z: usize,
    pub name: usize,
    pub buf_size: usize,
}

impl Default for ItemOffsets {
    fn default() -> (o: Self)
        ensures
            o.prev == 0 && o.next == 0 && o.id == 0 && o.drop_id == 0 && o.x == 0 && o.y == 0 && o.z
                == 0 && o.name == 0 && o.buf_size == 0,
    {
        ItemOffsets { prev: 0, next: 0, id: 0, drop_id: 0, x: 0, y: 0, z: 0, name: 0, buf_size: 0 }
    }
}

/// The ground item offsets in the order of `named_values`.
pub open spec fn item_offset_values(o: ItemOffsets) -> Seq<usize> {
    seq![o.prev, o.next, o.id, o.drop_id, o.x, o.y, o.z, o.name]
}

impl ItemOffsets {
    /// The offsets read from the INI file's `[GroundItem Offsets]`: `v`
    /// holds them in the order of `named_values`; the read size is the
    /// largest plus 30.
    pub fn from_values(v: &Vec<usize>) -> (o: Self)
        requires
            v@.len() == 8,
            forall|k: int| 0 <= k < 8 ==> #[trigger] v@[k] + FIELD_SLACK <= usize::MAX,
        ensures
            item_offset_values(o) == v@,
            o.buf_size == max_of(v@) + FIELD_SLACK,
    {
        let mut o = ItemOffsets {
            prev: v[0],
            next: v[1],
            id: v[2],
            drop_id: v[3],
            x: v[4],
            y: v[5],
            z: v[6],
            name: v[7],
            buf_size: 0,
        };
        let nv = o.named_values();
        let m = largest(&nv);
        proof {
            assert(nv@.map_values(|p: (&'static str, usize)| p.1) =~= v@);
            lemma_max_of(v@);
            let k = choose|k: int| 0 <= k < v@.len() && v@[k] == max_of(v@);
            assert(v@[k] + FIELD_SLACK <= usize::MAX);
        }
        o.buf_size = m + FIELD_SLACK;
        assert(item_offset_values(o) =~= v@);
        o
    }

    /// `(INI key, value)` for each ground item offset.
    pub fn named_values(&self) -> (v: Vec<(&'static str, usize)>)
        ensures
            v@ == seq![
                ("PrevOffset", self.prev),
                ("NextOffset", self.next),
                ("IdOffset", self.id),
                ("DropIdOffset", self.drop_id),
                ("XOffset", self.x),
                ("YOffset", self.y),
                ("ZOffset", self.z),
                ("NameOffset", self.name),
            ],
    {
        let v = vec![
            ("PrevOffset", self.prev),
            ("NextOffset", self.next),
            ("IdOffset", self.id),
            ("DropIdOffset", self.drop_id),
            ("XOffset", self.x),
            ("YOffset", self.y),
            ("ZOffset", self.z),
            ("NameOffset", self.name),
        ];
        assert(v@ =~= seq![
            ("PrevOffset", self.prev),
            ("NextOffset", self.next),
            ("IdOffset", self.id),
            ("DropIdOffset", self.drop_id),
            ("XOffset", self.x),
            ("YOffset", self.y),
            ("ZOffset", self.z),
            ("NameOffset", self.name),
        ]);
        v
    }
}

/// Offsets within the world information structure.
#[derive(Debug, Clone)]
pub struct WorldOffsets {
    pub hour: usize,
    pub minute: usize,
    pub day: usize,
    pub month: usize,
    pub year: usize,
    /// Year is 16-bit (the same eight-bit-race switch as the spawn offsets).
    pub race8: bool,
    pub buf_size: usize,
}

impl Default for WorldOffsets {
    fn default() -> (o: Self)
        ensures
            o.hour == 0 && o.minute == 0 && o.day == 0 && o.month == 0 && o.year == 0 && !o.race8
                && o.buf_size == 0,
    {
        WorldOffsets { hour: 0, minute: 0, day: 0, month: 0, year: 0, race8: false, buf_size: 0 }
    }
}

/// The world offsets in the order of `named_values`.
pub open spec fn world_offset_values(o: WorldOffsets) -> Seq<usize> {
    seq![o.hour, o.minute, o.day, o.month, o.year]
}

impl WorldOffsets {
    /// The offsets read from the INI file's `[WorldInfo Offsets]`: `v`
    /// holds them in the order of `named_values`, `race8` the spawn
    /// offsets' eight-bit switch; the read size is the largest plus 30.
    pub fn from_values(v: &Vec<usize>, race8: bool) -> (o: Self)
        requires
            v@.len() == 5,
            forall|k: int| 0 <= k < 5 ==> #[trigger] v@[k] + FIELD_SLACK <= usize::MAX,
        ensures
            world_offset_values(o) == v@,
            o.race8 == race8,
            o.buf_size == max_of(v@) + FIELD_SLACK,
    {
        let mut o = WorldOffsets {
            hour: v[0],
            minute: v[1],
            day: v[2],
            month: v[3],
            year: v[4],
            race8,
            buf_size: 0,
        };
        let nv = o.named_values();
        let m = largest(&nv);
        proof {
            assert(nv@.map_values(|p: (&'static str, usize)| p.1) =~= v@);
            lemma_max_of(v@);
            let k = choose|k: int| 0 <= k < v@.len() && v@[k] == max_of(v@);
            assert(v@[k] + FIELD_SLACK <= usize::MAX);
        }
        o.buf_size = m + FIELD_SLACK;
        assert(world_offset_values(o) =~= v@);
        o
    }

    /// `(INI key, value)` for each world offset.
    pub fn named_values(&self) -> (v: Vec<(&'static str, usize)>)
        ensures
            v@ == seq![
                ("WorldHourOffset", self.hour),
                ("WorldMinuteOffset", self.minute),
                ("WorldDayOffset", self.day),
                ("WorldMonthOffset", self.month),
                ("WorldYearOffset", self.year),
            ],
    {
        let v = vec![
            ("WorldHourOffset", self.hour),
            ("WorldMinuteOffset", self.minute),
            ("WorldDayOffset", self.day),
            ("WorldMonthOffset", self.month),
            ("WorldYearOffset", self.year),
        ];
        assert(v@ =~= seq![
            ("WorldHourOffset", self.hour),
            ("WorldMinuteOffset", self.minute),
            ("WorldDayOffset", self.day),
            ("WorldMonthOffset", self.month),
            ("WorldYearOffset", self.year),
        ]);
        v
    }
}

} // verus!

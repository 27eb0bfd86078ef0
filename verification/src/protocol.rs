//! The wire protocol shared by server and client: request flags, the
//! 100-byte packed record that carries spawns, ground items, zone names,
//! process ids and world time, and the client's decoding of it.
use vstd::prelude::*;
use vstd::array::spec_array_fill_for_copy_type;
use vstd::string::StringSliceAdditionalSpecFns;
use crate::bytes::{
    cstr, cstr_bytes, le32, le32_val, lemma_le32_injective, lemma_le32_of_val, lemma_le32_val, push_bytes,
    push_u32_le, u32_at,
};
use crate::text::{
    ascii_bytes, dec_chars, dec_chars_padded, dec_seq, from_utf8_lossy, latin_chars, pad_left,
    push_all, string_of, utf8_lossy,
};

verus! {

// Request bitmask flags sent by the client (4-byte little-endian i32).
pub const IPT_ZONE: i32 = 0x01;
pub const IPT_SELF: i32 = 0x02;
pub const IPT_TARGET: i32 = 0x04;
pub const IPT_SPAWNS: i32 = 0x08;
pub const IPT_GROUND: i32 = 0x10;
pub const IPT_GETPROC: i32 = 0x20;
pub const IPT_SETPROC: i32 = 0x40;
pub const IPT_WORLD: i32 = 0x80;

// Outgoing record kind stored in `SpawnRecord::flags`.
pub const OPT_SPAWNS: u32 = 0x00;
pub const OPT_TARGET: u32 = 0x01;
pub const OPT_ZONE: u32 = 0x04;
pub const OPT_GROUND: u32 = 0x05;
pub const OPT_PROCESS: u32 = 0x06;
pub const OPT_WORLD: u32 = 0x08;
pub const OPT_SELF: u32 = 0xFD;

/// Size in bytes of one packed record on the wire.
pub const RECORD_SIZE: usize = 100;

/// Spawn category stored in `SpawnRecord::spawn_type` (0, 1 and 2 on the wire).
#[derive(Debug, Clone, Copy, PartialEq, Eq, Structural)]
pub enum SpawnType {
    Pc,
    Npc,
    Corpse,
}

/// One wire record.  The floating-point fields (`x`, `y`, `z`, `heading`,
/// `speed`) hold the IEEE-754 bit patterns of the `f32` values, exactly as
/// they travel in the packed layout.
#[derive(Clone, Copy, Debug)]
pub struct SpawnRecord {
    pub name: [u8; 30],
    pub x: u32,
    pub y: u32,
    pub z: u32,
    pub heading: u32,
    pub speed: u32,
    pub id: u32,
    pub owner: u32,
    pub spawn_type: u8,
    pub class: u8,
    pub race: u32,
    pub level: u8,
    pub hidden: u8,
    pub primary: u32,
    pub offhand: u32,
    pub last_name: [u8; 22],
    pub flags: u32,
}

/// The packed little-endian layout of a record (100 bytes, no padding).
pub open spec fn record_bytes(r: SpawnRecord) -> Seq<u8> {
    r.name@ + le32(r.x) + le32(r.y) + le32(r.z) + le32(r.heading) + le32(r.speed) + le32(r.id)
        + le32(r.owner) + seq![r.spawn_type, r.class] + le32(r.race) + seq![r.level, r.hidden]
        + le32(r.primary) + le32(r.offhand) + r.last_name@ + le32(r.flags)
}

pub open spec fn zero_bytes(n: nat) -> Seq<u8> {
    Seq::new(n, |i: int| 0u8)
}

/// Every byte of the record is zero.
pub open spec fn is_zeroed(r: SpawnRecord) -> bool {
    &&& r.name@ == zero_bytes(30)
    &&& r.last_name@ == zero_bytes(22)
    &&& r.x == 0 && r.y == 0 && r.z == 0 && r.heading == 0 && r.speed == 0
    &&& r.id == 0 && r.owner == 0 && r.spawn_type == 0 && r.class == 0 && r.race == 0
    &&& r.level == 0 && r.hidden == 0 && r.primary == 0 && r.offhand == 0 && r.flags == 0
}

/// The all-zero record, from which the server builds its marker records
/// (zone name, process id, empty target, world time).
pub open spec fn blank_record() -> SpawnRecord {
    SpawnRecord {
        name: spec_array_fill_for_copy_type::<u8, 30>(0u8),
        x: 0,
        y: 0,
        z: 0,
        heading: 0,
        speed: 0,
        id: 0,
        owner: 0,
        spawn_type: 0,
        class: 0,
        race: 0,
        level: 0,
        hidden: 0,
        primary: 0,
        offhand: 0,
        last_name: spec_array_fill_for_copy_type::<u8, 22>(0u8),
        flags: 0,
    }
}

/// A record is zeroed exactly when it is the blank record.
pub proof fn lemma_blank_record(r: SpawnRecord)
    ensures
        is_zeroed(r) <==> r == blank_record(),
{
    broadcast use vstd::array::axiom_spec_array_fill_for_copy_type, vstd::array::axiom_array_ext_equal;
    let b = blank_record();
    assert(b.name@ =~= zero_bytes(30));
    assert(b.last_name@ =~= zero_bytes(22));
    if is_zeroed(r) {
        assert(r.name =~= b.name);
        assert(r.last_name =~= b.last_name);
    }
}

proof fn lemma_record_len(r: SpawnRecord)
    ensures
        record_bytes(r).len() == 100,
{
    lemma_le32_val(0);
}

proof fn lemma_field32(s: Seq<u8>, off: int, x: u32)
    requires
        0 <= off,
        off + 4 <= s.len(),
        x == le32_val(s.subrange(off, off + 4)),
    ensures
        le32(x) == s.subrange(off, off + 4),
{
    lemma_le32_of_val(s.subrange(off, off + 4));
}

#[verifier::rlimit(40)]
proof fn lemma_record_bytes_of(r: SpawnRecord, s: Seq<u8>)
    requires
        s.len() == 100,
        r.name@ == s.subrange(0, 30),
        r.x == le32_val(s.subrange(30, 34)),
        r.y == le32_val(s.subrange(34, 38)),
        r.z == le32_val(s.subrange(38, 42)),
        r.heading == le32_val(s.subrange(42, 46)),
        r.speed == le32_val(s.subrange(46, 50)),
        r.id == le32_val(s.subrange(50, 54)),
        r.owner == le32_val(s.subrange(54, 58)),
        r.spawn_type == s[58],
        r.class == s[59],
        r.race == le32_val(s.subrange(60, 64)),
        r.level == s[64],
        r.hidden == s[65],
        r.primary == le32_val(s.subrange(66, 70)),
        r.offhand == le32_val(s.subrange(70, 74)),
        r.last_name@ == s.subrange(74, 96),
        r.flags == le32_val(s.subrange(96, 100)),
    ensures
        record_bytes(r) == s,
{
    lemma_field32(s, 30, r.x);
    lemma_field32(s, 34, r.y);
    lemma_field32(s, 38, r.z);
    lemma_field32(s, 42, r.heading);
    lemma_field32(s, 46, r.speed);
    lemma_field32(s, 50, r.id);
    lemma_field32(s, 54, r.owner);
    lemma_field32(s, 60, r.race);
    lemma_field32(s, 66, r.primary);
    lemma_field32(s, 70, r.offhand);
    lemma_field32(s, 96, r.flags);
    assert(seq![r.spawn_type, r.class] =~= s.subrange(58, 60));
    assert(seq![r.level, r.hidden] =~= s.subrange(64, 66));
    assert(s =~= s.subrange(0, 30) + s.subrange(30, 34) + s.subrange(34, 38) + s.subrange(38, 42)
        + s.subrange(42, 46) + s.subrange(46, 50) + s.subrange(50, 54) + s.subrange(54, 58)
        + s.subrange(58, 60) + s.subrange(60, 64) + s.subrange(64, 66) + s.subrange(66, 70)
        + s.subrange(70, 74) + s.subrange(74, 96) + s.subrange(96, 100));
}

impl SpawnRecord {
    /// A record whose bytes are all zero.
    pub fn zeroed() -> (r: Self)
        ensures
            is_zeroed(r),
            r == blank_record(),
            record_bytes(r) == zero_bytes(100),
    {
        let r = SpawnRecord {
            name: [0u8; 30],
            x: 0,
            y: 0,
            z: 0,
            heading: 0,
            speed: 0,
            id: 0,
            owner: 0,
            spawn_type: 0,
            class: 0,
            race: 0,
            level: 0,
            hidden: 0,
            primary: 0,
            offhand: 0,
            last_name: [0u8; 22],
            flags: 0,
        };
        assert(r.name@ =~= zero_bytes(30));
        assert(r.last_name@ =~= zero_bytes(22));
        assert(record_bytes(r) =~= zero_bytes(100));
        proof {
            lemma_blank_record(r);
        }
        r
    }

    /// The packed wire bytes of this record.
    pub fn as_bytes(&self) -> (v: Vec<u8>)
        ensures
            v@ == record_bytes(*self),
            v@.len() == RECORD_SIZE,
    {
        let mut v: Vec<u8> = Vec::new();
        push_bytes(&mut v, self.name.as_slice());
        push_u32_le(&mut v, self.x);
        push_u32_le(&mut v, self.y);
        push_u32_le(&mut v, self.z);
        push_u32_le(&mut v, self.heading);
        push_u32_le(&mut v, self.speed);
        push_u32_le(&mut v, self.id);
        push_u32_le(&mut v, self.owner);
        v.push(self.spawn_type);
        v.push(self.class);
        push_u32_le(&mut v, self.race);
        v.push(self.level);
        v.push(self.hidden);
        push_u32_le(&mut v, self.primary);
        push_u32_le(&mut v, self.offhand);
        push_bytes(&mut v, self.last_name.as_slice());
        push_u32_le(&mut v, self.flags);
        proof {
            lemma_record_len(*self);
        }
        assert(v@ =~= record_bytes(*self));
        v
    }

    /// Decode one packed record from exactly `RECORD_SIZE` bytes.
    pub fn from_bytes(b: &[u8]) -> (r: Self)
        requires
            b@.len() == RECORD_SIZE,
        ensures
            record_bytes(r) == b@,
    {
        let mut name = [0u8; 30];
        let mut i: usize = 0;
        while i < 30
            invariant
                i <= 30,
                b@.len() == 100,
                forall|j: int| 0 <= j < i ==> name@[j] == b@[j],
            decreases 30 - i,
        {
            name[i] = b[i];
            i = i + 1;
        }
        let mut last_name = [0u8; 22];
        let mut k: usize = 0;
        while k < 22
            invariant
                k <= 22,
                b@.len() == 100,
                forall|j: int| 0 <= j < k ==> last_name@[j] == b@[74 + j],
            decreases 22 - k,
        {
            last_name[k] = b[74 + k];
            k = k + 1;
        }
        let r = SpawnRecord {
            name,
            x: u32_at(b, 30),
            y: u32_at(b, 34),
            z: u32_at(b, 38),
            heading: u32_at(b, 42),
            speed: u32_at(b, 46),
            id: u32_at(b, 50),
            owner: u32_at(b, 54),
            spawn_type: b[58],
            class: b[59],
            race: u32_at(b, 60),
            level: b[64],
            hidden: b[65],
            primary: u32_at(b, 66),
            offhand: u32_at(b, 70),
            last_name,
            flags: u32_at(b, 96),
        };
        proof {
            assert(name@ =~= b@.subrange(0, 30));
            assert(last_name@ =~= b@.subrange(74, 96));
            lemma_record_bytes_of(r, b@);
        }
        r
    }
}

/// Two records with the same wire bytes are the same record.
pub proof fn lemma_record_bytes_injective(a: SpawnRecord, b: SpawnRecord)
    requires
        record_bytes(a) == record_bytes(b),
    ensures
        a == b,
{
    let s = record_bytes(a);
    let t = record_bytes(b);
    lemma_record_len(a);
    lemma_le32_val(a.x);
    assert(s.subrange(0, 30) =~= a.name@);
    assert(t.subrange(0, 30) =~= b.name@);
    assert(s.subrange(74, 96) =~= a.last_name@);
    assert(t.subrange(74, 96) =~= b.last_name@);
    assert(a.name =~= b.name);
    assert(a.last_name =~= b.last_name);
    assert(s.subrange(30, 34) =~= le32(a.x));
    assert(t.subrange(30, 34) =~= le32(b.x));
    lemma_le32_injective(a.x, b.x);
    assert(s.subrange(34, 38) =~= le32(a.y));
    assert(t.subrange(34, 38) =~= le32(b.y));
    lemma_le32_injective(a.y, b.y);
    assert(s.subrange(38, 42) =~= le32(a.z));
    assert(t.subrange(38, 42) =~= le32(b.z));
    lemma_le32_injective(a.z, b.z);
    assert(s.subrange(42, 46) =~= le32(a.heading));
    assert(t.subrange(42, 46) =~= le32(b.heading));
    lemma_le32_injective(a.heading, b.heading);
    assert(s.subrange(46, 50) =~= le32(a.speed));
    assert(t.subrange(46, 50) =~= le32(b.speed));
    lemma_le32_injective(a.speed, b.speed);
    assert(s.subrange(50, 54) =~= le32(a.id));
    assert(t.subrange(50, 54) =~= le32(b.id));
    lemma_le32_injective(a.id, b.id);
    assert(s.subrange(54, 58) =~= le32(a.owner));
    assert(t.subrange(54, 58) =~= le32(b.owner));
    lemma_le32_injective(a.owner, b.owner);
    assert(s[58] == a.spawn_type && t[58] == b.spawn_type);
    assert(s[59] == a.class && t[59] == b.class);
    assert(s.subrange(60, 64) =~= le32(a.race));
    assert(t.subrange(60, 64) =~= le32(b.race));
    lemma_le32_injective(a.race, b.race);
    assert(s[64] == a.level && t[64] == b.level);
    assert(s[65] == a.hidden && t[65] == b.hidden);
    assert(s.subrange(66, 70) =~= le32(a.primary));
    assert(t.subrange(66, 70) =~= le32(b.primary));
    lemma_le32_injective(a.primary, b.primary);
    assert(s.subrange(70, 74) =~= le32(a.offhand));
    assert(t.subrange(70, 74) =~= le32(b.offhand));
    lemma_le32_injective(a.offhand, b.offhand);
    assert(s.subrange(96, 100) =~= le32(a.flags));
    assert(t.subrange(96, 100) =~= le32(b.flags));
    lemma_le32_injective(a.flags, b.flags);
}

/// Decoding the bytes of an encoded record gives back that record, and
/// encoding a decoded record gives back its bytes.
pub proof fn law_record_round_trip(r: SpawnRecord, decoded: SpawnRecord, b: Seq<u8>, d2: SpawnRecord)
    requires
        record_bytes(decoded) == record_bytes(r),
        b.len() == RECORD_SIZE,
        record_bytes(d2) == b,
    ensures
        decoded == r,
        record_bytes(d2) == b,
{
    lemma_record_bytes_injective(decoded, r);
}

/// In-game time (mirrors the server's world buffer).
#[derive(Debug, Clone, Copy)]
pub struct WorldTime {
    pub hour: u8,
    pub minute: u8,
    pub day: u8,
    pub month: u8,
    pub year: u32,
}

/// In-game time as the client decodes it from a world record.
#[derive(Debug, Clone, Copy, PartialEq, Eq, Structural)]
pub struct InGameTime {
    pub hour: u8,
    pub minute: u8,
    pub day: u8,
    pub month: u8,
    pub year: u32,
}

impl Default for InGameTime {
    fn default() -> (t: Self)
        ensures
            t == (InGameTime { hour: 0, minute: 0, day: 0, month: 0, year: 0 }),
    {
        InGameTime { hour: 0, minute: 0, day: 0, month: 0, year: 0 }
    }
}

/// The in-game time carried by a world record: hour in `spawn_type`, minute
/// in `class`, day in `level`, month in `hidden`, year in `race`.
pub open spec fn time_of_record(rec: SpawnRecord) -> InGameTime {
    InGameTime {
        hour: rec.spawn_type,
        minute: rec.class,
        day: rec.level,
        month: rec.hidden,
        year: rec.race,
    }
}

/// 12-hour clock hour for a 24-hour `hour`.
pub open spec fn hour12(hour: u8) -> nat {
    if hour % 12 == 0 {
        12
    } else {
        (hour % 12) as nat
    }
}

/// `M/D/Y hh:mm AM|PM`, the style of the game's `/time` output.
pub open spec fn time_display(t: InGameTime) -> Seq<char> {
    dec_seq(t.month as nat) + seq!['/'] + dec_seq(t.day as nat) + seq!['/'] + dec_seq(
        t.year as nat,
    ) + seq![' '] + pad_left(dec_seq(hour12(t.hour)), 2, '0') + seq![':'] + pad_left(
        dec_seq(t.minute as nat),
        2,
        '0',
    ) + seq![' '] + (if t.hour < 12 {
        seq!['A', 'M']
    } else {
        seq!['P', 'M']
    })
}

impl InGameTime {
    /// Decode from a world record; `None` when the record is not flagged
    /// `OPT_WORLD`.
    pub fn from_record(rec: &SpawnRecord) -> (r: Option<Self>)
        ensures
            r == (if rec.flags == OPT_WORLD {
                Some(time_of_record(*rec))
            } else {
                None
            }),
    {
        if rec.flags != OPT_WORLD {
            return None;
        }
        Some(
            InGameTime {
                hour: rec.spawn_type,
                minute: rec.class,
                day: rec.level,
                month: rec.hidden,
                year: rec.race,
            },
        )
    }

    /// Human-readable form, e.g. `3/1/3100 02:05 PM`.
    pub fn display(&self) -> (s: String)
        ensures
            s@ == time_display(*self),
    {
        let h: u64 = if self.hour % 12 == 0 {
            12
        } else {
            (self.hour % 12) as u64
        };
        let mut v = dec_chars(self.month as u64);
        v.push('/');
        let d = dec_chars(self.day as u64);
        push_all(&mut v, &d);
        v.push('/');
        let y = dec_chars(self.year as u64);
        push_all(&mut v, &y);
        v.push(' ');
        let hh = dec_chars_padded(h, 2);
        push_all(&mut v, &hh);
        v.push(':');
        let mm = dec_chars_padded(self.minute as u64, 2);
        push_all(&mut v, &mm);
        v.push(' ');
        if self.hour < 12 {
            v.push('A');
        } else {
            v.push('P');
        }
        v.push('M');
        assert(v@ =~= time_display(*self));
        string_of(v.as_slice())
    }
}

/// The blank record carrying a world time, flagged `OPT_WORLD`.
pub open spec fn world_record(wt: WorldTime) -> SpawnRecord {
    SpawnRecord {
        spawn_type: wt.hour,
        class: wt.minute,
        level: wt.day,
        hidden: wt.month,
        race: wt.year,
        flags: OPT_WORLD,
        ..blank_record()
    }
}

/// Encode a world time as an `OPT_WORLD` record (the inverse field mapping
/// of `InGameTime::from_record`).
pub fn world_time_to_record(wt: WorldTime) -> (rec: SpawnRecord)
    ensures
        rec.spawn_type == wt.hour,
        rec.class == wt.minute,
        rec.level == wt.day,
        rec.hidden == wt.month,
        rec.race == wt.year,
        rec.flags == OPT_WORLD,
        rec == world_record(wt),
{
    let mut rec = SpawnRecord::zeroed();
    rec.spawn_type = wt.hour;
    rec.class = wt.minute;
    rec.level = wt.day;
    rec.hidden = wt.month;
    rec.race = wt.year;
    rec.flags = OPT_WORLD;
    rec
}

/// Encoding a world time and decoding it on the client gives the same
/// hour, minute, day, month and year.
pub proof fn law_world_time_round_trip(wt: WorldTime, rec: SpawnRecord)
    requires
        rec.spawn_type == wt.hour,
        rec.class == wt.minute,
        rec.level == wt.day,
        rec.hidden == wt.month,
        rec.race == wt.year,
        rec.flags == OPT_WORLD,
    ensures
        time_of_record(rec) == (InGameTime {
            hour: wt.hour,
            minute: wt.minute,
            day: wt.day,
            month: wt.month,
            year: wt.year,
        }),
{
}

/// Copy the bytes of `s` into the front of `dest`, at most all but its last
/// byte (the room a zeroed field keeps for the terminator); bytes past the
/// copy are left unchanged.
pub fn write_str(s: &str, dest: &mut [u8])
    ensures
        ({
            let n = if s.spec_bytes().len() < old(dest)@.len() - 1 {
                s.spec_bytes().len() as int
            } else if old(dest)@.len() > 0 {
                old(dest)@.len() - 1
            } else {
                0
            };
            &&& final(dest)@.len() == old(dest)@.len()
            &&& final(dest)@.take(n) == s.spec_bytes().take(n)
            &&& final(dest)@.skip(n) == old(dest)@.skip(n)
        }),
{
    let bytes = s.as_bytes();
    let room: usize = if dest.len() > 0 {
        dest.len() - 1
    } else {
        0
    };
    let len: usize = if bytes.len() < room {
        bytes.len()
    } else {
        room
    };
    let ghost d0 = dest@;
    let mut i: usize = 0;
    while i < len
        invariant
            len <= bytes@.len(),
            len <= room,
            room == (if d0.len() > 0 { d0.len() - 1 } else { 0 }),
            dest@.len() == d0.len(),
            i <= len,
            forall|j: int| 0 <= j < i ==> dest@[j] == bytes@[j],
            forall|j: int| i <= j < d0.len() ==> dest@[j] == d0[j],
        decreases len - i,
    {
        dest[i] = bytes[i];
        i = i + 1;
    }
    assert(dest@.take(len as int) =~= s.spec_bytes().take(len as int));
    assert(dest@.skip(len as int) =~= d0.skip(len as int));
}

/// A NUL-terminated byte field decoded as text (`String::from_utf8_lossy`
/// of the bytes before the first zero).
pub open spec fn field_text(b: Seq<u8>) -> Seq<char> {
    utf8_lossy(cstr(b))
}

/// Extract the name from a 30-byte name field.
pub fn name_from_bytes(bytes: &[u8; 30]) -> (s: String)
    ensures
        s@ == field_text(bytes@),
        ascii_bytes(cstr(bytes@)) ==> s@ == latin_chars(cstr(bytes@)),
{
    let b = cstr_bytes(bytes.as_slice());
    from_utf8_lossy(b.as_slice())
}

/// Extract the surname from a 22-byte last-name field.
pub fn last_name_from_bytes(bytes: &[u8; 22]) -> (s: String)
    ensures
        s@ == field_text(bytes@),
        ascii_bytes(cstr(bytes@)) ==> s@ == latin_chars(cstr(bytes@)),
{
    let b = cstr_bytes(bytes.as_slice());
    from_utf8_lossy(b.as_slice())
}

/// A NUL-terminated byte buffer decoded as text.
pub fn parse_string_bytes(buf: &[u8]) -> (s: String)
    ensures
        s@ == field_text(buf@),
        ascii_bytes(cstr(buf@)) ==> s@ == latin_chars(cstr(buf@)),
{
    let b = cstr_bytes(buf);
    from_utf8_lossy(b.as_slice())
}

/// A record decoded by the client, dispatched on its `flags` field.
#[derive(Debug)]
pub enum Packet {
    /// Regular NPC or PC spawn update.
    Spawn(SpawnRecord),
    /// The player's own character.
    Self_(SpawnRecord),
    /// Current target.
    Target(SpawnRecord),
    /// Zone change, carrying the zone name.
    Zone { name: String },
    /// Ground item.
    Ground(SpawnRecord),
    /// In-game time.
    World(InGameTime),
    /// Game process id answering a process-list request.
    Process { pid: u32 },
    /// Unrecognised record kind.
    Unknown { flags: u32 },
}

/// Decode a record into a packet according to its `flags`.
pub fn decode_packet(rec: SpawnRecord) -> (p: Packet)
    ensures
        rec.flags == OPT_SPAWNS ==> p == Packet::Spawn(rec),
        rec.flags == OPT_SELF ==> p == Packet::Self_(rec),
        rec.flags == OPT_TARGET ==> p == Packet::Target(rec),
        rec.flags == OPT_ZONE ==> (p matches Packet::Zone { name } && name@ == field_text(
            rec.name@,
        ) && (ascii_bytes(cstr(rec.name@)) ==> name@ == latin_chars(cstr(rec.name@)))),
        rec.flags == OPT_GROUND ==> p == Packet::Ground(rec),
        rec.flags == OPT_WORLD ==> p == Packet::World(time_of_record(rec)),
        rec.flags == OPT_PROCESS ==> p == (Packet::Process { pid: rec.id }),
        rec.flags != OPT_SPAWNS && rec.flags != OPT_SELF && rec.flags != OPT_TARGET && rec.flags
            != OPT_ZONE && rec.flags != OPT_GROUND && rec.flags != OPT_WORLD && rec.flags
            != OPT_PROCESS ==> p == (Packet::Unknown { flags: rec.flags }),
{
    let flags = rec.flags;
    if flags == OPT_SPAWNS {
        Packet::Spawn(rec)
    } else if flags == OPT_SELF {
        Packet::Self_(rec)
    } else if flags == OPT_TARGET {
        Packet::Target(rec)
    } else if flags == OPT_ZONE {
        Packet::Zone { name: name_from_bytes(&rec.name) }
    } else if flags == OPT_GROUND {
        Packet::Ground(rec)
    } else if flags == OPT_WORLD {
        let t = match InGameTime::from_record(&rec) {
            Some(t) => t,
            None => InGameTime::default(),
        };
        Packet::World(t)
    } else if flags == OPT_PROCESS {
        Packet::Process { pid: rec.id }
    } else {
        Packet::Unknown { flags }
    }
}

} // verus!

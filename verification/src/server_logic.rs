//! Turning raw buffers read from the game's memory into wire records: the
//! spawn, ground item and world structures, read field by field at the
//! configured offsets.  Reads past the end of a buffer give 0.
use vstd::prelude::*;
use crate::bytes::{cstr, lemma_nul_pos, nul_index_from, nul_pos};
use crate::offsets::{ItemOffsets, PrimaryOffsets, SpawnOffsets, WorldOffsets};
use crate::protocol::{blank_record, zero_bytes, SpawnRecord, WorldTime, OPT_GROUND};
use crate::scanner::{le16_at, le32_at, le64_at, read_u16_le, read_u32_le, read_u64_le};

verus! {

pub open spec fn u8_or_zero(buf: Seq<u8>, off: int) -> u8 {
    if 0 <= off < buf.len() {
        buf[off]
    } else {
        0
    }
}

pub open spec fn u16_or_zero(buf: Seq<u8>, off: int) -> u16 {
    match le16_at(buf, off) {
        Some(v) => v,
        None => 0,
    }
}

pub open spec fn u32_or_zero(buf: Seq<u8>, off: int) -> u32 {
    match le32_at(buf, off) {
        Some(v) => v,
        None => 0,
    }
}

pub open spec fn u64_or_zero(buf: Seq<u8>, off: int) -> u64 {
    match le64_at(buf, off) {
        Some(v) => v,
        None => 0,
    }
}

pub fn read_u8_at(buf: &[u8], off: usize) -> (r: u8)
    ensures
        r == u8_or_zero(buf@, off as int),
{
    if off < buf.len() {
        buf[off]
    } else {
        0
    }
}

pub fn read_u16_at(buf: &[u8], off: usize) -> (r: u16)
    ensures
        r == u16_or_zero(buf@, off as int),
{
    match read_u16_le(buf, off) {
        Some(v) => v,
        None => 0,
    }
}

pub fn read_u32_at(buf: &[u8], off: usize) -> (r: u32)
    ensures
        r == u32_or_zero(buf@, off as int),
{
    match read_u32_le(buf, off) {
        Some(v) => v,
        None => 0,
    }
}

pub fn read_u64_at(buf: &[u8], off: usize) -> (r: u64)
    ensures
        r == u64_or_zero(buf@, off as int),
{
    match read_u64_le(buf, off) {
        Some(v) => v,
        None => 0,
    }
}

/// `dest` after copying the NUL-terminated text at `buf[off..]` into it,
/// truncated to leave its last byte alone; unchanged when `off` is past
/// the end of `buf` or `dest` is empty.
pub open spec fn copied_str(buf: Seq<u8>, off: int, dest: Seq<u8>) -> Seq<u8> {
    if off < 0 || off >= buf.len() || dest.len() == 0 {
        dest
    } else {
        let text = cstr(buf.skip(off));
        let n = if text.len() < dest.len() - 1 {
            text.len() as int
        } else {
            dest.len() - 1
        };
        text.take(n) + dest.skip(n)
    }
}

/// Copy the NUL-terminated text at `buf[off..]` into `dest`, leaving room
/// for a terminator.
pub fn copy_str_into(buf: &[u8], off: usize, dest: &mut [u8])
    ensures
        final(dest)@ == copied_str(buf@, off as int, old(dest)@),
{
    if off >= buf.len() || dest.len() == 0 {
        return;
    }
    let len = nul_index_from(buf, off);
    let copy = if len < dest.len() - 1 {
        len
    } else {
        dest.len() - 1
    };
    let ghost d0 = dest@;
    let blen = buf.len();
    let mut i: usize = 0;
    while i < copy
        invariant
            copy <= len,
            blen == buf@.len(),
            off + len <= blen,
            copy < d0.len(),
            dest@.len() == d0.len(),
            i <= copy,
            forall|j: int| 0 <= j < i ==> dest@[j] == buf@[off + j],
            forall|j: int| i <= j < d0.len() ==> dest@[j] == d0[j],
        decreases copy - i,
    {
        dest[i] = buf[off + i];
        i = i + 1;
    }
    proof {
        let text = cstr(buf@.skip(off as int));
        assert(text.len() == len);
        assert(dest@ =~= text.take(copy as int) + d0.skip(copy as int));
    }
}

/// `rec` is the spawn record packed from a raw spawn structure `buf`:
/// name and surname copied as text, coordinates, heading and speed as
/// 32-bit patterns, type, class, level and hidden as bytes; race as a byte
/// and ids as 16 bits when `race8`, else all as 32 bits; then `flags`.
pub open spec fn spawn_from_raw(buf: Seq<u8>, o: SpawnOffsets, flags: u32, rec: SpawnRecord) -> bool {
    let b = blank_record();
    &&& rec.name@ == copied_str(buf, o.name as int, b.name@)
    &&& rec.last_name@ == copied_str(buf, o.last_name as int, b.last_name@)
    &&& rec.x == u32_or_zero(buf, o.x as int)
    &&& rec.y == u32_or_zero(buf, o.y as int)
    &&& rec.z == u32_or_zero(buf, o.z as int)
    &&& rec.heading == u32_or_zero(buf, o.heading as int)
    &&& rec.speed == u32_or_zero(buf, o.speed as int)
    &&& rec.spawn_type == u8_or_zero(buf, o.type_ as int)
    &&& rec.class == u8_or_zero(buf, o.class as int)
    &&& rec.level == u8_or_zero(buf, o.level as int)
    &&& rec.hidden == u8_or_zero(buf, o.hidden as int)
    &&& if o.race8 {
        &&& rec.race == u8_or_zero(buf, o.race as int) as u32
        &&& rec.id == u16_or_zero(buf, o.id as int) as u32
        &&& rec.owner == u16_or_zero(buf, o.owner as int) as u32
        &&& rec.primary == u16_or_zero(buf, o.primary as int) as u32
        &&& rec.offhand == u16_or_zero(buf, o.offhand as int) as u32
    } else {
        &&& rec.race == u32_or_zero(buf, o.race as int)
        &&& rec.id == u32_or_zero(buf, o.id as int)
        &&& rec.owner == u32_or_zero(buf, o.owner as int)
        &&& rec.primary == u32_or_zero(buf, o.primary as int)
        &&& rec.offhand == u32_or_zero(buf, o.offhand as int)
    }
    &&& rec.flags == flags
}

/// Pack a raw spawn structure into a wire record.
pub fn extract_spawn_record(buf: &[u8], offs: &SpawnOffsets, flags: u32) -> (rec: SpawnRecord)
    ensures
        spawn_from_raw(buf@, *offs, flags, rec),
{
    let mut rec = SpawnRecord::zeroed();
    copy_str_into(buf, offs.name, &mut rec.name);
    copy_str_into(buf, offs.last_name, &mut rec.last_name);
    rec.x = read_u32_at(buf, offs.x);
    rec.y = read_u32_at(buf, offs.y);
    rec.z = read_u32_at(buf, offs.z);
    rec.heading = read_u32_at(buf, offs.heading);
    rec.speed = read_u32_at(buf, offs.speed);
    rec.spawn_type = read_u8_at(buf, offs.type_);
    rec.class = read_u8_at(buf, offs.class);
    rec.level = read_u8_at(buf, offs.level);
    rec.hidden = read_u8_at(buf, offs.hidden);
    if offs.race8 {
        rec.race = read_u8_at(buf, offs.race) as u32;
        rec.id = read_u16_at(buf, offs.id) as u32;
        rec.owner = read_u16_at(buf, offs.owner) as u32;
        rec.primary = read_u16_at(buf, offs.primary) as u32;
        rec.offhand = read_u16_at(buf, offs.offhand) as u32;
    } else {
        rec.race = read_u32_at(buf, offs.race);
        rec.id = read_u32_at(buf, offs.id);
        rec.owner = read_u32_at(buf, offs.owner);
        rec.primary = read_u32_at(buf, offs.primary);
        rec.offhand = read_u32_at(buf, offs.offhand);
    }
    rec.flags = flags;
    rec
}

/// The ground-item record packed from a raw item structure: name,
/// coordinates and id, flagged `OPT_GROUND`, the rest zero.
pub open spec fn item_from_raw(buf: Seq<u8>, o: ItemOffsets, rec: SpawnRecord) -> bool {
    let b = blank_record();
    &&& rec.name@ == copied_str(buf, o.name as int, b.name@)
    &&& SpawnRecord { name: b.name, ..rec } == SpawnRecord {
        x: u32_or_zero(buf, o.x as int),
        y: u32_or_zero(buf, o.y as int),
        z: u32_or_zero(buf, o.z as int),
        id: u32_or_zero(buf, o.id as int),
        flags: OPT_GROUND,
        ..b
    }
}

/// Pack a raw ground item into a wire record.
pub fn pack_item_as_spawn(buf: &[u8], offs: &ItemOffsets) -> (rec: SpawnRecord)
    ensures
        item_from_raw(buf@, *offs, rec),
{
    let mut rec = SpawnRecord::zeroed();
    copy_str_into(buf, offs.name, &mut rec.name);
    rec.x = read_u32_at(buf, offs.x);
    rec.y = read_u32_at(buf, offs.y);
    rec.z = read_u32_at(buf, offs.z);
    rec.id = read_u32_at(buf, offs.id);
    rec.flags = OPT_GROUND;
    rec
}

/// Read the world time from a raw world structure: hour, minute, day and
/// month as bytes, the year as 16 bits when `race8`, else 32 bits.
pub fn extract_world_time(buf: &[u8], offs: &WorldOffsets) -> (t: WorldTime)
    ensures
        t.hour == u8_or_zero(buf@, offs.hour as int),
        t.minute == u8_or_zero(buf@, offs.minute as int),
        t.day == u8_or_zero(buf@, offs.day as int),
        t.month == u8_or_zero(buf@, offs.month as int),
        t.year == (if offs.race8 {
            u16_or_zero(buf@, offs.year as int) as u32
        } else {
            u32_or_zero(buf@, offs.year as int)
        }),
{
    WorldTime {
        hour: read_u8_at(buf, offs.hour),
        minute: read_u8_at(buf, offs.minute),
        day: read_u8_at(buf, offs.day),
        month: read_u8_at(buf, offs.month),
        year: if offs.race8 {
            read_u16_at(buf, offs.year) as u32
        } else {
            read_u32_at(buf, offs.year)
        },
    }
}

/// All the offsets the server reads with; replaced as a whole on reload.
#[derive(Clone)]
pub struct LiveOffsets {
    pub primary: PrimaryOffsets,
    pub spawn_off: SpawnOffsets,
    pub item_off: ItemOffsets,
    pub world_off: WorldOffsets,
}

/// The paths of the server's two INI files.
pub struct ServerLogic {
    pub ini_path: String,
    pub config_ini_path: String,
}

impl ServerLogic {
    pub fn new(ini_path: String, config_ini_path: String) -> (s: Self)
        ensures
            s.ini_path == ini_path,
            s.config_ini_path == config_ini_path,
    {
        ServerLogic { ini_path, config_ini_path }
    }
}

/// The byte of `buf` at `off`, 0 past its end.
pub open spec fn byte_at(buf: Seq<u8>, off: int) -> int {
    if 0 <= off < buf.len() {
        buf[off] as int
    } else {
        0
    }
}

/// The little-endian value of the `n` bytes of `buf` from `off`, 0 unless
/// all of them lie inside it.
pub open spec fn bytes_value(buf: Seq<u8>, off: int, n: int) -> int
    decreases n,
{
    if n <= 0 || off < 0 || off + n > buf.len() {
        0
    } else {
        buf[off] as int + 256 * bytes_value(buf, off + 1, n - 1)
    }
}

proof fn lemma_word_value(buf: Seq<u8>, off: int)
    ensures
        u32_or_zero(buf, off) as int == bytes_value(buf, off, 4),
        u16_or_zero(buf, off) as int == bytes_value(buf, off, 2),
{
    reveal_with_fuel(bytes_value, 5);
    if 0 <= off && off + 4 <= buf.len() {
        let w = buf.subrange(off, off + 4);
        assert(w[0] == buf[off] && w[1] == buf[off + 1] && w[2] == buf[off + 2] && w[3] == buf[off + 3]);
        assert(bytes_value(buf, off + 4, 0) == 0);
    }
    if 0 <= off && off + 2 <= buf.len() {
        let w = buf.subrange(off, off + 2);
        assert(w[0] == buf[off] && w[1] == buf[off + 1]);
        assert(bytes_value(buf, off + 2, 0) == 0);
    }
}

/// Every numeric field of a spawn record comes from its own offset in the
/// raw structure: one byte for type, class, level and hide state; four
/// little-endian bytes for position, heading and speed, and (with 32-bit
/// races) for id, owner, race and the equipped items; with eight-bit races,
/// one byte of race and two of id, owner and items.  A field whose bytes
/// run past the buffer reads 0.  So changing a byte changes only the
/// fields whose offsets cover it.
pub proof fn law_spawn_fields_read_at_offsets(buf: Seq<u8>, o: SpawnOffsets, flags: u32, rec: SpawnRecord)
    requires
        spawn_from_raw(buf, o, flags, rec),
    ensures
        rec.spawn_type == byte_at(buf, o.type_ as int),
        rec.class == byte_at(buf, o.class as int),
        rec.level == byte_at(buf, o.level as int),
        rec.hidden == byte_at(buf, o.hidden as int),
        rec.x == bytes_value(buf, o.x as int, 4),
        rec.y == bytes_value(buf, o.y as int, 4),
        rec.z == bytes_value(buf, o.z as int, 4),
        rec.heading == bytes_value(buf, o.heading as int, 4),
        rec.speed == bytes_value(buf, o.speed as int, 4),
        !o.race8 ==> {
            &&& rec.race == bytes_value(buf, o.race as int, 4)
            &&& rec.id == bytes_value(buf, o.id as int, 4)
            &&& rec.owner == bytes_value(buf, o.owner as int, 4)
            &&& rec.primary == bytes_value(buf, o.primary as int, 4)
            &&& rec.offhand == bytes_value(buf, o.offhand as int, 4)
        },
        o.race8 ==> {
            &&& rec.race == byte_at(buf, o.race as int)
            &&& rec.id == bytes_value(buf, o.id as int, 2)
            &&& rec.owner == bytes_value(buf, o.owner as int, 2)
            &&& rec.primary == bytes_value(buf, o.primary as int, 2)
            &&& rec.offhand == bytes_value(buf, o.offhand as int, 2)
        },
        rec.flags == flags,
{
    lemma_word_value(buf, o.x as int);
    lemma_word_value(buf, o.y as int);
    lemma_word_value(buf, o.z as int);
    lemma_word_value(buf, o.heading as int);
    lemma_word_value(buf, o.speed as int);
    lemma_word_value(buf, o.race as int);
    lemma_word_value(buf, o.id as int);
    lemma_word_value(buf, o.owner as int);
    lemma_word_value(buf, o.primary as int);
    lemma_word_value(buf, o.offhand as int);
}

/// Byte `j` of the text at `buf[off..]` exists: it lies in the buffer and
/// neither it nor any byte before it in the text is NUL.
pub open spec fn text_has_byte(buf: Seq<u8>, off: int, j: int) -> bool {
    &&& 0 <= off
    &&& off + j < buf.len()
    &&& forall|k: int| 0 <= k <= j ==> #[trigger] buf[off + k] != 0
}

proof fn lemma_copied_text(buf: Seq<u8>, off: int, n: nat)
    requires
        n > 0,
        off >= 0,
    ensures
        copied_str(buf, off, zero_bytes(n)).len() == n,
        forall|j: int|
            0 <= j < n ==> #[trigger] copied_str(buf, off, zero_bytes(n))[j] == (if j < n - 1
                && text_has_byte(buf, off, j) {
                buf[off + j]
            } else {
                0
            }),
{
    let dest = zero_bytes(n);
    let r = copied_str(buf, off, dest);
    if off >= buf.len() {
        assert forall|j: int| 0 <= j < n implies #[trigger] r[j] == (if j < n - 1 && text_has_byte(buf, off, j) {
            buf[off + j]
        } else {
            0
        }) by {}
    } else {
        let tail = buf.skip(off);
        lemma_nul_pos(tail);
        let np = nul_pos(tail);
        let m: int = if np < n - 1 {
            np
        } else {
            n - 1
        };
        assert(cstr(tail).len() == np);
        assert forall|j: int| 0 <= j < n implies #[trigger] r[j] == (if j < n - 1 && text_has_byte(buf, off, j) {
            buf[off + j]
        } else {
            0
        }) by {
            if j < m {
                assert(r[j] == cstr(tail)[j]);
                assert(tail[j] == buf[off + j]);
                assert forall|k: int| 0 <= k <= j implies #[trigger] buf[off + k] != 0 by {
                    assert(tail[k] == buf[off + k]);
                }
            } else {
                assert(r[j] == dest[j]);
                if j < n - 1 {
                    assert(m == np);
                    if np < tail.len() {
                        assert(tail[np] == buf[off + np]);
                        assert(buf[off + np] == 0);
                    }
                }
            }
        }
    }
}

/// The name and surname of a spawn record are the NUL-terminated texts at
/// their offsets in the raw structure, cut to leave the field's last byte
/// zero: byte `j` is the text's byte `j` while the text has one (and `j`
/// is below the last), and zero after.
pub proof fn law_spawn_names_read_at_offsets(buf: Seq<u8>, o: SpawnOffsets, flags: u32, rec: SpawnRecord)
    requires
        spawn_from_raw(buf, o, flags, rec),
    ensures
        forall|j: int|
            0 <= j < 30 ==> #[trigger] rec.name@[j] == (if j < 29 && text_has_byte(buf, o.name as int, j) {
                buf[o.name + j]
            } else {
                0
            }),
        forall|j: int|
            0 <= j < 22 ==> #[trigger] rec.last_name@[j] == (if j < 21 && text_has_byte(
                buf,
                o.last_name as int,
                j,
            ) {
                buf[o.last_name + j]
            } else {
                0
            }),
{
    broadcast use vstd::array::axiom_spec_array_fill_for_copy_type;
    assert(blank_record().name@ =~= zero_bytes(30));
    assert(blank_record().last_name@ =~= zero_bytes(22));
    lemma_copied_text(buf, o.name as int, 30);
    lemma_copied_text(buf, o.last_name as int, 22);
}

} // verus!

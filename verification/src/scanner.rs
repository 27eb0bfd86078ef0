//! Pattern scanning of the game executable: masked byte comparison, the
//! pointer/offset scan over a window of the file, PE header parsing, and
//! the calendar arithmetic that turns the PE time stamp into dates.
//!
//! A scan pattern is a pair of byte mask and character mask of equal
//! length.  In the character mask `x`, `o` and `r` mark bytes that must
//! match the byte mask; a run of `t` marks the value to extract; `r` also
//! switches to RIP-relative resolution; anything else is a wildcard.
use vstd::prelude::*;
use vstd::utf8::encode_utf8;
use crate::offsets::PrimaryOffsets;
use crate::text::{
    chars_of, contains_char, dec_chars, dec_chars_padded, dec_chars_spaced, dec_seq,
    from_utf8_lossy, hex_chars, hex_seq, pad_left, push_all, string_of, trim_end, trim_end_chars,
    utf8_lossy,
};
use crate::bytes::{
    cstr, cstr_bytes,
    le16_val, le32, le32_val, le64_val, push_bytes, push_u32_le, u16_at, u32_at, u64_at,
};

verus! {

/// Size of the window of the executable that each pattern is searched in.
pub const SCAN_WINDOW: usize = 0x20000;

/// `MZ`
pub const DOS_SIGNATURE: u16 = 0x5A4D;

/// `PE\0\0`
pub const PE_SIGNATURE: u32 = 0x0000_4550;

/// Optional-header magic of a PE32+ image.
pub const OPT_HDR64_MAGIC: u16 = 0x020B;

/// Extracted values at or above this are not plausible pointers.
pub const POINTER_LIMIT: u32 = 0x2000_0000;

/// One entry of the PE section table.
#[derive(Clone, Copy, Debug)]
pub struct PeSectionInfo {
    /// The 8-byte section name, NUL-terminated.
    pub name: [u8; 9],
    pub virtual_address: u32,
    pub pointer_to_raw_data: u32,
    pub size_of_raw_data: u32,
}

/// What the scanner needs of a PE image's headers.
pub struct PeImageInfo {
    pub image_base: u64,
    pub time_date_stamp: u32,
    pub sections: Vec<PeSectionInfo>,
}

// ---------------------------------------------------------------------------
// Masked comparison
// ---------------------------------------------------------------------------

/// Mask characters whose byte must match: `x`, `o` and `r`.
pub open spec fn is_checked(c: u8) -> bool {
    c == 0x78u8 || c == 0x6Fu8 || c == 0x72u8
}

/// `data` agrees with `byte_mask` at every checked position of
/// `char_mask`, over the length of the shortest of the three.
pub open spec fn mask_matches(data: Seq<u8>, byte_mask: Seq<u8>, char_mask: Seq<u8>) -> bool {
    forall|i: int|
        0 <= i < data.len() && i < byte_mask.len() && i < char_mask.len() && is_checked(
            #[trigger] char_mask[i],
        ) ==> data[i] == byte_mask[i]
}

/// Does `data` match the pattern?  Positions past the end of any of the
/// three are not compared.
pub fn compare_data(data: &[u8], byte_mask: &[u8], char_mask: &[u8]) -> (r: bool)
    ensures
        r == mask_matches(data@, byte_mask@, char_mask@),
{
    let mut n = data.len();
    if byte_mask.len() < n {
        n = byte_mask.len();
    }
    if char_mask.len() < n {
        n = char_mask.len();
    }
    let mut i: usize = 0;
    while i < n
        invariant
            n <= data@.len() && n <= byte_mask@.len() && n <= char_mask@.len(),
            n == data@.len() || n == byte_mask@.len() || n == char_mask@.len(),
            i <= n,
            forall|j: int|
                0 <= j < i && is_checked(#[trigger] char_mask@[j]) ==> data@[j] == byte_mask@[j],
        decreases n - i,
    {
        let c = char_mask[i];
        if (c == 0x78u8 || c == 0x6Fu8 || c == 0x72u8) && data[i] != byte_mask[i] {
            return false;
        }
        i = i + 1;
    }
    true
}

// ---------------------------------------------------------------------------
// Bounds-checked little-endian reads
// ---------------------------------------------------------------------------

/// `b[off..off + n]` when it lies inside `b`.
pub open spec fn window(b: Seq<u8>, off: int, n: int) -> Option<Seq<u8>> {
    if 0 <= off && off + n <= b.len() {
        Some(b.subrange(off, off + n))
    } else {
        None
    }
}

pub open spec fn le16_at(b: Seq<u8>, off: int) -> Option<u16> {
    match window(b, off, 2) {
        Some(w) => Some(le16_val(w) as u16),
        None => None,
    }
}

pub open spec fn le32_at(b: Seq<u8>, off: int) -> Option<u32> {
    match window(b, off, 4) {
        Some(w) => Some(le32_val(w) as u32),
        None => None,
    }
}

pub open spec fn le64_at(b: Seq<u8>, off: int) -> Option<u64> {
    match window(b, off, 8) {
        Some(w) => Some(le64_val(w) as u64),
        None => None,
    }
}

/// Two little-endian bytes at `off`, or `None` past the end.
pub fn read_u16_le(b: &[u8], off: usize) -> (r: Option<u16>)
    ensures
        r == le16_at(b@, off as int),
{
    if off <= b.len() && b.len() - off >= 2 {
        Some(u16_at(b, off))
    } else {
        None
    }
}

/// Four little-endian bytes at `off`, or `None` past the end.
pub fn read_u32_le(b: &[u8], off: usize) -> (r: Option<u32>)
    ensures
        r == le32_at(b@, off as int),
{
    if off <= b.len() && b.len() - off >= 4 {
        Some(u32_at(b, off))
    } else {
        None
    }
}

/// Eight little-endian bytes at `off`, or `None` past the end.
pub fn read_u64_le(b: &[u8], off: usize) -> (r: Option<u64>)
    ensures
        r == le64_at(b@, off as int),
{
    if off <= b.len() && b.len() - off >= 8 {
        proof {
            let w = b@.subrange(off as int, off + 8);
            assert(le32_val(w) <= u32::MAX);
            assert(le32_val(w.skip(4)) <= u32::MAX);
        }
        Some(u64_at(b, off))
    } else {
        None
    }
}

/// Four little-endian bytes at `off` as a signed value, or `None` past the end.
pub fn read_i32_le(b: &[u8], off: usize) -> (r: Option<i32>)
    ensures
        r == (match le32_at(b@, off as int) {
            Some(v) => Some(v as i32),
            None => None,
        }),
{
    match read_u32_le(b, off) {
        Some(v) => Some(v as i32),
        None => None,
    }
}

// ---------------------------------------------------------------------------
// File offsets and virtual addresses
// ---------------------------------------------------------------------------

/// The virtual address of file offset `off`: found through the first
/// section with raw data that holds it, else 0.  The sum wraps as `u64`.
pub open spec fn offset_va(sections: Seq<PeSectionInfo>, image_base: u64, off: u64) -> u64
    decreases sections.len(),
{
    if sections.len() == 0 {
        0
    } else {
        let s = sections[0];
        let start = s.pointer_to_raw_data as u64;
        let end = start + s.size_of_raw_data as u64;
        if s.pointer_to_raw_data != 0 && s.size_of_raw_data != 0 && start <= off && off < end {
            image_base.wrapping_add(s.virtual_address as u64).wrapping_add((off - start) as u64)
        } else {
            offset_va(sections.drop_first(), image_base, off)
        }
    }
}

/// Convert a file offset to a virtual address with the section table;
/// 0 when no section holds it.
pub fn file_offset_to_va(file_offset: u64, pe: &PeImageInfo) -> (va: u64)
    ensures
        va == offset_va(pe.sections@, pe.image_base, file_offset),
{
    let mut i: usize = 0;
    assert(pe.sections@.skip(0) =~= pe.sections@);
    while i < pe.sections.len()
        invariant
            i <= pe.sections@.len(),
            offset_va(pe.sections@, pe.image_base, file_offset) == offset_va(
                pe.sections@.skip(i as int),
                pe.image_base,
                file_offset,
            ),
        decreases pe.sections@.len() - i,
    {
        let s = pe.sections[i];
        assert(pe.sections@.skip(i as int).drop_first() =~= pe.sections@.skip(i + 1));
        if s.pointer_to_raw_data != 0 && s.size_of_raw_data != 0 {
            let start = s.pointer_to_raw_data as u64;
            let end = start + s.size_of_raw_data as u64;
            if file_offset >= start && file_offset < end {
                return pe.image_base.wrapping_add(s.virtual_address as u64).wrapping_add(
                    file_offset - start,
                );
            }
        }
        i = i + 1;
    }
    0
}

// ---------------------------------------------------------------------------
// The pointer scan
// ---------------------------------------------------------------------------

/// Index of the first `c` in `s`, or `s.len()`.
pub open spec fn first_of(s: Seq<u8>, c: u8) -> int
    decreases s.len(),
{
    if s.len() == 0 {
        0
    } else if s[0] == c {
        0
    } else {
        1 + first_of(s.drop_first(), c)
    }
}

/// Index of the last `c` in `s`, or -1.
pub open spec fn last_of(s: Seq<u8>, c: u8) -> int
    decreases s.len(),
{
    if s.len() == 0 {
        -1
    } else if s.last() == c {
        s.len() - 1
    } else {
        last_of(s.drop_last(), c)
    }
}

proof fn lemma_first_of(s: Seq<u8>, c: u8)
    ensures
        0 <= first_of(s, c) <= s.len(),
        first_of(s, c) < s.len() ==> s[first_of(s, c)] == c,
        forall|j: int| 0 <= j < first_of(s, c) ==> s[j] != c,
    decreases s.len(),
{
    if s.len() > 0 && s[0] != c {
        lemma_first_of(s.drop_first(), c);
        assert forall|j: int| 0 <= j < first_of(s, c) implies s[j] != c by {
            if j > 0 {
                assert(s[j] == s.drop_first()[j - 1]);
            }
        }
    }
}

proof fn lemma_last_of(s: Seq<u8>, c: u8)
    ensures
        -1 <= last_of(s, c) < s.len(),
        last_of(s, c) >= 0 ==> s[last_of(s, c)] == c,
        forall|j: int| last_of(s, c) < j < s.len() ==> s[j] != c,
        (last_of(s, c) >= 0) == (first_of(s, c) < s.len()),
        last_of(s, c) >= 0 ==> first_of(s, c) <= last_of(s, c),
    decreases s.len(),
{
    lemma_first_of(s, c);
    if s.len() > 0 && s.last() != c {
        lemma_last_of(s.drop_last(), c);
        lemma_first_of(s.drop_last(), c);
        if first_of(s, c) < s.len() {
            lemma_first_in_prefix(s, c);
        } else {
            assert forall|j: int| 0 <= j < s.len() - 1 implies s.drop_last()[j] != c by {
                assert(s.drop_last()[j] == s[j]);
            }
            lemma_first_of_absent(s.drop_last(), c);
        }
        assert forall|j: int| last_of(s, c) < j < s.len() implies s[j] != c by {
            if j < s.len() - 1 {
                assert(s.drop_last()[j] == s[j]);
            }
        }
    }
}

proof fn lemma_first_of_absent(s: Seq<u8>, c: u8)
    requires
        forall|j: int| 0 <= j < s.len() ==> s[j] != c,
    ensures
        first_of(s, c) == s.len(),
    decreases s.len(),
{
    if s.len() > 0 {
        assert forall|j: int| 0 <= j < s.len() - 1 implies s.drop_first()[j] != c by {
            assert(s.drop_first()[j] == s[j + 1]);
        }
        lemma_first_of_absent(s.drop_first(), c);
    }
}

/// Where the last byte is not `c` and `c` occurs, the first `c` of `s` is
/// the first `c` of `s` without its last byte.
proof fn lemma_first_in_prefix(s: Seq<u8>, c: u8)
    requires
        s.len() > 0,
        s.last() != c,
        first_of(s, c) < s.len(),
    ensures
        first_of(s.drop_last(), c) == first_of(s, c),
    decreases s.len(),
{
    lemma_first_of(s, c);
    if s[0] != c {
        assert(s.drop_first().drop_last() =~= s.drop_last().drop_first());
        lemma_first_in_prefix(s.drop_first(), c);
    }
}

/// The extraction field of a character mask: offset and width of the `t`
/// run (first to last `t`, at least 1), or offset 0 and width 4 when the
/// mask has no `t`.
pub open spec fn t_field(char_mask: Seq<u8>) -> (int, int) {
    let f = first_of(char_mask, 0x74u8);
    let l = last_of(char_mask, 0x74u8);
    if f < char_mask.len() {
        (f, if l - f + 1 >= 1 {
            l - f + 1
        } else {
            1
        })
    } else {
        (0, 4)
    }
}

/// The value read at `pos` for a field of `type_len` bytes: one byte, a
/// little-endian `u16`, or (any other width) a little-endian `u32`;
/// `0xFFFF_FFFF` when it runs past the end of the buffer.
pub open spec fn extracted_at(buffer: Seq<u8>, pos: int, type_len: int) -> u32 {
    if type_len == 1 {
        if 0 <= pos < buffer.len() {
            buffer[pos] as u32
        } else {
            0xFFFF_FFFF
        }
    } else if type_len == 2 {
        match le16_at(buffer, pos) {
            Some(v) => v as u32,
            None => 0xFFFF_FFFF,
        }
    } else {
        match le32_at(buffer, pos) {
            Some(v) => v,
            None => 0xFFFF_FFFF,
        }
    }
}

/// Read the value field of a match at `base`.
fn read_extracted(buffer: &[u8], base: usize, t_offset: usize, type_len: usize) -> (r: u32)
    requires
        base + t_offset <= usize::MAX,
    ensures
        r == extracted_at(buffer@, base + t_offset, type_len as int),
{
    let pos = base + t_offset;
    if type_len == 1 {
        if pos < buffer.len() {
            buffer[pos] as u32
        } else {
            0xFFFF_FFFF
        }
    } else if type_len == 2 {
        match read_u16_le(buffer, pos) {
            Some(v) => v as u32,
            None => 0xFFFF_FFFF,
        }
    } else {
        match read_u32_le(buffer, pos) {
            Some(v) => v,
            None => 0xFFFF_FFFF,
        }
    }
}

/// The address a RIP-relative match at `i` resolves to: the virtual
/// address just after the 4-byte displacement plus the signed
/// displacement; 0 without section table, for a field that is not 4 bytes
/// wide, for an offset outside the sections, or for a negative result.
/// The sums wrap as the machine's do.
pub open spec fn rip_target(
    i: int,
    t_off: int,
    type_len: int,
    extracted: u32,
    file_start: u64,
    pe: Option<PeImageInfo>,
) -> u64 {
    match pe {
        None => 0,
        Some(p) => if type_len != 4 {
            0
        } else {
            let next_off = file_start.wrapping_add(i as u64).wrapping_add(t_off as u64).wrapping_add(
                4,
            );
            let next_va = offset_va(p.sections@, p.image_base, next_off);
            if next_va == 0 {
                0
            } else {
                let resolved = (next_va as i64).wrapping_add((extracted as i32) as i64);
                if resolved < 0 {
                    0
                } else {
                    resolved as u64
                }
            }
        },
    }
}

/// The scan's answer from position `i` on: the first position whose
/// bytes match the pattern decides.  A RIP-relative pattern answers with
/// that match's resolved target; otherwise a match answers with its
/// extracted value when that is below `POINTER_LIMIT`, and the search goes
/// on past it when not.  0 when no position answers.
pub open spec fn scan_from(
    buffer: Seq<u8>,
    byte_mask: Seq<u8>,
    char_mask: Seq<u8>,
    file_start: u64,
    pe: Option<PeImageInfo>,
    i: int,
) -> u64
    decreases buffer.len() - char_mask.len() + 1 - i,
{
    if i < 0 || i >= buffer.len() - char_mask.len() + 1 {
        0
    } else {
        let (t_off, type_len) = t_field(char_mask);
        let ext = extracted_at(buffer, i + t_off, type_len);
        if mask_matches(buffer.skip(i), byte_mask, char_mask) {
            if char_mask.contains(0x72u8) {
                rip_target(i, t_off, type_len, ext, file_start, pe)
            } else if ext < POINTER_LIMIT {
                ext as u64
            } else {
                scan_from(buffer, byte_mask, char_mask, file_start, pe, i + 1)
            }
        } else {
            scan_from(buffer, byte_mask, char_mask, file_start, pe, i + 1)
        }
    }
}

/// The value a pattern scan of `buffer` finds (see `scan_from`); 0 for an
/// empty character mask or a byte mask shorter than it.
pub open spec fn scan_result(
    buffer: Seq<u8>,
    byte_mask: Seq<u8>,
    char_mask: Seq<u8>,
    file_start: u64,
    pe: Option<PeImageInfo>,
) -> u64 {
    if char_mask.len() == 0 || byte_mask.len() < char_mask.len() {
        0
    } else {
        scan_from(buffer, byte_mask, char_mask, file_start, pe, 0)
    }
}

/// Index of the first `c` in `s`, or `s.len()`.
fn position_of(s: &[u8], c: u8) -> (r: usize)
    ensures
        r == first_of(s@, c),
{
    let mut i: usize = 0;
    while i < s.len()
        invariant
            i <= s@.len(),
            forall|j: int| 0 <= j < i ==> s@[j] != c,
        decreases s@.len() - i,
    {
        if s[i] == c {
            proof {
                lemma_first_of(s@, c);
                if first_of(s@, c) < i {
                    assert(s@[first_of(s@, c)] == c);
                }
            }
            return i;
        }
        i = i + 1;
    }
    proof {
        lemma_first_of_absent(s@, c);
    }
    i
}

/// Index of the last `c` in `s`, or `None`.
fn last_position_of(s: &[u8], c: u8) -> (r: Option<usize>)
    ensures
        match r {
            Some(k) => k == last_of(s@, c),
            None => last_of(s@, c) == -1,
        },
{
    let mut i: usize = s.len();
    assert(s@.take(i as int) =~= s@);
    while i > 0
        invariant
            i <= s@.len(),
            last_of(s@, c) == last_of(s@.take(i as int), c),
        decreases i,
    {
        assert(s@.take(i as int).drop_last() =~= s@.take(i - 1));
        if s[i - 1] == c {
            return Some(i - 1);
        }
        i = i - 1;
    }
    assert(s@.take(0) =~= Seq::<u8>::empty());
    None
}

/// Search `buffer` (which starts at file offset `file_start`) for the
/// pattern and return the value it finds, 0 when nothing is found (see
/// `scan_result`).  `pe_info` is needed for RIP-relative patterns.
pub fn scan_buffer_for_pointer(
    buffer: &[u8],
    byte_mask: &[u8],
    char_mask: &[u8],
    file_start: u64,
    pe_info: Option<&PeImageInfo>,
) -> (r: u64)
    ensures
        r == scan_result(
            buffer@,
            byte_mask@,
            char_mask@,
            file_start,
            match pe_info {
                Some(p) => Some(*p),
                None => None,
            },
        ),
{
    let ghost pe = match pe_info {
        Some(p) => Some(*p),
        None => None,
    };
    if char_mask.len() == 0 || byte_mask.len() < char_mask.len() {
        return 0;
    }
    let mask_len = char_mask.len();
    let rip_relative = position_of(char_mask, 0x72u8) < mask_len;
    proof {
        lemma_first_of(char_mask@, 0x72u8);
        if char_mask@.contains(0x72u8) {
            let k = choose|k: int| 0 <= k < char_mask@.len() && char_mask@[k] == 0x72u8;
            assert(first_of(char_mask@, 0x72u8) <= k);
        }
    }
    let t_first = position_of(char_mask, 0x74u8);
    let t_last = last_position_of(char_mask, 0x74u8);
    proof {
        lemma_first_of(char_mask@, 0x74u8);
        lemma_last_of(char_mask@, 0x74u8);
    }
    let (t_offset, type_len): (usize, usize) = if t_first < mask_len {
        match t_last {
            Some(l) => (t_first, l - t_first + 1),
            None => (t_first, 1),
        }
    } else {
        (0, 4)
    };
    assert(t_field(char_mask@) == (t_offset as int, type_len as int));
    let limit: usize = if buffer.len() >= mask_len - 1 {
        buffer.len() - (mask_len - 1)
    } else {
        0
    };
    let mut i: usize = 0;
    while i < limit
        invariant
            0 < mask_len == char_mask@.len() <= byte_mask@.len(),
            limit == (if buffer@.len() >= mask_len - 1 {
                buffer@.len() - (mask_len - 1)
            } else {
                0
            }),
            i <= limit,
            limit > 0 ==> limit + mask_len - 1 == buffer@.len(),
            t_offset < mask_len,
            t_field(char_mask@) == (t_offset as int, type_len as int),
            rip_relative == char_mask@.contains(0x72u8),
            pe == (match pe_info {
                Some(p) => Some(*p),
                None => None,
            }),
            scan_result(buffer@, byte_mask@, char_mask@, file_start, pe) == scan_from(
                buffer@,
                byte_mask@,
                char_mask@,
                file_start,
                pe,
                i as int,
            ),
        decreases limit - i,
    {
        let window = slice_from(buffer, i);
        if compare_data(window, byte_mask, char_mask) {
            let blen = buffer.len();
            assert(i + t_offset < blen);
            let extracted = read_extracted(buffer, i, t_offset, type_len);
            if rip_relative {
                match pe_info {
                    None => {
                        return 0;
                    },
                    Some(p) => {
                        if type_len != 4 {
                            return 0;
                        }
                        let next_file_offset = file_start.wrapping_add(i as u64).wrapping_add(
                            t_offset as u64,
                        ).wrapping_add(4);
                        let next_va = file_offset_to_va(next_file_offset, p);
                        if next_va == 0 {
                            return 0;
                        }
                        let va_signed: i64 = #[verifier::truncate] (next_va as i64);
                        let disp: i32 = #[verifier::truncate] (extracted as i32);
                        let resolved = va_signed.wrapping_add(disp as i64);
                        if resolved < 0 {
                            return 0;
                        }
                        return resolved as u64;
                    },
                }
            }
            if extracted < POINTER_LIMIT {
                return extracted as u64;
            }
        }
        i = i + 1;
    }
    0
}

/// `b[from..]`.
fn slice_from(b: &[u8], from: usize) -> (r: &[u8])
    requires
        from <= b@.len(),
    ensures
        r@ == b@.skip(from as int),
{
    vstd::slice::slice_subrange(b, from, b.len())
}

} // verus!

verus! {

// ---------------------------------------------------------------------------
// PE headers
// ---------------------------------------------------------------------------

/// Section `j` of a table at `st`: its 8-byte name (plus a NUL), virtual
/// address, raw size and raw offset, from the 40-byte header at
/// `st + 40 * j`.
pub open spec fn section_at(b: Seq<u8>, st: int, j: int, s: PeSectionInfo) -> bool {
    let sh = st + 40 * j;
    &&& s.name@ == b.subrange(sh, sh + 8).push(0u8)
    &&& Some(s.virtual_address) == le32_at(b, sh + 12)
    &&& Some(s.size_of_raw_data) == le32_at(b, sh + 16)
    &&& Some(s.pointer_to_raw_data) == le32_at(b, sh + 20)
}

/// Number of whole 40-byte section headers, of the `num` announced, that
/// fit in `b` from offset `st` on.
pub open spec fn sections_that_fit(len: int, st: int, num: int) -> int {
    if st + 40 > len {
        0
    } else if (len - st) / 40 < num {
        (len - st) / 40
    } else {
        num
    }
}

/// `r` is what the headers at the start of `b` give: `None` unless `b`
/// starts with `MZ`, the offset at 60 leads to `PE\0\0` and a PE32+
/// optional header, and every field read lies inside `b`; otherwise the
/// image base, time stamp and the section headers that fit in `b`.
pub open spec fn pe_parsed(b: Seq<u8>, r: Option<PeImageInfo>) -> bool {
    let ok = {
        &&& le16_at(b, 0) == Some(DOS_SIGNATURE)
        &&& le32_at(b, 60) is Some
        &&& {
            let e = (le32_at(b, 60)->0 as i32) as int;
            let fh = e + 4;
            let oh = fh + 20;
            &&& e >= 0
            &&& le32_at(b, e) == Some(PE_SIGNATURE)
            &&& le16_at(b, fh + 2) is Some
            &&& le32_at(b, fh + 4) is Some
            &&& le16_at(b, fh + 16) is Some
            &&& le16_at(b, oh) == Some(OPT_HDR64_MAGIC)
            &&& le64_at(b, oh + 24) is Some
        }
    };
    if !ok {
        r is None
    } else {
        let e = (le32_at(b, 60)->0 as i32) as int;
        let fh = e + 4;
        let oh = fh + 20;
        let st = oh + le16_at(b, fh + 16)->0;
        let k = sections_that_fit(b.len() as int, st, le16_at(b, fh + 2)->0 as int);
        &&& r is Some
        &&& r->0.image_base == le64_at(b, oh + 24)->0
        &&& r->0.time_date_stamp == le32_at(b, fh + 4)->0
        &&& r->0.sections@.len() == k
        &&& forall|j: int| 0 <= j < k ==> section_at(b, st, j, #[trigger] r->0.sections@[j])
    }
}

/// Parse the PE signature, file header, optional header and section table
/// from the first bytes of an executable.
pub fn parse_pe_headers(b: &[u8]) -> (r: Option<PeImageInfo>)
    ensures
        pe_parsed(b@, r),
{
    match read_u16_le(b, 0) {
        Some(v) => {
            if v != DOS_SIGNATURE {
                return None;
            }
        },
        None => {
            return None;
        },
    }
    let e_raw = match read_i32_le(b, 60) {
        Some(v) => v,
        None => {
            return None;
        },
    };
    if e_raw < 0 {
        return None;
    }
    let e_lfanew = e_raw as usize;
    match read_u32_le(b, e_lfanew) {
        Some(v) => {
            if v != PE_SIGNATURE {
                return None;
            }
        },
        None => {
            return None;
        },
    }
    let fh = e_lfanew + 4;
    let num_sections = match read_u16_le(b, fh + 2) {
        Some(v) => v as usize,
        None => {
            return None;
        },
    };
    let time_date_stamp = match read_u32_le(b, fh + 4) {
        Some(v) => v,
        None => {
            return None;
        },
    };
    let opt_header_size = match read_u16_le(b, fh + 16) {
        Some(v) => v as usize,
        None => {
            return None;
        },
    };
    let oh = fh + 20;
    match read_u16_le(b, oh) {
        Some(v) => {
            if v != OPT_HDR64_MAGIC {
                return None;
            }
        },
        None => {
            return None;
        },
    }
    let image_base = match read_u64_le(b, oh + 24) {
        Some(v) => v,
        None => {
            return None;
        },
    };
    let st = oh + opt_header_size;
    let ghost k = sections_that_fit(b@.len() as int, st as int, num_sections as int);
    let mut sections: Vec<PeSectionInfo> = Vec::new();
    let mut i: usize = 0;
    while i < num_sections
        invariant
            st <= 0x8002_0000,
            num_sections <= 0xFFFF,
            k == sections_that_fit(b@.len() as int, st as int, num_sections as int),
            i <= num_sections,
            i <= k,
            sections@.len() == i,
            forall|j: int| 0 <= j < i ==> section_at(b@, st as int, j, #[trigger] sections@[j]),
        ensures
            sections@.len() == k,
            forall|j: int| 0 <= j < k ==> section_at(b@, st as int, j, #[trigger] sections@[j]),
        decreases num_sections - i,
    {
        let sh = st + i * 40;
        if sh + 40 > b.len() {
            break;
        }
        let mut name = [0u8; 9];
        let mut c: usize = 0;
        let blen = b.len();
        while c < 8
            invariant
                c <= 8,
                blen == b@.len(),
                sh + 40 <= blen,
                forall|q: int| 0 <= q < c ==> name@[q] == b@[sh + q],
                name@[8] == 0,
                name@.len() == 9,
            decreases 8 - c,
        {
            name[c] = b[sh + c];
            c = c + 1;
        }
        let virtual_address = u32_at(b, sh + 12);
        let size_of_raw_data = u32_at(b, sh + 16);
        let pointer_to_raw_data = u32_at(b, sh + 20);
        let s = PeSectionInfo { name, virtual_address, pointer_to_raw_data, size_of_raw_data };
        assert(s.name@ =~= b@.subrange(sh as int, sh + 8).push(0u8));
        sections.push(s);
        i = i + 1;
    }
    Some(PeImageInfo { image_base, time_date_stamp, sections })
}

} // verus!

verus! {

// ---------------------------------------------------------------------------
// Structure-offset patterns
// ---------------------------------------------------------------------------

/// The eight little-endian bytes of `x` (`u64::to_le_bytes`).
pub open spec fn le64(x: u64) -> Seq<u8> {
    le32((x % 0x1_0000_0000) as u32) + le32((x / 0x1_0000_0000) as u32)
}

/// Length of the run of `c` at the start of `s`.
pub open spec fn run_of(s: Seq<u8>, c: u8) -> int
    decreases s.len(),
{
    if s.len() > 0 && s[0] == c {
        1 + run_of(s.drop_first(), c)
    } else {
        0
    }
}

/// The byte mask with its `o` run replaced by the little-endian base
/// address: 4 bytes of its low 32 bits for a run of 4, all 8 bytes for a
/// run of 8.  Unchanged when the mask has no `o`; `None` for a run of any
/// other length or one that does not fit the byte mask.
pub open spec fn patched_mask(byte_mask: Seq<u8>, char_mask: Seq<u8>, base_addr: u64) -> Option<
    Seq<u8>,
> {
    let p = first_of(char_mask, 0x6Fu8);
    if p >= char_mask.len() {
        Some(byte_mask)
    } else {
        let n = run_of(char_mask.skip(p), 0x6Fu8);
        if n == 4 && p + 4 <= byte_mask.len() {
            Some(byte_mask.take(p) + le32(base_addr as u32) + byte_mask.skip(p + 4))
        } else if n == 8 && p + 8 <= byte_mask.len() {
            Some(byte_mask.take(p) + le64(base_addr) + byte_mask.skip(p + 8))
        } else {
            None
        }
    }
}

/// Length of the run of `c` at `s[from..]`.
fn run_length(s: &[u8], from: usize, c: u8) -> (n: usize)
    requires
        from <= s@.len(),
    ensures
        n == run_of(s@.skip(from as int), c),
        from + n <= s@.len(),
{
    let mut i = s.len();
    let mut j = from;
    while j < s.len() && s[j] == c
        invariant
            from <= j <= s@.len(),
            forall|q: int| from <= q < j ==> s@[q] == c,
        decreases s@.len() - j,
    {
        j = j + 1;
    }
    i = j;
    proof {
        lemma_run_is(s@.skip(from as int), c, (i - from) as int);
    }
    i - from
}

proof fn lemma_run_is(s: Seq<u8>, c: u8, k: int)
    requires
        0 <= k <= s.len(),
        forall|q: int| 0 <= q < k ==> s[q] == c,
        k < s.len() ==> s[k] != c,
    ensures
        run_of(s, c) == k,
    decreases s.len(),
{
    if k > 0 {
        assert forall|q: int| 0 <= q < k - 1 implies s.drop_first()[q] == c by {
            assert(s.drop_first()[q] == s[q + 1]);
        }
        lemma_run_is(s.drop_first(), c, k - 1);
    }
}

/// The byte mask of a structure-offset pattern, with the known base
/// address written over its `o` run (see `patched_mask`).
pub fn patch_structure_mask(byte_mask: &[u8], char_mask: &[u8], base_addr: u64) -> (r: Option<
    Vec<u8>,
>)
    ensures
        match r {
            Some(v) => patched_mask(byte_mask@, char_mask@, base_addr) == Some(v@),
            None => patched_mask(byte_mask@, char_mask@, base_addr) is None,
        },
{
    let o_pos = position_of(char_mask, 0x6Fu8);
    if o_pos >= char_mask.len() {
        let mut v: Vec<u8> = Vec::new();
        push_bytes(&mut v, byte_mask);
        assert(v@ =~= byte_mask@);
        return Some(v);
    }
    let o_len = run_length(char_mask, o_pos, 0x6Fu8);
    if o_len == 4 && o_pos + 4 <= byte_mask.len() {
        let mut v: Vec<u8> = Vec::new();
        push_bytes(&mut v, slice_range(byte_mask, 0, o_pos));
        push_u32_le(&mut v, #[verifier::truncate] (base_addr as u32));
        push_bytes(&mut v, slice_from(byte_mask, o_pos + 4));
        Some(v)
    } else if o_len == 8 && o_pos + 8 <= byte_mask.len() {
        let mut v: Vec<u8> = Vec::new();
        push_bytes(&mut v, slice_range(byte_mask, 0, o_pos));
        push_u32_le(&mut v, (base_addr % 0x1_0000_0000) as u32);
        push_u32_le(&mut v, (base_addr / 0x1_0000_0000) as u32);
        push_bytes(&mut v, slice_from(byte_mask, o_pos + 8));
        proof {
            assert(v@ =~= byte_mask@.take(o_pos as int) + le64(base_addr) + byte_mask@.skip(
                o_pos + 8,
            ));
        }
        Some(v)
    } else {
        None
    }
}

/// `b[from..to]`.
fn slice_range(b: &[u8], from: usize, to: usize) -> (r: &[u8])
    requires
        from <= to <= b@.len(),
    ensures
        r@ == b@.subrange(from as int, to as int),
{
    vstd::slice::slice_subrange(b, from, to)
}

// ---------------------------------------------------------------------------
// Client identification
// ---------------------------------------------------------------------------

/// The SHA-1 digest of `data` in lowercase hex.
pub uninterp spec fn sha1_hex(data: Seq<u8>) -> Seq<char>;

pub open spec fn is_lower_hex(c: char) -> bool {
    ('0' <= c && c <= '9') || ('a' <= c && c <= 'f')
}

/// `sha1_smol::Sha1::from(data).digest().to_string()`: the digest's five
/// 32-bit words each written `{:08x}`, so 40 lowercase hex digits.
#[verifier::external_body]
fn sha1_hex_of(data: &[u8]) -> (s: String)
    ensures
        s@ == sha1_hex(data@),
        s@.len() == 40,
        forall|i: int| 0 <= i < 40 ==> is_lower_hex(#[trigger] s@[i]),
{
    sha1_smol::Sha1::from(data).digest().to_string()
}

/// The client hash recorded for an executable: the SHA-1 of its whole
/// contents, in lowercase hex.
pub fn compute_client_hash(contents: &[u8]) -> (s: String)
    ensures
        s@ == sha1_hex(contents@),
        s@.len() == 40,
        forall|i: int| 0 <= i < 40 ==> is_lower_hex(#[trigger] s@[i]),
{
    sha1_hex_of(contents)
}

} // verus!

verus! {

// ---------------------------------------------------------------------------
// Calendar arithmetic (proleptic Gregorian, days counted from 1970-01-01)
// ---------------------------------------------------------------------------

/// Year, month (1-based) and day of the `days`-th day after 1970-01-01,
/// by Hinnant's `civil_from_days` (400-year eras starting in March).
pub open spec fn civil_of(days: int) -> (int, int, int) {
    let z = days + 719_468;
    let era = z / 146_097;
    let doe = z - era * 146_097;
    let yoe = (doe - doe / 1460 + doe / 36524 - doe / 146_096) / 365;
    let y = yoe + era * 400;
    let doy = doe - (365 * yoe + yoe / 4 - yoe / 100);
    let mp = (5 * doy + 2) / 153;
    let d = doy - (153 * mp + 2) / 5 + 1;
    let m = if mp < 10 {
        mp + 3
    } else {
        mp - 9
    };
    (if m <= 2 {
        y + 1
    } else {
        y
    }, m, d)
}

/// Days from 1970-01-01 to year `y`, month `m` (1-based), day `d`, by
/// Hinnant's `days_from_civil`.
pub open spec fn days_of(y: int, m: int, d: int) -> int {
    let y1 = if m <= 2 {
        y - 1
    } else {
        y
    };
    let era = y1 / 400;
    let yoe = y1 - era * 400;
    let m_adj = if m > 2 {
        m - 3
    } else {
        m + 9
    };
    let doy = (153 * m_adj + 2) / 5 + d - 1;
    let doe = yoe * 365 + yoe / 4 - yoe / 100 + doy;
    era * 146_097 + doe - 719_468
}

/// The largest day count `civil_from_days` is asked about (that of
/// `u64::MAX` seconds).
pub const MAX_DAYS: i64 = 213_503_982_334_601;

proof fn lemma_civil_ranges(days: int)
    requires
        0 <= days <= MAX_DAYS,
    ensures
        1 <= civil_of(days).1 <= 12,
        1 <= civil_of(days).2 <= 31,
        1970 <= civil_of(days).0 <= 600_000_000_000,
{
    let z = days + 719_468;
    let era = z / 146_097;
    let doe = z - era * 146_097;
    assert(0 <= doe < 146_097);
    let yoe = (doe - doe / 1460 + doe / 36524 - doe / 146_096) / 365;
    assert(0 <= yoe <= 399);
    let doy = doe - (365 * yoe + yoe / 4 - yoe / 100);
    assert(0 <= doy <= 365) by (nonlinear_arith)
        requires
            0 <= doe < 146_097,
            yoe == (doe - doe / 1460 + doe / 36524 - doe / 146_096) / 365,
            doy == doe - (365 * yoe + yoe / 4 - yoe / 100),
    ;
    let mp = (5 * doy + 2) / 153;
    assert(0 <= mp <= 11);
    let d = doy - (153 * mp + 2) / 5 + 1;
    assert(1 <= d <= 31);
    assert(era >= 4);
    if era == 4 {
        assert(doe >= 135_080);
        if yoe < 370 {
            assert(yoe == 369);
            assert(doy >= 306);
            assert(mp >= 10);
        }
    }
}

/// Converting a day count to a date and back gives the day count.
pub proof fn law_civil_round_trip(days: int)
    requires
        0 <= days <= MAX_DAYS,
    ensures
        days_of(civil_of(days).0, civil_of(days).1, civil_of(days).2) == days,
{
    lemma_civil_ranges(days);
    let z = days + 719_468;
    let era = z / 146_097;
    let doe = z - era * 146_097;
    let yoe = (doe - doe / 1460 + doe / 36524 - doe / 146_096) / 365;
    assert(0 <= yoe <= 399);
    let y1 = yoe + era * 400;
    assert(y1 / 400 == era && y1 - (y1 / 400) * 400 == yoe) by (nonlinear_arith)
        requires
            y1 == yoe + era * 400,
            0 <= yoe <= 399,
    ;
}

/// Year, month and day of the `days`-th day after 1970-01-01.
fn civil_from_days(days: i64) -> (r: (i64, u64, u64))
    requires
        0 <= days <= MAX_DAYS,
    ensures
        r.0 == civil_of(days as int).0,
        r.1 == civil_of(days as int).1,
        r.2 == civil_of(days as int).2,
        1 <= r.1 <= 12,
        1 <= r.2 <= 31,
        1970 <= r.0 <= 600_000_000_000,
{
    proof {
        lemma_civil_ranges(days as int);
    }
    let z = days + 719_468;
    let era = z / 146_097;
    let doe = (z - era * 146_097) as u64;
    let yoe = (doe - doe / 1460 + doe / 36524 - doe / 146_096) / 365;
    let y = yoe as i64 + era * 400;
    let doy = doe - (365 * yoe + yoe / 4 - yoe / 100);
    let mp = (5 * doy + 2) / 153;
    let d = doy - (153 * mp + 2) / 5 + 1;
    let m = if mp < 10 {
        mp + 3
    } else {
        mp - 9
    };
    let y = if m <= 2 {
        y + 1
    } else {
        y
    };
    (y, m, d)
}

/// Days from 1970-01-01 to the given date.
fn civil_to_days(y: i64, m: u64, d: u64) -> (r: i64)
    requires
        1970 <= y <= 600_000_000_000,
        1 <= m <= 12,
        1 <= d <= 31,
    ensures
        r == days_of(y as int, m as int, d as int),
        0 <= r <= 300_000_000_000_000,
{
    let y = if m <= 2 {
        y - 1
    } else {
        y
    };
    let era = y / 400;
    let yoe = (y - era * 400) as u64;
    let m_adj = if m > 2 {
        m - 3
    } else {
        m + 9
    };
    let doy = (153 * m_adj + 2) / 5 + d - 1;
    let doe = yoe * 365 + yoe / 4 - yoe / 100 + doy;
    era * 146_097 + doe as i64 - 719_468
}

} // verus!

verus! {

/// Day of week of a day count: 0 = Sunday, ..., 6 = Saturday.
pub open spec fn weekday_of(days: int) -> int {
    (days + 4) % 7
}

/// Day of month of the `n`-th occurrence of `weekday` in the month.
pub open spec fn nth_weekday(y: int, m: int, weekday: int, n: int) -> int {
    1 + (weekday + 7 - weekday_of(days_of(y, m, 1))) % 7 + (n - 1) * 7
}

/// US daylight time in the Pacific zone, as UTC seconds: from 10:00 UTC
/// on the second Sunday of March to 09:00 UTC on the first Sunday of
/// November of the year that `utc_secs` falls in.
pub open spec fn dst_window(utc_secs: u64) -> (int, int) {
    let y = civil_of((utc_secs / 86400) as int).0;
    (
        days_of(y, 3, nth_weekday(y, 3, 0, 2)) * 86400 + 10 * 3600,
        days_of(y, 11, nth_weekday(y, 11, 0, 1)) * 86400 + 9 * 3600,
    )
}

/// Pacific offset from UTC in hours: -7 in daylight time, else -8.
pub open spec fn pacific_offset(utc_secs: u64) -> int {
    if dst_window(utc_secs).0 <= utc_secs < dst_window(utc_secs).1 {
        -7
    } else {
        -8
    }
}

fn weekday_from_days(days: i64) -> (r: u64)
    requires
        0 <= days <= 300_000_000_000_000,
    ensures
        r == weekday_of(days as int),
        r < 7,
{
    ((days + 4) % 7) as u64
}

fn nth_weekday_of_month(year: i64, month: u64, weekday: u64, n: u64) -> (r: u64)
    requires
        1970 <= year <= 600_000_000_000,
        1 <= month <= 12,
        weekday < 7,
        1 <= n <= 2,
    ensures
        r == nth_weekday(year as int, month as int, weekday as int, n as int),
        1 <= r <= 14,
{
    let first_dow = weekday_from_days(civil_to_days(year, month, 1));
    let offset = (weekday + 7 - first_dow) % 7;
    1 + offset + (n - 1) * 7
}

/// Pacific offset from UTC in hours for a UTC time.
fn pacific_utc_offset_hours(utc_secs: u64) -> (r: i64)
    requires
        dst_window(utc_secs).1 <= u64::MAX,
    ensures
        r == pacific_offset(utc_secs),
{
    proof {
        lemma_civil_ranges((utc_secs / 86400) as int);
    }
    let (year, _m, _d) = civil_from_days((utc_secs / 86400) as i64);
    let mar_sun2 = nth_weekday_of_month(year, 3, 0, 2);
    let nov_sun1 = nth_weekday_of_month(year, 11, 0, 1);
    let dst_start = civil_to_days(year, 3, mar_sun2) as u64 * 86400 + 10 * 3600;
    let dst_end = civil_to_days(year, 11, nov_sun1) as u64 * 86400 + 9 * 3600;
    if utc_secs >= dst_start && utc_secs < dst_end {
        -7
    } else {
        -8
    }
}

/// Three-letter English month name.
pub open spec fn month_abbrev(m: int) -> Seq<char> {
    if m == 1 {
        seq!['J', 'a', 'n']
    } else if m == 2 {
        seq!['F', 'e', 'b']
    } else if m == 3 {
        seq!['M', 'a', 'r']
    } else if m == 4 {
        seq!['A', 'p', 'r']
    } else if m == 5 {
        seq!['M', 'a', 'y']
    } else if m == 6 {
        seq!['J', 'u', 'n']
    } else if m == 7 {
        seq!['J', 'u', 'l']
    } else if m == 8 {
        seq!['A', 'u', 'g']
    } else if m == 9 {
        seq!['S', 'e', 'p']
    } else if m == 10 {
        seq!['O', 'c', 't']
    } else if m == 11 {
        seq!['N', 'o', 'v']
    } else {
        seq!['D', 'e', 'c']
    }
}

fn month_chars(m: u64) -> (r: Vec<char>)
    ensures
        r@ == month_abbrev(m as int),
{
    let (a, b, c) = if m == 1 {
        ('J', 'a', 'n')
    } else if m == 2 {
        ('F', 'e', 'b')
    } else if m == 3 {
        ('M', 'a', 'r')
    } else if m == 4 {
        ('A', 'p', 'r')
    } else if m == 5 {
        ('M', 'a', 'y')
    } else if m == 6 {
        ('J', 'u', 'n')
    } else if m == 7 {
        ('J', 'u', 'l')
    } else if m == 8 {
        ('A', 'u', 'g')
    } else if m == 9 {
        ('S', 'e', 'p')
    } else if m == 10 {
        ('O', 'c', 't')
    } else if m == 11 {
        ('N', 'o', 'v')
    } else {
        ('D', 'e', 'c')
    };
    let mut v: Vec<char> = Vec::new();
    v.push(a);
    v.push(b);
    v.push(c);
    assert(v@ =~= month_abbrev(m as int));
    v
}

/// `HH:MM:SS` of a time of day given in seconds.
pub open spec fn clock_text(tod: int) -> Seq<char> {
    pad_left(dec_seq((tod / 3600) as nat), 2, '0') + seq![':'] + pad_left(
        dec_seq(((tod % 3600) / 60) as nat),
        2,
        '0',
    ) + seq![':'] + pad_left(dec_seq((tod % 60) as nat), 2, '0')
}

/// The Pacific local time of a UTC time, in seconds (the machine sum of
/// the time and the offset).
pub open spec fn pacific_local(utc_secs: u64) -> u64 {
    ((utc_secs as i64) as int + pacific_offset(utc_secs) * 3600) as u64
}

/// `("HH:MM:SS", "Mon DD YYYY")` of a UTC time in Pacific time, in the
/// style of C's `__TIME__` and `__DATE__` (day space-padded).
pub open spec fn compile_time_date(utc_secs: u64) -> (Seq<char>, Seq<char>) {
    let local = pacific_local(utc_secs);
    let (y, m, d) = civil_of((local / 86400) as int);
    (
        clock_text((local % 86400) as int),
        month_abbrev(m) + seq![' '] + pad_left(dec_seq(d as nat), 2, ' ') + seq![' '] + dec_seq(
            y as nat,
        ),
    )
}

/// Convert a UTC Unix time to `("HH:MM:SS", "Mon DD YYYY")` in Pacific
/// time.
pub fn unix_to_compile_time_date(utc_secs: u64) -> (r: (String, String))
    requires
        dst_window(utc_secs).1 <= u64::MAX,
        i64::MIN <= (utc_secs as i64) as int + pacific_offset(utc_secs) * 3600,
    ensures
        r.0@ == compile_time_date(utc_secs).0,
        r.1@ == compile_time_date(utc_secs).1,
{
    let offset = pacific_utc_offset_hours(utc_secs);
    let signed: i64 = #[verifier::truncate] (utc_secs as i64);
    let local_signed = signed + offset * 3600;
    let local_secs: u64 = #[verifier::truncate] (local_signed as u64);
    let tod = local_secs % 86400;
    let mut t = dec_chars_padded(tod / 3600, 2);
    t.push(':');
    let mm = dec_chars_padded((tod % 3600) / 60, 2);
    push_all(&mut t, &mm);
    t.push(':');
    let ss = dec_chars_padded(tod % 60, 2);
    push_all(&mut t, &ss);
    assert(t@ =~= compile_time_date(utc_secs).0);
    proof {
        lemma_civil_ranges((local_secs / 86400) as int);
    }
    let (y, m, d) = civil_from_days((local_secs / 86400) as i64);
    let mut ds = month_chars(m);
    ds.push(' ');
    let dd = dec_chars_spaced(d, 2);
    push_all(&mut ds, &dd);
    ds.push(' ');
    let yy = dec_chars(y as u64);
    push_all(&mut ds, &yy);
    assert(ds@ =~= compile_time_date(utc_secs).1);
    (string_of(t.as_slice()), string_of(ds.as_slice()))
}

/// `MM/DD/YYYY` of a date.
pub open spec fn date_text(y: int, m: int, d: int) -> Seq<char> {
    pad_left(dec_seq(m as nat), 2, '0') + seq!['/'] + pad_left(dec_seq(d as nat), 2, '0') + seq![
        '/',
    ] + dec_seq(y as nat)
}

/// The UTC calendar date of a Unix time, as `MM/DD/YYYY`.
pub fn unix_to_date(secs: u64) -> (s: String)
    ensures
        s@ == date_text(
            civil_of((secs / 86400) as int).0,
            civil_of((secs / 86400) as int).1,
            civil_of((secs / 86400) as int).2,
        ),
{
    proof {
        lemma_civil_ranges((secs / 86400) as int);
    }
    let (y, m, d) = civil_from_days((secs / 86400) as i64);
    let mut v = dec_chars_padded(m, 2);
    v.push('/');
    let dd = dec_chars_padded(d, 2);
    push_all(&mut v, &dd);
    v.push('/');
    let yy = dec_chars(y as u64);
    push_all(&mut v, &yy);
    assert(v@ =~= date_text(y as int, m as int, d as int));
    string_of(v.as_slice())
}

} // verus!

verus! {

// ---------------------------------------------------------------------------
// The build string
// ---------------------------------------------------------------------------

/// `Release Client #`, the start of the build string embedded in the
/// executable.
pub open spec fn build_prefix() -> Seq<u8> {
    seq![
        0x52u8, 0x65u8, 0x6Cu8, 0x65u8, 0x61u8, 0x73u8, 0x65u8, 0x20u8,
        0x43u8, 0x6Cu8, 0x69u8, 0x65u8, 0x6Eu8, 0x74u8, 0x20u8, 0x23u8,
    ]
}

pub open spec fn prefix_at(data: Seq<u8>, pos: int) -> bool {
    0 <= pos && pos + 16 <= data.len() && data.subrange(pos, pos + 16) == build_prefix()
}

/// The text that starts at `pos`: the bytes up to the next NUL (or the
/// end), decoded as UTF-8 with replacement.
pub open spec fn candidate_at(data: Seq<u8>, pos: int) -> Seq<char> {
    utf8_lossy(cstr(data.skip(pos)))
}

/// Length in bytes of the UTF-8 text of `c` (`str::len`).
pub open spec fn byte_len(c: Seq<char>) -> usize {
    encode_utf8(c).len() as usize
}

/// Keep the longer (in UTF-8 bytes) of the best so far and `c`; text
/// holding `%` (a format string) never wins; ties keep the earlier.
pub open spec fn pick_longer(best: Option<Seq<char>>, c: Seq<char>) -> Option<Seq<char>> {
    if !c.contains('%') && (best is None || byte_len(c) > byte_len(best->0)) {
        Some(c)
    } else {
        best
    }
}

/// `best` updated with every build-string occurrence in `data` at or after `from`.
pub open spec fn best_in(best: Option<Seq<char>>, data: Seq<u8>, from: int) -> Option<Seq<char>>
    decreases data.len() - from,
{
    if from < 0 || from + 16 > data.len() {
        best
    } else {
        best_in(
            if prefix_at(data, from) {
                pick_longer(best, candidate_at(data, from))
            } else {
                best
            },
            data,
            from + 1,
        )
    }
}

/// `best` updated with the occurrences in each section, in order.
pub open spec fn best_over(best: Option<Seq<char>>, sections: Seq<Seq<u8>>) -> Option<Seq<char>>
    decreases sections.len(),
{
    if sections.len() == 0 {
        best
    } else {
        best_over(best_in(best, sections[0], 0), sections.drop_first())
    }
}

pub open spec fn opt_view(o: Option<String>) -> Option<Seq<char>> {
    match o {
        Some(s) => Some(s@),
        None => None,
    }
}

pub open spec fn section_bytes(sections: Seq<Vec<u8>>) -> Seq<Seq<u8>> {
    sections.map_values(|v: Vec<u8>| v@)
}

fn prefix_matches(data: &[u8], pos: usize) -> (r: bool)
    requires
        pos + 16 <= data@.len(),
    ensures
        r == prefix_at(data@, pos as int),
{
    let p: [u8; 16] = [
        0x52u8, 0x65u8, 0x6Cu8, 0x65u8, 0x61u8, 0x73u8, 0x65u8, 0x20u8,
        0x43u8, 0x6Cu8, 0x69u8, 0x65u8, 0x6Eu8, 0x74u8, 0x20u8, 0x23u8,
    ];
    assert(p@ =~= build_prefix());
    let dlen = data.len();
    let mut k: usize = 0;
    while k < 16
        invariant
            k <= 16,
            dlen == data@.len(),
            pos + 16 <= dlen,
            p@ == build_prefix(),
            forall|q: int| 0 <= q < k ==> data@[pos + q] == p@[q],
        decreases 16 - k,
    {
        if data[pos + k] != p[k] {
            assert(data@.subrange(pos as int, pos + 16)[k as int] != build_prefix()[k as int]);
            return false;
        }
        k = k + 1;
    }
    assert(data@.subrange(pos as int, pos + 16) =~= build_prefix());
    true
}

/// The longest build string found in the sections' raw data, skipping
/// format strings (those holding `%`); `None` when there is none.
pub fn best_build_string(sections: &Vec<Vec<u8>>) -> (r: Option<String>)
    ensures
        match r {
            Some(s) => best_over(None, section_bytes(sections@)) == Some(s@),
            None => best_over(None, section_bytes(sections@)) is None,
        },
{
    let mut best: Option<String> = None;
    let mut si: usize = 0;
    assert(section_bytes(sections@).skip(0) =~= section_bytes(sections@));
    while si < sections.len()
        invariant
            si <= sections@.len(),
            best_over(None, section_bytes(sections@)) == best_over(
                opt_view(best),
                section_bytes(sections@).skip(si as int),
            ),
        decreases sections@.len() - si,
    {
        let data = sections[si].as_slice();
        let mut from: usize = 0;
        let ghost start = opt_view(best);
        while from <= data.len() && data.len() - from >= 16
            invariant
                data@ == sections@[si as int]@,
                best_in(start, data@, 0) == best_in(
                    opt_view(best),
                    data@,
                    from as int,
                ),
            decreases data@.len() - from,
        {
            let ghost cur = opt_view(best);
            if prefix_matches(data, from) {
                let bytes = slice_from(data, from);
                let text = cstr_bytes(bytes);
                let s = from_utf8_lossy(text.as_slice());
                let sc = chars_of(s.as_str());
                let has_pct = contains_char(&sc, '%');
                assert(s@ == candidate_at(data@, from as int));
                assert(has_pct == s@.contains('%'));
                let slen = s.as_str().len();
                assert(slen == byte_len(s@));
                let longer = match &best {
                    Some(b) => {
                        let blen = b.as_str().len();
                        assert(blen == byte_len(b@));
                        slen > blen
                    },
                    None => true,
                };
                if !has_pct && longer {
                    best = Some(s);
                }
                assert(opt_view(best) == pick_longer(cur, candidate_at(data@, from as int)));
            }
            from = from + 1;
        }
        proof {
            assert(section_bytes(sections@).skip(si as int).drop_first() =~= section_bytes(
                sections@,
            ).skip(si + 1));
        }
        si = si + 1;
    }
    best
}

/// `s` without trailing `c`s.
pub open spec fn trim_end_char(s: Seq<char>, c: char) -> Seq<char>
    decreases s.len(),
{
    if s.len() > 0 && s.last() == c {
        trim_end_char(s.drop_last(), c)
    } else {
        s
    }
}

/// The build string as recorded: the embedded text without trailing
/// whitespace and closing parentheses, then the time and date of the PE
/// time stamp in Pacific time, space-separated.
pub open spec fn build_string_text(raw: Seq<char>, stamp: u32) -> Seq<char> {
    trim_end_char(trim_end(raw), ')') + seq![' '] + compile_time_date(stamp as u64).0 + seq![' ']
        + compile_time_date(stamp as u64).1
}

proof fn lemma_small_stamp(stamp: u32)
    ensures
        dst_window(stamp as u64).1 <= u64::MAX,
        i64::MIN <= ((stamp as u64) as i64) as int + pacific_offset(stamp as u64) * 3600,
{
    let days = (stamp as u64 / 86400) as int;
    assert(days <= 49_710);
    lemma_civil_ranges(days);
    let z = days + 719_468;
    let era = z / 146_097;
    assert(era <= 5);
    let y = civil_of(days).0;
    assert(y <= 2107);
}

fn trim_end_chars_of(v: &Vec<char>, c: char) -> (r: Vec<char>)
    ensures
        r@ == trim_end_char(v@, c),
{
    let mut n = v.len();
    assert(v@.take(n as int) =~= v@);
    while n > 0 && v[n - 1] == c
        invariant
            n <= v@.len(),
            trim_end_char(v@, c) == trim_end_char(v@.take(n as int), c),
        decreases n,
    {
        assert(v@.take(n as int).drop_last() =~= v@.take(n - 1));
        n = n - 1;
    }
    assert(v@.take(n as int).len() == 0 || v@.take(n as int).last() != c);
    let mut r: Vec<char> = Vec::new();
    let mut i: usize = 0;
    while i < n
        invariant
            n <= v@.len(),
            i <= n,
            r@ == v@.take(i as int),
        decreases n - i,
    {
        r.push(v[i]);
        i = i + 1;
        assert(r@ =~= v@.take(i as int));
    }
    r
}

/// Format the recorded build string from the embedded text and the PE
/// time stamp.
pub fn format_build_string(raw: &String, time_date_stamp: u32) -> (s: String)
    ensures
        s@ == build_string_text(raw@, time_date_stamp),
{
    let v = chars_of(raw.as_str());
    let t = trim_end_chars(&v);
    let base = trim_end_chars_of(&t, ')');
    proof {
        lemma_small_stamp(time_date_stamp);
    }
    let (time_str, date_str) = unix_to_compile_time_date(time_date_stamp as u64);
    let mut out = base;
    out.push(' ');
    let tc = chars_of(time_str.as_str());
    push_all(&mut out, &tc);
    out.push(' ');
    let dc = chars_of(date_str.as_str());
    push_all(&mut out, &dc);
    assert(out@ =~= build_string_text(raw@, time_date_stamp));
    string_of(out.as_slice())
}

} // verus!

verus! {

// ---------------------------------------------------------------------------
// Scan reports
// ---------------------------------------------------------------------------

/// The scanner for one executable file.
pub struct EqGameScanner {
    pub exe_path: String,
}

impl EqGameScanner {
    pub fn new(exe_path: String) -> (s: Self)
        ensures
            s.exe_path == exe_path,
    {
        EqGameScanner { exe_path }
    }
}

/// What a full primary scan produced.
pub struct ScanResult {
    /// Some address was written to the INI file, which must be reloaded.
    pub reload: bool,
    /// Some address found differs from the INI file and was not written.
    pub has_address_mismatch: bool,
    /// The report, in INI syntax.
    pub output: String,
    /// The addresses found (0 where nothing was found).
    pub primary: PrimaryOffsets,
}

/// Which primary address a scan entry finds.
#[derive(Clone, Copy, Debug, PartialEq, Eq, Structural)]
pub enum OffsetKind {
    ZoneName,
    SpawnList,
    SelfAddr,
    Target,
    Ground,
    World,
}

impl OffsetKind {
    pub open spec fn value_in(self, o: PrimaryOffsets) -> u64 {
        match self {
            OffsetKind::ZoneName => o.zone_name,
            OffsetKind::SpawnList => o.spawn_list,
            OffsetKind::SelfAddr => o.self_addr,
            OffsetKind::Target => o.target,
            OffsetKind::Ground => o.ground,
            OffsetKind::World => o.world,
        }
    }

    /// The address of this kind in `o`.
    pub fn get(self, o: &PrimaryOffsets) -> (v: u64)
        ensures
            v == self.value_in(*o),
    {
        match self {
            OffsetKind::ZoneName => o.zone_name,
            OffsetKind::SpawnList => o.spawn_list,
            OffsetKind::SelfAddr => o.self_addr,
            OffsetKind::Target => o.target,
            OffsetKind::Ground => o.ground,
            OffsetKind::World => o.world,
        }
    }

    /// Set the address of this kind in `o`; the others stay.
    pub fn set(self, o: &mut PrimaryOffsets, val: u64)
        ensures
            self.value_in(*final(o)) == val,
            forall|k: OffsetKind| k != self ==> k.value_in(*final(o)) == k.value_in(*old(o)),
    {
        match self {
            OffsetKind::ZoneName => o.zone_name = val,
            OffsetKind::SpawnList => o.spawn_list = val,
            OffsetKind::SelfAddr => o.self_addr = val,
            OffsetKind::Target => o.target = val,
            OffsetKind::Ground => o.ground = val,
            OffsetKind::World => o.world = val,
        }
    }
}

/// How one scan entry ended.
#[derive(Clone, Copy, Debug, PartialEq, Eq, Structural)]
pub enum ScanOutcome {
    NotFound,
    /// Found and equal to the INI value.
    Match,
    /// Found, different, and written to the INI file.
    Written,
    /// Found, different, and the write failed.
    WriteFailed,
    /// Found and different; not written (primary scans).
    Mismatch,
    /// Found and different; not written (secondary scans).
    Found,
}

/// A found value that differs from the INI value is written when asked.
pub fn should_write(found: u64, current: u64, write_out: bool) -> (w: bool)
    ensures
        w == (found != 0 && found != current && write_out),
{
    found != 0 && found != current && write_out
}

/// How a scan entry ended, given whether it was written successfully
/// (consulted only when `should_write`).  `secondary` entries report a
/// difference as `Found`, primary ones as `Mismatch`.
pub fn scan_outcome(found: u64, current: u64, write_out: bool, write_ok: bool, secondary: bool) -> (o:
    ScanOutcome)
    ensures
        o == (if found == 0 {
            ScanOutcome::NotFound
        } else if found == current {
            ScanOutcome::Match
        } else if write_out {
            if write_ok {
                ScanOutcome::Written
            } else {
                ScanOutcome::WriteFailed
            }
        } else if secondary {
            ScanOutcome::Found
        } else {
            ScanOutcome::Mismatch
        }),
{
    if found == 0 {
        ScanOutcome::NotFound
    } else if found == current {
        ScanOutcome::Match
    } else if write_out {
        if write_ok {
            ScanOutcome::Written
        } else {
            ScanOutcome::WriteFailed
        }
    } else if secondary {
        ScanOutcome::Found
    } else {
        ScanOutcome::Mismatch
    }
}

/// The comment closing a report line (CRLF-terminated).
pub open spec fn outcome_suffix(o: ScanOutcome) -> Seq<char> {
    match o {
        ScanOutcome::NotFound => " # Not Found\r\n"@,
        ScanOutcome::Match => " # Match\r\n"@,
        ScanOutcome::Written => " # Written to ini file\r\n"@,
        ScanOutcome::WriteFailed => " # Found - Write failed\r\n"@,
        ScanOutcome::Mismatch => " # Does not match ini file.\r\n"@,
        ScanOutcome::Found => " # Found\r\n"@,
    }
}

/// `label=0x<hex value><suffix>`.
pub open spec fn scan_line_text(label: Seq<char>, value: u64, o: ScanOutcome) -> Seq<char> {
    label + seq!['=', '0', 'x'] + hex_seq(value as nat, false) + outcome_suffix(o)
}

fn suffix_str(o: ScanOutcome) -> (s: &'static str)
    ensures
        s@ == outcome_suffix(o),
{
    match o {
        ScanOutcome::NotFound => " # Not Found\r\n",
        ScanOutcome::Match => " # Match\r\n",
        ScanOutcome::Written => " # Written to ini file\r\n",
        ScanOutcome::WriteFailed => " # Found - Write failed\r\n",
        ScanOutcome::Mismatch => " # Does not match ini file.\r\n",
        ScanOutcome::Found => " # Found\r\n",
    }
}

/// One line of a scan report.
pub fn scan_line(label: &str, value: u64, o: ScanOutcome) -> (s: String)
    ensures
        s@ == scan_line_text(label@, value, o),
{
    let mut v = chars_of(label);
    v.push('=');
    v.push('0');
    v.push('x');
    let h = hex_chars(value, false);
    push_all(&mut v, &h);
    let suf = chars_of(suffix_str(o));
    push_all(&mut v, &suf);
    assert(v@ =~= scan_line_text(label@, value, o));
    string_of(v.as_slice())
}

// ---------------------------------------------------------------------------
// Escaped byte patterns
// ---------------------------------------------------------------------------

pub open spec fn is_hex_digit(c: char) -> bool {
    ('0' <= c && c <= '9') || ('a' <= c && c <= 'f') || ('A' <= c && c <= 'F')
}

pub open spec fn hex_val(c: char) -> int {
    if '0' <= c && c <= '9' {
        c as int - '0' as int
    } else if 'a' <= c && c <= 'f' {
        c as int - 'a' as int + 10
    } else {
        c as int - 'A' as int + 10
    }
}

/// The bytes of an escaped pattern: each `\xNN` (two hex digits) gives
/// one byte; every other character is skipped.
pub open spec fn escaped_bytes(s: Seq<char>) -> Seq<u8>
    decreases s.len(),
{
    if s.len() == 0 {
        Seq::empty()
    } else if s.len() >= 4 && s[0] == '\\' && s[1] == 'x' && is_hex_digit(s[2]) && is_hex_digit(
        s[3],
    ) {
        seq![(hex_val(s[2]) * 16 + hex_val(s[3])) as u8] + escaped_bytes(s.skip(4))
    } else {
        escaped_bytes(s.drop_first())
    }
}

fn hex_digit_value(c: char) -> (r: Option<u8>)
    ensures
        r == (if is_hex_digit(c) {
            Some(hex_val(c) as u8)
        } else {
            None
        }),
        is_hex_digit(c) ==> 0 <= hex_val(c) < 16,
{
    if '0' <= c && c <= '9' {
        Some(((c as u32) - ('0' as u32)) as u8)
    } else if 'a' <= c && c <= 'f' {
        Some(((c as u32) - ('a' as u32) + 10) as u8)
    } else if 'A' <= c && c <= 'F' {
        Some(((c as u32) - ('A' as u32) + 10) as u8)
    } else {
        None
    }
}

/// Decode an escaped byte pattern such as `\x8B\x0D` (see `escaped_bytes`).
pub fn parse_escape_bytes(s: &str) -> (r: Vec<u8>)
    ensures
        r@ == escaped_bytes(s@),
{
    let v = chars_of(s);
    let mut out: Vec<u8> = Vec::new();
    let mut i: usize = 0;
    assert(v@.skip(0) =~= v@);
    while i < v.len()
        invariant
            i <= v@.len(),
            v@ == s@,
            escaped_bytes(s@) == out@ + escaped_bytes(v@.skip(i as int)),
        decreases v@.len() - i,
    {
        let ghost rest = v@.skip(i as int);
        if v.len() - i >= 4 && v[i] == '\\' && v[i + 1] == 'x' {
            match (hex_digit_value(v[i + 2]), hex_digit_value(v[i + 3])) {
                (Some(hi), Some(lo)) => {
                    out.push(hi * 16 + lo);
                    assert(rest.skip(4) =~= v@.skip(i + 4));
                    i = i + 4;
                    continue;
                },
                _ => {},
            }
        }
        assert(rest.drop_first() =~= v@.skip(i + 1));
        i = i + 1;
    }
    assert(v@.skip(i as int) =~= Seq::<char>::empty());
    assert(out@ =~= out@ + Seq::<u8>::empty());
    out
}

} // verus!

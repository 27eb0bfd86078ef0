//! A full scan of the game executable, as the server runs it: the pattern
//! searches over a window of the file, and the report that the primary and
//! secondary scans write, with what each found compared to the INI file.
//! Reading the file window and the INI file, and writing found values back,
//! are the caller's; what they gave comes in as plain values.
use vstd::prelude::*;
use crate::offsets::PrimaryOffsets;
use crate::scanner::{
    patch_structure_mask, patched_mask, scan_buffer_for_pointer, scan_line, scan_line_text,
    scan_outcome, scan_result, OffsetKind, PeImageInfo, ScanOutcome, ScanResult, mask_matches,
    scan_from, t_field, extracted_at, rip_target, offset_va, le32_at,
};
use crate::text::{chars_of, int_dec_chars, int_dec_seq, push_all, string_of};
use crate::server_logic::bytes_value;

verus! {

/// The `r` character of a char mask: a RIP-relative field, which needs the
/// executable's section table.
pub const MASK_RIP: u8 = 0x72;

/// The scan result for a pointer pattern over `window`, read from file
/// offset `start`: the section table is consulted only when the mask has a
/// RIP-relative field.
pub open spec fn pointer_found(
    window: Seq<u8>,
    byte_mask: Seq<u8>,
    char_mask: Seq<u8>,
    start: u64,
    pe: Option<PeImageInfo>,
) -> u64 {
    scan_result(window, byte_mask, char_mask, start, if char_mask.contains(MASK_RIP) {
        pe
    } else {
        None
    })
}

/// The scan result for a structure-offset pattern: the pointer scan with
/// the known base address written over the mask's `o` run, 0 when that
/// run cannot be patched.
pub open spec fn structure_found(
    window: Seq<u8>,
    byte_mask: Seq<u8>,
    char_mask: Seq<u8>,
    start: u64,
    pe: Option<PeImageInfo>,
    base_addr: u64,
) -> u64 {
    match patched_mask(byte_mask, char_mask, base_addr) {
        Some(m) => pointer_found(window, m, char_mask, start, pe),
        None => 0,
    }
}

fn has_byte(s: &[u8], c: u8) -> (b: bool)
    ensures
        b == s@.contains(c),
{
    let mut i: usize = 0;
    while i < s.len()
        invariant
            i <= s@.len(),
            forall|j: int| 0 <= j < i ==> s@[j] != c,
        decreases s@.len() - i,
    {
        if s[i] == c {
            assert(s@[i as int] == c);
            return true;
        }
        i = i + 1;
    }
    false
}

/// Search `window` (the bytes of the executable from file offset `start`)
/// for a pointer pattern; 0 when nothing matches.  `pe` is the executable's
/// section table, if it could be read.
pub fn find_pointer_in(
    window: &[u8],
    byte_mask: &[u8],
    char_mask: &[u8],
    start: u64,
    pe: Option<&PeImageInfo>,
) -> (r: u64)
    ensures
        r == pointer_found(window@, byte_mask@, char_mask@, start, match pe {
            Some(p) => Some(*p),
            None => None,
        }),
{
    if has_byte(char_mask, MASK_RIP) {
        scan_buffer_for_pointer(window, byte_mask, char_mask, start, pe)
    } else {
        scan_buffer_for_pointer(window, byte_mask, char_mask, start, None)
    }
}

/// Search `window` for a structure-offset pattern whose `o` run stands for
/// the known `base_addr`; 0 when nothing matches or the run cannot be
/// patched.
pub fn find_structure_in(
    window: &[u8],
    byte_mask: &[u8],
    char_mask: &[u8],
    start: u64,
    pe: Option<&PeImageInfo>,
    base_addr: u64,
) -> (r: u64)
    ensures
        r == structure_found(window@, byte_mask@, char_mask@, start, match pe {
            Some(p) => Some(*p),
            None => None,
        }, base_addr),
{
    match patch_structure_mask(byte_mask, char_mask, base_addr) {
        Some(m) => find_pointer_in(window, m.as_slice(), char_mask, start, pe),
        None => 0,
    }
}

/// The structure base for the secondary scan: the character-info address
/// found, else the one the caller already knows.
pub fn char_info_base(found: u64, fallback: u64) -> (r: u64)
    ensures
        r == (if found != 0 {
            found
        } else {
            fallback
        }),
{
    if found != 0 {
        found
    } else {
        fallback
    }
}

/// How a scan entry ends (see `scan_outcome`).
pub open spec fn outcome_of(found: u64, current: u64, write_out: bool, write_ok: bool, secondary: bool) -> ScanOutcome {
    if found == 0 {
        ScanOutcome::NotFound
    } else if found == current {
        ScanOutcome::Match
    } else if write_out {
        if write_ok {
            ScanOutcome::Written
        } else {
            ScanOutcome::WriteFailed
        }
    } else if secondary {
        ScanOutcome::Found
    } else {
        ScanOutcome::Mismatch
    }
}

/// The file facts a primary scan reports when the executable's headers
/// read: its link date, SHA-1 and build string (empty when unknown).
pub struct FileInfo {
    pub patch_date: String,
    pub client_hash: String,
    pub build_string: String,
}

/// What the caller's search for one table entry gave: the value found (0
/// for none), the value the INI file holds, and whether writing the found
/// value back succeeded (consulted only when it was written).
#[derive(Debug, Clone, Copy)]
pub struct Finding {
    pub found: u64,
    pub current: u64,
    pub write_ok: bool,
}

/// One primary scan: the INI section holding its pattern, the key its
/// address is written under, its report label, and the address it finds.
pub struct PrimaryPattern {
    pub ini_section: &'static str,
    pub ini_write_key: &'static str,
    pub output_label: &'static str,
    pub kind: OffsetKind,
}

/// One secondary scan: the INI section holding its pattern and its report
/// label (also its key in `[SpawnInfo Offsets]`).
pub struct SecondaryPattern {
    pub ini_section: &'static str,
    pub output_label: &'static str,
}

/// The primary scans' labels, in scan order (each is also its INI section
/// and write key).
pub open spec fn primary_labels() -> Seq<Seq<char>> {
    seq!["ZoneAddr"@, "SpawnHeaderAddr"@, "CharInfo"@, "ItemsAddr"@, "TargetAddr"@, "WorldAddr"@]
}

/// The address each primary scan finds, in scan order.
pub open spec fn primary_kinds() -> Seq<OffsetKind> {
    seq![
        OffsetKind::ZoneName,
        OffsetKind::SpawnList,
        OffsetKind::SelfAddr,
        OffsetKind::Ground,
        OffsetKind::Target,
        OffsetKind::World,
    ]
}

/// The secondary scans' report labels, in scan order.
pub open spec fn secondary_labels() -> Seq<Seq<char>> {
    seq![
        "TypeOffset"@,
        "SpawnIDOffset"@,
        "LevelOffset"@,
        "RaceOffset"@,
        "ClassOffset"@,
        "PrimaryOffset"@,
        "OffhandOffset"@,
    ]
}

/// The secondary scans' pattern sections: `SpawnInfo` and the label.
pub open spec fn secondary_sections() -> Seq<Seq<char>> {
    secondary_labels().map_values(|l: Seq<char>| "SpawnInfo"@ + l)
}

pub const PRIMARY_SCAN_COUNT: usize = 6;

pub const SECONDARY_SCAN_COUNT: usize = 7;

fn primary_label(i: usize) -> (s: &'static str)
    requires
        i < PRIMARY_SCAN_COUNT,
    ensures
        s@ == primary_labels()[i as int],
{
    match i {
        0 => "ZoneAddr",
        1 => "SpawnHeaderAddr",
        2 => "CharInfo",
        3 => "ItemsAddr",
        4 => "TargetAddr",
        _ => "WorldAddr",
    }
}

fn primary_kind(i: usize) -> (k: OffsetKind)
    requires
        i < PRIMARY_SCAN_COUNT,
    ensures
        k == primary_kinds()[i as int],
{
    match i {
        0 => OffsetKind::ZoneName,
        1 => OffsetKind::SpawnList,
        2 => OffsetKind::SelfAddr,
        3 => OffsetKind::Ground,
        4 => OffsetKind::Target,
        _ => OffsetKind::World,
    }
}

fn secondary_label(i: usize) -> (s: &'static str)
    requires
        i < SECONDARY_SCAN_COUNT,
    ensures
        s@ == secondary_labels()[i as int],
{
    match i {
        0 => "TypeOffset",
        1 => "SpawnIDOffset",
        2 => "LevelOffset",
        3 => "RaceOffset",
        4 => "ClassOffset",
        5 => "PrimaryOffset",
        _ => "OffhandOffset",
    }
}

fn secondary_section(i: usize) -> (s: &'static str)
    requires
        i < SECONDARY_SCAN_COUNT,
    ensures
        s@ == secondary_sections()[i as int],
{
    proof {
        reveal_strlit("SpawnInfo");
        reveal_strlit("TypeOffset");
        reveal_strlit("SpawnIDOffset");
        reveal_strlit("LevelOffset");
        reveal_strlit("RaceOffset");
        reveal_strlit("ClassOffset");
        reveal_strlit("PrimaryOffset");
        reveal_strlit("OffhandOffset");
        reveal_strlit("SpawnInfoTypeOffset");
        reveal_strlit("SpawnInfoSpawnIDOffset");
        reveal_strlit("SpawnInfoLevelOffset");
        reveal_strlit("SpawnInfoRaceOffset");
        reveal_strlit("SpawnInfoClassOffset");
        reveal_strlit("SpawnInfoPrimaryOffset");
        reveal_strlit("SpawnInfoOffhandOffset");
    }
    let s = match i {
        0 => "SpawnInfoTypeOffset",
        1 => "SpawnInfoSpawnIDOffset",
        2 => "SpawnInfoLevelOffset",
        3 => "SpawnInfoRaceOffset",
        4 => "SpawnInfoClassOffset",
        5 => "SpawnInfoPrimaryOffset",
        _ => "SpawnInfoOffhandOffset",
    };
    assert(s@ =~= secondary_sections()[i as int]);
    s
}

/// The primary scans, in the order they run.
pub fn primary_patterns() -> (v: Vec<PrimaryPattern>)
    ensures
        v@.len() == PRIMARY_SCAN_COUNT,
        forall|i: int|
            0 <= i < PRIMARY_SCAN_COUNT ==> {
                &&& (#[trigger] v@[i]).ini_section@ == primary_labels()[i]
                &&& v@[i].ini_write_key@ == primary_labels()[i]
                &&& v@[i].output_label@ == primary_labels()[i]
                &&& v@[i].kind == primary_kinds()[i]
            },
{
    let mut v: Vec<PrimaryPattern> = Vec::new();
    let mut i: usize = 0;
    while i < PRIMARY_SCAN_COUNT
        invariant
            i <= PRIMARY_SCAN_COUNT,
            v@.len() == i,
            forall|j: int|
                0 <= j < i ==> {
                    &&& (#[trigger] v@[j]).ini_section@ == primary_labels()[j]
                    &&& v@[j].ini_write_key@ == primary_labels()[j]
                    &&& v@[j].output_label@ == primary_labels()[j]
                    &&& v@[j].kind == primary_kinds()[j]
                },
        decreases PRIMARY_SCAN_COUNT - i,
    {
        let l = primary_label(i);
        v.push(PrimaryPattern { ini_section: l, ini_write_key: l, output_label: l, kind: primary_kind(i) });
        i = i + 1;
    }
    v
}

/// The secondary scans, in the order they run.
pub fn secondary_patterns() -> (v: Vec<SecondaryPattern>)
    ensures
        v@.len() == SECONDARY_SCAN_COUNT,
        forall|i: int|
            0 <= i < SECONDARY_SCAN_COUNT ==> {
                &&& (#[trigger] v@[i]).ini_section@ == secondary_sections()[i]
                &&& v@[i].output_label@ == secondary_labels()[i]
            },
{
    let mut v: Vec<SecondaryPattern> = Vec::new();
    let mut i: usize = 0;
    while i < SECONDARY_SCAN_COUNT
        invariant
            i <= SECONDARY_SCAN_COUNT,
            v@.len() == i,
            forall|j: int|
                0 <= j < i ==> {
                    &&& (#[trigger] v@[j]).ini_section@ == secondary_sections()[j]
                    &&& v@[j].output_label@ == secondary_labels()[j]
                },
        decreases SECONDARY_SCAN_COUNT - i,
    {
        v.push(SecondaryPattern { ini_section: secondary_section(i), output_label: secondary_label(i) });
        i = i + 1;
    }
    v
}

pub open spec fn finding_outcome(f: Finding, write_out: bool, secondary: bool) -> ScanOutcome {
    outcome_of(f.found, f.current, write_out, f.write_ok, secondary)
}

/// The report lines of the first `n` findings, each under its label.
pub open spec fn finding_lines(
    labels: Seq<Seq<char>>,
    f: Seq<Finding>,
    n: nat,
    write_out: bool,
    secondary: bool,
) -> Seq<char>
    decreases n,
{
    if n == 0 {
        Seq::empty()
    } else {
        finding_lines(labels, f, (n - 1) as nat, write_out, secondary) + scan_line_text(
            labels[n - 1],
            f[n - 1].found,
            finding_outcome(f[n - 1], write_out, secondary),
        )
    }
}

/// Some primary finding ended with `o`.
pub open spec fn some_outcome(f: Seq<Finding>, write_out: bool, o: ScanOutcome) -> bool {
    exists|i: int| 0 <= i < f.len() && #[trigger] finding_outcome(f[i], write_out, false) == o
}

/// `o` with the address of `kind` set to `v`.
pub open spec fn with_kind(o: PrimaryOffsets, kind: OffsetKind, v: u64) -> PrimaryOffsets {
    match kind {
        OffsetKind::ZoneName => PrimaryOffsets { zone_name: v, ..o },
        OffsetKind::SpawnList => PrimaryOffsets { spawn_list: v, ..o },
        OffsetKind::SelfAddr => PrimaryOffsets { self_addr: v, ..o },
        OffsetKind::Target => PrimaryOffsets { target: v, ..o },
        OffsetKind::Ground => PrimaryOffsets { ground: v, ..o },
        OffsetKind::World => PrimaryOffsets { world: v, ..o },
    }
}

pub open spec fn no_offsets() -> PrimaryOffsets {
    PrimaryOffsets { zone_name: 0, spawn_list: 0, self_addr: 0, target: 0, ground: 0, world: 0 }
}

/// The addresses the first `n` primary findings give: each found value
/// under its scan's kind, in order; 0 where nothing was found.
pub open spec fn found_offsets(f: Seq<Finding>, n: nat) -> PrimaryOffsets
    decreases n,
{
    if n == 0 {
        no_offsets()
    } else if f[n - 1].found != 0 {
        with_kind(found_offsets(f, (n - 1) as nat), primary_kinds()[n - 1], f[n - 1].found)
    } else {
        found_offsets(f, (n - 1) as nat)
    }
}

/// The `[File Info]` section of the report.
pub open spec fn file_info_text(d: Seq<char>, h: Seq<char>, b: Seq<char>) -> Seq<char> {
    "[File Info]\r\nPatchDate="@ + d + "\r\n"@ + (if h.len() > 0 {
        "ClientHash="@ + h + "\r\n"@
    } else {
        Seq::empty()
    }) + (if b.len() > 0 {
        "BuildString="@ + b + "\r\n"@
    } else {
        Seq::empty()
    }) + "\r\n"@
}

/// What precedes the primary scan lines: the file facts when the headers
/// read, then the port, then the `[Memory Offsets]` heading.
pub open spec fn primary_header(info: Option<FileInfo>, port: i64) -> Seq<char> {
    (match info {
        Some(f) => file_info_text(f.patch_date@, f.client_hash@, f.build_string@),
        None => Seq::empty(),
    }) + "[Port]\r\nPort="@ + int_dec_seq(port as int) + "\r\n\r\n[Memory Offsets]\r\n"@
}

/// The report of a scan whose executable could not be found.
pub open spec fn missing_exe_text() -> Seq<char> {
    "Error: Could not locate the specified executable file."@
}

fn missing_exe() -> (s: String)
    ensures
        s@ == missing_exe_text(),
{
    string_of(chars_of("Error: Could not locate the specified executable file.").as_slice())
}

fn push_str(v: &mut Vec<char>, s: &str)
    ensures
        final(v)@ == old(v)@ + s@,
{
    let c = chars_of(s);
    push_all(v, &c);
}

/// The line of finding `i`, appended to `out`.
fn push_finding(out: &mut Vec<char>, label: &str, f: &Finding, write_out: bool, secondary: bool)
    ensures
        final(out)@ == old(out)@ + scan_line_text(label@, f.found, finding_outcome(*f, write_out, secondary)),
{
    let o = scan_outcome(f.found, f.current, write_out, f.write_ok, secondary);
    let line = scan_line(label, f.found, o);
    push_str(out, line.as_str());
}

/// The report of the primary scan.  With the executable missing: the
/// error line, nothing to reload, no mismatch, no address.  Otherwise the
/// header (see `primary_header`) and one line per scan in table order,
/// labelled from the table; the INI file must be reloaded when some found
/// address was written to it, and a mismatch is one found, different and
/// not written.  `findings` holds the result of each scan of
/// `primary_patterns`, in order.
pub fn primary_report(
    exe_exists: bool,
    info: &Option<FileInfo>,
    port: i64,
    findings: &Vec<Finding>,
    write_out: bool,
) -> (r: ScanResult)
    requires
        exe_exists ==> findings@.len() == PRIMARY_SCAN_COUNT,
    ensures
        !exe_exists ==> r.output@ == missing_exe_text() && !r.reload && !r.has_address_mismatch
            && r.primary == no_offsets(),
        exe_exists ==> {
            &&& r.output@ == primary_header(*info, port) + finding_lines(
                primary_labels(),
                findings@,
                PRIMARY_SCAN_COUNT as nat,
                write_out,
                false,
            )
            &&& r.reload == some_outcome(findings@, write_out, ScanOutcome::Written)
            &&& r.has_address_mismatch == some_outcome(findings@, write_out, ScanOutcome::Mismatch)
            &&& r.primary == found_offsets(findings@, PRIMARY_SCAN_COUNT as nat)
        },
{
    let mut primary = PrimaryOffsets { zone_name: 0, spawn_list: 0, self_addr: 0, target: 0, ground: 0, world: 0 };
    if !exe_exists {
        return ScanResult { reload: false, has_address_mismatch: false, output: missing_exe(), primary };
    }
    let mut out: Vec<char> = Vec::new();
    match info {
        Some(f) => {
            push_str(&mut out, "[File Info]\r\nPatchDate=");
            push_str(&mut out, f.patch_date.as_str());
            push_str(&mut out, "\r\n");
            let h = chars_of(f.client_hash.as_str());
            if h.len() > 0 {
                push_str(&mut out, "ClientHash=");
                push_all(&mut out, &h);
                push_str(&mut out, "\r\n");
            }
            let b = chars_of(f.build_string.as_str());
            if b.len() > 0 {
                push_str(&mut out, "BuildString=");
                push_all(&mut out, &b);
                push_str(&mut out, "\r\n");
            }
            push_str(&mut out, "\r\n");
            assert(out@ =~= file_info_text(f.patch_date@, f.client_hash@, f.build_string@));
        },
        None => {},
    }
    push_str(&mut out, "[Port]\r\nPort=");
    let p = int_dec_chars(port);
    push_all(&mut out, &p);
    push_str(&mut out, "\r\n\r\n[Memory Offsets]\r\n");
    assert(out@ =~= primary_header(*info, port));
    let ghost head = out@;
    let ghost fs = findings@;
    let mut reload = false;
    let mut mismatch = false;
    let mut i: usize = 0;
    while i < PRIMARY_SCAN_COUNT
        invariant
            i <= PRIMARY_SCAN_COUNT,
            fs == findings@,
            fs.len() == PRIMARY_SCAN_COUNT,
            out@ == head + finding_lines(primary_labels(), fs, i as nat, write_out, false),
            reload == some_outcome(fs.take(i as int), write_out, ScanOutcome::Written),
            mismatch == some_outcome(fs.take(i as int), write_out, ScanOutcome::Mismatch),
            primary == found_offsets(fs, i as nat),
        decreases PRIMARY_SCAN_COUNT - i,
    {
        let f = &findings[i];
        push_finding(&mut out, primary_label(i), f, write_out, false);
        let o = scan_outcome(f.found, f.current, write_out, f.write_ok, false);
        let ghost pre = fs.take(i as int);
        let ghost nxt = fs.take(i + 1);
        proof {
            assert forall|q: int| 0 <= q < pre.len() implies nxt[q] == pre[q] by {}
            assert(nxt[i as int] == fs[i as int]);
            assert(finding_outcome(nxt[i as int], write_out, false) == o);
            if some_outcome(nxt, write_out, ScanOutcome::Written) && o != ScanOutcome::Written {
                let q = choose|q: int|
                    0 <= q < nxt.len() && #[trigger] finding_outcome(nxt[q], write_out, false)
                        == ScanOutcome::Written;
                assert(finding_outcome(pre[q], write_out, false) == ScanOutcome::Written);
            }
            if some_outcome(pre, write_out, ScanOutcome::Written) {
                let q = choose|q: int|
                    0 <= q < pre.len() && #[trigger] finding_outcome(pre[q], write_out, false)
                        == ScanOutcome::Written;
                assert(finding_outcome(nxt[q], write_out, false) == ScanOutcome::Written);
            }
            if some_outcome(nxt, write_out, ScanOutcome::Mismatch) && o != ScanOutcome::Mismatch {
                let q = choose|q: int|
                    0 <= q < nxt.len() && #[trigger] finding_outcome(nxt[q], write_out, false)
                        == ScanOutcome::Mismatch;
                assert(finding_outcome(pre[q], write_out, false) == ScanOutcome::Mismatch);
            }
            if some_outcome(pre, write_out, ScanOutcome::Mismatch) {
                let q = choose|q: int|
                    0 <= q < pre.len() && #[trigger] finding_outcome(pre[q], write_out, false)
                        == ScanOutcome::Mismatch;
                assert(finding_outcome(nxt[q], write_out, false) == ScanOutcome::Mismatch);
            }
        }
        if o == ScanOutcome::Written {
            reload = true;
        }
        if o == ScanOutcome::Mismatch {
            mismatch = true;
        }
        if f.found != 0 {
            match primary_kind(i) {
                OffsetKind::ZoneName => primary.zone_name = f.found,
                OffsetKind::SpawnList => primary.spawn_list = f.found,
                OffsetKind::SelfAddr => primary.self_addr = f.found,
                OffsetKind::Target => primary.target = f.found,
                OffsetKind::Ground => primary.ground = f.found,
                OffsetKind::World => primary.world = f.found,
            }
        }
        i = i + 1;
    }
    assert(fs.take(i as int) =~= fs);
    ScanResult { reload, has_address_mismatch: mismatch, output: string_of(out.as_slice()), primary }
}

/// The report of the secondary scan: the error line when the executable is
/// missing; otherwise the `[SpawnInfo Offsets]` heading and one line per
/// scan of `secondary_patterns`, in table order, labelled from the table.
pub fn secondary_report(exe_exists: bool, findings: &Vec<Finding>, write_out: bool) -> (s: String)
    requires
        exe_exists ==> findings@.len() == SECONDARY_SCAN_COUNT,
    ensures
        !exe_exists ==> s@ == missing_exe_text(),
        exe_exists ==> s@ == "[SpawnInfo Offsets]\r\n"@ + finding_lines(
            secondary_labels(),
            findings@,
            SECONDARY_SCAN_COUNT as nat,
            write_out,
            true,
        ),
{
    if !exe_exists {
        return missing_exe();
    }
    let mut out: Vec<char> = Vec::new();
    push_str(&mut out, "[SpawnInfo Offsets]\r\n");
    let ghost head = out@;
    let mut i: usize = 0;
    while i < SECONDARY_SCAN_COUNT
        invariant
            i <= SECONDARY_SCAN_COUNT,
            findings@.len() == SECONDARY_SCAN_COUNT,
            out@ == head + finding_lines(secondary_labels(), findings@, i as nat, write_out, true),
        decreases SECONDARY_SCAN_COUNT - i,
    {
        push_finding(&mut out, secondary_label(i), &findings[i], write_out, true);
        i = i + 1;
    }
    string_of(out.as_slice())
}

/// The signed value of a 32-bit two's-complement word `w`.
pub open spec fn signed32(w: int) -> int {
    if w < 0x8000_0000 {
        w
    } else {
        w - 0x1_0000_0000
    }
}

proof fn lemma_no_match_before(
    buffer: Seq<u8>,
    byte_mask: Seq<u8>,
    char_mask: Seq<u8>,
    file_start: u64,
    pe: Option<PeImageInfo>,
    j: int,
    i: int,
)
    requires
        0 <= j <= i,
        i + char_mask.len() <= buffer.len(),
        forall|q: int| 0 <= q < i ==> !mask_matches(#[trigger] buffer.skip(q), byte_mask, char_mask),
    ensures
        scan_from(buffer, byte_mask, char_mask, file_start, pe, j) == scan_from(
            buffer,
            byte_mask,
            char_mask,
            file_start,
            pe,
            i,
        ),
    decreases i - j,
{
    if j < i {
        assert(!mask_matches(buffer.skip(j), byte_mask, char_mask));
        lemma_no_match_before(buffer, byte_mask, char_mask, file_start, pe, j + 1, i);
    }
}

proof fn lemma_signed32(x: u32)
    ensures
        ((x as i32) as i64) as int == signed32(x as int),
{
    if x < 0x8000_0000 {
        assert(((x as i32) as i64) == (x as i64)) by (bit_vector)
            requires
                x < 0x8000_0000u32,
        ;
    } else {
        assert(((x as i32) as i64) == (x as i64) - 0x1_0000_0000i64) by (bit_vector)
            requires
                x >= 0x8000_0000u32,
        ;
    }
}

/// A RIP-relative pattern resolves to the address its displacement points
/// at: for the first match at buffer index `i`, whose 4-byte displacement
/// field starts `t_off` bytes in, the result is the virtual address of
/// the file offset just past that field, `file_start + i + t_off + 4`
/// (image base, plus the section's virtual address, plus the offset's
/// distance from the section's raw start), plus the signed displacement.
/// So the offset looked up moves with `file_start`.
pub proof fn law_rip_match_resolves(
    buffer: Seq<u8>,
    byte_mask: Seq<u8>,
    char_mask: Seq<u8>,
    file_start: u64,
    p: PeImageInfo,
    i: int,
    t_off: int,
)
    requires
        char_mask.len() > 0,
        byte_mask.len() >= char_mask.len(),
        char_mask.contains(MASK_RIP),
        t_field(char_mask) == (t_off, 4int),
        0 <= t_off,
        0 <= i,
        i + char_mask.len() <= buffer.len(),
        i + t_off + 4 <= buffer.len(),
        mask_matches(buffer.skip(i), byte_mask, char_mask),
        forall|q: int| 0 <= q < i ==> !mask_matches(#[trigger] buffer.skip(q), byte_mask, char_mask),
        p.sections@.len() > 0,
        ({
            let s = p.sections@[0];
            let off = file_start + i + t_off + 4;
            let va = p.image_base + s.virtual_address + (off - s.pointer_to_raw_data);
            &&& s.pointer_to_raw_data != 0 && s.size_of_raw_data != 0
            &&& s.pointer_to_raw_data <= off < s.pointer_to_raw_data + s.size_of_raw_data
            &&& 0 < va < 0x8000_0000_0000_0000
            &&& 0 <= va + signed32(bytes_value(buffer, i + t_off, 4)) < 0x8000_0000_0000_0000
        }),
    ensures
        ({
            let s = p.sections@[0];
            let off = file_start + i + t_off + 4;
            scan_result(buffer, byte_mask, char_mask, file_start, Some(p)) == p.image_base
                + s.virtual_address + (off - s.pointer_to_raw_data) + signed32(
                bytes_value(buffer, i + t_off, 4),
            )
        }),
{
    reveal_with_fuel(bytes_value, 5);
    let pe = Some(p);
    lemma_no_match_before(buffer, byte_mask, char_mask, file_start, pe, 0, i);
    let ext = extracted_at(buffer, i + t_off, 4);
    let w = buffer.subrange(i + t_off, i + t_off + 4);
    assert(w[0] == buffer[i + t_off] && w[1] == buffer[i + t_off + 1] && w[2] == buffer[i + t_off + 2]
        && w[3] == buffer[i + t_off + 3]);
    assert(bytes_value(buffer, i + t_off + 4, 0) == 0);
    assert(ext as int == bytes_value(buffer, i + t_off, 4));
    assert(scan_from(buffer, byte_mask, char_mask, file_start, pe, i) == rip_target(
        i,
        t_off,
        4,
        ext,
        file_start,
        pe,
    ));
    let s = p.sections@[0];
    let off = file_start + i + t_off + 4;
    let next_off = file_start.wrapping_add(i as u64).wrapping_add(t_off as u64).wrapping_add(4);
    assert(next_off == off);
    let next_va = offset_va(p.sections@, p.image_base, next_off);
    assert(next_va == p.image_base + s.virtual_address + (off - s.pointer_to_raw_data));
    lemma_signed32(ext);
    let d = (ext as i32) as i64;
    assert((next_va as i64) as int == next_va as int);
    let resolved = (next_va as i64).wrapping_add(d);
    assert(resolved as int == next_va + d);
    assert(resolved >= 0);
    assert(rip_target(i, t_off, 4, ext, file_start, pe) == resolved as u64);
    assert(scan_result(buffer, byte_mask, char_mask, file_start, pe) == scan_from(
        buffer,
        byte_mask,
        char_mask,
        file_start,
        pe,
        0,
    ));
}

} // verus!

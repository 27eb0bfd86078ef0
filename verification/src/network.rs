//! The server's side of a client connection: which records answer a
//! request bitmask, and the bytes that go on the wire for them.
//!
//! A connection alternates between reading a 4-byte request and sending a
//! response.  The reading and sending is done by the caller; this module
//! decides, for each request, whether a response is owed and what it holds.
use vstd::prelude::*;
use vstd::utf8::{encode_utf8, is_ascii_chars, is_ascii_chars_encode_utf8};
use crate::text::{ascii_bytes, latin_chars};
use crate::bytes::{cstr, le32, lemma_nul_pos_is, push_bytes, push_u32_le};
use crate::protocol::{
    is_zeroed,
    blank_record, field_text, zero_bytes, name_from_bytes, record_bytes, world_record, world_time_to_record,
    write_str, SpawnRecord, WorldTime, IPT_GETPROC, IPT_GROUND, IPT_SELF, IPT_SETPROC,
    IPT_SPAWNS, IPT_TARGET, IPT_WORLD, IPT_ZONE, OPT_GROUND, OPT_PROCESS, OPT_SELF, OPT_SPAWNS,
    OPT_TARGET, OPT_ZONE,
};
use crate::status::{default_snapshot, StatusSnapshot};

verus! {

/// Supplies game data to a connection.  Implemented by the stub provider
/// below and, in the server program, by a provider backed by live memory
/// reads; nothing is known of what it returns.
pub trait DataProvider {
    fn zone_name(&self) -> String;

    fn self_spawn(&self) -> Option<SpawnRecord>;

    fn spawn_list(&self) -> Vec<SpawnRecord>;

    fn target(&self) -> Option<SpawnRecord>;

    fn ground_items(&self) -> Vec<SpawnRecord>;

    fn world_time(&self) -> Option<WorldTime>;

    fn processes(&self) -> Vec<u32>;
}

/// What a provider returned for one request.  Fields whose request bit
/// was not set are not consulted.
pub struct ProviderData {
    pub zone_name: String,
    pub self_spawn: Option<SpawnRecord>,
    pub spawn_list: Vec<SpawnRecord>,
    pub target: Option<SpawnRecord>,
    pub ground_items: Vec<SpawnRecord>,
    pub world_time: Option<WorldTime>,
    pub processes: Vec<u32>,
}

/// One response: the records to send, and the status update for the UI
/// when the request touched zone, self, spawns or ground items.
pub struct Response {
    pub records: Vec<SpawnRecord>,
    pub status: Option<StatusSnapshot>,
}

/// Per-connection state.
pub struct ClientSession {
    /// The zone name last sent; a zone record goes out only when it changes.
    pub zone_name: String,
    /// Set by an `IPT_SETPROC` request: the next 4 bytes are a process id.
    pub change_process: bool,
}

/// Does `request` have `bit` set?
pub open spec fn has_bit(request: i32, bit: i32) -> bool {
    request & bit != 0
}

/// `r` with its `flags` replaced.
pub open spec fn with_flags(r: SpawnRecord, flags: u32) -> SpawnRecord {
    SpawnRecord { flags, ..r }
}

/// The record announcing one game process id.
pub open spec fn process_record(pid: u32) -> SpawnRecord {
    SpawnRecord { id: pid, flags: OPT_PROCESS, ..blank_record() }
}

/// The record sent as target when there is none: id 99999.
pub open spec fn empty_target_record() -> SpawnRecord {
    SpawnRecord { id: 99999, flags: OPT_TARGET, ..blank_record() }
}

/// The bytes a NUL-terminated 30-byte name field holds for text `b`:
/// at most 29 bytes of it, then zeros.
pub open spec fn name_field(b: Seq<u8>) -> Seq<u8> {
    let n = if b.len() < 29 { b.len() } else { 29 };
    b.take(n as int) + Seq::new((30 - n) as nat, |i: int| 0u8)
}

/// `r` is the zone record for the zone whose UTF-8 bytes are `zone`.
pub open spec fn is_zone_record(r: SpawnRecord, zone: Seq<u8>) -> bool {
    &&& r.name@ == name_field(zone)
    &&& SpawnRecord { name: blank_record().name, ..r } == SpawnRecord {
        flags: OPT_ZONE,
        ..blank_record()
    }
}

pub open spec fn process_part(request: i32, d: ProviderData) -> Seq<SpawnRecord> {
    if has_bit(request, IPT_GETPROC) {
        d.processes@.map_values(|p: u32| process_record(p))
    } else {
        Seq::empty()
    }
}

/// A zone record is owed: the zone was asked for and differs from the last one sent.
pub open spec fn zone_sent(zone_before: Seq<char>, request: i32, d: ProviderData) -> bool {
    has_bit(request, IPT_ZONE) && d.zone_name@ != zone_before
}

pub open spec fn self_part(request: i32, d: ProviderData) -> Seq<SpawnRecord> {
    if has_bit(request, IPT_SELF) && d.self_spawn is Some {
        seq![with_flags(d.self_spawn->0, OPT_SELF)]
    } else {
        Seq::empty()
    }
}

pub open spec fn spawn_part(request: i32, d: ProviderData) -> Seq<SpawnRecord> {
    if has_bit(request, IPT_SPAWNS) {
        d.spawn_list@.map_values(|r: SpawnRecord| with_flags(r, OPT_SPAWNS))
    } else {
        Seq::empty()
    }
}

pub open spec fn target_part(request: i32, d: ProviderData) -> Seq<SpawnRecord> {
    if has_bit(request, IPT_TARGET) {
        match d.target {
            Some(r) => seq![with_flags(r, OPT_TARGET)],
            None => seq![empty_target_record()],
        }
    } else {
        Seq::empty()
    }
}

pub open spec fn ground_part(request: i32, d: ProviderData) -> Seq<SpawnRecord> {
    if has_bit(request, IPT_GROUND) {
        d.ground_items@.map_values(|r: SpawnRecord| with_flags(r, OPT_GROUND))
    } else {
        Seq::empty()
    }
}

pub open spec fn world_part(request: i32, d: ProviderData) -> Seq<SpawnRecord> {
    if has_bit(request, IPT_WORLD) && d.world_time is Some {
        seq![world_record(d.world_time->0)]
    } else {
        Seq::empty()
    }
}

/// Everything after the zone record, in wire order.
pub open spec fn tail_part(request: i32, d: ProviderData) -> Seq<SpawnRecord> {
    self_part(request, d) + spawn_part(request, d) + target_part(request, d) + ground_part(
        request,
        d,
    ) + world_part(request, d)
}

/// `out` is the record list owed for `request`: process ids, the zone
/// record when the zone changed, self, spawns, target (or the empty
/// target), ground items and world time, each kind flagged with its
/// `OPT_*` value.
pub open spec fn response_records(
    zone_before: Seq<char>,
    request: i32,
    d: ProviderData,
    out: Seq<SpawnRecord>,
) -> bool {
    let p = process_part(request, d);
    if zone_sent(zone_before, request, d) {
        &&& out.len() == p.len() + 1 + tail_part(request, d).len()
        &&& out.take(p.len() as int) == p
        &&& is_zone_record(out[p.len() as int], encode_utf8(d.zone_name@))
        &&& out.skip(p.len() + 1int) == tail_part(request, d)
    } else {
        out == p + tail_part(request, d)
    }
}

/// How many records in `s` have spawn type `t`.
pub open spec fn count_type(s: Seq<SpawnRecord>, t: u8) -> nat
    decreases s.len(),
{
    if s.len() == 0 {
        0
    } else {
        count_type(s.drop_last(), t) + (if s.last().spawn_type == t {
            1nat
        } else {
            0nat
        })
    }
}

/// The status update owed for `request`: `None` unless zone, self (when
/// present), spawns or ground were asked for.  Counts are `-1` when not
/// asked for; each count is the number taken as `i32`.
pub open spec fn response_status(
    zone_after: Seq<char>,
    request: i32,
    d: ProviderData,
    st: Option<StatusSnapshot>,
) -> bool {
    let self_seen = has_bit(request, IPT_SELF) && d.self_spawn is Some;
    let dirty = has_bit(request, IPT_ZONE) || self_seen || has_bit(request, IPT_SPAWNS)
        || has_bit(request, IPT_GROUND);
    if !dirty {
        st is None
    } else {
        &&& st is Some
        &&& {
            let s = st->0;
            let spawns = d.spawn_list@;
            let pc = count_type(spawns, 0);
            let npc = count_type(spawns, 1);
            &&& if has_bit(request, IPT_ZONE) {
                s.zone@ == zone_after
            } else {
                s.zone@.len() == 0
            }
            &&& if self_seen {
                s.character_name@ == field_text(d.self_spawn->0.name@)
            } else {
                s.character_name@.len() == 0
            }
            &&& s.pc_count == (if has_bit(request, IPT_SPAWNS) {
                pc as i32
            } else {
                -1i32
            })
            &&& s.npc_count == (if has_bit(request, IPT_SPAWNS) {
                npc as i32
            } else {
                -1i32
            })
            &&& s.corpse_count == (if has_bit(request, IPT_SPAWNS) {
                (spawns.len() - pc - npc) as i32
            } else {
                -1i32
            })
            &&& s.item_count == (if has_bit(request, IPT_GROUND) {
                d.ground_items@.len() as i32
            } else {
                -1i32
            })
            &&& s.patch_date@.len() == 0 && s.status_text@.len() == 0
            &&& s.primary_address@.len() == 0 && !s.clear_zone_and_name && s.port == 0
            &&& s.spawn_list_addr@.len() == 0 && s.self_addr@.len() == 0
            &&& s.target_addr@.len() == 0 && s.zone_name_addr@.len() == 0
            &&& s.ground_addr@.len() == 0 && s.world_addr@.len() == 0
        }
    }
}

/// Copies of the provider's records with `flags` set.
fn flagged(src: &Vec<SpawnRecord>, flags: u32, out: &mut Vec<SpawnRecord>)
    ensures
        final(out)@ == old(out)@ + src@.map_values(|r: SpawnRecord| with_flags(r, flags)),
{
    let ghost start = out@;
    let mut i: usize = 0;
    while i < src.len()
        invariant
            i <= src@.len(),
            out@ == start + src@.take(i as int).map_values(|r: SpawnRecord| with_flags(r, flags)),
        decreases src@.len() - i,
    {
        let mut r = src[i];
        r.flags = flags;
        out.push(r);
        i = i + 1;
        assert(src@.take(i as int).drop_last() =~= src@.take(i - 1));
    }
    assert(src@.take(i as int) =~= src@);
}

/// Counts of player, NPC and other (corpse) spawn types, as `usize`.
fn count_types(s: &Vec<SpawnRecord>) -> (r: (usize, usize, usize))
    ensures
        r.0 == count_type(s@, 0),
        r.1 == count_type(s@, 1),
        r.2 == s@.len() - count_type(s@, 0) - count_type(s@, 1),
{
    let mut pc: usize = 0;
    let mut npc: usize = 0;
    let mut other: usize = 0;
    let mut i: usize = 0;
    while i < s.len()
        invariant
            i <= s@.len(),
            pc == count_type(s@.take(i as int), 0),
            npc == count_type(s@.take(i as int), 1),
            pc + npc + other == i,
        decreases s@.len() - i,
    {
        proof {
            assert(s@.take(i + 1).drop_last() =~= s@.take(i as int));
        }
        let t = s[i].spawn_type;
        if t == 0 {
            pc = pc + 1;
        } else if t == 1 {
            npc = npc + 1;
        } else {
            other = other + 1;
        }
        i = i + 1;
    }
    assert(s@.take(i as int) =~= s@);
    (pc, npc, other)
}

/// `n` taken as `i32` (wrapping, as a count that overflowed would).
#[verifier::truncate]
fn as_count(n: usize) -> (r: i32)
    ensures
        r == n as i32,
{
    #[verifier::truncate]
    (n as i32)
}

/// `r` and `after` are what answering `request` with provider data `d`
/// gives from session `before`.
///
/// After an `IPT_SETPROC` request the next 4 bytes are a process id: no
/// response is sent for either.  Otherwise the response holds the records
/// of `response_records` and the update of `response_status`, and the
/// session remembers the zone name when it was asked for.
pub open spec fn answered(
    before: ClientSession,
    request: i32,
    d: ProviderData,
    r: Option<Response>,
    after: ClientSession,
) -> bool {
    if before.change_process {
        r is None && !after.change_process && after.zone_name@ == before.zone_name@
    } else if has_bit(request, IPT_SETPROC) {
        r is None && after.change_process && after.zone_name@ == before.zone_name@
    } else {
        &&& r is Some
        &&& !after.change_process
        &&& after.zone_name@ == (if has_bit(request, IPT_ZONE) {
            d.zone_name@
        } else {
            before.zone_name@
        })
        &&& response_records(before.zone_name@, request, d, r->0.records@)
        &&& response_status(after.zone_name@, request, d, r->0.status)
    }
}

/// The zone record for `zone`: its name truncated to 29 bytes, flagged
/// `OPT_ZONE`.
fn zone_record(zone: &String) -> (rec: SpawnRecord)
    ensures
        is_zone_record(rec, encode_utf8(zone@)),
{
    let mut rec = SpawnRecord::zeroed();
    write_str(zone.as_str(), &mut rec.name);
    rec.flags = OPT_ZONE;
    proof {
        let b = encode_utf8(zone@);
        let n: int = if b.len() < 29 {
            b.len() as int
        } else {
            29
        };
        assert(rec.name@ =~= rec.name@.take(n) + rec.name@.skip(n));
        assert(zero_bytes(30).skip(n) =~= Seq::new((30 - n) as nat, |i: int| 0u8));
        assert(rec.name@ =~= name_field(b));
    }
    rec
}

/// Appends one process record per pid when `IPT_GETPROC` is set.
fn push_processes(request: i32, d: &ProviderData, out: &mut Vec<SpawnRecord>)
    ensures
        final(out)@ == old(out)@ + process_part(request, *d),
{
    if request & IPT_GETPROC != 0 {
        let ghost start = out@;
        let mut i: usize = 0;
        while i < d.processes.len()
            invariant
                i <= d.processes@.len(),
                out@ == start + d.processes@.take(i as int).map_values(
                    |p: u32| process_record(p),
                ),
            decreases d.processes@.len() - i,
        {
            let mut rec = SpawnRecord::zeroed();
            rec.id = d.processes[i];
            rec.flags = OPT_PROCESS;
            out.push(rec);
            i = i + 1;
            assert(d.processes@.take(i as int).drop_last() =~= d.processes@.take(i - 1));
        }
        assert(d.processes@.take(i as int) =~= d.processes@);
    } else {
        assert(out@ =~= old(out)@ + process_part(request, *d));
    }
}

fn push_self(request: i32, d: &ProviderData, out: &mut Vec<SpawnRecord>)
    ensures
        final(out)@ == old(out)@ + self_part(request, *d),
{
    if request & IPT_SELF != 0 {
        match d.self_spawn {
            Some(s) => {
                let mut rec = s;
                rec.flags = OPT_SELF;
                out.push(rec);
            },
            None => {},
        }
    }
    assert(out@ =~= old(out)@ + self_part(request, *d));
}

fn push_spawns(request: i32, d: &ProviderData, out: &mut Vec<SpawnRecord>)
    ensures
        final(out)@ == old(out)@ + spawn_part(request, *d),
{
    if request & IPT_SPAWNS != 0 {
        flagged(&d.spawn_list, OPT_SPAWNS, out);
    }
    assert(out@ =~= old(out)@ + spawn_part(request, *d));
}

fn push_target(request: i32, d: &ProviderData, out: &mut Vec<SpawnRecord>)
    ensures
        final(out)@ == old(out)@ + target_part(request, *d),
{
    if request & IPT_TARGET != 0 {
        let rec = match d.target {
            Some(t) => {
                let mut r = t;
                r.flags = OPT_TARGET;
                r
            },
            None => {
                let mut r = SpawnRecord::zeroed();
                r.id = 99999;
                r.flags = OPT_TARGET;
                r
            },
        };
        out.push(rec);
    }
    assert(out@ =~= old(out)@ + target_part(request, *d));
}

fn push_ground(request: i32, d: &ProviderData, out: &mut Vec<SpawnRecord>)
    ensures
        final(out)@ == old(out)@ + ground_part(request, *d),
{
    if request & IPT_GROUND != 0 {
        flagged(&d.ground_items, OPT_GROUND, out);
    }
    assert(out@ =~= old(out)@ + ground_part(request, *d));
}

fn push_world(request: i32, d: &ProviderData, out: &mut Vec<SpawnRecord>)
    ensures
        final(out)@ == old(out)@ + world_part(request, *d),
{
    if request & IPT_WORLD != 0 {
        match d.world_time {
            Some(wt) => {
                out.push(world_time_to_record(wt));
            },
            None => {},
        }
    }
    assert(out@ =~= old(out)@ + world_part(request, *d));
}

/// Appends the self, spawn, target, ground and world records.
fn push_tail(request: i32, d: &ProviderData, out: &mut Vec<SpawnRecord>)
    ensures
        final(out)@ == old(out)@ + tail_part(request, *d),
{
    let ghost start = out@;
    push_self(request, d, out);
    push_spawns(request, d, out);
    push_target(request, d, out);
    push_ground(request, d, out);
    push_world(request, d, out);
    proof {
        let a = self_part(request, *d);
        let b = spawn_part(request, *d);
        let c = target_part(request, *d);
        let e = ground_part(request, *d);
        let f = world_part(request, *d);
        assert(start + a + b + c + e + f =~= start + (a + b + c + e + f));
    }
}

/// The records answering `request` when `zone_before` was the last zone sent.
fn build_records(zone_before: &String, request: i32, d: &ProviderData) -> (out: Vec<SpawnRecord>)
    ensures
        response_records(zone_before@, request, *d, out@),
{
    let mut out: Vec<SpawnRecord> = Vec::new();
    push_processes(request, d, &mut out);
    let ghost p = out@;
    assert(p =~= process_part(request, *d));
    let sent = request & IPT_ZONE != 0 && !(d.zone_name == *zone_before);
    if sent {
        out.push(zone_record(&d.zone_name));
    }
    let ghost after_zone = out@;
    push_tail(request, d, &mut out);
    proof {
        let t = tail_part(request, *d);
        if sent {
            assert(out@.take(p.len() as int) =~= p);
            assert(out@[p.len() as int] == after_zone[p.len() as int]);
            assert(out@.skip(p.len() + 1int) =~= t);
        } else {
            assert(out@ =~= p + t);
        }
    }
    out
}

/// The status update for `request`, `zone_after` being the session's zone
/// once the request is answered.
fn build_status(zone_after: &String, request: i32, d: &ProviderData) -> (st: Option<StatusSnapshot>)
    ensures
        response_status(zone_after@, request, *d, st),
{
    let mut snap = default_snapshot();
    let mut dirty = false;
    if request & IPT_ZONE != 0 {
        snap.zone = zone_after.clone();
        dirty = true;
    }
    if request & IPT_SELF != 0 {
        match d.self_spawn {
            Some(s) => {
                snap.character_name = name_from_bytes(&s.name);
                dirty = true;
            },
            None => {},
        }
    }
    if request & IPT_SPAWNS != 0 {
        let (pc, npc, other) = count_types(&d.spawn_list);
        snap.npc_count = as_count(npc);
        snap.pc_count = as_count(pc);
        snap.corpse_count = as_count(other);
        dirty = true;
    }
    if request & IPT_GROUND != 0 {
        snap.item_count = as_count(d.ground_items.len());
        dirty = true;
    }
    if dirty {
        Some(snap)
    } else {
        None
    }
}

impl ClientSession {
    /// A fresh connection: last zone `"StartUp"`, no process switch pending.
    pub fn new() -> (s: Self)
        ensures
            s.zone_name@ == "StartUp"@,
            !s.change_process,
    {
        ClientSession { zone_name: String::from_str("StartUp"), change_process: false }
    }

    /// Answer one request from what the provider returned (see `answered`).
    pub fn answer(&mut self, request: i32, d: &ProviderData) -> (r: Option<Response>)
        ensures
            answered(*old(self), request, *d, r, *final(self)),
    {
        if self.change_process {
            self.change_process = false;
            return None;
        }
        if request & IPT_SETPROC != 0 {
            self.change_process = true;
            return None;
        }
        let records = build_records(&self.zone_name, request, d);
        if request & IPT_ZONE != 0 {
            self.zone_name = d.zone_name.clone();
        }
        let status = build_status(&self.zone_name, request, d);
        Some(Response { records, status })
    }

    /// Read one request and answer it, asking `provider` only for what the
    /// request names.  Whatever the provider returns, the answer is the one
    /// `answer` gives for those values.
    pub fn respond<P: DataProvider>(&mut self, request: i32, provider: &P) -> (r: Option<Response>)
        ensures
            old(self).change_process || has_bit(request, IPT_SETPROC) <==> r is None,
            exists|d: ProviderData| #[trigger] answered(*old(self), request, d, r, *final(self)),
    {
        let pending = self.change_process;
        let processes = if !pending && request & IPT_GETPROC != 0 {
            provider.processes()
        } else {
            Vec::new()
        };
        if pending || request & IPT_SETPROC != 0 {
            let d = ProviderData {
                zone_name: String::new(),
                self_spawn: None,
                spawn_list: Vec::new(),
                target: None,
                ground_items: Vec::new(),
                world_time: None,
                processes,
            };
            return self.answer(request, &d);
        }
        let zone_name = if request & IPT_ZONE != 0 {
            provider.zone_name()
        } else {
            String::new()
        };
        let self_spawn = if request & IPT_SELF != 0 {
            provider.self_spawn()
        } else {
            None
        };
        let spawn_list = if request & IPT_SPAWNS != 0 {
            provider.spawn_list()
        } else {
            Vec::new()
        };
        let target = if request & IPT_TARGET != 0 {
            provider.target()
        } else {
            None
        };
        let ground_items = if request & IPT_GROUND != 0 {
            provider.ground_items()
        } else {
            Vec::new()
        };
        let world_time = if request & IPT_WORLD != 0 {
            provider.world_time()
        } else {
            None
        };
        let d = ProviderData {
            zone_name,
            self_spawn,
            spawn_list,
            target,
            ground_items,
            world_time,
            processes,
        };
        self.answer(request, &d)
    }
}

/// The accept loop's configuration: the port to listen on and where to
/// report status (a `UiNotifier`, usually shared).  The loop itself runs
/// in the server program.
pub struct NetworkServer<N> {
    pub port: u16,
    pub notifier: Option<N>,
}

impl<N> NetworkServer<N> {
    pub fn new(port: u16) -> (s: Self)
        ensures
            s.port == port,
            s.notifier is None,
    {
        NetworkServer { port, notifier: None }
    }

    pub fn set_notifier(&mut self, n: N)
        ensures
            final(self).port == old(self).port,
            final(self).notifier == Some(n),
    {
        self.notifier = Some(n);
    }
}

/// Fixed data for exercising a client without a game running: zone
/// `stubzone`, a level-60 player at (100, 200, 0), one level-30 NPC at
/// (150, 250, 0), no target, no ground items, 8:00 on 1/1/3100.
pub struct StubDataProvider;

/// `f32` bit patterns of the stub's coordinates.
pub const STUB_100: u32 = 0x42C8_0000;
pub const STUB_150: u32 = 0x4316_0000;
pub const STUB_200: u32 = 0x4348_0000;
pub const STUB_250: u32 = 0x437A_0000;

impl DataProvider for StubDataProvider {
    fn zone_name(&self) -> (s: String)
        ensures
            s@ == "stubzone"@,
    {
        String::from_str("stubzone")
    }

    fn self_spawn(&self) -> (r: Option<SpawnRecord>)
        ensures
            r matches Some(rec) && rec.x == STUB_100 && rec.y == STUB_200 && rec.z == 0 && rec.id
                == 1 && rec.level == 60 && rec.spawn_type == 1,
    {
        let mut rec = SpawnRecord::zeroed();
        write_str("Player", &mut rec.name);
        rec.x = STUB_100;
        rec.y = STUB_200;
        rec.z = 0;
        rec.id = 1;
        rec.level = 60;
        rec.spawn_type = 1;
        Some(rec)
    }

    fn spawn_list(&self) -> (v: Vec<SpawnRecord>)
        ensures
            v@.len() == 1,
            v@[0].x == STUB_150 && v@[0].y == STUB_250 && v@[0].z == 0 && v@[0].id == 2
                && v@[0].level == 30 && v@[0].spawn_type == 1,
    {
        let mut npc = SpawnRecord::zeroed();
        write_str("StubNPC", &mut npc.name);
        npc.x = STUB_150;
        npc.y = STUB_250;
        npc.z = 0;
        npc.id = 2;
        npc.level = 30;
        npc.spawn_type = 1;
        let mut v: Vec<SpawnRecord> = Vec::new();
        v.push(npc);
        v
    }

    fn target(&self) -> (r: Option<SpawnRecord>)
        ensures
            r is None,
    {
        None
    }

    fn ground_items(&self) -> (v: Vec<SpawnRecord>)
        ensures
            v@.len() == 0,
    {
        Vec::new()
    }

    fn world_time(&self) -> (r: Option<WorldTime>)
        ensures
            r == Some(WorldTime { hour: 8, minute: 0, day: 1, month: 1, year: 3100 }),
    {
        Some(WorldTime { hour: 8, minute: 0, day: 1, month: 1, year: 3100 })
    }

    fn processes(&self) -> (v: Vec<u32>)
        ensures
            v@.len() == 0,
    {
        Vec::new()
    }
}

/// A zone name of at most 29 ASCII characters, none of them NUL, comes
/// back unchanged from the zone record the server sends for it: the client
/// reads the bytes before the first NUL as characters.
pub proof fn law_zone_name_round_trip(z: Seq<char>, r: SpawnRecord)
    requires
        is_zone_record(r, encode_utf8(z)),
        is_ascii_chars(z),
        forall|i: int| 0 <= i < z.len() ==> z[i] != '\0',
        z.len() <= 29,
    ensures
        ascii_bytes(cstr(r.name@)),
        latin_chars(cstr(r.name@)) == z,
{
    is_ascii_chars_encode_utf8(z);
    let b = encode_utf8(z);
    let n = z.len() as int;
    assert(r.name@.take(n) =~= b);
    assert forall|j: int| 0 <= j < n implies r.name@[j] != 0 by {
        assert(r.name@[j] == b[j]);
        assert(z[j] as u8 == b[j]);
    }
    lemma_nul_pos_is(r.name@, n);
    assert(cstr(r.name@) =~= b);
    assert forall|j: int| 0 <= j < n implies #[trigger] b[j] < 128 by {
        assert(z[j] as u8 == b[j]);
    }
    assert(latin_chars(b) =~= z);
}

/// The packed bytes of `records`, one after another.
pub open spec fn records_bytes(records: Seq<SpawnRecord>) -> Seq<u8>
    decreases records.len(),
{
    if records.len() == 0 {
        Seq::empty()
    } else {
        records_bytes(records.drop_last()) + record_bytes(records.last())
    }
}

/// The bytes of a response: the record count as a little-endian `i32`
/// (the count's low 32 bits), then each record's 100 packed bytes.
pub open spec fn response_bytes(records: Seq<SpawnRecord>) -> Seq<u8> {
    le32(records.len() as u32) + records_bytes(records)
}

/// The bytes that answer a request carrying `records`.
pub fn flush_records(records: &[SpawnRecord]) -> (out: Vec<u8>)
    ensures
        out@ == response_bytes(records@),
{
    let mut out: Vec<u8> = Vec::new();
    push_u32_le(&mut out, count_u32(records.len()));
    let mut i: usize = 0;
    while i < records.len()
        invariant
            i <= records@.len(),
            out@ == le32(records@.len() as u32) + records_bytes(records@.take(i as int)),
        decreases records@.len() - i,
    {
        let b = records[i].as_bytes();
        push_bytes(&mut out, b.as_slice());
        proof {
            assert(records@.take(i + 1).drop_last() =~= records@.take(i as int));
        }
        i = i + 1;
    }
    assert(records@.take(i as int) =~= records@);
    out
}

/// `n` taken as `u32` (its low 32 bits).
#[verifier::truncate]
fn count_u32(n: usize) -> (r: u32)
    ensures
        r == n as u32,
{
    #[verifier::truncate]
    (n as u32)
}

/// In the records after the zone record, only the target slot (at the
/// index after self and spawns) carries `OPT_TARGET`, and when the target
/// bit is set that slot holds the provider's target reflagged, or the
/// all-zero record with id 99999 when there is none.
proof fn lemma_tail_target(request: i32, d: ProviderData)
    requires
        has_bit(request, IPT_TARGET),
    ensures
        ({
            let t = tail_part(request, d);
            let k = self_part(request, d).len() + spawn_part(request, d).len();
            &&& 0 <= k < t.len()
            &&& t[k as int].flags == OPT_TARGET
            &&& (d.target matches Some(tg) ==> t[k as int] == (SpawnRecord { flags: OPT_TARGET, ..tg }))
            &&& (d.target is None ==> t[k as int].id == 99999 && is_zeroed(
                SpawnRecord { id: 0, flags: 0, ..t[k as int] },
            ))
            &&& forall|j: int| 0 <= j < t.len() && #[trigger] t[j].flags == OPT_TARGET ==> j == k
        }),
{
    broadcast use vstd::array::axiom_spec_array_fill_for_copy_type, vstd::array::axiom_array_ext_equal;
    let a = self_part(request, d);
    let b = spawn_part(request, d);
    let c = target_part(request, d);
    let g = ground_part(request, d);
    let w = world_part(request, d);
    let t = tail_part(request, d);
    assert(t == a + b + c + g + w);
    let k = a.len() + b.len();
    assert(c.len() == 1);
    assert(t[k as int] == c[0]);
    if d.target is None {
        let z = SpawnRecord { id: 0, flags: 0, ..c[0] };
        assert(z.name@ =~= zero_bytes(30));
        assert(z.last_name@ =~= zero_bytes(22));
    }
    assert forall|j: int| 0 <= j < t.len() && #[trigger] t[j].flags == OPT_TARGET implies j == k by {
        if j < a.len() {
            assert(t[j] == a[j]);
        } else if j < a.len() + b.len() {
            assert(t[j] == b[j - a.len()]);
        } else if j < k + 1 {
        } else if j < k + 1 + g.len() {
            assert(t[j] == g[j - k - 1]);
        } else {
            assert(t[j] == w[j - k - 1 - g.len()]);
        }
    }
}

/// A request with the target bit always gets exactly one target record:
/// the provider's target, flagged `OPT_TARGET`, or, when there is no
/// target, the record with id 99999 and every other field zero, which
/// tells the client to clear its target.
pub proof fn law_target_always_answered(
    before: ClientSession,
    request: i32,
    d: ProviderData,
    r: Option<Response>,
    after: ClientSession,
)
    requires
        answered(before, request, d, r, after),
        !before.change_process,
        !has_bit(request, IPT_SETPROC),
        has_bit(request, IPT_TARGET),
    ensures
        r is Some,
        ({
            let out = r->0.records@;
            &&& exists|i: int|
                0 <= i < out.len() && #[trigger] out[i].flags == OPT_TARGET && (d.target matches Some(
                    tg,
                ) ==> out[i] == (SpawnRecord { flags: OPT_TARGET, ..tg })) && (d.target is None
                    ==> out[i].id == 99999 && is_zeroed(SpawnRecord { id: 0, flags: 0, ..out[i] }))
            &&& forall|i: int, j: int|
                0 <= i < out.len() && 0 <= j < out.len() && #[trigger] out[i].flags == OPT_TARGET
                    && #[trigger] out[j].flags == OPT_TARGET ==> i == j
        }),
{
    lemma_tail_target(request, d);
    let out = r->0.records@;
    let p = process_part(request, d);
    let t = tail_part(request, d);
    let k = self_part(request, d).len() + spawn_part(request, d).len();
    assert forall|j: int| 0 <= j < p.len() implies #[trigger] p[j].flags != OPT_TARGET by {
        if has_bit(request, IPT_GETPROC) {
            assert(p[j] == process_record(d.processes@[j]));
        }
    }
    let base: int = if zone_sent(before.zone_name@, request, d) {
        p.len() + 1int
    } else {
        p.len() as int
    };
    if zone_sent(before.zone_name@, request, d) {
        assert forall|j: int| 0 <= j < t.len() implies out[base + j] == t[j] by {
            assert(out.skip(p.len() + 1int)[j] == out[base + j]);
        }
        assert forall|j: int| 0 <= j < p.len() implies out[j] == p[j] by {
            assert(out.take(p.len() as int)[j] == out[j]);
        }
        let zr = out[p.len() as int];
        assert(zr.flags == (SpawnRecord { name: blank_record().name, ..zr }).flags);
    } else {
        assert forall|j: int| 0 <= j < t.len() implies out[base + j] == t[j] by {}
        assert forall|j: int| 0 <= j < p.len() implies out[j] == p[j] by {}
    }
    assert(out.len() == base + t.len());
    assert(out[base + k] == t[k as int]);
    assert forall|i: int| 0 <= i < out.len() && #[trigger] out[i].flags == OPT_TARGET implies i == base + k by {
        if i < p.len() {
            assert(out[i] == p[i]);
        } else if i < base {
            let zr = out[p.len() as int];
            assert(zr.flags == (SpawnRecord { name: blank_record().name, ..zr }).flags);
        } else {
            assert(out[i] == t[i - base]);
        }
    }
}

proof fn lemma_tail_no_target(request: i32, d: ProviderData)
    requires
        !has_bit(request, IPT_TARGET),
    ensures
        forall|j: int| 0 <= j < tail_part(request, d).len() ==> #[trigger] tail_part(request, d)[j].flags != OPT_TARGET,
{
    let a = self_part(request, d);
    let b = spawn_part(request, d);
    let c = target_part(request, d);
    let g = ground_part(request, d);
    let w = world_part(request, d);
    let t = tail_part(request, d);
    assert(c.len() == 0);
    assert(t =~= a + b + g + w);
    assert forall|j: int| 0 <= j < t.len() implies #[trigger] t[j].flags != OPT_TARGET by {
        if j < a.len() {
            assert(t[j] == a[j]);
        } else if j < a.len() + b.len() {
            assert(t[j] == b[j - a.len()]);
        } else if j < a.len() + b.len() + g.len() {
            assert(t[j] == g[j - a.len() - b.len()]);
        } else {
            assert(t[j] == w[j - a.len() - b.len() - g.len()]);
        }
    }
}

/// Without the target bit no record of the response is a target record.
pub proof fn law_no_target_without_bit(
    before: ClientSession,
    request: i32,
    d: ProviderData,
    r: Option<Response>,
    after: ClientSession,
)
    requires
        answered(before, request, d, r, after),
        r is Some,
        !has_bit(request, IPT_TARGET),
    ensures
        forall|i: int| 0 <= i < r->0.records@.len() ==> #[trigger] r->0.records@[i].flags != OPT_TARGET,
{
    lemma_tail_no_target(request, d);
    let out = r->0.records@;
    let p = process_part(request, d);
    let t = tail_part(request, d);
    assert forall|j: int| 0 <= j < p.len() implies #[trigger] p[j].flags != OPT_TARGET by {
        if has_bit(request, IPT_GETPROC) {
            assert(p[j] == process_record(d.processes@[j]));
        }
    }
    if zone_sent(before.zone_name@, request, d) {
        assert forall|i: int| 0 <= i < out.len() implies #[trigger] out[i].flags != OPT_TARGET by {
            if i < p.len() {
                assert(out.take(p.len() as int)[i] == out[i]);
            } else if i == p.len() {
                let zr = out[p.len() as int];
                assert(zr.flags == (SpawnRecord { name: blank_record().name, ..zr }).flags);
            } else {
                assert(out.skip(p.len() + 1int)[i - p.len() - 1] == out[i]);
            }
        }
    } else {
        assert forall|i: int| 0 <= i < out.len() implies #[trigger] out[i].flags != OPT_TARGET by {
            if i >= p.len() {
                assert(out[i] == t[i - p.len()]);
            }
        }
    }
}

} // verus!

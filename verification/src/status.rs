//! Server status as the UI sees it: status snapshots and how they merge,
//! connection events, the session state machine's events, and the GUI's
//! capped, timestamped log.
use vstd::prelude::*;
use std::collections::VecDeque;
use crate::text::{chars_of, dec_chars_padded, dec_seq, hex_chars, hex_seq, pad_left, push_all, string_of};
use crate::offsets::PrimaryOffsets;

verus! {

/// Snapshot of server status delivered to the UI.  Counts of `-1` and
/// empty strings mean "not updated".
#[derive(Debug, Clone)]
pub struct StatusSnapshot {
    pub patch_date: String,
    pub status_text: String,
    pub zone: String,
    pub character_name: String,
    pub primary_address: String,
    /// When true, the UI blanks the zone and character name.
    pub clear_zone_and_name: bool,
    pub port: u32,
    pub npc_count: i32,
    pub pc_count: i32,
    pub corpse_count: i32,
    pub item_count: i32,
    pub spawn_list_addr: String,
    pub self_addr: String,
    pub target_addr: String,
    pub zone_name_addr: String,
    pub ground_addr: String,
    pub world_addr: String,
}

/// Every string empty, every count `-1`, port 0, no clearing.
pub open spec fn is_default_snapshot(s: StatusSnapshot) -> bool {
    &&& s.patch_date@.len() == 0 && s.status_text@.len() == 0 && s.zone@.len() == 0
    &&& s.character_name@.len() == 0 && s.primary_address@.len() == 0
    &&& !s.clear_zone_and_name && s.port == 0
    &&& s.npc_count == -1 && s.pc_count == -1 && s.corpse_count == -1 && s.item_count == -1
    &&& s.spawn_list_addr@.len() == 0 && s.self_addr@.len() == 0 && s.target_addr@.len() == 0
    &&& s.zone_name_addr@.len() == 0 && s.ground_addr@.len() == 0 && s.world_addr@.len() == 0
}

/// The snapshot with nothing updated.
pub fn default_snapshot() -> (s: StatusSnapshot)
    ensures
        is_default_snapshot(s),
{
    StatusSnapshot {
        patch_date: String::new(),
        status_text: String::new(),
        zone: String::new(),
        character_name: String::new(),
        primary_address: String::new(),
        clear_zone_and_name: false,
        port: 0,
        npc_count: -1,
        pc_count: -1,
        corpse_count: -1,
        item_count: -1,
        spawn_list_addr: String::new(),
        self_addr: String::new(),
        target_addr: String::new(),
        zone_name_addr: String::new(),
        ground_addr: String::new(),
        world_addr: String::new(),
    }
}

impl Default for StatusSnapshot {
    fn default() -> (s: Self)
        ensures
            is_default_snapshot(s),
    {
        default_snapshot()
    }
}

/// `new` where it carries text, else `old`.
pub open spec fn keep_or(old: Seq<char>, new: Seq<char>) -> Seq<char> {
    if new.len() == 0 {
        old
    } else {
        new
    }
}

/// `new` where it is a set count (`>= 0`), else `old`.
pub open spec fn count_or(old: i32, new: i32) -> i32 {
    if new >= 0 {
        new
    } else {
        old
    }
}

/// `r` is `a` merged with `b`: each field of `b` that carries a value
/// replaces `a`'s; `clear_zone_and_name` in `b` blanks zone and name.
pub open spec fn merged(a: StatusSnapshot, b: StatusSnapshot, r: StatusSnapshot) -> bool {
    &&& r.patch_date@ == keep_or(a.patch_date@, b.patch_date@)
    &&& r.status_text@ == keep_or(a.status_text@, b.status_text@)
    &&& r.primary_address@ == keep_or(a.primary_address@, b.primary_address@)
    &&& r.port == (if b.port != 0 {
        b.port
    } else {
        a.port
    })
    &&& r.spawn_list_addr@ == keep_or(a.spawn_list_addr@, b.spawn_list_addr@)
    &&& r.self_addr@ == keep_or(a.self_addr@, b.self_addr@)
    &&& r.target_addr@ == keep_or(a.target_addr@, b.target_addr@)
    &&& r.zone_name_addr@ == keep_or(a.zone_name_addr@, b.zone_name_addr@)
    &&& r.ground_addr@ == keep_or(a.ground_addr@, b.ground_addr@)
    &&& r.world_addr@ == keep_or(a.world_addr@, b.world_addr@)
    &&& r.npc_count == count_or(a.npc_count, b.npc_count)
    &&& r.pc_count == count_or(a.pc_count, b.pc_count)
    &&& r.corpse_count == count_or(a.corpse_count, b.corpse_count)
    &&& r.item_count == count_or(a.item_count, b.item_count)
    &&& r.clear_zone_and_name == b.clear_zone_and_name
    &&& r.zone@ == (if b.clear_zone_and_name {
        Seq::empty()
    } else {
        keep_or(a.zone@, b.zone@)
    })
    &&& r.character_name@ == (if b.clear_zone_and_name {
        Seq::empty()
    } else {
        keep_or(a.character_name@, b.character_name@)
    })
}

/// The two snapshots agree on every field.
pub open spec fn same_snapshot(a: StatusSnapshot, b: StatusSnapshot) -> bool {
    &&& a.patch_date@ == b.patch_date@ && a.status_text@ == b.status_text@
    &&& a.zone@ == b.zone@ && a.character_name@ == b.character_name@
    &&& a.primary_address@ == b.primary_address@
    &&& a.clear_zone_and_name == b.clear_zone_and_name && a.port == b.port
    &&& a.npc_count == b.npc_count && a.pc_count == b.pc_count
    &&& a.corpse_count == b.corpse_count && a.item_count == b.item_count
    &&& a.spawn_list_addr@ == b.spawn_list_addr@ && a.self_addr@ == b.self_addr@
    &&& a.target_addr@ == b.target_addr@ && a.zone_name_addr@ == b.zone_name_addr@
    &&& a.ground_addr@ == b.ground_addr@ && a.world_addr@ == b.world_addr@
}

/// Take `src` when it carries text.
fn merge_text(dst: &mut String, src: &String)
    ensures
        final(dst)@ == keep_or(old(dst)@, src@),
{
    if !src.as_str().is_empty() {
        *dst = src.clone();
    }
}

impl StatusSnapshot {
    /// Merge `other` into `self`, updating only fields that carry values.
    pub fn merge_from(&mut self, other: &StatusSnapshot)
        ensures
            merged(*old(self), *other, *final(self)),
    {
        merge_text(&mut self.patch_date, &other.patch_date);
        merge_text(&mut self.status_text, &other.status_text);
        merge_text(&mut self.primary_address, &other.primary_address);
        if other.port != 0 {
            self.port = other.port;
        }
        merge_text(&mut self.spawn_list_addr, &other.spawn_list_addr);
        merge_text(&mut self.self_addr, &other.self_addr);
        merge_text(&mut self.target_addr, &other.target_addr);
        merge_text(&mut self.zone_name_addr, &other.zone_name_addr);
        merge_text(&mut self.ground_addr, &other.ground_addr);
        merge_text(&mut self.world_addr, &other.world_addr);
        if other.npc_count >= 0 {
            self.npc_count = other.npc_count;
        }
        if other.pc_count >= 0 {
            self.pc_count = other.pc_count;
        }
        if other.corpse_count >= 0 {
            self.corpse_count = other.corpse_count;
        }
        if other.item_count >= 0 {
            self.item_count = other.item_count;
        }
        if other.clear_zone_and_name {
            self.clear_zone_and_name = true;
            self.zone = String::new();
            self.character_name = String::new();
        } else {
            self.clear_zone_and_name = false;
            merge_text(&mut self.zone, &other.zone);
            merge_text(&mut self.character_name, &other.character_name);
        }
    }
}

/// Merging a snapshot that updates nothing changes nothing but the
/// clearing flag, which it resets.
pub proof fn law_merge_default_keeps(a: StatusSnapshot, b: StatusSnapshot, r: StatusSnapshot)
    requires
        is_default_snapshot(b),
        merged(a, b, r),
    ensures
        same_snapshot(r, StatusSnapshot { clear_zone_and_name: false, ..a }),
{
}

/// Merging the same update twice gives what merging it once gave.
pub proof fn law_merge_idempotent(
    a: StatusSnapshot,
    b: StatusSnapshot,
    r1: StatusSnapshot,
    r2: StatusSnapshot,
)
    requires
        merged(a, b, r1),
        merged(r1, b, r2),
    ensures
        same_snapshot(r1, r2),
{
}

/// Connection state change delivered to the UI.
#[derive(Debug, Clone)]
pub struct ConnectionEvent {
    pub connected: bool,
    pub listening: bool,
    pub paused: bool,
    pub error: bool,
    pub error_message: String,
}

impl Default for ConnectionEvent {
    fn default() -> (e: Self)
        ensures
            !e.connected && !e.listening && !e.paused && !e.error,
            e.error_message@.len() == 0,
    {
        ConnectionEvent {
            connected: false,
            listening: false,
            paused: false,
            error: false,
            error_message: String::new(),
        }
    }
}

/// Receives status, messages and connection changes from the server.
/// Implemented by the console and GUI front ends.
pub trait UiNotifier {
    fn on_status_update(&self, snapshot: &StatusSnapshot);

    fn on_info(&self, title: &str, message: &str);

    fn on_error(&self, title: &str, message: &str);

    fn on_connection_changed(&self, event: &ConnectionEvent);

    fn on_log_event(&self, message: &str);
}

/// Headless notifier that optionally logs to standard output.
pub struct LoggingNotifier {
    pub log_to_stdout: bool,
}

impl LoggingNotifier {
    pub fn new(log_to_stdout: bool) -> (n: Self)
        ensures
            n.log_to_stdout == log_to_stdout,
    {
        LoggingNotifier { log_to_stdout }
    }
}

/// Server session state.
#[derive(Debug, Clone, Copy, PartialEq, Eq, Structural)]
pub enum SessionState {
    Idle,
    Starting,
    Listening,
    Connected,
    Stopping,
    Error,
    Paused,
}

/// The server's runtime mode.
#[derive(Debug, Clone, Copy, PartialEq, Eq, Structural)]
pub enum SessionMode {
    Interactive,
    Console,
    WindowsService,
    Debug,
}

/// The event announced on entering `state`: listening, connected and
/// paused set their flag; error sets its flag and carries `last_error`;
/// every other state announces an event with nothing set.
pub fn connection_event_for(state: SessionState, last_error: &String) -> (e: ConnectionEvent)
    ensures
        e.listening == (state == SessionState::Listening),
        e.connected == (state == SessionState::Connected),
        e.paused == (state == SessionState::Paused),
        e.error == (state == SessionState::Error),
        e.error_message@ == (if state == SessionState::Error {
            last_error@
        } else {
            Seq::empty()
        }),
{
    let mut e = ConnectionEvent::default();
    match state {
        SessionState::Listening => {
            e.listening = true;
        },
        SessionState::Connected => {
            e.connected = true;
        },
        SessionState::Paused => {
            e.paused = true;
        },
        SessionState::Error => {
            e.error = true;
            e.error_message = last_error.clone();
        },
        _ => {},
    }
    e
}

/// The state a UI shows for an event: error first, then connected,
/// listening, paused, else idle.
pub open spec fn state_of_event(e: ConnectionEvent) -> SessionState {
    if e.error {
        SessionState::Error
    } else if e.connected {
        SessionState::Connected
    } else if e.listening {
        SessionState::Listening
    } else if e.paused {
        SessionState::Paused
    } else {
        SessionState::Idle
    }
}

/// The session state the GUI shows for an event.
pub fn session_state_for(e: &ConnectionEvent) -> (s: SessionState)
    ensures
        s == state_of_event(*e),
{
    if e.error {
        SessionState::Error
    } else if e.connected {
        SessionState::Connected
    } else if e.listening {
        SessionState::Listening
    } else if e.paused {
        SessionState::Paused
    } else {
        SessionState::Idle
    }
}

/// The GUI shows the state the session announced; the transitional
/// states (starting, stopping) show as idle.
pub proof fn law_event_round_trip(state: SessionState, e: ConnectionEvent)
    requires
        e.listening == (state == SessionState::Listening),
        e.connected == (state == SessionState::Connected),
        e.paused == (state == SessionState::Paused),
        e.error == (state == SessionState::Error),
    ensures
        state_of_event(e) == (match state {
            SessionState::Starting | SessionState::Stopping => SessionState::Idle,
            _ => state,
        }),
{
}

/// Log lines kept by the GUI.
pub const LOG_CAP: usize = 200;

/// Shared state written by the server thread and read each GUI frame.
pub struct GuiState {
    pub snapshot: StatusSnapshot,
    pub session_state: SessionState,
    /// Timestamped log lines, at most `LOG_CAP` of them, oldest first.
    pub log: VecDeque<String>,
}

impl Default for GuiState {
    fn default() -> (g: Self)
        ensures
            is_default_snapshot(g.snapshot),
            g.session_state == SessionState::Idle,
            g.log@.len() == 0,
    {
        GuiState {
            snapshot: default_snapshot(),
            session_state: SessionState::Idle,
            log: VecDeque::new(),
        }
    }
}

/// `[hh:mm:ss] message` for `secs` seconds since the epoch (UTC).
pub open spec fn log_line(secs: u64, message: Seq<char>) -> Seq<char> {
    seq!['['] + pad_left(dec_seq(((secs / 3600) % 24) as nat), 2, '0') + seq![':'] + pad_left(
        dec_seq(((secs / 60) % 60) as nat),
        2,
        '0',
    ) + seq![':'] + pad_left(dec_seq((secs % 60) as nat), 2, '0') + seq![']', ' '] + message
}

/// The text of each log line.
pub open spec fn log_view(log: Seq<String>) -> Seq<Seq<char>> {
    log.map_values(|s: String| s@)
}

/// The last `LOG_CAP` entries of `log`.
pub open spec fn capped(log: Seq<Seq<char>>) -> Seq<Seq<char>> {
    if log.len() > LOG_CAP {
        log.skip(log.len() - LOG_CAP)
    } else {
        log
    }
}

/// Seconds since the Unix epoch, from the system clock (0 when the clock
/// reads before the epoch).  Nothing is known of the value.
#[verifier::external_body]
fn now_secs() -> u64 {
    std::time::SystemTime::now().duration_since(std::time::UNIX_EPOCH).map(|d| d.as_secs()).unwrap_or(0)
}

impl GuiState {
    /// Append `message` stamped with the current time of day.
    pub fn push_log(&mut self, message: &str)
        ensures
            exists|secs: u64|
                #![trigger log_line(secs, message@)]
                log_view(final(self).log@) == capped(log_view(old(self).log@).push(log_line(secs, message@))),
            final(self).snapshot == old(self).snapshot,
            final(self).session_state == old(self).session_state,
    {
        let secs = now_secs();
        self.push_log_at(secs, message);
    }

    /// Append `message` stamped `[hh:mm:ss]` for `secs`, dropping the
    /// oldest lines beyond `LOG_CAP`.
    pub fn push_log_at(&mut self, secs: u64, message: &str)
        ensures
            log_view(final(self).log@) == capped(log_view(old(self).log@).push(log_line(secs, message@))),
            final(self).snapshot == old(self).snapshot,
            final(self).session_state == old(self).session_state,
    {
        let mut v: Vec<char> = Vec::new();
        v.push('[');
        let h = dec_chars_padded((secs / 3600) % 24, 2);
        push_all(&mut v, &h);
        v.push(':');
        let m = dec_chars_padded((secs / 60) % 60, 2);
        push_all(&mut v, &m);
        v.push(':');
        let s = dec_chars_padded(secs % 60, 2);
        push_all(&mut v, &s);
        v.push(']');
        v.push(' ');
        let msg = chars_of(message);
        push_all(&mut v, &msg);
        assert(v@ =~= log_line(secs, message@));
        let line = string_of(v.as_slice());
        let ghost before = self.log@;
        let ghost snap0 = self.snapshot;
        let ghost state0 = self.session_state;
        self.log.push_back(line);
        let ghost pushed = self.log@;
        while self.log.len() > LOG_CAP
            invariant
                self.snapshot == snap0,
                self.session_state == state0,
                pushed.len() >= self.log@.len(),
                self.log@ == pushed.skip(pushed.len() - self.log@.len()),
                pushed.len() > LOG_CAP ==> self.log@.len() >= LOG_CAP,
                pushed.len() <= LOG_CAP ==> self.log@ == pushed,
            decreases self.log@.len(),
        {
            let _ = self.log.pop_front();
        }
        proof {
            assert(log_view(pushed) =~= log_view(before).push(log_line(secs, message@)));
            if pushed.len() > LOG_CAP {
                assert(log_view(self.log@) =~= log_view(pushed).skip(pushed.len() - LOG_CAP));
            }
        }
    }
}

/// An address as the status shows it: `0x` and uppercase hex digits,
/// empty for 0 (unknown).
pub open spec fn addr_text(a: u64) -> Seq<char> {
    if a != 0 {
        "0x"@ + hex_seq(a as nat, true)
    } else {
        Seq::empty()
    }
}

pub fn addr_string(a: u64) -> (s: String)
    ensures
        s@ == addr_text(a),
{
    if a != 0 {
        let mut v = chars_of("0x");
        push_all(&mut v, &hex_chars(a, true));
        string_of(v.as_slice())
    } else {
        String::new()
    }
}

/// The snapshot a session starts with once its configuration is read:
/// the patch date, port, host address and the configured addresses, with
/// every count not yet known.
pub fn initial_snapshot(patch_date: &str, port: u32, primary_address: &str, o: &PrimaryOffsets) -> (s:
    StatusSnapshot)
    ensures
        s.patch_date@ == patch_date@,
        s.port == port,
        s.primary_address@ == primary_address@,
        s.spawn_list_addr@ == addr_text(o.spawn_list),
        s.self_addr@ == addr_text(o.self_addr),
        s.target_addr@ == addr_text(o.target),
        s.zone_name_addr@ == addr_text(o.zone_name),
        s.ground_addr@ == addr_text(o.ground),
        s.world_addr@ == addr_text(o.world),
        s.npc_count == -1 && s.pc_count == -1 && s.corpse_count == -1 && s.item_count == -1,
        s.status_text@.len() == 0 && s.zone@.len() == 0 && s.character_name@.len() == 0,
        !s.clear_zone_and_name,
{
    let mut s = default_snapshot();
    s.patch_date = string_of(chars_of(patch_date).as_slice());
    s.port = port;
    s.primary_address = string_of(chars_of(primary_address).as_slice());
    s.spawn_list_addr = addr_string(o.spawn_list);
    s.self_addr = addr_string(o.self_addr);
    s.target_addr = addr_string(o.target);
    s.zone_name_addr = addr_string(o.zone_name);
    s.ground_addr = addr_string(o.ground);
    s.world_addr = addr_string(o.world);
    s
}

/// Does the session warn that the spawn offsets look unset?  When the read
/// size is no more than the slack past the largest offset, every offset
/// is 0.
pub fn offsets_look_unset(buf_size: usize) -> (b: bool)
    ensures
        b == (buf_size <= 30),
{
    buf_size <= 30
}

} // verus!

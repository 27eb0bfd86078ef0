//! The timer file: one timer per line in the current format, with the
//! two older formats read (and marked for rewriting).  Coordinates are
//! floating-point text, which the caller reads and writes; everything else
//! is read and written here.
//!
//! Current: `loc;count;respawn;spawn_unix;kill_unix;next_unix;name;names;x;y;z[;sticky]`.
//! Older (C#): `loc;count;respawn;spawn_date;kill_date;next_date;name;names;x;y;z`.
//! Oldest: `name;x;y;z;kill_unix;respawn[;auto[;count[;spawn_unix[;zone]]]]`.
use vstd::prelude::*;
use crate::scanner::days_of;
use crate::text::{
    chars_of, contains_char, dec_chars, dec_seq, digit_char, int_dec_chars, int_dec_seq, join_chars,
    joined, lemma_joined_free, lemma_joined_front, lemma_parse_int_dec, lemma_parse_nat_dec,
    lemma_split_joined, lemma_splitn_joined, lines_chars, lines_seq, parse_i64, parse_int,
    parse_nat_upto, parse_u64_upto, seqs, split_chars, split_seq, splitn_chars, splitn_seq,
    string_of, trim, trim_chars, trim_end, trim_start, ws,
};
use crate::timers::{cs_datetime, parse_cs_datetime, SpawnTimer};
use crate::spawn_filter::texts;

verus! {

/// Is there a `DateTime<Utc>` at `ts` seconds?  chrono's dates run from
/// the first day of year -262143 to the last of year 262142.
pub open spec fn stamp_ok(ts: int) -> bool {
    days_of(-262143, 1, 1) <= ts / 86400 <= days_of(262142, 12, 31)
}

/// `DateTime::from_timestamp(ts, 0).is_some()`.  chrono's source: the day
/// `ts.div_euclid(86400)` must fall in years -262143..=262142.
#[verifier::external_body]
fn timestamp_ok(ts: i64) -> (b: bool)
    ensures
        b == stamp_ok(ts as int),
{
    chrono::DateTime::from_timestamp(ts, 0).is_some()
}

/// `ts` as a time when chrono represents it.
pub open spec fn stamp(ts: i64) -> Option<i64> {
    if stamp_ok(ts as int) {
        Some(ts)
    } else {
        None
    }
}

fn stamp_of(ts: i64) -> (r: Option<i64>)
    ensures
        r == stamp(ts),
{
    if timestamp_ok(ts) {
        Some(ts)
    } else {
        None
    }
}

/// A timer line, read: everything but the coordinates, which stay text.
pub struct TimerLine {
    pub name: String,
    /// The location key; `None` in the oldest format, whose key the caller
    /// renders from x and y.
    pub spawn_loc: Option<String>,
    pub all_names: Vec<String>,
    pub x: String,
    pub y: String,
    pub z: String,
    pub killed_at: Option<i64>,
    pub respawn_secs: i64,
    pub is_auto: bool,
    pub spawn_count: u32,
    pub spawn_time: Option<i64>,
    pub sticky: bool,
    /// Read from an older format: the file should be rewritten.
    pub migrated: bool,
}

pub struct LineModel {
    pub name: Seq<char>,
    pub spawn_loc: Option<Seq<char>>,
    pub all_names: Seq<Seq<char>>,
    pub x: Seq<char>,
    pub y: Seq<char>,
    pub z: Seq<char>,
    pub killed_at: Option<i64>,
    pub respawn_secs: i64,
    pub is_auto: bool,
    pub spawn_count: u32,
    pub spawn_time: Option<i64>,
    pub sticky: bool,
    pub migrated: bool,
}

impl TimerLine {
    pub open spec fn model(&self) -> LineModel {
        LineModel {
            name: self.name@,
            spawn_loc: match self.spawn_loc {
                Some(s) => Some(s@),
                None => None,
            },
            all_names: texts(self.all_names@),
            x: self.x@,
            y: self.y@,
            z: self.z@,
            killed_at: self.killed_at,
            respawn_secs: self.respawn_secs,
            is_auto: self.is_auto,
            spawn_count: self.spawn_count,
            spawn_time: self.spawn_time,
            sticky: self.sticky,
            migrated: self.migrated,
        }
    }
}

pub open spec fn i64_text(s: Seq<char>) -> Option<i64> {
    match parse_int(s) {
        Some(n) => if i64::MIN <= n <= i64::MAX {
            Some(n as i64)
        } else {
            None
        },
        None => None,
    }
}

pub open spec fn u32_field(s: Seq<char>) -> Option<u32> {
    match parse_nat_upto(s, u32::MAX as nat) {
        Some(n) => Some(n as u32),
        None => None,
    }
}

pub open spec fn u8_field(s: Seq<char>) -> Option<u8> {
    match parse_nat_upto(s, 255) {
        Some(n) => Some(n as u8),
        None => None,
    }
}

/// The comma-separated names field (none when empty).
pub open spec fn names_field(s: Seq<char>) -> Seq<Seq<char>> {
    if s.len() == 0 {
        Seq::empty()
    } else {
        split_seq(s, ',')
    }
}

/// A positive Unix time as a time (none for zero or less).
pub open spec fn positive_stamp(ts: i64) -> Option<i64> {
    if ts > 0 {
        stamp(ts)
    } else {
        None
    }
}

pub open spec fn cs_stamp(s: Seq<char>) -> Option<i64> {
    match cs_datetime(s) {
        Some(t) => Some(t as i64),
        None => None,
    }
}

pub open spec fn new_format(p: Seq<Seq<char>>) -> Option<LineModel> {
    match (u32_field(p[1]), i64_text(p[2]), i64_text(p[3]), i64_text(p[4])) {
        (Some(c), Some(r), Some(st), Some(k)) => Some(
            LineModel {
                name: p[6],
                spawn_loc: Some(p[0]),
                all_names: names_field(p[7]),
                x: p[8],
                y: p[9],
                z: p[10],
                killed_at: positive_stamp(k),
                respawn_secs: r,
                is_auto: c >= 2,
                spawn_count: c,
                spawn_time: positive_stamp(st),
                sticky: p.len() > 11 && (u8_field(trim(p[11])) matches Some(v) && v != 0),
                migrated: false,
            },
        ),
        _ => None,
    }
}

pub open spec fn cs_format(p: Seq<Seq<char>>) -> Option<LineModel> {
    match (u32_field(p[1]), i64_text(p[2])) {
        (Some(c), Some(r)) => Some(
            LineModel {
                name: p[6],
                spawn_loc: Some(p[0]),
                all_names: names_field(p[7]),
                x: p[8],
                y: p[9],
                z: p[10],
                killed_at: cs_stamp(p[4]),
                respawn_secs: r,
                is_auto: c >= 2,
                spawn_count: c,
                spawn_time: cs_stamp(p[3]),
                sticky: false,
                migrated: true,
            },
        ),
        _ => None,
    }
}

pub open spec fn old_format(p: Seq<Seq<char>>) -> Option<LineModel> {
    if p.len() < 6 {
        None
    } else {
        match (i64_text(p[4]), i64_text(p[5])) {
            (Some(k), Some(r)) => Some(
                LineModel {
                    name: p[0],
                    spawn_loc: None,
                    all_names: Seq::empty(),
                    x: p[1],
                    y: p[2],
                    z: p[3],
                    killed_at: positive_stamp(k),
                    respawn_secs: r,
                    is_auto: p.len() > 6 && (u8_field(p[6]) matches Some(v) && v != 0),
                    spawn_count: if p.len() > 7 {
                        match u32_field(p[7]) {
                            Some(c) => c,
                            None => 0,
                        }
                    } else {
                        0
                    },
                    spawn_time: if p.len() > 8 {
                        match i64_text(p[8]) {
                            Some(ts) => positive_stamp(ts),
                            None => None,
                        }
                    } else {
                        None
                    },
                    sticky: false,
                    migrated: true,
                },
            ),
            _ => None,
        }
    }
}

/// A trimmed timer line: a location key (holding a comma) first means the
/// current format when the fourth field is an integer, else the C#
/// format; anything else is the oldest format.
pub open spec fn line_model(line: Seq<char>) -> Option<LineModel> {
    let p = splitn_seq(line, 13, ';');
    if p[0].contains(',') {
        if p.len() < 11 {
            None
        } else if i64_text(p[3]) is Some {
            new_format(p)
        } else {
            cs_format(p)
        }
    } else {
        old_format(p)
    }
}

fn i64_field(v: &Vec<char>) -> (r: Option<i64>)
    ensures
        r == i64_text(v@),
{
    parse_i64(v)
}

pub(crate) fn u32_of(v: &Vec<char>) -> (r: Option<u32>)
    ensures
        r == u32_field(v@),
{
    match parse_u64_upto(v, 0xffff_ffff) {
        Some(n) => Some(n as u32),
        None => None,
    }
}

pub(crate) fn u8_of(v: &Vec<char>) -> (r: Option<u8>)
    ensures
        r == u8_field(v@),
{
    match parse_u64_upto(v, 255) {
        Some(n) => Some(n as u8),
        None => None,
    }
}

fn names_of(v: &Vec<char>) -> (r: Vec<String>)
    ensures
        texts(r@) == names_field(v@),
{
    let mut r: Vec<String> = Vec::new();
    if v.len() == 0 {
        assert(texts(r@) =~= Seq::<Seq<char>>::empty());
        return r;
    }
    let pieces = split_chars(v, ',');
    let mut i: usize = 0;
    while i < pieces.len()
        invariant
            i <= pieces@.len(),
            r@.len() == i,
            texts(r@) == seqs(pieces@).take(i as int),
        decreases pieces@.len() - i,
    {
        let piece = string_of(pieces[i].as_slice());
        assert(piece@ == seqs(pieces@)[i as int]);
        let ghost before = texts(r@);
        r.push(piece);
        assert(texts(r@) =~= before.push(piece@));
        assert(texts(r@) =~= seqs(pieces@).take(i + 1));
        i = i + 1;
    }
    assert(seqs(pieces@).take(i as int) =~= seqs(pieces@));
    r
}

fn positive_stamp_of(ts: i64) -> (r: Option<i64>)
    ensures
        r == positive_stamp(ts),
{
    if ts > 0 {
        stamp_of(ts)
    } else {
        None
    }
}

fn cs_stamp_of(v: &Vec<char>) -> (r: Option<i64>)
    ensures
        r == cs_stamp(v@),
{
    parse_cs_datetime(string_of(v.as_slice()).as_str())
}

fn text_of(v: &Vec<char>) -> (s: String)
    ensures
        s@ == v@,
{
    string_of(v.as_slice())
}

/// Read one trimmed timer line (see `line_model`).
pub fn parse_timer_line(line: &str) -> (r: Option<TimerLine>)
    ensures
        match r {
            Some(t) => line_model(line@) == Some(t.model()),
            None => line_model(line@) is None,
        },
{
    let p = splitn_chars(&chars_of(line), 13, ';');
    let ghost ps = seqs(p@);
    assert(ps.len() >= 1);
    assert(ps[0] == p@[0]@);
    if contains_char(&p[0], ',') {
        if p.len() < 11 {
            return None;
        }
        proof {
            assert forall|j: int| 0 <= j < ps.len() implies ps[j] == (#[trigger] p@[j])@ by {}
        }
        let count = match u32_of(&p[1]) {
            Some(c) => c,
            None => {
                return None;
            },
        };
        let respawn = match i64_field(&p[2]) {
            Some(v) => v,
            None => {
                return None;
            },
        };
        let names = names_of(&p[7]);
        match i64_field(&p[3]) {
            Some(st) => {
                let k = match i64_field(&p[4]) {
                    Some(v) => v,
                    None => {
                        return None;
                    },
                };
                let sticky = if p.len() > 11 {
                    match u8_of(&trim_chars(&p[11])) {
                        Some(v) => v != 0,
                        None => false,
                    }
                } else {
                    false
                };
                Some(
                    TimerLine {
                        name: text_of(&p[6]),
                        spawn_loc: Some(text_of(&p[0])),
                        all_names: names,
                        x: text_of(&p[8]),
                        y: text_of(&p[9]),
                        z: text_of(&p[10]),
                        killed_at: positive_stamp_of(k),
                        respawn_secs: respawn,
                        is_auto: count >= 2,
                        spawn_count: count,
                        spawn_time: positive_stamp_of(st),
                        sticky,
                        migrated: false,
                    },
                )
            },
            None => {
                Some(
                    TimerLine {
                        name: text_of(&p[6]),
                        spawn_loc: Some(text_of(&p[0])),
                        all_names: names,
                        x: text_of(&p[8]),
                        y: text_of(&p[9]),
                        z: text_of(&p[10]),
                        killed_at: cs_stamp_of(&p[4]),
                        respawn_secs: respawn,
                        is_auto: count >= 2,
                        spawn_count: count,
                        spawn_time: cs_stamp_of(&p[3]),
                        sticky: false,
                        migrated: true,
                    },
                )
            },
        }
    } else {
        if p.len() < 6 {
            return None;
        }
        proof {
            assert forall|j: int| 0 <= j < ps.len() implies ps[j] == (#[trigger] p@[j])@ by {}
        }
        let k = match i64_field(&p[4]) {
            Some(v) => v,
            None => {
                return None;
            },
        };
        let respawn = match i64_field(&p[5]) {
            Some(v) => v,
            None => {
                return None;
            },
        };
        let is_auto = if p.len() > 6 {
            match u8_of(&p[6]) {
                Some(v) => v != 0,
                None => false,
            }
        } else {
            false
        };
        let count: u32 = if p.len() > 7 {
            match u32_of(&p[7]) {
                Some(c) => c,
                None => 0,
            }
        } else {
            0
        };
        let spawn_time = if p.len() > 8 {
            match i64_field(&p[8]) {
                Some(ts) => positive_stamp_of(ts),
                None => None,
            }
        } else {
            None
        };
        let r = TimerLine {
            name: text_of(&p[0]),
            spawn_loc: None,
            all_names: Vec::new(),
            x: text_of(&p[1]),
            y: text_of(&p[2]),
            z: text_of(&p[3]),
            killed_at: positive_stamp_of(k),
            respawn_secs: respawn,
            is_auto,
            spawn_count: count,
            spawn_time,
            sticky: false,
            migrated: true,
        };
        assert(texts(r.all_names@) =~= Seq::<Seq<char>>::empty());
        Some(r)
    }
}


/// The timers a file's lines hold: each line trimmed; blank lines and
/// `#` comments skipped, as are lines that do not read.
pub open spec fn file_lines(ls: Seq<Seq<char>>) -> Seq<LineModel>
    decreases ls.len(),
{
    if ls.len() == 0 {
        Seq::empty()
    } else {
        let r = file_lines(ls.drop_last());
        let l = trim(ls.last());
        if l.len() == 0 || l[0] == '#' {
            r
        } else {
            match line_model(l) {
                Some(m) => r.push(m),
                None => r,
            }
        }
    }
}

/// Read a timer file's text (see `file_lines`).
pub fn timer_lines(text: &str) -> (r: Vec<TimerLine>)
    ensures
        r@.map_values(|t: TimerLine| t.model()) == file_lines(lines_seq(text@)),
{
    let ls = lines_chars(&chars_of(text));
    let ghost lv = seqs(ls@);
    let mut r: Vec<TimerLine> = Vec::new();
    let mut i: usize = 0;
    while i < ls.len()
        invariant
            i <= ls@.len(),
            lv == seqs(ls@),
            lv == lines_seq(text@),
            r@.map_values(|t: TimerLine| t.model()) == file_lines(lv.take(i as int)),
        decreases ls@.len() - i,
    {
        assert(lv.take(i + 1).drop_last() =~= lv.take(i as int));
        assert(lv.take(i + 1).last() == ls@[i as int]@);
        let l = trim_chars(&ls[i]);
        if l.len() > 0 && l[0] != '#' {
            let ghost before = r@.map_values(|t: TimerLine| t.model());
            match parse_timer_line(string_of(l.as_slice()).as_str()) {
                Some(t) => {
                    r.push(t);
                    assert(r@.map_values(|t: TimerLine| t.model()) =~= before.push(r@.last().model()));
                },
                None => {},
            }
        }
        i = i + 1;
    }
    assert(lv.take(i as int) =~= lv);
    r
}

/// A time as Unix seconds, 0 for none.
pub open spec fn unix_or_zero(t: Option<i64>) -> int {
    match t {
        Some(v) => v as int,
        None => 0,
    }
}

/// The fields of a timer's line in the current format, its coordinates
/// given as text: key, spawn count, interval, spawn time, kill time, next
/// spawn time (kill time plus interval), name, names joined by commas, x,
/// y, z, sticky flag.
pub open spec fn timer_fields(t: SpawnTimer, x: Seq<char>, y: Seq<char>, z: Seq<char>) -> Seq<Seq<char>> {
    let next = match t.killed_at {
        Some(k) => k + t.respawn_secs,
        None => 0,
    };
    seq![
        t.spawn_loc@,
        dec_seq(t.spawn_count as nat),
        int_dec_seq(t.respawn_secs as int),
        int_dec_seq(unix_or_zero(t.spawn_time)),
        int_dec_seq(unix_or_zero(t.killed_at)),
        int_dec_seq(next),
        t.name@,
        joined(texts(t.all_names@), ','),
        x,
        y,
        z,
        if t.sticky { seq!['1'] } else { seq!['0'] },
    ]
}

/// A timer's line: its fields joined by `;`.
pub open spec fn timer_text(t: SpawnTimer, x: Seq<char>, y: Seq<char>, z: Seq<char>) -> Seq<char> {
    joined(timer_fields(t, x, y, z), ';')
}

/// The largest interval chrono takes in seconds.
pub open spec fn seconds_ok(s: i64) -> bool {
    -(i64::MAX / 1000) <= s <= i64::MAX / 1000
}

/// Write a timer's line (see `timer_text`).  With a kill time, the
/// interval and the next spawn time must be ones chrono represents.
pub fn timer_file_line(t: &SpawnTimer, x: &str, y: &str, z: &str) -> (s: String)
    requires
        t.killed_at matches Some(k) ==> seconds_ok(t.respawn_secs) && stamp_ok(k + t.respawn_secs),
    ensures
        s@ == timer_text(*t, x@, y@, z@),
{
    let st: i64 = match t.spawn_time {
        Some(s) => s,
        None => 0,
    };
    let kt: i64 = match t.killed_at {
        Some(k) => k,
        None => 0,
    };
    let next: i64 = match t.killed_at {
        Some(k) => {
            proof {
                lemma_stamp_fits(k + t.respawn_secs);
            }
            k + t.respawn_secs
        },
        None => 0,
    };
    let mut names: Vec<Vec<char>> = Vec::new();
    let mut i: usize = 0;
    while i < t.all_names.len()
        invariant
            i <= t.all_names@.len(),
            names@.len() == i,
            seqs(names@) == texts(t.all_names@).take(i as int),
        decreases t.all_names@.len() - i,
    {
        let c = chars_of(t.all_names[i].as_str());
        assert(c@ == texts(t.all_names@)[i as int]);
        let ghost before = seqs(names@);
        names.push(c);
        assert(seqs(names@) =~= before.push(c@));
        assert(seqs(names@) =~= texts(t.all_names@).take(i + 1));
        i = i + 1;
    }
    assert(texts(t.all_names@).take(i as int) =~= texts(t.all_names@));
    let mut sticky: Vec<char> = Vec::new();
    sticky.push(if t.sticky {
        '1'
    } else {
        '0'
    });
    let mut fs: Vec<Vec<char>> = Vec::new();
    fs.push(chars_of(t.spawn_loc.as_str()));
    fs.push(dec_chars(t.spawn_count as u64));
    fs.push(int_dec_chars(t.respawn_secs));
    fs.push(int_dec_chars(st));
    fs.push(int_dec_chars(kt));
    fs.push(int_dec_chars(next));
    fs.push(chars_of(t.name.as_str()));
    fs.push(join_chars(&names, ','));
    fs.push(chars_of(x));
    fs.push(chars_of(y));
    fs.push(chars_of(z));
    fs.push(sticky);
    assert(seqs(fs@) =~= timer_fields(*t, x@, y@, z@));
    string_of(join_chars(&fs, ';').as_slice())
}

/// The sticky field reads back as the flag it was written from.
proof fn lemma_flag_field(b: bool)
    ensures
        ({
            let f = if b { seq!['1'] } else { seq!['0'] };
            &&& trim(f) == f
            &&& (u8_field(f) matches Some(v) && v != 0) == b
            &&& !f.contains(';')
        }),
{
    let f = if b { seq!['1'] } else { seq!['0'] };
    let d: nat = if b { 1 } else { 0 };
    assert(!ws(f[0]));
    assert(trim_start(f) == f);
    assert(trim_end(f) == f);
    lemma_parse_nat_dec(d);
    assert(digit_char(d) == f[0]);
    assert(dec_seq(d) =~= f);
}

/// A timer written as a line reads back as itself: key, name, names,
/// coordinates, interval, count, kill and spawn times and sticky flag come
/// back unchanged, the learned flag comes back as "two or more respawns
/// seen", and the line is not marked for rewriting; trimming leaves the
/// line as it is.  This holds when no text field holds `;`, the key holds
/// a comma and does not start with whitespace, each name is non-empty and
/// holds no comma, and the kill and spawn times, where present, are
/// positive times that chrono represents.
pub proof fn law_timer_line_round_trip(t: SpawnTimer, x: Seq<char>, y: Seq<char>, z: Seq<char>)
    requires
        t.spawn_loc@.contains(','),
        !t.spawn_loc@.contains(';'),
        !ws(t.spawn_loc@[0]),
        !t.name@.contains(';'),
        !x.contains(';'),
        !y.contains(';'),
        !z.contains(';'),
        forall|i: int|
            0 <= i < t.all_names@.len() ==> {
                let n = (#[trigger] t.all_names@[i])@;
                n.len() > 0 && !n.contains(',') && !n.contains(';')
            },
        t.killed_at matches Some(k) ==> k > 0 && stamp_ok(k as int),
        t.spawn_time matches Some(st) ==> st > 0 && stamp_ok(st as int),
    ensures
        trim(timer_text(t, x, y, z)) == timer_text(t, x, y, z),
        line_model(timer_text(t, x, y, z)) == Some(
            LineModel {
                name: t.name@,
                spawn_loc: Some(t.spawn_loc@),
                all_names: texts(t.all_names@),
                x,
                y,
                z,
                killed_at: t.killed_at,
                respawn_secs: t.respawn_secs,
                is_auto: t.spawn_count >= 2,
                spawn_count: t.spawn_count,
                spawn_time: t.spawn_time,
                sticky: t.sticky,
                migrated: false,
            },
        ),
{
    let fs = timer_fields(t, x, y, z);
    let text = timer_text(t, x, y, z);
    let names = texts(t.all_names@);
    let next = match t.killed_at {
        Some(k) => k + t.respawn_secs,
        None => 0,
    };
    assert forall|i: int| 0 <= i < names.len() implies !(#[trigger] names[i]).contains(';')
        && !names[i].contains(',') && names[i].len() > 0 by {
        assert(names[i] == t.all_names@[i]@);
    }
    lemma_joined_free(names, ',', ';');
    lemma_parse_nat_dec(t.spawn_count as nat);
    lemma_parse_int_dec(t.respawn_secs as int);
    lemma_parse_int_dec(unix_or_zero(t.spawn_time));
    lemma_parse_int_dec(unix_or_zero(t.killed_at));
    lemma_parse_int_dec(next);
    lemma_flag_field(t.sticky);
    assert forall|i: int| 0 <= i < fs.len() implies !(#[trigger] fs[i]).contains(';') by {
        if i == 0 {
        } else if i == 1 {
        } else if i <= 5 {
        } else if i == 6 {
        } else if i == 7 {
        } else if i <= 10 {
        } else {
        }
    }
    lemma_splitn_joined(fs, 13, ';');
    let p = splitn_seq(text, 13, ';');
    assert(p == fs);
    // The names field.
    if names.len() == 0 {
        assert(names_field(joined(names, ',')) =~= names);
    } else {
        lemma_split_joined(names, ',');
        if names.len() >= 2 {
            lemma_joined_front(names, ',');
        }
        assert(joined(names, ',').len() > 0);
        assert(names_field(joined(names, ',')) == names);
    }
    // The count, interval and times.
    assert(u32_field(fs[1]) == Some(t.spawn_count));
    assert(i64_text(fs[2]) == Some(t.respawn_secs));
    let st = unix_or_zero(t.spawn_time);
    let k = unix_or_zero(t.killed_at);
    assert(i64_text(fs[3]) == Some(st as i64));
    assert(i64_text(fs[4]) == Some(k as i64));
    assert(positive_stamp(st as i64) == t.spawn_time);
    assert(positive_stamp(k as i64) == t.killed_at);
    // Trimming keeps the line.
    lemma_joined_front(fs, ';');
    assert(text[0] == t.spawn_loc@[0]);
    assert(text.last() == fs[11][0]);
    assert(trim_start(text) == text);
    assert(trim_end(text) == text);
}

/// Representable times fit an `i64`.
proof fn lemma_stamp_fits(ts: int)
    requires
        stamp_ok(ts),
    ensures
        i64::MIN <= ts <= i64::MAX,
{
    let lo = days_of(-262143, 1, 1);
    let hi = days_of(262142, 12, 31);
    assert(-100_000_000 <= lo <= 100_000_000) by (nonlinear_arith)
        requires
            lo == days_of(-262143, 1, 1),
    {
    }
    assert(-100_000_000 <= hi <= 100_000_000) by (nonlinear_arith)
        requires
            hi == days_of(262142, 12, 31),
    {
    }
    assert(-100_000_000 * 86400 <= ts) by (nonlinear_arith)
        requires
            ts / 86400 >= -100_000_000,
    {
    }
    assert(ts < (100_000_000 + 1) * 86400) by (nonlinear_arith)
        requires
            ts / 86400 <= 100_000_000,
    {
    }
}


/// Does `timer_file_line` accept `t`?
pub fn line_writable(t: &SpawnTimer) -> (b: bool)
    ensures
        b == (t.killed_at matches Some(k) ==> seconds_ok(t.respawn_secs) && stamp_ok(k + t.respawn_secs)),
{
    match t.killed_at {
        None => true,
        Some(k) => {
            if t.respawn_secs < -(i64::MAX / 1000) || t.respawn_secs > i64::MAX / 1000 {
                return false;
            }
            match k.checked_add(t.respawn_secs) {
                Some(n) => timestamp_ok(n),
                None => {
                    proof {
                        if stamp_ok(k + t.respawn_secs) {
                            lemma_stamp_fits(k + t.respawn_secs);
                        }
                    }
                    false
                },
            }
        },
    }
}

} // verus!

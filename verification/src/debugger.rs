//! The interactive debugger's state and the commands that change it: the
//! primary addresses and the secondary (structure field) offsets it reads
//! memory with, set by hand from command arguments.
use vstd::prelude::*;
use crate::offsets::{spawn_offset_names, spawn_offset_values, ItemOffsets, SpawnOffsets, WorldOffsets, FIELD_SLACK};
use crate::text::{
    ascii_lower_seq, chars_eq, chars_of, hex_chars, hex_seq, lower_chars, parse_nat_upto,
    parse_u64_upto, push_all, string_of, unicode_lowercase, is_whitespace, ws, dec_chars, dec_seq,
    trim, trim_chars, trim_start, sub_chars, lemma_trim_start_skip, split_chars, split_seq, seqs,
};

verus! {

/// Number of primary addresses.
pub const OT_MAX: usize = 6;

/// The names of the primary addresses, by index.
pub open spec fn primary_names() -> Seq<Seq<char>> {
    seq!["pZone"@, "pSpawns"@, "pSelf"@, "pTarget"@, "pItems"@, "pWorld"@]
}

fn primary_name(i: usize) -> (s: &'static str)
    requires
        i < OT_MAX,
    ensures
        s@ == primary_names()[i as int],
{
    match i {
        0 => "pZone",
        1 => "pSpawns",
        2 => "pSelf",
        3 => "pTarget",
        4 => "pItems",
        _ => "pWorld",
    }
}

/// `str::split_whitespace`: the maximal runs of non-whitespace characters.
pub open spec fn words(s: Seq<char>) -> Seq<Seq<char>>
    decreases s.len(),
{
    if s.len() == 0 {
        Seq::empty()
    } else {
        let p = words(s.drop_last());
        let c = s.last();
        if ws(c) {
            p
        } else if s.len() >= 2 && !ws(s[s.len() - 2]) {
            p.update(p.len() - 1, p.last().push(c))
        } else {
            p.push(seq![c])
        }
    }
}

proof fn lemma_words_nonempty(s: Seq<char>)
    requires
        s.len() > 0,
        !ws(s.last()),
    ensures
        words(s).len() > 0,
    decreases s.len(),
{
    if s.len() >= 2 && !ws(s[s.len() - 2]) {
        assert(s.drop_last().last() == s[s.len() - 2]);
        lemma_words_nonempty(s.drop_last());
    }
}

fn split_words(v: &Vec<char>) -> (r: Vec<Vec<char>>)
    ensures
        r@.map_values(|w: Vec<char>| w@) == words(v@),
{
    let mut r: Vec<Vec<char>> = Vec::new();
    let mut i: usize = 0;
    while i < v.len()
        invariant
            i <= v@.len(),
            r@.map_values(|w: Vec<char>| w@) == words(v@.take(i as int)),
        decreases v@.len() - i,
    {
        let ghost before = r@.map_values(|w: Vec<char>| w@);
        let c = v[i];
        proof {
            assert(v@.take(i + 1).drop_last() =~= v@.take(i as int));
            assert(v@.take(i + 1).last() == c);
        }
        if !is_whitespace(c) {
            if i >= 1 && !is_whitespace(v[i - 1]) {
                proof {
                    assert(v@.take(i + 1)[i - 1] == v@[i - 1]);
                    assert(v@.take(i as int).last() == v@[i - 1]);
                    lemma_words_nonempty(v@.take(i as int));
                }
                let last = r.len() - 1;
                let mut w = r.remove(last);
                w.push(c);
                r.push(w);
                assert(r@.map_values(|w: Vec<char>| w@) =~= before.update(before.len() - 1, before.last().push(c)));
            } else {
                let mut w: Vec<char> = Vec::new();
                w.push(c);
                r.push(w);
                proof {
                    if i >= 1 {
                        assert(v@.take(i + 1)[i - 1] == v@[i - 1]);
                    }
                }
                assert(r@.map_values(|w: Vec<char>| w@) =~= before.push(seq![c]));
            }
        }
        i = i + 1;
    }
    assert(v@.take(i as int) =~= v@);
    r
}

/// `s` with every leading copy of `p` removed (`trim_start_matches`).
pub open spec fn strip_all(s: Seq<char>, p: Seq<char>) -> Seq<char>
    decreases s.len(),
{
    if p.len() > 0 && p.len() <= s.len() && s.take(p.len() as int) == p {
        strip_all(s.skip(p.len() as int), p)
    } else {
        s
    }
}

fn strip_all_chars(s: &Vec<char>, p: &Vec<char>) -> (r: Vec<char>)
    ensures
        r@ == strip_all(s@, p@),
{
    let mut from: usize = 0;
    assert(s@.skip(0) =~= s@);
    while p.len() > 0 && p.len() <= s.len() - from && starts_at(s, p, from)
        invariant
            from <= s@.len(),
            strip_all(s@, p@) == strip_all(s@.skip(from as int), p@),
        decreases s@.len() - from,
    {
        assert(s@.skip(from as int).skip(p@.len() as int) =~= s@.skip(from + p@.len()));
        from = from + p.len();
    }
    let mut r: Vec<char> = Vec::new();
    let mut k: usize = from;
    while k < s.len()
        invariant
            from <= k <= s@.len(),
            r@ == s@.subrange(from as int, k as int),
        decreases s@.len() - k,
    {
        r.push(s[k]);
        assert(r@ =~= s@.subrange(from as int, k + 1));
        k = k + 1;
    }
    assert(r@ =~= s@.skip(from as int));
    r
}

fn starts_at(s: &Vec<char>, p: &Vec<char>, from: usize) -> (b: bool)
    requires
        from + p@.len() <= s.len(),
    ensures
        b == (s@.skip(from as int).take(p@.len() as int) == p@),
{
    let mut k: usize = 0;
    while k < p.len()
        invariant
            k <= p@.len(),
            from + p@.len() <= s.len(),
            forall|j: int| 0 <= j < k ==> s@[from + j] == p@[j],
        decreases p@.len() - k,
    {
        if s[from + k] != p[k] {
            assert(s@.skip(from as int).take(p@.len() as int)[k as int] != p@[k as int]);
            return false;
        }
        k = k + 1;
    }
    assert(s@.skip(from as int).take(p@.len() as int) =~= p@);
    true
}

pub open spec fn hex_digit(c: char) -> bool {
    ('0' <= c && c <= '9') || ('a' <= c && c <= 'f') || ('A' <= c && c <= 'F')
}

pub open spec fn hex_digit_val(c: char) -> nat {
    if '0' <= c && c <= '9' {
        ((c as u32) - ('0' as u32)) as nat
    } else if 'a' <= c && c <= 'f' {
        ((c as u32) - ('a' as u32) + 10) as nat
    } else {
        ((c as u32) - ('A' as u32) + 10) as nat
    }
}

pub open spec fn hex_digits_value(s: Seq<char>) -> nat
    decreases s.len(),
{
    if s.len() == 0 {
        0
    } else {
        hex_digits_value(s.drop_last()) * 16 + hex_digit_val(s.last())
    }
}

/// `s` without one leading `+`.
pub open spec fn plus_stripped(s: Seq<char>) -> Seq<char> {
    if s.len() > 0 && s[0] == '+' {
        s.drop_first()
    } else {
        s
    }
}

/// `from_str_radix(s, 16)` for an unsigned type whose largest value is
/// `max`: an optional `+`, then one or more hex digits, at most `max`.
pub open spec fn hex_number(s: Seq<char>, max: nat) -> Option<nat> {
    let b = plus_stripped(s);
    if b.len() > 0 && (forall|i: int| 0 <= i < b.len() ==> hex_digit(#[trigger] b[i]))
        && hex_digits_value(b) <= max {
        Some(hex_digits_value(b))
    } else {
        None
    }
}

pub(crate) fn parse_hex(v: &Vec<char>, max: u64) -> (r: Option<u64>)
    ensures
        r == (match hex_number(v@, max as nat) {
            Some(n) => Some(n as u64),
            None => None::<u64>,
        }),
{
    let from: usize = if v.len() > 0 && v[0] == '+' {
        1
    } else {
        0
    };
    let ghost b = plus_stripped(v@);
    assert(b =~= v@.skip(from as int));
    if from == v.len() {
        return None;
    }
    let mut acc: u64 = 0;
    let mut over = false;
    let mut i = from;
    assert(b.take(0) =~= Seq::<char>::empty());
    while i < v.len()
        invariant
            from <= i <= v@.len(),
            b == v@.skip(from as int),
            b == plus_stripped(v@),
            forall|k: int| 0 <= k < i - from ==> hex_digit(#[trigger] b[k]),
            !over ==> acc == hex_digits_value(b.take(i - from)),
            over ==> hex_digits_value(b.take(i - from)) > max,
            acc <= max,
        decreases v@.len() - i,
    {
        let c = v[i];
        assert(b[i - from] == c);
        let d: u64 = if '0' <= c && c <= '9' {
            ((c as u32) - ('0' as u32)) as u64
        } else if 'a' <= c && c <= 'f' {
            ((c as u32) - ('a' as u32) + 10) as u64
        } else if 'A' <= c && c <= 'F' {
            ((c as u32) - ('A' as u32) + 10) as u64
        } else {
            assert(!hex_digit(b[i - from]));
            return None;
        };
        let ghost pre = b.take(i - from);
        proof {
            assert(b.take(i - from + 1).drop_last() =~= pre);
            assert(b.take(i - from + 1).last() == c);
        }
        if !over {
            if d > max || acc > (max - d) / 16 {
                over = true;
                assert(acc * 16 + d > max) by (nonlinear_arith)
                    requires
                        d > max || acc > (max - d) / 16,
                        d <= 15,
                ;
            } else {
                assert(acc * 16 + d <= max) by (nonlinear_arith)
                    requires
                        acc <= (max - d) / 16,
                        d <= max,
                ;
                acc = acc * 16 + d;
            }
        } else {
            assert(hex_digits_value(b.take(i - from + 1)) >= hex_digits_value(pre)) by (nonlinear_arith)
                requires
                    hex_digits_value(b.take(i - from + 1)) == hex_digits_value(pre) * 16 + d,
            ;
        }
        i = i + 1;
    }
    assert(b.take(v@.len() - from) =~= b);
    if over {
        None
    } else {
        Some(acc)
    }
}

/// The hex value argument of `spo`/`sso`: the second word with leading
/// `0x`, then leading `0X`, removed.
pub open spec fn hex_arg(w: Seq<char>) -> Seq<char> {
    strip_all(strip_all(w, "0x"@), "0X"@)
}

fn hex_arg_chars(w: &Vec<char>) -> (r: Vec<char>)
    ensures
        r@ == hex_arg(w@),
{
    let a = strip_all_chars(w, &chars_of("0x"));
    strip_all_chars(&a, &chars_of("0X"))
}

/// The debugger's state.  Secondary offsets stay small enough that the
/// read size (largest offset plus 30) fits.
pub struct DebugLoop {
    primary_addrs: [u64; 6],
    spawn_off: SpawnOffsets,
    item_off: ItemOffsets,
    world_off: WorldOffsets,
}

impl DebugLoop {
    pub closed spec fn primaries(&self) -> Seq<u64> {
        self.primary_addrs@
    }

    pub closed spec fn spawn_values(&self) -> Seq<usize> {
        spawn_offset_values(self.spawn_off)
    }

    pub closed spec fn wf(&self) -> bool {
        forall|k: int| 0 <= k < 18 ==> #[trigger] spawn_offset_values(self.spawn_off)[k] + FIELD_SLACK <= usize::MAX
    }

    /// A debugger with every address and offset zero.
    pub fn new() -> (d: Self)
        ensures
            d.wf(),
            d.primaries() == seq![0u64, 0, 0, 0, 0, 0],
            forall|k: int| 0 <= k < 18 ==> #[trigger] d.spawn_values()[k] == 0,
    {
        let d = DebugLoop {
            primary_addrs: [0; 6],
            spawn_off: SpawnOffsets::default(),
            item_off: ItemOffsets::default(),
            world_off: WorldOffsets::default(),
        };
        assert(d.primary_addrs@ =~= seq![0u64, 0, 0, 0, 0, 0]);
        d
    }

    /// The primary address with index `i`.
    pub fn primary(&self, i: usize) -> (a: u64)
        requires
            i < OT_MAX,
        ensures
            a == self.primaries()[i as int],
    {
        self.primary_addrs[i]
    }

    /// The secondary spawn offsets.
    pub fn spawn_offsets(&self) -> (o: &SpawnOffsets)
        ensures
            spawn_offset_values(*o) == self.spawn_values(),
    {
        &self.spawn_off
    }
}

/// The reply and effect of `spo <index|name> <hex>`: the index is a
/// decimal number below 6 or a primary name (compared lowercased).
pub open spec fn spo_outcome(args: Seq<char>) -> (Option<(int, u64)>, Seq<char>) {
    let t = words(args);
    if t.len() < 2 {
        (None, " Failed to set primary offset (usage: spo <index|name> <hex>)"@)
    } else {
        match hex_number(hex_arg(t[1]), u64::MAX as nat) {
            None => (None, " Failed to parse hex value '"@ + t[1] + "'"@),
            Some(v) => {
                let idx: int = match parse_nat_upto(t[0], usize::MAX as nat) {
                    Some(n) => if n < OT_MAX { n as int } else { -1 },
                    None => primary_index(unicode_lowercase(t[0])),
                };
                if 0 <= idx < OT_MAX {
                    (
                        Some((idx, v as u64)),
                        " Primary offset #"@ + dec_seq(idx as nat) + " ("@ + primary_names()[idx] + ") was set to 0x"@
                            + hex_seq(v, true),
                    )
                } else {
                    (None, " Failed to set primary offset"@)
                }
            },
        }
    }
}

/// Index of the primary name equal to `lower` once lowercased; -1 for none.
pub open spec fn primary_index(lower: Seq<char>) -> int {
    if ascii_lower_seq(primary_names()[0]) == lower {
        0
    } else if ascii_lower_seq(primary_names()[1]) == lower {
        1
    } else if ascii_lower_seq(primary_names()[2]) == lower {
        2
    } else if ascii_lower_seq(primary_names()[3]) == lower {
        3
    } else if ascii_lower_seq(primary_names()[4]) == lower {
        4
    } else if ascii_lower_seq(primary_names()[5]) == lower {
        5
    } else {
        -1
    }
}

fn primary_index_of(lower: &Vec<char>) -> (r: Option<usize>)
    ensures
        match r {
            Some(i) => i < OT_MAX && primary_index(lower@) == i,
            None => primary_index(lower@) == -1,
        },
{
    let mut i: usize = 0;
    while i < OT_MAX
        invariant
            i <= OT_MAX,
            forall|j: int| 0 <= j < i ==> ascii_lower_seq(#[trigger] primary_names()[j]) != lower@,
        decreases OT_MAX - i,
    {
        let n = lower_chars(&chars_of(primary_name(i)));
        proof {
            let p = primary_names()[i as int];
            assert forall|k: int| 0 <= k < p.len() implies (#[trigger] p[k] as u32) < 128 by {
                reveal_strlit("pZone");
                reveal_strlit("pSpawns");
                reveal_strlit("pSelf");
                reveal_strlit("pTarget");
                reveal_strlit("pItems");
                reveal_strlit("pWorld");
            }
        }
        if chars_eq(&n, lower) {
            return Some(i);
        }
        i = i + 1;
    }
    None
}

impl DebugLoop {
    /// `spo <index|name> <hex>`: set a primary address; the reply line
    /// (see `spo_outcome`).
    pub fn set_primary_offset(&mut self, args: &str) -> (msg: String)
        requires
            old(self).wf(),
        ensures
            final(self).wf(),
            msg@ == spo_outcome(args@).1,
            final(self).spawn_values() == old(self).spawn_values(),
            match spo_outcome(args@).0 {
                Some((i, v)) => final(self).primaries() == old(self).primaries().update(i, v),
                None => final(self).primaries() == old(self).primaries(),
            },
    {
        let t = split_words(&chars_of(args));
        let ghost tw = t@.map_values(|w: Vec<char>| w@);
        if t.len() < 2 {
            return String::from_str(" Failed to set primary offset (usage: spo <index|name> <hex>)");
        }
        assert(tw[0] == t@[0]@ && tw[1] == t@[1]@);
        let value = match parse_hex(&hex_arg_chars(&t[1]), u64::MAX) {
            Some(v) => v,
            None => {
                let mut m = chars_of(" Failed to parse hex value '");
                push_all(&mut m, &t[1]);
                push_all(&mut m, &chars_of("'"));
                return string_of(m.as_slice());
            },
        };
        let idx: Option<usize> = match parse_u64_upto(&t[0], usize::MAX as u64) {
            Some(n) => if n < OT_MAX as u64 {
                Some(n as usize)
            } else {
                None
            },
            None => primary_index_of(&lower_chars(&t[0])),
        };
        match idx {
            Some(i) => {
                self.primary_addrs[i] = value;
                let mut m = chars_of(" Primary offset #");
                push_all(&mut m, &dec_chars(i as u64));
                push_all(&mut m, &chars_of(" ("));
                push_all(&mut m, &chars_of(primary_name(i)));
                push_all(&mut m, &chars_of(") was set to 0x"));
                push_all(&mut m, &hex_chars(value, true));
                string_of(m.as_slice())
            },
            None => String::from_str(" Failed to set primary offset"),
        }
    }
}


/// Index of the first secondary offset from `j` on whose key equals `t`
/// ignoring ASCII case; -1 for none.
pub open spec fn name_slot_from(t: Seq<char>, j: int) -> int
    decreases 18 - j,
{
    if j < 0 || j >= 18 {
        -1
    } else if ascii_lower_seq(spawn_offset_names()[j]) == ascii_lower_seq(t) {
        j
    } else {
        name_slot_from(t, j + 1)
    }
}

pub open spec fn name_slot(t: Seq<char>) -> int {
    name_slot_from(t, 0)
}

proof fn lemma_name_slot(t: Seq<char>, j: int)
    requires
        0 <= j <= 18,
    ensures
        name_slot_from(t, j) == -1 ==> forall|q: int|
            j <= q < 18 ==> ascii_lower_seq(#[trigger] spawn_offset_names()[q]) != ascii_lower_seq(t),
        name_slot_from(t, j) != -1 ==> {
            let r = name_slot_from(t, j);
            &&& j <= r < 18
            &&& ascii_lower_seq(spawn_offset_names()[r]) == ascii_lower_seq(t)
            &&& forall|q: int| j <= q < r ==> ascii_lower_seq(#[trigger] spawn_offset_names()[q]) != ascii_lower_seq(t)
        },
    decreases 18 - j,
{
    if j < 18 && ascii_lower_seq(spawn_offset_names()[j]) != ascii_lower_seq(t) {
        lemma_name_slot(t, j + 1);
    }
}

/// The secondary offset `sso` addresses: a decimal index below 18, else
/// the key named; -1 for none.
pub open spec fn sso_index(t: Seq<char>) -> int {
    match parse_nat_upto(t, usize::MAX as nat) {
        Some(n) => if n < 18 { n as int } else { -1 },
        None => name_slot(t),
    }
}

/// The reply and effect of `sso <index|name> <hex>`.
pub open spec fn sso_outcome(args: Seq<char>) -> (Option<(int, usize)>, Seq<char>) {
    let t = words(args);
    if t.len() < 2 {
        (None, " Failed to set secondary offset (usage: sso <index|name> <hex>)"@)
    } else {
        match hex_number(hex_arg(t[1]), usize::MAX as nat) {
            None => (None, " Failed to parse hex value '"@ + t[1] + "'"@),
            Some(v) => {
                let i = sso_index(t[0]);
                if 0 <= i < 18 {
                    (
                        Some((i, v as usize)),
                        " Secondary offset #"@ + dec_seq(i as nat) + " ("@ + spawn_offset_names()[i] + ") was set to 0x"@
                            + hex_seq(v, true),
                    )
                } else {
                    (None, " Failed to set secondary offset"@)
                }
            },
        }
    }
}

impl DebugLoop {
    /// `sso <index|name> <hex>`: set a secondary spawn offset (and the read
    /// size); the reply line (see `sso_outcome`).  The new offset plus the
    /// 30-byte slack must fit a `usize`.
    pub fn set_secondary_offset(&mut self, args: &str) -> (msg: String)
        requires
            old(self).wf(),
            sso_outcome(args@).0 matches Some((i, v)) ==> v + FIELD_SLACK <= usize::MAX,
        ensures
            final(self).wf(),
            msg@ == sso_outcome(args@).1,
            final(self).primaries() == old(self).primaries(),
            match sso_outcome(args@).0 {
                Some((i, v)) => final(self).spawn_values() == old(self).spawn_values().update(i, v),
                None => final(self).spawn_values() == old(self).spawn_values(),
            },
    {
        let t = split_words(&chars_of(args));
        let ghost tw = t@.map_values(|w: Vec<char>| w@);
        if t.len() < 2 {
            return String::from_str(" Failed to set secondary offset (usage: sso <index|name> <hex>)");
        }
        assert(tw[0] == t@[0]@ && tw[1] == t@[1]@);
        let value = match parse_hex(&hex_arg_chars(&t[1]), usize::MAX as u64) {
            Some(v) => v as usize,
            None => {
                let mut m = chars_of(" Failed to parse hex value '");
                push_all(&mut m, &t[1]);
                push_all(&mut m, &chars_of("'"));
                return string_of(m.as_slice());
            },
        };
        let named = self.spawn_off.named_values();
        let set: Option<usize> = match parse_u64_upto(&t[0], usize::MAX as u64) {
            Some(n) => {
                let i = n as usize;
                if i < 18 {
                    let ok = self.spawn_off.set_by_index(i, value);
                    Some(i)
                } else {
                    None
                }
            },
            None => {
                proof {
                    lemma_name_slot(tw[0], 0);
                }
                let r = self.spawn_off.set_by_name(string_of(t[0].as_slice()).as_str(), value);
                r
            },
        };
        match set {
            Some(i) => {
                let mut m = chars_of(" Secondary offset #");
                push_all(&mut m, &dec_chars(i as u64));
                push_all(&mut m, &chars_of(" ("));
                push_all(&mut m, &chars_of(named[i].0));
                push_all(&mut m, &chars_of(") was set to 0x"));
                push_all(&mut m, &hex_chars(value as u64, true));
                string_of(m.as_slice())
            },
            None => String::from_str(" Failed to set secondary offset"),
        }
    }
}


/// Index of the first whitespace character of `s`, or -1.
pub open spec fn first_ws(s: Seq<char>) -> int
    decreases s.len(),
{
    if s.len() == 0 {
        -1
    } else if ws(s[0]) {
        0
    } else if first_ws(s.drop_first()) < 0 {
        -1
    } else {
        1 + first_ws(s.drop_first())
    }
}

pub proof fn lemma_first_ws_is(s: Seq<char>, p: int)
    requires
        0 <= p <= s.len(),
        p < s.len() ==> ws(s[p]),
        forall|j: int| 0 <= j < p ==> !ws(#[trigger] s[j]),
    ensures
        first_ws(s) == (if p < s.len() { p } else { -1 }),
    decreases s.len(),
{
    if s.len() > 0 && !ws(s[0]) {
        assert forall|j: int| 0 <= j < p - 1 implies !ws(#[trigger] s.drop_first()[j]) by {
            assert(s.drop_first()[j] == s[j + 1]);
        }
        lemma_first_ws_is(s.drop_first(), p - 1);
    }
}

/// A command line split into the lowercased command word and the rest:
/// the trimmed line up to its first whitespace, and what follows that
/// whitespace with leading whitespace removed.
pub open spec fn command_parts(input: Seq<char>) -> (Seq<char>, Seq<char>) {
    let t = trim(input);
    let p = first_ws(t);
    if p >= 0 {
        (unicode_lowercase(t.take(p)), trim_start(t.skip(p + 1)))
    } else {
        (unicode_lowercase(t), Seq::empty())
    }
}

/// Split a debugger command line (see `command_parts`).  The whitespace
/// that ends the command word must be a one-byte character.
pub fn split_command(input: &str) -> (r: (String, String))
    requires
        first_ws(trim(input@)) >= 0 ==> (trim(input@)[first_ws(trim(input@))] as u32) < 128,
    ensures
        r.0@ == command_parts(input@).0,
        r.1@ == command_parts(input@).1,
{
    let t = trim_chars(&chars_of(input));
    let mut p: usize = 0;
    while p < t.len() && !is_whitespace(t[p])
        invariant
            p <= t@.len(),
            forall|j: int| 0 <= j < p ==> !ws(#[trigger] t@[j]),
        decreases t@.len() - p,
    {
        p = p + 1;
    }
    proof {
        lemma_first_ws_is(t@, p as int);
    }
    if p < t.len() {
        let word = sub_chars(&t, 0, p);
        assert(word@ =~= t@.take(p as int));
        let mut a: usize = p + 1;
        while a < t.len() && is_whitespace(t[a])
            invariant
                p + 1 <= a <= t@.len(),
                forall|j: int| p + 1 <= j < a ==> ws(#[trigger] t@[j]),
            decreases t@.len() - a,
        {
            a = a + 1;
        }
        let rest = sub_chars(&t, a, t.len());
        proof {
            let tail = t@.skip(p + 1);
            assert forall|j: int| 0 <= j < a - p - 1 implies ws(#[trigger] tail[j]) by {
                assert(tail[j] == t@[j + p + 1]);
            }
            lemma_trim_start_skip(tail, a - p - 1);
            assert(tail.skip(a - p - 1) =~= rest@);
            if a - p - 1 < tail.len() {
                assert(!ws(tail.skip(a - p - 1)[0]));
                assert(trim_start(tail.skip(a - p - 1)) == tail.skip(a - p - 1));
            } else {
                assert(tail.skip(a - p - 1) =~= Seq::<char>::empty());
            }
        }
        (string_of(lower_chars(&word).as_slice()), string_of(rest.as_slice()))
    } else {
        (string_of(lower_chars(&t).as_slice()), String::new())
    }
}


/// Does `split_command` accept `input` (its command word, if followed by
/// anything, ends at a one-byte whitespace character)?
pub fn first_ws_ok(input: &str) -> (b: bool)
    ensures
        b == (first_ws(trim(input@)) >= 0 ==> (trim(input@)[first_ws(trim(input@))] as u32) < 128),
{
    let t = trim_chars(&chars_of(input));
    let mut p: usize = 0;
    while p < t.len() && !is_whitespace(t[p])
        invariant
            p <= t@.len(),
            forall|j: int| 0 <= j < p ==> !ws(#[trigger] t@[j]),
        decreases t@.len() - p,
    {
        p = p + 1;
    }
    proof {
        lemma_first_ws_is(t@, p as int);
    }
    p >= t.len() || (t[p] as u32) < 128
}

/// Index of the first secondary key matching `t` (ASCII case-insensitive).
fn name_slot_of(t: &Vec<char>) -> (r: Option<usize>)
    ensures
        match r {
            Some(i) => i < 18 && name_slot(t@) == i,
            None => name_slot(t@) == -1,
        },
{
    let o = SpawnOffsets::default();
    let v = o.named_values();
    let lt = crate::text::ascii_lower_chars(t);
    let mut i: usize = 0;
    proof {
        lemma_name_slot(t@, 0);
    }
    while i < 18
        invariant
            i <= 18,
            v@.len() == 18,
            lt@ == ascii_lower_seq(t@),
            forall|k: int| 0 <= k < 18 ==> (#[trigger] v@[k]).0@ == spawn_offset_names()[k],
            name_slot(t@) == name_slot_from(t@, i as int),
        decreases 18 - i,
    {
        let key = crate::text::ascii_lower_chars(&chars_of(v[i].0));
        if chars_eq(&key, &lt) {
            return Some(i);
        }
        i = i + 1;
    }
    None
}

impl DebugLoop {
    /// Does `set_secondary_offset` accept `args` (the offset it would set
    /// plus the 30-byte slack fits a `usize`)?
    pub fn secondary_fits(&self, args: &str) -> (b: bool)
        ensures
            b == (sso_outcome(args@).0 matches Some((i, v)) ==> v + FIELD_SLACK <= usize::MAX),
    {
        let t = split_words(&chars_of(args));
        let ghost tw = t@.map_values(|w: Vec<char>| w@);
        if t.len() < 2 {
            return true;
        }
        assert(tw[0] == t@[0]@ && tw[1] == t@[1]@);
        let value = match parse_hex(&hex_arg_chars(&t[1]), usize::MAX as u64) {
            Some(v) => v,
            None => {
                return true;
            },
        };
        let target = match parse_u64_upto(&t[0], usize::MAX as u64) {
            Some(n) => n < 18,
            None => name_slot_of(&t[0]).is_some(),
        };
        !target || value <= (usize::MAX - FIELD_SLACK) as u64
    }
}

/// A console command, as its word selects it.  `ot` is the index of a
/// primary address (zone, spawns, self, target, ground, world).
#[derive(Debug, Clone, Copy, PartialEq, Eq, Structural)]
pub enum DebugCommand {
    Menu,
    Display,
    Reload,
    SetPrimary,
    SetSecondary,
    Examine { ot: usize },
    FindString { ot: usize },
    ProcessSpawn { ot: usize },
    ShowProcesses,
    /// Search for the given floats from an address given in the arguments.
    FloatsAt { addr: u64 },
    /// Search for the given floats from the structure at `ot`.
    Floats { ot: usize },
    /// Search for an unsigned value `width` bytes wide in the structure at `ot`.
    Uint { ot: usize, width: u8 },
    WorldFromDate,
    /// Search near the ground items for an item name.
    GroundString,
    Walk { ot: usize, reverse: bool },
    Exit,
    Nothing,
    Invalid,
}

/// The start address of `sfa`: the fourth comma-separated argument,
/// trimmed, without leading `0x`, read as hex; 0 when absent or unreadable.
pub open spec fn sfa_addr(args: Seq<char>) -> u64 {
    let parts = split_seq(args, ',');
    if parts.len() > 3 {
        match hex_number(strip_all(trim(parts[3]), "0x"@), u64::MAX as nat) {
            Some(n) => n as u64,
            None => 0,
        }
    } else {
        0
    }
}

/// The command a (lowercased) command word selects.
pub open spec fn command_of(cmd: Seq<char>, args: Seq<char>) -> DebugCommand {
    if cmd == "?"@ { DebugCommand::Menu }
    else if cmd == "d"@ { DebugCommand::Display }
    else if cmd == "r"@ { DebugCommand::Reload }
    else if cmd == "spo"@ { DebugCommand::SetPrimary }
    else if cmd == "sso"@ { DebugCommand::SetSecondary }
    else if cmd == "ez"@ { DebugCommand::Examine { ot: 0 } }
    else if cmd == "et"@ { DebugCommand::Examine { ot: 3 } }
    else if cmd == "es"@ { DebugCommand::Examine { ot: 2 } }
    else if cmd == "ew"@ { DebugCommand::Examine { ot: 5 } }
    else if cmd == "fz"@ { DebugCommand::FindString { ot: 0 } }
    else if cmd == "ft"@ { DebugCommand::FindString { ot: 3 } }
    else if cmd == "fs"@ { DebugCommand::FindString { ot: 2 } }
    else if cmd == "ps"@ { DebugCommand::ProcessSpawn { ot: 2 } }
    else if cmd == "pt"@ { DebugCommand::ProcessSpawn { ot: 3 } }
    else if cmd == "sp"@ { DebugCommand::ShowProcesses }
    else if cmd == "sfa"@ { DebugCommand::FloatsAt { addr: sfa_addr(args) } }
    else if cmd == "sft"@ { DebugCommand::Floats { ot: 3 } }
    else if cmd == "sfs"@ { DebugCommand::Floats { ot: 2 } }
    else if cmd == "sfu"@ { DebugCommand::Uint { ot: 2, width: 4 } }
    else if cmd == "sbt"@ { DebugCommand::Uint { ot: 3, width: 2 } }
    else if cmd == "sbs"@ { DebugCommand::Uint { ot: 2, width: 2 } }
    else if cmd == "sfw"@ { DebugCommand::WorldFromDate }
    else if cmd == "sg"@ { DebugCommand::GroundString }
    else if cmd == "ws"@ { DebugCommand::Walk { ot: 2, reverse: true } }
    else if cmd == "wt"@ { DebugCommand::Walk { ot: 3, reverse: true } }
    else if cmd == "vs"@ { DebugCommand::Walk { ot: 2, reverse: false } }
    else if cmd == "vt"@ { DebugCommand::Walk { ot: 3, reverse: false } }
    else if cmd == "x"@ { DebugCommand::Exit }
    else if cmd.len() == 0 { DebugCommand::Nothing }
    else { DebugCommand::Invalid }
}

fn is_word(v: &Vec<char>, w: &str) -> (b: bool)
    ensures
        b == (v@ == w@),
{
    let c = chars_of(w);
    chars_eq(v, &c)
}

/// Select the command for a command word and its arguments (the parts
/// `split_command` gives); see `command_of`.
pub fn debug_command(cmd: &str, args: &str) -> (c: DebugCommand)
    ensures
        c == command_of(cmd@, args@),
{
    let w = chars_of(cmd);
    if is_word(&w, "?") { DebugCommand::Menu }
    else if is_word(&w, "d") { DebugCommand::Display }
    else if is_word(&w, "r") { DebugCommand::Reload }
    else if is_word(&w, "spo") { DebugCommand::SetPrimary }
    else if is_word(&w, "sso") { DebugCommand::SetSecondary }
    else if is_word(&w, "ez") { DebugCommand::Examine { ot: 0 } }
    else if is_word(&w, "et") { DebugCommand::Examine { ot: 3 } }
    else if is_word(&w, "es") { DebugCommand::Examine { ot: 2 } }
    else if is_word(&w, "ew") { DebugCommand::Examine { ot: 5 } }
    else if is_word(&w, "fz") { DebugCommand::FindString { ot: 0 } }
    else if is_word(&w, "ft") { DebugCommand::FindString { ot: 3 } }
    else if is_word(&w, "fs") { DebugCommand::FindString { ot: 2 } }
    else if is_word(&w, "ps") { DebugCommand::ProcessSpawn { ot: 2 } }
    else if is_word(&w, "pt") { DebugCommand::ProcessSpawn { ot: 3 } }
    else if is_word(&w, "sp") { DebugCommand::ShowProcesses }
    else if is_word(&w, "sfa") { DebugCommand::FloatsAt { addr: sfa_address(args) } }
    else if is_word(&w, "sft") { DebugCommand::Floats { ot: 3 } }
    else if is_word(&w, "sfs") { DebugCommand::Floats { ot: 2 } }
    else if is_word(&w, "sfu") { DebugCommand::Uint { ot: 2, width: 4 } }
    else if is_word(&w, "sbt") { DebugCommand::Uint { ot: 3, width: 2 } }
    else if is_word(&w, "sbs") { DebugCommand::Uint { ot: 2, width: 2 } }
    else if is_word(&w, "sfw") { DebugCommand::WorldFromDate }
    else if is_word(&w, "sg") { DebugCommand::GroundString }
    else if is_word(&w, "ws") { DebugCommand::Walk { ot: 2, reverse: true } }
    else if is_word(&w, "wt") { DebugCommand::Walk { ot: 3, reverse: true } }
    else if is_word(&w, "vs") { DebugCommand::Walk { ot: 2, reverse: false } }
    else if is_word(&w, "vt") { DebugCommand::Walk { ot: 3, reverse: false } }
    else if is_word(&w, "x") { DebugCommand::Exit }
    else if w.len() == 0 { DebugCommand::Nothing }
    else { DebugCommand::Invalid }
}

/// The start address of `sfa` (see `sfa_addr`).
pub fn sfa_address(args: &str) -> (a: u64)
    ensures
        a == sfa_addr(args@),
{
    let parts = split_chars(&chars_of(args), ',');
    if parts.len() > 3 {
        let t = trim_chars(&parts[3]);
        let h = strip_all_chars(&t, &chars_of("0x"));
        match parse_hex(&h, u64::MAX) {
            Some(n) => n,
            None => 0,
        }
    } else {
        0
    }
}

} // verus!

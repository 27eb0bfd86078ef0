//! Reading back the offset scan's report: the `Key=0xvalue # status`
//! lines under `[Memory Offsets]` and `[SpawnInfo Offsets]`, the
//! `Key=value` lines under `[File Info]`, and the addresses and offsets
//! they give, which seed the offset wizard.
use vstd::prelude::*;
use crate::debugger::{
    first_ws, hex_digit, hex_digit_val, hex_digits_value, hex_number, lemma_first_ws_is, parse_hex,
};
use crate::scanner::{outcome_suffix, scan_line_text, ScanOutcome};
use crate::offsets::PrimaryOffsets;
use crate::text::{
    ascii_lower, ascii_lower_seq, chars_of, eq_ignore_ascii_case, find_char, find_char_from,
    hex_char, hex_seq, is_whitespace, lemma_find_char_is, lemma_trim_end_take, lemma_trim_start_skip,
    lines_chars, lines_seq, seqs, string_of, sub_chars, trim, trim_chars, trim_end, trim_start, ws,
};

verus! {

/// Key and value texts, in report order.
pub open spec fn pair_texts(v: Seq<(String, String)>) -> Seq<(Seq<char>, Seq<char>)> {
    v.map_values(|p: (String, String)| (p.0@, p.1@))
}

/// Where the report reader stands after some lines.
pub struct LogState {
    pub in_primary: bool,
    pub in_secondary: bool,
    pub primary: Seq<(Seq<char>, Seq<char>)>,
    pub secondary: Seq<(Seq<char>, Seq<char>)>,
}

/// The first whitespace-separated word of `s`, if any.
pub open spec fn first_word(s: Seq<char>) -> Option<Seq<char>> {
    let t = trim_start(s);
    if t.len() == 0 {
        None
    } else if first_ws(t) >= 0 {
        Some(t.take(first_ws(t)))
    } else {
        Some(t)
    }
}

/// The value of a report line: the first word after `=`, or a dash.
pub open spec fn log_value(rest: Seq<char>) -> Seq<char> {
    match first_word(rest) {
        Some(w) => w,
        None => seq!['\u{2014}'],
    }
}

/// ASCII case-insensitive equality.
pub open spec fn same_ignoring_case(a: Seq<char>, b: Seq<char>) -> bool {
    ascii_lower_seq(a) == ascii_lower_seq(b)
}

/// One line of the report: a section header switches sections, another
/// `[` line leaves them, and a `key=value` line inside one is kept.
pub open spec fn log_step(st: LogState, raw: Seq<char>) -> LogState {
    let line = trim(raw);
    if same_ignoring_case(line, "[memory offsets]"@) {
        LogState { in_primary: true, in_secondary: false, ..st }
    } else if same_ignoring_case(line, "[spawninfo offsets]"@) {
        LogState { in_primary: false, in_secondary: true, ..st }
    } else if line.len() > 0 && line[0] == '[' {
        LogState { in_primary: false, in_secondary: false, ..st }
    } else if find_char(line, '=') >= 0 {
        let eq = find_char(line, '=');
        let kv = (trim(line.take(eq)), log_value(line.skip(eq + 1)));
        if st.in_primary {
            LogState { primary: st.primary.push(kv), ..st }
        } else if st.in_secondary {
            LogState { secondary: st.secondary.push(kv), ..st }
        } else {
            st
        }
    } else {
        st
    }
}

pub open spec fn log_fold(ls: Seq<Seq<char>>) -> LogState
    decreases ls.len(),
{
    if ls.len() == 0 {
        LogState {
            in_primary: false,
            in_secondary: false,
            primary: Seq::empty(),
            secondary: Seq::empty(),
        }
    } else {
        log_step(log_fold(ls.drop_last()), ls.last())
    }
}

/// The first word of `v[from..]`.
fn first_word_from(v: &Vec<char>, from: usize) -> (r: Option<Vec<char>>)
    requires
        from <= v.len(),
    ensures
        match r {
            Some(w) => first_word(v@.skip(from as int)) == Some(w@),
            None => first_word(v@.skip(from as int)) is None,
        },
{
    let ghost s = v@.skip(from as int);
    let mut a = from;
    while a < v.len() && is_whitespace(v[a])
        invariant
            from <= a <= v.len(),
            s == v@.skip(from as int),
            forall|j: int| 0 <= j < a - from ==> ws(#[trigger] s[j]),
        decreases v.len() - a,
    {
        assert(s[a - from] == v@[a as int]);
        a = a + 1;
    }
    proof {
        lemma_trim_start_skip(s, a - from);
        assert(s.skip(a - from) =~= v@.skip(a as int));
        if a < v.len() {
            assert(!ws(v@[a as int]));
            assert(trim_start(v@.skip(a as int)) == v@.skip(a as int));
        } else {
            assert(v@.skip(a as int) =~= Seq::<char>::empty());
        }
    }
    let ghost t = v@.skip(a as int);
    if a == v.len() {
        return None;
    }
    let mut w: Vec<char> = Vec::new();
    let mut b = a;
    while b < v.len() && !is_whitespace(v[b])
        invariant
            a <= b <= v.len(),
            t == v@.skip(a as int),
            w@ == t.take(b - a),
            forall|j: int| 0 <= j < b - a ==> !ws(#[trigger] t[j]),
        decreases v.len() - b,
    {
        assert(t[b - a] == v@[b as int]);
        w.push(v[b]);
        assert(w@ =~= t.take(b - a + 1));
        b = b + 1;
    }
    proof {
        if b < v.len() {
            assert(t[b - a] == v@[b as int]);
            lemma_first_ws_is(t, b - a);
        } else {
            lemma_first_ws_is(t, t.len() as int);
            assert(t.take(b - a) =~= t);
        }
    }
    Some(w)
}

/// Read the scan report: the `key=value` pairs of its `[Memory Offsets]`
/// and `[SpawnInfo Offsets]` sections, each value the first word after
/// `=` (a dash when there is none).
pub fn parse_scan_log(log: &str) -> (r: (Vec<(String, String)>, Vec<(String, String)>))
    ensures
        pair_texts(r.0@) == log_fold(lines_seq(log@)).primary,
        pair_texts(r.1@) == log_fold(lines_seq(log@)).secondary,
{
    let ls = lines_chars(&chars_of(log));
    let ghost lv = seqs(ls@);
    let mem_header = chars_of("[memory offsets]");
    let spawn_header = chars_of("[spawninfo offsets]");
    let mut primary: Vec<(String, String)> = Vec::new();
    let mut secondary: Vec<(String, String)> = Vec::new();
    let mut in_primary = false;
    let mut in_secondary = false;
    let mut i: usize = 0;
    while i < ls.len()
        invariant
            i <= ls@.len(),
            lv == seqs(ls@),
            lv == lines_seq(log@),
            mem_header@ == "[memory offsets]"@,
            spawn_header@ == "[spawninfo offsets]"@,
            ({
                let st = log_fold(lv.take(i as int));
                &&& st.in_primary == in_primary
                &&& st.in_secondary == in_secondary
                &&& st.primary == pair_texts(primary@)
                &&& st.secondary == pair_texts(secondary@)
            }),
        decreases ls@.len() - i,
    {
        assert(lv.take(i + 1).drop_last() =~= lv.take(i as int));
        assert(lv.take(i + 1).last() == ls@[i as int]@);
        let line = trim_chars(&ls[i]);
        if eq_ignore_ascii_case(&line, &mem_header) {
            in_primary = true;
            in_secondary = false;
        } else if eq_ignore_ascii_case(&line, &spawn_header) {
            in_primary = false;
            in_secondary = true;
        } else if line.len() > 0 && line[0] == '[' {
            in_primary = false;
            in_secondary = false;
        } else {
            match find_char_from(&line, '=', 0) {
                Some(eq) => {
                    proof {
                        assert(line@.skip(0) =~= line@);
                    }
                    let key = string_of(trim_chars(&sub_chars(&line, 0, eq)).as_slice());
                    proof {
                        assert(line@.take(eq as int) =~= line@.subrange(0, eq as int));
                    }
                    let val = match first_word_from(&line, eq + 1) {
                        Some(w) => string_of(w.as_slice()),
                        None => {
                            let mut d: Vec<char> = Vec::new();
                            d.push('\u{2014}');
                            string_of(d.as_slice())
                        },
                    };
                    if in_primary {
                        let ghost before = pair_texts(primary@);
                        primary.push((key, val));
                        assert(pair_texts(primary@) =~= before.push((key@, val@)));
                    } else if in_secondary {
                        let ghost before = pair_texts(secondary@);
                        secondary.push((key, val));
                        assert(pair_texts(secondary@) =~= before.push((key@, val@)));
                    }
                },
                None => {
                    proof {
                        assert(line@.skip(0) =~= line@);
                    }
                },
            }
        }
        i = i + 1;
    }
    assert(lv.take(i as int) =~= lv);
    (primary, secondary)
}

/// One line of the report's `[File Info]` section reading: whether the
/// section is open, and the pairs kept so far.
pub open spec fn info_step(st: (bool, Seq<(Seq<char>, Seq<char>)>), raw: Seq<char>) -> (
    bool,
    Seq<(Seq<char>, Seq<char>)>,
) {
    let line = trim(raw);
    if same_ignoring_case(line, "[file info]"@) {
        (true, st.1)
    } else if line.len() > 0 && line[0] == '[' {
        (false, st.1)
    } else if st.0 && find_char(line, '=') >= 0 {
        let eq = find_char(line, '=');
        let val = trim(line.skip(eq + 1));
        if val.len() > 0 {
            (st.0, st.1.push((trim(line.take(eq)), val)))
        } else {
            st
        }
    } else {
        st
    }
}

pub open spec fn info_fold(ls: Seq<Seq<char>>) -> (bool, Seq<(Seq<char>, Seq<char>)>)
    decreases ls.len(),
{
    if ls.len() == 0 {
        (false, Seq::empty())
    } else {
        info_step(info_fold(ls.drop_last()), ls.last())
    }
}

/// The `key=value` pairs of the report's `[File Info]` section, empty
/// values left out.
pub fn scan_file_info(log: &str) -> (r: Vec<(String, String)>)
    ensures
        pair_texts(r@) == info_fold(lines_seq(log@)).1,
{
    let ls = lines_chars(&chars_of(log));
    let ghost lv = seqs(ls@);
    let header = chars_of("[file info]");
    let mut items: Vec<(String, String)> = Vec::new();
    let mut in_section = false;
    let mut i: usize = 0;
    while i < ls.len()
        invariant
            i <= ls@.len(),
            lv == seqs(ls@),
            lv == lines_seq(log@),
            header@ == "[file info]"@,
            info_fold(lv.take(i as int)) == (in_section, pair_texts(items@)),
        decreases ls@.len() - i,
    {
        assert(lv.take(i + 1).drop_last() =~= lv.take(i as int));
        assert(lv.take(i + 1).last() == ls@[i as int]@);
        let line = trim_chars(&ls[i]);
        if eq_ignore_ascii_case(&line, &header) {
            in_section = true;
        } else if line.len() > 0 && line[0] == '[' {
            in_section = false;
        } else if in_section {
            match find_char_from(&line, '=', 0) {
                Some(eq) => {
                    proof {
                        assert(line@.skip(0) =~= line@);
                        assert(line@.take(eq as int) =~= line@.subrange(0, eq as int));
                        assert(line@.skip(eq + 1) =~= line@.subrange(eq + 1, line@.len() as int));
                    }
                    let val = trim_chars(&sub_chars(&line, eq + 1, line.len()));
                    if val.len() > 0 {
                        let key = string_of(trim_chars(&sub_chars(&line, 0, eq)).as_slice());
                        let v = string_of(val.as_slice());
                        let ghost before = pair_texts(items@);
                        items.push((key, v));
                        assert(pair_texts(items@) =~= before.push((key@, v@)));
                    }
                },
                None => {
                    proof {
                        assert(line@.skip(0) =~= line@);
                    }
                },
            }
        }
        i = i + 1;
    }
    assert(lv.take(i as int) =~= lv);
    items
}

/// `s` with every leading `0x` removed (`trim_start_matches("0x")`).
pub open spec fn without_hex_prefix(s: Seq<char>) -> Seq<char>
    decreases s.len(),
{
    if s.len() >= 2 && s[0] == '0' && s[1] == 'x' {
        without_hex_prefix(s.skip(2))
    } else {
        s
    }
}

/// A report value as a number: hexadecimal after any leading `0x`.
pub open spec fn report_number(s: Seq<char>) -> Option<u64> {
    match hex_number(without_hex_prefix(s), u64::MAX as nat) {
        Some(n) => Some(n as u64),
        None => None,
    }
}

/// Read a report value as a number (see `report_number`).
pub fn report_hex(v: &str) -> (r: Option<u64>)
    ensures
        r == report_number(v@),
{
    let c = chars_of(v);
    let mut a: usize = 0;
    assert(c@.skip(0) =~= c@);
    while c.len() - a >= 2 && c[a] == '0' && c[a + 1] == 'x'
        invariant
            a <= c.len(),
            without_hex_prefix(c@.skip(a as int)) == without_hex_prefix(c@),
        decreases c.len() - a,
    {
        assert(c@.skip(a as int).skip(2) =~= c@.skip(a + 2));
        a = a + 2;
    }
    let rest = sub_chars(&c, a, c.len());
    assert(rest@ =~= c@.skip(a as int));
    assert(without_hex_prefix(rest@) == rest@);
    parse_hex(&rest, u64::MAX)
}

/// The value under the first pair with key `key`, read as a number; 0 when
/// there is no such pair or it does not read.
pub open spec fn address_of(pairs: Seq<(Seq<char>, Seq<char>)>, key: Seq<char>) -> u64
    decreases pairs.len(),
{
    if pairs.len() == 0 {
        0
    } else if pairs[0].0 == key {
        match report_number(pairs[0].1) {
            Some(n) => n,
            None => 0,
        }
    } else {
        address_of(pairs.drop_first(), key)
    }
}

fn address_in(pairs: &Vec<(String, String)>, key: &str) -> (r: u64)
    ensures
        r == address_of(pair_texts(pairs@), key@),
{
    let k = chars_of(key);
    let ghost ps = pair_texts(pairs@);
    let mut i: usize = 0;
    assert(ps.skip(0) =~= ps);
    while i < pairs.len()
        invariant
            i <= pairs@.len(),
            ps == pair_texts(pairs@),
            k@ == key@,
            address_of(ps, key@) == address_of(ps.skip(i as int), key@),
        decreases pairs@.len() - i,
    {
        let ghost rest = ps.skip(i as int);
        assert(rest[0] == (pairs@[i as int].0@, pairs@[i as int].1@));
        assert(rest.drop_first() =~= ps.skip(i + 1));
        if crate::text::chars_eq(&chars_of(pairs[i].0.as_str()), &k) {
            return match report_hex(pairs[i].1.as_str()) {
                Some(n) => n,
                None => 0,
            };
        }
        i = i + 1;
    }
    assert(ps.skip(i as int) =~= Seq::<(Seq<char>, Seq<char>)>::empty());
    0
}

/// The wizard's starting addresses: each structure's address from the
/// report's `[Memory Offsets]` pairs.
pub fn seed_primary(primary: &Vec<(String, String)>) -> (o: PrimaryOffsets)
    ensures
        o.zone_name == address_of(pair_texts(primary@), "ZoneAddr"@),
        o.spawn_list == address_of(pair_texts(primary@), "SpawnHeaderAddr"@),
        o.self_addr == address_of(pair_texts(primary@), "CharInfo"@),
        o.ground == address_of(pair_texts(primary@), "ItemsAddr"@),
        o.target == address_of(pair_texts(primary@), "TargetAddr"@),
        o.world == address_of(pair_texts(primary@), "WorldAddr"@),
{
    PrimaryOffsets {
        zone_name: address_in(primary, "ZoneAddr"),
        spawn_list: address_in(primary, "SpawnHeaderAddr"),
        self_addr: address_in(primary, "CharInfo"),
        ground: address_in(primary, "ItemsAddr"),
        target: address_in(primary, "TargetAddr"),
        world: address_in(primary, "WorldAddr"),
    }
}

/// The pairs whose value reads as a number, with that number.
pub open spec fn numbered(pairs: Seq<(Seq<char>, Seq<char>)>) -> Seq<(Seq<char>, u64)>
    decreases pairs.len(),
{
    if pairs.len() == 0 {
        Seq::empty()
    } else {
        let r = numbered(pairs.drop_last());
        match report_number(pairs.last().1) {
            Some(n) => r.push((pairs.last().0, n)),
            None => r,
        }
    }
}

/// The wizard's starting offsets: the report's `[SpawnInfo Offsets]`
/// pairs whose value reads as a number.
pub fn seed_secondary(secondary: &Vec<(String, String)>) -> (r: Vec<(String, u64)>)
    ensures
        r@.map_values(|p: (String, u64)| (p.0@, p.1)) == numbered(pair_texts(secondary@)),
{
    let ghost ps = pair_texts(secondary@);
    let mut r: Vec<(String, u64)> = Vec::new();
    let mut i: usize = 0;
    while i < secondary.len()
        invariant
            i <= secondary@.len(),
            ps == pair_texts(secondary@),
            r@.map_values(|p: (String, u64)| (p.0@, p.1)) == numbered(ps.take(i as int)),
        decreases secondary@.len() - i,
    {
        assert(ps.take(i + 1).drop_last() =~= ps.take(i as int));
        assert(ps.take(i + 1).last() == (secondary@[i as int].0@, secondary@[i as int].1@));
        match report_hex(secondary[i].1.as_str()) {
            Some(n) => {
                let ghost before = r@.map_values(|p: (String, u64)| (p.0@, p.1));
                let k = secondary[i].0.clone();
                r.push((k, n));
                assert(r@.map_values(|p: (String, u64)| (p.0@, p.1)) =~= before.push(
                    (secondary@[i as int].0@, n),
                ));
            },
            None => {},
        }
        i = i + 1;
    }
    assert(ps.take(i as int) =~= ps);
    r
}

/// A number's lowercase hexadecimal text is hex digits (none of them `x`
/// or whitespace) whose value is the number.
proof fn lemma_hex_digits(n: nat)
    ensures
        hex_seq(n, false).len() > 0,
        forall|i: int|
            0 <= i < hex_seq(n, false).len() ==> hex_digit(#[trigger] hex_seq(n, false)[i])
                && hex_seq(n, false)[i] != 'x' && hex_seq(n, false)[i] != '+' && !ws(
                hex_seq(n, false)[i],
            ),
        hex_digits_value(hex_seq(n, false)) == n,
    decreases n,
{
    let d = n % 16;
    assert(hex_digit(hex_char(d, false)) && hex_char(d, false) != 'x' && hex_char(d, false) != '+'
        && (hex_char(d, false) as u32) < 128 && hex_digit_val(hex_char(d, false)) == d);
    if n < 16 {
        assert(hex_seq(n, false).drop_last() =~= Seq::<char>::empty());
        assert(hex_digits_value(Seq::<char>::empty()) == 0);
    } else {
        lemma_hex_digits(n / 16);
        assert(hex_seq(n, false).drop_last() =~= hex_seq(n / 16, false));
        assert((n / 16) * 16 + n % 16 == n) by (nonlinear_arith);
        assert forall|i: int| 0 <= i < hex_seq(n, false).len() implies hex_digit(
            #[trigger] hex_seq(n, false)[i],
        ) && hex_seq(n, false)[i] != 'x' && hex_seq(n, false)[i] != '+' && !ws(hex_seq(n, false)[i]) by {
            if i < hex_seq(n / 16, false).len() {
                assert(hex_seq(n, false)[i] == hex_seq(n / 16, false)[i]);
            }
        }
    }
}

/// Each status ending of a report line: a space first, a non-space
/// before the closing `\r\n`.
proof fn lemma_suffix_shape(o: ScanOutcome)
    ensures
        ({
            let s = outcome_suffix(o);
            &&& s.len() >= 4
            &&& s[0] == ' '
            &&& s[s.len() - 2] == '\r'
            &&& s[s.len() - 1] == '\n'
            &&& !ws(s[s.len() - 3])
        }),
{
    match o {
        ScanOutcome::NotFound => {
            reveal_strlit(" # Not Found\r\n");
        },
        ScanOutcome::Match => {
            reveal_strlit(" # Match\r\n");
        },
        ScanOutcome::Written => {
            reveal_strlit(" # Written to ini file\r\n");
        },
        ScanOutcome::WriteFailed => {
            reveal_strlit(" # Found - Write failed\r\n");
        },
        ScanOutcome::Mismatch => {
            reveal_strlit(" # Does not match ini file.\r\n");
        },
        ScanOutcome::Found => {
            reveal_strlit(" # Found\r\n");
        },
    }
}

/// What the offset scan writes into its report is read back by the report
/// reader: inside a section, the line `label=0x<value> # <status>` adds the
/// pair of the trimmed label and `0x<value>`, and that value reads as the
/// number written.  This holds for a label that holds no `=` and starts
/// with neither whitespace nor `[`.
pub proof fn law_scan_line_read_back(st: LogState, label: Seq<char>, value: u64, o: ScanOutcome)
    requires
        label.len() > 0,
        !ws(label[0]),
        label[0] != '[',
        !label.contains('='),
    ensures
        ({
            let kv = (trim(label), seq!['0', 'x'] + hex_seq(value as nat, false));
            log_step(st, scan_line_text(label, value, o)) == (if st.in_primary {
                LogState { primary: st.primary.push(kv), ..st }
            } else if st.in_secondary {
                LogState { secondary: st.secondary.push(kv), ..st }
            } else {
                st
            })
        }),
        report_number(seq!['0', 'x'] + hex_seq(value as nat, false)) == Some(value),
{
    let hex = hex_seq(value as nat, false);
    let sfx = outcome_suffix(o);
    let text = scan_line_text(label, value, o);
    let n = label.len() as int;
    let word = seq!['0', 'x'] + hex;
    lemma_hex_digits(value as nat);
    lemma_suffix_shape(o);
    // The trimmed line: the text without its closing `\r\n`.
    let line = text.take(text.len() - 2);
    assert(text[0] == label[0]);
    assert(trim_start(text) == text);
    assert forall|j: int| text.len() - 2 <= j < text.len() implies ws(#[trigger] text[j]) by {
        assert(text[j] == sfx[j - (text.len() - sfx.len())]);
    }
    lemma_trim_end_take(text, text.len() - 2);
    assert(line.last() == sfx[sfx.len() - 3]);
    assert(trim_end(line) == line);
    assert(trim(text) == line);
    // Not a section header.
    reveal_strlit("[memory offsets]");
    reveal_strlit("[spawninfo offsets]");
    assert(ascii_lower_seq(line)[0] == ascii_lower(label[0]));
    assert(ascii_lower(label[0]) != '[');
    assert(!same_ignoring_case(line, "[memory offsets]"@)) by {
        if same_ignoring_case(line, "[memory offsets]"@) {
            assert(ascii_lower_seq("[memory offsets]"@)[0] == '[');
        }
    }
    assert(!same_ignoring_case(line, "[spawninfo offsets]"@)) by {
        if same_ignoring_case(line, "[spawninfo offsets]"@) {
            assert(ascii_lower_seq("[spawninfo offsets]"@)[0] == '[');
        }
    }
    // The `=` right after the label.
    assert(line[n] == '=');
    assert forall|j: int| 0 <= j < line.len() && j < n implies line[j] != '=' by {
        assert(line[j] == label[j]);
    }
    lemma_find_char_is(line, '=', n);
    assert(line.take(n) =~= label);
    // The value: the first word after `=`.
    let rest = line.skip(n + 1);
    assert(rest[0] == '0');
    assert(trim_start(rest) == rest);
    let w: int = 2 + hex.len() as int;
    assert(rest[w] == ' ') by {
        assert(rest[w] == sfx[0]);
    }
    assert forall|j: int| 0 <= j < w implies !ws(#[trigger] rest[j]) by {
        if j >= 2 {
            assert(rest[j] == hex[j - 2]);
        }
    }
    lemma_first_ws_is(rest, w);
    assert(rest.take(w) =~= word);
    assert(log_value(rest) == word);
    // The value reads back.
    assert(word.skip(2) =~= hex);
    assert(without_hex_prefix(hex) == hex) by {
        if hex.len() >= 2 {
            assert(hex[1] != 'x');
        }
    }
    assert(without_hex_prefix(word) == hex);
    assert(crate::debugger::plus_stripped(hex) == hex);
}

} // verus!

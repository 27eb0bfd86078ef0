//! The client's INI configuration: a minimal INI reader (sections, keys
//! and values, case-insensitive names, `;` and `#` comments) and the
//! settings read from it, each with its default.
use vstd::prelude::*;
use crate::assoc::{assoc_get, assoc_put, key_index, lemma_key_index_is};
use crate::text::{
    chars_eq, chars_of, dec_chars, dec_seq, find_char, find_char_from, lines_chars, lines_seq, push_all,
    parse_nat_upto, parse_u64_upto, seqs, string_of, sub_chars, to_lowercase, trim, trim_chars,
    unicode_lowercase,
};

verus! {

/// Section name to (key to value), as text.
pub type IniView = Seq<(Seq<char>, Seq<(Seq<char>, Seq<char>)>)>;

/// A parsed INI file.  Section and key names are lowercase.
pub struct IniData {
    sections: Vec<(String, Vec<(String, String)>)>,
}

pub open spec fn entries_view(e: Seq<(String, String)>) -> Seq<(Seq<char>, Seq<char>)> {
    e.map_values(|p: (String, String)| (p.0@, p.1@))
}

impl View for IniData {
    type V = IniView;

    closed spec fn view(&self) -> IniView {
        self.sections@.map_values(
            |s: (String, Vec<(String, String)>)| (s.0@, entries_view(s.1@)),
        )
    }
}

/// The text between `[` and the first `]` of a section line, trimmed and
/// lowercased; `None` when there is no `]`.
pub open spec fn section_header(line: Seq<char>) -> Option<Seq<char>> {
    let e = find_char(line, ']');
    if e < 0 {
        None
    } else {
        Some(unicode_lowercase(trim(line.subrange(1, e))))
    }
}

/// Set `key = val` in section `sec`, creating the section when needed.
pub open spec fn ini_put(m: IniView, sec: Seq<char>, key: Seq<char>, val: Seq<char>) -> IniView {
    let cur = match assoc_get(m, sec) {
        Some(e) => e,
        None => Seq::empty(),
    };
    assoc_put(m, sec, assoc_put(cur, key, val))
}

/// The reader's state after a line: the current section and the data.
/// Blank lines and comments change nothing; `[name]` changes the section;
/// `key=value` sets the trimmed, lowercased key to the trimmed value.
pub open spec fn ini_line(st: (Seq<char>, IniView), raw: Seq<char>) -> (Seq<char>, IniView) {
    let line = trim(raw);
    if line.len() == 0 || line[0] == ';' || line[0] == '#' {
        st
    } else if line[0] == '[' {
        match section_header(line) {
            Some(s) => (s, st.1),
            None => st,
        }
    } else {
        let eq = find_char(line, '=');
        if eq < 0 {
            st
        } else {
            (
                st.0,
                ini_put(
                    st.1,
                    st.0,
                    unicode_lowercase(trim(line.take(eq))),
                    trim(line.skip(eq + 1)),
                ),
            )
        }
    }
}

pub open spec fn ini_lines(lines: Seq<Seq<char>>) -> (Seq<char>, IniView)
    decreases lines.len(),
{
    if lines.len() == 0 {
        (Seq::empty(), Seq::empty())
    } else {
        ini_line(ini_lines(lines.drop_last()), lines.last())
    }
}

/// The data an INI text holds (see `ini_line`); keys before any section
/// go to the section named by the empty string.
pub open spec fn ini_of(text: Seq<char>) -> IniView {
    ini_lines(lines_seq(text)).1
}

/// The value of `key` in section `sec`.
pub open spec fn ini_value(m: IniView, sec: Seq<char>, key: Seq<char>) -> Option<Seq<char>> {
    match assoc_get(m, sec) {
        Some(e) => assoc_get(e, key),
        None => None,
    }
}

/// A copy of a section's entries.
fn copy_entries(e: &Vec<(String, String)>) -> (r: Vec<(String, String)>)
    ensures
        entries_view(r@) == entries_view(e@),
{
    let mut r: Vec<(String, String)> = Vec::new();
    let mut i: usize = 0;
    while i < e.len()
        invariant
            i <= e@.len(),
            entries_view(r@) == entries_view(e@.take(i as int)),
        decreases e@.len() - i,
    {
        let k: String = e[i].0.clone();
        let v: String = e[i].1.clone();
        assert(k@ == e@[i as int].0@ && v@ == e@[i as int].1@);
        let ghost before = r@;
        r.push((k, v));
        assert(entries_view(r@) =~= entries_view(before).push((k@, v@)));
        assert(e@.take(i + 1) =~= e@.take(i as int).push(e@[i as int]));
        assert(entries_view(e@.take(i + 1)) =~= entries_view(e@.take(i as int)).push(
            (e@[i as int].0@, e@[i as int].1@),
        ));
        i = i + 1;
    }
    assert(e@.take(i as int) =~= e@);
    r
}

/// Index of the entry with key `key`, or the number of entries.
fn entry_index(e: &Vec<(String, String)>, key: &Vec<char>) -> (j: usize)
    ensures
        j == key_index(entries_view(e@), key@),
        j <= e@.len(),
{
    let ghost cur = entries_view(e@);
    let mut j: usize = 0;
    while j < e.len()
        invariant
            j <= e@.len(),
            cur == entries_view(e@),
            forall|q: int| 0 <= q < j ==> cur[q].0 != key@,
        decreases e@.len() - j,
    {
        let k = chars_of(e[j].0.as_str());
        if chars_eq(&k, key) {
            proof {
                lemma_key_index_is(cur, key@, j as int);
            }
            return j;
        }
        j = j + 1;
    }
    proof {
        lemma_key_index_is(cur, key@, j as int);
    }
    j
}

impl IniData {
    /// Index of the section named `sec`, or the number of sections.
    fn section_index(&self, sec: &Vec<char>) -> (i: usize)
        ensures
            i == key_index(self@, sec@),
            i <= self.sections@.len(),
    {
        let mut i: usize = 0;
        while i < self.sections.len()
            invariant
                i <= self.sections@.len(),
                self@.len() == self.sections@.len(),
                forall|j: int| 0 <= j < i ==> self@[j].0 != sec@,
            decreases self.sections@.len() - i,
        {
            let name = chars_of(self.sections[i].0.as_str());
            if chars_eq(&name, sec) {
                proof {
                    lemma_key_index_is(self@, sec@, i as int);
                }
                return i;
            }
            i = i + 1;
        }
        proof {
            lemma_key_index_is(self@, sec@, i as int);
        }
        i
    }

    fn put(&mut self, sec: &Vec<char>, key: &Vec<char>, val: &Vec<char>)
        ensures
            final(self)@ == ini_put(old(self)@, sec@, key@, val@),
    {
        let ghost m0 = self@;
        let i = self.section_index(sec);
        let mut entries: Vec<(String, String)> = if i < self.sections.len() {
            copy_entries(&self.sections[i].1)
        } else {
            Vec::new()
        };
        let ghost cur = entries_view(entries@);
        proof {
            if i < self.sections.len() {
                assert(cur == m0[i as int].1);
            } else {
                assert(cur =~= Seq::<(Seq<char>, Seq<char>)>::empty());
            }
        }
        let j = entry_index(&entries, key);
        let kv = (string_of(key.as_slice()), string_of(val.as_slice()));
        if j < entries.len() {
            entries.set(j, kv);
            assert(entries_view(entries@) =~= cur.update(j as int, (key@, val@)));
        } else {
            entries.push(kv);
            assert(entries_view(entries@) =~= cur.push((key@, val@)));
        }
        let ghost new_entries = entries_view(entries@);
        let item = (string_of(sec.as_slice()), entries);
        if i < self.sections.len() {
            self.sections.set(i, item);
            assert(self@ =~= m0.update(i as int, (sec@, new_entries)));
        } else {
            self.sections.push(item);
            assert(self@ =~= m0.push((sec@, new_entries)));
        }
    }

    /// The value of `key` in section `section` (both lowercase).
    pub fn get(&self, section: &str, key: &str) -> (r: Option<String>)
        ensures
            match r {
                Some(v) => ini_value(self@, section@, key@) == Some(v@),
                None => ini_value(self@, section@, key@) is None,
            },
    {
        let sec = chars_of(section);
        let i = self.section_index(&sec);
        if i >= self.sections.len() {
            return None;
        }
        let entries = &self.sections[i].1;
        let ghost cur = entries_view(entries@);
        assert(cur == self@[i as int].1);
        let k = chars_of(key);
        let mut j: usize = 0;
        while j < entries.len()
            invariant
                j <= entries@.len(),
                cur == entries_view(entries@),
                i == key_index(self@, sec@),
                i < self@.len(),
                cur == self@[i as int].1,
                sec@ == section@,
                k@ == key@,
                forall|q: int| 0 <= q < j ==> cur[q].0 != k@,
            decreases entries@.len() - j,
        {
            let name = chars_of(entries[j].0.as_str());
            if chars_eq(&name, &k) {
                proof {
                    lemma_key_index_is(cur, k@, j as int);
                    assert(cur[j as int] == (entries@[j as int].0@, entries@[j as int].1@));
                }
                let v: String = entries[j].1.clone();
                assert(v@ == entries@[j as int].1@);
                assert(assoc_get(self@, sec@) == Some(cur));
                return Some(v);
            }
            j = j + 1;
        }
        proof {
            lemma_key_index_is(cur, k@, j as int);
        }
        None
    }
}

/// Read an INI text into sections of keys and values (see `ini_of`).
pub fn parse_ini(text: &str) -> (r: IniData)
    ensures
        r@ == ini_of(text@),
{
    let mut data = IniData { sections: Vec::new() };
    let v = chars_of(text);
    let lines = lines_chars(&v);
    let ghost ls = seqs(lines@);
    let mut section: Vec<char> = Vec::new();
    let mut i: usize = 0;
    assert(data@ =~= Seq::<(Seq<char>, Seq<(Seq<char>, Seq<char>)>)>::empty());
    assert(section@ =~= Seq::<char>::empty());
    while i < lines.len()
        invariant
            i <= lines@.len(),
            ls == seqs(lines@),
            ls == lines_seq(text@),
            (section@, data@) == ini_lines(ls.take(i as int)),
        decreases lines@.len() - i,
    {
        proof {
            assert(ls.take(i + 1).drop_last() =~= ls.take(i as int));
            assert(ls.take(i + 1).last() == lines@[i as int]@);
        }
        let line = trim_chars(&lines[i]);
        if line.len() == 0 || line[0] == ';' || line[0] == '#' {
        } else if line[0] == '[' {
            match find_char_from(&line, ']', 0) {
                Some(end) => {
                    assert(line@.skip(0) =~= line@);
                    let inner = sub_chars(&line, 1, end);
                    let t = trim_chars(&inner);
                    let s = string_of(t.as_slice());
                    let l = to_lowercase(s.as_str());
                    section = chars_of(l.as_str());
                },
                None => {
                    assert(line@.skip(0) =~= line@);
                },
            }
        } else {
            match find_char_from(&line, '=', 0) {
                Some(eq) => {
                    assert(line@.skip(0) =~= line@);
                    let kpart = sub_chars(&line, 0, eq);
                    assert(kpart@ =~= line@.take(eq as int));
                    let kt = trim_chars(&kpart);
                    let ks = string_of(kt.as_slice());
                    let kl = to_lowercase(ks.as_str());
                    let key = chars_of(kl.as_str());
                    let vpart = sub_chars(&line, eq + 1, line.len());
                    assert(vpart@ =~= line@.skip(eq + 1));
                    let val = trim_chars(&vpart);
                    data.put(&section, &key, &val);
                },
                None => {
                    assert(line@.skip(0) =~= line@);
                },
            }
        }
        i = i + 1;
    }
    assert(ls.take(i as int) =~= ls);
    data
}

} // verus!

verus! {

/// Client configuration.
#[derive(Debug, Clone)]
pub struct ClientConfig {
    pub server_ip: String,
    pub server_port: u16,
    /// How often the client polls the server, in milliseconds.
    pub update_delay_ms: u32,
    pub cfg_dir: String,
    pub timer_dir: String,
    pub annotations_dir: String,
    pub log_dir: String,
    pub filter_dir: String,
    pub map_dir: String,
    /// Alert modes: `none`, `beep`, `speech` or `sound`.
    pub alert_danger_mode: String,
    pub alert_danger_sound: String,
    pub alert_caution_mode: String,
    pub alert_caution_sound: String,
    pub alert_hunt_mode: String,
    pub alert_hunt_sound: String,
    pub alert_rare_mode: String,
    pub alert_rare_sound: String,
    pub discord_webhook: String,
    pub discord_on_danger: bool,
    pub discord_on_hunt: bool,
    /// The game's installation folder.
    pub eq_path: String,
    pub log_enabled: bool,
    /// Minimum log level: `debug`, `info`, `warn` or `error`.
    pub log_level: String,
    /// Connect on startup without asking.
    pub auto_connect: bool,
}

/// The value of `key` in `sec`, or `default`.
pub open spec fn text_or(m: IniView, sec: Seq<char>, key: Seq<char>, default: Seq<char>) -> Seq<char> {
    match ini_value(m, sec, key) {
        Some(v) => v,
        None => default,
    }
}

/// The value of `key` in `sec` as an unsigned number no larger than
/// `max`, or `default` when absent or not such a number.
pub open spec fn number_or(m: IniView, sec: Seq<char>, key: Seq<char>, max: nat, default: nat) -> nat {
    match ini_value(m, sec, key) {
        Some(v) => match parse_nat_upto(v, max) {
            Some(n) => n,
            None => default,
        },
        None => default,
    }
}

/// `key` in `sec` is exactly `1`; `default` when absent.
pub open spec fn flag_or(m: IniView, sec: Seq<char>, key: Seq<char>, default: bool) -> bool {
    match ini_value(m, sec, key) {
        Some(v) => v == "1"@,
        None => default,
    }
}

/// The configuration an INI text gives: each setting from its key, else
/// its default (`Enabled` in `[Logging]` is on unless it is exactly `0`).
pub open spec fn config_from(c: ClientConfig, m: IniView) -> bool {
    &&& c.server_ip@ == text_or(m, "winshoweq"@, "server"@, "127.0.0.1"@)
    &&& c.server_port == number_or(m, "winshoweq"@, "port"@, 65535, 5555)
    &&& c.update_delay_ms == number_or(m, "winshoweq"@, "rate"@, 0xFFFF_FFFF, 250)
    &&& c.auto_connect == flag_or(m, "winshoweq"@, "autoconnect"@, false)
    &&& c.cfg_dir@ == text_or(m, "directories"@, "cfgdir"@, "cfg"@)
    &&& c.timer_dir@ == text_or(m, "directories"@, "timerdir"@, "timers"@)
    &&& c.annotations_dir@ == text_or(m, "directories"@, "annotationsdir"@, "annotations"@)
    &&& c.log_dir@ == text_or(m, "directories"@, "logdir"@, "logs"@)
    &&& c.filter_dir@ == text_or(m, "directories"@, "filterdir"@, "cfg"@)
    &&& c.map_dir@ == text_or(m, "directories"@, "mapdir"@, "maps"@)
    &&& c.alert_danger_mode@ == text_or(m, "alerts"@, "dangermode"@, "speech"@)
    &&& c.alert_danger_sound@ == text_or(m, "alerts"@, "dangersound"@, Seq::empty())
    &&& c.alert_caution_mode@ == text_or(m, "alerts"@, "cautionmode"@, "beep"@)
    &&& c.alert_caution_sound@ == text_or(m, "alerts"@, "cautionsound"@, Seq::empty())
    &&& c.alert_hunt_mode@ == text_or(m, "alerts"@, "huntmode"@, "beep"@)
    &&& c.alert_hunt_sound@ == text_or(m, "alerts"@, "huntsound"@, Seq::empty())
    &&& c.alert_rare_mode@ == text_or(m, "alerts"@, "alertmode"@, "none"@)
    &&& c.alert_rare_sound@ == text_or(m, "alerts"@, "alertsound"@, Seq::empty())
    &&& c.discord_webhook@ == text_or(m, "discord"@, "webhook"@, Seq::empty())
    &&& c.discord_on_danger == flag_or(m, "discord"@, "ondanger"@, false)
    &&& c.discord_on_hunt == flag_or(m, "discord"@, "onhunt"@, false)
    &&& c.eq_path@ == text_or(m, "eq"@, "path"@, Seq::empty())
    &&& c.log_enabled == (match ini_value(m, "logging"@, "enabled"@) {
        Some(v) => v != "0"@,
        None => true,
    })
    &&& c.log_level@ == text_or(m, "logging"@, "level"@, "info"@)
}

/// The configuration with every setting at its default.
pub open spec fn is_default_config(c: ClientConfig) -> bool {
    config_from(c, Seq::empty())
}

impl Default for ClientConfig {
    fn default() -> (c: Self)
        ensures
            is_default_config(c),
    {
        ClientConfig {
            server_ip: String::from_str("127.0.0.1"),
            server_port: 5555,
            update_delay_ms: 250,
            cfg_dir: String::from_str("cfg"),
            timer_dir: String::from_str("timers"),
            annotations_dir: String::from_str("annotations"),
            log_dir: String::from_str("logs"),
            filter_dir: String::from_str("cfg"),
            map_dir: String::from_str("maps"),
            alert_danger_mode: String::from_str("speech"),
            alert_danger_sound: String::new(),
            alert_caution_mode: String::from_str("beep"),
            alert_caution_sound: String::new(),
            alert_hunt_mode: String::from_str("beep"),
            alert_hunt_sound: String::new(),
            alert_rare_mode: String::from_str("none"),
            alert_rare_sound: String::new(),
            discord_webhook: String::new(),
            discord_on_danger: false,
            discord_on_hunt: false,
            eq_path: String::new(),
            log_enabled: true,
            log_level: String::from_str("info"),
            auto_connect: false,
        }
    }
}

/// Replace `dst` with the value of `key` in `sec` when present.
fn take_text(ini: &IniData, sec: &str, key: &str, dst: &mut String)
    ensures
        final(dst)@ == (match ini_value(ini@, sec@, key@) {
            Some(v) => v,
            None => old(dst)@,
        }),
{
    match ini.get(sec, key) {
        Some(v) => {
            *dst = v;
        },
        None => {},
    }
}

/// Is `v` exactly the text `t`?
fn text_is(v: &String, t: &str) -> (b: bool)
    ensures
        b == (v@ == t@),
{
    let a = chars_of(v.as_str());
    let b = chars_of(t);
    chars_eq(&a, &b)
}

impl ClientConfig {
    /// The configuration in an INI text (see `config_from`); all defaults
    /// when there is no text (a missing or unreadable file).
    pub fn load(content: Option<&str>) -> (c: Self)
        ensures
            match content {
                Some(t) => config_from(c, ini_of(t@)),
                None => is_default_config(c),
            },
    {
        let mut cfg = ClientConfig::default();
        let text = match content {
            Some(t) => t,
            None => {
                return cfg;
            },
        };
        let ini = parse_ini(text);
        let ghost m = ini@;
        proof {
            assert(ini_value(Seq::empty(), "winshoweq"@, "server"@) is None);
        }
        take_text(&ini, "winshoweq", "server", &mut cfg.server_ip);
        match ini.get("winshoweq", "port") {
            Some(v) => {
                let vc = chars_of(v.as_str());
                match parse_u64_upto(&vc, 65535) {
                    Some(n) => {
                        cfg.server_port = n as u16;
                    },
                    None => {},
                }
            },
            None => {},
        }
        match ini.get("winshoweq", "rate") {
            Some(v) => {
                let vc = chars_of(v.as_str());
                match parse_u64_upto(&vc, 0xFFFF_FFFF) {
                    Some(n) => {
                        cfg.update_delay_ms = n as u32;
                    },
                    None => {},
                }
            },
            None => {},
        }
        match ini.get("winshoweq", "autoconnect") {
            Some(v) => {
                cfg.auto_connect = text_is(&v, "1");
            },
            None => {},
        }
        take_text(&ini, "directories", "cfgdir", &mut cfg.cfg_dir);
        take_text(&ini, "directories", "timerdir", &mut cfg.timer_dir);
        take_text(&ini, "directories", "annotationsdir", &mut cfg.annotations_dir);
        take_text(&ini, "directories", "logdir", &mut cfg.log_dir);
        take_text(&ini, "directories", "filterdir", &mut cfg.filter_dir);
        take_text(&ini, "directories", "mapdir", &mut cfg.map_dir);
        take_text(&ini, "alerts", "dangermode", &mut cfg.alert_danger_mode);
        take_text(&ini, "alerts", "dangersound", &mut cfg.alert_danger_sound);
        take_text(&ini, "alerts", "cautionmode", &mut cfg.alert_caution_mode);
        take_text(&ini, "alerts", "cautionsound", &mut cfg.alert_caution_sound);
        take_text(&ini, "alerts", "huntmode", &mut cfg.alert_hunt_mode);
        take_text(&ini, "alerts", "huntsound", &mut cfg.alert_hunt_sound);
        take_text(&ini, "alerts", "alertmode", &mut cfg.alert_rare_mode);
        take_text(&ini, "alerts", "alertsound", &mut cfg.alert_rare_sound);
        take_text(&ini, "discord", "webhook", &mut cfg.discord_webhook);
        match ini.get("discord", "ondanger") {
            Some(v) => {
                cfg.discord_on_danger = text_is(&v, "1");
            },
            None => {},
        }
        match ini.get("discord", "onhunt") {
            Some(v) => {
                cfg.discord_on_hunt = text_is(&v, "1");
            },
            None => {},
        }
        take_text(&ini, "eq", "path", &mut cfg.eq_path);
        match ini.get("logging", "enabled") {
            Some(v) => {
                cfg.log_enabled = !text_is(&v, "0");
            },
            None => {},
        }
        take_text(&ini, "logging", "level", &mut cfg.log_level);
        cfg
    }
}

/// `key=value` and a line break.
pub open spec fn kv_line(key: Seq<char>, val: Seq<char>) -> Seq<char> {
    key + seq!['='] + val + seq!['\n']
}

/// A flag as the file writes it: `1` or `0`.
pub open spec fn flag_text(b: bool) -> Seq<char> {
    if b {
        seq!['1']
    } else {
        seq!['0']
    }
}

pub open spec fn main_section(c: ClientConfig) -> Seq<char> {
    "[WinShowEQ]\n"@ + kv_line("Server"@, c.server_ip@) + kv_line("Port"@, dec_seq(c.server_port as nat))
        + kv_line("Rate"@, dec_seq(c.update_delay_ms as nat)) + kv_line(
        "AutoConnect"@,
        flag_text(c.auto_connect),
    ) + "\n"@
}

pub open spec fn dirs_section(c: ClientConfig) -> Seq<char> {
    "[Directories]\n"@ + kv_line("CfgDir"@, c.cfg_dir@) + kv_line("TimerDir"@, c.timer_dir@) + kv_line(
        "AnnotationsDir"@,
        c.annotations_dir@,
    ) + kv_line("LogDir"@, c.log_dir@) + kv_line("FilterDir"@, c.filter_dir@) + kv_line(
        "MapDir"@,
        c.map_dir@,
    ) + "\n"@
}

pub open spec fn alerts_section(c: ClientConfig) -> Seq<char> {
    "[Alerts]\n"@ + kv_line("DangerMode"@, c.alert_danger_mode@) + kv_line(
        "DangerSound"@,
        c.alert_danger_sound@,
    ) + kv_line("CautionMode"@, c.alert_caution_mode@) + kv_line(
        "CautionSound"@,
        c.alert_caution_sound@,
    ) + kv_line("HuntMode"@, c.alert_hunt_mode@) + kv_line("HuntSound"@, c.alert_hunt_sound@)
        + kv_line("AlertMode"@, c.alert_rare_mode@) + kv_line("AlertSound"@, c.alert_rare_sound@)
        + "\n"@
}

pub open spec fn tail_sections(c: ClientConfig) -> Seq<char> {
    "[Discord]\n"@ + kv_line("Webhook"@, c.discord_webhook@) + kv_line(
        "OnDanger"@,
        flag_text(c.discord_on_danger),
    ) + kv_line("OnHunt"@, flag_text(c.discord_on_hunt)) + "\n"@ + "[EQ]\n"@ + kv_line(
        "Path"@,
        c.eq_path@,
    ) + "\n"@ + "[Logging]\n"@ + kv_line("Enabled"@, flag_text(c.log_enabled)) + kv_line(
        "Level"@,
        c.log_level@,
    )
}

/// The configuration file's text: the `WinShowEQ`, `Directories`,
/// `Alerts`, `Discord`, `EQ` and `Logging` sections, one `Key=value` line
/// per setting, flags as `1` or `0`, a blank line between sections.
pub open spec fn config_ini_text(c: ClientConfig) -> Seq<char> {
    main_section(c) + dirs_section(c) + alerts_section(c) + tail_sections(c)
}

fn push_text(v: &mut Vec<char>, s: &str)
    ensures
        final(v)@ == old(v)@ + s@,
{
    push_all(v, &chars_of(s));
}

fn push_kv(v: &mut Vec<char>, key: &str, val: &str)
    ensures
        final(v)@ == old(v)@ + kv_line(key@, val@),
{
    let ghost v0 = v@;
    push_text(v, key);
    v.push('=');
    push_text(v, val);
    v.push('\n');
    assert(v@ =~= v0 + kv_line(key@, val@));
}

fn push_flag(v: &mut Vec<char>, key: &str, b: bool)
    ensures
        final(v)@ == old(v)@ + kv_line(key@, flag_text(b)),
{
    push_kv(v, key, if b {
        "1"
    } else {
        "0"
    });
    proof {
        reveal_strlit("1");
        reveal_strlit("0");
    }
}

fn push_number(v: &mut Vec<char>, key: &str, n: u64)
    ensures
        final(v)@ == old(v)@ + kv_line(key@, dec_seq(n as nat)),
{
    let ghost v0 = v@;
    push_text(v, key);
    v.push('=');
    push_all(v, &dec_chars(n));
    v.push('\n');
    assert(v@ =~= v0 + kv_line(key@, dec_seq(n as nat)));
}

impl ClientConfig {
    fn push_main_section(&self, v: &mut Vec<char>)
        ensures
            final(v)@ == old(v)@ + main_section(*self),
    {
        let ghost v0 = v@;
        push_text(v, "[WinShowEQ]\n");
        push_kv(v, "Server", self.server_ip.as_str());
        push_number(v, "Port", self.server_port as u64);
        push_number(v, "Rate", self.update_delay_ms as u64);
        push_flag(v, "AutoConnect", self.auto_connect);
        push_text(v, "\n");
        assert(v@ =~= v0 + main_section(*self));
    }

    fn push_dirs_section(&self, v: &mut Vec<char>)
        ensures
            final(v)@ == old(v)@ + dirs_section(*self),
    {
        let ghost v0 = v@;
        push_text(v, "[Directories]\n");
        push_kv(v, "CfgDir", self.cfg_dir.as_str());
        push_kv(v, "TimerDir", self.timer_dir.as_str());
        push_kv(v, "AnnotationsDir", self.annotations_dir.as_str());
        push_kv(v, "LogDir", self.log_dir.as_str());
        push_kv(v, "FilterDir", self.filter_dir.as_str());
        push_kv(v, "MapDir", self.map_dir.as_str());
        push_text(v, "\n");
        assert(v@ =~= v0 + dirs_section(*self));
    }

    fn push_alerts_section(&self, v: &mut Vec<char>)
        ensures
            final(v)@ == old(v)@ + alerts_section(*self),
    {
        let ghost v0 = v@;
        push_text(v, "[Alerts]\n");
        push_kv(v, "DangerMode", self.alert_danger_mode.as_str());
        push_kv(v, "DangerSound", self.alert_danger_sound.as_str());
        push_kv(v, "CautionMode", self.alert_caution_mode.as_str());
        push_kv(v, "CautionSound", self.alert_caution_sound.as_str());
        push_kv(v, "HuntMode", self.alert_hunt_mode.as_str());
        push_kv(v, "HuntSound", self.alert_hunt_sound.as_str());
        push_kv(v, "AlertMode", self.alert_rare_mode.as_str());
        push_kv(v, "AlertSound", self.alert_rare_sound.as_str());
        push_text(v, "\n");
        assert(v@ =~= v0 + alerts_section(*self));
    }

    fn push_tail_sections(&self, v: &mut Vec<char>)
        ensures
            final(v)@ == old(v)@ + tail_sections(*self),
    {
        let ghost v0 = v@;
        push_text(v, "[Discord]\n");
        push_kv(v, "Webhook", self.discord_webhook.as_str());
        push_flag(v, "OnDanger", self.discord_on_danger);
        push_flag(v, "OnHunt", self.discord_on_hunt);
        push_text(v, "\n");
        push_text(v, "[EQ]\n");
        push_kv(v, "Path", self.eq_path.as_str());
        push_text(v, "\n");
        push_text(v, "[Logging]\n");
        push_flag(v, "Enabled", self.log_enabled);
        push_kv(v, "Level", self.log_level.as_str());
        assert(v@ =~= v0 + tail_sections(*self));
    }

    /// The configuration file's text (see `config_ini_text`).
    pub fn ini_text(&self) -> (s: String)
        ensures
            s@ == config_ini_text(*self),
    {
        let mut v: Vec<char> = Vec::new();
        self.push_main_section(&mut v);
        self.push_dirs_section(&mut v);
        self.push_alerts_section(&mut v);
        self.push_tail_sections(&mut v);
        assert(v@ =~= config_ini_text(*self));
        string_of(v.as_slice())
    }
}

} // verus!

//! Alerts for filtered spawns: how each category alerts, which spawns
//! alert (each once, none for a while after a zone change), and the text
//! spoken for a spawn name.
use vstd::prelude::*;
use std::collections::HashSet;
use crate::filters::FilterCategory;
use crate::text::{
    chars_eq, chars_of, push_all, string_of, to_lowercase, unicode_lowercase,
};

verus! {

broadcast use vstd::std_specs::hash::group_hash_axioms;

/// Alerts are held back this long after a zone change, in milliseconds.
pub const ZONE_SUPPRESS_MS: u64 = 10_000;

/// How an alert fires for a category.
#[derive(Debug, Clone, PartialEq, Eq)]
pub enum AlertMode {
    Off,
    Beep,
    Speech,
    SoundFile(String),
}

impl AlertMode {
    /// The mode a configuration names (case-insensitive): `beep`,
    /// `speech`, `sound` with a sound file (a beep without one), anything
    /// else none.
    pub fn from_config(mode_str: &str, sound_path: &str) -> (m: Self)
        ensures
            ({
                let l = unicode_lowercase(mode_str@);
                if l == "beep"@ {
                    m == AlertMode::Beep
                } else if l == "speech"@ {
                    m == AlertMode::Speech
                } else if l == "sound"@ {
                    if sound_path@.len() > 0 {
                        m matches AlertMode::SoundFile(p) && p@ == sound_path@
                    } else {
                        m == AlertMode::Beep
                    }
                } else {
                    m == AlertMode::Off
                }
            }),
    {
        let lowered = to_lowercase(mode_str);
        let l = chars_of(lowered.as_str());
        if chars_eq(&l, &chars_of("beep")) {
            AlertMode::Beep
        } else if chars_eq(&l, &chars_of("speech")) {
            AlertMode::Speech
        } else if chars_eq(&l, &chars_of("sound")) {
            if !sound_path.is_empty() {
                AlertMode::SoundFile(String::from_str(sound_path))
            } else {
                AlertMode::Beep
            }
        } else {
            AlertMode::Off
        }
    }

    /// The configuration word of the mode.
    pub fn as_str(&self) -> (s: &'static str)
        ensures
            s@ == (match self {
                AlertMode::Off => "none"@,
                AlertMode::Beep => "beep"@,
                AlertMode::Speech => "speech"@,
                AlertMode::SoundFile(_) => "sound"@,
            }),
    {
        match self {
            AlertMode::Off => "none",
            AlertMode::Beep => "beep",
            AlertMode::Speech => "speech",
            AlertMode::SoundFile(_) => "sound",
        }
    }
}

/// `s` without trailing characters satisfying ASCII-digit.
pub open spec fn trim_digits(s: Seq<char>) -> Seq<char>
    decreases s.len(),
{
    if s.len() > 0 && '0' <= s.last() && s.last() <= '9' {
        trim_digits(s.drop_last())
    } else {
        s
    }
}

/// `s` without trailing underscores.
pub open spec fn trim_underscores(s: Seq<char>) -> Seq<char>
    decreases s.len(),
{
    if s.len() > 0 && s.last() == '_' {
        trim_underscores(s.drop_last())
    } else {
        s
    }
}

/// A spawn name as spoken: trailing instance digits and underscores
/// dropped, the other underscores read as spaces.
pub open spec fn spoken_name(name: Seq<char>) -> Seq<char> {
    trim_underscores(trim_digits(name)).map_values(|c: char| if c == '_' { ' ' } else { c })
}

/// The text-to-speech form of a raw spawn name.
pub fn tts_name(name: &str) -> (s: String)
    ensures
        s@ == spoken_name(name@),
{
    let v = chars_of(name);
    let mut n = v.len();
    assert(v@.take(n as int) =~= v@);
    while n > 0 && '0' <= v[n - 1] && v[n - 1] <= '9'
        invariant
            n <= v@.len(),
            trim_digits(v@) == trim_digits(v@.take(n as int)),
        decreases n,
    {
        assert(v@.take(n as int).drop_last() =~= v@.take(n - 1));
        n = n - 1;
    }
    let ghost d = v@.take(n as int);
    assert(trim_digits(d) == d);
    assert(d.take(n as int) =~= d);
    while n > 0 && v[n - 1] == '_'
        invariant
            n <= d.len() <= v@.len(),
            d == v@.take(d.len() as int),
            d == trim_digits(v@),
            trim_underscores(d) == trim_underscores(d.take(n as int)),
        decreases n,
    {
        assert(d.take(n as int).drop_last() =~= d.take(n - 1));
        n = n - 1;
    }
    assert(d.take(n as int) =~= v@.take(n as int));
    let ghost u = v@.take(n as int);
    assert(trim_underscores(u) == u);
    let mut out: Vec<char> = Vec::new();
    let mut i: usize = 0;
    while i < n
        invariant
            i <= n <= v@.len(),
            u == v@.take(n as int),
            out@ == u.take(i as int).map_values(|c: char| if c == '_' { ' ' } else { c }),
        decreases n - i,
    {
        let c = v[i];
        out.push(if c == '_' {
            ' '
        } else {
            c
        });
        i = i + 1;
        assert(out@ =~= u.take(i as int).map_values(|c: char| if c == '_' { ' ' } else { c }));
    }
    assert(u.take(n as int) =~= u);
    string_of(out.as_slice())
}

/// The category name used in alert texts.
pub open spec fn category_word(c: FilterCategory) -> Seq<char> {
    match c {
        FilterCategory::Danger => "Danger"@,
        FilterCategory::Caution => "Caution"@,
        FilterCategory::Hunt => "Hunt"@,
        FilterCategory::Rare => "Rare"@,
    }
}

fn category_str(c: FilterCategory) -> (s: &'static str)
    ensures
        s@ == category_word(c),
{
    match c {
        FilterCategory::Danger => "Danger",
        FilterCategory::Caution => "Caution",
        FilterCategory::Hunt => "Hunt",
        FilterCategory::Rare => "Rare",
    }
}

/// What an alert asks the audio player to do.
#[derive(Debug, Clone, PartialEq, Eq)]
pub enum AudioCmd {
    Speak(String),
    PlayFile(String),
    Beep,
}

/// An alert that fired: what to play, whether to post to Discord (the
/// message carries the position, which the caller formats), and the line
/// to log.
pub struct Alert {
    pub audio: AudioCmd,
    pub category: FilterCategory,
    pub post_discord: bool,
    pub log: String,
}

/// Decides which flagged spawns alert, and how.
pub struct AlertEngine {
    alerted: HashSet<u32>,
    /// Alerts are held back until this time (milliseconds on the caller's
    /// clock).
    suppress_until: Option<u64>,
    pub danger_mode: AlertMode,
    pub caution_mode: AlertMode,
    pub hunt_mode: AlertMode,
    pub rare_mode: AlertMode,
    pub discord_webhook: String,
    pub discord_on_danger: bool,
    pub discord_on_hunt: bool,
}

/// The spoken alert: `"<Category> Mob, <spoken name>, is up."`.
pub open spec fn spoken_alert(c: FilterCategory, name: Seq<char>) -> Seq<char> {
    category_word(c) + " Mob, "@ + spoken_name(name) + ", is up."@
}

/// The logged alert: `"Alert [<Category>]: <name>"`.
pub open spec fn alert_log(c: FilterCategory, name: Seq<char>) -> Seq<char> {
    "Alert ["@ + category_word(c) + "]: "@ + name
}

impl AlertEngine {
    pub closed spec fn alerted_ids(&self) -> Set<u32> {
        self.alerted@
    }

    pub closed spec fn suppressed_until(&self) -> Option<u64> {
        self.suppress_until
    }

    pub closed spec fn mode_for(&self, c: FilterCategory) -> AlertMode {
        match c {
            FilterCategory::Danger => self.danger_mode,
            FilterCategory::Caution => self.caution_mode,
            FilterCategory::Hunt => self.hunt_mode,
            FilterCategory::Rare => self.rare_mode,
        }
    }

    pub closed spec fn discord_for(&self, c: FilterCategory) -> bool {
        self.discord_webhook@.len() > 0 && match c {
            FilterCategory::Danger => self.discord_on_danger,
            FilterCategory::Hunt => self.discord_on_hunt,
            _ => false,
        }
    }

    /// Nothing alerted, nothing held back, every mode none, no Discord.
    pub fn new() -> (e: Self)
        ensures
            e.alerted_ids().len() == 0,
            e.suppressed_until() is None,
    {
        AlertEngine {
            alerted: HashSet::new(),
            suppress_until: None,
            danger_mode: AlertMode::Off,
            caution_mode: AlertMode::Off,
            hunt_mode: AlertMode::Off,
            rare_mode: AlertMode::Off,
            discord_webhook: String::new(),
            discord_on_danger: false,
            discord_on_hunt: false,
        }
    }

    /// A zone change at time `now_ms`: forget what alerted and hold alerts
    /// back for ten seconds.
    pub fn on_zone_change_at(&mut self, now_ms: u64)
        ensures
            final(self).alerted_ids().len() == 0,
            final(self).suppressed_until() == Some(now_ms.saturating_add(ZONE_SUPPRESS_MS)),
    {
        self.alerted.clear();
        self.suppress_until = Some(now_ms.saturating_add(ZONE_SUPPRESS_MS));
    }

    /// A zone change now (see `on_zone_change_at`).
    pub fn on_zone_change(&mut self)
        ensures
            final(self).alerted_ids().len() == 0,
            final(self).suppressed_until() is Some,
    {
        let now = now_millis();
        self.on_zone_change_at(now);
    }

    /// Check a spawn flagged `category` (the highest of its flags) at time
    /// `now_ms`.  It alerts unless it already has since the last zone
    /// change, alerts are held back, or its category's mode is none; an
    /// alert is remembered.
    pub fn check_spawn(&mut self, id: u32, name: &str, category: Option<FilterCategory>, now_ms: u64) -> (r:
        Option<Alert>)
        ensures
            ({
                let held = old(self).suppressed_until() matches Some(t) && now_ms < t;
                let fires = !old(self).alerted_ids().contains(id) && !held && category is Some
                    && !(old(self).mode_for(category->0) is Off);
                &&& (r is Some <==> fires)
                &&& (fires ==> final(self).alerted_ids() == old(self).alerted_ids().insert(id))
                &&& (!fires ==> final(self).alerted_ids() == old(self).alerted_ids())
                &&& (r matches Some(a) ==> {
                    let c = category->0;
                    &&& a.category == c
                    &&& a.log@ == alert_log(c, name@)
                    &&& a.post_discord == old(self).discord_for(c)
                    &&& match old(self).mode_for(c) {
                        AlertMode::Beep => a.audio == AudioCmd::Beep,
                        AlertMode::Speech => a.audio matches AudioCmd::Speak(t) && t@ == spoken_alert(
                            c,
                            name@,
                        ),
                        AlertMode::SoundFile(p) => a.audio matches AudioCmd::PlayFile(f) && f@ == p@,
                        AlertMode::Off => false,
                    }
                })
            }),
            final(self).suppressed_until() == old(self).suppressed_until(),
            final(self).mode_for(FilterCategory::Danger) == old(self).mode_for(FilterCategory::Danger),
            final(self).mode_for(FilterCategory::Caution) == old(self).mode_for(FilterCategory::Caution),
            final(self).mode_for(FilterCategory::Hunt) == old(self).mode_for(FilterCategory::Hunt),
            final(self).mode_for(FilterCategory::Rare) == old(self).mode_for(FilterCategory::Rare),
    {
        if self.alerted.contains(&id) {
            return None;
        }
        match self.suppress_until {
            Some(until) => {
                if now_ms < until {
                    return None;
                }
            },
            None => {},
        }
        let c = match category {
            Some(c) => c,
            None => {
                return None;
            },
        };
        let mode = match c {
            FilterCategory::Danger => &self.danger_mode,
            FilterCategory::Caution => &self.caution_mode,
            FilterCategory::Hunt => &self.hunt_mode,
            FilterCategory::Rare => &self.rare_mode,
        };
        let audio = match mode {
            AlertMode::Off => {
                return None;
            },
            AlertMode::Beep => AudioCmd::Beep,
            AlertMode::Speech => {
                let mut t = chars_of(category_str(c));
                push_all(&mut t, &chars_of(" Mob, "));
                let spoken = tts_name(name);
                push_all(&mut t, &chars_of(spoken.as_str()));
                push_all(&mut t, &chars_of(", is up."));
                assert(t@ =~= spoken_alert(c, name@));
                AudioCmd::Speak(string_of(t.as_slice()))
            },
            AlertMode::SoundFile(p) => AudioCmd::PlayFile(p.clone()),
        };
        self.alerted.insert(id);
        let flag = match c {
            FilterCategory::Danger => self.discord_on_danger,
            FilterCategory::Hunt => self.discord_on_hunt,
            _ => false,
        };
        let post_discord = flag && !self.discord_webhook.as_str().is_empty();
        let mut l = chars_of("Alert [");
        push_all(&mut l, &chars_of(category_str(c)));
        push_all(&mut l, &chars_of("]: "));
        push_all(&mut l, &chars_of(name));
        assert(l@ =~= alert_log(c, name@));
        Some(Alert { audio, category: c, post_discord, log: string_of(l.as_slice()) })
    }
}

/// Milliseconds since the Unix epoch from the system clock (0 before the
/// epoch).  Nothing is known of the value.
#[verifier::external_body]
fn now_millis() -> u64 {
    std::time::SystemTime::now().duration_since(std::time::UNIX_EPOCH).map(|d| d.as_millis() as u64).unwrap_or(0)
}

pub open spec fn is_ascii_digit(c: char) -> bool {
    '0' <= c && c <= '9'
}

proof fn lemma_trim_digits_suffix(name: Seq<char>, digits: Seq<char>)
    requires
        forall|i: int| 0 <= i < digits.len() ==> is_ascii_digit(#[trigger] digits[i]),
    ensures
        trim_digits(name + digits) == trim_digits(name),
    decreases digits.len(),
{
    if digits.len() > 0 {
        let d = digits.drop_last();
        assert((name + digits).drop_last() =~= name + d);
        assert((name + digits).last() == digits.last());
        assert(is_ascii_digit(digits[digits.len() - 1]));
        lemma_trim_digits_suffix(name, d);
    } else {
        assert(name + digits =~= name);
    }
}

/// A spoken name holds no underscore: every one is read as a space.
pub proof fn law_spoken_has_no_underscore(name: Seq<char>)
    ensures
        forall|i: int| 0 <= i < spoken_name(name).len() ==> #[trigger] spoken_name(name)[i] != '_',
{
}

/// Instance digits at the end of a name are not spoken: a name followed
/// by any run of ASCII digits is spoken as the name alone.
pub proof fn law_spoken_ignores_instance_digits(name: Seq<char>, digits: Seq<char>)
    requires
        forall|i: int| 0 <= i < digits.len() ==> is_ascii_digit(#[trigger] digits[i]),
    ensures
        spoken_name(name + digits) == spoken_name(name),
{
    lemma_trim_digits_suffix(name, digits);
}

/// A trailing underscore after anything but a digit is not spoken.
pub proof fn law_spoken_ignores_trailing_underscore(name: Seq<char>)
    requires
        name.len() == 0 || !is_ascii_digit(name.last()),
    ensures
        spoken_name(name.push('_')) == spoken_name(name),
{
    let n1 = name.push('_');
    assert(n1.last() == '_');
    assert(trim_digits(n1) == n1);
    assert(n1.drop_last() =~= name);
    assert(trim_underscores(n1) == trim_underscores(name));
    assert(trim_digits(name) == name);
}

/// A name that ends in neither a digit nor an underscore is spoken in
/// full, character by character, with underscores read as spaces.
pub proof fn law_spoken_plain_name(name: Seq<char>)
    requires
        name.len() > 0 ==> !is_ascii_digit(name.last()) && name.last() != '_',
    ensures
        spoken_name(name).len() == name.len(),
        forall|i: int|
            0 <= i < name.len() ==> #[trigger] spoken_name(name)[i] == (if name[i] == '_' {
                ' '
            } else {
                name[i]
            }),
{
    assert(trim_digits(name) == name);
    assert(trim_underscores(name) == name);
}

} // verus!

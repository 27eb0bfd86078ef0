//! Game reference data: race names from the game's string database,
//! class names, and per-spawn display colors resolved through a palette.
use vstd::prelude::*;
use crate::assoc::{assoc_get, assoc_put, key_index, keys_distinct, lemma_assoc_put, lemma_key_index_is};
use crate::text::{
    chars_eq, chars_of, dec_chars, dec_seq, lines_chars, lines_seq, parse_nat_upto,
    parse_u64_upto, push_all, seqs, splitn_chars, splitn_seq, string_of, to_lowercase, trim,
    trim_chars, unicode_lowercase,
};

verus! {

/// Game reference data.  Each table holds each key at most once.
pub struct GameData {
    races: Vec<(u32, String)>,
    classes: Vec<(u8, String)>,
    color_palette: Vec<(String, [u8; 3])>,
    spawn_colors: Vec<(String, [u8; 3])>,
}

/// `s` with each entry's text taken by its view.
pub open spec fn text_entries<K>(s: Seq<(K, String)>) -> Seq<(K, Seq<char>)> {
    s.map_values(|e: (K, String)| (e.0, e.1@))
}

pub open spec fn keyed_by_text<V>(s: Seq<(String, V)>) -> Seq<(Seq<char>, V)> {
    s.map_values(|e: (String, V)| (e.0@, e.1))
}

/// The race entry a line of the string database gives: `id^11^Name^...`
/// with a `u32` id (surrounding whitespace allowed) and a non-empty name.
pub open spec fn race_line(line: Seq<char>) -> Option<(u32, Seq<char>)> {
    let parts = splitn_seq(line, 4, '^');
    if parts.len() < 3 || parts[1] != seq!['1', '1'] {
        None
    } else {
        match parse_nat_upto(trim(parts[0]), u32::MAX as nat) {
            Some(id) => if parts[2].len() > 0 {
                Some((id as u32, parts[2]))
            } else {
                None
            },
            None => None,
        }
    }
}

/// The race table built from the lines in order (a later line for the
/// same id replaces an earlier one).
pub open spec fn races_of(lines: Seq<Seq<char>>) -> Seq<(u32, Seq<char>)>
    decreases lines.len(),
{
    if lines.len() == 0 {
        Seq::empty()
    } else {
        let t = races_of(lines.drop_last());
        match race_line(lines.last()) {
            Some((id, name)) => assoc_put(t, id, name),
            None => t,
        }
    }
}

/// The fallback name of a playable race id.
pub open spec fn fallback_race(id: u32) -> Option<Seq<char>> {
    if id == 0 {
        Some("Unknown"@)
    } else if id == 1 {
        Some("Human"@)
    } else if id == 2 {
        Some("Barbarian"@)
    } else if id == 3 {
        Some("Erudite"@)
    } else if id == 4 {
        Some("Wood Elf"@)
    } else if id == 5 {
        Some("High Elf"@)
    } else if id == 6 {
        Some("Dark Elf"@)
    } else if id == 7 {
        Some("Half Elf"@)
    } else if id == 8 {
        Some("Dwarf"@)
    } else if id == 9 {
        Some("Troll"@)
    } else if id == 10 {
        Some("Ogre"@)
    } else if id == 11 {
        Some("Halfling"@)
    } else if id == 12 {
        Some("Gnome"@)
    } else {
        None
    }
}

fn fallback_race_str(id: u32) -> (r: Option<&'static str>)
    ensures
        match r {
            Some(s) => fallback_race(id) == Some(s@),
            None => fallback_race(id) is None,
        },
{
    if id == 0 {
        Some("Unknown")
    } else if id == 1 {
        Some("Human")
    } else if id == 2 {
        Some("Barbarian")
    } else if id == 3 {
        Some("Erudite")
    } else if id == 4 {
        Some("Wood Elf")
    } else if id == 5 {
        Some("High Elf")
    } else if id == 6 {
        Some("Dark Elf")
    } else if id == 7 {
        Some("Half Elf")
    } else if id == 8 {
        Some("Dwarf")
    } else if id == 9 {
        Some("Troll")
    } else if id == 10 {
        Some("Ogre")
    } else if id == 11 {
        Some("Halfling")
    } else if id == 12 {
        Some("Gnome")
    } else {
        None
    }
}

/// The built-in name of a class id.
pub open spec fn class_table(c: u8) -> Option<Seq<char>> {
    if c == 1 {
        Some("Warrior"@)
    } else if c == 2 {
        Some("Cleric"@)
    } else if c == 3 {
        Some("Paladin"@)
    } else if c == 4 {
        Some("Ranger"@)
    } else if c == 5 {
        Some("Shadow Knight"@)
    } else if c == 6 {
        Some("Druid"@)
    } else if c == 7 {
        Some("Monk"@)
    } else if c == 8 {
        Some("Bard"@)
    } else if c == 9 {
        Some("Rogue"@)
    } else if c == 10 {
        Some("Shaman"@)
    } else if c == 11 {
        Some("Necromancer"@)
    } else if c == 12 {
        Some("Wizard"@)
    } else if c == 13 {
        Some("Magician"@)
    } else if c == 14 {
        Some("Enchanter"@)
    } else if c == 15 {
        Some("Beastlord"@)
    } else if c == 16 {
        Some("Berserker"@)
    } else if c == 40 {
        Some("Banker"@)
    } else if c == 41 {
        Some("Shopkeeper"@)
    } else if c == 66 {
        Some("Guild Banker"@)
    } else if c == 71 {
        Some("Mercenary Liaison"@)
    } else {
        None
    }
}

fn class_table_str(c: u8) -> (r: Option<&'static str>)
    ensures
        match r {
            Some(s) => class_table(c) == Some(s@),
            None => class_table(c) is None,
        },
{
    if c == 1 {
        Some("Warrior")
    } else if c == 2 {
        Some("Cleric")
    } else if c == 3 {
        Some("Paladin")
    } else if c == 4 {
        Some("Ranger")
    } else if c == 5 {
        Some("Shadow Knight")
    } else if c == 6 {
        Some("Druid")
    } else if c == 7 {
        Some("Monk")
    } else if c == 8 {
        Some("Bard")
    } else if c == 9 {
        Some("Rogue")
    } else if c == 10 {
        Some("Shaman")
    } else if c == 11 {
        Some("Necromancer")
    } else if c == 12 {
        Some("Wizard")
    } else if c == 13 {
        Some("Magician")
    } else if c == 14 {
        Some("Enchanter")
    } else if c == 15 {
        Some("Beastlord")
    } else if c == 16 {
        Some("Berserker")
    } else if c == 40 {
        Some("Banker")
    } else if c == 41 {
        Some("Shopkeeper")
    } else if c == 66 {
        Some("Guild Banker")
    } else if c == 71 {
        Some("Mercenary Liaison")
    } else {
        None
    }
}

/// `"<id> Unknown"`.
pub open spec fn unknown_class(c: u8) -> Seq<char> {
    dec_seq(c as nat) + " Unknown"@
}

impl GameData {
    pub closed spec fn races_view(&self) -> Seq<(u32, Seq<char>)> {
        text_entries(self.races@)
    }

    pub closed spec fn classes_view(&self) -> Seq<(u8, Seq<char>)> {
        text_entries(self.classes@)
    }

    pub closed spec fn palette_view(&self) -> Seq<(Seq<char>, [u8; 3])> {
        keyed_by_text(self.color_palette@)
    }

    pub closed spec fn spawn_colors_view(&self) -> Seq<(Seq<char>, [u8; 3])> {
        keyed_by_text(self.spawn_colors@)
    }

    /// Each table holds each key once.
    pub open spec fn wf(&self) -> bool {
        &&& keys_distinct(self.races_view())
        &&& keys_distinct(self.classes_view())
        &&& keys_distinct(self.palette_view())
        &&& keys_distinct(self.spawn_colors_view())
    }

    /// No data: fallback names only, no colors.
    pub fn new() -> (g: Self)
        ensures
            g.wf(),
            g.races_view().len() == 0,
            g.classes_view().len() == 0,
            g.palette_view().len() == 0,
            g.spawn_colors_view().len() == 0,
    {
        let g = GameData {
            races: Vec::new(),
            classes: Vec::new(),
            color_palette: Vec::new(),
            spawn_colors: Vec::new(),
        };
        assert(g.races_view() =~= Seq::empty());
        assert(g.classes_view() =~= Seq::empty());
        assert(g.palette_view() =~= Seq::empty());
        assert(g.spawn_colors_view() =~= Seq::empty());
        g
    }

    /// Read the race names out of the string database text: the lines
    /// `id^11^Name^...` (see `race_line`).
    pub fn parse(content: &str) -> (g: Self)
        ensures
            g.wf(),
            g.races_view() == races_of(lines_seq(content@)),
            g.classes_view().len() == 0,
            g.palette_view().len() == 0,
            g.spawn_colors_view().len() == 0,
    {
        let mut g = GameData::new();
        let v = chars_of(content);
        let lines = lines_chars(&v);
        let ghost ls = seqs(lines@);
        let mut i: usize = 0;
        while i < lines.len()
            invariant
                g.wf(),
                ls == seqs(lines@),
                ls == lines_seq(content@),
                i <= lines@.len(),
                g.races_view() == races_of(ls.take(i as int)),
                g.classes_view().len() == 0,
                g.palette_view().len() == 0,
                g.spawn_colors_view().len() == 0,
            decreases lines@.len() - i,
        {
            proof {
                assert(ls.take(i + 1).drop_last() =~= ls.take(i as int));
                assert(ls.take(i + 1).last() == lines@[i as int]@);
            }
            match race_entry(&lines[i]) {
                Some((id, name)) => {
                    g.put_race(id, name);
                },
                None => {},
            }
            i = i + 1;
        }
        assert(ls.take(i as int) =~= ls);
        g
    }

    fn put_race(&mut self, id: u32, name: String)
        requires
            old(self).wf(),
        ensures
            final(self).wf(),
            final(self).races_view() == assoc_put(old(self).races_view(), id, name@),
            final(self).classes_view() == old(self).classes_view(),
            final(self).palette_view() == old(self).palette_view(),
            final(self).spawn_colors_view() == old(self).spawn_colors_view(),
    {
        let ghost s0 = self.races_view();
        proof {
            lemma_assoc_put(s0, id, name@);
        }
        let i = self.race_index(id);
        let ghost n = name@;
        if i < self.races.len() {
            self.races.set(i, (id, name));
            assert(self.races_view() =~= s0.update(i as int, (id, n)));
        } else {
            self.races.push((id, name));
            assert(self.races_view() =~= s0.push((id, n)));
        }
    }

    /// Index of the entry for `id` in the race table, or its length.
    fn race_index(&self, id: u32) -> (i: usize)
        ensures
            i == key_index(self.races_view(), id),
            i <= self.races@.len(),
    {
        let mut i: usize = 0;
        while i < self.races.len()
            invariant
                i <= self.races@.len(),
                self.races_view().len() == self.races@.len(),
                forall|j: int| 0 <= j < i ==> self.races_view()[j].0 != id,
            decreases self.races@.len() - i,
        {
            if self.races[i].0 == id {
                proof {
                    lemma_key_index_is(self.races_view(), id, i as int);
                }
                return i;
            }
            i = i + 1;
        }
        proof {
            lemma_key_index_is(self.races_view(), id, i as int);
        }
        i
    }

    /// The display name of a race id: from the string database, else the
    /// fallback table of playable races, else `---`.
    pub fn race_name(&self, id: u32) -> (s: &str)
        ensures
            s@ == (match assoc_get(self.races_view(), id) {
                Some(n) => n,
                None => match fallback_race(id) {
                    Some(n) => n,
                    None => "---"@,
                },
            }),
    {
        let i = self.race_index(id);
        if i < self.races.len() {
            return self.races[i].1.as_str();
        }
        match fallback_race_str(id) {
            Some(s) => s,
            None => "---",
        }
    }
}

/// The race entry of one line of the string database.
fn race_entry(line: &Vec<char>) -> (r: Option<(u32, String)>)
    ensures
        match r {
            Some((id, name)) => race_line(line@) == Some((id, name@)),
            None => race_line(line@) is None,
        },
{
    let parts = splitn_chars(line, 4, '^');
    let ghost ps = seqs(parts@);
    if parts.len() < 3 {
        return None;
    }
    assert(parts@[1]@ == ps[1]);
    let mut eleven: Vec<char> = Vec::new();
    eleven.push('1');
    eleven.push('1');
    assert(eleven@ =~= seq!['1', '1']);
    if !chars_eq(&parts[1], &eleven) {
        return None;
    }
    let id_text = trim_chars(&parts[0]);
    match parse_u64_upto(&id_text, 0xFFFF_FFFF) {
        Some(id) => {
            if parts[2].len() > 0 {
                Some((id as u32, string_of(parts[2].as_slice())))
            } else {
                None
            }
        },
        None => None,
    }
}

/// Index of the entry whose text key is `key`, or the length.
fn text_index<V>(v: &Vec<(String, V)>, key: &Vec<char>) -> (i: usize)
    ensures
        i == key_index(keyed_by_text(v@), key@),
        i <= v@.len(),
{
    let ghost kv = keyed_by_text(v@);
    let mut i: usize = 0;
    while i < v.len()
        invariant
            i <= v@.len(),
            kv == keyed_by_text(v@),
            forall|j: int| 0 <= j < i ==> kv[j].0 != key@,
        decreases v@.len() - i,
    {
        let k = chars_of(v[i].0.as_str());
        if chars_eq(&k, key) {
            proof {
                lemma_key_index_is(kv, key@, i as int);
            }
            return i;
        }
        i = i + 1;
    }
    proof {
        lemma_key_index_is(kv, key@, i as int);
    }
    i
}

/// Put `key -> val` into a text-keyed table.
fn put_text<V>(v: &mut Vec<(String, V)>, key: Vec<char>, val: V)
    ensures
        keyed_by_text(final(v)@) == assoc_put(keyed_by_text(old(v)@), key@, val),
{
    let ghost s0 = keyed_by_text(v@);
    let i = text_index(v, &key);
    let k = string_of(key.as_slice());
    if i < v.len() {
        v.set(i, (k, val));
        assert(keyed_by_text(v@) =~= s0.update(i as int, (key@, val)));
    } else {
        v.push((k, val));
        assert(keyed_by_text(v@) =~= s0.push((key@, val)));
    }
}

/// The class table from the entries of a JSON object: keys that parse as
/// a `u8` id, in order (a later key for the same id replaces an earlier).
pub open spec fn classes_from(entries: Seq<(Seq<char>, Seq<char>)>) -> Seq<(u8, Seq<char>)>
    decreases entries.len(),
{
    if entries.len() == 0 {
        Seq::empty()
    } else {
        let t = classes_from(entries.drop_last());
        match parse_nat_upto(entries.last().0, 255) {
            Some(id) => assoc_put(t, id as u8, entries.last().1),
            None => t,
        }
    }
}

/// The color of a palette entry: its `rgb` array when it has exactly three
/// unsigned numbers, each taken as a byte (low 8 bits).
pub open spec fn rgb_of(rgb: Option<Seq<Option<u64>>>) -> Option<[u8; 3]> {
    match rgb {
        Some(a) => if a.len() == 3 && a[0] is Some && a[1] is Some && a[2] is Some {
            Some([a[0]->0 as u8, a[1]->0 as u8, a[2]->0 as u8])
        } else {
            None
        },
        None => None,
    }
}

/// The palette from the entries of a JSON object, in order.
pub open spec fn palette_from(entries: Seq<(Seq<char>, Option<Seq<Option<u64>>>)>) -> Seq<
    (Seq<char>, [u8; 3]),
>
    decreases entries.len(),
{
    if entries.len() == 0 {
        Seq::empty()
    } else {
        let t = palette_from(entries.drop_last());
        match rgb_of(entries.last().1) {
            Some(c) => assoc_put(t, entries.last().0, c),
            None => t,
        }
    }
}

/// The spawn colors from `name -> color key` entries, in order: each name
/// (lowercased) whose key is in the palette gets that color.
pub open spec fn spawn_colors_from(
    palette: Seq<(Seq<char>, [u8; 3])>,
    entries: Seq<(Seq<char>, Seq<char>)>,
) -> Seq<(Seq<char>, [u8; 3])>
    decreases entries.len(),
{
    if entries.len() == 0 {
        Seq::empty()
    } else {
        let t = spawn_colors_from(palette, entries.drop_last());
        match assoc_get(palette, entries.last().1) {
            Some(c) => assoc_put(t, unicode_lowercase(entries.last().0), c),
            None => t,
        }
    }
}

pub open spec fn pair_views(s: Seq<(String, String)>) -> Seq<(Seq<char>, Seq<char>)> {
    s.map_values(|e: (String, String)| (e.0@, e.1@))
}

pub open spec fn rgb_views(s: Seq<(String, Option<Vec<Option<u64>>>)>) -> Seq<
    (Seq<char>, Option<Seq<Option<u64>>>),
> {
    s.map_values(
        |e: (String, Option<Vec<Option<u64>>>)|
            (
                e.0@,
                match e.1 {
                    Some(v) => Some(v@),
                    None => None,
                },
            ),
    )
}

/// The members of the JSON object of strings that a text holds, as
/// `serde_json::from_str::<HashMap<String, String>>` reads it (a later
/// member replaces an earlier one with the same name); `None` when the
/// text is not such an object.
pub uninterp spec fn json_string_object(text: Seq<char>) -> Option<Map<Seq<char>, Seq<char>>>;

/// The members of the JSON object that a text holds, each with the
/// elements of its `rgb` array as unsigned numbers (`as_u64`) when it has
/// such an array, as `serde_json::from_str::<HashMap<String, Value>>`
/// reads it; `None` when the text is not a JSON object.
pub uninterp spec fn json_rgb_object(text: Seq<char>) -> Option<
    Map<Seq<char>, Option<Seq<Option<u64>>>>,
>;

/// `s` lists the entries of `m`, each once, in some order.
pub open spec fn lists_entries<V>(s: Seq<(Seq<char>, V)>, m: Map<Seq<char>, V>) -> bool {
    &&& keys_distinct(s)
    &&& forall|i: int| 0 <= i < s.len() ==> #[trigger] m.contains_key(s[i].0) && m[s[i].0] == s[i].1
    &&& forall|k: Seq<char>| #[trigger] m.contains_key(k) ==> exists|i: int| 0 <= i < s.len() && s[i].0 == k
}

/// `serde_json::from_str::<HashMap<String, String>>`, walked: the members
/// of the object (see `json_string_object`), each once, in the map's
/// iteration order (which varies from run to run and is not stated).
#[verifier::external_body]
fn json_string_pairs(content: &str) -> (r: Option<Vec<(String, String)>>)
    ensures
        match r {
            Some(v) => json_string_object(content@) matches Some(m) && lists_entries(pair_views(v@), m),
            None => json_string_object(content@) is None,
        },
{
    serde_json::from_str::<std::collections::HashMap<String, String>>(content).ok().map(
        |m| m.into_iter().collect(),
    )
}

/// `serde_json::from_str::<HashMap<String, serde_json::Value>>`, walked:
/// for each member of the object its name and, when it holds an `rgb`
/// array, each element as an unsigned number (see `json_rgb_object`);
/// each member once, in the map's iteration order (not stated).
#[verifier::external_body]
fn json_rgb_entries(content: &str) -> (r: Option<Vec<(String, Option<Vec<Option<u64>>>)>>)
    ensures
        match r {
            Some(v) => json_rgb_object(content@) matches Some(m) && lists_entries(rgb_views(v@), m),
            None => json_rgb_object(content@) is None,
        },
{
    serde_json::from_str::<std::collections::HashMap<String, serde_json::Value>>(content).ok().map(
        |m|
            m.into_iter().map(
                |(k, v)|
                    (k, v.get("rgb").and_then(|a| a.as_array()).map(
                        |a| a.iter().map(|x| x.as_u64()).collect(),
                    )),
            ).collect(),
    )
}

impl GameData {
    /// Replace the class table with the ids parsed from `entries`.
    pub fn set_classes(&mut self, entries: &Vec<(String, String)>)
        requires
            old(self).wf(),
        ensures
            final(self).wf(),
            final(self).classes_view() == classes_from(pair_views(entries@)),
            final(self).races_view() == old(self).races_view(),
            final(self).palette_view() == old(self).palette_view(),
            final(self).spawn_colors_view() == old(self).spawn_colors_view(),
    {
        let ghost pv = pair_views(entries@);
        let mut t: Vec<(u8, String)> = Vec::new();
        let mut i: usize = 0;
        assert(text_entries(t@) =~= Seq::<(u8, Seq<char>)>::empty());
        while i < entries.len()
            invariant
                i <= entries@.len(),
                pv == pair_views(entries@),
                text_entries(t@) == classes_from(pv.take(i as int)),
                keys_distinct(text_entries(t@)),
            decreases entries@.len() - i,
        {
            proof {
                assert(pv.take(i + 1).drop_last() =~= pv.take(i as int));
                assert(pv.take(i + 1).last() == pv[i as int]);
            }
            let key = chars_of(entries[i].0.as_str());
            match parse_u64_upto(&key, 255) {
                Some(id) => {
                    let ghost s0 = text_entries(t@);
                    proof {
                        lemma_assoc_put(s0, id as u8, entries@[i as int].1@);
                    }
                    let idb: u8 = id as u8;
                    let mut j: usize = 0;
                    while j < t.len() && t[j].0 != idb
                        invariant
                            j <= t@.len(),
                            s0 == text_entries(t@),
                            forall|q: int| 0 <= q < j ==> s0[q].0 != idb,
                        decreases t@.len() - j,
                    {
                        j = j + 1;
                    }
                    proof {
                        lemma_key_index_is(s0, id as u8, j as int);
                    }
                    let name = entries[i].1.clone();
                    if j < t.len() {
                        t.set(j, (id as u8, name));
                        assert(text_entries(t@) =~= s0.update(j as int, (id as u8, entries@[i as int].1@)));
                    } else {
                        t.push((id as u8, name));
                        assert(text_entries(t@) =~= s0.push((id as u8, entries@[i as int].1@)));
                    }
                },
                None => {},
            }
            i = i + 1;
        }
        assert(pv.take(i as int) =~= pv);
        self.classes = t;
    }

    /// Load class names from the text of a JSON object mapping id strings
    /// to names; left unchanged when the text is absent or not such an
    /// object.
    pub fn load_classes(&mut self, content: Option<&str>)
        requires
            old(self).wf(),
        ensures
            final(self).wf(),
            match content {
                Some(t) => match json_string_object(t@) {
                    Some(m) => exists|e: Seq<(Seq<char>, Seq<char>)>|
                        lists_entries(e, m) && final(self).classes_view() == classes_from(e),
                    None => final(self).classes_view() == old(self).classes_view(),
                },
                None => final(self).classes_view() == old(self).classes_view(),
            },
            final(self).races_view() == old(self).races_view(),
            final(self).palette_view() == old(self).palette_view(),
            final(self).spawn_colors_view() == old(self).spawn_colors_view(),
    {
        if let Some(text) = content {
            if let Some(entries) = json_string_pairs(text) {
                self.set_classes(&entries);
            }
        }
    }

    /// Replace the palette with the colors of `entries`.
    pub fn set_color_palette(&mut self, entries: &Vec<(String, Option<Vec<Option<u64>>>)>)
        requires
            old(self).wf(),
        ensures
            final(self).wf(),
            final(self).palette_view() == palette_from(rgb_views(entries@)),
            final(self).races_view() == old(self).races_view(),
            final(self).classes_view() == old(self).classes_view(),
            final(self).spawn_colors_view() == old(self).spawn_colors_view(),
    {
        let ghost ev = rgb_views(entries@);
        let mut t: Vec<(String, [u8; 3])> = Vec::new();
        assert(keyed_by_text(t@) =~= Seq::<(Seq<char>, [u8; 3])>::empty());
        let mut i: usize = 0;
        while i < entries.len()
            invariant
                i <= entries@.len(),
                ev == rgb_views(entries@),
                keyed_by_text(t@) == palette_from(ev.take(i as int)),
                keys_distinct(keyed_by_text(t@)),
            decreases entries@.len() - i,
        {
            proof {
                assert(ev.take(i + 1).drop_last() =~= ev.take(i as int));
                assert(ev.take(i + 1).last() == ev[i as int]);
            }
            let c = match &entries[i].1 {
                Some(a) => {
                    if a.len() == 3 {
                        match (a[0], a[1], a[2]) {
                            (Some(r), Some(g), Some(b)) => Some(
                                [
                                    #[verifier::truncate] (r as u8),
                                    #[verifier::truncate] (g as u8),
                                    #[verifier::truncate] (b as u8),
                                ],
                            ),
                            _ => None,
                        }
                    } else {
                        None
                    }
                },
                None => None,
            };
            assert(c == rgb_of(ev[i as int].1));
            match c {
                Some(rgb) => {
                    let key = chars_of(entries[i].0.as_str());
                    proof {
                        lemma_assoc_put(keyed_by_text(t@), key@, rgb);
                    }
                    put_text(&mut t, key, rgb);
                },
                None => {},
            }
            i = i + 1;
        }
        assert(ev.take(i as int) =~= ev);
        self.color_palette = t;
    }

    /// Load the color palette from the text of a JSON object
    /// `{ "key": { "rgb": [r, g, b], ... }, ... }`; left unchanged when the
    /// text is absent or malformed.
    pub fn load_color_palette(&mut self, content: Option<&str>)
        requires
            old(self).wf(),
        ensures
            final(self).wf(),
            match content {
                Some(t) => match json_rgb_object(t@) {
                    Some(m) => exists|e: Seq<(Seq<char>, Option<Seq<Option<u64>>>)>|
                        lists_entries(e, m) && final(self).palette_view() == palette_from(e),
                    None => final(self).palette_view() == old(self).palette_view(),
                },
                None => final(self).palette_view() == old(self).palette_view(),
            },
            final(self).races_view() == old(self).races_view(),
            final(self).classes_view() == old(self).classes_view(),
            final(self).spawn_colors_view() == old(self).spawn_colors_view(),
    {
        if let Some(text) = content {
            if let Some(entries) = json_rgb_entries(text) {
                self.set_color_palette(&entries);
            }
        }
    }

    /// Replace the spawn colors with the names of `entries` whose color
    /// key is in the palette.
    pub fn set_spawn_colors(&mut self, entries: &Vec<(String, String)>)
        requires
            old(self).wf(),
        ensures
            final(self).wf(),
            final(self).spawn_colors_view() == spawn_colors_from(
                old(self).palette_view(),
                pair_views(entries@),
            ),
            final(self).races_view() == old(self).races_view(),
            final(self).classes_view() == old(self).classes_view(),
            final(self).palette_view() == old(self).palette_view(),
    {
        let ghost pv = pair_views(entries@);
        let ghost pal = self.palette_view();
        let mut t: Vec<(String, [u8; 3])> = Vec::new();
        assert(keyed_by_text(t@) =~= Seq::<(Seq<char>, [u8; 3])>::empty());
        let mut i: usize = 0;
        while i < entries.len()
            invariant
                i <= entries@.len(),
                pv == pair_views(entries@),
                pal == self.palette_view(),
                keyed_by_text(t@) == spawn_colors_from(pal, pv.take(i as int)),
                keys_distinct(keyed_by_text(t@)),
            decreases entries@.len() - i,
        {
            proof {
                assert(pv.take(i + 1).drop_last() =~= pv.take(i as int));
                assert(pv.take(i + 1).last() == pv[i as int]);
            }
            let ckey = chars_of(entries[i].1.as_str());
            let j = text_index(&self.color_palette, &ckey);
            if j < self.color_palette.len() {
                let rgb = self.color_palette[j].1;
                let lowered = to_lowercase(entries[i].0.as_str());
                let name = chars_of(lowered.as_str());
                proof {
                    lemma_assoc_put(keyed_by_text(t@), name@, rgb);
                }
                put_text(&mut t, name, rgb);
            }
            i = i + 1;
        }
        assert(pv.take(i as int) =~= pv);
        self.spawn_colors = t;
    }

    /// Load spawn color overrides from the text of a JSON object
    /// `{ "Spawn Name": "color_key" }`.  The overrides are cleared first,
    /// so absent or malformed text leaves none.
    pub fn load_spawn_colors(&mut self, content: Option<&str>)
        requires
            old(self).wf(),
        ensures
            final(self).wf(),
            match content {
                Some(t) => match json_string_object(t@) {
                    Some(m) => exists|e: Seq<(Seq<char>, Seq<char>)>|
                        lists_entries(e, m) && final(self).spawn_colors_view() == spawn_colors_from(
                            old(self).palette_view(),
                            e,
                        ),
                    None => final(self).spawn_colors_view().len() == 0,
                },
                None => final(self).spawn_colors_view().len() == 0,
            },
            final(self).races_view() == old(self).races_view(),
            final(self).classes_view() == old(self).classes_view(),
            final(self).palette_view() == old(self).palette_view(),
    {
        self.spawn_colors = Vec::new();
        assert(self.spawn_colors_view() =~= Seq::<(Seq<char>, [u8; 3])>::empty());
        if let Some(text) = content {
            if let Some(entries) = json_string_pairs(text) {
                self.set_spawn_colors(&entries);
            }
        }
    }

    /// The color configured for a spawn name (case-insensitive), if any.
    pub fn spawn_color_override(&self, name: &str) -> (r: Option<[u8; 3]>)
        ensures
            r == assoc_get(self.spawn_colors_view(), unicode_lowercase(name@)),
    {
        let lowered = to_lowercase(name);
        let key = chars_of(lowered.as_str());
        let i = text_index(&self.spawn_colors, &key);
        if i < self.spawn_colors.len() {
            Some(self.spawn_colors[i].1)
        } else {
            None
        }
    }

    /// The display name of a class: from the loaded class table when it has
    /// any entry (`"<id> Unknown"` for ids it lacks), else from the built-in
    /// table (`"<id> Unknown"` for ids that lacks).
    pub fn class_name(&self, class: u8) -> (s: String)
        ensures
            s@ == (if self.classes_view().len() > 0 {
                match assoc_get(self.classes_view(), class) {
                    Some(n) => n,
                    None => unknown_class(class),
                }
            } else {
                match class_table(class) {
                    Some(n) => n,
                    None => unknown_class(class),
                }
            }),
    {
        if self.classes.len() > 0 {
            let mut i: usize = 0;
            while i < self.classes.len()
                invariant
                    i <= self.classes@.len(),
                    self.classes_view().len() == self.classes@.len(),
                    forall|j: int| 0 <= j < i ==> self.classes_view()[j].0 != class,
                decreases self.classes@.len() - i,
            {
                if self.classes[i].0 == class {
                    proof {
                        lemma_key_index_is(self.classes_view(), class, i as int);
                    }
                    return self.classes[i].1.clone();
                }
                i = i + 1;
            }
            proof {
                lemma_key_index_is(self.classes_view(), class, i as int);
            }
            return unknown_class_string(class);
        }
        match class_table_str(class) {
            Some(n) => String::from_str(n),
            None => unknown_class_string(class),
        }
    }
}

fn unknown_class_string(class: u8) -> (s: String)
    ensures
        s@ == unknown_class(class),
{
    let mut v = dec_chars(class as u64);
    let tail = chars_of(" Unknown");
    push_all(&mut v, &tail);
    string_of(v.as_slice())
}

impl Default for GameData {
    fn default() -> (g: Self)
        ensures
            g.wf(),
            g.races_view().len() == 0,
            g.classes_view().len() == 0,
            g.palette_view().len() == 0,
            g.spawn_colors_view().len() == 0,
    {
        GameData::new()
    }
}

} // verus!

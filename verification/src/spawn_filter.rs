//! The spawn list's filter bar: the race and class options offered by
//! the current spawns (sorted, without repeats, classes cascading by
//! race), the selections, and which spawns pass them.
use vstd::prelude::*;
use std::collections::HashSet;
use crate::assoc::{assoc_get, lemma_key_index_is};
use crate::text::{chars_eq, chars_of};

verus! {

broadcast use vstd::std_specs::hash::group_hash_axioms;

/// What kind of spawn an entry is.
#[derive(Clone, Copy, Debug, PartialEq, Eq, Structural)]
pub enum SpawnCategory {
    Npc,
    Pc,
    Corpse,
    Pet,
    Merc,
}

/// One spawn as the filter bar sees it, race and class already resolved
/// to display names.
#[derive(Clone, Debug)]
pub struct FilterEntry {
    pub id: u32,
    pub name: String,
    pub race: String,
    pub class: String,
    pub level: u8,
    pub spawn_type: SpawnCategory,
}

/// The type choice of the filter bar.
#[derive(Clone, Copy, Debug, PartialEq, Eq, Structural)]
pub enum SpawnTypeFilter {
    All,
    Npc,
    Pc,
    Corpse,
    Pet,
}

pub open spec fn type_matches(f: SpawnTypeFilter, c: SpawnCategory) -> bool {
    match f {
        SpawnTypeFilter::All => true,
        SpawnTypeFilter::Npc => c == SpawnCategory::Npc,
        SpawnTypeFilter::Pc => c == SpawnCategory::Pc,
        SpawnTypeFilter::Corpse => c == SpawnCategory::Corpse,
        SpawnTypeFilter::Pet => c == SpawnCategory::Pet || c == SpawnCategory::Merc,
    }
}

impl SpawnTypeFilter {
    /// The label shown in the type choice.
    pub fn label(self) -> (s: &'static str)
        ensures
            s@ == (match self {
                SpawnTypeFilter::All => "All Types"@,
                SpawnTypeFilter::Npc => "NPC"@,
                SpawnTypeFilter::Pc => "PC"@,
                SpawnTypeFilter::Corpse => "Corpse"@,
                SpawnTypeFilter::Pet => "Pet/Merc"@,
            }),
    {
        match self {
            SpawnTypeFilter::All => "All Types",
            SpawnTypeFilter::Npc => "NPC",
            SpawnTypeFilter::Pc => "PC",
            SpawnTypeFilter::Corpse => "Corpse",
            SpawnTypeFilter::Pet => "Pet/Merc",
        }
    }

    /// Does a spawn of category `cat` pass this choice?  Pet covers
    /// mercenaries too.
    pub fn matches(self, cat: SpawnCategory) -> (b: bool)
        ensures
            b == type_matches(self, cat),
    {
        match self {
            SpawnTypeFilter::All => true,
            SpawnTypeFilter::Npc => cat == SpawnCategory::Npc,
            SpawnTypeFilter::Pc => cat == SpawnCategory::Pc,
            SpawnTypeFilter::Corpse => cat == SpawnCategory::Corpse,
            SpawnTypeFilter::Pet => cat == SpawnCategory::Pet || cat == SpawnCategory::Merc,
        }
    }
}

// ---------------------------------------------------------------------------
// Ordered lists of names
// ---------------------------------------------------------------------------

/// `a` sorts before `b`: character by character, a proper prefix first
/// (the order of `String`, since UTF-8 keeps code point order).
pub open spec fn text_lt(a: Seq<char>, b: Seq<char>) -> bool
    decreases a.len(),
{
    if b.len() == 0 {
        false
    } else if a.len() == 0 {
        true
    } else if a[0] != b[0] {
        a[0] < b[0]
    } else {
        text_lt(a.drop_first(), b.drop_first())
    }
}

proof fn lemma_text_lt_irrefl(a: Seq<char>)
    ensures
        !text_lt(a, a),
    decreases a.len(),
{
    if a.len() > 0 {
        lemma_text_lt_irrefl(a.drop_first());
    }
}

proof fn lemma_text_lt_trans(a: Seq<char>, b: Seq<char>, c: Seq<char>)
    requires
        text_lt(a, b),
        text_lt(b, c),
    ensures
        text_lt(a, c),
    decreases a.len(),
{
    if a.len() > 0 && b.len() > 0 && c.len() > 0 && a[0] == b[0] && b[0] == c[0] {
        lemma_text_lt_trans(a.drop_first(), b.drop_first(), c.drop_first());
    }
}

proof fn lemma_text_lt_total(a: Seq<char>, b: Seq<char>)
    ensures
        a == b || text_lt(a, b) || text_lt(b, a),
    decreases a.len(),
{
    if a.len() > 0 && b.len() > 0 && a[0] == b[0] {
        lemma_text_lt_total(a.drop_first(), b.drop_first());
        if a.drop_first() == b.drop_first() {
            assert(a =~= seq![a[0]] + a.drop_first());
            assert(b =~= seq![b[0]] + b.drop_first());
        }
    } else if a.len() == 0 && b.len() == 0 {
        assert(a =~= b);
    }
}

/// Strictly increasing: sorted with no repeats.
pub open spec fn strictly_sorted(s: Seq<Seq<char>>) -> bool {
    forall|i: int, j: int| 0 <= i < j < s.len() ==> text_lt(#[trigger] s[i], #[trigger] s[j])
}

fn text_less(a: &Vec<char>, b: &Vec<char>) -> (r: bool)
    ensures
        r == text_lt(a@, b@),
{
    let mut i: usize = 0;
    assert(a@.skip(0) =~= a@);
    assert(b@.skip(0) =~= b@);
    while i < a.len() && i < b.len() && a[i] == b[i]
        invariant
            i <= a@.len(),
            i <= b@.len(),
            text_lt(a@, b@) == text_lt(a@.skip(i as int), b@.skip(i as int)),
        decreases a@.len() - i,
    {
        assert(a@.skip(i as int).drop_first() =~= a@.skip(i + 1));
        assert(b@.skip(i as int).drop_first() =~= b@.skip(i + 1));
        i = i + 1;
    }
    if i == b.len() {
        false
    } else if i == a.len() {
        true
    } else {
        a[i] < b[i]
    }
}

pub open spec fn texts(v: Seq<String>) -> Seq<Seq<char>> {
    v.map_values(|s: String| s@)
}

/// Does `v[i]` sort before `x`?
fn below_at(v: &Vec<String>, i: usize, x: &Vec<char>) -> (b: bool)
    requires
        i < v@.len(),
    ensures
        b == text_lt(texts(v@)[i as int], x@),
{
    let vc = chars_of(v[i].as_str());
    text_less(&vc, x)
}

/// Insert `x` into a strictly sorted list unless it is already there.
pub(crate) fn insert_sorted(v: &mut Vec<String>, x: &String)
    requires
        strictly_sorted(texts(old(v)@)),
    ensures
        strictly_sorted(texts(final(v)@)),
        texts(final(v)@).to_set() == texts(old(v)@).to_set().insert(x@),
{
    let xc = chars_of(x.as_str());
    let ghost s0 = texts(v@);
    let mut i: usize = 0;
    while i < v.len() && below_at(v, i, &xc)
        invariant
            i <= v@.len(),
            s0 == texts(v@),
            strictly_sorted(s0),
            xc@ == x@,
            forall|j: int| 0 <= j < i ==> text_lt(#[trigger] s0[j], x@),
        decreases v@.len() - i,
    {
        i = i + 1;
    }
    if i < v.len() {
        let vc = chars_of(v[i].as_str());
        if chars_eq(&vc, &xc) {
            proof {
                assert(s0.to_set().insert(x@) =~= s0.to_set()) by {
                    assert(s0[i as int] == x@);
                }
            }
            return;
        }
    }
    proof {
        if i < v@.len() {
            lemma_text_lt_total(s0[i as int], x@);
        }
    }
    let ghost i0 = i;
    v.insert(i, x.clone());
    proof {
        let s1 = texts(v@);
        assert(s1 =~= s0.insert(i0 as int, x@));
        assert forall|a: int, b: int| 0 <= a < b < s1.len() implies text_lt(
            #[trigger] s1[a],
            #[trigger] s1[b],
        ) by {
            if b < i0 {
            } else if b == i0 {
            } else if a < i0 {
                assert(s1[b] == s0[b - 1]);
                assert(text_lt(s0[a], s0[b - 1]));
            } else if a == i0 {
                assert(s1[b] == s0[b - 1]);
                if b - 1 > i0 {
                    lemma_text_lt_trans(x@, s0[i0 as int], s0[b - 1]);
                }
            } else {
                assert(s1[a] == s0[a - 1]);
                assert(s1[b] == s0[b - 1]);
            }
        }
        assert(s1.to_set() =~= s0.to_set().insert(x@)) by {
            assert forall|y: Seq<char>| s1.to_set().contains(y) implies s0.to_set().insert(
                x@,
            ).contains(y) by {
                let k = choose|k: int| 0 <= k < s1.len() && s1[k] == y;
                if k < i0 {
                    assert(s0[k] == y);
                } else if k > i0 {
                    assert(s0[k - 1] == y);
                }
            }
            assert forall|y: Seq<char>| s0.to_set().insert(x@).contains(y) implies s1.to_set().contains(
                y,
            ) by {
                if y == x@ {
                    assert(s1[i0 as int] == y);
                } else {
                    let k = choose|k: int| 0 <= k < s0.len() && s0[k] == y;
                    if k < i0 {
                        assert(s1[k] == y);
                    } else {
                        assert(s1[k + 1] == y);
                    }
                }
            }
        }
    }
}

/// Does the list hold `x`?
fn contains_text(v: &Vec<String>, x: &String) -> (b: bool)
    ensures
        b == texts(v@).contains(x@),
{
    let xc = chars_of(x.as_str());
    let mut i: usize = 0;
    while i < v.len()
        invariant
            i <= v@.len(),
            xc@ == x@,
            forall|j: int| 0 <= j < i ==> texts(v@)[j] != x@,
        decreases v@.len() - i,
    {
        let vc = chars_of(v[i].as_str());
        if chars_eq(&vc, &xc) {
            assert(texts(v@)[i as int] == x@);
            return true;
        }
        i = i + 1;
    }
    false
}

/// A name the filter offers as a choice: not empty and not `---`.
pub open spec fn offered(s: Seq<char>) -> bool {
    s.len() > 0 && s != "---"@
}

/// The races offered by `entries`.
pub open spec fn race_set(entries: Seq<FilterEntry>) -> Set<Seq<char>> {
    Set::new(|r: Seq<char>| exists|i: int| 0 <= i < entries.len() && entries[i].race@ == r && offered(r))
}

/// The classes offered by `entries`.
pub open spec fn class_set(entries: Seq<FilterEntry>) -> Set<Seq<char>> {
    Set::new(|c: Seq<char>| exists|i: int| 0 <= i < entries.len() && entries[i].class@ == c && offered(c))
}

/// The classes offered for race `r`.
pub open spec fn race_classes(entries: Seq<FilterEntry>, r: Seq<char>) -> Set<Seq<char>> {
    Set::new(
        |c: Seq<char>|
            exists|i: int|
                0 <= i < entries.len() && entries[i].race@ == r && entries[i].class@ == c && offered(
                    r,
                ) && offered(c),
    )
}

/// The class lists by race, taken by text.
pub open spec fn race_lists(v: Seq<(String, Vec<String>)>) -> Seq<(Seq<char>, Seq<Seq<char>>)> {
    v.map_values(|e: (String, Vec<String>)| (e.0@, texts(e.1@)))
}

/// The class list kept for race `r`, if any.
pub open spec fn list_for(v: Seq<(Seq<char>, Seq<Seq<char>>)>, r: Seq<char>) -> Option<Seq<Seq<char>>> {
    assoc_get(v, r)
}

/// The class lists hold, for each race with offered classes, exactly
/// those classes, sorted; no other race has a list.
pub open spec fn lists_match(v: Seq<(Seq<char>, Seq<Seq<char>>)>, entries: Seq<FilterEntry>) -> bool {
    &&& forall|i: int, j: int| 0 <= i < j < v.len() ==> v[i].0 != v[j].0
    &&& forall|i: int|
        0 <= i < v.len() ==> strictly_sorted(#[trigger] v[i].1) && v[i].1.to_set() == race_classes(
            entries,
            v[i].0,
        ) && !race_classes(entries, v[i].0).is_empty()
    &&& forall|r: Seq<char>|
        !(#[trigger] race_classes(entries, r)).is_empty() ==> exists|i: int|
            0 <= i < v.len() && v[i].0 == r
}

/// The filter bar: the spawns it filters, the choices they offer, and the
/// current selections.
pub struct SpawnFilterUI {
    entries: Vec<FilterEntry>,
    races: Vec<String>,
    classes: Vec<String>,
    classes_by_race: Vec<(String, Vec<String>)>,
    pub selected_race: Option<String>,
    pub selected_class: Option<String>,
    pub level_min: u8,
    pub level_max: u8,
    pub spawn_type_filter: SpawnTypeFilter,
}

/// Does `e` pass the selections?  Race and class must equal the selected
/// ones, the level lie in the range, the type match.
pub open spec fn passes(
    e: FilterEntry,
    race: Option<String>,
    class: Option<String>,
    lo: u8,
    hi: u8,
    t: SpawnTypeFilter,
) -> bool {
    &&& (race matches Some(r) ==> e.race@ == r@)
    &&& (class matches Some(c) ==> e.class@ == c@)
    &&& lo <= e.level <= hi
    &&& type_matches(t, e.spawn_type)
}

impl SpawnFilterUI {
    pub closed spec fn entries_view(&self) -> Seq<FilterEntry> {
        self.entries@
    }

    pub closed spec fn races_view(&self) -> Seq<Seq<char>> {
        texts(self.races@)
    }

    pub closed spec fn classes_view(&self) -> Seq<Seq<char>> {
        texts(self.classes@)
    }

    pub closed spec fn lists_view(&self) -> Seq<(Seq<char>, Seq<Seq<char>>)> {
        race_lists(self.classes_by_race@)
    }

    pub closed spec fn race_choice(&self) -> Option<String> {
        self.selected_race
    }

    pub closed spec fn class_choice(&self) -> Option<String> {
        self.selected_class
    }

    pub closed spec fn level_lo(&self) -> u8 {
        self.level_min
    }

    pub closed spec fn level_hi(&self) -> u8 {
        self.level_max
    }

    pub closed spec fn type_choice(&self) -> SpawnTypeFilter {
        self.spawn_type_filter
    }

    /// The offered choices are those of the current spawns, sorted.
    pub open spec fn wf(&self) -> bool {
        &&& strictly_sorted(self.races_view())
        &&& self.races_view().to_set() == race_set(self.entries_view())
        &&& strictly_sorted(self.classes_view())
        &&& self.classes_view().to_set() == class_set(self.entries_view())
        &&& lists_match(self.lists_view(), self.entries_view())
    }

    /// The race choices, sorted.
    pub fn races(&self) -> (r: &Vec<String>)
        ensures
            texts(r@) == self.races_view(),
    {
        &self.races
    }

    /// The class choices of all races, sorted.
    pub fn classes(&self) -> (r: &Vec<String>)
        ensures
            texts(r@) == self.classes_view(),
    {
        &self.classes
    }

    /// The class choices for `race`, sorted; `None` when it offers none.
    pub fn classes_for_race(&self, race: &str) -> (r: Option<&Vec<String>>)
        ensures
            match r {
                Some(v) => list_for(self.lists_view(), race@) == Some(texts(v@)),
                None => list_for(self.lists_view(), race@) is None,
            },
    {
        let rc = chars_of(race);
        let mut i: usize = 0;
        while i < self.classes_by_race.len()
            invariant
                i <= self.classes_by_race@.len(),
                rc@ == race@,
                forall|j: int| 0 <= j < i ==> self.lists_view()[j].0 != race@,
            decreases self.classes_by_race@.len() - i,
        {
            let k = chars_of(self.classes_by_race[i].0.as_str());
            if chars_eq(&k, &rc) {
                proof {
                    lemma_key_index_is(self.lists_view(), race@, i as int);
                }
                return Some(&self.classes_by_race[i].1);
            }
            i = i + 1;
        }
        proof {
            lemma_key_index_is(self.lists_view(), race@, i as int);
        }
        None
    }
}

impl Default for SpawnFilterUI {
    fn default() -> (f: Self)
        ensures
            f.wf(),
            f.entries_view().len() == 0,
            f.race_choice() is None,
            f.class_choice() is None,
            f.level_lo() == 0,
            f.level_hi() == 255,
            f.type_choice() == SpawnTypeFilter::All,
    {
        let f = SpawnFilterUI {
            entries: Vec::new(),
            races: Vec::new(),
            classes: Vec::new(),
            classes_by_race: Vec::new(),
            selected_race: None,
            selected_class: None,
            level_min: 0,
            level_max: 255,
            spawn_type_filter: SpawnTypeFilter::All,
        };
        assert(f.races_view().to_set() =~= race_set(f.entries_view()));
        assert(f.classes_view().to_set() =~= class_set(f.entries_view()));
        assert forall|r: Seq<char>| !(#[trigger] race_classes(f.entries_view(), r)).is_empty() implies exists|i: int|
            0 <= i < f.lists_view().len() && f.lists_view()[i].0 == r by {
            assert(race_classes(f.entries_view(), r) =~= Set::empty());
        }
        f
    }
}

/// Is `s` a name the filter offers?
fn is_offered(s: &String) -> (b: bool)
    ensures
        b == offered(s@),
{
    let c = chars_of(s.as_str());
    let dash = chars_of("---");
    c.len() > 0 && !chars_eq(&c, &dash)
}

/// The offered races of the entries, or the offered classes (of all races
/// when `race` is `None`, else of that race), sorted without repeats.
fn offered_names(entries: &Vec<FilterEntry>, classes: bool, race: Option<&String>) -> (r: Vec<String>)
    ensures
        strictly_sorted(texts(r@)),
        texts(r@).to_set() == (if !classes {
            race_set(entries@)
        } else {
            match race {
                Some(rr) => race_classes(entries@, rr@),
                None => class_set(entries@),
            }
        }),
{
    let ghost target = if !classes {
        race_set(entries@)
    } else {
        match race {
            Some(rr) => race_classes(entries@, rr@),
            None => class_set(entries@),
        }
    };
    let mut out: Vec<String> = Vec::new();
    let mut i: usize = 0;
    while i < entries.len()
        invariant
            i <= entries@.len(),
            strictly_sorted(texts(out@)),
            target == (if !classes {
                race_set(entries@)
            } else {
                match race {
                    Some(rr) => race_classes(entries@, rr@),
                    None => class_set(entries@),
                }
            }),
            texts(out@).to_set() == (if !classes {
                race_set(entries@.take(i as int))
            } else {
                match race {
                    Some(rr) => race_classes(entries@.take(i as int), rr@),
                    None => class_set(entries@.take(i as int)),
                }
            }),
        decreases entries@.len() - i,
    {
        let e = &entries[i];
        let ghost before = entries@.take(i as int);
        let ghost after = entries@.take(i + 1);
        proof {
            assert(after =~= before.push(entries@[i as int]));
        }
        if !classes {
            if is_offered(&e.race) {
                insert_sorted(&mut out, &e.race);
            }
            proof {
                assert(race_set(after) =~= if offered(e.race@) {
                    race_set(before).insert(e.race@)
                } else {
                    race_set(before)
                }) by {
                    assert forall|x: Seq<char>| race_set(after).contains(x) implies (if offered(e.race@) {
                        race_set(before).insert(e.race@)
                    } else {
                        race_set(before)
                    }).contains(x) by {
                        let j = choose|j: int| 0 <= j < after.len() && after[j].race@ == x && offered(x);
                        if j < i {
                            assert(before[j] == after[j]);
                        }
                    }
                    assert forall|x: Seq<char>| (if offered(e.race@) {
                        race_set(before).insert(e.race@)
                    } else {
                        race_set(before)
                    }).contains(x) implies race_set(after).contains(x) by {
                        if race_set(before).contains(x) {
                            let j = choose|j: int| 0 <= j < before.len() && before[j].race@ == x && offered(x);
                            assert(after[j] == before[j]);
                        } else {
                            assert(after[i as int] == entries@[i as int]);
                        }
                    }
                }
            }
        } else {
            let take = match race {
                Some(rr) => is_offered(rr) && text_same(&e.race, rr) && is_offered(&e.class),
                None => is_offered(&e.class),
            };
            if take {
                insert_sorted(&mut out, &e.class);
            }
            proof {
                match race {
                    Some(rr) => {
                        let r = rr@;
                        assert(race_classes(after, r) =~= if take {
                            race_classes(before, r).insert(e.class@)
                        } else {
                            race_classes(before, r)
                        }) by {
                            assert forall|x: Seq<char>| race_classes(after, r).contains(x) implies (if take {
                                race_classes(before, r).insert(e.class@)
                            } else {
                                race_classes(before, r)
                            }).contains(x) by {
                                let j = choose|j: int|
                                    0 <= j < after.len() && after[j].race@ == r && after[j].class@ == x
                                        && offered(r) && offered(x);
                                if j < i {
                                    assert(before[j] == after[j]);
                                }
                            }
                            assert forall|x: Seq<char>| (if take {
                                race_classes(before, r).insert(e.class@)
                            } else {
                                race_classes(before, r)
                            }).contains(x) implies race_classes(after, r).contains(x) by {
                                if race_classes(before, r).contains(x) {
                                    let j = choose|j: int|
                                        0 <= j < before.len() && before[j].race@ == r && before[j].class@
                                            == x && offered(r) && offered(x);
                                    assert(after[j] == before[j]);
                                } else {
                                    assert(after[i as int] == entries@[i as int]);
                                }
                            }
                        }
                    },
                    None => {
                        assert(class_set(after) =~= if take {
                            class_set(before).insert(e.class@)
                        } else {
                            class_set(before)
                        }) by {
                            assert forall|x: Seq<char>| class_set(after).contains(x) implies (if take {
                                class_set(before).insert(e.class@)
                            } else {
                                class_set(before)
                            }).contains(x) by {
                                let j = choose|j: int| 0 <= j < after.len() && after[j].class@ == x && offered(x);
                                if j < i {
                                    assert(before[j] == after[j]);
                                }
                            }
                            assert forall|x: Seq<char>| (if take {
                                class_set(before).insert(e.class@)
                            } else {
                                class_set(before)
                            }).contains(x) implies class_set(after).contains(x) by {
                                if class_set(before).contains(x) {
                                    let j = choose|j: int| 0 <= j < before.len() && before[j].class@ == x && offered(x);
                                    assert(after[j] == before[j]);
                                } else {
                                    assert(after[i as int] == entries@[i as int]);
                                }
                            }
                        }
                    },
                }
            }
        }
        i = i + 1;
    }
    assert(entries@.take(i as int) =~= entries@);
    out
}

/// Are the two texts equal?
fn text_same(a: &String, b: &String) -> (r: bool)
    ensures
        r == (a@ == b@),
{
    let x = chars_of(a.as_str());
    let y = chars_of(b.as_str());
    chars_eq(&x, &y)
}

/// The class lists by race for sorted races: each race with offered
/// classes, with those classes sorted.
fn race_class_lists(entries: &Vec<FilterEntry>, races: &Vec<String>) -> (lists: Vec<(String, Vec<String>)>)
    requires
        strictly_sorted(texts(races@)),
        texts(races@).to_set() == race_set(entries@),
    ensures
        lists_match(race_lists(lists@), entries@),
{
    let mut lists: Vec<(String, Vec<String>)> = Vec::new();
    let ghost mut idx: Seq<int> = Seq::empty();
    let mut k: usize = 0;
    while k < races.len()
        invariant
            k <= races@.len(),
            strictly_sorted(texts(races@)),
            texts(races@).to_set() == race_set(entries@),
            idx.len() == lists@.len(),
            forall|q: int|
                0 <= q < lists@.len() ==> 0 <= #[trigger] idx[q] < k && race_lists(lists@)[q].0
                    == texts(races@)[idx[q]],
            forall|i: int, j: int|
                0 <= i < j < race_lists(lists@).len() ==> race_lists(lists@)[i].0 != race_lists(
                    lists@,
                )[j].0,
            forall|i: int|
                0 <= i < race_lists(lists@).len() ==> strictly_sorted(
                    #[trigger] race_lists(lists@)[i].1,
                ) && race_lists(lists@)[i].1.to_set() == race_classes(
                    entries@,
                    race_lists(lists@)[i].0,
                ) && !race_classes(entries@, race_lists(lists@)[i].0).is_empty(),
            forall|j: int|
                0 <= j < k && !race_classes(entries@, #[trigger] texts(races@)[j]).is_empty()
                    ==> exists|q: int| 0 <= q < lists@.len() && race_lists(lists@)[q].0 == texts(races@)[j],
        decreases races@.len() - k,
    {
        let l = offered_names(entries, true, Some(&races[k]));
        if l.len() > 0 {
            let ghost v0 = race_lists(lists@);
            let key: String = races[k].clone();
            proof {
                assert(texts(l@).to_set().contains(texts(l@)[0]));
                assert forall|q: int| 0 <= q < v0.len() implies v0[q].0 != key@ by {
                    let j = idx[q];
                    assert(text_lt(texts(races@)[j], texts(races@)[k as int]));
                    lemma_text_lt_irrefl(texts(races@)[k as int]);
                }
            }
            lists.push((key, l));
            proof {
                let v1 = race_lists(lists@);
                assert(v1 =~= v0.push((key@, texts(l@))));
                idx = idx.push(k as int);
                assert forall|q: int| 0 <= q < lists@.len() implies 0 <= #[trigger] idx[q] < k + 1
                    && race_lists(lists@)[q].0 == texts(races@)[idx[q]] by {
                    if q < v0.len() {
                        assert(v1[q] == v0[q]);
                    }
                }
                assert forall|j: int|
                    0 <= j < k + 1 && !race_classes(entries@, #[trigger] texts(races@)[j]).is_empty()
                        implies exists|q: int| 0 <= q < lists@.len() && v1[q].0 == texts(races@)[j] by {
                    if j < k {
                        let q = choose|q: int| 0 <= q < v0.len() && v0[q].0 == texts(races@)[j];
                        assert(v1[q] == v0[q]);
                    } else {
                        assert(v1[v0.len() as int].0 == texts(races@)[j]);
                    }
                }
            }
        } else {
            proof {
                assert(race_classes(entries@, races@[k as int]@) =~= Set::empty()) by {
                    assert(texts(l@) =~= Seq::<Seq<char>>::empty());
                }
                assert(texts(races@)[k as int] == races@[k as int]@);
            }
        }
        k = k + 1;
    }
    proof {
        let v = race_lists(lists@);
        assert forall|r: Seq<char>| !(#[trigger] race_classes(entries@, r)).is_empty() implies exists|i: int|
            0 <= i < v.len() && v[i].0 == r by {
            let c = race_classes(entries@, r).choose();
            assert(race_classes(entries@, r).contains(c));
            let i = choose|i: int|
                0 <= i < entries@.len() && entries@[i].race@ == r && entries@[i].class@ == c && offered(r)
                    && offered(c);
            assert(race_set(entries@).contains(r));
            assert(texts(races@).to_set().contains(r));
            let j = choose|j: int| 0 <= j < texts(races@).len() && texts(races@)[j] == r;
            assert(!race_classes(entries@, texts(races@)[j]).is_empty());
        }
    }
    lists
}

/// The class choices valid with race choice `race`.
pub open spec fn valid_classes(entries: Seq<FilterEntry>, race: Option<String>) -> Set<Seq<char>> {
    match race {
        Some(r) => race_classes(entries, r@),
        None => class_set(entries),
    }
}

impl SpawnFilterUI {
    /// Rebuild the race and class choices from new spawn data.  A selected
    /// race the new data does not offer is dropped, with the class; a
    /// selected class not offered for the (remaining) race selection is
    /// dropped.
    pub fn update_spawns(&mut self, entries: Vec<FilterEntry>)
        ensures
            final(self).wf(),
            final(self).entries_view() == entries@,
            final(self).race_choice() == (match old(self).race_choice() {
                Some(r) => if race_set(entries@).contains(r@) {
                    Some(r)
                } else {
                    None
                },
                None => None,
            }),
            final(self).class_choice() == (match old(self).class_choice() {
                Some(c) => if old(self).race_choice() is Some && final(self).race_choice() is None {
                    None
                } else if valid_classes(entries@, final(self).race_choice()).contains(c@) {
                    Some(c)
                } else {
                    None
                },
                None => None,
            }),
            final(self).level_lo() == old(self).level_lo(),
            final(self).level_hi() == old(self).level_hi(),
            final(self).type_choice() == old(self).type_choice(),
    {
        let races = offered_names(&entries, false, None);
        let classes = offered_names(&entries, true, None);
        let lists = race_class_lists(&entries, &races);
        let drop_race = match &self.selected_race {
            Some(r) => !contains_text(&races, r),
            None => false,
        };
        if drop_race {
            self.selected_race = None;
            self.selected_class = None;
        }
        let drop_class = match &self.selected_class {
            Some(c) => {
                let ok = match &self.selected_race {
                    Some(r) => {
                        let l = offered_names(&entries, true, Some(r));
                        contains_text(&l, c)
                    },
                    None => contains_text(&classes, c),
                };
                !ok
            },
            None => false,
        };
        if drop_class {
            self.selected_class = None;
        }
        self.entries = entries;
        self.races = races;
        self.classes = classes;
        self.classes_by_race = lists;
    }

    /// The ids of the spawns that pass every selection.
    pub fn apply_filters(&self) -> (ids: HashSet<u32>)
        ensures
            ids@ == Set::new(
                |id: u32|
                    exists|i: int|
                        0 <= i < self.entries_view().len() && self.entries_view()[i].id == id
                            && passes(
                            self.entries_view()[i],
                            self.race_choice(),
                            self.class_choice(),
                            self.level_lo(),
                            self.level_hi(),
                            self.type_choice(),
                        ),
            ),
    {
        let mut ids: HashSet<u32> = HashSet::new();
        let ghost es = self.entries@;
        let mut i: usize = 0;
        while i < self.entries.len()
            invariant
                i <= es.len(),
                es == self.entries@,
                ids@ == Set::new(
                    |id: u32|
                        exists|j: int|
                            0 <= j < i && es[j].id == id && passes(
                                es[j],
                                self.selected_race,
                                self.selected_class,
                                self.level_min,
                                self.level_max,
                                self.spawn_type_filter,
                            ),
                ),
            decreases es.len() - i,
        {
            let e = &self.entries[i];
            let m = self.matches(e);
            let ghost before = ids@;
            if m {
                ids.insert(e.id);
            }
            proof {
                assert(ids@ =~= Set::new(
                    |id: u32|
                        exists|j: int|
                            0 <= j < i + 1 && es[j].id == id && passes(
                                es[j],
                                self.selected_race,
                                self.selected_class,
                                self.level_min,
                                self.level_max,
                                self.spawn_type_filter,
                            ),
                )) by {
                    assert forall|id: u32| ids@.contains(id) implies exists|j: int|
                        0 <= j < i + 1 && es[j].id == id && passes(
                            es[j],
                            self.selected_race,
                            self.selected_class,
                            self.level_min,
                            self.level_max,
                            self.spawn_type_filter,
                        ) by {
                        if !before.contains(id) {
                            assert(es[i as int].id == id);
                        }
                    }
                }
            }
            i = i + 1;
        }
        ids
    }

    /// Does `e` pass every selection?
    fn matches(&self, e: &FilterEntry) -> (b: bool)
        ensures
            b == passes(
                *e,
                self.selected_race,
                self.selected_class,
                self.level_min,
                self.level_max,
                self.spawn_type_filter,
            ),
    {
        match &self.selected_race {
            Some(r) => {
                if !text_same(&e.race, r) {
                    return false;
                }
            },
            None => {},
        }
        match &self.selected_class {
            Some(c) => {
                if !text_same(&e.class, c) {
                    return false;
                }
            },
            None => {},
        }
        if e.level < self.level_min || e.level > self.level_max {
            return false;
        }
        self.spawn_type_filter.matches(e.spawn_type)
    }

    /// Some selection differs from its default.
    pub fn is_active(&self) -> (b: bool)
        ensures
            b == (self.race_choice() is Some || self.class_choice() is Some || self.level_lo() > 0
                || self.level_hi() < 255 || self.type_choice() != SpawnTypeFilter::All),
    {
        self.selected_race.is_some() || self.selected_class.is_some() || self.level_min > 0
            || self.level_max < 255 || self.spawn_type_filter != SpawnTypeFilter::All
    }

    /// Reset every selection to its default.
    pub fn reset(&mut self)
        ensures
            final(self).race_choice() is None,
            final(self).class_choice() is None,
            final(self).level_lo() == 0,
            final(self).level_hi() == 255,
            final(self).type_choice() == SpawnTypeFilter::All,
            final(self).entries_view() == old(self).entries_view(),
            final(self).races_view() == old(self).races_view(),
            final(self).classes_view() == old(self).classes_view(),
            final(self).lists_view() == old(self).lists_view(),
    {
        self.selected_race = None;
        self.selected_class = None;
        self.level_min = 0;
        self.level_max = 255;
        self.spawn_type_filter = SpawnTypeFilter::All;
    }
}

/// After a reset no filter is active and every spawn passes.
pub proof fn law_reset_passes_all(e: FilterEntry)
    ensures
        passes(e, None, None, 0, 255, SpawnTypeFilter::All),
{
}

} // verus!

//! Named spawn filters: lowercase name fragments, each in one category,
//! and the classification of a spawn name by the fragments it contains.
use vstd::prelude::*;
use crate::text::{
    ascii_lower_seq, chars_eq, chars_of, contains_chars, contains_char, contains_seq,
    eq_ignore_ascii_case, string_of, sub_chars, to_lowercase, trim, trim_chars, trim_end,
    trim_end_chars, unicode_lowercase,
};
use vstd::utf8::is_char_boundary;
use vstd::string::StringSliceAdditionalSpecFns;

verus! {

/// Filter category.  Priority for overlapping matches:
/// Danger > Caution > Hunt > Rare.
#[derive(Debug, Clone, Copy, PartialEq, Eq, Structural)]
pub enum FilterCategory {
    Hunt,
    Caution,
    Danger,
    Rare,
}

pub open spec fn priority_of(c: FilterCategory) -> int {
    match c {
        FilterCategory::Danger => 3,
        FilterCategory::Caution => 2,
        FilterCategory::Hunt => 1,
        FilterCategory::Rare => 0,
    }
}

impl FilterCategory {
    pub fn priority(self) -> (p: u8)
        ensures
            p == priority_of(self),
    {
        match self {
            FilterCategory::Danger => 3,
            FilterCategory::Caution => 2,
            FilterCategory::Hunt => 1,
            FilterCategory::Rare => 0,
        }
    }

    /// The element name of the category in the filter file format.
    pub fn xml_tag(self) -> (s: &'static str)
        ensures
            s@ == category_tag(self),
    {
        match self {
            FilterCategory::Hunt => "hunt",
            FilterCategory::Caution => "caution",
            FilterCategory::Danger => "danger",
            FilterCategory::Rare => "rare",
        }
    }
}

pub open spec fn category_tag(c: FilterCategory) -> Seq<char> {
    match c {
        FilterCategory::Hunt => "hunt"@,
        FilterCategory::Caution => "caution"@,
        FilterCategory::Danger => "danger"@,
        FilterCategory::Rare => "rare"@,
    }
}

/// A set of named spawn filters: each lowercase name in one category.
#[derive(Debug, Clone)]
pub struct FilterSet {
    entries: Vec<(Vec<char>, FilterCategory)>,
}

/// The category stored for `key`, if any.
pub open spec fn lookup(s: Seq<(Seq<char>, FilterCategory)>, key: Seq<char>) -> Option<
    FilterCategory,
> {
    if exists|i: int| 0 <= i < s.len() && s[i].0 == key {
        Some(s[choose|i: int| 0 <= i < s.len() && s[i].0 == key].1)
    } else {
        None
    }
}

/// No name occurs twice.
pub open spec fn distinct_keys(s: Seq<(Seq<char>, FilterCategory)>) -> bool {
    forall|i: int, j: int| 0 <= i < j < s.len() ==> s[i].0 != s[j].0
}

/// The category after adding `cat` for a name whose current category is
/// `cur`: the higher-priority one (the current one on a tie).
pub open spec fn combined(cur: Option<FilterCategory>, cat: FilterCategory) -> FilterCategory {
    match cur {
        Some(c) => if priority_of(cat) > priority_of(c) {
            cat
        } else {
            c
        },
        None => cat,
    }
}

/// The entries after adding `cat` under `key`: the entry for `key`
/// updated in place, or a new entry at the end.
pub open spec fn add_seq(s: Seq<(Seq<char>, FilterCategory)>, key: Seq<char>, cat: FilterCategory) -> Seq<
    (Seq<char>, FilterCategory),
> {
    if exists|i: int| 0 <= i < s.len() && s[i].0 == key {
        s.update(
            choose|i: int| 0 <= i < s.len() && s[i].0 == key,
            (key, combined(lookup(s, key), cat)),
        )
    } else {
        s.push((key, cat))
    }
}

/// The entries after adding each entry of `other` in turn, its name
/// lowercased again.
pub open spec fn merge_seq(s: Seq<(Seq<char>, FilterCategory)>, other: Seq<(Seq<char>, FilterCategory)>) -> Seq<
    (Seq<char>, FilterCategory),
>
    decreases other.len(),
{
    if other.len() == 0 {
        s
    } else {
        add_seq(merge_seq(s, other.drop_last()), unicode_lowercase(other.last().0), other.last().1)
    }
}

proof fn lemma_add_seq(s: Seq<(Seq<char>, FilterCategory)>, key: Seq<char>, cat: FilterCategory)
    requires
        distinct_keys(s),
    ensures
        distinct_keys(add_seq(s, key, cat)),
        lookup(add_seq(s, key, cat), key) == Some(combined(lookup(s, key), cat)),
        forall|k: Seq<char>| k != key ==> #[trigger] lookup(add_seq(s, key, cat), k) == lookup(s, k),
{
    let s1 = add_seq(s, key, cat);
    if exists|i: int| 0 <= i < s.len() && s[i].0 == key {
        let i = choose|i: int| 0 <= i < s.len() && s[i].0 == key;
        assert(s1[i].0 == key);
        let c = choose|j: int| 0 <= j < s1.len() && s1[j].0 == key;
        assert(c == i);
    } else {
        assert(s1[s.len() as int].0 == key);
        let c = choose|j: int| 0 <= j < s1.len() && s1[j].0 == key;
        assert(c == s.len());
    }
    assert forall|k: Seq<char>| k != key implies #[trigger] lookup(s1, k) == lookup(s, k) by {
        if exists|j: int| 0 <= j < s.len() && s[j].0 == k {
            let j = choose|j: int| 0 <= j < s.len() && s[j].0 == k;
            assert(s1[j].0 == k);
            let j1 = choose|j: int| 0 <= j < s1.len() && s1[j].0 == k;
            assert(j1 == j);
        }
        if exists|j: int| 0 <= j < s1.len() && s1[j].0 == k {
            let j = choose|j: int| 0 <= j < s1.len() && s1[j].0 == k;
            assert(s[j].0 == k);
        }
    }
}

/// Adding never lowers the priority a name already has, and the name
/// ends with at least the priority it was added with.
pub proof fn law_add_keeps_highest(
    s: Seq<(Seq<char>, FilterCategory)>,
    key: Seq<char>,
    cat: FilterCategory,
)
    requires
        distinct_keys(s),
    ensures
        lookup(add_seq(s, key, cat), key) is Some,
        priority_of(lookup(add_seq(s, key, cat), key)->0) >= priority_of(cat),
        lookup(s, key) is Some ==> priority_of(lookup(add_seq(s, key, cat), key)->0) >= priority_of(
            lookup(s, key)->0,
        ),
        priority_of(lookup(add_seq(s, key, cat), key)->0) == priority_of(cat) || lookup(
            add_seq(s, key, cat),
            key,
        ) == lookup(s, key),
{
    lemma_add_seq(s, key, cat);
}

/// Merging keeps every name of the target at no lower priority, and
/// gives every (relowercased) name of the other set at least the priority
/// it had there.
pub proof fn law_merge_keeps_highest(
    s: Seq<(Seq<char>, FilterCategory)>,
    other: Seq<(Seq<char>, FilterCategory)>,
)
    requires
        distinct_keys(s),
    ensures
        distinct_keys(merge_seq(s, other)),
        forall|k: Seq<char>|
            #![trigger lookup(s, k)]
            lookup(s, k) is Some ==> lookup(merge_seq(s, other), k) is Some && priority_of(
                lookup(merge_seq(s, other), k)->0,
            ) >= priority_of(lookup(s, k)->0),
        forall|i: int|
            0 <= i < other.len() ==> lookup(merge_seq(s, other), unicode_lowercase(#[trigger] other[i].0))
                is Some && priority_of(
                lookup(merge_seq(s, other), unicode_lowercase(other[i].0))->0,
            ) >= priority_of(other[i].1),
    decreases other.len(),
{
    if other.len() > 0 {
        let rest = other.drop_last();
        law_merge_keeps_highest(s, rest);
        let m = merge_seq(s, rest);
        let key = unicode_lowercase(other.last().0);
        lemma_add_seq(m, key, other.last().1);
        let m1 = merge_seq(s, other);
        assert forall|k: Seq<char>| #![trigger lookup(s, k)] lookup(s, k) is Some implies lookup(
            m1,
            k,
        ) is Some && priority_of(lookup(m1, k)->0) >= priority_of(lookup(s, k)->0) by {
            if k != key {
                assert(lookup(m1, k) == lookup(m, k));
            }
        }
        assert forall|i: int| 0 <= i < other.len() implies lookup(
            m1,
            unicode_lowercase(#[trigger] other[i].0),
        ) is Some && priority_of(lookup(m1, unicode_lowercase(other[i].0))->0) >= priority_of(
            other[i].1,
        ) by {
            if i < other.len() - 1 {
                assert(rest[i] == other[i]);
                let ki = unicode_lowercase(other[i].0);
                if ki != key {
                    assert(lookup(m1, ki) == lookup(m, ki));
                }
            }
        }
    }
}

/// Every name is its own lowercase form.
pub open spec fn lowercase_keys(s: Seq<(Seq<char>, FilterCategory)>) -> bool {
    forall|i: int| 0 <= i < s.len() ==> unicode_lowercase(#[trigger] s[i].0) == s[i].0
}

/// The category a name has after merging two sets: the higher-priority
/// of the two where both have it, else the one it has.
pub open spec fn merged(x: Option<FilterCategory>, y: Option<FilterCategory>) -> Option<FilterCategory> {
    match (x, y) {
        (Some(p), Some(q)) => Some(
            if priority_of(q) > priority_of(p) {
                q
            } else {
                p
            },
        ),
        (Some(p), None) => Some(p),
        (None, q) => q,
    }
}

proof fn lemma_lookup_index(s: Seq<(Seq<char>, FilterCategory)>, i: int)
    requires
        distinct_keys(s),
        0 <= i < s.len(),
    ensures
        lookup(s, s[i].0) == Some(s[i].1),
{
    let key = s[i].0;
    assert(s[i].0 == key);
    let c = choose|j: int| 0 <= j < s.len() && s[j].0 == key;
    assert(c == i);
}

proof fn lemma_lookup_push(s: Seq<(Seq<char>, FilterCategory)>, e: (Seq<char>, FilterCategory), k: Seq<char>)
    requires
        distinct_keys(s.push(e)),
    ensures
        lookup(s.push(e), k) == (if e.0 == k {
            Some(e.1)
        } else {
            lookup(s, k)
        }),
{
    let t = s.push(e);
    assert(t[s.len() as int] == e);
    if e.0 == k {
        assert(t[s.len() as int].0 == k);
        let j = choose|j: int| 0 <= j < t.len() && t[j].0 == k;
        assert(j == s.len());
        assert(lookup(t, k) == Some(t[j].1));
    } else {
        if exists|j: int| 0 <= j < s.len() && s[j].0 == k {
            let j = choose|j: int| 0 <= j < s.len() && s[j].0 == k;
            assert(t[j] == s[j]);
            assert(t[j].0 == k);
            assert(distinct_keys(s)) by {
                assert forall|a: int, b: int| 0 <= a < b < s.len() implies s[a].0 != s[b].0 by {
                    assert(t[a] == s[a]);
                    assert(t[b] == s[b]);
                }
            }
            lemma_lookup_index(s, j);
            lemma_lookup_index(t, j);
        } else {
            assert forall|j: int| 0 <= j < t.len() implies t[j].0 != k by {
                if j < s.len() {
                    assert(t[j] == s[j]);
                }
            }
            assert(lookup(t, k) is None);
        }
    }
}

/// What a name has after merging `other` (distinct, lowercase names)
/// into `s`: see `merged`.
proof fn lemma_merge_lookup(s: Seq<(Seq<char>, FilterCategory)>, other: Seq<(Seq<char>, FilterCategory)>, k: Seq<char>)
    requires
        distinct_keys(s),
        distinct_keys(other),
        lowercase_keys(other),
    ensures
        lookup(merge_seq(s, other), k) == merged(lookup(s, k), lookup(other, k)),
    decreases other.len(),
{
    if other.len() == 0 {
        if lookup(s, k) is Some {
        }
    } else {
        let rest = other.drop_last();
        let e = other.last();
        assert(rest.push(e) =~= other);
        assert(distinct_keys(rest));
        assert(lowercase_keys(rest)) by {
            assert forall|i: int| 0 <= i < rest.len() implies unicode_lowercase(#[trigger] rest[i].0) == rest[i].0 by {
                assert(rest[i] == other[i]);
            }
        }
        lemma_merge_lookup(s, rest, k);
        law_merge_keeps_highest(s, rest);
        assert(unicode_lowercase(other[other.len() - 1].0) == other[other.len() - 1].0);
        lemma_add_seq(merge_seq(s, rest), e.0, e.1);
        lemma_lookup_push(rest, e, k);
        if e.0 == k {
            assert(lookup(rest, k) is None) by {
                if exists|j: int| 0 <= j < rest.len() && rest[j].0 == k {
                    let j = choose|j: int| 0 <= j < rest.len() && rest[j].0 == k;
                    assert(other[j].0 == other[other.len() - 1].0);
                }
            }
        }
    }
}

/// Merging two filter sets in either order gives the same entries: every
/// name of either set, with the higher-priority category where both have
/// it.  Stated for sets with distinct names, each of which lowercasing
/// leaves unchanged (merging lowercases the incoming names again).
pub proof fn law_merge_commutes(a: Seq<(Seq<char>, FilterCategory)>, b: Seq<(Seq<char>, FilterCategory)>)
    requires
        distinct_keys(a),
        distinct_keys(b),
        lowercase_keys(a),
        lowercase_keys(b),
    ensures
        forall|k: Seq<char>| #[trigger] lookup(merge_seq(a, b), k) == merged(lookup(a, k), lookup(b, k)),
        forall|k: Seq<char>| #[trigger] lookup(merge_seq(a, b), k) == lookup(merge_seq(b, a), k),
        distinct_keys(merge_seq(a, b)),
{
    law_merge_keeps_highest(a, b);
    assert forall|k: Seq<char>| #[trigger] lookup(merge_seq(a, b), k) == merged(lookup(a, k), lookup(b, k)) by {
        lemma_merge_lookup(a, b, k);
    }
    assert forall|k: Seq<char>| #[trigger] lookup(merge_seq(a, b), k) == lookup(merge_seq(b, a), k) by {
        lemma_merge_lookup(a, b, k);
        lemma_merge_lookup(b, a, k);
    }
}

/// Some entry whose name occurs in `lower` has category `c`.
pub open spec fn matched(s: Seq<(Seq<char>, FilterCategory)>, lower: Seq<char>, c: FilterCategory) -> bool {
    exists|i: int| 0 <= i < s.len() && contains_seq(lower, s[i].0) && s[i].1 == c
}

/// The classification of a lowercase name: the highest-priority category
/// among the entries whose name it contains, `None` when none does.
pub open spec fn classified(s: Seq<(Seq<char>, FilterCategory)>, lower: Seq<char>) -> Option<
    FilterCategory,
> {
    if matched(s, lower, FilterCategory::Danger) {
        Some(FilterCategory::Danger)
    } else if matched(s, lower, FilterCategory::Caution) {
        Some(FilterCategory::Caution)
    } else if matched(s, lower, FilterCategory::Hunt) {
        Some(FilterCategory::Hunt)
    } else if matched(s, lower, FilterCategory::Rare) {
        Some(FilterCategory::Rare)
    } else {
        None
    }
}

pub open spec fn entry_view(e: (Vec<char>, FilterCategory)) -> (Seq<char>, FilterCategory) {
    (e.0@, e.1)
}

impl View for FilterSet {
    type V = Seq<(Seq<char>, FilterCategory)>;

    closed spec fn view(&self) -> Seq<(Seq<char>, FilterCategory)> {
        self.entries@.map_values(|e: (Vec<char>, FilterCategory)| entry_view(e))
    }
}

impl FilterSet {
    pub open spec fn wf(&self) -> bool {
        distinct_keys(self@)
    }

    /// An empty set.
    pub fn new() -> (s: Self)
        ensures
            s@.len() == 0,
            s.wf(),
    {
        FilterSet { entries: Vec::new() }
    }

    /// Index of the entry named `key`.
    fn find(&self, key: &Vec<char>) -> (r: Option<usize>)
        requires
            self.wf(),
        ensures
            match r {
                Some(i) => i < self@.len() && self@[i as int].0 == key@,
                None => forall|i: int| 0 <= i < self@.len() ==> self@[i].0 != key@,
            },
    {
        let mut i: usize = 0;
        while i < self.entries.len()
            invariant
                i <= self@.len(),
                self@.len() == self.entries@.len(),
                forall|j: int| 0 <= j < i ==> self@[j].0 != key@,
            decreases self@.len() - i,
        {
            if chars_eq(&self.entries[i].0, key) {
                return Some(i);
            }
            i = i + 1;
        }
        None
    }

    /// Add `name` (lowercased) in `category`.  A name already present keeps
    /// the higher-priority of its category and `category`.
    pub fn add(&mut self, category: FilterCategory, name: &str)
        requires
            old(self).wf(),
        ensures
            final(self).wf(),
            lookup(final(self)@, unicode_lowercase(name@)) == Some(
                combined(lookup(old(self)@, unicode_lowercase(name@)), category),
            ),
            forall|k: Seq<char>|
                k != unicode_lowercase(name@) ==> #[trigger] lookup(final(self)@, k) == lookup(
                    old(self)@,
                    k,
                ),
            final(self)@ == add_seq(old(self)@, unicode_lowercase(name@), category),
    {
        let lowered = to_lowercase(name);
        let key = chars_of(lowered.as_str());
        self.add_key(category, key);
    }

    fn add_key(&mut self, category: FilterCategory, key: Vec<char>)
        requires
            old(self).wf(),
        ensures
            final(self).wf(),
            lookup(final(self)@, key@) == Some(combined(lookup(old(self)@, key@), category)),
            forall|k: Seq<char>|
                k != key@ ==> #[trigger] lookup(final(self)@, k) == lookup(old(self)@, k),
            final(self)@ == add_seq(old(self)@, key@, category),
    {
        let ghost s0 = self@;
        match self.find(&key) {
            Some(i) => {
                let cur = self.entries[i].1;
                proof {
                    assert(lookup(s0, key@) == Some(cur)) by {
                        let c = choose|j: int| 0 <= j < s0.len() && s0[j].0 == key@;
                        assert(c == i as int);
                    }
                }
                if category.priority() > cur.priority() {
                    self.entries.set(i, (key, category));
                }
                proof {
                    let s1 = self@;
                    let c0 = choose|j: int| 0 <= j < s0.len() && s0[j].0 == key@;
                    assert(c0 == i as int);
                    assert(s1 =~= s0.update(i as int, (s0[i as int].0, combined(Some(cur), category))));
                    assert forall|k: Seq<char>| k != s0[i as int].0 implies #[trigger] lookup(s1, k)
                        == lookup(s0, k) by {
                        if exists|j: int| 0 <= j < s0.len() && s0[j].0 == k {
                            let j = choose|j: int| 0 <= j < s0.len() && s0[j].0 == k;
                            assert(s1[j].0 == k);
                            let j1 = choose|j: int| 0 <= j < s1.len() && s1[j].0 == k;
                            assert(j1 == j);
                        }
                        if exists|j: int| 0 <= j < s1.len() && s1[j].0 == k {
                            let j = choose|j: int| 0 <= j < s1.len() && s1[j].0 == k;
                            assert(s0[j].0 == k);
                        }
                    }
                    assert(s1[i as int].0 == key@);
                    let c = choose|j: int| 0 <= j < s1.len() && s1[j].0 == key@;
                    assert(c == i as int);
                }
            },
            None => {
                let ghost kv = key@;
                self.entries.push((key, category));
                proof {
                    let s1 = self@;
                    assert(s1 =~= s0.push((kv, category)));
                    assert(lookup(s0, kv) is None);
                    assert(s1[s0.len() as int].0 == kv);
                    let c = choose|j: int| 0 <= j < s1.len() && s1[j].0 == kv;
                    assert(c == s0.len());
                    assert forall|k: Seq<char>| k != kv implies #[trigger] lookup(s1, k) == lookup(
                        s0,
                        k,
                    ) by {
                        if exists|j: int| 0 <= j < s0.len() && s0[j].0 == k {
                            let j = choose|j: int| 0 <= j < s0.len() && s0[j].0 == k;
                            assert(s1[j].0 == k);
                            let j1 = choose|j: int| 0 <= j < s1.len() && s1[j].0 == k;
                            assert(j1 == j);
                        }
                        if exists|j: int| 0 <= j < s1.len() && s1[j].0 == k {
                            let j = choose|j: int| 0 <= j < s1.len() && s1[j].0 == k;
                            assert(s0[j].0 == k);
                        }
                    }
                }
            },
        }
    }

    /// The filter category of `name`: the highest-priority category among
    /// the entries that are substrings of its lowercase form.
    pub fn classify(&self, name: &str) -> (r: Option<FilterCategory>)
        ensures
            r == classified(self@, unicode_lowercase(name@)),
    {
        let lowered = to_lowercase(name);
        let lower = chars_of(lowered.as_str());
        let mut best: Option<FilterCategory> = None;
        let mut i: usize = 0;
        while i < self.entries.len()
            invariant
                i <= self@.len(),
                self@.len() == self.entries@.len(),
                lower@ == unicode_lowercase(name@),
                best == classified(self@.take(i as int), lower@),
            decreases self@.len() - i,
        {
            let ghost before = self@.take(i as int);
            let ghost after = self@.take(i + 1);
            let hit = contains_chars(&lower, &self.entries[i].0);
            let cat = self.entries[i].1;
            proof {
                assert(after =~= before.push(self@[i as int]));
                assert forall|c: FilterCategory| matched(after, lower@, c) == (matched(
                    before,
                    lower@,
                    c,
                ) || (hit && cat == c)) by {
                    if matched(after, lower@, c) {
                        let j = choose|j: int|
                            0 <= j < after.len() && contains_seq(lower@, after[j].0) && after[j].1
                                == c;
                        if j < i {
                            assert(before[j] == after[j]);
                        }
                    }
                    if matched(before, lower@, c) {
                        let j = choose|j: int|
                            0 <= j < before.len() && contains_seq(lower@, before[j].0)
                                && before[j].1 == c;
                        assert(after[j] == before[j]);
                    }
                    if hit && cat == c {
                        assert(after[i as int] == self@[i as int]);
                    }
                }
            }
            if hit {
                best = match best {
                    Some(b) => if cat.priority() > b.priority() {
                        Some(cat)
                    } else {
                        Some(b)
                    },
                    None => Some(cat),
                };
            }
            i = i + 1;
        }
        assert(self@.take(i as int) =~= self@);
        best
    }

    /// Remove the entry named `name` (lowercased), if present.
    pub fn remove(&mut self, name: &str)
        requires
            old(self).wf(),
        ensures
            final(self).wf(),
            lookup(final(self)@, unicode_lowercase(name@)) is None,
            forall|k: Seq<char>|
                k != unicode_lowercase(name@) ==> #[trigger] lookup(final(self)@, k) == lookup(
                    old(self)@,
                    k,
                ),
            lookup(old(self)@, unicode_lowercase(name@)) is Some ==> final(self)@.len() == old(
                self,
            )@.len() - 1,
            lookup(old(self)@, unicode_lowercase(name@)) is None ==> final(self)@ == old(self)@,
    {
        let lowered = to_lowercase(name);
        let key = chars_of(lowered.as_str());
        let ghost s0 = self@;
        match self.find(&key) {
            Some(i) => {
                let _ = self.entries.remove(i);
                proof {
                    let s1 = self@;
                    assert(s1 =~= s0.remove(i as int));
                    assert forall|k: Seq<char>| k != key@ implies #[trigger] lookup(s1, k) == lookup(
                        s0,
                        k,
                    ) by {
                        if exists|j: int| 0 <= j < s0.len() && s0[j].0 == k {
                            let j = choose|j: int| 0 <= j < s0.len() && s0[j].0 == k;
                            let jj = if j < i {
                                j
                            } else {
                                j - 1
                            };
                            assert(s1[jj].0 == k);
                            let j1 = choose|j: int| 0 <= j < s1.len() && s1[j].0 == k;
                            if j1 < i {
                                assert(s0[j1].0 == k);
                            } else {
                                assert(s0[j1 + 1].0 == k);
                            }
                        }
                        if exists|j: int| 0 <= j < s1.len() && s1[j].0 == k {
                            let j = choose|j: int| 0 <= j < s1.len() && s1[j].0 == k;
                            if j < i {
                                assert(s0[j].0 == k);
                            } else {
                                assert(s0[j + 1].0 == k);
                            }
                        }
                    }
                    assert forall|j: int| 0 <= j < s1.len() implies s1[j].0 != key@ by {
                        if j < i {
                            assert(s1[j] == s0[j]);
                        } else {
                            assert(s1[j] == s0[j + 1]);
                        }
                    }
                }
            },
            None => {},
        }
    }

    /// Add every entry of `other` (higher priority wins on conflict).
    pub fn merge(&mut self, other: FilterSet)
        requires
            old(self).wf(),
        ensures
            final(self).wf(),
            final(self)@ == merge_seq(old(self)@, other@),
    {
        let ghost s0 = self@;
        let mut i: usize = 0;
        while i < other.entries.len()
            invariant
                self.wf(),
                i <= other@.len(),
                other@.len() == other.entries@.len(),
                self@ == merge_seq(s0, other@.take(i as int)),
            decreases other@.len() - i,
        {
            let name = string_of(other.entries[i].0.as_slice());
            let cat = other.entries[i].1;
            self.add(cat, name.as_str());
            proof {
                assert(other@.take(i + 1).drop_last() =~= other@.take(i as int));
                assert(other@.take(i + 1).last() == other@[i as int]);
            }
            i = i + 1;
        }
        assert(other@.take(i as int) =~= other@);
    }

    /// The entries, each name as a string, in stored order.
    pub fn entries_list(&self) -> (v: Vec<(String, FilterCategory)>)
        ensures
            v@.len() == self@.len(),
            forall|j: int|
                0 <= j < v@.len() ==> (#[trigger] v@[j]).0@ == self@[j].0 && v@[j].1 == self@[j].1,
    {
        let mut v: Vec<(String, FilterCategory)> = Vec::new();
        let mut i: usize = 0;
        while i < self.entries.len()
            invariant
                i <= self@.len(),
                self@.len() == self.entries@.len(),
                v@.len() == i,
                forall|j: int|
                    0 <= j < i ==> (#[trigger] v@[j]).0@ == self@[j].0 && v@[j].1 == self@[j].1,
            decreases self@.len() - i,
        {
            v.push((string_of(self.entries[i].0.as_slice()), self.entries[i].1));
            i = i + 1;
        }
        v
    }

    pub fn is_empty(&self) -> (b: bool)
        ensures
            b == (self@.len() == 0),
    {
        self.entries.len() == 0
    }

    pub fn len(&self) -> (n: usize)
        ensures
            n == self@.len(),
    {
        self.entries.len()
    }
}

} // verus!

verus! {

/// `Name:` in any ASCII case.
pub open spec fn is_name_prefix(s: Seq<char>) -> bool {
    s.len() >= 5 && ascii_lower_seq(s.take(5)) == seq!['n', 'a', 'm', 'e', ':']
}

/// The spawn name in a legacy `Name:xxx` filter text: the text after the
/// prefix (or the whole text), trimmed; `None` when empty or holding one of
/// the regular-expression characters `[`, `:`, `^`, `*`.
pub open spec fn old_filter_name(s: Seq<char>) -> Option<Seq<char>> {
    let name = if is_name_prefix(s) {
        trim(s.skip(5))
    } else {
        trim(s)
    };
    if name.len() == 0 || name.contains('[') || name.contains(':') || name.contains('^')
        || name.contains('*') {
        None
    } else {
        Some(name)
    }
}

/// Extract a spawn name from legacy `<regex>Name:xxx</regex>` text.
pub fn extract_old_filter_name(text: &str) -> (r: Option<String>)
    requires
        text.spec_bytes().len() < 5 || is_char_boundary(text.spec_bytes(), 5),
    ensures
        match r {
            Some(s) => old_filter_name(text@) == Some(s@),
            None => old_filter_name(text@) is None,
        },
{
    old_name_chars(chars_of(text))
}

/// `old_filter_name` of a character sequence.
pub fn old_name_chars(v: Vec<char>) -> (r: Option<String>)
    ensures
        match r {
            Some(s) => old_filter_name(v@) == Some(s@),
            None => old_filter_name(v@) is None,
        },
{
    let mut prefix: Vec<char> = Vec::new();
    prefix.push('n');
    prefix.push('a');
    prefix.push('m');
    prefix.push('e');
    prefix.push(':');
    let has_prefix = if v.len() >= 5 {
        let head = sub_chars(&v, 0, 5);
        assert(head@ =~= v@.take(5));
        assert(prefix@ =~= seq!['n', 'a', 'm', 'e', ':']);
        assert(ascii_lower_seq(prefix@) =~= prefix@);
        eq_ignore_ascii_case(&head, &prefix)
    } else {
        false
    };
    let rest = if has_prefix {
        let r = sub_chars(&v, 5, v.len());
        assert(r@ =~= v@.skip(5));
        r
    } else {
        v
    };
    let name = trim_chars(&rest);
    if name.len() == 0 || contains_char(&name, '[') || contains_char(&name, ':') || contains_char(
        &name,
        '^',
    ) || contains_char(&name, '*') {
        return None;
    }
    Some(string_of(name.as_slice()))
}

/// `s` with `&`, `"`, `<` and `>` written as XML entities.
pub open spec fn xml_escaped(s: Seq<char>) -> Seq<char>
    decreases s.len(),
{
    if s.len() == 0 {
        Seq::empty()
    } else {
        xml_escaped(s.drop_last()) + escape_char(s.last())
    }
}

pub open spec fn escape_char(c: char) -> Seq<char> {
    if c == '&' {
        seq!['&', 'a', 'm', 'p', ';']
    } else if c == '"' {
        seq!['&', 'q', 'u', 'o', 't', ';']
    } else if c == '<' {
        seq!['&', 'l', 't', ';']
    } else if c == '>' {
        seq!['&', 'g', 't', ';']
    } else {
        seq![c]
    }
}

/// Escape the characters that XML attribute values cannot hold.
pub fn xml_escape(s: &str) -> (r: String)
    ensures
        r@ == xml_escaped(s@),
{
    let v = chars_of(s);
    let mut out: Vec<char> = Vec::new();
    let mut i: usize = 0;
    while i < v.len()
        invariant
            i <= v@.len(),
            v@ == s@,
            out@ == xml_escaped(v@.take(i as int)),
        decreases v@.len() - i,
    {
        let c = v[i];
        if c == '&' {
            out.push('&');
            out.push('a');
            out.push('m');
            out.push('p');
            out.push(';');
        } else if c == '"' {
            out.push('&');
            out.push('q');
            out.push('u');
            out.push('o');
            out.push('t');
            out.push(';');
        } else if c == '<' {
            out.push('&');
            out.push('l');
            out.push('t');
            out.push(';');
        } else if c == '>' {
            out.push('&');
            out.push('g');
            out.push('t');
            out.push(';');
        } else {
            out.push(c);
        }
        proof {
            assert(v@.take(i + 1).drop_last() =~= v@.take(i as int));
            assert(out@ =~= xml_escaped(v@.take(i as int)) + escape_char(c));
        }
        i = i + 1;
    }
    assert(v@.take(i as int) =~= v@);
    string_of(out.as_slice())
}

/// The category of a legacy `<section name="...">` (name already
/// lowercased): hunt, caution and danger map to themselves, alert and
/// locate to rare, anything else to none.
pub open spec fn section_category_of(lower: Seq<char>) -> Option<FilterCategory> {
    if lower == "hunt"@ {
        Some(FilterCategory::Hunt)
    } else if lower == "caution"@ {
        Some(FilterCategory::Caution)
    } else if lower == "danger"@ {
        Some(FilterCategory::Danger)
    } else if lower == "alert"@ || lower == "locate"@ {
        Some(FilterCategory::Rare)
    } else {
        None
    }
}

/// The category of a legacy section, by its (case-insensitive) name.
pub fn section_category(name: &str) -> (r: Option<FilterCategory>)
    ensures
        r == section_category_of(unicode_lowercase(name@)),
{
    let lowered = to_lowercase(name);
    let l = chars_of(lowered.as_str());
    if chars_eq(&l, &chars_of("hunt")) {
        Some(FilterCategory::Hunt)
    } else if chars_eq(&l, &chars_of("caution")) {
        Some(FilterCategory::Caution)
    } else if chars_eq(&l, &chars_of("danger")) {
        Some(FilterCategory::Danger)
    } else if chars_eq(&l, &chars_of("alert")) || chars_eq(&l, &chars_of("locate")) {
        Some(FilterCategory::Rare)
    } else {
        None
    }
}

/// `s` without its trailing ASCII digits.
pub open spec fn without_trailing_digits(s: Seq<char>) -> Seq<char>
    decreases s.len(),
{
    if s.len() > 0 && '0' <= s.last() && s.last() <= '9' {
        without_trailing_digits(s.drop_last())
    } else {
        s
    }
}

/// The name a spawn is filtered under: its name without the trailing
/// digits that number spawns of a kind, and without the whitespace then
/// left at its end.
pub fn filter_name_of(name: &str) -> (r: String)
    ensures
        r@ == trim_end(without_trailing_digits(name@)),
{
    let v = chars_of(name);
    let mut n = v.len();
    assert(v@.take(n as int) =~= v@);
    while n > 0 && '0' <= v[n - 1] && v[n - 1] <= '9'
        invariant
            n <= v@.len(),
            without_trailing_digits(v@) == without_trailing_digits(v@.take(n as int)),
        decreases n,
    {
        assert(v@.take(n as int).drop_last() =~= v@.take(n - 1));
        n = n - 1;
    }
    let kept = sub_chars(&v, 0, n);
    assert(kept@ =~= v@.take(n as int));
    string_of(trim_end_chars(&kept).as_slice())
}

} // verus!

//! The filter file: reading a `seqfilters` XML document (current and
//! legacy layouts) into a filter set, and writing a set back as text.
//!
//! Current layout: `<seqfilters><hunt><item name="..."/></hunt>...`.
//! Legacy layout: `<section name="Hunt|Caution|Danger|Alert|Locate">`
//! holding `<oldfilter><regex>Name:...</regex></oldfilter>`.
use vstd::prelude::*;
use quick_xml::events::{BytesStart, Event};
use std::borrow::Cow;
use crate::filters::{
    add_seq, category_tag, old_filter_name, old_name_chars, section_category,
    section_category_of, xml_escape, xml_escaped, FilterCategory, FilterSet,
};
use crate::text::{chars_of, push_all, string_of, to_lowercase, trim, trim_chars, unicode_lowercase};
use crate::spawn_filter::{insert_sorted, strictly_sorted, texts};

verus! {

/// The XML reader over a string.
#[verifier::external_type_specification]
#[verifier::external_body]
#[verifier::reject_recursive_types(R)]
pub struct ExXmlReader<R>(quick_xml::Reader<R>);

/// An XML event as the filter loader reads it.
pub enum XmlEvent {
    /// `<name ...>`: the element name and its attributes, each with its
    /// value unescaped (`None` when the value does not unescape).
    Start(String, Vec<(String, Option<String>)>),
    /// `<name .../>`.
    Empty(String, Vec<(String, Option<String>)>),
    /// Character data as it stands in the document.
    Text(String),
    /// `</name>`.
    End(String),
    Eof,
    /// Anything else (declarations, comments, CDATA, references).
    Other,
}

/// The events `quick_xml`'s reader yields for a document
/// (`Reader::from_str` with `trim_text(true)`), in order, before the end
/// of the document, and whether it reads to that end (`false` when a
/// parse error stops it).
pub uninterp spec fn xml_document(text: Seq<char>) -> (Seq<XmlEvent>, bool);

/// What a reader still holds: the events it yields before the end of its
/// document, and whether it reaches that end without a parse error.
pub uninterp spec fn xml_pending(r: quick_xml::Reader<&[u8]>) -> (Seq<XmlEvent>, bool);

/// `quick_xml::Reader::from_str` with `trim_text(true)` set (whitespace
/// at the ends of character data dropped): a reader holding the
/// document's events, none of which is the end.
#[verifier::external_body]
fn xml_reader<'a>(text: &'a str) -> (r: quick_xml::Reader<&'a [u8]>)
    ensures
        xml_pending(r) == xml_document(text@),
        forall|i: int| 0 <= i < xml_pending(r).0.len() ==> !(#[trigger] xml_pending(r).0[i] is Eof),
{
    let mut r = quick_xml::Reader::from_str(text);
    r.config_mut().trim_text(true);
    r
}

/// `Reader::read_event`, converted: the next event the reader holds (the
/// end once none is left), or `None` on a parse error.  Attributes are
/// `BytesStart::attributes` with the malformed ones skipped, each value
/// unescaped (`None` where that fails).
#[verifier::external_body]
#[allow(deprecated)]
fn next_xml_event(reader: &mut quick_xml::Reader<&[u8]>) -> (r: Option<XmlEvent>)
    ensures
        ({
            let (evs, ok) = xml_pending(*old(reader));
            if evs.len() > 0 {
                r == Some(evs[0]) && xml_pending(*final(reader)) == (evs.drop_first(), ok)
            } else if ok {
                r == Some(XmlEvent::Eof)
            } else {
                r is None
            }
        }),
{
    let attrs = |e: &BytesStart| e.attributes().flatten().map(|a| (a.key.0.to_owned(), a.unescape_value().ok().map(Cow::into_owned))).collect();
    reader.read_event().ok().map(|ev| match ev {
        Event::Start(e) => XmlEvent::Start(e.name().0.to_owned(), attrs(&e)),
        Event::Empty(e) => XmlEvent::Empty(e.name().0.to_owned(), attrs(&e)),
        Event::Text(e) => XmlEvent::Text((*e).to_owned()),
        Event::End(e) => XmlEvent::End(e.name().0.to_owned()),
        Event::Eof => XmlEvent::Eof,
        _ => XmlEvent::Other,
    })
}

/// The value of the first attribute keyed `name`: `None` without one,
/// `Some(None)` when its value does not unescape.
pub open spec fn name_attr(attrs: Seq<(String, Option<String>)>) -> Option<Option<Seq<char>>>
    decreases attrs.len(),
{
    if attrs.len() == 0 {
        None
    } else if attrs[0].0@ == "name"@ {
        Some(
            match attrs[0].1 {
                Some(v) => Some(v@),
                None => None,
            },
        )
    } else {
        name_attr(attrs.drop_first())
    }
}

fn find_name_attr(attrs: &Vec<(String, Option<String>)>) -> (r: Option<Option<String>>)
    ensures
        match r {
            None => name_attr(attrs@) is None,
            Some(None) => name_attr(attrs@) == Some(None::<Seq<char>>),
            Some(Some(v)) => name_attr(attrs@) == Some(Some(v@)),
        },
{
    let ghost s = attrs@;
    let key = chars_of("name");
    let mut i: usize = 0;
    assert(s.skip(0) =~= s);
    while i < attrs.len()
        invariant
            i <= s.len(),
            s == attrs@,
            key@ == "name"@,
            name_attr(s) == name_attr(s.skip(i as int)),
        decreases s.len() - i,
    {
        assert(s.skip(i as int)[0] == s[i as int]);
        let k = chars_of(attrs[i].0.as_str());
        if crate::text::chars_eq(&k, &key) {
            return match &attrs[i].1 {
                Some(v) => Some(Some(v.clone())),
                None => Some(None),
            };
        }
        assert(s.skip(i as int).drop_first() =~= s.skip(i + 1));
        i = i + 1;
    }
    None
}

/// The loader's position: the category being read, and whether the
/// document uses the legacy layout.
pub struct LoadState {
    pub current: Option<FilterCategory>,
    pub legacy: bool,
}

/// The category a current-layout tag opens.
pub open spec fn tag_category(tag: Seq<char>) -> Option<FilterCategory> {
    if tag == "hunt"@ {
        Some(FilterCategory::Hunt)
    } else if tag == "caution"@ {
        Some(FilterCategory::Caution)
    } else if tag == "danger"@ {
        Some(FilterCategory::Danger)
    } else if tag == "rare"@ {
        Some(FilterCategory::Rare)
    } else {
        None
    }
}

/// An `<item>`: its `name` attribute, trimmed and lowercased, added in
/// the current category (nothing without a category or a non-empty name).
pub open spec fn item_added(
    s: Seq<(Seq<char>, FilterCategory)>,
    attrs: Seq<(String, Option<String>)>,
    cur: Option<FilterCategory>,
) -> Seq<(Seq<char>, FilterCategory)> {
    match cur {
        None => s,
        Some(cat) => match name_attr(attrs) {
            None => s,
            Some(v) => {
                let name = match v {
                    Some(t) => unicode_lowercase(trim(t)),
                    None => Seq::empty(),
                };
                if name.len() == 0 {
                    s
                } else {
                    add_seq(s, unicode_lowercase(name), cat)
                }
            },
        },
    }
}

/// One event of the document.
pub open spec fn load_step(
    s: Seq<(Seq<char>, FilterCategory)>,
    cur: Option<FilterCategory>,
    legacy: bool,
    ev: XmlEvent,
) -> (Seq<(Seq<char>, FilterCategory)>, Option<FilterCategory>, bool) {
    match ev {
        XmlEvent::Start(name, attributes) => {
            let tag = name@;
            if tag_category(tag) is Some {
                (s, tag_category(tag), legacy)
            } else if tag == "item"@ {
                (item_added(s, attributes@, cur), cur, legacy)
            } else if tag == "section"@ {
                let c = match name_attr(attributes@) {
                    Some(Some(v)) => section_category_of(unicode_lowercase(v)),
                    _ => None,
                };
                (s, c, true)
            } else {
                (s, cur, legacy)
            }
        },
        XmlEvent::Empty(name, attributes) => {
            if name@ == "item"@ {
                (item_added(s, attributes@, cur), cur, legacy)
            } else {
                (s, cur, legacy)
            }
        },
        XmlEvent::Text(t) => {
            if legacy && cur is Some {
                match old_filter_name(trim(t@)) {
                    Some(n) => (add_seq(s, unicode_lowercase(n), cur->0), cur, legacy),
                    None => (s, cur, legacy),
                }
            } else {
                (s, cur, legacy)
            }
        },
        XmlEvent::End(name) => {
            let tag = name@;
            if tag_category(tag) is Some || tag == "section"@ {
                (s, None, legacy)
            } else {
                (s, cur, legacy)
            }
        },
        _ => (s, cur, legacy),
    }
}

/// The events of a document in turn, from an empty set outside any
/// category.
pub open spec fn load_events(evs: Seq<XmlEvent>) -> (Seq<(Seq<char>, FilterCategory)>, Option<FilterCategory>, bool)
    decreases evs.len(),
{
    if evs.len() == 0 {
        (Seq::empty(), None, false)
    } else {
        let p = load_events(evs.drop_last());
        load_step(p.0, p.1, p.2, evs.last())
    }
}

fn tag_category_of(tag: &Vec<char>) -> (r: Option<FilterCategory>)
    ensures
        r == tag_category(tag@),
{
    if crate::text::chars_eq(tag, &chars_of("hunt")) {
        Some(FilterCategory::Hunt)
    } else if crate::text::chars_eq(tag, &chars_of("caution")) {
        Some(FilterCategory::Caution)
    } else if crate::text::chars_eq(tag, &chars_of("danger")) {
        Some(FilterCategory::Danger)
    } else if crate::text::chars_eq(tag, &chars_of("rare")) {
        Some(FilterCategory::Rare)
    } else {
        None
    }
}

impl FilterSet {
    fn add_item(&mut self, attrs: &Vec<(String, Option<String>)>, cur: Option<FilterCategory>)
        requires
            old(self).wf(),
        ensures
            final(self).wf(),
            final(self)@ == item_added(old(self)@, attrs@, cur),
    {
        let cat = match cur {
            Some(c) => c,
            None => return,
        };
        let v = match find_name_attr(attrs) {
            Some(v) => v,
            None => return,
        };
        let name: Vec<char> = match v {
            Some(t) => {
                let trimmed = string_of(trim_chars(&chars_of(t.as_str())).as_slice());
                chars_of(to_lowercase(trimmed.as_str()).as_str())
            },
            None => Vec::new(),
        };
        if name.len() == 0 {
            return;
        }
        self.add(cat, string_of(name.as_slice()).as_str());
    }

    /// Apply one event of a filter document (see `load_step`).
    pub fn apply_xml_event(&mut self, st: &mut LoadState, ev: &XmlEvent)
        requires
            old(self).wf(),
        ensures
            final(self).wf(),
            (final(self)@, final(st).current, final(st).legacy) == load_step(
                old(self)@,
                old(st).current,
                old(st).legacy,
                *ev,
            ),
    {
        match ev {
            XmlEvent::Start(name, attributes) => {
                let tag = chars_of(name.as_str());
                let c = tag_category_of(&tag);
                if c.is_some() {
                    st.current = c;
                } else if crate::text::chars_eq(&tag, &chars_of("item")) {
                    self.add_item(attributes, st.current);
                } else if crate::text::chars_eq(&tag, &chars_of("section")) {
                    st.legacy = true;
                    st.current = match find_name_attr(attributes) {
                        Some(Some(v)) => section_category(v.as_str()),
                        _ => None,
                    };
                }
            },
            XmlEvent::Empty(name, attributes) => {
                let tag = chars_of(name.as_str());
                if crate::text::chars_eq(&tag, &chars_of("item")) {
                    self.add_item(attributes, st.current);
                }
            },
            XmlEvent::Text(t) => {
                if st.legacy {
                    if let Some(cat) = st.current {
                        let raw = trim_chars(&chars_of(t.as_str()));
                        if let Some(n) = old_name_chars(raw) {
                            self.add(cat, n.as_str());
                        }
                    }
                }
            },
            XmlEvent::End(name) => {
                let tag = chars_of(name.as_str());
                if tag_category_of(&tag).is_some() || crate::text::chars_eq(&tag, &chars_of("section")) {
                    st.current = None;
                }
            },
            _ => {},
        }
    }

    /// Read a filter document: the events of the document (see
    /// `xml_document`) are applied in turn; the flag says the document
    /// read to its end in the legacy layout (and should be rewritten; it is
    /// false after a parse error).
    pub fn load_text(text: &str) -> (r: (FilterSet, bool))
        ensures
            r.0.wf(),
            (r.0@, r.1) == filter_document(text@),
    {
        let mut set = FilterSet::new();
        let mut st = LoadState { current: None, legacy: false };
        let mut reader = xml_reader(text);
        let ghost all = xml_document(text@).0;
        let ghost ok = xml_document(text@).1;
        let ghost mut k: int = 0;
        loop
            invariant
                set.wf(),
                0 <= k <= all.len(),
                xml_pending(reader) == (all.skip(k), ok),
                forall|i: int| 0 <= i < all.len() ==> !(#[trigger] all[i] is Eof),
                (set@, st.current, st.legacy) == load_events(all.take(k)),
                xml_document(text@) == (all, ok),
            decreases all.len() - k,
        {
            let ev = match next_xml_event(&mut reader) {
                Some(e) => e,
                None => {
                    assert(all.take(k) =~= all);
                    return (set, false);
                },
            };
            if let XmlEvent::Eof = ev {
                proof {
                    if k < all.len() {
                        assert(all.skip(k)[0] == all[k]);
                    }
                }
                assert(all.take(k) =~= all);
                let legacy = st.legacy;
                return (set, legacy);
            }
            proof {
                assert(all.skip(k)[0] == all[k]);
                assert(all.skip(k).drop_first() =~= all.skip(k + 1));
                assert(all.take(k + 1).drop_last() =~= all.take(k));
            }
            set.apply_xml_event(&mut st, &ev);
            proof {
                k = k + 1;
            }
        }
    }
}

/// A filter document read: the set its events build, and whether it read
/// to its end in the legacy layout.
pub open spec fn filter_document(text: Seq<char>) -> (Seq<(Seq<char>, FilterCategory)>, bool) {
    let (evs, ok) = xml_document(text);
    (load_events(evs).0, ok && load_events(evs).2)
}


/// The names stored in category `cat`.
pub open spec fn names_in(s: Seq<(Seq<char>, FilterCategory)>, cat: FilterCategory) -> Set<Seq<char>> {
    Set::new(|k: Seq<char>| exists|j: int| 0 <= j < s.len() && s[j].0 == k && s[j].1 == cat)
}

pub open spec fn item_line(name: Seq<char>) -> Seq<char> {
    "    <item name=\""@ + xml_escaped(name) + "\" />\n"@
}

pub open spec fn item_lines(names: Seq<Seq<char>>) -> Seq<char>
    decreases names.len(),
{
    if names.len() == 0 {
        Seq::empty()
    } else {
        item_lines(names.drop_last()) + item_line(names.last())
    }
}

/// A category's block: its tag around one line per name; nothing for no
/// names.
pub open spec fn section_text(cat: FilterCategory, names: Seq<Seq<char>>) -> Seq<char> {
    if names.len() == 0 {
        Seq::empty()
    } else {
        "  <"@ + category_tag(cat) + ">\n"@ + item_lines(names) + "  </"@ + category_tag(cat) + ">\n"@
    }
}

/// The document for the names of each category (hunt, caution, danger,
/// rare, in that order).
pub open spec fn xml_doc(lists: Seq<Seq<Seq<char>>>) -> Seq<char> {
    "<?xml version=\"1.0\" encoding=\"UTF-8\"?>\n"@ + "<!DOCTYPE seqfilters SYSTEM \"seqfilters.dtd\">\n"@
        + "<seqfilters>\n"@ + section_text(FilterCategory::Hunt, lists[0]) + section_text(
        FilterCategory::Caution,
        lists[1],
    ) + section_text(FilterCategory::Danger, lists[2]) + section_text(FilterCategory::Rare, lists[3])
        + "</seqfilters>\n"@
}

fn section_chars(cat: FilterCategory, names: &Vec<String>) -> (r: Vec<char>)
    ensures
        r@ == section_text(cat, texts(names@)),
{
    let mut out: Vec<char> = Vec::new();
    if names.len() == 0 {
        return out;
    }
    let tag = chars_of(cat.xml_tag());
    push_all(&mut out, &chars_of("  <"));
    push_all(&mut out, &tag);
    push_all(&mut out, &chars_of(">\n"));
    let ghost head = out@;
    let ghost t = texts(names@);
    let mut i: usize = 0;
    while i < names.len()
        invariant
            i <= t.len(),
            t == texts(names@),
            out@ == head + item_lines(t.take(i as int)),
        decreases t.len() - i,
    {
        assert(t.take(i + 1).drop_last() =~= t.take(i as int));
        assert(t[i as int] == names@[i as int]@);
        let mut line = chars_of("    <item name=\"");
        push_all(&mut line, &chars_of(xml_escape(names[i].as_str()).as_str()));
        push_all(&mut line, &chars_of("\" />\n"));
        push_all(&mut out, &line);
        assert(out@ =~= head + item_lines(t.take(i + 1)));
        i = i + 1;
    }
    assert(t.take(i as int) =~= t);
    push_all(&mut out, &chars_of("  </"));
    push_all(&mut out, &tag);
    push_all(&mut out, &chars_of(">\n"));
    out
}

impl FilterSet {
    /// The names of category `cat`, sorted.
    fn names_sorted(&self, cat: FilterCategory) -> (v: Vec<String>)
        requires
            self.wf(),
        ensures
            strictly_sorted(texts(v@)),
            texts(v@).to_set() == names_in(self@, cat),
    {
        let ghost s = self@;
        let entries = self.entries_list();
        let mut v: Vec<String> = Vec::new();
        let mut i: usize = 0;
        assert(texts(v@).to_set() =~= names_in(s.take(0), cat));
        while i < entries.len()
            invariant
                i <= s.len(),
                s == self@,
                entries@.len() == s.len(),
                forall|j: int| 0 <= j < s.len() ==> (#[trigger] entries@[j]).0@ == s[j].0 && entries@[j].1 == s[j].1,
                strictly_sorted(texts(v@)),
                texts(v@).to_set() == names_in(s.take(i as int), cat),
            decreases s.len() - i,
        {
            let ghost before = texts(v@).to_set();
            if entries[i].1 == cat {
                insert_sorted(&mut v, &entries[i].0);
            }
            assert(texts(v@).to_set() =~= names_in(s.take(i + 1), cat)) by {
                assert forall|k: Seq<char>| names_in(s.take(i + 1), cat).contains(k) implies #[trigger] texts(v@).to_set().contains(k) by {
                    let j = choose|j: int| #![trigger s.take(i + 1)[j]] 0 <= j < i + 1 && s.take(i + 1)[j].0 == k && s.take(i + 1)[j].1 == cat;
                    if j < i {
                        assert(s.take(i as int)[j] == s[j]);
                        assert(names_in(s.take(i as int), cat).contains(k));
                    }
                }
                assert forall|k: Seq<char>| #[trigger] texts(v@).to_set().contains(k) implies names_in(s.take(i + 1), cat).contains(k) by {
                    if before.contains(k) {
                        let j = choose|j: int| #![trigger s.take(i as int)[j]] 0 <= j < i && s.take(i as int)[j].0 == k && s.take(i as int)[j].1 == cat;
                        assert(s.take(i + 1)[j] == s[j]);
                    } else {
                        assert(s.take(i + 1)[i as int] == s[i as int]);
                    }
                }
            }
            i = i + 1;
        }
        assert(s.take(i as int) =~= s);
        v
    }

    /// The filter file text: the XML declaration and DTD reference, then
    /// each non-empty category (hunt, caution, danger, rare) with its names
    /// sorted and escaped.
    pub fn to_xml_text(&self) -> (r: String)
        requires
            self.wf(),
        ensures
            exists|lists: Seq<Seq<Seq<char>>>|
                {
                    &&& lists.len() == 4
                    &&& strictly_sorted(lists[0]) && lists[0].to_set() == names_in(self@, FilterCategory::Hunt)
                    &&& strictly_sorted(lists[1]) && lists[1].to_set() == names_in(self@, FilterCategory::Caution)
                    &&& strictly_sorted(lists[2]) && lists[2].to_set() == names_in(self@, FilterCategory::Danger)
                    &&& strictly_sorted(lists[3]) && lists[3].to_set() == names_in(self@, FilterCategory::Rare)
                    &&& r@ == #[trigger] xml_doc(lists)
                },
    {
        let hunt = self.names_sorted(FilterCategory::Hunt);
        let caution = self.names_sorted(FilterCategory::Caution);
        let danger = self.names_sorted(FilterCategory::Danger);
        let rare = self.names_sorted(FilterCategory::Rare);
        let mut out = chars_of("<?xml version=\"1.0\" encoding=\"UTF-8\"?>\n");
        push_all(&mut out, &chars_of("<!DOCTYPE seqfilters SYSTEM \"seqfilters.dtd\">\n"));
        push_all(&mut out, &chars_of("<seqfilters>\n"));
        push_all(&mut out, &section_chars(FilterCategory::Hunt, &hunt));
        push_all(&mut out, &section_chars(FilterCategory::Caution, &caution));
        push_all(&mut out, &section_chars(FilterCategory::Danger, &danger));
        push_all(&mut out, &section_chars(FilterCategory::Rare, &rare));
        push_all(&mut out, &chars_of("</seqfilters>\n"));
        let ghost lists = seq![texts(hunt@), texts(caution@), texts(danger@), texts(rare@)];
        assert(out@ =~= xml_doc(lists));
        string_of(out.as_slice())
    }
}

} // verus!

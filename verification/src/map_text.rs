//! Map layer files, as text: `L x1,y1,z1,x2,y2,z2,r,g,b` lines and
//! `P x,y,z,r,g,b,size,label text` labels.  Fields are separated by commas
//! and whitespace.  Here a line is split into its fields; the fields are
//! floating-point numbers, which the caller reads (a line whose fields do
//! not all read is skipped there).
use vstd::prelude::*;
use crate::text::{chars_of, is_whitespace, lines_chars, lines_seq, seqs, string_of, sub_chars, trim, trim_chars, ws};

verus! {

/// Why a zone's map could not be loaded.
#[verifier::external_type_specification]
#[verifier::external_body]
pub struct ExIoError(std::io::Error);

pub enum MapError {
    /// A layer file could not be read.
    Io(std::io::Error),
    /// None of the zone's layer files exists.
    NoLayersFound,
}

impl MapError {
    /// The error's description (its `Display` text); for an I/O error the
    /// caller appends the error itself.
    pub fn message(&self) -> (s: String)
        ensures
            self is NoLayersFound ==> s@ == "no map layer files found for zone"@,
            self is Io ==> s@ == "map I/O error: "@,
    {
        match self {
            MapError::Io(_) => String::from_str("map I/O error: "),
            MapError::NoLayersFound => String::from_str("no map layer files found for zone"),
        }
    }
}

/// A field separator: a comma or whitespace.
pub open spec fn is_sep(c: char) -> bool {
    c == ',' || ws(c)
}

/// `s` without its leading separators.
pub open spec fn skip_seps(s: Seq<char>) -> Seq<char>
    decreases s.len(),
{
    if s.len() > 0 && is_sep(s[0]) {
        skip_seps(s.drop_first())
    } else {
        s
    }
}

/// Index of the first separator of `s`, or -1.
pub open spec fn first_sep(s: Seq<char>) -> int
    decreases s.len(),
{
    if s.len() == 0 {
        -1
    } else if is_sep(s[0]) {
        0
    } else if first_sep(s.drop_first()) < 0 {
        -1
    } else {
        1 + first_sep(s.drop_first())
    }
}

/// Where the token at the start of `s` ends.
pub open spec fn token_end(s: Seq<char>) -> int {
    if first_sep(s) >= 0 {
        first_sep(s)
    } else {
        s.len() as int
    }
}

/// The first `n` tokens of `s` and what follows them (leading separators
/// removed); `None` when there are fewer.
pub open spec fn take_tokens(s: Seq<char>, n: nat) -> Option<(Seq<Seq<char>>, Seq<char>)>
    decreases n,
{
    let t = skip_seps(s);
    if n == 0 {
        Some((Seq::empty(), t))
    } else if t.len() == 0 {
        None
    } else {
        let e = token_end(t);
        match take_tokens(t.skip(e), (n - 1) as nat) {
            Some(r) => Some((seq![t.take(e)] + r.0, r.1)),
            None => None,
        }
    }
}

/// A map layer line, split.
pub enum MapEntry {
    /// The nine fields of a line segment: both end points, then colour.
    Line(Vec<String>),
    /// The seven fields of a label (position, colour, size) and its text.
    Label(Vec<String>, String),
}

pub enum MapEntryModel {
    Line(Seq<Seq<char>>),
    Label(Seq<Seq<char>>, Seq<char>),
}

impl MapEntry {
    pub open spec fn model(&self) -> MapEntryModel {
        match self {
            MapEntry::Line(fs) => MapEntryModel::Line(crate::spawn_filter::texts(fs@)),
            MapEntry::Label(fs, t) => MapEntryModel::Label(crate::spawn_filter::texts(fs@), t@),
        }
    }
}

/// A trimmed layer line: `L` or `l` with nine fields, or `P` or `p` with
/// seven fields and a text (the rest of the line, trimmed); anything else
/// is no entry.
pub open spec fn map_entry(raw: Seq<char>) -> Option<MapEntryModel> {
    let line = trim(raw);
    if line.len() == 0 {
        None
    } else if line[0] == 'L' || line[0] == 'l' {
        match take_tokens(line.drop_first(), 9) {
            Some(r) => Some(MapEntryModel::Line(r.0)),
            None => None,
        }
    } else if line[0] == 'P' || line[0] == 'p' {
        match take_tokens(line.drop_first(), 7) {
            Some(r) => Some(MapEntryModel::Label(r.0, trim(r.1))),
            None => None,
        }
    } else {
        None
    }
}

fn sep(c: char) -> (b: bool)
    ensures
        b == is_sep(c),
{
    c == ',' || is_whitespace(c)
}

proof fn lemma_first_sep_is(s: Seq<char>, p: int)
    requires
        0 <= p <= s.len(),
        p < s.len() ==> is_sep(s[p]),
        forall|j: int| 0 <= j < p ==> !is_sep(#[trigger] s[j]),
    ensures
        first_sep(s) == (if p < s.len() { p } else { -1 }),
    decreases s.len(),
{
    if s.len() > 0 && !is_sep(s[0]) {
        assert forall|j: int| 0 <= j < p - 1 implies !is_sep(#[trigger] s.drop_first()[j]) by {
            assert(s.drop_first()[j] == s[j + 1]);
        }
        lemma_first_sep_is(s.drop_first(), p - 1);
    }
}

/// The first index from `i` that is not a separator.
fn skip_seps_from(v: &Vec<char>, i: usize) -> (j: usize)
    requires
        i <= v.len(),
    ensures
        i <= j <= v.len(),
        skip_seps(v@.skip(i as int)) == v@.skip(j as int),
{
    let mut j = i;
    while j < v.len() && sep(v[j])
        invariant
            i <= j <= v.len(),
            skip_seps(v@.skip(i as int)) == skip_seps(v@.skip(j as int)),
        decreases v.len() - j,
    {
        assert(v@.skip(j as int).drop_first() =~= v@.skip(j + 1));
        j = j + 1;
    }
    if j == v.len() {
        assert(v@.skip(j as int) =~= Seq::<char>::empty());
    }
    j
}

/// The end of the token starting at `i`.
fn token_end_from(v: &Vec<char>, i: usize) -> (e: usize)
    requires
        i <= v.len(),
    ensures
        i <= e <= v.len(),
        token_end(v@.skip(i as int)) == e - i,
{
    let ghost s = v@.skip(i as int);
    let mut e = i;
    while e < v.len() && !sep(v[e])
        invariant
            i <= e <= v.len(),
            s == v@.skip(i as int),
            forall|j: int| 0 <= j < e - i ==> !is_sep(#[trigger] s[j]),
        decreases v.len() - e,
    {
        assert(s[e - i] == v@[e as int]);
        e = e + 1;
    }
    proof {
        if e < v.len() {
            assert(s[e - i] == v@[e as int]);
        }
        lemma_first_sep_is(s, e - i);
    }
    e
}

/// The first `n` tokens of `v[from..]` and where the rest starts.
fn take_tokens_from(v: &Vec<char>, from: usize, n: usize) -> (r: Option<(Vec<Vec<char>>, usize)>)
    requires
        from <= v.len(),
    ensures
        match r {
            Some((ts, k)) => k <= v.len() && take_tokens(v@.skip(from as int), n as nat) == Some(
                (seqs(ts@), v@.skip(k as int)),
            ),
            None => take_tokens(v@.skip(from as int), n as nat) is None,
        },
{
    let mut toks: Vec<Vec<char>> = Vec::new();
    let mut i = from;
    let mut k: usize = 0;
    while k < n
        invariant
            from <= i <= v.len(),
            k <= n,
            take_tokens(v@.skip(from as int), n as nat) == match take_tokens(
                v@.skip(i as int),
                (n - k) as nat,
            ) {
                Some(r) => Some((seqs(toks@) + r.0, r.1)),
                None => None,
            },
        decreases n - k,
    {
        let a = skip_seps_from(v, i);
        if a == v.len() {
            assert(v@.skip(a as int) =~= Seq::<char>::empty());
            return None;
        }
        let e = token_end_from(v, a);
        proof {
            let t = v@.skip(a as int);
            assert(t.skip(e - a) =~= v@.skip(e as int));
            assert(t.take(e - a) =~= v@.subrange(a as int, e as int));
        }
        let tok = sub_chars(v, a, e);
        let ghost before = seqs(toks@);
        toks.push(tok);
        proof {
            assert(seqs(toks@) =~= before.push(tok@));
            let t = v@.skip(a as int);
            match take_tokens(v@.skip(e as int), (n - k - 1) as nat) {
                Some(r) => {
                    assert(before + (seq![t.take(e - a)] + r.0) =~= seqs(toks@) + r.0);
                },
                None => {},
            }
        }
        i = e;
        k = k + 1;
    }
    let j = skip_seps_from(v, i);
    assert(seqs(toks@) + Seq::<Seq<char>>::empty() =~= seqs(toks@));
    Some((toks, j))
}

fn texts_of(vs: Vec<Vec<char>>) -> (r: Vec<String>)
    ensures
        crate::spawn_filter::texts(r@) == seqs(vs@),
{
    let mut r: Vec<String> = Vec::new();
    let mut i: usize = 0;
    while i < vs.len()
        invariant
            i <= vs@.len(),
            crate::spawn_filter::texts(r@) == seqs(vs@).take(i as int),
        decreases vs@.len() - i,
    {
        let s = string_of(vs[i].as_slice());
        let ghost before = crate::spawn_filter::texts(r@);
        r.push(s);
        assert(crate::spawn_filter::texts(r@) =~= before.push(s@));
        assert(seqs(vs@).take(i + 1) =~= seqs(vs@).take(i as int).push(vs@[i as int]@));
        i = i + 1;
    }
    assert(seqs(vs@).take(i as int) =~= seqs(vs@));
    r
}

/// Split one layer line (see `map_entry`).
pub fn parse_map_entry(raw: &str) -> (r: Option<MapEntry>)
    ensures
        match r {
            Some(e) => map_entry(raw@) == Some(e.model()),
            None => map_entry(raw@) is None,
        },
{
    let line = trim_chars(&chars_of(raw));
    if line.len() == 0 {
        return None;
    }
    let c = line[0];
    assert(line@.skip(1) =~= line@.drop_first());
    if c == 'L' || c == 'l' {
        match take_tokens_from(&line, 1, 9) {
            Some((ts, _)) => Some(MapEntry::Line(texts_of(ts))),
            None => None,
        }
    } else if c == 'P' || c == 'p' {
        match take_tokens_from(&line, 1, 7) {
            Some((ts, k)) => {
                let rest = trim_chars(&sub_chars(&line, k, line.len()));
                assert(line@.subrange(k as int, line@.len() as int) =~= line@.skip(k as int));
                Some(MapEntry::Label(texts_of(ts), string_of(rest.as_slice())))
            },
            None => None,
        }
    } else {
        None
    }
}

/// The entries of a layer file's lines, in order; lines that are no entry
/// are skipped.
pub open spec fn map_file(ls: Seq<Seq<char>>) -> Seq<MapEntryModel>
    decreases ls.len(),
{
    if ls.len() == 0 {
        Seq::empty()
    } else {
        match map_entry(ls.last()) {
            Some(e) => map_file(ls.drop_last()).push(e),
            None => map_file(ls.drop_last()),
        }
    }
}

/// Split a layer file's text (see `map_file`).
pub fn map_entries(text: &str) -> (r: Vec<MapEntry>)
    ensures
        r@.map_values(|e: MapEntry| e.model()) == map_file(lines_seq(text@)),
{
    let ls = lines_chars(&chars_of(text));
    let ghost lv = seqs(ls@);
    let mut r: Vec<MapEntry> = Vec::new();
    let mut i: usize = 0;
    while i < ls.len()
        invariant
            i <= ls@.len(),
            lv == seqs(ls@),
            lv == lines_seq(text@),
            r@.map_values(|e: MapEntry| e.model()) == map_file(lv.take(i as int)),
        decreases ls@.len() - i,
    {
        assert(lv.take(i + 1).drop_last() =~= lv.take(i as int));
        assert(lv.take(i + 1).last() == ls@[i as int]@);
        let ghost before = r@.map_values(|e: MapEntry| e.model());
        match parse_map_entry(string_of(ls[i].as_slice()).as_str()) {
            Some(e) => {
                r.push(e);
                assert(r@.map_values(|e: MapEntry| e.model()) =~= before.push(r@.last().model()));
            },
            None => {},
        }
        i = i + 1;
    }
    assert(lv.take(i as int) =~= lv);
    r
}

/// The colour a map line is drawn in: its own, or gray for black.
pub fn line_rgb(r: u8, g: u8, b: u8) -> (c: (u8, u8, u8))
    ensures
        c == (if r == 0 && g == 0 && b == 0 {
            (100u8, 100u8, 100u8)
        } else {
            (r, g, b)
        }),
{
    if r == 0 && g == 0 && b == 0 {
        (100, 100, 100)
    } else {
        (r, g, b)
    }
}

} // verus!

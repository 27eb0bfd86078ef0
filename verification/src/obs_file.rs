//! The observation file: one spawn point per line,
//! `key;name;x;y;z;count;intervals;names`, the intervals separated by
//! commas and the names by `|`.  Coordinates are floating-point text,
//! which the caller reads and writes; everything else is read and written
//! here.
use vstd::prelude::*;
use crate::observer::SpawnObservation;
use crate::spawn_filter::texts;
use crate::text::{
    chars_of, dec_chars, dec_seq, int_dec_chars, int_dec_seq, join_chars, joined, lemma_dec_digits,
    lemma_joined_free, lemma_joined_front, lemma_parse_int_dec, lemma_parse_nat_dec,
    lemma_split_joined, lemma_splitn_joined, lines_chars, lines_seq, parse_i64, seqs, split_chars,
    split_seq, splitn_chars, splitn_seq, string_of, trim, trim_chars, trim_end, trim_start, ws,
};
use crate::timer_file::{i64_text, u32_field, u32_of};

verus! {

/// An observation line, read: everything but the coordinates, which stay
/// text.
pub struct ObsLine {
    pub key: String,
    pub name: String,
    pub x: String,
    pub y: String,
    pub z: String,
    pub spawn_count: u32,
    pub intervals: Vec<i64>,
    pub names: Vec<String>,
}

pub struct ObsLineModel {
    pub key: Seq<char>,
    pub name: Seq<char>,
    pub x: Seq<char>,
    pub y: Seq<char>,
    pub z: Seq<char>,
    pub spawn_count: u32,
    pub intervals: Seq<i64>,
    pub names: Seq<Seq<char>>,
}

impl ObsLine {
    pub open spec fn model(&self) -> ObsLineModel {
        ObsLineModel {
            key: self.key@,
            name: self.name@,
            x: self.x@,
            y: self.y@,
            z: self.z@,
            spawn_count: self.spawn_count,
            intervals: self.intervals@,
            names: texts(self.names@),
        }
    }
}

/// The `i`-th field, or nothing when the line is shorter.
pub open spec fn field_or_empty(p: Seq<Seq<char>>, i: int) -> Seq<char> {
    if p.len() > i {
        p[i]
    } else {
        Seq::empty()
    }
}

/// The pieces of `s` between occurrences of `c`; none for empty `s`.
pub open spec fn pieces_field(s: Seq<char>, c: char) -> Seq<Seq<char>> {
    if s.len() == 0 {
        Seq::empty()
    } else {
        split_seq(s, c)
    }
}

/// The pieces that read as `i64`, in order; the others are dropped.
pub open spec fn ints_of(ps: Seq<Seq<char>>) -> Seq<i64>
    decreases ps.len(),
{
    if ps.len() == 0 {
        Seq::empty()
    } else {
        let r = ints_of(ps.drop_last());
        match i64_text(ps.last()) {
            Some(v) => r.push(v),
            None => r,
        }
    }
}

/// A trimmed observation line: key, name, three coordinates and the count
/// are required; intervals and names may be missing or empty.
pub open spec fn obs_line_model(line: Seq<char>) -> Option<ObsLineModel> {
    let p = splitn_seq(line, 8, ';');
    if p.len() < 6 {
        None
    } else {
        match u32_field(p[5]) {
            Some(c) => Some(
                ObsLineModel {
                    key: p[0],
                    name: p[1],
                    x: p[2],
                    y: p[3],
                    z: p[4],
                    spawn_count: c,
                    intervals: ints_of(pieces_field(field_or_empty(p, 6), ',')),
                    names: pieces_field(field_or_empty(p, 7), '|'),
                },
            ),
            None => None,
        }
    }
}

/// The pieces of `v` between occurrences of `c`, as strings.
fn pieces_of(v: &Vec<char>, c: char) -> (r: Vec<String>)
    ensures
        texts(r@) == pieces_field(v@, c),
{
    let mut r: Vec<String> = Vec::new();
    if v.len() == 0 {
        assert(texts(r@) =~= Seq::<Seq<char>>::empty());
        return r;
    }
    let pieces = split_chars(v, c);
    let mut i: usize = 0;
    while i < pieces.len()
        invariant
            i <= pieces@.len(),
            r@.len() == i,
            texts(r@) == seqs(pieces@).take(i as int),
        decreases pieces@.len() - i,
    {
        let piece = string_of(pieces[i].as_slice());
        assert(piece@ == seqs(pieces@)[i as int]);
        let ghost before = texts(r@);
        r.push(piece);
        assert(texts(r@) =~= before.push(piece@));
        assert(texts(r@) =~= seqs(pieces@).take(i + 1));
        i = i + 1;
    }
    assert(seqs(pieces@).take(i as int) =~= seqs(pieces@));
    r
}

/// The comma-separated intervals of `v` that read as `i64`.
fn ints_field(v: &Vec<char>) -> (r: Vec<i64>)
    ensures
        r@ == ints_of(pieces_field(v@, ',')),
{
    let mut r: Vec<i64> = Vec::new();
    if v.len() == 0 {
        return r;
    }
    let pieces = split_chars(v, ',');
    let ghost ps = seqs(pieces@);
    let mut i: usize = 0;
    while i < pieces.len()
        invariant
            i <= pieces@.len(),
            ps == seqs(pieces@),
            ps == split_seq(v@, ','),
            r@ == ints_of(ps.take(i as int)),
        decreases pieces@.len() - i,
    {
        assert(ps.take(i + 1).drop_last() =~= ps.take(i as int));
        assert(ps.take(i + 1).last() == pieces@[i as int]@);
        match parse_i64(&pieces[i]) {
            Some(n) => {
                r.push(n);
            },
            None => {},
        }
        i = i + 1;
    }
    assert(ps.take(i as int) =~= ps);
    r
}

/// Read one trimmed observation line (see `obs_line_model`).
pub fn parse_obs_line(line: &str) -> (r: Option<ObsLine>)
    ensures
        match r {
            Some(o) => obs_line_model(line@) == Some(o.model()),
            None => obs_line_model(line@) is None,
        },
{
    let p = splitn_chars(&chars_of(line), 8, ';');
    let ghost ps = seqs(p@);
    if p.len() < 6 {
        return None;
    }
    proof {
        assert forall|j: int| 0 <= j < ps.len() implies ps[j] == (#[trigger] p@[j])@ by {}
    }
    let count = match u32_of(&p[5]) {
        Some(c) => c,
        None => {
            return None;
        },
    };
    let empty: Vec<char> = Vec::new();
    let intervals = if p.len() > 6 {
        ints_field(&p[6])
    } else {
        ints_field(&empty)
    };
    let names = if p.len() > 7 {
        pieces_of(&p[7], '|')
    } else {
        pieces_of(&empty, '|')
    };
    Some(
        ObsLine {
            key: string_of(p[0].as_slice()),
            name: string_of(p[1].as_slice()),
            x: string_of(p[2].as_slice()),
            y: string_of(p[3].as_slice()),
            z: string_of(p[4].as_slice()),
            spawn_count: count,
            intervals,
            names,
        },
    )
}

/// The observations a file's lines hold: each line trimmed; blank lines
/// and `#` comments skipped, as are lines that do not read.
pub open spec fn obs_file(ls: Seq<Seq<char>>) -> Seq<ObsLineModel>
    decreases ls.len(),
{
    if ls.len() == 0 {
        Seq::empty()
    } else {
        let r = obs_file(ls.drop_last());
        let l = trim(ls.last());
        if l.len() == 0 || l[0] == '#' {
            r
        } else {
            match obs_line_model(l) {
                Some(m) => r.push(m),
                None => r,
            }
        }
    }
}

/// Read an observation file's text (see `obs_file`).
pub fn obs_lines(text: &str) -> (r: Vec<ObsLine>)
    ensures
        r@.map_values(|o: ObsLine| o.model()) == obs_file(lines_seq(text@)),
{
    let ls = lines_chars(&chars_of(text));
    let ghost lv = seqs(ls@);
    let mut r: Vec<ObsLine> = Vec::new();
    let mut i: usize = 0;
    while i < ls.len()
        invariant
            i <= ls@.len(),
            lv == seqs(ls@),
            lv == lines_seq(text@),
            r@.map_values(|o: ObsLine| o.model()) == obs_file(lv.take(i as int)),
        decreases ls@.len() - i,
    {
        assert(lv.take(i + 1).drop_last() =~= lv.take(i as int));
        assert(lv.take(i + 1).last() == ls@[i as int]@);
        let l = trim_chars(&ls[i]);
        if l.len() > 0 && l[0] != '#' {
            let ghost before = r@.map_values(|o: ObsLine| o.model());
            match parse_obs_line(string_of(l.as_slice()).as_str()) {
                Some(o) => {
                    r.push(o);
                    assert(r@.map_values(|o: ObsLine| o.model()) =~= before.push(r@.last().model()));
                },
                None => {},
            }
        }
        i = i + 1;
    }
    assert(lv.take(i as int) =~= lv);
    r
}

/// Intervals as decimal texts.
pub open spec fn int_texts(s: Seq<i64>) -> Seq<Seq<char>> {
    s.map_values(|v: i64| int_dec_seq(v as int))
}

/// The fields of an observation's line, its coordinates given as text.
pub open spec fn obs_fields(
    key: Seq<char>,
    o: SpawnObservation,
    x: Seq<char>,
    y: Seq<char>,
    z: Seq<char>,
) -> Seq<Seq<char>> {
    seq![
        key,
        o.name@,
        x,
        y,
        z,
        dec_seq(o.spawn_count as nat),
        joined(int_texts(o.intervals@), ','),
        joined(texts(o.names@), '|'),
    ]
}

/// An observation's line: its fields joined by `;`.
pub open spec fn obs_text(
    key: Seq<char>,
    o: SpawnObservation,
    x: Seq<char>,
    y: Seq<char>,
    z: Seq<char>,
) -> Seq<char> {
    joined(obs_fields(key, o, x, y, z), ';')
}

/// Write an observation's line (see `obs_text`).
pub fn obs_file_line(key: &str, o: &SpawnObservation, x: &str, y: &str, z: &str) -> (s: String)
    ensures
        s@ == obs_text(key@, *o, x@, y@, z@),
{
    let mut ivs: Vec<Vec<char>> = Vec::new();
    let mut i: usize = 0;
    while i < o.intervals.len()
        invariant
            i <= o.intervals@.len(),
            seqs(ivs@) == int_texts(o.intervals@).take(i as int),
        decreases o.intervals@.len() - i,
    {
        let c = int_dec_chars(o.intervals[i]);
        let ghost before = seqs(ivs@);
        ivs.push(c);
        assert(seqs(ivs@) =~= before.push(c@));
        assert(seqs(ivs@) =~= int_texts(o.intervals@).take(i + 1));
        i = i + 1;
    }
    assert(int_texts(o.intervals@).take(i as int) =~= int_texts(o.intervals@));
    let mut names: Vec<Vec<char>> = Vec::new();
    let mut j: usize = 0;
    while j < o.names.len()
        invariant
            j <= o.names@.len(),
            seqs(names@) == texts(o.names@).take(j as int),
        decreases o.names@.len() - j,
    {
        let c = chars_of(o.names[j].as_str());
        let ghost before = seqs(names@);
        names.push(c);
        assert(seqs(names@) =~= before.push(c@));
        assert(seqs(names@) =~= texts(o.names@).take(j + 1));
        j = j + 1;
    }
    assert(texts(o.names@).take(j as int) =~= texts(o.names@));
    let mut fs: Vec<Vec<char>> = Vec::new();
    fs.push(chars_of(key));
    fs.push(chars_of(o.name.as_str()));
    fs.push(chars_of(x));
    fs.push(chars_of(y));
    fs.push(chars_of(z));
    fs.push(dec_chars(o.spawn_count as u64));
    fs.push(join_chars(&ivs, ','));
    fs.push(join_chars(&names, '|'));
    assert(seqs(fs@) =~= obs_fields(key@, *o, x@, y@, z@));
    string_of(join_chars(&fs, ';').as_slice())
}

/// Decimal interval texts read back as the intervals.
proof fn lemma_ints_of_texts(s: Seq<i64>)
    ensures
        ints_of(int_texts(s)) == s,
    decreases s.len(),
{
    if s.len() > 0 {
        lemma_ints_of_texts(s.drop_last());
        assert(int_texts(s).drop_last() =~= int_texts(s.drop_last()));
        lemma_parse_int_dec(s.last() as int);
    }
}

/// Joined non-empty pieces are non-empty.
proof fn lemma_joined_nonempty(fs: Seq<Seq<char>>, sep: char)
    requires
        fs.len() >= 1,
        fs[0].len() > 0,
    ensures
        joined(fs, sep).len() > 0,
{
    if fs.len() >= 2 {
        lemma_joined_front(fs, sep);
    }
}

/// An observation written as a line reads back as itself: key, name,
/// coordinates, count, intervals and names come back unchanged, and
/// trimming leaves the line as it is.  This holds when no field but the
/// names holds `;`, the key does not start with whitespace, each name is
/// non-empty and holds no `|`, and the last name does not end in
/// whitespace.
pub proof fn law_obs_line_round_trip(
    key: Seq<char>,
    o: SpawnObservation,
    x: Seq<char>,
    y: Seq<char>,
    z: Seq<char>,
)
    requires
        key.len() > 0,
        !ws(key[0]),
        !key.contains(';'),
        !o.name@.contains(';'),
        !x.contains(';'),
        !y.contains(';'),
        !z.contains(';'),
        forall|i: int|
            0 <= i < o.names@.len() ==> {
                let n = (#[trigger] o.names@[i])@;
                n.len() > 0 && !n.contains('|')
            },
        o.names@.len() > 0 ==> !ws(o.names@.last()@.last()),
    ensures
        trim(obs_text(key, o, x, y, z)) == obs_text(key, o, x, y, z),
        obs_line_model(obs_text(key, o, x, y, z)) == Some(
            ObsLineModel {
                key,
                name: o.name@,
                x,
                y,
                z,
                spawn_count: o.spawn_count,
                intervals: o.intervals@,
                names: texts(o.names@),
            },
        ),
{
    let fs = obs_fields(key, o, x, y, z);
    let text = obs_text(key, o, x, y, z);
    let names = texts(o.names@);
    let ivs = int_texts(o.intervals@);
    assert forall|i: int| 0 <= i < names.len() implies !(#[trigger] names[i]).contains('|')
        && names[i].len() > 0 by {
        assert(names[i] == o.names@[i]@);
    }
    assert forall|i: int| 0 <= i < ivs.len() implies !(#[trigger] ivs[i]).contains(';')
        && !ivs[i].contains(',') by {
        lemma_parse_int_dec(o.intervals@[i] as int);
    }
    lemma_joined_free(ivs, ',', ';');
    lemma_parse_nat_dec(o.spawn_count as nat);
    assert forall|i: int| 0 <= i < fs.len() && i + 1 < fs.len() implies !(
    #[trigger] fs[i]).contains(';') by {
        if i == 0 {
        } else if i <= 4 {
        } else if i == 5 {
        } else {
        }
    }
    lemma_splitn_joined(fs, 8, ';');
    assert(splitn_seq(text, 8, ';') == fs);
    assert(u32_field(fs[5]) == Some(o.spawn_count));
    // The intervals.
    lemma_ints_of_texts(o.intervals@);
    if ivs.len() == 0 {
        assert(pieces_field(joined(ivs, ','), ',') =~= Seq::<Seq<char>>::empty());
        assert(ivs =~= Seq::<Seq<char>>::empty());
    } else {
        lemma_split_joined(ivs, ',');
        lemma_dec_digits(if o.intervals@[0] < 0 {
            (-o.intervals@[0]) as nat
        } else {
            o.intervals@[0] as nat
        });
        lemma_joined_nonempty(ivs, ',');
    }
    assert(ints_of(pieces_field(field_or_empty(fs, 6), ',')) == o.intervals@);
    // The names.
    if names.len() == 0 {
        assert(pieces_field(joined(names, '|'), '|') =~= names);
    } else {
        lemma_split_joined(names, '|');
        lemma_joined_nonempty(names, '|');
    }
    assert(pieces_field(field_or_empty(fs, 7), '|') == names);
    // Trimming keeps the line.
    lemma_joined_front(fs, ';');
    assert(text[0] == key[0]);
    lemma_text_ends(fs, names, o);
    assert(trim_start(text) == text);
    assert(trim_end(text) == text);
}

/// The line ends in the last name's last character, or in `;` when there
/// are no names.
proof fn lemma_text_ends(fs: Seq<Seq<char>>, names: Seq<Seq<char>>, o: SpawnObservation)
    requires
        fs.len() == 8,
        fs[7] == joined(names, '|'),
        names == texts(o.names@),
        forall|i: int| 0 <= i < names.len() ==> (#[trigger] names[i]).len() > 0,
        o.names@.len() > 0 ==> !ws(o.names@.last()@.last()),
    ensures
        !ws(joined(fs, ';').last()),
{
    let text = joined(fs, ';');
    assert(text == joined(fs.drop_last(), ';') + seq![';'] + fs[7]);
    if names.len() == 0 {
        assert(fs[7] =~= Seq::<char>::empty());
        assert(text.last() == ';');
    } else {
        assert(names.last() == o.names@.last()@);
        if names.len() == 1 {
            assert(joined(names, '|') == names[0]);
        } else {
            assert(joined(names, '|') == joined(names.drop_last(), '|') + seq!['|'] + names.last());
        }
        assert(fs[7].last() == names.last().last());
        assert(text.last() == fs[7].last());
    }
}

} // verus!

//! The annotation file: one note per line, `id;text;x;y;z;r;g;b[;size]`.
//! Coordinates are floating-point text, which the caller reads and writes;
//! everything else is read and written here.
use vstd::prelude::*;
use crate::stores::MapAnnotation;
use crate::text::{
    chars_of, dec_chars, dec_seq, join_chars, joined, lemma_joined_front, lemma_parse_nat_dec,
    lemma_splitn_joined, lines_chars, lines_seq, seqs, splitn_chars, splitn_seq, string_of, trim,
    trim_chars, trim_end, trim_start, ws,
};
use crate::timer_file::{u32_field, u32_of, u8_field, u8_of};

verus! {

/// An annotation line, read: everything but the coordinates, which stay
/// text.
pub struct AnnotationLine {
    pub id: u32,
    pub text: String,
    pub x: String,
    pub y: String,
    pub z: String,
    pub color: [u8; 3],
    pub size: u8,
}

pub struct AnnotationModel {
    pub id: u32,
    pub text: Seq<char>,
    pub x: Seq<char>,
    pub y: Seq<char>,
    pub z: Seq<char>,
    pub color: Seq<u8>,
    pub size: u8,
}

impl AnnotationLine {
    pub open spec fn model(&self) -> AnnotationModel {
        AnnotationModel {
            id: self.id,
            text: self.text@,
            x: self.x@,
            y: self.y@,
            z: self.z@,
            color: self.color@,
            size: self.size,
        }
    }
}

/// The size a line gives: its ninth field when that reads as a `u8`, else
/// 12.
pub open spec fn size_field(p: Seq<Seq<char>>) -> u8 {
    if p.len() > 8 {
        match u8_field(p[8]) {
            Some(s) => s,
            None => 12,
        }
    } else {
        12
    }
}

/// A trimmed annotation line: id, text, three coordinates and three colour
/// components are required, the size is optional.
pub open spec fn annotation_model(line: Seq<char>) -> Option<AnnotationModel> {
    let p = splitn_seq(line, 9, ';');
    if p.len() < 8 {
        None
    } else {
        match (u32_field(p[0]), u8_field(p[5]), u8_field(p[6]), u8_field(p[7])) {
            (Some(id), Some(r), Some(g), Some(b)) => Some(
                AnnotationModel {
                    id,
                    text: p[1],
                    x: p[2],
                    y: p[3],
                    z: p[4],
                    color: seq![r, g, b],
                    size: size_field(p),
                },
            ),
            _ => None,
        }
    }
}

/// Read one trimmed annotation line (see `annotation_model`).
pub fn parse_annotation_line(line: &str) -> (r: Option<AnnotationLine>)
    ensures
        match r {
            Some(a) => annotation_model(line@) == Some(a.model()),
            None => annotation_model(line@) is None,
        },
{
    let p = splitn_chars(&chars_of(line), 9, ';');
    let ghost ps = seqs(p@);
    if p.len() < 8 {
        return None;
    }
    proof {
        assert forall|j: int| 0 <= j < ps.len() implies ps[j] == (#[trigger] p@[j])@ by {}
    }
    let id = match u32_of(&p[0]) {
        Some(v) => v,
        None => {
            return None;
        },
    };
    let r = match u8_of(&p[5]) {
        Some(v) => v,
        None => {
            return None;
        },
    };
    let g = match u8_of(&p[6]) {
        Some(v) => v,
        None => {
            return None;
        },
    };
    let b = match u8_of(&p[7]) {
        Some(v) => v,
        None => {
            return None;
        },
    };
    let size: u8 = if p.len() > 8 {
        match u8_of(&p[8]) {
            Some(s) => s,
            None => 12,
        }
    } else {
        12
    };
    let color: [u8; 3] = [r, g, b];
    assert(color@ =~= seq![r, g, b]);
    Some(
        AnnotationLine {
            id,
            text: string_of(p[1].as_slice()),
            x: string_of(p[2].as_slice()),
            y: string_of(p[3].as_slice()),
            z: string_of(p[4].as_slice()),
            color,
            size,
        },
    )
}

/// The notes a file's lines hold: each line trimmed; blank lines and `#`
/// comments skipped, as are lines that do not read.
pub open spec fn annotation_file(ls: Seq<Seq<char>>) -> Seq<AnnotationModel>
    decreases ls.len(),
{
    if ls.len() == 0 {
        Seq::empty()
    } else {
        let r = annotation_file(ls.drop_last());
        let l = trim(ls.last());
        if l.len() == 0 || l[0] == '#' {
            r
        } else {
            match annotation_model(l) {
                Some(m) => r.push(m),
                None => r,
            }
        }
    }
}

/// Read an annotation file's text (see `annotation_file`).
pub fn annotation_lines(text: &str) -> (r: Vec<AnnotationLine>)
    ensures
        r@.map_values(|a: AnnotationLine| a.model()) == annotation_file(lines_seq(text@)),
{
    let ls = lines_chars(&chars_of(text));
    let ghost lv = seqs(ls@);
    let mut r: Vec<AnnotationLine> = Vec::new();
    let mut i: usize = 0;
    while i < ls.len()
        invariant
            i <= ls@.len(),
            lv == seqs(ls@),
            lv == lines_seq(text@),
            r@.map_values(|a: AnnotationLine| a.model()) == annotation_file(lv.take(i as int)),
        decreases ls@.len() - i,
    {
        assert(lv.take(i + 1).drop_last() =~= lv.take(i as int));
        assert(lv.take(i + 1).last() == ls@[i as int]@);
        let l = trim_chars(&ls[i]);
        if l.len() > 0 && l[0] != '#' {
            let ghost before = r@.map_values(|a: AnnotationLine| a.model());
            match parse_annotation_line(string_of(l.as_slice()).as_str()) {
                Some(a) => {
                    r.push(a);
                    assert(r@.map_values(|a: AnnotationLine| a.model()) =~= before.push(
                        r@.last().model(),
                    ));
                },
                None => {},
            }
        }
        i = i + 1;
    }
    assert(lv.take(i as int) =~= lv);
    r
}

/// The fields of a note's line, its coordinates given as text.
pub open spec fn annotation_fields(a: MapAnnotation, x: Seq<char>, y: Seq<char>, z: Seq<char>) -> Seq<
    Seq<char>,
> {
    seq![
        dec_seq(a.id as nat),
        a.text@,
        x,
        y,
        z,
        dec_seq(a.color@[0] as nat),
        dec_seq(a.color@[1] as nat),
        dec_seq(a.color@[2] as nat),
        dec_seq(a.size as nat),
    ]
}

/// A note's line: its fields joined by `;`.
pub open spec fn annotation_text(a: MapAnnotation, x: Seq<char>, y: Seq<char>, z: Seq<char>) -> Seq<
    char,
> {
    joined(annotation_fields(a, x, y, z), ';')
}

/// Write a note's line (see `annotation_text`).
pub fn annotation_file_line(a: &MapAnnotation, x: &str, y: &str, z: &str) -> (s: String)
    ensures
        s@ == annotation_text(*a, x@, y@, z@),
{
    let mut fs: Vec<Vec<char>> = Vec::new();
    fs.push(dec_chars(a.id as u64));
    fs.push(chars_of(a.text.as_str()));
    fs.push(chars_of(x));
    fs.push(chars_of(y));
    fs.push(chars_of(z));
    fs.push(dec_chars(a.color[0] as u64));
    fs.push(dec_chars(a.color[1] as u64));
    fs.push(dec_chars(a.color[2] as u64));
    fs.push(dec_chars(a.size as u64));
    assert(seqs(fs@) =~= annotation_fields(*a, x@, y@, z@));
    string_of(join_chars(&fs, ';').as_slice())
}

/// A number's decimal text reads back as the number through a bounded
/// field, holds no `;`, and starts and ends with a non-space.
proof fn lemma_number_field(n: nat)
    ensures
        crate::text::parse_nat(dec_seq(n)) == Some(n),
        !dec_seq(n).contains(';'),
        dec_seq(n).len() > 0,
        !ws(dec_seq(n)[0]),
        !ws(dec_seq(n).last()),
{
    lemma_parse_nat_dec(n);
    crate::text::lemma_dec_digits(n);
    assert(crate::text::is_digit(dec_seq(n)[0]));
    assert(crate::text::is_digit(dec_seq(n)[dec_seq(n).len() - 1]));
}

/// A note written as a line reads back as itself: id, text, coordinates,
/// colour and size come back unchanged, and trimming leaves the line as it
/// is.  This holds when neither the text nor a coordinate holds `;`.
pub proof fn law_annotation_line_round_trip(
    a: MapAnnotation,
    x: Seq<char>,
    y: Seq<char>,
    z: Seq<char>,
)
    requires
        !a.text@.contains(';'),
        !x.contains(';'),
        !y.contains(';'),
        !z.contains(';'),
    ensures
        trim(annotation_text(a, x, y, z)) == annotation_text(a, x, y, z),
        annotation_model(annotation_text(a, x, y, z)) == Some(
            AnnotationModel { id: a.id, text: a.text@, x, y, z, color: a.color@, size: a.size },
        ),
{
    let fs = annotation_fields(a, x, y, z);
    let text = annotation_text(a, x, y, z);
    lemma_number_field(a.id as nat);
    lemma_number_field(a.color@[0] as nat);
    lemma_number_field(a.color@[1] as nat);
    lemma_number_field(a.color@[2] as nat);
    lemma_number_field(a.size as nat);
    assert forall|i: int| 0 <= i < fs.len() implies !(#[trigger] fs[i]).contains(';') by {
        if i == 0 {
        } else if i <= 4 {
        } else {
        }
    }
    lemma_splitn_joined(fs, 9, ';');
    assert(splitn_seq(text, 9, ';') == fs);
    assert(u32_field(fs[0]) == Some(a.id));
    assert(u8_field(fs[5]) == Some(a.color@[0]));
    assert(u8_field(fs[6]) == Some(a.color@[1]));
    assert(u8_field(fs[7]) == Some(a.color@[2]));
    assert(u8_field(fs[8]) == Some(a.size));
    assert(seq![a.color@[0], a.color@[1], a.color@[2]] =~= a.color@);
    lemma_joined_front(fs, ';');
    assert(text[0] == fs[0][0]);
    assert(text.last() == fs[8].last());
    assert(trim_start(text) == text);
    assert(trim_end(text) == text);
}

} // verus!

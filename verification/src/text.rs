//! Character-level text helpers shared by the configuration, filter and
//! game-data parsers.  Everything works on `Vec<char>` whose view is the
//! `Seq<char>` of a Rust string, so that the parsers can be stated over
//! sequences of characters.
use vstd::prelude::*;

verus! {

// ---------------------------------------------------------------------------
// Conversions between `str`/`String` and character vectors
// ---------------------------------------------------------------------------

/// The characters of `s`, in order.
pub fn chars_of(s: &str) -> (v: Vec<char>)
    ensures
        v@ == s@,
{
    let mut v: Vec<char> = Vec::new();
    for c in it: s.chars()
        invariant
            v@ == it.seq().take(it.index() as int),
    {
        v.push(c);
    }
    v
}

/// `String::from_iter` over a slice of characters: the string whose
/// characters are exactly `v`, in order (std documents that collecting
/// characters appends each of them).
#[verifier::external_body]
pub fn string_of(v: &[char]) -> (s: String)
    ensures
        s@ == v@,
{
    String::from_iter(v.iter())
}

// ---------------------------------------------------------------------------
// Whitespace and case (std's Unicode-aware predicates)
// ---------------------------------------------------------------------------

/// The six ASCII characters that Unicode classes as `White_Space`.
pub open spec fn is_ascii_space(c: char) -> bool {
    c == ' ' || c == '\t' || c == '\n' || c == '\x0B' || c == '\x0C' || c == '\r'
}

/// Result of `char::is_whitespace` (Unicode `White_Space` property).
pub uninterp spec fn unicode_whitespace(c: char) -> bool;

/// `char::is_whitespace`.  std documents it as the Unicode `White_Space`
/// property; among ASCII characters exactly tab, line feed, vertical tab,
/// form feed, carriage return and space have it.
#[verifier::external_body]
pub fn is_whitespace(c: char) -> (b: bool)
    ensures
        b == unicode_whitespace(c),
        (c as u32) < 128 ==> (b == is_ascii_space(c)),
{
    c.is_whitespace()
}

/// A whitespace character in the sense of `str::trim`: for ASCII the six
/// characters above, beyond it the Unicode property.
pub open spec fn ws(c: char) -> bool {
    if (c as u32) < 128 {
        is_ascii_space(c)
    } else {
        unicode_whitespace(c)
    }
}

pub open spec fn ascii_lower(c: char) -> char {
    if 'A' <= c && c <= 'Z' {
        ((c as u32) + 32) as char
    } else {
        c
    }
}

pub open spec fn ascii_lower_seq(s: Seq<char>) -> Seq<char> {
    s.map_values(|c: char| ascii_lower(c))
}

pub open spec fn all_ascii(s: Seq<char>) -> bool {
    forall|i: int| 0 <= i < s.len() ==> (#[trigger] s[i] as u32) < 128
}

/// Result of `str::to_lowercase` (full Unicode case mapping).
pub uninterp spec fn unicode_lowercase(s: Seq<char>) -> Seq<char>;

/// `str::to_lowercase`.  std documents the Unicode `Lowercase` mapping,
/// which on ASCII text maps `A`–`Z` to `a`–`z` and leaves every other
/// character unchanged.
#[verifier::external_body]
pub fn to_lowercase(s: &str) -> (r: String)
    ensures
        r@ == unicode_lowercase(s@),
        all_ascii(s@) ==> r@ == ascii_lower_seq(s@),
{
    s.to_lowercase()
}

pub open spec fn ascii_upper(c: char) -> char {
    if 'a' <= c && c <= 'z' {
        ((c as u32) - 32) as char
    } else {
        c
    }
}

/// Result of `str::to_uppercase` (full Unicode case mapping).
pub uninterp spec fn unicode_upper(s: Seq<char>) -> Seq<char>;

/// `str::to_uppercase`.  std documents the Unicode `Uppercase` mapping,
/// which on ASCII text maps `a`–`z` to `A`–`Z` and leaves every other
/// character unchanged.
#[verifier::external_body]
pub fn to_uppercase(s: &str) -> (r: String)
    ensures
        r@ == unicode_upper(s@),
        all_ascii(s@) ==> r@ == s@.map_values(|c: char| ascii_upper(c)),
{
    s.to_uppercase()
}

/// The lowercase of a character vector, through `str::to_lowercase`.
pub fn lower_chars(v: &Vec<char>) -> (r: Vec<char>)
    ensures
        r@ == unicode_lowercase(v@),
        all_ascii(v@) ==> r@ == ascii_lower_seq(v@),
{
    let s = string_of(v.as_slice());
    let l = to_lowercase(s.as_str());
    chars_of(l.as_str())
}

/// `char::to_ascii_lowercase`.
pub fn ascii_lower_char(c: char) -> (r: char)
    ensures
        r == ascii_lower(c),
{
    if 'A' <= c && c <= 'Z' {
        let u: u32 = (c as u32) + 32;
        assert(u == (c as u32) + 32);
        let r = char_from_ascii(u);
        r
    } else {
        c
    }
}

/// `<[u8]>::to_ascii_lowercase` on characters.
pub fn ascii_lower_chars(v: &Vec<char>) -> (r: Vec<char>)
    ensures
        r@ == ascii_lower_seq(v@),
{
    let mut r: Vec<char> = Vec::new();
    let mut i: usize = 0;
    while i < v.len()
        invariant
            i <= v@.len(),
            r@ == ascii_lower_seq(v@.take(i as int)),
        decreases v@.len() - i,
    {
        r.push(ascii_lower_char(v[i]));
        assert(r@ =~= ascii_lower_seq(v@.take(i + 1)));
        i = i + 1;
    }
    assert(v@.take(i as int) =~= v@);
    r
}

/// The character of an ASCII code point.
fn char_from_ascii(u: u32) -> (c: char)
    requires
        u < 128,
    ensures
        c == u as char,
        c as u32 == u,
{
    let b: u8 = u as u8;
    b as char
}

// ---------------------------------------------------------------------------
// Trimming
// ---------------------------------------------------------------------------

pub open spec fn trim_start(s: Seq<char>) -> Seq<char>
    decreases s.len(),
{
    if s.len() > 0 && ws(s[0]) {
        trim_start(s.drop_first())
    } else {
        s
    }
}

pub open spec fn trim_end(s: Seq<char>) -> Seq<char>
    decreases s.len(),
{
    if s.len() > 0 && ws(s.last()) {
        trim_end(s.drop_last())
    } else {
        s
    }
}

/// `str::trim`: leading and trailing whitespace removed.
pub open spec fn trim(s: Seq<char>) -> Seq<char> {
    trim_end(trim_start(s))
}

pub proof fn lemma_trim_start_skip(s: Seq<char>, i: int)
    requires
        0 <= i <= s.len(),
        forall|j: int| 0 <= j < i ==> ws(#[trigger] s[j]),
    ensures
        trim_start(s) == trim_start(s.skip(i)),
    decreases i,
{
    if i > 0 {
        assert(s.drop_first().skip(i - 1) =~= s.skip(i));
        lemma_trim_start_skip(s.drop_first(), i - 1);
    } else {
        assert(s.skip(0) =~= s);
    }
}

pub proof fn lemma_trim_end_take(s: Seq<char>, i: int)
    requires
        0 <= i <= s.len(),
        forall|j: int| i <= j < s.len() ==> ws(#[trigger] s[j]),
    ensures
        trim_end(s) == trim_end(s.take(i)),
    decreases s.len() - i,
{
    if i < s.len() {
        assert(s.drop_last().take(i) =~= s.take(i));
        lemma_trim_end_take(s.drop_last(), i);
    } else {
        assert(s.take(i) =~= s);
    }
}

/// The characters `v[from..to]`.
pub fn sub_chars(v: &Vec<char>, from: usize, to: usize) -> (r: Vec<char>)
    requires
        from <= to <= v.len(),
    ensures
        r@ == v@.subrange(from as int, to as int),
{
    let mut r: Vec<char> = Vec::new();
    let mut i = from;
    while i < to
        invariant
            from <= i <= to <= v.len(),
            r@ == v@.subrange(from as int, i as int),
        decreases to - i,
    {
        r.push(v[i]);
        i = i + 1;
    }
    r
}

/// `str::trim` on a character vector.
pub fn trim_chars(v: &Vec<char>) -> (r: Vec<char>)
    ensures
        r@ == trim(v@),
{
    let mut a: usize = 0;
    while a < v.len() && is_whitespace(v[a])
        invariant
            a <= v.len(),
            forall|j: int| 0 <= j < a ==> ws(#[trigger] v@[j]),
        decreases v.len() - a,
    {
        a = a + 1;
    }
    proof {
        lemma_trim_start_skip(v@, a as int);
    }
    let ghost t = v@.skip(a as int);
    assert(trim_start(v@) == t) by {
        if a < v.len() {
            assert(t[0] == v@[a as int]);
        }
    }
    let mut b: usize = v.len();
    while b > a && is_whitespace(v[b - 1])
        invariant
            a <= b <= v.len(),
            forall|j: int| b <= j < v.len() ==> ws(#[trigger] v@[j]),
        decreases b,
    {
        b = b - 1;
    }
    proof {
        let k = b - a;
        assert forall|j: int| k <= j < t.len() implies ws(#[trigger] t[j]) by {
            assert(t[j] == v@[j + a]);
        }
        lemma_trim_end_take(t, k as int);
        let u = t.take(k as int);
        assert(u =~= v@.subrange(a as int, b as int));
        if k > 0 {
            assert(u.last() == v@[b - 1]);
        }
    }
    sub_chars(v, a, b)
}

/// `str::trim_end` on a character vector.
pub fn trim_end_chars(v: &Vec<char>) -> (r: Vec<char>)
    ensures
        r@ == trim_end(v@),
{
    let mut b: usize = v.len();
    while b > 0 && is_whitespace(v[b - 1])
        invariant
            b <= v.len(),
            forall|j: int| b <= j < v.len() ==> ws(#[trigger] v@[j]),
        decreases b,
    {
        b = b - 1;
    }
    proof {
        lemma_trim_end_take(v@, b as int);
        if b > 0 {
            assert(v@.take(b as int).last() == v@[b - 1]);
        }
        assert(v@.take(b as int) =~= v@.subrange(0, b as int));
    }
    sub_chars(v, 0, b)
}

// ---------------------------------------------------------------------------
// Prefixes, searching and equality
// ---------------------------------------------------------------------------

pub open spec fn has_prefix(s: Seq<char>, p: Seq<char>) -> bool {
    p.len() <= s.len() && s.take(p.len() as int) == p
}

/// `str::starts_with` with a string pattern.
pub fn starts_with(v: &Vec<char>, p: &Vec<char>) -> (b: bool)
    ensures
        b == has_prefix(v@, p@),
{
    if p.len() > v.len() {
        return false;
    }
    let mut i: usize = 0;
    while i < p.len()
        invariant
            p.len() <= v.len(),
            i <= p.len(),
            forall|j: int| 0 <= j < i ==> v@[j] == p@[j],
        decreases p.len() - i,
    {
        if v[i] != p[i] {
            assert(v@.take(p.len() as int)[i as int] != p@[i as int]);
            return false;
        }
        i = i + 1;
    }
    assert(v@.take(p.len() as int) =~= p@);
    true
}

/// `p` occurs in `s` starting at position `i`.
pub open spec fn occurs_at(s: Seq<char>, p: Seq<char>, i: int) -> bool {
    0 <= i && i + p.len() <= s.len() && s.subrange(i, i + p.len()) == p
}

/// `str::contains` with a string pattern.
pub open spec fn contains_seq(s: Seq<char>, p: Seq<char>) -> bool {
    exists|i: int| occurs_at(s, p, i)
}

fn occurs_at_exec(v: &Vec<char>, p: &Vec<char>, i: usize) -> (b: bool)
    requires
        i + p.len() <= v.len(),
    ensures
        b == occurs_at(v@, p@, i as int),
{
    let mut j: usize = 0;
    while j < p.len()
        invariant
            i + p.len() <= v.len(),
            j <= p.len(),
            forall|k: int| 0 <= k < j ==> v@[i + k] == p@[k],
        decreases p.len() - j,
    {
        if v[i + j] != p[j] {
            assert(v@.subrange(i as int, i + p.len())[j as int] != p@[j as int]);
            return false;
        }
        j = j + 1;
    }
    assert(v@.subrange(i as int, i + p.len()) =~= p@);
    true
}

/// Substring test.
pub fn contains_chars(v: &Vec<char>, p: &Vec<char>) -> (b: bool)
    ensures
        b == contains_seq(v@, p@),
{
    if p.len() > v.len() {
        return false;
    }
    let mut i: usize = 0;
    let last = v.len() - p.len();
    loop
        invariant
            p.len() <= v.len(),
            last == v.len() - p.len(),
            i <= last,
            forall|k: int| 0 <= k < i ==> !occurs_at(v@, p@, k),
        decreases last - i,
    {
        if occurs_at_exec(v, p, i) {
            return true;
        }
        if i == last {
            return false;
        }
        i = i + 1;
    }
}

/// The character `c` occurs in `v`.
pub fn contains_char(v: &Vec<char>, c: char) -> (b: bool)
    ensures
        b == v@.contains(c),
{
    let mut i: usize = 0;
    while i < v.len()
        invariant
            i <= v.len(),
            forall|k: int| 0 <= k < i ==> v@[k] != c,
        decreases v.len() - i,
    {
        if v[i] == c {
            return true;
        }
        i = i + 1;
    }
    false
}

/// Equality of two character vectors.
pub fn chars_eq(a: &Vec<char>, b: &Vec<char>) -> (r: bool)
    ensures
        r == (a@ == b@),
{
    if a.len() != b.len() {
        return false;
    }
    let mut i: usize = 0;
    while i < a.len()
        invariant
            a.len() == b.len(),
            i <= a.len(),
            forall|k: int| 0 <= k < i ==> a@[k] == b@[k],
        decreases a.len() - i,
    {
        if a[i] != b[i] {
            return false;
        }
        i = i + 1;
    }
    assert(a@ =~= b@);
    true
}

/// `str::eq_ignore_ascii_case`.
pub fn eq_ignore_ascii_case(a: &Vec<char>, b: &Vec<char>) -> (r: bool)
    ensures
        r == (ascii_lower_seq(a@) == ascii_lower_seq(b@)),
{
    if a.len() != b.len() {
        assert(ascii_lower_seq(a@).len() != ascii_lower_seq(b@).len());
        return false;
    }
    let mut i: usize = 0;
    while i < a.len()
        invariant
            a.len() == b.len(),
            i <= a.len(),
            forall|k: int| 0 <= k < i ==> ascii_lower(a@[k]) == ascii_lower(b@[k]),
        decreases a.len() - i,
    {
        if ascii_lower_char(a[i]) != ascii_lower_char(b[i]) {
            assert(ascii_lower_seq(a@)[i as int] != ascii_lower_seq(b@)[i as int]);
            return false;
        }
        i = i + 1;
    }
    assert(ascii_lower_seq(a@) =~= ascii_lower_seq(b@));
    true
}


/// Append the characters of `src` to `dst`.
pub fn push_all(dst: &mut Vec<char>, src: &Vec<char>)
    ensures
        final(dst)@ == old(dst)@ + src@,
{
    let ghost d0 = dst@;
    let mut i: usize = 0;
    while i < src.len()
        invariant
            i <= src.len(),
            dst@ == d0 + src@.take(i as int),
        decreases src.len() - i,
    {
        dst.push(src[i]);
        i = i + 1;
        assert(src@.take(i as int) =~= src@.take(i - 1).push(src@[i - 1]));
    }
    assert(src@.take(src.len() as int) =~= src@);
}

// ---------------------------------------------------------------------------
// Splitting
// ---------------------------------------------------------------------------

/// The character sequences held by a vector of character vectors.
pub open spec fn seqs(v: Seq<Vec<char>>) -> Seq<Seq<char>> {
    v.map_values(|x: Vec<char>| x@)
}

/// `str::split` with a character separator: the pieces between occurrences
/// of `c` (there is always at least one piece).
pub open spec fn split_seq(s: Seq<char>, c: char) -> Seq<Seq<char>>
    decreases s.len(),
{
    if s.len() == 0 {
        seq![Seq::<char>::empty()]
    } else {
        let p = split_seq(s.drop_last(), c);
        if s.last() == c {
            p.push(Seq::<char>::empty())
        } else {
            p.update(p.len() - 1, p.last().push(s.last()))
        }
    }
}

pub proof fn lemma_split_nonempty(s: Seq<char>, c: char)
    ensures
        split_seq(s, c).len() >= 1,
    decreases s.len(),
{
    if s.len() > 0 {
        lemma_split_nonempty(s.drop_last(), c);
    }
}

/// `str::split(c)` collected into character vectors.
pub fn split_chars(v: &Vec<char>, c: char) -> (r: Vec<Vec<char>>)
    ensures
        seqs(r@) == split_seq(v@, c),
        r.len() >= 1,
{
    let mut done: Vec<Vec<char>> = Vec::new();
    let mut cur: Vec<char> = Vec::new();
    let mut i: usize = 0;
    assert(v@.take(0) =~= Seq::<char>::empty());
    assert(seqs(done@).push(cur@) =~= seq![Seq::<char>::empty()]);
    while i < v.len()
        invariant
            i <= v.len(),
            seqs(done@).push(cur@) == split_seq(v@.take(i as int), c),
        decreases v.len() - i,
    {
        let ghost before = seqs(done@);
        let ghost pre = v@.take(i as int);
        proof {
            assert(v@.take(i + 1).drop_last() =~= pre);
            lemma_split_nonempty(pre, c);
        }
        if v[i] == c {
            done.push(cur);
            cur = Vec::new();
            assert(seqs(done@) =~= before.push(split_seq(pre, c).last()));
            assert(seqs(done@).push(cur@) =~= split_seq(pre, c).push(Seq::<char>::empty()));
        } else {
            cur.push(v[i]);
            assert(seqs(done@).push(cur@) =~= split_seq(pre, c).update(
                split_seq(pre, c).len() - 1,
                split_seq(pre, c).last().push(v@[i as int]),
            ));
        }
        i = i + 1;
    }
    assert(v@.take(v.len() as int) =~= v@);
    let ghost before = seqs(done@);
    done.push(cur);
    assert(seqs(done@) =~= before.push(cur@));
    done
}

/// Index of the first occurrence of `c` in `s`, or -1.
pub open spec fn find_char(s: Seq<char>, c: char) -> int
    decreases s.len(),
{
    if s.len() == 0 {
        -1
    } else if s[0] == c {
        0
    } else {
        let r = find_char(s.drop_first(), c);
        if r < 0 {
            -1
        } else {
            r + 1
        }
    }
}

pub proof fn lemma_find_char(s: Seq<char>, c: char)
    ensures
        -1 <= find_char(s, c) < s.len(),
        find_char(s, c) >= 0 ==> s[find_char(s, c)] == c,
        forall|j: int| 0 <= j < s.len() && (find_char(s, c) < 0 || j < find_char(s, c)) ==> s[j]
            != c,
    decreases s.len(),
{
    if s.len() > 0 && s[0] != c {
        lemma_find_char(s.drop_first(), c);
        assert forall|j: int|
            0 <= j < s.len() && (find_char(s, c) < 0 || j < find_char(s, c)) implies s[j] != c by {
            if j > 0 {
                assert(s[j] == s.drop_first()[j - 1]);
            }
        }
    }
}

/// The first occurrence is determined by its two defining properties.
pub proof fn lemma_find_char_is(s: Seq<char>, c: char, r: int)
    requires
        -1 <= r < s.len(),
        r >= 0 ==> s[r] == c,
        forall|j: int| 0 <= j < s.len() && (r < 0 || j < r) ==> s[j] != c,
    ensures
        find_char(s, c) == r,
{
    lemma_find_char(s, c);
    let f = find_char(s, c);
    if f >= 0 && r >= 0 {
        assert(!(f < r));
        assert(!(r < f));
    }
}

/// Position of the first `c` in `v[from..]`.
pub fn find_char_from(v: &Vec<char>, c: char, from: usize) -> (r: Option<usize>)
    requires
        from <= v.len(),
    ensures
        match r {
            Some(j) => from <= j < v.len() && find_char(v@.skip(from as int), c) == j - from,
            None => find_char(v@.skip(from as int), c) == -1,
        },
{
    let mut j = from;
    while j < v.len()
        invariant
            from <= j <= v.len(),
            forall|k: int| from <= k < j ==> v@[k] != c,
        decreases v.len() - j,
    {
        if v[j] == c {
            proof {
                let t = v@.skip(from as int);
                assert forall|k: int| 0 <= k < t.len() && k < j - from implies t[k] != c by {
                    assert(t[k] == v@[k + from]);
                }
                lemma_find_char_is(t, c, j - from);
            }
            return Some(j);
        }
        j = j + 1;
    }
    proof {
        let t = v@.skip(from as int);
        assert forall|k: int| 0 <= k < t.len() implies t[k] != c by {
            assert(t[k] == v@[k + from]);
        }
        lemma_find_char_is(t, c, -1);
    }
    None
}

/// `str::splitn(n, c)`: at most `n` pieces, the last holding the rest.
pub open spec fn splitn_seq(s: Seq<char>, n: nat, c: char) -> Seq<Seq<char>>
    decreases n,
{
    if n == 0 {
        Seq::<Seq<char>>::empty()
    } else if n == 1 || find_char(s, c) < 0 {
        seq![s]
    } else {
        let i = find_char(s, c);
        seq![s.take(i)] + splitn_seq(s.skip(i + 1), (n - 1) as nat, c)
    }
}

/// `str::splitn(n, c)` collected into character vectors.
pub fn splitn_chars(v: &Vec<char>, n: usize, c: char) -> (r: Vec<Vec<char>>)
    ensures
        seqs(r@) == splitn_seq(v@, n as nat, c),
{
    let mut out: Vec<Vec<char>> = Vec::new();
    if n == 0 {
        assert(seqs(out@) =~= Seq::<Seq<char>>::empty());
        return out;
    }
    let mut start: usize = 0;
    let mut k: usize = n;
    assert(v@.skip(0) =~= v@);
    assert(seqs(out@) + splitn_seq(v@.skip(0), k as nat, c) =~= splitn_seq(v@, n as nat, c));
    let mut exhausted = false;
    while k > 1 && !exhausted
        invariant
            start <= v.len(),
            1 <= k <= n,
            exhausted ==> find_char(v@.skip(start as int), c) == -1,
            seqs(out@) + splitn_seq(v@.skip(start as int), k as nat, c) == splitn_seq(
                v@,
                n as nat,
                c,
            ),
        decreases k, (if exhausted { 0int } else { 1int }),
    {
        match find_char_from(v, c, start) {
            None => {
                exhausted = true;
            },
            Some(j) => {
                let ghost t = v@.skip(start as int);
                let ghost before = seqs(out@);
                let piece = sub_chars(v, start, j);
                out.push(piece);
                proof {
                    assert(piece@ =~= t.take(j - start));
                    assert(t.skip(j - start + 1) =~= v@.skip(j + 1));
                    assert(seqs(out@) =~= before.push(t.take(j - start)));
                    assert(splitn_seq(t, k as nat, c) =~= seq![t.take(j - start)] + splitn_seq(
                        v@.skip(j + 1),
                        (k - 1) as nat,
                        c,
                    ));
                    assert(seqs(out@) + splitn_seq(v@.skip(j + 1), (k - 1) as nat, c)
                        =~= before + splitn_seq(t, k as nat, c));
                }
                start = j + 1;
                k = k - 1;
            },
        }
    }
    let ghost before = seqs(out@);
    let rest = sub_chars(v, start, v.len());
    out.push(rest);
    proof {
        let t = v@.skip(start as int);
        assert(rest@ =~= t);
        assert(splitn_seq(t, k as nat, c) =~= seq![t]);
        assert(seqs(out@) =~= before + seq![t]);
    }
    out
}

/// A trailing carriage return removed.
pub open spec fn strip_cr(s: Seq<char>) -> Seq<char> {
    if s.len() > 0 && s.last() == '\r' {
        s.drop_last()
    } else {
        s
    }
}

/// `str::lines`: pieces between line feeds, each ended piece losing one
/// trailing carriage return, and no piece after a final line feed.
pub open spec fn lines_seq(s: Seq<char>) -> Seq<Seq<char>> {
    let p = split_seq(s, '\n');
    let body = p.drop_last().map_values(|l: Seq<char>| strip_cr(l));
    if p.last().len() == 0 {
        body
    } else {
        body.push(p.last())
    }
}

/// `str::lines` collected into character vectors.
pub fn lines_chars(v: &Vec<char>) -> (r: Vec<Vec<char>>)
    ensures
        seqs(r@) == lines_seq(v@),
{
    let parts = split_chars(v, '\n');
    let ghost p = seqs(parts@);
    let mut out: Vec<Vec<char>> = Vec::new();
    let last = parts.len() - 1;
    let mut i: usize = 0;
    while i < last
        invariant
            last == parts.len() - 1,
            seqs(parts@) == p,
            i <= last,
            seqs(out@) == p.drop_last().take(i as int).map_values(
                |l: Seq<char>| strip_cr(l),
            ),
        decreases last - i,
    {
        let piece = &parts[i];
        assert(piece@ == p[i as int]);
        let ghost before = seqs(out@);
        let stripped = if piece.len() > 0 && piece[piece.len() - 1] == '\r' {
            sub_chars(piece, 0, piece.len() - 1)
        } else {
            sub_chars(piece, 0, piece.len())
        };
        assert(stripped@ =~= strip_cr(p[i as int]));
        out.push(stripped);
        assert(seqs(out@) =~= before.push(strip_cr(p[i as int])));
        i = i + 1;
        assert(p.drop_last().take(i as int).map_values(|l: Seq<char>| strip_cr(l)) =~= p.drop_last().take(
            i - 1,
        ).map_values(|l: Seq<char>| strip_cr(l)).push(strip_cr(p[i - 1])));
    }
    assert(p.drop_last().take(last as int) =~= p.drop_last());
    let lastp = &parts[last];
    assert(lastp@ == p.last());
    if lastp.len() > 0 {
        let ghost before = seqs(out@);
        let copy = sub_chars(lastp, 0, lastp.len());
        assert(copy@ =~= p.last());
        out.push(copy);
        assert(seqs(out@) =~= before.push(p.last()));
    }
    out
}

// ---------------------------------------------------------------------------
// Decimal numbers
// ---------------------------------------------------------------------------

pub open spec fn is_digit(c: char) -> bool {
    '0' <= c && c <= '9'
}

pub open spec fn digit_val(c: char) -> nat {
    ((c as u32) - ('0' as u32)) as nat
}

pub open spec fn all_digits(s: Seq<char>) -> bool {
    forall|i: int| 0 <= i < s.len() ==> is_digit(#[trigger] s[i])
}

/// Value of a string of decimal digits.
pub open spec fn digits_value(s: Seq<char>) -> nat
    decreases s.len(),
{
    if s.len() == 0 {
        0
    } else {
        digits_value(s.drop_last()) * 10 + digit_val(s.last())
    }
}

/// What `FromStr` for an unsigned integer accepts: an optional `+`, then
/// one or more decimal digits (range checked separately).
pub open spec fn parse_nat(s: Seq<char>) -> Option<nat> {
    let b = if s.len() > 0 && s[0] == '+' {
        s.drop_first()
    } else {
        s
    };
    if b.len() > 0 && all_digits(b) {
        Some(digits_value(b))
    } else {
        None
    }
}

/// What `FromStr` for a signed integer accepts: an optional `+` or `-`,
/// then one or more decimal digits (range checked separately).
pub open spec fn parse_int(s: Seq<char>) -> Option<int> {
    if s.len() > 0 && s[0] == '-' {
        let b = s.drop_first();
        if b.len() > 0 && all_digits(b) {
            Some(-(digits_value(b) as int))
        } else {
            None
        }
    } else {
        match parse_nat(s) {
            Some(n) => Some(n as int),
            None => None,
        }
    }
}

/// Parsing into an unsigned type whose largest value is `max`.
pub open spec fn parse_nat_upto(s: Seq<char>, max: nat) -> Option<nat> {
    match parse_nat(s) {
        Some(n) => if n <= max {
            Some(n)
        } else {
            None
        },
        None => None,
    }
}

fn digits_upto(v: &Vec<char>, from: usize, max: u64) -> (r: Option<u64>)
    requires
        from <= v.len(),
    ensures
        ({
            let b = v@.skip(from as int);
            r == (if b.len() > 0 && all_digits(b) && digits_value(b) <= max {
                Some(digits_value(b) as u64)
            } else {
                None::<u64>
            })
        }),
{
    let ghost b = v@.skip(from as int);
    if from == v.len() {
        return None;
    }
    let mut acc: u64 = 0;
    let mut over = false;
    let mut i = from;
    assert(b.take(0) =~= Seq::<char>::empty());
    while i < v.len()
        invariant
            from <= i <= v.len(),
            b == v@.skip(from as int),
            all_digits(b.take(i - from)),
            !over ==> acc == digits_value(b.take(i - from)),
            over ==> digits_value(b.take(i - from)) > max,
            acc <= max,
        decreases v.len() - i,
    {
        let c = v[i];
        if !('0' <= c && c <= '9') {
            assert(b[i - from] == c);
            return None;
        }
        let d: u64 = ((c as u32) - ('0' as u32)) as u64;
        let ghost pre = b.take(i - from);
        proof {
            assert(b.take(i - from + 1).drop_last() =~= pre);
            assert(b.take(i - from + 1).last() == c);
        }
        if !over {
            if d > max || acc > (max - d) / 10 {
                over = true;
                assert(acc * 10 + d > max) by (nonlinear_arith)
                    requires
                        d > max || acc > (max - d) / 10,
                        d <= 9,
                ;
            } else {
                assert(acc * 10 + d <= max) by (nonlinear_arith)
                    requires
                        acc <= (max - d) / 10,
                        d <= max,
                ;
                acc = acc * 10 + d;
            }
        }
        i = i + 1;
        assert(all_digits(b.take(i - from))) by {
            assert forall|k: int| 0 <= k < i - from implies is_digit(#[trigger] b.take(i - from)[k]) by {
                if k < i - from - 1 {
                    assert(b.take(i - from)[k] == pre[k]);
                }
            }
        }
    }
    assert(b.take(v.len() - from) =~= b);
    if over {
        None
    } else {
        Some(acc)
    }
}

/// Parse an unsigned decimal number no larger than `max`, as `FromStr` does
/// for the unsigned type whose largest value is `max`.
pub fn parse_u64_upto(v: &Vec<char>, max: u64) -> (r: Option<u64>)
    ensures
        r == (match parse_nat_upto(v@, max as nat) {
            Some(n) => Some(n as u64),
            None => None::<u64>,
        }),
{
    let from: usize = if v.len() > 0 && v[0] == '+' {
        1
    } else {
        0
    };
    proof {
        if from == 1 {
            assert(v@.skip(1) =~= v@.drop_first());
        } else {
            assert(v@.skip(0) =~= v@);
        }
    }
    digits_upto(v, from, max)
}

/// Parse a signed decimal number as `FromStr` for `i64` does.
pub fn parse_i64(v: &Vec<char>) -> (r: Option<i64>)
    ensures
        r == (match parse_int(v@) {
            Some(n) => if i64::MIN <= n <= i64::MAX {
                Some(n as i64)
            } else {
                None::<i64>
            },
            None => None::<i64>,
        }),
{
    if v.len() > 0 && v[0] == '-' {
        assert(v@.skip(1) =~= v@.drop_first());
        match digits_upto(v, 1, 0x8000_0000_0000_0000u64) {
            None => None,
            Some(m) => {
                if m == 0x8000_0000_0000_0000u64 {
                    Some(i64::MIN)
                } else {
                    let x: i64 = m as i64;
                    Some(-x)
                }
            },
        }
    } else {
        match parse_u64_upto(v, 0x7fff_ffff_ffff_ffffu64) {
            None => {
                proof {
                    match parse_nat(v@) {
                        Some(n) => {},
                        None => {},
                    }
                }
                None
            },
            Some(m) => Some(m as i64),
        }
    }
}

/// The decimal digit character for `d < 10`.
pub open spec fn digit_char(d: nat) -> char {
    (('0' as u32) + d) as char
}

/// Decimal representation of `n` without leading zeros.
pub open spec fn dec_seq(n: nat) -> Seq<char>
    decreases n,
{
    if n < 10 {
        seq![digit_char(n)]
    } else {
        dec_seq(n / 10).push(digit_char(n % 10))
    }
}

fn digit_char_exec(d: u64) -> (c: char)
    requires
        d < 10,
    ensures
        c == digit_char(d as nat),
{
    let u: u32 = ('0' as u32) + (d as u32);
    char_from_ascii(u)
}

/// `u64` formatted with `{}`.
pub fn dec_chars(n: u64) -> (r: Vec<char>)
    ensures
        r@ == dec_seq(n as nat),
    decreases n,
{
    if n < 10 {
        let mut r: Vec<char> = Vec::new();
        r.push(digit_char_exec(n));
        assert(r@ =~= seq![digit_char(n as nat)]);
        r
    } else {
        let mut r = dec_chars(n / 10);
        r.push(digit_char_exec(n % 10));
        r
    }
}

/// `s` padded on the left with `c` to at least `width` characters.
pub open spec fn pad_left(s: Seq<char>, width: nat, c: char) -> Seq<char> {
    if s.len() >= width {
        s
    } else {
        Seq::new((width - s.len()) as nat, |i: int| c) + s
    }
}

/// A number formatted with `{:0w$}` (zero padded to `width`).
pub fn dec_chars_padded(n: u64, width: usize) -> (r: Vec<char>)
    ensures
        r@ == pad_left(dec_seq(n as nat), width as nat, '0'),
{
    let d = dec_chars(n);
    pad_chars(&d, width, '0')
}

/// A number formatted with `{:w$}` (space padded to `width`).
pub fn dec_chars_spaced(n: u64, width: usize) -> (r: Vec<char>)
    ensures
        r@ == pad_left(dec_seq(n as nat), width as nat, ' '),
{
    let d = dec_chars(n);
    pad_chars(&d, width, ' ')
}

/// `d` right-aligned in `width` columns filled with `c`.
pub fn pad_chars(d: &Vec<char>, width: usize, c: char) -> (r: Vec<char>)
    ensures
        r@ == pad_left(d@, width as nat, c),
{
    let mut r: Vec<char> = Vec::new();
    if d.len() >= width {
        push_all(&mut r, d);
        assert(r@ =~= d@);
        return r;
    }
    let k = width - d.len();
    let mut i: usize = 0;
    while i < k
        invariant
            i <= k,
            r@ == Seq::new(i as nat, |j: int| c),
        decreases k - i,
    {
        r.push(c);
        i = i + 1;
        assert(r@ =~= Seq::new(i as nat, |j: int| c));
    }
    push_all(&mut r, d);
    r
}

/// An `i64` formatted with `{}`.
pub open spec fn int_dec_seq(n: int) -> Seq<char> {
    if n < 0 {
        seq!['-'] + dec_seq((-n) as nat)
    } else {
        dec_seq(n as nat)
    }
}

pub fn int_dec_chars(n: i64) -> (r: Vec<char>)
    ensures
        r@ == int_dec_seq(n as int),
{
    if n < 0 {
        let m: u64 = if n == i64::MIN {
            0x8000_0000_0000_0000u64
        } else {
            (-n) as u64
        };
        let mut r: Vec<char> = Vec::new();
        r.push('-');
        let d = dec_chars(m);
        push_all(&mut r, &d);
        r
    } else {
        dec_chars(n as u64)
    }
}

/// A number's decimal text is digits whose value is the number.
pub proof fn lemma_dec_digits(n: nat)
    ensures
        dec_seq(n).len() > 0,
        all_digits(dec_seq(n)),
        digits_value(dec_seq(n)) == n,
    decreases n,
{
    if n < 10 {
        assert(digit_val(digit_char(n)) == n);
        assert(dec_seq(n).drop_last() =~= Seq::<char>::empty());
        assert(digits_value(Seq::<char>::empty()) == 0);
    } else {
        lemma_dec_digits(n / 10);
        let d = n % 10;
        assert(digit_val(digit_char(d)) == d);
        assert(dec_seq(n).drop_last() =~= dec_seq(n / 10));
        assert((n / 10) * 10 + n % 10 == n) by (nonlinear_arith);
    }
}

/// An integer's decimal text reads back as the integer.
pub proof fn lemma_parse_int_dec(n: int)
    ensures
        parse_int(int_dec_seq(n)) == Some(n),
        !int_dec_seq(n).contains(';'),
        !int_dec_seq(n).contains(','),
{
    if n < 0 {
        lemma_dec_digits((-n) as nat);
        assert(int_dec_seq(n).drop_first() =~= dec_seq((-n) as nat));
    } else {
        lemma_dec_digits(n as nat);
        assert(is_digit(dec_seq(n as nat)[0]));
    }
    let s = int_dec_seq(n);
    assert forall|i: int| 0 <= i < s.len() implies s[i] != ';' && s[i] != ',' by {
        if n < 0 {
            if i > 0 {
                assert(s[i] == dec_seq((-n) as nat)[i - 1]);
                assert(is_digit(dec_seq((-n) as nat)[i - 1]));
            }
        } else {
            assert(is_digit(dec_seq(n as nat)[i]));
        }
    }
}

/// A count's decimal text reads back as the count.
pub proof fn lemma_parse_nat_dec(n: nat)
    ensures
        parse_nat(dec_seq(n)) == Some(n),
        !dec_seq(n).contains(';'),
{
    lemma_dec_digits(n);
    assert(is_digit(dec_seq(n)[0]));
    assert forall|i: int| 0 <= i < dec_seq(n).len() implies dec_seq(n)[i] != ';' by {
        assert(is_digit(dec_seq(n)[i]));
    }
}

/// The lowercase hexadecimal digit for `d < 16`.
pub open spec fn hex_char(d: nat, upper: bool) -> char {
    if d < 10 {
        digit_char(d)
    } else if upper {
        (('A' as u32) + (d - 10)) as char
    } else {
        (('a' as u32) + (d - 10)) as char
    }
}

/// Hexadecimal representation (`{:x}` or `{:X}`) of `n`.
pub open spec fn hex_seq(n: nat, upper: bool) -> Seq<char>
    decreases n,
{
    if n < 16 {
        seq![hex_char(n, upper)]
    } else {
        hex_seq(n / 16, upper).push(hex_char(n % 16, upper))
    }
}

fn hex_char_exec(d: u64, upper: bool) -> (c: char)
    requires
        d < 16,
    ensures
        c == hex_char(d as nat, upper),
{
    if d < 10 {
        digit_char_exec(d)
    } else if upper {
        char_from_ascii(('A' as u32) + ((d - 10) as u32))
    } else {
        char_from_ascii(('a' as u32) + ((d - 10) as u32))
    }
}

/// `u64` formatted with `{:x}` (or `{:X}` when `upper`).
pub fn hex_chars(n: u64, upper: bool) -> (r: Vec<char>)
    ensures
        r@ == hex_seq(n as nat, upper),
    decreases n,
{
    if n < 16 {
        let mut r: Vec<char> = Vec::new();
        r.push(hex_char_exec(n, upper));
        assert(r@ =~= seq![hex_char(n as nat, upper)]);
        r
    } else {
        let mut r = hex_chars(n / 16, upper);
        r.push(hex_char_exec(n % 16, upper));
        r
    }
}

// ---------------------------------------------------------------------------
// Bytes to text
// ---------------------------------------------------------------------------

/// Result of `String::from_utf8_lossy` on a byte sequence.
pub uninterp spec fn utf8_lossy(b: Seq<u8>) -> Seq<char>;

pub open spec fn ascii_bytes(b: Seq<u8>) -> bool {
    forall|i: int| 0 <= i < b.len() ==> #[trigger] b[i] < 128
}

/// Each byte read as the character with that code point.
pub open spec fn latin_chars(b: Seq<u8>) -> Seq<char> {
    b.map_values(|x: u8| x as char)
}

/// `String::from_utf8_lossy(..).into_owned()`.  std documents that valid
/// UTF-8 is decoded unchanged; ASCII bytes are valid UTF-8 and decode to the
/// characters with the same code points.
#[verifier::external_body]
pub fn from_utf8_lossy(b: &[u8]) -> (s: String)
    ensures
        s@ == utf8_lossy(b@),
        ascii_bytes(b@) ==> s@ == latin_chars(b@),
{
    String::from_utf8_lossy(b).into_owned()
}

// ---------------------------------------------------------------------------
// Joining pieces with a separator
// ---------------------------------------------------------------------------

/// Pieces joined with a separator between each two.
pub open spec fn joined(fs: Seq<Seq<char>>, sep: char) -> Seq<char>
    decreases fs.len(),
{
    if fs.len() == 0 {
        Seq::empty()
    } else if fs.len() == 1 {
        fs[0]
    } else {
        joined(fs.drop_last(), sep) + seq![sep] + fs.last()
    }
}

pub fn join_chars(fs: &Vec<Vec<char>>, sep: char) -> (v: Vec<char>)
    ensures
        v@ == joined(seqs(fs@), sep),
{
    let ghost ns = seqs(fs@);
    let mut v: Vec<char> = Vec::new();
    let mut i: usize = 0;
    while i < fs.len()
        invariant
            i <= ns.len(),
            ns == seqs(fs@),
            v@ == joined(ns.take(i as int), sep),
        decreases ns.len() - i,
    {
        assert(ns[i as int] == fs@[i as int]@);
        if i > 0 {
            v.push(sep);
        }
        push_all(&mut v, &fs[i]);
        proof {
            assert(ns.take(i + 1).drop_last() =~= ns.take(i as int));
            if i == 0 {
                assert(ns.take(1) =~= seq![ns[0]]);
            }
        }
        assert(v@ =~= joined(ns.take(i + 1), sep));
        i = i + 1;
    }
    assert(ns.take(i as int) =~= ns);
    v
}

/// `joined` read from the front: the first piece, the separator, the rest.
pub proof fn lemma_joined_front(fs: Seq<Seq<char>>, sep: char)
    requires
        fs.len() >= 2,
    ensures
        joined(fs, sep) == fs[0] + seq![sep] + joined(fs.drop_first(), sep),
    decreases fs.len(),
{
    if fs.len() == 2 {
        assert(fs.drop_last() =~= seq![fs[0]]);
        assert(fs.drop_first() =~= seq![fs[1]]);
        assert(joined(fs.drop_last(), sep) == fs[0]);
        assert(joined(fs.drop_first(), sep) == fs[1]);
    } else {
        lemma_joined_front(fs.drop_last(), sep);
        assert(fs.drop_last().drop_first() =~= fs.drop_first().drop_last());
        assert(fs.drop_first().last() == fs.last());
        assert(joined(fs, sep) =~= fs[0] + seq![sep] + joined(fs.drop_first(), sep));
    }
}

/// A character in no piece and not the separator is not in the joined text.
pub proof fn lemma_joined_free(fs: Seq<Seq<char>>, sep: char, c: char)
    requires
        c != sep,
        forall|i: int| 0 <= i < fs.len() ==> !(#[trigger] fs[i]).contains(c),
    ensures
        !joined(fs, sep).contains(c),
    decreases fs.len(),
{
    if fs.len() >= 2 {
        lemma_joined_free(fs.drop_last(), sep, c);
        let a = joined(fs.drop_last(), sep);
        let l = fs.last();
        assert(!l.contains(c));
        let j = joined(fs, sep);
        assert forall|i: int| 0 <= i < j.len() implies j[i] != c by {
            if i < a.len() {
                assert(j[i] == a[i]);
            } else if i > a.len() {
                assert(j[i] == l[i - a.len() - 1]);
            }
        }
    } else if fs.len() == 1 {
        assert(!fs[0].contains(c));
    }
}

/// Splitting joined pieces, none holding the separator, into at least as
/// many parts gives the pieces back.
pub proof fn lemma_splitn_joined(fs: Seq<Seq<char>>, n: nat, sep: char)
    requires
        fs.len() >= 1,
        n >= fs.len(),
        forall|i: int|
            0 <= i < fs.len() && (i + 1 < fs.len() || n > fs.len()) ==> !(
            #[trigger] fs[i]).contains(sep),
    ensures
        splitn_seq(joined(fs, sep), n, sep) == fs,
    decreases fs.len(),
{
    let s = joined(fs, sep);
    if fs.len() == 1 {
        if n > 1 {
            assert(!fs[0].contains(sep));
            lemma_find_char(s, sep);
            if find_char(s, sep) >= 0 {
                assert(s[find_char(s, sep)] == sep);
            }
        }
        assert(seq![s] =~= fs);
    } else {
        lemma_joined_front(fs, sep);
        let f = fs[0];
        let rest = joined(fs.drop_first(), sep);
        assert(!f.contains(sep));
        assert(s[f.len() as int] == sep);
        assert forall|j: int| 0 <= j < s.len() && j < f.len() implies s[j] != sep by {
            assert(s[j] == f[j]);
        }
        lemma_find_char_is(s, sep, f.len() as int);
        assert(s.take(f.len() as int) =~= f);
        assert(s.skip(f.len() as int + 1) =~= rest);
        assert forall|i: int|
            0 <= i < fs.drop_first().len() && (i + 1 < fs.drop_first().len() || n - 1
                > fs.drop_first().len()) implies !(#[trigger] fs.drop_first()[i]).contains(sep) by {
            assert(fs.drop_first()[i] == fs[i + 1]);
        }
        lemma_splitn_joined(fs.drop_first(), (n - 1) as nat, sep);
        assert(seq![f] + fs.drop_first() =~= fs);
    }
}

/// Splitting `p` followed by text without the separator extends the last
/// piece of `p`'s split.
pub proof fn lemma_split_plain(p: Seq<char>, q: Seq<char>, c: char)
    requires
        !q.contains(c),
    ensures
        split_seq(p + q, c) == split_seq(p, c).update(
            split_seq(p, c).len() - 1,
            split_seq(p, c).last() + q,
        ),
    decreases q.len(),
{
    lemma_split_nonempty(p, c);
    let sp = split_seq(p, c);
    if q.len() == 0 {
        assert(p + q =~= p);
        assert(sp.last() + q =~= sp.last());
        assert(sp.update(sp.len() - 1, sp.last() + q) =~= sp);
    } else {
        let q1 = q.drop_last();
        assert(!q1.contains(c)) by {
            assert forall|i: int| 0 <= i < q1.len() implies q1[i] != c by {
                assert(q1[i] == q[i]);
            }
        }
        lemma_split_plain(p, q1, c);
        let t = p + q;
        assert(t.drop_last() =~= p + q1);
        assert(t.last() == q.last());
        assert(q.last() != c);
        let x = split_seq(p + q1, c);
        assert((sp.last() + q1).push(q.last()) =~= sp.last() + q);
        assert(x.update(x.len() - 1, x.last().push(q.last())) =~= sp.update(
            sp.len() - 1,
            sp.last() + q,
        ));
    }
}

/// Splitting joined pieces, none holding the separator, gives them back.
pub proof fn lemma_split_joined(fs: Seq<Seq<char>>, c: char)
    requires
        fs.len() >= 1,
        forall|i: int| 0 <= i < fs.len() ==> !(#[trigger] fs[i]).contains(c),
    ensures
        split_seq(joined(fs, c), c) == fs,
    decreases fs.len(),
{
    if fs.len() == 1 {
        assert(!fs[0].contains(c));
        lemma_split_plain(Seq::<char>::empty(), fs[0], c);
        assert(Seq::<char>::empty() + fs[0] =~= fs[0]);
        assert(split_seq(Seq::<char>::empty(), c) == seq![Seq::<char>::empty()]);
        assert(seq![Seq::<char>::empty()].update(0, Seq::<char>::empty() + fs[0]) =~= fs);
    } else {
        let a = joined(fs.drop_last(), c);
        let l = fs.last();
        assert(!l.contains(c));
        assert forall|i: int| 0 <= i < fs.drop_last().len() implies !(
        #[trigger] fs.drop_last()[i]).contains(c) by {
            assert(fs.drop_last()[i] == fs[i]);
        }
        lemma_split_joined(fs.drop_last(), c);
        let ap = a.push(c);
        assert(ap.drop_last() =~= a);
        assert(split_seq(ap, c) == split_seq(a, c).push(Seq::<char>::empty()));
        lemma_split_plain(ap, l, c);
        assert(joined(fs, c) =~= ap + l);
        assert(Seq::<char>::empty() + l =~= l);
        assert(fs.drop_last().push(Seq::<char>::empty()).update(fs.len() - 1, Seq::<char>::empty() + l)
            =~= fs);
    }
}

} // verus!

//! The offset wizard's phases and results, and the searches it runs over
//! raw structure bytes read from the game.
use vstd::prelude::*;
use crate::bytes::{nul_index_from, nul_pos};
use vstd::string::StringSliceAdditionalSpecFns;
use crate::text::{contains_chars, contains_seq, string_of};
use crate::server_logic::{read_u64_at, u64_or_zero};

verus! {

/// The wizard's phases, in the order it walks them.
#[derive(Clone, Copy, PartialEq, Eq, Debug)]
pub enum WizardPhase {
    Idle,
    ScanningExe,
    Attaching,
    EnterName,
    Static,
    StandStill,
    Walking,
    Stopped,
    Turning,
    WaitInvis,
    WaitPet,
    WaitItem,
    Verify,
    Complete,
    Cancelled,
    Failed,
}

/// The text shown to the user in each phase.
pub open spec fn instruction_text(p: WizardPhase) -> Seq<char> {
    match p {
        WizardPhase::Idle => "Click 'Start Wizard' to begin."@,
        WizardPhase::ScanningExe => "Scanning eqgame.exe — please wait..."@,
        WizardPhase::Attaching => "Attaching to eqgame.exe — please wait..."@,
        WizardPhase::EnterName => "Enter your character name below, then click 'Confirm Name' (or Skip to use heuristic)."@,
        WizardPhase::Static => "Reading spawn struct..."@,
        WizardPhase::StandStill => "Stand completely still for a moment..."@,
        WizardPhase::Walking => "Walk around continuously for a few seconds..."@,
        WizardPhase::Stopped => "Stop moving completely..."@,
        WizardPhase::Turning => "Turn in place (do not move forward or backward)..."@,
        WizardPhase::WaitInvis => "Cast invisibility, then click 'I cast invis'."@,
        WizardPhase::WaitPet => "Summon a pet or hire a mercenary, then click 'I have a pet'."@,
        WizardPhase::WaitItem => "Drop any item on the ground, then click 'Item dropped'."@,
        WizardPhase::Verify => "Confirm the values below look correct, then click 'Accept & Write to INI'."@,
        WizardPhase::Complete => "Discovery complete. Review results and click 'Write to INI'."@,
        WizardPhase::Cancelled => "Cancelled."@,
        WizardPhase::Failed => "Wizard failed — see log for details."@,
    }
}

impl WizardPhase {
    /// What the user is asked to do in this phase.
    pub fn instruction(&self) -> (r: &'static str)
        ensures
            r@ == instruction_text(*self),
    {
        match self {
            WizardPhase::Idle => "Click 'Start Wizard' to begin.",
            WizardPhase::ScanningExe => "Scanning eqgame.exe — please wait...",
            WizardPhase::Attaching => "Attaching to eqgame.exe — please wait...",
            WizardPhase::EnterName => "Enter your character name below, then click 'Confirm Name' (or Skip to use heuristic).",
            WizardPhase::Static => "Reading spawn struct...",
            WizardPhase::StandStill => "Stand completely still for a moment...",
            WizardPhase::Walking => "Walk around continuously for a few seconds...",
            WizardPhase::Stopped => "Stop moving completely...",
            WizardPhase::Turning => "Turn in place (do not move forward or backward)...",
            WizardPhase::WaitInvis => "Cast invisibility, then click 'I cast invis'.",
            WizardPhase::WaitPet => "Summon a pet or hire a mercenary, then click 'I have a pet'.",
            WizardPhase::WaitItem => "Drop any item on the ground, then click 'Item dropped'.",
            WizardPhase::Verify => "Confirm the values below look correct, then click 'Accept & Write to INI'.",
            WizardPhase::Complete => "Discovery complete. Review results and click 'Write to INI'.",
            WizardPhase::Cancelled => "Cancelled.",
            WizardPhase::Failed => "Wizard failed — see log for details.",
        }
    }
}

/// A command from the user to the running wizard.
#[derive(Clone, Copy, PartialEq, Eq, Debug)]
pub enum WizardCommand {
    /// No command pending.
    NoCommand,
    /// The user did what the phase asked (cast invis, got a pet, dropped an item).
    ActionDone,
    SkipStep,
    Cancel,
}

/// The structure offsets the wizard discovered; `None` where it found none.
#[derive(Clone, Copy, PartialEq, Eq, Debug)]
pub struct WizardResults {
    pub name: Option<usize>,
    pub last_name: Option<usize>,
    pub next: Option<usize>,
    pub prev: Option<usize>,
    pub x: Option<usize>,
    pub y: Option<usize>,
    pub z: Option<usize>,
    pub heading: Option<usize>,
    pub speed: Option<usize>,
    pub hidden: Option<usize>,
    pub owner: Option<usize>,
    pub item_prev: Option<usize>,
    pub item_next: Option<usize>,
    pub item_id: Option<usize>,
    pub item_drop_id: Option<usize>,
    pub item_x: Option<usize>,
    pub item_y: Option<usize>,
    pub item_z: Option<usize>,
    pub item_name: Option<usize>,
    /// The user confirmed the character name the name offsets rest on.
    pub name_confirmed: bool,
}

/// Nothing discovered.
pub open spec fn no_results() -> WizardResults {
    WizardResults {
        name: None,
        last_name: None,
        next: None,
        prev: None,
        x: None,
        y: None,
        z: None,
        heading: None,
        speed: None,
        hidden: None,
        owner: None,
        item_prev: None,
        item_next: None,
        item_id: None,
        item_drop_id: None,
        item_x: None,
        item_y: None,
        item_z: None,
        item_name: None,
        name_confirmed: false,
    }
}

impl Default for WizardResults {
    fn default() -> (r: Self)
        ensures
            r == no_results(),
    {
        WizardResults {
            name: None,
            last_name: None,
            next: None,
            prev: None,
            x: None,
            y: None,
            z: None,
            heading: None,
            speed: None,
            hidden: None,
            owner: None,
            item_prev: None,
            item_next: None,
            item_id: None,
            item_drop_id: None,
            item_x: None,
            item_y: None,
            item_z: None,
            item_name: None,
            name_confirmed: false,
        }
    }
}

/// Bytes that may appear in a character name: ASCII letters, `'`, space, `-`.
pub open spec fn name_byte(b: u8) -> bool {
    (65 <= b <= 90) || (97 <= b <= 122) || b == 39 || b == 32 || b == 45
}

pub fn is_name_char(b: u8) -> (r: bool)
    ensures
        r == name_byte(b),
{
    (b >= 65 && b <= 90) || (b >= 97 && b <= 122) || b == 39 || b == 32 || b == 45
}

/// Does `name`, followed by a NUL, stand at offset `p` of `buf`?
pub open spec fn name_at(buf: Seq<u8>, name: Seq<u8>, p: int) -> bool {
    0 <= p && p + name.len() < buf.len() && buf.subrange(p, p + name.len()) == name && buf[p
        + name.len()] == 0
}

/// The first offset where `name` stands NUL-terminated in `buf`; `None`
/// for an empty name or where it stands nowhere.
pub fn find_name_by_value(buf: &[u8], name: &str) -> (r: Option<usize>)
    ensures
        r matches Some(p) ==> name.spec_bytes().len() > 0 && name_at(buf@, name.spec_bytes(), p as int) && forall|q: int|
            0 <= q < p ==> !name_at(buf@, name.spec_bytes(), q),
        r is None ==> name.spec_bytes().len() == 0 || forall|q: int| 0 <= q ==> !name_at(buf@, name.spec_bytes(), q),
{
    let needle = name.as_bytes();
    let n = needle.len();
    if n == 0 {
        return None;
    }
    if buf.len() <= n {
        return None;
    }
    let mut p: usize = 0;
    while p < buf.len() - n
        invariant
            n == needle@.len(),
            needle@ == name.spec_bytes(),
            n > 0,
            buf@.len() > n,
            p <= buf@.len() - n,
            forall|q: int| 0 <= q < p ==> !name_at(buf@, needle@, q),
        decreases buf@.len() - n - p,
    {
        if buf[p + n] == 0 {
            let mut k: usize = 0;
            while k < n
                invariant
                    k <= n,
                    n == needle@.len(),
                    p + n < buf.len(),
                    forall|j: int| 0 <= j < k ==> buf@[p + j] == needle@[j],
                ensures
                    k <= n,
                    forall|j: int| 0 <= j < k ==> buf@[p + j] == needle@[j],
                    k < n ==> buf@[p + k] != needle@[k as int],
                decreases n - k,
            {
                if buf[p + k] != needle[k] {
                    break;
                }
                k = k + 1;
            }
            if k == n {
                assert(buf@.subrange(p as int, p + n) =~= needle@);
                return Some(p);
            }
            assert(buf@.subrange(p as int, p + n)[k as int] != needle@[k as int]);
        }
        p = p + 1;
    }
    assert forall|q: int| 0 <= q implies !name_at(buf@, needle@, q) by {
        if q >= p {
            assert(q + n >= buf@.len());
        }
    }
    None
}

/// Offsets where the byte went from `from_val` in `prev` to `to_val` in
/// `curr`, ascending, over the length the two share.
pub open spec fn flips(prev: Seq<u8>, curr: Seq<u8>, from_val: u8, to_val: u8, n: int) -> Seq<usize>
    decreases n,
{
    if n <= 0 {
        Seq::empty()
    } else {
        let r = flips(prev, curr, from_val, to_val, n - 1);
        if prev[n - 1] == from_val && curr[n - 1] == to_val {
            r.push((n - 1) as usize)
        } else {
            r
        }
    }
}

pub fn find_byte_flip(prev: &[u8], curr: &[u8], from_val: u8, to_val: u8) -> (r: Vec<usize>)
    ensures
        r@ == flips(
            prev@,
            curr@,
            from_val,
            to_val,
            if prev@.len() < curr@.len() {
                prev@.len() as int
            } else {
                curr@.len() as int
            },
        ),
{
    let n = if prev.len() < curr.len() {
        prev.len()
    } else {
        curr.len()
    };
    let mut r: Vec<usize> = Vec::new();
    let mut i: usize = 0;
    while i < n
        invariant
            i <= n,
            n <= prev@.len(),
            n <= curr@.len(),
            r@ == flips(prev@, curr@, from_val, to_val, i as int),
        decreases n - i,
    {
        if prev[i] == from_val && curr[i] == to_val {
            r.push(i);
        }
        i = i + 1;
    }
    r
}

/// Are the `count` offsets from `i` on each `step` apart?
pub open spec fn run_at(offsets: Seq<usize>, i: int, count: int, step: int) -> bool {
    forall|j: int| i <= j && j + 1 < i + count ==> #[trigger] offsets[j + 1] == offsets[j] + step
}

/// The first run of `count` offsets, each `step` after the one before;
/// empty where there is none.
pub fn find_consecutive_cluster(offsets: &[usize], count: usize, step: usize) -> (r: Vec<usize>)
    ensures
        r@.len() > 0 ==> exists|i: int|
            0 <= i && i + count <= offsets@.len() && run_at(offsets@, i, count as int, step as int)
                && r@ == offsets@.subrange(i, i + count) && forall|q: int|
                0 <= q < i ==> !run_at(offsets@, q, count as int, step as int),
        r@.len() == 0 ==> count == 0 || forall|i: int|
            0 <= i && i + count <= offsets@.len() ==> !run_at(offsets@, i, count as int, step as int),
{
    if count == 0 || offsets.len() < count {
        return Vec::new();
    }
    let mut i: usize = 0;
    while i <= offsets.len() - count
        invariant
            0 < count <= offsets@.len(),
            i <= offsets@.len() - count + 1,
            forall|q: int| 0 <= q < i ==> !run_at(offsets@, q, count as int, step as int),
        decreases offsets@.len() - count + 1 - i,
    {
        let mut j: usize = i;
        let mut ok = true;
        while j < i + count - 1
            invariant
                0 < count,
                i <= j <= i + count - 1,
                i + count <= offsets.len(),
                ok ==> forall|q: int| i <= q < j ==> #[trigger] offsets@[q + 1] == offsets@[q] + step,
                !ok ==> !run_at(offsets@, i as int, count as int, step as int),
            decreases i + count - j,
        {
            if ok {
                let next_ok = offsets[j] <= usize::MAX - step && offsets[j + 1] == offsets[j] + step;
                if !next_ok {
                    assert(offsets@[j + 1] != offsets@[j as int] + step);
                    ok = false;
                }
            }
            j = j + 1;
        }
        if ok {
            assert(run_at(offsets@, i as int, count as int, step as int));
            let mut r: Vec<usize> = Vec::new();
            let mut k: usize = i;
            while k < i + count
                invariant
                    i <= k <= i + count,
                    i + count <= offsets.len(),
                    r@ == offsets@.subrange(i as int, k as int),
                decreases i + count - k,
            {
                r.push(offsets[k]);
                assert(r@ =~= offsets@.subrange(i as int, k + 1));
                k = k + 1;
            }
            return r;
        }
        i = i + 1;
    }
    Vec::new()
}

/// ASCII letters and digits.
pub open spec fn alnum(b: u8) -> bool {
    (48 <= b <= 57) || (65 <= b <= 90) || (97 <= b <= 122)
}

/// Distance from `i` to the first NUL of `buf` at or after `i`; 0 when
/// there is none.
pub open spec fn nul_dist(buf: Seq<u8>, i: int) -> int {
    let k = nul_pos(buf.skip(i));
    if i + k < buf.len() {
        k
    } else {
        0
    }
}

/// A ground item's name: `I`, `T`, a letter or digit, and a NUL 4 to 64
/// bytes on.
pub open spec fn item_name_at(buf: Seq<u8>, i: int) -> bool {
    &&& 0 <= i && i + 4 < buf.len()
    &&& buf[i] == 73 && buf[i + 1] == 84 && alnum(buf[i + 2])
    &&& 4 <= nul_dist(buf, i) <= 64
}

/// The first offset from `i` on where an item name stands.
pub open spec fn item_name_from(buf: Seq<u8>, i: int) -> Option<usize>
    decreases buf.len() - i,
{
    if i < 0 || i + 4 >= buf.len() {
        None
    } else if item_name_at(buf, i) {
        Some(i as usize)
    } else {
        item_name_from(buf, i + 1)
    }
}

/// The first offset where an item name stands.
pub open spec fn find_item_name(buf: Seq<u8>) -> Option<usize> {
    item_name_from(buf, 0)
}

/// The first offset where a ground item's name stands (see `item_name_at`).
pub fn find_item_name_offset(buf: &[u8]) -> (r: Option<usize>)
    ensures
        r == find_item_name(buf@),
        r matches Some(i) ==> item_name_at(buf@, i as int) && forall|q: int|
            0 <= q < i ==> !item_name_at(buf@, q),
        r is None ==> forall|q: int| 0 <= q ==> !item_name_at(buf@, q),
{
    if buf.len() <= 4 {
        return None;
    }
    let mut i: usize = 0;
    while i < buf.len() - 4
        invariant
            buf@.len() > 4,
            i <= buf@.len() - 4,
            forall|q: int| 0 <= q < i ==> !item_name_at(buf@, q),
            find_item_name(buf@) == item_name_from(buf@, i as int),
        decreases buf@.len() - 4 - i,
    {
        if buf[i] == 73 && buf[i + 1] == 84 && is_alnum(buf[i + 2]) {
            let k = nul_index_from(buf, i);
            let end: usize = if i + k < buf.len() {
                k
            } else {
                0
            };
            if end >= 4 && end <= 64 {
                return Some(i);
            }
        }
        i = i + 1;
    }
    None
}

fn is_alnum(b: u8) -> (r: bool)
    ensures
        r == alnum(b),
{
    (b >= 48 && b <= 57) || (b >= 65 && b <= 90) || (b >= 97 && b <= 122)
}


// ---------------------------------------------------------------------------
// Character names in a spawn structure
// ---------------------------------------------------------------------------

/// The end of the run of name bytes starting at `i`.
pub open spec fn run_end(buf: Seq<u8>, i: int) -> int
    decreases buf.len() - i,
{
    if i >= buf.len() || !name_byte(buf[i]) {
        i
    } else {
        run_end(buf, i + 1)
    }
}

/// Bytes as characters (Latin-1; name bytes are ASCII).
pub open spec fn byte_chars(b: Seq<u8>) -> Seq<char> {
    b.map_values(|x: u8| x as char)
}

/// Is the run `[i, e)` a name: 3 to 30 bytes, NUL right after, first
/// byte an uppercase letter?
pub open spec fn name_run(buf: Seq<u8>, i: int, e: int) -> bool {
    3 <= e - i <= 30 && e < buf.len() && buf[e] == 0 && 65 <= buf[i] <= 90
}

/// The names from offset `i` on, in order: each maximal run of name bytes
/// that is a name.
pub open spec fn name_cands(buf: Seq<u8>, i: int) -> Seq<(usize, Seq<char>)>
    decreases buf.len() - i, 1int,
{
    if i < 0 || i >= buf.len() {
        Seq::empty()
    } else if !name_byte(buf[i]) {
        name_cands(buf, i + 1)
    } else {
        let e = run_end(buf, i);
        if e <= i || e > buf.len() {
            Seq::empty()
        } else {
            let rest = name_cands(buf, e);
            if name_run(buf, i, e) {
                seq![(i as usize, byte_chars(buf.subrange(i, e)))] + rest
            } else {
                rest
            }
        }
    }
}

/// Longer names first, then lower offsets.
pub open spec fn cand_before(a: (usize, Seq<char>), b: (usize, Seq<char>)) -> bool {
    a.1.len() > b.1.len() || (a.1.len() == b.1.len() && a.0 < b.0)
}

/// Where `x` goes in `t`: before the first entry it comes before.
pub open spec fn cand_slot(t: Seq<(usize, Seq<char>)>, x: (usize, Seq<char>)) -> int
    decreases t.len(),
{
    if t.len() == 0 {
        0
    } else if cand_before(x, t[0]) {
        0
    } else {
        1 + cand_slot(t.drop_first(), x)
    }
}

/// Insertion sort by `cand_before`.
pub open spec fn sort_cands(s: Seq<(usize, Seq<char>)>) -> Seq<(usize, Seq<char>)>
    decreases s.len(),
{
    if s.len() == 0 {
        s
    } else {
        let t = sort_cands(s.drop_last());
        t.insert(cand_slot(t, s.last()), s.last())
    }
}

/// Keep a name unless it is part of one already kept; at most four.
pub open spec fn keep_cands(s: Seq<(usize, Seq<char>)>) -> Seq<(usize, Seq<char>)>
    decreases s.len(),
{
    if s.len() == 0 {
        s
    } else {
        let k = keep_cands(s.drop_last());
        if k.len() >= 4 || exists|j: int| 0 <= j < k.len() && contains_seq(#[trigger] k[j].1, s.last().1) {
            k
        } else {
            k.push(s.last())
        }
    }
}

proof fn lemma_run_end(buf: Seq<u8>, i: int)
    requires
        0 <= i <= buf.len(),
    ensures
        i <= run_end(buf, i) <= buf.len(),
        forall|j: int| i <= j < run_end(buf, i) ==> name_byte(buf[j]),
        run_end(buf, i) < buf.len() ==> !name_byte(buf[run_end(buf, i)]),
    decreases buf.len() - i,
{
    if i < buf.len() && name_byte(buf[i]) {
        lemma_run_end(buf, i + 1);
    }
}

proof fn lemma_name_cands_skip(buf: Seq<u8>, i: int, j: int)
    requires
        0 <= i <= j <= buf.len(),
        forall|q: int| i <= q < j ==> !name_byte(buf[q]),
    ensures
        name_cands(buf, i) == name_cands(buf, j),
    decreases j - i,
{
    if i < j {
        lemma_name_cands_skip(buf, i + 1, j);
    }
}

/// Name-like strings in a structure (see `name_cands`), longest first,
/// then by offset, with names inside an earlier one dropped, at most four.
pub fn find_name_candidates(buf: &[u8]) -> (r: Vec<(usize, String)>)
    ensures
        r@.map_values(|p: (usize, String)| (p.0, p.1@)) == keep_cands(sort_cands(name_cands(buf@, 0))),
{
    let ghost b = buf@;
    // Scan.
    let mut found: Vec<(usize, Vec<char>)> = Vec::new();
    let mut i: usize = 0;
    while i < buf.len()
        invariant
            i <= b.len(),
            b == buf@,
            found@.map_values(|p: (usize, Vec<char>)| (p.0, p.1@)) + name_cands(b, i as int)
                == name_cands(b, 0),
        decreases b.len() - i,
    {
        let ghost fm = found@.map_values(|p: (usize, Vec<char>)| (p.0, p.1@));
        if !is_name_char(buf[i]) {
            i = i + 1;
        } else {
            let start = i;
            while i < buf.len() && is_name_char(buf[i])
                invariant
                    start <= i <= b.len(),
                    b == buf@,
                    run_end(b, start as int) == run_end(b, i as int),
                decreases b.len() - i,
            {
                i = i + 1;
            }
            proof {
                lemma_run_end(b, start as int);
            }
            let len = i - start;
            if len >= 3 && len <= 30 && i < buf.len() && buf[i] == 0 && buf[start] >= 65 && buf[start] <= 90 {
                let mut s: Vec<char> = Vec::new();
                let mut k: usize = start;
                while k < i
                    invariant
                        start <= k <= i <= b.len(),
                        b == buf@,
                        s@ == byte_chars(b.subrange(start as int, k as int)),
                    decreases i - k,
                {
                    s.push(buf[k] as char);
                    assert(s@ =~= byte_chars(b.subrange(start as int, k + 1)));
                    k = k + 1;
                }
                found.push((start, s));
                assert(found@.map_values(|p: (usize, Vec<char>)| (p.0, p.1@)) =~= fm.push(
                    (start, byte_chars(b.subrange(start as int, i as int))),
                ));
            } else {
                assert(found@.map_values(|p: (usize, Vec<char>)| (p.0, p.1@)) =~= fm);
            }
        }
    }
    let ghost cands = name_cands(b, 0);
    assert(found@.map_values(|p: (usize, Vec<char>)| (p.0, p.1@)) =~= cands);
    // Sort.
    let mut sorted: Vec<(usize, Vec<char>)> = Vec::new();
    let mut j: usize = 0;
    while j < found.len()
        invariant
            j <= found@.len(),
            cands == found@.map_values(|p: (usize, Vec<char>)| (p.0, p.1@)),
            sorted@.map_values(|p: (usize, Vec<char>)| (p.0, p.1@)) == sort_cands(cands.take(j as int)),
        decreases found@.len() - j,
    {
        let ghost t = sorted@.map_values(|p: (usize, Vec<char>)| (p.0, p.1@));
        let x = (found[j].0, found[j].1.clone());
        let ghost xm = (x.0, x.1@);
        assert(cands[j as int] == xm);
        let mut k: usize = 0;
        assert(t.skip(0) =~= t);
        while k < sorted.len() && !(x.1.len() > sorted[k].1.len() || (x.1.len() == sorted[k].1.len() && x.0 < sorted[k].0))
            invariant
                k <= t.len(),
                t == sorted@.map_values(|p: (usize, Vec<char>)| (p.0, p.1@)),
                xm == (x.0, x.1@),
                cand_slot(t, xm) == k + cand_slot(t.skip(k as int), xm),
            decreases t.len() - k,
        {
            assert(t.skip(k as int)[0] == t[k as int]);
            assert(t.skip(k as int).drop_first() =~= t.skip(k + 1));
            k = k + 1;
        }
        if k < sorted.len() {
            assert(t.skip(k as int)[0] == t[k as int]);
        }
        sorted.insert(k, x);
        assert(cands.take(j + 1).drop_last() =~= cands.take(j as int));
        assert(sorted@.map_values(|p: (usize, Vec<char>)| (p.0, p.1@)) =~= t.insert(k as int, xm));
        j = j + 1;
    }
    assert(cands.take(j as int) =~= cands);
    let ghost sc = sort_cands(cands);
    // Keep.
    let mut kept: Vec<(usize, Vec<char>)> = Vec::new();
    let mut m: usize = 0;
    while m < sorted.len()
        invariant
            m <= sc.len(),
            sc == sorted@.map_values(|p: (usize, Vec<char>)| (p.0, p.1@)),
            kept@.map_values(|p: (usize, Vec<char>)| (p.0, p.1@)) == keep_cands(sc.take(m as int)),
            kept@.len() <= 4,
        decreases sc.len() - m,
    {
        let ghost km = kept@.map_values(|p: (usize, Vec<char>)| (p.0, p.1@));
        assert(sc.take(m + 1).drop_last() =~= sc.take(m as int));
        assert(sc[m as int] == (sorted@[m as int].0, sorted@[m as int].1@));
        if kept.len() < 4 {
            let mut inside = false;
            let mut q: usize = 0;
            while q < kept.len()
                invariant
                    q <= km.len(),
                    m < sc.len(),
                    sc == sorted@.map_values(|p: (usize, Vec<char>)| (p.0, p.1@)),
                    km == kept@.map_values(|p: (usize, Vec<char>)| (p.0, p.1@)),
                    !inside ==> forall|z: int| 0 <= z < q ==> !contains_seq(#[trigger] km[z].1, sc[m as int].1),
                    inside ==> exists|z: int| 0 <= z < km.len() && contains_seq(#[trigger] km[z].1, sc[m as int].1),
                decreases km.len() - q,
            {
                assert(km[q as int].1 == kept@[q as int].1@);
                assert(sc[m as int].1 == sorted@[m as int].1@);
                if contains_chars(&kept[q].1, &sorted[m].1) {
                    inside = true;
                }
                q = q + 1;
            }
            if !inside {
                kept.push((sorted[m].0, sorted[m].1.clone()));
                assert(kept@.map_values(|p: (usize, Vec<char>)| (p.0, p.1@)) =~= km.push(sc[m as int]));
            }
        }
        m = m + 1;
    }
    assert(sc.take(m as int) =~= sc);
    // Strings.
    let mut r: Vec<(usize, String)> = Vec::new();
    let mut n: usize = 0;
    let ghost kc = kept@.map_values(|p: (usize, Vec<char>)| (p.0, p.1@));
    while n < kept.len()
        invariant
            n <= kc.len(),
            r@.len() == n,
            kept@.len() == kc.len(),
            kc == kept@.map_values(|p: (usize, Vec<char>)| (p.0, p.1@)),
            r@.map_values(|p: (usize, String)| (p.0, p.1@)) == kc.take(n as int),
        decreases kc.len() - n,
    {
        assert(kc[n as int] == (kept@[n as int].0, kept@[n as int].1@));
        let text = string_of(kept[n].1.as_slice());
        assert(text@ == kept@[n as int].1@);
        r.push((kept[n].0, text));
        assert(r@[n as int].1@ == kc[n as int].1);
        assert(r@.map_values(|p: (usize, String)| (p.0, p.1@)) =~= kc.take(n + 1));
        n = n + 1;
    }
    assert(kc.take(n as int) =~= kc);
    r
}


// ---------------------------------------------------------------------------
// Ground item structure
// ---------------------------------------------------------------------------

/// An 8-byte slot that may hold a list link of an item at `item_ptr`:
/// null, or an address in the same 2^40-byte region.
pub open spec fn link_slot(buf: Seq<u8>, item_ptr: u64, off: int) -> bool {
    let v = u64_or_zero(buf, off);
    v == 0 || (v >> 40u64) == (item_ptr >> 40u64)
}

/// The link slots among offsets `off, off + 8, ...` below `limit`.
pub open spec fn link_slots(buf: Seq<u8>, item_ptr: u64, off: int, limit: int) -> Seq<usize>
    decreases limit + 8 - off,
{
    if off >= limit || off < 0 {
        Seq::empty()
    } else {
        let rest = link_slots(buf, item_ptr, off + 8, limit);
        if link_slot(buf, item_ptr, off) {
            seq![off as usize] + rest
        } else {
            rest
        }
    }
}

/// The slots searched for links: below 0x30 and leaving 8 bytes.
pub open spec fn link_limit(len: int) -> int {
    let room = if len >= 8 { len - 8 } else { 0 };
    if room < 0x30 { room } else { 0x30 }
}

/// The ground item offsets read from an item structure `buf` at
/// `item_ptr`: the name where an item name stands; the first two link
/// slots as previous and next; id and drop id at 0x10 and 0x18; the
/// position 0x54, 0x58, 0x5c past the name.  `None` without a name.
pub open spec fn item_results(buf: Seq<u8>, item_ptr: u64, name_off: Option<usize>) -> Option<WizardResults> {
    match name_off {
        None => None,
        Some(n) => {
            let links = link_slots(buf, item_ptr, 0, link_limit(buf.len() as int));
            Some(
                WizardResults {
                    item_name: Some(n),
                    item_prev: if links.len() > 0 { Some(links[0]) } else { None },
                    item_next: if links.len() > 1 { Some(links[1]) } else { None },
                    item_id: Some(0x10),
                    item_drop_id: Some(0x18),
                    item_x: Some((n + 0x54) as usize),
                    item_y: Some((n + 0x58) as usize),
                    item_z: Some((n + 0x5c) as usize),
                    ..no_results()
                },
            )
        },
    }
}

/// Identify the ground item offsets in an item structure read from
/// `item_ptr` (see `item_results`; the name is the first found by
/// `find_item_name_offset`).
pub fn item_offsets_from(buf: &[u8], item_ptr: u64) -> (r: Option<WizardResults>)
    requires
        buf@.len() + 0x5c <= usize::MAX,
    ensures
        r == item_results(buf@, item_ptr, find_item_name(buf@)),
{
    let name_off = match find_item_name_offset(buf) {
        Some(n) => n,
        None => {
            return None;
        },
    };
    let limit: usize = if buf.len() >= 8 {
        if buf.len() - 8 < 0x30 {
            buf.len() - 8
        } else {
            0x30
        }
    } else {
        0
    };
    let region = item_ptr >> 40u64;
    let mut links: Vec<usize> = Vec::new();
    let mut off: usize = 0;
    let ghost all = link_slots(buf@, item_ptr, 0, limit as int);
    while off < limit
        invariant
            off <= limit + 7,
            limit <= 0x30,
            off % 8 == 0,
            region == item_ptr >> 40u64,
            links@ + link_slots(buf@, item_ptr, off as int, limit as int) == all,
        decreases limit + 8 - off,
    {
        let v = read_u64_at(buf, off);
        if v == 0 || (v >> 40u64) == region {
            links.push(off);
            assert(links@ + link_slots(buf@, item_ptr, off + 8, limit as int) =~= all);
        }
        off = off + 8;
    }
    let prev = if links.len() > 0 { Some(links[0]) } else { None };
    let next = if links.len() > 1 { Some(links[1]) } else { None };
    let mut res = WizardResults::default();
    res.item_name = Some(name_off);
    res.item_prev = prev;
    res.item_next = next;
    res.item_id = Some(0x10);
    res.item_drop_id = Some(0x18);
    res.item_x = Some(name_off + 0x54);
    res.item_y = Some(name_off + 0x58);
    res.item_z = Some(name_off + 0x5c);
    Some(res)
}

} // verus!

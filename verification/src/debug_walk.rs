//! The offset console's walk along the game's spawn list and its search
//! for a pointer value, as step functions: the walk says which address to
//! read next and what to print, the caller reads process memory and hands
//! the bytes back.
use vstd::prelude::*;
use crate::offsets::SpawnOffsets;
use crate::protocol::{blank_record, field_text, parse_string_bytes};
use crate::scanner::{le64_at, read_u64_le};
use crate::server_logic::{
    copied_str, extract_spawn_record, read_u64_at, u16_or_zero, u32_or_zero, u64_or_zero,
};
use crate::spawn_filter::texts;
use crate::text::{chars_eq, chars_of, dec_chars, dec_seq, has_prefix, hex_chars, hex_seq, push_all, starts_with, string_of};

verus! {

/// At most this many entries are walked.
pub const WALK_LIMIT: u32 = 1000;

/// Where the console searches for a pointer after a reverse walk.
pub const PTR_SCAN_BASE: u64 = 0x1_4000_0000;

/// How many bytes the console searches for a pointer.
pub const PTR_SCAN_SIZE: u64 = 0x180_0000;

/// A walk along the spawn list, one entry per read.
pub struct DebugWalk {
    /// The entry being read.
    pub ptr: u64,
    pub reverse: bool,
    /// Entries read so far.
    pub count: u32,
    /// The previous-entry link of the last entry read.
    pub last_prev: u64,
    /// Bytes read per entry.
    pub buf_size: usize,
    pub offs: SpawnOffsets,
    /// The link about to be followed, once it reads.
    pub checking: Option<u64>,
    pub done: bool,
}

/// What the caller does after a step: print `lines`, read `buf_size`
/// bytes at `read` when there is one, and search memory for the pointer
/// `scan_for` when there is one.
pub struct WalkStep {
    pub lines: Vec<String>,
    pub read: Option<u64>,
    pub scan_for: Option<u64>,
}

/// The name of the spawn structure `buf`, as packed into a record.
pub open spec fn walk_name(buf: Seq<u8>, o: SpawnOffsets) -> Seq<char> {
    field_text(copied_str(buf, o.name as int, blank_record().name@))
}

/// The id of the spawn structure `buf`, as packed into a record.
pub open spec fn walk_id(buf: Seq<u8>, o: SpawnOffsets) -> u32 {
    if o.race8 {
        u16_or_zero(buf, o.id as int) as u32
    } else {
        u32_or_zero(buf, o.id as int)
    }
}

/// The lines printed for one entry.
pub open spec fn entry_text(buf: Seq<u8>, o: SpawnOffsets, prev: u64, next: u64) -> Seq<Seq<char>> {
    seq![
        "    -----------------------------------"@,
        "    NameOffset -> "@ + walk_name(buf, o),
        "    SpawnIDOffset -> "@ + dec_seq(walk_id(buf, o) as nat),
        "    PrevOffset -> 0x"@ + hex_seq(prev as nat, true),
        "    NextOffset -> 0x"@ + hex_seq(next as nat, true),
    ]
}

/// The closing line of a walk of `n` entries.
pub open spec fn discovered_text(n: u32) -> Seq<char> {
    " Discovered "@ + dec_seq(n as nat) + " spawn entities during the walk."@
}

/// The first line of a walk.
pub open spec fn walk_heading(reverse: bool) -> Seq<char> {
    if reverse {
        " Walking spawnlist in reverse."@
    } else {
        " Walking spawnlist forward."@
    }
}

/// The pointer searched for when the walk ends at `ptr`: only after a
/// reverse walk whose last entry still had a previous link.
pub open spec fn end_scan(reverse: bool, last_prev: u64, ptr: u64) -> Option<u64> {
    if reverse && last_prev != 0 {
        Some(ptr)
    } else {
        None
    }
}

fn line_of(a: &str, b: &Vec<char>) -> (s: String)
    ensures
        s@ == a@ + b@,
{
    let mut v = chars_of(a);
    push_all(&mut v, b);
    string_of(v.as_slice())
}

fn discovered_line(n: u32) -> (s: String)
    ensures
        s@ == discovered_text(n),
{
    let mut v = chars_of(" Discovered ");
    let d = dec_chars(n as u64);
    push_all(&mut v, &d);
    let tail = chars_of(" spawn entities during the walk.");
    push_all(&mut v, &tail);
    string_of(v.as_slice())
}

fn push_line(v: &mut Vec<String>, s: String)
    ensures
        texts(final(v)@) == texts(old(v)@).push(s@),
{
    v.push(s);
    assert(texts(v@) =~= texts(old(v)@).push(s@));
}

impl DebugWalk {
    /// A walk is either over or has room for another entry.
    pub open spec fn wf(&self) -> bool {
        self.done || self.count < WALK_LIMIT
    }

    /// Start a walk at the entry `ptr`: print the heading and read the
    /// entry.  Each read covers the structure and both links.
    pub fn start(ptr: u64, reverse: bool, offs: SpawnOffsets) -> (r: (Self, WalkStep))
        requires
            offs.prev + 8 <= usize::MAX,
            offs.next + 8 <= usize::MAX,
        ensures
            r.0.wf(),
            r.0.ptr == ptr && r.0.reverse == reverse && r.0.count == 0 && r.0.last_prev == 0,
            r.0.checking is None && !r.0.done,
            r.0.buf_size == vstd::math::max(
                vstd::math::max(offs.buf_size as int, offs.prev + 8),
                offs.next + 8,
            ),
            r.0.offs == offs,
            texts(r.1.lines@) == seq![walk_heading(reverse)],
            r.1.read == Some(ptr),
            r.1.scan_for is None,
    {
        let mut size = offs.buf_size;
        if offs.prev + 8 > size {
            size = offs.prev + 8;
        }
        if offs.next + 8 > size {
            size = offs.next + 8;
        }
        let mut lines: Vec<String> = Vec::new();
        let heading = if reverse {
            " Walking spawnlist in reverse."
        } else {
            " Walking spawnlist forward."
        };
        assert(texts(lines@) =~= Seq::<Seq<char>>::empty());
        push_line(&mut lines, string_of(chars_of(heading).as_slice()));
        assert(texts(lines@) =~= seq![walk_heading(reverse)]);
        let w = DebugWalk {
            ptr,
            reverse,
            count: 0,
            last_prev: 0,
            buf_size: size,
            offs,
            checking: None,
            done: false,
        };
        (w, WalkStep { lines, read: Some(ptr), scan_for: None })
    }

    /// Take the bytes of the last read (`None` when it failed).
    ///
    /// - While checking a link: a read moves the walk there and reads the
    ///   entry; a failed one ends the walk.
    /// - Reading an entry: a failed read ends the walk; otherwise the entry
    ///   is counted and printed, and its link (previous in reverse, next
    ///   otherwise) is checked unless it is null, points back at the entry,
    ///   or the walk has reached `WALK_LIMIT` entries, which ends it.
    ///
    /// An ending prints the number of entries walked and asks for the
    /// pointer search of `end_scan`.  A walk that is over stays over.
    pub fn on_bytes(&mut self, b: Option<Vec<u8>>) -> (r: WalkStep)
        requires
            old(self).wf(),
        ensures
            final(self).wf(),
            final(self).offs == old(self).offs,
            final(self).buf_size == old(self).buf_size,
            final(self).reverse == old(self).reverse,
            old(self).done ==> *final(self) == *old(self) && r.lines@.len() == 0 && r.read is None
                && r.scan_for is None,
            !old(self).done ==> match (old(self).checking, b) {
                (Some(step), Some(_)) => {
                    &&& *final(self) == (DebugWalk { ptr: step, checking: None, ..*old(self) })
                    &&& r.lines@.len() == 0
                    &&& r.read == Some(step)
                    &&& r.scan_for is None
                },
                (None, Some(buf)) => {
                    let o = old(self).offs;
                    let prev = u64_or_zero(buf@, o.prev as int);
                    let next = u64_or_zero(buf@, o.next as int);
                    let n = (old(self).count + 1) as u32;
                    let step = if old(self).reverse {
                        prev
                    } else {
                        next
                    };
                    let keep = step != 0 && step != old(self).ptr && n < WALK_LIMIT;
                    &&& *final(self) == (DebugWalk {
                        count: n,
                        last_prev: prev,
                        checking: if keep {
                            Some(step)
                        } else {
                            None
                        },
                        done: !keep,
                        ..*old(self)
                    })
                    &&& texts(r.lines@) == entry_text(buf@, o, prev, next) + (if keep {
                        Seq::<Seq<char>>::empty()
                    } else {
                        seq![discovered_text(n)]
                    })
                    &&& r.read == (if keep {
                        Some(step)
                    } else {
                        None
                    })
                    &&& r.scan_for == (if keep {
                        None
                    } else {
                        end_scan(old(self).reverse, prev, old(self).ptr)
                    })
                },
                (_, None) => {
                    &&& *final(self) == (DebugWalk { done: true, checking: None, ..*old(self) })
                    &&& texts(r.lines@) == seq![discovered_text(old(self).count)]
                    &&& r.read is None
                    &&& r.scan_for == end_scan(old(self).reverse, old(self).last_prev, old(self).ptr)
                },
            },
    {
        let mut lines: Vec<String> = Vec::new();
        assert(texts(lines@) =~= Seq::<Seq<char>>::empty());
        if self.done {
            return WalkStep { lines, read: None, scan_for: None };
        }
        match b {
            None => {
                self.done = true;
                self.checking = None;
                push_line(&mut lines, discovered_line(self.count));
                let scan_for = if self.reverse && self.last_prev != 0 {
                    Some(self.ptr)
                } else {
                    None
                };
                WalkStep { lines, read: None, scan_for }
            },
            Some(buf) => {
                match self.checking {
                    Some(step) => {
                        self.ptr = step;
                        self.checking = None;
                        WalkStep { lines, read: Some(step), scan_for: None }
                    },
                    None => {
                        let prev = read_u64_at(buf.as_slice(), self.offs.prev);
                        let next = read_u64_at(buf.as_slice(), self.offs.next);
                        self.last_prev = prev;
                        self.count = self.count + 1;
                        let rec = extract_spawn_record(buf.as_slice(), &self.offs, 0);
                        push_line(&mut lines, string_of(chars_of("    -----------------------------------").as_slice()));
                        let name = parse_string_bytes(&rec.name);
                        push_line(&mut lines, line_of("    NameOffset -> ", &chars_of(name.as_str())));
                        push_line(&mut lines, line_of("    SpawnIDOffset -> ", &dec_chars(rec.id as u64)));
                        push_line(&mut lines, line_of("    PrevOffset -> 0x", &hex_chars(prev, true)));
                        push_line(&mut lines, line_of("    NextOffset -> 0x", &hex_chars(next, true)));
                        assert(texts(lines@) =~= entry_text(buf@, self.offs, prev, next));
                        let step = if self.reverse {
                            prev
                        } else {
                            next
                        };
                        let keep = step != 0 && step != self.ptr && self.count < WALK_LIMIT;
                        if keep {
                            self.checking = Some(step);
                            WalkStep { lines, read: Some(step), scan_for: None }
                        } else {
                            self.done = true;
                            let ghost before = texts(lines@);
                            push_line(&mut lines, discovered_line(self.count));
                            assert(texts(lines@) =~= before + seq![discovered_text(self.count)]);
                            let scan_for = if self.reverse && prev != 0 {
                                Some(self.ptr)
                            } else {
                                None
                            };
                            WalkStep { lines, read: None, scan_for }
                        }
                    },
                }
            },
        }
    }
}

/// Positions `i` of `buf` at which the eight bytes read as `search`.
pub open spec fn pointer_hit(buf: Seq<u8>, i: int, search: u64) -> bool {
    le64_at(buf, i) == Some(search)
}

/// The positions below `n` at which `search` starts, in increasing order.
pub open spec fn hits_below(buf: Seq<u8>, search: u64, n: nat) -> Seq<usize>
    decreases n,
{
    if n == 0 {
        Seq::empty()
    } else {
        let r = hits_below(buf, search, (n - 1) as nat);
        if pointer_hit(buf, n - 1, search) {
            r.push((n - 1) as usize)
        } else {
            r
        }
    }
}

/// The positions in a chunk of memory at which the 8-byte little-endian
/// value `search` starts, in increasing order.
pub fn pointer_hits(buf: &[u8], search: u64) -> (r: Vec<usize>)
    ensures
        r@ == hits_below(buf@, search, buf@.len()),
{
    let mut r: Vec<usize> = Vec::new();
    let mut i: usize = 0;
    while i < buf.len()
        invariant
            i <= buf@.len(),
            r@ == hits_below(buf@, search, i as nat),
        decreases buf@.len() - i,
    {
        match read_u64_le(buf, i) {
            Some(v) => {
                if v == search {
                    r.push(i);
                }
            },
            None => {},
        }
        i = i + 1;
    }
    r
}

/// How a string search walks memory: byte by byte for the zone name,
/// through one pointer for a spawn's name, through one or two pointers for
/// a ground item's name.  Other structures are not searched.
#[derive(Debug, Clone, Copy, PartialEq, Eq, Structural)]
pub enum SearchMode {
    Zone,
    Name,
    GroundName,
    Nothing,
}

/// Where and how a string search runs: `len` bytes from the canonical
/// address `from`, reading names at `name_off` past each pointer.
#[derive(Debug, Clone, Copy, PartialEq, Eq, Structural)]
pub struct SearchPlan {
    pub mode: SearchMode,
    pub from: u64,
    pub len: u64,
    pub name_off: u64,
}

/// The search mode of the primary address `ot`.
pub open spec fn mode_of(ot: usize) -> SearchMode {
    if ot == 0 {
        SearchMode::Zone
    } else if ot == 2 || ot == 3 {
        SearchMode::Name
    } else if ot == 4 {
        SearchMode::GroundName
    } else {
        SearchMode::Nothing
    }
}

/// Plan a search for `search` around the primary address `addr` (of kind
/// `ot`): from `4 * size` bytes below it (not below 0) over `8 * size`
/// bytes.  `None` (an invalid search) when the address is unknown, the
/// size is 0 or the string is empty.  Names are read at the ground item
/// name offset for ground items, at the spawn name offset otherwise.
pub fn plan_string_search(
    addr: u64,
    size: u64,
    search: &str,
    ot: usize,
    spawn_name_off: usize,
    item_name_off: usize,
) -> (r: Option<SearchPlan>)
    requires
        8 * size <= u64::MAX,
    ensures
        r is None <==> (addr == 0 || size == 0 || search@.len() == 0),
        r matches Some(p) ==> {
            &&& p.mode == mode_of(ot)
            &&& p.from == (if addr >= 4 * size {
                addr - 4 * size
            } else {
                0
            })
            &&& p.len == 8 * size
            &&& p.name_off == (if ot == 4 {
                item_name_off
            } else {
                spawn_name_off
            })
        },
{
    let text = chars_of(search);
    if addr == 0 || size == 0 || text.len() == 0 {
        return None;
    }
    let mode = if ot == 0 {
        SearchMode::Zone
    } else if ot == 2 || ot == 3 {
        SearchMode::Name
    } else if ot == 4 {
        SearchMode::GroundName
    } else {
        SearchMode::Nothing
    };
    let name_off = if ot == 4 {
        item_name_off as u64
    } else {
        spawn_name_off as u64
    };
    Some(SearchPlan { mode, from: addr.saturating_sub(4 * size), len: 8 * size, name_off })
}

/// The addresses in a chunk read at `at` whose byte is `first` (where the
/// zone search reads the full text), in increasing order.
pub open spec fn first_byte_hits(chunk: Seq<u8>, at: u64, first: u8, n: nat) -> Seq<u64>
    decreases n,
{
    if n == 0 {
        Seq::empty()
    } else {
        let r = first_byte_hits(chunk, at, first, (n - 1) as nat);
        if chunk[n - 1] == first {
            r.push((at + n - 1) as u64)
        } else {
            r
        }
    }
}

pub fn zone_candidates(chunk: &[u8], at: u64, first: u8) -> (r: Vec<u64>)
    requires
        at + chunk@.len() <= u64::MAX,
    ensures
        r@ == first_byte_hits(chunk@, at, first, chunk@.len()),
{
    let mut r: Vec<u64> = Vec::new();
    let mut i: usize = 0;
    while i < chunk.len()
        invariant
            i <= chunk@.len(),
            at + chunk@.len() <= u64::MAX,
            r@ == first_byte_hits(chunk@, at, first, i as nat),
        decreases chunk@.len() - i,
    {
        if chunk[i] == first {
            r.push(at + i as u64);
        }
        i = i + 1;
    }
    r
}

/// Does the text read at a zone candidate (up to its first NUL) equal the
/// searched string?
pub fn zone_text_matches(full: &[u8], search: &str) -> (b: bool)
    ensures
        b == (field_text(full@) == search@),
{
    let t = parse_string_bytes(full);
    chars_eq(&chars_of(t.as_str()), &chars_of(search))
}

/// Where a name search reads a name, given the pointer read at `p_mem`:
/// past a nonzero pointer below `p_mem`, at `name_off`; nowhere otherwise
/// (or when the pointer could not be read).
pub fn name_read_addr(p_mem: u64, pointer: Option<u64>, name_off: u64) -> (r: Option<u64>)
    requires
        p_mem + name_off <= u64::MAX,
    ensures
        r == (match pointer {
            Some(d) => if d != 0 && d < p_mem {
                Some((d + name_off) as u64)
            } else {
                None
            },
            None => None,
        }),
{
    match pointer {
        Some(d) => {
            if d != 0 && d < p_mem {
                Some(d + name_off)
            } else {
                None
            }
        },
        None => None,
    }
}

/// Does a name read in a search hit?  Spawn names must equal the searched
/// string; ground item names must start with it.
pub fn name_hits(mode: SearchMode, name: &str, search: &str) -> (b: bool)
    ensures
        b == (if mode == SearchMode::GroundName {
            has_prefix(name@, search@)
        } else {
            name@ == search@
        }),
{
    let n = chars_of(name);
    let q = chars_of(search);
    match mode {
        SearchMode::GroundName => starts_with(&n, &q),
        _ => chars_eq(&n, &q),
    }
}

} // verus!

//! Walking the game's linked lists in memory: the spawn list and the ground
//! items.  Each walk is a state machine: it names the next read it needs,
//! the caller performs the read in the game's memory and hands back what it
//! got, and the walk decides what comes next and collects the records.
use vstd::prelude::*;
use crate::offsets::{ItemOffsets, SpawnOffsets};
use crate::protocol::{SpawnRecord, OPT_SPAWNS};
use crate::server_logic::{
    extract_spawn_record, item_from_raw, pack_item_as_spawn, read_u64_at, spawn_from_raw,
    u64_or_zero,
};
use crate::text::has_prefix;

verus! {

/// Back steps taken at most to find the head of the spawn list.
pub const MAX_BACK_STEPS: u32 = 2000;

/// Ground items read at most.
pub const MAX_GROUND_ITEMS: u32 = 300;

/// A read of the game's memory that a walk asks for.
#[derive(Debug, Clone, Copy, PartialEq, Eq, Structural)]
pub enum MemRead {
    /// The pointer stored at an address.
    Pointer(u64),
    /// A number of bytes at an address.
    Bytes(u64, usize),
    /// Text of at most a number of bytes at an address.
    Text(u64, usize),
}

/// Where the spawn list walk stands.
#[derive(Debug, Clone, Copy, PartialEq, Eq, Structural)]
pub enum SpawnWalkState {
    /// The list's head pointer was asked for.
    Head,
    /// Walking back to the true head: the node at `ptr` was asked for,
    /// after `steps` steps back.
    Back { ptr: u64, steps: u32 },
    /// Walking forward collecting records: the node at `ptr` was asked for.
    Forward { ptr: u64 },
    Done,
}

/// The spawn list walk: the entry pointer may land in the middle of the
/// list, so the walk first follows `prev` links back to the head (at most
/// `MAX_BACK_STEPS` of them), then follows `next` links forward, packing
/// each node, until a null or self link or a failed read.
pub struct SpawnListWalk {
    pub offs: SpawnOffsets,
    pub state: SpawnWalkState,
    pub records: Vec<SpawnRecord>,
}

impl SpawnListWalk {
    /// Start a walk of the list whose head pointer is stored at `list_addr`
    /// (0: no list known, nothing to read).
    pub fn start(list_addr: u64, offs: SpawnOffsets) -> (r: (Self, Option<MemRead>))
        ensures
            r.0.offs == offs,
            r.0.records@.len() == 0,
            list_addr == 0 ==> r.0.state == SpawnWalkState::Done && r.1 is None,
            list_addr != 0 ==> r.0.state == SpawnWalkState::Head && r.1 == Some(
                MemRead::Pointer(list_addr),
            ),
    {
        if list_addr == 0 {
            (SpawnListWalk { offs, state: SpawnWalkState::Done, records: Vec::new() }, None)
        } else {
            (
                SpawnListWalk { offs, state: SpawnWalkState::Head, records: Vec::new() },
                Some(MemRead::Pointer(list_addr)),
            )
        }
    }

    /// The head pointer read (`None` when the read failed): a null or
    /// failed read ends the walk; otherwise the walk back starts there.
    pub fn on_pointer(&mut self, p: Option<u64>) -> (r: Option<MemRead>)
        requires
            old(self).state == SpawnWalkState::Head,
        ensures
            final(self).offs == old(self).offs,
            final(self).records@ == old(self).records@,
            match p {
                Some(v) if v != 0 => final(self).state == (SpawnWalkState::Back { ptr: v, steps: 0 })
                    && r == Some(MemRead::Bytes(v, old(self).offs.buf_size)),
                _ => final(self).state == SpawnWalkState::Done && r is None,
            },
    {
        match p {
            Some(v) => {
                if v != 0 {
                    self.state = SpawnWalkState::Back { ptr: v, steps: 0 };
                    Some(MemRead::Bytes(v, self.offs.buf_size))
                } else {
                    self.state = SpawnWalkState::Done;
                    None
                }
            },
            None => {
                self.state = SpawnWalkState::Done;
                None
            },
        }
    }

    /// The node bytes read (`None` when the read failed).  Walking back, a
    /// failed read or a null `prev` link starts the walk forward at the
    /// same node, as does the last allowed step back at the node it
    /// reaches; otherwise the walk steps back.  Walking forward, the node
    /// is packed (flagged as a spawn) and the walk follows `next` unless
    /// it is null or points at the node itself; a failed read ends it.
    pub fn on_bytes(&mut self, b: Option<Vec<u8>>) -> (r: Option<MemRead>)
        requires
            old(self).state is Back || old(self).state is Forward,
        ensures
            final(self).offs == old(self).offs,
            ({
                let size = old(self).offs.buf_size;
                match old(self).state {
                    SpawnWalkState::Back { ptr, steps } => {
                        &&& final(self).records@ == old(self).records@
                        &&& match b {
                            Some(buf) => {
                                let prev = u64_or_zero(buf@, old(self).offs.prev as int);
                                if prev == 0 {
                                    final(self).state == (SpawnWalkState::Forward { ptr })
                                        && r == Some(MemRead::Bytes(ptr, size))
                                } else if steps >= MAX_BACK_STEPS - 1 {
                                    final(self).state == (SpawnWalkState::Forward { ptr: prev })
                                        && r == Some(MemRead::Bytes(prev, size))
                                } else {
                                    final(self).state == (SpawnWalkState::Back {
                                        ptr: prev,
                                        steps: (steps + 1) as u32,
                                    }) && r == Some(MemRead::Bytes(prev, size))
                                }
                            },
                            None => final(self).state == (SpawnWalkState::Forward { ptr })
                                && r == Some(MemRead::Bytes(ptr, size)),
                        }
                    },
                    SpawnWalkState::Forward { ptr } => match b {
                        Some(buf) => {
                            let next = u64_or_zero(buf@, old(self).offs.next as int);
                            &&& final(self).records@.len() == old(self).records@.len() + 1
                            &&& final(self).records@.drop_last() == old(self).records@
                            &&& spawn_from_raw(
                                buf@,
                                old(self).offs,
                                OPT_SPAWNS,
                                final(self).records@.last(),
                            )
                            &&& if next == 0 || next == ptr {
                                final(self).state == SpawnWalkState::Done && r is None
                            } else {
                                final(self).state == (SpawnWalkState::Forward { ptr: next })
                                    && r == Some(MemRead::Bytes(next, size))
                            }
                        },
                        None => final(self).records@ == old(self).records@ && final(self).state
                            == SpawnWalkState::Done && r is None,
                    },
                    _ => false,
                }
            }),
    {
        let size = self.offs.buf_size;
        match self.state {
            SpawnWalkState::Back { ptr, steps } => {
                match b {
                    Some(buf) => {
                        let prev = read_u64_at(buf.as_slice(), self.offs.prev);
                        if prev == 0 {
                            self.state = SpawnWalkState::Forward { ptr };
                            Some(MemRead::Bytes(ptr, size))
                        } else if steps >= MAX_BACK_STEPS - 1 {
                            self.state = SpawnWalkState::Forward { ptr: prev };
                            Some(MemRead::Bytes(prev, size))
                        } else {
                            self.state = SpawnWalkState::Back { ptr: prev, steps: steps + 1 };
                            Some(MemRead::Bytes(prev, size))
                        }
                    },
                    None => {
                        self.state = SpawnWalkState::Forward { ptr };
                        Some(MemRead::Bytes(ptr, size))
                    },
                }
            },
            SpawnWalkState::Forward { ptr } => {
                match b {
                    Some(buf) => {
                        let rec = extract_spawn_record(buf.as_slice(), &self.offs, OPT_SPAWNS);
                        self.records.push(rec);
                        let next = read_u64_at(buf.as_slice(), self.offs.next);
                        if next == 0 || next == ptr {
                            self.state = SpawnWalkState::Done;
                            None
                        } else {
                            self.state = SpawnWalkState::Forward { ptr: next };
                            Some(MemRead::Bytes(next, size))
                        }
                    },
                    None => {
                        self.state = SpawnWalkState::Done;
                        None
                    },
                }
            },
            _ => None,
        }
    }
}

/// Where the ground item walk stands.
#[derive(Debug, Clone, Copy, PartialEq, Eq, Structural)]
pub enum GroundWalkState {
    /// The pointer stored at the ground address was asked for.
    Head,
    /// The name text at the node `base` was asked for: a node's name
    /// starts with `IT`.
    Name { base: u64 },
    /// `base` is a container: the pointer stored there was asked for.
    Container { base: u64 },
    /// The item at `ptr` was asked for, `count` items read before it.
    Item { ptr: u64, count: u32 },
    Done,
}

/// The ground item walk: the stored pointer leads either to the first item
/// (its name starts with `IT`) or to a container holding a pointer to it;
/// then `next` links are followed, packing each item, until a null or
/// self link, a failed read, or `MAX_GROUND_ITEMS` items.
pub struct GroundWalk {
    pub offs: ItemOffsets,
    pub state: GroundWalkState,
    pub records: Vec<SpawnRecord>,
}

impl GroundWalk {
    /// Start a walk from the pointer stored at `ground_addr` (0: no list
    /// known, nothing to read).
    pub fn start(ground_addr: u64, offs: ItemOffsets) -> (r: (Self, Option<MemRead>))
        ensures
            r.0.offs == offs,
            r.0.records@.len() == 0,
            ground_addr == 0 ==> r.0.state == GroundWalkState::Done && r.1 is None,
            ground_addr != 0 ==> r.0.state == GroundWalkState::Head && r.1 == Some(
                MemRead::Pointer(ground_addr),
            ),
    {
        if ground_addr == 0 {
            (GroundWalk { offs, state: GroundWalkState::Done, records: Vec::new() }, None)
        } else {
            (
                GroundWalk { offs, state: GroundWalkState::Head, records: Vec::new() },
                Some(MemRead::Pointer(ground_addr)),
            )
        }
    }

    /// A pointer read (`None` when the read failed).  At the head, a null
    /// or failed read ends the walk, else the node's name is asked for
    /// (four bytes at the name offset); at a container, the pointer read
    /// (0 when it failed) is the first item, a null one ending the walk.
    pub fn on_pointer(&mut self, p: Option<u64>) -> (r: Option<MemRead>)
        requires
            old(self).state is Head || old(self).state is Container,
            old(self).state is Head ==> (p matches Some(v) ==> v + old(self).offs.name <= u64::MAX),
        ensures
            final(self).offs == old(self).offs,
            final(self).records@ == old(self).records@,
            ({
                let v = match p {
                    Some(v) => v,
                    None => 0,
                };
                if v == 0 {
                    final(self).state == GroundWalkState::Done && r is None
                } else if old(self).state is Head {
                    final(self).state == (GroundWalkState::Name { base: v }) && r == Some(
                        MemRead::Text((v + old(self).offs.name) as u64, 4),
                    )
                } else {
                    final(self).state == (GroundWalkState::Item { ptr: v, count: 0 }) && r == Some(
                        MemRead::Bytes(v, old(self).offs.buf_size),
                    )
                }
            }),
    {
        let v = match p {
            Some(v) => v,
            None => 0,
        };
        if v == 0 {
            self.state = GroundWalkState::Done;
            return None;
        }
        if let GroundWalkState::Head = self.state {
            self.state = GroundWalkState::Name { base: v };
            Some(MemRead::Text(v + self.offs.name as u64, 4))
        } else {
            self.state = GroundWalkState::Item { ptr: v, count: 0 };
            Some(MemRead::Bytes(v, self.offs.buf_size))
        }
    }

    /// The name text at the node (empty when the read failed): a name
    /// starting with `IT` makes the node the first item; otherwise the
    /// node is a container and the pointer stored there is asked for.
    pub fn on_text(&mut self, name: &str) -> (r: Option<MemRead>)
        requires
            old(self).state is Name,
        ensures
            final(self).offs == old(self).offs,
            final(self).records@ == old(self).records@,
            ({
                let base = old(self).state->Name_base;
                if has_prefix(name@, "IT"@) {
                    final(self).state == (GroundWalkState::Item { ptr: base, count: 0 }) && r
                        == Some(MemRead::Bytes(base, old(self).offs.buf_size))
                } else {
                    final(self).state == (GroundWalkState::Container { base }) && r == Some(
                        MemRead::Pointer(base),
                    )
                }
            }),
    {
        let base = match self.state {
            GroundWalkState::Name { base } => base,
            _ => 0,
        };
        if crate::text::starts_with(&crate::text::chars_of(name), &crate::text::chars_of("IT")) {
            self.state = GroundWalkState::Item { ptr: base, count: 0 };
            Some(MemRead::Bytes(base, self.offs.buf_size))
        } else {
            self.state = GroundWalkState::Container { base };
            Some(MemRead::Pointer(base))
        }
    }

    /// The item bytes read (`None` when the read failed): the item is
    /// packed and the walk follows `next` unless it is null or points at
    /// the item itself, or the item limit is reached; a failed read ends
    /// the walk.
    pub fn on_bytes(&mut self, b: Option<Vec<u8>>) -> (r: Option<MemRead>)
        requires
            old(self).state is Item,
            old(self).state->count < MAX_GROUND_ITEMS,
        ensures
            final(self).offs == old(self).offs,
            ({
                let ptr = old(self).state->ptr;
                let count = old(self).state->count;
                match b {
                    Some(buf) => {
                        let next = u64_or_zero(buf@, old(self).offs.next as int);
                        &&& final(self).records@.len() == old(self).records@.len() + 1
                        &&& final(self).records@.drop_last() == old(self).records@
                        &&& item_from_raw(buf@, old(self).offs, final(self).records@.last())
                        &&& if next == 0 || next == ptr || count + 1 >= MAX_GROUND_ITEMS {
                            final(self).state == GroundWalkState::Done && r is None
                        } else {
                            final(self).state == (GroundWalkState::Item {
                                ptr: next,
                                count: (count + 1) as u32,
                            }) && r == Some(MemRead::Bytes(next, old(self).offs.buf_size))
                        }
                    },
                    None => final(self).records@ == old(self).records@ && final(self).state
                        == GroundWalkState::Done && r is None,
                }
            }),
    {
        let (ptr, count) = match self.state {
            GroundWalkState::Item { ptr, count } => (ptr, count),
            _ => (0, 0),
        };
        match b {
            Some(buf) => {
                let rec = pack_item_as_spawn(buf.as_slice(), &self.offs);
                self.records.push(rec);
                let next = read_u64_at(buf.as_slice(), self.offs.next);
                if next == 0 || next == ptr || count + 1 >= MAX_GROUND_ITEMS {
                    self.state = GroundWalkState::Done;
                    None
                } else {
                    self.state = GroundWalkState::Item { ptr: next, count: count + 1 };
                    Some(MemRead::Bytes(next, self.offs.buf_size))
                }
            },
            None => {
                self.state = GroundWalkState::Done;
                None
            },
        }
    }
}

} // verus!

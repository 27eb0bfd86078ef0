//! The client's per-zone stores: ground items decoded each tick, and the
//! map annotations the user places.  Coordinates hold `f32` bit patterns.
use vstd::prelude::*;
use crate::protocol::{field_text, name_from_bytes, SpawnRecord, OPT_GROUND};

verus! {

/// A ground item.  Its `x` is the record's `y` and its `y` the record's
/// `x` (the map's axis order).
#[derive(Debug, Clone)]
pub struct GroundItem {
    pub id: u32,
    pub name: String,
    pub x: u32,
    pub y: u32,
    pub z: u32,
}

/// `g` is the ground item a ground record carries.
pub open spec fn item_of(rec: SpawnRecord, g: GroundItem) -> bool {
    &&& g.id == rec.id
    &&& g.name@ == field_text(rec.name@)
    &&& g.x == rec.y && g.y == rec.x && g.z == rec.z
}

impl GroundItem {
    /// The ground item of an `OPT_GROUND` record; `None` for other records.
    pub fn from_record(rec: &SpawnRecord) -> (r: Option<Self>)
        ensures
            rec.flags == OPT_GROUND <==> r is Some,
            r matches Some(g) ==> item_of(*rec, g),
    {
        if rec.flags != OPT_GROUND {
            return None;
        }
        Some(GroundItem { id: rec.id, name: name_from_bytes(&rec.name), x: rec.y, y: rec.x, z: rec.z })
    }
}

/// The ground items of the current tick, in arrival order.
pub struct GroundStore {
    items: Vec<GroundItem>,
}

impl GroundStore {
    pub closed spec fn items_view(&self) -> Seq<GroundItem> {
        self.items@
    }

    pub fn new() -> (s: Self)
        ensures
            s.items_view().len() == 0,
    {
        GroundStore { items: Vec::new() }
    }

    /// Append the item of a ground record; other records are ignored.
    pub fn push(&mut self, rec: &SpawnRecord)
        ensures
            rec.flags == OPT_GROUND ==> final(self).items_view().len() == old(self).items_view().len()
                + 1 && final(self).items_view().drop_last() == old(self).items_view() && item_of(
                *rec,
                final(self).items_view().last(),
            ),
            rec.flags != OPT_GROUND ==> final(self).items_view() == old(self).items_view(),
    {
        match GroundItem::from_record(rec) {
            Some(item) => {
                self.items.push(item);
                assert(self.items@.drop_last() =~= old(self).items@);
            },
            None => {},
        }
    }

    pub fn clear(&mut self)
        ensures
            final(self).items_view().len() == 0,
    {
        self.items.clear();
    }

    /// The items, in arrival order.
    pub fn items(&self) -> (v: &Vec<GroundItem>)
        ensures
            v@ == self.items_view(),
    {
        &self.items
    }

    pub fn len(&self) -> (n: usize)
        ensures
            n == self.items_view().len(),
    {
        self.items.len()
    }

    pub fn is_empty(&self) -> (b: bool)
        ensures
            b == (self.items_view().len() == 0),
    {
        self.items.len() == 0
    }
}

/// A note placed on the map.
#[derive(Debug, Clone)]
pub struct MapAnnotation {
    pub id: u32,
    pub text: String,
    pub x: u32,
    pub y: u32,
    pub z: u32,
    pub color: [u8; 3],
    pub size: u8,
}

impl MapAnnotation {
    /// A field-by-field copy.
    pub fn duplicate(&self) -> (r: Self)
        ensures
            r == *self,
    {
        MapAnnotation {
            id: self.id,
            text: self.text.clone(),
            x: self.x,
            y: self.y,
            z: self.z,
            color: self.color,
            size: self.size,
        }
    }
}

/// The annotations of the current zone, with the id the next one gets.
pub struct AnnotationStore {
    pub items: Vec<MapAnnotation>,
    pub next_id: u32,
}

impl Default for AnnotationStore {
    fn default() -> (s: Self)
        ensures
            s.items@.len() == 0,
            s.next_id == 0,
    {
        AnnotationStore::new()
    }
}

impl AnnotationStore {
    pub fn new() -> (s: Self)
        ensures
            s.items@.len() == 0,
            s.next_id == 0,
    {
        AnnotationStore { items: Vec::new(), next_id: 0 }
    }

    /// Add a note with the next id.
    pub fn add(&mut self, text: String, x: u32, y: u32, z: u32, color: [u8; 3], size: u8)
        requires
            old(self).next_id < u32::MAX,
        ensures
            final(self).next_id == old(self).next_id + 1,
            final(self).items@ == old(self).items@.push(
                MapAnnotation { id: old(self).next_id, text, x, y, z, color, size },
            ),
    {
        let id = self.next_id;
        self.next_id = self.next_id + 1;
        self.items.push(MapAnnotation { id, text, x, y, z, color, size });
    }

    /// Remove every note with id `id`; the rest keep their order.
    pub fn remove(&mut self, id: u32)
        ensures
            final(self).items@ == old(self).items@.filter(|a: MapAnnotation| a.id != id),
            final(self).next_id == old(self).next_id,
    {
        let ghost s0 = self.items@;
        let mut kept: Vec<MapAnnotation> = Vec::new();
        let mut i: usize = 0;
        while i < self.items.len()
            invariant
                i <= s0.len(),
                self.items@ == s0,
                kept@ == s0.take(i as int).filter(|a: MapAnnotation| a.id != id),
            decreases s0.len() - i,
        {
            proof {
                reveal(Seq::filter);
                assert(s0.take(i + 1).drop_last() =~= s0.take(i as int));
                assert(s0.take(i + 1).last() == s0[i as int]);
            }
            if self.items[i].id != id {
                kept.push(self.items[i].duplicate());
            }
            i = i + 1;
        }
        assert(s0.take(i as int) =~= s0);
        self.items = kept;
    }

    /// Append a note read from the file; later notes get ids above every
    /// id read.
    pub fn push_loaded(&mut self, a: MapAnnotation)
        requires
            a.id < u32::MAX,
        ensures
            final(self).items@ == old(self).items@.push(a),
            final(self).next_id == (if old(self).next_id > a.id + 1 {
                old(self).next_id as int
            } else {
                a.id + 1
            }),
    {
        if a.id + 1 > self.next_id {
            self.next_id = a.id + 1;
        }
        self.items.push(a);
    }

    /// Remove every note and restart ids at 0.
    pub fn clear(&mut self)
        ensures
            final(self).items@.len() == 0,
            final(self).next_id == 0,
    {
        self.items.clear();
        self.next_id = 0;
    }
}

/// Ids go up by one per note added: after adding notes to a fresh store,
/// the `k`-th note has id `k`.
pub proof fn law_annotation_ids(before: Seq<MapAnnotation>, next: u32, a: MapAnnotation)
    requires
        forall|k: int| 0 <= k < before.len() ==> #[trigger] before[k].id == k,
        next == before.len(),
        a.id == next,
    ensures
        forall|k: int| 0 <= k < before.push(a).len() ==> #[trigger] before.push(a)[k].id == k,
{
}

/// Reading notes keeps every id below the next id, so a note added after
/// loading gets an id no loaded note has: if every id is below `next`,
/// then after `push_loaded` of `a` every id is below the new next id.
pub proof fn law_loaded_ids_below_next(items: Seq<MapAnnotation>, next: u32, a: MapAnnotation)
    requires
        forall|k: int| 0 <= k < items.len() ==> #[trigger] items[k].id < next,
        a.id < u32::MAX,
    ensures
        ({
            let next2 = if next > a.id + 1 {
                next as int
            } else {
                a.id + 1
            };
            forall|k: int| 0 <= k < items.push(a).len() ==> #[trigger] items.push(a)[k].id < next2
        }),
{
    let next2 = if next > a.id + 1 {
        next as int
    } else {
        a.id + 1
    };
    assert forall|k: int| 0 <= k < items.push(a).len() implies #[trigger] items.push(a)[k].id < next2 by {
        if k < items.len() {
            assert(items.push(a)[k] == items[k]);
        }
    }
}

} // verus!

//! Interior pocket dimensions: buildings show only their shell to the open world, while their
//! decorative items (up to 3,000 per building) and occupants live in isolated interior cells.
use vstd::prelude::*;
use std::collections::{BTreeMap, HashMap, HashSet};

use crate::byte_order::{be_u16, be_u32, lemma_u32_be_roundtrip, read_u16_be, read_u32_be, u16_of_be, u32_of_be};
use crate::chunk_manifest::{lemma_i16_bits_roundtrip, write_i16_be, write_u32_be_at};
use crate::error::WorldError;
use vstd::std_specs::iter::IteratorSpec;

verus! {

broadcast use {
    vstd::std_specs::btree::group_btree_axioms,
    vstd::laws_cmp::group_laws_cmp,
    vstd::std_specs::hash::group_hash_axioms,
};

/// Maximum number of decorative items in one building's interior.
pub const MAX_INTERIOR_ITEMS_PER_BUILDING: usize = 3000;

/// Size of one encoded interior item.
pub const INTERIOR_ITEM_BYTES: usize = 16;

/// A decorative item placed inside an interior cell, positioned in millimetres relative to the
/// room's origin.
#[derive(Debug, Clone, Copy, PartialEq, Eq, Default, Structural)]
pub struct InteriorItemRecord {
    /// Item instance identifier, unique within the room.
    pub item_instance_id: u32,
    /// Item blueprint identifier.
    pub item_type_id: u32,
    /// Local X in millimetres.
    pub local_x_mm: i16,
    /// Local Y (elevation) in millimetres.
    pub local_y_mm: i16,
    /// Local Z in millimetres.
    pub local_z_mm: i16,
    /// Discrete heading.
    pub local_yaw: u8,
    /// Display flags.
    pub flags: u8,
}

/// The 16 bytes of an item: identifiers, then coordinates, big-endian, then heading and flags.
pub open spec fn item_bytes(r: InteriorItemRecord) -> Seq<u8> {
    be_u32(r.item_instance_id) + be_u32(r.item_type_id) + be_u16(r.local_x_mm as u16) + be_u16(
        r.local_y_mm as u16,
    ) + be_u16(r.local_z_mm as u16) + seq![r.local_yaw, r.flags]
}

/// The item stored in the first 16 bytes of `s`.
pub open spec fn item_of_bytes(s: Seq<u8>) -> InteriorItemRecord {
    InteriorItemRecord {
        item_instance_id: u32_of_be(s.subrange(0, 4)),
        item_type_id: u32_of_be(s.subrange(4, 8)),
        local_x_mm: u16_of_be(s.subrange(8, 10)) as i16,
        local_y_mm: u16_of_be(s.subrange(10, 12)) as i16,
        local_z_mm: u16_of_be(s.subrange(12, 14)) as i16,
        local_yaw: s[14],
        flags: s[15],
    }
}

/// The items encoded one after the other, in the order given.
pub open spec fn items_bytes(items: Seq<InteriorItemRecord>) -> Seq<u8>
    decreases items.len(),
{
    if items.len() == 0 {
        Seq::empty()
    } else {
        items_bytes(items.drop_last()) + item_bytes(items.last())
    }
}

/// Item round trip: reading back the bytes written for an item, followed by anything, gives the
/// item.
pub proof fn lemma_item_roundtrip(r: InteriorItemRecord, rest: Seq<u8>)
    ensures
        item_of_bytes(item_bytes(r) + rest) == r,
        item_bytes(r).len() == 16,
{
    let s = item_bytes(r) + rest;
    assert(s.subrange(0, 4) =~= be_u32(r.item_instance_id));
    assert(s.subrange(4, 8) =~= be_u32(r.item_type_id));
    assert(s.subrange(8, 10) =~= be_u16(r.local_x_mm as u16));
    assert(s.subrange(10, 12) =~= be_u16(r.local_y_mm as u16));
    assert(s.subrange(12, 14) =~= be_u16(r.local_z_mm as u16));
    lemma_u32_be_roundtrip(r.item_instance_id);
    lemma_u32_be_roundtrip(r.item_type_id);
    lemma_i16_bits_roundtrip(r.local_x_mm);
    lemma_i16_bits_roundtrip(r.local_y_mm);
    lemma_i16_bits_roundtrip(r.local_z_mm);
}

/// Encoded items take 16 bytes each, and bytes `16 * i .. 16 * i + 16` hold the `i`-th item.
pub proof fn lemma_items_bytes_layout(items: Seq<InteriorItemRecord>, i: int)
    requires
        0 <= i < items.len(),
    ensures
        items_bytes(items).len() == 16 * items.len(),
        items_bytes(items).subrange(16 * i, 16 * i + 16) == item_bytes(items[i]),
    decreases items.len(),
{
    lemma_items_bytes_len(items);
    lemma_items_bytes_len(items.drop_last());
    lemma_item_roundtrip(items.last(), Seq::empty());
    let b = items_bytes(items);
    let head = items_bytes(items.drop_last());
    if i == items.len() - 1 {
        assert(b.subrange(16 * i, 16 * i + 16) =~= item_bytes(items.last()));
    } else {
        lemma_items_bytes_layout(items.drop_last(), i);
        assert(b.subrange(16 * i, 16 * i + 16) =~= head.subrange(16 * i, 16 * i + 16));
    }
}

/// Reading the 16 bytes at offset `16 * i` of a manifest gives back its `i`-th item.
pub proof fn lemma_manifest_item_readback(items: Seq<InteriorItemRecord>, i: int)
    requires
        0 <= i < items.len(),
    ensures
        item_of_bytes(items_bytes(items).subrange(16 * i, 16 * i + 16)) == items[i],
{
    lemma_items_bytes_layout(items, i);
    lemma_item_roundtrip(items[i], Seq::empty());
    assert(item_bytes(items[i]) + Seq::<u8>::empty() =~= item_bytes(items[i]));
}

/// Encoded items take 16 bytes each.
pub proof fn lemma_items_bytes_len(items: Seq<InteriorItemRecord>)
    ensures
        items_bytes(items).len() == 16 * items.len(),
    decreases items.len(),
{
    if items.len() > 0 {
        lemma_items_bytes_len(items.drop_last());
    }
}

impl InteriorItemRecord {
    /// Writes the item into the first 16 bytes of `out`; a shorter buffer is refused and left
    /// untouched.
    pub fn write_to(&self, out: &mut [u8]) -> (r: Result<(), &'static str>)
        ensures
            old(out)@.len() < 16 ==> r is Err && final(out)@ == old(out)@,
            old(out)@.len() >= 16 ==> r is Ok && final(out)@ == item_bytes(*self) + old(out)@.subrange(16, old(out)@.len() as int),
    {
        if out.len() < 16 {
            return Err("Buffer too short for InteriorItemRecord");
        }
        write_u32_be_at(out, 0, self.item_instance_id);
        write_u32_be_at(out, 4, self.item_type_id);
        write_i16_be(out, 8, self.local_x_mm);
        write_i16_be(out, 10, self.local_y_mm);
        write_i16_be(out, 12, self.local_z_mm);
        out[14] = self.local_yaw;
        out[15] = self.flags;
        assert(out@ =~= item_bytes(*self) + old(out)@.subrange(16, old(out)@.len() as int)) by {
            assert(out@.subrange(0, 4) == be_u32(self.item_instance_id));
            assert(out@.subrange(4, 8) == be_u32(self.item_type_id));
        }
        Ok(())
    }

    /// Reads an item from the first 16 bytes of `slice`; a shorter slice is refused.
    pub fn read_from(slice: &[u8]) -> (r: Result<Self, &'static str>)
        ensures
            slice@.len() < 16 ==> r is Err,
            slice@.len() >= 16 ==> r == Ok::<Self, &'static str>(item_of_bytes(slice@)),
    {
        if slice.len() < 16 {
            return Err("Slice too short for InteriorItemRecord");
        }
        let item_instance_id = read_u32_be(slice, 0);
        let item_type_id = read_u32_be(slice, 4);
        let local_x_mm = read_u16_be(slice, 8) as i16;
        let local_y_mm = read_u16_be(slice, 10) as i16;
        let local_z_mm = read_u16_be(slice, 12) as i16;
        Ok(
            InteriorItemRecord {
                item_instance_id,
                item_type_id,
                local_x_mm,
                local_y_mm,
                local_z_mm,
                local_yaw: slice[14],
                flags: slice[15],
            },
        )
    }
}

/// Writes `r` into bytes `at .. at + 16` of `out`, leaving the rest untouched.
fn write_item_at(out: &mut [u8], at: usize, r: &InteriorItemRecord)
    requires
        at + 16 <= old(out)@.len(),
    ensures
        final(out)@.len() == old(out)@.len(),
        final(out)@.subrange(at as int, at + 16) == item_bytes(*r),
        forall|i: int|
            0 <= i < old(out)@.len() && !(at <= i < at + 16) ==> #[trigger] final(out)@[i]
                == old(out)@[i],
{
    let len = out.len();
    assert(at + 16 <= len);
    write_u32_be_at(out, at, r.item_instance_id);
    let ghost a = out@;
    write_u32_be_at(out, at + 4, r.item_type_id);
    let ghost b = out@;
    write_i16_be(out, at + 8, r.local_x_mm);
    write_i16_be(out, at + 10, r.local_y_mm);
    write_i16_be(out, at + 12, r.local_z_mm);
    out[at + 14] = r.local_yaw;
    out[at + 15] = r.flags;
    assert(out@.subrange(at as int, at + 16) =~= item_bytes(*r)) by {
        assert(a.subrange(at as int, at + 4) == be_u32(r.item_instance_id));
        assert(b.subrange(at + 4, at + 8) == be_u32(r.item_type_id));
        assert(out@.subrange(at as int, at + 4) =~= a.subrange(at as int, at + 4));
        assert(out@.subrange(at + 4, at + 8) =~= b.subrange(at + 4, at + 8));
    }
}

/// Keys that the ordered map yields in increasing order are strictly ascending integers.
proof fn lemma_increasing_keys_ascending(ks: Seq<u32>)
    requires
        vstd::std_specs::btree::increasing_seq(ks),
    ensures
        forall|i: int, j: int| 0 <= i < j < ks.len() ==> ks[i] < ks[j],
{
    assert forall|i: int, j: int| 0 <= i < j < ks.len() implies ks[i] < ks[j] by {
        assert(vstd::std_specs::cmp::OrdSpec::cmp_spec(&ks[i], &ks[j]) is Less);
    }
}

/// `ks` lists each key of `dom` once, in ascending order.
pub open spec fn ascending_keys(ks: Seq<u32>, dom: Set<u32>) -> bool {
    &&& forall|i: int, j: int| 0 <= i < j < ks.len() ==> ks[i] < ks[j]
    &&& ks.to_set() == dom
}

/// Dropping the smallest key of an ascending listing leaves an ascending listing of the rest.
proof fn lemma_ascending_keys_drop_first(ks: Seq<u32>, dom: Set<u32>)
    requires
        ascending_keys(ks, dom),
        ks.len() > 0,
    ensures
        ascending_keys(ks.drop_first(), dom.remove(ks[0])),
        forall|x: u32| dom.contains(x) ==> ks[0] <= x,
{
    let t = ks.drop_first();
    assert forall|x: u32| dom.contains(x) implies ks[0] <= x by {
        assert(ks.to_set().contains(x));
        let k = choose|k: int| 0 <= k < ks.len() && ks[k] == x;
        assert(k == 0 || ks[0] < ks[k]);
    }
    assert forall|x: u32| #[trigger] t.to_set().contains(x) <==> dom.remove(ks[0]).contains(x) by {
        if t.to_set().contains(x) {
            let k = choose|k: int| 0 <= k < t.len() && t[k] == x;
            assert(ks[k + 1] == x);
            assert(ks.to_set().contains(x));
            assert(ks[0] < ks[k + 1]);
        }
        if dom.remove(ks[0]).contains(x) {
            assert(ks.to_set().contains(x));
            let k = choose|k: int| 0 <= k < ks.len() && ks[k] == x;
            assert(k != 0);
            assert(t[k - 1] == x);
            assert(t.to_set().contains(x));
        }
    }
    assert(t.to_set() =~= dom.remove(ks[0]));
}

/// A set of keys has exactly one ascending listing, so the order in which a room's items are
/// written is determined by the room.
pub proof fn lemma_ascending_keys_unique(a: Seq<u32>, b: Seq<u32>, dom: Set<u32>)
    requires
        ascending_keys(a, dom),
        ascending_keys(b, dom),
    ensures
        a == b,
    decreases a.len(),
{
    if a.len() == 0 {
        if b.len() > 0 {
            assert(b.to_set().contains(b[0]));
            assert(a.to_set().contains(b[0]));
        }
        assert(a =~= b);
    } else {
        if b.len() == 0 {
            assert(a.to_set().contains(a[0]));
            assert(b.to_set().contains(a[0]));
        }
        lemma_ascending_keys_drop_first(a, dom);
        lemma_ascending_keys_drop_first(b, dom);
        assert(a.to_set().contains(a[0]));
        assert(b.to_set().contains(b[0]));
        assert(a[0] == b[0]);
        lemma_ascending_keys_unique(a.drop_first(), b.drop_first(), dom.remove(a[0]));
        assert(a =~= seq![a[0]] + a.drop_first());
        assert(b =~= seq![b[0]] + b.drop_first());
    }
}

/// The items of `m` taken along the keys `ks`.
pub open spec fn items_along(ks: Seq<u32>, m: Map<u32, InteriorItemRecord>) -> Seq<
    InteriorItemRecord,
> {
    ks.map_values(|k: u32| m[k])
}

/// An isolated interior room of a building or vehicle.
#[derive(Debug)]
pub struct InteriorCell {
    /// Interior cell identifier.
    pub cell_id: u32,
    /// Building or vehicle in the open world that holds the room.
    pub parent_building_id: u32,
    /// Account of the building's owner.
    pub owner_account_id: u64,
    /// Decorative items by item instance identifier.
    pub items: BTreeMap<u32, InteriorItemRecord>,
    /// Player entities inside the room.
    pub occupants: HashSet<u32>,
}

/// What a room holds, as mathematical values.
pub struct RoomView {
    /// Interior cell identifier.
    pub cell_id: u32,
    /// Building or vehicle that holds the room.
    pub parent_building_id: u32,
    /// Account of the building's owner.
    pub owner_account_id: u64,
    /// Items by instance identifier.
    pub items: Map<u32, InteriorItemRecord>,
    /// Entities inside.
    pub occupants: Set<u32>,
}

impl View for InteriorCell {
    type V = RoomView;

    open spec fn view(&self) -> RoomView {
        RoomView {
            cell_id: self.cell_id,
            parent_building_id: self.parent_building_id,
            owner_account_id: self.owner_account_id,
            items: self.items@,
            occupants: self.occupants@,
        }
    }
}

/// A room without items or occupants.
pub open spec fn empty_room(cell_id: u32, parent_building_id: u32, owner_account_id: u64) -> RoomView {
    RoomView {
        cell_id,
        parent_building_id,
        owner_account_id,
        items: Map::empty(),
        occupants: Set::empty(),
    }
}

impl InteriorCell {
    /// An empty room.
    pub fn new(cell_id: u32, parent_building_id: u32, owner_account_id: u64) -> (c: Self)
        ensures
            c.cell_id == cell_id,
            c.parent_building_id == parent_building_id,
            c.owner_account_id == owner_account_id,
            c.items@ == Map::<u32, InteriorItemRecord>::empty(),
            c.occupants@ == Set::<u32>::empty(),
    {
        InteriorCell {
            cell_id,
            parent_building_id,
            owner_account_id,
            items: BTreeMap::new(),
            occupants: HashSet::new(),
        }
    }

    /// Places `record`, replacing an item with the same instance identifier. A new item is
    /// refused once the room holds 3,000 items.
    pub fn place_item(&mut self, record: InteriorItemRecord) -> (r: Result<(), WorldError>)
        ensures
            ({
                let full = old(self).items@.len() >= MAX_INTERIOR_ITEMS_PER_BUILDING
                    && !old(self).items@.contains_key(record.item_instance_id);
                if full {
                    r == Err::<(), WorldError>(WorldError::InteriorCellFull) && *final(self)
                        == *old(self)
                } else {
                    &&& r is Ok
                    &&& final(self).items@ == old(self).items@.insert(
                        record.item_instance_id,
                        record,
                    )
                    &&& final(self).occupants == old(self).occupants
                    &&& final(self).cell_id == old(self).cell_id
                    &&& final(self).parent_building_id == old(self).parent_building_id
                    &&& final(self).owner_account_id == old(self).owner_account_id
                }
            }),
    {
        if self.items.len() >= MAX_INTERIOR_ITEMS_PER_BUILDING && !self.items.contains_key(
            &record.item_instance_id,
        ) {
            return Err(WorldError::InteriorCellFull);
        }
        self.items.insert(record.item_instance_id, record);
        Ok(())
    }

    /// Removes and returns item `item_instance_id`; an unknown item is refused.
    pub fn remove_item(&mut self, item_instance_id: u32) -> (r: Result<
        InteriorItemRecord,
        WorldError,
    >)
        ensures
            old(self).items@.contains_key(item_instance_id) ==> {
                &&& r == Ok::<InteriorItemRecord, WorldError>(old(self).items@[item_instance_id])
                &&& final(self).items@ == old(self).items@.remove(item_instance_id)
                &&& final(self).occupants == old(self).occupants
                &&& final(self).cell_id == old(self).cell_id
                &&& final(self).parent_building_id == old(self).parent_building_id
                &&& final(self).owner_account_id == old(self).owner_account_id
            },
            !old(self).items@.contains_key(item_instance_id) ==> r == Err::<
                InteriorItemRecord,
                WorldError,
            >(WorldError::ItemNotFound(item_instance_id)) && final(self).items@ == old(self).items@
                && final(self).occupants == old(self).occupants && final(self).cell_id == old(
                self).cell_id && final(self).parent_building_id == old(self).parent_building_id
                && final(self).owner_account_id == old(self).owner_account_id,
    {
        match self.items.remove(&item_instance_id) {
            Some(rec) => Ok(rec),
            None => Err(WorldError::ItemNotFound(item_instance_id)),
        }
    }

    /// Number of items in the room.
    pub fn item_count(&self) -> (n: usize)
        ensures
            n == self.items@.len(),
    {
        self.items.len()
    }

    /// Writes every item, 16 bytes each in ascending instance-identifier order, to the front of
    /// `out_buffer` and returns the number of bytes written; a buffer too small for all of them
    /// is refused and left untouched.
    pub fn serialize_manifest(&self, out_buffer: &mut [u8]) -> (r: Result<usize, &'static str>)
        requires
            16 * self.items@.len() <= usize::MAX,
        ensures
            ({
                let n = 16 * self.items@.len() as int;
                if old(out_buffer)@.len() < n {
                    r is Err && final(out_buffer)@ == old(out_buffer)@
                } else {
                    &&& r == Ok::<usize, &'static str>(n as usize)
                    &&& exists|ks: Seq<u32>|
                        ascending_keys(ks, self.items@.dom()) && final(out_buffer)@ == items_bytes(
                            items_along(ks, self.items@),
                        ) + old(out_buffer)@.subrange(n, old(out_buffer)@.len() as int)
                }
            }),
    {
        let required_bytes = self.items.len() * 16;
        if out_buffer.len() < required_bytes {
            return Err("Buffer too small for interior scene manifest");
        }
        let ghost m = self.items@;
        let ghost start = out_buffer@;
        let values = self.items.values();
        let ghost ks = choose|ks: Seq<u32>|
            {
                &&& vstd::std_specs::btree::increasing_seq(ks)
                &&& ks.to_set() == m.dom()
                &&& ks.no_duplicates()
                &&& IteratorSpec::remaining(&values) == ks.map(|i: int, k: u32| &m[k])
            };
        let mut offset: usize = 0;
        for item in it: values
            invariant
                m == self.items@,
                it.seq() == ks.map(|i: int, k: u32| &m[k]),
                offset == 16 * it.index(),
                16 * ks.len() <= out_buffer@.len(),
                16 * ks.len() <= usize::MAX,
                ks.len() == m.dom().len(),
                out_buffer@.len() == start.len(),
                out_buffer@.subrange(0, offset as int) == items_bytes(
                    items_along(ks.take(it.index()), m),
                ),
                forall|i: int| offset <= i < start.len() ==> #[trigger] out_buffer@[i] == start[i],
        {
            let ghost done: int = it.index();
            let ghost before = out_buffer@;
            assert(*item == m[ks[done]]);
            write_item_at(out_buffer, offset, item);
            proof {
                let prev = items_along(ks.take(done), m);
                let next = items_along(ks.take(done + 1), m);
                assert(next =~= prev.push(m[ks[done]]));
                assert(next.drop_last() =~= prev);
                assert(out_buffer@.subrange(0, offset + 16) =~= before.subrange(0, offset as int)
                    + out_buffer@.subrange(offset as int, offset + 16));
            }
            offset = offset + 16;
        }
        proof {
            lemma_increasing_keys_ascending(ks);
            assert(ascending_keys(ks, m.dom()));
            assert(ks.take(ks.len() as int) =~= ks);
            assert(out_buffer@ =~= items_bytes(items_along(ks, m)) + start.subrange(
                offset as int,
                start.len() as int,
            ));
        }
        Ok(offset)
    }
}

/// `r` with its occupants replaced by `occupants`.
pub open spec fn with_occupants(r: RoomView, occupants: Set<u32>) -> RoomView {
    RoomView { occupants, ..r }
}

/// `r` with its items replaced by `items`.
pub open spec fn with_items(r: RoomView, items: Map<u32, InteriorItemRecord>) -> RoomView {
    RoomView { items, ..r }
}

/// The rooms after entity `e` leaves room `c`; an unknown room changes nothing.
pub open spec fn vacate(rooms: Map<u32, RoomView>, c: u32, e: u32) -> Map<u32, RoomView> {
    if rooms.contains_key(c) {
        rooms.insert(c, with_occupants(rooms[c], rooms[c].occupants.remove(e)))
    } else {
        rooms
    }
}

/// The rooms held by `cells`, by identifier.
pub open spec fn rooms_of(cells: Map<u32, InteriorCell>) -> Map<u32, RoomView> {
    cells.map_values(|c: InteriorCell| c@)
}

/// Every interior room, and the room each entity is inside.
#[derive(Debug)]
pub struct InteriorCellManager {
    cells: HashMap<u32, InteriorCell>,
    entity_locations: HashMap<u32, u32>,
    next_cell_id: u32,
}

impl InteriorCellManager {
    /// The rooms by cell identifier.
    pub closed spec fn rooms(&self) -> Map<u32, RoomView> {
        rooms_of(self.cells@)
    }

    /// The room each entity inside an interior is in.
    pub closed spec fn locations(&self) -> Map<u32, u32> {
        self.entity_locations@
    }

    /// Identifier the next room receives.
    pub closed spec fn next_id(&self) -> u32 {
        self.next_cell_id
    }

    /// No room holds more than 3,000 items.
    pub open spec fn wf(&self) -> bool {
        forall|c: u32|
            #[trigger] self.rooms().contains_key(c) ==> self.rooms()[c].items.len()
                <= MAX_INTERIOR_ITEMS_PER_BUILDING
    }

    /// Each located entity is an occupant of its room, and each occupant is located in its
    /// room: an entity is inside at most one room.
    pub open spec fn occupancy_consistent(&self) -> bool {
        &&& forall|e: u32| #[trigger]
            self.locations().contains_key(e) ==> self.rooms().contains_key(self.locations()[e])
                && self.rooms()[self.locations()[e]].occupants.contains(e)
        &&& forall|c: u32, e: u32|
            self.rooms().contains_key(c) && #[trigger] self.rooms()[c].occupants.contains(e)
                ==> self.locations().contains_key(e) && self.locations()[e] == c
    }

    /// No rooms; the first room gets identifier 1.
    pub fn new() -> (m: Self)
        ensures
            m.rooms() == Map::<u32, RoomView>::empty(),
            m.locations() == Map::<u32, u32>::empty(),
            m.next_id() == 1,
            m.wf(),
            m.occupancy_consistent(),
    {
        let m = InteriorCellManager {
            cells: HashMap::new(),
            entity_locations: HashMap::new(),
            next_cell_id: 1,
        };
        assert(m.rooms() =~= Map::<u32, RoomView>::empty());
        m
    }

    /// Allocates a room for building `parent_building_id` of `owner_account_id` under the next
    /// identifier, which then advances (wrapping), and returns the room's identifier.
    pub fn create_cell(&mut self, parent_building_id: u32, owner_account_id: u64) -> (id: u32)
        ensures
            id == old(self).next_id(),
            final(self).next_id() == old(self).next_id().wrapping_add(1),
            final(self).rooms() == old(self).rooms().insert(
                id,
                empty_room(id, parent_building_id, owner_account_id),
            ),
            final(self).locations() == old(self).locations(),
            old(self).wf() ==> final(self).wf(),
            old(self).occupancy_consistent() && !old(self).rooms().contains_key(id)
                ==> final(self).occupancy_consistent(),
    {
        let cell_id = self.next_cell_id;
        self.next_cell_id = self.next_cell_id.wrapping_add(1);
        let cell = InteriorCell::new(cell_id, parent_building_id, owner_account_id);
        self.cells.insert(cell_id, cell);
        assert(self.rooms() =~= old(self).rooms().insert(
            cell_id,
            empty_room(cell_id, parent_building_id, owner_account_id),
        ));
        cell_id
    }

    /// Takes room `cell_id` out for a change and puts the changed room back.
    fn take_cell(&mut self, cell_id: u32) -> (c: Option<InteriorCell>)
        ensures
            match c {
                Some(cell) => old(self).rooms().contains_key(cell_id) && cell@ == old(self).rooms()[cell_id] && final(self).rooms() == old(self).rooms().remove(cell_id),
                None => !old(self).rooms().contains_key(cell_id) && final(self).rooms() == old(self).rooms(),
            },
            final(self).locations() == old(self).locations(),
            final(self).next_id() == old(self).next_id(),
    {
        let c = self.cells.remove(&cell_id);
        assert(self.rooms() =~= old(self).rooms().remove(cell_id));
        c
    }

    fn put_cell(&mut self, cell_id: u32, cell: InteriorCell)
        ensures
            final(self).rooms() == old(self).rooms().insert(cell_id, cell@),
            final(self).locations() == old(self).locations(),
            final(self).next_id() == old(self).next_id(),
    {
        self.cells.insert(cell_id, cell);
        assert(self.rooms() =~= old(self).rooms().insert(cell_id, cell@));
    }

    /// Destroys room `cell_id`, evicting its occupants to the open world; an unknown room is
    /// refused.
    pub fn destroy_cell(&mut self, cell_id: u32) -> (r: Result<(), WorldError>)
        ensures
            final(self).next_id() == old(self).next_id(),
            !old(self).rooms().contains_key(cell_id) ==> r == Err::<(), WorldError>(
                WorldError::InteriorCellNotFound(cell_id),
            ) && final(self).rooms() == old(self).rooms() && final(self).locations() == old(self).locations(),
            old(self).rooms().contains_key(cell_id) ==> r is Ok && final(self).rooms() == old(self).rooms().remove(cell_id) && final(self).locations() == old(self).locations().remove_keys(
                old(self).rooms()[cell_id].occupants,
            ),
            old(self).wf() ==> final(self).wf(),
            old(self).occupancy_consistent() ==> final(self).occupancy_consistent(),
    {
        let cell = match self.take_cell(cell_id) {
            Some(c) => c,
            None => {
                return Err(WorldError::InteriorCellNotFound(cell_id));
            },
        };
        let ghost start = self.entity_locations@;
        let iter = cell.occupants.iter();
        let ghost elems = IteratorSpec::remaining(&iter);
        let ghost mut n: int = 0;
        for e in it: iter
            invariant
                it.seq() == elems,
                n == it.index(),
                self.entity_locations@ == start.remove_keys(elems.take(n).unref().to_set()),
                self.rooms() == old(self).rooms().remove(cell_id),
                self.next_cell_id == old(self).next_cell_id,
        {
            self.entity_locations.remove(e);
            assert(elems.take(n + 1).unref() =~= elems.take(n).unref().push(*e));
            proof {
                elems.take(n).unref().lemma_push_to_set_commute(*e);
            }
            assert(self.entity_locations@ =~= start.remove_keys(
                elems.take(n + 1).unref().to_set(),
            ));
            proof {
                n = n + 1;
            }
        }
        assert(elems.take(n) =~= elems);
        Ok(())
    }

    /// Places `record` in room `cell_id`; an unknown room is refused, and a full room refuses a
    /// new item.
    pub fn place_item(&mut self, cell_id: u32, record: InteriorItemRecord) -> (r: Result<
        (),
        WorldError,
    >)
        ensures
            final(self).locations() == old(self).locations(),
            final(self).next_id() == old(self).next_id(),
            ({
                let rooms = old(self).rooms();
                let id = record.item_instance_id;
                if !rooms.contains_key(cell_id) {
                    r == Err::<(), WorldError>(WorldError::InteriorCellNotFound(cell_id))
                        && final(self).rooms() == rooms
                } else if rooms[cell_id].items.len() >= MAX_INTERIOR_ITEMS_PER_BUILDING
                    && !rooms[cell_id].items.contains_key(id) {
                    r == Err::<(), WorldError>(WorldError::InteriorCellFull) && final(self).rooms()
                        == rooms
                } else {
                    r is Ok && final(self).rooms() == rooms.insert(
                        cell_id,
                        with_items(rooms[cell_id], rooms[cell_id].items.insert(id, record)),
                    )
                }
            }),
            old(self).wf() ==> final(self).wf(),
            old(self).occupancy_consistent() ==> final(self).occupancy_consistent(),
    {
        let mut cell = match self.take_cell(cell_id) {
            Some(c) => c,
            None => {
                return Err(WorldError::InteriorCellNotFound(cell_id));
            },
        };
        let r = cell.place_item(record);
        self.put_cell(cell_id, cell);
        proof {
            let rooms = old(self).rooms();
            assert(r is Err ==> self.rooms() =~= rooms);
            assert(r is Ok ==> self.rooms() =~= rooms.insert(
                cell_id,
                with_items(rooms[cell_id], rooms[cell_id].items.insert(record.item_instance_id, record)),
            ));
        }
        r
    }

    /// Removes and returns item `item_instance_id` of room `cell_id`; an unknown room or item is
    /// refused.
    pub fn remove_item(&mut self, cell_id: u32, item_instance_id: u32) -> (r: Result<
        InteriorItemRecord,
        WorldError,
    >)
        ensures
            final(self).locations() == old(self).locations(),
            final(self).next_id() == old(self).next_id(),
            ({
                let rooms = old(self).rooms();
                if !rooms.contains_key(cell_id) {
                    r == Err::<InteriorItemRecord, WorldError>(
                        WorldError::InteriorCellNotFound(cell_id),
                    ) && final(self).rooms() == rooms
                } else if !rooms[cell_id].items.contains_key(item_instance_id) {
                    r == Err::<InteriorItemRecord, WorldError>(
                        WorldError::ItemNotFound(item_instance_id),
                    ) && final(self).rooms() == rooms
                } else {
                    r == Ok::<InteriorItemRecord, WorldError>(
                        rooms[cell_id].items[item_instance_id],
                    ) && final(self).rooms() == rooms.insert(
                        cell_id,
                        with_items(rooms[cell_id], rooms[cell_id].items.remove(item_instance_id)),
                    )
                }
            }),
            old(self).wf() ==> final(self).wf(),
            old(self).occupancy_consistent() ==> final(self).occupancy_consistent(),
    {
        let mut cell = match self.take_cell(cell_id) {
            Some(c) => c,
            None => {
                return Err(WorldError::InteriorCellNotFound(cell_id));
            },
        };
        let r = cell.remove_item(item_instance_id);
        self.put_cell(cell_id, cell);
        proof {
            let rooms = old(self).rooms();
            assert(r is Err ==> self.rooms() =~= rooms);
            assert(r is Ok ==> self.rooms() =~= rooms.insert(
                cell_id,
                with_items(rooms[cell_id], rooms[cell_id].items.remove(item_instance_id)),
            ));
            if old(self).wf() && r is Ok {
                assert(self.rooms()[cell_id].items.len() <= rooms[cell_id].items.len());
            }
        }
        r
    }

    /// Moves `entity_id` into room `cell_id`, out of any room it was in; an unknown room is
    /// refused.
    pub fn enter_cell(&mut self, entity_id: u32, cell_id: u32) -> (r: Result<(), WorldError>)
        ensures
            final(self).next_id() == old(self).next_id(),
            ({
                let rooms = old(self).rooms();
                let locs = old(self).locations();
                if !rooms.contains_key(cell_id) {
                    r == Err::<(), WorldError>(WorldError::InteriorCellNotFound(cell_id))
                        && final(self).rooms() == rooms && final(self).locations() == locs
                } else {
                    let left = if locs.contains_key(entity_id) {
                        vacate(rooms, locs[entity_id], entity_id)
                    } else {
                        rooms
                    };
                    &&& r is Ok
                    &&& final(self).locations() == locs.insert(entity_id, cell_id)
                    &&& final(self).rooms() == left.insert(
                        cell_id,
                        with_occupants(left[cell_id], left[cell_id].occupants.insert(entity_id)),
                    )
                }
            }),
            old(self).wf() ==> final(self).wf(),
            old(self).occupancy_consistent() ==> final(self).occupancy_consistent(),
    {
        if !self.cells.contains_key(&cell_id) {
            return Err(WorldError::InteriorCellNotFound(cell_id));
        }
        let ghost rooms = self.rooms();
        let ghost locs = self.locations();
        if let Some(old_cell_id) = self.entity_locations.remove(&entity_id) {
            if let Some(mut old_cell) = self.take_cell(old_cell_id) {
                old_cell.occupants.remove(&entity_id);
                self.put_cell(old_cell_id, old_cell);
            }
            assert(self.rooms() =~= vacate(rooms, old_cell_id, entity_id));
        }
        let ghost left = self.rooms();
        let mut cell = match self.take_cell(cell_id) {
            Some(c) => c,
            None => {
                return Err(WorldError::InteriorCellNotFound(cell_id));
            },
        };
        cell.occupants.insert(entity_id);
        self.put_cell(cell_id, cell);
        self.entity_locations.insert(entity_id, cell_id);
        proof {
            assert(self.rooms() =~= left.insert(
                cell_id,
                with_occupants(left[cell_id], left[cell_id].occupants.insert(entity_id)),
            ));
            assert(self.locations() =~= locs.insert(entity_id, cell_id));
        }
        Ok(())
    }

    /// Moves `entity_id` out of its room back to the open world and returns the room; an entity
    /// in no room is refused.
    pub fn exit_cell(&mut self, entity_id: u32) -> (r: Result<u32, WorldError>)
        ensures
            final(self).next_id() == old(self).next_id(),
            ({
                let rooms = old(self).rooms();
                let locs = old(self).locations();
                if !locs.contains_key(entity_id) {
                    r == Err::<u32, WorldError>(WorldError::EntityNotFound(entity_id))
                        && final(self).rooms() == rooms && final(self).locations() == locs
                } else {
                    &&& r == Ok::<u32, WorldError>(locs[entity_id])
                    &&& final(self).locations() == locs.remove(entity_id)
                    &&& final(self).rooms() == vacate(rooms, locs[entity_id], entity_id)
                }
            }),
            old(self).wf() ==> final(self).wf(),
            old(self).occupancy_consistent() ==> final(self).occupancy_consistent(),
    {
        let cell_id = match self.entity_locations.remove(&entity_id) {
            Some(c) => c,
            None => {
                return Err(WorldError::EntityNotFound(entity_id));
            },
        };
        let ghost rooms = self.rooms();
        if let Some(mut cell) = self.take_cell(cell_id) {
            cell.occupants.remove(&entity_id);
            self.put_cell(cell_id, cell);
        }
        assert(self.rooms() =~= vacate(rooms, cell_id, entity_id));
        Ok(cell_id)
    }

    /// Writes the items of room `cell_id`, 16 bytes each in ascending instance-identifier
    /// order, to the front of `out_buffer` and returns the number of bytes written. An unknown
    /// room is refused; a buffer too small for all the items is refused as corrupt and left
    /// untouched.
    pub fn build_scene_manifest(&self, cell_id: u32, out_buffer: &mut [u8]) -> (r: Result<
        usize,
        WorldError,
    >)
        requires
            self.wf(),
        ensures
            ({
                let rooms = self.rooms();
                if !rooms.contains_key(cell_id) {
                    r == Err::<usize, WorldError>(WorldError::InteriorCellNotFound(cell_id))
                        && final(out_buffer)@ == old(out_buffer)@
                } else {
                    let n = 16 * rooms[cell_id].items.len() as int;
                    if old(out_buffer)@.len() < n {
                        r == Err::<usize, WorldError>(WorldError::SnapshotCorrupted) && final(out_buffer)@ == old(out_buffer)@
                    } else {
                        &&& r == Ok::<usize, WorldError>(n as usize)
                        &&& exists|ks: Seq<u32>|
                            ascending_keys(ks, rooms[cell_id].items.dom()) && final(out_buffer)@
                                == items_bytes(items_along(ks, rooms[cell_id].items)) + old(out_buffer)@.subrange(n, old(out_buffer)@.len() as int)
                    }
                }
            }),
    {
        let cell = match self.cells.get(&cell_id) {
            Some(c) => c,
            None => {
                return Err(WorldError::InteriorCellNotFound(cell_id));
            },
        };
        assert(self.rooms().contains_key(cell_id));
        match cell.serialize_manifest(out_buffer) {
            Ok(n) => Ok(n),
            Err(_) => Err(WorldError::SnapshotCorrupted),
        }
    }

    /// The room `entity_id` is inside, if any.
    pub fn get_entity_cell(&self, entity_id: u32) -> (r: Option<u32>)
        ensures
            r == (if self.locations().contains_key(entity_id) {
                Some(self.locations()[entity_id])
            } else {
                None
            }),
    {
        match self.entity_locations.get(&entity_id) {
            Some(c) => Some(*c),
            None => None,
        }
    }

    /// Whether `entity_id` is inside an interior.
    pub fn is_inside_interior(&self, entity_id: u32) -> (b: bool)
        ensures
            b == self.locations().contains_key(entity_id),
    {
        self.entity_locations.contains_key(&entity_id)
    }

    /// Room `cell_id`.
    pub fn get_cell(&self, cell_id: u32) -> (r: Option<&InteriorCell>)
        ensures
            match r {
                Some(c) => self.rooms().contains_key(cell_id) && c@ == self.rooms()[cell_id],
                None => !self.rooms().contains_key(cell_id),
            },
    {
        self.cells.get(&cell_id)
    }

    /// Number of items in room `cell_id`; 0 for an unknown room.
    pub fn item_count(&self, cell_id: u32) -> (n: usize)
        ensures
            n == (if self.rooms().contains_key(cell_id) {
                self.rooms()[cell_id].items.len()
            } else {
                0
            }),
    {
        match self.cells.get(&cell_id) {
            Some(c) => c.item_count(),
            None => 0,
        }
    }
}

impl Default for InteriorCellManager {
    /// No rooms; the first room gets identifier 0.
    fn default() -> (m: Self)
        ensures
            m.rooms() == Map::<u32, RoomView>::empty(),
            m.locations() == Map::<u32, u32>::empty(),
            m.next_id() == 0,
            m.wf(),
            m.occupancy_consistent(),
    {
        let m = InteriorCellManager {
            cells: HashMap::new(),
            entity_locations: HashMap::new(),
            next_cell_id: 0,
        };
        assert(m.rooms() =~= Map::<u32, RoomView>::empty());
        m
    }
}

} // verus!

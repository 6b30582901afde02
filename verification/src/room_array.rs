use vstd::prelude::*;

verus! {

/// Width and height of a generated room, in tiles.
#[derive(Debug, Clone, Copy, PartialEq, Eq, Structural)]
pub struct RoomDimensions {
    pub width: usize,
    pub height: usize,
}

/// Remembers the dimensions of each generated room, indexed by the absolute
/// value of the room's z index.
#[derive(Debug)]
pub struct RoomArray {
    pub rooms: Vec<Option<RoomDimensions>>,
}

/// The slot that a z index is stored under: its absolute value.
pub open spec fn slot_of(z: int) -> int {
    if z < 0 { -z } else { z }
}

/// The contents of a slot of the storage: `None` past the end.
pub open spec fn slot_lookup(rooms: Seq<Option<RoomDimensions>>, i: int) -> Option<RoomDimensions> {
    if 0 <= i < rooms.len() { rooms[i] } else { None }
}

/// The storage after recording `dims` under slot `i`: the sequence grows with
/// empty slots up to `i` if needed, and slot `i` is overwritten.
pub open spec fn slot_store(
    rooms: Seq<Option<RoomDimensions>>,
    i: nat,
    dims: RoomDimensions,
) -> Seq<Option<RoomDimensions>> {
    let len = if i < rooms.len() { rooms.len() } else { i + 1 };
    Seq::new(len, |j: int| if j == i { Some(dims) } else if j < rooms.len() { rooms[j] } else { None })
}

impl RoomArray {
    /// The room remembered for z index `z`, if any.
    pub open spec fn lookup(&self, z: int) -> Option<RoomDimensions> {
        slot_lookup(self.rooms@, slot_of(z))
    }

    /// An empty storage.
    pub fn new() -> (r: Self)
        ensures
            r.rooms@ == Seq::<Option<RoomDimensions>>::empty(),
    {
        RoomArray { rooms: Vec::new() }
    }

    /// Converts a z index to its slot: its absolute value.
    pub fn z_to_index(z: i32) -> (r: usize)
        ensures
            r == slot_of(z as int),
    {
        if z < 0 {
            let m: i64 = -(z as i64);
            m as usize
        } else {
            z as usize
        }
    }

    /// Records a room of `width` x `height` tiles for z index `z_index`.
    pub fn add_room_to_storage(&mut self, z_index: i32, width: usize, height: usize)
        ensures
            final(self).rooms@ == slot_store(
                old(self).rooms@,
                slot_of(z_index as int) as nat,
                RoomDimensions { width, height },
            ),
    {
        let index = Self::z_to_index(z_index);
        let ghost old_rooms = self.rooms@;
        if index >= self.rooms.len() {
            while self.rooms.len() <= index
                invariant
                    old_rooms.len() <= self.rooms@.len() <= index + 1,
                    index < usize::MAX,
                    forall|j: int| 0 <= j < old_rooms.len() ==> self.rooms@[j] == old_rooms[j],
                    forall|j: int| old_rooms.len() <= j < self.rooms@.len() ==> self.rooms@[j] is None,
                decreases index + 1 - self.rooms@.len(),
            {
                self.rooms.push(None);
            }
        }
        self.rooms.set(index, Some(RoomDimensions { width, height }));
        assert(self.rooms@ =~= slot_store(old_rooms, index as nat, RoomDimensions { width, height }));
    }

    /// The dimensions remembered for z index `z_index`, if any.
    pub fn get_room_from_storage(&self, z_index: i32) -> (r: Option<&RoomDimensions>)
        ensures
            match r {
                Some(d) => self.lookup(z_index as int) == Some(*d),
                None => self.lookup(z_index as int) is None,
            },
    {
        let index = Self::z_to_index(z_index);
        if index < self.rooms.len() {
            return self.rooms[index].as_ref();
        }
        None
    }
}

/// Reading back: after a room is recorded for `z`, the storage gives that
/// room for every z index with the same absolute value, and what it gave
/// before for every other z index.
pub proof fn lemma_get_after_add(a: RoomArray, b: RoomArray, z: i32, width: usize, height: usize, z2: i32)
    requires
        b.rooms@ == slot_store(a.rooms@, slot_of(z as int) as nat, RoomDimensions { width, height }),
    ensures
        b.lookup(z2 as int) == if slot_of(z2 as int) == slot_of(z as int) {
            Some(RoomDimensions { width, height })
        } else {
            a.lookup(z2 as int)
        },
{
}

/// A z index and its negation share one slot.
pub proof fn lemma_sign_ignored(a: RoomArray, z: i32)
    ensures
        a.lookup(z as int) == a.lookup(-z),
{
}

/// Recording twice under the same slot keeps only the second room.
pub proof fn lemma_last_add_wins(
    rooms: Seq<Option<RoomDimensions>>,
    i: nat,
    first: RoomDimensions,
    second: RoomDimensions,
)
    ensures
        slot_store(slot_store(rooms, i, first), i, second) == slot_store(rooms, i, second),
{
    assert(slot_store(slot_store(rooms, i, first), i, second) =~= slot_store(rooms, i, second));
}

/// Recording under two different slots gives the same storage in either order.
pub proof fn lemma_adds_commute(
    rooms: Seq<Option<RoomDimensions>>,
    i: nat,
    j: nat,
    di: RoomDimensions,
    dj: RoomDimensions,
)
    requires
        i != j,
    ensures
        slot_store(slot_store(rooms, i, di), j, dj) == slot_store(slot_store(rooms, j, dj), i, di),
{
    assert(slot_store(slot_store(rooms, i, di), j, dj) =~= slot_store(slot_store(rooms, j, dj), i, di));
}

} // verus!

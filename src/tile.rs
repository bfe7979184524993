use crate::ids::{BuildingID, ResourceEntry, ID_SPACE};
use vstd::prelude::*;

verus! {

/// Slots of one building type on a tile: how many are taken and how many there
/// are. Extractors never take more than there are; other building types also mark
/// the slots they stand on, and may run past the room.
#[derive(Clone, Copy, Debug, PartialEq, Eq, Structural)]
pub struct Slots {
    pub used: u32,
    pub total: u32,
}

impl Slots {
    pub open spec fn wf(&self) -> bool {
        self.used <= self.total
    }
}

/// What a tile offers: its extractor slots by building type, and its raw resources.
#[derive(Debug)]
pub struct PlayerResources {
    slots: Vec<Option<Slots>>,
    amounts: Vec<ResourceEntry>,
}

/// The basic unit of the map. Holds raw resources ready to be extracted.
#[derive(Debug)]
pub struct Tile {
    pub resources: PlayerResources,
    players: Vec<String>,
}

impl Tile {
    /// A slot table for every building type.
    pub open spec fn wf(&self) -> bool {
        self.spec_slots().len() == ID_SPACE
    }

    /// Entry `i` is the slots for building type `i`, if the tile has any.
    pub closed spec fn spec_slots(&self) -> Seq<Option<Slots>> {
        self.resources.slots@
    }

    pub open spec fn spec_slot(&self, id: BuildingID) -> Option<Slots> {
        self.spec_slots()[id.0 as int]
    }

    /// Free slots for building type `id`: none where the tile has no slots for it,
    /// or where they are all taken.
    pub open spec fn spec_free(&self, id: BuildingID) -> int {
        match self.spec_slot(id) {
            Some(s) => if s.used <= s.total {
                s.total - s.used
            } else {
                0
            },
            None => 0,
        }
    }

    /// A tile without slots or resources.
    pub fn new() -> (t: Tile)
        ensures
            t.wf(),
            forall|i: int| 0 <= i < ID_SPACE ==> #[trigger] t.spec_slots()[i] is None,
    {
        let mut slots: Vec<Option<Slots>> = Vec::new();
        let mut i: usize = 0;
        while i < ID_SPACE
            invariant
                i <= ID_SPACE,
                slots@.len() == i,
                forall|k: int| 0 <= k < i ==> #[trigger] slots@[k] is None,
            decreases ID_SPACE - i,
        {
            slots.push(None);
            i = i + 1;
        }
        Tile { resources: PlayerResources { slots, amounts: Vec::new() }, players: Vec::new() }
    }

    /// A tile with the given slot table, one entry per building type; none if the
    /// table is not complete.
    pub fn restore(slots: Vec<Option<Slots>>) -> (t: Option<Tile>)
        ensures
            t is Some <==> slots@.len() == ID_SPACE,
            t matches Some(u) ==> u.wf() && u.spec_slots() == slots@,
    {
        if slots.len() != ID_SPACE {
            return None;
        }
        Some(Tile { resources: PlayerResources { slots, amounts: Vec::new() }, players: Vec::new() })
    }

    /// A copy of the tile, with the same slots.
    pub fn duplicate(&self) -> (t: Tile)
        requires
            self.wf(),
        ensures
            t.wf(),
            t.spec_slots() == self.spec_slots(),
    {
        let mut slots: Vec<Option<Slots>> = Vec::new();
        let mut i: usize = 0;
        while i < ID_SPACE
            invariant
                self.wf(),
                i <= ID_SPACE,
                slots@ == self.spec_slots().subrange(0, i as int),
            decreases ID_SPACE - i,
        {
            slots.push(self.resources.slots[i]);
            proof {
                assert(slots@ =~= self.spec_slots().subrange(0, i + 1));
            }
            i = i + 1;
        }
        proof {
            assert(slots@ =~= self.spec_slots());
        }
        let mut amounts: Vec<ResourceEntry> = Vec::new();
        let mut k: usize = 0;
        while k < self.resources.amounts.len()
            invariant
                k <= self.resources.amounts@.len(),
            decreases self.resources.amounts@.len() - k,
        {
            amounts.push(self.resources.amounts[k]);
            k = k + 1;
        }
        let mut players: Vec<String> = Vec::new();
        let mut n: usize = 0;
        while n < self.players.len()
            invariant
                n <= self.players@.len(),
            decreases self.players@.len() - n,
        {
            players.push(self.players[n].clone());
            n = n + 1;
        }
        Tile { resources: PlayerResources { slots, amounts }, players }
    }

    /// The slots for building type `id`, if the tile has any.
    pub fn slot(&self, id: BuildingID) -> (r: Option<Slots>)
        requires
            self.wf(),
        ensures
            r == self.spec_slot(id),
    {
        self.resources.slots[id.0 as usize]
    }

    /// Gives the tile `total` slots for building type `id`, none of them used.
    pub fn set_slots(&mut self, id: BuildingID, total: u32)
        requires
            old(self).wf(),
        ensures
            final(self).wf(),
            final(self).spec_slots() == old(self).spec_slots().update(
                id.0 as int,
                Some(Slots { used: 0, total }),
            ),
    {
        self.resources.slots.set(id.0 as usize, Some(Slots { used: 0, total }));
    }

    /// Marks `amount` more slots of building type `id` as used, where the tile has
    /// slots for it.
    pub fn occupy(&mut self, id: BuildingID, amount: u32)
        requires
            old(self).wf(),
            old(self).spec_slot(id) matches Some(s) ==> s.used + amount <= u32::MAX,
        ensures
            final(self).wf(),
            old(self).spec_slot(id) is None ==> final(self).spec_slots() == old(self).spec_slots(),
            old(self).spec_slot(id) matches Some(s) ==> final(self).spec_slots()
                == old(self).spec_slots().update(
                id.0 as int,
                Some(Slots { used: (s.used + amount) as u32, total: s.total }),
            ),
    {
        match self.resources.slots[id.0 as usize] {
            Some(s) => {
                self.resources.slots.set(
                    id.0 as usize,
                    Some(Slots { used: s.used + amount, total: s.total }),
                );
            },
            None => {},
        }
    }

    /// Marks `amount` used slots of building type `id` as free again, where the tile
    /// has slots for it.
    pub fn vacate(&mut self, id: BuildingID, amount: u32)
        requires
            old(self).wf(),
            old(self).spec_slot(id) matches Some(s) ==> amount <= s.used,
        ensures
            final(self).wf(),
            old(self).spec_slot(id) is None ==> final(self).spec_slots() == old(self).spec_slots(),
            old(self).spec_slot(id) matches Some(s) ==> final(self).spec_slots()
                == old(self).spec_slots().update(
                id.0 as int,
                Some(Slots { used: (s.used - amount) as u32, total: s.total }),
            ),
    {
        match self.resources.slots[id.0 as usize] {
            Some(s) => {
                self.resources.slots.set(
                    id.0 as usize,
                    Some(Slots { used: s.used - amount, total: s.total }),
                );
            },
            None => {},
        }
    }
}

} // verus!

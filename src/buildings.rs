use crate::ids::{distinct_ids, names, names_in, BuildingID, ResourceEntry, ResourceID, ID_SPACE};
use crate::resources::AllResources;
use vstd::prelude::*;

verus! {

/// Template of one building type: what it makes, what it uses up, how many people
/// it employs and what it costs to put up.
#[derive(Debug)]
pub struct Building {
    /// Name shown to the player.
    pub name: String,
    /// True if it extracts raw resources from the slots of a tile.
    pub extractor: bool,
    /// Building types that must be owned before this one.
    pub prerequisites: Vec<BuildingID>,
    /// Resources made per worker and tick.
    pub produced: Vec<ResourceEntry>,
    /// Resources used up per worker and tick.
    pub consumed: Vec<ResourceEntry>,
    /// Workers that one building of this type can employ.
    pub max_workers: u32,
    /// Resources spent on one building of this type.
    pub construction_cost: Vec<ResourceEntry>,
}

impl Building {
    /// Each of its resource lists names a resource at most once.
    pub open spec fn wf(&self) -> bool {
        &&& distinct_ids(self.produced@)
        &&& distinct_ids(self.consumed@)
        &&& distinct_ids(self.construction_cost@)
    }
}

/// The table of all building types, by identifier.
#[derive(Debug)]
pub struct AllBuildings {
    table: Vec<Option<Building>>,
}

impl AllBuildings {
    pub open spec fn wf(&self) -> bool {
        self.spec_table().len() == ID_SPACE
    }

    /// Entry `i` is the building type with identifier `i`, if there is one.
    pub closed spec fn spec_table(&self) -> Seq<Option<Building>> {
        self.table@
    }

    pub open spec fn spec_get(&self, id: BuildingID) -> Option<Building> {
        self.spec_table()[id.0 as int]
    }

    /// Every building type of the table has well-formed resource lists.
    pub open spec fn all_wf(&self) -> bool {
        forall|i: int| 0 <= i < ID_SPACE ==> (#[trigger] self.spec_table()[i] is Some
            ==> self.spec_table()[i]->0.wf())
    }

    /// A table without any building type.
    pub fn new() -> (r: AllBuildings)
        ensures
            r.wf(),
            forall|i: int| 0 <= i < ID_SPACE ==> #[trigger] r.spec_table()[i] is None,
    {
        let mut table: Vec<Option<Building>> = Vec::new();
        let mut i: usize = 0;
        while i < ID_SPACE
            invariant
                i <= ID_SPACE,
                table@.len() == i,
                forall|k: int| 0 <= k < i ==> #[trigger] table@[k] is None,
            decreases ID_SPACE - i,
        {
            table.push(None);
            i = i + 1;
        }
        AllBuildings { table }
    }

    /// Puts `building` in the table under `id`, in place of any earlier one.
    pub fn insert(&mut self, id: BuildingID, building: Building)
        requires
            old(self).wf(),
        ensures
            final(self).wf(),
            final(self).spec_table() == old(self).spec_table().update(id.0 as int, Some(building)),
    {
        self.table.set(id.0 as usize, Some(building));
    }

    /// The building type with identifier `id`, if there is one.
    pub fn get(&self, id: BuildingID) -> (r: Option<&Building>)
        requires
            self.wf(),
        ensures
            r matches Some(b) ==> self.spec_get(id) == Some(*b),
            r is None ==> self.spec_get(id) is None,
    {
        match &self.table[id.0 as usize] {
            Some(b) => Some(b),
            None => None,
        }
    }
}

/// The catalog holds building type `b`, and it uses up resource `r`.
pub open spec fn consumes(catalog: AllBuildings, b: int, r: ResourceID) -> bool {
    &&& catalog.spec_table()[b] is Some
    &&& names(catalog.spec_table()[b]->0.consumed@, r)
}

/// The catalog holds building type `b`, and it uses up nothing.
pub open spec fn consumes_nothing(catalog: AllBuildings, b: int) -> bool {
    &&& catalog.spec_table()[b] is Some
    &&& catalog.spec_table()[b]->0.consumed@.len() == 0
}

/// Building types below `n` that use up resource `r`, in increasing order.
pub open spec fn consumers_below(catalog: AllBuildings, r: ResourceID, n: int) -> Seq<BuildingID>
    decreases n,
{
    if n <= 0 {
        Seq::empty()
    } else if consumes(catalog, n - 1, r) {
        consumers_below(catalog, r, n - 1).push(BuildingID((n - 1) as u8))
    } else {
        consumers_below(catalog, r, n - 1)
    }
}

/// Building types below `n` that use up nothing, in increasing order.
pub open spec fn free_below(catalog: AllBuildings, n: int) -> Seq<BuildingID>
    decreases n,
{
    if n <= 0 {
        Seq::empty()
    } else if consumes_nothing(catalog, n - 1) {
        free_below(catalog, n - 1).push(BuildingID((n - 1) as u8))
    } else {
        free_below(catalog, n - 1)
    }
}

pub proof fn lemma_consumers_below_len(catalog: AllBuildings, r: ResourceID, n: int)
    requires
        n >= 0,
    ensures
        consumers_below(catalog, r, n).len() <= n,
    decreases n,
{
    if n > 0 {
        lemma_consumers_below_len(catalog, r, n - 1);
    }
}

/// Building types listed in `consumers_below(catalog, r, n)` are below `n` and use up `r`.
pub proof fn lemma_consumers_below_members(catalog: AllBuildings, r: ResourceID, n: int)
    requires
        0 <= n <= ID_SPACE,
    ensures
        forall|k: int|
            0 <= k < consumers_below(catalog, r, n).len() ==> {
                let b = #[trigger] consumers_below(catalog, r, n)[k];
                &&& (b.0 as int) < n
                &&& consumes(catalog, b.0 as int, r)
            },
    decreases n,
{
    if n > 0 {
        lemma_consumers_below_members(catalog, r, n - 1);
        let prev = consumers_below(catalog, r, n - 1);
        let cur = consumers_below(catalog, r, n);
        assert forall|k: int| 0 <= k < cur.len() implies {
            let b = #[trigger] cur[k];
            &&& (b.0 as int) < n
            &&& consumes(catalog, b.0 as int, r)
        } by {
            if k < prev.len() {
                assert(cur[k] == prev[k]);
            }
        }
    }
}

/// Building types listed in `free_below(catalog, n)` are below `n` and use up nothing.
pub proof fn lemma_free_below_members(catalog: AllBuildings, n: int)
    requires
        0 <= n <= ID_SPACE,
    ensures
        forall|k: int|
            0 <= k < free_below(catalog, n).len() ==> {
                let b = #[trigger] free_below(catalog, n)[k];
                &&& (b.0 as int) < n
                &&& consumes_nothing(catalog, b.0 as int)
            },
    decreases n,
{
    if n > 0 {
        lemma_free_below_members(catalog, n - 1);
        let prev = free_below(catalog, n - 1);
        let cur = free_below(catalog, n);
        assert forall|k: int| 0 <= k < cur.len() implies {
            let b = #[trigger] cur[k];
            &&& (b.0 as int) < n
            &&& consumes_nothing(catalog, b.0 as int)
        } by {
            if k < prev.len() {
                assert(cur[k] == prev[k]);
            }
        }
    }
}

/// Reverse index of the catalog: for each resource, the building types that use it
/// up; and apart, the building types that use up nothing.
#[derive(Debug)]
pub struct DependencyTree {
    consumers: Vec<Vec<BuildingID>>,
    free: Vec<BuildingID>,
}

impl DependencyTree {
    /// Entry `r` lists the building types that use up resource `r`.
    pub closed spec fn spec_consumers(&self) -> Seq<Seq<BuildingID>> {
        self.consumers@.map_values(|v: Vec<BuildingID>| v@)
    }

    /// The building types that use up nothing.
    pub closed spec fn spec_free(&self) -> Seq<BuildingID> {
        self.free@
    }

    /// The index lists exactly what the catalog says, in increasing order of type.
    pub open spec fn indexes(&self, catalog: AllBuildings) -> bool {
        &&& self.spec_consumers().len() == ID_SPACE
        &&& forall|r: int|
            0 <= r < ID_SPACE ==> #[trigger] self.spec_consumers()[r] == consumers_below(
                catalog,
                ResourceID(r as u8),
                ID_SPACE as int,
            )
        &&& self.spec_free() == free_below(catalog, ID_SPACE as int)
    }

    /// Builds the index of `catalog`.
    pub fn new(catalog: &AllBuildings) -> (tree: DependencyTree)
        requires
            catalog.wf(),
            catalog.all_wf(),
        ensures
            tree.indexes(*catalog),
    {
        let mut consumers: Vec<Vec<BuildingID>> = Vec::new();
        let mut r: usize = 0;
        while r < ID_SPACE
            invariant
                r <= ID_SPACE,
                consumers@.len() == r,
                forall|k: int| 0 <= k < r ==> (#[trigger] consumers@[k])@ == Seq::<BuildingID>::empty(),
            decreases ID_SPACE - r,
        {
            consumers.push(Vec::new());
            r = r + 1;
        }
        let mut free: Vec<BuildingID> = Vec::new();
        let mut b: usize = 0;
        while b < ID_SPACE
            invariant
                b <= ID_SPACE,
                catalog.wf(),
                catalog.all_wf(),
                consumers@.len() == ID_SPACE,
                forall|k: int|
                    0 <= k < ID_SPACE ==> (#[trigger] consumers@[k])@ == consumers_below(
                        *catalog,
                        ResourceID(k as u8),
                        b as int,
                    ),
                free@ == free_below(*catalog, b as int),
            decreases ID_SPACE - b,
        {
            match catalog.get(BuildingID(b as u8)) {
                Some(building) => {
                    if building.consumed.len() > 0 {
                        let mut j: usize = 0;
                        while j < building.consumed.len()
                            invariant
                                b < ID_SPACE,
                                j <= building.consumed@.len(),
                                distinct_ids(building.consumed@),
                                consumers@.len() == ID_SPACE,
                                forall|k: int|
                                    0 <= k < ID_SPACE ==> (#[trigger] consumers@[k])@ == if names_in(
                                        building.consumed@,
                                        j as int,
                                        ResourceID(k as u8),
                                    ) {
                                        consumers_below(*catalog, ResourceID(k as u8), b as int).push(
                                            BuildingID(b as u8),
                                        )
                                    } else {
                                        consumers_below(*catalog, ResourceID(k as u8), b as int)
                                    },
                            decreases building.consumed@.len() - j,
                        {
                            let rid = building.consumed[j].id;
                            let idx = rid.0 as usize;
                            assert(!names_in(building.consumed@, j as int, rid));
                            consumers[idx].push(BuildingID(b as u8));
                            proof {
                                assert forall|k: int| 0 <= k < ID_SPACE implies (
                                #[trigger] consumers@[k])@ == if names_in(
                                    building.consumed@,
                                    j + 1,
                                    ResourceID(k as u8),
                                ) {
                                    consumers_below(*catalog, ResourceID(k as u8), b as int).push(
                                        BuildingID(b as u8),
                                    )
                                } else {
                                    consumers_below(*catalog, ResourceID(k as u8), b as int)
                                } by {
                                    if k == idx {
                                        assert(building.consumed@[j as int].id == ResourceID(k as u8));
                                    } else {
                                        if names_in(building.consumed@, j + 1, ResourceID(k as u8)) {
                                            let w = choose|w: int|
                                                0 <= w < j + 1 && building.consumed@[w].id
                                                    == ResourceID(k as u8);
                                            assert(w != j);
                                        }
                                    }
                                }
                            }
                            j = j + 1;
                        }
                        proof {
                            assert forall|k: int| 0 <= k < ID_SPACE implies (
                            #[trigger] consumers@[k])@ == consumers_below(
                                *catalog,
                                ResourceID(k as u8),
                                b + 1,
                            ) by {
                                assert(catalog.spec_table()[b as int] == Some(*building));
                                assert(ResourceID(k as u8).0 == k);
                            }
                        }
                    } else {
                        free.push(BuildingID(b as u8));
                        proof {
                            assert forall|k: int| 0 <= k < ID_SPACE implies (
                            #[trigger] consumers@[k])@ == consumers_below(
                                *catalog,
                                ResourceID(k as u8),
                                b + 1,
                            ) by {
                                assert(!consumes(*catalog, b as int, ResourceID(k as u8)));
                            }
                        }
                    }
                },
                None => {},
            }
            b = b + 1;
        }
        DependencyTree { consumers, free }
    }

    /// The building types that use up resource `r`.
    pub fn consumers_of(&self, r: ResourceID) -> (v: &Vec<BuildingID>)
        requires
            self.spec_consumers().len() == ID_SPACE,
        ensures
            v@ == self.spec_consumers()[r.0 as int],
    {
        &self.consumers[r.0 as usize]
    }

    /// The building types that use up nothing.
    pub fn free(&self) -> (v: &Vec<BuildingID>)
        ensures
            v@ == self.spec_free(),
    {
        &self.free
    }
}

/// Why a catalog was refused.
#[derive(Debug, Clone, Copy, PartialEq, Eq, Structural)]
pub enum DataError {
    /// The building type names a prerequisite that the catalog lacks.
    MissingPrerequisite(BuildingID, BuildingID),
    /// The building type names a resource that the resource table lacks.
    MissingResource(BuildingID, ResourceID),
    /// One of the building type's resource lists names a resource twice.
    RepeatedResource(BuildingID),
}

/// Every resource named in the list is in the resource table.
pub open spec fn all_known(s: Seq<ResourceEntry>, resources: AllResources) -> bool {
    forall|i: int| 0 <= i < s.len() ==> resources.spec_has(#[trigger] s[i].id)
}

/// Building type `b` of the catalog refers only to what exists, and names each
/// resource at most once in each list.
pub open spec fn building_valid(catalog: AllBuildings, resources: AllResources, b: int) -> bool {
    let bd = catalog.spec_table()[b]->0;
    catalog.spec_table()[b] is Some ==> {
        &&& bd.wf()
        &&& all_known(bd.produced@, resources)
        &&& all_known(bd.consumed@, resources)
        &&& all_known(bd.construction_cost@, resources)
        &&& forall|i: int|
            0 <= i < bd.prerequisites@.len() ==> catalog.spec_table()[(
            #[trigger] bd.prerequisites@[i]).0 as int] is Some
    }
}

pub open spec fn catalog_valid(catalog: AllBuildings, resources: AllResources) -> bool {
    forall|b: int| 0 <= b < ID_SPACE ==> #[trigger] building_valid(catalog, resources, b)
}

/// First resource of the list that the table lacks, if any.
fn find_unknown(s: &Vec<ResourceEntry>, resources: &AllResources) -> (r: Option<ResourceID>)
    requires
        resources.wf(),
    ensures
        r is None <==> all_known(s@, *resources),
        r matches Some(id) ==> names(s@, id) && !resources.spec_has(id),
{
    let mut i: usize = 0;
    while i < s.len()
        invariant
            resources.wf(),
            i <= s@.len(),
            forall|k: int| 0 <= k < i ==> resources.spec_has(#[trigger] s@[k].id),
        decreases s@.len() - i,
    {
        if !resources.contains(s[i].id) {
            assert(names_in(s@, s@.len() as int, s@[i as int].id));
            return Some(s[i].id);
        }
        i = i + 1;
    }
    None
}

/// Whether some resource is named twice in the list.
fn has_repeat(s: &Vec<ResourceEntry>) -> (r: bool)
    ensures
        r == !distinct_ids(s@),
{
    let mut i: usize = 0;
    while i < s.len()
        invariant
            i <= s@.len(),
            forall|a: int, c: int| 0 <= a < i && a < c < s@.len() ==> s@[a].id != s@[c].id,
        decreases s@.len() - i,
    {
        let mut j: usize = i + 1;
        while j < s.len()
            invariant
                i < s@.len(),
                i + 1 <= j <= s@.len(),
                forall|a: int, c: int| 0 <= a < i && a < c < s@.len() ==> s@[a].id != s@[c].id,
                forall|c: int| i < c < j ==> s@[i as int].id != s@[c].id,
            decreases s@.len() - j,
        {
            if s[i].id == s[j].id {
                return true;
            }
            j = j + 1;
        }
        i = i + 1;
    }
    false
}

/// Checks the catalog against the resource table and builds its dependency index.
///
/// Fails if a building type names a prerequisite or a resource that does not exist,
/// or names a resource twice in one list.
pub fn load_buildings(catalog: AllBuildings, resources: &AllResources) -> (r: Result<
    (AllBuildings, DependencyTree),
    DataError,
>)
    requires
        catalog.wf(),
        resources.wf(),
    ensures
        r is Ok <==> catalog_valid(catalog, *resources),
        r matches Ok((c, tree)) ==> c == catalog && c.all_wf() && tree.indexes(c),
        r matches Err(DataError::MissingResource(b, id)) ==> catalog.spec_get(b) is Some
            && !resources.spec_has(id),
        r matches Err(DataError::MissingPrerequisite(b, p)) ==> catalog.spec_get(b) is Some
            && catalog.spec_get(p) is None,
        r matches Err(DataError::RepeatedResource(b)) ==> catalog.spec_get(b) is Some
            && !catalog.spec_get(b)->0.wf(),
{
    let mut b: usize = 0;
    while b < ID_SPACE
        invariant
            b <= ID_SPACE,
            catalog.wf(),
            resources.wf(),
            forall|k: int| 0 <= k < b ==> #[trigger] building_valid(catalog, *resources, k),
        decreases ID_SPACE - b,
    {
        let id = BuildingID(b as u8);
        match catalog.get(id) {
            Some(building) => {
                if has_repeat(&building.produced) || has_repeat(&building.consumed) || has_repeat(
                    &building.construction_cost,
                ) {
                    assert(!building_valid(catalog, *resources, b as int));
                    return Err(DataError::RepeatedResource(id));
                }
                match find_unknown(&building.produced, resources) {
                    Some(rid) => {
                        assert(!building_valid(catalog, *resources, b as int));
                        return Err(DataError::MissingResource(id, rid));
                    },
                    None => {},
                }
                match find_unknown(&building.consumed, resources) {
                    Some(rid) => {
                        assert(!building_valid(catalog, *resources, b as int));
                        return Err(DataError::MissingResource(id, rid));
                    },
                    None => {},
                }
                match find_unknown(&building.construction_cost, resources) {
                    Some(rid) => {
                        assert(!building_valid(catalog, *resources, b as int));
                        return Err(DataError::MissingResource(id, rid));
                    },
                    None => {},
                }
                let mut i: usize = 0;
                while i < building.prerequisites.len()
                    invariant
                        catalog.wf(),
                        b < ID_SPACE,
                        id.0 == b,
                        catalog.spec_get(id) == Some(*building),
                        i <= building.prerequisites@.len(),
                        forall|k: int|
                            0 <= k < i ==> catalog.spec_table()[(
                            #[trigger] building.prerequisites@[k]).0 as int] is Some,
                    decreases building.prerequisites@.len() - i,
                {
                    let p = building.prerequisites[i];
                    match catalog.get(p) {
                        Some(_) => {},
                        None => {
                            assert(!building_valid(catalog, *resources, b as int));
                            return Err(DataError::MissingPrerequisite(id, p));
                        },
                    }
                    i = i + 1;
                }
                assert(building_valid(catalog, *resources, b as int));
            },
            None => {},
        }
        b = b + 1;
    }
    proof {
        assert forall|i: int| 0 <= i < ID_SPACE implies (#[trigger] catalog.spec_table()[i] is Some
            ==> catalog.spec_table()[i]->0.wf()) by {
            assert(building_valid(catalog, *resources, i));
        }
    }
    let tree = DependencyTree::new(&catalog);
    Ok((catalog, tree))
}

} // verus!

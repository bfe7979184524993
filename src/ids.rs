use vstd::prelude::*;

verus! {

/// Number of distinct identifiers of a building or resource type.
pub const ID_SPACE: usize = 256;

/// A small integer that names one building type of the catalog.
#[derive(Clone, Copy, Debug, PartialEq, Eq, Hash, Structural)]
pub struct BuildingID(pub u8);

/// A small integer that names one resource type of the catalog.
#[derive(Clone, Copy, Debug, PartialEq, Eq, Hash, Structural)]
pub struct ResourceID(pub u8);

/// A point of the world map; names one tile.
#[derive(Clone, Copy, Debug, PartialEq, Eq, Hash, Structural)]
pub struct Position {
    pub x: i32,
    pub y: i32,
}

/// A quantity of one resource.
#[derive(Clone, Copy, Debug, PartialEq, Eq, Hash, Structural)]
pub struct ResourceEntry {
    pub id: ResourceID,
    pub amount: u32,
}

/// No resource is named twice in the list.
pub open spec fn distinct_ids(s: Seq<ResourceEntry>) -> bool {
    forall|i: int, j: int| 0 <= i < j < s.len() ==> s[i].id != s[j].id
}

/// Some entry among the first `n` of the list names resource `r`.
pub open spec fn names_in(s: Seq<ResourceEntry>, n: int, r: ResourceID) -> bool {
    exists|k: int| 0 <= k < n && s[k].id == r
}

/// Some entry of the list names resource `r`.
pub open spec fn names(s: Seq<ResourceEntry>, r: ResourceID) -> bool {
    names_in(s, s.len() as int, r)
}

/// Total quantity of resource `r` over the first `n` entries of the list.
pub open spec fn total_in(s: Seq<ResourceEntry>, n: int, r: ResourceID) -> int
    decreases n,
{
    if n <= 0 {
        0
    } else {
        total_in(s, n - 1, r) + if s[n - 1].id == r {
            s[n - 1].amount as int
        } else {
            0
        }
    }
}

/// Total quantity of resource `r` that the list holds.
pub open spec fn total_of(s: Seq<ResourceEntry>, r: ResourceID) -> int {
    total_in(s, s.len() as int, r)
}

/// In a list that names each resource at most once, the total of a resource is the
/// quantity of its entry, or nothing where it has none.
pub proof fn lemma_total_distinct(s: Seq<ResourceEntry>, n: int, r: ResourceID)
    requires
        distinct_ids(s),
        0 <= n <= s.len(),
    ensures
        !names_in(s, n, r) ==> total_in(s, n, r) == 0,
        forall|k: int| 0 <= k < n && s[k].id == r ==> total_in(s, n, r) == s[k].amount,
        0 <= total_in(s, n, r) <= u32::MAX,
    decreases n,
{
    if n > 0 {
        lemma_total_distinct(s, n - 1, r);
        if s[n - 1].id == r {
            assert(!names_in(s, n - 1, r));
        } else {
            assert forall|k: int| 0 <= k < n && s[k].id == r implies total_in(s, n, r)
                == s[k].amount by {
                assert(k < n - 1);
            }
            if names_in(s, n, r) {
                let k = choose|k: int| 0 <= k < n && s[k].id == r;
                assert(k < n - 1);
            }
        }
    }
}

/// Whether the list names resource `r`.
pub fn lists(s: &Vec<ResourceEntry>, r: ResourceID) -> (b: bool)
    ensures
        b == names(s@, r),
{
    let mut i: usize = 0;
    while i < s.len()
        invariant
            i <= s@.len(),
            forall|k: int| 0 <= k < i ==> s@[k].id != r,
        decreases s@.len() - i,
    {
        if s[i].id == r {
            return true;
        }
        i = i + 1;
    }
    false
}

/// The quantity of resource `r` in a list that names each resource at most once;
/// zero where the list does not name it.
pub fn amount_in(s: &Vec<ResourceEntry>, r: ResourceID) -> (a: u32)
    requires
        distinct_ids(s@),
    ensures
        a as int == total_of(s@, r),
{
    let mut i: usize = 0;
    while i < s.len()
        invariant
            i <= s@.len(),
            distinct_ids(s@),
            forall|k: int| 0 <= k < i ==> s@[k].id != r,
        decreases s@.len() - i,
    {
        if s[i].id == r {
            proof {
                lemma_total_distinct(s@, s@.len() as int, r);
            }
            return s[i].amount;
        }
        i = i + 1;
    }
    proof {
        lemma_total_distinct(s@, s@.len() as int, r);
    }
    0
}

/// A list that does not name `r` among its first `n` entries holds none of it there;
/// the total grows with `n` and stays within `n` times the largest `u32`.
pub proof fn lemma_total_in(s: Seq<ResourceEntry>, n: int, r: ResourceID)
    requires
        0 <= n <= s.len(),
    ensures
        !names_in(s, n, r) ==> total_in(s, n, r) == 0,
        0 <= total_in(s, n, r) <= n * u32::MAX,
        forall|j: int| 0 <= j <= n ==> total_in(s, j, r) <= total_in(s, n, r),
    decreases n,
{
    if n > 0 {
        lemma_total_in(s, n - 1, r);
        if !names_in(s, n, r) {
            assert(s[n - 1].id != r);
        }
        assert forall|j: int| 0 <= j <= n implies total_in(s, j, r) <= total_in(s, n, r) by {
            if j < n {
                assert(total_in(s, j, r) <= total_in(s, n - 1, r));
            }
        }
    }
}

/// Total quantity of resource `r` that the list holds.
pub fn total_amount(s: &Vec<ResourceEntry>, r: ResourceID) -> (t: u128)
    ensures
        t as int == total_of(s@, r),
{
    let mut t: u128 = 0;
    let mut i: usize = 0;
    while i < s.len()
        invariant
            i <= s@.len(),
            t as int == total_in(s@, i as int, r),
        decreases s@.len() - i,
    {
        proof {
            lemma_total_in(s@, i as int, r);
            assert(i * 0xffff_ffff <= 0xffff_ffff_ffff_ffff * 0xffff_ffff) by (nonlinear_arith)
                requires i <= 0xffff_ffff_ffff_ffff;
        }
        if s[i].id == r {
            t = t + s[i].amount as u128;
        }
        i = i + 1;
    }
    t
}

} // verus!

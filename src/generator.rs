use crate::buildings::{
    consumers_below, consumes, free_below, lemma_consumers_below_len, lemma_consumers_below_members,
    lemma_free_below_members, AllBuildings, DependencyTree,
};
use crate::ids::{amount_in, lists, lemma_total_distinct, names, total_of, BuildingID, ResourceID, ID_SPACE};
use crate::owned::{OwnedBuilding, Stockpile};
use vstd::prelude::*;

verus! {

/// Full efficiency, in millionths: ratios run from 0 to this value.
pub const RATIO_ONE: u64 = 1_000_000;

/// Ratio of building type `b`, full where none is set.
pub open spec fn ratio_or_one(rs: Seq<Option<u64>>, b: BuildingID) -> int {
    match rs[b.0 as int] {
        Some(x) => x as int,
        None => RATIO_ONE as int,
    }
}

/// Quantity of resource `r` that one worker of building type `b` uses up per tick.
pub open spec fn consumed_amount(catalog: AllBuildings, b: BuildingID, r: ResourceID) -> int {
    match catalog.spec_get(b) {
        Some(bd) => total_of(bd.consumed@, r),
        None => 0,
    }
}

/// Quantity of resource `r` that one worker of building type `b` makes per tick.
pub open spec fn produced_amount(catalog: AllBuildings, b: BuildingID, r: ResourceID) -> int {
    match catalog.spec_get(b) {
        Some(bd) => total_of(bd.produced@, r),
        None => 0,
    }
}

pub open spec fn hired_of(owned: Seq<OwnedBuilding>, b: BuildingID) -> int {
    owned[b.0 as int].spec_hired()
}

/// What the player holds of resource `r`; nothing without a stockpile.
pub open spec fn available(stocks: Seq<Option<Stockpile>>, r: ResourceID) -> int {
    match stocks[r.0 as int] {
        Some(s) => s.spec_current(),
        None => 0,
    }
}

/// Demand for resource `r` of the first `n` listed building types at ratios `rs`,
/// in millionths of a unit.
pub open spec fn needed_in(
    catalog: AllBuildings,
    owned: Seq<OwnedBuilding>,
    rs: Seq<Option<u64>>,
    cons: Seq<BuildingID>,
    r: ResourceID,
    n: int,
) -> int
    decreases n,
{
    if n <= 0 {
        0
    } else {
        needed_in(catalog, owned, rs, cons, r, n - 1) + consumed_amount(catalog, cons[n - 1], r)
            * hired_of(owned, cons[n - 1]) * ratio_or_one(rs, cons[n - 1])
    }
}

/// Share of the demand that the stock covers, at most full; full where nothing is
/// demanded.
pub open spec fn resource_ratio(available: int, needed: int) -> int {
    if needed == 0 {
        RATIO_ONE as int
    } else if available * RATIO_ONE * RATIO_ONE / needed >= RATIO_ONE {
        RATIO_ONE as int
    } else {
        available * RATIO_ONE * RATIO_ONE / needed
    }
}

/// Ratios after lowering the first `n` listed building types to at most `x`.
pub open spec fn clamp_in(rs: Seq<Option<u64>>, cons: Seq<BuildingID>, n: int, x: int) -> Seq<
    Option<u64>,
>
    decreases n,
{
    if n <= 0 {
        rs
    } else {
        let prev = clamp_in(rs, cons, n - 1, x);
        let cur = ratio_or_one(prev, cons[n - 1]);
        prev.update(
            cons[n - 1].0 as int,
            Some(
                if cur <= x {
                    cur as u64
                } else {
                    x as u64
                },
            ),
        )
    }
}

/// Full ratio for the first `n` building types that use up nothing; no ratio set
/// for the others.
pub open spec fn initial_in(free: Seq<BuildingID>, n: int) -> Seq<Option<u64>>
    decreases n,
{
    if n <= 0 {
        Seq::new(ID_SPACE as nat, |i: int| None)
    } else {
        initial_in(free, n - 1).update(free[n - 1].0 as int, Some(RATIO_ONE))
    }
}

/// Ratios after the single pass over resources below `k`, each resource lowering its
/// consumers to the share of their demand that its stock covers.
pub open spec fn ratios_after(
    catalog: AllBuildings,
    tree: DependencyTree,
    owned: Seq<OwnedBuilding>,
    stocks: Seq<Option<Stockpile>>,
    k: int,
) -> Seq<Option<u64>>
    decreases k,
{
    if k <= 0 {
        initial_in(tree.spec_free(), tree.spec_free().len() as int)
    } else {
        let prev = ratios_after(catalog, tree, owned, stocks, k - 1);
        let cons = tree.spec_consumers()[k - 1];
        let r = ResourceID((k - 1) as u8);
        clamp_in(
            prev,
            cons,
            cons.len() as int,
            resource_ratio(available(stocks, r), needed_in(catalog, owned, prev, cons, r, cons.len() as int)),
        )
    }
}

/// Efficiency ratio of every building type, by identifier.
pub open spec fn solved_ratios(
    catalog: AllBuildings,
    tree: DependencyTree,
    owned: Seq<OwnedBuilding>,
    stocks: Seq<Option<Stockpile>>,
) -> Seq<Option<u64>> {
    ratios_after(catalog, tree, owned, stocks, ID_SPACE as int)
}

/// Every ratio set is at most full, and there is one per building type.
pub open spec fn ratios_bounded(rs: Seq<Option<u64>>) -> bool {
    &&& rs.len() == ID_SPACE
    &&& forall|i: int| 0 <= i < ID_SPACE ==> (#[trigger] rs[i] matches Some(x) ==> x <= RATIO_ONE)
}

/// Part of a nominal quantity that a ratio lets through, rounded toward zero.
pub open spec fn contribution(amount: int, hired: int, ratio: int) -> int {
    amount * hired * ratio / RATIO_ONE as int
}

/// Building type `b` is owned and in the catalog.
pub open spec fn active(catalog: AllBuildings, owned: Seq<OwnedBuilding>, b: int) -> bool {
    owned[b].spec_count() > 0 && catalog.spec_table()[b] is Some
}

/// Net change of resource `r` per tick due to building type `b`.
pub open spec fn term(
    catalog: AllBuildings,
    owned: Seq<OwnedBuilding>,
    rs: Seq<Option<u64>>,
    b: int,
    r: ResourceID,
) -> int {
    let id = BuildingID(b as u8);
    if active(catalog, owned, b) {
        contribution(produced_amount(catalog, id, r), hired_of(owned, id), ratio_or_one(rs, id))
            - contribution(consumed_amount(catalog, id, r), hired_of(owned, id), ratio_or_one(rs, id))
    } else {
        0
    }
}

/// Building type `b` is owned and makes or uses up resource `r`.
pub open spec fn touches(catalog: AllBuildings, owned: Seq<OwnedBuilding>, b: int, r: ResourceID) -> bool {
    &&& active(catalog, owned, b)
    &&& (names(catalog.spec_table()[b]->0.produced@, r) || names(
        catalog.spec_table()[b]->0.consumed@,
        r,
    ))
}

/// Net change of resource `r` per tick due to building types below `n`.
pub open spec fn delta_below(
    catalog: AllBuildings,
    owned: Seq<OwnedBuilding>,
    rs: Seq<Option<u64>>,
    r: ResourceID,
    n: int,
) -> int
    decreases n,
{
    if n <= 0 {
        0
    } else {
        delta_below(catalog, owned, rs, r, n - 1) + term(catalog, owned, rs, n - 1, r)
    }
}

/// Some building type below `n` touches resource `r`.
pub open spec fn touched_below(catalog: AllBuildings, owned: Seq<OwnedBuilding>, r: ResourceID, n: int) -> bool
    decreases n,
{
    if n <= 0 {
        false
    } else {
        touched_below(catalog, owned, r, n - 1) || touches(catalog, owned, n - 1, r)
    }
}

/// Net change per tick of every resource that an owned building type makes or uses
/// up, by identifier.
pub open spec fn gen_map(catalog: AllBuildings, owned: Seq<OwnedBuilding>, rs: Seq<Option<u64>>) -> Seq<
    Option<int>,
> {
    Seq::new(
        ID_SPACE as nat,
        |r: int|
            if touched_below(catalog, owned, ResourceID(r as u8), ID_SPACE as int) {
                Some(delta_below(catalog, owned, rs, ResourceID(r as u8), ID_SPACE as int))
            } else {
                None
            },
    )
}

/// Every net change in the table is far from the limits of `i128`.
pub open spec fn map_bounded(m: Seq<Option<int>>) -> bool {
    forall|i: int|
        0 <= i < m.len() ==> (#[trigger] m[i] matches Some(d) ==> -DELTA_LIMIT <= d <= DELTA_LIMIT)
}

/// Bound on any net change per tick: 256 building types, each under 2^84.
pub const DELTA_LIMIT: i128 = 0x1_0000_0000_0000_0000_0000_0000_0000;

proof fn lemma_clamp_bounded(rs: Seq<Option<u64>>, cons: Seq<BuildingID>, n: int, x: int)
    requires
        ratios_bounded(rs),
        0 <= n <= cons.len(),
        0 <= x <= RATIO_ONE,
    ensures
        ratios_bounded(clamp_in(rs, cons, n, x)),
        forall|i: int|
            0 <= i < ID_SPACE && (forall|k: int| 0 <= k < n ==> (#[trigger] cons[k]).0 != i) ==> (
            #[trigger] clamp_in(rs, cons, n, x)[i]) == rs[i],
    decreases n,
{
    if n > 0 {
        lemma_clamp_bounded(rs, cons, n - 1, x);
    }
}

proof fn lemma_initial(free: Seq<BuildingID>, n: int)
    requires
        0 <= n <= free.len(),
    ensures
        ratios_bounded(initial_in(free, n)),
        forall|k: int| 0 <= k < n ==> initial_in(free, n)[(#[trigger] free[k]).0 as int] == Some(RATIO_ONE),
    decreases n,
{
    if n > 0 {
        lemma_initial(free, n - 1);
    }
}

/// Every ratio that the pass sets is between none and full, and a building type that
/// uses up nothing keeps the full ratio.
pub proof fn lemma_ratio_bounds(
    catalog: AllBuildings,
    tree: DependencyTree,
    owned: Seq<OwnedBuilding>,
    stocks: Seq<Option<Stockpile>>,
)
    requires
        tree.indexes(catalog),
        catalog.wf(),
        catalog.all_wf(),
        owned.len() == ID_SPACE,
    ensures
        ratios_bounded(solved_ratios(catalog, tree, owned, stocks)),
        forall|k: int|
            0 <= k < tree.spec_free().len() ==> solved_ratios(catalog, tree, owned, stocks)[(
            #[trigger] tree.spec_free()[k]).0 as int] == Some(RATIO_ONE),
{
    lemma_ratios_after(catalog, tree, owned, stocks, ID_SPACE as int);
}

proof fn lemma_ratios_after(
    catalog: AllBuildings,
    tree: DependencyTree,
    owned: Seq<OwnedBuilding>,
    stocks: Seq<Option<Stockpile>>,
    k: int,
)
    requires
        tree.indexes(catalog),
        catalog.wf(),
        catalog.all_wf(),
        owned.len() == ID_SPACE,
        0 <= k <= ID_SPACE,
    ensures
        ratios_bounded(ratios_after(catalog, tree, owned, stocks, k)),
        forall|j: int|
            0 <= j < tree.spec_free().len() ==> ratios_after(catalog, tree, owned, stocks, k)[(
            #[trigger] tree.spec_free()[j]).0 as int] == Some(RATIO_ONE),
    decreases k,
{
    let free = tree.spec_free();
    if k == 0 {
        lemma_initial(free, free.len() as int);
    } else {
        lemma_ratios_after(catalog, tree, owned, stocks, k - 1);
        let prev = ratios_after(catalog, tree, owned, stocks, k - 1);
        let cons = tree.spec_consumers()[k - 1];
        let r = ResourceID((k - 1) as u8);
        let x = resource_ratio(available(stocks, r), needed_in(catalog, owned, prev, cons, r, cons.len() as int));
        assert(0 <= x <= RATIO_ONE) by {
            if needed_in(catalog, owned, prev, cons, r, cons.len() as int) != 0 {
                lemma_needed_nonneg(catalog, owned, prev, cons, r, cons.len() as int);
                assert(available(stocks, r) >= 0) by {
                    match stocks[r.0 as int] {
                        Some(s) => {
                            s.lemma_ranges();
                        },
                        None => {},
                    }
                }
                assert(available(stocks, r) * RATIO_ONE * RATIO_ONE >= 0) by (nonlinear_arith)
                    requires available(stocks, r) >= 0;
                vstd::arithmetic::div_mod::lemma_div_pos_is_pos(
                    available(stocks, r) * RATIO_ONE * RATIO_ONE,
                    needed_in(catalog, owned, prev, cons, r, cons.len() as int),
                );
            }
        }
        lemma_clamp_bounded(prev, cons, cons.len() as int, x);
        lemma_consumers_below_members(catalog, r, ID_SPACE as int);
        lemma_free_below_members(catalog, ID_SPACE as int);
        assert(cons == consumers_below(catalog, ResourceID((k - 1) as u8), ID_SPACE as int));
        assert forall|j: int| 0 <= j < free.len() implies ratios_after(catalog, tree, owned, stocks, k)[(
        #[trigger] free[j]).0 as int] == Some(RATIO_ONE) by {
            let b = free[j];
            assert(catalog.spec_table()[b.0 as int]->0.consumed@.len() == 0);
            assert forall|m: int| 0 <= m < cons.len() implies (#[trigger] cons[m]).0 != b.0 as int by {
                if cons[m].0 == b.0 {
                    assert(consumes(catalog, cons[m].0 as int, r));
                }
            }
        }
    }
}

proof fn lemma_needed_nonneg(
    catalog: AllBuildings,
    owned: Seq<OwnedBuilding>,
    rs: Seq<Option<u64>>,
    cons: Seq<BuildingID>,
    r: ResourceID,
    n: int,
)
    requires
        ratios_bounded(rs),
        owned.len() == ID_SPACE,
        catalog.wf(),
        catalog.all_wf(),
        0 <= n <= cons.len(),
    ensures
        0 <= needed_in(catalog, owned, rs, cons, r, n) <= n * 0x1_0000_0000_0000_0000_0000_0000,
    decreases n,
{
    if n > 0 {
        lemma_needed_nonneg(catalog, owned, rs, cons, r, n - 1);
        let b = cons[n - 1];
        lemma_term_bound(catalog, owned, rs, b, r);
    }
}

/// One consumer's demand fits in 84 bits.
proof fn lemma_term_bound(
    catalog: AllBuildings,
    owned: Seq<OwnedBuilding>,
    rs: Seq<Option<u64>>,
    b: BuildingID,
    r: ResourceID,
)
    requires
        ratios_bounded(rs),
        owned.len() == ID_SPACE,
        catalog.wf(),
        catalog.all_wf(),
    ensures
        0 <= consumed_amount(catalog, b, r) <= u32::MAX,
        0 <= produced_amount(catalog, b, r) <= u32::MAX,
        0 <= hired_of(owned, b) <= u32::MAX,
        0 <= ratio_or_one(rs, b) <= RATIO_ONE,
        0 <= consumed_amount(catalog, b, r) * hired_of(owned, b) * ratio_or_one(rs, b)
            <= 0x1_0000_0000_0000_0000_0000_0000,
{
    match catalog.spec_get(b) {
        Some(bd) => {
            assert(catalog.spec_table()[b.0 as int] is Some);
            lemma_total_distinct(bd.consumed@, bd.consumed@.len() as int, r);
            lemma_total_distinct(bd.produced@, bd.produced@.len() as int, r);
        },
        None => {},
    }
    assert(0 <= hired_of(owned, b) <= u32::MAX) by {
        reveal_hired(owned[b.0 as int]);
    }
    let a = consumed_amount(catalog, b, r);
    let h = hired_of(owned, b);
    let x = ratio_or_one(rs, b);
    assert(0 <= a * h * x <= 0x1_0000_0000_0000_0000_0000_0000) by (nonlinear_arith)
        requires
            0 <= a <= u32::MAX,
            0 <= h <= u32::MAX,
            0 <= x <= RATIO_ONE,
    ;
}

proof fn reveal_hired(o: OwnedBuilding)
    ensures
        0 <= o.spec_hired() <= u32::MAX,
        0 <= o.spec_count() <= u32::MAX,
{
    o.lemma_ranges();
}

/// Quantity of resource `r` used up per worker by building type `b`.
fn consumed_of(catalog: &AllBuildings, b: BuildingID, r: ResourceID) -> (a: u32)
    requires
        catalog.wf(),
        catalog.all_wf(),
    ensures
        a as int == consumed_amount(*catalog, b, r),
{
    match catalog.get(b) {
        Some(bd) => {
            assert(catalog.spec_table()[b.0 as int] is Some);
            amount_in(&bd.consumed, r)
        },
        None => 0,
    }
}

/// Quantity of resource `r` made per worker by building type `b`.
fn produced_of(catalog: &AllBuildings, b: BuildingID, r: ResourceID) -> (a: u32)
    requires
        catalog.wf(),
        catalog.all_wf(),
    ensures
        a as int == produced_amount(*catalog, b, r),
{
    match catalog.get(b) {
        Some(bd) => {
            assert(catalog.spec_table()[b.0 as int] is Some);
            amount_in(&bd.produced, r)
        },
        None => 0,
    }
}

fn ratio_at(rs: &Vec<Option<u64>>, b: BuildingID) -> (x: u64)
    requires
        ratios_bounded(rs@),
    ensures
        x as int == ratio_or_one(rs@, b),
        x <= RATIO_ONE,
{
    match rs[b.0 as usize] {
        Some(x) => x,
        None => RATIO_ONE,
    }
}

/// Computes the efficiency ratio of every building type in one pass over the
/// resources, given what the player employs and holds.
pub fn calc_ratios(
    tree: &DependencyTree,
    catalog: &AllBuildings,
    owned: &Vec<OwnedBuilding>,
    stocks: &Vec<Option<Stockpile>>,
) -> (rs: Vec<Option<u64>>)
    requires
        catalog.wf(),
        catalog.all_wf(),
        tree.indexes(*catalog),
        owned@.len() == ID_SPACE,
        stocks@.len() == ID_SPACE,
    ensures
        rs@ == solved_ratios(*catalog, *tree, owned@, stocks@),
        ratios_bounded(rs@),
{
    let mut ratios: Vec<Option<u64>> = Vec::new();
    let mut i: usize = 0;
    while i < ID_SPACE
        invariant
            i <= ID_SPACE,
            ratios@.len() == i,
            forall|k: int| 0 <= k < i ==> #[trigger] ratios@[k] is None,
        decreases ID_SPACE - i,
    {
        ratios.push(None);
        i = i + 1;
    }
    let free = tree.free();
    assert(ratios@ == initial_in(free@, 0));
    let mut j: usize = 0;
    while j < free.len()
        invariant
            j <= free@.len(),
            ratios@ == initial_in(free@, j as int),
        decreases free@.len() - j,
    {
        proof {
            lemma_initial(free@, j as int);
        }
        ratios.set(free[j].0 as usize, Some(RATIO_ONE));
        j = j + 1;
    }
    let mut r: usize = 0;
    while r < ID_SPACE
        invariant
            r <= ID_SPACE,
            catalog.wf(),
            catalog.all_wf(),
            tree.indexes(*catalog),
            owned@.len() == ID_SPACE,
            stocks@.len() == ID_SPACE,
            ratios@ == ratios_after(*catalog, *tree, owned@, stocks@, r as int),
        decreases ID_SPACE - r,
    {
        proof {
            lemma_ratios_after(*catalog, *tree, owned@, stocks@, r as int);
        }
        let rid = ResourceID(r as u8);
        let cons = tree.consumers_of(rid);
        proof {
            lemma_consumers_below_len(*catalog, rid, ID_SPACE as int);
            assert(cons@ == consumers_below(*catalog, rid, ID_SPACE as int));
        }
        let ghost prev = ratios@;
        let mut needed: u128 = 0;
        let mut k: usize = 0;
        while k < cons.len()
            invariant
                catalog.wf(),
                catalog.all_wf(),
                owned@.len() == ID_SPACE,
                ratios_bounded(prev),
                ratios@ == prev,
                k <= cons@.len() <= ID_SPACE,
                needed == needed_in(*catalog, owned@, prev, cons@, rid, k as int),
            decreases cons@.len() - k,
        {
            let b = cons[k];
            proof {
                lemma_needed_nonneg(*catalog, owned@, prev, cons@, rid, k as int);
                lemma_term_bound(*catalog, owned@, prev, b, rid);
                reveal_hired(owned@[b.0 as int]);
            }
            let a = consumed_of(catalog, b, rid) as u128;
            let h = owned[b.0 as usize].hired() as u128;
            let x = ratio_at(&ratios, b) as u128;
            proof {
                assert(k * 0x1_0000_0000_0000_0000_0000_0000 + 0x1_0000_0000_0000_0000_0000_0000 <= 257
                    * 0x1_0000_0000_0000_0000_0000_0000) by (nonlinear_arith)
                    requires k < 256;
                assert(a * h <= 0xffff_ffff_ffff_ffff_ffff) by (nonlinear_arith)
                    requires a <= u32::MAX, h <= u32::MAX;
            }
            needed = needed + a * h * x;
            k = k + 1;
        }
        let avail: u128 = match stocks[r] {
            Some(s) => s.current() as u128,
            None => 0,
        };
        let one = RATIO_ONE as u128;
        let share: u64 = if needed == 0 {
            RATIO_ONE
        } else {
            proof {
                assert(avail * one * one <= 0xffff_ffff * 1_000_000 * 1_000_000) by (nonlinear_arith)
                    requires avail <= 0xffff_ffff, one == 1_000_000;
            }
            let q = avail * one * one / needed;
            if q >= one {
                RATIO_ONE
            } else {
                q as u64
            }
        };
        proof {
            assert(available(stocks@, rid) == avail) by {
                match stocks@[r as int] {
                    Some(s) => {},
                    None => {},
                }
            }
            assert(share as int == resource_ratio(available(stocks@, rid), needed as int));
        }
        let mut k: usize = 0;
        while k < cons.len()
            invariant
                k <= cons@.len(),
                share <= RATIO_ONE,
                ratios_bounded(prev),
                ratios@.len() == ID_SPACE,
                ratios@ == clamp_in(prev, cons@, k as int, share as int),
                ratios_bounded(ratios@),
            decreases cons@.len() - k,
        {
            let b = cons[k];
            let cur = ratio_at(&ratios, b);
            let lowered = if cur <= share {
                cur
            } else {
                share
            };
            ratios.set(b.0 as usize, Some(lowered));
            proof {
                lemma_clamp_bounded(prev, cons@, k + 1, share as int);
            }
            k = k + 1;
        }
        r = r + 1;
    }
    proof {
        lemma_ratios_after(*catalog, *tree, owned@, stocks@, ID_SPACE as int);
    }
    ratios
}

/// The numbers of a delta table, as integers.
pub open spec fn map_view(m: Seq<Option<i128>>) -> Seq<Option<int>> {
    m.map_values(
        |o: Option<i128>|
            match o {
                Some(d) => Some(d as int),
                None => None,
            },
    )
}

proof fn lemma_contribution_bound(a: int, h: int, x: int)
    requires
        0 <= a <= u32::MAX,
        0 <= h <= u32::MAX,
        0 <= x <= RATIO_ONE,
    ensures
        0 <= contribution(a, h, x) <= 0x1_0000_0000_0000_0000_0000_0000,
{
    assert(0 <= a * h * x <= 0x1_0000_0000_0000_0000_0000_0000) by (nonlinear_arith)
        requires
            0 <= a <= u32::MAX,
            0 <= h <= u32::MAX,
            0 <= x <= RATIO_ONE,
    ;
    vstd::arithmetic::div_mod::lemma_div_is_ordered_by_denominator(a * h * x, 1, RATIO_ONE as int);
    vstd::arithmetic::div_mod::lemma_div_pos_is_pos(a * h * x, RATIO_ONE as int);
}

/// Computes the net change per tick of every resource that an owned building type
/// makes or uses up, at ratios `rs`. What each building type makes of a resource and
/// what it uses up are each rounded toward zero before they are summed.
pub fn compute_gen_map(catalog: &AllBuildings, owned: &Vec<OwnedBuilding>, rs: &Vec<Option<u64>>) -> (m:
    Vec<Option<i128>>)
    requires
        catalog.wf(),
        catalog.all_wf(),
        owned@.len() == ID_SPACE,
        ratios_bounded(rs@),
    ensures
        map_view(m@) == gen_map(*catalog, owned@, rs@),
        map_bounded(map_view(m@)),
{
    let mut m: Vec<Option<i128>> = Vec::new();
    let mut r: usize = 0;
    while r < ID_SPACE
        invariant
            r <= ID_SPACE,
            catalog.wf(),
            catalog.all_wf(),
            owned@.len() == ID_SPACE,
            ratios_bounded(rs@),
            m@.len() == r,
            forall|k: int| 0 <= k < r ==> #[trigger] map_view(m@)[k] == gen_map(*catalog, owned@, rs@)[k],
            map_bounded(map_view(m@)),
        decreases ID_SPACE - r,
    {
        let rid = ResourceID(r as u8);
        let mut acc: i128 = 0;
        let mut touched = false;
        let mut b: usize = 0;
        while b < ID_SPACE
            invariant
                b <= ID_SPACE,
                catalog.wf(),
                catalog.all_wf(),
                owned@.len() == ID_SPACE,
                ratios_bounded(rs@),
                acc == delta_below(*catalog, owned@, rs@, rid, b as int),
                touched == touched_below(*catalog, owned@, rid, b as int),
                -(b as int) * 0x1_0000_0000_0000_0000_0000_0000 <= acc <= (b as int)
                    * 0x1_0000_0000_0000_0000_0000_0000,
            decreases ID_SPACE - b,
        {
            let id = BuildingID(b as u8);
            if owned[b].count() > 0 {
                match catalog.get(id) {
                    Some(bd) => {
                        assert(catalog.spec_table()[b as int] is Some);
                        let p = amount_in(&bd.produced, rid) as u128;
                        let c = amount_in(&bd.consumed, rid) as u128;
                        let h = owned[b].hired() as u128;
                        let x = ratio_at(rs, id) as u128;
                        proof {
                            reveal_hired(owned@[b as int]);
                            lemma_total_distinct(bd.produced@, bd.produced@.len() as int, rid);
                            lemma_total_distinct(bd.consumed@, bd.consumed@.len() as int, rid);
                            lemma_contribution_bound(p as int, h as int, x as int);
                            lemma_contribution_bound(c as int, h as int, x as int);
                            assert(p * h <= 0xffff_ffff_ffff_ffff_ffff) by (nonlinear_arith)
                                requires p <= u32::MAX, h <= u32::MAX;
                            assert(c * h <= 0xffff_ffff_ffff_ffff_ffff) by (nonlinear_arith)
                                requires c <= u32::MAX, h <= u32::MAX;
                        }
                        let made = (p * h * x / (RATIO_ONE as u128)) as i128;
                        let used = (c * h * x / (RATIO_ONE as u128)) as i128;
                        acc = acc + made - used;
                        if lists(&bd.produced, rid) || lists(&bd.consumed, rid) {
                            touched = true;
                        }
                    },
                    None => {},
                }
            }
            b = b + 1;
        }
        let ghost m_before = m@;
        if touched {
            m.push(Some(acc));
        } else {
            m.push(None);
        }
        proof {
            assert forall|k: int| 0 <= k < r + 1 implies #[trigger] map_view(m@)[k] == gen_map(
                *catalog,
                owned@,
                rs@,
            )[k] by {
                if k < r {
                    assert(m@[k] == m_before[k]);
                    assert(map_view(m_before)[k] == gen_map(*catalog, owned@, rs@)[k]);
                }
            }
            assert forall|k: int| 0 <= k < m@.len() implies (#[trigger] map_view(m@)[k] matches Some(
                d,
            ) ==> -DELTA_LIMIT <= d <= DELTA_LIMIT) by {
                if k < r {
                    assert(m@[k] == m_before[k]);
                    assert(map_view(m_before)[k] == map_view(m@)[k]);
                }
            }
        }
        r = r + 1;
    }
    proof {
        assert(map_view(m@) =~= gen_map(*catalog, owned@, rs@));
    }
    m
}

/// Per-player cache of the efficiency ratios and of the net change per tick, so that
/// they are not worked out again on every tick.
#[derive(Debug)]
pub struct Generator {
    needs_update: bool,
    map: Vec<Option<i128>>,
    ratios: Vec<Option<u64>>,
}

impl Generator {
    /// Whether the cache must be worked out again before it is used.
    pub closed spec fn spec_dirty(&self) -> bool {
        self.needs_update
    }

    /// Net change per tick of each resource, by identifier.
    pub closed spec fn spec_map(&self) -> Seq<Option<int>> {
        map_view(self.map@)
    }

    /// Efficiency ratio of each building type, by identifier.
    pub closed spec fn spec_ratios(&self) -> Seq<Option<u64>> {
        self.ratios@
    }

    pub open spec fn wf(&self) -> bool {
        &&& self.spec_map().len() == ID_SPACE
        &&& map_bounded(self.spec_map())
        &&& ratios_bounded(self.spec_ratios())
    }

    /// An empty cache that must be worked out before use.
    pub fn new() -> (g: Generator)
        ensures
            g.wf(),
            g.spec_dirty(),
            forall|i: int| 0 <= i < ID_SPACE ==> #[trigger] g.spec_map()[i] is None,
            forall|i: int| 0 <= i < ID_SPACE ==> #[trigger] g.spec_ratios()[i] is None,
    {
        let mut map: Vec<Option<i128>> = Vec::new();
        let mut ratios: Vec<Option<u64>> = Vec::new();
        let mut i: usize = 0;
        while i < ID_SPACE
            invariant
                i <= ID_SPACE,
                map@.len() == i,
                ratios@.len() == i,
                forall|k: int| 0 <= k < i ==> #[trigger] map@[k] is None,
                forall|k: int| 0 <= k < i ==> #[trigger] ratios@[k] is None,
            decreases ID_SPACE - i,
        {
            map.push(None);
            ratios.push(None);
            i = i + 1;
        }
        Generator { needs_update: true, map, ratios }
    }

    /// Marks the cache as out of date.
    pub fn invalidate(&mut self)
        ensures
            final(self).spec_dirty(),
            final(self).spec_map() == old(self).spec_map(),
            final(self).spec_ratios() == old(self).spec_ratios(),
    {
        self.needs_update = true;
    }

    /// Works out the net change per tick from the cached ratios.
    pub fn make_gen_map(&mut self, all_buildings: &AllBuildings, player_buildings: &Vec<OwnedBuilding>)
        requires
            old(self).wf(),
            all_buildings.wf(),
            all_buildings.all_wf(),
            player_buildings@.len() == ID_SPACE,
        ensures
            final(self).wf(),
            final(self).spec_dirty() == old(self).spec_dirty(),
            final(self).spec_ratios() == old(self).spec_ratios(),
            final(self).spec_map() == gen_map(*all_buildings, player_buildings@, old(self).spec_ratios()),
    {
        self.map = compute_gen_map(all_buildings, player_buildings, &self.ratios);
    }

    /// Works out the ratios and the net change per tick again if the cache is out of
    /// date; otherwise leaves it as it is.
    pub fn ensure_fresh(
        &mut self,
        all_buildings: &AllBuildings,
        tree: &DependencyTree,
        owned: &Vec<OwnedBuilding>,
        stocks: &Vec<Option<Stockpile>>,
    )
        requires
            old(self).wf(),
            all_buildings.wf(),
            all_buildings.all_wf(),
            tree.indexes(*all_buildings),
            owned@.len() == ID_SPACE,
            stocks@.len() == ID_SPACE,
        ensures
            final(self).wf(),
            refreshed(*old(self), *final(self), *all_buildings, *tree, owned@, stocks@),
    {
        if self.needs_update {
            self.ratios = calc_ratios(tree, all_buildings, owned, stocks);
            self.make_gen_map(all_buildings, owned);
            self.needs_update = false;
        }
    }

    /// Net change of resource `r` per tick, as the cache holds it.
    pub fn delta(&self, r: ResourceID) -> (d: Option<i128>)
        requires
            self.wf(),
        ensures
            d matches Some(v) ==> -DELTA_LIMIT <= v <= DELTA_LIMIT,
            d matches Some(v) ==> self.spec_map()[r.0 as int] == Some(v as int),
            d is None ==> self.spec_map()[r.0 as int] is None,
    {
        self.map[r.0 as usize]
    }

    /// Efficiency ratio of building type `b`, in millionths, as the cache holds it.
    pub fn ratio(&self, b: BuildingID) -> (x: Option<u64>)
        requires
            self.wf(),
        ensures
            x == self.spec_ratios()[b.0 as int],
    {
        self.ratios[b.0 as usize]
    }

    /// Whether the cache is out of date.
    pub fn is_dirty(&self) -> (d: bool)
        ensures
            d == self.spec_dirty(),
    {
        self.needs_update
    }
}

impl Default for Generator {
    fn default() -> (g: Generator)
        ensures
            g.wf(),
            g.spec_dirty(),
    {
        Generator::new()
    }
}

/// `after` is the cache `before` brought up to date: worked out again from the
/// catalog, the buildings and the stocks if it was out of date, else unchanged.
pub open spec fn refreshed(
    before: Generator,
    after: Generator,
    catalog: AllBuildings,
    tree: DependencyTree,
    owned: Seq<OwnedBuilding>,
    stocks: Seq<Option<Stockpile>>,
) -> bool {
    &&& !after.spec_dirty()
    &&& before.spec_dirty() ==> {
        &&& after.spec_ratios() == solved_ratios(catalog, tree, owned, stocks)
        &&& after.spec_map() == gen_map(catalog, owned, after.spec_ratios())
    }
    &&& !before.spec_dirty() ==> {
        &&& after.spec_ratios() == before.spec_ratios()
        &&& after.spec_map() == before.spec_map()
    }
}

/// Bringing the cache up to date twice, with nothing changed in between, gives the
/// same net changes both times.
pub proof fn lemma_refresh_idempotent(
    g0: Generator,
    g1: Generator,
    g2: Generator,
    catalog: AllBuildings,
    tree: DependencyTree,
    owned: Seq<OwnedBuilding>,
    stocks: Seq<Option<Stockpile>>,
)
    requires
        refreshed(g0, g1, catalog, tree, owned, stocks),
        refreshed(g1, g2, catalog, tree, owned, stocks),
    ensures
        g2.spec_map() == g1.spec_map(),
        g2.spec_ratios() == g1.spec_ratios(),
{
}

} // verus!

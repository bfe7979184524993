use crate::ids::Position;
use vstd::prelude::*;

verus! {

/// Room a stockpile has when it is first made.
pub const DEFAULT_MAXIMUM: u32 = 100;

/// A player's holdings of one resource.
#[derive(Clone, Copy, Debug, PartialEq, Eq, Structural)]
pub struct Stockpile {
    current: u32,
    maximum: u32,
}

impl Stockpile {
    pub closed spec fn spec_current(&self) -> int {
        self.current as int
    }

    pub closed spec fn spec_maximum(&self) -> int {
        self.maximum as int
    }

    pub proof fn lemma_ranges(&self)
        ensures
            0 <= self.spec_current() <= u32::MAX,
            0 <= self.spec_maximum() <= u32::MAX,
    {
    }

    /// Never more than the stockpile can hold.
    pub open spec fn wf(&self) -> bool {
        0 <= self.spec_current() <= self.spec_maximum() <= u32::MAX
    }

    /// An empty stockpile of the default size.
    pub fn new() -> (s: Stockpile)
        ensures
            s.spec_current() == 0,
            s.spec_maximum() == DEFAULT_MAXIMUM,
    {
        Stockpile { current: 0, maximum: DEFAULT_MAXIMUM }
    }

    /// A stockpile holding `current` out of `maximum`.
    pub fn with(current: u32, maximum: u32) -> (s: Stockpile)
        requires
            current <= maximum,
        ensures
            s.spec_current() == current,
            s.spec_maximum() == maximum,
    {
        Stockpile { current, maximum }
    }

    pub fn current(&self) -> (r: u32)
        ensures
            r == self.spec_current(),
    {
        self.current
    }

    pub fn maximum(&self) -> (r: u32)
        ensures
            r == self.spec_maximum(),
    {
        self.maximum
    }
}

impl Default for Stockpile {
    fn default() -> (s: Stockpile)
        ensures
            s.spec_current() == 0,
            s.spec_maximum() == DEFAULT_MAXIMUM,
    {
        Stockpile::new()
    }
}

/// Buildings placed at the first `n` entries.
pub open spec fn placed_below(s: Seq<(Position, u32)>, n: int) -> int
    decreases n,
{
    if n <= 0 {
        0
    } else {
        placed_below(s, n - 1) + s[n - 1].1
    }
}

/// Buildings placed at `pos` among the first `n` entries.
pub open spec fn placed_at_below(s: Seq<(Position, u32)>, pos: Position, n: int) -> int
    decreases n,
{
    if n <= 0 {
        0
    } else {
        placed_at_below(s, pos, n - 1) + if s[n - 1].0 == pos {
            s[n - 1].1 as int
        } else {
            0
        }
    }
}

/// All buildings of a placement list.
pub open spec fn placed_total(s: Seq<(Position, u32)>) -> int {
    placed_below(s, s.len() as int)
}

/// Buildings of a placement list at `pos`.
pub open spec fn placed_at(s: Seq<(Position, u32)>, pos: Position) -> int {
    placed_at_below(s, pos, s.len() as int)
}

pub open spec fn distinct_positions(s: Seq<(Position, u32)>) -> bool {
    forall|i: int, j: int| 0 <= i < j < s.len() ==> s[i].0 != s[j].0
}

proof fn lemma_placed_update(s: Seq<(Position, u32)>, i: int, v: (Position, u32), n: int)
    requires
        0 <= i < s.len(),
        v.0 == s[i].0,
        0 <= n <= s.len(),
    ensures
        placed_below(s.update(i, v), n) == placed_below(s, n) + if i < n {
            v.1 - s[i].1
        } else {
            0
        },
        forall|p: Position|
            placed_at_below(s.update(i, v), p, n) == placed_at_below(s, p, n) + if i < n && p
                == v.0 {
                v.1 - s[i].1
            } else {
                0
            },
    decreases n,
{
    if n > 0 {
        lemma_placed_update(s, i, v, n - 1);
        let t = s.update(i, v);
        assert forall|p: Position|
            placed_at_below(t, p, n) == placed_at_below(s, p, n) + if i < n && p == v.0 {
                v.1 - s[i].1
            } else {
                0
            } by {
            assert(placed_at_below(t, p, n - 1) == placed_at_below(s, p, n - 1) + if i < n - 1
                && p == v.0 {
                v.1 - s[i].1
            } else {
                0
            });
        }
    }
}

proof fn lemma_placed_push(s: Seq<(Position, u32)>, v: (Position, u32), n: int)
    requires
        0 <= n <= s.len(),
    ensures
        placed_below(s.push(v), n) == placed_below(s, n),
        forall|p: Position| placed_at_below(s.push(v), p, n) == placed_at_below(s, p, n),
    decreases n,
{
    if n > 0 {
        lemma_placed_push(s, v, n - 1);
        assert forall|p: Position| placed_at_below(s.push(v), p, n) == placed_at_below(s, p, n) by {
            assert(placed_at_below(s.push(v), p, n - 1) == placed_at_below(s, p, n - 1));
            assert(s.push(v)[n - 1] == s[n - 1]);
        }
    }
}

proof fn lemma_placed_absent(s: Seq<(Position, u32)>, p: Position, n: int)
    requires
        0 <= n <= s.len(),
        forall|k: int| 0 <= k < n ==> s[k].0 != p,
    ensures
        placed_at_below(s, p, n) == 0,
    decreases n,
{
    if n > 0 {
        lemma_placed_absent(s, p, n - 1);
    }
}

proof fn lemma_placed_unique(s: Seq<(Position, u32)>, i: int, n: int)
    requires
        distinct_positions(s),
        0 <= i < n <= s.len(),
    ensures
        placed_at_below(s, s[i].0, n) == s[i].1,
    decreases n,
{
    if n - 1 == i {
        lemma_placed_absent(s, s[i].0, i);
    } else {
        lemma_placed_unique(s, i, n - 1);
    }
}

/// What a player has of one building type: how many, how many people they employ
/// out of how many posts, and how many stand at each position.
#[derive(Debug)]
pub struct OwnedBuilding {
    total: u32,
    workers: (u32, u32),
    tiles: Vec<(Position, u32)>,
}

impl OwnedBuilding {
    pub closed spec fn spec_count(&self) -> int {
        self.total as int
    }

    pub closed spec fn spec_hired(&self) -> int {
        self.workers.0 as int
    }

    pub closed spec fn spec_capacity(&self) -> int {
        self.workers.1 as int
    }

    pub closed spec fn spec_tiles(&self) -> Seq<(Position, u32)> {
        self.tiles@
    }

    /// Buildings of this type at `pos`.
    pub open spec fn spec_placed(&self, pos: Position) -> int {
        placed_at(self.spec_tiles(), pos)
    }

    /// No more people than posts; the placements add up to the count.
    pub open spec fn wf(&self) -> bool {
        &&& 0 <= self.spec_hired() <= self.spec_capacity() <= u32::MAX
        &&& 0 <= self.spec_count() <= u32::MAX
        &&& placed_total(self.spec_tiles()) == self.spec_count()
        &&& distinct_positions(self.spec_tiles())
    }

    pub proof fn lemma_ranges(&self)
        ensures
            0 <= self.spec_hired() <= u32::MAX,
            0 <= self.spec_count() <= u32::MAX,
            0 <= self.spec_capacity() <= u32::MAX,
    {
    }

    /// None of this type.
    pub fn new() -> (o: OwnedBuilding)
        ensures
            o.wf(),
            o.spec_count() == 0,
            o.spec_hired() == 0,
            o.spec_capacity() == 0,
            forall|p: Position| o.spec_placed(p) == 0,
    {
        OwnedBuilding { total: 0, workers: (0, 0), tiles: Vec::new() }
    }

    /// A record built from its parts, as a save file holds them; see `is_valid`.
    pub fn from_parts(total: u32, workers: (u32, u32), tiles: Vec<(Position, u32)>) -> (o: OwnedBuilding)
        ensures
            o.spec_count() == total,
            o.spec_hired() == workers.0,
            o.spec_capacity() == workers.1,
            o.spec_tiles() == tiles@,
    {
        OwnedBuilding { total, workers, tiles }
    }

    /// Whether the record is well formed.
    pub fn is_valid(&self) -> (r: bool)
        ensures
            r == self.wf(),
    {
        if self.workers.0 > self.workers.1 {
            return false;
        }
        let mut sum: u64 = 0;
        let mut i: usize = 0;
        while i < self.tiles.len()
            invariant
                i <= self.tiles@.len(),
                sum == placed_below(self.tiles@, i as int),
                sum <= u32::MAX,
                forall|a: int, b: int| 0 <= a < i && a < b < self.tiles@.len() ==> self.tiles@[a].0 != self.tiles@[b].0,
            decreases self.tiles@.len() - i,
        {
            let mut j: usize = i + 1;
            while j < self.tiles.len()
                invariant
                    i < self.tiles@.len(),
                    i + 1 <= j <= self.tiles@.len(),
                    forall|b: int| i < b < j ==> self.tiles@[i as int].0 != self.tiles@[b].0,
                decreases self.tiles@.len() - j,
            {
                if self.tiles[i].0 == self.tiles[j].0 {
                    return false;
                }
                j = j + 1;
            }
            sum = sum + self.tiles[i].1 as u64;
            if sum > u32::MAX as u64 {
                proof {
                    lemma_placed_grows(self.tiles@, i as int + 1, self.tiles@.len() as int);
                }
                return false;
            }
            i = i + 1;
        }
        sum == self.total as u64
    }

    /// Where the buildings of this type stand, and how many at each position.
    pub fn placements(&self) -> (t: &Vec<(Position, u32)>)
        ensures
            t@ == self.spec_tiles(),
    {
        &self.tiles
    }

    pub fn count(&self) -> (r: u32)
        ensures
            r == self.spec_count(),
    {
        self.total
    }

    pub fn hired(&self) -> (r: u32)
        ensures
            r == self.spec_hired(),
    {
        self.workers.0
    }

    pub fn capacity(&self) -> (r: u32)
        ensures
            r == self.spec_capacity(),
    {
        self.workers.1
    }

    /// Index of the entry for `pos`, if there is one.
    fn find(&self, pos: &Position) -> (r: Option<usize>)
        ensures
            r matches Some(i) ==> i < self.tiles@.len() && self.tiles@[i as int].0 == *pos,
            r is None ==> forall|k: int| 0 <= k < self.tiles@.len() ==> self.tiles@[k].0 != *pos,
    {
        let mut i: usize = 0;
        while i < self.tiles.len()
            invariant
                i <= self.tiles@.len(),
                forall|k: int| 0 <= k < i ==> self.tiles@[k].0 != *pos,
            decreases self.tiles@.len() - i,
        {
            if self.tiles[i].0 == *pos {
                return Some(i);
            }
            i = i + 1;
        }
        None
    }

    /// Buildings of this type at `pos`.
    pub fn placed(&self, pos: &Position) -> (r: u32)
        requires
            self.wf(),
        ensures
            r == self.spec_placed(*pos),
    {
        match self.find(pos) {
            Some(i) => {
                proof {
                    lemma_placed_unique(self.tiles@, i as int, self.tiles@.len() as int);
                }
                self.tiles[i].1
            },
            None => {
                proof {
                    lemma_placed_absent(self.tiles@, *pos, self.tiles@.len() as int);
                }
                0
            },
        }
    }

    /// Adds `amount` buildings at `pos`, with `posts` more posts.
    pub(crate) fn add(&mut self, pos: &Position, amount: u32, posts: u32)
        requires
            old(self).wf(),
            old(self).spec_count() + amount <= u32::MAX,
            old(self).spec_capacity() + posts <= u32::MAX,
        ensures
            final(self).wf(),
            final(self).spec_count() == old(self).spec_count() + amount,
            final(self).spec_capacity() == old(self).spec_capacity() + posts,
            final(self).spec_hired() == old(self).spec_hired(),
            final(self).spec_placed(*pos) == old(self).spec_placed(*pos) + amount,
            forall|p: Position| p != *pos ==> final(self).spec_placed(p) == old(self).spec_placed(p),
    {
        let ghost s = self.tiles@;
        match self.find(pos) {
            Some(i) => {
                proof {
                    lemma_placed_unique(s, i as int, s.len() as int);
                    assert(s[i as int].1 <= placed_total(s)) by {
                        lemma_placed_le_total(s, i as int, s.len() as int);
                    }
                }
                let old_amount = self.tiles[i].1;
                self.tiles.set(i, (*pos, old_amount + amount));
                proof {
                    lemma_placed_update(s, i as int, (*pos, (old_amount + amount) as u32), s.len() as int);
                }
            },
            None => {
                self.tiles.push((*pos, amount));
                proof {
                    lemma_placed_push(s, (*pos, amount), s.len() as int);
                    lemma_placed_absent(s, *pos, s.len() as int);
                    assert(self.tiles@.len() == s.len() + 1);
                    assert(self.tiles@[s.len() as int] == (*pos, amount));
                }
            },
        }
        self.total = self.total + amount;
        self.workers.1 = self.workers.1 + posts;
    }

    /// Removes `amount` buildings at `pos`, with `posts` posts; people beyond the posts
    /// that remain lose their work.
    pub(crate) fn remove(&mut self, pos: &Position, amount: u32, posts: u32)
        requires
            old(self).wf(),
            amount <= old(self).spec_placed(*pos),
            posts <= old(self).spec_capacity(),
        ensures
            final(self).wf(),
            final(self).spec_count() == old(self).spec_count() - amount,
            final(self).spec_capacity() == old(self).spec_capacity() - posts,
            final(self).spec_hired() == if old(self).spec_hired() <= final(self).spec_capacity() {
                old(self).spec_hired()
            } else {
                final(self).spec_capacity()
            },
            final(self).spec_placed(*pos) == old(self).spec_placed(*pos) - amount,
            forall|p: Position| p != *pos ==> final(self).spec_placed(p) == old(self).spec_placed(p),
    {
        let ghost s = self.tiles@;
        match self.find(pos) {
            Some(i) => {
                proof {
                    lemma_placed_unique(s, i as int, s.len() as int);
                    lemma_placed_le_total(s, i as int, s.len() as int);
                }
                let old_amount = self.tiles[i].1;
                self.tiles.set(i, (*pos, old_amount - amount));
                proof {
                    lemma_placed_update(s, i as int, (*pos, (old_amount - amount) as u32), s.len() as int);
                }
            },
            None => {
                proof {
                    lemma_placed_absent(s, *pos, s.len() as int);
                }
            },
        }
        self.total = self.total - amount;
        self.workers.1 = self.workers.1 - posts;
        if self.workers.0 > self.workers.1 {
            self.workers.0 = self.workers.1;
        }
    }

    /// Employs `amount` more people.
    pub(crate) fn employ(&mut self, amount: u32)
        requires
            old(self).wf(),
            old(self).spec_hired() + amount <= old(self).spec_capacity(),
        ensures
            final(self).wf(),
            final(self).spec_count() == old(self).spec_count(),
            final(self).spec_capacity() == old(self).spec_capacity(),
            final(self).spec_hired() == old(self).spec_hired() + amount,
            forall|p: Position| final(self).spec_placed(p) == old(self).spec_placed(p),
    {
        self.workers.0 = self.workers.0 + amount;
    }

    /// Lets `amount` people go.
    pub(crate) fn dismiss(&mut self, amount: u32)
        requires
            old(self).wf(),
            amount <= old(self).spec_hired(),
        ensures
            final(self).wf(),
            final(self).spec_count() == old(self).spec_count(),
            final(self).spec_capacity() == old(self).spec_capacity(),
            final(self).spec_hired() == old(self).spec_hired() - amount,
            forall|p: Position| final(self).spec_placed(p) == old(self).spec_placed(p),
    {
        self.workers.0 = self.workers.0 - amount;
    }
}

proof fn lemma_placed_le_total(s: Seq<(Position, u32)>, i: int, n: int)
    requires
        0 <= i < n <= s.len(),
    ensures
        s[i].1 <= placed_below(s, n),
        placed_below(s, n) >= 0,
    decreases n,
{
    lemma_placed_nonneg(s, n - 1);
    if n - 1 != i {
        lemma_placed_le_total(s, i, n - 1);
    }
}

proof fn lemma_placed_grows(s: Seq<(Position, u32)>, m: int, n: int)
    requires
        0 <= m <= n <= s.len(),
    ensures
        placed_below(s, m) <= placed_below(s, n),
    decreases n - m,
{
    if m < n {
        lemma_placed_grows(s, m, n - 1);
    }
}

proof fn lemma_placed_nonneg(s: Seq<(Position, u32)>, n: int)
    requires
        0 <= n <= s.len(),
    ensures
        placed_below(s, n) >= 0,
    decreases n,
{
    if n > 0 {
        lemma_placed_nonneg(s, n - 1);
    }
}

impl Default for OwnedBuilding {
    fn default() -> (o: OwnedBuilding)
        ensures
            o.wf(),
            o.spec_count() == 0,
            o.spec_hired() == 0,
            o.spec_capacity() == 0,
    {
        OwnedBuilding::new()
    }
}

/// The people of a player's realm.
#[derive(Clone, Copy, Debug, PartialEq, Eq, Structural)]
pub struct Population {
    idle: u32,
    total: u32,
    maximum: u32,
}

impl Population {
    pub closed spec fn spec_idle(&self) -> int {
        self.idle as int
    }

    pub closed spec fn spec_total(&self) -> int {
        self.total as int
    }

    pub closed spec fn spec_maximum(&self) -> int {
        self.maximum as int
    }

    pub open spec fn wf(&self) -> bool {
        self.spec_idle() <= self.spec_total() <= self.spec_maximum()
    }

    /// Five people, all idle, with room for ten.
    pub fn new() -> (p: Population)
        ensures
            p.wf(),
            p.spec_idle() == 5,
            p.spec_total() == 5,
            p.spec_maximum() == 10,
    {
        Population { idle: 5, total: 5, maximum: 10 }
    }

    /// A population of `total` people, `idle` of them without work, with room for
    /// `maximum`; none if those do not fit together.
    pub fn restore(idle: u32, total: u32, maximum: u32) -> (p: Option<Population>)
        ensures
            p is Some <==> idle <= total <= maximum,
            p matches Some(q) ==> q.spec_idle() == idle && q.spec_total() == total && q.spec_maximum() == maximum,
    {
        if idle <= total && total <= maximum {
            Some(Population { idle, total, maximum })
        } else {
            None
        }
    }

    pub fn idle(&self) -> (r: u32)
        ensures
            r == self.spec_idle(),
    {
        self.idle
    }

    pub fn total(&self) -> (r: u32)
        ensures
            r == self.spec_total(),
    {
        self.total
    }

    pub fn maximum(&self) -> (r: u32)
        ensures
            r == self.spec_maximum(),
    {
        self.maximum
    }
}

} // verus!

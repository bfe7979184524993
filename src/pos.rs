use crate::ids::Position;
use vstd::prelude::*;

verus! {

/// Largest ring index for which every coordinate fits in `i32` and the count of
/// positions fits in `u32`.
pub const MAX_STEP: u32 = 65_535;

/// Position of tile `i` of a side that starts at `last`.
pub open spec fn side_tile(last: Position, i: i32) -> Position {
    Position { x: last.x | (last.x + i) as i32, y: last.y | (last.y + i) as i32 }
}

/// The four corners of ring `step`: east, south, west, north.
pub open spec fn ring_corners(step: int) -> Seq<Position> {
    seq![
        Position { x: step as i32, y: 0 },
        Position { x: 0, y: (-step) as i32 },
        Position { x: (-step) as i32, y: 0 },
        Position { x: 0, y: step as i32 },
    ]
}

/// Hands out map positions ring after ring around the origin.
#[derive(Debug)]
pub struct PosGenerator {
    step: u32,
    last_pos: Position,
    tiles: Vec<Position>,
    vertices: Vec<Position>,
}

impl PosGenerator {
    pub closed spec fn spec_step(&self) -> int {
        self.step as int
    }

    pub closed spec fn spec_last(&self) -> Position {
        self.last_pos
    }

    /// Positions ready to be handed out, in order.
    pub closed spec fn spec_tiles(&self) -> Seq<Position> {
        self.tiles@
    }

    /// Corners still to be walked, in order.
    pub closed spec fn spec_vertices(&self) -> Seq<Position> {
        self.vertices@
    }

    /// The walk starts at the origin and the ring index stays small.
    pub open spec fn wf(&self) -> bool {
        &&& self.spec_step() <= MAX_STEP
        &&& self.spec_last() == Position { x: 0, y: 0 }
        &&& forall|k: int|
            0 <= k < self.spec_vertices().len() ==> -(MAX_STEP as int) <= (
            #[trigger] self.spec_vertices()[k]).x <= MAX_STEP && -(MAX_STEP as int)
                <= self.spec_vertices()[k].y <= MAX_STEP
    }

    /// A generator at ring `step`, with nothing walked yet.
    pub fn new(step: u32) -> (g: PosGenerator)
        requires
            step <= MAX_STEP,
        ensures
            g.wf(),
            g.spec_step() == step,
            g.spec_tiles().len() == 0,
            g.spec_vertices().len() == 0,
    {
        PosGenerator { step, tiles: Vec::new(), vertices: Vec::new(), last_pos: Position { x: 0, y: 0 } }
    }

    /// Number of positions within the current ring: one plus twice each ring index
    /// below it.
    pub fn total_pos(&self) -> (n: u32)
        requires
            self.wf(),
        ensures
            n == 1 + self.spec_step() * (self.spec_step() - 1),
    {
        let mut nbr: u32 = 1;
        let mut i: u32 = 0;
        while i < self.step
            invariant
                self.wf(),
                i <= self.step,
                nbr == 1 + i * (i - 1),
            decreases self.step - i,
        {
            proof {
                assert(1 + (i + 1) * i == 1 + i * (i - 1) + 2 * i) by (nonlinear_arith);
                assert(1 + (i + 1) * i <= 1 + 65535 * 65534) by (nonlinear_arith)
                    requires i < 65535;
            }
            nbr = nbr + 2 * i;
            i = i + 1;
        }
        nbr
    }

    /// Queues the four corners of the current ring: east, south, west, north.
    pub fn next_vertices(&mut self)
        requires
            old(self).wf(),
        ensures
            final(self).wf(),
            final(self).spec_step() == old(self).spec_step(),
            final(self).spec_tiles() == old(self).spec_tiles(),
            final(self).spec_vertices() == old(self).spec_vertices() + ring_corners(old(self).spec_step()),
    {
        let s = self.step as i32;
        self.vertices.push(Position { x: s, y: 0 });
        self.vertices.push(Position { x: 0, y: -s });
        self.vertices.push(Position { x: -s, y: 0 });
        self.vertices.push(Position { x: 0, y: s });
        proof {
            assert(self.spec_vertices() =~= old(self).spec_vertices() + ring_corners(old(self).spec_step()));
        }
    }

    /// Walks the next corner: queues the positions of its side, as many as the bits
    /// of the corner's coordinates give.
    pub fn next_tiles(&mut self)
        requires
            old(self).wf(),
        ensures
            final(self).wf(),
            final(self).spec_step() == old(self).spec_step(),
            ({
                let vs = if old(self).spec_vertices().len() == 0 {
                    ring_corners(old(self).spec_step())
                } else {
                    old(self).spec_vertices()
                };
                let v = vs[0];
                let n = v.x | v.y;
                &&& final(self).spec_vertices() == vs.drop_first()
                &&& final(self).spec_tiles() == old(self).spec_tiles() + Seq::new(
                    if n > 0 {
                        n as nat
                    } else {
                        0
                    },
                    |i: int| side_tile(old(self).spec_last(), i as i32),
                )
            }),
    {
        if self.vertices.len() == 0 {
            self.next_vertices();
        }
        let ghost vs = self.spec_vertices();
        assert(-65535 <= vs[0].x <= 65535 && -65535 <= vs[0].y <= 65535);
        let v = self.vertices.remove(0);
        proof {
            assert forall|k: int| 0 <= k < self.spec_vertices().len() implies -(MAX_STEP as int) <= (
            #[trigger] self.spec_vertices()[k]).x <= MAX_STEP && -(MAX_STEP as int)
                <= self.spec_vertices()[k].y <= MAX_STEP by {
                assert(self.spec_vertices()[k] == vs[k + 1]);
            }
        }
        let vx = v.x;
        let vy = v.y;
        let n = vx | vy;
        assert(vx | vy <= 65535) by (bit_vector)
            requires
                -65535 <= vx <= 65535,
                -65535 <= vy <= 65535,
        ;
        let ghost start = self.tiles@;
        let ghost rest = self.vertices@;
        let last = self.last_pos;
        let mut i: i32 = 0;
        while i < n
            invariant
                self.wf(),
                self.spec_step() == old(self).spec_step(),
                self.vertices@ == rest,
                last == self.spec_last(),
                last == (Position { x: 0, y: 0 }),
                0 <= i,
                n <= 65535,
                i <= n || n <= 0,
                n <= 0 ==> i == 0,
                self.tiles@ == start + Seq::new(i as nat, |k: int| side_tile(last, k as i32)),
            decreases n - i,
        {
            let ghost before = *self;
            self.tiles.push(Position { x: last.x | (last.x + i), y: last.y | (last.y + i) });
            assert(self.spec_step() == before.spec_step());
            assert(self.spec_last() == before.spec_last());
            assert(self.spec_vertices() == before.spec_vertices());
            proof {
                assert(self.tiles@ =~= start + Seq::new((i + 1) as nat, |k: int| side_tile(last, k as i32)));
                assert(self.spec_vertices() == rest);
            }
            i = i + 1;
        }
        proof {
            assert(self.tiles@ =~= start + Seq::new(
                if n > 0 {
                    n as nat
                } else {
                    0
                },
                |k: int| side_tile(last, k as i32),
            ));
        }
    }

    /// The next position of the walk, if the current corner gives any.
    pub fn next(&mut self) -> (p: Option<Position>)
        requires
            old(self).wf(),
        ensures
            final(self).wf(),
            old(self).spec_tiles().len() > 0 ==> p == Some(old(self).spec_tiles()[0])
                && final(self).spec_tiles() == old(self).spec_tiles().drop_first(),
    {
        if self.tiles.len() == 0 {
            self.next_tiles();
        }
        if self.tiles.len() == 0 {
            return None;
        }
        let ghost vs = self.spec_vertices();
        let p = self.tiles.remove(0);
        assert(self.spec_vertices() == vs);
        Some(p)
    }
}

} // verus!

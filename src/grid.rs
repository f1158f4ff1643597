use vstd::prelude::*;
use std::collections::HashSet;

use crate::hex::Hex;

verus! {

broadcast use vstd::std_specs::hash::group_hash_axioms;

/// The field: `num_x` columns and `num_y` rows of hexes, stored column by
/// column, so that the hex at `(x, y)` stands at index `x * num_y + y`.
#[derive(Clone, Debug)]
pub struct Grid {
    pub num_x: u32,
    pub num_y: u32,
    pub hexes: Vec<Hex>,
}

/// Where the hex at `(x, y)` stands in a field with `ny` rows.
pub open spec fn cell_index(ny: int, x: int, y: int) -> int {
    x * ny + y
}

pub proof fn lemma_cell_index_bounds(nx: int, ny: int, x: int, y: int)
    requires
        0 <= x < nx,
        0 <= y < ny,
    ensures
        0 <= cell_index(ny, x, y) < nx * ny,
        cell_index(ny, x, y) + 1 <= nx * ny,
{
    assert(x * ny + y < (x + 1) * ny) by (nonlinear_arith)
        requires
            0 <= y < ny,
    ;
    assert((x + 1) * ny <= nx * ny) by (nonlinear_arith)
        requires
            x + 1 <= nx,
            0 <= ny,
    ;
    assert(0 <= x * ny) by (nonlinear_arith)
        requires
            0 <= x,
            0 <= ny,
    ;
}

pub proof fn lemma_cell_index_injective(ny: int, x1: int, y1: int, x2: int, y2: int)
    requires
        0 <= x1,
        0 <= x2,
        0 <= y1 < ny,
        0 <= y2 < ny,
        cell_index(ny, x1, y1) == cell_index(ny, x2, y2),
    ensures
        x1 == x2,
        y1 == y2,
{
    if x1 < x2 {
        assert(x1 * ny + y1 < x2 * ny + y2) by (nonlinear_arith)
            requires
                x1 < x2,
                0 <= y1 < ny,
                0 <= y2,
        ;
    } else if x2 < x1 {
        assert(x2 * ny + y2 < x1 * ny + y1) by (nonlinear_arith)
            requires
                x2 < x1,
                0 <= y2 < ny,
                0 <= y1,
        ;
    }
}

/// Whether a hex carries a unit of `player`.
pub open spec fn holds_player(h: Hex, player: u32) -> bool {
    h.unit matches Some(u) && u.player == player
}

/// The players that own a unit among the first `n` hexes.
pub open spec fn players_among(hexes: Seq<Hex>, n: int) -> Set<u32> {
    Set::new(|p: u32| exists|i: int| 0 <= i < n && #[trigger] holds_player(hexes[i], p))
}

/// Putting at index `i` a hex with the same coordinates, whose unit is well
/// formed, keeps the field well formed.
pub proof fn lemma_replace_keeps_wf(g: Grid, ng: Grid, i: int, h: Hex)
    requires
        g.wf(),
        0 <= i < g.hexes@.len(),
        h.x == g.hexes@[i].x,
        h.y == g.hexes@[i].y,
        h.unit matches Some(u) ==> u.wf(),
        ng.num_x == g.num_x,
        ng.num_y == g.num_y,
        ng.hexes@ == g.hexes@.update(i, h),
    ensures
        ng.wf(),
{
    assert forall|x: int, y: int| ng.in_grid(x, y) implies {
        &&& (#[trigger] ng.hex_at(x, y)).x == x
        &&& ng.hex_at(x, y).y == y
    } by {
        assert(g.in_grid(x, y));
        lemma_cell_index_bounds(g.num_x as int, g.num_y as int, x, y);
        assert(g.hex_at(x, y).x == x);
        if cell_index(g.num_y as int, x, y) == i {
            assert(ng.hex_at(x, y) == h);
        } else {
            assert(ng.hex_at(x, y) == g.hex_at(x, y));
        }
    }
}

impl Grid {
    pub open spec fn in_grid(&self, x: int, y: int) -> bool {
        0 <= x < self.num_x && 0 <= y < self.num_y
    }

    pub open spec fn hex_at(&self, x: int, y: int) -> Hex {
        self.hexes@[cell_index(self.num_y as int, x, y)]
    }

    /// The field's invariant: one hex for each coordinate, at its place, and
    /// every unit on it well formed.
    pub open spec fn wf(&self) -> bool {
        &&& self.hexes@.len() == self.num_x * self.num_y
        &&& forall|x: int, y: int|
            self.in_grid(x, y) ==> {
                &&& (#[trigger] self.hex_at(x, y)).x == x
                &&& self.hex_at(x, y).y == y
            }
        &&& forall|i: int|
            0 <= i < self.hexes@.len() ==> {
                &&& ((#[trigger] self.hexes@[i]).unit matches Some(u) ==> u.wf())
                &&& self.in_grid(self.hexes@[i].x as int, self.hexes@[i].y as int)
                &&& cell_index(self.num_y as int, self.hexes@[i].x as int, self.hexes@[i].y as int) == i
            }
    }

    /// Every unit on a well-formed field is well formed.
    pub proof fn lemma_unit_wf(&self, x: int, y: int)
        requires
            self.wf(),
            self.in_grid(x, y),
        ensures
            self.hex_at(x, y).unit matches Some(u) ==> u.wf(),
    {
        lemma_cell_index_bounds(self.num_x as int, self.num_y as int, x, y);
    }

    /// The players that still own a unit on the field.
    pub open spec fn alive(&self) -> Set<u32> {
        players_among(self.hexes@, self.hexes@.len() as int)
    }

    /// A field of empty hexes.
    pub fn new(num_x: u32, num_y: u32) -> (r: Grid)
        requires
            num_x * num_y <= usize::MAX,
        ensures
            r.num_x == num_x,
            r.num_y == num_y,
            r.wf(),
            forall|x: int, y: int| r.in_grid(x, y) ==> (#[trigger] r.hex_at(x, y)).spec_is_empty(),
            forall|i: int| 0 <= i < r.hexes@.len() ==> (#[trigger] r.hexes@[i]).spec_is_empty(),
    {
        let mut hexes: Vec<Hex> = Vec::new();
        let mut x: u32 = 0;
        while x < num_x
            invariant
                x <= num_x,
                num_x * num_y <= usize::MAX,
                hexes@.len() == x * num_y,
                forall|k: int|
                    0 <= k < hexes@.len() ==> {
                        &&& (#[trigger] hexes@[k]).spec_is_empty()
                        &&& hexes@[k].x < num_x
                        &&& hexes@[k].y < num_y
                        &&& cell_index(num_y as int, hexes@[k].x as int, hexes@[k].y as int) == k
                    },
                forall|a: int, b: int|
                    0 <= a < x && 0 <= b < num_y ==> {
                        let h = #[trigger] hexes@[cell_index(num_y as int, a, b)];
                        h.x == a && h.y == b && h.spec_is_empty()
                    },
            decreases num_x - x,
        {
            let mut y: u32 = 0;
            while y < num_y
                invariant
                    x < num_x,
                    y <= num_y,
                    num_x * num_y <= usize::MAX,
                    hexes@.len() == x * num_y + y,
                    forall|k: int|
                    0 <= k < hexes@.len() ==> {
                        &&& (#[trigger] hexes@[k]).spec_is_empty()
                        &&& hexes@[k].x < num_x
                        &&& hexes@[k].y < num_y
                        &&& cell_index(num_y as int, hexes@[k].x as int, hexes@[k].y as int) == k
                    },
                    forall|a: int, b: int|
                        (0 <= a < x && 0 <= b < num_y) || (a == x && 0 <= b < y) ==> {
                            let h = #[trigger] hexes@[cell_index(num_y as int, a, b)];
                            h.x == a && h.y == b && h.spec_is_empty()
                        },
                decreases num_y - y,
            {
                proof {
                    lemma_cell_index_bounds(num_x as int, num_y as int, x as int, y as int);
                }
                let ghost before = hexes@;
                hexes.push(Hex::new(x, y));
                assert forall|a: int, b: int|
                    (0 <= a < x && 0 <= b < num_y) || (a == x && 0 <= b < y + 1) implies {
                        let h = #[trigger] hexes@[cell_index(num_y as int, a, b)];
                        h.x == a && h.y == b && h.spec_is_empty()
                    } by {
                    if a == x && b == y {
                    } else {
                        if a < x {
                            lemma_cell_index_bounds(x as int, num_y as int, a, b);
                        }
                        assert(hexes@[cell_index(num_y as int, a, b)] == before[cell_index(
                            num_y as int,
                            a,
                            b,
                        )]);
                    }
                }
                y = y + 1;
            }
            assert((x + 1) * num_y == x * num_y + num_y) by (nonlinear_arith);
            x = x + 1;
        }
        Grid { num_x, num_y, hexes }
    }

    /// Where the hex at `(x, y)` stands in `hexes`.
    fn index_of(&self, x: u32, y: u32) -> (r: usize)
        requires
            self.wf(),
            self.in_grid(x as int, y as int),
        ensures
            r == cell_index(self.num_y as int, x as int, y as int),
            r < self.hexes@.len(),
    {
        proof {
            lemma_cell_index_bounds(self.num_x as int, self.num_y as int, x as int, y as int);
        }
        let _len = self.hexes.len();
        assert(x * self.num_y <= cell_index(self.num_y as int, x as int, y as int));
        let row_start = x as usize * self.num_y as usize;
        row_start + y as usize
    }

    /// The hex at `(x, y)`, or nothing outside the field.
    pub fn get_hex(&self, x: u32, y: u32) -> (r: Option<Hex>)
        requires
            self.wf(),
        ensures
            r == if self.in_grid(x as int, y as int) {
                Some(self.hex_at(x as int, y as int))
            } else {
                None
            },
    {
        if x < self.num_x && y < self.num_y {
            let i = self.index_of(x, y);
            Some(self.hexes[i])
        } else {
            None
        }
    }

    /// The hex at `(x, y)` to change in place, or nothing outside the field.
    pub fn get_hex_mut(&mut self, x: u32, y: u32) -> (r: Option<&mut Hex>)
        requires
            old(self).wf(),
        ensures
            r is Some <==> old(self).in_grid(x as int, y as int),
            r is Some ==> *r->0 == old(self).hex_at(x as int, y as int),
            r is Some ==> *final(self) == (Grid {
                hexes: final(self).hexes,
                ..*old(self)
            }) && final(self).hexes@ == old(self).hexes@.update(
                cell_index(old(self).num_y as int, x as int, y as int),
                *final(r->0),
            ),
            r is None ==> *final(self) == *old(self),
    {
        if x < self.num_x && y < self.num_y {
            let i = self.index_of(x, y);
            Some(&mut self.hexes[i])
        } else {
            None
        }
    }

    /// A copy of the field.
    pub fn snapshot(&self) -> (r: Grid)
        ensures
            r.num_x == self.num_x,
            r.num_y == self.num_y,
            r.hexes@ == self.hexes@,
    {
        let mut hexes: Vec<Hex> = Vec::new();
        let mut i: usize = 0;
        while i < self.hexes.len()
            invariant
                i <= self.hexes@.len(),
                hexes@ == self.hexes@.subrange(0, i as int),
            decreases self.hexes@.len() - i,
        {
            hexes.push(self.hexes[i]);
            i = i + 1;
        }
        assert(hexes@ =~= self.hexes@);
        Grid { num_x: self.num_x, num_y: self.num_y, hexes }
    }

    /// Puts `h` in place of the hex at its own coordinates.
    pub fn put_hex(&mut self, h: Hex)
        requires
            old(self).wf(),
            old(self).in_grid(h.x as int, h.y as int),
            h.unit matches Some(u) ==> u.wf(),
        ensures
            final(self).wf(),
            final(self).num_x == old(self).num_x,
            final(self).num_y == old(self).num_y,
            final(self).hexes@ == old(self).hexes@.update(
                cell_index(old(self).num_y as int, h.x as int, h.y as int),
                h,
            ),
    {
        let i = self.index_of(h.x, h.y);
        let ghost g = *self;
        assert(g.hex_at(h.x as int, h.y as int).x == h.x);
        self.hexes.set(i, h);
        proof {
            lemma_replace_keeps_wf(g, *self, i as int, h);
        }
    }

    /// The players that own at least one unit on the field.
    pub fn players_alive(&self) -> (r: HashSet<u32>)
        ensures
            r@ == self.alive(),
    {
        let mut players: HashSet<u32> = HashSet::new();
        let mut i: usize = 0;
        while i < self.hexes.len()
            invariant
                i <= self.hexes@.len(),
                players@ == players_among(self.hexes@, i as int),
            decreases self.hexes@.len() - i,
        {
            let ghost before = players@;
            if let Some(unit) = self.hexes[i].unit {
                players.insert(unit.player);
            }
            assert(players@ =~= players_among(self.hexes@, i + 1)) by {
                assert forall|p: u32| players_among(self.hexes@, i + 1).contains(p) implies #[trigger] players@.contains(p) by {
                    let k = choose|k: int| 0 <= k < i + 1 && #[trigger] holds_player(self.hexes@[k], p);
                    if k < i {
                        assert(before.contains(p));
                    }
                }
                assert forall|p: u32| #[trigger] players@.contains(p) implies players_among(self.hexes@, i + 1).contains(p) by {
                    if before.contains(p) {
                        let k = choose|k: int| 0 <= k < i && #[trigger] holds_player(self.hexes@[k], p);
                        assert(holds_player(self.hexes@[k], p));
                    } else {
                        assert(holds_player(self.hexes@[i as int], p));
                    }
                }
            }
            i = i + 1;
        }
        players
    }
}

} // verus!

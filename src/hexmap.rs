use vstd::prelude::*;

use crate::grid::{cell_index, lemma_cell_index_bounds, lemma_cell_index_injective};
use crate::point::Point;

verus! {

/// Distances recorded for the cells of a field of `num_x` by `num_y` hexes;
/// a cell either has one distance or none.
#[derive(Clone, Debug)]
pub struct HexMap {
    pub num_x: u32,
    pub num_y: u32,
    pub dist: Vec<Option<u32>>,
}

impl HexMap {
    pub open spec fn wf(&self) -> bool {
        self.dist@.len() == self.num_x * self.num_y
    }

    pub open spec fn in_range(&self, x: int, y: int) -> bool {
        0 <= x < self.num_x && 0 <= y < self.num_y
    }

    /// The distance recorded for `(x, y)`, if any.
    pub open spec fn lookup(&self, x: int, y: int) -> Option<u32> {
        if self.in_range(x, y) {
            self.dist@[cell_index(self.num_y as int, x, y)]
        } else {
            None
        }
    }

    /// A map of the given size with no distance recorded.
    pub fn new(num_x: u32, num_y: u32) -> (r: HexMap)
        requires
            num_x * num_y <= usize::MAX,
        ensures
            r.wf(),
            r.num_x == num_x,
            r.num_y == num_y,
            forall|x: int, y: int| #[trigger] r.lookup(x, y) is None,
    {
        let n: usize = num_x as usize * num_y as usize;
        let mut dist: Vec<Option<u32>> = Vec::new();
        let mut i: usize = 0;
        while i < n
            invariant
                i <= n,
                dist@.len() == i,
                forall|k: int| 0 <= k < i ==> dist@[k] is None,
            decreases n - i,
        {
            dist.push(None);
            i = i + 1;
        }
        let r = HexMap { num_x, num_y, dist };
        assert forall|x: int, y: int| #[trigger] r.lookup(x, y) is None by {
            if r.in_range(x, y) {
                lemma_cell_index_bounds(num_x as int, num_y as int, x, y);
            }
        }
        r
    }

    fn slot(&self, x: u32, y: u32) -> (r: usize)
        requires
            self.wf(),
            self.in_range(x as int, y as int),
        ensures
            r == cell_index(self.num_y as int, x as int, y as int),
            r < self.dist@.len(),
    {
        proof {
            lemma_cell_index_bounds(self.num_x as int, self.num_y as int, x as int, y as int);
        }
        let _len = self.dist.len();
        assert(x * self.num_y <= cell_index(self.num_y as int, x as int, y as int));
        let row_start = x as usize * self.num_y as usize;
        row_start + y as usize
    }

    pub fn get(&self, p: &Point) -> (r: Option<u32>)
        requires
            self.wf(),
        ensures
            r == self.lookup(p.x as int, p.y as int),
    {
        if p.x < self.num_x && p.y < self.num_y {
            let i = self.slot(p.x, p.y);
            self.dist[i]
        } else {
            None
        }
    }

    pub fn contains_key(&self, p: &Point) -> (r: bool)
        requires
            self.wf(),
        ensures
            r == self.lookup(p.x as int, p.y as int) is Some,
    {
        self.get(p).is_some()
    }

    /// Records `value` for `p`; a point outside the map's size is not kept.
    pub fn insert(&mut self, p: Point, value: u32)
        requires
            old(self).wf(),
        ensures
            final(self).wf(),
            final(self).num_x == old(self).num_x,
            final(self).num_y == old(self).num_y,
            forall|x: int, y: int|
                #[trigger] final(self).lookup(x, y) == if x == p.x && y == p.y && old(self).in_range(
                    x,
                    y,
                ) {
                    Some(value)
                } else {
                    old(self).lookup(x, y)
                },
    {
        self.put(p, Some(value));
    }

    /// Forgets what is recorded for `p`.
    pub fn remove(&mut self, p: &Point)
        requires
            old(self).wf(),
        ensures
            final(self).wf(),
            final(self).num_x == old(self).num_x,
            final(self).num_y == old(self).num_y,
            forall|x: int, y: int|
                #[trigger] final(self).lookup(x, y) == if x == p.x && y == p.y {
                    None
                } else {
                    old(self).lookup(x, y)
                },
    {
        self.put(*p, None);
    }

    fn put(&mut self, p: Point, value: Option<u32>)
        requires
            old(self).wf(),
        ensures
            final(self).wf(),
            final(self).num_x == old(self).num_x,
            final(self).num_y == old(self).num_y,
            forall|x: int, y: int|
                #[trigger] final(self).lookup(x, y) == if x == p.x && y == p.y && old(self).in_range(
                    x,
                    y,
                ) {
                    value
                } else {
                    old(self).lookup(x, y)
                },
    {
        if p.x < self.num_x && p.y < self.num_y {
            let i = self.slot(p.x, p.y);
            self.dist.set(i, value);
            assert forall|x: int, y: int|
                #[trigger] self.lookup(x, y) == if x == p.x && y == p.y && old(self).in_range(x, y) {
                    value
                } else {
                    old(self).lookup(x, y)
                } by {
                if self.in_range(x, y) {
                    lemma_cell_index_bounds(self.num_x as int, self.num_y as int, x, y);
                    if cell_index(self.num_y as int, x, y) == i {
                        lemma_cell_index_injective(self.num_y as int, x, y, p.x as int, p.y as int);
                    }
                }
            }
        }
    }

    /// The points that have a distance, each once, column by column.
    pub fn keys(&self) -> (r: Vec<Point>)
        requires
            self.wf(),
        ensures
            forall|q: Point|
                r@.contains(q) <==> self.lookup(q.x as int, q.y as int) is Some,
            r@.no_duplicates(),
    {
        let mut r: Vec<Point> = Vec::new();
        let mut x: u32 = 0;
        while x < self.num_x
            invariant
                self.wf(),
                x <= self.num_x,
                forall|q: Point|
                    r@.contains(q) <==> (q.x < x && self.lookup(q.x as int, q.y as int) is Some),
                r@.no_duplicates(),
            decreases self.num_x - x,
        {
            let mut y: u32 = 0;
            while y < self.num_y
                invariant
                    self.wf(),
                    x < self.num_x,
                    y <= self.num_y,
                    forall|q: Point|
                        r@.contains(q) <==> ((q.x < x || (q.x == x && q.y < y)) && self.lookup(
                            q.x as int,
                            q.y as int,
                        ) is Some),
                    r@.no_duplicates(),
                decreases self.num_y - y,
            {
                let p = Point { x, y };
                if self.get(&p).is_some() {
                    let ghost before = r@;
                    assert(!before.contains(p));
                    r.push(p);
                    assert forall|i: int, j: int|
                        0 <= i < r@.len() && 0 <= j < r@.len() && i != j implies r@[i] != r@[j] by {
                        if j == r@.len() - 1 {
                            assert(before[i] == r@[i]);
                        } else if i == r@.len() - 1 {
                            assert(before[j] == r@[j]);
                        }
                    }
                    assert forall|q: Point|
                        r@.contains(q) <==> ((q.x < x || (q.x == x && q.y < y + 1)) && self.lookup(
                            q.x as int,
                            q.y as int,
                        ) is Some) by {
                        if q == p {
                            assert(r@[r@.len() - 1] == p);
                        } else {
                            if r@.contains(q) {
                                let k = choose|k: int| 0 <= k < r@.len() && r@[k] == q;
                                assert(before[k] == q);
                            }
                            if before.contains(q) {
                                let k = choose|k: int| 0 <= k < before.len() && before[k] == q;
                                assert(r@[k] == q);
                            }
                        }
                    }
                }
                y = y + 1;
            }
            x = x + 1;
        }
        r
    }
}

} // verus!

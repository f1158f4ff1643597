use vstd::prelude::*;

use crate::grid::Grid;
use crate::hex::Hex;
use crate::hexmap::HexMap;
use crate::point::{adjacent, candidate, lemma_candidates_are_adjacent, Point};
use crate::reach::{
    descends, first_step, lemma_descends_walks_down, lemma_first_step, steps_to, walks_down, grown, lemma_grown_records, lemma_reach_settled, lemma_within_bad_origin, records_reach,
    within,
};

verus! {

/// Why an intent is refused.
#[derive(Clone, Copy, Debug, PartialEq, Eq, Structural)]
pub enum GameError {
    NoHex,
    NoUnit,
    NoMoves,
    WrongHex,
    NoSelectedHex,
    SelectEnemy,
    AlreadyMoved,
}

/// What a click on a hex asks for.
#[derive(Clone, Copy, Debug, PartialEq, Eq, Structural)]
pub enum Action {
    Select,
    Deselect,
    Move,
    Attack,
}

/// A selected hex and the points its unit can reach.
#[derive(Debug)]
pub struct Selection {
    pub target: Hex,
    pub highlight_hexes: Vec<Point>,
}

/// The rules engine: the field and the active player's selection, a copy of
/// the hex as it was when selected.
#[derive(Clone, Debug)]
pub struct Game {
    pub field: Grid,
    pub selected_hex: Option<Hex>,
}

/// `q` is one of the neighbours of `p` on the field.
pub open spec fn is_neighbour(g: Grid, p: Point, q: Point) -> bool {
    g.in_grid(q.x as int, q.y as int) && adjacent(p.x as int, p.y as int, q.x as int, q.y as int)
}

/// Being neighbours on the field is symmetric: when `q` is a neighbour of a
/// point `p` of the field, `p` is a neighbour of `q`.
pub proof fn lemma_neighbours_symmetric(g: Grid, p: Point, q: Point)
    requires
        g.in_grid(p.x as int, p.y as int),
        is_neighbour(g, p, q),
    ensures
        is_neighbour(g, q, p),
{
    crate::point::lemma_adjacent_symmetric(p.x as int, p.y as int, q.x as int, q.y as int);
}

/// Two cells of `path` that follow each other are neighbours.
pub open spec fn is_walk(path: Seq<Point>) -> bool {
    forall|i: int|
        0 < i < path.len() ==> adjacent(
            #[trigger] path[i - 1].x as int,
            path[i - 1].y as int,
            path[i].x as int,
            path[i].y as int,
        )
}

impl Game {
    pub open spec fn wf(&self) -> bool {
        &&& self.field.wf()
        &&& (self.selected_hex matches Some(h) ==> {
            &&& self.field.in_grid(h.x as int, h.y as int)
            &&& (h.unit matches Some(u) ==> u.wf())
        })
    }

    /// A game on an empty field with nothing selected.
    pub fn new(num_x: u32, num_y: u32) -> (r: Game)
        requires
            num_x * num_y <= usize::MAX,
        ensures
            r.wf(),
            r.field.num_x == num_x,
            r.field.num_y == num_y,
            forall|x: int, y: int|
                r.field.in_grid(x, y) ==> (#[trigger] r.field.hex_at(x, y)).spec_is_empty(),
            forall|i: int| 0 <= i < r.field.hexes@.len() ==> (#[trigger] r.field.hexes@[i]).spec_is_empty(),
            r.selected_hex is None,
    {
        Game { field: Grid::new(num_x, num_y), selected_hex: None }
    }

    pub fn get_hex(&self, x: u32, y: u32) -> (r: Option<Hex>)
        requires
            self.field.wf(),
        ensures
            r == if self.field.in_grid(x as int, y as int) {
                Some(self.field.hex_at(x as int, y as int))
            } else {
                None
            },
    {
        self.field.get_hex(x, y)
    }

    pub fn get_hex_mut(&mut self, x: u32, y: u32) -> (r: Option<&mut Hex>)
        requires
            old(self).field.wf(),
        ensures
            r is Some <==> old(self).field.in_grid(x as int, y as int),
            r is Some ==> *r->0 == old(self).field.hex_at(x as int, y as int),
            r is Some ==> final(self).selected_hex == old(self).selected_hex
                && final(self).field.num_x == old(self).field.num_x
                && final(self).field.num_y == old(self).field.num_y
                && final(self).field.hexes@ == old(self).field.hexes@.update(
                crate::grid::cell_index(old(self).field.num_y as int, x as int, y as int),
                *final(r->0),
            ),
            r is None ==> *final(self) == *old(self),
    {
        self.field.get_hex_mut(x, y)
    }

    /// The `j`-th candidate neighbour of `(x, y)`, when both its coordinates
    /// are in range of `u32`.
    fn candidate_at(x: u32, y: u32, j: u32) -> (r: Option<Point>)
        requires
            j < 6,
        ensures
            r matches Some(q) ==> (q.x as int, q.y as int) == candidate(x as int, y as int, j as int),
            r is None ==> {
                let c = candidate(x as int, y as int, j as int);
                c.0 < 0 || c.0 > u32::MAX || c.1 < 0 || c.1 > u32::MAX
            },
    {
        let odd = y % 2 == 1;
        let (dx, dy): (i64, i64) = if j == 0 {
            (-1, 0)
        } else if j == 1 {
            (1, 0)
        } else if j == 2 {
            (if odd { -1 } else { 0 }, -1)
        } else if j == 3 {
            (if odd { 0 } else { 1 }, -1)
        } else if j == 4 {
            (if odd { -1 } else { 0 }, 1)
        } else {
            (if odd { 0 } else { 1 }, 1)
        };
        let nx: i64 = x as i64 + dx;
        let ny: i64 = y as i64 + dy;
        if 0 <= nx && nx <= u32::MAX as i64 && 0 <= ny && ny <= u32::MAX as i64 {
            Some(Point { x: nx as u32, y: ny as u32 })
        } else {
            None
        }
    }

    /// Whether one of the neighbours of `(x, y)` is recorded at distance `k`.
    fn touches_distance(&self, map: &HexMap, x: u32, y: u32, k: u32) -> (r: bool)
        requires
            map.wf(),
        ensures
            r == exists|j: int|
                0 <= j < 6 && #[trigger] map.lookup(candidate(x as int, y as int, j).0, candidate(x as int, y as int, j).1)
                    == Some(k),
    {
        let mut j: u32 = 0;
        while j < 6
            invariant
                map.wf(),
                j <= 6,
                forall|t: int|
                    0 <= t < j ==> #[trigger] map.lookup(
                        candidate(x as int, y as int, t).0,
                        candidate(x as int, y as int, t).1,
                    ) != Some(k),
            decreases 6 - j,
        {
            if let Some(q) = Self::candidate_at(x, y, j) {
                if map.get(&q) == Some(k) {
                    return true;
                }
            }
            j = j + 1;
        }
        false
    }

    /// One round of the fill: every free cell without a distance that
    /// touches a cell at distance `k` gets `k + 1`. Tells whether any did.
    fn expand_reach(&self, map: &mut HexMap, k: u32) -> (added: bool)
        requires
            self.field.wf(),
            old(map).wf(),
            old(map).num_x == self.field.num_x,
            old(map).num_y == self.field.num_y,
            k < u32::MAX,
            forall|x: int, y: int| #[trigger] old(map).lookup(x, y) matches Some(d) ==> d <= k,
        ensures
            final(map).wf(),
            final(map).num_x == self.field.num_x,
            final(map).num_y == self.field.num_y,
            forall|x: int, y: int|
                self.field.in_grid(x, y) ==> #[trigger] final(map).lookup(x, y) == grown(
                    self.field,
                    *old(map),
                    x,
                    y,
                    k as nat,
                ),
            !added ==> forall|x: int, y: int| #[trigger] final(map).lookup(x, y) == old(map).lookup(x, y),
    {
        let ghost m0 = *map;
        let mut added = false;
        let mut x: u32 = 0;
        while x < self.field.num_x
            invariant
                self.field.wf(),
                map.wf(),
                map.num_x == self.field.num_x,
                map.num_y == self.field.num_y,
                m0.num_x == self.field.num_x,
                m0.num_y == self.field.num_y,
                k < u32::MAX,
                x <= self.field.num_x,
                forall|a: int, b: int| #[trigger] m0.lookup(a, b) matches Some(d) ==> d <= k,
                forall|a: int, b: int|
                    self.field.in_grid(a, b) && a < x ==> #[trigger] map.lookup(a, b) == grown(
                        self.field,
                        m0,
                        a,
                        b,
                        k as nat,
                    ),
                forall|a: int, b: int| !(self.field.in_grid(a, b) && a < x) ==> #[trigger] map.lookup(a, b) == m0.lookup(a, b),
                !added ==> forall|a: int, b: int| #[trigger] map.lookup(a, b) == m0.lookup(a, b),
            decreases self.field.num_x - x,
        {
            let mut y: u32 = 0;
            while y < self.field.num_y
                invariant
                    self.field.wf(),
                    map.wf(),
                    map.num_x == self.field.num_x,
                    map.num_y == self.field.num_y,
                    m0.num_x == self.field.num_x,
                    m0.num_y == self.field.num_y,
                    k < u32::MAX,
                    x < self.field.num_x,
                    y <= self.field.num_y,
                    forall|a: int, b: int| #[trigger] m0.lookup(a, b) matches Some(d) ==> d <= k,
                    forall|a: int, b: int|
                        self.field.in_grid(a, b) && (a < x || (a == x && b < y)) ==> #[trigger] map.lookup(a, b)
                            == grown(self.field, m0, a, b, k as nat),
                    forall|a: int, b: int|
                        !(self.field.in_grid(a, b) && (a < x || (a == x && b < y))) ==> #[trigger] map.lookup(a, b)
                            == m0.lookup(a, b),
                    !added ==> forall|a: int, b: int| #[trigger] map.lookup(a, b) == m0.lookup(a, b),
                decreases self.field.num_y - y,
            {
                let p = Point { x, y };
                let ghost cur = *map;
                proof {
                    assert forall|j: int| 0 <= j < 6 implies (#[trigger] cur.lookup(
                        candidate(x as int, y as int, j).0,
                        candidate(x as int, y as int, j).1,
                    ) == Some(k)) == (m0.lookup(
                        candidate(x as int, y as int, j).0,
                        candidate(x as int, y as int, j).1,
                    ) == Some(k)) by {
                        let c = candidate(x as int, y as int, j);
                        if self.field.in_grid(c.0, c.1) && (c.0 < x || (c.0 == x && c.1 < y)) {
                            assert(cur.lookup(c.0, c.1) == grown(self.field, m0, c.0, c.1, k as nat));
                        } else {
                            assert(cur.lookup(c.0, c.1) == m0.lookup(c.0, c.1));
                        }
                    }
                }
                if map.get(&p).is_none() {
                    if let Some(h) = self.get_hex(x, y) {
                        if h.unit.is_none() && h.content.is_none() && self.touches_distance(map, x, y, k) {
                            proof {
                                let j = choose|j: int|
                                    0 <= j < 6 && #[trigger] cur.lookup(
                                        candidate(x as int, y as int, j).0,
                                        candidate(x as int, y as int, j).1,
                                    ) == Some(k);
                                assert(m0.lookup(
                                    candidate(x as int, y as int, j).0,
                                    candidate(x as int, y as int, j).1,
                                ) == Some(k));
                            }
                            map.insert(p, k + 1);
                            added = true;
                        } else {
                            proof {
                                if h.unit.is_none() && h.content.is_none() {
                                    assert forall|j: int| 0 <= j < 6 implies #[trigger] m0.lookup(
                                        candidate(x as int, y as int, j).0,
                                        candidate(x as int, y as int, j).1,
                                    ) != Some(k) by {
                                        assert(cur.lookup(
                                            candidate(x as int, y as int, j).0,
                                            candidate(x as int, y as int, j).1,
                                        ) != Some(k));
                                    }
                                }
                            }
                        }
                    }
                }
                y = y + 1;
            }
            x = x + 1;
        }
        added
    }

    /// The least number of steps in which each cell of the field is reached
    /// from `from` when at most `max_value` steps are taken, for the cells so
    /// reached. A step goes to a neighbour that holds neither a unit nor a
    /// content; the start may hold a unit but no content, and must lie on
    /// the field.
    pub fn fill_path_hexmap(&self, from: &Hex, max_value: u32) -> (r: HexMap)
        requires
            self.field.wf(),
        ensures
            records_reach(self.field, *from, r, max_value as nat),
    {
        let _len = self.field.hexes.len();
        let mut map = HexMap::new(self.field.num_x, self.field.num_y);
        if !(from.x < self.field.num_x && from.y < self.field.num_y && from.content.is_none()) {
            proof {
                assert forall|x: int, y: int| self.field.in_grid(x, y) implies !within(self.field, *from, x, y, max_value as nat) by {
                    lemma_within_bad_origin(self.field, *from, x, y, max_value as nat);
                }
            }
            return map;
        }
        map.insert(from.to_point(), 0);
        assert(records_reach(self.field, *from, map, 0));
        let mut k: u32 = 0;
        let mut settled = false;
        while k < max_value && !settled
            invariant
                self.field.wf(),
                k <= max_value,
                records_reach(self.field, *from, map, k as nat),
                settled ==> k >= 1 && forall|x: int, y: int|
                    #[trigger] within(self.field, *from, x, y, k as nat) ==> within(self.field, *from, x, y, (k - 1) as nat),
            decreases max_value - k,
        {
            let ghost m0 = map;
            let added = self.expand_reach(&mut map, k);
            proof {
                lemma_grown_records(self.field, *from, m0, map, k as nat);
                if !added {
                    assert forall|x: int, y: int|
                        #[trigger] within(self.field, *from, x, y, (k + 1) as nat) implies within(self.field, *from, x, y, k as nat) by {
                        crate::reach::lemma_within_in_grid(self.field, *from, x, y, (k + 1) as nat);
                        assert(map.lookup(x, y) == m0.lookup(x, y));
                        let d = m0.lookup(x, y)->0;
                        crate::reach::lemma_within_monotonic(self.field, *from, x, y, d as nat, k as nat);
                    }
                }
            }
            k = k + 1;
            settled = !added;
        }
        proof {
            if settled && k < max_value {
                lemma_reach_settled(self.field, *from, (k - 1) as nat, max_value as nat);
                assert forall|x: int, y: int| self.field.in_grid(x, y) && #[trigger] map.lookup(x, y) is None implies !within(
                    self.field,
                    *from,
                    x,
                    y,
                    max_value as nat,
                ) by {
                    if within(self.field, *from, x, y, max_value as nat) {
                        crate::reach::lemma_within_monotonic(self.field, *from, x, y, (k - 1) as nat, k as nat);
                    }
                }
            }
        }
        map
    }

    /// The points that the unit on `from` can reach with the movements it
    /// has left, the start included; nothing when there is no hex or no unit.
    pub fn available_points(&self, from: &Option<Hex>) -> (r: Vec<Point>)
        requires
            self.field.wf(),
        ensures
            r@.no_duplicates(),
            forall|q: Point|
                #[trigger] r@.contains(q) <==> (*from matches Some(h) && h.unit matches Some(u) && within(
                    self.field,
                    h,
                    q.x as int,
                    q.y as int,
                    u.movements as nat,
                )),
    {
        let from_hex = match from {
            Some(hex) => hex,
            None => {
                return Vec::new();
            },
        };
        let unit = match from_hex.unit {
            Some(unit) => unit,
            None => {
                return Vec::new();
            },
        };
        let hexmap = self.fill_path_hexmap(from_hex, unit.movements);
        let r = hexmap.keys();
        proof {
            assert forall|q: Point| #[trigger] r@.contains(q) <==> within(
                self.field,
                *from_hex,
                q.x as int,
                q.y as int,
                unit.movements as nat,
            ) by {
                if hexmap.lookup(q.x as int, q.y as int) is Some {
                    assert(hexmap.in_range(q.x as int, q.y as int));
                    let d = hexmap.lookup(q.x as int, q.y as int)->0;
                    crate::reach::lemma_within_monotonic(
                        self.field,
                        *from_hex,
                        q.x as int,
                        q.y as int,
                        d as nat,
                        unit.movements as nat,
                    );
                }
                if within(self.field, *from_hex, q.x as int, q.y as int, unit.movements as nat) {
                    crate::reach::lemma_within_in_grid(
                        self.field,
                        *from_hex,
                        q.x as int,
                        q.y as int,
                        unit.movements as nat,
                    );
                }
            }
        }
        r
    }

    /// The first neighbour of `p` on the field, in the neighbour order,
    /// recorded at distance `t`, if any.
    fn neighbour_at_distance(&self, hexmap: &HexMap, p: &Point, t: u32) -> (r: Option<Point>)
        requires
            self.field.wf(),
            hexmap.wf(),
        ensures
            ({
                let j = first_step(self.field, *hexmap, p.x as int, p.y as int, t as int);
                &&& j < 6 ==> (r matches Some(q) && (q.x as int, q.y as int) == candidate(
                    p.x as int,
                    p.y as int,
                    j,
                ))
                &&& j == 6 ==> r is None
            }),
            r matches Some(q) ==> is_neighbour(self.field, *p, q) && hexmap.lookup(q.x as int, q.y as int)
                == Some(t),
    {
        proof {
            lemma_first_step(self.field, *hexmap, p.x as int, p.y as int, t as int);
        }
        let mut j: u32 = 0;
        while j < 6
            invariant
                self.field.wf(),
                hexmap.wf(),
                j <= 6,
                forall|k: int|
                    0 <= k < j ==> !#[trigger] steps_to(self.field, *hexmap, p.x as int, p.y as int, t as int, k),
            decreases 6 - j,
        {
            if let Some(q) = Self::candidate_at(p.x, p.y, j) {
                if q.x < self.field.num_x && q.y < self.field.num_y && hexmap.get(&q) == Some(t) {
                    proof {
                        assert(steps_to(self.field, *hexmap, p.x as int, p.y as int, t as int, j as int));
                        lemma_candidates_are_adjacent(p.x as int, p.y as int, q.x as int, q.y as int);
                    }
                    return Some(q);
                }
            }
            j = j + 1;
        }
        None
    }

    /// The walk from the cell at distance 0 to `to`, found by going down the
    /// distances of `hexmap` from `to`, one neighbour at a time. Fails with
    /// `NoHex` when `from` or `to` has no distance, or when no neighbour is
    /// one step closer.
    pub fn restore_path_from_hexmap(&self, from: Point, to: Point, hexmap: &HexMap) -> (r: Result<
        Vec<Point>,
        GameError,
    >)
        requires
            self.field.wf(),
            hexmap.wf(),
        ensures
            hexmap.lookup(from.x as int, from.y as int) is None || hexmap.lookup(to.x as int, to.y as int)
                is None ==> r == Err::<Vec<Point>, GameError>(GameError::NoHex),
            r is Err ==> r == Err::<Vec<Point>, GameError>(GameError::NoHex),
            hexmap.lookup(from.x as int, from.y as int) is Some && hexmap.lookup(to.x as int, to.y as int)
                is Some ==> (r is Ok <==> walks_down(
                self.field,
                *hexmap,
                to.x as int,
                to.y as int,
                hexmap.lookup(to.x as int, to.y as int)->0 as nat,
            )),
            hexmap.lookup(from.x as int, from.y as int) is Some && hexmap.lookup(to.x as int, to.y as int)
                is Some && descends(self.field, *hexmap) ==> r is Ok,
            r matches Ok(path) ==> {
                &&& path@.len() == hexmap.lookup(to.x as int, to.y as int)->0 + 1
                &&& path@[path@.len() - 1] == to
                &&& is_walk(path@)
                &&& forall|i: int|
                    0 <= i < path@.len() ==> hexmap.lookup(
                        (#[trigger] path@[i]).x as int,
                        path@[i].y as int,
                    ) == Some(i as u32)
            },
    {
        if !hexmap.contains_key(&from) {
            return Err(GameError::NoHex);
        }
        let d = match hexmap.get(&to) {
            Some(d) => d,
            None => {
                return Err(GameError::NoHex);
            },
        };
        proof {
            if descends(self.field, *hexmap) {
                lemma_descends_walks_down(self.field, *hexmap, to.x as int, to.y as int, d as nat);
            }
        }
        let mut rev: Vec<Point> = Vec::new();
        rev.push(to);
        let mut i: u32 = d;
        while i > 0
            invariant
                self.field.wf(),
                hexmap.wf(),
                i <= d,
                hexmap.lookup(to.x as int, to.y as int) == Some(d),
                hexmap.lookup(from.x as int, from.y as int) is Some,
                rev@.len() == d - i + 1,
                rev@[0] == to,
                walks_down(self.field, *hexmap, to.x as int, to.y as int, d as nat) == walks_down(
                    self.field,
                    *hexmap,
                    rev@[rev@.len() - 1].x as int,
                    rev@[rev@.len() - 1].y as int,
                    i as nat,
                ),
                forall|t: int|
                    0 <= t < rev@.len() ==> hexmap.lookup((#[trigger] rev@[t]).x as int, rev@[t].y as int)
                        == Some((d - t) as u32),
                forall|t: int|
                    0 < t < rev@.len() ==> adjacent(
                        (#[trigger] rev@[t]).x as int,
                        rev@[t].y as int,
                        rev@[t - 1].x as int,
                        rev@[t - 1].y as int,
                    ),
            decreases i,
        {
            let cur = rev[rev.len() - 1];
            match self.neighbour_at_distance(hexmap, &cur, i - 1) {
                Some(q) => {
                    proof {
                        crate::point::lemma_adjacent_symmetric(cur.x as int, cur.y as int, q.x as int, q.y as int);
                    }
                    let ghost before = rev@;
                    rev.push(q);
                    proof {
                        assert forall|t: int|
                            0 < t < rev@.len() implies adjacent(
                            (#[trigger] rev@[t]).x as int,
                            rev@[t].y as int,
                            rev@[t - 1].x as int,
                            rev@[t - 1].y as int,
                        ) by {
                            if t < rev@.len() - 1 {
                                assert(rev@[t] == before[t]);
                                assert(rev@[t - 1] == before[t - 1]);
                            }
                        }
                        assert forall|t: int|
                            0 <= t < rev@.len() implies hexmap.lookup(
                            (#[trigger] rev@[t]).x as int,
                            rev@[t].y as int,
                        ) == Some((d - t) as u32) by {
                            if t < rev@.len() - 1 {
                                assert(rev@[t] == before[t]);
                            }
                        }
                    }
                },
                None => {
                    proof {
                        lemma_first_step(self.field, *hexmap, cur.x as int, cur.y as int, i - 1);
                    }
                    return Err(GameError::NoHex);
                },
            }
            i = i - 1;
        }
        let n = rev.len();
        let mut path: Vec<Point> = Vec::new();
        let mut s: usize = 0;
        while s < n
            invariant
                n == rev@.len(),
                n == d + 1,
                s <= n,
                path@.len() == s,
                forall|t: int| 0 <= t < s ==> #[trigger] path@[t] == rev@[n - 1 - t],
            decreases n - s,
        {
            path.push(rev[n - 1 - s]);
            s = s + 1;
        }
        proof {
            assert(path@[path@.len() - 1] == rev@[0]);
            assert forall|t: int| 0 < t < path@.len() implies adjacent(
                #[trigger] path@[t - 1].x as int,
                path@[t - 1].y as int,
                path@[t].x as int,
                path@[t].y as int,
            ) by {
                assert(path@[t - 1] == rev@[n - t]);
                assert(path@[t] == rev@[n - 1 - t]);
            }
            assert forall|t: int| 0 <= t < path@.len() implies hexmap.lookup(
                (#[trigger] path@[t]).x as int,
                path@[t].y as int,
            ) == Some(t as u32) by {
                assert(path@[t] == rev@[n - 1 - t]);
            }
        }
        Ok(path)
    }

    /// The hexes of the field that neighbour `point`, each once.
    #[verifier::spinoff_prover]
    pub fn find_neighbours(&self, point: &Point) -> (r: Vec<Hex>)
        requires
            self.field.wf(),
        ensures
            forall|i: int|
                0 <= i < r@.len() ==> is_neighbour(self.field, *point, #[trigger] r@[i].spec_point())
                    && r@[i] == self.field.hex_at(r@[i].x as int, r@[i].y as int),
            forall|q: Point|
                is_neighbour(self.field, *point, q) ==> exists|i: int|
                    0 <= i < r@.len() && #[trigger] r@[i].spec_point() == q,
            forall|i: int, k: int|
                0 <= i < k < r@.len() ==> r@[i].spec_point() != r@[k].spec_point(),
    {
        let mut hexes: Vec<Hex> = Vec::new();
        let mut j: u32 = 0;
        while j < 6
            invariant
                self.field.wf(),
                j <= 6,
                forall|i: int| #![trigger hexes@[i]]
                    0 <= i < hexes@.len() ==> exists|t: int|
                        0 <= t < j && (hexes@[i].x as int, hexes@[i].y as int) == #[trigger] candidate(
                            point.x as int,
                            point.y as int,
                            t,
                        ),
                forall|i: int|
                    0 <= i < hexes@.len() ==> is_neighbour(self.field, *point, #[trigger] hexes@[i].spec_point())
                        && hexes@[i] == self.field.hex_at(hexes@[i].x as int, hexes@[i].y as int),
                forall|t: int|
                    0 <= t < j && self.field.in_grid(
                        candidate(point.x as int, point.y as int, t).0,
                        candidate(point.x as int, point.y as int, t).1,
                    ) ==> exists|i: int|
                        0 <= i < hexes@.len() && (hexes@[i].x as int, hexes@[i].y as int)
                            == #[trigger] candidate(point.x as int, point.y as int, t),
                forall|i: int, k: int|
                    0 <= i < k < hexes@.len() ==> hexes@[i].spec_point() != hexes@[k].spec_point(),
            decreases 6 - j,
        {
            let ghost before = hexes@;
            if let Some(q) = Self::candidate_at(point.x, point.y, j) {
                if let Some(h) = self.get_hex(q.x, q.y) {
                    proof {
                        lemma_candidates_are_adjacent(point.x as int, point.y as int, q.x as int, q.y as int);
                        assert forall|i: int| 0 <= i < before.len() implies #[trigger] before[i].spec_point() != q by {
                            let t = choose|t: int|
                                0 <= t < j && (before[i].x as int, before[i].y as int) == #[trigger] candidate(
                                    point.x as int,
                                    point.y as int,
                                    t,
                                );
                        }
                    }
                    hexes.push(h);
                    proof {
                        assert forall|i: int| #![trigger hexes@[i]]
                            0 <= i < hexes@.len() implies exists|t: int|
                                0 <= t < j + 1 && (hexes@[i].x as int, hexes@[i].y as int)
                                    == #[trigger] candidate(point.x as int, point.y as int, t) by {
                            if i < before.len() {
                                assert(hexes@[i] == before[i]);
                                let t = choose|t: int|
                                    0 <= t < j && (before[i].x as int, before[i].y as int)
                                        == #[trigger] candidate(point.x as int, point.y as int, t);
                            } else {
                                assert(candidate(point.x as int, point.y as int, j as int) == (
                                    hexes@[i].x as int,
                                    hexes@[i].y as int,
                                ));
                            }
                        }
                        assert forall|t: int|
                            0 <= t < j + 1 && self.field.in_grid(
                                candidate(point.x as int, point.y as int, t).0,
                                candidate(point.x as int, point.y as int, t).1,
                            ) implies exists|i: int|
                                0 <= i < hexes@.len() && (hexes@[i].x as int, hexes@[i].y as int)
                                    == #[trigger] candidate(point.x as int, point.y as int, t) by {
                            if t < j {
                                let i = choose|i: int|
                                    0 <= i < before.len() && (before[i].x as int, before[i].y as int)
                                        == #[trigger] candidate(point.x as int, point.y as int, t);
                                assert(hexes@[i] == before[i]);
                            } else {
                                assert(hexes@[before.len() as int] == h);
                            }
                        }
                    }
                }
            }
            j = j + 1;
        }
        proof {
            assert forall|q: Point| is_neighbour(self.field, *point, q) implies exists|i: int|
                0 <= i < hexes@.len() && #[trigger] hexes@[i].spec_point() == q by {
                lemma_candidates_are_adjacent(point.x as int, point.y as int, q.x as int, q.y as int);
                let t = choose|t: int|
                    0 <= t < 6 && #[trigger] candidate(point.x as int, point.y as int, t) == (
                        q.x as int,
                        q.y as int,
                    );
                let i = choose|i: int|
                    0 <= i < hexes@.len() && (hexes@[i].x as int, hexes@[i].y as int)
                        == #[trigger] candidate(point.x as int, point.y as int, t);
                assert(hexes@[i].spec_point() == q);
            }
        }
        hexes
    }
}

} // verus!

use vstd::prelude::*;

use crate::grid::Grid;
use crate::hex::Hex;
use crate::hexmap::HexMap;
use crate::point::{adjacent, candidate, lemma_adjacent_symmetric, lemma_candidates_are_adjacent};

verus! {

/// A unit may step onto `(x, y)`: it is on the field and holds neither a
/// unit nor a content.
pub open spec fn passable(g: Grid, x: int, y: int) -> bool {
    &&& g.in_grid(x, y)
    &&& g.hex_at(x, y).unit is None
    &&& g.hex_at(x, y).content is None
}

/// A walk may start from the hex `o`: it lies on the field and holds no
/// content.
pub open spec fn origin_ok(g: Grid, o: Hex) -> bool {
    g.in_grid(o.x as int, o.y as int) && o.content is None
}

/// `(x, y)` is reached from the hex `o` in at most `k` steps, each step to a
/// neighbour that a unit may step onto.
pub open spec fn within(g: Grid, o: Hex, x: int, y: int, k: nat) -> bool
    decreases k,
{
    if k == 0 {
        x == o.x && y == o.y && origin_ok(g, o)
    } else {
        let k1 = (k - 1) as nat;
        ||| within(g, o, x, y, k1)
        ||| passable(g, x, y) && {
            ||| within(g, o, candidate(x, y, 0).0, candidate(x, y, 0).1, k1)
            ||| within(g, o, candidate(x, y, 1).0, candidate(x, y, 1).1, k1)
            ||| within(g, o, candidate(x, y, 2).0, candidate(x, y, 2).1, k1)
            ||| within(g, o, candidate(x, y, 3).0, candidate(x, y, 3).1, k1)
            ||| within(g, o, candidate(x, y, 4).0, candidate(x, y, 4).1, k1)
            ||| within(g, o, candidate(x, y, 5).0, candidate(x, y, 5).1, k1)
        }
    }
}

/// `(x, y)` is reached in `k` steps, `k > 0`, from its `j`-th neighbour.
pub open spec fn stepped_from(g: Grid, o: Hex, x: int, y: int, j: int, k: nat) -> bool {
    passable(g, x, y) && within(g, o, candidate(x, y, j).0, candidate(x, y, j).1, (k - 1) as nat)
}

/// A cell reached in `k > 0` steps but not in `k - 1` is a free cell
/// reached from one of its neighbours.
pub proof fn lemma_within_step(g: Grid, o: Hex, x: int, y: int, k: nat)
    requires
        k > 0,
    ensures
        within(g, o, x, y, k) <==> (within(g, o, x, y, (k - 1) as nat) || exists|j: int|
            0 <= j < 6 && #[trigger] stepped_from(g, o, x, y, j, k)),
{
    if within(g, o, x, y, k) && !within(g, o, x, y, (k - 1) as nat) {
        if stepped_from(g, o, x, y, 0, k) {
        } else if stepped_from(g, o, x, y, 1, k) {
        } else if stepped_from(g, o, x, y, 2, k) {
        } else if stepped_from(g, o, x, y, 3, k) {
        } else if stepped_from(g, o, x, y, 4, k) {
        } else {
            assert(stepped_from(g, o, x, y, 5, k));
        }
    }
    if exists|j: int| 0 <= j < 6 && #[trigger] stepped_from(g, o, x, y, j, k) {
        let j = choose|j: int| 0 <= j < 6 && #[trigger] stepped_from(g, o, x, y, j, k);
        assert(j == 0 || j == 1 || j == 2 || j == 3 || j == 4 || j == 5);
    }
}

/// `m` holds, for each cell of `g`, the least number of steps in which it is
/// reached from `o`, for every cell reached in at most `k` steps, and
/// nothing for the others.
pub open spec fn records_reach(g: Grid, o: Hex, m: HexMap, k: nat) -> bool {
    &&& m.wf()
    &&& m.num_x == g.num_x
    &&& m.num_y == g.num_y
    &&& forall|x: int, y: int|
        g.in_grid(x, y) ==> {
            &&& (#[trigger] m.lookup(x, y) matches Some(d) ==> {
                &&& d <= k
                &&& within(g, o, x, y, d as nat)
                &&& (d == 0 || !within(g, o, x, y, (d - 1) as nat))
            })
            &&& (m.lookup(x, y) is None ==> !within(g, o, x, y, k))
        }
}

/// Every cell of `m` at a distance `d > 0` has a neighbour on the field of
/// `g` at distance `d - 1`: walking down from any cell reaches distance 0.
pub open spec fn descends(g: Grid, m: HexMap) -> bool {
    forall|x: int, y: int|
        #[trigger] m.lookup(x, y) is Some && m.lookup(x, y)->0 > 0 ==> exists|j: int|
            0 <= j < 6 && g.in_grid(candidate(x, y, j).0, candidate(x, y, j).1) && #[trigger] m.lookup(
                candidate(x, y, j).0,
                candidate(x, y, j).1,
            ) == Some((m.lookup(x, y)->0 - 1) as u32)
}

/// The `j`-th neighbour of `(x, y)` lies on the field of `g` and is recorded
/// at distance `t` in `m`.
pub open spec fn steps_to(g: Grid, m: HexMap, x: int, y: int, t: int, j: int) -> bool {
    g.in_grid(candidate(x, y, j).0, candidate(x, y, j).1) && m.lookup(candidate(x, y, j).0, candidate(x, y, j).1)
        == Some(t as u32)
}

/// The first `j`, in the neighbour order, whose neighbour of `(x, y)` is
/// recorded at distance `t`; 6 when there is none.
pub open spec fn first_step(g: Grid, m: HexMap, x: int, y: int, t: int) -> int {
    if steps_to(g, m, x, y, t, 0) {
        0
    } else if steps_to(g, m, x, y, t, 1) {
        1
    } else if steps_to(g, m, x, y, t, 2) {
        2
    } else if steps_to(g, m, x, y, t, 3) {
        3
    } else if steps_to(g, m, x, y, t, 4) {
        4
    } else if steps_to(g, m, x, y, t, 5) {
        5
    } else {
        6
    }
}

/// Going down from `(x, y)` at distance `d`, each time to the first
/// neighbour one step closer, reaches distance 0.
pub open spec fn walks_down(g: Grid, m: HexMap, x: int, y: int, d: nat) -> bool
    decreases d,
{
    if d == 0 {
        true
    } else {
        let j = first_step(g, m, x, y, d - 1);
        j < 6 && walks_down(g, m, candidate(x, y, j).0, candidate(x, y, j).1, (d - 1) as nat)
    }
}

pub proof fn lemma_first_step(g: Grid, m: HexMap, x: int, y: int, t: int)
    ensures
        0 <= first_step(g, m, x, y, t) <= 6,
        first_step(g, m, x, y, t) < 6 ==> steps_to(g, m, x, y, t, first_step(g, m, x, y, t)),
        forall|j: int| 0 <= j < first_step(g, m, x, y, t) ==> !#[trigger] steps_to(g, m, x, y, t, j),
        first_step(g, m, x, y, t) == 6 <==> forall|j: int| 0 <= j < 6 ==> !#[trigger] steps_to(g, m, x, y, t, j),
{
}

/// In a map that descends, the walk down from any recorded cell reaches
/// distance 0.
pub proof fn lemma_descends_walks_down(g: Grid, m: HexMap, x: int, y: int, d: nat)
    requires
        descends(g, m),
        m.lookup(x, y) == Some(d as u32),
        d <= u32::MAX,
    ensures
        walks_down(g, m, x, y, d),
    decreases d,
{
    if d > 0 {
        let j0 = choose|j: int|
            0 <= j < 6 && g.in_grid(candidate(x, y, j).0, candidate(x, y, j).1) && #[trigger] m.lookup(
                candidate(x, y, j).0,
                candidate(x, y, j).1,
            ) == Some((m.lookup(x, y)->0 - 1) as u32);
        assert(steps_to(g, m, x, y, d - 1, j0));
        lemma_first_step(g, m, x, y, d - 1);
        let j = first_step(g, m, x, y, d - 1);
        assert(j < 6);
        lemma_descends_walks_down(g, m, candidate(x, y, j).0, candidate(x, y, j).1, (d - 1) as nat);
    }
}

/// What a cell of `m0` holds after one more round of the fill at distance
/// `k`: a free cell without a distance that touches a cell at `k` gets
/// `k + 1`.
pub open spec fn grown(g: Grid, m0: HexMap, x: int, y: int, k: nat) -> Option<u32> {
    if m0.lookup(x, y) is None && passable(g, x, y) && exists|j: int|
        0 <= j < 6 && #[trigger] m0.lookup(candidate(x, y, j).0, candidate(x, y, j).1) == Some(
            k as u32,
        ) {
        Some((k + 1) as u32)
    } else {
        m0.lookup(x, y)
    }
}

pub proof fn lemma_within_in_grid(g: Grid, o: Hex, x: int, y: int, k: nat)
    requires
        within(g, o, x, y, k),
    ensures
        g.in_grid(x, y),
    decreases k,
{
    if k > 0 && within(g, o, x, y, (k - 1) as nat) {
        lemma_within_in_grid(g, o, x, y, (k - 1) as nat);
    }
}

pub proof fn lemma_within_monotonic(g: Grid, o: Hex, x: int, y: int, a: nat, b: nat)
    requires
        within(g, o, x, y, a),
        a <= b,
    ensures
        within(g, o, x, y, b),
    decreases b - a,
{
    if a < b {
        lemma_within_monotonic(g, o, x, y, a, (b - 1) as nat);
        lemma_within_step(g, o, x, y, b);
    }
}

/// Nothing is reached from a hex that is off the field or holds a content.
pub proof fn lemma_within_bad_origin(g: Grid, o: Hex, x: int, y: int, k: nat)
    requires
        !origin_ok(g, o),
    ensures
        !within(g, o, x, y, k),
    decreases k,
{
    if k > 0 {
        lemma_within_bad_origin(g, o, x, y, (k - 1) as nat);
        lemma_within_step(g, o, x, y, k);
        assert forall|j: int| 0 <= j < 6 implies !#[trigger] stepped_from(g, o, x, y, j, k) by {
            lemma_within_bad_origin(g, o, candidate(x, y, j).0, candidate(x, y, j).1, (k - 1) as nat);
        }
    }
}

/// One round of the fill turns a record for `k` steps into one for `k + 1`.
pub proof fn lemma_grown_records(g: Grid, o: Hex, m0: HexMap, m1: HexMap, k: nat)
    requires
        records_reach(g, o, m0, k),
        k + 1 <= u32::MAX,
        m1.wf(),
        m1.num_x == g.num_x,
        m1.num_y == g.num_y,
        forall|x: int, y: int| g.in_grid(x, y) ==> #[trigger] m1.lookup(x, y) == grown(g, m0, x, y, k),
    ensures
        records_reach(g, o, m1, k + 1),
{
    assert forall|x: int, y: int| g.in_grid(x, y) implies {
        &&& (#[trigger] m1.lookup(x, y) matches Some(d) ==> {
            &&& d <= k + 1
            &&& within(g, o, x, y, d as nat)
            &&& (d == 0 || !within(g, o, x, y, (d - 1) as nat))
        })
        &&& (m1.lookup(x, y) is None ==> !within(g, o, x, y, k + 1))
    } by {
        assert(m1.lookup(x, y) == grown(g, m0, x, y, k));
        lemma_within_step(g, o, x, y, k + 1);
        if m0.lookup(x, y) is None {
            if m1.lookup(x, y) is Some {
                let j = choose|j: int|
                    0 <= j < 6 && #[trigger] m0.lookup(candidate(x, y, j).0, candidate(x, y, j).1)
                        == Some(k as u32);
                let c = candidate(x, y, j);
                assert(m0.in_range(c.0, c.1));
                assert(g.in_grid(c.0, c.1));
                assert(within(g, o, c.0, c.1, k));
                assert(stepped_from(g, o, x, y, j, k + 1));
            } else if within(g, o, x, y, k + 1) {
                let j = choose|j: int| 0 <= j < 6 && #[trigger] stepped_from(g, o, x, y, j, k + 1);
                let c = candidate(x, y, j);
                lemma_within_in_grid(g, o, c.0, c.1, k);
                let d = m0.lookup(c.0, c.1)->0;
                assert(m0.lookup(c.0, c.1) != Some(k as u32));
                assert(d < k);
                lemma_within_step(g, o, x, y, (d + 1) as nat);
                assert(stepped_from(g, o, x, y, j, (d + 1) as nat));
                lemma_within_monotonic(g, o, x, y, (d + 1) as nat, k);
            }
        }
    }
}

/// When no cell needs `k + 1` steps where `k` would do, no cell needs more
/// than `k`.
pub proof fn lemma_reach_settled(g: Grid, o: Hex, k: nat, n: nat)
    requires
        forall|x: int, y: int| #[trigger] within(g, o, x, y, k + 1) ==> within(g, o, x, y, k),
        k <= n,
    ensures
        forall|x: int, y: int| #[trigger] within(g, o, x, y, n) ==> within(g, o, x, y, k),
    decreases n - k,
{
    if n > k + 1 {
        lemma_reach_settled(g, o, k, (n - 1) as nat);
        assert forall|x: int, y: int| #[trigger] within(g, o, x, y, n) implies within(g, o, x, y, k) by {
            lemma_within_step(g, o, x, y, n);
            if !within(g, o, x, y, (n - 1) as nat) {
                let j = choose|j: int| 0 <= j < 6 && #[trigger] stepped_from(g, o, x, y, j, n);
                let c = candidate(x, y, j);
                assert(within(g, o, c.0, c.1, (n - 1) as nat));
                assert(within(g, o, c.0, c.1, k));
                lemma_within_step(g, o, x, y, k + 1);
                assert(stepped_from(g, o, x, y, j, k + 1));
                assert(within(g, o, x, y, k + 1));
            }
        }
    }
}

/// A record of reach walks down: each recorded cell but the start has a
/// neighbour one step closer.
pub proof fn lemma_records_descend(g: Grid, o: Hex, m: HexMap, k: nat)
    requires
        records_reach(g, o, m, k),
    ensures
        descends(g, m),
{
    assert forall|x: int, y: int| #[trigger] m.lookup(x, y) is Some && m.lookup(x, y)->0 > 0 implies exists|j: int|
        0 <= j < 6 && g.in_grid(candidate(x, y, j).0, candidate(x, y, j).1) && #[trigger] m.lookup(
            candidate(x, y, j).0,
            candidate(x, y, j).1,
        ) == Some((m.lookup(x, y)->0 - 1) as u32) by {
        let d = m.lookup(x, y)->0;
        assert(m.in_range(x, y));
        assert(g.in_grid(x, y));
        lemma_within_step(g, o, x, y, d as nat);
        let j = choose|j: int| 0 <= j < 6 && #[trigger] stepped_from(g, o, x, y, j, d as nat);
        let c = candidate(x, y, j);
        lemma_within_in_grid(g, o, c.0, c.1, (d - 1) as nat);
        lemma_within_monotonic(g, o, c.0, c.1, (d - 1) as nat, k);
        assert(m.lookup(c.0, c.1) is Some);
        let e = m.lookup(c.0, c.1)->0;
        assert(within(g, o, c.0, c.1, e as nat));
        if e > d - 1 {
            assert(!within(g, o, c.0, c.1, (e - 1) as nat));
            lemma_within_monotonic(g, o, c.0, c.1, (d - 1) as nat, (e - 1) as nat);
        }
        if e < d - 1 {
            lemma_within_step(g, o, x, y, (e + 1) as nat);
            assert(stepped_from(g, o, x, y, j, (e + 1) as nat));
            lemma_within_monotonic(g, o, x, y, (e + 1) as nat, (d - 1) as nat);
        }
        assert(m.lookup(c.0, c.1) == Some((d - 1) as u32));
    }
}

/// In a record of reach the start is the one cell at distance 0, and every
/// other recorded cell is free of units and contents.
pub proof fn lemma_recorded_cell(g: Grid, o: Hex, m: HexMap, k: nat, x: int, y: int)
    requires
        records_reach(g, o, m, k),
        m.lookup(x, y) is Some,
    ensures
        m.lookup(x, y) == Some(0u32) <==> (x == o.x && y == o.y),
        m.lookup(x, y) != Some(0u32) ==> passable(g, x, y),
{
    assert(m.in_range(x, y));
    assert(g.in_grid(x, y));
    let d = m.lookup(x, y)->0;
    if !origin_ok(g, o) {
        lemma_within_bad_origin(g, o, x, y, d as nat);
    }
    if x == o.x && y == o.y {
        assert(within(g, o, x, y, 0));
        if d > 0 {
            lemma_within_monotonic(g, o, x, y, 0, (d - 1) as nat);
        }
    }
    if d > 0 {
        lemma_within_step(g, o, x, y, d as nat);
    }
}

/// Every cell reached in `k` steps is reached along a walk of at most
/// `k + 1` cells from the start, each a neighbour of the one before and each
/// after the first free of units and contents.
pub proof fn lemma_within_has_walk(g: Grid, o: Hex, x: int, y: int, k: nat) -> (walk: Seq<(int, int)>)
    requires
        within(g, o, x, y, k),
    ensures
        1 <= walk.len() <= k + 1,
        walk[0] == (o.x as int, o.y as int),
        walk[walk.len() - 1] == (x, y),
        forall|i: int| 0 < i < walk.len() ==> passable(g, #[trigger] walk[i].0, walk[i].1),
        forall|i: int|
            0 < i < walk.len() ==> adjacent(#[trigger] walk[i - 1].0, walk[i - 1].1, walk[i].0, walk[i].1),
    decreases k,
{
    if k == 0 {
        seq![(x, y)]
    } else if within(g, o, x, y, (k - 1) as nat) {
        lemma_within_has_walk(g, o, x, y, (k - 1) as nat)
    } else {
        lemma_within_step(g, o, x, y, k);
        let j = choose|j: int| 0 <= j < 6 && #[trigger] stepped_from(g, o, x, y, j, k);
        let c = candidate(x, y, j);
        let w = lemma_within_has_walk(g, o, c.0, c.1, (k - 1) as nat);
        lemma_candidates_are_adjacent(x, y, c.0, c.1);
        lemma_adjacent_symmetric(x, y, c.0, c.1);
        let walk = w.push((x, y));
        assert(walk[walk.len() - 2] == c);
        assert forall|i: int| 0 < i < walk.len() implies passable(g, #[trigger] walk[i].0, walk[i].1) by {
            if i < walk.len() - 1 {
                assert(walk[i] == w[i]);
            }
        }
        assert forall|i: int|
            0 < i < walk.len() implies adjacent(#[trigger] walk[i - 1].0, walk[i - 1].1, walk[i].0, walk[i].1) by {
            if i < walk.len() - 1 {
                assert(walk[i] == w[i]);
                assert(walk[i - 1] == w[i - 1]);
            }
        }
        walk
    }
}

} // verus!

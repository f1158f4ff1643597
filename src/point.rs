use vstd::prelude::*;

verus! {

/// A cell coordinate: `x` is the column, `y` the row.
#[derive(Clone, Copy, Debug, PartialEq, Eq, Hash, Structural)]
pub struct Point {
    pub x: u32,
    pub y: u32,
}

/// The neighbour rule of the field. Every row is shifted by half a cell
/// against the one above it: seen from an even row the cells of the rows
/// above and below that touch `(x, y)` are `x` and `x + 1`; seen from an
/// odd row they are `x - 1` and `x`. In its own row a cell touches `x - 1`
/// and `x + 1`.
pub open spec fn adjacent(px: int, py: int, qx: int, qy: int) -> bool {
    ||| qy == py && (qx == px - 1 || qx == px + 1)
    ||| (qy == py - 1 || qy == py + 1) && if py % 2 == 0 {
        qx == px || qx == px + 1
    } else {
        qx == px - 1 || qx == px
    }
}

/// The `j`-th candidate neighbour of `(x, y)`, for `j` in `0..6`, before the
/// field's bounds are applied.
pub open spec fn candidate(x: int, y: int, j: int) -> (int, int) {
    let dx: int = if y % 2 == 0 { 0 } else { -1 };
    if j == 0 {
        (x - 1, y)
    } else if j == 1 {
        (x + 1, y)
    } else if j == 2 {
        (x + dx, y - 1)
    } else if j == 3 {
        (x + dx + 1, y - 1)
    } else if j == 4 {
        (x + dx, y + 1)
    } else {
        (x + dx + 1, y + 1)
    }
}

/// The candidates are exactly the adjacent coordinates.
pub proof fn lemma_candidates_are_adjacent(x: int, y: int, qx: int, qy: int)
    ensures
        adjacent(x, y, qx, qy) <==> exists|j: int|
            0 <= j < 6 && #[trigger] candidate(x, y, j) == (qx, qy),
{
    if adjacent(x, y, qx, qy) {
        if qy == y && qx == x - 1 {
            assert(candidate(x, y, 0) == (qx, qy));
        } else if qy == y {
            assert(candidate(x, y, 1) == (qx, qy));
        } else if qy == y - 1 && candidate(x, y, 2) == (qx, qy) {
        } else if qy == y - 1 {
            assert(candidate(x, y, 3) == (qx, qy));
        } else if candidate(x, y, 4) == (qx, qy) {
        } else {
            assert(candidate(x, y, 5) == (qx, qy));
        }
    }
}

/// Adjacency is symmetric.
pub proof fn lemma_adjacent_symmetric(px: int, py: int, qx: int, qy: int)
    ensures
        adjacent(px, py, qx, qy) == adjacent(qx, qy, px, py),
{
}

/// No cell is its own neighbour.
pub proof fn lemma_adjacent_irreflexive(px: int, py: int)
    ensures
        !adjacent(px, py, px, py),
{
}

} // verus!

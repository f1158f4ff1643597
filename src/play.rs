use vstd::prelude::*;

use crate::dice::{roll, roll_index};
use crate::game::{is_neighbour, is_walk, Action, Game, GameError, Selection};
use crate::grid::{cell_index, holds_player, Grid};
use crate::hex::{Content, Hex, Wall};
use crate::hexmap::HexMap;
use crate::point::Point;
use crate::reach::{
    descends, lemma_recorded_cell, lemma_records_descend, lemma_within_bad_origin,
    lemma_within_monotonic, origin_ok, passable, records_reach, within,
};
use crate::tally::{
    counts, lemma_tally_bound, lemma_tally_full, lemma_tally_none, lemma_tally_update, tally, Tally,
};
use crate::unit::Unit;

verus! {

broadcast use vstd::std_specs::hash::group_hash_axioms;

pub const NUM_X_MIN: u32 = 5;
pub const NUM_X_MAX: u32 = 15;
pub const NUM_Y_MIN: u32 = 5;
pub const NUM_Y_MAX: u32 = 15;
pub const WALLS_PERCENT_MIN: u32 = 0;
pub const WALLS_PERCENT_MAX: u32 = 40;
pub const NUM_UNITS_MIN: u32 = 2;
pub const NUM_UNITS_MAX: u32 = 6;
pub const UNIT_HP: (u8, u8) = (1, 10);
pub const UNIT_MIN_DAMAGE: (u8, u8) = (1, 5);
pub const UNIT_DAMAGE_INTERVAL: (u8, u8) = (1, 5);
pub const UNIT_SPEED: (u8, u8) = (1, 8);

/// The field after a unit standing on `from` moved to `to` with `unit` as
/// its new state.
pub open spec fn moved_field(g: Grid, from: Point, to: Point, unit: Unit) -> Seq<Hex> {
    let fh = g.hex_at(from.x as int, from.y as int);
    let th = g.hex_at(to.x as int, to.y as int);
    g.hexes@.update(cell_index(g.num_y as int, from.x as int, from.y as int), Hex { unit: None, ..fh }).update(
        cell_index(g.num_y as int, to.x as int, to.y as int),
        Hex { unit: Some(unit), ..th },
    )
}

/// The hit points left after `damage`, never below zero.
pub open spec fn hp_after(hp: u32, damage: u32) -> u32 {
    if damage >= hp {
        0
    } else {
        (hp - damage) as u32
    }
}

/// Facts about the record of reach that a move works on.
proof fn lemma_move_map(g: Grid, o: Hex, m: HexMap, k: nat, to: Point)
    requires
        records_reach(g, o, m, k),
    ensures
        descends(g, m),
        within(g, o, to.x as int, to.y as int, k) ==> m.lookup(o.x as int, o.y as int) is Some && m.lookup(
            to.x as int,
            to.y as int,
        ) is Some,
        !within(g, o, to.x as int, to.y as int, k) ==> m.lookup(to.x as int, to.y as int) is None,
{
    lemma_records_descend(g, o, m, k);
    if within(g, o, to.x as int, to.y as int, k) {
        if !origin_ok(g, o) {
            lemma_within_bad_origin(g, o, to.x as int, to.y as int, k);
        }
        assert(within(g, o, o.x as int, o.y as int, 0));
        lemma_within_monotonic(g, o, o.x as int, o.y as int, 0, k);
        crate::reach::lemma_within_in_grid(g, o, to.x as int, to.y as int, k);
    } else if m.lookup(to.x as int, to.y as int) is Some {
        assert(m.in_range(to.x as int, to.y as int));
        let d = m.lookup(to.x as int, to.y as int)->0;
        lemma_within_monotonic(g, o, to.x as int, to.y as int, d as nat, k);
    }
}

/// Facts about a walk read off a record of reach.
proof fn lemma_move_path(g: Grid, o: Hex, m: HexMap, k: nat, to: Point, path: Seq<Point>)
    requires
        records_reach(g, o, m, k),
        path.len() == m.lookup(to.x as int, to.y as int)->0 + 1,
        m.lookup(to.x as int, to.y as int) is Some,
        path[path.len() - 1] == to,
        forall|i: int|
            0 <= i < path.len() ==> m.lookup((#[trigger] path[i]).x as int, path[i].y as int) == Some(
                i as u32,
            ),
    ensures
        1 <= path.len() <= k + 1,
        path[0] == o.spec_point(),
        g.in_grid(o.x as int, o.y as int),
        g.in_grid(to.x as int, to.y as int),
        forall|i: int| 0 < i < path.len() ==> passable(g, (#[trigger] path[i]).x as int, path[i].y as int),
        within(g, o, to.x as int, to.y as int, (path.len() - 1) as nat),
        to == o.spec_point() || passable(g, to.x as int, to.y as int),
        path.len() == 1 || !within(g, o, to.x as int, to.y as int, (path.len() - 2) as nat),
{
    let steps = path.len() - 1;
    assert(m.lookup(path[0].x as int, path[0].y as int) == Some(0u32));
    lemma_recorded_cell(g, o, m, k, path[0].x as int, path[0].y as int);
    assert(m.in_range(o.x as int, o.y as int));
    assert(m.in_range(to.x as int, to.y as int));
    assert forall|i: int| 0 < i < path.len() implies passable(g, (#[trigger] path[i]).x as int, path[i].y as int) by {
        assert(m.lookup(path[i].x as int, path[i].y as int) == Some(i as u32));
        lemma_recorded_cell(g, o, m, k, path[i].x as int, path[i].y as int);
    }
}

/// How a strike of `damage` on the unit at `to` of the field `g` ends: the
/// hexes reported hurt, those reported dead, and the hexes of the field
/// after it. A unit left without hit points is taken off the field.
pub open spec fn strikes(
    g: Grid,
    to: Point,
    damage: u32,
    hurt: Seq<Hex>,
    die: Seq<Hex>,
    after: Seq<Hex>,
) -> bool {
    let h = g.hex_at(to.x as int, to.y as int);
    let u = h.unit->0;
    let hit = Hex { unit: Some(Unit { hp: hp_after(u.hp, damage), ..u }), ..h };
    let i = cell_index(g.num_y as int, to.x as int, to.y as int);
    if hp_after(u.hp, damage) == 0 {
        &&& hurt == Seq::<Hex>::empty()
        &&& die == seq![hit]
        &&& after == g.hexes@.update(i, Hex { unit: None, ..h })
    } else {
        &&& hurt == seq![hit]
        &&& die == Seq::<Hex>::empty()
        &&& after == g.hexes@.update(i, hit)
    }
}

/// A click of a player on the hex of its own selected unit asks to drop the
/// selection, so a move onto the start never reaches the engine.
pub proof fn lemma_click_on_selection_deselects(game: Game, player: u32)
    requires
        game.wf(),
        game.selected_hex matches Some(h) && game.field.hex_at(h.x as int, h.y as int).unit matches Some(
            u,
        ) && u.player == player,
    ensures
        game.action_of(game.selected_hex->0.spec_point(), player) == Ok::<Action, GameError>(
            Action::Deselect,
        ),
{
}

/// With no movement left a unit reaches its own hex and nothing else.
pub proof fn lemma_no_movements_reach_only_start(g: Grid, o: Hex, q: Point)
    requires
        g.in_grid(o.x as int, o.y as int),
        o.content is None,
    ensures
        within(g, o, q.x as int, q.y as int, 0) <==> q == o.spec_point(),
{
}

/// The hexes reported hurt by a strike of `damage` on `to`.
pub open spec fn strike_hurt(g: Grid, to: Point, damage: u32) -> Seq<Hex> {
    let h = g.hex_at(to.x as int, to.y as int);
    let u = h.unit->0;
    if hp_after(u.hp, damage) == 0 {
        Seq::empty()
    } else {
        seq![Hex { unit: Some(Unit { hp: hp_after(u.hp, damage), ..u }), ..h }]
    }
}

/// A unit as a new random map deals them out.
pub open spec fn fresh_unit(u: Unit) -> bool {
    &&& UNIT_HP.0 <= u.hp <= UNIT_HP.1
    &&& UNIT_MIN_DAMAGE.0 <= u.damage[0] < UNIT_MIN_DAMAGE.1
    &&& UNIT_DAMAGE_INTERVAL.0 <= u.damage[1] - u.damage[0] <= UNIT_DAMAGE_INTERVAL.1
    &&& UNIT_SPEED.0 <= u.speed <= UNIT_SPEED.1
    &&& u.movements == u.speed
}

/// No hex holds both a unit and a content, and every unit is fresh.
pub open spec fn sound_hexes(s: Seq<Hex>) -> bool {
    forall|j: int|
        0 <= j < s.len() ==> {
            &&& !((#[trigger] s[j]).unit is Some && s[j].content is Some)
            &&& (s[j].unit matches Some(u) ==> fresh_unit(u))
        }
}

/// `wp` percent of the hexes, rounded down, hold a content, and each of the
/// `n` players owns `k` units while no other player owns any.
pub open spec fn random_counts(g: Grid, n: int, wp: int, k: int) -> bool {
    &&& tally(g.hexes@, Tally::Content) == g.num_x * g.num_y * wp / 100
    &&& forall|p: u32| #[trigger] tally(g.hexes@, Tally::UnitOf(p)) == if p < n {
        k
    } else {
        0
    }
}

/// A field as a new random map for `n` players has it: its size in range,
/// a percentage of walls and a number of units per player in range, and
/// fresh units each alone on its hex.
pub open spec fn random_field(g: Grid, n: int) -> bool {
    &&& g.wf()
    &&& NUM_X_MIN <= g.num_x <= NUM_X_MAX
    &&& NUM_Y_MIN <= g.num_y <= NUM_Y_MAX
    &&& sound_hexes(g.hexes@)
    &&& exists|wp: int, k: int|
        WALLS_PERCENT_MIN <= wp <= WALLS_PERCENT_MAX && NUM_UNITS_MIN <= k <= NUM_UNITS_MAX
            && #[trigger] random_counts(g, n, wp, k)
}

/// The walls that `walls_percent` percent of a field of `num_x` by `num_y`
/// hexes make, and `num_of_units` units for each of `n` players, fit the
/// field.
pub open spec fn fits(n: int, num_x: int, num_y: int, walls_percent: int, num_of_units: int) -> bool {
    num_x * num_y * walls_percent / 100 + n * num_of_units <= num_x * num_y
}

/// `r` is what filling a field with the drawn values gives.
pub open spec fn drawn_as(n: int, r: Result<Game, GameError>, num_x: u32, num_y: u32, wp: u32, k: u32) -> bool {
    &&& NUM_X_MIN <= num_x <= NUM_X_MAX
    &&& NUM_Y_MIN <= num_y <= NUM_Y_MAX
    &&& WALLS_PERCENT_MIN <= wp <= WALLS_PERCENT_MAX
    &&& NUM_UNITS_MIN <= k <= NUM_UNITS_MAX
    &&& (r is Ok <==> fits(n, num_x as int, num_y as int, wp as int, k as int))
    &&& (r is Err ==> r == Err::<Game, GameError>(GameError::NoHex))
    &&& (r matches Ok(g) ==> {
        &&& g.wf()
        &&& g.selected_hex is None
        &&& g.field.num_x == num_x
        &&& g.field.num_y == num_y
        &&& sound_hexes(g.field.hexes@)
        &&& random_counts(g.field, n, wp as int, k as int)
    })
}

/// What a new random game for `n` players can be: for some drawn field size,
/// wall percentage and number of units per player, whatever filling the
/// field with them gives; in particular a game whenever they fit.
pub open spec fn random_outcome(n: int, r: Result<Game, GameError>) -> bool {
    exists|num_x: u32, num_y: u32, wp: u32, k: u32| #[trigger] drawn_as(n, r, num_x, num_y, wp, k)
}

/// A field whose hexes each hold a unit or a content.
proof fn lemma_field_full(g: Grid)
    requires
        g.wf(),
        sound_hexes(g.hexes@),
        forall|x: int, y: int| g.in_grid(x, y) ==> !(#[trigger] g.hex_at(x, y)).spec_is_empty(),
    ensures
        tally(g.hexes@, Tally::Content) + tally(g.hexes@, Tally::Unit) == g.hexes@.len(),
{
    assert forall|j: int| 0 <= j < g.hexes@.len() implies ((#[trigger] g.hexes@[j]).unit is Some
        || g.hexes@[j].content is Some) && !(g.hexes@[j].unit is Some && g.hexes@[j].content is Some) by {
        assert(g.hex_at(g.hexes@[j].x as int, g.hexes@[j].y as int) == g.hexes@[j]);
    }
    lemma_tally_full(g.hexes@);
}

/// Putting `h` on an empty hex adds what `h` counts to every count.
proof fn lemma_place(g0: Grid, g1: Grid, x: int, y: int, h: Hex)
    requires
        g0.wf(),
        g0.in_grid(x, y),
        g0.hex_at(x, y).spec_is_empty(),
        g1.hexes@ == g0.hexes@.update(cell_index(g0.num_y as int, x, y), h),
    ensures
        forall|t: Tally|
            #[trigger] tally(g1.hexes@, t) == tally(g0.hexes@, t) + if counts(h, t) {
                1int
            } else {
                0int
            },
        sound_hexes(g0.hexes@) && !(h.unit is Some && h.content is Some) && (h.unit matches Some(u)
            ==> fresh_unit(u)) ==> sound_hexes(g1.hexes@),
{
    let i = cell_index(g0.num_y as int, x, y);
    crate::grid::lemma_cell_index_bounds(g0.num_x as int, g0.num_y as int, x, y);
    assert forall|t: Tally| #[trigger] tally(g1.hexes@, t) == tally(g0.hexes@, t) + if counts(h, t) {
        1int
    } else {
        0int
    } by {
        lemma_tally_update(g0.hexes@, i, h, t);
        assert(!counts(g0.hexes@[i], t));
    }
}

/// A move keeps every unit and every content on the field: the hexes with
/// a unit are as many as before, and each hex keeps its content.
pub proof fn lemma_move_keeps_units(g: Grid, from: Point, to: Point, unit: Unit)
    requires
        g.wf(),
        g.in_grid(from.x as int, from.y as int),
        g.in_grid(to.x as int, to.y as int),
        g.hex_at(from.x as int, from.y as int).unit is Some,
        to == from || g.hex_at(to.x as int, to.y as int).unit is None,
    ensures
        moved_field(g, from, to, unit).len() == g.hexes@.len(),
        tally(moved_field(g, from, to, unit), Tally::Unit) == tally(g.hexes@, Tally::Unit),
        forall|j: int|
            0 <= j < g.hexes@.len() ==> (#[trigger] moved_field(g, from, to, unit)[j]).content
                == g.hexes@[j].content,
{
    let fi = cell_index(g.num_y as int, from.x as int, from.y as int);
    let ti = cell_index(g.num_y as int, to.x as int, to.y as int);
    crate::grid::lemma_cell_index_bounds(g.num_x as int, g.num_y as int, from.x as int, from.y as int);
    crate::grid::lemma_cell_index_bounds(g.num_x as int, g.num_y as int, to.x as int, to.y as int);
    if fi == ti {
        crate::grid::lemma_cell_index_injective(
            g.num_y as int,
            from.x as int,
            from.y as int,
            to.x as int,
            to.y as int,
        );
    }
    let fh = g.hex_at(from.x as int, from.y as int);
    let th = g.hex_at(to.x as int, to.y as int);
    let s1 = g.hexes@.update(fi, Hex { unit: None, ..fh });
    lemma_tally_update(g.hexes@, fi, Hex { unit: None, ..fh }, Tally::Unit);
    lemma_tally_update(s1, ti, Hex { unit: Some(unit), ..th }, Tally::Unit);
}

/// The hex with the movements of a unit of player `p` restored.
pub open spec fn restore_hex(h: Hex, p: u32) -> Hex {
    if holds_player(h, p) {
        Hex { unit: Some(Unit { movements: h.unit->0.speed, ..h.unit->0 }), ..h }
    } else {
        h
    }
}

/// The hexes with the movements of every unit of player `p` restored.
pub open spec fn restored(s: Seq<Hex>, p: u32) -> Seq<Hex> {
    s.map_values(|h: Hex| restore_hex(h, p))
}

/// Among the first `n` hexes, those with a unit of player `p` that has
/// moved, as they are once restored.
pub open spec fn moved_of(s: Seq<Hex>, p: u32, n: int) -> Seq<Hex>
    decreases n,
{
    if n <= 0 {
        Seq::empty()
    } else {
        let rest = moved_of(s, p, n - 1);
        let h = s[n - 1];
        if holds_player(h, p) && h.unit->0.spec_has_moved() {
            rest.push(restore_hex(h, p))
        } else {
            rest
        }
    }
}

/// Restoring the movements of a player twice is restoring them once, and the
/// second time reports no hex.
pub proof fn lemma_restore_movements_idempotent(s: Seq<Hex>, p: u32)
    ensures
        restored(restored(s, p), p) == restored(s, p),
        moved_of(restored(s, p), p, s.len() as int) == Seq::<Hex>::empty(),
{
    assert(restored(restored(s, p), p) =~= restored(s, p));
    lemma_nothing_moved(restored(s, p), p, s.len() as int);
}

proof fn lemma_nothing_moved(s: Seq<Hex>, p: u32, n: int)
    requires
        n <= s.len(),
        forall|i: int| 0 <= i < s.len() && holds_player(#[trigger] s[i], p) ==> !s[i].unit->0.spec_has_moved(),
    ensures
        moved_of(s, p, n) == Seq::<Hex>::empty(),
    decreases n,
{
    if n > 0 {
        lemma_nothing_moved(s, p, n - 1);
    }
}

impl Game {
    /// What a click of `player` on `target` asks for, or why it is refused.
    pub open spec fn action_of(&self, target: Point, player: u32) -> Result<Action, GameError> {
        if !self.field.in_grid(target.x as int, target.y as int) {
            Err(GameError::NoHex)
        } else {
            match (self.selected_hex, self.field.hex_at(target.x as int, target.y as int).unit) {
                (None, None) => Err(GameError::NoSelectedHex),
                (None, Some(u)) => if u.player == player {
                    Ok(Action::Select)
                } else {
                    Err(GameError::SelectEnemy)
                },
                (Some(_), None) => Ok(Action::Move),
                (Some(h), Some(u)) => if u.player != player {
                    Ok(Action::Attack)
                } else if h.x == target.x && h.y == target.y {
                    Ok(Action::Deselect)
                } else {
                    match h.unit {
                        None => Err(GameError::NoUnit),
                        Some(s) => if s.spec_has_moved() {
                            Err(GameError::AlreadyMoved)
                        } else {
                            Ok(Action::Select)
                        },
                    }
                },
            }
        }
    }

    /// Decides what a click of `player` on `target` asks for.
    pub fn get_current_action(&self, target: Point, player: u32) -> (r: Result<Action, GameError>)
        requires
            self.field.wf(),
        ensures
            r == self.action_of(target, player),
    {
        let unit = match self.get_unit(target.x, target.y) {
            Ok(unit) => unit,
            Err(e) => {
                return Err(e);
            },
        };
        match (self.selected_hex, unit) {
            (None, None) => Err(GameError::NoSelectedHex),
            (None, Some(unit)) => if unit.is_my(player) {
                Ok(Action::Select)
            } else {
                Err(GameError::SelectEnemy)
            },
            (Some(_), None) => Ok(Action::Move),
            (Some(hex), Some(unit)) => {
                if !unit.is_my(player) {
                    Ok(Action::Attack)
                } else if hex.x == target.x && hex.y == target.y {
                    Ok(Action::Deselect)
                } else {
                    match hex.get_unit() {
                        None => Err(GameError::NoUnit),
                        Some(selected_unit) => if selected_unit.has_moved() {
                            Err(GameError::AlreadyMoved)
                        } else {
                            Ok(Action::Select)
                        },
                    }
                }
            },
        }
    }

    /// Selects the unit on `target` and lists the points it can reach.
    pub fn select_unit(&mut self, target: Point) -> (r: Result<Selection, GameError>)
        requires
            old(self).wf(),
        ensures
            final(self).wf(),
            final(self).field == old(self).field,
            !old(self).field.in_grid(target.x as int, target.y as int) ==> (r matches Err(e) && e
                == GameError::NoHex),
            old(self).field.in_grid(target.x as int, target.y as int) && old(self).field.hex_at(
                target.x as int,
                target.y as int,
            ).unit is None ==> (r matches Err(e) && e == GameError::NoUnit),
            r is Err ==> final(self).selected_hex == old(self).selected_hex,
            r is Ok <==> old(self).field.in_grid(target.x as int, target.y as int) && old(
                self,
            ).field.hex_at(target.x as int, target.y as int).unit is Some,
            r matches Ok(s) ==> {
                let h = old(self).field.hex_at(target.x as int, target.y as int);
                &&& final(self).selected_hex == Some(h)
                &&& s.target == h
                &&& s.highlight_hexes@.no_duplicates()
                &&& forall|q: Point|
                    #[trigger] s.highlight_hexes@.contains(q) <==> within(
                        old(self).field,
                        h,
                        q.x as int,
                        q.y as int,
                        h.unit->0.movements as nat,
                    )
            },
    {
        match self.get_unit(target.x, target.y) {
            Err(e) => Err(e),
            Ok(None) => Err(GameError::NoUnit),
            Ok(Some(_)) => {
                self.selected_hex = self.get_hex(target.x, target.y);
                assert(self.field.hex_at(target.x as int, target.y as int).x == target.x);
                proof {
                    self.field.lemma_unit_wf(target.x as int, target.y as int);
                }
                let highlight_hexes = self.available_points(&self.selected_hex);
                match self.selected_hex {
                    Some(target) => Ok(Selection { target, highlight_hexes }),
                    None => Err(GameError::NoHex),
                }
            },
        }
    }

    /// Drops the selection.
    pub fn deselect_unit(&mut self)
        requires
            old(self).wf(),
        ensures
            final(self).wf(),
            final(self).field == old(self).field,
            final(self).selected_hex is None,
    {
        self.selected_hex = None;
    }

    /// The unit on `(x, y)`; `NoHex` off the field.
    pub fn get_unit(&self, x: u32, y: u32) -> (r: Result<Option<Unit>, GameError>)
        requires
            self.field.wf(),
        ensures
            r == if self.field.in_grid(x as int, y as int) {
                Ok(self.field.hex_at(x as int, y as int).unit)
            } else {
                Err::<Option<Unit>, GameError>(GameError::NoHex)
            },
    {
        match self.get_hex(x, y) {
            Some(hex) => Ok(hex.get_unit()),
            None => Err(GameError::NoHex),
        }
    }

    /// The unit on `(x, y)` to change in place; `NoHex` off the field.
    pub fn get_unit_mut(&mut self, x: u32, y: u32) -> (r: Result<Option<&mut Unit>, GameError>)
        requires
            old(self).field.wf(),
        ensures
            !old(self).field.in_grid(x as int, y as int) ==> r is Err && *final(self) == *old(self),
            r is Err ==> (r matches Err(e) && e == GameError::NoHex),
            old(self).field.in_grid(x as int, y as int) ==> r is Ok,
            r matches Ok(o) ==> (o is Some <==> old(self).field.hex_at(x as int, y as int).unit is Some),
            r matches Ok(Some(u)) ==> {
                &&& *u == old(self).field.hex_at(x as int, y as int).unit->0
                &&& final(self).selected_hex == old(self).selected_hex
                &&& final(self).field.num_x == old(self).field.num_x
                &&& final(self).field.num_y == old(self).field.num_y
                &&& final(self).field.hexes@ == old(self).field.hexes@.update(
                    cell_index(old(self).field.num_y as int, x as int, y as int),
                    Hex { unit: Some(*final(u)), ..old(self).field.hex_at(x as int, y as int) },
                )
            },
            r matches Ok(None) ==> final(self).field.hexes@ == old(self).field.hexes@
                && final(self).selected_hex == old(self).selected_hex && final(self).field.num_x == old(
                self,
            ).field.num_x && final(self).field.num_y == old(self).field.num_y,
    {
        proof {
            if old(self).field.in_grid(x as int, y as int) {
                crate::grid::lemma_cell_index_bounds(
                    old(self).field.num_x as int,
                    old(self).field.num_y as int,
                    x as int,
                    y as int,
                );
            }
        }
        match self.get_hex_mut(x, y) {
            Some(hex) => Ok(hex.get_unit_mut()),
            None => Err(GameError::NoHex),
        }
    }

    /// Puts `unit` (or nothing) on `(x, y)`; `NoHex` off the field.
    pub fn set_unit(&mut self, x: u32, y: u32, unit: Option<Unit>) -> (r: Result<(), GameError>)
        requires
            old(self).wf(),
            unit matches Some(u) ==> u.wf(),
        ensures
            final(self).wf(),
            final(self).selected_hex == old(self).selected_hex,
            final(self).field.num_x == old(self).field.num_x,
            final(self).field.num_y == old(self).field.num_y,
            old(self).field.in_grid(x as int, y as int) ==> r is Ok && final(self).field.hexes@
                == old(self).field.hexes@.update(
                cell_index(old(self).field.num_y as int, x as int, y as int),
                Hex { unit, ..old(self).field.hex_at(x as int, y as int) },
            ),
            !old(self).field.in_grid(x as int, y as int) ==> r == Err::<(), GameError>(GameError::NoHex)
                && final(self).field == old(self).field,
    {
        match self.get_hex(x, y) {
            Some(hex) => {
                self.field.put_hex(Hex { unit, ..hex });
                Ok(())
            },
            None => Err(GameError::NoHex),
        }
    }

    /// Puts `content` (or nothing) on `(x, y)`; `NoHex` off the field.
    pub fn set_content(&mut self, x: u32, y: u32, content: Option<Content>) -> (r: Result<(), GameError>)
        requires
            old(self).wf(),
        ensures
            final(self).wf(),
            final(self).selected_hex == old(self).selected_hex,
            final(self).field.num_x == old(self).field.num_x,
            final(self).field.num_y == old(self).field.num_y,
            old(self).field.in_grid(x as int, y as int) ==> r is Ok && final(self).field.hexes@
                == old(self).field.hexes@.update(
                cell_index(old(self).field.num_y as int, x as int, y as int),
                Hex { content, ..old(self).field.hex_at(x as int, y as int) },
            ),
            !old(self).field.in_grid(x as int, y as int) ==> r == Err::<(), GameError>(GameError::NoHex)
                && final(self).field == old(self).field,
    {
        match self.get_hex(x, y) {
            Some(hex) => {
                proof {
                    self.field.lemma_unit_wf(x as int, y as int);
                }
                self.field.put_hex(Hex { content, ..hex });
                Ok(())
            },
            None => Err(GameError::NoHex),
        }
    }

    /// Moves the selected unit to `to` along a shortest free walk.
    pub fn move_unit(&mut self, to: Point) -> (r: Result<Vec<Point>, GameError>)
        requires
            old(self).wf(),
        ensures
            final(self).wf(),
            final(self).selected_hex == old(self).selected_hex,
            old(self).selected_hex is None ==> r == Err::<Vec<Point>, GameError>(GameError::NoHex)
                && final(self).field == old(self).field,
            old(self).selected_hex matches Some(from) ==> old(self).moves_as(from, to, r, *final(self)),
    {
        let from = match self.selected_hex {
            Some(hex) => hex,
            None => {
                return Err(GameError::NoHex);
            },
        };
        self.move_unit_internal(from, to)
    }

    /// How a move of the unit in the snapshot `from` to `to` ends: `r` and
    /// the game `after` it.
    pub open spec fn moves_as(
        &self,
        from: Hex,
        to: Point,
        r: Result<Vec<Point>, GameError>,
        after: Game,
    ) -> bool {
        let g = self.field;
        &&& (from.unit is None ==> r == Err::<Vec<Point>, GameError>(GameError::NoUnit))
        &&& (from.unit matches Some(u) && u.movements == 0 ==> r == Err::<Vec<Point>, GameError>(
            GameError::NoMoves,
        ))
        &&& (from.unit matches Some(u) && u.movements > 0 && !within(
            g,
            from,
            to.x as int,
            to.y as int,
            u.movements as nat,
        ) ==> r == Err::<Vec<Point>, GameError>(GameError::NoHex))
        &&& (from.unit matches Some(u) && u.movements > 0 && within(
            g,
            from,
            to.x as int,
            to.y as int,
            u.movements as nat,
        ) && g.in_grid(from.x as int, from.y as int) && g.hex_at(from.x as int, from.y as int).unit
            == from.unit ==> r is Ok)
        &&& (r is Err ==> after.field == g)
        &&& (r matches Ok(path) ==> {
            let u = from.unit->0;
            let steps = path@.len() - 1;
            let moved = g.hex_at(from.x as int, from.y as int).unit->0;
            &&& 1 <= path@.len() <= u.movements + 1
            &&& path@[0] == from.spec_point()
            &&& path@[steps] == to
            &&& is_walk(path@)
            &&& forall|i: int|
                0 < i < path@.len() ==> passable(g, (#[trigger] path@[i]).x as int, path@[i].y as int)
            &&& within(g, from, to.x as int, to.y as int, steps as nat)
            &&& (steps == 0 || !within(g, from, to.x as int, to.y as int, (steps - 1) as nat))
            &&& g.in_grid(from.x as int, from.y as int)
            &&& g.in_grid(to.x as int, to.y as int)
            &&& (to == from.spec_point() || g.hex_at(to.x as int, to.y as int).unit is None)
            &&& g.hex_at(from.x as int, from.y as int).unit is Some
            &&& moved.movements >= steps
            &&& after.field.num_x == g.num_x
            &&& after.field.num_y == g.num_y
            &&& after.field.hexes@ == moved_field(
                g,
                from.spec_point(),
                to,
                Unit { movements: (moved.movements - steps) as u32, ..moved },
            )
        })
    }

    /// Moves the unit of the snapshot `from` to `to`, spending one movement
    /// per step of a shortest free walk, and returns that walk.
    #[verifier::rlimit(40)]
    pub fn move_unit_internal(&mut self, from_hex: Hex, to: Point) -> (r: Result<Vec<Point>, GameError>)
        requires
            old(self).wf(),
        ensures
            final(self).wf(),
            final(self).selected_hex == old(self).selected_hex,
            old(self).moves_as(from_hex, to, r, *final(self)),
    {
        let unit = match from_hex.get_unit() {
            Some(unit) => unit,
            None => {
                return Err(GameError::NoUnit);
            },
        };
        if unit.movements == 0 {
            return Err(GameError::NoMoves);
        }
        let hexmap = self.fill_path_hexmap(&from_hex, unit.movements);
        proof {
            lemma_move_map(self.field, from_hex, hexmap, unit.movements as nat, to);
        }
        let path = match self.restore_path_from_hexmap(from_hex.to_point(), to, &hexmap) {
            Ok(path) => path,
            Err(e) => {
                return Err(e);
            },
        };
        proof {
            lemma_move_path(self.field, from_hex, hexmap, unit.movements as nat, to, path@);
        }
        let steps: usize = path.len() - 1;
        let moved = match self.get_unit(from_hex.x, from_hex.y) {
            Ok(Some(unit)) => unit,
            _ => {
                return Err(GameError::NoUnit);
            },
        };
        proof {
            self.field.lemma_unit_wf(from_hex.x as int, from_hex.y as int);
        }
        if (moved.movements as usize) < steps {
            return Err(GameError::NoMoves);
        }
        let mut moved = moved;
        moved.change_movements(steps as u32);
        self.relocate(from_hex.to_point(), to, moved);
        Ok(path)
    }

    /// Takes the unit off `from` and puts `unit` on `to`.
    fn relocate(&mut self, from: Point, to: Point, unit: Unit)
        requires
            old(self).wf(),
            old(self).field.in_grid(from.x as int, from.y as int),
            old(self).field.in_grid(to.x as int, to.y as int),
            unit.wf(),
        ensures
            final(self).wf(),
            final(self).selected_hex == old(self).selected_hex,
            final(self).field.num_x == old(self).field.num_x,
            final(self).field.num_y == old(self).field.num_y,
            final(self).field.hexes@ == moved_field(old(self).field, from, to, unit),
    {
        let ghost g = self.field;
        let ghost fi = cell_index(g.num_y as int, from.x as int, from.y as int);
        let ghost ti = cell_index(g.num_y as int, to.x as int, to.y as int);
        proof {
            crate::grid::lemma_cell_index_bounds(g.num_x as int, g.num_y as int, to.x as int, to.y as int);
            crate::grid::lemma_cell_index_bounds(g.num_x as int, g.num_y as int, from.x as int, from.y as int);
            if fi == ti {
                crate::grid::lemma_cell_index_injective(
                    g.num_y as int,
                    from.x as int,
                    from.y as int,
                    to.x as int,
                    to.y as int,
                );
            }
        }
        if let Some(fh) = self.get_hex(from.x, from.y) {
            self.field.put_hex(Hex { unit: None, ..fh });
        }
        let ghost g1 = self.field;
        assert(g1.hexes@ == g.hexes@.update(fi, Hex { unit: None, ..g.hex_at(from.x as int, from.y as int) }));
        assert(g1.hex_at(to.x as int, to.y as int) == if fi == ti {
            Hex { unit: None, ..g.hex_at(from.x as int, from.y as int) }
        } else {
            g.hex_at(to.x as int, to.y as int)
        });
        if let Some(th) = self.get_hex(to.x, to.y) {
            self.field.put_hex(Hex { unit: Some(unit), ..th });
        }
        proof {
            assert(self.field.hexes@ =~= moved_field(g, from, to, unit));
        }
    }

    /// Why the unit of the snapshot `from` may not attack `to`, if it may not.
    pub open spec fn attack_check(&self, from: Hex, to: Point) -> Result<(), GameError> {
        if from.unit is None {
            Err(GameError::NoUnit)
        } else if !self.field.in_grid(to.x as int, to.y as int) {
            Err(GameError::NoHex)
        } else if !is_neighbour(self.field, from.spec_point(), to) {
            Err(GameError::WrongHex)
        } else if self.field.hex_at(to.x as int, to.y as int).unit is None {
            Err(GameError::NoUnit)
        } else {
            Ok(())
        }
    }

    /// How an attack of the unit in the snapshot `from` on `to` ends: `r` and
    /// the game `after` it. The damage is drawn from the attacker's range.
    pub open spec fn attacks_as(
        &self,
        from: Hex,
        to: Point,
        r: Result<(Vec<Hex>, Vec<Hex>), GameError>,
        after: Game,
    ) -> bool {
        &&& after.selected_hex == self.selected_hex
        &&& after.field.num_x == self.field.num_x
        &&& after.field.num_y == self.field.num_y
        &&& (self.attack_check(from, to) matches Err(e) ==> r == Err::<(Vec<Hex>, Vec<Hex>), GameError>(e)
            && after.field == self.field)
        &&& (self.attack_check(from, to) is Ok ==> (r matches Ok((hurt, die)) && exists|damage: u32|
            from.unit->0.damage[0] <= damage <= from.unit->0.damage[1] && #[trigger] strikes(
                self.field,
                to,
                damage,
                hurt@,
                die@,
                after.field.hexes@,
            )))
    }

    /// The selected unit attacks the unit on `to`.
    pub fn attack(&mut self, to: Point) -> (r: Result<(Vec<Hex>, Vec<Hex>), GameError>)
        requires
            old(self).wf(),
        ensures
            final(self).wf(),
            old(self).selected_hex is None ==> r == Err::<(Vec<Hex>, Vec<Hex>), GameError>(
                GameError::NoHex,
            ) && *final(self) == *old(self),
            old(self).selected_hex matches Some(from) ==> old(self).attacks_as(from, to, r, *final(self)),
    {
        let from_hex = match self.selected_hex {
            Some(hex) => hex,
            None => {
                return Err(GameError::NoHex);
            },
        };
        self.attack_internal(from_hex, to)
    }

    /// The unit of the snapshot `from_hex` attacks the unit on `to`, a
    /// neighbour, with a damage drawn from its range.
    pub fn attack_internal(&mut self, from_hex: Hex, to: Point) -> (r: Result<(Vec<Hex>, Vec<Hex>), GameError>)
        requires
            old(self).wf(),
            from_hex.unit matches Some(u) ==> u.damage[0] <= u.damage[1],
        ensures
            final(self).wf(),
            old(self).attacks_as(from_hex, to, r, *final(self)),
    {
        let from_unit = match from_hex.get_unit() {
            Some(unit) => unit,
            None => {
                return Err(GameError::NoUnit);
            },
        };
        if self.get_hex(to.x, to.y).is_none() {
            return Err(GameError::NoHex);
        }
        let neighbours = self.find_neighbours(&from_hex.to_point());
        let mut i: usize = 0;
        let mut near = false;
        while i < neighbours.len()
            invariant
                i <= neighbours@.len(),
                near ==> is_neighbour(self.field, from_hex.spec_point(), to),
                !near ==> forall|t: int| 0 <= t < i ==> (#[trigger] neighbours@[t]).spec_point() != to,
                forall|t: int|
                    0 <= t < neighbours@.len() ==> is_neighbour(
                        self.field,
                        from_hex.spec_point(),
                        #[trigger] neighbours@[t].spec_point(),
                    ),
            decreases neighbours@.len() - i,
        {
            if neighbours[i].x == to.x && neighbours[i].y == to.y {
                assert(neighbours@[i as int].spec_point() == to);
                near = true;
            }
            i = i + 1;
        }
        if !near {
            proof {
                if is_neighbour(self.field, from_hex.spec_point(), to) {
                    let t = choose|t: int| 0 <= t < neighbours@.len() && #[trigger] neighbours@[t].spec_point() == to;
                }
            }
            return Err(GameError::WrongHex);
        }
        match self.get_unit(to.x, to.y) {
            Ok(Some(_)) => {},
            _ => {
                return Err(GameError::NoUnit);
            },
        }
        let damage = roll(from_unit.damage[0], from_unit.damage[1]);
        let (hurt, die) = self.attack_with_damage(to, damage);
        assert(strikes(old(self).field, to, damage, hurt@, die@, self.field.hexes@));
        let r = Ok((hurt, die));
        assert(r matches Ok((h, d)) && h@ == hurt@ && d@ == die@);
        r
    }

    /// The unit on `to` takes `damage`; it is reported dead and taken off
    /// the field when no hit point is left, hurt otherwise.
    pub fn attack_with_damage(&mut self, to: Point, damage: u32) -> (r: (Vec<Hex>, Vec<Hex>))
        requires
            old(self).wf(),
            old(self).field.in_grid(to.x as int, to.y as int),
            old(self).field.hex_at(to.x as int, to.y as int).unit is Some,
        ensures
            final(self).wf(),
            final(self).selected_hex == old(self).selected_hex,
            final(self).field.num_x == old(self).field.num_x,
            final(self).field.num_y == old(self).field.num_y,
            strikes(old(self).field, to, damage, r.0@, r.1@, final(self).field.hexes@),
    {
        let mut hurt: Vec<Hex> = Vec::new();
        let mut die: Vec<Hex> = Vec::new();
        proof {
            self.field.lemma_unit_wf(to.x as int, to.y as int);
        }
        if let Some(hex) = self.get_hex(to.x, to.y) {
            if let Some(unit) = hex.unit {
                let hp = if damage >= unit.hp {
                    0
                } else {
                    unit.hp - damage
                };
                let hit = Hex { unit: Some(Unit { hp, ..unit }), ..hex };
                if hp == 0 {
                    die.push(hit);
                    self.field.put_hex(Hex { unit: None, ..hex });
                } else {
                    hurt.push(hit);
                    self.field.put_hex(hit);
                }
                assert(hurt@ =~= strike_hurt(old(self).field, to, damage));
            }
        }
        proof {
            assert(die@ =~= if hp_after(old(self).field.hex_at(to.x as int, to.y as int).unit->0.hp, damage) == 0 {
                seq![Hex { unit: Some(Unit { hp: 0, ..old(self).field.hex_at(to.x as int, to.y as int).unit->0 }), ..old(self).field.hex_at(to.x as int, to.y as int) }]
            } else {
                Seq::<Hex>::empty()
            });
        }
        (hurt, die)
    }

    /// Whether at most one player still has units.
    pub fn ends(&self) -> (r: bool)
        requires
            self.field.wf(),
        ensures
            r == (self.field.alive().len() <= 1),
    {
        self.field.players_alive().len() <= 1
    }

    /// Gives every unit of `player` that has moved its whole move budget
    /// back, and returns those hexes as they are afterwards.
    pub fn restore_movements(&mut self, player: u32) -> (r: Vec<Hex>)
        requires
            old(self).wf(),
        ensures
            final(self).wf(),
            final(self).selected_hex == old(self).selected_hex,
            final(self).field.num_x == old(self).field.num_x,
            final(self).field.num_y == old(self).field.num_y,
            final(self).field.hexes@ == restored(old(self).field.hexes@, player),
            r@ == moved_of(old(self).field.hexes@, player, old(self).field.hexes@.len() as int),
    {
        let ghost g = self.field;
        let mut hexes: Vec<Hex> = Vec::new();
        let mut i: usize = 0;
        while i < self.field.hexes.len()
            invariant
                self.wf(),
                self.selected_hex == old(self).selected_hex,
                self.field.num_x == g.num_x,
                self.field.num_y == g.num_y,
                g.wf(),
                self.field.hexes@.len() == g.hexes@.len(),
                i <= g.hexes@.len(),
                forall|k: int| 0 <= k < i ==> self.field.hexes@[k] == restore_hex(#[trigger] g.hexes@[k], player),
                forall|k: int| i <= k < g.hexes@.len() ==> self.field.hexes@[k] == #[trigger] g.hexes@[k],
                hexes@ == moved_of(g.hexes@, player, i as int),
            decreases g.hexes@.len() - i,
        {
            let hex = self.field.hexes[i];
            if let Some(unit) = hex.unit {
                if unit.is_my(player) && unit.has_moved() {
                    let mut unit = unit;
                    unit.restore_movements();
                    let nh = Hex { unit: Some(unit), ..hex };
                    let ghost before = self.field;
                    self.field.hexes.set(i, nh);
                    proof {
                        crate::grid::lemma_replace_keeps_wf(before, self.field, i as int, nh);
                    }
                    hexes.push(nh);
                }
            }
            i = i + 1;
        }
        assert(self.field.hexes@ =~= restored(g.hexes@, player));
        hexes
    }

    /// The points of the field whose hex holds neither a unit nor a content.
    pub fn empty_points(&self) -> (r: Vec<Point>)
        requires
            self.field.wf(),
        ensures
            forall|q: Point|
                #[trigger] r@.contains(q) <==> self.field.in_grid(q.x as int, q.y as int)
                    && self.field.hex_at(q.x as int, q.y as int).spec_is_empty(),
    {
        let mut r: Vec<Point> = Vec::new();
        let mut x: u32 = 0;
        while x < self.field.num_x
            invariant
                self.field.wf(),
                x <= self.field.num_x,
                forall|q: Point|
                    #[trigger] r@.contains(q) <==> q.x < x && self.field.in_grid(q.x as int, q.y as int)
                        && self.field.hex_at(q.x as int, q.y as int).spec_is_empty(),
            decreases self.field.num_x - x,
        {
            let mut y: u32 = 0;
            while y < self.field.num_y
                invariant
                    self.field.wf(),
                    x < self.field.num_x,
                    y <= self.field.num_y,
                    forall|q: Point|
                        #[trigger] r@.contains(q) <==> (q.x < x || (q.x == x && q.y < y))
                            && self.field.in_grid(q.x as int, q.y as int) && self.field.hex_at(
                            q.x as int,
                            q.y as int,
                        ).spec_is_empty(),
                decreases self.field.num_y - y,
            {
                if let Some(hex) = self.get_hex(x, y) {
                    if hex.is_empty() {
                        let ghost before = r@;
                        let p = Point { x, y };
                        r.push(p);
                        assert forall|q: Point| #[trigger] r@.contains(q) <==> (q.x < x || (q.x == x && q.y < y + 1))
                            && self.field.in_grid(q.x as int, q.y as int) && self.field.hex_at(
                            q.x as int,
                            q.y as int,
                        ).spec_is_empty() by {
                            if q == p {
                                assert(r@[r@.len() - 1] == p);
                            } else {
                                if r@.contains(q) {
                                    let k = choose|k: int| 0 <= k < r@.len() && r@[k] == q;
                                    assert(before[k] == q);
                                }
                                if before.contains(q) {
                                    let k = choose|k: int| 0 <= k < before.len() && before[k] == q;
                                    assert(r@[k] == q);
                                }
                            }
                        }
                    }
                }
                y = y + 1;
            }
            x = x + 1;
        }
        r
    }

    /// Puts `unit` or `content` on an empty hex drawn uniformly from the
    /// empty hexes of the field; `NoHex` when there is none.
    fn place_randomly(&mut self, unit: Option<Unit>, content: Option<Content>) -> (r: Result<(), GameError>)
        requires
            old(self).wf(),
            unit matches Some(u) ==> u.wf(),
        ensures
            final(self).wf(),
            final(self).selected_hex == old(self).selected_hex,
            final(self).field.num_x == old(self).field.num_x,
            final(self).field.num_y == old(self).field.num_y,
            r is Err ==> r == Err::<(), GameError>(GameError::NoHex) && final(self).field == old(self).field,
            r is Err <==> forall|x: int, y: int|
                old(self).field.in_grid(x, y) ==> !(#[trigger] old(self).field.hex_at(x, y)).spec_is_empty(),
            r is Ok ==> exists|x: int, y: int|
                old(self).field.in_grid(x, y) && (#[trigger] old(self).field.hex_at(x, y)).spec_is_empty()
                    && final(self).field.hexes@ == old(self).field.hexes@.update(
                    cell_index(old(self).field.num_y as int, x, y),
                    Hex { unit, content, ..old(self).field.hex_at(x, y) },
                ),
    {
        let empty = self.empty_points();
        if empty.len() == 0 {
            proof {
                assert forall|x: int, y: int| old(self).field.in_grid(x, y) implies !(#[trigger] old(
                    self,
                ).field.hex_at(x, y)).spec_is_empty() by {
                    if old(self).field.hex_at(x, y).spec_is_empty() {
                        let q = Point { x: x as u32, y: y as u32 };
                        assert(empty@.contains(q));
                    }
                }
            }
            return Err(GameError::NoHex);
        }
        let k = roll_index(empty.len());
        let p = empty[k];
        assert(empty@.contains(p));
        match self.get_hex(p.x, p.y) {
            Some(hex) => {
                self.field.put_hex(Hex { unit, content, ..hex });
                assert(old(self).field.hex_at(p.x as int, p.y as int).spec_is_empty());
                Ok(())
            },
            None => Err(GameError::NoHex),
        }
    }

    /// Puts `content` on an empty hex drawn uniformly; `NoHex` when no hex is
    /// empty.
    pub fn set_content_randomly(&mut self, content: Content) -> (r: Result<(), GameError>)
        requires
            old(self).wf(),
        ensures
            final(self).wf(),
            final(self).selected_hex == old(self).selected_hex,
            final(self).field.num_x == old(self).field.num_x,
            final(self).field.num_y == old(self).field.num_y,
            r is Err ==> r == Err::<(), GameError>(GameError::NoHex) && final(self).field == old(self).field,
            r is Err <==> forall|x: int, y: int|
                old(self).field.in_grid(x, y) ==> !(#[trigger] old(self).field.hex_at(x, y)).spec_is_empty(),
            r is Ok ==> exists|x: int, y: int|
                old(self).field.in_grid(x, y) && (#[trigger] old(self).field.hex_at(x, y)).spec_is_empty()
                    && final(self).field.hexes@ == old(self).field.hexes@.update(
                    cell_index(old(self).field.num_y as int, x, y),
                    Hex { content: Some(content), ..old(self).field.hex_at(x, y) },
                ),
    {
        self.place_randomly(None, Some(content))
    }

    /// Puts `unit` on an empty hex drawn uniformly; `NoHex` when no hex is
    /// empty.
    pub fn set_unit_randomly(&mut self, unit: Unit) -> (r: Result<(), GameError>)
        requires
            old(self).wf(),
            unit.wf(),
        ensures
            final(self).wf(),
            final(self).selected_hex == old(self).selected_hex,
            final(self).field.num_x == old(self).field.num_x,
            final(self).field.num_y == old(self).field.num_y,
            r is Err ==> r == Err::<(), GameError>(GameError::NoHex) && final(self).field == old(self).field,
            r is Err <==> forall|x: int, y: int|
                old(self).field.in_grid(x, y) ==> !(#[trigger] old(self).field.hex_at(x, y)).spec_is_empty(),
            r is Ok ==> exists|x: int, y: int|
                old(self).field.in_grid(x, y) && (#[trigger] old(self).field.hex_at(x, y)).spec_is_empty()
                    && final(self).field.hexes@ == old(self).field.hexes@.update(
                    cell_index(old(self).field.num_y as int, x, y),
                    Hex { unit: Some(unit), ..old(self).field.hex_at(x, y) },
                ),
    {
        self.place_randomly(Some(unit), None)
    }

    /// A new game for `num_of_players` players on a field of random size,
    /// with random walls and the same random number of random units for each
    /// player: the four numbers are drawn from their ranges and the field is
    /// filled by `random_with`.
    pub fn random(num_of_players: usize) -> (r: Result<Game, GameError>)
        requires
            num_of_players <= u32::MAX,
        ensures
            random_outcome(num_of_players as int, r),
            num_of_players <= 2 ==> r is Ok,
            r matches Ok(g) ==> g.wf() && g.selected_hex is None && random_field(g.field, num_of_players as int),
    {
        let num_x = roll(NUM_X_MIN, NUM_X_MAX);
        let num_y = roll(NUM_Y_MIN, NUM_Y_MAX);
        let walls_percent = roll(WALLS_PERCENT_MIN, WALLS_PERCENT_MAX);
        let num_of_units = roll(NUM_UNITS_MIN, NUM_UNITS_MAX);
        let r = Self::random_with(num_of_players, num_x, num_y, walls_percent, num_of_units);
        proof {
            if num_of_players <= 2 {
                assert(fits(num_of_players as int, num_x as int, num_y as int, walls_percent as int, num_of_units as int))
                    by (nonlinear_arith)
                    requires
                        num_of_players <= 2,
                        5 <= num_x <= 15,
                        5 <= num_y <= 15,
                        walls_percent <= 40,
                        num_of_units <= 6,
                ;
            }
            assert(drawn_as(num_of_players as int, r, num_x, num_y, walls_percent, num_of_units));
        }
        r
    }

    /// A new game for `num_of_players` players on a field of `num_x` by
    /// `num_y` hexes: `walls_percent` percent of the hexes, rounded down, get
    /// a wall, then each player gets `num_of_units` random units; every wall
    /// and unit goes to an empty hex drawn uniformly. It succeeds exactly when
    /// the walls and the units fit the field; `NoHex` otherwise.
    pub fn random_with(
        num_of_players: usize,
        num_x: u32,
        num_y: u32,
        walls_percent: u32,
        num_of_units: u32,
    ) -> (r: Result<Game, GameError>)
        requires
            num_of_players <= u32::MAX,
            NUM_X_MIN <= num_x <= NUM_X_MAX,
            NUM_Y_MIN <= num_y <= NUM_Y_MAX,
            WALLS_PERCENT_MIN <= walls_percent <= WALLS_PERCENT_MAX,
            NUM_UNITS_MIN <= num_of_units <= NUM_UNITS_MAX,
        ensures
            r is Ok <==> fits(num_of_players as int, num_x as int, num_y as int, walls_percent as int, num_of_units as int),
            r is Err ==> r == Err::<Game, GameError>(GameError::NoHex),
            r matches Ok(g) ==> {
                &&& g.wf()
                &&& g.selected_hex is None
                &&& g.field.num_x == num_x
                &&& g.field.num_y == num_y
                &&& sound_hexes(g.field.hexes@)
                &&& random_counts(g.field, num_of_players as int, walls_percent as int, num_of_units as int)
            },
    {
        assert(25 <= num_x * num_y <= 225) by (nonlinear_arith)
            requires
                5 <= num_x <= 15,
                5 <= num_y <= 15,
        ;
        let mut game = Game::new(num_x, num_y);
        assert(num_x * num_y * walls_percent <= 9000) by (nonlinear_arith)
            requires
                num_x * num_y <= 225,
                walls_percent <= 40,
        ;
        let num_of_walls: u32 = num_x * num_y * walls_percent / 100;
        let ghost cells = num_x * num_y;
        assert(num_of_walls * 100 <= cells * 40) by (nonlinear_arith)
            requires
                num_of_walls == cells * walls_percent / 100,
                walls_percent <= 40,
                cells >= 0,
        ;
        proof {
            lemma_tally_none(game.field.hexes@, Tally::Content);
            lemma_tally_none(game.field.hexes@, Tally::Unit);
            assert forall|p: u32| #[trigger] tally(game.field.hexes@, Tally::UnitOf(p)) == 0 by {
                lemma_tally_none(game.field.hexes@, Tally::UnitOf(p));
            }
        }
        let mut i: u32 = 0;
        while i < num_of_walls
            invariant
                game.wf(),
                game.selected_hex is None,
                game.field.num_x == num_x,
                game.field.num_y == num_y,
                game.field.hexes@.len() == cells,
                25 <= cells <= 225,
                num_of_walls * 100 <= cells * 40,
                num_of_walls == num_x * num_y * walls_percent / 100,
                cells == num_x * num_y,
                i <= num_of_walls,
                sound_hexes(game.field.hexes@),
                tally(game.field.hexes@, Tally::Content) == i,
                tally(game.field.hexes@, Tally::Unit) == 0,
                forall|p: u32| #[trigger] tally(game.field.hexes@, Tally::UnitOf(p)) == 0,
            decreases num_of_walls - i,
        {
            let ghost g0 = game.field;
            let content = Content::Wall(Wall::new());
            if let Err(e) = game.set_content_randomly(content) {
                proof {
                    lemma_field_full(g0);
                }
                return Err(e);
            }
            proof {
                let (x, y) = choose|x: int, y: int|
                    g0.in_grid(x, y) && (#[trigger] g0.hex_at(x, y)).spec_is_empty()
                        && game.field.hexes@ == g0.hexes@.update(
                        cell_index(g0.num_y as int, x, y),
                        Hex { content: Some(content), ..g0.hex_at(x, y) },
                    );
                lemma_place(g0, game.field, x, y, Hex { content: Some(content), ..g0.hex_at(x, y) });
                assert(tally(game.field.hexes@, Tally::Content) == tally(g0.hexes@, Tally::Content) + 1);
                assert(tally(game.field.hexes@, Tally::Unit) == tally(g0.hexes@, Tally::Unit));
                assert forall|p: u32| #[trigger] tally(game.field.hexes@, Tally::UnitOf(p)) == 0 by {
                    assert(tally(game.field.hexes@, Tally::UnitOf(p)) == tally(g0.hexes@, Tally::UnitOf(p)));
                }
            }
            i = i + 1;
        }
        let mut player: usize = 0;
        while player < num_of_players
            invariant
                num_of_players <= u32::MAX,
                game.wf(),
                game.selected_hex is None,
                game.field.num_x == num_x,
                game.field.num_y == num_y,
                game.field.hexes@.len() == cells,
                25 <= cells <= 225,
                num_of_walls * 100 <= cells * 40,
                num_of_walls == num_x * num_y * walls_percent / 100,
                cells == num_x * num_y,
                2 <= num_of_units <= 6,
                player <= num_of_players,
                sound_hexes(game.field.hexes@),
                tally(game.field.hexes@, Tally::Content) == num_of_walls,
                tally(game.field.hexes@, Tally::Unit) == player * num_of_units,
                forall|p: u32| #[trigger] tally(game.field.hexes@, Tally::UnitOf(p)) == if p < player {
                    num_of_units as int
                } else {
                    0
                },
            decreases num_of_players - player,
        {
            let mut j: u32 = 0;
            while j < num_of_units
                invariant
                    player < num_of_players <= u32::MAX,
                    game.wf(),
                    game.selected_hex is None,
                    game.field.num_x == num_x,
                    game.field.num_y == num_y,
                    game.field.hexes@.len() == cells,
                    25 <= cells <= 225,
                    num_of_walls * 100 <= cells * 40,
                    num_of_walls == num_x * num_y * walls_percent / 100,
                    cells == num_x * num_y,
                    2 <= num_of_units <= 6,
                    j <= num_of_units,
                    sound_hexes(game.field.hexes@),
                    tally(game.field.hexes@, Tally::Content) == num_of_walls,
                    tally(game.field.hexes@, Tally::Unit) == player * num_of_units + j,
                    forall|p: u32| #[trigger] tally(game.field.hexes@, Tally::UnitOf(p)) == if p < player {
                        num_of_units as int
                    } else if p == player {
                        j as int
                    } else {
                        0
                    },
                decreases num_of_units - j,
            {
                let unit = Unit::random(UNIT_HP, UNIT_MIN_DAMAGE, UNIT_DAMAGE_INTERVAL, UNIT_SPEED, player as u32);
                let ghost g0 = game.field;
                if let Err(e) = game.set_unit_randomly(unit) {
                    proof {
                        lemma_field_full(g0);
                        assert(player * num_of_units + j < num_of_players * num_of_units) by (nonlinear_arith)
                            requires
                                player < num_of_players,
                                j < num_of_units,
                        ;
                    }
                    return Err(e);
                }
                proof {
                    let (x, y) = choose|x: int, y: int|
                        g0.in_grid(x, y) && (#[trigger] g0.hex_at(x, y)).spec_is_empty()
                            && game.field.hexes@ == g0.hexes@.update(
                            cell_index(g0.num_y as int, x, y),
                            Hex { unit: Some(unit), ..g0.hex_at(x, y) },
                        );
                    let h = Hex { unit: Some(unit), ..g0.hex_at(x, y) };
                    lemma_place(g0, game.field, x, y, h);
                    assert(tally(game.field.hexes@, Tally::Content) == tally(g0.hexes@, Tally::Content));
                    assert(tally(game.field.hexes@, Tally::Unit) == tally(g0.hexes@, Tally::Unit) + 1);
                    assert forall|p: u32| #[trigger] tally(game.field.hexes@, Tally::UnitOf(p)) == if p < player {
                        num_of_units as int
                    } else if p == player {
                        j + 1
                    } else {
                        0
                    } by {
                        assert(tally(game.field.hexes@, Tally::UnitOf(p)) == tally(g0.hexes@, Tally::UnitOf(p))
                            + if counts(h, Tally::UnitOf(p)) {
                            1int
                        } else {
                            0int
                        });
                    }
                }
                j = j + 1;
            }
            assert(player * num_of_units + num_of_units == (player + 1) * num_of_units) by (nonlinear_arith);
            player = player + 1;
        }
        proof {
            assert(random_counts(game.field, num_of_players as int, walls_percent as int, num_of_units as int));
            lemma_tally_bound(game.field.hexes@);
        }
        Ok(game)
    }

    /// The hexes at `points`, in the same order; `NoHex` when one is off the
    /// field.
    pub fn hexes_from_points(&self, points: Vec<Point>) -> (r: Result<Vec<Hex>, GameError>)
        requires
            self.field.wf(),
        ensures
            r is Ok <==> forall|i: int|
                0 <= i < points@.len() ==> self.field.in_grid(
                    (#[trigger] points@[i]).x as int,
                    points@[i].y as int,
                ),
            r is Err ==> r == Err::<Vec<Hex>, GameError>(GameError::NoHex),
            r matches Ok(hexes) ==> hexes@.len() == points@.len() && forall|i: int|
                0 <= i < points@.len() ==> #[trigger] hexes@[i] == self.field.hex_at(
                    points@[i].x as int,
                    points@[i].y as int,
                ),
    {
        let mut result: Vec<Hex> = Vec::new();
        let mut i: usize = 0;
        while i < points.len()
            invariant
                self.field.wf(),
                i <= points@.len(),
                result@.len() == i,
                forall|k: int|
                    0 <= k < i ==> self.field.in_grid(
                        (#[trigger] points@[k]).x as int,
                        points@[k].y as int,
                    ),
                forall|k: int|
                    0 <= k < i ==> #[trigger] result@[k] == self.field.hex_at(
                        points@[k].x as int,
                        points@[k].y as int,
                    ),
            decreases points@.len() - i,
        {
            let point = points[i];
            match self.get_hex(point.x, point.y) {
                Some(hex) => result.push(hex),
                None => {
                    return Err(GameError::NoHex);
                },
            }
            i = i + 1;
        }
        Ok(result)
    }
}

} // verus!

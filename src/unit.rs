use vstd::prelude::*;

use crate::dice::{roll, roll_below};

verus! {

/// A fighting unit. `damage` is the inclusive range `[min, max]` of the
/// damage it deals; `movements` is what is left of its move budget in the
/// current turn.
#[derive(Clone, Copy, Debug)]
pub struct Unit {
    pub player: u32,
    pub hp: u32,
    pub damage: [u32; 2],
    pub speed: u32,
    pub movements: u32,
}

impl Unit {
    /// The unit's invariant: its damage range is not empty and it never has
    /// more movements left than its speed.
    pub open spec fn wf(&self) -> bool {
        &&& self.damage[0] <= self.damage[1]
        &&& self.movements <= self.speed
    }

    pub open spec fn spec_has_moved(&self) -> bool {
        self.movements != self.speed
    }

    /// A fresh unit with its whole move budget.
    pub fn new(player: u32, hp: u32, damage: [u32; 2], speed: u32) -> (r: Unit)
        requires
            damage[0] <= damage[1],
        ensures
            r.player == player,
            r.hp == hp,
            r.damage == damage,
            r.speed == speed,
            r.movements == speed,
            r.wf(),
    {
        Unit { player, hp, damage, speed, movements: speed }
    }

    /// A unit of `player` with uniform draws: hit points in
    /// `[hp_min_max.0, hp_min_max.1]`, least damage in
    /// `[damage_min_max.0, damage_min_max.1)`, a damage range that is
    /// `[damage_interval.0, damage_interval.1]` wide, and speed in
    /// `[speed_min_max.0, speed_min_max.1]`.
    pub fn random(
        hp_min_max: (u8, u8),
        damage_min_max: (u8, u8),
        damage_interval: (u8, u8),
        speed_min_max: (u8, u8),
        player: u32,
    ) -> (r: Unit)
        requires
            hp_min_max.0 <= hp_min_max.1,
            damage_min_max.0 < damage_min_max.1,
            damage_interval.0 <= damage_interval.1,
            speed_min_max.0 <= speed_min_max.1,
        ensures
            r.wf(),
            r.player == player,
            hp_min_max.0 <= r.hp <= hp_min_max.1,
            damage_min_max.0 <= r.damage[0] < damage_min_max.1,
            damage_interval.0 <= r.damage[1] - r.damage[0] <= damage_interval.1,
            speed_min_max.0 <= r.speed <= speed_min_max.1,
            r.movements == r.speed,
    {
        let hp = roll(hp_min_max.0 as u32, hp_min_max.1 as u32);
        let damage_min = roll_below(damage_min_max.0 as u32, damage_min_max.1 as u32);
        let damage_max = damage_min + roll(damage_interval.0 as u32, damage_interval.1 as u32);
        let speed = roll(speed_min_max.0 as u32, speed_min_max.1 as u32);
        Unit::new(player, hp, [damage_min, damage_max], speed)
    }

    /// Adds `diff` to the hit points; the result is clamped at zero, and at
    /// the largest `u32` above.
    pub fn change_hp(&mut self, diff: i32)
        ensures
            final(self).hp == if old(self).hp + diff < 0 {
                0
            } else if old(self).hp + diff > u32::MAX {
                u32::MAX
            } else {
                (old(self).hp + diff) as u32
            },
            final(self).player == old(self).player,
            final(self).damage == old(self).damage,
            final(self).speed == old(self).speed,
            final(self).movements == old(self).movements,
    {
        let hp: i64 = self.hp as i64 + diff as i64;
        self.hp = if hp < 0 {
            0
        } else if hp > u32::MAX as i64 {
            u32::MAX
        } else {
            hp as u32
        };
    }

    /// Spends `diff` movements.
    pub fn change_movements(&mut self, diff: u32)
        requires
            old(self).movements >= diff,
        ensures
            final(self).movements == old(self).movements - diff,
            final(self).player == old(self).player,
            final(self).hp == old(self).hp,
            final(self).damage == old(self).damage,
            final(self).speed == old(self).speed,
    {
        self.movements = self.movements - diff;
    }

    /// Gives the unit back its whole move budget.
    pub fn restore_movements(&mut self)
        ensures
            final(self).movements == old(self).speed,
            final(self).player == old(self).player,
            final(self).hp == old(self).hp,
            final(self).damage == old(self).damage,
            final(self).speed == old(self).speed,
    {
        self.movements = self.speed;
    }

    pub fn has_moved(self) -> (r: bool)
        ensures
            r == self.spec_has_moved(),
    {
        self.movements != self.speed
    }

    pub fn has_no_moves(self) -> (r: bool)
        ensures
            r == (self.movements == 0),
    {
        self.movements == 0
    }

    pub fn is_my(self, player: u32) -> (r: bool)
        ensures
            r == (self.player == player),
    {
        self.player == player
    }
}

} // verus!

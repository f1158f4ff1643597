use vstd::prelude::*;

use crate::grid::holds_player;
use crate::hex::Hex;

verus! {

/// What is counted over the hexes of a field.
pub enum Tally {
    /// Hexes with a content.
    Content,
    /// Hexes with a unit.
    Unit,
    /// Hexes with a unit of the given player.
    UnitOf(u32),
}

/// Whether the hex `h` counts for `t`.
pub open spec fn counts(h: Hex, t: Tally) -> bool {
    match t {
        Tally::Content => h.content is Some,
        Tally::Unit => h.unit is Some,
        Tally::UnitOf(p) => holds_player(h, p),
    }
}

/// How many hexes of `s` count for `t`.
pub open spec fn tally(s: Seq<Hex>, t: Tally) -> nat
    decreases s.len(),
{
    if s.len() == 0 {
        0
    } else {
        tally(s.drop_last(), t) + if counts(s.last(), t) {
            1nat
        } else {
            0nat
        }
    }
}

/// Replacing one hex changes the count by what the two hexes count.
pub proof fn lemma_tally_update(s: Seq<Hex>, i: int, h: Hex, t: Tally)
    requires
        0 <= i < s.len(),
    ensures
        tally(s.update(i, h), t) + (if counts(s[i], t) {
            1int
        } else {
            0int
        }) == tally(s, t) + (if counts(h, t) {
            1int
        } else {
            0int
        }),
    decreases s.len(),
{
    let u = s.update(i, h);
    if i == s.len() - 1 {
        assert(u.drop_last() =~= s.drop_last());
    } else {
        assert(u.drop_last() =~= s.drop_last().update(i, h));
        lemma_tally_update(s.drop_last(), i, h, t);
    }
}

/// Nothing is counted where no hex counts.
pub proof fn lemma_tally_none(s: Seq<Hex>, t: Tally)
    requires
        forall|j: int| 0 <= j < s.len() ==> !counts(#[trigger] s[j], t),
    ensures
        tally(s, t) == 0,
    decreases s.len(),
{
    if s.len() > 0 {
        lemma_tally_none(s.drop_last(), t);
    }
}

/// When every hex holds exactly one of a unit and a content, the hexes with
/// a content and those with a unit make up all of them.
pub proof fn lemma_tally_full(s: Seq<Hex>)
    requires
        forall|j: int|
            0 <= j < s.len() ==> ((#[trigger] s[j]).unit is Some || s[j].content is Some) && !(
            s[j].unit is Some && s[j].content is Some),
    ensures
        tally(s, Tally::Content) + tally(s, Tally::Unit) == s.len(),
    decreases s.len(),
{
    if s.len() > 0 {
        lemma_tally_full(s.drop_last());
    }
}

/// When no hex holds both a unit and a content, the hexes with a content
/// and those with a unit are at most all of them.
pub proof fn lemma_tally_bound(s: Seq<Hex>)
    requires
        forall|j: int| 0 <= j < s.len() ==> !((#[trigger] s[j]).unit is Some && s[j].content is Some),
    ensures
        tally(s, Tally::Content) + tally(s, Tally::Unit) <= s.len(),
    decreases s.len(),
{
    if s.len() > 0 {
        lemma_tally_bound(s.drop_last());
    }
}

} // verus!

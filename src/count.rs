use vstd::prelude::*;

use crate::tile::Tile;

verus! {

/// Number of cells of `s` that satisfy `p`.
pub open spec fn count(s: Seq<Tile>, p: spec_fn(Tile) -> bool) -> nat
    decreases s.len(),
{
    if s.len() == 0 {
        0
    } else {
        count(s.drop_last(), p) + if p(s.last()) { 1nat } else { 0nat }
    }
}

pub open spec fn p_mine() -> spec_fn(Tile) -> bool {
    |t: Tile| t.is_mine
}

pub open spec fn p_flagged() -> spec_fn(Tile) -> bool {
    |t: Tile| t.is_flagged
}

pub open spec fn p_hidden() -> spec_fn(Tile) -> bool {
    |t: Tile| !t.is_revealed
}

/// A safe cell that has been revealed: worth one point.
pub open spec fn p_safe_revealed() -> spec_fn(Tile) -> bool {
    |t: Tile| !t.is_mine && t.is_revealed
}

/// A safe cell that is still hidden: a point the player may yet earn.
pub open spec fn p_safe_hidden() -> spec_fn(Tile) -> bool {
    |t: Tile| !t.is_mine && !t.is_revealed
}

/// A flagged mine: worth the loss bonus each time the board is lost.
pub open spec fn p_flagged_mine() -> spec_fn(Tile) -> bool {
    |t: Tile| t.is_mine && t.is_flagged
}

pub proof fn lemma_count_bound(s: Seq<Tile>, p: spec_fn(Tile) -> bool)
    ensures
        count(s, p) <= s.len(),
    decreases s.len(),
{
    if s.len() > 0 {
        lemma_count_bound(s.drop_last(), p);
    }
}

/// Replacing one cell changes a count by what the old and new cell contribute.
pub proof fn lemma_count_update(s: Seq<Tile>, p: spec_fn(Tile) -> bool, i: int, t: Tile)
    requires
        0 <= i < s.len(),
    ensures
        count(s.update(i, t), p) + (if p(s[i]) { 1int } else { 0int }) == count(s, p) + (if p(
            t,
        ) { 1int } else { 0int }),
    decreases s.len(),
{
    if i == s.len() - 1 {
        assert(s.update(i, t).drop_last() =~= s.drop_last());
    } else {
        lemma_count_update(s.drop_last(), p, i, t);
        assert(s.update(i, t).drop_last() =~= s.drop_last().update(i, t));
    }
}

/// A count over a prefix grows by what the next cell contributes.
pub proof fn lemma_count_take(s: Seq<Tile>, p: spec_fn(Tile) -> bool, i: int)
    requires
        0 <= i < s.len(),
    ensures
        count(s.take(i + 1), p) == count(s.take(i), p) + (if p(s[i]) { 1nat } else { 0nat }),
{
    assert(s.take(i + 1).drop_last() =~= s.take(i));
}

/// A count over a prefix is at most the count over the whole.
pub proof fn lemma_count_prefix(s: Seq<Tile>, p: spec_fn(Tile) -> bool, i: int)
    requires
        0 <= i <= s.len(),
    ensures
        count(s.take(i), p) <= count(s, p),
    decreases s.len(),
{
    if i == s.len() {
        assert(s.take(i) =~= s);
    } else {
        lemma_count_prefix(s.drop_last(), p, i);
        assert(s.drop_last().take(i) =~= s.take(i));
    }
}

/// A count is zero exactly when no cell satisfies the predicate.
pub proof fn lemma_count_zero(s: Seq<Tile>, p: spec_fn(Tile) -> bool)
    ensures
        count(s, p) == 0 <==> forall|i: int| 0 <= i < s.len() ==> !p(#[trigger] s[i]),
    decreases s.len(),
{
    if s.len() > 0 {
        lemma_count_zero(s.drop_last(), p);
        if count(s, p) == 0 {
            assert forall|i: int| 0 <= i < s.len() implies !p(#[trigger] s[i]) by {
                if i < s.len() - 1 {
                    assert(s[i] == s.drop_last()[i]);
                }
            }
        }
        if forall|i: int| 0 <= i < s.len() ==> !p(#[trigger] s[i]) {
            assert forall|i: int| 0 <= i < s.drop_last().len() implies !p(
                #[trigger] s.drop_last()[i],
            ) by {
                assert(s.drop_last()[i] == s[i]);
            }
            assert(!p(s[s.len() - 1]));
        }
    }
}

} // verus!

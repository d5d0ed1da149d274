//! The plane of cells as mathematics: points are pairs of integers without
//! bound, a generation is the set of its living points, and `step` is the rule
//! of the game applied to every point at once.

use vstd::prelude::*;

verus! {

/// Whether a point has coordinates that a 32-bit cell position can hold.
pub open spec fn in_bounds(p: (int, int)) -> bool {
    i32::MIN <= p.0 <= i32::MAX && i32::MIN <= p.1 <= i32::MAX
}

/// Whether a point and the eight points around it are all within bounds.
pub open spec fn interior(p: (int, int)) -> bool {
    i32::MIN < p.0 < i32::MAX && i32::MIN < p.1 < i32::MAX
}

/// The distance between two points when a diagonal step counts as one.
pub open spec fn chebyshev(p: (int, int), q: (int, int)) -> int {
    let dx = if p.0 <= q.0 { q.0 - p.0 } else { p.0 - q.0 };
    let dy = if p.1 <= q.1 { q.1 - p.1 } else { p.1 - q.1 };
    if dx >= dy { dx } else { dy }
}

/// Whether `q` is one of the eight points around `p`.
pub open spec fn adjacent(p: (int, int), q: (int, int)) -> bool {
    chebyshev(p, q) == 1
}

/// The eight points around `p`: column by column from the left and, within a
/// column, row by row from below.
pub open spec fn neighborhood(p: (int, int)) -> Seq<(int, int)> {
    seq![
        (p.0 - 1, p.1 - 1),
        (p.0 - 1, p.1),
        (p.0 - 1, p.1 + 1),
        (p.0, p.1 - 1),
        (p.0, p.1 + 1),
        (p.0 + 1, p.1 - 1),
        (p.0 + 1, p.1),
        (p.0 + 1, p.1 + 1),
    ]
}

/// The test "is within bounds", as a value that can be handed to `filter`.
pub open spec fn bounded() -> spec_fn((int, int)) -> bool {
    |q: (int, int)| in_bounds(q)
}

/// The test "lives in `cells`", as a value that can be handed to `filter`.
pub open spec fn living(cells: Set<(int, int)>) -> spec_fn((int, int)) -> bool {
    |q: (int, int)| cells.contains(q)
}

/// How many of the eight points around `p` live in `cells`.
pub open spec fn live_neighbors(cells: Set<(int, int)>, p: (int, int)) -> nat {
    neighborhood(p).filter(living(cells)).len()
}

/// One if `q` lives in `cells`, zero if not.
pub open spec fn census(cells: Set<(int, int)>, q: (int, int)) -> nat {
    if cells.contains(q) {
        1
    } else {
        0
    }
}

/// The rule of the game for one cell: a living cell stays alive with two or
/// three living neighbours, a dead cell comes alive with exactly three.
pub open spec fn survives(alive: bool, neighbors: nat) -> bool {
    if alive {
        neighbors == 2 || neighbors == 3
    } else {
        neighbors == 3
    }
}

/// Whether `p` lives in the generation after `cells`.
pub open spec fn lives_on(cells: Set<(int, int)>, p: (int, int)) -> bool {
    survives(cells.contains(p), live_neighbors(cells, p))
}

/// The generation after `cells`: every point judged against `cells` itself,
/// none against a half-built successor.
pub open spec fn step(cells: Set<(int, int)>) -> Set<(int, int)> {
    Set::new(|p: (int, int)| lives_on(cells, p))
}

/// Whether the rule has anything to decide at `p`: `p` lives, or one of the
/// eight points around it does. Every other point is dead and stays dead.
pub open spec fn candidate(cells: Set<(int, int)>, p: (int, int)) -> bool {
    cells.contains(p) || live_neighbors(cells, p) > 0
}

/// The points at which the rule has anything to decide.
pub open spec fn candidates(cells: Set<(int, int)>) -> Set<(int, int)> {
    Set::new(|p: (int, int)| candidate(cells, p))
}

/// `cells` turned about the origin: each point goes to the one opposite.
pub open spec fn mirrored(cells: Set<(int, int)>) -> Set<(int, int)> {
    Set::new(|p: (int, int)| cells.contains((-p.0, -p.1)))
}

/// `cells` moved by `dx` columns and `dy` rows.
pub open spec fn shifted(cells: Set<(int, int)>, dx: int, dy: int) -> Set<(int, int)> {
    Set::new(|p: (int, int)| cells.contains((p.0 - dx, p.1 - dy)))
}

/// The part of `cells` that lies within bounds.
pub open spec fn clipped(cells: Set<(int, int)>) -> Set<(int, int)> {
    Set::new(|p: (int, int)| in_bounds(p) && cells.contains(p))
}

/// The neighbour count is the sum of the census over the eight points around.
pub proof fn lemma_live_neighbors_sum(cells: Set<(int, int)>, p: (int, int))
    ensures
        live_neighbors(cells, p) == census(cells, (p.0 - 1, p.1 - 1)) + census(
            cells,
            (p.0 - 1, p.1),
        ) + census(cells, (p.0 - 1, p.1 + 1)) + census(cells, (p.0, p.1 - 1)) + census(
            cells,
            (p.0, p.1 + 1),
        ) + census(cells, (p.0 + 1, p.1 - 1)) + census(cells, (p.0 + 1, p.1)) + census(
            cells,
            (p.0 + 1, p.1 + 1),
        ),
{
    reveal_with_fuel(Seq::filter, 9);
    let nb = neighborhood(p);
    let f = living(cells);
    let s7 = nb.drop_last();
    let s6 = s7.drop_last();
    let s5 = s6.drop_last();
    let s4 = s5.drop_last();
    let s3 = s4.drop_last();
    let s2 = s3.drop_last();
    let s1 = s2.drop_last();
    let s0 = s1.drop_last();
    assert(s0.len() == 0);
    assert(s0.filter(f).len() == 0);
    assert(s1.filter(f).len() == census(cells, nb[0]));
    assert(s2.filter(f).len() == s1.filter(f).len() + census(cells, nb[1]));
    assert(s3.filter(f).len() == s2.filter(f).len() + census(cells, nb[2]));
    assert(s4.filter(f).len() == s3.filter(f).len() + census(cells, nb[3]));
    assert(s5.filter(f).len() == s4.filter(f).len() + census(cells, nb[4]));
    assert(s6.filter(f).len() == s5.filter(f).len() + census(cells, nb[5]));
    assert(s7.filter(f).len() == s6.filter(f).len() + census(cells, nb[6]));
    assert(nb.filter(f).len() == s7.filter(f).len() + census(cells, nb[7]));
}

/// The points around `p` are eight, no two of them the same, each at distance
/// exactly one from `p` and so none of them `p` itself; and every point at
/// distance one is among them.
pub proof fn lemma_neighborhood_is_ring(p: (int, int))
    ensures
        neighborhood(p).len() == 8,
        neighborhood(p).no_duplicates(),
        forall|i: int| 0 <= i < 8 ==> chebyshev(p, #[trigger] neighborhood(p)[i]) == 1,
        forall|i: int| 0 <= i < 8 ==> #[trigger] neighborhood(p)[i] != p,
        forall|q: (int, int)| adjacent(p, q) <==> neighborhood(p).contains(q),
{
    let ring = neighborhood(p);
    assert forall|q: (int, int)| adjacent(p, q) implies ring.contains(q) by {
        let dx = q.0 - p.0;
        let dy = q.1 - p.1;
        let i = if dx == -1 {
            dy + 1
        } else if dx == 0 {
            if dy == -1 {
                3int
            } else {
                4int
            }
        } else {
            dy + 6
        };
        assert(ring[i] == q);
    }
}

/// What is left of a sequence without repetition, after filtering, is without
/// repetition.
proof fn lemma_filter_keeps_distinct(s: Seq<(int, int)>, f: spec_fn((int, int)) -> bool)
    requires
        s.no_duplicates(),
    ensures
        s.filter(f).no_duplicates(),
    decreases s.len(),
{
    reveal(Seq::filter);
    if s.len() > 0 {
        let rest = s.drop_last();
        lemma_filter_keeps_distinct(rest, f);
        if f(s.last()) {
            if rest.filter(f).contains(s.last()) {
                rest.lemma_filter_contains_rev(f, s.last());
                let i = choose|i: int| 0 <= i < rest.len() && rest[i] == s.last();
                assert(s[i] == s[s.len() - 1]);
            }
        }
    }
}

/// Of the points around `p`, those within bounds: at most eight, no two of
/// them the same, each at distance exactly one from `p`, and every point
/// within bounds at distance one among them.
pub proof fn lemma_neighborhood_within_bounds(p: (int, int))
    ensures
        neighborhood(p).filter(bounded()).len() <= 8,
        neighborhood(p).filter(bounded()).no_duplicates(),
        forall|i: int|
            0 <= i < neighborhood(p).filter(bounded()).len() ==> chebyshev(
                p,
                #[trigger] neighborhood(p).filter(bounded())[i],
            ) == 1,
        forall|q: (int, int)|
            neighborhood(p).filter(bounded()).contains(q) <==> in_bounds(q) && adjacent(p, q),
{
    let ring = neighborhood(p);
    let kept = ring.filter(bounded());
    lemma_neighborhood_is_ring(p);
    ring.lemma_filter_len(bounded());
    lemma_filter_keeps_distinct(ring, bounded());
    assert forall|q: (int, int)| kept.contains(q) <==> in_bounds(q) && adjacent(p, q) by {
        if kept.contains(q) {
            let i = choose|i: int| 0 <= i < kept.len() && kept[i] == q;
            ring.lemma_filter_pred(bounded(), i);
            ring.lemma_filter_contains_rev(bounded(), q);
        }
        if in_bounds(q) && adjacent(p, q) {
            let i = choose|i: int| 0 <= i < ring.len() && ring[i] == q;
            ring.lemma_filter_contains(bounded(), i);
        }
    }
    assert forall|i: int| 0 <= i < kept.len() implies chebyshev(p, #[trigger] kept[i]) == 1 by {
        assert(kept.contains(kept[i]));
    }
}

/// A point has a living neighbour exactly if it is around a living point.
pub proof fn lemma_live_neighbors_positive(cells: Set<(int, int)>, q: (int, int))
    ensures
        live_neighbors(cells, q) > 0 <==> exists|p: (int, int)|
            cells.contains(p) && #[trigger] adjacent(p, q),
{
    lemma_live_neighbors_sum(cells, q);
    lemma_neighborhood_is_ring(q);
    let ring = neighborhood(q);
    if live_neighbors(cells, q) > 0 {
        let i = choose|i: int| 0 <= i < 8 && cells.contains(#[trigger] ring[i]);
        assert(adjacent(ring[i], q));
    }
    if exists|p: (int, int)| cells.contains(p) && #[trigger] adjacent(p, q) {
        let p = choose|p: (int, int)| cells.contains(p) && #[trigger] adjacent(p, q);
        assert(adjacent(q, p));
        assert(ring.contains(p));
    }
}

/// Nothing is born of nothing: the generation after the empty one is empty.
pub proof fn lemma_step_of_empty()
    ensures
        step(Set::<(int, int)>::empty()) == Set::<(int, int)>::empty(),
        clipped(step(Set::<(int, int)>::empty())) == Set::<(int, int)>::empty(),
{
    let none = Set::<(int, int)>::empty();
    assert forall|p: (int, int)| !step(none).contains(p) by {
        lemma_live_neighbors_sum(none, p);
    }
    assert(step(none) =~= none);
    assert(clipped(none) =~= none);
}

/// A cell can live in the next generation only where the rule had something
/// to decide: to judge the living cells and the cells around them is to judge
/// all that matter.
pub proof fn lemma_step_within_candidates(cells: Set<(int, int)>, p: (int, int))
    ensures
        lives_on(cells, p) ==> candidate(cells, p),
{
}

/// The rule knows no direction and no sign: the generation after a world
/// turned about the origin is the next generation turned about the origin.
/// Cells at negative coordinates fare as their mirror images at positive ones.
pub proof fn lemma_step_of_mirrored(cells: Set<(int, int)>)
    ensures
        step(mirrored(cells)) == mirrored(step(cells)),
{
    assert forall|p: (int, int)|
        step(mirrored(cells)).contains(p) == mirrored(step(cells)).contains(p) by {
        lemma_live_neighbors_sum(mirrored(cells), p);
        lemma_live_neighbors_sum(cells, (-p.0, -p.1));
    }
    assert(step(mirrored(cells)) =~= mirrored(step(cells)));
}

/// The rule knows no place: the generation after a world moved by some
/// columns and rows is the next generation moved by as much.
pub proof fn lemma_step_of_shifted(cells: Set<(int, int)>, dx: int, dy: int)
    ensures
        step(shifted(cells, dx, dy)) == shifted(step(cells), dx, dy),
{
    assert forall|p: (int, int)|
        step(shifted(cells, dx, dy)).contains(p) == shifted(step(cells), dx, dy).contains(p) by {
        lemma_live_neighbors_sum(shifted(cells, dx, dy), p);
        lemma_live_neighbors_sum(cells, (p.0 - dx, p.1 - dy));
    }
    assert(step(shifted(cells, dx, dy)) =~= shifted(step(cells), dx, dy));
}

/// While every living cell keeps off the rim, the whole next generation lies
/// within bounds, so that clipping it takes nothing away.
pub proof fn lemma_step_within_bounds(cells: Set<(int, int)>)
    requires
        forall|p: (int, int)| #[trigger] cells.contains(p) ==> interior(p),
    ensures
        clipped(step(cells)) == step(cells),
{
    assert forall|q: (int, int)| step(cells).contains(q) implies in_bounds(q) by {
        assert(lives_on(cells, q));
        lemma_live_neighbors_positive(cells, q);
        if cells.contains(q) {
            assert(interior(q));
        } else {
            assert(live_neighbors(cells, q) == 3);
            let p = choose|p: (int, int)| cells.contains(p) && #[trigger] adjacent(p, q);
            assert(interior(p));
        }
    }
    assert(clipped(step(cells)) =~= step(cells));
}

} // verus!

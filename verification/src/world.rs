//! The world engine: the set of living cells and the rule that advances it.

use crate::cell_set::PositionSet;
use crate::sampling::sample_below;
use crate::plane::{
    adjacent, bounded, candidate, candidates, chebyshev, clipped, in_bounds, interior,
    lemma_live_neighbors_positive, lemma_neighborhood_within_bounds, lemma_step_within_candidates,
    live_neighbors, lives_on, living, neighborhood, step,
};
use vstd::arithmetic::div_mod::{lemma_div_pos_is_pos, lemma_fundamental_div_mod};
use vstd::prelude::*;

verus! {

/// A random world is seeded with one cell in this many.
pub const DENSITY_DIVISOR: i32 = 3;

/// The place of one cell on the plane.
#[derive(Clone, Copy, PartialEq, Eq, Hash, Debug, Structural)]
pub struct CellPosition {
    pub x: i32,
    pub y: i32,
}

impl View for CellPosition {
    type V = (int, int);

    open spec fn view(&self) -> (int, int) {
        (self.x as int, self.y as int)
    }
}

/// Whether a cell lives.
#[derive(Clone, Copy, PartialEq, Eq, Debug, Structural)]
pub enum CellState {
    Alive,
    Dead,
}

/// `Alive` for a cell that lives, `Dead` for one that does not.
pub open spec fn state_of(alive: bool) -> CellState {
    if alive {
        CellState::Alive
    } else {
        CellState::Dead
    }
}

/// The points at which a sequence of cell positions lies.
pub open spec fn positions(cells: Seq<CellPosition>) -> Seq<(int, int)> {
    cells.map_values(|c: CellPosition| c@)
}

/// `cells` after one cell of it was made to live or to die.
pub open spec fn with_cell(cells: Set<(int, int)>, p: (int, int), state: CellState) -> Set<
    (int, int),
> {
    match state {
        CellState::Alive => cells.insert(p),
        CellState::Dead => cells.remove(p),
    }
}

/// `cells` after a list of changes was made to it, the first of them first.
pub open spec fn with_cells(
    cells: Set<(int, int)>,
    changes: Seq<(CellPosition, CellState)>,
) -> Set<(int, int)>
    decreases changes.len(),
{
    if changes.len() == 0 {
        cells
    } else {
        with_cell(with_cells(cells, changes.drop_last()), changes.last().0@, changes.last().1)
    }
}

/// The points of which a list of changes speaks.
pub open spec fn changed(changes: Seq<(CellPosition, CellState)>) -> Seq<(int, int)> {
    changes.map_values(|change: (CellPosition, CellState)| change.0@)
}

/// A cell that was just made to live lives, one that was just made to die is
/// dead, and no other cell has changed.
pub proof fn lemma_set_then_get(
    cells: Set<(int, int)>,
    p: (int, int),
    state: CellState,
    q: (int, int),
)
    ensures
        state_of(with_cell(cells, p, state).contains(p)) == state,
        q != p ==> state_of(with_cell(cells, p, state).contains(q)) == state_of(cells.contains(q)),
{
}

/// The living cells of a world. A cell that is not held is dead.
pub struct WorldState {
    alive: PositionSet,
}

impl View for WorldState {
    type V = Set<(int, int)>;

    closed spec fn view(&self) -> Set<(int, int)> {
        self.alive@
    }
}

/// Filtering one point more: it is appended if it passes, left out if not.
proof fn lemma_filter_next(s: Seq<(int, int)>, n: int, f: spec_fn((int, int)) -> bool)
    requires
        0 <= n < s.len(),
    ensures
        s.take(n + 1).filter(f) == if f(s[n]) {
            s.take(n).filter(f).push(s[n])
        } else {
            s.take(n).filter(f)
        },
{
    reveal(Seq::filter);
    assert(s.take(n + 1).drop_last() =~= s.take(n));
}

/// Filtering by a test and then by a narrower one is filtering by the narrower.
proof fn lemma_filter_narrower(
    s: Seq<(int, int)>,
    wide: spec_fn((int, int)) -> bool,
    narrow: spec_fn((int, int)) -> bool,
)
    requires
        forall|q: (int, int)| #[trigger] narrow(q) ==> wide(q),
    ensures
        s.filter(wide).filter(narrow) == s.filter(narrow),
    decreases s.len(),
{
    reveal(Seq::filter);
    if s.len() > 0 {
        lemma_filter_narrower(s.drop_last(), wide, narrow);
        if wide(s.last()) {
            assert(s.drop_last().filter(wide).push(s.last()).drop_last() =~= s.drop_last().filter(
                wide,
            ));
        }
    }
}

impl WorldState {
    /// The living cells are finitely many, and all of them within bounds.
    pub proof fn lemma_finite_and_bounded(&self)
        ensures
            self@.finite(),
            forall|p: (int, int)| self@.contains(p) ==> in_bounds(p),
    {
        self.alive.lemma_finite_and_bounded();
    }

    /// A world in which no cell lives.
    pub fn new() -> (world: WorldState)
        ensures
            world@ == Set::<(int, int)>::empty(),
    {
        WorldState { alive: PositionSet::new() }
    }

    /// The state of one cell.
    pub fn get_cell(&self, cell: CellPosition) -> (state: CellState)
        ensures
            state == state_of(self@.contains(cell@)),
    {
        match self.alive.contains(cell) {
            true => CellState::Alive,
            false => CellState::Dead,
        }
    }

    /// Makes one cell live or die and leaves every other cell as it was.
    pub fn set_cell(&mut self, cell: CellPosition, state: CellState)
        ensures
            final(self)@ == with_cell(old(self)@, cell@, state),
    {
        match state {
            CellState::Alive => {
                self.alive.insert(cell);
            },
            CellState::Dead => {
                self.alive.remove(cell);
            },
        }
    }

    /// The living cells, each once, in no particular order.
    pub fn alive_cells(&self) -> (cells: Vec<CellPosition>)
        ensures
            positions(cells@).no_duplicates(),
            positions(cells@).to_set() == self@,
            cells.len() == self@.len(),
    {
        self.alive.to_vec()
    }

    /// How many of the eight cells around `cell` live.
    pub fn alive_neighbors(&self, cell: CellPosition) -> (count: usize)
        ensures
            count == live_neighbors(self@, cell@),
            count <= 8,
    {
        let around = self.neighbors(cell);
        let ghost ring = positions(around@);
        let mut count: usize = 0;
        assert(ring.take(0).filter(living(self@)) =~= Seq::<(int, int)>::empty()) by {
            reveal(Seq::filter);
        }
        for i in 0..around.len()
            invariant
                ring == positions(around@),
                ring == neighborhood(cell@).filter(bounded()),
                count == ring.take(i as int).filter(living(self@)).len(),
                count <= i <= 8,
        {
            proof {
                neighborhood(cell@).lemma_filter_len(bounded());
                lemma_filter_next(ring, i as int, living(self@));
            }
            if self.get_cell(around[i]) == CellState::Alive {
                count = count + 1;
            }
        }
        proof {
            assert(ring.take(around.len() as int) =~= ring);
            self.lemma_finite_and_bounded();
            lemma_filter_narrower(neighborhood(cell@), bounded(), living(self@));
            neighborhood(cell@).lemma_filter_len(living(self@));
        }
        count
    }

    /// The cells around `cell` in the order of `neighborhood`. All eight of
    /// them unless `cell` lies on the rim of what 32-bit coordinates can hold:
    /// there the points beyond the rim are left out.
    pub fn neighbors(&self, cell: CellPosition) -> (around: Vec<CellPosition>)
        ensures
            positions(around@) == neighborhood(cell@).filter(bounded()),
            interior(cell@) ==> positions(around@) == neighborhood(cell@),
            interior(cell@) ==> around@.len() == 8,
            around@.len() <= 8,
            positions(around@).no_duplicates(),
            forall|i: int|
                0 <= i < around@.len() ==> chebyshev(cell@, (#[trigger] around@[i])@) == 1,
    {
        let mut around: Vec<CellPosition> = Vec::with_capacity(8);
        let ghost ring = neighborhood(cell@);
        let ghost mut done: int = 0;
        assert(ring.take(0).filter(bounded()) =~= Seq::<(int, int)>::empty()) by {
            reveal(Seq::filter);
        }
        assert(positions(around@) =~= Seq::<(int, int)>::empty());
        for xdif in -1i64..2i64
            invariant
                ring == neighborhood(cell@),
                done == (if xdif == -1 {
                    0int
                } else if xdif == 0 {
                    3int
                } else if xdif == 1 {
                    5int
                } else {
                    8int
                }),
                positions(around@) == ring.take(done).filter(bounded()),
                interior(cell@) ==> positions(around@) == ring.take(done),
        {
            for ydif in -1i64..2i64
                invariant
                    -1 <= xdif < 2,
                    ring == neighborhood(cell@),
                    done == (if xdif == -1 {
                        0int
                    } else if xdif == 0 {
                        3int
                    } else {
                        5int
                    }) + (ydif + 1) - (if xdif == 0 && ydif > 0 {
                        1int
                    } else {
                        0int
                    }),
                    positions(around@) == ring.take(done).filter(bounded()),
                    interior(cell@) ==> positions(around@) == ring.take(done),
            {
                let x: i64 = cell.x as i64 + xdif;
                let y: i64 = cell.y as i64 + ydif;
                if !(xdif == 0 && ydif == 0) {
                    proof {
                        assert(ring[done] == (x as int, y as int));
                        lemma_filter_next(ring, done, bounded());
                        assert(ring.take(done + 1) =~= ring.take(done).push(ring[done]));
                    }
                    if -2147483648i64 <= x && x <= 2147483647i64 && -2147483648i64 <= y && y
                        <= 2147483647i64 {
                        let neighbor = CellPosition { x: x as i32, y: y as i32 };
                        let ghost before = around@;
                        around.push(neighbor);
                        assert(positions(around@) =~= positions(before).push(neighbor@));
                    }
                    proof {
                        done = done + 1;
                    }
                }
            }
        }
        proof {
            assert(ring.take(8) =~= ring);
            lemma_neighborhood_within_bounds(cell@);
            assert forall|i: int| 0 <= i < around@.len() implies chebyshev(
                cell@,
                (#[trigger] around@[i])@,
            ) == 1 by {
                assert(positions(around@)[i] == around@[i]@);
            }
        }
        around
    }
}

/// The points within bounds that are one of `sources` or around one.
spec fn reach(sources: Seq<(int, int)>) -> Set<(int, int)> {
    Set::new(
        |q: (int, int)|
            in_bounds(q) && exists|k: int|
                0 <= k < sources.len() && chebyshev(#[trigger] sources[k], q) <= 1,
    )
}

/// One source more reaches itself and the points around it besides.
proof fn lemma_reach_next(sources: Seq<(int, int)>, n: int)
    requires
        0 <= n < sources.len(),
        in_bounds(sources[n]),
    ensures
        reach(sources.take(n + 1)) == reach(sources.take(n)).insert(sources[n]).union(
            neighborhood(sources[n]).filter(bounded()).to_set(),
        ),
{
    let p = sources[n];
    let before = sources.take(n);
    let after = sources.take(n + 1);
    lemma_neighborhood_within_bounds(p);
    let grown = reach(before).insert(p).union(neighborhood(p).filter(bounded()).to_set());
    assert forall|q: (int, int)| reach(after).contains(q) <==> grown.contains(q) by {
        if reach(after).contains(q) {
            let k = choose|k: int| 0 <= k < after.len() && chebyshev(#[trigger] after[k], q) <= 1;
            if k < n {
                assert(before[k] == after[k]);
            }
        }
        if reach(before).contains(q) {
            let k = choose|k: int|
                0 <= k < before.len() && chebyshev(#[trigger] before[k], q) <= 1;
            assert(after[k] == before[k]);
        }
        if q == p || (in_bounds(q) && adjacent(p, q)) {
            assert(after[n] == p);
        }
    }
    assert(reach(after) =~= grown);
}

/// What the living cells reach is where the rule has something to decide.
proof fn lemma_reach_of_living(cells: Set<(int, int)>, sources: Seq<(int, int)>)
    requires
        sources.to_set() == cells,
    ensures
        reach(sources) == clipped(candidates(cells)),
{
    assert forall|q: (int, int)| reach(sources).contains(q) <==> clipped(
        candidates(cells),
    ).contains(q) by {
        lemma_live_neighbors_positive(cells, q);
        if reach(sources).contains(q) {
            let k = choose|k: int|
                0 <= k < sources.len() && chebyshev(#[trigger] sources[k], q) <= 1;
            assert(sources.contains(sources[k]));
            assert(cells.contains(sources[k]));
            if sources[k] != q {
                assert(adjacent(sources[k], q));
            }
        }
        if in_bounds(q) && candidate(cells, q) {
            if cells.contains(q) {
                assert(sources.contains(q));
                let k = choose|k: int| 0 <= k < sources.len() && sources[k] == q;
                assert(chebyshev(sources[k], q) <= 1);
            } else {
                let p = choose|p: (int, int)| cells.contains(p) && #[trigger] adjacent(p, q);
                assert(sources.contains(p));
                let k = choose|k: int| 0 <= k < sources.len() && sources[k] == p;
                assert(chebyshev(sources[k], q) <= 1);
            }
        }
    }
    assert(reach(sources) =~= clipped(candidates(cells)));
}

/// The verdict of the rule on every cell at which it has something to decide:
/// each living cell and each cell around one, once, with the state it has in
/// the next generation. Every verdict is taken from `world` as it stands.
pub fn visit_cells(world: &WorldState) -> (cells: Vec<(CellPosition, CellState)>)
    ensures
        changed(cells@).no_duplicates(),
        changed(cells@).to_set() == clipped(candidates(world@)),
        forall|i: int|
            0 <= i < cells.len() ==> (#[trigger] cells[i]).1 == state_of(
                lives_on(world@, cells[i].0@),
            ),
{
    let mut cells_to_visit = PositionSet::new();
    let alive_cells = world.alive_cells();
    let ghost sources = positions(alive_cells@);
    assert(cells_to_visit@ =~= reach(sources.take(0)));
    for i in 0..alive_cells.len()
        invariant
            sources == positions(alive_cells@),
            cells_to_visit@ == reach(sources.take(i as int)),
    {
        let cell = alive_cells[i];
        cells_to_visit.insert(cell);
        let around = world.neighbors(cell);
        let ghost ring = positions(around@);
        for j in 0..around.len()
            invariant
                ring == positions(around@),
                cells_to_visit@ == reach(sources.take(i as int)).insert(cell@).union(
                    ring.take(j as int).to_set(),
                ),
        {
            cells_to_visit.insert(around[j]);
            proof {
                assert(ring.take(j + 1) =~= ring.take(j as int).push(ring[j as int]));
                ring.take(j as int).lemma_push_to_set_commute(ring[j as int]);
            }
        }
        proof {
            assert(ring.take(around.len() as int) =~= ring);
            assert(sources[i as int] == cell@);
            lemma_reach_next(sources, i as int);
        }
    }
    proof {
        assert(sources.take(alive_cells.len() as int) =~= sources);
        lemma_reach_of_living(world@, sources);
    }
    let order = cells_to_visit.to_vec();
    let mut cells: Vec<(CellPosition, CellState)> = Vec::new();
    for i in 0..order.len()
        invariant
            cells.len() == i,
            forall|k: int| 0 <= k < i ==> (#[trigger] cells[k]).0 == order[k],
            forall|k: int|
                0 <= k < i ==> (#[trigger] cells[k]).1 == state_of(lives_on(world@, order[k]@)),
    {
        let cell = order[i];
        let cell_state = world.get_cell(cell);
        let alive_neighbors = world.alive_neighbors(cell);
        let new_cell_state = match cell_state {
            CellState::Alive if alive_neighbors < 2 => CellState::Dead,
            CellState::Alive if alive_neighbors > 3 => CellState::Dead,
            CellState::Alive => CellState::Alive,
            CellState::Dead if alive_neighbors == 3 => CellState::Alive,
            CellState::Dead => CellState::Dead,
        };
        cells.push((cell, new_cell_state));
    }
    assert(changed(cells@) =~= positions(order@));
    cells
}

/// Makes each change of the list in turn.
pub fn set_cells(world: &mut WorldState, cells: &Vec<(CellPosition, CellState)>)
    ensures
        final(world)@ == with_cells(old(world)@, cells@),
{
    for i in 0..cells.len()
        invariant
            world@ == with_cells(old(world)@, cells@.take(i as int)),
    {
        let (cell, state) = cells[i];
        assert(cells@.take(i + 1).drop_last() =~= cells@.take(i as int));
        world.set_cell(cell, state);
    }
    assert(cells@.take(cells.len() as int) =~= cells@);
}

/// Changes that speak of each cell once, made to the empty world, leave
/// exactly the cells that they make live.
proof fn lemma_with_cells_from_empty(changes: Seq<(CellPosition, CellState)>, p: (int, int))
    requires
        changed(changes).no_duplicates(),
    ensures
        with_cells(Set::empty(), changes).contains(p) <==> exists|i: int|
            0 <= i < changes.len() && (#[trigger] changes[i]).0@ == p && changes[i].1
                == CellState::Alive,
    decreases changes.len(),
{
    if changes.len() > 0 {
        let rest = changes.drop_last();
        let n = changes.len() - 1;
        assert(changed(rest) =~= changed(changes).drop_last());
        lemma_with_cells_from_empty(rest, p);
        if with_cells(Set::empty(), rest).contains(p) {
            let i = choose|i: int|
                0 <= i < rest.len() && (#[trigger] rest[i]).0@ == p && rest[i].1
                    == CellState::Alive;
            assert(changes[i] == rest[i]);
            assert(changed(changes)[i] == p);
            assert(changed(changes)[n] == changes[n].0@);
        }
        if exists|i: int|
            0 <= i < changes.len() && (#[trigger] changes[i]).0@ == p && changes[i].1
                == CellState::Alive {
            let i = choose|i: int|
                0 <= i < changes.len() && (#[trigger] changes[i]).0@ == p && changes[i].1
                    == CellState::Alive;
            if i < n {
                assert(rest[i] == changes[i]);
                assert(changed(changes)[i] == p);
                assert(changed(changes)[n] == changes[n].0@);
            }
        }
    }
}

/// The next generation. The world handed in is only read: every cell is
/// judged against it, and the cells that live next are gathered in a world of
/// their own. The plane of the rule has no bounds; of the next generation the
/// part within bounds is returned, which is all of it unless a cell is born
/// beyond the rim of what 32-bit coordinates can hold.
pub fn tick(world: &WorldState) -> (next: WorldState)
    ensures
        next@ == clipped(step(world@)),
{
    let cells = visit_cells(world);
    let mut next = WorldState::new();
    set_cells(&mut next, &cells);
    proof {
        assert forall|p: (int, int)| next@.contains(p) <==> clipped(step(world@)).contains(p) by {
            lemma_with_cells_from_empty(cells@, p);
            if next@.contains(p) {
                let i = choose|i: int|
                    0 <= i < cells.len() && (#[trigger] cells[i]).0@ == p && cells[i].1
                        == CellState::Alive;
                assert(changed(cells@)[i] == p);
                assert(changed(cells@).to_set().contains(p));
            }
            if clipped(step(world@)).contains(p) {
                lemma_step_within_candidates(world@, p);
                assert(candidates(world@).contains(p));
                assert(changed(cells@).to_set().contains(p));
                assert(changed(cells@).contains(p));
                let i = choose|i: int| 0 <= i < changed(cells@).len() && changed(cells@)[i] == p;
                assert(cells[i].0@ == p);
            }
        }
        assert(next@ =~= clipped(step(world@)));
    }
    next
}

/// The cell with the number `index`, where the cells are numbered along the
/// rows of a grid `width` wide, from zero. For an index below zero, quotient
/// and remainder are rounded towards zero, as the machine rounds them.
pub open spec fn cell_of_index(width: int, index: int) -> (int, int) {
    if index >= 0 {
        (index % width, index / width)
    } else {
        (-((-index) % width), -((-index) / width))
    }
}

/// The cells with the given numbers.
pub open spec fn cells_of_indices(width: int, indices: Seq<i32>) -> Seq<(int, int)> {
    indices.map_values(|index: i32| cell_of_index(width, index as int))
}

/// The numbers from zero up to, and without, `width * height` are the cells
/// of the grid `width` wide and `height` high, and no two of them the same
/// cell.
pub proof fn lemma_cell_of_index(width: int, height: int, index: int, other: int)
    requires
        width > 0,
        0 <= index < width * height,
        0 <= other < width * height,
    ensures
        0 <= cell_of_index(width, index).0 < width,
        0 <= cell_of_index(width, index).1 < height,
        cell_of_index(width, index) == cell_of_index(width, other) ==> index == other,
{
    lemma_fundamental_div_mod(index, width);
    lemma_fundamental_div_mod(other, width);
    lemma_div_pos_is_pos(index, width);
    let row = index / width;
    assert(row < height) by (nonlinear_arith)
        requires
            width > 0,
            row >= 0,
            width * row <= index,
            index < width * height,
    ;
}

/// The world in which exactly the cells with the given numbers live, the
/// cells numbered along the rows of a grid `size_x` wide.
pub fn world_of_indices(size_x: i32, indices: &Vec<i32>) -> (world: WorldState)
    requires
        size_x > 0,
    ensures
        world@ == cells_of_indices(size_x as int, indices@).to_set(),
{
    let mut world_state = WorldState::new();
    let ghost cells = cells_of_indices(size_x as int, indices@);
    assert(cells.take(0).to_set() =~= Set::<(int, int)>::empty());
    for i in 0..indices.len()
        invariant
            size_x > 0,
            cells == cells_of_indices(size_x as int, indices@),
            world_state@ == cells.take(i as int).to_set(),
    {
        let pos = indices[i];
        let y: i32 = pos / size_x;
        let x: i32 = pos % size_x;
        let cell = CellPosition { x: x, y: y };
        proof {
            assert(cells[i as int] == cell@);
            assert(cells.take(i + 1) =~= cells.take(i as int).push(cells[i as int]));
            cells.take(i as int).lemma_push_to_set_commute(cells[i as int]);
        }
        world_state.set_cell(cell, CellState::Alive);
    }
    assert(cells.take(indices.len() as int) =~= cells);
    world_state
}

/// A world of a grid `size.0` wide and `size.1` high in which one cell in
/// `DENSITY_DIVISOR` lives, the living cells chosen at random. Whatever the
/// choice, the living cells lie in the grid, and their number is the number
/// of cells of the grid divided by `DENSITY_DIVISOR`, rounded down. The number
/// of cells of the grid must fit in 32 bits, and the list of the chosen cells
/// in one allocation.
pub fn random_world(size: (i32, i32)) -> (world: WorldState)
    requires
        size.0 > 0,
        size.1 > 0,
        size.0 * size.1 <= i32::MAX,
        (size.0 * size.1) / (DENSITY_DIVISOR as int) * 4 <= isize::MAX,
    ensures
        world@.finite(),
        world@.len() == (size.0 * size.1) / (DENSITY_DIVISOR as int),
        forall|p: (int, int)|
            world@.contains(p) ==> 0 <= p.0 < size.0 && 0 <= p.1 < size.1,
{
    let (size_x, size_y) = size;
    let mut rng = rand::thread_rng();
    assert(0 < size_x * size_y) by (nonlinear_arith)
        requires
            size_x > 0,
            size_y > 0,
    ;
    let num_cells = size_x * size_y;
    let num_samples = num_cells / DENSITY_DIVISOR;
    let samples = sample_below(&mut rng, num_cells, num_samples as usize);
    let world = world_of_indices(size_x, &samples);
    proof {
        let cells = cells_of_indices(size_x as int, samples@);
        assert forall|i: int, j: int|
            0 <= i < cells.len() && 0 <= j < cells.len() && i != j implies cells[i]
            != cells[j] by {
            lemma_cell_of_index(size_x as int, size_y as int, samples[i] as int, samples[j] as int);
        }
        cells.unique_seq_to_set();
        assert forall|p: (int, int)| world@.contains(p) implies 0 <= p.0 < size.0 && 0 <= p.1
            < size.1 by {
            let i = choose|i: int| 0 <= i < cells.len() && cells[i] == p;
            lemma_cell_of_index(size_x as int, size_y as int, samples[i] as int, samples[i] as int);
        }
        world.lemma_finite_and_bounded();
    }
    world
}

} // verus!

//! A hash set of cell positions, each stored as one 64-bit key.

use crate::plane::in_bounds;
use crate::world::{positions, CellPosition};
use std::collections::HashSet;
use vstd::prelude::*;
use vstd::std_specs::iter::IteratorSpec;

verus! {

broadcast use vstd::std_specs::hash::group_hash_axioms;

/// The key under which a point within bounds is stored: its column and its
/// row, each counted from the lowest coordinate, side by side in 64 bits.
pub closed spec fn key_of(p: (int, int)) -> int {
    (p.0 - i32::MIN) * 0x1_0000_0000 + (p.1 - i32::MIN)
}

/// The point that is stored under `key`.
pub closed spec fn point_of(key: int) -> (int, int) {
    (key / 0x1_0000_0000 + i32::MIN, key % 0x1_0000_0000 + i32::MIN)
}

/// Every point within bounds has a key of its own, and every key a point.
pub proof fn lemma_keys_and_points(p: (int, int), key: int)
    ensures
        in_bounds(p) ==> 0 <= key_of(p) <= u64::MAX && point_of(key_of(p)) == p,
        0 <= key <= u64::MAX ==> in_bounds(point_of(key)) && key_of(point_of(key)) == key,
{
}

/// The key of a cell.
fn pack(cell: CellPosition) -> (key: u64)
    ensures
        key == key_of(cell@),
{
    let column: u64 = (cell.x as i64 + 2147483648i64) as u64;
    let row: u64 = (cell.y as i64 + 2147483648i64) as u64;
    column * 0x1_0000_0000u64 + row
}

/// The cell of a key.
fn unpack(key: u64) -> (cell: CellPosition)
    ensures
        cell@ == point_of(key as int),
{
    let column: u64 = key / 0x1_0000_0000u64;
    let row: u64 = key % 0x1_0000_0000u64;
    let x: i64 = column as i64 - 2147483648i64;
    let y: i64 = row as i64 - 2147483648i64;
    CellPosition { x: x as i32, y: y as i32 }
}

/// A finite set of cell positions.
pub struct PositionSet {
    keys: HashSet<u64>,
}

impl View for PositionSet {
    type V = Set<(int, int)>;

    closed spec fn view(&self) -> Set<(int, int)> {
        Set::new(|p: (int, int)| in_bounds(p) && self.keys@.contains(key_of(p) as u64))
    }
}

impl PositionSet {
    /// The empty set.
    pub fn new() -> (set: PositionSet)
        ensures
            set@ == Set::<(int, int)>::empty(),
    {
        let set = PositionSet { keys: HashSet::new() };
        assert(set@ =~= Set::<(int, int)>::empty());
        set
    }

    /// Whether `cell` is in the set.
    pub fn contains(&self, cell: CellPosition) -> (found: bool)
        ensures
            found == self@.contains(cell@),
    {
        let key = pack(cell);
        self.keys.contains(&key)
    }

    /// Puts `cell` into the set.
    pub fn insert(&mut self, cell: CellPosition)
        ensures
            final(self)@ == old(self)@.insert(cell@),
    {
        let key = pack(cell);
        self.keys.insert(key);
        assert(final(self)@ =~= old(self)@.insert(cell@));
    }

    /// Takes `cell` out of the set.
    pub fn remove(&mut self, cell: CellPosition)
        ensures
            final(self)@ == old(self)@.remove(cell@),
    {
        let key = pack(cell);
        self.keys.remove(&key);
        assert(final(self)@ =~= old(self)@.remove(cell@));
    }

    /// The set is finite and holds only points within bounds.
    pub proof fn lemma_finite_and_bounded(&self)
        ensures
            self@.finite(),
            forall|p: (int, int)| self@.contains(p) ==> in_bounds(p),
    {
        let keys = self.keys.iter().remaining().unref();
        assert(keys.to_set() == self.keys@);
        vstd::seq_lib::seq_to_set_is_finite(keys);
        let points = self.keys@.map(|k: u64| point_of(k as int));
        self.keys@.lemma_map_finite(|k: u64| point_of(k as int));
        assert forall|p: (int, int)| self@.contains(p) <==> points.contains(p) by {
            if self@.contains(p) {
                lemma_keys_and_points(p, 0);
                assert(self.keys@.contains(key_of(p) as u64));
                assert(point_of(key_of(p) as u64 as int) == p);
            }
            if points.contains(p) {
                let k = choose|k: u64| self.keys@.contains(k) && p == point_of(k as int);
                lemma_keys_and_points(p, k as int);
            }
        }
        assert(self@ =~= points);
    }

    /// The positions of the set, each once, in no particular order.
    pub fn to_vec(&self) -> (cells: Vec<CellPosition>)
        ensures
            positions(cells@).no_duplicates(),
            positions(cells@).to_set() == self@,
            cells.len() == self@.len(),
    {
        let mut cells: Vec<CellPosition> = Vec::new();
        let ghost keys = self.keys.iter().remaining();
        for key in it: self.keys.iter()
            invariant
                it.seq() == keys,
                cells.len() == it.index(),
                forall|i: int|
                    0 <= i < cells.len() ==> #[trigger] cells[i]@ == point_of(*keys[i] as int),
        {
            cells.push(unpack(*key));
        }
        proof {
            let points = positions(cells@);
            assert(keys.unref().to_set() == self.keys@);
            assert(keys.no_duplicates());
            assert forall|i: int, j: int|
                0 <= i < points.len() && 0 <= j < points.len() && i != j implies points[i]
                != points[j] by {
                lemma_keys_and_points((0, 0), *keys[i] as int);
                lemma_keys_and_points((0, 0), *keys[j] as int);
                assert(cells[i]@ == point_of(*keys[i] as int));
                assert(cells[j]@ == point_of(*keys[j] as int));
            }
            assert forall|p: (int, int)| self@.contains(p) <==> points.to_set().contains(p) by {
                if self@.contains(p) {
                    lemma_keys_and_points(p, 0);
                    let k = key_of(p) as u64;
                    assert(keys.unref().to_set().contains(k));
                    assert(keys.unref().contains(k));
                    let i = choose|i: int| 0 <= i < keys.len() && keys.unref()[i] == k;
                    assert(cells[i]@ == p);
                    assert(points[i] == p);
                }
                if points.to_set().contains(p) {
                    assert(points.contains(p));
                    let i = choose|i: int| 0 <= i < points.len() && points[i] == p;
                    assert(cells[i]@ == p);
                    lemma_keys_and_points(p, *keys[i] as int);
                    assert(keys.unref()[i] == *keys[i]);
                    assert(keys.unref().contains(*keys[i]));
                    assert(keys.unref().to_set().contains(*keys[i]));
                }
            }
            assert(points.to_set() =~= self@);
            points.unique_seq_to_set();
        }
        cells
    }
}

} // verus!

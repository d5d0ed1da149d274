//! A bounded board: a rectangle of cells, each of which holds a block or
//! nothing, with the blocks listed in the order in which they were put in.

use vstd::prelude::*;

verus! {

/// A cell of the board, or the block on it, as a neighbour sees it.
pub enum Neighbor {
    Alive(Block),
    Dead(Location),
}

/// A block, which knows the cell it stands on.
#[derive(Clone, Copy, PartialEq, Eq, Debug, Structural)]
pub struct Block {
    pub loc: Location,
}

/// A cell of the board by column `x` and row `y`.
#[derive(Clone, Copy, PartialEq, Eq, Debug, Structural)]
pub struct Location {
    pub x: usize,
    pub y: usize,
}

/// The board. Its view is the list of its blocks, the first put in first.
#[derive(Debug)]
pub struct Grid {
    grid: Vec<Vec<Option<Block>>>,
    blocks: Vec<Block>,
}

impl Block {
    /// The block that stands on `location`.
    pub fn new(location: Location) -> (block: Block)
        ensures
            block.loc == location,
    {
        Block { loc: location }
    }
}

impl Location {
    /// The cell in column `x` of row `y`.
    pub fn new(x: usize, y: usize) -> (location: Location)
        ensures
            location.x == x,
            location.y == y,
    {
        Location { x: x, y: y }
    }
}

impl View for Grid {
    type V = Seq<Block>;

    closed spec fn view(&self) -> Seq<Block> {
        self.blocks@
    }
}

impl Grid {
    /// The number of rows.
    pub closed spec fn rows(&self) -> nat {
        self.grid@.len()
    }

    /// The number of columns; none where there is no row.
    pub closed spec fn columns(&self) -> nat {
        if self.grid@.len() > 0 {
            self.grid@[0]@.len()
        } else {
            0
        }
    }

    /// Whether `location` is a cell of this board.
    pub open spec fn has_cell(&self, location: Location) -> bool {
        location.y < self.rows() && location.x < self.columns()
    }

    /// What the cell at `location` holds.
    spec fn held(&self, location: Location) -> Option<Block> {
        self.grid@[location.y as int]@[location.x as int]
    }

    /// What holds of every board: the rows are equally long, each block
    /// stands in the cell that it names, no cell holds a block that is not
    /// listed, and none is listed twice.
    pub closed spec fn wf(&self) -> bool {
        &&& forall|y: int|
            0 <= y < self.grid@.len() ==> (#[trigger] self.grid@[y])@.len() == self.columns()
        &&& forall|location: Location|
            self.has_cell(location) ==> #[trigger] self.held(location) == (if self.blocks@.contains(
                Block { loc: location },
            ) {
                Some(Block { loc: location })
            } else {
                None
            })
        &&& forall|i: int|
            0 <= i < self.blocks@.len() ==> self.has_cell((#[trigger] self.blocks@[i]).loc)
        &&& self.blocks@.no_duplicates()
    }

    /// On a well-formed board every block stands on a cell of the board, and
    /// no block is listed twice.
    pub proof fn lemma_blocks(&self)
        requires
            self.wf(),
        ensures
            self@.no_duplicates(),
            forall|i: int| 0 <= i < self@.len() ==> self.has_cell((#[trigger] self@[i]).loc),
    {
    }

    /// An empty board of `width` columns and `height` rows.
    pub fn new(width: usize, height: usize) -> (grid: Grid)
        ensures
            grid.wf(),
            grid.rows() == height,
            grid.columns() == (if height > 0 {
                width
            } else {
                0
            }),
            grid@ == Seq::<Block>::empty(),
    {
        let mut rows: Vec<Vec<Option<Block>>> = Vec::new();
        for y in 0..height
            invariant
                rows@.len() == y,
                forall|k: int| 0 <= k < y ==> (#[trigger] rows@[k])@.len() == width,
                forall|k: int, x: int|
                    0 <= k < y && 0 <= x < width ==> (#[trigger] rows@[k]@[x]) == None::<Block>,
        {
            let mut row: Vec<Option<Block>> = Vec::new();
            for x in 0..width
                invariant
                    row@.len() == x,
                    forall|k: int| 0 <= k < x ==> (#[trigger] row@[k]) == None::<Block>,
            {
                row.push(None);
            }
            rows.push(row);
        }
        Grid { grid: rows, blocks: Vec::new() }
    }

    /// Puts `block` on the cell that it names. A block that names no cell of
    /// the board is not taken, and one put on a cell that holds its like
    /// changes nothing.
    pub fn insert(&mut self, block: Block)
        requires
            old(self).wf(),
        ensures
            final(self).wf(),
            final(self).rows() == old(self).rows(),
            final(self).columns() == old(self).columns(),
            final(self)@ == (if old(self).has_cell(block.loc) && !old(self)@.contains(block) {
                old(self)@.push(block)
            } else {
                old(self)@
            }),
    {
        if self.valid(block.loc) {
            let held = self.grid[block.loc.y][block.loc.x];
            match held {
                Some(_block) => {
                    self.grid[block.loc.y][block.loc.x] = Some(block);
                    proof {
                        assert(old(self).held(block.loc) == Some(block));
                        let row = block.loc.y as int;
                        assert(self.grid@[row]@ =~= old(self).grid@[row]@);
                        assert forall|location: Location|
                            self.has_cell(location) implies #[trigger] self.held(location)
                            == old(self).held(location) by {
                            assert((old(self).grid@[location.y as int])@.len() == old(
                                self,
                            ).columns());
                        }
                    }
                },
                None => {
                    self.grid[block.loc.y][block.loc.x] = Some(block);
                    self.blocks.push(block);
                    proof {
                        let before = old(self).blocks@;
                        assert(old(self).held(block.loc) == None::<Block>);
                        assert(!before.contains(block));
                        assert forall|other: Block|
                            self.blocks@.contains(other) <==> before.contains(other) || other
                                == block by {
                            if before.contains(other) {
                                let i = choose|i: int| 0 <= i < before.len() && before[i] == other;
                                assert(self.blocks@[i] == other);
                            }
                            if other == block {
                                assert(self.blocks@[before.len() as int] == other);
                            }
                        }
                        assert forall|location: Location|
                            self.has_cell(location) implies #[trigger] self.held(location) == (
                            if location == block.loc {
                                Some(block)
                            } else {
                                old(self).held(location)
                            }) by {
                            assert((old(self).grid@[location.y as int])@.len() == old(
                                self,
                            ).columns());
                        }
                    }
                },
            }
        }
    }

    /// Whether `block` is on the board.
    pub fn contains(&self, block: &Block) -> (found: bool)
        requires
            self.wf(),
        ensures
            found == self@.contains(*block),
    {
        if self.valid(block.loc) {
            assert(self.held(block.loc) is Some <==> self@.contains(*block));
            self.grid[block.loc.y][block.loc.x].is_some()
        } else {
            proof {
                if self@.contains(*block) {
                    let i = choose|i: int| 0 <= i < self@.len() && self@[i] == *block;
                    assert(self.has_cell(self.blocks@[i].loc));
                }
            }
            false
        }
    }

    /// The blocks on the board, the first put in first.
    pub fn get_cells(&self) -> (cells: Vec<Block>)
        ensures
            cells@ == self@,
    {
        let mut cells: Vec<Block> = Vec::with_capacity(self.blocks.len());
        for i in 0..self.blocks.len()
            invariant
                cells@ == self.blocks@.take(i as int),
        {
            cells.push(self.blocks[i]);
            assert(self.blocks@.take(i + 1) =~= self.blocks@.take(i as int).push(
                self.blocks@[i as int],
            ));
        }
        assert(self.blocks@.take(self.blocks.len() as int) =~= self.blocks@);
        cells
    }

    /// Rows first, then columns. A board without rows has no size to give.
    pub fn size(&self) -> (size: (usize, usize))
        requires
            self.rows() > 0,
        ensures
            size.0 == self.rows(),
            size.1 == self.columns(),
    {
        (self.grid.len(), self.grid[0].len())
    }

    /// The number of rows.
    pub fn height(&self) -> (height: usize)
        ensures
            height == self.rows(),
    {
        self.grid.len()
    }

    /// The number of columns, on a board that has a row.
    pub fn width(&self) -> (width: usize)
        requires
            self.rows() > 0,
        ensures
            width == self.columns(),
    {
        self.grid[0].len()
    }

    /// Whether `location` is a cell of the board.
    #[inline]
    fn valid(&self, location: Location) -> (valid: bool)
        ensures
            valid == self.has_cell(location),
    {
        location.y < self.grid.len() && location.x < self.grid[0].len()
    }
}

} // verus!

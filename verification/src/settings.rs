//! The settings of a game: how large the board is and how large a cell is
//! drawn, and from these the size of the window.

use vstd::prelude::*;

verus! {

/// The size of a board in cells: `x` columns and `y` rows.
#[derive(Clone, Copy, PartialEq, Eq, Debug, Structural)]
pub struct GridSize {
    pub x: usize,
    pub y: usize,
}

/// The settings of a game.
#[derive(Debug)]
pub struct GameSettings {
    /// The side of a cell on the screen, in pixels.
    pub block_size: usize,
    /// The size of the board.
    pub grid_size: GridSize,
}

impl Default for GameSettings {
    /// Cells of ten pixels on a board of 48 columns and 64 rows.
    fn default() -> (settings: GameSettings)
        ensures
            settings.block_size == 10,
            settings.grid_size == (GridSize { y: 64, x: 48 }),
    {
        GameSettings { block_size: 10, grid_size: GridSize { y: 64, x: 48 } }
    }
}

impl GameSettings {
    /// The height of the window in pixels: a cell's side times the number of
    /// rows, cut to its lowest 32 bits where it is larger than they can hold.
    pub fn window_height(&self) -> (height: u32)
        requires
            self.block_size * self.grid_size.y <= usize::MAX,
        ensures
            height == (self.block_size * self.grid_size.y) as u32,
            self.block_size * self.grid_size.y <= u32::MAX ==> height == self.block_size
                * self.grid_size.y,
    {
        (self.block_size * self.grid_size.y) as u32
    }

    /// The width of the window in pixels: a cell's side times the number of
    /// columns, cut to its lowest 32 bits where it is larger than they can
    /// hold.
    pub fn window_width(&self) -> (width: u32)
        requires
            self.block_size * self.grid_size.x <= usize::MAX,
        ensures
            width == (self.block_size * self.grid_size.x) as u32,
            self.block_size * self.grid_size.x <= u32::MAX ==> width == self.block_size
                * self.grid_size.x,
    {
        (self.block_size * self.grid_size.x) as u32
    }

    /// The size of the window in pixels, width first.
    pub fn window_size(&self) -> (size: (u32, u32))
        requires
            self.block_size * self.grid_size.x <= usize::MAX,
            self.block_size * self.grid_size.y <= usize::MAX,
        ensures
            size.0 == (self.block_size * self.grid_size.x) as u32,
            size.1 == (self.block_size * self.grid_size.y) as u32,
    {
        (self.window_width(), self.window_height())
    }
}

} // verus!

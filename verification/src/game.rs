//! The state of a running game and what each event does to it: the world, the
//! cell under the pointer, whether generations pass, and whether cells are
//! being drawn or wiped out. Windows, pixels and devices are the caller's.

use crate::plane::{clipped, step};
use crate::world::{with_cell, CellPosition, CellState, WorldState};
use vstd::prelude::*;

verus! {

/// What the pointer does to the cells it passes over while a button is held.
#[derive(Clone, Copy, PartialEq, Eq, Debug, Structural)]
pub enum DrawingMode {
    Kill,
    Spawn,
}

/// A button of the mouse.
#[derive(Clone, Copy, PartialEq, Eq, Debug, Structural)]
pub enum MouseButton {
    Left,
    Right,
    Other,
}

/// A key of the keyboard.
#[derive(Clone, Copy, PartialEq, Eq, Debug, Structural)]
pub enum Key {
    Space,
    Backspace,
    Other,
}

/// Anything that can be pressed and released.
#[derive(Clone, Copy, PartialEq, Eq, Debug, Structural)]
pub enum Button {
    Mouse(MouseButton),
    Keyboard(Key),
    Other,
}

/// A running game.
pub struct Game {
    world_state: WorldState,
    mouse_cell: CellPosition,
    window_size: (u32, u32),
    is_ticking: bool,
    is_drawing: bool,
    drawing_mode: DrawingMode,
}

/// A game as the contracts see it.
pub struct GameView {
    /// The living cells.
    pub world: Set<(int, int)>,
    /// The cell under the pointer.
    pub mouse_cell: (int, int),
    /// Width and height of the window.
    pub window_size: (u32, u32),
    /// Whether generations pass.
    pub is_ticking: bool,
    /// Whether a mouse button is held, so that the pointer draws.
    pub is_drawing: bool,
    /// What the pointer draws.
    pub drawing_mode: DrawingMode,
}

impl View for Game {
    type V = GameView;

    closed spec fn view(&self) -> GameView {
        GameView {
            world: self.world_state@,
            mouse_cell: self.mouse_cell@,
            window_size: self.window_size,
            is_ticking: self.is_ticking,
            is_drawing: self.is_drawing,
            drawing_mode: self.drawing_mode,
        }
    }
}

/// The state that a drawing mode gives to a cell.
pub open spec fn state_drawn(mode: DrawingMode) -> CellState {
    match mode {
        DrawingMode::Kill => CellState::Dead,
        DrawingMode::Spawn => CellState::Alive,
    }
}

/// The game after the pointer has drawn on the cell under it.
pub open spec fn drawn(game: GameView) -> GameView {
    GameView {
        world: with_cell(game.world, game.mouse_cell, state_drawn(game.drawing_mode)),
        ..game
    }
}

/// The game after drawing has begun in `mode`: the cell under the pointer is
/// drawn on at once.
pub open spec fn drawing_begun(game: GameView, mode: DrawingMode) -> GameView {
    drawn(GameView { is_drawing: true, drawing_mode: mode, ..game })
}

/// The game after `button` was pressed: the left mouse button begins to
/// spawn cells and the right one to kill them, the space bar halts the
/// passing of generations or lets it go on, the backspace key empties the
/// world, and every other button does nothing.
pub open spec fn pressed(game: GameView, button: Button) -> GameView {
    match button {
        Button::Mouse(MouseButton::Left) => drawing_begun(game, DrawingMode::Spawn),
        Button::Mouse(MouseButton::Right) => drawing_begun(game, DrawingMode::Kill),
        Button::Keyboard(Key::Space) => GameView { is_ticking: !game.is_ticking, ..game },
        Button::Keyboard(Key::Backspace) => GameView { world: Set::empty(), ..game },
        _ => game,
    }
}

/// The game after `button` was released: either of the two mouse buttons
/// ends the drawing, and every other button does nothing.
pub open spec fn released(game: GameView, button: Button) -> GameView {
    match button {
        Button::Mouse(MouseButton::Left) => GameView { is_drawing: false, ..game },
        Button::Mouse(MouseButton::Right) => GameView { is_drawing: false, ..game },
        _ => game,
    }
}

/// The game after the pointer has moved to `cell`: while a button is held,
/// the cell is drawn on.
pub open spec fn pointed(game: GameView, cell: (int, int)) -> GameView {
    let moved = GameView { mouse_cell: cell, ..game };
    if moved.is_drawing {
        drawn(moved)
    } else {
        moved
    }
}

/// The game after one update: while generations pass, the world is replaced
/// by its next generation, as far as that lies within bounds.
pub open spec fn updated(game: GameView) -> GameView {
    if game.is_ticking {
        GameView { world: clipped(step(game.world)), ..game }
    } else {
        game
    }
}

impl Game {
    /// A game on `world_state` in a window of `window_size`: halted, nothing
    /// being drawn, the pointer on the cell at the origin.
    pub fn new(window_size: (u32, u32), world_state: WorldState) -> (game: Game)
        ensures
            game@ == (GameView {
                world: world_state@,
                mouse_cell: (0, 0),
                window_size: window_size,
                is_ticking: false,
                is_drawing: false,
                drawing_mode: DrawingMode::Spawn,
            }),
    {
        Game {
            mouse_cell: CellPosition { x: 0, y: 0 },
            window_size: window_size,
            world_state: world_state,
            is_ticking: false,
            is_drawing: false,
            drawing_mode: DrawingMode::Spawn,
        }
    }

    /// The world of the game.
    pub fn world_state(&self) -> (world: &WorldState)
        ensures
            world@ == self@.world,
    {
        &self.world_state
    }

    /// Whether generations pass.
    pub fn is_ticking(&self) -> (ticking: bool)
        ensures
            ticking == self@.is_ticking,
    {
        self.is_ticking
    }

    /// Width and height of the window.
    pub fn window_size(&self) -> (size: (u32, u32))
        ensures
            size == self@.window_size,
    {
        self.window_size
    }

    /// One update of the game.
    pub fn tick(&mut self)
        ensures
            final(self)@ == updated(old(self)@),
    {
        if self.is_ticking {
            self.world_state = crate::world::tick(&self.world_state);
        }
    }

    /// Takes note of a new size of the window.
    pub fn update_size(&mut self, width: u32, height: u32)
        ensures
            final(self)@ == (GameView { window_size: (width, height), ..old(self)@ }),
    {
        self.window_size = (width, height);
    }

    /// Takes note of the cell that the pointer has moved to.
    pub fn update_mouse_pos(&mut self, cell: CellPosition)
        ensures
            final(self)@ == pointed(old(self)@, cell@),
    {
        self.mouse_cell = cell;
        if self.is_drawing {
            self.handle_draw();
        }
    }

    /// Takes note of a button released.
    pub fn handle_button_release(&mut self, button: Button)
        ensures
            final(self)@ == released(old(self)@, button),
    {
        match button {
            Button::Mouse(MouseButton::Left) => {
                self.stop_drawing();
            },
            Button::Mouse(MouseButton::Right) => {
                self.stop_drawing();
            },
            _ => {},
        };
    }

    /// Takes note of a button pressed.
    pub fn handle_button_press(&mut self, button: Button)
        ensures
            final(self)@ == pressed(old(self)@, button),
    {
        match button {
            Button::Mouse(MouseButton::Left) => {
                self.start_drawing(DrawingMode::Spawn);
            },
            Button::Mouse(MouseButton::Right) => {
                self.start_drawing(DrawingMode::Kill);
            },
            Button::Keyboard(Key::Space) => {
                self.toggle_is_ticking();
            },
            Button::Keyboard(Key::Backspace) => {
                self.kill_all_cells();
            },
            _ => {},
        };
    }

    /// Draws on the cell under the pointer.
    fn handle_draw(&mut self)
        ensures
            final(self)@ == drawn(old(self)@),
    {
        match self.drawing_mode {
            DrawingMode::Kill => {
                self.kill_cell_at_mouse_location();
            },
            DrawingMode::Spawn => {
                self.create_cell_at_mouse_location();
            },
        };
    }

    /// Begins to draw in `mode`, at once on the cell under the pointer.
    fn start_drawing(&mut self, mode: DrawingMode)
        ensures
            final(self)@ == drawing_begun(old(self)@, mode),
    {
        self.is_drawing = true;
        self.drawing_mode = mode;
        self.handle_draw()
    }

    /// Ends the drawing.
    fn stop_drawing(&mut self)
        ensures
            final(self)@ == (GameView { is_drawing: false, ..old(self)@ }),
    {
        self.is_drawing = false;
    }

    /// Empties the world.
    fn kill_all_cells(&mut self)
        ensures
            final(self)@ == (GameView { world: Set::empty(), ..old(self)@ }),
    {
        self.world_state = WorldState::new();
    }

    /// Halts the passing of generations, or lets it go on.
    fn toggle_is_ticking(&mut self)
        ensures
            final(self)@ == (GameView { is_ticking: !old(self)@.is_ticking, ..old(self)@ }),
    {
        self.is_ticking = !self.is_ticking;
    }

    /// Kills the cell under the pointer.
    fn kill_cell_at_mouse_location(&mut self)
        ensures
            final(self)@ == (GameView {
                world: old(self)@.world.remove(old(self)@.mouse_cell),
                ..old(self)@
            }),
    {
        let cell_position = self.mouse_cell;
        self.world_state.set_cell(cell_position, CellState::Dead);
    }

    /// Brings the cell under the pointer to life.
    fn create_cell_at_mouse_location(&mut self)
        ensures
            final(self)@ == (GameView {
                world: old(self)@.world.insert(old(self)@.mouse_cell),
                ..old(self)@
            }),
    {
        let cell_position = self.mouse_cell;
        self.world_state.set_cell(cell_position, CellState::Alive);
    }
}

} // verus!

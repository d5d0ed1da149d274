use game_of_life::game::{Button, DrawingMode, Game, Key, MouseButton};
use game_of_life::world::{CellPosition, CellState, WorldState};

fn at(x: i32, y: i32) -> CellPosition {
    CellPosition { x: x, y: y }
}

fn world_of(cells: &[(i32, i32)]) -> WorldState {
    let mut world = WorldState::new();
    for &(x, y) in cells {
        world.set_cell(at(x, y), CellState::Alive);
    }
    world
}

fn sorted_cells(game: &Game) -> Vec<(i32, i32)> {
    let mut cells: Vec<(i32, i32)> =
        game.world_state().alive_cells().iter().map(|c| (c.x, c.y)).collect();
    cells.sort();
    cells
}

#[test]
fn a_new_game_is_halted_and_keeps_its_world() {
    let game = Game::new((640, 480), world_of(&[(1, 0), (1, 1), (1, 2)]));
    assert!(!game.is_ticking());
    assert_eq!(game.window_size(), (640, 480));
    assert_eq!(sorted_cells(&game), vec![(1, 0), (1, 1), (1, 2)]);
}

#[test]
fn a_halted_game_does_not_advance() {
    let mut game = Game::new((640, 480), world_of(&[(1, 0), (1, 1), (1, 2)]));
    game.tick();
    game.tick();
    game.tick();
    assert_eq!(sorted_cells(&game), vec![(1, 0), (1, 1), (1, 2)]);
}

#[test]
fn the_space_bar_starts_and_halts_the_game() {
    let mut game = Game::new((640, 480), world_of(&[(1, 0), (1, 1), (1, 2)]));
    game.handle_button_press(Button::Keyboard(Key::Space));
    assert!(game.is_ticking());
    game.tick();
    assert_eq!(sorted_cells(&game), vec![(0, 1), (1, 1), (2, 1)]);
    game.tick();
    assert_eq!(sorted_cells(&game), vec![(1, 0), (1, 1), (1, 2)]);
    game.handle_button_press(Button::Keyboard(Key::Space));
    assert!(!game.is_ticking());
    game.tick();
    assert_eq!(sorted_cells(&game), vec![(1, 0), (1, 1), (1, 2)]);
}

#[test]
fn releasing_the_space_bar_does_nothing() {
    let mut game = Game::new((640, 480), WorldState::new());
    game.handle_button_press(Button::Keyboard(Key::Space));
    game.handle_button_release(Button::Keyboard(Key::Space));
    assert!(game.is_ticking());
}

#[test]
fn the_backspace_key_empties_the_world() {
    let mut game = Game::new((640, 480), world_of(&[(1, 0), (1, 1), (1, 2)]));
    game.handle_button_press(Button::Keyboard(Key::Space));
    game.handle_button_press(Button::Keyboard(Key::Backspace));
    assert!(sorted_cells(&game).is_empty());
    assert!(game.is_ticking());
    assert_eq!(game.window_size(), (640, 480));
}

#[test]
fn the_left_button_spawns_a_cell_under_the_pointer_at_once() {
    let mut game = Game::new((640, 480), WorldState::new());
    game.handle_button_press(Button::Mouse(MouseButton::Left));
    assert_eq!(sorted_cells(&game), vec![(0, 0)]);
}

#[test]
fn the_pointer_draws_only_while_a_button_is_held() {
    let mut game = Game::new((640, 480), WorldState::new());
    game.update_mouse_pos(at(3, 4));
    assert!(sorted_cells(&game).is_empty());
    game.handle_button_press(Button::Mouse(MouseButton::Left));
    assert_eq!(sorted_cells(&game), vec![(3, 4)]);
    game.update_mouse_pos(at(4, 4));
    game.update_mouse_pos(at(5, 5));
    assert_eq!(sorted_cells(&game), vec![(3, 4), (4, 4), (5, 5)]);
    game.handle_button_release(Button::Mouse(MouseButton::Left));
    game.update_mouse_pos(at(6, 6));
    assert_eq!(sorted_cells(&game), vec![(3, 4), (4, 4), (5, 5)]);
}

#[test]
fn the_right_button_kills_the_cells_under_the_pointer() {
    let mut game = Game::new((640, 480), world_of(&[(0, 0), (1, 0), (2, 0), (3, 0)]));
    game.update_mouse_pos(at(1, 0));
    game.handle_button_press(Button::Mouse(MouseButton::Right));
    assert_eq!(sorted_cells(&game), vec![(0, 0), (2, 0), (3, 0)]);
    game.update_mouse_pos(at(2, 0));
    game.update_mouse_pos(at(2, 1));
    assert_eq!(sorted_cells(&game), vec![(0, 0), (3, 0)]);
    game.handle_button_release(Button::Mouse(MouseButton::Right));
    game.update_mouse_pos(at(3, 0));
    assert_eq!(sorted_cells(&game), vec![(0, 0), (3, 0)]);
}

#[test]
fn releasing_either_mouse_button_ends_the_drawing() {
    let mut game = Game::new((640, 480), WorldState::new());
    game.handle_button_press(Button::Mouse(MouseButton::Left));
    game.handle_button_release(Button::Mouse(MouseButton::Right));
    game.update_mouse_pos(at(9, 9));
    assert_eq!(sorted_cells(&game), vec![(0, 0)]);
}

#[test]
fn the_last_button_pressed_sets_what_is_drawn() {
    let mut game = Game::new((640, 480), WorldState::new());
    game.update_mouse_pos(at(1, 1));
    game.handle_button_press(Button::Mouse(MouseButton::Left));
    game.update_mouse_pos(at(2, 2));
    game.handle_button_press(Button::Mouse(MouseButton::Right));
    assert_eq!(sorted_cells(&game), vec![(1, 1)]);
    game.update_mouse_pos(at(1, 1));
    assert!(sorted_cells(&game).is_empty());
}

#[test]
fn other_buttons_do_nothing() {
    let mut game = Game::new((640, 480), world_of(&[(7, 7)]));
    game.handle_button_press(Button::Mouse(MouseButton::Other));
    game.handle_button_press(Button::Keyboard(Key::Other));
    game.handle_button_press(Button::Other);
    game.update_mouse_pos(at(1, 1));
    game.handle_button_release(Button::Mouse(MouseButton::Other));
    game.handle_button_release(Button::Keyboard(Key::Backspace));
    game.handle_button_release(Button::Other);
    assert!(!game.is_ticking());
    assert_eq!(sorted_cells(&game), vec![(7, 7)]);
}

#[test]
fn a_mouse_button_held_is_still_held_after_another_key() {
    let mut game = Game::new((640, 480), WorldState::new());
    game.handle_button_press(Button::Mouse(MouseButton::Left));
    game.handle_button_press(Button::Keyboard(Key::Backspace));
    assert!(sorted_cells(&game).is_empty());
    game.update_mouse_pos(at(-2, -3));
    assert_eq!(sorted_cells(&game), vec![(-2, -3)]);
}

#[test]
fn the_window_size_follows_the_window() {
    let mut game = Game::new((640, 480), world_of(&[(7, 7)]));
    game.update_size(800, 600);
    assert_eq!(game.window_size(), (800, 600));
    assert_eq!(sorted_cells(&game), vec![(7, 7)]);
    assert!(!game.is_ticking());
}

#[test]
fn drawing_modes_are_told_apart() {
    assert!(DrawingMode::Kill != DrawingMode::Spawn);
    assert_eq!(DrawingMode::Spawn, DrawingMode::Spawn);
}

use game_of_life::settings::{GameSettings, GridSize};

#[test]
fn the_default_settings() {
    let settings: GameSettings = Default::default();
    assert_eq!(settings.block_size, 10);
    assert_eq!(settings.grid_size, GridSize { y: 64, x: 48 });
    assert_eq!(settings.grid_size.x, 48);
    assert_eq!(settings.grid_size.y, 64);
}

#[test]
fn the_default_window_is_480_by_640() {
    let settings: GameSettings = Default::default();
    assert_eq!(settings.window_width(), 480);
    assert_eq!(settings.window_height(), 640);
    assert_eq!(settings.window_size(), (480, 640));
}

#[test]
fn the_window_is_a_block_times_the_grid() {
    let settings = GameSettings { block_size: 7, grid_size: GridSize { x: 3, y: 11 } };
    assert_eq!(settings.window_width(), 21);
    assert_eq!(settings.window_height(), 77);
    assert_eq!(settings.window_size(), (21, 77));
}

#[test]
fn a_window_of_no_block_or_no_grid_is_empty() {
    let flat = GameSettings { block_size: 0, grid_size: GridSize { x: 48, y: 64 } };
    assert_eq!(flat.window_size(), (0, 0));
    let none = GameSettings { block_size: 10, grid_size: GridSize { x: 0, y: 0 } };
    assert_eq!(none.window_width(), 0);
    assert_eq!(none.window_height(), 0);
}

#[test]
fn the_largest_window_that_32_bits_hold() {
    let settings = GameSettings { block_size: 65535, grid_size: GridSize { x: 65537, y: 1 } };
    assert_eq!(settings.window_width(), 4294967295);
    assert_eq!(settings.window_height(), 65535);
}

#[test]
fn a_larger_window_is_cut_to_its_lowest_32_bits() {
    if usize::BITS >= 64 {
        let settings = GameSettings { block_size: 65536, grid_size: GridSize { x: 65536, y: 65537 } };
        assert_eq!(settings.window_width(), 0);
        assert_eq!(settings.window_height(), 65536);
    }
}

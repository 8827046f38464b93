use hitboxer::cycler::{cyclical_decrement, cyclical_increment};
use hitboxer::selection::{change_index, color_index_incrementer, ColorIndex, TextureAtlasState};

#[test]
fn increment_wraps_at_every_length() {
    for length in 1usize..20 {
        assert_eq!(cyclical_increment(length - 1, length), 0);
    }
    assert_eq!(cyclical_increment(0, 3), 1);
    assert_eq!(cyclical_increment(1, 3), 2);
    assert_eq!(cyclical_increment(2, 3), 0);
}

#[test]
fn decrement_wraps_at_every_length() {
    for length in 1usize..20 {
        assert_eq!(cyclical_decrement(0, length), length - 1);
    }
    assert_eq!(cyclical_decrement(2, 3), 1);
    assert_eq!(cyclical_decrement(1, 3), 0);
    assert_eq!(cyclical_decrement(0, 3), 2);
}

#[test]
fn increment_and_decrement_are_inverse() {
    for length in 1usize..10 {
        for val in 0..length {
            assert_eq!(cyclical_decrement(cyclical_increment(val, length), length), val);
            assert_eq!(cyclical_increment(cyclical_decrement(val, length), length), val);
        }
    }
}

#[test]
fn change_index_pages_through_the_grid() {
    let mut state = TextureAtlasState::new(2, 3);
    assert_eq!(state.length(), 6);
    change_index(&mut state, false);
    assert_eq!(state.index, 5);
    change_index(&mut state, true);
    assert_eq!(state.index, 0);
    change_index(&mut state, true);
    assert_eq!(state.index, 1);
}

#[test]
fn default_grid_is_one_frame() {
    let state = TextureAtlasState::default();
    assert_eq!(state.rows, 1);
    assert_eq!(state.columns, 1);
    assert_eq!(state.index, 0);
    assert_eq!(state.length(), 1);
}

#[test]
fn color_index_cycles_over_the_category_count() {
    let mut color = ColorIndex(0);
    color_index_incrementer(&mut color, 5, false);
    assert_eq!(color.0, 4);
    color_index_incrementer(&mut color, 5, true);
    assert_eq!(color.0, 0);
    color_index_incrementer(&mut color, 5, true);
    assert_eq!(color.0, 1);
}

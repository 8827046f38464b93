use hitboxer::errors::HitboxError;
use hitboxer::hitboxes::{HitboxAtlas, Hitboxes};
use hitboxer::rect::{CursorLocation, Rect};

fn rect(min_x: i64, min_y: i64, max_x: i64, max_y: i64) -> Rect {
    Rect { min_x, min_y, max_x, max_y }
}

#[test]
fn create_two_by_three_with_five_categories() {
    let atlas = HitboxAtlas::create(2, 3, 5);
    assert_eq!(atlas.frame_count(), 6);
    assert_eq!(atlas.category_count(), 5);
    for f in 0..6 {
        let frame = atlas.get_frame(f);
        assert_eq!(frame.category_count(), 5);
        for c in 0..5 {
            assert_eq!(frame.hitbox_count(c), 0);
        }
    }
}

#[test]
fn create_is_grid_times_categories_for_various_sizes() {
    let atlas = HitboxAtlas::create(4, 7, 3);
    assert_eq!(atlas.frame_count(), 28);
    for f in 0..28 {
        assert_eq!(atlas.get_frame(f).category_count(), 3);
    }
    let single = HitboxAtlas::create(1, 1, 1);
    assert_eq!(single.frame_count(), 1);
    assert_eq!(single.get_frame(0).category_count(), 1);
    assert_eq!(single.get_frame(0).hitbox_count(0), 0);
}

#[test]
fn add_stores_one_rectangle_at_frame_and_category() {
    let mut atlas = HitboxAtlas::create(2, 3, 5);
    atlas.add_hitbox(rect(10, 10, 50, 50), 2, 1);
    let frame = atlas.get_frame(2);
    assert_eq!(frame.hitbox_count(1), 1);
    assert_eq!(frame.get_hitbox(1, 0), rect(10, 10, 50, 50));
    for c in [0usize, 2, 3, 4] {
        assert_eq!(frame.hitbox_count(c), 0);
    }
    for f in [0usize, 1, 3, 4, 5] {
        for c in 0..5 {
            assert_eq!(atlas.get_frame(f).hitbox_count(c), 0);
        }
    }
}

#[test]
fn remove_returns_the_added_rectangle_and_empties_the_category() {
    let mut atlas = HitboxAtlas::create(2, 3, 5);
    atlas.add_hitbox(rect(10, 10, 50, 50), 2, 1);
    let removed = atlas.remove_hitbox(2, 1, 0);
    assert_eq!(removed, Ok(rect(10, 10, 50, 50)));
    assert_eq!(atlas.get_frame(2).hitbox_count(1), 0);
}

#[test]
fn add_then_remove_leaves_category_length_unchanged() {
    let mut atlas = HitboxAtlas::create(1, 2, 3);
    atlas.add_hitbox(rect(0, 0, 5, 5), 1, 2);
    atlas.add_hitbox(rect(1, 1, 6, 6), 1, 2);
    let before = atlas.get_frame(1).hitbox_count(2);
    atlas.add_hitbox(rect(-3, -4, 7, 8), 1, 2);
    let removed = atlas.remove_hitbox(1, 2, before);
    assert_eq!(removed, Ok(rect(-3, -4, 7, 8)));
    assert_eq!(atlas.get_frame(1).hitbox_count(2), before);
    assert_eq!(atlas.get_frame(1).get_hitbox(2, 0), rect(0, 0, 5, 5));
    assert_eq!(atlas.get_frame(1).get_hitbox(2, 1), rect(1, 1, 6, 6));
}

#[test]
fn remove_shifts_later_entries_down() {
    let mut atlas = HitboxAtlas::create(1, 1, 2);
    atlas.add_hitbox(rect(0, 0, 1, 1), 0, 0);
    atlas.add_hitbox(rect(2, 2, 3, 3), 0, 0);
    atlas.add_hitbox(rect(4, 4, 5, 5), 0, 0);
    let removed = atlas.remove_hitbox(0, 0, 1);
    assert_eq!(removed, Ok(rect(2, 2, 3, 3)));
    let frame = atlas.get_frame(0);
    assert_eq!(frame.hitbox_count(0), 2);
    assert_eq!(frame.get_hitbox(0, 0), rect(0, 0, 1, 1));
    assert_eq!(frame.get_hitbox(0, 1), rect(4, 4, 5, 5));
}

#[test]
fn remove_with_invalid_rectangle_index_reports_and_keeps_data() {
    let mut atlas = HitboxAtlas::create(1, 1, 2);
    atlas.add_hitbox(rect(0, 0, 1, 1), 0, 0);
    let removed = atlas.remove_hitbox(0, 0, 1);
    assert_eq!(removed, Err(HitboxError::RectangleIndexInvalid));
    assert_eq!(atlas.get_frame(0).hitbox_count(0), 1);
    assert_eq!(atlas.get_frame(0).get_hitbox(0, 0), rect(0, 0, 1, 1));
}

#[test]
fn from_corners_normalizes_reversed_drag() {
    let a = CursorLocation { x: 50, y: 50 };
    let b = CursorLocation { x: 10, y: 10 };
    let forward = Rect::from_corners(b, a);
    let backward = Rect::from_corners(a, b);
    assert_eq!(forward, rect(10, 10, 50, 50));
    assert_eq!(backward, rect(10, 10, 50, 50));
}

#[test]
fn from_corners_normalizes_each_axis_independently() {
    let a = CursorLocation { x: 10, y: 90 };
    let b = CursorLocation { x: 70, y: 20 };
    assert_eq!(Rect::from_corners(a, b), rect(10, 20, 70, 90));
    assert_eq!(Rect::from_corners(b, a), rect(10, 20, 70, 90));
}

#[test]
fn zero_area_rectangle_is_kept() {
    let p = CursorLocation { x: 7, y: -3 };
    let r = Rect::from_corners(p, p);
    assert_eq!(r, rect(7, -3, 7, -3));
    let mut atlas = HitboxAtlas::create(1, 1, 1);
    atlas.add_hitbox(r, 0, 0);
    assert_eq!(atlas.get_frame(0).hitbox_count(0), 1);
}

#[test]
fn fresh_frame_has_requested_empty_categories() {
    let frame = Hitboxes::new(4);
    assert_eq!(frame.category_count(), 4);
    for c in 0..4 {
        assert_eq!(frame.hitbox_count(c), 0);
    }
}

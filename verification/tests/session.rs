use hitboxer::errors::HitboxError;
use hitboxer::rect::{CursorLocation, Rect};
use hitboxer::session::EditorSession;

fn at(x: i64, y: i64) -> CursorLocation {
    CursorLocation { x, y }
}

fn rect(min_x: i64, min_y: i64, max_x: i64, max_y: i64) -> Rect {
    Rect { min_x, min_y, max_x, max_y }
}

fn frame_category(session: &EditorSession, frame: usize, category: usize) -> Vec<Rect> {
    let atlas = session.atlas.as_ref().unwrap();
    let f = atlas.get_frame(frame);
    let mut out: Vec<Rect> = Vec::new();
    for h in 0..f.hitbox_count(category) {
        out.push(f.get_hitbox(category, h));
    }
    out
}

#[test]
fn drag_commits_normalized_rectangle_to_active_slot() {
    let mut session = EditorSession::new(5);
    session.create_atlas(2, 3);
    session.pointer_tick(at(100, 100), true, true, false, false);
    session.pointer_tick(at(60, 90), true, false, false, false);
    session.pointer_tick(at(40, 80), true, false, false, false);
    session.pointer_tick(at(40, 80), false, false, true, false);
    let committed = frame_category(&session, 0, 0);
    assert_eq!(committed, vec![rect(40, 80, 100, 100)]);
    assert_eq!(session.box_creation.init_location, at(0, 0));
    assert_eq!(session.box_creation.curr_location, at(0, 0));
}

#[test]
fn captured_ticks_change_nothing() {
    let mut session = EditorSession::new(5);
    session.create_atlas(1, 1);
    session.pointer_tick(at(3, 4), true, true, false, true);
    assert_eq!(session.box_creation.init_location, at(0, 0));
    assert_eq!(session.box_creation.curr_location, at(0, 0));
    session.pointer_tick(at(3, 4), true, true, false, false);
    session.pointer_tick(at(9, 9), true, false, false, true);
    assert_eq!(session.box_creation.curr_location, at(3, 4));
    session.pointer_tick(at(5, 6), false, false, true, false);
    assert_eq!(frame_category(&session, 0, 0), vec![rect(3, 4, 3, 4)]);
}

#[test]
fn click_without_drag_commits_zero_area_rectangle() {
    let mut session = EditorSession::new(2);
    session.create_atlas(1, 1);
    session.pointer_tick(at(25, 30), true, true, false, false);
    session.pointer_tick(at(25, 30), false, false, true, false);
    assert_eq!(frame_category(&session, 0, 0), vec![rect(25, 30, 25, 30)]);
}

#[test]
fn commit_targets_the_selected_frame_and_category() {
    let mut session = EditorSession::new(5);
    session.create_atlas(2, 3);
    session.select_frame(true).unwrap();
    session.select_frame(true).unwrap();
    session.select_category(true);
    session.pointer_tick(at(10, 10), true, true, false, false);
    session.pointer_tick(at(50, 50), true, false, false, false);
    session.pointer_tick(at(50, 50), false, false, true, false);
    assert_eq!(frame_category(&session, 2, 1), vec![rect(10, 10, 50, 50)]);
    assert_eq!(frame_category(&session, 0, 0), Vec::new());
}

#[test]
fn release_without_atlas_only_resets_the_draft() {
    let mut session = EditorSession::new(5);
    session.pointer_tick(at(8, 8), true, true, false, false);
    assert_eq!(session.box_creation.init_location, at(8, 8));
    session.pointer_tick(at(9, 9), false, false, true, false);
    assert_eq!(session.box_creation.init_location, at(0, 0));
    assert!(session.atlas.is_none());
}

#[test]
fn selection_resets_when_an_atlas_is_created() {
    let mut session = EditorSession::new(5);
    session.create_atlas(2, 2);
    session.select_frame(true).unwrap();
    session.select_category(true);
    assert_eq!(session.texture_atlas_state.index, 1);
    assert_eq!(session.color_index.0, 1);
    session.create_atlas(3, 3);
    assert_eq!(session.texture_atlas_state.index, 0);
    assert_eq!(session.color_index.0, 0);
    assert_eq!(session.atlas.as_ref().unwrap().frame_count(), 9);
}

#[test]
fn operations_without_atlas_report_no_active_atlas() {
    let mut session = EditorSession::new(5);
    assert_eq!(session.select_frame(true).err(), Some(HitboxError::NoActiveAtlas));
    assert_eq!(session.remove_hitbox(0, 0, 0).err(), Some(HitboxError::NoActiveAtlas));
    assert_eq!(session.save().err(), Some(HitboxError::NoActiveAtlas));
    let data = b"1\n5\n0\n0\n0\n0\n0\n".to_vec();
    assert_eq!(session.load(&data).err(), Some(HitboxError::NoActiveAtlas));
}

#[test]
fn session_remove_validates_frame_and_category_indices() {
    let mut session = EditorSession::new(2);
    session.create_atlas(1, 2);
    assert_eq!(session.remove_hitbox(2, 0, 0).err(), Some(HitboxError::IndexOutOfRange));
    assert_eq!(session.remove_hitbox(0, 2, 0).err(), Some(HitboxError::IndexOutOfRange));
    assert_eq!(session.remove_hitbox(0, 0, 0).err(), Some(HitboxError::RectangleIndexInvalid));
}

#[test]
fn session_remove_returns_the_rectangle_and_clears_hover() {
    let mut session = EditorSession::new(5);
    session.create_atlas(2, 3);
    session.pointer_tick(at(10, 10), true, true, false, false);
    session.pointer_tick(at(50, 50), true, false, false, false);
    session.pointer_tick(at(50, 50), false, false, true, false);
    session.set_hitbox_index(Some((0, 0)));
    assert_eq!(session.hovered_rect(), Some((rect(10, 10, 50, 50), 0)));
    let removed = session.remove_hitbox(0, 0, 0);
    assert_eq!(removed, Ok(rect(10, 10, 50, 50)));
    assert_eq!(session.hitbox_index.0, None);
    assert_eq!(frame_category(&session, 0, 0), Vec::new());
}

#[test]
fn hovered_rect_is_none_for_dangling_reference() {
    let mut session = EditorSession::new(5);
    session.create_atlas(1, 1);
    session.set_hitbox_index(Some((0, 0)));
    assert_eq!(session.hovered_rect(), None);
    session.set_hitbox_index(Some((9, 0)));
    assert_eq!(session.hovered_rect(), None);
}

#[test]
fn save_then_load_restores_the_session_atlas() {
    let mut session = EditorSession::new(5);
    session.create_atlas(2, 3);
    session.select_frame(true).unwrap();
    session.select_frame(true).unwrap();
    session.select_category(true);
    session.pointer_tick(at(10, 10), true, true, false, false);
    session.pointer_tick(at(50, 50), true, false, false, false);
    session.pointer_tick(at(50, 50), false, false, true, false);
    let bytes = session.save().unwrap();
    let mut other = EditorSession::new(5);
    other.create_atlas(2, 3);
    other.load(&bytes).unwrap();
    assert_eq!(frame_category(&other, 2, 1), vec![rect(10, 10, 50, 50)]);
    for c in [0usize, 2, 3, 4] {
        assert_eq!(frame_category(&other, 2, c), Vec::new());
    }
}

#[test]
fn load_rejects_mismatched_dimensions_and_keeps_the_atlas() {
    let mut session = EditorSession::new(5);
    session.create_atlas(2, 3);
    session.pointer_tick(at(1, 1), true, true, false, false);
    session.pointer_tick(at(2, 2), false, false, true, false);
    let bytes = session.save().unwrap();

    let mut wrong_grid = EditorSession::new(5);
    wrong_grid.create_atlas(1, 1);
    assert_eq!(wrong_grid.load(&bytes).err(), Some(HitboxError::DimensionMismatch));
    assert_eq!(wrong_grid.atlas.as_ref().unwrap().frame_count(), 1);

    let mut wrong_categories = EditorSession::new(3);
    wrong_categories.create_atlas(2, 3);
    assert_eq!(wrong_categories.load(&bytes).err(), Some(HitboxError::DimensionMismatch));
    assert_eq!(wrong_categories.atlas.as_ref().unwrap().category_count(), 3);
}

#[test]
fn failed_load_keeps_the_current_edits() {
    let mut session = EditorSession::new(5);
    session.create_atlas(1, 1);
    session.pointer_tick(at(10, 10), true, true, false, false);
    session.pointer_tick(at(20, 20), false, false, true, false);
    let garbage = b"broken\n".to_vec();
    assert_eq!(session.load(&garbage).err(), Some(HitboxError::FormatParseFailure));
    assert_eq!(frame_category(&session, 0, 0), vec![rect(10, 10, 10, 10)]);
}

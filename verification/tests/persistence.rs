use hitboxer::codec::{load_hitboxes, save_hitboxes};
use hitboxer::errors::HitboxError;
use hitboxer::hitboxes::HitboxAtlas;
use hitboxer::rect::Rect;

fn rect(min_x: i64, min_y: i64, max_x: i64, max_y: i64) -> Rect {
    Rect { min_x, min_y, max_x, max_y }
}

#[test]
fn saved_text_is_one_decimal_per_line() {
    let mut atlas = HitboxAtlas::create(1, 1, 1);
    atlas.add_hitbox(rect(1, 2, 3, 4), 0, 0);
    let bytes = save_hitboxes(&atlas);
    assert_eq!(bytes, b"1\n1\n1\n1\n2\n3\n4\n".to_vec());
}

#[test]
fn saved_text_writes_negative_coordinates_with_sign() {
    let mut atlas = HitboxAtlas::create(1, 1, 1);
    atlas.add_hitbox(rect(-12, -7, 0, 34), 0, 0);
    let bytes = save_hitboxes(&atlas);
    assert_eq!(bytes, b"1\n1\n1\n-12\n-7\n0\n34\n".to_vec());
}

#[test]
fn round_trip_preserves_counts_order_and_coordinates() {
    let mut atlas = HitboxAtlas::create(2, 3, 5);
    atlas.add_hitbox(rect(10, 10, 50, 50), 2, 1);
    atlas.add_hitbox(rect(-5, 0, 5, 9), 2, 1);
    atlas.add_hitbox(rect(0, 0, 0, 0), 0, 4);
    atlas.add_hitbox(rect(i64::MIN, i64::MIN, i64::MAX, i64::MAX), 5, 0);
    let bytes = save_hitboxes(&atlas);
    let loaded = load_hitboxes(&bytes).unwrap();
    assert_eq!(loaded.frame_count(), 6);
    assert_eq!(loaded.category_count(), 5);
    for f in 0..6 {
        for c in 0..5 {
            let want = atlas.get_frame(f).hitbox_count(c);
            assert_eq!(loaded.get_frame(f).hitbox_count(c), want);
            for h in 0..want {
                assert_eq!(loaded.get_frame(f).get_hitbox(c, h), atlas.get_frame(f).get_hitbox(c, h));
            }
        }
    }
    assert_eq!(loaded.get_frame(2).hitbox_count(1), 2);
    assert_eq!(loaded.get_frame(2).get_hitbox(1, 0), rect(10, 10, 50, 50));
    assert_eq!(loaded.get_frame(2).get_hitbox(1, 1), rect(-5, 0, 5, 9));
}

#[test]
fn empty_input_is_rejected() {
    let data: Vec<u8> = Vec::new();
    assert_eq!(load_hitboxes(&data).err(), Some(HitboxError::FormatParseFailure));
}

#[test]
fn garbage_input_is_rejected() {
    let data = b"not numbers at all".to_vec();
    assert_eq!(load_hitboxes(&data).err(), Some(HitboxError::FormatParseFailure));
}

#[test]
fn truncated_input_is_rejected() {
    let data = b"1\n1\n1\n1\n2\n3\n".to_vec();
    assert_eq!(load_hitboxes(&data).err(), Some(HitboxError::FormatParseFailure));
}

#[test]
fn trailing_numbers_are_rejected() {
    let data = b"1\n1\n1\n1\n2\n3\n4\n9\n".to_vec();
    assert_eq!(load_hitboxes(&data).err(), Some(HitboxError::FormatParseFailure));
}

#[test]
fn missing_final_separator_is_rejected() {
    let data = b"1\n1\n1\n1\n2\n3\n4".to_vec();
    assert_eq!(load_hitboxes(&data).err(), Some(HitboxError::FormatParseFailure));
}

#[test]
fn non_normalized_rectangle_is_rejected() {
    let data = b"1\n1\n1\n5\n0\n4\n9\n".to_vec();
    assert_eq!(load_hitboxes(&data).err(), Some(HitboxError::FormatParseFailure));
}

#[test]
fn negative_rectangle_count_is_rejected() {
    let data = b"1\n1\n-1\n".to_vec();
    assert_eq!(load_hitboxes(&data).err(), Some(HitboxError::FormatParseFailure));
}

#[test]
fn zero_frame_or_category_count_is_rejected() {
    assert_eq!(load_hitboxes(&b"0\n1\n".to_vec()).err(), Some(HitboxError::FormatParseFailure));
    assert_eq!(load_hitboxes(&b"1\n0\n".to_vec()).err(), Some(HitboxError::FormatParseFailure));
}

#[test]
fn oversized_coordinate_is_rejected() {
    let data = b"1\n1\n1\n9223372036854775808\n2\n3\n4\n".to_vec();
    assert_eq!(load_hitboxes(&data).err(), Some(HitboxError::FormatParseFailure));
}

#[test]
fn overlong_digit_run_is_rejected() {
    let data = b"1\n1\n1\n000000000000000000001\n2\n3\n4\n".to_vec();
    assert_eq!(load_hitboxes(&data).err(), Some(HitboxError::FormatParseFailure));
}

#[test]
fn extreme_coordinates_survive_the_trip() {
    let mut atlas = HitboxAtlas::create(1, 1, 1);
    atlas.add_hitbox(rect(i64::MIN, 0, i64::MAX, 0), 0, 0);
    let bytes = save_hitboxes(&atlas);
    let loaded = load_hitboxes(&bytes).unwrap();
    assert_eq!(loaded.get_frame(0).get_hitbox(0, 0), rect(i64::MIN, 0, i64::MAX, 0));
}

#[test]
fn empty_atlas_survives_the_trip() {
    let atlas = HitboxAtlas::create(3, 2, 4);
    let bytes = save_hitboxes(&atlas);
    let loaded = load_hitboxes(&bytes).unwrap();
    assert_eq!(loaded.frame_count(), 6);
    assert_eq!(loaded.category_count(), 4);
    for f in 0..6 {
        for c in 0..4 {
            assert_eq!(loaded.get_frame(f).hitbox_count(c), 0);
        }
    }
}

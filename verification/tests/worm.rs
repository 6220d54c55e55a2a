use worm_game::entity::{MoveDirection, Worm, ERASE_GLYPH, WORM_GLYPH};

fn straight_worm() -> Worm {
    Worm::new(5, 5, 4)
}

#[test]
fn new_builds_straight_chain() {
    let w = straight_worm();
    assert_eq!(w.segments, vec![(5, 5), (4, 5), (3, 5), (2, 5)]);
    assert!(matches!(w.current_direction, MoveDirection::Right));
    assert!(w.old_tail.is_none());
}

#[test]
fn accessors_report_head_tail_length() {
    let mut w = straight_worm();
    assert_eq!(w.length(), 4);
    assert_eq!(w.head(), (5, 5));
    assert_eq!(w.tail(), (2, 5));
}

#[test]
fn move_forward_is_length_preserving() {
    let mut w = straight_worm();
    w.move_forward();
    assert_eq!(w.segments.len(), 4);
    assert_eq!(w.segments, vec![(6, 5), (5, 5), (4, 5), (3, 5)]);
    assert_eq!(w.old_tail, Some((2, 5)));
}

#[test]
fn grow_appends_one_behind_tail() {
    let mut w = straight_worm();
    w.grow();
    assert_eq!(w.segments.len(), 5);
    assert_eq!(*w.segments.last().unwrap(), (1, 5));
}

#[test]
fn grow_follows_vertical_trailing_axis() {
    let mut w = Worm::new(5, 5, 1);
    w.try_set_direction(MoveDirection::Down);
    w.move_forward();
    w.grow();
    // chain ran downward, so the new segment extends upward behind the tail
    assert_eq!(w.segments, vec![(5, 6), (5, 5)]);
    w.move_forward();
    w.grow();
    assert_eq!(w.segments, vec![(5, 7), (5, 6), (5, 5)]);
}

#[test]
fn grow_single_segment_extends_against_direction() {
    let mut w = Worm::new(5, 5, 1);
    w.grow();
    assert_eq!(w.segments, vec![(5, 5), (4, 5)]);
}

#[test]
fn grow_takes_effect_on_subsequent_move() {
    let mut w = straight_worm();
    w.grow();
    w.move_forward();
    // the placeholder is shifted away but the count stays one larger:
    // the tail stood still for one move
    assert_eq!(w.segments, vec![(6, 5), (5, 5), (4, 5), (3, 5), (2, 5)]);
    assert_eq!(w.segments.len(), 5);
}

#[test]
fn reversal_is_rejected() {
    let mut w = straight_worm();
    w.try_set_direction(MoveDirection::Left);
    assert!(matches!(w.current_direction, MoveDirection::Right));
    w.try_set_direction(MoveDirection::Up);
    assert!(matches!(w.current_direction, MoveDirection::Up));
    w.try_set_direction(MoveDirection::Down);
    assert!(matches!(w.current_direction, MoveDirection::Up));
    w.try_set_direction(MoveDirection::Right);
    assert!(matches!(w.current_direction, MoveDirection::Right));
}

#[test]
fn perpendicular_turns_always_succeed() {
    let mut w = straight_worm();
    w.try_set_direction(MoveDirection::Down);
    assert!(matches!(w.current_direction, MoveDirection::Down));
    w.try_set_direction(MoveDirection::Left);
    assert!(matches!(w.current_direction, MoveDirection::Left));
    w.try_set_direction(MoveDirection::Up);
    assert!(matches!(w.current_direction, MoveDirection::Up));
}

#[test]
fn render_writes_cover_segments_and_erase_old_tail() {
    let mut w = Worm::new(5, 5, 2);
    w.move_forward();
    let writes = w.render_writes();
    assert_eq!(writes.len(), 3);
    assert_eq!(writes[0], ((6, 5), WORM_GLYPH));
    assert_eq!(writes[1], ((5, 5), WORM_GLYPH));
    assert_eq!(writes[2], ((4, 5), ERASE_GLYPH));
}

#[test]
fn render_writes_without_old_tail_draws_segments_only() {
    let w = straight_worm();
    let writes = w.render_writes();
    assert_eq!(writes.len(), 4);
    for (i, seg) in w.segments.iter().enumerate() {
        assert_eq!(writes[i], (*seg, WORM_GLYPH));
    }
}

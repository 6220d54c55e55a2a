use worm_game::entity::{Board, BorderTypes, Fruit, FRUIT_GLYPH};
use worm_game::gameboard::GameBoard;

#[test]
fn border_defaults_are_box_drawing() {
    let bt = BorderTypes::default();
    assert_eq!(bt.horizontal, '─');
    assert_eq!(bt.vertical, '│');
    assert_eq!(bt.top_left, '╭');
    assert_eq!(bt.top_right, '╮');
    assert_eq!(bt.bottom_left, '╰');
    assert_eq!(bt.bottom_right, '╯');
}

#[test]
fn board_border_writes_frame_the_interior() {
    let b = Board { border_types: BorderTypes::default(), width: 2, height: 2 };
    let writes = b.render_writes();
    // two full rows of four, plus two edge cells per interior row
    assert_eq!(writes.len(), 12);
    assert_eq!(writes[0], ((1, 1), '╭'));
    assert_eq!(writes[1], ((2, 1), '─'));
    assert_eq!(writes[3], ((4, 1), '╮'));
    assert_eq!(writes[4], ((1, 2), '│'));
    assert_eq!(writes[5], ((4, 2), '│'));
    assert_eq!(writes[6], ((1, 3), '│'));
    assert_eq!(writes[7], ((4, 3), '│'));
    assert_eq!(writes[8], ((1, 4), '╰'));
    assert_eq!(writes[10], ((3, 4), '─'));
    assert_eq!(writes[11], ((4, 4), '╯'));
}

#[test]
fn gameboard_rows_draw_border_and_blank_interior() {
    let gb = GameBoard::default();
    let rows = gb.render_rows(2, 2);
    assert_eq!(rows.len(), 4);
    let strings: Vec<String> = rows.iter().map(|r| r.iter().collect()).collect();
    assert_eq!(strings[0], "╭──╮");
    assert_eq!(strings[1], "│  │");
    assert_eq!(strings[2], "│  │");
    assert_eq!(strings[3], "╰──╯");
}

#[test]
fn fruit_starts_at_placeholder_and_renders_its_cell() {
    let mut f = Fruit::new();
    assert_eq!(f.pos, (0, 0));
    f.pos = (7, 3);
    assert_eq!(f.render_write(), ((7, 3), FRUIT_GLYPH));
}

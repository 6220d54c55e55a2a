use worm_game::entity::{Board, BorderTypes, Fruit, MoveDirection, Worm};
use worm_game::game::{
    frame_budget_millis, frame_sleep_millis, select_latest, Game, GameStatus, RenderStats,
};
use worm_game::GameSettings;

fn settings(fruit_count: u64, worm_length: u16) -> GameSettings {
    GameSettings { fruit_count, worm_length, stats: false }
}

fn game(
    width: u16,
    height: u16,
    segments: Vec<(u16, u16)>,
    direction: MoveDirection,
    fruits: Vec<(u16, u16)>,
    cfg: GameSettings,
) -> Game {
    Game {
        fps: 30,
        width,
        height,
        board: Board { border_types: BorderTypes::default(), width, height },
        worm: Worm { segments, old_tail: None, current_direction: direction },
        fruits: fruits.into_iter().map(|pos| Fruit { pos }).collect(),
        status: GameStatus::Playing,
        settings: cfg,
        render_stats: RenderStats::new(),
    }
}

fn occupied(g: &Game) -> Vec<(u16, u16)> {
    let mut occ: Vec<(u16, u16)> = g.fruits.iter().map(|f| f.pos).collect();
    occ.extend(g.worm.segments.iter().cloned());
    occ
}

#[test]
fn scenario_consumption_grows_and_relocates() {
    // 10 by 10 interior, worm of 4 at (5,5) moving right, fruit on the
    // next head cell
    let mut g = game(
        10,
        10,
        vec![(5, 5), (4, 5), (3, 5), (2, 5)],
        MoveDirection::Right,
        vec![(6, 5)],
        settings(1, 4),
    );
    g.update_game_state();
    assert_eq!(g.status, GameStatus::Playing);
    assert_eq!(g.worm.segments.len(), 5);
    assert_eq!(g.fruits.len(), 1);
    let p = g.fruits[0].pos;
    assert_ne!(p, (6, 5));
    assert!(2 <= p.0 && p.0 <= 11 && 2 <= p.1 && p.1 <= 11);
    assert!(!g.worm.segments.contains(&p));
}

#[test]
fn scenario_consumption_keeps_segments_distinct() {
    let mut g = game(
        10,
        10,
        vec![(5, 5), (4, 5), (3, 5), (2, 5)],
        MoveDirection::Right,
        vec![(6, 5)],
        settings(1, 4),
    );
    g.update_game_state();
    let s = &g.worm.segments;
    for i in 0..s.len() {
        for j in (i + 1)..s.len() {
            assert_ne!(s[i], s[j]);
        }
    }
}

#[test]
fn scenario_wall_collision_loses() {
    // head on the last legal interior column, still moving right
    let mut g = game(
        10,
        10,
        vec![(11, 5), (10, 5), (9, 5), (8, 5)],
        MoveDirection::Right,
        vec![],
        settings(0, 4),
    );
    g.update_game_state();
    assert_eq!(g.status, GameStatus::Lost);
    assert_eq!(g.worm.segments[0], (12, 5));
}

#[test]
fn scenario_self_collision_loses() {
    // a hook: moving up into its own chain
    let mut g = game(
        10,
        10,
        vec![(4, 6), (4, 7), (5, 7), (5, 6), (5, 5), (4, 5), (3, 5)],
        MoveDirection::Up,
        vec![],
        settings(0, 4),
    );
    g.update_game_state();
    assert_eq!(g.status, GameStatus::Lost);
}

#[test]
fn scenario_plain_move_stays_playing() {
    let mut g = game(
        10,
        10,
        vec![(5, 5), (4, 5), (3, 5), (2, 5)],
        MoveDirection::Right,
        vec![(9, 9)],
        settings(1, 4),
    );
    g.update_game_state();
    assert_eq!(g.status, GameStatus::Playing);
    assert_eq!(g.worm.segments, vec![(6, 5), (5, 5), (4, 5), (3, 5)]);
    assert_eq!(g.worm.old_tail, Some((2, 5)));
    assert_eq!(g.fruits[0].pos, (9, 9));
}

#[test]
fn scenario_board_full_wins() {
    // 3 by 2 interior; worm of 3 plus 3 fruit cover it exactly, and the
    // player eats until no fruit can be replaced
    let mut g = game(
        3,
        2,
        vec![(3, 3), (2, 3), (2, 2)],
        MoveDirection::Right,
        vec![(4, 3), (3, 2), (4, 2)],
        settings(3, 3),
    );
    g.update_game_state();
    assert_eq!(g.status, GameStatus::Playing);
    assert_eq!(g.worm.segments.len(), 4);
    // the single free cell is (2,2)'s vacated neighbour: deterministic
    assert_eq!(g.fruits[0].pos, (2, 2));
    // turn up and eat again: afterwards every interior cell is covered
    g.handle_input(Some('w'));
    g.update_game_state();
    assert_eq!(g.status, GameStatus::Won);
    assert_eq!(g.fruits.len(), 3);
}

#[test]
fn last_key_wins_within_one_drain() {
    let mut g = Game::new(settings(0, 4), 20, 20);
    assert_eq!(g.status, GameStatus::Playing);
    g.handle_input(Some('s'));
    assert!(matches!(g.worm.current_direction, MoveDirection::Down));
    // rapid sequence within a single drain: up, down, left
    let keys = vec!['w', 's', 'a'];
    let latest = select_latest(&keys);
    assert_eq!(latest, Some('a'));
    g.handle_input(latest);
    // only the final left turn applies; the up key was superseded and a
    // reversal would have been rejected anyway
    assert!(matches!(g.worm.current_direction, MoveDirection::Left));
}

#[test]
fn select_latest_of_empty_drain_is_none() {
    let keys: Vec<char> = vec![];
    assert_eq!(select_latest(&keys), None);
}

#[test]
fn placement_returns_free_interior_cell() {
    let g = game(
        4,
        4,
        vec![(2, 2), (3, 2), (4, 2)],
        MoveDirection::Right,
        vec![(5, 5), (2, 3)],
        settings(2, 3),
    );
    let p = g.get_random_unoccupied_pos().expect("free cells exist");
    assert!(2 <= p.0 && p.0 <= 5 && 2 <= p.1 && p.1 <= 5);
    assert!(!occupied(&g).contains(&p));
}

#[test]
fn placement_with_one_free_cell_finds_it() {
    // every interior cell but (4,3) is covered
    let g = game(
        3,
        2,
        vec![(2, 2), (3, 2), (4, 2), (2, 3), (3, 3)],
        MoveDirection::Right,
        vec![],
        settings(0, 3),
    );
    assert_eq!(g.get_random_unoccupied_pos(), Ok((4, 3)));
}

#[test]
fn placement_on_full_board_reports_it() {
    let g = game(
        2,
        2,
        vec![(2, 2), (3, 2), (3, 3), (2, 3)],
        MoveDirection::Right,
        vec![],
        settings(0, 2),
    );
    assert!(g.get_random_unoccupied_pos().is_err());
}

#[test]
fn regeneration_fills_distinct_free_cells() {
    let mut g = game(
        4,
        4,
        vec![(2, 2), (3, 2), (4, 2)],
        MoveDirection::Right,
        vec![],
        settings(5, 3),
    );
    g.regenerate_fruits().expect("room for five fruit");
    assert_eq!(g.fruits.len(), 5);
    for i in 0..g.fruits.len() {
        let p = g.fruits[i].pos;
        assert!(2 <= p.0 && p.0 <= 5 && 2 <= p.1 && p.1 <= 5);
        assert!(!g.worm.segments.contains(&p));
        for j in (i + 1)..g.fruits.len() {
            assert_ne!(p, g.fruits[j].pos);
        }
    }
}

#[test]
fn regeneration_with_as_many_fruit_as_free_cells_fills_them_all() {
    // 3 by 2 interior, two cells taken by the worm: the four fruit must
    // land on exactly the four remaining cells
    let mut g = game(
        3,
        2,
        vec![(2, 2), (3, 2)],
        MoveDirection::Right,
        vec![],
        settings(4, 2),
    );
    g.regenerate_fruits().expect("exactly enough room");
    let mut got: Vec<(u16, u16)> = g.fruits.iter().map(|f| f.pos).collect();
    got.sort();
    assert_eq!(got, vec![(2, 3), (3, 3), (4, 2), (4, 3)]);
}

#[test]
fn regeneration_without_room_reports_board_full() {
    let mut g = game(
        3,
        2,
        vec![(2, 2), (3, 2)],
        MoveDirection::Right,
        vec![],
        settings(5, 2),
    );
    assert!(g.regenerate_fruits().is_err());
    assert!(g.fruits.is_empty());
}

#[test]
fn impossible_configuration_refuses_to_start() {
    let g = Game::new(settings(1000, 4), 10, 10);
    assert_eq!(g.status, GameStatus::Exiting);
    let g2 = Game::new(settings(5, 4), 10, 10);
    assert_eq!(g2.status, GameStatus::Playing);
}

#[test]
fn restart_rebuilds_worm_and_fruit_field() {
    let mut g = Game::new(settings(5, 4), 20, 20);
    g.status = GameStatus::Lost;
    g.handle_input(Some('r'));
    assert_eq!(g.status, GameStatus::Playing);
    assert_eq!(g.worm.segments, vec![(5, 11), (4, 11), (3, 11), (2, 11)]);
    assert_eq!(g.fruits.len(), 5);
    for f in &g.fruits {
        assert!(!g.worm.segments.contains(&f.pos));
    }
}

#[test]
fn quit_key_honours_stats_setting() {
    let mut g = Game::new(settings(0, 4), 20, 20);
    g.handle_input(Some('q'));
    assert_eq!(g.status, GameStatus::Exiting);

    let mut with_stats = Game::new(
        GameSettings { fruit_count: 0, worm_length: 4, stats: true },
        20,
        20,
    );
    with_stats.handle_input(Some('q'));
    assert_eq!(with_stats.status, GameStatus::ShowingStats);
    with_stats.handle_input(Some('x'));
    assert_eq!(with_stats.status, GameStatus::ShowingStats);
    with_stats.handle_input(Some('q'));
    assert_eq!(with_stats.status, GameStatus::Exiting);
}

#[test]
fn other_keys_change_nothing() {
    let mut g = Game::new(settings(0, 4), 20, 20);
    g.handle_input(Some('z'));
    g.handle_input(None);
    assert_eq!(g.status, GameStatus::Playing);
    assert!(matches!(g.worm.current_direction, MoveDirection::Right));
}

#[test]
fn frame_sleep_clamps_to_zero_on_overrun() {
    assert_eq!(frame_sleep_millis(33, 50), 0);
    assert_eq!(frame_sleep_millis(33, 33), 0);
    assert_eq!(frame_sleep_millis(33, 10), 23);
    assert_eq!(frame_budget_millis(30), 33);
}

#[test]
fn render_stats_average() {
    let mut rs = RenderStats::new();
    assert_eq!(rs.frame_count, 0);
    rs.record_frame(100);
    rs.record_frame(200);
    assert_eq!(rs.frame_count, 2);
    assert_eq!(rs.avg_frame_time(), 150);
}

#[test]
fn finished_overlay_is_centered() {
    let mut g = Game::new(settings(0, 4), 30, 10);
    g.status = GameStatus::Won;
    let writes = g.finished_writes();
    assert_eq!(writes.len(), 3);
    assert_eq!(writes[0], ((10, 5), "You Won!!"));
    assert_eq!(writes[1], ((10, 8), "press q to quit"));
    assert_eq!(writes[2], ((10, 10), "press r to retry"));
    g.status = GameStatus::Lost;
    let writes = g.finished_writes();
    assert_eq!(writes[0], ((9, 5), "You Died..."));
}

use tetris::game::{Game, Move, HEIGHT, WIDTH};
use tetris::shapes::{Dir, Shape, ShapeTrait, ShapeType};

#[test]
fn test_is_valid() {
    let mut game = Game::new();
    let mut shape = Shape::new(3, 0, ShapeType::I);
    let coords = shape.to_coords(shape.dir);
    assert!(game.valid_move(&coords, &coords));
    game.set_cell(3, 1, 1);
    assert!(game.valid_move(&coords, &coords));
    game.set_cell(3, 1, 1);
    shape.y += 1;
    let new_coords = shape.to_coords(shape.dir);
    assert!(!game.valid_move(&coords, &new_coords));
}

#[test]
fn test_move_shape_pos() {
    let mut game = Game::new();
    game.spawn(ShapeType::I, 3, 0);
    game.move_shape(Move::Down);
    assert_eq!(game.active_shape.unwrap().y, 1);
    game.move_shape(Move::Left);
    assert_eq!(game.active_shape.unwrap().x, 2);
    game.move_shape(Move::Right);
    assert_eq!(game.active_shape.unwrap().x, 3);
    game.move_shape(Move::Rotate);
    assert_eq!(game.active_shape.unwrap().dir, Dir::Down);
}

#[test]
fn test_move_shape_coords() {
    let mut game = Game::new();
    game.spawn(ShapeType::I, 3, 0);
    let coords = game
        .active_shape
        .unwrap()
        .to_coords(game.active_shape.unwrap().dir);
    assert_eq!(coords, vec![(3, 0), (2, 0), (4, 0), (5, 0)]);
    game.move_shape(Move::Down);
    let coords = game
        .active_shape
        .unwrap()
        .to_coords(game.active_shape.unwrap().dir);
    assert_eq!(coords, vec![(3, 1), (2, 1), (4, 1), (5, 1)]);
    game.move_shape(Move::Left);
    let coords = game
        .active_shape
        .unwrap()
        .to_coords(game.active_shape.unwrap().dir);
    assert_eq!(coords, vec![(2, 1), (1, 1), (3, 1), (4, 1)]);
    game.move_shape(Move::Right);
    let coords = game
        .active_shape
        .unwrap()
        .to_coords(game.active_shape.unwrap().dir);
    assert_eq!(coords, vec![(3, 1), (2, 1), (4, 1), (5, 1)]);
}

#[test]
fn test_move_shape_rotation() {
    let mut game = Game::new();
    game.spawn(ShapeType::I, 3, 0);
    let coords = game
        .active_shape
        .unwrap()
        .to_coords(game.active_shape.unwrap().dir);
    assert_eq!(coords, vec![(3, 0), (2, 0), (4, 0), (5, 0)]);
    game.move_shape(Move::Rotate);
    let coords = game
        .active_shape
        .unwrap()
        .to_coords(game.active_shape.unwrap().dir);
    assert_eq!(coords, vec![(3, 0), (3, -3), (3, -2), (3, -1)]);
    game.move_shape(Move::Rotate);
    let coords = game
        .active_shape
        .unwrap()
        .to_coords(game.active_shape.unwrap().dir);
    assert_eq!(coords, vec![(3, 0), (2, 0), (4, 0), (5, 0)]);
    game.move_shape(Move::Rotate);
    let coords = game
        .active_shape
        .unwrap()
        .to_coords(game.active_shape.unwrap().dir);
    assert_eq!(coords, vec![(3, 0), (3, -3), (3, -2), (3, -1)]);
}

#[test]
fn test_move_rejected_keeps_state() {
    let mut game = Game::new();
    game.spawn(ShapeType::I, 3, 0);
    game.move_shape(Move::Left);
    game.move_shape(Move::Left);
    assert_eq!(game.active_shape.unwrap().x, 1);
    game.move_shape(Move::Left);
    assert_eq!(game.active_shape.unwrap().x, 1);

    let mut blocked = Game::new();
    blocked.set_cell(3, 1, 5);
    blocked.spawn(ShapeType::I, 3, 0);
    blocked.move_shape(Move::Down);
    assert_eq!(blocked.active_shape.unwrap().y, 0);
    assert_eq!(blocked.board_ref()[WIDTH + 3], 5);
}

#[test]
fn test_valid_move_bounds() {
    let mut game = Game::new();
    let empty: Vec<(i64, i64)> = Vec::new();
    assert!(game.valid_move(&empty, &empty));
    assert!(!game.valid_move(&empty, &vec![(-1, 0)]));
    assert!(!game.valid_move(&empty, &vec![(WIDTH as i64, 0)]));
    assert!(!game.valid_move(&empty, &vec![(0, HEIGHT as i64)]));
    assert!(game.valid_move(&empty, &vec![(0, -5)]));
}

#[test]
fn test_clear_single_row() {
    let mut game = Game::new();
    for x in 0..WIDTH {
        game.set_cell(x, 5, 1);
    }
    game.set_cell(0, 4, 3);
    game.set_cell(2, 10, 5);
    let cleared = game.clear_completed();
    assert_eq!(cleared, 1);
    assert_eq!(game.score, 800);
    assert_eq!(game.board_ref()[5 * WIDTH], 3);
    for x in 1..WIDTH {
        assert_eq!(game.board_ref()[5 * WIDTH + x], 0);
    }
    for x in 0..WIDTH {
        assert_eq!(game.board_ref()[4 * WIDTH + x], 0);
    }
    assert_eq!(game.board_ref()[10 * WIDTH + 2], 5);
}

#[test]
fn test_scoring_two_rows() {
    let mut game = Game::new();
    for x in 0..WIDTH {
        game.set_cell(x, 18, 2);
        game.set_cell(x, 19, 3);
    }
    let cleared = game.clear_completed();
    assert_eq!(cleared, 2);
    assert_eq!(game.score, 1200);
    for x in 0..WIDTH {
        assert_eq!(game.board_ref()[18 * WIDTH + x], 0);
        assert_eq!(game.board_ref()[19 * WIDTH + x], 0);
    }
}

#[test]
fn test_scoring_zero_rows() {
    let mut game = Game::new();
    game.set_cell(0, 19, 1);
    let cleared = game.clear_completed();
    assert_eq!(cleared, 0);
    assert_eq!(game.score, 0);
    assert_eq!(game.board_ref()[19 * WIDTH], 1);
}

#[test]
fn test_scoring_table() {
    let mut three = Game::new();
    for x in 0..WIDTH {
        three.set_cell(x, 17, 1);
        three.set_cell(x, 18, 1);
        three.set_cell(x, 19, 1);
    }
    three.clear_completed();
    assert_eq!(three.score, 1800);

    let mut four = Game::new();
    for x in 0..WIDTH {
        four.set_cell(x, 16, 1);
        four.set_cell(x, 17, 1);
        four.set_cell(x, 18, 1);
        four.set_cell(x, 19, 1);
    }
    four.clear_completed();
    assert_eq!(four.score, 2000);

    let mut five = Game::new();
    for x in 0..WIDTH {
        for y in 15..HEIGHT {
            five.set_cell(x, y, 1);
        }
    }
    five.clear_completed();
    assert_eq!(five.score, 3200);
}

#[test]
fn test_game_over_on_blocked_spawn() {
    let mut game = Game::new();
    game.set_cell(3, 0, 2);
    game.update(0);
    assert!(game.game_over);
    assert!(game.active_shape.is_none());
    assert_eq!(game.score, 0);
    game.update(1000);
    assert!(game.game_over);
    assert_eq!(game.board_ref()[3], 2);
}

#[test]
fn test_update_spawns_queued_kind() {
    let mut game = Game::new();
    game.update(0);
    let shape = game.active_shape.unwrap();
    assert_eq!(shape.shape_type, ShapeType::Z);
    assert_eq!(shape.x, (WIDTH / 2) as i32);
    assert_eq!(shape.y, -1);
    assert_eq!(game.board_ref()[WIDTH / 2], 7);
    assert_eq!(game.board_ref()[WIDTH / 2 + 1], 7);
}

#[test]
fn test_update_gravity_threshold() {
    let mut game = Game::new();
    game.spawn(ShapeType::I, 3, 0);
    game.update(100);
    assert_eq!(game.active_shape.unwrap().y, 0);
    game.update(800);
    assert_eq!(game.active_shape.unwrap().y, 1);
    assert_eq!(game.board_ref()[WIDTH + 3], 1);
    game.update(100);
    assert_eq!(game.active_shape.unwrap().y, 1);
}

#[test]
fn test_update_accumulates_timer() {
    let mut game = Game::new();
    game.spawn(ShapeType::I, 3, 0);
    game.update(400);
    assert_eq!(game.active_shape.unwrap().y, 0);
    game.update(400);
    assert_eq!(game.active_shape.unwrap().y, 1);
}

#[test]
fn test_update_locks_blocked_piece() {
    let mut game = Game::new();
    game.spawn(ShapeType::O, 5, 18);
    game.update(800);
    assert!(game.active_shape.is_none());
    assert_eq!(game.board_ref()[18 * WIDTH + 5], 4);
    assert_eq!(game.board_ref()[18 * WIDTH + 6], 4);
    assert_eq!(game.board_ref()[19 * WIDTH + 5], 4);
    assert_eq!(game.board_ref()[19 * WIDTH + 6], 4);
    assert_eq!(game.score, 0);
    game.update(0);
    let shape = game.active_shape.unwrap();
    assert_eq!(shape.shape_type, ShapeType::Z);
}

#[test]
fn test_pause_freezes_ticks() {
    let mut game = Game::new();
    game.spawn(ShapeType::I, 3, 0);
    game.paused = true;
    game.update(2000);
    assert_eq!(game.active_shape.unwrap().y, 0);
    game.paused = false;
    game.update(2000);
    assert_eq!(game.active_shape.unwrap().y, 1);
}

#[test]
fn test_drop_shape_locks_at_bottom() {
    let mut game = Game::new();
    game.spawn(ShapeType::O, 5, 0);
    game.drop_shape();
    assert!(game.active_shape.is_none());
    assert_eq!(game.board_ref()[18 * WIDTH + 5], 4);
    assert_eq!(game.board_ref()[18 * WIDTH + 6], 4);
    assert_eq!(game.board_ref()[19 * WIDTH + 5], 4);
    assert_eq!(game.board_ref()[19 * WIDTH + 6], 4);
    assert_eq!(game.score, 0);
}

#[test]
fn test_drop_shape_rests_on_stack() {
    let mut game = Game::new();
    for x in 0..WIDTH {
        game.set_cell(x, 19, 9);
    }
    game.set_cell(5, 19, 0);
    game.set_cell(6, 19, 0);
    game.spawn(ShapeType::O, 5, 0);
    game.drop_shape();
    assert!(game.active_shape.is_none());
    assert_eq!(game.score, 800);
    for x in 0..WIDTH {
        assert_eq!(game.board_ref()[19 * WIDTH + x], if x == 5 || x == 6 { 4 } else { 0 });
    }
}

#[test]
fn test_shape_to_board_merges() {
    let mut game = Game::new();
    game.spawn(ShapeType::T, 5, 5);
    game.shape_to_board();
    assert!(game.active_shape.is_none());
    assert_eq!(game.board_ref()[4 * WIDTH + 5], 6);
    assert_eq!(game.board_ref()[5 * WIDTH + 4], 6);
    assert_eq!(game.board_ref()[5 * WIDTH + 5], 6);
    assert_eq!(game.board_ref()[5 * WIDTH + 6], 6);
}

#[test]
fn test_clear_coords_erases() {
    let mut game = Game::new();
    game.set_cell(2, 3, 7);
    game.set_cell(4, 3, 7);
    game.clear_coords(&vec![(2, 3), (4, 3), (-1, 3), (2, 25)]);
    assert_eq!(game.board_ref()[3 * WIDTH + 2], 0);
    assert_eq!(game.board_ref()[3 * WIDTH + 4], 0);
}

#[test]
fn test_preview_board_updates_on_kind_change() {
    let mut game = Game::new();
    game.update_preview_board();
    let pv = game.preview_board_ref().clone();
    for p in 0..16 {
        let expected = if p == 4 || p == 5 || p == 9 || p == 10 { 7 } else { 0 };
        assert_eq!(pv[p], expected);
    }
    game.update(0);
    let pv = game.preview_board_ref().clone();
    for p in 0..16 {
        let expected = if p >= 12 { 1 } else { 0 };
        assert_eq!(pv[p], expected);
    }
}

#[test]
fn test_rotation_cycle_in_game() {
    let kinds = vec![
        ShapeType::I,
        ShapeType::J,
        ShapeType::L,
        ShapeType::O,
        ShapeType::S,
        ShapeType::T,
        ShapeType::Z,
    ];
    for kind in kinds {
        let mut game = Game::new();
        game.spawn(kind, 5, 5);
        let start = game
            .active_shape
            .unwrap()
            .to_coords(game.active_shape.unwrap().dir);
        for _ in 0..4 {
            game.move_shape(Move::Rotate);
        }
        let end = game
            .active_shape
            .unwrap()
            .to_coords(game.active_shape.unwrap().dir);
        assert_eq!(start, end);
        assert_eq!(game.active_shape.unwrap().dir, Dir::Right);
    }
}

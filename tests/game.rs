use std::collections::VecDeque;

use tetris_core::block::{I, J, NONE, O, WALL};
use tetris_core::game::{
    gravity_step, lock_piece,
    drop_stops, erase_line, fits_in_field, fix_mino, ghost_pos, hard_drop, hold, initial_field,
    is_collision, landing, line_score, lock_clear_count, move_mino, rotate_left, rotate_right,
    row_is_full, spawn_mino, super_rotation, FieldSize, Game, Position, FIELD_HEIGHT, FIELD_WIDTH,
};
use tetris_core::mino::{gen_mino_7, MinoKind, MinoShape};

const ALL_KINDS: [MinoKind; 7] = [
    MinoKind::I,
    MinoKind::O,
    MinoKind::S,
    MinoKind::Z,
    MinoKind::J,
    MinoKind::L,
    MinoKind::T,
];

const VERTICAL_I: MinoShape = [[0, I, 0, 0], [0, I, 0, 0], [0, I, 0, 0], [0, I, 0, 0]];

fn test_game(field: FieldSize, mino: MinoShape) -> Game {
    Game {
        field,
        pos: Position::init(),
        mino,
        hold: None,
        holded: false,
        next: VecDeque::from(vec![
            MinoKind::O.shape(),
            MinoKind::T.shape(),
            MinoKind::S.shape(),
            MinoKind::Z.shape(),
            MinoKind::J.shape(),
            MinoKind::L.shape(),
            MinoKind::I.shape(),
        ]),
        next_buf: VecDeque::from(vec![MinoKind::T.shape(); 7]),
        score: 0,
        total_line: 0,
    }
}

fn count_blocks(field: &FieldSize) -> usize {
    (1..FIELD_HEIGHT - 2)
        .flat_map(|y| (2..FIELD_WIDTH - 2).map(move |x| (y, x)))
        .filter(|&(y, x)| field[y][x] != NONE)
        .count()
}

/// The starting grid with the bottom `rows` playable rows filled, all but
/// column 11.
fn field_with_gap(rows: usize) -> FieldSize {
    let mut field = initial_field();
    for y in (FIELD_HEIGHT - 2 - rows)..(FIELD_HEIGHT - 2) {
        for x in 2..11 {
            field[y][x] = J;
        }
    }
    field
}

#[test]
fn spawn_position_is_fixed() {
    assert_eq!(Position::init(), Position { x: 5, y: 0 });
}

#[test]
fn initial_field_layout() {
    let f = initial_field();
    assert_eq!(f[0], [0, WALL, WALL, WALL, 0, 0, 0, 0, 0, 0, WALL, WALL, WALL, 0]);
    for y in 1..21 {
        assert_eq!(f[y], [0, WALL, 0, 0, 0, 0, 0, 0, 0, 0, 0, 0, WALL, 0]);
    }
    assert_eq!(f[21], [0, WALL, WALL, WALL, WALL, WALL, WALL, WALL, WALL, WALL, WALL, WALL, WALL, 0]);
    assert_eq!(f[22], [0; 14]);
}

#[test]
fn spawn_never_collides_on_empty_field() {
    let f = initial_field();
    for kind in ALL_KINDS {
        assert!(!is_collision(&f, &Position::init(), &kind.shape()));
    }
}

#[test]
fn collision_with_walls_and_clipping() {
    let f = initial_field();
    let i = MinoKind::I.shape();
    assert!(is_collision(&f, &Position { x: 0, y: 5 }, &i));
    assert!(is_collision(&f, &Position { x: 5, y: 19 }, &i));
    assert!(!is_collision(&f, &Position { x: 5, y: 18 }, &i));
    assert!(!is_collision(&f, &Position { x: 5, y: 100 }, &i));
    assert!(!is_collision(&f, &Position { x: 100, y: 5 }, &i));
}

#[test]
fn move_into_wall_is_ignored() {
    let mut game = test_game(initial_field(), MinoKind::O.shape());
    move_mino(&mut game, Position { x: 0, y: 0 });
    assert_eq!(game.pos, Position::init());
    move_mino(&mut game, Position { x: 6, y: 3 });
    assert_eq!(game.pos, Position { x: 6, y: 3 });
}

#[test]
fn four_right_turns_restore_mask() {
    for kind in ALL_KINDS {
        let mut game = test_game(initial_field(), kind.shape());
        game.pos = Position { x: 5, y: 8 };
        rotate_right(&mut game);
        if kind != MinoKind::O {
            assert_ne!(game.mino, kind.shape());
        }
        rotate_right(&mut game);
        rotate_right(&mut game);
        rotate_right(&mut game);
        assert_eq!(game.mino, kind.shape());
        assert_eq!(game.pos, Position { x: 5, y: 8 });
    }
}

#[test]
fn left_turn_undoes_right_turn() {
    for kind in ALL_KINDS {
        let mut game = test_game(initial_field(), kind.shape());
        game.pos = Position { x: 5, y: 8 };
        rotate_right(&mut game);
        rotate_left(&mut game);
        assert_eq!(game.mino, kind.shape());
        for _ in 0..4 {
            rotate_left(&mut game);
        }
        assert_eq!(game.mino, kind.shape());
    }
}

#[test]
fn right_turn_of_i_is_vertical() {
    let mut game = test_game(initial_field(), MinoKind::I.shape());
    game.pos = Position { x: 5, y: 8 };
    rotate_right(&mut game);
    assert_eq!(game.mino, VERTICAL_I);
}

#[test]
fn turn_against_floor_kicks_up() {
    let horizontal: MinoShape = [[0, 0, 0, 0], [I, I, I, I], [0, 0, 0, 0], [0, 0, 0, 0]];
    let mut game = test_game(initial_field(), VERTICAL_I);
    game.pos = Position { x: 5, y: 17 };
    rotate_right(&mut game);
    assert_eq!(game.mino, horizontal);
    assert_eq!(game.pos, Position { x: 5, y: 17 });
    let mut low = test_game(initial_field(), VERTICAL_I);
    low.pos = Position { x: 5, y: 20 };
    rotate_right(&mut low);
    assert_eq!(low.mino, horizontal);
    assert_eq!(low.pos, Position { x: 5, y: 19 });
}

#[test]
fn super_rotation_tries_up_right_down_left() {
    let f = initial_field();
    let i = MinoKind::I.shape();
    assert_eq!(super_rotation(&f, &Position { x: 5, y: 19 }, &i), Ok(Position { x: 5, y: 18 }));
    assert_eq!(super_rotation(&f, &Position { x: 1, y: 5 }, &i), Ok(Position { x: 2, y: 5 }));
    let mut closed = initial_field();
    for row in closed.iter_mut() {
        *row = [WALL; 14];
    }
    assert_eq!(super_rotation(&closed, &Position { x: 5, y: 5 }, &i), Err(()));
}

#[test]
fn hard_drop_lands_on_floor_and_is_idempotent() {
    let mut game = test_game(initial_field(), MinoKind::O.shape());
    hard_drop(&mut game);
    assert_eq!(game.pos, Position { x: 5, y: 18 });
    let once = game.pos;
    hard_drop(&mut game);
    assert_eq!(game.pos, once);
}

#[test]
fn ghost_pos_matches_hard_drop() {
    let f = initial_field();
    let t = MinoKind::T.shape();
    assert_eq!(ghost_pos(&f, &Position::init(), &t), Position { x: 5, y: 18 });
    let mut game = test_game(f, t);
    hard_drop(&mut game);
    assert_eq!(game.pos, Position { x: 5, y: 18 });
}

#[test]
fn drop_stops_only_above_something() {
    let f = initial_field();
    assert!(drop_stops(&f, &Position::init(), &MinoKind::O.shape()));
    let empty: FieldSize = [[NONE; 14]; 23];
    assert!(!drop_stops(&empty, &Position::init(), &MinoKind::O.shape()));
}

#[test]
fn fits_in_field_checks_bounds() {
    let o = MinoKind::O.shape();
    assert!(fits_in_field(&Position { x: 5, y: 0 }, &o));
    assert!(fits_in_field(&Position { x: 11, y: 20 }, &o));
    assert!(!fits_in_field(&Position { x: 12, y: 20 }, &o));
    assert!(!fits_in_field(&Position { x: 5, y: 21 }, &o));
}

#[test]
fn fix_mino_writes_piece_cells() {
    let mut game = test_game(initial_field(), MinoKind::O.shape());
    game.pos = Position { x: 5, y: 18 };
    fix_mino(&mut game);
    assert_eq!(game.field[19][6], O);
    assert_eq!(game.field[19][7], O);
    assert_eq!(game.field[20][6], O);
    assert_eq!(game.field[20][7], O);
    assert_eq!(count_blocks(&game.field), 4);
}

#[test]
fn erase_line_clears_and_shifts() {
    let mut f = field_with_gap(1);
    f[20][11] = J;
    f[19][3] = O;
    let before = f;
    assert!(row_is_full(&f[20]));
    assert_eq!(erase_line(&mut f), 1);
    assert_eq!(f[20], before[19]);
    assert_eq!(f[20][3], O);
    assert_eq!(f[19][3], NONE);
    assert_eq!(f[2], before[1]);
    assert_eq!(f[1], before[1]);
    assert_eq!(f[0], before[0]);
    assert_eq!(f[21], before[21]);
    assert_eq!(count_blocks(&f), 1);
}

#[test]
fn erase_line_without_full_rows_changes_nothing() {
    let mut f = field_with_gap(3);
    let before = f;
    assert_eq!(erase_line(&mut f), 0);
    assert_eq!(f, before);
}

#[test]
fn erase_line_keeps_order_of_remaining_rows() {
    let mut f = initial_field();
    for x in 2..12 {
        f[20][x] = J;
        f[18][x] = J;
    }
    f[19][4] = O;
    f[17][5] = I;
    assert_eq!(erase_line(&mut f), 2);
    assert_eq!(f[20][4], O);
    assert_eq!(f[19][5], I);
    assert_eq!(count_blocks(&f), 2);
}

#[test]
fn line_score_table() {
    assert_eq!(line_score(0), 0);
    assert_eq!(line_score(1), 1);
    assert_eq!(line_score(2), 5);
    assert_eq!(line_score(3), 25);
    assert_eq!(line_score(4), 100);
}

#[test]
fn landing_awards_table_score() {
    let expected = [0, 1, 5, 25, 100];
    for (rows, want) in expected.iter().enumerate() {
        let mut game = test_game(field_with_gap(rows), VERTICAL_I);
        game.pos = Position { x: 10, y: 0 };
        hard_drop(&mut game);
        assert_eq!(game.pos, Position { x: 10, y: 17 });
        assert_eq!(lock_clear_count(&game), rows);
        assert!(landing(&mut game).is_ok());
        assert_eq!(game.score, *want);
        assert_eq!(game.total_line, rows);
    }
}

#[test]
fn landing_score_accumulates() {
    let mut game = test_game(field_with_gap(1), VERTICAL_I);
    game.pos = Position { x: 10, y: 17 };
    assert!(landing(&mut game).is_ok());
    assert_eq!((game.score, game.total_line), (1, 1));
    game.field = field_with_gap(2);
    game.mino = VERTICAL_I;
    game.pos = Position { x: 10, y: 17 };
    assert!(landing(&mut game).is_ok());
    assert_eq!((game.score, game.total_line), (6, 3));
}

#[test]
fn i_piece_moved_right_three_and_dropped() {
    let mut game = test_game(initial_field(), MinoKind::I.shape());
    for _ in 0..3 {
        let p = Position { x: game.pos.x + 1, y: game.pos.y };
        move_mino(&mut game, p);
    }
    assert_eq!(game.pos, Position { x: 8, y: 0 });
    hard_drop(&mut game);
    assert_eq!(game.pos, Position { x: 8, y: 18 });
    assert!(landing(&mut game).is_ok());
    for x in 8..12 {
        assert_eq!(game.field[20][x], I);
    }
    assert_eq!(count_blocks(&game.field), 4);
    assert_eq!(game.total_line, 0);
    assert_eq!(game.score, 0);
}

#[test]
fn filling_the_last_gap_clears_one_line() {
    let mut field = field_with_gap(1);
    field[19][2] = O;
    let mut game = test_game(field, VERTICAL_I);
    game.pos = Position { x: 10, y: 0 };
    hard_drop(&mut game);
    assert!(landing(&mut game).is_ok());
    assert_eq!(game.total_line, 1);
    assert_eq!(game.score, 1);
    assert_eq!(game.field[20][2], O);
    assert_eq!(game.field[19][2], NONE);
    assert_eq!(game.field[20][11], I);
    assert_eq!(game.field[19][11], I);
    assert_eq!(game.field[18][11], I);
    assert_eq!(game.field[17][11], NONE);
    assert_eq!(count_blocks(&game.field), 4);
}

#[test]
fn spawn_takes_queue_head_and_refills() {
    let mut game = test_game(initial_field(), MinoKind::I.shape());
    let head = game.next[0];
    assert!(spawn_mino(&mut game).is_ok());
    assert_eq!(game.mino, head);
    assert_eq!(game.pos, Position::init());
    assert_eq!(game.next.len(), 7);
    assert_eq!(game.next[6], MinoKind::T.shape());
    assert_eq!(game.next_buf.len(), 6);
    game.next_buf.clear();
    assert!(spawn_mino(&mut game).is_ok());
    assert_eq!(game.next.len(), 7);
    assert_eq!(game.next_buf.len(), 6);
}

#[test]
fn spawn_into_terrain_tops_out() {
    let mut field = initial_field();
    for y in 0..4 {
        for x in 4..10 {
            field[y][x] = J;
        }
    }
    let mut game = test_game(field, MinoKind::I.shape());
    assert!(spawn_mino(&mut game).is_err());
}

#[test]
fn hold_stores_then_swaps_once_per_piece() {
    let mut game = test_game(initial_field(), MinoKind::I.shape());
    let queued = game.next[0];
    hold(&mut game);
    assert_eq!(game.hold, Some(MinoKind::I.shape()));
    assert_eq!(game.mino, queued);
    assert!(game.holded);
    let before = game.mino;
    hold(&mut game);
    assert_eq!(game.mino, before);
    assert_eq!(game.hold, Some(MinoKind::I.shape()));
    game.holded = false;
    game.pos = Position { x: 6, y: 7 };
    hold(&mut game);
    assert_eq!(game.mino, MinoKind::I.shape());
    assert_eq!(game.hold, Some(before));
    assert_eq!(game.pos, Position::init());
}

#[test]
fn new_game_starts_clean() {
    let game = Game::new();
    assert_eq!(game.field, initial_field());
    assert_eq!(game.pos, Position::init());
    assert_eq!(game.hold, None);
    assert!(!game.holded);
    assert_eq!(game.score, 0);
    assert_eq!(game.total_line, 0);
    assert_eq!(game.next.len(), 7);
    assert_eq!(game.next_buf.len(), 6);
    assert!(ALL_KINDS.iter().any(|k| k.shape() == game.mino));
    assert!(!is_collision(&game.field, &game.pos, &game.mino));
}

#[test]
fn bag_holds_each_shape_once() {
    let bag = gen_mino_7();
    for kind in ALL_KINDS {
        assert_eq!(bag.iter().filter(|m| **m == kind.shape()).count(), 1);
    }
}

#[test]
fn kinds_by_index() {
    assert_eq!(MinoKind::from_index(0), MinoKind::I);
    assert_eq!(MinoKind::from_index(3), MinoKind::Z);
    assert_eq!(MinoKind::from_index(6), MinoKind::T);
    assert_eq!(MinoKind::from_index(40), MinoKind::T);
    assert_eq!(MinoKind::L.shape(), [[0, 0, 0, 0], [0, 0, 8, 0], [8, 8, 8, 0], [0, 0, 0, 0]]);
}

#[test]
fn gravity_speeds_up_with_lines() {
    assert_eq!(tetris_core::game::gravity_interval_ms(0), 1000);
    assert_eq!(tetris_core::game::gravity_interval_ms(9), 1000);
    assert_eq!(tetris_core::game::gravity_interval_ms(10), 900);
    assert_eq!(tetris_core::game::gravity_interval_ms(95), 100);
    assert_eq!(tetris_core::game::gravity_interval_ms(100), 100);
    assert_eq!(tetris_core::game::gravity_interval_ms(usize::MAX), 100);
}

#[test]
fn bags_are_shuffled() {
    let canonical: Vec<MinoShape> = ALL_KINDS.iter().map(|k| k.shape()).collect();
    let shuffled = (0..30).any(|_| gen_mino_7().to_vec() != canonical);
    assert!(shuffled);
}

#[test]
fn random_kinds_vary() {
    let first = tetris_core::mino::random_kind();
    let varied = (0..200).any(|_| tetris_core::mino::random_kind() != first);
    assert!(varied);
}

#[test]
fn clearing_opens_empty_rows_at_the_top() {
    let mut f = field_with_gap(1);
    f[20][11] = J;
    f[1][4] = O;
    let blank = initial_field()[1];
    assert_eq!(erase_line(&mut f), 1);
    assert_eq!(f[1], blank);
    assert_eq!(f[2][4], O);
    assert_eq!(count_blocks(&f), 1);
}

#[test]
fn top_out_still_resets_hold_flag() {
    let mut field = initial_field();
    for y in 0..4 {
        for x in 4..10 {
            field[y][x] = J;
        }
    }
    let mut game = test_game(field, VERTICAL_I);
    game.holded = true;
    game.pos = Position { x: 10, y: 17 };
    assert!(landing(&mut game).is_err());
    assert!(!game.holded);
}

#[test]
fn hold_swap_needs_no_queue() {
    let mut game = test_game(initial_field(), MinoKind::I.shape());
    game.hold = Some(MinoKind::O.shape());
    game.next.clear();
    hold(&mut game);
    assert_eq!(game.mino, MinoKind::O.shape());
    assert_eq!(game.hold, Some(MinoKind::I.shape()));
}

#[test]
fn gravity_moves_down_then_locks() {
    let mut game = test_game(initial_field(), MinoKind::O.shape());
    game.pos = Position { x: 5, y: 17 };
    assert!(gravity_step(&mut game).is_ok());
    assert_eq!(game.pos, Position { x: 5, y: 18 });
    assert!(gravity_step(&mut game).is_ok());
    assert_eq!(game.pos, Position::init());
    assert_eq!(count_blocks(&game.field), 4);
}

#[test]
fn lock_piece_refuses_piece_outside_grid() {
    let mut game = test_game(initial_field(), MinoKind::O.shape());
    game.pos = Position { x: 12, y: 20 };
    let field = game.field;
    assert!(lock_piece(&mut game).is_err());
    assert_eq!(game.field, field);
    assert_eq!(game.pos, Position { x: 12, y: 20 });
}

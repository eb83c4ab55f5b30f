use std::collections::VecDeque;

use tetris_core::ai::{
    best_follow_up, dead_space_count, diff_in_height, erase_line_count, eval, eval_simple,
    field_height_max, place, rate,
};
use tetris_core::block::{I, J, NONE, O};
use tetris_core::game::{initial_field, FieldSize, Game, Position};
use tetris_core::mino::{MinoKind, MinoShape};

fn ai_game(field: FieldSize, mino: MinoShape) -> Game {
    Game {
        field,
        pos: Position::init(),
        mino,
        hold: None,
        holded: false,
        next: VecDeque::from(vec![MinoKind::O.shape(); 7]),
        next_buf: VecDeque::from(vec![MinoKind::T.shape(); 7]),
        score: 0,
        total_line: 0,
    }
}

fn playable_blocks(field: &FieldSize) -> usize {
    (1..21)
        .flat_map(|y| (2..12).map(move |x| (y, x)))
        .filter(|&(y, x)| field[y][x] != NONE)
        .count()
}

#[test]
fn clearable_rows_counted() {
    let mut f = initial_field();
    assert_eq!(erase_line_count(&f), 0);
    for x in 2..12 {
        f[20][x] = J;
    }
    assert_eq!(erase_line_count(&f), 1);
    for x in 2..12 {
        f[5][x] = J;
    }
    f[5][7] = NONE;
    assert_eq!(erase_line_count(&f), 1);
}

#[test]
fn stack_height_from_floor() {
    let mut f = initial_field();
    assert_eq!(field_height_max(&f), 0);
    f[20][5] = J;
    assert_eq!(field_height_max(&f), 2);
    f[1][2] = J;
    assert_eq!(field_height_max(&f), 21);
}

#[test]
fn roughness_sums_neighbour_differences() {
    let mut f = initial_field();
    assert_eq!(diff_in_height(&f), 0);
    f[20][5] = J;
    assert_eq!(diff_in_height(&f), 4);
    f[19][5] = J;
    assert_eq!(diff_in_height(&f), 6);
    let mut edge = initial_field();
    edge[20][2] = J;
    assert_eq!(diff_in_height(&edge), 2);
}

#[test]
fn dead_space_counts_covered_holes() {
    let mut f = initial_field();
    assert_eq!(dead_space_count(&f), 0);
    f[18][5] = J;
    assert_eq!(dead_space_count(&f), 2);
    let mut top = initial_field();
    top[1][5] = J;
    assert_eq!(dead_space_count(&top), 19);
    let mut high = initial_field();
    high[2][5] = J;
    assert_eq!(dead_space_count(&high), 18);
}

#[test]
fn rating_is_weighted_sum() {
    let f = initial_field();
    assert_eq!(rate(&f, &[1, 1, 1, 1]), 600);
    assert_eq!(rate(&f, &[0, 0, 0, 0]), 0);
    let mut g = initial_field();
    g[20][5] = J;
    assert_eq!(rate(&g, &[1, 2, 3, 4]), 1748);
    let mut full = initial_field();
    for x in 2..12 {
        full[20][x] = J;
    }
    assert_eq!(rate(&full, &[1, 0, 0, 0]), 50);
}

#[test]
fn place_drops_rotated_piece() {
    let f = initial_field();
    let o = MinoKind::O.shape();
    assert_eq!(place(&f, Position::init(), o, 0, 4), Some((Position { x: 5, y: 18 }, o)));
    let horizontal: MinoShape = [[0, 0, 0, 0], [I, I, I, I], [0, 0, 0, 0], [0, 0, 0, 0]];
    assert_eq!(
        place(&f, Position::init(), MinoKind::I.shape(), 2, 7),
        Some((Position { x: 8, y: 19 }, horizontal))
    );
    let vertical: MinoShape = [[0, I, 0, 0], [0, I, 0, 0], [0, I, 0, 0], [0, I, 0, 0]];
    assert_eq!(
        place(&f, Position::init(), MinoKind::I.shape(), 1, 4),
        Some((Position { x: 5, y: 17 }, vertical))
    );
}

#[test]
fn follow_up_exists_on_open_field() {
    let f = initial_field();
    let best = best_follow_up(&f, MinoKind::T.shape(), &[1, 1, 1, 1]);
    assert!(best.is_some());
    assert!(best.unwrap() > 0);
}

#[test]
fn eval_with_zero_weights_takes_first_placement() {
    let game = ai_game(initial_field(), MinoKind::T.shape());
    let r = eval(&game, &[0, 0, 0, 0]);
    assert_eq!(r.pos, Position { x: 5, y: 18 });
    assert_eq!(r.mino, MinoKind::T.shape());
    assert_eq!(playable_blocks(&r.field), 4);
}

#[test]
fn eval_fixes_the_piece() {
    let game = ai_game(initial_field(), MinoKind::T.shape());
    let r = eval(&game, &[10, 10, 10, 10]);
    assert_eq!(playable_blocks(&r.field), 4);
    assert_eq!(r.next, game.next);
    assert_eq!(r.score, 0);
}

#[test]
fn eval_prefers_clearing_rows() {
    let mut f = initial_field();
    for x in 2..8 {
        f[20][x] = J;
    }
    let game = ai_game(f, MinoKind::I.shape());
    let r = eval(&game, &[255, 0, 0, 0]);
    assert_eq!(erase_line_count(&r.field), 1);
}

#[test]
fn simple_policy_takes_first_line_clear() {
    let mut f = initial_field();
    for x in 2..8 {
        f[20][x] = J;
    }
    let game = ai_game(f, MinoKind::I.shape());
    let r = eval_simple(&game);
    assert_eq!(r.pos, Position { x: 8, y: 18 });
    assert_eq!(r.mino, MinoKind::I.shape());
    for x in 8..12 {
        assert_eq!(r.field[20][x], I);
    }
    assert_eq!(erase_line_count(&r.field), 1);
}

#[test]
fn simple_policy_prefers_low_stack() {
    let game = ai_game(initial_field(), MinoKind::O.shape());
    let r = eval_simple(&game);
    assert_eq!(field_height_max(&r.field), 3);
    assert_eq!(r.field[20][r.pos.x + 1], O);
}

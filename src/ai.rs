//! Field-quality metrics and the move evaluator.
use vstd::prelude::*;

use std::collections::VecDeque;

use crate::block::NONE;
use crate::game::{
    at, collides, drop_stops, drop_target, fits, fits_in_field, fix_cells, fixed_field, hard_drop,
    lemma_drop_target, lands, move_mino, right_turn, rotate_right, spawn_pos, turned, FieldSize,
    Game, Position, FIELD_HEIGHT, FIELD_WIDTH,
};
use crate::genetic::{weight, GenoSeq, GenomeKind};
use crate::mino::MinoShape;

verus! {

/// The first examined row, below the hidden top row.
pub const TOP_ROW: usize = 1;

/// One past the last examined row: the floor.
pub const FLOOR_ROW: usize = FIELD_HEIGHT - 2;

/// The first playable column, right of the left wall.
pub const LEFT_COL: usize = 2;

/// One past the last playable column: the right wall.
pub const RIGHT_COL: usize = FIELD_WIDTH - 2;

/// Every playable cell of row `y` is occupied.
pub open spec fn row_clearable(f: FieldSize, y: int) -> bool {
    forall|x: int| LEFT_COL <= x < RIGHT_COL ==> #[trigger] at(f, y, x) != NONE
}

/// How many of the rows `TOP_ROW..y` are clearable.
pub open spec fn clearable_upto(f: FieldSize, y: int) -> nat
    decreases y - TOP_ROW,
{
    if y <= TOP_ROW {
        0
    } else {
        clearable_upto(f, y - 1) + if row_clearable(f, y - 1) { 1nat } else { 0nat }
    }
}

/// How many examined rows are clearable.
pub open spec fn clearable_count(f: FieldSize) -> nat {
    clearable_upto(f, FLOOR_ROW as int)
}

/// Whether every playable cell of row `y` is occupied.
fn row_is_clearable(field: &FieldSize, y: usize) -> (r: bool)
    requires
        y < FIELD_HEIGHT,
    ensures
        r == row_clearable(*field, y as int),
{
    let mut x: usize = LEFT_COL;
    while x < RIGHT_COL
        invariant
            LEFT_COL <= x <= RIGHT_COL,
            y < FIELD_HEIGHT,
            forall|k: int| LEFT_COL <= k < x ==> #[trigger] at(*field, y as int, k) != NONE,
        decreases RIGHT_COL - x,
    {
        if field[y][x] == NONE {
            assert(at(*field, y as int, x as int) == NONE);
            return false;
        }
        x = x + 1;
    }
    true
}

/// The number of examined rows whose playable cells are all occupied.
pub fn erase_line_count(field: &FieldSize) -> (r: usize)
    ensures
        r == clearable_count(*field),
        r <= FLOOR_ROW - TOP_ROW,
{
    let mut count: usize = 0;
    let mut y: usize = TOP_ROW;
    while y < FLOOR_ROW
        invariant
            TOP_ROW <= y <= FLOOR_ROW,
            count == clearable_upto(*field, y as int),
            count <= y - TOP_ROW,
        decreases FLOOR_ROW - y,
    {
        if row_is_clearable(field, y) {
            count = count + 1;
        }
        y = y + 1;
    }
    count
}

/// Some playable cell of row `y` is occupied.
pub open spec fn row_occupied(f: FieldSize, y: int) -> bool {
    exists|x: int| LEFT_COL <= x < RIGHT_COL && #[trigger] at(f, y, x) != NONE
}

/// The topmost occupied examined row at or below `y`, or the floor row if
/// there is none.
pub open spec fn top_row_from(f: FieldSize, y: int) -> int
    decreases FLOOR_ROW - y,
{
    if y >= FLOOR_ROW {
        FLOOR_ROW as int
    } else if row_occupied(f, y) {
        y
    } else {
        top_row_from(f, y + 1)
    }
}

/// The height of a stack whose top lies in row `y`, counted up from the
/// bottom of the grid.
pub open spec fn height_of_row(y: int) -> int {
    FIELD_HEIGHT - y - 1
}

/// The stack's height: that of its topmost occupied examined row, or zero
/// when no examined cell is occupied.
pub open spec fn stack_height(f: FieldSize) -> int {
    let top = top_row_from(f, TOP_ROW as int);
    if top == FLOOR_ROW { 0 } else { height_of_row(top) }
}

/// Whether some playable cell of row `y` is occupied.
fn row_has_block(field: &FieldSize, y: usize) -> (r: bool)
    requires
        y < FIELD_HEIGHT,
    ensures
        r == row_occupied(*field, y as int),
{
    let mut x: usize = LEFT_COL;
    while x < RIGHT_COL
        invariant
            LEFT_COL <= x <= RIGHT_COL,
            y < FIELD_HEIGHT,
            forall|k: int| LEFT_COL <= k < x ==> #[trigger] at(*field, y as int, k) == NONE,
        decreases RIGHT_COL - x,
    {
        if field[y][x] != NONE {
            assert(at(*field, y as int, x as int) != NONE);
            return true;
        }
        x = x + 1;
    }
    false
}

/// The height of the stack: rows counted up from the bottom of the grid to
/// the topmost examined row with an occupied playable cell; zero on a grid
/// with none.
pub fn field_height_max(field: &FieldSize) -> (r: usize)
    ensures
        r == stack_height(*field),
        r < FIELD_HEIGHT - 1,
{
    let mut y: usize = TOP_ROW;
    while y < FLOOR_ROW
        invariant
            TOP_ROW <= y <= FLOOR_ROW,
            top_row_from(*field, TOP_ROW as int) == top_row_from(*field, y as int),
        decreases FLOOR_ROW - y,
    {
        if row_has_block(field, y) {
            return FIELD_HEIGHT - y - 1;
        }
        y = y + 1;
    }
    0
}

/// The topmost occupied cell of column `x` at or below row `y`, among the
/// examined rows, or the floor row if there is none.
pub open spec fn column_top_from(f: FieldSize, x: int, y: int) -> int
    decreases FLOOR_ROW - y,
{
    if y >= FLOOR_ROW {
        FLOOR_ROW as int
    } else if at(f, y, x) != NONE {
        y
    } else {
        column_top_from(f, x, y + 1)
    }
}

/// The height of column `x`: that of its topmost occupied examined cell,
/// or zero when it has none.
pub open spec fn column_height(f: FieldSize, x: int) -> int {
    let top = column_top_from(f, x, TOP_ROW as int);
    if top == FLOOR_ROW { 0 } else { height_of_row(top) }
}

pub open spec fn abs_diff(a: int, b: int) -> int {
    if a >= b { a - b } else { b - a }
}

/// The sum of the height differences of the first `n` pairs of adjacent
/// playable columns.
pub open spec fn roughness_upto(f: FieldSize, n: int) -> int
    decreases n,
{
    if n <= 0 {
        0
    } else {
        roughness_upto(f, n - 1) + abs_diff(
            column_height(f, LEFT_COL + n - 1),
            column_height(f, LEFT_COL + n),
        )
    }
}

/// Surface roughness: the sum of the height differences of adjacent
/// playable columns.
pub open spec fn roughness(f: FieldSize) -> int {
    roughness_upto(f, RIGHT_COL - LEFT_COL - 1)
}

proof fn lemma_column_top_range(f: FieldSize, x: int, y: int)
    requires
        TOP_ROW <= y,
    ensures
        y <= column_top_from(f, x, y) <= FLOOR_ROW || (y > FLOOR_ROW && column_top_from(f, x, y) == FLOOR_ROW),
    decreases FLOOR_ROW - y,
{
    if y < FLOOR_ROW && at(f, y, x) == NONE {
        lemma_column_top_range(f, x, y + 1);
    }
}

/// The height of column `x`.
fn column_height_of(field: &FieldSize, x: usize) -> (r: usize)
    requires
        x < FIELD_WIDTH,
    ensures
        r == column_height(*field, x as int),
        r < FIELD_HEIGHT - 1,
{
    let mut y: usize = TOP_ROW;
    while y < FLOOR_ROW
        invariant
            TOP_ROW <= y <= FLOOR_ROW,
            x < FIELD_WIDTH,
            column_top_from(*field, x as int, TOP_ROW as int) == column_top_from(*field, x as int, y as int),
        decreases FLOOR_ROW - y,
    {
        if field[y][x] != NONE {
            return FIELD_HEIGHT - y - 1;
        }
        y = y + 1;
    }
    0
}

/// Surface roughness: the sum of the height differences of adjacent
/// playable columns.
pub fn diff_in_height(field: &FieldSize) -> (r: usize)
    ensures
        r == roughness(*field),
        r <= 198,
{
    let mut top: [usize; 10] = [0; 10];
    let mut x: usize = LEFT_COL;
    while x < RIGHT_COL
        invariant
            LEFT_COL <= x <= RIGHT_COL,
            forall|k: int| 0 <= k < x - LEFT_COL ==> #[trigger] top[k] == column_height(*field, LEFT_COL + k),
            forall|k: int| 0 <= k < 10 ==> #[trigger] top[k] < FIELD_HEIGHT - 1,
        decreases RIGHT_COL - x,
    {
        top[x - LEFT_COL] = column_height_of(field, x);
        x = x + 1;
    }
    let mut diff: usize = 0;
    let mut i: usize = 0;
    while i < RIGHT_COL - LEFT_COL - 1
        invariant
            0 <= i <= RIGHT_COL - LEFT_COL - 1,
            forall|k: int| 0 <= k < 10 ==> #[trigger] top[k] == column_height(*field, LEFT_COL + k),
            forall|k: int| 0 <= k < 10 ==> #[trigger] top[k] < FIELD_HEIGHT - 1,
            diff == roughness_upto(*field, i as int),
            diff <= 22 * i,
        decreases RIGHT_COL - LEFT_COL - 1 - i,
    {
        let step = if top[i] >= top[i + 1] { top[i] - top[i + 1] } else { top[i + 1] - top[i] };
        diff = diff + step;
        i = i + 1;
    }
    diff
}

/// Row `y`, column `x` is empty with an occupied cell somewhere above it in
/// the same column, among the examined rows.
pub open spec fn is_dead(f: FieldSize, y: int, x: int) -> bool {
    at(f, y, x) == NONE && exists|y2: int| TOP_ROW <= y2 < y && #[trigger] at(f, y2, x) != NONE
}

/// How many of the first `n` playable cells of row `y` are dead.
pub open spec fn dead_in_row(f: FieldSize, y: int, n: int) -> int
    decreases n,
{
    if n <= 0 {
        0
    } else {
        dead_in_row(f, y, n - 1) + if is_dead(f, y, LEFT_COL + n - 1) { 1int } else { 0int }
    }
}

/// How many playable cells of the rows `TOP_ROW..y` are dead.
pub open spec fn dead_upto(f: FieldSize, y: int) -> int
    decreases y - TOP_ROW,
{
    if y <= TOP_ROW {
        0
    } else {
        dead_upto(f, y - 1) + dead_in_row(f, y - 1, RIGHT_COL - LEFT_COL)
    }
}

/// How many playable cells of the examined rows are covered holes.
pub open spec fn dead_space(f: FieldSize) -> int {
    dead_upto(f, FLOOR_ROW as int)
}

/// Whether some cell of column `x` from the top examined row down to just
/// above row `y` is occupied.
fn covered(field: &FieldSize, y: usize, x: usize) -> (r: bool)
    requires
        y < FIELD_HEIGHT,
        x < FIELD_WIDTH,
    ensures
        r == exists|y2: int| TOP_ROW <= y2 < y && #[trigger] at(*field, y2, x as int) != NONE,
{
    let mut y2: usize = TOP_ROW;
    while y2 < y
        invariant
            TOP_ROW <= y2,
            y < FIELD_HEIGHT,
            x < FIELD_WIDTH,
            forall|k: int| TOP_ROW <= k < y2 ==> #[trigger] at(*field, k, x as int) == NONE,
        decreases y - y2,
    {
        if field[y2][x] != NONE {
            assert(at(*field, y2 as int, x as int) != NONE);
            return true;
        }
        y2 = y2 + 1;
    }
    false
}

/// The number of covered holes: empty playable cells with an occupied cell
/// somewhere above them in the same column.
pub fn dead_space_count(field: &FieldSize) -> (r: usize)
    ensures
        r == dead_space(*field),
        r <= 200,
{
    let mut count: usize = 0;
    let mut y: usize = TOP_ROW;
    while y < FLOOR_ROW
        invariant
            TOP_ROW <= y <= FLOOR_ROW,
            count == dead_upto(*field, y as int),
            count <= 10 * (y - 1),
        decreases FLOOR_ROW - y,
    {
        let ghost row_start = count;
        let mut x: usize = LEFT_COL;
        while x < RIGHT_COL
            invariant
                TOP_ROW <= y < FLOOR_ROW,
                LEFT_COL <= x <= RIGHT_COL,
                row_start == dead_upto(*field, y as int),
                row_start <= 10 * (y - 1),
                count == row_start + dead_in_row(*field, y as int, x - LEFT_COL),
                count <= row_start + (x - LEFT_COL),
            decreases RIGHT_COL - x,
        {
            if field[y][x] == NONE && covered(field, y, x) {
                count = count + 1;
            }
            x = x + 1;
        }
        y = y + 1;
    }
    count
}

/// The piece at `p` with mask `m` after `k` quarter turns to the right,
/// each with wall kicks.
pub open spec fn turned_times(f: FieldSize, p: Position, m: MinoShape, k: nat) -> (Position, MinoShape)
    decreases k,
{
    if k == 0 {
        (p, m)
    } else {
        let (q, n) = turned_times(f, p, m, (k - 1) as nat);
        turned(f, q, n, right_turn(n))
    }
}

/// Column `x` shifted by `d - 4`, stopping at zero.
pub open spec fn shifted_x(x: usize, d: int) -> usize {
    if x + d <= 4 { 0 } else { (x + d - 4) as usize }
}

/// The position after trying to move the piece by `d - 4` columns and one
/// row down at once: the target if it is free, else where it was.
pub open spec fn shifted(f: FieldSize, p: Position, m: MinoShape, d: int) -> Position {
    let target = Position { x: shifted_x(p.x, d), y: (p.y + 1) as usize };
    if collides(f, target, m) { p } else { target }
}

/// Where and in which mask the piece at `p` with mask `m` comes to rest
/// after `rot` quarter turns to the right, a shift by `d - 4` columns
/// and a hard drop. `None` when the drop would never stop, or the resting
/// piece would stick out of the grid.
pub open spec fn placement(f: FieldSize, p: Position, m: MinoShape, rot: nat, d: int) -> Option<(Position, MinoShape)> {
    let (q1, n1) = turned_times(f, p, m, rot);
    let q2 = shifted(f, q1, n1, d);
    if lands(f, q2, n1) && fits(drop_target(f, q2, n1), n1) {
        Some((drop_target(f, q2, n1), n1))
    } else {
        None
    }
}

/// The number of placements tried for one piece: four turns times ten
/// shifts.
pub const PLACEMENTS: usize = 40;

/// The placement with number `k`: turn count `k / 10`, shift `k % 10`.
pub open spec fn placement_at(f: FieldSize, p: Position, m: MinoShape, k: int) -> Option<(Position, MinoShape)> {
    placement(f, p, m, (k / 10) as nat, k % 10)
}

/// Tries one placement of the piece: `rot` quarter turns to the right,
/// a move by `d - 4` columns and one row down, and a hard drop.
pub fn place(field: &FieldSize, pos: Position, mino: MinoShape, rot: usize, d: usize) -> (r: Option<(Position, MinoShape)>)
    requires
        rot < 4,
        d < 10,
        pos.x < FIELD_WIDTH,
        pos.y < FIELD_HEIGHT,
    ensures
        r == placement(*field, pos, mino, rot as nat, d as int),
{
    let mut game = Game {
        field: *field,
        pos,
        mino,
        hold: None,
        holded: false,
        next: VecDeque::new(),
        next_buf: VecDeque::new(),
        score: 0,
        total_line: 0,
    };
    let mut i: usize = 0;
    while i < rot
        invariant
            0 <= i <= rot,
            rot < 4,
            pos.x < FIELD_WIDTH,
            pos.y < FIELD_HEIGHT,
            game.field == *field,
            (game.pos, game.mino) == turned_times(*field, pos, mino, i as nat),
            game.pos.x <= pos.x + i,
            game.pos.y <= pos.y + i,
        decreases rot - i,
    {
        rotate_right(&mut game);
        i = i + 1;
    }
    let ghost q1 = game.pos;
    let ghost n1 = game.mino;
    let new_pos = Position {
        x: if game.pos.x + d <= 4 { 0 } else { game.pos.x + d - 4 },
        y: game.pos.y + 1,
    };
    move_mino(&mut game, new_pos);
    assert(game.pos == shifted(*field, q1, n1, d as int));
    if !drop_stops(&game.field, &game.pos, &game.mino) {
        return None;
    }
    let ghost q2 = game.pos;
    hard_drop(&mut game);
    proof {
        lemma_drop_target(game.pos, *field, q2, n1);
    }
    if !fits_in_field(&game.pos, &game.mino) {
        return None;
    }
    Some((game.pos, game.mino))
}

/// The evaluator's rating of a grid under weights `w`: each metric mapped
/// to about `[0, 1]` (clearable rows over 4; height, roughness and dead
/// space inverted against 20, 200 and 200), weighted, summed, and scaled
/// by 200 so that the sum is an exact integer.
pub open spec fn rating(f: FieldSize, w: GenoSeq) -> int {
    50 * w[0] * clearable_count(f) + 10 * w[1] * (20 - stack_height(f)) + w[2] * (200 - roughness(f)) + w[3] * (
    200 - dead_space(f))
}

/// The evaluator's rating of `field` under the weights `w`.
pub fn rate(field: &FieldSize, w: &GenoSeq) -> (r: i64)
    ensures
        r == rating(*field, *w),
{
    let line = erase_line_count(field) as i64;
    let height_max = field_height_max(field) as i64;
    let height_diff = diff_in_height(field) as i64;
    let dead_space = dead_space_count(field) as i64;
    let w_line = weight(w, GenomeKind::Line) as i64;
    let w_height_max = weight(w, GenomeKind::HeightMax) as i64;
    let w_height_diff = weight(w, GenomeKind::HeightDiff) as i64;
    let w_dead_space = weight(w, GenomeKind::DeadSpace) as i64;
    assert(0 <= 50 * w_line * line <= 50 * 255 * 20) by (nonlinear_arith)
        requires
            0 <= w_line <= 255,
            0 <= line <= 20,
    ;
    assert(-10 * 255 <= 10 * w_height_max * (20 - height_max) <= 10 * 255 * 20) by (nonlinear_arith)
        requires
            0 <= w_height_max <= 255,
            0 <= height_max <= 21,
    ;
    assert(0 <= w_height_diff * (200 - height_diff) <= 255 * 200) by (nonlinear_arith)
        requires
            0 <= w_height_diff <= 255,
            0 <= height_diff <= 198,
    ;
    assert(0 <= w_dead_space * (200 - dead_space) <= 255 * 200) by (nonlinear_arith)
        requires
            0 <= w_dead_space <= 255,
            0 <= dead_space <= 200,
    ;
    50 * w_line * line + 10 * w_height_max * (20 - height_max) + w_height_diff * (200 - height_diff) + w_dead_space * (
    200 - dead_space)
}

/// The rating of the grid after follow-up placement `k` of the next piece,
/// from the spawn position, on grid `f`.
pub open spec fn follow_up_rating(f: FieldSize, next: MinoShape, w: GenoSeq, k: int) -> Option<int> {
    match placement_at(f, spawn_pos(), next, k) {
        Some((q, n)) => Some(rating(fixed_field(f, q, n), w)),
        None => None,
    }
}

/// The best rating among the follow-up placements `0..k`, if any of them
/// exists.
pub open spec fn best_follow_up_upto(f: FieldSize, next: MinoShape, w: GenoSeq, k: int) -> Option<int>
    decreases k,
{
    if k <= 0 {
        None
    } else {
        let prev = best_follow_up_upto(f, next, w, k - 1);
        match follow_up_rating(f, next, w, k - 1) {
            Some(v) => match prev {
                Some(b) => Some(if v > b { v } else { b }),
                None => Some(v),
            },
            None => prev,
        }
    }
}

/// An optional machine integer as an optional mathematical one.
pub open spec fn widen(o: Option<i64>) -> Option<int> {
    match o {
        Some(v) => Some(v as int),
        None => None,
    }
}

/// The best rating that the next piece can reach on `field`, over every
/// placement; `None` if it has none.
pub fn best_follow_up(field: &FieldSize, next: MinoShape, w: &GenoSeq) -> (r: Option<i64>)
    ensures
        widen(r) == best_follow_up_upto(*field, next, *w, PLACEMENTS as int),
{
    let mut best: Option<i64> = None;
    let mut k: usize = 0;
    while k < PLACEMENTS
        invariant
            0 <= k <= PLACEMENTS,
            widen(best) == best_follow_up_upto(*field, next, *w, k as int),
        decreases PLACEMENTS - k,
    {
        let init = Position::init();
        match place(field, init, next, k / 10, k % 10) {
            Some((q, n)) => {
                let mut f = *field;
                fix_cells(&mut f, &q, &n);
                let v = rate(&f, w);
                best = match best {
                    Some(b) => Some(if v > b { v } else { b }),
                    None => Some(v),
                };
            },
            None => {},
        }
        k = k + 1;
    }
    best
}

/// The number and rating of the elite among the placements `0..k` of the
/// current piece: the first evaluated placement (one that leaves the next
/// piece a placement), replaced by each later one whose follow-up rating
/// is strictly higher; `-1` and zero while none has been evaluated.
pub open spec fn elite_upto(g: Game, w: GenoSeq, k: int) -> (int, int)
    decreases k,
{
    if k <= 0 {
        (-1, 0)
    } else {
        let (i, s) = elite_upto(g, w, k - 1);
        match placement_at(g.field, g.pos, g.mino, k - 1) {
            Some((q, n)) => match best_follow_up_upto(fixed_field(g.field, q, n), g.next@[0], w, PLACEMENTS as int) {
                Some(v) => if i < 0 || v > s { (k - 1, v) } else { (i, s) },
                None => (i, s),
            },
            None => (i, s),
        }
    }
}

/// `r` is what the evaluator returns for `g` under `w`: `g` with the piece
/// at its elite placement and fixed into the grid, or `g` itself when no
/// placement could be evaluated.
pub open spec fn is_elite(r: Game, g: Game, w: GenoSeq) -> bool {
    let (i, s) = elite_upto(g, w, PLACEMENTS as int);
    &&& i < 0 ==> r.field == g.field && r.pos == g.pos && r.mino == g.mino
    &&& i >= 0 ==> match placement_at(g.field, g.pos, g.mino, i) {
        Some((q, n)) => r.pos == q && r.mino == n && r.field == fixed_field(g.field, q, n),
        None => false,
    }
    &&& r.hold == g.hold
    &&& r.holded == g.holded
    &&& r.next@ == g.next@
    &&& r.next_buf@ == g.next_buf@
    &&& r.score == g.score
    &&& r.total_line == g.total_line
}

/// Chooses where to put the current piece: tries every placement, rates
/// each by the best placement it leaves for the next piece, and returns the
/// game with the piece fixed at the first best one (the grid's full rows
/// not yet cleared); returns the game as it is when no placement could be
/// evaluated.
#[verifier::rlimit(40)]
pub fn eval(game: &Game, weight: &GenoSeq) -> (r: Game)
    requires
        game.next@.len() > 0,
        game.pos.x < FIELD_WIDTH,
        game.pos.y < FIELD_HEIGHT,
    ensures
        is_elite(r, *game, *weight),
{
    let next_mino = game.next[0];
    let mut elite: Option<(Position, MinoShape, FieldSize)> = None;
    let mut elite_score: i64 = 0;
    let ghost mut elite_index: int = -1;
    let mut k: usize = 0;
    while k < PLACEMENTS
        invariant
            0 <= k <= PLACEMENTS,
            game.next@.len() > 0,
            game.pos.x < FIELD_WIDTH,
            game.pos.y < FIELD_HEIGHT,
            next_mino == game.next@[0],
            (elite_index, elite_score as int) == elite_upto(*game, *weight, k as int),
            elite_index < 0 ==> elite is None,
            elite_index >= 0 ==> match placement_at(game.field, game.pos, game.mino, elite_index) {
                Some((q, n)) => elite == Some((q, n, fixed_field(game.field, q, n))),
                None => false,
            },
        decreases PLACEMENTS - k,
    {
        match place(&game.field, game.pos, game.mino, k / 10, k % 10) {
            Some((q, n)) => {
                let mut f = game.field;
                fix_cells(&mut f, &q, &n);
                let follow = best_follow_up(&f, next_mino, weight);
                proof {
                    assert(elite is None <==> elite_index < 0);
                }
                match follow {
                    Some(v) => {
                        if elite.is_none() || v > elite_score {
                            elite = Some((q, n, f));
                            elite_score = v;
                            proof {
                                elite_index = k as int;
                            }
                        }
                    },
                    None => {},
                }
            },
            None => {},
        }
        k = k + 1;
    }
    let mut r = game.copy_state();
    match elite {
        Some((q, n, f)) => {
            r.pos = q;
            r.mino = n;
            r.field = f;
        },
        None => {},
    }
    r
}

/// Whether the grid `a` is a better single-ply outcome than `b`: more
/// clearable rows, or as many and a lower stack.
pub open spec fn better_outcome(a: FieldSize, b: FieldSize) -> bool {
    clearable_count(a) > clearable_count(b) || (clearable_count(a) == clearable_count(b) && stack_height(a)
        < stack_height(b))
}

/// The grid after placement `k` of the piece of `g`, fixed in.
pub open spec fn outcome_at(g: Game, k: int) -> Option<FieldSize> {
    match placement_at(g.field, g.pos, g.mino, k) {
        Some((q, n)) => Some(fixed_field(g.field, q, n)),
        None => None,
    }
}

/// The number of the single-ply elite among the placements `0..k`: the
/// first that exists, replaced by each later one with a strictly better
/// outcome; `-1` while there is none.
pub open spec fn simple_elite_upto(g: Game, k: int) -> int
    decreases k,
{
    if k <= 0 {
        -1
    } else {
        let i = simple_elite_upto(g, k - 1);
        match outcome_at(g, k - 1) {
            Some(f) => if i < 0 {
                k - 1
            } else {
                match outcome_at(g, i) {
                    Some(b) => if better_outcome(f, b) { k - 1 } else { i },
                    None => k - 1,
                }
            },
            None => i,
        }
    }
}

/// Chooses where to put the current piece by the single-ply policy: of all
/// placements, the one that leaves the most clearable rows, and among
/// those the lowest stack, the first found on a tie. Returns the game with
/// the piece fixed there (full rows not yet cleared), or the game as it is
/// when no placement exists.
#[verifier::rlimit(40)]
pub fn eval_simple(game: &Game) -> (r: Game)
    requires
        game.pos.x < FIELD_WIDTH,
        game.pos.y < FIELD_HEIGHT,
    ensures
        ({
            let i = simple_elite_upto(*game, PLACEMENTS as int);
            &&& i < 0 ==> r.field == game.field && r.pos == game.pos && r.mino == game.mino
            &&& i >= 0 ==> match placement_at(game.field, game.pos, game.mino, i) {
                Some((q, n)) => r.pos == q && r.mino == n && r.field == fixed_field(game.field, q, n),
                None => false,
            }
        }),
        r.hold == game.hold,
        r.holded == game.holded,
        r.next@ == game.next@,
        r.next_buf@ == game.next_buf@,
        r.score == game.score,
        r.total_line == game.total_line,
{
    let mut elite: Option<(Position, MinoShape, FieldSize)> = None;
    let mut elite_lines: usize = 0;
    let mut elite_height: usize = 0;
    let ghost mut elite_index: int = -1;
    let mut k: usize = 0;
    while k < PLACEMENTS
        invariant
            0 <= k <= PLACEMENTS,
            game.pos.x < FIELD_WIDTH,
            game.pos.y < FIELD_HEIGHT,
            elite_index == simple_elite_upto(*game, k as int),
            -1 <= elite_index < k,
            elite_index < 0 ==> elite is None,
            elite_index >= 0 ==> match placement_at(game.field, game.pos, game.mino, elite_index) {
                Some((q, n)) => {
                    &&& elite == Some((q, n, fixed_field(game.field, q, n)))
                    &&& elite_lines == clearable_count(fixed_field(game.field, q, n))
                    &&& elite_height == stack_height(fixed_field(game.field, q, n))
                },
                None => false,
            },
        decreases PLACEMENTS - k,
    {
        match place(&game.field, game.pos, game.mino, k / 10, k % 10) {
            Some((q, n)) => {
                let mut f = game.field;
                fix_cells(&mut f, &q, &n);
                let lines = erase_line_count(&f);
                let height = field_height_max(&f);
                let take = match elite {
                    None => true,
                    Some(_) => lines > elite_lines || (lines == elite_lines && height < elite_height),
                };
                if take {
                    elite = Some((q, n, f));
                    elite_lines = lines;
                    elite_height = height;
                    proof {
                        elite_index = k as int;
                    }
                }
            },
            None => {},
        }
        k = k + 1;
    }
    let mut r = game.copy_state();
    match elite {
        Some((q, n, f)) => {
            r.pos = q;
            r.mino = n;
            r.field = f;
        },
        None => {},
    }
    r
}

} // verus!

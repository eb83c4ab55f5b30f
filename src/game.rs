//! The playing field, the active piece and the mutators of a game state.
use std::collections::VecDeque;
use vstd::prelude::*;

use crate::block::{BlockColor, NONE, WALL, WALL as W};
use crate::mino::{cell, gen_mino_7, is_bag, is_shape_of, random_kind, MinoKind, MinoShape, MINO_KIND_MAX};

verus! {

/// How many upcoming pieces a renderer shows.
pub const NEXT_LENGTH: usize = 3;

/// Grid width: twelve playable columns and their margins.
pub const FIELD_WIDTH: usize = 12 + 2;

/// Grid height: the playable rows and the floor below them.
pub const FIELD_HEIGHT: usize = 22 + 1;

/// One grid row.
pub type FieldRow = [BlockColor; FIELD_WIDTH];

/// The grid, row by row.
pub type FieldSize = [[BlockColor; FIELD_WIDTH]; FIELD_HEIGHT];

/// The anchor of a piece's 4x4 box in grid coordinates.
#[derive(Clone, Copy, Debug, PartialEq, Eq, Structural)]
pub struct Position {
    pub x: usize,
    pub y: usize,
}

/// The spawn position.
pub open spec fn spawn_pos() -> Position {
    Position { x: 5, y: 0 }
}

impl Position {
    /// The spawn position of every new piece.
    pub fn init() -> (r: Position)
        ensures
            r == spawn_pos(),
    {
        Position { x: 5, y: 0 }
    }
}

/// The whole state of one game.
#[derive(Clone)]
pub struct Game {
    pub field: FieldSize,
    pub pos: Position,
    pub mino: MinoShape,
    pub hold: Option<MinoShape>,
    pub holded: bool,
    pub next: VecDeque<MinoShape>,
    pub next_buf: VecDeque<MinoShape>,
    pub score: usize,
    pub total_line: usize,
}

/// The label of the grid cell in row `y`, column `x`.
pub open spec fn at(f: FieldSize, y: int, x: int) -> BlockColor {
    f[y][x]
}

/// Row `y`, column `x` lies inside the grid.
pub open spec fn in_field(y: int, x: int) -> bool {
    0 <= y < FIELD_HEIGHT && 0 <= x < FIELD_WIDTH
}

/// Cell `(r, c)` of mask `m` anchored at `(px, py)` is occupied, inside the
/// grid, and lands on an occupied grid cell.
pub open spec fn hits(f: FieldSize, px: int, py: int, m: MinoShape, r: int, c: int) -> bool {
    cell(m, r, c) != NONE && in_field(py + r, px + c) && at(f, py + r, px + c) != NONE
}

/// Mask `m` anchored at `(px, py)` overlaps an occupied cell; cells that fall
/// outside the grid are clipped, not rejected.
pub open spec fn collides_at(f: FieldSize, px: int, py: int, m: MinoShape) -> bool {
    exists|r: int, c: int| 0 <= r < 4 && 0 <= c < 4 && #[trigger] hits(f, px, py, m, r, c)
}

pub open spec fn collides(f: FieldSize, p: Position, m: MinoShape) -> bool {
    collides_at(f, p.x as int, p.y as int, m)
}

/// Whether `mino` at `pos` overlaps an occupied cell of `field`. Occupied
/// cells of the mask that fall outside the grid are ignored.
pub fn is_collision(field: &FieldSize, pos: &Position, mino: &MinoShape) -> (r: bool)
    ensures
        r == collides(*field, *pos, *mino),
{
    let mut y: usize = 0;
    while y < 4
        invariant
            0 <= y <= 4,
            forall|r: int, c: int|
                0 <= r < y && 0 <= c < 4 ==> !#[trigger] hits(*field, pos.x as int, pos.y as int, *mino, r, c),
        decreases 4 - y,
    {
        let mut x: usize = 0;
        while x < 4
            invariant
                0 <= y < 4,
                0 <= x <= 4,
                forall|r: int, c: int|
                    0 <= r < y && 0 <= c < 4 ==> !#[trigger] hits(*field, pos.x as int, pos.y as int, *mino, r, c),
                forall|c: int|
                    0 <= c < x ==> !#[trigger] hits(*field, pos.x as int, pos.y as int, *mino, y as int, c),
            decreases 4 - x,
        {
            if pos.y < FIELD_HEIGHT && y < FIELD_HEIGHT - pos.y && pos.x < FIELD_WIDTH && x < FIELD_WIDTH - pos.x {
                if mino[y][x] != NONE && field[y + pos.y][x + pos.x] != NONE {
                    assert(hits(*field, pos.x as int, pos.y as int, *mino, y as int, x as int));
                    return true;
                }
            }
            x = x + 1;
        }
        y = y + 1;
    }
    false
}

/// Moves the piece to `new_pos` if it does not collide there; otherwise
/// leaves the game as it was.
pub fn move_mino(game: &mut Game, new_pos: Position)
    ensures
        final(game).pos == (if collides(old(game).field, new_pos, old(game).mino) {
            old(game).pos
        } else {
            new_pos
        }),
        final(game).field == old(game).field,
        final(game).mino == old(game).mino,
        final(game).hold == old(game).hold,
        final(game).holded == old(game).holded,
        final(game).next == old(game).next,
        final(game).next_buf == old(game).next_buf,
        final(game).score == old(game).score,
        final(game).total_line == old(game).total_line,
{
    if !is_collision(&game.field, &new_pos, &game.mino) {
        game.pos = new_pos;
    }
}

/// Every occupied cell of `m` anchored at `p` lies inside the grid.
pub open spec fn fits(p: Position, m: MinoShape) -> bool {
    forall|r: int, c: int|
        0 <= r < 4 && 0 <= c < 4 && #[trigger] cell(m, r, c) != NONE ==> in_field(p.y + r, p.x + c)
}

/// The label of grid cell `(y, x)` once mask `m` at `p` is written into `f`.
pub open spec fn fixed_cell(f: FieldSize, p: Position, m: MinoShape, y: int, x: int) -> BlockColor {
    let r = y - p.y;
    let c = x - p.x;
    if 0 <= r < 4 && 0 <= c < 4 && cell(m, r, c) != NONE {
        cell(m, r, c)
    } else {
        at(f, y, x)
    }
}

/// `g` is `f` with mask `m` at `p` written into it.
pub open spec fn is_fixed(g: FieldSize, f: FieldSize, p: Position, m: MinoShape) -> bool {
    forall|y: int, x: int| in_field(y, x) ==> #[trigger] at(g, y, x) == fixed_cell(f, p, m, y, x)
}

/// Row `y` of the grid once mask `m` at `p` is written into `f`.
pub open spec fn fixed_row(f: FieldSize, p: Position, m: MinoShape, y: int) -> FieldRow {
    [fixed_cell(f, p, m, y, 0), fixed_cell(f, p, m, y, 1), fixed_cell(f, p, m, y, 2), fixed_cell(f, p, m, y, 3), fixed_cell(f, p, m, y, 4), fixed_cell(f, p, m, y, 5), fixed_cell(f, p, m, y, 6), fixed_cell(f, p, m, y, 7), fixed_cell(f, p, m, y, 8), fixed_cell(f, p, m, y, 9), fixed_cell(f, p, m, y, 10), fixed_cell(f, p, m, y, 11), fixed_cell(f, p, m, y, 12), fixed_cell(f, p, m, y, 13)]
}

/// The grid once mask `m` at `p` is written into `f`.
pub open spec fn fixed_field(f: FieldSize, p: Position, m: MinoShape) -> FieldSize {
    [
        fixed_row(f, p, m, 0),
        fixed_row(f, p, m, 1),
        fixed_row(f, p, m, 2),
        fixed_row(f, p, m, 3),
        fixed_row(f, p, m, 4),
        fixed_row(f, p, m, 5),
        fixed_row(f, p, m, 6),
        fixed_row(f, p, m, 7),
        fixed_row(f, p, m, 8),
        fixed_row(f, p, m, 9),
        fixed_row(f, p, m, 10),
        fixed_row(f, p, m, 11),
        fixed_row(f, p, m, 12),
        fixed_row(f, p, m, 13),
        fixed_row(f, p, m, 14),
        fixed_row(f, p, m, 15),
        fixed_row(f, p, m, 16),
        fixed_row(f, p, m, 17),
        fixed_row(f, p, m, 18),
        fixed_row(f, p, m, 19),
        fixed_row(f, p, m, 20),
        fixed_row(f, p, m, 21),
        fixed_row(f, p, m, 22),
    ]
}

/// `fixed_field` is the grid that `is_fixed` describes.
pub proof fn lemma_fixed_field_is_fixed(f: FieldSize, p: Position, m: MinoShape)
    ensures
        is_fixed(fixed_field(f, p, m), f, p, m),
{
    let g = fixed_field(f, p, m);
    assert forall|y: int, x: int| in_field(y, x) implies #[trigger] at(g, y, x) == fixed_cell(f, p, m, y, x) by {
        assert(g[y] == fixed_row(f, p, m, y));
    }
}

/// A grid that `is_fixed` describes is `fixed_field`.
pub proof fn lemma_fixed_field(g: FieldSize, f: FieldSize, p: Position, m: MinoShape)
    requires
        is_fixed(g, f, p, m),
    ensures
        fixed_field(f, p, m) == g,
{
    let h = fixed_field(f, p, m);
    lemma_fixed_field_is_fixed(f, p, m);
    assert forall|y: int| 0 <= y < FIELD_HEIGHT implies h[y] == g[y] by {
        assert forall|x: int| 0 <= x < FIELD_WIDTH implies h[y][x] == g[y][x] by {
            assert(at(h, y, x) == at(g, y, x));
        }
        assert(h[y] =~= g[y]);
    }
    assert(h =~= g);
}

/// Writes the occupied cells of `mino` at `pos` into `field`.
pub fn fix_cells(field: &mut FieldSize, pos: &Position, mino: &MinoShape)
    requires
        fits(*pos, *mino),
    ensures
        is_fixed(*final(field), *old(field), *pos, *mino),
        *final(field) == fixed_field(*old(field), *pos, *mino),
{
    let ghost f0 = *field;
    let mut y: usize = 0;
    while y < 4
        invariant
            0 <= y <= 4,
            fits(*pos, *mino),
            forall|yy: int, xx: int| in_field(yy, xx) ==>
                #[trigger] at(*field, yy, xx) == (if yy - pos.y < y { fixed_cell(f0, *pos, *mino, yy, xx) } else { at(f0, yy, xx) }),
        decreases 4 - y,
    {
        let mut x: usize = 0;
        while x < 4
            invariant
                0 <= y < 4,
                0 <= x <= 4,
                fits(*pos, *mino),
                forall|yy: int, xx: int| in_field(yy, xx) ==>
                    #[trigger] at(*field, yy, xx) == (if yy - pos.y < y || (yy - pos.y == y && xx - pos.x < x) {
                        fixed_cell(f0, *pos, *mino, yy, xx)
                    } else {
                        at(f0, yy, xx)
                    }),
            decreases 4 - x,
        {
            if mino[y][x] != NONE {
                assert(cell(*mino, y as int, x as int) != NONE);
                let ghost before = *field;
                field[y + pos.y][x + pos.x] = mino[y][x];
                assert forall|yy: int, xx: int| in_field(yy, xx) implies #[trigger] at(*field, yy, xx) == (
                    if yy == y + pos.y && xx == x + pos.x { cell(*mino, y as int, x as int) } else { at(before, yy, xx) }) by {
                    if yy != y + pos.y {
                        assert(field[yy] == before[yy]);
                    }
                }
            }
            x = x + 1;
        }
        y = y + 1;
    }
    proof {
        lemma_fixed_field(*field, f0, *pos, *mino);
    }
}

/// Writes the occupied cells of the current piece into the grid.
pub fn fix_mino(game: &mut Game)
    requires
        fits(old(game).pos, old(game).mino),
    ensures
        final(game).field == fixed_field(old(game).field, old(game).pos, old(game).mino),
        final(game).pos == old(game).pos,
        final(game).mino == old(game).mino,
        final(game).hold == old(game).hold,
        final(game).holded == old(game).holded,
        final(game).next == old(game).next,
        final(game).next_buf == old(game).next_buf,
        final(game).score == old(game).score,
        final(game).total_line == old(game).total_line,
{
    let pos = game.pos;
    let mino = game.mino;
    fix_cells(&mut game.field, &pos, &mino);
}

/// Every cell of `row` from the left wall to the right wall is occupied.
pub open spec fn row_full(row: FieldRow) -> bool {
    forall|x: int| 1 <= x < FIELD_WIDTH - 1 ==> #[trigger] row[x] != NONE
}

/// The rows that line clearing examines: below the hidden top row, above
/// the floor.
pub open spec fn play_rows(f: FieldSize) -> Seq<FieldRow> {
    f@.subrange(1, FIELD_HEIGHT - 2)
}

/// The examined rows that are not full, top to bottom.
pub open spec fn kept_rows(rows: Seq<FieldRow>) -> Seq<FieldRow> {
    rows.filter(|row: FieldRow| !row_full(row))
}

/// How many examined rows of `f` are full.
pub open spec fn full_row_count(f: FieldSize) -> nat {
    (play_rows(f).len() - kept_rows(play_rows(f)).len()) as nat
}

/// `n` copies of `row`.
pub open spec fn copies(row: FieldRow, n: nat) -> Seq<FieldRow> {
    Seq::new(n, |i: int| row)
}

/// An empty playable row: the two side walls and nothing else.
pub open spec fn blank_row() -> FieldRow {
    [NONE, WALL, NONE, NONE, NONE, NONE, NONE, NONE, NONE, NONE, NONE, NONE, WALL, NONE]
}

/// An empty playable row.
pub fn empty_row() -> (r: FieldRow)
    ensures
        r == blank_row(),
{
    [NONE, WALL, NONE, NONE, NONE, NONE, NONE, NONE, NONE, NONE, NONE, NONE, WALL, NONE]
}

/// `g` is `f` with its full rows removed: the rows that were not full keep
/// their order and settle at the bottom of the examined rows, and the space
/// they free at the top is filled with empty playable rows. The hidden top
/// row and the rows from the floor down are unchanged.
pub open spec fn is_compacted(g: FieldSize, f: FieldSize) -> bool {
    &&& play_rows(g) == copies(blank_row(), full_row_count(f)) + kept_rows(play_rows(f))
    &&& g[0] == f[0]
    &&& forall|k: int| FIELD_HEIGHT - 2 <= k < FIELD_HEIGHT ==> #[trigger] g[k] == f[k]
}

/// Whether every cell of `row` between the walls is occupied.
pub fn row_is_full(row: &FieldRow) -> (r: bool)
    ensures
        r == row_full(*row),
{
    let mut x: usize = 1;
    while x < FIELD_WIDTH - 1
        invariant
            1 <= x <= FIELD_WIDTH - 1,
            forall|k: int| 1 <= k < x ==> #[trigger] row[k] != NONE,
        decreases FIELD_WIDTH - 1 - x,
    {
        if row[x] == NONE {
            return false;
        }
        x = x + 1;
    }
    true
}

/// Moves rows `1..y` down by one; row 1 stays as it was.
fn shift_rows_down(field: &mut FieldSize, y: usize)
    requires
        1 <= y < FIELD_HEIGHT,
    ensures
        forall|k: int| 0 <= k < FIELD_HEIGHT && (k < 2 || k > y) ==> #[trigger] final(field)[k] == old(field)[k],
        forall|k: int| 2 <= k <= y ==> #[trigger] final(field)[k] == old(field)[k - 1],
{
    let mut y2: usize = y;
    while y2 >= 2
        invariant
            1 <= y2 <= y < FIELD_HEIGHT,
            forall|k: int| 0 <= k < FIELD_HEIGHT && (k <= y2 || k > y) ==> #[trigger] field[k] == old(field)[k],
            forall|k: int| y2 < k <= y ==> #[trigger] field[k] == old(field)[k - 1],
        decreases y2,
    {
        field[y2] = field[y2 - 1];
        y2 = y2 - 1;
    }
}

/// Clears every full row between the hidden top row and the floor, moving
/// the examined rows above each cleared row down by one and opening an
/// empty row at the top, and returns how many rows were cleared.
pub fn erase_line(field: &mut FieldSize) -> (count: usize)
    ensures
        count == full_row_count(*old(field)),
        is_compacted(*final(field), *old(field)),
{
    let ghost f0 = *field;
    let mut count: usize = 0;
    let mut y: usize = 1;
    while y < FIELD_HEIGHT - 2
        invariant
            1 <= y <= FIELD_HEIGHT - 2,
            count <= y - 1,
            field@.subrange(1, y as int) == copies(blank_row(), count as nat) + kept_rows(f0@.subrange(1, y as int)),
            forall|k: int| y <= k < FIELD_HEIGHT ==> #[trigger] field[k] == f0[k],
            field[0] == f0[0],
        decreases FIELD_HEIGHT - 2 - y,
    {
        let ghost before = *field;
        proof {
            assert(f0@.subrange(1, y + 1) =~= f0@.subrange(1, y as int).push(f0[y as int]));
            f0@.subrange(1, y as int).lemma_filter_push(f0[y as int], |row: FieldRow| !row_full(row));
        }
        if row_is_full(&field[y]) {
            count = count + 1;
            shift_rows_down(field, y);
            field[1] = empty_row();
            assert(field@.subrange(1, y + 1) =~= seq![blank_row()] + before@.subrange(1, y as int));
            assert(copies(blank_row(), count as nat) =~= seq![blank_row()] + copies(blank_row(), (count - 1) as nat));
            assert(field@.subrange(1, y + 1) =~= copies(blank_row(), count as nat) + kept_rows(f0@.subrange(1, y + 1)));
        } else {
            assert(field@.subrange(1, y + 1) =~= before@.subrange(1, y as int).push(before[y as int]));
            assert(field@.subrange(1, y + 1) =~= copies(blank_row(), count as nat) + kept_rows(f0@.subrange(1, y + 1)));
        }
        y = y + 1;
    }
    proof {
        assert(field@.subrange(1, y as int).len() == count + kept_rows(play_rows(f0)).len());
    }
    count
}

/// `m` turned a quarter to the right: row `r`, column `c` of the result is
/// row `3 - c`, column `r` of `m`.
pub open spec fn right_turn(m: MinoShape) -> MinoShape {
    [
        [m[3][0], m[2][0], m[1][0], m[0][0]],
        [m[3][1], m[2][1], m[1][1], m[0][1]],
        [m[3][2], m[2][2], m[1][2], m[0][2]],
        [m[3][3], m[2][3], m[1][3], m[0][3]],
    ]
}

/// `m` turned a quarter to the left: row `r`, column `c` of the result is
/// row `c`, column `3 - r` of `m`.
pub open spec fn left_turn(m: MinoShape) -> MinoShape {
    [
        [m[0][3], m[1][3], m[2][3], m[3][3]],
        [m[0][2], m[1][2], m[2][2], m[3][2]],
        [m[0][1], m[1][1], m[2][1], m[3][1]],
        [m[0][0], m[1][0], m[2][0], m[3][0]],
    ]
}

/// The positions tried, in order, when a turned piece collides: one cell up,
/// right, down and left. A step past the grid's zero edge stays in place.
pub open spec fn kick_candidate(p: Position, i: int) -> Position {
    if i == 0 {
        Position { x: p.x, y: if p.y == 0 { p.y } else { (p.y - 1) as usize } }
    } else if i == 1 {
        Position { x: (p.x + 1) as usize, y: p.y }
    } else if i == 2 {
        Position { x: p.x, y: (p.y + 1) as usize }
    } else {
        Position { x: if p.x == 0 { p.x } else { (p.x - 1) as usize }, y: p.y }
    }
}

/// The first candidate of `kick_candidate` at which `m` does not collide.
pub open spec fn kick_target(f: FieldSize, p: Position, m: MinoShape) -> Option<Position> {
    if !collides(f, kick_candidate(p, 0), m) {
        Some(kick_candidate(p, 0))
    } else if !collides(f, kick_candidate(p, 1), m) {
        Some(kick_candidate(p, 1))
    } else if !collides(f, kick_candidate(p, 2), m) {
        Some(kick_candidate(p, 2))
    } else if !collides(f, kick_candidate(p, 3), m) {
        Some(kick_candidate(p, 3))
    } else {
        None
    }
}

/// Neither coordinate is at the top of its range, so that a kick can step.
pub open spec fn steppable(p: Position) -> bool {
    p.x < usize::MAX && p.y < usize::MAX
}

/// Finds the first kick position, in the order up, right, down, left, at
/// which `mino` does not collide.
pub fn super_rotation(field: &FieldSize, pos: &Position, mino: &MinoShape) -> (r: Result<Position, ()>)
    requires
        steppable(*pos),
    ensures
        r == (match kick_target(*field, *pos, *mino) {
            Some(q) => Ok(q),
            None => Err(()),
        }),
{
    let diff_pos = [
        Position { x: pos.x, y: if pos.y == 0 { pos.y } else { pos.y - 1 } },
        Position { x: pos.x + 1, y: pos.y },
        Position { x: pos.x, y: pos.y + 1 },
        Position { x: if pos.x == 0 { pos.x } else { pos.x - 1 }, y: pos.y },
    ];
    let mut i: usize = 0;
    while i < 4
        invariant
            0 <= i <= 4,
            forall|k: int| 0 <= k < 4 ==> #[trigger] diff_pos[k] == kick_candidate(*pos, k),
            forall|k: int| 0 <= k < i ==> collides(*field, #[trigger] kick_candidate(*pos, k), *mino),
        decreases 4 - i,
    {
        if !is_collision(field, &diff_pos[i], mino) {
            return Ok(diff_pos[i]);
        }
        i = i + 1;
    }
    Err(())
}

/// Where the piece and its mask stand after trying to turn into mask `n`:
/// in place if `n` fits there, else at the first kick position that fits,
/// else unchanged.
pub open spec fn turned(f: FieldSize, p: Position, m: MinoShape, n: MinoShape) -> (Position, MinoShape) {
    if !collides(f, p, n) {
        (p, n)
    } else {
        match kick_target(f, p, n) {
            Some(q) => (q, n),
            None => (p, m),
        }
    }
}

/// The game after a turn, in either direction, that produced mask `n`.
pub open spec fn is_turned(g: Game, g0: Game, n: MinoShape) -> bool {
    &&& (g.pos, g.mino) == turned(g0.field, g0.pos, g0.mino, n)
    &&& g.field == g0.field
    &&& g.hold == g0.hold
    &&& g.holded == g0.holded
    &&& g.next == g0.next
    &&& g.next_buf == g0.next_buf
    &&& g.score == g0.score
    &&& g.total_line == g0.total_line
}

fn turn_into(game: &mut Game, new_shape: MinoShape)
    requires
        steppable(old(game).pos),
    ensures
        is_turned(*final(game), *old(game), new_shape),
{
    if !is_collision(&game.field, &game.pos, &new_shape) {
        game.mino = new_shape;
    } else if let Ok(new_pos) = super_rotation(&game.field, &game.pos, &new_shape) {
        game.pos = new_pos;
        game.mino = new_shape;
    }
}

/// Turns the piece a quarter to the right, with wall kicks.
pub fn rotate_right(game: &mut Game)
    requires
        steppable(old(game).pos),
    ensures
        is_turned(*final(game), *old(game), right_turn(old(game).mino)),
{
    let m = game.mino;
    let new_shape: MinoShape = [
        [m[3][0], m[2][0], m[1][0], m[0][0]],
        [m[3][1], m[2][1], m[1][1], m[0][1]],
        [m[3][2], m[2][2], m[1][2], m[0][2]],
        [m[3][3], m[2][3], m[1][3], m[0][3]],
    ];
    turn_into(game, new_shape);
}

/// Turns the piece a quarter to the left, with wall kicks.
pub fn rotate_left(game: &mut Game)
    requires
        steppable(old(game).pos),
    ensures
        is_turned(*final(game), *old(game), left_turn(old(game).mino)),
{
    let m = game.mino;
    let new_shape: MinoShape = [
        [m[0][3], m[1][3], m[2][3], m[3][3]],
        [m[0][2], m[1][2], m[2][2], m[3][2]],
        [m[0][1], m[1][1], m[2][1], m[3][1]],
        [m[0][0], m[1][0], m[2][0], m[3][0]],
    ];
    turn_into(game, new_shape);
}

/// Four quarter turns to the right give the mask back.
pub proof fn lemma_four_right_turns(m: MinoShape)
    ensures
        right_turn(right_turn(right_turn(right_turn(m)))) == m,
{
    let m4 = right_turn(right_turn(right_turn(right_turn(m))));
    assert forall|r: int| 0 <= r < 4 implies m4[r] == m[r] by {
        assert(m4[r] =~= m[r]);
    }
    assert(m4 =~= m);
}

/// Four quarter turns to the left give the mask back.
pub proof fn lemma_four_left_turns(m: MinoShape)
    ensures
        left_turn(left_turn(left_turn(left_turn(m)))) == m,
{
    let m4 = left_turn(left_turn(left_turn(left_turn(m))));
    assert forall|r: int| 0 <= r < 4 implies m4[r] == m[r] by {
        assert(m4[r] =~= m[r]);
    }
    assert(m4 =~= m);
}

/// A right turn undoes a left turn.
pub proof fn lemma_right_undoes_left(m: MinoShape)
    ensures
        right_turn(left_turn(m)) == m,
{
    let m2 = right_turn(left_turn(m));
    assert forall|r: int| 0 <= r < 4 implies m2[r] == m[r] by {
        assert(m2[r] =~= m[r]);
    }
    assert(m2 =~= m);
}

/// Somewhere below `p`, at most one row past the grid, `m` collides: a drop
/// from `p` stops.
pub open spec fn lands(f: FieldSize, p: Position, m: MinoShape) -> bool {
    exists|d: int| p.y < d <= FIELD_HEIGHT && #[trigger] collides_at(f, p.x as int, d, m)
}

/// `q` is where `m` comes to rest when dropped from `p`: straight down, to
/// the last row before the first collision.
pub open spec fn is_drop_of(q: Position, f: FieldSize, p: Position, m: MinoShape) -> bool {
    &&& q.x == p.x
    &&& p.y <= q.y
    &&& collides_at(f, q.x as int, q.y + 1, m)
    &&& forall|k: int| p.y < k <= q.y ==> !#[trigger] collides_at(f, p.x as int, k, m)
}

/// Where `m` comes to rest when dropped from `p`.
pub open spec fn drop_target(f: FieldSize, p: Position, m: MinoShape) -> Position {
    choose|q: Position| is_drop_of(q, f, p, m)
}

/// A drop has one resting position.
pub proof fn lemma_drop_target(q: Position, f: FieldSize, p: Position, m: MinoShape)
    requires
        is_drop_of(q, f, p, m),
    ensures
        drop_target(f, p, m) == q,
{
    let q2 = drop_target(f, p, m);
    if q2.y < q.y {
        assert(!collides_at(f, p.x as int, q2.y + 1, m));
    }
    if q2.y > q.y {
        assert(!collides_at(f, p.x as int, q.y + 1, m));
    }
}

/// Whether a drop of `mino` from `pos` stops.
pub fn drop_stops(field: &FieldSize, pos: &Position, mino: &MinoShape) -> (r: bool)
    ensures
        r == lands(*field, *pos, *mino),
{
    if pos.y >= FIELD_HEIGHT {
        proof {
            assert forall|d: int| pos.y < d <= FIELD_HEIGHT implies !#[trigger] collides_at(*field, pos.x as int, d, *mino) by {
                assert(false);
            }
        }
        return false;
    }
    let mut d: usize = pos.y + 1;
    while d <= FIELD_HEIGHT
        invariant
            pos.y < d <= FIELD_HEIGHT + 1,
            forall|k: int| pos.y < k < d ==> !#[trigger] collides_at(*field, pos.x as int, k, *mino),
        decreases FIELD_HEIGHT + 1 - d,
    {
        if is_collision(field, &Position { x: pos.x, y: d }, mino) {
            return true;
        }
        d = d + 1;
    }
    false
}

/// Where `mino` would come to rest if dropped from `pos`.
pub fn ghost_pos(field: &FieldSize, pos: &Position, mino: &MinoShape) -> (r: Position)
    requires
        lands(*field, *pos, *mino),
    ensures
        is_drop_of(r, *field, *pos, *mino),
{
    let ghost d = choose|d: int| pos.y < d <= FIELD_HEIGHT && #[trigger] collides_at(*field, pos.x as int, d, *mino);
    let mut ghost_pos = *pos;
    loop
        invariant
            ghost_pos.x == pos.x,
            pos.y <= ghost_pos.y < d <= FIELD_HEIGHT,
            collides_at(*field, pos.x as int, d, *mino),
            forall|k: int| pos.y < k <= ghost_pos.y ==> !#[trigger] collides_at(*field, pos.x as int, k, *mino),
        ensures
            ghost_pos.x == pos.x,
            pos.y <= ghost_pos.y,
            collides_at(*field, pos.x as int, ghost_pos.y + 1, *mino),
            forall|k: int| pos.y < k <= ghost_pos.y ==> !#[trigger] collides_at(*field, pos.x as int, k, *mino),
        decreases d - ghost_pos.y,
    {
        let new_pos = Position { x: ghost_pos.x, y: ghost_pos.y + 1 };
        if is_collision(field, &new_pos, mino) {
            break;
        }
        ghost_pos.y = ghost_pos.y + 1;
    }
    ghost_pos
}

/// Drops the piece straight down as far as it goes.
pub fn hard_drop(game: &mut Game)
    requires
        lands(old(game).field, old(game).pos, old(game).mino),
    ensures
        is_drop_of(final(game).pos, old(game).field, old(game).pos, old(game).mino),
        final(game).field == old(game).field,
        final(game).mino == old(game).mino,
        final(game).hold == old(game).hold,
        final(game).holded == old(game).holded,
        final(game).next == old(game).next,
        final(game).next_buf == old(game).next_buf,
        final(game).score == old(game).score,
        final(game).total_line == old(game).total_line,
{
    let new_pos = ghost_pos(&game.field, &game.pos, &game.mino);
    game.pos = new_pos;
}

/// A dropped piece can be dropped again, and stays where it is.
pub proof fn lemma_hard_drop_idempotent(f: FieldSize, p: Position, m: MinoShape, q: Position)
    requires
        is_drop_of(q, f, p, m),
    ensures
        lands(f, q, m),
        forall|q2: Position| #[trigger] is_drop_of(q2, f, q, m) ==> q2 == q,
{
    let (r, c) = choose|r: int, c: int| 0 <= r < 4 && 0 <= c < 4 && #[trigger] hits(f, q.x as int, q.y + 1, m, r, c);
    assert(q.y + 1 <= FIELD_HEIGHT);
    assert(collides_at(f, q.x as int, q.y + 1, m));
    assert forall|q2: Position| #[trigger] is_drop_of(q2, f, q, m) implies q2 == q by {
        if q2.y > q.y {
            assert(!collides_at(f, q.x as int, q.y + 1, m));
        }
    }
}

/// What one lock awards for clearing `n` rows at once.
pub open spec fn score_of(n: nat) -> nat {
    if n == 0 {
        0
    } else if n == 1 {
        1
    } else if n == 2 {
        5
    } else if n == 3 {
        25
    } else {
        100
    }
}

/// The score for clearing `lines` rows with one lock.
pub fn line_score(lines: usize) -> (r: usize)
    requires
        lines <= 4,
    ensures
        r == score_of(lines as nat),
{
    if lines == 0 {
        0
    } else if lines == 1 {
        1
    } else if lines == 2 {
        5
    } else if lines == 3 {
        25
    } else {
        100
    }
}

/// `next` and `buf` are the queues after one piece has been drawn from
/// `next0` while the reserve `buf0` was empty: the reserve was refilled from
/// a fresh bag and its first piece moved to the queue.
pub open spec fn refilled(next: Seq<MinoShape>, buf: Seq<MinoShape>, next0: Seq<MinoShape>) -> bool {
    exists|b: Seq<MinoShape>|
        #![trigger is_bag(b)]
        is_bag(b) && b.len() == MINO_KIND_MAX && next == next0.drop_first().push(b[0]) && buf == b.drop_first()
}

/// The queues after one piece has been drawn from `next0`: the reserve's
/// first piece joins the queue's end, or, with an empty reserve, a fresh bag
/// refills it first.
pub open spec fn advanced(next: Seq<MinoShape>, buf: Seq<MinoShape>, next0: Seq<MinoShape>, buf0: Seq<MinoShape>) -> bool {
    if buf0.len() > 0 {
        next == next0.drop_first().push(buf0[0]) && buf == buf0.drop_first()
    } else {
        refilled(next, buf, next0)
    }
}

/// Takes the next piece from the queue to the spawn position and refills
/// the queue; fails if the new piece collides there.
pub fn spawn_mino(game: &mut Game) -> (r: Result<(), ()>)
    requires
        old(game).next@.len() > 0,
    ensures
        final(game).pos == spawn_pos(),
        final(game).mino == old(game).next@[0],
        advanced(final(game).next@, final(game).next_buf@, old(game).next@, old(game).next_buf@),
        final(game).next@.len() == old(game).next@.len(),
        r is Err <==> collides(final(game).field, spawn_pos(), final(game).mino),
        final(game).field == old(game).field,
        final(game).hold == old(game).hold,
        final(game).holded == old(game).holded,
        final(game).score == old(game).score,
        final(game).total_line == old(game).total_line,
{
    game.pos = Position::init();
    if let Some(m) = game.next.pop_front() {
        game.mino = m;
    }
    assert(old(game).next@.drop_first() =~= game.next@);
    if let Some(next) = game.next_buf.pop_front() {
        game.next.push_back(next);
        assert(game.next_buf@ =~= old(game).next_buf@.drop_first());
    } else {
        let bag = gen_mino_7();
        let ghost b = bag@;
        let mut buf: VecDeque<MinoShape> = VecDeque::new();
        let mut i: usize = 1;
        while i < MINO_KIND_MAX
            invariant
                1 <= i <= MINO_KIND_MAX,
                b == bag@,
                buf@ == b.subrange(1, i as int),
            decreases MINO_KIND_MAX - i,
        {
            buf.push_back(bag[i]);
            assert(buf@ =~= b.subrange(1, i + 1));
            i = i + 1;
        }
        game.next_buf = buf;
        game.next.push_back(bag[0]);
        assert(game.next_buf@ =~= b.drop_first());
        assert(is_bag(b));
    }
    if is_collision(&game.field, &game.pos, &game.mino) {
        Err(())
    } else {
        Ok(())
    }
}

/// The grid with the piece fixed into it has at most four full rows, so
/// the score table covers the lock.
pub open spec fn lock_in_table(g: Game) -> bool {
    full_row_count(fixed_field(g.field, g.pos, g.mino)) <= 4
}

/// How many rows locking the current piece would clear.
pub fn lock_clear_count(game: &Game) -> (r: usize)
    requires
        fits(game.pos, game.mino),
    ensures
        r == full_row_count(fixed_field(game.field, game.pos, game.mino)),
{
    let mut field = game.field;
    fix_cells(&mut field, &game.pos, &game.mino);
    erase_line(&mut field)
}

/// The game after the piece has been locked with grid `g` (fixed and
/// compacted) and `n` rows cleared, before the next piece is drawn.
pub open spec fn locked(g: Game, g0: Game) -> bool {
    let fixed = fixed_field(g0.field, g0.pos, g0.mino);
    let n = full_row_count(fixed);
    &&& is_compacted(g.field, fixed)
    &&& g.score == g0.score + score_of(n)
    &&& g.total_line == g0.total_line + n
    &&& g.hold == g0.hold
}

/// `g` is `g0` after its piece was locked and the next piece drawn; the
/// new piece collides at the spawn position exactly on a top-out.
pub open spec fn is_landed(g: Game, g0: Game, topped_out: bool) -> bool {
    &&& locked(g, g0)
    &&& g.pos == spawn_pos()
    &&& g.mino == g0.next@[0]
    &&& advanced(g.next@, g.next_buf@, g0.next@, g0.next_buf@)
    &&& g.next@.len() == g0.next@.len()
    &&& topped_out == collides(g.field, spawn_pos(), g.mino)
    &&& !g.holded
}

/// Locks the piece: fixes it into the grid, clears full rows, adds the
/// score and the cleared-row count, resets the hold flag, and draws the
/// next piece. Fails on a top-out: the new piece collides at the spawn
/// position.
pub fn landing(game: &mut Game) -> (r: Result<(), ()>)
    requires
        fits(old(game).pos, old(game).mino),
        lock_in_table(*old(game)),
        old(game).next@.len() > 0,
        old(game).score <= usize::MAX - 100,
        old(game).total_line <= usize::MAX - FIELD_HEIGHT,
    ensures
        is_landed(*final(game), *old(game), r is Err),
{
    fix_mino(game);
    let line_count = erase_line(&mut game.field);
    game.score = game.score + line_score(line_count);
    game.total_line = game.total_line + line_count;
    game.holded = false;
    spawn_mino(game)
}

/// The piece can be locked: it lies inside the grid, the rows it would
/// fill are covered by the score table, the queue has a piece to draw, and
/// the counters have room for the award.
pub open spec fn lockable(g: Game) -> bool {
    &&& fits(g.pos, g.mino)
    &&& lock_in_table(g)
    &&& g.next@.len() > 0
    &&& g.score <= usize::MAX - 100
    &&& g.total_line <= usize::MAX - FIELD_HEIGHT
}

/// Locks the piece as `landing` does when it can be locked; a piece that
/// cannot be locked ends the game as a top-out does, and the game is left
/// as it was.
pub fn lock_piece(game: &mut Game) -> (r: Result<(), ()>)
    ensures
        lockable(*old(game)) ==> is_landed(*final(game), *old(game), r is Err),
        !lockable(*old(game)) ==> r is Err && *final(game) == *old(game),
{
    if game.next.len() == 0 || !fits_in_field(&game.pos, &game.mino) {
        return Err(());
    }
    if lock_clear_count(game) > 4 || game.score > usize::MAX - 100 || game.total_line > usize::MAX - FIELD_HEIGHT {
        return Err(());
    }
    landing(game)
}

/// One gravity step: the piece moves down a row if it is free there, and
/// is locked otherwise. Fails when the game is over.
pub fn gravity_step(game: &mut Game) -> (r: Result<(), ()>)
    requires
        old(game).pos.y < usize::MAX,
    ensures
        ({
            let below = Position { x: old(game).pos.x, y: (old(game).pos.y + 1) as usize };
            if !collides(old(game).field, below, old(game).mino) {
                &&& r is Ok
                &&& *final(game) == (Game { pos: below, ..*old(game) })
            } else if lockable(*old(game)) {
                is_landed(*final(game), *old(game), r is Err)
            } else {
                r is Err && *final(game) == *old(game)
            }
        }),
{
    let below = Position { x: game.pos.x, y: game.pos.y + 1 };
    if !is_collision(&game.field, &below, &game.mino) {
        game.pos = below;
        Ok(())
    } else {
        lock_piece(game)
    }
}

/// Stores the piece in the hold slot, once per piece: swaps it with the
/// held piece and returns to the spawn position, or, with an empty slot,
/// stores it and draws the next piece.
pub fn hold(game: &mut Game)
    requires
        !old(game).holded && old(game).hold is None ==> old(game).next@.len() > 0,
    ensures
        old(game).holded ==> *final(game) == *old(game),
        !old(game).holded ==> {
            &&& final(game).holded
            &&& final(game).hold == Some(old(game).mino)
            &&& final(game).pos == spawn_pos()
            &&& final(game).field == old(game).field
            &&& final(game).score == old(game).score
            &&& final(game).total_line == old(game).total_line
            &&& match old(game).hold {
                Some(h) => {
                    &&& final(game).mino == h
                    &&& final(game).next == old(game).next
                    &&& final(game).next_buf == old(game).next_buf
                },
                None => {
                    &&& final(game).mino == old(game).next@[0]
                    &&& advanced(final(game).next@, final(game).next_buf@, old(game).next@, old(game).next_buf@)
                    &&& final(game).next@.len() == old(game).next@.len()
                },
            }
        },
{
    if game.holded {
        return;
    }
    if let Some(h) = game.hold {
        game.hold = Some(game.mino);
        game.mino = h;
        game.pos = Position::init();
    } else {
        game.hold = Some(game.mino);
        let _ = spawn_mino(game);
    }
    game.holded = true;
}

/// The label of cell `(y, x)` of the starting grid: walls on the left,
/// right and bottom of the playable area, and on both sides of the spawn
/// opening in the hidden top row.
pub open spec fn initial_cell(y: int, x: int) -> BlockColor {
    if y == 0 {
        if (1 <= x <= 3) || (10 <= x <= 12) { WALL } else { NONE }
    } else if 1 <= y <= 20 {
        if x == 1 || x == 12 { WALL } else { NONE }
    } else if y == 21 {
        if 1 <= x <= 12 { WALL } else { NONE }
    } else {
        NONE
    }
}

/// `f` is the starting grid.
pub open spec fn is_initial_field(f: FieldSize) -> bool {
    forall|y: int, x: int| in_field(y, x) ==> #[trigger] at(f, y, x) == initial_cell(y, x)
}

/// The starting grid.
pub fn initial_field() -> (r: FieldSize)
    ensures
        is_initial_field(r),
{
    [
        [0, W, W, W, 0, 0, 0, 0, 0, 0, W, W, W, 0],
        [0, W, 0, 0, 0, 0, 0, 0, 0, 0, 0, 0, W, 0],
        [0, W, 0, 0, 0, 0, 0, 0, 0, 0, 0, 0, W, 0],
        [0, W, 0, 0, 0, 0, 0, 0, 0, 0, 0, 0, W, 0],
        [0, W, 0, 0, 0, 0, 0, 0, 0, 0, 0, 0, W, 0],
        [0, W, 0, 0, 0, 0, 0, 0, 0, 0, 0, 0, W, 0],
        [0, W, 0, 0, 0, 0, 0, 0, 0, 0, 0, 0, W, 0],
        [0, W, 0, 0, 0, 0, 0, 0, 0, 0, 0, 0, W, 0],
        [0, W, 0, 0, 0, 0, 0, 0, 0, 0, 0, 0, W, 0],
        [0, W, 0, 0, 0, 0, 0, 0, 0, 0, 0, 0, W, 0],
        [0, W, 0, 0, 0, 0, 0, 0, 0, 0, 0, 0, W, 0],
        [0, W, 0, 0, 0, 0, 0, 0, 0, 0, 0, 0, W, 0],
        [0, W, 0, 0, 0, 0, 0, 0, 0, 0, 0, 0, W, 0],
        [0, W, 0, 0, 0, 0, 0, 0, 0, 0, 0, 0, W, 0],
        [0, W, 0, 0, 0, 0, 0, 0, 0, 0, 0, 0, W, 0],
        [0, W, 0, 0, 0, 0, 0, 0, 0, 0, 0, 0, W, 0],
        [0, W, 0, 0, 0, 0, 0, 0, 0, 0, 0, 0, W, 0],
        [0, W, 0, 0, 0, 0, 0, 0, 0, 0, 0, 0, W, 0],
        [0, W, 0, 0, 0, 0, 0, 0, 0, 0, 0, 0, W, 0],
        [0, W, 0, 0, 0, 0, 0, 0, 0, 0, 0, 0, W, 0],
        [0, W, 0, 0, 0, 0, 0, 0, 0, 0, 0, 0, W, 0],
        [0, W, W, W, W, W, W, W, W, W, W, W, W, 0],
        [0, 0, 0, 0, 0, 0, 0, 0, 0, 0, 0, 0, 0, 0],
    ]
}

/// The 4x4 box at the spawn position holds no occupied cell.
pub open spec fn spawn_area_clear(f: FieldSize) -> bool {
    forall|y: int, x: int|
        0 <= y < 4 && spawn_pos().x <= x < spawn_pos().x + 4 ==> #[trigger] at(f, y, x) == NONE
}

/// On a grid whose spawn box is clear, no piece of the catalog collides at
/// the spawn position.
pub proof fn lemma_spawn_never_collides(f: FieldSize, kind: MinoKind, m: MinoShape)
    requires
        spawn_area_clear(f),
        is_shape_of(m, kind),
    ensures
        !collides(f, spawn_pos(), m),
{
    assert forall|r: int, c: int| 0 <= r < 4 && 0 <= c < 4 implies !#[trigger] hits(f, 5, 0, m, r, c) by {
        assert(at(f, r, 5 + c) == NONE);
    }
}

/// The starting grid's spawn box is clear.
pub proof fn lemma_initial_spawn_area_clear(f: FieldSize)
    requires
        is_initial_field(f),
    ensures
        spawn_area_clear(f),
{
    assert forall|y: int, x: int| 0 <= y < 4 && 5 <= x < 9 implies #[trigger] at(f, y, x) == NONE by {
        assert(in_field(y, x));
    }
}

impl Game {
    /// A fresh game: the starting grid, an empty hold slot, a zero score, and
    /// the first piece of a shuffled bag at the spawn position, with the rest
    /// of that bag and the first piece of a second bag queued.
    pub fn new() -> (r: Game)
        ensures
            is_initial_field(r.field),
            r.pos == spawn_pos(),
            r.hold is None,
            !r.holded,
            r.score == 0,
            r.total_line == 0,
            r.next@.len() == MINO_KIND_MAX,
            exists|b: Seq<MinoShape>|
                #![trigger is_bag(b)]
                is_bag(b) && b.len() == MINO_KIND_MAX && r.mino == b[0] && refilled(r.next@, r.next_buf@, b),
            !collides(r.field, r.pos, r.mino),
    {
        let field = initial_field();
        let bag = gen_mino_7();
        let mut next: VecDeque<MinoShape> = VecDeque::new();
        let mut i: usize = 0;
        while i < MINO_KIND_MAX
            invariant
                0 <= i <= MINO_KIND_MAX,
                next@ == bag@.subrange(0, i as int),
            decreases MINO_KIND_MAX - i,
        {
            next.push_back(bag[i]);
            assert(next@ =~= bag@.subrange(0, i + 1));
            i = i + 1;
        }
        assert(next@ =~= bag@);
        let mut game = Game {
            field,
            pos: Position::init(),
            mino: random_kind().shape(),
            hold: None,
            holded: false,
            next,
            next_buf: VecDeque::new(),
            score: 0,
            total_line: 0,
        };
        let _ = spawn_mino(&mut game);
        proof {
            let b = bag@;
            assert(is_bag(b));
            let ks = choose|ks: Seq<MinoKind>|
                #![trigger ks.to_multiset()]
                ks.len() == b.len() && ks.to_multiset() == crate::mino::all_kinds().to_multiset() && forall|i: int|
                    0 <= i < b.len() ==> is_shape_of(#[trigger] b[i], ks[i]);
            assert(is_shape_of(b[0], ks[0]));
            lemma_initial_spawn_area_clear(game.field);
            lemma_spawn_never_collides(game.field, ks[0], game.mino);
        }
        game
    }

    /// A copy of this game.
    pub fn copy_state(&self) -> (r: Game)
        ensures
            r.field == self.field,
            r.pos == self.pos,
            r.mino == self.mino,
            r.hold == self.hold,
            r.holded == self.holded,
            r.next@ == self.next@,
            r.next_buf@ == self.next_buf@,
            r.score == self.score,
            r.total_line == self.total_line,
    {
        let mut next: VecDeque<MinoShape> = VecDeque::new();
        let mut i: usize = 0;
        while i < self.next.len()
            invariant
                0 <= i <= self.next@.len(),
                next@ == self.next@.subrange(0, i as int),
            decreases self.next@.len() - i,
        {
            next.push_back(self.next[i]);
            assert(next@ =~= self.next@.subrange(0, i + 1));
            i = i + 1;
        }
        let mut next_buf: VecDeque<MinoShape> = VecDeque::new();
        let mut j: usize = 0;
        while j < self.next_buf.len()
            invariant
                0 <= j <= self.next_buf@.len(),
                next_buf@ == self.next_buf@.subrange(0, j as int),
            decreases self.next_buf@.len() - j,
        {
            next_buf.push_back(self.next_buf[j]);
            assert(next_buf@ =~= self.next_buf@.subrange(0, j + 1));
            j = j + 1;
        }
        assert(next@ =~= self.next@);
        assert(next_buf@ =~= self.next_buf@);
        Game {
            field: self.field,
            pos: self.pos,
            mino: self.mino,
            hold: self.hold,
            holded: self.holded,
            next,
            next_buf,
            score: self.score,
            total_line: self.total_line,
        }
    }
}

/// Whether every occupied cell of `mino` at `pos` lies inside the grid.
pub fn fits_in_field(pos: &Position, mino: &MinoShape) -> (r: bool)
    ensures
        r == fits(*pos, *mino),
{
    let mut y: usize = 0;
    while y < 4
        invariant
            0 <= y <= 4,
            forall|r: int, c: int|
                0 <= r < y && 0 <= c < 4 && #[trigger] cell(*mino, r, c) != NONE ==> in_field(pos.y + r, pos.x + c),
        decreases 4 - y,
    {
        let mut x: usize = 0;
        while x < 4
            invariant
                0 <= y < 4,
                0 <= x <= 4,
                forall|r: int, c: int|
                    0 <= r < y && 0 <= c < 4 && #[trigger] cell(*mino, r, c) != NONE ==> in_field(pos.y + r, pos.x + c),
                forall|c: int|
                    0 <= c < x && #[trigger] cell(*mino, y as int, c) != NONE ==> in_field(pos.y + y, pos.x + c),
            decreases 4 - x,
        {
            if mino[y][x] != NONE {
                if pos.y >= FIELD_HEIGHT || y >= FIELD_HEIGHT - pos.y || pos.x >= FIELD_WIDTH || x >= FIELD_WIDTH - pos.x {
                    assert(cell(*mino, y as int, x as int) != NONE);
                    return false;
                }
            }
            x = x + 1;
        }
        y = y + 1;
    }
    true
}

/// How many of the first `n` playable cells (from column 2) of `row` are
/// occupied.
pub open spec fn row_blocks_upto(row: FieldRow, n: int) -> int
    decreases n,
{
    if n <= 0 {
        0
    } else {
        row_blocks_upto(row, n - 1) + if row[1 + n] != NONE { 1int } else { 0int }
    }
}

/// How many playable cells of `row` are occupied.
pub open spec fn row_blocks(row: FieldRow) -> int {
    row_blocks_upto(row, FIELD_WIDTH - 4)
}

/// How many playable cells of `rows` are occupied.
pub open spec fn rows_blocks(rows: Seq<FieldRow>) -> int
    decreases rows.len(),
{
    if rows.len() == 0 {
        0
    } else {
        rows_blocks(rows.drop_last()) + row_blocks(rows.last())
    }
}

proof fn lemma_full_row_blocks(row: FieldRow, n: int)
    requires
        row_full(row),
        0 <= n <= FIELD_WIDTH - 4,
    ensures
        row_blocks_upto(row, n) == n,
    decreases n,
{
    if n > 0 {
        lemma_full_row_blocks(row, n - 1);
        assert(row[1 + n] != NONE);
    }
}

proof fn lemma_rows_blocks_add(a: Seq<FieldRow>, b: Seq<FieldRow>)
    ensures
        rows_blocks(a + b) == rows_blocks(a) + rows_blocks(b),
    decreases b.len(),
{
    if b.len() == 0 {
        assert(a + b =~= a);
    } else {
        lemma_rows_blocks_add(a, b.drop_last());
        assert((a + b).drop_last() =~= a + b.drop_last());
    }
}

proof fn lemma_empty_copies_blocks(row: FieldRow, n: nat)
    requires
        row_blocks(row) == 0,
    ensures
        rows_blocks(copies(row, n)) == 0,
    decreases n,
{
    if n > 0 {
        assert(copies(row, n).drop_last() =~= copies(row, (n - 1) as nat));
        lemma_empty_copies_blocks(row, (n - 1) as nat);
    }
}

proof fn lemma_kept_blocks(rows: Seq<FieldRow>)
    ensures
        rows_blocks(rows) == rows_blocks(kept_rows(rows)) + (FIELD_WIDTH - 4) * (rows.len() - kept_rows(rows).len()),
        kept_rows(rows).len() <= rows.len(),
    decreases rows.len(),
{
    if rows.len() > 0 {
        let init = rows.drop_last();
        let x = rows.last();
        lemma_kept_blocks(init);
        assert(init.push(x) =~= rows);
        init.lemma_filter_push(x, |row: FieldRow| !row_full(row));
        assert(rows.drop_last() == init);
        assert(rows_blocks(rows) == rows_blocks(init) + row_blocks(x));
        let a = rows_blocks(kept_rows(init));
        let n0 = init.len() - kept_rows(init).len();
        if row_full(x) {
            lemma_full_row_blocks(x, FIELD_WIDTH - 4);
            assert(kept_rows(rows) == kept_rows(init));
            assert(rows_blocks(rows) == a + 10 * n0 + 10);
            assert(10 * n0 + 10 == 10 * (n0 + 1));
        } else {
            assert(kept_rows(rows) == kept_rows(init).push(x));
            assert(kept_rows(rows).drop_last() =~= kept_rows(init));
            assert(rows_blocks(kept_rows(rows)) == a + row_blocks(x));
        }
    }
}

/// Clearing full rows keeps every block of the rows that were not full and
/// takes away exactly the ten playable blocks of each cleared row; the
/// rows opened at the top are empty, and below them no row is full.
pub proof fn lemma_compaction_keeps_blocks(g: FieldSize, f: FieldSize)
    requires
        is_compacted(g, f),
    ensures
        rows_blocks(play_rows(g)) == rows_blocks(kept_rows(play_rows(f))),
        rows_blocks(play_rows(g)) == rows_blocks(play_rows(f)) - (FIELD_WIDTH - 4) * full_row_count(f),
        forall|i: int| 0 <= i < full_row_count(f) ==> #[trigger] play_rows(g)[i] == blank_row(),
        forall|i: int|
            full_row_count(f) <= i < play_rows(g).len() ==> !row_full(#[trigger] play_rows(g)[i]),
{
    let k = full_row_count(f);
    let kept = kept_rows(play_rows(f));
    reveal_with_fuel(row_blocks_upto, 11);
    assert(row_blocks(blank_row()) == 0);
    lemma_rows_blocks_add(copies(blank_row(), k), kept);
    lemma_empty_copies_blocks(blank_row(), k);
    lemma_kept_blocks(play_rows(f));
    assert forall|i: int| k <= i < play_rows(g).len() implies !row_full(#[trigger] play_rows(g)[i]) by {
        assert(play_rows(g)[i] == kept[i - k]);
        play_rows(f).lemma_filter_pred(|row: FieldRow| !row_full(row), i - k);
    }
}

/// The walls around the playable area stand: the left and right wall of
/// every examined row, and the floor.
pub open spec fn walls_intact(f: FieldSize) -> bool {
    &&& forall|y: int| 1 <= y < FIELD_HEIGHT - 2 ==> #[trigger] at(f, y, 1) == WALL && at(f, y, FIELD_WIDTH - 2) == WALL
    &&& forall|x: int| 1 <= x < FIELD_WIDTH - 1 ==> #[trigger] at(f, FIELD_HEIGHT - 2, x) == WALL
}

/// Fixing a piece where it does not collide overwrites no occupied cell.
pub proof fn lemma_fix_keeps_occupied(f: FieldSize, p: Position, m: MinoShape, y: int, x: int)
    requires
        !collides(f, p, m),
        in_field(y, x),
        at(f, y, x) != NONE,
    ensures
        at(fixed_field(f, p, m), y, x) == at(f, y, x),
{
    lemma_fixed_field_is_fixed(f, p, m);
    let r = y - p.y;
    let c = x - p.x;
    if 0 <= r < 4 && 0 <= c < 4 && cell(m, r, c) != NONE {
        assert(hits(f, p.x as int, p.y as int, m, r, c));
    }
}

/// The starting grid's walls stand.
pub proof fn lemma_initial_walls_intact(f: FieldSize)
    requires
        is_initial_field(f),
    ensures
        walls_intact(f),
{
    assert forall|y: int| 1 <= y < FIELD_HEIGHT - 2 implies #[trigger] at(f, y, 1) == WALL && at(f, y, FIELD_WIDTH - 2) == WALL by {
        assert(in_field(y, 1) && in_field(y, FIELD_WIDTH - 2));
    }
    assert forall|x: int| 1 <= x < FIELD_WIDTH - 1 implies #[trigger] at(f, FIELD_HEIGHT - 2, x) == WALL by {
        assert(in_field(FIELD_HEIGHT - 2, x));
    }
}

/// Locking a piece that does not collide keeps the walls standing: the
/// piece overwrites none of them, and clearing rows moves whole rows.
pub proof fn lemma_lock_keeps_walls(g: Game, g0: Game)
    requires
        walls_intact(g0.field),
        !collides(g0.field, g0.pos, g0.mino),
        locked(g, g0),
    ensures
        walls_intact(g.field),
{
    let fixed = fixed_field(g0.field, g0.pos, g0.mino);
    assert forall|y: int| 1 <= y < FIELD_HEIGHT - 2 implies #[trigger] at(fixed, y, 1) == WALL && at(fixed, y, FIELD_WIDTH - 2) == WALL by {
        assert(at(g0.field, y, 1) == WALL);
        lemma_fix_keeps_occupied(g0.field, g0.pos, g0.mino, y, 1);
        lemma_fix_keeps_occupied(g0.field, g0.pos, g0.mino, y, FIELD_WIDTH - 2);
    }
    assert forall|x: int| 1 <= x < FIELD_WIDTH - 1 implies #[trigger] at(fixed, FIELD_HEIGHT - 2, x) == WALL by {
        assert(at(g0.field, FIELD_HEIGHT - 2, x) == WALL);
        lemma_fix_keeps_occupied(g0.field, g0.pos, g0.mino, FIELD_HEIGHT - 2, x);
    }
    let k = full_row_count(fixed);
    let kept = kept_rows(play_rows(fixed));
    assert forall|y: int| 1 <= y < FIELD_HEIGHT - 2 implies #[trigger] at(g.field, y, 1) == WALL && at(g.field, y, FIELD_WIDTH - 2) == WALL by {
        assert(g.field[y] == play_rows(g.field)[y - 1]);
        if y - 1 < k {
            assert(g.field[y] == blank_row());
        } else {
            let row = kept[y - 1 - k];
            play_rows(fixed).lemma_filter_contains_rev(|row: FieldRow| !row_full(row), row);
            assert(kept.contains(row));
            let j = choose|j: int| 0 <= j < play_rows(fixed).len() && play_rows(fixed)[j] == row;
            assert(at(fixed, j + 1, 1) == WALL);
            assert(at(fixed, j + 1, FIELD_WIDTH - 2) == WALL);
        }
    }
    assert forall|x: int| 1 <= x < FIELD_WIDTH - 1 implies #[trigger] at(g.field, FIELD_HEIGHT - 2, x) == WALL by {
        assert(g.field[FIELD_HEIGHT - 2] == fixed[FIELD_HEIGHT - 2]);
        assert(at(fixed, FIELD_HEIGHT - 2, x) == WALL);
    }
}

/// No playable cell of an examined row is occupied.
pub open spec fn play_area_empty(f: FieldSize) -> bool {
    forall|y: int, x: int| 1 <= y < FIELD_HEIGHT - 2 && 2 <= x < FIELD_WIDTH - 2 ==> #[trigger] at(f, y, x) == NONE
}

/// On a grid whose playable area is empty, no piece of the catalog
/// collides at the spawn position: the top row of every catalog mask is
/// empty, and its other cells fall in playable cells.
pub proof fn lemma_spawn_on_empty_play_area(f: FieldSize, kind: MinoKind, m: MinoShape)
    requires
        play_area_empty(f),
        is_shape_of(m, kind),
    ensures
        !collides(f, spawn_pos(), m),
{
    assert forall|r: int, c: int| 0 <= r < 4 && 0 <= c < 4 implies !#[trigger] hits(f, 5, 0, m, r, c) by {
        if cell(m, r, c) != NONE {
            assert(1 <= r <= 2);
            assert(at(f, r, 5 + c) == NONE);
        }
    }
}

/// Every occupied cell of `m` at `p` lies in a playable cell of an
/// examined row.
pub open spec fn in_play_area(p: Position, m: MinoShape) -> bool {
    forall|r: int, c: int|
        0 <= r < 4 && 0 <= c < 4 && #[trigger] cell(m, r, c) != NONE ==> p.y + r < FIELD_HEIGHT - 2 && 2 <= p.x + c
            < FIELD_WIDTH - 2
}

/// `m` occupies some cell.
pub open spec fn has_block(m: MinoShape) -> bool {
    exists|r: int, c: int| 0 <= r < 4 && 0 <= c < 4 && #[trigger] cell(m, r, c) != NONE
}

/// Above a standing floor, a piece in the playable area is stopped by the
/// floor: its drop stops, and a second drop from where it rests leaves it
/// there.
pub proof fn lemma_drop_stops_on_floor(f: FieldSize, p: Position, m: MinoShape)
    requires
        walls_intact(f),
        in_play_area(p, m),
        has_block(m),
    ensures
        lands(f, p, m),
        forall|q: Position| #[trigger] is_drop_of(q, f, p, m) ==> lands(f, q, m) && forall|q2: Position|
            #[trigger] is_drop_of(q2, f, q, m) ==> q2 == q,
{
    let (r, c) = choose|r: int, c: int| 0 <= r < 4 && 0 <= c < 4 && #[trigger] cell(m, r, c) != NONE;
    let d = FIELD_HEIGHT - 2 - r;
    assert(at(f, FIELD_HEIGHT - 2, p.x + c) == WALL);
    assert(hits(f, p.x as int, d, m, r, c));
    assert(collides_at(f, p.x as int, d, m));
    assert forall|q: Position| #[trigger] is_drop_of(q, f, p, m) implies lands(f, q, m) && forall|q2: Position|
        #[trigger] is_drop_of(q2, f, q, m) ==> q2 == q by {
        lemma_hard_drop_idempotent(f, p, m, q);
    }
}

/// Four right turns in a row, each accepted (the piece took the turned
/// mask), give the piece its mask back.
pub proof fn lemma_four_accepted_right_turns(g0: Game, g1: Game, g2: Game, g3: Game, g4: Game)
    requires
        is_turned(g1, g0, right_turn(g0.mino)) && g1.mino == right_turn(g0.mino),
        is_turned(g2, g1, right_turn(g1.mino)) && g2.mino == right_turn(g1.mino),
        is_turned(g3, g2, right_turn(g2.mino)) && g3.mino == right_turn(g2.mino),
        is_turned(g4, g3, right_turn(g3.mino)) && g4.mino == right_turn(g3.mino),
    ensures
        g4.mino == g0.mino,
{
    lemma_four_right_turns(g0.mino);
}

/// Four left turns in a row, each accepted, give the piece its mask back.
pub proof fn lemma_four_accepted_left_turns(g0: Game, g1: Game, g2: Game, g3: Game, g4: Game)
    requires
        is_turned(g1, g0, left_turn(g0.mino)) && g1.mino == left_turn(g0.mino),
        is_turned(g2, g1, left_turn(g1.mino)) && g2.mino == left_turn(g1.mino),
        is_turned(g3, g2, left_turn(g2.mino)) && g3.mino == left_turn(g2.mino),
        is_turned(g4, g3, left_turn(g3.mino)) && g4.mino == left_turn(g3.mino),
    ensures
        g4.mino == g0.mino,
{
    lemma_four_left_turns(g0.mino);
}

/// At most four of `n` indices fall in the window `lo..lo + 4`.
pub open spec fn window_count(n: int, lo: int) -> int {
    if n - lo <= 0 { 0 } else if n - lo >= 4 { 4 } else { n - lo }
}

proof fn lemma_full_rows_in_window(rows: Seq<FieldRow>, lo: int)
    requires
        forall|i: int| 0 <= i < rows.len() && row_full(#[trigger] rows[i]) ==> lo <= i < lo + 4,
    ensures
        rows.len() - kept_rows(rows).len() <= window_count(rows.len() as int, lo),
    decreases rows.len(),
{
    if rows.len() > 0 {
        let init = rows.drop_last();
        let x = rows.last();
        assert forall|i: int| 0 <= i < init.len() && row_full(#[trigger] init[i]) implies lo <= i < lo + 4 by {
            assert(init[i] == rows[i]);
        }
        lemma_full_rows_in_window(init, lo);
        assert(init.push(x) =~= rows);
        init.lemma_filter_push(x, |row: FieldRow| !row_full(row));
        if row_full(x) {
            assert(rows[rows.len() - 1] == x);
        }
    }
}

/// No examined row of `f` is full.
pub open spec fn no_full_rows(f: FieldSize) -> bool {
    forall|y: int| 1 <= y < FIELD_HEIGHT - 2 ==> !row_full(#[trigger] f[y])
}

/// On a grid without full rows, a lock fills at most the four rows the
/// piece spans, so the score table covers it.
pub proof fn lemma_lock_in_table(g: Game)
    requires
        no_full_rows(g.field),
    ensures
        lock_in_table(g),
{
    let f = g.field;
    let fixed = fixed_field(f, g.pos, g.mino);
    lemma_fixed_field_is_fixed(f, g.pos, g.mino);
    let rows = play_rows(fixed);
    let lo = g.pos.y - 1;
    assert forall|i: int| 0 <= i < rows.len() && row_full(#[trigger] rows[i]) implies lo <= i < lo + 4 by {
        let y = i + 1;
        assert(rows[i] == fixed[y]);
        if !(lo <= i < lo + 4) {
            assert forall|x: int| 1 <= x < FIELD_WIDTH - 1 implies #[trigger] f[y][x] != NONE by {
                assert(at(fixed, y, x) == fixed_cell(f, g.pos, g.mino, y, x));
                assert(fixed[y][x] != NONE);
            }
            assert(row_full(f[y]));
        }
    }
    lemma_full_rows_in_window(rows, lo);
}

/// After rows are cleared no examined row is full, so the next lock is
/// covered by the score table again.
pub proof fn lemma_compacted_has_no_full_rows(g: FieldSize, f: FieldSize)
    requires
        is_compacted(g, f),
    ensures
        no_full_rows(g),
{
    lemma_compaction_keeps_blocks(g, f);
    assert forall|y: int| 1 <= y < FIELD_HEIGHT - 2 implies !row_full(#[trigger] g[y]) by {
        assert(g[y] == play_rows(g)[y - 1]);
        if y - 1 < full_row_count(f) {
            assert(g[y][2] == NONE);
        }
    }
}

/// The gravity interval, in milliseconds, after `total_line` cleared rows:
/// a second, a tenth of a second less for every ten rows, and a tenth of a
/// second once that would reach zero.
pub open spec fn gravity_interval(total_line: nat) -> int {
    let ms = 1000 - (total_line / 10) * 100;
    if ms <= 0 { 100 } else { ms }
}

/// How long the piece waits between two gravity steps.
pub fn gravity_interval_ms(total_line: usize) -> (r: u64)
    ensures
        r == gravity_interval(total_line as nat),
{
    let steps = total_line / 10;
    if steps >= 10 {
        100
    } else {
        1000 - (steps as u64) * 100
    }
}

} // verus!

//! The seven piece shapes and their 4x4 occupancy masks.
use vstd::prelude::*;

use crate::block::{BlockColor, I, J, L, NONE, O, S, T, Z};
use crate::random::{random_range, shuffle};

verus! {

/// The number of piece kinds.
pub const MINO_KIND_MAX: usize = 7;

/// A piece kind.
#[derive(Clone, Copy, Debug, PartialEq, Eq, Structural)]
pub enum MinoKind {
    I,
    O,
    S,
    Z,
    J,
    L,
    T,
}

/// A 4x4 occupancy mask: a cell holds the piece's color or `NONE`.
pub type MinoShape = [[BlockColor; 4]; 4];

/// The cell in row `r`, column `c` of a mask.
pub open spec fn cell(m: MinoShape, r: int, c: int) -> BlockColor {
    m[r][c]
}

/// The color that a piece kind paints.
pub open spec fn kind_color(kind: MinoKind) -> BlockColor {
    match kind {
        MinoKind::I => I,
        MinoKind::O => O,
        MinoKind::S => S,
        MinoKind::Z => Z,
        MinoKind::J => J,
        MinoKind::L => L,
        MinoKind::T => T,
    }
}

/// Whether the canonical mask of `kind` occupies row `r`, column `c`.
pub open spec fn kind_occupies(kind: MinoKind, r: int, c: int) -> bool {
    match kind {
        MinoKind::I => r == 2 && 0 <= c < 4,
        MinoKind::O => (r == 1 || r == 2) && (c == 1 || c == 2),
        MinoKind::S => (r == 1 && (c == 1 || c == 2)) || (r == 2 && (c == 0 || c == 1)),
        MinoKind::Z => (r == 1 && (c == 0 || c == 1)) || (r == 2 && (c == 1 || c == 2)),
        MinoKind::J => (r == 1 && c == 0) || (r == 2 && 0 <= c < 3),
        MinoKind::L => (r == 1 && c == 2) || (r == 2 && 0 <= c < 3),
        MinoKind::T => (r == 1 && c == 1) || (r == 2 && 0 <= c < 3),
    }
}

/// The canonical mask of `kind`, cell by cell.
pub open spec fn kind_cell(kind: MinoKind, r: int, c: int) -> BlockColor {
    if kind_occupies(kind, r, c) {
        kind_color(kind)
    } else {
        NONE
    }
}

/// `m` is the canonical (unrotated) mask of `kind`.
pub open spec fn is_shape_of(m: MinoShape, kind: MinoKind) -> bool {
    forall|r: int, c: int| 0 <= r < 4 && 0 <= c < 4 ==> #[trigger] cell(m, r, c) == kind_cell(kind, r, c)
}

/// The kind that a number in `0..7` stands for, in catalog order.
pub open spec fn kind_at(n: int) -> MinoKind {
    if n == 0 {
        MinoKind::I
    } else if n == 1 {
        MinoKind::O
    } else if n == 2 {
        MinoKind::S
    } else if n == 3 {
        MinoKind::Z
    } else if n == 4 {
        MinoKind::J
    } else if n == 5 {
        MinoKind::L
    } else {
        MinoKind::T
    }
}

impl MinoKind {
    /// The kind with catalog number `n`; numbers from 6 up give `T`.
    pub fn from_index(n: usize) -> (r: MinoKind)
        ensures
            r == kind_at(n as int),
    {
        if n == 0 {
            MinoKind::I
        } else if n == 1 {
            MinoKind::O
        } else if n == 2 {
            MinoKind::S
        } else if n == 3 {
            MinoKind::Z
        } else if n == 4 {
            MinoKind::J
        } else if n == 5 {
            MinoKind::L
        } else {
            MinoKind::T
        }
    }

    /// The canonical mask of this kind.
    pub fn shape(self) -> (r: MinoShape)
        ensures
            is_shape_of(r, self),
    {
        match self {
            MinoKind::I => [[0, 0, 0, 0], [0, 0, 0, 0], [I, I, I, I], [0, 0, 0, 0]],
            MinoKind::O => [[0, 0, 0, 0], [0, O, O, 0], [0, O, O, 0], [0, 0, 0, 0]],
            MinoKind::S => [[0, 0, 0, 0], [0, S, S, 0], [S, S, 0, 0], [0, 0, 0, 0]],
            MinoKind::Z => [[0, 0, 0, 0], [Z, Z, 0, 0], [0, Z, Z, 0], [0, 0, 0, 0]],
            MinoKind::J => [[0, 0, 0, 0], [J, 0, 0, 0], [J, J, J, 0], [0, 0, 0, 0]],
            MinoKind::L => [[0, 0, 0, 0], [0, 0, L, 0], [L, L, L, 0], [0, 0, 0, 0]],
            MinoKind::T => [[0, 0, 0, 0], [0, T, 0, 0], [T, T, T, 0], [0, 0, 0, 0]],
        }
    }
}

/// The seven kinds in catalog order.
pub open spec fn all_kinds() -> Seq<MinoKind> {
    seq![MinoKind::I, MinoKind::O, MinoKind::S, MinoKind::Z, MinoKind::J, MinoKind::L, MinoKind::T]
}

/// `s` holds the canonical mask of each kind exactly once, in some order.
pub open spec fn is_bag(s: Seq<MinoShape>) -> bool {
    exists|ks: Seq<MinoKind>|
        #![trigger ks.to_multiset()]
        ks.len() == s.len() && ks.to_multiset() == all_kinds().to_multiset() && forall|i: int|
            0 <= i < s.len() ==> is_shape_of(#[trigger] s[i], ks[i])
}

/// A kind drawn uniformly at random.
pub fn random_kind() -> (r: MinoKind) {
    MinoKind::from_index(random_range(0, MINO_KIND_MAX))
}

/// A freshly shuffled bag of the seven canonical masks.
pub fn gen_mino_7() -> (r: [MinoShape; MINO_KIND_MAX])
    ensures
        is_bag(r@),
{
    let mut queue: Vec<MinoKind> = vec![
        MinoKind::I,
        MinoKind::O,
        MinoKind::S,
        MinoKind::Z,
        MinoKind::J,
        MinoKind::L,
        MinoKind::T,
    ];
    proof {
        assert(queue@ =~= all_kinds());
    }
    shuffle(&mut queue);
    proof {
        queue@.to_multiset_ensures();
        all_kinds().to_multiset_ensures();
        assert(queue@.len() == 7);
    }
    let r = [
        queue[0].shape(),
        queue[1].shape(),
        queue[2].shape(),
        queue[3].shape(),
        queue[4].shape(),
        queue[5].shape(),
        queue[6].shape(),
    ];
    assert(forall|i: int| 0 <= i < 7 ==> is_shape_of(#[trigger] r@[i], queue@[i]));
    r
}

} // verus!

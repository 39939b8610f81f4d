//! The seven pieces: their rotation masks, and the pure transforms that
//! move, turn and place them.

use vstd::prelude::*;
use crate::action::{ComposedAction, SingularAction};
use crate::board::{GAME_HEIGHT, GAME_WIDTH};

verus! {

/// Number of distinct pieces.
pub const NUM_PIECES: usize = 7;

/// Column at which a new piece appears.
pub const SPAWN_COLUMN: i32 = 3;

/// Row at which a new piece appears: the top row of the board.
pub const SPAWN_ROW: i32 = 23;

pub const S_TEMPLATE: [[[u8; 4]; 4]; 4] = [
    [[0, 1, 1, 0], [1, 1, 0, 0], [0, 0, 0, 0], [0, 0, 0, 0]],
    [[0, 1, 0, 0], [0, 1, 1, 0], [0, 0, 1, 0], [0, 0, 0, 0]],
    [[0, 0, 0, 0], [0, 1, 1, 0], [1, 1, 0, 0], [0, 0, 0, 0]],
    [[1, 0, 0, 0], [1, 1, 0, 0], [0, 1, 0, 0], [0, 0, 0, 0]],
];

pub const Z_TEMPLATE: [[[u8; 4]; 4]; 4] = [
    [[2, 2, 0, 0], [0, 2, 2, 0], [0, 0, 0, 0], [0, 0, 0, 0]],
    [[0, 0, 2, 0], [0, 2, 2, 0], [0, 2, 0, 0], [0, 0, 0, 0]],
    [[0, 0, 0, 0], [2, 2, 0, 0], [0, 2, 2, 0], [0, 0, 0, 0]],
    [[0, 2, 0, 0], [2, 2, 0, 0], [2, 0, 0, 0], [0, 0, 0, 0]],
];

pub const J_TEMPLATE: [[[u8; 4]; 4]; 4] = [
    [[3, 0, 0, 0], [3, 3, 3, 0], [0, 0, 0, 0], [0, 0, 0, 0]],
    [[0, 3, 3, 0], [0, 3, 0, 0], [0, 3, 0, 0], [0, 0, 0, 0]],
    [[0, 0, 0, 0], [3, 3, 3, 0], [0, 0, 3, 0], [0, 0, 0, 0]],
    [[0, 3, 0, 0], [0, 3, 0, 0], [3, 3, 0, 0], [0, 0, 0, 0]],
];

pub const L_TEMPLATE: [[[u8; 4]; 4]; 4] = [
    [[0, 0, 4, 0], [4, 4, 4, 0], [0, 0, 0, 0], [0, 0, 0, 0]],
    [[0, 4, 0, 0], [0, 4, 0, 0], [0, 4, 4, 0], [0, 0, 0, 0]],
    [[0, 0, 0, 0], [4, 4, 4, 0], [4, 0, 0, 0], [0, 0, 0, 0]],
    [[4, 4, 0, 0], [0, 4, 0, 0], [0, 4, 0, 0], [0, 0, 0, 0]],
];

pub const I_TEMPLATE: [[[u8; 4]; 4]; 4] = [
    [[0, 0, 0, 0], [5, 5, 5, 5], [0, 0, 0, 0], [0, 0, 0, 0]],
    [[0, 0, 5, 0], [0, 0, 5, 0], [0, 0, 5, 0], [0, 0, 5, 0]],
    [[0, 0, 0, 0], [0, 0, 0, 0], [5, 5, 5, 5], [0, 0, 0, 0]],
    [[0, 5, 0, 0], [0, 5, 0, 0], [0, 5, 0, 0], [0, 5, 0, 0]],
];

pub const O_TEMPLATE: [[[u8; 4]; 4]; 4] = [
    [[0, 6, 6, 0], [0, 6, 6, 0], [0, 0, 0, 0], [0, 0, 0, 0]],
    [[0, 6, 6, 0], [0, 6, 6, 0], [0, 0, 0, 0], [0, 0, 0, 0]],
    [[0, 6, 6, 0], [0, 6, 6, 0], [0, 0, 0, 0], [0, 0, 0, 0]],
    [[0, 6, 6, 0], [0, 6, 6, 0], [0, 0, 0, 0], [0, 0, 0, 0]],
];

pub const T_TEMPLATE: [[[u8; 4]; 4]; 4] = [
    [[0, 7, 0, 0], [7, 7, 7, 0], [0, 0, 0, 0], [0, 0, 0, 0]],
    [[0, 7, 0, 0], [0, 7, 7, 0], [0, 7, 0, 0], [0, 0, 0, 0]],
    [[0, 0, 0, 0], [7, 7, 7, 0], [0, 7, 0, 0], [0, 0, 0, 0]],
    [[0, 7, 0, 0], [7, 7, 0, 0], [0, 7, 0, 0], [0, 0, 0, 0]],
];

/// The rotation masks of the pieces, by identifier minus one.
pub const PIECE_TEMPLATES: [[[[u8; 4]; 4]; 4]; 7] = [
    S_TEMPLATE,
    Z_TEMPLATE,
    J_TEMPLATE,
    L_TEMPLATE,
    I_TEMPLATE,
    O_TEMPLATE,
    T_TEMPLATE,
];

/// Whether cell `(i, j)` (column, row) of a mask is set.
pub open spec fn mask_cell(mask: [[u8; 4]; 4], i: int, j: int) -> bool {
    0 <= i < 4 && 0 <= j < 4 && mask[j][i] != 0
}

/// Whether some cell of column `i` of the mask is set.
pub open spec fn mask_column_used(mask: [[u8; 4]; 4], i: int) -> bool {
    exists|j: int| mask_cell(mask, i, j)
}

/// Whether some cell of row `j` of the mask is set.
pub open spec fn mask_row_used(mask: [[u8; 4]; 4], j: int) -> bool {
    exists|i: int| mask_cell(mask, i, j)
}

/// Whether the mask has no cell set.
pub open spec fn mask_is_empty(mask: [[u8; 4]; 4]) -> bool {
    forall|i: int, j: int| !mask_cell(mask, i, j)
}

/// Whether `c` is the leftmost column of the mask with a cell set.
pub open spec fn is_first_column(mask: [[u8; 4]; 4], c: int) -> bool {
    mask_column_used(mask, c) && forall|i: int| 0 <= i < c ==> !mask_column_used(mask, i)
}

/// Whether `c` is the rightmost column of the mask with a cell set.
pub open spec fn is_last_column(mask: [[u8; 4]; 4], c: int) -> bool {
    mask_column_used(mask, c) && forall|i: int| c < i < 4 ==> !mask_column_used(mask, i)
}

/// Whether `r` is the first row of the mask with a cell set.
pub open spec fn is_first_row(mask: [[u8; 4]; 4], r: int) -> bool {
    mask_row_used(mask, r) && forall|j: int| 0 <= j < r ==> !mask_row_used(mask, j)
}

/// Whether `r` is the last row of the mask with a cell set.
pub open spec fn is_last_row(mask: [[u8; 4]; 4], r: int) -> bool {
    mask_row_used(mask, r) && forall|j: int| r < j < 4 ==> !mask_row_used(mask, j)
}

/// Tells whether column `i` of the mask has a cell set.
pub fn column_used(mask: &[[u8; 4]; 4], i: usize) -> (b: bool)
    requires
        i < 4,
    ensures
        b == mask_column_used(*mask, i as int),
{
    let mut j: usize = 0;
    while j < 4
        invariant
            j <= 4,
            i < 4,
            forall|k: int| 0 <= k < j ==> !mask_cell(*mask, i as int, k),
        decreases 4 - j,
    {
        if mask[j][i] != 0 {
            assert(mask_cell(*mask, i as int, j as int));
            return true;
        }
        j += 1;
    }
    false
}

/// Tells whether row `j` of the mask has a cell set.
pub fn row_used(mask: &[[u8; 4]; 4], j: usize) -> (b: bool)
    requires
        j < 4,
    ensures
        b == mask_row_used(*mask, j as int),
{
    let mut i: usize = 0;
    while i < 4
        invariant
            i <= 4,
            j < 4,
            forall|k: int| 0 <= k < i ==> !mask_cell(*mask, k, j as int),
        decreases 4 - i,
    {
        if mask[j][i] != 0 {
            assert(mask_cell(*mask, i as int, j as int));
            return true;
        }
        i += 1;
    }
    false
}

/// A piece: four rotation masks, the position of the masks' origin on the
/// board, the rotation in use, and the number of the piece's distinct
/// rotations, below which the commands keep the rotation. The cell `(i, j)`
/// of the current mask lies at column `position.0 + i` and row
/// `position.1 - j`.
#[derive(Clone, Copy, Debug, PartialEq, Eq)]
pub struct Piece {
    pub shape: [[[u8; 4]; 4]; 4],
    pub position: (i32, i32),
    pub rotation: i32,
    pub num_rotations: i32,
    /// Index of the piece's colour in the display palette.
    pub color: usize,
}

impl Piece {
    /// Validity of a piece: the rotation selects a mask, the number of
    /// distinct rotations is one or four, the colour is in the palette and
    /// no mask is empty.
    pub open spec fn wf(self) -> bool {
        &&& 0 <= self.rotation < 4
        &&& (self.num_rotations == 1 || self.num_rotations == 4)
        &&& self.color < NUM_PIECES
        &&& forall|r: int| 0 <= r < 4 ==> !mask_is_empty(#[trigger] self.shape[r])
    }

    /// Whether the rotation in use is one of the piece's distinct
    /// rotations: below `num_rotations`.
    pub open spec fn rotation_in_range(self) -> bool {
        0 <= self.rotation < self.num_rotations
    }

    /// The mask of the rotation in use.
    pub open spec fn mask(self) -> [[u8; 4]; 4] {
        self.shape[self.rotation as int]
    }

    /// Whether the piece occupies the board cell at column `x`, row `y`.
    pub open spec fn covers(self, x: int, y: int) -> bool {
        mask_cell(self.mask(), x - self.position.0, self.position.1 - y)
    }

    /// Whether every cell of the piece lies on the board.
    pub open spec fn in_bounds(self) -> bool {
        forall|i: int, j: int| #[trigger]
            mask_cell(self.mask(), i, j) ==> 0 <= self.position.0 + i < GAME_WIDTH && 0
                <= self.position.1 - j < GAME_HEIGHT
    }

    /// The piece as it appears at the top of the board, for an identifier
    /// from 1 to 7.
    pub open spec fn spawned(piece: u8) -> Piece {
        Piece {
            shape: PIECE_TEMPLATES[piece - 1],
            position: (SPAWN_COLUMN, SPAWN_ROW),
            rotation: 0,
            num_rotations: if piece == 6 { 1 } else { 4 },
            color: (piece - 1) as usize,
        }
    }

    /// The piece `k` rows further down.
    pub open spec fn lowered(self, k: int) -> Piece {
        Piece { position: (self.position.0, (self.position.1 - k) as i32), ..self }
    }

    /// The piece after one command, whether or not the board admits it.
    pub open spec fn moved(self, action: SingularAction) -> Piece {
        match action {
            SingularAction::Left => Piece {
                position: ((self.position.0 - 1) as i32, self.position.1),
                ..self
            },
            SingularAction::Right => Piece {
                position: ((self.position.0 + 1) as i32, self.position.1),
                ..self
            },
            SingularAction::Down => self.lowered(1),
            SingularAction::Rotate => Piece {
                rotation: ((self.rotation + 1) % (self.num_rotations as int)) as i32,
                ..self
            },
            SingularAction::Idle => self,
        }
    }

    /// The piece shifted and turned as a macro-action asks, without gravity.
    pub open spec fn placed(self, action: ComposedAction) -> Piece {
        Piece {
            position: ((self.position.0 + action.shift) as i32, self.position.1),
            rotation: action.rotation,
            ..self
        }
    }

    /// A valid piece that lies on the board has its origin near the board:
    /// at most three columns to the left of it and three rows above it.
    pub proof fn lemma_in_bounds_position(self)
        requires
            self.wf(),
            self.in_bounds(),
        ensures
            -3 <= self.position.0 < GAME_WIDTH,
            0 <= self.position.1 < GAME_HEIGHT + 3,
    {
        assert(!mask_is_empty(self.shape[self.rotation as int]));
        let (i, j) = choose|i: int, j: int| mask_cell(self.mask(), i, j);
        assert(mask_cell(self.mask(), i, j));
    }

    /// Builds the piece with the given identifier at its spawn pose.
    pub fn new_from_idx(piece: u8) -> (r: Piece)
        requires
            1 <= piece <= 7,
        ensures
            r == Piece::spawned(piece),
            r.wf(),
            r.rotation_in_range(),
    {
        let r = Piece {
            shape: PIECE_TEMPLATES[(piece - 1) as usize],
            position: (SPAWN_COLUMN, SPAWN_ROW),
            rotation: 0,
            num_rotations: if piece == 6 { 1 } else { 4 },
            color: (piece - 1) as usize,
        };
        proof {
            lemma_templates_not_empty(piece);
        }
        r
    }

    /// Applies one command to a copy of the piece: one column to the left
    /// or right, one row down, or one rotation on, the rotation after the
    /// last of the piece's distinct rotations being the first. The result
    /// is not checked against any board.
    pub fn simulate_next(&self, action: SingularAction) -> (r: Piece)
        requires
            action == SingularAction::Rotate ==> 0 <= self.rotation < i32::MAX
                && self.num_rotations > 0,
            action == SingularAction::Left ==> self.position.0 > i32::MIN,
            action == SingularAction::Right ==> self.position.0 < i32::MAX,
            action == SingularAction::Down ==> self.position.1 > i32::MIN,
        ensures
            r == self.moved(action),
            self.wf() ==> r.wf(),
            self.rotation_in_range() ==> r.rotation_in_range(),
    {
        let mut piece = *self;
        match action {
            SingularAction::Left => {
                piece.position.0 = piece.position.0 - 1;
            },
            SingularAction::Right => {
                piece.position.0 = piece.position.0 + 1;
            },
            SingularAction::Down => {
                piece.position.1 = piece.position.1 - 1;
            },
            SingularAction::Rotate => {
                piece.rotation = (piece.rotation + 1) % piece.num_rotations;
            },
            SingularAction::Idle => {},
        }
        piece
    }

    /// Applies a macro-action to a copy of the piece: the shift is added to
    /// the column and the rotation is set.
    pub fn simulate_action(&self, action: ComposedAction) -> (r: Piece)
        requires
            i32::MIN <= self.position.0 + action.shift <= i32::MAX,
        ensures
            r == self.placed(action),
            self.wf() && 0 <= action.rotation < 4 ==> r.wf(),
            0 <= action.rotation < self.num_rotations ==> r.rotation_in_range(),
    {
        let mut piece = *self;
        piece.position.0 = piece.position.0 + action.shift;
        piece.rotation = action.rotation;
        piece
    }

    /// The bounding box of the cells set in one rotation mask: first the
    /// offset (leftmost column, first row) of the box within the mask, then
    /// its extent (columns, rows) counted as last minus first. An empty mask
    /// gives the offset `(-1, -1)` and the extent `(0, 0)`.
    pub fn get_aabb(&self, rotation: usize) -> (r: [(i32, i32); 2])
        requires
            rotation < 4,
        ensures
            mask_is_empty(self.shape[rotation as int]) ==> r[0] == (-1i32, -1i32) && r[1] == (
                0i32,
                0i32,
            ),
            !mask_is_empty(self.shape[rotation as int]) ==> {
                &&& is_first_column(self.shape[rotation as int], r[0].0 as int)
                &&& is_first_row(self.shape[rotation as int], r[0].1 as int)
                &&& is_last_column(self.shape[rotation as int], r[0].0 + r[1].0)
                &&& is_last_row(self.shape[rotation as int], r[0].1 + r[1].1)
            },
    {
        let mask = self.shape[rotation];
        let mut first_column: i32 = -1;
        let mut last_column: i32 = -1;
        let mut first_row: i32 = -1;
        let mut last_row: i32 = -1;
        let mut k: usize = 0;
        while k < 4
            invariant
                k <= 4,
                (first_column == -1) == (forall|i: int| 0 <= i < k ==> !mask_column_used(mask, i)),
                (first_column == -1) == (last_column == -1),
                first_column != -1 ==> 0 <= first_column <= last_column < k,
                first_column != -1 ==> mask_column_used(mask, first_column as int)
                    && mask_column_used(mask, last_column as int),
                forall|i: int| 0 <= i < first_column ==> !mask_column_used(mask, i),
                forall|i: int| last_column < i < k ==> !mask_column_used(mask, i),
                (first_row == -1) == (forall|j: int| 0 <= j < k ==> !mask_row_used(mask, j)),
                (first_row == -1) == (last_row == -1),
                first_row != -1 ==> 0 <= first_row <= last_row < k,
                first_row != -1 ==> mask_row_used(mask, first_row as int) && mask_row_used(
                    mask,
                    last_row as int,
                ),
                forall|j: int| 0 <= j < first_row ==> !mask_row_used(mask, j),
                forall|j: int| last_row < j < k ==> !mask_row_used(mask, j),
            decreases 4 - k,
        {
            if column_used(&mask, k) {
                if first_column == -1 {
                    first_column = k as i32;
                }
                last_column = k as i32;
            }
            if row_used(&mask, k) {
                if first_row == -1 {
                    first_row = k as i32;
                }
                last_row = k as i32;
            }
            k += 1;
        }
        proof {
            if !mask_is_empty(mask) {
                let (i, j) = choose|i: int, j: int| mask_cell(mask, i, j);
                assert(mask_column_used(mask, i));
                assert(mask_row_used(mask, j));
            } else {
                assert forall|i: int| 0 <= i < 4 implies !mask_column_used(mask, i) by {}
                assert forall|j: int| 0 <= j < 4 implies !mask_row_used(mask, j) by {}
            }
        }
        [(first_column, first_row), (last_column - first_column, last_row - first_row)]
    }
}

/// Every rotation mask of every template has a cell set.
proof fn lemma_templates_not_empty(piece: u8)
    requires
        1 <= piece <= 7,
    ensures
        forall|r: int| 0 <= r < 4 ==> !mask_is_empty(#[trigger] PIECE_TEMPLATES[piece - 1][r]),
{
    let t = PIECE_TEMPLATES[piece - 1];
    assert(mask_cell(t[0], 1, 1));
    assert(mask_cell(t[1], 1, 1) || mask_cell(t[1], 2, 1));
    assert(mask_cell(t[2], 1, 1) || mask_cell(t[2], 1, 2));
    assert(mask_cell(t[3], 1, 1));
}

} // verus!

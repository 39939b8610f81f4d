//! The board: a grid of locked cells, with collision tests, locking of a
//! piece, the hard drop and the clearing of full rows.

use vstd::prelude::*;
use crate::action::SingularAction;
use crate::piece::{mask_cell, Piece};

verus! {

/// Number of columns of the board.
pub const GAME_WIDTH: usize = 10;

/// Number of rows of the board, hidden rows at the top included.
pub const GAME_HEIGHT: usize = 24;

/// Number of columns that are drawn.
pub const RENDER_WIDTH: usize = GAME_WIDTH;

/// Number of rows that are drawn, counted from the bottom.
pub const RENDER_HEIGHT: usize = 20;

/// The mathematical model of a board: its rows from the bottom up, each a
/// sequence of cell tags from left to right. Tag 0 is an empty cell.
pub type Grid = Seq<Seq<u8>>;

/// Whether a grid has the dimensions of a board.
pub open spec fn grid_wf(grid: Grid) -> bool {
    &&& grid.len() == GAME_HEIGHT
    &&& forall|y: int| 0 <= y < GAME_HEIGHT ==> (#[trigger] grid[y]).len() == GAME_WIDTH
}

/// Whether `(x, y)` is a cell of the board and empty in `grid`.
pub open spec fn cell_free(grid: Grid, x: int, y: int) -> bool {
    0 <= x < GAME_WIDTH && 0 <= y < GAME_HEIGHT && grid[y][x] == 0
}

/// Whether every cell of a row is occupied.
pub open spec fn row_is_full(row: Seq<u8>) -> bool {
    forall|x: int| 0 <= x < row.len() ==> row[x] != 0
}

/// Whether the piece fits: each of its cells is on the board and empty.
pub open spec fn admits(grid: Grid, piece: Piece) -> bool {
    forall|i: int, j: int| #[trigger]
        mask_cell(piece.mask(), i, j) ==> cell_free(
            grid,
            piece.position.0 + i,
            piece.position.1 - j,
        )
}

/// The grid with the cells of a mask written into it, the mask's origin
/// being at column `offset.0` and row `offset.1`.
pub open spec fn filled(grid: Grid, offset: (i32, i32), content: [[u8; 4]; 4]) -> Grid {
    Seq::new(
        GAME_HEIGHT as nat,
        |y: int|
            Seq::new(
                GAME_WIDTH as nat,
                |x: int|
                    if mask_cell(content, x - offset.0, offset.1 - y) {
                        content[offset.1 - y][x - offset.0]
                    } else {
                        grid[y][x]
                    },
            ),
    )
}

/// The grid with the piece locked into it.
pub open spec fn integrated(grid: Grid, piece: Piece) -> Grid {
    filled(grid, piece.position, piece.mask())
}

/// The predicate that holds of the full rows.
pub open spec fn is_full() -> spec_fn(Seq<u8>) -> bool {
    |row: Seq<u8>| row_is_full(row)
}

/// The predicate that holds of the rows with an empty cell.
pub open spec fn is_not_full() -> spec_fn(Seq<u8>) -> bool {
    |row: Seq<u8>| !row_is_full(row)
}

/// Number of full rows of the grid.
pub open spec fn full_row_count(grid: Grid) -> nat {
    grid.filter(is_full()).len()
}

/// The rows below the top row that are not full, in their order.
pub open spec fn surviving_rows(grid: Grid) -> Seq<Seq<u8>> {
    grid.drop_last().filter(is_not_full())
}

/// The grid after its full rows have been removed: the surviving rows move
/// down to close the gaps, and the top row, which always stays, is repeated
/// above them to fill the grid.
pub open spec fn cleared(grid: Grid) -> Grid {
    surviving_rows(grid) + Seq::new(
        (grid.len() - surviving_rows(grid).len()) as nat,
        |i: int| grid.last(),
    )
}

/// Number of rows that the piece falls until it rests: the number of
/// consecutive steps down that the grid admits.
pub open spec fn drop_distance(grid: Grid, piece: Piece) -> nat
    decreases piece.position.1,
{
    if piece.position.1 > 0 && admits(grid, piece.lowered(1)) {
        1 + drop_distance(grid, piece.lowered(1))
    } else {
        0
    }
}

/// The piece where it comes to rest when it is dropped.
pub open spec fn dropped(grid: Grid, piece: Piece) -> Piece {
    piece.lowered(drop_distance(grid, piece) as int)
}

/// The rows of a cell array as a grid.
pub open spec fn rows_of(state: [[u8; GAME_WIDTH]; GAME_HEIGHT]) -> Grid {
    Seq::new(GAME_HEIGHT as nat, |y: int| state[y]@)
}

/// The board. `state[y][x]` is the tag of the cell in row `y` (row 0 is the
/// bottom) and column `x`.
#[derive(Clone, Copy, Debug, PartialEq, Eq)]
pub struct Board {
    pub state: [[u8; GAME_WIDTH]; GAME_HEIGHT],
}

impl View for Board {
    type V = Grid;

    open spec fn view(&self) -> Grid {
        rows_of(self.state)
    }
}

/// Tells whether a row has no empty cell.
pub fn is_row_full(row: &[u8; GAME_WIDTH]) -> (b: bool)
    ensures
        b == row_is_full(row@),
{
    let mut x: usize = 0;
    while x < GAME_WIDTH
        invariant
            x <= GAME_WIDTH,
            forall|k: int| 0 <= k < x ==> row@[k] != 0,
        decreases GAME_WIDTH - x,
    {
        if row[x] == 0 {
            return false;
        }
        x += 1;
    }
    true
}

impl Board {
    /// A board without any locked cell.
    pub fn empty() -> (r: Board)
        ensures
            grid_wf(r@),
            forall|x: int, y: int| 0 <= x < GAME_WIDTH && 0 <= y < GAME_HEIGHT ==> r@[y][x] == 0,
    {
        Board { state: [[0u8; GAME_WIDTH]; GAME_HEIGHT] }
    }

    /// Tells whether the piece can be where it is: all its cells on the
    /// board, none on a locked cell.
    pub fn is_valid_state(&self, piece: Piece) -> (b: bool)
        requires
            0 <= piece.rotation < 4,
        ensures
            b == admits(self@, piece),
    {
        let mask = piece.shape[piece.rotation as usize];
        let mut j: usize = 0;
        while j < 4
            invariant
                j <= 4,
                mask == piece.mask(),
                forall|a: int, b: int|
                    0 <= b < j && #[trigger] mask_cell(mask, a, b) ==> cell_free(
                        self@,
                        piece.position.0 + a,
                        piece.position.1 - b,
                    ),
            decreases 4 - j,
        {
            let mut i: usize = 0;
            while i < 4
                invariant
                    i <= 4,
                    j < 4,
                    mask == piece.mask(),
                    forall|a: int, b: int|
                        (0 <= b < j || (b == j && 0 <= a < i)) && #[trigger] mask_cell(mask, a, b)
                            ==> cell_free(self@, piece.position.0 + a, piece.position.1 - b),
                decreases 4 - i,
            {
                if mask[j][i] != 0 {
                    let x: i64 = i as i64 + piece.position.0 as i64;
                    let y: i64 = piece.position.1 as i64 - j as i64;
                    assert(mask_cell(mask, i as int, j as int));
                    if x < 0 || x >= GAME_WIDTH as i64 || y < 0 || y >= GAME_HEIGHT as i64 {
                        return false;
                    }
                    if self.state[y as usize][x as usize] != 0 {
                        return false;
                    }
                }
                i += 1;
            }
            j += 1;
        }
        true
    }

    /// Writes the set cells of `content` into a copy of the board, the
    /// mask's origin being at column `offset.0` and row `offset.1`.
    pub fn fill_rect(&self, offset: (i32, i32), content: [[u8; 4]; 4]) -> (r: Board)
        requires
            forall|i: int, j: int| #[trigger]
                mask_cell(content, i, j) ==> 0 <= offset.0 + i < GAME_WIDTH && 0 <= offset.1 - j
                    < GAME_HEIGHT,
        ensures
            r@ == filled(self@, offset, content),
    {
        let mut state = self.state;
        let mut j: usize = 0;
        while j < 4
            invariant
                j <= 4,
                forall|i: int, j: int| #[trigger]
                    mask_cell(content, i, j) ==> 0 <= offset.0 + i < GAME_WIDTH && 0 <= offset.1
                        - j < GAME_HEIGHT,
                forall|x: int, y: int|
                    0 <= x < GAME_WIDTH && 0 <= y < GAME_HEIGHT ==> #[trigger] state[y][x] == if 0
                        <= offset.1 - y < j && mask_cell(content, x - offset.0, offset.1 - y) {
                        content[offset.1 - y][x - offset.0]
                    } else {
                        self.state[y][x]
                    },
            decreases 4 - j,
        {
            let mut i: usize = 0;
            while i < 4
                invariant
                    i <= 4,
                    j < 4,
                    forall|i: int, j: int| #[trigger]
                        mask_cell(content, i, j) ==> 0 <= offset.0 + i < GAME_WIDTH && 0
                            <= offset.1 - j < GAME_HEIGHT,
                    forall|x: int, y: int|
                        0 <= x < GAME_WIDTH && 0 <= y < GAME_HEIGHT ==> #[trigger] state[y][x]
                            == if (0 <= offset.1 - y < j || (offset.1 - y == j && x - offset.0 < i))
                            && mask_cell(content, x - offset.0, offset.1 - y) {
                            content[offset.1 - y][x - offset.0]
                        } else {
                            self.state[y][x]
                        },
                decreases 4 - i,
            {
                let value = content[j][i];
                if value != 0 {
                    assert(mask_cell(content, i as int, j as int));
                    let x: usize = (i as i32 + offset.0) as usize;
                    let y: usize = (offset.1 - j as i32) as usize;
                    let mut row = state[y];
                    row[x] = value;
                    state[y] = row;
                }
                i += 1;
            }
            j += 1;
        }
        let r = Board { state };
        assert(r@ =~~= filled(self@, offset, content));
        r
    }

    /// Locks the piece: its cells are written into a copy of the board.
    pub fn integrate_piece(&self, piece: Piece) -> (r: Board)
        requires
            0 <= piece.rotation < 4,
            piece.in_bounds(),
        ensures
            r@ == integrated(self@, piece),
    {
        let mask = piece.shape[piece.rotation as usize];
        assert(mask == piece.mask());
        self.fill_rect(piece.position, mask)
    }

    /// Removes the full rows. The rows are judged as they are on entry; the
    /// rows above a removed row move down by one, and the top row keeps its
    /// content. Returns the new board and the number of full rows.
    pub fn remove_full_rows(&self) -> (r: (Board, i32))
        ensures
            r.0@ == cleared(self@),
            r.1 == full_row_count(self@),
    {
        let mut removed_rows: i32 = 0;
        let mut state = self.state;
        let mut k: usize = GAME_HEIGHT;
        proof {
            lemma_sweep_start(self@);
        }
        while k > 0
            invariant
                k <= GAME_HEIGHT,
                removed_rows == full_from(self@, k as int),
                removed_rows <= GAME_HEIGHT - k,
                rows_of(state) == swept(self@, k as int),
            decreases k,
        {
            let j = k - 1;
            proof {
                lemma_sweep_step(self@, k as int);
            }
            if is_row_full(&self.state[j]) {
                let ghost before = rows_of(state);
                let mut m: usize = j;
                while m < GAME_HEIGHT - 1
                    invariant
                        j <= m <= GAME_HEIGHT - 1,
                        forall|y: int|
                            0 <= y < GAME_HEIGHT ==> (#[trigger] state[y])@ == if j <= y < m {
                                before[y + 1]
                            } else {
                                before[y]
                            },
                    decreases GAME_HEIGHT - 1 - m,
                {
                    state[m] = state[m + 1];
                    m += 1;
                }
                removed_rows += 1;
                assert(rows_of(state) =~= swept(self@, j as int));
            }
            k = j;
        }
        proof {
            lemma_sweep_end(self@);
        }
        (Board { state }, removed_rows)
    }

    /// Drops the piece: moves it down for as long as the board admits the
    /// next step, and returns it where it rests.
    pub fn hard_drop(&self, piece: Piece) -> (r: Piece)
        requires
            piece.wf(),
            piece.position.1 > i32::MIN,
        ensures
            r == dropped(self@, piece),
            r.wf(),
            admits(self@, piece) ==> admits(self@, r),
    {
        let mut current = piece;
        let mut next = current.simulate_next(SingularAction::Down);
        while self.is_valid_state(next)
            invariant
                current.wf(),
                current.position.1 > i32::MIN,
                next == current.lowered(1),
                dropped(self@, piece) == dropped(self@, current),
                admits(self@, piece) ==> admits(self@, current),
            decreases current.position.1 - i32::MIN,
        {
            proof {
                lemma_admitted_is_in_bounds(self@, next);
                next.lemma_in_bounds_position();
                lemma_drop_distance_bound(self@, next);
            }
            current = next;
            next = next.simulate_next(SingularAction::Down);
        }
        current
    }

    /// The board as it looks with the piece drawn into it.
    pub fn simulate_board(&self, piece: Piece) -> (r: Board)
        requires
            0 <= piece.rotation < 4,
            piece.in_bounds(),
        ensures
            r@ == integrated(self@, piece),
    {
        self.integrate_piece(piece)
    }
}

/// A piece that the grid admits lies on the board.
pub proof fn lemma_admitted_is_in_bounds(grid: Grid, piece: Piece)
    requires
        admits(grid, piece),
    ensures
        piece.in_bounds(),
{
    assert forall|i: int, j: int| #[trigger] mask_cell(piece.mask(), i, j) implies 0
        <= piece.position.0 + i < GAME_WIDTH && 0 <= piece.position.1 - j < GAME_HEIGHT by {
        assert(cell_free(grid, piece.position.0 + i, piece.position.1 - j));
    }
}

/// A piece never falls below the bottom row.
pub proof fn lemma_drop_distance_bound(grid: Grid, piece: Piece)
    ensures
        drop_distance(grid, piece) <= if piece.position.1 > 0 {
            piece.position.1 as int
        } else {
            0
        },
    decreases piece.position.1,
{
    if piece.position.1 > 0 && admits(grid, piece.lowered(1)) {
        lemma_drop_distance_bound(grid, piece.lowered(1));
    }
}

/// What the drop distance means: the grid admits the piece at each step of
/// its fall, and does not admit it one row below where it rests.
pub proof fn lemma_dropped_rests(grid: Grid, piece: Piece)
    requires
        piece.wf(),
        piece.position.1 > i32::MIN,
    ensures
        forall|m: int|
            1 <= m <= drop_distance(grid, piece) ==> admits(grid, #[trigger] piece.lowered(m)),
        !admits(grid, piece.lowered(drop_distance(grid, piece) as int + 1)),
    decreases piece.position.1,
{
    let below = piece.lowered(1);
    if admits(grid, below) {
        lemma_admitted_is_in_bounds(grid, below);
        below.lemma_in_bounds_position();
    }
    if piece.position.1 > 0 && admits(grid, below) {
        lemma_dropped_rests(grid, below);
        lemma_drop_distance_bound(grid, below);
        let d = drop_distance(grid, below) as int;
        assert forall|m: int| 1 <= m <= d + 1 implies admits(
            grid,
            #[trigger] piece.lowered(m),
        ) by {
            if m > 1 {
                assert(piece.lowered(m) == below.lowered(m - 1));
            }
        }
        assert(piece.lowered(d + 2) == below.lowered(d + 1));
    }
}

/// A valid piece that the board admits is still admitted, and so within the
/// board and off every locked cell, where it rests after a hard drop.
pub proof fn lemma_hard_drop_valid(grid: Grid, piece: Piece)
    requires
        piece.wf(),
        admits(grid, piece),
    ensures
        admits(grid, dropped(grid, piece)),
        dropped(grid, piece).in_bounds(),
        dropped(grid, piece).wf(),
{
    lemma_admitted_is_in_bounds(grid, piece);
    piece.lemma_in_bounds_position();
    lemma_dropped_rests(grid, piece);
    if drop_distance(grid, piece) == 0 {
        assert(piece.lowered(0) == piece);
    }
    lemma_admitted_is_in_bounds(grid, dropped(grid, piece));
}

/// Dropping is idempotent: a valid piece that has been dropped does not
/// move when it is dropped again.
pub proof fn lemma_hard_drop_idempotent(grid: Grid, piece: Piece)
    requires
        piece.wf(),
        piece.position.1 > i32::MIN,
    ensures
        dropped(grid, dropped(grid, piece)) == dropped(grid, piece),
{
    lemma_dropped_rests(grid, piece);
    lemma_drop_distance_bound(grid, piece);
    let rest = dropped(grid, piece);
    let d = drop_distance(grid, piece) as int;
    assert(rest.lowered(1) == piece.lowered(d + 1));
    assert(rest.lowered(0) == rest);
}

/// After the full rows of a board whose top row is not full have been
/// removed, no row is full. (A full top row is counted but stays.)
pub proof fn lemma_cleared_has_no_full_row(board: Board)
    requires
        !row_is_full(board@[GAME_HEIGHT - 1]),
    ensures
        grid_wf(cleared(board@)),
        forall|y: int| 0 <= y < GAME_HEIGHT ==> !row_is_full(#[trigger] cleared(board@)[y]),
{
    let grid = board@;
    let below = grid.drop_last();
    below.lemma_filter_len(is_not_full());
    assert forall|y: int| 0 <= y < GAME_HEIGHT implies !row_is_full(#[trigger] cleared(grid)[y])
        && cleared(grid)[y].len() == GAME_WIDTH by {
        if y < surviving_rows(grid).len() {
            below.lemma_filter_pred(is_not_full(), y);
            let row = surviving_rows(grid)[y];
            assert(surviving_rows(grid).contains(row));
            below.lemma_filter_contains_rev(is_not_full(), row);
            let k = choose|k: int| 0 <= k < below.len() && below[k] == row;
            assert(grid[k] == row);
        }
    }
}

/// Number of full rows among the rows from `k` up.
spec fn full_from(grid: Grid, k: int) -> nat {
    grid.subrange(k, grid.len() as int).filter(is_full()).len()
}

/// The rows from `k` up, the top row left out, that are not full.
spec fn kept_from(grid: Grid, k: int) -> Seq<Seq<u8>> {
    if k >= grid.len() - 1 {
        Seq::empty()
    } else {
        grid.subrange(k, grid.len() - 1).filter(is_not_full())
    }
}

/// The grid when the rows from `k` up have been swept for full rows.
spec fn swept(grid: Grid, k: int) -> Grid {
    grid.take(k) + kept_from(grid, k) + Seq::new(
        (grid.len() - k - kept_from(grid, k).len()) as nat,
        |i: int| grid.last(),
    )
}

proof fn lemma_sweep_start(grid: Grid)
    ensures
        swept(grid, grid.len() as int) == grid,
        full_from(grid, grid.len() as int) == 0,
{
    reveal(Seq::filter);
    assert(swept(grid, grid.len() as int) =~= grid);
    assert(grid.subrange(grid.len() as int, grid.len() as int) =~= Seq::<Seq<u8>>::empty());
}

proof fn lemma_sweep_end(grid: Grid)
    requires
        grid.len() > 0,
    ensures
        swept(grid, 0) == cleared(grid),
        full_from(grid, 0) == full_row_count(grid),
{
    assert(grid.subrange(0, grid.len() as int) =~= grid);
    assert(grid.subrange(0, grid.len() - 1) =~= grid.drop_last());
    if grid.len() == 1 {
        reveal(Seq::filter);
        assert(grid.drop_last() =~= Seq::<Seq<u8>>::empty());
    }
    assert(swept(grid, 0) =~= cleared(grid));
}

proof fn lemma_sweep_step(grid: Grid, k: int)
    requires
        1 <= k <= grid.len(),
    ensures
        full_from(grid, k) <= grid.len() - k,
        kept_from(grid, k).len() + k < grid.len() || k == grid.len(),
        full_from(grid, k - 1) == full_from(grid, k) + if row_is_full(grid[k - 1]) {
            1nat
        } else {
            0nat
        },
        !row_is_full(grid[k - 1]) || k == grid.len() ==> swept(grid, k - 1) == swept(grid, k),
        row_is_full(grid[k - 1]) && k < grid.len() ==> swept(grid, k - 1) == swept(grid, k).remove(
            k - 1,
        ).push(grid.last()),
{
    let n = grid.len() as int;
    let row = grid[k - 1];
    grid.subrange(k, n).lemma_filter_len(is_full());
    assert(grid.subrange(k - 1, n) =~= seq![row] + grid.subrange(k, n));
    grid.subrange(k, n).lemma_filter_prepend(row, is_full());
    if k == n {
        assert(swept(grid, k - 1) =~= swept(grid, k));
    } else {
        grid.subrange(k, n - 1).lemma_filter_len(is_not_full());
        assert(grid.subrange(k - 1, n - 1) =~= seq![row] + grid.subrange(k, n - 1));
        grid.subrange(k, n - 1).lemma_filter_prepend(row, is_not_full());
        if k == n - 1 {
            reveal(Seq::filter);
            assert(grid.subrange(k, n - 1) =~= Seq::<Seq<u8>>::empty());
        }
        if row_is_full(row) {
            assert(swept(grid, k - 1) =~= swept(grid, k).remove(k - 1).push(grid.last()));
        } else {
            assert(swept(grid, k - 1) =~= swept(grid, k));
        }
    }
}

} // verus!

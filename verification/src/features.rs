//! The statistics of a board that the value function is fed with.

use vstd::prelude::*;
use crate::board::{Board, Grid, GAME_HEIGHT, GAME_WIDTH};

verus! {

/// Length of the feature vector.
pub const FEATURE_LENGTH: usize = 4;

/// Number of pairs of adjacent columns.
pub const GAP_COUNT: usize = GAME_WIDTH - 1;

/// Height of column `x` when only its lowest `n` rows are looked at: one
/// more than the index of the topmost occupied row among them, or 0.
pub open spec fn height_below(grid: Grid, x: int, n: int) -> int
    decreases n,
{
    if n <= 0 {
        0
    } else if grid[n - 1][x] != 0 {
        n
    } else {
        height_below(grid, x, n - 1)
    }
}

/// Height of column `x`: one more than the index of its topmost occupied
/// row, or 0 for an empty column.
pub open spec fn column_height(grid: Grid, x: int) -> int {
    height_below(grid, x, GAME_HEIGHT as int)
}

/// Number of empty cells of column `x` among its lowest `n` rows.
pub open spec fn empty_below(grid: Grid, x: int, n: int) -> int
    decreases n,
{
    if n <= 0 {
        0
    } else {
        empty_below(grid, x, n - 1) + if grid[n - 1][x] == 0 {
            1int
        } else {
            0int
        }
    }
}

/// Number of holes of column `x`: its empty cells that lie below an
/// occupied cell of the column.
pub open spec fn column_holes(grid: Grid, x: int) -> int {
    empty_below(grid, x, column_height(grid, x))
}

/// Absolute difference of the heights of columns `x` and `x + 1`.
pub open spec fn height_step(grid: Grid, x: int) -> int {
    let d = column_height(grid, x + 1) - column_height(grid, x);
    if d < 0 {
        -d
    } else {
        d
    }
}

/// Sum of the heights of the first `n` columns.
pub open spec fn total_height(grid: Grid, n: int) -> int
    decreases n,
{
    if n <= 0 {
        0
    } else {
        total_height(grid, n - 1) + column_height(grid, n - 1)
    }
}

/// Largest height among the first `n` columns, 0 for none.
pub open spec fn max_height(grid: Grid, n: int) -> int
    decreases n,
{
    if n <= 0 {
        0
    } else if column_height(grid, n - 1) > max_height(grid, n - 1) {
        column_height(grid, n - 1)
    } else {
        max_height(grid, n - 1)
    }
}

/// Number of holes in the first `n` columns.
pub open spec fn total_holes(grid: Grid, n: int) -> int
    decreases n,
{
    if n <= 0 {
        0
    } else {
        total_holes(grid, n - 1) + column_holes(grid, n - 1)
    }
}

/// Sum of the height steps between the first `n + 1` columns.
pub open spec fn bumpiness(grid: Grid, n: int) -> int
    decreases n,
{
    if n <= 0 {
        0
    } else {
        bumpiness(grid, n - 1) + height_step(grid, n - 1)
    }
}

/// The statistics of one board. The mean column height is kept as the sum
/// of the heights, which is the mean times the width of the board.
#[derive(Clone, Copy, Debug, PartialEq, Eq)]
pub struct Features {
    pub heights: [i32; GAME_WIDTH],
    pub height_differences: [i32; GAP_COUNT],
    pub maximum_height: i32,
    pub total_height: i32,
    pub number_of_holes: [i32; GAME_WIDTH],
    pub total_no_holes: i32,
    pub is_terminal: bool,
    pub sum_of_height_differences: i32,
}

impl Features {
    /// Whether the statistics are those of `grid`. The terminal flag is not
    /// a statistic of the grid and is left open.
    pub open spec fn describes(self, grid: Grid) -> bool {
        &&& forall|x: int|
            0 <= x < GAME_WIDTH ==> #[trigger] self.heights[x] == column_height(grid, x)
        &&& forall|x: int|
            0 <= x < GAP_COUNT ==> #[trigger] self.height_differences[x] == height_step(grid, x)
        &&& forall|x: int|
            0 <= x < GAME_WIDTH ==> #[trigger] self.number_of_holes[x] == column_holes(grid, x)
        &&& self.maximum_height == max_height(grid, GAME_WIDTH as int)
        &&& self.total_height == total_height(grid, GAME_WIDTH as int)
        &&& self.total_no_holes == total_holes(grid, GAME_WIDTH as int)
        &&& self.sum_of_height_differences == bumpiness(grid, GAP_COUNT as int)
    }

    /// Computes the statistics of a board. The result is not terminal.
    pub fn build(board: Board) -> (r: Features)
        ensures
            r.describes(board@),
            !r.is_terminal,
    {
        let ghost grid = board@;
        let mut heights = [0i32; GAME_WIDTH];
        let mut height_differences = [0i32; GAP_COUNT];
        let mut maximum_height: i32 = 0;
        let mut total: i32 = 0;
        let mut number_of_holes = [0i32; GAME_WIDTH];
        let mut total_no_holes: i32 = 0;
        let mut sum_of_height_differences: i32 = 0;

        let mut i: usize = 0;
        while i < GAME_WIDTH
            invariant
                i <= GAME_WIDTH,
                grid == board@,
                forall|x: int| 0 <= x < i ==> #[trigger] heights[x] == column_height(grid, x),
                forall|x: int|
                    0 <= x < i - 1 ==> #[trigger] height_differences[x] == height_step(grid, x),
                forall|x: int|
                    0 <= x < i ==> #[trigger] number_of_holes[x] == column_holes(grid, x),
                maximum_height == max_height(grid, i as int),
                total == total_height(grid, i as int),
                total_no_holes == total_holes(grid, i as int),
                sum_of_height_differences == bumpiness(grid, i - 1),
                0 <= maximum_height <= GAME_HEIGHT,
                0 <= total <= GAME_HEIGHT * i,
                0 <= total_no_holes <= GAME_HEIGHT * i,
                0 <= sum_of_height_differences <= GAME_HEIGHT * i,
            decreases GAME_WIDTH - i,
        {
            let mut height: i32 = 0;
            let mut j: usize = 0;
            while j < GAME_HEIGHT
                invariant
                    j <= GAME_HEIGHT,
                    i < GAME_WIDTH,
                    grid == board@,
                    height == height_below(grid, i as int, j as int),
                    0 <= height <= j,
                decreases GAME_HEIGHT - j,
            {
                if board.state[j][i] != 0 {
                    height = j as i32 + 1;
                }
                j += 1;
            }
            let mut holes: i32 = 0;
            let mut j: usize = 0;
            while j < height as usize
                invariant
                    j <= height <= GAME_HEIGHT,
                    i < GAME_WIDTH,
                    grid == board@,
                    holes == empty_below(grid, i as int, j as int),
                    0 <= holes <= j,
                decreases height - j,
            {
                if board.state[j][i] == 0 {
                    holes += 1;
                }
                j += 1;
            }
            heights[i] = height;
            number_of_holes[i] = holes;
            total_no_holes += holes;
            total += height;
            if height > maximum_height {
                maximum_height = height;
            }
            if i > 0 {
                let previous = heights[i - 1];
                proof {
                    lemma_column_bounded(grid, i - 1, GAME_HEIGHT as int);
                }
                let difference = if height >= previous {
                    height - previous
                } else {
                    previous - height
                };
                height_differences[i - 1] = difference;
                sum_of_height_differences += difference;
            }
            i += 1;
        }

        Features {
            heights,
            height_differences,
            maximum_height,
            total_height: total,
            number_of_holes,
            total_no_holes,
            is_terminal: false,
            sum_of_height_differences,
        }
    }

    /// The descriptor that the value function reads: the sum of the column
    /// heights (the mean height times the board's width), the sum of the
    /// height differences, the number of holes, and the constant 1.
    pub fn get_vector(&self) -> (r: [i32; FEATURE_LENGTH])
        ensures
            r[0] == self.total_height,
            r[1] == self.sum_of_height_differences,
            r[2] == self.total_no_holes,
            r[3] == 1,
    {
        [self.total_height, self.sum_of_height_differences, self.total_no_holes, 1]
    }

    /// Bounds on the statistics of any board.
    pub proof fn lemma_bounds(self, grid: Grid)
        requires
            self.describes(grid),
        ensures
            0 <= self.total_height <= GAME_WIDTH * GAME_HEIGHT,
            0 <= self.total_no_holes <= GAME_WIDTH * GAME_HEIGHT,
            0 <= self.maximum_height <= GAME_HEIGHT,
    {
        lemma_totals_bounded(grid, GAME_WIDTH as int);
    }

    /// The statistics are a function of the board: two values that describe
    /// the same grid and carry the same terminal flag are equal, and so are
    /// their vectors.
    pub proof fn lemma_deterministic(self, other: Features, grid: Grid)
        requires
            self.describes(grid),
            other.describes(grid),
            self.is_terminal == other.is_terminal,
        ensures
            self == other,
    {
        assert(self.heights =~= other.heights);
        assert(self.height_differences =~= other.height_differences);
        assert(self.number_of_holes =~= other.number_of_holes);
    }
}

/// The height of a column and the number of its holes are at most the
/// number of rows looked at.
pub proof fn lemma_column_bounded(grid: Grid, x: int, n: int)
    requires
        0 <= n,
    ensures
        0 <= height_below(grid, x, n) <= n,
        0 <= empty_below(grid, x, n) <= n,
    decreases n,
{
    if n > 0 {
        lemma_column_bounded(grid, x, n - 1);
    }
}

/// The sums over the first `n` columns are bounded by `n` times the height
/// of the board.
pub proof fn lemma_totals_bounded(grid: Grid, n: int)
    requires
        0 <= n,
    ensures
        0 <= total_height(grid, n) <= GAME_HEIGHT * n,
        0 <= total_holes(grid, n) <= GAME_HEIGHT * n,
        0 <= max_height(grid, n) <= GAME_HEIGHT,
    decreases n,
{
    if n > 0 {
        lemma_totals_bounded(grid, n - 1);
        lemma_column_bounded(grid, n - 1, GAME_HEIGHT as int);
        lemma_column_bounded(grid, n - 1, column_height(grid, n - 1));
    }
}

} // verus!

//! The grid and its toroidal addressing.
//!
//! A grid of `width` columns and `height` rows keeps its cells in one flat
//! sequence, row after row: the cell in column `x` of row `y` has the index
//! `y * width + x`. The grid has no border. Going up from the top row leads to
//! the bottom row of the same column, going left from the first column leads
//! to the last column of the same row, and so on.

use vstd::prelude::*;
use vstd::arithmetic::div_mod::lemma_fundamental_div_mod;
use vstd::arithmetic::div_mod::lemma_fundamental_div_mod_converse;
use vstd::arithmetic::div_mod::lemma_mod_add_multiples_vanish;
use crate::dice::roll_dice;

verus! {

/// What a [`Grid`] is, as plain mathematics: its two dimensions, the length of
/// the cycle of states, and the state of every cell, row after row.
pub struct GridView {
    pub width: nat,
    pub height: nat,
    pub range: int,
    pub states: Seq<int>,
}

impl GridView {
    /// A grid is well formed when it has at least one column and one row, a
    /// cycle of at least two states, and exactly one state for every cell.
    pub open spec fn wf(self) -> bool {
        &&& self.width > 0
        &&& self.height > 0
        &&& self.range > 1
        &&& self.states.len() == self.width * self.height
    }

    /// Whether `idx` is the index of a cell.
    pub open spec fn contains(self, idx: int) -> bool {
        0 <= idx < self.width * self.height
    }

    /// Whether column `x` of row `y` lies on the grid.
    pub open spec fn contains_xy(self, x: int, y: int) -> bool {
        0 <= x < self.width && 0 <= y < self.height
    }

    /// The index of the cell in column `x` of row `y`.
    pub open spec fn xy_idx(self, x: int, y: int) -> int {
        y * self.width + x
    }

    /// The column and the row of the cell with index `idx`.
    pub open spec fn idx_xy(self, idx: int) -> (int, int) {
        (idx % (self.width as int), idx / (self.width as int))
    }

    /// The index of the cell above `idx`: from the top row, the cell of the
    /// same column in the bottom row.
    pub open spec fn up_idx(self, idx: int) -> int {
        if idx < self.width {
            idx + self.width * (self.height - 1)
        } else {
            idx - self.width
        }
    }

    /// The index of the cell below `idx`: from the bottom row, the cell of
    /// the same column in the top row.
    pub open spec fn down_idx(self, idx: int) -> int {
        if idx + self.width >= self.width * self.height {
            (idx + self.width) % (self.width as int)
        } else {
            idx + self.width
        }
    }

    /// The index of the cell left of `idx`: from the first column, the cell
    /// of the same row in the last column.
    pub open spec fn left_idx(self, idx: int) -> int {
        if idx % (self.width as int) == 0 {
            idx + self.width - 1
        } else {
            idx - 1
        }
    }

    /// The index of the cell right of `idx`: from the last column, the cell
    /// of the same row in the first column.
    pub open spec fn right_idx(self, idx: int) -> int {
        if (idx + 1) % (self.width as int) == 0 {
            idx - self.width + 1
        } else {
            idx + 1
        }
    }

    /// The state of the cell above `idx`.
    pub open spec fn up(self, idx: int) -> int {
        self.states[self.up_idx(idx)]
    }

    /// The state of the cell below `idx`.
    pub open spec fn down(self, idx: int) -> int {
        self.states[self.down_idx(idx)]
    }

    /// The state of the cell left of `idx`.
    pub open spec fn left(self, idx: int) -> int {
        self.states[self.left_idx(idx)]
    }

    /// The state of the cell right of `idx`.
    pub open spec fn right(self, idx: int) -> int {
        self.states[self.right_idx(idx)]
    }

    /// Whether every cell holds a state of the cycle `0, 1, .., range - 1`.
    pub open spec fn in_cycle(self) -> bool {
        forall|i: int| 0 <= i < self.states.len() ==> 0 <= #[trigger] self.states[i] < self.range
    }

    /// Whether every cell holds a state between `lo` and `hi`, both included.
    pub open spec fn states_within(self, lo: int, hi: int) -> bool {
        forall|i: int| 0 <= i < self.states.len() ==> lo <= #[trigger] self.states[i] <= hi
    }
}

/// An index below `w * h` splits into a column below `w` and a row below `h`.
proof fn lemma_split(idx: int, w: int, h: int)
    requires
        w > 0,
        h > 0,
        0 <= idx < w * h,
    ensures
        0 <= idx % w < w,
        0 <= idx / w < h,
        idx == (idx / w) * w + idx % w,
{
    lemma_fundamental_div_mod(idx, w);
    let q = idx / w;
    let r = idx % w;
    assert(0 <= r < w) by (nonlinear_arith)
        requires
            w > 0,
            r == idx % w,
    ;
    assert(q * w == w * q) by (nonlinear_arith);
    assert(0 <= q < h) by (nonlinear_arith)
        requires
            w > 0,
            h > 0,
            0 <= r < w,
            0 <= q * w + r < w * h,
    ;
}

/// A column below `w` and a row below `h` join into an index below `w * h`,
/// which splits into the same column and row again.
proof fn lemma_join(x: int, y: int, w: int, h: int)
    requires
        0 <= x < w,
        0 <= y < h,
    ensures
        0 <= y * w + x < w * h,
        (y * w + x) % w == x,
        (y * w + x) / w == y,
{
    assert(0 <= y * w && y * w + w <= w * h) by (nonlinear_arith)
        requires
            0 < w,
            0 <= y < h,
    ;
    lemma_fundamental_div_mod_converse(y * w + x, w, y, x);
}

impl GridView {
    /// Index round trip: the column and row of a cell lie on the grid, and
    /// lead back to the index they were taken from.
    pub proof fn lemma_idx_xy_round_trip(self, idx: int)
        requires
            self.wf(),
            self.contains(idx),
        ensures
            self.contains_xy(self.idx_xy(idx).0, self.idx_xy(idx).1),
            self.xy_idx(self.idx_xy(idx).0, self.idx_xy(idx).1) == idx,
    {
        lemma_split(idx, self.width as int, self.height as int);
    }

    /// Coordinate round trip: a column and a row on the grid give the index
    /// of a cell, and that cell lies in just that column and row.
    pub proof fn lemma_xy_idx_round_trip(self, x: int, y: int)
        requires
            self.wf(),
            self.contains_xy(x, y),
        ensures
            self.contains(self.xy_idx(x, y)),
            self.idx_xy(self.xy_idx(x, y)) == (x, y),
    {
        lemma_join(x, y, self.width as int, self.height as int);
    }
}

/// What `v % m` is for a coordinate `v` that is at most one step off the range
/// `0 .. m`: one step below it wraps to the far end, one step beyond it wraps
/// to `0`.
proof fn lemma_wrap_mod(v: int, m: int)
    requires
        m > 0,
        -1 <= v <= m,
    ensures
        v % m == if v == -1 {
            m - 1
        } else if v == m {
            0
        } else {
            v
        },
{
    if v == -1 {
        lemma_fundamental_div_mod_converse(v, m, -1, m - 1);
    } else if v == m {
        lemma_fundamental_div_mod_converse(v, m, 1, 0);
    } else {
        lemma_fundamental_div_mod_converse(v, m, 0, v);
    }
}

impl GridView {
    /// The grid is a torus: the four neighbours of the cell in column `x` of
    /// row `y` are the cells one row up or down, or one column left or
    /// right, where rows count modulo the height and columns modulo the
    /// width.
    pub proof fn lemma_neighbours_wrap(self, idx: int)
        requires
            self.wf(),
            self.contains(idx),
        ensures
            ({
                let (x, y) = self.idx_xy(idx);
                let w = self.width as int;
                let h = self.height as int;
                &&& self.up_idx(idx) == self.xy_idx(x, (y - 1) % h)
                &&& self.down_idx(idx) == self.xy_idx(x, (y + 1) % h)
                &&& self.left_idx(idx) == self.xy_idx((x - 1) % w, y)
                &&& self.right_idx(idx) == self.xy_idx((x + 1) % w, y)
            }),
    {
        let (x, y) = self.idx_xy(idx);
        let w = self.width as int;
        let h = self.height as int;
        lemma_split(idx, w, h);
        assert(self.up_idx(idx) == self.xy_idx(x, (y - 1) % h)) by {
            let above = (y - 1) % h;
            lemma_wrap_mod(y - 1, h);
            if y == 0 {
                assert(y * w == 0 && above * w == w * (h - 1)) by (nonlinear_arith)
                    requires
                        y == 0,
                        above == h - 1,
                ;
            } else {
                assert(y * w >= w && above * w == y * w - w) by (nonlinear_arith)
                    requires
                        y >= 1,
                        w > 0,
                        above == y - 1,
                ;
            }
        }
        assert(self.down_idx(idx) == self.xy_idx(x, (y + 1) % h)) by {
            let below = (y + 1) % h;
            lemma_wrap_mod(y + 1, h);
            if y == h - 1 {
                assert(y * w + w == w * h && below * w == 0 && (y + 1) * w == y * w + w)
                    by (nonlinear_arith)
                    requires
                        y == h - 1,
                        below == 0,
                ;
                lemma_fundamental_div_mod_converse(idx + w, w, y + 1, x);
            } else {
                assert(y * w + w + w <= w * h && below * w == y * w + w) by (nonlinear_arith)
                    requires
                        0 <= y <= h - 2,
                        w > 0,
                        below == y + 1,
                ;
            }
        }
        assert(self.left_idx(idx) == self.xy_idx((x - 1) % w, y)) by {
            lemma_wrap_mod(x - 1, w);
        }
        assert(self.right_idx(idx) == self.xy_idx((x + 1) % w, y)) by {
            lemma_wrap_mod(x + 1, w);
            if x == w - 1 {
                assert((y + 1) * w == y * w + w) by (nonlinear_arith);
                lemma_fundamental_div_mod_converse(idx + 1, w, y + 1, 0);
            } else {
                lemma_fundamental_div_mod_converse(idx + 1, w, y, x + 1);
            }
        }
    }

    /// The four neighbours of a cell are cells of the grid.
    pub proof fn lemma_neighbours_on_grid(self, idx: int)
        requires
            self.wf(),
            self.contains(idx),
        ensures
            self.contains(self.up_idx(idx)),
            self.contains(self.down_idx(idx)),
            self.contains(self.left_idx(idx)),
            self.contains(self.right_idx(idx)),
    {
        let (x, y) = self.idx_xy(idx);
        let w = self.width as int;
        let h = self.height as int;
        lemma_split(idx, w, h);
        self.lemma_neighbours_wrap(idx);
        lemma_wrap_mod(y - 1, h);
        lemma_wrap_mod(y + 1, h);
        lemma_wrap_mod(x - 1, w);
        lemma_wrap_mod(x + 1, w);
        lemma_join(x, (y - 1) % h, w, h);
        lemma_join(x, (y + 1) % h, w, h);
        lemma_join((x - 1) % w, y, w, h);
        lemma_join((x + 1) % w, y, w, h);
    }

    /// Wraparound between the top and the bottom row: in every column, the
    /// cell above the top row is the cell of the bottom row, and the cell
    /// below the bottom row is the cell of the top row.
    pub proof fn lemma_vertical_wraparound(self, x: int)
        requires
            self.wf(),
            0 <= x < self.width,
        ensures
            self.up(self.xy_idx(x, 0)) == self.states[self.xy_idx(x, self.height - 1)],
            self.down(self.xy_idx(x, self.height - 1)) == self.states[self.xy_idx(x, 0)],
    {
        let h = self.height as int;
        self.lemma_xy_idx_round_trip(x, 0);
        self.lemma_xy_idx_round_trip(x, h - 1);
        self.lemma_neighbours_wrap(self.xy_idx(x, 0));
        self.lemma_neighbours_wrap(self.xy_idx(x, h - 1));
        lemma_wrap_mod(-1, h);
        lemma_wrap_mod(h, h);
    }

    /// Wraparound between the first and the last column: in every row, the
    /// cell left of the first column is the cell of the last column, and the
    /// cell right of the last column is the cell of the first column.
    pub proof fn lemma_horizontal_wraparound(self, y: int)
        requires
            self.wf(),
            0 <= y < self.height,
        ensures
            self.left(self.xy_idx(0, y)) == self.states[self.xy_idx(self.width - 1, y)],
            self.right(self.xy_idx(self.width - 1, y)) == self.states[self.xy_idx(0, y)],
    {
        let w = self.width as int;
        self.lemma_xy_idx_round_trip(0, y);
        self.lemma_xy_idx_round_trip(w - 1, y);
        self.lemma_neighbours_wrap(self.xy_idx(0, y));
        self.lemma_neighbours_wrap(self.xy_idx(w - 1, y));
        lemma_wrap_mod(-1, w);
        lemma_wrap_mod(w, w);
    }

    /// On a grid of one column every cell is its own left and right
    /// neighbour, and on a grid of one row every cell is its own upper and
    /// lower neighbour.
    pub proof fn lemma_degenerate_wraparound(self, idx: int)
        requires
            self.wf(),
            self.contains(idx),
        ensures
            self.width == 1 ==> self.left_idx(idx) == idx && self.right_idx(idx) == idx,
            self.height == 1 ==> self.up_idx(idx) == idx && self.down_idx(idx) == idx,
    {
        let (x, y) = self.idx_xy(idx);
        let w = self.width as int;
        let h = self.height as int;
        lemma_split(idx, w, h);
        self.lemma_neighbours_wrap(idx);
        lemma_wrap_mod(y - 1, h);
        lemma_wrap_mod(y + 1, h);
        lemma_wrap_mod(x - 1, w);
        lemma_wrap_mod(x + 1, w);
    }
}

/// Why a grid could not be made.
#[derive(Clone, Copy, Debug, PartialEq, Eq, Structural)]
pub enum GridError {
    /// The width or the height is `0`.
    InvalidDimensions,
    /// The cycle has fewer than two states.
    InvalidRange,
    /// The states handed in are not one for every cell.
    WrongLength,
}

/// Checks the shape of a grid: the dimensions first, then the range.
fn check_shape(width: usize, height: usize, range: i32) -> (checked: Result<(), GridError>)
    ensures
        match checked {
            Ok(()) => width > 0 && height > 0 && range > 1,
            Err(GridError::InvalidDimensions) => width == 0 || height == 0,
            Err(GridError::InvalidRange) => width > 0 && height > 0 && range <= 1,
            Err(GridError::WrongLength) => false,
        },
{
    if width == 0 || height == 0 {
        Err(GridError::InvalidDimensions)
    } else if range <= 1 {
        Err(GridError::InvalidRange)
    } else {
        Ok(())
    }
}

/// A toroidal grid of cells, each in one state of a cycle.
///
/// The fields are open to the driver that renders the grid. The methods ask
/// for a grid that is well formed (`self@.wf()`): `states` holds exactly
/// `width * height` cells.
#[derive(Clone)]
pub struct Grid {
    pub width: usize,
    pub height: usize,
    pub range: i32,
    pub states: Vec<i32>,
}

impl View for Grid {
    type V = GridView;

    open spec fn view(&self) -> GridView {
        GridView {
            width: self.width as nat,
            height: self.height as nat,
            range: self.range as int,
            states: self.states@.map_values(|state: i32| state as int),
        }
    }
}

impl Default for Grid {
    /// The empty grid: no columns, no rows, no cells. It is not well formed.
    fn default() -> (grid: Grid)
        ensures
            grid.width == 0,
            grid.height == 0,
            grid.range == 0,
            grid.states@.len() == 0,
    {
        Grid { width: 0, height: 0, range: 0, states: Vec::new() }
    }
}

impl Grid {
    /// The model holds one state for every element of the vector, and their
    /// number fits in `usize`.
    proof fn lemma_states_len(&self)
        ensures
            self@.states.len() == self.states@.len(),
            self.states@.len() <= usize::MAX,
    {
        assert(self.states@.len() == self.states.len());
    }

    /// A well-formed grid has as many cells as its vector holds, which is a
    /// number that fits in `usize`.
    proof fn lemma_cells_fit(&self)
        requires
            self@.wf(),
        ensures
            self.width * self.height == self.states@.len(),
            self.width * self.height <= usize::MAX,
            0 <= self.width * (self.height - 1) <= self.width * self.height - self.width,
    {
        self.lemma_states_len();
        assert(self.width * (self.height - 1) == self.width * self.height - self.width
            && 0 <= self.width * (self.height - 1)) by (nonlinear_arith)
            requires
                self.height >= 1,
        ;
    }

    /// Makes a grid of `width` columns and `height` rows over a cycle of
    /// `range` states, and seeds every cell with one roll of a die of `range`
    /// faces.
    ///
    /// Fails on a grid without columns or rows and on a cycle of fewer than
    /// two states, before any die is rolled. A new grid is well formed and
    /// holds a state between `1` and `range` in every cell; which ones is up
    /// to `rng`.
    pub fn new(
        width: usize,
        height: usize,
        range: i32,
        rng: &mut rltk::RandomNumberGenerator,
    ) -> (made: Result<Grid, GridError>)
        requires
            width * height <= usize::MAX,
            range < i32::MAX,
        ensures
            match made {
                Ok(grid) => {
                    &&& width > 0 && height > 0 && range > 1
                    &&& grid.width == width && grid.height == height && grid.range == range
                    &&& grid@.wf()
                    &&& grid@.states_within(1, range as int)
                },
                Err(GridError::InvalidDimensions) => width == 0 || height == 0,
                Err(GridError::InvalidRange) => width > 0 && height > 0 && range <= 1,
                Err(GridError::WrongLength) => false,
            },
    {
        match check_shape(width, height, range) {
            Err(error) => {
                return Err(error);
            },
            Ok(()) => {},
        }
        let cells: usize = width * height;
        let mut states: Vec<i32> = Vec::new();
        let mut idx: usize = 0;
        while idx < cells
            invariant
                idx <= cells,
                states.len() == idx,
                1 < range < i32::MAX,
                forall|i: int| 0 <= i < idx ==> 1 <= #[trigger] states[i] <= range,
            decreases cells - idx,
        {
            let face: i32 = roll_dice(rng, 1, range);
            states.push(face);
            idx = idx + 1;
        }
        Grid::from_states(width, height, range, states)
    }

    /// Makes a grid of `width` columns and `height` rows over a cycle of
    /// `range` states that holds `states`, row after row.
    ///
    /// Fails on a grid without columns or rows, on a cycle of fewer than two
    /// states, and where `states` is not one state for every cell, in this
    /// order. The states themselves are taken as they are.
    pub fn from_states(
        width: usize,
        height: usize,
        range: i32,
        states: Vec<i32>,
    ) -> (made: Result<Grid, GridError>)
        ensures
            match made {
                Ok(grid) => {
                    &&& width > 0 && height > 0 && range > 1
                    &&& states@.len() == width * height
                    &&& grid.width == width && grid.height == height && grid.range == range
                    &&& grid.states@ == states@
                    &&& grid@.wf()
                },
                Err(GridError::InvalidDimensions) => width == 0 || height == 0,
                Err(GridError::InvalidRange) => width > 0 && height > 0 && range <= 1,
                Err(GridError::WrongLength) => {
                    &&& width > 0 && height > 0 && range > 1
                    &&& states@.len() != width * height
                },
            },
    {
        match check_shape(width, height, range) {
            Err(error) => {
                return Err(error);
            },
            Ok(()) => {},
        }
        let held: usize = states.len();
        match width.checked_mul(height) {
            Some(cells) => {
                if cells == held {
                    let grid = Grid { width, height, range, states };
                    proof {
                        grid.lemma_states_len();
                    }
                    Ok(grid)
                } else {
                    Err(GridError::WrongLength)
                }
            },
            None => Err(GridError::WrongLength),
        }
    }

    /// Whether the grid is well formed: at least one column and one row, a
    /// cycle of at least two states, and exactly one state for every cell.
    pub fn is_well_formed(&self) -> (ok: bool)
        ensures
            ok == self@.wf(),
    {
        proof {
            self.lemma_states_len();
        }
        if self.width == 0 || self.height == 0 || self.range <= 1 {
            return false;
        }
        match self.width.checked_mul(self.height) {
            Some(cells) => cells == self.states.len(),
            None => false,
        }
    }

    /// The column and the row of the cell with index `idx`.
    ///
    /// Both are handed out as `i32`, so both have to fit in one.
    pub fn idx_xy(&self, idx: usize) -> (xy: (i32, i32))
        requires
            self@.wf(),
            self@.contains(idx as int),
            self@.idx_xy(idx as int).0 <= i32::MAX,
            self@.idx_xy(idx as int).1 <= i32::MAX,
        ensures
            (xy.0 as int, xy.1 as int) == self@.idx_xy(idx as int),
    {
        proof {
            self@.lemma_idx_xy_round_trip(idx as int);
        }
        let x: i32 = (idx % self.width) as i32;
        let y: i32 = (idx / self.width) as i32;
        (x, y)
    }

    /// The index of the cell in column `x` of row `y`.
    pub fn xy_idx(&self, x: i32, y: i32) -> (idx: usize)
        requires
            self@.wf(),
            self@.contains_xy(x as int, y as int),
        ensures
            idx == self@.xy_idx(x as int, y as int),
            self@.contains(idx as int),
    {
        proof {
            self.lemma_cells_fit();
            lemma_join(x as int, y as int, self.width as int, self.height as int);
            assert(0 <= y * self.width) by (nonlinear_arith)
                requires
                    0 <= y,
            ;
        }
        (y as usize * self.width) + x as usize
    }

    /// The state of the cell above `idx`, which for the top row is the cell
    /// of the same column in the bottom row.
    pub fn up(&self, idx: usize) -> (state: i32)
        requires
            self@.wf(),
            self@.contains(idx as int),
        ensures
            state == self@.up(idx as int),
    {
        proof {
            self.lemma_cells_fit();
            self@.lemma_neighbours_on_grid(idx as int);
        }
        if idx < self.width {
            let new_idx: usize = self.width * (self.height - 1) + idx;
            self.states[new_idx]
        } else {
            let new_idx: usize = idx - self.width;
            self.states[new_idx]
        }
    }

    /// The state of the cell below `idx`, which for the bottom row is the
    /// cell of the same column in the top row.
    pub fn down(&self, idx: usize) -> (state: i32)
        requires
            self@.wf(),
            self@.contains(idx as int),
        ensures
            state == self@.down(idx as int),
    {
        proof {
            self.lemma_cells_fit();
            self@.lemma_neighbours_on_grid(idx as int);
            lemma_mod_add_multiples_vanish(idx as int, self.width as int);
        }
        if idx < self.width * self.height - self.width {
            self.states[idx + self.width]
        } else {
            self.states[idx % self.width]
        }
    }

    /// The state of the cell left of `idx`, which for the first column is
    /// the cell of the same row in the last column.
    pub fn left(&self, idx: usize) -> (state: i32)
        requires
            self@.wf(),
            self@.contains(idx as int),
        ensures
            state == self@.left(idx as int),
    {
        proof {
            self.lemma_cells_fit();
            self@.lemma_neighbours_on_grid(idx as int);
        }
        if idx % self.width == 0 {
            self.states[idx + self.width - 1]
        } else {
            self.states[idx - 1]
        }
    }

    /// The state of the cell right of `idx`, which for the last column is
    /// the cell of the same row in the first column.
    pub fn right(&self, idx: usize) -> (state: i32)
        requires
            self@.wf(),
            self@.contains(idx as int),
        ensures
            state == self@.right(idx as int),
    {
        proof {
            self.lemma_cells_fit();
            self@.lemma_neighbours_on_grid(idx as int);
        }
        if (idx + 1) % self.width == 0 {
            self.states[idx + 1 - self.width]
        } else {
            self.states[idx + 1]
        }
    }
}

} // verus!

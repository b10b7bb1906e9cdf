//! The rule that advances a grid by one generation.
//!
//! All cells change at once: the next state of a cell depends on its own
//! state and on the states of its four neighbours as they are before the
//! generation begins, never on a state that the same generation has already
//! written.

use vstd::prelude::*;
use crate::grid::Grid;
use crate::grid::GridView;

verus! {

impl GridView {
    /// Whether one of the four neighbours of the cell `idx` holds `state`.
    pub open spec fn has_neighbour(self, idx: int, state: int) -> bool {
        ||| self.up(idx) == state
        ||| self.down(idx) == state
        ||| self.left(idx) == state
        ||| self.right(idx) == state
    }

    /// The state of the cell `idx` in the next generation.
    ///
    /// A cell at the top of the cycle, `range - 1`, falls back to `0` if a
    /// neighbour holds `0`. Any other cell moves on to the state after its
    /// own if a neighbour holds that state. Otherwise the cell stays as it
    /// is.
    pub open spec fn next_state(self, idx: int) -> int {
        let state = self.states[idx];
        if state == self.range - 1 {
            if self.has_neighbour(idx, 0) {
                0
            } else {
                state
            }
        } else {
            if self.has_neighbour(idx, state + 1) {
                state + 1
            } else {
                state
            }
        }
    }

    /// The next generation: the same grid with every cell in its next state.
    pub open spec fn step(self) -> GridView {
        GridView {
            width: self.width,
            height: self.height,
            range: self.range,
            states: Seq::new(self.states.len(), |idx: int| self.next_state(idx)),
        }
    }

    /// The grid as it is `generations` generations later.
    pub open spec fn after(self, generations: nat) -> GridView
        decreases generations,
    {
        if generations == 0 {
            self
        } else {
            self.step().after((generations - 1) as nat)
        }
    }

    /// Single-step bound: in one generation a cell keeps its state, moves on
    /// by exactly one, or, only from the top of the cycle, falls back to `0`.
    pub proof fn lemma_single_step_bound(self, idx: int)
        requires
            self.wf(),
            self.contains(idx),
        ensures
            ({
                let before = self.states[idx];
                let after = self.step().states[idx];
                ||| after == before
                ||| after == before + 1
                ||| before == self.range - 1 && after == 0
            }),
    {
    }

    /// Size invariant of one generation: the next generation of a
    /// well-formed grid is a well-formed grid of the same width, height and
    /// range, so it has `width * height` cells again.
    pub proof fn lemma_step_keeps_shape(self)
        requires
            self.wf(),
        ensures
            self.step().wf(),
            self.step().width == self.width,
            self.step().height == self.height,
            self.step().range == self.range,
            self.step().states.len() == self.width * self.height,
    {
    }

    /// Size invariant: after any number of generations a well-formed grid is
    /// still a well-formed grid of the same width, height and range, so it
    /// still has `width * height` cells.
    pub proof fn lemma_after_keeps_shape(self, generations: nat)
        requires
            self.wf(),
        ensures
            self.after(generations).wf(),
            self.after(generations).width == self.width,
            self.after(generations).height == self.height,
            self.after(generations).range == self.range,
            self.after(generations).states.len() == self.width * self.height,
        decreases generations,
    {
        if generations > 0 {
            self.lemma_step_keeps_shape();
            self.step().lemma_after_keeps_shape((generations - 1) as nat);
        }
    }

    /// A generation never leaves the cycle: if every cell holds one of the
    /// states `0, 1, .., range - 1`, so does every cell of the next
    /// generation.
    pub proof fn lemma_step_keeps_cycle(self)
        requires
            self.wf(),
            self.in_cycle(),
        ensures
            self.step().in_cycle(),
    {
        assert forall|i: int| 0 <= i < self.step().states.len() implies 0
            <= #[trigger] self.step().states[i] < self.range by {
            assert(0 <= self.states[i] < self.range);
        }
    }

    /// A freshly seeded grid holds states between `1` and `range`. A
    /// generation keeps every state between `0` and `range`: a cell that
    /// holds `range` itself lies beyond the cycle and never changes.
    pub proof fn lemma_step_keeps_seeded_bounds(self)
        requires
            self.wf(),
            self.states_within(0, self.range),
        ensures
            self.step().states_within(0, self.range),
    {
        assert forall|i: int| 0 <= i < self.step().states.len() implies 0
            <= #[trigger] self.step().states[i] <= self.range by {
            self.lemma_neighbours_on_grid(i);
            assert(0 <= self.states[i] <= self.range);
            assert(self.states[self.up_idx(i)] <= self.range);
            assert(self.states[self.down_idx(i)] <= self.range);
            assert(self.states[self.left_idx(i)] <= self.range);
            assert(self.states[self.right_idx(i)] <= self.range);
        }
    }
}

/// Determinism: two grids of the same width, height and range that hold the
/// same states have the same next generation. Nothing but the grid itself
/// goes into a generation.
pub proof fn lemma_step_deterministic(a: Grid, b: Grid)
    requires
        a.width == b.width,
        a.height == b.height,
        a.range == b.range,
        a.states@ == b.states@,
    ensures
        a@.step() == b@.step(),
{
}

/// Whether `neighbour` is the state that comes after `state`.
fn is_next(neighbour: i32, state: i32) -> (yes: bool)
    ensures
        yes == (neighbour - state == 1),
{
    state < i32::MAX && neighbour == state + 1
}

/// The evolver: it advances a grid from one generation to the next.
#[derive(Clone, Copy, Debug)]
pub struct Evolution;

impl Evolution {
    /// The state of the cell `idx` in the next generation of `grid`.
    pub fn next_state(&self, grid: &Grid, idx: usize) -> (state: i32)
        requires
            grid@.wf(),
            grid@.contains(idx as int),
        ensures
            state == grid@.next_state(idx as int),
    {
        let current: i32 = grid.states[idx];
        let up: i32 = grid.up(idx);
        let down: i32 = grid.down(idx);
        let left: i32 = grid.left(idx);
        let right: i32 = grid.right(idx);
        if current == grid.range - 1 {
            if up == 0 || down == 0 || left == 0 || right == 0 {
                0
            } else {
                current
            }
        } else {
            if is_next(up, current) || is_next(down, current) || is_next(left, current)
                || is_next(right, current) {
                current + 1
            } else {
                current
            }
        }
    }

    /// Advances `grid` by one generation.
    ///
    /// Every cell of the new generation is computed from the old one, and
    /// only then does the grid take the new states. Width, height and range
    /// stay as they are.
    pub fn run(&mut self, grid: &mut Grid)
        requires
            old(grid)@.wf(),
        ensures
            final(grid)@ == old(grid)@.step(),
            final(grid)@.wf(),
            final(grid).width == old(grid).width,
            final(grid).height == old(grid).height,
            final(grid).range == old(grid).range,
            final(grid).states@.len() == old(grid).width * old(grid).height,
            forall|idx: int|
                0 <= idx < old(grid)@.states.len() ==> {
                    let before = old(grid)@.states[idx];
                    let after = #[trigger] final(grid)@.states[idx];
                    ||| after == before
                    ||| after == before + 1
                    ||| before == old(grid).range - 1 && after == 0
                },
            old(grid)@.in_cycle() ==> final(grid)@.in_cycle(),
            old(grid)@.states_within(0, old(grid).range as int) ==> final(grid)@.states_within(
                0,
                old(grid).range as int,
            ),
    {
        let cells: usize = grid.states.len();
        let mut next: Vec<i32> = Vec::new();
        let mut idx: usize = 0;
        while idx < cells
            invariant
                *grid == *old(grid),
                grid@.wf(),
                cells == grid.states@.len(),
                idx <= cells,
                next@.len() == idx,
                forall|i: int| 0 <= i < idx ==> #[trigger] next@[i] == grid@.next_state(i),
            decreases cells - idx,
        {
            let state: i32 = self.next_state(grid, idx);
            next.push(state);
            idx = idx + 1;
        }
        grid.states = next;
        proof {
            let before = old(grid)@;
            assert(grid@.states =~= before.step().states);
            before.lemma_step_keeps_shape();
            assert forall|i: int| 0 <= i < before.states.len() implies {
                let was = before.states[i];
                let is = #[trigger] grid@.states[i];
                ||| is == was
                ||| is == was + 1
                ||| was == before.range - 1 && is == 0
            } by {
                before.lemma_single_step_bound(i);
            }
            if before.in_cycle() {
                before.lemma_step_keeps_cycle();
            }
            if before.states_within(0, before.range) {
                before.lemma_step_keeps_seeded_bounds();
            }
        }
    }
}

} // verus!

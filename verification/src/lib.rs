//! A cyclic cellular automaton on a toroidal grid.
//!
//! Every cell holds a state of the cycle `0, 1, .., range - 1`. Once per
//! generation each cell looks at its four orthogonal neighbours, across the
//! edges of the grid where it has to: a cell advances to the next state when a
//! neighbour is already there, and a cell at the top of the cycle falls back
//! to `0` when a neighbour is at `0`.
//!
//! [`grid`] holds the grid and its toroidal addressing, [`evolution`] the rule
//! that advances a grid by one generation, and [`dice`] the one call into the
//! random number generator that seeds a new grid.

pub mod dice;
pub mod grid;
pub mod evolution;

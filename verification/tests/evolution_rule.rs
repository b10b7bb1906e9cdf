use daemons::evolution::Evolution;
use daemons::grid::Grid;
use rltk::RandomNumberGenerator;

fn stepped(width: usize, height: usize, range: i32, states: Vec<i32>) -> Vec<i32> {
    let mut grid = Grid { width, height, range, states };
    Evolution.run(&mut grid);
    assert_eq!(grid.width, width);
    assert_eq!(grid.height, height);
    assert_eq!(grid.range, range);
    grid.states
}

#[test]
fn three_by_three_scenario() {
    // One cell at the top of the cycle in the middle, a dead cell above it.
    let before = vec![1, 0, 1, 1, 2, 1, 1, 1, 1];
    // The middle cell dies, its three neighbours at state 1 ignite, the dead
    // cell above ignites from the cells beside it, the corners stay.
    let after = vec![1, 1, 1, 2, 0, 2, 1, 2, 1];
    assert_eq!(stepped(3, 3, 3, before), after);
}

#[test]
fn three_by_three_scenario_cell_by_cell() {
    let grid = Grid { width: 3, height: 3, range: 3, states: vec![1, 0, 1, 1, 2, 1, 1, 1, 1] };
    let evolution = Evolution;
    // the dying cell has a dead neighbour
    assert_eq!(evolution.next_state(&grid, 4), 0);
    // its neighbours at state 1 ignite
    assert_eq!(evolution.next_state(&grid, 3), 2);
    assert_eq!(evolution.next_state(&grid, 5), 2);
    assert_eq!(evolution.next_state(&grid, 7), 2);
    // cells at state 1 without a neighbour at state 2 stay
    assert_eq!(evolution.next_state(&grid, 0), 1);
    assert_eq!(evolution.next_state(&grid, 2), 1);
    assert_eq!(evolution.next_state(&grid, 6), 1);
    assert_eq!(evolution.next_state(&grid, 8), 1);
    // the dead cell moves on to state 1, which the cells beside it hold
    assert_eq!(evolution.next_state(&grid, 1), 1);
    // asking changes nothing
    assert_eq!(grid.states, vec![1, 0, 1, 1, 2, 1, 1, 1, 1]);
}

#[test]
fn top_of_the_cycle_stays_without_a_dead_neighbour() {
    let before = vec![1, 1, 1, 1, 2, 1, 1, 1, 1];
    let after = vec![1, 2, 1, 2, 2, 2, 1, 2, 1];
    assert_eq!(stepped(3, 3, 3, before), after);
}

#[test]
fn top_of_the_cycle_dies_for_each_direction() {
    // the dead cell above, below, left and right of the middle in turn
    for dead in [1usize, 7, 3, 5] {
        let mut states = vec![2; 9];
        states[dead] = 0;
        let mut grid = Grid { width: 3, height: 3, range: 3, states };
        assert_eq!(Evolution.next_state(&grid, 4), 0);
        Evolution.run(&mut grid);
        assert_eq!(grid.states[4], 0);
    }
}

#[test]
fn cell_ignites_for_each_direction() {
    for ahead in [1usize, 7, 3, 5] {
        let mut states = vec![0; 9];
        states[4] = 3;
        states[ahead] = 4;
        let grid = Grid { width: 3, height: 3, range: 9, states };
        assert_eq!(Evolution.next_state(&grid, 4), 4);
    }
}

#[test]
fn cell_ignores_neighbours_that_are_not_one_ahead() {
    // neighbours two ahead, equal, one behind and at the top of the cycle
    let grid = Grid { width: 3, height: 3, range: 9, states: vec![0, 5, 0, 3, 3, 2, 0, 8, 0] };
    assert_eq!(Evolution.next_state(&grid, 4), 3);
}

#[test]
fn diagonal_neighbours_do_not_count() {
    let grid = Grid { width: 3, height: 3, range: 9, states: vec![4, 0, 4, 0, 3, 0, 4, 0, 4] };
    assert_eq!(Evolution.next_state(&grid, 4), 3);
    let dying = Grid { width: 3, height: 3, range: 3, states: vec![0, 1, 0, 1, 2, 1, 0, 1, 0] };
    assert_eq!(Evolution.next_state(&dying, 4), 2);
}

#[test]
fn dead_cell_ignites_from_state_one() {
    let grid = Grid { width: 3, height: 1, range: 3, states: vec![0, 1, 2] };
    assert_eq!(Evolution.next_state(&grid, 0), 1);
}

#[test]
fn generation_reads_only_the_old_states() {
    // Updated in place from left to right, the last cell would see its
    // neighbour already at 2 and stay at 0.
    assert_eq!(stepped(3, 1, 4, vec![2, 1, 0]), vec![2, 2, 1]);
    assert_eq!(stepped(1, 3, 4, vec![2, 1, 0]), vec![2, 2, 1]);
}

#[test]
fn last_cell_takes_part_in_the_generation() {
    assert_eq!(stepped(2, 2, 3, vec![1, 1, 2, 1]), vec![2, 1, 2, 2]);
    assert_eq!(stepped(2, 2, 3, vec![1, 0, 1, 2]), vec![1, 1, 2, 0]);
}

#[test]
fn neighbours_across_the_edges_count() {
    // the only cell one ahead sits across the left edge
    assert_eq!(stepped(4, 1, 5, vec![1, 0, 0, 2]), vec![2, 1, 0, 2]);
    // the only dead cell sits across the bottom edge
    assert_eq!(stepped(1, 4, 3, vec![0, 1, 1, 2]), vec![1, 1, 2, 0]);
}

#[test]
fn single_cell_grid_never_changes() {
    for state in 0..3 {
        assert_eq!(stepped(1, 1, 3, vec![state]), vec![state]);
    }
}

#[test]
fn cycle_of_two_states() {
    // 1 is the top of the cycle, 0 moves on to 1 beside a 1
    assert_eq!(stepped(3, 1, 2, vec![0, 1, 1]), vec![1, 0, 0]);
    assert_eq!(stepped(3, 1, 2, vec![1, 1, 1]), vec![1, 1, 1]);
    assert_eq!(stepped(3, 1, 2, vec![0, 0, 0]), vec![0, 0, 0]);
}

#[test]
fn cell_beyond_the_cycle_never_changes() {
    // a die of `range` faces can seed a cell with `range` itself
    let before = vec![3, 0, 2, 3, 2, 1, 0, 3, 3];
    let after = stepped(3, 3, 3, before.clone());
    for idx in 0..9 {
        if before[idx] == 3 {
            assert_eq!(after[idx], 3);
        }
    }
    assert_eq!(after, vec![3, 0, 0, 3, 0, 2, 0, 3, 3]);
}

#[test]
fn size_stays_the_same_over_many_generations() {
    let mut rng = RandomNumberGenerator::seeded(5);
    let mut grid = Grid::new(80, 50, 10, &mut rng).unwrap();
    assert_eq!(grid.states.len(), grid.width * grid.height);
    let mut evolution = Evolution;
    for _ in 0..25 {
        evolution.run(&mut grid);
        assert_eq!(grid.width, 80);
        assert_eq!(grid.height, 50);
        assert_eq!(grid.range, 10);
        assert_eq!(grid.states.len(), grid.width * grid.height);
    }
}

#[test]
fn single_step_bound_over_many_generations() {
    let mut rng = RandomNumberGenerator::seeded(11);
    let mut grid = Grid::new(30, 20, 5, &mut rng).unwrap();
    for _ in 0..40 {
        let before = grid.states.clone();
        Evolution.run(&mut grid);
        for idx in 0..before.len() {
            let was = before[idx];
            let is = grid.states[idx];
            assert!(is == was || is == was + 1 || (was == grid.range - 1 && is == 0));
        }
    }
}

#[test]
fn states_of_the_cycle_stay_in_the_cycle() {
    let mut rng = RandomNumberGenerator::seeded(3);
    let mut grid = Grid::new(30, 20, 5, &mut rng).unwrap();
    for state in grid.states.iter_mut() {
        *state -= 1;
    }
    for _ in 0..40 {
        Evolution.run(&mut grid);
        assert!(grid.states.iter().all(|state| 0 <= *state && *state < 5));
    }
}

#[test]
fn seeded_states_stay_between_zero_and_range() {
    let mut rng = RandomNumberGenerator::seeded(3);
    let mut grid = Grid::new(30, 20, 5, &mut rng).unwrap();
    for _ in 0..40 {
        Evolution.run(&mut grid);
        assert!(grid.states.iter().all(|state| 0 <= *state && *state <= 5));
    }
}

#[test]
fn equal_grids_evolve_equally() {
    let mut rng = RandomNumberGenerator::seeded(8);
    let mut first = Grid::new(25, 15, 6, &mut rng).unwrap();
    let mut second =
        Grid { width: first.width, height: first.height, range: first.range, states: first.states.clone() };
    for _ in 0..30 {
        Evolution.run(&mut first);
        Evolution.run(&mut second);
        assert_eq!(first.states, second.states);
    }
}

#[test]
fn generation_matches_the_rule_cell_by_cell() {
    let mut rng = RandomNumberGenerator::seeded(21);
    let mut grid = Grid::new(12, 9, 4, &mut rng).unwrap();
    for _ in 0..10 {
        let expected: Vec<i32> =
            (0..grid.states.len()).map(|idx| Evolution.next_state(&grid, idx)).collect();
        Evolution.run(&mut grid);
        assert_eq!(grid.states, expected);
    }
}

use sudoku::grid::{clone_grid, empty_grid};
use sudoku::solver::solve;
use sudoku::sudoku::{check_consistent, check_grid_wf, check_solved_grid, Sudoku};

/// A fixed valid solved grid whose top-left cell is 5: each row is a cyclic
/// shift of 5..9,1..4, with shifts 0,3,6 inside a band and 1,4,7 / 2,5,8 in
/// the later bands.
fn base_grid() -> Vec<Vec<u8>> {
    let offsets: [u8; 9] = [0, 3, 6, 1, 4, 7, 2, 5, 8];
    let mut g: Vec<Vec<u8>> = Vec::new();
    for r in 0..9 {
        let mut row: Vec<u8> = Vec::new();
        for c in 0..9 {
            row.push((4 + offsets[r] + c as u8) % 9 + 1);
        }
        g.push(row);
    }
    g
}

fn with_blanks(blanks: &[(usize, usize)]) -> Vec<Vec<u8>> {
    let mut g = base_grid();
    for &(r, c) in blanks {
        g[r][c] = 0;
    }
    g
}

#[test]
fn base_grid_is_valid() {
    let g = base_grid();
    assert!(check_grid_wf(&g));
    assert!(check_solved_grid(&g));
    assert_eq!(g[0][0], 5);
}

#[test]
fn solve_from_empty_yields_valid_full_grid() {
    let g = solve(&empty_grid()).expect("an empty grid must be solvable");
    assert!(check_grid_wf(&g));
    assert!(check_solved_grid(&g));
    for r in 0..9 {
        for v in 1..=9u8 {
            assert!(g[r].contains(&v), "row {} misses {}", r, v);
        }
    }
    for c in 0..9 {
        for v in 1..=9u8 {
            assert!((0..9).any(|r| g[r][c] == v), "column {} misses {}", c, v);
        }
    }
    for b in 0..9 {
        for v in 1..=9u8 {
            let found = (0..3).any(|i| {
                (0..3).any(|j| g[(b / 3) * 3 + i][(b % 3) * 3 + j] == v)
            });
            assert!(found, "box {} misses {}", b, v);
        }
    }
}

#[test]
fn solve_keeps_given_clues() {
    let puzzle = with_blanks(&[(0, 0), (1, 1), (4, 4), (8, 8)]);
    let g = solve(&puzzle).expect("this puzzle is solvable");
    for r in 0..9 {
        for c in 0..9 {
            if puzzle[r][c] != 0 {
                assert_eq!(g[r][c], puzzle[r][c]);
            }
        }
    }
    assert!(check_solved_grid(&g));
}

#[test]
fn solve_returns_a_complete_grid_unchanged() {
    let g = base_grid();
    assert_eq!(solve(&g), Some(base_grid()));
}

#[test]
fn solve_reports_unsolvable_grid() {
    // Row 0 forces its last cell to 9, but the 9 below makes that illegal.
    let mut g = empty_grid();
    for c in 0..8 {
        g[0][c] = (c + 1) as u8;
    }
    g[1][8] = 9;
    assert!(solve(&g).is_none());
}

#[test]
fn solve_reports_conflicting_givens() {
    // Two fives in the same row: no completion can exist.
    let mut g = empty_grid();
    g[0][0] = 5;
    g[0][7] = 5;
    assert!(solve(&g).is_none());
}

#[test]
fn new_puzzle_display_equals_clues_and_is_solvable() {
    let s = Sudoku::new();
    assert!(check_grid_wf(&s.puzzle_sudoku));
    assert_eq!(s.puzzle_sudoku, s.display_sudoku);
    let blanks = s
        .puzzle_sudoku
        .iter()
        .flatten()
        .filter(|&&v| v == 0)
        .count();
    assert_eq!(blanks, 45);
    assert!(solve(&s.puzzle_sudoku).is_some());
}

#[test]
fn from_grids_accepts_valid_pair() {
    let s = Sudoku::from_grids(base_grid(), with_blanks(&[(0, 1)])).unwrap();
    assert_eq!(s.display_sudoku[0][1], 0);
    assert_eq!(s.display_sudoku[0][0], 5);
}

#[test]
fn from_grids_rejects_invalid_solution() {
    let mut bad = base_grid();
    bad[0][0] = bad[0][1];
    assert!(Sudoku::from_grids(bad, with_blanks(&[(0, 1)])).is_none());
    let mut incomplete = base_grid();
    incomplete[3][3] = 0;
    assert!(Sudoku::from_grids(incomplete.clone(), incomplete).is_none());
}

#[test]
fn from_grids_rejects_inconsistent_clues() {
    let mut puzzle = with_blanks(&[(0, 1)]);
    puzzle[0][0] = 6;
    assert!(Sudoku::from_grids(base_grid(), puzzle).is_none());
}

#[test]
fn consistency_checker_matches_definition() {
    let sol = base_grid();
    let ok = with_blanks(&[(2, 2), (3, 7)]);
    assert!(check_consistent(&ok, &sol));
    let mut bad = with_blanks(&[(2, 2)]);
    bad[5][5] = if sol[5][5] == 9 { 1 } else { 9 };
    assert!(!check_consistent(&bad, &sol));
}

#[test]
fn user_input_sets_and_clears_blank_cell() {
    let mut s = Sudoku::from_grids(base_grid(), with_blanks(&[(0, 1)])).unwrap();
    s.user_input(0, 1, 3);
    assert_eq!(s.display_sudoku[0][1], 3);
    s.user_input(0, 1, 0);
    assert_eq!(s.display_sudoku[0][1], 0);
    let after_first_clear = clone_grid(&s.display_sudoku);
    s.user_input(0, 1, 0);
    assert_eq!(s.display_sudoku, after_first_clear);
}

#[test]
fn clue_cell_never_changes() {
    let mut s = Sudoku::from_grids(base_grid(), with_blanks(&[(0, 1)])).unwrap();
    assert_eq!(s.puzzle_sudoku[0][0], 5);
    s.user_input(0, 0, 9);
    assert_eq!(s.display_sudoku[0][0], 5);
    s.user_input(0, 0, 0);
    assert_eq!(s.display_sudoku[0][0], 5);
}

#[test]
fn out_of_range_input_is_ignored() {
    let mut s = Sudoku::from_grids(base_grid(), with_blanks(&[(0, 1)])).unwrap();
    let before = clone_grid(&s.display_sudoku);
    s.user_input(9, 0, 1);
    s.user_input(0, 9, 1);
    s.user_input(0, 1, 10);
    assert_eq!(s.display_sudoku, before);
}

#[test]
fn has_won_requires_every_cell_to_match() {
    let mut s = Sudoku::from_grids(base_grid(), with_blanks(&[(0, 1), (7, 7)])).unwrap();
    assert!(!s.has_won());
    s.user_input(0, 1, 6);
    assert!(!s.has_won());
    s.user_input(7, 7, 1); // wrong: the solution holds 8 here
    assert!(!s.has_won());
    s.user_input(7, 7, 8);
    assert!(s.has_won());
}

#[test]
fn next_step_fills_last_blank_and_wins() {
    // (0, 2) holds 7 in the base grid.
    let mut s = Sudoku::from_grids(base_grid(), with_blanks(&[(0, 2)])).unwrap();
    assert_eq!(s.next_step(), Some((0, 2, 7)));
    s.user_input(0, 2, 7);
    assert!(s.has_won());
    assert_eq!(s.next_step(), None);
}

#[test]
fn next_step_scans_row_major_and_makes_progress() {
    let mut s = Sudoku::from_grids(base_grid(), with_blanks(&[(0, 1), (0, 3)])).unwrap();
    assert_eq!(s.next_step(), Some((0, 1, 6)));
    s.user_input(0, 1, 6);
    assert_eq!(s.next_step(), Some((0, 3, 8)));
    s.user_input(0, 3, 8);
    assert!(s.has_won());
}

#[test]
fn next_step_targets_wrong_entries_too() {
    let mut s = Sudoku::from_grids(base_grid(), with_blanks(&[(0, 1)])).unwrap();
    s.user_input(0, 1, 2);
    assert_eq!(s.next_step(), Some((0, 1, 6)));
}

#[test]
fn incorrect_fields_reports_only_filled_mismatches() {
    let mut s = Sudoku::from_grids(base_grid(), with_blanks(&[(0, 1), (0, 3)])).unwrap();
    assert_eq!(s.incorrect_fields(), Vec::<(usize, usize)>::new());
    s.user_input(0, 1, 1); // wrong: the solution holds 6 here
    s.user_input(0, 3, 8); // correct
    assert_eq!(s.incorrect_fields(), vec![(0, 1)]);
    s.user_input(0, 1, 0);
    assert_eq!(s.incorrect_fields(), Vec::<(usize, usize)>::new());
}

#[test]
fn incorrect_fields_are_listed_row_major() {
    let mut s =
        Sudoku::from_grids(base_grid(), with_blanks(&[(0, 4), (2, 0), (1, 5)])).unwrap();
    s.user_input(2, 0, 9); // wrong: 2
    s.user_input(0, 4, 1); // wrong: 9
    s.user_input(1, 5, 5); // wrong: 4
    assert_eq!(s.incorrect_fields(), vec![(0, 4), (1, 5), (2, 0)]);
}

//! The live puzzle session: an immutable clue grid, the player's display
//! grid, and the privately held solution, with input, hint and validation
//! operations.

use vstd::prelude::*;

use crate::generator::generate;
use crate::grid::{
    clone_grid, consistent, get_cell, grid_wf, gv, in_range, set_cell, solved, Grid,
};
use crate::solver::is_placement_valid;

verus! {

/// Every clue (non-zero cell of the clue grid) shows through unchanged in
/// the display grid.
pub open spec fn clues_shown(puz: Seq<Seq<u8>>, disp: Seq<Seq<u8>>) -> bool {
    forall|r: int, c: int|
        in_range(r, c) && #[trigger] puz[r][c] != 0 ==> disp[r][c] == puz[r][c]
}

/// Every cell of the display grid agrees with the solution.
pub open spec fn all_match(disp: Seq<Seq<u8>>, sol: Seq<Seq<u8>>) -> bool {
    forall|r: int, c: int| in_range(r, c) ==> #[trigger] disp[r][c] == sol[r][c]
}

/// What a player input does to the display grid: writes `value` at
/// `(r, c)` when the coordinates are on the grid, the value is a digit or
/// zero, and the cell is not a clue; otherwise leaves the grid unchanged.
pub open spec fn user_input_spec(
    puz: Seq<Seq<u8>>,
    disp: Seq<Seq<u8>>,
    r: int,
    c: int,
    v: u8,
) -> Seq<Seq<u8>> {
    if in_range(r, c) && v <= 9 && puz[r][c] == 0 {
        disp.update(r, disp[r].update(c, v))
    } else {
        disp
    }
}

/// The row-major list of coordinates, from cell index `k` on, whose display
/// value is filled in but disagrees with the solution.
pub open spec fn incorrect_from(disp: Seq<Seq<u8>>, sol: Seq<Seq<u8>>, k: int) -> Seq<
    (usize, usize),
>
    decreases 81 - k,
{
    if k < 0 || 81 <= k {
        Seq::empty()
    } else {
        let r = k / 9;
        let c = k % 9;
        let rest = incorrect_from(disp, sol, k + 1);
        if disp[r][c] != 0 && disp[r][c] != sol[r][c] {
            seq![((r as usize), (c as usize))] + rest
        } else {
            rest
        }
    }
}

/// How many cells, from cell index `k` on, disagree with the solution.
pub open spec fn mismatch_count_from(disp: Seq<Seq<u8>>, sol: Seq<Seq<u8>>, k: int) -> int
    decreases 81 - k,
{
    if k < 0 || 81 <= k {
        0
    } else {
        (if disp[k / 9][k % 9] != sol[k / 9][k % 9] {
            1int
        } else {
            0int
        }) + mismatch_count_from(disp, sol, k + 1)
    }
}

/// How many cells of the whole display grid disagree with the solution.
pub open spec fn mismatch_count(disp: Seq<Seq<u8>>, sol: Seq<Seq<u8>>) -> int {
    mismatch_count_from(disp, sol, 0)
}

/// Holds the solution grid. Its content is not reachable from outside the
/// engine: the grid inside is private to this module.
pub struct Solution {
    grid: Grid,
}

/// One puzzle session: the clue grid shown read-only, the display grid the
/// player edits, and the generated solution used for hints and checking.
pub struct Sudoku {
    pub puzzle_sudoku: Grid,
    pub display_sudoku: Grid,
    pub solution: Solution,
}

impl Sudoku {
    /// The solution grid, as a mathematical value. Its content is not
    /// revealed to callers; the operation contracts relate everything to it.
    pub closed spec fn sol(self) -> Seq<Seq<u8>> {
        gv(self.solution.grid)
    }

    /// The clue grid as a mathematical value.
    pub open spec fn puz(self) -> Seq<Seq<u8>> {
        gv(self.puzzle_sudoku)
    }

    /// The display grid as a mathematical value.
    pub open spec fn disp(self) -> Seq<Seq<u8>> {
        gv(self.display_sudoku)
    }

    /// Session validity: the solution is a solved Sudoku, the grids are
    /// well-formed, every clue agrees with the solution, and every clue
    /// shows through in the display grid.
    pub open spec fn wf(self) -> bool {
        &&& solved(self.sol())
        &&& grid_wf(self.puz())
        &&& grid_wf(self.disp())
        &&& consistent(self.puz(), self.sol())
        &&& clues_shown(self.puz(), self.disp())
    }

    /// A freshly generated puzzle: the display grid starts as a copy of the
    /// clue grid, so blanks are blank and clues are pre-filled; exactly
    /// `BLANK_COUNT` cells are left for the player.
    pub fn new() -> (s: Sudoku)
        ensures
            s.wf(),
            s.disp() == s.puz(),
            crate::generator::zero_count(s.puz()) == crate::generator::BLANK_COUNT as int,
    {
        let (solution, puzzle) = generate();
        let display = clone_grid(&puzzle);
        Sudoku { puzzle_sudoku: puzzle, display_sudoku: display, solution: Solution { grid: solution } }
    }

    /// Builds a session from a given solution and clue grid, validating
    /// them; the display grid starts equal to the clue grid. Returns `None`
    /// exactly when the grids do not form a valid puzzle.
    pub fn from_grids(solution: Grid, puzzle: Grid) -> (res: Option<Sudoku>)
        ensures
            match res {
                Some(s) => s.wf() && s.sol() == gv(solution) && s.puz() == gv(puzzle)
                    && s.disp() == gv(puzzle),
                None => !(solved(gv(solution)) && grid_wf(gv(puzzle)) && consistent(
                    gv(puzzle),
                    gv(solution),
                )),
            },
    {
        if !check_grid_wf(&solution) {
            return None;
        }
        if !check_solved_grid(&solution) {
            return None;
        }
        if !check_grid_wf(&puzzle) {
            return None;
        }
        if !check_consistent(&puzzle, &solution) {
            return None;
        }
        let display = clone_grid(&puzzle);
        Some(Sudoku { puzzle_sudoku: puzzle, display_sudoku: display, solution: Solution { grid: solution } })
    }

    /// A player edit: writes `value` (0 clears) at `(row, col)` in the
    /// display grid, unless the cell is a clue or an argument is out of
    /// range, in which case nothing changes. Clue cells can never be
    /// overwritten, whatever the caller passes.
    pub fn user_input(&mut self, row: usize, col: usize, value: u8)
        requires
            old(self).wf(),
        ensures
            final(self).wf(),
            final(self).sol() == old(self).sol(),
            final(self).puz() == old(self).puz(),
            final(self).disp() == user_input_spec(
                old(self).puz(),
                old(self).disp(),
                row as int,
                col as int,
                value,
            ),
    {
        if row < 9 && col < 9 && value <= 9 {
            if get_cell(&self.puzzle_sudoku, row, col) == 0 {
                set_cell(&mut self.display_sudoku, row, col, value);
                proof {
                    assert forall|r: int, c: int|
                        in_range(r, c) && #[trigger] self.puz()[r][c] != 0 implies self.disp()[r][c]
                        == self.puz()[r][c] by {
                        assert(!(r == row && c == col));
                        assert(self.disp()[r][c] == old(self).disp()[r][c]);
                    }
                }
            }
        }
    }

    /// True exactly when the display grid equals the solution in all 81
    /// cells.
    pub fn has_won(&self) -> (res: bool)
        requires
            self.wf(),
        ensures
            res == all_match(self.disp(), self.sol()),
    {
        let mut r: usize = 0;
        while r < 9
            invariant
                self.wf(),
                r <= 9,
                forall|i: int, j: int|
                    0 <= i < r && 0 <= j < 9 ==> #[trigger] self.disp()[i][j] == self.sol()[i][j],
            decreases 9 - r,
        {
            let mut c: usize = 0;
            while c < 9
                invariant
                    self.wf(),
                    r < 9,
                    c <= 9,
                    forall|i: int, j: int|
                        0 <= i < r && 0 <= j < 9 ==> #[trigger] self.disp()[i][j]
                            == self.sol()[i][j],
                    forall|j: int|
                        0 <= j < c ==> #[trigger] self.disp()[r as int][j]
                            == self.sol()[r as int][j],
                decreases 9 - c,
            {
                if get_cell(&self.display_sudoku, r, c) != get_cell(&self.solution.grid, r, c) {
                    return false;
                }
                c += 1;
            }
            r += 1;
        }
        true
    }

    /// Scans the display grid in row-major order for the first cell that
    /// disagrees with the solution and returns its coordinates with the
    /// solution's value there; `None` when the whole grid already matches.
    pub fn next_step(&self) -> (res: Option<(usize, usize, u8)>)
        requires
            self.wf(),
        ensures
            match res {
                Some(step) => {
                    &&& step.0 < 9
                    &&& step.1 < 9
                    &&& step.2 == self.sol()[step.0 as int][step.1 as int]
                    &&& self.disp()[step.0 as int][step.1 as int] != step.2
                    &&& self.puz()[step.0 as int][step.1 as int] == 0
                    &&& 1 <= step.2 <= 9
                    &&& forall|k: int|
                        0 <= k < step.0 * 9 + step.1 ==> #[trigger] self.disp()[k / 9][k % 9]
                            == self.sol()[k / 9][k % 9]
                },
                None => all_match(self.disp(), self.sol()),
            },
    {
        let mut k: usize = 0;
        while k < 81
            invariant
                self.wf(),
                k <= 81,
                forall|j: int|
                    0 <= j < k ==> #[trigger] self.disp()[j / 9][j % 9] == self.sol()[j / 9][j
                        % 9],
            decreases 81 - k,
        {
            let r = k / 9;
            let c = k % 9;
            let d = get_cell(&self.display_sudoku, r, c);
            let s = get_cell(&self.solution.grid, r, c);
            if d != s {
                proof {
                    crate::grid::lemma_cell_index(r as int, c as int);
                    if self.puz()[r as int][c as int] != 0 {
                        assert(self.disp()[r as int][c as int] == self.puz()[r as int][c as int]);
                        assert(self.puz()[r as int][c as int] == self.sol()[r as int][c as int]);
                    }
                }
                return Some((r, c, s));
            }
            k += 1;
        }
        proof {
            assert forall|r: int, c: int| in_range(r, c) implies #[trigger] self.disp()[r][c]
                == self.sol()[r][c] by {
                crate::grid::lemma_cell_index(r, c);
                assert(self.disp()[(r * 9 + c) / 9][(r * 9 + c) % 9] == self.sol()[(r * 9 + c)
                    / 9][(r * 9 + c) % 9]);
            }
        }
        None
    }

    /// The coordinates of every filled display cell that disagrees with the
    /// solution, in row-major order. Blank cells are never reported.
    pub fn incorrect_fields(&self) -> (res: Vec<(usize, usize)>)
        requires
            self.wf(),
        ensures
            res@ == incorrect_from(self.disp(), self.sol(), 0),
    {
        let mut res: Vec<(usize, usize)> = Vec::new();
        let mut k: usize = 0;
        while k < 81
            invariant
                self.wf(),
                k <= 81,
                res@ + incorrect_from(self.disp(), self.sol(), k as int) == incorrect_from(
                    self.disp(),
                    self.sol(),
                    0,
                ),
            decreases 81 - k,
        {
            let r = k / 9;
            let c = k % 9;
            let d = get_cell(&self.display_sudoku, r, c);
            let s = get_cell(&self.solution.grid, r, c);
            let ghost prev = res@;
            if d != 0 && d != s {
                res.push((r, c));
                proof {
                    assert(res@ =~= prev + seq![((r as usize), (c as usize))]);
                    assert(res@ + incorrect_from(self.disp(), self.sol(), k + 1) =~= prev + (seq![
                        ((r as usize), (c as usize)),
                    ] + incorrect_from(self.disp(), self.sol(), k + 1)));
                }
            }
            k += 1;
        }
        proof {
            assert(res@ + incorrect_from(self.disp(), self.sol(), 81) =~= res@);
        }
        res
    }
}

/// Checks that a grid has 9 rows of 9 cells, each holding a digit 0-9.
pub fn check_grid_wf(g: &Grid) -> (res: bool)
    ensures
        res == grid_wf(gv(*g)),
{
    if g.len() != 9 {
        return false;
    }
    let mut r: usize = 0;
    while r < 9
        invariant
            g@.len() == 9,
            r <= 9,
            forall|i: int| 0 <= i < r ==> (#[trigger] gv(*g)[i]).len() == 9,
            forall|i: int, j: int|
                0 <= i < r && 0 <= j < 9 ==> #[trigger] gv(*g)[i][j] <= 9,
        decreases 9 - r,
    {
        if g[r].len() != 9 {
            proof {
                assert(gv(*g)[r as int].len() != 9);
            }
            return false;
        }
        let mut c: usize = 0;
        while c < 9
            invariant
                g@.len() == 9,
                r < 9,
                c <= 9,
                g@[r as int]@.len() == 9,
                forall|j: int| 0 <= j < c ==> #[trigger] gv(*g)[r as int][j] <= 9,
            decreases 9 - c,
        {
            if g[r][c] > 9 {
                proof {
                    assert(gv(*g)[r as int][c as int] > 9);
                }
                return false;
            }
            c += 1;
        }
        r += 1;
    }
    true
}

/// Checks that a well-formed grid is fully filled and satisfies every row,
/// column and box constraint.
pub fn check_solved_grid(g: &Grid) -> (res: bool)
    requires
        grid_wf(gv(*g)),
    ensures
        res == solved(gv(*g)),
{
    let mut r: usize = 0;
    while r < 9
        invariant
            grid_wf(gv(*g)),
            r <= 9,
            forall|i: int, j: int|
                0 <= i < r && 0 <= j < 9 ==> 1 <= #[trigger] gv(*g)[i][j] <= 9
                    && crate::grid::placement_ok(gv(*g), i, j, gv(*g)[i][j]),
        decreases 9 - r,
    {
        let mut c: usize = 0;
        while c < 9
            invariant
                grid_wf(gv(*g)),
                r < 9,
                c <= 9,
                forall|i: int, j: int|
                    0 <= i < r && 0 <= j < 9 ==> 1 <= #[trigger] gv(*g)[i][j] <= 9
                        && crate::grid::placement_ok(gv(*g), i, j, gv(*g)[i][j]),
                forall|j: int|
                    0 <= j < c ==> 1 <= #[trigger] gv(*g)[r as int][j] <= 9
                        && crate::grid::placement_ok(gv(*g), r as int, j, gv(*g)[r as int][j]),
            decreases 9 - c,
        {
            let v = get_cell(g, r, c);
            if v == 0 {
                return false;
            }
            if !is_placement_valid(g, r, c, v) {
                return false;
            }
            c += 1;
        }
        r += 1;
    }
    true
}

/// Checks that every clue of `puzzle` agrees with `sol`.
pub fn check_consistent(puzzle: &Grid, sol: &Grid) -> (res: bool)
    requires
        grid_wf(gv(*puzzle)),
        grid_wf(gv(*sol)),
    ensures
        res == consistent(gv(*puzzle), gv(*sol)),
{
    let mut r: usize = 0;
    while r < 9
        invariant
            grid_wf(gv(*puzzle)),
            grid_wf(gv(*sol)),
            r <= 9,
            forall|i: int, j: int|
                0 <= i < r && 0 <= j < 9 && #[trigger] gv(*puzzle)[i][j] != 0 ==> gv(*puzzle)[i][j]
                    == gv(*sol)[i][j],
        decreases 9 - r,
    {
        let mut c: usize = 0;
        while c < 9
            invariant
                grid_wf(gv(*puzzle)),
                grid_wf(gv(*sol)),
                r < 9,
                c <= 9,
                forall|i: int, j: int|
                    0 <= i < r && 0 <= j < 9 && #[trigger] gv(*puzzle)[i][j] != 0 ==> gv(
                        *puzzle,
                    )[i][j] == gv(*sol)[i][j],
                forall|j: int|
                    0 <= j < c && #[trigger] gv(*puzzle)[r as int][j] != 0 ==> gv(
                        *puzzle,
                    )[r as int][j] == gv(*sol)[r as int][j],
            decreases 9 - c,
        {
            let p = get_cell(puzzle, r, c);
            if p != 0 && p != get_cell(sol, r, c) {
                return false;
            }
            c += 1;
        }
        r += 1;
    }
    true
}

} // verus!

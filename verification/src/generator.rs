//! Puzzle generation: a random fully-solved grid, and a clue grid derived
//! from it by blanking a fixed number of randomly chosen cells.

use vstd::prelude::*;

use crate::grid::{
    clone_grid, consistent, empty_grid, grid_wf, gv, in_range, sees, set_cell, solved, Grid,
};
use crate::solver::solve;

verus! {

/// How many of the 81 cells are blanked to form the playable puzzle.
pub const BLANK_COUNT: usize = 45;

/// The cell value of a fixed, well-known solved pattern: row bands shift by
/// three, rows inside a band shift by one.
pub open spec fn pat(r: int, c: int) -> u8 {
    ((((r % 3) * 3 + r / 3 + c) % 9) + 1) as u8
}

/// The fixed solved pattern as a full grid.
pub open spec fn pattern() -> Seq<Seq<u8>> {
    Seq::new(9, |r: int| Seq::new(9, |c: int| pat(r, c)))
}

/// Two distinct nonnegative numbers less than nine apart cannot share a
/// residue modulo nine.
proof fn lemma_mod9_inj(x: int, y: int)
    requires
        0 <= x,
        0 <= y,
        -9 < x - y < 9,
        x % 9 == y % 9,
    ensures
        x == y,
{
    assert(x == 9 * (x / 9) + x % 9);
    assert(y == 9 * (y / 9) + y % 9);
}

/// No two distinct cells that see each other hold the same pattern value.
proof fn lemma_pat_distinct(r1: int, c1: int, r2: int, c2: int)
    requires
        in_range(r1, c1),
        in_range(r2, c2),
        sees(r1, c1, r2, c2),
        !(r1 == r2 && c1 == c2),
    ensures
        pat(r1, c1) != pat(r2, c2),
{
    let x = (r1 % 3) * 3 + r1 / 3 + c1;
    let y = (r2 % 3) * 3 + r2 / 3 + c2;
    if pat(r1, c1) == pat(r2, c2) {
        assert(x % 9 == y % 9);
        lemma_mod9_inj(x, y);
        assert(r1 == 3 * (r1 / 3) + r1 % 3);
        assert(r2 == 3 * (r2 / 3) + r2 % 3);
        assert(c1 == 3 * (c1 / 3) + c1 % 3);
        assert(c2 == 3 * (c2 / 3) + c2 % 3);
        assert(false);
    }
}

/// The fixed pattern is a valid solved Sudoku.
proof fn lemma_pattern_solved()
    ensures
        solved(pattern()),
{
    let g = pattern();
    assert forall|r: int, c: int| in_range(r, c) implies 1 <= #[trigger] g[r][c] <= 9 by {
        assert(g[r][c] == pat(r, c));
    }
    assert forall|r: int, c: int| in_range(r, c) && #[trigger] g[r][c] != 0 implies
        crate::grid::placement_ok(g, r, c, g[r][c]) by {
        assert forall|r2: int, c2: int|
            in_range(r2, c2) && sees(r, c, r2, c2) && !(r2 == r && c2 == c) implies #[trigger] g[r2][c2]
            != g[r][c] by {
            lemma_pat_distinct(r, c, r2, c2);
            assert(g[r2][c2] == pat(r2, c2));
            assert(g[r][c] == pat(r, c));
        }
    }
}

/// How many cells, from cell index `k` on, are blank.
pub open spec fn zero_count_from(g: Seq<Seq<u8>>, k: int) -> int
    decreases 81 - k,
{
    if k < 0 || 81 <= k {
        0
    } else {
        (if g[k / 9][k % 9] == 0 {
            1int
        } else {
            0int
        }) + zero_count_from(g, k + 1)
    }
}

/// How many cells of the whole grid are blank.
pub open spec fn zero_count(g: Seq<Seq<u8>>) -> int {
    zero_count_from(g, 0)
}

/// Blanking one filled cell raises the number of blank cells from scan
/// index `k` on by exactly one when the cell lies at or past `k`.
proof fn lemma_zero_count_update(g1: Seq<Seq<u8>>, g2: Seq<Seq<u8>>, t: int, k: int)
    requires
        0 <= t < 81,
        0 <= k <= 81,
        forall|r: int, c: int|
            in_range(r, c) && !(r == t / 9 && c == t % 9) ==> #[trigger] g2[r][c] == g1[r][c],
        g1[t / 9][t % 9] != 0,
        g2[t / 9][t % 9] == 0,
    ensures
        zero_count_from(g2, k) == zero_count_from(g1, k) + (if k <= t {
            1int
        } else {
            0int
        }),
    decreases 81 - k,
{
    if k < 81 {
        lemma_zero_count_update(g1, g2, t, k + 1);
        if k != t {
            assert(in_range(k / 9, k % 9));
            assert(k / 9 == t / 9 && k % 9 == t % 9 ==> k == t) by {
                assert(k == 9 * (k / 9) + k % 9);
                assert(t == 9 * (t / 9) + t % 9);
            }
            assert(g2[k / 9][k % 9] == g1[k / 9][k % 9]);
        }
    }
}

/// A solved grid has no blank cell.
proof fn lemma_solved_zero_count(g: Seq<Seq<u8>>, k: int)
    requires
        solved(g),
        0 <= k <= 81,
    ensures
        zero_count_from(g, k) == 0,
    decreases 81 - k,
{
    if k < 81 {
        lemma_solved_zero_count(g, k + 1);
        assert(in_range(k / 9, k % 9));
    }
}

/// Produces a `(solution, puzzle)` pair: a randomly generated solved grid,
/// and a copy of it with `BLANK_COUNT` randomly chosen cells blanked. Every
/// clue left in the puzzle agrees with the solution.
pub fn generate() -> (res: (Grid, Grid))
    ensures
        solved(gv(res.0)),
        grid_wf(gv(res.1)),
        consistent(gv(res.1), gv(res.0)),
        zero_count(gv(res.1)) == BLANK_COUNT as int,
{
    let base = empty_grid();
    let solution: Grid = match solve(&base) {
        Some(g) => g,
        // Unreachable: the solver only reports `None` when no completion
        // exists, and the fixed pattern completes an empty grid.
        None => {
            proof {
                lemma_pattern_solved();
                assert(crate::solver::completion_of(gv(base), pattern()));
                assert(false);
            }
            vstd::pervasive::unreached()
        },
    };
    let mut puzzle = clone_grid(&solution);
    let mut cells: Vec<usize> = Vec::new();
    let mut k: usize = 0;
    while k < 81
        invariant
            k <= 81,
            cells@.len() == k,
            forall|i: int| 0 <= i < k ==> #[trigger] cells@[i] == i,
        decreases 81 - k,
    {
        cells.push(k);
        k += 1;
    }
    proof {
        lemma_solved_zero_count(gv(puzzle), 0);
    }
    let mut i: usize = 0;
    while i < BLANK_COUNT
        invariant
            i <= BLANK_COUNT,
            cells@.len() == 81,
            forall|t: int| 0 <= t < 81 ==> #[trigger] cells@[t] < 81,
            forall|t1: int, t2: int| 0 <= t1 < t2 < 81 ==> cells@[t1] != cells@[t2],
            solved(gv(solution)),
            grid_wf(gv(puzzle)),
            consistent(gv(puzzle), gv(solution)),
            zero_count(gv(puzzle)) == i,
            forall|r: int, c: int|
                in_range(r, c) ==> (#[trigger] gv(puzzle)[r][c] == 0 <==> exists|t: int|
                    0 <= t < i && #[trigger] cells@[t] == r * 9 + c),
        decreases BLANK_COUNT - i,
    {
        let j = i + crate::solver::rand_below(81 - i);
        let ghost cells0 = cells@;
        let a = cells[i];
        let b = cells[j];
        cells[i] = b;
        cells[j] = a;
        proof {
            assert(forall|w: int| 0 <= w < 81 && w != i && w != j ==> cells@[w] == cells0[w]);
            assert(cells@[i as int] == cells0[j as int] && cells@[j as int] == cells0[i as int]);
        }
        let t = cells[i];
        let ghost before = gv(puzzle);
        proof {
            crate::grid::lemma_cell_index((t / 9) as int, (t % 9) as int);
            assert((t / 9) as int == t as int / 9);
            assert((t % 9) as int == t as int % 9);
            assert(9 * ((t as int) / 9) + (t as int) % 9 == t as int);
            // The cell about to be blanked was not blanked before: the
            // entries of `cells` are pairwise distinct, and the blanked
            // cells so far are exactly those named by the entries below `i`.
            if before[(t / 9) as int][(t % 9) as int] == 0 {
                let w = choose|w: int|
                    0 <= w < i && #[trigger] cells0[w] == (t / 9) as int * 9 + (t % 9) as int;
                assert(cells0[w] == cells0[j as int]);
                assert(false);
            }
        }
        set_cell(&mut puzzle, t / 9, t % 9, 0);
        proof {
            assert forall|r: int, c: int|
                in_range(r, c) && #[trigger] gv(puzzle)[r][c] != 0 implies gv(puzzle)[r][c]
                == gv(solution)[r][c] by {
                assert(gv(puzzle)[r][c] == before[r][c]);
            }
            lemma_zero_count_update(before, gv(puzzle), t as int, 0);
            assert forall|r: int, c: int| in_range(r, c) implies (#[trigger] gv(puzzle)[r][c] == 0
                <==> exists|w: int| 0 <= w < i + 1 && #[trigger] cells@[w] == r * 9 + c) by {
                crate::grid::lemma_cell_index(r, c);
                assert((t / 9) as int == t as int / 9);
                assert((t % 9) as int == t as int % 9);
                assert(gv(puzzle) == before.update(
                    (t / 9) as int,
                    before[(t / 9) as int].update((t % 9) as int, 0u8),
                ));
                if gv(puzzle)[r][c] == 0 {
                    if r == t as int / 9 && c == t as int % 9 {
                        assert(cells@[i as int] == r * 9 + c);
                    } else {
                        assert(gv(puzzle)[r][c] == before[r][c]);
                        let w = choose|w: int| 0 <= w < i && #[trigger] cells0[w] == r * 9 + c;
                        assert(cells@[w] == cells0[w]);
                        assert(0 <= w < i + 1 && cells@[w] == r * 9 + c);
                    }
                } else {
                    assert(before[r][c] != 0);
                    if exists|w: int| 0 <= w < i + 1 && #[trigger] cells@[w] == r * 9 + c {
                        let w = choose|w: int| 0 <= w < i + 1 && #[trigger] cells@[w] == r * 9 + c;
                        if w < i {
                            assert(cells0[w] == cells@[w]);
                            assert(before[r][c] == 0);
                        } else {
                            assert(cells@[i as int] == r * 9 + c);
                            assert(r == t as int / 9 && c == t as int % 9);
                            assert(gv(puzzle)[r][c] == 0);
                        }
                        assert(false);
                    }
                }
            }
        }
        i += 1;
    }
    (solution, puzzle)
}

} // verus!

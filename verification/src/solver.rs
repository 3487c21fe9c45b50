//! Constraint-satisfaction routines: placement legality checking and an
//! exhaustive backtracking solver with randomized candidate order.

use vstd::prelude::*;

use crate::grid::{
    cells_valid, extends, get_cell, grid_wf, gv, in_range, lemma_cell_index,
    lemma_nine_distinct_cover, placement_ok, sees, set_cell, solved, Grid,
};

verus! {

/// Relies on rand::random_range: returns a uniformly random value inside the
/// given range; it panics only on an empty range, which the precondition
/// rules out. Nothing more is promised of a random draw.
#[verifier::external_body]
pub(crate) fn rand_below(n: usize) -> (r: usize)
    requires
        n > 0,
    ensures
        r < n,
{
    rand::random_range(0..n)
}

/// The digits 1-9 in a random order (a fresh random permutation on each
/// call): each digit 1-9 appears exactly once.
fn shuffled_digits() -> (order: Vec<u8>)
    ensures
        order@.len() == 9,
        forall|i: int| 0 <= i < 9 ==> 1 <= #[trigger] order@[i] <= 9,
        forall|i: int, j: int| 0 <= i < j < 9 ==> order@[i] != order@[j],
{
    let mut order: Vec<u8> = Vec::new();
    let mut d: u8 = 1;
    while d <= 9
        invariant
            1 <= d <= 10,
            order@.len() == d - 1,
            forall|i: int| 0 <= i < d - 1 ==> #[trigger] order@[i] == i + 1,
        decreases 10 - d,
    {
        order.push(d);
        d += 1;
    }
    let mut i: usize = 0;
    while i < 8
        invariant
            i <= 8,
            order@.len() == 9,
            forall|k: int| 0 <= k < 9 ==> 1 <= #[trigger] order@[k] <= 9,
            forall|k: int, l: int| 0 <= k < l < 9 ==> order@[k] != order@[l],
        decreases 8 - i,
    {
        let j = i + rand_below(9 - i);
        let a = order[i];
        let b = order[j];
        order[i] = b;
        order[j] = a;
        i += 1;
    }
    order
}

/// Could `value` legally be placed at `(row, col)`? True exactly when no
/// other cell of the same row, column or 3x3 box already holds `value`;
/// the content of `(row, col)` itself is ignored.
pub fn is_placement_valid(grid: &Grid, row: usize, col: usize, value: u8) -> (res: bool)
    requires
        grid_wf(gv(*grid)),
        row < 9,
        col < 9,
        1 <= value <= 9,
    ensures
        res == placement_ok(gv(*grid), row as int, col as int, value),
{
    let ghost g = gv(*grid);
    let mut i: usize = 0;
    while i < 9
        invariant
            grid_wf(g),
            g == gv(*grid),
            row < 9,
            col < 9,
            i <= 9,
            forall|j: int| 0 <= j < i && j != col ==> g[row as int][j] != value,
        decreases 9 - i,
    {
        if i != col && get_cell(grid, row, i) == value {
            return false;
        }
        i += 1;
    }
    let mut i: usize = 0;
    while i < 9
        invariant
            grid_wf(g),
            g == gv(*grid),
            row < 9,
            col < 9,
            i <= 9,
            forall|j: int| 0 <= j < i && j != row ==> g[j][col as int] != value,
        decreases 9 - i,
    {
        if i != row && get_cell(grid, i, col) == value {
            return false;
        }
        i += 1;
    }
    let br = row / 3 * 3;
    let bc = col / 3 * 3;
    let mut i: usize = 0;
    while i < 3
        invariant
            grid_wf(g),
            g == gv(*grid),
            row < 9,
            col < 9,
            br == row / 3 * 3,
            bc == col / 3 * 3,
            i <= 3,
            forall|a: int, b: int|
                0 <= a < i && 0 <= b < 3 && !(br + a == row && bc + b == col)
                    ==> #[trigger] g[br + a][bc + b] != value,
        decreases 3 - i,
    {
        let mut j: usize = 0;
        while j < 3
            invariant
                grid_wf(g),
                g == gv(*grid),
                row < 9,
                col < 9,
                br == row / 3 * 3,
                bc == col / 3 * 3,
                i < 3,
                j <= 3,
                forall|a: int, b: int|
                    0 <= a < i && 0 <= b < 3 && !(br + a == row && bc + b == col)
                        ==> #[trigger] g[br + a][bc + b] != value,
                forall|b: int|
                    0 <= b < j && !(br + i == row && bc + b == col)
                        ==> #[trigger] g[br + i as int][bc + b] != value,
            decreases 3 - j,
        {
            if !(br + i == row && bc + j == col) && get_cell(grid, br + i, bc + j) == value {
                return false;
            }
            j += 1;
        }
        i += 1;
    }
    proof {
        assert forall|r2: int, c2: int|
            in_range(r2, c2) && sees(row as int, col as int, r2, c2) && !(r2 == row && c2 == col)
                implies g[r2][c2] != value by {
            if r2 == row {
                assert(g[row as int][c2] != value);
            } else if c2 == col {
                assert(g[r2][col as int] != value);
            } else {
                let a = r2 - br;
                let b = c2 - bc;
                assert(g[br + a][bc + b] != value);
            }
        }
    }
    true
}

/// Checks whether every filled cell of a grid is legal where it stands: no
/// two filled cells that see each other hold the same value.
pub fn check_cells_valid(grid: &Grid) -> (res: bool)
    requires
        grid_wf(gv(*grid)),
    ensures
        res == cells_valid(gv(*grid)),
{
    let mut r: usize = 0;
    while r < 9
        invariant
            grid_wf(gv(*grid)),
            r <= 9,
            forall|i: int, j: int|
                0 <= i < r && 0 <= j < 9 && #[trigger] gv(*grid)[i][j] != 0 ==> placement_ok(
                    gv(*grid),
                    i,
                    j,
                    gv(*grid)[i][j],
                ),
        decreases 9 - r,
    {
        let mut c: usize = 0;
        while c < 9
            invariant
                grid_wf(gv(*grid)),
                r < 9,
                c <= 9,
                forall|i: int, j: int|
                    0 <= i < r && 0 <= j < 9 && #[trigger] gv(*grid)[i][j] != 0 ==> placement_ok(
                        gv(*grid),
                        i,
                        j,
                        gv(*grid)[i][j],
                    ),
                forall|j: int|
                    0 <= j < c && #[trigger] gv(*grid)[r as int][j] != 0 ==> placement_ok(
                        gv(*grid),
                        r as int,
                        j,
                        gv(*grid)[r as int][j],
                    ),
            decreases 9 - c,
        {
            let v = get_cell(grid, r, c);
            if v != 0 {
                if !is_placement_valid(grid, r, c, v) {
                    return false;
                }
            }
            c += 1;
        }
        r += 1;
    }
    true
}

/// A grid with two filled cells that see each other and hold the same
/// value has no completion: the conflict survives into any filling that
/// keeps the filled cells.
proof fn lemma_conflict_no_completion(g: Seq<Seq<u8>>)
    requires
        grid_wf(g),
        !cells_valid(g),
    ensures
        forall|g2: Seq<Seq<u8>>| !(#[trigger] completion_of(g, g2)),
{
    let (r, c) = choose|r: int, c: int|
        in_range(r, c) && #[trigger] g[r][c] != 0 && !placement_ok(g, r, c, g[r][c]);
    let v = g[r][c];
    let (r2, c2) = choose|r2: int, c2: int|
        in_range(r2, c2) && sees(r, c, r2, c2) && !(r2 == r && c2 == c) && #[trigger] g[r2][c2]
            == v;
    assert forall|g2: Seq<Seq<u8>>| !(#[trigger] completion_of(g, g2)) by {
        if completion_of(g, g2) {
            assert(g2[r][c] == v);
            assert(g2[r2][c2] == v);
            assert(placement_ok(g2, r, c, g2[r][c]));
            assert(g2[r2][c2] != v);
            assert(false);
        }
    }
}

/// `g` is a complete, rule-valid filling that keeps every clue of `base`.
pub open spec fn completion_of(base: Seq<Seq<u8>>, g: Seq<Seq<u8>>) -> bool {
    solved(g) && extends(base, g)
}

/// The value a completion gives to one fixed cell avoids every candidate
/// among the first `k` entries of `order`.
pub open spec fn avoids_candidates(
    g: Seq<Seq<u8>>,
    r: int,
    c: int,
    order: Seq<u8>,
    k: int,
) -> bool {
    forall|k2: int| 0 <= k2 < k ==> g[r][c] != #[trigger] order[k2]
}

/// Filling an empty cell with a legally placeable value keeps every filled
/// cell of the grid legal, and extends the original filling.
proof fn lemma_place_preserves(g: Seq<Seq<u8>>, g2: Seq<Seq<u8>>, r: int, c: int, v: u8)
    requires
        grid_wf(g),
        cells_valid(g),
        in_range(r, c),
        g[r][c] == 0,
        1 <= v <= 9,
        placement_ok(g, r, c, v),
        g2 == g.update(r, g[r].update(c, v)),
    ensures
        grid_wf(g2),
        cells_valid(g2),
        extends(g, g2),
        g2[r][c] == v,
{
    assert(forall|i: int, j: int|
        in_range(i, j) && !(i == r && j == c) ==> #[trigger] g2[i][j] == g[i][j]);
    assert forall|i: int, j: int| in_range(i, j) && #[trigger] g2[i][j] != 0 implies placement_ok(
        g2,
        i,
        j,
        g2[i][j],
    ) by {
        if i == r && j == c {
            assert forall|r2: int, c2: int|
                in_range(r2, c2) && sees(i, j, r2, c2) && !(r2 == i && c2 == j) implies #[trigger] g2[r2][c2]
                != g2[i][j] by {
                assert(g2[r2][c2] == g[r2][c2]);
            }
        } else {
            assert(placement_ok(g, i, j, g[i][j]));
            assert forall|r2: int, c2: int|
                in_range(r2, c2) && sees(i, j, r2, c2) && !(r2 == i && c2 == j) implies #[trigger] g2[r2][c2]
                != g2[i][j] by {
                if r2 == r && c2 == c {
                    assert(sees(r, c, i, j));
                    assert(g[i][j] != v);
                } else {
                    assert(g2[r2][c2] == g[r2][c2]);
                }
            }
        }
    }
}

/// Backtracking over the cells from linear index `idx` on: tries to fill
/// every remaining empty cell. On success the grid is a full valid Sudoku
/// extending the original filling; on failure the grid is left unchanged,
/// and no such filling exists at all.
fn solve_rec(grid: &mut Grid, idx: usize) -> (ok: bool)
    requires
        grid_wf(gv(*old(grid))),
        cells_valid(gv(*old(grid))),
        idx <= 81,
        forall|k: int| 0 <= k < idx ==> #[trigger] gv(*old(grid))[k / 9][k % 9] != 0,
    ensures
        grid_wf(gv(*final(grid))),
        cells_valid(gv(*final(grid))),
        extends(gv(*old(grid)), gv(*final(grid))),
        ok ==> solved(gv(*final(grid))),
        !ok ==> gv(*final(grid)) == gv(*old(grid)),
        !ok ==> forall|g2: Seq<Seq<u8>>| !(#[trigger] completion_of(gv(*old(grid)), g2)),
    decreases 81 - idx,
{
    if idx == 81 {
        proof {
            assert forall|r: int, c: int| in_range(r, c) implies 1 <= #[trigger] gv(*grid)[r][c]
                <= 9 by {
                lemma_cell_index(r, c);
                assert(gv(*grid)[(r * 9 + c) / 9][(r * 9 + c) % 9] != 0);
            }
        }
        return true;
    }
    let row = idx / 9;
    let col = idx % 9;
    if get_cell(grid, row, col) != 0 {
        return solve_rec(grid, idx + 1);
    }
    let order = shuffled_digits();
    let ghost g0 = gv(*grid);
    let mut k: usize = 0;
    while k < 9
        invariant
            k <= 9,
            idx < 81,
            row == idx / 9,
            col == idx % 9,
            order@.len() == 9,
            forall|i: int| 0 <= i < 9 ==> 1 <= #[trigger] order@[i] <= 9,
            forall|i: int, j: int| 0 <= i < j < 9 ==> order@[i] != order@[j],
            g0 == gv(*old(grid)),
            gv(*grid) == g0,
            grid_wf(g0),
            cells_valid(g0),
            g0[row as int][col as int] == 0,
            forall|j: int| 0 <= j < idx ==> #[trigger] g0[j / 9][j % 9] != 0,
            forall|g2: Seq<Seq<u8>>| #[trigger] completion_of(g0, g2) ==> avoids_candidates(
                g2,
                row as int,
                col as int,
                order@,
                k as int,
            ),
        decreases 9 - k,
    {
        let v = order[k];
        let placeable = is_placement_valid(grid, row, col, v);
        if placeable {
            set_cell(grid, row, col, v);
            proof {
                lemma_place_preserves(
                    g0,
                    gv(*grid),
                    row as int,
                    col as int,
                    v,
                );
                assert forall|j: int| 0 <= j < idx + 1 implies #[trigger] gv(*grid)[j / 9][j % 9]
                    != 0 by {
                    if j < idx {
                        assert(g0[j / 9][j % 9] != 0);
                        assert(extends(g0, gv(*grid)));
                        assert(in_range(j / 9, j % 9));
                    } else {
                        lemma_cell_index(row as int, col as int);
                        assert(j / 9 == row as int && j % 9 == col as int);
                    }
                }
            }
            let ghost g1 = gv(*grid);
            if solve_rec(grid, idx + 1) {
                proof {
                    assert(extends(g0, g1));
                    assert(extends(g1, gv(*grid)));
                    assert forall|r2: int, c2: int|
                        in_range(r2, c2) && #[trigger] g0[r2][c2] != 0 implies gv(*grid)[r2][c2]
                        == g0[r2][c2] by {
                        assert(g1[r2][c2] == g0[r2][c2]);
                    }
                }
                return true;
            }
            set_cell(grid, row, col, 0);
            proof {
                assert(gv(*grid) =~~= g0);
                // The recursive call failed, so no completion places this
                // candidate here: it would complete the augmented grid too.
                assert forall|g2: Seq<Seq<u8>>| #[trigger] completion_of(g0, g2) implies g2[row as int][col as int]
                    != v by {
                    if g2[row as int][col as int] == v {
                        assert(extends(g1, g2)) by {
                            assert forall|r2: int, c2: int|
                                in_range(r2, c2) && #[trigger] g1[r2][c2] != 0 implies g2[r2][c2]
                                == g1[r2][c2] by {
                                if !(r2 == row && c2 == col) {
                                    assert(g1[r2][c2] == g0[r2][c2]);
                                }
                            }
                        }
                        assert(completion_of(g1, g2));
                        assert(false);
                    }
                }
            }
        } else {
            proof {
                // No legal placement of this candidate, so no completion
                // places it here either: the conflicting peer survives into
                // every completion.
                assert forall|g2: Seq<Seq<u8>>| #[trigger] completion_of(g0, g2) implies g2[row as int][col as int]
                    != v by {
                    if g2[row as int][col as int] == v {
                        let (r2, c2) = choose|r2: int, c2: int|
                            in_range(r2, c2) && sees(row as int, col as int, r2, c2) && !(r2
                                == row && c2 == col) && #[trigger] g0[r2][c2] == v;
                        assert(g2[r2][c2] == g0[r2][c2]);
                        assert(placement_ok(g2, row as int, col as int, g2[row as int][col as int]));
                        assert(g2[r2][c2] != v);
                        assert(false);
                    }
                }
            }
        }
        proof {
            assert forall|g2: Seq<Seq<u8>>| #[trigger] completion_of(g0, g2) implies
                avoids_candidates(g2, row as int, col as int, order@, k as int + 1) by {
                assert(avoids_candidates(g2, row as int, col as int, order@, k as int));
                assert(g2[row as int][col as int] != order@[k as int]);
                assert forall|k2: int| 0 <= k2 < k as int + 1 implies g2[row as int][col as int]
                    != #[trigger] order@[k2] by {
                    if k2 < k as int {
                        assert(g2[row as int][col as int] != order@[k2]);
                    }
                }
            }
        }
        k += 1;
    }
    proof {
        // All nine digits were tried at this cell, yet every completion
        // would have to put one of them here.
        assert forall|g2: Seq<Seq<u8>>| !(#[trigger] completion_of(g0, g2)) by {
            if completion_of(g0, g2) {
                let v2 = g2[row as int][col as int];
                assert(in_range(row as int, col as int));
                assert(1 <= v2 <= 9);
                lemma_nine_distinct_cover(order@);
                assert(order@.contains(v2));
                let k2 = choose|k2: int| 0 <= k2 < order@.len() && order@[k2] == v2;
                assert(avoids_candidates(g2, row as int, col as int, order@, 9));
                assert(g2[row as int][col as int] != order@[k2]);
                assert(false);
            }
        }
    }
    false
}

/// Attempts to complete an arbitrary partially-filled grid into a full
/// valid Sudoku by backtracking, trying candidate digits in a random order
/// at each empty cell. On success the result is a solved grid that keeps
/// every filled cell of the input; `None` comes back exactly when no
/// completion exists — also for a grid whose given cells already conflict.
pub fn solve(grid: &Grid) -> (res: Option<Grid>)
    requires
        grid_wf(gv(*grid)),
    ensures
        match res {
            Some(g) => completion_of(gv(*grid), gv(g)),
            None => forall|g2: Seq<Seq<u8>>| !(#[trigger] completion_of(gv(*grid), g2)),
        },
{
    if !check_cells_valid(grid) {
        proof {
            lemma_conflict_no_completion(gv(*grid));
        }
        return None;
    }
    let mut work = crate::grid::clone_grid(grid);
    if solve_rec(&mut work, 0) {
        Some(work)
    } else {
        None
    }
}

} // verus!

//! Properties of the engine that relate several operations, stated and
//! proved over the same spec functions the operation contracts use.

use vstd::prelude::*;

use crate::grid::{grid_wf, in_range, lemma_cell_index, lemma_nine_distinct_cover, solved};
use crate::sudoku::{
    all_match, incorrect_from, mismatch_count, mismatch_count_from, user_input_spec, Sudoku,
};

verus! {

/// Row `r` of grid `g` holds value `v` somewhere.
pub open spec fn row_has(g: Seq<Seq<u8>>, r: int, v: u8) -> bool {
    exists|c: int| 0 <= c < 9 && #[trigger] g[r][c] == v
}

/// Column `c` of grid `g` holds value `v` somewhere.
pub open spec fn col_has(g: Seq<Seq<u8>>, c: int, v: u8) -> bool {
    exists|r: int| 0 <= r < 9 && #[trigger] g[r][c] == v
}

/// Box `b` (numbered row-major, 0-8) of grid `g` holds value `v` somewhere.
pub open spec fn box_has(g: Seq<Seq<u8>>, b: int, v: u8) -> bool {
    exists|i: int, j: int|
        0 <= i < 3 && 0 <= j < 3 && #[trigger] g[(b / 3) * 3 + i][(b % 3) * 3 + j] == v
}

/// Validity of a solved grid, stated as completeness of its units: every
/// row, every column and every box contains every digit 1-9 (and, with the
/// pairwise distinctness that `solved` already states, is therefore a
/// permutation of 1-9).
pub proof fn lemma_solved_units_complete(g: Seq<Seq<u8>>)
    requires
        solved(g),
    ensures
        forall|r: int, v: u8| 0 <= r < 9 && 1 <= v <= 9 ==> #[trigger] row_has(g, r, v),
        forall|c: int, v: u8| 0 <= c < 9 && 1 <= v <= 9 ==> #[trigger] col_has(g, c, v),
        forall|b: int, v: u8| 0 <= b < 9 && 1 <= v <= 9 ==> #[trigger] box_has(g, b, v),
{
    assert forall|r: int, v: u8| 0 <= r < 9 && 1 <= v <= 9 implies #[trigger] row_has(g, r, v) by {
        let s = Seq::new(9, |c: int| g[r][c]);
        assert forall|i: int, j: int| 0 <= i < j < 9 implies s[i] != s[j] by {
            assert(crate::grid::placement_ok(g, r, i, g[r][i]));
        }
        lemma_nine_distinct_cover(s);
        assert(s.contains(v));
        let c = choose|c: int| 0 <= c < s.len() && s[c] == v;
        assert(g[r][c] == v);
    }
    assert forall|c: int, v: u8| 0 <= c < 9 && 1 <= v <= 9 implies #[trigger] col_has(g, c, v) by {
        let s = Seq::new(9, |r: int| g[r][c]);
        assert forall|i: int, j: int| 0 <= i < j < 9 implies s[i] != s[j] by {
            assert(crate::grid::placement_ok(g, i, c, g[i][c]));
        }
        lemma_nine_distinct_cover(s);
        assert(s.contains(v));
        let r = choose|r: int| 0 <= r < s.len() && s[r] == v;
        assert(g[r][c] == v);
    }
    assert forall|b: int, v: u8| 0 <= b < 9 && 1 <= v <= 9 implies #[trigger] box_has(g, b, v) by {
        let br = (b / 3) * 3;
        let bc = (b % 3) * 3;
        let s = Seq::new(9, |k: int| g[br + k / 3][bc + k % 3]);
        assert forall|i: int, j: int| 0 <= i < j < 9 implies s[i] != s[j] by {
            let r1 = br + i / 3;
            let c1 = bc + i % 3;
            let r2 = br + j / 3;
            let c2 = bc + j % 3;
            assert(r1 / 3 == r2 / 3 && c1 / 3 == c2 / 3);
            assert(!(r1 == r2 && c1 == c2));
            assert(crate::grid::placement_ok(g, r1, c1, g[r1][c1]));
        }
        lemma_nine_distinct_cover(s);
        assert(s.contains(v));
        let k = choose|k: int| 0 <= k < s.len() && s[k] == v;
        assert(g[br + k / 3][bc + k % 3] == v);
        assert(0 <= k / 3 < 3 && 0 <= k % 3 < 3);
    }
}

/// Clue immutability: a cell that carries a clue keeps its display value
/// under a player input aimed at any cell with any value. Applied call after
/// call, this means no sequence of inputs ever changes a clue cell.
pub proof fn lemma_clue_immutable(
    puz: Seq<Seq<u8>>,
    disp: Seq<Seq<u8>>,
    r: int,
    c: int,
    v: u8,
    i: int,
    j: int,
)
    requires
        grid_wf(puz),
        grid_wf(disp),
        in_range(i, j),
        puz[i][j] != 0,
    ensures
        user_input_spec(puz, disp, r, c, v)[i][j] == disp[i][j],
{
    if in_range(r, c) && v <= 9 && puz[r][c] == 0 {
        assert(!(r == i && c == j));
    }
}

/// Idempotence of setting or clearing: writing the same value to the same
/// cell a second time leaves the display grid exactly as after the first
/// write.
pub proof fn lemma_user_input_idempotent(
    puz: Seq<Seq<u8>>,
    disp: Seq<Seq<u8>>,
    r: int,
    c: int,
    v: u8,
)
    requires
        grid_wf(disp),
    ensures
        user_input_spec(puz, user_input_spec(puz, disp, r, c, v), r, c, v) == user_input_spec(
            puz,
            disp,
            r,
            c,
            v,
        ),
{
    if in_range(r, c) && v <= 9 && puz[r][c] == 0 {
        let d1 = user_input_spec(puz, disp, r, c, v);
        assert(d1[r].update(c, v) =~= d1[r]);
        assert(d1.update(r, d1[r].update(c, v)) =~= d1);
    }
}

/// Membership in the incorrect-field list, characterized exactly: a
/// coordinate pair is listed from scan index `k` on if and only if its cell
/// index is at least `k`, its display value is filled in, and it disagrees
/// with the solution. In particular no blank cell and no agreeing cell is
/// ever reported.
pub proof fn lemma_incorrect_fields_exact(
    disp: Seq<Seq<u8>>,
    sol: Seq<Seq<u8>>,
    k: int,
    p: (usize, usize),
)
    requires
        0 <= k <= 81,
    ensures
        incorrect_from(disp, sol, k).contains(p) <==> (p.0 < 9 && p.1 < 9 && k <= p.0 * 9 + p.1
            && disp[p.0 as int][p.1 as int] != 0 && disp[p.0 as int][p.1 as int]
            != sol[p.0 as int][p.1 as int]),
    decreases 81 - k,
{
    if k == 81 {
        assert(!incorrect_from(disp, sol, k).contains(p)) by {
            assert(incorrect_from(disp, sol, k).len() == 0);
        }
        if p.0 < 9 && p.1 < 9 {
            lemma_cell_index(p.0 as int, p.1 as int);
        }
    } else {
        lemma_incorrect_fields_exact(disp, sol, k + 1, p);
        let r = k / 9;
        let c = k % 9;
        let rest = incorrect_from(disp, sol, k + 1);
        let q = (((k / 9) as usize), ((k % 9) as usize));
        lemma_cell_index(r, c);
        assert(q.0 * 9 + q.1 == k);
        if disp[r][c] != 0 && disp[r][c] != sol[r][c] {
            let s = seq![q] + rest;
            assert(incorrect_from(disp, sol, k) == s);
            if p == q {
                assert(s[0] == p);
                assert(s.contains(p));
            }
            if rest.contains(p) {
                let i = choose|i: int| 0 <= i < rest.len() && rest[i] == p;
                assert(s[i + 1] == p);
                assert(s.contains(p));
            }
            if s.contains(p) {
                let i = choose|i: int| 0 <= i < s.len() && s[i] == p;
                if i == 0 {
                    assert(p == q);
                } else {
                    assert(rest[i - 1] == p);
                    assert(rest.contains(p));
                }
            }
            if p != q && p.0 < 9 && p.1 < 9 {
                lemma_cell_index(p.0 as int, p.1 as int);
                assert(p.0 * 9 + p.1 == k ==> p == q);
            }
        } else {
            assert(incorrect_from(disp, sol, k) == rest);
            if p.0 < 9 && p.1 < 9 {
                lemma_cell_index(p.0 as int, p.1 as int);
                assert(p.0 * 9 + p.1 == k ==> p == q);
            }
        }
    }
}

/// A change at one cell, from disagreeing with the solution to agreeing,
/// lowers the number of disagreeing cells from scan index `k` on by exactly
/// one when the cell lies at or past `k`.
proof fn lemma_mismatch_update(
    d1: Seq<Seq<u8>>,
    d2: Seq<Seq<u8>>,
    sol: Seq<Seq<u8>>,
    t: int,
    k: int,
)
    requires
        0 <= t < 81,
        0 <= k <= 81,
        forall|r: int, c: int|
            in_range(r, c) && !(r == t / 9 && c == t % 9) ==> #[trigger] d2[r][c] == d1[r][c],
        d1[t / 9][t % 9] != sol[t / 9][t % 9],
        d2[t / 9][t % 9] == sol[t / 9][t % 9],
    ensures
        mismatch_count_from(d2, sol, k) == mismatch_count_from(d1, sol, k) - (if k <= t {
            1int
        } else {
            0int
        }),
    decreases 81 - k,
{
    if k < 81 {
        lemma_mismatch_update(d1, d2, sol, t, k + 1);
        if k != t {
            assert(in_range(k / 9, k % 9));
            assert(k / 9 == t / 9 && k % 9 == t % 9 ==> k == t) by {
                assert(k == 9 * (k / 9) + k % 9);
                assert(t == 9 * (t / 9) + t % 9);
            }
            assert(d2[k / 9][k % 9] == d1[k / 9][k % 9]);
        }
    }
}

/// From scan index `k` on, the mismatch count is zero exactly when every
/// cell from `k` on agrees with the solution.
proof fn lemma_mismatch_count_zero_from(disp: Seq<Seq<u8>>, sol: Seq<Seq<u8>>, k: int)
    requires
        0 <= k <= 81,
    ensures
        mismatch_count_from(disp, sol, k) >= 0,
        (mismatch_count_from(disp, sol, k) == 0) <==> (forall|t: int|
            k <= t < 81 ==> #[trigger] disp[t / 9][t % 9] == sol[t / 9][t % 9]),
    decreases 81 - k,
{
    if k < 81 {
        lemma_mismatch_count_zero_from(disp, sol, k + 1);
    }
}

/// The mismatch count is zero exactly when the display grid matches the
/// solution everywhere: a hint that lowers the count to zero completes the
/// puzzle in the sense of the win condition.
pub proof fn lemma_no_mismatch_is_win(disp: Seq<Seq<u8>>, sol: Seq<Seq<u8>>)
    ensures
        (mismatch_count(disp, sol) == 0) <==> all_match(disp, sol),
{
    lemma_mismatch_count_zero_from(disp, sol, 0);
    if forall|t: int| 0 <= t < 81 ==> #[trigger] disp[t / 9][t % 9] == sol[t / 9][t % 9] {
        assert forall|r: int, c: int| in_range(r, c) implies #[trigger] disp[r][c]
            == sol[r][c] by {
            lemma_cell_index(r, c);
            assert(disp[(r * 9 + c) / 9][(r * 9 + c) % 9] == sol[(r * 9 + c) / 9][(r * 9 + c)
                % 9]);
        }
    }
    if all_match(disp, sol) {
        assert forall|t: int| 0 <= t < 81 implies #[trigger] disp[t / 9][t % 9] == sol[t / 9][t
            % 9] by {
            assert(in_range(t / 9, t % 9));
        }
    }
}

/// Hint progress: a cell where the display disagrees with the solution is
/// never a clue cell, and writing the solution's value there through a
/// player input lowers the number of disagreeing cells by exactly one (when
/// one cell remained, the puzzle is thereby completed).
pub proof fn lemma_next_step_progress(s: Sudoku, r: int, c: int)
    requires
        s.wf(),
        in_range(r, c),
        s.disp()[r][c] != s.sol()[r][c],
    ensures
        s.puz()[r][c] == 0,
        mismatch_count(
            user_input_spec(s.puz(), s.disp(), r, c, s.sol()[r][c]),
            s.sol(),
        ) == mismatch_count(s.disp(), s.sol()) - 1,
{
    let v = s.sol()[r][c];
    assert(1 <= v <= 9);
    if s.puz()[r][c] != 0 {
        assert(s.disp()[r][c] == s.puz()[r][c]);
        assert(s.puz()[r][c] == s.sol()[r][c]);
    }
    let d2 = user_input_spec(s.puz(), s.disp(), r, c, v);
    let t = r * 9 + c;
    lemma_cell_index(r, c);
    assert(d2[t / 9][t % 9] == v);
    assert forall|i: int, j: int|
        in_range(i, j) && !(i == t / 9 && j == t % 9) implies #[trigger] d2[i][j]
        == s.disp()[i][j] by {
        if i == r {
            assert(d2[i][j] == s.disp()[r].update(c, v)[j]);
        }
    }
    lemma_mismatch_update(s.disp(), d2, s.sol(), t, 0);
}

} // verus!

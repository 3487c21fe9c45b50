//! The grid data model: a 9x9 matrix of digits 0-9, where 0 means "empty",
//! together with the spec-level notions of well-formedness and Sudoku validity.

use vstd::prelude::*;

verus! {

/// A 9x9 Sudoku grid, stored row-major; cell values 0-9, 0 meaning empty.
pub type Grid = Vec<Vec<u8>>;

/// The mathematical view of a grid: a sequence of rows, each a sequence of cells.
pub open spec fn gv(g: Grid) -> Seq<Seq<u8>> {
    Seq::new(g@.len(), |r: int| g@[r]@)
}

/// The coordinates name a cell of a 9x9 grid.
pub open spec fn in_range(r: int, c: int) -> bool {
    0 <= r < 9 && 0 <= c < 9
}

/// 9 rows of 9 cells each, every cell a digit 0-9.
pub open spec fn grid_wf(g: Seq<Seq<u8>>) -> bool {
    &&& g.len() == 9
    &&& forall|r: int| 0 <= r < 9 ==> (#[trigger] g[r]).len() == 9
    &&& forall|r: int, c: int| in_range(r, c) ==> #[trigger] g[r][c] <= 9
}

/// Two cells see each other when they share a row, a column, or a 3x3 box.
pub open spec fn sees(r1: int, c1: int, r2: int, c2: int) -> bool {
    r1 == r2 || c1 == c2 || (r1 / 3 == r2 / 3 && c1 / 3 == c2 / 3)
}

/// Value `v` could legally stand at `(r, c)`: no other cell of the same
/// row, column or box holds `v`. The cell `(r, c)` itself is ignored.
pub open spec fn placement_ok(g: Seq<Seq<u8>>, r: int, c: int, v: u8) -> bool {
    forall|r2: int, c2: int|
        in_range(r2, c2) && sees(r, c, r2, c2) && !(r2 == r && c2 == c) ==> #[trigger] g[r2][c2]
            != v
}

/// Every filled cell is legal where it stands: no two filled cells that see
/// each other hold the same value.
pub open spec fn cells_valid(g: Seq<Seq<u8>>) -> bool {
    forall|r: int, c: int|
        in_range(r, c) && #[trigger] g[r][c] != 0 ==> placement_ok(g, r, c, g[r][c])
}

/// Every cell is filled with a digit 1-9.
pub open spec fn full(g: Seq<Seq<u8>>) -> bool {
    forall|r: int, c: int| in_range(r, c) ==> 1 <= #[trigger] g[r][c] <= 9
}

/// A completely solved, rule-valid Sudoku grid.
pub open spec fn solved(g: Seq<Seq<u8>>) -> bool {
    grid_wf(g) && full(g) && cells_valid(g)
}

/// Every clue (non-zero cell) of `puzzle` agrees with `sol` at that position.
pub open spec fn consistent(puzzle: Seq<Seq<u8>>, sol: Seq<Seq<u8>>) -> bool {
    forall|r: int, c: int|
        in_range(r, c) && #[trigger] puzzle[r][c] != 0 ==> puzzle[r][c] == sol[r][c]
}

/// Every non-zero cell of `base` keeps its value in `g`.
pub open spec fn extends(base: Seq<Seq<u8>>, g: Seq<Seq<u8>>) -> bool {
    forall|r: int, c: int|
        in_range(r, c) && #[trigger] base[r][c] != 0 ==> g[r][c] == base[r][c]
}

/// Nine pairwise-distinct digits 1-9 must cover every digit 1-9.
pub proof fn lemma_nine_distinct_cover(s: Seq<u8>)
    requires
        s.len() == 9,
        forall|i: int| 0 <= i < 9 ==> 1 <= #[trigger] s[i] <= 9,
        forall|i: int, j: int| 0 <= i < j < 9 ==> s[i] != s[j],
    ensures
        forall|v: u8| 1 <= v <= 9 ==> #[trigger] s.contains(v),
{
    let m = s.map_values(|x: u8| x as int);
    assert(m.len() == 9);
    assert(m.no_duplicates()) by {
        assert forall|i: int, j: int| 0 <= i < m.len() && 0 <= j < m.len() && i != j implies m[i]
            != m[j] by {
            if i < j {
                assert(s[i] != s[j]);
            } else {
                assert(s[j] != s[i]);
            }
        }
    }
    m.unique_seq_to_set();
    let t = m.to_set();
    let range = vstd::set_lib::set_int_range(1, 10);
    vstd::set_lib::lemma_int_range(1, 10);
    assert(t.subset_of(range)) by {
        assert forall|x: int| t.contains(x) implies range.contains(x) by {
            assert(m.contains(x));
            let i = choose|i: int| 0 <= i < m.len() && m[i] == x;
            assert(1 <= s[i] <= 9);
        }
    }
    assert forall|v: u8| 1 <= v <= 9 implies #[trigger] s.contains(v) by {
        if !t.contains(v as int) {
            assert(t.subset_of(range.remove(v as int)));
            vstd::set_lib::lemma_len_subset(t, range.remove(v as int));
            assert(false);
        }
        assert(m.contains(v as int));
        let i = choose|i: int| 0 <= i < m.len() && m[i] == v as int;
        assert(s[i] == v);
    }
}

/// The cell index `k = r * 9 + c` of a row-major scan names the cell
/// `(k / 9, k % 9)`.
pub proof fn lemma_cell_index(r: int, c: int)
    requires
        in_range(r, c),
    ensures
        (r * 9 + c) / 9 == r,
        (r * 9 + c) % 9 == c,
        0 <= r * 9 + c < 81,
{
}

/// Connects the mathematical view of a well-formed grid with the raw
/// vector views, so that element accesses can be discharged.
pub proof fn lemma_gv_index(g: Grid)
    requires
        grid_wf(gv(g)),
    ensures
        g@.len() == 9,
        forall|r: int| 0 <= r < 9 ==> #[trigger] gv(g)[r] == g@[r]@,
        forall|r: int| 0 <= r < 9 ==> (#[trigger] g@[r])@.len() == 9,
{
    assert(gv(g).len() == g@.len());
    assert forall|r: int| 0 <= r < 9 implies #[trigger] gv(g)[r] == g@[r]@ by {
        assert(gv(g)[r] == g@[r]@);
    }
    assert forall|r: int| 0 <= r < 9 implies (#[trigger] g@[r])@.len() == 9 by {
        assert(gv(g)[r].len() == 9);
    }
}

/// Writes `v` into cell `(r, c)`.
pub fn set_cell(g: &mut Grid, r: usize, c: usize, v: u8)
    requires
        grid_wf(gv(*old(g))),
        r < 9,
        c < 9,
        v <= 9,
    ensures
        gv(*final(g)) == gv(*old(g)).update(r as int, gv(*old(g))[r as int].update(c as int, v)),
        grid_wf(gv(*final(g))),
{
    proof {
        lemma_gv_index(*g);
    }
    g[r][c] = v;
    proof {
        assert(gv(*g) =~~= gv(*old(g)).update(
            r as int,
            gv(*old(g))[r as int].update(c as int, v),
        ));
    }
}

/// Reads cell `(r, c)`.
pub fn get_cell(g: &Grid, r: usize, c: usize) -> (v: u8)
    requires
        grid_wf(gv(*g)),
        r < 9,
        c < 9,
    ensures
        v == gv(*g)[r as int][c as int],
{
    proof {
        lemma_gv_index(*g);
    }
    g[r][c]
}

/// A fresh all-empty grid.
pub fn empty_grid() -> (g: Grid)
    ensures
        grid_wf(gv(g)),
        forall|r: int, c: int| in_range(r, c) ==> gv(g)[r][c] == 0,
{
    let mut g: Grid = Vec::new();
    let mut r: usize = 0;
    while r < 9
        invariant
            r <= 9,
            g@.len() == r,
            forall|i: int| 0 <= i < r ==> (#[trigger] g@[i])@.len() == 9,
            forall|i: int, j: int|
                0 <= i < r && 0 <= j < 9 ==> #[trigger] g@[i]@[j] == 0,
        decreases 9 - r,
    {
        let mut row: Vec<u8> = Vec::new();
        let mut c: usize = 0;
        while c < 9
            invariant
                c <= 9,
                row@.len() == c,
                forall|j: int| 0 <= j < c ==> #[trigger] row@[j] == 0,
            decreases 9 - c,
        {
            row.push(0);
            c += 1;
        }
        g.push(row);
        r += 1;
    }
    g
}

/// An independent copy of a grid, cell for cell.
pub fn clone_grid(g: &Grid) -> (h: Grid)
    requires
        grid_wf(gv(*g)),
    ensures
        gv(h) == gv(*g),
        grid_wf(gv(h)),
{
    let mut h: Grid = Vec::new();
    let mut r: usize = 0;
    while r < 9
        invariant
            r <= 9,
            grid_wf(gv(*g)),
            h@.len() == r,
            forall|i: int| 0 <= i < r ==> (#[trigger] h@[i])@ == gv(*g)[i],
        decreases 9 - r,
    {
        let mut row: Vec<u8> = Vec::new();
        let mut c: usize = 0;
        while c < 9
            invariant
                c <= 9,
                r < 9,
                grid_wf(gv(*g)),
                row@.len() == c,
                forall|j: int| 0 <= j < c ==> #[trigger] row@[j] == gv(*g)[r as int][j],
            decreases 9 - c,
        {
            proof {
                lemma_gv_index(*g);
            }
            row.push(g[r][c]);
            c += 1;
        }
        proof {
            assert(row@ =~= gv(*g)[r as int]);
        }
        h.push(row);
        r += 1;
    }
    proof {
        assert(gv(h) =~~= gv(*g));
    }
    h
}

} // verus!

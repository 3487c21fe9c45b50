//! The application-facing session state around one puzzle: the puzzle
//! itself plus the set of cells currently flagged as incorrect, and the
//! state transitions behind each user action.

use vstd::prelude::*;

use crate::grid::{get_cell, grid_wf, gv, in_range};
use crate::sudoku::{all_match, incorrect_from, user_input_spec, Sudoku};
use vstd::string::StringExecFns;

verus! {

/// The CSS class list of a cell: always `cell`, with `read-only` for clue
/// cells, `incorrect` for flagged cells, and border markers on the third
/// and sixth row and column.
pub open spec fn field_class_spec(
    read_only: bool,
    incorrect: bool,
    border_right: bool,
    border_bottom: bool,
) -> Seq<char> {
    "cell"@ + (if read_only {
        " read-only"@
    } else {
        Seq::<char>::empty()
    }) + (if incorrect {
        " incorrect"@
    } else {
        Seq::<char>::empty()
    }) + (if border_right {
        " border-right"@
    } else {
        Seq::<char>::empty()
    }) + (if border_bottom {
        " border-bottom"@
    } else {
        Seq::<char>::empty()
    })
}

/// What the raw text of a cell edit, as UTF-8 bytes, stands for: empty
/// text clears the cell (value 0), a single ASCII digit enters that digit,
/// and any other text is no value edit at all.
pub open spec fn edit_value_spec(s: Seq<u8>) -> Option<u8> {
    if s.len() == 0 {
        Some(0u8)
    } else if s.len() == 1 && 48 <= s[0] <= 57 {
        Some((s[0] - 48) as u8)
    } else {
        None
    }
}

/// Classifies a typed cell edit: `Some(0)` for cleared text, `Some(d)` for
/// a single digit character `d`, `None` when the text is no single digit
/// (a longer string, a letter, a multi-byte numeral).
pub fn edit_value(bytes: &Vec<u8>) -> (r: Option<u8>)
    ensures
        r == edit_value_spec(bytes@),
{
    if bytes.len() == 0 {
        Some(0)
    } else if bytes.len() == 1 {
        let b = bytes[0];
        if 48 <= b && b <= 57 {
            Some(b - 48)
        } else {
            None
        }
    } else {
        None
    }
}

/// Whether the list holds the coordinate pair `(row, col)`.
fn contains_pair(v: &Vec<(usize, usize)>, row: usize, col: usize) -> (res: bool)
    ensures
        res == v@.contains((row, col)),
{
    let mut i: usize = 0;
    while i < v.len()
        invariant
            i <= v@.len(),
            forall|j: int| 0 <= j < i ==> v@[j] != (row, col),
        decreases v@.len() - i,
    {
        let p = v[i];
        if p.0 == row && p.1 == col {
            proof {
                assert(v@[i as int] == (row, col));
            }
            return true;
        }
        i += 1;
    }
    proof {
        if v@.contains((row, col)) {
            let j = choose|j: int| 0 <= j < v@.len() && v@[j] == (row, col);
            assert(v@[j] != (row, col));
        }
    }
    false
}

/// One running session: the puzzle and the cells the last check flagged.
pub struct App {
    pub sudoku: Sudoku,
    pub visible_incorrect_fields: Vec<(usize, usize)>,
}

impl App {
    /// A fresh session with a newly generated puzzle — the display starts
    /// as the clue grid, with exactly `BLANK_COUNT` cells left to play —
    /// and no flagged cells.
    pub fn new() -> (a: App)
        ensures
            a.sudoku.wf(),
            a.sudoku.disp() == a.sudoku.puz(),
            crate::generator::zero_count(a.sudoku.puz()) == crate::generator::BLANK_COUNT as int,
            a.visible_incorrect_fields@ == Seq::<(usize, usize)>::empty(),
    {
        App { sudoku: Sudoku::new(), visible_incorrect_fields: Vec::new() }
    }

    /// Replaces the session with a freshly generated puzzle — again with
    /// exactly `BLANK_COUNT` blank cells — and clears the flagged cells.
    pub fn on_new(&mut self)
        ensures
            final(self).sudoku.wf(),
            final(self).sudoku.disp() == final(self).sudoku.puz(),
            crate::generator::zero_count(final(self).sudoku.puz())
                == crate::generator::BLANK_COUNT as int,
            final(self).visible_incorrect_fields@ == Seq::<(usize, usize)>::empty(),
    {
        self.sudoku = Sudoku::new();
        self.visible_incorrect_fields.clear();
    }

    /// Recomputes the flagged cells as the puzzle's current incorrect
    /// fields; the puzzle itself is untouched.
    pub fn on_check(&mut self)
        requires
            old(self).sudoku.wf(),
        ensures
            final(self).sudoku == old(self).sudoku,
            final(self).visible_incorrect_fields@ == incorrect_from(
                old(self).sudoku.disp(),
                old(self).sudoku.sol(),
                0,
            ),
    {
        self.visible_incorrect_fields = self.sudoku.incorrect_fields();
    }

    /// Applies one hint: fills the first cell, in row-major order, that
    /// disagrees with the solution, and reports whether a hint was applied.
    /// When the grid already matches the solution everywhere, nothing
    /// changes.
    pub fn apply_next_step(&mut self) -> (applied: bool)
        requires
            old(self).sudoku.wf(),
        ensures
            final(self).sudoku.wf(),
            final(self).sudoku.sol() == old(self).sudoku.sol(),
            final(self).sudoku.puz() == old(self).sudoku.puz(),
            final(self).visible_incorrect_fields == old(self).visible_incorrect_fields,
            applied == !all_match(old(self).sudoku.disp(), old(self).sudoku.sol()),
            !applied ==> final(self).sudoku.disp() == old(self).sudoku.disp(),
            applied ==> exists|r: int, c: int|
                in_range(r, c) && old(self).sudoku.disp()[r][c] != old(self).sudoku.sol()[r][c]
                    && (forall|k: int|
                    0 <= k < r * 9 + c ==> #[trigger] old(self).sudoku.disp()[k / 9][k % 9]
                        == old(self).sudoku.sol()[k / 9][k % 9]) && final(self).sudoku.disp()
                    == #[trigger] user_input_spec(
                    old(self).sudoku.puz(),
                    old(self).sudoku.disp(),
                    r,
                    c,
                    old(self).sudoku.sol()[r][c],
                ),
    {
        match self.sudoku.next_step() {
            Some((row, col, value)) => {
                self.sudoku.user_input(row, col, value);
                proof {
                    assert(in_range(row as int, col as int) && old(self).sudoku.disp()[row as int][col as int]
                        != old(self).sudoku.sol()[row as int][col as int] && (forall|k: int|
                        0 <= k < row * 9 + col ==> #[trigger] old(self).sudoku.disp()[k / 9][k % 9]
                            == old(self).sudoku.sol()[k / 9][k % 9]) && self.sudoku.disp()
                        == user_input_spec(
                        old(self).sudoku.puz(),
                        old(self).sudoku.disp(),
                        row as int,
                        col as int,
                        old(self).sudoku.sol()[row as int][col as int],
                    ));
                }
                true
            },
            None => false,
        }
    }

    /// A player edit plus bookkeeping: writes the value through
    /// `user_input`, unflags the edited cell, and reports whether the grid
    /// now matches the solution.
    pub fn input(&mut self, row: usize, col: usize, value: u8) -> (won: bool)
        requires
            old(self).sudoku.wf(),
        ensures
            final(self).sudoku.wf(),
            final(self).sudoku.sol() == old(self).sudoku.sol(),
            final(self).sudoku.puz() == old(self).sudoku.puz(),
            final(self).sudoku.disp() == user_input_spec(
                old(self).sudoku.puz(),
                old(self).sudoku.disp(),
                row as int,
                col as int,
                value,
            ),
            won == all_match(final(self).sudoku.disp(), old(self).sudoku.sol()),
            ({
                let v = old(self).visible_incorrect_fields@;
                let w = final(self).visible_incorrect_fields@;
                if v.contains((row, col)) {
                    exists|i: int|
                        0 <= i < v.len() && v[i] == (row, col) && (forall|j: int|
                            0 <= j < i ==> v[j] != (row, col)) && w == #[trigger] v.remove(i)
                } else {
                    w == v
                }
            }),
    {
        self.sudoku.user_input(row, col, value);
        let mut i: usize = 0;
        let ghost v = self.visible_incorrect_fields@;
        let mut found = false;
        let mut pos: usize = 0;
        while i < self.visible_incorrect_fields.len()
            invariant
                !found ==> {
                    &&& i <= v.len()
                    &&& self.visible_incorrect_fields@ == v
                    &&& forall|j: int| 0 <= j < i ==> v[j] != (row, col)
                },
                found ==> {
                    &&& pos < v.len()
                    &&& v[pos as int] == (row, col)
                    &&& (forall|j: int| 0 <= j < pos ==> v[j] != (row, col))
                    &&& self.visible_incorrect_fields@ == v
                    &&& i >= v.len()
                },
            decreases self.visible_incorrect_fields@.len() - i,
        {
            let p = self.visible_incorrect_fields[i];
            if p.0 == row && p.1 == col {
                found = true;
                pos = i;
                i = self.visible_incorrect_fields.len();
            } else {
                i += 1;
            }
        }
        if found {
            self.visible_incorrect_fields.remove(pos);
        } else {
            proof {
                if v.contains((row, col)) {
                    let j = choose|j: int| 0 <= j < v.len() && v[j] == (row, col);
                    assert(v[j] != (row, col));
                }
            }
        }
        self.sudoku.has_won()
    }

    /// Unflags a cell without touching the grid (the edit turned out not to
    /// be a value change) and reports whether the grid matches the solution.
    pub fn dismiss_flag(&mut self, row: usize, col: usize) -> (won: bool)
        requires
            old(self).sudoku.wf(),
        ensures
            final(self).sudoku == old(self).sudoku,
            won == all_match(old(self).sudoku.disp(), old(self).sudoku.sol()),
            ({
                let v = old(self).visible_incorrect_fields@;
                let w = final(self).visible_incorrect_fields@;
                if v.contains((row, col)) {
                    exists|i: int|
                        0 <= i < v.len() && v[i] == (row, col) && (forall|j: int|
                            0 <= j < i ==> v[j] != (row, col)) && w == #[trigger] v.remove(i)
                } else {
                    w == v
                }
            }),
    {
        let mut i: usize = 0;
        let ghost v = self.visible_incorrect_fields@;
        let mut found = false;
        let mut pos: usize = 0;
        while i < self.visible_incorrect_fields.len()
            invariant
                !found ==> {
                    &&& i <= v.len()
                    &&& self.visible_incorrect_fields@ == v
                    &&& forall|j: int| 0 <= j < i ==> v[j] != (row, col)
                },
                found ==> {
                    &&& pos < v.len()
                    &&& v[pos as int] == (row, col)
                    &&& (forall|j: int| 0 <= j < pos ==> v[j] != (row, col))
                    &&& self.visible_incorrect_fields@ == v
                    &&& i >= v.len()
                },
            decreases self.visible_incorrect_fields@.len() - i,
        {
            let p = self.visible_incorrect_fields[i];
            if p.0 == row && p.1 == col {
                found = true;
                pos = i;
                i = self.visible_incorrect_fields.len();
            } else {
                i += 1;
            }
        }
        if found {
            self.visible_incorrect_fields.remove(pos);
        } else {
            proof {
                if v.contains((row, col)) {
                    let j = choose|j: int| 0 <= j < v.len() && v[j] == (row, col);
                    assert(v[j] != (row, col));
                }
            }
        }
        self.sudoku.has_won()
    }

    /// The CSS class string of cell `(row, col)`: `cell`, with `read-only`
    /// appended for clue cells, `incorrect` for currently flagged cells, and
    /// border markers after the third and sixth column and row.
    pub fn get_field_class(&self, row: usize, col: usize) -> (class: String)
        requires
            row < 9,
            col < 9,
            grid_wf(gv(self.sudoku.puzzle_sudoku)),
        ensures
            class@ == field_class_spec(
                self.sudoku.puz()[row as int][col as int] != 0,
                self.visible_incorrect_fields@.contains((row, col)),
                (col + 1) % 3 == 0 && col != 8,
                (row + 1) % 3 == 0 && row != 8,
            ),
    {
        let mut class = String::from_str("cell");
        if get_cell(&self.sudoku.puzzle_sudoku, row, col) != 0 {
            class.append(" read-only");
        }
        if contains_pair(&self.visible_incorrect_fields, row, col) {
            class.append(" incorrect");
        }
        if (col + 1) % 3 == 0 && col != 8 {
            class.append(" border-right");
        }
        if (row + 1) % 3 == 0 && row != 8 {
            class.append(" border-bottom");
        }
        proof {
            assert(class@ =~= field_class_spec(
                self.sudoku.puz()[row as int][col as int] != 0,
                self.visible_incorrect_fields@.contains((row, col)),
                (col + 1) % 3 == 0 && col != 8,
                (row + 1) % 3 == 0 && row != 8,
            ));
        }
        class
    }
}

} // verus!

use sudoku::app::App;
use sudoku::sudoku::Sudoku;

/// The same fixed solved grid as the engine tests use: top-left cell 5.
fn base_grid() -> Vec<Vec<u8>> {
    let offsets: [u8; 9] = [0, 3, 6, 1, 4, 7, 2, 5, 8];
    let mut g: Vec<Vec<u8>> = Vec::new();
    for r in 0..9 {
        let mut row: Vec<u8> = Vec::new();
        for c in 0..9 {
            row.push((4 + offsets[r] + c as u8) % 9 + 1);
        }
        g.push(row);
    }
    g
}

fn app_with_blanks(blanks: &[(usize, usize)]) -> App {
    let mut puzzle = base_grid();
    for &(r, c) in blanks {
        puzzle[r][c] = 0;
    }
    App {
        sudoku: Sudoku::from_grids(base_grid(), puzzle).unwrap(),
        visible_incorrect_fields: Vec::new(),
    }
}

#[test]
fn field_class_marks_read_only_and_borders() {
    let app = app_with_blanks(&[(0, 1)]);
    assert_eq!(app.get_field_class(0, 0), "cell read-only");
    assert_eq!(app.get_field_class(0, 1), "cell");
    assert_eq!(app.get_field_class(0, 2), "cell read-only border-right");
    assert_eq!(app.get_field_class(2, 0), "cell read-only border-bottom");
    assert_eq!(
        app.get_field_class(2, 5),
        "cell read-only border-right border-bottom"
    );
    assert_eq!(app.get_field_class(8, 8), "cell read-only");
    assert_eq!(app.get_field_class(0, 8), "cell read-only");
}

#[test]
fn field_class_marks_flagged_cells() {
    let mut app = app_with_blanks(&[(0, 1)]);
    app.input(0, 1, 2); // wrong: the solution holds 6 here
    app.on_check();
    assert_eq!(app.visible_incorrect_fields, vec![(0, 1)]);
    assert_eq!(app.get_field_class(0, 1), "cell incorrect");
}

#[test]
fn input_unflags_the_edited_cell() {
    let mut app = app_with_blanks(&[(0, 1), (0, 3)]);
    app.input(0, 1, 2);
    app.input(0, 3, 1);
    app.on_check();
    assert_eq!(app.visible_incorrect_fields, vec![(0, 1), (0, 3)]);
    app.input(0, 1, 6);
    assert_eq!(app.visible_incorrect_fields, vec![(0, 3)]);
}

#[test]
fn dismiss_flag_leaves_the_grid_alone() {
    let mut app = app_with_blanks(&[(0, 1)]);
    app.input(0, 1, 2);
    app.on_check();
    let before = app.sudoku.display_sudoku.clone();
    let won = app.dismiss_flag(0, 1);
    assert!(!won);
    assert!(app.visible_incorrect_fields.is_empty());
    assert_eq!(app.sudoku.display_sudoku, before);
}

#[test]
fn input_reports_the_winning_edit() {
    let mut app = app_with_blanks(&[(0, 1)]);
    assert!(!app.input(0, 1, 2));
    assert!(app.input(0, 1, 6));
}

#[test]
fn apply_next_step_until_solved() {
    let mut app = app_with_blanks(&[(0, 1), (5, 5)]);
    assert!(app.apply_next_step());
    assert_eq!(app.sudoku.display_sudoku[0][1], 6);
    assert!(app.apply_next_step());
    assert!(app.sudoku.has_won());
    assert!(!app.apply_next_step());
}

#[test]
fn edit_value_classifies_typed_text() {
    assert_eq!(sudoku::app::edit_value(&String::from("").into_bytes()), Some(0));
    assert_eq!(sudoku::app::edit_value(&String::from("7").into_bytes()), Some(7));
    assert_eq!(sudoku::app::edit_value(&String::from("0").into_bytes()), Some(0));
    assert_eq!(sudoku::app::edit_value(&String::from("9").into_bytes()), Some(9));
    assert_eq!(sudoku::app::edit_value(&String::from("12").into_bytes()), None);
    assert_eq!(sudoku::app::edit_value(&String::from("a").into_bytes()), None);
    // A multi-byte numeral character is not a single ASCII digit.
    assert_eq!(sudoku::app::edit_value(&vec![0xd9, 0xa3]), None);
}

#[test]
fn on_new_resets_the_session() {
    let mut app = app_with_blanks(&[(0, 1)]);
    app.input(0, 1, 2);
    app.on_check();
    app.on_new();
    assert!(app.visible_incorrect_fields.is_empty());
    assert_eq!(app.sudoku.display_sudoku, app.sudoku.puzzle_sudoku);
}

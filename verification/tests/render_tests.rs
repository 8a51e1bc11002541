use csv_table::finder::{FinderState, FoundRecord};
use csv_table::grid::{Grid, Region};
use csv_table::state::CsvTableState;
use csv_table::style::{Cell, Color};
use csv_table::table::CsvTable;

fn header2() -> Vec<String> {
    vec![String::from("ab"), String::from("c")]
}

fn rows2() -> Vec<Vec<String>> {
    vec![
        vec![String::from("x"), String::from("hello")],
        vec![String::from("longer"), String::from("y")],
    ]
}

#[test]
fn column_widths_cover_header_and_cells_plus_padding() {
    let rows = rows2();
    let table = CsvTable::new(&header2(), &rows);
    let widths = table.get_column_widths();
    assert_eq!(widths, vec![10, 9]);
}

#[test]
fn column_widths_ignore_cells_past_the_header() {
    let rows = vec![vec![
        String::from("a"),
        String::from("bb"),
        String::from("ccc"),
    ]];
    let table = CsvTable::new(&[String::from("h")], &rows);
    assert_eq!(table.get_column_widths(), vec![5]);
}

#[test]
fn column_widths_from_header_alone() {
    let rows: Vec<Vec<String>> = Vec::new();
    let table = CsvTable::new(&header2(), &rows);
    assert_eq!(table.get_column_widths(), vec![6, 5]);
}

#[test]
fn full_frame_layout() {
    let rows = rows2();
    let mut grid = Grid::new(40, 12);
    let mut state = CsvTableState::new(String::from("data.csv"), 2);
    let table = CsvTable::new(&header2(), &rows);
    table.render(Region::new(0, 0, 40, 12), &mut grid, &mut state);

    // header borders
    assert_eq!(grid.get(0, 0).ch, '\u{2500}');
    assert_eq!(grid.get(0, 0).style.fg, Color::Rgb(64, 64, 64));
    assert_eq!(grid.get(39, 2).ch, '\u{2500}');
    // gutter numbers, muted
    assert_eq!(grid.get(0, 3).ch, '1');
    assert_eq!(grid.get(0, 3).style.fg, Color::Rgb(64, 64, 64));
    assert_eq!(grid.get(0, 4).ch, '2');
    // header text, bold, first column starts at digits + 5
    assert_eq!(grid.get(6, 1).ch, 'a');
    assert_eq!(grid.get(7, 1).ch, 'b');
    assert!(grid.get(6, 1).style.bold);
    assert_eq!(grid.get(16, 1).ch, 'c');
    // data rows, plain
    assert_eq!(grid.get(6, 3).ch, 'x');
    assert!(!grid.get(6, 3).style.bold);
    assert_eq!(grid.get(16, 3).ch, 'h');
    assert_eq!(grid.get(20, 3).ch, 'o');
    assert_eq!(grid.get(6, 4).ch, 'l');
    assert_eq!(grid.get(16, 4).ch, 'y');
    // gutter rule and its intersections
    assert_eq!(grid.get(3, 3).ch, '\u{2502}');
    assert_eq!(grid.get(3, 9).ch, '\u{2502}');
    assert_eq!(grid.get(3, 2).ch, '\u{252C}');
    assert_eq!(grid.get(0, 10).ch, '\u{2500}');
    assert_eq!(grid.get(3, 10).ch, '\u{2534}');
    // status line
    let expect = "data.csv [Row 1/?, Col 1/2]";
    for (i, ch) in expect.chars().enumerate() {
        assert_eq!(grid.get(i as u16, 11).ch, ch);
        assert_eq!(grid.get(i as u16, 11).style.fg, Color::Rgb(128, 128, 128));
    }
    // outputs
    assert_eq!(state.num_cols_rendered, 2);
    assert!(!state.has_more_cols_to_show());
    let b = state.borders_state.as_ref().unwrap();
    assert_eq!(b.x_row_separator, 4);
    assert_eq!(b.y_first_record, 3);
}

#[test]
fn gutter_width_follows_digit_count() {
    let rows = vec![
        vec![String::from("a")],
        vec![String::from("b")],
        vec![String::from("c")],
        vec![String::from("d")],
        vec![String::from("e")],
    ];
    let mut grid = Grid::new(40, 12);
    let mut state = CsvTableState::new(String::from("f.csv"), 1);
    state.set_rows_offset(98);
    let table = CsvTable::new(&[String::from("h")], &rows);
    table.render(Region::new(0, 0, 40, 12), &mut grid, &mut state);
    // highest shown number is 98 + 5 + 1 = 104: three digits
    assert_eq!(grid.get(0, 3).ch, '9');
    assert_eq!(grid.get(1, 3).ch, '9');
    assert_eq!(grid.get(0, 4).ch, '1');
    assert_eq!(grid.get(1, 4).ch, '0');
    assert_eq!(grid.get(2, 4).ch, '0');
    let b = state.borders_state.as_ref().unwrap();
    assert_eq!(b.x_row_separator, 6);
    assert_eq!(grid.get(5, 3).ch, '\u{2502}');
    // first column starts at 3 + 5
    assert_eq!(grid.get(8, 1).ch, 'h');
}

#[test]
fn no_partial_column_and_more_cols_flag() {
    let rows = rows2();
    let mut grid = Grid::new(20, 12);
    let mut state = CsvTableState::new(String::from("d.csv"), 2);
    let table = CsvTable::new(&header2(), &rows);
    table.render(Region::new(0, 0, 20, 12), &mut grid, &mut state);
    // column 0 (width 10) fits in the 14 cells after the gutter; column 1
    // (width 9) does not, and is not drawn even in part
    assert_eq!(state.num_cols_rendered, 1);
    assert!(state.has_more_cols_to_show());
    assert_eq!(grid.get(6, 3).ch, 'x');
    assert_eq!(grid.get(16, 1).ch, ' ');
    assert_eq!(grid.get(16, 3).ch, ' ');
    assert_eq!(grid.get(17, 3).ch, ' ');
}

#[test]
fn cols_offset_skips_earlier_columns_entirely() {
    let rows = rows2();
    let mut grid = Grid::new(40, 12);
    let mut state = CsvTableState::new(String::from("d.csv"), 2);
    state.set_cols_offset(1);
    let table = CsvTable::new(&header2(), &rows);
    table.render(Region::new(0, 0, 40, 12), &mut grid, &mut state);
    // the second column is drawn where the first would start
    assert_eq!(grid.get(6, 1).ch, 'c');
    assert_eq!(grid.get(6, 3).ch, 'h');
    assert_eq!(state.num_cols_rendered, 1);
    assert!(!state.has_more_cols_to_show());
}

#[test]
fn highlight_iff_cell_contains_target() {
    let rows = rows2();
    let mut grid = Grid::new(40, 12);
    let mut state = CsvTableState::new(String::from("d.csv"), 2);
    state.finder_state = FinderState::from_finder(
        true,
        1,
        Some(0),
        String::from("ell"),
        Some(FoundRecord::new(0, vec![1])),
    );
    let table = CsvTable::new(&header2(), &rows);
    table.render(Region::new(0, 0, 40, 12), &mut grid, &mut state);
    // "hello" at row 0, column 1 contains "ell": those three characters are
    // highlighted, and as the focused match they get the marker background
    assert_eq!(grid.get(16, 3).style.fg, Color::Reset);
    for x in 17..20 {
        assert_eq!(grid.get(x, 3).style.fg, Color::Rgb(200, 0, 0));
        assert_eq!(grid.get(x, 3).style.bg, Color::LightYellow);
    }
    assert_eq!(grid.get(20, 3).style.fg, Color::Reset);
    // cells without the substring stay plain
    assert_eq!(grid.get(6, 3).style.fg, Color::Reset);
    assert_eq!(grid.get(6, 4).style.fg, Color::Reset);
}

#[test]
fn highlight_without_focus_keeps_plain_background() {
    let rows = rows2();
    let mut grid = Grid::new(40, 12);
    let mut state = CsvTableState::new(String::from("d.csv"), 2);
    // the focused match is elsewhere: same substring, different coordinates
    state.finder_state = FinderState::from_finder(
        false,
        2,
        None,
        String::from("lo"),
        Some(FoundRecord::new(1, vec![0])),
    );
    let table = CsvTable::new(&header2(), &rows);
    table.render(Region::new(0, 0, 40, 12), &mut grid, &mut state);
    // "hello" contains "lo" but is not the focused match
    assert_eq!(grid.get(19, 3).style.fg, Color::Rgb(200, 0, 0));
    assert_eq!(grid.get(19, 3).style.bg, Color::Reset);
    // "longer" holds the focused match at (1, 0)
    assert_eq!(grid.get(6, 4).style.fg, Color::Rgb(200, 0, 0));
    assert_eq!(grid.get(6, 4).style.bg, Color::LightYellow);
}

#[test]
fn zero_viewport_changes_nothing() {
    let rows = rows2();
    let mut grid = Grid::new(40, 12);
    let before = grid.cells.clone();
    let mut state = CsvTableState::new(String::from("d.csv"), 2);
    let table = CsvTable::new(&header2(), &rows);
    table.render(Region::new(0, 0, 0, 12), &mut grid, &mut state);
    assert_eq!(grid.cells, before);
    assert_eq!(state.num_cols_rendered, 0);
    assert!(state.borders_state.is_none());

    let table = CsvTable::new(&header2(), &rows);
    table.render(Region::new(0, 0, 40, 0), &mut grid, &mut state);
    assert_eq!(grid.cells, before);
}

#[test]
fn render_twice_is_byte_identical() {
    let rows = rows2();
    let mut grid = Grid::new(40, 12);
    let mut state = CsvTableState::new(String::from("data.csv"), 2);
    let table = CsvTable::new(&header2(), &rows);
    table.render(Region::new(0, 0, 40, 12), &mut grid, &mut state);
    let first = grid.cells.clone();
    // a freshly reset state, identical inputs, painting over the result
    let mut state2 = CsvTableState::new(String::from("data.csv"), 2);
    let table2 = CsvTable::new(&header2(), &rows);
    table2.render(Region::new(0, 0, 40, 12), &mut grid, &mut state2);
    assert_eq!(grid.cells, first);
    assert_eq!(state.num_cols_rendered, state2.num_cols_rendered);
}

#[test]
fn empty_table_renders_without_rows() {
    let rows: Vec<Vec<String>> = Vec::new();
    let mut grid = Grid::new(30, 8);
    let mut state = CsvTableState::new(String::from("empty.csv"), 0);
    let table = CsvTable::new(&[], &rows);
    table.render(Region::new(0, 0, 30, 8), &mut grid, &mut state);
    assert_eq!(state.num_cols_rendered, 0);
    assert!(!state.has_more_cols_to_show());
    assert_eq!(grid.get(0, 0).ch, '\u{2500}');
    assert_eq!(grid.get(0, 7).ch, 'e');
}

#[test]
fn short_viewport_stops_rows_early() {
    let rows = vec![
        vec![String::from("r0")],
        vec![String::from("r1")],
        vec![String::from("r2")],
        vec![String::from("r3")],
    ];
    let mut grid = Grid::new(30, 7);
    let mut state = CsvTableState::new(String::from("f.csv"), 1);
    let table = CsvTable::new(&[String::from("h")], &rows);
    // rows area is 7 - 5 = 2 rows tall: rows 2 and 3 are not painted
    table.render(Region::new(0, 0, 30, 7), &mut grid, &mut state);
    assert_eq!(grid.get(0, 3).ch, '1');
    assert_eq!(grid.get(0, 4).ch, '2');
    assert_eq!(grid.get(6, 3).ch, 'r');
    assert_eq!(grid.get(7, 4).ch, '1');
    // the status band keeps its separator and text
    assert_eq!(grid.get(0, 5).ch, '\u{2500}');
    assert_eq!(grid.get(0, 6).ch, 'f');
}

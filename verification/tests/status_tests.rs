use csv_table::finder::{FinderActiveState, FinderState, FoundRecord};
use csv_table::state::{CsvTableState, InputMode, status_text};

#[test]
fn status_basic_composition() {
    let st = CsvTableState::new(String::from("data.csv"), 3);
    let s = status_text(&st);
    assert_eq!(s, "data.csv [Row 1/?, Col 1/3]");
}

#[test]
fn status_with_known_total_and_offsets() {
    let mut st = CsvTableState::new(String::from("big.csv"), 12);
    st.set_rows_offset(99);
    st.set_cols_offset(4);
    st.set_total_line_number(1000);
    let s = status_text(&st);
    assert_eq!(s, "big.csv [Row 100/1000, Col 5/12]");
}

#[test]
fn status_overlay_precedence_find() {
    let mut st = CsvTableState::new(String::from("data.csv"), 3);
    st.set_total_line_number(40);
    st.set_buffer(InputMode::Find, "foo");
    let s = status_text(&st);
    assert_eq!(s, "Find: foo");
}

#[test]
fn status_overlay_goto_line() {
    let mut st = CsvTableState::new(String::from("data.csv"), 3);
    st.set_buffer(InputMode::GotoLine, "12");
    assert_eq!(status_text(&st), "Go to line: 12");
}

#[test]
fn status_overlay_other_mode_has_no_label() {
    let mut st = CsvTableState::new(String::from("data.csv"), 3);
    st.set_buffer(InputMode::Other, "raw");
    assert_eq!(status_text(&st), "raw");
}

#[test]
fn status_overlay_reset_restores_composition() {
    let mut st = CsvTableState::new(String::from("data.csv"), 3);
    st.set_buffer(InputMode::Find, "foo");
    st.reset_buffer();
    assert_eq!(status_text(&st), "data.csv [Row 1/?, Col 1/3]");
}

#[test]
fn finder_fragment_cursor_and_total() {
    let a = FinderActiveState::new(true, 5, Some(2), String::from("abc"), None);
    assert_eq!(a.status_line(), "[\"abc\": 3/5]");
}

#[test]
fn finder_fragment_not_found() {
    let a = FinderActiveState::new(true, 0, None, String::from("abc"), None);
    assert_eq!(a.status_line(), "[\"abc\": Not found]");
}

#[test]
fn finder_fragment_still_finding() {
    let a = FinderActiveState::new(false, 0, None, String::from("xy"), None);
    assert_eq!(a.status_line(), "[\"xy\": Finding...]");
}

#[test]
fn finder_fragment_incomplete_has_plus_and_dash_cursor() {
    let a = FinderActiveState::new(false, 7, None, String::from("q"), None);
    assert_eq!(a.status_line(), "[\"q\": -/7+]");
}

#[test]
fn status_with_finder_elapsed_and_debug() {
    let mut st = CsvTableState::new(String::from("f.csv"), 2);
    st.set_total_line_number(10);
    st.finder_state = FinderState::from_finder(true, 5, Some(2), String::from("abc"), None);
    st.elapsed = Some(12);
    st.debug = String::from("hi");
    let s = status_text(&st);
    assert_eq!(s, "f.csv [Row 1/10, Col 1/2] [\"abc\": 3/5] [12ms] (debug: hi)");
}

#[test]
fn from_finder_snapshots_all_fields() {
    let fr = FoundRecord::new(3, vec![0, 2]);
    let fs = FinderState::from_finder(false, 9, Some(1), String::from("t"), Some(fr));
    match fs {
        FinderState::FinderActive(a) => {
            assert!(!a.find_complete);
            assert_eq!(a.total_found, 9);
            assert_eq!(a.cursor_index, Some(1));
            assert_eq!(a.target, "t");
            let r = a.found_record.unwrap();
            assert_eq!(r.row_index(), 3);
            assert_eq!(r.column_indices(), &vec![0, 2]);
        }
        FinderState::FinderInactive => panic!("expected an active snapshot"),
    }
}

use csv_table::style::{Color, Style};
use csv_table::text::{chars_of, contains_chars, highlight_cells, styled_cells, u64_dec};

fn plain() -> Style {
    Style::plain()
}

fn hl() -> Style {
    Style::highlight()
}

#[test]
fn decimal_rendering() {
    assert_eq!(u64_dec(0), "0");
    assert_eq!(u64_dec(7), "7");
    assert_eq!(u64_dec(10), "10");
    assert_eq!(u64_dec(10500), "10500");
    assert_eq!(u64_dec(u64::MAX), "18446744073709551615");
}

#[test]
fn styled_cells_keep_characters() {
    let cells = styled_cells("ab", plain());
    assert_eq!(cells.len(), 2);
    assert_eq!(cells[0].ch, 'a');
    assert_eq!(cells[1].ch, 'b');
    assert_eq!(cells[0].style, plain());
}

#[test]
fn contains_finds_substrings() {
    let t = chars_of("hello");
    assert!(contains_chars(&t, &chars_of("ell")));
    assert!(contains_chars(&t, &chars_of("hello")));
    assert!(contains_chars(&t, &chars_of("")));
    assert!(!contains_chars(&t, &chars_of("elo")));
    assert!(!contains_chars(&chars_of(""), &chars_of("x")));
}

#[test]
fn highlight_splits_on_every_occurrence() {
    let cells = highlight_cells(&chars_of("xabyab"), &chars_of("ab"), plain(), hl());
    let chs: String = cells.iter().map(|c| c.ch).collect();
    assert_eq!(chs, "xabyab");
    let flags: Vec<bool> = cells.iter().map(|c| c.style == hl()).collect();
    assert_eq!(flags, vec![false, true, true, false, true, true]);
}

#[test]
fn highlight_matches_leftmost_without_overlap() {
    let cells = highlight_cells(&chars_of("aaa"), &chars_of("aa"), plain(), hl());
    let flags: Vec<bool> = cells.iter().map(|c| c.style == hl()).collect();
    assert_eq!(flags, vec![true, true, false]);
}

#[test]
fn highlight_leaves_unmatched_text_plain() {
    let cells = highlight_cells(&chars_of("abc"), &chars_of("zz"), plain(), hl());
    assert!(cells.iter().all(|c| c.style == plain()));
    assert_eq!(cells.iter().map(|c| c.ch).collect::<String>(), "abc");
    assert_eq!(hl().fg, Color::Rgb(200, 0, 0));
}

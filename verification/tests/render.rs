use alfred::emulator::{color_to_rgb, indexed_to_rgb, named_to_rgb, Color, NamedColor, Rgb, TermCell};
use alfred::renderer::{build_rows, build_spans};

fn cell(row: u16, col: u16, ch: char, fg: [u8; 3]) -> TermCell {
    TermCell { row, col, ch, fg, bg: [0, 0, 0] }
}

const W: [u8; 3] = [235, 219, 178];
const R: [u8; 3] = [204, 36, 29];

#[test]
fn indexed_palette_values() {
    assert_eq!(indexed_to_rgb(0), [18, 18, 18]);
    assert_eq!(indexed_to_rgb(9), [251, 73, 52]);
    assert_eq!(indexed_to_rgb(16), [0, 0, 0]);
    assert_eq!(indexed_to_rgb(196), [255, 0, 0]);
    assert_eq!(indexed_to_rgb(21), [0, 0, 255]);
    assert_eq!(indexed_to_rgb(231), [255, 255, 255]);
    assert_eq!(indexed_to_rgb(232), [8, 8, 8]);
    assert_eq!(indexed_to_rgb(255), [238, 238, 238]);
}

#[test]
fn named_colors() {
    assert_eq!(named_to_rgb(NamedColor::Red), [204, 36, 29]);
    assert_eq!(named_to_rgb(NamedColor::DimRed), [204, 36, 29]);
    assert_eq!(named_to_rgb(NamedColor::BrightWhite), [235, 219, 178]);
    assert_eq!(named_to_rgb(NamedColor::Background), [18, 18, 18]);
    assert_eq!(named_to_rgb(NamedColor::Foreground), [204, 204, 204]);
    assert_eq!(named_to_rgb(NamedColor::Cursor), [204, 204, 204]);
}

#[test]
fn system_indices_match_named() {
    assert_eq!(indexed_to_rgb(3), named_to_rgb(NamedColor::Yellow));
    assert_eq!(indexed_to_rgb(14), named_to_rgb(NamedColor::BrightCyan));
}

#[test]
fn color_dispatch() {
    assert_eq!(color_to_rgb(&Color::Spec(Rgb { r: 1, g: 2, b: 3 })), [1, 2, 3]);
    assert_eq!(color_to_rgb(&Color::Named(NamedColor::Blue)), [69, 133, 136]);
    assert_eq!(color_to_rgb(&Color::Indexed(244)), [128, 128, 128]);
}

#[test]
fn build_rows_groups_and_sorts_by_column() {
    let cells = vec![
        cell(1, 2, 'c', W),
        cell(0, 1, 'b', W),
        cell(1, 0, 'a', W),
        cell(0, 0, 'x', W),
        cell(1, 2, 'd', W),
    ];
    let rows = build_rows(&cells);
    assert_eq!(rows.len(), 2);
    let r0: Vec<char> = rows[0].iter().map(|c| c.ch).collect();
    let r1: Vec<char> = rows[1].iter().map(|c| c.ch).collect();
    assert_eq!(r0, vec!['x', 'b']);
    // Stable: 'c' came before 'd' in column 2.
    assert_eq!(r1, vec!['a', 'c', 'd']);
}

#[test]
fn build_rows_keeps_empty_rows_and_handles_empty_input() {
    assert!(build_rows(&[]).is_empty());
    let rows = build_rows(&[cell(2, 0, 'z', W)]);
    assert_eq!(rows.len(), 3);
    assert!(rows[0].is_empty());
    assert!(rows[1].is_empty());
    assert_eq!(rows[2].len(), 1);
}

#[test]
fn build_spans_merges_runs_and_draws_cursor_block() {
    let rows = vec![
        vec![cell(0, 0, 'a', W), cell(0, 1, 'b', W), cell(0, 2, 'c', R), cell(0, 4, 'e', R)],
        vec![],
        vec![cell(2, 0, 'x', W), cell(2, 1, 'y', W), cell(2, 2, 'z', W)],
    ];
    let spans = build_spans(&rows, (2, 1));
    let got: Vec<(String, Option<[u8; 3]>)> = spans;
    let expected: Vec<(String, Option<[u8; 3]>)> = vec![
        ("ab".to_string(), Some(W)),
        ("c".to_string(), Some(R)),
        // Column 3 is a gap: a blank in the default colour.
        (" ".to_string(), Some(W)),
        ("e".to_string(), Some(R)),
        ("\n".to_string(), None),
        ("\n".to_string(), None),
        ("x".to_string(), Some(W)),
        ("\u{2588}".to_string(), Some(W)),
        ("z".to_string(), Some(W)),
    ];
    assert_eq!(got, expected);
}

#[test]
fn build_spans_of_nothing_is_empty() {
    assert!(build_spans(&[], (0, 0)).is_empty());
}

#[test]
fn spans_keep_every_character_in_order() {
    let rows = vec![vec![
        cell(0, 0, 'h', W),
        cell(0, 1, 'e', R),
        cell(0, 2, 'l', R),
        cell(0, 3, 'l', W),
        cell(0, 4, 'o', W),
    ]];
    let spans = build_spans(&rows, (0, 3));
    let text: String = spans.iter().map(|(t, _)| t.as_str()).collect();
    assert_eq!(text, "hel\u{2588}o");
    assert_eq!(spans.len(), 4);
    assert_eq!(spans[1], ("el".to_string(), Some(R)));
    assert_eq!(spans[2], ("\u{2588}".to_string(), Some(W)));
}

#[test]
fn cursor_on_blank_cell_is_a_block() {
    let rows = vec![vec![cell(0, 0, 'a', R), cell(0, 2, 'b', R)]];
    let spans = build_spans(&rows, (0, 1));
    let expected: Vec<(String, Option<[u8; 3]>)> = vec![
        ("a".to_string(), Some(R)),
        ("\u{2588}".to_string(), Some(W)),
        ("b".to_string(), Some(R)),
    ];
    assert_eq!(spans, expected);
}

use asciigraph::color::AnsiColor;
use asciigraph::render::{caption_line, render};

fn rows(vals: &[i64]) -> Vec<Option<usize>> {
    vals.iter()
        .map(|&v| if v < 0 { None } else { Some(v as usize) })
        .collect()
}

fn labels(texts: &[&str]) -> Vec<String> {
    texts.iter().map(|s| s.to_string()).collect()
}

/// An up-then-down ramp: five label rows, a continuous axis column, and
/// corner glyphs at every change of direction.
#[test]
fn up_down_shape_uncolored() {
    let data = vec![rows(&[0, 2, 4, 2, 0])];
    let labs = labels(&["3.00", "2.50", "2.00", "1.50", "1.00"]);
    let out = render(
        &data,
        &labs,
        4,
        5,
        3,
        4,
        &String::new(),
        AnsiColor::Default,
        AnsiColor::Default,
        AnsiColor::Default,
        &vec![],
    );
    let expected = " 3.00 ┤ ╭╮\n 2.50 ┤ ││\n 2.00 ┤╭╯╰╮\n 1.50 ┤│  │\n 1.00 ┼╯  ╰";
    assert_eq!(out, expected);
}

/// Coloring the same chart: escapes only where the color changes, and a
/// reset after the last colored cell of each row.
#[test]
fn up_down_shape_colored() {
    let data = vec![rows(&[0, 2, 4, 2, 0])];
    let labs = labels(&["3.00", "2.50", "2.00", "1.50", "1.00"]);
    let out = render(
        &data,
        &labs,
        4,
        5,
        3,
        4,
        &String::new(),
        AnsiColor::Default,
        AnsiColor::White,
        AnsiColor::AliceBlue,
        &vec![AnsiColor::AliceBlue],
    );
    let first = out.split('\n').next().unwrap();
    assert_eq!(
        first,
        "\u{1b}[37m 3.00\u{1b}[0m \u{1b}[37m┤\u{1b}[0m \u{1b}[37m╭╮\u{1b}[0m"
    );
}

/// A gap in the middle of a flat series: a dangling end after the first
/// sample, a dangling start before the last, and no segment across the gap.
#[test]
fn gap_dangling_glyphs() {
    let data = vec![rows(&[0, -1, 0])];
    let labs = labels(&["5.00"]);
    let out = render(
        &data,
        &labs,
        0,
        3,
        3,
        4,
        &String::new(),
        AnsiColor::Default,
        AnsiColor::Default,
        AnsiColor::Default,
        &vec![],
    );
    assert_eq!(out, " 5.00 ┼ ╴╶");
    assert!(!out.contains('─'));
}

/// Two equally wide series drawn in their configured colors on one grid.
#[test]
fn two_series_colors() {
    let data = vec![rows(&[0, 1, 1, 0]), rows(&[1, 0, 0, 1])];
    let labs = labels(&["2.00", "1.00"]);
    let out = render(
        &data,
        &labs,
        1,
        4,
        3,
        4,
        &String::new(),
        AnsiColor::Default,
        AnsiColor::Default,
        AnsiColor::Default,
        &vec![AnsiColor::AliceBlue, AnsiColor::Black],
    );
    assert_eq!(out.split('\n').count(), 2);
    assert!(out.contains("\u{1b}[37m"));
    assert!(out.contains("\u{1b}[30m"));
}

/// A series beyond the color list falls back to the uncolored tag.
#[test]
fn series_without_color_slot() {
    let data = vec![rows(&[0, 0])];
    let labs = labels(&["1.00"]);
    let out = render(
        &data,
        &labs,
        0,
        2,
        3,
        4,
        &String::new(),
        AnsiColor::Default,
        AnsiColor::Default,
        AnsiColor::Default,
        &vec![],
    );
    assert_eq!(out, " 1.00 ┼─");
    assert!(!out.contains('\u{1b}'));
}

/// An all-equal series collapses to one value row: the chart is a single
/// line with no break in it.
#[test]
fn all_equal_single_row() {
    let data = vec![rows(&[0, 0, 0, 0])];
    let labs = labels(&["7.00"]);
    let out = render(
        &data,
        &labs,
        0,
        4,
        3,
        4,
        &String::new(),
        AnsiColor::Default,
        AnsiColor::Default,
        AnsiColor::Default,
        &vec![],
    );
    assert_eq!(out, " 7.00 ┼───");
    assert!(!out.contains('\n'));
}

/// A shorter caption is centered by integer-floor halving of the deficit.
#[test]
fn caption_centered_floor() {
    let cap = "abc".to_string();
    let line = caption_line(&cap, AnsiColor::Default, 3, 4, 10);
    assert_eq!(line, format!("\n{}{}abc", " ".repeat(7), " ".repeat(3)));
}

/// A caption at least as wide as the plot gets no centering padding.
#[test]
fn caption_wide_no_padding() {
    let cap = "abcdefghij".to_string();
    let line = caption_line(&cap, AnsiColor::Default, 3, 4, 5);
    assert_eq!(line, format!("\n{}abcdefghij", " ".repeat(7)));
}

/// A colored caption is wrapped in its escape and a reset.
#[test]
fn caption_colored() {
    let cap = "t".to_string();
    let line = caption_line(&cap, AnsiColor::Black, 1, 1, 1);
    assert_eq!(line, "\n  \u{1b}[30mt\u{1b}[0m");
}

/// An empty caption contributes nothing, not even a line break.
#[test]
fn caption_empty() {
    let line = caption_line(&String::new(), AnsiColor::Black, 3, 4, 10);
    assert_eq!(line, "");
}

/// The caption line is appended after the grid rows.
#[test]
fn render_with_caption() {
    let data = vec![rows(&[0, 0])];
    let labs = labels(&["1.00"]);
    let out = render(
        &data,
        &labs,
        0,
        2,
        3,
        4,
        &"hi".to_string(),
        AnsiColor::Default,
        AnsiColor::Default,
        AnsiColor::Default,
        &vec![],
    );
    assert_eq!(out, format!(" 1.00 ┼─\n{}hi", " ".repeat(7)));
}

use crate::color::AnsiColor;
use crate::grid::{blank_grid_v, blank_v, grid_v, new_grid, put_cell, write_v, Cell, CellV};
use vstd::prelude::*;
use vstd::string::StrSliceExecFns;
use vstd::string::StringExecFns;

verus! {

/// `n` blanks.
pub open spec fn spec_spaces(n: int) -> Seq<char> {
    Seq::new(if n <= 0 { 0 } else { n as nat }, |i: int| ' ')
}

/// A label right-aligned into a field of `w` characters; a label already
/// that wide or wider is kept as it is.
pub open spec fn padded_label(s: Seq<char>, w: int) -> Seq<char> {
    if s.len() < w {
        spec_spaces(w - s.len()) + s
    } else {
        s
    }
}

/// The column a label of length `l` is written into: flush against the
/// axis, but never left of column zero.
pub open spec fn label_col(off: int, l: int) -> int {
    if off - l > 0 {
        off - l
    } else {
        0
    }
}

/// One gutter row: the padded label in the label columns and the axis
/// glyph in column `off - 1`.
pub open spec fn draw_label_row(
    g: Seq<Seq<CellV>>,
    w: int,
    label: Seq<char>,
    off: int,
    max_width: int,
    label_color: AnsiColor,
    axis_color: AnsiColor,
) -> Seq<Seq<CellV>> {
    let padded = padded_label(label, max_width + 1);
    let h = label_col(off, padded.len() as int);
    let g1 = write_v(g, w, h, CellV { text: padded, color: label_color });
    write_v(g1, w, off - 1, CellV { text: seq!['┤'], color: axis_color })
}

/// The gutter rows `0 .. upto`, drawn top to bottom.
pub open spec fn draw_labels(
    g: Seq<Seq<CellV>>,
    labels: Seq<Seq<char>>,
    off: int,
    max_width: int,
    label_color: AnsiColor,
    axis_color: AnsiColor,
    upto: int,
) -> Seq<Seq<CellV>>
    decreases upto,
{
    if upto <= 0 {
        g
    } else {
        draw_label_row(
            draw_labels(g, labels, off, max_width, label_color, axis_color, upto - 1),
            upto - 1,
            labels[upto - 1],
            off,
            max_width,
            label_color,
            axis_color,
        )
    }
}

fn spaces(n: usize) -> (r: String)
    ensures
        r@ == spec_spaces(n as int),
{
    let mut out = String::new();
    let mut i: usize = 0;
    while i < n
        invariant
            0 <= i <= n,
            out@ == spec_spaces(i as int),
        decreases n - i,
    {
        out.append(" ");
        proof {
            reveal_strlit(" ");
            assert(out@ =~= spec_spaces(i + 1));
        }
        i += 1;
    }
    out
}

fn pad_label(s: &String, w: usize) -> (r: String)
    ensures
        r@ == padded_label(s@, w as int),
{
    let n = s.as_str().unicode_len();
    if n < w {
        let mut out = spaces(w - n);
        out.append(s.as_str());
        out
    } else {
        s.clone()
    }
}

/// Writes the axis gutter: for every grid row its label, right-aligned to
/// `max_width + 1` characters, and the axis glyph, so that the axis line
/// is continuous whether or not data reaches a row.
pub fn draw_axis_and_labels(
    g: &mut Vec<Vec<Cell>>,
    labels: &Vec<String>,
    off: usize,
    max_width: usize,
    label_color: AnsiColor,
    axis_color: AnsiColor,
)
    requires
        1 <= off,
        max_width < usize::MAX,
        old(g)@.len() == labels@.len(),
        forall|r: int| 0 <= r < old(g)@.len() ==> off <= (#[trigger] old(g)@[r])@.len(),
    ensures
        final(g)@.len() == old(g)@.len(),
        forall|r: int| 0 <= r < final(g)@.len() ==> (#[trigger] final(g)@[r])@.len() == old(
            g,
        )@[r]@.len(),
        grid_v(final(g)@) == draw_labels(
            grid_v(old(g)@),
            labels.deep_view(),
            off as int,
            max_width as int,
            label_color,
            axis_color,
            labels@.len() as int,
        ),
{
    let ghost g0 = grid_v(old(g)@);
    let ghost lv = labels.deep_view();
    let mut w: usize = 0;
    while w < labels.len()
        invariant
            0 <= w <= labels@.len(),
            g@.len() == old(g)@.len(),
            old(g)@.len() == labels@.len(),
            1 <= off,
            max_width < usize::MAX,
            lv == labels.deep_view(),
            forall|r: int| 0 <= r < g@.len() ==> (#[trigger] g@[r])@.len() == old(g)@[r]@.len(),
            forall|r: int| 0 <= r < old(g)@.len() ==> off <= (#[trigger] old(g)@[r])@.len(),
            grid_v(g@) == draw_labels(
                g0,
                lv,
                off as int,
                max_width as int,
                label_color,
                axis_color,
                w as int,
            ),
        decreases labels@.len() - w,
    {
        let padded = pad_label(&labels[w], max_width + 1);
        let ghost pv = padded@;
        let pl = padded.as_str().unicode_len();
        let h = if off > pl {
            off - pl
        } else {
            0
        };
        proof {
            assert(h as int == label_col(off as int, pv.len() as int));
            assert(lv[w as int] == labels@[w as int]@);
        }
        put_cell(g, w, h, padded, label_color);
        put_cell(g, w, off - 1, "┤".to_owned(), axis_color);
        proof {
            reveal_strlit("┤");
            assert("┤"@ =~= seq!['┤']);
            assert(grid_v(g@) == draw_labels(
                g0,
                lv,
                off as int,
                max_width as int,
                label_color,
                axis_color,
                w + 1,
            ));
        }
        w += 1;
    }
}

/// Vertical bars at the grid rows for `y` in `[y, top)`, column `col`.
/// Grid row `rows - y` shows value row `y`, so row zero is the top.
pub open spec fn write_bars(
    g: Seq<Seq<CellV>>,
    rows: int,
    col: int,
    y: int,
    top: int,
    color: AnsiColor,
) -> Seq<Seq<CellV>>
    decreases top - y,
{
    if y >= top {
        g
    } else {
        write_bars(
            write_v(g, rows - y, col, CellV { text: seq!['│'], color }),
            rows,
            col,
            y + 1,
            top,
            color,
        )
    }
}

/// What one adjacent pair of samples at columns `x`, `x + 1` draws:
/// nothing over a gap, a dangling end or start in the gap column `x + 1`,
/// a horizontal segment at `x + off` for a flat step, or two corners with
/// a vertical run between them.
pub open spec fn draw_pair(
    g: Seq<Seq<CellV>>,
    rows: int,
    off: int,
    x: int,
    d0: Option<usize>,
    d1: Option<usize>,
    color: AnsiColor,
) -> Seq<Seq<CellV>> {
    match (d0, d1) {
        (Option::None, Option::None) => g,
        (Option::Some(y0), Option::None) => write_v(
            g,
            rows - y0,
            x + 1 + off,
            CellV { text: seq!['╴'], color },
        ),
        (Option::None, Option::Some(y1)) => write_v(
            g,
            rows - y1,
            x + 1 + off,
            CellV { text: seq!['╶'], color },
        ),
        (Option::Some(y0), Option::Some(y1)) => {
            if y0 == y1 {
                write_v(g, rows - y0, x + off, CellV { text: seq!['─'], color })
            } else {
                let g1 = write_v(
                    g,
                    rows - y1,
                    x + off,
                    CellV {
                        text: if y0 > y1 {
                            seq!['╰']
                        } else {
                            seq!['╭']
                        },
                        color,
                    },
                );
                let g2 = write_v(
                    g1,
                    rows - y0,
                    x + off,
                    CellV {
                        text: if y0 > y1 {
                            seq!['╮']
                        } else {
                            seq!['╯']
                        },
                        color,
                    },
                );
                let bot = if y0 < y1 {
                    y0 as int
                } else {
                    y1 as int
                };
                let top = if y0 < y1 {
                    y1 as int
                } else {
                    y0 as int
                };
                write_bars(g2, rows, x + off, bot + 1, top, color)
            }
        },
    }
}

/// The pairs `0 .. upto` of one series, drawn left to right.
pub open spec fn draw_pairs(
    g: Seq<Seq<CellV>>,
    rows: int,
    off: int,
    data: Seq<Option<usize>>,
    color: AnsiColor,
    upto: int,
) -> Seq<Seq<CellV>>
    decreases upto,
{
    if upto <= 0 {
        g
    } else {
        draw_pair(
            draw_pairs(g, rows, off, data, color, upto - 1),
            rows,
            off,
            upto - 1,
            data[upto - 1],
            data[upto],
            color,
        )
    }
}

/// One whole series: the origin glyph on the axis when the first sample is
/// present, then every adjacent pair.
pub open spec fn draw_series_v(
    g: Seq<Seq<CellV>>,
    rows: int,
    off: int,
    data: Seq<Option<usize>>,
    color: AnsiColor,
    axis_color: AnsiColor,
) -> Seq<Seq<CellV>> {
    let g0 = match data[0] {
        Option::Some(y0) => write_v(
            g,
            rows - y0,
            off - 1,
            CellV { text: seq!['┼'], color: axis_color },
        ),
        Option::None => g,
    };
    draw_pairs(g0, rows, off, data, color, data.len() - 1)
}

/// The color a series is drawn in: its slot in the configured list, or no
/// color when the list is shorter.
pub open spec fn series_color(colors: Seq<AnsiColor>, i: int) -> AnsiColor {
    if 0 <= i < colors.len() {
        colors[i]
    } else {
        AnsiColor::Default
    }
}

/// The series `0 .. upto`, drawn in order, so a later series overdraws an
/// earlier one where they meet.
pub open spec fn draw_all_series(
    g: Seq<Seq<CellV>>,
    rows: int,
    off: int,
    data: Seq<Seq<Option<usize>>>,
    colors: Seq<AnsiColor>,
    axis_color: AnsiColor,
    upto: int,
) -> Seq<Seq<CellV>>
    decreases upto,
{
    if upto <= 0 {
        g
    } else {
        draw_series_v(
            draw_all_series(g, rows, off, data, colors, axis_color, upto - 1),
            rows,
            off,
            data[upto - 1],
            series_color(colors, upto - 1),
            axis_color,
        )
    }
}

/// Draws one series as a polyline of glyphs chosen by slope and gap
/// analysis: sample `j`, when mapped to value row `y`, lights grid row
/// `rows - y` near column `j + off`.
pub fn draw_series(
    g: &mut Vec<Vec<Cell>>,
    data: &Vec<Option<usize>>,
    rows: usize,
    off: usize,
    color: AnsiColor,
    axis_color: AnsiColor,
)
    requires
        1 <= off,
        1 <= data@.len(),
        old(g)@.len() == rows + 1,
        forall|r: int| 0 <= r < old(g)@.len() ==> off + data@.len() <= (#[trigger] old(
            g,
        )@[r])@.len(),
        forall|j: int|
            0 <= j < data@.len() ==> ((#[trigger] data@[j]) matches Option::Some(y) ==> y <= rows),
    ensures
        final(g)@.len() == old(g)@.len(),
        forall|r: int| 0 <= r < final(g)@.len() ==> (#[trigger] final(g)@[r])@.len() == old(
            g,
        )@[r]@.len(),
        grid_v(final(g)@) == draw_series_v(
            grid_v(old(g)@),
            rows as int,
            off as int,
            data@,
            color,
            axis_color,
        ),
{
    let cols0 = g[0].len();
    proof {
        assert(off + data@.len() <= old(g)@[0]@.len());
    }
    if let Some(y0) = data[0] {
        put_cell(g, rows - y0, off - 1, "┼".to_owned(), axis_color);
        proof {
            reveal_strlit("┼");
            assert("┼"@ =~= seq!['┼']);
        }
    }
    let ghost ga = match data@[0] {
        Option::Some(y0) => write_v(
            grid_v(old(g)@),
            rows - y0,
            off - 1,
            CellV { text: seq!['┼'], color: axis_color },
        ),
        Option::None => grid_v(old(g)@),
    };
    let mut x: usize = 0;
    while x < data.len() - 1
        invariant
            0 <= x <= data@.len() - 1,
            1 <= off,
            1 <= data@.len(),
            g@.len() == old(g)@.len(),
            old(g)@.len() == rows + 1,
            forall|r: int| 0 <= r < g@.len() ==> (#[trigger] g@[r])@.len() == old(g)@[r]@.len(),
            forall|r: int| 0 <= r < old(g)@.len() ==> off + data@.len() <= (#[trigger] old(
                g,
            )@[r])@.len(),
            forall|j: int|
                0 <= j < data@.len() ==> ((#[trigger] data@[j]) matches Option::Some(y) ==> y
                    <= rows),
            off + data@.len() <= cols0,
            grid_v(g@) == draw_pairs(ga, rows as int, off as int, data@, color, x as int),
        decreases data@.len() - 1 - x,
    {
        let d0 = data[x];
        let d1 = data[x + 1];
        match (d0, d1) {
            (None, None) => {},
            (Some(y0), None) => {
                put_cell(g, rows - y0, x + 1 + off, "╴".to_owned(), color);
                proof {
                    reveal_strlit("╴");
                    assert("╴"@ =~= seq!['╴']);
                }
            },
            (None, Some(y1)) => {
                put_cell(g, rows - y1, x + 1 + off, "╶".to_owned(), color);
                proof {
                    reveal_strlit("╶");
                    assert("╶"@ =~= seq!['╶']);
                }
            },
            (Some(y0), Some(y1)) => {
                if y0 == y1 {
                    put_cell(g, rows - y0, x + off, "─".to_owned(), color);
                    proof {
                        reveal_strlit("─");
                        assert("─"@ =~= seq!['─']);
                    }
                } else {
                    if y0 > y1 {
                        put_cell(g, rows - y1, x + off, "╰".to_owned(), color);
                        put_cell(g, rows - y0, x + off, "╮".to_owned(), color);
                    } else {
                        put_cell(g, rows - y1, x + off, "╭".to_owned(), color);
                        put_cell(g, rows - y0, x + off, "╯".to_owned(), color);
                    }
                    proof {
                        reveal_strlit("╰");
                        reveal_strlit("╮");
                        reveal_strlit("╭");
                        reveal_strlit("╯");
                        assert("╰"@ =~= seq!['╰']);
                        assert("╮"@ =~= seq!['╮']);
                        assert("╭"@ =~= seq!['╭']);
                        assert("╯"@ =~= seq!['╯']);
                    }
                    let bot = if y0 < y1 {
                        y0
                    } else {
                        y1
                    };
                    let top = if y0 < y1 {
                        y1
                    } else {
                        y0
                    };
                    let ghost g2 = grid_v(g@);
                    let mut y = bot + 1;
                    while y < top
                        invariant
                            bot + 1 <= y <= top,
                            top <= rows,
                            1 <= off,
                            x + 2 <= data@.len(),
                            off + data@.len() <= cols0,
                            g@.len() == old(g)@.len(),
                            old(g)@.len() == rows + 1,
                            forall|r: int| 0 <= r < g@.len() ==> (#[trigger] g@[r])@.len() == old(
                                g,
                            )@[r]@.len(),
                            forall|r: int| 0 <= r < old(g)@.len() ==> off + data@.len() <= (
                            #[trigger] old(g)@[r])@.len(),
                            write_bars(
                                grid_v(g@),
                                rows as int,
                                x + off,
                                y as int,
                                top as int,
                                color,
                            ) == write_bars(
                                g2,
                                rows as int,
                                x + off,
                                bot + 1,
                                top as int,
                                color,
                            ),
                        decreases top - y,
                    {
                        put_cell(g, rows - y, x + off, "│".to_owned(), color);
                        proof {
                            reveal_strlit("│");
                            assert("│"@ =~= seq!['│']);
                        }
                        y += 1;
                    }
                }
            },
        }
        proof {
            assert(grid_v(g@) == draw_pairs(ga, rows as int, off as int, data@, color, x + 1));
        }
        x += 1;
    }
}

/// The image of one executable grid row.
pub open spec fn row_v(row: Vec<Cell>) -> Seq<CellV> {
    Seq::new(row@.len(), |c: int| row@[c]@)
}

/// Index of the last cell whose text is not a single blank; zero when
/// every cell is blank, so at least one cell is always emitted.
pub open spec fn last_nonblank(row: Seq<CellV>) -> int
    decreases row.len(),
{
    if row.len() == 0 {
        0
    } else if row.last().text != seq![' '] {
        row.len() - 1
    } else if row.len() == 1 {
        0
    } else {
        last_nonblank(row.drop_last())
    }
}

/// The characters emitted for a run of cells, starting from the color
/// `prev`: an escape is emitted only where a cell's tag differs from the
/// tag last emitted.
pub open spec fn emit_cells(cells: Seq<CellV>, prev: AnsiColor) -> Seq<char>
    decreases cells.len(),
{
    if cells.len() == 0 {
        Seq::<char>::empty()
    } else {
        (if cells[0].color != prev {
            cells[0].color.spec_escape()
        } else {
            Seq::<char>::empty()
        }) + cells[0].text + emit_cells(cells.drop_first(), cells[0].color)
    }
}

/// One serialized grid row: trailing blanks cut, colors emitted as runs,
/// and a closing reset when the last emitted cell held a color.
pub open spec fn emit_row(row: Seq<CellV>) -> Seq<char> {
    if row.len() == 0 {
        Seq::<char>::empty()
    } else {
        let cut = row.take(last_nonblank(row) + 1);
        emit_cells(cut, AnsiColor::Default) + (if cut.last().color != AnsiColor::Default {
            AnsiColor::Default.spec_escape()
        } else {
            Seq::<char>::empty()
        })
    }
}

pub open spec fn composite_from(g: Seq<Seq<CellV>>, i: int) -> Seq<char>
    decreases g.len() - i,
{
    if i < 0 || i >= g.len() {
        Seq::<char>::empty()
    } else {
        (if i > 0 {
            seq!['\n']
        } else {
            Seq::<char>::empty()
        }) + emit_row(g[i]) + composite_from(g, i + 1)
    }
}

/// The whole grid as text: rows joined by single line breaks, with no
/// break after the last row.
pub open spec fn spec_composite(g: Seq<Seq<CellV>>) -> Seq<char> {
    composite_from(g, 0)
}

fn cell_is_blank(c: &Cell) -> (b: bool)
    ensures
        b == (c@.text == seq![' ']),
{
    let b = c.text.as_str().unicode_len() == 1 && c.text.as_str().get_char(0) == ' ';
    proof {
        if b {
            assert(c@.text =~= seq![' ']);
        } else {
            if c@.text == seq![' '] {
                assert(c@.text.len() == 1 && c@.text[0] == ' ');
                assert(false);
            }
        }
    }
    b
}

proof fn lemma_last_nonblank_blank_suffix(row: Seq<CellV>, i: int)
    requires
        0 <= i <= row.len(),
        forall|k: int| i <= k < row.len() ==> (#[trigger] row[k]).text == seq![' '],
    ensures
        last_nonblank(row) == last_nonblank(row.take(i)),
    decreases row.len() - i,
{
    if i == row.len() {
        assert(row.take(i) =~= row);
    } else {
        assert(row[row.len() - 1].text == seq![' ']);
        if row.len() == 1 {
            assert(row.take(0) =~= Seq::<CellV>::empty());
        } else {
            let d = row.drop_last();
            assert(forall|k: int| i <= k < d.len() ==> (#[trigger] d[k]).text == seq![' ']);
            lemma_last_nonblank_blank_suffix(d, i);
            assert(d.take(i) =~= row.take(i));
        }
    }
}

fn find_last_nonblank(row: &Vec<Cell>) -> (r: usize)
    requires
        row@.len() >= 1,
    ensures
        r as int == last_nonblank(row_v(*row)),
        r < row@.len(),
{
    let mut i: usize = row.len();
    while i > 0 && cell_is_blank(&row[i - 1])
        invariant
            0 <= i <= row@.len(),
            forall|k: int| i <= k < row@.len() ==> (#[trigger] row_v(*row)[k]).text == seq![' '],
        decreases i,
    {
        proof {
            assert(row_v(*row)[i - 1] == row@[i - 1]@);
        }
        i -= 1;
    }
    proof {
        lemma_last_nonblank_blank_suffix(row_v(*row), i as int);
        if i > 0 {
            assert(row_v(*row)[i - 1] == row@[i - 1]@);
            let cut = row_v(*row).take(i as int);
            assert(cut.last() == row_v(*row)[i - 1]);
            assert(last_nonblank(cut) == i - 1);
        } else {
            assert(row_v(*row).take(0) =~= Seq::<CellV>::empty());
        }
    }
    if i == 0 {
        0
    } else {
        i - 1
    }
}

fn emit_row_exec(row: &Vec<Cell>) -> (out: String)
    requires
        row@.len() >= 1,
    ensures
        out@ == emit_row(row_v(*row)),
{
    let n = row.len();
    let last = find_last_nonblank(row);
    proof {
        assert(last < n);
    }
    let ghost cut = row_v(*row).take(last as int + 1);
    let mut out = String::new();
    let mut ccur = AnsiColor::Default;
    let mut j: usize = 0;
    proof {
        assert(cut.skip(0) =~= cut);
    }
    while j <= last
        invariant
            0 <= j <= last + 1,
            last < n,
            n == row@.len(),
            cut == row_v(*row).take(last as int + 1),
            emit_cells(cut, AnsiColor::Default) == out@ + emit_cells(cut.skip(j as int), ccur),
            j == 0 ==> ccur == AnsiColor::Default,
            j > 0 ==> ccur == cut[j - 1].color,
        decreases last + 1 - j,
    {
        let ghost pre_color = ccur;
        let ghost rest = cut.skip(j as int);
        proof {
            assert(rest[0] == cut[j as int]);
            assert(cut[j as int] == row_v(*row)[j as int]);
            assert(row_v(*row)[j as int] == row@[j as int]@);
            assert(rest.drop_first() =~= cut.skip(j as int + 1));
        }
        let cell = &row[j];
        if cell.color != ccur {
            let esc = cell.color.escape();
            out.append(esc.as_str());
            ccur = cell.color;
        }
        out.append(cell.text.as_str());
        proof {
            assert(emit_cells(rest, pre_color) == (if rest[0].color != pre_color {
                rest[0].color.spec_escape()
            } else {
                Seq::<char>::empty()
            }) + rest[0].text + emit_cells(rest.drop_first(), rest[0].color));
            assert(emit_cells(cut, AnsiColor::Default) =~= out@ + emit_cells(
                cut.skip(j as int + 1),
                ccur,
            ));
        }
        j += 1;
    }
    proof {
        assert(cut.skip(last as int + 1) =~= Seq::<CellV>::empty());
        assert(out@ =~= out@ + Seq::<char>::empty());
        assert(out@ == emit_cells(cut, AnsiColor::Default));
        assert(cut.last() == row@[last as int]@);
    }
    let lastcell = &row[last];
    if lastcell.color != AnsiColor::Default {
        let esc = AnsiColor::Default.escape();
        out.append(esc.as_str());
    } else {
        proof {
            assert(out@ =~= out@ + Seq::<char>::empty());
        }
    }
    proof {
        assert(row_v(*row).len() == row@.len());
    }
    out
}

/// Serializes the grid, row by row.
pub fn composite(g: &Vec<Vec<Cell>>) -> (out: String)
    requires
        forall|r: int| 0 <= r < g@.len() ==> (#[trigger] g@[r])@.len() >= 1,
    ensures
        out@ == spec_composite(grid_v(g@)),
{
    let ghost gv = grid_v(g@);
    let mut out = String::new();
    let mut h: usize = 0;
    proof {
        assert(Seq::<char>::empty() + composite_from(gv, 0) =~= spec_composite(gv));
    }
    while h < g.len()
        invariant
            0 <= h <= g@.len(),
            gv == grid_v(g@),
            forall|r: int| 0 <= r < g@.len() ==> (#[trigger] g@[r])@.len() >= 1,
            out@ + composite_from(gv, h as int) == spec_composite(gv),
        decreases g@.len() - h,
    {
        if h != 0 {
            out.append("\n");
        }
        let rowstr = emit_row_exec(&g[h]);
        out.append(rowstr.as_str());
        proof {
            reveal_strlit("\n");
            assert("\n"@ =~= seq!['\n']);
            assert(gv[h as int] =~= row_v(g@[h as int]));
            assert(composite_from(gv, h as int) == (if h > 0 {
                seq!['\n']
            } else {
                Seq::<char>::empty()
            }) + emit_row(gv[h as int]) + composite_from(gv, h as int + 1));
            assert(out@ + composite_from(gv, h as int + 1) =~= spec_composite(gv));
        }
        h += 1;
    }
    proof {
        assert(composite_from(gv, g@.len() as int) =~= Seq::<char>::empty());
        assert(out@ =~= out@ + Seq::<char>::empty());
    }
    out
}

/// The caption line under the chart: aligned past the gutter, centered
/// within the plot columns by integer-floor halving of the deficit when
/// the caption is narrower than the plot, emitted flush left otherwise,
/// and wrapped in its color's escape and a reset when colored. An empty
/// caption contributes nothing, not even a line break.
pub open spec fn caption_suffix(
    caption: Seq<char>,
    caption_color: AnsiColor,
    off: int,
    max_width: int,
    len_max: int,
) -> Seq<char> {
    if caption.len() == 0 {
        Seq::<char>::empty()
    } else {
        seq!['\n'] + spec_spaces(off + max_width) + (if caption.len() < len_max {
            spec_spaces((len_max - caption.len()) / 2)
        } else {
            Seq::<char>::empty()
        }) + (if caption_color != AnsiColor::Default {
            caption_color.spec_escape()
        } else {
            Seq::<char>::empty()
        }) + caption + (if caption_color != AnsiColor::Default {
            AnsiColor::Default.spec_escape()
        } else {
            Seq::<char>::empty()
        })
    }
}

/// Builds the caption line, or nothing for an empty caption.
pub fn caption_line(
    caption: &String,
    caption_color: AnsiColor,
    off: usize,
    max_width: usize,
    len_max: usize,
) -> (r: String)
    requires
        off + max_width <= usize::MAX,
    ensures
        r@ == caption_suffix(
            caption@,
            caption_color,
            off as int,
            max_width as int,
            len_max as int,
        ),
{
    if caption.as_str().is_empty() {
        return String::new();
    }
    let mut out = String::new();
    out.append("\n");
    proof {
        reveal_strlit("\n");
        assert(out@ =~= seq!['\n']);
    }
    let gap = spaces(off + max_width);
    out.append(gap.as_str());
    let clen = caption.as_str().unicode_len();
    if clen < len_max {
        let pad = spaces((len_max - clen) / 2);
        out.append(pad.as_str());
    }
    if caption_color != AnsiColor::Default {
        let esc = caption_color.escape();
        out.append(esc.as_str());
    }
    out.append(caption.as_str());
    if caption_color != AnsiColor::Default {
        let esc = AnsiColor::Default.escape();
        out.append(esc.as_str());
    }
    proof {
        assert(out@ =~= caption_suffix(
            caption@,
            caption_color,
            off as int,
            max_width as int,
            len_max as int,
        ));
    }
    out
}

/// The image of a list of executable series.
pub open spec fn seqs_v(d: Seq<Vec<Option<usize>>>) -> Seq<Seq<Option<usize>>> {
    Seq::new(d.len(), |i: int| d[i]@)
}

/// The full rendering of row-mapped series: a blank grid, the axis gutter,
/// every series in order, the serialized rows, and the caption line.
pub open spec fn spec_render(
    data: Seq<Seq<Option<usize>>>,
    labels: Seq<Seq<char>>,
    rows: int,
    len_max: int,
    off: int,
    max_width: int,
    caption: Seq<char>,
    caption_color: AnsiColor,
    axis_color: AnsiColor,
    label_color: AnsiColor,
    colors: Seq<AnsiColor>,
) -> Seq<char> {
    let g0 = blank_grid_v(rows + 1, len_max + off);
    let g1 = draw_labels(g0, labels, off, max_width, label_color, axis_color, rows + 1);
    let g2 = draw_all_series(g1, rows, off, data, colors, axis_color, data.len() as int);
    spec_composite(g2) + caption_suffix(caption, caption_color, off, max_width, len_max)
}

/// Renders row-mapped series to the finished block of text. Sample values
/// are already quantized to value rows `0 ..= rows` (row `rows` is the
/// maximum); `labels` holds one formatted magnitude per grid row, top
/// first; `len_max` is the common column count of the plot body.
pub fn render(
    data: &Vec<Vec<Option<usize>>>,
    labels: &Vec<String>,
    rows: usize,
    len_max: usize,
    off: usize,
    max_width: usize,
    caption: &String,
    caption_color: AnsiColor,
    axis_color: AnsiColor,
    label_color: AnsiColor,
    colors: &Vec<AnsiColor>,
) -> (out: String)
    requires
        1 <= off,
        rows < usize::MAX,
        len_max + off <= usize::MAX,
        max_width < usize::MAX,
        off + max_width <= usize::MAX,
        labels@.len() == rows + 1,
        forall|s: int| 0 <= s < data@.len() ==> 1 <= (#[trigger] data@[s])@.len() <= len_max,
        forall|s: int, j: int|
            0 <= s < data@.len() && 0 <= j < data@[s]@.len() ==> ((#[trigger] data@[s]@[j]) matches
                Option::Some(y) ==> y <= rows),
    ensures
        out@ == spec_render(
            seqs_v(data@),
            labels.deep_view(),
            rows as int,
            len_max as int,
            off as int,
            max_width as int,
            caption@,
            caption_color,
            axis_color,
            label_color,
            colors@,
        ),
{
    let width = len_max + off;
    let mut g = new_grid(rows + 1, width);
    let ghost g0 = grid_v(g@);
    draw_axis_and_labels(&mut g, labels, off, max_width, label_color, axis_color);
    let ghost g1 = grid_v(g@);
    let mut i: usize = 0;
    while i < data.len()
        invariant
            0 <= i <= data@.len(),
            1 <= off,
            rows < usize::MAX,
            len_max + off <= usize::MAX,
            width == len_max + off,
            g@.len() == rows + 1,
            forall|r: int| 0 <= r < g@.len() ==> (#[trigger] g@[r])@.len() == width,
            forall|s: int| 0 <= s < data@.len() ==> 1 <= (#[trigger] data@[s])@.len() <= len_max,
            forall|s: int, j: int|
                0 <= s < data@.len() && 0 <= j < data@[s]@.len() ==> ((
                #[trigger] data@[s]@[j]) matches Option::Some(y) ==> y <= rows),
            grid_v(g@) == draw_all_series(
                g1,
                rows as int,
                off as int,
                seqs_v(data@),
                colors@,
                axis_color,
                i as int,
            ),
        decreases data@.len() - i,
    {
        let color = if i < colors.len() {
            colors[i]
        } else {
            AnsiColor::Default
        };
        proof {
            assert(color == series_color(colors@, i as int));
            assert(seqs_v(data@)[i as int] == data@[i as int]@);
        }
        draw_series(&mut g, &data[i], rows, off, color, axis_color);
        proof {
            assert(grid_v(g@) == draw_all_series(
                g1,
                rows as int,
                off as int,
                seqs_v(data@),
                colors@,
                axis_color,
                i + 1,
            ));
        }
        i += 1;
    }
    let mut out = composite(&g);
    let cap = caption_line(caption, caption_color, off, max_width, len_max);
    out.append(cap.as_str());
    out
}

/// No line break among these characters.
pub open spec fn newline_free(s: Seq<char>) -> bool {
    forall|i: int| 0 <= i < s.len() ==> s[i] != '\n'
}

/// No cell of the grid holds a line break, so every break in the output
/// comes from the row joints alone.
pub open spec fn grid_newline_free(g: Seq<Seq<CellV>>) -> bool {
    forall|r: int, c: int|
        0 <= r < g.len() && 0 <= c < g[r].len() ==> newline_free(#[trigger] g[r][c].text)
}

/// Every row of the grid has the same width.
pub open spec fn dims_v(g: Seq<Seq<CellV>>, height: int, width: int) -> bool {
    &&& g.len() == height
    &&& forall|r: int| 0 <= r < height ==> (#[trigger] g[r]).len() == width
}

proof fn lemma_escape_newline_free(c: AnsiColor)
    ensures
        newline_free(c.spec_escape()),
{
    reveal_strlit("\u{1b}[0m");
    reveal_strlit("\u{1b}[30m");
    reveal_strlit("\u{1b}[37m");
    assert("\u{1b}[0m"@ =~= seq!['\u{1b}', '[', '0', 'm']);
    assert("\u{1b}[30m"@ =~= seq!['\u{1b}', '[', '3', '0', 'm']);
    assert("\u{1b}[37m"@ =~= seq!['\u{1b}', '[', '3', '7', 'm']);
}

proof fn lemma_newline_free_add(a: Seq<char>, b: Seq<char>)
    requires
        newline_free(a),
        newline_free(b),
    ensures
        newline_free(a + b),
{
    assert forall|i: int| 0 <= i < (a + b).len() implies (a + b)[i] != '\n' by {
        if i < a.len() {
            assert((a + b)[i] == a[i]);
        } else {
            assert((a + b)[i] == b[i - a.len()]);
        }
    }
}

proof fn lemma_write_newline_free(
    g: Seq<Seq<CellV>>,
    r: int,
    c: int,
    v: CellV,
    height: int,
    width: int,
)
    requires
        dims_v(g, height, width),
        grid_newline_free(g),
        0 <= r < height,
        0 <= c < width,
        newline_free(v.text),
    ensures
        dims_v(write_v(g, r, c, v), height, width),
        grid_newline_free(write_v(g, r, c, v)),
{
    let g2 = write_v(g, r, c, v);
    assert forall|rr: int, cc: int|
        0 <= rr < g2.len() && 0 <= cc < g2[rr].len() implies newline_free(
        #[trigger] g2[rr][cc].text,
    ) by {
        if rr == r {
            if cc == c {
            } else {
                assert(g2[rr][cc] == g[rr][cc]);
            }
        } else {
            assert(g2[rr] == g[rr]);
        }
    }
}

proof fn lemma_spaces_newline_free(n: int)
    ensures
        newline_free(spec_spaces(n)),
{
}

proof fn lemma_write_bars_newline_free(
    g: Seq<Seq<CellV>>,
    rows: int,
    col: int,
    y: int,
    top: int,
    color: AnsiColor,
    width: int,
)
    requires
        dims_v(g, rows + 1, width),
        grid_newline_free(g),
        0 <= rows,
        top <= rows,
        0 <= col < width,
        0 <= y,
    ensures
        dims_v(write_bars(g, rows, col, y, top, color), rows + 1, width),
        grid_newline_free(write_bars(g, rows, col, y, top, color)),
    decreases top - y,
{
    if y >= top {
    } else {
        let v = CellV { text: seq!['│'], color };
        assert(newline_free(v.text));
        lemma_write_newline_free(g, rows - y, col, v, rows + 1, width);
        lemma_write_bars_newline_free(
            write_v(g, rows - y, col, v),
            rows,
            col,
            y + 1,
            top,
            color,
            width,
        );
    }
}

proof fn lemma_draw_pair_newline_free(
    g: Seq<Seq<CellV>>,
    rows: int,
    off: int,
    x: int,
    d0: Option<usize>,
    d1: Option<usize>,
    color: AnsiColor,
    width: int,
)
    requires
        dims_v(g, rows + 1, width),
        grid_newline_free(g),
        0 <= rows,
        0 <= x + off,
        x + 1 + off < width,
        d0 matches Option::Some(y0) ==> y0 <= rows,
        d1 matches Option::Some(y1) ==> y1 <= rows,
    ensures
        dims_v(draw_pair(g, rows, off, x, d0, d1, color), rows + 1, width),
        grid_newline_free(draw_pair(g, rows, off, x, d0, d1, color)),
{
    match (d0, d1) {
        (Option::None, Option::None) => {},
        (Option::Some(y0), Option::None) => {
            lemma_write_newline_free(
                g,
                rows - y0,
                x + off,
                CellV { text: seq!['╴'], color },
                rows + 1,
                width,
            );
        },
        (Option::None, Option::Some(y1)) => {
            lemma_write_newline_free(
                g,
                rows - y1,
                x + off,
                CellV { text: seq!['╶'], color },
                rows + 1,
                width,
            );
        },
        (Option::Some(y0), Option::Some(y1)) => {
            if y0 == y1 {
                lemma_write_newline_free(
                    g,
                    rows - y0,
                    x + off,
                    CellV { text: seq!['─'], color },
                    rows + 1,
                    width,
                );
            } else {
                let v1 = CellV {
                    text: if y0 > y1 {
                        seq!['╰']
                    } else {
                        seq!['╭']
                    },
                    color,
                };
                let v2 = CellV {
                    text: if y0 > y1 {
                        seq!['╮']
                    } else {
                        seq!['╯']
                    },
                    color,
                };
                let g1 = write_v(g, rows - y1, x + off, v1);
                let g2 = write_v(g1, rows - y0, x + off, v2);
                let bot = if y0 < y1 {
                    y0 as int
                } else {
                    y1 as int
                };
                let top = if y0 < y1 {
                    y1 as int
                } else {
                    y0 as int
                };
                lemma_write_newline_free(g, rows - y1, x + off, v1, rows + 1, width);
                lemma_write_newline_free(g1, rows - y0, x + off, v2, rows + 1, width);
                lemma_write_bars_newline_free(g2, rows, x + off, bot + 1, top, color, width);
            }
        },
    }
}

proof fn lemma_draw_pairs_newline_free(
    g: Seq<Seq<CellV>>,
    rows: int,
    off: int,
    data: Seq<Option<usize>>,
    color: AnsiColor,
    upto: int,
    width: int,
)
    requires
        dims_v(g, rows + 1, width),
        grid_newline_free(g),
        0 <= rows,
        0 <= off,
        upto <= data.len() - 1,
        off + data.len() - 1 <= width - 1,
        forall|j: int|
            0 <= j < data.len() ==> ((#[trigger] data[j]) matches Option::Some(y) ==> y <= rows),
    ensures
        dims_v(draw_pairs(g, rows, off, data, color, upto), rows + 1, width),
        grid_newline_free(draw_pairs(g, rows, off, data, color, upto)),
    decreases upto,
{
    if upto <= 0 {
    } else {
        lemma_draw_pairs_newline_free(g, rows, off, data, color, upto - 1, width);
        lemma_draw_pair_newline_free(
            draw_pairs(g, rows, off, data, color, upto - 1),
            rows,
            off,
            upto - 1,
            data[upto - 1],
            data[upto],
            color,
            width,
        );
    }
}

proof fn lemma_draw_series_newline_free(
    g: Seq<Seq<CellV>>,
    rows: int,
    off: int,
    data: Seq<Option<usize>>,
    color: AnsiColor,
    axis_color: AnsiColor,
    width: int,
)
    requires
        dims_v(g, rows + 1, width),
        grid_newline_free(g),
        0 <= rows,
        1 <= off,
        1 <= data.len(),
        off + data.len() - 1 <= width - 1,
        forall|j: int|
            0 <= j < data.len() ==> ((#[trigger] data[j]) matches Option::Some(y) ==> y <= rows),
    ensures
        dims_v(draw_series_v(g, rows, off, data, color, axis_color), rows + 1, width),
        grid_newline_free(draw_series_v(g, rows, off, data, color, axis_color)),
{
    let g0 = match data[0] {
        Option::Some(y0) => write_v(
            g,
            rows - y0,
            off - 1,
            CellV { text: seq!['┼'], color: axis_color },
        ),
        Option::None => g,
    };
    match data[0] {
        Option::Some(y0) => {
            lemma_write_newline_free(
                g,
                rows - y0,
                off - 1,
                CellV { text: seq!['┼'], color: axis_color },
                rows + 1,
                width,
            );
        },
        Option::None => {},
    }
    lemma_draw_pairs_newline_free(g0, rows, off, data, color, data.len() - 1, width);
}

proof fn lemma_draw_all_series_newline_free(
    g: Seq<Seq<CellV>>,
    rows: int,
    off: int,
    data: Seq<Seq<Option<usize>>>,
    colors: Seq<AnsiColor>,
    axis_color: AnsiColor,
    upto: int,
    width: int,
)
    requires
        dims_v(g, rows + 1, width),
        grid_newline_free(g),
        0 <= rows,
        1 <= off,
        upto <= data.len(),
        forall|s: int| 0 <= s < data.len() ==> 1 <= (#[trigger] data[s]).len() <= width - off,
        forall|s: int, j: int|
            0 <= s < data.len() && 0 <= j < data[s].len() ==> ((#[trigger] data[s][j]) matches
                Option::Some(y) ==> y <= rows),
    ensures
        dims_v(draw_all_series(g, rows, off, data, colors, axis_color, upto), rows + 1, width),
        grid_newline_free(draw_all_series(g, rows, off, data, colors, axis_color, upto)),
    decreases upto,
{
    if upto <= 0 {
    } else {
        lemma_draw_all_series_newline_free(
            g,
            rows,
            off,
            data,
            colors,
            axis_color,
            upto - 1,
            width,
        );
        lemma_draw_series_newline_free(
            draw_all_series(g, rows, off, data, colors, axis_color, upto - 1),
            rows,
            off,
            data[upto - 1],
            series_color(colors, upto - 1),
            axis_color,
            width,
        );
    }
}

proof fn lemma_draw_labels_newline_free(
    g: Seq<Seq<CellV>>,
    labels: Seq<Seq<char>>,
    off: int,
    max_width: int,
    label_color: AnsiColor,
    axis_color: AnsiColor,
    upto: int,
    height: int,
    width: int,
)
    requires
        dims_v(g, height, width),
        grid_newline_free(g),
        1 <= off <= width,
        0 <= max_width,
        upto <= labels.len(),
        labels.len() <= height,
        forall|i: int| 0 <= i < labels.len() ==> newline_free(#[trigger] labels[i]),
    ensures
        dims_v(
            draw_labels(g, labels, off, max_width, label_color, axis_color, upto),
            height,
            width,
        ),
        grid_newline_free(draw_labels(g, labels, off, max_width, label_color, axis_color, upto)),
    decreases upto,
{
    if upto <= 0 {
    } else {
        lemma_draw_labels_newline_free(
            g,
            labels,
            off,
            max_width,
            label_color,
            axis_color,
            upto - 1,
            height,
            width,
        );
        let gp = draw_labels(g, labels, off, max_width, label_color, axis_color, upto - 1);
        let padded = padded_label(labels[upto - 1], max_width + 1);
        lemma_spaces_newline_free(max_width + 1 - labels[upto - 1].len());
        if labels[upto - 1].len() < max_width + 1 {
            lemma_newline_free_add(
                spec_spaces(max_width + 1 - labels[upto - 1].len()),
                labels[upto - 1],
            );
        }
        let h = label_col(off, padded.len() as int);
        lemma_write_newline_free(
            gp,
            upto - 1,
            h,
            CellV { text: padded, color: label_color },
            height,
            width,
        );
        lemma_write_newline_free(
            write_v(gp, upto - 1, h, CellV { text: padded, color: label_color }),
            upto - 1,
            off - 1,
            CellV { text: seq!['┤'], color: axis_color },
            height,
            width,
        );
    }
}

proof fn lemma_emit_cells_newline_free(cells: Seq<CellV>, prev: AnsiColor)
    requires
        forall|i: int| 0 <= i < cells.len() ==> newline_free((#[trigger] cells[i]).text),
    ensures
        newline_free(emit_cells(cells, prev)),
    decreases cells.len(),
{
    if cells.len() == 0 {
    } else {
        let pre = if cells[0].color != prev {
            cells[0].color.spec_escape()
        } else {
            Seq::<char>::empty()
        };
        lemma_escape_newline_free(cells[0].color);
        assert(forall|i: int|
            0 <= i < cells.drop_first().len() ==> newline_free(
                (#[trigger] cells.drop_first()[i]).text,
            ));
        lemma_emit_cells_newline_free(cells.drop_first(), cells[0].color);
        lemma_newline_free_add(pre, cells[0].text);
        lemma_newline_free_add(pre + cells[0].text, emit_cells(cells.drop_first(), cells[0].color));
    }
}

proof fn lemma_emit_row_newline_free(row: Seq<CellV>)
    requires
        forall|i: int| 0 <= i < row.len() ==> newline_free((#[trigger] row[i]).text),
    ensures
        newline_free(emit_row(row)),
{
    if row.len() == 0 {
    } else {
        let cut = row.take(last_nonblank(row) + 1);
        lemma_last_nonblank_in_range(row);
        assert(forall|i: int| 0 <= i < cut.len() ==> cut[i] == row[i]);
        lemma_emit_cells_newline_free(cut, AnsiColor::Default);
        lemma_escape_newline_free(AnsiColor::Default);
        if cut.last().color != AnsiColor::Default {
            lemma_newline_free_add(
                emit_cells(cut, AnsiColor::Default),
                AnsiColor::Default.spec_escape(),
            );
        } else {
            lemma_newline_free_add(emit_cells(cut, AnsiColor::Default), Seq::<char>::empty());
        }
    }
}

proof fn lemma_last_nonblank_in_range(row: Seq<CellV>)
    requires
        row.len() >= 1,
    ensures
        0 <= last_nonblank(row) < row.len(),
    decreases row.len(),
{
    if row.last().text != seq![' '] {
    } else if row.len() == 1 {
    } else {
        lemma_last_nonblank_in_range(row.drop_last());
    }
}

/// How many line breaks a piece of output holds.
pub open spec fn count_newlines(s: Seq<char>) -> int {
    s.filter(|c: char| c == '\n').len() as int
}

proof fn lemma_count_newlines_nf(s: Seq<char>)
    requires
        newline_free(s),
    ensures
        count_newlines(s) == 0,
    decreases s.len(),
{
    reveal_with_fuel(Seq::filter, 2);
    if s.len() == 0 {
    } else {
        assert(newline_free(s.drop_last())) by {
            assert(forall|i: int| 0 <= i < s.len() - 1 ==> s.drop_last()[i] == s[i]);
        }
        lemma_count_newlines_nf(s.drop_last());
        assert(s.last() != '\n');
    }
}

proof fn lemma_count_newlines_add(a: Seq<char>, b: Seq<char>)
    ensures
        count_newlines(a + b) == count_newlines(a) + count_newlines(b),
{
    Seq::<char>::filter_distributes_over_add(a, b, |c: char| c == '\n');
}

proof fn lemma_count_newlines_single()
    ensures
        count_newlines(seq!['\n']) == 1,
{
    reveal_with_fuel(Seq::filter, 2);
    let s = seq!['\n'];
    assert(s.drop_last() =~= Seq::<char>::empty());
    assert(s.last() == '\n');
}

proof fn lemma_composite_count(g: Seq<Seq<CellV>>, i: int)
    requires
        0 < i <= g.len(),
        grid_newline_free(g),
    ensures
        count_newlines(composite_from(g, i)) == g.len() - i,
    decreases g.len() - i,
{
    if i == g.len() {
        lemma_count_newlines_nf(composite_from(g, i));
    } else {
        lemma_composite_count(g, i + 1);
        assert(forall|c: int| 0 <= c < g[i].len() ==> newline_free(#[trigger] g[i][c].text));
        lemma_emit_row_newline_free(g[i]);
        lemma_count_newlines_nf(emit_row(g[i]));
        lemma_count_newlines_single();
        lemma_count_newlines_add(seq!['\n'], emit_row(g[i]));
        lemma_count_newlines_add(seq!['\n'] + emit_row(g[i]), composite_from(g, i + 1));
    }
}

proof fn lemma_caption_suffix_count(
    caption: Seq<char>,
    caption_color: AnsiColor,
    off: int,
    max_width: int,
    len_max: int,
)
    requires
        newline_free(caption),
    ensures
        count_newlines(caption_suffix(caption, caption_color, off, max_width, len_max)) == if caption.len() == 0 {
            0int
        } else {
            1int
        },
{
    if caption.len() == 0 {
        lemma_count_newlines_nf(Seq::<char>::empty());
    } else {
        let a1 = seq!['\n'];
        let a2 = spec_spaces(off + max_width);
        let a3 = if caption.len() < len_max {
            spec_spaces((len_max - caption.len()) / 2)
        } else {
            Seq::<char>::empty()
        };
        let a4 = if caption_color != AnsiColor::Default {
            caption_color.spec_escape()
        } else {
            Seq::<char>::empty()
        };
        let a6 = if caption_color != AnsiColor::Default {
            AnsiColor::Default.spec_escape()
        } else {
            Seq::<char>::empty()
        };
        lemma_count_newlines_single();
        lemma_spaces_newline_free(off + max_width);
        lemma_count_newlines_nf(a2);
        lemma_spaces_newline_free((len_max - caption.len()) / 2);
        lemma_count_newlines_nf(a3);
        lemma_escape_newline_free(caption_color);
        lemma_escape_newline_free(AnsiColor::Default);
        lemma_count_newlines_nf(a4);
        lemma_count_newlines_nf(a6);
        lemma_count_newlines_nf(caption);
        lemma_count_newlines_add(a1, a2);
        lemma_count_newlines_add(a1 + a2, a3);
        lemma_count_newlines_add(a1 + a2 + a3, a4);
        lemma_count_newlines_add(a1 + a2 + a3 + a4, caption);
        lemma_count_newlines_add(a1 + a2 + a3 + a4 + caption, a6);
    }
}

/// One text line per grid row: a chart of `rows + 1` grid rows is emitted
/// with exactly `rows` line breaks, plus one more when a caption line is
/// appended.
pub proof fn lemma_render_line_count(
    data: Seq<Seq<Option<usize>>>,
    labels: Seq<Seq<char>>,
    rows: int,
    len_max: int,
    off: int,
    max_width: int,
    caption: Seq<char>,
    caption_color: AnsiColor,
    axis_color: AnsiColor,
    label_color: AnsiColor,
    colors: Seq<AnsiColor>,
)
    requires
        1 <= off,
        0 <= max_width,
        0 <= len_max,
        0 <= rows,
        labels.len() == rows + 1,
        newline_free(caption),
        forall|i: int| 0 <= i < labels.len() ==> newline_free(#[trigger] labels[i]),
        forall|s: int| 0 <= s < data.len() ==> 1 <= (#[trigger] data[s]).len() <= len_max,
        forall|s: int, j: int|
            0 <= s < data.len() && 0 <= j < data[s].len() ==> ((#[trigger] data[s][j]) matches
                Option::Some(y) ==> y <= rows),
    ensures
        count_newlines(
            spec_render(
                data,
                labels,
                rows,
                len_max,
                off,
                max_width,
                caption,
                caption_color,
                axis_color,
                label_color,
                colors,
            ),
        ) == rows + if caption.len() == 0 {
            0int
        } else {
            1int
        },
{
    let width = len_max + off;
    let g0 = blank_grid_v(rows + 1, width);
    assert(grid_newline_free(g0)) by {
        assert(forall|r: int, c: int|
            0 <= r < g0.len() && 0 <= c < g0[r].len() ==> (#[trigger] g0[r][c]) == blank_v());
    }
    let g1 = draw_labels(g0, labels, off, max_width, label_color, axis_color, rows + 1);
    lemma_draw_labels_newline_free(
        g0,
        labels,
        off,
        max_width,
        label_color,
        axis_color,
        rows + 1,
        rows + 1,
        width,
    );
    let g2 = draw_all_series(g1, rows, off, data, colors, axis_color, data.len() as int);
    lemma_draw_all_series_newline_free(
        g1,
        rows,
        off,
        data,
        colors,
        axis_color,
        data.len() as int,
        width,
    );
    assert(g2.len() == rows + 1);
    assert(forall|c: int| 0 <= c < g2[0].len() ==> newline_free(#[trigger] g2[0][c].text));
    lemma_emit_row_newline_free(g2[0]);
    lemma_count_newlines_nf(emit_row(g2[0]));
    if rows + 1 > 1 {
        lemma_composite_count(g2, 1);
    } else {
        lemma_count_newlines_nf(composite_from(g2, 1));
    }
    assert(composite_from(g2, 0) == Seq::<char>::empty() + emit_row(g2[0]) + composite_from(
        g2,
        1,
    ));
    lemma_count_newlines_nf(Seq::<char>::empty());
    lemma_count_newlines_add(Seq::<char>::empty(), emit_row(g2[0]));
    lemma_count_newlines_add(Seq::<char>::empty() + emit_row(g2[0]), composite_from(g2, 1));
    lemma_caption_suffix_count(caption, caption_color, off, max_width, len_max);
    lemma_count_newlines_add(
        spec_composite(g2),
        caption_suffix(caption, caption_color, off, max_width, len_max),
    );
}

/// A chart whose vertical quantization collapses to a single value row —
/// as it does whenever every sample of every series sits on one row, in
/// particular for an all-equal series — renders, without a caption, to a
/// single line of text: no line break appears anywhere in the output.
pub proof fn lemma_single_row_chart(
    data: Seq<Seq<Option<usize>>>,
    labels: Seq<Seq<char>>,
    len_max: int,
    off: int,
    max_width: int,
    caption_color: AnsiColor,
    axis_color: AnsiColor,
    label_color: AnsiColor,
    colors: Seq<AnsiColor>,
)
    requires
        1 <= off,
        0 <= max_width,
        0 <= len_max,
        labels.len() == 1,
        forall|i: int| 0 <= i < labels.len() ==> newline_free(#[trigger] labels[i]),
        forall|s: int| 0 <= s < data.len() ==> 1 <= (#[trigger] data[s]).len() <= len_max,
        forall|s: int, j: int|
            0 <= s < data.len() && 0 <= j < data[s].len() ==> ((#[trigger] data[s][j]) matches
                Option::Some(y) ==> y == 0),
    ensures
        newline_free(
            spec_render(
                data,
                labels,
                0,
                len_max,
                off,
                max_width,
                Seq::<char>::empty(),
                caption_color,
                axis_color,
                label_color,
                colors,
            ),
        ),
{
    let width = len_max + off;
    let g0 = blank_grid_v(1, width);
    assert(dims_v(g0, 1, width));
    assert(grid_newline_free(g0)) by {
        assert(forall|r: int, c: int|
            0 <= r < g0.len() && 0 <= c < g0[r].len() ==> (#[trigger] g0[r][c]) == blank_v());
    }
    let g1 = draw_labels(g0, labels, off, max_width, label_color, axis_color, 1);
    lemma_draw_labels_newline_free(
        g0,
        labels,
        off,
        max_width,
        label_color,
        axis_color,
        1,
        1,
        width,
    );
    let g2 = draw_all_series(g1, 0, off, data, colors, axis_color, data.len() as int);
    lemma_draw_all_series_newline_free(
        g1,
        0,
        off,
        data,
        colors,
        axis_color,
        data.len() as int,
        width,
    );
    assert(g2.len() == 1);
    lemma_emit_row_newline_free(g2[0]);
    assert(composite_from(g2, 1) =~= Seq::<char>::empty());
    lemma_newline_free_add(emit_row(g2[0]), Seq::<char>::empty());
    assert(spec_composite(g2) == Seq::<char>::empty() + emit_row(g2[0]) + composite_from(g2, 1));
    assert(newline_free(Seq::<char>::empty() + emit_row(g2[0]) + composite_from(g2, 1))) by {
        assert(Seq::<char>::empty() + emit_row(g2[0]) =~= emit_row(g2[0]));
        lemma_newline_free_add(Seq::<char>::empty() + emit_row(g2[0]), composite_from(g2, 1));
    }
    lemma_newline_free_add(
        spec_composite(g2),
        caption_suffix(Seq::<char>::empty(), caption_color, off, max_width, len_max),
    );
}

} // verus!

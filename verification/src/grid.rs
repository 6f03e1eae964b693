use crate::color::AnsiColor;
use vstd::prelude::*;

verus! {

/// One character position of the output grid: a display text (one glyph,
/// or a label of several characters kept in a single logical position) and
/// a color tag.
pub struct Cell {
    pub text: String,
    pub color: AnsiColor,
}

/// The mathematical image of a cell.
#[verifier::ext_equal]
pub ghost struct CellV {
    pub text: Seq<char>,
    pub color: AnsiColor,
}

impl View for Cell {
    type V = CellV;

    open spec fn view(&self) -> CellV {
        CellV { text: self.text@, color: self.color }
    }
}

/// A cell no one has drawn into: a single blank with no color.
pub open spec fn blank_v() -> CellV {
    CellV { text: seq![' '], color: AnsiColor::Default }
}

/// A grid of `height` rows of `width` cells each.
pub open spec fn grid_wf(g: Seq<Vec<Cell>>, height: int, width: int) -> bool {
    &&& g.len() == height
    &&& forall|r: int| 0 <= r < height ==> (#[trigger] g[r])@.len() == width
}

/// The grid with the cell at row `r`, column `c` replaced.
pub open spec fn write_v(g: Seq<Seq<CellV>>, r: int, c: int, v: CellV) -> Seq<Seq<CellV>> {
    g.update(r, g[r].update(c, v))
}

/// The image of an executable grid.
pub open spec fn grid_v(g: Seq<Vec<Cell>>) -> Seq<Seq<CellV>> {
    Seq::new(g.len(), |r: int| Seq::new(g[r]@.len() as nat, |c: int| g[r]@[c]@))
}

/// An all-blank grid of the given extent.
pub open spec fn blank_grid_v(height: int, width: int) -> Seq<Seq<CellV>> {
    Seq::new(height as nat, |r: int| Seq::new(width as nat, |c: int| blank_v()))
}

/// Allocates the grid: every cell starts as a blank with no color.
pub fn new_grid(height: usize, width: usize) -> (g: Vec<Vec<Cell>>)
    ensures
        grid_wf(g@, height as int, width as int),
        grid_v(g@) == blank_grid_v(height as int, width as int),
{
    let mut g: Vec<Vec<Cell>> = Vec::new();
    let mut r: usize = 0;
    while r < height
        invariant
            0 <= r <= height,
            g@.len() == r,
            forall|i: int| 0 <= i < r ==> (#[trigger] g@[i])@.len() == width,
            forall|i: int, j: int|
                0 <= i < r && 0 <= j < width ==> (#[trigger] g@[i]@[j])@ == blank_v(),
        decreases height - r,
    {
        let mut line: Vec<Cell> = Vec::new();
        let mut c: usize = 0;
        while c < width
            invariant
                0 <= c <= width,
                line@.len() == c,
                forall|j: int| 0 <= j < c ==> (#[trigger] line@[j])@ == blank_v(),
            decreases width - c,
        {
            let cell = Cell { text: " ".to_owned(), color: AnsiColor::Default };
            proof {
                reveal_strlit(" ");
                assert(cell@.text =~= seq![' ']);
            }
            line.push(cell);
            c += 1;
        }
        g.push(line);
        r += 1;
    }
    proof {
        assert(grid_v(g@) =~~= blank_grid_v(height as int, width as int));
    }
    g
}

/// Writes one cell: its text and its color together, as every drawing step
/// of the rasterizer does.
pub fn put_cell(g: &mut Vec<Vec<Cell>>, r: usize, c: usize, text: String, color: AnsiColor)
    requires
        r < old(g)@.len(),
        c < old(g)@[r as int]@.len(),
    ensures
        final(g)@.len() == old(g)@.len(),
        forall|i: int| 0 <= i < final(g)@.len() ==> (#[trigger] final(g)@[i])@.len() == old(
            g,
        )@[i]@.len(),
        grid_v(final(g)@) == write_v(
            grid_v(old(g)@),
            r as int,
            c as int,
            CellV { text: text@, color },
        ),
{
    let ghost t = text@;
    g[r][c] = Cell { text, color };
    proof {
        assert(grid_v(g@) =~~= write_v(grid_v(old(g)@), r as int, c as int, CellV { text: t, color }));
    }
}

} // verus!

//! The fixed pitch template: a rectangular character grid with an outer
//! border, a vertical midline splitting it into two halves, and a penalty
//! box on each side, open toward the midline.

use vstd::prelude::*;

verus! {

/// Rows of the pitch template: the outer top and bottom borders and 17
/// interior rows.
pub const GRID_ROWS: usize = 19;

/// Characters in every grid row.
pub const ROW_LEN: usize = 91;

/// Column of the vertical midline.
pub const MID_COL: usize = 45;

/// Last column of a row.
pub const LAST_COL: usize = 90;

/// First interior row of the penalty-box band.
pub const BOX_TOP_ROW: usize = 5;

/// Last interior row of the penalty-box band.
pub const BOX_BOTTOM_ROW: usize = 13;

/// Column of the home penalty box's inner edge.
pub const BOX_COL_LEFT: usize = 11;

/// Column of the away penalty box's inner edge.
pub const BOX_COL_RIGHT: usize = 79;

/// Interior rows scanned by the along-pitch coordinate.
pub const ROW_BANDS: usize = 17;

/// Columns scanned by the across-pitch coordinate.
pub const COL_BANDS: usize = 38;

/// The top border: corners, and a tee where the midline meets it.
pub open spec fn top_cell(c: int) -> char {
    if c == 0 {
        '┌'
    } else if c == (MID_COL as int) {
        '┬'
    } else if c == (LAST_COL as int) {
        '┐'
    } else {
        '─'
    }
}

/// An unbroken interior row: border, midline, border.
pub open spec fn mid_cell(c: int) -> char {
    if c == 0 || c == (MID_COL as int) || c == (LAST_COL as int) {
        '│'
    } else {
        ' '
    }
}

/// The row where both penalty boxes' upper edges leave the side borders.
pub open spec fn box_top_cell(c: int) -> char {
    if c == 0 {
        '├'
    } else if 1 <= c < (BOX_COL_LEFT as int) || (BOX_COL_RIGHT as int) < c < (LAST_COL as int) {
        '─'
    } else if c == (BOX_COL_LEFT as int) {
        '┐'
    } else if c == (BOX_COL_RIGHT as int) {
        '┌'
    } else if c == (MID_COL as int) {
        '│'
    } else if c == (LAST_COL as int) {
        '┤'
    } else {
        ' '
    }
}

/// A row crossing both penalty boxes: their inner edges stand beside the
/// side borders and the midline.
pub open spec fn box_side_cell(c: int) -> char {
    if c == 0 || c == (BOX_COL_LEFT as int) || c == (MID_COL as int) || c == (BOX_COL_RIGHT as int)
        || c == (LAST_COL as int) {
        '│'
    } else {
        ' '
    }
}

/// The row where both penalty boxes' lower edges rejoin the side borders.
pub open spec fn box_bottom_cell(c: int) -> char {
    if c == 0 {
        '├'
    } else if 1 <= c < (BOX_COL_LEFT as int) || (BOX_COL_RIGHT as int) < c < (LAST_COL as int) {
        '─'
    } else if c == (BOX_COL_LEFT as int) {
        '┘'
    } else if c == (BOX_COL_RIGHT as int) {
        '└'
    } else if c == (MID_COL as int) {
        '│'
    } else if c == (LAST_COL as int) {
        '┤'
    } else {
        ' '
    }
}

/// The bottom border: corners, and a tee where the midline meets it.
pub open spec fn bottom_cell(c: int) -> char {
    if c == 0 {
        '└'
    } else if c == (MID_COL as int) {
        '┴'
    } else if c == (LAST_COL as int) {
        '┘'
    } else {
        '─'
    }
}

/// The character of the pitch template at `(r, c)`.
pub open spec fn stadium_cell(r: int, c: int) -> char {
    if r == 0 {
        top_cell(c)
    } else if r == (BOX_TOP_ROW as int) {
        box_top_cell(c)
    } else if (BOX_TOP_ROW as int) < r < (BOX_BOTTOM_ROW as int) {
        box_side_cell(c)
    } else if r == (BOX_BOTTOM_ROW as int) {
        box_bottom_cell(c)
    } else if r == (GRID_ROWS - 1) as int {
        bottom_cell(c)
    } else {
        mid_cell(c)
    }
}

/// The whole pitch template as a sequence of rows.
pub open spec fn stadium_spec() -> Seq<Seq<char>> {
    Seq::new(19, |r: int| Seq::new(91, |c: int| stadium_cell(r, c)))
}

/// The character of the pitch template at `(r, c)`, computed.
fn cell_at(r: usize, c: usize) -> (ch: char)
    requires
        r < 19,
        c < 91,
    ensures
        ch == stadium_cell(r as int, c as int),
{
    if r == 0 {
        if c == 0 {
            '┌'
        } else if c == 45 {
            '┬'
        } else if c == 90 {
            '┐'
        } else {
            '─'
        }
    } else if r == 5 || r == 13 {
        if c == 0 {
            '├'
        } else if (1 <= c && c <= 10) || (80 <= c && c <= 89) {
            '─'
        } else if c == 11 {
            if r == 5 {
                '┐'
            } else {
                '┘'
            }
        } else if c == 79 {
            if r == 5 {
                '┌'
            } else {
                '└'
            }
        } else if c == 45 {
            '│'
        } else if c == 90 {
            '┤'
        } else {
            ' '
        }
    } else if 6 <= r && r <= 12 {
        if c == 0 || c == 11 || c == 45 || c == 79 || c == 90 {
            '│'
        } else {
            ' '
        }
    } else if r == 18 {
        if c == 0 {
            '└'
        } else if c == 45 {
            '┴'
        } else if c == 90 {
            '┘'
        } else {
            '─'
        }
    } else {
        if c == 0 || c == 45 || c == 90 {
            '│'
        } else {
            ' '
        }
    }
}

/// The pitch diagram under construction: a rectangular character matrix.
/// Writes through [`PitchGrid::set_clipped`] that fall outside the matrix
/// are dropped rather than reported, so rendering degrades instead of
/// failing on noisy position data.
#[derive(Debug, PartialEq)]
pub struct PitchGrid {
    pub rows: Vec<Vec<char>>,
}

impl View for PitchGrid {
    type V = Seq<Seq<char>>;

    open spec fn view(&self) -> Seq<Seq<char>> {
        self.rows.deep_view()
    }
}

/// `g` with the cell at `(r, c)` replaced when `(r, c)` lies inside the
/// matrix, and `g` unchanged when it does not.
pub open spec fn write_cell(g: Seq<Seq<char>>, r: int, c: int, ch: char) -> Seq<Seq<char>> {
    if 0 <= r < g.len() && 0 <= c < g[r].len() {
        g.update(r, g[r].update(c, ch))
    } else {
        g
    }
}

impl PitchGrid {
    /// Every row has the template's width, and the row count is the
    /// template's height.
    pub open spec fn wf(&self) -> bool {
        self@.len() == GRID_ROWS && forall|i: int|
            0 <= i < self@.len() ==> (#[trigger] self@[i]).len() == ROW_LEN
    }

    /// Write one character, dropping the write when `(r, c)` lies outside
    /// the matrix.
    pub fn set_clipped(&mut self, r: usize, c: usize, ch: char)
        ensures
            final(self)@ == write_cell(old(self)@, r as int, c as int, ch),
    {
        if r < self.rows.len() {
            let row = &mut self.rows[r];
            if c < row.len() {
                row[c] = ch;
            }
        }
        proof {
            assert(self@ =~~= write_cell(old(self)@, r as int, c as int, ch));
        }
    }
}

/// Build the pitch template: 19 rows of 91 characters, the borders, the
/// midline, and the two penalty boxes drawn once and for all.
pub fn construct_stadium() -> (grid: PitchGrid)
    ensures
        grid@ == stadium_spec(),
        grid.wf(),
{
    let mut rows: Vec<Vec<char>> = Vec::new();
    let mut r: usize = 0;
    while r < 19
        invariant
            r <= 19,
            rows@.len() == r,
            forall|i: int| 0 <= i < r ==> (#[trigger] rows@[i])@.len() == 91,
            forall|i: int, j: int|
                0 <= i < r && 0 <= j < 91 ==> (#[trigger] rows@[i]@[j]) == stadium_cell(i, j),
        decreases 19 - r,
    {
        let mut row: Vec<char> = Vec::new();
        let mut c: usize = 0;
        while c < 91
            invariant
                r < 19,
                c <= 91,
                row@.len() == c,
                forall|j: int| 0 <= j < c ==> (#[trigger] row@[j]) == stadium_cell(r as int, j),
            decreases 91 - c,
        {
            row.push(cell_at(r, c));
            c = c + 1;
        }
        rows.push(row);
        r = r + 1;
    }
    let grid = PitchGrid { rows };
    proof {
        assert(grid@ =~~= stadium_spec());
    }
    grid
}

} // verus!

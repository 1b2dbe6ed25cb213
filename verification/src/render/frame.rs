//! The cells of the frame drawn around a cluster: which terminal cells get
//! which line glyph, given the frame's corners in cell coordinates. Cells are
//! drawn in the order listed, so a later cell covers an earlier one.
use vstd::prelude::*;

verus! {

/// Column `x` is drawn: it is not negative and, taken as a `u16`, lies left
/// of `width`.
pub open spec fn column_drawn(x: int, width: u16) -> bool {
    0 <= x && (x as u16) < width
}

/// Row `y` is drawn: it is not negative and, taken as a `u16`, lies above
/// `height`.
pub open spec fn row_drawn(y: int, height: u16) -> bool {
    0 <= y && (y as u16) < height
}

/// The cells of the top and bottom edges for the columns `x_lo ..= x_hi`:
/// for each drawn column, its cell on the top row and then on the bottom
/// row, when those rows are drawn.
pub open spec fn edge_runs(x_lo: int, x_hi: int, top: int, bottom: int, width: u16, height: u16) -> Seq<
    (u16, u16, char),
>
    decreases x_hi - x_lo + 1,
{
    if x_hi < x_lo {
        Seq::empty()
    } else {
        let rest = edge_runs(x_lo, x_hi - 1, top, bottom, width, height);
        if column_drawn(x_hi, width) {
            let t = if row_drawn(top, height) {
                seq![(x_hi as u16, top as u16, '\u{2500}')]
            } else {
                Seq::empty()
            };
            let b = if row_drawn(bottom, height) {
                seq![(x_hi as u16, bottom as u16, '\u{2500}')]
            } else {
                Seq::empty()
            };
            rest + t + b
        } else {
            rest
        }
    }
}

/// The cells of the left and right edges for the rows `y_lo ..= y_hi`: for
/// each drawn row, its cell on the left column and then on the right column,
/// when those columns are drawn.
pub open spec fn side_runs(y_lo: int, y_hi: int, left: int, right: int, width: u16, height: u16) -> Seq<
    (u16, u16, char),
>
    decreases y_hi - y_lo + 1,
{
    if y_hi < y_lo {
        Seq::empty()
    } else {
        let rest = side_runs(y_lo, y_hi - 1, left, right, width, height);
        if row_drawn(y_hi, height) {
            let l = if column_drawn(left, width) {
                seq![(left as u16, y_hi as u16, '\u{2502}')]
            } else {
                Seq::empty()
            };
            let r = if column_drawn(right, width) {
                seq![(right as u16, y_hi as u16, '\u{2502}')]
            } else {
                Seq::empty()
            };
            rest + l + r
        } else {
            rest
        }
    }
}

/// The corner at column `x` and row `y` with glyph `c`, when both are drawn.
pub open spec fn corner(x: int, y: int, c: char, width: u16, height: u16) -> Seq<(u16, u16, char)> {
    if column_drawn(x, width) && row_drawn(y, height) {
        seq![(x as u16, y as u16, c)]
    } else {
        Seq::empty()
    }
}

/// The frame with corners `(left, top)` and `(right, bottom)`: the top and
/// bottom edges, then the left and right edges, then the four corners.
pub open spec fn frame_spec(left: int, right: int, top: int, bottom: int, width: u16, height: u16) -> Seq<
    (u16, u16, char),
> {
    edge_runs(left, right, top, bottom, width, height) + side_runs(top, bottom, left, right, width, height)
        + corner(left, top, '\u{250C}', width, height) + corner(right, top, '\u{2510}', width, height)
        + corner(left, bottom, '\u{2514}', width, height) + corner(right, bottom, '\u{2518}', width, height)
}

fn push_corner(cells: &mut Vec<(u16, u16, char)>, x: i32, y: i32, c: char, width: u16, height: u16)
    ensures
        final(cells)@ == old(cells)@ + corner(x as int, y as int, c, width, height),
{
    if x >= 0 && (x as u16) < width && y >= 0 && (y as u16) < height {
        cells.push((x as u16, y as u16, c));
    } else {
        assert(old(cells)@ + Seq::<(u16, u16, char)>::empty() =~= old(cells)@);
    }
}

/// The cells of a cluster frame inside a `width` by `height` area.
pub fn frame_cells(left: i32, right: i32, top: i32, bottom: i32, width: u16, height: u16) -> (cells: Vec<
    (u16, u16, char),
>)
    ensures
        cells@ == frame_spec(left as int, right as int, top as int, bottom as int, width, height),
{
    let mut cells: Vec<(u16, u16, char)> = Vec::new();
    let top_drawn = top >= 0 && (top as u16) < height;
    let bottom_drawn = bottom >= 0 && (bottom as u16) < height;
    let mut x: i64 = left as i64;
    while x <= right as i64
        invariant
            left <= x <= right as int + 1 || (x == left && right < left),
            cells@ == edge_runs(left as int, x - 1, top as int, bottom as int, width, height),
            top_drawn == row_drawn(top as int, height),
            bottom_drawn == row_drawn(bottom as int, height),
        decreases right as int + 1 - x,
    {
        let ghost before = cells@;
        if x >= 0 && (x as u16) < width {
            if top_drawn {
                cells.push((x as u16, top as u16, '\u{2500}'));
            }
            if bottom_drawn {
                cells.push((x as u16, bottom as u16, '\u{2500}'));
            }
        }
        assert(cells@ =~= edge_runs(left as int, x as int, top as int, bottom as int, width, height))
            by {
            assert(before == edge_runs(left as int, x - 1, top as int, bottom as int, width, height));
        }
        x = x + 1;
    }
    let ghost runs = cells@;
    let left_drawn = left >= 0 && (left as u16) < width;
    let right_drawn = right >= 0 && (right as u16) < width;
    let mut y: i64 = top as i64;
    while y <= bottom as i64
        invariant
            top <= y <= bottom as int + 1 || (y == top && bottom < top),
            cells@ == runs + side_runs(top as int, y - 1, left as int, right as int, width, height),
            left_drawn == column_drawn(left as int, width),
            right_drawn == column_drawn(right as int, width),
        decreases bottom as int + 1 - y,
    {
        let ghost before = cells@;
        if y >= 0 && (y as u16) < height {
            if left_drawn {
                cells.push((left as u16, y as u16, '\u{2502}'));
            }
            if right_drawn {
                cells.push((right as u16, y as u16, '\u{2502}'));
            }
        }
        assert(cells@ =~= runs + side_runs(top as int, y as int, left as int, right as int, width, height));
        y = y + 1;
    }
    push_corner(&mut cells, left, top, '\u{250C}', width, height);
    push_corner(&mut cells, right, top, '\u{2510}', width, height);
    push_corner(&mut cells, left, bottom, '\u{2514}', width, height);
    push_corner(&mut cells, right, bottom, '\u{2518}', width, height);
    cells
}

/// Where a frame's label starts: two columns right of its left edge, on its
/// top row, when that cell is drawn.
pub fn label_anchor(left: i32, top: i32, width: u16, height: u16) -> (r: Option<(u16, u16)>)
    requires
        left + 2 <= i32::MAX,
    ensures
        r == (if column_drawn(left + 2, width) && row_drawn(top as int, height) {
            Some((((left + 2) as i32) as u16, top as u16))
        } else {
            None
        }),
{
    let x = left + 2;
    if x >= 0 && (x as u16) < width && top >= 0 && (top as u16) < height {
        Some((x as u16, top as u16))
    } else {
        None
    }
}

/// Every cell of `s` lies inside a `width` by `height` area.
pub open spec fn inside_area(s: Seq<(u16, u16, char)>, width: u16, height: u16) -> bool {
    forall|k: int| 0 <= k < s.len() ==> (#[trigger] s[k]).0 < width && s[k].1 < height
}

proof fn lemma_inside_concat(a: Seq<(u16, u16, char)>, b: Seq<(u16, u16, char)>, width: u16, height: u16)
    requires
        inside_area(a, width, height),
        inside_area(b, width, height),
    ensures
        inside_area(a + b, width, height),
{
    assert forall|k: int| 0 <= k < (a + b).len() implies (#[trigger] (a + b)[k]).0 < width && (a
        + b)[k].1 < height by {
        if k < a.len() {
            assert((a + b)[k] == a[k]);
        } else {
            assert((a + b)[k] == b[k - a.len()]);
        }
    }
}

proof fn lemma_edge_runs_inside(x_lo: int, x_hi: int, top: int, bottom: int, width: u16, height: u16)
    ensures
        inside_area(edge_runs(x_lo, x_hi, top, bottom, width, height), width, height),
    decreases x_hi - x_lo + 1,
{
    if x_hi >= x_lo {
        lemma_edge_runs_inside(x_lo, x_hi - 1, top, bottom, width, height);
        let rest = edge_runs(x_lo, x_hi - 1, top, bottom, width, height);
        if column_drawn(x_hi, width) {
            let t = if row_drawn(top, height) {
                seq![(x_hi as u16, top as u16, '\u{2500}')]
            } else {
                Seq::empty()
            };
            let b = if row_drawn(bottom, height) {
                seq![(x_hi as u16, bottom as u16, '\u{2500}')]
            } else {
                Seq::empty()
            };
            lemma_inside_concat(rest, t, width, height);
            lemma_inside_concat(rest + t, b, width, height);
        }
    }
}

proof fn lemma_side_runs_inside(y_lo: int, y_hi: int, left: int, right: int, width: u16, height: u16)
    ensures
        inside_area(side_runs(y_lo, y_hi, left, right, width, height), width, height),
    decreases y_hi - y_lo + 1,
{
    if y_hi >= y_lo {
        lemma_side_runs_inside(y_lo, y_hi - 1, left, right, width, height);
        let rest = side_runs(y_lo, y_hi - 1, left, right, width, height);
        if row_drawn(y_hi, height) {
            let l = if column_drawn(left, width) {
                seq![(left as u16, y_hi as u16, '\u{2502}')]
            } else {
                Seq::empty()
            };
            let r = if column_drawn(right, width) {
                seq![(right as u16, y_hi as u16, '\u{2502}')]
            } else {
                Seq::empty()
            };
            lemma_inside_concat(rest, l, width, height);
            lemma_inside_concat(rest + l, r, width, height);
        }
    }
}

/// A cluster frame never draws outside its area, whatever its corners.
pub proof fn law_frame_inside_area(left: int, right: int, top: int, bottom: int, width: u16, height: u16)
    ensures
        inside_area(frame_spec(left, right, top, bottom, width, height), width, height),
{
    let e = edge_runs(left, right, top, bottom, width, height);
    let s = side_runs(top, bottom, left, right, width, height);
    let c1 = corner(left, top, '\u{250C}', width, height);
    let c2 = corner(right, top, '\u{2510}', width, height);
    let c3 = corner(left, bottom, '\u{2514}', width, height);
    let c4 = corner(right, bottom, '\u{2518}', width, height);
    lemma_edge_runs_inside(left, right, top, bottom, width, height);
    lemma_side_runs_inside(top, bottom, left, right, width, height);
    lemma_inside_concat(e, s, width, height);
    lemma_inside_concat(e + s, c1, width, height);
    lemma_inside_concat(e + s + c1, c2, width, height);
    lemma_inside_concat(e + s + c1 + c2, c3, width, height);
    lemma_inside_concat(e + s + c1 + c2 + c3, c4, width, height);
}

} // verus!

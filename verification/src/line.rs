//! Line segments: clipping them to the grid's quadrant, rounding them to
//! cells, and marking the cells they cover.

use crate::char_buffer::CharBuffer;
use crate::vector::{Vector2, ONE};
use vstd::arithmetic::div_mod::{lemma_div_is_ordered, lemma_fundamental_div_mod_converse};
use vstd::prelude::*;

verus! {

/// A cell of the grid: its column, then its row.
pub type Cell = (usize, usize);

/// The coordinate that stands in both places of both cells where a segment
/// lies wholly outside the grid's quadrant and is written as a pair of cells
/// all the same.
pub const OFF_GRID: usize = 4_000_000_000;

/// One segment to draw: the character to mark its cells with, and its two
/// endpoints in fixed-point screen coordinates.
#[derive(Clone, Copy, Debug, PartialEq, Eq)]
pub struct Line {
    pub char: char,
    pub points: (Vector2, Vector2),
}

/// The whole number nearest to the fraction `num / den`, halves rounded away
/// from zero, and zero for every fraction that is not positive.
pub open spec fn nearest_cell(num: int, den: int) -> int
    recommends
        den > 0,
{
    if num <= 0 {
        0
    } else {
        (2 * num + den) / (2 * den)
    }
}

/// `n` as a grid coordinate: itself where it fits, the largest coordinate
/// where it does not.
pub open spec fn saturate(n: int) -> usize
    recommends
        n >= 0,
{
    if n > usize::MAX {
        usize::MAX
    } else {
        n as usize
    }
}

/// The grid coordinate nearest to a fixed-point coordinate.
pub open spec fn cell_of(v: int) -> usize {
    saturate(nearest_cell(v, ONE as int))
}

/// The cell nearest to a point.
pub open spec fn cell_at(p: Vector2) -> Cell {
    (cell_of(p.x as int), cell_of(p.y as int))
}

/// Twice the signed area of the triangle between the origin and the two
/// points. With `a` left of `b`, it is negative exactly where the line
/// through them meets the column `x = 0` above the row `y = 0`.
pub open spec fn cross(a: Vector2, b: Vector2) -> int {
    a.y * (b.x - a.x) - a.x * (b.y - a.y)
}

/// The row, as a grid coordinate, at which the line through `a` and `b`
/// meets the column `x = 0`.
pub open spec fn row_at_left_edge(a: Vector2, b: Vector2) -> usize
    recommends
        a.x < b.x,
{
    saturate(nearest_cell(cross(a, b), (b.x - a.x) * ONE))
}

/// The column, as a grid coordinate, at which the line through `a` and `b`
/// meets the row `y = 0`.
pub open spec fn column_at_top_edge(a: Vector2, b: Vector2) -> usize
    recommends
        a.y != b.y,
{
    if b.y > a.y {
        saturate(nearest_cell(-cross(a, b), (b.y - a.y) * ONE))
    } else {
        saturate(nearest_cell(cross(a, b), (a.y - b.y) * ONE))
    }
}

/// The largest magnitude that `cross` has on fixed-point points.
pub open spec fn cross_limit() -> int {
    0x2_0000_0000_0000_0000
}

/// `cross` of two points, and the bound that all arithmetic on it relies on.
fn cross_of(a: Vector2, b: Vector2) -> (c: i128)
    ensures
        c == cross(a, b),
        -cross_limit() <= c <= cross_limit(),
{
    let dx: i128 = b.x as i128 - a.x as i128;
    let dy: i128 = b.y as i128 - a.y as i128;
    let ay: i128 = a.y as i128;
    let ax: i128 = a.x as i128;
    proof {
        assert(-0x1_0000_0000_0000_0000 <= ay * dx <= 0x1_0000_0000_0000_0000) by (nonlinear_arith)
            requires
                -0x8000_0000 <= ay <= 0x8000_0000,
                -0x1_0000_0000 <= dx <= 0x1_0000_0000,
        ;
        assert(-0x1_0000_0000_0000_0000 <= ax * dy <= 0x1_0000_0000_0000_0000) by (nonlinear_arith)
            requires
                -0x8000_0000 <= ax <= 0x8000_0000,
                -0x1_0000_0000 <= dy <= 0x1_0000_0000,
        ;
    }
    ay * dx - ax * dy
}

/// The grid coordinate nearest to `num / den`.
fn round_ratio(num: i128, den: i128) -> (r: usize)
    requires
        -cross_limit() <= num <= cross_limit(),
        0 < den <= 0x1_0000_0000_0000,
    ensures
        r == saturate(nearest_cell(num as int, den as int)),
{
    if num <= 0 {
        return 0;
    }
    let top: u128 = (2 * num + den) as u128;
    let bottom: u128 = (2 * den) as u128;
    let q: u128 = top / bottom;
    if q > usize::MAX as u128 {
        usize::MAX
    } else {
        q as usize
    }
}

/// The grid coordinate nearest to a fixed-point coordinate.
fn round_coordinate(v: i32) -> (r: usize)
    ensures
        r == cell_of(v as int),
{
    round_ratio(v as i128, ONE as i128)
}

/// The cell nearest to a point.
fn round_point(p: Vector2) -> (c: Cell)
    ensures
        c == cell_at(p),
{
    (round_coordinate(p.x), round_coordinate(p.y))
}

/// The row at which the line through `a` and `b` meets the column `x = 0`.
fn left_edge_row(a: Vector2, b: Vector2) -> (r: usize)
    requires
        a.x < b.x,
    ensures
        r == row_at_left_edge(a, b),
{
    let dx: i128 = b.x as i128 - a.x as i128;
    assert(dx * ONE == dx * 1000) by (nonlinear_arith)
        requires
            ONE == 1000,
    ;
    round_ratio(cross_of(a, b), dx * (ONE as i128))
}

/// The column at which the line through `a` and `b` meets the row `y = 0`.
fn top_edge_column(a: Vector2, b: Vector2) -> (r: usize)
    requires
        a.y != b.y,
    ensures
        r == column_at_top_edge(a, b),
{
    let dy: i128 = b.y as i128 - a.y as i128;
    let c: i128 = cross_of(a, b);
    assert(dy * ONE == dy * 1000 && (-dy) * ONE == -dy * 1000) by (nonlinear_arith)
        requires
            ONE == 1000,
    ;
    if dy > 0 {
        round_ratio(-c, dy * (ONE as i128))
    } else {
        round_ratio(c, (-dy) * (ONE as i128))
    }
}

impl Line {
    /// Both endpoints lie left of the grid, or both lie above it.
    pub open spec fn is_off_grid(&self) -> bool {
        let (p, q) = self.points;
        (p.x < 0 && q.x < 0) || (p.y < 0 && q.y < 0)
    }

    /// The endpoints share a column or a row.
    pub open spec fn is_axis_aligned(&self) -> bool {
        let (p, q) = self.points;
        p.x == q.x || p.y == q.y
    }

    /// The endpoint with the smaller `x`; the second one where they tie.
    pub open spec fn first(&self) -> Vector2 {
        if self.points.0.x < self.points.1.x {
            self.points.0
        } else {
            self.points.1
        }
    }

    /// The endpoint that is not `first`.
    pub open spec fn second(&self) -> Vector2 {
        if self.points.0.x < self.points.1.x {
            self.points.1
        } else {
            self.points.0
        }
    }

    /// The pair of cells that the segment is drawn between, or `None` where
    /// it lies wholly left of the grid or wholly above it.
    ///
    /// A segment along an axis keeps its endpoints, each rounded to its
    /// cell. Any other segment is cut where it enters the quadrant of
    /// non-negative coordinates: a left endpoint with negative `x` moves to
    /// the crossing with the column `x = 0`, or, where that crossing has a
    /// negative row, to the crossing with the row `y = 0`; a left endpoint
    /// with negative `y` moves to the crossing with the row `y = 0`, or, where
    /// that crossing has a negative column, to the crossing with the column
    /// `x = 0`; a right endpoint with negative `y` moves to the crossing with
    /// the row `y = 0`. A cut segment runs from its left end to its right
    /// end; an uncut one keeps the order of its endpoints.
    pub open spec fn clipped(&self) -> Option<(Cell, Cell)> {
        let (p, q) = self.points;
        let a = self.first();
        let b = self.second();
        if self.is_off_grid() {
            None
        } else if self.is_axis_aligned() {
            Some((cell_at(p), cell_at(q)))
        } else if a.x < 0 {
            if cross(a, b) < 0 {
                Some(((column_at_top_edge(a, b), 0), cell_at(b)))
            } else {
                Some(((0, row_at_left_edge(a, b)), cell_at(b)))
            }
        } else if a.y < 0 {
            if -cross(a, b) * (b.y - a.y) < 0 {
                Some(((0, row_at_left_edge(a, b)), cell_at(b)))
            } else {
                Some(((column_at_top_edge(a, b), 0), cell_at(b)))
            }
        } else if b.y < 0 {
            Some((cell_at(a), (column_at_top_edge(a, b), 0)))
        } else {
            Some((cell_at(p), cell_at(q)))
        }
    }

    /// Cuts the segment to the quadrant of non-negative coordinates and
    /// rounds its ends to cells.
    pub fn clip(&self) -> (r: Option<(Cell, Cell)>)
        ensures
            r == self.clipped(),
            r is None <==> self.is_off_grid(),
            self.is_axis_aligned() && !self.is_off_grid() ==> r == Some(
                (cell_at(self.points.0), cell_at(self.points.1)),
            ),
    {
        let p = self.points.0;
        let q = self.points.1;
        if (p.x < 0 && q.x < 0) || (p.y < 0 && q.y < 0) {
            return None;
        }
        if p.x == q.x || p.y == q.y {
            return Some((round_point(p), round_point(q)));
        }
        let (a, b) = if p.x < q.x {
            (p, q)
        } else {
            (q, p)
        };
        if a.x < 0 {
            if cross_of(a, b) < 0 {
                return Some(((top_edge_column(a, b), 0), round_point(b)));
            }
            return Some(((0, left_edge_row(a, b)), round_point(b)));
        }
        if a.y < 0 {
            proof {
                lemma_enters_from_above(a, b);
            }
            return Some(((top_edge_column(a, b), 0), round_point(b)));
        }
        if b.y < 0 {
            return Some((round_point(a), (top_edge_column(a, b), 0)));
        }
        Some((round_point(p), round_point(q)))
    }
}

/// A segment that starts above the grid, at a column of the grid, and rises
/// into it to the right, meets the row `y = 0` at a column of the grid: the
/// crossing is never left of the column `x = 0`.
pub proof fn lemma_enters_from_above(a: Vector2, b: Vector2)
    requires
        0 <= a.x < b.x,
        a.y < 0 <= b.y,
    ensures
        cross(a, b) < 0,
        -cross(a, b) * (b.y - a.y) > 0,
{
    let dx = b.x - a.x;
    let dy = b.y - a.y;
    assert(a.y * dx < 0) by (nonlinear_arith)
        requires
            a.y < 0,
            dx > 0,
    ;
    assert(a.x * dy >= 0) by (nonlinear_arith)
        requires
            a.x >= 0,
            dy > 0,
    ;
    let c = cross(a, b);
    assert(-c * dy > 0) by (nonlinear_arith)
        requires
            c < 0,
            dy > 0,
    ;
}

/// The value at `step` on the straight run from `from` (at step zero) to
/// `to` (at step `span`), rounded down to a whole number. A run of no steps
/// stays at `from`.
pub open spec fn between(from: int, to: int, step: int, span: int) -> int
    recommends
        0 <= step <= span,
{
    if span == 0 {
        from
    } else {
        from + ((to - from) * step) / span
    }
}

/// `between` lies between its two ends.
pub proof fn lemma_between_bounds(from: int, to: int, step: int, span: int)
    requires
        0 <= step <= span,
    ensures
        from <= to ==> from <= between(from, to, step, span) <= to,
        to <= from ==> to <= between(from, to, step, span) <= from,
        step == 0 ==> between(from, to, step, span) == from,
        step == span && span > 0 ==> between(from, to, step, span) == to,
{
    if span > 0 {
        let d = to - from;
        let n = d * step;
        if d >= 0 {
            assert(0 <= n <= d * span) by (nonlinear_arith)
                requires
                    n == d * step,
                    0 <= step <= span,
                    d >= 0,
            ;
            lemma_div_is_ordered(0, n, span);
            lemma_div_is_ordered(n, d * span, span);
        } else {
            assert(d * span <= n <= 0) by (nonlinear_arith)
                requires
                    n == d * step,
                    0 <= step <= span,
                    d < 0,
            ;
            lemma_div_is_ordered(n, 0, span);
            lemma_div_is_ordered(d * span, n, span);
        }
        lemma_fundamental_div_mod_converse(d * span, span, d, 0);
        lemma_fundamental_div_mod_converse(0, span, 0, 0);
        if step == 0 {
            assert(n == 0) by (nonlinear_arith)
                requires
                    n == d * step,
                    step == 0,
            ;
        }
    }
}

/// Computes `between` on grid coordinates.
fn interpolate(from: usize, to: usize, step: usize, span: usize) -> (r: usize)
    requires
        step <= span,
    ensures
        r == between(from as int, to as int, step as int, span as int),
{
    if span == 0 {
        return from;
    }
    proof {
        lemma_between_bounds(from as int, to as int, step as int, span as int);
    }
    if to >= from {
        let d: u128 = (to - from) as u128;
        assert(d * step <= 0xffff_ffff_ffff_ffff * 0xffff_ffff_ffff_ffff) by (nonlinear_arith)
            requires
                0 <= d <= 0xffff_ffff_ffff_ffff,
                0 <= step <= 0xffff_ffff_ffff_ffff,
        ;
        let q: u128 = (d * (step as u128)) / (span as u128);
        from + (q as usize)
    } else {
        let d: u128 = (from - to) as u128;
        assert(d * step <= 0xffff_ffff_ffff_ffff * 0xffff_ffff_ffff_ffff) by (nonlinear_arith)
            requires
                0 <= d <= 0xffff_ffff_ffff_ffff,
                0 <= step <= 0xffff_ffff_ffff_ffff,
        ;
        let n: u128 = d * (step as u128);
        let q: u128 = n / (span as u128);
        let rest: u128 = n % (span as u128);
        proof {
            let m = (to - from) * step;
            assert(m == -(n as int)) by (nonlinear_arith)
                requires
                    m == (to - from) * step,
                    n == (from - to) * step,
            ;
            vstd::arithmetic::div_mod::lemma_fundamental_div_mod(n as int, span as int);
            if rest == 0 {
                assert(m == (-(q as int)) * span + 0) by (nonlinear_arith)
                    requires
                        m == -(n as int),
                        n == span * q + 0,
                ;
                lemma_fundamental_div_mod_converse(m, span as int, -(q as int), 0);
            } else {
                assert(m == (-(q as int) - 1) * span + (span - rest)) by (nonlinear_arith)
                    requires
                        m == -(n as int),
                        n == span * q + rest,
                ;
                lemma_fundamental_div_mod_converse(
                    m,
                    span as int,
                    -(q as int) - 1,
                    span - rest,
                );
            }
        }
        if rest == 0 {
            from - (q as usize)
        } else {
            from - (q as usize) - 1
        }
    }
}

/// The row of the cell marked in column `x` on a run along the columns from
/// `s` to `e`.
pub open spec fn row_on(s: Cell, e: Cell, x: int) -> int {
    between(s.1 as int, e.1 as int, x - s.0, e.0 - s.0)
}

/// The column of the cell marked in row `y` on a run along the rows from `s`
/// to `e`.
pub open spec fn column_on(s: Cell, e: Cell, y: int) -> int {
    between(s.0 as int, e.0 as int, y - s.1, e.1 - s.1)
}

/// Whether a run along the columns from `s` rightwards to `e` marks the cell
/// `(x, y)`: one cell in each column from that of `s` to that of `e`.
pub open spec fn on_horizontal(s: Cell, e: Cell, x: int, y: int) -> bool {
    s.0 <= x <= e.0 && y == row_on(s, e, x)
}

/// Whether a run along the rows from `s` downwards to `e` marks the cell
/// `(x, y)`: one cell in each row from that of `s` to that of `e`.
pub open spec fn on_vertical(s: Cell, e: Cell, x: int, y: int) -> bool {
    s.1 <= y <= e.1 && x == column_on(s, e, y)
}

/// How the cells of a segment are walked.
#[derive(Clone, Copy, Debug, PartialEq, Eq, Structural)]
pub enum Stepping {
    /// One cell in each column: the segment is no steeper than a diagonal.
    Horizontal,
    /// One cell in each row, the rows growing from the left end to the right.
    VerticalUp,
    /// One cell in each row, the rows growing from the right end to the left.
    VerticalDown,
}

/// The two cells, the one with the smaller column first; as given where the
/// columns are equal.
pub open spec fn left_to_right(s: Cell, e: Cell) -> (Cell, Cell) {
    if s.0 > e.0 {
        (e, s)
    } else {
        (s, e)
    }
}

/// How the segment from `s` to `e` is walked, `s` being the left end: along
/// the rows where it changes more in `y` than in `x`, else along the columns.
pub open spec fn stepping_of(s: Cell, e: Cell) -> Stepping
    recommends
        s.0 <= e.0,
{
    let dx = e.0 - s.0;
    let dy = e.1 - s.1;
    if dy < -dx {
        Stepping::VerticalDown
    } else if dy > dx {
        Stepping::VerticalUp
    } else {
        Stepping::Horizontal
    }
}

/// Whether the segment between the cells `s` and `e` marks the cell `(x, y)`.
pub open spec fn on_segment(s: Cell, e: Cell, x: int, y: int) -> bool {
    let (a, b) = left_to_right(s, e);
    match stepping_of(a, b) {
        Stepping::Horizontal => on_horizontal(a, b, x, y),
        Stepping::VerticalUp => on_vertical(a, b, x, y),
        Stepping::VerticalDown => on_vertical(b, a, x, y),
    }
}

/// `after` is `before` with `ch` written into every cell of the grid that
/// `hit` selects, and nothing else changed.
pub open spec fn painted(
    before: &CharBuffer,
    after: &CharBuffer,
    ch: char,
    hit: spec_fn(int, int) -> bool,
) -> bool {
    &&& after.wf()
    &&& after.spec_width() == before.spec_width()
    &&& after.spec_height() == before.spec_height()
    &&& forall|x: int, y: int|
        after.in_grid(x, y) ==> #[trigger] after.cell(x, y) == if hit(x, y) {
            ch
        } else {
            before.cell(x, y)
        }
}

/// Marks one cell in each column from that of `s` to that of `e` with `ch`,
/// following the straight run from `s` to `e`. Cells outside the grid are
/// passed over; where `s` lies right of `e` nothing is marked.
pub fn draw_horizontal(ch: char, buf: &mut CharBuffer, s: Cell, e: Cell)
    requires
        old(buf).wf(),
    ensures
        painted(old(buf), final(buf), ch, |x: int, y: int| on_horizontal(s, e, x, y)),
{
    if s.0 > e.0 {
        return ;
    }
    let width: usize = buf.width();
    let span: usize = e.0 - s.0;
    let mut x: usize = s.0;
    while x < width && x <= e.0
        invariant
            buf.wf(),
            buf.spec_width() == old(buf).spec_width(),
            buf.spec_height() == old(buf).spec_height(),
            width == buf.spec_width(),
            span == e.0 - s.0,
            s.0 <= x,
            forall|i: int, j: int|
                buf.in_grid(i, j) ==> #[trigger] buf.cell(i, j) == if s.0 <= i < x && i <= e.0 && j
                    == row_on(s, e, i) {
                    ch
                } else {
                    old(buf).cell(i, j)
                },
        decreases width - x,
    {
        let y: usize = interpolate(s.1, e.1, x - s.0, span);
        let _ = buf.set_char(x, y, ch);
        x += 1;
    }
}

/// Marks one cell in each row with `ch`, following the straight run between
/// `s` and `e`: from the row of `s` to that of `e` where `is_up` holds, from
/// the row of `e` to that of `s` where it does not. Cells outside the grid
/// are passed over; where the rows run the other way nothing is marked.
pub fn draw_vertical(ch: char, buf: &mut CharBuffer, s: Cell, e: Cell, is_up: bool)
    requires
        old(buf).wf(),
    ensures
        painted(
            old(buf),
            final(buf),
            ch,
            |x: int, y: int|
                if is_up {
                    on_vertical(s, e, x, y)
                } else {
                    on_vertical(e, s, x, y)
                },
        ),
{
    let (top, bottom) = if is_up {
        (s, e)
    } else {
        (e, s)
    };
    if top.1 > bottom.1 {
        return ;
    }
    let height: usize = buf.height();
    let span: usize = bottom.1 - top.1;
    let mut y: usize = top.1;
    while y < height && y <= bottom.1
        invariant
            buf.wf(),
            buf.spec_width() == old(buf).spec_width(),
            buf.spec_height() == old(buf).spec_height(),
            height == buf.spec_height(),
            span == bottom.1 - top.1,
            top.1 <= y,
            forall|i: int, j: int|
                buf.in_grid(i, j) ==> #[trigger] buf.cell(i, j) == if top.1 <= j < y && j
                    <= bottom.1 && i == column_on(top, bottom, j) {
                    ch
                } else {
                    old(buf).cell(i, j)
                },
        decreases height - y,
    {
        let x: usize = interpolate(top.0, bottom.0, y - top.1, span);
        let _ = buf.set_char(x, y, ch);
        y += 1;
    }
}

/// How the segment from `s` to `e` is walked, `s` being the left end.
pub fn classify(s: Cell, e: Cell) -> (k: Stepping)
    requires
        s.0 <= e.0,
    ensures
        k == stepping_of(s, e),
{
    let dx: usize = e.0 - s.0;
    if s.1 > e.1 && s.1 - e.1 > dx {
        Stepping::VerticalDown
    } else if e.1 > s.1 && e.1 - s.1 > dx {
        Stepping::VerticalUp
    } else {
        Stepping::Horizontal
    }
}

/// Marks with `ch` every cell of the grid that the segment between the cells
/// `s` and `e` covers: one cell in each column where the segment is no
/// steeper than a diagonal, one in each row where it is steeper.
pub fn draw_line(ch: char, buf: &mut CharBuffer, s: Cell, e: Cell)
    requires
        old(buf).wf(),
    ensures
        painted(old(buf), final(buf), ch, |x: int, y: int| on_segment(s, e, x, y)),
{
    let (a, b) = if s.0 > e.0 {
        (e, s)
    } else {
        (s, e)
    };
    match classify(a, b) {
        Stepping::VerticalDown => draw_vertical(ch, buf, a, b, false),
        Stepping::VerticalUp => draw_vertical(ch, buf, a, b, true),
        Stepping::Horizontal => draw_horizontal(ch, buf, a, b),
    }
}

impl Line {
    /// Whether drawing the segment marks the cell `(x, y)`: never where the
    /// segment is off the grid, else where the segment between its two
    /// clipped cells covers it.
    pub open spec fn covers(&self, x: int, y: int) -> bool {
        match self.clipped() {
            None => false,
            Some((s, e)) => on_segment(s, e, x, y),
        }
    }

    /// The clipped segment as a pair of cells, with `OFF_GRID` in all four
    /// places where there is nothing to draw.
    pub open spec fn cell_pair(&self) -> (Cell, Cell) {
        match self.clipped() {
            None => ((OFF_GRID, OFF_GRID), (OFF_GRID, OFF_GRID)),
            Some(cells) => cells,
        }
    }

    /// The clipped segment as a pair of cells, with `OFF_GRID` in all four
    /// places where there is nothing to draw.
    pub fn to_cells(&self) -> (r: (Cell, Cell))
        ensures
            r == self.cell_pair(),
    {
        match self.clip() {
            None => ((OFF_GRID, OFF_GRID), (OFF_GRID, OFF_GRID)),
            Some(cells) => cells,
        }
    }
}

impl From<Line> for (Cell, Cell) {
    fn from(line: Line) -> (r: Self) {
        line.to_cells()
    }
}

impl vstd::std_specs::convert::FromSpecImpl<Line> for (Cell, Cell) {
    open spec fn obeys_from_spec() -> bool {
        true
    }

    open spec fn from_spec(line: Line) -> Self {
        line.cell_pair()
    }
}

/// The character that the cell `(x, y)` shows once `lines` have been drawn
/// over `before`, the first of them first: that of the last line that
/// covers the cell, or what was there before where none does.
pub open spec fn shown(before: &CharBuffer, lines: Seq<Line>, x: int, y: int) -> char
    decreases lines.len(),
{
    if lines.len() == 0 {
        before.cell(x, y)
    } else if lines.last().covers(x, y) {
        lines.last().char
    } else {
        shown(before, lines.drop_last(), x, y)
    }
}

impl CharBuffer {
    /// Clips the segment and marks the cells it covers with its character.
    /// A segment that lies wholly left of the grid or wholly above it leaves
    /// the buffer as it was.
    pub fn draw_line(&mut self, line: Line)
        requires
            old(self).wf(),
        ensures
            painted(old(self), final(self), line.char, |x: int, y: int| line.covers(x, y)),
            line.is_off_grid() ==> final(self).same_picture(old(self)),
    {
        match line.clip() {
            None => {},
            Some((s, e)) => {
                draw_line(line.char, self, s, e);
            },
        }
    }

    /// Draws the segments one after the other, the first of them first, so
    /// that a later one shows where two cover the same cell.
    pub fn draw_lines(&mut self, lines: Vec<Line>)
        requires
            old(self).wf(),
        ensures
            final(self).wf(),
            final(self).spec_width() == old(self).spec_width(),
            final(self).spec_height() == old(self).spec_height(),
            forall|x: int, y: int|
                final(self).in_grid(x, y) ==> #[trigger] final(self).cell(x, y) == shown(
                    old(self),
                    lines@,
                    x,
                    y,
                ),
    {
        let mut i: usize = 0;
        while i < lines.len()
            invariant
                i <= lines.len(),
                self.wf(),
                self.spec_width() == old(self).spec_width(),
                self.spec_height() == old(self).spec_height(),
                forall|x: int, y: int|
                    self.in_grid(x, y) ==> #[trigger] self.cell(x, y) == shown(
                        old(self),
                        lines@.take(i as int),
                        x,
                        y,
                    ),
            decreases lines.len() - i,
        {
            let ghost drawn = lines@.take(i as int);
            let ghost next = lines@.take(i + 1);
            assert(next.drop_last() == drawn);
            assert(next.last() == lines@[i as int]);
            self.draw_line(lines[i]);
            i += 1;
        }
        assert(lines@.take(i as int) == lines@);
    }
}

/// Rounding goes to the nearest whole number: `nearest_cell(num, den)` is
/// at most one half away from the fraction `num / den`, and a fraction that
/// lies halfway between two whole numbers goes to the larger one.
pub proof fn lemma_nearest_cell_is_nearest(num: int, den: int)
    requires
        0 <= num,
        0 < den,
    ensures
        0 <= nearest_cell(num, den),
        2 * (nearest_cell(num, den) * den - num) <= den,
        2 * (num - nearest_cell(num, den) * den) < den,
{
    if num > 0 {
        let top = 2 * num + den;
        let bottom = 2 * den;
        let r = top / bottom;
        vstd::arithmetic::div_mod::lemma_fundamental_div_mod(top, bottom);
        vstd::arithmetic::div_mod::lemma_mod_bound(top, bottom);
        vstd::arithmetic::div_mod::lemma_div_pos_is_pos(top, bottom);
        assert(bottom * r == 2 * (r * den)) by (nonlinear_arith)
            requires
                bottom == 2 * den,
        ;
    } else {
        assert(0 * den == 0);
    }
}

/// A segment along an axis that is not off the grid keeps both endpoints,
/// each coordinate rounded by itself to the nearest cell.
pub proof fn lemma_axis_aligned_is_rounded(line: Line)
    requires
        line.is_axis_aligned(),
        !line.is_off_grid(),
    ensures
        line.clipped() == Some((cell_at(line.points.0), cell_at(line.points.1))),
        line.cell_pair() == (
            (cell_of(line.points.0.x as int), cell_of(line.points.0.y as int)),
            (cell_of(line.points.1.x as int), cell_of(line.points.1.y as int)),
        ),
{
}

/// A segment with both endpoints left of the grid, or both above it, is
/// clipped away: it has no cells, it covers none, and as a pair of cells it
/// is `OFF_GRID` in all four places.
pub proof fn lemma_off_grid_is_rejected(line: Line)
    requires
        (line.points.0.x < 0 && line.points.1.x < 0) || (line.points.0.y < 0 && line.points.1.y
            < 0),
    ensures
        line.clipped() is None,
        line.cell_pair() == ((OFF_GRID, OFF_GRID), (OFF_GRID, OFF_GRID)),
        forall|x: int, y: int| !line.covers(x, y),
{
}

/// A segment whose endpoints have no negative coordinate, so every segment
/// within the grid, is not cut: its cells are those nearest to its
/// endpoints, in the order of the endpoints.
pub proof fn lemma_inside_is_not_cut(line: Line)
    requires
        0 <= line.points.0.x,
        0 <= line.points.0.y,
        0 <= line.points.1.x,
        0 <= line.points.1.y,
    ensures
        line.clipped() == Some((cell_at(line.points.0), cell_at(line.points.1))),
        forall|x: int, y: int|
            line.covers(x, y) == on_segment(cell_at(line.points.0), cell_at(line.points.1), x, y),
{
}

/// Clipping changes nothing for a segment within the grid: to clip it and
/// draw what is left gives the same picture as to draw it between the cells
/// nearest to its endpoints.
pub proof fn lemma_clipping_inside_changes_nothing(
    line: Line,
    before: &CharBuffer,
    clipped: &CharBuffer,
    direct: &CharBuffer,
)
    requires
        0 <= line.points.0.x < before.spec_width() * ONE,
        0 <= line.points.0.y < before.spec_height() * ONE,
        0 <= line.points.1.x < before.spec_width() * ONE,
        0 <= line.points.1.y < before.spec_height() * ONE,
        painted(before, clipped, line.char, |x: int, y: int| line.covers(x, y)),
        painted(
            before,
            direct,
            line.char,
            |x: int, y: int| on_segment(cell_at(line.points.0), cell_at(line.points.1), x, y),
        ),
    ensures
        clipped.same_picture(direct),
        clipped@ == direct@,
{
    lemma_inside_is_not_cut(line);
    assert forall|x: int, y: int| clipped.in_grid(x, y) implies clipped.cell(x, y) == direct.cell(
        x,
        y,
    ) by {
        assert(direct.in_grid(x, y));
    }
    clipped.lemma_same_picture(direct);
}

} // verus!

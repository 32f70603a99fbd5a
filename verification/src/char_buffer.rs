//! The character grid that everything is drawn into.

use vstd::prelude::*;

verus! {

/// The coordinates of a write that fell outside the grid.
#[derive(Clone, Copy, Debug, PartialEq, Eq, Structural)]
pub struct OutOfBounds {
    pub x: usize,
    pub y: usize,
}

/// A grid of characters of fixed width and height. Cell `(0, 0)` is the top
/// left one, `x` counts columns and `y` counts rows.
pub struct CharBuffer {
    width: usize,
    height: usize,
    cells: Vec<char>,
}

/// Two cells of a grid that differ in a coordinate lie at different offsets
/// of its row-major storage.
proof fn lemma_offsets_differ(w: int, x1: int, y1: int, x2: int, y2: int)
    requires
        0 <= x1 < w,
        0 <= x2 < w,
        0 <= y1,
        0 <= y2,
        x1 != x2 || y1 != y2,
    ensures
        y1 * w + x1 != y2 * w + x2,
{
    if y1 < y2 {
        assert((y1 + 1) * w <= y2 * w) by (nonlinear_arith)
            requires
                y1 + 1 <= y2,
                w > 0,
        ;
        assert((y1 + 1) * w == y1 * w + w) by (nonlinear_arith);
    } else if y2 < y1 {
        assert((y2 + 1) * w <= y1 * w) by (nonlinear_arith)
            requires
                y2 + 1 <= y1,
                w > 0,
        ;
        assert((y2 + 1) * w == y2 * w + w) by (nonlinear_arith);
    }
}

/// A cell of the grid lies at an offset below `w * h`.
proof fn lemma_offset_in_range(w: int, h: int, x: int, y: int)
    requires
        0 <= x < w,
        0 <= y < h,
    ensures
        0 <= y * w <= y * w + x < w * h,
{
    assert(y * w >= 0) by (nonlinear_arith)
        requires
            y >= 0,
            w > 0,
    ;
    assert((y + 1) * w <= h * w) by (nonlinear_arith)
        requires
            y + 1 <= h,
            w > 0,
    ;
    assert((y + 1) * w == y * w + w) by (nonlinear_arith);
    assert(h * w == w * h) by (nonlinear_arith);
}

impl View for CharBuffer {
    type V = Seq<Seq<char>>;

    /// The rows of the grid from the top one down, each from its left end.
    closed spec fn view(&self) -> Seq<Seq<char>> {
        Seq::new(
            self.height as nat,
            |y: int| Seq::new(self.width as nat, |x: int| self.cells@[y * self.width + x]),
        )
    }
}

impl CharBuffer {
    /// The buffer holds exactly `width * height` cells, and at least one.
    pub closed spec fn wf(&self) -> bool {
        &&& self.width > 0
        &&& self.height > 0
        &&& self.width * self.height <= usize::MAX
        &&& self.cells@.len() == self.width * self.height
    }

    /// The number of columns.
    pub closed spec fn spec_width(&self) -> nat {
        self.width as nat
    }

    /// The number of rows.
    pub closed spec fn spec_height(&self) -> nat {
        self.height as nat
    }

    /// Whether `(x, y)` names a cell of the grid.
    pub open spec fn in_grid(&self, x: int, y: int) -> bool {
        0 <= x < self.spec_width() && 0 <= y < self.spec_height()
    }

    /// The character in column `x` of row `y`.
    pub closed spec fn cell(&self, x: int, y: int) -> char {
        self.cells@[y * self.width + x]
    }

    /// The view has one row for each row of the grid, each as long as the
    /// grid is wide, and holds the grid's cells.
    pub proof fn lemma_view(&self)
        ensures
            self@.len() == self.spec_height(),
            forall|y: int| 0 <= y < self.spec_height() ==> (#[trigger] self@[y]).len() == self.spec_width(),
            forall|x: int, y: int| self.in_grid(x, y) ==> self@[y][x] == #[trigger] self.cell(x, y),
    {
    }

    /// Two buffers that show the same picture have the same view.
    pub proof fn lemma_same_picture(&self, other: &CharBuffer)
        requires
            self.same_picture(other),
        ensures
            self@ == other@,
    {
        self.lemma_view();
        other.lemma_view();
        assert forall|y: int| 0 <= y < self@.len() implies self@[y] == other@[y] by {
            assert forall|x: int| 0 <= x < self@[y].len() implies self@[y][x] == other@[y][x] by {
                assert(self.in_grid(x, y));
                assert(other.in_grid(x, y));
                assert(self.cell(x, y) == other.cell(x, y));
            }
            assert(self@[y] =~= other@[y]);
        }
        assert(self@ =~= other@);
    }

    /// Two buffers of the same dimensions that show the same character in
    /// every cell.
    pub open spec fn same_picture(&self, other: &CharBuffer) -> bool {
        &&& self.spec_width() == other.spec_width()
        &&& self.spec_height() == other.spec_height()
        &&& forall|x: int, y: int|
            self.in_grid(x, y) ==> self.cell(x, y) == other.cell(x, y)
    }

    /// A buffer of the given dimensions with a blank in every cell.
    pub fn new(width: usize, height: usize) -> (buf: Self)
        requires
            0 < width,
            0 < height,
            width * height <= usize::MAX,
        ensures
            buf.wf(),
            buf.spec_width() == width,
            buf.spec_height() == height,
            forall|x: int, y: int| buf.in_grid(x, y) ==> buf.cell(x, y) == ' ',
    {
        let total: usize = width * height;
        let mut cells: Vec<char> = Vec::new();
        let mut i: usize = 0;
        while i < total
            invariant
                i <= total,
                cells@.len() == i,
                forall|k: int| 0 <= k < i ==> cells@[k] == ' ',
            decreases total - i,
        {
            cells.push(' ');
            i += 1;
        }
        let buf = CharBuffer { width, height, cells };
        proof {
            assert forall|x: int, y: int| buf.in_grid(x, y) implies buf.cell(x, y) == ' ' by {
                lemma_offset_in_range(width as int, height as int, x, y);
            }
        }
        buf
    }

    /// The number of columns.
    pub fn width(&self) -> (w: usize)
        ensures
            w == self.spec_width(),
    {
        self.width
    }

    /// The number of rows.
    pub fn height(&self) -> (h: usize)
        ensures
            h == self.spec_height(),
    {
        self.height
    }

    /// The character at `(x, y)`, or `None` where that is no cell of the grid.
    pub fn get_char(&self, x: usize, y: usize) -> (c: Option<char>)
        requires
            self.wf(),
        ensures
            c == if self.in_grid(x as int, y as int) {
                Some(self.cell(x as int, y as int))
            } else {
                None
            },
    {
        if x >= self.width || y >= self.height {
            return None;
        }
        proof {
            lemma_offset_in_range(self.width as int, self.height as int, x as int, y as int);
        }
        Some(self.cells[y * self.width + x])
    }

    /// Writes `c` into the cell at `(x, y)` and leaves every other cell as it
    /// was. A write outside the grid changes nothing and is reported.
    pub fn set_char(&mut self, x: usize, y: usize, c: char) -> (r: Result<(), OutOfBounds>)
        requires
            old(self).wf(),
        ensures
            final(self).wf(),
            final(self).spec_width() == old(self).spec_width(),
            final(self).spec_height() == old(self).spec_height(),
            r is Ok <==> old(self).in_grid(x as int, y as int),
            r is Err ==> r == Err::<(), OutOfBounds>(OutOfBounds { x, y }) && *final(self) == *old(
                self,
            ),
            r is Ok ==> forall|i: int, j: int|
                final(self).in_grid(i, j) ==> #[trigger] final(self).cell(i, j) == if i == x && j
                    == y {
                    c
                } else {
                    old(self).cell(i, j)
                },
    {
        if x >= self.width || y >= self.height {
            return Err(OutOfBounds { x, y });
        }
        proof {
            lemma_offset_in_range(self.width as int, self.height as int, x as int, y as int);
        }
        let at: usize = y * self.width + x;
        self.cells.set(at, c);
        proof {
            let w = self.width as int;
            assert forall|i: int, j: int| self.in_grid(i, j) implies #[trigger] self.cell(i, j)
                == if i == x && j == y {
                c
            } else {
                old(self).cell(i, j)
            } by {
                lemma_offset_in_range(w, self.height as int, i, j);
                if i != x || j != y {
                    lemma_offsets_differ(w, i, j, x as int, y as int);
                }
            }
        }
        Ok(())
    }

    /// Writes `c` into every cell.
    pub fn fill(&mut self, c: char)
        requires
            old(self).wf(),
        ensures
            final(self).wf(),
            final(self).spec_width() == old(self).spec_width(),
            final(self).spec_height() == old(self).spec_height(),
            forall|x: int, y: int| final(self).in_grid(x, y) ==> final(self).cell(x, y) == c,
    {
        let total: usize = self.cells.len();
        let mut i: usize = 0;
        while i < total
            invariant
                i <= total,
                self.cells@.len() == total,
                self.width == old(self).width,
                self.height == old(self).height,
                forall|k: int| 0 <= k < i ==> self.cells@[k] == c,
            decreases total - i,
        {
            self.cells.set(i, c);
            i += 1;
        }
        proof {
            assert forall|x: int, y: int| self.in_grid(x, y) implies self.cell(x, y) == c by {
                lemma_offset_in_range(self.width as int, self.height as int, x, y);
            }
        }
    }
}

} // verus!

//! The character grid a frame is painted into, and the patch algebra its
//! painting contracts are stated in.
//!
//! Every painting operation turns the grid's flat cell sequence `s` into
//! `overlay(s, p)` for a patch `p` (a partial map from flat index to cell)
//! that depends only on the operation's arguments, never on the old grid.
//! Whole frames then compose by `union_prefer_right`, and repainting the
//! same frame is provably a no-op.

use vstd::prelude::*;
use crate::style::{Cell, default_cell};

verus! {

/// A rectangular sub-area of the viewport.
#[derive(Clone, Copy, PartialEq, Eq, Structural, Debug)]
pub struct Region {
    pub x: u16,
    pub y: u16,
    pub width: u16,
    pub height: u16,
}

impl Region {
    pub open spec fn spec_bottom(self) -> int {
        if self.y + self.height <= u16::MAX {
            self.y + self.height
        } else {
            u16::MAX as int
        }
    }

    pub fn new(x: u16, y: u16, width: u16, height: u16) -> (r: Region)
        ensures
            r == (Region { x, y, width, height }),
    {
        Region { x, y, width, height }
    }

    /// The first y-coordinate below the region, saturating at the largest
    /// representable coordinate.
    pub fn bottom(&self) -> (r: u16)
        ensures
            r == self.spec_bottom(),
    {
        if self.height <= u16::MAX - self.y {
            self.y + self.height
        } else {
            u16::MAX
        }
    }
}

pub open spec fn min3(a: int, b: int, c: int) -> int {
    if a <= b && a <= c {
        a
    } else if b <= c {
        b
    } else {
        c
    }
}

/// How many cells a horizontal write of `len` cells at `(x, y)`, capped at
/// `maxw`, actually covers on a `w` by `h` grid: writes clip at the grid's
/// right edge and vanish entirely off-grid.
pub open spec fn clipped_len(w: int, h: int, x: int, y: int, len: int, maxw: int) -> int {
    if 0 <= y < h && 0 <= x < w && len >= 0 && maxw >= 0 {
        min3(len, maxw, w - x)
    } else {
        0
    }
}

/// The patch a horizontal write of `text` at `(x, y)` makes, capped at `maxw`.
pub open spec fn text_patch(w: int, h: int, x: int, y: int, text: Seq<Cell>, maxw: int) -> Map<
    int,
    Cell,
> {
    let base = y * w + x;
    let n = clipped_len(w, h, x, y, text.len() as int, maxw);
    Map::new(|i: int| base <= i < base + n, |i: int| text[i - base])
}

/// The patch a horizontal run of `len` copies of `c` at `(x, y)` makes.
pub open spec fn hline_patch(w: int, h: int, x: int, y: int, len: int, c: Cell) -> Map<int, Cell> {
    let base = y * w + x;
    let n = clipped_len(w, h, x, y, len, len);
    Map::new(|i: int| base <= i < base + n, |i: int| c)
}

/// The patch a vertical run of `len` copies of `c` at `(x, y)` makes.
pub open spec fn vline_patch(w: int, h: int, x: int, y: int, len: int, c: Cell) -> Map<int, Cell> {
    Map::new(
        |i: int|
            0 <= x < w && exists|j: int|
                0 <= j < len && y + j < h && 0 <= y + j && i == #[trigger] ((y + j) * w) + x,
        |i: int| c,
    )
}

/// The patch writing the single cell `c` at `(x, y)` makes.
pub open spec fn cell_patch(w: int, h: int, x: int, y: int, c: Cell) -> Map<int, Cell> {
    hline_patch(w, h, x, y, 1, c)
}

/// `s` with every index in `p`'s domain replaced by `p`'s cell.
pub open spec fn overlay(s: Seq<Cell>, p: Map<int, Cell>) -> Seq<Cell> {
    Seq::new(s.len(), |i: int| if p.dom().contains(i) { p[i] } else { s[i] })
}

pub proof fn lemma_overlay_empty(s: Seq<Cell>)
    ensures
        overlay(s, Map::empty()) == s,
{
    assert(overlay(s, Map::empty()) =~= s);
}

/// Two successive overlays collapse into one with the right-biased union.
pub proof fn lemma_overlay_overlay(s: Seq<Cell>, p: Map<int, Cell>, q: Map<int, Cell>)
    ensures
        overlay(overlay(s, p), q) == overlay(s, p.union_prefer_right(q)),
{
    assert(overlay(overlay(s, p), q) =~= overlay(s, p.union_prefer_right(q)));
}

/// Right-biased map union is associative.
pub proof fn lemma_union_assoc(a: Map<int, Cell>, b: Map<int, Cell>, c: Map<int, Cell>)
    ensures
        a.union_prefer_right(b).union_prefer_right(c) == a.union_prefer_right(
            b.union_prefer_right(c),
        ),
{
    assert(a.union_prefer_right(b).union_prefer_right(c) =~= a.union_prefer_right(
        b.union_prefer_right(c),
    ));
}

/// Law: applying the same patch twice is the same as applying it once; with
/// every frame a single patch of its inputs, repainting a frame changes
/// nothing.
pub proof fn lemma_overlay_idempotent(s: Seq<Cell>, p: Map<int, Cell>)
    ensures
        overlay(overlay(s, p), p) == overlay(s, p),
{
    assert(overlay(overlay(s, p), p) =~= overlay(s, p));
}

/// A 2-D character surface addressed by `(x, y)`; writing past its bounds is
/// clipped, never a fault.
pub struct Grid {
    pub width: u16,
    pub height: u16,
    pub cells: Vec<Cell>,
}

impl Grid {
    /// The one shape invariant: a cell for every coordinate, row-major.
    pub open spec fn wf(self) -> bool {
        self.cells@.len() == self.width as int * self.height as int
    }

    pub open spec fn spec_index(self, x: int, y: int) -> Cell {
        self.cells@[y * self.width as int + x]
    }

    /// A fresh grid of blank cells.
    pub fn new(width: u16, height: u16) -> (r: Grid)
        ensures
            r.wf(),
            r.width == width,
            r.height == height,
            forall|i: int| 0 <= i < r.cells@.len() ==> r.cells@[i] == default_cell(),
    {
        proof {
            lemma_grid_mul_bound(width as int, height as int);
        }
        let n: usize = (width as usize) * (height as usize);
        let mut cells: Vec<Cell> = Vec::new();
        let mut k: usize = 0;
        while k < n
            invariant
                k <= n,
                cells@.len() == k,
                forall|i: int| 0 <= i < k ==> cells@[i] == default_cell(),
            decreases n - k,
        {
            cells.push(Cell::blank());
            k = k + 1;
        }
        Grid { width, height, cells }
    }

    /// Read one cell; out-of-bounds coordinates read as a blank.
    pub fn get(&self, x: u16, y: u16) -> (r: Cell)
        requires
            self.wf(),
        ensures
            x < self.width && y < self.height ==> r == self.spec_index(x as int, y as int),
            !(x < self.width && y < self.height) ==> r == default_cell(),
    {
        if x < self.width && y < self.height {
            proof {
                lemma_flat_index_bound(self.width as int, self.height as int, x as int, y as int);
                lemma_grid_mul_bound(self.width as int, self.height as int);
            }
            self.cells[(y as usize) * (self.width as usize) + (x as usize)]
        } else {
            Cell::blank()
        }
    }
}

/// A grid's cell count fits comfortably in a machine word.
proof fn lemma_grid_mul_bound(w: int, h: int)
    requires
        0 <= w <= 0xFFFF,
        0 <= h <= 0xFFFF,
    ensures
        w * h <= 0xFFFE0001,
{
    assert(w * h <= 0xFFFE0001) by (nonlinear_arith)
        requires
            0 <= w <= 0xFFFF,
            0 <= h <= 0xFFFF,
    ;
}

/// In-bounds coordinates flatten to an in-bounds index.
proof fn lemma_flat_index_bound(w: int, h: int, x: int, y: int)
    requires
        0 <= x < w,
        0 <= y < h,
    ensures
        0 <= y * w + x < w * h,
{
    assert(0 <= y * w + x < w * h) by (nonlinear_arith)
        requires
            0 <= x < w,
            0 <= y < h,
    ;
}

impl Grid {
    /// Write `text` left to right starting at `(x, y)`, at most `max_width`
    /// cells, clipped at the grid's right edge.
    pub fn paint_text(&mut self, x: u16, y: u16, text: &Vec<Cell>, max_width: u16)
        requires
            old(self).wf(),
        ensures
            final(self).wf(),
            final(self).width == old(self).width,
            final(self).height == old(self).height,
            final(self).cells@ == overlay(
                old(self).cells@,
                text_patch(
                    old(self).width as int,
                    old(self).height as int,
                    x as int,
                    y as int,
                    text@,
                    max_width as int,
                ),
            ),
    {
        let w = self.width;
        let h = self.height;
        let ghost p = text_patch(w as int, h as int, x as int, y as int, text@, max_width as int);
        if y >= h || x >= w {
            proof {
                assert(self.cells@ =~= overlay(old(self).cells@, p));
            }
            return ;
        }
        let mut n: usize = text.len();
        if (max_width as usize) < n {
            n = max_width as usize;
        }
        if ((w - x) as usize) < n {
            n = (w - x) as usize;
        }
        proof {
            lemma_flat_index_bound(w as int, h as int, x as int, y as int);
            lemma_grid_mul_bound(w as int, h as int);
        }
        let base: usize = (y as usize) * (w as usize) + (x as usize);
        let ghost s0 = self.cells@;
        let mut j: usize = 0;
        while j < n
            invariant
                j <= n,
                n == clipped_len(w as int, h as int, x as int, y as int, text@.len() as int, max_width as int),
                n <= text@.len(),
                base == y as int * w as int + x as int,
                0 <= y < h,
                0 <= x < w,
                n <= w - x,
                self.width == w,
                self.height == h,
                self.cells@.len() == s0.len(),
                s0.len() == w as int * h as int,
                forall|i: int|
                    0 <= i < s0.len() && !(base <= i < base + j) ==> self.cells@[i] == s0[i],
                forall|jj: int| 0 <= jj < j ==> self.cells@[base + jj] == text@[jj],
            decreases n - j,
        {
            proof {
                lemma_flat_index_bound(w as int, h as int, x as int + j, y as int);
                lemma_grid_mul_bound(w as int, h as int);
            }
            self.cells.set(base + j, text[j]);
            j = j + 1;
        }
        proof {
            assert(self.cells@ =~= overlay(s0, p));
        }
    }

    /// Write `len` copies of `c` left to right starting at `(x, y)`.
    pub fn paint_hline(&mut self, x: u16, y: u16, len: u16, c: Cell)
        requires
            old(self).wf(),
        ensures
            final(self).wf(),
            final(self).width == old(self).width,
            final(self).height == old(self).height,
            final(self).cells@ == overlay(
                old(self).cells@,
                hline_patch(
                    old(self).width as int,
                    old(self).height as int,
                    x as int,
                    y as int,
                    len as int,
                    c,
                ),
            ),
    {
        let w = self.width;
        let h = self.height;
        let ghost p = hline_patch(w as int, h as int, x as int, y as int, len as int, c);
        if y >= h || x >= w {
            proof {
                assert(self.cells@ =~= overlay(old(self).cells@, p));
            }
            return ;
        }
        let mut n: usize = len as usize;
        if ((w - x) as usize) < n {
            n = (w - x) as usize;
        }
        proof {
            lemma_flat_index_bound(w as int, h as int, x as int, y as int);
            lemma_grid_mul_bound(w as int, h as int);
        }
        let base: usize = (y as usize) * (w as usize) + (x as usize);
        let ghost s0 = self.cells@;
        let mut j: usize = 0;
        while j < n
            invariant
                j <= n,
                n == clipped_len(w as int, h as int, x as int, y as int, len as int, len as int),
                base == y as int * w as int + x as int,
                0 <= y < h,
                0 <= x < w,
                n <= w - x,
                self.width == w,
                self.height == h,
                self.cells@.len() == s0.len(),
                s0.len() == w as int * h as int,
                forall|i: int|
                    0 <= i < s0.len() && !(base <= i < base + j) ==> self.cells@[i] == s0[i],
                forall|jj: int| 0 <= jj < j ==> #[trigger] self.cells@[base + jj] == c,
            decreases n - j,
        {
            proof {
                lemma_flat_index_bound(w as int, h as int, x as int + j, y as int);
                lemma_grid_mul_bound(w as int, h as int);
            }
            self.cells.set(base + j, c);
            j = j + 1;
        }
        proof {
            assert forall|i: int| 0 <= i < s0.len() implies self.cells@[i] == overlay(s0, p)[i] by {
                if base <= i < base + n {
                    let jj = i - base;
                    assert(self.cells@[base + jj] == c);
                }
            }
            assert(self.cells@ =~= overlay(s0, p));
        }
    }

    /// Write `len` copies of `c` top to bottom starting at `(x, y)`.
    pub fn paint_vline(&mut self, x: u16, y: u16, len: u16, c: Cell)
        requires
            old(self).wf(),
        ensures
            final(self).wf(),
            final(self).width == old(self).width,
            final(self).height == old(self).height,
            final(self).cells@ == overlay(
                old(self).cells@,
                vline_patch(
                    old(self).width as int,
                    old(self).height as int,
                    x as int,
                    y as int,
                    len as int,
                    c,
                ),
            ),
    {
        let w = self.width;
        let h = self.height;
        let ghost p = vline_patch(w as int, h as int, x as int, y as int, len as int, c);
        if x >= w {
            proof {
                assert(self.cells@ =~= overlay(old(self).cells@, p));
            }
            return ;
        }
        let mut n: usize = len as usize;
        if y >= h {
            n = 0;
        } else if ((h - y) as usize) < n {
            n = (h - y) as usize;
        }
        let ghost s0 = self.cells@;
        let mut j: usize = 0;
        while j < n
            invariant
                j <= n,
                n <= len,
                y + n <= h || n == 0,
                n == if y >= h { 0 } else { min3(len as int, len as int, h as int - y as int) },
                0 <= x < w,
                self.width == w,
                self.height == h,
                self.cells@.len() == s0.len(),
                s0.len() == w as int * h as int,
                forall|i: int|
                    0 <= i < s0.len() && !(exists|jj: int|
                        0 <= jj < j && i == #[trigger] ((y + jj) * (w as int)) + x) ==> self.cells@[i] == s0[i],
                forall|jj: int|
                    0 <= jj < j ==> #[trigger] self.cells@[(y + jj) * (w as int) + x as int] == c,
            decreases n - j,
        {
            proof {
                lemma_flat_index_bound(w as int, h as int, x as int, y as int + j);
                lemma_grid_mul_bound(w as int, h as int);
            }
            let idx: usize = ((y as usize) + j) * (w as usize) + (x as usize);
            self.cells.set(idx, c);
            let ghost j0 = j;
            j = j + 1;
            proof {
                assert forall|jj: int| 0 <= jj < j implies #[trigger] self.cells@[(y + jj) * (
                w as int) + x as int] == c by {
                    if jj < j0 {
                        assert((y + jj) * (w as int) < (y + j0) * (w as int)) by (nonlinear_arith)
                            requires
                                0 <= y,
                                0 <= jj < j0,
                                w >= 1,
                        ;
                        assert(self.cells@[(y + jj) * (w as int) + x as int] == c);
                    }
                }
            }
        }
        proof {
            assert forall|i: int| 0 <= i < s0.len() implies overlay(s0, p)[i] == self.cells@[i] by {
                if p.dom().contains(i) {
                    let jj = choose|jj: int|
                        0 <= jj < len && y + jj < h && 0 <= y + jj && i == #[trigger] ((y + jj) * (
                        w as int)) + x;
                    assert(jj < n);
                    assert(jj < j);
                    assert(self.cells@[(y + jj) * (w as int) + x as int] == c);
                } else {
                    assert forall|jj: int| !(0 <= jj < j && i == #[trigger] ((y + jj) * (
                    w as int)) + x) by {
                        if 0 <= jj < j && i == (y + jj) * (w as int) + x {
                            assert(jj < n);
                            assert(0 <= jj < len as int && y + jj < h && 0 <= y + jj && i == (y + jj)
                                * (w as int) + x);
                        }
                    }
                }
            }
            assert(self.cells@ =~= overlay(s0, p));
        }
    }

    /// Write the single cell `c` at `(x, y)`.
    pub fn paint_cell(&mut self, x: u16, y: u16, c: Cell)
        requires
            old(self).wf(),
        ensures
            final(self).wf(),
            final(self).width == old(self).width,
            final(self).height == old(self).height,
            final(self).cells@ == overlay(
                old(self).cells@,
                cell_patch(old(self).width as int, old(self).height as int, x as int, y as int, c),
            ),
    {
        self.paint_hline(x, y, 1, c);
    }
}

} // verus!

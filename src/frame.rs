use vstd::prelude::*;
use crate::cell::{Cell, Style, styled};
use crate::surface::Canvas;

verus! {

/// A `(x, y)` position: column, then row.
pub type Pos = (usize, usize);

/// A `(cols, rows)` extent.
pub type Size = (usize, usize);

/// `a - b`, or zero where `b` exceeds `a`.
pub open spec fn sat_sub(a: usize, b: usize) -> usize {
    if a >= b {
        (a - b) as usize
    } else {
        0
    }
}

/// `a + b`, or `usize::MAX` where the sum does not fit.
pub open spec fn sat_add(a: usize, b: usize) -> usize {
    if a + b <= usize::MAX {
        (a + b) as usize
    } else {
        usize::MAX
    }
}

pub open spec fn min_usize(a: usize, b: usize) -> usize {
    if a <= b {
        a
    } else {
        b
    }
}

/// One nested coordinate scope: the absolute position of its origin and the
/// extent that may be drawn on from there.
#[derive(Clone, Copy, Debug)]
pub struct Frame {
    pub translation: Pos,
    pub size: Size,
}

impl Frame {
    /// The frame with `d` taken off its size on each axis, never below zero.
    pub open spec fn shrunk(self, d: Size) -> Frame {
        Frame {
            translation: self.translation,
            size: (sat_sub(self.size.0, d.0), sat_sub(self.size.1, d.1)),
        }
    }

    /// The frame moved by `d`: it shrinks by `d`, since its far corner stays
    /// where it was, and its origin advances by `d` (saturating).
    pub open spec fn translated(self, d: Pos) -> Frame {
        Frame {
            translation: (sat_add(self.translation.0, d.0), sat_add(self.translation.1, d.1)),
            size: self.shrunk(d).size,
        }
    }

    /// The frame narrowed to at most `s` on each axis.
    pub open spec fn clipped(self, s: Size) -> Frame {
        Frame {
            translation: self.translation,
            size: (min_usize(self.size.0, s.0), min_usize(self.size.1, s.1)),
        }
    }

    /// On each axis the frame is empty or lies inside `cols` x `rows`.
    pub open spec fn fits(self, cols: nat, rows: nat) -> bool {
        &&& (self.size.0 == 0 || self.translation.0 + self.size.0 <= cols)
        &&& (self.size.1 == 0 || self.translation.1 + self.size.1 <= rows)
    }

    /// The frame is nowhere larger than `outer`.
    pub open spec fn within(self, outer: Frame) -> bool {
        self.size.0 <= outer.size.0 && self.size.1 <= outer.size.1
    }

    /// Absolute column `x`, row `y` lies in the frame's area.
    pub open spec fn covers(self, x: int, y: int) -> bool {
        &&& self.translation.0 <= x < self.translation.0 + self.size.0
        &&& self.translation.1 <= y < self.translation.1 + self.size.1
    }
}

impl Canvas {
    /// Where local point `p` of frame `f` lands on the canvas: `None` when it
    /// lies outside the frame's extent, or outside the canvas once translated.
    pub open spec fn resolve(self, f: Frame, p: (int, int)) -> Option<(int, int)> {
        if 0 <= p.0 < f.size.0 && 0 <= p.1 < f.size.1 && p.0 + f.translation.0 < self.cols
            && p.1 + f.translation.1 < self.rows {
            Some((p.0 + f.translation.0, p.1 + f.translation.1))
        } else {
            None
        }
    }

    /// The canvas after writing `c` at local point `p` of `f`; a write that
    /// does not resolve changes nothing.
    pub open spec fn put(self, f: Frame, p: (int, int), c: Cell) -> Canvas {
        match self.resolve(f, p) {
            Some(q) => self.with_cell(q.0, q.1, c),
            None => self,
        }
    }

    /// The canvas with every cell of `f`'s area replaced by `c`.
    pub open spec fn fill(self, f: Frame, c: Cell) -> Canvas {
        Canvas {
            cells: Seq::new(
                self.rows,
                |y: int| Seq::new(self.cols, |x: int| if f.covers(x, y) { c } else { self.cells[y][x] }),
            ),
            ..self
        }
    }

    /// The canvas after writing `c` at each point of `pts` in turn.
    pub open spec fn plot(self, f: Frame, pts: Seq<(isize, isize)>, c: Cell) -> Canvas
        decreases pts.len(),
    {
        if pts.len() == 0 {
            self
        } else {
            let p = pts.last();
            self.plot(f, pts.drop_last(), c).put(f, (p.0 as int, p.1 as int), c)
        }
    }

    /// The canvas after writing the characters of `chars` in `style` at
    /// consecutive columns from `start`, each resolved on its own.
    pub open spec fn text(self, f: Frame, start: Pos, chars: Seq<char>, style: Style) -> Canvas
        decreases chars.len(),
    {
        if chars.len() == 0 {
            self
        } else {
            let i = chars.len() - 1;
            self.text(f, start, chars.drop_last(), style).put(
                f,
                (start.0 + i, start.1 as int),
                styled(chars.last(), style),
            )
        }
    }
}

/// Writing keeps a canvas well formed and its shape unchanged.
pub proof fn lemma_put_wf(cv: Canvas, f: Frame, p: (int, int), c: Cell)
    requires
        cv.wf(),
    ensures
        cv.put(f, p, c).wf(),
        cv.put(f, p, c).cols == cv.cols,
        cv.put(f, p, c).rows == cv.rows,
{
}

pub proof fn lemma_plot_wf(cv: Canvas, f: Frame, pts: Seq<(isize, isize)>, c: Cell)
    requires
        cv.wf(),
    ensures
        cv.plot(f, pts, c).wf(),
        cv.plot(f, pts, c).cols == cv.cols,
        cv.plot(f, pts, c).rows == cv.rows,
    decreases pts.len(),
{
    if pts.len() > 0 {
        lemma_plot_wf(cv, f, pts.drop_last(), c);
    }
}

pub proof fn lemma_text_wf(cv: Canvas, f: Frame, start: Pos, chars: Seq<char>, style: Style)
    requires
        cv.wf(),
    ensures
        cv.text(f, start, chars, style).wf(),
        cv.text(f, start, chars, style).cols == cv.cols,
        cv.text(f, start, chars, style).rows == cv.rows,
    decreases chars.len(),
{
    if chars.len() > 0 {
        lemma_text_wf(cv, f, start, chars.drop_last(), style);
    }
}

pub proof fn lemma_fill_wf(cv: Canvas, f: Frame, c: Cell)
    requires
        cv.wf(),
    ensures
        cv.fill(f, c).wf(),
        cv.fill(f, c).cols == cv.cols,
        cv.fill(f, c).rows == cv.rows,
{
}

} // verus!

use vstd::prelude::*;
use crate::cell::{Cell, Style};
use crate::frame::{Frame, Pos, Size, lemma_fill_wf};
use crate::surface::lemma_same_cells_eq;
use crate::surface::{Canvas, Surface};

verus! {

/// The points that `bresenham::Bresenham` yields for the line from `start`
/// to `end`.
pub uninterp spec fn bresenham_points(start: (isize, isize), end: (isize, isize)) -> Seq<(isize, isize)>;

/// Relies on `bresenham::Bresenham::new` and its iterator: the rasterized
/// points of the line from `start` towards `end`, which start with `start`
/// unless the two are equal. With non-negative coordinates its arithmetic
/// stays within `isize`.
#[verifier::external_body]
fn line_points(start: (isize, isize), end: (isize, isize)) -> (r: Vec<(isize, isize)>)
    requires
        0 <= start.0,
        0 <= start.1,
        0 <= end.0,
        0 <= end.1,
    ensures
        r@ == bresenham_points(start, end),
        start != end ==> r@.len() > 0 && r@[0] == start,
{
    bresenham::Bresenham::new(start, end).collect()
}

/// A stack of frames over a surface. The top frame is the current one: all
/// drawing goes through it, in its local coordinates.
pub struct DrawingContext {
    states: Vec<Frame>,
    surface: Surface,
}

impl DrawingContext {
    /// The frames, root first and current last.
    pub closed spec fn frames(&self) -> Seq<Frame> {
        self.states@
    }

    /// What the surface holds.
    pub closed spec fn canvas(&self) -> Canvas {
        self.surface@
    }

    pub open spec fn top(&self) -> Frame {
        self.frames().last()
    }

    /// At least the root frame; each frame is empty or inside the surface on
    /// each axis; and going up the stack sizes never grow.
    pub open spec fn wf(&self) -> bool {
        &&& self.frames().len() >= 1
        &&& self.canvas().wf()
        &&& self.canvas().cols <= isize::MAX
        &&& self.canvas().rows <= isize::MAX
        &&& forall|i: int|
            0 <= i < self.frames().len() ==> (#[trigger] self.frames()[i]).fits(
                self.canvas().cols,
                self.canvas().rows,
            )
        &&& forall|i: int|
            0 < i < self.frames().len() ==> (#[trigger] self.frames()[i]).within(self.frames()[i - 1])
    }

    /// A context over `surface` whose only frame covers all of it.
    pub fn new(surface: Surface) -> (r: DrawingContext)
        requires
            surface.wf(),
        ensures
            r.wf(),
            r.frames() == seq![
                Frame { translation: (0, 0), size: (surface@.cols as usize, surface@.rows as usize) },
            ],
            r.canvas() == surface@,
    {
        let cols = surface.cols();
        let rows = surface.rows();
        let root = Frame { translation: (0, 0), size: (cols, rows) };
        let states = vec![root];
        DrawingContext { states, surface }
    }

    /// The surface, to be presented once drawing is done.
    pub fn into_surface(self) -> (r: Surface)
        requires
            self.wf(),
        ensures
            r.wf(),
            r@ == self.canvas(),
    {
        self.surface
    }

    pub fn surface(&self) -> (r: &Surface)
        requires
            self.wf(),
        ensures
            r.wf(),
            r@ == self.canvas(),
    {
        &self.surface
    }

    /// The absolute position of the current frame's origin.
    pub fn translation(&self) -> (r: Pos)
        requires
            self.wf(),
        ensures
            r == self.top().translation,
    {
        self.states[self.states.len() - 1].translation
    }

    /// The extent of the current frame.
    pub fn size(&self) -> (r: Size)
        requires
            self.wf(),
        ensures
            r == self.top().size,
    {
        self.states[self.states.len() - 1].size
    }

    proof fn lemma_replace_top(&self, f: Frame, next: Seq<Frame>)
        requires
            self.wf(),
            f.fits(self.canvas().cols, self.canvas().rows),
            f.within(self.top()),
            next == self.frames().update(self.frames().len() - 1, f),
        ensures
            forall|i: int| 0 <= i < next.len() ==> (#[trigger] next[i]).fits(
                self.canvas().cols,
                self.canvas().rows,
            ),
            forall|i: int| 0 < i < next.len() ==> (#[trigger] next[i]).within(next[i - 1]),
    {
        let n = self.frames().len();
        assert forall|i: int| 0 < i < next.len() implies (#[trigger] next[i]).within(next[i - 1]) by {
            if i == n - 1 {
                assert(self.frames()[i].within(self.frames()[i - 1]));
            } else {
                assert(self.frames()[i].within(self.frames()[i - 1]));
            }
        }
    }

    /// Replaces the current frame by `f`, which must be narrower.
    fn set_top(&mut self, f: Frame)
        requires
            old(self).wf(),
            f.fits(old(self).canvas().cols, old(self).canvas().rows),
            f.within(old(self).top()),
        ensures
            final(self).wf(),
            final(self).frames() == old(self).frames().update(old(self).frames().len() - 1, f),
            final(self).canvas() == old(self).canvas(),
    {
        let last = self.states.len() - 1;
        proof {
            self.lemma_replace_top(f, self.states@.update(last as int, f));
        }
        self.states.set(last, f);
    }

    /// Moves the current frame's origin by `p`, consuming as much of its size.
    pub fn translate(&mut self, p: Pos)
        requires
            old(self).wf(),
        ensures
            final(self).wf(),
            final(self).frames() == old(self).frames().update(
                old(self).frames().len() - 1,
                old(self).top().translated(p),
            ),
            final(self).canvas() == old(self).canvas(),
    {
        let cur = self.states[self.states.len() - 1];
        let w = cur.size.0.saturating_sub(p.0);
        let h = cur.size.1.saturating_sub(p.1);
        let tx = cur.translation.0.saturating_add(p.0);
        let ty = cur.translation.1.saturating_add(p.1);
        let next = Frame { translation: (tx, ty), size: (w, h) };
        self.set_top(next);
    }

    /// Takes `s` off the current frame's size on each axis, never below zero.
    pub fn shrink(&mut self, s: Size)
        requires
            old(self).wf(),
        ensures
            final(self).wf(),
            final(self).frames() == old(self).frames().update(
                old(self).frames().len() - 1,
                old(self).top().shrunk(s),
            ),
            final(self).canvas() == old(self).canvas(),
    {
        let cur = self.states[self.states.len() - 1];
        let w = cur.size.0.saturating_sub(s.0);
        let h = cur.size.1.saturating_sub(s.1);
        self.set_top(Frame { translation: cur.translation, size: (w, h) });
    }

    /// Narrows the current frame to at most `s` on each axis.
    pub fn clip(&mut self, s: Size)
        requires
            old(self).wf(),
        ensures
            final(self).wf(),
            final(self).frames() == old(self).frames().update(
                old(self).frames().len() - 1,
                old(self).top().clipped(s),
            ),
            final(self).canvas() == old(self).canvas(),
    {
        let cur = self.states[self.states.len() - 1];
        let w = if cur.size.0 <= s.0 {
            cur.size.0
        } else {
            s.0
        };
        let h = if cur.size.1 <= s.1 {
            cur.size.1
        } else {
            s.1
        };
        self.set_top(Frame { translation: cur.translation, size: (w, h) });
    }

    /// The absolute position of local point `p`, or `None` where it lies
    /// outside the current frame or off the surface.
    pub fn transform(&self, p: Pos) -> (r: Option<Pos>)
        requires
            self.wf(),
        ensures
            r matches Some(q) ==> self.canvas().resolve(self.top(), (p.0 as int, p.1 as int))
                == Some((q.0 as int, q.1 as int)),
            r is None ==> self.canvas().resolve(self.top(), (p.0 as int, p.1 as int)) is None,
    {
        let cur = self.states[self.states.len() - 1];
        proof {
            assert(self.frames()[self.frames().len() - 1].fits(self.canvas().cols, self.canvas().rows));
        }
        if p.0 >= cur.size.0 || p.1 >= cur.size.1 {
            return None;
        }
        let x = p.0 + cur.translation.0;
        let y = p.1 + cur.translation.1;
        if x < self.surface.cols() && y < self.surface.rows() {
            Some((x, y))
        } else {
            None
        }
    }

    /// Pushes a copy of the current frame.
    pub fn save(&mut self)
        requires
            old(self).wf(),
        ensures
            final(self).wf(),
            final(self).frames() == old(self).frames().push(old(self).top()),
            final(self).canvas() == old(self).canvas(),
    {
        let cur = self.states[self.states.len() - 1];
        self.states.push(cur);
        proof {
            let n = old(self).frames().len();
            assert(self.frames()[n as int] == self.frames()[n - 1]);
            assert forall|i: int| 0 < i < self.frames().len() implies (#[trigger] self.frames()[i]).within(
                self.frames()[i - 1],
            ) by {
                if i < n {
                    assert(old(self).frames()[i].within(old(self).frames()[i - 1]));
                }
            }
            assert forall|i: int| 0 <= i < self.frames().len() implies (#[trigger] self.frames()[i]).fits(
                self.canvas().cols,
                self.canvas().rows,
            ) by {
                if i < n {
                    assert(old(self).frames()[i].fits(self.canvas().cols, self.canvas().rows));
                } else {
                    assert(old(self).frames()[n - 1].fits(self.canvas().cols, self.canvas().rows));
                }
            }
        }
    }

    /// Pops the current frame, going back to the one saved before it. The
    /// root frame is never popped.
    pub fn restore(&mut self)
        requires
            old(self).wf(),
            old(self).frames().len() >= 2,
        ensures
            final(self).wf(),
            final(self).frames() == old(self).frames().drop_last(),
            final(self).canvas() == old(self).canvas(),
    {
        self.states.pop();
        proof {
            assert(self.frames() =~= old(self).frames().drop_last());
            assert forall|i: int| 0 < i < self.frames().len() implies (#[trigger] self.frames()[i]).within(
                self.frames()[i - 1],
            ) by {
                assert(old(self).frames()[i].within(old(self).frames()[i - 1]));
            }
            assert forall|i: int| 0 <= i < self.frames().len() implies (#[trigger] self.frames()[i]).fits(
                self.canvas().cols,
                self.canvas().rows,
            ) by {
                assert(old(self).frames()[i].fits(self.canvas().cols, self.canvas().rows));
            }
        }
    }

    /// The cell at local point `p`, or `None` where `p` does not resolve.
    pub fn get_cell(&self, p: Pos) -> (r: Option<Cell>)
        requires
            self.wf(),
        ensures
            r == (match self.canvas().resolve(self.top(), (p.0 as int, p.1 as int)) {
                Some(q) => Some(self.canvas().at(q.0, q.1)),
                None => None,
            }),
    {
        match self.transform(p) {
            Some(q) => self.surface.get(q.0, q.1),
            None => None,
        }
    }

    /// The cell at local point `p`, to be changed in place, or `None` where
    /// `p` does not resolve. Only that cell can change.
    pub fn get_mut_cell(&mut self, p: Pos) -> (r: Option<&mut Cell>)
        requires
            old(self).wf(),
        ensures
            match r {
                Some(c) => {
                    &&& old(self).canvas().resolve(old(self).top(), (p.0 as int, p.1 as int)) matches Some(q)
                    &&& *c == old(self).canvas().at(q.0, q.1)
                    &&& final(self).wf()
                    &&& final(self).frames() == old(self).frames()
                    &&& final(self).canvas().same_cells(old(self).canvas().with_cell(q.0, q.1, *final(c)))
                },
                None => {
                    &&& old(self).canvas().resolve(old(self).top(), (p.0 as int, p.1 as int)) is None
                    &&& *final(self) == *old(self)
                },
            },
    {
        match self.transform(p) {
            Some(q) => Some(self.surface.get_mut(q.0, q.1)),
            None => None,
        }
    }

    /// Writes `cell` at local point `p`; a point that does not resolve is
    /// silently skipped.
    pub fn set_cell(&mut self, p: Pos, cell: Cell)
        requires
            old(self).wf(),
        ensures
            final(self).wf(),
            final(self).frames() == old(self).frames(),
            final(self).canvas() == old(self).canvas().put(old(self).top(), (p.0 as int, p.1 as int), cell),
    {
        match self.transform(p) {
            Some(q) => {
                self.surface.set(q.0, q.1, cell);
            },
            None => {},
        }
    }

    /// Writes `cell` over the whole current frame.
    pub fn fill(&mut self, cell: Cell)
        requires
            old(self).wf(),
        ensures
            final(self).wf(),
            final(self).frames() == old(self).frames(),
            final(self).canvas() == old(self).canvas().fill(old(self).top(), cell),
    {
        let (w, h) = self.size();
        let (x0, y0) = self.translation();
        let ghost f = self.top();
        let ghost start = self.canvas();
        proof {
            assert(self.frames()[self.frames().len() - 1].fits(start.cols, start.rows));
        }
        if w == 0 || h == 0 {
            proof {
                lemma_fill_wf(start, f, cell);
                lemma_same_cells_eq(start, start.fill(f, cell));
            }
            return;
        }
        let mut y: usize = y0;
        while y < y0 + h
            invariant
                self.wf(),
                self.frames() == old(self).frames(),
                f == self.top(),
                start == old(self).canvas(),
                w == f.size.0,
                h == f.size.1,
                x0 == f.translation.0,
                y0 == f.translation.1,
                w > 0,
                h > 0,
                x0 + w <= start.cols,
                y0 + h <= start.rows,
                y0 <= y <= y0 + h,
                self.canvas().cols == start.cols,
                self.canvas().rows == start.rows,
                forall|xx: int, yy: int|
                    start.in_bounds(xx, yy) ==> #[trigger] self.canvas().at(xx, yy) == if f.covers(xx, yy)
                        && yy < y {
                        cell
                    } else {
                        start.at(xx, yy)
                    },
            decreases y0 + h - y,
        {
            let mut x: usize = x0;
            while x < x0 + w
                invariant
                    self.wf(),
                    self.frames() == old(self).frames(),
                    f == self.top(),
                    start == old(self).canvas(),
                    w == f.size.0,
                    h == f.size.1,
                    x0 == f.translation.0,
                    y0 == f.translation.1,
                    x0 + w <= start.cols,
                    y0 + h <= start.rows,
                    y0 <= y < y0 + h,
                    x0 <= x <= x0 + w,
                    self.canvas().cols == start.cols,
                    self.canvas().rows == start.rows,
                    forall|xx: int, yy: int|
                        start.in_bounds(xx, yy) ==> #[trigger] self.canvas().at(xx, yy) == if f.covers(
                            xx,
                            yy,
                        ) && (yy < y || (yy == y && xx < x)) {
                            cell
                        } else {
                            start.at(xx, yy)
                        },
                decreases x0 + w - x,
            {
                let ghost before = self.canvas();
                self.surface.set(x, y, cell);
                proof {
                    assert forall|xx: int, yy: int| start.in_bounds(xx, yy) implies #[trigger] self.canvas().at(
                        xx,
                        yy,
                    ) == if f.covers(xx, yy) && (yy < y || (yy == y && xx < x + 1)) {
                        cell
                    } else {
                        start.at(xx, yy)
                    } by {
                        assert(before.at(xx, yy) == if f.covers(xx, yy) && (yy < y || (yy == y && xx < x)) {
                            cell
                        } else {
                            start.at(xx, yy)
                        });
                    }
                }
                x = x + 1;
            }
            y = y + 1;
        }
        proof {
            lemma_fill_wf(start, f, cell);
            assert(self.canvas().same_cells(start.fill(f, cell)));
            lemma_same_cells_eq(self.canvas(), start.fill(f, cell));
        }
    }

    /// Writes `cell` at each point of `pts` in turn, each resolved on its own;
    /// points with a negative coordinate lie outside every frame.
    pub fn plot_points(&mut self, pts: &Vec<(isize, isize)>, cell: Cell)
        requires
            old(self).wf(),
        ensures
            final(self).wf(),
            final(self).frames() == old(self).frames(),
            final(self).canvas() == old(self).canvas().plot(old(self).top(), pts@, cell),
    {
        let ghost f = self.top();
        let mut i: usize = 0;
        while i < pts.len()
            invariant
                self.wf(),
                self.frames() == old(self).frames(),
                f == self.top(),
                i <= pts@.len(),
                self.canvas() == old(self).canvas().plot(f, pts@.take(i as int), cell),
            decreases pts@.len() - i,
        {
            let p = pts[i];
            proof {
                assert(pts@.take(i as int + 1).drop_last() =~= pts@.take(i as int));
                assert(pts@.take(i as int + 1).last() == p);
            }
            if p.0 >= 0 && p.1 >= 0 {
                self.set_cell((p.0 as usize, p.1 as usize), cell);
            }
            i = i + 1;
        }
        proof {
            assert(pts@.take(pts@.len() as int) =~= pts@);
        }
    }

    /// Draws the rasterized line from `start` towards `end` with `cell`,
    /// clipping point by point.
    pub fn line(&mut self, start: Pos, end: Pos, cell: Cell)
        requires
            old(self).wf(),
            start.0 <= isize::MAX,
            start.1 <= isize::MAX,
            end.0 <= isize::MAX,
            end.1 <= isize::MAX,
        ensures
            final(self).wf(),
            final(self).frames() == old(self).frames(),
            final(self).canvas() == old(self).canvas().plot(
                old(self).top(),
                bresenham_points(
                    (start.0 as isize, start.1 as isize),
                    (end.0 as isize, end.1 as isize),
                ),
                cell,
            ),
    {
        let pts = line_points((start.0 as isize, start.1 as isize), (end.0 as isize, end.1 as isize));
        self.plot_points(&pts, cell);
    }

    /// Writes the characters of `s` in `style` at consecutive columns from
    /// `start`; each is resolved on its own, and non-ASCII ones show as `?`.
    pub fn text(&mut self, start: Pos, s: &str, style: Style)
        requires
            old(self).wf(),
        ensures
            final(self).wf(),
            final(self).frames() == old(self).frames(),
            final(self).canvas() == old(self).canvas().text(old(self).top(), start, s@, style),
    {
        let ghost f = self.top();
        let n = s.unicode_len();
        let mut i: usize = 0;
        while i < n
            invariant
                self.wf(),
                self.frames() == old(self).frames(),
                f == self.top(),
                n == s@.len(),
                i <= n,
                self.canvas() == old(self).canvas().text(f, start, s@.take(i as int), style),
            decreases n - i,
        {
            let ch = s.get_char(i);
            let c = Cell::styled(ch, style);
            proof {
                assert(s@.take(i as int + 1).drop_last() =~= s@.take(i as int));
                assert(s@.take(i as int + 1).last() == ch);
            }
            match start.0.checked_add(i) {
                Some(x) => {
                    self.set_cell((x, start.1), c);
                },
                None => {},
            }
            i = i + 1;
        }
        proof {
            assert(s@.take(n as int) =~= s@);
        }
    }
}

} // verus!

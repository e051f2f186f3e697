use vstd::prelude::*;
use crate::cell::{Attr, Cell, Color, Style, default_style};
use crate::context::{DrawingContext, bresenham_points};
use crate::frame::{Frame, sat_add, sat_sub};
use crate::surface::Canvas;
use crate::widget::Widget;
use crate::confinement::{lemma_framed_window_confined, lemma_message_fill_confined};

verus! {

/// A filled area with a one-cell border drawn as four lines.
pub struct FramedWindow {
    pub bg_cell: Cell,
    pub frame_cell: Cell,
}

impl FramedWindow {
    pub fn new(bg_cell: Cell, frame_cell: Cell) -> (r: FramedWindow)
        ensures
            r.bg_cell == bg_cell,
            r.frame_cell == frame_cell,
    {
        FramedWindow { bg_cell, frame_cell }
    }
}

/// A message written in rows of the area's width less the padding on
/// either side.
pub struct MessageFill {
    /// Carried with the configuration; drawing does not use it.
    pub bg_cell: Cell,
    pub msg: String,
    pub padding: usize,
    pub style: Style,
}

impl MessageFill {
    pub fn new() -> (r: MessageFill)
        ensures
            r.bg_cell == (Cell { ch: ' ', fg: Color::Default, bg: Color::Default, attrs: Attr::Default }),
            r.msg@.len() == 0,
            r.padding == 2,
            r.style == (Color::Default, Color::Default, Attr::Default),
    {
        let style = default_style();
        MessageFill { bg_cell: Cell::new(' ', style.0, style.1, style.2), msg: String::new(), padding: 2, style }
    }

    pub fn bg_cell(self, bg_cell: Cell) -> (r: MessageFill)
        ensures
            r == (MessageFill { bg_cell, ..self }),
    {
        MessageFill { bg_cell, ..self }
    }

    pub fn msg(self, msg: String) -> (r: MessageFill)
        ensures
            r == (MessageFill { msg, ..self }),
    {
        MessageFill { msg, ..self }
    }

    pub fn padding(self, padding: usize) -> (r: MessageFill)
        ensures
            r == (MessageFill { padding, ..self }),
    {
        MessageFill { padding, ..self }
    }

    pub fn style(self, style: Style) -> (r: MessageFill)
        ensures
            r == (MessageFill { style, ..self }),
    {
        MessageFill { style, ..self }
    }

    /// Where row `n` of the message starts in the message: `min(n * len, msg length)`.
    pub open spec fn row_start(&self, row_len: int, n: int) -> int {
        if n * row_len <= self.msg@.len() {
            n * row_len
        } else {
            self.msg@.len() as int
        }
    }

    /// The first `k` message rows written, each of `row_len` characters,
    /// from column `row_len / 2 + padding`, on consecutive rows from
    /// `first_row`.
    pub open spec fn render_rows(&self, f: Frame, cv: Canvas, row_len: int, first_row: usize, k: nat) -> Canvas
        decreases k,
    {
        if k == 0 {
            cv
        } else {
            let n = k - 1;
            let start = self.row_start(row_len, n);
            let end = self.row_start(row_len, n + 1);
            self.render_rows(f, cv, row_len, first_row, (k - 1) as nat).text(
                f,
                ((row_len / 2 + self.padding) as usize, sat_add(first_row, n as usize)),
                self.msg@.subrange(start, end),
                self.style,
            )
        }
    }
}

impl Widget for FramedWindow {
    /// Nothing on an area narrower or lower than two cells; otherwise the
    /// background, then the top, right, bottom and left edges.
    open spec fn render(&self, f: Frame, cv: Canvas) -> Canvas {
        if f.size.0 < 2 || f.size.1 < 2 {
            cv
        } else {
            let right = (f.size.0 - 1) as isize;
            let bottom = (f.size.1 - 1) as isize;
            let c = self.frame_cell;
            cv.fill(f, self.bg_cell).plot(f, bresenham_points((0, 0), (right, 0)), c).plot(
                f,
                bresenham_points((right, 0), (right, bottom)),
                c,
            ).plot(f, bresenham_points((right, bottom), (0, bottom)), c).plot(
                f,
                bresenham_points((0, bottom), (0, 0)),
                c,
            )
        }
    }

    fn draw_on(&self, ctx: &mut DrawingContext) {
        let csize = ctx.size();
        if csize.0 < 2 || csize.1 < 2 {
            return;
        }
        proof {
            assert(ctx.frames()[ctx.frames().len() - 1].fits(ctx.canvas().cols, ctx.canvas().rows));
        }
        let top: usize = 0;
        let right: usize = csize.0 - 1;
        let bottom: usize = csize.1 - 1;
        let left: usize = 0;
        ctx.fill(self.bg_cell);
        ctx.line((left, top), (right, top), self.frame_cell);
        ctx.line((right, top), (right, bottom), self.frame_cell);
        ctx.line((right, bottom), (left, bottom), self.frame_cell);
        ctx.line((left, bottom), (left, top), self.frame_cell);
    }

    proof fn lemma_stays_in_frame(&self, f: Frame, cv: Canvas) {
        lemma_framed_window_confined(self, f, cv);
    }
}

impl Widget for MessageFill {
    /// Nothing where the padding leaves no room or there is no row;
    /// otherwise `m` rows, `m` being the message length modulo the row
    /// length, vertically centred.
    open spec fn render(&self, f: Frame, cv: Canvas) -> Canvas {
        let cols = f.size.0;
        let rows = f.size.1;
        if cols <= 2 * self.padding || rows < 1 {
            cv
        } else {
            let row_len = cols - 2 * self.padding;
            let n_rows = self.msg@.len() as int % row_len;
            self.render_rows(f, cv, row_len, sat_sub(rows, n_rows as usize) / 2, n_rows as nat)
        }
    }

    fn draw_on(&self, ctx: &mut DrawingContext) {
        let ghost f = ctx.top();
        let (cols, rows) = ctx.size();
        if self.padding > cols / 2 || cols <= 2 * self.padding || rows < 1 {
            return;
        }
        let row_len = cols - 2 * self.padding;
        let len = self.msg.as_str().unicode_len();
        let tx_rows = len % row_len;
        let first_row = rows.saturating_sub(tx_rows) / 2;
        let x = row_len / 2 + self.padding;
        let mut start: usize = 0;
        let mut n: usize = 0;
        while n < tx_rows
            invariant
                ctx.wf(),
                ctx.frames() == old(ctx).frames(),
                f == ctx.top(),
                f.size == (cols, rows),
                row_len > 0,
                row_len == cols - 2 * self.padding,
                x == row_len / 2 + self.padding,
                len == self.msg@.len(),
                tx_rows == len % row_len,
                first_row == sat_sub(rows, tx_rows) / 2,
                n <= tx_rows,
                start == self.row_start(row_len as int, n as int),
                ctx.canvas() == self.render_rows(f, old(ctx).canvas(), row_len as int, first_row, n as nat),
            decreases tx_rows - n,
        {
            let end = if row_len <= len && start <= len - row_len {
                start + row_len
            } else {
                len
            };
            proof {
                assert((n + 1) * row_len == n * row_len + row_len) by (nonlinear_arith);
                assert(n * row_len >= 0) by (nonlinear_arith)
                    requires
                        n >= 0,
                        row_len > 0,
                ;
            }
            let line = self.msg.as_str().substring_char(start, end);
            let y = first_row.saturating_add(n);
            ctx.text((x, y), line, self.style);
            start = end;
            n = n + 1;
        }
    }

    proof fn lemma_stays_in_frame(&self, f: Frame, cv: Canvas) {
        lemma_message_fill_confined(self, f, cv);
    }
}

} // verus!

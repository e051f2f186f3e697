use vstd::prelude::*;
use crate::cell::{Attr, Color, Style, default_style};
use crate::context::DrawingContext;
use crate::frame::{Frame, sat_add};
use crate::surface::Canvas;
use crate::widget::Widget;
use crate::confinement::lemma_table_confined;

verus! {

/// The rows of text a table shows, under one row of headers.
pub trait TableModel {
    spec fn header_cells(&self) -> Seq<String>;

    spec fn row_cells(&self, row_id: int) -> Seq<String>;

    spec fn row_count(&self) -> nat;

    spec fn col_count(&self) -> nat;

    fn headers(&self) -> (r: &Vec<String>)
        ensures
            r@ == self.header_cells(),
    ;

    fn get_row(&self, row_id: usize) -> (r: &Vec<String>)
        requires
            row_id < self.row_count(),
        ensures
            r@ == self.row_cells(row_id as int),
    ;

    fn num_rows(&self) -> (r: usize)
        ensures
            r == self.row_count(),
    ;

    fn num_cols(&self) -> (r: usize)
        ensures
            r == self.col_count(),
    ;
}

/// A table model held in memory: headers and rows of strings.
pub struct SimpleModel {
    pub headers: Vec<String>,
    pub rows: Vec<Vec<String>>,
}

impl SimpleModel {
    pub fn new(headers: Vec<String>) -> (r: SimpleModel)
        ensures
            r.headers == headers,
            r.rows@.len() == 0,
    {
        SimpleModel { headers, rows: Vec::new() }
    }

    pub fn push_row(&mut self, row: Vec<String>)
        ensures
            final(self).headers == old(self).headers,
            final(self).rows@ == old(self).rows@.push(row),
    {
        self.rows.push(row);
    }
}

impl TableModel for SimpleModel {
    open spec fn header_cells(&self) -> Seq<String> {
        self.headers@
    }

    open spec fn row_cells(&self, row_id: int) -> Seq<String> {
        self.rows@[row_id]@
    }

    open spec fn row_count(&self) -> nat {
        self.rows@.len()
    }

    open spec fn col_count(&self) -> nat {
        self.headers@.len()
    }

    fn headers(&self) -> (r: &Vec<String>) {
        &self.headers
    }

    fn get_row(&self, row_id: usize) -> (r: &Vec<String>) {
        &self.rows[row_id]
    }

    fn num_rows(&self) -> (r: usize) {
        self.rows.len()
    }

    fn num_cols(&self) -> (r: usize) {
        self.headers.len()
    }
}

/// The sum of the non-negative column widths.
pub open spec fn fixed_width(col_width: Seq<i32>) -> int
    decreases col_width.len(),
{
    if col_width.len() == 0 {
        0
    } else {
        fixed_width(col_width.drop_last()) + if col_width.last() < 0 {
            0
        } else {
            col_width.last() as int
        }
    }
}

/// The width of each column out of `cols`: its own where it is not
/// negative; a negative width takes what the others leave, or zero.
pub open spec fn column_widths(col_width: Seq<i32>, cols: usize) -> Seq<usize> {
    let expand: usize = if fixed_width(col_width) >= cols {
        0
    } else {
        (cols - fixed_width(col_width)) as usize
    };
    col_width.map_values(|z: i32| if z < 0 { expand } else { z as usize })
}

/// Where column `j` starts: the sum of the widths before it, saturating.
pub open spec fn column_start(widths: Seq<usize>, j: int) -> usize
    decreases j,
{
    if j <= 0 {
        0
    } else {
        sat_add(column_start(widths, j - 1), widths[j - 1])
    }
}

/// The first `k` cells of a line written at row `y`, each from its
/// column's start and cut to its column's width.
pub open spec fn render_line(
    cv: Canvas,
    f: Frame,
    cells: Seq<String>,
    widths: Seq<usize>,
    y: usize,
    style: Style,
    k: nat,
) -> Canvas
    decreases k,
{
    if k == 0 {
        cv
    } else {
        let j = k - 1;
        let s = cells[j]@;
        let shown = if s.len() <= widths[j] {
            s.len() as int
        } else {
            widths[j] as int
        };
        render_line(cv, f, cells, widths, y, style, j as nat).text(
            f,
            (column_start(widths, j), y),
            s.take(shown),
            style,
        )
    }
}

pub open spec fn min_nat(a: nat, b: nat) -> nat {
    if a <= b {
        a
    } else {
        b
    }
}

/// A scrollable table: a header row, then the model's rows from `offset`
/// on, one per remaining row of the area.
pub struct TableView<M: TableModel> {
    pub model: M,
    pub col_width: Vec<i32>,
    pub header_style: Style,
    pub cell_style: Style,
    pub offset: usize,
}

impl<M: TableModel> TableView<M> {
    /// A table over `model`; there is one width for each of its columns.
    pub fn new(model: M, col_width: Vec<i32>) -> (r: TableView<M>)
        requires
            model.col_count() == col_width@.len(),
        ensures
            r.model == model,
            r.col_width == col_width,
            r.header_style == (Color::Default, Color::Default, Attr::Default),
            r.cell_style == r.header_style,
            r.offset == 0,
    {
        TableView { model, col_width, header_style: default_style(), cell_style: default_style(), offset: 0 }
    }

    pub fn header_style(self, style: Style) -> (r: TableView<M>)
        ensures
            r == (TableView { header_style: style, ..self }),
    {
        TableView { header_style: style, ..self }
    }

    pub fn cell_style(self, style: Style) -> (r: TableView<M>)
        ensures
            r == (TableView { cell_style: style, ..self }),
    {
        TableView { cell_style: style, ..self }
    }

    pub fn offset(self, offset: usize) -> (r: TableView<M>)
        ensures
            r == (TableView { offset, ..self }),
    {
        TableView { offset, ..self }
    }

    /// The first `k` data rows, model rows `offset`, `offset + 1`, ...,
    /// drawn on area rows 1, 2, ...
    pub open spec fn render_rows(&self, cv: Canvas, f: Frame, widths: Seq<usize>, k: nat) -> Canvas
        decreases k,
    {
        if k == 0 {
            cv
        } else {
            let i = k - 1;
            let cells = self.model.row_cells(self.offset + i);
            render_line(
                self.render_rows(cv, f, widths, i as nat),
                f,
                cells,
                widths,
                k as usize,
                self.cell_style,
                min_nat(cells.len(), widths.len()),
            )
        }
    }

    /// How many data rows are drawn in an area `rows` high.
    pub open spec fn rows_shown(&self, rows: usize) -> nat {
        let left: int = self.model.row_count() - self.offset;
        if left <= 0 {
            0
        } else {
            min_nat((rows - 1) as nat, left as nat)
        }
    }


    /// Writes the first cells of `cells` on row `y`, one per width.
    fn draw_line(
        ctx: &mut DrawingContext,
        cells: &Vec<String>,
        widths: &Vec<usize>,
        y: usize,
        style: Style,
    )
        requires
            old(ctx).wf(),
        ensures
            final(ctx).wf(),
            final(ctx).frames() == old(ctx).frames(),
            final(ctx).canvas() == render_line(
                old(ctx).canvas(),
                old(ctx).top(),
                cells@,
                widths@,
                y,
                style,
                min_nat(cells@.len(), widths@.len()),
            ),
    {
        let ghost f = ctx.top();
        let n = if cells.len() <= widths.len() {
            cells.len()
        } else {
            widths.len()
        };
        let mut x_pos: usize = 0;
        let mut j: usize = 0;
        while j < n
            invariant
                ctx.wf(),
                ctx.frames() == old(ctx).frames(),
                f == ctx.top(),
                n == min_nat(cells@.len(), widths@.len()),
                j <= n,
                x_pos == column_start(widths@, j as int),
                ctx.canvas() == render_line(old(ctx).canvas(), f, cells@, widths@, y, style, j as nat),
            decreases n - j,
        {
            let s = cells[j].as_str();
            let len = s.unicode_len();
            let width = widths[j];
            let shown = if len <= width {
                len
            } else {
                width
            };
            let part = s.substring_char(0, shown);
            proof {
                assert(part@ == cells@[j as int]@.take(shown as int));
            }
            ctx.text((x_pos, y), part, style);
            x_pos = x_pos.saturating_add(width);
            j = j + 1;
        }
    }

    /// The width of each column out of `cols`.
    fn widths(&self, cols: usize) -> (r: Vec<usize>)
        ensures
            r@ == column_widths(self.col_width@, cols),
    {
        let mut fixed: usize = 0;
        let mut i: usize = 0;
        while i < self.col_width.len()
            invariant
                i <= self.col_width@.len(),
                fixed as int == if fixed_width(self.col_width@.take(i as int)) <= usize::MAX {
                    fixed_width(self.col_width@.take(i as int))
                } else {
                    usize::MAX as int
                },
            decreases self.col_width@.len() - i,
        {
            proof {
                assert(self.col_width@.take(i as int + 1).drop_last() =~= self.col_width@.take(i as int));
            }
            let z = self.col_width[i];
            if z >= 0 {
                fixed = fixed.saturating_add(z as usize);
            }
            i = i + 1;
        }
        proof {
            assert(self.col_width@.take(i as int) =~= self.col_width@);
        }
        let expand = cols.saturating_sub(fixed);
        let mut r: Vec<usize> = Vec::new();
        let mut k: usize = 0;
        while k < self.col_width.len()
            invariant
                k <= self.col_width@.len(),
                r@.len() == k,
                expand == (if fixed_width(self.col_width@) >= cols {
                    0
                } else {
                    (cols - fixed_width(self.col_width@)) as usize
                }),
                forall|j: int|
                    0 <= j < k ==> #[trigger] r@[j] == (if self.col_width@[j] < 0 {
                        expand
                    } else {
                        self.col_width@[j] as usize
                    }),
            decreases self.col_width@.len() - k,
        {
            let z = self.col_width[k];
            let w = if z < 0 {
                expand
            } else {
                z as usize
            };
            r.push(w);
            k = k + 1;
        }
        proof {
            assert(r@ =~= column_widths(self.col_width@, cols));
        }
        r
    }
}

impl<M: TableModel> Widget for TableView<M> {
    /// Nothing on an area without rows; otherwise the headers on row 0,
    /// then the shown data rows.
    open spec fn render(&self, f: Frame, cv: Canvas) -> Canvas {
        if f.size.1 == 0 {
            cv
        } else {
            let widths = column_widths(self.col_width@, f.size.0);
            let headers = self.model.header_cells();
            let after_header = render_line(
                cv,
                f,
                headers,
                widths,
                0,
                self.header_style,
                min_nat(headers.len(), widths.len()),
            );
            self.render_rows(after_header, f, widths, self.rows_shown(f.size.1))
        }
    }

    fn draw_on(&self, ctx: &mut DrawingContext) {
        let ghost f = ctx.top();
        let (cols, rows) = ctx.size();
        if rows == 0 {
            return;
        }
        let widths = self.widths(cols);
        Self::draw_line(ctx, self.model.headers(), &widths, 0, self.header_style);
        let ghost after_header = ctx.canvas();
        let num_rows = self.model.num_rows();
        let mut i: usize = 0;
        while i < rows - 1
            invariant
                ctx.wf(),
                ctx.frames() == old(ctx).frames(),
                f == ctx.top(),
                f.size == (cols, rows),
                rows > 0,
                widths@ == column_widths(self.col_width@, cols),
                num_rows == self.model.row_count(),
                i <= rows - 1,
                i <= self.rows_shown(rows),
                ctx.canvas() == self.render_rows(after_header, f, widths@, i as nat),
            ensures
                ctx.wf(),
                ctx.frames() == old(ctx).frames(),
                ctx.canvas() == self.render_rows(after_header, f, widths@, self.rows_shown(rows)),
            decreases rows - 1 - i,
        {
            let row_idx = match i.checked_add(self.offset) {
                Some(r) => r,
                None => {
                    break;
                },
            };
            if row_idx >= num_rows {
                break;
            }
            Self::draw_line(ctx, self.model.get_row(row_idx), &widths, i + 1, self.cell_style);
            i = i + 1;
        }
    }

    proof fn lemma_stays_in_frame(&self, f: Frame, cv: Canvas) {
        lemma_table_confined(self, f, cv);
    }
}

} // verus!

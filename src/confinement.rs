use vstd::prelude::*;
use crate::cell::Style;
use crate::context::bresenham_points;
use crate::frame::{Frame, Pos, sat_add, sat_sub};
use crate::layout::{BoxItem, child_frame, offset_after, render_box};
use crate::surface::Canvas;
use crate::controls::IndicatorButton;
use crate::table::{TableModel, TableView, render_line};
use crate::widget::{Node, Widget, render_all};
use crate::window::{FramedWindow, MessageFill};

verus! {

broadcast use vstd::std_specs::vec::group_vec_axioms, vstd::seq::group_seq_axioms;

/// Every cell that `inner` covers, `outer` covers too.
pub open spec fn inside(inner: Frame, outer: Frame) -> bool {
    forall|x: int, y: int| #[trigger] inner.covers(x, y) ==> outer.covers(x, y)
}

/// `after` has the shape of `before` and differs from it only in cells that
/// `f` covers.
pub open spec fn confined(before: Canvas, after: Canvas, f: Frame) -> bool {
    &&& after.wf()
    &&& after.cols == before.cols
    &&& after.rows == before.rows
    &&& forall|x: int, y: int|
        before.in_bounds(x, y) && !f.covers(x, y) ==> #[trigger] after.at(x, y) == before.at(x, y)
}

proof fn lemma_confined_trans(a: Canvas, b: Canvas, c: Canvas, f: Frame)
    requires
        confined(a, b, f),
        confined(b, c, f),
    ensures
        confined(a, c, f),
{
    assert forall|x: int, y: int| a.in_bounds(x, y) && !f.covers(x, y) implies #[trigger] c.at(x, y) == a.at(
        x,
        y,
    ) by {
        assert(b.at(x, y) == a.at(x, y));
        assert(c.at(x, y) == b.at(x, y));
    }
}

proof fn lemma_confined_widen(a: Canvas, b: Canvas, g: Frame, f: Frame)
    requires
        confined(a, b, g),
        inside(g, f),
    ensures
        confined(a, b, f),
{
    assert forall|x: int, y: int| a.in_bounds(x, y) && !f.covers(x, y) implies #[trigger] b.at(x, y) == a.at(
        x,
        y,
    ) by {
        if g.covers(x, y) {
            assert(f.covers(x, y));
        }
    }
}

pub proof fn lemma_confined_refl(a: Canvas, f: Frame)
    requires
        a.wf(),
    ensures
        confined(a, a, f),
{
}

proof fn lemma_put_confined(cv: Canvas, f: Frame, p: (int, int), c: crate::cell::Cell)
    requires
        cv.wf(),
    ensures
        confined(cv, cv.put(f, p, c), f),
{
    let r = cv.put(f, p, c);
    match cv.resolve(f, p) {
        Some(q) => {
            assert(f.covers(q.0, q.1));
            assert forall|x: int, y: int| cv.in_bounds(x, y) && !f.covers(x, y) implies #[trigger] r.at(x, y)
                == cv.at(x, y) by {
                assert(x != q.0 || y != q.1);
            }
        },
        None => {},
    }
}

proof fn lemma_plot_confined(cv: Canvas, f: Frame, pts: Seq<(isize, isize)>, c: crate::cell::Cell)
    requires
        cv.wf(),
    ensures
        confined(cv, cv.plot(f, pts, c), f),
    decreases pts.len(),
{
    if pts.len() > 0 {
        let p = pts.last();
        let mid = cv.plot(f, pts.drop_last(), c);
        lemma_plot_confined(cv, f, pts.drop_last(), c);
        lemma_put_confined(mid, f, (p.0 as int, p.1 as int), c);
        lemma_confined_trans(cv, mid, cv.plot(f, pts, c), f);
    }
}

proof fn lemma_text_confined(cv: Canvas, f: Frame, start: Pos, chars: Seq<char>, style: Style)
    requires
        cv.wf(),
    ensures
        confined(cv, cv.text(f, start, chars, style), f),
    decreases chars.len(),
{
    if chars.len() > 0 {
        let i = chars.len() - 1;
        let mid = cv.text(f, start, chars.drop_last(), style);
        lemma_text_confined(cv, f, start, chars.drop_last(), style);
        lemma_put_confined(mid, f, (start.0 + i, start.1 as int), crate::cell::styled(chars.last(), style));
        lemma_confined_trans(cv, mid, cv.text(f, start, chars, style), f);
    }
}

pub proof fn lemma_fill_confined(cv: Canvas, f: Frame, c: crate::cell::Cell)
    requires
        cv.wf(),
    ensures
        confined(cv, cv.fill(f, c), f),
{
}

proof fn lemma_line_confined(
    cv: Canvas,
    f: Frame,
    cells: Seq<String>,
    widths: Seq<usize>,
    y: usize,
    style: Style,
    k: nat,
)
    requires
        cv.wf(),
        k <= cells.len(),
        k <= widths.len(),
    ensures
        confined(cv, render_line(cv, f, cells, widths, y, style, k), f),
    decreases k,
{
    if k > 0 {
        let j = k - 1;
        let s = cells[j]@;
        let shown = if s.len() <= widths[j] {
            s.len() as int
        } else {
            widths[j] as int
        };
        let mid = render_line(cv, f, cells, widths, y, style, j as nat);
        lemma_line_confined(cv, f, cells, widths, y, style, j as nat);
        lemma_text_confined(mid, f, (crate::table::column_start(widths, j), y), s.take(shown), style);
        lemma_confined_trans(cv, mid, render_line(cv, f, cells, widths, y, style, k), f);
    }
}

proof fn lemma_table_rows_confined<M: TableModel>(t: &TableView<M>, cv: Canvas, f: Frame, widths: Seq<usize>, k: nat)
    requires
        cv.wf(),
    ensures
        confined(cv, t.render_rows(cv, f, widths, k), f),
    decreases k,
{
    if k > 0 {
        let i = k - 1;
        let cells = t.model.row_cells(t.offset + i);
        let mid = t.render_rows(cv, f, widths, i as nat);
        lemma_table_rows_confined(t, cv, f, widths, i as nat);
        let n = crate::table::min_nat(cells.len(), widths.len());
        lemma_line_confined(mid, f, cells, widths, k as usize, t.cell_style, n);
        lemma_confined_trans(cv, mid, t.render_rows(cv, f, widths, k), f);
    }
}

pub proof fn lemma_table_confined<M: TableModel>(t: &TableView<M>, f: Frame, cv: Canvas)
    requires
        cv.wf(),
    ensures
        confined(cv, t.render(f, cv), f),
{
    if f.size.1 == 0 {
        lemma_confined_refl(cv, f);
    } else {
        let widths = crate::table::column_widths(t.col_width@, f.size.0);
        let headers = t.model.header_cells();
        let n = crate::table::min_nat(headers.len(), widths.len());
        let mid = render_line(cv, f, headers, widths, 0, t.header_style, n);
        lemma_line_confined(cv, f, headers, widths, 0, t.header_style, n);
        lemma_table_rows_confined(t, mid, f, widths, t.rows_shown(f.size.1));
        lemma_confined_trans(cv, mid, t.render(f, cv), f);
    }
}

proof fn lemma_message_rows_confined(m: &MessageFill, f: Frame, cv: Canvas, row_len: int, first_row: usize, k: nat)
    requires
        cv.wf(),
    ensures
        confined(cv, m.render_rows(f, cv, row_len, first_row, k), f),
    decreases k,
{
    if k > 0 {
        let n = k - 1;
        let start = m.row_start(row_len, n);
        let end = m.row_start(row_len, n + 1);
        let mid = m.render_rows(f, cv, row_len, first_row, (k - 1) as nat);
        lemma_message_rows_confined(m, f, cv, row_len, first_row, (k - 1) as nat);
        lemma_text_confined(
            mid,
            f,
            ((row_len / 2 + m.padding) as usize, sat_add(first_row, n as usize)),
            m.msg@.subrange(start, end),
            m.style,
        );
        lemma_confined_trans(cv, mid, m.render_rows(f, cv, row_len, first_row, k), f);
    }
}

pub proof fn lemma_framed_window_confined(fw: &FramedWindow, f: Frame, cv: Canvas)
    requires
        cv.wf(),
    ensures
        confined(cv, fw.render(f, cv), f),
{
    if f.size.0 >= 2 && f.size.1 >= 2 {
        let right = (f.size.0 - 1) as isize;
        let bottom = (f.size.1 - 1) as isize;
        let c = fw.frame_cell;
        let c0 = cv.fill(f, fw.bg_cell);
        let top_edge = bresenham_points((0, 0), (right, 0));
        let right_edge = bresenham_points((right, 0), (right, bottom));
        let bottom_edge = bresenham_points((right, bottom), (0, bottom));
        let left_edge = bresenham_points((0, bottom), (0, 0));
        let c1 = c0.plot(f, top_edge, c);
        let c2 = c1.plot(f, right_edge, c);
        let c3 = c2.plot(f, bottom_edge, c);
        lemma_fill_confined(cv, f, fw.bg_cell);
        lemma_plot_confined(c0, f, top_edge, c);
        lemma_plot_confined(c1, f, right_edge, c);
        lemma_plot_confined(c2, f, bottom_edge, c);
        lemma_plot_confined(c3, f, left_edge, c);
        lemma_confined_trans(cv, c0, c1, f);
        lemma_confined_trans(cv, c1, c2, f);
        lemma_confined_trans(cv, c2, c3, f);
        lemma_confined_trans(cv, c3, c3.plot(f, left_edge, c), f);
    } else {
        lemma_confined_refl(cv, f);
    }
}

pub proof fn lemma_message_fill_confined(m: &MessageFill, f: Frame, cv: Canvas)
    requires
        cv.wf(),
    ensures
        confined(cv, m.render(f, cv), f),
{
    let cols = f.size.0;
    let rows = f.size.1;
    if cols <= 2 * m.padding || rows < 1 {
        lemma_confined_refl(cv, f);
    } else {
        let row_len = cols - 2 * m.padding;
        let n_rows = m.msg@.len() as int % row_len;
        lemma_message_rows_confined(m, f, cv, row_len, sat_sub(rows, n_rows as usize) / 2, n_rows as nat);
    }
}

pub proof fn lemma_button_confined(b: &IndicatorButton, f: Frame, cv: Canvas)
    requires
        cv.wf(),
    ensures
        confined(cv, b.render(f, cv), f),
{
    let k = b.hotkey_shown();
    let mid = cv.text(f, (0, 0), b.hotkey@.take(k as int), b.hotkey_style);
    let style = if b.enabled {
        b.active_style
    } else {
        b.inactive_style
    };
    lemma_text_confined(cv, f, (0, 0), b.hotkey@.take(k as int), b.hotkey_style);
    lemma_text_confined(mid, f, (k, 0), b.text@.take(b.text_shown() as int), style);
    lemma_confined_trans(cv, mid, b.render(f, cv), f);
}

proof fn lemma_translated_inside(f: Frame, d: Pos)
    ensures
        inside(f.translated(d), f),
{
}

proof fn lemma_render_all_confined<L: Widget>(ws: Seq<Box<Node<L>>>, f: Frame, cv: Canvas)
    requires
        cv.wf(),
    ensures
        confined(cv, render_all(ws, f, cv), f),
    decreases ws,
{
    if ws.len() == 0 {
        lemma_confined_refl(cv, f);
    } else {
        let mid = render_all(ws.drop_last(), f, cv);
        lemma_render_all_confined(ws.drop_last(), f, cv);
        law_render_stays_in_frame(*ws.last(), f, mid);
        lemma_confined_trans(cv, mid, render_all(ws, f, cv), f);
    }
}

proof fn lemma_render_box_confined<L: Widget>(
    items: Seq<BoxItem<L>>,
    f: Frame,
    total: usize,
    expand: usize,
    vertical: bool,
    cv: Canvas,
)
    requires
        cv.wf(),
    ensures
        confined(cv, render_box(items, f, total, expand, vertical, cv), f),
    decreases items,
{
    if items.len() == 0 {
        lemma_confined_refl(cv, f);
    } else {
        let before = render_box(items.drop_last(), f, total, expand, vertical, cv);
        lemma_render_box_confined(items.drop_last(), f, total, expand, vertical, cv);
        let o = offset_after(items.drop_last(), expand);
        let last = items.last();
        if o < total {
            let g = child_frame(f, o as usize, last.extent(expand), vertical);
            if vertical {
                lemma_translated_inside(f, (0, o as usize));
            } else {
                lemma_translated_inside(f, (o as usize, 0));
            }
            assert(inside(g, f));
            assert(decreases_to!(items => items.last()));
            law_render_stays_in_frame(last.child(), g, before);
            lemma_confined_widen(before, render_box(items, f, total, expand, vertical, cv), g, f);
        }
        lemma_confined_trans(cv, before, render_box(items, f, total, expand, vertical, cv), f);
    }
}

/// A widget changes only the cells of the frame it is drawn in: whatever
/// the tree below it does, every cell outside that frame keeps its value,
/// and the canvas keeps its shape.
pub proof fn law_render_stays_in_frame<L: Widget>(w: Node<L>, f: Frame, cv: Canvas)
    requires
        cv.wf(),
    ensures
        confined(cv, w.render_node(f, cv), f),
    decreases w,
{
    match w {
        Node::Background(b) => {
            lemma_fill_confined(cv, f, b.bg_cell);
        },
        Node::Layers(l) => {
            lemma_render_all_confined(l.widgets@, f, cv);
        },
        Node::VBox(b) => {
            lemma_render_box_confined(b.0.0@, f, f.size.1, crate::layout::expand_extent(b.0.0@, f.size.1), true, cv);
        },
        Node::HBox(b) => {
            lemma_render_box_confined(b.0.0@, f, f.size.0, crate::layout::expand_extent(b.0.0@, f.size.0), false, cv);
        },
        Node::FixedSize(s) => {
            let g = s.child_frame(f);
            law_render_stays_in_frame(*s.widget, g, cv);
            lemma_confined_widen(cv, w.render_node(f, cv), g, f);
        },
        Node::Translated(t) => {
            let g = f.translated(t.offset);
            lemma_translated_inside(f, t.offset);
            law_render_stays_in_frame(*t.widget, g, cv);
            lemma_confined_widen(cv, w.render_node(f, cv), g, f);
        },
        Node::FramedWindow(fw) => {
            lemma_framed_window_confined(&fw, f, cv);
        },
        Node::MessageFill(m) => {
            lemma_message_fill_confined(&m, f, cv);
        },
        Node::IndicatorButton(b) => {
            lemma_button_confined(&b, f, cv);
        },
        Node::Leaf(l) => {
            l.lemma_stays_in_frame(f, cv);
        },
        Node::Table(t) => {
            lemma_table_confined(&t, f, cv);
        },
    }
}

} // verus!

use termwidgets::cell::{default_style, Attr, Cell, Color};
use termwidgets::context::DrawingContext;
use termwidgets::controls::IndicatorButton;
use termwidgets::draw::{Background, Spacer};
use termwidgets::layout::{BoxItem, BoxLayout, HBox, VBox};
use termwidgets::main_loop::MainLoop;
use termwidgets::surface::Surface;
use termwidgets::table::{SimpleModel, TableModel, TableView};
use termwidgets::widget::{Layers, Node, Widget};
use termwidgets::window::{FramedWindow, MessageFill};
use termwidgets::{offset, sized};

type N = Node<Spacer>;

fn blank_context(cols: usize, rows: usize) -> DrawingContext {
    DrawingContext::new(Surface::new(cols, rows, Cell::with_char(' ')))
}

fn row_text(s: &Surface, y: usize) -> String {
    (0..s.cols()).map(|x| s.get(x, y).unwrap().ch).collect()
}

fn bg(ch: char) -> Box<N> {
    Box::new(N::Background(Background::new(Cell::with_char(ch))))
}

#[test]
fn balanced_save_restore_keeps_frame() {
    let mut ctx = blank_context(20, 10);
    ctx.translate((2, 1));
    let before = (ctx.translation(), ctx.size());
    ctx.save();
    ctx.translate((3, 4));
    ctx.save();
    ctx.clip((2, 2));
    ctx.shrink((1, 1));
    ctx.restore();
    ctx.clip((1, 1));
    ctx.restore();
    assert_eq!((ctx.translation(), ctx.size()), before);
}

#[test]
fn transform_rejects_points_at_or_beyond_size() {
    let mut ctx = blank_context(20, 10);
    ctx.translate((2, 3));
    ctx.clip((5, 4));
    assert_eq!(ctx.transform((5, 0)), None);
    assert_eq!(ctx.transform((0, 4)), None);
    assert_eq!(ctx.transform((7, 9)), None);
    assert_eq!(ctx.transform((4, 3)), Some((6, 6)));
    assert_eq!(ctx.transform((0, 0)), Some((2, 3)));
}

#[test]
fn transform_checks_each_axis_against_its_own_size() {
    let mut ctx = blank_context(20, 20);
    ctx.clip((10, 3));
    assert_eq!(ctx.transform((0, 5)), None);
    assert_eq!(ctx.transform((5, 2)), Some((5, 2)));
}

#[test]
fn translate_shrinks_by_delta_saturating_at_zero() {
    let mut ctx = blank_context(10, 5);
    ctx.translate((3, 7));
    assert_eq!(ctx.size(), (7, 0));
    assert_eq!(ctx.translation(), (3, 7));
    ctx.translate((9, 0));
    assert_eq!(ctx.size(), (0, 0));
    assert_eq!(ctx.translation(), (12, 7));
}

#[test]
fn shrink_saturates_at_zero() {
    let mut ctx = blank_context(10, 5);
    ctx.shrink((4, 9));
    assert_eq!(ctx.size(), (6, 0));
    assert_eq!(ctx.translation(), (0, 0));
}

#[test]
fn clip_is_idempotent_and_order_free() {
    let mut a = blank_context(30, 30);
    a.clip((12, 20));
    a.clip((25, 7));
    a.clip((25, 7));
    let mut b = blank_context(30, 30);
    b.clip((25, 7));
    b.clip((12, 20));
    assert_eq!(a.size(), (12, 7));
    assert_eq!(b.size(), (12, 7));
    b.clip((40, 40));
    assert_eq!(b.size(), (12, 7));
}

#[test]
fn box_layout_fixed_expand_fixed() {
    let mut layout: BoxLayout<Spacer> = BoxLayout::new();
    layout.push_item(BoxItem::Fixed(5, bg('A')));
    layout.push_item(BoxItem::Expand(bg('B')));
    layout.push_item(BoxItem::Fixed(3, bg('C')));
    assert_eq!(layout.iter_sized_items(20), vec![5, 12, 3]);
    assert_eq!(layout.spans(20), vec![(0, 5), (5, 12), (17, 3)]);
}

#[test]
fn vbox_draws_each_item_in_its_stripe() {
    let mut vbox: VBox<Spacer> = VBox::new();
    vbox.push_item(BoxItem::Fixed(5, bg('A')));
    vbox.push_item(BoxItem::Expand(bg('B')));
    vbox.push_item(BoxItem::Fixed(3, bg('C')));
    let mut ctx = blank_context(2, 20);
    N::VBox(vbox).draw_on(&mut ctx);
    let s = ctx.into_surface();
    for y in 0..20 {
        let want = if y < 5 { 'A' } else if y < 17 { 'B' } else { 'C' };
        assert_eq!(s.get(0, y).unwrap().ch, want);
        assert_eq!(s.get(1, y).unwrap().ch, want);
    }
}

#[test]
fn expanding_items_each_get_the_whole_remainder() {
    let mut layout: BoxLayout<Spacer> = BoxLayout::new();
    layout.push_item(BoxItem::Expand(bg('A')));
    layout.push_item(BoxItem::Expand(bg('B')));
    assert_eq!(layout.iter_sized_items(10), vec![10, 10]);
    assert_eq!(layout.spans(10), vec![(0, 10)]);
}

#[test]
fn fixed_items_beyond_total_leave_expand_empty() {
    let mut layout: BoxLayout<Spacer> = BoxLayout::new();
    layout.push_item(BoxItem::Fixed(8, bg('A')));
    layout.push_item(BoxItem::Expand(bg('B')));
    layout.push_item(BoxItem::Fixed(8, bg('C')));
    layout.push_item(BoxItem::Fixed(1, bg('D')));
    assert_eq!(layout.iter_sized_items(10), vec![8, 0, 8, 1]);
    assert_eq!(layout.spans(10), vec![(0, 8), (8, 0), (8, 8)]);
}

#[test]
fn hbox_stops_once_offset_reaches_width() {
    let mut hbox: HBox<Spacer> = HBox::new();
    hbox.push_item(BoxItem::Fixed(3, bg('A')));
    hbox.push_item(BoxItem::Fixed(4, bg('B')));
    hbox.push_item(BoxItem::Fixed(2, bg('C')));
    let mut ctx = blank_context(6, 1);
    N::HBox(hbox).draw_on(&mut ctx);
    assert_eq!(row_text(ctx.surface(), 0), "AAABBB");
    assert_eq!((ctx.translation(), ctx.size()), ((0, 0), (6, 1)));
}

#[test]
fn line_clipped_to_width_three_writes_three_cells() {
    let mut ctx = blank_context(10, 2);
    ctx.clip((3, 2));
    ctx.line((0, 0), (4, 0), Cell::with_char('#'));
    let s = ctx.surface();
    let written = (0..10).filter(|&x| s.get(x, 0).unwrap().ch == '#').count();
    assert_eq!(written, 3);
    assert_eq!(row_text(s, 0), "###       ");
}

#[test]
fn line_includes_start_and_not_end() {
    let mut ctx = blank_context(8, 8);
    ctx.line((1, 2), (1, 6), Cell::with_char('|'));
    let s = ctx.surface();
    for y in 0..8 {
        let want = if (2..6).contains(&y) { '|' } else { ' ' };
        assert_eq!(s.get(1, y).unwrap().ch, want);
    }
    ctx.plot_points(&vec![(-1, 0), (0, 0), (7, 7)], Cell::with_char('*'));
    let s = ctx.surface();
    assert_eq!(s.get(0, 0).unwrap().ch, '*');
    assert_eq!(s.get(7, 7).unwrap().ch, '*');
}

#[test]
fn layers_last_writer_wins() {
    let mut layers: Layers<Spacer> = Layers::new();
    layers.push_widget(bg('.'));
    layers.push_widget(bg('#'));
    let mut ctx = blank_context(7, 4);
    N::Layers(layers).draw_on(&mut ctx);
    let s = ctx.into_surface();
    for y in 0..4 {
        assert_eq!(row_text(&s, y), "#######");
    }
}

#[test]
fn save_translate_restore_is_identity() {
    let mut ctx = blank_context(15, 9);
    ctx.clip((11, 8));
    let before = (ctx.translation(), ctx.size());
    ctx.save();
    ctx.translate((4, 6));
    assert_eq!(ctx.size(), (7, 2));
    ctx.restore();
    assert_eq!((ctx.translation(), ctx.size()), before);
}

#[test]
fn fill_covers_exactly_the_frame() {
    let mut ctx = blank_context(6, 4);
    ctx.translate((1, 1));
    ctx.clip((3, 2));
    ctx.fill(Cell::with_char('x'));
    let s = ctx.surface();
    assert_eq!(row_text(s, 0), "      ");
    assert_eq!(row_text(s, 1), " xxx  ");
    assert_eq!(row_text(s, 2), " xxx  ");
    assert_eq!(row_text(s, 3), "      ");
}

#[test]
fn text_clips_and_replaces_non_ascii() {
    let mut ctx = blank_context(6, 2);
    ctx.translate((1, 0));
    ctx.text((1, 1), "ab\u{e9}cdef", default_style());
    assert_eq!(row_text(ctx.surface(), 1), "  ab?c");
    assert_eq!(row_text(ctx.surface(), 0), "      ");
    let c = ctx.get_cell((1, 1)).unwrap();
    assert_eq!(c, Cell::new('a', Color::Default, Color::Default, Attr::Default));
    assert_eq!(ctx.get_cell((5, 1)), None);
}

#[test]
fn set_cell_off_surface_is_dropped() {
    let mut ctx = blank_context(3, 3);
    ctx.set_cell((3, 0), Cell::with_char('z'));
    ctx.set_cell((2, 2), Cell::with_char('z'));
    assert_eq!(row_text(ctx.surface(), 2), "  z");
    assert_eq!(row_text(ctx.surface(), 0), "   ");
}

#[test]
fn styled_text_keeps_style() {
    let mut ctx = blank_context(4, 1);
    ctx.text((0, 0), "hi", (Color::Red, Color::Byte(17), Attr::Bold));
    assert_eq!(
        ctx.surface().get(1, 0),
        Some(Cell::new('i', Color::Red, Color::Byte(17), Attr::Bold))
    );
}

#[test]
fn framed_window_draws_border_around_background() {
    let mut ctx = blank_context(7, 6);
    let window = FramedWindow::new(Cell::with_char('.'), Cell::with_char('+'));
    let w = offset((1, 1), sized((5, 4), Box::new(N::FramedWindow(window))));
    w.draw_on(&mut ctx);
    let s = ctx.into_surface();
    assert_eq!(row_text(&s, 0), "       ");
    assert_eq!(row_text(&s, 1), " +++++ ");
    assert_eq!(row_text(&s, 2), " +...+ ");
    assert_eq!(row_text(&s, 3), " +...+ ");
    assert_eq!(row_text(&s, 4), " +++++ ");
    assert_eq!(row_text(&s, 5), "       ");
}

#[test]
fn framed_window_needs_two_by_two() {
    let mut ctx = blank_context(5, 1);
    let window = FramedWindow::new(Cell::with_char('.'), Cell::with_char('+'));
    N::FramedWindow(window).draw_on(&mut ctx);
    assert_eq!(row_text(ctx.surface(), 0), "     ");
}

#[test]
fn fixed_size_never_grows() {
    let mut ctx = blank_context(4, 2);
    ctx.clip((2, 2));
    sized((9, 1), bg('s')).draw_on(&mut ctx);
    assert_eq!(row_text(ctx.surface(), 0), "ss  ");
    assert_eq!(row_text(ctx.surface(), 1), "    ");
    assert_eq!(ctx.size(), (2, 2));
}

#[test]
fn indicator_button_shows_hotkey_then_text() {
    let btn = IndicatorButton::new()
        .text("Hello".to_string())
        .size(12)
        .hotkey("FO".to_string());
    let mut ctx = blank_context(14, 1);
    N::IndicatorButton(btn).draw_on(&mut ctx);
    assert_eq!(row_text(ctx.surface(), 0), "FOHello       ");
}

#[test]
fn indicator_button_cuts_to_size() {
    let btn = IndicatorButton::new()
        .text("World".to_string())
        .size(4)
        .hotkey("Wo".to_string())
        .enabled(true)
        .active_style((Color::Green, Color::Default, Attr::Default));
    let mut ctx = blank_context(8, 1);
    N::IndicatorButton(btn).draw_on(&mut ctx);
    assert_eq!(row_text(ctx.surface(), 0), "WoWo    ");
    assert_eq!(ctx.surface().get(2, 0).unwrap().fg, Color::Green);
    assert_eq!(ctx.surface().get(0, 0).unwrap().fg, Color::Default);
}

#[test]
fn message_fill_writes_centred_rows() {
    let fill = MessageFill::new().msg("hello".to_string());
    let mut ctx = blank_context(10, 7);
    N::MessageFill(fill).draw_on(&mut ctx);
    let s = ctx.into_surface();
    assert_eq!(row_text(&s, 1), "     hello");
    for y in [0, 2, 3, 4, 5, 6] {
        assert_eq!(row_text(&s, y), "          ");
    }
}

#[test]
fn message_fill_without_room_draws_nothing() {
    let fill = MessageFill::new().msg("hello".to_string()).padding(5);
    let mut ctx = blank_context(10, 3);
    N::MessageFill(fill).draw_on(&mut ctx);
    assert_eq!(row_text(ctx.surface(), 1), "          ");
}

fn sample_model() -> SimpleModel {
    let mut model = SimpleModel::new(vec![
        "First".to_string(),
        "Second".to_string(),
        "Third".to_string(),
    ]);
    for i in 0..4 {
        model.push_row(vec![
            format!("{}234", i),
            "5678".to_string(),
            "90ab".to_string(),
        ]);
    }
    model
}

#[test]
fn simple_model_reports_its_shape() {
    let model = sample_model();
    assert_eq!(model.num_cols(), 3);
    assert_eq!(model.num_rows(), 4);
    assert_eq!(model.get_row(2)[0], "2234");
    assert_eq!(model.headers()[1], "Second");
}

#[test]
fn table_view_draws_header_and_rows() {
    let table = TableView::new(sample_model(), vec![3, 2, -1]);
    let mut ctx = blank_context(10, 3);
    N::Table(table).draw_on(&mut ctx);
    let s = ctx.into_surface();
    assert_eq!(row_text(&s, 0), "FirSeThird");
    assert_eq!(row_text(&s, 1), "0235690ab ");
    assert_eq!(row_text(&s, 2), "1235690ab ");
}

#[test]
fn table_view_scrolls_by_offset() {
    let table = TableView::new(sample_model(), vec![4, 0, 0]).offset(3);
    let mut ctx = blank_context(6, 4);
    N::Table(table).draw_on(&mut ctx);
    let s = ctx.into_surface();
    assert_eq!(row_text(&s, 0), "Firs  ");
    assert_eq!(row_text(&s, 1), "3234  ");
    assert_eq!(row_text(&s, 2), "      ");
}

#[test]
fn table_view_on_zero_rows_draws_nothing() {
    let table = TableView::new(sample_model(), vec![3, 2, -1]);
    let mut ctx = blank_context(10, 3);
    ctx.clip((10, 0));
    N::Table(table).draw_on(&mut ctx);
    assert_eq!(row_text(ctx.surface(), 0), "          ");
}

#[test]
fn main_loop_limits_redraws() {
    let mut l = MainLoop::new();
    assert!(l.should_redraw(0));
    l.max_fps(20);
    assert_eq!(l.min_delay, Some(50));
    assert!(!l.should_redraw(30));
    assert!(l.should_redraw(50));
    assert_eq!(l.last_draw, 50);
    assert!(!l.should_redraw(99));
    l.unlimited();
    assert!(l.should_redraw(99));
    l.min_delay(10).unlimited();
    assert_eq!(l.min_delay, None);
}

#[test]
fn surface_get_outside_is_none() {
    let s = Surface::new(3, 2, Cell::default());
    assert_eq!(s.get(3, 0), None);
    assert_eq!(s.get(0, 2), None);
    assert_eq!(s.get(2, 1), Some(Cell::with_char(' ')));
}

#[test]
fn leaf_node_draws_through_its_own_widget() {
    let mut vbox: VBox<Spacer> = VBox::new();
    vbox.push_item(BoxItem::Fixed(2, Box::new(Node::Leaf(Spacer))));
    vbox.push_item(BoxItem::Expand(bg('e')));
    let mut ctx = blank_context(3, 4);
    Node::VBox(vbox).draw_on(&mut ctx);
    let s = ctx.into_surface();
    assert_eq!(row_text(&s, 0), "   ");
    assert_eq!(row_text(&s, 1), "   ");
    assert_eq!(row_text(&s, 2), "eee");
    assert_eq!(row_text(&s, 3), "eee");
}

#[test]
fn get_mut_cell_changes_the_resolved_cell() {
    let mut ctx = blank_context(4, 3);
    ctx.translate((1, 1));
    if let Some(c) = ctx.get_mut_cell((2, 1)) {
        c.ch = 'm';
    }
    assert!(ctx.get_mut_cell((3, 0)).is_none());
    assert_eq!(row_text(ctx.surface(), 2), "   m");
    assert_eq!(row_text(ctx.surface(), 1), "    ");
}

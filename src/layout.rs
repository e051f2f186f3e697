use vstd::prelude::*;
use crate::context::DrawingContext;
use crate::frame::Frame;
use crate::surface::Canvas;
use crate::widget::{Node, Widget};

verus! {

broadcast use vstd::std_specs::vec::group_vec_axioms, vstd::seq::group_seq_axioms;

/// A child of a box layout: either a fixed extent along the layout's axis,
/// or whatever the fixed children leave over.
pub enum BoxItem<L: Widget> {
    Fixed(usize, Box<Node<L>>),
    Expand(Box<Node<L>>),
}

impl<L: Widget> BoxItem<L> {
    pub open spec fn child(self) -> Node<L> {
        match self {
            BoxItem::Fixed(_, w) => *w,
            BoxItem::Expand(w) => *w,
        }
    }

    /// The fixed extent, zero for an expanding item.
    pub open spec fn fixed(self) -> int {
        match self {
            BoxItem::Fixed(n, _) => n as int,
            BoxItem::Expand(_) => 0,
        }
    }

    /// The extent the item gets when expanding items get `expand`.
    pub open spec fn extent(self, expand: usize) -> usize {
        match self {
            BoxItem::Fixed(n, _) => n,
            BoxItem::Expand(_) => expand,
        }
    }
}

/// The sum of the fixed extents of `items`.
pub open spec fn fixed_sum<L: Widget>(items: Seq<BoxItem<L>>) -> int
    decreases items.len(),
{
    if items.len() == 0 {
        0
    } else {
        fixed_sum(items.drop_last()) + items.last().fixed()
    }
}

/// What each expanding item gets out of `total`: the room the fixed items
/// leave, or zero. Every expanding item gets all of it.
pub open spec fn expand_extent<L: Widget>(items: Seq<BoxItem<L>>, total: usize) -> usize {
    if fixed_sum(items) >= total {
        0
    } else {
        (total - fixed_sum(items)) as usize
    }
}

/// Where the item after `items` starts: the sum of their extents.
pub open spec fn offset_after<L: Widget>(items: Seq<BoxItem<L>>, expand: usize) -> int
    decreases items.len(),
{
    if items.len() == 0 {
        0
    } else {
        offset_after(items.drop_last(), expand) + items.last().extent(expand)
    }
}

/// The frame of a child that starts at `o` along the axis and extends `ext`.
pub open spec fn child_frame(f: Frame, o: usize, ext: usize, vertical: bool) -> Frame {
    if vertical {
        f.translated((0, o)).clipped((f.size.0, ext))
    } else {
        f.translated((o, 0)).clipped((ext, f.size.1))
    }
}

/// The canvas after drawing each of `items` in its own stripe of `f`, in
/// order; an item whose stripe starts at or beyond `total` is not drawn.
pub open spec fn render_box<L: Widget>(
    items: Seq<BoxItem<L>>,
    f: Frame,
    total: usize,
    expand: usize,
    vertical: bool,
    cv: Canvas,
) -> Canvas
    decreases items,
{
    if items.len() == 0 {
        cv
    } else {
        let before = render_box(items.drop_last(), f, total, expand, vertical, cv);
        let o = offset_after(items.drop_last(), expand);
        let last = items.last();
        if o < total {
            last.child().render_node(child_frame(f, o as usize, last.extent(expand), vertical), before)
        } else {
            before
        }
    }
}

proof fn lemma_offset_monotone<L: Widget>(items: Seq<BoxItem<L>>, expand: usize, i: int, j: int)
    requires
        0 <= i <= j <= items.len(),
    ensures
        offset_after(items.take(i), expand) <= offset_after(items.take(j), expand),
    decreases j - i,
{
    if i < j {
        lemma_offset_monotone(items, expand, i, j - 1);
        assert(items.take(j).drop_last() =~= items.take(j - 1));
    }
}

proof fn lemma_render_box_stops<L: Widget>(
    items: Seq<BoxItem<L>>,
    f: Frame,
    total: usize,
    expand: usize,
    vertical: bool,
    cv: Canvas,
    i: int,
    j: int,
)
    requires
        0 <= i <= j <= items.len(),
        offset_after(items.take(i), expand) >= total,
    ensures
        render_box(items.take(j), f, total, expand, vertical, cv) == render_box(
            items.take(i),
            f,
            total,
            expand,
            vertical,
            cv,
        ),
    decreases j - i,
{
    if i < j {
        lemma_render_box_stops(items, f, total, expand, vertical, cv, i, j - 1);
        assert(items.take(j).drop_last() =~= items.take(j - 1));
        lemma_offset_monotone(items, expand, i, j - 1);
    }
}

/// Children laid out one after another along one axis.
pub struct BoxLayout<L: Widget>(pub Vec<BoxItem<L>>);

impl<L: Widget> BoxLayout<L> {
    pub fn new() -> (r: BoxLayout<L>)
        ensures
            r.0@.len() == 0,
    {
        BoxLayout(Vec::new())
    }

    pub fn push_item(&mut self, item: BoxItem<L>)
        ensures
            final(self).0@ == old(self).0@.push(item),
    {
        self.0.push(item);
    }

    /// The extent of each item out of `total_space`: fixed items get their
    /// own, expanding items all get what the fixed ones leave, or zero.
    pub fn iter_sized_items(&self, total_space: usize) -> (r: Vec<usize>)
        ensures
            r@.len() == self.0@.len(),
            forall|i: int|
                0 <= i < r@.len() ==> #[trigger] r@[i] == self.0@[i].extent(
                    expand_extent(self.0@, total_space),
                ),
    {
        let items = &self.0;
        let mut fixed: usize = 0;
        let mut i: usize = 0;
        while i < items.len()
            invariant
                i <= items@.len(),
                fixed as int == if fixed_sum(items@.take(i as int)) <= usize::MAX {
                    fixed_sum(items@.take(i as int))
                } else {
                    usize::MAX as int
                },
            decreases items@.len() - i,
        {
            proof {
                assert(items@.take(i as int + 1).drop_last() =~= items@.take(i as int));
            }
            match &items[i] {
                BoxItem::Fixed(n, _) => {
                    fixed = fixed.saturating_add(*n);
                },
                BoxItem::Expand(_) => {},
            }
            i = i + 1;
        }
        proof {
            assert(items@.take(i as int) =~= items@);
        }
        let expand = total_space.saturating_sub(fixed);
        let mut r: Vec<usize> = Vec::new();
        let mut k: usize = 0;
        while k < items.len()
            invariant
                k <= items@.len(),
                expand == expand_extent(items@, total_space),
                r@.len() == k,
                forall|j: int| 0 <= j < k ==> #[trigger] r@[j] == items@[j].extent(expand),
            decreases items@.len() - k,
        {
            let ext = match &items[k] {
                BoxItem::Fixed(n, _) => *n,
                BoxItem::Expand(_) => expand,
            };
            r.push(ext);
            k = k + 1;
        }
        r
    }

    /// The stripe `(offset, extent)` of each item that is drawn out of
    /// `total_space`: items are drawn in order while their offset is below
    /// `total_space`.
    pub fn spans(&self, total_space: usize) -> (r: Vec<(usize, usize)>)
        ensures
            r@.len() <= self.0@.len(),
            forall|i: int|
                0 <= i < r@.len() ==> (#[trigger] r@[i]).0 == offset_after(
                    self.0@.take(i),
                    expand_extent(self.0@, total_space),
                ) && r@[i].0 < total_space && r@[i].1 == self.0@[i].extent(
                    expand_extent(self.0@, total_space),
                ),
            r@.len() == self.0@.len() || offset_after(
                self.0@.take(r@.len() as int),
                expand_extent(self.0@, total_space),
            ) >= total_space,
    {
        let exts = self.iter_sized_items(total_space);
        let ghost expand = expand_extent(self.0@, total_space);
        let mut r: Vec<(usize, usize)> = Vec::new();
        let mut o: usize = 0;
        let mut i: usize = 0;
        while i < exts.len()
            invariant
                exts@.len() == self.0@.len(),
                forall|j: int| 0 <= j < exts@.len() ==> #[trigger] exts@[j] == self.0@[j].extent(expand),
                i <= exts@.len(),
                r@.len() == i,
                o as int == if offset_after(self.0@.take(i as int), expand) <= usize::MAX {
                    offset_after(self.0@.take(i as int), expand)
                } else {
                    usize::MAX as int
                },
                forall|j: int|
                    0 <= j < i ==> (#[trigger] r@[j]).0 == offset_after(self.0@.take(j), expand)
                        && r@[j].0 < total_space && r@[j].1 == self.0@[j].extent(expand),
            ensures
                i == exts@.len() || o >= total_space,
                r@.len() == i,
            decreases exts@.len() - i,
        {
            if o >= total_space {
                break;
            }
            proof {
                assert(self.0@.take(i as int + 1).drop_last() =~= self.0@.take(i as int));
            }
            r.push((o, exts[i]));
            o = o.saturating_add(exts[i]);
            i = i + 1;
        }
        r
    }

    /// Draws the items in stripes of the current frame along one axis.
    fn draw_along(&self, ctx: &mut DrawingContext, vertical: bool)
        requires
            old(ctx).wf(),
        ensures
            final(ctx).wf(),
            final(ctx).frames() == old(ctx).frames(),
            final(ctx).canvas() == render_box(
                self.0@,
                old(ctx).top(),
                if vertical { old(ctx).top().size.1 } else { old(ctx).top().size.0 },
                expand_extent(
                    self.0@,
                    if vertical { old(ctx).top().size.1 } else { old(ctx).top().size.0 },
                ),
                vertical,
                old(ctx).canvas(),
            ),
        decreases self,
    {
        let ghost f = ctx.top();
        let (width, height) = ctx.size();
        let total = if vertical {
            height
        } else {
            width
        };
        let exts = self.iter_sized_items(total);
        let ghost expand = expand_extent(self.0@, total);
        let items = &self.0;
        let mut o: usize = 0;
        let mut i: usize = 0;
        while i < items.len()
            invariant
                ctx.wf(),
                ctx.frames() == old(ctx).frames(),
                f == ctx.top(),
                items == &self.0,
                f.size == (width, height),
                total == if vertical { height } else { width },
                expand == expand_extent(self.0@, total),
                exts@.len() == items@.len(),
                forall|j: int| 0 <= j < exts@.len() ==> #[trigger] exts@[j] == items@[j].extent(expand),
                i <= items@.len(),
                o as int == if offset_after(items@.take(i as int), expand) <= usize::MAX {
                    offset_after(items@.take(i as int), expand)
                } else {
                    usize::MAX as int
                },
                ctx.canvas() == render_box(items@.take(i as int), f, total, expand, vertical, old(ctx).canvas()),
            decreases items@.len() - i,
        {
            if o >= total {
                proof {
                    lemma_render_box_stops(
                        items@,
                        f,
                        total,
                        expand,
                        vertical,
                        old(ctx).canvas(),
                        i as int,
                        items@.len() as int,
                    );
                    assert(items@.take(items@.len() as int) =~= items@);
                }
                return;
            }
            proof {
                assert(items@.take(i as int + 1).drop_last() =~= items@.take(i as int));
                assert(items@.take(i as int + 1).last() == items@[i as int]);
            }
            ctx.save();
            if vertical {
                ctx.translate((0, o));
                ctx.clip((width, exts[i]));
            } else {
                ctx.translate((o, 0));
                ctx.clip((exts[i], height));
            }
            proof {
                assert(decreases_to!(self.0 => self.0[i as int]));
            }
            match &items[i] {
                BoxItem::Fixed(_, w) => w.draw_node(ctx),
                BoxItem::Expand(w) => w.draw_node(ctx),
            }
            ctx.restore();
            proof {
                assert(ctx.frames() =~= old(ctx).frames());
            }
            o = o.saturating_add(exts[i]);
            i = i + 1;
        }
        proof {
            assert(items@.take(i as int) =~= items@);
        }
    }
}

/// Children stacked top to bottom.
pub struct VBox<L: Widget>(pub BoxLayout<L>);

impl<L: Widget> VBox<L> {
    pub fn new() -> (r: VBox<L>)
        ensures
            r.0.0@.len() == 0,
    {
        VBox(BoxLayout::new())
    }

    pub fn push_item(&mut self, item: BoxItem<L>)
        ensures
            final(self).0.0@ == old(self).0.0@.push(item),
    {
        self.0.push_item(item);
    }

    pub open spec fn render(&self, f: Frame, cv: Canvas) -> Canvas
        decreases self,
    {
        render_box(self.0.0@, f, f.size.1, expand_extent(self.0.0@, f.size.1), true, cv)
    }

    pub fn draw_on(&self, ctx: &mut DrawingContext)
        requires
            old(ctx).wf(),
        ensures
            final(ctx).wf(),
            final(ctx).frames() == old(ctx).frames(),
            final(ctx).canvas() == self.render(old(ctx).top(), old(ctx).canvas()),
        decreases self,
    {
        self.0.draw_along(ctx, true);
    }
}

/// Children placed left to right.
pub struct HBox<L: Widget>(pub BoxLayout<L>);

impl<L: Widget> HBox<L> {
    pub fn new() -> (r: HBox<L>)
        ensures
            r.0.0@.len() == 0,
    {
        HBox(BoxLayout::new())
    }

    pub fn push_item(&mut self, item: BoxItem<L>)
        ensures
            final(self).0.0@ == old(self).0.0@.push(item),
    {
        self.0.push_item(item);
    }

    pub open spec fn render(&self, f: Frame, cv: Canvas) -> Canvas
        decreases self,
    {
        render_box(self.0.0@, f, f.size.0, expand_extent(self.0.0@, f.size.0), false, cv)
    }

    pub fn draw_on(&self, ctx: &mut DrawingContext)
        requires
            old(ctx).wf(),
        ensures
            final(ctx).wf(),
            final(ctx).frames() == old(ctx).frames(),
            final(ctx).canvas() == self.render(old(ctx).top(), old(ctx).canvas()),
        decreases self,
    {
        self.0.draw_along(ctx, false);
    }
}

} // verus!

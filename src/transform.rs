use vstd::prelude::*;
use crate::context::DrawingContext;
use crate::frame::{Frame, Pos, Size, sat_sub};
use crate::surface::Canvas;
use crate::widget::{Node, Widget};

verus! {

/// Shows its child in at most `size` of the area it is given.
pub struct FixedSize<L: Widget> {
    pub size: Size,
    pub widget: Box<Node<L>>,
}

impl<L: Widget> FixedSize<L> {
    pub fn new(s: Size, w: Box<Node<L>>) -> (r: FixedSize<L>)
        ensures
            r.size == s,
            r.widget == w,
    {
        FixedSize { size: s, widget: w }
    }

    /// The frame the child is drawn in: `f` shrunk to at most `size`.
    pub open spec fn child_frame(&self, f: Frame) -> Frame {
        f.shrunk((sat_sub(f.size.0, self.size.0), sat_sub(f.size.1, self.size.1)))
    }

    pub open spec fn render(&self, f: Frame, cv: Canvas) -> Canvas
        decreases self,
    {
        self.widget.render_node(self.child_frame(f), cv)
    }

    pub fn draw_on(&self, ctx: &mut DrawingContext)
        requires
            old(ctx).wf(),
        ensures
            final(ctx).wf(),
            final(ctx).frames() == old(ctx).frames(),
            final(ctx).canvas() == self.render(old(ctx).top(), old(ctx).canvas()),
        decreases self,
    {
        ctx.save();
        let (w, h) = ctx.size();
        let shrink_x = if w > self.size.0 {
            w - self.size.0
        } else {
            0
        };
        let shrink_y = if h > self.size.1 {
            h - self.size.1
        } else {
            0
        };
        ctx.shrink((shrink_x, shrink_y));
        self.widget.draw_node(ctx);
        ctx.restore();
        proof {
            assert(ctx.frames() =~= old(ctx).frames());
        }
    }
}

/// Shows its child with the origin moved by `offset`.
pub struct Translated<L: Widget> {
    pub offset: Pos,
    pub widget: Box<Node<L>>,
}

impl<L: Widget> Translated<L> {
    fn new(o: Pos, w: Box<Node<L>>) -> (r: Translated<L>)
        ensures
            r.offset == o,
            r.widget == w,
    {
        Translated { offset: o, widget: w }
    }

    pub open spec fn render(&self, f: Frame, cv: Canvas) -> Canvas
        decreases self,
    {
        self.widget.render_node(f.translated(self.offset), cv)
    }

    pub fn draw_on(&self, ctx: &mut DrawingContext)
        requires
            old(ctx).wf(),
        ensures
            final(ctx).wf(),
            final(ctx).frames() == old(ctx).frames(),
            final(ctx).canvas() == self.render(old(ctx).top(), old(ctx).canvas()),
        decreases self,
    {
        ctx.save();
        ctx.translate(self.offset);
        self.widget.draw_node(ctx);
        ctx.restore();
        proof {
            assert(ctx.frames() =~= old(ctx).frames());
        }
    }
}

/// `widget` with its origin moved by `offset`.
pub fn offset<L: Widget>(o: Pos, widget: Box<Node<L>>) -> (r: Box<Node<L>>)
    ensures
        *r == Node::Translated(Translated { offset: o, widget }),
{
    Box::new(Node::Translated(Translated::new(o, widget)))
}

/// `widget` limited to at most `size`.
pub fn sized<L: Widget>(size: Size, widget: Box<Node<L>>) -> (r: Box<Node<L>>)
    ensures
        *r == Node::FixedSize(FixedSize { size, widget }),
{
    Box::new(Node::FixedSize(FixedSize::new(size, widget)))
}

} // verus!

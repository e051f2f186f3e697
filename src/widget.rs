use vstd::prelude::*;
use crate::confinement::{confined, law_render_stays_in_frame};
use crate::context::DrawingContext;
use crate::controls::IndicatorButton;
use crate::draw::Background;
use crate::frame::Frame;
use crate::layout::{HBox, VBox};
use crate::surface::Canvas;
use crate::table::{SimpleModel, TableView};
use crate::transform::{FixedSize, Translated};
use crate::window::{FramedWindow, MessageFill};

verus! {

broadcast use vstd::std_specs::vec::group_vec_axioms, vstd::seq::group_seq_axioms;

/// Something that draws itself through a drawing context, in the local
/// coordinates of the context's current frame.
pub trait Widget {
    /// The canvas after drawing in frame `f` over `cv`.
    spec fn render(&self, f: Frame, cv: Canvas) -> Canvas;

    /// Draws as `render` says and leaves the frame stack as it found it.
    fn draw_on(&self, ctx: &mut DrawingContext)
        requires
            old(ctx).wf(),
        ensures
            final(ctx).wf(),
            final(ctx).frames() == old(ctx).frames(),
            final(ctx).canvas() == self.render(old(ctx).top(), old(ctx).canvas()),
    ;

    /// Drawing changes no cell outside the frame and keeps the canvas's shape.
    proof fn lemma_stays_in_frame(&self, f: Frame, cv: Canvas)
        requires
            cv.wf(),
        ensures
            confined(cv, self.render(f, cv), f),
    ;
}

/// A node of a widget tree: one of the widgets of this library, a composite
/// of further nodes, or a leaf of the caller's own kind `L`.
pub enum Node<L: Widget> {
    Background(Background),
    Layers(Layers<L>),
    VBox(VBox<L>),
    HBox(HBox<L>),
    FixedSize(FixedSize<L>),
    Translated(Translated<L>),
    FramedWindow(FramedWindow),
    MessageFill(MessageFill),
    IndicatorButton(IndicatorButton),
    Table(TableView<SimpleModel>),
    Leaf(L),
}

/// Children drawn one after another on the same area: later ones overwrite
/// earlier ones.
pub struct Layers<L: Widget> {
    pub widgets: Vec<Box<Node<L>>>,
}

impl<L: Widget> Node<L> {
    /// The canvas after drawing the node in frame `f` over `cv`.
    pub open spec fn render_node(&self, f: Frame, cv: Canvas) -> Canvas
        decreases self,
    {
        match self {
            Node::Background(b) => b.render(f, cv),
            Node::Layers(l) => render_all(l.widgets@, f, cv),
            Node::VBox(b) => b.render(f, cv),
            Node::HBox(b) => b.render(f, cv),
            Node::FixedSize(w) => w.render(f, cv),
            Node::Translated(w) => w.render(f, cv),
            Node::FramedWindow(w) => w.render(f, cv),
            Node::MessageFill(w) => w.render(f, cv),
            Node::IndicatorButton(w) => w.render(f, cv),
            Node::Table(w) => w.render(f, cv),
            Node::Leaf(w) => w.render(f, cv),
        }
    }

    pub fn draw_node(&self, ctx: &mut DrawingContext)
        requires
            old(ctx).wf(),
        ensures
            final(ctx).wf(),
            final(ctx).frames() == old(ctx).frames(),
            final(ctx).canvas() == self.render_node(old(ctx).top(), old(ctx).canvas()),
        decreases self,
    {
        match self {
            Node::Background(b) => b.draw_on(ctx),
            Node::Layers(l) => l.draw_on(ctx),
            Node::VBox(b) => b.draw_on(ctx),
            Node::HBox(b) => b.draw_on(ctx),
            Node::FixedSize(w) => w.draw_on(ctx),
            Node::Translated(w) => w.draw_on(ctx),
            Node::FramedWindow(w) => w.draw_on(ctx),
            Node::MessageFill(w) => w.draw_on(ctx),
            Node::IndicatorButton(w) => w.draw_on(ctx),
            Node::Table(w) => w.draw_on(ctx),
            Node::Leaf(w) => w.draw_on(ctx),
        }
    }
}

impl<L: Widget> Widget for Node<L> {
    open spec fn render(&self, f: Frame, cv: Canvas) -> Canvas {
        self.render_node(f, cv)
    }

    fn draw_on(&self, ctx: &mut DrawingContext) {
        self.draw_node(ctx)
    }

    proof fn lemma_stays_in_frame(&self, f: Frame, cv: Canvas) {
        law_render_stays_in_frame(*self, f, cv);
    }
}

/// The canvas after drawing each of `ws` in turn in the same frame.
pub open spec fn render_all<L: Widget>(ws: Seq<Box<Node<L>>>, f: Frame, cv: Canvas) -> Canvas
    decreases ws,
{
    if ws.len() == 0 {
        cv
    } else {
        ws.last().render_node(f, render_all(ws.drop_last(), f, cv))
    }
}

impl<L: Widget> Layers<L> {
    pub fn new() -> (r: Layers<L>)
        ensures
            r.widgets@.len() == 0,
    {
        Layers { widgets: Vec::new() }
    }

    pub fn push_widget(&mut self, w: Box<Node<L>>)
        ensures
            final(self).widgets@ == old(self).widgets@.push(w),
    {
        self.widgets.push(w);
    }

    pub fn draw_on(&self, ctx: &mut DrawingContext)
        requires
            old(ctx).wf(),
        ensures
            final(ctx).wf(),
            final(ctx).frames() == old(ctx).frames(),
            final(ctx).canvas() == render_all(self.widgets@, old(ctx).top(), old(ctx).canvas()),
        decreases self,
    {
        let ghost f = ctx.top();
        let mut i: usize = 0;
        while i < self.widgets.len()
            invariant
                ctx.wf(),
                ctx.frames() == old(ctx).frames(),
                f == ctx.top(),
                i <= self.widgets@.len(),
                ctx.canvas() == render_all(self.widgets@.take(i as int), f, old(ctx).canvas()),
            decreases self.widgets@.len() - i,
        {
            proof {
                assert(self.widgets@.take(i as int + 1).drop_last() =~= self.widgets@.take(i as int));
            }
            self.widgets[i].draw_node(ctx);
            i = i + 1;
        }
        proof {
            assert(self.widgets@.take(i as int) =~= self.widgets@);
        }
    }
}

} // verus!

use vstd::prelude::*;
use crate::cell::Cell;
use crate::context::DrawingContext;
use crate::frame::Frame;
use crate::surface::Canvas;
use crate::widget::Widget;
use crate::confinement::{lemma_confined_refl, lemma_fill_confined};

verus! {

/// Fills its whole area with one cell.
pub struct Background {
    pub bg_cell: Cell,
}

impl Background {
    pub fn new(cell: Cell) -> (r: Background)
        ensures
            r.bg_cell == cell,
    {
        Background { bg_cell: cell }
    }
}

impl Widget for Background {
    open spec fn render(&self, f: Frame, cv: Canvas) -> Canvas {
        cv.fill(f, self.bg_cell)
    }

    fn draw_on(&self, ctx: &mut DrawingContext) {
        ctx.fill(self.bg_cell);
    }

    proof fn lemma_stays_in_frame(&self, f: Frame, cv: Canvas) {
        lemma_fill_confined(cv, f, self.bg_cell);
    }
}

/// Draws nothing: empty room in a layout.
pub struct Spacer;

impl Widget for Spacer {
    open spec fn render(&self, f: Frame, cv: Canvas) -> Canvas {
        cv
    }

    fn draw_on(&self, ctx: &mut DrawingContext) {
    }

    proof fn lemma_stays_in_frame(&self, f: Frame, cv: Canvas) {
        lemma_confined_refl(cv, f);
    }
}

} // verus!

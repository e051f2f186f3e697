use vstd::prelude::*;
use crate::cell::{Attr, Color, Style, default_style};
use crate::context::DrawingContext;
use crate::frame::Frame;
use crate::surface::Canvas;
use crate::widget::Widget;
use crate::confinement::lemma_button_confined;

verus! {

/// A button label on one row: the hotkey, then the text, together at most
/// `size` characters.
pub struct IndicatorButton {
    pub enabled: bool,
    pub text: String,
    pub hotkey: String,
    pub size: usize,
    pub active_style: Style,
    pub inactive_style: Style,
    pub hotkey_style: Style,
}

impl IndicatorButton {
    pub fn new() -> (r: IndicatorButton)
        ensures
            !r.enabled,
            r.text@.len() == 0,
            r.hotkey@.len() == 0,
            r.size == 12,
            r.active_style == (Color::Default, Color::Default, Attr::Default),
            r.inactive_style == r.active_style,
            r.hotkey_style == r.active_style,
    {
        IndicatorButton {
            enabled: false,
            text: String::new(),
            hotkey: String::new(),
            size: 12,
            active_style: default_style(),
            inactive_style: default_style(),
            hotkey_style: default_style(),
        }
    }

    pub fn enabled(self, enabled: bool) -> (r: IndicatorButton)
        ensures
            r == (IndicatorButton { enabled, ..self }),
    {
        IndicatorButton { enabled, ..self }
    }

    pub fn text(self, text: String) -> (r: IndicatorButton)
        ensures
            r == (IndicatorButton { text, ..self }),
    {
        IndicatorButton { text, ..self }
    }

    pub fn hotkey(self, hotkey: String) -> (r: IndicatorButton)
        ensures
            r == (IndicatorButton { hotkey, ..self }),
    {
        IndicatorButton { hotkey, ..self }
    }

    pub fn size(self, size: usize) -> (r: IndicatorButton)
        ensures
            r == (IndicatorButton { size, ..self }),
    {
        IndicatorButton { size, ..self }
    }

    pub fn active_style(self, style: Style) -> (r: IndicatorButton)
        ensures
            r == (IndicatorButton { active_style: style, ..self }),
    {
        IndicatorButton { active_style: style, ..self }
    }

    pub fn inactive_style(self, style: Style) -> (r: IndicatorButton)
        ensures
            r == (IndicatorButton { inactive_style: style, ..self }),
    {
        IndicatorButton { inactive_style: style, ..self }
    }

    pub fn hotkey_style(self, style: Style) -> (r: IndicatorButton)
        ensures
            r == (IndicatorButton { hotkey_style: style, ..self }),
    {
        IndicatorButton { hotkey_style: style, ..self }
    }

    /// How many hotkey characters are shown.
    pub open spec fn hotkey_shown(&self) -> usize {
        if self.hotkey@.len() <= self.size {
            self.hotkey@.len() as usize
        } else {
            self.size
        }
    }

    /// How many text characters are shown.
    pub open spec fn text_shown(&self) -> usize {
        let room = (self.size - self.hotkey_shown()) as usize;
        if self.text@.len() <= room {
            self.text@.len() as usize
        } else {
            room
        }
    }
}

impl Widget for IndicatorButton {
    /// The shown part of the hotkey from column zero, then the shown part
    /// of the text right after it, in the active or inactive style.
    open spec fn render(&self, f: Frame, cv: Canvas) -> Canvas {
        let k = self.hotkey_shown();
        cv.text(f, (0, 0), self.hotkey@.take(k as int), self.hotkey_style).text(
            f,
            (k, 0),
            self.text@.take(self.text_shown() as int),
            if self.enabled {
                self.active_style
            } else {
                self.inactive_style
            },
        )
    }

    fn draw_on(&self, ctx: &mut DrawingContext) {
        let hotkey_len = self.hotkey.as_str().unicode_len();
        let btn_offset = if self.size <= hotkey_len {
            self.size
        } else {
            hotkey_len
        };
        let hotkey = self.hotkey.as_str().substring_char(0, btn_offset);
        ctx.text((0, 0), hotkey, self.hotkey_style);
        let text_len = self.text.as_str().unicode_len();
        let room = self.size - btn_offset;
        let shown = if text_len <= room {
            text_len
        } else {
            room
        };
        let text = self.text.as_str().substring_char(0, shown);
        let style = if self.enabled {
            self.active_style
        } else {
            self.inactive_style
        };
        ctx.text((btn_offset, 0), text, style);
    }

    proof fn lemma_stays_in_frame(&self, f: Frame, cv: Canvas) {
        lemma_button_confined(self, f, cv);
    }
}

} // verus!

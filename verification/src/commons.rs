//! The state that all views of the presenter share: the window size, a pressed mouse button,
//! how far the session is scrolled, and the line being typed.

use vstd::prelude::*;
use crate::locator::{loc_line, MaybeSessionLocator, SessionLocator};
use crate::screen::{
    compacted_row_of, cursor_room_fits, insert_str_fits, new_screen_view, screen_wf, sv_insert_str, sv_make_room, Screen,
};
use crate::scroll::{locate_down, locate_end, locate_up, spec_locate_down, spec_locate_end, spec_locate_up};
use crate::session::{session_wf, LineItem, LineType, Session, SessionView};

verus! {

/// After scrolling up by a page, the position is moved `h` lines up and `h` lines down again,
/// so that a whole page of the session is shown where there is one. `None` where there is
/// nothing to fix (no page given, or the session ends first), or where the line count of the
/// move would not fit a `usize`.
pub open spec fn spec_page_fix(s: SessionView, loc: SessionLocator, show_last_prompt: bool, page: Option<usize>) -> MaybeSessionLocator {
    match page {
        None => None,
        Some(h) => match spec_locate_up(s, loc, h) {
            Some(up) => if loc_line(up) + h <= usize::MAX {
                spec_locate_down(s, up, show_last_prompt, h)
            } else {
                None
            },
            None => None,
        },
    }
}

/// The fixed position where there is one, else the position itself.
pub open spec fn fixed_or(fix: MaybeSessionLocator, loc: SessionLocator) -> SessionLocator {
    match fix {
        Some(f) => f,
        None => loc,
    }
}

/// The last shown line after scrolling up by `n` lines. Where nothing was scrolled yet, the
/// scrolling starts from the end of the session.
pub open spec fn spec_scroll_up(
    s: SessionView,
    end_line: MaybeSessionLocator,
    show_last_prompt: bool,
    n: usize,
    page: Option<usize>,
) -> MaybeSessionLocator {
    match end_line {
        Some(loc) => match spec_locate_up(s, loc, n) {
            Some(new_loc) => Some(fixed_or(spec_page_fix(s, new_loc, show_last_prompt, page), new_loc)),
            None => Some(loc),
        },
        None => match spec_locate_end(s, show_last_prompt) {
            Some(e) => match spec_locate_up(s, e, n) {
                Some(l) => Some(fixed_or(spec_page_fix(s, l, show_last_prompt, page), l)),
                None => None,
            },
            None => None,
        },
    }
}

/// The last shown line after scrolling down by `n` lines: nothing where the session ends
/// first, so that the end of the session is followed again. A move whose line count would not
/// fit a `usize` leaves the position as it is.
pub open spec fn spec_scroll_down(s: SessionView, end_line: MaybeSessionLocator, show_last_prompt: bool, n: usize) -> MaybeSessionLocator {
    match end_line {
        Some(loc) => if loc_line(loc) + n <= usize::MAX {
            spec_locate_down(s, loc, show_last_prompt, n)
        } else {
            Some(loc)
        },
        None => None,
    }
}

/// The first of `n` lines to draw that end at the last shown line, or at the end of the
/// session where nothing is scrolled.
pub open spec fn spec_start_line(s: SessionView, end_line: MaybeSessionLocator, show_last_prompt: bool, n: usize) -> MaybeSessionLocator {
    let end = match end_line {
        Some(l) => Some(l),
        None => spec_locate_end(s, show_last_prompt),
    };
    match end {
        Some(l) => spec_locate_up(s, l, n),
        None => None,
    }
}

/// The line item of row `y` of the input: its cells up to the last drawn one, and the cursor
/// where the cursor is in that row.
pub open spec fn input_line(m: crate::screen::MatrixView, cursor: (int, int), y: int) -> (Seq<crate::screen::Cell>, LineType, Option<usize>, u64) {
    (compacted_row_of(m, y), LineType::Input, if y == cursor.1 {
        Some(cursor.0 as usize)
    } else {
        None
    }, 0)
}

/// Data that is common to all presenter views.
pub struct PresenterCommons {
    /// Width of the window in characters
    pub window_width: usize,
    /// Height of the window in characters
    pub window_height: usize,
    /// Position where a mouse button was pushed: button, column, row.
    pub button_down: Option<(usize, usize, usize)>,
    /// The last line of the session that is shown; `None` follows the end of the session.
    pub session_end_line: MaybeSessionLocator,
    /// Currently edited input line
    pub text_input: Screen,
}

impl PresenterCommons {
    /// The input line is a well-formed screen.
    pub open spec fn wf(&self) -> bool {
        screen_wf(self.text_input@)
    }

    /// Fresh common data: no window size yet, no button pressed, the session followed to its
    /// end and an empty input line with room for the cursor.
    pub fn new() -> (c: Self)
        ensures
            c.wf(),
            c.window_width == 0,
            c.window_height == 0,
            c.button_down is None,
            c.session_end_line is None,
            c.text_input@ == sv_make_room(new_screen_view()),
    {
        let mut text_input = Screen::new();
        text_input.make_room();
        PresenterCommons { window_width: 0, window_height: 0, button_down: None, session_end_line: None, text_input }
    }

    /// The lines of the input, top to bottom, each with the cursor where it is in that row.
    pub fn input_line_iter(&self) -> (r: Vec<LineItem>)
        requires
            self.wf(),
        ensures
            r@.len() == self.text_input@.matrix.height,
            forall|y: int|
                0 <= y < r@.len() ==> ((#[trigger] r@[y]).text@, r@[y].is_a, r@[y].cursor_col, r@[y].prompt_hash)
                    == input_line(self.text_input@.matrix, self.text_input@.cursor, y),
    {
        let rows = self.text_input.line_iter();
        let cx = self.text_input.cursor_x();
        let cy = self.text_input.cursor_y();
        let h = self.text_input.height();
        let mut r: Vec<LineItem> = Vec::new();
        let mut k: usize = 0;
        while k < rows.len()
            invariant
                self.wf(),
                rows@.len() == self.text_input@.matrix.height,
                forall|y: int| 0 <= y < rows@.len() ==> (#[trigger] rows@[y])@ == compacted_row_of(self.text_input@.matrix, y),
                cx == self.text_input@.cursor.0,
                cy == self.text_input@.cursor.1,
                h == self.text_input@.matrix.height,
                k <= rows@.len(),
                r@.len() == k,
                forall|y: int|
                    0 <= y < k ==> ((#[trigger] r@[y]).text@, r@[y].is_a, r@[y].cursor_col, r@[y].prompt_hash)
                        == input_line(self.text_input@.matrix, self.text_input@.cursor, y),
            decreases rows@.len() - k,
        {
            let cursor_col = if k as isize == cy {
                Some(cx as usize)
            } else {
                None
            };
            r.push(LineItem::new(rows[k], LineType::Input, cursor_col, 0));
            k = k + 1;
        }
        r
    }

    /// Insert typed text at the cursor of the input line.
    pub fn text_input_add_characters(&mut self, s: &str)
        requires
            old(self).wf(),
            insert_str_fits(old(self).text_input@, s@),
        ensures
            final(self).wf(),
            final(self).text_input@ == sv_insert_str(old(self).text_input@, s@),
            final(self).window_width == old(self).window_width,
            final(self).window_height == old(self).window_height,
            final(self).button_down == old(self).button_down,
            final(self).session_end_line == old(self).session_end_line,
    {
        self.text_input.insert_str(s);
    }

    /// Change the last shown line by going up `n` lines. With `page`, the position is then
    /// fixed so that a page of that many lines is filled (see `spec_page_fix`).
    pub fn scroll_up(&mut self, session: &Session, show_last_prompt: bool, n: usize, page: Option<usize>)
        requires
            session_wf(session@),
        ensures
            final(self).session_end_line == spec_scroll_up(session@, old(self).session_end_line, show_last_prompt, n, page),
            final(self).text_input == old(self).text_input,
            final(self).window_width == old(self).window_width,
            final(self).window_height == old(self).window_height,
            final(self).button_down == old(self).button_down,
    {
        match self.session_end_line {
            Some(loc) => {
                if let Some(new_loc) = locate_up(session, &loc, n) {
                    let fix = page_fix(session, &new_loc, show_last_prompt, page);
                    self.session_end_line = Some(
                        match fix {
                            Some(f) => f,
                            None => new_loc,
                        },
                    );
                }
            },
            None => {
                if let Some(end) = locate_end(session, show_last_prompt) {
                    if let Some(loc) = locate_up(session, &end, n) {
                        let fix = page_fix(session, &loc, show_last_prompt, page);
                        self.session_end_line = Some(
                            match fix {
                                Some(f) => f,
                                None => loc,
                            },
                        );
                    }
                }
            },
        }
    }

    /// Change the last shown line by going down `n` lines; past the end of the session, the
    /// end is followed again.
    pub fn scroll_down(&mut self, session: &Session, show_last_prompt: bool, n: usize)
        requires
            session_wf(session@),
        ensures
            final(self).session_end_line == spec_scroll_down(session@, old(self).session_end_line, show_last_prompt, n),
            final(self).text_input == old(self).text_input,
            final(self).window_width == old(self).window_width,
            final(self).window_height == old(self).window_height,
            final(self).button_down == old(self).button_down,
    {
        if let Some(loc) = self.session_end_line {
            if loc.line() <= usize::MAX - n {
                self.session_end_line = locate_down(session, &loc, show_last_prompt, n);
            }
        }
    }

    /// Follow the end of the session again.
    pub fn to_last_line(&mut self)
        ensures
            final(self).session_end_line is None,
            final(self).text_input == old(self).text_input,
            final(self).window_width == old(self).window_width,
            final(self).window_height == old(self).window_height,
            final(self).button_down == old(self).button_down,
    {
        self.session_end_line = None;
    }

    /// The first of `n` lines to draw.
    pub fn start_line(&self, session: &Session, show_last_prompt: bool, n: usize) -> (r: MaybeSessionLocator)
        requires
            session_wf(session@),
        ensures
            r == spec_start_line(session@, self.session_end_line, show_last_prompt, n),
    {
        let end = match self.session_end_line {
            Some(l) => Some(l),
            None => locate_end(session, show_last_prompt),
        };
        match end {
            Some(l) => locate_up(session, &l, n),
            None => None,
        }
    }
}

/// The page fix of `spec_page_fix`.
fn page_fix(session: &Session, loc: &SessionLocator, show_last_prompt: bool, page: Option<usize>) -> (r: MaybeSessionLocator)
    requires
        session_wf(session@),
    ensures
        r == spec_page_fix(session@, *loc, show_last_prompt, page),
{
    match page {
        None => None,
        Some(h) => match locate_up(session, loc, h) {
            Some(up) => {
                if up.line() <= usize::MAX - h {
                    locate_down(session, &up, show_last_prompt, h)
                } else {
                    None
                }
            },
            None => None,
        },
    }
}

} // verus!

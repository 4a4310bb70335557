//! The view while a command runs: the session scrolls above, and the line typed below is sent
//! to the program's input.

use vstd::prelude::*;
use crate::commons::{input_line, spec_scroll_down, spec_scroll_up, spec_start_line, PresenterCommons};
use crate::locator::{loc_line, MaybeSessionLocator, SessionLocator};
use crate::presenter::{spec_prefix, DisplayLine, ModifierState, PresenterCommand, SpecialKey};
use crate::scroll::{locate_down, spec_locate_down};
use crate::screen::{
    row_of, screen_wf, MatrixView,
    blank_cell, cells_text, compacted_len, compacted_row_of, cursor_room_fits, initial_colors, insert_str_fits, is_drawn,
    rows_text, sv_delete_character, sv_insert_str, sv_make_room, sv_move_cursor_to, sv_reset, ScreenView, CHARDRAWN,
};
use crate::session::{
    cycled_visibility, interaction_of, session_wf, spec_display_line, with_visibility_all, InteractionHandle, LineItem,
    LineType, Session, SessionView,
};

verus! {

/// What the presenter asks of the program that runs in the current interaction.
#[derive(Debug, PartialEq, Eq)]
pub enum JobRequest {
    /// Nothing to do.
    Nothing,
    /// Write the text to the program's input.
    WriteStdin(String),
    /// Stop the program.
    Terminate,
}

/// A request as a value.
pub enum JobRequestView {
    Nothing,
    WriteStdin(Seq<char>),
    Terminate,
}

impl View for JobRequest {
    type V = JobRequestView;

    open spec fn view(&self) -> JobRequestView {
        match self {
            JobRequest::Nothing => JobRequestView::Nothing,
            JobRequest::WriteStdin(s) => JobRequestView::WriteStdin(s@),
            JobRequest::Terminate => JobRequestView::Terminate,
        }
    }
}

/// The modifier flags as (shift, control, meta).
pub open spec fn mod_tuple(m: ModifierState) -> (bool, bool, bool) {
    (m.shift_pressed, m.control_pressed, m.meta_pressed)
}

/// No modifier key is pressed.
pub open spec fn no_modifier(m: ModifierState) -> bool {
    !(m.shift_pressed || m.control_pressed || m.meta_pressed)
}

/// No modifier key is pressed.
pub open spec fn plain(m: (bool, bool, bool)) -> bool {
    m == (false, false, false)
}

/// Only shift is pressed.
pub open spec fn shifted(m: (bool, bool, bool)) -> bool {
    m == (true, false, false)
}

/// The key combinations that this view handles.
pub open spec fn execute_key_handled(m: (bool, bool, bool), key: SpecialKey) -> bool {
    ||| plain(m) && (key == SpecialKey::Enter || key == SpecialKey::Left || key == SpecialKey::Right
        || key == SpecialKey::Home || key == SpecialKey::End || key == SpecialKey::Delete
        || key == SpecialKey::Backspace)
    ||| shifted(m) && (key == SpecialKey::PageUp || key == SpecialKey::PageDown)
    ||| key == SpecialKey::Space && (m == (false, true, false) || m == (true, true, false))
}

/// The input line after a key: Enter empties it, the cursor keys move in it, Delete and
/// Backspace remove a character.
pub open spec fn execute_key_input(ti: ScreenView, m: (bool, bool, bool), key: SpecialKey) -> ScreenView {
    if plain(m) {
        match key {
            SpecialKey::Enter => sv_make_room(sv_reset(ti)),
            SpecialKey::Left => sv_move_cursor_to(ti, ti.cursor.0 - 1, ti.cursor.1),
            SpecialKey::Right => sv_move_cursor_to(ti, ti.cursor.0 + 1, ti.cursor.1),
            SpecialKey::Home => ScreenView { cursor: (0, ti.cursor.1), ..ti },
            SpecialKey::End => ScreenView { cursor: (ti.matrix.width, ti.cursor.1), ..ti },
            SpecialKey::Delete => sv_delete_character(ti),
            SpecialKey::Backspace => if ti.cursor.0 > 0 {
                sv_delete_character(sv_move_cursor_to(ti, ti.cursor.0 - 1, ti.cursor.1))
            } else {
                ti
            },
            _ => ti,
        }
    } else {
        ti
    }
}

/// The session after a key: Ctrl-Space cycles what the current interaction shows,
/// Shift-Ctrl-Space does so and then makes every interaction show the same.
pub open spec fn execute_key_session(s: SessionView, h: InteractionHandle, m: (bool, bool, bool), key: SpecialKey) -> SessionView {
    if key == SpecialKey::Space && m == (false, true, false) {
        cycled_visibility(s, h)
    } else if key == SpecialKey::Space && m == (true, true, false) {
        let s1 = cycled_visibility(s, h);
        if h.index() < s1.interactions.len() {
            with_visibility_all(s1, interaction_of(s1, h).visible)
        } else {
            s1
        }
    } else {
        s
    }
}

/// The last shown line after a key: Shift-PageUp scrolls up by half a window and fills a page
/// of the session's part of the window, Shift-PageDown scrolls down by half a window.
pub open spec fn execute_key_end_line(
    s: SessionView,
    end_line: MaybeSessionLocator,
    ti: ScreenView,
    window_height: usize,
    m: (bool, bool, bool),
    key: SpecialKey,
) -> MaybeSessionLocator {
    if shifted(m) && key == SpecialKey::PageUp {
        spec_scroll_up(s, end_line, false, window_height / 2, Some((window_height - ti.matrix.height) as usize))
    } else if shifted(m) && key == SpecialKey::PageDown {
        spec_scroll_down(s, end_line, false, window_height / 2)
    } else {
        end_line
    }
}

/// The request to the program after a key: Enter sends the typed text.
pub open spec fn execute_key_request(ti: ScreenView, m: (bool, bool, bool), key: SpecialKey) -> JobRequestView {
    if plain(m) && key == SpecialKey::Enter {
        JobRequestView::WriteStdin(rows_text(ti.matrix, ti.matrix.height))
    } else {
        JobRequestView::Nothing
    }
}

/// The limits that a key's edit of the input line must fit: room for the cursor, a cursor
/// column that can move by one, room where Backspace moves it, and an input line no higher
/// than the window where the page is computed.
pub open spec fn execute_key_fits(ti: ScreenView, window_height: usize, key: SpecialKey) -> bool {
    &&& cursor_room_fits(ti)
    &&& isize::MIN < ti.cursor.0 < isize::MAX
    &&& ti.cursor.0 > 0 ==> cursor_room_fits(sv_move_cursor_to(ti, ti.cursor.0 - 1, ti.cursor.1))
    &&& key == SpecialKey::PageUp ==> ti.matrix.height <= window_height
}

/// The program's answer to Ctrl-C and Ctrl-D: stop it, or send it the end-of-file character.
pub open spec fn execute_letter_request(m: (bool, bool, bool), letter: u8) -> JobRequestView {
    if m == (false, true, false) && letter == 99 {
        JobRequestView::Terminate
    } else if m == (false, true, false) && letter == 100 {
        JobRequestView::WriteStdin(seq!['\u{4}'])
    } else {
        JobRequestView::Nothing
    }
}

/// Enter hands over what was typed and empties the input: a second Enter sends a bare line
/// break.
pub proof fn law_enter_empties_input(ti: ScreenView)
    ensures
        execute_key_request(execute_key_input(ti, (false, false, false), SpecialKey::Enter), (false, false, false), SpecialKey::Enter)
            == JobRequestView::WriteStdin(seq!['\n']),
{
    let s = sv_make_room(sv_reset(ti));
    let m = s.matrix;
    assert(m.width == 1 && m.height == 1);
    let row = row_of(m, 0);
    assert(row.len() == 1);
    assert(row[0] == blank_cell(initial_colors()));
    assert(0u16 & CHARDRAWN != CHARDRAWN) by (bit_vector);
    assert(!is_drawn(row.last()));
    assert(compacted_len(row.drop_last()) == 0);
    assert(compacted_len(row) == 0);
    assert(compacted_row_of(m, 0) =~= Seq::<crate::screen::Cell>::empty());
    assert(cells_text(compacted_row_of(m, 0)) =~= Seq::<char>::empty());
    assert(rows_text(m, 0) =~= Seq::<char>::empty());
    assert(rows_text(m, 1) =~= seq!['\n']);
}

/// A drawn row as a value: its row number, the decoration, the cells and the cursor column.
pub type RowView = (int, Seq<crate::screen::Cell>, Seq<crate::screen::Cell>, Option<usize>);

/// The drawn rows as values.
pub open spec fn rows_view(v: Seq<(usize, DisplayLine)>) -> Seq<RowView> {
    v.map_values(|e: (usize, DisplayLine)| (e.0 as int, e.1.prefix@, e.1.line@, e.1.cursor_col))
}

/// The session rows drawn from row `row` on, below `height`, starting at the line of `loc`:
/// a row whose locator shows a line draws it with its decoration; the rows end where the
/// session does (or where the next line's index would not fit a `usize`).
pub open spec fn session_rows(s: SessionView, loc: SessionLocator, row: int, height: int) -> Seq<RowView>
    decreases height - row,
{
    if row >= height {
        Seq::empty()
    } else {
        let here = match spec_display_line(s, loc) {
            Some((text, t)) => seq![(row, spec_prefix(t), text, None::<usize>)],
            None => Seq::empty(),
        };
        let next = if loc_line(loc) + 1 <= usize::MAX {
            spec_locate_down(s, loc, false, 1)
        } else {
            None
        };
        here + match next {
            Some(n) => session_rows(s, n, row + 1, height),
            None => Seq::empty(),
        }
    }
}

/// The input rows drawn below the session, from row `first` on.
pub open spec fn input_rows(ti: ScreenView, first: int) -> Seq<RowView> {
    Seq::new(
        ti.matrix.height as nat,
        |y: int|
            {
                let (text, _t, cursor, _h) = input_line(ti.matrix, ti.cursor, y);
                (first + y, spec_prefix(LineType::Input), text, cursor)
            },
    )
}

/// Presenter to run commands and send input to their stdin.
pub struct ExecuteCommandPresenter {
    /// Common data.
    pub commons: PresenterCommons,
    /// Current interaction
    pub current_interaction: InteractionHandle,
}

impl ExecuteCommandPresenter {
    /// Show the interaction that runs, with the session followed to its end.
    pub fn new(commons: PresenterCommons, current_interaction: InteractionHandle) -> (p: Self)
        ensures
            p.current_interaction == current_interaction,
            p.commons.session_end_line is None,
            p.commons.text_input == commons.text_input,
            p.commons.window_width == commons.window_width,
            p.commons.window_height == commons.window_height,
            p.commons.button_down == commons.button_down,
    {
        let mut commons = commons;
        commons.to_last_line();
        ExecuteCommandPresenter { commons, current_interaction }
    }

    /// The number of window rows left for the session above the input.
    pub fn compute_session_height(&self) -> (h: usize)
        requires
            self.commons.wf(),
            self.commons.text_input@.matrix.height <= self.commons.window_height,
        ensures
            h == self.commons.window_height - self.commons.text_input@.matrix.height,
    {
        let input_height = self.commons.text_input.height() as usize;
        self.commons.window_height - input_height
    }

    /// The rows to draw: the session in the rows above the input, from the start line down,
    /// then the lines of the input.
    pub fn display_lines(&self, session: &Session) -> (r: Vec<(usize, DisplayLine)>)
        requires
            self.commons.wf(),
            session_wf(session@),
            self.commons.text_input@.matrix.height <= self.commons.window_height,
        ensures
            ({
                let h = self.commons.window_height - self.commons.text_input@.matrix.height;
                rows_view(r@) == (match spec_start_line(session@, self.commons.session_end_line, false, h as usize) {
                    Some(loc) => session_rows(session@, loc, 0, h),
                    None => Seq::empty(),
                }) + input_rows(self.commons.text_input@, h)
            }),
    {
        let h = self.compute_session_height();
        let mut r: Vec<(usize, DisplayLine)> = Vec::new();
        if let Some(start) = self.commons.start_line(session, false, h) {
            let mut loc = start;
            let mut row: usize = 0;
            loop
                invariant_except_break
                    rows_view(r@) + session_rows(session@, loc, row as int, h as int) == session_rows(
                        session@,
                        start,
                        0,
                        h as int,
                    ),
                invariant
                    session_wf(session@),
                    row <= h,
                ensures
                    rows_view(r@) == session_rows(session@, start, 0, h as int),
                decreases h - row,
            {
                if row >= h {
                    proof {
                        assert(rows_view(r@) + Seq::<RowView>::empty() =~= rows_view(r@));
                    }
                    break;
                }
                let ghost before = r@;
                let ghost here_loc = loc;
                let ghost here_row = row;
                match session.display_line(&loc) {
                    Some(line) => {
                        let d = DisplayLine::from(line);
                        r.push((row, d));
                        proof {
                            assert(rows_view(r@) =~= rows_view(before).push((here_row as int, d.prefix@, d.line@, d.cursor_col)));
                        }
                    },
                    None => {},
                }
                row = row + 1;
                let next = if loc.line() < usize::MAX {
                    locate_down(session, &loc, false, 1)
                } else {
                    None
                };
                match next {
                    Some(n) => {
                        loc = n;
                        proof {
                            assert(rows_view(r@) + session_rows(session@, loc, row as int, h as int) =~= rows_view(before)
                                + session_rows(session@, here_loc, here_row as int, h as int));
                        }
                    },
                    None => {
                        proof {
                            assert(rows_view(r@) =~= rows_view(before) + session_rows(session@, here_loc, here_row as int, h as int));
                        }
                        break;
                    },
                }
            }
        }
        let ghost session_part = rows_view(r@);
        let inputs = self.commons.input_line_iter();
        let mut k: usize = 0;
        while k < inputs.len()
            invariant
                self.commons.wf(),
                h == self.commons.window_height - self.commons.text_input@.matrix.height,
                inputs@.len() == self.commons.text_input@.matrix.height,
                forall|y: int|
                    0 <= y < inputs@.len() ==> ((#[trigger] inputs@[y]).text@, inputs@[y].is_a, inputs@[y].cursor_col,
                    inputs@[y].prompt_hash) == input_line(self.commons.text_input@.matrix, self.commons.text_input@.cursor, y),
                k <= inputs@.len(),
                rows_view(r@) == session_part + input_rows(self.commons.text_input@, h as int).take(k as int),
            decreases inputs@.len() - k,
        {
            let item = LineItem::new(&inputs[k].text, inputs[k].is_a, inputs[k].cursor_col, inputs[k].prompt_hash);
            let d = DisplayLine::from(item);
            let ghost before = r@;
            r.push((h + k, d));
            proof {
                assert(rows_view(r@) =~= rows_view(before).push(((h + k) as int, d.prefix@, d.line@, d.cursor_col)));
                assert(input_rows(self.commons.text_input@, h as int).take(k + 1) =~= input_rows(
                    self.commons.text_input@,
                    h as int,
                ).take(k as int).push(input_rows(self.commons.text_input@, h as int)[k as int]));
            }
            k = k + 1;
        }
        proof {
            assert(input_rows(self.commons.text_input@, h as int).take(k as int) =~= input_rows(self.commons.text_input@, h as int));
        }
        r
    }

    /// Whether a key's edit fits the limits that `event_special_key` asks for.
    pub fn key_fits(&self, key: SpecialKey) -> (b: bool)
        requires
            self.commons.wf(),
        ensures
            b == execute_key_fits(self.commons.text_input@, self.commons.window_height, key),
    {
        let ti = &self.commons.text_input;
        let x = ti.cursor_x();
        let y = ti.cursor_y();
        if !ti.cursor_fits() || x == isize::MIN || x == isize::MAX {
            return false;
        }
        if x > 0 && !ti.is_fixed_size() && !ti.room_fits_check(x - 1, y) {
            return false;
        }
        match key {
            SpecialKey::PageUp => (ti.height() as usize) <= self.commons.window_height,
            _ => true,
        }
    }

    /// Handle the event when a modifier and a special key is pressed.
    pub fn event_special_key(&mut self, session: &mut Session, mod_state: &ModifierState, key: SpecialKey) -> (r: (
        PresenterCommand,
        JobRequest,
    ))
        requires
            old(self).commons.wf(),
            session_wf(old(session)@),
            execute_key_fits(old(self).commons.text_input@, old(self).commons.window_height, key),
        ensures
            final(self).commons.wf(),
            session_wf(final(session)@),
            r.0 == if execute_key_handled(mod_tuple(*mod_state), key) {
                PresenterCommand::Redraw
            } else {
                PresenterCommand::Unknown
            },
            r.1@ == execute_key_request(old(self).commons.text_input@, mod_tuple(*mod_state), key),
            final(self).commons.text_input@ == execute_key_input(old(self).commons.text_input@, mod_tuple(*mod_state), key),
            final(self).commons.session_end_line == execute_key_end_line(
                old(session)@,
                old(self).commons.session_end_line,
                old(self).commons.text_input@,
                old(self).commons.window_height,
                mod_tuple(*mod_state),
                key,
            ),
            final(session)@ == execute_key_session(old(session)@, old(self).current_interaction, mod_tuple(*mod_state), key),
            final(self).current_interaction == old(self).current_interaction,
            final(self).commons.window_width == old(self).commons.window_width,
            final(self).commons.window_height == old(self).commons.window_height,
            final(self).commons.button_down == old(self).commons.button_down,
    {
        let ghost ti = self.commons.text_input@;
        match (mod_state.as_tuple(), key) {
            ((false, false, false), SpecialKey::Enter) => {
                let line = self.commons.text_input.extract_text();
                self.commons.text_input.reset();
                self.commons.text_input.make_room();
                (PresenterCommand::Redraw, JobRequest::WriteStdin(line))
            },
            ((false, false, false), SpecialKey::Left) => {
                self.commons.text_input.move_left(1);
                (PresenterCommand::Redraw, JobRequest::Nothing)
            },
            ((false, false, false), SpecialKey::Right) => {
                self.commons.text_input.move_right(1);
                (PresenterCommand::Redraw, JobRequest::Nothing)
            },
            ((true, false, false), SpecialKey::PageUp) => {
                // Shift only -> Scroll
                let middle = self.commons.window_height / 2;
                let session_height = self.compute_session_height();
                self.commons.scroll_up(session, false, middle, Some(session_height));
                (PresenterCommand::Redraw, JobRequest::Nothing)
            },
            ((true, false, false), SpecialKey::PageDown) => {
                // Shift only -> Scroll
                let middle = self.commons.window_height / 2;
                self.commons.scroll_down(session, false, middle);
                (PresenterCommand::Redraw, JobRequest::Nothing)
            },
            ((false, false, false), SpecialKey::Home) => {
                self.commons.text_input.move_left_edge();
                (PresenterCommand::Redraw, JobRequest::Nothing)
            },
            ((false, false, false), SpecialKey::End) => {
                self.commons.text_input.move_right_edge();
                (PresenterCommand::Redraw, JobRequest::Nothing)
            },
            ((false, false, false), SpecialKey::Delete) => {
                self.commons.text_input.delete_character();
                (PresenterCommand::Redraw, JobRequest::Nothing)
            },
            ((false, false, false), SpecialKey::Backspace) => {
                self.commons.text_input.delete_left();
                (PresenterCommand::Redraw, JobRequest::Nothing)
            },
            // Ctrl-Space: cycle current interaction's output
            ((false, true, false), SpecialKey::Space) => {
                session.cycle_visibility(self.current_interaction);
                (PresenterCommand::Redraw, JobRequest::Nothing)
            },
            // Shift-Ctrl-Space: cycle all interaction's output
            ((true, true, false), SpecialKey::Space) => {
                session.cycle_visibility(self.current_interaction);
                if let Some(ov) = session.get_visibility(self.current_interaction) {
                    session.set_visibility_all(ov);
                }
                (PresenterCommand::Redraw, JobRequest::Nothing)
            },
            _ => (PresenterCommand::Unknown, JobRequest::Nothing),
        }
    }

    /// Handle the event when a modifier and a letter is pressed: Ctrl-C stops the program,
    /// Ctrl-D sends it the end-of-file character.
    pub fn event_normal_key(&mut self, mod_state: &ModifierState, letter: u8) -> (r: (PresenterCommand, JobRequest))
        ensures
            r.0 == if execute_letter_request(mod_tuple(*mod_state), letter) is Nothing {
                PresenterCommand::Unknown
            } else {
                PresenterCommand::Redraw
            },
            r.1@ == execute_letter_request(mod_tuple(*mod_state), letter),
            *final(self) == *old(self),
    {
        match mod_state.as_tuple() {
            (false, true, false) => {
                // Control-only
                if letter == 99 {
                    // Ctrl-C: kill the last job if it is still running
                    (PresenterCommand::Redraw, JobRequest::Terminate)
                } else if letter == 100 {
                    // Ctrl-D: send the end-of-file character to the running program
                        let eot = String::from_str("\u{4}");
                        proof {
                            reveal_strlit("\u{4}");
                            assert(eot@ =~= seq!['\u{4}']);
                        }
                        (PresenterCommand::Redraw, JobRequest::WriteStdin(eot))
                } else {
                    (PresenterCommand::Unknown, JobRequest::Nothing)
                }
            },
            _ => (PresenterCommand::Unknown, JobRequest::Nothing),
        }
    }

    /// Handle typed text: it goes into the input line.
    pub fn event_text(&mut self, s: &str) -> (r: PresenterCommand)
        requires
            old(self).commons.wf(),
            insert_str_fits(old(self).commons.text_input@, s@),
        ensures
            r == PresenterCommand::Redraw,
            final(self).commons.wf(),
            final(self).commons.text_input@ == sv_insert_str(old(self).commons.text_input@, s@),
            final(self).commons.session_end_line == old(self).commons.session_end_line,
            final(self).current_interaction == old(self).current_interaction,
    {
        self.commons.text_input_add_characters(s);
        PresenterCommand::Redraw
    }

    /// Scroll the session up by one line when no modifier is pressed.
    pub fn event_scroll_up(&mut self, session: &Session, mod_state: &ModifierState) -> (r: PresenterCommand)
        requires
            session_wf(session@),
        ensures
            r == if no_modifier(*mod_state) {
                PresenterCommand::Redraw
            } else {
                PresenterCommand::Unknown
            },
            final(self).commons.session_end_line == if no_modifier(*mod_state) {
                spec_scroll_up(session@, old(self).commons.session_end_line, false, 1, None)
            } else {
                old(self).commons.session_end_line
            },
            final(self).commons.text_input == old(self).commons.text_input,
            final(self).current_interaction == old(self).current_interaction,
    {
        if mod_state.none_pressed() {
            self.commons.scroll_up(session, false, 1, None);
            PresenterCommand::Redraw
        } else {
            PresenterCommand::Unknown
        }
    }

    /// Scroll the session down by one line when no modifier is pressed.
    pub fn event_scroll_down(&mut self, session: &Session, mod_state: &ModifierState) -> (r: PresenterCommand)
        requires
            session_wf(session@),
        ensures
            r == if no_modifier(*mod_state) {
                PresenterCommand::Redraw
            } else {
                PresenterCommand::Unknown
            },
            final(self).commons.session_end_line == if no_modifier(*mod_state) {
                spec_scroll_down(session@, old(self).commons.session_end_line, false, 1)
            } else {
                old(self).commons.session_end_line
            },
            final(self).commons.text_input == old(self).commons.text_input,
            final(self).current_interaction == old(self).current_interaction,
    {
        if mod_state.none_pressed() {
            self.commons.scroll_down(session, false, 1);
            PresenterCommand::Redraw
        } else {
            PresenterCommand::Unknown
        }
    }
}

/// The cells of row `y` of a full-screen program as they are shown: the row without its last
/// cell, nothing for a screen without columns.
pub open spec fn tui_row_cells(m: MatrixView, y: int) -> Seq<crate::screen::Cell> {
    if m.width > 0 {
        row_of(m, y).drop_last()
    } else {
        Seq::empty()
    }
}

/// The view of a running full-screen program: its screen, and keys and text go to it.
pub struct TuiExecuteCommandPresenter {
    /// Common data.
    pub commons: PresenterCommons,
    /// Current interaction
    pub current_interaction: InteractionHandle,
}

impl TuiExecuteCommandPresenter {
    /// Show the screen of the full-screen program of an interaction.
    pub fn new(commons: PresenterCommons, current_interaction: InteractionHandle) -> (p: Self)
        ensures
            p.commons == commons,
            p.current_interaction == current_interaction,
    {
        TuiExecuteCommandPresenter { commons, current_interaction }
    }

    /// The lines to show: the rows of the program's screen, the cursor in its row; nothing
    /// where the interaction is not in full-screen mode.
    pub fn line_iter(&self, session: &Session) -> (r: Vec<LineItem>)
        requires
            session_wf(session@),
        ensures
            ({
                let h = self.current_interaction;
                if h.index() < session@.interactions.len() && interaction_of(session@, h).tui_mode {
                    let sc = interaction_of(session@, h).tui_screen;
                    &&& r@.len() == sc.matrix.height
                    &&& forall|y: int|
                        0 <= y < r@.len() ==> ((#[trigger] r@[y]).text@, r@[y].is_a, r@[y].cursor_col, r@[y].prompt_hash)
                            == (tui_row_cells(sc.matrix, y), LineType::Tui, if y == sc.cursor.1 {
                            Some(sc.cursor.0 as usize)
                        } else {
                            None
                        }, 0u64)
                } else {
                    r@.len() == 0
                }
            }),
    {
        let mut r: Vec<LineItem> = Vec::new();
        match session.tui_screen(&self.current_interaction) {
            Some(sc) => {
                let rows = sc.line_iter_full();
                let cx = sc.cursor_x();
                let cy = sc.cursor_y();
                let height = sc.height();
                let mut k: usize = 0;
                while k < rows.len()
                    invariant
                        screen_wf(sc@),
                        rows@.len() == sc@.matrix.height,
                        height == sc@.matrix.height,
                        forall|y: int| 0 <= y < sc@.matrix.height && sc@.matrix.width > 0 ==> (#[trigger] rows@[y])@
                            == row_of(sc@.matrix, y).drop_last(),
                        forall|y: int| 0 <= y < sc@.matrix.height && sc@.matrix.width == 0 ==> (#[trigger] rows@[y])@.len() == 0,
                        cx == sc@.cursor.0,
                        cy == sc@.cursor.1,
                        k <= rows@.len(),
                        r@.len() == k,
                        forall|y: int|
                            0 <= y < k ==> ((#[trigger] r@[y]).text@, r@[y].is_a, r@[y].cursor_col, r@[y].prompt_hash) == (
                                tui_row_cells(sc@.matrix, y),
                                LineType::Tui,
                                if y == sc@.cursor.1 {
                                    Some(sc@.cursor.0 as usize)
                                } else {
                                    None
                                },
                                0u64,
                            ),
                    decreases rows@.len() - k,
                {
                    let cursor_col = if k as isize == cy {
                        Some(cx as usize)
                    } else {
                        None
                    };
                    proof {
                        if sc@.matrix.width == 0 {
                            assert(rows@[k as int]@ =~= Seq::<crate::screen::Cell>::empty());
                        }
                    }
                    r.push(LineItem::new(rows[k], LineType::Tui, cursor_col, 0));
                    k = k + 1;
                }
            },
            None => {},
        }
        r
    }

    /// Typed text goes to the program.
    pub fn event_text(&self, s: &str) -> (r: (PresenterCommand, JobRequest))
        ensures
            r.0 == PresenterCommand::Redraw,
            r.1@ == JobRequestView::WriteStdin(s@),
    {
        (PresenterCommand::Redraw, JobRequest::WriteStdin(String::from_str(s)))
    }

    /// At the end of a cycle: the view stays while the program runs (`true`), and the GUI
    /// needs marking where it did before or where the view ends.
    pub fn end_polling(&self, session: &Session, needs_marking: bool) -> (r: (bool, bool))
        ensures
            r == if session@.interactions.len() > self.current_interaction.index() && interaction_of(
                session@,
                self.current_interaction,
            ).running_status is Exited {
                (false, true)
            } else {
                (true, needs_marking)
            },
    {
        let is_running = !session.has_exited(self.current_interaction);
        if !is_running {
            return (false, true);
        }
        (true, needs_marking)
    }
}

} // verus!

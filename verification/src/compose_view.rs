//! The view for composing a command, in the variant that shows the history exclusively: the
//! input line, or a selection of history entries (searched by what is typed), or a selection
//! of completions. Its key handling decides the next state and what the host has to do: run a
//! line, search the history, or complete a word.

use vstd::prelude::*;
use crate::commons::PresenterCommons;
use crate::execute_command::{execute_key_session, mod_tuple, plain, shifted};
use crate::presenter::{ComposeVariant, ModifierState, PresenterCommand, SelectionMode, SpecialKey};
use crate::locator::MaybeSessionLocator;
use crate::commons::{spec_scroll_down, spec_scroll_up};
use crate::screen::{
    compacted_row_of, cells_text, cursor_room_fits, insert_row_fits, inside_rows, join_fits, place_str_fits,
    row_of, rows_text_joined, screen_wf, sv_break_line, sv_delete_character, sv_delete_word_before_cursor,
    sv_join_next_line, sv_make_room, sv_move_cursor_to, sv_place_str, sv_reset, word_start, ScreenView, insert_str_fits, sv_insert_str,
};
use crate::session::{last_handle, session_wf, Session, SessionView};
use crate::strings::{chars_of, string_from_chars, string_push_str};
use crate::compose::{commands_in, execute_line, line_executed, parse_error_text, LineOutcome};
use crate::history::{can_enter, unique_folders, History};
use crate::parser::count_nl;

verus! {

/// What the host has to do after a key.
#[derive(Debug, PartialEq, Eq)]
pub enum ComposeAction {
    /// Nothing.
    Nothing,
    /// Search the history for entries that start with the text, and hand them to
    /// `set_prediction`.
    SearchHistory(String),
    /// Run the line.
    Execute(String),
    /// Find the completions of the word, and hand them to `completions_found`.
    Complete(String),
    /// Predict how the input line goes on from the history, and hand the rests to
    /// `set_prediction`.
    Predict(String),
}

/// An action as a value.
pub enum ComposeActionView {
    Nothing,
    SearchHistory(Seq<char>),
    Execute(Seq<char>),
    Complete(Seq<char>),
    Predict(Seq<char>),
}

impl View for ComposeAction {
    type V = ComposeActionView;

    open spec fn view(&self) -> ComposeActionView {
        match self {
            ComposeAction::Nothing => ComposeActionView::Nothing,
            ComposeAction::SearchHistory(s) => ComposeActionView::SearchHistory(s@),
            ComposeAction::Execute(s) => ComposeActionView::Execute(s@),
            ComposeAction::Complete(s) => ComposeActionView::Complete(s@),
            ComposeAction::Predict(s) => ComposeActionView::Predict(s@),
        }
    }
}

/// The state of the composing view as values: the input line, the selected item, the search
/// text, the history entries found for it, the completions and the selection shown.
pub struct ComposeView {
    pub ti: ScreenView,
    pub selected: usize,
    pub search: Seq<char>,
    pub prediction: Seq<Seq<char>>,
    pub completions: Seq<Seq<char>>,
    pub mode: SelectionMode,
    pub end_line: MaybeSessionLocator,
    pub window_width: usize,
    pub window_height: usize,
    pub button_down: Option<(usize, usize, usize)>,
    pub variant: ComposeVariant,
}

/// The strings of a list as values.
pub open spec fn strings_view(v: Seq<String>) -> Seq<Seq<char>> {
    v.map_values(|s: String| s@)
}

/// The selected item of a selection lies in it.
pub open spec fn compose_wf(v: ComposeView) -> bool {
    &&& screen_wf(v.ti)
    &&& v.mode == SelectionMode::Completion ==> v.selected < v.completions.len()
}

/// Running the composed line: the input is emptied, the selection closed and the search
/// cleared; a line that is not empty is handed over.
pub open spec fn executed(v: ComposeView, line: Seq<char>) -> (ComposeView, PresenterCommand, ComposeActionView) {
    (
        ComposeView { ti: sv_make_room(sv_reset(v.ti)), mode: SelectionMode::Nothing, search: Seq::empty(), ..v },
        PresenterCommand::Redraw,
        if line.len() == 0 {
            ComposeActionView::Nothing
        } else {
            ComposeActionView::Execute(line)
        },
    )
}

/// The input line with the cursor at the end of its row (unchanged outside the rows).
pub open spec fn end_of_line(ti: ScreenView) -> ScreenView {
    if inside_rows(ti) {
        ScreenView { cursor: (compacted_row_of(ti.matrix, ti.cursor.1).len() as int, ti.cursor.1), ..ti }
    } else {
        ti
    }
}

/// The word left of the cursor after room was made for it.
pub open spec fn word_text(ti: ScreenView) -> Seq<char> {
    let t = sv_make_room(ti);
    cells_text(row_of(t.matrix, t.cursor.1).subrange(word_start(row_of(t.matrix, t.cursor.1), t.cursor.0), t.cursor.0))
}

/// The input line after Backspace: at the start of a row the row is joined to the one above,
/// right of it the character left of the cursor is removed.
pub open spec fn backspaced(ti: ScreenView) -> ScreenView {
    if ti.cursor.0 == 0 {
        if ti.cursor.1 > 0 {
            sv_join_next_line(end_of_line(sv_move_cursor_to(ti, 0, ti.cursor.1 - 1)))
        } else {
            ti
        }
    } else if ti.cursor.0 > 0 {
        sv_delete_character(sv_move_cursor_to(ti, ti.cursor.0 - 1, ti.cursor.1))
    } else {
        ti
    }
}

/// The input line after Delete: at the end of a row the next row is joined to it, else the
/// character under the cursor is removed.
pub open spec fn deleted(ti: ScreenView) -> ScreenView {
    if inside_rows(ti) && ti.cursor.0 == compacted_row_of(ti.matrix, ti.cursor.1).len() {
        sv_join_next_line(ti)
    } else {
        sv_delete_character(ti)
    }
}

/// The keys of the composing view without a selection: Enter runs a single line and breaks a
/// line of a multi-line input (Shift-Enter always breaks, Ctrl-Enter runs a multi-line
/// input), the cursor keys move in the input, Up in the first row opens the history at its
/// last entry, Delete and Backspace remove characters and join rows, Tab asks for the
/// completions of the word before the cursor, Shift-PageUp and Shift-PageDown scroll the
/// session by half a window, and Ctrl-Space (with Shift: for all) cycles what the newest
/// interaction shows.
pub open spec fn spec_compose_normal(v: ComposeView, s: SessionView, m: (bool, bool, bool), key: SpecialKey) -> (
    ComposeView,
    PresenterCommand,
    ComposeActionView,
) {
    let ti = v.ti;
    let x = ti.cursor.0;
    let y = ti.cursor.1;
    let multi = ti.matrix.height > 1;
    let line = rows_text_joined(ti.matrix, ti.matrix.height);
    let redraw = |t: ScreenView| (ComposeView { ti: t, ..v }, PresenterCommand::Redraw, ComposeActionView::Nothing);
    let unknown = (v, PresenterCommand::Unknown, ComposeActionView::Nothing);
    if plain(m) {
        match key {
            SpecialKey::Enter => if multi {
                redraw(sv_break_line(ti))
            } else {
                executed(v, line)
            },
            SpecialKey::Left => redraw(sv_move_cursor_to(ti, x - 1, y)),
            SpecialKey::Right => redraw(sv_move_cursor_to(ti, x + 1, y)),
            SpecialKey::Up => if y > 0 {
                redraw(sv_move_cursor_to(ti, x, y - 1))
            } else if v.prediction.len() > 0 {
                (
                    ComposeView { selected: (v.prediction.len() - 1) as usize, mode: SelectionMode::History, ..v },
                    PresenterCommand::Redraw,
                    ComposeActionView::Nothing,
                )
            } else {
                (v, PresenterCommand::Redraw, ComposeActionView::Nothing)
            },
            SpecialKey::Down => if y + 1 < ti.matrix.height {
                redraw(sv_move_cursor_to(ti, x, y + 1))
            } else {
                unknown
            },
            SpecialKey::Home => redraw(ScreenView { cursor: (0, y), ..ti }),
            SpecialKey::End => redraw(end_of_line(ti)),
            SpecialKey::Delete => redraw(deleted(ti)),
            SpecialKey::Backspace => redraw(backspaced(ti)),
            SpecialKey::Tab => (
                ComposeView { ti: sv_make_room(ti), ..v },
                PresenterCommand::Redraw,
                ComposeActionView::Complete(word_text(ti)),
            ),
            _ => unknown,
        }
    } else if shifted(m) && key == SpecialKey::PageUp {
        (
            ComposeView {
                end_line: spec_scroll_up(
                    s,
                    v.end_line,
                    true,
                    v.window_height / 2,
                    Some((v.window_height - ti.matrix.height) as usize),
                ),
                ..v
            },
            PresenterCommand::Redraw,
            ComposeActionView::Nothing,
        )
    } else if shifted(m) && key == SpecialKey::PageDown {
        (
            ComposeView { end_line: spec_scroll_down(s, v.end_line, true, v.window_height / 2), ..v },
            PresenterCommand::Redraw,
            ComposeActionView::Nothing,
        )
    } else if shifted(m) && key == SpecialKey::Enter {
        redraw(sv_break_line(ti))
    } else if m == (false, true, false) && key == SpecialKey::Enter {
        if multi {
            executed(v, line)
        } else {
            unknown
        }
    } else if key == SpecialKey::Space && (m == (false, true, false) || m == (true, true, false)) {
        if s.interactions.len() > 0 {
            (v, PresenterCommand::Redraw, ComposeActionView::Nothing)
        } else {
            unknown
        }
    } else {
        unknown
    }
}

/// The session after a key of the composing view: Ctrl-Space (with Shift: for all) cycles
/// what the newest interaction shows.
pub open spec fn spec_compose_session(s: SessionView, m: (bool, bool, bool), key: SpecialKey) -> SessionView {
    if s.interactions.len() > 0 {
        execute_key_session(s, last_handle(s), m, key)
    } else {
        s
    }
}

/// The limits that the edit of a key without a selection must fit; the input is no higher
/// than the window where a page is scrolled.
pub open spec fn compose_key_fits(v: ComposeView, key: SpecialKey) -> bool {
    let ti = v.ti;
    let x = ti.cursor.0;
    let y = ti.cursor.1;
    &&& cursor_room_fits(ti)
    &&& isize::MIN < x < isize::MAX
    &&& isize::MIN < y < isize::MAX
    &&& key == SpecialKey::Enter ==> insert_row_fits(ti)
    &&& key == SpecialKey::PageUp ==> ti.matrix.height <= v.window_height
    &&& key == SpecialKey::Delete && inside_rows(ti) && x == compacted_row_of(ti.matrix, y).len() && y + 1
        < ti.matrix.height ==> join_fits(ti)
    &&& key == SpecialKey::Backspace && x == 0 && y > 0 ==> {
        let t = end_of_line(sv_move_cursor_to(ti, 0, y - 1));
        t.cursor.1 + 1 < t.matrix.height ==> join_fits(t)
    }
    &&& key == SpecialKey::Backspace && x > 0 ==> cursor_room_fits(sv_move_cursor_to(ti, x - 1, y))
}

/// The keys while history entries are shown: Up and Down move the selection (Down past the
/// last entry closes it and clears the search), Backspace shortens the search and asks for the
/// entries found for it, and Enter runs the search text followed by the selected entry.
pub open spec fn spec_compose_history(v: ComposeView, m: (bool, bool, bool), key: SpecialKey) -> (
    ComposeView,
    PresenterCommand,
    ComposeActionView,
) {
    if key == SpecialKey::Enter {
        if v.selected < v.prediction.len() {
            executed(v, v.search + v.prediction[v.selected as int])
        } else {
            (v, PresenterCommand::Unknown, ComposeActionView::Nothing)
        }
    } else if plain(m) && key == SpecialKey::Up {
        (
            ComposeView { selected: if v.selected > 0 { (v.selected - 1) as usize } else { 0 }, ..v },
            PresenterCommand::Redraw,
            ComposeActionView::Nothing,
        )
    } else if plain(m) && key == SpecialKey::Down {
        if v.selected + 1 < v.prediction.len() {
            (ComposeView { selected: (v.selected + 1) as usize, ..v }, PresenterCommand::Redraw, ComposeActionView::Nothing)
        } else {
            (
                ComposeView { mode: SelectionMode::Nothing, search: Seq::empty(), ..v },
                PresenterCommand::Redraw,
                ComposeActionView::Nothing,
            )
        }
    } else if plain(m) && key == SpecialKey::Backspace {
        let search = if v.search.len() > 0 {
            v.search.drop_last()
        } else {
            v.search
        };
        (ComposeView { search, ..v }, PresenterCommand::Redraw, ComposeActionView::SearchHistory(search))
    } else {
        (v, PresenterCommand::Unknown, ComposeActionView::Nothing)
    }
}

/// The keys while completions are shown: Up and Down move the selection within the
/// completions, and Enter replaces the word before the cursor with the selected completion,
/// takes it out of the list and closes the selection.
pub open spec fn spec_compose_completion(v: ComposeView, m: (bool, bool, bool), key: SpecialKey) -> (
    ComposeView,
    PresenterCommand,
    ComposeActionView,
) {
    if key == SpecialKey::Enter {
        (
            ComposeView {
                ti: sv_place_str(sv_delete_word_before_cursor(v.ti), v.completions[v.selected as int]),
                completions: v.completions.remove(v.selected as int),
                mode: SelectionMode::Nothing,
                ..v
            },
            PresenterCommand::Redraw,
            ComposeActionView::Nothing,
        )
    } else if plain(m) && key == SpecialKey::Up {
        (
            ComposeView { selected: if v.selected > 0 { (v.selected - 1) as usize } else { 0 }, ..v },
            PresenterCommand::Redraw,
            ComposeActionView::Nothing,
        )
    } else if plain(m) && key == SpecialKey::Down {
        (
            ComposeView {
                selected: if v.selected + 1 < v.completions.len() {
                    (v.selected + 1) as usize
                } else {
                    v.selected
                },
                ..v
            },
            PresenterCommand::Redraw,
            ComposeActionView::Nothing,
        )
    } else {
        (v, PresenterCommand::Unknown, ComposeActionView::Nothing)
    }
}

/// The limits that replacing the word before the cursor with the selected completion fits.
pub open spec fn completion_fits(v: ComposeView) -> bool {
    &&& cursor_room_fits(v.ti)
    &&& v.selected < v.completions.len()
    &&& place_str_fits(sv_delete_word_before_cursor(v.ti), v.completions[v.selected as int])
}

/// The selected entry kept within the entries found: the last one where it lies past them,
/// the first where there are none.
pub open spec fn fixed_selection(selected: usize, n: nat) -> usize {
    if n == 0 {
        0
    } else if selected >= n {
        (n - 1) as usize
    } else {
        selected
    }
}

/// The number of spaces that `s` begins with.
pub open spec fn lead_spaces(s: Seq<char>) -> nat
    decreases s.len(),
{
    if s.len() > 0 && s[0] == ' ' {
        1 + lead_spaces(s.drop_first())
    } else {
        0
    }
}

/// The number of characters before the first space of `s`.
pub open spec fn word_run(s: Seq<char>) -> nat
    decreases s.len(),
{
    if s.len() > 0 && s[0] != ' ' {
        1 + word_run(s.drop_first())
    } else {
        0
    }
}

/// How much of a prediction Ctrl-Right takes: its leading spaces and the word after them.
pub open spec fn word_take_len(s: Seq<char>) -> int {
    (lead_spaces(s) + word_run(s.skip(lead_spaces(s) as int))) as int
}

/// The text of the input line.
pub open spec fn input_text(ti: ScreenView) -> Seq<char> {
    rows_text_joined(ti.matrix, ti.matrix.height)
}

/// The input after Left: the character left of the cursor is removed.
pub open spec fn left_deleted(ti: ScreenView) -> ScreenView {
    if ti.cursor.0 > 0 {
        sv_delete_character(sv_move_cursor_to(ti, ti.cursor.0 - 1, ti.cursor.1))
    } else {
        ti
    }
}

/// The keys while predictions are offered at the end of the input: Enter appends the selected
/// prediction and runs the line, Right takes one character of it, Ctrl-Right its next word,
/// End all of it (each following the end of the session again); Left and Ctrl-Left delete a
/// character or a word, Home empties the input, and each edit asks for new predictions; Up and
/// Down move the selection within the predictions. Other keys act as without a selection.
pub open spec fn spec_compose_prediction(v: ComposeView, s: SessionView, m: (bool, bool, bool), key: SpecialKey) -> (
    ComposeView,
    PresenterCommand,
    ComposeActionView,
) {
    let ti = v.ti;
    let n = v.prediction.len();
    let sel = fixed_selection(v.selected, n);
    let item = v.prediction[sel as int];
    let v1 = ComposeView { selected: sel, ..v };
    let edited = |t: ScreenView, follow: bool| (
        ComposeView { ti: t, end_line: if follow { None } else { v.end_line }, ..v1 },
        PresenterCommand::Redraw,
        ComposeActionView::Predict(input_text(t)),
    );
    if plain(m) && key == SpecialKey::Enter {
        let t = sv_insert_str(ti, item);
        executed(ComposeView { ti: t, end_line: None, ..v1 }, input_text(t))
    } else if plain(m) && key == SpecialKey::Left {
        edited(left_deleted(ti), false)
    } else if m == (false, true, false) && key == SpecialKey::Left {
        edited(sv_delete_word_before_cursor(ti), false)
    } else if plain(m) && key == SpecialKey::Right {
        if item.len() > 0 {
            edited(sv_insert_str(ti, item.take(1)), true)
        } else {
            (v1, PresenterCommand::Unknown, ComposeActionView::Nothing)
        }
    } else if m == (false, true, false) && key == SpecialKey::Right {
        edited(sv_insert_str(ti, item.take(word_take_len(item))), true)
    } else if plain(m) && key == SpecialKey::Up {
        (ComposeView { selected: if sel > 0 { (sel - 1) as usize } else { sel }, ..v1 }, PresenterCommand::Redraw, ComposeActionView::Nothing)
    } else if plain(m) && key == SpecialKey::Down {
        (ComposeView { selected: if sel + 1 < n { (sel + 1) as usize } else { sel }, ..v1 }, PresenterCommand::Redraw, ComposeActionView::Nothing)
    } else if plain(m) && key == SpecialKey::Home {
        edited(sv_make_room(sv_reset(ti)), false)
    } else if plain(m) && key == SpecialKey::End {
        edited(sv_insert_str(ti, item), true)
    } else {
        spec_compose_normal(v, s, m, key)
    }
}

/// Predictions are offered: in the variant that shows them below the input, when there are
/// some and the cursor stands at the end of the input.
pub open spec fn offers_prediction(v: ComposeView) -> bool {
    &&& v.variant == ComposeVariant::MarkovBelow
    &&& v.mode == SelectionMode::Nothing
    &&& v.prediction.len() > 0
    &&& 0 <= v.ti.cursor.1
    &&& v.ti.cursor.1 + 1 == v.ti.matrix.height
    &&& v.ti.cursor.0 == compacted_row_of(v.ti.matrix, v.ti.cursor.1).len()
}

/// A special key by what the view shows: offered predictions, no selection, history entries
/// or completions.
pub open spec fn spec_compose_key(v: ComposeView, s: SessionView, m: (bool, bool, bool), key: SpecialKey) -> (
    ComposeView,
    PresenterCommand,
    ComposeActionView,
) {
    if offers_prediction(v) {
        spec_compose_prediction(v, s, m, key)
    } else {
        match v.mode {
            SelectionMode::Nothing => spec_compose_normal(v, s, m, key),
            SelectionMode::History => spec_compose_history(v, m, key),
            SelectionMode::Completion => spec_compose_completion(v, m, key),
        }
    }
}

/// The limits that a key with predictions offered must fit.
pub open spec fn prediction_key_fits(v: ComposeView, key: SpecialKey) -> bool {
    let item = v.prediction[fixed_selection(v.selected, v.prediction.len()) as int];
    &&& compose_key_fits(v, key)
    &&& key == SpecialKey::Left && v.ti.cursor.0 > 0 ==> cursor_room_fits(
        sv_move_cursor_to(v.ti, v.ti.cursor.0 - 1, v.ti.cursor.1),
    )
    &&& key == SpecialKey::Enter || key == SpecialKey::End ==> insert_str_fits(v.ti, item)
    &&& key == SpecialKey::Right ==> insert_str_fits(v.ti, item.take(1)) && insert_str_fits(
        v.ti,
        item.take(word_take_len(item)),
    )
}

/// Ctrl-Right takes no more than the prediction.
pub proof fn lemma_word_take_len_bound(s: Seq<char>)
    ensures
        0 <= word_take_len(s) <= s.len(),
{
    lemma_lead_spaces_bound(s);
    lemma_word_run_bound(s.skip(lead_spaces(s) as int));
}

/// A string begins with no more spaces than it has characters.
pub proof fn lemma_lead_spaces_bound(s: Seq<char>)
    ensures
        lead_spaces(s) <= s.len(),
    decreases s.len(),
{
    if s.len() > 0 && s[0] == ' ' {
        lemma_lead_spaces_bound(s.drop_first());
    }
}

/// A word is no longer than the string it starts.
pub proof fn lemma_word_run_bound(s: Seq<char>)
    ensures
        word_run(s) <= s.len(),
    decreases s.len(),
{
    if s.len() > 0 && s[0] != ' ' {
        lemma_word_run_bound(s.drop_first());
    }
}

/// Where Ctrl-Right stops in a prediction.
pub fn word_take(cs: &Vec<char>) -> (j: usize)
    ensures
        j == word_take_len(cs@),
{
    let n = cs.len();
    let mut i: usize = 0;
    proof {
        assert(cs@.skip(0) =~= cs@);
    }
    while i < n && cs[i] == ' '
        invariant
            n == cs@.len(),
            i <= n,
            i + lead_spaces(cs@.skip(i as int)) == lead_spaces(cs@),
        decreases n - i,
    {
        proof {
            assert(cs@.skip(i as int).drop_first() =~= cs@.skip(i + 1));
        }
        i = i + 1;
    }
    proof {
        assert(lead_spaces(cs@.skip(i as int)) == 0);
    }
    let mut j: usize = i;
    while j < n && cs[j] != ' '
        invariant
            n == cs@.len(),
            i <= j <= n,
            i == lead_spaces(cs@),
            (j - i) + word_run(cs@.skip(j as int)) == word_run(cs@.skip(i as int)),
        decreases n - j,
    {
        proof {
            assert(cs@.skip(j as int).drop_first() =~= cs@.skip(j + 1));
        }
        j = j + 1;
    }
    proof {
        assert(word_run(cs@.skip(j as int)) == 0);
    }
    j
}

/// The composing view: the input line with its selections of history entries, completions
/// or predictions. The variants `LiveParse` and `BubbleAbove` compose as `BubbleExclusive`:
/// the first needs an editor that parses the input as it goes, and the second's key handling
/// is not among the sources this library follows.
pub struct ComposeCommandPresenter {
    /// Common data.
    pub commons: PresenterCommons,
    /// Index of selected history or completion item.
    pub selected_item: usize,
    /// String to search for in the history
    pub search: String,
    /// The history entries found for the search, as text after it.
    pub prediction: Vec<String>,
    /// List of completions
    pub completions: Vec<String>,
    /// Selection mode
    pub selection_mode: SelectionMode,
    /// The variant of composing.
    pub variant: ComposeVariant,
}

impl View for ComposeCommandPresenter {
    type V = ComposeView;

    open spec fn view(&self) -> ComposeView {
        ComposeView {
            ti: self.commons.text_input@,
            selected: self.selected_item,
            search: self.search@,
            prediction: strings_view(self.prediction@),
            completions: strings_view(self.completions@),
            mode: self.selection_mode,
            end_line: self.commons.session_end_line,
            window_width: self.commons.window_width,
            window_height: self.commons.window_height,
            button_down: self.commons.button_down,
            variant: self.variant,
        }
    }
}

impl ComposeCommandPresenter {
    /// A composing view of the given variant with the input line of `commons`, no selection,
    /// an empty search and the history entries found for it, following the end of the session.
    pub fn new(commons: PresenterCommons, prediction: Vec<String>, variant: ComposeVariant) -> (p: Self)
        requires
            commons.wf(),
        ensures
            compose_wf(p@),
            p@ == (ComposeView {
                ti: commons.text_input@,
                selected: 0,
                search: Seq::<char>::empty(),
                prediction: strings_view(prediction@),
                completions: Seq::<Seq<char>>::empty(),
                mode: SelectionMode::Nothing,
                end_line: None,
                window_width: commons.window_width,
                window_height: commons.window_height,
                button_down: commons.button_down,
                variant,
            }),
    {
        let mut commons = commons;
        commons.to_last_line();
        let p = ComposeCommandPresenter {
            commons,
            selected_item: 0,
            search: String::new(),
            prediction,
            completions: Vec::new(),
            selection_mode: SelectionMode::Nothing,
            variant,
        };
        proof {
            assert(p@.completions =~= Seq::<Seq<char>>::empty());
            assert(p@.search =~= Seq::<char>::empty());
        }
        p
    }

    /// Take the history entries found for the search, and keep the selection within them.
    pub fn set_prediction(&mut self, prediction: Vec<String>)
        requires
            compose_wf(old(self)@),
        ensures
            compose_wf(final(self)@),
            final(self)@ == (ComposeView {
                prediction: strings_view(prediction@),
                selected: fixed_selection(old(self)@.selected, prediction@.len()),
                ..old(self)@
            }),
    {
        let n = prediction.len();
        self.prediction = prediction;
        if n == 0 {
            self.selected_item = 0;
        } else if self.selected_item >= n {
            self.selected_item = n - 1;
        }
    }

    /// Take the completions that were found for the word before the cursor: a single one
    /// replaces the word, several are shown for selection with the last one selected.
    pub fn completions_found(&mut self, completions: Vec<String>)
        requires
            compose_wf(old(self)@),
            completions@.len() >= 1,
            cursor_room_fits(old(self)@.ti),
            completions@.len() == 1 ==> place_str_fits(sv_delete_word_before_cursor(old(self)@.ti), completions@[0]@),
        ensures
            compose_wf(final(self)@),
            completions@.len() == 1 ==> final(self)@ == (ComposeView {
                ti: sv_place_str(sv_delete_word_before_cursor(old(self)@.ti), completions@[0]@),
                ..old(self)@
            }),
            completions@.len() > 1 ==> final(self)@ == (ComposeView {
                completions: strings_view(completions@),
                selected: (completions@.len() - 1) as usize,
                mode: SelectionMode::Completion,
                ..old(self)@
            }),
    {
        let n = completions.len();
        if n == 1 {
            self.commons.text_input.delete_word_before_cursor();
            self.commons.text_input.place_str(completions[0].as_str());
        } else {
            self.completions = completions;
            self.selected_item = n - 1;
            self.selection_mode = SelectionMode::Completion;
        }
    }

    /// Run the composed line: empty the input, close the selection, clear the search.
    fn execute_line_of(&mut self, line: String) -> (r: (PresenterCommand, ComposeAction))
        requires
            compose_wf(old(self)@),
        ensures
            compose_wf(final(self)@),
            (final(self)@, r.0, r.1@) == executed(old(self)@, line@),
            final(self).commons.session_end_line == old(self).commons.session_end_line,
    {
        self.commons.text_input.reset();
        self.commons.text_input.make_room();
        self.selection_mode = SelectionMode::Nothing;
        self.search = String::new();
        if line.as_str().is_empty() {
            (PresenterCommand::Redraw, ComposeAction::Nothing)
        } else {
            (PresenterCommand::Redraw, ComposeAction::Execute(line))
        }
    }

    /// Handle a special key while no selection is shown.
    pub fn event_special_key_normal(&mut self, session: &mut Session, mod_state: &ModifierState, key: SpecialKey) -> (r: (
        PresenterCommand,
        ComposeAction,
    ))
        requires
            compose_wf(old(self)@),
            old(self)@.mode == SelectionMode::Nothing,
            session_wf(old(session)@),
            compose_key_fits(old(self)@, key),
        ensures
            compose_wf(final(self)@),
            session_wf(final(session)@),
            (final(self)@, r.0, r.1@) == spec_compose_normal(old(self)@, old(session)@, mod_tuple(*mod_state), key),
            final(session)@ == spec_compose_session(old(session)@, mod_tuple(*mod_state), key),
    {
        let ghost v = self@;
        match (mod_state.as_tuple(), key) {
            ((false, false, false), SpecialKey::Enter) => {
                if self.commons.text_input.height() > 1 {
                    self.commons.text_input.break_line();
                    (PresenterCommand::Redraw, ComposeAction::Nothing)
                } else {
                    let line = self.commons.text_input.extract_text_without_last_nl();
                    self.execute_line_of(line)
                }
            },
            ((true, false, false), SpecialKey::Enter) => {
                self.commons.text_input.break_line();
                (PresenterCommand::Redraw, ComposeAction::Nothing)
            },
            ((true, false, false), SpecialKey::PageUp) => {
                // Shift only -> Scroll
                let middle = self.commons.window_height / 2;
                let session_height = self.commons.window_height - (self.commons.text_input.height() as usize);
                self.commons.scroll_up(session, true, middle, Some(session_height));
                (PresenterCommand::Redraw, ComposeAction::Nothing)
            },
            ((true, false, false), SpecialKey::PageDown) => {
                // Shift only -> Scroll
                let middle = self.commons.window_height / 2;
                self.commons.scroll_down(session, true, middle);
                (PresenterCommand::Redraw, ComposeAction::Nothing)
            },
            ((false, true, false), SpecialKey::Enter) => {
                if self.commons.text_input.height() > 1 {
                    let line = self.commons.text_input.extract_text_without_last_nl();
                    self.execute_line_of(line)
                } else {
                    (PresenterCommand::Unknown, ComposeAction::Nothing)
                }
            },
            ((false, false, false), SpecialKey::Left) => {
                self.commons.text_input.move_left(1);
                (PresenterCommand::Redraw, ComposeAction::Nothing)
            },
            ((false, false, false), SpecialKey::Right) => {
                self.commons.text_input.move_right(1);
                (PresenterCommand::Redraw, ComposeAction::Nothing)
            },
            ((false, false, false), SpecialKey::Up) => {
                if self.commons.text_input.cursor_y() > 0 {
                    self.commons.text_input.move_up(1);
                } else {
                    let prediction_len = self.prediction.len();
                    if prediction_len > 0 {
                        self.selected_item = prediction_len - 1;
                        self.selection_mode = SelectionMode::History;
                    }
                }
                (PresenterCommand::Redraw, ComposeAction::Nothing)
            },
            ((false, false, false), SpecialKey::Down) => {
                if self.commons.text_input.cursor_y() + 1 < self.commons.text_input.height() {
                    self.commons.text_input.move_down(1);
                    (PresenterCommand::Redraw, ComposeAction::Nothing)
                } else {
                    (PresenterCommand::Unknown, ComposeAction::Nothing)
                }
            },
            ((false, false, false), SpecialKey::Home) => {
                self.commons.text_input.move_left_edge();
                (PresenterCommand::Redraw, ComposeAction::Nothing)
            },
            ((false, false, false), SpecialKey::End) => {
                self.commons.text_input.move_end_of_line();
                (PresenterCommand::Redraw, ComposeAction::Nothing)
            },
            ((false, false, false), SpecialKey::Delete) => {
                if self.commons.text_input.cursor_at_end_of_line() {
                    self.commons.text_input.join_next_line();
                } else {
                    self.commons.text_input.delete_character();
                }
                assert(self@.ti == deleted(v.ti));
                (PresenterCommand::Redraw, ComposeAction::Nothing)
            },
            ((false, false, false), SpecialKey::Backspace) => {
                if self.commons.text_input.cursor_x() == 0 {
                    if self.commons.text_input.cursor_y() > 0 {
                        self.commons.text_input.move_up(1);
                        self.commons.text_input.move_end_of_line();
                        self.commons.text_input.join_next_line();
                    }
                } else {
                    self.commons.text_input.delete_left();
                }
                assert(self@.ti == backspaced(v.ti));
                (PresenterCommand::Redraw, ComposeAction::Nothing)
            },
            ((false, false, false), SpecialKey::Tab) => {
                let word = self.commons.text_input.word_before_cursor();
                (PresenterCommand::Redraw, ComposeAction::Complete(word))
            },
            ((false, true, false), SpecialKey::Space) => {
                if let Some(h) = session.last_interaction() {
                    session.cycle_visibility(h);
                    (PresenterCommand::Redraw, ComposeAction::Nothing)
                } else {
                    (PresenterCommand::Unknown, ComposeAction::Nothing)
                }
            },
            ((true, true, false), SpecialKey::Space) => {
                if let Some(h) = session.last_interaction() {
                    session.cycle_visibility(h);
                    if let Some(ov) = session.get_visibility(h) {
                        session.set_visibility_all(ov);
                    }
                    (PresenterCommand::Redraw, ComposeAction::Nothing)
                } else {
                    (PresenterCommand::Unknown, ComposeAction::Nothing)
                }
            },
            _ => (PresenterCommand::Unknown, ComposeAction::Nothing),
        }
    }

    /// A copy of the selected prediction.
    fn selected_prediction(&self, sel: usize) -> (r: String)
        requires
            sel < self.prediction@.len(),
        ensures
            r@ == self@.prediction[sel as int],
    {
        string_from_chars(chars_of(self.prediction[sel].as_str()).as_slice())
    }

    /// Handle a special key while predictions are offered at the end of the input.
    pub fn event_special_key_prediction(&mut self, session: &mut Session, mod_state: &ModifierState, key: SpecialKey) -> (r: (
        PresenterCommand,
        ComposeAction,
    ))
        requires
            compose_wf(old(self)@),
            old(self)@.mode == SelectionMode::Nothing,
            old(self)@.prediction.len() > 0,
            session_wf(old(session)@),
            prediction_key_fits(old(self)@, key),
        ensures
            compose_wf(final(self)@),
            session_wf(final(session)@),
            (final(self)@, r.0, r.1@) == spec_compose_prediction(old(self)@, old(session)@, mod_tuple(*mod_state), key),
            final(session)@ == spec_compose_session(old(session)@, mod_tuple(*mod_state), key),
    {
        let ghost v = self@;
        let n = self.prediction.len();
        let sel = if self.selected_item >= n {
            n - 1
        } else {
            self.selected_item
        };
        match (mod_state.as_tuple(), key) {
            ((false, false, false), SpecialKey::Enter) => {
                self.selected_item = sel;
                let item = self.selected_prediction(sel);
                self.commons.text_input_add_characters(item.as_str());
                self.commons.to_last_line();
                let line = self.commons.text_input.extract_text_without_last_nl();
                self.execute_line_of(line)
            },
            ((false, false, false), SpecialKey::Left) => {
                self.selected_item = sel;
                self.commons.text_input.delete_left();
                let line = self.commons.text_input.extract_text_without_last_nl();
                (PresenterCommand::Redraw, ComposeAction::Predict(line))
            },
            ((false, true, false), SpecialKey::Left) => {
                self.selected_item = sel;
                self.commons.text_input.delete_word_before_cursor();
                let line = self.commons.text_input.extract_text_without_last_nl();
                (PresenterCommand::Redraw, ComposeAction::Predict(line))
            },
            ((false, false, false), SpecialKey::Right) => {
                self.selected_item = sel;
                let item = self.selected_prediction(sel);
                let cs = chars_of(item.as_str());
                if cs.len() > 0 {
                    let first = string_from_chars(vstd::slice::slice_subrange(cs.as_slice(), 0, 1));
                    proof {
                        assert(first@ =~= v.prediction[sel as int].take(1));
                    }
                    self.commons.text_input_add_characters(first.as_str());
                    self.commons.to_last_line();
                    let line = self.commons.text_input.extract_text_without_last_nl();
                    (PresenterCommand::Redraw, ComposeAction::Predict(line))
                } else {
                    (PresenterCommand::Unknown, ComposeAction::Nothing)
                }
            },
            ((false, true, false), SpecialKey::Right) => {
                self.selected_item = sel;
                let item = self.selected_prediction(sel);
                let cs = chars_of(item.as_str());
                let j = word_take(&cs);
                proof {
                    assert(j <= cs@.len()) by {
                        lemma_word_take_len_bound(cs@);
                    }
                }
                let word = string_from_chars(vstd::slice::slice_subrange(cs.as_slice(), 0, j));
                proof {
                    assert(word@ =~= v.prediction[sel as int].take(j as int));
                }
                self.commons.text_input_add_characters(word.as_str());
                self.commons.to_last_line();
                let line = self.commons.text_input.extract_text_without_last_nl();
                (PresenterCommand::Redraw, ComposeAction::Predict(line))
            },
            ((false, false, false), SpecialKey::Up) => {
                self.selected_item = if sel > 0 {
                    sel - 1
                } else {
                    sel
                };
                (PresenterCommand::Redraw, ComposeAction::Nothing)
            },
            ((false, false, false), SpecialKey::Down) => {
                self.selected_item = if sel + 1 < n {
                    sel + 1
                } else {
                    sel
                };
                (PresenterCommand::Redraw, ComposeAction::Nothing)
            },
            ((false, false, false), SpecialKey::Home) => {
                self.selected_item = sel;
                self.commons.text_input.reset();
                self.commons.text_input.make_room();
                let line = self.commons.text_input.extract_text_without_last_nl();
                (PresenterCommand::Redraw, ComposeAction::Predict(line))
            },
            ((false, false, false), SpecialKey::End) => {
                self.selected_item = sel;
                let item = self.selected_prediction(sel);
                self.commons.text_input_add_characters(item.as_str());
                self.commons.to_last_line();
                let line = self.commons.text_input.extract_text_without_last_nl();
                (PresenterCommand::Redraw, ComposeAction::Predict(line))
            },
            _ => self.event_special_key_normal(session, mod_state, key),
        }
    }

    /// Handle a special key while history entries are shown.
    pub fn event_special_key_history(&mut self, mod_state: &ModifierState, key: SpecialKey) -> (r: (
        PresenterCommand,
        ComposeAction,
    ))
        requires
            compose_wf(old(self)@),
            old(self)@.mode == SelectionMode::History,
        ensures
            compose_wf(final(self)@),
            (final(self)@, r.0, r.1@) == spec_compose_history(old(self)@, mod_tuple(*mod_state), key),
            final(self).commons.session_end_line == old(self).commons.session_end_line,
    {
        match (mod_state.as_tuple(), key) {
            (_, SpecialKey::Enter) => {
                let selected_item = self.selected_item;
                if selected_item < self.prediction.len() {
                    let mut line = string_from_chars(chars_of(self.search.as_str()).as_slice());
                    string_push_str(&mut line, self.prediction[selected_item].as_str());
                    proof {
                        assert(line@ =~= self@.search + self@.prediction[selected_item as int]);
                    }
                    self.execute_line_of(line)
                } else {
                    (PresenterCommand::Unknown, ComposeAction::Nothing)
                }
            },
            ((false, false, false), SpecialKey::Up) => {
                self.selected_item = self.selected_item.saturating_sub(1);
                (PresenterCommand::Redraw, ComposeAction::Nothing)
            },
            ((false, false, false), SpecialKey::Down) => {
                let n = self.prediction.len();
                assert(n == self@.prediction.len());
                if self.selected_item < usize::MAX && self.selected_item + 1 < n {
                    self.selected_item = self.selected_item + 1;
                } else {
                    self.selection_mode = SelectionMode::Nothing;
                    self.search = String::new();
                }
                (PresenterCommand::Redraw, ComposeAction::Nothing)
            },
            ((false, false, false), SpecialKey::Backspace) => {
                let mut cs = chars_of(self.search.as_str());
                if cs.len() > 0 {
                    cs.pop();
                }
                proof {
                    assert(old(self)@.search.len() > 0 ==> cs@ =~= old(self)@.search.drop_last());
                }
                self.search = string_from_chars(cs.as_slice());
                let search = string_from_chars(cs.as_slice());
                (PresenterCommand::Redraw, ComposeAction::SearchHistory(search))
            },
            _ => (PresenterCommand::Unknown, ComposeAction::Nothing),
        }
    }

    /// Handle a special key while completions are shown.
    pub fn event_special_key_completion(&mut self, mod_state: &ModifierState, key: SpecialKey) -> (r: (
        PresenterCommand,
        ComposeAction,
    ))
        requires
            compose_wf(old(self)@),
            old(self)@.mode == SelectionMode::Completion,
            key == SpecialKey::Enter ==> completion_fits(old(self)@),
        ensures
            compose_wf(final(self)@),
            (final(self)@, r.0, r.1@) == spec_compose_completion(old(self)@, mod_tuple(*mod_state), key),
            final(self).commons.session_end_line == old(self).commons.session_end_line,
    {
        match (mod_state.as_tuple(), key) {
            (_, SpecialKey::Enter) => {
                let selected_item = self.selected_item;
                self.commons.text_input.delete_word_before_cursor();
                let completion = self.completions.remove(selected_item);
                self.commons.text_input.place_str(completion.as_str());
                self.selection_mode = SelectionMode::Nothing;
                proof {
                    assert(strings_view(self.completions@) =~= strings_view(old(self).completions@).remove(
                        selected_item as int,
                    ));
                }
                (PresenterCommand::Redraw, ComposeAction::Nothing)
            },
            ((false, false, false), SpecialKey::Up) => {
                self.selected_item = self.selected_item.saturating_sub(1);
                (PresenterCommand::Redraw, ComposeAction::Nothing)
            },
            ((false, false, false), SpecialKey::Down) => {
                let n = self.completions.len();
                assert(n == self@.completions.len());
                if self.selected_item + 1 < n {
                    self.selected_item = self.selected_item + 1;
                }
                (PresenterCommand::Redraw, ComposeAction::Nothing)
            },
            _ => (PresenterCommand::Unknown, ComposeAction::Nothing),
        }
    }

    /// Handle pressing modifier + letter: Ctrl-D quits, Ctrl-R opens the history at its last
    /// entry.
    pub fn event_normal_key(&mut self, mod_state: &ModifierState, letter: u8) -> (r: PresenterCommand)
        requires
            compose_wf(old(self)@),
        ensures
            compose_wf(final(self)@),
            mod_tuple(*mod_state) == (false, true, false) && letter == 100 ==> r == PresenterCommand::Exit && final(self)@
                == old(self)@,
            mod_tuple(*mod_state) == (false, true, false) && letter == 114 ==> r == PresenterCommand::Redraw
                && final(self)@ == if old(self)@.prediction.len() > 0 {
                ComposeView {
                    selected: (old(self)@.prediction.len() - 1) as usize,
                    mode: SelectionMode::History,
                    ..old(self)@
                }
            } else {
                old(self)@
            },
            !(mod_tuple(*mod_state) == (false, true, false) && (letter == 100 || letter == 114)) ==> r
                == PresenterCommand::Unknown && final(self)@ == old(self)@,
            final(self).commons.session_end_line == old(self).commons.session_end_line,
    {
        match (mod_state.as_tuple(), letter) {
            ((false, true, false), 100) => PresenterCommand::Exit,
            ((false, true, false), 114) => {
                let prediction_len = self.prediction.len();
                if prediction_len > 0 {
                    self.selected_item = prediction_len - 1;
                    self.selection_mode = SelectionMode::History;
                }
                PresenterCommand::Redraw
            },
            _ => PresenterCommand::Unknown,
        }
    }

    /// Handle a special key by the selection shown.
    pub fn event_special_key(&mut self, session: &mut Session, mod_state: &ModifierState, key: SpecialKey) -> (r: (
        PresenterCommand,
        ComposeAction,
    ))
        requires
            compose_wf(old(self)@),
            session_wf(old(session)@),
            old(self)@.mode == SelectionMode::Nothing ==> compose_key_fits(old(self)@, key),
            offers_prediction(old(self)@) ==> prediction_key_fits(old(self)@, key),
            old(self)@.mode == SelectionMode::Completion && key == SpecialKey::Enter ==> completion_fits(old(self)@),
        ensures
            compose_wf(final(self)@),
            session_wf(final(session)@),
            (final(self)@, r.0, r.1@) == spec_compose_key(old(self)@, old(session)@, mod_tuple(*mod_state), key),
            final(session)@ == if old(self)@.mode == SelectionMode::Nothing {
                spec_compose_session(old(session)@, mod_tuple(*mod_state), key)
            } else {
                old(session)@
            },
    {
        match self.selection_mode {
            SelectionMode::Nothing => {
                let offers = match self.variant {
                    ComposeVariant::MarkovBelow => self.prediction.len() > 0 && self.commons.text_input.cursor_y() >= 0
                        && self.commons.text_input.cursor_at_end(),
                    _ => false,
                };
                if offers {
                    self.event_special_key_prediction(session, mod_state, key)
                } else {
                    self.event_special_key_normal(session, mod_state, key)
                }
            },
            SelectionMode::History => self.event_special_key_history(mod_state, key),
            SelectionMode::Completion => self.event_special_key_completion(mod_state, key),
        }
    }

    /// Execute a line that the view handed over, in folder `cwd`: see `execute_line`. A line
    /// that does not parse is put back into the input to be mended.
    pub fn execute_input(&mut self, session: &mut Session, history: &mut History, cwd: &str, line: &str) -> (r: LineOutcome)
        requires
            compose_wf(old(self)@),
            session_wf(old(session)@),
            unique_folders(old(history)@),
            count_nl(line@) + 1 < u32::MAX,
            parse_error_text(line@.push('\n')) is None ==> can_enter(commands_in(old(history)@, cwd@), line@),
            place_str_fits(sv_reset(old(self)@.ti), line@),
        ensures
            compose_wf(final(self)@),
            session_wf(final(session)@),
            unique_folders(final(history)@),
            line_executed(old(session)@, old(history)@, cwd@, line@, r, final(session)@, final(history)@),
            final(self)@ == if r is Rejected {
                ComposeView { ti: sv_place_str(sv_reset(old(self)@.ti), line@), ..old(self)@ }
            } else {
                old(self)@
            },
    {
        let r = execute_line(session, history, cwd, line);
        match r {
            LineOutcome::Rejected(_) => {
                self.commons.text_input.replace(line, false);
            },
            _ => {},
        }
        r
    }

    /// Handle typed text: it goes into the input line, or, while history entries are shown,
    /// extends the search and asks for the entries found for it; completions ignore it.
    pub fn event_text(&mut self, text: &str) -> (r: (PresenterCommand, ComposeAction))
        requires
            compose_wf(old(self)@),
            old(self)@.mode == SelectionMode::Nothing ==> insert_str_fits(old(self)@.ti, text@),
        ensures
            compose_wf(final(self)@),
            r.0 == PresenterCommand::Redraw,
            old(self)@.mode == SelectionMode::Nothing ==> final(self)@ == (ComposeView {
                ti: sv_insert_str(old(self)@.ti, text@),
                ..old(self)@
            }) && r.1@ == ComposeActionView::Nothing,
            old(self)@.mode == SelectionMode::History ==> final(self)@ == (ComposeView {
                search: old(self)@.search + text@,
                ..old(self)@
            }) && r.1@ == ComposeActionView::SearchHistory(old(self)@.search + text@),
            old(self)@.mode == SelectionMode::Completion ==> final(self)@ == old(self)@ && r.1@ == ComposeActionView::Nothing,
    {
        match self.selection_mode {
            SelectionMode::Nothing => {
                self.commons.text_input_add_characters(text);
                (PresenterCommand::Redraw, ComposeAction::Nothing)
            },
            SelectionMode::History => {
                string_push_str(&mut self.search, text);
                let search = string_from_chars(chars_of(self.search.as_str()).as_slice());
                (PresenterCommand::Redraw, ComposeAction::SearchHistory(search))
            },
            SelectionMode::Completion => (PresenterCommand::Redraw, ComposeAction::Nothing),
        }
    }
}

} // verus!

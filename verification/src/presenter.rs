//! The decisions of the presenter that do not depend on a terminal: modifier keys, the keys
//! that a full-screen program gets, and the selection in lists.

use vstd::prelude::*;
use crate::strings::{chars_of, string_push_str};
use crate::screen::{initial_colors, Attributes, Cell, Colors, BG_COLOR, CHARDRAWN};
use crate::session::{LineItem, LineType, OutputVisibility, RunningStatus};

verus! {

broadcast use vstd::string::to_string_from_display_ensures_for_str;

/// GUI agnostic representation of the modifier keys.
#[derive(Clone, Copy, Debug, PartialEq, Eq, Structural)]
pub struct ModifierState {
    pub shift_pressed: bool,
    pub control_pressed: bool,
    pub meta_pressed: bool,
}

/// GUI agnostic representation of special keys, e.g. function, cursor.
#[derive(Clone, Copy, Debug, PartialEq, Eq, Structural)]
pub enum SpecialKey {
    Escape,
    Enter,
    Left,
    Right,
    Up,
    Down,
    Home,
    End,
    PageUp,
    PageDown,
    Delete,
    Backspace,
    Tab,
    Space,
}

/// Whether the GUI needs to be redrawn.
#[derive(Clone, Copy, Debug, PartialEq, Eq, Structural)]
pub enum NeedRedraw {
    No,
    Yes,
}

/// What the presenter asks of the GUI after an event.
#[derive(Clone, Copy, Debug, PartialEq, Eq, Structural)]
pub enum PresenterCommand {
    /// Unknown key combination, not handled
    Unknown,
    /// Known, but ignored key combination
    Ignored,
    /// Key combination has been dealt with, redraw gui
    Redraw,
    /// Exit bite
    Exit,
}

/// The ways of composing a command. `MarkovBelow` offers predictions of how the input goes
/// on; `BubbleExclusive` shows the history instead of the input; `LiveParse` and
/// `BubbleAbove` compose as `BubbleExclusive` here (see `ComposeCommandPresenter`).
#[derive(Clone, Copy, Debug, PartialEq, Eq, Structural)]
pub enum ComposeVariant {
    MarkovBelow,
    BubbleAbove,
    BubbleExclusive,
    LiveParse,
}

/// The text that names the pressed modifiers in front of a key.
pub open spec fn modifier_text(m: ModifierState) -> Seq<char> {
    (if m.shift_pressed {
        "Shift-"@
    } else {
        Seq::empty()
    }) + (if m.control_pressed {
        "Ctrl-"@
    } else {
        Seq::empty()
    }) + (if m.meta_pressed {
        "Meta-"@
    } else {
        Seq::empty()
    })
}

impl ModifierState {
    /// No modifier key is pressed.
    pub fn none_pressed(&self) -> (b: bool)
        ensures
            b == !(self.shift_pressed || self.control_pressed || self.meta_pressed),
    {
        !(self.shift_pressed || self.control_pressed || self.meta_pressed)
    }

    /// The modifier flags as a tuple (shift, control, meta) for pattern matching.
    pub fn as_tuple(&self) -> (t: (bool, bool, bool))
        ensures
            t == (self.shift_pressed, self.control_pressed, self.meta_pressed),
    {
        (self.shift_pressed, self.control_pressed, self.meta_pressed)
    }

    /// Some modifier but shift is pressed.
    pub fn not_only_shift(&self) -> (b: bool)
        ensures
            b == (self.control_pressed || self.meta_pressed),
    {
        self.control_pressed || self.meta_pressed
    }

    /// The modifier state as a prefix for a key, e.g. `Shift-Ctrl-`.
    pub fn to_text(&self) -> (s: String)
        ensures
            s@ == modifier_text(*self),
    {
        let mut s = String::new();
        if self.shift_pressed {
            string_push_str(&mut s, "Shift-");
        }
        if self.control_pressed {
            string_push_str(&mut s, "Ctrl-");
        }
        if self.meta_pressed {
            string_push_str(&mut s, "Meta-");
        }
        proof {
            assert(s@ =~= modifier_text(*self));
        }
        s
    }
}

/// What a full-screen program gets for a special key.
#[derive(Debug, PartialEq, Eq)]
pub enum TuiKey {
    /// Nothing is sent, the screen is redrawn.
    Redraw,
    /// The terminal capability of this name is sent.
    Capability(String),
    /// The key cannot be represented.
    Unknown,
}

/// What a full-screen program gets for a special key, as a value.
pub enum TuiKeyView {
    Redraw,
    Capability(Seq<char>),
    Unknown,
}

impl View for TuiKey {
    type V = TuiKeyView;

    open spec fn view(&self) -> TuiKeyView {
        match self {
            TuiKey::Redraw => TuiKeyView::Redraw,
            TuiKey::Capability(s) => TuiKeyView::Capability(s@),
            TuiKey::Unknown => TuiKeyView::Unknown,
        }
    }
}

/// The terminal capability that a special key sends to a full-screen program: shifted cursor,
/// home, end and delete keys have capabilities of their own; escape is not sent yet; space
/// cannot be represented.
pub open spec fn spec_tui_key(shifted: bool, key: SpecialKey) -> TuiKeyView {
    match key {
        SpecialKey::Escape => TuiKeyView::Redraw,
        SpecialKey::Enter => TuiKeyView::Capability("kent"@),
        SpecialKey::Left => TuiKeyView::Capability(if shifted { "kLFT"@ } else { "kcub1"@ }),
        SpecialKey::Right => TuiKeyView::Capability(if shifted { "kRIT"@ } else { "kcuf1"@ }),
        SpecialKey::Up => TuiKeyView::Capability("kcuu1"@),
        SpecialKey::Down => TuiKeyView::Capability("kcud1"@),
        SpecialKey::Home => TuiKeyView::Capability(if shifted { "kHOM"@ } else { "khome"@ }),
        SpecialKey::End => TuiKeyView::Capability(if shifted { "kEND"@ } else { "kend"@ }),
        SpecialKey::PageUp => TuiKeyView::Capability("kpp"@),
        SpecialKey::PageDown => TuiKeyView::Capability("knp"@),
        SpecialKey::Delete => TuiKeyView::Capability(if shifted { "kDC"@ } else { "kdch1"@ }),
        SpecialKey::Backspace => TuiKeyView::Capability("kbs"@),
        SpecialKey::Tab => TuiKeyView::Capability("tab"@),
        SpecialKey::Space => TuiKeyView::Unknown,
    }
}

/// terminfo's name of the string that the cursor-up key sends (`key_up`).
pub open spec fn terminfo_key_up() -> Seq<char> {
    "kcuu1"@
}

/// terminfo's name of the string that the cursor-down key sends (`key_down`).
pub open spec fn terminfo_key_down() -> Seq<char> {
    "kcud1"@
}

/// terminfo's name of the string that the cursor-left key sends (`key_left`).
pub open spec fn terminfo_key_left() -> Seq<char> {
    "kcub1"@
}

/// terminfo's name of the string that the cursor-right key sends (`key_right`).
pub open spec fn terminfo_key_right() -> Seq<char> {
    "kcuf1"@
}

/// terminfo's name of the string that the enter key sends (`key_enter`).
pub open spec fn terminfo_enter() -> Seq<char> {
    "kent"@
}

/// terminfo's name of the string that the home key sends (`key_home`).
pub open spec fn terminfo_home() -> Seq<char> {
    "khome"@
}

/// terminfo's name of the string that the shifted home key sends (`key_shome`).
pub open spec fn terminfo_shifted_home() -> Seq<char> {
    "kHOM"@
}

/// terminfo's name of the string that the end key sends (`key_end`).
pub open spec fn terminfo_end() -> Seq<char> {
    "kend"@
}

/// terminfo's name of the string that the shifted end key sends (`key_send`).
pub open spec fn terminfo_shifted_end() -> Seq<char> {
    "kEND"@
}

/// terminfo's name of the string that the page up key sends (`key_ppage`).
pub open spec fn terminfo_page_up() -> Seq<char> {
    "kpp"@
}

/// terminfo's name of the string that the page down key sends (`key_npage`).
pub open spec fn terminfo_page_down() -> Seq<char> {
    "knp"@
}

/// terminfo's name of the string that the delete key sends (`key_dc`).
pub open spec fn terminfo_delete() -> Seq<char> {
    "kdch1"@
}

/// terminfo's name of the string that the shifted delete key sends (`key_sdc`).
pub open spec fn terminfo_shifted_delete() -> Seq<char> {
    "kDC"@
}

/// terminfo's name of the string that the backspace key sends (`key_backspace`).
pub open spec fn terminfo_backspace() -> Seq<char> {
    "kbs"@
}

/// terminfo's name of the string that the shifted left key sends (`key_sleft`).
pub open spec fn terminfo_shifted_left() -> Seq<char> {
    "kLFT"@
}

/// terminfo's name of the string that the shifted right key sends (`key_sright`).
pub open spec fn terminfo_shifted_right() -> Seq<char> {
    "kRIT"@
}

/// A full-screen program gets each unshifted cursor key as the terminfo key of the same
/// direction, and Up and Down also when shifted; the four directions are told apart.
pub proof fn law_cursor_keys_keep_their_direction(shifted: bool)
    ensures
        spec_tui_key(shifted, SpecialKey::Up) == TuiKeyView::Capability(terminfo_key_up()),
        spec_tui_key(shifted, SpecialKey::Down) == TuiKeyView::Capability(terminfo_key_down()),
        spec_tui_key(false, SpecialKey::Left) == TuiKeyView::Capability(terminfo_key_left()),
        spec_tui_key(false, SpecialKey::Right) == TuiKeyView::Capability(terminfo_key_right()),
        terminfo_key_up() != terminfo_key_down(),
        terminfo_key_left() != terminfo_key_right(),
{
    reveal_strlit("kcuu1");
    reveal_strlit("kcud1");
    reveal_strlit("kcub1");
    reveal_strlit("kcuf1");
    assert(terminfo_key_up()[3] != terminfo_key_down()[3]);
    assert(terminfo_key_left()[3] != terminfo_key_right()[3]);
}

/// The other special keys reach a full-screen program as their terminfo keys, shifted where
/// terminfo has a shifted key; Escape redraws and Space is not sent.
pub proof fn law_special_keys_are_terminfo_keys(shifted: bool)
    ensures
        spec_tui_key(shifted, SpecialKey::Enter) == TuiKeyView::Capability(terminfo_enter()),
        spec_tui_key(false, SpecialKey::Home) == TuiKeyView::Capability(terminfo_home()),
        spec_tui_key(true, SpecialKey::Home) == TuiKeyView::Capability(terminfo_shifted_home()),
        spec_tui_key(false, SpecialKey::End) == TuiKeyView::Capability(terminfo_end()),
        spec_tui_key(true, SpecialKey::End) == TuiKeyView::Capability(terminfo_shifted_end()),
        spec_tui_key(shifted, SpecialKey::PageUp) == TuiKeyView::Capability(terminfo_page_up()),
        spec_tui_key(shifted, SpecialKey::PageDown) == TuiKeyView::Capability(terminfo_page_down()),
        spec_tui_key(false, SpecialKey::Delete) == TuiKeyView::Capability(terminfo_delete()),
        spec_tui_key(true, SpecialKey::Delete) == TuiKeyView::Capability(terminfo_shifted_delete()),
        spec_tui_key(shifted, SpecialKey::Backspace) == TuiKeyView::Capability(terminfo_backspace()),
        spec_tui_key(true, SpecialKey::Left) == TuiKeyView::Capability(terminfo_shifted_left()),
        spec_tui_key(true, SpecialKey::Right) == TuiKeyView::Capability(terminfo_shifted_right()),
        spec_tui_key(shifted, SpecialKey::Escape) == TuiKeyView::Redraw,
        spec_tui_key(shifted, SpecialKey::Space) == TuiKeyView::Unknown,
{
}

/// A command's decoration names what it shows (O for its output, E for its errors, a blank for
/// nothing) before a "» ". A command that exited with code 0 is decorated on the green
/// background of the terminal's colors, one that exited with any other code on the red one,
/// and a command that still runs has no background; every cell of the decoration carries it.
pub proof fn law_command_decoration_tells_success(ov: OutputVisibility, h: crate::session::InteractionHandle, status: RunningStatus)
    ensures
        ({
            let p = spec_prefix(LineType::Command(ov, h, status));
            &&& p.len() == 3
            &&& p[0].code_point == match ov {
                OutputVisibility::Nothing => ' ',
                OutputVisibility::Output => 'O',
                OutputVisibility::Error => 'E',
            }
            &&& p[1].code_point == '»' && p[2].code_point == ' '
            &&& forall|i: int|
                0 <= i < p.len() && status is Exited ==> (#[trigger] p[i]).attributes.bits & BG_COLOR == BG_COLOR
                    && p[i].colors.background == crate::screen::color_index(
                    if status->Exited_0 == 0 {
                        crate::screen::Color::Green
                    } else {
                        crate::screen::Color::Red
                    },
                )
            &&& forall|i: int| 0 <= i < p.len() && !(status is Exited) ==> (#[trigger] p[i]).attributes.bits & BG_COLOR == 0
        }),
{
    reveal_strlit(" » ");
    reveal_strlit("O» ");
    reveal_strlit("E» ");
    assert((CHARDRAWN | BG_COLOR) & BG_COLOR == BG_COLOR) by (bit_vector);
    assert(CHARDRAWN & BG_COLOR == 0) by (bit_vector);
}

/// The terminal capability of a name.
fn capability(name: &str) -> (k: TuiKey)
    ensures
        k@ == TuiKeyView::Capability(name@),
{
    TuiKey::Capability(name.to_string())
}

/// What a full-screen program gets for a special key with the given modifiers.
pub fn tui_key(mod_state: &ModifierState, key: SpecialKey) -> (k: TuiKey)
    ensures
        k@ == spec_tui_key(mod_state.shift_pressed, key),
{
    let shifted = mod_state.shift_pressed;
    match key {
        SpecialKey::Escape => TuiKey::Redraw,
        SpecialKey::Enter => capability("kent"),
        SpecialKey::Left => capability(if shifted { "kLFT" } else { "kcub1" }),
        SpecialKey::Right => capability(if shifted { "kRIT" } else { "kcuf1" }),
        SpecialKey::Up => capability("kcuu1"),
        SpecialKey::Down => capability("kcud1"),
        SpecialKey::Home => capability(if shifted { "kHOM" } else { "khome" }),
        SpecialKey::End => capability(if shifted { "kEND" } else { "kend" }),
        SpecialKey::PageUp => capability("kpp"),
        SpecialKey::PageDown => capability("knp"),
        SpecialKey::Delete => capability(if shifted { "kDC" } else { "kdch1" }),
        SpecialKey::Backspace => capability("kbs"),
        SpecialKey::Tab => capability("tab"),
        SpecialKey::Space => TuiKey::Unknown,
    }
}

/// The selected prediction after the number of predictions changed: 0 where there are none,
/// the last one where the selection lies past the end.
pub open spec fn spec_fix_selected(selected: usize, item_cnt: usize) -> usize {
    if item_cnt == 0 {
        0
    } else if selected >= item_cnt {
        (item_cnt - 1) as usize
    } else {
        selected
    }
}

/// Fix the selected prediction to cope with changes in the number of items.
pub fn fix_selected_prediction(selected: usize, item_cnt: usize) -> (r: usize)
    ensures
        r == spec_fix_selected(selected, item_cnt),
{
    if item_cnt == 0 {
        0
    } else if selected >= item_cnt {
        item_cnt - 1
    } else {
        selected
    }
}

/// The rows that remain for the session above the input lines.
pub fn compute_session_height(window_height: usize, input_height: usize) -> (h: usize)
    requires
        input_height <= window_height,
    ensures
        h == window_height - input_height,
{
    window_height - input_height
}

/// The smallest number of entries shown above and below the selected one.
pub const SELECTION_RAD: usize = 2;

/// Which selection the composing view shows.
#[derive(Clone, Copy, Debug, PartialEq, Eq, Structural)]
pub enum SelectionMode {
    /// No selection: the input line.
    Nothing,
    /// Entries of the history.
    History,
    /// Completions of the input.
    Completion,
}

/// Which parts of the composing view are visible: (input, input cursor, selection, search).
pub open spec fn spec_visible_elements(mode: SelectionMode, search_is_empty: bool) -> (bool, bool, bool, bool) {
    match mode {
        SelectionMode::Nothing => (true, true, false, false),
        SelectionMode::History => (false, false, true, !search_is_empty),
        SelectionMode::Completion => (true, false, true, false),
    }
}

/// Determine which elements are visible: (input, input cursor, selection, search). The search
/// line shows while browsing the history with something typed.
pub fn visible_elements(mode: SelectionMode, search_is_empty: bool) -> (r: (bool, bool, bool, bool))
    ensures
        r == spec_visible_elements(mode, search_is_empty),
{
    match mode {
        SelectionMode::Nothing => (true, true, false, false),
        SelectionMode::History => (false, false, true, !search_is_empty),
        SelectionMode::Completion => (true, false, true, false),
    }
}

/// The number of entries shown above and below the selected one: a quarter of the window,
/// but at least `SELECTION_RAD`.
pub fn selection_radius(window_height: usize) -> (r: usize)
    ensures
        r == if window_height / 4 > SELECTION_RAD {
            window_height / 4
        } else {
            SELECTION_RAD
        },
{
    if window_height / 4 > SELECTION_RAD {
        window_height / 4
    } else {
        SELECTION_RAD
    }
}

/// The entries `from..to` to show around the selected one.
pub open spec fn spec_selections(selected_item: usize, selection_rad: usize, prediction_len: usize) -> (usize, usize) {
    (
        if selected_item > selection_rad {
            (selected_item - selection_rad) as usize
        } else {
            0
        },
        if selected_item + selection_rad + 1 <= prediction_len {
            (selected_item + selection_rad + 1) as usize
        } else {
            prediction_len
        },
    )
}

/// The entries `from..to` to show: up to `selection_rad` above and below the selected one,
/// within the `prediction_len` entries.
pub fn selections_from_to(selected_item: usize, selection_rad: usize, prediction_len: usize) -> (r: (usize, usize))
    requires
        selected_item + selection_rad + 1 <= usize::MAX,
    ensures
        r == spec_selections(selected_item, selection_rad, prediction_len),
{
    let from = if selected_item > selection_rad {
        selected_item - selection_rad
    } else {
        0
    };
    let to = if selected_item + selection_rad + 1 <= prediction_len {
        selected_item + selection_rad + 1
    } else {
        prediction_len
    };
    (from, to)
}

/// `a - b`, or 0 where `b` is larger.
pub open spec fn sat_sub(a: int, b: int) -> int {
    if a > b {
        a - b
    } else {
        0
    }
}

/// The window rows left for the session in the composing view: the window without the
/// visible input, selection and search line, and no rows where they fill the window.
pub open spec fn spec_compose_session_height(
    mode: SelectionMode,
    search_is_empty: bool,
    window_height: usize,
    input_height: usize,
    selected_item: usize,
    selection_rad: usize,
    prediction_len: usize,
) -> int {
    let (show_input, _, show_selection, show_search) = spec_visible_elements(mode, search_is_empty);
    let input = if show_input {
        input_height as int
    } else {
        0
    };
    let (from, to) = if show_selection {
        spec_selections(selected_item, selection_rad, prediction_len)
    } else {
        (0usize, 0usize)
    };
    let search = if show_search {
        1int
    } else {
        0
    };
    sat_sub(sat_sub(sat_sub(window_height as int, input), to - from), search)
}

/// The window rows left for the session in the composing view.
pub fn compose_session_height(
    mode: SelectionMode,
    search_is_empty: bool,
    window_height: usize,
    input_height: usize,
    selected_item: usize,
    selection_rad: usize,
    prediction_len: usize,
) -> (h: usize)
    requires
        selected_item + selection_rad + 1 <= usize::MAX,
        mode != SelectionMode::Nothing ==> spec_selections(selected_item, selection_rad, prediction_len).0
            <= spec_selections(selected_item, selection_rad, prediction_len).1,
    ensures
        h == spec_compose_session_height(
            mode,
            search_is_empty,
            window_height,
            input_height,
            selected_item,
            selection_rad,
            prediction_len,
        ),
{
    let (show_input, _, show_selection, show_search) = visible_elements(mode, search_is_empty);
    let input = if show_input {
        input_height
    } else {
        0
    };
    let (from, to) = if show_selection {
        selections_from_to(selected_item, selection_rad, prediction_len)
    } else {
        (0, 0)
    };
    let search = if show_search {
        1
    } else {
        0
    };
    window_height.saturating_sub(input).saturating_sub(to - from).saturating_sub(search)
}

/// Where the composing input's cursor stands on screen: a position in the edited text, and
/// the column and row on screen where that position is drawn.
#[derive(Clone, Copy, Debug, PartialEq, Eq, Structural)]
pub struct CursorMapping {
    /// Position in editor buffer
    pub position: usize,
    /// Horizontal position in text_input
    pub x: isize,
    /// Vertical position in text_input
    pub y: isize,
}

/// The mapping entry for text position `c` after a move forwards: the index advances while the
/// next entry starts at or before `c`.
pub open spec fn forward_index(map: Seq<CursorMapping>, index: int, c: usize) -> int
    decreases map.len() - index,
{
    if 0 <= index && index + 1 < map.len() && c >= map[index + 1].position {
        forward_index(map, index + 1, c)
    } else {
        index
    }
}

/// The mapping entry for text position `c` after a move backwards: the index goes back while
/// the entry starts after `c`.
pub open spec fn backward_index(map: Seq<CursorMapping>, index: int, c: usize) -> int
    decreases index,
{
    if 0 < index && map[index].position > c {
        backward_index(map, index - 1, c)
    } else {
        index
    }
}

/// The on-screen place of text position `c` by the mapping entry `m`.
pub open spec fn mapped_place(m: CursorMapping, c: usize) -> (int, int) {
    (m.x + ((c - m.position) as usize) as isize, m.y as int)
}

proof fn lemma_forward_index(map: Seq<CursorMapping>, index: int, c: usize)
    requires
        0 <= index < map.len(),
        map[index].position <= c,
    ensures
        index <= forward_index(map, index, c) < map.len(),
        map[forward_index(map, index, c)].position <= c,
    decreases map.len() - index,
{
    if index + 1 < map.len() && c >= map[index + 1].position {
        lemma_forward_index(map, index + 1, c);
    }
}

/// Find the on-screen place of text position `c` after a move forwards, advancing the mapping
/// index. The distance from the entry's start is taken as an `isize`; `None` where the column
/// does not fit one.
pub fn update_input_cursor_forwards(map: &Vec<CursorMapping>, index: &mut usize, c: usize) -> (r: Option<(isize, isize)>)
    requires
        *old(index) < map@.len(),
        map@[*old(index) as int].position <= c,
    ensures
        *final(index) == forward_index(map@, *old(index) as int, c),
        r == (if isize::MIN <= mapped_place(map@[*final(index) as int], c).0 <= isize::MAX {
            Some((mapped_place(map@[*final(index) as int], c).0 as isize, map@[*final(index) as int].y))
        } else {
            None
        }),
{
    proof {
        lemma_forward_index(map@, *index as int, c);
    }
    let n = map.len();
    while *index + 1 < n && c >= map[*index + 1].position
        invariant
            n == map@.len(),
            *index < map@.len(),
            forward_index(map@, *index as int, c) == forward_index(map@, *old(index) as int, c),
            map@[*index as int].position <= c,
        decreases map@.len() - *index,
    {
        *index = *index + 1;
    }
    let m = map[*index];
    let d = c - m.position;
    match m.x.checked_add(d as isize) {
        Some(x) => Some((x, m.y)),
        None => None,
    }
}

/// Find the on-screen place of text position `c` after a move backwards, taking the mapping
/// index back; nothing where the index is past the end of the map. The distance from the
/// entry's start is taken as an `isize`; `None` where the column does not fit one.
pub fn update_input_cursor_backwards(map: &Vec<CursorMapping>, index: &mut usize, c: usize) -> (r: Option<(isize, isize)>)
    requires
        *old(index) < map@.len() ==> exists|k: int| 0 <= k <= *old(index) && #[trigger] map@[k].position <= c,
    ensures
        *old(index) >= map@.len() ==> r is None && *final(index) == *old(index),
        *old(index) < map@.len() ==> {
            &&& *final(index) == backward_index(map@, *old(index) as int, c)
            &&& r == (if isize::MIN <= mapped_place(map@[*final(index) as int], c).0 <= isize::MAX {
                Some((mapped_place(map@[*final(index) as int], c).0 as isize, map@[*final(index) as int].y))
            } else {
                None
            })
        },
{
    if *index >= map.len() {
        return None;
    }
    while map[*index].position > c
        invariant
            *index < map@.len(),
            exists|k: int| 0 <= k <= *index && #[trigger] map@[k].position <= c,
            backward_index(map@, *index as int, c) == backward_index(map@, *old(index) as int, c),
        decreases *index,
    {
        *index = *index - 1;
    }
    let m = map[*index];
    let d = c - m.position;
    match m.x.checked_add(d as isize) {
        Some(x) => Some((x, m.y)),
        None => None,
    }
}

/// A list of entries to pick from, with the selected one.
pub struct Selection {
    /// The entries.
    pub items: Vec<String>,
    /// The index of the selected entry.
    pub current: usize,
}

/// The selection after a special key: up and down move it by one within the list, home and
/// end go to the first and the last entry. The other keys are not handled.
pub open spec fn spec_select(current: usize, n: usize, mod_state: ModifierState, key: SpecialKey) -> (usize, PresenterCommand) {
    if mod_state.shift_pressed || mod_state.control_pressed || mod_state.meta_pressed {
        (current, PresenterCommand::Unknown)
    } else {
        match key {
            SpecialKey::Enter => (current, PresenterCommand::Redraw),
            SpecialKey::Up => (if current > 0 { (current - 1) as usize } else { current }, PresenterCommand::Redraw),
            SpecialKey::Down => (if current + 1 < n { (current + 1) as usize } else { current }, PresenterCommand::Redraw),
            SpecialKey::Home => (0, PresenterCommand::Redraw),
            SpecialKey::End => ((n - 1) as usize, PresenterCommand::Redraw),
            _ => (current, PresenterCommand::Unknown),
        }
    }
}

impl Selection {
    /// Handle a special key: move the selection, or leave it.
    pub fn event_special_key(&mut self, mod_state: &ModifierState, key: SpecialKey) -> (r: PresenterCommand)
        requires
            old(self).items@.len() > 0,
            old(self).current < old(self).items@.len(),
        ensures
            (final(self).current, r) == spec_select(old(self).current, old(self).items@.len() as usize, *mod_state, key),
            final(self).items == old(self).items,
            final(self).current < final(self).items@.len(),
    {
        if mod_state.shift_pressed || mod_state.control_pressed || mod_state.meta_pressed {
            return PresenterCommand::Unknown;
        }
        match key {
            SpecialKey::Enter => PresenterCommand::Redraw,
            SpecialKey::Up => {
                if self.current > 0 {
                    self.current = self.current - 1;
                }
                PresenterCommand::Redraw
            },
            SpecialKey::Down => {
                let n = self.items.len();
                if self.current < n - 1 {
                    self.current = self.current + 1;
                }
                PresenterCommand::Redraw
            },
            SpecialKey::Home => {
                self.current = 0;
                PresenterCommand::Redraw
            },
            SpecialKey::End => {
                self.current = self.items.len() - 1;
                PresenterCommand::Redraw
            },
            _ => PresenterCommand::Unknown,
        }
    }
}

/// Ensure that the selected item is visible: if it lies between the first line shown and the
/// last, nothing changes; otherwise the last line shown moves so that the selection is in the
/// middle of the window, as far as there are lines. The new last line shown, and whether to
/// redraw.
pub fn show_selection(current: usize, start_line: usize, last_line_shown: usize, window_height: usize, n: usize) -> (r: (usize, NeedRedraw))
    ensures
        start_line <= current < last_line_shown ==> r == (last_line_shown, NeedRedraw::No),
        !(start_line <= current < last_line_shown) ==> r == (
            if current + window_height / 2 < n { (current + window_height / 2) as usize } else { n },
            NeedRedraw::Yes,
        ),
{
    if start_line <= current && current < last_line_shown {
        (last_line_shown, NeedRedraw::No)
    } else {
        let middle = window_height / 2;
        let shown = if current < n && middle < n - current { current + middle } else { n };
        (shown, NeedRedraw::Yes)
    }
}

/// One line to be displayed: the decoration in front of it, its cells, and the cursor in it.
pub struct DisplayLine {
    pub prefix: Vec<Cell>,
    pub line: Vec<Cell>,
    pub cursor_col: Option<usize>,
}

/// The cell of a decoration character: drawn, in the initial colors, on the background color
/// where one is given.
pub open spec fn prefix_cell(c: char, background: Option<u8>) -> Cell {
    match background {
        None => Cell { code_point: c, attributes: Attributes { bits: CHARDRAWN }, colors: initial_colors() },
        Some(b) => Cell {
            code_point: c,
            attributes: Attributes { bits: CHARDRAWN | BG_COLOR },
            colors: Colors { background: b, ..initial_colors() },
        },
    }
}

/// Background color index of a command that succeeded.
pub open spec fn green() -> u8 {
    2
}

/// Background color index of a command that failed.
pub open spec fn red() -> u8 {
    1
}

/// The decoration text in front of a line of a type, and its background color. A command shows
/// which of its outputs is visible, and whether it succeeded (on green), failed (on red) or
/// still runs (no background).
pub open spec fn prefix_of(t: LineType) -> (Seq<char>, Option<u8>) {
    match t {
        LineType::Output => ("  "@, None),
        LineType::Command(ov, _, status) => {
            let text = match ov {
                OutputVisibility::Nothing => " » "@,
                OutputVisibility::Output => "O» "@,
                OutputVisibility::Error => "E» "@,
            };
            let background = match status {
                RunningStatus::Exited(code) => if code == 0 {
                    Some(green())
                } else {
                    Some(red())
                },
                _ => None,
            };
            (text, background)
        },
        LineType::MenuItem(_) => ("    "@, None),
        LineType::SelectedMenuItem(_) => ("==> "@, None),
        _ => (Seq::empty(), None),
    }
}

/// The cells of the decoration in front of a line of a type.
pub open spec fn spec_prefix(t: LineType) -> Seq<Cell> {
    let (text, background) = prefix_of(t);
    text.map_values(|c: char| prefix_cell(c, background))
}

/// The cells of a decoration text.
fn prefix_cells(text: &str, background: Option<u8>) -> (v: Vec<Cell>)
    ensures
        v@ == text@.map_values(|c: char| prefix_cell(c, background)),
{
    let chars = chars_of(text);
    let (attributes, colors) = match background {
        None => (Attributes::from_bits(CHARDRAWN), Colors { foreground: 1, background: 0 }),
        Some(b) => (Attributes::from_bits(CHARDRAWN | BG_COLOR), Colors { foreground: 1, background: b }),
    };
    let mut v: Vec<Cell> = Vec::new();
    let mut i: usize = 0;
    while i < chars.len()
        invariant
            chars@ == text@,
            i <= chars@.len(),
            v@.len() == i,
            forall|k: int| 0 <= k < i ==> #[trigger] v@[k] == prefix_cell(chars@[k], background),
            background is None ==> attributes.bits == CHARDRAWN && colors == initial_colors(),
            background matches Some(b) ==> attributes.bits == CHARDRAWN | BG_COLOR && colors == (Colors {
                background: b,
                ..initial_colors()
            }),
        decreases chars@.len() - i,
    {
        let cell = Cell { code_point: chars[i], attributes, colors };
        let ghost v0 = v@;
        v.push(cell);
        assert(v@ == v0.push(cell));
        assert(cell == prefix_cell(chars@[i as int], background));
        i = i + 1;
    }
    proof {
        assert(v@ =~= text@.map_values(|c: char| prefix_cell(c, background)));
    }
    v
}

impl DisplayLine {
    /// A line to be displayed from a session item: the decoration of its type in front of its
    /// cells, and its cursor.
    pub fn from(line: LineItem) -> (d: DisplayLine)
        ensures
            d.prefix@ == spec_prefix(line.is_a),
            d.line@ == line.text@,
            d.cursor_col == line.cursor_col,
    {
        let prefix = match line.is_a {
            LineType::Output => prefix_cells("  ", None),
            LineType::Command(ov, _, status) => {
                let background = match status {
                    RunningStatus::Exited(code) => if code == 0 {
                        Some(2u8)
                    } else {
                        Some(1u8)
                    },
                    _ => None,
                };
                match ov {
                    OutputVisibility::Nothing => prefix_cells(" » ", background),
                    OutputVisibility::Output => prefix_cells("O» ", background),
                    OutputVisibility::Error => prefix_cells("E» ", background),
                }
            },
            LineType::MenuItem(_) => prefix_cells("    ", None),
            LineType::SelectedMenuItem(_) => prefix_cells("==> ", None),
            _ => Vec::new(),
        };
        proof {
            assert(prefix@ =~= spec_prefix(line.is_a));
        }
        DisplayLine { prefix, line: line.text, cursor_col: line.cursor_col }
    }

    /// A line from its decoration, its cells and its cursor.
    pub fn new(prefix: Vec<Cell>, line: Vec<Cell>, cursor_col: Option<usize>) -> (d: Self)
        ensures
            d.prefix@ == prefix@,
            d.line@ == line@,
            d.cursor_col == cursor_col,
    {
        DisplayLine { prefix, line, cursor_col }
    }
}

} // verus!

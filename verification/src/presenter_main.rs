//! The top-level presenter: which view is shown, and the events that all views share.

use vstd::prelude::*;
use crate::commons::PresenterCommons;
use crate::presenter::{ComposeVariant, ModifierState, NeedRedraw, PresenterCommand, SelectionMode, SpecialKey};
use crate::compose_view::{compose_wf, strings_view, ComposeCommandPresenter, ComposeView};
use crate::session::{interaction_of, session_wf, tui_search_start, InteractionHandle, Session, SessionView};

verus! {

/// The views of the presenter.
#[derive(Clone, Copy, Debug, PartialEq, Eq, Structural)]
pub enum SubPresenterType {
    /// Compose the next command.
    ComposeCommandPresenter,
    /// Send input to a running command.
    ExecuteCommandPresenter(InteractionHandle),
    /// Show the screen of a running full-screen program.
    TuiExecuteCommandPresenter(InteractionHandle),
}

/// The interaction exists and has exited.
pub open spec fn exited(s: SessionView, h: InteractionHandle) -> bool {
    h.index() < s.interactions.len() && interaction_of(s, h).running_status is Exited
}

/// The interaction exists and runs a full-screen program.
pub open spec fn tui(s: SessionView, h: InteractionHandle) -> bool {
    h.index() < s.interactions.len() && interaction_of(s, h).tui_mode
}

/// The view for the command that the interpreter runs, if it runs one; otherwise composing.
pub open spec fn busy_view(s: SessionView, busy: Option<InteractionHandle>, tui_allowed: bool) -> SubPresenterType {
    match busy {
        None => SubPresenterType::ComposeCommandPresenter,
        Some(h) => if tui_allowed && tui(s, h) {
            SubPresenterType::TuiExecuteCommandPresenter(h)
        } else {
            SubPresenterType::ExecuteCommandPresenter(h)
        },
    }
}

/// The view to show and the interaction that keeps the focus. Without a focus, the view
/// follows the interpreter. A focused full-screen program that still runs keeps the focus;
/// any other focus is dropped and the view follows the interpreter, where only a running
/// command (never its full-screen view) is shown.
pub open spec fn spec_choose(s: SessionView, focused: Option<InteractionHandle>, busy: Option<InteractionHandle>) -> (SubPresenterType, Option<InteractionHandle>) {
    match focused {
        None => (busy_view(s, busy, true), None),
        Some(h) => if !exited(s, h) && tui(s, h) {
            (SubPresenterType::TuiExecuteCommandPresenter(h), Some(h))
        } else {
            (busy_view(s, busy, false), None)
        },
    }
}

/// The interaction at `k` runs a full-screen program that has not exited.
pub open spec fn running_tui(s: SessionView, k: int) -> bool {
    s.interactions[k].tui_mode && !(s.interactions[k].running_status is Exited)
}

/// `next` is the first interaction after `from` (from the oldest on, for none) that runs a
/// full-screen program; none if there is no such interaction.
pub open spec fn next_tui_after(s: SessionView, from: Option<InteractionHandle>, next: Option<InteractionHandle>) -> bool {
    let lo = tui_search_start(from);
    match next {
        Some(h) => {
            &&& lo <= h.index() < s.interactions.len()
            &&& running_tui(s, h.index())
            &&& forall|k: int| lo <= k < h.index() ==> !#[trigger] running_tui(s, k)
        },
        None => forall|k: int| lo <= k < s.interactions.len() ==> !#[trigger] running_tui(s, k),
    }
}

/// The top-level presenter state: the focused interaction, the current view, the variant of
/// composing, and the data that all views share.
pub struct Presenter {
    /// The interaction that should be shown fullscreen
    pub focused_interaction: Option<InteractionHandle>,
    /// Current sub-presenter type
    pub sp_type: SubPresenterType,
    /// Feature flag: ComposeCommandPresenter Variant
    pub feat_compose_variant: ComposeVariant,
    /// Common data.
    pub commons: PresenterCommons,
}

impl Presenter {
    /// A presenter that starts composing a command, with no focus.
    pub fn new(commons: PresenterCommons, feat_compose_variant: ComposeVariant) -> (p: Self)
        ensures
            p.focused_interaction is None,
            p.sp_type == SubPresenterType::ComposeCommandPresenter,
            p.feat_compose_variant == feat_compose_variant,
            p.commons == commons,
    {
        Presenter { focused_interaction: None, sp_type: SubPresenterType::ComposeCommandPresenter, feat_compose_variant, commons }
    }

    /// The composing view of this presenter's variant, with its common data and the
    /// predictions for the empty input.
    pub fn new_compose_view(self, prediction: Vec<String>) -> (p: ComposeCommandPresenter)
        requires
            self.commons.wf(),
        ensures
            compose_wf(p@),
            p@ == (ComposeView {
                ti: self.commons.text_input@,
                selected: 0,
                search: Seq::<char>::empty(),
                prediction: strings_view(prediction@),
                completions: Seq::<Seq<char>>::empty(),
                mode: SelectionMode::Nothing,
                end_line: None,
                window_width: self.commons.window_width,
                window_height: self.commons.window_height,
                button_down: self.commons.button_down,
                variant: self.feat_compose_variant,
            }),
    {
        ComposeCommandPresenter::new(self.commons, prediction, self.feat_compose_variant)
    }

    /// Prepare the presenter for the new cycle: choose the view from the focus and from the
    /// command that the interpreter runs (`busy`). Returns whether the GUI needs a redraw (the
    /// session changed, or the view did) and whether a new prompt is due (the view changed to
    /// composing). A new compose or execute view follows the end of the session.
    pub fn prepare_cycle(&mut self, session: &mut Session, busy: Option<InteractionHandle>) -> (r: (bool, bool))
        ensures
            ({
                let (sp_type, focus) = spec_choose(old(session)@, old(self).focused_interaction, busy);
                let changed = sp_type != old(self).sp_type;
                &&& final(self).sp_type == sp_type
                &&& final(self).focused_interaction == focus
                &&& r == (old(session)@.needs_redraw || changed, changed && sp_type
                    == SubPresenterType::ComposeCommandPresenter)
                &&& final(self).commons.session_end_line == if changed && !(sp_type is TuiExecuteCommandPresenter) {
                    None
                } else {
                    old(self).commons.session_end_line
                }
            }),
            final(session)@ == (SessionView { needs_redraw: false, ..old(session)@ }),
            final(self).commons.text_input == old(self).commons.text_input,
            final(self).commons.window_width == old(self).commons.window_width,
            final(self).commons.window_height == old(self).commons.window_height,
            final(self).commons.button_down == old(self).commons.button_down,
            final(self).feat_compose_variant == old(self).feat_compose_variant,
    {
        let sp_type = match self.focused_interaction {
            None => match busy {
                None => SubPresenterType::ComposeCommandPresenter,
                Some(h) => if session.is_tui(h) {
                    SubPresenterType::TuiExecuteCommandPresenter(h)
                } else {
                    SubPresenterType::ExecuteCommandPresenter(h)
                },
            },
            Some(handle) => {
                if session.has_exited(handle) {
                    self.focused_interaction = None;
                    match busy {
                        None => SubPresenterType::ComposeCommandPresenter,
                        Some(h) => SubPresenterType::ExecuteCommandPresenter(h),
                    }
                } else {
                    if session.is_tui(handle) {
                        SubPresenterType::TuiExecuteCommandPresenter(handle)
                    } else {
                        self.focused_interaction = None;
                        match busy {
                            None => SubPresenterType::ComposeCommandPresenter,
                            Some(h) => SubPresenterType::ExecuteCommandPresenter(h),
                        }
                    }
                }
            },
        };
        // The GUI needs to be redrawn if the session has been changed.
        let mut redraw = session.check_redraw();
        let mut update_prompt = false;
        if sp_type != self.sp_type {
            self.sp_type = sp_type;
            // The GUI also needs to be redrawn if the presenter was changed.
            redraw = true;
            match sp_type {
                SubPresenterType::ComposeCommandPresenter => {
                    self.commons.to_last_line();
                    update_prompt = true;
                },
                SubPresenterType::ExecuteCommandPresenter(_) => {
                    self.commons.to_last_line();
                },
                SubPresenterType::TuiExecuteCommandPresenter(_) => {},
            }
        }
        (redraw, update_prompt)
    }

    /// Handle the change of the window size; a pressed button is forgotten.
    pub fn event_window_resize(&mut self, session: &mut Session, width: usize, height: usize)
        ensures
            final(self).commons.window_width == width,
            final(self).commons.window_height == height,
            final(self).commons.button_down is None,
            final(self).commons.session_end_line == old(self).commons.session_end_line,
            final(self).commons.text_input == old(self).commons.text_input,
            final(self).focused_interaction == old(self).focused_interaction,
            final(self).sp_type == old(self).sp_type,
            final(session)@ == (SessionView { window_width: width, window_height: height, ..old(session)@ }),
    {
        self.commons.window_width = width;
        self.commons.window_height = height;
        self.commons.button_down = None;
        session.set_window_size(width, height);
    }

    /// Handle the window regaining the focus: a pressed button is forgotten.
    pub fn event_focus_gained(&mut self)
        ensures
            final(self).commons.button_down is None,
            final(self).commons.window_width == old(self).commons.window_width,
            final(self).commons.window_height == old(self).commons.window_height,
            final(self).commons.session_end_line == old(self).commons.session_end_line,
            final(self).commons.text_input == old(self).commons.text_input,
            final(self).focused_interaction == old(self).focused_interaction,
            final(self).sp_type == old(self).sp_type,
    {
        self.commons.button_down = None;
    }

    /// Handle the window losing the focus: a pressed button is forgotten.
    pub fn event_focus_lost(&mut self)
        ensures
            final(self).commons.button_down is None,
            final(self).commons.window_width == old(self).commons.window_width,
            final(self).commons.window_height == old(self).commons.window_height,
            final(self).commons.session_end_line == old(self).commons.session_end_line,
            final(self).commons.text_input == old(self).commons.text_input,
            final(self).focused_interaction == old(self).focused_interaction,
            final(self).sp_type == old(self).sp_type,
    {
        self.commons.button_down = None;
    }

    /// Remember where a mouse button was pressed.
    pub fn event_button_down(&mut self, _mod_state: ModifierState, btn: usize, x: usize, y: usize) -> (r: NeedRedraw)
        ensures
            r == NeedRedraw::No,
            final(self).commons.button_down == Some((btn, x, y)),
            final(self).commons.window_width == old(self).commons.window_width,
            final(self).commons.window_height == old(self).commons.window_height,
            final(self).commons.session_end_line == old(self).commons.session_end_line,
            final(self).commons.text_input == old(self).commons.text_input,
            final(self).focused_interaction == old(self).focused_interaction,
            final(self).sp_type == old(self).sp_type,
    {
        self.commons.button_down = Some((btn, x, y));
        NeedRedraw::No
    }

    /// A mouse button was released. It is a click, to be handled by the view, where the same
    /// button was pressed at the same place; then the pressed button is forgotten.
    pub fn event_button_up(&mut self, _mod_state: ModifierState, btn: usize, x: usize, y: usize) -> (click: bool)
        ensures
            click == (old(self).commons.button_down == Some((btn, x, y))),
            final(self).commons.button_down == if click {
                None
            } else {
                old(self).commons.button_down
            },
            final(self).commons.window_width == old(self).commons.window_width,
            final(self).commons.window_height == old(self).commons.window_height,
            final(self).commons.session_end_line == old(self).commons.session_end_line,
            final(self).commons.text_input == old(self).commons.text_input,
            final(self).focused_interaction == old(self).focused_interaction,
            final(self).sp_type == old(self).sp_type,
    {
        if let Some((down_btn, down_x, down_y)) = self.commons.button_down {
            if down_btn == btn && down_x == x && down_y == y {
                self.commons.button_down = None;
                return true;
            }
        }
        false
    }

    /// Ctrl-Tab moves the focus to the next running full-screen program, if there is one, and
    /// asks for a redraw; any other key is left to the view (`None`).
    pub fn event_special_key(&mut self, session: &Session, mod_state: &ModifierState, key: SpecialKey) -> (r: Option<PresenterCommand>)
        ensures
            ({
                let ctrl_tab = key == SpecialKey::Tab && !mod_state.shift_pressed && mod_state.control_pressed
                    && !mod_state.meta_pressed;
                &&& r == if ctrl_tab {
                    Some(PresenterCommand::Redraw)
                } else {
                    None
                }
                &&& !ctrl_tab ==> final(self).focused_interaction == old(self).focused_interaction
                &&& ctrl_tab ==> next_tui_after(session@, old(self).focused_interaction, final(self).focused_interaction)
            }),
            final(self).commons == old(self).commons,
            final(self).sp_type == old(self).sp_type,
    {
        match (mod_state.as_tuple(), key) {
            // Ctrl-Tab => Switch to next running TUI if there is one
            ((false, true, false), SpecialKey::Tab) => {
                let current_focus = self.focused_interaction;
                let next_focus = session.next_running_tui(current_focus);
                self.focused_interaction = next_focus;
                Some(PresenterCommand::Redraw)
            },
            _ => None,
        }
    }
}

} // verus!

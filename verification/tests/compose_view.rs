use bite::commons::PresenterCommons;
use bite::compose_view::{word_take, ComposeAction, ComposeCommandPresenter};
use bite::compose::LineOutcome;
use bite::history::History;
use bite::presenter::{ComposeVariant, ModifierState, PresenterCommand, SelectionMode, SpecialKey};
use bite::presenter_main::Presenter;
use bite::screen::Screen;
use bite::session::{OutputVisibility, RunningStatus, Session};

fn mods(shift: bool, control: bool, meta: bool) -> ModifierState {
    ModifierState { shift_pressed: shift, control_pressed: control, meta_pressed: meta }
}

fn plain() -> ModifierState {
    mods(false, false, false)
}

fn strings(v: &[&str]) -> Vec<String> {
    v.iter().map(|s| s.to_string()).collect()
}

fn presenter(prediction: &[&str]) -> ComposeCommandPresenter {
    let mut commons = PresenterCommons::new();
    commons.window_width = 80;
    commons.window_height = 10;
    ComposeCommandPresenter::new(commons, strings(prediction), ComposeVariant::BubbleExclusive)
}

fn markov(prediction: &[&str]) -> ComposeCommandPresenter {
    let mut commons = PresenterCommons::new();
    commons.window_width = 80;
    commons.window_height = 10;
    ComposeCommandPresenter::new(commons, strings(prediction), ComposeVariant::MarkovBelow)
}

fn session() -> Session {
    Session::new(Screen::one_line_matrix(b"$ "))
}

#[test]
fn enter_runs_the_typed_line() {
    let mut s = session();
    let mut p = presenter(&[]);
    p.event_text("ls -l");
    let r = p.event_special_key(&mut s, &plain(), SpecialKey::Enter);
    assert_eq!(r, (PresenterCommand::Redraw, ComposeAction::Execute("ls -l".to_string())));
    assert_eq!(p.commons.text_input.extract_text_without_last_nl(), "");
    // An empty line runs nothing
    let r = p.event_special_key(&mut s, &plain(), SpecialKey::Enter);
    assert_eq!(r, (PresenterCommand::Redraw, ComposeAction::Nothing));
}

#[test]
fn shift_enter_breaks_the_line_and_ctrl_enter_runs_it() {
    let mut s = session();
    let mut p = presenter(&[]);
    p.event_text("ab");
    p.event_special_key(&mut s, &mods(true, false, false), SpecialKey::Enter);
    p.event_text("cd");
    assert_eq!(p.commons.text_input.height(), 2);
    // Plain Enter in a multi-line input breaks again
    p.event_special_key(&mut s, &plain(), SpecialKey::Enter);
    assert_eq!(p.commons.text_input.height(), 3);
    let r = p.event_special_key(&mut s, &mods(false, true, false), SpecialKey::Enter);
    assert_eq!(r.1, ComposeAction::Execute("ab\ncd\n".to_string()));
}

#[test]
fn ctrl_enter_on_a_single_line_is_unknown() {
    let mut s = session();
    let mut p = presenter(&[]);
    p.event_text("ab");
    let r = p.event_special_key(&mut s, &mods(false, true, false), SpecialKey::Enter);
    assert_eq!(r, (PresenterCommand::Unknown, ComposeAction::Nothing));
}

#[test]
fn backspace_and_delete_edit_the_input() {
    let mut s = session();
    let mut p = presenter(&[]);
    p.event_text("abc");
    p.event_special_key(&mut s, &plain(), SpecialKey::Backspace);
    assert_eq!(p.commons.text_input.extract_text_without_last_nl(), "ab");
    p.event_special_key(&mut s, &plain(), SpecialKey::Home);
    p.event_special_key(&mut s, &plain(), SpecialKey::Delete);
    assert_eq!(p.commons.text_input.extract_text_without_last_nl(), "b");
    p.event_special_key(&mut s, &plain(), SpecialKey::End);
    assert_eq!(p.commons.text_input.cursor_x(), 1);
}

#[test]
fn backspace_at_the_start_of_a_row_joins_it_to_the_one_above() {
    let mut s = session();
    let mut p = presenter(&[]);
    p.event_text("ab");
    p.event_special_key(&mut s, &mods(true, false, false), SpecialKey::Enter);
    p.event_text("cd");
    p.event_special_key(&mut s, &plain(), SpecialKey::Home);
    p.event_special_key(&mut s, &plain(), SpecialKey::Backspace);
    assert_eq!(p.commons.text_input.extract_text_without_last_nl(), "abcd");
}

#[test]
fn up_in_the_first_row_opens_the_history_at_its_last_entry() {
    let mut s = session();
    let mut p = presenter(&["ls", "make"]);
    let r = p.event_special_key(&mut s, &plain(), SpecialKey::Up);
    assert_eq!(r.0, PresenterCommand::Redraw);
    assert_eq!(p.selection_mode, SelectionMode::History);
    assert_eq!(p.selected_item, 1);
    p.event_special_key(&mut s, &plain(), SpecialKey::Up);
    assert_eq!(p.selected_item, 0);
    p.event_special_key(&mut s, &plain(), SpecialKey::Up);
    assert_eq!(p.selected_item, 0);
    let r = p.event_special_key(&mut s, &plain(), SpecialKey::Enter);
    assert_eq!(r, (PresenterCommand::Redraw, ComposeAction::Execute("ls".to_string())));
    assert_eq!(p.selection_mode, SelectionMode::Nothing);
}

#[test]
fn up_without_history_stays_in_the_input() {
    let mut s = session();
    let mut p = presenter(&[]);
    p.event_special_key(&mut s, &plain(), SpecialKey::Up);
    assert_eq!(p.selection_mode, SelectionMode::Nothing);
}

#[test]
fn down_past_the_last_entry_closes_the_history() {
    let mut s = session();
    let mut p = presenter(&["a", "b"]);
    p.event_normal_key(&mods(false, true, false), b'r');
    assert_eq!(p.selection_mode, SelectionMode::History);
    p.event_text("x");
    assert_eq!(p.search, "x");
    p.event_special_key(&mut s, &plain(), SpecialKey::Down);
    assert_eq!(p.selection_mode, SelectionMode::Nothing);
    assert_eq!(p.search, "");
}

#[test]
fn typing_in_the_history_searches_and_backspace_shortens_the_search() {
    let mut s = session();
    let mut p = presenter(&["s", "make"]);
    p.event_normal_key(&mods(false, true, false), b'r');
    let r = p.event_text("l");
    assert_eq!(r, (PresenterCommand::Redraw, ComposeAction::SearchHistory("l".to_string())));
    p.set_prediction(strings(&["s"]));
    assert_eq!(p.selected_item, 0);
    let r = p.event_special_key(&mut s, &plain(), SpecialKey::Enter);
    assert_eq!(r.1, ComposeAction::Execute("ls".to_string()));
    p.event_normal_key(&mods(false, true, false), b'r');
    p.event_text("ab");
    let r = p.event_special_key(&mut s, &plain(), SpecialKey::Backspace);
    assert_eq!(r, (PresenterCommand::Redraw, ComposeAction::SearchHistory("a".to_string())));
    assert_eq!(p.search, "a");
}

#[test]
fn set_prediction_keeps_the_selection_inside() {
    let mut p = presenter(&["a", "b", "c"]);
    p.event_normal_key(&mods(false, true, false), b'r');
    assert_eq!(p.selected_item, 2);
    p.set_prediction(strings(&["a"]));
    assert_eq!(p.selected_item, 0);
    p.set_prediction(vec![]);
    assert_eq!(p.selected_item, 0);
}

#[test]
fn tab_asks_for_completions_of_the_word() {
    let mut s = session();
    let mut p = presenter(&[]);
    p.event_text("cat sr");
    let r = p.event_special_key(&mut s, &plain(), SpecialKey::Tab);
    assert_eq!(r, (PresenterCommand::Redraw, ComposeAction::Complete("sr".to_string())));
    // A single completion replaces the word
    p.completions_found(strings(&["src/"]));
    assert_eq!(p.commons.text_input.extract_text_without_last_nl(), "cat src/");
}

#[test]
fn several_completions_are_offered_for_selection() {
    let mut s = session();
    let mut p = presenter(&[]);
    p.event_text("cat a");
    p.event_special_key(&mut s, &plain(), SpecialKey::Tab);
    p.completions_found(strings(&["ab", "ac", "ad"]));
    assert_eq!(p.selection_mode, SelectionMode::Completion);
    assert_eq!(p.selected_item, 2);
    p.event_special_key(&mut s, &plain(), SpecialKey::Down);
    assert_eq!(p.selected_item, 2);
    p.event_special_key(&mut s, &plain(), SpecialKey::Up);
    assert_eq!(p.selected_item, 1);
    // Typing is ignored while completions are shown
    assert_eq!(p.event_text("zz"), (PresenterCommand::Redraw, ComposeAction::Nothing));
    let r = p.event_special_key(&mut s, &plain(), SpecialKey::Enter);
    assert_eq!(r, (PresenterCommand::Redraw, ComposeAction::Nothing));
    assert_eq!(p.commons.text_input.extract_text_without_last_nl(), "cat ac");
    assert_eq!(p.completions, strings(&["ab", "ad"]));
    assert_eq!(p.selection_mode, SelectionMode::Nothing);
}

#[test]
fn ctrl_space_cycles_the_newest_interaction() {
    let mut s = session();
    let mut p = presenter(&[]);
    assert_eq!(
        p.event_special_key(&mut s, &mods(false, true, false), SpecialKey::Space),
        (PresenterCommand::Unknown, ComposeAction::Nothing)
    );
    let h = s.add_interaction(Screen::one_line_matrix(b"ls"));
    let before = s.get_visibility(h);
    let r = p.event_special_key(&mut s, &mods(false, true, false), SpecialKey::Space);
    assert_eq!(r.0, PresenterCommand::Redraw);
    assert_ne!(s.get_visibility(h), before);
}

#[test]
fn ctrl_d_quits_and_other_letters_are_unknown() {
    let mut p = presenter(&[]);
    assert_eq!(p.event_normal_key(&mods(false, true, false), b'd'), PresenterCommand::Exit);
    assert_eq!(p.event_normal_key(&plain(), b'd'), PresenterCommand::Unknown);
}

#[test]
fn ctrl_tab_finds_the_oldest_running_full_screen_program() {
    let mut s = session();
    let h = s.add_interaction(Screen::one_line_matrix(b"vi"));
    s.add_bytes(OutputVisibility::Output, h, b"\x1b[?1049hHi");
    assert_eq!(s.next_running_tui(None), Some(h));
    assert_eq!(s.next_running_tui(Some(h)), None);
    let mut p = Presenter::new(PresenterCommons::new(), ComposeVariant::BubbleExclusive);
    p.event_special_key(&s, &mods(false, true, false), SpecialKey::Tab);
    assert_eq!(p.focused_interaction, Some(h));
}

#[test]
fn error_lines_are_shown_after_success() {
    let mut s = session();
    let h = s.add_interaction(Screen::one_line_matrix(b"cc"));
    s.add_bytes(OutputVisibility::Output, h, b"out\n");
    s.add_bytes(OutputVisibility::Error, h, b"warning\n");
    s.set_running_status(h, RunningStatus::Exited(0));
    assert_eq!(s.get_visibility(h), Some(OutputVisibility::Error));
    let h2 = s.add_interaction(Screen::one_line_matrix(b"true"));
    s.add_bytes(OutputVisibility::Output, h2, b"out\n");
    s.set_running_status(h2, RunningStatus::Exited(0));
    assert_eq!(s.get_visibility(h2), Some(OutputVisibility::Output));
}

#[test]
fn shift_page_up_scrolls_while_composing() {
    let mut s = session();
    for i in 0..30 {
        let h = s.add_interaction(Screen::one_line_matrix(format!("c{}", i).as_bytes()));
        s.add_bytes(OutputVisibility::Output, h, b"out\n");
    }
    let mut p = presenter(&[]);
    assert_eq!(p.commons.session_end_line, None);
    let r = p.event_special_key(&mut s, &mods(true, false, false), SpecialKey::PageUp);
    assert_eq!(r, (PresenterCommand::Redraw, ComposeAction::Nothing));
    assert!(p.commons.session_end_line.is_some());
    let r = p.event_special_key(&mut s, &mods(true, false, false), SpecialKey::PageDown);
    assert_eq!(r.0, PresenterCommand::Redraw);
}

#[test]
fn a_line_that_does_not_parse_goes_back_into_the_input() {
    let mut s = session();
    let mut h = History::new();
    let mut p = presenter(&[]);
    p.event_text("ls &&");
    let r = p.event_special_key(&mut s, &plain(), SpecialKey::Enter);
    assert_eq!(r.1, ComposeAction::Execute("ls &&".to_string()));
    assert_eq!(p.commons.text_input.extract_text_without_last_nl(), "");
    let outcome = p.execute_input(&mut s, &mut h, "/tmp", "ls &&");
    assert!(matches!(outcome, LineOutcome::Rejected(_)));
    assert_eq!(p.commons.text_input.extract_text_without_last_nl(), "ls &&");
    let outcome = p.execute_input(&mut s, &mut h, "/tmp", "ls");
    assert!(matches!(outcome, LineOutcome::Run(_, _)));
    assert_eq!(p.commons.text_input.extract_text_without_last_nl(), "ls &&");
}

#[test]
fn word_take_stops_after_the_next_word() {
    assert_eq!(word_take(&"  ab cd".chars().collect()), 4);
    assert_eq!(word_take(&"ab".chars().collect()), 2);
    assert_eq!(word_take(&"   ".chars().collect()), 3);
    assert_eq!(word_take(&vec![]), 0);
}

#[test]
fn predictions_are_taken_at_the_end_of_the_input() {
    let mut s = session();
    let mut p = markov(&["s -l", "ss"]);
    p.event_text("l");
    // Right takes one character
    let r = p.event_special_key(&mut s, &plain(), SpecialKey::Right);
    assert_eq!(r, (PresenterCommand::Redraw, ComposeAction::Predict("ls".to_string())));
    p.set_prediction(strings(&[" -l", " -la"]));
    // Down and Up move within the predictions
    p.event_special_key(&mut s, &plain(), SpecialKey::Down);
    assert_eq!(p.selected_item, 1);
    p.event_special_key(&mut s, &plain(), SpecialKey::Down);
    assert_eq!(p.selected_item, 1);
    p.event_special_key(&mut s, &plain(), SpecialKey::Up);
    assert_eq!(p.selected_item, 0);
    // Ctrl-Right takes the next word with the spaces before it
    let r = p.event_special_key(&mut s, &mods(false, true, false), SpecialKey::Right);
    assert_eq!(r.1, ComposeAction::Predict("ls -l".to_string()));
    p.set_prediction(strings(&["a"]));
    // Enter appends the prediction and runs the line
    let r = p.event_special_key(&mut s, &plain(), SpecialKey::Enter);
    assert_eq!(r, (PresenterCommand::Redraw, ComposeAction::Execute("ls -la".to_string())));
    assert_eq!(p.commons.text_input.extract_text_without_last_nl(), "");
}

#[test]
fn prediction_edits_ask_for_new_predictions() {
    let mut s = session();
    let mut p = markov(&["x"]);
    p.event_text("cat foo");
    let r = p.event_special_key(&mut s, &plain(), SpecialKey::Left);
    assert_eq!(r, (PresenterCommand::Redraw, ComposeAction::Predict("cat fo".to_string())));
    let r = p.event_special_key(&mut s, &mods(false, true, false), SpecialKey::Left);
    assert_eq!(r.1, ComposeAction::Predict("cat ".to_string()));
    let r = p.event_special_key(&mut s, &plain(), SpecialKey::End);
    assert_eq!(r.1, ComposeAction::Predict("cat x".to_string()));
    let r = p.event_special_key(&mut s, &plain(), SpecialKey::Home);
    assert_eq!(r.1, ComposeAction::Predict("".to_string()));
}

#[test]
fn without_predictions_keys_act_as_in_the_input() {
    let mut s = session();
    let mut p = markov(&[]);
    p.event_text("ab");
    p.event_special_key(&mut s, &plain(), SpecialKey::Left);
    assert_eq!(p.commons.text_input.cursor_x(), 1);
    assert_eq!(p.commons.text_input.extract_text_without_last_nl(), "ab");
    // The bubble variant moves the cursor on Left even with predictions
    let mut q = presenter(&["x"]);
    q.event_text("ab");
    q.event_special_key(&mut s, &plain(), SpecialKey::Left);
    assert_eq!(q.commons.text_input.extract_text_without_last_nl(), "ab");
}

#[test]
fn the_presenter_composes_in_its_variant() {
    let p = Presenter::new(PresenterCommons::new(), ComposeVariant::MarkovBelow);
    let v = p.new_compose_view(strings(&["x"]));
    assert_eq!(v.variant, ComposeVariant::MarkovBelow);
    assert_eq!(v.selection_mode, SelectionMode::Nothing);
}

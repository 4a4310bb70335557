use bite::commons::PresenterCommons;
use bite::compose::{execute_line, LineOutcome};
use bite::history::History;
use bite::execute_command::{ExecuteCommandPresenter, JobRequest, TuiExecuteCommandPresenter};
use bite::presenter::{ComposeVariant, DisplayLine, ModifierState, NeedRedraw, PresenterCommand, SpecialKey};
use bite::presenter_main::{Presenter, SubPresenterType};
use bite::screen::{Cell, Screen};
use bite::scroll::{locate_down, locate_end, locate_up};
use bite::session::{InteractionHandle, LineItem, LineType, OutputVisibility, RunningStatus, Session};

fn mods(shift: bool, control: bool, meta: bool) -> ModifierState {
    ModifierState { shift_pressed: shift, control_pressed: control, meta_pressed: meta }
}

fn plain() -> ModifierState {
    mods(false, false, false)
}

fn text_of(cells: &[Cell]) -> String {
    cells.iter().map(|c| c.code_point()).collect()
}

fn session_with_command() -> (Session, InteractionHandle) {
    let mut session = Session::new(Screen::one_line_matrix(b"prompt"));
    let h = session.add_interaction(Screen::one_line_matrix(b"command"));
    session.add_bytes(OutputVisibility::Output, h, b"line 1\nline 2\nline 3\n");
    (session, h)
}

fn presenter_for(h: InteractionHandle) -> ExecuteCommandPresenter {
    let mut commons = PresenterCommons::new();
    commons.window_width = 80;
    commons.window_height = 10;
    ExecuteCommandPresenter::new(commons, h)
}

#[test]
fn commons_start_empty() {
    let commons = PresenterCommons::new();
    assert_eq!(commons.window_width, 0);
    assert_eq!(commons.window_height, 0);
    assert_eq!(commons.button_down, None);
    assert_eq!(commons.session_end_line, None);
    let lines = commons.input_line_iter();
    assert_eq!(lines.len(), 1);
    assert_eq!(text_of(&lines[0].text), "");
    assert_eq!(lines[0].is_a, LineType::Input);
    assert_eq!(lines[0].cursor_col, Some(0));
}

#[test]
fn typed_text_is_sent_on_enter() {
    let (mut session, h) = session_with_command();
    let mut p = presenter_for(h);
    assert!(p.commons.text_input.insert_str_fits_check("ls -l"));
    assert_eq!(p.event_text("ls -l"), PresenterCommand::Redraw);
    let lines = p.commons.input_line_iter();
    assert_eq!(text_of(&lines[0].text), "ls -l");
    assert_eq!(lines[0].cursor_col, Some(5));

    assert!(p.key_fits(SpecialKey::Enter));
    let (cmd, req) = p.event_special_key(&mut session, &plain(), SpecialKey::Enter);
    assert_eq!(cmd, PresenterCommand::Redraw);
    assert_eq!(req, JobRequest::WriteStdin("ls -l\n".to_string()));
    assert_eq!(p.commons.text_input.extract_text(), "\n");
    assert_eq!(p.commons.text_input.cursor_x(), 0);
}

#[test]
fn cursor_keys_move_in_the_input() {
    let (mut session, h) = session_with_command();
    let mut p = presenter_for(h);
    p.event_text("abc");
    assert_eq!(p.commons.text_input.cursor_x(), 3);
    let (cmd, req) = p.event_special_key(&mut session, &plain(), SpecialKey::Left);
    assert_eq!((cmd, req), (PresenterCommand::Redraw, JobRequest::Nothing));
    assert_eq!(p.commons.text_input.cursor_x(), 2);
    p.event_special_key(&mut session, &plain(), SpecialKey::Home);
    assert_eq!(p.commons.text_input.cursor_x(), 0);
    p.event_special_key(&mut session, &plain(), SpecialKey::Right);
    assert_eq!(p.commons.text_input.cursor_x(), 1);
    p.event_special_key(&mut session, &plain(), SpecialKey::Delete);
    assert_eq!(p.commons.text_input.extract_text(), "ac\n");
    p.event_special_key(&mut session, &plain(), SpecialKey::Backspace);
    assert_eq!(p.commons.text_input.extract_text(), "c\n");
    assert_eq!(p.commons.text_input.cursor_x(), 0);
    p.event_special_key(&mut session, &plain(), SpecialKey::End);
    assert_eq!(p.commons.text_input.cursor_x(), p.commons.text_input.width());
}

#[test]
fn unknown_keys_change_nothing() {
    let (mut session, h) = session_with_command();
    let mut p = presenter_for(h);
    p.event_text("x");
    let (cmd, req) = p.event_special_key(&mut session, &mods(false, false, true), SpecialKey::Enter);
    assert_eq!((cmd, req), (PresenterCommand::Unknown, JobRequest::Nothing));
    assert_eq!(p.commons.text_input.extract_text(), "x\n");
    let (cmd, _) = p.event_special_key(&mut session, &plain(), SpecialKey::Up);
    assert_eq!(cmd, PresenterCommand::Unknown);
}

#[test]
fn ctrl_space_cycles_the_output() {
    let (mut session, h) = session_with_command();
    let h2 = session.add_interaction(Screen::one_line_matrix(b"other"));
    let mut p = presenter_for(h);
    assert_eq!(session.get_visibility(h), Some(OutputVisibility::Output));
    let (cmd, _) = p.event_special_key(&mut session, &mods(false, true, false), SpecialKey::Space);
    assert_eq!(cmd, PresenterCommand::Redraw);
    assert_eq!(session.get_visibility(h), Some(OutputVisibility::Error));
    assert_eq!(session.get_visibility(h2), Some(OutputVisibility::Output));

    let (cmd, _) = p.event_special_key(&mut session, &mods(true, true, false), SpecialKey::Space);
    assert_eq!(cmd, PresenterCommand::Redraw);
    assert_eq!(session.get_visibility(h), Some(OutputVisibility::Nothing));
    assert_eq!(session.get_visibility(h2), Some(OutputVisibility::Nothing));
}

#[test]
fn ctrl_letters_reach_the_program() {
    let (_, h) = session_with_command();
    let mut p = presenter_for(h);
    assert_eq!(p.event_normal_key(&mods(false, true, false), b'c'), (PresenterCommand::Redraw, JobRequest::Terminate));
    assert_eq!(
        p.event_normal_key(&mods(false, true, false), b'd'),
        (PresenterCommand::Redraw, JobRequest::WriteStdin("\u{4}".to_string()))
    );
    assert_eq!(p.event_normal_key(&mods(false, true, false), b'x'), (PresenterCommand::Unknown, JobRequest::Nothing));
    assert_eq!(p.event_normal_key(&plain(), b'c'), (PresenterCommand::Unknown, JobRequest::Nothing));
}

#[test]
fn wheel_scrolls_the_session() {
    let (session, h) = session_with_command();
    let mut p = presenter_for(h);
    assert_eq!(p.event_scroll_up(&session, &mods(true, false, false)), PresenterCommand::Unknown);
    assert_eq!(p.commons.session_end_line, None);

    assert_eq!(p.event_scroll_up(&session, &plain()), PresenterCommand::Redraw);
    let end = locate_end(&session, false).unwrap();
    let one_up = locate_up(&session, &end, 1);
    assert!(one_up.is_some());
    assert_eq!(p.commons.session_end_line, one_up);

    assert_eq!(p.event_scroll_down(&session, &plain()), PresenterCommand::Redraw);
    assert_eq!(p.commons.session_end_line, locate_down(&session, &one_up.unwrap(), false, 1));
    // Past the end, the end of the session is followed again.
    for _ in 0..10 {
        p.event_scroll_down(&session, &plain());
    }
    assert_eq!(p.commons.session_end_line, None);
}

#[test]
fn start_line_counts_back_from_the_end() {
    let (session, h) = session_with_command();
    let p = presenter_for(h);
    let end = locate_end(&session, false).unwrap();
    assert_eq!(p.commons.start_line(&session, false, 2), locate_up(&session, &end, 2));
    assert_eq!(p.compute_session_height(), 9);
}

#[test]
fn display_line_decorates_commands() {
    let (_, h) = session_with_command();
    let cells = Screen::one_line_cell_vec(b"ls");

    let ok = DisplayLine::from(LineItem::new(&cells, LineType::Command(OutputVisibility::Output, h, RunningStatus::Exited(0)), None, 0));
    assert_eq!(text_of(&ok.prefix), "O» ");
    assert_eq!(ok.prefix[0].background_color(), Some(2));
    assert_eq!(text_of(&ok.line), "ls");

    let failed = DisplayLine::from(LineItem::new(&cells, LineType::Command(OutputVisibility::Error, h, RunningStatus::Exited(1)), None, 0));
    assert_eq!(text_of(&failed.prefix), "E» ");
    assert_eq!(failed.prefix[2].background_color(), Some(1));

    let running = DisplayLine::from(LineItem::new(&cells, LineType::Command(OutputVisibility::Nothing, h, RunningStatus::Running), Some(1), 0));
    assert_eq!(text_of(&running.prefix), " » ");
    assert_eq!(running.prefix[1].background_color(), None);
    assert_eq!(running.cursor_col, Some(1));

    let output = DisplayLine::from(LineItem::new(&cells, LineType::Output, None, 0));
    assert_eq!(text_of(&output.prefix), "  ");
    let spaces = Screen::one_line_cell_vec(b"  ");
    assert_eq!(output.prefix.len(), spaces.len());
    assert!(output.prefix.iter().zip(spaces.iter()).all(|(a, b)| a.looks_same(b)));
    let selected = DisplayLine::from(LineItem::new(&cells, LineType::SelectedMenuItem(0), None, 0));
    assert_eq!(text_of(&selected.prefix), "==> ");
    let item = DisplayLine::from(LineItem::new(&cells, LineType::MenuItem(0), None, 0));
    assert_eq!(text_of(&item.prefix), "    ");
    let prompt = DisplayLine::from(LineItem::new(&cells, LineType::Prompt, None, 0));
    assert!(prompt.prefix.is_empty());
}

#[test]
fn prepare_cycle_follows_the_interpreter() {
    let (mut session, h) = session_with_command();
    let mut p = Presenter::new(PresenterCommons::new(), ComposeVariant::LiveParse);
    session.check_redraw();
    assert_eq!(p.prepare_cycle(&mut session, None), (false, false));
    assert_eq!(p.sp_type, SubPresenterType::ComposeCommandPresenter);

    assert_eq!(p.prepare_cycle(&mut session, Some(h)), (true, false));
    assert_eq!(p.sp_type, SubPresenterType::ExecuteCommandPresenter(h));

    assert_eq!(p.prepare_cycle(&mut session, None), (true, true));
    assert_eq!(p.sp_type, SubPresenterType::ComposeCommandPresenter);
}

#[test]
fn ctrl_tab_without_full_screen_program_drops_focus() {
    let (session, _) = session_with_command();
    let mut p = Presenter::new(PresenterCommons::new(), ComposeVariant::LiveParse);
    assert_eq!(p.event_special_key(&session, &mods(false, true, false), SpecialKey::Tab), Some(PresenterCommand::Redraw));
    assert_eq!(p.focused_interaction, None);
    assert_eq!(p.event_special_key(&session, &plain(), SpecialKey::Tab), None);
}

#[test]
fn click_is_press_and_release_at_one_place() {
    let (mut session, _) = session_with_command();
    let mut p = Presenter::new(PresenterCommons::new(), ComposeVariant::LiveParse);
    p.event_window_resize(&mut session, 80, 24);
    assert_eq!(session.window_size(), (80, 24));
    assert_eq!((p.commons.window_width, p.commons.window_height), (80, 24));

    assert_eq!(p.event_button_down(plain(), 1, 3, 4), NeedRedraw::No);
    assert!(!p.event_button_up(plain(), 1, 3, 5));
    assert_eq!(p.commons.button_down, Some((1, 3, 4)));
    assert!(p.event_button_up(plain(), 1, 3, 4));
    assert_eq!(p.commons.button_down, None);

    p.event_button_down(plain(), 2, 0, 0);
    p.event_focus_lost();
    assert_eq!(p.commons.button_down, None);
    p.event_button_down(plain(), 2, 0, 0);
    p.event_focus_gained();
    assert!(!p.event_button_up(plain(), 2, 0, 0));
}

#[test]
fn entered_lines_run_or_show_their_error() {
    let (mut session, _) = session_with_command();
    let mut history = History::new();
    let before = session.interactions().len();

    assert!(matches!(execute_line(&mut session, &mut history, "/tmp", ""), LineOutcome::Empty));
    assert_eq!(session.interactions().len(), before);
    assert!(history.to_maps().is_empty());

    match execute_line(&mut session, &mut history, "/tmp", "echo hi") {
        LineOutcome::Run(code, script) => {
            assert!(!code.is_empty());
            assert_eq!(script, "echo hi\n");
        }
        _ => panic!("the line parses"),
    }
    assert_eq!(session.interactions().len(), before);
    assert_eq!(history.to_maps(), vec![("/tmp".to_string(), vec![("echo hi".to_string(), 1)])]);

    match execute_line(&mut session, &mut history, "/tmp", "a | ") {
        LineOutcome::Rejected(h) => {
            assert_eq!(session.interactions().len(), before + 1);
            assert!(session.has_exited(h));
            assert_eq!(session.get_visibility(h), Some(OutputVisibility::Error));
            let inter = session.interaction(h).unwrap();
            assert_eq!(inter.running_status, RunningStatus::Exited(1));
            assert_eq!(text_of(&inter.command.compacted_row(0)), "a | ");
            assert_eq!(text_of(&inter.errors.lines[0]), "Error: a | ");
        }
        _ => panic!("the line does not parse"),
    }
    assert_eq!(history.to_maps(), vec![("/tmp".to_string(), vec![("echo hi".to_string(), 1)])]);
    assert!(history.can_enter_check("/tmp", "echo hi"));
}

#[test]
fn second_enter_sends_a_bare_line_break() {
    let (mut session, h) = session_with_command();
    let mut p = presenter_for(h);
    p.event_text("x");
    p.event_special_key(&mut session, &plain(), SpecialKey::Enter);
    let (_, req) = p.event_special_key(&mut session, &plain(), SpecialKey::Enter);
    assert_eq!(req, JobRequest::WriteStdin("\n".to_string()));
}

#[test]
fn display_lines_show_session_then_input() {
    let (session, h) = session_with_command();
    let p = presenter_for(h);
    let rows = p.display_lines(&session);
    let (last_row, last) = rows.last().unwrap();
    assert_eq!(*last_row, 9);
    assert_eq!(text_of(&last.line), "");
    assert_eq!(last.cursor_col, Some(0));
    let session_rows: Vec<_> = rows.iter().filter(|(r, _)| *r < 9).collect();
    assert!(!session_rows.is_empty());
    assert!(session_rows.windows(2).all(|w| w[0].0 < w[1].0));
    let command = session_rows.iter().find(|(_, d)| text_of(&d.line) == "command").unwrap();
    assert_eq!(text_of(&command.1.prefix), "O» ");
    assert!(session_rows.iter().any(|(_, d)| text_of(&d.line) == "line 3"));
}

#[test]
fn full_screen_view_sends_text_and_ends_with_the_program() {
    let (mut session, h) = session_with_command();
    let p = TuiExecuteCommandPresenter::new(PresenterCommons::new(), h);
    // The interaction is not in full-screen mode: nothing to show.
    assert!(p.line_iter(&session).is_empty());
    assert_eq!(p.event_text("q"), (PresenterCommand::Redraw, JobRequest::WriteStdin("q".to_string())));
    assert_eq!(p.end_polling(&session, false), (true, false));
    session.set_running_status(h, RunningStatus::Exited(0));
    assert_eq!(p.end_polling(&session, false), (false, true));
}

#[test]
fn full_screen_program_shows_its_screen() {
    let (mut session, h) = session_with_command();
    session.add_bytes(OutputVisibility::Output, h, b"\x1b[?1049hHi");
    assert!(session.is_tui(h));
    let p = TuiExecuteCommandPresenter::new(PresenterCommons::new(), h);
    let lines = p.line_iter(&session);
    assert!(!lines.is_empty());
    assert_eq!(lines[0].is_a, LineType::Tui);
    assert!(text_of(&lines[0].text).starts_with("Hi"));
    assert_eq!(lines[0].cursor_col, Some(2));
    assert_eq!(lines[1].cursor_col, None);
}

use bite::locator::{ConversationLocator, InteractionLocator, ResponseLocator, SessionLocator};
use bite::screen::Screen;
use bite::session::{LineType, OutputVisibility, RunningStatus, Session};

fn new_test_session(prompt: &[u8]) -> Session {
    Session::new(Screen::one_line_matrix(prompt))
}

fn text_of(cells: &[bite::screen::Cell]) -> String {
    cells.iter().map(|c| c.code_point()).collect()
}

/// Session:
/// * prompt 1
///     * command 1.1
///         * output 1.1.1
///         * output 1.1.2
///     * command 1.2
///         * output 1.2.1
///         * output 1.2.2
/// * prompt 2a
///   prompt 2b
///     * command 2.1
///         * output 2.1.1
///         * output 2.1.2
///     * command 2.2
///         * output 2.2.1
///         * output 2.2.2
fn four_interactions() -> Session {
    let mut session = new_test_session(b"prompt 1");

    let inter_1_1 = session.add_interaction(Screen::one_line_matrix(b"command 1.1"));
    session.add_bytes(OutputVisibility::Output, inter_1_1, b"output 1.1.1\noutput 1.1.2\n");
    let inter_1_2 = session.add_interaction(Screen::one_line_matrix(b"command 1.2"));
    session.add_bytes(OutputVisibility::Output, inter_1_2, b"output 1.2.1\noutput 1.2.2\n");

    session.new_conversation(Screen::one_line_matrix(b"prompt 2a\nprompt 2b"));
    let inter_2_1 = session.add_interaction(Screen::one_line_matrix(b"command 2.1"));
    session.add_bytes(OutputVisibility::Output, inter_2_1, b"output 2.1.1\noutput 2.1.2\n");
    let inter_2_2 = session.add_interaction(Screen::one_line_matrix(b"command 2.2"));
    session.add_bytes(OutputVisibility::Output, inter_2_2, b"output 2.2.1\noutput 2.2.2\n");
    session
}

#[test]
fn test_locator() {
    let session = four_interactions();

    assert_eq!(session.conversations().len(), 2);
    assert_eq!(session.conversations()[0].interactions.len(), 2);
    assert_eq!(session.conversations()[1].interactions.len(), 2);

    assert_eq!(session.conversations()[1].prompt.rows(), 2);

    {
        let mut loc = session.locate_at_last_prompt_end();
        assert_eq!(
            loc,
            Some(SessionLocator { conversation: 1, in_conversation: ConversationLocator::Prompt(2) })
        );
        assert_eq!(loc.as_ref().unwrap().is_start_line(), false);
        let mut lines = 1;
        loc.as_mut().unwrap().dec_line(&mut lines);
        assert_eq!(lines, 0);
        assert_eq!(
            loc,
            Some(SessionLocator { conversation: 1, in_conversation: ConversationLocator::Prompt(1) })
        );
        assert_eq!(loc.as_ref().unwrap().is_start_line(), false);
        lines = 1;
        loc.as_mut().unwrap().dec_line(&mut lines);
        assert_eq!(lines, 0);
        assert_eq!(
            loc,
            Some(SessionLocator { conversation: 1, in_conversation: ConversationLocator::Prompt(0) })
        );
        assert_eq!(loc.as_ref().unwrap().is_start_line(), true);
        lines = 1;
        loc.as_mut().unwrap().dec_line(&mut lines);
        assert_eq!(lines, 1);
        assert_eq!(
            loc,
            Some(SessionLocator { conversation: 1, in_conversation: ConversationLocator::Prompt(0) })
        );
    }
}

#[test]
fn session_output_is_archived_line_by_line() {
    let session = four_interactions();
    let h = session.last_interaction().unwrap();
    let inter = &session.interactions()[session.interactions().len() - 1];
    assert_eq!(inter.output.lines.len(), 2);
    assert_eq!(text_of(&inter.output.lines[0]), "output 2.2.1");
    assert_eq!(text_of(&inter.output.lines[1]), "output 2.2.2");
    assert_eq!(inter.output.screen.height(), 0);
    assert_eq!(session.get_visibility(h), Some(OutputVisibility::Output));
}

#[test]
fn session_display_lines() {
    let session = four_interactions();
    let loc = SessionLocator { conversation: 0, in_conversation: ConversationLocator::Prompt(0) };
    let l = session.display_line(&loc).unwrap();
    assert_eq!(l.is_a, LineType::Prompt);
    assert_eq!(text_of(&l.text), "prompt 1");
    assert_eq!(l.cursor_col, None);

    let loc = SessionLocator {
        conversation: 0,
        in_conversation: ConversationLocator::Interaction(1, InteractionLocator::Command(0)),
    };
    let l = session.display_line(&loc).unwrap();
    assert!(matches!(l.is_a, LineType::Command(OutputVisibility::Output, _, RunningStatus::Unknown)));
    assert_eq!(text_of(&l.text), "command 1.2");

    let loc = SessionLocator {
        conversation: 1,
        in_conversation: ConversationLocator::Interaction(0, InteractionLocator::Response(ResponseLocator::Lines(1))),
    };
    let l = session.display_line(&loc).unwrap();
    assert_eq!(l.is_a, LineType::Output);
    assert_eq!(text_of(&l.text), "output 2.1.2");

    let loc = SessionLocator {
        conversation: 1,
        in_conversation: ConversationLocator::Interaction(0, InteractionLocator::Response(ResponseLocator::Lines(2))),
    };
    assert!(session.display_line(&loc).is_none());
    let loc = SessionLocator { conversation: 2, in_conversation: ConversationLocator::Prompt(0) };
    assert!(session.display_line(&loc).is_none());
}

#[test]
fn session_locate_functions() {
    let session = four_interactions();
    let loc = SessionLocator {
        conversation: 0,
        in_conversation: ConversationLocator::Interaction(0, InteractionLocator::Command(0)),
    };
    assert_eq!(
        session.locate_at_output_end(&loc),
        Some(SessionLocator {
            conversation: 0,
            in_conversation: ConversationLocator::Interaction(0, InteractionLocator::Response(ResponseLocator::Lines(2))),
        })
    );
    assert_eq!(
        session.locate_at_command_end(&loc),
        Some(SessionLocator {
            conversation: 0,
            in_conversation: ConversationLocator::Interaction(0, InteractionLocator::Command(1)),
        })
    );
    assert_eq!(
        session.locate_at_next_interaction(&loc),
        Some(SessionLocator {
            conversation: 0,
            in_conversation: ConversationLocator::Interaction(1, InteractionLocator::Command(0)),
        })
    );
    assert_eq!(session.locate_at_previous_interaction(&loc), None);
    assert_eq!(
        session.locate_at_conversation_end(&loc),
        Some(SessionLocator {
            conversation: 0,
            in_conversation: ConversationLocator::Interaction(1, InteractionLocator::Command(0)),
        })
    );
    assert_eq!(
        session.locate_at_next_conversation(&loc),
        Some(SessionLocator {
            conversation: 1,
            in_conversation: ConversationLocator::Interaction(0, InteractionLocator::Command(0)),
        })
    );
    assert_eq!(session.locate_at_previous_conversation(&loc), None);
    assert_eq!(
        session.locate_at_prompt_end(&loc),
        Some(SessionLocator { conversation: 0, in_conversation: ConversationLocator::Prompt(1) })
    );
    assert_eq!(
        session.locate_at_output_start(&loc),
        Some(SessionLocator {
            conversation: 0,
            in_conversation: ConversationLocator::Interaction(0, InteractionLocator::Response(ResponseLocator::Lines(0))),
        })
    );
    assert_eq!(session.locator_is_last_conversation(&loc), false);
    assert_eq!(session.locator_is_end_line(&loc), Some(false));
    let end = session.locate_at_output_end(&loc).unwrap();
    assert_eq!(session.locator_is_end_line(&end), Some(true));
}

#[test]
fn session_inc_line_takes_what_it_moves() {
    let session = four_interactions();
    let mut loc = SessionLocator {
        conversation: 0,
        in_conversation: ConversationLocator::Interaction(0, InteractionLocator::Response(ResponseLocator::Lines(0))),
    };
    let mut lines = 1;
    session.locator_inc_line(&mut loc, &mut lines);
    assert_eq!(lines, 0);
    assert_eq!(loc.line(), 1);
    let mut lines = 5;
    session.locator_inc_line(&mut loc, &mut lines);
    assert_eq!(lines, 4);
    assert_eq!(loc.line(), 2);
    assert_eq!(session.locator_is_end_line(&loc), Some(true));
}

#[test]
fn session_cycle_visibility_three_times() {
    let mut session = four_interactions();
    let h = session.last_interaction().unwrap();
    session.cycle_visibility(h);
    assert_eq!(session.get_visibility(h), Some(OutputVisibility::Error));
    session.cycle_visibility(h);
    assert_eq!(session.get_visibility(h), Some(OutputVisibility::Nothing));
    session.cycle_visibility(h);
    assert_eq!(session.get_visibility(h), Some(OutputVisibility::Output));
}

#[test]
fn session_failed_program_shows_errors() {
    let mut session = new_test_session(b"$ ");
    let h = session.add_interaction(Screen::one_line_matrix(b"false"));
    session.add_bytes(OutputVisibility::Error, h, b"oops\n");
    session.set_visibility(h, OutputVisibility::Output);
    session.set_running_status(h, RunningStatus::Exited(1));
    assert_eq!(session.get_visibility(h), Some(OutputVisibility::Error));
    assert!(session.has_exited(h));
    // Error lines stay shown when the status turns out a success
    session.set_running_status(h, RunningStatus::Exited(0));
    assert_eq!(session.get_visibility(h), Some(OutputVisibility::Error));
}

#[test]
fn session_sub_interaction_gets_numbered_command() {
    let mut session = new_test_session(b"$ ");
    let h = session.add_interaction(Screen::one_line_matrix(b"job"));
    session.new_conversation(Screen::one_line_matrix(b"other"));
    let sub = session.create_sub_interaction(h);
    assert_eq!(session.conversations()[0].interactions.len(), 2);
    assert_eq!(session.conversations()[1].interactions.len(), 0);
    let loc = SessionLocator {
        conversation: 0,
        in_conversation: ConversationLocator::Interaction(1, InteractionLocator::Command(0)),
    };
    let l = session.display_line(&loc).unwrap();
    assert_eq!(text_of(&l.text), "job # [1]");
    assert!(matches!(l.is_a, LineType::Command(_, x, _) if x == sub));
}

#[test]
fn session_new_conversation_same_prompt() {
    let mut session = new_test_session(b"$ ");
    session.new_conversation(Screen::one_line_matrix(b"$ "));
    assert_eq!(session.conversations().len(), 1);
    session.new_conversation(Screen::one_line_matrix(b"# "));
    assert_eq!(session.conversations().len(), 2);
}

#[test]
fn session_redraw_flag() {
    let mut session = new_test_session(b"$ ");
    assert!(session.check_redraw());
    assert!(!session.check_redraw());
    let h = session.add_interaction(Screen::one_line_matrix(b"ls"));
    session.add_bytes(OutputVisibility::Output, h, b"partial");
    assert!(!session.check_redraw());
    session.add_bytes(OutputVisibility::Output, h, b" line\n");
    assert!(session.check_redraw());
    session.mark_drawn();
    assert!(!session.check_redraw());
}

#[test]
fn session_threads_and_tui() {
    let mut session = new_test_session(b"$ ");
    let h = session.add_interaction(Screen::one_line_matrix(b"vi"));
    assert!(!session.is_tui(h));
    assert!(session.tui_screen(&h).is_none());
    session.register_thread(h);
    session.register_thread(h);
    session.unregister_thread(h);
    assert_eq!(session.interactions()[0].threads, 1);
    session.unregister_thread(h);
    assert_eq!(session.interactions()[0].threads, 0);
    assert_eq!(session.next_running_tui(None), None);
    assert_eq!(session.window_size(), (80, 25));
    session.set_window_size(100, 40);
    assert_eq!(session.window_size(), (100, 40));
}

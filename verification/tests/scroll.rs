use bite::locator::{ConversationLocator, InteractionLocator, ResponseLocator, SessionLocator};
use bite::screen::Screen;
use bite::scroll::{locate_down, locate_end, locate_up};
use bite::session::{OutputVisibility, Session};

fn two_conversations() -> Session {
    let mut session = Session::new(Screen::one_line_matrix(b"prompt 1"));
    let h = session.add_interaction(Screen::one_line_matrix(b"command 1.1"));
    session.add_bytes(OutputVisibility::Output, h, b"output 1.1.1\noutput 1.1.2\n");
    session.new_conversation(Screen::one_line_matrix(b"prompt 2"));
    let h = session.add_interaction(Screen::one_line_matrix(b"command 2.1"));
    session.add_bytes(OutputVisibility::Output, h, b"output 2.1.1\noutput 2.1.2\n");
    session
}

fn at(conversation: usize, k: usize, il: InteractionLocator) -> SessionLocator {
    SessionLocator { conversation, in_conversation: ConversationLocator::Interaction(k, il) }
}

#[test]
fn scroll_locate_end() {
    let session = two_conversations();
    assert_eq!(
        locate_end(&session, true),
        Some(SessionLocator { conversation: 1, in_conversation: ConversationLocator::Prompt(1) })
    );
    assert_eq!(
        locate_end(&session, false),
        Some(at(1, 0, InteractionLocator::Response(ResponseLocator::Lines(2))))
    );
}

#[test]
fn scroll_locate_up_through_parts() {
    let session = two_conversations();
    let end = locate_end(&session, false).unwrap();
    assert_eq!(locate_up(&session, &end, 0), Some(end));
    assert_eq!(
        locate_up(&session, &end, 1),
        Some(at(1, 0, InteractionLocator::Response(ResponseLocator::Lines(1))))
    );
    assert_eq!(locate_up(&session, &end, 3), Some(at(1, 0, InteractionLocator::Command(0))));
    // Past the command of the first interaction of the second conversation: the prompt of the
    // first conversation.
    assert_eq!(
        locate_up(&session, &end, 4),
        Some(SessionLocator { conversation: 0, in_conversation: ConversationLocator::Prompt(0) })
    );
    // Far up: stops at the top of the session.
    assert_eq!(locate_up(&session, &end, 100), Some(at(0, 0, InteractionLocator::Command(0))));
}

#[test]
fn scroll_locate_down_through_parts() {
    let session = two_conversations();
    let start = at(0, 0, InteractionLocator::Command(0));
    assert_eq!(
        locate_down(&session, &start, false, 1),
        Some(at(0, 0, InteractionLocator::Response(ResponseLocator::Lines(0))))
    );
    assert_eq!(
        locate_down(&session, &start, false, 2),
        Some(at(0, 0, InteractionLocator::Response(ResponseLocator::Lines(1))))
    );
    // The end of the lines is no line: the next one shown is the prompt.
    assert_eq!(
        locate_down(&session, &start, false, 3),
        Some(SessionLocator { conversation: 0, in_conversation: ConversationLocator::Prompt(0) })
    );
    // Past the end of the session without the last prompt.
    assert_eq!(locate_down(&session, &start, false, 100), None);
    let invalid = SessionLocator { conversation: 5, in_conversation: ConversationLocator::Prompt(0) };
    assert_eq!(locate_down(&session, &invalid, true, 1), None);
}

fn cells_text(cells: &[bite::screen::Cell]) -> String {
    cells.iter().map(|c| c.code_point()).collect()
}

/// Session:
/// [ 0, 15]     * command 1.1
/// [ 1, 14]         * output 1.1.1
/// [ 2, 13]         * output 1.1.2
/// [ 3, 12]     * command 1.2
/// [ 4, 11]         * output 1.2.1
/// [ 5, 10]         * output 1.2.2
/// [ 6,  9] * prompt 1
/// [ 7,  8]     * command 2.1
/// [ 8,  7]         * output 2.1.1
/// [ 9,  6]         * output 2.1.2
/// [10,  5]     * command 2.2
/// [11,  4]         * output 2.2.1
/// [12,  3]         * output 2.2.2
/// [13,  2] * prompt 2a
/// [14,  1]   prompt 2b
/// [--,  0]
#[test]
fn presenter_locator() {
    let mut session = Session::new(Screen::one_line_matrix(b"prompt 1"));

    let inter_1_1 = session.add_interaction(Screen::one_line_matrix(b"command 1.1"));
    session.add_bytes(OutputVisibility::Output, inter_1_1, b"output 1.1.1\noutput 1.1.2\n");
    let inter_1_2 = session.add_interaction(Screen::one_line_matrix(b"command 1.2"));
    session.add_bytes(OutputVisibility::Output, inter_1_2, b"output 1.2.1\noutput 1.2.2\n");

    session.new_conversation(Screen::one_line_matrix(b"prompt 2a\nprompt 2b"));
    let inter_2_1 = session.add_interaction(Screen::one_line_matrix(b"command 2.1"));
    session.add_bytes(OutputVisibility::Output, inter_2_1, b"output 2.1.1\noutput 2.1.2\n");
    let inter_2_2 = session.add_interaction(Screen::one_line_matrix(b"command 2.2"));
    session.add_bytes(OutputVisibility::Output, inter_2_2, b"output 2.2.1\noutput 2.2.2");

    let loc = locate_end(&session, true);
    assert_eq!(loc, Some(SessionLocator { conversation: 1, in_conversation: ConversationLocator::Prompt(2) }));

    let prompt = |conversation: usize, line: usize| SessionLocator {
        conversation,
        in_conversation: ConversationLocator::Prompt(line),
    };
    let bwd_gt: [(SessionLocator, &'static str); 15] = [
        (prompt(1, 1), "prompt 2b"),
        (prompt(1, 0), "prompt 2a"),
        (at(1, 1, InteractionLocator::Response(ResponseLocator::Screen(0))), "output 2.2.2"),
        (at(1, 1, InteractionLocator::Response(ResponseLocator::Lines(0))), "output 2.2.1"),
        (at(1, 1, InteractionLocator::Command(0)), "command 2.2"),
        (at(1, 0, InteractionLocator::Response(ResponseLocator::Lines(1))), "output 2.1.2"),
        (at(1, 0, InteractionLocator::Response(ResponseLocator::Lines(0))), "output 2.1.1"),
        (at(1, 0, InteractionLocator::Command(0)), "command 2.1"),
        (prompt(0, 0), "prompt 1"),
        (at(0, 1, InteractionLocator::Response(ResponseLocator::Lines(1))), "output 1.2.2"),
        (at(0, 1, InteractionLocator::Response(ResponseLocator::Lines(0))), "output 1.2.1"),
        (at(0, 1, InteractionLocator::Command(0)), "command 1.2"),
        (at(0, 0, InteractionLocator::Response(ResponseLocator::Lines(1))), "output 1.1.2"),
        (at(0, 0, InteractionLocator::Response(ResponseLocator::Lines(0))), "output 1.1.1"),
        (at(0, 0, InteractionLocator::Command(0)), "command 1.1"),
    ];

    for i in 0..bwd_gt.len() {
        let l = locate_up(&session, loc.as_ref().unwrap(), 1 + i);
        assert_eq!(l, Some(bwd_gt[i].0));
        assert_eq!(
            cells_text(&session.display_line(l.as_ref().unwrap()).expect("display_line should work").text),
            bwd_gt[i].1
        );
    }

    let fwd_loc = locate_up(&session, loc.as_ref().unwrap(), bwd_gt.len()).expect("going to the start should have worked");
    assert_eq!(fwd_loc, bwd_gt[bwd_gt.len() - 1].0);
    for i in 1..bwd_gt.len() {
        let l = locate_down(&session, &fwd_loc, true, i);
        assert_eq!(l, Some(bwd_gt[bwd_gt.len() - 1 - i].0));
        assert_eq!(
            cells_text(&session.display_line(l.as_ref().unwrap()).expect("display_line should work").text),
            bwd_gt[bwd_gt.len() - 1 - i].1
        );
    }

    let new_loc = locate_up(&session, loc.as_ref().unwrap(), 1000).expect("going to the start should have worked");
    assert_eq!(new_loc, bwd_gt[bwd_gt.len() - 1].0);
}

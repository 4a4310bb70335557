use bite::locator::{ConversationLocator, InteractionLocator, ResponseLocator, SessionLocator};

#[test]
fn dec_line_takes_what_it_can() {
    let mut loc = SessionLocator {
        conversation: 1,
        in_conversation: ConversationLocator::Interaction(2, InteractionLocator::Response(ResponseLocator::Lines(5))),
    };
    let mut lines = 3;
    loc.dec_line(&mut lines);
    assert_eq!(lines, 0);
    assert_eq!(loc.in_conversation, ConversationLocator::Interaction(2, InteractionLocator::Response(ResponseLocator::Lines(2))));
    assert!(!loc.is_start_line());

    let mut lines = 7;
    loc.dec_line(&mut lines);
    assert_eq!(lines, 5);
    assert!(loc.is_start_line());
    assert_eq!(loc.conversation, 1);
}

#[test]
fn dec_line_on_prompt() {
    let mut loc = SessionLocator { conversation: 0, in_conversation: ConversationLocator::Prompt(4) };
    let mut lines = 4;
    loc.dec_line(&mut lines);
    assert_eq!(lines, 0);
    assert_eq!(loc.in_conversation, ConversationLocator::Prompt(0));
    assert!(loc.is_start_line());
}

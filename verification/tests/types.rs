use bite::types::{Assignment, Command, CommandLogic, CommandReaction, ParsedCommand, Pipeline};

#[test]
fn sequence() {
    assert_eq!(
        ParsedCommand::new_sequence(
            vec![CommandLogic::new(vec![
                Pipeline::new(Command::new(vec![String::from("ab")])),
                Pipeline::new(Command::new(vec![String::from("bc")]))
            ])],
            Some(CommandReaction::Background)
        ),
        ParsedCommand::CommandSequence(vec![CommandLogic {
            pipelines: vec![
                Pipeline {
                    commands: vec![Command { words: vec![String::from("ab")] },],
                    reaction: CommandReaction::Normal,
                    invert: false
                },
                Pipeline {
                    commands: vec![Command { words: vec![String::from("bc")] },],
                    reaction: CommandReaction::Background,
                    invert: false
                }
            ],
        }]),
    );
}

#[test]
fn sequence_without_reaction_and_empty() {
    assert_eq!(ParsedCommand::new_sequence(vec![], Some(CommandReaction::And)), ParsedCommand::CommandSequence(vec![]));
    let p = ParsedCommand::new_sequence(vec![CommandLogic::new(vec![Pipeline::new(Command::new(vec![]))])], None);
    if let ParsedCommand::CommandSequence(v) = p {
        assert_eq!(v[0].pipelines[0].reaction, CommandReaction::Normal);
    } else {
        panic!("not a sequence");
    }
    let a = Assignment::new("x".to_string(), "1".to_string());
    assert_eq!(a.name, "x");
    assert_eq!(a.value, "1");
}

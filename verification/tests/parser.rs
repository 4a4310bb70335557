use bite::parser::{
    logical, pipeline, script, simple_command, BackgroundMode, Command, LogicalOperator, ParseError,
    ParsingResult, Pipeline, PipelineCommand, PipelineOperator, Span,
};

fn span(offset: usize, line: u32, fragment: &str) -> Span {
    Span { offset, line, fragment: fragment.to_string() }
}

fn program(words: Vec<Span>, operator: PipelineOperator) -> PipelineCommand {
    PipelineCommand { command: Command::Program(words), operator }
}

#[test]
fn parse_command_empty() {
    assert_eq!(script(&Span::new("\n")), Ok((span(1, 2, ""), ParsingResult::Nothing)));
    assert_eq!(script(&Span::new(" \n")), Ok((span(2, 2, ""), ParsingResult::Nothing)));
}

#[test]
fn parse_command_comment() {
    assert_eq!(
        script(&Span::new("# Stuff \n")),
        Ok((span(9, 2, ""), ParsingResult::Comment(span(2, 1, "Stuff "))))
    );
    assert_eq!(
        script(&Span::new(" # Stuff \n")),
        Ok((span(10, 2, ""), ParsingResult::Comment(span(3, 1, "Stuff "))))
    );
}

#[test]
fn parse_simple_command() {
    assert_eq!(
        simple_command(&Span::new("ab bc   cd \t\tde\n")),
        Ok((
            span(15, 1, "\n"),
            Command::Program(vec![span(0, 1, "ab"), span(3, 1, "bc"), span(8, 1, "cd"), span(13, 1, "de")])
        ))
    );
    assert_eq!(
        simple_command(&Span::new(" \tab bc   cd \t\tde\n")),
        Ok((
            span(17, 1, "\n"),
            Command::Program(vec![span(2, 1, "ab"), span(5, 1, "bc"), span(10, 1, "cd"), span(15, 1, "de")])
        ))
    );
    // A simple command ends at the end of the line
    assert_eq!(
        simple_command(&Span::new("ab cd\nef")),
        Ok((span(5, 1, "\nef"), Command::Program(vec![span(0, 1, "ab"), span(3, 1, "cd")])))
    );
    // A simple command with trailing spaces
    assert_eq!(
        simple_command(&Span::new("ab \n")),
        Ok((span(2, 1, " \n"), Command::Program(vec![span(0, 1, "ab")])))
    );
}

#[test]
fn parse_pipeline() {
    assert_eq!(
        pipeline(&Span::new("ab")),
        Ok((
            span(2, 1, ""),
            Pipeline {
                commands: vec![program(vec![span(0, 1, "ab")], PipelineOperator::Nothing)],
                operator: LogicalOperator::Nothing
            }
        ))
    );
    assert_eq!(
        pipeline(&Span::new("ab cd | de fg")),
        Ok((
            span(13, 1, ""),
            Pipeline {
                commands: vec![
                    program(vec![span(0, 1, "ab"), span(3, 1, "cd")], PipelineOperator::StdoutOnly),
                    program(vec![span(8, 1, "de"), span(11, 1, "fg")], PipelineOperator::Nothing),
                ],
                operator: LogicalOperator::Nothing
            }
        ))
    );
    assert_eq!(
        pipeline(&Span::new("ab cd |& de fg")),
        Ok((
            span(14, 1, ""),
            Pipeline {
                commands: vec![
                    program(vec![span(0, 1, "ab"), span(3, 1, "cd")], PipelineOperator::StderrAndStdout),
                    program(vec![span(9, 1, "de"), span(12, 1, "fg")], PipelineOperator::Nothing),
                ],
                operator: LogicalOperator::Nothing
            }
        ))
    );
}

fn two_pipelines(op: LogicalOperator, mode: BackgroundMode) -> ParsingResult {
    ParsingResult::Logical(
        vec![
            Pipeline {
                commands: vec![program(vec![span(0, 1, "ab"), span(3, 1, "cd")], PipelineOperator::Nothing)],
                operator: op,
            },
            Pipeline {
                commands: vec![program(vec![span(9, 1, "de"), span(12, 1, "fg")], PipelineOperator::Nothing)],
                operator: LogicalOperator::Nothing,
            },
        ],
        mode,
    )
}

#[test]
fn parse_logical() {
    assert_eq!(
        logical(&Span::new("ab cd && de fg\n")),
        Ok((span(15, 2, ""), two_pipelines(LogicalOperator::And, BackgroundMode::Foreground)))
    );
    assert_eq!(
        logical(&Span::new("ab cd || de fg\n")),
        Ok((span(15, 2, ""), two_pipelines(LogicalOperator::Or, BackgroundMode::Foreground)))
    );
    assert_eq!(
        logical(&Span::new("ab cd | de fg || gh ij | kl mn\n")),
        Ok((
            span(31, 2, ""),
            ParsingResult::Logical(
                vec![
                    Pipeline {
                        commands: vec![
                            program(vec![span(0, 1, "ab"), span(3, 1, "cd")], PipelineOperator::StdoutOnly),
                            program(vec![span(8, 1, "de"), span(11, 1, "fg")], PipelineOperator::Nothing),
                        ],
                        operator: LogicalOperator::Or
                    },
                    Pipeline {
                        commands: vec![
                            program(vec![span(17, 1, "gh"), span(20, 1, "ij")], PipelineOperator::StdoutOnly),
                            program(vec![span(25, 1, "kl"), span(28, 1, "mn")], PipelineOperator::Nothing),
                        ],
                        operator: LogicalOperator::Nothing
                    }
                ],
                BackgroundMode::Foreground
            )
        ))
    );
    assert_eq!(
        logical(&Span::new("ab cd && de fg;")),
        Ok((span(15, 1, ""), two_pipelines(LogicalOperator::And, BackgroundMode::Foreground)))
    );
    assert_eq!(
        logical(&Span::new("ab cd && de fg ;")),
        Ok((span(16, 1, ""), two_pipelines(LogicalOperator::And, BackgroundMode::Foreground)))
    );
    assert_eq!(
        logical(&Span::new("ab cd && de fg &")),
        Ok((span(16, 1, ""), two_pipelines(LogicalOperator::And, BackgroundMode::Background)))
    );
}

#[test]
fn parse_errors() {
    // A logical expression needs a terminator
    assert_eq!(logical(&Span::new("ab cd")), Err(ParseError));
    // A word cannot start with an operator
    assert_eq!(simple_command(&Span::new("| ab")), Err(ParseError));
    // A pipe needs a command after it
    assert_eq!(script(&Span::new("a | \n")), Err(ParseError));
    assert_eq!(script(&Span::new("")), Err(ParseError));
}

#[test]
fn parse_offsets_count_bytes_and_lines() {
    // Offsets are byte offsets; lines count the line breaks before a fragment
    let (rest, first) = script(&Span::new("ä\nöl x\n")).unwrap();
    assert_eq!(
        first,
        ParsingResult::Logical(
            vec![Pipeline {
                commands: vec![program(vec![span(0, 1, "ä")], PipelineOperator::Nothing)],
                operator: LogicalOperator::Nothing
            }],
            BackgroundMode::Foreground
        )
    );
    assert_eq!(rest, span(3, 2, "öl x\n"));
    let (rest2, second) = script(&rest).unwrap();
    assert_eq!(
        second,
        ParsingResult::Logical(
            vec![Pipeline {
                commands: vec![program(vec![span(3, 2, "öl"), span(7, 2, "x")], PipelineOperator::Nothing)],
                operator: LogicalOperator::Nothing
            }],
            BackgroundMode::Foreground
        )
    );
    assert_eq!(rest2, span(9, 3, ""));
}

#[test]
fn parse_crlf_line_ending() {
    assert_eq!(script(&Span::new(" \r\n")), Ok((span(3, 2, ""), ParsingResult::Nothing)));
}

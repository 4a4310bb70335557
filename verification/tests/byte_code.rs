use bite::builtins::{runner, Builtin};
use bite::byte_code::{compile, parse_script, Effect, Instruction, Instructions, Launchpad, RunnerState};
use bite::parser::{script, Span};

fn compile_full_script(text: &str) -> Instructions {
    let mut instructions = Vec::new();
    let mut input = Span::new(text);
    while input.fragment.len() != 0 {
        let ast = script(&input);
        assert_eq!(ast.is_ok(), true);
        if let Ok((rest, ast)) = ast {
            let compile_result = compile(&mut instructions, ast);
            assert_eq!(compile_result.is_ok(), true);
            input = rest;
        }
    }
    instructions
}

fn lit(s: &str) -> Instruction {
    Instruction::Lit(s.to_string())
}

#[test]
fn lit_and_finalize() {
    let mut lp = Launchpad::new();
    lp.lit("ten");
    lp.lit("nine");
    lp.lit("eight");

    assert_eq!(lp.marker(), 0);
    assert_eq!(*lp.args(), vec![vec!["ten", "nine", "eight"]]);

    lp.finalize_words();
    assert_eq!(lp.marker(), 1);
    assert_eq!(*lp.args(), vec![vec!["tennineeight"]]);
}

#[test]
fn compile_logical_foreground() {
    let instructions = compile_full_script("ab cd | ef gh ij || stuff\n");
    assert_eq!(
        instructions,
        vec![
            Instruction::Begin,
            lit("ab"),
            Instruction::Word,
            Instruction::SetProgram,
            lit("cd"),
            Instruction::Word,
            Instruction::Exec(false),
            lit("ef"),
            Instruction::Word,
            Instruction::SetProgram,
            lit("gh"),
            Instruction::Word,
            lit("ij"),
            Instruction::Word,
            Instruction::Exec(true),
            Instruction::ForegroundJob,
            Instruction::Success,
            Instruction::Not,
            Instruction::JumpIfNot(7),
            Instruction::Begin,
            lit("stuff"),
            Instruction::Word,
            Instruction::SetProgram,
            Instruction::Exec(true),
            Instruction::ForegroundJob,
        ]
    );
}

#[test]
fn compile_logical_background() {
    let instructions = compile_full_script("ab cd | ef gh ij || stuff & xy z\n");
    assert_eq!(
        instructions,
        vec![
            Instruction::BackgroundJob(26),
            Instruction::Begin,
            lit("ab"),
            Instruction::Word,
            Instruction::SetProgram,
            lit("cd"),
            Instruction::Word,
            Instruction::Exec(false),
            lit("ef"),
            Instruction::Word,
            Instruction::SetProgram,
            lit("gh"),
            Instruction::Word,
            lit("ij"),
            Instruction::Word,
            Instruction::Exec(true),
            Instruction::ForegroundJob,
            Instruction::Success,
            Instruction::Not,
            Instruction::JumpIfNot(7),
            Instruction::Begin,
            lit("stuff"),
            Instruction::Word,
            Instruction::SetProgram,
            Instruction::Exec(true),
            Instruction::ForegroundJob,
            Instruction::Begin,
            lit("xy"),
            Instruction::Word,
            Instruction::SetProgram,
            lit("z"),
            Instruction::Word,
            Instruction::Exec(true),
            Instruction::ForegroundJob,
        ]
    );
}

#[test]
fn compile_and_jumps_to_end() {
    let instructions = compile_full_script("a && b && c\n");
    // Both jumps lead past the last pipeline
    let end = instructions.len();
    for (i, ins) in instructions.iter().enumerate() {
        if let Instruction::JumpIfNot(d) = ins {
            assert_eq!(i + *d as usize, end);
        }
    }
    assert_eq!(instructions[7], Instruction::JumpIfNot(15));
}

#[test]
fn compile_comment_and_empty_line_add_nothing() {
    assert_eq!(compile_full_script("# nothing here\n\n"), Vec::<Instruction>::new());
}

#[test]
fn lit_after_finalize_starts_new_word() {
    let mut lp = Launchpad::new();
    lp.lit("a");
    lp.finalize_words();
    lp.lit("b");
    lp.lit("c");
    assert_eq!(lp.marker(), 1);
    assert_eq!(*lp.args(), vec![vec!["a"], vec!["b", "c"]]);
    lp.finalize_words();
    assert_eq!(*lp.args(), vec![vec!["a"], vec!["bc"]]);
    lp.clear();
    assert_eq!(lp.marker(), 0);
    assert_eq!(lp.args().len(), 0);
}

/// Run the decisions of the interpreter over the instructions, answering every foreground
/// job with the given exit status, and collect the effects.
fn run(instructions: &Instructions, status: i32) -> Vec<Effect> {
    let mut state = RunnerState::new();
    let mut has_pipeline = false;
    let mut effects = Vec::new();
    let mut ip = 0;
    let end = instructions.len();
    while ip < end {
        let (next, effect) = state.step(instructions, ip, 0, end, has_pipeline);
        match &effect {
            Effect::BeginPipeline => has_pipeline = true,
            Effect::ForegroundJob => {
                has_pipeline = false;
                state.set_last_exit_status(status);
            }
            _ => {}
        }
        effects.push(effect);
        ip = next;
    }
    effects
}

#[test]
fn step_runs_a_pipeline() {
    let instructions = compile_full_script("ab cd | ef\n");
    let effects = run(&instructions, 0);
    let interesting: Vec<&Effect> = effects.iter().filter(|e| **e != Effect::Nothing).collect();
    assert_eq!(
        interesting,
        vec![
            &Effect::BeginPipeline,
            &Effect::SetProgram("ab".to_string()),
            &Effect::Start(false, vec!["cd".to_string()]),
            &Effect::SetProgram("ef".to_string()),
            &Effect::Start(true, vec![]),
            &Effect::ForegroundJob,
        ]
    );
}

#[test]
fn step_or_skips_after_success() {
    let instructions = compile_full_script("a || b\n");
    // Success of the first pipeline skips the second
    let effects = run(&instructions, 0);
    assert_eq!(effects.iter().filter(|e| **e == Effect::BeginPipeline).count(), 1);
    // Failure runs the second
    let effects = run(&instructions, 1);
    assert_eq!(effects.iter().filter(|e| **e == Effect::BeginPipeline).count(), 2);
}

#[test]
fn step_and_skips_after_failure() {
    let instructions = compile_full_script("a && b\n");
    let effects = run(&instructions, 1);
    assert_eq!(effects.iter().filter(|e| **e == Effect::BeginPipeline).count(), 1);
    let effects = run(&instructions, 0);
    assert_eq!(effects.iter().filter(|e| **e == Effect::BeginPipeline).count(), 2);
}

#[test]
fn step_background_job_is_handed_out() {
    let instructions = compile_full_script("a &\n");
    let mut state = RunnerState::new();
    let (next, effect) = state.step(&instructions, 0, 0, instructions.len(), false);
    assert_eq!(effect, Effect::BackgroundJob(1, instructions.len()));
    assert_eq!(next, instructions.len());
}

#[test]
fn step_jump_out_of_range() {
    let instructions = vec![Instruction::JumpIfNot(-3)];
    let mut state = RunnerState::new();
    let (next, effect) = state.step(&instructions, 0, 0, 1, false);
    assert_eq!(effect, Effect::OutOfRange);
    assert_eq!(next, 1);
}

#[test]
fn step_without_pipeline() {
    let instructions = vec![lit("x"), Instruction::Word, Instruction::Exec(true)];
    let mut state = RunnerState::new();
    let (_, _) = state.step(&instructions, 0, 0, 3, false);
    let (_, _) = state.step(&instructions, 1, 0, 3, false);
    let (next, effect) = state.step(&instructions, 2, 0, 3, false);
    assert_eq!(effect, Effect::MissingPipeline);
    assert_eq!(next, 3);
}

#[test]
fn parse_script_compiles_every_command() {
    let text = "ab cd\n# note\n\nde && ef &\n".to_string();
    let instructions = parse_script(&text).unwrap();
    assert_eq!(instructions, compile_full_script(&text));
    assert_eq!(instructions.len(), 8 + 1 + 8 + 6);
}

#[test]
fn parse_script_of_nothing_is_empty() {
    assert_eq!(parse_script(&String::new()).unwrap(), Vec::new());
}

#[test]
fn parse_script_reports_where_it_failed() {
    let text = "ls\na | \nwc\n".to_string();
    assert_eq!(parse_script(&text), Err("Error: a | \nwc\n".to_string()));
}

#[test]
fn can_step_checks_range_and_program_name() {
    let state = RunnerState::new();
    let instructions = vec![Instruction::SetProgram, Instruction::Begin];
    assert!(!state.can_step(&instructions, 0, 3, true));
    assert!(!state.can_step(&instructions, 2, 2, true));
    assert!(!state.can_step(&instructions, 0, 2, true));
    assert!(state.can_step(&instructions, 0, 2, false));
    assert!(state.can_step(&instructions, 1, 2, true));
}

#[test]
fn builtin_runner_knows_cd() {
    assert_eq!(runner("cd"), Some(Builtin::ChangeDir));
    assert_eq!(runner("ls"), None);
    assert_eq!(runner("cdx"), None);
}

#[test]
fn step_jump_back_to_the_first_instruction() {
    let instructions = vec![Instruction::Success, Instruction::JumpIfNot(-1)];
    let mut state = RunnerState::new();
    assert!(state.can_step(&instructions, 1, 2, false));
    let (next, effect) = state.step(&instructions, 1, 0, 2, false);
    assert_eq!(effect, Effect::Nothing);
    assert_eq!(next, 0);
}

#[test]
fn step_jump_by_zero_stays() {
    let instructions = vec![Instruction::JumpIfNot(0)];
    let mut state = RunnerState::new();
    assert!(state.can_step(&instructions, 0, 1, false));
    let (next, effect) = state.step(&instructions, 0, 0, 1, false);
    assert_eq!(effect, Effect::Nothing);
    assert_eq!(next, 0);
}

#[test]
fn step_jump_forward_inside_and_below_the_range() {
    let instructions = vec![Instruction::JumpIfNot(2), Instruction::Not, Instruction::Not, Instruction::JumpIfNot(-3)];
    let mut state = RunnerState::new();
    let (next, effect) = state.step(&instructions, 0, 0, 4, false);
    assert_eq!((next, effect), (2, Effect::Nothing));
    let (next, effect) = state.step(&instructions, 3, 1, 4, false);
    assert_eq!((next, effect), (4, Effect::OutOfRange));
}

#[test]
fn job_exit_code_is_that_of_the_last_failure() {
    assert_eq!(bite::byte_code::job_exit_code(&vec![]), 0);
    assert_eq!(bite::byte_code::job_exit_code(&vec![Some(0), Some(0)]), 0);
    assert_eq!(bite::byte_code::job_exit_code(&vec![Some(2), Some(0)]), 2);
    assert_eq!(bite::byte_code::job_exit_code(&vec![Some(2), Some(3), None]), 3);
}

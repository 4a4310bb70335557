use bite::completions::{completion_text, lookup, ScriptSymbol};
use bite::completions::{
    command_update, file_completion_text, is_executable, perm, permission_text, simple_command_element_update,
    CompletionTarget, LookupState,
};

#[test]
fn completion_of_command_name() {
    let mut state = LookupState::begin();
    assert_eq!(state.end(), CompletionTarget::Nothing);
    assert!(simple_command_element_update(&mut state, 4, "l").is_empty());
    assert_eq!(state.end(), CompletionTarget::Nothing);
    assert!(command_update(&mut state, 4, "l").is_empty());
    assert_eq!(state.end(), CompletionTarget::Command(4));
}

#[test]
fn completion_of_argument() {
    let mut state = LookupState::begin();
    simple_command_element_update(&mut state, 7, "fi");
    simple_command_element_update(&mut state, 3, "ls");
    command_update(&mut state, 3, "ls");
    assert_eq!(state.end(), CompletionTarget::File(7));
}

#[test]
fn permissions_as_text() {
    assert_eq!(permission_text(0o755), "rwx r-x r-x");
    assert_eq!(permission_text(0o640), "rw- r-- ---");
    assert_eq!(perm('x', 0o100, 0o100), 'x');
    assert_eq!(perm('x', 0o000, 0o100), '-');
    assert!(is_executable(0o751));
    assert!(!is_executable(0o750));
}

#[test]
fn file_completion_texts() {
    assert_eq!(file_completion_text("./sr", "src", true), "./src/");
    assert_eq!(file_completion_text("Car", "Cargo.toml", false), "Cargo.toml");
    assert_eq!(file_completion_text(".", ".git", true), ".git/");
}

#[test]
fn completion_request_completes_a_command_at_the_start() {
    let (target, word) = bite::completions::completion_request("  ca");
    assert_eq!(target, bite::completions::CompletionTarget::Command(2));
    assert_eq!(word, "ca");
}

#[test]
fn completion_request_completes_a_file_after_the_command() {
    let (target, word) = bite::completions::completion_request("cat sr");
    assert_eq!(target, bite::completions::CompletionTarget::File(4));
    assert_eq!(word, "sr");
    let (target, word) = bite::completions::completion_request("ls ");
    assert_eq!(target, bite::completions::CompletionTarget::File(3));
    assert_eq!(word, "");
}

#[test]
fn symbols_complete_to_their_text() {
    assert_eq!(
        completion_text(ScriptSymbol::AndAnd),
        Some(("&&".to_string(), "if program on the left succeeds, run program on the right".to_string()))
    );
    assert_eq!(completion_text(ScriptSymbol::Ws), Some((" ".to_string(), "separate the items".to_string())));
    assert_eq!(completion_text(ScriptSymbol::Command), None);
    let mut state = LookupState::begin();
    assert_eq!(lookup(&mut state, ScriptSymbol::LessLess, 3, "<").len(), 1);
    assert_eq!(state.command_pos, None);
    assert!(lookup(&mut state, ScriptSymbol::Command, 2, "ls").is_empty());
    assert!(lookup(&mut state, ScriptSymbol::SimpleCommandElement, 5, "x").is_empty());
    assert_eq!(state.end(), bite::completions::CompletionTarget::File(5));
    assert!(lookup(&mut state, ScriptSymbol::Other, 0, "").is_empty());
}

#[test]
fn names_complete_words_they_start_with() {
    assert!(bite::completions::is_completion_of("cargo", "car"));
    assert!(bite::completions::is_completion_of("cargo", ""));
    assert!(!bite::completions::is_completion_of("cat", "car"));
    assert!(!bite::completions::is_completion_of("ca", "cat"));
}

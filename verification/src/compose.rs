//! Running the line that was composed: a line that parses is counted in the history and its
//! code is handed on to run; a line that does not parse is shown as a failed command.

use vstd::prelude::*;
use vstd::utf8::encode_utf8;
use crate::byte_code::{instrs_view, parse_outcome, parse_script, Instructions, ScriptOutcome};
use crate::history::{can_enter, entered, folder_commands, unique_folders, History};
use crate::parser::{count_nl, lemma_count_nl_concat, SpanView};
use crate::screen::{new_screen_view, sv_add_bytes, Screen};
use crate::session::{
    session_wf, with_added_bytes, with_new_interaction, with_status, with_visibility, InteractionHandle, OutputVisibility,
    RunningStatus, Session, SessionView,
};
use crate::strings::string_push;

verus! {

/// What became of an entered line.
pub enum LineOutcome {
    /// Nothing was typed.
    Empty,
    /// The line parsed: its code, and the script (the line with a line break) to run.
    Run(Instructions, String),
    /// The line did not parse: the interaction that shows why.
    Rejected(InteractionHandle),
}

/// The error message for a script that does not parse, `None` for one that does.
pub open spec fn parse_error_text(script: Seq<char>) -> Option<Seq<char>> {
    match parse_outcome(SpanView { offset: 0, line: 1, fragment: script }, 0) {
        ScriptOutcome::Code(_) => None,
        ScriptOutcome::ParseFailed(sp) => Some("Error: "@ + sp.fragment),
        ScriptOutcome::TooLong => Some("Error: script too long"@),
    }
}

/// The session after a line was rejected with `message`: a new interaction in the last
/// conversation, whose command is the line and whose error output is the message, that has
/// exited with status 1 and shows its errors.
pub open spec fn rejected_session(s: SessionView, line: Seq<char>, message: Seq<char>, h: InteractionHandle) -> SessionView {
    let command = sv_add_bytes(new_screen_view(), encode_utf8(line)).0.matrix;
    let s1 = with_new_interaction(s, s.conversations.len() - 1, command, h);
    let s2 = with_added_bytes(s1, OutputVisibility::Error, h, encode_utf8(message));
    with_visibility(with_status(s2, h, RunningStatus::Exited(1)), h, OutputVisibility::Error)
}

/// The commands that a folder has in the history, none for a folder without an entry.
pub open spec fn commands_in(v: Seq<(Seq<char>, Map<Seq<char>, u32>)>, folder: Seq<char>) -> Map<Seq<char>, u32> {
    match folder_commands(v, folder) {
        Some(m) => m,
        None => Map::empty(),
    }
}

/// What executing `line` in folder `cwd` did, from session `s0` and history `h0` to `s1`
/// and `h1` with outcome `r`: an empty line does nothing; a line that parses (with a line
/// break added) is handed back to be run and counted once more in the folder's history; a
/// line that does not parse becomes an interaction that shows the parse error.
pub open spec fn line_executed(
    s0: SessionView,
    h0: Seq<(Seq<char>, Map<Seq<char>, u32>)>,
    cwd: Seq<char>,
    line: Seq<char>,
    r: LineOutcome,
    s1: SessionView,
    h1: Seq<(Seq<char>, Map<Seq<char>, u32>)>,
) -> bool {
    &&& (line.len() == 0 ==> r is Empty && s1 == s0 && h1 == h0)
    &&& (line.len() > 0 ==> match parse_outcome(SpanView { offset: 0, line: 1, fragment: line.push('\n') }, 0) {
            ScriptOutcome::Code(c) => {
                &&& r matches LineOutcome::Run(v, script) && instrs_view(v@) == c && script@ == line.push('\n')
                &&& s1 == s0
                &&& folder_commands(h1, cwd) == Some(entered(commands_in(h0, cwd), line))
                &&& forall|f: Seq<char>| f != cwd ==> #[trigger] folder_commands(h1, f)
                    == folder_commands(h0, f)
            },
            _ => {
                &&& r matches LineOutcome::Rejected(h) && h.index() == s0.interactions.len()
                    && s1 == rejected_session(
                    s0,
                    line,
                    parse_error_text(line.push('\n'))->0,
                    h,
                )
                &&& h1 == h0
            },
        })
}

/// Execute the line that was entered in folder `cwd`. An empty line does nothing. A line that
/// parses (with a line break added) is counted once more in the history of the folder, and its
/// code is handed back to be run. A line that does not parse leaves the history alone and
/// becomes an interaction that shows the parse error.
pub fn execute_line(session: &mut Session, history: &mut History, cwd: &str, line: &str) -> (r: LineOutcome)
    requires
        session_wf(old(session)@),
        unique_folders(old(history)@),
        count_nl(line@) + 1 < u32::MAX,
        parse_error_text(line@.push('\n')) is None ==> can_enter(commands_in(old(history)@, cwd@), line@),
    ensures
        session_wf(final(session)@),
        unique_folders(final(history)@),
        line_executed(old(session)@, old(history)@, cwd@, line@, r, final(session)@, final(history)@),
{
    if line.is_empty() {
        return LineOutcome::Empty;
    }
    let mut line_with_nl = String::from_str(line);
    string_push(&mut line_with_nl, '\n');
    proof {
        lemma_count_nl_concat(line@, seq!['\n']);
        assert(seq!['\n'].drop_last() =~= Seq::<char>::empty());
        assert(count_nl(Seq::<char>::empty()) == 0);
        assert(count_nl(seq!['\n']) == 1);
        assert(line@ + seq!['\n'] =~= line@.push('\n'));
    }
    match parse_script(&line_with_nl) {
        Ok(instructions) => {
            history.enter(cwd, line);
            LineOutcome::Run(instructions, line_with_nl)
        },
        Err(msg) => {
            let h = session.add_interaction(Screen::one_line_matrix(line.as_bytes()));
            session.add_bytes(OutputVisibility::Error, h, msg.as_str().as_bytes());
            session.set_running_status(h, RunningStatus::Exited(1));
            session.set_visibility(h, OutputVisibility::Error);
            LineOutcome::Rejected(h)
        },
    }
}

} // verus!

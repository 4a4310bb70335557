//! The parts of completing a command line that decide: where the word to complete starts,
//! whether it names a program or a file, and how a file's permissions are shown.

use vstd::prelude::*;
use crate::strings::string_push;

verus! {

/// Keep track of the starting positions of elements to complete.
///
/// The syntax tree is processed bottom-up, so the simple command element to complete is seen
/// before the command that holds it. If both start at the same position, the command name is
/// being completed; otherwise an argument is.
pub struct LookupState {
    /// Starting position of the last simple command element.
    pub simple_command_element_pos: Option<usize>,
    /// Starting position of the last command.
    pub command_pos: Option<usize>,
}

/// The later of a tracked position and a new one.
pub open spec fn later_pos(p: Option<usize>, pos: usize) -> Option<usize> {
    match p {
        Some(x) => Some(if x >= pos { x } else { pos }),
        None => Some(pos),
    }
}

/// What is to be completed.
#[derive(Clone, Copy, Debug, PartialEq, Eq, Structural)]
pub enum CompletionTarget {
    /// Nothing can be completed.
    Nothing,
    /// The name of a program, starting at the position.
    Command(usize),
    /// The name of a file, starting at the position.
    File(usize),
}

/// What the tracked positions ask to complete: a program name where the element starts the
/// command, a file name where it does not.
pub open spec fn spec_target(s: LookupState) -> CompletionTarget {
    match (s.simple_command_element_pos, s.command_pos) {
        (Some(e), Some(c)) => if e == c {
            CompletionTarget::Command(e)
        } else {
            CompletionTarget::File(e)
        },
        _ => CompletionTarget::Nothing,
    }
}

impl LookupState {
    /// Begin tracking a new traversal of the syntax tree.
    pub fn begin() -> (s: Self)
        ensures
            s.simple_command_element_pos is None,
            s.command_pos is None,
    {
        LookupState { simple_command_element_pos: None, command_pos: None }
    }

    /// Complete the traversal: what is to be completed, and from where.
    pub fn end(&self) -> (t: CompletionTarget)
        ensures
            t == spec_target(*self),
    {
        match (self.simple_command_element_pos, self.command_pos) {
            (Some(e), Some(c)) => {
                if e == c {
                    CompletionTarget::Command(e)
                } else {
                    CompletionTarget::File(e)
                }
            },
            _ => CompletionTarget::Nothing,
        }
    }
}

/// A simple command element starts at `pos`: track the latest such start. Nothing is offered
/// for completion.
pub fn simple_command_element_update(state: &mut LookupState, pos: usize, _start: &str) -> (r: Vec<(String, String)>)
    ensures
        final(state).simple_command_element_pos == later_pos(old(state).simple_command_element_pos, pos),
        final(state).command_pos == old(state).command_pos,
        r@.len() == 0,
{
    state.simple_command_element_pos = match state.simple_command_element_pos {
        Some(x) => Some(if x >= pos { x } else { pos }),
        None => Some(pos),
    };
    Vec::new()
}

/// A command starts at `pos`: track the latest such start. Nothing is offered for completion.
pub fn command_update(state: &mut LookupState, pos: usize, _start: &str) -> (r: Vec<(String, String)>)
    ensures
        final(state).command_pos == later_pos(old(state).command_pos, pos),
        final(state).simple_command_element_pos == old(state).simple_command_element_pos,
        r@.len() == 0,
{
    state.command_pos = match state.command_pos {
        Some(x) => Some(if x >= pos { x } else { pos }),
        None => Some(pos),
    };
    Vec::new()
}

/// The text offered for a file that matches `word`: the path, with the `./` that the word
/// started with (matching drops it), and a slash after a directory.
pub open spec fn spec_file_completion_text(word: Seq<char>, path: Seq<char>, is_dir: bool) -> Seq<char> {
    (if word.len() >= 2 && word.take(2) == "./"@ {
        "./"@
    } else {
        Seq::empty()
    }) + path + if is_dir {
        "/"@
    } else {
        Seq::empty()
    }
}

/// The text offered for a file that matches `word`.
pub fn file_completion_text(word: &str, path: &str, is_dir: bool) -> (s: String)
    ensures
        s@ == spec_file_completion_text(word@, path@, is_dir),
{
    let mut s = String::new();
    let chars = crate::strings::chars_of(word);
    proof {
        reveal_strlit("./");
        reveal_strlit("/");
    }
    if chars.len() >= 2 && chars[0] == '.' && chars[1] == '/' {
        crate::strings::string_push_str(&mut s, "./");
        proof {
            assert(word@.take(2) =~= "./"@);
        }
    } else {
        proof {
            if word@.len() >= 2 && word@.take(2) == "./"@ {
                assert(word@.take(2)[0] == '.');
                assert(word@.take(2)[1] == '/');
            }
        }
    }
    crate::strings::string_push_str(&mut s, path);
    if is_dir {
        crate::strings::string_push_str(&mut s, "/");
    }
    proof {
        assert(s@ =~= spec_file_completion_text(word@, path@, is_dir));
    }
    s
}

/// A file mode lets everyone execute the file.
pub open spec fn spec_is_executable(mode: u32) -> bool {
    mode & 0o001 != 0
}

/// Check if a file mode has the execute bit for *others* set.
pub fn is_executable(mode: u32) -> (b: bool)
    ensures
        b == spec_is_executable(mode),
{
    (mode & 0o001) != 0
}

/// The character of a permission: `c` if the mode has it, else `-`.
pub open spec fn spec_perm(c: char, mode: u32, permission: u32) -> char {
    if mode & permission != 0 {
        c
    } else {
        '-'
    }
}

/// Return a permission character if the mode has the permission.
pub fn perm(c: char, mode: u32, permission: u32) -> (r: char)
    ensures
        r == spec_perm(c, mode, permission),
{
    if (mode & permission) != 0 {
        c
    } else {
        '-'
    }
}

/// The permissions of a file mode as `ls` shows them: read, write, execute for the owner, the
/// group and others, in three groups separated by blanks.
pub open spec fn spec_permission_text(mode: u32) -> Seq<char> {
    seq![
        spec_perm('r', mode, 0o400),
        spec_perm('w', mode, 0o200),
        spec_perm('x', mode, 0o100),
        ' ',
        spec_perm('r', mode, 0o040),
        spec_perm('w', mode, 0o020),
        spec_perm('x', mode, 0o010),
        ' ',
        spec_perm('r', mode, 0o004),
        spec_perm('w', mode, 0o002),
        spec_perm('x', mode, 0o001),
    ]
}

/// The permissions of a file mode as text.
pub fn permission_text(mode: u32) -> (s: String)
    ensures
        s@ == spec_permission_text(mode),
{
    let mut s = String::new();
    string_push(&mut s, perm('r', mode, 0o400));
    string_push(&mut s, perm('w', mode, 0o200));
    string_push(&mut s, perm('x', mode, 0o100));
    string_push(&mut s, ' ');
    string_push(&mut s, perm('r', mode, 0o040));
    string_push(&mut s, perm('w', mode, 0o020));
    string_push(&mut s, perm('x', mode, 0o010));
    string_push(&mut s, ' ');
    string_push(&mut s, perm('r', mode, 0o004));
    string_push(&mut s, perm('w', mode, 0o002));
    string_push(&mut s, perm('x', mode, 0o001));
    proof {
        assert(s@ =~= spec_permission_text(mode));
    }
    s
}

/// A blank separates the words of a command line.
pub open spec fn is_blank(c: char) -> bool {
    c == ' ' || c == '\t'
}

/// `k` is where the last word of `s` starts: right after the last blank, at 0 without one.
pub open spec fn is_word_start(s: Seq<char>, k: int) -> bool {
    &&& 0 <= k <= s.len()
    &&& k == 0 || is_blank(s[k - 1])
    &&& forall|j: int| k <= j < s.len() ==> !is_blank(#[trigger] s[j])
}

/// `c` is where the command of `s` starts: after the blanks it begins with.
pub open spec fn is_command_start(s: Seq<char>, c: int) -> bool {
    &&& 0 <= c <= s.len()
    &&& forall|j: int| 0 <= j < c ==> is_blank(#[trigger] s[j])
    &&& c < s.len() ==> !is_blank(s[c])
}

/// What to complete at the end of a command line, with the word to complete: the program name
/// where the last word is the first of the command, else a file name; positions count
/// characters.
pub fn completion_request(line: &str) -> (r: (CompletionTarget, String))
    ensures
        exists|k: int, c: int|
            is_word_start(line@, k) && is_command_start(line@, c) && r.1@ == line@.skip(k) && r.0 == (if k == c {
                CompletionTarget::Command(k as usize)
            } else {
                CompletionTarget::File(k as usize)
            }),
{
    let cs = crate::strings::chars_of(line);
    let n = cs.len();
    let mut k: usize = 0;
    let mut i: usize = 0;
    while i < n
        invariant
            n == cs@.len(),
            cs@ == line@,
            i <= n,
            k <= i,
            k == 0 || is_blank(cs@[k - 1]),
            forall|j: int| k <= j < i ==> !is_blank(#[trigger] cs@[j]),
        decreases n - i,
    {
        if cs[i] == ' ' || cs[i] == '\t' {
            k = i + 1;
        }
        i = i + 1;
    }
    let mut c: usize = 0;
    while c < n && (cs[c] == ' ' || cs[c] == '\t')
        invariant
            n == cs@.len(),
            c <= n,
            forall|j: int| 0 <= j < c ==> is_blank(#[trigger] cs@[j]),
        decreases n - c,
    {
        c = c + 1;
    }
    let mut state = LookupState::begin();
    let _ = simple_command_element_update(&mut state, k, "");
    let _ = command_update(&mut state, c, "");
    let word = crate::strings::string_from_chars(vstd::slice::slice_subrange(cs.as_slice(), k, n));
    proof {
        assert(word@ =~= line@.skip(k as int));
        assert(is_word_start(line@, k as int));
        assert(is_command_start(line@, c as int));
    }
    (state.end(), word)
}

/// The symbols of the script grammar that completion knows about; `Other` stands for the rest.
#[derive(Clone, Copy, Debug, PartialEq, Eq, Structural)]
pub enum ScriptSymbol {
    For,
    Function,
    AndGreaterGreater,
    AndGreater,
    GreaterAnd,
    LessAnd,
    LessLessLess,
    LessLessMinus,
    LessLess,
    LessGreater,
    GreaterBar,
    GreaterGreater,
    LogicalSepBg,
    LogicalSepFg,
    OrOr,
    AndAnd,
    BarAnd,
    Ws,
    SimpleCommandElement,
    Command,
    Other,
}

/// The fixed text that completes a symbol, with its help text; `None` for the symbols whose
/// completion is computed, and for those without one.
pub open spec fn spec_completion(sym: ScriptSymbol) -> Option<(Seq<char>, Seq<char>)> {
    match sym {
        ScriptSymbol::For => Some(("for"@, "begin a for loop"@)),
        ScriptSymbol::Function => Some(("function"@, "declare a function"@)),
        ScriptSymbol::AndGreaterGreater => Some(("&>>"@, "append output and error to file"@)),
        ScriptSymbol::AndGreater => Some(("&>"@, "redirect output and error to file, preferred form"@)),
        ScriptSymbol::GreaterAnd => Some((">&"@, "redirect output and error to file, obsolete form"@)),
        ScriptSymbol::LessAnd => Some(("<&"@, "duplicate file descriptor"@)),
        ScriptSymbol::LessLessLess => Some(("<<<"@, "send a \x1b[3mhere\x1b[23m string to input"@)),
        ScriptSymbol::LessLessMinus => Some(("<<-"@, "begin a \x1b[3mhere\x1b[23m document, remove tabs"@)),
        ScriptSymbol::LessLess => Some(("<<"@, "begin a \x1b[3mhere\x1b[23m document"@)),
        ScriptSymbol::LessGreater => Some(("<>"@, "open file for reading and writing"@)),
        ScriptSymbol::GreaterBar => Some((">|"@, "redirect output, overwrite file"@)),
        ScriptSymbol::GreaterGreater => Some((">>"@, "append output to file"@)),
        ScriptSymbol::LogicalSepBg => Some(("&"@, "start program on the left in background"@)),
        ScriptSymbol::LogicalSepFg => Some((";"@, "start program on the left in foreground"@)),
        ScriptSymbol::OrOr => Some(("||"@, "if program on the left fails, run program on the right"@)),
        ScriptSymbol::AndAnd => Some(("&&"@, "if program on the left succeeds, run program on the right"@)),
        ScriptSymbol::BarAnd => Some(("|&"@, "pipe output and error of program on the left to the right"@)),
        ScriptSymbol::Ws => Some((" "@, "separate the items"@)),
        _ => None,
    }
}

/// The symbol of the script grammar that text `t` is, character by character, where it is a
/// keyword, an operator or a blank of the grammar: "for", "function", the redirection
/// operators, the separators, the logical operators and the pipe of output and error.
pub open spec fn token_symbol(t: Seq<char>) -> Option<ScriptSymbol> {
    if t.len() == 3 && t[0] == 'f' && t[1] == 'o' && t[2] == 'r' {
        Some(ScriptSymbol::For)
    } else if t.len() == 8 && t[0] == 'f' && t[1] == 'u' && t[2] == 'n' && t[3] == 'c' && t[4] == 't' && t[5] == 'i' && t[6] == 'o' && t[7] == 'n' {
        Some(ScriptSymbol::Function)
    } else if t.len() == 3 && t[0] == '&' && t[1] == '>' && t[2] == '>' {
        Some(ScriptSymbol::AndGreaterGreater)
    } else if t.len() == 2 && t[0] == '&' && t[1] == '>' {
        Some(ScriptSymbol::AndGreater)
    } else if t.len() == 2 && t[0] == '>' && t[1] == '&' {
        Some(ScriptSymbol::GreaterAnd)
    } else if t.len() == 2 && t[0] == '<' && t[1] == '&' {
        Some(ScriptSymbol::LessAnd)
    } else if t.len() == 3 && t[0] == '<' && t[1] == '<' && t[2] == '<' {
        Some(ScriptSymbol::LessLessLess)
    } else if t.len() == 3 && t[0] == '<' && t[1] == '<' && t[2] == '-' {
        Some(ScriptSymbol::LessLessMinus)
    } else if t.len() == 2 && t[0] == '<' && t[1] == '<' {
        Some(ScriptSymbol::LessLess)
    } else if t.len() == 2 && t[0] == '<' && t[1] == '>' {
        Some(ScriptSymbol::LessGreater)
    } else if t.len() == 2 && t[0] == '>' && t[1] == '|' {
        Some(ScriptSymbol::GreaterBar)
    } else if t.len() == 2 && t[0] == '>' && t[1] == '>' {
        Some(ScriptSymbol::GreaterGreater)
    } else if t.len() == 1 && t[0] == '&' {
        Some(ScriptSymbol::LogicalSepBg)
    } else if t.len() == 1 && t[0] == ';' {
        Some(ScriptSymbol::LogicalSepFg)
    } else if t.len() == 2 && t[0] == '|' && t[1] == '|' {
        Some(ScriptSymbol::OrOr)
    } else if t.len() == 2 && t[0] == '&' && t[1] == '&' {
        Some(ScriptSymbol::AndAnd)
    } else if t.len() == 2 && t[0] == '|' && t[1] == '&' {
        Some(ScriptSymbol::BarAnd)
    } else if t.len() == 1 && t[0] == ' ' {
        Some(ScriptSymbol::Ws)
    } else {
        None
    }
}

/// A symbol's fixed completion is the symbol's own text: read by the grammar, the completed
/// text is that symbol again. The symbols whose completion is computed have no fixed text.
pub proof fn law_completion_text_is_the_symbol(sym: ScriptSymbol)
    ensures
        spec_completion(sym) matches Some((t, _h)) ==> token_symbol(t) == Some(sym),
        spec_completion(sym) is None <==> (sym == ScriptSymbol::SimpleCommandElement || sym == ScriptSymbol::Command
            || sym == ScriptSymbol::Other),
{
    reveal_strlit("for");
    reveal_strlit("function");
    reveal_strlit("&>>");
    reveal_strlit("&>");
    reveal_strlit(">&");
    reveal_strlit("<&");
    reveal_strlit("<<<");
    reveal_strlit("<<-");
    reveal_strlit("<<");
    reveal_strlit("<>");
    reveal_strlit(">|");
    reveal_strlit(">>");
    reveal_strlit("&");
    reveal_strlit(";");
    reveal_strlit("||");
    reveal_strlit("&&");
    reveal_strlit("|&");
    reveal_strlit(" ");
}

/// Two strings as a pair.
fn text_pair(a: &str, b: &str) -> (p: (String, String))
    ensures
        p.0@ == a@,
        p.1@ == b@,
{
    (String::from_str(a), String::from_str(b))
}

/// The fixed completion of a symbol, with its help text.
pub fn completion_text(sym: ScriptSymbol) -> (r: Option<(String, String)>)
    ensures
        match r {
            Some(p) => spec_completion(sym) == Some((p.0@, p.1@)),
            None => spec_completion(sym) is None,
        },
{
    match sym {
        ScriptSymbol::For => Some(text_pair("for", "begin a for loop")),
        ScriptSymbol::Function => Some(text_pair("function", "declare a function")),
        ScriptSymbol::AndGreaterGreater => Some(text_pair("&>>", "append output and error to file")),
        ScriptSymbol::AndGreater => Some(text_pair("&>", "redirect output and error to file, preferred form")),
        ScriptSymbol::GreaterAnd => Some(text_pair(">&", "redirect output and error to file, obsolete form")),
        ScriptSymbol::LessAnd => Some(text_pair("<&", "duplicate file descriptor")),
        ScriptSymbol::LessLessLess => Some(text_pair("<<<", "send a \x1b[3mhere\x1b[23m string to input")),
        ScriptSymbol::LessLessMinus => Some(text_pair("<<-", "begin a \x1b[3mhere\x1b[23m document, remove tabs")),
        ScriptSymbol::LessLess => Some(text_pair("<<", "begin a \x1b[3mhere\x1b[23m document")),
        ScriptSymbol::LessGreater => Some(text_pair("<>", "open file for reading and writing")),
        ScriptSymbol::GreaterBar => Some(text_pair(">|", "redirect output, overwrite file")),
        ScriptSymbol::GreaterGreater => Some(text_pair(">>", "append output to file")),
        ScriptSymbol::LogicalSepBg => Some(text_pair("&", "start program on the left in background")),
        ScriptSymbol::LogicalSepFg => Some(text_pair(";", "start program on the left in foreground")),
        ScriptSymbol::OrOr => Some(text_pair("||", "if program on the left fails, run program on the right")),
        ScriptSymbol::AndAnd => Some(text_pair("&&", "if program on the left succeeds, run program on the right")),
        ScriptSymbol::BarAnd => Some(text_pair("|&", "pipe output and error of program on the left to the right")),
        ScriptSymbol::Ws => Some(text_pair(" ", "separate the items")),
        _ => None,
    }
}

/// The completions of a symbol that starts at `pos` with the text `start`: its fixed text, or,
/// for a simple command element or a command, none but a note of where it starts in `state`.
pub fn lookup(state: &mut LookupState, sym: ScriptSymbol, pos: usize, start: &str) -> (r: Vec<(String, String)>)
    ensures
        sym == ScriptSymbol::SimpleCommandElement ==> final(state).simple_command_element_pos == later_pos(
            old(state).simple_command_element_pos,
            pos,
        ) && final(state).command_pos == old(state).command_pos && r@.len() == 0,
        sym == ScriptSymbol::Command ==> final(state).command_pos == later_pos(old(state).command_pos, pos)
            && final(state).simple_command_element_pos == old(state).simple_command_element_pos && r@.len() == 0,
        sym != ScriptSymbol::SimpleCommandElement && sym != ScriptSymbol::Command ==> *final(state) == *old(state)
            && match spec_completion(sym) {
            Some(p) => r@.len() == 1 && (r@[0].0@, r@[0].1@) == p,
            None => r@.len() == 0,
        },
{
    match sym {
        ScriptSymbol::SimpleCommandElement => simple_command_element_update(state, pos, start),
        ScriptSymbol::Command => command_update(state, pos, start),
        _ => {
            let mut res = Vec::new();
            match completion_text(sym) {
                Some(p) => res.push(p),
                None => {},
            }
            res
        },
    }
}

/// A name completes a word when it starts with it.
pub fn is_completion_of(name: &str, word: &str) -> (b: bool)
    ensures
        b == word@.is_prefix_of(name@),
{
    let n = crate::strings::chars_of(name);
    let w = crate::strings::chars_of(word);
    if w.len() > n.len() {
        return false;
    }
    let mut i: usize = 0;
    while i < w.len()
        invariant
            n@ == name@,
            w@ == word@,
            w@.len() <= n@.len(),
            i <= w@.len(),
            forall|j: int| 0 <= j < i ==> w@[j] == n@[j],
        decreases w@.len() - i,
    {
        if w[i] != n[i] {
            return false;
        }
        i = i + 1;
    }
    true
}

} // verus!

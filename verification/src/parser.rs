//! Bash script parser.
//!
//! The grammar is stated by spec functions over the characters of the input; the parsers are
//! proved to give exactly the result of the grammar. Positions of the results are kept as
//! spans: the byte offset and the line (counted from 1) where a fragment starts.

use vstd::prelude::*;
use vstd::utf8::*;
use crate::strings::{char_len_utf8, chars_of, string_from_chars};
use crate::utf8_text::{lemma_encode_split, byte_offset, char_width, lemma_byte_offset_bounds, lemma_byte_offset_step, lemma_char_width_bounds};

verus! {

/// A fragment of the input, with the byte offset and the line where it starts.
#[derive(Debug, PartialEq, Eq)]
pub struct Span {
    pub offset: usize,
    pub line: u32,
    pub fragment: String,
}

/// A span as a value.
pub struct SpanView {
    pub offset: int,
    pub line: int,
    pub fragment: Seq<char>,
}

impl View for Span {
    type V = SpanView;

    open spec fn view(&self) -> SpanView {
        SpanView { offset: self.offset as int, line: self.line as int, fragment: self.fragment@ }
    }
}

impl Span {
    /// The whole text, starting at offset 0 in line 1.
    pub fn new(text: &str) -> (s: Self)
        ensures
            s@ == (SpanView { offset: 0, line: 1, fragment: text@ }),
    {
        Span { offset: 0, line: 1, fragment: text.to_owned() }
    }
}

/// The number of line breaks in `s`.
pub open spec fn count_nl(s: Seq<char>) -> int
    decreases s.len(),
{
    if s.len() == 0 {
        0
    } else {
        count_nl(s.drop_last()) + if s.last() == '\n' {
            1int
        } else {
            0int
        }
    }
}

/// The part of span `sp` from character `i` up to character `j`.
pub open spec fn sub_span(sp: SpanView, i: int, j: int) -> SpanView {
    SpanView {
        offset: sp.offset + byte_offset(sp.fragment, i),
        line: sp.line + count_nl(sp.fragment.take(i)),
        fragment: sp.fragment.subrange(i, j),
    }
}

/// Offsets and line numbers inside the span fit their types.
pub open spec fn span_fits(sp: SpanView) -> bool {
    &&& sp.offset + encode_utf8(sp.fragment).len() <= usize::MAX
    &&& sp.line + count_nl(sp.fragment) <= u32::MAX
    &&& 0 <= sp.line
}

/// How to react on the failure of a command.
#[derive(Clone, Copy, Debug, PartialEq, Eq, Structural)]
pub enum LogicalOperator {
    /// Default value, only to be set for the last pipeline of a logical expression
    Nothing,
    /// Short-cut AND
    And,
    /// Short-cut OR
    Or,
}

/// What to do with a logical expression.
#[derive(Clone, Copy, Debug, PartialEq, Eq, Structural)]
pub enum BackgroundMode {
    /// Execute asynchronously
    Background,
    /// Wait for completion
    Foreground,
}

/// How to connect commands in a pipeline.
#[derive(Clone, Copy, Debug, PartialEq, Eq, Structural)]
pub enum PipelineOperator {
    Nothing,
    StdoutOnly,
    StderrAndStdout,
}

/// Command the shell can handle.
#[derive(Debug, PartialEq, Eq)]
pub enum Command {
    /// Call a program
    Program(Vec<Span>),
}

/// A command in a pipeline, and how it connects to the next one.
#[derive(Debug, PartialEq, Eq)]
pub struct PipelineCommand {
    pub command: Command,
    pub operator: PipelineOperator,
}

/// Commands connected by pipes, and how the pipeline connects to the next one.
#[derive(Debug, PartialEq, Eq)]
pub struct Pipeline {
    pub commands: Vec<PipelineCommand>,
    pub operator: LogicalOperator,
}

/// The result of the parse.
#[derive(Debug, PartialEq, Eq)]
pub enum ParsingResult {
    /// Nothing to do, e.g. an empty line.
    Nothing,
    /// A comment. It ends in this line. The span does not include the comment leader.
    Comment(Span),
    /// One or more external programs that depend on each other's exit code.
    Logical(Vec<Pipeline>, BackgroundMode),
}

/// The parse of a script is its syntax tree.
pub type AbstractSyntaxTree = ParsingResult;

/// The input does not follow the grammar.
#[derive(Debug, PartialEq, Eq)]
pub struct ParseError;

/// A pipeline command as a value: the words of the program and the operator after it.
pub struct PipelineCommandView {
    pub words: Seq<SpanView>,
    pub operator: PipelineOperator,
}

/// A pipeline as a value.
pub struct PipelineView {
    pub commands: Seq<PipelineCommandView>,
    pub operator: LogicalOperator,
}

/// A parse result as a value.
pub enum ParsingResultView {
    Nothing,
    Comment(SpanView),
    Logical(Seq<PipelineView>, BackgroundMode),
}

pub open spec fn spans_view(v: Seq<Span>) -> Seq<SpanView> {
    v.map_values(|s: Span| s@)
}

impl View for PipelineCommand {
    type V = PipelineCommandView;

    open spec fn view(&self) -> PipelineCommandView {
        PipelineCommandView {
            words: match self.command {
                Command::Program(w) => spans_view(w@),
            },
            operator: self.operator,
        }
    }
}

pub open spec fn commands_view(v: Seq<PipelineCommand>) -> Seq<PipelineCommandView> {
    v.map_values(|c: PipelineCommand| c@)
}

impl View for Pipeline {
    type V = PipelineView;

    open spec fn view(&self) -> PipelineView {
        PipelineView { commands: commands_view(self.commands@), operator: self.operator }
    }
}

pub open spec fn pipelines_view(v: Seq<Pipeline>) -> Seq<PipelineView> {
    v.map_values(|p: Pipeline| p@)
}

impl View for ParsingResult {
    type V = ParsingResultView;

    open spec fn view(&self) -> ParsingResultView {
        match self {
            ParsingResult::Nothing => ParsingResultView::Nothing,
            ParsingResult::Comment(s) => ParsingResultView::Comment(s@),
            ParsingResult::Logical(p, m) => ParsingResultView::Logical(pipelines_view(p@), *m),
        }
    }
}

// The grammar. Positions are character indices into the fragment of the input span.

/// A blank: space or tab.
pub open spec fn is_blank(c: char) -> bool {
    c == ' ' || c == '\t'
}

/// A character that can be part of a word.
pub open spec fn is_word_letter(c: char) -> bool {
    !(c == ' ' || c == '\n' || c == '\t' || c == '"' || c == '\'' || c == '|' || c == '&' || c == ';'
        || c == '(' || c == ')' || c == '<' || c == '>')
}

/// The end of the blanks from `i` on.
pub open spec fn sp_space0(t: Seq<char>, i: int) -> int
    decreases t.len() - i,
{
    if 0 <= i < t.len() && is_blank(t[i]) {
        sp_space0(t, i + 1)
    } else {
        i
    }
}

/// The end of a line break at `i`: `\n` or `\r\n`.
pub open spec fn sp_line_ending(t: Seq<char>, i: int) -> Option<int> {
    if 0 <= i < t.len() && t[i] == '\n' {
        Some(i + 1)
    } else if 0 <= i && i + 1 < t.len() && t[i] == '\r' && t[i + 1] == '\n' {
        Some(i + 2)
    } else {
        None
    }
}

/// The end of the word letters from `i` on.
pub open spec fn sp_word_end(t: Seq<char>, i: int) -> int
    decreases t.len() - i,
{
    if 0 <= i < t.len() && is_word_letter(t[i]) {
        sp_word_end(t, i + 1)
    } else {
        i
    }
}

/// The end of a word at `i`: one or more word letters.
pub open spec fn sp_word(t: Seq<char>, i: int) -> Option<int> {
    if 0 <= i < t.len() && is_word_letter(t[i]) {
        Some(sp_word_end(t, i))
    } else {
        None
    }
}

/// The first line break or carriage return from `i` on, or the end.
pub open spec fn sp_line_stop(t: Seq<char>, i: int) -> int
    decreases t.len() - i,
{
    if 0 <= i < t.len() && t[i] != '\n' && t[i] != '\r' {
        sp_line_stop(t, i + 1)
    } else {
        i
    }
}

/// The end of the text of a line from `i` on: up to a line break; a carriage return that
/// does not start a line break is an error.
pub open spec fn sp_not_line_ending(t: Seq<char>, i: int) -> Option<int> {
    let k = sp_line_stop(t, i);
    if k < t.len() && t[k] == '\r' && !(k + 1 < t.len() && t[k + 1] == '\n') {
        None
    } else {
        Some(k)
    }
}

pub proof fn lemma_space0(t: Seq<char>, i: int)
    requires
        0 <= i,
    ensures
        i <= sp_space0(t, i),
        i <= t.len() ==> sp_space0(t, i) <= t.len(),
        forall|k: int| i <= k < sp_space0(t, i) ==> is_blank(#[trigger] t[k]),
        sp_space0(t, i) < t.len() ==> !is_blank(t[sp_space0(t, i)]),
    decreases t.len() - i,
{
    if 0 <= i < t.len() && is_blank(t[i]) {
        lemma_space0(t, i + 1);
    }
}

pub proof fn lemma_word_end(t: Seq<char>, i: int)
    requires
        0 <= i,
    ensures
        i <= sp_word_end(t, i),
        i <= t.len() ==> sp_word_end(t, i) <= t.len(),
        forall|k: int| i <= k < sp_word_end(t, i) ==> is_word_letter(#[trigger] t[k]),
        sp_word_end(t, i) < t.len() ==> !is_word_letter(t[sp_word_end(t, i)]),
    decreases t.len() - i,
{
    if 0 <= i < t.len() && is_word_letter(t[i]) {
        lemma_word_end(t, i + 1);
    }
}

pub proof fn lemma_line_stop(t: Seq<char>, i: int)
    requires
        0 <= i,
    ensures
        i <= sp_line_stop(t, i),
        i <= t.len() ==> sp_line_stop(t, i) <= t.len(),
        sp_line_stop(t, i) < t.len() ==> (t[sp_line_stop(t, i)] == '\n' || t[sp_line_stop(t, i)] == '\r'),
    decreases t.len() - i,
{
    if 0 <= i < t.len() && t[i] != '\n' && t[i] != '\r' {
        lemma_line_stop(t, i + 1);
    }
}

/// The words after the first word of a simple command from `q` on, each after blanks, and
/// where the list ends.
pub open spec fn sp_more_words(t: Seq<char>, q: int) -> (Seq<(int, int)>, int)
    decreases t.len() - q,
{
    if 0 <= q < t.len() && is_blank(t[q]) {
        let s = sp_space0(t, q);
        match sp_word(t, s) {
            Some(e) => {
                proof {
                    lemma_space0(t, q);
                    lemma_word_end(t, s);
                }
                let (ws, end) = sp_more_words(t, e);
                (seq![(s, e)] + ws, end)
            },
            None => (Seq::empty(), q),
        }
    } else {
        (Seq::empty(), q)
    }
}

/// A simple command from `i`: blanks, then words separated by blanks. The words as
/// positions, and the end.
pub open spec fn sp_simple_command(t: Seq<char>, i: int) -> Option<(Seq<(int, int)>, int)> {
    let p = sp_space0(t, i);
    match sp_word(t, p) {
        Some(e) => {
            let (ws, end) = sp_more_words(t, e);
            Some((seq![(p, e)] + ws, end))
        },
        None => None,
    }
}

/// A pipeline operator from `i`: blanks, then `|&` or `|`.
pub open spec fn sp_pipe_op(t: Seq<char>, i: int) -> Option<(PipelineOperator, int)> {
    let p = sp_space0(t, i);
    if 0 <= p && p + 1 < t.len() && t[p] == '|' && t[p + 1] == '&' {
        Some((PipelineOperator::StderrAndStdout, p + 2))
    } else if 0 <= p < t.len() && t[p] == '|' {
        Some((PipelineOperator::StdoutOnly, p + 1))
    } else {
        None
    }
}

pub proof fn lemma_pipe_op(t: Seq<char>, q: int)
    ensures
        sp_pipe_op(t, q) matches Some((o, q1)) ==> 0 <= q < q1 <= t.len(),
{
    if 0 <= q {
        lemma_space0(t, q);
    }
}

pub proof fn lemma_simple_command(t: Seq<char>, i: int)
    requires
        0 <= i <= t.len(),
    ensures
        sp_simple_command(t, i) matches Some((ws, end)) ==> i < end <= t.len(),
{
    lemma_space0(t, i);
    let p = sp_space0(t, i);
    if let Some(e) = sp_word(t, p) {
        lemma_word_end(t, p);
        lemma_more_words(t, e);
    }
}

pub proof fn lemma_more_words(t: Seq<char>, q: int)
    requires
        0 <= q,
    ensures
        q <= sp_more_words(t, q).1,
        q <= t.len() ==> sp_more_words(t, q).1 <= t.len(),
    decreases t.len() - q,
{
    if 0 <= q < t.len() && is_blank(t[q]) {
        let s = sp_space0(t, q);
        lemma_space0(t, q);
        if let Some(e) = sp_word(t, s) {
            lemma_word_end(t, s);
            lemma_more_words(t, e);
        }
    }
}

/// The commands after the first command of a pipeline from `q` on, each with the operator in
/// front of it, and where the list ends.
pub open spec fn sp_more_commands(t: Seq<char>, q: int) -> (Seq<(PipelineOperator, Seq<(int, int)>)>, int)
    decreases t.len() - q,
{
    match sp_pipe_op(t, q) {
        Some((o, q1)) => match sp_simple_command(t, q1) {
            Some((ws, q2)) => {
                proof {
                    lemma_pipe_op(t, q);
                    lemma_simple_command(t, q1);
                }
                let (rest, end) = sp_more_commands(t, q2);
                (seq![(o, ws)] + rest, end)
            },
            None => (Seq::empty(), q),
        },
        None => (Seq::empty(), q),
    }
}


/// Commands with the operator in front of each, turned into commands with the operator
/// after each: a command takes the operator in front of the next one, the last takes none.
pub open spec fn fix_commands(first: Seq<(int, int)>, rest: Seq<(PipelineOperator, Seq<(int, int)>)>) -> Seq<(Seq<(int, int)>, PipelineOperator)> {
    Seq::new(
        rest.len() + 1,
        |k: int|
            (
                if k == 0 {
                    first
                } else {
                    rest[k - 1].1
                },
                if k < rest.len() {
                    rest[k].0
                } else {
                    PipelineOperator::Nothing
                },
            ),
    )
}

/// A pipeline from `i`: blanks, then commands separated by pipeline operators.
pub open spec fn sp_pipeline(t: Seq<char>, i: int) -> Option<(Seq<(Seq<(int, int)>, PipelineOperator)>, int)> {
    let p = sp_space0(t, i);
    match sp_simple_command(t, p) {
        Some((ws, q)) => {
            let (rest, end) = sp_more_commands(t, q);
            Some((fix_commands(ws, rest), end))
        },
        None => None,
    }
}

/// A logical operator from `i`: blanks, then `&&` or `||`.
pub open spec fn sp_logic_op(t: Seq<char>, i: int) -> Option<(LogicalOperator, int)> {
    let p = sp_space0(t, i);
    if 0 <= p && p + 1 < t.len() && t[p] == '&' && t[p + 1] == '&' {
        Some((LogicalOperator::And, p + 2))
    } else if 0 <= p && p + 1 < t.len() && t[p] == '|' && t[p + 1] == '|' {
        Some((LogicalOperator::Or, p + 2))
    } else {
        None
    }
}

pub proof fn lemma_logic_op(t: Seq<char>, q: int)
    ensures
        sp_logic_op(t, q) matches Some((o, q1)) ==> 0 <= q < q1 <= t.len(),
{
    if 0 <= q {
        lemma_space0(t, q);
    }
}

pub proof fn lemma_more_commands(t: Seq<char>, q: int)
    requires
        0 <= q <= t.len(),
    ensures
        q <= sp_more_commands(t, q).1 <= t.len(),
    decreases t.len() - q,
{
    if let Some((o, q1)) = sp_pipe_op(t, q) {
        lemma_pipe_op(t, q);
        if let Some((ws, q2)) = sp_simple_command(t, q1) {
            lemma_simple_command(t, q1);
            lemma_more_commands(t, q2);
        }
    }
}

pub proof fn lemma_pipeline(t: Seq<char>, i: int)
    requires
        0 <= i <= t.len(),
    ensures
        sp_pipeline(t, i) matches Some((cs, end)) ==> i < end <= t.len(),
{
    lemma_space0(t, i);
    let p = sp_space0(t, i);
    lemma_simple_command(t, p);
    if let Some((ws, q)) = sp_simple_command(t, p) {
        lemma_more_commands(t, q);
    }
}

/// The pipelines after the first pipeline of a logical expression from `q` on, each with the
/// operator in front of it, and where the list ends.
pub open spec fn sp_more_pipelines(t: Seq<char>, q: int) -> (Seq<(LogicalOperator, Seq<(Seq<(int, int)>, PipelineOperator)>)>, int)
    decreases t.len() - q,
{
    match sp_logic_op(t, q) {
        Some((o, q1)) => match sp_pipeline(t, q1) {
            Some((cs, q2)) => {
                proof {
                    lemma_logic_op(t, q);
                    lemma_pipeline(t, q1);
                }
                let (rest, end) = sp_more_pipelines(t, q2);
                (seq![(o, cs)] + rest, end)
            },
            None => (Seq::empty(), q),
        },
        None => (Seq::empty(), q),
    }
}

/// Pipelines with the operator in front of each, turned into pipelines with the operator
/// after each.
pub open spec fn fix_pipelines(
    first: Seq<(Seq<(int, int)>, PipelineOperator)>,
    rest: Seq<(LogicalOperator, Seq<(Seq<(int, int)>, PipelineOperator)>)>,
) -> Seq<(Seq<(Seq<(int, int)>, PipelineOperator)>, LogicalOperator)> {
    Seq::new(
        rest.len() + 1,
        |k: int|
            (
                if k == 0 {
                    first
                } else {
                    rest[k - 1].1
                },
                if k < rest.len() {
                    rest[k].0
                } else {
                    LogicalOperator::Nothing
                },
            ),
    )
}

/// What ends a logical expression at `r`: `&` runs it in the background, `;` or a line break
/// in the foreground.
pub open spec fn sp_terminator(t: Seq<char>, r: int) -> Option<(BackgroundMode, int)> {
    if 0 <= r < t.len() && t[r] == '&' {
        Some((BackgroundMode::Background, r + 1))
    } else if 0 <= r < t.len() && t[r] == ';' {
        Some((BackgroundMode::Foreground, r + 1))
    } else {
        match sp_line_ending(t, r) {
            Some(e) => Some((BackgroundMode::Foreground, e)),
            None => None,
        }
    }
}

/// A logical expression from `i`: blanks, pipelines separated by logical operators, blanks,
/// and a terminator.
pub open spec fn sp_logical(t: Seq<char>, i: int) -> Option<(Seq<(Seq<(Seq<(int, int)>, PipelineOperator)>, LogicalOperator)>, BackgroundMode, int)> {
    let p = sp_space0(t, i);
    match sp_pipeline(t, p) {
        Some((c0, q)) => {
            let (rest, e) = sp_more_pipelines(t, q);
            let r = sp_space0(t, e);
            match sp_terminator(t, r) {
                Some((mode, end)) => Some((fix_pipelines(c0, rest), mode, end)),
                None => None,
            }
        },
        None => None,
    }
}

/// An empty line from `i`: blanks and a line break.
pub open spec fn sp_empty_line(t: Seq<char>, i: int) -> Option<int> {
    sp_line_ending(t, sp_space0(t, i))
}

/// A comment from `i`: blanks, `#`, blanks, the text of the line, and a line break. The text
/// and the end.
pub open spec fn sp_comment(t: Seq<char>, i: int) -> Option<((int, int), int)> {
    let p = sp_space0(t, i);
    if 0 <= p < t.len() && t[p] == '#' {
        let q = sp_space0(t, p + 1);
        match sp_not_line_ending(t, q) {
            Some(r) => match sp_line_ending(t, r) {
                Some(e) => Some(((q, r), e)),
                None => None,
            },
            None => None,
        }
    } else {
        None
    }
}

// The grammar applied to a span: results as spans.

pub open spec fn words_view(sp: SpanView, ws: Seq<(int, int)>) -> Seq<SpanView> {
    ws.map_values(|w: (int, int)| sub_span(sp, w.0, w.1))
}

pub open spec fn pipeline_commands_view(sp: SpanView, cs: Seq<(Seq<(int, int)>, PipelineOperator)>) -> Seq<PipelineCommandView> {
    cs.map_values(|c: (Seq<(int, int)>, PipelineOperator)| PipelineCommandView { words: words_view(sp, c.0), operator: c.1 })
}

pub open spec fn logical_view(sp: SpanView, ps: Seq<(Seq<(Seq<(int, int)>, PipelineOperator)>, LogicalOperator)>) -> Seq<PipelineView> {
    ps.map_values(|p: (Seq<(Seq<(int, int)>, PipelineOperator)>, LogicalOperator)| PipelineView { commands: pipeline_commands_view(sp, p.0), operator: p.1 })
}

/// The rest of span `sp` from character `end` on.
pub open spec fn rest_of(sp: SpanView, end: int) -> SpanView {
    sub_span(sp, end, sp.fragment.len() as int)
}

/// A simple command at the start of `sp`: the rest and the words.
pub open spec fn spec_simple_command(sp: SpanView) -> Option<(SpanView, Seq<SpanView>)> {
    match sp_simple_command(sp.fragment, 0) {
        Some((ws, end)) => Some((rest_of(sp, end), words_view(sp, ws))),
        None => None,
    }
}

/// A pipeline at the start of `sp`: the rest and the pipeline.
pub open spec fn spec_pipeline(sp: SpanView) -> Option<(SpanView, PipelineView)> {
    match sp_pipeline(sp.fragment, 0) {
        Some((cs, end)) => Some(
            (rest_of(sp, end), PipelineView { commands: pipeline_commands_view(sp, cs), operator: LogicalOperator::Nothing }),
        ),
        None => None,
    }
}

/// A logical expression at the start of `sp`: the rest and the expression.
pub open spec fn spec_logical(sp: SpanView) -> Option<(SpanView, ParsingResultView)> {
    match sp_logical(sp.fragment, 0) {
        Some((ps, mode, end)) => Some((rest_of(sp, end), ParsingResultView::Logical(logical_view(sp, ps), mode))),
        None => None,
    }
}

/// A command at the start of `sp`: an empty line, a comment or a logical expression, the first
/// that matches.
pub open spec fn spec_script(sp: SpanView) -> Option<(SpanView, ParsingResultView)> {
    let t = sp.fragment;
    match sp_empty_line(t, 0) {
        Some(e) => Some((rest_of(sp, e), ParsingResultView::Nothing)),
        None => match sp_comment(t, 0) {
            Some(((q, r), e)) => Some((rest_of(sp, e), ParsingResultView::Comment(sub_span(sp, q, r)))),
            None => spec_logical(sp),
        },
    }
}


/// The characters of an input span with the byte offset and the line of each position.
struct Text {
    chars: Vec<char>,
    offsets: Vec<usize>,
    lines: Vec<u32>,
    sp: Ghost<SpanView>,
}

proof fn lemma_count_nl_step(t: Seq<char>, k: int)
    requires
        0 <= k < t.len(),
    ensures
        count_nl(t.take(k + 1)) == count_nl(t.take(k)) + if t[k] == '\n' {
            1int
        } else {
            0int
        },
{
    assert(t.take(k + 1).drop_last() =~= t.take(k));
}

proof fn lemma_count_nl_mono(t: Seq<char>, j: int, k: int)
    requires
        0 <= j <= k <= t.len(),
    ensures
        0 <= count_nl(t.take(j)) <= count_nl(t.take(k)),
    decreases k - j,
{
    if j < k {
        lemma_count_nl_step(t, k - 1);
        lemma_count_nl_mono(t, j, k - 1);
    } else {
        lemma_count_nl_nonneg(t.take(j));
    }
}

proof fn lemma_count_nl_nonneg(t: Seq<char>)
    ensures
        0 <= count_nl(t),
    decreases t.len(),
{
    if t.len() > 0 {
        lemma_count_nl_nonneg(t.drop_last());
    }
}

/// The line breaks of two texts one after the other are those of both.
pub proof fn lemma_count_nl_concat(a: Seq<char>, b: Seq<char>)
    ensures
        count_nl(a + b) == count_nl(a) + count_nl(b),
    decreases b.len(),
{
    if b.len() > 0 {
        assert((a + b).drop_last() =~= a + b.drop_last());
        lemma_count_nl_concat(a, b.drop_last());
    } else {
        assert(a + b =~= a);
    }
}

/// The rest of a span from a position on fits its types where the span does.
pub proof fn lemma_rest_fits(sp: SpanView, e: int)
    requires
        span_fits(sp),
        0 <= e <= sp.fragment.len(),
    ensures
        span_fits(rest_of(sp, e)),
        rest_of(sp, e).fragment.len() == sp.fragment.len() - e,
{
    let t = sp.fragment;
    lemma_encode_split(t, e);
    assert(t.subrange(e, t.len() as int) =~= t.skip(e));
    assert(t =~= t.take(e) + t.skip(e));
    lemma_count_nl_concat(t.take(e), t.skip(e));
    lemma_count_nl_nonneg(t.take(e));
    lemma_count_nl_nonneg(t.skip(e));
}

impl Text {
    spec fn wf(&self) -> bool {
        let sp = self.sp@;
        let t = sp.fragment;
        &&& self.chars@ == t
        &&& self.offsets@.len() == t.len() + 1
        &&& self.lines@.len() == t.len() + 1
        &&& forall|k: int| 0 <= k <= t.len() ==> #[trigger] self.offsets@[k] == sp.offset + byte_offset(t, k)
        &&& forall|k: int| 0 <= k <= t.len() ==> #[trigger] self.lines@[k] == sp.line + count_nl(t.take(k))
    }

    fn new(input: &Span) -> (r: Self)
        requires
            span_fits(input@),
        ensures
            r.wf(),
            r.sp@ == input@,
    {
        let chars = chars_of(input.fragment.as_str());
        let ghost t = input@.fragment;
        let mut offsets: Vec<usize> = Vec::new();
        let mut lines: Vec<u32> = Vec::new();
        let mut off: usize = input.offset;
        let mut line: u32 = input.line;
        let mut k: usize = 0;
        proof {
            lemma_byte_offset_bounds(t, 0);
            assert(t.take(0) =~= Seq::<char>::empty());
        }
        while k < chars.len()
            invariant
                chars@ == t,
                t == input@.fragment,
                span_fits(input@),
                k <= t.len(),
                offsets@.len() == k,
                lines@.len() == k,
                off == input@.offset + byte_offset(t, k as int),
                line == input@.line + count_nl(t.take(k as int)),
                forall|j: int| 0 <= j < k ==> #[trigger] offsets@[j] == input@.offset + byte_offset(t, j),
                forall|j: int| 0 <= j < k ==> #[trigger] lines@[j] == input@.line + count_nl(t.take(j)),
            decreases t.len() - k,
        {
            offsets.push(off);
            lines.push(line);
            proof {
                lemma_byte_offset_step(t, k as int);
                lemma_byte_offset_bounds(t, k + 1);
                lemma_count_nl_step(t, k as int);
                lemma_count_nl_mono(t, k + 1, t.len() as int);
                assert(t.take(t.len() as int) =~= t);
            }
            let c = chars[k];
            off = off + char_len_utf8(c);
            if c == '\n' {
                line = line + 1;
            }
            k = k + 1;
        }
        offsets.push(off);
        lines.push(line);
        Text { chars, offsets, lines, sp: Ghost(input@) }
    }

    /// The span of characters `i..j`.
    fn span(&self, i: usize, j: usize) -> (s: Span)
        requires
            self.wf(),
            i <= j <= self.chars@.len(),
        ensures
            s@ == sub_span(self.sp@, i as int, j as int),
    {
        let frag = vstd::slice::slice_subrange(self.chars.as_slice(), i, j);
        Span { offset: self.offsets[i], line: self.lines[i], fragment: string_from_chars(frag) }
    }

    /// The end of the blanks from `i` on.
    fn space0(&self, i: usize) -> (r: usize)
        requires
            self.wf(),
            i <= self.chars@.len(),
        ensures
            r == sp_space0(self.sp@.fragment, i as int),
            i <= r <= self.chars@.len(),
    {
        let mut k = i;
        while k < self.chars.len() && (self.chars[k] == ' ' || self.chars[k] == '\t')
            invariant
                self.wf(),
                i <= k <= self.chars@.len(),
                sp_space0(self.sp@.fragment, k as int) == sp_space0(self.sp@.fragment, i as int),
            decreases self.chars@.len() - k,
        {
            k = k + 1;
        }
        k
    }

    /// The end of a word at `i`.
    fn word(&self, i: usize) -> (r: Option<usize>)
        requires
            self.wf(),
            i <= self.chars@.len(),
        ensures
            match r {
                Some(e) => sp_word(self.sp@.fragment, i as int) == Some(e as int),
                None => sp_word(self.sp@.fragment, i as int) is None,
            },
            r matches Some(e) ==> i < e <= self.chars@.len(),
    {
        if i < self.chars.len() && is_word_letter_exec(self.chars[i]) {
            let mut k = i;
            while k < self.chars.len() && is_word_letter_exec(self.chars[k])
                invariant
                    self.wf(),
                    i <= k <= self.chars@.len(),
                    sp_word_end(self.sp@.fragment, k as int) == sp_word_end(self.sp@.fragment, i as int),
                decreases self.chars@.len() - k,
            {
                k = k + 1;
            }
            proof {
                lemma_word_end(self.sp@.fragment, i as int);
            }
            Some(k)
        } else {
            None
        }
    }

    /// The end of a line break at `i`.
    fn line_ending(&self, i: usize) -> (r: Option<usize>)
        requires
            self.wf(),
            i <= self.chars@.len(),
        ensures
            match r {
                Some(e) => sp_line_ending(self.sp@.fragment, i as int) == Some(e as int),
                None => sp_line_ending(self.sp@.fragment, i as int) is None,
            },
            r matches Some(e) ==> i < e <= self.chars@.len(),
    {
        let n = self.chars.len();
        if i < n && self.chars[i] == '\n' {
            Some(i + 1)
        } else if i < n && i + 1 < n && self.chars[i] == '\r' && self.chars[i + 1] == '\n' {
            Some(i + 2)
        } else {
            None
        }
    }

    /// The end of the text of a line from `i` on.
    fn not_line_ending(&self, i: usize) -> (r: Option<usize>)
        requires
            self.wf(),
            i <= self.chars@.len(),
        ensures
            match r {
                Some(e) => sp_not_line_ending(self.sp@.fragment, i as int) == Some(e as int),
                None => sp_not_line_ending(self.sp@.fragment, i as int) is None,
            },
            r matches Some(e) ==> i <= e <= self.chars@.len(),
    {
        let n = self.chars.len();
        let mut k = i;
        while k < n && self.chars[k] != '\n' && self.chars[k] != '\r'
            invariant
                self.wf(),
                n == self.chars@.len(),
                i <= k <= n,
                sp_line_stop(self.sp@.fragment, k as int) == sp_line_stop(self.sp@.fragment, i as int),
            decreases n - k,
        {
            k = k + 1;
        }
        if k < n && self.chars[k] == '\r' && !(k + 1 < n && self.chars[k + 1] == '\n') {
            None
        } else {
            Some(k)
        }
    }
}

/// A character that can be part of a word.
fn is_word_letter_exec(c: char) -> (b: bool)
    ensures
        b == is_word_letter(c),
{
    !(c == ' ' || c == '\n' || c == '\t' || c == '"' || c == '\'' || c == '|' || c == '&' || c == ';'
        || c == '(' || c == ')' || c == '<' || c == '>')
}


pub proof fn lemma_fix_commands(first: Seq<(int, int)>, rest: Seq<(PipelineOperator, Seq<(int, int)>)>)
    ensures
        rest.len() == 0 ==> fix_commands(first, rest) == seq![(first, PipelineOperator::Nothing)],
        rest.len() > 0 ==> fix_commands(first, rest) == seq![(first, rest[0].0)] + fix_commands(
            rest[0].1,
            rest.drop_first(),
        ),
{
    if rest.len() == 0 {
        assert(fix_commands(first, rest) =~= seq![(first, PipelineOperator::Nothing)]);
    } else {
        assert(fix_commands(first, rest) =~= seq![(first, rest[0].0)] + fix_commands(rest[0].1, rest.drop_first()));
    }
}

pub proof fn lemma_fix_pipelines(
    first: Seq<(Seq<(int, int)>, PipelineOperator)>,
    rest: Seq<(LogicalOperator, Seq<(Seq<(int, int)>, PipelineOperator)>)>,
)
    ensures
        rest.len() == 0 ==> fix_pipelines(first, rest) == seq![(first, LogicalOperator::Nothing)],
        rest.len() > 0 ==> fix_pipelines(first, rest) == seq![(first, rest[0].0)] + fix_pipelines(
            rest[0].1,
            rest.drop_first(),
        ),
{
    if rest.len() == 0 {
        assert(fix_pipelines(first, rest) =~= seq![(first, LogicalOperator::Nothing)]);
    } else {
        assert(fix_pipelines(first, rest) =~= seq![(first, rest[0].0)] + fix_pipelines(rest[0].1, rest.drop_first()));
    }
}

impl Text {
    /// A simple command at `i`: the words and the end.
    fn simple_command(&self, i: usize) -> (r: Option<(Vec<Span>, usize)>)
        requires
            self.wf(),
            i <= self.chars@.len(),
        ensures
            match sp_simple_command(self.sp@.fragment, i as int) {
                Some((ws, end)) => r matches Some((v, e)) && spans_view(v@) == words_view(self.sp@, ws) && e == end,
                None => r is None,
            },
            r matches Some((v, e)) ==> i < e <= self.chars@.len(),
    {
        let ghost t = self.sp@.fragment;
        let ghost sp = self.sp@;
        let p = self.space0(i);
        match self.word(p) {
            None => None,
            Some(e) => {
                let mut words: Vec<Span> = Vec::new();
                words.push(self.span(p, e));
                let ghost acc: Seq<(int, int)> = seq![(p as int, e as int)];
                let ghost full = sp_more_words(t, e as int);
                proof {
                    lemma_more_words(t, e as int);
                    assert(spans_view(words@) =~= words_view(sp, acc));
                    assert(acc + full.0 =~= seq![(p as int, e as int)] + full.0);
                }
                let mut q = e;
                loop
                    invariant
                        self.wf(),
                        t == self.sp@.fragment,
                        sp == self.sp@,
                        e <= q <= self.chars@.len(),
                        i < e,
                        spans_view(words@) == words_view(sp, acc),
                        acc + sp_more_words(t, q as int).0 == seq![(p as int, e as int)] + full.0,
                        sp_more_words(t, q as int).1 == full.1,
                    ensures
                        sp_more_words(t, q as int).0.len() == 0,
                        sp_more_words(t, q as int).1 == q,
                    decreases self.chars@.len() - q,
                {
                    if q < self.chars.len() && (self.chars[q] == ' ' || self.chars[q] == '\t') {
                        let s = self.space0(q);
                        match self.word(s) {
                            Some(e2) => {
                                let ghost before = words@;
                                words.push(self.span(s, e2));
                                proof {
                                    let m = sp_more_words(t, e2 as int);
                                    assert(0 <= q < t.len() && is_blank(t[q as int]));
                                    assert(sp_space0(t, q as int) == s);
                                    assert(sp_word(t, s as int) == Some(e2 as int));
                                    assert(sp_more_words(t, q as int).0 == seq![(s as int, e2 as int)] + m.0);
                                    assert(acc.push((s as int, e2 as int)) + m.0 =~= acc + (seq![(s as int, e2 as int)] + m.0));
                                    assert(spans_view(words@) =~= spans_view(before).push(sub_span(sp, s as int, e2 as int)));
                                    assert(words_view(sp, acc.push((s as int, e2 as int))) =~= words_view(sp, acc).push(
                                        sub_span(sp, s as int, e2 as int),
                                    ));
                                    acc = acc.push((s as int, e2 as int));
                                }
                                q = e2;
                            },
                            None => {
                                break;
                            },
                        }
                    } else {
                        break;
                    }
                }
                proof {
                    assert(sp_more_words(t, q as int).0 =~= Seq::<(int, int)>::empty());
                    assert(acc =~= acc + sp_more_words(t, q as int).0);
                }
                Some((words, q))
            },
        }
    }
}


impl Text {
    /// A pipeline operator at `i`.
    fn pipe_op(&self, i: usize) -> (r: Option<(PipelineOperator, usize)>)
        requires
            self.wf(),
            i <= self.chars@.len(),
        ensures
            match r {
                Some((o, e)) => sp_pipe_op(self.sp@.fragment, i as int) == Some((o, e as int)),
                None => sp_pipe_op(self.sp@.fragment, i as int) is None,
            },
            r matches Some((o, e)) ==> i < e <= self.chars@.len(),
    {
        let p = self.space0(i);
        let n = self.chars.len();
        proof {
            lemma_pipe_op(self.sp@.fragment, i as int);
        }
        if p < n && p + 1 < n && self.chars[p] == '|' && self.chars[p + 1] == '&' {
            Some((PipelineOperator::StderrAndStdout, p + 2))
        } else if p < n && self.chars[p] == '|' {
            Some((PipelineOperator::StdoutOnly, p + 1))
        } else {
            None
        }
    }

    /// A logical operator at `i`.
    fn logic_op(&self, i: usize) -> (r: Option<(LogicalOperator, usize)>)
        requires
            self.wf(),
            i <= self.chars@.len(),
        ensures
            match r {
                Some((o, e)) => sp_logic_op(self.sp@.fragment, i as int) == Some((o, e as int)),
                None => sp_logic_op(self.sp@.fragment, i as int) is None,
            },
            r matches Some((o, e)) ==> i < e <= self.chars@.len(),
    {
        let p = self.space0(i);
        let n = self.chars.len();
        proof {
            lemma_logic_op(self.sp@.fragment, i as int);
        }
        if p < n && p + 1 < n && self.chars[p] == '&' && self.chars[p + 1] == '&' {
            Some((LogicalOperator::And, p + 2))
        } else if p < n && p + 1 < n && self.chars[p] == '|' && self.chars[p + 1] == '|' {
            Some((LogicalOperator::Or, p + 2))
        } else {
            None
        }
    }

    /// A pipeline at `i`: the commands and the end.
    fn pipeline(&self, i: usize) -> (r: Option<(Vec<PipelineCommand>, usize)>)
        requires
            self.wf(),
            i <= self.chars@.len(),
        ensures
            match sp_pipeline(self.sp@.fragment, i as int) {
                Some((cs, end)) => r matches Some((v, e)) && commands_view(v@) == pipeline_commands_view(self.sp@, cs) && e == end,
                None => r is None,
            },
            r matches Some((v, e)) ==> i < e <= self.chars@.len(),
    {
        let ghost t = self.sp@.fragment;
        let ghost sp = self.sp@;
        let p = self.space0(i);
        match self.simple_command(p) {
            None => None,
            Some((words, q0)) => {
                let ghost first = (sp_simple_command(t, p as int)->0).0;
                let ghost full = sp_more_commands(t, q0 as int);
                proof {
                    lemma_more_commands(t, q0 as int);
                }
                let mut res: Vec<PipelineCommand> = Vec::new();
                let mut cur = PipelineCommand { command: Command::Program(words), operator: PipelineOperator::Nothing };
                let ghost mut acc: Seq<(Seq<(int, int)>, PipelineOperator)> = Seq::empty();
                let ghost mut cur_ws: Seq<(int, int)> = first;
                let mut q = q0;
                proof {
                    assert(commands_view(res@) =~= pipeline_commands_view(sp, acc));
                    assert(acc + fix_commands(cur_ws, full.0) =~= fix_commands(first, full.0));
                }
                loop
                    invariant
                        self.wf(),
                        t == self.sp@.fragment,
                        sp == self.sp@,
                        q0 <= q <= self.chars@.len(),
                        i < q0,
                        cur@.words == words_view(sp, cur_ws),
                        cur.operator == PipelineOperator::Nothing,
                        commands_view(res@) == pipeline_commands_view(sp, acc),
                        acc + fix_commands(cur_ws, sp_more_commands(t, q as int).0) == fix_commands(first, full.0),
                        sp_more_commands(t, q as int).1 == full.1,
                    ensures
                        sp_more_commands(t, q as int).0.len() == 0,
                        sp_more_commands(t, q as int).1 == q,
                    decreases self.chars@.len() - q,
                {
                    match self.pipe_op(q) {
                        Some((o, q1)) => match self.simple_command(q1) {
                            Some((ws, q2)) => {
                                proof {
                                    let m = sp_more_commands(t, q2 as int);
                                    let nws = (sp_simple_command(t, q1 as int)->0).0;
                                    assert(sp_more_commands(t, q as int).0 == seq![(o, nws)] + m.0);
                                    lemma_fix_commands(cur_ws, seq![(o, nws)] + m.0);
                                    assert((seq![(o, nws)] + m.0).drop_first() =~= m.0);
                                    assert(acc.push((cur_ws, o)) + fix_commands(nws, m.0) =~= acc + (seq![(cur_ws, o)] + fix_commands(nws, m.0)));
                                }
                                cur.operator = o;
                                let ghost before = res@;
                                let mut done = PipelineCommand { command: Command::Program(ws), operator: PipelineOperator::Nothing };
                                std::mem::swap(&mut cur, &mut done);
                                res.push(done);
                                proof {
                                    assert(commands_view(res@) =~= commands_view(before).push(done@));
                                    assert(pipeline_commands_view(sp, acc.push((cur_ws, o))) =~= pipeline_commands_view(sp, acc).push(
                                        PipelineCommandView { words: words_view(sp, cur_ws), operator: o },
                                    ));
                                    acc = acc.push((cur_ws, o));
                                    cur_ws = (sp_simple_command(t, q1 as int)->0).0;
                                }
                                q = q2;
                            },
                            None => {
                                break;
                            },
                        },
                        None => {
                            break;
                        },
                    }
                }
                let ghost before = res@;
                res.push(cur);
                proof {
                    lemma_fix_commands(cur_ws, sp_more_commands(t, q as int).0);
                    assert(commands_view(res@) =~= commands_view(before).push(cur@));
                    assert(pipeline_commands_view(sp, acc.push((cur_ws, PipelineOperator::Nothing))) =~= pipeline_commands_view(sp, acc).push(
                        PipelineCommandView { words: words_view(sp, cur_ws), operator: PipelineOperator::Nothing },
                    ));
                    assert(acc.push((cur_ws, PipelineOperator::Nothing)) =~= acc + seq![(cur_ws, PipelineOperator::Nothing)]);
                }
                Some((res, q))
            },
        }
    }
}


pub proof fn lemma_more_pipelines(t: Seq<char>, q: int)
    requires
        0 <= q <= t.len(),
    ensures
        q <= sp_more_pipelines(t, q).1 <= t.len(),
    decreases t.len() - q,
{
    if let Some((o, q1)) = sp_logic_op(t, q) {
        lemma_logic_op(t, q);
        if let Some((cs, q2)) = sp_pipeline(t, q1) {
            lemma_pipeline(t, q1);
            lemma_more_pipelines(t, q2);
        }
    }
}

impl Text {
    /// What ends a logical expression at `r`.
    fn terminator(&self, r: usize) -> (res: Option<(BackgroundMode, usize)>)
        requires
            self.wf(),
            r <= self.chars@.len(),
        ensures
            match res {
                Some((m, e)) => sp_terminator(self.sp@.fragment, r as int) == Some((m, e as int)),
                None => sp_terminator(self.sp@.fragment, r as int) is None,
            },
            res matches Some((m, e)) ==> r < e <= self.chars@.len(),
    {
        if r < self.chars.len() && self.chars[r] == '&' {
            Some((BackgroundMode::Background, r + 1))
        } else if r < self.chars.len() && self.chars[r] == ';' {
            Some((BackgroundMode::Foreground, r + 1))
        } else {
            match self.line_ending(r) {
                Some(e) => Some((BackgroundMode::Foreground, e)),
                None => None,
            }
        }
    }

    /// A logical expression at `i`: the pipelines, the mode and the end.
    fn logical(&self, i: usize) -> (r: Option<(Vec<Pipeline>, BackgroundMode, usize)>)
        requires
            self.wf(),
            i <= self.chars@.len(),
        ensures
            match sp_logical(self.sp@.fragment, i as int) {
                Some((ps, mode, end)) => r matches Some((v, m, e)) && pipelines_view(v@) == logical_view(self.sp@, ps) && m == mode && e == end,
                None => r is None,
            },
            r matches Some((v, m, e)) ==> i < e <= self.chars@.len(),
    {
        let ghost t = self.sp@.fragment;
        let ghost sp = self.sp@;
        let p = self.space0(i);
        match self.pipeline(p) {
            None => None,
            Some((cmds, q0)) => {
                let ghost first = (sp_pipeline(t, p as int)->0).0;
                let ghost full = sp_more_pipelines(t, q0 as int);
                proof {
                    lemma_more_pipelines(t, q0 as int);
                }
                let mut res: Vec<Pipeline> = Vec::new();
                let mut cur = Pipeline { commands: cmds, operator: LogicalOperator::Nothing };
                let ghost mut acc: Seq<(Seq<(Seq<(int, int)>, PipelineOperator)>, LogicalOperator)> = Seq::empty();
                let ghost mut cur_cs: Seq<(Seq<(int, int)>, PipelineOperator)> = first;
                let mut q = q0;
                proof {
                    assert(pipelines_view(res@) =~= logical_view(sp, acc));
                    assert(acc + fix_pipelines(cur_cs, full.0) =~= fix_pipelines(first, full.0));
                }
                loop
                    invariant
                        self.wf(),
                        t == self.sp@.fragment,
                        sp == self.sp@,
                        q0 <= q <= self.chars@.len(),
                        i < q0,
                        cur@.commands == pipeline_commands_view(sp, cur_cs),
                        cur.operator == LogicalOperator::Nothing,
                        pipelines_view(res@) == logical_view(sp, acc),
                        acc + fix_pipelines(cur_cs, sp_more_pipelines(t, q as int).0) == fix_pipelines(first, full.0),
                        sp_more_pipelines(t, q as int).1 == full.1,
                    ensures
                        sp_more_pipelines(t, q as int).0.len() == 0,
                        sp_more_pipelines(t, q as int).1 == q,
                    decreases self.chars@.len() - q,
                {
                    match self.logic_op(q) {
                        Some((o, q1)) => match self.pipeline(q1) {
                            Some((cs, q2)) => {
                                proof {
                                    let m = sp_more_pipelines(t, q2 as int);
                                    let ncs = (sp_pipeline(t, q1 as int)->0).0;
                                    assert(sp_more_pipelines(t, q as int).0 == seq![(o, ncs)] + m.0);
                                    lemma_fix_pipelines(cur_cs, seq![(o, ncs)] + m.0);
                                    assert((seq![(o, ncs)] + m.0).drop_first() =~= m.0);
                                    assert(acc.push((cur_cs, o)) + fix_pipelines(ncs, m.0) =~= acc + (seq![(cur_cs, o)] + fix_pipelines(ncs, m.0)));
                                }
                                cur.operator = o;
                                let ghost before = res@;
                                let mut done = Pipeline { commands: cs, operator: LogicalOperator::Nothing };
                                std::mem::swap(&mut cur, &mut done);
                                res.push(done);
                                proof {
                                    assert(pipelines_view(res@) =~= pipelines_view(before).push(done@));
                                    assert(logical_view(sp, acc.push((cur_cs, o))) =~= logical_view(sp, acc).push(
                                        PipelineView { commands: pipeline_commands_view(sp, cur_cs), operator: o },
                                    ));
                                    acc = acc.push((cur_cs, o));
                                    cur_cs = (sp_pipeline(t, q1 as int)->0).0;
                                }
                                q = q2;
                            },
                            None => {
                                break;
                            },
                        },
                        None => {
                            break;
                        },
                    }
                }
                let ghost before = res@;
                res.push(cur);
                proof {
                    lemma_fix_pipelines(cur_cs, sp_more_pipelines(t, q as int).0);
                    assert(pipelines_view(res@) =~= pipelines_view(before).push(cur@));
                    assert(logical_view(sp, acc.push((cur_cs, LogicalOperator::Nothing))) =~= logical_view(sp, acc).push(
                        PipelineView { commands: pipeline_commands_view(sp, cur_cs), operator: LogicalOperator::Nothing },
                    ));
                    assert(acc.push((cur_cs, LogicalOperator::Nothing)) =~= acc + seq![(cur_cs, LogicalOperator::Nothing)]);
                }
                let r = self.space0(q);
                match self.terminator(r) {
                    Some((mode, end)) => Some((res, mode, end)),
                    None => None,
                }
            },
        }
    }

    /// An empty line at `i`: its end.
    fn empty_line(&self, i: usize) -> (r: Option<usize>)
        requires
            self.wf(),
            i <= self.chars@.len(),
        ensures
            match r {
                Some(e) => sp_empty_line(self.sp@.fragment, i as int) == Some(e as int),
                None => sp_empty_line(self.sp@.fragment, i as int) is None,
            },
            r matches Some(e) ==> i < e <= self.chars@.len(),
    {
        let p = self.space0(i);
        self.line_ending(p)
    }

    /// A comment at `i`: the text and the end.
    fn comment(&self, i: usize) -> (r: Option<(usize, usize, usize)>)
        requires
            self.wf(),
            i <= self.chars@.len(),
        ensures
            match r {
                Some((q, k, e)) => sp_comment(self.sp@.fragment, i as int) == Some(((q as int, k as int), e as int)),
                None => sp_comment(self.sp@.fragment, i as int) is None,
            },
            r matches Some((q, k, e)) ==> i < q <= k <= e <= self.chars@.len(),
    {
        let p = self.space0(i);
        if p < self.chars.len() && self.chars[p] == '#' {
            let q = self.space0(p + 1);
            match self.not_line_ending(q) {
                Some(k) => match self.line_ending(k) {
                    Some(e) => Some((q, k, e)),
                    None => None,
                },
                None => None,
            }
        } else {
            None
        }
    }
}

/// Parse a simple command at the start of `input`: blanks, then words separated by blanks.
pub fn simple_command(input: &Span) -> (r: Result<(Span, Command), ParseError>)
    requires
        span_fits(input@),
    ensures
        match spec_simple_command(input@) {
            Some((rest, words)) => r matches Ok((s, c)) && s@ == rest && (c matches Command::Program(w) && spans_view(w@) == words),
            None => r is Err,
        },
{
    let text = Text::new(input);
    proof {
        lemma_space0(input@.fragment, 0);
    }
    match text.simple_command(0) {
        Some((words, end)) => Ok((text.span(end, text.chars.len()), Command::Program(words))),
        None => Err(ParseError),
    }
}

/// Parse a pipeline at the start of `input`: commands separated by `|` or `|&`.
pub fn pipeline(input: &Span) -> (r: Result<(Span, Pipeline), ParseError>)
    requires
        span_fits(input@),
    ensures
        match spec_pipeline(input@) {
            Some((rest, p)) => r matches Ok((s, v)) && s@ == rest && v@ == p,
            None => r is Err,
        },
{
    let text = Text::new(input);
    match text.pipeline(0) {
        Some((commands, end)) => Ok((text.span(end, text.chars.len()), Pipeline { commands, operator: LogicalOperator::Nothing })),
        None => Err(ParseError),
    }
}

/// Parse a logical expression at the start of `input`: pipelines separated by `&&` or `||`,
/// ended by `&`, `;` or a line break. Unlike bash, the parse stops at the first terminator.
pub fn logical(input: &Span) -> (r: Result<(Span, ParsingResult), ParseError>)
    requires
        span_fits(input@),
    ensures
        match spec_logical(input@) {
            Some((rest, p)) => r matches Ok((s, v)) && s@ == rest && v@ == p,
            None => r is Err,
        },
{
    let text = Text::new(input);
    match text.logical(0) {
        Some((pipelines, mode, end)) => Ok((text.span(end, text.chars.len()), ParsingResult::Logical(pipelines, mode))),
        None => Err(ParseError),
    }
}

/// Parse one command of a bash script: an empty line, a comment or a logical expression. The
/// terminator is consumed, and the rest is returned with the result.
pub fn script(input: &Span) -> (r: Result<(Span, ParsingResult), ParseError>)
    requires
        span_fits(input@),
    ensures
        match spec_script(input@) {
            Some((rest, p)) => r matches Ok((s, v)) && s@ == rest && v@ == p,
            None => r is Err,
        },
        r matches Ok((s, v)) ==> span_fits(s@) && s@.fragment.len() < input@.fragment.len(),
{
    let text = Text::new(input);
    let n = text.chars.len();
    proof {
        assert forall|e: int| 0 < e <= n implies span_fits(#[trigger] rest_of(input@, e)) && rest_of(input@, e).fragment.len() < input@.fragment.len() by {
            lemma_rest_fits(input@, e);
        }
    }
    match text.empty_line(0) {
        Some(e) => Ok((text.span(e, n), ParsingResult::Nothing)),
        None => match text.comment(0) {
            Some((q, k, e)) => Ok((text.span(e, n), ParsingResult::Comment(text.span(q, k)))),
            None => match text.logical(0) {
                Some((pipelines, mode, end)) => Ok((text.span(end, n), ParsingResult::Logical(pipelines, mode))),
                None => Err(ParseError),
            },
        },
    }
}

} // verus!

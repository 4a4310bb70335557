//! Byte code for shell scripts: the compiler from syntax trees to instructions, and the
//! decisions of the interpreter that runs them.
//!
//! # Example instructions
//!
//! Simple command `ab cd`:
//!     Begin Lit("ab") Word SetProgram Lit("cd") Word Exec(true) ForegroundJob
//!
//! Pipe `ab cd | de ef`:
//!     Begin Lit("ab") Word SetProgram Lit("cd") Word Exec(false)
//!           Lit("de") Word SetProgram Lit("ef") Word Exec(true) ForegroundJob
//!
//! Logical processing `ab && de`:
//!     Begin Lit("ab") Word SetProgram Exec(true) ForegroundJob Success JumpIfNot(6)
//!     Begin Lit("de") Word SetProgram Exec(true) ForegroundJob
//!
//! With `||`, a `Not` follows the `Success`. A logical expression ended by `&` starts with
//! `BackgroundJob(n)`, where `n` counts the instructions of the expression, itself included.

use vstd::prelude::*;
use crate::strings::string_push_str;
use crate::data_stack::{Stack, ValueView, bool_of};
use crate::parser::{
    BackgroundMode, Command, LogicalOperator, ParsingResult, ParsingResultView, Pipeline, PipelineCommand,
    PipelineCommandView, PipelineOperator, PipelineView, Span, SpanView, commands_view, count_nl, pipelines_view,
    span_fits, spans_view, spec_script,
};
use vstd::utf8::encode_utf8;

verus! {

/// The array of stacks to construct command line arguments.
#[derive(Debug)]
pub struct Launchpad {
    /// One stack (inner Vec) for each future argument (outer Vec)
    args: Vec<Vec<String>>,
    /// Index of first argument that hasn't been finalized
    marker: usize,
}

/// A launchpad as a value: the stacks of the arguments, and the first argument that is not
/// finalized.
pub struct LaunchpadView {
    pub args: Seq<Seq<Seq<char>>>,
    pub marker: int,
}

pub open spec fn stack_view(v: Seq<String>) -> Seq<Seq<char>> {
    v.map_values(|s: String| s@)
}

pub open spec fn args_view(v: Seq<Vec<String>>) -> Seq<Seq<Seq<char>>> {
    v.map_values(|a: Vec<String>| stack_view(a@))
}

impl View for Launchpad {
    type V = LaunchpadView;

    closed spec fn view(&self) -> LaunchpadView {
        LaunchpadView { args: args_view(self.args@), marker: self.marker as int }
    }
}

/// The launchpad after making sure that there is an argument that is not finalized.
pub open spec fn lp_prepared(lp: LaunchpadView) -> LaunchpadView {
    if lp.marker >= lp.args.len() {
        LaunchpadView { args: lp.args.push(Seq::empty()), marker: lp.args.len() as int }
    } else {
        lp
    }
}

/// The launchpad after adding literal `l` to every argument that is not finalized.
pub open spec fn lp_lit(lp: LaunchpadView, l: Seq<char>) -> LaunchpadView {
    let p = lp_prepared(lp);
    LaunchpadView {
        args: Seq::new(p.args.len(), |k: int| if k >= p.marker { p.args[k].push(l) } else { p.args[k] }),
        marker: p.marker,
    }
}

/// The concatenation of the strings of a stack.
pub open spec fn concat(s: Seq<Seq<char>>) -> Seq<char>
    decreases s.len(),
{
    if s.len() == 0 {
        Seq::empty()
    } else {
        concat(s.drop_last()) + s.last()
    }
}

/// The launchpad after finalizing: every argument that is not finalized becomes a single
/// string, the concatenation of its stack, and all arguments are finalized.
pub open spec fn lp_finalized(lp: LaunchpadView) -> LaunchpadView {
    LaunchpadView {
        args: Seq::new(
            lp.args.len(),
            |k: int| if k >= lp.marker && lp.args[k].len() != 1 { seq![concat(lp.args[k])] } else { lp.args[k] },
        ),
        marker: lp.args.len() as int,
    }
}

/// Every finalized argument is a single string.
pub open spec fn lp_ok(lp: LaunchpadView) -> bool {
    forall|k: int| 0 <= k < lp.marker && k < lp.args.len() ==> (#[trigger] lp.args[k]).len() == 1
}

/// The marker lies inside the arguments or right after them.
pub open spec fn lp_wf(lp: LaunchpadView) -> bool {
    0 <= lp.marker <= lp.args.len()
}

impl Launchpad {
    pub fn new() -> (lp: Self)
        ensures
            lp@.args == Seq::<Seq<Seq<char>>>::empty(),
            lp@.marker == 0,
    {
        let lp = Self { args: Vec::new(), marker: 0 };
        proof {
            assert(lp@.args =~= Seq::<Seq<Seq<char>>>::empty());
        }
        lp
    }

    /// The stacks of the arguments.
    pub fn args(&self) -> (a: &Vec<Vec<String>>)
        ensures
            args_view(a@) == self@.args,
    {
        &self.args
    }

    /// The index of the first argument that is not finalized.
    pub fn marker(&self) -> (m: usize)
        ensures
            m == self@.marker,
    {
        self.marker
    }

    /// Ensure that there is at least one argument that is not finalized.
    pub fn prepare_arg(&mut self)
        ensures
            final(self)@ == lp_prepared(old(self)@),
    {
        if self.marker >= self.args.len() {
            self.marker = self.args.len();
            let ghost before = self.args@;
            let v: Vec<String> = Vec::new();
            proof {
                assert(stack_view(v@) =~= Seq::<Seq<char>>::empty());
            }
            self.args.push(v);
            proof {
                assert(args_view(self.args@) =~= args_view(before).push(Seq::empty()));
            }
        }
    }

    /// The arguments that are not finalized.
    pub fn incomplete_args(&self) -> (r: &[Vec<String>])
        requires
            lp_wf(self@),
        ensures
            args_view(r@) == self@.args.subrange(self@.marker, self@.args.len() as int),
    {
        let r = vstd::slice::slice_subrange(self.args.as_slice(), self.marker, self.args.len());
        proof {
            assert(args_view(r@) =~= self@.args.subrange(self@.marker, self@.args.len() as int));
        }
        r
    }

    /// Add a literal string to all arguments that are not finalized.
    pub fn lit(&mut self, l: &str)
        ensures
            final(self)@ == lp_lit(old(self)@, l@),
            lp_wf(final(self)@),
    {
        self.prepare_arg();
        let ghost p = self@;
        let mut k = self.marker;
        proof {
            assert(self@.args.len() == self.args@.len());
        }
        while k < self.args.len()
            invariant
                p.marker == self@.marker,
                self.marker <= k <= self.args@.len(),
                self@.args.len() == p.args.len(),
                forall|j: int| 0 <= j < self@.args.len() ==> #[trigger] self@.args[j] == if self.marker <= j < k {
                    p.args[j].push(l@)
                } else {
                    p.args[j]
                },
            decreases self.args@.len() - k,
        {
            let ghost before = self.args@;
            let ghost av = stack_view(self.args@[k as int]@);
            proof {
                assert(self@.args[k as int] == av);
            }
            self.args[k].push(l.to_owned());
            proof {
                assert(stack_view(self.args@[k as int]@) =~= av.push(l@));
                assert(self@.args[k as int] == stack_view(self.args@[k as int]@));
                assert forall|j: int| 0 <= j < self@.args.len() implies #[trigger] self@.args[j] == if self.marker <= j < k + 1 {
                    p.args[j].push(l@)
                } else {
                    p.args[j]
                } by {
                    if j != k {
                        assert(self.args@[j] == before[j]);
                        assert(self@.args[j] == stack_view(self.args@[j]@));
                        assert(args_view(before)[j] == stack_view(before[j]@));
                    }
                }
            }
            k = k + 1;
        }
        proof {
            assert(self@.args =~= lp_lit(old(self)@, l@).args);
        }
    }

    /// Finalize the arguments: each becomes a single string, the concatenation of its stack.
    pub fn finalize_words(&mut self)
        ensures
            final(self)@ == lp_finalized(old(self)@),
            lp_wf(final(self)@),
    {
        let ghost p = self@;
        proof {
            assert(self@.args.len() == self.args@.len());
        }
        if self.marker < self.args.len() {
            let mut k = self.marker;
            while k < self.args.len()
                invariant
                    p.marker == self@.marker,
                    self.marker <= k <= self.args@.len(),
                    self@.args.len() == p.args.len(),
                    forall|j: int| 0 <= j < self@.args.len() ==> #[trigger] self@.args[j] == if self.marker <= j < k
                        && p.args[j].len() != 1 {
                        seq![concat(p.args[j])]
                    } else {
                        p.args[j]
                    },
                decreases self.args@.len() - k,
            {
                if self.args[k].len() != 1 {
                    let ghost before = self.args@;
                    let mut res = String::new();
                    let mut i: usize = 0;
                    let ghost st = stack_view(self.args@[k as int]@);
                    proof {
                        assert(self@.args[k as int] == st);
                        assert(p.args[k as int] == st);
                    }
                    while i < self.args[k].len()
                        invariant
                            k < self.args@.len(),
                            st == stack_view(self.args@[k as int]@),
                            i <= st.len(),
                            res@ == concat(st.take(i as int)),
                        decreases st.len() - i,
                    {
                        proof {
                            assert(st.take(i + 1).drop_last() =~= st.take(i as int));
                        }
                        string_push_str(&mut res, self.args[k][i].as_str());
                        i = i + 1;
                    }
                    proof {
                        assert(st.take(i as int) =~= st);
                    }
                    let mut single: Vec<String> = Vec::new();
                    single.push(res);
                    self.args.set(k, single);
                    proof {
                        assert(stack_view(single@) =~= seq![concat(st)]);
                        assert forall|j: int| 0 <= j < self@.args.len() implies #[trigger] self@.args[j] == if self.marker <= j < k + 1
                            && p.args[j].len() != 1 {
                            seq![concat(p.args[j])]
                        } else {
                            p.args[j]
                        } by {
                            if j != k {
                                assert(self.args@[j] == before[j]);
                                assert(self@.args[j] == stack_view(self.args@[j]@));
                                assert(args_view(before)[j] == stack_view(before[j]@));
                            } else {
                                assert(self@.args[j] == stack_view(single@));
                                assert(p.args[j] == st);
                            }
                        }
                    }
                }
                k = k + 1;
            }
        }
        self.marker = self.args.len();
        proof {
            assert(self@.args =~= lp_finalized(p).args);
        }
    }

    /// Remove all arguments.
    pub fn clear(&mut self)
        ensures
            final(self)@.args == Seq::<Seq<Seq<char>>>::empty(),
            final(self)@.marker == 0,
    {
        self.args = Vec::new();
        self.marker = 0;
        proof {
            assert(self@.args =~= Seq::<Seq<Seq<char>>>::empty());
        }
    }
}


/// One instruction for the shell interpreter.
#[derive(Debug, PartialEq, Eq)]
pub enum Instruction {
    /// Begin a new pipeline
    Begin,
    /// Put a literal string on the stack of the last word in the launchpad
    Lit(String),
    /// Combine all stacks and store as words in the launchpad
    Word,
    /// Set the program name from the first word on the launch pad
    SetProgram,
    /// Run the program on the launch pad; true for the last command of the pipeline
    Exec(bool),
    /// Wait for the pipeline to complete
    ForegroundJob,
    /// If the last command was a success, put true on the stack
    Success,
    /// Invert logical value of top-of-stack value
    Not,
    /// If true was on the stack, continue with the next instruction. Otherwise move the
    /// instruction pointer by the parameter.
    JumpIfNot(i32),
    /// Run the next instructions in the background; the parameter counts them, this one
    /// included.
    BackgroundJob(usize),
    /// Placeholder for redirection
    Redirect,
}

/// Instructions to execute.
pub type Instructions = Vec<Instruction>;

/// An instruction as a value.
pub enum InstrView {
    Begin,
    Lit(Seq<char>),
    Word,
    SetProgram,
    Exec(bool),
    ForegroundJob,
    Success,
    Not,
    JumpIfNot(int),
    BackgroundJob(int),
    Redirect,
}

impl View for Instruction {
    type V = InstrView;

    open spec fn view(&self) -> InstrView {
        match self {
            Instruction::Begin => InstrView::Begin,
            Instruction::Lit(s) => InstrView::Lit(s@),
            Instruction::Word => InstrView::Word,
            Instruction::SetProgram => InstrView::SetProgram,
            Instruction::Exec(b) => InstrView::Exec(*b),
            Instruction::ForegroundJob => InstrView::ForegroundJob,
            Instruction::Success => InstrView::Success,
            Instruction::Not => InstrView::Not,
            Instruction::JumpIfNot(d) => InstrView::JumpIfNot(*d as int),
            Instruction::BackgroundJob(n) => InstrView::BackgroundJob(*n as int),
            Instruction::Redirect => InstrView::Redirect,
        }
    }
}

pub open spec fn instrs_view(v: Seq<Instruction>) -> Seq<InstrView> {
    v.map_values(|i: Instruction| i@)
}

/// The code that puts the words of a command on the launchpad; the first word names the
/// program.
pub open spec fn words_code(ws: Seq<SpanView>) -> Seq<InstrView>
    decreases ws.len(),
{
    if ws.len() == 0 {
        Seq::empty()
    } else {
        words_code(ws.drop_last()) + seq![InstrView::Lit(ws.last().fragment), InstrView::Word] + if ws.len() == 1 {
            seq![InstrView::SetProgram]
        } else {
            Seq::empty()
        }
    }
}

/// The code of a command of a pipeline.
pub open spec fn command_code(c: PipelineCommandView, is_last: bool) -> Seq<InstrView> {
    words_code(c.words) + (if c.operator == PipelineOperator::StderrAndStdout {
        seq![InstrView::Redirect]
    } else {
        Seq::empty()
    }) + seq![InstrView::Exec(is_last)]
}

/// The code of the commands of a pipeline of `n` commands, of which `cs` are the first.
pub open spec fn commands_code(cs: Seq<PipelineCommandView>, n: int) -> Seq<InstrView>
    decreases cs.len(),
{
    if cs.len() == 0 {
        Seq::empty()
    } else {
        commands_code(cs.drop_last(), n) + command_code(cs.last(), cs.len() == n)
    }
}

/// The code of a pipeline: its commands in a job that runs in the foreground, then the test
/// of its logical operator with a jump whose distance is fixed later.
pub open spec fn pipeline_code(p: PipelineView) -> Seq<InstrView> {
    seq![InstrView::Begin] + commands_code(p.commands, p.commands.len() as int) + seq![InstrView::ForegroundJob]
        + match p.operator {
        LogicalOperator::Nothing => Seq::empty(),
        LogicalOperator::And => seq![InstrView::Success, InstrView::JumpIfNot(0)],
        LogicalOperator::Or => seq![InstrView::Success, InstrView::Not, InstrView::JumpIfNot(0)],
    }
}

/// The code of a sequence of pipelines.
pub open spec fn pipelines_code(ps: Seq<PipelineView>) -> Seq<InstrView>
    decreases ps.len(),
{
    if ps.len() == 0 {
        Seq::empty()
    } else {
        pipelines_code(ps.drop_last()) + pipeline_code(ps.last())
    }
}

/// The code of a parse result before the jumps are fixed.
pub open spec fn raw_code(ast: ParsingResultView) -> Seq<InstrView> {
    match ast {
        ParsingResultView::Logical(ps, mode) => (if mode == BackgroundMode::Background {
            seq![InstrView::BackgroundJob(0)]
        } else {
            Seq::empty()
        }) + pipelines_code(ps),
        _ => Seq::empty(),
    }
}

/// A jump with its distance set to `d`; other instructions stay.
pub open spec fn fix_jump(i: InstrView, d: int) -> InstrView {
    match i {
        InstrView::JumpIfNot(_) => InstrView::JumpIfNot(d),
        InstrView::BackgroundJob(_) => InstrView::BackgroundJob(d),
        _ => i,
    }
}

/// The code of a parse result: every jump of a logical expression leads to the end of the
/// expression's code.
pub open spec fn compiled(ast: ParsingResultView) -> Seq<InstrView> {
    let c = raw_code(ast);
    Seq::new(c.len(), |k: int| fix_jump(c[k], c.len() - k))
}

fn compile_command(instructions: &mut Instructions, pipeline_command: &PipelineCommand, is_last: bool)
    requires
        old(instructions)@.len() + command_code(pipeline_command@, is_last).len() <= usize::MAX,
    ensures
        instrs_view(final(instructions)@) == instrs_view(old(instructions)@) + command_code(pipeline_command@, is_last),
{
    let ghost start = instrs_view(instructions@);
    let Command::Program(args) = &pipeline_command.command;
    let ghost ws = spans_view(args@);
    let mut k: usize = 0;
    proof {
        assert(ws.take(0) =~= Seq::<SpanView>::empty());
        assert(start + words_code(ws.take(0)) =~= start);
    }
    while k < args.len()
        invariant
            ws == spans_view(args@),
            k <= args@.len(),
            instrs_view(instructions@) == start + words_code(ws.take(k as int)),
            start.len() + command_code(pipeline_command@, is_last).len() <= usize::MAX,
            words_code(ws).len() <= command_code(pipeline_command@, is_last).len(),
            pipeline_command@.words == ws,
        decreases args@.len() - k,
    {
        proof {
            assert(ws.take(k + 1).drop_last() =~= ws.take(k as int));
            assert(ws.take(k + 1).last() == ws[k as int]);
            assert(ws[k as int].fragment == args@[k as int].fragment@);
            lemma_words_code_prefix(ws, k + 1);
        }
        let ghost before = instructions@;
        instructions.push(Instruction::Lit(args[k].fragment.clone()));
        instructions.push(Instruction::Word);
        if k == 0 {
            instructions.push(Instruction::SetProgram);
        }
        proof {
            let added = seq![InstrView::Lit(ws[k as int].fragment), InstrView::Word] + if k == 0 {
                seq![InstrView::SetProgram]
            } else {
                Seq::empty()
            };
            assert(instrs_view(instructions@) =~= instrs_view(before) + added);
            assert(words_code(ws.take(k + 1)) == words_code(ws.take(k as int)) + added);
            assert(instrs_view(instructions@) =~= start + words_code(ws.take(k + 1)));
        }
        k = k + 1;
    }
    proof {
        assert(ws.take(k as int) =~= ws);
    }
    let ghost mid = instructions@;
    proof {
        assert(instrs_view(mid) == start + words_code(ws));
    }
    if pipeline_command.operator == PipelineOperator::StderrAndStdout {
        instructions.push(Instruction::Redirect);
    }
    instructions.push(Instruction::Exec(is_last));
    proof {
        let red = if pipeline_command@.operator == PipelineOperator::StderrAndStdout {
            seq![InstrView::Redirect]
        } else {
            Seq::empty()
        };
        assert(instrs_view(instructions@) =~= instrs_view(mid) + red + seq![InstrView::Exec(is_last)]);
        assert(command_code(pipeline_command@, is_last) == words_code(ws) + red + seq![InstrView::Exec(is_last)]);
        assert(instrs_view(instructions@) =~= instrs_view(old(instructions)@) + command_code(pipeline_command@, is_last));
    }
}

/// The code of a prefix of the words is no longer than the code of all words.
proof fn lemma_words_code_prefix(ws: Seq<SpanView>, k: int)
    requires
        0 <= k <= ws.len(),
    ensures
        words_code(ws.take(k)).len() <= words_code(ws).len(),
    decreases ws.len() - k,
{
    if k < ws.len() {
        lemma_words_code_prefix(ws, k + 1);
        assert(ws.take(k + 1).drop_last() =~= ws.take(k));
    } else {
        assert(ws.take(k) =~= ws);
    }
}


proof fn lemma_commands_code_prefix(cs: Seq<PipelineCommandView>, n: int, k: int)
    requires
        0 <= k <= cs.len(),
    ensures
        commands_code(cs.take(k), n).len() <= commands_code(cs, n).len(),
    decreases cs.len() - k,
{
    if k < cs.len() {
        lemma_commands_code_prefix(cs, n, k + 1);
        assert(cs.take(k + 1).drop_last() =~= cs.take(k));
    } else {
        assert(cs.take(k) =~= cs);
    }
}

proof fn lemma_pipelines_code_prefix(ps: Seq<PipelineView>, k: int)
    requires
        0 <= k <= ps.len(),
    ensures
        pipelines_code(ps.take(k)).len() <= pipelines_code(ps).len(),
    decreases ps.len() - k,
{
    if k < ps.len() {
        lemma_pipelines_code_prefix(ps, k + 1);
        assert(ps.take(k + 1).drop_last() =~= ps.take(k));
    } else {
        assert(ps.take(k) =~= ps);
    }
}

fn compile_pipeline(instructions: &mut Instructions, pipeline: &Pipeline)
    requires
        old(instructions)@.len() + pipeline_code(pipeline@).len() <= usize::MAX,
    ensures
        instrs_view(final(instructions)@) == instrs_view(old(instructions)@) + pipeline_code(pipeline@),
{
    let ghost start = instrs_view(instructions@);
    let ghost cs = pipeline@.commands;
    let num_commands = pipeline.commands.len();
    instructions.push(Instruction::Begin);
    proof {
        assert(cs.take(0) =~= Seq::<PipelineCommandView>::empty());
        assert(instrs_view(instructions@) =~= start + seq![InstrView::Begin] + commands_code(cs.take(0), num_commands as int));
    }
    let mut ind: usize = 0;
    while ind < num_commands
        invariant
            cs == pipeline@.commands,
            cs == commands_view(pipeline.commands@),
            num_commands == cs.len(),
            ind <= num_commands,
            instrs_view(instructions@) == start + seq![InstrView::Begin] + commands_code(cs.take(ind as int), num_commands as int),
            start.len() + pipeline_code(pipeline@).len() <= usize::MAX,
            commands_code(cs, num_commands as int).len() + 1 <= pipeline_code(pipeline@).len(),
        decreases num_commands - ind,
    {
        let is_last = (ind + 1) == num_commands;
        proof {
            assert(cs.take(ind + 1).drop_last() =~= cs.take(ind as int));
            assert(cs.take(ind + 1).last() == cs[ind as int]);
            lemma_commands_code_prefix(cs, num_commands as int, ind + 1);
            assert(cs[ind as int] == pipeline.commands@[ind as int]@);
            assert(commands_code(cs.take(ind + 1), num_commands as int) == commands_code(cs.take(ind as int), num_commands as int)
                + command_code(cs[ind as int], ind + 1 == num_commands));
            assert(instructions@.len() == instrs_view(instructions@).len());
        }
        compile_command(instructions, &pipeline.commands[ind], is_last);
        proof {
            assert(instrs_view(instructions@) =~= start + seq![InstrView::Begin] + commands_code(cs.take(ind + 1), num_commands as int));
        }
        ind = ind + 1;
    }
    proof {
        assert(cs.take(ind as int) =~= cs);
    }
    let ghost mid = instrs_view(instructions@);
    instructions.push(Instruction::ForegroundJob);
    match pipeline.operator {
        LogicalOperator::Nothing => {},
        LogicalOperator::Or | LogicalOperator::And => {
            instructions.push(Instruction::Success);
            if pipeline.operator == LogicalOperator::Or {
                instructions.push(Instruction::Not);
            }
            instructions.push(Instruction::JumpIfNot(0));
        },
    }
    proof {
        let tail = match pipeline@.operator {
            LogicalOperator::Nothing => Seq::<InstrView>::empty(),
            LogicalOperator::And => seq![InstrView::Success, InstrView::JumpIfNot(0)],
            LogicalOperator::Or => seq![InstrView::Success, InstrView::Not, InstrView::JumpIfNot(0)],
        };
        assert(instrs_view(instructions@) =~= mid + seq![InstrView::ForegroundJob] + tail);
        assert(instrs_view(instructions@) =~= start + pipeline_code(pipeline@));
    }
}

/// Compile a parse result and append its code to `instructions`. Every jump of a logical
/// expression leads to the end of the expression's code; one run in the background starts
/// with a `BackgroundJob` that counts the instructions of the expression.
pub fn compile(instructions: &mut Instructions, ast: ParsingResult) -> (r: Result<(), String>)
    requires
        old(instructions)@.len() + raw_code(ast@).len() <= usize::MAX,
        raw_code(ast@).len() <= i32::MAX,
    ensures
        r is Ok,
        instrs_view(final(instructions)@) == instrs_view(old(instructions)@) + compiled(ast@),
{
    let ghost start = instrs_view(instructions@);
    match ast {
        ParsingResult::Comment(_) | ParsingResult::Nothing => {
            proof {
                assert(compiled(ast@) =~= Seq::<InstrView>::empty());
                assert(start + compiled(ast@) =~= start);
            }
        },
        ParsingResult::Logical(terms, background_mode) => {
            let ghost ps = pipelines_view(terms@);
            let ghost raw = raw_code(ast@);
            let base = instructions.len();
            if background_mode == BackgroundMode::Background {
                instructions.push(Instruction::BackgroundJob(0));
            }
            let ghost head = if background_mode == BackgroundMode::Background {
                seq![InstrView::BackgroundJob(0)]
            } else {
                Seq::<InstrView>::empty()
            };
            proof {
                assert(ps.take(0) =~= Seq::<PipelineView>::empty());
                assert(instrs_view(instructions@) =~= start + head + pipelines_code(ps.take(0)));
            }
            let mut k: usize = 0;
            while k < terms.len()
                invariant
                    ps == pipelines_view(terms@),
                    raw == head + pipelines_code(ps),
                    k <= terms@.len(),
                    base == start.len(),
                    instrs_view(instructions@) == start + head + pipelines_code(ps.take(k as int)),
                    start.len() + raw.len() <= usize::MAX,
                decreases terms@.len() - k,
            {
                proof {
                    assert(ps.take(k + 1).drop_last() =~= ps.take(k as int));
                    assert(ps.take(k + 1).last() == ps[k as int]);
                    lemma_pipelines_code_prefix(ps, k + 1);
                    assert(ps[k as int] == terms@[k as int]@);
                    assert(pipelines_code(ps.take(k + 1)) == pipelines_code(ps.take(k as int)) + pipeline_code(ps[k as int]));
                    assert(instructions@.len() == instrs_view(instructions@).len());
                }
                compile_pipeline(instructions, &terms[k]);
                proof {
                    assert(instrs_view(instructions@) =~= start + head + pipelines_code(ps.take(k + 1)));
                }
                k = k + 1;
            }
            proof {
                assert(ps.take(k as int) =~= ps);
                assert(instrs_view(instructions@) =~= start + raw);
            }
            let jump_tgt = instructions.len();
            let mut j = base;
            while j < jump_tgt
                invariant
                    base <= j <= jump_tgt,
                    jump_tgt == instructions@.len(),
                    jump_tgt == base + raw.len(),
                    raw.len() <= i32::MAX,
                    instrs_view(instructions@).len() == start.len() + raw.len(),
                    forall|i: int| 0 <= i < base ==> #[trigger] instrs_view(instructions@)[i] == start[i],
                    forall|i: int| base <= i < j ==> #[trigger] instrs_view(instructions@)[i] == fix_jump(raw[i - base], raw.len() - (i - base)),
                    forall|i: int| j <= i < jump_tgt ==> #[trigger] instrs_view(instructions@)[i] == raw[i - base],
                decreases jump_tgt - j,
            {
                let ghost before = instrs_view(instructions@);
                proof {
                    assert(before[j as int] == instructions@[j as int]@);
                    assert(before[j as int] == raw[j - base]);
                }
                let fixed = match &instructions[j] {
                    Instruction::JumpIfNot(_) => Some(Instruction::JumpIfNot((jump_tgt - j) as i32)),
                    Instruction::BackgroundJob(_) => Some(Instruction::BackgroundJob(jump_tgt - j)),
                    _ => None,
                };
                match fixed {
                    Some(ins) => {
                        instructions.set(j, ins);
                    },
                    None => {},
                }
                proof {
                    assert forall|i: int| 0 <= i < base implies #[trigger] instrs_view(instructions@)[i] == start[i] by {
                        assert(instrs_view(instructions@)[i] == before[i]);
                    }
                    assert forall|i: int| base <= i < j + 1 implies #[trigger] instrs_view(instructions@)[i] == fix_jump(raw[i - base], raw.len() - (i - base)) by {
                        if i < j {
                            assert(instrs_view(instructions@)[i] == before[i]);
                        } else {
                            assert(instrs_view(instructions@)[i] == instructions@[i]@);
                        }
                    }
                    assert forall|i: int| j + 1 <= i < jump_tgt implies #[trigger] instrs_view(instructions@)[i] == raw[i - base] by {
                        assert(instrs_view(instructions@)[i] == before[i]);
                    }
                }
                j = j + 1;
            }
            proof {
                assert(instrs_view(instructions@) =~= start + compiled(ast@));
            }
        },
    }
    Ok(())
}


impl Launchpad {
    /// Remove the first argument and return its string.
    fn take_program_name(&mut self) -> (name: String)
        requires
            old(self)@.args.len() >= 1,
            old(self)@.args[0].len() >= 1,
        ensures
            name@ == old(self)@.args[0][0],
            final(self)@ == (LaunchpadView { args: old(self)@.args.remove(0), marker: old(self)@.marker }),
    {
        proof {
            assert(self@.args[0] == stack_view(self.args@[0]@));
        }
        let mut name_stack = self.args.remove(0);
        let name = name_stack.remove(0);
        proof {
            assert(args_view(self.args@) =~= old(self)@.args.remove(0));
        }
        name
    }

    /// Remove all arguments and return the first string of each.
    fn take_words(&mut self) -> (words: Vec<String>)
        requires
            forall|k: int| 0 <= k < old(self)@.args.len() ==> (#[trigger] old(self)@.args[k]).len() >= 1,
        ensures
            stack_view(words@) == first_strings(old(self)@.args),
            final(self)@.args.len() == 0,
            final(self)@.marker == old(self)@.marker,
    {
        let mut words: Vec<String> = Vec::new();
        let ghost a = self@.args;
        let mut k: usize = 0;
        while k < self.args.len()
            invariant
                a == args_view(self.args@),
                k <= self.args@.len(),
                forall|j: int| 0 <= j < a.len() ==> (#[trigger] a[j]).len() >= 1,
                stack_view(words@) == first_strings(a).take(k as int),
            decreases self.args@.len() - k,
        {
            proof {
                assert(a[k as int] == stack_view(self.args@[k as int]@));
                assert(a[k as int][0] == self.args@[k as int]@[0]@);
            }
            let w = self.args[k][0].clone();
            let ghost before = words@;
            words.push(w);
            proof {
                assert(stack_view(words@) =~= stack_view(before).push(w@));
                assert(first_strings(a)[k as int] == a[k as int][0]);
                assert(first_strings(a).take(k + 1) =~= first_strings(a).take(k as int).push(first_strings(a)[k as int]));
            }
            k = k + 1;
        }
        proof {
            assert(first_strings(a).take(k as int) =~= first_strings(a));
        }
        self.args = Vec::new();
        proof {
            assert(args_view(self.args@) =~= Seq::<Seq<Seq<char>>>::empty());
        }
        words
    }
}

/// The first string of each argument.
pub open spec fn first_strings(args: Seq<Seq<Seq<char>>>) -> Seq<Seq<char>> {
    args.map_values(|a: Seq<Seq<char>>| a[0])
}

/// What the host of the interpreter is asked to do after an instruction.
#[derive(Debug, PartialEq, Eq)]
pub enum Effect {
    /// Nothing.
    Nothing,
    /// Start building a new pipeline job.
    BeginPipeline,
    /// Name the program of the pipeline being built.
    SetProgram(String),
    /// Start a program of the pipeline with these arguments; true for the last one.
    Start(bool, Vec<String>),
    /// Run the pipeline in the foreground, then report its exit status.
    ForegroundJob,
    /// Run instructions `start..end` in a shell of their own in the background.
    BackgroundJob(usize, usize),
    /// The instruction needs a pipeline, but none is being built.
    MissingPipeline,
    /// A jump left the range of instructions; the run ends.
    OutOfRange,
    /// The instruction is not handled.
    Unhandled,
}

/// An effect as a value.
pub enum EffectView {
    Nothing,
    BeginPipeline,
    SetProgram(Seq<char>),
    Start(bool, Seq<Seq<char>>),
    ForegroundJob,
    BackgroundJob(int, int),
    MissingPipeline,
    OutOfRange,
    Unhandled,
}

impl View for Effect {
    type V = EffectView;

    open spec fn view(&self) -> EffectView {
        match self {
            Effect::Nothing => EffectView::Nothing,
            Effect::BeginPipeline => EffectView::BeginPipeline,
            Effect::SetProgram(s) => EffectView::SetProgram(s@),
            Effect::Start(b, v) => EffectView::Start(*b, stack_view(v@)),
            Effect::ForegroundJob => EffectView::ForegroundJob,
            Effect::BackgroundJob(a, b) => EffectView::BackgroundJob(*a as int, *b as int),
            Effect::MissingPipeline => EffectView::MissingPipeline,
            Effect::OutOfRange => EffectView::OutOfRange,
            Effect::Unhandled => EffectView::Unhandled,
        }
    }
}

/// The state of the interpreter that its decisions depend on: the launchpad for arguments,
/// the data stack, and the exit status of the last foreground job.
pub struct RunnerState {
    launchpad: Launchpad,
    data_stack: Stack,
    last_exit_status: i32,
}

/// The interpreter state as a value.
pub struct RunnerView {
    pub launchpad: LaunchpadView,
    pub stack: Seq<ValueView>,
    pub last_exit_status: i32,
}

impl View for RunnerState {
    type V = RunnerView;

    closed spec fn view(&self) -> RunnerView {
        RunnerView { launchpad: self.launchpad@, stack: self.data_stack@, last_exit_status: self.last_exit_status }
    }
}

/// The boolean on top of the stack, false for an empty stack, and the stack without it.
pub open spec fn popped_bool(stack: Seq<ValueView>) -> (bool, Seq<ValueView>) {
    if stack.len() == 0 {
        (false, stack)
    } else {
        (bool_of(stack.last()), stack.drop_last())
    }
}

/// Where a jump by `delta` from `ip` goes, and whether it left the run's range `start..end`
/// (then the run goes on at `end`, that is, it stops).
pub open spec fn jump_target(ip: int, delta: int, start: int, end: int) -> (int, bool) {
    if start <= ip + delta < end {
        (ip + delta, false)
    } else {
        (end, true)
    }
}

/// The state, the next instruction pointer and the effect after the instruction at `ip`.
pub open spec fn spec_step(st: RunnerView, ins: InstrView, ip: int, start: int, end: int, has_pipeline: bool) -> (RunnerView, int, EffectView) {
    match ins {
        InstrView::Begin => (st, ip + 1, EffectView::BeginPipeline),
        InstrView::Lit(s) => (RunnerView { launchpad: lp_lit(st.launchpad, s), ..st }, ip + 1, EffectView::Nothing),
        InstrView::Word => (RunnerView { launchpad: lp_finalized(st.launchpad), ..st }, ip + 1, EffectView::Nothing),
        InstrView::SetProgram => {
            let f = lp_finalized(st.launchpad);
            if has_pipeline {
                (
                    RunnerView { launchpad: LaunchpadView { args: f.args.remove(0), marker: f.marker }, ..st },
                    ip + 1,
                    EffectView::SetProgram(f.args[0][0]),
                )
            } else {
                (RunnerView { launchpad: f, ..st }, ip + 1, EffectView::MissingPipeline)
            }
        },
        InstrView::Exec(last) => {
            let f = lp_finalized(st.launchpad);
            (
                RunnerView { launchpad: LaunchpadView { args: Seq::empty(), marker: 0 }, ..st },
                ip + 1,
                if has_pipeline {
                    EffectView::Start(last, first_strings(f.args))
                } else {
                    EffectView::MissingPipeline
                },
            )
        },
        InstrView::ForegroundJob => (st, ip + 1, if has_pipeline {
            EffectView::ForegroundJob
        } else {
            EffectView::MissingPipeline
        }),
        InstrView::Success => (
            RunnerView { stack: st.stack.push(ValueView::Bool(st.last_exit_status == 0)), ..st },
            ip + 1,
            EffectView::Nothing,
        ),
        InstrView::Not => {
            let (b, rest) = popped_bool(st.stack);
            (RunnerView { stack: rest.push(ValueView::Bool(!b)), ..st }, ip + 1, EffectView::Nothing)
        },
        InstrView::JumpIfNot(delta) => {
            let (b, rest) = popped_bool(st.stack);
            let st1 = RunnerView { stack: rest, ..st };
            if b {
                (st1, ip + 1, EffectView::Nothing)
            } else {
                let (t, out) = jump_target(ip, delta as int, start, end);
                (st1, t, if out {
                    EffectView::OutOfRange
                } else {
                    EffectView::Nothing
                })
            }
        },
        InstrView::BackgroundJob(n) => (st, ip + n, EffectView::BackgroundJob(ip + 1, ip + n)),
        InstrView::Redirect => (st, ip + 1, EffectView::Unhandled),
    }
}

/// The instruction at `ip` can be carried out without leaving the machine's integers.
pub open spec fn step_ok(st: RunnerView, ins: InstrView, ip: int, end: int, has_pipeline: bool) -> bool {
    &&& lp_ok(st.launchpad)
    &&& 0 <= ip < end
    &&& end + 0x8000_0001 <= usize::MAX
    &&& match ins {
        InstrView::SetProgram => has_pipeline ==> lp_finalized(st.launchpad).args.len() >= 1,
        InstrView::BackgroundJob(n) => n >= 1 && ip + n <= usize::MAX,
        _ => true,
    }
}

pub proof fn lemma_finalized_ok(lp: LaunchpadView)
    requires
        lp_ok(lp),
    ensures
        forall|k: int| 0 <= k < lp_finalized(lp).args.len() ==> (#[trigger] lp_finalized(lp).args[k]).len() == 1,
        lp_ok(lp_finalized(lp)),
{
}

/// The exit code of a job: that of the last of its programs that failed (exited with a code
/// other than 0), 0 if none did. A program that gave no exit code is passed over.
pub open spec fn spec_job_exit_code(codes: Seq<Option<i32>>) -> i32
    decreases codes.len(),
{
    if codes.len() == 0 {
        0
    } else {
        match codes.last() {
            Some(c) => if c != 0 {
                c
            } else {
                spec_job_exit_code(codes.drop_last())
            },
            None => spec_job_exit_code(codes.drop_last()),
        }
    }
}

/// The exit code of a job from the exit codes of its programs, in the order of the pipeline.
pub fn job_exit_code(codes: &Vec<Option<i32>>) -> (c: i32)
    ensures
        c == spec_job_exit_code(codes@),
{
    let mut k: usize = codes.len();
    proof {
        assert(codes@.take(k as int) =~= codes@);
    }
    while k > 0
        invariant
            k <= codes@.len(),
            spec_job_exit_code(codes@) == spec_job_exit_code(codes@.take(k as int)),
        decreases k,
    {
        proof {
            assert(codes@.take(k as int).drop_last() =~= codes@.take(k - 1));
            assert(codes@.take(k as int).last() == codes@[k - 1]);
        }
        match codes[k - 1] {
            Some(c) => {
                if c != 0 {
                    return c;
                }
            },
            None => {},
        }
        k = k - 1;
    }
    proof {
        assert(codes@.take(0) =~= Seq::<Option<i32>>::empty());
    }
    0
}

impl RunnerState {
    pub fn new() -> (r: Self)
        ensures
            r@.launchpad == (LaunchpadView { args: Seq::empty(), marker: 0 }),
            r@.stack == Seq::<ValueView>::empty(),
            r@.last_exit_status == 0,
            lp_ok(r@.launchpad),
    {
        RunnerState { launchpad: Launchpad::new(), data_stack: Stack::new(), last_exit_status: 0 }
    }

    /// The exit status of the last foreground job.
    pub fn last_exit_status(&self) -> (s: i32)
        ensures
            s == self@.last_exit_status,
    {
        self.last_exit_status
    }

    /// Record the exit status of the last foreground job.
    pub fn set_last_exit_status(&mut self, status: i32)
        ensures
            final(self)@ == (RunnerView { last_exit_status: status, ..old(self)@ }),
    {
        self.last_exit_status = status;
    }

    /// Whether the instruction at `ip` can be carried out by `step`: the run's range and the
    /// instruction's operands stay inside the machine's integers, and a program name is there
    /// to be taken.
    pub fn can_step(&self, instructions: &Instructions, ip: usize, end: usize, has_pipeline: bool) -> (b: bool)
        ensures
            b == (end <= instructions@.len() && ip < end && step_ok(self@, instructions@[ip as int]@, ip as int, end as int, has_pipeline)),
    {
        if end > instructions.len() || ip >= end || end > usize::MAX - 0x8000_0001 {
            return false;
        }
        let args = &self.launchpad.args;
        let marker = self.launchpad.marker;
        let mut k: usize = 0;
        while k < marker && k < args.len()
            invariant
                k <= args@.len(),
                args == &self.launchpad.args,
                marker == self.launchpad.marker,
                forall|j: int| 0 <= j < k ==> (#[trigger] self@.launchpad.args[j]).len() == 1,
            decreases args@.len() - k,
        {
            proof {
                assert(self@.launchpad.args[k as int] == stack_view(args@[k as int]@));
            }
            if args[k].len() != 1 {
                return false;
            }
            k = k + 1;
        }
        proof {
            assert(lp_ok(self@.launchpad));
        }
        match &instructions[ip] {
            Instruction::SetProgram => !has_pipeline || args.len() >= 1,
            Instruction::BackgroundJob(n) => *n >= 1 && ip <= usize::MAX - *n,
            _ => true,
        }
    }

    /// Carry out the instruction at `ip` of `instructions`, run over `start..end`: the next
    /// instruction pointer, and what the host has to do. `has_pipeline` tells whether a
    /// pipeline is being built.
    pub fn step(&mut self, instructions: &Instructions, ip: usize, start: usize, end: usize, has_pipeline: bool) -> (r: (usize, Effect))
        requires
            end <= instructions@.len(),
            step_ok(old(self)@, instructions@[ip as int]@, ip as int, end as int, has_pipeline),
        ensures
            (final(self)@, r.0 as int, r.1@) == spec_step(old(self)@, instructions@[ip as int]@, ip as int, start as int, end as int, has_pipeline),
            lp_ok(final(self)@.launchpad),
    {
        proof {
            lemma_finalized_ok(self@.launchpad);
        }
        match &instructions[ip] {
            Instruction::Begin => (ip + 1, Effect::BeginPipeline),
            Instruction::Lit(s) => {
                self.launchpad.lit(s.as_str());
                (ip + 1, Effect::Nothing)
            },
            Instruction::Word => {
                self.launchpad.finalize_words();
                (ip + 1, Effect::Nothing)
            },
            Instruction::SetProgram => {
                self.launchpad.finalize_words();
                if has_pipeline {
                    let name = self.launchpad.take_program_name();
                    proof {
                        assert(lp_ok(self@.launchpad));
                    }
                    (ip + 1, Effect::SetProgram(name))
                } else {
                    (ip + 1, Effect::MissingPipeline)
                }
            },
            Instruction::Exec(is_last) => {
                self.launchpad.finalize_words();
                let effect = if has_pipeline {
                    let args = self.launchpad.take_words();
                    Effect::Start(*is_last, args)
                } else {
                    Effect::MissingPipeline
                };
                self.launchpad.clear();
                (ip + 1, effect)
            },
            Instruction::ForegroundJob => {
                if has_pipeline {
                    (ip + 1, Effect::ForegroundJob)
                } else {
                    (ip + 1, Effect::MissingPipeline)
                }
            },
            Instruction::Success => {
                let success = self.last_exit_status == 0;
                self.data_stack.push_bool(success);
                (ip + 1, Effect::Nothing)
            },
            Instruction::Not => {
                let b = self.data_stack.pop_bool(false);
                self.data_stack.push_bool(!b);
                (ip + 1, Effect::Nothing)
            },
            Instruction::JumpIfNot(delta) => {
                let b = self.data_stack.pop_bool(false);
                if !b {
                    let target: Option<usize> = if *delta < 0 {
                        let m = (-(*delta as i64)) as usize;
                        if ip >= m && ip - m >= start {
                            Some(ip - m)
                        } else {
                            None
                        }
                    } else {
                        let m = *delta as usize;
                        if ip + m < end && ip + m >= start {
                            Some(ip + m)
                        } else {
                            None
                        }
                    };
                    match target {
                        Some(t) => (t, Effect::Nothing),
                        None => (end, Effect::OutOfRange),
                    }
                } else {
                    (ip + 1, Effect::Nothing)
                }
            },
            Instruction::BackgroundJob(len) => (ip + *len, Effect::BackgroundJob(ip + 1, ip + *len)),
            Instruction::Redirect => (ip + 1, Effect::Unhandled),
        }
    }
}

// ---------------------------------------------------------------------------------------------
// Whole scripts

/// The code of a list of words has two instructions per word and one to set the program.
proof fn lemma_words_code_len(ws: Seq<SpanView>)
    ensures
        words_code(ws).len() == 2 * ws.len() + if ws.len() > 0 {
            1int
        } else {
            0int
        },
    decreases ws.len(),
{
    if ws.len() > 0 {
        lemma_words_code_len(ws.drop_last());
    }
}

/// The length of the code of one command of a pipeline.
pub open spec fn command_len(c: PipelineCommandView) -> int {
    2 * c.words.len() + (if c.words.len() > 0 {
        1int
    } else {
        0int
    }) + (if c.operator == PipelineOperator::StderrAndStdout {
        1int
    } else {
        0int
    }) + 1
}

/// The length of the code of the logical operator after a pipeline.
pub open spec fn operator_len(o: LogicalOperator) -> int {
    match o {
        LogicalOperator::Nothing => 0,
        LogicalOperator::And => 2,
        LogicalOperator::Or => 3,
    }
}

proof fn lemma_commands_code_step(cs: Seq<PipelineCommandView>, n: int, k: int)
    requires
        0 <= k < cs.len(),
    ensures
        commands_code(cs.take(k + 1), n).len() == commands_code(cs.take(k), n).len() + command_len(cs[k]),
{
    assert(cs.take(k + 1).drop_last() =~= cs.take(k));
    lemma_words_code_len(cs[k].words);
}

proof fn lemma_pipelines_code_step(ps: Seq<PipelineView>, k: int)
    requires
        0 <= k < ps.len(),
    ensures
        pipelines_code(ps.take(k + 1)).len() == pipelines_code(ps.take(k)).len() + pipeline_code(ps[k]).len(),
{
    assert(ps.take(k + 1).drop_last() =~= ps.take(k));
}

proof fn lemma_commands_code_mono(cs: Seq<PipelineCommandView>, n: int, j: int, k: int)
    requires
        0 <= j <= k <= cs.len(),
    ensures
        commands_code(cs.take(j), n).len() <= commands_code(cs.take(k), n).len(),
    decreases k - j,
{
    if j < k {
        lemma_commands_code_step(cs, n, k - 1);
        lemma_commands_code_mono(cs, n, j, k - 1);
    }
}

proof fn lemma_pipelines_code_mono(ps: Seq<PipelineView>, j: int, k: int)
    requires
        0 <= j <= k <= ps.len(),
    ensures
        pipelines_code(ps.take(j)).len() <= pipelines_code(ps.take(k)).len(),
    decreases k - j,
{
    if j < k {
        lemma_pipelines_code_step(ps, k - 1);
        lemma_pipelines_code_mono(ps, j, k - 1);
    }
}

/// The length of the code of a pipeline, if it fits a `usize`.
fn pipeline_len(p: &Pipeline) -> (r: Option<usize>)
    ensures
        r == if pipeline_code(p@).len() <= usize::MAX {
            Some(pipeline_code(p@).len() as usize)
        } else {
            None::<usize>
        },
{
    let ghost cs = commands_view(p.commands@);
    let ghost n = cs.len() as int;
    let mut acc: usize = 2;
    let mut k: usize = 0;
    proof {
        assert(cs.take(0) =~= Seq::<PipelineCommandView>::empty());
    }
    while k < p.commands.len()
        invariant
            cs == commands_view(p.commands@),
            n == cs.len(),
            k <= cs.len(),
            acc == 2 + commands_code(cs.take(k as int), n).len(),
        decreases cs.len() - k,
    {
        let c = &p.commands[k];
        let Command::Program(words) = &c.command;
        proof {
            lemma_commands_code_step(cs, n, k as int);
            assert(cs[k as int] == c@);
        }
        let w = words.len();
        let extra: usize = if c.operator == PipelineOperator::StderrAndStdout { 2 } else { 1 };
        let setp: usize = if w > 0 { 1 } else { 0 };
        let step = match w.checked_mul(2) {
            Some(d) => match d.checked_add(setp + extra) {
                Some(x) => x,
                None => {
                    proof {
                        lemma_commands_code_mono(cs, n, k + 1, n);
                        assert(cs.take(n) =~= cs);
                    }
                    return None;
                },
            },
            None => {
                proof {
                    lemma_commands_code_mono(cs, n, k + 1, n);
                    assert(cs.take(n) =~= cs);
                }
                return None;
            },
        };
        match acc.checked_add(step) {
            Some(a) => {
                acc = a;
            },
            None => {
                proof {
                    lemma_commands_code_mono(cs, n, k + 1, n);
                    assert(cs.take(n) =~= cs);
                }
                return None;
            },
        }
        k = k + 1;
    }
    proof {
        assert(cs.take(n) =~= cs);
    }
    let op: usize = match p.operator {
        LogicalOperator::Nothing => 0,
        LogicalOperator::And => 2,
        LogicalOperator::Or => 3,
    };
    acc.checked_add(op)
}

/// The length of the code of a sequence of pipelines, if it fits a `usize`.
fn pipelines_len(terms: &Vec<Pipeline>) -> (r: Option<usize>)
    ensures
        r == if pipelines_code(pipelines_view(terms@)).len() <= usize::MAX {
            Some(pipelines_code(pipelines_view(terms@)).len() as usize)
        } else {
            None::<usize>
        },
{
    let ghost ps = pipelines_view(terms@);
    let mut acc: usize = 0;
    let mut k: usize = 0;
    proof {
        assert(ps.take(0) =~= Seq::<PipelineView>::empty());
    }
    while k < terms.len()
        invariant
            ps == pipelines_view(terms@),
            k <= ps.len(),
            acc == pipelines_code(ps.take(k as int)).len(),
        decreases ps.len() - k,
    {
        proof {
            lemma_pipelines_code_step(ps, k as int);
            lemma_pipelines_code_mono(ps, k + 1, ps.len() as int);
            assert(ps.take(ps.len() as int) =~= ps);
            assert(ps[k as int] == terms@[k as int]@);
        }
        let pl = pipeline_len(&terms[k]);
        match pl {
            Some(l) => match acc.checked_add(l) {
                Some(a) => {
                    acc = a;
                },
                None => {
                    return None;
                },
            },
            None => {
                return None;
            },
        }
        k = k + 1;
    }
    proof {
        assert(ps.take(ps.len() as int) =~= ps);
    }
    Some(acc)
}

/// The length of the code of a parse result before its jumps are fixed, if it fits a `usize`.
fn code_len(ast: &ParsingResult) -> (r: Option<usize>)
    ensures
        r == if raw_code(ast@).len() <= usize::MAX {
            Some(raw_code(ast@).len() as usize)
        } else {
            None::<usize>
        },
{
    match ast {
        ParsingResult::Logical(terms, mode) => {
            let head: usize = if *mode == BackgroundMode::Background { 1 } else { 0 };
            match pipelines_len(terms) {
                Some(l) => head.checked_add(l),
                None => None,
            }
        },
        _ => Some(0),
    }
}

/// What parsing a whole script gives.
pub enum ScriptOutcome {
    /// The code of the script.
    Code(Seq<InstrView>),
    /// The script could not be parsed from the start of this span on.
    ParseFailed(SpanView),
    /// The code does not fit the limits of an index or a jump.
    TooLong,
}

/// The outcome with `code` in front of the code it holds.
pub open spec fn prepend(code: Seq<InstrView>, o: ScriptOutcome) -> ScriptOutcome {
    match o {
        ScriptOutcome::Code(c) => ScriptOutcome::Code(code + c),
        _ => o,
    }
}

/// Parsing a script command by command from `sp` on, where `done` instructions precede it:
/// each command is compiled and its code appended, until the text is used up, a command
/// cannot be parsed, or the code would not fit.
pub open spec fn parse_outcome(sp: SpanView, done: int) -> ScriptOutcome
    decreases sp.fragment.len(),
{
    if sp.fragment.len() == 0 {
        ScriptOutcome::Code(Seq::empty())
    } else {
        match spec_script(sp) {
            Some((rest, p)) => if rest.fragment.len() >= sp.fragment.len() {
                ScriptOutcome::ParseFailed(sp)
            } else if raw_code(p).len() > i32::MAX || done + raw_code(p).len() > usize::MAX {
                ScriptOutcome::TooLong
            } else {
                prepend(compiled(p), parse_outcome(rest, done + raw_code(p).len()))
            },
            None => ScriptOutcome::ParseFailed(sp),
        }
    }
}

/// Putting two pieces of code in front of an outcome one after the other puts both in front.
proof fn lemma_prepend_twice(a: Seq<InstrView>, b: Seq<InstrView>, o: ScriptOutcome)
    ensures
        prepend(a, prepend(b, o)) == prepend(a + b, o),
{
    match o {
        ScriptOutcome::Code(c) => {
            assert(a + (b + c) =~= (a + b) + c);
        },
        _ => {},
    }
}

/// Parse a (partial) script and either return the byte code or an error message: `Error: `
/// and the text from where parsing failed on, or a note that the code is too long.
#[verifier::spinoff_prover]
#[verifier::rlimit(40)]
pub fn parse_script(script: &String) -> (r: Result<Instructions, String>)
    requires
        count_nl(script@) < u32::MAX,
    ensures
        match parse_outcome(SpanView { offset: 0, line: 1, fragment: script@ }, 0) {
            ScriptOutcome::Code(c) => r matches Ok(v) && instrs_view(v@) == c,
            ScriptOutcome::ParseFailed(sp) => r matches Err(m) && m@ == "Error: "@ + sp.fragment,
            ScriptOutcome::TooLong => r matches Err(m) && m@ == "Error: script too long"@,
        },
{
    let mut instructions: Instructions = Vec::new();
    let mut input = Span::new(script.as_str());
    let ghost init = input@;
    let bytes = script.as_str().as_bytes();
    let _ = bytes.len();
    proof {
        assert(encode_utf8(script@).len() <= usize::MAX);
        assert(instrs_view(instructions@) =~= Seq::<InstrView>::empty());
        assert(prepend(Seq::<InstrView>::empty(), parse_outcome(init, 0)) == parse_outcome(init, 0)) by {
            match parse_outcome(init, 0) {
                ScriptOutcome::Code(c) => {
                    assert(Seq::<InstrView>::empty() + c =~= c);
                },
                _ => {},
            }
        }
    }
    while input.fragment.as_str().len() != 0
        invariant
            span_fits(input@),
            init == (SpanView { offset: 0, line: 1, fragment: script@ }),
            parse_outcome(init, 0) == prepend(instrs_view(instructions@), parse_outcome(input@, instructions@.len() as int)),
        decreases input@.fragment.len(),
    {
        proof {
            crate::utf8_text::lemma_encode_len_ge(input@.fragment);
        }
        match crate::parser::script(&input) {
            Ok((rest, ast)) => {
                let ghost p = ast@;
                let n = code_len(&ast);
                let fits = match n {
                    Some(k) => k <= 2147483647 && instructions.len() <= usize::MAX - k,
                    None => false,
                };
                if !fits {
                    proof {
                        assert(input@.fragment.len() != 0);
                        assert(spec_script(input@) == Some((rest@, p)));
                        assert(parse_outcome(input@, instructions@.len() as int) == ScriptOutcome::TooLong);
                    }
                    let mut msg = String::new();
                    string_push_str(&mut msg, "Error: script too long");
                    proof {
                        assert(msg@ =~= "Error: script too long"@);
                    }
                    return Err(msg);
                }
                let ghost before = instrs_view(instructions@);
                let _ = compile(&mut instructions, ast);
                proof {
                    assert(input@.fragment.len() != 0);
                    assert(spec_script(input@) == Some((rest@, p)));
                    lemma_prepend_twice(before, compiled(p), parse_outcome(rest@, instructions@.len() as int));
                }
                input = rest;
            },
            Err(_) => {
                proof {
                    assert(input@.fragment.len() != 0);
                    assert(spec_script(input@) is None);
                    assert(parse_outcome(input@, instructions@.len() as int) == ScriptOutcome::ParseFailed(input@));
                }
                let mut msg = String::new();
                string_push_str(&mut msg, "Error: ");
                string_push_str(&mut msg, input.fragment.as_str());
                proof {
                    assert(msg@ =~= "Error: "@ + input@.fragment);
                }
                return Err(msg);
            },
        }
    }
    proof {
        if input@.fragment.len() > 0 {
            crate::utf8_text::lemma_encode_len_ge(input@.fragment);
        }
        assert(instrs_view(instructions@) + Seq::<InstrView>::empty() =~= instrs_view(instructions@));
    }
    Ok(instructions)
}

} // verus!

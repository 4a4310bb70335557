//! Generic types of the model: commands as a parser of command lines returns them.

use vstd::prelude::*;

verus! {

/// Command as returned by the bash parser.
#[derive(Debug, PartialEq, Eq)]
pub enum ParsedCommand {
    /// Parser demands more input
    Incomplete,
    /// Parsing error
    Error(Vec<String>),
    /// No command, e.g. due to empty input
    Nothing,
    /// Command sequence: a tree of depth three at most. Level 0 holds the commands of a
    /// pipeline, level 1 the commands separated by & and ;, level 2 those separated by && and
    /// ||. Commands at a level are evaluated left to right.
    CommandSequence(Vec<CommandLogic>),
}

/// A list of pipelines.
#[derive(Debug, PartialEq, Eq)]
pub struct CommandLogic {
    pub pipelines: Vec<Pipeline>,
}

/// A pipeline.
#[derive(Debug, PartialEq, Eq)]
pub struct Pipeline {
    pub commands: Vec<Command>,
    pub reaction: CommandReaction,
    pub invert: bool,
}

/// A command and its parameters.
#[derive(Debug, PartialEq, Eq)]
pub struct Command {
    pub words: Vec<String>,
}

/// How to react on the failure of a command.
#[derive(Clone, Copy, Debug, PartialEq, Eq, Structural)]
pub enum CommandReaction {
    /// Execute the next command
    Normal,
    /// Send to background
    Background,
    /// Short-cut AND
    And,
    /// Short-cut OR
    Or,
}

/// Assignment part of a command.
#[derive(Debug, PartialEq, Eq)]
pub struct Assignment {
    /// name of the variable to assign
    pub name: String,
    /// Value to be assigned
    pub value: String,
}

/// A segment that can be expanded.
#[derive(Debug, PartialEq, Eq)]
pub enum ExpSpan {
    /// Copy this string
    Verbatim(String),
    /// Add the content of this variable.
    Variable(String),
    /// Add $HOME
    Tilde,
    /// Data for bracket expansion
    Bracket(Vec<String>),
    /// Add file names
    Glob(String),
}

/// The structure that comes from parsing an expansion.
pub type Expansion = Vec<ExpSpan>;

/// The reactions of the pipelines of a list.
pub open spec fn reactions(ps: Seq<Pipeline>) -> Seq<CommandReaction> {
    ps.map_values(|p: Pipeline| p.reaction)
}

impl Pipeline {
    /// A pipeline of one command, which runs normally.
    pub fn new(command: Command) -> (p: Self)
        ensures
            p.commands@ == seq![command],
            p.reaction == CommandReaction::Normal,
            !p.invert,
    {
        let mut commands: Vec<Command> = Vec::new();
        commands.push(command);
        Self { commands, reaction: CommandReaction::Normal, invert: false }
    }

    pub fn set_reaction(&mut self, reaction: CommandReaction)
        ensures
            final(self).reaction == reaction,
            final(self).commands == old(self).commands,
            final(self).invert == old(self).invert,
    {
        self.reaction = reaction;
    }
}

impl Command {
    pub fn new(words: Vec<String>) -> (c: Self)
        ensures
            c.words == words,
    {
        Self { words }
    }
}

impl Assignment {
    pub fn new(name: String, value: String) -> (a: Self)
        ensures
            a.name == name,
            a.value == value,
    {
        Self { name, value }
    }
}

impl CommandLogic {
    pub fn new(pipelines: Vec<Pipeline>) -> (c: Self)
        ensures
            c.pipelines == pipelines,
    {
        Self { pipelines }
    }

    /// Set the reaction of the last pipeline, if there is one.
    pub fn set_reaction(&mut self, reaction: CommandReaction)
        ensures
            final(self).pipelines@.len() == old(self).pipelines@.len(),
            forall|i: int| 0 <= i < old(self).pipelines@.len() - 1 ==> #[trigger] final(self).pipelines@[i] == old(self).pipelines@[i],
            old(self).pipelines@.len() > 0 ==> ({
                let k = old(self).pipelines@.len() - 1;
                &&& final(self).pipelines@[k].reaction == reaction
                &&& final(self).pipelines@[k].commands == old(self).pipelines@[k].commands
                &&& final(self).pipelines@[k].invert == old(self).pipelines@[k].invert
            }),
    {
        let n = self.pipelines.len();
        if n > 0 {
            self.pipelines[n - 1].set_reaction(reaction);
        }
    }
}

impl ParsedCommand {
    /// A command sequence of the lists; the reaction, if any, goes to the last pipeline of the
    /// last list.
    pub fn new_sequence(logic: Vec<CommandLogic>, last_reaction: Option<CommandReaction>) -> (r: Self)
        ensures
            r matches ParsedCommand::CommandSequence(v) && v@.len() == logic@.len() && (forall|i: int|
                0 <= i < logic@.len() - 1 ==> #[trigger] v@[i] == logic@[i]) && (logic@.len() > 0 ==> {
                let k = logic@.len() - 1;
                let old_ps = logic@[k].pipelines@;
                let new_ps = v@[k].pipelines@;
                &&& new_ps.len() == old_ps.len()
                &&& forall|j: int| 0 <= j < old_ps.len() - 1 ==> #[trigger] new_ps[j] == old_ps[j]
                &&& old_ps.len() > 0 ==> {
                    &&& new_ps[old_ps.len() - 1].reaction == match last_reaction {
                        Some(x) => x,
                        None => old_ps[old_ps.len() - 1].reaction,
                    }
                    &&& new_ps[old_ps.len() - 1].commands == old_ps[old_ps.len() - 1].commands
                    &&& new_ps[old_ps.len() - 1].invert == old_ps[old_ps.len() - 1].invert
                }
            }),
    {
        let mut logic = logic;
        if let Some(last_reaction) = last_reaction {
            let n = logic.len();
            if n > 0 {
                logic[n - 1].set_reaction(last_reaction);
            }
        }
        ParsedCommand::CommandSequence(logic)
    }
}

} // verus!

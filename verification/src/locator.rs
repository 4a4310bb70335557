//! Locate a specific line in a session.
//!
//! Every locator ends in a line index inside the part of the session it names.

use vstd::prelude::*;

verus! {

/// Where in which part of a response the line is.
#[derive(Clone, Copy, Debug, PartialEq, Eq, Structural)]
pub enum ResponseLocator {
    Lines(usize),
    Screen(usize),
}

/// Where in which part of an interaction the line is.
#[derive(Clone, Copy, Debug, PartialEq, Eq, Structural)]
pub enum InteractionLocator {
    Command(usize),
    Tui(usize),
    /// Index of the line in the response; which response is meant is up to the caller.
    Response(ResponseLocator),
}

/// Where in which part of a conversation the line is.
#[derive(Clone, Copy, Debug, PartialEq, Eq, Structural)]
pub enum ConversationLocator {
    /// Index of interaction and position in it.
    Interaction(usize, InteractionLocator),
    Prompt(usize),
}

/// The location of a line in a session.
#[derive(Clone, Copy, Debug, PartialEq, Eq, Structural)]
pub struct SessionLocator {
    /// Index of conversation
    pub conversation: usize,
    /// Where in the conversation is the line
    pub in_conversation: ConversationLocator,
}

/// A locator or none.
pub type MaybeSessionLocator = Option<SessionLocator>;

/// The line index at the end of a conversation locator.
pub open spec fn conv_line(c: ConversationLocator) -> usize {
    match c {
        ConversationLocator::Prompt(l) => l,
        ConversationLocator::Interaction(_, InteractionLocator::Command(l)) => l,
        ConversationLocator::Interaction(_, InteractionLocator::Tui(l)) => l,
        ConversationLocator::Interaction(_, InteractionLocator::Response(ResponseLocator::Lines(l))) => l,
        ConversationLocator::Interaction(_, InteractionLocator::Response(ResponseLocator::Screen(l))) => l,
    }
}

/// The conversation locator with its line index replaced.
pub open spec fn with_conv_line(c: ConversationLocator, v: usize) -> ConversationLocator {
    match c {
        ConversationLocator::Prompt(_) => ConversationLocator::Prompt(v),
        ConversationLocator::Interaction(i, InteractionLocator::Command(_)) => ConversationLocator::Interaction(
            i,
            InteractionLocator::Command(v),
        ),
        ConversationLocator::Interaction(i, InteractionLocator::Tui(_)) => ConversationLocator::Interaction(
            i,
            InteractionLocator::Tui(v),
        ),
        ConversationLocator::Interaction(i, InteractionLocator::Response(ResponseLocator::Lines(_))) => ConversationLocator::Interaction(
            i,
            InteractionLocator::Response(ResponseLocator::Lines(v)),
        ),
        ConversationLocator::Interaction(i, InteractionLocator::Response(ResponseLocator::Screen(_))) => ConversationLocator::Interaction(
            i,
            InteractionLocator::Response(ResponseLocator::Screen(v)),
        ),
    }
}

/// The line index of a locator.
pub open spec fn loc_line(l: SessionLocator) -> usize {
    conv_line(l.in_conversation)
}

/// The locator with its line index replaced.
pub open spec fn with_line(l: SessionLocator, v: usize) -> SessionLocator {
    SessionLocator { in_conversation: with_conv_line(l.in_conversation, v), ..l }
}

/// The locator and the remaining count after moving `l` back by at most `n` lines.
pub open spec fn dec_result(l: SessionLocator, n: usize) -> (SessionLocator, usize) {
    if n <= loc_line(l) {
        (with_line(l, (loc_line(l) - n) as usize), 0)
    } else {
        (with_line(l, 0), (n - loc_line(l)) as usize)
    }
}

/// Moving a locator back takes from the count exactly the lines it moved, stops only at the
/// start of its part or when the count is used up, and stays in the same conversation.
pub proof fn law_dec_line_conserves_lines(l: SessionLocator, n: usize)
    ensures
        loc_line(l) - loc_line(dec_result(l, n).0) == n - dec_result(l, n).1,
        dec_result(l, n).1 == 0 || loc_line(dec_result(l, n).0) == 0,
        dec_result(l, n).0.conversation == l.conversation,
        loc_line(dec_result(l, n).0) <= loc_line(l),
{
    let v: usize = if n <= loc_line(l) {
        (loc_line(l) - n) as usize
    } else {
        0
    };
    lemma_with_line(l, v);
}

/// Replacing the line index of a locator gives a locator with that index, in the same place.
pub proof fn lemma_with_line(l: SessionLocator, v: usize)
    ensures
        loc_line(with_line(l, v)) == v,
        with_line(l, v).conversation == l.conversation,
        with_line(with_line(l, v), loc_line(l)) == l,
{
}

impl SessionLocator {
    /// The line index of this locator.
    pub fn line(&self) -> (l: usize)
        ensures
            l == loc_line(*self),
    {
        match self.in_conversation {
            ConversationLocator::Prompt(line) => line,
            ConversationLocator::Interaction(_, InteractionLocator::Command(line)) => line,
            ConversationLocator::Interaction(_, InteractionLocator::Tui(line)) => line,
            ConversationLocator::Interaction(_, InteractionLocator::Response(ResponseLocator::Lines(line))) => line,
            ConversationLocator::Interaction(_, InteractionLocator::Response(ResponseLocator::Screen(line))) => line,
        }
    }

    /// Replace the line index of this locator.
    pub fn set_line(&mut self, v: usize)
        ensures
            *final(self) == with_line(*old(self), v),
    {
        self.in_conversation = match self.in_conversation {
            ConversationLocator::Prompt(_) => ConversationLocator::Prompt(v),
            ConversationLocator::Interaction(i, InteractionLocator::Command(_)) => ConversationLocator::Interaction(
                i,
                InteractionLocator::Command(v),
            ),
            ConversationLocator::Interaction(i, InteractionLocator::Tui(_)) => ConversationLocator::Interaction(
                i,
                InteractionLocator::Tui(v),
            ),
            ConversationLocator::Interaction(i, InteractionLocator::Response(ResponseLocator::Lines(_))) => ConversationLocator::Interaction(
                i,
                InteractionLocator::Response(ResponseLocator::Lines(v)),
            ),
            ConversationLocator::Interaction(i, InteractionLocator::Response(ResponseLocator::Screen(_))) => ConversationLocator::Interaction(
                i,
                InteractionLocator::Response(ResponseLocator::Screen(v)),
            ),
        };
    }

    /// Move the line index back by at most `lines`, and take from `lines` what was used.
    pub fn dec_line(&mut self, lines: &mut usize)
        ensures
            (*final(self), *final(lines)) == dec_result(*old(self), *old(lines)),
    {
        let line = self.line();
        if *lines <= line {
            self.set_line(line - *lines);
            *lines = 0;
        } else {
            *lines = *lines - line;
            self.set_line(0);
        }
    }

    /// The line index is zero.
    pub fn is_start_line(&self) -> (b: bool)
        ensures
            b == (loc_line(*self) == 0),
    {
        self.line() == 0
    }
}

} // verus!

//! Moving through the lines of a session in the order in which they are drawn.
//!
//! A conversation shows its interactions first, each as its command, then its archived lines
//! (or its TUI screen), then its screen; the prompt of the conversation comes last.

use vstd::prelude::*;
use crate::locator::{
    dec_result, loc_line, ConversationLocator, InteractionLocator, MaybeSessionLocator, ResponseLocator,
    SessionLocator,
};
use crate::session::{
    session_wf, sp_command_end, sp_conversation_end, sp_last_prompt_end, sp_lines_end, sp_next_conversation,
    sp_next_interaction, sp_output_end, sp_output_start, sp_previous_conversation, sp_previous_interaction,
    sp_prompt_end, sp_prompt_start, sp_screen_start, spec_inc_line, spec_is_end_line, Session, SessionView,
};

verus! {

/// 1 for a locator in a prompt, which is drawn after the interactions of its conversation.
pub open spec fn prompt_rank(loc: SessionLocator) -> int {
    match loc.in_conversation {
        ConversationLocator::Prompt(_) => 1,
        _ => 0,
    }
}

/// The index of the interaction of a locator; 0 in a prompt.
pub open spec fn interaction_rank(loc: SessionLocator) -> int {
    match loc.in_conversation {
        ConversationLocator::Interaction(k, _) => k as int,
        _ => 0,
    }
}

/// The place of a part in its interaction: command, then lines or TUI screen, then screen.
pub open spec fn part_rank(loc: SessionLocator) -> int {
    match loc.in_conversation {
        ConversationLocator::Interaction(_, InteractionLocator::Command(_)) => 0,
        ConversationLocator::Interaction(_, InteractionLocator::Tui(_)) => 1,
        ConversationLocator::Interaction(_, InteractionLocator::Response(ResponseLocator::Lines(_))) => 1,
        ConversationLocator::Interaction(_, InteractionLocator::Response(ResponseLocator::Screen(_))) => 2,
        _ => 0,
    }
}

/// `a` is drawn before `b`.
pub open spec fn drawn_before(a: SessionLocator, b: SessionLocator) -> bool {
    ||| a.conversation < b.conversation
    ||| a.conversation == b.conversation && prompt_rank(a) < prompt_rank(b)
    ||| a.conversation == b.conversation && prompt_rank(a) == prompt_rank(b) && interaction_rank(a) < interaction_rank(b)
    ||| a.conversation == b.conversation && prompt_rank(a) == prompt_rank(b) && interaction_rank(a) == interaction_rank(b)
        && part_rank(a) < part_rank(b)
    ||| a.conversation == b.conversation && prompt_rank(a) == prompt_rank(b) && interaction_rank(a) == interaction_rank(b)
        && part_rank(a) == part_rank(b) && loc_line(a) < loc_line(b)
}

/// The locator at the end of the session: the end of the last prompt, or, without the last
/// prompt, the end of the output of the last interaction.
pub open spec fn spec_locate_end(s: SessionView, show_last_prompt: bool) -> MaybeSessionLocator {
    match sp_last_prompt_end(s) {
        Some(loc) => if show_last_prompt {
            Some(loc)
        } else {
            match sp_conversation_end(s, loc) {
                Some(n) => sp_output_end(s, n),
                None => None,
            }
        },
        None => None,
    }
}

/// From the start of a part, the end of the part drawn before it; the locator itself where
/// nothing is drawn before it, and `None` where the session has no such part.
pub open spec fn up_move(s: SessionView, loc: SessionLocator) -> MaybeSessionLocator {
    match loc.in_conversation {
        ConversationLocator::Prompt(_) => match sp_conversation_end(s, loc) {
            Some(n) => sp_output_end(s, n),
            None => match sp_previous_conversation(loc) {
                Some(n) => sp_prompt_end(s, n),
                None => Some(loc),
            },
        },
        ConversationLocator::Interaction(_, InteractionLocator::Command(_)) => match sp_previous_interaction(loc) {
            Some(n) => sp_output_end(s, n),
            None => match sp_previous_conversation(loc) {
                Some(n) => sp_prompt_end(s, n),
                None => Some(loc),
            },
        },
        ConversationLocator::Interaction(_, InteractionLocator::Tui(_)) => sp_command_end(s, loc),
        ConversationLocator::Interaction(_, InteractionLocator::Response(ResponseLocator::Lines(_))) => sp_command_end(
            s,
            loc,
        ),
        ConversationLocator::Interaction(_, InteractionLocator::Response(ResponseLocator::Screen(_))) => sp_lines_end(
            s,
            loc,
        ),
    }
}

/// The locator `lines` lines above `loc`, stopping at the top of the session.
pub open spec fn spec_locate_up(s: SessionView, loc: SessionLocator, lines: usize) -> MaybeSessionLocator
    decreases loc.conversation, prompt_rank(loc), interaction_rank(loc), part_rank(loc), loc_line(loc),
{
    if lines == 0 {
        Some(loc)
    } else if loc_line(loc) == 0 {
        match up_move(s, loc) {
            Some(n) => if n == loc {
                Some(loc)
            } else if drawn_before(n, loc) {
                spec_locate_up(s, n, lines)
            } else {
                None
            },
            None => None,
        }
    } else {
        let (n, l2) = dec_result(loc, lines);
        proof {
            crate::locator::lemma_with_line(loc, (loc_line(loc) - if lines <= loc_line(loc) {
                lines as int
            } else {
                loc_line(loc) as int
            }) as usize);
        }
        if drawn_before(n, loc) {
            spec_locate_up(s, n, l2)
        } else {
            None
        }
    }
}

/// A move up from the start of a part lands on a part drawn before it, unless it stays.
pub proof fn lemma_up_move_goes_up(s: SessionView, loc: SessionLocator)
    ensures
        up_move(s, loc) matches Some(n) ==> n == loc || drawn_before(n, loc),
{
}

/// Moving back within a part lands on an earlier line of the same part.
pub proof fn lemma_dec_goes_up(loc: SessionLocator, lines: usize)
    requires
        loc_line(loc) > 0,
        lines > 0,
    ensures
        drawn_before(dec_result(loc, lines).0, loc),
{
    let v: usize = if lines <= loc_line(loc) {
        (loc_line(loc) - lines) as usize
    } else {
        0
    };
    crate::locator::lemma_with_line(loc, v);
}

/// The locator at the end of the session.
pub fn locate_end(session: &Session, show_last_prompt: bool) -> (r: MaybeSessionLocator)
    requires
        session_wf(session@),
    ensures
        r == spec_locate_end(session@, show_last_prompt),
{
    let loc = match session.locate_at_last_prompt_end() {
        Some(l) => l,
        None => return None,
    };
    if show_last_prompt {
        Some(loc)
    } else {
        let new_loc = match session.locate_at_conversation_end(&loc) {
            Some(l) => l,
            None => return None,
        };
        session.locate_at_output_end(&new_loc)
    }
}

/// Create a new locator that is `lines` lines above the initial one, in the order in which the
/// session is drawn. Does not wrap around.
pub fn locate_up(session: &Session, loc: &SessionLocator, lines: usize) -> (r: MaybeSessionLocator)
    requires
        session_wf(session@),
    ensures
        r == spec_locate_up(session@, *loc, lines),
{
    let mut cur = *loc;
    let mut left = lines;
    while left > 0
        invariant
            session_wf(session@),
            spec_locate_up(session@, cur, left) == spec_locate_up(session@, *loc, lines),
        decreases cur.conversation, prompt_rank(cur), interaction_rank(cur), part_rank(cur), loc_line(cur),
    {
        if cur.is_start_line() {
            proof {
                lemma_up_move_goes_up(session@, cur);
            }
            let moved = match cur.in_conversation {
                ConversationLocator::Prompt(_) => {
                    if let Some(new_loc) = session.locate_at_conversation_end(&cur) {
                        session.locate_at_output_end(&new_loc)
                    } else {
                        if let Some(new_loc) = session.locate_at_previous_conversation(&cur) {
                            session.locate_at_prompt_end(&new_loc)
                        } else {
                            Some(cur)
                        }
                    }
                },
                ConversationLocator::Interaction(_, InteractionLocator::Command(_)) => {
                    if let Some(new_loc) = session.locate_at_previous_interaction(&cur) {
                        session.locate_at_output_end(&new_loc)
                    } else {
                        if let Some(new_loc) = session.locate_at_previous_conversation(&cur) {
                            session.locate_at_prompt_end(&new_loc)
                        } else {
                            Some(cur)
                        }
                    }
                },
                ConversationLocator::Interaction(_, InteractionLocator::Tui(_)) => session.locate_at_command_end(&cur),
                ConversationLocator::Interaction(_, InteractionLocator::Response(ResponseLocator::Lines(_))) => session.locate_at_command_end(&cur),
                ConversationLocator::Interaction(_, InteractionLocator::Response(ResponseLocator::Screen(_))) => session.locate_at_lines_end(&cur),
            };
            proof {
                assert(moved == up_move(session@, cur));
            }
            match moved {
                Some(n) => {
                    if n == cur {
                        return Some(cur);
                    }
                    cur = n;
                },
                None => {
                    return None;
                },
            }
        } else {
            proof {
                lemma_dec_goes_up(cur, left);
            }
            cur.dec_line(&mut left);
        }
    }
    Some(cur)
}

/// How many conversations are left from the locator's on; 0 for an invalid one.
pub open spec fn conv_left(s: SessionView, loc: SessionLocator) -> int {
    if loc.conversation < s.conversations.len() {
        s.conversations.len() - loc.conversation
    } else {
        0
    }
}

/// How many interactions of its conversation are left from the locator's on.
pub open spec fn inter_left(s: SessionView, loc: SessionLocator) -> int {
    if loc.conversation < s.conversations.len() {
        let n = s.conversations[loc.conversation as int].interactions.len() as int;
        if interaction_rank(loc) < n {
            n - interaction_rank(loc)
        } else {
            0
        }
    } else {
        0
    }
}

/// `a` is a part that comes after part `b` in the order of drawing.
pub open spec fn part_after(s: SessionView, a: SessionLocator, b: SessionLocator) -> bool {
    ||| conv_left(s, a) < conv_left(s, b)
    ||| conv_left(s, a) == conv_left(s, b) && 1 - prompt_rank(a) < 1 - prompt_rank(b)
    ||| conv_left(s, a) == conv_left(s, b) && prompt_rank(a) == prompt_rank(b) && inter_left(s, a) < inter_left(s, b)
    ||| conv_left(s, a) == conv_left(s, b) && prompt_rank(a) == prompt_rank(b) && inter_left(s, a) == inter_left(s, b)
        && 2 - part_rank(a) < 2 - part_rank(b)
}

/// From the end of a part, the start of the part drawn after it; `None` where there is none,
/// and past the last interaction of the last conversation unless its prompt is shown.
pub open spec fn down_move(s: SessionView, loc: SessionLocator, show_last_prompt: bool) -> MaybeSessionLocator {
    match loc.in_conversation {
        ConversationLocator::Prompt(_) => sp_next_conversation(s, loc),
        ConversationLocator::Interaction(_, InteractionLocator::Command(_)) => match sp_output_start(s, loc) {
            Some(n) => Some(n),
            None => sp_prompt_start(s, loc),
        },
        ConversationLocator::Interaction(_, InteractionLocator::Response(ResponseLocator::Lines(_))) => sp_screen_start(
            s,
            loc,
        ),
        _ => match sp_next_interaction(s, loc) {
            Some(n) => Some(n),
            None => if show_last_prompt || !(loc.conversation + 1 == s.conversations.len()) {
                sp_prompt_start(s, loc)
            } else {
                None
            },
        },
    }
}

/// The locator `lines` lines below `loc`, in the order in which the session is drawn; `None`
/// past the end of the session or for an invalid locator.
pub open spec fn spec_locate_down(s: SessionView, loc: SessionLocator, show_last_prompt: bool, lines: usize) -> MaybeSessionLocator
    decreases conv_left(s, loc), 1 - prompt_rank(loc), inter_left(s, loc), 2 - part_rank(loc),
{
    let (l1, n1) = spec_inc_line(s, loc, lines);
    match spec_is_end_line(s, l1) {
        Some(true) => match down_move(s, l1, show_last_prompt) {
            Some(n) => if part_after(s, n, loc) && 1 - prompt_rank(n) >= 0 && 2 - part_rank(n) >= 0 {
                spec_locate_down(s, n, show_last_prompt, n1)
            } else {
                None
            },
            None => None,
        },
        Some(false) => Some(l1),
        None => None,
    }
}

/// Advancing a locator within its part keeps it in the same part.
proof fn lemma_inc_same_part(s: SessionView, loc: SessionLocator, n: usize)
    ensures
        spec_inc_line(s, loc, n).0.conversation == loc.conversation,
        prompt_rank(spec_inc_line(s, loc, n).0) == prompt_rank(loc),
        interaction_rank(spec_inc_line(s, loc, n).0) == interaction_rank(loc),
        part_rank(spec_inc_line(s, loc, n).0) == part_rank(loc),
        loc_line(loc) + n <= usize::MAX ==> loc_line(spec_inc_line(s, loc, n).0) + spec_inc_line(s, loc, n).1 <= usize::MAX,
{
    match crate::session::part_len(s, loc) {
        Some(count) => {
            let line = loc_line(loc);
            if line + n <= count {
                crate::locator::lemma_with_line(loc, (line + n) as usize);
            } else {
                crate::locator::lemma_with_line(loc, count);
            }
        },
        None => {},
    }
}

/// A move down from the end of a valid part lands on a part drawn after it, at its first line.
proof fn lemma_down_move_goes_down(s: SessionView, loc: SessionLocator, show_last_prompt: bool)
    requires
        spec_is_end_line(s, loc) is Some,
    ensures
        down_move(s, loc, show_last_prompt) matches Some(n) ==> part_after(s, n, loc) && loc_line(n) == 0,
{
    let r = down_move(s, loc, show_last_prompt);
    if r is Some {
        let n = r->0;
        assert(loc.conversation < s.conversations.len());
        match loc.in_conversation {
            ConversationLocator::Prompt(_) => {
                assert(n.conversation == loc.conversation + 1);
            },
            ConversationLocator::Interaction(k, il) => {
                assert(crate::session::located(s, loc) is Some);
                assert(k < s.conversations[loc.conversation as int].interactions.len());
                assert(n.conversation == loc.conversation);
                match il {
                    InteractionLocator::Command(_) => {
                        if sp_output_start(s, loc) is Some {
                            assert(interaction_rank(n) == k);
                            assert(part_rank(n) == 1);
                        } else {
                            assert(prompt_rank(n) == 1);
                        }
                    },
                    InteractionLocator::Response(ResponseLocator::Lines(_)) => {
                        assert(interaction_rank(n) == k);
                        assert(part_rank(n) == 2);
                    },
                    _ => {
                        if sp_next_interaction(s, loc) is Some {
                            assert(interaction_rank(n) == k + 1);
                            assert(prompt_rank(n) == 0);
                        } else {
                            assert(prompt_rank(n) == 1);
                        }
                    },
                }
            },
        }
    }
}

/// Create a new locator that is `lines` lines below the initial one, in the order in which the
/// session is drawn. Does not wrap around.
pub fn locate_down(session: &Session, start_loc: &SessionLocator, show_last_prompt: bool, lines: usize) -> (r: MaybeSessionLocator)
    requires
        session_wf(session@),
        loc_line(*start_loc) + lines <= usize::MAX,
    ensures
        r == spec_locate_down(session@, *start_loc, show_last_prompt, lines),
{
    let mut cur = *start_loc;
    let mut left = lines;
    loop
        invariant
            session_wf(session@),
            loc_line(cur) + left <= usize::MAX,
            spec_locate_down(session@, cur, show_last_prompt, left) == spec_locate_down(
                session@,
                *start_loc,
                show_last_prompt,
                lines,
            ),
        decreases conv_left(session@, cur), 1 - prompt_rank(cur), inter_left(session@, cur), 2 - part_rank(cur),
    {
        let ghost before = cur;
        let ghost before_left = left;
        proof {
            lemma_inc_same_part(session@, cur, left);
        }
        session.locator_inc_line(&mut cur, &mut left);
        match session.locator_is_end_line(&cur) {
            None => {
                return None;
            },
            Some(false) => {
                return Some(cur);
            },
            Some(true) => {
                proof {
                    lemma_down_move_goes_down(session@, cur, show_last_prompt);
                }
                let moved = match cur.in_conversation {
                    ConversationLocator::Prompt(_) => session.locate_at_next_conversation(&cur),
                    ConversationLocator::Interaction(_, InteractionLocator::Command(_)) => {
                        if let Some(new_loc) = session.locate_at_output_start(&cur) {
                            Some(new_loc)
                        } else {
                            session.locate_at_prompt_start(&cur)
                        }
                    },
                    ConversationLocator::Interaction(_, InteractionLocator::Response(ResponseLocator::Lines(_))) => {
                        session.locate_at_screen_start(&cur)
                    },
                    _ => {
                        if let Some(new_loc) = session.locate_at_next_interaction(&cur) {
                            Some(new_loc)
                        } else {
                            if show_last_prompt || !session.locator_is_last_conversation(&cur) {
                                session.locate_at_prompt_start(&cur)
                            } else {
                                None
                            }
                        }
                    },
                };
                proof {
                    assert(moved == down_move(session@, cur, show_last_prompt));
                }
                match moved {
                    Some(n) => {
                        cur = n;
                    },
                    None => {
                        return None;
                    },
                }
            },
        }
    }
}

/// Moving up by no lines stays where it is.
pub proof fn law_locate_up_zero(s: SessionView, loc: SessionLocator)
    ensures
        spec_locate_up(s, loc, 0) == Some(loc),
{
}

/// Moving up never lands on a line drawn after the start.
pub proof fn law_locate_up_goes_up(s: SessionView, loc: SessionLocator, lines: usize)
    ensures
        spec_locate_up(s, loc, lines) matches Some(n) ==> n == loc || drawn_before(n, loc),
    decreases loc.conversation, prompt_rank(loc), interaction_rank(loc), part_rank(loc), loc_line(loc),
{
    if lines == 0 {
    } else if loc_line(loc) == 0 {
        match up_move(s, loc) {
            Some(n) => {
                if n != loc && drawn_before(n, loc) {
                    law_locate_up_goes_up(s, n, lines);
                }
            },
            None => {},
        }
    } else {
        let (n, l2) = dec_result(loc, lines);
        if drawn_before(n, loc) {
            law_locate_up_goes_up(s, n, l2);
        }
    }
}

/// Moving down never lands in an earlier conversation.
pub proof fn law_locate_down_keeps_order(s: SessionView, loc: SessionLocator, show_last_prompt: bool, lines: usize)
    ensures
        spec_locate_down(s, loc, show_last_prompt, lines) matches Some(n) ==> n.conversation >= loc.conversation,
    decreases conv_left(s, loc), 1 - prompt_rank(loc), inter_left(s, loc), 2 - part_rank(loc),
{
    let (l1, n1) = spec_inc_line(s, loc, lines);
    lemma_inc_same_part(s, loc, lines);
    if spec_is_end_line(s, l1) == Some(true) {
        match down_move(s, l1, show_last_prompt) {
            Some(n) => {
                if part_after(s, n, loc) && 1 - prompt_rank(n) >= 0 && 2 - part_rank(n) >= 0 {
                    law_locate_down_keeps_order(s, n, show_last_prompt, n1);
                    assert(n.conversation >= l1.conversation);
                }
            },
            None => {},
        }
    }
}

} // verus!

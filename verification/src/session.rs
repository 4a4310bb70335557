//! Organizes the past and current programs and their outputs.
//!
//! A session is an ordered list of conversations. A conversation is a prompt and the
//! interactions that ran under it; an interaction is a command and what it printed.
//! Interactions are kept in one list for the whole session and referred to by handles, so
//! that a handle stays valid while conversations are added.

use vstd::prelude::*;
use std::collections::hash_map::DefaultHasher;
use std::hash::Hasher;
use crate::screen::{
    blank_cell, compacted_row_of, initial_colors, matrix_wf, row_of, screen_wf, sv_add_byte,
    sv_make_room_for, sv_reset, Cell, Event, Matrix, MatrixView, Screen, ScreenView,
};
use crate::locator::{
    ConversationLocator, InteractionLocator, MaybeSessionLocator, ResponseLocator, SessionLocator,
};

verus! {

/// Width of the screen that a full-screen program gets.
pub const DEFAULT_TUI_WIDTH: usize = 80;

/// Height of the screen that a full-screen program gets.
pub const DEFAULT_TUI_HEIGHT: usize = 25;

/// Index of an interaction in a session.
#[derive(Clone, Copy, Debug, PartialEq, Eq, Structural, Hash)]
pub struct InteractionHandle(usize);

impl InteractionHandle {
    /// The position of the interaction in the session's list.
    pub closed spec fn index(self) -> int {
        self.0 as int
    }
}

/// Which output is visible. At most one of stdout and stderr is shown.
#[derive(Clone, Copy, Debug, PartialEq, Eq, Structural)]
pub enum OutputVisibility {
    /// Neither output is shown.
    Nothing,
    Output,
    Error,
}

/// Running status of an interaction.
#[derive(Clone, Copy, Debug, PartialEq, Eq, Structural)]
pub enum RunningStatus {
    Running,
    Unknown,
    Exited(i32),
}

impl RunningStatus {
    /// A program runs until it is known to have exited.
    pub fn is_running(&self) -> (b: bool)
        ensures
            b == !(*self is Exited),
    {
        match self {
            RunningStatus::Exited(_) => false,
            _ => true,
        }
    }
}

// ---------------------------------------------------------------------------------------------
// Response

/// A response as a value: the archived lines and the screen that is still being written.
pub struct ResponseView {
    pub lines: Seq<Seq<Cell>>,
    pub screen: ScreenView,
}

/// The full output of a program on one stream.
pub struct Response {
    /// Lines to be shown. Each line in a normal response is just a sequence of cells.
    pub lines: Vec<Vec<Cell>>,
    /// A temporary screen that data is added to until it can be archived in `lines`.
    pub screen: Screen,
}

/// The lines of a list of cell vectors.
pub open spec fn lines_view(v: Seq<Vec<Cell>>) -> Seq<Seq<Cell>> {
    v.map_values(|l: Vec<Cell>| l@)
}

impl View for Response {
    type V = ResponseView;

    open spec fn view(&self) -> ResponseView {
        ResponseView { lines: lines_view(self.lines@), screen: self.screen@ }
    }
}

/// What adding bytes to a response asks of the caller.
#[derive(Debug)]
pub enum AddBytesResult<'a> {
    /// All bytes have been added.
    AllDone,
    /// This stream needs to be shown before the rest of the bytes can be processed.
    ShowStream(&'a [u8]),
    /// Switch to TUI mode before the rest of the bytes can be processed.
    StartTui(&'a [u8]),
}

/// What adding bytes to a response asks of the caller, as a value.
pub enum AddBytesView {
    AllDone,
    ShowStream(Seq<u8>),
    StartTui(Seq<u8>),
}

impl<'a> View for AddBytesResult<'a> {
    type V = AddBytesView;

    open spec fn view(&self) -> AddBytesView {
        match self {
            AddBytesResult::AllDone => AddBytesView::AllDone,
            AddBytesResult::ShowStream(r) => AddBytesView::ShowStream(r@),
            AddBytesResult::StartTui(r) => AddBytesView::StartTui(r@),
        }
    }
}

/// The compacted rows of a matrix, top first.
pub open spec fn screen_lines(m: MatrixView) -> Seq<Seq<Cell>> {
    Seq::new(m.height as nat, |y: int| compacted_row_of(m, y))
}

/// The response after the lines of its screen are appended to its archive and the screen is
/// reset.
pub open spec fn archived(r: ResponseView) -> ResponseView {
    ResponseView { lines: r.lines + screen_lines(r.screen.matrix), screen: sv_reset(r.screen) }
}

/// Adding `bs` to response `r`, byte by byte: a new line archives the screen and hands the
/// rest back to be shown, a carriage return hands the rest back, a request for TUI mode hands
/// the rest back for the TUI screen.
pub open spec fn resp_add_bytes(r: ResponseView, bs: Seq<u8>) -> (ResponseView, AddBytesView)
    decreases bs.len(),
{
    if bs.len() == 0 {
        (r, AddBytesView::AllDone)
    } else {
        let (s1, e) = sv_add_byte(r.screen, bs[0]);
        let r1 = ResponseView { screen: s1, ..r };
        match e {
            Event::NewLine => (archived(r1), AddBytesView::ShowStream(bs.skip(1))),
            Event::Cr => (r1, AddBytesView::ShowStream(bs.skip(1))),
            Event::StartTui => (r1, AddBytesView::StartTui(bs.skip(1))),
            _ => resp_add_bytes(r1, bs.skip(1)),
        }
    }
}

/// A response whose rest is handed back is strictly shorter than what was added.
pub proof fn lemma_resp_add_bytes_rest(r: ResponseView, bs: Seq<u8>)
    ensures
        resp_add_bytes(r, bs).1 matches AddBytesView::ShowStream(rest) ==> rest.len() < bs.len(),
        resp_add_bytes(r, bs).1 matches AddBytesView::StartTui(rest) ==> rest.len() < bs.len(),
    decreases bs.len(),
{
    if bs.len() > 0 {
        let (s1, e) = sv_add_byte(r.screen, bs[0]);
        lemma_resp_add_bytes_rest(ResponseView { screen: s1, ..r }, bs.skip(1));
    }
}

impl Response {
    /// An empty response.
    pub fn new() -> (r: Self)
        ensures
            screen_wf(r@.screen),
            r@.lines == Seq::<Seq<Cell>>::empty(),
            r@.screen == crate::screen::new_screen_view(),
    {
        let r = Response { lines: Vec::new(), screen: Screen::new() };
        proof {
            assert(r@.lines =~= Seq::<Seq<Cell>>::empty());
        }
        r
    }

    /// Add a stream of bytes to the screen and possibly to the archive.
    ///
    /// Return an indication if the stream is to be shown or TUI activity has been detected,
    /// with the bytes that are left.
    pub fn add_bytes<'a>(&mut self, bytes: &'a [u8]) -> (r: AddBytesResult<'a>)
        requires
            screen_wf(old(self)@.screen),
        ensures
            (final(self)@, r@) == resp_add_bytes(old(self)@, bytes@),
            screen_wf(final(self)@.screen),
    {
        let mut i: usize = 0;
        proof {
            assert(bytes@.skip(0) =~= bytes@);
        }
        while i < bytes.len()
            invariant
                i <= bytes@.len(),
                screen_wf(self@.screen),
                resp_add_bytes(self@, bytes@.skip(i as int)) == resp_add_bytes(old(self)@, bytes@),
            decreases bytes@.len() - i,
        {
            let ghost before = self@;
            let e = self.screen.add_byte(bytes[i]);
            proof {
                let bs = bytes@.skip(i as int);
                assert(bs[0] == bytes@[i as int]);
                assert(bs.skip(1) =~= bytes@.skip(i + 1));
                assert(self@ == (ResponseView { screen: self@.screen, ..before }));
            }
            match e {
                Event::NewLine => {
                    self.archive_screen();
                    return AddBytesResult::ShowStream(vstd::slice::slice_subrange(bytes, i + 1, bytes.len()));
                },
                Event::Cr => {
                    return AddBytesResult::ShowStream(vstd::slice::slice_subrange(bytes, i + 1, bytes.len()));
                },
                Event::StartTui => {
                    return AddBytesResult::StartTui(vstd::slice::slice_subrange(bytes, i + 1, bytes.len()));
                },
                _ => {},
            }
            i = i + 1;
        }
        proof {
            assert(bytes@.skip(i as int) =~= Seq::<u8>::empty());
        }
        AddBytesResult::AllDone
    }

    /// Add all the lines on the screen to the archived lines and reset the screen.
    pub fn archive_screen(&mut self)
        requires
            screen_wf(old(self)@.screen),
        ensures
            final(self)@ == archived(old(self)@),
            screen_wf(final(self)@.screen),
    {
        let rows = self.screen.line_iter();
        let ghost m = self.screen@.matrix;
        let ghost start = self@.lines;
        let mut k: usize = 0;
        while k < rows.len()
            invariant
                k <= rows@.len(),
                rows@.len() == m.height,
                forall|y: int| 0 <= y < m.height ==> (#[trigger] rows@[y])@ == compacted_row_of(m, y),
                lines_view(self.lines@) == start + screen_lines(m).take(k as int),
                self@.screen == old(self)@.screen,
                m == old(self)@.screen.matrix,
                start == old(self)@.lines,
            decreases rows@.len() - k,
        {
            let line = vstd::slice::slice_to_vec(rows[k]);
            let ghost before = self.lines@;
            self.lines.push(line);
            proof {
                assert(line@ == compacted_row_of(m, k as int));
                assert(self.lines@ =~= before.push(line));
                assert(lines_view(before.push(line)) =~= lines_view(before).push(line@));
                assert(screen_lines(m).take(k + 1) =~= screen_lines(m).take(k as int).push(line@));
                assert(lines_view(self.lines@) =~= start + screen_lines(m).take(k + 1));
            }
            k = k + 1;
        }
        proof {
            assert(screen_lines(m).take(k as int) =~= screen_lines(m));
        }
        self.screen.reset();
    }
}

// ---------------------------------------------------------------------------------------------
// Interaction

/// An interaction as a value.
pub struct InteractionView {
    pub command: MatrixView,
    pub output: ResponseView,
    pub errors: ResponseView,
    pub visible: OutputVisibility,
    pub running_status: RunningStatus,
    pub tui_mode: bool,
    pub tui_screen: ScreenView,
    pub threads: usize,
}

/// A command and its output.
///
/// This is just a visual representation of a command and not connected to a running process in
/// any way.
pub struct Interaction {
    /// Visual representation of the command that was called to create these responses
    pub command: Matrix,
    /// Collected stdout lines
    pub output: Response,
    /// Collected stderr lines
    pub errors: Response,
    /// Which response to show
    pub visible: OutputVisibility,
    /// Status of the command
    pub running_status: RunningStatus,
    /// True if TUI is running
    pub tui_mode: bool,
    /// Screen used for TUI mode
    pub tui_screen: Screen,
    /// Number of threads that feed data into the interaction.
    pub threads: usize,
}

impl View for Interaction {
    type V = InteractionView;

    open spec fn view(&self) -> InteractionView {
        InteractionView {
            command: self.command@,
            output: self.output@,
            errors: self.errors@,
            visible: self.visible,
            running_status: self.running_status,
            tui_mode: self.tui_mode,
            tui_screen: self.tui_screen@,
            threads: self.threads,
        }
    }
}

/// The matrices and screens of an interaction are well-formed.
pub open spec fn interaction_wf(i: InteractionView) -> bool {
    &&& matrix_wf(i.command)
    &&& screen_wf(i.output.screen)
    &&& screen_wf(i.errors.screen)
    &&& screen_wf(i.tui_screen)
}

/// The screen that a new interaction keeps for full-screen programs: empty, grown to the
/// default size, and of fixed size.
pub open spec fn initial_tui_screen() -> ScreenView {
    ScreenView {
        fixed_size: true,
        ..sv_make_room_for(
            crate::screen::new_screen_view(),
            DEFAULT_TUI_WIDTH - 1,
            DEFAULT_TUI_HEIGHT - 1,
        )
    }
}

/// A new interaction for `command`: no output yet, stdout visible, status unknown.
pub open spec fn new_interaction(command: MatrixView) -> InteractionView {
    InteractionView {
        command,
        output: ResponseView { lines: Seq::empty(), screen: crate::screen::new_screen_view() },
        errors: ResponseView { lines: Seq::empty(), screen: crate::screen::new_screen_view() },
        visible: OutputVisibility::Output,
        running_status: RunningStatus::Unknown,
        tui_mode: false,
        tui_screen: initial_tui_screen(),
        threads: 0,
    }
}

/// The response that `visible` selects, if any.
pub open spec fn visible_of(i: InteractionView) -> Option<ResponseView> {
    match i.visible {
        OutputVisibility::Nothing => None,
        OutputVisibility::Output => Some(i.output),
        OutputVisibility::Error => Some(i.errors),
    }
}

/// The interaction after its status is known: one with error lines shows them, one without
/// errors that did not fail shows its output, and a failed one without error lines stays as
/// it was.
pub open spec fn after_potential_errors(i: InteractionView) -> InteractionView {
    let failure = match i.running_status {
        RunningStatus::Exited(es) => es != 0,
        _ => false,
    };
    if i.errors.lines.len() > 0 {
        InteractionView { visible: OutputVisibility::Error, ..i }
    } else if !failure {
        InteractionView { visible: OutputVisibility::Output, ..i }
    } else {
        i
    }
}

/// The rows of a matrix without their last cell, as the TUI screen hands them over.
pub open spec fn full_lines(m: MatrixView) -> Seq<Seq<Cell>> {
    Seq::new(
        m.height as nat,
        |y: int|
            if m.width > 0 {
                row_of(m, y).drop_last()
            } else {
                Seq::empty()
            },
    )
}

/// The interaction after its program ended: what a full-screen program left on the TUI screen
/// is appended to the output, and TUI mode ends with a reset screen.
pub open spec fn after_exit_cleanup(i: InteractionView) -> InteractionView {
    if i.tui_mode {
        InteractionView {
            output: ResponseView { lines: i.output.lines + full_lines(i.tui_screen.matrix), ..i.output },
            tui_mode: false,
            tui_screen: sv_reset(i.tui_screen),
            ..i
        }
    } else {
        i
    }
}

impl Interaction {
    /// Create a new command without any output yet.
    pub fn new(command: Matrix) -> (r: Self)
        requires
            matrix_wf(command@),
        ensures
            r@ == new_interaction(command@),
            interaction_wf(r@),
    {
        let mut tui_screen = Screen::new();
        proof {
            assert(tui_screen@ == crate::screen::new_screen_view());
            assert(80 * 25 <= isize::MAX);
        }
        tui_screen.fixed_size(DEFAULT_TUI_WIDTH, DEFAULT_TUI_HEIGHT);
        Self {
            command,
            output: Response::new(),
            errors: Response::new(),
            visible: OutputVisibility::Output,
            running_status: RunningStatus::Unknown,
            tui_mode: false,
            tui_screen,
            threads: 0,
        }
    }

    /// Get the visible response, if any.
    pub fn visible_response(&self) -> (r: Option<&Response>)
        ensures
            match r {
                Some(resp) => visible_of(self@) == Some(resp@),
                None => visible_of(self@) is None,
            },
    {
        match self.visible {
            OutputVisibility::Nothing => None,
            OutputVisibility::Output => Some(&self.output),
            OutputVisibility::Error => Some(&self.errors),
        }
    }

    /// Check if there are any error lines.
    fn has_errors(&self) -> (b: bool)
        ensures
            b == (self@.errors.lines.len() > 0),
    {
        self.errors.lines.len() != 0
    }

    /// Make the error lines visible.
    pub fn show_errors(&mut self)
        ensures
            final(self)@ == (InteractionView { visible: OutputVisibility::Error, ..old(self)@ }),
    {
        self.visible = OutputVisibility::Error;
    }

    /// If there are errors, show them.
    pub fn show_potential_errors(&mut self)
        ensures
            final(self)@ == after_potential_errors(old(self)@),
    {
        let failure = match self.running_status {
            RunningStatus::Exited(es) => es != 0,
            _ => false,
        };
        if self.has_errors() {
            self.show_errors();
        } else if !failure {
            self.visible = OutputVisibility::Output;
        }
    }

    /// If there is data in the TUI screen, add it to the end of output.
    pub fn exit_cleanup(&mut self)
        requires
            interaction_wf(old(self)@),
        ensures
            final(self)@ == after_exit_cleanup(old(self)@),
            interaction_wf(final(self)@),
    {
        if self.tui_mode {
            let rows = self.tui_screen.line_iter_full();
            let ghost m = self.tui_screen@.matrix;
            let ghost start = self@.output.lines;
            let mut k: usize = 0;
            while k < rows.len()
                invariant
                    k <= rows@.len(),
                    rows@.len() == m.height,
                    m == old(self)@.tui_screen.matrix,
                    matrix_wf(m),
                    forall|y: int| 0 <= y < m.height && m.width > 0 ==> (#[trigger] rows@[y])@ == row_of(m, y).drop_last(),
                    forall|y: int| 0 <= y < m.height && m.width == 0 ==> (#[trigger] rows@[y])@.len() == 0,
                    lines_view(self.output.lines@) == start + full_lines(m).take(k as int),
                    start == old(self)@.output.lines,
                    self@ == (InteractionView { output: ResponseView { lines: self@.output.lines, ..old(self)@.output }, ..old(self)@ }),
                decreases rows@.len() - k,
            {
                let line = vstd::slice::slice_to_vec(rows[k]);
                let ghost before = self.output.lines@;
                self.output.lines.push(line);
                proof {
                    assert(line@ == rows@[k as int]@);
                    if m.width > 0 {
                        assert(rows@[k as int]@ == row_of(m, k as int).drop_last());
                    } else {
                        assert(rows@[k as int]@.len() == 0);
                    }
                    assert(line@ =~= full_lines(m)[k as int]);
                    assert(self.output.lines@ =~= before.push(line));
                    assert(lines_view(before.push(line)) =~= lines_view(before).push(line@));
                    assert(full_lines(m).take(k + 1) =~= full_lines(m).take(k as int).push(line@));
                    assert(lines_view(self.output.lines@) =~= start + full_lines(m).take(k + 1));
                }
                k = k + 1;
            }
            proof {
                assert(full_lines(m).take(k as int) =~= full_lines(m));
            }
            self.tui_mode = false;
            self.tui_screen.reset();
        }
    }
}

/// The TUI screen after every byte of `bs` is added to it, whatever the bytes ask for.
pub open spec fn screen_feed(s: ScreenView, bs: Seq<u8>) -> ScreenView
    decreases bs.len(),
{
    if bs.len() == 0 {
        s
    } else {
        screen_feed(sv_add_byte(s, bs[0]).0, bs.skip(1))
    }
}

/// The response that `stream` names.
pub open spec fn stream_response(i: InteractionView, stream: OutputVisibility) -> ResponseView {
    match stream {
        OutputVisibility::Error => i.errors,
        _ => i.output,
    }
}

/// The interaction with the response that `stream` names replaced.
pub open spec fn with_stream_response(i: InteractionView, stream: OutputVisibility, r: ResponseView) -> InteractionView {
    match stream {
        OutputVisibility::Error => InteractionView { errors: r, ..i },
        _ => InteractionView { output: r, ..i },
    }
}

/// Adding bytes to the stream `stream` of an interaction: the interaction afterwards, and
/// whether the screen needs to be redrawn. In TUI mode every byte goes to the TUI screen; else
/// the bytes go to the response of the stream piece by piece, until they are used up, and the
/// stream becomes the visible one. A request for TUI mode switches to it for the rest.
pub open spec fn inter_add_bytes(i: InteractionView, stream: OutputVisibility, work: Seq<u8>) -> (InteractionView, bool)
    decreases work.len(),
{
    if work.len() == 0 {
        (InteractionView { visible: stream, ..i }, false)
    } else if i.tui_mode {
        (InteractionView { tui_screen: screen_feed(i.tui_screen, work), ..i }, true)
    } else if stream == OutputVisibility::Nothing {
        (i, false)
    } else {
        let (r, res) = resp_add_bytes(stream_response(i, stream), work);
        let i1 = with_stream_response(i, stream, r);
        proof {
            lemma_resp_add_bytes_rest(stream_response(i, stream), work);
        }
        match res {
            AddBytesView::AllDone => (InteractionView { visible: stream, ..i1 }, false),
            AddBytesView::ShowStream(rest) => {
                let (i2, d) = inter_add_bytes(i1, stream, rest);
                (i2, true)
            },
            AddBytesView::StartTui(rest) => inter_add_bytes(InteractionView { tui_mode: true, ..i1 }, stream, rest),
        }
    }
}

impl Interaction {
    /// Add bytes to the selected stream; in TUI mode they go to the TUI screen instead.
    /// Return whether the screen needs to be redrawn.
    pub fn add_bytes(&mut self, stream: OutputVisibility, bytes: &[u8]) -> (needs_redraw: bool)
        requires
            interaction_wf(old(self)@),
        ensures
            (final(self)@, needs_redraw) == inter_add_bytes(old(self)@, stream, bytes@),
            interaction_wf(final(self)@),
    {
        let mut work: &[u8] = bytes;
        let mut needs_redraw = false;
        let ghost target = inter_add_bytes(old(self)@, stream, bytes@);
        while work.len() != 0
            invariant_except_break
                inter_add_bytes(self@, stream, work@).0 == target.0,
                (needs_redraw || inter_add_bytes(self@, stream, work@).1) == target.1,
            invariant
                interaction_wf(self@),
                target == inter_add_bytes(old(self)@, stream, bytes@),
            ensures
                work@.len() > 0 ==> (InteractionView { visible: stream, ..self@ }) == target.0,
                work@.len() > 0 ==> needs_redraw == target.1,
                work@.len() == 0 ==> inter_add_bytes(self@, stream, work@).0 == target.0,
                work@.len() == 0 ==> (needs_redraw || inter_add_bytes(self@, stream, work@).1) == target.1,
            decreases work@.len(),
        {
            if self.tui_mode {
                let ghost s0 = self.tui_screen@;
                let ghost pre = self@;
                proof {
                    assert(inter_add_bytes(pre, stream, work@) == (InteractionView { tui_screen: screen_feed(s0, work@), ..pre }, true));
                }
                let mut k: usize = 0;
                proof {
                    assert(work@.skip(0) =~= work@);
                }
                while k < work.len()
                    invariant
                        k <= work@.len(),
                        screen_wf(self.tui_screen@),
                        interaction_wf(pre),
                        screen_feed(self.tui_screen@, work@.skip(k as int)) == screen_feed(s0, work@),
                        self@ == (InteractionView { tui_screen: self.tui_screen@, ..pre }),
                    decreases work@.len() - k,
                {
                    let ghost before = self.tui_screen@;
                    let _ = self.tui_screen.add_byte(work[k]);
                    proof {
                        assert(work@.skip(k as int)[0] == work@[k as int]);
                        assert(work@.skip(k as int).skip(1) =~= work@.skip(k + 1));
                    }
                    k = k + 1;
                }
                proof {
                    assert(work@.skip(k as int) =~= Seq::<u8>::empty());
                }
                return true;
            }
            let ghost before = self@;
            let res = match stream {
                OutputVisibility::Nothing => {
                    proof {
                        assert(inter_add_bytes(self@, stream, work@) == (self@, false));
                    }
                    return needs_redraw;
                },
                OutputVisibility::Output => self.output.add_bytes(work),
                OutputVisibility::Error => self.errors.add_bytes(work),
            };
            proof {
                lemma_resp_add_bytes_rest(stream_response(before, stream), work@);
            }
            match res {
                AddBytesResult::AllDone => {
                    break;
                },
                AddBytesResult::ShowStream(new_work) => {
                    needs_redraw = true;
                    work = new_work;
                },
                AddBytesResult::StartTui(new_work) => {
                    self.tui_mode = true;
                    work = new_work;
                },
            }
        }
        self.visible = stream;
        needs_redraw
    }
}

// ---------------------------------------------------------------------------------------------
// Conversation

/// `Hash::hash_slice` of std on one row of a prompt: feeds its cells into the hasher. Nothing
/// is stated of the hasher's state afterwards.
#[verifier::external_body]
fn hash_cells(row: &[Cell], h: &mut DefaultHasher) {
    std::hash::Hash::hash_slice(row, h)
}

/// A conversation as a value.
pub struct ConversationView {
    pub interactions: Seq<InteractionHandle>,
    pub prompt: MatrixView,
    pub prompt_hash: u64,
}

/// A number of commands that are executed with the same prompt string.
pub struct Conversation {
    /// List of programs and their outputs for this prompt.
    pub interactions: Vec<InteractionHandle>,
    /// The prompt for this conversation.
    pub prompt: Matrix,
    /// Hash value of the prompt for displaying a color
    pub prompt_hash: u64,
}

impl View for Conversation {
    type V = ConversationView;

    open spec fn view(&self) -> ConversationView {
        ConversationView {
            interactions: self.interactions@,
            prompt: self.prompt@,
            prompt_hash: self.prompt_hash,
        }
    }
}

impl Conversation {
    /// Creates a new conversation without any interactions.
    pub fn new(prompt: Matrix) -> (c: Conversation)
        requires
            matrix_wf(prompt@),
        ensures
            c@.prompt == prompt@,
            c@.interactions == Seq::<InteractionHandle>::empty(),
    {
        // The prompt's hash is that of its rows without their trailing blank cells, one cell
        // after the other.
        let mut h = DefaultHasher::new();
        let rows = prompt.line_iter();
        let mut k: usize = 0;
        while k < rows.len()
            decreases rows.len() - k,
        {
            hash_cells(rows[k], &mut h);
            k = k + 1;
        }
        let prompt_hash = h.finish();
        Conversation { prompt, interactions: Vec::new(), prompt_hash }
    }
}

// ---------------------------------------------------------------------------------------------
// Session

/// A session as a value.
pub struct SessionView {
    pub conversations: Seq<ConversationView>,
    pub interactions: Seq<InteractionView>,
    pub needs_redraw: bool,
    pub window_width: usize,
    pub window_height: usize,
}

/// An ordered list of conversations.
///
/// Conversations and interactions are only accessed through a session, as their indices need
/// to be consistent.
pub struct Session {
    /// History of conversations, oldest first.
    conversations: Vec<Conversation>,
    /// History of interactions, oldest first.
    interactions: Vec<Interaction>,
    /// Marker if the session has been changed since the last redraw
    needs_redraw: bool,
    /// Width of window in characters
    window_width: usize,
    /// Height of window in characters
    window_height: usize,
}

pub open spec fn conversations_view(v: Seq<Conversation>) -> Seq<ConversationView> {
    v.map_values(|c: Conversation| c@)
}

pub open spec fn interactions_view(v: Seq<Interaction>) -> Seq<InteractionView> {
    v.map_values(|i: Interaction| i@)
}

impl View for Session {
    type V = SessionView;

    closed spec fn view(&self) -> SessionView {
        SessionView {
            conversations: conversations_view(self.conversations@),
            interactions: interactions_view(self.interactions@),
            needs_redraw: self.needs_redraw,
            window_width: self.window_width,
            window_height: self.window_height,
        }
    }
}

/// Every handle in a conversation refers to an interaction of the session.
pub open spec fn handles_valid(s: SessionView) -> bool {
    forall|c: int, k: int|
        0 <= c < s.conversations.len() && 0 <= k < s.conversations[c].interactions.len()
            ==> (#[trigger] s.conversations[c].interactions[k]).index() < s.interactions.len()
}

/// A well-formed session: at least one conversation, valid handles, well-formed prompts and
/// interactions.
pub open spec fn session_wf(s: SessionView) -> bool {
    &&& s.conversations.len() >= 1
    &&& handles_valid(s)
    &&& forall|c: int| 0 <= c < s.conversations.len() ==> matrix_wf(#[trigger] s.conversations[c].prompt)
    &&& forall|i: int| 0 <= i < s.interactions.len() ==> interaction_wf(#[trigger] s.interactions[i])
}

/// The first index that the search for a running full-screen program looks at: the oldest
/// interaction for `None`, the one after `h` otherwise.
pub open spec fn tui_search_start(handle: Option<InteractionHandle>) -> int {
    match handle {
        Some(h) => h.index() + 1,
        None => 0,
    }
}

/// The handle of the newest interaction (of index 0 where there is none).
pub closed spec fn last_handle(s: SessionView) -> InteractionHandle {
    InteractionHandle(if s.interactions.len() > 0 { (s.interactions.len() - 1) as usize } else { 0 })
}

/// The handle of the newest interaction has its index.
pub proof fn lemma_last_handle(s: SessionView)
    requires
        s.interactions.len() > 0,
        s.interactions.len() <= usize::MAX,
    ensures
        last_handle(s).index() == s.interactions.len() - 1,
{
}

/// The interaction that a handle refers to.
pub open spec fn interaction_of(s: SessionView, h: InteractionHandle) -> InteractionView {
    s.interactions[h.index()]
}

/// The interaction that a locator points into, with its position in the conversation: the
/// conversation exists, the locator names an interaction, and the conversation has it.
pub open spec fn located(s: SessionView, loc: SessionLocator) -> Option<(usize, InteractionHandle)> {
    if loc.conversation < s.conversations.len() {
        match loc.in_conversation {
            ConversationLocator::Interaction(k, _) => if k < s.conversations[loc.conversation as int].interactions.len() {
                Some((k, s.conversations[loc.conversation as int].interactions[k as int]))
            } else {
                None
            },
            _ => None,
        }
    } else {
        None
    }
}

/// A locator in interaction `k` of the locator's conversation.
pub open spec fn at_interaction(loc: SessionLocator, k: usize, il: InteractionLocator) -> SessionLocator {
    SessionLocator { conversation: loc.conversation, in_conversation: ConversationLocator::Interaction(k, il) }
}

/// The end of the output of an interaction: the TUI screen in TUI mode, else the visible
/// response (its screen, or its archived lines when the screen is empty), else the command.
pub open spec fn output_end(i: InteractionView) -> InteractionLocator {
    if i.tui_mode {
        InteractionLocator::Tui(i.tui_screen.matrix.height as usize)
    } else {
        match visible_of(i) {
            Some(r) => if r.screen.matrix.height == 0 {
                InteractionLocator::Response(ResponseLocator::Lines(r.lines.len() as usize))
            } else {
                InteractionLocator::Response(ResponseLocator::Screen(r.screen.matrix.height as usize))
            },
            None => InteractionLocator::Command(i.command.height as usize),
        }
    }
}

/// The end of the archived lines of an interaction: the TUI screen in TUI mode, else the
/// archived lines of the visible response, else the command.
pub open spec fn lines_end(i: InteractionView) -> InteractionLocator {
    if i.tui_mode {
        InteractionLocator::Tui(i.tui_screen.matrix.height as usize)
    } else {
        match visible_of(i) {
            Some(r) => InteractionLocator::Response(ResponseLocator::Lines(r.lines.len() as usize)),
            None => InteractionLocator::Command(i.command.height as usize),
        }
    }
}

/// The end of the prompt of the last conversation.
pub open spec fn sp_last_prompt_end(s: SessionView) -> MaybeSessionLocator {
    Some(SessionLocator {
        conversation: (s.conversations.len() - 1) as usize,
        in_conversation: ConversationLocator::Prompt(s.conversations.last().prompt.height as usize),
    })
}

/// The command of the last interaction of the locator's conversation.
pub open spec fn sp_conversation_end(s: SessionView, loc: SessionLocator) -> MaybeSessionLocator {
    if loc.conversation < s.conversations.len() && s.conversations[loc.conversation as int].interactions.len() > 0 {
        Some(at_interaction(
            loc,
            (s.conversations[loc.conversation as int].interactions.len() - 1) as usize,
            InteractionLocator::Command(0),
        ))
    } else {
        None
    }
}

/// The command of the previous interaction.
pub open spec fn sp_previous_interaction(loc: SessionLocator) -> MaybeSessionLocator {
    match loc.in_conversation {
        ConversationLocator::Interaction(k, _) => if k > 0 {
            Some(at_interaction(loc, (k - 1) as usize, InteractionLocator::Command(0)))
        } else {
            None
        },
        _ => None,
    }
}

/// The end of the output of the current interaction.
pub open spec fn sp_output_end(s: SessionView, loc: SessionLocator) -> MaybeSessionLocator {
    match located(s, loc) {
        Some((k, h)) => Some(at_interaction(loc, k, output_end(interaction_of(s, h)))),
        None => None,
    }
}

/// The end of the archived lines of the current interaction.
pub open spec fn sp_lines_end(s: SessionView, loc: SessionLocator) -> MaybeSessionLocator {
    match located(s, loc) {
        Some((k, h)) => Some(at_interaction(loc, k, lines_end(interaction_of(s, h)))),
        None => None,
    }
}

/// The end of the command of the current interaction.
pub open spec fn sp_command_end(s: SessionView, loc: SessionLocator) -> MaybeSessionLocator {
    match located(s, loc) {
        Some((k, h)) => Some(at_interaction(
            loc,
            k,
            InteractionLocator::Command(interaction_of(s, h).command.height as usize),
        )),
        None => None,
    }
}

/// The start of the prompt of the previous conversation.
pub open spec fn sp_previous_conversation(loc: SessionLocator) -> MaybeSessionLocator {
    if loc.conversation > 0 {
        Some(SessionLocator { conversation: (loc.conversation - 1) as usize, in_conversation: ConversationLocator::Prompt(0) })
    } else {
        None
    }
}

/// The end of the prompt of the locator's conversation.
pub open spec fn sp_prompt_end(s: SessionView, loc: SessionLocator) -> MaybeSessionLocator {
    if loc.conversation < s.conversations.len() {
        Some(SessionLocator {
            conversation: loc.conversation,
            in_conversation: ConversationLocator::Prompt(s.conversations[loc.conversation as int].prompt.height as usize),
        })
    } else {
        None
    }
}

/// The command of the first interaction of the next conversation.
pub open spec fn sp_next_conversation(s: SessionView, loc: SessionLocator) -> MaybeSessionLocator {
    if loc.conversation + 1 < s.conversations.len() && loc.conversation < usize::MAX {
        Some(SessionLocator {
            conversation: (loc.conversation + 1) as usize,
            in_conversation: ConversationLocator::Interaction(0, InteractionLocator::Command(0)),
        })
    } else {
        None
    }
}

/// The start of the output of the current interaction.
pub open spec fn sp_output_start(s: SessionView, loc: SessionLocator) -> MaybeSessionLocator {
    match located(s, loc) {
        Some((k, h)) => Some(at_interaction(
            loc,
            k,
            if interaction_of(s, h).tui_mode {
                InteractionLocator::Tui(0)
            } else {
                InteractionLocator::Response(ResponseLocator::Lines(0))
            },
        )),
        None => None,
    }
}

/// The command of the next interaction.
pub open spec fn sp_next_interaction(s: SessionView, loc: SessionLocator) -> MaybeSessionLocator {
    if loc.conversation < s.conversations.len() {
        match loc.in_conversation {
            ConversationLocator::Interaction(k, _) => if k + 1 < s.conversations[loc.conversation as int].interactions.len()
                && k < usize::MAX {
                Some(at_interaction(loc, (k + 1) as usize, InteractionLocator::Command(0)))
            } else {
                None
            },
            _ => None,
        }
    } else {
        None
    }
}

/// The start of the prompt of the locator's conversation.
pub open spec fn sp_prompt_start(s: SessionView, loc: SessionLocator) -> MaybeSessionLocator {
    if loc.conversation < s.conversations.len() {
        Some(SessionLocator { conversation: loc.conversation, in_conversation: ConversationLocator::Prompt(0) })
    } else {
        None
    }
}

/// The start of the screen of the current interaction.
pub open spec fn sp_screen_start(s: SessionView, loc: SessionLocator) -> MaybeSessionLocator {
    match located(s, loc) {
        Some((k, h)) => Some(at_interaction(loc, k, InteractionLocator::Response(ResponseLocator::Screen(0)))),
        None => None,
    }
}

/// How many lines the part of the session that `loc` names has, if that part exists.
pub open spec fn part_len(s: SessionView, loc: SessionLocator) -> Option<usize> {
    if loc.conversation < s.conversations.len() {
        let conv = s.conversations[loc.conversation as int];
        match loc.in_conversation {
            ConversationLocator::Prompt(_) => Some(conv.prompt.height as usize),
            ConversationLocator::Interaction(k, il) => if k < conv.interactions.len() {
                let i = interaction_of(s, conv.interactions[k as int]);
                match il {
                    InteractionLocator::Command(_) => Some(i.command.height as usize),
                    InteractionLocator::Tui(_) => Some(i.tui_screen.matrix.height as usize),
                    InteractionLocator::Response(ResponseLocator::Lines(_)) => match visible_of(i) {
                        Some(r) => Some(r.lines.len() as usize),
                        None => None,
                    },
                    InteractionLocator::Response(ResponseLocator::Screen(_)) => match visible_of(i) {
                        Some(r) => Some(r.screen.matrix.height as usize),
                        None => None,
                    },
                }
            } else {
                None
            },
        }
    } else {
        None
    }
}

/// Whether `loc` is past the end of its part: `None` where the locator is invalid. A response
/// line with no visible response counts as past the end.
pub open spec fn spec_is_end_line(s: SessionView, loc: SessionLocator) -> Option<bool> {
    match part_len(s, loc) {
        Some(n) => Some(crate::locator::loc_line(loc) >= n),
        None => if loc.conversation < s.conversations.len() && located(s, loc) is Some {
            Some(true)
        } else {
            None
        },
    }
}

/// Advancing `loc` by `n` lines within its part: the locator and the lines still to go. A
/// locator past the end of its part is moved to the end without using up lines.
pub open spec fn spec_inc_line(s: SessionView, loc: SessionLocator, n: usize) -> (SessionLocator, usize) {
    match part_len(s, loc) {
        Some(count) => {
            let line = crate::locator::loc_line(loc);
            if line + n <= count {
                (crate::locator::with_line(loc, (line + n) as usize), 0)
            } else if line <= count {
                (crate::locator::with_line(loc, count), (n - (count - line)) as usize)
            } else {
                (crate::locator::with_line(loc, count), n)
            }
        },
        None => (loc, n),
    }
}

proof fn lemma_conversations_view_update(v: Seq<Conversation>, i: int)
    requires
        0 <= i < v.len(),
    ensures
        forall|x: Conversation| #[trigger] conversations_view(v.update(i, x)) == conversations_view(v).update(i, x@),
{
    assert forall|x: Conversation| #[trigger] conversations_view(v.update(i, x)) == conversations_view(v).update(i, x@) by {
        assert(conversations_view(v.update(i, x)) =~= conversations_view(v).update(i, x@));
    }
}

proof fn lemma_interactions_view_update(v: Seq<Interaction>, i: int)
    requires
        0 <= i < v.len(),
    ensures
        forall|x: Interaction| #[trigger] interactions_view(v.update(i, x)) == interactions_view(v).update(i, x@),
{
    assert forall|x: Interaction| #[trigger] interactions_view(v.update(i, x)) == interactions_view(v).update(i, x@) by {
        assert(interactions_view(v.update(i, x)) =~= interactions_view(v).update(i, x@));
    }
}

impl Session {
    /// The interaction that a handle of a well-formed session refers to.
    fn inter(&self, h: InteractionHandle) -> (i: &Interaction)
        requires
            h.index() < self@.interactions.len(),
        ensures
            i@ == interaction_of(self@, h),
    {
        &self.interactions[h.0]
    }

    /// Create a new session with one conversation.
    pub fn new(prompt: Matrix) -> (s: Self)
        requires
            matrix_wf(prompt@),
        ensures
            session_wf(s@),
            s@.conversations.len() == 1,
            s@.conversations[0].prompt == prompt@,
            s@.conversations[0].interactions.len() == 0,
            s@.interactions.len() == 0,
            s@.needs_redraw,
            s@.window_width == DEFAULT_TUI_WIDTH,
            s@.window_height == DEFAULT_TUI_HEIGHT,
    {
        let mut conversations: Vec<Conversation> = Vec::new();
        conversations.push(Conversation::new(prompt));
        let s = Session {
            conversations,
            interactions: Vec::new(),
            needs_redraw: true,
            window_width: DEFAULT_TUI_WIDTH,
            window_height: DEFAULT_TUI_HEIGHT,
        };
        proof {
            assert(s@.interactions.len() == 0);
        }
        s
    }

    /// A locator at the end of the prompt of the last conversation.
    pub fn locate_at_last_prompt_end(&self) -> (r: MaybeSessionLocator)
        requires
            session_wf(self@),
        ensures
            r == sp_last_prompt_end(self@),
    {
        let conversations = self.conversations.len();
        let conversation = conversations - 1;
        let prompt_lines = self.conversations[conversation].prompt.rows() as usize;
        Some(SessionLocator { conversation, in_conversation: ConversationLocator::Prompt(prompt_lines) })
    }

    /// A locator at the command of the last interaction in the locator's conversation; `None`
    /// if the conversation does not exist or has no interactions.
    pub fn locate_at_conversation_end(&self, loc: &SessionLocator) -> (r: MaybeSessionLocator)
        ensures
            r == sp_conversation_end(self@, *loc),
    {
        if loc.conversation < self.conversations.len() {
            let interactions = self.conversations[loc.conversation].interactions.len();
            if interactions > 0 {
                return Some(SessionLocator {
                    conversation: loc.conversation,
                    in_conversation: ConversationLocator::Interaction(interactions - 1, InteractionLocator::Command(0)),
                });
            }
        }
        None
    }

    /// A locator at the command of the previous interaction; `None` if the locator is not in
    /// an interaction or in the first one.
    pub fn locate_at_previous_interaction(&self, loc: &SessionLocator) -> (r: MaybeSessionLocator)
        ensures
            r == sp_previous_interaction(*loc),
    {
        if let ConversationLocator::Interaction(interaction, _) = loc.in_conversation {
            if interaction > 0 {
                return Some(SessionLocator {
                    conversation: loc.conversation,
                    in_conversation: ConversationLocator::Interaction(interaction - 1, InteractionLocator::Command(0)),
                });
            }
        }
        None
    }

    /// A locator at the end of the output of the current interaction.
    pub fn locate_at_output_end(&self, loc: &SessionLocator) -> (r: MaybeSessionLocator)
        requires
            session_wf(self@),
        ensures
            r == sp_output_end(self@, *loc),
    {
        if loc.conversation < self.conversations.len() {
            if let ConversationLocator::Interaction(interaction_index, _) = loc.in_conversation {
                if interaction_index < self.conversations[loc.conversation].interactions.len() {
                    let interaction_handle = self.conversations[loc.conversation].interactions[interaction_index];
                    let interaction = self.inter(interaction_handle);
                    proof {
                        assert(interaction_wf(self@.interactions[interaction_handle.index()]));
                    }
                    let in_interaction = if interaction.tui_mode {
                        let tui_height = interaction.tui_screen.height() as usize;
                        InteractionLocator::Tui(tui_height)
                    } else {
                        if let Some(response) = interaction.visible_response() {
                            let screen_height = response.screen.height() as usize;
                            let in_response = if screen_height == 0 {
                                ResponseLocator::Lines(response.lines.len())
                            } else {
                                ResponseLocator::Screen(screen_height)
                            };
                            InteractionLocator::Response(in_response)
                        } else {
                            let command_height = interaction.command.rows() as usize;
                            InteractionLocator::Command(command_height)
                        }
                    };
                    let in_conversation = ConversationLocator::Interaction(interaction_index, in_interaction);
                    return Some(SessionLocator { conversation: loc.conversation, in_conversation });
                }
            }
        }
        None
    }

    /// A locator at the end of the archived lines of the current interaction.
    pub fn locate_at_lines_end(&self, loc: &SessionLocator) -> (r: MaybeSessionLocator)
        requires
            session_wf(self@),
        ensures
            r == sp_lines_end(self@, *loc),
    {
        if loc.conversation < self.conversations.len() {
            if let ConversationLocator::Interaction(interaction_index, _) = loc.in_conversation {
                if interaction_index < self.conversations[loc.conversation].interactions.len() {
                    let interaction_handle = self.conversations[loc.conversation].interactions[interaction_index];
                    let interaction = self.inter(interaction_handle);
                    let in_interaction = if interaction.tui_mode {
                        let tui_height = interaction.tui_screen.height() as usize;
                        InteractionLocator::Tui(tui_height)
                    } else {
                        if let Some(response) = interaction.visible_response() {
                            InteractionLocator::Response(ResponseLocator::Lines(response.lines.len()))
                        } else {
                            let command_height = interaction.command.rows() as usize;
                            InteractionLocator::Command(command_height)
                        }
                    };
                    let in_conversation = ConversationLocator::Interaction(interaction_index, in_interaction);
                    return Some(SessionLocator { conversation: loc.conversation, in_conversation });
                }
            }
        }
        None
    }

    /// A locator at the end of the command of the current interaction.
    pub fn locate_at_command_end(&self, loc: &SessionLocator) -> (r: MaybeSessionLocator)
        requires
            session_wf(self@),
        ensures
            r == sp_command_end(self@, *loc),
    {
        if loc.conversation < self.conversations.len() {
            if let ConversationLocator::Interaction(interaction_index, _) = loc.in_conversation {
                if interaction_index < self.conversations[loc.conversation].interactions.len() {
                    let interaction_handle = self.conversations[loc.conversation].interactions[interaction_index];
                    let interaction = self.inter(interaction_handle);
                    let command_height = interaction.command.rows() as usize;
                    let in_interaction = InteractionLocator::Command(command_height);
                    let in_conversation = ConversationLocator::Interaction(interaction_index, in_interaction);
                    return Some(SessionLocator { conversation: loc.conversation, in_conversation });
                }
            }
        }
        None
    }

    /// The beginning of the prompt of the previous conversation.
    pub fn locate_at_previous_conversation(&self, loc: &SessionLocator) -> (r: MaybeSessionLocator)
        ensures
            r == sp_previous_conversation(*loc),
    {
        if loc.conversation > 0 {
            return Some(SessionLocator { conversation: loc.conversation - 1, in_conversation: ConversationLocator::Prompt(0) });
        }
        None
    }

    /// A locator at the end of the prompt of a conversation.
    pub fn locate_at_prompt_end(&self, loc: &SessionLocator) -> (r: MaybeSessionLocator)
        requires
            session_wf(self@),
        ensures
            r == sp_prompt_end(self@, *loc),
    {
        if loc.conversation < self.conversations.len() {
            let prompt_lines = self.conversations[loc.conversation].prompt.rows() as usize;
            let in_conversation = ConversationLocator::Prompt(prompt_lines);
            return Some(SessionLocator { conversation: loc.conversation, in_conversation });
        }
        None
    }

    /// A locator at the first line of the command of the first interaction of the next
    /// conversation.
    pub fn locate_at_next_conversation(&self, loc: &SessionLocator) -> (r: MaybeSessionLocator)
        ensures
            r == sp_next_conversation(self@, *loc),
    {
        if loc.conversation < self.conversations.len() && loc.conversation + 1 < self.conversations.len() {
            let conversation_index = loc.conversation + 1;
            let in_conversation = ConversationLocator::Interaction(0, InteractionLocator::Command(0));
            return Some(SessionLocator { conversation: conversation_index, in_conversation });
        }
        None
    }

    /// A locator at the start of the output of the current interaction.
    pub fn locate_at_output_start(&self, loc: &SessionLocator) -> (r: MaybeSessionLocator)
        requires
            session_wf(self@),
        ensures
            r == sp_output_start(self@, *loc),
    {
        if loc.conversation < self.conversations.len() {
            let conversation = &self.conversations[loc.conversation];
            if let ConversationLocator::Interaction(interaction_index, _) = loc.in_conversation {
                if interaction_index < conversation.interactions.len() {
                    let interaction_handle = conversation.interactions[interaction_index];
                    if interaction_handle.0 < self.interactions.len() {
                        let interaction = self.inter(interaction_handle);
                        let interaction_locator = if interaction.tui_mode {
                            InteractionLocator::Tui(0)
                        } else {
                            InteractionLocator::Response(ResponseLocator::Lines(0))
                        };
                        let in_conversation = ConversationLocator::Interaction(interaction_index, interaction_locator);
                        return Some(SessionLocator { conversation: loc.conversation, in_conversation });
                    }
                }
            }
        }
        None
    }

    /// A locator at the start of the next interaction.
    pub fn locate_at_next_interaction(&self, loc: &SessionLocator) -> (r: MaybeSessionLocator)
        ensures
            r == sp_next_interaction(self@, *loc),
    {
        if loc.conversation < self.conversations.len() {
            let conversation = &self.conversations[loc.conversation];
            if let ConversationLocator::Interaction(interaction_index, _) = loc.in_conversation {
                if interaction_index < conversation.interactions.len()
                    && interaction_index + 1 < conversation.interactions.len() {
                    let interaction_index = interaction_index + 1;
                    let in_conversation = ConversationLocator::Interaction(interaction_index, InteractionLocator::Command(0));
                    return Some(SessionLocator { conversation: loc.conversation, in_conversation });
                }
            }
        }
        None
    }

    /// A locator at the start of the prompt of the current conversation.
    pub fn locate_at_prompt_start(&self, loc: &SessionLocator) -> (r: MaybeSessionLocator)
        ensures
            r == sp_prompt_start(self@, *loc),
    {
        if loc.conversation < self.conversations.len() {
            let in_conversation = ConversationLocator::Prompt(0);
            return Some(SessionLocator { conversation: loc.conversation, in_conversation });
        }
        None
    }

    /// A locator at the start of the screen of the current interaction.
    pub fn locate_at_screen_start(&self, loc: &SessionLocator) -> (r: MaybeSessionLocator)
        ensures
            r == sp_screen_start(self@, *loc),
    {
        if loc.conversation < self.conversations.len() {
            let conversation = &self.conversations[loc.conversation];
            if let ConversationLocator::Interaction(interaction_index, _) = loc.in_conversation {
                if interaction_index < conversation.interactions.len() {
                    let in_conversation = ConversationLocator::Interaction(
                        interaction_index,
                        InteractionLocator::Response(ResponseLocator::Screen(0)),
                    );
                    return Some(SessionLocator { conversation: loc.conversation, in_conversation });
                }
            }
        }
        None
    }

    /// Determine if the locator is at the last conversation.
    pub fn locator_is_last_conversation(&self, loc: &SessionLocator) -> (b: bool)
        ensures
            b == (loc.conversation + 1 == self@.conversations.len()),
    {
        loc.conversation < self.conversations.len() && loc.conversation + 1 == self.conversations.len()
    }
}

// ---------------------------------------------------------------------------------------------
// Lines of a session

/// What a line of the session shows.
#[derive(Clone, Copy, Debug, PartialEq, Eq, Structural)]
pub enum LineType {
    /// A line of a prompt.
    Prompt,
    /// A line of a command, with the visibility of its output, its interaction and its status.
    Command(OutputVisibility, InteractionHandle, RunningStatus),
    /// A line that a program printed.
    Output,
    /// A line of the input being composed.
    Input,
    /// The selected entry of a menu, with its position in the menu.
    SelectedMenuItem(usize),
    /// An entry of a menu that is not selected, with its position in the menu.
    MenuItem(usize),
    /// A line of a menu that cannot be picked.
    MenuDecoration,
    /// A line of a full-screen program.
    Tui,
}

/// A line to show: its cells, what it is, where the cursor is in it, and the hash of the
/// prompt of its conversation.
pub struct LineItem {
    pub text: Vec<Cell>,
    pub is_a: LineType,
    pub cursor_col: Option<usize>,
    pub prompt_hash: u64,
}

impl LineItem {
    /// A line from borrowed cells.
    pub fn new(text: &[Cell], is_a: LineType, cursor_col: Option<usize>, prompt_hash: u64) -> (l: Self)
        ensures
            l.text@ == text@,
            l.is_a == is_a,
            l.cursor_col == cursor_col,
            l.prompt_hash == prompt_hash,
    {
        LineItem { text: vstd::slice::slice_to_vec(text), is_a, cursor_col, prompt_hash }
    }

    /// A line from owned cells.
    pub fn new_owned(text: Vec<Cell>, is_a: LineType, cursor_col: Option<usize>, prompt_hash: u64) -> (l: Self)
        ensures
            l.text@ == text@,
            l.is_a == is_a,
            l.cursor_col == cursor_col,
            l.prompt_hash == prompt_hash,
    {
        LineItem { text, is_a, cursor_col, prompt_hash }
    }
}

/// The cells of row `y` of a TUI screen as they are shown: the row without its last cell.
pub open spec fn tui_row(m: MatrixView, y: int) -> Seq<Cell> {
    if m.width > 0 {
        row_of(m, y).drop_last()
    } else {
        Seq::empty()
    }
}

/// The line that `loc` points at, with what kind of line it is: `None` past the end of its
/// part or for an invalid locator.
pub open spec fn spec_display_line(s: SessionView, loc: SessionLocator) -> Option<(Seq<Cell>, LineType)> {
    if loc.conversation < s.conversations.len() {
        let conv = s.conversations[loc.conversation as int];
        match loc.in_conversation {
            ConversationLocator::Prompt(line) => if line < conv.prompt.height {
                Some((compacted_row_of(conv.prompt, line as int), LineType::Prompt))
            } else {
                None
            },
            ConversationLocator::Interaction(k, il) => if k < conv.interactions.len() {
                let h = conv.interactions[k as int];
                let i = interaction_of(s, h);
                match il {
                    InteractionLocator::Command(line) => if line < i.command.height {
                        Some((compacted_row_of(i.command, line as int), LineType::Command(i.visible, h, i.running_status)))
                    } else {
                        None
                    },
                    InteractionLocator::Tui(line) => if line < i.tui_screen.matrix.height {
                        Some((tui_row(i.tui_screen.matrix, line as int), LineType::Output))
                    } else {
                        None
                    },
                    InteractionLocator::Response(ResponseLocator::Lines(line)) => match visible_of(i) {
                        Some(r) => if line < r.lines.len() {
                            Some((r.lines[line as int], LineType::Output))
                        } else {
                            None
                        },
                        None => None,
                    },
                    InteractionLocator::Response(ResponseLocator::Screen(line)) => match visible_of(i) {
                        Some(r) => if line < r.screen.matrix.height {
                            Some((compacted_row_of(r.screen.matrix, line as int), LineType::Output))
                        } else {
                            None
                        },
                        None => None,
                    },
                }
            } else {
                None
            },
        }
    } else {
        None
    }
}

/// Every part of the session counts its lines in a `usize`, as stored data does.
pub open spec fn parts_fit(s: SessionView) -> bool {
    &&& forall|c: int| 0 <= c < s.conversations.len() ==> (#[trigger] s.conversations[c]).prompt.height <= usize::MAX
    &&& forall|k: int|
        0 <= k < s.interactions.len() ==> {
            let i = #[trigger] s.interactions[k];
            &&& i.command.height <= usize::MAX
            &&& i.tui_screen.matrix.height <= usize::MAX
            &&& i.output.screen.matrix.height <= usize::MAX
            &&& i.errors.screen.matrix.height <= usize::MAX
            &&& i.output.lines.len() <= usize::MAX
            &&& i.errors.lines.len() <= usize::MAX
        }
}

/// The law below on session values whose parts count their lines in a `usize`.
proof fn lemma_display_line_iff_not_end_line(s: SessionView, loc: SessionLocator)
    requires
        session_wf(s),
        parts_fit(s),
    ensures
        (spec_display_line(s, loc) is Some) == (spec_is_end_line(s, loc) == Some(false)),
{
    if loc.conversation < s.conversations.len() {
        let conv = s.conversations[loc.conversation as int];
        if let ConversationLocator::Interaction(k, il) = loc.in_conversation {
            if k < conv.interactions.len() {
                let h = conv.interactions[k as int];
                assert(h.index() < s.interactions.len());
                let i = interaction_of(s, h);
                assert(interaction_wf(i));
                assert(i == s.interactions[h.index()]);
            }
        } else {
            assert(matrix_wf(conv.prompt));
            assert(conv.prompt.height <= usize::MAX);
        }
    }
}

/// Every part of a session counts its lines in a `usize`.
pub proof fn lemma_parts_fit(session: &Session)
    ensures
        parts_fit(session@),
{
    assert forall|c: int| 0 <= c < session@.conversations.len() implies (#[trigger] session@.conversations[c]).prompt.height
        <= usize::MAX by {
        session.conversations@[c].prompt.lemma_height_fits();
    }
    assert forall|k: int| 0 <= k < session@.interactions.len() implies {
        let i = #[trigger] session@.interactions[k];
        &&& i.command.height <= usize::MAX
        &&& i.tui_screen.matrix.height <= usize::MAX
        &&& i.output.screen.matrix.height <= usize::MAX
        &&& i.errors.screen.matrix.height <= usize::MAX
        &&& i.output.lines.len() <= usize::MAX
        &&& i.errors.lines.len() <= usize::MAX
    } by {
        let x = &session.interactions@[k];
        x.command.lemma_height_fits();
        x.tui_screen.lemma_height_fits();
        x.output.screen.lemma_height_fits();
        x.errors.screen.lemma_height_fits();
        assert(x.output.lines@.len() == x.output.lines.len());
        assert(x.errors.lines@.len() == x.errors.lines.len());
    }
}

/// A locator shows a line exactly where it is not past the end of its part: an invalid
/// locator shows none and has no answer, a locator past the end shows none.
pub proof fn law_display_line_iff_not_end_line(session: &Session, loc: SessionLocator)
    requires
        session_wf(session@),
    ensures
        (spec_display_line(session@, loc) is Some) == (spec_is_end_line(session@, loc) == Some(false)),
{
    lemma_parts_fit(session);
    lemma_display_line_iff_not_end_line(session@, loc);
}

/// The session with the interaction of handle `h` replaced.
pub open spec fn set_inter(s: SessionView, h: InteractionHandle, i: InteractionView) -> SessionView {
    SessionView { interactions: s.interactions.update(h.index(), i), ..s }
}

/// The session with the interaction of handle `h` changed by `f`, if the handle is valid.
pub open spec fn map_inter(s: SessionView, h: InteractionHandle, f: spec_fn(InteractionView) -> InteractionView) -> SessionView {
    if h.index() < s.interactions.len() {
        set_inter(s, h, f(s.interactions[h.index()]))
    } else {
        s
    }
}

/// The session with `bytes` added to a stream of the interaction of handle `h`.
pub open spec fn with_added_bytes(s: SessionView, stream: OutputVisibility, h: InteractionHandle, bytes: Seq<u8>) -> SessionView {
    if h.index() < s.interactions.len() {
        let (i, redraw) = inter_add_bytes(interaction_of(s, h), stream, bytes);
        SessionView { needs_redraw: s.needs_redraw || redraw, ..set_inter(s, h, i) }
    } else {
        s
    }
}

/// The session with the running status of the interaction of handle `h` set, and its errors
/// shown if it failed.
pub open spec fn with_status(s: SessionView, h: InteractionHandle, status: RunningStatus) -> SessionView {
    map_inter(s, h, |i: InteractionView| after_potential_errors(InteractionView { running_status: status, ..i }))
}

/// The session with the visibility of the interaction of handle `h` set.
pub open spec fn with_visibility(s: SessionView, h: InteractionHandle, visible: OutputVisibility) -> SessionView {
    map_inter(s, h, |i: InteractionView| InteractionView { visible, ..i })
}

/// The session with the visibility of the interaction of handle `h` cycled.
pub open spec fn cycled_visibility(s: SessionView, h: InteractionHandle) -> SessionView {
    map_inter(s, h, |i: InteractionView| InteractionView { visible: next_visibility(i.visible), ..i })
}

/// The session with every interaction showing `ov`.
pub open spec fn with_visibility_all(s: SessionView, ov: OutputVisibility) -> SessionView {
    SessionView { interactions: s.interactions.map_values(|i: InteractionView| InteractionView { visible: ov, ..i }), ..s }
}

/// The next visibility when cycling: output, errors, nothing, output again.
pub open spec fn next_visibility(v: OutputVisibility) -> OutputVisibility {
    match v {
        OutputVisibility::Output => OutputVisibility::Error,
        OutputVisibility::Error => OutputVisibility::Nothing,
        OutputVisibility::Nothing => OutputVisibility::Output,
    }
}

/// Replacing a well-formed interaction keeps a session well-formed.
proof fn lemma_set_inter_wf(s: SessionView, h: InteractionHandle, i: InteractionView)
    requires
        session_wf(s),
        h.index() < s.interactions.len(),
        interaction_wf(i),
    ensures
        session_wf(set_inter(s, h, i)),
{
    let t = set_inter(s, h, i);
    assert forall|j: int| 0 <= j < t.interactions.len() implies interaction_wf(#[trigger] t.interactions[j]) by {
        if j != h.index() {
            assert(t.interactions[j] == s.interactions[j]);
        }
    }
}

impl Session {
    /// The interaction of a handle, to be changed.
    fn inter_mut(&mut self, h: InteractionHandle) -> (r: &mut Interaction)
        requires
            h.index() < old(self)@.interactions.len(),
        ensures
            r@ == old(self)@.interactions[h.index()],
            final(self)@ == set_inter(old(self)@, h, final(r)@),
    {
        proof {
            lemma_interactions_view_update(self.interactions@, h.0 as int);
        }
        &mut self.interactions[h.0]
    }

    /// How many lines the part that `loc` names has.
    fn part_len(&self, loc: &SessionLocator) -> (r: Option<usize>)
        requires
            session_wf(self@),
        ensures
            r == part_len(self@, *loc),
    {
        if loc.conversation < self.conversations.len() {
            let conversation = &self.conversations[loc.conversation];
            match &loc.in_conversation {
                ConversationLocator::Prompt(_) => Some(conversation.prompt.rows() as usize),
                ConversationLocator::Interaction(interaction_index, interaction_locator) => {
                    if *interaction_index < conversation.interactions.len() {
                        let interaction_handle = conversation.interactions[*interaction_index];
                        let interaction = self.inter(interaction_handle);
                        proof {
                            assert(interaction_wf(self@.interactions[interaction_handle.index()]));
                        }
                        match interaction_locator {
                            InteractionLocator::Command(_) => Some(interaction.command.rows() as usize),
                            InteractionLocator::Tui(_) => Some(interaction.tui_screen.height() as usize),
                            InteractionLocator::Response(ResponseLocator::Lines(_)) => match interaction.visible_response() {
                                Some(r) => Some(r.lines.len()),
                                None => None,
                            },
                            InteractionLocator::Response(ResponseLocator::Screen(_)) => match interaction.visible_response() {
                                Some(r) => Some(r.screen.height() as usize),
                                None => None,
                            },
                        }
                    } else {
                        None
                    }
                },
            }
        } else {
            None
        }
    }

    /// Check if the locator is past the end of its part; `None` if it is invalid.
    pub fn locator_is_end_line(&self, loc: &SessionLocator) -> (r: Option<bool>)
        requires
            session_wf(self@),
        ensures
            r == spec_is_end_line(self@, *loc),
    {
        match self.part_len(loc) {
            Some(n) => Some(loc.line() >= n),
            None => {
                if loc.conversation < self.conversations.len() {
                    if let ConversationLocator::Interaction(interaction_index, _) = loc.in_conversation {
                        if interaction_index < self.conversations[loc.conversation].interactions.len() {
                            return Some(true);
                        }
                    }
                }
                None
            },
        }
    }

    /// Advance the line of a locator by at most `lines` within its part, and take from
    /// `lines` what was used.
    pub fn locator_inc_line(&self, loc: &mut SessionLocator, lines: &mut usize)
        requires
            session_wf(self@),
            crate::locator::loc_line(*old(loc)) + *old(lines) <= usize::MAX,
        ensures
            (*final(loc), *final(lines)) == spec_inc_line(self@, *old(loc), *old(lines)),
    {
        if let Some(count) = self.part_len(loc) {
            let line = loc.line();
            if line + *lines <= count {
                loc.set_line(line + *lines);
                *lines = 0;
            } else {
                if line <= count {
                    *lines = *lines - (count - line);
                }
                loc.set_line(count);
            }
        }
    }

    /// Show the output of a given interaction.
    pub fn show_output(&mut self, handle: InteractionHandle)
        requires
            session_wf(old(self)@),
        ensures
            session_wf(final(self)@),
            final(self)@ == map_inter(old(self)@, handle, |i: InteractionView| InteractionView { visible: OutputVisibility::Output, ..i }),
    {
        self.set_visibility(handle, OutputVisibility::Output);
    }

    /// Show the errors of a given interaction.
    pub fn show_errors(&mut self, handle: InteractionHandle)
        requires
            session_wf(old(self)@),
        ensures
            session_wf(final(self)@),
            final(self)@ == map_inter(old(self)@, handle, |i: InteractionView| InteractionView { visible: OutputVisibility::Error, ..i }),
    {
        self.set_visibility(handle, OutputVisibility::Error);
    }

    /// Archive the screens of both responses of the given interaction.
    pub fn archive_interaction(&mut self, handle: InteractionHandle)
        requires
            session_wf(old(self)@),
        ensures
            session_wf(final(self)@),
            final(self)@ == map_inter(old(self)@, handle, |i: InteractionView| InteractionView {
                output: archived(i.output),
                errors: archived(i.errors),
                ..i
            }),
    {
        if handle.0 < self.interactions.len() {
            proof {
                assert(interaction_wf(self@.interactions[handle.index()]));
            }
            let i = self.inter_mut(handle);
            i.output.archive_screen();
            i.errors.archive_screen();
            proof {
                lemma_set_inter_wf(old(self)@, handle, i@);
            }
        }
    }

    /// The line that a locator points at.
    pub fn display_line(&self, loc: &SessionLocator) -> (r: Option<LineItem>)
        requires
            session_wf(self@),
        ensures
            match r {
                Some(l) => {
                    &&& spec_display_line(self@, *loc) == Some((l.text@, l.is_a))
                    &&& l.cursor_col is None
                    &&& l.prompt_hash == self@.conversations[loc.conversation as int].prompt_hash
                },
                None => spec_display_line(self@, *loc) is None,
            },
            r is Some <==> spec_is_end_line(self@, *loc) == Some(false),
    {
        proof {
            law_display_line_iff_not_end_line(self, *loc);
        }
        if loc.conversation < self.conversations.len() {
            let conversation = &self.conversations[loc.conversation];
            let prompt_hash = conversation.prompt_hash;
            proof {
                assert(matrix_wf(self@.conversations[loc.conversation as int].prompt));
            }
            match &loc.in_conversation {
                ConversationLocator::Prompt(line) => {
                    if *line < (conversation.prompt.rows() as usize) {
                        return Some(LineItem::new(
                            conversation.prompt.compacted_row_slice(*line as isize),
                            LineType::Prompt,
                            None,
                            prompt_hash,
                        ));
                    }
                },
                ConversationLocator::Interaction(interaction_index, interaction_locator) => {
                    if *interaction_index < conversation.interactions.len() {
                        let interaction_handle = conversation.interactions[*interaction_index];
                        let interaction = self.inter(interaction_handle);
                        proof {
                            assert(interaction_wf(self@.interactions[interaction_handle.index()]));
                        }
                        match interaction_locator {
                            InteractionLocator::Command(line) => {
                                if *line < (interaction.command.rows() as usize) {
                                    let lt = LineType::Command(
                                        interaction.visible,
                                        interaction_handle,
                                        interaction.running_status,
                                    );
                                    return Some(LineItem::new(
                                        interaction.command.compacted_row_slice(*line as isize),
                                        lt,
                                        None,
                                        prompt_hash,
                                    ));
                                }
                            },
                            InteractionLocator::Tui(line) => {
                                if *line < (interaction.tui_screen.height() as usize) {
                                    return Some(LineItem::new(
                                        interaction.tui_screen.row_slice(*line as isize),
                                        LineType::Output,
                                        None,
                                        prompt_hash,
                                    ));
                                }
                            },
                            InteractionLocator::Response(ResponseLocator::Lines(line)) => {
                                return match interaction.visible_response() {
                                    Some(r) => {
                                        if *line < r.lines.len() {
                                            Some(LineItem::new(r.lines[*line].as_slice(), LineType::Output, None, prompt_hash))
                                        } else {
                                            None
                                        }
                                    },
                                    None => None,
                                };
                            },
                            InteractionLocator::Response(ResponseLocator::Screen(line)) => {
                                return match interaction.visible_response() {
                                    Some(r) => {
                                        if *line < r.screen.height() as usize {
                                            Some(LineItem::new(
                                                r.screen.compacted_row_slice(*line as isize),
                                                LineType::Output,
                                                None,
                                                prompt_hash,
                                            ))
                                        } else {
                                            None
                                        }
                                    },
                                    None => None,
                                };
                            },
                        }
                    }
                },
            }
        }
        None
    }

    /// Add a new interaction to the latest conversation and return its handle.
    pub fn add_interaction(&mut self, command: Matrix) -> (h: InteractionHandle)
        requires
            session_wf(old(self)@),
            matrix_wf(command@),
        ensures
            session_wf(final(self)@),
            h.index() == old(self)@.interactions.len(),
            final(self)@ == with_new_interaction(old(self)@, old(self)@.conversations.len() - 1, command@, h),
    {
        let last = self.conversations.len() - 1;
        self.add_interaction_to(last, command)
    }

    /// The TUI screen of an interaction that is in TUI mode.
    pub fn tui_screen(&self, handle: &InteractionHandle) -> (r: Option<&Screen>)
        ensures
            match r {
                Some(sc) => handle.index() < self@.interactions.len() && interaction_of(self@, *handle).tui_mode
                    && sc@ == interaction_of(self@, *handle).tui_screen && (session_wf(self@) ==> screen_wf(sc@)),
                None => !(handle.index() < self@.interactions.len() && interaction_of(self@, *handle).tui_mode),
            },
    {
        if handle.0 < self.interactions.len() {
            let interaction = self.inter(*handle);
            if interaction.tui_mode {
                return Some(&interaction.tui_screen);
            }
        }
        None
    }

    /// Open a new conversation unless the last one has a prompt that looks the same.
    pub fn new_conversation(&mut self, prompt: Matrix)
        requires
            session_wf(old(self)@),
            matrix_wf(prompt@),
        ensures
            session_wf(final(self)@),
            crate::screen::matrices_look_same(old(self)@.conversations.last().prompt, prompt@) ==> final(self)@ == old(self)@,
            !crate::screen::matrices_look_same(old(self)@.conversations.last().prompt, prompt@) ==> {
                &&& final(self)@.conversations.len() == old(self)@.conversations.len() + 1
                &&& final(self)@.conversations.drop_last() == old(self)@.conversations
                &&& final(self)@.conversations.last().prompt == prompt@
                &&& final(self)@.conversations.last().interactions.len() == 0
                &&& final(self)@.interactions == old(self)@.interactions
                &&& final(self)@.needs_redraw == old(self)@.needs_redraw
                &&& final(self)@.window_width == old(self)@.window_width
                &&& final(self)@.window_height == old(self)@.window_height
            },
    {
        let n = self.conversations.len();
        if self.conversations[n - 1].prompt.looks_same(&prompt) {
            return;
        }
        let c = Conversation::new(prompt);
        let ghost cv = c@;
        self.conversations.push(c);
        proof {
            assert(conversations_view(self.conversations@) =~= conversations_view(old(self).conversations@).push(cv));
            let t = self@;
            assert(t.conversations.drop_last() =~= old(self)@.conversations);
            assert forall|c: int, k: int| 0 <= c < t.conversations.len() && 0 <= k < t.conversations[c].interactions.len()
                implies (#[trigger] t.conversations[c].interactions[k]).index() < t.interactions.len() by {
                assert(c < n);
                assert(t.conversations[c] == old(self)@.conversations[c]);
            }
            assert forall|c: int| 0 <= c < t.conversations.len() implies matrix_wf(#[trigger] t.conversations[c].prompt) by {
                if c < n {
                    assert(t.conversations[c] == old(self)@.conversations[c]);
                } else {
                    assert(t.conversations[c] == cv);
                }
            }
            assert(t.interactions == old(self)@.interactions);
        }
    }

    /// Add bytes to the selected stream of an interaction; in TUI mode they go to its TUI
    /// screen instead. The session is marked for redrawing where the bytes ask for it.
    pub fn add_bytes(&mut self, stream: OutputVisibility, handle: InteractionHandle, bytes: &[u8])
        requires
            session_wf(old(self)@),
        ensures
            session_wf(final(self)@),
            handle.index() < old(self)@.interactions.len() ==> {
                let (i, redraw) = inter_add_bytes(interaction_of(old(self)@, handle), stream, bytes@);
                final(self)@ == (SessionView { needs_redraw: old(self)@.needs_redraw || redraw, ..set_inter(old(self)@, handle, i) })
            },
            handle.index() >= old(self)@.interactions.len() ==> final(self)@ == old(self)@,
            final(self)@ == with_added_bytes(old(self)@, stream, handle, bytes@),
    {
        if handle.0 < self.interactions.len() {
            proof {
                assert(interaction_wf(self@.interactions[handle.index()]));
            }
            let i = self.inter_mut(handle);
            let redraw = i.add_bytes(stream, bytes);
            proof {
                lemma_set_inter_wf(old(self)@, handle, i@);
            }
            self.needs_redraw = self.needs_redraw || redraw;
        }
    }

    /// Set the running status of an interaction and show its errors if it failed.
    pub fn set_running_status(&mut self, handle: InteractionHandle, status: RunningStatus)
        requires
            session_wf(old(self)@),
        ensures
            session_wf(final(self)@),
            final(self)@ == with_status(old(self)@, handle, status),
    {
        if handle.0 < self.interactions.len() {
            proof {
                assert(interaction_wf(self@.interactions[handle.index()]));
            }
            let i = self.inter_mut(handle);
            i.running_status = status;
            i.show_potential_errors();
            proof {
                lemma_set_inter_wf(old(self)@, handle, i@);
            }
        }
    }

    /// Check if the given interaction has exited.
    pub fn has_exited(&self, handle: InteractionHandle) -> (b: bool)
        ensures
            b == (handle.index() < self@.interactions.len() && interaction_of(self@, handle).running_status is Exited),
    {
        if handle.0 < self.interactions.len() {
            if let RunningStatus::Exited(_) = self.inter(handle).running_status {
                return true;
            }
        }
        false
    }

    /// Mark the session as redrawn.
    pub fn mark_drawn(&mut self)
        ensures
            final(self)@ == (SessionView { needs_redraw: false, ..old(self)@ }),
    {
        self.needs_redraw = false;
    }

    /// Check if the session needs redrawing, and reset that.
    pub fn check_redraw(&mut self) -> (b: bool)
        ensures
            b == old(self)@.needs_redraw,
            final(self)@ == (SessionView { needs_redraw: false, ..old(self)@ }),
    {
        let res = self.needs_redraw;
        self.needs_redraw = false;
        res
    }

    /// Check if the given interaction is in TUI mode.
    pub fn is_tui(&self, handle: InteractionHandle) -> (b: bool)
        ensures
            b == (handle.index() < self@.interactions.len() && interaction_of(self@, handle).tui_mode),
    {
        handle.0 < self.interactions.len() && self.inter(handle).tui_mode
    }

    /// Cycle the visibility of an interaction: output, errors, nothing.
    pub fn cycle_visibility(&mut self, handle: InteractionHandle)
        requires
            session_wf(old(self)@),
        ensures
            session_wf(final(self)@),
            final(self)@ == cycled_visibility(old(self)@, handle),
    {
        if handle.0 < self.interactions.len() {
            proof {
                assert(interaction_wf(self@.interactions[handle.index()]));
            }
            let i = self.inter_mut(handle);
            let v = match i.visible {
                OutputVisibility::Output => OutputVisibility::Error,
                OutputVisibility::Error => OutputVisibility::Nothing,
                OutputVisibility::Nothing => OutputVisibility::Output,
            };
            i.visible = v;
            proof {
                lemma_set_inter_wf(old(self)@, handle, i@);
            }
        }
    }

    /// Set the visibility of an interaction.
    pub fn set_visibility(&mut self, handle: InteractionHandle, visible: OutputVisibility)
        requires
            session_wf(old(self)@),
        ensures
            session_wf(final(self)@),
            final(self)@ == with_visibility(old(self)@, handle, visible),
    {
        if handle.0 < self.interactions.len() {
            proof {
                assert(interaction_wf(self@.interactions[handle.index()]));
            }
            let i = self.inter_mut(handle);
            i.visible = visible;
            proof {
                lemma_set_inter_wf(old(self)@, handle, i@);
            }
        }
    }

    /// Get the visibility of an interaction.
    pub fn get_visibility(&self, handle: InteractionHandle) -> (r: Option<OutputVisibility>)
        ensures
            r == if handle.index() < self@.interactions.len() {
                Some(interaction_of(self@, handle).visible)
            } else {
                None
            },
    {
        if handle.0 < self.interactions.len() {
            Some(self.inter(handle).visible)
        } else {
            None
        }
    }

    /// The handle of the last interaction, if there is one.
    pub fn last_interaction(&self) -> (r: Option<InteractionHandle>)
        ensures
            match r {
                Some(h) => self@.interactions.len() > 0 && h.index() == self@.interactions.len() - 1 && h == last_handle(self@),
                None => self@.interactions.len() == 0,
            },
    {
        if self.interactions.len() == 0 {
            None
        } else {
            Some(InteractionHandle(self.interactions.len() - 1))
        }
    }

    /// Set the visibility of all interactions.
    pub fn set_visibility_all(&mut self, ov: OutputVisibility)
        requires
            session_wf(old(self)@),
        ensures
            session_wf(final(self)@),
            final(self)@ == with_visibility_all(old(self)@, ov),
            final(self)@.conversations == old(self)@.conversations,
            final(self)@.needs_redraw == old(self)@.needs_redraw,
            final(self)@.window_width == old(self)@.window_width,
            final(self)@.window_height == old(self)@.window_height,
            final(self)@.interactions.len() == old(self)@.interactions.len(),
            forall|k: int| 0 <= k < old(self)@.interactions.len() ==> #[trigger] final(self)@.interactions[k]
                == (InteractionView { visible: ov, ..old(self)@.interactions[k] }),
    {
        let mut k: usize = 0;
        while k < self.interactions.len()
            invariant
                session_wf(self@),
                k <= self@.interactions.len(),
                self@.conversations == old(self)@.conversations,
                self@.needs_redraw == old(self)@.needs_redraw,
                self@.window_width == old(self)@.window_width,
                self@.window_height == old(self)@.window_height,
                self@.interactions.len() == old(self)@.interactions.len(),
                forall|j: int| 0 <= j < k ==> #[trigger] self@.interactions[j]
                    == (InteractionView { visible: ov, ..old(self)@.interactions[j] }),
                forall|j: int| k <= j < self@.interactions.len() ==> #[trigger] self@.interactions[j] == old(self)@.interactions[j],
            decreases self@.interactions.len() - k,
        {
            let h = InteractionHandle(k);
            proof {
                assert(interaction_wf(self@.interactions[k as int]));
            }
            let ghost before = self@;
            let i = self.inter_mut(h);
            i.visible = ov;
            proof {
                lemma_set_inter_wf(before, h, i@);
            }
            k = k + 1;
        }
        proof {
            assert(self@.interactions =~= with_visibility_all(old(self)@, ov).interactions);
        }
    }

    /// Count one more thread that feeds data into an interaction.
    pub fn register_thread(&mut self, handle: InteractionHandle)
        requires
            session_wf(old(self)@),
        ensures
            session_wf(final(self)@),
            final(self)@ == map_inter(old(self)@, handle, |i: InteractionView| InteractionView {
                threads: if i.threads < usize::MAX { (i.threads + 1) as usize } else { i.threads },
                ..i
            }),
    {
        if handle.0 < self.interactions.len() {
            proof {
                assert(interaction_wf(self@.interactions[handle.index()]));
            }
            let i = self.inter_mut(handle);
            i.threads = i.threads.saturating_add(1);
            proof {
                lemma_set_inter_wf(old(self)@, handle, i@);
            }
        }
    }

    /// Count one thread less that feeds data into an interaction. When none is left, the
    /// interaction is cleaned up after its exit.
    pub fn unregister_thread(&mut self, handle: InteractionHandle)
        requires
            session_wf(old(self)@),
        ensures
            session_wf(final(self)@),
            final(self)@ == map_inter(old(self)@, handle, |i: InteractionView| {
                let t = if i.threads > 0 { (i.threads - 1) as usize } else { 0usize };
                let j = InteractionView { threads: t, ..i };
                if t == 0 {
                    after_exit_cleanup(j)
                } else {
                    j
                }
            }),
    {
        if handle.0 < self.interactions.len() {
            proof {
                assert(interaction_wf(self@.interactions[handle.index()]));
            }
            let i = self.inter_mut(handle);
            i.threads = i.threads.saturating_sub(1);
            if i.threads == 0 {
                i.exit_cleanup();
            }
            proof {
                lemma_set_inter_wf(old(self)@, handle, i@);
            }
        }
    }

    /// The next newer interaction after `handle` that is in TUI mode and still running; with
    /// `None` the search starts at the oldest interaction. `None` if there is none.
    pub fn next_running_tui(&self, handle: Option<InteractionHandle>) -> (r: Option<InteractionHandle>)
        ensures
            ({
                let lo = tui_search_start(handle);
                match r {
                    Some(h) => {
                        &&& lo <= h.index() < self@.interactions.len()
                        &&& self@.interactions[h.index()].tui_mode
                        &&& !(self@.interactions[h.index()].running_status is Exited)
                        &&& forall|k: int| lo <= k < h.index() ==> !(#[trigger] self@.interactions[k].tui_mode
                            && !(self@.interactions[k].running_status is Exited))
                    },
                    None => forall|k: int| lo <= k < self@.interactions.len() ==> !(#[trigger] self@.interactions[k].tui_mode
                        && !(self@.interactions[k].running_status is Exited)),
                }
            }),
    {
        let mut index: usize = match handle {
            Some(h) => {
                if h.0 >= self.interactions.len() {
                    return None;
                }
                h.0 + 1
            },
            None => 0,
        };
        let ghost lo = tui_search_start(handle);
        while index < self.interactions.len()
            invariant
                lo == tui_search_start(handle),
                lo <= index,
                index <= self@.interactions.len(),
                self@.interactions.len() == self.interactions@.len(),
                forall|k: int| lo <= k < index ==> !(#[trigger] self@.interactions[k].tui_mode
                    && !(self@.interactions[k].running_status is Exited)),
            decreases self@.interactions.len() - index,
        {
            let i = self.inter(InteractionHandle(index));
            if i.tui_mode && i.running_status.is_running() {
                return Some(InteractionHandle(index));
            }
            index = index + 1;
        }
        None
    }

    /// The interaction of a handle, if the handle is valid.
    pub fn interaction(&self, handle: InteractionHandle) -> (r: Option<&Interaction>)
        ensures
            match r {
                Some(i) => handle.index() < self@.interactions.len() && i@ == interaction_of(self@, handle),
                None => handle.index() >= self@.interactions.len(),
            },
    {
        if handle.0 < self.interactions.len() {
            Some(self.inter(handle))
        } else {
            None
        }
    }

    /// The conversations of the session, oldest first.
    pub fn conversations(&self) -> (r: &Vec<Conversation>)
        ensures
            conversations_view(r@) == self@.conversations,
    {
        &self.conversations
    }

    /// The interactions of the session, oldest first.
    pub fn interactions(&self) -> (r: &Vec<Interaction>)
        ensures
            interactions_view(r@) == self@.interactions,
    {
        &self.interactions
    }

    /// Set the size of the window.
    pub fn set_window_size(&mut self, w: usize, h: usize)
        ensures
            final(self)@ == (SessionView { window_width: w, window_height: h, ..old(self)@ }),
    {
        self.window_width = w;
        self.window_height = h;
    }

    /// The size of the window.
    pub fn window_size(&self) -> (r: (usize, usize))
        ensures
            r == (self@.window_width, self@.window_height),
    {
        (self.window_width, self.window_height)
    }
}

/// The first conversation that holds handle `h`, or -1.
pub open spec fn first_conv_with(convs: Seq<ConversationView>, h: InteractionHandle) -> int
    decreases convs.len(),
{
    if convs.len() == 0 {
        -1
    } else {
        let f = first_conv_with(convs.drop_last(), h);
        if f >= 0 {
            f
        } else if convs.last().interactions.contains(h) {
            convs.len() - 1
        } else {
            -1
        }
    }
}

proof fn lemma_first_conv_with(convs: Seq<ConversationView>, h: InteractionHandle)
    ensures
        -1 <= first_conv_with(convs, h) < convs.len(),
        first_conv_with(convs, h) >= 0 ==> convs[first_conv_with(convs, h)].interactions.contains(h),
        forall|c: int| 0 <= c < convs.len() && (first_conv_with(convs, h) < 0 || c < first_conv_with(convs, h))
            ==> !(#[trigger] convs[c]).interactions.contains(h),
    decreases convs.len(),
{
    if convs.len() > 0 {
        let d = convs.drop_last();
        lemma_first_conv_with(d, h);
        assert forall|c: int| 0 <= c < convs.len() && (first_conv_with(convs, h) < 0 || c < first_conv_with(convs, h))
            implies !(#[trigger] convs[c]).interactions.contains(h) by {
            if c < convs.len() - 1 {
                assert(convs[c] == d[c]);
            }
        }
    }
}

/// The text appended to the command of a sub-interaction with handle index `n`.
pub open spec fn sub_text(n: nat) -> Seq<char> {
    " # ["@ + crate::strings::decimal_text(n) + "]"@
}

/// The command of a sub-interaction: the parent's command with the sub-interaction's number
/// written after its last column.
pub open spec fn sub_command(m: MatrixView, n: nat) -> MatrixView {
    crate::screen::sv_add_bytes(
        ScreenView { matrix: m, cursor: (m.width, 0), ..crate::screen::new_screen_view() },
        vstd::utf8::encode_utf8(sub_text(n)),
    ).0.matrix
}

/// The command of an interaction whose parent could not be found.
pub open spec fn unknown_command() -> MatrixView {
    crate::screen::sv_add_bytes(
        crate::screen::new_screen_view(),
        vstd::utf8::encode_utf8("Unknown background program"@),
    ).0.matrix
}

/// The session after an interaction with `command` is added to conversation `c`.
pub open spec fn with_new_interaction(s: SessionView, c: int, command: MatrixView, h: InteractionHandle) -> SessionView {
    SessionView {
        interactions: s.interactions.push(new_interaction(command)),
        conversations: s.conversations.update(
            c,
            ConversationView {
                interactions: s.conversations[c].interactions.push(h),
                ..s.conversations[c]
            },
        ),
        ..s
    }
}

impl Session {
    /// Add an interaction with `command` to conversation `c`.
    fn add_interaction_to(&mut self, c: usize, command: Matrix) -> (h: InteractionHandle)
        requires
            session_wf(old(self)@),
            c < old(self)@.conversations.len(),
            matrix_wf(command@),
        ensures
            session_wf(final(self)@),
            h.index() == old(self)@.interactions.len(),
            final(self)@ == with_new_interaction(old(self)@, c as int, command@, h),
    {
        let handle = InteractionHandle(self.interactions.len());
        self.interactions.push(Interaction::new(command));
        let ghost before = self.conversations@;
        proof {
            lemma_conversations_view_update(before, c as int);
        }
        let conv = &mut self.conversations[c];
        conv.interactions.push(handle);
        proof {
            assert(interactions_view(self.interactions@) =~= interactions_view(old(self).interactions@).push(new_interaction(command@)));
            let t = self@;
            assert(t == with_new_interaction(old(self)@, c as int, command@, handle));
            assert forall|cc: int, k: int| 0 <= cc < t.conversations.len() && 0 <= k < t.conversations[cc].interactions.len()
                implies (#[trigger] t.conversations[cc].interactions[k]).index() < t.interactions.len() by {
                if cc != c || k < old(self)@.conversations[cc].interactions.len() {
                    assert(t.conversations[cc].interactions[k] == old(self)@.conversations[cc].interactions[k]);
                }
            }
            assert forall|cc: int| 0 <= cc < t.conversations.len() implies matrix_wf(#[trigger] t.conversations[cc].prompt) by {
                assert(t.conversations[cc].prompt == old(self)@.conversations[cc].prompt);
            }
            assert forall|i: int| 0 <= i < t.interactions.len() implies interaction_wf(#[trigger] t.interactions[i]) by {
                if i < old(self)@.interactions.len() {
                    assert(t.interactions[i] == old(self)@.interactions[i]);
                }
            }
        }
        handle
    }

    /// Create an interaction in the conversation that holds the given one; its command is the
    /// parent's command with the new interaction's number appended. Where no conversation
    /// holds the parent, the interaction goes to the last conversation.
    pub fn create_sub_interaction(&mut self, parent_handle: InteractionHandle) -> (h: InteractionHandle)
        requires
            session_wf(old(self)@),
        ensures
            session_wf(final(self)@),
            h.index() == old(self)@.interactions.len(),
            ({
                let c = first_conv_with(old(self)@.conversations, parent_handle);
                if c >= 0 {
                    final(self)@ == with_new_interaction(
                        old(self)@,
                        c,
                        sub_command(interaction_of(old(self)@, parent_handle).command, h.index() as nat),
                        h,
                    )
                } else {
                    final(self)@ == with_new_interaction(
                        old(self)@,
                        old(self)@.conversations.len() - 1,
                        unknown_command(),
                        h,
                    )
                }
            }),
    {
        proof {
            lemma_first_conv_with(self@.conversations, parent_handle);
        }
        let mut c: usize = 0;
        let mut found = false;
        while c < self.conversations.len()
            invariant_except_break
                c <= self@.conversations.len(),
                forall|cc: int| 0 <= cc < c ==> !(#[trigger] self@.conversations[cc]).interactions.contains(parent_handle),
                !found,
            invariant
                session_wf(self@),
                self@ == old(self)@,
            ensures
                found ==> c < self@.conversations.len() && self@.conversations[c as int].interactions.contains(parent_handle),
                found ==> forall|cc: int| 0 <= cc < c ==> !(#[trigger] self@.conversations[cc]).interactions.contains(parent_handle),
                !found ==> forall|cc: int| 0 <= cc < self@.conversations.len() ==> !(#[trigger] self@.conversations[cc]).interactions.contains(parent_handle),
            decreases self@.conversations.len() - c,
        {
            let conv = &self.conversations[c];
            let mut k: usize = 0;
            let mut hit = false;
            while k < conv.interactions.len()
                invariant
                    k <= conv.interactions@.len(),
                    hit ==> conv.interactions@.contains(parent_handle),
                    !hit ==> forall|j: int| 0 <= j < k ==> conv.interactions@[j] != parent_handle,
                decreases conv.interactions@.len() - k,
            {
                if conv.interactions[k] == parent_handle {
                    hit = true;
                }
                k = k + 1;
            }
            proof {
                assert(conv@ == self@.conversations[c as int]);
                if !hit {
                    assert(!conv.interactions@.contains(parent_handle));
                }
            }
            if hit {
                found = true;
                break;
            }
            c = c + 1;
        }
        if found {
            proof {
                assert(first_conv_with(self@.conversations, parent_handle) == c as int);
                assert(parent_handle.index() < self@.interactions.len()) by {
                    let k = choose|k: int| 0 <= k < self@.conversations[c as int].interactions.len()
                        && self@.conversations[c as int].interactions[k] == parent_handle;
                    assert(self@.conversations[c as int].interactions[k] == parent_handle);
                }
                assert(interaction_wf(self@.interactions[parent_handle.index()]));
            }
            let n = self.interactions.len();
            let mut command = Screen::new_from_matrix(self.inter(parent_handle).command.duplicate());
            command.move_right_edge();
            let mut text = String::new();
            crate::strings::string_push_str(&mut text, " # [");
            let num = crate::strings::usize_to_string(n);
            crate::strings::string_push_str(&mut text, num.as_str());
            crate::strings::string_push_str(&mut text, "]");
            proof {
                reveal_strlit(" # [");
                reveal_strlit("]");
                assert(text@ =~= sub_text(n as nat));
            }
            let _ = command.add_bytes(text.as_str().as_bytes());
            let m = command.freeze();
            self.add_interaction_to(c, m)
        } else {
            proof {
                assert(first_conv_with(self@.conversations, parent_handle) < 0);
            }
            let m = Screen::one_line_matrix("Unknown background program".as_bytes());
            let last = self.conversations.len() - 1;
            self.add_interaction_to(last, m)
        }
    }
}

/// Cycling the visibility three times shows what was shown before.
pub proof fn law_cycle_visibility_returns(v: OutputVisibility)
    ensures
        next_visibility(next_visibility(next_visibility(v))) == v,
        next_visibility(v) != v,
{
}

/// Advancing a locator that lies within its part moves it forward by exactly the lines it
/// takes from the count, and it stops early only at the end of its part.
pub proof fn law_inc_line_conserves_lines(s: SessionView, loc: SessionLocator, n: usize)
    requires
        part_len(s, loc) is Some,
        crate::locator::loc_line(loc) <= part_len(s, loc)->0,
    ensures
        ({
            let (l2, n2) = spec_inc_line(s, loc, n);
            &&& crate::locator::loc_line(l2) - crate::locator::loc_line(loc) == n - n2
            &&& (n2 == 0 || crate::locator::loc_line(l2) == part_len(s, loc)->0)
            &&& l2.conversation == loc.conversation
        }),
{
    let count = part_len(s, loc)->0;
    let line = crate::locator::loc_line(loc);
    if line + n <= count {
        crate::locator::lemma_with_line(loc, (line + n) as usize);
    } else {
        crate::locator::lemma_with_line(loc, count);
    }
}

/// A locator that advancing left lines over for is at the end of its part.
pub proof fn law_inc_line_leftover_is_end(s: SessionView, loc: SessionLocator, n: usize)
    requires
        part_len(s, loc) is Some,
        spec_inc_line(s, loc, n).1 > 0,
    ensures
        spec_is_end_line(s, spec_inc_line(s, loc, n).0) == Some(true),
{
    let count = part_len(s, loc)->0;
    let l2 = spec_inc_line(s, loc, n).0;
    crate::locator::lemma_with_line(loc, count);
    lemma_part_len_with_line(s, loc, count);
}

/// Changing the line of a locator does not change the part it names.
proof fn lemma_part_len_with_line(s: SessionView, loc: SessionLocator, v: usize)
    ensures
        part_len(s, crate::locator::with_line(loc, v)) == part_len(s, loc),
{
}

/// A new interaction shows its command: the first line of the new interaction in its
/// conversation is the first row of the command, marked with the visible output, the new
/// handle and an unknown status.
pub proof fn law_new_interaction_shows_command(s: SessionView, c: usize, command: MatrixView, h: InteractionHandle)
    requires
        session_wf(s),
        0 <= c < s.conversations.len(),
        h.index() == s.interactions.len(),
        command.height > 0,
        s.conversations[c as int].interactions.len() < usize::MAX,
    ensures
        spec_display_line(
            with_new_interaction(s, c as int, command, h),
            SessionLocator {
                conversation: c,
                in_conversation: ConversationLocator::Interaction(
                    s.conversations[c as int].interactions.len() as usize,
                    InteractionLocator::Command(0),
                ),
            },
        ) == Some((compacted_row_of(command, 0), LineType::Command(OutputVisibility::Output, h, RunningStatus::Unknown))),
{
    let t = with_new_interaction(s, c as int, command, h);
    let k = s.conversations[c as int].interactions.len();
    assert(t.conversations[c as int].interactions[k as int] == h);
    assert(interaction_of(t, h) == new_interaction(command));
}

} // verus!

//! The host: what reaches it from the terminal, what its modules ask of it,
//! and how it answers.

use crate::client::layout::{holder, place, well_formed};
use crate::client::{
    ClientEvent, ClientModular, Container, ContainerAutoFlow, ContainerLayout, CursorStyle,
    DrawAction, DrawActionView, LayoutError, LayoutNode, Mode, Redraw, RedrawView,
};
use crate::module::ModuleEvent;
use crate::utils::{fit_line, fitted, spaces};
use vstd::prelude::*;
use vstd::string::*;

verus! {

/// The key of a key event.
#[derive(Clone, Copy, PartialEq, Eq, Structural, Debug)]
pub enum KeyCode {
    Char(char),
    Enter,
    Backspace,
    Delete,
    Esc,
    Up,
    Down,
    Left,
    Right,
    PageUp,
    PageDown,
    /// Any key that the editor has no use for.
    Other,
}

/// Whether a key went down, is held, or went up.
#[derive(Clone, Copy, PartialEq, Eq, Structural, Debug)]
pub enum KeyEventKind {
    Press,
    Repeat,
    Release,
}

/// A key event as the terminal reports it.
#[derive(Clone, Copy, PartialEq, Eq, Structural, Debug)]
pub struct KeyEvent {
    pub code: KeyCode,
    pub kind: KeyEventKind,
}

/// What the host hands to a module.
#[derive(Clone, PartialEq, Eq, Debug)]
pub enum IncomingConsoleEvent {
    Key(KeyEvent),
    /// The new width and height of the terminal.
    Resize(u16, u16),
    /// A file to open: its path and, where it could be read, its bytes.
    File(String, Option<Vec<u8>>),
}

/// What a module asks of the host.
#[derive(Clone, PartialEq, Eq, Debug)]
pub enum OutcomingConsoleEvent {
    FocusMe(u32),
    UnfocusMe,
    Quit,
    /// A module's name and what it has to say.
    Message(String, String),
    DisableProxy,
    EnableProxy,
    Interrupt,
    Noop,
    /// The module went into another mode.
    ChangeMode(Mode),
    /// A path and the bytes to write there.
    WriteFile(String, Vec<u8>),
}

/// An `OutcomingConsoleEvent` with its texts and bytes as sequences.
pub enum OutcomingView {
    FocusMe(u32),
    UnfocusMe,
    Quit,
    Message(Seq<char>, Seq<char>),
    DisableProxy,
    EnableProxy,
    Interrupt,
    Noop,
    ChangeMode(Mode),
    WriteFile(Seq<char>, Seq<u8>),
}

impl View for OutcomingConsoleEvent {
    type V = OutcomingView;

    open spec fn view(&self) -> OutcomingView {
        match self {
            OutcomingConsoleEvent::FocusMe(i) => OutcomingView::FocusMe(*i),
            OutcomingConsoleEvent::UnfocusMe => OutcomingView::UnfocusMe,
            OutcomingConsoleEvent::Quit => OutcomingView::Quit,
            OutcomingConsoleEvent::Message(m, t) => OutcomingView::Message(m@, t@),
            OutcomingConsoleEvent::DisableProxy => OutcomingView::DisableProxy,
            OutcomingConsoleEvent::EnableProxy => OutcomingView::EnableProxy,
            OutcomingConsoleEvent::Interrupt => OutcomingView::Interrupt,
            OutcomingConsoleEvent::Noop => OutcomingView::Noop,
            OutcomingConsoleEvent::ChangeMode(m) => OutcomingView::ChangeMode(*m),
            OutcomingConsoleEvent::WriteFile(p, b) => OutcomingView::WriteFile(p@, b@),
        }
    }
}

/// The views of a sequence of host events, in order.
pub open spec fn event_views(v: Seq<OutcomingConsoleEvent>) -> Seq<OutcomingView> {
    v.map_values(|e: OutcomingConsoleEvent| e@)
}

/// What the terminal reports to the host.
#[derive(Clone, Copy, PartialEq, Eq, Structural, Debug)]
pub enum TerminalEvent {
    Key(KeyEvent),
    /// The new width and height of the terminal.
    Resize(u16, u16),
    /// Anything that the host has no use for.
    Other,
}

/// One thing for the terminal to do.
#[derive(Clone, PartialEq, Eq, Debug)]
pub enum TerminalOp {
    /// Puts the cursor at a column and a row.
    MoveTo(u16, u16),
    ShowCursor,
    HideCursor,
    SetCursorStyle(CursorStyle),
    /// Writes a line at the cursor.
    PrintLine(String),
}

/// A `TerminalOp` with its text as a sequence of characters.
pub enum TerminalOpView {
    MoveTo(u16, u16),
    ShowCursor,
    HideCursor,
    SetCursorStyle(CursorStyle),
    PrintLine(Seq<char>),
}

impl View for TerminalOp {
    type V = TerminalOpView;

    open spec fn view(&self) -> TerminalOpView {
        match self {
            TerminalOp::MoveTo(x, y) => TerminalOpView::MoveTo(*x, *y),
            TerminalOp::ShowCursor => TerminalOpView::ShowCursor,
            TerminalOp::HideCursor => TerminalOpView::HideCursor,
            TerminalOp::SetCursorStyle(style) => TerminalOpView::SetCursorStyle(*style),
            TerminalOp::PrintLine(s) => TerminalOpView::PrintLine(s@),
        }
    }
}

/// The views of a sequence of terminal operations, in order.
pub open spec fn op_views(v: Seq<TerminalOp>) -> Seq<TerminalOpView> {
    v.map_values(|op: TerminalOp| op@)
}

/// Something that the host leaves to its caller to do.
#[derive(Clone, PartialEq, Eq, Debug)]
pub enum Effect {
    /// A module's name and what it has to say, for the log.
    Log(String, String),
    /// A path and the bytes to write there.
    WriteFile(String, Vec<u8>),
    /// The screen is to be cleared.
    ClearScreen,
}

/// An `Effect` with its texts and bytes as sequences.
pub enum EffectView {
    Log(Seq<char>, Seq<char>),
    WriteFile(Seq<char>, Seq<u8>),
    ClearScreen,
}

impl View for Effect {
    type V = EffectView;

    open spec fn view(&self) -> EffectView {
        match self {
            Effect::Log(m, t) => EffectView::Log(m@, t@),
            Effect::WriteFile(p, b) => EffectView::WriteFile(p@, b@),
            Effect::ClearScreen => EffectView::ClearScreen,
        }
    }
}

/// The views of a sequence of effects, in order.
pub open spec fn effect_views(v: Seq<Effect>) -> Seq<EffectView> {
    v.map_values(|e: Effect| e@)
}

/// How a frame goes on once host events are handled.
#[derive(Clone, Copy, PartialEq, Eq, Structural, Debug)]
pub enum Flow {
    /// The frame goes on.
    Continue,
    /// A module has asked for the rest of the frame's events to be skipped.
    Interrupted,
    /// A module has asked the host to quit.
    Quit,
}

/// What handling host events has led to.
#[derive(Clone, PartialEq, Eq, Debug)]
pub struct Handled {
    pub flow: Flow,
    pub effects: Vec<Effect>,
}

/// Why the host cannot draw.
#[derive(Clone, Copy, PartialEq, Eq, Structural, Debug)]
pub enum HostError {
    /// A module asked for a kind of redraw that the host does not offer.
    Unsupported,
    /// A module has no place in the layout.
    NoPlace,
}

/// The depth to which the screen is cut unless the host is told otherwise.
pub const BSP_EXPOENT: u16 = 3;

/// The host's focus, its proxy switch, and what handling events has led to.
pub struct Handling {
    pub focus: Seq<u32>,
    pub proxy: bool,
    pub flow: Flow,
    pub effects: Seq<EffectView>,
}

impl Handling {
    /// The same outcome with `first` before its effects.
    pub open spec fn after(self, first: EffectView) -> Handling {
        Handling { effects: seq![first] + self.effects, ..self }
    }
}

/// What handling `events` in order makes of the focus and the proxy switch.
/// A module gets the focus by being put on the stack, and gives it up by the
/// top of the stack being taken off. A request to quit or to interrupt ends
/// the handling: what follows it is dropped. Messages and files to write are
/// left to the caller, and everything else is passed over.
pub open spec fn handle(focus: Seq<u32>, proxy: bool, events: Seq<OutcomingView>) -> Handling
    decreases events.len(),
{
    if events.len() == 0 {
        Handling { focus, proxy, flow: Flow::Continue, effects: Seq::empty() }
    } else {
        let rest = events.drop_first();
        match events[0] {
            OutcomingView::Quit => Handling { focus, proxy, flow: Flow::Quit, effects: Seq::empty() },
            OutcomingView::Interrupt => Handling {
                focus,
                proxy,
                flow: Flow::Interrupted,
                effects: Seq::empty(),
            },
            OutcomingView::EnableProxy => handle(focus, true, rest),
            OutcomingView::DisableProxy => handle(focus, false, rest),
            OutcomingView::FocusMe(idx) => handle(focus.push(idx), proxy, rest),
            OutcomingView::UnfocusMe => handle(
                if focus.len() > 0 {
                    focus.drop_last()
                } else {
                    focus
                },
                proxy,
                rest,
            ),
            OutcomingView::Message(m, t) => handle(focus, proxy, rest).after(EffectView::Log(m, t)),
            OutcomingView::WriteFile(p, b) => handle(focus, proxy, rest).after(
                EffectView::WriteFile(p, b),
            ),
            _ => handle(focus, proxy, rest),
        }
    }
}

/// A coordinate of a module moved by the module's place on the screen, as
/// the terminal counts: in 16 bits.
pub open spec fn on_screen(at: int, origin: int) -> u16 {
    ((at + origin) % 0x1_0000) as u16
}

/// The operations that blank the first `rows` rows of the rectangle `c`.
pub open spec fn blank_rows(c: Container, rows: int) -> Seq<TerminalOpView>
    decreases rows,
{
    if rows <= 0 {
        Seq::empty()
    } else {
        blank_rows(c, rows - 1) + seq![
            TerminalOpView::MoveTo(on_screen(c.left as int, 0), on_screen(rows - 1, c.top as int)),
            TerminalOpView::PrintLine(spaces(c.width() as nat)),
        ]
    }
}

/// The operations that carry out one draw intent of a module whose place on
/// the screen is `c`. The cursor is shown, shaped and put in its place. A
/// line is written at its row, as wide as the place. A redraw of everything
/// hides the cursor and blanks every row of the place. The host offers no
/// redraw of a range or of the cursor alone.
pub open spec fn intent_ops(intent: DrawActionView, c: Container) -> Result<
    Seq<TerminalOpView>,
    HostError,
> {
    match intent {
        DrawActionView::CursorTo(x, y, style) => Ok(
            seq![
                TerminalOpView::ShowCursor,
                TerminalOpView::SetCursorStyle(style),
                TerminalOpView::MoveTo(
                    on_screen(x as int, c.left as int),
                    on_screen(y as int, c.top as int),
                ),
            ],
        ),
        DrawActionView::AskRedraw(RedrawView::All) => Ok(
            seq![TerminalOpView::MoveTo(0, 0), TerminalOpView::HideCursor] + blank_rows(
                c,
                c.height(),
            ),
        ),
        DrawActionView::AskRedraw(RedrawView::Line(y, s)) => Ok(
            seq![
                TerminalOpView::MoveTo(on_screen(c.left as int, 0), on_screen(y as int, c.top as int)),
                TerminalOpView::PrintLine(fitted(s, c.width() as nat)),
            ],
        ),
        _ => Err(HostError::Unsupported),
    }
}

/// The operations that carry out a list of draw intents in order, each with
/// the place of its module; or the reason why the first one that cannot be
/// carried out cannot.
pub open spec fn plan(intents: Seq<(DrawActionView, Container)>) -> Result<
    Seq<TerminalOpView>,
    HostError,
>
    decreases intents.len(),
{
    if intents.len() == 0 {
        Ok(Seq::empty())
    } else {
        match plan(intents.drop_last()) {
            Err(e) => Err(e),
            Ok(ops) => match intent_ops(intents.last().0, intents.last().1) {
                Err(e) => Err(e),
                Ok(more) => Ok(ops + more),
            },
        }
    }
}

/// The views of a sequence of draw intents with their places.
pub open spec fn placed_views(v: Seq<(DrawAction, Container)>) -> Seq<(DrawActionView, Container)> {
    v.map_values(|p: (DrawAction, Container)| (p.0@, p.1))
}

/// A coordinate of a module moved by the module's place on the screen.
fn to_screen(at: u32, origin: u32) -> (r: u16)
    ensures
        r == on_screen(at as int, origin as int),
{
    ((at as u64 + origin as u64) % 0x1_0000) as u16
}

/// Adds to `ops` the operations that carry out one draw intent.
fn plan_intent(ops: &mut Vec<TerminalOp>, intent: &DrawAction, c: &Container) -> (r: Result<
    (),
    HostError,
>)
    ensures
        match r {
            Ok(()) => intent_ops(intent@, *c) matches Ok(more) && op_views(final(ops)@)
                == op_views(old(ops)@) + more,
            Err(e) => intent_ops(intent@, *c) == Err::<Seq<TerminalOpView>, HostError>(e)
                && final(ops)@ == old(ops)@,
        },
{
    let ghost before = op_views(ops@);
    match intent {
        DrawAction::CursorTo(x, y, style) => {
            ops.push(TerminalOp::ShowCursor);
            ops.push(TerminalOp::SetCursorStyle(*style));
            ops.push(TerminalOp::MoveTo(to_screen(*x, c.left), to_screen(*y, c.top)));
            assert(op_views(ops@) =~= before + intent_ops(intent@, *c).unwrap());
            Ok(())
        },
        DrawAction::AskRedraw(redraw) => match redraw {
            Redraw::All => {
                ops.push(TerminalOp::MoveTo(0, 0));
                ops.push(TerminalOp::HideCursor);
                let height = c.get_height();
                let width = c.get_width();
                let mut line_num: u32 = 0;
                assert(op_views(ops@) =~= before + seq![
                    TerminalOpView::MoveTo(0, 0),
                    TerminalOpView::HideCursor,
                ] + blank_rows(*c, 0));
                while line_num < height
                    invariant
                        line_num <= height,
                        height == c.height(),
                        width == c.width(),
                        op_views(ops@) == before + seq![
                            TerminalOpView::MoveTo(0, 0),
                            TerminalOpView::HideCursor,
                        ] + blank_rows(*c, line_num as int),
                    decreases height - line_num,
                {
                    let ghost so_far = op_views(ops@);
                    ops.push(TerminalOp::MoveTo(to_screen(c.left, 0), to_screen(line_num, c.top)));
                    ops.push(TerminalOp::PrintLine(fit_line("", width)));
                    proof {
                        reveal_strlit("");
                        assert(""@ =~= Seq::<char>::empty());
                        assert(fitted(""@, width as nat) =~= spaces(width as nat));
                        assert(op_views(ops@) =~= so_far + seq![
                            TerminalOpView::MoveTo(
                                on_screen(c.left as int, 0),
                                on_screen(line_num as int, c.top as int),
                            ),
                            TerminalOpView::PrintLine(spaces(c.width() as nat)),
                        ]);
                    }
                    line_num += 1;
                }
                assert(op_views(ops@) =~= before + intent_ops(intent@, *c).unwrap());
                Ok(())
            },
            Redraw::Line(y, line) => {
                ops.push(TerminalOp::MoveTo(to_screen(c.left, 0), to_screen(*y, c.top)));
                ops.push(TerminalOp::PrintLine(fit_line(line.as_str(), c.get_width())));
                assert(op_views(ops@) =~= before + intent_ops(intent@, *c).unwrap());
                Ok(())
            },
            _ => Err(HostError::Unsupported),
        },
    }
}

/// The terminal operations that carry out a list of draw intents in order,
/// each with the place of its module on the screen.
pub fn plan_drawing(intents: &Vec<(DrawAction, Container)>) -> (r: Result<
    Vec<TerminalOp>,
    HostError,
>)
    ensures
        match r {
            Ok(ops) => plan(placed_views(intents@)) == Ok::<Seq<TerminalOpView>, HostError>(
                op_views(ops@),
            ),
            Err(e) => plan(placed_views(intents@)) == Err::<Seq<TerminalOpView>, HostError>(e),
        },
{
    let mut ops: Vec<TerminalOp> = Vec::new();
    let n = intents.len();
    let mut i: usize = 0;
    assert(placed_views(intents@).take(0) =~= Seq::empty());
    assert(op_views(ops@) =~= Seq::empty());
    while i < n
        invariant
            n == intents@.len(),
            i <= n,
            plan(placed_views(intents@).take(i as int)) == Ok::<Seq<TerminalOpView>, HostError>(
                op_views(ops@),
            ),
        decreases n - i,
    {
        let ghost views = placed_views(intents@);
        assert(views.take(i + 1).drop_last() =~= views.take(i as int));
        assert(views.take(i + 1).last() == (intents@[i as int].0@, intents@[i as int].1));
        match plan_intent(&mut ops, &intents[i].0, &intents[i].1) {
            Ok(()) => {},
            Err(e) => {
                proof {
                    lemma_plan_fails(views, i + 1);
                }
                return Err(e);
            },
        }
        i += 1;
    }
    assert(placed_views(intents@).take(n as int) =~= placed_views(intents@));
    Ok(ops)
}

/// Where a part of the intents cannot be carried out, the whole cannot, for
/// the same reason.
proof fn lemma_plan_fails(intents: Seq<(DrawActionView, Container)>, upto: int)
    requires
        0 <= upto <= intents.len(),
        plan(intents.take(upto)) is Err,
    ensures
        plan(intents) == plan(intents.take(upto)),
    decreases intents.len() - upto,
{
    if upto < intents.len() {
        assert(intents.take(upto + 1).drop_last() =~= intents.take(upto));
        lemma_plan_fails(intents, upto + 1);
    } else {
        assert(intents.take(upto) =~= intents);
    }
}

/// What a frame on a key makes of the focus and the proxy switch, where the
/// modules ask `shown` in the proxy pass and the focused module asks
/// `answered`. The proxy pass is left out where the switch is off. Where it
/// ends the frame, the focused module is not asked; else what both passes
/// leave to the caller is put together.
pub open spec fn frame(
    focus: Seq<u32>,
    proxy: bool,
    shown: Seq<OutcomingView>,
    answered: Seq<OutcomingView>,
) -> Handling {
    let first = proxy_pass(focus, proxy, shown);
    if first.flow != Flow::Continue {
        first
    } else {
        let second = handle(first.focus, first.proxy, answered);
        Handling { effects: first.effects + second.effects, ..second }
    }
}

/// What the proxy pass of a frame makes of the focus and the proxy switch.
pub open spec fn proxy_pass(focus: Seq<u32>, proxy: bool, shown: Seq<OutcomingView>) -> Handling {
    if proxy {
        handle(focus, proxy, shown)
    } else {
        Handling { focus, proxy, flow: Flow::Continue, effects: Seq::empty() }
    }
}

/// What the host answers in place of a focused module where there is none.
pub open spec fn no_focus_events() -> Seq<OutcomingView> {
    seq![OutcomingView::Message(host_name(), no_focus_message())]
}

/// What a module asks of the host with its answer: nothing where it gave
/// none.
pub open spec fn asked(answer: Option<Seq<OutcomingView>>) -> Seq<OutcomingView> {
    match answer {
        Some(events) => events,
        None => Seq::empty(),
    }
}

/// A module's answer with its texts and bytes as sequences.
pub open spec fn answer_view(answer: Option<Vec<OutcomingConsoleEvent>>) -> Option<
    Seq<OutcomingView>,
> {
    match answer {
        Some(events) => Some(event_views(events@)),
        None => None,
    }
}

/// What the modules ask of the host together, where `answers` holds the
/// answer of each module in the order in which the modules were attached:
/// what the first asks, then what the second asks, and so on.
pub open spec fn joined_events(answers: Seq<Option<Seq<OutcomingView>>>) -> Seq<OutcomingView>
    decreases answers.len(),
{
    if answers.len() == 0 {
        Seq::empty()
    } else {
        joined_events(answers.drop_last()) + asked(answers.last())
    }
}

/// What a module wants drawn with its answer: nothing where it gave none.
pub open spec fn wanted(answer: Option<Seq<DrawActionView>>) -> Seq<DrawActionView> {
    match answer {
        Some(intents) => intents,
        None => Seq::empty(),
    }
}

/// A module's draw intents with their texts as sequences.
pub open spec fn intents_view(answer: Option<Vec<DrawAction>>) -> Option<Seq<DrawActionView>> {
    match answer {
        Some(intents) => Some(crate::client::draw_views(intents@)),
        None => None,
    }
}

/// Each of `intents` with the place `c`.
pub open spec fn at_place(intents: Seq<DrawActionView>, c: Container) -> Seq<
    (DrawActionView, Container),
> {
    intents.map_values(|d: DrawActionView| (d, c))
}

/// The place of the module `id` in the layout `t`.
pub open spec fn place_of(t: Seq<LayoutNode>, id: int) -> Container {
    t[holder(t, id as usize).unwrap()].container
}

/// Each of the first `n` modules has a place in the layout `t`.
pub open spec fn all_placed(t: Seq<LayoutNode>, n: nat) -> bool {
    forall|id: usize| id < n ==> #[trigger] holder(t, id) is Some
}

/// What the modules want drawn together, where `answers` holds the answer
/// of each module in the order in which the modules were attached: the
/// intents of the first module, each with that module's place in the layout
/// `t`, then those of the second, and so on.
pub open spec fn joined_intents(
    t: Seq<LayoutNode>,
    answers: Seq<Option<Seq<DrawActionView>>>,
) -> Seq<(DrawActionView, Container)>
    decreases answers.len(),
{
    if answers.len() == 0 {
        Seq::empty()
    } else {
        joined_intents(t, answers.drop_last()) + at_place(
            wanted(answers.last()),
            place_of(t, answers.len() - 1),
        )
    }
}

/// `r` is what drawing comes to for `n` modules in the layout `t`. Where one
/// of the modules has no place, it is that error. Else it is what carrying
/// out the modules' intents comes to, each intent at its module's place, for
/// the answers that the modules give.
pub open spec fn drawn(t: Seq<LayoutNode>, n: nat, r: Result<Seq<TerminalOpView>, HostError>) -> bool {
    if all_placed(t, n) {
        exists|answers: Seq<Option<Seq<DrawActionView>>>|
            answers.len() == n && #[trigger] plan(joined_intents(t, answers)) == r
    } else {
        r == Err::<Seq<TerminalOpView>, HostError>(HostError::NoPlace)
    }
}

/// The name under which the host itself speaks.
pub open spec fn host_name() -> Seq<char> {
    "host"@
}

/// What the host says when an input arrives and no module has the focus.
pub open spec fn no_focus_message() -> Seq<char> {
    "no module has the focus"@
}

/// Adds to `all` what a module asks of the host with its answer.
pub fn join_events(all: &mut Vec<OutcomingConsoleEvent>, answer: Option<Vec<OutcomingConsoleEvent>>)
    ensures
        event_views(final(all)@) == event_views(old(all)@) + asked(answer_view(answer)),
{
    match answer {
        Some(events) => {
            let mut events = events;
            let ghost more = events@;
            all.append(&mut events);
            assert(event_views(all@) =~= event_views(old(all)@) + event_views(more));
        },
        None => {
            assert(event_views(all@) =~= event_views(old(all)@) + Seq::empty());
        },
    }
}

/// Adds to `all` what a module wants drawn with its answer, each intent
/// with the module's place.
pub fn place_intents(
    all: &mut Vec<(DrawAction, Container)>,
    answer: Option<Vec<DrawAction>>,
    container: Container,
)
    ensures
        placed_views(final(all)@) == placed_views(old(all)@) + at_place(
            wanted(intents_view(answer)),
            container,
        ),
{
    let ghost before = placed_views(all@);
    match answer {
        Some(intents) => {
            let mut draw_actions = intents;
            let ghost total = crate::client::draw_views(draw_actions@);
            let ghost mut done: int = 0;
            assert(total.take(0) =~= Seq::empty());
            assert(total.skip(0) =~= total);
            assert(placed_views(all@) =~= before + at_place(total.take(0), container));
            while draw_actions.len() > 0
                invariant
                    0 <= done <= total.len(),
                    crate::client::draw_views(draw_actions@) == total.skip(done),
                    placed_views(all@) == before + at_place(total.take(done), container),
                decreases draw_actions.len(),
            {
                let ghost waiting = crate::client::draw_views(draw_actions@);
                let ghost so_far = placed_views(all@);
                let action = draw_actions.remove(0);
                all.push((action, container));
                proof {
                    assert(waiting[0] == action@);
                    assert(waiting.len() > 0);
                    assert(waiting.len() == total.len() - done);
                    assert(total.skip(done)[0] == total[done]);
                    assert(crate::client::draw_views(draw_actions@) =~= waiting.skip(1));
                    assert(total.skip(done).skip(1) =~= total.skip(done + 1));
                    assert(placed_views(all@) =~= so_far.push((action@, container)));
                    assert(total.take(done + 1) =~= total.take(done).push(action@));
                    assert(placed_views(all@) =~= before + at_place(
                        total.take(done + 1),
                        container,
                    ));
                    done = done + 1;
                }
            }
            assert(total.take(done) =~= total);
        },
        None => {
            assert(placed_views(all@) =~= before + at_place(Seq::empty(), container));
        },
    }
}

/// The host: its modules, which of them has the focus, where each is shown,
/// and whether every module is shown an input before the focused one.
pub struct ConsoleClient {
    modules: Vec<Box<dyn ModuleEvent>>,
    focus_stack: Vec<u32>,
    containers: ContainerLayout,
    proxy_enabled: bool,
    expoent: u16,
}

impl ConsoleClient {
    /// The stack of focused modules: the last one has the focus.
    pub closed spec fn focus(&self) -> Seq<u32> {
        self.focus_stack@
    }

    /// Whether every module is shown an input before the focused one.
    pub closed spec fn proxy(&self) -> bool {
        self.proxy_enabled
    }

    /// The layout tree.
    pub closed spec fn layout(&self) -> Seq<LayoutNode> {
        self.containers.layout_tree@
    }

    /// The number of modules that were attached.
    pub closed spec fn module_count(&self) -> nat {
        self.modules@.len()
    }

    /// The depth to which the screen is cut.
    pub closed spec fn depth(&self) -> nat {
        self.expoent as nat
    }

    /// The layout tree is well formed, the depth is one that a tree can be
    /// built for, and every module's index is one that a module can be told.
    pub closed spec fn wf(&self) -> bool {
        &&& well_formed(self.containers.layout_tree@)
        &&& self.expoent <= 30
        &&& self.modules@.len() <= u32::MAX
    }

    /// A host without modules. Every module is shown an input before the
    /// focused one.
    pub fn new() -> (r: Self)
        ensures
            r.wf(),
            r.focus() == Seq::<u32>::empty(),
            r.proxy(),
            r.layout() == Seq::<LayoutNode>::empty(),
            r.module_count() == 0,
            r.depth() == BSP_EXPOENT,
    {
        Self {
            modules: Vec::new(),
            focus_stack: Vec::new(),
            containers: ContainerLayout::new(),
            proxy_enabled: true,
            expoent: BSP_EXPOENT,
        }
    }

    /// Sets the depth to which the screen is cut when the host is loaded.
    /// Depths beyond 30 are not taken.
    pub fn set_expoent(&mut self, expoent: u16)
        requires
            old(self).wf(),
        ensures
            final(self).wf(),
            final(self).depth() == (if expoent <= 30 {
                expoent as nat
            } else {
                old(self).depth()
            }),
            final(self).focus() == old(self).focus(),
            final(self).proxy() == old(self).proxy(),
            final(self).layout() == old(self).layout(),
            final(self).module_count() == old(self).module_count(),
    {
        if expoent <= 30 {
            self.expoent = expoent;
        }
    }

    /// The stack of focused modules.
    pub fn focus_stack(&self) -> (r: &Vec<u32>)
        ensures
            r@ == self.focus(),
    {
        &self.focus_stack
    }

    /// Whether every module is shown an input before the focused one.
    pub fn proxy_enabled(&self) -> (r: bool)
        ensures
            r == self.proxy(),
    {
        self.proxy_enabled
    }

    /// The layout.
    pub fn containers(&self) -> (r: &ContainerLayout)
        ensures
            r.layout_tree@ == self.layout(),
    {
        &self.containers
    }

    /// The number of modules that were attached.
    pub fn module_count_of(&self) -> (r: usize)
        ensures
            r == self.module_count(),
    {
        self.modules.len()
    }

    /// Shows `event` to every module, in the order in which they were
    /// attached, and returns what they ask of the host, the answers joined in
    /// that order.
    pub fn trigger_proxy(&mut self, event: &IncomingConsoleEvent) -> (r: Vec<OutcomingConsoleEvent>)
        requires
            old(self).wf(),
        ensures
            final(self).wf(),
            final(self).focus() == old(self).focus(),
            final(self).proxy() == old(self).proxy(),
            final(self).layout() == old(self).layout(),
            final(self).module_count() == old(self).module_count(),
            final(self).depth() == old(self).depth(),
            exists|answers: Seq<Option<Seq<OutcomingView>>>|
                answers.len() == old(self).module_count() && event_views(r@)
                    == #[trigger] joined_events(answers),
    {
        let mut all_post_actions: Vec<OutcomingConsoleEvent> = Vec::new();
        let n = self.modules.len();
        let mut idx: usize = 0;
        let ghost mut answers: Seq<Option<Seq<OutcomingView>>> = Seq::empty();
        assert(event_views(all_post_actions@) =~= joined_events(answers));
        while idx < n
            invariant
                idx <= n,
                n == self.modules@.len(),
                n <= u32::MAX,
                self.focus_stack@ == old(self).focus_stack@,
                self.proxy_enabled == old(self).proxy_enabled,
                self.containers == old(self).containers,
                self.expoent == old(self).expoent,
                self.modules@.len() == old(self).modules@.len(),
                answers.len() == idx,
                event_views(all_post_actions@) == joined_events(answers),
            decreases n - idx,
        {
            let answer = self.modules[idx].proxy_trigger_events(event, idx as u32);
            proof {
                let next = answers.push(answer_view(answer));
                assert(next.drop_last() =~= answers);
                answers = next;
            }
            join_events(&mut all_post_actions, answer);
            idx += 1;
        }
        all_post_actions
    }

    /// Hands `event` to the module that has the focus and returns what it
    /// asks of the host. Where no module has the focus, the host has a
    /// message for the log instead; where the focus is on an index at which
    /// no module is, nothing is asked.
    pub fn trigger_events(&mut self, event: IncomingConsoleEvent) -> (r: Vec<OutcomingConsoleEvent>)
        ensures
            final(self).focus() == old(self).focus(),
            final(self).proxy() == old(self).proxy(),
            final(self).layout() == old(self).layout(),
            final(self).module_count() == old(self).module_count(),
            final(self).depth() == old(self).depth(),
            old(self).focus().len() == 0 ==> event_views(r@) == no_focus_events(),
            (old(self).focus().len() > 0 && old(self).focus().last() >= old(self).module_count())
                ==> r@.len() == 0,
    {
        if self.focus_stack.len() == 0 {
            let r = vec![
                OutcomingConsoleEvent::Message(
                    String::from_str("host"),
                    String::from_str("no module has the focus"),
                ),
            ];
            assert(event_views(r@) =~= no_focus_events());
            return r;
        }
        let idx = self.focus_stack[self.focus_stack.len() - 1] as usize;
        if idx < self.modules.len() {
            match self.modules[idx].on_event(event) {
                Some(post_actions) => post_actions,
                None => Vec::new(),
            }
        } else {
            Vec::new()
        }
    }

    /// Tells every module its place on the screen. A module without a place
    /// is passed over.
    pub fn trigger_resize(&mut self)
        ensures
            final(self).focus() == old(self).focus(),
            final(self).proxy() == old(self).proxy(),
            final(self).layout() == old(self).layout(),
            final(self).module_count() == old(self).module_count(),
            final(self).depth() == old(self).depth(),
    {
        let n = self.modules.len();
        let mut idx: usize = 0;
        while idx < n
            invariant
                n == self.modules@.len(),
                idx <= n,
                self.focus_stack@ == old(self).focus_stack@,
                self.proxy_enabled == old(self).proxy_enabled,
                self.containers == old(self).containers,
                self.expoent == old(self).expoent,
                self.modules@.len() == old(self).modules@.len(),
            decreases n - idx,
        {
            match self.containers.get_module(idx) {
                Ok(container) => {
                    self.modules[idx].on_resize(
                        container.top,
                        container.right,
                        container.bottom,
                        container.left,
                    );
                },
                Err(_) => {},
            }
            idx += 1;
        }
    }

    /// What every module wants drawn, in the order in which the modules were
    /// attached, each intent with the place of its module. There is nothing
    /// to draw where a module has no place.
    pub fn collect_intents(&self) -> (r: Result<Vec<(DrawAction, Container)>, HostError>)
        ensures
            match r {
                Ok(intents) => {
                    &&& all_placed(self.layout(), self.module_count())
                    &&& exists|answers: Seq<Option<Seq<DrawActionView>>>|
                        answers.len() == self.module_count() && placed_views(intents@)
                            == #[trigger] joined_intents(self.layout(), answers)
                },
                Err(e) => e == HostError::NoPlace && !all_placed(
                    self.layout(),
                    self.module_count(),
                ),
            },
    {
        let mut all_draw_actions: Vec<(DrawAction, Container)> = Vec::new();
        let n = self.modules.len();
        let mut idx: usize = 0;
        let ghost mut answers: Seq<Option<Seq<DrawActionView>>> = Seq::empty();
        assert(placed_views(all_draw_actions@) =~= joined_intents(self.layout(), answers));
        while idx < n
            invariant
                idx <= n,
                n == self.modules@.len(),
                all_placed(self.layout(), idx as nat),
                answers.len() == idx,
                placed_views(all_draw_actions@) == joined_intents(self.layout(), answers),
            decreases n - idx,
        {
            let container = match self.containers.get_module(idx) {
                Ok(container) => container,
                Err(_) => {
                    assert(holder(self.layout(), idx) is None);
                    return Err(HostError::NoPlace);
                },
            };
            assert(holder(self.layout(), idx) is Some);
            let answer = self.modules[idx].on_draw();
            proof {
                let next = answers.push(intents_view(answer));
                assert(next.drop_last() =~= answers);
                answers = next;
            }
            place_intents(&mut all_draw_actions, answer, container);
            idx += 1;
        }
        Ok(all_draw_actions)
    }

    /// What the terminal has to do to show the modules: the operations that
    /// carry out what the modules want drawn, each module at its place.
    pub fn trigger_drawing(&self) -> (r: Result<Vec<TerminalOp>, HostError>)
        ensures
            drawn(
                self.layout(),
                self.module_count(),
                match r {
                    Ok(ops) => Ok(op_views(ops@)),
                    Err(e) => Err(e),
                },
            ),
    {
        match self.collect_intents() {
            Ok(intents) => plan_drawing(&intents),
            Err(e) => Err(e),
        }
    }

    /// Carries out what modules ask of the host, in order.
    pub fn handle_outcoming_events(&mut self, events: Vec<OutcomingConsoleEvent>) -> (r: Handled)
        ensures
            ({
                let h = handle(old(self).focus(), old(self).proxy(), event_views(events@));
                &&& final(self).focus() == h.focus
                &&& final(self).proxy() == h.proxy
                &&& r.flow == h.flow
                &&& effect_views(r.effects@) == h.effects
            }),
            final(self).layout() == old(self).layout(),
            final(self).module_count() == old(self).module_count(),
            final(self).depth() == old(self).depth(),
    {
        let mut waiting = events;
        let mut effects: Vec<Effect> = Vec::new();
        let ghost goal = handle(self.focus_stack@, self.proxy_enabled, event_views(events@));
        assert(effect_views(effects@) =~= Seq::empty());
        while waiting.len() > 0
            invariant
                goal == handle(old(self).focus(), old(self).proxy(), event_views(events@)),
                self.modules@.len() == old(self).modules@.len(),
                self.containers == old(self).containers,
                self.expoent == old(self).expoent,
                ({
                    let h = handle(self.focus_stack@, self.proxy_enabled, event_views(waiting@));
                    &&& goal.focus == h.focus
                    &&& goal.proxy == h.proxy
                    &&& goal.flow == h.flow
                    &&& goal.effects == effect_views(effects@) + h.effects
                }),
            decreases waiting.len(),
        {
            let ghost views = event_views(waiting@);
            let ghost done = effect_views(effects@);
            let event = waiting.remove(0);
            assert(event_views(waiting@) =~= views.drop_first());
            assert(views[0] == event@);
            match event {
                OutcomingConsoleEvent::Quit => {
                    assert(goal.effects =~= effect_views(effects@));
                    return Handled { flow: Flow::Quit, effects };
                },
                OutcomingConsoleEvent::Interrupt => {
                    assert(goal.effects =~= effect_views(effects@));
                    return Handled { flow: Flow::Interrupted, effects };
                },
                OutcomingConsoleEvent::EnableProxy => {
                    self.proxy_enabled = true;
                },
                OutcomingConsoleEvent::DisableProxy => {
                    self.proxy_enabled = false;
                },
                OutcomingConsoleEvent::FocusMe(idx) => {
                    self.focus_stack.push(idx);
                },
                OutcomingConsoleEvent::UnfocusMe => {
                    self.focus_stack.pop();
                },
                OutcomingConsoleEvent::Message(module, text) => {
                    effects.push(Effect::Log(module, text));
                    assert(effect_views(effects@) =~= done.push(EffectView::Log(module@, text@)));
                    assert(goal.effects =~= effect_views(effects@) + handle(
                        self.focus_stack@,
                        self.proxy_enabled,
                        event_views(waiting@),
                    ).effects);
                },
                OutcomingConsoleEvent::WriteFile(path, bytes) => {
                    effects.push(Effect::WriteFile(path, bytes));
                    assert(effect_views(effects@) =~= done.push(
                        EffectView::WriteFile(path@, bytes@),
                    ));
                    assert(goal.effects =~= effect_views(effects@) + handle(
                        self.focus_stack@,
                        self.proxy_enabled,
                        event_views(waiting@),
                    ).effects);
                },
                _ => {},
            }
        }
        assert(goal.effects =~= effect_views(effects@));
        Handled { flow: Flow::Continue, effects }
    }
}

impl ClientEvent for ConsoleClient {
    open spec fn ready(&self) -> bool {
        self.wf()
    }

    /// The layout becomes the tree for the terminal without its last two
    /// rows, cut to the host's depth.
    fn load(&mut self, width: u16, height: u16)
        ensures
            crate::client::layout::is_bsp(
                final(self).layout(),
                old(self).depth(),
                width as u32,
                (if height >= 2 {
                    height - 2
                } else {
                    0
                }) as u32,
            ),
            final(self).focus() == old(self).focus(),
            final(self).proxy() == old(self).proxy(),
            final(self).module_count() == old(self).module_count(),
            final(self).depth() == old(self).depth(),
    {
        self.containers.setup_bsp(self.expoent, width as u32, height.saturating_sub(2) as u32);
    }

    /// A key that went up and anything that is no key and no resize change
    /// nothing. A key is shown to every module first, if the proxy switch is
    /// on, and what they ask is carried out; unless that ends the frame, the
    /// key then goes to the focused module, and what it asks is carried out.
    /// On a resize the screen is to be cleared, and every module is told its
    /// place.
    fn update(&mut self, event: TerminalEvent) -> (r: Handled)
        ensures
            final(self).layout() == old(self).layout(),
            final(self).module_count() == old(self).module_count(),
            final(self).depth() == old(self).depth(),
            (event is Other || (event matches TerminalEvent::Key(key) && key.kind
                == KeyEventKind::Release)) ==> {
                &&& final(self).focus() == old(self).focus()
                &&& final(self).proxy() == old(self).proxy()
                &&& r.flow == Flow::Continue
                &&& r.effects@.len() == 0
            },
            event is Resize ==> {
                &&& final(self).focus() == old(self).focus()
                &&& final(self).proxy() == old(self).proxy()
                &&& r.flow == Flow::Continue
                &&& effect_views(r.effects@) == seq![EffectView::ClearScreen]
            },
            (event matches TerminalEvent::Key(key) && key.kind != KeyEventKind::Release)
                ==> exists|shown: Seq<OutcomingView>, answered: Seq<OutcomingView>|
                {
                    let f = #[trigger] frame(old(self).focus(), old(self).proxy(), shown, answered);
                    let first = proxy_pass(old(self).focus(), old(self).proxy(), shown);
                    &&& final(self).focus() == f.focus
                    &&& final(self).proxy() == f.proxy
                    &&& r.flow == f.flow
                    &&& effect_views(r.effects@) == f.effects
                    &&& old(self).proxy() ==> exists|answers: Seq<Option<Seq<OutcomingView>>>|
                        answers.len() == old(self).module_count() && shown
                            == #[trigger] joined_events(answers)
                    &&& (first.flow == Flow::Continue && first.focus.len() == 0) ==> answered
                        == no_focus_events()
                    &&& (first.flow == Flow::Continue && first.focus.len() > 0
                        && first.focus.last() >= old(self).module_count()) ==> answered
                        == Seq::<OutcomingView>::empty()
                },
    {
        match event {
            TerminalEvent::Key(key) => {
                match key.kind {
                    KeyEventKind::Release => {
                        return Handled { flow: Flow::Continue, effects: Vec::new() };
                    },
                    _ => {},
                }
                let mut effects: Vec<Effect> = Vec::new();
                let ghost mut shown: Seq<OutcomingView> = Seq::empty();
                assert(effect_views(effects@) =~= Seq::empty());
                if self.proxy_enabled {
                    let proxy_events = self.trigger_proxy(&IncomingConsoleEvent::Key(key));
                    proof {
                        shown = event_views(proxy_events@);
                    }
                    let mut handled = self.handle_outcoming_events(proxy_events);
                    let ghost left = effect_views(handled.effects@);
                    effects.append(&mut handled.effects);
                    assert(effect_views(effects@) =~= left);
                    match handled.flow {
                        Flow::Continue => {},
                        flow => {
                            let r = Handled { flow, effects };
                            assert(frame(old(self).focus(), old(self).proxy(), shown, Seq::empty())
                                == proxy_pass(old(self).focus(), old(self).proxy(), shown));
                            return r;
                        },
                    }
                }
                let ghost first = proxy_pass(old(self).focus(), old(self).proxy(), shown);
                let ghost before = effect_views(effects@);
                let outcoming_events = self.trigger_events(IncomingConsoleEvent::Key(key));
                let ghost answered = event_views(outcoming_events@);
                let mut handled = self.handle_outcoming_events(outcoming_events);
                let ghost left = effect_views(handled.effects@);
                effects.append(&mut handled.effects);
                assert(effect_views(effects@) =~= before + left);
                let r = Handled { flow: handled.flow, effects };
                assert(effect_views(r.effects@) == frame(
                    old(self).focus(),
                    old(self).proxy(),
                    shown,
                    answered,
                ).effects);
                r
            },
            TerminalEvent::Resize(_, _) => {
                self.trigger_resize();
                let effects = vec![Effect::ClearScreen];
                assert(effect_views(effects@) =~= seq![EffectView::ClearScreen]);
                Handled { flow: Flow::Continue, effects }
            },
            TerminalEvent::Other => Handled { flow: Flow::Continue, effects: Vec::new() },
        }
    }

    fn draw(&mut self) -> (r: Result<Vec<TerminalOp>, HostError>)
        ensures
            drawn(
                old(self).layout(),
                old(self).module_count(),
                match r {
                    Ok(ops) => Ok(op_views(ops@)),
                    Err(e) => Err(e),
                },
            ),
            final(self).focus() == old(self).focus(),
            final(self).proxy() == old(self).proxy(),
            final(self).layout() == old(self).layout(),
            final(self).module_count() == old(self).module_count(),
            final(self).depth() == old(self).depth(),
    {
        self.trigger_drawing()
    }

    /// The file goes to the focused module, and what the module asks is
    /// carried out.
    fn handle_file(&mut self, path: String, data: Option<Vec<u8>>) -> (r: Handled)
        ensures
            final(self).layout() == old(self).layout(),
            final(self).module_count() == old(self).module_count(),
            final(self).depth() == old(self).depth(),
            exists|answered: Seq<OutcomingView>|
                {
                    let h = #[trigger] handle(old(self).focus(), old(self).proxy(), answered);
                    &&& final(self).focus() == h.focus
                    &&& final(self).proxy() == h.proxy
                    &&& r.flow == h.flow
                    &&& effect_views(r.effects@) == h.effects
                    &&& old(self).focus().len() == 0 ==> answered == no_focus_events()
                    &&& (old(self).focus().len() > 0 && old(self).focus().last() >= old(
                        self,
                    ).module_count()) ==> answered == Seq::<OutcomingView>::empty()
                },
    {
        let events = self.trigger_events(IncomingConsoleEvent::File(path, data));
        let ghost answered = event_views(events@);
        let r = self.handle_outcoming_events(events);
        assert(r.flow == handle(old(self).focus(), old(self).proxy(), answered).flow);
        r
    }
}

impl ClientModular for ConsoleClient {
    /// The module gets the number of modules before it as its id and a place
    /// in the layout; it is told that it is loaded, gets the focus, and
    /// every module is told its place. Where the layout has no place for it,
    /// it is not taken in.
    fn attach_module(&mut self, module: Box<dyn ModuleEvent>) -> (r: Result<Container, LayoutError>)
        ensures
            final(self).proxy() == old(self).proxy(),
            final(self).depth() == old(self).depth(),
            old(self).module_count() < u32::MAX ==> {
                &&& final(self).layout() == place(
                    old(self).layout(),
                    old(self).module_count() as usize,
                ).0
                &&& r == place(old(self).layout(), old(self).module_count() as usize).1
            },
            match r {
                Ok(_) => final(self).module_count() == old(self).module_count() + 1
                    && final(self).focus() == old(self).focus().push(
                    old(self).module_count() as u32,
                ),
                Err(e) => final(self).module_count() == old(self).module_count()
                    && final(self).focus() == old(self).focus() && final(self).layout() == old(
                    self,
                ).layout() && e == LayoutError::Full,
            },
    {
        let mut module = module;
        let module_idx = self.modules.len();
        if module_idx >= u32::MAX as usize {
            return Err(LayoutError::Full);
        }
        let container = match self.containers.push_module(module_idx, Vec::new()) {
            Ok(container) => container,
            Err(e) => {
                return Err(e);
            },
        };
        module.on_load();
        let mut one = vec![module];
        self.modules.append(&mut one);
        self.focus_stack.push(module_idx as u32);
        self.trigger_resize();
        Ok(container)
    }

    fn change_focus(&mut self, idx: u32)
        ensures
            final(self).focus() == old(self).focus().push(idx),
            final(self).proxy() == old(self).proxy(),
            final(self).layout() == old(self).layout(),
            final(self).module_count() == old(self).module_count(),
            final(self).depth() == old(self).depth(),
    {
        self.focus_stack.push(idx);
    }
}

} // verus!

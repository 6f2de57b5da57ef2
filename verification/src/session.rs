//! Decisions of the main loop.
use crate::globals::{RELEASED, VERSION};
use crate::input::{
    action_steps, can_act, handle_mouse_scroll, wheel_direction, ConfigAction, MouseEvent,
    MouseEventKind, Position,
};
use crate::text::{
    begins_with, numeral, numeral_has_no_leading_zero, numeral_is_digits, numeral_reads_back,
    numeral_value, numerals_differ, push_numeral, same_text,
};
use vstd::prelude::*;
use vstd::string::*;

verus! {

/// The size of the terminal in cells and in pixels.
#[derive(Clone, Copy, Debug, PartialEq, Eq, Structural)]
pub struct WindowSize {
    pub rows: u16,
    pub columns: u16,
    pub width: u16,
    pub height: u16,
}

/// The shape of the mouse pointer.
#[derive(Clone, Copy, Debug, PartialEq, Eq, Structural)]
pub enum PointerShape {
    Default,
    Pointer,
}

/// Where a scroll step goes.
#[derive(Clone, Copy, Debug, PartialEq, Eq, Structural)]
pub enum Direction {
    Up,
    Down,
    Left,
    Right,
}

/// What the main loop has to do. A list of actions is carried out in order.
#[derive(Clone, Copy, Debug, PartialEq, Eq, Structural)]
pub enum Action {
    /// Move the view by one scroll step.
    Scroll(Direction),
    /// Go to a page.
    Jump(usize),
    /// Center the view.
    CenterViewer,
    /// Scale the view so that a page fits the terminal.
    ScalePageToTerminal,
    /// Make the view larger by one step.
    ZoomIn,
    /// Make the view smaller by one step.
    ZoomOut,
    /// Take over the metadata that came.
    UpdateMetadata,
    /// Take over the page image that came.
    HandleImage,
    /// Forget which page images the terminal has.
    InvalidateRegistry,
    /// Drop the renderer's pending results of a priority.
    ClearPriority(usize),
    /// Tell the renderer to load the document.
    SendLoad,
    /// Tell the renderer to toggle the alpha channel.
    SendToggleAlpha,
    /// Tell the renderer to toggle inverse colors.
    SendToggleInverse,
    /// Note the size of the terminal.
    SetTerminalSize(WindowSize),
    /// Set the shape of the mouse pointer.
    SetPointerShape(PointerShape),
    /// Show where the link under the mouse leads.
    ShowUriHint,
    /// Open the link under the mouse outside of this program.
    OpenUri,
    /// End the program.
    Quit,
}

/// How long ago the document must have been loaded for a changed file to be loaded again, in
/// nanoseconds.
pub const RELOAD_INTERVAL_NS: u128 = 1_000_000_000;

/// When throttled actions were last carried out, in nanoseconds since some fixed time.
#[derive(Clone, Copy, Debug, PartialEq, Eq, Structural)]
pub struct LastExecuted {
    pub load: u128,
    pub alpha: u128,
    pub inverse: u128,
}

impl LastExecuted {
    /// The start of the program: every throttled action counts as carried out half a second
    /// ago.
    pub fn new(now: u128) -> (r: Self)
        requires
            now >= 500_000_000,
        ensures
            r.load == now - 500_000_000,
            r.alpha == now - 500_000_000,
            r.inverse == now - 500_000_000,
    {
        let before: u128 = now - 500_000_000;
        LastExecuted { load: before, alpha: before, inverse: before }
    }
}

// ---------------------------------------------------------------------------
// Start
// ---------------------------------------------------------------------------
/// What the program is asked to do.
#[derive(Clone, Copy, Debug, PartialEq, Eq, Structural)]
pub enum Startup {
    /// Print the usage information.
    Help,
    /// Print the version.
    Version,
    /// Show the document that the argument names.
    Open,
}

/// What the first argument asks for; an empty one stands for a missing one.
pub open spec fn startup_of(arg: Seq<char>) -> Startup {
    if arg == "-h"@ || arg == "--help"@ || arg == ""@ {
        Startup::Help
    } else if arg == "-v"@ || arg == "--version"@ {
        Startup::Version
    } else {
        Startup::Open
    }
}

/// What the first argument asks for; an empty one stands for a missing one.
pub fn startup(arg: &str) -> (r: Startup)
    ensures
        r == startup_of(arg@),
{
    if same_text(arg, "-h") || same_text(arg, "--help") || same_text(arg, "") {
        Startup::Help
    } else if same_text(arg, "-v") || same_text(arg, "--version") {
        Startup::Version
    } else {
        Startup::Open
    }
}

/// What is printed when the version is asked for.
pub fn version_message() -> (r: String)
    ensures
        r@ == "meowpdf v"@ + VERSION@ + " ("@ + RELEASED@ + ")"@,
{
    let mut out = String::new();
    out.append("meowpdf v");
    out.append(VERSION);
    out.append(" (");
    out.append(RELEASED);
    out.append(")");
    assert(out@ =~= "meowpdf v"@ + VERSION@ + " ("@ + RELEASED@ + ")"@);
    out
}

/// The name of a running instance: a random number in upper-case hexadecimal.
pub fn software_id(random: u64) -> (r: String)
    ensures
        r@ == numeral(random as nat, 16),
{
    let mut out = String::new();
    push_numeral(&mut out, random as u128, 16);
    assert(out@ =~= numeral(random as nat, 16));
    out
}

/// Instances with different random numbers have different names.
pub proof fn software_ids_differ(a: u64, b: u64)
    requires
        numeral(a as nat, 16) == numeral(b as nat, 16),
    ensures
        a == b,
{
    numerals_differ(a as nat, b as nat, 16);
}

// ---------------------------------------------------------------------------
// Events
// ---------------------------------------------------------------------------
/// What the main loop waits for, most urgent first.
#[derive(Clone, Copy, Debug, PartialEq, Eq, Structural)]
pub enum Source {
    /// A result of the renderer, of this priority.
    Renderer(usize),
    /// A change of the document's file.
    FileReload,
    /// A request to draw again.
    Rerender,
    /// A key or a turn of the mouse wheel.
    Input,
    /// A move or a click of the mouse.
    Mouse,
    /// A change of the terminal's size.
    WindowSize,
}

/// What the channel at a position of the selection delivers.
pub fn ready_source(index: usize) -> (r: Source)
    requires
        index <= 6,
    ensures
        index <= 1 ==> r == Source::Renderer(index),
        index == 2 ==> r == Source::FileReload,
        index == 3 ==> r == Source::Rerender,
        index == 4 ==> r == Source::Input,
        index == 5 ==> r == Source::Mouse,
        index == 6 ==> r == Source::WindowSize,
{
    match index {
        0 | 1 => Source::Renderer(index),
        2 => Source::FileReload,
        3 => Source::Rerender,
        4 => Source::Input,
        5 => Source::Mouse,
        _ => Source::WindowSize,
    }
}

/// What the main loop is woken by, apart from keys.
#[derive(Clone, Copy, Debug, PartialEq, Eq, Structural)]
pub enum Event {
    /// The renderer has the metadata of the document; `uninit` says whether the viewer had
    /// none before.
    Metadata { uninit: bool },
    /// The renderer has the image of a page.
    Image,
    /// The document's file has changed.
    FileChanged,
    /// Someone wants the view to be drawn again.
    Rerender,
    /// The mouse wheel was turned.
    MouseScroll(MouseEventKind),
    /// The mouse was moved or clicked.
    Mouse(MouseEvent),
    /// The terminal has another size; this is the size that it gave when it was asked, if it
    /// gave one.
    Resized(Option<WindowSize>),
}

/// What an event leads to.
pub open spec fn event_steps(
    event: Event,
    last: LastExecuted,
    inverse_scroll: bool,
    now: u128,
) -> Seq<Action> {
    match event {
        Event::Metadata { uninit } => seq![
            Action::UpdateMetadata,
            Action::InvalidateRegistry,
            Action::CenterViewer,
        ] + (if uninit {
            seq![Action::ScalePageToTerminal]
        } else {
            seq![]
        }) + seq![Action::ClearPriority(1)],
        Event::Image => seq![Action::HandleImage],
        Event::FileChanged => if now - last.load >= 1_000_000_000 {
            seq![Action::SendLoad]
        } else {
            seq![]
        },
        Event::Rerender => seq![],
        Event::MouseScroll(kind) => match wheel_direction(kind, inverse_scroll) {
            Some(direction) => seq![Action::Scroll(direction)],
            None => seq![],
        },
        Event::Mouse(_) => seq![],
        Event::Resized(Some(size)) => seq![Action::SetTerminalSize(size)],
        Event::Resized(None) => seq![],
    }
}

/// When the throttled actions were last carried out, once an event was handled: a reload of the
/// document counts from the event that led to it.
pub open spec fn last_after(event: Event, last: LastExecuted, now: u128) -> LastExecuted {
    if event is FileChanged && now - last.load >= 1_000_000_000 {
        LastExecuted { load: now, ..last }
    } else {
        last
    }
}

/// A link in the document.
#[derive(Debug)]
pub struct Link {
    pub uri: String,
    /// The page that it leads to, if it leads to one of this document.
    pub page_number: Option<u32>,
}

/// What following a link leads to. A URI that begins with `#` points into this document.
pub open spec fn follow_steps(link: Link) -> Seq<Action> {
    if link.uri@.len() > 0 && link.uri@[0] == '#' {
        match link.page_number {
            Some(page) => seq![Action::Jump(page as usize)],
            None => seq![],
        }
    } else {
        seq![Action::OpenUri]
    }
}

/// Whether a mouse event is the press of a button.
pub open spec fn is_down(kind: MouseEventKind) -> bool {
    kind is Down
}

/// What the link under the mouse leads to, if there is one.
pub open spec fn link_steps(kind: MouseEventKind, link: Option<Link>) -> Seq<Action> {
    match link {
        Some(link) => seq![
            Action::SetPointerShape(PointerShape::Pointer),
            Action::ShowUriHint,
        ] + (if is_down(kind) {
            follow_steps(link) + seq![Action::SetPointerShape(PointerShape::Default)]
        } else {
            seq![]
        }),
        None => seq![Action::SetPointerShape(PointerShape::Default)],
    }
}

/// What happened to the mouse after a link was looked at: a click that was acted upon counts
/// as a move from then on.
pub open spec fn kind_after(kind: MouseEventKind, link: Option<Link>) -> MouseEventKind {
    if link is Some && is_down(kind) {
        MouseEventKind::Moved
    } else {
        kind
    }
}

/// What the main loop remembers from one event to the next.
#[derive(Clone, Copy, Debug, PartialEq, Eq, Structural)]
pub struct Session {
    /// The last event of the mouse.
    pub mouse: MouseEvent,
    /// The times of the throttled actions.
    pub last: LastExecuted,
}

impl Session {
    /// The start of the program, with the mouse nowhere.
    pub fn new(now: u128) -> (r: Self)
        requires
            now >= 500_000_000,
        ensures
            r.mouse == (MouseEvent {
                kind: MouseEventKind::Moved,
                column: u16::MAX,
                row: u16::MAX,
                modifiers: 0,
            }),
            r.last.load == now - 500_000_000,
            r.last.alpha == now - 500_000_000,
            r.last.inverse == now - 500_000_000,
    {
        Session {
            mouse: MouseEvent {
                kind: MouseEventKind::Moved,
                column: u16::MAX,
                row: u16::MAX,
                modifiers: 0,
            },
            last: LastExecuted::new(now),
        }
    }

    /// Says what is to be done about an event.
    pub fn handle_event(&mut self, event: Event, inverse_scroll: bool, now: u128) -> (r: Vec<
        Action,
    >)
        requires
            event is FileChanged ==> old(self).last.load <= now,
        ensures
            r@ == event_steps(event, old(self).last, inverse_scroll, now),
            final(self).last == last_after(event, old(self).last, now),
            final(self).mouse == match event {
                Event::Mouse(mouse) => mouse,
                _ => old(self).mouse,
            },
    {
        let mut steps: Vec<Action> = Vec::new();
        match event {
            Event::Metadata { uninit } => {
                steps.push(Action::UpdateMetadata);
                steps.push(Action::InvalidateRegistry);
                steps.push(Action::CenterViewer);
                if uninit {
                    steps.push(Action::ScalePageToTerminal);
                }
                steps.push(Action::ClearPriority(1));
            },
            Event::Image => steps.push(Action::HandleImage),
            Event::FileChanged => {
                if now - self.last.load >= RELOAD_INTERVAL_NS {
                    steps.push(Action::SendLoad);
                    self.last.load = now;
                }
            },
            Event::Rerender => {},
            Event::MouseScroll(kind) => {
                if let Some(direction) = handle_mouse_scroll(kind, inverse_scroll) {
                    steps.push(Action::Scroll(direction));
                }
            },
            Event::Mouse(mouse) => {
                self.mouse = mouse;
            },
            Event::Resized(queried) => {
                if let Some(size) = queried {
                    steps.push(Action::SetTerminalSize(size));
                }
            },
        }
        assert(steps@ =~= event_steps(event, old(self).last, inverse_scroll, now));
        steps
    }

    /// Says what is to be done about the link under the mouse, if there is one.
    pub fn handle_link(&mut self, link: Option<&Link>) -> (r: Vec<Action>)
        ensures
            r@ == link_steps(
                old(self).mouse.kind,
                match link {
                    Some(link) => Some(*link),
                    None => None,
                },
            ),
            final(self).mouse == (MouseEvent {
                kind: kind_after(
                    old(self).mouse.kind,
                    match link {
                        Some(link) => Some(*link),
                        None => None,
                    },
                ),
                ..old(self).mouse
            }),
            final(self).last == old(self).last,
    {
        let mut steps: Vec<Action> = Vec::new();
        let ghost kind = self.mouse.kind;
        match link {
            Some(link) => {
                steps.push(Action::SetPointerShape(PointerShape::Pointer));
                steps.push(Action::ShowUriHint);
                let down = match self.mouse.kind {
                    MouseEventKind::Down(_) => true,
                    _ => false,
                };
                if down {
                    if begins_with(link.uri.as_str(), '#') {
                        if let Some(page) = link.page_number {
                            steps.push(Action::Jump(page as usize));
                        }
                    } else {
                        steps.push(Action::OpenUri);
                    }
                    steps.push(Action::SetPointerShape(PointerShape::Default));
                    self.mouse.kind = MouseEventKind::Moved;
                }
                assert(steps@ =~= link_steps(kind, Some(*link)));
            },
            None => {
                steps.push(Action::SetPointerShape(PointerShape::Default));
                assert(steps@ =~= link_steps(kind, None));
            },
        }
        steps
    }
}

/// A click follows one link at most: once it was acted upon, no link is followed until the
/// mouse does something else.
pub proof fn click_counts_once(kind: MouseEventKind, link: Link, other: Option<Link>)
    requires
        is_down(kind),
    ensures
        !link_steps(kind_after(kind, Some(link)), other).contains(Action::OpenUri),
        forall|page: usize|
            !link_steps(kind_after(kind, Some(link)), other).contains(Action::Jump(page)),
{
}

/// Metadata is taken over before anything is done with it, and the view is only scaled for
/// the first metadata.
pub proof fn metadata_comes_first(uninit: bool, last: LastExecuted, inverse: bool, now: u128)
    ensures
        ({
            let steps = event_steps(Event::Metadata { uninit }, last, inverse, now);
            &&& steps[0] == Action::UpdateMetadata
            &&& steps.contains(Action::ScalePageToTerminal) <==> uninit
            &&& steps.last() == Action::ClearPriority(1)
        }),
{
    let steps = event_steps(Event::Metadata { uninit }, last, inverse, now);
    if uninit {
        assert(steps[3] == Action::ScalePageToTerminal);
    }
}

/// A toggle is carried out from the start of the program on.
pub proof fn first_toggle_is_carried_out(
    action: ConfigAction,
    position: Position,
    start: u128,
    now: u128,
    last: LastExecuted,
)
    requires
        action == ConfigAction::ToggleAlpha || action == ConfigAction::ToggleInverse,
        500_000_000 <= start <= now,
        last.alpha == start - 500_000_000,
        last.inverse == start - 500_000_000,
    ensures
        can_act(action, position, last, now),
        action_steps(action, position, last, now).len() > 0,
{
}

/// A change of the file within one second of a reload leads to nothing and does not put off
/// the next reload, so further changes within that second lead to nothing either.
pub proof fn change_soon_after_a_reload_is_ignored(
    last: LastExecuted,
    first: u128,
    second: u128,
    inverse_scroll: bool,
)
    requires
        last.load <= first <= second,
        event_steps(Event::FileChanged, last, inverse_scroll, first).contains(Action::SendLoad),
        second - first < 1_000_000_000,
    ensures
        ({
            let reloaded = last_after(Event::FileChanged, last, first);
            &&& event_steps(Event::FileChanged, reloaded, inverse_scroll, second) == Seq::<
                Action,
            >::empty()
            &&& last_after(Event::FileChanged, reloaded, second) == reloaded
        }),
{
}

/// A change of the file one second after a reload or later leads to the next reload.
pub proof fn change_long_after_a_reload_is_loaded(
    last: LastExecuted,
    first: u128,
    second: u128,
    inverse_scroll: bool,
)
    requires
        last.load <= first <= second,
        event_steps(Event::FileChanged, last, inverse_scroll, first).contains(Action::SendLoad),
        second - first >= 1_000_000_000,
    ensures
        ({
            let reloaded = last_after(Event::FileChanged, last, first);
            &&& event_steps(Event::FileChanged, reloaded, inverse_scroll, second)
                == seq![Action::SendLoad]
            &&& last_after(Event::FileChanged, reloaded, second).load == second
        }),
{
}

/// The time of the last reload moves exactly when the document is loaded again, and no event
/// touches the times of the toggles.
pub proof fn only_reloads_count_as_reloads(
    event: Event,
    last: LastExecuted,
    inverse_scroll: bool,
    now: u128,
)
    requires
        last.load <= now,
    ensures
        ({
            let after = last_after(event, last, now);
            &&& after.alpha == last.alpha
            &&& after.inverse == last.inverse
            &&& after.load != last.load <==> event_steps(
                event,
                last,
                inverse_scroll,
                now,
            ).contains(Action::SendLoad)
        }),
{
    let steps = event_steps(event, last, inverse_scroll, now);
    if event is FileChanged && now - last.load >= RELOAD_INTERVAL_NS {
        assert(steps[0] == Action::SendLoad);
    }
}

/// The first change of the file is loaded from half a second after the start of the program on.
pub proof fn changes_count_soon_after_the_start(
    start: u128,
    now: u128,
    last: LastExecuted,
    inverse_scroll: bool,
)
    requires
        500_000_000 <= start <= now,
        last.load == start - 500_000_000,
    ensures
        event_steps(Event::FileChanged, last, inverse_scroll, now) == if now - start >= 500_000_000 {
            seq![Action::SendLoad]
        } else {
            seq![]
        },
{
}

// ---------------------------------------------------------------------------
// What events and links lead to
// ---------------------------------------------------------------------------
/// Help is printed where it is asked for or nothing is, the version where it is asked for, and
/// every other argument names a document.
pub proof fn argument_says_what_to_do(arg: &str, r: Startup)
    requires
        call_ensures(startup, (arg,), r),
    ensures
        r == Startup::Help <==> arg@.len() == 0 || arg@ == seq!['-', 'h'] || arg@ == seq![
            '-',
            '-',
            'h',
            'e',
            'l',
            'p',
        ],
        r == Startup::Version <==> arg@ == seq!['-', 'v'] || arg@ == seq![
            '-',
            '-',
            'v',
            'e',
            'r',
            's',
            'i',
            'o',
            'n',
        ],
{
    reveal_strlit("-h");
    reveal_strlit("--help");
    reveal_strlit("");
    reveal_strlit("-v");
    reveal_strlit("--version");
    assert("-h"@ =~= seq!['-', 'h']);
    assert("--help"@ =~= seq!['-', '-', 'h', 'e', 'l', 'p']);
    assert("-v"@ =~= seq!['-', 'v']);
    assert("--version"@ =~= seq!['-', '-', 'v', 'e', 'r', 's', 'i', 'o', 'n']);
    assert(arg@.len() == 0 ==> arg@ =~= ""@);
    assert("-h"@[1] != "-v"@[1]);
}

/// The name of an instance is made of upper-case hexadecimal digits, has no leading zero and
/// reads back as the random number.
pub proof fn software_id_reads_back(random: u64, r: String)
    requires
        call_ensures(software_id, (random,), r),
    ensures
        r@.len() > 0,
        numeral_value(r@, 16) == random,
        r@[0] == '0' ==> r@.len() == 1,
        forall|i: int|
            0 <= i < r@.len() ==> ('0' <= #[trigger] r@[i] <= '9') || ('A' <= r@[i] <= 'F'),
{
    numeral_is_digits(random as nat, 16);
    numeral_reads_back(random as nat, 16);
    numeral_has_no_leading_zero(random as nat, 16);
}

/// Results of the renderer come first, by priority, then changes of the file, requests to draw,
/// keys, the mouse and the size of the terminal.
pub proof fn channels_are_told_apart(a: usize, b: usize, x: Source, y: Source)
    requires
        a <= 6,
        b <= 6,
        call_ensures(ready_source, (a,), x),
        call_ensures(ready_source, (b,), y),
    ensures
        x == y ==> a == b,
        x matches Source::Renderer(priority) ==> priority == a && a < 2,
        a < 2 ==> x == Source::Renderer(a),
        x == Source::FileReload <==> a == 2,
        x == Source::Rerender <==> a == 3,
        x == Source::Input <==> a == 4,
        x == Source::Mouse <==> a == 5,
        x == Source::WindowSize <==> a == 6,
{
}

/// Without inverse scrolling, the wheel turned up, down, left or right leads to one scroll step
/// up, down, left or right; with it, up and down change places and left and right stay. Nothing
/// is remembered of it.
pub proof fn wheel_event_scrolls_once(
    session: &mut Session,
    kind: MouseEventKind,
    inverse_scroll: bool,
    now: u128,
    r: Vec<Action>,
)
    requires
        call_ensures(
            Session::handle_event,
            (session, Event::MouseScroll(kind), inverse_scroll, now),
            r,
        ),
    ensures
        kind == MouseEventKind::ScrollUp ==> r@ == seq![
            Action::Scroll(
                if inverse_scroll {
                    Direction::Down
                } else {
                    Direction::Up
                },
            ),
        ],
        kind == MouseEventKind::ScrollDown ==> r@ == seq![
            Action::Scroll(
                if inverse_scroll {
                    Direction::Up
                } else {
                    Direction::Down
                },
            ),
        ],
        kind == MouseEventKind::ScrollLeft ==> r@ == seq![Action::Scroll(Direction::Left)],
        kind == MouseEventKind::ScrollRight ==> r@ == seq![Action::Scroll(Direction::Right)],
        !(kind is ScrollUp || kind is ScrollDown || kind is ScrollLeft || kind is ScrollRight)
            ==> r@.len() == 0,
        *final(session) == *old(session),
{
}

/// What the renderer delivers is taken over: the metadata before the page images are forgotten
/// and the view is centered, and then the results that belong to the old document are dropped;
/// the view is scaled in between for the first metadata only. An image is only taken over. No
/// setting, time or earlier event makes a difference, and nothing is remembered.
pub proof fn results_of_the_renderer_are_taken_over(
    session: &mut Session,
    event: Event,
    inverse_scroll: bool,
    now: u128,
    r: Vec<Action>,
)
    requires
        call_ensures(Session::handle_event, (session, event, inverse_scroll, now), r),
        event is Metadata || event is Image,
    ensures
        event == (Event::Metadata { uninit: false }) ==> r@ == seq![
            Action::UpdateMetadata,
            Action::InvalidateRegistry,
            Action::CenterViewer,
            Action::ClearPriority(1),
        ],
        event == (Event::Metadata { uninit: true }) ==> r@ == seq![
            Action::UpdateMetadata,
            Action::InvalidateRegistry,
            Action::CenterViewer,
            Action::ScalePageToTerminal,
            Action::ClearPriority(1),
        ],
        event is Image ==> r@ == seq![Action::HandleImage],
        *final(session) == *old(session),
{
    if let Event::Metadata { uninit } = event {
        if uninit {
            assert(r@ =~= seq![
                Action::UpdateMetadata,
                Action::InvalidateRegistry,
                Action::CenterViewer,
                Action::ScalePageToTerminal,
                Action::ClearPriority(1),
            ]);
        } else {
            assert(r@ =~= seq![
                Action::UpdateMetadata,
                Action::InvalidateRegistry,
                Action::CenterViewer,
                Action::ClearPriority(1),
            ]);
        }
    }
}

/// A changed file is loaded again where one second has passed since the last reload, which then
/// counts from now on. Before, the change leads to nothing. The toggles and the mouse are not
/// touched.
pub proof fn changed_file_is_loaded_at_most_once_a_second(
    session: &mut Session,
    inverse_scroll: bool,
    now: u128,
    r: Vec<Action>,
)
    requires
        call_ensures(Session::handle_event, (session, Event::FileChanged, inverse_scroll, now), r),
        session.last.load <= now,
    ensures
        if now < old(session).last.load + 1_000_000_000 {
            r@.len() == 0 && *final(session) == *old(session)
        } else {
            &&& r@ == seq![Action::SendLoad]
            &&& final(session).last.load == now
            &&& final(session).last.alpha == old(session).last.alpha
            &&& final(session).last.inverse == old(session).last.inverse
            &&& final(session).mouse == old(session).mouse
        },
{
}

/// A request to draw again and an event of the mouse lead to nothing but drawing, and the event
/// of the mouse is remembered as it came. A new size of the terminal is noted with all its
/// fields, if the terminal told it.
pub proof fn other_events_lead_to_little(
    session: &mut Session,
    event: Event,
    inverse_scroll: bool,
    now: u128,
    r: Vec<Action>,
)
    requires
        call_ensures(Session::handle_event, (session, event, inverse_scroll, now), r),
        event is Rerender || event is Mouse || event is Resized,
    ensures
        event is Rerender || event is Mouse ==> r@.len() == 0,
        event matches Event::Resized(Some(size)) ==> r@ == seq![Action::SetTerminalSize(size)],
        event == Event::Resized(None) ==> r@.len() == 0,
        final(session).last == old(session).last,
        event matches Event::Mouse(mouse) ==> final(session).mouse == mouse,
        !(event is Mouse) ==> final(session).mouse == old(session).mouse,
{
}

/// A button that is pressed over a link whose URI does not begin with `#` opens that URI, once,
/// whatever page the link carries or lacks. The pointer shows the link, the URI is shown, and
/// the pointer goes back.
pub proof fn click_opens_an_outside_link(session: &mut Session, link: &Link, r: Vec<Action>)
    requires
        call_ensures(Session::handle_link, (session, Some(link)), r),
        session.mouse.kind is Down,
        link.uri@.len() == 0 || link.uri@[0] != '#',
    ensures
        r@ == seq![
            Action::SetPointerShape(PointerShape::Pointer),
            Action::ShowUriHint,
            Action::OpenUri,
            Action::SetPointerShape(PointerShape::Default),
        ],
{
    assert(r@ =~= seq![
        Action::SetPointerShape(PointerShape::Pointer),
        Action::ShowUriHint,
        Action::OpenUri,
        Action::SetPointerShape(PointerShape::Default),
    ]);
}

/// A button that is pressed over a link whose URI begins with `#` opens nothing outside and
/// goes to the page that the link carries, if it carries one.
pub proof fn click_follows_a_link_into_the_document(
    session: &mut Session,
    link: &Link,
    r: Vec<Action>,
)
    requires
        call_ensures(Session::handle_link, (session, Some(link)), r),
        session.mouse.kind is Down,
        link.uri@.len() > 0 && link.uri@[0] == '#',
    ensures
        link.page_number matches Some(page) ==> r@ == seq![
            Action::SetPointerShape(PointerShape::Pointer),
            Action::ShowUriHint,
            Action::Jump(page as usize),
            Action::SetPointerShape(PointerShape::Default),
        ],
        link.page_number is None ==> r@ == seq![
            Action::SetPointerShape(PointerShape::Pointer),
            Action::ShowUriHint,
            Action::SetPointerShape(PointerShape::Default),
        ],
{
    if let Some(page) = link.page_number {
        assert(r@ =~= seq![
            Action::SetPointerShape(PointerShape::Pointer),
            Action::ShowUriHint,
            Action::Jump(page as usize),
            Action::SetPointerShape(PointerShape::Default),
        ]);
    } else {
        assert(r@ =~= seq![
            Action::SetPointerShape(PointerShape::Pointer),
            Action::ShowUriHint,
            Action::SetPointerShape(PointerShape::Default),
        ]);
    }
}

/// Over a link the pointer shows it and its URI is shown, without a click nothing else; beside
/// a link the pointer goes back, whatever was pressed. A click over a link counts as a move from
/// then on, everything else that is remembered stays.
pub proof fn link_is_shown_and_a_click_is_used_up(
    session: &mut Session,
    link: Option<&Link>,
    r: Vec<Action>,
)
    requires
        call_ensures(Session::handle_link, (session, link), r),
    ensures
        link is None ==> r@ == seq![Action::SetPointerShape(PointerShape::Default)],
        link is Some && !(old(session).mouse.kind is Down) ==> r@ == seq![
            Action::SetPointerShape(PointerShape::Pointer),
            Action::ShowUriHint,
        ],
        link is Some && old(session).mouse.kind is Down ==> *final(session) == (Session {
            mouse: MouseEvent { kind: MouseEventKind::Moved, ..old(session).mouse },
            ..*old(session)
        }),
        link is None || !(old(session).mouse.kind is Down) ==> *final(session) == *old(session),
{
    if link is Some && !(old(session).mouse.kind is Down) {
        assert(r@ =~= seq![
            Action::SetPointerShape(PointerShape::Pointer),
            Action::ShowUriHint,
        ]);
    }
}

/// A session begins with the mouse nowhere and with nothing pressed. From then on toggles are
/// carried out at once, and a changed file is loaded from half a second on.
pub proof fn session_begins_ready(
    start: u128,
    times: LastExecuted,
    session: Session,
    running: &mut Session,
    now: u128,
    inverse_scroll: bool,
    r: Vec<Action>,
)
    requires
        500_000_000 <= start <= now,
        call_ensures(LastExecuted::new, (start,), times),
        call_ensures(Session::new, (start,), session),
        *running == session,
        call_ensures(Session::handle_event, (running, Event::FileChanged, inverse_scroll, now), r),
    ensures
        session.mouse.kind == MouseEventKind::Moved,
        session.mouse.column == u16::MAX && session.mouse.row == u16::MAX,
        session.mouse.modifiers == 0,
        session.last == times,
        session.last.alpha + 500_000_000 == start,
        session.last.inverse + 500_000_000 == start,
        r@ == if now >= start + 500_000_000 {
            seq![Action::SendLoad]
        } else {
            seq![]
        },
{
}

} // verus!

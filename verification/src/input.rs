//! What keys and the mouse wheel do.
use crate::globals::has_elapsed;
use crate::session::{Action, Direction, LastExecuted};
use crossterm::event::KeyEvent;
use keybinds::{KeyInput, Keybinds};
use vstd::prelude::*;

verus! {

// ---------------------------------------------------------------------------
// Key bindings
// ---------------------------------------------------------------------------
/// What a key sequence can be bound to.
#[derive(Clone, Copy, Debug, PartialEq, Eq, Structural)]
pub enum ConfigAction {
    MoveUp,
    MoveDown,
    MoveLeft,
    MoveRight,
    PrevPage,
    NextPage,
    CenterViewer,
    JumpFirstPage,
    JumpLastPage,
    Quit,
    ToggleAlpha,
    ToggleInverse,
    ZoomIn,
    ZoomOut,
}

/// A key event of the terminal.
#[verifier::external_type_specification]
#[verifier::external_body]
pub struct ExKeyEvent(crossterm::event::KeyEvent);

/// A key with its modifiers. Two are the same where key and modifiers are, which is how
/// `keybinds` compares them.
#[verifier::external_type_specification]
#[verifier::external_body]
pub struct ExKeyInput(keybinds::KeyInput);

/// Key bindings and the keys pressed so far of a sequence.
#[verifier::external_type_specification]
#[verifier::external_body]
#[verifier::reject_recursive_types(A)]
pub struct ExKeybinds<A>(keybinds::Keybinds<A>);

/// The key and the modifiers of a key event.
pub uninterp spec fn key_input_of(key: KeyEvent) -> KeyInput;

/// Whether a key input stands for no key: its `keybinds::KeyInput::key` is `Ignored`.
pub uninterp spec fn is_ignored(input: KeyInput) -> bool;

/// The key sequences that are bound, with their actions, in order.
pub uninterp spec fn bindings(matcher: Keybinds<ConfigAction>) -> Seq<(Seq<KeyInput>, ConfigAction)>;

/// The keys pressed so far of a sequence.
pub uninterp spec fn ongoing(matcher: Keybinds<ConfigAction>) -> Seq<KeyInput>;

/// The action of the first binding whose sequence is `inputs`.
pub open spec fn first_match(
    binds: Seq<(Seq<KeyInput>, ConfigAction)>,
    inputs: Seq<KeyInput>,
) -> Option<ConfigAction>
    decreases binds.len(),
{
    if binds.len() == 0 {
        None
    } else if binds[0].0 == inputs {
        Some(binds[0].1)
    } else {
        first_match(binds.drop_first(), inputs)
    }
}

/// Whether the sequence of some binding goes on from `inputs`.
pub open spec fn goes_on(
    binds: Seq<(Seq<KeyInput>, ConfigAction)>,
    inputs: Seq<KeyInput>,
) -> bool {
    exists|i: int|
        0 <= i < binds.len() && inputs.len() < (#[trigger] binds[i]).0.len()
            && inputs.is_prefix_of(binds[i].0)
}

/// The keys pressed so far that still count: none if too much time has passed.
pub open spec fn held(before: Seq<KeyInput>, expired: bool) -> Seq<KeyInput> {
    if expired {
        Seq::empty()
    } else {
        before
    }
}

/// The keys that are kept after `inputs` were pressed.
pub open spec fn kept(
    binds: Seq<(Seq<KeyInput>, ConfigAction)>,
    inputs: Seq<KeyInput>,
) -> Seq<KeyInput> {
    if first_match(binds, inputs) is None && goes_on(binds, inputs) {
        inputs
    } else {
        Seq::empty()
    }
}

/// `keybinds::KeyInput::from` of a `crossterm` key event: the key and the modifiers that the
/// event stands for, which depend on the event alone. They are named, not spelled out.
#[verifier::external_body]
fn key_input(key: KeyEvent) -> (r: KeyInput)
    ensures
        r == key_input_of(key),
{
    KeyInput::from(key)
}

/// `keybinds::Keybinds::dispatch`: the action of the first binding whose sequence is the keys
/// pressed so far and `input`. Without one, the keys are kept where some sequence goes on from
/// them. The keys pressed before do not count if too much time has passed, which the clock
/// decides: the result is one of the two that this leaves. An ignored input changes nothing.
#[verifier::external_body]
fn dispatch(matcher: &mut Keybinds<ConfigAction>, input: KeyInput) -> (r: Option<ConfigAction>)
    ensures
        bindings(*final(matcher)) == bindings(*old(matcher)),
        is_ignored(input) ==> r is None && ongoing(*final(matcher)) == ongoing(*old(matcher)),
        !is_ignored(input) ==> {
            let binds = bindings(*old(matcher));
            let inputs = held(ongoing(*old(matcher)), false).push(input);
            let alone = held(ongoing(*old(matcher)), true).push(input);
            ||| r == first_match(binds, inputs) && ongoing(*final(matcher)) == kept(binds, inputs)
            ||| r == first_match(binds, alone) && ongoing(*final(matcher)) == kept(binds, alone)
        },
{
    matcher.dispatch(input).copied()
}

// ---------------------------------------------------------------------------
// Keys
// ---------------------------------------------------------------------------
/// Where the view stands in the document.
#[derive(Clone, Copy, Debug, PartialEq, Eq, Structural)]
pub struct Position {
    /// The first page in view.
    pub page_first: usize,
    /// The number of pages.
    pub pages: usize,
}

/// Whether an action can be carried out: the last page is only spoken of where there is one,
/// and a toggle only where the clock has not gone back since the last one.
pub open spec fn can_act(
    action: ConfigAction,
    position: Position,
    last: LastExecuted,
    now: u128,
) -> bool {
    match action {
        ConfigAction::NextPage | ConfigAction::JumpLastPage => position.pages > 0,
        ConfigAction::ToggleAlpha => last.alpha <= now,
        ConfigAction::ToggleInverse => last.inverse <= now,
        _ => true,
    }
}

/// What a bound action does.
pub open spec fn action_steps(
    action: ConfigAction,
    position: Position,
    last: LastExecuted,
    now: u128,
) -> Seq<Action> {
    match action {
        ConfigAction::MoveUp => seq![Action::Scroll(Direction::Up)],
        ConfigAction::MoveDown => seq![Action::Scroll(Direction::Down)],
        ConfigAction::MoveLeft => seq![Action::Scroll(Direction::Left)],
        ConfigAction::MoveRight => seq![Action::Scroll(Direction::Right)],
        ConfigAction::PrevPage => if position.page_first > 0 {
            seq![Action::Jump((position.page_first - 1) as usize)]
        } else {
            seq![]
        },
        ConfigAction::NextPage => if position.page_first < position.pages - 1 {
            seq![Action::Jump((position.page_first + 1) as usize)]
        } else {
            seq![]
        },
        ConfigAction::CenterViewer => seq![Action::CenterViewer],
        ConfigAction::JumpFirstPage => seq![Action::Jump(0)],
        ConfigAction::JumpLastPage => seq![Action::Jump((position.pages - 1) as usize)],
        ConfigAction::Quit => seq![Action::Quit],
        ConfigAction::ToggleAlpha => if now - last.alpha < 500_000_000 {
            seq![]
        } else {
            seq![Action::SendToggleAlpha, Action::InvalidateRegistry]
        },
        ConfigAction::ToggleInverse => if now - last.inverse < 500_000_000 {
            seq![]
        } else {
            seq![Action::SendToggleInverse, Action::InvalidateRegistry]
        },
        ConfigAction::ZoomIn => seq![Action::ZoomIn],
        ConfigAction::ZoomOut => seq![Action::ZoomOut],
    }
}

/// The times of the throttled actions after a bound action.
pub open spec fn times_after(action: ConfigAction, last: LastExecuted, now: u128) -> LastExecuted {
    match action {
        ConfigAction::ToggleAlpha => if now - last.alpha < 500_000_000 {
            last
        } else {
            LastExecuted { alpha: now, ..last }
        },
        ConfigAction::ToggleInverse => if now - last.inverse < 500_000_000 {
            last
        } else {
            LastExecuted { inverse: now, ..last }
        },
        _ => last,
    }
}

/// Carries out a bound action: says what is to be done, and notes the time of a toggle.
pub fn perform(
    action: ConfigAction,
    position: Position,
    last: &mut LastExecuted,
    now: u128,
) -> (r: Vec<Action>)
    requires
        can_act(action, position, *old(last), now),
    ensures
        r@ == action_steps(action, position, *old(last), now),
        *final(last) == times_after(action, *old(last), now),
{
    let mut steps: Vec<Action> = Vec::new();
    match action {
        ConfigAction::MoveUp => steps.push(Action::Scroll(Direction::Up)),
        ConfigAction::MoveDown => steps.push(Action::Scroll(Direction::Down)),
        ConfigAction::MoveLeft => steps.push(Action::Scroll(Direction::Left)),
        ConfigAction::MoveRight => steps.push(Action::Scroll(Direction::Right)),
        ConfigAction::PrevPage => {
            if position.page_first > 0 {
                steps.push(Action::Jump(position.page_first - 1));
            }
        },
        ConfigAction::NextPage => {
            let last_page: usize = position.pages - 1;
            if position.page_first < last_page {
                steps.push(Action::Jump(position.page_first + 1));
            }
        },
        ConfigAction::CenterViewer => steps.push(Action::CenterViewer),
        ConfigAction::JumpFirstPage => steps.push(Action::Jump(0)),
        ConfigAction::JumpLastPage => steps.push(Action::Jump(position.pages - 1)),
        ConfigAction::Quit => steps.push(Action::Quit),
        ConfigAction::ToggleAlpha => {
            if has_elapsed(&mut last.alpha, now) {
                steps.push(Action::SendToggleAlpha);
                steps.push(Action::InvalidateRegistry);
            }
        },
        ConfigAction::ToggleInverse => {
            if has_elapsed(&mut last.inverse, now) {
                steps.push(Action::SendToggleInverse);
                steps.push(Action::InvalidateRegistry);
            }
        },
        ConfigAction::ZoomIn => steps.push(Action::ZoomIn),
        ConfigAction::ZoomOut => steps.push(Action::ZoomOut),
    }
    assert(steps@ =~= action_steps(action, position, *old(last), now));
    steps
}

/// What a key does that was dispatched to an action or to none, and the times after it.
/// `None` stands for an action that cannot be carried out.
pub open spec fn key_outcome(
    dispatched: Option<ConfigAction>,
    position: Position,
    last: LastExecuted,
    now: u128,
) -> (Option<Seq<Action>>, LastExecuted) {
    match dispatched {
        None => (Some(seq![]), last),
        Some(action) => if can_act(action, position, last, now) {
            (Some(action_steps(action, position, last, now)), times_after(action, last, now))
        } else {
            (None, last)
        },
    }
}

/// The actions in a result.
pub open spec fn steps_of(r: Option<Vec<Action>>) -> Option<Seq<Action>> {
    match r {
        Some(steps) => Some(steps@),
        None => None,
    }
}

/// Does what a key was dispatched to.
pub fn act_on(
    dispatched: Option<ConfigAction>,
    position: Position,
    last: &mut LastExecuted,
    now: u128,
) -> (r: Option<Vec<Action>>)
    ensures
        (steps_of(r), *final(last)) == key_outcome(dispatched, position, *old(last), now),
{
    match dispatched {
        None => {
            let none: Vec<Action> = Vec::new();
            assert(none@ =~= seq![]);
            Some(none)
        },
        Some(action) => {
            let possible = match action {
                ConfigAction::NextPage | ConfigAction::JumpLastPage => position.pages > 0,
                ConfigAction::ToggleAlpha => last.alpha <= now,
                ConfigAction::ToggleInverse => last.inverse <= now,
                _ => true,
            };
            if possible {
                Some(perform(action, position, last, now))
            } else {
                None
            }
        },
    }
}

/// Handles a key event: finds the action that the key bindings give for it and says what is
/// to be done. `None` stands for an action that cannot be carried out.
pub fn handle_key(
    key: KeyEvent,
    matcher: &mut Keybinds<ConfigAction>,
    position: Position,
    last: &mut LastExecuted,
    now: u128,
) -> (r: Option<Vec<Action>>)
    ensures
        bindings(*final(matcher)) == bindings(*old(matcher)),
        is_ignored(key_input_of(key)) ==> {
            &&& ongoing(*final(matcher)) == ongoing(*old(matcher))
            &&& (steps_of(r), *final(last)) == key_outcome(None, position, *old(last), now)
        },
        !is_ignored(key_input_of(key)) ==> {
            let binds = bindings(*old(matcher));
            let inputs = held(ongoing(*old(matcher)), false).push(key_input_of(key));
            let alone = held(ongoing(*old(matcher)), true).push(key_input_of(key));
            ||| (steps_of(r), *final(last)) == key_outcome(
                first_match(binds, inputs),
                position,
                *old(last),
                now,
            ) && ongoing(*final(matcher)) == kept(binds, inputs)
            ||| (steps_of(r), *final(last)) == key_outcome(
                first_match(binds, alone),
                position,
                *old(last),
                now,
            ) && ongoing(*final(matcher)) == kept(binds, alone)
        },
{
    let dispatched = dispatch(matcher, key_input(key));
    act_on(dispatched, position, last, now)
}

// ---------------------------------------------------------------------------
// Mouse
// ---------------------------------------------------------------------------
/// A button of the mouse.
#[derive(Clone, Copy, Debug, PartialEq, Eq, Structural)]
pub enum MouseButton {
    Left,
    Right,
    Middle,
}

/// What happened to the mouse.
#[derive(Clone, Copy, Debug, PartialEq, Eq, Structural)]
pub enum MouseEventKind {
    Down(MouseButton),
    Up(MouseButton),
    Drag(MouseButton),
    Moved,
    ScrollDown,
    ScrollUp,
    ScrollLeft,
    ScrollRight,
}

/// What happened to the mouse, and where.
#[derive(Clone, Copy, Debug, PartialEq, Eq, Structural)]
pub struct MouseEvent {
    pub kind: MouseEventKind,
    pub column: u16,
    pub row: u16,
    /// The bits of the modifier keys that were held.
    pub modifiers: u8,
}

/// Where the view is scrolled by the mouse wheel. Inverse scrolling swaps up and down.
pub open spec fn wheel_direction(kind: MouseEventKind, inverse_scroll: bool) -> Option<Direction> {
    match kind {
        MouseEventKind::ScrollUp => Some(
            if inverse_scroll {
                Direction::Down
            } else {
                Direction::Up
            },
        ),
        MouseEventKind::ScrollDown => Some(
            if inverse_scroll {
                Direction::Up
            } else {
                Direction::Down
            },
        ),
        MouseEventKind::ScrollLeft => Some(Direction::Left),
        MouseEventKind::ScrollRight => Some(Direction::Right),
        _ => None,
    }
}

/// Handles a turn of the mouse wheel, which never ends the program.
pub fn handle_mouse_scroll(kind: MouseEventKind, inverse_scroll: bool) -> (r: Option<Direction>)
    ensures
        r == wheel_direction(kind, inverse_scroll),
{
    match kind {
        MouseEventKind::ScrollUp => if inverse_scroll {
            Some(Direction::Down)
        } else {
            Some(Direction::Up)
        },
        MouseEventKind::ScrollDown => if inverse_scroll {
            Some(Direction::Up)
        } else {
            Some(Direction::Down)
        },
        MouseEventKind::ScrollLeft => Some(Direction::Left),
        MouseEventKind::ScrollRight => Some(Direction::Right),
        _ => None,
    }
}

// ---------------------------------------------------------------------------
// Laws
// ---------------------------------------------------------------------------
/// Only the action that is bound to quitting ends the program.
pub proof fn only_quit_quits(
    action: ConfigAction,
    position: Position,
    last: LastExecuted,
    now: u128,
)
    ensures
        action_steps(action, position, last, now).contains(Action::Quit) <==> action
            == ConfigAction::Quit,
{
    let steps = action_steps(action, position, last, now);
    if action == ConfigAction::Quit {
        assert(steps[0] == Action::Quit);
    }
}

/// Keys never leave the document: from a page of it, every jump goes to a page of it.
pub proof fn jumps_stay_in_the_document(
    action: ConfigAction,
    position: Position,
    last: LastExecuted,
    now: u128,
    page: usize,
)
    requires
        position.page_first < position.pages,
        action_steps(action, position, last, now).contains(Action::Jump(page)),
    ensures
        page < position.pages,
{
    let steps = action_steps(action, position, last, now);
    let i = choose|i: int| 0 <= i < steps.len() && steps[i] == Action::Jump(page);
    assert(steps[i] == Action::Jump(page));
}

/// Going to the next page and then to the previous one leads back.
pub proof fn next_then_previous(position: Position, last: LastExecuted, now: u128, later: u128)
    requires
        position.page_first + 1 < position.pages,
    ensures
        action_steps(ConfigAction::NextPage, position, last, now) == seq![
            Action::Jump((position.page_first + 1) as usize),
        ],
        action_steps(
            ConfigAction::PrevPage,
            Position { page_first: (position.page_first + 1) as usize, ..position },
            last,
            later,
        ) == seq![Action::Jump(position.page_first)],
{
}

/// A toggle within half a second of the last one of its kind is ignored.
pub proof fn quick_toggle_is_ignored(
    action: ConfigAction,
    position: Position,
    last: LastExecuted,
    now: u128,
    later: u128,
)
    requires
        action == ConfigAction::ToggleAlpha || action == ConfigAction::ToggleInverse,
        can_act(action, position, last, now),
        action_steps(action, position, last, now).len() > 0,
        now <= later < now + 500_000_000,
    ensures
        action_steps(action, position, times_after(action, last, now), later).len() == 0,
        times_after(action, times_after(action, last, now), later) == times_after(action, last, now),
{
}

/// A toggle half a second or more after the last one of its kind is carried out.
pub proof fn slow_toggle_is_carried_out(
    action: ConfigAction,
    position: Position,
    last: LastExecuted,
    now: u128,
    later: u128,
)
    requires
        action == ConfigAction::ToggleAlpha || action == ConfigAction::ToggleInverse,
        can_act(action, position, last, now),
        later >= now + 500_000_000,
    ensures
        action_steps(action, position, times_after(action, last, now), later).len() > 0,
{
}

/// When an action that is a toggle was last carried out.
pub open spec fn last_toggle(action: ConfigAction, last: LastExecuted) -> u128 {
    if action == ConfigAction::ToggleAlpha {
        last.alpha
    } else {
        last.inverse
    }
}

/// The times of the throttled actions after some keys: what each was dispatched to, where the
/// view stood and what time it was.
pub open spec fn times_after_keys(
    keys: Seq<(Option<ConfigAction>, Position, u128)>,
    last: LastExecuted,
) -> LastExecuted
    decreases keys.len(),
{
    if keys.len() == 0 {
        last
    } else {
        let (dispatched, position, now) = keys.last();
        key_outcome(dispatched, position, times_after_keys(keys.drop_last(), last), now).1
    }
}

proof fn lemma_last_toggle_stays(
    action: ConfigAction,
    keys: Seq<(Option<ConfigAction>, Position, u128)>,
    last: LastExecuted,
)
    requires
        action == ConfigAction::ToggleAlpha || action == ConfigAction::ToggleInverse,
        forall|i: int|
            0 <= i < keys.len() && (#[trigger] keys[i]).0 == Some(action) ==> keys[i].2
                < last_toggle(action, last) + 500_000_000,
    ensures
        last_toggle(action, times_after_keys(keys, last)) == last_toggle(action, last),
    decreases keys.len(),
{
    if keys.len() > 0 {
        let before = keys.drop_last();
        assert forall|i: int|
            0 <= i < before.len() && (#[trigger] before[i]).0 == Some(action) implies before[i].2
            < last_toggle(action, last) + 500_000_000 by {
            assert(keys[i] == before[i]);
        }
        lemma_last_toggle_stays(action, before, last);
        assert(keys[keys.len() - 1] == keys.last());
    }
}

/// A toggle within half a second of one of its kind that was carried out is ignored, whatever
/// keys come in between, other toggles of its kind within that half second included.
pub proof fn quick_toggle_is_ignored_after_any_keys(
    action: ConfigAction,
    position: Position,
    last: LastExecuted,
    now: u128,
    keys: Seq<(Option<ConfigAction>, Position, u128)>,
    later_position: Position,
    later: u128,
)
    requires
        action == ConfigAction::ToggleAlpha || action == ConfigAction::ToggleInverse,
        can_act(action, position, last, now),
        action_steps(action, position, last, now).len() > 0,
        forall|i: int|
            0 <= i < keys.len() && (#[trigger] keys[i]).0 == Some(action) ==> keys[i].2 < now
                + 500_000_000,
        now <= later < now + 500_000_000,
    ensures
        ({
            let after = times_after_keys(keys, times_after(action, last, now));
            key_outcome(Some(action), later_position, after, later) == (
                Some(Seq::<Action>::empty()),
                after,
            )
        }),
{
    lemma_last_toggle_stays(action, keys, times_after(action, last, now));
}

/// A toggle half a second or more after the last one of its kind is carried out, whatever
/// other keys come in between.
pub proof fn slow_toggle_is_carried_out_after_other_keys(
    action: ConfigAction,
    position: Position,
    last: LastExecuted,
    now: u128,
    keys: Seq<(Option<ConfigAction>, Position, u128)>,
    later_position: Position,
    later: u128,
)
    requires
        action == ConfigAction::ToggleAlpha || action == ConfigAction::ToggleInverse,
        can_act(action, position, last, now),
        forall|i: int| 0 <= i < keys.len() ==> (#[trigger] keys[i]).0 != Some(action),
        later >= now + 500_000_000,
    ensures
        ({
            let after = times_after_keys(keys, times_after(action, last, now));
            &&& can_act(action, later_position, after, later)
            &&& action_steps(action, later_position, after, later).len() > 0
        }),
{
    lemma_last_toggle_stays(action, keys, times_after(action, last, now));
}

/// The two toggles do not hold each other up.
pub proof fn toggles_are_independent(position: Position, last: LastExecuted, now: u128, later: u128)
    ensures
        action_steps(
            ConfigAction::ToggleInverse,
            position,
            times_after(ConfigAction::ToggleAlpha, last, now),
            later,
        ) == action_steps(ConfigAction::ToggleInverse, position, last, later),
        action_steps(
            ConfigAction::ToggleAlpha,
            position,
            times_after(ConfigAction::ToggleInverse, last, now),
            later,
        ) == action_steps(ConfigAction::ToggleAlpha, position, last, later),
{
}

/// Only an action that some binding holds is ever dispatched.
pub proof fn only_bound_actions_are_dispatched(
    binds: Seq<(Seq<KeyInput>, ConfigAction)>,
    inputs: Seq<KeyInput>,
)
    ensures
        first_match(binds, inputs) matches Some(action) ==> exists|i: int|
            0 <= i < binds.len() && (#[trigger] binds[i]).0 == inputs && binds[i].1 == action,
    decreases binds.len(),
{
    if binds.len() > 0 && binds[0].0 != inputs {
        only_bound_actions_are_dispatched(binds.drop_first(), inputs);
        if first_match(binds, inputs) is Some {
            let rest = binds.drop_first();
            let i = choose|i: int|
                0 <= i < rest.len() && (#[trigger] rest[i]).0 == inputs && rest[i].1
                    == first_match(binds, inputs)->0;
            assert(binds[i + 1] == rest[i]);
        }
    }
}

/// A bound sequence is dispatched to its action, unless it was bound before to another one.
pub proof fn bound_sequence_is_dispatched(binds: Seq<(Seq<KeyInput>, ConfigAction)>, i: int)
    requires
        0 <= i < binds.len(),
        forall|j: int| 0 <= j < i ==> (#[trigger] binds[j]).0 != binds[i].0,
    ensures
        first_match(binds, binds[i].0) == Some(binds[i].1),
    decreases binds.len(),
{
    if i > 0 {
        let rest = binds.drop_first();
        assert(binds[0].0 != binds[i].0);
        assert forall|j: int| 0 <= j < i - 1 implies (#[trigger] rest[j]).0 != rest[i - 1].0 by {
            assert(binds[j + 1].0 != binds[i].0);
        }
        bound_sequence_is_dispatched(rest, i - 1);
    }
}

/// With no sequence begun, the time that has passed makes no difference.
pub proof fn time_is_irrelevant_without_a_sequence(input: KeyInput)
    ensures
        held(Seq::empty(), true).push(input) == held(Seq::empty(), false).push(input),
{
}

/// Inverse scrolling swaps what turning the wheel up and down does, and nothing else.
pub proof fn inverse_swaps_up_and_down(kind: MouseEventKind)
    ensures
        wheel_direction(MouseEventKind::ScrollUp, true) == wheel_direction(
            MouseEventKind::ScrollDown,
            false,
        ),
        wheel_direction(MouseEventKind::ScrollDown, true) == wheel_direction(
            MouseEventKind::ScrollUp,
            false,
        ),
        kind != MouseEventKind::ScrollUp && kind != MouseEventKind::ScrollDown ==> wheel_direction(
            kind,
            true,
        ) == wheel_direction(kind, false),
{
}

/// Moving, zooming, centering and quitting lead to just that one step, wherever the view stands
/// and whenever the key is pressed, and no toggle is held up by them.
pub proof fn view_actions_are_always_carried_out(
    action: ConfigAction,
    position: Position,
    last: &mut LastExecuted,
    now: u128,
    r: Option<Vec<Action>>,
)
    requires
        call_ensures(act_on, (Some(action), position, last, now), r),
    ensures
        action == ConfigAction::MoveUp ==> does(r, seq![Action::Scroll(Direction::Up)]),
        action == ConfigAction::MoveDown ==> does(r, seq![Action::Scroll(Direction::Down)]),
        action == ConfigAction::MoveLeft ==> does(r, seq![Action::Scroll(Direction::Left)]),
        action == ConfigAction::MoveRight ==> does(r, seq![Action::Scroll(Direction::Right)]),
        action == ConfigAction::ZoomIn ==> does(r, seq![Action::ZoomIn]),
        action == ConfigAction::ZoomOut ==> does(r, seq![Action::ZoomOut]),
        action == ConfigAction::CenterViewer ==> does(r, seq![Action::CenterViewer]),
        action == ConfigAction::Quit ==> does(r, seq![Action::Quit]),
        action != ConfigAction::ToggleAlpha && action != ConfigAction::ToggleInverse
            ==> *final(last) == *old(last),
{
}

/// Whether a result asks for exactly these steps.
pub open spec fn does(r: Option<Vec<Action>>, steps: Seq<Action>) -> bool {
    r matches Some(v) && v@ == steps
}

/// In a document with pages, wherever the view stands, the first page is page 0, the last one
/// is numbered by the count of pages less one, and the next and the previous page are one away,
/// where there is one. Without pages there is no last one to speak of.
pub proof fn page_actions_lead_to_the_page(
    action: ConfigAction,
    position: Position,
    last: &mut LastExecuted,
    now: u128,
    r: Option<Vec<Action>>,
)
    requires
        call_ensures(act_on, (Some(action), position, last, now), r),
    ensures
        ({
            let (page, pages) = (position.page_first, position.pages);
            &&& action == ConfigAction::JumpFirstPage ==> does(r, seq![Action::Jump(0)])
            &&& action == ConfigAction::JumpLastPage && pages > 0 ==> does(
                r,
                seq![Action::Jump((pages - 1) as usize)],
            )
            &&& action == ConfigAction::NextPage && page + 1 < pages ==> does(
                r,
                seq![Action::Jump((page + 1) as usize)],
            )
            &&& action == ConfigAction::NextPage && page + 1 >= pages > 0 ==> does(r, seq![])
            &&& action == ConfigAction::PrevPage && page > 0 ==> does(
                r,
                seq![Action::Jump((page - 1) as usize)],
            )
            &&& action == ConfigAction::PrevPage && page == 0 ==> does(r, seq![])
            &&& (action == ConfigAction::JumpLastPage || action == ConfigAction::NextPage) && pages
                == 0 ==> r is None
        }),
{
}

/// A toggle tells the renderer of its own kind and then makes the page images worthless, where
/// half a second has passed since its last one, and from then on that half second counts anew.
/// Before, it leads to nothing. The other toggle and reloads are not held up. A clock that has
/// gone back is no time to toggle.
pub proof fn toggles_tell_the_renderer(
    position: Position,
    last: &mut LastExecuted,
    now: u128,
    inverse: bool,
    r: Option<Vec<Action>>,
)
    requires
        call_ensures(
            act_on,
            (
                Some(
                    if inverse {
                        ConfigAction::ToggleInverse
                    } else {
                        ConfigAction::ToggleAlpha
                    },
                ),
                position,
                last,
                now,
            ),
            r,
        ),
    ensures
        ({
            let before = if inverse {
                old(last).inverse
            } else {
                old(last).alpha
            };
            if now < before {
                r is None && *final(last) == *old(last)
            } else if now < before + 500_000_000 {
                does(r, seq![]) && *final(last) == *old(last)
            } else if inverse {
                &&& does(r, seq![Action::SendToggleInverse, Action::InvalidateRegistry])
                &&& *final(last) == (LastExecuted { inverse: now, ..*old(last) })
            } else {
                &&& does(r, seq![Action::SendToggleAlpha, Action::InvalidateRegistry])
                &&& *final(last) == (LastExecuted { alpha: now, ..*old(last) })
            }
        }),
{
}

/// A key that no binding asks for leads to nothing.
pub proof fn no_action_does_nothing(
    position: Position,
    last: &mut LastExecuted,
    now: u128,
    r: Option<Vec<Action>>,
)
    requires
        call_ensures(act_on, (None, position, last, now), r),
    ensures
        does(r, seq![]),
        *final(last) == *old(last),
{
}

/// To carry out an action that can be carried out is to do what its key does.
pub proof fn performed_action_is_that_of_its_key(
    action: ConfigAction,
    position: Position,
    last: &mut LastExecuted,
    other: &mut LastExecuted,
    now: u128,
    r: Vec<Action>,
    by_key: Option<Vec<Action>>,
)
    requires
        *last == *other,
        call_ensures(perform, (action, position, last, now), r),
        call_ensures(act_on, (Some(action), position, other, now), by_key),
        by_key is Some,
    ensures
        does(by_key, r@),
        *final(last) == *final(other),
{
}

/// With no sequence begun, a key that is bound by itself does what the first binding of it asks
/// for, and no sequence is begun.
pub proof fn bound_key_does_its_action(
    key: KeyEvent,
    matcher: &mut Keybinds<ConfigAction>,
    position: Position,
    last: &mut LastExecuted,
    other: &mut LastExecuted,
    now: u128,
    i: int,
    r: Option<Vec<Action>>,
    acted: Option<Vec<Action>>,
)
    requires
        call_ensures(handle_key, (key, matcher, position, last, now), r),
        !is_ignored(key_input_of(key)),
        ongoing(*matcher).len() == 0,
        0 <= i < bindings(*matcher).len(),
        bindings(*matcher)[i].0 == seq![key_input_of(key)],
        forall|j: int|
            0 <= j < i ==> (#[trigger] bindings(*matcher)[j]).0 != seq![key_input_of(key)],
        *last == *other,
        call_ensures(act_on, (Some(bindings(*matcher)[i].1), position, other, now), acted),
    ensures
        r is Some <==> acted is Some,
        r matches Some(steps) ==> does(acted, steps@),
        *final(last) == *final(other),
        ongoing(*final(matcher)).len() == 0,
        bindings(*final(matcher)) == bindings(*old(matcher)),
{
    let alone = seq![key_input_of(key)];
    assert(held(ongoing(*matcher), false).push(key_input_of(key)) =~= alone);
    assert(held(ongoing(*matcher), true).push(key_input_of(key)) =~= alone);
    bound_sequence_is_dispatched(bindings(*matcher), i);
}

/// A key that no binding begins with leads to nothing when no sequence is begun, and begins
/// none. A key that some binding goes on from, but that is bound by itself to nothing, leads to
/// nothing yet and is kept.
pub proof fn unbound_key_does_nothing(
    key: KeyEvent,
    matcher: &mut Keybinds<ConfigAction>,
    position: Position,
    last: &mut LastExecuted,
    now: u128,
    r: Option<Vec<Action>>,
)
    requires
        call_ensures(handle_key, (key, matcher, position, last, now), r),
        !is_ignored(key_input_of(key)),
        ongoing(*matcher).len() == 0,
        forall|j: int|
            0 <= j < bindings(*matcher).len() ==> (#[trigger] bindings(*matcher)[j]).0 != seq![
                key_input_of(key),
            ],
    ensures
        does(r, seq![]),
        *final(last) == *old(last),
        ongoing(*final(matcher)) == if exists|j: int|
            0 <= j < bindings(*old(matcher)).len() && (#[trigger] bindings(*old(matcher))[j]).0.len()
                > 1 && bindings(*old(matcher))[j].0[0] == key_input_of(key) {
            seq![key_input_of(key)]
        } else {
            seq![]
        },
{
    let input = key_input_of(key);
    let alone = seq![input];
    let binds = bindings(*matcher);
    assert(held(ongoing(*matcher), false).push(input) =~= alone);
    assert(held(ongoing(*matcher), true).push(input) =~= alone);
    only_bound_actions_are_dispatched(binds, alone);
    if goes_on(binds, alone) {
        let j = choose|j: int|
            0 <= j < binds.len() && alone.len() < (#[trigger] binds[j]).0.len()
                && alone.is_prefix_of(binds[j].0);
        assert(alone[0] == binds[j].0.subrange(0, 1)[0]);
    }
    if exists|j: int|
        0 <= j < binds.len() && (#[trigger] binds[j]).0.len() > 1 && binds[j].0[0] == input {
        let j = choose|j: int|
            0 <= j < binds.len() && (#[trigger] binds[j]).0.len() > 1 && binds[j].0[0] == input;
        assert(alone =~= binds[j].0.subrange(0, 1));
    }
}

/// A key event that stands for no key leads to nothing and leaves a sequence as it is.
pub proof fn ignored_key_does_nothing(
    key: KeyEvent,
    matcher: &mut Keybinds<ConfigAction>,
    position: Position,
    last: &mut LastExecuted,
    now: u128,
    r: Option<Vec<Action>>,
)
    requires
        call_ensures(handle_key, (key, matcher, position, last, now), r),
        is_ignored(key_input_of(key)),
    ensures
        does(r, seq![]),
        *final(last) == *old(last),
        ongoing(*final(matcher)) == ongoing(*old(matcher)),
        bindings(*final(matcher)) == bindings(*old(matcher)),
{
}

/// A key that ends the sequence of a binding does what that binding asks for, unless too much
/// time has passed: then it counts as if no sequence had been begun.
pub proof fn last_key_of_a_sequence_does_its_action(
    key: KeyEvent,
    matcher: &mut Keybinds<ConfigAction>,
    position: Position,
    last: &mut LastExecuted,
    in_time: &mut LastExecuted,
    now: u128,
    i: int,
    r: Option<Vec<Action>>,
    acted: Option<Vec<Action>>,
)
    requires
        call_ensures(handle_key, (key, matcher, position, last, now), r),
        !is_ignored(key_input_of(key)),
        0 <= i < bindings(*matcher).len(),
        bindings(*matcher)[i].0 == ongoing(*matcher).push(key_input_of(key)),
        forall|j: int|
            0 <= j < bindings(*matcher).len() && j != i ==> {
                &&& (#[trigger] bindings(*matcher)[j]).0 != bindings(*matcher)[i].0
                &&& bindings(*matcher)[j].0 != seq![key_input_of(key)]
            },
        ongoing(*matcher).len() > 0,
        *last == *in_time,
        call_ensures(act_on, (Some(bindings(*matcher)[i].1), position, in_time, now), acted),
    ensures
        ({
            ||| (r is Some <==> acted is Some) && (r matches Some(steps) ==> does(acted, steps@))
                && *final(last) == *final(in_time) && ongoing(*final(matcher)).len() == 0
            ||| does(r, seq![]) && *final(last) == *old(last)
        }),
{
    let input = key_input_of(key);
    let binds = bindings(*matcher);
    let inputs = held(ongoing(*matcher), false).push(input);
    let alone = held(ongoing(*matcher), true).push(input);
    assert(inputs == binds[i].0);
    bound_sequence_is_dispatched(binds, i);
    assert(alone =~= seq![input]);
    only_bound_actions_are_dispatched(binds, alone);
    if first_match(binds, alone) is Some {
        let j = choose|j: int|
            0 <= j < binds.len() && (#[trigger] binds[j]).0 == alone && binds[j].1 == first_match(
                binds,
                alone,
            )->0;
        assert(binds[i].0.len() > 1);
    }
}

/// Whatever a key does, some binding asks for it: one whose sequence is this key, alone or behind
/// the keys pressed so far. Without steps nothing was asked for, or a toggle came too soon.
pub proof fn every_step_comes_from_a_binding(
    key: KeyEvent,
    matcher: &mut Keybinds<ConfigAction>,
    position: Position,
    last: &mut LastExecuted,
    now: u128,
    steps: Vec<Action>,
)
    requires
        call_ensures(handle_key, (key, matcher, position, last, now), Some(steps)),
        steps@.len() > 0,
    ensures
        exists|i: int|
            {
                let (inputs, action) = #[trigger] bindings(*old(matcher))[i];
                &&& 0 <= i < bindings(*old(matcher)).len()
                &&& inputs == ongoing(*old(matcher)).push(key_input_of(key)) || inputs == seq![
                    key_input_of(key),
                ]
                &&& can_act(action, position, *old(last), now)
                &&& steps@ == action_steps(action, position, *old(last), now)
                &&& *final(last) == times_after(action, *old(last), now)
            },
        ongoing(*final(matcher)).len() == 0,
{
    let input = key_input_of(key);
    let binds = bindings(*matcher);
    let inputs = held(ongoing(*matcher), false).push(input);
    let alone = held(ongoing(*matcher), true).push(input);
    assert(alone =~= seq![input]);
    only_bound_actions_are_dispatched(binds, inputs);
    only_bound_actions_are_dispatched(binds, alone);
}

/// Without inverse scrolling the view goes where the wheel is turned; with it, up and down
/// change places. Nothing else that happens to the mouse scrolls.
pub proof fn wheel_scrolls_where_it_is_turned(
    kind: MouseEventKind,
    inverse_scroll: bool,
    r: Option<Direction>,
)
    requires
        call_ensures(handle_mouse_scroll, (kind, inverse_scroll), r),
    ensures
        kind == MouseEventKind::ScrollUp && !inverse_scroll ==> r == Some(Direction::Up),
        kind == MouseEventKind::ScrollUp && inverse_scroll ==> r == Some(Direction::Down),
        kind == MouseEventKind::ScrollDown && !inverse_scroll ==> r == Some(Direction::Down),
        kind == MouseEventKind::ScrollDown && inverse_scroll ==> r == Some(Direction::Up),
        kind == MouseEventKind::ScrollLeft ==> r == Some(Direction::Left),
        kind == MouseEventKind::ScrollRight ==> r == Some(Direction::Right),
        r is Some ==> kind is ScrollUp || kind is ScrollDown || kind is ScrollLeft
            || kind is ScrollRight,
{
}

} // verus!

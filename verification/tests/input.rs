use crossterm::event::{KeyCode, KeyEvent, KeyEventKind, KeyModifiers};
use keybinds::Keybinds;
use meowpdf::input::{
    act_on, handle_key, handle_mouse_scroll, perform, ConfigAction, MouseButton, MouseEventKind,
    Position,
};
use meowpdf::session::{Action, Direction, LastExecuted};

const START: u128 = 10_000_000_000;

const MIDDLE: Position = Position { page_first: 4, pages: 9 };

fn key(c: char) -> KeyEvent {
    KeyEvent::new(KeyCode::Char(c), KeyModifiers::NONE)
}

fn matcher() -> Keybinds<ConfigAction> {
    let mut binds = Keybinds::default();
    binds.bind("j", ConfigAction::MoveDown).unwrap();
    binds.bind("g g", ConfigAction::JumpFirstPage).unwrap();
    binds.bind("G", ConfigAction::JumpLastPage).unwrap();
    binds.bind("q", ConfigAction::Quit).unwrap();
    binds.bind("Ctrl+a", ConfigAction::ToggleAlpha).unwrap();
    binds.bind("Q", ConfigAction::ZoomIn).unwrap();
    binds.bind("Q", ConfigAction::ZoomOut).unwrap();
    binds
}

#[test]
fn bound_key_acts_at_once() {
    let mut binds = matcher();
    let mut last = LastExecuted::new(START);
    assert_eq!(
        handle_key(key('j'), &mut binds, MIDDLE, &mut last, START),
        Some(vec![Action::Scroll(Direction::Down)])
    );
    assert_eq!(
        handle_key(key('q'), &mut binds, MIDDLE, &mut last, START),
        Some(vec![Action::Quit])
    );
    assert_eq!(last, LastExecuted::new(START));
}

#[test]
fn unbound_key_does_nothing() {
    let mut binds = matcher();
    let mut last = LastExecuted::new(START);
    assert_eq!(handle_key(key('x'), &mut binds, MIDDLE, &mut last, START), Some(vec![]));
}

#[test]
fn sequence_acts_with_its_last_key() {
    let mut binds = matcher();
    binds.set_timeout(std::time::Duration::from_secs(3600));
    let mut last = LastExecuted::new(START);
    assert_eq!(handle_key(key('g'), &mut binds, MIDDLE, &mut last, START), Some(vec![]));
    assert!(binds.is_ongoing());
    assert_eq!(
        handle_key(key('g'), &mut binds, MIDDLE, &mut last, START),
        Some(vec![Action::Jump(0)])
    );
    assert!(!binds.is_ongoing());
}

#[test]
fn released_key_does_nothing() {
    let mut binds = matcher();
    binds.set_timeout(std::time::Duration::from_secs(3600));
    let mut last = LastExecuted::new(START);
    assert_eq!(handle_key(key('g'), &mut binds, MIDDLE, &mut last, START), Some(vec![]));
    let released =
        KeyEvent::new_with_kind(KeyCode::Char('g'), KeyModifiers::NONE, KeyEventKind::Release);
    assert_eq!(handle_key(released, &mut binds, MIDDLE, &mut last, START), Some(vec![]));
    assert_eq!(binds.ongoing_inputs().len(), 1);
}

#[test]
fn first_binding_of_a_sequence_counts() {
    let mut binds = matcher();
    let mut last = LastExecuted::new(START);
    assert_eq!(
        handle_key(key('Q'), &mut binds, MIDDLE, &mut last, START),
        Some(vec![Action::ZoomIn])
    );
}

#[test]
fn modifiers_are_told_apart() {
    let mut binds = matcher();
    let mut last = LastExecuted::new(START);
    let control_a = KeyEvent::new(KeyCode::Char('a'), KeyModifiers::CONTROL);
    assert_eq!(handle_key(key('a'), &mut binds, MIDDLE, &mut last, START), Some(vec![]));
    assert_eq!(
        handle_key(control_a, &mut binds, MIDDLE, &mut last, START),
        Some(vec![Action::SendToggleAlpha, Action::InvalidateRegistry])
    );
    assert_eq!(last.alpha, START);
}

#[test]
fn last_page_of_an_empty_document_cannot_be_reached() {
    let mut binds = matcher();
    let mut last = LastExecuted::new(START);
    let nowhere = Position { page_first: 0, pages: 0 };
    assert_eq!(handle_key(key('G'), &mut binds, nowhere, &mut last, START), None);
    assert_eq!(act_on(Some(ConfigAction::NextPage), nowhere, &mut last, START), None);
    assert_eq!(
        handle_key(key('j'), &mut binds, nowhere, &mut last, START),
        Some(vec![Action::Scroll(Direction::Down)])
    );
}

#[test]
fn clock_that_went_back_cannot_be_throttled_by() {
    let mut last = LastExecuted::new(START);
    assert_eq!(act_on(Some(ConfigAction::ToggleAlpha), MIDDLE, &mut last, 0), None);
    assert_eq!(act_on(Some(ConfigAction::ToggleInverse), MIDDLE, &mut last, 0), None);
    assert_eq!(act_on(None, MIDDLE, &mut last, 0), Some(vec![]));
    assert_eq!(last, LastExecuted::new(START));
}

#[test]
fn every_action() {
    let cases = vec![
        (ConfigAction::MoveUp, vec![Action::Scroll(Direction::Up)]),
        (ConfigAction::MoveDown, vec![Action::Scroll(Direction::Down)]),
        (ConfigAction::MoveLeft, vec![Action::Scroll(Direction::Left)]),
        (ConfigAction::MoveRight, vec![Action::Scroll(Direction::Right)]),
        (ConfigAction::PrevPage, vec![Action::Jump(3)]),
        (ConfigAction::NextPage, vec![Action::Jump(5)]),
        (ConfigAction::CenterViewer, vec![Action::CenterViewer]),
        (ConfigAction::JumpFirstPage, vec![Action::Jump(0)]),
        (ConfigAction::JumpLastPage, vec![Action::Jump(8)]),
        (ConfigAction::Quit, vec![Action::Quit]),
        (ConfigAction::ToggleAlpha, vec![Action::SendToggleAlpha, Action::InvalidateRegistry]),
        (ConfigAction::ToggleInverse, vec![Action::SendToggleInverse, Action::InvalidateRegistry]),
        (ConfigAction::ZoomIn, vec![Action::ZoomIn]),
        (ConfigAction::ZoomOut, vec![Action::ZoomOut]),
    ];
    for (action, expected) in cases {
        let mut last = LastExecuted::new(START);
        let steps = perform(action, MIDDLE, &mut last, START);
        assert_eq!(steps, expected);
        assert_eq!(steps.contains(&Action::Quit), action == ConfigAction::Quit);
    }
}

#[test]
fn pages_end_at_the_first_and_the_last() {
    let mut last = LastExecuted::new(START);
    let first = Position { page_first: 0, pages: 9 };
    let end = Position { page_first: 8, pages: 9 };
    assert_eq!(perform(ConfigAction::PrevPage, first, &mut last, START), vec![]);
    assert_eq!(perform(ConfigAction::NextPage, end, &mut last, START), vec![]);
    assert_eq!(perform(ConfigAction::NextPage, first, &mut last, START), vec![Action::Jump(1)]);
    assert_eq!(perform(ConfigAction::PrevPage, end, &mut last, START), vec![Action::Jump(7)]);
}

#[test]
fn toggles_are_throttled_separately() {
    let mut last = LastExecuted::new(START);
    let half = 500_000_000;
    let alpha = vec![Action::SendToggleAlpha, Action::InvalidateRegistry];
    let inverse = vec![Action::SendToggleInverse, Action::InvalidateRegistry];
    assert_eq!(perform(ConfigAction::ToggleAlpha, MIDDLE, &mut last, START), alpha);
    assert_eq!(perform(ConfigAction::ToggleAlpha, MIDDLE, &mut last, START + half - 1), vec![]);
    assert_eq!(perform(ConfigAction::ToggleInverse, MIDDLE, &mut last, START + 1), inverse);
    assert_eq!(perform(ConfigAction::ToggleAlpha, MIDDLE, &mut last, START + half), alpha);
    assert_eq!(last.alpha, START + half);
    assert_eq!(last.inverse, START + 1);
    assert_eq!(last.load, START - half);
}

#[test]
fn quick_toggle_is_ignored_whatever_comes_in_between() {
    let mut last = LastExecuted::new(START);
    let half = 500_000_000;
    let inverse = vec![Action::SendToggleInverse, Action::InvalidateRegistry];
    assert_eq!(perform(ConfigAction::ToggleInverse, MIDDLE, &mut last, START), inverse);
    perform(ConfigAction::ZoomIn, MIDDLE, &mut last, START + 1);
    perform(ConfigAction::ToggleAlpha, MIDDLE, &mut last, START + 2);
    perform(ConfigAction::ToggleInverse, MIDDLE, &mut last, START + half / 2);
    perform(ConfigAction::NextPage, MIDDLE, &mut last, START + half - 2);
    assert_eq!(perform(ConfigAction::ToggleInverse, MIDDLE, &mut last, START + half - 1), vec![]);
    assert_eq!(last.inverse, START);
    assert_eq!(perform(ConfigAction::ToggleInverse, MIDDLE, &mut last, START + half), inverse);
}

#[test]
fn wheel_scrolls_and_inverse_swaps_up_and_down() {
    let cases = vec![
        (MouseEventKind::ScrollUp, false, Some(Direction::Up)),
        (MouseEventKind::ScrollUp, true, Some(Direction::Down)),
        (MouseEventKind::ScrollDown, false, Some(Direction::Down)),
        (MouseEventKind::ScrollDown, true, Some(Direction::Up)),
        (MouseEventKind::ScrollLeft, false, Some(Direction::Left)),
        (MouseEventKind::ScrollLeft, true, Some(Direction::Left)),
        (MouseEventKind::ScrollRight, false, Some(Direction::Right)),
        (MouseEventKind::ScrollRight, true, Some(Direction::Right)),
        (MouseEventKind::Moved, false, None),
        (MouseEventKind::Down(MouseButton::Left), true, None),
    ];
    for (kind, inverse, expected) in cases {
        assert_eq!(handle_mouse_scroll(kind, inverse), expected);
    }
}

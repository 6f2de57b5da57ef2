use meowpdf::input::{MouseButton, MouseEvent, MouseEventKind};
use meowpdf::session::{
    ready_source, software_id, startup, version_message, Action, Direction, Event, LastExecuted,
    Link, PointerShape, Session, Source, Startup, WindowSize,
};

const START: u128 = 10_000_000_000;

fn at(kind: MouseEventKind) -> MouseEvent {
    MouseEvent { kind, column: 10, row: 20, modifiers: 0 }
}

fn link(uri: &str, page_number: Option<u32>) -> Link {
    Link { uri: uri.to_string(), page_number }
}

#[test]
fn arguments() {
    assert_eq!(startup(""), Startup::Help);
    assert_eq!(startup("-h"), Startup::Help);
    assert_eq!(startup("--help"), Startup::Help);
    assert_eq!(startup("-v"), Startup::Version);
    assert_eq!(startup("--version"), Startup::Version);
    assert_eq!(startup("-x"), Startup::Open);
    assert_eq!(startup("paper.pdf"), Startup::Open);
}

#[test]
fn version_is_told_with_its_date() {
    assert_eq!(version_message(), "meowpdf v1.2.2 (2026-01-13)");
}

#[test]
fn instances_are_named_in_hexadecimal() {
    assert_eq!(software_id(0), "0");
    assert_eq!(software_id(0xDEAD_BEEF_0123_4567), "DEADBEEF01234567");
    assert_eq!(software_id(u64::MAX), "FFFFFFFFFFFFFFFF");
    assert_ne!(software_id(0x10), software_id(0x01));
}

#[test]
fn channels_in_order() {
    let sources: Vec<Source> = (0..7).map(ready_source).collect();
    assert_eq!(
        sources,
        vec![
            Source::Renderer(0),
            Source::Renderer(1),
            Source::FileReload,
            Source::Rerender,
            Source::Input,
            Source::Mouse,
            Source::WindowSize,
        ]
    );
}

#[test]
fn session_starts_with_the_mouse_nowhere() {
    let session = Session::new(START);
    assert_eq!(session.mouse.kind, MouseEventKind::Moved);
    assert_eq!((session.mouse.column, session.mouse.row), (u16::MAX, u16::MAX));
    assert_eq!(session.last, LastExecuted::new(START));
    assert_eq!(session.last.load, START - 500_000_000);
}

#[test]
fn first_metadata_scales_the_page() {
    let mut session = Session::new(START);
    assert_eq!(
        session.handle_event(Event::Metadata { uninit: true }, false, START),
        vec![
            Action::UpdateMetadata,
            Action::InvalidateRegistry,
            Action::CenterViewer,
            Action::ScalePageToTerminal,
            Action::ClearPriority(1),
        ]
    );
    assert_eq!(
        session.handle_event(Event::Metadata { uninit: false }, false, START),
        vec![
            Action::UpdateMetadata,
            Action::InvalidateRegistry,
            Action::CenterViewer,
            Action::ClearPriority(1),
        ]
    );
}

#[test]
fn changed_file_is_loaded_after_a_while() {
    let mut session = Session::new(START);
    let half = 500_000_000;
    assert_eq!(session.handle_event(Event::FileChanged, false, START + half - 1), vec![]);
    assert_eq!(session.last, LastExecuted::new(START));
    assert_eq!(
        session.handle_event(Event::FileChanged, false, START + half),
        vec![Action::SendLoad]
    );
}

#[test]
fn reloads_are_a_second_apart() {
    let mut session = Session::new(START);
    let first = START + 700_000_000;
    let second = first + 1_000_000_000;
    assert_eq!(
        session.handle_event(Event::FileChanged, false, first),
        vec![Action::SendLoad]
    );
    assert_eq!(session.last, LastExecuted { load: first, ..LastExecuted::new(START) });
    for now in [first, first + 1, first + 500_000_000, second - 1] {
        assert_eq!(session.handle_event(Event::FileChanged, false, now), vec![]);
        assert_eq!(session.handle_event(Event::Image, false, now), vec![Action::HandleImage]);
        assert_eq!(session.last.load, first);
    }
    assert_eq!(
        session.handle_event(Event::FileChanged, false, second),
        vec![Action::SendLoad]
    );
    assert_eq!(session.last.load, second);
    assert_eq!(session.handle_event(Event::FileChanged, false, second + 1), vec![]);
}

#[test]
fn other_events() {
    let mut session = Session::new(START);
    let size = WindowSize { rows: 24, columns: 80, width: 800, height: 480 };
    assert_eq!(session.handle_event(Event::Image, false, START), vec![Action::HandleImage]);
    assert_eq!(session.handle_event(Event::Rerender, false, START), vec![]);
    assert_eq!(
        session.handle_event(Event::MouseScroll(MouseEventKind::ScrollUp), true, START),
        vec![Action::Scroll(Direction::Down)]
    );
    assert_eq!(
        session.handle_event(Event::MouseScroll(MouseEventKind::Moved), true, START),
        vec![]
    );
    assert_eq!(
        session.handle_event(Event::Resized(Some(size)), false, START),
        vec![Action::SetTerminalSize(size)]
    );
    assert_eq!(session.handle_event(Event::Resized(None), false, START), vec![]);
    let click = at(MouseEventKind::Down(MouseButton::Left));
    assert_eq!(session.handle_event(Event::Mouse(click), false, START), vec![]);
    assert_eq!(session.mouse, click);
}

#[test]
fn mouse_beside_a_link() {
    let mut session = Session::new(START);
    session.mouse = at(MouseEventKind::Down(MouseButton::Left));
    assert_eq!(
        session.handle_link(None),
        vec![Action::SetPointerShape(PointerShape::Default)]
    );
    assert_eq!(session.mouse, at(MouseEventKind::Down(MouseButton::Left)));
}

#[test]
fn mouse_over_a_link() {
    let mut session = Session::new(START);
    session.mouse = at(MouseEventKind::Moved);
    assert_eq!(
        session.handle_link(Some(&link("https://example.org", None))),
        vec![Action::SetPointerShape(PointerShape::Pointer), Action::ShowUriHint]
    );
}

#[test]
fn click_on_a_link_counts_once() {
    let mut session = Session::new(START);
    session.mouse = at(MouseEventKind::Down(MouseButton::Right));
    let outside = link("https://example.org", Some(3));
    assert_eq!(
        session.handle_link(Some(&outside)),
        vec![
            Action::SetPointerShape(PointerShape::Pointer),
            Action::ShowUriHint,
            Action::OpenUri,
            Action::SetPointerShape(PointerShape::Default),
        ]
    );
    assert_eq!(session.mouse, at(MouseEventKind::Moved));
    assert_eq!(
        session.handle_link(Some(&outside)),
        vec![Action::SetPointerShape(PointerShape::Pointer), Action::ShowUriHint]
    );
}

#[test]
fn click_on_a_link_into_the_document() {
    for (page, followed) in [(Some(3), vec![Action::Jump(3)]), (None, vec![])] {
        let mut session = Session::new(START);
        session.mouse = at(MouseEventKind::Down(MouseButton::Left));
        let mut expected =
            vec![Action::SetPointerShape(PointerShape::Pointer), Action::ShowUriHint];
        expected.extend(followed);
        expected.push(Action::SetPointerShape(PointerShape::Default));
        assert_eq!(session.handle_link(Some(&link("#section", page))), expected);
    }
}

#[test]
fn empty_uri_is_opened() {
    let mut session = Session::new(START);
    session.mouse = at(MouseEventKind::Down(MouseButton::Left));
    assert!(session.handle_link(Some(&link("", Some(1)))).contains(&Action::OpenUri));
}

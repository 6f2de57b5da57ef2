use meowpdf::handshake::Handshake;

#[test]
fn accepted_pages_are_left_alone() {
    let mut wait = Handshake::new(vec![3, 4]);
    assert_eq!(wait.awaiting(), Some(3));
    assert_eq!(wait.respond(Some("OK")), None);
    assert_eq!(wait.awaiting(), Some(4));
    assert_eq!(wait.respond(Some("OK")), None);
    assert_eq!(wait.awaiting(), None);
    assert!(!wait.must_drain());
}

#[test]
fn refused_pages_are_transferred_again() {
    let mut wait = Handshake::new(vec![3, 4, 5]);
    assert_eq!(wait.respond(Some("ENOENT:Put command refers to non-existent image")), Some(3));
    assert_eq!(wait.respond(Some("OK")), None);
    assert_eq!(wait.respond(Some("")), Some(5));
    assert_eq!(wait.awaiting(), None);
    assert!(!wait.must_drain());
}

#[test]
fn missing_response_ends_the_wait() {
    let mut wait = Handshake::new(vec![3, 4, 5]);
    assert_eq!(wait.respond(Some("OK")), None);
    assert_eq!(wait.respond(None), None);
    assert_eq!(wait.awaiting(), None);
    assert!(wait.must_drain());
}

#[test]
fn nothing_drawn_nothing_awaited() {
    let wait = Handshake::new(vec![]);
    assert_eq!(wait.awaiting(), None);
    assert!(!wait.must_drain());
}

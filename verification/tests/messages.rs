use meowpdf::messages::{
    awaiting_message, display_message, no_response_message, resize_message, response_message,
    transfer_message,
};
use meowpdf::session::WindowSize;

#[test]
fn transfer() {
    assert_eq!(
        transfer_message(7, 4_000_000, 2047, 2048, 12, 0, 345),
        "TRANSFER id=7 raw=3906KB png=1KB b64=2KB encode=12ms waited=0ms write=345ms"
    );
}

#[test]
fn resize() {
    let size = WindowSize { rows: 24, columns: 80, width: 800, height: 480 };
    assert_eq!(resize_message(size), "RESIZE -> rows=24 cols=80 xpix=800 ypix=480");
}

#[test]
fn display() {
    for pages in [vec![], vec![4], vec![4, 5, 16]] {
        assert_eq!(
            display_message(&pages),
            format!("display_pages -> {} page(s): {:?}", pages.len(), pages)
        );
    }
}

#[test]
fn responses() {
    assert_eq!(awaiting_message(0, 2, 9), "  awaiting response 1/2 (page 9)");
    assert_eq!(
        no_response_message(1, 2, 9),
        "  NO RESPONSE for page 9 (2/2) within timeout -- continuing"
    );
}

#[test]
fn response() {
    assert_eq!(response_message(12, "\"OK\""), "  got response (page 12): \"OK\"");
}

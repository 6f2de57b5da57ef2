use meowpdf::drivers::response::GraphicsResponse;

#[test]
fn response_is_taken_apart() {
    let mut response = GraphicsResponse::new(b"i=31,p=7;OK");
    assert_eq!(response.payload(), "OK");
    let control = response.control();
    assert_eq!(control.get("i"), Some("31"));
    assert_eq!(control.get("p"), Some("7"));
    assert_eq!(control.get("x"), None);
    assert_eq!(control.len(), 2);
}

#[test]
fn response_without_payload() {
    let mut response = GraphicsResponse::new(b"i=31");
    assert_eq!(response.payload(), "");
    assert_eq!(response.control().get("i"), Some("31"));
}

#[test]
fn empty_response() {
    let mut response = GraphicsResponse::new(b"");
    assert_eq!(response.payload(), "");
    assert_eq!(response.control().len(), 0);
}

#[test]
fn payload_ends_at_the_second_semicolon() {
    let response = GraphicsResponse::new(b"i=1;ENOENT;more;");
    assert_eq!(response.payload(), "ENOENT");
    assert_eq!(GraphicsResponse::new(b";;x").payload(), "");
    assert_eq!(GraphicsResponse::new(b";x").payload(), "x");
}

#[test]
fn fields_without_exactly_one_equals_sign_are_passed_over() {
    let mut response = GraphicsResponse::new(b"a,b=1,c=2=3,=4,d=,;");
    let control = response.control();
    assert_eq!(control.get("a"), None);
    assert_eq!(control.get("b"), Some("1"));
    assert_eq!(control.get("c"), None);
    assert_eq!(control.get(""), Some("4"));
    assert_eq!(control.get("d"), Some(""));
    assert_eq!(control.len(), 3);
}

#[test]
fn last_value_of_a_key_counts() {
    let mut response = GraphicsResponse::new(b"i=1,p=2,i=3;OK");
    let control = response.control();
    assert_eq!(control.get("i"), Some("3"));
    assert_eq!(control.get("p"), Some("2"));
    assert_eq!(control.len(), 2);
}

#[test]
fn control_can_be_asked_for_again() {
    let mut response = GraphicsResponse::new(b"i=1;OK");
    assert_eq!(response.control().len(), 1);
    assert_eq!(response.control().get("i"), Some("1"));
    assert_eq!(response.payload(), "OK");
}

#[test]
fn text_beyond_ascii() {
    let mut response = GraphicsResponse::new("schlüssel=wärt;grüße".as_bytes());
    assert_eq!(response.payload(), "grüße");
    assert_eq!(response.control().get("schlüssel"), Some("wärt"));
}

#[test]
fn clones_answer_alike() {
    let fresh = GraphicsResponse::new(b"i=1,j=2;OK");
    let mut copy = fresh.clone();
    assert_eq!(copy.control().get("j"), Some("2"));
    let mut loaded = copy.clone();
    assert_eq!(loaded.control().get("i"), Some("1"));
    assert_eq!(loaded.payload(), "OK");
    let map = loaded.control().clone();
    assert_eq!(map.get("i"), Some("1"));
    assert_eq!(map.len(), 2);
}

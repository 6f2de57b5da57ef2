use meowpdf::text::{begins_with, contains_text, push_decimal, push_numeral, same_text, split_text};

fn decimal(n: u128) -> String {
    let mut out = String::new();
    push_decimal(&mut out, n);
    out
}

#[test]
fn decimal_numerals() {
    for n in [0, 1, 9, 10, 99, 100, 1_073_741_825, u64::MAX as u128, u128::MAX] {
        assert_eq!(decimal(n), format!("{}", n));
        assert_eq!(decimal(n).parse::<u128>(), Ok(n));
    }
    assert_ne!(decimal(12), decimal(21));
}

#[test]
fn other_numerals() {
    let mut out = "0x".to_string();
    push_numeral(&mut out, 0x00FE_DCBA_9876_5432_10, 16);
    assert_eq!(out, "0xFEDCBA9876543210");
    let mut out = String::new();
    push_numeral(&mut out, 10, 2);
    assert_eq!(out, "1010");
}

#[test]
fn splitting() {
    for s in ["", ",", "a", "a,b", ",a,,b,", "grün,blau"] {
        let expected: Vec<String> = s.split(',').map(|p| p.to_string()).collect();
        let pieces = split_text(s, ',');
        assert_eq!(pieces, expected);
        assert_eq!(pieces.join(","), s);
    }
}

#[test]
fn searching() {
    for (s, pattern) in
        [("", ""), ("abc", ""), ("", "a"), ("abc", "bc"), ("abc", "cb"), ("aab", "ab"), ("aß", "ß")]
    {
        assert_eq!(contains_text(s, pattern), s.contains(pattern));
    }
}

#[test]
fn comparing() {
    assert!(same_text("-h", "-h"));
    assert!(!same_text("-h", "--help"));
    assert!(begins_with("#top", '#'));
    assert!(!begins_with("top#", '#'));
    assert!(!begins_with("", '#'));
}

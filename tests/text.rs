use iberos::pause_execution;
use iberos::string::String;

#[test]
fn new_string_is_empty() {
    let s = String::new();
    assert!(s.is_empty());
    assert_eq!(s.len(), 0);
}

#[test]
fn push_encodes_utf8() {
    let mut s = String::new();
    s.push('a');
    s.push('\u{e9}');
    s.push('\u{20ac}');
    assert_eq!(s.as_bytes(), &[b'a', 0xc3, 0xa9, 0xe2, 0x82, 0xac]);
    assert_eq!(s.len(), 6);
    assert_eq!(s.as_str(), "a\u{e9}\u{20ac}");
}

#[test]
fn clear_empties() {
    let mut s = String::new();
    s.push('x');
    assert!(!s.is_empty());
    s.clear();
    assert!(s.is_empty());
    assert_eq!(s.as_str(), "");
}

#[test]
fn pause_of_zero_returns() {
    pause_execution(0);
}

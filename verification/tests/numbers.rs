use jawk::float_text::{exactly_float_text, float_prefix_len};

fn string_to_float(bytes: &[u8]) -> f64 {
    let n = float_prefix_len(bytes);
    std::str::from_utf8(&bytes[..n]).unwrap().parse().unwrap_or(0.0)
}

#[test]
fn permissive_number_prefix() {
    assert_eq!(float_prefix_len(b"1.1a"), 3);
    assert_eq!(float_prefix_len(b"1.2.3"), 3);
    assert_eq!(float_prefix_len(b".5x"), 2);
    assert_eq!(float_prefix_len(b"abc"), 0);
    assert_eq!(float_prefix_len(b""), 0);
    assert_eq!(float_prefix_len(b"-1"), 0);
    assert_eq!(string_to_float(b"1.1a"), 1.1);
    assert_eq!(string_to_float(b"12"), 12.0);
    assert_eq!(string_to_float(b"x"), 0.0);
}

#[test]
fn exact_number_text() {
    assert!(exactly_float_text(b"1.1"));
    assert!(exactly_float_text(b"42"));
    assert!(exactly_float_text(b"."));
    assert!(!exactly_float_text(b"1.1a"));
    assert!(!exactly_float_text(b"1.1.1"));
    assert!(!exactly_float_text(b""));
}

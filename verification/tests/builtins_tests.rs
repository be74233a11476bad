use beautytips::builtins::detect_mixed_line_endings;
use beautytips::builtins::fix_mixed_line_endings;
use beautytips::builtins::is_true;
use beautytips::builtins::parse_size;

#[test]
fn test_detect_line_endings_empty_file() {
    let input = vec![];

    assert_eq!(detect_mixed_line_endings(&input), (false, false, 2));
}

#[test]
fn test_detect_line_endings_binary_file() {
    let input = vec![0, 42, 10, 255, 128, 52];

    assert_eq!(detect_mixed_line_endings(&input), (true, false, 0));
}

#[test]
fn test_detect_line_endings_lf_only() {
    let input = "a\nb\nc\n".as_bytes();
    assert_eq!(detect_mixed_line_endings(input), (false, false, 2));
}

#[test]
fn test_detect_line_endings_crlf_only() {
    let input = "a\r\nb\r\nc\r\n".as_bytes();
    assert_eq!(detect_mixed_line_endings(input), (false, false, 1));
}

#[test]
fn test_detect_line_endings_cr_only() {
    let input = "a\rb\rc\r".as_bytes();
    assert_eq!(detect_mixed_line_endings(input), (false, false, 0));
}

#[test]
fn test_detect_line_endings_all_of_them() {
    let input = "a\rb\r\nc\n".as_bytes();
    assert_eq!(detect_mixed_line_endings(input), (false, true, 2));
}

#[test]
fn test_fix_line_endings_cr() {
    let input = "a\rb\r\nc\n".as_bytes();
    assert_eq!(&fix_mixed_line_endings(input, 0), b"a\rb\rc\r");
}

#[test]
fn test_fix_line_endings_crlf() {
    let input = "a\rb\r\nc\n".as_bytes();
    assert_eq!(&fix_mixed_line_endings(input, 1), b"a\r\nb\r\nc\r\n");
}

#[test]
fn test_fix_line_endings_lf() {
    let input = "a\rb\r\nc\n".as_bytes();
    assert_eq!(&fix_mixed_line_endings(input, 2), b"a\nb\nc\n");
}

#[test]
fn parse_size_plain_and_suffixed() {
    assert_eq!(parse_size("512").unwrap(), 512);
    assert_eq!(parse_size("5k").unwrap(), 5 * 1024);
    assert_eq!(parse_size("2K").unwrap(), 2 * 1024);
    assert_eq!(parse_size("3m").unwrap(), 3 * 1024 * 1024);
    assert_eq!(parse_size("1G").unwrap(), 1024 * 1024 * 1024);
    assert_eq!(parse_size("1t").unwrap(), 1024u64 * 1024 * 1024 * 1024);
    assert!(parse_size("abc").is_err());
    assert!(parse_size("k").is_err());
}

#[test]
fn is_true_accepts_the_three_spellings() {
    assert!(is_true("true"));
    assert!(is_true("TRUE"));
    assert!(is_true("1"));
    assert!(is_true("on"));
    assert!(is_true("On"));
    assert!(!is_true("false"));
    assert!(!is_true("yes"));
    assert!(!is_true(""));
}

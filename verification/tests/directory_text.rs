use ringrelay::directory::{client_build_directory, split_lines, Directory};
use ringrelay::text::{format_u32, parse_u32};

#[test]
fn register_is_idempotent() {
    let mut d = Directory::new();
    assert_eq!(d.len(), 0);
    assert!(d.register(&"192.168.1.10".to_string()));
    assert!(d.register(&"192.168.1.11".to_string()));
    assert!(!d.register(&"192.168.1.10".to_string()));
    assert_eq!(d.len(), 2);
    assert!(d.contains(&"192.168.1.10".to_string()));
    assert!(!d.contains(&"192.168.1.12".to_string()));
}

#[test]
fn snapshot_excludes_the_requester_and_joins_lines() {
    let mut d = Directory::new();
    d.register(&"10.0.0.1".to_string());
    d.register(&"10.0.0.2".to_string());
    d.register(&"10.0.0.3".to_string());
    let text = d.snapshot_excluding(&"10.0.0.2".to_string());
    assert_eq!(text, "10.0.0.1\n10.0.0.3\n");
    let all = d.snapshot_excluding(&"somewhere else".to_string());
    assert_eq!(all, "10.0.0.1\n10.0.0.2\n10.0.0.3\n");
}

#[test]
fn split_lines_matches_the_snapshot_format() {
    let lines = split_lines(&"a\nbb\n".to_string());
    assert_eq!(lines, vec!["a".to_string(), "bb".to_string(), "".to_string()]);
    let lines = split_lines(&"".to_string());
    assert_eq!(lines, vec!["".to_string()]);
    let lines = split_lines(&"no newline".to_string());
    assert_eq!(lines, vec!["no newline".to_string()]);
}

// A client reading a directory answer skips blank lines and its own
// address, and attaches its peers' listening port.
#[test]
fn client_directory_round_trip() {
    let mut d = Directory::new();
    d.register(&"10.0.0.1".to_string());
    d.register(&"10.0.0.2".to_string());
    d.register(&"10.0.0.3".to_string());
    let text = d.snapshot_excluding(&"10.0.0.9".to_string());
    let peers = client_build_directory(&text, &"10.0.0.2".to_string(), ":5555");
    assert_eq!(peers, vec!["10.0.0.1:5555".to_string(), "10.0.0.3:5555".to_string()]);
}

#[test]
fn decimal_format_and_parse_round_trip() {
    for n in [0u32, 1, 9, 10, 305, 65535, 999_999_999] {
        let s = format_u32(n);
        assert_eq!(parse_u32(&s), Some(n));
    }
    assert_eq!(format_u32(0), "0");
    assert_eq!(format_u32(2026), "2026");
    assert_eq!(parse_u32(&"007".to_string()), Some(7));
}

#[test]
fn parse_rejects_what_is_not_a_short_decimal() {
    assert_eq!(parse_u32(&"".to_string()), None);
    assert_eq!(parse_u32(&"12a".to_string()), None);
    assert_eq!(parse_u32(&"-3".to_string()), None);
    assert_eq!(parse_u32(&" 3".to_string()), None);
    assert_eq!(parse_u32(&"1234567890".to_string()), None);
}

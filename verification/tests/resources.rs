use keel::resources::{parse_memory_bytes, parse_zfs_quota};

#[test]
fn parses_valid_memory_values() {
    assert_eq!(parse_memory_bytes("512M"), Ok(512 * 1024 * 1024));
    assert_eq!(parse_memory_bytes("1G"), Ok(1024 * 1024 * 1024));
    assert_eq!(parse_memory_bytes("2048K"), Ok(2048 * 1024));
    assert_eq!(parse_memory_bytes("100"), Ok(100));
}

#[test]
fn rejects_invalid_memory_values() {
    assert!(parse_memory_bytes("0M").is_err());
    assert!(parse_memory_bytes("").is_err());
    assert!(parse_memory_bytes("abc").is_err());
    assert!(parse_memory_bytes("-5M").is_err());
    assert!(parse_memory_bytes("999999999999G").is_err());
}

#[test]
fn parse_zfs_quota_accepts_the_same_grammar_as_memory() {
    assert_eq!(parse_zfs_quota("1G"), Ok(1024 * 1024 * 1024));
    assert_eq!(parse_zfs_quota("512M"), Ok(512 * 1024 * 1024));
}

#[test]
fn parse_zfs_quota_rejects_the_same_malformed_input_as_memory() {
    assert!(parse_zfs_quota("0G").is_err());
    assert!(parse_zfs_quota("abc").is_err());
}

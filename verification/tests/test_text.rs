use rust_mcp_filesystem::fs_service::utils::contains_symlink;
use rust_mcp_filesystem::fs_service::utils::expand_home;
use rust_mcp_filesystem::fs_service::utils::format_attributes;
use rust_mcp_filesystem::fs_service::utils::format_bytes;
use rust_mcp_filesystem::fs_service::utils::format_permissions;
use rust_mcp_filesystem::fs_service::utils::format_system_time;
use rust_mcp_filesystem::fs_service::utils::is_verbatim_disk;
use rust_mcp_filesystem::fs_service::utils::normalize_line_endings;
use rust_mcp_filesystem::fs_service::utils::normalize_path;
use std::io::Write;

fn write_named_file(dir: &std::path::Path, name: &str, content: &[u8]) -> tempfile::NamedTempFile {
    let file = tempfile::Builder::new()
        .prefix(name)
        .rand_bytes(0)
        .tempfile_in(dir)
        .unwrap();
    file.as_file().write_all(content).unwrap();
    file.as_file().sync_all().unwrap();
    file
}

#[test]
fn test_normalize_line_endings() {
    let input = "line1\r\nline2\r\nline3";
    let normalized = normalize_line_endings(input);
    assert_eq!(normalized, "line1\nline2\nline3");
}

#[test]
fn test_normalize_line_endings_lone_carriage_returns() {
    assert_eq!(normalize_line_endings("a\rb\r\nc\n"), "a\nb\nc\n");
    assert_eq!(normalize_line_endings(""), "");
}

#[test]
fn test_format_bytes() {
    assert_eq!(format_bytes(500), "500 bytes");
    assert_eq!(format_bytes(1024), "1.00 KB");
    assert_eq!(format_bytes(1500), "1.46 KB");
    assert_eq!(format_bytes(1024 * 1024), "1.00 MB");
    assert_eq!(format_bytes(1024 * 1024 * 1024), "1.00 GB");
    assert_eq!(format_bytes(1024 * 1024 * 1024 * 1024), "1.00 TB");
    assert_eq!(format_bytes(1500 * 1024 * 1024), "1.46 GB");
}

#[test]
fn test_expand_home() {
    let home = dirs::home_dir().map(|p| p.to_str().unwrap().to_string());
    let expanded = expand_home("~/test", &home);
    if let Some(h) = &home {
        assert_eq!(expanded, format!("{}/test", h));
    } else {
        assert_eq!(expanded, "~/test");
    }

    let expanded_regular = expand_home("/absolute/path", &home);
    assert_eq!(expanded_regular, "/absolute/path");

    let expanded_tilde_word = expand_home("~abc", &home);
    assert_eq!(expanded_tilde_word, "~abc");
}

#[test]
fn test_format_system_time() {
    let now = std::time::SystemTime::now();
    let formatted = format_system_time(now);
    assert!(formatted.contains("202"));
    assert!(formatted.contains(":"));
    assert!(formatted.contains("+") || formatted.contains("-"));
}

#[test]
fn test_format_permissions_octal() {
    assert_eq!(format_permissions(0o644), "0644");
    assert_eq!(format_permissions(0o100755), "0755");
    assert_eq!(format_permissions(0), "00");
}

#[test]
fn test_normalize_path() {
    let dir = tempfile::tempdir().unwrap();
    let file = write_named_file(dir.path(), "test.txt", b"content");
    let file_path = file.path().to_str().unwrap().to_string();

    let normalized = normalize_path(&file_path);
    let canonical_dir = dir.path().canonicalize().unwrap();
    let expected = canonical_dir.join("test.txt");
    assert_eq!(normalized, expected.to_str().unwrap());

    let dotted = format!("{}/./test.txt", dir.path().to_str().unwrap());
    assert_eq!(normalize_path(&dotted), expected.to_str().unwrap());

    let normalized_non_existent = normalize_path("/does/not/exist");
    assert_eq!(normalized_non_existent, "/does/not/exist");
}

#[test]
fn test_contains_symlink_no_symlink() {
    let dir = tempfile::tempdir().unwrap();
    let file = write_named_file(dir.path(), "test.txt", b"content");
    let result = contains_symlink(file.path().to_str().unwrap()).unwrap();
    assert!(!result);
}

#[test]
fn test_format_attributes() {
    assert_eq!(format_attributes(true, false), "-r");
    assert_eq!(format_attributes(false, false), "-w");
    assert_eq!(format_attributes(false, true), "dw");
    assert_eq!(format_attributes(true, true), "dr");
}

#[test]
fn test_is_verbatim_disk() {
    assert!(is_verbatim_disk("\\\\?\\C:"));
    assert!(is_verbatim_disk("\\\\?\\z:"));
    assert!(!is_verbatim_disk("\\\\?\\C:\\x"));
    assert!(!is_verbatim_disk("/usr"));
    assert!(!is_verbatim_disk(""));
}

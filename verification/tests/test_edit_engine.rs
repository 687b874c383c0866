use rust_mcp_filesystem::fs_service::edits::EditOperation;
use rust_mcp_filesystem::fs_service::edit_write_target;
use rust_mcp_filesystem::fs_service::FileSystemService;

fn service() -> FileSystemService {
    FileSystemService {
        allowed_path: vec![],
        cwd: "/".to_string(),
        home: None,
    }
}

fn edit(old_text: &str, new_text: &str) -> EditOperation {
    EditOperation {
        old_text: old_text.to_string(),
        new_text: new_text.to_string(),
    }
}

#[test]
fn test_create_unified_diff() {
    let svc = service();
    let original = "line1\nline2\nline3".to_string();
    let new = "line1\nline4\nline3".to_string();
    let diff = svc.create_unified_diff(&original, &new, Some("test.txt".to_string()));
    assert!(diff.contains("Index: test.txt"));
    assert!(diff.contains("--- test.txt\toriginal"));
    assert!(diff.contains("+++ test.txt\tmodified"));
    assert!(diff.contains("-line2"));
    assert!(diff.contains("+line4"));
}

#[test]
fn test_create_unified_diff_default_label() {
    let svc = service();
    let diff = svc.create_unified_diff("a\n", "b\n", None);
    assert!(diff.contains("Index: file"));
}

#[test]
fn test_apply_edits_exact_match() {
    let svc = service();
    let result = svc
        .apply_file_edits("hello world\n", &vec![edit("hello world", "hello universe")], "f.txt")
        .unwrap();
    assert_eq!(result.output_content, "hello universe\n");
    assert!(result.formatted_diff.contains("-hello world\n+hello universe"));
}

#[test]
fn test_apply_edits_exact_match_whole_line() {
    let svc = service();
    let result = svc
        .apply_file_edits("hello world\n", &vec![edit("hello world\n", "hello Rust\n")], "f.txt")
        .unwrap();
    assert_eq!(result.output_content, "hello Rust\n");
}

#[test]
fn test_apply_edits_first_occurrence_only() {
    let svc = service();
    let result = svc
        .apply_file_edits("aXbXc", &vec![edit("X", "Y")], "f.txt")
        .unwrap();
    assert_eq!(result.output_content, "aYbXc");
}

#[test]
fn test_apply_edits_exact_precedence_over_fuzzy() {
    // The literal old text occurs at the second line; an indented
    // fuzzy-compatible region occurs earlier.  The exact occurrence must
    // win, leaving the indented region untouched.
    let svc = service();
    let content = "    key = 1\nkey = 1\n";
    let result = svc
        .apply_file_edits(content, &vec![edit("key = 1\n", "key = 2\n")], "f.txt")
        .unwrap();
    assert_eq!(result.output_content, "    key = 2\nkey = 1\n");
}

#[test]
fn test_apply_edits_fuzzy_indentation() {
    // Base indentation of the first matched line is kept; later
    // replacement lines keep their relative indentation.
    let svc = service();
    let result = svc
        .apply_file_edits("\tfoo\n\tbar", &vec![edit("foo\nbar", "foo\nbaz")], "f.txt")
        .unwrap();
    assert_eq!(result.output_content, "\tfoo\n\tbaz");
}

#[test]
fn test_apply_edits_line_by_line_match_with_indent() {
    let svc = service();
    let result = svc
        .apply_file_edits(
            "    let x = 42;\n    println!(\"{}\");\n",
            &vec![edit("let x = 42;\nprintln!(\"{}\");\n", "let x = 43;\nprintln!(\"x = {}\", x)")],
            "test_file2.rs",
        )
        .unwrap();
    assert!(result.output_content.contains("let x = 43;"));
    assert!(result.output_content.contains("println!(\"x = {}\", x)"));
}

#[test]
fn test_apply_edits_mixed_indentation() {
    let svc = service();
    let content = "\n            // some descriptions\n\t\t\tconst categories = [\n\t\t\t\t{\n\t\t\t\t\ttitle: 'one',\n\t\t\t\t\tkeywords: ['a', 'b'],\n\t\t\t\t\ttasks: [] as any[]\n\t\t\t\t},\n\t\t\t];\n\t\t// some other descriptions\n        ";
    let old_text = "const categories = [\n\t\t\t\t{\n\t\t\t\t\ttitle: 'one',\n\t\t\t\t\t\tkeywords: ['a', 'b'],\n\t\t\t\t\ttasks: [] as any[]\n\t\t\t\t},\n\t\t\t];";
    let new_text = "const categories = [\n\t\t\t\t{\n\t\t\t\t\ttitle: 'one',\n\t\t\t\t\tdescription: 'two',\n\t\t\t\t\tkeywords: ['a', 'b'],\n\t\t\t\t\ttasks: [] as any[]\n\t\t\t\t},\n\t\t\t];";
    let result = svc.apply_file_edits(content, &vec![edit(old_text, new_text)], "f.txt");
    assert!(result.is_ok());
}

#[test]
fn test_apply_edits_mixed_indentation_under_indented_line() {
    let svc = service();
    let content = "\n            // some descriptions\n\t\t\tconst categories = [\n\t\t\t\t{\n\t\t\t\t\ttitle: 'one',\n\t\t\t\t\tkeywords: ['a', 'b'],\n\t\t\t\t\ttasks: [] as any[]\n\t\t\t\t},\n\t\t\t];\n\t\t// some other descriptions\n        ";
    let old_text = "const categories = [\n\t\t\t\t{\n\t\t\t\t\ttitle: 'one',\n\t\tkeywords: ['a', 'b'],\n\t\t\t\t\ttasks: [] as any[]\n\t\t\t\t},\n\t\t\t];";
    let new_text = "const categories = [\n\t\t\t\t{\n\t\t\t\t\ttitle: 'one',\n\t\t\t\t\tdescription: 'two',\n\t\t\t\t\tkeywords: ['a', 'b'],\n\t\t\t\t\ttasks: [] as any[]\n\t\t\t\t},\n\t\t\t];";
    let result = svc.apply_file_edits(content, &vec![edit(old_text, new_text)], "f.txt");
    assert!(result.is_ok());
}

#[test]
fn test_apply_edits_no_match() {
    let svc = service();
    let result = svc.apply_file_edits(
        "line1\nline2\nline3",
        &vec![edit("non_existent", "line4")],
        "test.txt",
    );
    match result {
        Err(rust_mcp_filesystem::error::ServiceError::NoMatch(m)) => {
            assert!(m.contains("Could not find exact match for edit:"));
            assert!(m.contains("non_existent"));
        }
        other => panic!("expected a no-match failure, got {:?}", other),
    }
}

#[test]
fn test_apply_edits_batch_in_order() {
    let svc = service();
    let result = svc
        .apply_file_edits(
            "line1\nline2\nline3",
            &vec![edit("line2", "line4"), edit("line4", "line5")],
            "test.txt",
        )
        .unwrap();
    assert_eq!(result.output_content, "line1\nline5\nline3");
    assert!(result.formatted_diff.contains("Index:"));
    assert!(result.formatted_diff.contains("-line2"));
}

#[test]
fn test_no_edits_provided() {
    let svc = service();
    let result = svc.apply_file_edits("enabled = true\n", &vec![], "f.toml").unwrap();
    assert_eq!(result.output_content, "enabled = true\n");
}

#[test]
fn test_preserve_windows_line_endings() {
    let svc = service();
    let result = svc
        .apply_file_edits(
            "line1\r\nline2\r\n",
            &vec![edit("line1\nline2", "updated1\nupdated2")],
            "test_file.txt",
        )
        .unwrap();
    assert_eq!(result.output_content, "updated1\r\nupdated2\r\n");
}

#[test]
fn test_preserve_unix_line_endings() {
    let svc = service();
    let result = svc
        .apply_file_edits(
            "line1\nline2\n",
            &vec![edit("line1\nline2", "updated1\nupdated2")],
            "unix_line_file.txt",
        )
        .unwrap();
    assert_eq!(result.output_content, "updated1\nupdated2\n");
}

#[test]
fn test_detect_line_ending() {
    let svc = service();
    assert_eq!(svc.detect_line_ending("a\r\nb"), "\r\n");
    assert_eq!(svc.detect_line_ending("a\rb"), "\r");
    assert_eq!(svc.detect_line_ending("a\nb"), "\n");
    assert_eq!(svc.detect_line_ending(""), "\n");
}

#[test]
fn test_diff_backtick_formatting() {
    let svc = service();
    let result = svc
        .apply_file_edits(
            "```\nhello\n```\n",
            &vec![edit("```\nhello\n```", "```\nworld\n```")],
            "test_file6.md",
        )
        .unwrap();
    let diff = result.formatted_diff;
    assert!(diff.contains("diff"));
    assert!(diff.starts_with("```"));
    // The diff body carries three-backquote runs, so the fence must use
    // at least four to avoid colliding with them.
    assert!(diff.starts_with("````"));
}

#[test]
fn test_edit_write_target() {
    let path = "/sandbox/file.txt".to_string();
    let save_to = Some("/sandbox/out.txt".to_string());
    assert_eq!(edit_write_target(&path, &save_to, true), None);
    assert_eq!(edit_write_target(&path, &None, true), None);
    assert_eq!(
        edit_write_target(&path, &save_to, false),
        Some("/sandbox/out.txt".to_string())
    );
    assert_eq!(
        edit_write_target(&path, &None, false),
        Some("/sandbox/file.txt".to_string())
    );
}

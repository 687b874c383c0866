use rust_mcp_filesystem::cli::CommandArguments;
use rust_mcp_filesystem::error::ServiceError;
use rust_mcp_filesystem::fs_service::archive::ensure_target_absent;
use rust_mcp_filesystem::fs_service::archive::plan_zip_entries;
use rust_mcp_filesystem::fs_service::archive::unzip_preconditions;
use rust_mcp_filesystem::fs_service::file_info::FileInfo;
use rust_mcp_filesystem::fs_service::search::select_matches;
use rust_mcp_filesystem::fs_service::search::WalkedEntry;
use rust_mcp_filesystem::fs_service::utils::format_system_time;
use rust_mcp_filesystem::fs_service::FileSystemService;
use rust_mcp_filesystem::handler::MyServerHandler;
use rust_mcp_filesystem::tools::combine_read_results;
use rust_mcp_filesystem::tools::format_allowed_directories;
use rust_mcp_filesystem::tools::format_directory_listing;
use rust_mcp_filesystem::tools::format_search_results;
use rust_mcp_filesystem::tools::DirListEntry;
use rust_mcp_filesystem::tools::FileReadOutcome;
use rust_mcp_filesystem::tools::FileSystemTools;
use rust_mcp_filesystem::tools::ListDirectoryTool;
use rust_mcp_filesystem::tools::ReadFileTool;
use rust_mcp_filesystem::tools::WriteFileTool;
use rust_mcp_filesystem::tools::ZipDirectoryTool;
use std::io::Write;

fn write_named_file(dir: &std::path::Path, name: &str, content: &[u8]) -> tempfile::NamedTempFile {
    let file = tempfile::Builder::new()
        .prefix(name)
        .rand_bytes(0)
        .tempfile_in(dir)
        .unwrap();
    file.as_file().write_all(content).unwrap();
    file.as_file().sync_all().unwrap();
    file
}

fn named_subdir(dir: &std::path::Path, name: &str) -> tempfile::TempDir {
    tempfile::Builder::new()
        .prefix(name)
        .rand_bytes(0)
        .tempdir_in(dir)
        .unwrap()
}

fn path_str(p: &std::path::Path) -> String {
    p.to_str().unwrap().to_string()
}

fn setup_service(root: &std::path::Path) -> FileSystemService {
    FileSystemService::try_new(&vec![path_str(root)], "/".to_string()).unwrap()
}

#[test]
fn test_try_new_success() {
    let temp_dir = tempfile::tempdir().unwrap();
    let dir_path = path_str(temp_dir.path());
    let result = FileSystemService::try_new(&vec![dir_path.clone()], "/".to_string());
    assert!(result.is_ok());
    let service = result.unwrap();
    assert_eq!(service.allowed_directories(), &vec![dir_path]);
}

#[test]
fn test_try_new_invalid_directory() {
    let result = FileSystemService::try_new(&vec!["/does/not/exist".to_string()], "/".to_string());
    match result {
        Err(ServiceError::FromString(m)) => {
            assert_eq!(m, "Error: /does/not/exist is not a directory");
        }
        other => panic!("expected a configuration error, got {:?}", other),
    }
}

#[test]
fn test_allowed_directories() {
    let temp_dir = tempfile::tempdir().unwrap();
    let dir1 = named_subdir(temp_dir.path(), "dir1");
    let service = setup_service(dir1.path());
    let allowed = service.allowed_directories();
    assert_eq!(allowed.len(), 1);
    assert_eq!(allowed[0], path_str(dir1.path()));
}

#[test]
fn test_validate_path_allowed() {
    let temp_dir = tempfile::tempdir().unwrap();
    let dir1 = named_subdir(temp_dir.path(), "dir1");
    let service = setup_service(dir1.path());
    let file = write_named_file(dir1.path(), "test.txt", b"content");
    let file_path = path_str(file.path());
    let result = service.validate_path(&file_path);
    assert!(result.is_ok());
    assert_eq!(result.unwrap(), file_path);
}

#[test]
fn test_validate_path_denied() {
    let temp_dir = tempfile::tempdir().unwrap();
    let dir1 = named_subdir(temp_dir.path(), "dir1");
    let dir2 = named_subdir(temp_dir.path(), "dir2");
    let service = setup_service(dir1.path());
    let outside = format!("{}/test.txt", path_str(dir2.path()));
    let result = service.validate_path(&outside);
    match result {
        Err(ServiceError::FromString(m)) => {
            assert!(m.contains("Access denied"));
            assert!(m.contains("is outside allowed directories"));
        }
        other => panic!("expected an access denial, got {:?}", other),
    }
}

#[test]
fn test_search_files() {
    let temp_dir = tempfile::tempdir().unwrap();
    let dir1 = named_subdir(temp_dir.path(), "dir1");
    let service = setup_service(dir1.path());
    let _f1 = write_named_file(dir1.path(), "test1.txt", b"content");
    let _f2 = write_named_file(dir1.path(), "test2.doc", b"content");
    let result = service
        .search_files(&path_str(dir1.path()), "*.txt".to_string(), vec![])
        .unwrap();
    let names: Vec<String> = result
        .iter()
        .map(|p| p.rsplit('/').next().unwrap().to_string())
        .collect();
    assert_eq!(names, vec!["test1.txt"]);
}

#[test]
fn test_search_files_with_exclude() {
    let temp_dir = tempfile::tempdir().unwrap();
    let dir1 = named_subdir(temp_dir.path(), "dir1");
    let service = setup_service(dir1.path());
    let _f1 = write_named_file(dir1.path(), "test1.txt", b"content");
    let _f2 = write_named_file(dir1.path(), "test2.txt", b"content");
    let result = service
        .search_files(
            &path_str(dir1.path()),
            "*.txt".to_string(),
            vec!["test2.txt".to_string()],
        )
        .unwrap();
    let names: Vec<String> = result
        .iter()
        .map(|p| p.rsplit('/').next().unwrap().to_string())
        .collect();
    assert_eq!(names, vec!["test1.txt"]);
}

#[test]
fn test_search_files_case_insensitive() {
    let temp_dir = tempfile::tempdir().unwrap();
    let dir1 = named_subdir(temp_dir.path(), "dir1");
    let service = setup_service(dir1.path());
    let _f1 = write_named_file(dir1.path(), "report.txt", b"content");
    let result = service
        .search_files(&path_str(dir1.path()), "*.TXT".to_string(), vec![])
        .unwrap();
    assert_eq!(result.len(), 1);
}

#[test]
fn test_search_files_substring_pattern() {
    let temp_dir = tempfile::tempdir().unwrap();
    let dir1 = named_subdir(temp_dir.path(), "dir1");
    let service = setup_service(dir1.path());
    let _f1 = write_named_file(dir1.path(), "report.txt", b"content");
    let _f2 = write_named_file(dir1.path(), "other.doc", b"content");
    let result = service
        .search_files(&path_str(dir1.path()), "port".to_string(), vec![])
        .unwrap();
    let names: Vec<String> = result
        .iter()
        .map(|p| p.rsplit('/').next().unwrap().to_string())
        .collect();
    assert_eq!(names, vec!["report.txt"]);
}

#[test]
fn test_search_files_prunes_excluded_subtrees() {
    // The exclude pattern matches the subdirectory but not the file's
    // own relative path, so the file disappears only because its parent
    // was pruned from the walk.
    let temp_dir = tempfile::tempdir().unwrap();
    let dir1 = named_subdir(temp_dir.path(), "dir1");
    let service = setup_service(dir1.path());
    let sub = named_subdir(dir1.path(), "sub");
    let _inner = write_named_file(sub.path(), "inner.txt", b"content");
    let result = service
        .search_files(
            &path_str(dir1.path()),
            "*.txt".to_string(),
            vec!["*b".to_string()],
        )
        .unwrap();
    assert!(result.is_empty());
}

#[test]
fn test_select_matches_drops_invalid_entries() {
    let entries = vec![
        WalkedEntry {
            path: "/root/a.txt".to_string(),
            file_name: "a.txt".to_string(),
            is_dir: false,
        },
        WalkedEntry {
            path: "/root/b.txt".to_string(),
            file_name: "b.txt".to_string(),
            is_dir: false,
        },
    ];
    let valid = vec![true, false];
    let result = select_matches("/root", "*.txt", &vec![], &entries, &valid);
    assert_eq!(result, vec!["/root/a.txt".to_string()]);
}

#[test]
fn test_zip_files_plan() {
    let temp_dir = tempfile::tempdir().unwrap();
    let dir1 = named_subdir(temp_dir.path(), "dir1");
    let service = setup_service(dir1.path());
    let f1 = write_named_file(dir1.path(), "file1.txt", b"content1");
    let f2 = write_named_file(dir1.path(), "file2.txt", b"content2");
    let target = format!("{}/output.zip", path_str(dir1.path()));
    let plan = service
        .zip_files(&vec![path_str(f1.path()), path_str(f2.path())], &target)
        .unwrap();
    assert_eq!(plan.target, target);
    assert_eq!(plan.entries.len(), 2);
    assert_eq!(plan.entries[0].archive_name, "file1.txt");
    assert_eq!(plan.entries[0].source_path, path_str(f1.path()));
    assert_eq!(plan.entries[1].archive_name, "file2.txt");
}

#[test]
fn test_zip_files_empty_input() {
    let temp_dir = tempfile::tempdir().unwrap();
    let dir1 = named_subdir(temp_dir.path(), "dir1");
    let service = setup_service(dir1.path());
    let target = format!("{}/output.zip", path_str(dir1.path()));
    let result = service.zip_files(&vec![], &target);
    match result {
        Err(ServiceError::InvalidInput(m)) => {
            assert_eq!(m, "No file(s) to zip. The input files array is empty.");
        }
        other => panic!("expected an invalid-input failure, got {:?}", other),
    }
}

#[test]
fn test_zip_files_existing_target() {
    let temp_dir = tempfile::tempdir().unwrap();
    let dir1 = named_subdir(temp_dir.path(), "dir1");
    let service = setup_service(dir1.path());
    let f1 = write_named_file(dir1.path(), "file1.txt", b"content1");
    let existing = write_named_file(dir1.path(), "output.zip", b"dummy");
    let result = service.zip_files(&vec![path_str(f1.path())], &path_str(existing.path()));
    match result {
        Err(ServiceError::AlreadyExists(m)) => {
            assert!(m.contains("output.zip"));
            assert!(m.contains("already exists!"));
        }
        other => panic!("expected an already-exists failure, got {:?}", other),
    }
}

#[test]
fn test_zip_directory_plan() {
    let temp_dir = tempfile::tempdir().unwrap();
    let dir1 = named_subdir(temp_dir.path(), "dir1");
    let service = setup_service(dir1.path());
    let _f1 = write_named_file(dir1.path(), "file1.txt", b"content1");
    let _f2 = write_named_file(dir1.path(), "file2.txt", b"content2");
    let _f3 = write_named_file(dir1.path(), "file3.doc", b"other");
    let target = format!("{}/output.zip", path_str(dir1.path()));
    let plan = service
        .zip_directory(&path_str(dir1.path()), "*.txt", &target)
        .unwrap();
    assert_eq!(plan.target, target);
    let mut names: Vec<String> = plan.entries.iter().map(|e| e.archive_name.clone()).collect();
    names.sort();
    assert_eq!(names, vec!["file1.txt", "file2.txt"]);
}

#[test]
fn test_zip_directory_case_insensitive_pattern() {
    let temp_dir = tempfile::tempdir().unwrap();
    let dir1 = named_subdir(temp_dir.path(), "dir1");
    let service = setup_service(dir1.path());
    let _f1 = write_named_file(dir1.path(), "README.md", b"hello");
    let target = format!("{}/output.zip", path_str(dir1.path()));
    let plan = service
        .zip_directory(&path_str(dir1.path()), "Readme", &target)
        .unwrap();
    let names: Vec<String> = plan.entries.iter().map(|e| e.archive_name.clone()).collect();
    assert_eq!(names, vec!["README.md"]);
}

#[test]
fn test_plan_zip_entries_rejects_escaping_name() {
    let entries = vec![WalkedEntry {
        path: "/root/..".to_string(),
        file_name: "..".to_string(),
        is_dir: false,
    }];
    let valids = vec![Some("/root/..".to_string())];
    let result = plan_zip_entries(
        &"/root".to_string(),
        &"*".to_string(),
        &entries,
        &valids,
    );
    assert!(matches!(result, Err(ServiceError::InvalidInput(_))));
}

#[test]
fn test_unzip_preconditions() {
    assert!(unzip_preconditions(true, "dest", false).is_ok());
    match unzip_preconditions(false, "dest", false) {
        Err(ServiceError::NotFound(m)) => assert_eq!(m, "Zip file does not exists."),
        other => panic!("expected a not-found failure, got {:?}", other),
    }
    match unzip_preconditions(true, "dest", true) {
        Err(ServiceError::AlreadyExists(m)) => {
            assert_eq!(m, "'dest' directory already exists!");
        }
        other => panic!("expected an already-exists failure, got {:?}", other),
    }
    match unzip_preconditions(false, "dest", true) {
        Err(ServiceError::NotFound(_)) => {}
        other => panic!("expected the archive check first, got {:?}", other),
    }
}

#[test]
fn test_zip_directory_already_exists() {
    let temp_dir = tempfile::tempdir().unwrap();
    let dir1 = named_subdir(temp_dir.path(), "dir1");
    let service = setup_service(dir1.path());
    let existing = write_named_file(dir1.path(), "output.zip", b"dummy");
    let result = service.zip_directory(&path_str(dir1.path()), "*.txt", &path_str(existing.path()));
    assert!(matches!(result, Err(ServiceError::AlreadyExists(_))));
    // The planner never writes: the existing file is untouched.
    let metadata = existing.path().metadata().unwrap();
    assert_eq!(metadata.len(), 5);
}

#[test]
fn test_zip_directory_invalid_pattern() {
    let temp_dir = tempfile::tempdir().unwrap();
    let dir1 = named_subdir(temp_dir.path(), "dir1");
    let service = setup_service(dir1.path());
    let target = format!("{}/output.zip", path_str(dir1.path()));
    let result = service.zip_directory(&path_str(dir1.path()), "a[*", &target);
    assert!(matches!(result, Err(ServiceError::Pattern(_))));
}

#[test]
fn test_ensure_target_absent() {
    assert!(ensure_target_absent("out.zip", false).is_ok());
    match ensure_target_absent("out.zip", true) {
        Err(ServiceError::AlreadyExists(m)) => {
            assert_eq!(m, "'out.zip' already exists!");
        }
        other => panic!("expected an already-exists failure, got {:?}", other),
    }
}

#[test]
fn test_unzip_file_plan() {
    let temp_dir = tempfile::tempdir().unwrap();
    let dir1 = named_subdir(temp_dir.path(), "dir1");
    let service = setup_service(dir1.path());
    let zip = write_named_file(dir1.path(), "output.zip", b"zipbytes");
    let extract_dir = format!("{}/extracted", path_str(dir1.path()));
    let plan = service.unzip_file(&path_str(zip.path()), &extract_dir).unwrap();
    assert_eq!(plan.zip_path, path_str(zip.path()));
    assert_eq!(plan.target_dir, extract_dir);
}

#[test]
fn test_unzip_file_non_existent() {
    let temp_dir = tempfile::tempdir().unwrap();
    let dir1 = named_subdir(temp_dir.path(), "dir1");
    let service = setup_service(dir1.path());
    let zip_path = format!("{}/non_existent.zip", path_str(dir1.path()));
    let extract_dir = format!("{}/extracted", path_str(dir1.path()));
    let result = service.unzip_file(&zip_path, &extract_dir);
    assert!(matches!(result, Err(ServiceError::NotFound(_))));
}

#[test]
fn test_unzip_file_existing_target() {
    let temp_dir = tempfile::tempdir().unwrap();
    let dir1 = named_subdir(temp_dir.path(), "dir1");
    let service = setup_service(dir1.path());
    let zip = write_named_file(dir1.path(), "output.zip", b"zipbytes");
    let existing = named_subdir(dir1.path(), "extracted");
    let result = service.unzip_file(&path_str(zip.path()), &path_str(existing.path()));
    assert!(matches!(result, Err(ServiceError::AlreadyExists(_))));
}

#[test]
fn test_file_info_for_regular_file() {
    let temp_dir = tempfile::tempdir().unwrap();
    let file = write_named_file(temp_dir.path(), "blob.bin", b"Hello, world!");
    let md = file.as_file().metadata().unwrap();
    let info = FileInfo {
        size: md.len(),
        created: md.created().ok().map(format_system_time),
        modified: md.modified().ok().map(format_system_time),
        accessed: md.accessed().ok().map(format_system_time),
        is_directory: md.is_dir(),
        is_file: md.is_file(),
        permissions: String::new(),
    };
    assert_eq!(info.size, 13);
    assert!(info.is_file);
    assert!(!info.is_directory);
    assert!(info.created.is_some());
    assert!(info.modified.is_some());
    assert!(info.accessed.is_some());
}

#[test]
fn test_file_info_for_directory() {
    let temp_dir = tempfile::tempdir().unwrap();
    let md = temp_dir.path().metadata().unwrap();
    let info = FileInfo {
        size: md.len(),
        created: md.created().ok().map(format_system_time),
        modified: md.modified().ok().map(format_system_time),
        accessed: md.accessed().ok().map(format_system_time),
        is_directory: md.is_dir(),
        is_file: md.is_file(),
        permissions: String::new(),
    };
    assert!(info.is_directory);
    assert!(!info.is_file);
    assert!(info.created.is_some());
    assert!(info.modified.is_some());
    assert!(info.accessed.is_some());
}

#[test]
fn test_display_format_for_file() {
    let temp_dir = tempfile::tempdir().unwrap();
    let file = write_named_file(temp_dir.path(), "blob.bin", b"Test content");
    let md = file.as_file().metadata().unwrap();
    let info = FileInfo {
        size: md.len(),
        created: md.created().ok().map(format_system_time),
        modified: md.modified().ok().map(format_system_time),
        accessed: md.accessed().ok().map(format_system_time),
        is_directory: md.is_dir(),
        is_file: md.is_file(),
        permissions: "0644".to_string(),
    };
    let display_output = info.format_text();
    assert!(display_output.contains("size: 12"));
    assert!(display_output.contains("isDirectory: false"));
    assert!(display_output.contains("isFile: true"));
    assert!(display_output.contains("created:"));
    assert!(display_output.contains("modified:"));
    assert!(display_output.contains("accessed:"));
    assert!(display_output.contains("permissions:"));
}

#[test]
fn test_display_format_for_empty_timestamps() {
    let info = FileInfo {
        size: 123,
        created: None,
        modified: None,
        accessed: None,
        is_directory: false,
        is_file: true,
        permissions: String::new(),
    };
    let display_output = info.format_text();
    assert!(display_output.contains("size: 123"));
    assert!(display_output.contains("created: \n"));
    assert!(display_output.contains("modified: \n"));
    assert!(display_output.contains("accessed: \n"));
    assert!(display_output.contains("isDirectory: false"));
    assert!(display_output.contains("isFile: true"));
}

#[test]
fn test_handler_write_access() {
    let temp_dir = tempfile::tempdir().unwrap();
    let args = CommandArguments {
        allow_write: false,
        allowed_directories: vec![path_str(temp_dir.path())],
    };
    let handler = MyServerHandler::new(&args, "/".to_string()).unwrap();
    assert!(matches!(
        handler.assert_write_access(),
        Err(ServiceError::NoWriteAccess)
    ));
    let message = handler.startup_message();
    assert!(message.contains("\"readonly\" mode"));
    assert!(message.contains(&path_str(temp_dir.path())));

    let args_rw = CommandArguments {
        allow_write: true,
        allowed_directories: vec![path_str(temp_dir.path())],
    };
    let handler_rw = MyServerHandler::new(&args_rw, "/".to_string()).unwrap();
    assert!(handler_rw.assert_write_access().is_ok());
    assert!(handler_rw.startup_message().contains("\"read/write\" mode"));
}

#[test]
fn test_require_write_access() {
    let write_tool = FileSystemTools::WriteFileTool(WriteFileTool {
        path: "/a".to_string(),
        content: "x".to_string(),
    });
    assert!(write_tool.require_write_access());
    let zip_tool = FileSystemTools::ZipDirectoryTool(ZipDirectoryTool {
        input_directory: "/a".to_string(),
        pattern: None,
        target_zip_file: "/a/o.zip".to_string(),
    });
    assert!(zip_tool.require_write_access());
    let read_tool = FileSystemTools::ReadFileTool(ReadFileTool { path: "/a".to_string() });
    assert!(!read_tool.require_write_access());
    let list_tool = FileSystemTools::ListDirectoryTool(ListDirectoryTool {
        path: "/a".to_string(),
    });
    assert!(!list_tool.require_write_access());
}

#[test]
fn test_combine_read_results() {
    let items = vec![
        FileReadOutcome {
            path: "/a/one.txt".to_string(),
            content: Ok("alpha".to_string()),
        },
        FileReadOutcome {
            path: "/a/two.txt".to_string(),
            content: Err("denied".to_string()),
        },
    ];
    let combined = combine_read_results(&items);
    assert_eq!(combined, "/a/one.txt:\nalpha\n\n---\n/a/two.txt: Error - denied");
}

#[test]
fn test_format_directory_listing() {
    let entries = vec![
        DirListEntry { name: "sub".to_string(), is_dir: true },
        DirListEntry { name: "a.txt".to_string(), is_dir: false },
    ];
    assert_eq!(format_directory_listing(&entries), "[DIR] sub\n[FILE] a.txt");
    assert_eq!(format_directory_listing(&vec![]), "");
}

#[test]
fn test_format_allowed_directories() {
    let roots = vec!["/srv/a".to_string(), "/srv/b".to_string()];
    assert_eq!(
        format_allowed_directories(&roots),
        "Allowed directories:\n/srv/a\n/srv/b"
    );
}

#[test]
fn test_format_search_results() {
    assert_eq!(format_search_results(&vec![]), "No matches found");
    assert_eq!(
        format_search_results(&vec!["/a/x".to_string(), "/a/y".to_string()]),
        "/a/x\n/a/y"
    );
}

#[test]
fn test_error_messages() {
    assert!(ServiceError::NoWriteAccess
        .message()
        .contains("read-only mode"));
    assert_eq!(
        ServiceError::NotFound("missing".to_string()).message(),
        "missing"
    );
}

//! The closed set of tool requests the service answers, the read-only
//! gate that classifies them, and the pure text shaping of tool results.

pub use crate::fs_service::edits::EditOperation;

use crate::text::{join_strings, join_with, str_views};
use vstd::prelude::*;
use vstd::string::*;

verus! {

/// Reads the entire content of a single text file.
#[derive(Debug)]
pub struct ReadFileTool {
    pub path: String,
}

/// Reads several files at once, collecting the outcomes per file.
#[derive(Debug)]
pub struct ReadMultipleFilesTool {
    pub paths: Vec<String>,
}

/// Writes new content to a file, creating or overwriting it.
#[derive(Debug)]
pub struct WriteFileTool {
    pub path: String,
    pub content: String,
}

/// Applies a batch of text replacements to a file.
#[derive(Debug)]
pub struct EditFileTool {
    pub path: String,
    pub edits: Vec<EditOperation>,
    pub dry_run: Option<bool>,
}

/// Creates a directory, including missing parents.
#[derive(Debug)]
pub struct CreateDirectoryTool {
    pub path: String,
}

/// Lists the entries directly within a directory.
#[derive(Debug)]
pub struct ListDirectoryTool {
    pub path: String,
}

/// Reports a directory's recursive structure as name and kind records.
#[derive(Debug)]
pub struct DirectoryTreeTool {
    pub path: String,
}

/// Moves or renames a file or directory.
#[derive(Debug)]
pub struct MoveFileTool {
    pub source: String,
    pub destination: String,
}

/// Searches a directory tree for entries matching a glob pattern.
#[derive(Debug)]
pub struct SearchFilesTool {
    pub path: String,
    pub pattern: String,
    pub exclude_patterns: Option<Vec<String>>,
}

/// Retrieves the metadata of a file or directory.
#[derive(Debug)]
pub struct GetFileInfoTool {
    pub path: String,
}

/// Reports the directories the service is allowed to touch.
#[derive(Debug)]
pub struct ListAllowedDirectoriesTool {}

/// Creates a zip archive from a list of files.
#[derive(Debug)]
pub struct ZipFilesTool {
    pub input_files: Vec<String>,
    pub target_zip_file: String,
}

/// Extracts a zip archive into a fresh directory.
#[derive(Debug)]
pub struct UnzipFileTool {
    pub zip_file: String,
    pub target_path: String,
}

/// Creates a zip archive from a directory tree, filtered by a pattern.
#[derive(Debug)]
pub struct ZipDirectoryTool {
    pub input_directory: String,
    pub pattern: Option<String>,
    pub target_zip_file: String,
}

/// Every request the service answers, as a closed set of variants.
#[derive(Debug)]
pub enum FileSystemTools {
    ReadFileTool(ReadFileTool),
    CreateDirectoryTool(CreateDirectoryTool),
    DirectoryTreeTool(DirectoryTreeTool),
    EditFileTool(EditFileTool),
    GetFileInfoTool(GetFileInfoTool),
    ListAllowedDirectoriesTool(ListAllowedDirectoriesTool),
    ListDirectoryTool(ListDirectoryTool),
    MoveFileTool(MoveFileTool),
    ReadMultipleFilesTool(ReadMultipleFilesTool),
    SearchFilesTool(SearchFilesTool),
    WriteFileTool(WriteFileTool),
    ZipFilesTool(ZipFilesTool),
    UnzipFileTool(UnzipFileTool),
    ZipDirectoryTool(ZipDirectoryTool),
}

/// Whether a request modifies the filesystem: writing, editing, creating
/// a directory, moving, and the three archive operations do; the read
/// and query operations do not.
pub open spec fn spec_requires_write(t: &FileSystemTools) -> bool {
    match t {
        FileSystemTools::CreateDirectoryTool(_) => true,
        FileSystemTools::MoveFileTool(_) => true,
        FileSystemTools::WriteFileTool(_) => true,
        FileSystemTools::EditFileTool(_) => true,
        FileSystemTools::ZipFilesTool(_) => true,
        FileSystemTools::UnzipFileTool(_) => true,
        FileSystemTools::ZipDirectoryTool(_) => true,
        FileSystemTools::ReadFileTool(_) => false,
        FileSystemTools::DirectoryTreeTool(_) => false,
        FileSystemTools::GetFileInfoTool(_) => false,
        FileSystemTools::ListAllowedDirectoriesTool(_) => false,
        FileSystemTools::ListDirectoryTool(_) => false,
        FileSystemTools::ReadMultipleFilesTool(_) => false,
        FileSystemTools::SearchFilesTool(_) => false,
    }
}

impl FileSystemTools {
    /// Whether this request needs write access to the filesystem.
    pub fn require_write_access(&self) -> (r: bool)
        ensures
            r == spec_requires_write(self),
    {
        match self {
            FileSystemTools::CreateDirectoryTool(_) => true,
            FileSystemTools::MoveFileTool(_) => true,
            FileSystemTools::WriteFileTool(_) => true,
            FileSystemTools::EditFileTool(_) => true,
            FileSystemTools::ZipFilesTool(_) => true,
            FileSystemTools::UnzipFileTool(_) => true,
            FileSystemTools::ZipDirectoryTool(_) => true,
            FileSystemTools::ReadFileTool(_) => false,
            FileSystemTools::DirectoryTreeTool(_) => false,
            FileSystemTools::GetFileInfoTool(_) => false,
            FileSystemTools::ListAllowedDirectoriesTool(_) => false,
            FileSystemTools::ListDirectoryTool(_) => false,
            FileSystemTools::ReadMultipleFilesTool(_) => false,
            FileSystemTools::SearchFilesTool(_) => false,
        }
    }
}

/// The outcome of reading one file in a multi-file read: the requested
/// path and either its content or the failure's description.
#[derive(Debug)]
pub struct FileReadOutcome {
    pub path: String,
    pub content: Result<String, String>,
}

/// The block a multi-file read reports for one file: the path and its
/// content, or the path and the error inline.
pub open spec fn spec_read_block(o: &FileReadOutcome) -> Seq<char> {
    match o.content {
        Ok(c) => o.path@ + ":\n"@ + c@ + "\n"@,
        Err(e) => o.path@ + ": Error - "@ + e@,
    }
}

/// The blocks of all per-file outcomes, in order.
pub open spec fn spec_read_blocks(items: Seq<FileReadOutcome>) -> Seq<Seq<char>> {
    Seq::new(items.len(), |k: int| spec_read_block(&items[k]))
}

/// Combines per-file read outcomes into the report of a multi-file read:
/// one block per file, errors inlined in their file's slot, blocks
/// separated by a divider line.
pub fn combine_read_results(items: &Vec<FileReadOutcome>) -> (r: String)
    ensures
        r@ == join_with(spec_read_blocks(items@), "\n---\n"@),
{
    let n = items.len();
    let mut blocks: Vec<String> = Vec::new();
    let mut i: usize = 0;
    while i < n
        invariant
            i <= n,
            n == items@.len(),
            blocks@.len() == i,
            forall|k: int|
                0 <= k < i ==> (#[trigger] blocks@[k])@ == spec_read_block(&items@[k]),
        decreases n - i,
    {
        let item = &items[i];
        let mut block = item.path.clone();
        match &item.content {
            Ok(c) => {
                block.append(":\n");
                block.append(c.as_str());
                block.append("\n");
            },
            Err(e) => {
                block.append(": Error - ");
                block.append(e.as_str());
            },
        }
        blocks.push(block);
        i += 1;
    }
    proof {
        assert(str_views(blocks@) =~= spec_read_blocks(items@));
    }
    join_strings(&blocks, "\n---\n")
}

/// One directory entry as listed: its base name and whether it is a
/// directory.
#[derive(Debug)]
pub struct DirListEntry {
    pub name: String,
    pub is_dir: bool,
}

/// The line a directory listing prints for one entry.
pub open spec fn spec_listing_line(e: &DirListEntry) -> Seq<char> {
    (if e.is_dir {
        "[DIR]"@
    } else {
        "[FILE]"@
    }) + " "@ + e.name@
}

/// The lines of all listed entries, in order.
pub open spec fn spec_listing_lines(entries: Seq<DirListEntry>) -> Seq<Seq<char>> {
    Seq::new(entries.len(), |k: int| spec_listing_line(&entries[k]))
}

/// Formats a directory listing: one line per entry, each prefixed with
/// its kind marker.
pub fn format_directory_listing(entries: &Vec<DirListEntry>) -> (r: String)
    ensures
        r@ == join_with(spec_listing_lines(entries@), "\n"@),
{
    let n = entries.len();
    let mut lines: Vec<String> = Vec::new();
    let mut i: usize = 0;
    while i < n
        invariant
            i <= n,
            n == entries@.len(),
            lines@.len() == i,
            forall|k: int|
                0 <= k < i ==> (#[trigger] lines@[k])@ == spec_listing_line(&entries@[k]),
        decreases n - i,
    {
        let entry = &entries[i];
        let mut line = String::from_str(
            if entry.is_dir {
                "[DIR]"
            } else {
                "[FILE]"
            },
        );
        line.append(" ");
        line.append(entry.name.as_str());
        lines.push(line);
        i += 1;
    }
    proof {
        assert(str_views(lines@) =~= spec_listing_lines(entries@));
    }
    join_strings(&lines, "\n")
}

/// The report of the allowed directories, one per line under a heading.
pub open spec fn spec_allowed_directories_report(roots: Seq<Seq<char>>) -> Seq<char> {
    "Allowed directories:\n"@ + join_with(roots, "\n"@)
}

/// Formats the report of the allowed directories.
pub fn format_allowed_directories(roots: &Vec<String>) -> (r: String)
    ensures
        r@ == spec_allowed_directories_report(str_views(roots@)),
{
    let mut out = String::from_str("Allowed directories:\n");
    let joined = join_strings(roots, "\n");
    out.append(joined.as_str());
    out
}

/// The report of a search: the matches one per line, or a fixed marker
/// when nothing matched.
pub open spec fn spec_search_report(matches_found: Seq<Seq<char>>) -> Seq<char> {
    if matches_found.len() == 0 {
        "No matches found"@
    } else {
        join_with(matches_found, "\n"@)
    }
}

/// Formats the report of a search.
pub fn format_search_results(matches_found: &Vec<String>) -> (r: String)
    ensures
        r@ == spec_search_report(str_views(matches_found@)),
{
    if matches_found.len() == 0 {
        String::from_str("No matches found")
    } else {
        join_strings(matches_found, "\n")
    }
}

} // verus!

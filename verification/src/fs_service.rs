//! The filesystem service: a set of operations over a fixed family of
//! allowed directories, each gated by path containment validation.

pub mod archive;
pub mod edits;
pub mod file_info;
pub mod search;
pub mod utils;

use crate::error::ServiceError;
use crate::fs_service::edits::{apply_edit_batch, apply_edits_from, no_match_prefix, EditOperation};
use crate::fs_service::utils::{
    contains_symlink, expand_home, home_dir_string, norm_newlines, normalize_line_endings,
    normalize_newline_chars, normalize_path, opt_view, path_is_dir, restore_line_endings,
    scan_crlf, spec_expand_home, spec_line_ending, spec_restore,
};
use crate::text::{
    chars_to_string, contains_char, contains_seq, is_prefix, join_strings, join_with, match_at,
    occurs, repeat, repeat_char, starts_with_chars, str_to_chars, str_views,
};
use vstd::prelude::*;
use vstd::string::*;

verus! {

/// Owns the configured allowed directories together with the ambient
/// process context (working directory and home directory) captured at
/// construction time.  The directory set is fixed for the service's
/// lifetime; every operation resolves its paths against it.
#[derive(Debug)]
pub struct FileSystemService {
    pub allowed_path: Vec<String>,
    pub cwd: String,
    pub home: Option<String>,
}

/// Whether `p` is written as an absolute path.
pub open spec fn is_absolute_path(p: Seq<char>) -> bool {
    p.len() >= 1 && p[0] == '/'
}

/// `base` and `rel` joined with a single separator between them.
pub open spec fn spec_join_path(base: Seq<char>, rel: Seq<char>) -> Seq<char> {
    if base.len() >= 1 && base[base.len() - 1] == '/' {
        base + rel
    } else {
        base + seq!['/'] + rel
    }
}

/// Whether candidate path `c` lies under some allowed root, in either its
/// configured or its filesystem-resolved form: some root is a prefix of
/// the candidate's text.
pub open spec fn spec_within(c: Seq<char>, roots: Seq<Seq<char>>, resolved: Seq<Seq<char>>) -> bool {
    exists|i: int|
        0 <= i < roots.len() && (is_prefix(#[trigger] roots[i], c) || (i < resolved.len()
            && is_prefix(resolved[i], c)))
}

/// No path can lie within the roots when no root, configured or
/// resolved, is a prefix of it.
pub proof fn lemma_outside_roots_rejected(
    c: Seq<char>,
    roots: Seq<Seq<char>>,
    resolved: Seq<Seq<char>>,
)
    requires
        forall|i: int| 0 <= i < roots.len() ==> !is_prefix(#[trigger] roots[i], c),
        forall|i: int| 0 <= i < resolved.len() ==> !is_prefix(#[trigger] resolved[i], c),
    ensures
        !spec_within(c, roots, resolved),
{
}

/// The text of the rejection raised for a path outside the roots: it
/// names the offending path, every allowed directory, and whether the
/// rejection traces to a symbolic link rather than the path itself.
pub open spec fn spec_denial_message(
    abs: Seq<char>,
    roots: Seq<Seq<char>>,
    symlink: bool,
) -> Seq<char> {
    "Access denied - "@ + (if symlink {
        "a symlink target path"@
    } else {
        "path"@
    }) + " is outside allowed directories: "@ + abs + " not in "@ + join_with(roots, ",\n"@)
}

/// A rejection that traces to a symbolic link says so: the denial text
/// raised with the symlink flag set contains the word `symlink`.
pub proof fn lemma_symlink_denial_names_symlink(abs: Seq<char>, roots: Seq<Seq<char>>)
    ensures
        occurs(spec_denial_message(abs, roots, true), "symlink"@),
{
    reveal_strlit("Access denied - ");
    reveal_strlit("a symlink target path");
    reveal_strlit("symlink");
    let msg = spec_denial_message(abs, roots, true);
    assert(msg.subrange(18, 25) =~= "symlink"@);
    assert(match_at(msg, "symlink"@, 18));
}

/// Builds the rejection for a path outside the allowed directories.
pub fn denial_error(absolute: &str, roots: &Vec<String>, symlink: bool) -> (r: ServiceError)
    ensures
        r matches ServiceError::FromString(m) && m@ == spec_denial_message(
            absolute@,
            str_views(roots@),
            symlink,
        ),
{
    let mut msg = String::from_str("Access denied - ");
    msg.append(
        if symlink {
            "a symlink target path"
        } else {
            "path"
        },
    );
    msg.append(" is outside allowed directories: ");
    msg.append(absolute);
    msg.append(" not in ");
    let joined = join_strings(roots, ",\n");
    msg.append(joined.as_str());
    ServiceError::FromString(msg)
}

/// Whether some root, in its configured or resolved form, prefixes `candidate`.
pub fn path_within_roots(candidate: &String, roots: &Vec<String>, resolved: &Vec<String>) -> (r:
    bool)
    ensures
        r == spec_within(candidate@, str_views(roots@), str_views(resolved@)),
{
    let cv = str_to_chars(candidate.as_str());
    let n = roots.len();
    let m = resolved.len();
    let mut i: usize = 0;
    while i < n
        invariant
            i <= n,
            n == roots@.len(),
            m == resolved@.len(),
            cv@ == candidate@,
            forall|k: int| 0 <= k < i ==> !is_prefix(#[trigger] str_views(roots@)[k], candidate@),
            forall|k: int|
                0 <= k < i && k < m ==> !is_prefix(
                    #[trigger] str_views(resolved@)[k],
                    candidate@,
                ),
        decreases n - i,
    {
        let rv = str_to_chars(roots[i].as_str());
        proof {
            assert(str_views(roots@)[i as int] == roots@[i as int]@);
        }
        if starts_with_chars(&cv, &rv) {
            assert(is_prefix(str_views(roots@)[i as int], candidate@));
            return true;
        }
        if i < m {
            let sv = str_to_chars(resolved[i].as_str());
            proof {
                assert(str_views(resolved@)[i as int] == resolved@[i as int]@);
            }
            if starts_with_chars(&cv, &sv) {
                assert(is_prefix(str_views(resolved@)[i as int], candidate@));
                return true;
            }
        }
        proof {
            assert forall|k: int| 0 <= k < i + 1 implies !is_prefix(
                #[trigger] str_views(roots@)[k],
                candidate@,
            ) by {
                if k == i {
                    assert(str_views(roots@)[k] == roots@[k]@);
                }
            }
            assert forall|k: int| 0 <= k < i + 1 && k < m implies !is_prefix(
                #[trigger] str_views(resolved@)[k],
                candidate@,
            ) by {
                if k == i {
                    assert(str_views(resolved@)[k] == resolved@[k]@);
                }
            }
        }
        i += 1;
    }
    false
}

impl FileSystemService {
    /// The configured root paths, in order.
    pub open spec fn roots(&self) -> Seq<Seq<char>> {
        str_views(self.allowed_path@)
    }

    /// The home directory captured at construction, as text.
    pub open spec fn home_view(&self) -> Option<Seq<char>> {
        opt_view(&self.home)
    }

    /// The absolute form of a requested path: home expansion first, then
    /// the working directory prepended to a relative result.
    pub open spec fn spec_absolute(&self, req: Seq<char>) -> Seq<char> {
        let e = spec_expand_home(req, self.home_view());
        if is_absolute_path(e) {
            e
        } else {
            spec_join_path(self.cwd@, e)
        }
    }

    /// Builds a service over `allowed_directories`, capturing the working
    /// directory `cwd` and the user's home directory.  Each configured
    /// root has its home marker expanded and must name an existing
    /// directory; otherwise construction reports the offending root.
    pub fn try_new(allowed_directories: &Vec<String>, cwd: String) -> (r: Result<
        FileSystemService,
        ServiceError,
    >)
        ensures
            match r {
                Ok(s) => {
                    &&& s.cwd@ == cwd@
                    &&& s.allowed_path@.len() == allowed_directories@.len()
                    &&& forall|i: int|
                        0 <= i < allowed_directories@.len() ==> (#[trigger] s.allowed_path@[i])@
                            == spec_expand_home(allowed_directories@[i]@, s.home_view())
                },
                Err(e) => e matches ServiceError::FromString(m) && exists|i: int|
                    0 <= i < allowed_directories@.len() && m@ == "Error: "@
                        + allowed_directories@[i]@ + " is not a directory"@,
            },
    {
        let home = home_dir_string();
        let n = allowed_directories.len();
        let mut normalized_dirs: Vec<String> = Vec::new();
        let mut i: usize = 0;
        while i < n
            invariant
                i <= n,
                n == allowed_directories@.len(),
                normalized_dirs@.len() == i,
                forall|k: int|
                    0 <= k < i ==> (#[trigger] normalized_dirs@[k])@ == spec_expand_home(
                        allowed_directories@[k]@,
                        opt_view(&home),
                    ),
            decreases n - i,
        {
            let dir = &allowed_directories[i];
            let expanded = expand_home(dir.as_str(), &home);
            if !path_is_dir(expanded.as_str()) {
                let mut msg = String::from_str("Error: ");
                msg.append(dir.as_str());
                msg.append(" is not a directory");
                return Err(ServiceError::FromString(msg));
            }
            normalized_dirs.push(expanded);
            i += 1;
        }
        Ok(FileSystemService { allowed_path: normalized_dirs, cwd, home })
    }

    /// The configured allowed directories.
    pub fn allowed_directories(&self) -> (r: &Vec<String>)
        ensures
            r@ == self.allowed_path@,
    {
        &self.allowed_path
    }

    /// Resolves `requested_path` to its absolute form and accepts it only
    /// if its filesystem-normalized form lies under an allowed root.  A
    /// rejected path yields an access denial that says whether a symbolic
    /// link on the path is to blame; the denial text names the path and
    /// every allowed directory.
    pub fn validate_path(&self, requested_path: &str) -> (r: Result<String, ServiceError>)
        ensures
            match r {
                Ok(p) => p@ == self.spec_absolute(requested_path@),
                Err(e) => {
                    &&& (e matches ServiceError::FromString(_) || e matches ServiceError::Io(_))
                    &&& (e matches ServiceError::FromString(m) ==> (m@ == spec_denial_message(
                        self.spec_absolute(requested_path@),
                        self.roots(),
                        true,
                    ) || m@ == spec_denial_message(
                        self.spec_absolute(requested_path@),
                        self.roots(),
                        false,
                    )))
                },
            },
    {
        let expanded = expand_home(requested_path, &self.home);
        let absolute = if is_absolute(expanded.as_str()) {
            expanded
        } else {
            join_paths(self.cwd.as_str(), expanded.as_str())
        };
        let normalized_requested = normalize_path(absolute.as_str());

        let n = self.allowed_path.len();
        let mut resolved_roots: Vec<String> = Vec::new();
        let mut i: usize = 0;
        while i < n
            invariant
                i <= n,
                n == self.allowed_path@.len(),
                resolved_roots@.len() == i,
            decreases n - i,
        {
            resolved_roots.push(normalize_path(self.allowed_path[i].as_str()));
            i += 1;
        }

        if !path_within_roots(&normalized_requested, &self.allowed_path, &resolved_roots) {
            let symlink = match contains_symlink(absolute.as_str()) {
                Ok(b) => b,
                Err(e) => {
                    return Err(e);
                },
            };
            return Err(denial_error(absolute.as_str(), &self.allowed_path, symlink));
        }
        Ok(absolute)
    }

    /// The dominant line ending of `text`: `\r\n` if any such pair
    /// occurs, else `\r` if any lone carriage return occurs, else `\n`.
    pub fn detect_line_ending(&self, text: &str) -> (r: &'static str)
        ensures
            r@ == spec_line_ending(text@),
    {
        let v = str_to_chars(text);
        if scan_crlf(&v) {
            proof {
                reveal_strlit("\r\n");
                assert("\r\n"@ =~= seq!['\r', '\n']);
            }
            "\r\n"
        } else if contains_char(&v, '\r') {
            proof {
                reveal_strlit("\r");
                assert("\r"@ =~= seq!['\r']);
            }
            "\r"
        } else {
            proof {
                reveal_strlit("\n");
                assert("\n"@ =~= seq!['\n']);
            }
            "\n"
        }
    }
}

/// What `similar`'s unified-diff writer produces for the two texts and
/// the two header labels, with four lines of context.
pub uninterp spec fn spec_patch(
    old_text: Seq<char>,
    new_text: Seq<char>,
    header_old: Seq<char>,
    header_new: Seq<char>,
) -> Seq<char>;

/// Relies on `similar::TextDiff::from_lines` and its unified-diff writer,
/// configured with four context lines and the two header labels: the
/// patch text is a deterministic function of the four arguments alone.
#[verifier::external_body]
fn unified_patch(old_text: &str, new_text: &str, header_old: &str, header_new: &str) -> (r: String)
    ensures
        r@ == spec_patch(old_text@, new_text@, header_old@, header_new@),
{
    let diff = similar::TextDiff::from_lines(old_text, new_text);
    let mut formatter = diff.unified_diff();
    formatter.context_radius(4).header(header_old, header_new);
    formatter.to_string()
}

/// The unified diff text for the two contents under header label `name`:
/// an `Index:` line, a separator rule, and the patch itself, computed
/// over line-ending-normalized contents.
pub open spec fn spec_unified_diff(
    original: Seq<char>,
    updated: Seq<char>,
    name: Seq<char>,
) -> Seq<char> {
    "Index: "@ + name + "\n"@ + repeat_char('=', 68) + "\n"@ + spec_patch(
        norm_newlines(original),
        norm_newlines(updated),
        name + "\toriginal"@,
        name + "\tmodified"@,
    )
}

/// Whether `s` contains a run of `k` consecutive backquote characters.
pub open spec fn contains_run(s: Seq<char>, k: int) -> bool {
    occurs(s, repeat_char('`', k))
}

/// A diff body that already contains a run of three backquotes is
/// wrapped in a fence of four or more, so the fence never collides with
/// the diff's own backquote runs.
pub proof fn lemma_fence_avoids_collision(diff: Seq<char>, n: int)
    requires
        3 <= n,
        n < usize::MAX ==> !contains_run(diff, n),
        contains_run(diff, 3),
    ensures
        n >= 4,
{
    if n == 3 {
        assert(!contains_run(diff, 3));
    }
}

/// The diff wrapped in a fenced code block of `n` backquotes.
pub open spec fn spec_fenced(diff: Seq<char>, n: int) -> Seq<char> {
    repeat_char('`', n) + "diff\n"@ + diff + repeat_char('`', n) + "\n\n"@
}

/// The smallest fence size of at least three backquotes that collides
/// with no backquote run in `diff`.
fn fence_size(diff: &Vec<char>) -> (r: usize)
    ensures
        3 <= r,
        r < usize::MAX ==> !contains_run(diff@, r as int),
        r > 3 ==> contains_run(diff@, r - 1),
{
    let hl = diff.len();
    let mut n: usize = 3;
    loop
        invariant
            3 <= n,
            hl == diff@.len(),
            n <= hl + 3,
            n == 3 || contains_run(diff@, n - 1),
        decreases hl + 3 - n,
    {
        if n > hl {
            proof {
                assert(!contains_run(diff@, n as int)) by {
                    if occurs(diff@, repeat_char('`', n as int)) {
                        let i = choose|i: int| match_at(diff@, repeat_char('`', n as int), i);
                        assert(repeat_char('`', n as int).len() == n as int);
                    }
                }
            }
            return n;
        }
        let ticks = repeat('`', n);
        if contains_seq(diff, &ticks) {
            if n == usize::MAX {
                return n;
            }
            n += 1;
        } else {
            return n;
        }
    }
}

/// A batch of edits applied to one piece of content: the reviewable
/// fenced diff, and the full content to write back, in the original
/// line-ending style of the input.
#[derive(Debug)]
pub struct EditApplication {
    pub formatted_diff: String,
    pub output_content: String,
}

/// The destination a completed edit is written to: nowhere on a dry run;
/// otherwise the explicit save target when one is given, else the edited
/// file itself.
pub fn edit_write_target(valid_path: &String, save_to: &Option<String>, dry_run: bool) -> (r:
    Option<String>)
    ensures
        r is Some <==> !dry_run,
        !dry_run ==> (r matches Some(t) && t@ == (match save_to {
            Some(p) => p@,
            None => valid_path@,
        })),
{
    if dry_run {
        None
    } else {
        match save_to {
            Some(p) => Some(p.clone()),
            None => Some(valid_path.clone()),
        }
    }
}

impl FileSystemService {
    /// The unified diff between the two contents, headed by an `Index:`
    /// line naming `filepath` (or `file` when absent) and a separator
    /// rule.  Line endings are normalized before comparison.
    pub fn create_unified_diff(
        &self,
        original_content: &str,
        new_content: &str,
        filepath: Option<String>,
    ) -> (r: String)
        ensures
            r@ == spec_unified_diff(
                original_content@,
                new_content@,
                match filepath {
                    Some(name) => name@,
                    None => "file"@,
                },
            ),
    {
        let normalized_original = normalize_line_endings(original_content);
        let normalized_new = normalize_line_endings(new_content);
        let file_name = match filepath {
            Some(name) => name,
            None => String::from_str("file"),
        };
        let mut header_old = file_name.clone();
        header_old.append("\toriginal");
        let mut header_new = file_name.clone();
        header_new.append("\tmodified");
        let patch = unified_patch(
            normalized_original.as_str(),
            normalized_new.as_str(),
            header_old.as_str(),
            header_new.as_str(),
        );
        let mut out = String::from_str("Index: ");
        out.append(file_name.as_str());
        out.append("\n");
        let rule = chars_to_string(&repeat('=', 68));
        out.append(rule.as_str());
        out.append("\n");
        out.append(patch.as_str());
        out
    }

    /// Applies `edits` in order to `content` and reports the outcome: the
    /// diff between the old and new content wrapped in a backquote fence
    /// that no run in the diff collides with, and the new content
    /// restored to the dominant line-ending style of the input.  Succeeds
    /// exactly when every edit finds its target; a failing edit reports
    /// its unmatched old text and nothing is produced.
    pub fn apply_file_edits(&self, content: &str, edits: &Vec<EditOperation>, file_label: &str)
        -> (r: Result<EditApplication, ServiceError>)
        ensures
            r is Ok <==> apply_edits_from(norm_newlines(content@), edits@, 0) is Some,
            r matches Ok(out) ==> (apply_edits_from(norm_newlines(content@), edits@, 0)
                matches Some(updated) && {
                let diff = spec_unified_diff(norm_newlines(content@), updated, file_label@);
                &&& out.output_content@ == spec_restore(updated, spec_line_ending(content@))
                &&& exists|n: int|
                    #![trigger spec_fenced(diff, n)]
                    (3 <= n && (n < usize::MAX ==> !contains_run(diff, n)) && (n > 3
                        ==> contains_run(diff, n - 1)) && out.formatted_diff@ == spec_fenced(
                        diff,
                        n,
                    ))
            }),
            r matches Err(e) ==> (e matches ServiceError::NoMatch(m) && exists|k: int|
                0 <= k < edits@.len() && m@ == no_match_prefix()@ + edits@[k].old_text@),
    {
        let original_line_ending = self.detect_line_ending(content);
        let raw = str_to_chars(content);
        let content_chars = normalize_newline_chars(&raw);
        let modified_chars = match apply_edit_batch(&content_chars, edits) {
            Ok(updated) => updated,
            Err(e) => {
                return Err(e);
            },
        };
        let content_str = chars_to_string(&content_chars);
        let modified_str = chars_to_string(&modified_chars);
        let diff = self.create_unified_diff(
            content_str.as_str(),
            modified_str.as_str(),
            Some(String::from_str(file_label)),
        );
        let ghost diff_view = spec_unified_diff(
            norm_newlines(content@),
            modified_chars@,
            file_label@,
        );
        let diff_chars = str_to_chars(diff.as_str());
        let n = fence_size(&diff_chars);
        let fence = chars_to_string(&repeat('`', n));
        let mut formatted = fence.clone();
        formatted.append("diff\n");
        formatted.append(diff.as_str());
        formatted.append(fence.as_str());
        formatted.append("\n\n");
        let ending = str_to_chars(original_line_ending);
        let restored = restore_line_endings(&modified_chars, &ending);
        let output_content = chars_to_string(&restored);
        proof {
            assert(formatted@ == spec_fenced(diff_view, n as int));
        }
        Ok(EditApplication { formatted_diff: formatted, output_content })
    }
}

/// Whether `p` is written as an absolute path.
fn is_absolute(p: &str) -> (r: bool)
    ensures
        r == is_absolute_path(p@),
{
    let v = str_to_chars(p);
    v.len() >= 1 && v[0] == '/'
}

/// `base` and `rel` joined with a single separator between them.
pub fn join_paths(base: &str, rel: &str) -> (r: String)
    ensures
        r@ == spec_join_path(base@, rel@),
{
    let bv = str_to_chars(base);
    let mut out = String::from_str(base);
    if !(bv.len() >= 1 && bv[bv.len() - 1] == '/') {
        out.append("/");
        proof {
            reveal_strlit("/");
            assert("/"@ =~= seq!['/']);
        }
    }
    out.append(rel);
    out
}

} // verus!

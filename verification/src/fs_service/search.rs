//! Recursive file search: walking a directory tree, validating every
//! entry through the path guard, and selecting entries by an inclusion
//! glob and a set of exclude globs.

use crate::error::ServiceError;
use crate::fs_service::{spec_denial_message, FileSystemService};
use crate::text::{
    chars_to_string, contains_char, eq_chars, extend_range, has_char, is_prefix,
    starts_with_chars, str_to_chars, str_views,
};
use vstd::prelude::*;
use vstd::string::*;

verus! {

/// What `glob::Pattern::new` accepts: whether `pattern` compiles.
pub uninterp spec fn glob_acceptable(pattern: Seq<char>) -> bool;

/// What a compiled glob pattern matches under the default options.
pub uninterp spec fn glob_match(pattern: Seq<char>, text: Seq<char>) -> bool;

/// Relies on `glob::Pattern::new` and `glob::Pattern::matches`: whether
/// `text` matches `pattern` under the default options, or nothing when
/// the pattern does not compile.  Both results are deterministic
/// functions of the two texts alone.
#[verifier::external_body]
pub(crate) fn glob_match_str(pattern: &str, text: &str) -> (r: Option<bool>)
    ensures
        r is Some <==> glob_acceptable(pattern@),
        r matches Some(b) ==> b == glob_match(pattern@, text@),
{
    match glob::Pattern::new(pattern) {
        Ok(compiled) => Some(compiled.matches(text)),
        Err(_) => None,
    }
}

/// Relies on `glob::Pattern::new`: the description of the compile
/// failure, or nothing when `pattern` compiles.
#[verifier::external_body]
pub(crate) fn glob_compile_error(pattern: &str) -> (r: Option<String>)
    ensures
        r is None <==> glob_acceptable(pattern@),
{
    match glob::Pattern::new(pattern) {
        Ok(_) => None,
        Err(err) => Some(err.to_string()),
    }
}

/// What `str::to_lowercase` returns: the lowercase form of `s`.
pub uninterp spec fn lower_of(s: Seq<char>) -> Seq<char>;

/// Relies on `str::to_lowercase`: the result depends on the characters
/// of `s` alone.
#[verifier::external_body]
pub(crate) fn to_lowercase(s: &str) -> (r: String)
    ensures
        r@ == lower_of(s@),
{
    s.to_lowercase()
}

/// One entry met during a directory walk: its full path, its base name,
/// and whether it is a directory.
#[derive(Debug)]
pub struct WalkedEntry {
    pub path: String,
    pub file_name: String,
    pub is_dir: bool,
}

/// Relies on `walkdir::WalkDir` with `follow_links(true)`: the entries
/// reachable from `root` in walk order, parents before their contents,
/// each converted to its path text, base name and directory flag;
/// entries the walk cannot read are dropped.  What comes back depends on
/// the filesystem, so nothing is assumed of it.
#[verifier::external_body]
pub(crate) fn walk_dir(root: &str) -> Vec<WalkedEntry> {
    walkdir::WalkDir::new(root)
        .follow_links(true)
        .into_iter()
        .filter_map(|entry| entry.ok())
        .map(
            |entry| WalkedEntry {
                path: entry.path().to_string_lossy().into_owned(),
                file_name: entry.file_name().to_string_lossy().into_owned(),
                is_dir: entry.file_type().is_dir(),
            },
        )
        .collect()
}

/// The inclusion pattern as actually matched: lowercased, and wrapped into
/// `**/*…*` when it carries no wildcard of its own.
pub open spec fn spec_include_pattern(pattern: Seq<char>) -> Seq<char> {
    if has_char(pattern, '*') {
        lower_of(pattern)
    } else {
        "**/*"@ + lower_of(pattern) + "*"@
    }
}

/// An exclude pattern as actually matched: wrapped into `*…*` when it
/// carries no wildcard of its own.
pub open spec fn spec_exclude_pattern(pattern: Seq<char>) -> Seq<char> {
    if has_char(pattern, '*') {
        pattern
    } else {
        "*"@ + pattern + "*"@
    }
}

/// The inclusion pattern as actually matched.
pub(crate) fn wrap_include_pattern(pattern: &str) -> (r: String)
    ensures
        r@ == spec_include_pattern(pattern@),
{
    let v = str_to_chars(pattern);
    let lowered = to_lowercase(pattern);
    if contains_char(&v, '*') {
        lowered
    } else {
        let mut out = String::from_str("**/*");
        out.append(lowered.as_str());
        out.append("*");
        out
    }
}

/// An exclude pattern as actually matched.
pub(crate) fn wrap_exclude_pattern(pattern: &str) -> (r: String)
    ensures
        r@ == spec_exclude_pattern(pattern@),
{
    let v = str_to_chars(pattern);
    if contains_char(&v, '*') {
        String::from_str(pattern)
    } else {
        let mut out = String::from_str("*");
        out.append(pattern);
        out.append("*");
        out
    }
}

/// The path of `p` relative to `root`: the remainder after `root` and
/// one separator; the empty text when `p` is `root` itself; `p`
/// unchanged when it does not lie under `root`.
pub open spec fn spec_rel_path(p: Seq<char>, root: Seq<char>) -> Seq<char> {
    if p == root {
        Seq::empty()
    } else if is_prefix(root + seq!['/'], p) {
        p.subrange(root.len() as int + 1, p.len() as int)
    } else {
        p
    }
}

/// The path of `p` relative to `root`.
pub(crate) fn rel_path(p: &str, root: &str) -> (r: String)
    ensures
        r@ == spec_rel_path(p@, root@),
{
    let pv = str_to_chars(p);
    let rv = str_to_chars(root);
    if eq_chars(&pv, &rv) {
        return String::new();
    }
    let mut sep = str_to_chars(root);
    sep.push('/');
    assert(sep@ =~= root@ + seq!['/']);
    if starts_with_chars(&pv, &sep) {
        let mut out: Vec<char> = Vec::new();
        extend_range(&mut out, &pv, sep.len(), pv.len());
        chars_to_string(&out)
    } else {
        String::from_str(p)
    }
}

/// Whether `p` lies strictly under any of the pruned paths.
pub open spec fn under_any(p: Seq<char>, pruned: Seq<Seq<char>>) -> bool {
    exists|k: int| 0 <= k < pruned.len() && is_prefix(#[trigger] pruned[k] + seq!['/'], p)
}

/// Whether `p` lies strictly under any of the pruned paths.
fn under_any_exec(p: &String, pruned: &Vec<String>) -> (r: bool)
    ensures
        r == under_any(p@, str_views(pruned@)),
{
    let pv = str_to_chars(p.as_str());
    let n = pruned.len();
    let mut k: usize = 0;
    while k < n
        invariant
            k <= n,
            n == pruned@.len(),
            pv@ == p@,
            forall|t: int|
                0 <= t < k ==> !is_prefix(#[trigger] str_views(pruned@)[t] + seq!['/'], p@),
        decreases n - k,
    {
        let mut sep = str_to_chars(pruned[k].as_str());
        sep.push('/');
        proof {
            assert(sep@ =~= str_views(pruned@)[k as int] + seq!['/']);
        }
        if starts_with_chars(&pv, &sep) {
            assert(is_prefix(str_views(pruned@)[k as int] + seq!['/'], p@));
            return true;
        }
        proof {
            assert forall|t: int| 0 <= t < k + 1 implies !is_prefix(
                #[trigger] str_views(pruned@)[t] + seq!['/'],
                p@,
            ) by {
                if t == k {
                    assert(str_views(pruned@)[t] == pruned@[t]@);
                }
            }
        }
        k += 1;
    }
    false
}

/// Whether some exclude pattern, after wrapping, matches the path of `p`
/// relative to `root`.  A pattern that does not compile excludes nothing.
pub open spec fn spec_excluded(p: Seq<char>, root: Seq<char>, excludes: Seq<Seq<char>>) -> bool {
    exists|k: int|
        0 <= k < excludes.len() && (glob_acceptable(spec_exclude_pattern(#[trigger] excludes[k]))
            && glob_match(spec_exclude_pattern(excludes[k]), spec_rel_path(p, root)))
}

/// Whether some exclude pattern matches the path of `p` relative to `root`.
fn is_excluded(p: &String, root: &str, excludes: &Vec<String>) -> (r: bool)
    ensures
        r == spec_excluded(p@, root@, str_views(excludes@)),
{
    let relative = rel_path(p.as_str(), root);
    let n = excludes.len();
    let mut k: usize = 0;
    while k < n
        invariant
            k <= n,
            n == excludes@.len(),
            relative@ == spec_rel_path(p@, root@),
            forall|t: int|
                0 <= t < k ==> !(glob_acceptable(
                    spec_exclude_pattern(#[trigger] str_views(excludes@)[t]),
                ) && glob_match(
                    spec_exclude_pattern(str_views(excludes@)[t]),
                    spec_rel_path(p@, root@),
                )),
        decreases n - k,
    {
        let wrapped = wrap_exclude_pattern(excludes[k].as_str());
        proof {
            assert(str_views(excludes@)[k as int] == excludes@[k as int]@);
        }
        match glob_match_str(wrapped.as_str(), relative.as_str()) {
            Some(true) => {
                assert(glob_acceptable(spec_exclude_pattern(str_views(excludes@)[k as int])));
                return true;
            },
            _ => {},
        }
        proof {
            assert forall|t: int| 0 <= t < k + 1 implies !(glob_acceptable(
                spec_exclude_pattern(#[trigger] str_views(excludes@)[t]),
            ) && glob_match(
                spec_exclude_pattern(str_views(excludes@)[t]),
                spec_rel_path(p@, root@),
            )) by {
                if t == k {
                    assert(str_views(excludes@)[t] == excludes@[t]@);
                }
            }
        }
        k += 1;
    }
    false
}

/// The paths selected from `entries[i..]`, given per-entry validation
/// verdicts and the already-pruned paths.  An entry under a pruned path
/// is skipped.  An entry that failed validation, or that some exclude
/// pattern matches, is pruned together with everything beneath it.  A
/// surviving entry is selected when it is not the search root itself and
/// the inclusion pattern matches its lowercased base name.
pub open spec fn spec_select(
    root: Seq<char>,
    include_pat: Seq<char>,
    excludes: Seq<Seq<char>>,
    entries: Seq<WalkedEntry>,
    valid: Seq<bool>,
    i: int,
    pruned: Seq<Seq<char>>,
) -> Seq<Seq<char>>
    decreases entries.len() - i,
{
    if i < 0 || i >= entries.len() {
        Seq::empty()
    } else {
        let e = entries[i];
        if under_any(e.path@, pruned) {
            spec_select(root, include_pat, excludes, entries, valid, i + 1, pruned)
        } else if !(i < valid.len() && valid[i]) || spec_excluded(e.path@, root, excludes) {
            spec_select(root, include_pat, excludes, entries, valid, i + 1, pruned.push(e.path@))
        } else if e.path@ != root && glob_acceptable(include_pat) && glob_match(
            include_pat,
            lower_of(e.file_name@),
        ) {
            seq![e.path@] + spec_select(root, include_pat, excludes, entries, valid, i + 1, pruned)
        } else {
            spec_select(root, include_pat, excludes, entries, valid, i + 1, pruned)
        }
    }
}

/// Every selected path differs from the search root and is matched by no
/// exclude pattern.
pub proof fn lemma_select_sound(
    root: Seq<char>,
    include_pat: Seq<char>,
    excludes: Seq<Seq<char>>,
    entries: Seq<WalkedEntry>,
    valid: Seq<bool>,
    i: int,
    pruned: Seq<Seq<char>>,
)
    ensures
        forall|k: int|
            0 <= k < spec_select(root, include_pat, excludes, entries, valid, i, pruned).len()
                ==> (#[trigger] spec_select(root, include_pat, excludes, entries, valid, i, pruned)[k])
                != root && !spec_excluded(
                spec_select(root, include_pat, excludes, entries, valid, i, pruned)[k],
                root,
                excludes,
            ),
    decreases entries.len() - i,
{
    if i < 0 || i >= entries.len() {
    } else {
        let whole = spec_select(root, include_pat, excludes, entries, valid, i, pruned);
        let e = entries[i];
        if under_any(e.path@, pruned) {
            lemma_select_sound(root, include_pat, excludes, entries, valid, i + 1, pruned);
            let rest = spec_select(root, include_pat, excludes, entries, valid, i + 1, pruned);
            assert forall|k: int| 0 <= k < whole.len() implies (#[trigger] whole[k]) != root
                && !spec_excluded(whole[k], root, excludes) by {
                assert(whole[k] == rest[k]);
            }
        } else if !(i < valid.len() && valid[i]) || spec_excluded(e.path@, root, excludes) {
            lemma_select_sound(
                root,
                include_pat,
                excludes,
                entries,
                valid,
                i + 1,
                pruned.push(e.path@),
            );
            let rest = spec_select(
                root,
                include_pat,
                excludes,
                entries,
                valid,
                i + 1,
                pruned.push(e.path@),
            );
            assert forall|k: int| 0 <= k < whole.len() implies (#[trigger] whole[k]) != root
                && !spec_excluded(whole[k], root, excludes) by {
                assert(whole[k] == rest[k]);
            }
        } else if e.path@ != root && glob_acceptable(include_pat) && glob_match(
            include_pat,
            lower_of(e.file_name@),
        ) {
            lemma_select_sound(root, include_pat, excludes, entries, valid, i + 1, pruned);
            let rest = spec_select(root, include_pat, excludes, entries, valid, i + 1, pruned);
            assert forall|k: int| 0 <= k < whole.len() implies (#[trigger] whole[k]) != root
                && !spec_excluded(whole[k], root, excludes) by {
                if k > 0 {
                    assert(whole[k] == rest[k - 1]);
                }
            }
        } else {
            lemma_select_sound(root, include_pat, excludes, entries, valid, i + 1, pruned);
            let rest = spec_select(root, include_pat, excludes, entries, valid, i + 1, pruned);
            assert forall|k: int| 0 <= k < whole.len() implies (#[trigger] whole[k]) != root
                && !spec_excluded(whole[k], root, excludes) by {
                assert(whole[k] == rest[k]);
            }
        }
    }
}

/// Selects from the walked entries those the search reports: validated,
/// not pruned, not excluded, not the root, and matching the inclusion
/// pattern on their lowercased base name.
pub fn select_matches(
    root_path: &str,
    pattern: &str,
    exclude_patterns: &Vec<String>,
    entries: &Vec<WalkedEntry>,
    valid: &Vec<bool>,
) -> (r: Vec<String>)
    ensures
        str_views(r@) == spec_select(
            root_path@,
            spec_include_pattern(pattern@),
            str_views(exclude_patterns@),
            entries@,
            valid@,
            0,
            Seq::empty(),
        ),
{
    let include_pat = wrap_include_pattern(pattern);
    let ghost incv = spec_include_pattern(pattern@);
    let ghost exv = str_views(exclude_patterns@);
    let n = entries.len();
    let mut out: Vec<String> = Vec::new();
    let mut pruned: Vec<String> = Vec::new();
    let mut i: usize = 0;
    let rv = str_to_chars(root_path);
    proof {
        assert(str_views(out@) =~= Seq::<Seq<char>>::empty());
        assert(str_views(pruned@) =~= Seq::<Seq<char>>::empty());
    }
    while i < n
        invariant
            i <= n,
            n == entries@.len(),
            rv@ == root_path@,
            include_pat@ == incv,
            incv == spec_include_pattern(pattern@),
            exv == str_views(exclude_patterns@),
            spec_select(root_path@, incv, exv, entries@, valid@, 0, Seq::empty()) == str_views(
                out@,
            ) + spec_select(root_path@, incv, exv, entries@, valid@, i as int, str_views(pruned@)),
        decreases n - i,
    {
        let ghost pre_out = out@;
        let ghost pre_pruned = pruned@;
        let ghost step = spec_select(
            root_path@,
            incv,
            exv,
            entries@,
            valid@,
            i as int,
            str_views(pruned@),
        );
        let entry = &entries[i];
        if under_any_exec(&entry.path, &pruned) {
            proof {
                assert(step == spec_select(
                    root_path@,
                    incv,
                    exv,
                    entries@,
                    valid@,
                    i + 1,
                    str_views(pruned@),
                ));
            }
        } else if !(i < valid.len() && valid[i]) || is_excluded(&entry.path, root_path, exclude_patterns) {
            proof {
                assert(step == spec_select(
                    root_path@,
                    incv,
                    exv,
                    entries@,
                    valid@,
                    i + 1,
                    str_views(pruned@).push(entries@[i as int].path@),
                ));
            }
            pruned.push(entry.path.clone());
            proof {
                assert(str_views(pruned@) =~= str_views(pre_pruned).push(entries@[i as int].path@));
            }
        } else {
            let pv = str_to_chars(entry.path.as_str());
            let lowered = to_lowercase(entry.file_name.as_str());
            let included = match glob_match_str(include_pat.as_str(), lowered.as_str()) {
                Some(b) => b,
                None => false,
            };
            proof {
                if entries@[i as int].path@ != root_path@ && glob_acceptable(incv) && glob_match(
                    incv,
                    lower_of(entries@[i as int].file_name@),
                ) {
                    assert(step == seq![entries@[i as int].path@] + spec_select(
                        root_path@,
                        incv,
                        exv,
                        entries@,
                        valid@,
                        i + 1,
                        str_views(pruned@),
                    ));
                } else {
                    assert(step == spec_select(
                        root_path@,
                        incv,
                        exv,
                        entries@,
                        valid@,
                        i + 1,
                        str_views(pruned@),
                    ));
                }
            }
            if !eq_chars(&pv, &rv) && included {
                out.push(entry.path.clone());
                proof {
                    assert(str_views(out@) =~= str_views(pre_out).push(entries@[i as int].path@));
                    assert(str_views(pre_out) + (seq![entries@[i as int].path@] + spec_select(
                        root_path@,
                        incv,
                        exv,
                        entries@,
                        valid@,
                        i + 1,
                        str_views(pruned@),
                    )) =~= str_views(out@) + spec_select(
                        root_path@,
                        incv,
                        exv,
                        entries@,
                        valid@,
                        i + 1,
                        str_views(pruned@),
                    ));
                }
            }
        }
        i += 1;
    }
    out
}

impl FileSystemService {
    /// Walks `root_path` recursively, following symbolic links, and
    /// returns the full paths of the entries that survive validation and
    /// pruning, differ from the root, match the inclusion pattern on their
    /// lowercased base name, and are matched by no exclude pattern.
    /// Every returned path differs from the root and is excluded by no
    /// pattern; an entry that fails validation is dropped silently
    /// together with the subtree beneath it.
    pub fn search_files(
        &self,
        root_path: &str,
        pattern: String,
        exclude_patterns: Vec<String>,
    ) -> (r: Result<Vec<String>, ServiceError>)
        ensures
            r matches Ok(list) ==> forall|k: int|
                0 <= k < list@.len() ==> (#[trigger] list@[k])@ != root_path@ && !spec_excluded(
                    list@[k]@,
                    root_path@,
                    str_views(exclude_patterns@),
                ),
            r matches Err(e) ==> (e matches ServiceError::FromString(_) || e matches
                ServiceError::Io(_)),
            r matches Err(e) ==> (e matches ServiceError::FromString(m) ==> (m@
                == spec_denial_message(self.spec_absolute(root_path@), self.roots(), true) || m@
                == spec_denial_message(self.spec_absolute(root_path@), self.roots(), false))),
    {
        let valid_path = match self.validate_path(root_path) {
            Ok(p) => p,
            Err(e) => {
                return Err(e);
            },
        };
        let entries = walk_dir(valid_path.as_str());
        let n = entries.len();
        let mut valid: Vec<bool> = Vec::new();
        let mut i: usize = 0;
        while i < n
            invariant
                i <= n,
                n == entries@.len(),
                valid@.len() == i,
            decreases n - i,
        {
            let ok = self.validate_path(entries[i].path.as_str()).is_ok();
            valid.push(ok);
            i += 1;
        }
        let result = select_matches(root_path, pattern.as_str(), &exclude_patterns, &entries, &valid);
        proof {
            lemma_select_sound(
                root_path@,
                spec_include_pattern(pattern@),
                str_views(exclude_patterns@),
                entries@,
                valid@,
                0,
                Seq::empty(),
            );
            assert forall|k: int| 0 <= k < result@.len() implies (#[trigger] result@[k])@
                != root_path@ && !spec_excluded(
                result@[k]@,
                root_path@,
                str_views(exclude_patterns@),
            ) by {
                assert(str_views(result@)[k] == result@[k]@);
            }
        }
        Ok(result)
    }
}

} // verus!

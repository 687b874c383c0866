//! Archive planning: which files go into a zip archive under which
//! entry names, and the checks an archive operation makes before any
//! byte is written.  The containment guard validates every path
//! involved, and a target that already exists is never overwritten.

use crate::error::ServiceError;
use crate::fs_service::search::{
    glob_acceptable, glob_compile_error, glob_match, glob_match_str, lower_of, to_lowercase,
    walk_dir, WalkedEntry,
};
use crate::fs_service::utils::path_exists;
use crate::fs_service::FileSystemService;
use crate::text::{
    chars_to_string, contains_char, copy_range, dec_digits, eq_chars, has_char, is_prefix,
    starts_with_chars, str_to_chars, u64_to_dec,
};
use vstd::prelude::*;
use vstd::string::*;

verus! {

/// One planned archive entry: the name it carries inside the archive and
/// the file it is read from.
#[derive(Debug)]
pub struct ZipEntryPlan {
    pub archive_name: String,
    pub source_path: String,
}

/// A fully validated archive creation: the target file to create and the
/// entries to store, in order.
#[derive(Debug)]
pub struct ZipPlan {
    pub target: String,
    pub entries: Vec<ZipEntryPlan>,
}

/// A fully validated extraction: the archive to read and the directory,
/// not yet existing, to extract into.
#[derive(Debug)]
pub struct UnzipPlan {
    pub zip_path: String,
    pub target_dir: String,
}

/// How many path separators `p` ends with.
pub open spec fn trailing_sep_count(p: Seq<char>) -> int
    decreases p.len(),
{
    if p.len() == 0 || p[p.len() - 1] != '/' {
        0
    } else {
        1 + trailing_sep_count(p.drop_last())
    }
}

/// `p` without its trailing path separators.
pub open spec fn strip_trailing_seps(p: Seq<char>) -> Seq<char> {
    p.subrange(0, p.len() - trailing_sep_count(p))
}

/// The part of `q` after its last path separator.
pub open spec fn suffix_after_last_sep(q: Seq<char>) -> Seq<char>
    decreases q.len(),
{
    if q.len() == 0 {
        q
    } else if q[q.len() - 1] == '/' {
        Seq::empty()
    } else {
        suffix_after_last_sep(q.drop_last()).push(q[q.len() - 1])
    }
}

/// The base name of path `p`: the last component, with trailing
/// separators ignored.
pub open spec fn base_name(p: Seq<char>) -> Seq<char> {
    suffix_after_last_sep(strip_trailing_seps(p))
}

/// Whether `p` has a usable base name: a last component that exists and
/// is not a current- or parent-directory marker.
pub open spec fn base_name_ok(p: Seq<char>) -> bool {
    &&& strip_trailing_seps(p).len() > 0
    &&& base_name(p) != seq!['.']
    &&& base_name(p) != seq!['.', '.']
}

/// The count of trailing separators is in range, covers only separators,
/// and stops at the last non-separator character.
proof fn lemma_trailing_sep_count(p: Seq<char>)
    ensures
        0 <= trailing_sep_count(p) <= p.len(),
        forall|j: int| p.len() - trailing_sep_count(p) <= j < p.len() ==> p[j] == '/',
        trailing_sep_count(p) < p.len() ==> p[p.len() - trailing_sep_count(p) - 1] != '/',
    decreases p.len(),
{
    if p.len() == 0 || p[p.len() - 1] != '/' {
    } else {
        lemma_trailing_sep_count(p.drop_last());
        assert forall|j: int| p.len() - trailing_sep_count(p) <= j < p.len() implies p[j]
            == '/' by {
            if j < p.len() - 1 {
                assert(p.drop_last()[j] == p[j]);
            }
        }
    }
}

/// The suffix after the last separator is the range from the character
/// after that separator to the end.
proof fn lemma_suffix_after_last_sep(q: Seq<char>, s: int)
    requires
        0 <= s <= q.len(),
        forall|j: int| s <= j < q.len() ==> q[j] != '/',
        s == 0 || q[s - 1] == '/',
    ensures
        suffix_after_last_sep(q) == q.subrange(s, q.len() as int),
    decreases q.len(),
{
    if q.len() == 0 {
        assert(q.subrange(0, 0) =~= q);
    } else if q[q.len() - 1] == '/' {
        assert(s == q.len());
        assert(q.subrange(s, q.len() as int) =~= Seq::<char>::empty());
    } else {
        assert(s < q.len());
        assert forall|j: int| s <= j < q.drop_last().len() implies q.drop_last()[j] != '/' by {
            assert(q.drop_last()[j] == q[j]);
        }
        if s > 0 {
            assert(q.drop_last()[s - 1] == q[s - 1]);
        }
        lemma_suffix_after_last_sep(q.drop_last(), s);
        assert(q.drop_last().subrange(s, q.len() - 1) =~= q.subrange(s, q.len() - 1));
        assert(q.subrange(s, q.len() - 1).push(q[q.len() - 1]) =~= q.subrange(s, q.len() as int));
    }
}

/// The base name of `v`: the last component, with trailing separators
/// ignored.
fn base_name_chars(v: &Vec<char>) -> (r: Vec<char>)
    ensures
        r@ == base_name(v@),
{
    let n = v.len();
    let mut end: usize = n;
    while end > 0 && v[end - 1] == '/'
        invariant
            end <= n,
            n == v@.len(),
            forall|j: int| end <= j < n ==> v@[j] == '/',
        decreases end,
    {
        end -= 1;
    }
    proof {
        lemma_trailing_sep_count(v@);
        let t = trailing_sep_count(v@);
        if n - t < end {
            assert(v@[end - 1] == '/');
        }
        if n - t > end {
            assert(v@[n - t - 1] == '/');
        }
        assert(end as int == v@.len() - trailing_sep_count(v@));
    }
    let ghost stripped = strip_trailing_seps(v@);
    let mut start: usize = end;
    while start > 0 && v[start - 1] != '/'
        invariant
            start <= end <= n,
            n == v@.len(),
            forall|j: int| start <= j < end ==> v@[j] != '/',
        decreases start,
    {
        start -= 1;
    }
    proof {
        assert(stripped =~= v@.subrange(0, end as int));
        assert forall|j: int| start <= j < stripped.len() implies stripped[j] != '/' by {
            assert(stripped[j] == v@[j]);
        }
        if start > 0 {
            assert(stripped[start - 1] == v@[start - 1]);
        }
        lemma_suffix_after_last_sep(stripped, start as int);
        assert(stripped.subrange(start as int, stripped.len() as int) =~= v@.subrange(
            start as int,
            end as int,
        ));
    }
    copy_range(v, start, end)
}

/// The base name of `path`, when it is usable as an archive entry name:
/// present, and not a current- or parent-directory marker.
pub fn checked_base_name(path: &str) -> (r: Option<String>)
    ensures
        r matches Some(b) ==> base_name_ok(path@) && b@ == base_name(path@),
        r is None ==> !base_name_ok(path@),
{
    let v = str_to_chars(path);
    let base = base_name_chars(&v);
    let n = v.len();
    let mut end: usize = n;
    while end > 0 && v[end - 1] == '/'
        invariant
            end <= n,
            n == v@.len(),
            forall|j: int| end <= j < n ==> v@[j] == '/',
        decreases end,
    {
        end -= 1;
    }
    proof {
        lemma_trailing_sep_count(v@);
        let t = trailing_sep_count(v@);
        if n - t < end {
            assert(v@[end - 1] == '/');
        }
        if n - t > end {
            assert(v@[n - t - 1] == '/');
        }
    }
    if end == 0 {
        return None;
    }
    let mut dot: Vec<char> = Vec::new();
    dot.push('.');
    let mut dotdot: Vec<char> = Vec::new();
    dotdot.push('.');
    dotdot.push('.');
    proof {
        assert(dot@ =~= seq!['.']);
        assert(dotdot@ =~= seq!['.', '.']);
    }
    if eq_chars(&base, &dot) || eq_chars(&base, &dotdot) {
        return None;
    }
    Some(chars_to_string(&base))
}

/// Fails exactly when the target already exists: an archive is never
/// written over an existing file or directory.
pub fn ensure_target_absent(target_name: &str, target_exists: bool) -> (r: Result<
    (),
    ServiceError,
>)
    ensures
        r is Ok <==> !target_exists,
        r matches Err(e) ==> e matches ServiceError::AlreadyExists(m) && m@ == "'"@ + target_name@
            + "' already exists!"@,
{
    if target_exists {
        let mut msg = String::from_str("'");
        msg.append(target_name);
        msg.append("' already exists!");
        Err(ServiceError::AlreadyExists(msg))
    } else {
        Ok(())
    }
}

/// Decides whether an extraction may proceed, from the two existence
/// probes: the archive must exist, and the target directory must not,
/// since an extraction never merges into an existing directory.  The
/// archive is checked first.
pub fn unzip_preconditions(zip_exists: bool, target_name: &str, target_exists: bool) -> (r: Result<
    (),
    ServiceError,
>)
    ensures
        r is Ok <==> (zip_exists && !target_exists),
        !zip_exists ==> (r matches Err(e) && e matches ServiceError::NotFound(m) && m@
            == "Zip file does not exists."@),
        zip_exists && target_exists ==> (r matches Err(e) && e matches ServiceError::AlreadyExists(
            m,
        ) && m@ == "'"@ + target_name@ + "' directory already exists!"@),
{
    if !zip_exists {
        Err(ServiceError::NotFound(String::from_str("Zip file does not exists.")))
    } else if target_exists {
        let mut msg = String::from_str("'");
        msg.append(target_name);
        msg.append("' directory already exists!");
        Err(ServiceError::AlreadyExists(msg))
    } else {
        Ok(())
    }
}

/// The views of a sequence of optional strings.
pub open spec fn opt_str_views(vs: Seq<Option<String>>) -> Seq<Option<Seq<char>>> {
    Seq::new(
        vs.len(),
        |k: int|
            match vs[k] {
                Some(s) => Some(s@),
                None => None,
            },
    )
}

/// Whether `name` can stand as an archive entry name: it is not empty,
/// and neither is nor begins with the parent-directory marker, so it
/// cannot reach outside the archive root.
pub open spec fn valid_archive_name(name: Seq<char>) -> bool {
    &&& name.len() > 0
    &&& name != seq!['.', '.']
    &&& !is_prefix(seq!['.', '.', '/'], name)
}

/// The pairs of archive name and source path selected from
/// `entries[i..]`, given each entry's validated path (or nothing, for an
/// entry that failed validation, which is skipped).  A validated entry
/// is stored when it differs from the archived directory, the pattern
/// matches its lowercased validated path, and it is not itself a
/// directory; its archive name is its path with the directory prefix and
/// one separator removed.  A storable entry whose path does not extend
/// the directory, or whose archive name could escape the archive root,
/// aborts the whole plan.
pub open spec fn zip_select(
    dir: Seq<char>,
    pat: Seq<char>,
    entries: Seq<WalkedEntry>,
    valids: Seq<Option<Seq<char>>>,
    i: int,
) -> Option<Seq<(Seq<char>, Seq<char>)>>
    decreases entries.len() - i,
{
    if i < 0 || i >= entries.len() || i >= valids.len() {
        Some(Seq::empty())
    } else {
        match valids[i] {
            None => zip_select(dir, pat, entries, valids, i + 1),
            Some(p) => {
                if !(p != dir && glob_match(pat, lower_of(p))) {
                    zip_select(dir, pat, entries, valids, i + 1)
                } else if entries[i].is_dir {
                    zip_select(dir, pat, entries, valids, i + 1)
                } else if !is_prefix(dir, p) || !valid_archive_name(
                    p.subrange(dir.len() as int + 1, p.len() as int),
                ) {
                    None
                } else {
                    match zip_select(dir, pat, entries, valids, i + 1) {
                        Some(rest) => Some(
                            seq![(p.subrange(dir.len() as int + 1, p.len() as int), p)] + rest,
                        ),
                        None => None,
                    }
                }
            },
        }
    }
}

/// The archive-name and source-path views of planned entries.
pub open spec fn plan_pairs(plans: Seq<ZipEntryPlan>) -> Seq<(Seq<char>, Seq<char>)> {
    Seq::new(plans.len(), |k: int| (plans[k].archive_name@, plans[k].source_path@))
}

/// Every selected pair stores a file from strictly under the archived
/// directory, under a usable archive name: its own path with the
/// directory prefix and one further character removed, never empty and
/// never reaching outside the archive root.
pub proof fn lemma_zip_select_sound(
    dir: Seq<char>,
    pat: Seq<char>,
    entries: Seq<WalkedEntry>,
    valids: Seq<Option<Seq<char>>>,
    i: int,
    pairs: Seq<(Seq<char>, Seq<char>)>,
)
    requires
        zip_select(dir, pat, entries, valids, i) == Some(pairs),
    ensures
        forall|k: int|
            0 <= k < pairs.len() ==> is_prefix(dir, (#[trigger] pairs[k]).1) && pairs[k].1.len()
                > dir.len() && pairs[k].0 == pairs[k].1.subrange(
                dir.len() as int + 1,
                pairs[k].1.len() as int,
            ) && valid_archive_name(pairs[k].0),
    decreases entries.len() - i,
{
    if i < 0 || i >= entries.len() || i >= valids.len() {
        assert(pairs =~= Seq::<(Seq<char>, Seq<char>)>::empty());
    } else {
        match valids[i] {
            None => {
                lemma_zip_select_sound(dir, pat, entries, valids, i + 1, pairs);
            },
            Some(p) => {
                if !(p != dir && glob_match(pat, lower_of(p))) || entries[i].is_dir {
                    lemma_zip_select_sound(dir, pat, entries, valids, i + 1, pairs);
                } else {
                    if dir.len() == p.len() {
                        assert(p.subrange(0, dir.len() as int) =~= p);
                    }
                    match zip_select(dir, pat, entries, valids, i + 1) {
                        Some(rest) => {
                            lemma_zip_select_sound(dir, pat, entries, valids, i + 1, rest);
                            assert forall|k: int| 0 <= k < pairs.len() implies is_prefix(
                                dir,
                                (#[trigger] pairs[k]).1,
                            ) && pairs[k].1.len() > dir.len() && pairs[k].0 == pairs[k].1.subrange(
                                dir.len() as int + 1,
                                pairs[k].1.len() as int,
                            ) && valid_archive_name(pairs[k].0) by {
                                if k > 0 {
                                    assert(pairs[k] == rest[k - 1]);
                                }
                            }
                        },
                        None => {},
                    }
                }
            },
        }
    }
}

/// Selects the archive entries for the walked entries of `dir`, given
/// each entry's validation verdict.
pub fn plan_zip_entries(
    dir: &String,
    pattern: &String,
    entries: &Vec<WalkedEntry>,
    valids: &Vec<Option<String>>,
) -> (r: Result<Vec<ZipEntryPlan>, ServiceError>)
    requires
        glob_acceptable(pattern@),
        valids@.len() == entries@.len(),
    ensures
        match r {
            Ok(plans) => zip_select(dir@, pattern@, entries@, opt_str_views(valids@), 0) == Some(
                plan_pairs(plans@),
            ),
            Err(e) => zip_select(dir@, pattern@, entries@, opt_str_views(valids@), 0) is None && e
                matches ServiceError::InvalidInput(_),
        },
{
    let n = entries.len();
    let dv = str_to_chars(dir.as_str());
    let mut out: Vec<ZipEntryPlan> = Vec::new();
    let mut i: usize = 0;
    let ghost ovs = opt_str_views(valids@);
    proof {
        assert(plan_pairs(out@) =~= Seq::<(Seq<char>, Seq<char>)>::empty());
    }
    while i < n
        invariant
            i <= n,
            n == entries@.len(),
            n == valids@.len(),
            dv@ == dir@,
            ovs == opt_str_views(valids@),
            glob_acceptable(pattern@),
            zip_select(dir@, pattern@, entries@, ovs, 0) == (match zip_select(
                dir@,
                pattern@,
                entries@,
                ovs,
                i as int,
            ) {
                Some(rest) => Some(plan_pairs(out@) + rest),
                None => Option::<Seq<(Seq<char>, Seq<char>)>>::None,
            }),
        decreases n - i,
    {
        let ghost pre_out = out@;
        proof {
            assert(ovs[i as int] == (match valids@[i as int] {
                Some(s) => Some(s@),
                None => None,
            }));
        }
        match &valids[i] {
            None => {},
            Some(p) => {
                let pv = str_to_chars(p.as_str());
                let lowered = to_lowercase(p.as_str());
                let matched = match glob_match_str(pattern.as_str(), lowered.as_str()) {
                    Some(b) => b,
                    None => {
                        proof {
                            assert(false);
                        }
                        false
                    },
                };
                if !eq_chars(&pv, &dv) && matched {
                    if !entries[i].is_dir {
                        if !starts_with_chars(&pv, &dv) {
                            return Err(
                                ServiceError::InvalidInput(
                                    String::from_str(
                                        "Entry file path does not start with base input directory path.",
                                    ),
                                ),
                            );
                        }
                        proof {
                            assert(is_prefix(dir@, p@) && p@ != dir@);
                            if dir@.len() == p@.len() {
                                assert(p@.subrange(0, dir@.len() as int) =~= p@);
                            }
                            assert(dir@.len() < p@.len());
                        }
                        let pl = pv.len();
                        let name_chars = copy_range(&pv, dv.len() + 1, pl);
                        let mut dotdot: Vec<char> = Vec::new();
                        dotdot.push('.');
                        dotdot.push('.');
                        let mut dotdot_sep: Vec<char> = Vec::new();
                        dotdot_sep.push('.');
                        dotdot_sep.push('.');
                        dotdot_sep.push('/');
                        proof {
                            assert(dotdot@ =~= seq!['.', '.']);
                            assert(dotdot_sep@ =~= seq!['.', '.', '/']);
                        }
                        if name_chars.len() == 0 || eq_chars(&name_chars, &dotdot)
                            || starts_with_chars(&name_chars, &dotdot_sep) {
                            return Err(
                                ServiceError::InvalidInput(
                                    String::from_str("Invalid archive entry name."),
                                ),
                            );
                        }
                        let plan = ZipEntryPlan {
                            archive_name: chars_to_string(&name_chars),
                            source_path: p.clone(),
                        };
                        out.push(plan);
                        proof {
                            assert(plan_pairs(out@) =~= plan_pairs(pre_out).push(
                                (
                                    p@.subrange(dir@.len() as int + 1, p@.len() as int),
                                    p@,
                                ),
                            ));
                            match zip_select(dir@, pattern@, entries@, ovs, i + 1) {
                                Some(rest) => {
                                    assert(plan_pairs(pre_out) + (seq![
                                        (p@.subrange(dir@.len() as int + 1, p@.len() as int), p@),
                                    ] + rest) =~= plan_pairs(out@) + rest);
                                },
                                None => {},
                            }
                        }
                    }
                }
            },
        }
        i += 1;
    }
    Ok(out)
}

/// The pattern a directory archive filters with: lowercased, and wrapped
/// into `*…*` when it carries no wildcard of its own.
pub open spec fn spec_dir_pattern(pattern: Seq<char>) -> Seq<char> {
    if has_char(pattern, '*') {
        lower_of(pattern)
    } else {
        "*"@ + lower_of(pattern) + "*"@
    }
}

/// The pattern a directory archive filters with.
fn wrap_dir_pattern(pattern: &str) -> (r: String)
    ensures
        r@ == spec_dir_pattern(pattern@),
{
    let v = str_to_chars(pattern);
    let lowered = to_lowercase(pattern);
    if contains_char(&v, '*') {
        lowered
    } else {
        let mut out = String::from_str("*");
        out.append(lowered.as_str());
        out.append("*");
        out
    }
}

/// The report for a completed multi-file archive.
pub open spec fn spec_zip_files_message(
    count: int,
    target: Seq<char>,
    size_text: Seq<char>,
) -> Seq<char> {
    "Successfully compressed "@ + dec_digits(count) + (if count == 1 {
        " file"@
    } else {
        " files"@
    }) + " into '"@ + target + "' ("@ + size_text + ")."@
}

/// The report for a completed multi-file archive.
pub fn zip_files_message(count: usize, target: &str, size_text: &str) -> (r: String)
    ensures
        r@ == spec_zip_files_message(count as int, target@, size_text@),
{
    let mut out = String::from_str("Successfully compressed ");
    let digits = chars_to_string(&u64_to_dec(count as u64));
    out.append(digits.as_str());
    out.append(
        if count == 1 {
            " file"
        } else {
            " files"
        },
    );
    out.append(" into '");
    out.append(target);
    out.append("' (");
    out.append(size_text);
    out.append(").");
    out
}

/// The report for a completed directory archive.
pub open spec fn spec_zip_directory_message(
    input_dir: Seq<char>,
    target: Seq<char>,
    size_text: Seq<char>,
) -> Seq<char> {
    "Successfully compressed '"@ + input_dir + "' directory into '"@ + target + "' ("@ + size_text
        + ")."@
}

/// The report for a completed directory archive.
pub fn zip_directory_message(input_dir: &str, target: &str, size_text: &str) -> (r: String)
    ensures
        r@ == spec_zip_directory_message(input_dir@, target@, size_text@),
{
    let mut out = String::from_str("Successfully compressed '");
    out.append(input_dir);
    out.append("' directory into '");
    out.append(target);
    out.append("' (");
    out.append(size_text);
    out.append(").");
    out
}

/// The report for a completed extraction.
pub open spec fn spec_unzip_message(count: int, target_dir: Seq<char>) -> Seq<char> {
    "Successfully extracted "@ + dec_digits(count) + (if count == 1 {
        " file"@
    } else {
        " files"@
    }) + " into '"@ + target_dir + "'."@
}

/// The report for a completed extraction.
pub fn unzip_message(count: usize, target_dir: &str) -> (r: String)
    ensures
        r@ == spec_unzip_message(count as int, target_dir@),
{
    let mut out = String::from_str("Successfully extracted ");
    let digits = chars_to_string(&u64_to_dec(count as u64));
    out.append(digits.as_str());
    out.append(
        if count == 1 {
            " file"
        } else {
            " files"
        },
    );
    out.append(" into '");
    out.append(target_dir);
    out.append("'.");
    out
}

impl FileSystemService {
    /// Plans an archive of the given files: every source and the target
    /// pass the containment guard, the target must not already exist,
    /// the file list must not be empty, and each entry is stored under
    /// its source's base name.
    pub fn zip_files(&self, input_files: &Vec<String>, target_zip_file: &str) -> (r: Result<
        ZipPlan,
        ServiceError,
    >)
        ensures
            (input_files@.len() == 0) <==> (r matches Err(e) && e matches
            ServiceError::InvalidInput(m) && m@
                == "No file(s) to zip. The input files array is empty."@),
            r matches Err(e) ==> (e matches ServiceError::FromString(_) || e matches
                ServiceError::Io(_) || e matches ServiceError::AlreadyExists(_) || e matches
                ServiceError::InvalidInput(_)),
            r matches Ok(plan) ==> {
                &&& input_files@.len() >= 1
                &&& plan.target@ == self.spec_absolute(target_zip_file@)
                &&& plan.entries@.len() == input_files@.len()
                &&& forall|k: int|
                    0 <= k < input_files@.len() ==> {
                        let src = self.spec_absolute(input_files@[k]@);
                        (#[trigger] plan.entries@[k]).source_path@ == src
                            && plan.entries@[k].archive_name@ == base_name(src) && base_name_ok(
                            src,
                        )
                    }
            },
    {
        if input_files.len() == 0 {
            return Err(
                ServiceError::InvalidInput(
                    String::from_str("No file(s) to zip. The input files array is empty."),
                ),
            );
        }
        let target_path = match self.validate_path(target_zip_file) {
            Ok(p) => p,
            Err(e) => {
                return Err(e);
            },
        };
        if let Err(e) = ensure_target_absent(target_zip_file, path_exists(target_path.as_str())) {
            return Err(e);
        }
        let n = input_files.len();
        let mut entries: Vec<ZipEntryPlan> = Vec::new();
        let mut i: usize = 0;
        while i < n
            invariant
                1 <= n,
                i <= n,
                n == input_files@.len(),
                entries@.len() == i,
                forall|k: int|
                    0 <= k < i ==> {
                        let src = self.spec_absolute(input_files@[k]@);
                        (#[trigger] entries@[k]).source_path@ == src
                            && entries@[k].archive_name@ == base_name(src) && base_name_ok(src)
                    },
            decreases n - i,
        {
            let source = match self.validate_path(input_files[i].as_str()) {
                Ok(p) => p,
                Err(e) => {
                    return Err(e);
                },
            };
            let archive_name = match checked_base_name(source.as_str()) {
                Some(b) => b,
                None => {
                    proof {
                        reveal_strlit("Invalid path!");
                        reveal_strlit("No file(s) to zip. The input files array is empty.");
                        assert("Invalid path!"@.len() != "No file(s) to zip. The input files array is empty."@.len());
                    }
                    return Err(ServiceError::InvalidInput(String::from_str("Invalid path!")));
                },
            };
            entries.push(ZipEntryPlan { archive_name, source_path: source });
            i += 1;
        }
        Ok(ZipPlan { target: target_path, entries })
    }

    /// Plans an archive of a directory tree: the directory and the target
    /// pass the containment guard, the target must not already exist, and
    /// the walked entries are filtered case-insensitively by the pattern
    /// and validated one by one, invalid ones skipped silently.  Every
    /// planned name stays inside the archive root.
    pub fn zip_directory(
        &self,
        input_dir: &str,
        pattern: &str,
        target_zip_file: &str,
    ) -> (r: Result<ZipPlan, ServiceError>)
        ensures
            r matches Ok(plan) ==> {
                let dir = self.spec_absolute(input_dir@);
                &&& plan.target@ == self.spec_absolute(target_zip_file@)
                &&& forall|k: int|
                    0 <= k < plan.entries@.len() ==> {
                        let source = (#[trigger] plan.entries@[k]).source_path@;
                        &&& is_prefix(dir, source)
                        &&& source.len() > dir.len()
                        &&& plan.entries@[k].archive_name@ == source.subrange(
                            dir.len() as int + 1,
                            source.len() as int,
                        )
                        &&& valid_archive_name(plan.entries@[k].archive_name@)
                    }
            },
            r matches Err(e) ==> (e matches ServiceError::FromString(_) || e matches
                ServiceError::Io(_) || e matches ServiceError::AlreadyExists(_) || e matches
                ServiceError::Pattern(_) || e matches ServiceError::InvalidInput(_)),
            r matches Err(e) ==> (e matches ServiceError::Pattern(_) ==> !glob_acceptable(
                spec_dir_pattern(pattern@),
            )),
    {
        let valid_dir_path = match self.validate_path(input_dir) {
            Ok(p) => p,
            Err(e) => {
                return Err(e);
            },
        };
        let target_path = match self.validate_path(target_zip_file) {
            Ok(p) => p,
            Err(e) => {
                return Err(e);
            },
        };
        if let Err(e) = ensure_target_absent(target_zip_file, path_exists(target_path.as_str())) {
            return Err(e);
        }
        let wrapped = wrap_dir_pattern(pattern);
        if let Some(description) = glob_compile_error(wrapped.as_str()) {
            return Err(ServiceError::Pattern(description));
        }
        let entries = walk_dir(valid_dir_path.as_str());
        let n = entries.len();
        let mut valids: Vec<Option<String>> = Vec::new();
        let mut i: usize = 0;
        while i < n
            invariant
                i <= n,
                n == entries@.len(),
                valids@.len() == i,
            decreases n - i,
        {
            let verdict = match self.validate_path(entries[i].path.as_str()) {
                Ok(p) => Some(p),
                Err(_) => None,
            };
            valids.push(verdict);
            i += 1;
        }
        let plans = match plan_zip_entries(&valid_dir_path, &wrapped, &entries, &valids) {
            Ok(plans) => plans,
            Err(e) => {
                return Err(e);
            },
        };
        proof {
            assert(zip_select(valid_dir_path@, wrapped@, entries@, opt_str_views(valids@), 0)
                == Some(plan_pairs(plans@)));
            lemma_zip_select_sound(
                valid_dir_path@,
                wrapped@,
                entries@,
                opt_str_views(valids@),
                0,
                plan_pairs(plans@),
            );
            assert(valid_dir_path@ == self.spec_absolute(input_dir@));
            assert(plan_pairs(plans@).len() == plans@.len());
            assert forall|k: int| 0 <= k < plans@.len() implies {
                let source = (#[trigger] plans@[k]).source_path@;
                &&& is_prefix(self.spec_absolute(input_dir@), source)
                &&& source.len() > self.spec_absolute(input_dir@).len()
                &&& plans@[k].archive_name@ == source.subrange(
                    self.spec_absolute(input_dir@).len() as int + 1,
                    source.len() as int,
                )
                &&& valid_archive_name(plans@[k].archive_name@)
            } by {
                let pairs = plan_pairs(plans@);
                assert(pairs[k] == (plans@[k].archive_name@, plans@[k].source_path@));
                assert(is_prefix(valid_dir_path@, pairs[k].1) && pairs[k].1.len()
                    > valid_dir_path@.len() && pairs[k].0 == pairs[k].1.subrange(
                    valid_dir_path@.len() as int + 1,
                    pairs[k].1.len() as int,
                ) && valid_archive_name(pairs[k].0));
            }
        }
        Ok(ZipPlan { target: target_path, entries: plans })
    }

    /// Plans an extraction: both paths pass the containment guard, and
    /// the existence checks go through `unzip_preconditions`, whose
    /// contract says exactly which error each probe outcome yields.
    pub fn unzip_file(&self, zip_file: &str, target_dir: &str) -> (r: Result<
        UnzipPlan,
        ServiceError,
    >)
        ensures
            r matches Ok(plan) ==> plan.zip_path@ == self.spec_absolute(zip_file@)
                && plan.target_dir@ == self.spec_absolute(target_dir@),
            r matches Err(e) ==> (e matches ServiceError::FromString(_) || e matches
                ServiceError::Io(_) || e matches ServiceError::NotFound(_) || e matches
                ServiceError::AlreadyExists(_)),
            r matches Err(e) ==> (e matches ServiceError::NotFound(m) ==> m@
                == "Zip file does not exists."@),
            r matches Err(e) ==> (e matches ServiceError::AlreadyExists(m) ==> m@ == "'"@
                + target_dir@ + "' directory already exists!"@),
    {
        let zip_path = match self.validate_path(zip_file) {
            Ok(p) => p,
            Err(e) => {
                return Err(e);
            },
        };
        let target_dir_path = match self.validate_path(target_dir) {
            Ok(p) => p,
            Err(e) => {
                return Err(e);
            },
        };
        let zip_exists = path_exists(zip_path.as_str());
        let target_exists = path_exists(target_dir_path.as_str());
        if let Err(e) = unzip_preconditions(zip_exists, target_dir, target_exists) {
            return Err(e);
        }
        Ok(UnzipPlan { zip_path, target_dir: target_dir_path })
    }
}

} // verus!

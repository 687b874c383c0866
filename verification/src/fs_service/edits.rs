//! The text edit engine.
//!
//! A batch of replacements is applied to one piece of content, strictly
//! in order, each against the result of the previous one.  An edit whose
//! old text occurs verbatim replaces its first occurrence; otherwise a
//! whitespace-tolerant line match is attempted, re-indenting the
//! replacement to the indentation found in the content.  An edit that
//! matches neither way fails the whole batch.

use crate::error::ServiceError;
use crate::fs_service::utils::has_crlf;
use crate::fs_service::utils::norm_newlines;
use crate::fs_service::utils::normalize_newline_chars;
use crate::fs_service::utils::spec_line_ending;
use crate::fs_service::utils::spec_restore;
use crate::text::contains_char;
use crate::text::copy_range;
use crate::text::eq_chars;
use crate::text::extend_range;
use crate::text::find_first;
use crate::text::find_from;
use crate::text::has_char;
use crate::text::join_lines;
use crate::text::leading_ws;
use crate::text::leading_ws_count;
use crate::text::leading_ws_len;
use crate::text::lemma_find_from_correct;
use crate::text::lemma_leading_ws_count;
use crate::text::line_join;
use crate::text::line_split;
use crate::text::match_at;
use crate::text::occurs;
use crate::text::repeat;
use crate::text::repeat_char;
use crate::text::replace_at;
use crate::text::spec_trim;
use crate::text::spec_trim_end;
use crate::text::spec_trim_start;
use crate::text::splice;
use crate::text::split_lines;
use crate::text::str_to_chars;
use crate::text::trailing_ws_count;
use crate::text::trim;
use crate::text::trim_end;
use crate::text::trim_start;
use crate::text::views_of;
use vstd::prelude::*;
use vstd::string::*;

verus! {

/// One text replacement: the text to locate and the text replacing it.
#[derive(Debug, Clone)]
pub struct EditOperation {
    pub old_text: String,
    pub new_text: String,
}

/// Whether the window of `content_lines` starting at `i` matches
/// `old_lines` pairwise, comparing lines with whitespace trimmed away.
pub open spec fn window_matches(cl: Seq<Seq<char>>, ol: Seq<Seq<char>>, i: int) -> bool {
    0 <= i && i + ol.len() <= cl.len() && forall|j: int|
        0 <= j < ol.len() ==> spec_trim(#[trigger] ol[j]) == spec_trim(cl[i + j])
}

/// The least matching window index at or after `from`, if any.
pub open spec fn first_window_from(cl: Seq<Seq<char>>, ol: Seq<Seq<char>>, from: int) -> Option<
    int,
>
    decreases cl.len() + 1 - from,
{
    if from < 0 || from + ol.len() > cl.len() {
        None
    } else if window_matches(cl, ol, from) {
        Some(from)
    } else {
        first_window_from(cl, ol, from + 1)
    }
}

/// The character used to realize relative indentation: a tab when the
/// base indentation contains one, else a space.
pub open spec fn indent_char_of(base: Seq<char>) -> char {
    if has_char(base, '\t') {
        '\t'
    } else {
        ' '
    }
}

/// Replacement line `j`, re-indented: line zero keeps exactly the base
/// indentation; later lines keep the base indentation plus the excess of
/// their own leading whitespace over the corresponding old line's, never
/// reduced below the base.
pub open spec fn reindent_line(
    nl: Seq<Seq<char>>,
    ol: Seq<Seq<char>>,
    base: Seq<char>,
    j: int,
) -> Seq<char> {
    if j == 0 {
        base + spec_trim_start(nl[0])
    } else {
        let old_ind = if j < ol.len() {
            leading_ws_count(ol[j])
        } else {
            0
        };
        let new_ind = leading_ws_count(nl[j]);
        let rel = if new_ind >= old_ind {
            new_ind - old_ind
        } else {
            0
        };
        base + repeat_char(indent_char_of(base), rel) + spec_trim_start(nl[j])
    }
}

/// All replacement lines re-indented against the matched window.
pub open spec fn reindent(nl: Seq<Seq<char>>, ol: Seq<Seq<char>>, base: Seq<char>) -> Seq<
    Seq<char>,
> {
    Seq::new(nl.len(), |j: int| reindent_line(nl, ol, base, j))
}

/// The content after a whitespace-tolerant line replacement of `o` by
/// `n`, if some window of trimmed-equal lines exists.  Both the content
/// and the old text lose trailing whitespace before being split into
/// lines; the replacement text is split as given.
pub open spec fn fuzzy_apply(content: Seq<char>, o: Seq<char>, n: Seq<char>) -> Option<Seq<char>> {
    let cl = line_split(spec_trim_end(content));
    let ol = line_split(spec_trim_end(o));
    match first_window_from(cl, ol, 0) {
        Some(i) => {
            let fresh = reindent(line_split(n), ol, leading_ws(cl[i]));
            Some(line_join(cl.subrange(0, i) + fresh + cl.subrange(i + ol.len(), cl.len() as int)))
        },
        None => None,
    }
}

/// The content after one edit.  The old and new texts are first
/// normalized to `\n` line endings; an exact occurrence of the old text
/// is replaced at its first position, else the fuzzy line match applies,
/// else the edit fails.
pub open spec fn apply_edit(content: Seq<char>, old_raw: Seq<char>, new_raw: Seq<char>) -> Option<
    Seq<char>,
> {
    let o = norm_newlines(old_raw);
    let n = norm_newlines(new_raw);
    match find_from(content, o, 0) {
        Some(i) => Some(replace_at(content, i, o.len() as int, n)),
        None => fuzzy_apply(content, o, n),
    }
}

/// The content after the edits from index `k` on, each applied to the
/// result of the previous one; nothing if any of them fails.
pub open spec fn apply_edits_from(content: Seq<char>, edits: Seq<EditOperation>, k: int) -> Option<
    Seq<char>,
>
    decreases edits.len() - k,
{
    if k < 0 || k >= edits.len() {
        Some(content)
    } else {
        match apply_edit(content, edits[k].old_text@, edits[k].new_text@) {
            Some(next) => apply_edits_from(next, edits, k + 1),
            None => None,
        }
    }
}

/// The text that introduces the unmatched old text in a failure report.
pub open spec fn no_match_prefix() -> &'static str {
    "Could not find exact match for edit:\n"
}

/// An edit whose old text occurs verbatim in the content never falls
/// through to the whitespace-tolerant line match: it replaces exactly
/// the first occurrence of the old text, and nothing else.
pub proof fn lemma_exact_match_precedence(
    content: Seq<char>,
    old_raw: Seq<char>,
    new_raw: Seq<char>,
)
    requires
        occurs(content, norm_newlines(old_raw)),
    ensures
        match find_from(content, norm_newlines(old_raw), 0) {
            Some(i) => {
                &&& apply_edit(content, old_raw, new_raw) == Some(
                    replace_at(
                        content,
                        i,
                        norm_newlines(old_raw).len() as int,
                        norm_newlines(new_raw),
                    ),
                )
                &&& match_at(content, norm_newlines(old_raw), i)
                &&& forall|j: int| 0 <= j < i ==> !match_at(content, norm_newlines(old_raw), j)
            },
            None => false,
        },
{
    let o = norm_newlines(old_raw);
    lemma_find_from_correct(content, o, 0);
    if find_from(content, o, 0) is None {
        let w = choose|w: int| match_at(content, o, w);
        assert(!match_at(content, o, w));
    }
}

/// Whether `s` is free of carriage returns.
pub open spec fn no_cr(s: Seq<char>) -> bool {
    forall|i: int| 0 <= i < s.len() ==> s[i] != '\r'
}

/// Normalizing line endings removes every carriage return.
pub proof fn lemma_norm_no_cr(s: Seq<char>)
    ensures
        no_cr(norm_newlines(s)),
    decreases s.len(),
{
    if s.len() == 0 {
    } else if s[0] == '\r' {
        if s.len() >= 2 && s[1] == '\n' {
            lemma_norm_no_cr(s.subrange(2, s.len() as int));
        } else {
            lemma_norm_no_cr(s.drop_first());
        }
    } else {
        lemma_norm_no_cr(s.drop_first());
    }
}

/// A concatenation of carriage-return-free parts is itself free of them.
proof fn lemma_concat_no_cr(a: Seq<char>, b: Seq<char>)
    requires
        no_cr(a),
        no_cr(b),
    ensures
        no_cr(a + b),
{
    assert forall|i: int| 0 <= i < (a + b).len() implies (a + b)[i] != '\r' by {
        if i < a.len() {
            assert((a + b)[i] == a[i]);
        } else {
            assert((a + b)[i] == b[i - a.len()]);
        }
    }
}

/// A range of a carriage-return-free text is free of them.
proof fn lemma_subrange_no_cr(s: Seq<char>, a: int, b: int)
    requires
        no_cr(s),
        0 <= a <= b <= s.len(),
    ensures
        no_cr(s.subrange(a, b)),
{
}

/// The lines of a carriage-return-free text are free of them.
proof fn lemma_split_no_cr(s: Seq<char>)
    requires
        no_cr(s),
    ensures
        forall|k: int| 0 <= k < line_split(s).len() ==> no_cr(#[trigger] line_split(s)[k]),
    decreases s.len(),
{
    if s.len() == 0 {
    } else {
        assert(no_cr(s.drop_first()));
        lemma_split_no_cr(s.drop_first());
        crate::text::lemma_line_split_len(s.drop_first());
        if s[0] == '\n' {
        } else {
            let rest = line_split(s.drop_first());
            assert forall|k: int| 0 <= k < line_split(s).len() implies no_cr(
                #[trigger] line_split(s)[k],
            ) by {
                if k == 0 {
                    assert(line_split(s)[0] == seq![s[0]] + rest[0]);
                    lemma_concat_no_cr(seq![s[0]], rest[0]);
                } else {
                    assert(line_split(s)[k] == rest[k]);
                }
            }
        }
    }
}

/// Joining carriage-return-free lines yields carriage-return-free text.
proof fn lemma_join_no_cr(ls: Seq<Seq<char>>)
    requires
        forall|k: int| 0 <= k < ls.len() ==> no_cr(#[trigger] ls[k]),
    ensures
        no_cr(line_join(ls)),
    decreases ls.len(),
{
    if ls.len() == 0 {
    } else if ls.len() == 1 {
    } else {
        assert forall|k: int| 0 <= k < ls.drop_first().len() implies no_cr(
            #[trigger] ls.drop_first()[k],
        ) by {
            assert(ls.drop_first()[k] == ls[k + 1]);
        }
        lemma_join_no_cr(ls.drop_first());
        lemma_concat_no_cr(ls[0], seq!['\n']);
        lemma_concat_no_cr(ls[0] + seq!['\n'], line_join(ls.drop_first()));
    }
}

/// A found window index lies within the line range.
proof fn lemma_first_window_bounds(cl: Seq<Seq<char>>, ol: Seq<Seq<char>>, from: int)
    ensures
        match first_window_from(cl, ol, from) {
            Some(i) => from <= i && 0 <= i && i + ol.len() <= cl.len(),
            None => true,
        },
    decreases cl.len() + 1 - from,
{
    if from < 0 || from + ol.len() > cl.len() {
    } else if window_matches(cl, ol, from) {
    } else {
        lemma_first_window_bounds(cl, ol, from + 1);
    }
}

/// Re-indented replacement lines are free of carriage returns when the
/// replacement text and the base indentation are.
proof fn lemma_reindent_no_cr(nl: Seq<Seq<char>>, ol: Seq<Seq<char>>, base: Seq<char>)
    requires
        forall|k: int| 0 <= k < nl.len() ==> no_cr(#[trigger] nl[k]),
        no_cr(base),
    ensures
        forall|j: int|
            0 <= j < reindent(nl, ol, base).len() ==> no_cr(#[trigger] reindent(nl, ol, base)[j]),
{
    assert forall|j: int| 0 <= j < reindent(nl, ol, base).len() implies no_cr(
        #[trigger] reindent(nl, ol, base)[j],
    ) by {
        crate::text::lemma_leading_ws_count(nl[j]);
        if j == 0 {
            lemma_subrange_no_cr(nl[0], leading_ws_count(nl[0]), nl[0].len() as int);
            lemma_concat_no_cr(base, spec_trim_start(nl[0]));
        } else {
            let ic = indent_char_of(base);
            let old_ind = if j < ol.len() {
                leading_ws_count(ol[j])
            } else {
                0
            };
            let new_ind = leading_ws_count(nl[j]);
            let rel = if new_ind >= old_ind {
                new_ind - old_ind
            } else {
                0
            };
            assert(ic != '\r');
            assert(no_cr(repeat_char(ic, rel)));
            lemma_subrange_no_cr(nl[j], leading_ws_count(nl[j]), nl[j].len() as int);
            lemma_concat_no_cr(base, repeat_char(ic, rel));
            lemma_concat_no_cr(base + repeat_char(ic, rel), spec_trim_start(nl[j]));
        }
    }
}

/// One edit applied to carriage-return-free content yields
/// carriage-return-free content.
proof fn lemma_apply_edit_no_cr(content: Seq<char>, old_raw: Seq<char>, new_raw: Seq<char>)
    requires
        no_cr(content),
    ensures
        match apply_edit(content, old_raw, new_raw) {
            Some(c2) => no_cr(c2),
            None => true,
        },
{
    let o = norm_newlines(old_raw);
    let n = norm_newlines(new_raw);
    lemma_norm_no_cr(new_raw);
    match find_from(content, o, 0) {
        Some(i) => {
            lemma_find_from_correct(content, o, 0);
            lemma_subrange_no_cr(content, 0, i);
            lemma_subrange_no_cr(content, i + o.len(), content.len() as int);
            lemma_concat_no_cr(content.subrange(0, i), n);
            lemma_concat_no_cr(
                content.subrange(0, i) + n,
                content.subrange(i + o.len(), content.len() as int),
            );
        },
        None => {
            let ct = spec_trim_end(content);
            crate::text::lemma_trailing_ws_count(content);
            lemma_subrange_no_cr(content, 0, content.len() - trailing_ws_count(content));
            let cl = line_split(ct);
            let ol = line_split(spec_trim_end(o));
            lemma_split_no_cr(ct);
            match first_window_from(cl, ol, 0) {
                Some(i) => {
                    lemma_first_window_bounds(cl, ol, 0);
                    let base = leading_ws(cl[i]);
                    crate::text::lemma_leading_ws_count(cl[i]);
                    lemma_subrange_no_cr(cl[i], 0, leading_ws_count(cl[i]));
                    lemma_split_no_cr(n);
                    let fresh = reindent(line_split(n), ol, base);
                    lemma_reindent_no_cr(line_split(n), ol, base);
                    let combined = cl.subrange(0, i) + fresh + cl.subrange(
                        i + ol.len(),
                        cl.len() as int,
                    );
                    assert forall|k: int| 0 <= k < combined.len() implies no_cr(
                        #[trigger] combined[k],
                    ) by {
                        if k < i {
                            assert(combined[k] == cl[k]);
                        } else if k < i + fresh.len() {
                            assert(combined[k] == fresh[k - i]);
                        } else {
                            assert(combined[k] == cl.subrange(i + ol.len(), cl.len() as int)[k - i
                                - fresh.len()]);
                        }
                    }
                    lemma_join_no_cr(combined);
                },
                None => {},
            }
        },
    }
}

/// A whole batch applied to carriage-return-free content yields
/// carriage-return-free content.
pub proof fn lemma_apply_edits_no_cr(content: Seq<char>, edits: Seq<EditOperation>, k: int)
    requires
        no_cr(content),
    ensures
        match apply_edits_from(content, edits, k) {
            Some(u) => no_cr(u),
            None => true,
        },
    decreases edits.len() - k,
{
    if k < 0 || k >= edits.len() {
    } else {
        lemma_apply_edit_no_cr(content, edits[k].old_text@, edits[k].new_text@);
        match apply_edit(content, edits[k].old_text@, edits[k].new_text@) {
            Some(next) => {
                lemma_apply_edits_no_cr(next, edits, k + 1);
            },
            None => {},
        }
    }
}

/// Restoring a carriage-return-free text to `\r\n` form yields text
/// that uses `\r\n` throughout: every newline directly follows a
/// carriage return, and every carriage return is directly followed by a
/// newline.
proof fn lemma_restore_crlf(u: Seq<char>)
    requires
        no_cr(u),
    ensures
        ({
            let out = spec_restore(u, seq!['\r', '\n']);
            &&& (forall|i: int|
                0 <= i < out.len() && #[trigger] out[i] == '\n' ==> i >= 1 && out[i - 1] == '\r')
            &&& (forall|i: int|
                0 <= i < out.len() && #[trigger] out[i] == '\r' ==> i + 1 < out.len() && out[i
                    + 1] == '\n')
        }),
    decreases u.len(),
{
    let e = seq!['\r', '\n'];
    let out = spec_restore(u, e);
    if u.len() == 0 {
    } else {
        assert(no_cr(u.drop_first()));
        lemma_restore_crlf(u.drop_first());
        let rec = spec_restore(u.drop_first(), e);
        if u[0] == '\n' {
            assert(out == e + rec);
            assert forall|i: int| 0 <= i < out.len() && #[trigger] out[i] == '\n' implies i >= 1
                && out[i - 1] == '\r' by {
                if i >= 2 {
                    assert(out[i] == rec[i - 2]);
                    assert(rec[i - 2] == '\n' ==> i - 2 >= 1 && rec[i - 3] == '\r');
                    assert(out[i - 1] == rec[i - 3]);
                }
            }
            assert forall|i: int| 0 <= i < out.len() && #[trigger] out[i] == '\r' implies i + 1
                < out.len() && out[i + 1] == '\n' by {
                if i >= 2 {
                    assert(out[i] == rec[i - 2]);
                    assert(out[i + 1] == rec[i - 1]);
                }
            }
        } else {
            assert(out == seq![u[0]] + rec);
            assert(u[0] != '\r');
            assert forall|i: int| 0 <= i < out.len() && #[trigger] out[i] == '\n' implies i >= 1
                && out[i - 1] == '\r' by {
                if i >= 1 {
                    assert(out[i] == rec[i - 1]);
                    if i == 1 {
                        assert(rec[0] != '\n');
                    } else {
                        assert(out[i - 1] == rec[i - 2]);
                    }
                }
            }
            assert forall|i: int| 0 <= i < out.len() && #[trigger] out[i] == '\r' implies i + 1
                < out.len() && out[i + 1] == '\n' by {
                if i >= 1 {
                    assert(out[i] == rec[i - 1]);
                    assert(out[i + 1] == rec[i]);
                }
            }
        }
    }
}

/// Editing content whose dominant line ending is `\r\n` produces output
/// in `\r\n` form throughout, whatever line endings the edit texts used:
/// in the written-back content, every newline directly follows a
/// carriage return and every carriage return is directly followed by a
/// newline.
pub proof fn lemma_crlf_preserved(
    content: Seq<char>,
    edits: Seq<EditOperation>,
    updated: Seq<char>,
)
    requires
        has_crlf(content),
        apply_edits_from(norm_newlines(content), edits, 0) == Some(updated),
    ensures
        ({
            let out = spec_restore(updated, spec_line_ending(content));
            &&& (forall|i: int|
                0 <= i < out.len() && #[trigger] out[i] == '\n' ==> i >= 1 && out[i - 1] == '\r')
            &&& (forall|i: int|
                0 <= i < out.len() && #[trigger] out[i] == '\r' ==> i + 1 < out.len() && out[i
                    + 1] == '\n')
        }),
{
    lemma_norm_no_cr(content);
    lemma_apply_edits_no_cr(norm_newlines(content), edits, 0);
    assert(spec_line_ending(content) == seq!['\r', '\n']);
    lemma_restore_crlf(updated);
}

/// Whether window `i` matches, comparing each line pair after trimming.
fn window_match_at(cl: &Vec<Vec<char>>, ol: &Vec<Vec<char>>, i: usize) -> (r: bool)
    requires
        i + ol@.len() <= cl@.len(),
    ensures
        r == window_matches(views_of(cl@), views_of(ol@), i as int),
{
    let n = ol.len();
    let cn = cl.len();
    let mut j: usize = 0;
    while j < n
        invariant
            j <= n,
            n == ol@.len(),
            cn == cl@.len(),
            i + n <= cn,
            forall|k: int|
                0 <= k < j ==> spec_trim(#[trigger] views_of(ol@)[k]) == spec_trim(
                    views_of(cl@)[i + k],
                ),
        decreases n - j,
    {
        let to = trim(&ol[j]);
        let tc = trim(&cl[i + j]);
        if !eq_chars(&to, &tc) {
            assert(spec_trim(views_of(ol@)[j as int]) != spec_trim(views_of(cl@)[i + j]));
            return false;
        }
        j += 1;
    }
    true
}

/// Builds the replacement window: each line of `fresh` re-indented
/// against `ol` with base indentation `base`.
fn reindent_lines(fresh: &Vec<Vec<char>>, ol: &Vec<Vec<char>>, base: &Vec<char>) -> (r: Vec<
    Vec<char>,
>)
    ensures
        views_of(r@) == reindent(views_of(fresh@), views_of(ol@), base@),
{
    let n = fresh.len();
    let tab = contains_char(base, '\t');
    let ic: char = if tab {
        '\t'
    } else {
        ' '
    };
    let mut out: Vec<Vec<char>> = Vec::new();
    let mut j: usize = 0;
    while j < n
        invariant
            j <= n,
            n == fresh@.len(),
            out@.len() == j,
            ic == indent_char_of(base@),
            forall|k: int|
                0 <= k < j ==> (#[trigger] out@[k])@ == reindent_line(
                    views_of(fresh@),
                    views_of(ol@),
                    base@,
                    k,
                ),
        decreases n - j,
    {
        let line = &fresh[j];
        let mut built = copy_range(base, 0, base.len());
        proof {
            assert(base@.subrange(0, base@.len() as int) =~= base@);
        }
        if j == 0 {
            let tail = trim_start(line);
            extend_range(&mut built, &tail, 0, tail.len());
            proof {
                assert(tail@.subrange(0, tail@.len() as int) =~= tail@);
            }
        } else {
            let old_ind: usize = if j < ol.len() {
                proof {
                    lemma_leading_ws_count(ol@[j as int]@);
                }
                leading_ws_len(&ol[j])
            } else {
                0
            };
            let new_ind = leading_ws_len(line);
            let rel: usize = if new_ind >= old_ind {
                new_ind - old_ind
            } else {
                0
            };
            let pad = repeat(ic, rel);
            extend_range(&mut built, &pad, 0, pad.len());
            let tail = trim_start(line);
            extend_range(&mut built, &tail, 0, tail.len());
            proof {
                assert(pad@.subrange(0, pad@.len() as int) =~= pad@);
                assert(tail@.subrange(0, tail@.len() as int) =~= tail@);
            }
        }
        out.push(built);
        j += 1;
    }
    proof {
        assert(views_of(out@) =~= reindent(views_of(fresh@), views_of(ol@), base@));
    }
    out
}

/// Applies the whitespace-tolerant line replacement of `o` by `n`.
fn fuzzy_replace(content: &Vec<char>, o: &Vec<char>, n: &Vec<char>) -> (r: Option<Vec<char>>)
    ensures
        match r {
            Some(c2) => fuzzy_apply(content@, o@, n@) == Some(c2@),
            None => fuzzy_apply(content@, o@, n@) is None,
        },
{
    let ct = trim_end(content);
    let cl = split_lines(&ct);
    let ot = trim_end(o);
    let ol = split_lines(&ot);
    let ghost clv = views_of(cl@);
    let ghost olv = views_of(ol@);
    let cln = cl.len();
    let oln = ol.len();
    if oln > cln {
        assert(first_window_from(clv, olv, 0) is None);
        return None;
    }
    let mut i: usize = 0;
    while i <= cln - oln
        invariant
            cln == cl@.len(),
            oln == ol@.len(),
            clv == views_of(cl@),
            olv == views_of(ol@),
            ct@ == spec_trim_end(content@),
            ot@ == spec_trim_end(o@),
            clv == line_split(spec_trim_end(content@)),
            olv == line_split(spec_trim_end(o@)),
            1 <= oln <= cln,
            i <= cln - oln + 1,
            first_window_from(clv, olv, 0) == first_window_from(clv, olv, i as int),
        decreases cln - oln + 1 - i,
    {
        if window_match_at(&cl, &ol, i) {
            assert(first_window_from(clv, olv, i as int) == Some(i as int));
            let lw = {
                proof {
                    lemma_leading_ws_count(cl@[i as int]@);
                }
                leading_ws_len(&cl[i])
            };
            let base = copy_range(&cl[i], 0, lw);
            assert(base@ == leading_ws(clv[i as int]));
            let fresh_src = split_lines(n);
            let fresh = reindent_lines(&fresh_src, &ol, &base);
            let mut out_lines: Vec<Vec<char>> = Vec::new();
            let mut k: usize = 0;
            while k < i
                invariant
                    k <= i,
                    i + oln <= cln,
                    cln == cl@.len(),
                    out_lines@.len() == k,
                    forall|t: int| 0 <= t < k ==> (#[trigger] out_lines@[t])@ == views_of(cl@)[t],
                decreases i - k,
            {
                let copied = copy_range(&cl[k], 0, cl[k].len());
                proof {
                    assert(cl@[k as int]@.subrange(0, cl@[k as int]@.len() as int) =~= cl@[
                        k as int
                    ]@);
                }
                out_lines.push(copied);
                k += 1;
            }
            let fresh_len = fresh.len();
            let mut t: usize = 0;
            while t < fresh_len
                invariant
                    t <= fresh_len,
                    fresh_len == fresh@.len(),
                    i + oln <= cln,
                    cln == cl@.len(),
                    out_lines@.len() == i + t,
                    forall|u: int| 0 <= u < i ==> (#[trigger] out_lines@[u])@ == views_of(cl@)[u],
                    forall|u: int|
                        i <= u < i + t ==> (#[trigger] out_lines@[u])@ == views_of(fresh@)[u - i],
                decreases fresh_len - t,
            {
                let copied = copy_range(&fresh[t], 0, fresh[t].len());
                proof {
                    assert(fresh@[t as int]@.subrange(0, fresh@[t as int]@.len() as int) =~= fresh@[
                        t as int
                    ]@);
                }
                out_lines.push(copied);
                t += 1;
            }
            let mut k2: usize = i + oln;
            while k2 < cln
                invariant
                    i + oln <= k2 <= cln,
                    cln == cl@.len(),
                    fresh_len == fresh@.len(),
                    out_lines@.len() == fresh_len + k2 - oln,
                    forall|u: int| 0 <= u < i ==> (#[trigger] out_lines@[u])@ == views_of(cl@)[u],
                    forall|u: int|
                        i <= u < i + fresh_len ==> (#[trigger] out_lines@[u])@ == views_of(
                            fresh@,
                        )[u - i],
                    forall|u: int|
                        i + fresh_len <= u < out_lines@.len() ==> (#[trigger] out_lines@[u])@
                            == views_of(cl@)[u - fresh_len + oln],
                decreases cln - k2,
            {
                let copied = copy_range(&cl[k2], 0, cl[k2].len());
                proof {
                    assert(cl@[k2 as int]@.subrange(0, cl@[k2 as int]@.len() as int) =~= cl@[
                        k2 as int
                    ]@);
                }
                out_lines.push(copied);
                k2 += 1;
            }
            proof {
                assert(out_lines@.len() == cln - oln + fresh_len);
                assert(views_of(fresh@) == reindent(views_of(fresh_src@), olv, base@));
                assert(views_of(out_lines@) =~= clv.subrange(0, i as int) + reindent(
                    views_of(fresh_src@),
                    olv,
                    base@,
                ) + clv.subrange(i + oln, cln as int));
            }
            let joined = join_lines(&out_lines);
            return Some(joined);
        }
        assert(first_window_from(clv, olv, i as int) == first_window_from(clv, olv, i + 1));
        i += 1;
    }
    assert(first_window_from(clv, olv, i as int) is None);
    None
}

/// Applies one edit to the (already normalized) content.
fn apply_one(content: &Vec<char>, edit: &EditOperation) -> (r: Option<Vec<char>>)
    ensures
        match r {
            Some(c2) => apply_edit(content@, edit.old_text@, edit.new_text@) == Some(c2@),
            None => apply_edit(content@, edit.old_text@, edit.new_text@) is None,
        },
{
    let old_raw = str_to_chars(edit.old_text.as_str());
    let new_raw = str_to_chars(edit.new_text.as_str());
    let old_n = normalize_newline_chars(&old_raw);
    let new_n = normalize_newline_chars(&new_raw);
    match find_first(content, &old_n) {
        Some(i) => {
            proof {
                lemma_find_from_correct(content@, old_n@, 0);
            }
            Some(splice(content, i, old_n.len(), &new_n))
        },
        None => fuzzy_replace(content, &old_n, &new_n),
    }
}

/// Applies every edit in order to `content`.  Succeeds exactly when each
/// edit matches, returning the final content; a failing edit aborts the
/// batch and reports its unmatched old text.
pub fn apply_edit_batch(content: &Vec<char>, edits: &Vec<EditOperation>) -> (r: Result<
    Vec<char>,
    ServiceError,
>)
    ensures
        match r {
            Ok(c2) => apply_edits_from(content@, edits@, 0) == Some(c2@),
            Err(e) => apply_edits_from(content@, edits@, 0) is None && (e matches
            ServiceError::NoMatch(m) && exists|k: int|
                0 <= k < edits@.len() && m@ == no_match_prefix()@ + edits@[k].old_text@),
        },
{
    let n = edits.len();
    let mut cur = copy_range(content, 0, content.len());
    proof {
        assert(content@.subrange(0, content@.len() as int) =~= content@);
    }
    let mut k: usize = 0;
    while k < n
        invariant
            k <= n,
            n == edits@.len(),
            apply_edits_from(content@, edits@, 0) == apply_edits_from(cur@, edits@, k as int),
        decreases n - k,
    {
        match apply_one(&cur, &edits[k]) {
            Some(next) => {
                cur = next;
            },
            None => {
                let mut msg = String::from_str("Could not find exact match for edit:\n");
                msg.append(edits[k].old_text.as_str());
                return Err(ServiceError::NoMatch(msg));
            },
        }
        k += 1;
    }
    Ok(cur)
}

} // verus!

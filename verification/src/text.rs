//! Character-sequence utilities: substring search, first-occurrence
//! replacement, whitespace trimming, line splitting and joining.
//!
//! Executable code works on `Vec<char>`, whose view is the same
//! `Seq<char>` that `String` and `&str` present, so the contracts here
//! compose directly with string-level contracts elsewhere.

use vstd::prelude::*;
use vstd::string::*;

verus! {

/// The characters of `s`, as a vector.
pub fn str_to_chars(s: &str) -> (r: Vec<char>)
    ensures
        r@ == s@,
{
    let n = s.unicode_len();
    let mut out: Vec<char> = Vec::new();
    let mut i: usize = 0;
    while i < n
        invariant
            i <= n,
            n == s@.len(),
            out@ == s@.subrange(0, i as int),
        decreases n - i,
    {
        out.push(s.get_char(i));
        assert(out@ =~= s@.subrange(0, i + 1));
        i += 1;
    }
    assert(s@.subrange(0, n as int) =~= s@);
    out
}

/// Relies on `String`'s `FromIterator` over `char`: collecting the
/// characters of `v` yields the string of exactly those characters,
/// in order.
#[verifier::external_body]
pub fn chars_to_string(v: &Vec<char>) -> (s: String)
    ensures
        s@ == v@,
{
    v.iter().collect()
}

/// Whether `c` is a whitespace character (the Unicode `White_Space` set).
pub open spec fn spec_is_ws(c: char) -> bool {
    let u = c as u32;
    u == 0x20 || u == 0x09 || u == 0x0A || u == 0x0B || u == 0x0C || u == 0x0D || u == 0x85
        || u == 0xA0 || u == 0x1680 || (0x2000 <= u && u <= 0x200A) || u == 0x2028 || u == 0x2029
        || u == 0x202F || u == 0x205F || u == 0x3000
}

/// Whether `c` is a whitespace character.
pub fn is_ws(c: char) -> (r: bool)
    ensures
        r == spec_is_ws(c),
{
    let u = c as u32;
    u == 0x20 || u == 0x09 || u == 0x0A || u == 0x0B || u == 0x0C || u == 0x0D || u == 0x85
        || u == 0xA0 || u == 0x1680 || (0x2000 <= u && u <= 0x200A) || u == 0x2028 || u == 0x2029
        || u == 0x202F || u == 0x205F || u == 0x3000
}

/// Whether `needle` occurs in `hay` starting at index `i`.
pub open spec fn match_at(hay: Seq<char>, needle: Seq<char>, i: int) -> bool {
    0 <= i && i + needle.len() <= hay.len() && hay.subrange(i, i + needle.len()) == needle
}

/// Whether `needle` occurs anywhere in `hay`.
pub open spec fn occurs(hay: Seq<char>, needle: Seq<char>) -> bool {
    exists|i: int| match_at(hay, needle, i)
}

/// The least index `>= from` at which `needle` occurs in `hay`, if any.
pub open spec fn find_from(hay: Seq<char>, needle: Seq<char>, from: int) -> Option<int>
    decreases hay.len() + 1 - from,
{
    if from < 0 || from + needle.len() > hay.len() {
        None
    } else if match_at(hay, needle, from) {
        Some(from)
    } else {
        find_from(hay, needle, from + 1)
    }
}

/// `hay` with the `old_len` characters starting at `i` replaced by `new`.
pub open spec fn replace_at(hay: Seq<char>, i: int, old_len: int, new: Seq<char>) -> Seq<char> {
    hay.subrange(0, i) + new + hay.subrange(i + old_len, hay.len() as int)
}

/// A found index is a real occurrence, and the least one at or after `from`.
pub proof fn lemma_find_from_correct(hay: Seq<char>, needle: Seq<char>, from: int)
    requires
        0 <= from,
    ensures
        match find_from(hay, needle, from) {
            Some(i) => match_at(hay, needle, i) && from <= i && forall|j: int|
                from <= j < i ==> !match_at(hay, needle, j),
            None => forall|j: int| from <= j ==> !match_at(hay, needle, j),
        },
    decreases hay.len() + 1 - from,
{
    if from + needle.len() > hay.len() {
    } else if match_at(hay, needle, from) {
    } else {
        lemma_find_from_correct(hay, needle, from + 1);
    }
}

/// Compares `hay[i .. i + needle.len()]` with `needle`.
pub fn eq_at(hay: &Vec<char>, needle: &Vec<char>, i: usize) -> (r: bool)
    requires
        i + needle@.len() <= hay@.len(),
    ensures
        r == match_at(hay@, needle@, i as int),
{
    let n = needle.len();
    let hl = hay.len();
    let mut j: usize = 0;
    while j < n
        invariant
            j <= n,
            n == needle@.len(),
            hl == hay@.len(),
            i + n <= hl,
            forall|k: int| 0 <= k < j ==> hay@[i + k] == needle@[k],
        decreases n - j,
    {
        if hay[i + j] != needle[j] {
            assert(hay@.subrange(i as int, i + n) != needle@) by {
                assert(hay@.subrange(i as int, i + n)[j as int] != needle@[j as int]);
            }
            return false;
        }
        j += 1;
    }
    assert(hay@.subrange(i as int, i + n) =~= needle@);
    true
}

/// The least index at which `needle` occurs in `hay`, if any.
pub fn find_first(hay: &Vec<char>, needle: &Vec<char>) -> (r: Option<usize>)
    ensures
        match r {
            Some(i) => find_from(hay@, needle@, 0) == Some(i as int),
            None => find_from(hay@, needle@, 0) is None,
        },
{
    let hlen = hay.len();
    let nlen = needle.len();
    if nlen > hlen {
        return None;
    }
    if nlen == 0 {
        assert(hay@.subrange(0, 0) =~= needle@);
        return Some(0);
    }
    let mut i: usize = 0;
    while i <= hlen - nlen
        invariant
            hlen == hay@.len(),
            nlen == needle@.len(),
            1 <= nlen <= hlen,
            i <= hlen - nlen + 1,
            find_from(hay@, needle@, 0) == find_from(hay@, needle@, i as int),
        decreases hlen - nlen + 1 - i,
    {
        if eq_at(hay, needle, i) {
            assert(find_from(hay@, needle@, i as int) == Some(i as int));
            return Some(i);
        }
        assert(find_from(hay@, needle@, i as int) == find_from(hay@, needle@, i + 1));
        i += 1;
    }
    assert(find_from(hay@, needle@, i as int) is None);
    None
}

/// Whether `needle` occurs anywhere in `hay`.
pub fn contains_seq(hay: &Vec<char>, needle: &Vec<char>) -> (r: bool)
    ensures
        r == occurs(hay@, needle@),
{
    let r = find_first(hay, needle);
    proof {
        lemma_find_from_correct(hay@, needle@, 0);
        if r is Some {
        } else {
            assert forall|i: int| !match_at(hay@, needle@, i) by {
                if 0 <= i {
                } else {
                }
            }
        }
    }
    r.is_some()
}

/// Whether `a` and `b` hold the same characters.
pub fn eq_chars(a: &Vec<char>, b: &Vec<char>) -> (r: bool)
    ensures
        r == (a@ == b@),
{
    if a.len() != b.len() {
        proof {
            assert(a@ != b@) by {
                if a@ == b@ {
                    assert(a@.len() == b@.len());
                }
            }
        }
        return false;
    }
    let r = eq_at(a, b, 0);
    proof {
        assert(a@.subrange(0, a@.len() as int) =~= a@);
    }
    r
}

/// Whether character `c` occurs in `v`.
pub open spec fn has_char(s: Seq<char>, c: char) -> bool {
    exists|i: int| 0 <= i < s.len() && s[i] == c
}

/// Whether character `c` occurs in `v`.
pub fn contains_char(v: &Vec<char>, c: char) -> (r: bool)
    ensures
        r == has_char(v@, c),
{
    let n = v.len();
    let mut i: usize = 0;
    while i < n
        invariant
            i <= n,
            n == v@.len(),
            forall|k: int| 0 <= k < i ==> v@[k] != c,
        decreases n - i,
    {
        if v[i] == c {
            return true;
        }
        i += 1;
    }
    false
}

/// Copies `src[from .. to]` onto the end of `dst`.
pub fn extend_range(dst: &mut Vec<char>, src: &Vec<char>, from: usize, to: usize)
    requires
        from <= to <= src@.len(),
    ensures
        final(dst)@ == old(dst)@ + src@.subrange(from as int, to as int),
{
    let mut i = from;
    while i < to
        invariant
            from <= i <= to <= src@.len(),
            dst@ == old(dst)@ + src@.subrange(from as int, i as int),
        decreases to - i,
    {
        dst.push(src[i]);
        assert(dst@ =~= old(dst)@ + src@.subrange(from as int, i + 1));
        i += 1;
    }
}

/// A fresh copy of `src[from .. to]`.
pub fn copy_range(src: &Vec<char>, from: usize, to: usize) -> (r: Vec<char>)
    requires
        from <= to <= src@.len(),
    ensures
        r@ == src@.subrange(from as int, to as int),
{
    let mut out: Vec<char> = Vec::new();
    extend_range(&mut out, src, from, to);
    out
}

/// `hay` with its first occurrence of `old_part` (already known to start
/// at `i`) replaced by `new_part`.
pub fn splice(hay: &Vec<char>, i: usize, old_len: usize, new_part: &Vec<char>) -> (r: Vec<char>)
    requires
        i + old_len <= hay@.len(),
    ensures
        r@ == replace_at(hay@, i as int, old_len as int, new_part@),
{
    let mut out: Vec<char> = Vec::new();
    let hlen = hay.len();
    extend_range(&mut out, hay, 0, i);
    extend_range(&mut out, new_part, 0, new_part.len());
    extend_range(&mut out, hay, i + old_len, hlen);
    assert(out@ =~= replace_at(hay@, i as int, old_len as int, new_part@));
    out
}

/// How many whitespace characters `s` begins with.
pub open spec fn leading_ws_count(s: Seq<char>) -> int
    decreases s.len(),
{
    if s.len() == 0 || !spec_is_ws(s[0]) {
        0
    } else {
        1 + leading_ws_count(s.drop_first())
    }
}

/// How many whitespace characters `s` ends with.
pub open spec fn trailing_ws_count(s: Seq<char>) -> int
    decreases s.len(),
{
    if s.len() == 0 || !spec_is_ws(s[s.len() - 1]) {
        0
    } else {
        1 + trailing_ws_count(s.drop_last())
    }
}

/// `s` without its leading whitespace.
pub open spec fn spec_trim_start(s: Seq<char>) -> Seq<char> {
    s.subrange(leading_ws_count(s), s.len() as int)
}

/// `s` without its trailing whitespace.
pub open spec fn spec_trim_end(s: Seq<char>) -> Seq<char> {
    s.subrange(0, s.len() - trailing_ws_count(s))
}

/// `s` without leading or trailing whitespace.
pub open spec fn spec_trim(s: Seq<char>) -> Seq<char> {
    spec_trim_end(spec_trim_start(s))
}

/// The leading whitespace of `s` itself.
pub open spec fn leading_ws(s: Seq<char>) -> Seq<char> {
    s.subrange(0, leading_ws_count(s))
}

/// The count of leading whitespace is in range, covers only whitespace,
/// and stops at the first non-whitespace character.
pub proof fn lemma_leading_ws_count(s: Seq<char>)
    ensures
        0 <= leading_ws_count(s) <= s.len(),
        forall|j: int| 0 <= j < leading_ws_count(s) ==> spec_is_ws(s[j]),
        leading_ws_count(s) < s.len() ==> !spec_is_ws(s[leading_ws_count(s)]),
    decreases s.len(),
{
    if s.len() == 0 || !spec_is_ws(s[0]) {
    } else {
        lemma_leading_ws_count(s.drop_first());
        assert forall|j: int| 0 <= j < leading_ws_count(s) implies spec_is_ws(s[j]) by {
            if j > 0 {
                assert(s.drop_first()[j - 1] == s[j]);
            }
        }
    }
}

/// The count of trailing whitespace is in range, covers only whitespace,
/// and stops at the last non-whitespace character.
pub proof fn lemma_trailing_ws_count(s: Seq<char>)
    ensures
        0 <= trailing_ws_count(s) <= s.len(),
        forall|j: int| s.len() - trailing_ws_count(s) <= j < s.len() ==> spec_is_ws(s[j]),
        trailing_ws_count(s) < s.len() ==> !spec_is_ws(s[s.len() - trailing_ws_count(s) - 1]),
    decreases s.len(),
{
    if s.len() == 0 || !spec_is_ws(s[s.len() - 1]) {
    } else {
        lemma_trailing_ws_count(s.drop_last());
        assert forall|j: int| s.len() - trailing_ws_count(s) <= j < s.len() implies spec_is_ws(
            s[j],
        ) by {
            if j < s.len() - 1 {
                assert(s.drop_last()[j] == s[j]);
            }
        }
    }
}

/// The number of whitespace characters `v` begins with.
pub fn leading_ws_len(v: &Vec<char>) -> (r: usize)
    ensures
        r as int == leading_ws_count(v@),
{
    let n = v.len();
    let mut i: usize = 0;
    while i < n && is_ws(v[i])
        invariant
            i <= n,
            n == v@.len(),
            forall|k: int| 0 <= k < i ==> spec_is_ws(v@[k]),
        decreases n - i,
    {
        i += 1;
    }
    proof {
        lemma_leading_ws_count(v@);
        let c = leading_ws_count(v@);
        if c < i {
            assert(spec_is_ws(v@[c]));
        }
        if c > i {
            assert(spec_is_ws(v@[i as int]));
        }
    }
    i
}

/// `v` without its leading whitespace.
pub fn trim_start(v: &Vec<char>) -> (r: Vec<char>)
    ensures
        r@ == spec_trim_start(v@),
{
    proof {
        lemma_leading_ws_count(v@);
    }
    let a = leading_ws_len(v);
    copy_range(v, a, v.len())
}

/// `v` without its trailing whitespace.
pub fn trim_end(v: &Vec<char>) -> (r: Vec<char>)
    ensures
        r@ == spec_trim_end(v@),
{
    let n = v.len();
    let mut b: usize = n;
    while b > 0 && is_ws(v[b - 1])
        invariant
            b <= n,
            n == v@.len(),
            forall|k: int| b <= k < n ==> spec_is_ws(v@[k]),
        decreases b,
    {
        b -= 1;
    }
    proof {
        lemma_trailing_ws_count(v@);
        let t = trailing_ws_count(v@);
        if n - t < b {
            assert(spec_is_ws(v@[b - 1]));
        }
        if n - t > b {
            assert(spec_is_ws(v@[n - t - 1]));
        }
    }
    copy_range(v, 0, b)
}

/// `v` without leading or trailing whitespace.
pub fn trim(v: &Vec<char>) -> (r: Vec<char>)
    ensures
        r@ == spec_trim(v@),
{
    let s = trim_start(v);
    trim_end(&s)
}

/// The views of the elements of `vs`.
pub open spec fn views_of(vs: Seq<Vec<char>>) -> Seq<Seq<char>> {
    Seq::new(vs.len(), |k: int| vs[k]@)
}

/// `ls` with `c` prepended to its first element.
pub open spec fn prepend_first(c: char, ls: Seq<Seq<char>>) -> Seq<Seq<char>> {
    seq![seq![c] + ls[0]] + ls.drop_first()
}

/// The lines of `s`, split at every newline character.  An empty input
/// has one empty line; a trailing newline yields a final empty line.
pub open spec fn line_split(s: Seq<char>) -> Seq<Seq<char>>
    decreases s.len(),
{
    if s.len() == 0 {
        seq![Seq::<char>::empty()]
    } else if s[0] == '\n' {
        seq![Seq::<char>::empty()] + line_split(s.drop_first())
    } else {
        prepend_first(s[0], line_split(s.drop_first()))
    }
}

/// Splitting always yields at least one line.
pub proof fn lemma_line_split_len(s: Seq<char>)
    ensures
        line_split(s).len() >= 1,
    decreases s.len(),
{
    if s.len() == 0 {
    } else if s[0] == '\n' {
        lemma_line_split_len(s.drop_first());
    } else {
        lemma_line_split_len(s.drop_first());
    }
}

/// The lines of `s` joined back with single newline characters.
pub open spec fn line_join(ls: Seq<Seq<char>>) -> Seq<char>
    decreases ls.len(),
{
    if ls.len() == 0 {
        Seq::empty()
    } else if ls.len() == 1 {
        ls[0]
    } else {
        ls[0] + seq!['\n'] + line_join(ls.drop_first())
    }
}

/// Joining after appending one more line appends a newline and that line.
pub proof fn lemma_line_join_push(ls: Seq<Seq<char>>, x: Seq<char>)
    requires
        ls.len() >= 1,
    ensures
        line_join(ls.push(x)) == line_join(ls) + seq!['\n'] + x,
    decreases ls.len(),
{
    if ls.len() == 1 {
        assert(ls.push(x).drop_first() =~= seq![x]);
        assert(line_join(seq![x]) == x);
        assert(ls.push(x)[0] == ls[0]);
    } else {
        lemma_line_join_push(ls.drop_first(), x);
        assert(ls.push(x).drop_first() =~= ls.drop_first().push(x));
        assert(line_join(ls.push(x)) == ls[0] + seq!['\n'] + line_join(ls.drop_first().push(x)));
        assert(line_join(ls) + seq!['\n'] + x =~= ls[0] + seq!['\n'] + (line_join(ls.drop_first())
            + seq!['\n'] + x));
    }
}

/// The lines of `v`, split at every newline character.
pub fn split_lines(v: &Vec<char>) -> (r: Vec<Vec<char>>)
    ensures
        views_of(r@) == line_split(v@),
        r@.len() >= 1,
{
    let n = v.len();
    let mut done: Vec<Vec<char>> = Vec::new();
    let mut cur: Vec<char> = Vec::new();
    let mut i: usize = 0;
    proof {
        lemma_line_split_len(v@);
        assert(v@.subrange(0, n as int) =~= v@);
        assert(views_of(done@) =~= Seq::<Seq<char>>::empty());
        assert(prepend_first_seq(cur@, line_split(v@)) =~~= line_split(v@));
    }
    while i < n
        invariant
            i <= n,
            n == v@.len(),
            line_split(v@) == views_of(done@) + prepend_first_seq(cur@, line_split(
                v@.subrange(i as int, n as int),
            )),
        decreases n - i,
    {
        let ghost rest = v@.subrange(i as int, n as int);
        let ghost rest2 = v@.subrange(i + 1, n as int);
        let ghost pre_done = done@;
        let ghost pre_cur = cur@;
        proof {
            assert(rest.drop_first() =~= rest2);
            lemma_line_split_len(rest2);
        }
        let c = v[i];
        if c == '\n' {
            assert(line_split(rest) == seq![Seq::<char>::empty()] + line_split(rest2));
            let finished = cur;
            cur = Vec::new();
            done.push(finished);
            proof {
                assert(views_of(done@) =~= views_of(pre_done).push(pre_cur));
                assert(prepend_first_seq(pre_cur, seq![Seq::<char>::empty()] + line_split(rest2))
                    =~~= seq![pre_cur] + line_split(rest2));
                assert(prepend_first_seq(cur@, line_split(rest2)) =~~= line_split(rest2));
                assert(views_of(pre_done) + (seq![pre_cur] + line_split(rest2)) =~= views_of(
                    done@,
                ) + line_split(rest2));
            }
        } else {
            assert(line_split(rest) == prepend_first(c, line_split(rest2)));
            cur.push(c);
            proof {
                assert(cur@ == pre_cur.push(c));
                assert(prepend_first_seq(pre_cur, prepend_first(c, line_split(rest2)))
                    =~~= prepend_first_seq(cur@, line_split(rest2)));
            }
        }
        i += 1;
    }
    proof {
        assert(v@.subrange(n as int, n as int) =~= Seq::<char>::empty());
        assert(line_split(Seq::<char>::empty()) == seq![Seq::<char>::empty()]);
        assert(prepend_first_seq(cur@, seq![Seq::<char>::empty()]) =~~= seq![cur@]);
    }
    let ghost pre_done = done@;
    let ghost pre_cur = cur@;
    done.push(cur);
    proof {
        assert(views_of(done@) =~= views_of(pre_done).push(pre_cur));
    }
    done
}

/// `ls` with `p` prepended to its first element.
pub open spec fn prepend_first_seq(p: Seq<char>, ls: Seq<Seq<char>>) -> Seq<Seq<char>> {
    seq![p + ls[0]] + ls.drop_first()
}

/// The lines joined back with single newline characters.
pub fn join_lines(lines: &Vec<Vec<char>>) -> (r: Vec<char>)
    ensures
        r@ == line_join(views_of(lines@)),
{
    let n = lines.len();
    let mut out: Vec<char> = Vec::new();
    if n == 0 {
        return out;
    }
    let first = &lines[0];
    extend_range(&mut out, first, 0, first.len());
    proof {
        assert(views_of(lines@).subrange(0, 1) =~= seq![lines@[0]@]);
        assert(out@ =~= line_join(views_of(lines@).subrange(0, 1)));
    }
    let mut k: usize = 1;
    while k < n
        invariant
            1 <= k <= n,
            n == lines@.len(),
            out@ == line_join(views_of(lines@).subrange(0, k as int)),
        decreases n - k,
    {
        out.push('\n');
        let line = &lines[k];
        extend_range(&mut out, line, 0, line.len());
        proof {
            let pre = views_of(lines@).subrange(0, k as int);
            lemma_line_join_push(pre, lines@[k as int]@);
            assert(views_of(lines@).subrange(0, k + 1) =~= pre.push(lines@[k as int]@));
            assert(out@ =~= line_join(pre) + seq!['\n'] + lines@[k as int]@);
        }
        k += 1;
    }
    proof {
        assert(views_of(lines@).subrange(0, n as int) =~= views_of(lines@));
    }
    out
}

/// The views of the elements of `vs`.
pub open spec fn str_views(vs: Seq<String>) -> Seq<Seq<char>> {
    Seq::new(vs.len(), |k: int| vs[k]@)
}

/// The parts joined with `sep` between consecutive parts.
pub open spec fn join_with(parts: Seq<Seq<char>>, sep: Seq<char>) -> Seq<char>
    decreases parts.len(),
{
    if parts.len() == 0 {
        Seq::empty()
    } else if parts.len() == 1 {
        parts[0]
    } else {
        parts[0] + sep + join_with(parts.drop_first(), sep)
    }
}

/// Joining after appending one more part appends the separator and it.
pub proof fn lemma_join_with_push(parts: Seq<Seq<char>>, sep: Seq<char>, x: Seq<char>)
    requires
        parts.len() >= 1,
    ensures
        join_with(parts.push(x), sep) == join_with(parts, sep) + sep + x,
    decreases parts.len(),
{
    if parts.len() == 1 {
        assert(parts.push(x).drop_first() =~= seq![x]);
        assert(parts.push(x)[0] == parts[0]);
        assert(join_with(seq![x], sep) == x);
    } else {
        lemma_join_with_push(parts.drop_first(), sep, x);
        assert(parts.push(x).drop_first() =~= parts.drop_first().push(x));
        assert(join_with(parts, sep) + sep + x =~= parts[0] + sep + (join_with(
            parts.drop_first(),
            sep,
        ) + sep + x));
    }
}

/// The strings joined with `sep` between consecutive strings.
pub fn join_strings(parts: &Vec<String>, sep: &str) -> (r: String)
    ensures
        r@ == join_with(str_views(parts@), sep@),
{
    let n = parts.len();
    let mut out = String::new();
    if n == 0 {
        return out;
    }
    out.append(parts[0].as_str());
    proof {
        assert(str_views(parts@).subrange(0, 1) =~= seq![parts@[0]@]);
        assert(out@ == join_with(str_views(parts@).subrange(0, 1), sep@));
    }
    let mut k: usize = 1;
    while k < n
        invariant
            1 <= k <= n,
            n == parts@.len(),
            out@ == join_with(str_views(parts@).subrange(0, k as int), sep@),
        decreases n - k,
    {
        out.append(sep);
        out.append(parts[k].as_str());
        proof {
            let pre = str_views(parts@).subrange(0, k as int);
            lemma_join_with_push(pre, sep@, parts@[k as int]@);
            assert(str_views(parts@).subrange(0, k + 1) =~= pre.push(parts@[k as int]@));
            assert(out@ =~= join_with(pre, sep@) + sep@ + parts@[k as int]@);
        }
        k += 1;
    }
    proof {
        assert(str_views(parts@).subrange(0, n as int) =~= str_views(parts@));
    }
    out
}

/// Whether `p` is a prefix of `s`.
pub open spec fn is_prefix(p: Seq<char>, s: Seq<char>) -> bool {
    p.len() <= s.len() && s.subrange(0, p.len() as int) == p
}

/// Whether `p` is a prefix of `s`.
pub fn starts_with_chars(s: &Vec<char>, p: &Vec<char>) -> (r: bool)
    ensures
        r == is_prefix(p@, s@),
{
    let pl = p.len();
    if pl > s.len() {
        return false;
    }
    eq_at(s, p, 0)
}

/// `n` copies of `c`.
pub open spec fn repeat_char(c: char, n: int) -> Seq<char> {
    Seq::new(n as nat, |i: int| c)
}

/// A vector of `n` copies of `c`.
pub fn repeat(c: char, n: usize) -> (r: Vec<char>)
    ensures
        r@ == repeat_char(c, n as int),
{
    let mut out: Vec<char> = Vec::new();
    let mut i: usize = 0;
    while i < n
        invariant
            i <= n,
            out@ == repeat_char(c, i as int),
        decreases n - i,
    {
        out.push(c);
        assert(out@ =~= repeat_char(c, i + 1));
        i += 1;
    }
    out
}

/// The character for decimal digit `d`.
pub open spec fn digit_char(d: int) -> char {
    if d == 0 {
        '0'
    } else if d == 1 {
        '1'
    } else if d == 2 {
        '2'
    } else if d == 3 {
        '3'
    } else if d == 4 {
        '4'
    } else if d == 5 {
        '5'
    } else if d == 6 {
        '6'
    } else if d == 7 {
        '7'
    } else if d == 8 {
        '8'
    } else {
        '9'
    }
}

/// The decimal digits of `n`, most significant first.
pub open spec fn dec_digits(n: int) -> Seq<char>
    decreases n,
{
    if n < 10 {
        seq![digit_char(n)]
    } else {
        dec_digits(n / 10).push(digit_char(n % 10))
    }
}

/// The character for decimal digit `d`.
pub fn digit(d: u64) -> (r: char)
    requires
        d < 10,
    ensures
        r == digit_char(d as int),
{
    if d == 0 {
        '0'
    } else if d == 1 {
        '1'
    } else if d == 2 {
        '2'
    } else if d == 3 {
        '3'
    } else if d == 4 {
        '4'
    } else if d == 5 {
        '5'
    } else if d == 6 {
        '6'
    } else if d == 7 {
        '7'
    } else if d == 8 {
        '8'
    } else {
        '9'
    }
}

/// The decimal digits of `n`, most significant first.
pub fn u64_to_dec(n: u64) -> (r: Vec<char>)
    ensures
        r@ == dec_digits(n as int),
    decreases n,
{
    if n < 10 {
        let mut out: Vec<char> = Vec::new();
        out.push(digit(n));
        assert(out@ =~= dec_digits(n as int));
        out
    } else {
        let mut out = u64_to_dec(n / 10);
        out.push(digit(n % 10));
        out
    }
}

} // verus!

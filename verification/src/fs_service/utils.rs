//! Path and text helpers shared by the service operations, together with
//! the small set of trusted calls into the host environment.

use crate::error::ServiceError;
use crate::text::{
    chars_to_string, copy_range, dec_digits, digit, digit_char, extend_range, str_to_chars,
    u64_to_dec,
};
use vstd::prelude::*;
use vstd::string::*;

verus! {

/// `s` with every `\r\n` pair, and then every remaining lone `\r`,
/// rewritten to a single `\n`.
pub open spec fn norm_newlines(s: Seq<char>) -> Seq<char>
    decreases s.len(),
{
    if s.len() == 0 {
        Seq::empty()
    } else if s[0] == '\r' {
        if s.len() >= 2 && s[1] == '\n' {
            seq!['\n'] + norm_newlines(s.subrange(2, s.len() as int))
        } else {
            seq!['\n'] + norm_newlines(s.drop_first())
        }
    } else {
        seq![s[0]] + norm_newlines(s.drop_first())
    }
}

/// `v` with its line endings normalized to `\n`.
pub fn normalize_newline_chars(v: &Vec<char>) -> (r: Vec<char>)
    ensures
        r@ == norm_newlines(v@),
{
    let n = v.len();
    let mut out: Vec<char> = Vec::new();
    let mut i: usize = 0;
    proof {
        assert(v@.subrange(0, n as int) =~= v@);
    }
    while i < n
        invariant
            i <= n,
            n == v@.len(),
            norm_newlines(v@) == out@ + norm_newlines(v@.subrange(i as int, n as int)),
        decreases n - i,
    {
        let ghost rest = v@.subrange(i as int, n as int);
        let ghost pre_out = out@;
        let c = v[i];
        if c == '\r' {
            out.push('\n');
            if i + 1 < n && v[i + 1] == '\n' {
                proof {
                    assert(rest.subrange(2, rest.len() as int) =~= v@.subrange(i + 2, n as int));
                    assert(norm_newlines(rest) == seq!['\n'] + norm_newlines(
                        v@.subrange(i + 2, n as int),
                    ));
                    assert(pre_out + norm_newlines(rest) =~= out@ + norm_newlines(
                        v@.subrange(i + 2, n as int),
                    ));
                }
                i += 2;
            } else {
                proof {
                    assert(rest.drop_first() =~= v@.subrange(i + 1, n as int));
                    assert(norm_newlines(rest) == seq!['\n'] + norm_newlines(
                        v@.subrange(i + 1, n as int),
                    ));
                    assert(pre_out + norm_newlines(rest) =~= out@ + norm_newlines(
                        v@.subrange(i + 1, n as int),
                    ));
                }
                i += 1;
            }
        } else {
            out.push(c);
            proof {
                assert(rest.drop_first() =~= v@.subrange(i + 1, n as int));
                assert(norm_newlines(rest) == seq![c] + norm_newlines(
                    v@.subrange(i + 1, n as int),
                ));
                assert(pre_out + norm_newlines(rest) =~= out@ + norm_newlines(
                    v@.subrange(i + 1, n as int),
                ));
            }
            i += 1;
        }
    }
    proof {
        assert(v@.subrange(n as int, n as int) =~= Seq::<char>::empty());
    }
    out
}

/// `text` with every line ending normalized to `\n`.
pub fn normalize_line_endings(text: &str) -> (r: String)
    ensures
        r@ == norm_newlines(text@),
{
    let v = str_to_chars(text);
    let out = normalize_newline_chars(&v);
    chars_to_string(&out)
}

/// Whether `s` contains a `\r\n` pair.
pub open spec fn has_crlf(s: Seq<char>) -> bool {
    exists|i: int| 0 <= i && i + 1 < s.len() && #[trigger] s[i] == '\r' && s[i + 1] == '\n'
}

/// Whether `s` contains a carriage return.
pub open spec fn has_cr(s: Seq<char>) -> bool {
    exists|i: int| 0 <= i < s.len() && s[i] == '\r'
}

/// The dominant line ending of `s`: `\r\n` if any such pair occurs,
/// else `\r` if any lone carriage return occurs, else `\n`.
pub open spec fn spec_line_ending(s: Seq<char>) -> Seq<char> {
    if has_crlf(s) {
        seq!['\r', '\n']
    } else if has_cr(s) {
        seq!['\r']
    } else {
        seq!['\n']
    }
}

/// Whether `v` contains a `\r\n` pair.
pub fn scan_crlf(v: &Vec<char>) -> (r: bool)
    ensures
        r == has_crlf(v@),
{
    let n = v.len();
    if n < 2 {
        return false;
    }
    let mut i: usize = 0;
    while i < n - 1
        invariant
            2 <= n,
            i <= n - 1,
            n == v@.len(),
            forall|k: int| 0 <= k && k + 1 < i + 1 ==> !(#[trigger] v@[k] == '\r' && v@[k + 1]
                == '\n'),
        decreases n - i,
    {
        if v[i] == '\r' && v[i + 1] == '\n' {
            return true;
        }
        i += 1;
    }
    false
}

/// `s` with every `\n` replaced by `ending`.
pub open spec fn spec_restore(s: Seq<char>, ending: Seq<char>) -> Seq<char>
    decreases s.len(),
{
    if s.len() == 0 {
        Seq::empty()
    } else if s[0] == '\n' {
        ending + spec_restore(s.drop_first(), ending)
    } else {
        seq![s[0]] + spec_restore(s.drop_first(), ending)
    }
}

/// `v` with every `\n` replaced by `ending`.
pub fn restore_line_endings(v: &Vec<char>, ending: &Vec<char>) -> (r: Vec<char>)
    ensures
        r@ == spec_restore(v@, ending@),
{
    let n = v.len();
    let mut out: Vec<char> = Vec::new();
    let mut i: usize = 0;
    proof {
        assert(v@.subrange(0, n as int) =~= v@);
    }
    while i < n
        invariant
            i <= n,
            n == v@.len(),
            spec_restore(v@, ending@) == out@ + spec_restore(
                v@.subrange(i as int, n as int),
                ending@,
            ),
        decreases n - i,
    {
        let ghost rest = v@.subrange(i as int, n as int);
        let ghost pre_out = out@;
        let c = v[i];
        if c == '\n' {
            extend_range(&mut out, ending, 0, ending.len());
            proof {
                assert(ending@.subrange(0, ending@.len() as int) =~= ending@);
            }
        } else {
            out.push(c);
        }
        proof {
            assert(rest.drop_first() =~= v@.subrange(i + 1, n as int));
            if c == '\n' {
                assert(pre_out + spec_restore(rest, ending@) =~= out@ + spec_restore(
                    v@.subrange(i + 1, n as int),
                    ending@,
                ));
            } else {
                assert(pre_out + spec_restore(rest, ending@) =~= out@ + spec_restore(
                    v@.subrange(i + 1, n as int),
                    ending@,
                ));
            }
        }
        i += 1;
    }
    proof {
        assert(v@.subrange(n as int, n as int) =~= Seq::<char>::empty());
    }
    out
}

/// Integer division of `n` by `d`, rounded to the nearest quotient with
/// ties going to the even one.
pub open spec fn round_half_even(n: int, d: int) -> int {
    let q = n / d;
    let r = n % d;
    if 2 * r > d {
        q + 1
    } else if 2 * r < d {
        q
    } else if q % 2 == 0 {
        q
    } else {
        q + 1
    }
}

/// `b` scaled against unit size `t`, with two decimal places and the
/// unit's suffix.
pub open spec fn scaled_text(b: int, t: int, suffix: Seq<char>) -> Seq<char> {
    let q = round_half_even(100 * b, t);
    dec_digits(q / 100) + seq!['.'] + seq![digit_char((q / 10) % 10), digit_char(q % 10)] + suffix
}

/// A human-readable rendering of a byte count: the largest binary unit
/// not exceeding the value, with two decimal places, or the plain count
/// for values under one kibibyte.
pub open spec fn spec_format_bytes(b: int) -> Seq<char> {
    if b >= 0x10000000000 {
        scaled_text(b, 0x10000000000, " TB"@)
    } else if b >= 0x40000000 {
        scaled_text(b, 0x40000000, " GB"@)
    } else if b >= 0x100000 {
        scaled_text(b, 0x100000, " MB"@)
    } else if b >= 0x400 {
        scaled_text(b, 0x400, " KB"@)
    } else {
        dec_digits(b) + " bytes"@
    }
}

/// Renders `b` scaled against `t`, two decimal places, with `suffix`.
fn scaled(b: u64, t: u64, suffix: &str) -> (r: String)
    requires
        1024 <= t,
        t as int <= b as int,
    ensures
        r@ == scaled_text(b as int, t as int, suffix@),
{
    let n: u128 = 100 * (b as u128);
    let d: u128 = t as u128;
    let q0: u128 = n / d;
    let rem: u128 = n % d;
    let q: u128 = if 2 * rem > d {
        q0 + 1
    } else if 2 * rem < d {
        q0
    } else if q0 % 2 == 0 {
        q0
    } else {
        q0 + 1
    };
    proof {
        assert(q as int == round_half_even(100 * (b as int), t as int));
    }
    let whole: u64 = (q / 100) as u64;
    proof {
        assert(q / 100 <= q);
    }
    let mut out = u64_to_dec(whole);
    out.push('.');
    out.push(digit(((q / 10) % 10) as u64));
    out.push(digit((q % 10) as u64));
    let mut text = chars_to_string(&out);
    text.append(suffix);
    proof {
        assert(out@ =~= dec_digits(q as int / 100) + seq!['.'] + seq![
            digit_char((q as int / 10) % 10),
            digit_char(q as int % 10),
        ]);
    }
    text
}

/// A human-readable rendering of a byte count.
pub fn format_bytes(bytes: u64) -> (r: String)
    ensures
        r@ == spec_format_bytes(bytes as int),
{
    if bytes >= 0x10000000000 {
        scaled(bytes, 0x10000000000, " TB")
    } else if bytes >= 0x40000000 {
        scaled(bytes, 0x40000000, " GB")
    } else if bytes >= 0x100000 {
        scaled(bytes, 0x100000, " MB")
    } else if bytes >= 0x400 {
        scaled(bytes, 0x400, " KB")
    } else {
        let mut text = chars_to_string(&u64_to_dec(bytes));
        text.append(" bytes");
        text
    }
}

/// Whether `p` names the user's home directory or an entry beneath it:
/// a lone `~`, or `~` followed directly by a path separator.
pub open spec fn is_home_relative(p: Seq<char>) -> bool {
    p.len() >= 1 && p[0] == '~' && (p.len() == 1 || p[1] == '/')
}

/// `p` with a leading `~` replaced by the home directory `h`.
pub open spec fn spec_expand_home(p: Seq<char>, home: Option<Seq<char>>) -> Seq<char> {
    match home {
        Some(h) => if is_home_relative(p) {
            h + p.subrange(1, p.len() as int)
        } else {
            p
        },
        None => p,
    }
}

/// The view of an optional string.
pub open spec fn opt_view(o: &Option<String>) -> Option<Seq<char>> {
    match o {
        Some(s) => Some(s@),
        None => None,
    }
}

/// `path` with a leading home-directory marker expanded to `home`.
pub fn expand_home(path: &str, home: &Option<String>) -> (r: String)
    ensures
        r@ == spec_expand_home(path@, opt_view(home)),
{
    let pc = str_to_chars(path);
    match home {
        Some(h) => {
            if pc.len() >= 1 && pc[0] == '~' && (pc.len() == 1 || pc[1] == '/') {
                let mut hc = str_to_chars(h.as_str());
                extend_range(&mut hc, &pc, 1, pc.len());
                chars_to_string(&hc)
            } else {
                String::from_str(path)
            }
        },
        None => String::from_str(path),
    }
}

/// Whether `component` is written in the verbatim-disk form a Windows
/// path prefix can take: two backslashes, a question mark, a backslash,
/// a drive letter and a colon.
pub open spec fn spec_is_verbatim_disk(s: Seq<char>) -> bool {
    s.len() == 6 && s[0] == '\\' && s[1] == '\\' && s[2] == '?' && s[3] == '\\' && ((0x41
        <= s[4] as u32 && s[4] as u32 <= 0x5A) || (0x61 <= s[4] as u32 && s[4] as u32 <= 0x7A))
        && s[5] == ':'
}

/// Whether `component` is a verbatim-disk path prefix.
pub fn is_verbatim_disk(component: &str) -> (r: bool)
    ensures
        r == spec_is_verbatim_disk(component@),
{
    let v = str_to_chars(component);
    if v.len() != 6 {
        return false;
    }
    let letter = v[4] as u32;
    v[0] == '\\' && v[1] == '\\' && v[2] == '?' && v[3] == '\\' && ((0x41 <= letter && letter
        <= 0x5A) || (0x61 <= letter && letter <= 0x7A)) && v[5] == ':'
}

/// The octal digits of `n`, most significant first.
pub open spec fn oct_digits(n: int) -> Seq<char>
    decreases n,
{
    if n < 8 {
        seq![digit_char(n)]
    } else {
        oct_digits(n / 8).push(digit_char(n % 8))
    }
}

/// The permission summary for mode bits `mode`: a leading zero followed
/// by the octal rendering of the low nine bits.
pub open spec fn spec_format_permissions(mode: int) -> Seq<char> {
    seq!['0'] + oct_digits(mode % 512)
}

/// The permission summary for mode bits `mode`.
pub fn format_permissions(mode: u32) -> (r: String)
    ensures
        r@ == spec_format_permissions(mode as int),
{
    let low: u64 = (mode % 512) as u64;
    let mut out: Vec<char> = Vec::new();
    out.push('0');
    let digits = oct_of(low);
    extend_range(&mut out, &digits, 0, digits.len());
    proof {
        assert(digits@.subrange(0, digits@.len() as int) =~= digits@);
        assert(out@ =~= seq!['0'] + digits@);
    }
    chars_to_string(&out)
}

/// The octal digits of `n`, most significant first.
fn oct_of(n: u64) -> (r: Vec<char>)
    ensures
        r@ == oct_digits(n as int),
    decreases n,
{
    if n < 8 {
        let mut out: Vec<char> = Vec::new();
        out.push(digit(n));
        assert(out@ =~= oct_digits(n as int));
        out
    } else {
        let mut out = oct_of(n / 8);
        out.push(digit(n % 8));
        out
    }
}

/// Best-effort check whether any existing prefix of `path` is itself a
/// symbolic link.  Each component prefix is probed in turn, from the root
/// towards the leaf; probing stops at the first prefix that does not
/// exist.  A verbatim-disk prefix is never probed.  The outcome depends
/// on the state of the filesystem; a failed probe surfaces as an
/// input/output error.
pub fn contains_symlink(path: &str) -> (r: Result<bool, ServiceError>)
    ensures
        r matches Err(e) ==> e matches ServiceError::Io(_),
{
    let chars = str_to_chars(path);
    let n = chars.len();
    let mut e: usize = 1;
    while e < n
        invariant
            n == chars@.len(),
            1 <= e,
        decreases n - e,
    {
        if chars[e] == '/' && chars[e - 1] != '/' {
            match probe_component_prefix(&chars, e) {
                Ok(None) => {
                    return Ok(false);
                },
                Ok(Some(true)) => {
                    return Ok(true);
                },
                Ok(Some(false)) => {},
                Err(err) => {
                    return Err(err);
                },
            }
        }
        e += 1;
    }
    if n >= 1 && chars[n - 1] != '/' {
        match probe_component_prefix(&chars, n) {
            Ok(None) => {
                return Ok(false);
            },
            Ok(Some(true)) => {
                return Ok(true);
            },
            Ok(Some(false)) => {},
            Err(err) => {
                return Err(err);
            },
        }
    }
    Ok(false)
}

/// Probes one component prefix of `chars`, the first `e` characters.
/// `None` means the prefix does not exist and the walk can stop; `Some`
/// carries whether the prefix is itself a symbolic link.
fn probe_component_prefix(chars: &Vec<char>, e: usize) -> (r: Result<Option<bool>, ServiceError>)
    requires
        e <= chars@.len(),
    ensures
        r matches Err(err) ==> err matches ServiceError::Io(_),
{
    let prefix_chars = copy_range(chars, 0, e);
    let prefix = chars_to_string(&prefix_chars);
    if is_verbatim_disk(prefix.as_str()) {
        return Ok(Some(false));
    }
    if !path_exists(prefix.as_str()) {
        return Ok(None);
    }
    match probe_symlink(prefix.as_str()) {
        Ok(link) => Ok(Some(link)),
        Err(m) => Err(ServiceError::Io(m)),
    }
}

/// Relies on `std::path::Path::canonicalize`: the filesystem-resolved
/// form of an existing path; a path that cannot be resolved is returned
/// unchanged apart from nothing.  The result depends on the state of the
/// filesystem, so nothing further is assumed of it.
#[verifier::external_body]
pub fn normalize_path(path: &str) -> String {
    match std::path::Path::new(path).canonicalize() {
        Ok(resolved) => match resolved.into_os_string().into_string() {
            Ok(text) => text,
            Err(_) => path.to_string(),
        },
        Err(_) => path.to_string(),
    }
}

/// Relies on `std::path::Path::exists`: whether the path currently
/// resolves to an existing entry.  The result depends on the state of
/// the filesystem, so nothing is assumed of it.
#[verifier::external_body]
pub(crate) fn path_exists(path: &str) -> bool {
    std::path::Path::new(path).exists()
}

/// Relies on `std::path::Path::is_dir`: whether the path currently
/// resolves to a directory.  The result depends on the state of the
/// filesystem, so nothing is assumed of it.
#[verifier::external_body]
pub(crate) fn path_is_dir(path: &str) -> bool {
    std::path::Path::new(path).is_dir()
}

/// Relies on `std::path::Path::symlink_metadata`: whether the path
/// itself is a symbolic link, or the description of the failure to read
/// it.  The result depends on the state of the filesystem, so nothing is
/// assumed of it.
#[verifier::external_body]
pub(crate) fn probe_symlink(path: &str) -> Result<bool, String> {
    match std::path::Path::new(path).symlink_metadata() {
        Ok(meta) => Ok(meta.file_type().is_symlink()),
        Err(err) => Err(err.to_string()),
    }
}

/// The permission summary used where mode bits are unavailable: a
/// directory marker followed by whether the entry can be written.
pub open spec fn spec_format_attributes(read_only: bool, directory: bool) -> Seq<char> {
    (if directory {
        "d"@
    } else {
        "-"@
    }) + (if read_only {
        "r"@
    } else {
        "w"@
    })
}

/// The permission summary from attribute flags alone.
pub fn format_attributes(read_only: bool, directory: bool) -> (r: String)
    ensures
        r@ == spec_format_attributes(read_only, directory),
{
    let mut out = String::from_str(
        if directory {
            "d"
        } else {
            "-"
        },
    );
    out.append(
        if read_only {
            "r"
        } else {
            "w"
        },
    );
    out
}

#[verifier::external_type_specification]
#[verifier::external_body]
pub struct ExSystemTime(std::time::SystemTime);

/// Relies on `chrono::DateTime::from_timestamp` and its formatter: a
/// textual timestamp with weekday, date, time and zone offset.  A time
/// that falls outside the range the calendar can represent renders as
/// empty text rather than failing.  The result depends on the machine's
/// local time zone, so nothing is assumed of it.
#[verifier::external_body]
pub fn format_system_time(system_time: std::time::SystemTime) -> String {
    let utc = match system_time.duration_since(std::time::UNIX_EPOCH) {
        Ok(fwd) => i64::try_from(fwd.as_secs())
            .ok()
            .and_then(|secs| chrono::DateTime::from_timestamp(secs, fwd.subsec_nanos())),
        Err(back) => i64::try_from(back.duration().as_secs())
            .ok()
            .and_then(i64::checked_neg)
            .and_then(|secs| chrono::DateTime::from_timestamp(secs, 0)),
    };
    match utc {
        Some(stamp) => {
            stamp.with_timezone(&chrono::Local).format("%a %b %d %Y %H:%M:%S %:z").to_string()
        },
        None => String::new(),
    }
}

/// Relies on `dirs::home_dir`: the user's home directory, if the
/// platform reports one with a well-formed textual form.  The result
/// depends on the environment, so nothing is assumed of it.
#[verifier::external_body]
pub(crate) fn home_dir_string() -> Option<String> {
    match dirs::home_dir() {
        Some(dir) => dir.into_os_string().into_string().ok(),
        None => None,
    }
}

} // verus!
